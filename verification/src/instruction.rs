//! The wire format for record instructions.
//!
//! One discriminant byte, then a variant-specific payload; every multi-byte
//! integer is little-endian and 8 bytes wide. Trailing bytes beyond a
//! variant's fixed payload are ignored on decode.

use vstd::prelude::*;

use crate::error::ProgramFailure;

verus! {

/// The instructions the record program accepts.
#[derive(Clone, Debug, PartialEq)]
pub enum RecordInstruction {
    /// Create a new record: write the version byte and the authority key.
    Initialize,
    /// Overwrite `data.len()` bytes of the data region starting at `offset`.
    Write { offset: u64, data: Vec<u8> },
    /// Replace the stored authority key.
    SetAuthority,
    /// Zero the record and drain its lamports to a recipient.
    CloseAccount,
    /// Resize the data region to `data_length` bytes.
    Reallocate { data_length: u64 },
}

/// The mathematical value of a [`RecordInstruction`].
#[verifier::ext_equal]
pub ghost enum InstructionVal {
    Initialize,
    Write { offset: u64, data: Seq<u8> },
    SetAuthority,
    CloseAccount,
    Reallocate { data_length: u64 },
}

impl View for RecordInstruction {
    type V = InstructionVal;

    open spec fn view(&self) -> InstructionVal {
        match self {
            RecordInstruction::Initialize => InstructionVal::Initialize,
            RecordInstruction::Write { offset, data } => InstructionVal::Write {
                offset: *offset,
                data: data@,
            },
            RecordInstruction::SetAuthority => InstructionVal::SetAuthority,
            RecordInstruction::CloseAccount => InstructionVal::CloseAccount,
            RecordInstruction::Reallocate { data_length } => InstructionVal::Reallocate {
                data_length: *data_length,
            },
        }
    }
}

/// The little-endian bytes of `x`, least significant first.
pub open spec fn u64_le_bytes(x: u64) -> Seq<u8> {
    seq![
        (x % 256) as u8,
        ((x / 256) % 256) as u8,
        ((x / 65536) % 256) as u8,
        ((x / 16777216) % 256) as u8,
        ((x / 4294967296) % 256) as u8,
        ((x / 1099511627776) % 256) as u8,
        ((x / 281474976710656) % 256) as u8,
        ((x / 72057594037927936) % 256) as u8,
    ]
}

/// The value of 8 little-endian bytes, least significant first.
pub open spec fn u64_from_le(s: Seq<u8>) -> u64
    recommends
        s.len() == 8,
{
    ((s[0] as int) + (s[1] as int) * 256 + (s[2] as int) * 65536 + (s[3] as int) * 16777216
        + (s[4] as int) * 4294967296 + (s[5] as int) * 1099511627776 + (s[6] as int)
        * 281474976710656 + (s[7] as int) * 72057594037927936) as u64
}

/// The encoding of an instruction: its discriminant byte, then its payload.
pub open spec fn encode(v: InstructionVal) -> Seq<u8> {
    match v {
        InstructionVal::Initialize => seq![0u8],
        InstructionVal::Write { offset, data } => seq![1u8] + u64_le_bytes(offset) + data,
        InstructionVal::SetAuthority => seq![2u8],
        InstructionVal::CloseAccount => seq![3u8],
        InstructionVal::Reallocate { data_length } => seq![4u8] + u64_le_bytes(data_length),
    }
}

/// The instruction a byte buffer decodes to, or `None` if the discriminant
/// is unrecognized or the buffer is shorter than the variant's fixed
/// payload.
pub open spec fn decode(input: Seq<u8>) -> Option<InstructionVal> {
    if input.len() < 1 {
        None
    } else if input[0] == 0 {
        Some(InstructionVal::Initialize)
    } else if input[0] == 1 {
        if input.len() < 9 {
            None
        } else {
            Some(
                InstructionVal::Write {
                    offset: u64_from_le(input.subrange(1, 9)),
                    data: input.subrange(9, input.len() as int),
                },
            )
        }
    } else if input[0] == 2 {
        Some(InstructionVal::SetAuthority)
    } else if input[0] == 3 {
        Some(InstructionVal::CloseAccount)
    } else if input[0] == 4 {
        if input.len() < 9 {
            None
        } else {
            Some(InstructionVal::Reallocate { data_length: u64_from_le(input.subrange(1, 9)) })
        }
    } else {
        None
    }
}

/// Reassembling the little-endian bytes of a `u64` gives the value back.
pub proof fn lemma_u64_le_roundtrip(x: u64)
    ensures
        u64_from_le(u64_le_bytes(x)) == x,
{
    assert((x % 256) + ((x / 256) % 256) * 256 + ((x / 65536) % 256) * 65536 + ((x / 16777216)
        % 256) * 16777216 + ((x / 4294967296) % 256) * 4294967296 + ((x / 1099511627776) % 256)
        * 1099511627776 + ((x / 281474976710656) % 256) * 281474976710656 + ((x
        / 72057594037927936) % 256) * 72057594037927936 == x) by (bit_vector);
}

/// The codec round trip: every instruction decodes from its own encoding.
pub proof fn lemma_codec_roundtrip(v: InstructionVal)
    ensures
        decode(encode(v)) == Some(v),
{
    let enc = encode(v);
    match v {
        InstructionVal::Initialize => {},
        InstructionVal::Write { offset, data } => {
            lemma_u64_le_roundtrip(offset);
            assert(enc.subrange(1, 9) =~= u64_le_bytes(offset));
            assert(enc.subrange(9, enc.len() as int) =~= data);
            assert(decode(enc) =~= Some(v));
        },
        InstructionVal::SetAuthority => {},
        InstructionVal::CloseAccount => {},
        InstructionVal::Reallocate { data_length } => {
            lemma_u64_le_roundtrip(data_length);
            assert(enc.subrange(1, 9) =~= u64_le_bytes(data_length));
            assert(decode(enc) =~= Some(v));
        },
    }
}

/// Appends the little-endian bytes of `x` to `out`.
fn push_u64_le(out: &mut Vec<u8>, x: u64)
    ensures
        final(out)@ == old(out)@ + u64_le_bytes(x),
{
    out.push((x % 256) as u8);
    out.push(((x / 256) % 256) as u8);
    out.push(((x / 65536) % 256) as u8);
    out.push(((x / 16777216) % 256) as u8);
    out.push(((x / 4294967296) % 256) as u8);
    out.push(((x / 1099511627776) % 256) as u8);
    out.push(((x / 281474976710656) % 256) as u8);
    out.push(((x / 72057594037927936) % 256) as u8);
    proof {
        assert(out@ =~= old(out)@ + u64_le_bytes(x));
    }
}

/// Reads the 8 little-endian bytes at `input[at..at + 8]`.
fn read_u64_le(input: &[u8], at: usize) -> (x: u64)
    requires
        at + 8 <= input@.len(),
    ensures
        x == u64_from_le(input@.subrange(at as int, at + 8)),
{
    let x: u64 = (input[at] as u64) + (input[at + 1] as u64) * 256 + (input[at + 2] as u64)
        * 65536 + (input[at + 3] as u64) * 16777216 + (input[at + 4] as u64) * 4294967296 + (
    input[at + 5] as u64) * 1099511627776 + (input[at + 6] as u64) * 281474976710656 + (input[at
        + 7] as u64) * 72057594037927936;
    proof {
        let s = input@.subrange(at as int, at + 8);
        assert(s[0] == input@[at as int]);
        assert(s[1] == input@[at + 1]);
        assert(s[2] == input@[at + 2]);
        assert(s[3] == input@[at + 3]);
        assert(s[4] == input@[at + 4]);
        assert(s[5] == input@[at + 5]);
        assert(s[6] == input@[at + 6]);
        assert(s[7] == input@[at + 7]);
    }
    x
}

impl RecordInstruction {
    /// Encodes the instruction exactly as [`encode`] states.
    pub fn pack(&self) -> (out: Vec<u8>)
        ensures
            out@ == encode(self@),
    {
        let mut out: Vec<u8> = Vec::new();
        match self {
            RecordInstruction::Initialize => {
                out.push(0);
            },
            RecordInstruction::Write { offset, data } => {
                out.push(1);
                push_u64_le(&mut out, *offset);
                let mut i: usize = 0;
                while i < data.len()
                    invariant
                        i <= data@.len(),
                        out@ == seq![1u8] + u64_le_bytes(*offset) + data@.subrange(0, i as int),
                    decreases data@.len() - i,
                {
                    out.push(data[i]);
                    i += 1;
                    proof {
                        assert(data@.subrange(0, i as int) =~= data@.subrange(
                            0,
                            i - 1,
                        ).push(data@[i - 1]));
                        assert(out@ =~= seq![1u8] + u64_le_bytes(*offset) + data@.subrange(
                            0,
                            i as int,
                        ));
                    }
                }
                proof {
                    assert(data@.subrange(0, data@.len() as int) =~= data@);
                }
            },
            RecordInstruction::SetAuthority => {
                out.push(2);
            },
            RecordInstruction::CloseAccount => {
                out.push(3);
            },
            RecordInstruction::Reallocate { data_length } => {
                out.push(4);
                push_u64_le(&mut out, *data_length);
            },
        }
        proof {
            if self@ is Initialize {
                assert(out@ =~= encode(self@));
            }
            if self@ is SetAuthority {
                assert(out@ =~= encode(self@));
            }
            if self@ is CloseAccount {
                assert(out@ =~= encode(self@));
            }
        }
        out
    }

    /// Decodes a byte buffer exactly as [`decode`] states, failing with
    /// `InvalidInstructionData` on a buffer that decodes to nothing.
    pub fn unpack(input: &[u8]) -> (r: Result<RecordInstruction, ProgramFailure>)
        ensures
            match decode(input@) {
                Some(v) => r matches Ok(ins) && ins@ == v,
                None => r == Err::<RecordInstruction, ProgramFailure>(
                    ProgramFailure::InvalidInstructionData,
                ),
            },
    {
        if input.len() < 1 {
            return Err(ProgramFailure::InvalidInstructionData);
        }
        let tag = input[0];
        if tag == 0 {
            Ok(RecordInstruction::Initialize)
        } else if tag == 1 {
            if input.len() < 9 {
                return Err(ProgramFailure::InvalidInstructionData);
            }
            let offset = read_u64_le(input, 1);
            let mut data: Vec<u8> = Vec::new();
            let mut i: usize = 9;
            while i < input.len()
                invariant
                    9 <= i <= input@.len(),
                    data@ == input@.subrange(9, i as int),
                decreases input@.len() - i,
            {
                data.push(input[i]);
                i += 1;
                proof {
                    assert(input@.subrange(9, i as int) =~= input@.subrange(9, i - 1).push(
                        input@[i - 1],
                    ));
                }
            }
            Ok(RecordInstruction::Write { offset, data })
        } else if tag == 2 {
            Ok(RecordInstruction::SetAuthority)
        } else if tag == 3 {
            Ok(RecordInstruction::CloseAccount)
        } else if tag == 4 {
            if input.len() < 9 {
                return Err(ProgramFailure::InvalidInstructionData);
            }
            let data_length = read_u64_le(input, 1);
            Ok(RecordInstruction::Reallocate { data_length })
        } else {
            Err(ProgramFailure::InvalidInstructionData)
        }
    }
}

} // verus!
