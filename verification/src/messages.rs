//! The messages of the library's errors.
use vstd::prelude::*;
use crate::format::{ParseError, u32_le_bytes};
use crate::assign::AssignmentError;
use crate::EditError;
use crate::text::{decimal, signed_decimal, hex_bytes, push_decimal, push_signed_decimal, push_hex_byte};

verus! {

/// Eight lower-case hexadecimal digits of a 32-bit word, most significant first.
pub open spec fn hex_word(v: int) -> Seq<char> {
    hex_bytes(u32_le_bytes(v).reverse())
}

/// The 32-bit pattern of a signed word.
pub open spec fn word_bits(v: i32) -> int {
    if v < 0 { v + 0x1_0000_0000 } else { v as int }
}

/// Appends eight hexadecimal digits of `v`.
fn push_hex_word(out: &mut String, v: u32)
    ensures
        final(out)@ == old(out)@ + hex_word(v as int),
{
    let ghost start = out@;
    push_hex_byte(out, (v / 16777216 % 256) as u8);
    push_hex_byte(out, (v / 65536 % 256) as u8);
    push_hex_byte(out, (v / 256 % 256) as u8);
    push_hex_byte(out, (v % 256) as u8);
    proof {
        let r = u32_le_bytes(v as int).reverse();
        reveal_with_fuel(hex_bytes, 5);
        assert(r.drop_last().drop_last().drop_last().drop_last() =~= seq![]);
        assert(r.drop_last().drop_last().drop_last() =~= seq![r[0]]);
        assert(r.drop_last().drop_last() =~= seq![r[0], r[1]]);
        assert(r.drop_last() =~= seq![r[0], r[1], r[2]]);
    }
    assert(out@ =~= start + hex_word(v as int));
}

/// The message of a parse error.
pub open spec fn parse_message(e: ParseError) -> Seq<char> {
    match e {
        ParseError::TooShort { actual, minimum } => "save is only "@ + decimal(actual as nat) + " bytes; a save envelope needs at least "@
            + decimal(minimum as nat) + " bytes"@,
        ParseError::InvalidMagic { found } => "invalid save magic 0x"@ + hex_word(word_bits(found)) + "; expected 0x52474d48"@,
        ParseError::UnsupportedVersion { found } => "unsupported save header version "@ + signed_decimal(found as int)
            + "; expected version 1"@,
        ParseError::InvalidHeaderSize { found, expected } => "invalid header size "@ + signed_decimal(found as int) + "; expected "@
            + decimal(expected as nat) + " bytes"@,
        ParseError::NegativeExtraDataOffset { found } => "extra-data offset is negative ("@ + signed_decimal(found as int) + ")"@,
        ParseError::ExtraDataOffsetOverflow { found } => "extra-data offset "@ + signed_decimal(found as int)
            + " cannot be represented on this platform"@,
        ParseError::PayloadBeyondFile { payload_offset, file_size } => "payload offset "@ + decimal(payload_offset as nat)
            + " leaves no room for the trailing 8-byte footer in a "@ + decimal(file_size as nat) + "-byte save"@,
        ParseError::UnsupportedPayloadSize { found, windows_game, android_game, options } => "unsupported payload size "@
            + decimal(found as nat) + " bytes; expected "@ + decimal(windows_game as nat) + " for a Windows game save, "@
            + decimal(android_game as nat) + " for an Android game save, or "@ + decimal(options as nat)
            + " for Android SuperOptions"@,
    }
}

impl ParseError {
    /// The human-readable message of the error.
    pub fn message(&self) -> (res: String)
        ensures
            res@ == parse_message(*self),
    {
        let mut out = String::new();
        match self {
            ParseError::TooShort { actual, minimum } => {
                out.append("save is only ");
                push_decimal(&mut out, *actual as u64);
                out.append(" bytes; a save envelope needs at least ");
                push_decimal(&mut out, *minimum as u64);
                out.append(" bytes");
                proof {
                    reveal_strlit("save is only ");
                    reveal_strlit(" bytes; a save envelope needs at least ");
                    reveal_strlit(" bytes");
                }
            },
            ParseError::InvalidMagic { found } => {
                out.append("invalid save magic 0x");
                let bits: u32 = if *found < 0 { (*found as i64 + 0x1_0000_0000i64) as u32 } else { *found as u32 };
                push_hex_word(&mut out, bits);
                out.append("; expected 0x52474d48");
                proof {
                    reveal_strlit("invalid save magic 0x");
                    reveal_strlit("; expected 0x52474d48");
                }
            },
            ParseError::UnsupportedVersion { found } => {
                out.append("unsupported save header version ");
                push_signed_decimal(&mut out, *found as i64);
                out.append("; expected version 1");
                proof {
                    reveal_strlit("unsupported save header version ");
                    reveal_strlit("; expected version 1");
                }
            },
            ParseError::InvalidHeaderSize { found, expected } => {
                out.append("invalid header size ");
                push_signed_decimal(&mut out, *found as i64);
                out.append("; expected ");
                push_decimal(&mut out, *expected as u64);
                out.append(" bytes");
                proof {
                    reveal_strlit("invalid header size ");
                    reveal_strlit("; expected ");
                    reveal_strlit(" bytes");
                }
            },
            ParseError::NegativeExtraDataOffset { found } => {
                out.append("extra-data offset is negative (");
                push_signed_decimal(&mut out, *found as i64);
                out.append(")");
                proof {
                    reveal_strlit("extra-data offset is negative (");
                    reveal_strlit(")");
                }
            },
            ParseError::ExtraDataOffsetOverflow { found } => {
                out.append("extra-data offset ");
                push_signed_decimal(&mut out, *found as i64);
                out.append(" cannot be represented on this platform");
                proof {
                    reveal_strlit("extra-data offset ");
                    reveal_strlit(" cannot be represented on this platform");
                }
            },
            ParseError::PayloadBeyondFile { payload_offset, file_size } => {
                out.append("payload offset ");
                push_decimal(&mut out, *payload_offset as u64);
                out.append(" leaves no room for the trailing 8-byte footer in a ");
                push_decimal(&mut out, *file_size as u64);
                out.append("-byte save");
                proof {
                    reveal_strlit("payload offset ");
                    reveal_strlit(" leaves no room for the trailing 8-byte footer in a ");
                    reveal_strlit("-byte save");
                }
            },
            ParseError::UnsupportedPayloadSize { found, windows_game, android_game, options } => {
                out.append("unsupported payload size ");
                push_decimal(&mut out, *found as u64);
                out.append(" bytes; expected ");
                push_decimal(&mut out, *windows_game as u64);
                out.append(" for a Windows game save, ");
                push_decimal(&mut out, *android_game as u64);
                out.append(" for an Android game save, or ");
                push_decimal(&mut out, *options as u64);
                out.append(" for Android SuperOptions");
                proof {
                    reveal_strlit("unsupported payload size ");
                    reveal_strlit(" bytes; expected ");
                    reveal_strlit(" for a Windows game save, ");
                    reveal_strlit(" for an Android game save, or ");
                    reveal_strlit(" for Android SuperOptions");
                }
            },
        }
        assert(out@ =~= parse_message(*self));
        out
    }
}

/// The message of an assignment error.
pub open spec fn assignment_message(e: crate::assign::ErrorView) -> Seq<char> {
    if e.0 == 0 {
        "assignment `"@ + e.1 + "` must use KEY=VALUE syntax"@
    } else if e.0 == 1 {
        "unknown save property `"@ + e.1 + "`"@
    } else {
        "invalid value `"@ + e.2 + "` for save property `"@ + e.1 + "`; expected "@ + e.3
    }
}

impl AssignmentError {
    /// The human-readable message of the error.
    pub fn message(&self) -> (res: String)
        ensures
            res@ == assignment_message(self@),
    {
        let mut out = String::new();
        match self {
            AssignmentError::MissingEquals { assignment } => {
                out.append("assignment `");
                out.append(assignment.as_str());
                out.append("` must use KEY=VALUE syntax");
                proof {
                    reveal_strlit("assignment `");
                    reveal_strlit("` must use KEY=VALUE syntax");
                }
            },
            AssignmentError::UnknownProperty { property } => {
                out.append("unknown save property `");
                out.append(property.as_str());
                out.append("`");
                proof {
                    reveal_strlit("unknown save property `");
                    reveal_strlit("`");
                }
            },
            AssignmentError::InvalidValue { property, value, expected } => {
                out.append("invalid value `");
                out.append(value.as_str());
                out.append("` for save property `");
                out.append(property.as_str());
                out.append("`; expected ");
                out.append(expected.as_str());
                proof {
                    reveal_strlit("invalid value `");
                    reveal_strlit("` for save property `");
                    reveal_strlit("`; expected ");
                }
            },
        }
        assert(out@ =~= assignment_message(self@));
        out
    }
}

/// The message of an edit error.
pub open spec fn edit_message(e: EditError) -> Seq<char> {
    match e {
        EditError::Assignment(a) => assignment_message(a@),
        EditError::InvalidLayout => "edits would change or invalidate the save layout"@,
    }
}

impl EditError {
    /// The human-readable message of the error.
    pub fn message(&self) -> (res: String)
        ensures
            res@ == edit_message(*self),
    {
        match self {
            EditError::Assignment(a) => a.message(),
            EditError::InvalidLayout => {
                proof { reveal_strlit("edits would change or invalidate the save layout"); }
                String::from_str("edits would change or invalidate the save layout")
            },
        }
    }
}

} // verus!
