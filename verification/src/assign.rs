//! Applying one `KEY=VALUE` assignment to a save.
use vstd::prelude::*;
use crate::names::{split_on, split_chars, char_views};
use crate::parse::{spec_parse_number, parse_number, pow256, digit_value, digit_of};
use crate::text::{decimal, decimal_string, chars_of};
use crate::schema::{Kind, Property, PropView, pv, views, all_fit, fits};
use crate::format::{Save, SaveKind, u32_le_bytes};
use crate::values::{split_once, spec_enum_values, enum_values, spec_mask_value, spec_bit_names, bit_names, assign_mask, opt_bytes};

verus! {

/// The value of a byte written as exactly two hexadecimal digits.
pub open spec fn hex_pair(a: char, b: char) -> Option<u8> {
    if digit_value(a) < 16 && digit_value(b) < 16 {
        Some((16 * digit_value(a) + digit_value(b)) as u8)
    } else {
        None
    }
}

/// The bytes a `hex:` value spells for a field of `size` bytes.
pub open spec fn spec_hex_value(hex: Seq<char>, size: nat) -> Option<Seq<u8>> {
    if hex.len() == 2 * size && forall|i: int| 0 <= i < size ==> (#[trigger] hex_pair(hex[2 * i], hex[2 * i + 1])) is Some {
        Some(Seq::new(size, |i: int| hex_pair(hex[2 * i], hex[2 * i + 1]).unwrap()))
    } else {
        None
    }
}

/// The bytes a `text:` value stores in a field of `size` bytes: its UTF-8
/// encoding padded with zeros, leaving room for a terminator.
pub open spec fn spec_text_value(text: Seq<char>, size: nat) -> Option<Seq<u8>> {
    let b = vstd::utf8::encode_utf8(text);
    if b.len() >= size {
        None
    } else {
        Some(b + Seq::new((size - b.len()) as nat, |i: int| 0u8))
    }
}

/// The bytes a value assigns to a byte-array field.
pub open spec fn spec_bytes_value(value: Seq<char>, size: nat) -> Option<Seq<u8>> {
    if crate::text::starts_with(value, "text:"@) {
        spec_text_value(value.skip(5), size)
    } else if crate::text::starts_with(value, "hex:"@) {
        spec_hex_value(value.skip(4), size)
    } else {
        None
    }
}

fn hex_pair_exec(a: char, b: char) -> (res: Option<u8>)
    ensures
        res == hex_pair(a, b),
{
    let db = digit_of(b);
    let da = digit_of(a);
    if da < 16 && db < 16 { Some(16 * da + db) } else { None }
}

/// The bytes a `hex:` value spells.
fn hex_value(value: &[char], start: usize, size: usize) -> (res: Option<Vec<u8>>)
    requires
        start <= value@.len(),
    ensures
        crate::values::opt_bytes(res) == spec_hex_value(value@.skip(start as int), size as nat),
{
    let ghost hex = value@.skip(start as int);
    let n = value.len() - start;
    if size > n / 2 || n != 2 * size {
        return None;
    }
    let mut out: Vec<u8> = Vec::new();
    let mut i: usize = 0;
    while i < size
        invariant
            i <= size,
            hex == value@.skip(start as int),
            hex.len() == 2 * size,
            start + 2 * size == value@.len(),
            value@.len() <= usize::MAX,
            forall|j: int| 0 <= j < i ==> (#[trigger] hex_pair(hex[2 * j], hex[2 * j + 1])) is Some,
            out@ == Seq::new(i as nat, |j: int| hex_pair(hex[2 * j], hex[2 * j + 1]).unwrap()),
        decreases size - i,
    {
        assert(hex[2 * i as int] == value@[start + 2 * i]);
        assert(hex[2 * i + 1] == value@[start + 2 * i + 1]);
        match hex_pair_exec(value[start + 2 * i], value[start + 2 * i + 1]) {
            Some(b) => {
                out.push(b);
                assert(out@ =~= Seq::new((i + 1) as nat, |j: int| hex_pair(hex[2 * j], hex[2 * j + 1]).unwrap()));
            },
            None => {
                return None;
            },
        }
        i = i + 1;
    }
    Some(out)
}

/// The bytes a value assigns to a byte-array field.
pub fn bytes_value(value: &[char], size: usize) -> (res: Option<Vec<u8>>)
    ensures
        crate::values::opt_bytes(res) == spec_bytes_value(value@, size as nat),
{
    if crate::text::starts_with_str(value, "text:") {
        proof { reveal_strlit("text:"); }
        let text = crate::text::sub_chars(value, 5, value.len());
        assert(text@ =~= value@.skip(5));
        let s = crate::text::string_of(text.as_slice());
        let b = s.as_str().as_bytes();
        if b.len() >= size {
            return None;
        }
        let mut out: Vec<u8> = Vec::new();
        let mut i: usize = 0;
        while i < size
            invariant
                i <= size,
                b@.len() < size,
                out@ == (b@ + Seq::new((size - b@.len()) as nat, |j: int| 0u8)).take(i as int),
            decreases size - i,
        {
            if i < b.len() {
                out.push(b[i]);
            } else {
                out.push(0u8);
            }
            assert(out@ =~= (b@ + Seq::new((size - b@.len()) as nat, |j: int| 0u8)).take(i + 1));
            i = i + 1;
        }
        assert((b@ + Seq::new((size - b@.len()) as nat, |j: int| 0u8)).take(size as int) =~= b@ + Seq::new((size - b@.len()) as nat, |j: int| 0u8));
        return Some(out);
    }
    if crate::text::starts_with_str(value, "hex:") {
        proof { reveal_strlit("hex:"); }
        return hex_value(value, 4, size);
    }
    None
}

/// The value of the first named value called `token`.
pub open spec fn enum_lookup(values: Seq<(Seq<char>, u32)>, token: Seq<char>) -> Option<u32> {
    if exists|i: int| 0 <= i < values.len() && #[trigger] values[i].0 == token {
        let i = choose|i: int| 0 <= i < values.len() && values[i].0 == token && forall|j: int| 0 <= j < i ==> #[trigger] values[j].0 != token;
        Some(values[i].1)
    } else {
        None
    }
}

/// Combines `|`-separated tokens of named values and numbers, remembering
/// whether any token was a name.
pub open spec fn enum_fold(tokens: Seq<Seq<char>>, values: Seq<(Seq<char>, u32)>) -> Option<(u64, bool)>
    decreases tokens.len(),
{
    if tokens.len() == 0 {
        Some((0u64, false))
    } else {
        match enum_fold(tokens.drop_last(), values) {
            None => None,
            Some((c, symbolic)) => match enum_lookup(values, tokens.last()) {
                Some(v) => Some((c | (v as u64), true)),
                None => match spec_parse_number(tokens.last()) {
                    Some(n) => Some((c | n, symbolic)),
                    None => None,
                },
            },
        }
    }
}

/// The numeric text of an integer assignment: the value itself, or the
/// decimal rendering of its combined named values and numbers.
pub open spec fn spec_int_text(values: Seq<(Seq<char>, u32)>, flags: bool, value: Seq<char>) -> Option<Seq<char>> {
    if values.len() == 0 {
        Some(value)
    } else {
        let tokens = split_on(value, '|');
        if tokens.len() > 1 && !flags {
            None
        } else {
            match enum_fold(tokens, values) {
                None => None,
                Some((c, symbolic)) => if symbolic || tokens.len() > 1 { Some(decimal(c as nat)) } else { Some(value) },
            }
        }
    }
}

/// The exclusive bound of an integer field's magnitude.
pub open spec fn int_limit(size: int, signed: bool) -> int {
    if size == 1 { if signed { 0x80 } else { 0x100 } }
    else if size == 2 { if signed { 0x8000 } else { 0x1_0000 } }
    else { if signed { 0x8000_0000 } else { 0x1_0000_0000 } }
}

/// The low `size` little-endian bytes of `w`.
pub open spec fn word_bytes(w: int, size: nat) -> Seq<u8> {
    Seq::new(size, |i: int| ((w / pow256(i as nat) as int) % 256) as u8)
}

/// The bytes an integer text stores: decimal or `0x`, with a leading `-`
/// only for signed fields, within the field's range; negative values are
/// stored in two's complement.
pub open spec fn spec_int_bytes(text: Seq<char>, size: int, signed: bool) -> Option<Seq<u8>> {
    let negative = text.len() > 0 && text[0] == '-';
    match spec_parse_number(if negative { text.skip(1) } else { text }) {
        None => None,
        Some(p) => {
            if negative {
                if !signed || p > int_limit(size, signed) {
                    None
                } else {
                    Some(word_bytes(if p == 0 { 0 } else { 0x1_0000_0000_0000_0000 - p }, size as nat))
                }
            } else if p >= int_limit(size, signed) {
                None
            } else {
                Some(word_bytes(p as int, size as nat))
            }
        }
    }
}

/// The bytes an assignment value stores in an integer field.
pub open spec fn spec_int_value(values: Seq<(Seq<char>, u32)>, flags: bool, value: Seq<char>, size: int, signed: bool) -> Option<Seq<u8>> {
    match spec_int_text(values, flags, value) {
        None => None,
        Some(text) => spec_int_bytes(text, size, signed),
    }
}

fn enum_find(values: &Vec<(String, u32)>, token: &[char]) -> (res: Option<u32>)
    ensures
        res == enum_lookup(crate::values::pair_views(values@), token@),
{
    let ghost vs = crate::values::pair_views(values@);
    let mut i: usize = 0;
    while i < values.len()
        invariant
            i <= values@.len(),
            vs == crate::values::pair_views(values@),
            forall|j: int| 0 <= j < i ==> #[trigger] vs[j].0 != token@,
        decreases values@.len() - i,
    {
        assert(vs[i as int] == (values@[i as int].0@, values@[i as int].1));
        if crate::text::same_text(token, &values[i].0) {
            proof {
                let k = choose|k: int| 0 <= k < vs.len() && vs[k].0 == token@ && forall|j: int| 0 <= j < k ==> #[trigger] vs[j].0 != token@;
                if k < i {
                    assert(vs[k].0 != token@);
                }
                if k > i {
                    assert(vs[i as int].0 != token@);
                }
            }
            return Some(values[i].1);
        }
        i = i + 1;
    }
    None
}

proof fn lemma_enum_fold_none(ts: Seq<Seq<char>>, n: int, values: Seq<(Seq<char>, u32)>)
    requires
        0 <= n <= ts.len(),
        enum_fold(ts.take(n), values) is None,
    ensures
        enum_fold(ts, values) is None,
    decreases ts.len() - n,
{
    if n < ts.len() {
        assert(ts.take(n + 1).drop_last() =~= ts.take(n));
        lemma_enum_fold_none(ts, n + 1, values);
    } else {
        assert(ts.take(n) =~= ts);
    }
}

/// The numeric text of an integer assignment.
fn int_text(values: &crate::values::EnumValues, value: &[char]) -> (res: Option<Vec<char>>)
    ensures
        match spec_int_text(values@.0, values@.1, value@) {
            Some(t) => res matches Some(r) && r@ == t,
            None => res is None,
        },
{
    if values.values.len() == 0 {
        assert(values@.0.len() == 0);
        let v = crate::text::sub_chars(value, 0, value.len());
        assert(v@ =~= value@);
        return Some(v);
    }
    let tokens = split_chars(value, '|');
    let ghost ts = char_views(tokens@);
    if tokens.len() > 1 && !values.flags {
        return None;
    }
    let mut combined: u64 = 0;
    let mut symbolic = false;
    let mut k: usize = 0;
    assert(ts.take(0) =~= Seq::<Seq<char>>::empty());
    while k < tokens.len()
        invariant
            k <= tokens@.len(),
            ts == char_views(tokens@),
            ts == split_on(value@, '|'),
            values@.0.len() > 0,
            !(ts.len() > 1 && !values@.1),
            enum_fold(ts.take(k as int), values@.0) == Some((combined, symbolic)),
        decreases tokens@.len() - k,
    {
        let ghost t = ts[k as int];
        assert(tokens@[k as int]@ == t);
        assert(ts.take(k + 1).drop_last() =~= ts.take(k as int));
        assert(ts.take(k + 1).last() == t);
        match enum_find(&values.values, tokens[k].as_slice()) {
            Some(v) => {
                combined = combined | (v as u64);
                symbolic = true;
            },
            None => match parse_number(tokens[k].as_slice()) {
                Some(n) => {
                    combined = combined | n;
                },
                None => {
                    proof {
                        lemma_enum_fold_none(ts, k + 1, values@.0);
                    }
                    return None;
                },
            },
        }
        k = k + 1;
    }
    assert(ts.take(k as int) =~= ts);
    if symbolic || tokens.len() > 1 {
        let s = decimal_string(combined);
        Some(chars_of(s.as_str()))
    } else {
        let v = crate::text::sub_chars(value, 0, value.len());
        assert(v@ =~= value@);
        Some(v)
    }
}

/// The low `size` little-endian bytes of `w`.
fn word_bytes_exec(w: u64, size: usize) -> (res: Vec<u8>)
    requires
        size <= 8,
    ensures
        res@ == word_bytes(w as int, size as nat),
{
    let mut out: Vec<u8> = Vec::new();
    let mut cur: u64 = w;
    let mut i: usize = 0;
    assert(pow256(0) == 1);
    assert(w as int / 1 == w);
    while i < size
        invariant
            i <= size <= 8,
            cur == w as int / pow256(i as nat) as int,
            out@ == word_bytes(w as int, size as nat).take(i as int),
        decreases size - i,
    {
        out.push((cur % 256) as u8);
        proof {
            crate::parse::lemma_pow256_positive(i as nat);
            vstd::arithmetic::div_mod::lemma_div_denominator(w as int, pow256(i as nat) as int, 256);
            assert(pow256((i + 1) as nat) == pow256(i as nat) * 256);
        }
        assert(out@ =~= word_bytes(w as int, size as nat).take(i + 1));
        cur = cur / 256;
        i = i + 1;
    }
    assert(word_bytes(w as int, size as nat).take(size as int) =~= word_bytes(w as int, size as nat));
    out
}

/// The bytes an integer text stores.
fn int_bytes(text: &[char], size: usize, signed: bool) -> (res: Option<Vec<u8>>)
    requires
        size == 1 || size == 2 || size == 4,
    ensures
        crate::values::opt_bytes(res) == spec_int_bytes(text@, size as int, signed),
{
    let negative = text.len() > 0 && text[0] == '-';
    let digits = if negative { crate::text::sub_chars(text, 1, text.len()) } else { crate::text::sub_chars(text, 0, text.len()) };
    assert(digits@ =~= if negative { text@.skip(1) } else { text@ });
    let parsed = match parse_number(digits.as_slice()) {
        Some(p) => p,
        None => {
            return None;
        },
    };
    let limit: u64 = if size == 1 {
        if signed { 0x80 } else { 0x100 }
    } else if size == 2 {
        if signed { 0x8000 } else { 0x1_0000 }
    } else {
        if signed { 0x8000_0000 } else { 0x1_0000_0000 }
    };
    if negative {
        if !signed || parsed > limit {
            return None;
        }
        let w = 0u64.wrapping_sub(parsed);
        Some(word_bytes_exec(w, size))
    } else if parsed >= limit {
        None
    } else {
        Some(word_bytes_exec(parsed, size))
    }
}

/// The bytes an assignment value stores in an integer field.
pub fn int_value(values: &crate::values::EnumValues, value: &[char], size: usize, signed: bool) -> (res: Option<Vec<u8>>)
    requires
        size == 1 || size == 2 || size == 4,
    ensures
        crate::values::opt_bytes(res) == spec_int_value(values@.0, values@.1, value@, size as int, signed),
{
    match int_text(values, value) {
        Some(text) => int_bytes(text.as_slice(), size, signed),
        None => None,
    }
}

/// Joins named values as `NAME=value` with `, `.
pub open spec fn join_values(values: Seq<(Seq<char>, u32)>) -> Seq<char>
    decreases values.len(),
{
    if values.len() == 0 {
        seq![]
    } else if values.len() == 1 {
        values[0].0 + "="@ + decimal(values[0].1 as nat)
    } else {
        join_values(values.drop_last()) + ", "@ + values.last().0 + "="@ + decimal(values.last().1 as nat)
    }
}

/// What an integer field accepts: its range, then its named values and
/// whether they combine as flags.
pub open spec fn spec_integer_expectation(size: int, signed: bool, values: Seq<(Seq<char>, u32)>, flags: bool) -> Seq<char> {
    let limit = int_limit(size, signed);
    let range = (if signed { crate::text::signed_decimal(-limit) } else { "0"@ }) + ".."@ + decimal((limit - 1) as nat);
    if values.len() == 0 {
        range
    } else {
        range + "; "@ + join_values(values) + if flags {
            "; combine with |; unknown bits accept numeric values"@
        } else {
            seq![]
        }
    }
}

/// What an integer field accepts.
pub fn integer_expectation(size: usize, signed: bool, values: &crate::values::EnumValues) -> (res: String)
    requires
        size == 1 || size == 2 || size == 4,
    ensures
        res@ == spec_integer_expectation(size as int, signed, values@.0, values@.1),
{
    let limit: u64 = if size == 1 {
        if signed { 0x80 } else { 0x100 }
    } else if size == 2 {
        if signed { 0x8000 } else { 0x1_0000 }
    } else {
        if signed { 0x8000_0000 } else { 0x1_0000_0000 }
    };
    let mut out = String::new();
    if signed {
        crate::text::push_char(&mut out, '-');
        crate::text::push_decimal(&mut out, limit);
        assert(out@ =~= crate::text::signed_decimal(-(limit as int)));
    } else {
        out.append("0");
    }
    out.append("..");
    crate::text::push_decimal(&mut out, limit - 1);
    let ghost range = out@;
    if values.values.len() == 0 {
        return out;
    }
    out.append("; ");
    let ghost vs = values@.0;
    let ghost start = out@;
    let mut i: usize = 0;
    assert(vs.take(0) =~= Seq::<(Seq<char>, u32)>::empty());
    assert(out@ =~= start + join_values(vs.take(0)));
    while i < values.values.len()
        invariant
            i <= values.values@.len(),
            vs == crate::values::pair_views(values.values@),
            out@ == start + join_values(vs.take(i as int)),
        decreases values.values@.len() - i,
    {
        assert(vs[i as int] == (values.values@[i as int].0@, values.values@[i as int].1));
        assert(vs.take(i + 1).drop_last() =~= vs.take(i as int));
        if i > 0 {
            out.append(", ");
        }
        out.append(values.values[i].0.as_str());
        out.append("=");
        crate::text::push_decimal(&mut out, values.values[i].1 as u64);
        assert(out@ =~= start + join_values(vs.take(i + 1)));
        i = i + 1;
    }
    assert(vs.take(i as int) =~= vs);
    if values.flags {
        out.append("; combine with |; unknown bits accept numeric values");
    }
    assert(out@ =~= spec_integer_expectation(size as int, signed, values@.0, values@.1));
    out
}

/// A `KEY=VALUE` edit could not be understood or applied.
#[derive(Clone, Debug, PartialEq, Eq)]
pub enum AssignmentError {
    MissingEquals { assignment: String },
    UnknownProperty { property: String },
    InvalidValue { property: String, value: String, expected: String },
}

/// An assignment error as a tag and its texts: 0 for a missing `=`, 1 for an
/// unknown property, 2 for an invalid value.
pub type ErrorView = (nat, Seq<char>, Seq<char>, Seq<char>);

impl View for AssignmentError {
    type V = ErrorView;

    open spec fn view(&self) -> ErrorView {
        match self {
            AssignmentError::MissingEquals { assignment } => (0, assignment@, seq![], seq![]),
            AssignmentError::UnknownProperty { property } => (1, property@, seq![], seq![]),
            AssignmentError::InvalidValue { property, value, expected } => (2, property@, value@, expected@),
        }
    }
}

/// The canonical name of a property, following the names older versions wrote.
pub open spec fn alias(raw: Seq<char>) -> Seq<char> {
    if raw == "save_version"@ {
        "difficulty"@
    } else if raw == "field30_0x7c2c"@ || raw == "field30_0x7c20"@ {
        "gameplay_seconds"@
    } else if raw == "initial_store_pack_flags"@ {
        "suit_flags"@
    } else if raw == "field_0x7bf8"@ {
        "shop_gold_brick_purchased_bits"@
    } else if raw == "customizer.primary_name_unlocked"@ {
        "customizer.primary_use_saved_name"@
    } else if raw == "customizer.secondary_name_unlocked"@ {
        "customizer.secondary_use_saved_name"@
    } else {
        raw
    }
}

/// The position of the first property called `name`.
pub open spec fn find_field(fields: Seq<PropView>, name: Seq<char>) -> Option<int> {
    if exists|k: int| 0 <= k < fields.len() && #[trigger] fields[k].0 == name {
        Some(choose|k: int| 0 <= k < fields.len() && fields[k].0 == name && forall|j: int| 0 <= j < k ==> #[trigger] fields[j].0 != name)
    } else {
        None
    }
}

/// The text before and after the last `c`, when there is one.
pub open spec fn rsplit_once(s: Seq<char>, c: char) -> Option<(Seq<char>, Seq<char>)> {
    if exists|i: int| 0 <= i < s.len() && s[i] == c {
        let i = choose|i: int| 0 <= i < s.len() && s[i] == c && forall|j: int| i < j < s.len() ==> s[j] != c;
        Some((s.take(i), s.skip(i + 1)))
    } else {
        None
    }
}

/// The property an assignment names: a listed property, an absolute
/// `byte[N]`, a byte `array[N]` of a byte array, or a 32-bit word `mask[N]`
/// of a wide mask.
pub open spec fn resolve(fields: Seq<PropView>, len: int, name: Seq<char>) -> Option<PropView> {
    match find_field(fields, name) {
        Some(k) => Some(fields[k]),
        None => {
            if name.len() > 0 && name.last() == ']' {
                match rsplit_once(name, '[') {
                    Some((base, index_text)) => match spec_parse_number(index_text.drop_last()) {
                        Some(index) => {
                            if index > usize::MAX {
                                None
                            } else if base == "byte"@ && index < len {
                                Some(pv(name, index as int, 1, Kind::Unsigned))
                            } else {
                                match find_field(fields, base) {
                                    Some(k) => {
                                        let parent = fields[k];
                                        if parent.3 == Kind::Bytes && index < parent.2 {
                                            Some(pv(name, parent.1 + index, 1, Kind::Unsigned))
                                        } else if parent.3 == Kind::Bitmask && index < parent.2 / 4 {
                                            Some(pv(name, parent.1 + index * 4, 4, Kind::Unsigned))
                                        } else {
                                            None
                                        }
                                    },
                                    None => None,
                                }
                            }
                        },
                        None => None,
                    },
                    None => None,
                }
            } else {
                None
            }
        },
    }
}

/// What a field accepts, as the error message says it.
pub open spec fn spec_expected(f: PropView) -> Seq<char> {
    match f.3 {
        Kind::Bitmask => "named flags joined with |, a decimal mask, or a 0x hexadecimal mask"@,
        Kind::Bytes => "hex: followed by "@ + decimal((f.2 * 2) as nat) + " hex digits, or text: followed by at most "@
            + decimal((f.2 - 1) as nat) + " bytes"@,
        Kind::Float => "a finite 32-bit floating-point number"@,
        _ => spec_integer_expectation(f.2, f.3 == Kind::Signed, spec_enum_values(f.0).0, spec_enum_values(f.0).1),
    }
}

/// Whether the bits of a 32-bit float are those of a finite number: its
/// exponent is not all ones.
pub open spec fn finite_bits(b: u32) -> bool {
    (b / 0x80_0000) % 0x100 != 0xff
}

/// The bytes a value stores in a field, or nothing when the value is invalid.
/// A float field stores the bits the caller decoded from the value text,
/// when they are those of a finite number.
pub open spec fn spec_field_value(kind: SaveKind, f: PropView, value: Seq<char>, shop: Seq<Seq<char>>, float: Option<u32>) -> Option<Seq<u8>> {
    match f.3 {
        Kind::Bitmask => spec_mask_value(value, spec_bit_names(kind, f.0, f.2, shop), f.2 as nat),
        Kind::Bytes => spec_bytes_value(value, f.2 as nat),
        Kind::Float => match float {
            Some(b) => if finite_bits(b) { Some(u32_le_bytes(b as int)) } else { None },
            None => None,
        },
        _ => spec_int_value(spec_enum_values(f.0).0, spec_enum_values(f.0).1, value, f.2, f.3 == Kind::Signed),
    }
}

/// The result of one assignment on the save bytes: the bytes with the named
/// field replaced, or the error.
#[verifier::opaque]
pub open spec fn spec_assign(bytes: Seq<u8>, kind: SaveKind, fields: Seq<PropView>, shop: Seq<Seq<char>>, a: Seq<char>, float: Option<u32>) -> Result<Seq<u8>, ErrorView> {
    match split_once(a, '=') {
        None => Err((0, a, seq![], seq![])),
        Some((raw_name, raw_value)) => {
            match resolve(fields, bytes.len() as int, alias(raw_name)) {
                None => Err((1, raw_name, seq![], seq![])),
                Some(f) => match spec_field_value(kind, f, raw_value, shop, float) {
                    None => Err((2, raw_name, raw_value, spec_expected(f))),
                    Some(v) => Ok(bytes.take(f.1) + v + bytes.skip(f.1 + f.2)),
                },
            }
        },
    }
}

/// The value text of an assignment: everything after the first `=`.
pub fn assignment_value(assignment: &str) -> (res: Option<String>)
    ensures
        match split_once(assignment@, '=') {
            Some((_, v)) => res matches Some(r) && r@ == v,
            None => res is None,
        },
{
    let a = chars_of(assignment);
    match crate::values::find_char(a.as_slice(), '=') {
        Some(i) => {
            let _n = a.len();
            let v = crate::text::sub_chars(a.as_slice(), i + 1, a.len());
            assert(v@ =~= a@.skip(i + 1));
            Some(crate::text::string_of(v.as_slice()))
        },
        None => None,
    }
}

fn canonical_name(raw: &[char]) -> (res: Vec<char>)
    ensures
        res@ == alias(raw@),
{
    let canonical = if crate::text::equals_str(raw, "save_version") {
        "difficulty"
    } else if crate::text::equals_str(raw, "field30_0x7c2c") || crate::text::equals_str(raw, "field30_0x7c20") {
        "gameplay_seconds"
    } else if crate::text::equals_str(raw, "initial_store_pack_flags") {
        "suit_flags"
    } else if crate::text::equals_str(raw, "field_0x7bf8") {
        "shop_gold_brick_purchased_bits"
    } else if crate::text::equals_str(raw, "customizer.primary_name_unlocked") {
        "customizer.primary_use_saved_name"
    } else if crate::text::equals_str(raw, "customizer.secondary_name_unlocked") {
        "customizer.secondary_use_saved_name"
    } else {
        let copy = crate::text::sub_chars(raw, 0, raw.len());
        assert(copy@ =~= raw@);
        return copy;
    };
    chars_of(canonical)
}

/// The position of the first property called `name`.
fn find_field_exec(fields: &Vec<Property>, name: &String) -> (res: Option<usize>)
    ensures
        match res {
            Some(k) => find_field(views(fields@), name@) == Some(k as int) && k < fields@.len(),
            None => find_field(views(fields@), name@) is None,
        },
{
    let ghost fs = views(fields@);
    let mut k: usize = 0;
    while k < fields.len()
        invariant
            k <= fields@.len(),
            fs == views(fields@),
            forall|j: int| 0 <= j < k ==> #[trigger] fs[j].0 != name@,
        decreases fields@.len() - k,
    {
        assert(fs[k as int] == fields@[k as int]@);
        if crate::text::str_equal(fields[k].name.as_str(), name.as_str()) {
            proof {
                let m = choose|m: int| 0 <= m < fs.len() && fs[m].0 == name@ && forall|j: int| 0 <= j < m ==> #[trigger] fs[j].0 != name@;
                if m < k {
                    assert(fs[m].0 != name@);
                }
                if m > k {
                    assert(fs[k as int].0 != name@);
                }
            }
            return Some(k);
        }
        k = k + 1;
    }
    None
}

fn rfind_char(s: &[char], c: char) -> (res: Option<usize>)
    ensures
        match rsplit_once(s@, c) {
            Some((a, b)) => res matches Some(i) && i < s@.len() && a == s@.take(i as int) && b == s@.skip(i + 1),
            None => res is None,
        },
        res matches Some(i) ==> i < s@.len() && s@[i as int] == c,
{
    let mut i: usize = s.len();
    while i > 0
        invariant
            i <= s@.len(),
            forall|j: int| i <= j < s@.len() ==> s@[j] != c,
        decreases i,
    {
        if s[i - 1] == c {
            proof {
                let k = choose|k: int| 0 <= k < s@.len() && s@[k] == c && forall|j: int| k < j < s@.len() ==> s@[j] != c;
                if k < i - 1 {
                    assert(s@[i - 1] != c);
                }
                if k > i - 1 {
                    assert(s@[k] != c);
                }
            }
            return Some(i - 1);
        }
        i = i - 1;
    }
    None
}

/// The property an assignment names.
fn resolve_exec(fields: &Vec<Property>, len: usize, name: &[char]) -> (res: Option<Property>)
    requires
        all_fit(views(fields@), len as int),
    ensures
        match resolve(views(fields@), len as int, name@) {
            Some(f) => res matches Some(p) && p@ == f,
            None => res is None,
        },
        res matches Some(p) ==> fits(p@, len as int),
{
    let ghost fs = views(fields@);
    let name_string = crate::text::string_of(name);
    match find_field_exec(fields, &name_string) {
        Some(k) => {
            assert(fs[k as int] == fields@[k as int]@);
            assert(fits(fs[k as int], len as int));
            let f = &fields[k];
            return Some(Property { name: f.name.clone(), offset: f.offset, size: f.size, kind: f.kind });
        },
        None => {},
    }
    let n = name.len();
    if n == 0 || name[n - 1] != ']' {
        return None;
    }
    let (open, _) = match rfind_char(name, '[') {
        Some(i) => (i, ()),
        None => {
            return None;
        },
    };
    let base = crate::text::sub_chars(name, 0, open);
    let index_text = crate::text::sub_chars(name, open + 1, n - 1);
    proof {
        let (b, t) = rsplit_once(name@, '[').unwrap();
        assert(base@ =~= b);
        assert(open < n - 1);
        assert(t.len() >= 1);
        assert(index_text@ =~= t.drop_last());
    }
    let index = match parse_number(index_text.as_slice()) {
        Some(v) => v,
        None => {
            return None;
        },
    };
    if index > usize::MAX as u64 {
        return None;
    }
    let index = index as usize;
    if crate::text::equals_str(base.as_slice(), "byte") && index < len {
        return Some(Property { name: crate::text::string_of(name), offset: index, size: 1, kind: Kind::Unsigned });
    }
    let base_string = crate::text::string_of(base.as_slice());
    match find_field_exec(fields, &base_string) {
        Some(k) => {
            assert(fs[k as int] == fields@[k as int]@);
            assert(fits(fs[k as int], len as int));
            let parent = &fields[k];
            if parent.kind == Kind::Bytes && index < parent.size {
                Some(Property { name: crate::text::string_of(name), offset: parent.offset + index, size: 1, kind: Kind::Unsigned })
            } else if parent.kind == Kind::Bitmask && index < parent.size / 4 {
                Some(Property { name: crate::text::string_of(name), offset: parent.offset + index * 4, size: 4, kind: Kind::Unsigned })
            } else {
                None
            }
        },
        None => None,
    }
}

/// The bytes a value stores in a field.
fn field_value(kind: SaveKind, f: &Property, value: &[char], shop: &Vec<String>, float: Option<u32>) -> (res: Option<Vec<u8>>)
    requires
        crate::schema::well_kinded(f.size as int, f.kind),
    ensures
        opt_bytes(res) == spec_field_value(kind, f@, value@, crate::names::string_views(shop@), float),
{
    match f.kind {
        Kind::Bitmask => {
            let name = chars_of(f.name.as_str());
            let names = bit_names(kind, name.as_slice(), f.size, shop);
            assert(names@.len() == crate::names::string_views(names@).len());
            assign_mask(value, &names, f.size)
        },
        Kind::Bytes => bytes_value(value, f.size),
        Kind::Float => match float {
            Some(b) => {
                if (b / 0x80_0000) % 0x100 == 0xff {
                    return None;
                }
                let v = word_bytes_exec(b as u64, 4);
                proof {
                    reveal_with_fuel(pow256, 4);
                    assert(pow256(0) == 1);
                    assert(pow256(1) == 256);
                    assert(pow256(2) == 65536);
                    assert(pow256(3) == 16777216);
                    assert(b as int / 1 == b);
                    assert(v@ =~= u32_le_bytes(b as int));
                }
                Some(v)
            },
            None => None,
        },
        _ => {
            let name = chars_of(f.name.as_str());
            let values = enum_values(name.as_slice());
            int_value(&values, value, f.size, f.kind == Kind::Signed)
        },
    }
}

/// What a field accepts, as the error message says it.
fn expected(f: &Property) -> (res: String)
    requires
        crate::schema::well_kinded(f.size as int, f.kind),
    ensures
        res@ == spec_expected(f@),
{
    match f.kind {
        Kind::Bitmask => String::from_str("named flags joined with |, a decimal mask, or a 0x hexadecimal mask"),
        Kind::Bytes => {
            let mut s = String::from_str("hex: followed by ");
            crate::text::push_decimal_wide(&mut s, (f.size as u128) * 2);
            s.append(" hex digits, or text: followed by at most ");
            crate::text::push_decimal_wide(&mut s, (f.size - 1) as u128);
            s.append(" bytes");
            s
        },
        Kind::Float => String::from_str("a finite 32-bit floating-point number"),
        _ => {
            let name = chars_of(f.name.as_str());
            let values = enum_values(name.as_slice());
            integer_expectation(f.size, f.kind == Kind::Signed, &values)
        },
    }
}

/// Replaces `value.len()` bytes at `offset`.
fn write_field(save: &mut Save, offset: usize, value: &Vec<u8>)
    requires
        offset + value@.len() <= old(save).bytes@.len(),
    ensures
        final(save).payload == old(save).payload,
        final(save).payload_size == old(save).payload_size,
        final(save).bytes@ == old(save).bytes@.take(offset as int) + value@ + old(save).bytes@.skip(offset + value@.len()),
{
    let ghost before = save.bytes@;
    let len = save.bytes.len();
    let size = value.len();
    let mut i: usize = 0;
    while i < size
        invariant
            i <= size,
            size == value@.len(),
            offset + size <= len,
            len == save.bytes@.len(),
            before.len() == len,
            forall|j: int| 0 <= j < len && !(offset <= j < offset + i) ==> save.bytes@[j] == before[j],
            forall|j: int| offset <= j < offset + i ==> save.bytes@[j] == value@[j - offset],
            save.payload == old(save).payload,
            save.payload_size == old(save).payload_size,
        decreases size - i,
    {
        save.bytes.set(offset + i, value[i]);
        i = i + 1;
    }
    assert(save.bytes@ =~= before.take(offset as int) + value@ + before.skip(offset + size));
}

/// Applies one assignment; on an error the save is unchanged.
pub fn assign(save: &mut Save, fields: &Vec<Property>, shop: &Vec<String>, assignment: &str, float: Option<u32>) -> (res: Result<(), AssignmentError>)
    requires
        old(save).has_layout(),
        all_fit(views(fields@), old(save).bytes@.len() as int),
    ensures
        final(save).payload == old(save).payload,
        final(save).payload_size == old(save).payload_size,
        final(save).bytes@.len() == old(save).bytes@.len(),
        match spec_assign(old(save).bytes@, old(save).spec_kind(), views(fields@), crate::names::string_views(shop@), assignment@, float) {
            Ok(b) => res is Ok && final(save).bytes@ == b,
            Err(e) => res matches Err(err) && err@ == e && final(save).bytes@ == old(save).bytes@,
        },
{
    reveal(spec_assign);
    let kind = save.kind();
    let a = chars_of(assignment);
    let eq = match crate::values::find_char(a.as_slice(), '=') {
        Some(i) => i,
        None => {
            return Err(AssignmentError::MissingEquals { assignment: String::from_str(assignment) });
        },
    };
    let _n = a.len();
    let raw_name = crate::text::sub_chars(a.as_slice(), 0, eq);
    let raw_value = crate::text::sub_chars(a.as_slice(), eq + 1, a.len());
    assert(raw_name@ =~= a@.take(eq as int));
    assert(raw_value@ =~= a@.skip(eq + 1));
    let name = canonical_name(raw_name.as_slice());
    let len = save.bytes.len();
    let field = match resolve_exec(fields, len, name.as_slice()) {
        Some(f) => f,
        None => {
            return Err(AssignmentError::UnknownProperty { property: crate::text::string_of(raw_name.as_slice()) });
        },
    };
    let value = match field_value(kind, &field, raw_value.as_slice(), shop, float) {
        Some(v) => v,
        None => {
            return Err(AssignmentError::InvalidValue {
                property: crate::text::string_of(raw_name.as_slice()),
                value: crate::text::string_of(raw_value.as_slice()),
                expected: expected(&field),
            });
        },
    };
    proof {
        crate::values::lemma_field_value_len(kind, field@, raw_value@, crate::names::string_views(shop@), float);
    }
    write_field(save, field.offset, &value);
    Ok(())
}

} // verus!
