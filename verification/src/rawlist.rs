//! The raw listing: every property as a reusable `key=value` assignment.
use vstd::prelude::*;
use crate::format::{Save, SaveKind};
use crate::schema::{Kind, Property, PropView, views, fits};
use crate::values::{spec_enum_values, enum_values, EnumValues, pair_views, spec_bit_names, bit_names};
use crate::text::{decimal, push_decimal, push_char, hex_byte, hex_bytes, push_hex_byte, signed_decimal,
    push_signed_decimal, contains_seq, chars_of, contains_str};
use crate::names::string_views;
use crate::parse::le_value;

verus! {

/// Joins texts with a separator.
pub open spec fn join(parts: Seq<Seq<char>>, sep: Seq<char>) -> Seq<char>
    decreases parts.len(),
{
    if parts.len() == 0 {
        seq![]
    } else if parts.len() == 1 {
        parts[0]
    } else {
        join(parts.drop_last(), sep) + sep + parts.last()
    }
}

/// `0x` and the bytes from last to first as lower-case hexadecimal digits.
pub open spec fn mask_hex(data: Seq<u8>) -> Seq<char> {
    "0x"@ + hex_bytes(data.reverse())
}

/// The name of the first value from index `i` on that equals `v`.
pub open spec fn value_name_from(values: Seq<(Seq<char>, u32)>, v: u32, i: int) -> Option<Seq<char>>
    decreases values.len() - i,
{
    if i < 0 || i >= values.len() {
        None
    } else if values[i].1 == v {
        Some(values[i].0)
    } else {
        value_name_from(values, v, i + 1)
    }
}

/// The nonzero flags of the first `n` named values contained in `v`, taken in
/// order, each removing its bits, and the bits no flag took.
pub open spec fn flag_split(values: Seq<(Seq<char>, u32)>, v: u32, n: int) -> (Seq<Seq<char>>, u32)
    decreases n,
{
    if n <= 0 {
        (seq![], v)
    } else {
        let (names, rest) = flag_split(values, v, n - 1);
        let c = values[n - 1].1;
        if c != 0 && rest & c == c {
            (names.push(values[n - 1].0), rest & !c)
        } else {
            (names, rest)
        }
    }
}

/// The symbolic text of a stored integer: the name of the first value equal
/// to it; else (for flags) the names of the flags it holds and any bits left,
/// joined with `|`; else its decimal rendering.
pub open spec fn spec_enum_text(values: Seq<(Seq<char>, u32)>, flags: bool, v: u32) -> Seq<char> {
    match value_name_from(values, v, 0) {
        Some(n) => n,
        None => {
            let (names, rest) = if flags { flag_split(values, v, values.len() as int) } else { (seq![], v) };
            let parts = if names.len() == 0 || rest != 0 { names.push(decimal(rest as nat)) } else { names };
            join(parts, "|"@)
        },
    }
}

/// Appends `parts` joined with `sep`.
pub fn push_joined(out: &mut String, parts: &Vec<String>, sep: &str)
    ensures
        final(out)@ == old(out)@ + join(string_views(parts@), sep@),
{
    let ghost ps = string_views(parts@);
    let ghost start = out@;
    let mut i: usize = 0;
    while i < parts.len()
        invariant
            i <= parts@.len(),
            ps == string_views(parts@),
            out@ == start + join(ps.take(i as int), sep@),
        decreases parts@.len() - i,
    {
        assert(ps.take(i + 1).drop_last() =~= ps.take(i as int));
        assert(ps.take(i + 1).last() == parts@[i as int]@);
        if i > 0 {
            out.append(sep);
        }
        out.append(parts[i].as_str());
        proof {
            if i == 0 {
                assert(ps.take(1) =~= seq![ps[0]]);
            }
        }
        assert(out@ =~= start + join(ps.take(i + 1), sep@));
        i = i + 1;
    }
    assert(ps.take(i as int) =~= ps);
}

/// The symbolic text of a stored integer.
pub fn enum_text(enumeration: &EnumValues, value: u32) -> (res: String)
    ensures
        res@ == spec_enum_text(enumeration@.0, enumeration@.1, value),
{
    let ghost vs = enumeration@.0;
    let n = enumeration.values.len();
    let mut i: usize = 0;
    while i < n
        invariant
            n == enumeration.values@.len(),
            vs == enumeration@.0,
            vs.len() == n,
            i <= n,
            value_name_from(vs, value, 0) == value_name_from(vs, value, i as int),
        decreases n - i,
    {
        assert(vs[i as int] == (enumeration.values@[i as int].0@, enumeration.values@[i as int].1));
        if enumeration.values[i].1 == value {
            return enumeration.values[i].0.clone();
        }
        i = i + 1;
    }
    let mut names: Vec<String> = Vec::new();
    let mut rest = value;
    if enumeration.flags {
        let mut k: usize = 0;
        while k < n
            invariant
                n == enumeration.values@.len(),
                vs == enumeration@.0,
                vs.len() == n,
                k <= n,
                (string_views(names@), rest) == flag_split(vs, value, k as int),
            decreases n - k,
        {
            assert(vs[k as int] == (enumeration.values@[k as int].0@, enumeration.values@[k as int].1));
            let candidate = enumeration.values[k].1;
            let ghost before = names@;
            if candidate != 0 && rest & candidate == candidate {
                names.push(enumeration.values[k].0.clone());
                assert(string_views(names@) =~= string_views(before).push(vs[k as int].0));
                rest = rest & !candidate;
            }
            k = k + 1;
        }
    } else {
        assert(string_views(names@) =~= seq![]);
    }
    if names.len() == 0 || rest != 0 {
        let ghost before = names@;
        let mut d = String::new();
        push_decimal(&mut d, rest as u64);
        names.push(d);
        assert(string_views(names@) =~= string_views(before).push(decimal(rest as nat)));
    }
    let mut out = String::new();
    push_joined(&mut out, &names, "|");
    proof {
        reveal_strlit("|");
        assert(out@ =~= join(string_views(names@), "|"@));
    }
    out
}


/// Whether bit `bit`, counted from the lowest bit of the first byte, is set.
pub open spec fn bit_set(data: Seq<u8>, bit: int) -> bool {
    (data[bit / 8] >> ((bit % 8) as u8)) & 1u8 == 1u8
}

/// The set bits below `n`, lowest first.
pub open spec fn set_bits(data: Seq<u8>, n: int) -> Seq<int>
    decreases n,
{
    if n <= 0 {
        seq![]
    } else if bit_set(data, n - 1) {
        set_bits(data, n - 1).push(n - 1)
    } else {
        set_bits(data, n - 1)
    }
}

/// ` {bit}={name}` for each listed bit.
pub open spec fn bit_listing(bits: Seq<int>, names: Seq<Seq<char>>) -> Seq<char>
    decreases bits.len(),
{
    if bits.len() == 0 {
        seq![]
    } else {
        bit_listing(bits.drop_last(), names) + " "@ + decimal(bits.last() as nat) + "="@ + names[bits.last()]
    }
}

/// The listing of the set bits, or ` none`.
pub open spec fn set_listing(bits: Seq<int>, names: Seq<Seq<char>>) -> Seq<char> {
    if bits.len() == 0 { " none"@ } else { bit_listing(bits, names) }
}

/// The names of the listed bits.
pub open spec fn bit_labels(bits: Seq<int>, names: Seq<Seq<char>>) -> Seq<Seq<char>> {
    bits.map_values(|b: int| names[b])
}

/// The two lines of a wide mask: its bits as comment, and the assignment
/// naming every set bit.
pub open spec fn mask_block(kind: SaveKind, shop: Seq<Seq<char>>, data: Seq<u8>, f: PropView) -> Seq<char> {
    let names = spec_bit_names(kind, f.0, f.2, shop);
    let bits = set_bits(data, f.2 * 8);
    "# "@ + f.0 + ": "@ + mask_hex(data) + "; set bits:"@ + set_listing(bits, names) + "\n"@ + f.0 + "="@
        + (if bits.len() == 0 { "NONE"@ } else { join(bit_labels(bits, names), "|"@) }) + "\n"@
}

/// The symbolic text of each single-bit value below bit `n`.
pub open spec fn flag_names(values: Seq<(Seq<char>, u32)>, flags: bool, n: int) -> Seq<Seq<char>> {
    Seq::new(n as nat, |b: int| spec_enum_text(values, flags, 1u32 << (b as u32)))
}

/// The comment line of an integer with named values: its bytes and, for
/// flags, each set bit's name.
pub open spec fn enum_header(data: Seq<u8>, f: PropView, values: Seq<(Seq<char>, u32)>, flags: bool) -> Seq<char> {
    if values.len() == 0 {
        seq![]
    } else {
        "# "@ + f.0 + ": "@ + mask_hex(data) + (if flags {
            "; set bits:"@ + set_listing(set_bits(data, f.2 * 8), flag_names(values, flags, f.2 * 8))
        } else {
            seq![]
        }) + "\n"@
    }
}

/// The bits of a 32-bit float that is finite and zero or normal.
pub open spec fn float_plain(bits: int) -> bool {
    let e = (bits / 0x80_0000) % 0x100;
    (e != 0 && e != 0xff) || bits % 0x8000_0000 == 0
}

/// One `byte[{offset}]={value}` line per byte, joined by line breaks.
pub open spec fn byte_lines(offset: int, data: Seq<u8>) -> Seq<char> {
    join(Seq::new(data.len(), |i: int| "byte["@ + decimal((offset + i) as nat) + "]="@ + decimal(data[i] as nat)), "\n"@)
}

/// A little-endian value of `size` bytes read as two's complement.
pub open spec fn sign_extend(v: int, size: int) -> int {
    let m = if size == 1 { 0x100int } else if size == 2 { 0x1_0000int } else { 0x1_0000_0000int };
    if v >= m / 2 { v - m } else { v }
}

/// The value text of a property that is not a wide mask.
pub open spec fn value_text(data: Seq<u8>, f: PropView, values: Seq<(Seq<char>, u32)>, flags: bool, float_text: Seq<char>) -> Seq<char> {
    match f.3 {
        Kind::Bytes => "hex:"@ + hex_bytes(data),
        Kind::Float => if float_plain(le_value(data) as int) { float_text } else { "0\n"@ + byte_lines(f.1, data) },
        Kind::Signed => signed_decimal(sign_extend(le_value(data) as int, f.2)),
        Kind::Unsigned => spec_enum_text(values, flags, le_value(data) as u32),
        Kind::Bitmask => seq![],
    }
}

/// The lines of one property in the raw listing.
pub open spec fn field_block(kind: SaveKind, shop: Seq<Seq<char>>, bytes: Seq<u8>, f: PropView, float_text: Seq<char>) -> Seq<char> {
    let data = bytes.subrange(f.1, f.1 + f.2);
    if f.3 is Bitmask {
        mask_block(kind, shop, data, f)
    } else {
        let (values, flags) = spec_enum_values(f.0);
        enum_header(data, f, values, flags) + f.0 + "="@ + value_text(data, f, values, flags, float_text) + "\n"@
    }
}

/// A property the listing can show: it lies in the buffer, and an integer
/// with named flags has at most 32 bits.
pub open spec fn listable(f: PropView, len: int) -> bool {
    &&& fits(f, len)
    &&& (f.3 !is Bitmask && spec_enum_values(f.0).1 && spec_enum_values(f.0).0.len() > 0 ==> f.2 <= 4)
}


/// Appends `0x` and the bytes from last to first in hexadecimal.
fn push_mask_hex(out: &mut String, data: &[u8])
    ensures
        final(out)@ == old(out)@ + mask_hex(data@),
{
    let ghost rev = data@.reverse();
    let ghost start = out@;
    out.append("0x");
    proof { reveal_strlit("0x"); }
    let n = data.len();
    let mut i: usize = 0;
    while i < n
        invariant
            n == data@.len(),
            rev == data@.reverse(),
            i <= n,
            out@ == start + "0x"@ + hex_bytes(rev.take(i as int)),
        decreases n - i,
    {
        assert(rev.take(i + 1).drop_last() =~= rev.take(i as int));
        assert(rev[i as int] == data@[n - 1 - i]);
        push_hex_byte(out, data[n - 1 - i]);
        assert(out@ =~= start + "0x"@ + hex_bytes(rev.take(i + 1)));
        i = i + 1;
    }
    assert(rev.take(n as int) =~= rev);
}

/// Appends the bytes in hexadecimal, first to last.
fn push_hex(out: &mut String, data: &[u8])
    ensures
        final(out)@ == old(out)@ + hex_bytes(data@),
{
    let ghost start = out@;
    let mut i: usize = 0;
    while i < data.len()
        invariant
            i <= data@.len(),
            out@ == start + hex_bytes(data@.take(i as int)),
        decreases data@.len() - i,
    {
        assert(data@.take(i + 1).drop_last() =~= data@.take(i as int));
        push_hex_byte(out, data[i]);
        assert(out@ =~= start + hex_bytes(data@.take(i + 1)));
        i = i + 1;
    }
    assert(data@.take(i as int) =~= data@);
}

/// Whether bit `bit` of `data` is set.
fn test_bit(data: &[u8], bit: usize) -> (res: bool)
    requires
        bit / 8 < data@.len(),
    ensures
        res == bit_set(data@, bit as int),
{
    (data[bit / 8] >> ((bit % 8) as u8)) & 1u8 == 1u8
}

/// Appends ` {bit}={name}` for each set bit below `n`, or ` none`, and
/// returns the names of the set bits.
fn push_set_listing(out: &mut String, data: &[u8], names: &Vec<String>, n: usize) -> (labels: Vec<String>)
    requires
        n <= names@.len(),
        n <= data@.len() * 8,
    ensures
        final(out)@ == old(out)@ + set_listing(set_bits(data@, n as int), string_views(names@)),
        string_views(labels@) == bit_labels(set_bits(data@, n as int), string_views(names@)),
{
    let ghost ns = string_views(names@);
    let ghost start = out@;
    let mut labels: Vec<String> = Vec::new();
    let mut b: usize = 0;
    while b < n
        invariant
            n <= names@.len(),
            n <= data@.len() * 8,
            ns == string_views(names@),
            b <= n,
            out@ == start + bit_listing(set_bits(data@, b as int), ns),
            string_views(labels@) == bit_labels(set_bits(data@, b as int), ns),
        decreases n - b,
    {
        let ghost before = labels@;
        if test_bit(data, b) {
            let ghost bits = set_bits(data@, b + 1);
            assert(bits.drop_last() =~= set_bits(data@, b as int));
            assert(bits.last() == b);
            out.append(" ");
            push_decimal(out, b as u64);
            out.append("=");
            out.append(names[b].as_str());
            proof { reveal_strlit(" "); reveal_strlit("="); }
            assert(out@ =~= start + bit_listing(bits, ns));
            let label = names[b].clone();
            assert(ns[b as int] == names@[b as int]@);
            labels.push(label);
            assert(string_views(labels@) =~= string_views(before).push(ns[b as int]));
            assert(bit_labels(bits, ns) =~= bit_labels(set_bits(data@, b as int), ns).push(ns[b as int]));
            assert(string_views(labels@) =~= bit_labels(bits, ns));
        }
        b = b + 1;
    }
    if labels.len() == 0 {
        out.append(" none");
        proof { reveal_strlit(" none"); }
        assert(set_bits(data@, n as int).len() == 0);
    } else {
        assert(set_bits(data@, n as int).len() > 0);
    }
    labels
}

/// The little-endian value of at most four bytes.
fn read_unsigned(data: &[u8]) -> (res: u32)
    requires
        data@.len() <= 4,
    ensures
        res == le_value(data@),
{
    let n = data.len();
    let mut value: u64 = 0;
    let mut scale: u64 = 1;
    let mut i: usize = 0;
    while i < n
        invariant
            n == data@.len() <= 4,
            i <= n,
            value == le_value(data@.take(i as int)),
            scale == crate::parse::pow256(i as nat),
            i == 0 ==> scale == 1,
            i == 1 ==> scale == 0x100,
            i == 2 ==> scale == 0x1_0000,
            i == 3 ==> scale == 0x100_0000,
            i == 4 ==> scale == 0x1_0000_0000,
            value < scale,
        decreases n - i,
    {
        let ghost t = data@.take(i + 1);
        assert(t.drop_last() =~= data@.take(i as int));
        assert(t.last() == data@[i as int]);
        assert(value + data[i as int] as int * scale < 256 * scale) by (nonlinear_arith)
            requires data[i as int] <= 255, value < scale;
        value = value + data[i] as u64 * scale;
        scale = scale * 256;
        i = i + 1;
    }
    assert(data@.take(n as int) =~= data@);
    value as u32
}


/// Appends one `byte[{offset}]={value}` line per byte, joined by line breaks.
fn push_byte_lines(out: &mut String, offset: usize, data: &[u8])
    requires
        offset + data@.len() <= usize::MAX,
    ensures
        final(out)@ == old(out)@ + byte_lines(offset as int, data@),
{
    let ghost f = |i: int| "byte["@ + decimal((offset + i) as nat) + "]="@ + decimal(data@[i] as nat);
    let ghost start = out@;
    let mut i: usize = 0;
    while i < data.len()
        invariant
            offset + data@.len() <= usize::MAX,
            i <= data@.len(),
            f == (|i: int| "byte["@ + decimal((offset + i) as nat) + "]="@ + decimal(data@[i] as nat)),
            out@ == start + join(Seq::new(i as nat, f), "\n"@),
        decreases data@.len() - i,
    {
        let ghost line = f(i as int);
        assert(Seq::new((i + 1) as nat, f).drop_last() =~= Seq::new(i as nat, f));
        if i > 0 {
            push_char(out, '\n');
        }
        out.append("byte[");
        push_decimal(out, (offset + i) as u64);
        out.append("]=");
        push_decimal(out, data[i] as u64);
        proof {
            reveal_strlit("byte[");
            reveal_strlit("]=");
            reveal_strlit("\n");
            if i == 0 {
                assert(Seq::new(1nat, f) =~= seq![line]);
            }
        }
        assert(out@ =~= start + join(Seq::new((i + 1) as nat, f), "\n"@));
        i = i + 1;
    }
    assert(Seq::new(data@.len(), f) =~= Seq::new(data@.len(), |i: int| "byte["@ + decimal((offset + i) as nat) + "]="@ + decimal(data@[i] as nat)));
}

/// Appends the value text of a property that is not a wide mask.
fn push_value(out: &mut String, data: &[u8], field: &Property, enumeration: &EnumValues, float_text: &String)
    requires
        data@.len() == field.size,
        crate::schema::well_kinded(field.size as int, field.kind),
        field.kind !is Bitmask,
        field.offset + field.size <= usize::MAX,
    ensures
        final(out)@ == old(out)@ + value_text(data@, field@, enumeration@.0, enumeration@.1, float_text@),
{
    match field.kind {
        Kind::Bytes => {
            out.append("hex:");
            push_hex(out, data);
            proof { reveal_strlit("hex:"); }
        },
        Kind::Float => {
            let bits = read_unsigned(data);
            let e = (bits / 0x80_0000) % 0x100;
            if (e != 0 && e != 0xff) || bits % 0x8000_0000 == 0 {
                out.append(float_text.as_str());
            } else {
                out.append("0\n");
                push_byte_lines(out, field.offset, data);
                proof { reveal_strlit("0\n"); }
            }
        },
        Kind::Signed => {
            let v = read_unsigned(data) as i64;
            let m: i64 = if field.size == 1 { 0x100 } else if field.size == 2 { 0x1_0000 } else { 0x1_0000_0000 };
            let signed: i64 = if v >= m / 2 { v - m } else { v };
            push_signed_decimal(out, signed);
        },
        Kind::Unsigned => {
            let text = enum_text(enumeration, read_unsigned(data));
            out.append(text.as_str());
        },
        Kind::Bitmask => {},
    }
}

/// Appends the comment line of an integer with named values.
fn push_enum_header(out: &mut String, data: &[u8], field: &Property, enumeration: &EnumValues)
    requires
        data@.len() == field.size,
        enumeration@.1 && enumeration@.0.len() > 0 ==> field.size <= 4,
    ensures
        final(out)@ == old(out)@ + enum_header(data@, field@, enumeration@.0, enumeration@.1),
{
    if enumeration.values.len() == 0 {
        assert(enumeration@.0.len() == 0);
        return;
    }
    let ghost start = out@;
    out.append("# ");
    out.append(field.name.as_str());
    out.append(": ");
    push_mask_hex(out, data);
    let ghost line = out@;
    if enumeration.flags {
        out.append("; set bits:");
        let n = field.size * 8;
        let mut names: Vec<String> = Vec::new();
        let mut b: usize = 0;
        while b < n
            invariant
                n == field.size * 8,
                n <= 32,
                b <= n,
                string_views(names@) == flag_names(enumeration@.0, enumeration@.1, n as int).take(b as int),
            decreases n - b,
        {
            let ghost before = names@;
            let t = enum_text(enumeration, 1u32 << (b as u32));
            names.push(t);
            assert(string_views(names@) =~= string_views(before).push(t@));
            assert(string_views(names@) =~= flag_names(enumeration@.0, enumeration@.1, n as int).take(b + 1));
            b = b + 1;
        }
        assert(flag_names(enumeration@.0, enumeration@.1, n as int).take(n as int) =~= flag_names(enumeration@.0, enumeration@.1, n as int));
        push_set_listing(out, data, &names, n);
    }
    push_char(out, '\n');
    proof {
        reveal_strlit("# ");
        reveal_strlit(": ");
        reveal_strlit("; set bits:");
        reveal_strlit("\n");
    }
    assert(out@ =~= start + enum_header(data@, field@, enumeration@.0, enumeration@.1));
}

/// Appends the two lines of a wide mask.
fn push_mask_block(out: &mut String, kind: SaveKind, shop: &Vec<String>, data: &[u8], field: &Property)
    requires
        field.kind is Bitmask,
        crate::schema::well_kinded(field.size as int, field.kind),
        data@.len() == field.size,
    ensures
        final(out)@ == old(out)@ + mask_block(kind, string_views(shop@), data@, field@),
{
    let ghost start = out@;
    let name = chars_of(field.name.as_str());
    let names = bit_names(kind, name.as_slice(), field.size, shop);
    assert(names@.len() == string_views(names@).len());
    out.append("# ");
    out.append(field.name.as_str());
    out.append(": ");
    push_mask_hex(out, data);
    out.append("; set bits:");
    let labels = push_set_listing(out, data, &names, field.size * 8);
    push_char(out, '\n');
    out.append(field.name.as_str());
    push_char(out, '=');
    if labels.len() == 0 {
        out.append("NONE");
    } else {
        push_joined(out, &labels, "|");
    }
    push_char(out, '\n');
    proof {
        reveal_strlit("# ");
        reveal_strlit(": ");
        reveal_strlit("; set bits:");
        reveal_strlit("NONE");
        reveal_strlit("|");
        reveal_strlit("\n");
        reveal_strlit("=");
    }
    assert(out@ =~= start + mask_block(kind, string_views(shop@), data@, field@));
}

/// Appends the lines of one property.
fn push_field_block(out: &mut String, kind: SaveKind, shop: &Vec<String>, bytes: &Vec<u8>, field: &Property, float_text: &String)
    requires
        listable(field@, bytes@.len() as int),
    ensures
        final(out)@ == old(out)@ + field_block(kind, string_views(shop@), bytes@, field@, float_text@),
{
    let ghost start = out@;
    let _n = bytes.len();
    let data = vstd::slice::slice_subrange(bytes.as_slice(), field.offset, field.offset + field.size);
    if field.kind == Kind::Bitmask {
        push_mask_block(out, kind, shop, data, field);
        return;
    }
    let name = chars_of(field.name.as_str());
    let enumeration = enum_values(name.as_slice());
    push_enum_header(out, data, field, &enumeration);
    out.append(field.name.as_str());
    push_char(out, '=');
    push_value(out, data, field, &enumeration, float_text);
    push_char(out, '\n');
    proof {
        reveal_strlit("=");
        reveal_strlit("\n");
    }
    assert(out@ =~= start + field_block(kind, string_views(shop@), bytes@, field@, float_text@));
}

/// The first line of the raw listing.
pub open spec fn raw_header(kind: SaveKind, size: int, valid: bool) -> Seq<char> {
    "# kind="@ + kind.spec_description() + " payload_size="@ + decimal(size as nat) + " checksum_valid="@
        + (if valid { "true"@ } else { "false"@ }) + "\n"@
}

/// The blocks of the first `n` properties whose names contain `filter`.
pub open spec fn raw_blocks(
    kind: SaveKind,
    shop: Seq<Seq<char>>,
    bytes: Seq<u8>,
    fields: Seq<PropView>,
    floats: Seq<Seq<char>>,
    filter: Seq<char>,
    n: int,
) -> Seq<char>
    decreases n,
{
    if n <= 0 {
        seq![]
    } else {
        raw_blocks(kind, shop, bytes, fields, floats, filter, n - 1) + if contains_seq(fields[n - 1].0, filter) {
            field_block(kind, shop, bytes, fields[n - 1], floats[n - 1])
        } else {
            seq![]
        }
    }
}

/// The whole raw listing of a save.
pub open spec fn spec_raw_list(save: Save, shop: Seq<Seq<char>>, fields: Seq<PropView>, floats: Seq<Seq<char>>, filter: Seq<char>) -> Seq<char> {
    raw_header(save.spec_kind(), save.payload_size as int, save.spec_checksum_valid())
        + raw_blocks(save.spec_kind(), shop, save.bytes@, fields, floats, filter, fields.len() as int)
}

/// The raw listing opens with one comment line that names the payload kind
/// and size and says `checksum_valid=true` exactly when the checksum word
/// stored after the payload equals the checksum computed over the payload,
/// and `checksum_valid=false` otherwise.
pub proof fn law_raw_listing_reports_checksum(
    save: Save,
    shop: Seq<Seq<char>>,
    fields: Seq<PropView>,
    floats: Seq<Seq<char>>,
    filter: Seq<char>,
)
    ensures
        ({
            let out = spec_raw_list(save, shop, fields, floats, filter);
            let stored = crate::format::le_u32(save.bytes@, save.payload + save.payload_size);
            let computed = crate::format::spec_checksum(save.bytes@, save.payload as int, save.payload_size as int);
            let first = "# kind="@ + save.spec_kind().spec_description() + " payload_size="@
                + decimal(save.payload_size as nat) + " checksum_valid="@;
            &&& stored == computed ==> out.take(first.len() + 5int) == first + "true\n"@
            &&& stored != computed ==> out.take(first.len() + 6int) == first + "false\n"@
        }),
{
    reveal_strlit("true\n");
    reveal_strlit("false\n");
    reveal_strlit("true");
    reveal_strlit("false");
    reveal_strlit("\n");
    let out = spec_raw_list(save, shop, fields, floats, filter);
    let h = raw_header(save.spec_kind(), save.payload_size as int, save.spec_checksum_valid());
    let first = "# kind="@ + save.spec_kind().spec_description() + " payload_size="@
        + decimal(save.payload_size as nat) + " checksum_valid="@;
    let rest = raw_blocks(save.spec_kind(), shop, save.bytes@, fields, floats, filter, fields.len() as int);
    assert(out == h + rest);
    assert(out.take(h.len() as int) =~= h);
    if save.spec_checksum_valid() {
        assert(h =~= first + "true\n"@);
    } else {
        assert(h =~= first + "false\n"@);
    }
}

/// Lists every property whose name contains `filter` as a reusable
/// `key=value` assignment, after a comment line with the payload kind, size
/// and checksum state; wide masks and integers with named values also get a
/// comment line with their bytes and set bits.  `float_texts[i]` is the
/// display text of property `i` when it is a finite, zero or normal float.
pub fn raw_list_text(save: &Save, fields: &[Property], filter: &str, float_texts: &[String], tables: &crate::names::NameTables) -> (res: String)
    requires
        save.has_layout(),
        float_texts@.len() == fields@.len(),
        forall|k: int| 0 <= k < fields@.len() ==> listable(#[trigger] fields@[k]@, save.bytes@.len() as int),
    ensures
        res@ == spec_raw_list(*save, crate::shop_names(tables, save.spec_kind()), views(fields@), string_views(float_texts@), filter@),
{
    let kind = save.kind();
    let shop = crate::names::shop_character_names(tables, kind);
    let ghost fs = views(fields@);
    let ghost fl = string_views(float_texts@);
    let mut out = String::new();
    out.append("# kind=");
    out.append(kind.description());
    out.append(" payload_size=");
    push_decimal(&mut out, save.payload_size as u64);
    out.append(" checksum_valid=");
    if save.checksum_valid() {
        out.append("true");
    } else {
        out.append("false");
    }
    push_char(&mut out, '\n');
    proof {
        reveal_strlit("# kind=");
        reveal_strlit(" payload_size=");
        reveal_strlit(" checksum_valid=");
        reveal_strlit("true");
        reveal_strlit("false");
        reveal_strlit("\n");
    }
    let ghost head = out@;
    assert(head =~= raw_header(kind, save.payload_size as int, save.spec_checksum_valid()));
    let filter_chars = chars_of(filter);
    let mut i: usize = 0;
    while i < fields.len()
        invariant
            i <= fields@.len(),
            float_texts@.len() == fields@.len(),
            fs == views(fields@),
            fl == string_views(float_texts@),
            kind == save.spec_kind(),
            string_views(shop@) == crate::shop_names(tables, kind),
            filter_chars@ == filter@,
            forall|k: int| 0 <= k < fields@.len() ==> listable(#[trigger] fields@[k]@, save.bytes@.len() as int),
            out@ == head + raw_blocks(kind, string_views(shop@), save.bytes@, fs, fl, filter@, i as int),
        decreases fields@.len() - i,
    {
        assert(fs[i as int] == fields@[i as int]@);
        assert(fl[i as int] == float_texts@[i as int]@);
        let name = chars_of(fields[i].name.as_str());
        if contains_str(name.as_slice(), filter) {
            push_field_block(&mut out, kind, &shop, &save.bytes, &fields[i], &float_texts[i]);
        }
        i = i + 1;
    }
    out
}


/// Whether a property lies inside a buffer of `len` bytes and has a size its kind allows.
fn fits_in(field: &Property, len: usize) -> (res: bool)
    ensures
        res == fits(field@, len as int),
{
    if field.offset > len || field.size > len - field.offset {
        return false;
    }
    let kinded = match field.kind {
        Kind::Unsigned | Kind::Signed => field.size == 1 || field.size == 2 || field.size == 4,
        Kind::Float => field.size == 4,
        Kind::Bytes => field.size >= 1,
        Kind::Bitmask => 4 <= field.size && field.size <= 24 && field.size % 4 == 0,
    };
    if !kinded {
        return false;
    }
    if field.kind == Kind::Bitmask || field.size <= 4 {
        return true;
    }
    let name = crate::text::chars_of(field.name.as_str());
    let enumeration = enum_values(name.as_slice());
    !(enumeration.flags && enumeration.values.len() > 0)
}

/// Whether every property lies inside a buffer of `len` bytes with a size its kind allows.
pub fn all_fitting(fields: &[Property], len: usize) -> (res: bool)
    ensures
        res == crate::schema::all_fit(views(fields@), len as int),
{
    let mut k: usize = 0;
    while k < fields.len()
        invariant
            k <= fields@.len(),
            forall|j: int| 0 <= j < k ==> fits(#[trigger] views(fields@)[j], len as int),
        decreases fields@.len() - k,
    {
        assert(views(fields@)[k as int] == fields@[k as int]@);
        if !fits_in(&fields[k], len) {
            return false;
        }
        k = k + 1;
    }
    true
}

/// Whether the raw listing can show every property of a buffer of `len` bytes.
pub fn all_listable(fields: &[Property], len: usize) -> (res: bool)
    ensures
        res == forall|k: int| 0 <= k < fields@.len() ==> listable(#[trigger] fields@[k]@, len as int),
{
    let mut k: usize = 0;
    while k < fields.len()
        invariant
            k <= fields@.len(),
            forall|j: int| 0 <= j < k ==> listable(#[trigger] fields@[j]@, len as int),
        decreases fields@.len() - k,
    {
        let field = &fields[k];
        if !fits_in(field, len) {
            return false;
        }
        if field.kind != Kind::Bitmask {
            let name = chars_of(field.name.as_str());
            let enumeration = enum_values(name.as_slice());
            if enumeration.flags && enumeration.values.len() > 0 && field.size > 4 {
                assert(!listable(fields@[k as int]@, len as int));
                return false;
            }
        }
        k = k + 1;
    }
    true
}

} // verus!
