//! The raw listing read back: a listed value, assigned to its property,
//! stores the bytes it was listed from.
use vstd::prelude::*;
use crate::text::{decimal, digit_char, hex_char, hex_byte, hex_bytes, signed_decimal};
use crate::parse::{digit_value, all_digits, digits_value, radix_u64, spec_parse_number, pow256, le_value};
use crate::assign::{hex_pair, spec_hex_value, spec_bytes_value, word_bytes, spec_int_bytes, int_limit};
use crate::schema::Kind;

verus! {

proof fn lemma_digit_char(d: int)
    requires
        0 <= d < 10,
    ensures
        digit_value(digit_char(d)) == d,
        digit_char(d) != '-' && digit_char(d) != '+' && digit_char(d) != 'x' && digit_char(d) != '|',
{
}

proof fn lemma_hex_char(d: int)
    requires
        0 <= d < 16,
    ensures
        digit_value(hex_char(d)) == d,
        hex_char(d) != '+',
{
    if d < 10 {
        lemma_digit_char(d);
    }
}

/// The decimal rendering of a number is nonempty and made of digits.
pub proof fn lemma_decimal_digits(n: nat)
    ensures
        decimal(n).len() > 0,
        all_digits(decimal(n), 10),
        digits_value(decimal(n), 10) == n,
        forall|i: int| 0 <= i < decimal(n).len() ==> #[trigger] decimal(n)[i] != '-' && decimal(n)[i] != '+'
            && decimal(n)[i] != 'x' && decimal(n)[i] != '|',
    decreases n,
{
    if n < 10 {
        lemma_digit_char(n as int);
        assert(decimal(n).drop_last() =~= Seq::<char>::empty());
        assert(digits_value(Seq::<char>::empty(), 10) == 0);
        assert(digits_value(decimal(n), 10) == n);
    } else {
        lemma_decimal_digits(n / 10);
        lemma_digit_char((n % 10) as int);
        let d = decimal(n);
        assert(d.drop_last() =~= decimal(n / 10));
        assert(d.last() == digit_char((n % 10) as int));
        assert(digits_value(d, 10) == digits_value(decimal(n / 10), 10) * 10 + digit_value(d.last()));
        assert((n / 10) * 10 + n % 10 == n);
        assert(digits_value(d, 10) == n);
        assert forall|i: int| 0 <= i < d.len() implies #[trigger] digit_value(d[i]) < 10 by {
            if i < d.len() - 1 {
                assert(d[i] == decimal(n / 10)[i]);
            }
        }
        assert forall|i: int| 0 <= i < d.len() implies #[trigger] d[i] != '-' && d[i] != '+' && d[i] != 'x' && d[i] != '|' by {
            if i < d.len() - 1 {
                assert(d[i] == decimal(n / 10)[i]);
            }
        }
    }
}

/// A decimal rendering reads back as the number it renders.
pub proof fn lemma_parse_decimal(n: nat)
    requires
        n <= u64::MAX,
    ensures
        spec_parse_number(decimal(n)) == Some(n as u64),
{
    lemma_decimal_digits(n);
    let d = decimal(n);
    assert(d[0] != '-' && d[0] != '+');
    if d.len() >= 2 {
        assert(d[1] != 'x');
    }
}

/// The characters of the hexadecimal rendering of bytes, two per byte.
pub proof fn lemma_hex_bytes_at(s: Seq<u8>)
    ensures
        hex_bytes(s).len() == 2 * s.len(),
        forall|i: int| 0 <= i < s.len() ==> hex_bytes(s)[2 * i] == hex_char((s[i] / 16) as int) && hex_bytes(s)[2 * i + 1]
            == hex_char((s[i] % 16) as int),
    decreases s.len(),
{
    if s.len() > 0 {
        let d = s.drop_last();
        lemma_hex_bytes_at(d);
        assert forall|i: int| 0 <= i < s.len() implies hex_bytes(s)[2 * i] == hex_char((s[i] / 16) as int) && hex_bytes(s)[2 * i + 1]
            == hex_char((s[i] % 16) as int) by {
            if i < s.len() - 1 {
                assert(s[i] == d[i]);
            }
        }
    }
}

/// `hex:` and the hexadecimal rendering of bytes assign those bytes to a byte array.
pub proof fn lemma_hex_round_trip(data: Seq<u8>)
    ensures
        spec_bytes_value("hex:"@ + hex_bytes(data), data.len()) == Some(data),
{
    reveal_strlit("hex:");
    reveal_strlit("text:");
    lemma_hex_bytes_at(data);
    let v = "hex:"@ + hex_bytes(data);
    assert(v.skip(4) =~= hex_bytes(data));
    assert(!crate::text::starts_with(v, "text:"@)) by {
        if v.len() >= 5 {
            assert(v.subrange(0, 5)[0] == 'h');
            assert("text:"@[0] == 't');
        }
    }
    assert(crate::text::starts_with(v, "hex:"@)) by {
        assert(v.subrange(0, 4) =~= "hex:"@);
    }
    let h = hex_bytes(data);
    assert forall|i: int| 0 <= i < data.len() implies (#[trigger] hex_pair(h[2 * i], h[2 * i + 1])) == Some(data[i]) by {
        lemma_hex_char((data[i] / 16) as int);
        lemma_hex_char((data[i] % 16) as int);
    }
    assert(Seq::new(data.len(), |i: int| hex_pair(h[2 * i], h[2 * i + 1]).unwrap()) =~= data);
}


/// The little-endian value of one, two or four bytes, written out.
pub proof fn lemma_le_value_small(d: Seq<u8>)
    requires
        d.len() == 1 || d.len() == 2 || d.len() == 4,
    ensures
        d.len() == 1 ==> le_value(d) == d[0],
        d.len() == 2 ==> le_value(d) == d[0] + 256 * d[1],
        d.len() == 4 ==> le_value(d) == d[0] + 256 * d[1] + 65536 * d[2] + 16777216 * d[3],
{
    reveal_with_fuel(le_value, 5);
    reveal_with_fuel(pow256, 4);
    assert(le_value(Seq::<u8>::empty()) == 0);
    assert(pow256(0) == 1 && pow256(1) == 256);
    if d.len() == 1 {
        assert(d.drop_last() =~= Seq::<u8>::empty());
        assert(le_value(d) == le_value(d.drop_last()) + d[0] * pow256(0));
    } else if d.len() == 2 {
        assert(d.drop_last().drop_last() =~= Seq::<u8>::empty());
        assert(d.drop_last()[0] == d[0]);
        assert(le_value(d.drop_last()) == d[0]);
        assert(le_value(d) == le_value(d.drop_last()) + d[1] * pow256(1));
    } else {
        let d1 = d.drop_last();
        let d2 = d1.drop_last();
        let d3 = d2.drop_last();
        assert(d3.drop_last() =~= Seq::<u8>::empty());
        assert(d3[0] == d[0] && d2[0] == d[0] && d2[1] == d[1] && d1[0] == d[0] && d1[1] == d[1] && d1[2] == d[2]);
        assert(pow256(2) == 65536 && pow256(3) == 16777216);
        assert(le_value(d3) == le_value(d3.drop_last()) + d[0] * pow256(0));
        assert(le_value(d3) == d[0]);
        assert(le_value(d2) == le_value(d3) + d[1] * pow256(1));
        let p1 = pow256(1);
        let b1 = d[1];
        assert(b1 * p1 == 256 * b1) by (nonlinear_arith) requires p1 == 256;
        assert(le_value(d2) == d[0] + 256 * d[1]);
        assert(le_value(d1) == le_value(d2) + d[2] * pow256(2));
        let p2 = pow256(2);
        let p3 = pow256(3);
        let b2 = d[2];
        let b3 = d[3];
        assert(b2 * p2 == 65536 * b2) by (nonlinear_arith) requires p2 == 65536;
        assert(b3 * p3 == 16777216 * b3) by (nonlinear_arith) requires p3 == 16777216;
        assert(le_value(d1) == d[0] + 256 * d[1] + 65536 * d[2]);
        assert(le_value(d) == le_value(d1) + d[3] * pow256(3));
        assert(le_value(d) == d[0] + 256 * d[1] + 65536 * d[2] + 16777216 * d[3]);
    }
}

/// The bytes of a one-, two- or four-byte value, and of that value plus a
/// multiple of 2^(8 * size) below 2^64, are the bytes it was read from.
proof fn lemma_word_bytes_small(d: Seq<u8>, w: int)
    requires
        d.len() == 1 || d.len() == 2 || d.len() == 4,
        0 <= w < 0x1_0000_0000_0000_0000,
        w % (pow256(d.len()) as int) == le_value(d),
    ensures
        word_bytes(w, d.len()) == d,
{
    reveal_with_fuel(pow256, 5);
    lemma_le_value_small(d);
    assert(pow256(0) == 1 && pow256(1) == 256 && pow256(2) == 65536 && pow256(3) == 16777216);
    let x = w as u64;
    if d.len() == 1 {
        let d0 = d[0];
        assert(w % 256 == d0);
        assert(word_bytes(w, 1)[0] == ((w / 1) % 256) as u8);
        assert(word_bytes(w, 1) =~= d);
    } else if d.len() == 2 {
        let d0 = d[0];
        let d1 = d[1];
        assert(x % 65536 == d0 as u64 + 256 * (d1 as u64));
        assert(x % 256 == d0 as u64 && (x / 256) % 256 == d1 as u64) by (bit_vector)
            requires x % 65536 == d0 as u64 + 256 * (d1 as u64);
        assert(word_bytes(w, 2)[0] == ((w / 1) % 256) as u8);
        assert(word_bytes(w, 2)[1] == ((w / 256) % 256) as u8);
        assert(word_bytes(w, 2) =~= d);
    } else {
        let d0 = d[0];
        let d1 = d[1];
        let d2 = d[2];
        let d3 = d[3];
        assert(x % 0x1_0000_0000 == d0 as u64 + 256 * (d1 as u64) + 65536 * (d2 as u64) + 16777216 * (d3 as u64));
        assert(x % 256 == d0 as u64 && (x / 256) % 256 == d1 as u64 && (x / 65536) % 256 == d2 as u64
            && (x / 16777216) % 256 == d3 as u64) by (bit_vector)
            requires x % 0x1_0000_0000 == d0 as u64 + 256 * (d1 as u64) + 65536 * (d2 as u64) + 16777216 * (d3 as u64);
        assert(word_bytes(w, 4) =~= d);
    }
}

/// The decimal value of an integer property, signed in two's complement
/// where the property is signed, assigns back the bytes it was read from.
pub proof fn lemma_int_round_trip(d: Seq<u8>, signed: bool)
    requires
        d.len() == 1 || d.len() == 2 || d.len() == 4,
    ensures
        spec_int_bytes(
            if signed { signed_decimal(crate::rawlist::sign_extend(le_value(d) as int, d.len() as int)) } else { decimal(le_value(d)) },
            d.len() as int,
            signed,
        ) == Some(d),
{
    reveal_with_fuel(pow256, 5);
    lemma_le_value_small(d);
    let u = le_value(d);
    let size = d.len() as int;
    let m: int = if size == 1 { 0x100 } else if size == 2 { 0x1_0000 } else { 0x1_0000_0000 };
    assert(pow256(d.len()) == m);
    assert(u < m);
    vstd::arithmetic::div_mod::lemma_small_mod(u, m as nat);
    if !signed || u < m / 2 {
        let t = decimal(u);
        lemma_parse_decimal(u);
        lemma_decimal_digits(u);
        assert(!(t.len() > 0 && t[0] == '-'));
        if signed {
            assert(crate::rawlist::sign_extend(u as int, size) == u);
        }
        lemma_word_bytes_small(d, u as int);
    } else {
        let v = crate::rawlist::sign_extend(u as int, size);
        assert(v == u - m);
        let p: nat = (m - u) as nat;
        let t = signed_decimal(v);
        assert(t == seq!['-'] + decimal(p));
        assert(t.skip(1) =~= decimal(p));
        lemma_parse_decimal(p);
        assert(p <= int_limit(size, true));
        let w: int = 0x1_0000_0000_0000_0000 - p;
        assert(w == u + (0x1_0000_0000_0000_0000 - m));
        assert(0x1_0000_0000_0000_0000 - m == m * ((0x1_0000_0000_0000_0000 - m) / m));
        vstd::arithmetic::div_mod::lemma_mod_multiples_vanish((0x1_0000_0000_0000_0000 - m) / m, u as int, m);
        lemma_word_bytes_small(d, w);
    }
}


/// Whether `c` occurs in `s`.
pub open spec fn has_char(s: Seq<char>, c: char) -> bool {
    exists|i: int| 0 <= i < s.len() && s[i] == c
}

proof fn lemma_split_without(t: Seq<char>, c: char)
    requires
        !has_char(t, c),
    ensures
        crate::names::split_on(t, c) == seq![t],
    decreases t.len(),
{
    if t.len() > 0 {
        let d = t.drop_last();
        assert(!has_char(d, c)) by {
            if has_char(d, c) {
                let i = choose|i: int| 0 <= i < d.len() && d[i] == c;
                assert(t[i] == c);
            }
        }
        lemma_split_without(d, c);
        assert(t.last() != c);
        assert(d.push(t.last()) =~= t);
    } else {
        assert(t =~= Seq::<char>::empty());
    }
}

proof fn lemma_split_after(s: Seq<char>, t: Seq<char>, c: char)
    requires
        !has_char(t, c),
    ensures
        crate::names::split_on(s + seq![c] + t, c) == crate::names::split_on(s, c).push(t),
    decreases t.len(),
{
    let whole = s + seq![c] + t;
    if t.len() == 0 {
        assert(whole.drop_last() =~= s);
        assert(t =~= Seq::<char>::empty());
    } else {
        let d = t.drop_last();
        assert(!has_char(d, c)) by {
            if has_char(d, c) {
                let i = choose|i: int| 0 <= i < d.len() && d[i] == c;
                assert(t[i] == c);
            }
        }
        lemma_split_after(s, d, c);
        assert(whole.drop_last() =~= s + seq![c] + d);
        assert(whole.last() == t.last());
        assert(t.last() != c);
        crate::names::lemma_split_on_len(s, c);
        assert(d.push(t.last()) =~= t);
        assert(crate::names::split_on(s, c).push(d).update(crate::names::split_on(s, c).len() as int, d.push(t.last()))
            =~= crate::names::split_on(s, c).push(t));
    }
}

/// Texts joined with a separator split back into the texts, when none holds the separator.
pub proof fn lemma_split_join(parts: Seq<Seq<char>>, c: char)
    requires
        parts.len() > 0,
        forall|k: int| 0 <= k < parts.len() ==> !has_char(#[trigger] parts[k], c),
    ensures
        crate::names::split_on(crate::rawlist::join(parts, seq![c]), c) == parts,
    decreases parts.len(),
{
    if parts.len() == 1 {
        lemma_split_without(parts[0], c);
        assert(seq![parts[0]] =~= parts);
    } else {
        let d = parts.drop_last();
        lemma_split_join(d, c);
        lemma_split_after(crate::rawlist::join(d, seq![c]), parts.last(), c);
        assert(d.push(parts.last()) =~= parts);
    }
}

/// With distinct names, looking up an entry's name finds its value.
proof fn lemma_lookup_entry(values: Seq<(Seq<char>, u32)>, i: int)
    requires
        0 <= i < values.len(),
        names_distinct(values),
    ensures
        crate::assign::enum_lookup(values, values[i].0) == Some(values[i].1),
{
    let n = values[i].0;
    assert(values[i].0 == n);
    let j = choose|j: int| 0 <= j < values.len() && values[j].0 == n && forall|m: int| 0 <= m < j ==> #[trigger] values[m].0 != n;
    if j != i {
        assert(values[j].0 == values[i].0);
    }
}

/// No two named values share a name.
pub open spec fn names_distinct(values: Seq<(Seq<char>, u32)>) -> bool {
    forall|i: int, j: int| 0 <= i < values.len() && 0 <= j < values.len() && i != j ==> #[trigger] values[i].0 != #[trigger] values[j].0
}

/// A table of named values the raw listing can spell and read back: distinct
/// names, none holding `|`, none made only of digits.
pub open spec fn values_listable(values: Seq<(Seq<char>, u32)>) -> bool {
    &&& names_distinct(values)
    &&& forall|i: int| 0 <= i < values.len() ==> !has_char(#[trigger] values[i].0, '|')
    &&& forall|i: int| 0 <= i < values.len() ==> !all_digits(#[trigger] values[i].0, 10)
}

/// The flags `flag_split` takes from `v` among the first `n` named values, or-ed together.
pub open spec fn flag_or(values: Seq<(Seq<char>, u32)>, v: u32, n: int) -> u32
    decreases n,
{
    if n <= 0 {
        0
    } else {
        let rest = crate::rawlist::flag_split(values, v, n - 1).1;
        let c = values[n - 1].1;
        if c != 0 && rest & c == c { flag_or(values, v, n - 1) | c } else { flag_or(values, v, n - 1) }
    }
}

proof fn lemma_flag_split(values: Seq<(Seq<char>, u32)>, v: u32, n: int)
    requires
        0 <= n <= values.len(),
        values_listable(values),
    ensures
        flag_or(values, v, n) | crate::rawlist::flag_split(values, v, n).1 == v,
        crate::assign::enum_fold(crate::rawlist::flag_split(values, v, n).0, values)
            == Some(((flag_or(values, v, n) as u64), crate::rawlist::flag_split(values, v, n).0.len() > 0)),
        forall|k: int| 0 <= k < crate::rawlist::flag_split(values, v, n).0.len() ==> !has_char(#[trigger] crate::rawlist::flag_split(values, v, n).0[k], '|'),
        crate::rawlist::flag_split(values, v, n).0.len() == 0 ==> flag_or(values, v, n) == 0,
    decreases n,
{
    if n == 0 {
        assert(0u32 | v == v) by (bit_vector);
    } else {
        lemma_flag_split(values, v, n - 1);
        let (names, rest) = crate::rawlist::flag_split(values, v, n - 1);
        let o = flag_or(values, v, n - 1);
        let c = values[n - 1].1;
        if c != 0 && rest & c == c {
            assert((o | c) | (rest & !c) == v) by (bit_vector)
                requires o | rest == v, rest & c == c;
            lemma_lookup_entry(values, n - 1);
            let pushed = names.push(values[n - 1].0);
            assert(pushed.drop_last() =~= names);
            assert(((o as u64) | (c as u64)) == ((o | c) as u64)) by (bit_vector);
            assert forall|k: int| 0 <= k < pushed.len() implies !has_char(#[trigger] pushed[k], '|') by {
                if k < names.len() {
                    assert(pushed[k] == names[k]);
                }
            }
        }
    }
}

/// The symbolic text of a stored integer reads back, through its named
/// values, as the decimal rendering of the integer.
pub proof fn lemma_enum_text_round_trip(values: Seq<(Seq<char>, u32)>, flags: bool, v: u32)
    requires
        values_listable(values),
    ensures
        crate::assign::spec_int_text(values, flags, crate::rawlist::spec_enum_text(values, flags, v)) == Some(decimal(v as nat)),
{
    reveal_strlit("|");
    assert("|"@ =~= seq!['|']);
    let text = crate::rawlist::spec_enum_text(values, flags, v);
    if values.len() == 0 {
        assert(crate::rawlist::value_name_from(values, v, 0) is None);
        let (names, rest) = if flags { crate::rawlist::flag_split(values, v, 0) } else { (seq![], v) };
        assert(names.len() == 0);
        assert(seq![decimal(rest as nat)].len() == 1);
        return;
    }
    lemma_first_value(values, v, 0);
    lemma_decimal_digits(v as nat);
    lemma_parse_decimal(v as nat);
    assert(!has_char(decimal(v as nat), '|')) by {
        if has_char(decimal(v as nat), '|') {
            let i = choose|i: int| 0 <= i < decimal(v as nat).len() && decimal(v as nat)[i] == '|';
        }
    }
    assert(crate::assign::enum_lookup(values, decimal(v as nat)) is None) by {
        if exists|i: int| 0 <= i < values.len() && #[trigger] values[i].0 == decimal(v as nat) {
            let i = choose|i: int| 0 <= i < values.len() && #[trigger] values[i].0 == decimal(v as nat);
            assert(!all_digits(values[i].0, 10));
        }
    }
    match crate::rawlist::value_name_from(values, v, 0) {
        Some(n) => {
            let i = choose|i: int| 0 <= i < values.len() && values[i].0 == n && values[i].1 == v;
            lemma_split_without(n, '|');
            lemma_lookup_entry(values, i);
            let tokens = seq![n];
            assert(tokens.drop_last() =~= Seq::<Seq<char>>::empty());
            assert(crate::assign::enum_fold(Seq::<Seq<char>>::empty(), values) == Some((0u64, false)));
            assert(((0u64 | (v as u64)) == v as u64)) by (bit_vector);
            assert(crate::assign::enum_fold(tokens, values) == Some((v as u64, true)));
            assert(text == n);
        },
        None => {
            if !flags {
                let parts = seq![decimal(v as nat)];
                assert(text == decimal(v as nat));
                lemma_split_without(decimal(v as nat), '|');
                assert(parts.drop_last() =~= Seq::<Seq<char>>::empty());
                assert(crate::assign::enum_fold(Seq::<Seq<char>>::empty(), values) == Some((0u64, false)));
                assert(((0u64 | (v as u64)) == v as u64)) by (bit_vector);
                assert(crate::assign::enum_fold(parts, values) == Some((v as u64, false)));
            } else {
                let (names, rest) = crate::rawlist::flag_split(values, v, values.len() as int);
                lemma_flag_split(values, v, values.len() as int);
                let o = flag_or(values, v, values.len() as int);
                let parts = if names.len() == 0 || rest != 0 { names.push(decimal(rest as nat)) } else { names };
                lemma_decimal_digits(rest as nat);
                lemma_parse_decimal(rest as nat);
                assert(!has_char(decimal(rest as nat), '|')) by {
                    if has_char(decimal(rest as nat), '|') {
                        let i = choose|i: int| 0 <= i < decimal(rest as nat).len() && decimal(rest as nat)[i] == '|';
                    }
                }
                assert(crate::assign::enum_lookup(values, decimal(rest as nat)) is None) by {
                    if exists|i: int| 0 <= i < values.len() && #[trigger] values[i].0 == decimal(rest as nat) {
                        let i = choose|i: int| 0 <= i < values.len() && #[trigger] values[i].0 == decimal(rest as nat);
                        assert(!all_digits(values[i].0, 10));
                    }
                }
                assert forall|k: int| 0 <= k < parts.len() implies !has_char(#[trigger] parts[k], '|') by {
                    if k < names.len() {
                        assert(parts[k] == names[k]);
                    }
                }
                lemma_split_join(parts, '|');
                assert(text == crate::rawlist::join(parts, "|"@));
                assert(crate::names::split_on(text, '|') == parts);
                if names.len() == 0 || rest != 0 {
                    assert(parts.drop_last() =~= names);
                    assert(parts.last() == decimal(rest as nat));
                    assert(((o as u64) | (rest as u64)) == (v as u64)) by (bit_vector)
                        requires o | rest == v;
                    assert(crate::assign::enum_fold(parts, values) == Some((v as u64, names.len() > 0)));
                    if names.len() == 0 {
                        assert(rest == v) by (bit_vector)
                            requires o | rest == v, o == 0;
                        assert(parts =~= seq![decimal(v as nat)]);
                        assert(text == decimal(v as nat));
                    }
                } else {
                    assert(o == v) by (bit_vector)
                        requires o | rest == v, rest == 0;
                    assert(crate::assign::enum_fold(parts, values) == Some((v as u64, true)));
                }
            }
        },
    }
}

/// The first value equal to `v` from index `i` on is a named value equal to `v`.
proof fn lemma_first_value(values: Seq<(Seq<char>, u32)>, v: u32, i: int)
    requires
        0 <= i,
    ensures
        crate::rawlist::value_name_from(values, v, i) matches Some(n) ==> exists|j: int| i <= j < values.len() && values[j].0 == n && values[j].1 == v,
    decreases values.len() - i,
{
    if i < values.len() && values[i].1 != v {
        lemma_first_value(values, v, i + 1);
    }
}


/// The bits of a byte below bit `k`.
pub open spec fn low_mask(k: int) -> u8 {
    if k <= 0 { 0 } else if k >= 8 { 0xff } else { ((1u32 << (k as u32)) - 1) as u8 }
}

/// The bytes keeping only the bits below bit `n`.
pub open spec fn low_bits(data: Seq<u8>, n: int) -> Seq<u8> {
    Seq::new(data.len(), |i: int| data[i] & low_mask(n - 8 * i))
}

proof fn lemma_low_mask_step(x: u8, k: u8)
    requires
        k < 8,
    ensures
        x & low_mask(k + 1) == (x & low_mask(k as int)) | (if (x >> k) & 1u8 == 1u8 { 1u8 << k } else { 0u8 }),
{
    if k == 0 {
        assert(((1u32 << 1u32) - 1) as u8 == 1u8) by (bit_vector);
        assert(low_mask(1) == 1u8);
        assert(low_mask(0) == 0u8);
        assert(x & 1u8 == (x & 0u8) | (if (x >> 0u8) & 1u8 == 1u8 { 1u8 << 0u8 } else { 0u8 })) by (bit_vector);
    } else if k == 7 {
        assert(((1u32 << 7u32) - 1) as u8 == 127u8) by (bit_vector);
        assert(low_mask(7) == 127u8);
        assert(low_mask(8) == 0xffu8);
        assert(x & 0xffu8 == (x & 127u8) | (if (x >> 7u8) & 1u8 == 1u8 { 1u8 << 7u8 } else { 0u8 })) by (bit_vector);
    } else {
        let m1 = ((1u32 << ((k + 1) as u32)) - 1) as u8;
        let m0 = ((1u32 << (k as u32)) - 1) as u8;
        assert(x & m1 == (x & m0) | (if (x >> k) & 1u8 == 1u8 { 1u8 << k } else { 0u8 })) by (bit_vector)
            requires
                1 <= k < 7,
                m1 == ((1u32 << ((k + 1) as u32)) - 1) as u8,
                m0 == ((1u32 << (k as u32)) - 1) as u8;
        assert(low_mask(k + 1) == m1);
        assert(low_mask(k as int) == m0);
    }
}

/// Adding bit `n` to the bits below it gives the bits below `n + 1`.
proof fn lemma_low_bits_step(data: Seq<u8>, n: int)
    requires
        0 <= n < 8 * data.len(),
    ensures
        low_bits(data, n + 1) == crate::values::or_bytes(
            low_bits(data, n),
            if crate::rawlist::bit_set(data, n) { crate::values::single_bit(n, data.len()) } else { crate::values::zeros(data.len()) },
        ),
{
    let t = if crate::rawlist::bit_set(data, n) { crate::values::single_bit(n, data.len()) } else { crate::values::zeros(data.len()) };
    assert forall|i: int| 0 <= i < data.len() implies #[trigger] low_bits(data, n + 1)[i] == low_bits(data, n)[i] | t[i] by {
        let x = data[i];
        if i == n / 8 {
            let k = (n % 8) as u8;
            assert(n - 8 * i == k);
            lemma_low_mask_step(x, k);
        } else if 8 * i > n {
            assert(x & 0u8 == (x & 0u8) | 0u8) by (bit_vector);
        } else {
            assert(n - 8 * i >= 8);
            assert(x & 0xffu8 == (x & 0xffu8) | 0u8) by (bit_vector);
        }
    }
    assert(low_bits(data, n + 1) =~= crate::values::or_bytes(low_bits(data, n), t));
}

/// Whether the name of set bit `b` reads back as that bit: it holds no `|`,
/// is not `NONE`, and names no lower bit, by name or as `BIT_n`.
pub open spec fn bit_name_listable(names: Seq<Seq<char>>, b: int) -> bool {
    &&& !has_char(names[b], '|')
    &&& names[b] != "NONE"@
    &&& forall|c: int| 0 <= c < b ==> !#[trigger] crate::values::names_bit(names, names[b], c)
}

/// A mask the raw listing can spell and read back: every set bit's name
/// reads back as that bit.
pub open spec fn mask_listable(names: Seq<Seq<char>>, data: Seq<u8>) -> bool {
    forall|b: int| 0 <= b < 8 * data.len() && crate::rawlist::bit_set(data, b) ==> #[trigger] bit_name_listable(names, b)
}

proof fn lemma_set_bits_members(data: Seq<u8>, n: int)
    requires
        0 <= n,
    ensures
        forall|k: int| 0 <= k < crate::rawlist::set_bits(data, n).len() ==> {
            let b = #[trigger] crate::rawlist::set_bits(data, n)[k];
            0 <= b < n && crate::rawlist::bit_set(data, b)
        },
    decreases n,
{
    if n > 0 {
        lemma_set_bits_members(data, n - 1);
        let prev = crate::rawlist::set_bits(data, n - 1);
        assert forall|k: int| 0 <= k < crate::rawlist::set_bits(data, n).len() implies {
            let b = #[trigger] crate::rawlist::set_bits(data, n)[k];
            0 <= b < n && crate::rawlist::bit_set(data, b)
        } by {
            if k < prev.len() {
                assert(crate::rawlist::set_bits(data, n)[k] == prev[k]);
            }
        }
    }
}

proof fn lemma_token_bit(names: Seq<Seq<char>>, b: int)
    requires
        0 <= b < names.len(),
        bit_name_listable(names, b),
    ensures
        crate::values::token_bit(names, names[b]) == Some(b),
{
    assert(crate::values::names_bit(names, names[b], b));
    let c = choose|c: int| 0 <= c < names.len() && crate::values::names_bit(names, names[b], c) && forall|d: int| 0 <= d < c ==> !#[trigger] crate::values::names_bit(names, names[b], d);
    if c < b {
        assert(!crate::values::names_bit(names, names[b], c));
    }
    if c > b {
        assert(!crate::values::names_bit(names, names[b], b));
    }
}

/// The names of the set bits below `n`, read back, spell the bits below `n`.
proof fn lemma_mask_prefix(names: Seq<Seq<char>>, data: Seq<u8>, n: int)
    requires
        0 <= n <= 8 * data.len(),
        names.len() == 8 * data.len(),
        mask_listable(names, data),
    ensures
        crate::values::mask_fold(crate::rawlist::bit_labels(crate::rawlist::set_bits(data, n), names), names, data.len())
            == Some(low_bits(data, n)),
    decreases n,
{
    reveal_strlit("NONE");
    if n == 0 {
        assert(crate::rawlist::bit_labels(crate::rawlist::set_bits(data, 0), names) =~= Seq::<Seq<char>>::empty());
        assert(low_bits(data, 0) =~= crate::values::zeros(data.len())) by {
            assert forall|i: int| 0 <= i < data.len() implies #[trigger] low_bits(data, 0)[i] == 0u8 by {
                let x = data[i];
                assert(x & 0u8 == 0u8) by (bit_vector);
            }
        }
    } else {
        lemma_mask_prefix(names, data, n - 1);
        lemma_low_bits_step(data, n - 1);
        let prev = crate::rawlist::bit_labels(crate::rawlist::set_bits(data, n - 1), names);
        if crate::rawlist::bit_set(data, n - 1) {
            let labels = crate::rawlist::bit_labels(crate::rawlist::set_bits(data, n), names);
            assert(labels =~= prev.push(names[n - 1]));
            assert(labels.drop_last() =~= prev);
            assert(bit_name_listable(names, n - 1));
            lemma_token_bit(names, n - 1);
            assert(crate::values::token_mask(names[n - 1], names, data.len()) == Some(crate::values::single_bit(n - 1, data.len())));
        } else {
            let zero = crate::values::zeros(data.len());
            assert(crate::values::or_bytes(low_bits(data, n - 1), zero) =~= low_bits(data, n - 1)) by {
                assert forall|i: int| 0 <= i < data.len() implies #[trigger] crate::values::or_bytes(low_bits(data, n - 1), zero)[i] == low_bits(data, n - 1)[i] by {
                    let x = low_bits(data, n - 1)[i];
                    assert(x | 0u8 == x) by (bit_vector);
                }
            }
        }
    }
}

/// The set bits of a mask, named and joined with `|`, or `NONE`, assign the mask back.
pub proof fn lemma_mask_round_trip(names: Seq<Seq<char>>, data: Seq<u8>)
    requires
        names.len() == 8 * data.len(),
        mask_listable(names, data),
    ensures
        ({
            let bits = crate::rawlist::set_bits(data, 8 * data.len() as int);
            let value = if bits.len() == 0 { "NONE"@ } else { crate::rawlist::join(crate::rawlist::bit_labels(bits, names), "|"@) };
            crate::values::spec_mask_value(value, names, data.len()) == Some(data)
        }),
{
    reveal_strlit("NONE");
    reveal_strlit("|");
    assert("|"@ =~= seq!['|']);
    let n: int = 8 * data.len() as int;
    let bits = crate::rawlist::set_bits(data, n);
    lemma_mask_prefix(names, data, n);
    assert(low_bits(data, n) =~= data) by {
        assert forall|i: int| 0 <= i < data.len() implies #[trigger] low_bits(data, n)[i] == data[i] by {
            let x = data[i];
            assert(n - 8 * i >= 8);
            assert(x & 0xffu8 == x) by (bit_vector);
        }
    }
    let labels = crate::rawlist::bit_labels(bits, names);
    if bits.len() == 0 {
        assert(labels =~= Seq::<Seq<char>>::empty());
        assert(!has_char("NONE"@, '|'));
        lemma_split_without("NONE"@, '|');
        let tokens = seq!["NONE"@];
        assert(tokens.drop_last() =~= Seq::<Seq<char>>::empty());
        let zero = crate::values::zeros(data.len());
        assert(crate::values::or_bytes(zero, zero) =~= zero) by {
            assert forall|i: int| 0 <= i < data.len() implies #[trigger] crate::values::or_bytes(zero, zero)[i] == zero[i] by {
                assert(0u8 | 0u8 == 0u8) by (bit_vector);
            }
        }
    } else {
        lemma_set_bits_members(data, n);
        assert forall|k: int| 0 <= k < labels.len() implies !has_char(#[trigger] labels[k], '|') by {
            let b = bits[k];
            assert(bit_name_listable(names, b));
        }
        lemma_split_join(labels, '|');
    }
}


/// A decimal number reads back through a table of named values as itself.
proof fn lemma_decimal_int_text(values: Seq<(Seq<char>, u32)>, flags: bool, v: nat)
    requires
        v <= u64::MAX,
        values_listable(values),
    ensures
        crate::assign::spec_int_text(values, flags, decimal(v)) == Some(decimal(v)),
{
    if values.len() > 0 {
        lemma_decimal_digits(v);
        lemma_parse_decimal(v);
        assert(!has_char(decimal(v), '|')) by {
            if has_char(decimal(v), '|') {
                let i = choose|i: int| 0 <= i < decimal(v).len() && decimal(v)[i] == '|';
            }
        }
        assert(crate::assign::enum_lookup(values, decimal(v)) is None) by {
            if exists|i: int| 0 <= i < values.len() && #[trigger] values[i].0 == decimal(v) {
                let i = choose|i: int| 0 <= i < values.len() && #[trigger] values[i].0 == decimal(v);
                assert(!all_digits(values[i].0, 10));
            }
        }
        lemma_split_without(decimal(v), '|');
        let tokens = seq![decimal(v)];
        assert(tokens.drop_last() =~= Seq::<Seq<char>>::empty());
        assert(crate::assign::enum_fold(Seq::<Seq<char>>::empty(), values) == Some((0u64, false)));
        let w = v as u64;
        assert((0u64 | w) == w) by (bit_vector);
        assert(crate::assign::enum_fold(tokens, values) == Some((w, false)));
    }
}

/// An assignment splits at its first `=`.
pub proof fn lemma_split_assignment(name: Seq<char>, value: Seq<char>)
    requires
        !has_char(name, '='),
    ensures
        crate::values::split_once(name + "="@ + value, '=') == Some((name, value)),
{
    reveal_strlit("=");
    let a = name + "="@ + value;
    let n = name.len() as int;
    assert(a[n] == '=');
    let i = choose|i: int| 0 <= i < a.len() && a[i] == '=' && forall|j: int| 0 <= j < i ==> a[j] != '=';
    if i < n {
        assert(name[i] == '=');
    }
    if i > n {
        assert(a[n] != '=');
    }
    assert(a.take(n) =~= name);
    assert(a.skip(n + 1) =~= value);
}

/// The value the raw listing assigns to a property: the names of a wide
/// mask's set bits joined with `|` (or `NONE`), else the property's value text.
#[verifier::opaque]
pub open spec fn listed_value(kind: crate::format::SaveKind, shop: Seq<Seq<char>>, bytes: Seq<u8>, f: crate::schema::PropView, float_text: Seq<char>) -> Seq<char> {
    let data = bytes.subrange(f.1, f.1 + f.2);
    if f.3 is Bitmask {
        let names = crate::values::spec_bit_names(kind, f.0, f.2, shop);
        let bits = crate::rawlist::set_bits(data, f.2 * 8);
        if bits.len() == 0 { "NONE"@ } else { crate::rawlist::join(crate::rawlist::bit_labels(bits, names), "|"@) }
    } else {
        let (values, flags) = crate::values::spec_enum_values(f.0);
        crate::rawlist::value_text(data, f, values, flags, float_text)
    }
}

/// Each property's lines in the raw listing end with the assignment of its listed value.
pub proof fn lemma_listed_line(kind: crate::format::SaveKind, shop: Seq<Seq<char>>, bytes: Seq<u8>, f: crate::schema::PropView, float_text: Seq<char>)
    ensures
        exists|comment: Seq<char>| crate::rawlist::field_block(kind, shop, bytes, f, float_text)
            == comment + f.0 + "="@ + listed_value(kind, shop, bytes, f, float_text) + "\n"@,
{
    reveal(listed_value);
    let data = bytes.subrange(f.1, f.1 + f.2);
    let v = listed_value(kind, shop, bytes, f, float_text);
    if f.3 is Bitmask {
        let names = crate::values::spec_bit_names(kind, f.0, f.2, shop);
        let bits = crate::rawlist::set_bits(data, f.2 * 8);
        let comment = "# "@ + f.0 + ": "@ + crate::rawlist::mask_hex(data) + "; set bits:"@ + crate::rawlist::set_listing(bits, names) + "\n"@;
        assert(crate::rawlist::field_block(kind, shop, bytes, f, float_text) =~= comment + f.0 + "="@ + v + "\n"@);
    } else {
        let (values, flags) = crate::values::spec_enum_values(f.0);
        let comment = crate::rawlist::enum_header(data, f, values, flags);
        assert(crate::rawlist::field_block(kind, shop, bytes, f, float_text) =~= comment + f.0 + "="@ + v + "\n"@);
    }
}

/// The listed value of a property that is not a float, assigned to a save of
/// the same layout, stores the bytes it was listed from: the raw listing of a
/// save, read back as a parameter file into a save of that layout, rebuilds
/// each listed property, and assigned to the listed save itself leaves it
/// unchanged.  This holds of a property that is the first of its name, whose
/// name holds no `=` and is no older alias, whose set bits (for the mask of
/// shop entries, named by the release's shop list) have names that read back
/// uniquely, and, for a signed property with named values, whose value is not
/// negative.
#[verifier::spinoff_prover]
#[verifier::rlimit(40)]
pub proof fn law_listing_assigns_back(
    bytes: Seq<u8>,
    target: Seq<u8>,
    kind: crate::format::SaveKind,
    fields: Seq<crate::schema::PropView>,
    shop: Seq<Seq<char>>,
    k: int,
)
    requires
        target.len() == bytes.len(),
        0 <= k < fields.len(),
        crate::rawlist::listable(fields[k], bytes.len() as int),
        crate::assign::find_field(fields, fields[k].0) == Some(k),
        crate::assign::alias(fields[k].0) == fields[k].0,
        !has_char(fields[k].0, '='),
        fields[k].3 !is Float,
        fields[k].3 is Bitmask && fields[k].0 == "shop_character_purchased_bits"@ ==> mask_listable(
            crate::values::spec_bit_names(kind, fields[k].0, fields[k].2, shop),
            bytes.subrange(fields[k].1, fields[k].1 + fields[k].2),
        ),
        fields[k].3 is Signed && crate::values::spec_enum_values(fields[k].0).0.len() > 0 ==> crate::rawlist::sign_extend(
            le_value(bytes.subrange(fields[k].1, fields[k].1 + fields[k].2)) as int,
            fields[k].2,
        ) >= 0,
    ensures
        crate::assign::spec_assign(target, kind, fields, shop, fields[k].0 + "="@ + listed_value(kind, shop, bytes, fields[k], seq![]), None)
            == Ok::<Seq<u8>, crate::assign::ErrorView>(
                target.take(fields[k].1) + bytes.subrange(fields[k].1, fields[k].1 + fields[k].2) + target.skip(fields[k].1 + fields[k].2),
            ),
        crate::assign::spec_assign(bytes, kind, fields, shop, fields[k].0 + "="@ + listed_value(kind, shop, bytes, fields[k], seq![]), None)
            == Ok::<Seq<u8>, crate::assign::ErrorView>(bytes),
{
    let f = fields[k];
    let data = bytes.subrange(f.1, f.1 + f.2);
    let v = listed_value(kind, shop, bytes, f, seq![]);
    lemma_split_assignment(f.0, v);
    lemma_resolve_listed(fields, bytes.len() as int, k);
    crate::tables::lemma_enum_values_listable(f.0);
    if f.3 is Bitmask && f.0 != "shop_character_purchased_bits"@ {
        assert forall|b: int| 0 <= b < 8 * data.len() && crate::rawlist::bit_set(data, b)
            implies #[trigger] bit_name_listable(crate::values::spec_bit_names(kind, f.0, f.2, shop), b) by {
            crate::tables::lemma_fixed_bit_names_listable(kind, f.0, f.2, shop, b);
        }
    }
    lemma_listed_field_value(kind, shop, bytes, f);
    lemma_assign_stores(target, kind, fields, shop, f.0 + "="@ + v, f.0, v, f, data);
    lemma_assign_stores(bytes, kind, fields, shop, f.0 + "="@ + v, f.0, v, f, data);
    assert(bytes.take(f.1) + data + bytes.skip(f.1 + f.2) =~= bytes);
}

/// The first property of a name resolves to itself.
pub proof fn lemma_resolve_listed(fields: Seq<crate::schema::PropView>, len: int, k: int)
    requires
        0 <= k < fields.len(),
        crate::assign::find_field(fields, fields[k].0) == Some(k),
    ensures
        crate::assign::resolve(fields, len, fields[k].0) == Some(fields[k]),
{
}

/// An assignment that splits, names a property and holds a valid value stores that value.
proof fn lemma_assign_stores(
    bytes: Seq<u8>,
    kind: crate::format::SaveKind,
    fields: Seq<crate::schema::PropView>,
    shop: Seq<Seq<char>>,
    a: Seq<char>,
    name: Seq<char>,
    value: Seq<char>,
    f: crate::schema::PropView,
    stored: Seq<u8>,
)
    requires
        crate::values::split_once(a, '=') == Some((name, value)),
        crate::assign::resolve(fields, bytes.len() as int, crate::assign::alias(name)) == Some(f),
        crate::assign::spec_field_value(kind, f, value, shop, None) == Some(stored),
    ensures
        crate::assign::spec_assign(bytes, kind, fields, shop, a, None)
            == Ok::<Seq<u8>, crate::assign::ErrorView>(bytes.take(f.1) + stored + bytes.skip(f.1 + f.2)),
{
    reveal(crate::assign::spec_assign);
}

/// The listed value of a property that is not a float stores the bytes it was listed from.
proof fn lemma_listed_field_value(kind: crate::format::SaveKind, shop: Seq<Seq<char>>, bytes: Seq<u8>, f: crate::schema::PropView)
    requires
        crate::rawlist::listable(f, bytes.len() as int),
        f.3 !is Float,
        f.3 is Bitmask ==> mask_listable(crate::values::spec_bit_names(kind, f.0, f.2, shop), bytes.subrange(f.1, f.1 + f.2)),
        f.3 !is Bitmask ==> values_listable(crate::values::spec_enum_values(f.0).0),
        f.3 is Signed && crate::values::spec_enum_values(f.0).0.len() > 0 ==> crate::rawlist::sign_extend(
            le_value(bytes.subrange(f.1, f.1 + f.2)) as int,
            f.2,
        ) >= 0,
    ensures
        crate::assign::spec_field_value(kind, f, listed_value(kind, shop, bytes, f, seq![]), shop, None)
            == Some(bytes.subrange(f.1, f.1 + f.2)),
{
    reveal(listed_value);
    let data = bytes.subrange(f.1, f.1 + f.2);
    assert(data.len() == f.2);
    match f.3 {
        Kind::Bitmask => {
            let names = crate::values::spec_bit_names(kind, f.0, f.2, shop);
            assert(f.2 * 8 == 8 * data.len());
            lemma_mask_round_trip(names, data);
        },
        Kind::Bytes => {
            lemma_hex_round_trip(data);
        },
        Kind::Unsigned => {
            let (values, flags) = crate::values::spec_enum_values(f.0);
            lemma_le_value_small(data);
            let u = le_value(data);
            assert(u < 0x1_0000_0000);
            assert(u as u32 as nat == u);
            lemma_enum_text_round_trip(values, flags, u as u32);
            lemma_int_round_trip(data, false);
        },
        Kind::Signed => {
            let (values, flags) = crate::values::spec_enum_values(f.0);
            lemma_int_round_trip(data, true);
            let u = le_value(data);
            if values.len() > 0 {
                lemma_le_value_small(data);
                assert(crate::rawlist::sign_extend(u as int, f.2) == u);
                lemma_decimal_int_text(values, flags, u);
            }
        },
        Kind::Float => {},
    }
}


/// Different numbers have different decimal renderings.
proof fn lemma_decimal_injective(a: nat, b: nat)
    requires
        decimal(a) == decimal(b),
    ensures
        a == b,
{
    lemma_decimal_digits(a);
    lemma_decimal_digits(b);
}

/// `BIT_n` spells bit `n` of a mask whose lower bits carry other names.
proof fn lemma_number_token(names: Seq<Seq<char>>, size: nat, n: int)
    requires
        names.len() == 8 * size,
        0 <= n < 8 * size,
        forall|c: int| 0 <= c < n ==> #[trigger] names[c] != "BIT_"@ + decimal(n as nat),
    ensures
        crate::values::spec_mask_value("BIT_"@ + decimal(n as nat), names, size) == Some(crate::values::single_bit(n, size)),
{
    reveal_strlit("BIT_");
    reveal_strlit("NONE");
    let token = "BIT_"@ + decimal(n as nat);
    lemma_decimal_digits(n as nat);
    assert(!has_char(token, '|')) by {
        if has_char(token, '|') {
            let i = choose|i: int| 0 <= i < token.len() && token[i] == '|';
            if i >= 4 {
                assert(decimal(n as nat)[i - 4] == token[i]);
            }
        }
    }
    assert(token != "NONE"@) by {
        assert(token[0] == 'B');
    }
    lemma_split_without(token, '|');
    assert forall|c: int| 0 <= c < n implies !#[trigger] crate::values::names_bit(names, token, c) by {
        if token == "BIT_"@ + decimal(c as nat) {
            assert(decimal(n as nat) =~= token.skip(4));
            assert(decimal(c as nat) =~= token.skip(4));
            lemma_decimal_injective(n as nat, c as nat);
        }
    }
    assert(crate::values::names_bit(names, token, n));
    let b = choose|b: int| 0 <= b < names.len() && crate::values::names_bit(names, token, b)
        && forall|c: int| 0 <= c < b ==> !#[trigger] crate::values::names_bit(names, token, c);
    if b < n {
        assert(!crate::values::names_bit(names, token, b));
    }
    if b > n {
        assert(!crate::values::names_bit(names, token, n));
    }
    assert(crate::values::token_bit(names, token) == Some(n));
    let tokens = seq![token];
    assert(tokens.drop_last() =~= Seq::<Seq<char>>::empty());
    let zero = crate::values::zeros(size);
    let one = crate::values::single_bit(n, size);
    assert(crate::values::or_bytes(zero, one) =~= one) by {
        assert forall|i: int| 0 <= i < size implies #[trigger] crate::values::or_bytes(zero, one)[i] == one[i] by {
            let x = one[i];
            assert(0u8 | x == x) by (bit_vector);
        }
    }
    assert(crate::values::mask_fold(Seq::<Seq<char>>::empty(), names, size) == Some(zero));
    assert(crate::values::token_mask(token, names, size) == Some(one));
    assert(crate::values::mask_fold(tokens, names, size) == Some(one));
    assert(crate::names::split_on(token, '|') == tokens);
}

/// Every bit of a wide mask stays addressable as `BIT_n`: the value `BIT_n`
/// sets exactly bit `n`, unless, in the mask of shop entries, a lower bit's
/// entry in the release's shop list carries that very name.
pub proof fn law_bits_addressable_by_number(kind: crate::format::SaveKind, shop: Seq<Seq<char>>, f: crate::schema::PropView, n: int)
    requires
        f.3 is Bitmask,
        crate::schema::well_kinded(f.2, f.3),
        0 <= n < 8 * f.2,
        f.0 == "shop_character_purchased_bits"@ ==> forall|c: int| 0 <= c < n
            ==> #[trigger] crate::values::spec_bit_names(kind, f.0, f.2, shop)[c] != "BIT_"@ + decimal(n as nat),
    ensures
        crate::assign::spec_field_value(kind, f, "BIT_"@ + decimal(n as nat), shop, None)
            == Some(crate::values::single_bit(n, f.2 as nat)),
{
    let names = crate::values::spec_bit_names(kind, f.0, f.2, shop);
    if f.0 != "shop_character_purchased_bits"@ {
        assert forall|c: int| 0 <= c < n implies #[trigger] names[c] != "BIT_"@ + decimal(n as nat) by {
            crate::tables::lemma_bit_name_shape(kind, f.0, f.2, shop, c);
            reveal_strlit("BIT_");
            if names[c] == "BIT_"@ + decimal(n as nat) {
                assert(names[c][0] == ("BIT_"@ + decimal(n as nat))[0]);
                crate::tables::lemma_bit_names_differ(n as nat, c as nat);
            }
        }
    }
    lemma_number_token(names, f.2 as nat, n);
}


/// The lines the raw listing gives a float whose bits are not plain: the
/// property set to zero, then one `byte[N]=v` line per byte.
pub open spec fn awkward_float_lines(f: crate::schema::PropView, data: Seq<u8>) -> Seq<Seq<char>> {
    seq![f.0 + "=0"@] + Seq::new(data.len(), |i: int| crate::locality::byte_name((f.1 + i) as nat) + "="@ + decimal(data[i] as nat))
}

/// Joining a first part to a nonempty rest puts the separator between them.
pub proof fn lemma_join_first(x: Seq<char>, rest: Seq<Seq<char>>, sep: Seq<char>)
    requires
        rest.len() > 0,
    ensures
        crate::rawlist::join(seq![x] + rest, sep) == x + sep + crate::rawlist::join(rest, sep),
    decreases rest.len(),
{
    let all = seq![x] + rest;
    if rest.len() == 1 {
        assert(all.drop_last() =~= seq![x]);
        assert(crate::rawlist::join(all, sep) == crate::rawlist::join(all.drop_last(), sep) + sep + all.last());
        assert(crate::rawlist::join(rest, sep) == rest[0]);
    } else {
        lemma_join_first(x, rest.drop_last(), sep);
        assert(all.drop_last() =~= seq![x] + rest.drop_last());
        assert(all.last() == rest.last());
        let j = crate::rawlist::join(rest.drop_last(), sep);
        assert(crate::rawlist::join(all, sep) == (x + sep + j) + sep + rest.last());
        assert(crate::rawlist::join(rest, sep) == j + sep + rest.last());
        assert((x + sep + j) + sep + rest.last() =~= x + sep + (j + sep + rest.last()));
    }
}

/// Applying one more assignment after a list of them.
proof fn lemma_apply_one_more(
    bytes: Seq<u8>,
    kind: crate::format::SaveKind,
    fields: Seq<crate::schema::PropView>,
    shop: Seq<Seq<char>>,
    ts: Seq<Seq<char>>,
    floats: Seq<Option<u32>>,
    n: int,
)
    requires
        0 <= n < ts.len(),
        n < floats.len(),
    ensures
        crate::spec_apply_all(bytes, kind, fields, shop, ts.take(n + 1), floats) == match crate::spec_apply_all(bytes, kind, fields, shop, ts.take(n), floats) {
            Err(e) => Err(e),
            Ok(b) => crate::assign::spec_assign(b, kind, fields, shop, ts[n], floats[n]),
        },
{
    assert(ts.take(n + 1).drop_last() =~= ts.take(n));
}

/// A float property whose bits are not a finite zero or normal number is
/// listed as the property set to zero followed by one `byte[N]=v` line per
/// byte; read back in that order, the zero taken as any finite float, those lines
/// store exactly the listed bytes, in a save of the same layout and in the
/// listed save itself.  This holds of a property that is the first of its
/// name, whose name holds no `=` and is no older alias, and whose bytes are
/// not listed under their `byte[N]` names by another property.
#[verifier::spinoff_prover]
#[verifier::rlimit(40)]
pub proof fn law_awkward_float_listing_assigns_back(
    bytes: Seq<u8>,
    target: Seq<u8>,
    kind: crate::format::SaveKind,
    fields: Seq<crate::schema::PropView>,
    shop: Seq<Seq<char>>,
    k: int,
    float_text: Seq<char>,
    zero: u32,
)
    requires
        crate::assign::finite_bits(zero),
        target.len() == bytes.len(),
        bytes.len() <= usize::MAX,
        0 <= k < fields.len(),
        crate::rawlist::listable(fields[k], bytes.len() as int),
        fields[k].3 is Float,
        !crate::rawlist::float_plain(le_value(bytes.subrange(fields[k].1, fields[k].1 + 4)) as int),
        crate::assign::find_field(fields, fields[k].0) == Some(k),
        crate::assign::alias(fields[k].0) == fields[k].0,
        !has_char(fields[k].0, '='),
        forall|i: int| 0 <= i < 4 ==> (#[trigger] crate::assign::find_field(fields, crate::locality::byte_name((fields[k].1 + i) as nat)) matches Some(j)
            ==> fields[j] == (crate::locality::byte_name((fields[k].1 + i) as nat), fields[k].1 + i, 1int, Kind::Unsigned)),
    ensures
        ({
            let f = fields[k];
            let data = bytes.subrange(f.1, f.1 + 4);
            let (values, flags) = crate::values::spec_enum_values(f.0);
            let lines = awkward_float_lines(f, data);
            let floats = seq![Some(zero)] + Seq::new(4, |i: int| None::<u32>);
            &&& crate::rawlist::field_block(kind, shop, bytes, f, float_text)
                == crate::rawlist::enum_header(data, f, values, flags) + crate::rawlist::join(lines, "\n"@) + "\n"@
            &&& crate::spec_apply_all(target, kind, fields, shop, lines, floats)
                == Ok::<Seq<u8>, crate::assign::ErrorView>(target.take(f.1) + data + target.skip(f.1 + 4))
            &&& crate::spec_apply_all(bytes, kind, fields, shop, lines, floats) == Ok::<Seq<u8>, crate::assign::ErrorView>(bytes)
        }),
{
    let f = fields[k];
    let data = bytes.subrange(f.1, f.1 + 4);
    let lines = awkward_float_lines(f, data);
    let floats = seq![Some(zero)] + Seq::new(4, |i: int| None::<u32>);
    let bl = Seq::new(4, |i: int| crate::locality::byte_name((f.1 + i) as nat) + "="@ + decimal(data[i] as nat));
    assert(lines =~= seq![f.0 + "=0"@] + bl);
    reveal_strlit("=0");
    reveal_strlit("=");
    reveal_strlit("0");
    reveal_strlit("0\n");
    reveal_strlit("\n");
    reveal_strlit("byte[");
    reveal_strlit("]=");
    reveal_strlit("]");
    assert forall|i: int| 0 <= i < 4 implies #[trigger] bl[i] == "byte["@ + decimal((f.1 + i) as nat) + "]="@ + decimal(data[i] as nat) by {
        assert(bl[i] =~= "byte["@ + decimal((f.1 + i) as nat) + "]="@ + decimal(data[i] as nat));
    }
    assert(bl =~= Seq::new(data.len(), |i: int| "byte["@ + decimal((f.1 + i) as nat) + "]="@ + decimal(data[i] as nat)));
    lemma_join_first(f.0 + "=0"@, bl, "\n"@);
    assert(f.0 + "=0"@ + "\n"@ + crate::rawlist::join(bl, "\n"@) =~= f.0 + "="@ + ("0\n"@ + crate::rawlist::byte_lines(f.1, data)));
    lemma_apply_awkward(target, kind, fields, shop, k, data, zero);
    lemma_apply_awkward(bytes, kind, fields, shop, k, data, zero);
    assert(bytes.take(f.1) + data + bytes.skip(f.1 + 4) =~= bytes);
}

/// The zero line of a float stores the float's bits.
proof fn lemma_float_zero_line(
    t: Seq<u8>,
    kind: crate::format::SaveKind,
    fields: Seq<crate::schema::PropView>,
    shop: Seq<Seq<char>>,
    k: int,
    zero: u32,
)
    requires
        crate::assign::finite_bits(zero),
        0 <= k < fields.len(),
        crate::rawlist::listable(fields[k], t.len() as int),
        fields[k].3 is Float,
        crate::assign::find_field(fields, fields[k].0) == Some(k),
        crate::assign::alias(fields[k].0) == fields[k].0,
        !has_char(fields[k].0, '='),
    ensures
        crate::assign::spec_assign(t, kind, fields, shop, fields[k].0 + "=0"@, Some(zero))
            == Ok::<Seq<u8>, crate::assign::ErrorView>(t.take(fields[k].1) + crate::format::u32_le_bytes(zero as int) + t.skip(fields[k].1 + 4)),
{
    let f = fields[k];
    reveal_strlit("=0");
    reveal_strlit("=");
    reveal_strlit("0");
    assert(f.0 + "=0"@ =~= f.0 + "="@ + "0"@);
    lemma_split_assignment(f.0, "0"@);
    lemma_resolve_listed(fields, t.len() as int, k);
    reveal(crate::assign::spec_assign);
}

/// The lines of an awkward float, applied in order, store its bytes.
#[verifier::spinoff_prover]
#[verifier::rlimit(40)]
pub proof fn lemma_apply_awkward(
    t: Seq<u8>,
    kind: crate::format::SaveKind,
    fields: Seq<crate::schema::PropView>,
    shop: Seq<Seq<char>>,
    k: int,
    data: Seq<u8>,
    zero: u32,
)
    requires
        crate::assign::finite_bits(zero),
        t.len() <= usize::MAX,
        0 <= k < fields.len(),
        crate::rawlist::listable(fields[k], t.len() as int),
        fields[k].3 is Float,
        data.len() == 4,
        crate::assign::find_field(fields, fields[k].0) == Some(k),
        crate::assign::alias(fields[k].0) == fields[k].0,
        !has_char(fields[k].0, '='),
        forall|i: int| 0 <= i < 4 ==> (#[trigger] crate::assign::find_field(fields, crate::locality::byte_name((fields[k].1 + i) as nat)) matches Some(j)
            ==> fields[j] == (crate::locality::byte_name((fields[k].1 + i) as nat), fields[k].1 + i, 1int, Kind::Unsigned)),
    ensures
        crate::spec_apply_all(t, kind, fields, shop, awkward_float_lines(fields[k], data), seq![Some(zero)] + Seq::new(4, |i: int| None::<u32>))
            == Ok::<Seq<u8>, crate::assign::ErrorView>(t.take(fields[k].1) + data + t.skip(fields[k].1 + 4)),
{
    let f = fields[k];
    let o = f.1;
    let lines = awkward_float_lines(f, data);
    let floats = seq![Some(zero)] + Seq::new(4, |i: int| None::<u32>);
    let b0 = t.take(o) + crate::format::u32_le_bytes(zero as int) + t.skip(o + 4);
    lemma_float_zero_line(t, kind, fields, shop, k, zero);
    assert(lines[0] == f.0 + "=0"@);
    assert(floats[0] == Some(zero));
    assert(lines.take(0) =~= Seq::<Seq<char>>::empty());
    lemma_apply_one_more(t, kind, fields, shop, lines, floats, 0);
    assert(partly_stored(t, o, data, zero, 0) =~= b0);
    lemma_apply_awkward_bytes(t, kind, fields, shop, k, data, zero, 4);
    assert(lines.take(5) =~= lines);
    assert(partly_stored(t, o, data, zero, 4) =~= t.take(o) + data + t.skip(o + 4));
}

/// `t` with the four bytes at `o` holding the first `i` bytes of `data` and
/// then the rest of the little-endian `zero`.
spec fn partly_stored(t: Seq<u8>, o: int, data: Seq<u8>, zero: u32, i: int) -> Seq<u8> {
    t.take(o) + data.take(i) + crate::format::u32_le_bytes(zero as int).skip(i) + t.skip(o + 4)
}

/// The first `i` byte lines of an awkward float, after its zero line, store
/// its first `i` bytes.
proof fn lemma_apply_awkward_bytes(
    t: Seq<u8>,
    kind: crate::format::SaveKind,
    fields: Seq<crate::schema::PropView>,
    shop: Seq<Seq<char>>,
    k: int,
    data: Seq<u8>,
    zero: u32,
    i: int,
)
    requires
        crate::assign::finite_bits(zero),
        0 <= i <= 4,
        t.len() <= usize::MAX,
        0 <= k < fields.len(),
        crate::rawlist::listable(fields[k], t.len() as int),
        fields[k].3 is Float,
        data.len() == 4,
        crate::assign::find_field(fields, fields[k].0) == Some(k),
        forall|i: int| 0 <= i < 4 ==> (#[trigger] crate::assign::find_field(fields, crate::locality::byte_name((fields[k].1 + i) as nat)) matches Some(j)
            ==> fields[j] == (crate::locality::byte_name((fields[k].1 + i) as nat), fields[k].1 + i, 1int, Kind::Unsigned)),
        crate::spec_apply_all(t, kind, fields, shop, awkward_float_lines(fields[k], data).take(1), seq![Some(zero)] + Seq::new(4, |i: int| None::<u32>))
            == Ok::<Seq<u8>, crate::assign::ErrorView>(partly_stored(t, fields[k].1, data, zero, 0)),
    ensures
        crate::spec_apply_all(t, kind, fields, shop, awkward_float_lines(fields[k], data).take(i + 1), seq![Some(zero)] + Seq::new(4, |i: int| None::<u32>))
            == Ok::<Seq<u8>, crate::assign::ErrorView>(partly_stored(t, fields[k].1, data, zero, i)),
    decreases i,
{
    if i > 0 {
        lemma_apply_awkward_bytes(t, kind, fields, shop, k, data, zero, i - 1);
        let f = fields[k];
        let o = f.1;
        let lines = awkward_float_lines(f, data);
        let floats = seq![Some(zero)] + Seq::new(4, |i: int| None::<u32>);
        let prev = partly_stored(t, o, data, zero, i - 1);
        let n = (o + i - 1) as nat;
        assert(crate::assign::find_field(fields, crate::locality::byte_name((f.1 + (i - 1)) as nat)) matches Some(j)
            ==> fields[j] == (crate::locality::byte_name((f.1 + (i - 1)) as nat), f.1 + (i - 1), 1int, Kind::Unsigned));
        crate::locality::law_every_byte_is_addressable(prev, kind, fields, shop, n, data[i - 1]);
        assert(lines[i] == crate::locality::byte_name(n) + "="@ + decimal(data[i - 1] as nat));
        assert(floats[i] == None::<u32>);
        lemma_apply_one_more(t, kind, fields, shop, lines, floats, i);
        assert(prev.update(n as int, data[i - 1]) =~= partly_stored(t, o, data, zero, i));
    }
}


/// The `size` low bytes, little-endian, of `v` in 64-bit two's complement.
pub open spec fn twos_complement(v: int, size: int) -> Seq<u8> {
    word_bytes(if v < 0 { 0x1_0000_0000_0000_0000 + v } else { v }, size as nat)
}

/// An integer property without named values accepts a decimal value exactly
/// when it fits the property's width (`0..2^w` unsigned, `-2^(w-1)..2^(w-1)`
/// signed), and then stores it in two's complement, little-endian.  `-0` is
/// left out: a signed property stores it as zero, an unsigned one refuses it.
pub proof fn law_integer_values_fit_their_width(
    kind: crate::format::SaveKind,
    f: crate::schema::PropView,
    shop: Seq<Seq<char>>,
    n: nat,
    negative: bool,
)
    requires
        f.3 is Unsigned || f.3 is Signed,
        crate::schema::well_kinded(f.2, f.3),
        crate::values::spec_enum_values(f.0).0.len() == 0,
        n <= u64::MAX,
        !(negative && n == 0),
    ensures
        ({
            let v = if negative { -(n as int) } else { n as int };
            let text = if negative { seq!['-'] + decimal(n) } else { decimal(n) };
            let signed = f.3 is Signed;
            let lo = if signed { -int_limit(f.2, true) } else { 0 };
            let hi = int_limit(f.2, signed);
            crate::assign::spec_field_value(kind, f, text, shop, None)
                == if lo <= v < hi { Some(twos_complement(v, f.2)) } else { None::<Seq<u8>> }
        }),
{
    lemma_decimal_digits(n);
    lemma_parse_decimal(n);
    let d = decimal(n);
    assert(d[0] != '-');
    if negative {
        assert((seq!['-'] + d).skip(1) =~= d);
    }
}


/// A name of a listable table, assigned to a one-byte unsigned field, stores
/// the value the table gives it.
proof fn lemma_named_byte_value(values: Seq<(Seq<char>, u32)>, flags: bool, k: int)
    requires
        values_listable(values),
        0 <= k < values.len(),
        values[k].1 < 256,
    ensures
        crate::assign::spec_int_value(values, flags, values[k].0, 1, false) == Some(seq![values[k].1 as u8]),
{
    let t = values[k].0;
    let v = values[k].1;
    assert(!has_char(t, '|'));
    lemma_split_without(t, '|');
    let tokens = seq![t];
    assert(tokens.drop_last() =~= Seq::<Seq<char>>::empty());
    assert(crate::assign::enum_fold(Seq::<Seq<char>>::empty(), values) == Some((0u64, false)));
    lemma_lookup_entry(values, k);
    assert((0u64 | (v as u64)) == v as u64) by (bit_vector);
    assert(crate::assign::enum_fold(tokens, values) == Some((v as u64, true)));
    assert(crate::assign::spec_int_text(values, flags, t) == Some(decimal(v as nat)));
    let d = seq![v as u8];
    lemma_int_round_trip(d, false);
    lemma_le_value_small(d);
}

/// The property name `level_save[i].arcade_flags` selects the arcade table.
proof fn lemma_arcade_table(i: nat)
    ensures
        crate::values::spec_enum_values(crate::schema::level_prefix(i as int) + "arcade_flags"@)
            == (crate::values::spec_arcade_values(), true),
{
    reveal(crate::values::spec_enum_values);
    reveal_strlit("level_save[");
    reveal_strlit("].");
    reveal_strlit("arcade_flags");
    reveal_strlit(".arcade_flags");
    reveal_strlit("extra_unlocked_bits[");
    reveal_strlit("extra_purchased_bits[");
    reveal_strlit("shop_hint_purchased_bits[");
    reveal_strlit("shop_character_purchased_bits[");
    reveal_strlit("hint_completion_bits[");
    reveal_strlit("shop_gold_brick_purchased_bits");
    reveal_strlit("hub_build_flags");
    reveal_strlit("reward_flags");
    reveal_strlit("character_save[");
    let d = decimal(i);
    let name = "level_save["@ + d + "]."@ + "arcade_flags"@;
    assert(crate::schema::level_prefix(i as int) + "arcade_flags"@ == name);
    assert(name[0] == 'l');
    assert forall|p: Seq<char>| p.len() > 0 && p[0] != 'l' implies !crate::text::starts_with(name, p) by {
        if crate::text::starts_with(name, p) {
            assert(name.subrange(0, p.len() as int)[0] == name[0]);
        }
    }
    assert forall|p: Seq<char>| p.len() > 0 && p[0] != 'l' implies name != p by {
        if name == p {
            assert(name[0] == p[0]);
        }
    }
    let j: int = 11int + d.len() + 1int;
    assert(name.subrange(j, j + 13) =~= ".arcade_flags"@);
    assert(crate::text::contains_seq(name, ".arcade_flags"@));
}

/// The named arcade flags of a level have the values `NONE` = 0, `BATTLE` = 1,
/// `COLLECT` = 2 and `HUNT` = 4: assigning one of these names to the one-byte
/// property `level_save[i].arcade_flags` stores that value, and a stored
/// value of 0, 1, 2 or 4 is listed by that name.
pub proof fn law_arcade_flag_values(kind: crate::format::SaveKind, i: nat, offset: int, shop: Seq<Seq<char>>)
    ensures
        ({
            let name = crate::schema::level_prefix(i as int) + "arcade_flags"@;
            let f: crate::schema::PropView = (name, offset, 1, Kind::Unsigned);
            let table = crate::values::spec_enum_values(name);
            &&& crate::assign::spec_field_value(kind, f, "NONE"@, shop, None) == Some(seq![0u8])
            &&& crate::assign::spec_field_value(kind, f, "BATTLE"@, shop, None) == Some(seq![1u8])
            &&& crate::assign::spec_field_value(kind, f, "COLLECT"@, shop, None) == Some(seq![2u8])
            &&& crate::assign::spec_field_value(kind, f, "HUNT"@, shop, None) == Some(seq![4u8])
            &&& crate::rawlist::spec_enum_text(table.0, table.1, 0) == "NONE"@
            &&& crate::rawlist::spec_enum_text(table.0, table.1, 1) == "BATTLE"@
            &&& crate::rawlist::spec_enum_text(table.0, table.1, 2) == "COLLECT"@
            &&& crate::rawlist::spec_enum_text(table.0, table.1, 4) == "HUNT"@
        }),
{
    reveal_with_fuel(crate::rawlist::value_name_from, 5);
    let name = crate::schema::level_prefix(i as int) + "arcade_flags"@;
    lemma_arcade_table(i);
    crate::tables::lemma_enum_values_listable(name);
    let values = crate::values::spec_arcade_values();
    reveal_strlit("NONE");
    reveal_strlit("BATTLE");
    reveal_strlit("COLLECT");
    reveal_strlit("HUNT");
    lemma_named_byte_value(values, true, 0);
    lemma_named_byte_value(values, true, 1);
    lemma_named_byte_value(values, true, 2);
    lemma_named_byte_value(values, true, 3);
}


/// The property name `reward_flags` selects the completion-reward table.
proof fn lemma_reward_table()
    ensures
        crate::values::spec_enum_values("reward_flags"@) == (crate::values::spec_reward_values(), true),
{
    reveal(crate::values::spec_enum_values);
    reveal_strlit("reward_flags");
    reveal_strlit("extra_unlocked_bits[");
    reveal_strlit("extra_purchased_bits[");
    reveal_strlit("shop_hint_purchased_bits[");
    reveal_strlit("shop_character_purchased_bits[");
    reveal_strlit("hint_completion_bits[");
    reveal_strlit("shop_gold_brick_purchased_bits");
    reveal_strlit("hub_build_flags");
    let name = "reward_flags"@;
    assert(name[0] == 'r');
    assert forall|p: Seq<char>| p.len() > 0 && p[0] != 'r' implies !crate::text::starts_with(name, p) by {
        if crate::text::starts_with(name, p) {
            assert(name.subrange(0, p.len() as int)[0] == name[0]);
        }
    }
    assert forall|p: Seq<char>| p.len() > 0 && p[0] != 'r' implies name != p by {
        if name == p {
            assert(name[0] == p[0]);
        }
    }
}

/// `100_PERCENT|ALL_GOLD_BRICKS` stores 3 in a one-byte field with the reward table.
#[verifier::spinoff_prover]
#[verifier::rlimit(40)]
proof fn lemma_reward_combination()
    ensures
        crate::assign::spec_int_value(crate::values::spec_reward_values(), true, "100_PERCENT|ALL_GOLD_BRICKS"@, 1, false)
            == Some(seq![3u8]),
{
    let values = crate::values::spec_reward_values();
    reveal_strlit("100_PERCENT");
    reveal_strlit("ALL_GOLD_BRICKS");
    reveal_strlit("100_PERCENT|ALL_GOLD_BRICKS");
    reveal_strlit("NONE");
    crate::tables::lemma_enum_values_listable("reward_flags"@);
    lemma_reward_table();
    let a = values[1].0;
    let b = values[2].0;
    let parts = seq![a, b];
    assert(parts.drop_last() =~= seq![a]);
    assert(crate::rawlist::join(seq![a], seq!['|']) == a);
    assert(crate::rawlist::join(parts, seq!['|']) =~= "100_PERCENT|ALL_GOLD_BRICKS"@);
    assert(!has_char(a, '|') && !has_char(b, '|'));
    lemma_split_join(parts, '|');
    let tokens = crate::names::split_on("100_PERCENT|ALL_GOLD_BRICKS"@, '|');
    assert(tokens == parts);
    assert(seq![a].drop_last() =~= Seq::<Seq<char>>::empty());
    assert(crate::assign::enum_fold(Seq::<Seq<char>>::empty(), values) == Some((0u64, false)));
    lemma_lookup_entry(values, 1);
    lemma_lookup_entry(values, 2);
    assert((0u64 | 1u64) == 1u64) by (bit_vector);
    assert((1u64 | 2u64) == 3u64) by (bit_vector);
    assert(crate::assign::enum_fold(seq![a], values) == Some((1u64, true)));
    assert(crate::assign::enum_fold(parts, values) == Some((3u64, true)));
    let d = seq![3u8];
    lemma_int_round_trip(d, false);
    lemma_le_value_small(d);
}

/// The completion rewards are `NONE` = 0, `100_PERCENT` = 1 and
/// `ALL_GOLD_BRICKS` = 2, and they combine with `|`: assigning
/// `100_PERCENT|ALL_GOLD_BRICKS` to the one-byte `reward_flags` stores 3.
pub proof fn law_reward_flag_values(kind: crate::format::SaveKind, offset: int, shop: Seq<Seq<char>>)
    ensures
        ({
            let f: crate::schema::PropView = ("reward_flags"@, offset, 1, Kind::Unsigned);
            &&& crate::assign::spec_field_value(kind, f, "NONE"@, shop, None) == Some(seq![0u8])
            &&& crate::assign::spec_field_value(kind, f, "100_PERCENT"@, shop, None) == Some(seq![1u8])
            &&& crate::assign::spec_field_value(kind, f, "ALL_GOLD_BRICKS"@, shop, None) == Some(seq![2u8])
            &&& crate::assign::spec_field_value(kind, f, "100_PERCENT|ALL_GOLD_BRICKS"@, shop, None) == Some(seq![3u8])
        }),
{
    lemma_reward_table();
    crate::tables::lemma_enum_values_listable("reward_flags"@);
    let values = crate::values::spec_reward_values();
    reveal_strlit("NONE");
    reveal_strlit("100_PERCENT");
    reveal_strlit("ALL_GOLD_BRICKS");
    lemma_named_byte_value(values, true, 0);
    lemma_named_byte_value(values, true, 1);
    lemma_named_byte_value(values, true, 2);
    lemma_reward_combination();
}

} // verus!
