//! The interpreted summary: the values of a save as labelled rows in
//! sections, rendered for a terminal.
use vstd::prelude::*;
use crate::text::{decimal, digit_char, hex_char, digit, hex_digit, push_char, push_decimal, push_signed_decimal,
    chars_of, contains_seq, decimal_string, signed_decimal};
use crate::names::{split_on, split_chars, char_views, string_views};
use crate::values::{spec_enum_values, enum_values, EnumValues};
use crate::rawlist::{join, value_name_from, flag_split};
use crate::text::{str_equal, contains_str};

verus! {

/// The foreground colours the summary uses.
#[derive(Clone, Copy, Debug, PartialEq, Eq, Structural)]
pub enum Hue {
    Cyan,
    BrightBlue,
    Green,
    Red,
    BrightBlack,
}

/// A terminal text style: an optional foreground colour and boldness.
#[derive(Clone, Copy, Debug, PartialEq, Eq, Structural)]
pub struct Look {
    pub hue: Option<Hue>,
    pub bold: bool,
}

/// The two digits of a foreground colour's escape code.
pub open spec fn hue_code(h: Hue) -> Seq<char> {
    match h {
        Hue::Cyan => "36"@,
        Hue::BrightBlue => "94"@,
        Hue::Green => "32"@,
        Hue::Red => "31"@,
        Hue::BrightBlack => "90"@,
    }
}

/// The escape sequence that starts a style: bold first, then the colour.
pub open spec fn look_open(l: Look) -> Seq<char> {
    (if l.bold { seq!['\x1b'] + "[1m"@ } else { seq![] }) + match l.hue {
        Some(h) => seq!['\x1b'] + "["@ + hue_code(h) + "m"@,
        None => seq![],
    }
}

/// The escape sequence that ends a style: a reset, or nothing for a plain style.
pub open spec fn look_close(l: Look) -> Seq<char> {
    if l.hue is None && !l.bold { seq![] } else { seq!['\x1b'] + "[0m"@ }
}

/// Renders a style with `anstyle`: `anstyle::Style` built with `fg_color`
/// and `effects`, written through its `Display` impl, plainly and with the
/// alternate flag.  Its contract states the escape sequences that anstyle's
/// source writes: the effect codes (here only bold, `ESC[1m`), then the
/// foreground colour code `ESC[3Xm` or `ESC[9Xm`; and, in alternate form,
/// the reset `ESC[0m` unless the style equals `Style::new()`.
#[verifier::external_body]
fn render_look(look: Look) -> (res: (String, String))
    ensures
        res.0@ == look_open(look),
        res.1@ == look_close(look),
{
    let color = match look.hue {
        None => None,
        Some(Hue::Cyan) => Some(anstyle::Color::Ansi(anstyle::AnsiColor::Cyan)),
        Some(Hue::BrightBlue) => Some(anstyle::Color::Ansi(anstyle::AnsiColor::BrightBlue)),
        Some(Hue::Green) => Some(anstyle::Color::Ansi(anstyle::AnsiColor::Green)),
        Some(Hue::Red) => Some(anstyle::Color::Ansi(anstyle::AnsiColor::Red)),
        Some(Hue::BrightBlack) => Some(anstyle::Color::Ansi(anstyle::AnsiColor::BrightBlack)),
    };
    let effects = anstyle::Effects::new().set(anstyle::Effects::BOLD, look.bold);
    let style = anstyle::Style::new().fg_color(color).effects(effects);
    (format!("{style}"), format!("{style:#}"))
}

/// `text` wrapped in the escape sequences of `look` when `color` is on.
pub open spec fn spec_paint(text: Seq<char>, look: Look, color: bool) -> Seq<char> {
    if color { look_open(look) + text + look_close(look) } else { text }
}

/// Appends `text`, styled when `color` is on.
fn push_painted(out: &mut String, text: &str, look: Look, color: bool)
    ensures
        final(out)@ == old(out)@ + spec_paint(text@, look, color),
{
    if color {
        let (open, close) = render_look(look);
        out.append(open.as_str());
        out.append(text);
        out.append(close.as_str());
    } else {
        out.append(text);
    }
}

/// Digits with a comma before every group of three counted from the right,
/// built over the first `k` digits.
pub open spec fn grouped_prefix(d: Seq<char>, k: int) -> Seq<char>
    decreases k,
{
    if k <= 0 {
        seq![]
    } else {
        grouped_prefix(d, k - 1) + (if k - 1 > 0 && (d.len() - (k - 1)) % 3 == 0 { seq![','] } else { seq![] })
            + seq![d[k - 1]]
    }
}

/// A number with thousands separated by commas, and a leading `-` when negative.
pub open spec fn number_text(v: int) -> Seq<char> {
    if v < 0 {
        seq!['-'] + grouped_prefix(decimal((-v) as nat), decimal((-v) as nat).len() as int)
    } else {
        grouped_prefix(decimal(v as nat), decimal(v as nat).len() as int)
    }
}

/// A text with its commas removed.
pub open spec fn without_commas(s: Seq<char>) -> Seq<char> {
    s.filter(|c: char| c != ',')
}

proof fn lemma_grouped_prefix_digits(d: Seq<char>, k: int)
    requires
        0 <= k <= d.len(),
        forall|i: int| 0 <= i < d.len() ==> #[trigger] d[i] != ',',
    ensures
        without_commas(grouped_prefix(d, k)) == d.take(k),
    decreases k,
{
    broadcast use vstd::seq_lib::group_filter_ensures;
    if k > 0 {
        lemma_grouped_prefix_digits(d, k - 1);
        let sep: Seq<char> = if k - 1 > 0 && (d.len() - (k - 1)) % 3 == 0 { seq![','] } else { seq![] };
        let pred = |c: char| c != ',';
        Seq::filter_distributes_over_add(grouped_prefix(d, k - 1), sep, pred);
        Seq::filter_distributes_over_add(grouped_prefix(d, k - 1) + sep, seq![d[k - 1]], pred);
        assert(sep.filter(pred) =~= Seq::<char>::empty()) by {
            if sep.len() > 0 {
                reveal_with_fuel(vstd::seq::Seq::filter, 2);
                assert(sep.drop_last() =~= Seq::<char>::empty());
            }
        }
        assert(seq![d[k - 1]].filter(pred) =~= seq![d[k - 1]]) by {
            reveal_with_fuel(vstd::seq::Seq::filter, 2);
            assert(seq![d[k - 1]].drop_last() =~= Seq::<char>::empty());
        }
        assert(d.take(k - 1) + seq![d[k - 1]] =~= d.take(k));
    }
}

/// A number written with thousands commas reads, without its commas, as its
/// plain decimal text.
pub proof fn law_number_commas_only_group(v: int)
    ensures
        without_commas(number_text(v)) == crate::text::signed_decimal(v),
{
    let m: nat = if v < 0 { (-v) as nat } else { v as nat };
    let d = decimal(m);
    crate::roundtrip::lemma_decimal_digits(m);
    assert forall|i: int| 0 <= i < d.len() implies #[trigger] d[i] != ',' by {
        assert(crate::parse::digit_value(d[i]) < 10);
    }
    lemma_grouped_prefix_digits(d, d.len() as int);
    assert(d.take(d.len() as int) =~= d);
    if v < 0 {
        let pred = |c: char| c != ',';
        Seq::filter_distributes_over_add(seq!['-'], grouped_prefix(d, d.len() as int), pred);
        assert(seq!['-'].filter(pred) =~= seq!['-']) by {
            reveal_with_fuel(vstd::seq::Seq::filter, 2);
            assert(seq!['-'].drop_last() =~= Seq::<char>::empty());
        }
    }
}

/// A number with thousands separated by commas.
pub fn number(v: i64) -> (res: String)
    ensures
        res@ == number_text(v as int),
{
    let mut out = String::new();
    let magnitude: u64 = if v == i64::MIN { 0x8000_0000_0000_0000u64 } else if v < 0 { (-v) as u64 } else { v as u64 };
    if v < 0 {
        push_char(&mut out, '-');
    }
    let ghost start = out@;
    let text = decimal_string(magnitude);
    let digits = chars_of(text.as_str());
    let n = digits.len();
    let mut k: usize = 0;
    while k < n
        invariant
            n == digits@.len(),
            digits@ == decimal(magnitude as nat),
            k <= n,
            out@ == start + grouped_prefix(digits@, k as int),
        decreases n - k,
    {
        if k > 0 && (n - k) % 3 == 0 {
            push_char(&mut out, ',');
        }
        push_char(&mut out, digits[k]);
        assert(out@ =~= start + grouped_prefix(digits@, k + 1));
        k = k + 1;
    }
    assert(out@ =~= number_text(v as int));
    out
}

/// Lower-case hexadecimal rendering of a natural number, without leading zeros.
pub open spec fn hex_number(n: nat) -> Seq<char>
    decreases n,
{
    if n < 16 {
        seq![hex_char(n as int)]
    } else {
        hex_number(n / 16).push(hex_char((n % 16) as int))
    }
}

/// Appends the hexadecimal rendering of `n`.
pub fn push_hex_number(s: &mut String, n: u32)
    ensures
        final(s)@ == old(s)@ + hex_number(n as nat),
    decreases n,
{
    if n >= 16 {
        push_hex_number(s, n / 16);
    }
    push_char(s, hex_digit((n % 16) as u8));
    assert(final(s)@ =~= old(s)@ + hex_number(n as nat)) by {
        reveal_with_fuel(hex_number, 2);
    }
}

/// The character itself, or its lower-case form when it is an ASCII capital.
pub open spec fn ascii_lower(c: char) -> char {
    if 'A' <= c <= 'Z' { ((c as u32) + 32) as char } else { c }
}

/// Text with its ASCII capitals in lower case.
pub open spec fn lower_text(s: Seq<char>) -> Seq<char> {
    s.map_values(|c: char| ascii_lower(c))
}

fn lower_char(c: char) -> (res: char)
    ensures
        res == ascii_lower(c),
{
    if 'A' <= c && c <= 'Z' {
        let code: u8 = (c as u32 + 32) as u8;
        code as char
    } else {
        c
    }
}

/// Appends `s` with its ASCII capitals in lower case.
fn push_lower(out: &mut String, s: &[char])
    ensures
        final(out)@ == old(out)@ + lower_text(s@),
{
    let ghost start = out@;
    let mut i: usize = 0;
    while i < s.len()
        invariant
            i <= s@.len(),
            out@ == start + lower_text(s@.take(i as int)),
        decreases s@.len() - i,
    {
        push_char(out, lower_char(s[i]));
        assert(out@ =~= start + lower_text(s@.take(i + 1)));
        i = i + 1;
    }
    assert(s@.take(i as int) =~= s@);
}


/// The upper-case mapping of a character, which may be several characters.
pub uninterp spec fn char_uppercase(c: char) -> Seq<char>;

/// The upper-case mapping of a character: ASCII letters `a` to `z` become
/// `A` to `Z`, other ASCII characters stay as they are, and the mapping of
/// any other character is the named `char_uppercase`.
pub open spec fn upper_char(c: char) -> Seq<char> {
    if 'a' <= c <= 'z' {
        seq![((c as int) - 32) as char]
    } else if (c as int) < 128 {
        seq![c]
    } else {
        char_uppercase(c)
    }
}

/// `char::to_uppercase`, collected into a string.  As its documentation
/// states, ASCII letters `a` to `z` map to `A` to `Z` and every other ASCII
/// character maps to itself; for other characters the result is named
/// `char_uppercase` and nothing more is claimed of it.
#[verifier::external_body]
fn upper_case(c: char) -> (res: String)
    ensures
        res@ == char_uppercase(c),
        res@ == upper_char(c),
{
    c.to_uppercase().collect()
}

/// A roman numeral kept as written.
pub open spec fn is_roman(p: Seq<char>) -> bool {
    p == "II"@ || p == "III"@ || p == "IV"@ || p == "V"@ || p == "VI"@
}

/// One word of a label: roman numerals as written, otherwise the first
/// character in upper case and the rest in ASCII lower case.
pub open spec fn human_word(p: Seq<char>) -> Seq<char> {
    if is_roman(p) { p } else { upper_char(p[0]) + lower_text(p.skip(1)) }
}

/// The nonempty pieces of a label between underscores.
pub open spec fn label_words(value: Seq<char>) -> Seq<Seq<char>> {
    split_on(value, '_').filter(|p: Seq<char>| p.len() > 0)
}

/// A label written as words: the nonempty pieces between underscores, each
/// capitalised, joined with spaces.
pub open spec fn spec_human_words(value: Seq<char>) -> Seq<char> {
    join(label_words(value).map_values(|p: Seq<char>| human_word(p)), " "@)
}

proof fn lemma_join_push(parts: Seq<Seq<char>>, x: Seq<char>, sep: Seq<char>)
    ensures
        join(parts.push(x), sep) == if parts.len() == 0 { x } else { join(parts, sep) + sep + x },
{
    assert(parts.push(x).drop_last() =~= parts);
    if parts.len() == 0 {
        assert(parts.push(x)[0] == x);
    }
}

/// A label written as words: the nonempty pieces between underscores, each
/// capitalised, joined with spaces.
pub fn human_words(value: &str) -> (res: String)
    ensures
        res@ == spec_human_words(value@),
{
    let chars = chars_of(value);
    let pieces = split_chars(chars.as_slice(), '_');
    let ghost ps = char_views(pieces@);
    let ghost pred = |p: Seq<char>| p.len() > 0;
    let ghost hw = |p: Seq<char>| human_word(p);
    let mut out = String::new();
    let mut count: usize = 0;
    let mut i: usize = 0;
    while i < pieces.len()
        invariant
            i <= pieces@.len(),
            ps == char_views(pieces@),
            ps == split_on(value@, '_'),
            pred == (|p: Seq<char>| p.len() > 0),
            hw == (|p: Seq<char>| human_word(p)),
            count == ps.take(i as int).filter(pred).len(),
            out@ == join(ps.take(i as int).filter(pred).map_values(hw), " "@),
        decreases pieces@.len() - i,
    {
        let ghost before = ps.take(i as int).filter(pred);
        proof {
            ps.take(i as int).lemma_filter_push(ps[i as int], pred);
            assert(ps.take(i + 1) =~= ps.take(i as int).push(ps[i as int]));
            assert(pieces@[i as int]@ == ps[i as int]);
        }
        let piece = &pieces[i];
        if piece.len() > 0 {
            let ghost word = human_word(ps[i as int]);
            if count > 0 {
                push_char(&mut out, ' ');
            }
            let roman = crate::text::equals_str(piece.as_slice(), "II") || crate::text::equals_str(piece.as_slice(), "III")
                || crate::text::equals_str(piece.as_slice(), "IV") || crate::text::equals_str(piece.as_slice(), "V")
                || crate::text::equals_str(piece.as_slice(), "VI");
            if roman {
                out.append(crate::text::string_of(piece.as_slice()).as_str());
            } else {
                let first = upper_case(piece[0]);
                out.append(first.as_str());
                let rest = crate::text::sub_chars(piece.as_slice(), 1, piece.len());
                push_lower(&mut out, rest.as_slice());
                assert(rest@ =~= ps[i as int].skip(1));
            }
            proof {
                reveal_strlit(" ");
                assert(before.push(ps[i as int]).map_values(hw) =~= before.map_values(hw).push(word));
                lemma_join_push(before.map_values(hw), word, " "@);
            }
            count = count + 1;
        } else {
            assert(ps[i as int].len() == 0);
        }
        i = i + 1;
    }
    assert(ps.take(i as int) =~= ps);
    out
}

/// The named values of an integer written for people: its label as words;
/// else, for flags, the words of each flag it holds and any bits left, joined
/// with commas, or `None`; else `Unknown (value N)`.  A property with no named
/// values shows its decimal value.
pub open spec fn spec_human_enum(name: Seq<char>, value: u32) -> Seq<char> {
    let (values, flags) = spec_enum_values(name);
    if values.len() == 0 {
        decimal(value as nat)
    } else {
        match value_name_from(values, value, 0) {
            Some(label) => spec_human_words(label),
            None => if !flags {
                "Unknown (value "@ + decimal(value as nat) + ")"@
            } else {
                let (names, rest) = flag_split(values, value, values.len() as int);
                let words = names.map_values(|l: Seq<char>| spec_human_words(l));
                let labels = if rest != 0 { words.push("unknown bits 0x"@ + hex_number(rest as nat)) } else { words };
                if labels.len() == 0 { "None"@ } else { join(labels, ", "@) }
            },
        }
    }
}

/// The named values of an integer written for people.
pub fn human_enum(name: &str, value: u32) -> (res: String)
    ensures
        res@ == spec_human_enum(name@, value),
{
    let chars = chars_of(name);
    let enumeration = enum_values(chars.as_slice());
    let ghost vs = enumeration@.0;
    let n = enumeration.values.len();
    if n == 0 {
        return decimal_string(value as u64);
    }
    let mut i: usize = 0;
    while i < n
        invariant
            n == enumeration.values@.len(),
            vs == enumeration@.0,
            vs.len() == n,
            i <= n,
            enumeration@ == spec_enum_values(name@),
            value_name_from(vs, value, 0) == value_name_from(vs, value, i as int),
        decreases n - i,
    {
        assert(vs[i as int] == (enumeration.values@[i as int].0@, enumeration.values@[i as int].1));
        if enumeration.values[i].1 == value {
            assert(value_name_from(vs, value, i as int) == Some(vs[i as int].0));
            return human_words(enumeration.values[i].0.as_str());
        }
        i = i + 1;
    }
    if !enumeration.flags {
        let mut out = String::new();
        out.append("Unknown (value ");
        push_decimal(&mut out, value as u64);
        out.append(")");
        proof {
            reveal_strlit("Unknown (value ");
            reveal_strlit(")");
        }
        return out;
    }
    let ghost hw = |l: Seq<char>| spec_human_words(l);
    let mut labels: Vec<String> = Vec::new();
    let mut rest = value;
    let ghost names: Seq<Seq<char>> = seq![];
    let mut k: usize = 0;
    while k < n
        invariant
            n == enumeration.values@.len(),
            vs == enumeration@.0,
            vs.len() == n,
            k <= n,
            enumeration@ == spec_enum_values(name@),
            hw == (|l: Seq<char>| spec_human_words(l)),
            (names, rest) == flag_split(vs, value, k as int),
            string_views(labels@) == names.map_values(hw),
        decreases n - k,
    {
        assert(vs[k as int] == (enumeration.values@[k as int].0@, enumeration.values@[k as int].1));
        let candidate = enumeration.values[k].1;
        let ghost before = labels@;
        if candidate != 0 && rest & candidate == candidate {
            let w = human_words(enumeration.values[k].0.as_str());
            labels.push(w);
            proof {
                assert(string_views(labels@) =~= string_views(before).push(w@));
                assert(names.push(vs[k as int].0).map_values(hw) =~= names.map_values(hw).push(w@));
                names = names.push(vs[k as int].0);
            }
            rest = rest & !candidate;
        }
        k = k + 1;
    }
    if rest != 0 {
        let ghost before = labels@;
        let mut t = String::new();
        t.append("unknown bits 0x");
        push_hex_number(&mut t, rest);
        proof { reveal_strlit("unknown bits 0x"); }
        labels.push(t);
        assert(string_views(labels@) =~= string_views(before).push(t@));
    }
    if labels.len() == 0 {
        proof { reveal_strlit("None"); }
        return String::from_str("None");
    }
    let mut out = String::new();
    crate::rawlist::push_joined(&mut out, &labels, ", ");
    proof { reveal_strlit(", "); }
    assert(out@ =~= spec_human_enum(name@, value));
    out
}


/// The index of the first zero byte at or after `i`, or the length.
pub open spec fn zero_end(b: Seq<u8>, i: int) -> int
    decreases b.len() - i,
{
    if i < 0 || i >= b.len() {
        b.len() as int
    } else if b[i] == 0 {
        i
    } else {
        zero_end(b, i + 1)
    }
}

/// A printable ASCII character or a space.
pub open spec fn printable(b: u8) -> bool {
    0x20 <= b <= 0x7e
}

/// Zero-terminated text for people: `(empty)`, the characters when they are
/// all printable ASCII or spaces, or `(non-text data)`.
pub open spec fn spec_fixed_text(b: Seq<u8>) -> Seq<char> {
    let end = zero_end(b, 0);
    if end == 0 {
        "(empty)"@
    } else if forall|k: int| 0 <= k < end ==> printable(#[trigger] b[k]) {
        b.take(end).map_values(|x: u8| x as char)
    } else {
        "(non-text data)"@
    }
}

proof fn lemma_zero_end_bounds(b: Seq<u8>, i: int)
    requires
        0 <= i <= b.len(),
    ensures
        i <= zero_end(b, i) <= b.len(),
        forall|k: int| i <= k < zero_end(b, i) ==> b[k] != 0,
        zero_end(b, i) < b.len() ==> b[zero_end(b, i)] == 0,
    decreases b.len() - i,
{
    if i < b.len() && b[i] != 0 {
        lemma_zero_end_bounds(b, i + 1);
    }
}

/// Zero-terminated text for people.
pub fn fixed_text(b: &[u8]) -> (res: String)
    ensures
        res@ == spec_fixed_text(b@),
{
    let mut end: usize = 0;
    while end < b.len() && b[end] != 0
        invariant
            end <= b@.len(),
            zero_end(b@, 0) == zero_end(b@, end as int),
        decreases b@.len() - end,
    {
        end = end + 1;
    }
    proof {
        lemma_zero_end_bounds(b@, 0);
    }
    if end == 0 {
        proof { reveal_strlit("(empty)"); }
        return String::from_str("(empty)");
    }
    let mut out = String::new();
    let mut k: usize = 0;
    while k < end
        invariant
            end == zero_end(b@, 0),
            0 < end <= b@.len(),
            k <= end,
            forall|j: int| 0 <= j < k ==> printable(#[trigger] b@[j]),
            out@ == b@.take(k as int).map_values(|x: u8| x as char),
        decreases end - k,
    {
        if !(0x20 <= b[k] && b[k] <= 0x7e) {
            proof { reveal_strlit("(non-text data)"); }
            return String::from_str("(non-text data)");
        }
        push_char(&mut out, b[k] as char);
        assert(out@ =~= b@.take(k + 1).map_values(|x: u8| x as char));
        k = k + 1;
    }
    out
}

/// A configured name, or `Unknown {kind} (ID {index})`.
pub open spec fn spec_configured_name(name: Option<Seq<char>>, kind: Seq<char>, index: int) -> Seq<char> {
    match name {
        Some(n) => n,
        None => "Unknown "@ + kind + " (ID "@ + decimal(index as nat) + ")"@,
    }
}

pub fn configured_name(name: Option<String>, kind: &str, index: usize) -> (res: String)
    ensures
        res@ == spec_configured_name(crate::names::opt_string(name), kind@, index as int),
{
    match name {
        Some(n) => n,
        None => {
            let mut out = String::new();
            out.append("Unknown ");
            out.append(kind);
            out.append(" (ID ");
            push_decimal(&mut out, index as u64);
            out.append(")");
            proof {
                reveal_strlit("Unknown ");
                reveal_strlit(" (ID ");
                reveal_strlit(")");
            }
            out
        },
    }
}

/// A customizer piece for people: its name and, in brackets, the character it
/// comes from; or `Unknown piece (ID {index})`.
pub open spec fn spec_piece_summary(t: Seq<char>, category: int, index: int) -> Seq<char> {
    match crate::names::spec_customizer_piece(t, category, index) {
        None => "Unknown piece (ID "@ + signed_decimal(index) + ")"@,
        Some((name, Some(source))) => name + " ("@ + source + ")"@,
        Some((name, None)) => name,
    }
}

pub fn piece_summary(tables: &crate::names::NameTables, category: usize, index: i16) -> (res: String)
    requires
        tables.spec_valid(),
    ensures
        res@ == spec_piece_summary(tables.customizer_pieces@, category as int, index as int),
{
    match crate::names::customizer_piece(tables, category, index) {
        None => {
            let mut out = String::new();
            out.append("Unknown piece (ID ");
            push_signed_decimal(&mut out, index as i64);
            out.append(")");
            proof {
                reveal_strlit("Unknown piece (ID ");
                reveal_strlit(")");
            }
            out
        },
        Some(piece) => match piece.source_character {
            Some(source) => {
                let mut out = piece.name;
                out.append(" (");
                out.append(source.as_str());
                out.append(")");
                proof {
                    reveal_strlit(" (");
                    reveal_strlit(")");
                }
                out
            },
            None => piece.name,
        },
    }
}

/// Which characters a character row lists: owned ones, unlocked ones not
/// owned, or ones with state bits beyond those two.
#[derive(Clone, Copy, Debug, PartialEq, Eq, Structural)]
pub enum CharacterState {
    Owned,
    UnlockedNotOwned,
    UnknownBits,
}

/// Whether a character's state byte belongs to a row.
pub open spec fn in_state(state: CharacterState, flags: u8) -> bool {
    match state {
        CharacterState::Owned => flags & 1u8 != 0,
        CharacterState::UnlockedNotOwned => flags & 2u8 != 0 && flags & 1u8 == 0,
        CharacterState::UnknownBits => flags & !3u8 != 0,
    }
}

/// The name of character `id`, or `Unknown character (ID {id})`.
pub open spec fn character_label(names: Seq<char>, id: int) -> Seq<char> {
    spec_configured_name(crate::names::nth_line(names, id), "character"@, id)
}

/// The labels of the characters among the first `n` whose state belongs to the row.
pub open spec fn character_labels(names: Seq<char>, states: Seq<u8>, state: CharacterState, n: int) -> Seq<Seq<char>>
    decreases n,
{
    if n <= 0 {
        seq![]
    } else if in_state(state, states[n - 1]) {
        character_labels(names, states, state, n - 1).push(character_label(names, n - 1))
    } else {
        character_labels(names, states, state, n - 1)
    }
}

/// The characters whose state belongs to the row, joined with commas, or `None`.
pub open spec fn spec_character_summary(names: Seq<char>, states: Seq<u8>, state: CharacterState) -> Seq<char> {
    let labels = character_labels(names, states, state, states.len() as int);
    if labels.len() == 0 { "None"@ } else { join(labels, ", "@) }
}

pub fn character_summary(tables: &crate::names::NameTables, kind: crate::format::SaveKind, states: &[u8], state: CharacterState) -> (res: String)
    ensures
        res@ == spec_character_summary(
            crate::names::release_table(kind, tables.windows_characters@, tables.android_characters@),
            states@,
            state,
        ),
{
    let ghost names = crate::names::release_table(kind, tables.windows_characters@, tables.android_characters@);
    let mut labels: Vec<String> = Vec::new();
    let mut id: usize = 0;
    while id < states.len()
        invariant
            id <= states@.len(),
            names == crate::names::release_table(kind, tables.windows_characters@, tables.android_characters@),
            string_views(labels@) == character_labels(names, states@, state, id as int),
        decreases states@.len() - id,
    {
        let flags = states[id];
        let listed = match state {
            CharacterState::Owned => flags & 1u8 != 0,
            CharacterState::UnlockedNotOwned => flags & 2u8 != 0 && flags & 1u8 == 0,
            CharacterState::UnknownBits => flags & !3u8 != 0,
        };
        if listed {
            let label = configured_name(crate::names::character_name(tables, kind, id), "character", id);
            let ghost before = labels@;
            labels.push(label);
            assert(string_views(labels@) =~= string_views(before).push(character_label(names, id as int)));
        }
        id = id + 1;
    }
    if labels.len() == 0 {
        proof { reveal_strlit("None"); }
        return String::from_str("None");
    }
    let mut out = String::new();
    crate::rawlist::push_joined(&mut out, &labels, ", ");
    proof { reveal_strlit(", "); }
    out
}


/// A set bit's name, or `unknown bit {bit}` for a bit with no name of its own.
pub open spec fn mask_label(name: Seq<char>, bit: int) -> Seq<char> {
    if name == "BIT_"@ + decimal(bit as nat) { "unknown bit "@ + decimal(bit as nat) } else { name }
}

/// The set bits of the first property called `name`, by name, joined with
/// commas; `None` when no bit is set or no such property exists.
#[verifier::opaque]
pub open spec fn spec_mask_summary(kind: crate::format::SaveKind, shop: Seq<Seq<char>>, fields: Seq<crate::schema::PropView>, bytes: Seq<u8>, name: Seq<char>) -> Seq<char> {
    match crate::assign::find_field(fields, name) {
        None => "None"@,
        Some(k) => {
            let f = fields[k];
            let names = crate::values::spec_bit_names(kind, f.0, f.2, shop);
            let bits = crate::rawlist::set_bits(bytes.subrange(f.1, f.1 + f.2), f.2 * 8);
            if bits.len() == 0 {
                "None"@
            } else {
                join(bits.map_values(|b: int| mask_label(names[b], b)), ", "@)
            }
        },
    }
}

/// The position of the first property called `name`.
fn position_of(fields: &[crate::schema::Property], name: &str) -> (res: Option<usize>)
    ensures
        match res {
            Some(k) => crate::assign::find_field(crate::schema::views(fields@), name@) == Some(k as int) && k < fields@.len(),
            None => crate::assign::find_field(crate::schema::views(fields@), name@) is None,
        },
{
    let ghost fs = crate::schema::views(fields@);
    let mut k: usize = 0;
    while k < fields.len()
        invariant
            k <= fields@.len(),
            fs == crate::schema::views(fields@),
            forall|j: int| 0 <= j < k ==> #[trigger] fs[j].0 != name@,
        decreases fields@.len() - k,
    {
        assert(fs[k as int] == fields@[k as int]@);
        if crate::text::str_equal(fields[k].name.as_str(), name) {
            proof {
                let m = choose|m: int| 0 <= m < fs.len() && fs[m].0 == name@ && forall|j: int| 0 <= j < m ==> #[trigger] fs[j].0 != name@;
                if m < k {
                    assert(fs[m].0 != name@);
                }
                if m > k {
                    assert(fs[k as int].0 != name@);
                }
            }
            return Some(k);
        }
        k = k + 1;
    }
    None
}

pub fn mask_summary(save: &crate::format::Save, kind: crate::format::SaveKind, shop: &Vec<String>, fields: &[crate::schema::Property], name: &str) -> (res: String)
    requires
        crate::schema::all_fit(crate::schema::views(fields@), save.bytes@.len() as int),
        save.bytes@.len() * 8 <= usize::MAX,
    ensures
        res@ == spec_mask_summary(kind, string_views(shop@), crate::schema::views(fields@), save.bytes@, name@),
{
    reveal(spec_mask_summary);
    proof { reveal_strlit("None"); }
    let k = match position_of(fields, name) {
        None => return String::from_str("None"),
        Some(k) => k,
    };
    let field = &fields[k];
    assert(crate::schema::views(fields@)[k as int] == field@);
    assert(crate::schema::fits(field@, save.bytes@.len() as int));
    let _n = save.bytes.len();
    let data = vstd::slice::slice_subrange(save.bytes.as_slice(), field.offset, field.offset + field.size);
    let chars = chars_of(field.name.as_str());
    let names = crate::values::bit_names(kind, chars.as_slice(), field.size, shop);
    assert(names@.len() == string_views(names@).len());
    let ghost ns = string_views(names@);
    let ghost bits = crate::rawlist::set_bits(data@, field.size * 8);
    let ghost ml = |b: int| mask_label(ns[b], b);
    let mut labels: Vec<String> = Vec::new();
    let mut b: usize = 0;
    let n = field.size * 8;
    while b < n
        invariant
            n == field.size * 8,
            n <= names@.len(),
            n <= data@.len() * 8,
            ns == string_views(names@),
            b <= n,
            ml == (|b: int| mask_label(ns[b], b)),
            string_views(labels@) == crate::rawlist::set_bits(data@, b as int).map_values(ml),
        decreases n - b,
    {
        if (data[b / 8] >> ((b % 8) as u8)) & 1u8 == 1u8 {
            let mut default = String::new();
            default.append("BIT_");
            push_decimal(&mut default, b as u64);
            let label = if crate::text::str_equal(names[b].as_str(), default.as_str()) {
                let mut t = String::new();
                t.append("unknown bit ");
                push_decimal(&mut t, b as u64);
                t
            } else {
                names[b].clone()
            };
            proof {
                reveal_strlit("BIT_");
                reveal_strlit("unknown bit ");
                assert(ns[b as int] == names@[b as int]@);
            }
            let ghost before = labels@;
            labels.push(label);
            assert(string_views(labels@) =~= string_views(before).push(ml(b as int)));
            assert(crate::rawlist::set_bits(data@, b + 1) == crate::rawlist::set_bits(data@, b as int).push(b as int));
            assert(crate::rawlist::set_bits(data@, b + 1).map_values(ml) =~= crate::rawlist::set_bits(data@, b as int).map_values(ml).push(ml(b as int)));
        }
        b = b + 1;
    }
    if labels.len() == 0 {
        return String::from_str("None");
    }
    let mut out = String::new();
    crate::rawlist::push_joined(&mut out, &labels, ", ");
    proof { reveal_strlit(", "); }
    out
}


/// One line of the summary: a section, a label and a value.
#[derive(Clone, Debug, PartialEq, Eq)]
pub struct SummaryRow {
    pub section: String,
    pub label: String,
    pub value: String,
}

/// A row as its section, label and value.
pub type RowView = (Seq<char>, Seq<char>, Seq<char>);

impl View for SummaryRow {
    type V = RowView;

    open spec fn view(&self) -> RowView {
        (self.section@, self.label@, self.value@)
    }
}

/// The views of a list of rows.
pub open spec fn row_views(v: Seq<SummaryRow>) -> Seq<RowView> {
    v.map_values(|r: SummaryRow| r@)
}

/// The style of section headings.
pub open spec fn section_look() -> Look {
    Look { hue: Some(Hue::Cyan), bold: true }
}

/// The style of row labels.
pub open spec fn label_look() -> Look {
    Look { hue: Some(Hue::BrightBlue), bold: true }
}

/// The style of a value: green for good states, bold red for `Invalid`,
/// grey for absent ones, plain otherwise.
pub open spec fn value_look(v: Seq<char>) -> Look {
    if v == "Valid"@ || v == "On"@ || v == "Unlocked"@ || v == "Complete"@ || v == "Completed"@ {
        Look { hue: Some(Hue::Green), bold: false }
    } else if v == "Invalid"@ {
        Look { hue: Some(Hue::Red), bold: true }
    } else if v == "None"@ || v == "Off"@ || v == "Locked"@ || v == "(empty)"@ {
        Look { hue: Some(Hue::BrightBlack), bold: false }
    } else {
        Look { hue: None, bold: false }
    }
}

fn value_style(v: &str) -> (res: Look)
    ensures
        res == value_look(v@),
{
    if str_equal(v, "Valid") || str_equal(v, "On") || str_equal(v, "Unlocked") || str_equal(v, "Complete") || str_equal(v, "Completed") {
        Look { hue: Some(Hue::Green), bold: false }
    } else if str_equal(v, "Invalid") {
        Look { hue: Some(Hue::Red), bold: true }
    } else if str_equal(v, "None") || str_equal(v, "Off") || str_equal(v, "Locked") || str_equal(v, "(empty)") {
        Look { hue: Some(Hue::BrightBlack), bold: false }
    } else {
        Look { hue: None, bold: false }
    }
}

/// Whether a row shows for a lower-cased filter: the filter is empty or
/// occurs in the lower-cased section, label or value.
pub open spec fn row_shown(r: RowView, filter: Seq<char>) -> bool {
    filter.len() == 0 || contains_seq(lower_text(r.0), filter) || contains_seq(lower_text(r.1), filter)
        || contains_seq(lower_text(r.2), filter)
}

/// The rows a filter keeps, in order.
pub open spec fn shown_rows(rows: Seq<RowView>, filter: Seq<char>) -> Seq<RowView> {
    rows.filter(|r: RowView| row_shown(r, lower_text(filter)))
}

/// The first row of the run of rows with the section of row `k`.
pub open spec fn run_start(rows: Seq<RowView>, k: int) -> int
    decreases k,
{
    if k <= 0 || rows[k - 1].0 != rows[k].0 { k } else { run_start(rows, k - 1) }
}

/// The end of the run of rows with the section of row `k`.
pub open spec fn run_end(rows: Seq<RowView>, k: int) -> int
    decreases rows.len() - k,
{
    if k + 1 >= rows.len() || rows[k + 1].0 != rows[k].0 { k + 1 } else { run_end(rows, k + 1) }
}

/// The widest label, in characters, of rows `from..to`.
pub open spec fn label_width(rows: Seq<RowView>, from: int, to: int) -> int
    decreases to - from,
{
    if to <= from {
        0
    } else {
        let w = label_width(rows, from, to - 1);
        if rows[to - 1].1.len() > w { rows[to - 1].1.len() as int } else { w }
    }
}

/// `s` followed by spaces up to `width` characters.
pub open spec fn padded(s: Seq<char>, width: int) -> Seq<char> {
    if s.len() >= width { s } else { s + Seq::new((width - s.len()) as nat, |i: int| ' ') }
}

/// The lines of a row: the section heading when asked for, then the label
/// padded to `width` characters and the value.
pub open spec fn row_lines(r: RowView, heading: bool, width: int, color: bool) -> Seq<char> {
    (if heading { spec_paint(r.0, section_look(), color) + "\n"@ } else { seq![] })
        + "  "@ + spec_paint(padded(r.1, width), label_look(), color)
        + "  "@ + spec_paint(r.2, value_look(r.2), color) + "\n"@
}

/// The lines of row `k`: the section heading when the row starts a run, then
/// the label padded to the widest label of its run and the value.
pub open spec fn row_block(rows: Seq<RowView>, k: int, color: bool) -> Seq<char> {
    row_lines(rows[k], run_start(rows, k) == k, label_width(rows, run_start(rows, k), run_end(rows, k)), color)
}

/// The blocks of the first `n` rows.
pub open spec fn row_blocks(rows: Seq<RowView>, n: int, color: bool) -> Seq<char>
    decreases n,
{
    if n <= 0 { seq![] } else { row_blocks(rows, n - 1, color) + row_block(rows, n - 1, color) }
}

/// The summary text of rows: the rows the filter keeps, grouped under their
/// sections, or a line saying nothing matched.
pub open spec fn spec_render(rows: Seq<RowView>, filter: Seq<char>, color: bool) -> Seq<char> {
    let shown = shown_rows(rows, filter);
    if shown.len() == 0 {
        "No matching interpreted values.\n"@
    } else {
        row_blocks(shown, shown.len() as int, color)
    }
}

proof fn lemma_run_start(rows: Seq<RowView>, start: int, k: int)
    requires
        0 <= start <= k < rows.len(),
        start == 0 || rows[start - 1].0 != rows[start].0,
        forall|j: int| start <= j <= k ==> #[trigger] rows[j].0 == rows[start].0,
    ensures
        run_start(rows, k) == start,
    decreases k - start,
{
    if k > start {
        lemma_run_start(rows, start, k - 1);
    }
}

proof fn lemma_run_end(rows: Seq<RowView>, k: int, end: int)
    requires
        0 <= k < end <= rows.len(),
        end == rows.len() || rows[end].0 != rows[k].0,
        forall|j: int| k <= j < end ==> #[trigger] rows[j].0 == rows[k].0,
    ensures
        run_end(rows, k) == end,
    decreases end - k,
{
    if k + 1 < end {
        lemma_run_end(rows, k + 1, end);
    }
}

/// The lower-cased characters of a string.
fn lowered(s: &String) -> (res: Vec<char>)
    ensures
        res@ == lower_text(s@),
{
    let chars = chars_of(s.as_str());
    let mut out: Vec<char> = Vec::new();
    let mut i: usize = 0;
    while i < chars.len()
        invariant
            i <= chars@.len(),
            chars@ == s@,
            out@ == lower_text(chars@.take(i as int)),
        decreases chars@.len() - i,
    {
        out.push(lower_char(chars[i]));
        assert(out@ =~= lower_text(chars@.take(i + 1)));
        i = i + 1;
    }
    assert(chars@.take(i as int) =~= chars@);
    out
}

/// Appends the lines of one row.
fn push_row(out: &mut String, row: &SummaryRow, heading: bool, width: usize, color: bool)
    ensures
        final(out)@ == old(out)@ + row_lines(row@, heading, width as int, color),
{
    let ghost start = out@;
    let section = Look { hue: Some(Hue::Cyan), bold: true };
    let label = Look { hue: Some(Hue::BrightBlue), bold: true };
    if heading {
        push_painted(out, row.section.as_str(), section, color);
        push_char(out, '\n');
    }
    let ghost head = out@;
    out.append("  ");
    let mut padded_label = row.label.clone();
    let count = chars_of(row.label.as_str()).len();
    let mut c = count;
    while c < width
        invariant
            count == row.label@.len(),
            count <= c,
            c <= width || c == count,
            padded_label@ == row.label@ + Seq::new((c - count) as nat, |i: int| ' '),
        decreases width - c,
    {
        push_char(&mut padded_label, ' ');
        assert(padded_label@ =~= row.label@ + Seq::new((c + 1 - count) as nat, |i: int| ' '));
        c = c + 1;
    }
    assert(padded_label@ =~= padded(row.label@, width as int));
    push_painted(out, padded_label.as_str(), label, color);
    out.append("  ");
    let look = value_style(row.value.as_str());
    push_painted(out, row.value.as_str(), look, color);
    push_char(out, '\n');
    proof {
        reveal_strlit("  ");
        reveal_strlit("\n");
    }
    assert(out@ =~= start + row_lines(row@, heading, width as int, color));
}

/// Renders rows as the summary text.
pub fn render_summary(rows: &Vec<SummaryRow>, filter: &str, color: bool) -> (res: String)
    ensures
        res@ == spec_render(row_views(rows@), filter@, color),
{
    let mut lower_filter = String::new();
    let filter_chars = chars_of(filter);
    push_lower(&mut lower_filter, filter_chars.as_slice());
    let ghost all = row_views(rows@);
    let ghost pred = |r: RowView| row_shown(r, lower_text(filter@));
    let mut shown: Vec<&SummaryRow> = Vec::new();
    let mut i: usize = 0;
    while i < rows.len()
        invariant
            i <= rows@.len(),
            all == row_views(rows@),
            lower_filter@ == lower_text(filter@),
            filter_chars@ == filter@,
            pred == (|r: RowView| row_shown(r, lower_text(filter@))),
            shown@.map_values(|r: &SummaryRow| r@) == all.take(i as int).filter(pred),
        decreases rows@.len() - i,
    {
        let row = &rows[i];
        proof {
            all.take(i as int).lemma_filter_push(all[i as int], pred);
            assert(all.take(i + 1) =~= all.take(i as int).push(all[i as int]));
            assert(all[i as int] == row@);
        }
        let keep = filter_chars.len() == 0 || contains_str(lowered(&row.section).as_slice(), lower_filter.as_str())
            || contains_str(lowered(&row.label).as_slice(), lower_filter.as_str())
            || contains_str(lowered(&row.value).as_slice(), lower_filter.as_str());
        let ghost before = shown@;
        if keep {
            shown.push(row);
            assert(shown@.map_values(|r: &SummaryRow| r@) =~= before.map_values(|r: &SummaryRow| r@).push(row@));
        }
        i = i + 1;
    }
    assert(all.take(i as int) =~= all);
    let ghost sv = shown@.map_values(|r: &SummaryRow| r@);
    assert(sv == shown_rows(all, filter@));
    if shown.len() == 0 {
        proof { reveal_strlit("No matching interpreted values.\n"); }
        return String::from_str("No matching interpreted values.\n");
    }
    let mut out = String::new();
    let n = shown.len();
    let mut start: usize = 0;
    while start < n
        invariant
            n == shown@.len(),
            sv == shown@.map_values(|r: &SummaryRow| r@),
            start <= n,
            start < n ==> (start == 0 || sv[start - 1].0 != sv[start as int].0),
            out@ == row_blocks(sv, start as int, color),
        decreases n - start,
    {
        let ghost sec = sv[start as int].0;
        let mut end: usize = start + 1;
        let mut width: usize = chars_of(shown[start].label.as_str()).len();
        assert(label_width(sv, start as int, start + 1) == sv[start as int].1.len()) by {
            reveal_with_fuel(label_width, 2);
        }
        while end < n && crate::text::str_equal(shown[end].section.as_str(), shown[start].section.as_str())
            invariant
                n == shown@.len(),
                sv == shown@.map_values(|r: &SummaryRow| r@),
                start < end <= n,
                sec == sv[start as int].0,
                forall|j: int| start <= j < end ==> #[trigger] sv[j].0 == sec,
                width == label_width(sv, start as int, end as int),
            decreases n - end,
        {
            let w = chars_of(shown[end].label.as_str()).len();
            if w > width {
                width = w;
            }
            end = end + 1;
        }
        assert(end == n || sv[end as int].0 != sec);
        let mut k: usize = start;
        while k < end
            invariant
                n == shown@.len(),
                sv == shown@.map_values(|r: &SummaryRow| r@),
                start <= k <= end <= n,
                sec == sv[start as int].0,
                start == 0 || sv[start - 1].0 != sec,
                end == n || sv[end as int].0 != sec,
                forall|j: int| start <= j < end ==> #[trigger] sv[j].0 == sec,
                width == label_width(sv, start as int, end as int),
                out@ == row_blocks(sv, k as int, color),
            decreases end - k,
        {
            proof {
                lemma_run_start(sv, start as int, k as int);
                lemma_run_end(sv, k as int, end as int);
            }
            let row = shown[k];
            assert(sv[k as int] == row@);
            push_row(&mut out, row, k == start, width, color);
            assert(out@ =~= row_blocks(sv, k + 1, color));
            k = k + 1;
        }
        start = end;
    }
    out
}


/// A row with no escape character in its section, label or value.
pub open spec fn row_plain(r: RowView) -> bool {
    !crate::roundtrip::has_char(r.0, '\x1b') && !crate::roundtrip::has_char(r.1, '\x1b')
        && !crate::roundtrip::has_char(r.2, '\x1b')
}

proof fn lemma_has_char_concat(a: Seq<char>, b: Seq<char>, c: char)
    ensures
        crate::roundtrip::has_char(a + b, c) == (crate::roundtrip::has_char(a, c) || crate::roundtrip::has_char(b, c)),
{
    let ab = a + b;
    if crate::roundtrip::has_char(ab, c) {
        let i = choose|i: int| 0 <= i < ab.len() && ab[i] == c;
        if i < a.len() {
            assert(a[i] == c);
        } else {
            assert(b[i - a.len()] == c);
        }
    }
    if crate::roundtrip::has_char(a, c) {
        let i = choose|i: int| 0 <= i < a.len() && a[i] == c;
        assert(ab[i] == c);
    }
    if crate::roundtrip::has_char(b, c) {
        let i = choose|i: int| 0 <= i < b.len() && b[i] == c;
        assert(ab[a.len() + i] == c);
    }
}

proof fn lemma_row_lines_plain(r: RowView, heading: bool, width: int)
    requires
        row_plain(r),
    ensures
        !crate::roundtrip::has_char(row_lines(r, heading, width, false), '\x1b'),
{
    reveal_strlit("\n");
    reveal_strlit("  ");
    let esc = '\x1b';
    let pad = padded(r.1, width);
    assert(!crate::roundtrip::has_char(pad, esc)) by {
        if r.1.len() < width {
            let spaces = Seq::new((width - r.1.len()) as nat, |i: int| ' ');
            assert(!crate::roundtrip::has_char(spaces, esc));
            lemma_has_char_concat(r.1, spaces, esc);
        }
    }
    assert(!crate::roundtrip::has_char("\n"@, esc));
    assert(!crate::roundtrip::has_char("  "@, esc));
    let head = if heading { r.0 + "\n"@ } else { seq![] };
    assert(!crate::roundtrip::has_char(head, esc)) by {
        if heading {
            lemma_has_char_concat(r.0, "\n"@, esc);
        }
    }
    lemma_has_char_concat(head, "  "@, esc);
    lemma_has_char_concat(head + "  "@, pad, esc);
    lemma_has_char_concat(head + "  "@ + pad, "  "@, esc);
    lemma_has_char_concat(head + "  "@ + pad + "  "@, r.2, esc);
    lemma_has_char_concat(head + "  "@ + pad + "  "@ + r.2, "\n"@, esc);
    assert(row_lines(r, heading, width, false) =~= head + "  "@ + pad + "  "@ + r.2 + "\n"@);
}

proof fn lemma_row_blocks_plain(rows: Seq<RowView>, n: int)
    requires
        0 <= n <= rows.len(),
        forall|k: int| 0 <= k < rows.len() ==> row_plain(#[trigger] rows[k]),
    ensures
        !crate::roundtrip::has_char(row_blocks(rows, n, false), '\x1b'),
    decreases n,
{
    if n > 0 {
        lemma_row_blocks_plain(rows, n - 1);
        let k = n - 1;
        lemma_row_lines_plain(rows[k], run_start(rows, k) == k, label_width(rows, run_start(rows, k), run_end(rows, k)));
        lemma_has_char_concat(row_blocks(rows, n - 1, false), row_block(rows, k, false), '\x1b');
    } else {
        assert(!crate::roundtrip::has_char(Seq::<char>::empty(), '\x1b'));
    }
}

/// A text with its escape sequences removed, each running from an escape
/// character to the next `m`; `inside` says whether one is open.
pub open spec fn strip_in(s: Seq<char>, inside: bool) -> Seq<char>
    decreases s.len(),
{
    if s.len() == 0 {
        seq![]
    } else if inside {
        strip_in(s.skip(1), s[0] != 'm')
    } else if s[0] == '\x1b' {
        strip_in(s.skip(1), true)
    } else {
        seq![s[0]] + strip_in(s.skip(1), false)
    }
}

/// Whether an escape sequence is still open after `s`.
pub open spec fn open_after(s: Seq<char>, inside: bool) -> bool
    decreases s.len(),
{
    if s.len() == 0 {
        inside
    } else if inside {
        open_after(s.skip(1), s[0] != 'm')
    } else {
        open_after(s.skip(1), s[0] == '\x1b')
    }
}

/// A text without its `ESC ... m` escape sequences.
pub open spec fn without_escapes(s: Seq<char>) -> Seq<char> {
    strip_in(s, false)
}

proof fn lemma_strip_concat(a: Seq<char>, b: Seq<char>, inside: bool)
    ensures
        strip_in(a + b, inside) == strip_in(a, inside) + strip_in(b, open_after(a, inside)),
        open_after(a + b, inside) == open_after(b, open_after(a, inside)),
    decreases a.len(),
{
    if a.len() == 0 {
        assert(a + b =~= b);
    } else {
        assert((a + b).skip(1) =~= a.skip(1) + b);
        assert((a + b)[0] == a[0]);
        if inside {
            lemma_strip_concat(a.skip(1), b, a[0] != 'm');
        } else if a[0] == '\x1b' {
            lemma_strip_concat(a.skip(1), b, true);
        } else {
            lemma_strip_concat(a.skip(1), b, false);
        }
    }
}

proof fn lemma_strip_plain(a: Seq<char>)
    requires
        !crate::roundtrip::has_char(a, '\x1b'),
    ensures
        strip_in(a, false) == a,
        !open_after(a, false),
    decreases a.len(),
{
    if a.len() > 0 {
        assert(!crate::roundtrip::has_char(a.skip(1), '\x1b')) by {
            if crate::roundtrip::has_char(a.skip(1), '\x1b') {
                let i = choose|i: int| 0 <= i < a.skip(1).len() && a.skip(1)[i] == '\x1b';
                assert(a[i + 1] == '\x1b');
            }
        }
        assert(a[0] != '\x1b');
        lemma_strip_plain(a.skip(1));
        assert(seq![a[0]] + a.skip(1) =~= a);
    }
}

/// An escape sequence `ESC [ code m` whose code holds no `m` leaves nothing.
proof fn lemma_strip_escape(code: Seq<char>)
    requires
        forall|i: int| 0 <= i < code.len() ==> #[trigger] code[i] != 'm',
    ensures
        strip_in(seq!['\x1b'] + "["@ + code + "m"@, false) == Seq::<char>::empty(),
        !open_after(seq!['\x1b'] + "["@ + code + "m"@, false),
{
    reveal_strlit("[");
    reveal_strlit("m");
    let e = seq!['\x1b'] + "["@ + code + "m"@;
    lemma_strip_inside(code);
    assert(e.skip(1) =~= seq!['['] + (code + "m"@));
    assert(e.skip(1).skip(1) =~= code + "m"@);
    assert(strip_in(e, false) == strip_in(e.skip(1), true));
    assert(strip_in(e.skip(1), true) == strip_in(code + "m"@, true));
    assert(open_after(e, false) == open_after(e.skip(1), true));
    assert(open_after(e.skip(1), true) == open_after(code + "m"@, true));
}

proof fn lemma_strip_inside(code: Seq<char>)
    requires
        forall|i: int| 0 <= i < code.len() ==> #[trigger] code[i] != 'm',
    ensures
        strip_in(code + "m"@, true) == Seq::<char>::empty(),
        !open_after(code + "m"@, true),
    decreases code.len(),
{
    reveal_strlit("m");
    let x = code + "m"@;
    if code.len() == 0 {
        assert(x =~= seq!['m']);
        assert(x[0] == 'm');
        assert(x.skip(1) =~= Seq::<char>::empty());
        assert(strip_in(x, true) == strip_in(x.skip(1), false));
        assert(open_after(x, true) == open_after(x.skip(1), false));
    } else {
        assert(x.skip(1) =~= code.skip(1) + "m"@);
        assert(x[0] == code[0]);
        assert(code[0] != 'm');
        lemma_strip_inside(code.skip(1));
        assert(strip_in(x, true) == strip_in(x.skip(1), true));
        assert(open_after(x, true) == open_after(x.skip(1), true));
    }
}

/// The escape sequences a style opens with, and the one it closes with,
/// leave nothing once removed.
proof fn lemma_strip_look(l: Look)
    ensures
        strip_in(look_open(l), false) == Seq::<char>::empty(),
        !open_after(look_open(l), false),
        strip_in(look_close(l), false) == Seq::<char>::empty(),
        !open_after(look_close(l), false),
{
    reveal_strlit("[1m");
    reveal_strlit("[0m");
    reveal_strlit("[");
    reveal_strlit("m");
    reveal_strlit("1");
    reveal_strlit("0");
    reveal_strlit("36");
    reveal_strlit("94");
    reveal_strlit("32");
    reveal_strlit("31");
    reveal_strlit("90");
    let e = Seq::<char>::empty();
    let bold: Seq<char> = if l.bold { seq!['\x1b'] + "[1m"@ } else { e };
    let hue: Seq<char> = match l.hue {
        Some(h) => seq!['\x1b'] + "["@ + hue_code(h) + "m"@,
        None => e,
    };
    if l.bold {
        assert(seq!['\x1b'] + "[1m"@ =~= seq!['\x1b'] + "["@ + "1"@ + "m"@);
        lemma_strip_escape("1"@);
    }
    match l.hue {
        Some(h) => {
            lemma_strip_escape(hue_code(h));
        },
        None => {},
    }
    assert(look_open(l) == bold + hue);
    lemma_strip_concat(bold, hue, false);
    if !(l.hue is None && !l.bold) {
        assert(seq!['\x1b'] + "[0m"@ =~= seq!['\x1b'] + "["@ + "0"@ + "m"@);
        lemma_strip_escape("0"@);
    }
}

/// A painted text, its escape sequences removed, is the text itself.
proof fn lemma_strip_paint(t: Seq<char>, l: Look)
    requires
        !crate::roundtrip::has_char(t, '\x1b'),
    ensures
        strip_in(spec_paint(t, l, true), false) == t,
        !open_after(spec_paint(t, l, true), false),
{
    lemma_strip_look(l);
    lemma_strip_plain(t);
    lemma_strip_concat(look_open(l), t, false);
    lemma_strip_concat(look_open(l) + t, look_close(l), false);
    assert(look_open(l) + t + look_close(l) == spec_paint(t, l, true));
}

/// Two pieces that each strip to a text, with no escape left open, strip to
/// the two texts.
proof fn lemma_strip_pair(a: Seq<char>, a2: Seq<char>, b: Seq<char>, b2: Seq<char>)
    requires
        strip_in(a, false) == a2,
        !open_after(a, false),
        strip_in(b, false) == b2,
        !open_after(b, false),
    ensures
        strip_in(a + b, false) == a2 + b2,
        !open_after(a + b, false),
{
    lemma_strip_concat(a, b, false);
}

proof fn lemma_no_escape_literal(t: Seq<char>)
    requires
        t == "  "@ || t == "\n"@,
    ensures
        !crate::roundtrip::has_char(t, '\x1b'),
{
    reveal_strlit("  ");
    reveal_strlit("\n");
    if crate::roundtrip::has_char(t, '\x1b') {
        let i = choose|i: int| 0 <= i < t.len() && t[i] == '\x1b';
        assert(t[i] != '\x1b');
    }
}

proof fn lemma_padded_plain(t: Seq<char>, w: int)
    requires
        !crate::roundtrip::has_char(t, '\x1b'),
    ensures
        !crate::roundtrip::has_char(padded(t, w), '\x1b'),
{
    if crate::roundtrip::has_char(padded(t, w), '\x1b') {
        let p = padded(t, w);
        let i = choose|i: int| 0 <= i < p.len() && p[i] == '\x1b';
        if i < t.len() {
            assert(p[i] == t[i]);
        }
    }
}

/// The lines of a row with colour, escape sequences removed, are its lines without colour.
proof fn lemma_strip_row_lines(r: RowView, heading: bool, width: int)
    requires
        row_plain(r),
    ensures
        strip_in(row_lines(r, heading, width, true), false) == row_lines(r, heading, width, false),
        !open_after(row_lines(r, heading, width, true), false),
{
    let sp = "  "@;
    let nl = "\n"@;
    lemma_no_escape_literal(sp);
    lemma_no_escape_literal(nl);
    lemma_strip_plain(sp);
    lemma_strip_plain(nl);
    lemma_padded_plain(r.1, width);
    lemma_strip_paint(r.0, section_look());
    lemma_strip_paint(padded(r.1, width), label_look());
    lemma_strip_paint(r.2, value_look(r.2));
    let e = Seq::<char>::empty();
    let h1: Seq<char> = if heading { spec_paint(r.0, section_look(), true) + nl } else { e };
    let h0: Seq<char> = if heading { spec_paint(r.0, section_look(), false) + nl } else { e };
    if heading {
        lemma_strip_pair(spec_paint(r.0, section_look(), true), r.0, nl, nl);
    } else {
        assert(strip_in(e, false) == e);
    }
    let l1 = spec_paint(padded(r.1, width), label_look(), true);
    let v1 = spec_paint(r.2, value_look(r.2), true);
    let l0 = padded(r.1, width);
    let v0 = r.2;
    lemma_strip_pair(h1, h0, sp, sp);
    lemma_strip_pair(h1 + sp, h0 + sp, l1, l0);
    lemma_strip_pair(h1 + sp + l1, h0 + sp + l0, sp, sp);
    lemma_strip_pair(h1 + sp + l1 + sp, h0 + sp + l0 + sp, v1, v0);
    lemma_strip_pair(h1 + sp + l1 + sp + v1, h0 + sp + l0 + sp + v0, nl, nl);
    assert(row_lines(r, heading, width, true) == h1 + sp + l1 + sp + v1 + nl);
    assert(row_lines(r, heading, width, false) == h0 + sp + l0 + sp + v0 + nl);
}

proof fn lemma_strip_row_blocks(rows: Seq<RowView>, n: int)
    requires
        0 <= n <= rows.len(),
        forall|k: int| 0 <= k < rows.len() ==> row_plain(#[trigger] rows[k]),
    ensures
        strip_in(row_blocks(rows, n, true), false) == row_blocks(rows, n, false),
        !open_after(row_blocks(rows, n, true), false),
    decreases n,
{
    if n > 0 {
        lemma_strip_row_blocks(rows, n - 1);
        let k = n - 1;
        assert(row_plain(rows[k]));
        lemma_strip_row_lines(rows[k], run_start(rows, k) == k, label_width(rows, run_start(rows, k), run_end(rows, k)));
        lemma_strip_pair(row_blocks(rows, n - 1, true), row_blocks(rows, n - 1, false), row_block(rows, k, true), row_block(rows, k, false));
    } else {
        assert(strip_in(Seq::<char>::empty(), false) == Seq::<char>::empty());
    }
}

/// Without colour the summary holds no escape character that its rows do not
/// hold: redirected output carries no ANSI escape codes.
pub proof fn law_plain_summary_has_no_escapes(rows: Seq<RowView>, filter: Seq<char>)
    requires
        forall|k: int| 0 <= k < rows.len() ==> row_plain(#[trigger] rows[k]),
    ensures
        !crate::roundtrip::has_char(spec_render(rows, filter, false), '\x1b'),
{
    let pred = |r: RowView| row_shown(r, lower_text(filter));
    let shown = shown_rows(rows, filter);
    assert forall|k: int| 0 <= k < shown.len() implies row_plain(#[trigger] shown[k]) by {
        rows.filter_lemma(pred);
        assert(shown.contains(shown[k]));
        rows.lemma_filter_contains_rev(pred, shown[k]);
        let j = choose|j: int| 0 <= j < rows.len() && rows[j] == shown[k];
        assert(row_plain(rows[j]));
    }
    if shown.len() == 0 {
        reveal_strlit("No matching interpreted values.\n");
        let t = "No matching interpreted values.\n"@;
        assert(!crate::roundtrip::has_char(t, '\x1b'));
    } else {
        lemma_row_blocks_plain(shown, shown.len() as int);
    }
}


/// Colour only adds escape sequences: the coloured summary with every
/// `ESC ... m` sequence removed is the summary without colour.
pub proof fn law_colour_only_adds_escapes(rows: Seq<RowView>, filter: Seq<char>)
    requires
        forall|k: int| 0 <= k < rows.len() ==> row_plain(#[trigger] rows[k]),
    ensures
        without_escapes(spec_render(rows, filter, true)) == spec_render(rows, filter, false),
{
    let pred = |r: RowView| row_shown(r, lower_text(filter));
    let shown = shown_rows(rows, filter);
    assert forall|k: int| 0 <= k < shown.len() implies row_plain(#[trigger] shown[k]) by {
        rows.filter_lemma(pred);
        assert(shown.contains(shown[k]));
        rows.lemma_filter_contains_rev(pred, shown[k]);
        let j = choose|j: int| 0 <= j < rows.len() && rows[j] == shown[k];
        assert(row_plain(rows[j]));
    }
    if shown.len() == 0 {
        law_plain_summary_has_no_escapes(rows, filter);
        lemma_strip_plain(spec_render(rows, filter, false));
    } else {
        lemma_strip_row_blocks(shown, shown.len() as int);
    }
}

} // verus!
