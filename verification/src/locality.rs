//! What one assignment may change.
use vstd::prelude::*;
use crate::parse::spec_parse_number;
use crate::schema::Kind;

verus! {

/// The first property of a name is one of the properties.
proof fn lemma_found(fields: Seq<crate::schema::PropView>, name: Seq<char>)
    ensures
        crate::assign::find_field(fields, name) matches Some(k) ==> 0 <= k < fields.len(),
{
    if exists|k: int| 0 <= k < fields.len() && #[trigger] fields[k].0 == name {
        lemma_first_named(fields, name, 0);
    }
}

/// When a later property has the name, some property is the first of it.
proof fn lemma_first_named(fields: Seq<crate::schema::PropView>, name: Seq<char>, i: int)
    requires
        0 <= i <= fields.len(),
        forall|m: int| 0 <= m < i ==> #[trigger] fields[m].0 != name,
        exists|k: int| i <= k < fields.len() && #[trigger] fields[k].0 == name,
    ensures
        exists|j: int| 0 <= j < fields.len() && fields[j].0 == name && forall|m: int| 0 <= m < j ==> #[trigger] fields[m].0 != name,
    decreases fields.len() - i,
{
    if fields[i].0 == name {
        assert(0 <= i < fields.len() && fields[i].0 == name && forall|m: int| 0 <= m < i ==> #[trigger] fields[m].0 != name);
    } else {
        let k = choose|k: int| i <= k < fields.len() && #[trigger] fields[k].0 == name;
        assert(k != i);
        lemma_first_named(fields, name, i + 1);
    }
}

/// A property an assignment can name lies inside the buffer.
#[verifier::spinoff_prover]
pub proof fn lemma_resolve_fits(fields: Seq<crate::schema::PropView>, len: int, name: Seq<char>)
    requires
        crate::schema::all_fit(fields, len),
    ensures
        crate::assign::resolve(fields, len, name) matches Some(f) ==> crate::schema::fits(f, len),
{
    lemma_found(fields, name);
    match crate::assign::find_field(fields, name) {
        Some(k) => {
            assert(crate::schema::fits(fields[k], len));
        },
        None => {
            if name.len() > 0 && name.last() == ']' {
                match crate::assign::rsplit_once(name, '[') {
                    Some((base, index_text)) => {
                        lemma_found(fields, base);
                        match spec_parse_number(index_text.drop_last()) {
                            Some(index) => {
                                if index <= usize::MAX && !(base == "byte"@ && index < len) {
                                    match crate::assign::find_field(fields, base) {
                                        Some(j) => {
                                            assert(crate::schema::fits(fields[j], len));
                                            let parent = fields[j];
                                            if parent.3 == Kind::Bitmask && index < parent.2 / 4 {
                                                assert(4 * index + 4 <= parent.2) by (nonlinear_arith)
                                                    requires index < parent.2 / 4, parent.2 >= 0;
                                            }
                                        },
                                        None => {},
                                    }
                                }
                            },
                            None => {},
                        }
                    },
                    None => {},
                }
            }
        },
    }
}

/// Whether byte `i` belongs to the property an assignment names.
pub open spec fn assigned_byte(fields: Seq<crate::schema::PropView>, len: int, a: Seq<char>, i: int) -> bool {
    match crate::values::split_once(a, '=') {
        Some((name, _)) => match crate::assign::resolve(fields, len, crate::assign::alias(name)) {
            Some(f) => f.1 <= i < f.1 + f.2,
            None => false,
        },
        None => false,
    }
}

/// An assignment changes only the bytes of the property it names: on success
/// the save keeps its length and every other byte its value; on failure
/// nothing is stored.
#[verifier::spinoff_prover]
#[verifier::rlimit(60)]
pub proof fn law_assignment_touches_only_its_property(
    bytes: Seq<u8>,
    kind: crate::format::SaveKind,
    fields: Seq<crate::schema::PropView>,
    shop: Seq<Seq<char>>,
    a: Seq<char>,
    float: Option<u32>,
)
    requires
        crate::schema::all_fit(fields, bytes.len() as int),
    ensures
        crate::assign::spec_assign(bytes, kind, fields, shop, a, float) matches Ok(b) ==> {
            &&& b.len() == bytes.len()
            &&& forall|i: int| 0 <= i < bytes.len() && !assigned_byte(fields, bytes.len() as int, a, i) ==> #[trigger] b[i] == bytes[i]
        },
{
    reveal(crate::assign::spec_assign);
    match crate::values::split_once(a, '=') {
        Some((name, value)) => {
            lemma_resolve_fits(fields, bytes.len() as int, crate::assign::alias(name));
            match crate::assign::resolve(fields, bytes.len() as int, crate::assign::alias(name)) {
                Some(f) => {
                    crate::values::lemma_field_value_len(kind, f, value, shop, float);
                    match crate::assign::spec_field_value(kind, f, value, shop, float) {
                        Some(v) => {
                            let b = bytes.take(f.1) + v + bytes.skip(f.1 + f.2);
                            assert(b.len() == bytes.len());
                            assert forall|i: int| 0 <= i < bytes.len() && !assigned_byte(fields, bytes.len() as int, a, i) implies #[trigger] b[i] == bytes[i] by {
                                if i < f.1 {
                                    assert(b[i] == bytes[i]);
                                } else {
                                    assert(i >= f.1 + f.2);
                                    assert(b[i] == bytes.skip(f.1 + f.2)[i - f.1 - f.2]);
                                }
                            }
                        },
                        None => {},
                    }
                },
                None => {},
            }
        },
        None => {},
    }
}


/// The absolute alias of byte `n`.
pub open spec fn byte_name(n: nat) -> Seq<char> {
    "byte["@ + crate::text::decimal(n) + "]"@
}

proof fn lemma_not_prefix(s: Seq<char>, p: Seq<char>)
    requires
        s.len() > 0,
        p.len() > 0,
        s[0] != p[0],
    ensures
        !crate::text::starts_with(s, p),
        s != p,
{
    if crate::text::starts_with(s, p) {
        assert(s.subrange(0, p.len() as int)[0] == s[0]);
    }
    if s == p {
        assert(s[0] == p[0]);
    }
}

proof fn lemma_not_infix(s: Seq<char>, p: Seq<char>)
    requires
        p.len() > 0,
        forall|i: int| 0 <= i < s.len() ==> s[i] != p[0],
    ensures
        !crate::text::contains_seq(s, p),
{
    if crate::text::contains_seq(s, p) {
        let i = choose|i: int| 0 <= i && i + p.len() <= s.len() && #[trigger] s.subrange(i, i + p.len()) == p;
        assert(s.subrange(i, i + p.len())[0] == s[i]);
    }
}

/// The characters of `byte[N]`: `byte[`, digits and `]`.
proof fn lemma_byte_name_chars(n: nat)
    ensures
        byte_name(n).len() >= 7,
        byte_name(n)[0] == 'b',
        byte_name(n)[4] == '[',
        byte_name(n).last() == ']',
        forall|i: int| 0 <= i < byte_name(n).len() ==> #[trigger] byte_name(n)[i] != '.' && byte_name(n)[i] != '_'
            && byte_name(n)[i] != '=' && (i != 4 ==> byte_name(n)[i] != '['),
{
    reveal_strlit("byte[");
    reveal_strlit("]");
    crate::roundtrip::lemma_decimal_digits(n);
    let d = crate::text::decimal(n);
    let s = byte_name(n);
    assert forall|i: int| 0 <= i < s.len() implies #[trigger] s[i] != '.' && s[i] != '_' && s[i] != '=' && (i != 4 ==> s[i] != '[') by {
        if 5 <= i < 5 + d.len() {
            assert(s[i] == d[i - 5]);
            assert(crate::parse::digit_value(d[i - 5]) < 10);
        }
    }
}

/// A `byte[N]` name has no named values.
proof fn lemma_byte_name_plain(n: nat)
    ensures
        crate::values::spec_enum_values(byte_name(n)) == (Seq::<(Seq<char>, u32)>::empty(), false),
        crate::assign::alias(byte_name(n)) == byte_name(n),
{
    reveal(crate::values::spec_enum_values);
    lemma_byte_name_chars(n);
    let s = byte_name(n);
    reveal_strlit("extra_unlocked_bits[");
    reveal_strlit("extra_purchased_bits[");
    reveal_strlit("shop_hint_purchased_bits[");
    reveal_strlit("shop_character_purchased_bits[");
    reveal_strlit("hint_completion_bits[");
    reveal_strlit("shop_gold_brick_purchased_bits");
    reveal_strlit("hub_build_flags");
    reveal_strlit("reward_flags");
    reveal_strlit("character_save[");
    reveal_strlit(".arcade_flags");
    reveal_strlit("episode_save[");
    reveal_strlit(".flags");
    reveal_strlit("suit_flags");
    reveal_strlit("options.store_pack_flags");
    reveal_strlit("options.store_bundle_flags");
    reveal_strlit("options.touch_controls");
    reveal_strlit("_use_saved_name");
    reveal_strlit("indy_unlocked");
    reveal_strlit(".completed[");
    reveal_strlit("area_save[");
    reveal_strlit("complete");
    reveal_strlit("red_brick_collected");
    reveal_strlit("options.music_enabled");
    reveal_strlit("options.dpad_locked");
    reveal_strlit("options_save.player1_rumble");
    reveal_strlit("options_save.player2_rumble");
    reveal_strlit("options_save.surround_sound");
    reveal_strlit("options_save.music_enabled");
    reveal_strlit("options_save.widescreen");
    reveal_strlit("save_version");
    reveal_strlit("field30_0x7c2c");
    reveal_strlit("field30_0x7c20");
    reveal_strlit("initial_store_pack_flags");
    reveal_strlit("field_0x7bf8");
    reveal_strlit("customizer.primary_name_unlocked");
    reveal_strlit("customizer.secondary_name_unlocked");
    lemma_not_prefix(s, "extra_unlocked_bits["@);
    lemma_not_prefix(s, "extra_purchased_bits["@);
    lemma_not_prefix(s, "shop_hint_purchased_bits["@);
    lemma_not_prefix(s, "shop_character_purchased_bits["@);
    lemma_not_prefix(s, "hint_completion_bits["@);
    lemma_not_prefix(s, "shop_gold_brick_purchased_bits"@);
    lemma_not_prefix(s, "hub_build_flags"@);
    lemma_not_prefix(s, "reward_flags"@);
    lemma_not_prefix(s, "character_save["@);
    lemma_not_infix(s, ".arcade_flags"@);
    lemma_not_prefix(s, "episode_save["@);
    lemma_not_prefix(s, "suit_flags"@);
    lemma_not_prefix(s, "options.store_pack_flags"@);
    lemma_not_prefix(s, "options.store_bundle_flags"@);
    lemma_not_prefix(s, "options.touch_controls"@);
    lemma_not_infix(s, "_use_saved_name"@);
    lemma_not_prefix(s, "indy_unlocked"@);
    lemma_not_infix(s, ".completed["@);
    lemma_not_prefix(s, "area_save["@);
    lemma_not_prefix(s, "options.music_enabled"@);
    lemma_not_prefix(s, "options.dpad_locked"@);
    lemma_not_prefix(s, "options_save.player1_rumble"@);
    lemma_not_prefix(s, "options_save.player2_rumble"@);
    lemma_not_prefix(s, "options_save.surround_sound"@);
    lemma_not_prefix(s, "options_save.music_enabled"@);
    lemma_not_prefix(s, "options_save.widescreen"@);
    lemma_not_prefix(s, "save_version"@);
    lemma_not_prefix(s, "field30_0x7c2c"@);
    lemma_not_prefix(s, "field30_0x7c20"@);
    lemma_not_prefix(s, "initial_store_pack_flags"@);
    lemma_not_prefix(s, "field_0x7bf8"@);
    lemma_not_prefix(s, "customizer.primary_name_unlocked"@);
    lemma_not_prefix(s, "customizer.secondary_name_unlocked"@);
}

/// The text before and after the last `[` of `byte[N]`.
proof fn lemma_byte_name_split(n: nat)
    ensures
        crate::assign::rsplit_once(byte_name(n), '[') == Some(("byte"@, crate::text::decimal(n) + "]"@)),
{
    reveal_strlit("byte[");
    reveal_strlit("byte");
    reveal_strlit("]");
    lemma_byte_name_chars(n);
    let s = byte_name(n);
    let i = choose|i: int| 0 <= i < s.len() && s[i] == '[' && forall|j: int| i < j < s.len() ==> s[j] != '[';
    assert(s[4] == '[' && forall|j: int| 4 < j < s.len() ==> s[j] != '[');
    if i != 4 {
        assert(s[i] != '[');
    }
    assert(s.take(4) =~= "byte"@);
    assert(s.skip(5) =~= crate::text::decimal(n) + "]"@);
}

/// Every byte of the save is addressable by its absolute alias `byte[N]`:
/// assigning a decimal value to it stores that byte and nothing else, unless a
/// property of that name other than the byte itself is listed.
#[verifier::spinoff_prover]
pub proof fn law_every_byte_is_addressable(
    bytes: Seq<u8>,
    kind: crate::format::SaveKind,
    fields: Seq<crate::schema::PropView>,
    shop: Seq<Seq<char>>,
    n: nat,
    b: u8,
)
    requires
        n < bytes.len(),
        n <= usize::MAX,
        crate::assign::find_field(fields, byte_name(n)) matches Some(k) ==> fields[k] == (byte_name(n), n as int, 1int, Kind::Unsigned),
    ensures
        crate::assign::spec_assign(bytes, kind, fields, shop, byte_name(n) + "="@ + crate::text::decimal(b as nat), None)
            == Ok::<Seq<u8>, crate::assign::ErrorView>(bytes.update(n as int, b)),
{
    reveal(crate::assign::spec_assign);
    reveal_strlit("byte");
    reveal_strlit("]");
    let name = byte_name(n);
    let value = crate::text::decimal(b as nat);
    let f = (name, n as int, 1int, Kind::Unsigned);
    lemma_byte_name_chars(n);
    lemma_byte_name_plain(n);
    lemma_byte_name_split(n);
    crate::roundtrip::lemma_parse_decimal(n);
    let index_text = crate::text::decimal(n) + "]"@;
    assert(index_text.drop_last() =~= crate::text::decimal(n));
    assert(!crate::roundtrip::has_char(name, '=')) by {
        if crate::roundtrip::has_char(name, '=') {
            let i = choose|i: int| 0 <= i < name.len() && name[i] == '=';
            assert(name[i] != '=');
        }
    }
    crate::roundtrip::lemma_split_assignment(name, value);
    assert(crate::assign::resolve(fields, bytes.len() as int, name) == Some(f));
    let one = seq![b];
    crate::roundtrip::lemma_int_round_trip(one, false);
    assert(one.drop_last() =~= Seq::<u8>::empty());
    crate::roundtrip::lemma_le_value_small(one);
    assert(crate::assign::spec_field_value(kind, f, value, shop, None) == Some(one));
    assert(bytes.take(n as int) + one + bytes.skip(n as int + 1) =~= bytes.update(n as int, b));
}

} // verus!
