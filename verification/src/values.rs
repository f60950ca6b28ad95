//! Symbolic values: enumerations and flag names of integer properties, and
//! the bit names of the wide masks.
use vstd::prelude::*;
use crate::format::SaveKind;
use crate::names::{spec_extra_name, extra_name, spec_tutorial_hint_name, tutorial_hint_name};
use crate::parse::{radix_u64, parse_radix};
use crate::text::{decimal, push_decimal, starts_with, contains_seq, starts_with_str, contains_str, equals_str, sub_chars, same_text};
use crate::names::{split_chars, char_views};
use crate::parse::{parse_mask_number, le_value};

verus! {

/// The named values of an integer property, and whether they combine as flags.
pub struct EnumValues {
    pub values: Vec<(String, u32)>,
    pub flags: bool,
}

/// Views a list of named values.
pub open spec fn pair_views(v: Seq<(String, u32)>) -> Seq<(Seq<char>, u32)> {
    v.map_values(|p: (String, u32)| (p.0@, p.1))
}

impl View for EnumValues {
    type V = (Seq<(Seq<char>, u32)>, bool);

    open spec fn view(&self) -> (Seq<(Seq<char>, u32)>, bool) {
        (pair_views(self.values@), self.flags)
    }
}

fn push_pair(values: &mut Vec<(String, u32)>, name: &str, value: u32)
    ensures
        pair_views(final(values)@) == pair_views(old(values)@).push((name@, value)),
{
    let ghost before = values@;
    values.push((String::from_str(name), value));
    assert(pair_views(values@) =~= pair_views(before).push((name@, value)));
}

pub open spec fn spec_hub_build_values() -> Seq<(Seq<char>, u32)> {
    seq![
        ("NONE"@, 0x0u32),
        ("BUILD_0"@, 0x1u32),
        ("BUILD_1"@, 0x2u32),
        ("BUILD_2"@, 0x4u32),
        ("BUILD_3"@, 0x8u32),
        ("BUILD_4"@, 0x10u32),
        ("BUILD_5"@, 0x20u32),
        ("BUILD_6"@, 0x40u32),
        ("LEVEL_BUILD"@, 0x80u32),
    ]
}

fn hub_build_values() -> (res: EnumValues)
    ensures
        res@ == (spec_hub_build_values(), true),
{
    let mut values: Vec<(String, u32)> = Vec::new();
    push_pair(&mut values, "NONE", 0x0);
    push_pair(&mut values, "BUILD_0", 0x1);
    push_pair(&mut values, "BUILD_1", 0x2);
    push_pair(&mut values, "BUILD_2", 0x4);
    push_pair(&mut values, "BUILD_3", 0x8);
    push_pair(&mut values, "BUILD_4", 0x10);
    push_pair(&mut values, "BUILD_5", 0x20);
    push_pair(&mut values, "BUILD_6", 0x40);
    push_pair(&mut values, "LEVEL_BUILD", 0x80);
    assert(pair_views(values@) =~= spec_hub_build_values());
    EnumValues { values, flags: true }
}

pub open spec fn spec_reward_values() -> Seq<(Seq<char>, u32)> {
    seq![
        ("NONE"@, 0x0u32),
        ("100_PERCENT"@, 0x1u32),
        ("ALL_GOLD_BRICKS"@, 0x2u32),
    ]
}

fn reward_values() -> (res: EnumValues)
    ensures
        res@ == (spec_reward_values(), true),
{
    let mut values: Vec<(String, u32)> = Vec::new();
    push_pair(&mut values, "NONE", 0x0);
    push_pair(&mut values, "100_PERCENT", 0x1);
    push_pair(&mut values, "ALL_GOLD_BRICKS", 0x2);
    assert(pair_views(values@) =~= spec_reward_values());
    EnumValues { values, flags: true }
}

pub open spec fn spec_character_values() -> Seq<(Seq<char>, u32)> {
    seq![
        ("NONE"@, 0x0u32),
        ("AVAILABLE"@, 0x1u32),
        ("UNLOCKED"@, 0x2u32),
    ]
}

fn character_values() -> (res: EnumValues)
    ensures
        res@ == (spec_character_values(), true),
{
    let mut values: Vec<(String, u32)> = Vec::new();
    push_pair(&mut values, "NONE", 0x0);
    push_pair(&mut values, "AVAILABLE", 0x1);
    push_pair(&mut values, "UNLOCKED", 0x2);
    assert(pair_views(values@) =~= spec_character_values());
    EnumValues { values, flags: true }
}

pub open spec fn spec_arcade_values() -> Seq<(Seq<char>, u32)> {
    seq![
        ("NONE"@, 0x0u32),
        ("BATTLE"@, 0x1u32),
        ("COLLECT"@, 0x2u32),
        ("HUNT"@, 0x4u32),
    ]
}

fn arcade_values() -> (res: EnumValues)
    ensures
        res@ == (spec_arcade_values(), true),
{
    let mut values: Vec<(String, u32)> = Vec::new();
    push_pair(&mut values, "NONE", 0x0);
    push_pair(&mut values, "BATTLE", 0x1);
    push_pair(&mut values, "COLLECT", 0x2);
    push_pair(&mut values, "HUNT", 0x4);
    assert(pair_views(values@) =~= spec_arcade_values());
    EnumValues { values, flags: true }
}

pub open spec fn spec_episode_values() -> Seq<(Seq<char>, u32)> {
    seq![
        ("NONE"@, 0x0u32),
        ("SUPERSTORY_COMPLETE"@, 0x1u32),
    ]
}

fn episode_values() -> (res: EnumValues)
    ensures
        res@ == (spec_episode_values(), true),
{
    let mut values: Vec<(String, u32)> = Vec::new();
    push_pair(&mut values, "NONE", 0x0);
    push_pair(&mut values, "SUPERSTORY_COMPLETE", 0x1);
    assert(pair_views(values@) =~= spec_episode_values());
    EnumValues { values, flags: true }
}

pub open spec fn spec_suit_values() -> Seq<(Seq<char>, u32)> {
    seq![
        ("NONE"@, 0x0u32),
        ("SHADOW"@, 0x1u32),
        ("GLIDE"@, 0x2u32),
        ("DEMOLITION"@, 0x4u32),
        ("SONAR"@, 0x8u32),
        ("WATER"@, 0x10u32),
        ("TECHNOLOGY"@, 0x20u32),
        ("MAGNET"@, 0x40u32),
        ("ATTRACT"@, 0x80u32),
        ("ALL"@, 0xffffffffu32),
    ]
}

fn suit_values() -> (res: EnumValues)
    ensures
        res@ == (spec_suit_values(), true),
{
    let mut values: Vec<(String, u32)> = Vec::new();
    push_pair(&mut values, "NONE", 0x0);
    push_pair(&mut values, "SHADOW", 0x1);
    push_pair(&mut values, "GLIDE", 0x2);
    push_pair(&mut values, "DEMOLITION", 0x4);
    push_pair(&mut values, "SONAR", 0x8);
    push_pair(&mut values, "WATER", 0x10);
    push_pair(&mut values, "TECHNOLOGY", 0x20);
    push_pair(&mut values, "MAGNET", 0x40);
    push_pair(&mut values, "ATTRACT", 0x80);
    push_pair(&mut values, "ALL", 0xffffffff);
    assert(pair_views(values@) =~= spec_suit_values());
    EnumValues { values, flags: true }
}

pub open spec fn spec_store_pack_values() -> Seq<(Seq<char>, u32)> {
    seq![
        ("NONE"@, 0x0u32),
        ("EPISODE_II"@, 0x1u32),
        ("EPISODE_III"@, 0x2u32),
        ("EPISODE_IV"@, 0x4u32),
        ("EPISODE_V"@, 0x8u32),
        ("EPISODE_VI"@, 0x10u32),
        ("ARCADE"@, 0x20u32),
        ("BONUS"@, 0x40u32),
        ("BOUNTY"@, 0x80u32),
        ("CHALLENGE"@, 0x100u32),
        ("JEDI"@, 0x200u32),
        ("SITH"@, 0x400u32),
    ]
}

fn store_pack_values() -> (res: EnumValues)
    ensures
        res@ == (spec_store_pack_values(), true),
{
    let mut values: Vec<(String, u32)> = Vec::new();
    push_pair(&mut values, "NONE", 0x0);
    push_pair(&mut values, "EPISODE_II", 0x1);
    push_pair(&mut values, "EPISODE_III", 0x2);
    push_pair(&mut values, "EPISODE_IV", 0x4);
    push_pair(&mut values, "EPISODE_V", 0x8);
    push_pair(&mut values, "EPISODE_VI", 0x10);
    push_pair(&mut values, "ARCADE", 0x20);
    push_pair(&mut values, "BONUS", 0x40);
    push_pair(&mut values, "BOUNTY", 0x80);
    push_pair(&mut values, "CHALLENGE", 0x100);
    push_pair(&mut values, "JEDI", 0x200);
    push_pair(&mut values, "SITH", 0x400);
    assert(pair_views(values@) =~= spec_store_pack_values());
    EnumValues { values, flags: true }
}

pub open spec fn spec_store_bundle_values() -> Seq<(Seq<char>, u32)> {
    seq![
        ("NONE"@, 0x0u32),
        ("PREQUEL"@, 0x1u32),
        ("ORIGINAL"@, 0x2u32),
        ("COMPLETE"@, 0x4u32),
    ]
}

fn store_bundle_values() -> (res: EnumValues)
    ensures
        res@ == (spec_store_bundle_values(), true),
{
    let mut values: Vec<(String, u32)> = Vec::new();
    push_pair(&mut values, "NONE", 0x0);
    push_pair(&mut values, "PREQUEL", 0x1);
    push_pair(&mut values, "ORIGINAL", 0x2);
    push_pair(&mut values, "COMPLETE", 0x4);
    assert(pair_views(values@) =~= spec_store_bundle_values());
    EnumValues { values, flags: true }
}

pub open spec fn spec_touch_values() -> Seq<(Seq<char>, u32)> {
    seq![
        ("VIRTUAL_CONSOLE"@, 0x0u32),
        ("TOUCH"@, 0x1u32),
    ]
}

fn touch_values() -> (res: EnumValues)
    ensures
        res@ == (spec_touch_values(), false),
{
    let mut values: Vec<(String, u32)> = Vec::new();
    push_pair(&mut values, "VIRTUAL_CONSOLE", 0x0);
    push_pair(&mut values, "TOUCH", 0x1);
    assert(pair_views(values@) =~= spec_touch_values());
    EnumValues { values, flags: false }
}

pub open spec fn spec_naming_values() -> Seq<(Seq<char>, u32)> {
    seq![
        ("CHARACTER_DEFAULT"@, 0x0u32),
        ("SAVED_NAME"@, 0x1u32),
    ]
}

fn naming_values() -> (res: EnumValues)
    ensures
        res@ == (spec_naming_values(), false),
{
    let mut values: Vec<(String, u32)> = Vec::new();
    push_pair(&mut values, "CHARACTER_DEFAULT", 0x0);
    push_pair(&mut values, "SAVED_NAME", 0x1);
    assert(pair_views(values@) =~= spec_naming_values());
    EnumValues { values, flags: false }
}

pub open spec fn spec_completion_values() -> Seq<(Seq<char>, u32)> {
    seq![
        ("INCOMPLETE"@, 0x0u32),
        ("COMPLETE"@, 0x1u32),
    ]
}

fn completion_values() -> (res: EnumValues)
    ensures
        res@ == (spec_completion_values(), false),
{
    let mut values: Vec<(String, u32)> = Vec::new();
    push_pair(&mut values, "INCOMPLETE", 0x0);
    push_pair(&mut values, "COMPLETE", 0x1);
    assert(pair_views(values@) =~= spec_completion_values());
    EnumValues { values, flags: false }
}

pub open spec fn spec_switch_values() -> Seq<(Seq<char>, u32)> {
    seq![
        ("OFF"@, 0x0u32),
        ("ON"@, 0x1u32),
    ]
}

fn switch_values() -> (res: EnumValues)
    ensures
        res@ == (spec_switch_values(), false),
{
    let mut values: Vec<(String, u32)> = Vec::new();
    push_pair(&mut values, "OFF", 0x0);
    push_pair(&mut values, "ON", 0x1);
    assert(pair_views(values@) =~= spec_switch_values());
    EnumValues { values, flags: false }
}


/// `NONE` and `BIT_0` through `BIT_31` as single-bit flags.
pub open spec fn spec_bit_values() -> Seq<(Seq<char>, u32)> {
    seq![("NONE"@, 0u32)] + Seq::new(32, |b: int| ("BIT_"@ + decimal(b as nat), 1u32 << (b as u32)))
}

fn bit_values() -> (res: EnumValues)
    ensures
        res@ == (spec_bit_values(), true),
{
    let mut values: Vec<(String, u32)> = Vec::new();
    push_pair(&mut values, "NONE", 0);
    let mut b: u32 = 0;
    while b < 32
        invariant
            b <= 32,
            pair_views(values@) == seq![("NONE"@, 0u32)] + Seq::new(b as nat, |k: int| ("BIT_"@ + decimal(k as nat), 1u32 << (k as u32))),
        decreases 32 - b,
    {
        let mut name = String::from_str("BIT_");
        push_decimal(&mut name, b as u64);
        let ghost before = values@;
        values.push((name, 1u32 << b));
        assert(pair_views(values@) =~= pair_views(before).push((name@, 1u32 << b)));
        assert(pair_views(values@) =~= seq![("NONE"@, 0u32)] + Seq::new((b + 1) as nat, |k: int| ("BIT_"@ + decimal(k as nat), 1u32 << (k as u32))));
        b = b + 1;
    }
    EnumValues { values, flags: true }
}

/// The text before and after the first `c`, when there is one.
pub open spec fn split_once(s: Seq<char>, c: char) -> Option<(Seq<char>, Seq<char>)> {
    if exists|i: int| 0 <= i < s.len() && s[i] == c {
        let i = choose|i: int| 0 <= i < s.len() && s[i] == c && forall|j: int| 0 <= j < i ==> s[j] != c;
        Some((s.take(i), s.skip(i + 1)))
    } else {
        None
    }
}

/// The position of the first `c`.
pub fn find_char(s: &[char], c: char) -> (res: Option<usize>)
    ensures
        match res {
            Some(i) => i < s@.len() && s@[i as int] == c && forall|j: int| 0 <= j < i ==> s@[j] != c,
            None => forall|j: int| 0 <= j < s@.len() ==> s@[j] != c,
        },
        match split_once(s@, c) {
            Some((a, b)) => res matches Some(i) && a == s@.take(i as int) && b == s@.skip(i + 1),
            None => res is None,
        },
{
    let mut i: usize = 0;
    while i < s.len()
        invariant
            i <= s@.len(),
            forall|j: int| 0 <= j < i ==> s@[j] != c,
        decreases s@.len() - i,
    {
        if s[i] == c {
            proof {
                let k = choose|k: int| 0 <= k < s@.len() && s@[k] == c && forall|j: int| 0 <= j < k ==> s@[j] != c;
                if k < i {
                    assert(s@[k] != c);
                }
                if k > i {
                    assert(s@[i as int] != c);
                }
            }
            return Some(i);
        }
        i = i + 1;
    }
    None
}

/// The word index written between the first `[` and the next `]` of a property
/// name, read as a decimal `usize`; zero when there is none.
pub open spec fn word_index(name: Seq<char>) -> int {
    match split_once(name, '[') {
        Some((_, rest)) => match split_once(rest, ']') {
            Some((v, _)) => match radix_u64(v, 10) {
                Some(n) => if n <= usize::MAX { n as int } else { 0 },
                None => 0,
            },
            None => 0,
        },
        None => 0,
    }
}

/// `NONE` and the extras of one 32-bit word of an extras mask.
pub open spec fn spec_extras_values(word: int) -> Seq<(Seq<char>, u32)> {
    let first = word * 32;
    let count = if first >= 44 { 0 } else if first + 32 <= 44 { 32 } else { 44 - first };
    seq![("NONE"@, 0u32)] + Seq::new(count as nat, |k: int| (spec_extra_name(first + k).unwrap(), 1u32 << (k as u32)))
}

fn word_of(name: &[char]) -> (res: usize)
    ensures
        res == word_index(name@),
{
    let _n = name.len();
    match find_char(name, '[') {
        Some(i) => {
            let rest = sub_chars(name, i + 1, name.len());
            assert(rest@ =~= name@.skip(i + 1));
            match find_char(rest.as_slice(), ']') {
                Some(j) => {
                    let value = sub_chars(rest.as_slice(), 0, j);
                    assert(value@ =~= rest@.take(j as int));
                    assert(value@.skip(0) =~= value@);
                    match parse_radix(value.as_slice(), 0, 10) {
                        Some(n) => if n <= usize::MAX as u64 { n as usize } else { 0 },
                        None => 0,
                    }
                },
                None => 0,
            }
        },
        None => 0,
    }
}

fn extras_values(word: usize) -> (res: EnumValues)
    ensures
        res@ == (spec_extras_values(word as int), true),
{
    let mut values: Vec<(String, u32)> = Vec::new();
    push_pair(&mut values, "NONE", 0);
    let first: usize = if word >= 2 { 64 } else { word * 32 };
    let count: usize = if first >= 44 { 0 } else if first + 32 <= 44 { 32 } else { 44 - first };
    let ghost spec_count = if word * 32 >= 44 { 0 } else if word * 32 + 32 <= 44 { 32int } else { 44 - word * 32 };
    assert(count == spec_count);
    let mut k: usize = 0;
    while k < count
        invariant
            k <= count,
            count <= 32,
            first + count <= 64,
            word < 2 ==> first == word * 32,
            count > 0 ==> first + count <= 44 && first == word * 32,
            pair_views(values@) == seq![("NONE"@, 0u32)] + Seq::new(k as nat, |j: int| (spec_extra_name(word * 32 + j).unwrap(), 1u32 << (j as u32))),
        decreases count - k,
    {
        let name = extra_name(first + k).unwrap();
        let ghost before = values@;
        values.push((String::from_str(name), 1u32 << (k as u32)));
        assert(pair_views(values@) =~= pair_views(before).push((name@, 1u32 << (k as u32))));
        assert(pair_views(values@) =~= seq![("NONE"@, 0u32)] + Seq::new((k + 1) as nat, |j: int| (spec_extra_name(word * 32 + j).unwrap(), 1u32 << (j as u32))));
        k = k + 1;
    }
    EnumValues { values, flags: true }
}

/// Whether a name is one of the on/off switches.
pub open spec fn is_switch(name: Seq<char>) -> bool {
    name == "options.music_enabled"@ || name == "options.dpad_locked"@ || name
        == "options_save.player1_rumble"@ || name == "options_save.player2_rumble"@ || name
        == "options_save.surround_sound"@ || name == "options_save.music_enabled"@ || name
        == "options_save.widescreen"@
}

/// The named values of the integer property `name`, and whether they are flags.
#[verifier::opaque]
pub open spec fn spec_enum_values(name: Seq<char>) -> (Seq<(Seq<char>, u32)>, bool) {
    if starts_with(name, "extra_unlocked_bits["@) || starts_with(name, "extra_purchased_bits["@) {
        (spec_extras_values(word_index(name)), true)
    } else if starts_with(name, "shop_hint_purchased_bits["@) || starts_with(name, "shop_character_purchased_bits["@)
        || starts_with(name, "hint_completion_bits["@) || name == "shop_gold_brick_purchased_bits"@ {
        (spec_bit_values(), true)
    } else if name == "hub_build_flags"@ {
        (spec_hub_build_values(), true)
    } else if name == "reward_flags"@ {
        (spec_reward_values(), true)
    } else if starts_with(name, "character_save["@) {
        (spec_character_values(), true)
    } else if contains_seq(name, ".arcade_flags"@) {
        (spec_arcade_values(), true)
    } else if starts_with(name, "episode_save["@) && contains_seq(name, ".flags"@) {
        (spec_episode_values(), true)
    } else if name == "suit_flags"@ {
        (spec_suit_values(), true)
    } else if name == "options.store_pack_flags"@ {
        (spec_store_pack_values(), true)
    } else if name == "options.store_bundle_flags"@ {
        (spec_store_bundle_values(), true)
    } else if name == "options.touch_controls"@ {
        (spec_touch_values(), false)
    } else if contains_seq(name, "_use_saved_name"@) {
        (spec_naming_values(), false)
    } else if name == "indy_unlocked"@ || contains_seq(name, ".completed["@) || (starts_with(name, "area_save["@)
        && (contains_seq(name, "complete"@) || contains_seq(name, "red_brick_collected"@))) {
        (spec_completion_values(), false)
    } else if is_switch(name) {
        (spec_switch_values(), false)
    } else {
        (seq![], false)
    }
}

/// The named values of the integer property `name`, and whether they are flags.
pub fn enum_values(name: &[char]) -> (res: EnumValues)
    ensures
        res@ == spec_enum_values(name@),
{
    reveal(spec_enum_values);
    if starts_with_str(name, "extra_unlocked_bits[") || starts_with_str(name, "extra_purchased_bits[") {
        return extras_values(word_of(name));
    }
    if starts_with_str(name, "shop_hint_purchased_bits[") || starts_with_str(name, "shop_character_purchased_bits[")
        || starts_with_str(name, "hint_completion_bits[") || equals_str(name, "shop_gold_brick_purchased_bits") {
        return bit_values();
    }
    if equals_str(name, "hub_build_flags") {
        return hub_build_values();
    }
    if equals_str(name, "reward_flags") {
        return reward_values();
    }
    if starts_with_str(name, "character_save[") {
        return character_values();
    }
    if contains_str(name, ".arcade_flags") {
        return arcade_values();
    }
    if starts_with_str(name, "episode_save[") && contains_str(name, ".flags") {
        return episode_values();
    }
    if equals_str(name, "suit_flags") {
        return suit_values();
    }
    if equals_str(name, "options.store_pack_flags") {
        return store_pack_values();
    }
    if equals_str(name, "options.store_bundle_flags") {
        return store_bundle_values();
    }
    if equals_str(name, "options.touch_controls") {
        return touch_values();
    }
    if contains_str(name, "_use_saved_name") {
        return naming_values();
    }
    if equals_str(name, "indy_unlocked") || contains_str(name, ".completed[") || (starts_with_str(name, "area_save[")
        && (contains_str(name, "complete") || contains_str(name, "red_brick_collected"))) {
        return completion_values();
    }
    if equals_str(name, "options.music_enabled") || equals_str(name, "options.dpad_locked")
        || equals_str(name, "options_save.player1_rumble") || equals_str(name, "options_save.player2_rumble")
        || equals_str(name, "options_save.surround_sound") || equals_str(name, "options_save.music_enabled")
        || equals_str(name, "options_save.widescreen") {
        return switch_values();
    }
    let values: Vec<(String, u32)> = Vec::new();
    assert(pair_views(values@) =~= seq![]);
    EnumValues { values, flags: false }
}

/// The label of a hint-completion bank: console and touch for Android saves,
/// numbered banks otherwise.
pub open spec fn bank_label(kind: SaveKind, bank: int) -> Seq<char> {
    if kind is AndroidGame {
        if bank == 0 { "console"@ } else { "touch"@ }
    } else {
        if bank == 0 { "bank0"@ } else { "bank1"@ }
    }
}

/// The name of bit `bit` of the wide mask `field` of `size` bytes, given the
/// release's shop-entry names.
#[verifier::opaque]
pub open spec fn spec_bit_name(kind: SaveKind, field: Seq<char>, size: int, shop: Seq<Seq<char>>, bit: int) -> Seq<char> {
    let default = "BIT_"@ + decimal(bit as nat);
    if field == "shop_character_purchased_bits"@ {
        if bit < shop.len() { shop[bit] } else { default }
    } else if field == "extra_unlocked_bits"@ || field == "extra_purchased_bits"@ {
        if bit < 44 {
            spec_extra_name(bit).unwrap()
        } else if kind is WindowsGame && bit == 44 {
            "adaptivedifficulty"@
        } else {
            default
        }
    } else if field == "hint_completion_bits"@ {
        let bank_bits = size * 8 / 2;
        if bit % bank_bits < 54 {
            bank_label(kind, bit / bank_bits) + "."@ + spec_tutorial_hint_name(bit % bank_bits).unwrap()
        } else {
            default
        }
    } else if field == "shop_gold_brick_purchased_bits"@ && bit < 14 {
        "GOLD_BRICK_"@ + decimal(bit as nat)
    } else {
        default
    }
}

/// The names of every bit of a wide mask, lowest bit first.
pub open spec fn spec_bit_names(kind: SaveKind, field: Seq<char>, size: int, shop: Seq<Seq<char>>) -> Seq<Seq<char>> {
    Seq::new((size * 8) as nat, |b: int| spec_bit_name(kind, field, size, shop, b))
}

/// `prefix` followed by the decimal rendering of `n`.
fn numbered(prefix: &str, n: usize) -> (res: String)
    ensures
        res@ == prefix@ + decimal(n as nat),
{
    let mut s = String::from_str(prefix);
    push_decimal(&mut s, n as u64);
    s
}

fn bit_name(kind: SaveKind, field: &[char], size: usize, shop: &Vec<String>, bit: usize) -> (res: String)
    requires
        size * 8 <= usize::MAX,
        bit < size * 8,
    ensures
        res@ == spec_bit_name(kind, field@, size as int, crate::names::string_views(shop@), bit as int),
{
    reveal(spec_bit_name);
    if equals_str(field, "shop_character_purchased_bits") {
        if bit < shop.len() {
            assert(shop@[bit as int]@ == crate::names::string_views(shop@)[bit as int]);
            return shop[bit].clone();
        }
        return numbered("BIT_", bit);
    }
    if equals_str(field, "extra_unlocked_bits") || equals_str(field, "extra_purchased_bits") {
        if bit < 44 {
            return String::from_str(extra_name(bit).unwrap());
        }
        if kind == SaveKind::WindowsGame && bit == 44 {
            return String::from_str("adaptivedifficulty");
        }
        return numbered("BIT_", bit);
    }
    if equals_str(field, "hint_completion_bits") {
        let bank_bits = size * 8 / 2;
        let index = bit % bank_bits;
        if index < 54 {
            let bank = bit / bank_bits;
            let mut s = if kind == SaveKind::AndroidGame {
                if bank == 0 { String::from_str("console") } else { String::from_str("touch") }
            } else {
                if bank == 0 { String::from_str("bank0") } else { String::from_str("bank1") }
            };
            s.append(".");
            s.append(tutorial_hint_name(index).unwrap());
            return s;
        }
        return numbered("BIT_", bit);
    }
    if equals_str(field, "shop_gold_brick_purchased_bits") && bit < 14 {
        return numbered("GOLD_BRICK_", bit);
    }
    numbered("BIT_", bit)
}

/// The names of every bit of a wide mask, lowest bit first.
pub fn bit_names(kind: SaveKind, field: &[char], size: usize, shop: &Vec<String>) -> (res: Vec<String>)
    requires
        size * 8 <= usize::MAX,
    ensures
        crate::names::string_views(res@) == spec_bit_names(kind, field@, size as int, crate::names::string_views(shop@)),
{
    let mut names: Vec<String> = Vec::new();
    let mut b: usize = 0;
    while b < size * 8
        invariant
            size * 8 <= usize::MAX,
            b <= size * 8,
            crate::names::string_views(names@) == spec_bit_names(kind, field@, size as int, crate::names::string_views(shop@)).take(b as int),
        decreases size * 8 - b,
    {
        let name = bit_name(kind, field, size, shop, b);
        let ghost before = names@;
        names.push(name);
        assert(crate::names::string_views(names@) =~= crate::names::string_views(before).push(name@));
        assert(crate::names::string_views(names@) =~= spec_bit_names(kind, field@, size as int, crate::names::string_views(shop@)).take(b + 1));
        b = b + 1;
    }
    assert(spec_bit_names(kind, field@, size as int, crate::names::string_views(shop@)).take(b as int) =~= spec_bit_names(kind, field@, size as int, crate::names::string_views(shop@)));
    names
}

/// `n` zero bytes.
pub open spec fn zeros(n: nat) -> Seq<u8> {
    Seq::new(n, |i: int| 0u8)
}

/// The `size` bytes of a mask with only bit `bit` set.
pub open spec fn single_bit(bit: int, size: nat) -> Seq<u8> {
    Seq::new(size, |i: int| if i == bit / 8 { 1u8 << ((bit % 8) as u8) } else { 0u8 })
}

/// Byte-wise bitwise or.
pub open spec fn or_bytes(a: Seq<u8>, b: Seq<u8>) -> Seq<u8> {
    Seq::new(a.len(), |i: int| a[i] | b[i])
}

/// Whether `token` names bit `b`, by its name or as `BIT_b`.
pub open spec fn names_bit(names: Seq<Seq<char>>, token: Seq<char>, b: int) -> bool {
    token == names[b] || token == "BIT_"@ + decimal(b as nat)
}

/// The lowest bit that `token` names.
pub open spec fn token_bit(names: Seq<Seq<char>>, token: Seq<char>) -> Option<int> {
    if exists|b: int| 0 <= b < names.len() && #[trigger] names_bit(names, token, b) {
        Some(choose|b: int| 0 <= b < names.len() && names_bit(names, token, b) && forall|c: int| 0 <= c < b ==> !#[trigger] names_bit(names, token, c))
    } else {
        None
    }
}

/// The mask bits one `|`-separated token contributes: none for `NONE`, a
/// named bit, or a decimal or `0x` number that fits the mask.
pub open spec fn token_mask(token: Seq<char>, names: Seq<Seq<char>>, size: nat) -> Option<Seq<u8>> {
    if token == "NONE"@ {
        Some(zeros(size))
    } else {
        match token_bit(names, token) {
            Some(b) => Some(single_bit(b, size)),
            None => match crate::parse::spec_mask_number(token, size) {
                Some(v) => Some(crate::parse::le_bytes(v, size)),
                None => None,
            },
        }
    }
}

/// The mask a sequence of tokens spells, or nothing if a token is invalid.
pub open spec fn mask_fold(tokens: Seq<Seq<char>>, names: Seq<Seq<char>>, size: nat) -> Option<Seq<u8>>
    decreases tokens.len(),
{
    if tokens.len() == 0 {
        Some(zeros(size))
    } else {
        match (mask_fold(tokens.drop_last(), names, size), token_mask(tokens.last(), names, size)) {
            (Some(a), Some(t)) => Some(or_bytes(a, t)),
            _ => None,
        }
    }
}

/// The mask an assignment value spells: tokens joined with `|`.
pub open spec fn spec_mask_value(value: Seq<char>, names: Seq<Seq<char>>, size: nat) -> Option<Seq<u8>> {
    mask_fold(crate::names::split_on(value, '|'), names, size)
}

proof fn lemma_mask_fold_len(tokens: Seq<Seq<char>>, names: Seq<Seq<char>>, size: nat)
    ensures
        mask_fold(tokens, names, size) matches Some(m) ==> m.len() == size,
    decreases tokens.len(),
{
    if tokens.len() > 0 {
        lemma_mask_fold_len(tokens.drop_last(), names, size);
    }
}

proof fn lemma_mask_fold_none(ts: Seq<Seq<char>>, n: int, names: Seq<Seq<char>>, size: nat)
    requires
        0 <= n <= ts.len(),
        mask_fold(ts.take(n), names, size) is None,
    ensures
        mask_fold(ts.take(ts.len() as int), names, size) is None,
    decreases ts.len() - n,
{
    if n < ts.len() {
        assert(ts.take(n + 1).drop_last() =~= ts.take(n));
        lemma_mask_fold_none(ts, n + 1, names, size);
    }
}

/// The lowest bit `token` names.
fn find_bit(token: &[char], names: &Vec<String>) -> (res: Option<usize>)
    ensures
        match res {
            Some(b) => token_bit(crate::names::string_views(names@), token@) == Some(b as int) && b < names@.len(),
            None => token_bit(crate::names::string_views(names@), token@) is None,
        },
{
    let ghost ns = crate::names::string_views(names@);
    let mut b: usize = 0;
    while b < names.len()
        invariant
            b <= names@.len(),
            ns == crate::names::string_views(names@),
            forall|c: int| 0 <= c < b ==> !#[trigger] names_bit(ns, token@, c),
        decreases names@.len() - b,
    {
        assert(names@[b as int]@ == ns[b as int]);
        let label = numbered("BIT_", b);
        if same_text(token, &names[b]) || same_text(token, &label) {
            assert(names_bit(ns, token@, b as int));
            proof {
                let k = choose|k: int| 0 <= k < ns.len() && names_bit(ns, token@, k) && forall|c: int| 0 <= c < k ==> !#[trigger] names_bit(ns, token@, c);
                if k < b {
                    assert(!names_bit(ns, token@, k));
                }
                if k > b {
                    assert(!names_bit(ns, token@, b as int));
                }
            }
            return Some(b);
        }
        b = b + 1;
    }
    None
}

/// Views an optional byte vector.
pub open spec fn opt_bytes(o: Option<Vec<u8>>) -> Option<Seq<u8>> {
    match o {
        Some(v) => Some(v@),
        None => None,
    }
}

/// Ors the bits one token spells into `result`; false when the token is invalid.
fn apply_token(result: &mut Vec<u8>, token: &[char], names: &Vec<String>, size: usize) -> (ok: bool)
    requires
        4 <= size <= 24,
        names@.len() == size * 8,
        old(result)@.len() == size,
    ensures
        match token_mask(token@, crate::names::string_views(names@), size as nat) {
            Some(t) => ok && final(result)@ == or_bytes(old(result)@, t),
            None => !ok,
        },
{
    let ghost ns = crate::names::string_views(names@);
    let ghost acc = result@;
    if equals_str(token, "NONE") {
        assert(or_bytes(acc, zeros(size as nat)) =~= acc) by {
            assert forall|i: int| 0 <= i < acc.len() implies (acc[i] | 0u8) == acc[i] by {
                let x = acc[i];
                assert((x | 0u8) == x) by (bit_vector);
            }
        }
        assert(token_mask(token@, ns, size as nat) == Some(zeros(size as nat)));
        return true;
    }
    match find_bit(token, names) {
        Some(b) => {
            let byte = b / 8;
            let shift = (b % 8) as u8;
            let old_byte = result[byte];
            result.set(byte, old_byte | (1u8 << shift));
            assert(result@ =~= or_bytes(acc, single_bit(b as int, size as nat))) by {
                assert forall|i: int| 0 <= i < size implies #[trigger] result@[i] == (acc[i] | single_bit(b as int, size as nat)[i]) by {
                    if i != byte {
                        let x = acc[i];
                        assert((x | 0u8) == x) by (bit_vector);
                    }
                }
            }
            assert(token_mask(token@, ns, size as nat) == Some(single_bit(b as int, size as nat)));
            true
        },
        None => {
            match parse_mask_number(token, size) {
                Some(part) => {
                    proof {
                        crate::parse::lemma_le_bytes_of_value(part@);
                    }
                    let mut i: usize = 0;
                    while i < size
                        invariant
                            i <= size,
                            result@.len() == size,
                            acc.len() == size,
                            part@.len() == size,
                            forall|j: int| 0 <= j < i ==> result@[j] == (acc[j] | part@[j]),
                            forall|j: int| i <= j < size ==> result@[j] == acc[j],
                        decreases size - i,
                    {
                        let x = result[i] | part[i];
                        result.set(i, x);
                        i = i + 1;
                    }
                    assert(result@ =~= or_bytes(acc, part@));
                    proof {
                        let v = crate::parse::spec_mask_number(token@, size as nat).unwrap();
                        assert(le_value(part@) == v);
                        assert(part@ == crate::parse::le_bytes(v, size as nat));
                        assert(token_mask(token@, ns, size as nat) == Some(part@));
                    }
                    true
                },
                None => false,
            }
        },
    }
}

/// The mask bytes an assignment value spells for a mask with the given bit names.
pub fn assign_mask(value: &[char], names: &Vec<String>, size: usize) -> (res: Option<Vec<u8>>)
    requires
        4 <= size <= 24,
        names@.len() == size * 8,
    ensures
        opt_bytes(res) == spec_mask_value(value@, crate::names::string_views(names@), size as nat),
{
    let ghost ns = crate::names::string_views(names@);
    let tokens = split_chars(value, '|');
    let ghost ts = char_views(tokens@);
    let mut result: Vec<u8> = vec![0u8; size];
    assert(result@ =~= zeros(size as nat));
    assert(ts.take(0) =~= Seq::<Seq<char>>::empty());
    let mut k: usize = 0;
    while k < tokens.len()
        invariant
            4 <= size <= 24,
            k <= tokens@.len(),
            ts == char_views(tokens@),
            ts == crate::names::split_on(value@, '|'),
            ns == crate::names::string_views(names@),
            names@.len() == size * 8,
            result@.len() == size,
            mask_fold(ts.take(k as int), ns, size as nat) == Some(result@),
        decreases tokens@.len() - k,
    {
        let ghost t = ts[k as int];
        assert(tokens@[k as int]@ == t);
        assert(ts.take(k + 1).drop_last() =~= ts.take(k as int));
        assert(ts.take(k + 1).last() == t);
        if !apply_token(&mut result, tokens[k].as_slice(), names, size) {
            proof {
                assert(mask_fold(ts.take(k + 1), ns, size as nat) is None);
                lemma_mask_fold_none(ts, k + 1, ns, size as nat);
                assert(ts.take(ts.len() as int) =~= ts);
            }
            return None;
        }
        proof {
            lemma_mask_fold_len(ts.take(k + 1), ns, size as nat);
        }
        k = k + 1;
    }
    assert(ts.take(k as int) =~= ts);
    Some(result)
}

proof fn lemma_mask_fold_len_ok(tokens: Seq<Seq<char>>, names: Seq<Seq<char>>, size: nat)
    ensures
        mask_fold(tokens, names, size) matches Some(m) ==> m.len() == size,
    decreases tokens.len(),
{
    if tokens.len() > 0 {
        lemma_mask_fold_len_ok(tokens.drop_last(), names, size);
    }
}

/// A value a field accepts has exactly the field's size.
pub proof fn lemma_field_value_len(kind: SaveKind, f: crate::schema::PropView, value: Seq<char>, shop: Seq<Seq<char>>, float: Option<u32>)
    requires
        crate::schema::well_kinded(f.2, f.3),
    ensures
        crate::assign::spec_field_value(kind, f, value, shop, float) matches Some(v) ==> v.len() == f.2,
{
    match f.3 {
        crate::schema::Kind::Bitmask => {
            lemma_mask_fold_len_ok(crate::names::split_on(value, '|'), spec_bit_names(kind, f.0, f.2, shop), f.2 as nat);
        },
        crate::schema::Kind::Bytes => {
            if crate::text::starts_with(value, "text:"@) {
            } else if crate::text::starts_with(value, "hex:"@) {
            }
        },
        _ => {},
    }
}

} // verus!
