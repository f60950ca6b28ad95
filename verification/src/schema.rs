//! The editable property schema: names, offsets, sizes and kinds of every
//! stored value.
use vstd::prelude::*;
use crate::format::{HEADER_SIZE, OPTIONS_SIZE, ANDROID_GAME_SIZE, WINDOWS_GAME_SIZE, Save};
use crate::text::{decimal, push_decimal};

verus! {

/// How a property's bytes are interpreted.
#[derive(Clone, Copy, Debug, PartialEq, Eq, Structural)]
pub enum Kind {
    Unsigned,
    Signed,
    Float,
    Bytes,
    Bitmask,
}

/// A named, typed range of save bytes.
#[derive(Clone, Debug)]
pub struct Property {
    pub name: String,
    pub offset: usize,
    pub size: usize,
    pub kind: Kind,
}

/// A property as name, offset, size and kind.
pub type PropView = (Seq<char>, int, int, Kind);

pub open spec fn pv(name: Seq<char>, offset: int, size: int, kind: Kind) -> PropView {
    (name, offset, size, kind)
}

impl View for Property {
    type V = PropView;

    open spec fn view(&self) -> PropView {
        (self.name@, self.offset as int, self.size as int, self.kind)
    }
}

/// The views of a list of properties.
pub open spec fn views(v: Seq<Property>) -> Seq<PropView> {
    v.map_values(|p: Property| p@)
}

/// The sizes each kind of property can have.
pub open spec fn well_kinded(size: int, kind: Kind) -> bool {
    match kind {
        Kind::Unsigned | Kind::Signed => size == 1 || size == 2 || size == 4,
        Kind::Float => size == 4,
        Kind::Bytes => size >= 1,
        Kind::Bitmask => 4 <= size <= 24 && size % 4 == 0,
    }
}

/// A wide mask, or a property of at most four bytes, or one without named
/// flags: its set bits can each be named as a 32-bit flag.
pub open spec fn flag_width_ok(p: PropView) -> bool {
    p.3 is Bitmask || p.2 <= 4 || !(crate::values::spec_enum_values(p.0).1 && crate::values::spec_enum_values(p.0).0.len() > 0)
}

/// A property lies inside a buffer of `len` bytes, has a size its kind
/// allows, and names its set bits as 32-bit flags only when it has at most
/// four bytes.
pub open spec fn fits(p: PropView, len: int) -> bool {
    0 <= p.1 && p.1 + p.2 <= len && well_kinded(p.2, p.3) && flag_width_ok(p)
}

pub open spec fn all_fit(s: Seq<PropView>, len: int) -> bool {
    forall|k: int| 0 <= k < s.len() ==> fits(#[trigger] s[k], len)
}

pub open spec fn header_props() -> Seq<PropView> {
    seq![
        pv("header.field0_0x0"@, 0x0, 4, Kind::Signed),
        pv("header.field1_0x4"@, 0x4, 4, Kind::Signed),
        pv("header.size"@, 0x8, 4, Kind::Signed),
        pv("header.field3_0xc"@, 0xc, 4, Kind::Signed),
        pv("header.field4_0x10"@, 0x10, 4, Kind::Signed),
        pv("header.extradata_offset"@, 0x14, 4, Kind::Signed),
        pv("header.field6_0x18"@, 0x18, 16, Kind::Bytes),
        pv("header.field7_0x28"@, 0x28, 2, Kind::Signed),
        pv("header.field8_0x2a"@, 0x2a, 2046, Kind::Bytes),
        pv("header.field9_0x828"@, 0x828, 2, Kind::Signed),
        pv("header.field10_0x82a"@, 0x82a, 2046, Kind::Bytes),
        pv("header.field11_0x1028"@, 0x1028, 2, Kind::Signed),
        pv("header.field12_0x102a"@, 0x102a, 2046, Kind::Bytes),
        pv("header.field13_0x1828"@, 0x1828, 2, Kind::Signed),
        pv("header.field14_0x182a"@, 0x182a, 2046, Kind::Bytes),
    ]
}

/// The opaque prefix between the header and the payload, when there is one.
pub open spec fn extra_props(payload: int) -> Seq<PropView> {
    if payload > HEADER_SIZE {
        seq![pv("extra_prefix"@, HEADER_SIZE as int, payload - HEADER_SIZE, Kind::Bytes)]
    } else {
        seq![]
    }
}

pub open spec fn game_fixed_props(base: int) -> Seq<PropView> {
    seq![
        pv("field_0x0"@, base + 0x0, 1, Kind::Unsigned),
        pv("difficulty"@, base + 0x1, 1, Kind::Unsigned),
        pv("field_0x2"@, base + 0x2, 2, Kind::Bytes),
        pv("shop_gold_brick_purchased_bits"@, base + 0x7bf8, 4, Kind::Bitmask),
        pv("shop_hint_purchased_bits"@, base + 0x7bd4, 12, Kind::Bitmask),
        pv("shop_character_purchased_bits"@, base + 0x7be0, 16, Kind::Bitmask),
        pv("extra_unlocked_bits"@, base + 0x7bf0, 8, Kind::Bitmask),
        pv("extra_purchased_bits"@, base + 0x7c00, 8, Kind::Bitmask),
        pv("hint_completion_bits"@, base + 0x7c08, 24, Kind::Bitmask),
        pv("suit_flags"@, base + 0x7bfc, 4, Kind::Unsigned),
        pv("level_save_padding"@, base + 0x7829, 3, Kind::Bytes),
    ]
}
pub open spec fn android_summary_props(summary: int) -> Seq<PropView> {
    seq![
        pv("coins"@, summary + 0x0, 4, Kind::Unsigned),
        pv("completion"@, summary + 0x4, 2, Kind::Unsigned),
        pv("gold_bricks"@, summary + 0x6, 1, Kind::Unsigned),
        pv("reward_flags"@, summary + 0x7, 1, Kind::Unsigned),
        pv("hub_build_flags"@, summary + 0x8, 1, Kind::Unsigned),
        pv("indy_unlocked"@, summary + 0x9, 1, Kind::Unsigned),
        pv("reserved_0x7c2a"@, summary + 0xa, 2, Kind::Bytes),
    ]
}

/// Offset of the part of a game payload that follows the Android progress summary.
pub open spec fn suffix_offset(base: int, android: bool) -> int {
    base + 0x7c20 + if android { 0xcint } else { 0int }
}

pub open spec fn suffix_props(suffix: int, android: bool) -> Seq<PropView> {
    seq![
        pv("gameplay_seconds"@, suffix, 4, Kind::Float),
        pv(if android { "field_0x7c9f"@ } else { "field_0x7c93"@ }, suffix + 0x73, 1, Kind::Unsigned),
    ]
}

pub open spec fn options_save_props(base: int) -> Seq<PropView> {
    seq![
        pv("options_save.player1_rumble"@, base + 0x4, 1, Kind::Unsigned),
        pv("options_save.player2_rumble"@, base + 0x5, 1, Kind::Unsigned),
        pv("options_save.surround_sound"@, base + 0x6, 1, Kind::Unsigned),
        pv("options_save.sound_volume"@, base + 0x7, 1, Kind::Unsigned),
        pv("options_save.music_volume"@, base + 0x8, 1, Kind::Unsigned),
        pv("options_save.master_volume"@, base + 0x9, 1, Kind::Unsigned),
        pv("options_save.music_enabled"@, base + 0xa, 1, Kind::Unsigned),
        pv("options_save.field7_0x7"@, base + 0xb, 1, Kind::Unsigned),
        pv("options_save.field8_0x8"@, base + 0xc, 1, Kind::Unsigned),
        pv("options_save.field9_0x9"@, base + 0xd, 1, Kind::Unsigned),
        pv("options_save.field10_0xa"@, base + 0xe, 1, Kind::Unsigned),
        pv("options_save.widescreen"@, base + 0xf, 1, Kind::Unsigned),
        pv("options_save.brightness"@, base + 0x10, 1, Kind::Unsigned),
    ]
}

pub open spec fn level_prefix(i: int) -> Seq<char> {
    "level_save["@ + decimal(i as nat) + "]."@
}

pub open spec fn minikit_name_prop(base: int, i: int, j: int) -> PropView {
    pv(level_prefix(i) + "minikit_names["@ + decimal(j as nat) + "]"@, base + 0x11 + 0x54 * i + 8 * j, 8, Kind::Bytes)
}

/// The thirteen properties of level record `i`.
pub open spec fn level_group(base: int, i: int) -> Seq<PropView> {
    Seq::new(10, |j: int| minikit_name_prop(base, i, j)) + seq![
        pv(level_prefix(i) + "minikit_count"@, base + 0x11 + 0x54 * i + 0x50, 1, Kind::Unsigned),
        pv(level_prefix(i) + "reserved_0x51"@, base + 0x11 + 0x54 * i + 0x51, 2, Kind::Bytes),
        pv(level_prefix(i) + "arcade_flags"@, base + 0x11 + 0x54 * i + 0x53, 1, Kind::Unsigned),
    ]
}

pub open spec fn mission_group(suffix: int, i: int) -> Seq<PropView> {
    seq![
        pv("mission_save.best_times["@ + decimal(i as nat) + "]"@, suffix + 0x74 + 4 * i, 4, Kind::Float),
        pv("mission_save.completed["@ + decimal(i as nat) + "]"@, suffix + 0xc4 + i, 1, Kind::Unsigned),
    ]
}

pub open spec fn character_prop(suffix: int, i: int) -> PropView {
    pv("character_save["@ + decimal(i as nat) + "]"@, suffix + 0xd8 + i, 1, Kind::Unsigned)
}

pub open spec fn area_prefix(i: int) -> Seq<char> {
    "area_save["@ + decimal(i as nat) + "]."@
}

/// The nine properties of area record `i`.
pub open spec fn area_group(base: int, i: int) -> Seq<PropView> {
    seq![
        pv(area_prefix(i) + "complete"@, base + 0x782c + 12 * i + 0, 1, Kind::Unsigned),
        pv(area_prefix(i) + "area_complete"@, base + 0x782c + 12 * i + 1, 1, Kind::Unsigned),
        pv(area_prefix(i) + "story_buildup_complete"@, base + 0x782c + 12 * i + 2, 1, Kind::Unsigned),
        pv(area_prefix(i) + "freeplay_buildup_complete"@, base + 0x782c + 12 * i + 3, 1, Kind::Unsigned),
        pv(area_prefix(i) + "minikit_complete"@, base + 0x782c + 12 * i + 4, 1, Kind::Unsigned),
        pv(area_prefix(i) + "minikit_count"@, base + 0x782c + 12 * i + 5, 1, Kind::Unsigned),
        pv(area_prefix(i) + "red_brick_collected"@, base + 0x782c + 12 * i + 6, 1, Kind::Unsigned),
        pv(area_prefix(i) + "reserved_0x7"@, base + 0x782c + 12 * i + 7, 1, Kind::Unsigned),
        pv(area_prefix(i) + "challenge_trial_time"@, base + 0x782c + 12 * i + 8, 4, Kind::Float),
    ]
}

pub open spec fn episode_prefix(i: int) -> Seq<char> {
    "episode_save["@ + decimal(i as nat) + "]."@
}

pub open spec fn episode_group(base: int, i: int) -> Seq<PropView> {
    seq![
        pv(episode_prefix(i) + "superstory_time_limit"@, base + 0x7b8c + 12 * i + 0, 4, Kind::Float),
        pv(episode_prefix(i) + "superstory_score_target"@, base + 0x7b8c + 12 * i + 4, 4, Kind::Signed),
        pv(episode_prefix(i) + "flags"@, base + 0x7b8c + 12 * i + 8, 4, Kind::Unsigned),
    ]
}

pub open spec fn piece_prop(custom: int, i: int) -> PropView {
    pv("customizer.pieces["@ + decimal(i as nat) + "]"@, custom + 2 * i, 2, Kind::Signed)
}

pub open spec fn secondary_piece_prop(custom: int, i: int) -> PropView {
    pv("customizer.secondary_pieces["@ + decimal(i as nat) + "]"@, custom + 0x38 + 2 * i, 2, Kind::Signed)
}

pub open spec fn customizer_fixed_props(custom: int) -> Seq<PropView> {
    seq![
        pv("customizer.field_0x12"@, custom + 0x12, 2, Kind::Bytes),
        pv("customizer.primary_name"@, custom + 0x14, 32, Kind::Bytes),
        pv("customizer.primary_use_saved_name"@, custom + 0x34, 1, Kind::Unsigned),
        pv("customizer.field_0x35"@, custom + 0x35, 3, Kind::Bytes),
        pv("customizer.secondary_name"@, custom + 0x4c, 32, Kind::Bytes),
        pv("customizer.secondary_use_saved_name"@, custom + 0x6c, 1, Kind::Unsigned),
        pv("customizer.field_0x4a"@, custom + 0x4a, 2, Kind::Bytes),
        pv("customizer.field_0x6d"@, custom + 0x6d, 2, Kind::Bytes),
    ]
}
pub open spec fn super_options_props(base: int) -> Seq<PropView> {
    seq![
        pv("options.store_pack_flags"@, base + 0x0, 2, Kind::Unsigned),
        pv("options.touch_controls"@, base + 0x2, 1, Kind::Unsigned),
        pv("options.dpad_locked"@, base + 0x3, 1, Kind::Unsigned),
        pv("options.left_control_x"@, base + 0x4, 4, Kind::Float),
        pv("options.left_control_y"@, base + 0x8, 4, Kind::Float),
        pv("options.right_control_x"@, base + 0xc, 4, Kind::Float),
        pv("options.right_control_y"@, base + 0x10, 4, Kind::Float),
        pv("options.music_enabled"@, base + 0x14, 1, Kind::Unsigned),
        pv("options.store_bundle_flags"@, base + 0x15, 1, Kind::Unsigned),
        pv("options.field9_0x16"@, base + 0x16, 2, Kind::Bytes),
    ]
}

/// Every property of a game payload at `base`, in listing order.
pub open spec fn game_props(base: int, android: bool) -> Seq<PropView> {
    let suffix = suffix_offset(base, android);
    game_fixed_props(base)
        + (if android { android_summary_props(base + 0x7c20) } else { seq![] })
        + suffix_props(suffix, android)
        + options_save_props(base)
        + Seq::new(366, |i: int| level_group(base, i)).flatten()
        + Seq::new(20, |i: int| mission_group(suffix, i)).flatten()
        + Seq::new(340, |i: int| character_prop(suffix, i))
        + Seq::new(72, |i: int| area_group(base, i)).flatten()
        + Seq::new(6, |i: int| episode_group(base, i)).flatten()
        + Seq::new(9, |i: int| piece_prop(suffix + 4, i))
        + Seq::new(9, |i: int| secondary_piece_prop(suffix + 4, i))
        + customizer_fixed_props(suffix + 4)
}

/// The named properties of a save with the given layout, in listing order.
pub open spec fn named_props(payload: int, size: int, len: int) -> Seq<PropView> {
    header_props() + extra_props(payload) + (if size == OPTIONS_SIZE {
        super_options_props(payload)
    } else {
        game_props(payload, size == ANDROID_GAME_SIZE)
    }) + seq![
        pv("checksum"@, payload + size, 4, Kind::Unsigned),
        pv("slot_code"@, len - 4, 4, Kind::Unsigned),
    ]
}

/// Whether property `p` covers byte `j`.
pub open spec fn covers(p: PropView, j: int) -> bool {
    p.1 <= j < p.1 + p.2
}

pub open spec fn covered(s: Seq<PropView>, j: int) -> bool {
    exists|k: int| 0 <= k < s.len() && covers(#[trigger] s[k], j)
}

/// The absolute-offset alias of byte `j`.
pub open spec fn byte_prop(j: int) -> PropView {
    pv("byte["@ + decimal(j as nat) + "]"@, j, 1, Kind::Unsigned)
}

/// One `byte[N]` property for each byte no property in `s` covers, in offset order.
pub open spec fn uncovered_props(s: Seq<PropView>, len: int) -> Seq<PropView> {
    Seq::new(len as nat, |j: int| j).filter(|j: int| !covered(s, j)).map_values(|j: int| byte_prop(j))
}

/// Every property of a save with the given layout, in listing order.
pub open spec fn spec_properties(payload: int, size: int, len: int) -> Seq<PropView> {
    named_props(payload, size, len) + uncovered_props(named_props(payload, size, len), len)
}


/// A new string holding `s`.
fn lit(s: &str) -> (res: String)
    ensures
        res@ == s@,
{
    String::from_str(s)
}

/// `prefix`, the decimal rendering of `i`, then `suffix`.
fn indexed(prefix: &str, i: usize, suffix: &str) -> (res: String)
    ensures
        res@ == prefix@ + decimal(i as nat) + suffix@,
{
    let mut s = String::from_str(prefix);
    push_decimal(&mut s, i as u64);
    s.append(suffix);
    s
}

/// `prefix`, `middle`, the decimal rendering of `i`, then `suffix`.
fn extend(prefix: &String, middle: &str, i: usize, suffix: &str) -> (res: String)
    ensures
        res@ == prefix@ + middle@ + decimal(i as nat) + suffix@,
{
    let mut s = prefix.clone();
    s.append(middle);
    push_decimal(&mut s, i as u64);
    s.append(suffix);
    s
}

/// `prefix` followed by `rest`.
fn concat(prefix: &String, rest: &str) -> (res: String)
    ensures
        res@ == prefix@ + rest@,
{
    let mut s = prefix.clone();
    s.append(rest);
    s
}

proof fn lemma_views_push(v: Seq<Property>, p: Property)
    ensures
        views(v.push(p)) == views(v).push(p@),
{
    assert(views(v.push(p)) =~= views(v).push(p@));
}

fn push_prop(out: &mut Vec<Property>, name: String, offset: usize, size: usize, kind: Kind, Ghost(len): Ghost<int>)
    requires
        offset + size <= len,
        well_kinded(size as int, kind),
        flag_width_ok(pv(name@, offset as int, size as int, kind)),
        all_fit(views(old(out)@), len),
    ensures
        views(final(out)@) == views(old(out)@).push(pv(name@, offset as int, size as int, kind)),
        all_fit(views(final(out)@), len),
{
    let ghost before = out@;
    let p = Property { name, offset, size, kind };
    out.push(p);
    proof {
        lemma_views_push(before, p);
        assert(views(out@) == views(before).push(p@));
    }
}

fn push_levels(out: &mut Vec<Property>, base: usize, Ghost(len): Ghost<int>)
    requires
        all_fit(views(old(out)@), len),
        base + 0x7829 <= len <= usize::MAX,
    ensures
        views(final(out)@) == views(old(out)@) + Seq::new(366, |i: int| level_group(base as int, i)).flatten(),
        all_fit(views(final(out)@), len),
{
    let ghost start = views(out@);
    let mut i: usize = 0;
    while i < 366
        invariant
            i <= 366,
            base + 0x7829 <= len <= usize::MAX,
            all_fit(views(out@), len),
            views(out@) == start + Seq::new(i as nat, |k: int| level_group(base as int, k)).flatten(),
        decreases 366 - i,
    {
        let ghost before = views(out@);
        let prefix = indexed("level_save[", i, "].");
        let record = base + 0x11 + 0x54 * i;
        let mut j: usize = 0;
        while j < 10
            invariant
                j <= 10,
                i < 366,
                record == base + 0x11 + 0x54 * i,
                base + 0x7829 <= len <= usize::MAX,
                prefix@ == level_prefix(i as int),
                all_fit(views(out@), len),
                views(out@) == before + Seq::new(j as nat, |k: int| minikit_name_prop(base as int, i as int, k)),
            decreases 10 - j,
        {
            let name = extend(&prefix, "minikit_names[", j, "]");
            proof {
                crate::tables::lemma_minikit_names_flag_free(i as nat, j as nat);
                assert(name@ =~= "level_save["@ + decimal(i as nat) + "]."@ + "minikit_names["@ + decimal(j as nat) + "]"@);
                crate::tables::lemma_not_flag_named(name@);
            }
            push_prop(out, name, record + 8 * j, 8, Kind::Bytes, Ghost(len));
            assert(views(out@) =~= before + Seq::new((j + 1) as nat, |k: int| minikit_name_prop(base as int, i as int, k)));
            j = j + 1;
        }
        push_prop(out, concat(&prefix, "minikit_count"), record + 0x50, 1, Kind::Unsigned, Ghost(len));
        push_prop(out, concat(&prefix, "reserved_0x51"), record + 0x51, 2, Kind::Bytes, Ghost(len));
        push_prop(out, concat(&prefix, "arcade_flags"), record + 0x53, 1, Kind::Unsigned, Ghost(len));
        proof {
            assert(views(out@) =~= before + level_group(base as int, i as int));
            let groups = Seq::new(i as nat, |k: int| level_group(base as int, k));
            groups.lemma_flatten_push(level_group(base as int, i as int));
            assert(Seq::new((i + 1) as nat, |k: int| level_group(base as int, k)) =~= groups.push(level_group(base as int, i as int)));
        }
        i = i + 1;
    }
}

fn push_missions(out: &mut Vec<Property>, suffix: usize, Ghost(len): Ghost<int>)
    requires
        all_fit(views(old(out)@), len),
        suffix + 0xd8 <= len <= usize::MAX,
    ensures
        views(final(out)@) == views(old(out)@) + Seq::new(20, |i: int| mission_group(suffix as int, i)).flatten(),
        all_fit(views(final(out)@), len),
{
    let ghost start = views(out@);
    let mut i: usize = 0;
    while i < 20
        invariant
            i <= 20,
            suffix + 0xd8 <= len <= usize::MAX,
            all_fit(views(out@), len),
            views(out@) == start + Seq::new(i as nat, |k: int| mission_group(suffix as int, k)).flatten(),
        decreases 20 - i,
    {
        let ghost before = views(out@);
        push_prop(out, indexed("mission_save.best_times[", i, "]"), suffix + 0x74 + 4 * i, 4, Kind::Float, Ghost(len));
        push_prop(out, indexed("mission_save.completed[", i, "]"), suffix + 0xc4 + i, 1, Kind::Unsigned, Ghost(len));
        proof {
            assert(views(out@) =~= before + mission_group(suffix as int, i as int));
            let groups = Seq::new(i as nat, |k: int| mission_group(suffix as int, k));
            groups.lemma_flatten_push(mission_group(suffix as int, i as int));
            assert(Seq::new((i + 1) as nat, |k: int| mission_group(suffix as int, k)) =~= groups.push(mission_group(suffix as int, i as int)));
        }
        i = i + 1;
    }
}

fn push_characters(out: &mut Vec<Property>, suffix: usize, Ghost(len): Ghost<int>)
    requires
        all_fit(views(old(out)@), len),
        suffix + 0x22c <= len <= usize::MAX,
    ensures
        views(final(out)@) == views(old(out)@) + Seq::new(340, |i: int| character_prop(suffix as int, i)),
        all_fit(views(final(out)@), len),
{
    let ghost start = views(out@);
    let mut i: usize = 0;
    while i < 340
        invariant
            i <= 340,
            suffix + 0x22c <= len <= usize::MAX,
            all_fit(views(out@), len),
            views(out@) == start + Seq::new(i as nat, |k: int| character_prop(suffix as int, k)),
        decreases 340 - i,
    {
        push_prop(out, indexed("character_save[", i, "]"), suffix + 0xd8 + i, 1, Kind::Unsigned, Ghost(len));
        assert(views(out@) =~= start + Seq::new((i + 1) as nat, |k: int| character_prop(suffix as int, k)));
        i = i + 1;
    }
}

fn push_areas(out: &mut Vec<Property>, base: usize, Ghost(len): Ghost<int>)
    requires
        all_fit(views(old(out)@), len),
        base + 0x7b8c <= len <= usize::MAX,
    ensures
        views(final(out)@) == views(old(out)@) + Seq::new(72, |i: int| area_group(base as int, i)).flatten(),
        all_fit(views(final(out)@), len),
{
    let ghost start = views(out@);
    let mut i: usize = 0;
    while i < 72
        invariant
            i <= 72,
            base + 0x7b8c <= len <= usize::MAX,
            all_fit(views(out@), len),
            views(out@) == start + Seq::new(i as nat, |k: int| area_group(base as int, k)).flatten(),
        decreases 72 - i,
    {
        let ghost before = views(out@);
        let prefix = indexed("area_save[", i, "].");
        let record = base + 0x782c + 12 * i;
        push_prop(out, concat(&prefix, "complete"), record + 0, 1, Kind::Unsigned, Ghost(len));
        push_prop(out, concat(&prefix, "area_complete"), record + 1, 1, Kind::Unsigned, Ghost(len));
        push_prop(out, concat(&prefix, "story_buildup_complete"), record + 2, 1, Kind::Unsigned, Ghost(len));
        push_prop(out, concat(&prefix, "freeplay_buildup_complete"), record + 3, 1, Kind::Unsigned, Ghost(len));
        push_prop(out, concat(&prefix, "minikit_complete"), record + 4, 1, Kind::Unsigned, Ghost(len));
        push_prop(out, concat(&prefix, "minikit_count"), record + 5, 1, Kind::Unsigned, Ghost(len));
        push_prop(out, concat(&prefix, "red_brick_collected"), record + 6, 1, Kind::Unsigned, Ghost(len));
        push_prop(out, concat(&prefix, "reserved_0x7"), record + 7, 1, Kind::Unsigned, Ghost(len));
        push_prop(out, concat(&prefix, "challenge_trial_time"), record + 8, 4, Kind::Float, Ghost(len));
        proof {
            assert(views(out@) =~= before + area_group(base as int, i as int));
            let groups = Seq::new(i as nat, |k: int| area_group(base as int, k));
            groups.lemma_flatten_push(area_group(base as int, i as int));
            assert(Seq::new((i + 1) as nat, |k: int| area_group(base as int, k)) =~= groups.push(area_group(base as int, i as int)));
        }
        i = i + 1;
    }
}

fn push_episodes(out: &mut Vec<Property>, base: usize, Ghost(len): Ghost<int>)
    requires
        all_fit(views(old(out)@), len),
        base + 0x7bd4 <= len <= usize::MAX,
    ensures
        views(final(out)@) == views(old(out)@) + Seq::new(6, |i: int| episode_group(base as int, i)).flatten(),
        all_fit(views(final(out)@), len),
{
    let ghost start = views(out@);
    let mut i: usize = 0;
    while i < 6
        invariant
            i <= 6,
            base + 0x7bd4 <= len <= usize::MAX,
            all_fit(views(out@), len),
            views(out@) == start + Seq::new(i as nat, |k: int| episode_group(base as int, k)).flatten(),
        decreases 6 - i,
    {
        let ghost before = views(out@);
        let prefix = indexed("episode_save[", i, "].");
        let record = base + 0x7b8c + 12 * i;
        push_prop(out, concat(&prefix, "superstory_time_limit"), record + 0, 4, Kind::Float, Ghost(len));
        push_prop(out, concat(&prefix, "superstory_score_target"), record + 4, 4, Kind::Signed, Ghost(len));
        push_prop(out, concat(&prefix, "flags"), record + 8, 4, Kind::Unsigned, Ghost(len));
        proof {
            assert(views(out@) =~= before + episode_group(base as int, i as int));
            let groups = Seq::new(i as nat, |k: int| episode_group(base as int, k));
            groups.lemma_flatten_push(episode_group(base as int, i as int));
            assert(Seq::new((i + 1) as nat, |k: int| episode_group(base as int, k)) =~= groups.push(episode_group(base as int, i as int)));
        }
        i = i + 1;
    }
}

fn push_pieces(out: &mut Vec<Property>, custom: usize, secondary: bool, Ghost(len): Ghost<int>)
    requires
        all_fit(views(old(out)@), len),
        custom + 0x6f <= len <= usize::MAX,
    ensures
        views(final(out)@) == views(old(out)@) + if secondary {
            Seq::new(9, |i: int| secondary_piece_prop(custom as int, i))
        } else {
            Seq::new(9, |i: int| piece_prop(custom as int, i))
        },
        all_fit(views(final(out)@), len),
{
    let ghost start = views(out@);
    let mut i: usize = 0;
    while i < 9
        invariant
            i <= 9,
            custom + 0x6f <= len <= usize::MAX,
            all_fit(views(out@), len),
            views(out@) == start + if secondary {
                Seq::new(i as nat, |k: int| secondary_piece_prop(custom as int, k))
            } else {
                Seq::new(i as nat, |k: int| piece_prop(custom as int, k))
            },
        decreases 9 - i,
    {
        if secondary {
            push_prop(out, indexed("customizer.secondary_pieces[", i, "]"), custom + 0x38 + 2 * i, 2, Kind::Signed, Ghost(len));
            assert(views(out@) =~= start + Seq::new((i + 1) as nat, |k: int| secondary_piece_prop(custom as int, k)));
        } else {
            push_prop(out, indexed("customizer.pieces[", i, "]"), custom + 2 * i, 2, Kind::Signed, Ghost(len));
            assert(views(out@) =~= start + Seq::new((i + 1) as nat, |k: int| piece_prop(custom as int, k)));
        }
        i = i + 1;
    }
}

fn push_game_fixed(out: &mut Vec<Property>, base: usize, Ghost(len): Ghost<int>)
    requires
        all_fit(views(old(out)@), len),
        base + 0x7c20 <= len <= usize::MAX,
    ensures
        views(final(out)@) == views(old(out)@) + game_fixed_props(base as int),
        all_fit(views(final(out)@), len),
{
    let ghost start = views(out@);
    push_prop(out, lit("field_0x0"), base + 0x0, 1, Kind::Unsigned, Ghost(len));
    push_prop(out, lit("difficulty"), base + 0x1, 1, Kind::Unsigned, Ghost(len));
    push_prop(out, lit("field_0x2"), base + 0x2, 2, Kind::Bytes, Ghost(len));
    push_prop(out, lit("shop_gold_brick_purchased_bits"), base + 0x7bf8, 4, Kind::Bitmask, Ghost(len));
    push_prop(out, lit("shop_hint_purchased_bits"), base + 0x7bd4, 12, Kind::Bitmask, Ghost(len));
    push_prop(out, lit("shop_character_purchased_bits"), base + 0x7be0, 16, Kind::Bitmask, Ghost(len));
    push_prop(out, lit("extra_unlocked_bits"), base + 0x7bf0, 8, Kind::Bitmask, Ghost(len));
    push_prop(out, lit("extra_purchased_bits"), base + 0x7c00, 8, Kind::Bitmask, Ghost(len));
    push_prop(out, lit("hint_completion_bits"), base + 0x7c08, 24, Kind::Bitmask, Ghost(len));
    push_prop(out, lit("suit_flags"), base + 0x7bfc, 4, Kind::Unsigned, Ghost(len));
    push_prop(out, lit("level_save_padding"), base + 0x7829, 3, Kind::Bytes, Ghost(len));
    assert(views(out@) =~= start + game_fixed_props(base as int));
}

fn push_android_summary(out: &mut Vec<Property>, summary: usize, Ghost(len): Ghost<int>)
    requires
        all_fit(views(old(out)@), len),
        summary + 0xc <= len <= usize::MAX,
    ensures
        views(final(out)@) == views(old(out)@) + android_summary_props(summary as int),
        all_fit(views(final(out)@), len),
{
    let ghost start = views(out@);
    push_prop(out, lit("coins"), summary + 0x0, 4, Kind::Unsigned, Ghost(len));
    push_prop(out, lit("completion"), summary + 0x4, 2, Kind::Unsigned, Ghost(len));
    push_prop(out, lit("gold_bricks"), summary + 0x6, 1, Kind::Unsigned, Ghost(len));
    push_prop(out, lit("reward_flags"), summary + 0x7, 1, Kind::Unsigned, Ghost(len));
    push_prop(out, lit("hub_build_flags"), summary + 0x8, 1, Kind::Unsigned, Ghost(len));
    push_prop(out, lit("indy_unlocked"), summary + 0x9, 1, Kind::Unsigned, Ghost(len));
    push_prop(out, lit("reserved_0x7c2a"), summary + 0xa, 2, Kind::Bytes, Ghost(len));
    assert(views(out@) =~= start + android_summary_props(summary as int));
}

fn push_options_save(out: &mut Vec<Property>, base: usize, Ghost(len): Ghost<int>)
    requires
        all_fit(views(old(out)@), len),
        base + 0x11 <= len <= usize::MAX,
    ensures
        views(final(out)@) == views(old(out)@) + options_save_props(base as int),
        all_fit(views(final(out)@), len),
{
    let ghost start = views(out@);
    push_prop(out, lit("options_save.player1_rumble"), base + 0x4, 1, Kind::Unsigned, Ghost(len));
    push_prop(out, lit("options_save.player2_rumble"), base + 0x5, 1, Kind::Unsigned, Ghost(len));
    push_prop(out, lit("options_save.surround_sound"), base + 0x6, 1, Kind::Unsigned, Ghost(len));
    push_prop(out, lit("options_save.sound_volume"), base + 0x7, 1, Kind::Unsigned, Ghost(len));
    push_prop(out, lit("options_save.music_volume"), base + 0x8, 1, Kind::Unsigned, Ghost(len));
    push_prop(out, lit("options_save.master_volume"), base + 0x9, 1, Kind::Unsigned, Ghost(len));
    push_prop(out, lit("options_save.music_enabled"), base + 0xa, 1, Kind::Unsigned, Ghost(len));
    push_prop(out, lit("options_save.field7_0x7"), base + 0xb, 1, Kind::Unsigned, Ghost(len));
    push_prop(out, lit("options_save.field8_0x8"), base + 0xc, 1, Kind::Unsigned, Ghost(len));
    push_prop(out, lit("options_save.field9_0x9"), base + 0xd, 1, Kind::Unsigned, Ghost(len));
    push_prop(out, lit("options_save.field10_0xa"), base + 0xe, 1, Kind::Unsigned, Ghost(len));
    push_prop(out, lit("options_save.widescreen"), base + 0xf, 1, Kind::Unsigned, Ghost(len));
    push_prop(out, lit("options_save.brightness"), base + 0x10, 1, Kind::Unsigned, Ghost(len));
    assert(views(out@) =~= start + options_save_props(base as int));
}

fn push_customizer_fixed(out: &mut Vec<Property>, custom: usize, Ghost(len): Ghost<int>)
    requires
        all_fit(views(old(out)@), len),
        custom + 0x6f <= len <= usize::MAX,
    ensures
        views(final(out)@) == views(old(out)@) + customizer_fixed_props(custom as int),
        all_fit(views(final(out)@), len),
{
    let ghost start = views(out@);
    push_prop(out, lit("customizer.field_0x12"), custom + 0x12, 2, Kind::Bytes, Ghost(len));
    let name = lit("customizer.primary_name");
    proof {
        crate::tables::lemma_long_fields_flag_free(name@);
        crate::tables::lemma_not_flag_named(name@);
    }
    push_prop(out, name, custom + 0x14, 32, Kind::Bytes, Ghost(len));
    push_prop(out, lit("customizer.primary_use_saved_name"), custom + 0x34, 1, Kind::Unsigned, Ghost(len));
    push_prop(out, lit("customizer.field_0x35"), custom + 0x35, 3, Kind::Bytes, Ghost(len));
    let name = lit("customizer.secondary_name");
    proof {
        crate::tables::lemma_long_fields_flag_free(name@);
        crate::tables::lemma_not_flag_named(name@);
    }
    push_prop(out, name, custom + 0x4c, 32, Kind::Bytes, Ghost(len));
    push_prop(out, lit("customizer.secondary_use_saved_name"), custom + 0x6c, 1, Kind::Unsigned, Ghost(len));
    push_prop(out, lit("customizer.field_0x4a"), custom + 0x4a, 2, Kind::Bytes, Ghost(len));
    push_prop(out, lit("customizer.field_0x6d"), custom + 0x6d, 2, Kind::Bytes, Ghost(len));
    assert(views(out@) =~= start + customizer_fixed_props(custom as int));
}

fn push_super_options(out: &mut Vec<Property>, base: usize, Ghost(len): Ghost<int>)
    requires
        all_fit(views(old(out)@), len),
        base + 0x18 <= len <= usize::MAX,
    ensures
        views(final(out)@) == views(old(out)@) + super_options_props(base as int),
        all_fit(views(final(out)@), len),
{
    let ghost start = views(out@);
    push_prop(out, lit("options.store_pack_flags"), base + 0x0, 2, Kind::Unsigned, Ghost(len));
    push_prop(out, lit("options.touch_controls"), base + 0x2, 1, Kind::Unsigned, Ghost(len));
    push_prop(out, lit("options.dpad_locked"), base + 0x3, 1, Kind::Unsigned, Ghost(len));
    push_prop(out, lit("options.left_control_x"), base + 0x4, 4, Kind::Float, Ghost(len));
    push_prop(out, lit("options.left_control_y"), base + 0x8, 4, Kind::Float, Ghost(len));
    push_prop(out, lit("options.right_control_x"), base + 0xc, 4, Kind::Float, Ghost(len));
    push_prop(out, lit("options.right_control_y"), base + 0x10, 4, Kind::Float, Ghost(len));
    push_prop(out, lit("options.music_enabled"), base + 0x14, 1, Kind::Unsigned, Ghost(len));
    push_prop(out, lit("options.store_bundle_flags"), base + 0x15, 1, Kind::Unsigned, Ghost(len));
    push_prop(out, lit("options.field9_0x16"), base + 0x16, 2, Kind::Bytes, Ghost(len));
    assert(views(out@) =~= start + super_options_props(base as int));
}

fn push_header(out: &mut Vec<Property>, zero: usize, Ghost(len): Ghost<int>)
    requires
        zero == 0,
        all_fit(views(old(out)@), len),
        zero + 0x2028 <= len <= usize::MAX,
    ensures
        views(final(out)@) == views(old(out)@) + header_props(),
        all_fit(views(final(out)@), len),
{
    let ghost start = views(out@);
    push_prop(out, lit("header.field0_0x0"), zero + 0x0, 4, Kind::Signed, Ghost(len));
    push_prop(out, lit("header.field1_0x4"), zero + 0x4, 4, Kind::Signed, Ghost(len));
    push_prop(out, lit("header.size"), zero + 0x8, 4, Kind::Signed, Ghost(len));
    push_prop(out, lit("header.field3_0xc"), zero + 0xc, 4, Kind::Signed, Ghost(len));
    push_prop(out, lit("header.field4_0x10"), zero + 0x10, 4, Kind::Signed, Ghost(len));
    push_prop(out, lit("header.extradata_offset"), zero + 0x14, 4, Kind::Signed, Ghost(len));
    let name = lit("header.field6_0x18");
    proof {
        crate::tables::lemma_long_fields_flag_free(name@);
        crate::tables::lemma_not_flag_named(name@);
    }
    push_prop(out, name, zero + 0x18, 16, Kind::Bytes, Ghost(len));
    push_prop(out, lit("header.field7_0x28"), zero + 0x28, 2, Kind::Signed, Ghost(len));
    let name = lit("header.field8_0x2a");
    proof {
        crate::tables::lemma_long_fields_flag_free(name@);
        crate::tables::lemma_not_flag_named(name@);
    }
    push_prop(out, name, zero + 0x2a, 2046, Kind::Bytes, Ghost(len));
    push_prop(out, lit("header.field9_0x828"), zero + 0x828, 2, Kind::Signed, Ghost(len));
    let name = lit("header.field10_0x82a");
    proof {
        crate::tables::lemma_long_fields_flag_free(name@);
        crate::tables::lemma_not_flag_named(name@);
    }
    push_prop(out, name, zero + 0x82a, 2046, Kind::Bytes, Ghost(len));
    push_prop(out, lit("header.field11_0x1028"), zero + 0x1028, 2, Kind::Signed, Ghost(len));
    let name = lit("header.field12_0x102a");
    proof {
        crate::tables::lemma_long_fields_flag_free(name@);
        crate::tables::lemma_not_flag_named(name@);
    }
    push_prop(out, name, zero + 0x102a, 2046, Kind::Bytes, Ghost(len));
    push_prop(out, lit("header.field13_0x1828"), zero + 0x1828, 2, Kind::Signed, Ghost(len));
    let name = lit("header.field14_0x182a");
    proof {
        crate::tables::lemma_long_fields_flag_free(name@);
        crate::tables::lemma_not_flag_named(name@);
    }
    push_prop(out, name, zero + 0x182a, 2046, Kind::Bytes, Ghost(len));
    assert(views(out@) =~= start + header_props());
}

#[verifier::rlimit(50)]
fn push_game(out: &mut Vec<Property>, base: usize, android: bool, Ghost(len): Ghost<int>)
    requires
        all_fit(views(old(out)@), len),
        base + (if android { ANDROID_GAME_SIZE } else { WINDOWS_GAME_SIZE }) + 8 == len <= usize::MAX,
    ensures
        views(final(out)@) == views(old(out)@) + game_props(base as int, android),
        all_fit(views(final(out)@), len),
{
    let ghost start = views(out@);
    push_game_fixed(out, base, Ghost(len));
    let ghost s1 = views(out@);
    if android {
        push_android_summary(out, base + 0x7c20, Ghost(len));
    } else {
        assert(views(out@) =~= s1 + seq![]);
    }
    let ghost s2 = views(out@);
    let suffix = if android { base + 0x7c2c } else { base + 0x7c20 };
    push_prop(out, lit("gameplay_seconds"), suffix, 4, Kind::Float, Ghost(len));
    let after_customizer = if android { lit("field_0x7c9f") } else { lit("field_0x7c93") };
    push_prop(out, after_customizer, suffix + 0x73, 1, Kind::Unsigned, Ghost(len));
    assert(views(out@) =~= s2 + suffix_props(suffix as int, android));
    let ghost s3 = views(out@);
    push_options_save(out, base, Ghost(len));
    let ghost s4 = views(out@);
    push_levels(out, base, Ghost(len));
    let ghost s5 = views(out@);
    push_missions(out, suffix, Ghost(len));
    let ghost s6 = views(out@);
    push_characters(out, suffix, Ghost(len));
    let ghost s7 = views(out@);
    push_areas(out, base, Ghost(len));
    let ghost s8 = views(out@);
    push_episodes(out, base, Ghost(len));
    let ghost s9 = views(out@);
    push_pieces(out, suffix + 4, false, Ghost(len));
    let ghost s10 = views(out@);
    push_pieces(out, suffix + 4, true, Ghost(len));
    let ghost s11 = views(out@);
    push_customizer_fixed(out, suffix + 4, Ghost(len));
    proof {
        let b = base as int;
        let sf = suffix as int;
        let android_part = if android { android_summary_props(b + 0x7c20) } else { seq![] };
        assert(s2 == start + game_fixed_props(b) + android_part);
        assert(s4 == s2 + suffix_props(sf, android) + options_save_props(b));
        assert(s6 == s4 + Seq::new(366, |i: int| level_group(b, i)).flatten()
            + Seq::new(20, |i: int| mission_group(sf, i)).flatten());
        assert(s8 == s6 + Seq::new(340, |i: int| character_prop(sf, i))
            + Seq::new(72, |i: int| area_group(b, i)).flatten());
        assert(s10 == s8 + Seq::new(6, |i: int| episode_group(b, i)).flatten()
            + Seq::new(9, |i: int| piece_prop(sf + 4, i)));
        assert(views(out@) == s10 + Seq::new(9, |i: int| secondary_piece_prop(sf + 4, i))
            + customizer_fixed_props(sf + 4));
        assert(suffix_offset(b, android) == sf);
        assert(views(out@) =~= start + game_props(b, android));
    }
}


pub open spec fn covered_by_first(s: Seq<PropView>, k: int, j: int) -> bool {
    exists|q: int| 0 <= q < k && covers(#[trigger] s[q], j)
}

proof fn lemma_covered_step(s: Seq<PropView>, k: int, j: int)
    requires
        0 <= k < s.len(),
    ensures
        covered_by_first(s, k + 1, j) <==> (covered_by_first(s, k, j) || covers(s[k], j)),
{
    if covered_by_first(s, k + 1, j) {
        let q = choose|q: int| 0 <= q < k + 1 && covers(#[trigger] s[q], j);
        if q < k {
            assert(covered_by_first(s, k, j));
        }
    }
    if covers(s[k], j) {
        assert(0 <= k < k + 1 && covers(s[k], j));
    }
    if covered_by_first(s, k, j) {
        let q = choose|q: int| 0 <= q < k && covers(#[trigger] s[q], j);
        assert(0 <= q < k + 1 && covers(s[q], j));
    }
}

/// Adds a `byte[N]` alias for every byte that no listed property covers.
fn push_uncovered(out: &mut Vec<Property>, len: usize)
    requires
        all_fit(views(old(out)@), len as int),
    ensures
        views(final(out)@) == views(old(out)@) + uncovered_props(views(old(out)@), len as int),
        all_fit(views(final(out)@), len as int),
{
    let ghost s = views(out@);
    let n = out.len();
    let mut marked: Vec<bool> = vec![false; len];
    assert forall|j: int| 0 <= j < len implies (marked@[j] <==> covered_by_first(s, 0, j)) by {
        assert(marked@[j] == false);
    }
    let mut k: usize = 0;
    while k < n
        invariant
            n == out@.len(),
            s == views(out@),
            k <= n,
            marked@.len() == len,
            all_fit(s, len as int),
            forall|j: int| 0 <= j < len ==> (marked@[j] <==> covered_by_first(s, k as int, j)),
        decreases n - k,
    {
        let offset = out[k].offset;
        let size = out[k].size;
        assert(s[k as int] == out@[k as int]@);
        assert(fits(s[k as int], len as int));
        let mut b = offset;
        while b < offset + size
            invariant
                offset <= b <= offset + size <= len,
                k < n,
                s.len() == n,
                s[k as int].1 == offset,
                s[k as int].2 == size,
                marked@.len() == len,
                forall|j: int| 0 <= j < len ==> (marked@[j] <==> (covered_by_first(s, k as int, j) || offset <= j < b)),
            decreases offset + size - b,
        {
            marked.set(b, true);
            b = b + 1;
        }
        proof {
            assert forall|j: int| 0 <= j < len implies (marked@[j] <==> covered_by_first(s, k + 1, j)) by {
                lemma_covered_step(s, k as int, j);
            }
        }
        k = k + 1;
    }
    let ghost ids = Seq::new(len as nat, |j: int| j);
    let ghost pred = |j: int| !covered(s, j);
    assert forall|j: int| 0 <= j < len implies (marked@[j] <==> covered(s, j)) by {
        if marked@[j] {
            let q = choose|q: int| 0 <= q < n && covers(#[trigger] s[q], j);
            assert(covered(s, j));
        }
        if covered(s, j) {
            let q = choose|q: int| 0 <= q < s.len() && covers(#[trigger] s[q], j);
            assert(covered_by_first(s, n as int, j));
        }
    }
    let mut j: usize = 0;
    while j < len
        invariant
            j <= len,
            marked@.len() == len,
            forall|x: int| 0 <= x < len ==> (marked@[x] <==> covered(s, x)),
            pred == (|x: int| !covered(s, x)),
            all_fit(views(out@), len as int),
            views(out@) == s + Seq::new(j as nat, |x: int| x).filter(pred).map_values(|x: int| byte_prop(x)),
        decreases len - j,
    {
        let ghost before = Seq::new(j as nat, |x: int| x);
        proof {
            assert(Seq::new((j + 1) as nat, |x: int| x) =~= before.push(j as int));
            before.lemma_filter_push(j as int, pred);
        }
        let ghost f = before.filter(pred);
        let ghost prev = views(out@);
        if !marked[j] {
            push_prop(out, indexed("byte[", j, "]"), j, 1, Kind::Unsigned, Ghost(len as int));
            assert(pred(j as int));
            assert(f.push(j as int).map_values(|x: int| byte_prop(x)) =~= f.map_values(|x: int| byte_prop(x)).push(byte_prop(j as int)));
            assert(views(out@) =~= s + f.push(j as int).map_values(|x: int| byte_prop(x)));
        } else {
            assert(!pred(j as int));
            assert(views(out@) =~= s + f.map_values(|x: int| byte_prop(x)));
        }
        assert(views(out@) =~= s + Seq::new((j + 1) as nat, |x: int| x).filter(pred).map_values(|x: int| byte_prop(x)));
        j = j + 1;
    }
    assert(Seq::new(len as nat, |x: int| x) =~= ids);
}

/// Every property of a save: the named fields of its payload kind, the
/// checksum and slot code, and a `byte[N]` alias for each byte no field covers.
pub fn properties(save: &Save) -> (res: Vec<Property>)
    requires
        save.has_layout(),
    ensures
        views(res@) == spec_properties(save.payload as int, save.payload_size as int, save.bytes@.len() as int),
        all_fit(views(res@), save.bytes@.len() as int),
        forall|k: int| 0 <= k < res@.len() ==> crate::rawlist::listable(#[trigger] res@[k]@, save.bytes@.len() as int),
{
    let len = save.bytes.len();
    let base = save.payload;
    let size = save.payload_size;
    let mut out: Vec<Property> = Vec::new();
    assert(views(out@) =~= Seq::<PropView>::empty());
    push_header(&mut out, 0, Ghost(len as int));
    assert(views(out@) =~= header_props());
    if base > HEADER_SIZE {
        let name = lit("extra_prefix");
        proof {
            crate::tables::lemma_long_fields_flag_free(name@);
            crate::tables::lemma_not_flag_named(name@);
        }
        push_prop(&mut out, name, HEADER_SIZE, base - HEADER_SIZE, Kind::Bytes, Ghost(len as int));
    }
    assert(views(out@) =~= header_props() + extra_props(base as int));
    let ghost s1 = views(out@);
    if size == OPTIONS_SIZE {
        push_super_options(&mut out, base, Ghost(len as int));
    } else {
        push_game(&mut out, base, size == ANDROID_GAME_SIZE, Ghost(len as int));
    }
    let ghost s2 = views(out@);
    push_prop(&mut out, lit("checksum"), base + size, 4, Kind::Unsigned, Ghost(len as int));
    push_prop(&mut out, lit("slot_code"), len - 4, 4, Kind::Unsigned, Ghost(len as int));
    assert(views(out@) =~= named_props(base as int, size as int, len as int));
    push_uncovered(&mut out, len);
    assert forall|k: int| 0 <= k < out@.len() implies crate::rawlist::listable(#[trigger] out@[k]@, len as int) by {
        assert(views(out@)[k] == out@[k]@);
        assert(fits(views(out@)[k], len as int));
    }
    out
}

} // verus!
