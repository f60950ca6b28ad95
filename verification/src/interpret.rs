//! The rows of the interpreted summary, read from a save's bytes.
use vstd::prelude::*;
use crate::format::{Save, SaveKind, HEADER_SIZE, le_u16, le_u32, le_i32, metadata_label};
use crate::schema::{Property, PropView, views, all_fit, suffix_offset};
use crate::names::{NameTables, release_table, nth_line, string_views};
use crate::text::decimal;
use crate::rawlist::{join, sign_extend};
use crate::summary::{RowView, SummaryRow, row_views, number_text, hex_number, spec_human_enum, spec_fixed_text,
    spec_configured_name, spec_piece_summary, spec_character_summary, spec_mask_summary, CharacterState, spec_render};

verus! {

/// A row as its section, label and value.
pub open spec fn srow(section: Seq<char>, label: Seq<char>, value: Seq<char>) -> RowView {
    (section, label, value)
}

/// The rows of the first `n` entries, in order.
pub open spec fn rows_upto(f: spec_fn(int) -> Seq<RowView>, n: int) -> Seq<RowView>
    decreases n,
{
    if n <= 0 { seq![] } else { rows_upto(f, n - 1) + f(n - 1) }
}

/// The rows about the file: its kind, checksum state, size and any opaque
/// prefix before the payload.
pub open spec fn save_rows(s: Save) -> Seq<RowView> {
    seq![
        srow("Save"@, "Kind"@, s.spec_kind().spec_description()),
        srow("Save"@, "Checksum"@, if s.spec_checksum_valid() { "Valid"@ } else { "Invalid"@ }),
        srow("Save"@, "File size"@, number_text(s.bytes@.len() as int) + " bytes"@),
    ] + if s.payload > HEADER_SIZE {
        seq![srow("Save"@, "Opaque prefix"@, decimal((s.payload - HEADER_SIZE) as nat) + " bytes preserved"@)]
    } else {
        seq![]
    }
}

/// A row when there is a value.
pub open spec fn opt_row(section: Seq<char>, label: Seq<char>, v: Option<Seq<char>>) -> Seq<RowView> {
    match v {
        Some(t) => seq![srow(section, label, t)],
        None => seq![],
    }
}

/// The rows of the header's metadata labels that are present.
pub open spec fn metadata_rows(b: Seq<u8>) -> Seq<RowView> {
    opt_row("Envelope metadata"@, "Application"@, metadata_label(b, 0x28, 0x400))
        + opt_row("Envelope metadata"@, "Slot label"@, metadata_label(b, 0x828, 0x400))
        + opt_row("Envelope metadata"@, "Reserved label"@, metadata_label(b, 0x1028, 0x400))
        + opt_row("Envelope metadata"@, "Saved at"@, metadata_label(b, 0x1828, 0x400))
}

/// `(x, y)` of two texts.
pub open spec fn position_text(x: Seq<char>, y: Seq<char>) -> Seq<char> {
    "("@ + x + ", "@ + y + ")"@
}

/// The rows of a SuperOptions payload at `p`; `floats` holds the texts of
/// the four control coordinates.
pub open spec fn options_rows(b: Seq<u8>, p: int, floats: Seq<Seq<char>>) -> Seq<RowView> {
    seq![
        srow("Controls"@, "Mode"@, spec_human_enum("options.touch_controls"@, b[p + 2] as u32)),
        srow("Controls"@, "D-pad lock"@, spec_human_enum("options.dpad_locked"@, b[p + 3] as u32)),
        srow("Controls"@, "Left position"@, position_text(floats[0], floats[1])),
        srow("Controls"@, "Right position"@, position_text(floats[2], floats[3])),
        srow("Audio"@, "Music"@, spec_human_enum("options.music_enabled"@, b[p + 0x14] as u32)),
        srow("Store entitlements"@, "Packs"@, spec_human_enum("options.store_pack_flags"@, le_u16(b, p) as u32)),
        srow("Store entitlements"@, "Bundles"@, spec_human_enum("options.store_bundle_flags"@, b[p + 0x15] as u32)),
    ]
}

/// The progress rows of a game payload at `p`: the Android progress summary
/// or the stored slot code, the gameplay time (`floats[0]`), the difficulty
/// and the suit abilities.
pub open spec fn progress_rows(b: Seq<u8>, p: int, android: bool, floats: Seq<Seq<char>>) -> Seq<RowView> {
    let s = p + 0x7c20;
    (if android {
        seq![
            srow("Progress"@, "Studs"@, number_text(le_u32(b, s))),
            srow("Progress"@, "Completion points"@, number_text(le_u16(b, s + 4))),
            srow("Progress"@, "Gold bricks"@, number_text(b[s + 6] as int)),
            srow("Progress"@, "Indiana Jones"@, if b[s + 9] == 0 { "Locked"@ } else { "Unlocked"@ }),
            srow("Progress"@, "Completion rewards"@, spec_human_enum("reward_flags"@, b[s + 7] as u32)),
            srow("Progress"@, "Hub builds"@, spec_human_enum("hub_build_flags"@, b[s + 8] as u32)),
        ]
    } else {
        seq![srow("Progress"@, "Stored slot code"@, number_text(le_i32(b, b.len() - 4)))]
    }) + seq![
        srow("Progress"@, "Gameplay time"@, floats[0]),
        srow("Progress"@, "Difficulty"@, decimal(b[p + 1] as nat)),
        srow("Progress"@, "Suit abilities"@, spec_human_enum("suit_flags"@, le_u32(b, p + 0x7bfc) as u32)),
    ]
}

/// A volume or brightness level out of ten.
pub open spec fn level_text(v: u8) -> Seq<char> {
    decimal(v as nat) + "/10"@
}

/// The game settings rows of a game payload at `p`.
pub open spec fn settings_rows(b: Seq<u8>, p: int) -> Seq<RowView> {
    seq![
        srow("Game settings"@, "Player 1 rumble"@, spec_human_enum("options_save.player1_rumble"@, b[p + 4] as u32)),
        srow("Game settings"@, "Player 2 rumble"@, spec_human_enum("options_save.player2_rumble"@, b[p + 5] as u32)),
        srow("Game settings"@, "Surround sound"@, spec_human_enum("options_save.surround_sound"@, b[p + 6] as u32)),
        srow("Game settings"@, "Music"@, spec_human_enum("options_save.music_enabled"@, b[p + 0xa] as u32)),
        srow("Game settings"@, "Widescreen"@, spec_human_enum("options_save.widescreen"@, b[p + 0xf] as u32)),
        srow("Game settings"@, "Sound volume"@, level_text(b[p + 7])),
        srow("Game settings"@, "Music volume"@, level_text(b[p + 8])),
        srow("Game settings"@, "Master volume"@, level_text(b[p + 9])),
        srow("Game settings"@, "Brightness"@, level_text(b[p + 0x10])),
    ]
}

/// The rows of the six wide masks, each listing its set bits.
pub open spec fn collection_rows(kind: SaveKind, shop: Seq<Seq<char>>, fields: Seq<PropView>, b: Seq<u8>) -> Seq<RowView> {
    seq![
        srow("Collections"@, "Purchased characters"@, spec_mask_summary(kind, shop, fields, b, "shop_character_purchased_bits"@)),
        srow("Collections"@, "Purchased hints"@, spec_mask_summary(kind, shop, fields, b, "shop_hint_purchased_bits"@)),
        srow("Collections"@, "Unlocked extras"@, spec_mask_summary(kind, shop, fields, b, "extra_unlocked_bits"@)),
        srow("Collections"@, "Purchased extras"@, spec_mask_summary(kind, shop, fields, b, "extra_purchased_bits"@)),
        srow("Collections"@, "Purchased gold bricks"@, spec_mask_summary(kind, shop, fields, b, "shop_gold_brick_purchased_bits"@)),
        srow("Collections"@, "Completed tutorials"@, spec_mask_summary(kind, shop, fields, b, "hint_completion_bits"@)),
    ]
}

/// The row of episode `i`: its completion, stored time limit (`time`),
/// stored score target and any other flag bits.
pub open spec fn episode_row(b: Seq<u8>, p: int, time: Seq<char>, i: int) -> Seq<RowView> {
    let e = p + 0x7b8c + 12 * i;
    let flags = le_u32(b, e + 8) as u32;
    let values = seq![
        if flags & 1u32 != 0 { "Completed"@ } else { "Not completed"@ },
        "stored time "@ + time,
        "stored score "@ + number_text(le_i32(b, e + 4)),
    ];
    let values = if flags & !1u32 != 0 { values.push("unknown flags 0x"@ + hex_number((flags & !1u32) as nat)) } else { values };
    seq![srow("Episodes"@, "Episode "@ + decimal((i + 1) as nat), join(values, "; "@))]
}

/// The progress words of the area record at `a`.
pub open spec fn area_values(b: Seq<u8>, a: int) -> Seq<Seq<char>> {
    let v0: Seq<Seq<char>> = if b[a] != 0 { seq!["available"@] } else { seq![] };
    let v1 = if b[a + 1] != 0 { v0.push("complete"@) } else { v0 };
    let v2 = if b[a + 2] != 0 { v1.push("story buildup complete"@) } else { v1 };
    let v3 = if b[a + 3] != 0 { v2.push("free-play buildup complete"@) } else { v2 };
    let v4 = if b[a + 4] != 0 {
        v3.push("minikit complete"@)
    } else if b[a + 5] != 0 {
        v3.push(decimal(b[a + 5] as nat) + " minikits"@)
    } else {
        v3
    };
    if b[a + 6] != 0 { v4.push("red brick collected"@) } else { v4 }
}

/// The row of area `i` when it has progress, named from the release's area table.
pub open spec fn area_row(b: Seq<u8>, p: int, areas: Seq<char>, i: int) -> Seq<RowView> {
    let values = area_values(b, p + 0x782c + 12 * i);
    if values.len() == 0 {
        seq![]
    } else {
        seq![srow("Areas with progress"@, spec_configured_name(nth_line(areas, i), "area"@, i), join(values, ", "@))]
    }
}

/// Whether the float stored as `bits` differs from zero.
pub open spec fn float_nonzero(bits: int) -> bool {
    bits % 0x8000_0000 != 0
}

/// The row of area `i`'s challenge time (`time`) when one is stored.
pub open spec fn challenge_row(b: Seq<u8>, p: int, areas: Seq<char>, time: Seq<char>, i: int) -> Seq<RowView> {
    if float_nonzero(le_u32(b, p + 0x782c + 12 * i + 8)) {
        seq![srow("Stored challenge times"@, spec_configured_name(nth_line(areas, i), "area"@, i), time)]
    } else {
        seq![]
    }
}

/// The texts of the first `n` minikit names of the level record at `l` that are not empty.
pub open spec fn minikit_texts(b: Seq<u8>, l: int, n: int) -> Seq<Seq<char>>
    decreases n,
{
    if n <= 0 {
        seq![]
    } else {
        let t = spec_fixed_text(b.subrange(l + 8 * (n - 1), l + 8 * n));
        minikit_texts(b, l, n - 1) + if t != "(empty)"@ { seq![t] } else { seq![] }
    }
}

/// The name of level `i`'s arcade-flags property.
pub open spec fn arcade_name(i: int) -> Seq<char> {
    "level_save["@ + decimal(i as nat) + "].arcade_flags"@
}

/// The row of level `i` when it has named minikits or arcade flags.
pub open spec fn level_row(b: Seq<u8>, p: int, levels: Seq<char>, i: int) -> Seq<RowView> {
    let l = p + 0x11 + 0x54 * i;
    let count = b[l + 0x50] as int;
    let names = minikit_texts(b, l, if count < 10 { count } else { 10 });
    let arcade = spec_human_enum(arcade_name(i), b[l + 0x53] as u32);
    if names.len() == 0 && arcade == "None"@ {
        seq![]
    } else {
        let v0: Seq<Seq<char>> = if names.len() > 0 { seq!["minikits: "@ + join(names, ", "@)] } else { seq![] };
        let values = if arcade != "None"@ { v0.push("arcade: "@ + arcade) } else { v0 };
        seq![srow("Levels with progress"@, spec_configured_name(nth_line(levels, i), "level"@, i), join(values, "; "@))]
    }
}

/// The row of mission `i` when it is complete or has a best time (`time`).
pub open spec fn mission_row(b: Seq<u8>, suffix: int, missions: Seq<char>, time: Seq<char>, i: int) -> Seq<RowView> {
    let done = b[suffix + 0xc4 + i] != 0;
    let timed = float_nonzero(le_u32(b, suffix + 0x74 + 4 * i));
    if !done && !timed {
        seq![]
    } else {
        let state = if done { "Complete"@ } else { "Incomplete"@ };
        let value = if timed { state + "; best time "@ + time } else { state };
        let label = match nth_line(missions, i) {
            Some(n) => "Find "@ + n,
            None => "Unknown mission (ID "@ + decimal(i as nat) + ")"@,
        };
        seq![srow("Missions with progress"@, label, value)]
    }
}

/// The character rows: owned, unlocked and not owned, and any with unknown state bits.
pub open spec fn character_rows(b: Seq<u8>, suffix: int, names: Seq<char>) -> Seq<RowView> {
    let states = b.subrange(suffix + 0xd8, suffix + 0xd8 + 340);
    let unusual = spec_character_summary(names, states, CharacterState::UnknownBits);
    seq![
        srow("Characters"@, "Owned / playable"@, spec_character_summary(names, states, CharacterState::Owned)),
        srow("Characters"@, "Unlocked / not owned"@, spec_character_summary(names, states, CharacterState::UnlockedNotOwned)),
    ] + if unusual != "None"@ { seq![srow("Characters"@, "Unknown state bits"@, unusual)] } else { seq![] }
}

/// The rows of one custom character: its name, naming mode and one piece per category.
pub open spec fn custom_rows(b: Seq<u8>, section: Seq<char>, name_at: int, naming: Seq<char>, naming_at: int, pieces_at: int, table: Seq<char>) -> Seq<RowView> {
    seq![
        srow(section, "Name"@, spec_fixed_text(b.subrange(name_at, name_at + 32))),
        srow(section, "Naming"@, spec_human_enum(naming, b[naming_at] as u32)),
    ] + Seq::new(9, |c: int| srow(section, crate::names::spec_customizer_category(c),
        spec_piece_summary(table, c, sign_extend(le_u16(b, pieces_at + 2 * c), 2))))
}

/// The rows of the two custom characters of the customizer record at `c`.
pub open spec fn customizer_rows(b: Seq<u8>, c: int, table: Seq<char>) -> Seq<RowView> {
    custom_rows(b, "Primary custom character"@, c + 0x14, "customizer.primary_use_saved_name"@, c + 0x34, c, table)
        + custom_rows(b, "Secondary custom character"@, c + 0x4c, "customizer.secondary_use_saved_name"@, c + 0x6c, c + 0x38, table)
}

/// The episode rows as a function of the episode index.
pub open spec fn episode_rows_of(b: Seq<u8>, p: int, floats: Seq<Seq<char>>) -> spec_fn(int) -> Seq<RowView> {
    |i: int| episode_row(b, p, floats[1 + i], i)
}

/// The area rows as a function of the area index.
pub open spec fn area_rows_of(b: Seq<u8>, p: int, areas: Seq<char>) -> spec_fn(int) -> Seq<RowView> {
    |i: int| area_row(b, p, areas, i)
}

/// The challenge-time rows as a function of the area index.
pub open spec fn challenge_rows_of(b: Seq<u8>, p: int, areas: Seq<char>, floats: Seq<Seq<char>>) -> spec_fn(int) -> Seq<RowView> {
    |i: int| challenge_row(b, p, areas, floats[7 + i], i)
}

/// The level rows as a function of the level index.
pub open spec fn level_rows_of(b: Seq<u8>, p: int, levels: Seq<char>) -> spec_fn(int) -> Seq<RowView> {
    |i: int| level_row(b, p, levels, i)
}

/// The mission rows as a function of the mission index.
pub open spec fn mission_rows_of(b: Seq<u8>, suffix: int, missions: Seq<char>, floats: Seq<Seq<char>>) -> spec_fn(int) -> Seq<RowView> {
    |i: int| mission_row(b, suffix, missions, floats[79 + i], i)
}

/// The rows of a game payload.  `floats` holds the gameplay time, then the
/// six episode time limits, the 72 area challenge times and the 20 mission
/// best times.
pub open spec fn game_rows(s: Save, fields: Seq<PropView>, t: NameTables, floats: Seq<Seq<char>>) -> Seq<RowView> {
    let b = s.bytes@;
    let p = s.payload as int;
    let kind = s.spec_kind();
    let suffix = suffix_offset(p, kind is AndroidGame);
    let shop = crate::shop_names(&t, kind);
    let areas = release_table(kind, t.windows_areas@, t.android_areas@);
    let levels = release_table(kind, t.windows_levels@, t.android_levels@);
    progress_rows(b, p, kind is AndroidGame, floats) + settings_rows(b, p) + collection_rows(kind, shop, fields, b)
        + rows_upto(episode_rows_of(b, p, floats), 6)
        + rows_upto(area_rows_of(b, p, areas), 72)
        + rows_upto(challenge_rows_of(b, p, areas, floats), 72)
        + rows_upto(level_rows_of(b, p, levels), 366)
        + rows_upto(mission_rows_of(b, suffix, t.missions@, floats), 20)
        + character_rows(b, suffix, release_table(kind, t.windows_characters@, t.android_characters@))
        + customizer_rows(b, suffix + 4, t.customizer_pieces@)
}

/// Every summary row of a save.
pub open spec fn spec_summary_rows(s: Save, fields: Seq<PropView>, t: NameTables, floats: Seq<Seq<char>>) -> Seq<RowView> {
    save_rows(s) + metadata_rows(s.bytes@) + if s.spec_kind() is AndroidOptions {
        options_rows(s.bytes@, s.payload as int, floats)
    } else {
        game_rows(s, fields, t, floats)
    }
}

/// The summary opens with the file's kind and a `Checksum` row that reads
/// `Valid` exactly when the checksum word stored after the payload equals
/// the checksum computed over the payload, and `Invalid` otherwise.
pub proof fn law_summary_checksum_row(s: Save, fields: Seq<PropView>, t: NameTables, floats: Seq<Seq<char>>)
    ensures
        ({
            let rows = spec_summary_rows(s, fields, t, floats);
            let stored = le_u32(s.bytes@, s.payload + s.payload_size);
            let computed = crate::format::spec_checksum(s.bytes@, s.payload as int, s.payload_size as int);
            &&& rows.len() >= 3
            &&& rows[0] == ("Save"@, "Kind"@, s.spec_kind().spec_description())
            &&& rows[1] == ("Save"@, "Checksum"@, if stored == computed { "Valid"@ } else { "Invalid"@ })
        }),
{
    let head = save_rows(s) + metadata_rows(s.bytes@);
    let rows = spec_summary_rows(s, fields, t, floats);
    assert(save_rows(s).len() >= 3);
    assert(rows[0] == save_rows(s)[0]);
    assert(rows[1] == save_rows(s)[1]);
}

/// In the summary of an Android game save, the `Progress` section has an
/// `Indiana Jones` row that reads `Locked` when the stored unlock byte
/// (payload offset `0x7c29`) is zero and `Unlocked` when it is not.
pub proof fn law_indiana_jones_row(s: Save, fields: Seq<PropView>, t: NameTables, floats: Seq<Seq<char>>)
    requires
        s.spec_kind() == SaveKind::AndroidGame,
    ensures
        ({
            let rows = spec_summary_rows(s, fields, t, floats);
            let unlock = s.bytes@[s.payload + 0x7c29];
            &&& unlock == 0 ==> exists|i: int|
                0 <= i < rows.len() && #[trigger] rows[i] == ("Progress"@, "Indiana Jones"@, "Locked"@)
            &&& unlock != 0 ==> exists|i: int|
                0 <= i < rows.len() && #[trigger] rows[i] == ("Progress"@, "Indiana Jones"@, "Unlocked"@)
        }),
{
    let b = s.bytes@;
    let p = s.payload as int;
    let pr = progress_rows(b, p, true, floats);
    let g = game_rows(s, fields, t, floats);
    let head = save_rows(s) + metadata_rows(b);
    let rows = spec_summary_rows(s, fields, t, floats);
    assert(pr.len() == 9);
    assert(pr[3] == srow("Progress"@, "Indiana Jones"@, if b[p + 0x7c29] == 0 { "Locked"@ } else { "Unlocked"@ }));
    assert(g[3] == pr[3]);
    assert(rows == head + g);
    let k: int = head.len() + 3int;
    assert(rows[k] == g[3]);
}

/// The stored floats the summary shows, as bits: for SuperOptions the four
/// control coordinates; for a game the gameplay time, the six episode time
/// limits, the 72 area challenge times and the 20 mission best times.
pub open spec fn spec_summary_floats(s: Save) -> Seq<u32> {
    let b = s.bytes@;
    let p = s.payload as int;
    if s.spec_kind() is AndroidOptions {
        Seq::new(4, |k: int| le_u32(b, p + 4 + 4 * k) as u32)
    } else {
        let suffix = suffix_offset(p, s.spec_kind() is AndroidGame);
        seq![le_u32(b, suffix) as u32]
            + Seq::new(6, |i: int| le_u32(b, p + 0x7b8c + 12 * i) as u32)
            + Seq::new(72, |i: int| le_u32(b, p + 0x782c + 12 * i + 8) as u32)
            + Seq::new(20, |i: int| le_u32(b, suffix + 0x74 + 4 * i) as u32)
    }
}


fn add_row(rows: &mut Vec<SummaryRow>, section: &str, label: String, value: String)
    ensures
        row_views(final(rows)@) == row_views(old(rows)@).push(srow(section@, label@, value@)),
{
    let ghost before = rows@;
    rows.push(SummaryRow { section: String::from_str(section), label, value });
    assert(row_views(rows@) =~= row_views(before).push(srow(section@, label@, value@)));
}

fn text(s: &str) -> (res: String)
    ensures
        res@ == s@,
{
    String::from_str(s)
}

fn read_u16(b: &[u8], off: usize) -> (res: u16)
    requires
        off + 2 <= b@.len(),
    ensures
        res == le_u16(b@, off as int),
{
    b[off] as u16 + 256 * b[off + 1] as u16
}

/// `s` followed by `tail`.
fn joined(s: &str, tail: &str) -> (res: String)
    ensures
        res@ == s@ + tail@,
{
    let mut out = String::from_str(s);
    out.append(tail);
    out
}

fn push_save_rows(rows: &mut Vec<SummaryRow>, save: &Save)
    requires
        save.has_layout(),
        save.bytes@.len() * 8 <= usize::MAX,
    ensures
        row_views(final(rows)@) == row_views(old(rows)@) + save_rows(*save),
{
    let ghost start = row_views(rows@);
    proof {
        reveal_strlit("Save");
        reveal_strlit("Valid");
        reveal_strlit("Invalid");
    }
    add_row(rows, "Save", text("Kind"), text(save.kind().description()));
    let valid = if save.checksum_valid() { text("Valid") } else { text("Invalid") };
    add_row(rows, "Save", text("Checksum"), valid);
    let size = crate::summary::number(save.bytes.len() as i64);
    add_row(rows, "Save", text("File size"), joined(size.as_str(), " bytes"));
    if save.payload > HEADER_SIZE {
        let mut v = crate::text::decimal_string((save.payload - HEADER_SIZE) as u64);
        v.append(" bytes preserved");
        add_row(rows, "Save", text("Opaque prefix"), v);
    }
    assert(row_views(rows@) =~= start + save_rows(*save));
}

fn push_opt_row(rows: &mut Vec<SummaryRow>, section: &str, label: &str, value: Option<String>)
    ensures
        row_views(final(rows)@) == row_views(old(rows)@) + opt_row(section@, label@, crate::format::opt_text(value)),
{
    let ghost start = row_views(rows@);
    match value {
        Some(v) => add_row(rows, section, text(label), v),
        None => {},
    }
    assert(row_views(rows@) =~= start + opt_row(section@, label@, crate::format::opt_text(value)));
}

fn push_metadata_rows(rows: &mut Vec<SummaryRow>, save: &Save)
    requires
        save.has_layout(),
    ensures
        row_views(final(rows)@) == row_views(old(rows)@) + metadata_rows(save.bytes@),
{
    let ghost start = row_views(rows@);
    let m = save.header_metadata();
    push_opt_row(rows, "Envelope metadata", "Application", m.application);
    push_opt_row(rows, "Envelope metadata", "Slot label", m.slot);
    push_opt_row(rows, "Envelope metadata", "Reserved label", m.reserved);
    push_opt_row(rows, "Envelope metadata", "Saved at", m.timestamp);
    assert(row_views(rows@) =~= start + metadata_rows(save.bytes@));
}

fn position(x: &String, y: &String) -> (res: String)
    ensures
        res@ == position_text(x@, y@),
{
    let mut out = String::from_str("(");
    out.append(x.as_str());
    out.append(", ");
    out.append(y.as_str());
    out.append(")");
    proof {
        reveal_strlit("(");
        reveal_strlit(", ");
        reveal_strlit(")");
    }
    out
}

fn push_options_rows(rows: &mut Vec<SummaryRow>, save: &Save, floats: &[String])
    requires
        save.has_layout(),
        save.spec_kind() is AndroidOptions,
        floats@.len() == 4,
    ensures
        row_views(final(rows)@) == row_views(old(rows)@) + options_rows(save.bytes@, save.payload as int, string_views(floats@)),
{
    let ghost start = row_views(rows@);
    let ghost fl = string_views(floats@);
    let b = save.bytes.as_slice();
    let p = save.payload;
    let _n = b.len();
    assert(save.payload_size == crate::format::OPTIONS_SIZE);
    add_row(rows, "Controls", text("Mode"), crate::summary::human_enum("options.touch_controls", b[p + 2] as u32));
    add_row(rows, "Controls", text("D-pad lock"), crate::summary::human_enum("options.dpad_locked", b[p + 3] as u32));
    add_row(rows, "Controls", text("Left position"), position(&floats[0], &floats[1]));
    add_row(rows, "Controls", text("Right position"), position(&floats[2], &floats[3]));
    add_row(rows, "Audio", text("Music"), crate::summary::human_enum("options.music_enabled", b[p + 0x14] as u32));
    add_row(rows, "Store entitlements", text("Packs"), crate::summary::human_enum("options.store_pack_flags", read_u16(b, p) as u32));
    add_row(rows, "Store entitlements", text("Bundles"), crate::summary::human_enum("options.store_bundle_flags", b[p + 0x15] as u32));
    assert(fl[0] == floats@[0]@ && fl[1] == floats@[1]@ && fl[2] == floats@[2]@ && fl[3] == floats@[3]@);
    assert(row_views(rows@) =~= start + options_rows(save.bytes@, save.payload as int, fl));
}


/// The game payload sizes leave room for every record the summary reads.
pub open spec fn game_layout(save: Save) -> bool {
    &&& save.has_layout()
    &&& !(save.spec_kind() is AndroidOptions)
}

proof fn lemma_game_size(save: Save)
    requires
        game_layout(save),
    ensures
        save.payload_size >= crate::format::WINDOWS_GAME_SIZE,
        save.spec_kind() is AndroidGame ==> save.payload_size == crate::format::ANDROID_GAME_SIZE,
        save.spec_kind() is WindowsGame ==> save.payload_size == crate::format::WINDOWS_GAME_SIZE,
{
}

fn push_progress_rows(rows: &mut Vec<SummaryRow>, save: &Save, floats: &[String])
    requires
        game_layout(*save),
        floats@.len() >= 1,
        save.bytes@.len() * 8 <= usize::MAX,
    ensures
        row_views(final(rows)@) == row_views(old(rows)@) + progress_rows(save.bytes@, save.payload as int,
            save.spec_kind() is AndroidGame, string_views(floats@)),
{
    proof { lemma_game_size(*save); }
    let ghost start = row_views(rows@);
    let b = save.bytes.as_slice();
    let p = save.payload;
    let _n = b.len();
    let android = save.kind() == SaveKind::AndroidGame;
    if android {
        let s = p + 0x7c20;
        add_row(rows, "Progress", text("Studs"), crate::summary::number(crate::format::read_le_u32(b, s) as i64));
        add_row(rows, "Progress", text("Completion points"), crate::summary::number(read_u16(b, s + 4) as i64));
        add_row(rows, "Progress", text("Gold bricks"), crate::summary::number(b[s + 6] as i64));
        let indy = if b[s + 9] == 0 { text("Locked") } else { text("Unlocked") };
        add_row(rows, "Progress", text("Indiana Jones"), indy);
        add_row(rows, "Progress", text("Completion rewards"), crate::summary::human_enum("reward_flags", b[s + 7] as u32));
        add_row(rows, "Progress", text("Hub builds"), crate::summary::human_enum("hub_build_flags", b[s + 8] as u32));
    } else {
        let code = save.slot_code();
        let signed: i64 = if code < 0x8000_0000 { code as i64 } else { code as i64 - 0x1_0000_0000 };
        add_row(rows, "Progress", text("Stored slot code"), crate::summary::number(signed));
    }
    let ghost mid = row_views(rows@);
    add_row(rows, "Progress", text("Gameplay time"), floats[0].clone());
    add_row(rows, "Progress", text("Difficulty"), crate::text::decimal_string(b[p + 1] as u64));
    add_row(rows, "Progress", text("Suit abilities"), crate::summary::human_enum("suit_flags", crate::format::read_le_u32(b, p + 0x7bfc)));
    proof {
        reveal_strlit("Locked");
        reveal_strlit("Unlocked");
        assert(string_views(floats@)[0] == floats@[0]@);
    }
    assert(row_views(rows@) =~= start + progress_rows(save.bytes@, save.payload as int, save.spec_kind() is AndroidGame, string_views(floats@)));
}

fn level_of(v: u8) -> (res: String)
    ensures
        res@ == level_text(v),
{
    let mut s = crate::text::decimal_string(v as u64);
    s.append("/10");
    s
}

fn push_settings_rows(rows: &mut Vec<SummaryRow>, save: &Save)
    requires
        game_layout(*save),
    ensures
        row_views(final(rows)@) == row_views(old(rows)@) + settings_rows(save.bytes@, save.payload as int),
{
    proof { lemma_game_size(*save); }
    let ghost start = row_views(rows@);
    let b = save.bytes.as_slice();
    let p = save.payload;
    let _n = b.len();
    add_row(rows, "Game settings", text("Player 1 rumble"), crate::summary::human_enum("options_save.player1_rumble", b[p + 4] as u32));
    add_row(rows, "Game settings", text("Player 2 rumble"), crate::summary::human_enum("options_save.player2_rumble", b[p + 5] as u32));
    add_row(rows, "Game settings", text("Surround sound"), crate::summary::human_enum("options_save.surround_sound", b[p + 6] as u32));
    add_row(rows, "Game settings", text("Music"), crate::summary::human_enum("options_save.music_enabled", b[p + 0xa] as u32));
    add_row(rows, "Game settings", text("Widescreen"), crate::summary::human_enum("options_save.widescreen", b[p + 0xf] as u32));
    add_row(rows, "Game settings", text("Sound volume"), level_of(b[p + 7]));
    add_row(rows, "Game settings", text("Music volume"), level_of(b[p + 8]));
    add_row(rows, "Game settings", text("Master volume"), level_of(b[p + 9]));
    add_row(rows, "Game settings", text("Brightness"), level_of(b[p + 0x10]));
    assert(row_views(rows@) =~= start + settings_rows(save.bytes@, save.payload as int));
}

fn push_collection_rows(rows: &mut Vec<SummaryRow>, save: &Save, fields: &[Property], shop: &Vec<String>)
    requires
        save.has_layout(),
        all_fit(views(fields@), save.bytes@.len() as int),
        save.bytes@.len() * 8 <= usize::MAX,
    ensures
        row_views(final(rows)@) == row_views(old(rows)@) + collection_rows(save.spec_kind(), string_views(shop@), views(fields@), save.bytes@),
{
    let ghost start = row_views(rows@);
    let kind = save.kind();
    add_row(rows, "Collections", text("Purchased characters"), crate::summary::mask_summary(save, kind, shop, fields, "shop_character_purchased_bits"));
    add_row(rows, "Collections", text("Purchased hints"), crate::summary::mask_summary(save, kind, shop, fields, "shop_hint_purchased_bits"));
    add_row(rows, "Collections", text("Unlocked extras"), crate::summary::mask_summary(save, kind, shop, fields, "extra_unlocked_bits"));
    add_row(rows, "Collections", text("Purchased extras"), crate::summary::mask_summary(save, kind, shop, fields, "extra_purchased_bits"));
    add_row(rows, "Collections", text("Purchased gold bricks"), crate::summary::mask_summary(save, kind, shop, fields, "shop_gold_brick_purchased_bits"));
    add_row(rows, "Collections", text("Completed tutorials"), crate::summary::mask_summary(save, kind, shop, fields, "hint_completion_bits"));
    assert(row_views(rows@) =~= start + collection_rows(save.spec_kind(), string_views(shop@), views(fields@), save.bytes@));
}


fn push_episode_row(rows: &mut Vec<SummaryRow>, save: &Save, time: &String, i: usize)
    requires
        game_layout(*save),
        i < 6,
    ensures
        row_views(final(rows)@) == row_views(old(rows)@) + episode_row(save.bytes@, save.payload as int, time@, i as int),
{
    proof { lemma_game_size(*save); }
    let ghost start = row_views(rows@);
    let b = save.bytes.as_slice();
    let _n = b.len();
    let e = save.payload + 0x7b8c + 12 * i;
    let flags = crate::format::read_le_u32(b, e + 8);
    let score = crate::format::read_le_u32(b, e + 4);
    let signed: i64 = if score < 0x8000_0000 { score as i64 } else { score as i64 - 0x1_0000_0000 };
    let mut values: Vec<String> = Vec::new();
    values.push(if flags & 1u32 != 0 { text("Completed") } else { text("Not completed") });
    values.push(joined("stored time ", time.as_str()));
    values.push(joined("stored score ", crate::summary::number(signed).as_str()));
    if flags & !1u32 != 0 {
        let mut t = text("unknown flags 0x");
        crate::summary::push_hex_number(&mut t, flags & !1u32);
        values.push(t);
    }
    let mut value = String::new();
    crate::rawlist::push_joined(&mut value, &values, "; ");
    let mut label = text("Episode ");
    crate::text::push_decimal(&mut label, (i + 1) as u64);
    add_row(rows, "Episodes", label, value);
    proof {
        reveal_strlit("Completed");
        reveal_strlit("Not completed");
        reveal_strlit("unknown flags 0x");
        let ghost seq3 = seq![
            if flags & 1u32 != 0 { "Completed"@ } else { "Not completed"@ },
            "stored time "@ + time@,
            "stored score "@ + number_text(le_i32(save.bytes@, e + 4)),
        ];
        if flags & !1u32 != 0 {
            assert(string_views(values@) =~= seq3.push("unknown flags 0x"@ + hex_number((flags & !1u32) as nat)));
        } else {
            assert(string_views(values@) =~= seq3);
        }
    }
    assert(row_views(rows@) =~= start + episode_row(save.bytes@, save.payload as int, time@, i as int));
}

fn push_area_row(rows: &mut Vec<SummaryRow>, save: &Save, tables: &NameTables, i: usize)
    requires
        game_layout(*save),
        i < 72,
    ensures
        row_views(final(rows)@) == row_views(old(rows)@) + area_row(save.bytes@, save.payload as int,
            release_table(save.spec_kind(), tables.windows_areas@, tables.android_areas@), i as int),
{
    proof { lemma_game_size(*save); }
    let ghost start = row_views(rows@);
    let b = save.bytes.as_slice();
    let _n = b.len();
    let a = save.payload + 0x782c + 12 * i;
    let mut values: Vec<String> = Vec::new();
    let ghost v0: Seq<Seq<char>> = if b[a as int] != 0 { seq!["available"@] } else { seq![] };
    if b[a] != 0 {
        values.push(text("available"));
    }
    assert(string_views(values@) =~= v0);
    if b[a + 1] != 0 {
        values.push(text("complete"));
    }
    if b[a + 2] != 0 {
        values.push(text("story buildup complete"));
    }
    if b[a + 3] != 0 {
        values.push(text("free-play buildup complete"));
    }
    if b[a + 4] != 0 {
        values.push(text("minikit complete"));
    } else if b[a + 5] != 0 {
        let mut t = crate::text::decimal_string(b[a + 5] as u64);
        t.append(" minikits");
        values.push(t);
    }
    if b[a + 6] != 0 {
        values.push(text("red brick collected"));
    }
    assert(string_views(values@) =~= area_values(save.bytes@, a as int));
    if values.len() > 0 {
        let name = crate::names::area_name(tables, save.kind(), i);
        let label = crate::summary::configured_name(name, "area", i);
        let mut value = String::new();
        crate::rawlist::push_joined(&mut value, &values, ", ");
        add_row(rows, "Areas with progress", label, value);
        proof { reveal_strlit(", "); }
    }
    assert(row_views(rows@) =~= start + area_row(save.bytes@, save.payload as int,
        release_table(save.spec_kind(), tables.windows_areas@, tables.android_areas@), i as int));
}

fn push_challenge_row(rows: &mut Vec<SummaryRow>, save: &Save, tables: &NameTables, time: &String, i: usize)
    requires
        game_layout(*save),
        i < 72,
    ensures
        row_views(final(rows)@) == row_views(old(rows)@) + challenge_row(save.bytes@, save.payload as int,
            release_table(save.spec_kind(), tables.windows_areas@, tables.android_areas@), time@, i as int),
{
    proof { lemma_game_size(*save); }
    let ghost start = row_views(rows@);
    let b = save.bytes.as_slice();
    let _n = b.len();
    let a = save.payload + 0x782c + 12 * i;
    let bits = crate::format::read_le_u32(b, a + 8);
    if bits % 0x8000_0000 != 0 {
        let name = crate::names::area_name(tables, save.kind(), i);
        let label = crate::summary::configured_name(name, "area", i);
        add_row(rows, "Stored challenge times", label, time.clone());
    }
    assert(row_views(rows@) =~= start + challenge_row(save.bytes@, save.payload as int,
        release_table(save.spec_kind(), tables.windows_areas@, tables.android_areas@), time@, i as int));
}

fn push_mission_row(rows: &mut Vec<SummaryRow>, save: &Save, tables: &NameTables, time: &String, i: usize)
    requires
        game_layout(*save),
        i < 20,
    ensures
        row_views(final(rows)@) == row_views(old(rows)@) + mission_row(save.bytes@,
            suffix_offset(save.payload as int, save.spec_kind() is AndroidGame), tables.missions@, time@, i as int),
{
    proof { lemma_game_size(*save); }
    let ghost start = row_views(rows@);
    let b = save.bytes.as_slice();
    let _n = b.len();
    let suffix = if save.kind() == SaveKind::AndroidGame { save.payload + 0x7c2c } else { save.payload + 0x7c20 };
    let done = b[suffix + 0xc4 + i] != 0;
    let timed = crate::format::read_le_u32(b, suffix + 0x74 + 4 * i) % 0x8000_0000 != 0;
    if done || timed {
        let state = if done { "Complete" } else { "Incomplete" };
        let value = if timed { let mut v = joined(state, "; best time "); v.append(time.as_str()); v } else { text(state) };
        let label = match crate::names::mission_name(tables, i) {
            Some(n) => joined("Find ", n.as_str()),
            None => {
                let mut l = text("Unknown mission (ID ");
                crate::text::push_decimal(&mut l, i as u64);
                l.append(")");
                l
            },
        };
        add_row(rows, "Missions with progress", label, value);
        proof {
            reveal_strlit("Complete");
            reveal_strlit("Incomplete");
        }
    }
    assert(row_views(rows@) =~= start + mission_row(save.bytes@,
        suffix_offset(save.payload as int, save.spec_kind() is AndroidGame), tables.missions@, time@, i as int));
}


fn push_level_row(rows: &mut Vec<SummaryRow>, save: &Save, tables: &NameTables, i: usize)
    requires
        game_layout(*save),
        i < 366,
    ensures
        row_views(final(rows)@) == row_views(old(rows)@) + level_row(save.bytes@, save.payload as int,
            release_table(save.spec_kind(), tables.windows_levels@, tables.android_levels@), i as int),
{
    proof { lemma_game_size(*save); }
    let ghost start = row_views(rows@);
    let b = save.bytes.as_slice();
    let _n = b.len();
    let l = save.payload + 0x11 + 0x54 * i;
    let count: usize = if (b[l + 0x50] as usize) < 10 { b[l + 0x50] as usize } else { 10 };
    let mut names: Vec<String> = Vec::new();
    let mut j: usize = 0;
    while j < count
        invariant
            count <= 10,
            j <= count,
            b@ == save.bytes@,
            l + 0x54 <= b@.len(),
            string_views(names@) == minikit_texts(save.bytes@, l as int, j as int),
        decreases count - j,
    {
        let _m = b.len();
        let t = crate::summary::fixed_text(vstd::slice::slice_subrange(b, l + 8 * j, l + 8 * j + 8));
        proof { reveal_strlit("(empty)"); }
        if !crate::text::str_equal(t.as_str(), "(empty)") {
            let ghost before = names@;
            names.push(t);
            assert(string_views(names@) =~= string_views(before).push(t@));
        }
        j = j + 1;
    }
    let mut name = text("level_save[");
    crate::text::push_decimal(&mut name, i as u64);
    name.append("].arcade_flags");
    let arcade = crate::summary::human_enum(name.as_str(), b[l + 0x53] as u32);
    proof {
        reveal_strlit("None");
        reveal_strlit("level_save[");
        reveal_strlit("].arcade_flags");
        assert(name@ =~= arcade_name(i as int));
    }
    let listed = !crate::text::str_equal(arcade.as_str(), "None");
    if names.len() > 0 || listed {
        let mut values: Vec<String> = Vec::new();
        if names.len() > 0 {
            let mut v = text("minikits: ");
            crate::rawlist::push_joined(&mut v, &names, ", ");
            values.push(v);
        }
        if listed {
            values.push(joined("arcade: ", arcade.as_str()));
        }
        proof {
            reveal_strlit("minikits: ");
            reveal_strlit(", ");
            let v0: Seq<Seq<char>> = if names@.len() > 0 { seq!["minikits: "@ + join(string_views(names@), ", "@)] } else { seq![] };
            if listed {
                assert(string_views(values@) =~= v0.push("arcade: "@ + arcade@));
            } else {
                assert(string_views(values@) =~= v0);
            }
        }
        let mut value = String::new();
        crate::rawlist::push_joined(&mut value, &values, "; ");
        let label = crate::summary::configured_name(crate::names::level_name(tables, save.kind(), i), "level", i);
        add_row(rows, "Levels with progress", label, value);
    }
    assert(row_views(rows@) =~= start + level_row(save.bytes@, save.payload as int,
        release_table(save.spec_kind(), tables.windows_levels@, tables.android_levels@), i as int));
}

fn push_character_rows(rows: &mut Vec<SummaryRow>, save: &Save, tables: &NameTables)
    requires
        game_layout(*save),
    ensures
        row_views(final(rows)@) == row_views(old(rows)@) + character_rows(save.bytes@,
            suffix_offset(save.payload as int, save.spec_kind() is AndroidGame),
            release_table(save.spec_kind(), tables.windows_characters@, tables.android_characters@)),
{
    proof { lemma_game_size(*save); }
    let ghost start = row_views(rows@);
    let b = save.bytes.as_slice();
    let _n = b.len();
    let kind = save.kind();
    let suffix = if kind == SaveKind::AndroidGame { save.payload + 0x7c2c } else { save.payload + 0x7c20 };
    let states = vstd::slice::slice_subrange(b, suffix + 0xd8, suffix + 0xd8 + 340);
    add_row(rows, "Characters", text("Owned / playable"), crate::summary::character_summary(tables, kind, states, CharacterState::Owned));
    add_row(rows, "Characters", text("Unlocked / not owned"), crate::summary::character_summary(tables, kind, states, CharacterState::UnlockedNotOwned));
    let unusual = crate::summary::character_summary(tables, kind, states, CharacterState::UnknownBits);
    proof { reveal_strlit("None"); }
    if !crate::text::str_equal(unusual.as_str(), "None") {
        add_row(rows, "Characters", text("Unknown state bits"), unusual);
    }
    assert(row_views(rows@) =~= start + character_rows(save.bytes@,
        suffix_offset(save.payload as int, save.spec_kind() is AndroidGame),
        release_table(save.spec_kind(), tables.windows_characters@, tables.android_characters@)));
}

fn push_custom_rows(rows: &mut Vec<SummaryRow>, save: &Save, tables: &NameTables, section: &str, name_at: usize, naming: &str, naming_at: usize, pieces_at: usize)
    requires
        tables.spec_valid(),
        name_at + 32 <= save.bytes@.len(),
        naming_at < save.bytes@.len(),
        pieces_at + 18 <= save.bytes@.len(),
    ensures
        row_views(final(rows)@) == row_views(old(rows)@) + custom_rows(save.bytes@, section@, name_at as int, naming@,
            naming_at as int, pieces_at as int, tables.customizer_pieces@),
{
    let ghost start = row_views(rows@);
    let b = save.bytes.as_slice();
    add_row(rows, section, text("Name"), crate::summary::fixed_text(vstd::slice::slice_subrange(b, name_at, name_at + 32)));
    add_row(rows, section, text("Naming"), crate::summary::human_enum(naming, b[naming_at] as u32));
    let ghost head = row_views(rows@);
    let ghost pieces = Seq::new(9, |c: int| srow(section@, crate::names::spec_customizer_category(c),
        spec_piece_summary(tables.customizer_pieces@, c, sign_extend(le_u16(save.bytes@, pieces_at + 2 * c), 2))));
    let mut c: usize = 0;
    while c < 9
        invariant
            c <= 9,
            b@ == save.bytes@,
            pieces_at + 18 <= b@.len(),
            tables.spec_valid(),
            pieces == Seq::new(9, |c: int| srow(section@, crate::names::spec_customizer_category(c),
                spec_piece_summary(tables.customizer_pieces@, c, sign_extend(le_u16(save.bytes@, pieces_at + 2 * c), 2)))),
            row_views(rows@) == head + pieces.take(c as int),
        decreases 9 - c,
    {
        let _m = b.len();
        let u = read_u16(b, pieces_at + 2 * c);
        let v: i16 = if u < 0x8000 { u as i16 } else { (u as i32 - 0x1_0000) as i16 };
        assert(v as int == sign_extend(le_u16(save.bytes@, pieces_at + 2 * c), 2));
        let label = text(crate::names::customizer_category(c));
        add_row(rows, section, label, crate::summary::piece_summary(tables, c, v));
        assert(pieces.take(c + 1) =~= pieces.take(c as int).push(pieces[c as int]));
        c = c + 1;
    }
    assert(pieces.take(9) =~= pieces);
    assert(row_views(rows@) =~= start + custom_rows(save.bytes@, section@, name_at as int, naming@,
        naming_at as int, pieces_at as int, tables.customizer_pieces@));
}

fn push_customizer_rows(rows: &mut Vec<SummaryRow>, save: &Save, tables: &NameTables)
    requires
        game_layout(*save),
        tables.spec_valid(),
    ensures
        row_views(final(rows)@) == row_views(old(rows)@) + customizer_rows(save.bytes@,
            suffix_offset(save.payload as int, save.spec_kind() is AndroidGame) + 4, tables.customizer_pieces@),
{
    proof { lemma_game_size(*save); }
    let ghost start = row_views(rows@);
    let _n = save.bytes.len();
    let c = if save.kind() == SaveKind::AndroidGame { save.payload + 0x7c30 } else { save.payload + 0x7c24 };
    push_custom_rows(rows, save, tables, "Primary custom character", c + 0x14, "customizer.primary_use_saved_name", c + 0x34, c);
    push_custom_rows(rows, save, tables, "Secondary custom character", c + 0x4c, "customizer.secondary_use_saved_name", c + 0x6c, c + 0x38);
    assert(row_views(rows@) =~= start + customizer_rows(save.bytes@,
        suffix_offset(save.payload as int, save.spec_kind() is AndroidGame) + 4, tables.customizer_pieces@));
}


fn push_game_rows(rows: &mut Vec<SummaryRow>, save: &Save, fields: &[Property], tables: &NameTables, floats: &[String])
    requires
        game_layout(*save),
        tables.spec_valid(),
        all_fit(views(fields@), save.bytes@.len() as int),
        save.bytes@.len() * 8 <= usize::MAX,
        floats@.len() == 99,
    ensures
        row_views(final(rows)@) == row_views(old(rows)@) + game_rows(*save, views(fields@), *tables, string_views(floats@)),
{
    let ghost start = row_views(rows@);
    let ghost b = save.bytes@;
    let ghost p = save.payload as int;
    let ghost fl = string_views(floats@);
    let kind = save.kind();
    let shop = crate::names::shop_character_names(tables, kind);
    push_progress_rows(rows, save, floats);
    push_settings_rows(rows, save);
    push_collection_rows(rows, save, fields, &shop);
    let ghost f = episode_rows_of(b, p, fl);
    let ghost head = row_views(rows@);
    let mut i: usize = 0;
    while i < 6
        invariant
            game_layout(*save),
            b == save.bytes@,
            p == save.payload,
            floats@.len() == 99,
            fl == string_views(floats@),
            f == episode_rows_of(b, p, fl),
            i <= 6,
            row_views(rows@) == head + rows_upto(f, i as int),
        decreases 6 - i,
    {
        push_episode_row(rows, save, &floats[1 + i], i);
        assert(fl[1 + i as int] == floats@[1 + i as int]@);
        assert(row_views(rows@) =~= head + rows_upto(f, i + 1));
        i = i + 1;
    }
    let ghost areas = release_table(kind, tables.windows_areas@, tables.android_areas@);
    let ghost f = area_rows_of(b, p, areas);
    let ghost head = row_views(rows@);
    let mut i: usize = 0;
    while i < 72
        invariant
            game_layout(*save),
            b == save.bytes@,
            p == save.payload,
            kind == save.spec_kind(),
            areas == release_table(kind, tables.windows_areas@, tables.android_areas@),
            f == area_rows_of(b, p, areas),
            i <= 72,
            row_views(rows@) == head + rows_upto(f, i as int),
        decreases 72 - i,
    {
        push_area_row(rows, save, tables, i);
        assert(row_views(rows@) =~= head + rows_upto(f, i + 1));
        i = i + 1;
    }
    let ghost f = challenge_rows_of(b, p, areas, fl);
    let ghost head = row_views(rows@);
    let mut i: usize = 0;
    while i < 72
        invariant
            game_layout(*save),
            b == save.bytes@,
            p == save.payload,
            kind == save.spec_kind(),
            floats@.len() == 99,
            fl == string_views(floats@),
            areas == release_table(kind, tables.windows_areas@, tables.android_areas@),
            f == challenge_rows_of(b, p, areas, fl),
            i <= 72,
            row_views(rows@) == head + rows_upto(f, i as int),
        decreases 72 - i,
    {
        push_challenge_row(rows, save, tables, &floats[7 + i], i);
        assert(fl[7 + i as int] == floats@[7 + i as int]@);
        assert(row_views(rows@) =~= head + rows_upto(f, i + 1));
        i = i + 1;
    }
    let ghost levels = release_table(kind, tables.windows_levels@, tables.android_levels@);
    let ghost f = level_rows_of(b, p, levels);
    let ghost head = row_views(rows@);
    let mut i: usize = 0;
    while i < 366
        invariant
            game_layout(*save),
            b == save.bytes@,
            p == save.payload,
            kind == save.spec_kind(),
            levels == release_table(kind, tables.windows_levels@, tables.android_levels@),
            f == level_rows_of(b, p, levels),
            i <= 366,
            row_views(rows@) == head + rows_upto(f, i as int),
        decreases 366 - i,
    {
        push_level_row(rows, save, tables, i);
        assert(row_views(rows@) =~= head + rows_upto(f, i + 1));
        i = i + 1;
    }
    let ghost suffix = suffix_offset(p, kind is AndroidGame);
    let ghost f = mission_rows_of(b, suffix, tables.missions@, fl);
    let ghost head = row_views(rows@);
    let mut i: usize = 0;
    while i < 20
        invariant
            game_layout(*save),
            b == save.bytes@,
            p == save.payload,
            kind == save.spec_kind(),
            floats@.len() == 99,
            fl == string_views(floats@),
            suffix == suffix_offset(p, kind is AndroidGame),
            f == mission_rows_of(b, suffix, tables.missions@, fl),
            i <= 20,
            row_views(rows@) == head + rows_upto(f, i as int),
        decreases 20 - i,
    {
        push_mission_row(rows, save, tables, &floats[79 + i], i);
        assert(fl[79 + i as int] == floats@[79 + i as int]@);
        assert(row_views(rows@) =~= head + rows_upto(f, i + 1));
        i = i + 1;
    }
    push_character_rows(rows, save, tables);
    push_customizer_rows(rows, save, tables);
    assert(row_views(rows@) =~= start + game_rows(*save, views(fields@), *tables, string_views(floats@)));
}

/// The bits of the stored floats the summary shows, in the order
/// `summary_text` takes their texts.
pub fn summary_floats(save: &Save) -> (res: Vec<u32>)
    requires
        save.has_layout(),
    ensures
        res@ == spec_summary_floats(*save),
{
    let b = save.bytes.as_slice();
    let _n = b.len();
    let p = save.payload;
    let kind = save.kind();
    let mut out: Vec<u32> = Vec::new();
    if kind == SaveKind::AndroidOptions {
        assert(save.payload_size == crate::format::OPTIONS_SIZE);
        let mut k: usize = 0;
        while k < 4
            invariant
                k <= 4,
                b@ == save.bytes@,
                p == save.payload,
                p + 0x18 <= b@.len(),
                out@ == Seq::new(4, |k: int| le_u32(save.bytes@, p + 4 + 4 * k) as u32).take(k as int),
            decreases 4 - k,
        {
            let _m = b.len();
            out.push(crate::format::read_le_u32(b, p + 4 + 4 * k));
            assert(out@ =~= Seq::new(4, |k: int| le_u32(save.bytes@, p + 4 + 4 * k) as u32).take(k + 1));
            k = k + 1;
        }
        assert(out@ =~= spec_summary_floats(*save));
        return out;
    }
    proof { lemma_game_size(*save); }
    let suffix = if kind == SaveKind::AndroidGame { p + 0x7c2c } else { p + 0x7c20 };
    out.push(crate::format::read_le_u32(b, suffix));
    let ghost e = Seq::new(6, |i: int| le_u32(save.bytes@, p + 0x7b8c + 12 * i) as u32);
    let ghost a = Seq::new(72, |i: int| le_u32(save.bytes@, p + 0x782c + 12 * i + 8) as u32);
    let ghost m = Seq::new(20, |i: int| le_u32(save.bytes@, suffix + 0x74 + 4 * i) as u32);
    let ghost first = out@;
    let mut i: usize = 0;
    while i < 6
        invariant
            i <= 6,
            b@ == save.bytes@,
            p == save.payload,
            game_layout(*save),
            save.payload_size >= crate::format::WINDOWS_GAME_SIZE,
            e == Seq::new(6, |i: int| le_u32(save.bytes@, p + 0x7b8c + 12 * i) as u32),
            out@ == first + e.take(i as int),
        decreases 6 - i,
    {
        let _m = b.len();
        out.push(crate::format::read_le_u32(b, p + 0x7b8c + 12 * i));
        assert(out@ =~= first + e.take(i + 1));
        i = i + 1;
    }
    let ghost second = out@;
    let mut i: usize = 0;
    while i < 72
        invariant
            i <= 72,
            b@ == save.bytes@,
            p == save.payload,
            game_layout(*save),
            save.payload_size >= crate::format::WINDOWS_GAME_SIZE,
            a == Seq::new(72, |i: int| le_u32(save.bytes@, p + 0x782c + 12 * i + 8) as u32),
            out@ == second + a.take(i as int),
        decreases 72 - i,
    {
        let _m = b.len();
        out.push(crate::format::read_le_u32(b, p + 0x782c + 12 * i + 8));
        assert(out@ =~= second + a.take(i + 1));
        i = i + 1;
    }
    let ghost third = out@;
    let mut i: usize = 0;
    while i < 20
        invariant
            i <= 20,
            b@ == save.bytes@,
            suffix + 0x74 + 80 <= b@.len(),
            m == Seq::new(20, |i: int| le_u32(save.bytes@, suffix + 0x74 + 4 * i) as u32),
            out@ == third + m.take(i as int),
        decreases 20 - i,
    {
        let _m = b.len();
        out.push(crate::format::read_le_u32(b, suffix + 0x74 + 4 * i));
        assert(out@ =~= third + m.take(i + 1));
        i = i + 1;
    }
    assert(e.take(6) =~= e);
    assert(a.take(72) =~= a);
    assert(m.take(20) =~= m);
    assert(out@ =~= spec_summary_floats(*save));
    out
}

/// The interpreted summary of a save: rows about the file, its header
/// metadata and its payload, filtered by `filter` and grouped under their
/// sections, styled when `color` is on.  `floats[k]` is the text shown for
/// the `k`-th float of `summary_floats` (a coordinate of SuperOptions, or a
/// duration of a game save).
pub fn summary_text(save: &Save, fields: &[Property], filter: &str, color: bool, tables: &NameTables, floats: &[String]) -> (res: String)
    requires
        save.has_layout(),
        tables.spec_valid(),
        all_fit(views(fields@), save.bytes@.len() as int),
        save.bytes@.len() * 8 <= usize::MAX,
        floats@.len() == spec_summary_floats(*save).len(),
    ensures
        res@ == spec_render(spec_summary_rows(*save, views(fields@), *tables, string_views(floats@)), filter@, color),
{
    let mut rows: Vec<SummaryRow> = Vec::new();
    assert(row_views(rows@) =~= seq![]);
    push_save_rows(&mut rows, save);
    push_metadata_rows(&mut rows, save);
    if save.kind() == SaveKind::AndroidOptions {
        push_options_rows(&mut rows, save, floats);
    } else {
        push_game_rows(&mut rows, save, fields, tables, floats);
    }
    assert(row_views(rows@) =~= spec_summary_rows(*save, views(fields@), *tables, string_views(floats@)));
    crate::summary::render_summary(&rows, filter, color)
}

} // verus!
