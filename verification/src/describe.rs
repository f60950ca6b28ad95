//! Explanations of the properties.
use vstd::prelude::*;
use crate::values::{split_once, find_char};
use crate::text::{chars_of, equals_str, sub_chars};

verus! {

/// A property name with every bracketed index removed, so that
/// `level_save[3].minikit_names[2]` becomes `level_save[].minikit_names[]`.
pub open spec fn normalized(s: Seq<char>) -> Seq<char>
    decreases s.len(),
{
    match split_once(s, '[') {
        None => s,
        Some((before, after)) => match split_once(after, ']') {
            None => s,
            Some((_, rest)) => {
                if rest.len() < s.len() {
                    before + seq!['[', ']'] + normalized(rest)
                } else {
                    s
                }
            },
        },
    }
}

fn append_chars(out: &mut Vec<char>, tail: &Vec<char>)
    ensures
        final(out)@ == old(out)@ + tail@,
{
    let ghost head = out@;
    let mut k: usize = 0;
    while k < tail.len()
        invariant
            k <= tail@.len(),
            out@ == head + tail@.take(k as int),
        decreases tail@.len() - k,
    {
        out.push(tail[k]);
        assert(out@ =~= head + tail@.take(k + 1));
        k = k + 1;
    }
    assert(tail@.take(k as int) =~= tail@);
}

/// A property name with every bracketed index removed.
#[verifier::rlimit(40)]
pub fn normalized_name(name: &[char]) -> (res: Vec<char>)
    ensures
        res@ == normalized(name@),
    decreases name@.len(),
{
    let _n = name.len();
    let whole = sub_chars(name, 0, name.len());
    assert(whole@ =~= name@);
    let i = match find_char(name, '[') {
        None => {
            return whole;
        },
        Some(i) => i,
    };
    let after = sub_chars(name, i + 1, name.len());
    assert(after@ =~= name@.skip(i + 1));
    let j = match find_char(after.as_slice(), ']') {
        None => {
            return whole;
        },
        Some(j) => j,
    };
    let _m = after.len();
    let rest = sub_chars(after.as_slice(), j + 1, after.len());
    assert(rest@ =~= after@.skip(j + 1));
    let tail = normalized_name(rest.as_slice());
    let mut out = sub_chars(name, 0, i);
    out.push('[');
    out.push(']');
    append_chars(&mut out, &tail);
    assert(out@ =~= name@.take(i as int) + seq!['[', ']'] + normalized(rest@));
    out
}

/// What is known of a property, by its name with indices removed.
pub open spec fn spec_description(n: Seq<char>) -> Seq<char> {
    if n == "field_0x0"@ {
        "Unidentified byte cleared by NewGame; no field-specific consumer established."@
    }
    else if n == "field_0x2"@ {
        "Two unidentified bytes before the options record; cleared by NewGame."@
    }
    else if n == "options_save.field7_0x7"@ {
        "Initialized to zero by InitGameBeforeConfig; no further meaning established."@
    }
    else if n == "options_save.field8_0x8"@ {
        "Initialized to zero by InitGameBeforeConfig; no further meaning established."@
    }
    else if n == "options_save.field9_0x9"@ {
        "Unidentified option byte preserved by whole-record copies; no field-specific use established."@
    }
    else if n == "options_save.field10_0xa"@ {
        "Unidentified option byte preserved by whole-record copies; no field-specific use established."@
    }
    else if n == "level_save[].reserved_0x51"@ {
        "Two unidentified bytes after the pickup count; preserved without assigning gameplay meanings."@
    }
    else if n == "area_save[].reserved_0x7"@ {
        "Byte before the aligned challenge-time float; no recovered gameplay use."@
    }
    else if n == "reserved_0x7c2a"@ {
        "Two bytes before the aligned gameplay-time float; no recovered gameplay use."@
    }
    else if n == "field_0x7c9f"@ {
        "Last byte before mission storage; retained separately from the recovered customizer prefix."@
    }
    else if n == "options.field9_0x16"@ {
        "Two trailing SuperOptions bytes; no field-specific consumer established."@
    }
    else if n == "difficulty"@ {
        "AI difficulty threshold; NewGame initializes 5. Used by ResetAICreatures, ManageGameObjects, KillGameObject and ReleaseHearts; not a format version."@
    }
    else if n == "options_save.player1_rumble"@ {
        "Player 1 controller vibration toggle."@
    }
    else if n == "options_save.player2_rumble"@ {
        "Player 2 controller vibration toggle."@
    }
    else if n == "options_save.surround_sound"@ {
        "Dolby Pro Logic/surround toggle; passed to NuSound3SetDPL."@
    }
    else if n == "options_save.sound_volume"@ {
        "Sound effects volume, menu range 0..10; multiplied by master_volume/10."@
    }
    else if n == "options_save.music_volume"@ {
        "Music volume, menu range 0..10; multiplied by master_volume/10."@
    }
    else if n == "options_save.master_volume"@ {
        "Master volume, menu range 0..10; scales effects, music and cutscenes."@
    }
    else if n == "options_save.music_enabled"@ {
        "Per-game music toggle checked by GamePlayMusic."@
    }
    else if n == "options_save.widescreen"@ {
        "Widescreen video toggle."@
    }
    else if n == "options_save.brightness"@ {
        "Brightness, menu range 0..10; passed to NuVideoSetBrightness divided by 10."@
    }
    else if n == "level_save[].minikit_names[]"@ {
        "Ten fixed 8-byte pickup-name slots per level. First minikit_count slots are used by GizmoPickups_Reset and SuperCounter_AnyCollected."@
    }
    else if n == "level_save[].minikit_count"@ {
        "Number of stored pickup names, gameplay range 0..10. Record stride 84; 366 slots fit before area storage."@
    }
    else if n == "level_save[].arcade_flags"@ {
        "Arcade modes won; Arcade_AwardPoint sets one bit per mode. All three bits complete the area."@
    }
    else if n == "level_save_padding"@ {
        "Three bytes between the level-record capacity and area storage; no recovered field use."@
    }
    else if n == "shop_hint_purchased_bits"@ {
        "96-bit shop-hint purchase set, stored as three u32s. Original ShopHintTab contains only its -1 sentinel, so no named shop entries are established."@
    }
    else if n == "shop_character_purchased_bits"@ {
        "128-bit purchase set, stored as four u32s. Named bits follow the 90 buy_in_shop entries in the shipped collection configuration, not character IDs. Remaining bits are preserved."@
    }
    else if n == "extra_unlocked_bits"@ {
        "64-bit extra-unlock set, stored as two u32s. Names index the original 44-entry Cheat table; codes/red bricks unlock extras."@
    }
    else if n == "extra_purchased_bits"@ {
        "64-bit extra-purchase set, stored as two u32s. Named independently of unlocks and the non-persisted enabled-cheat state."@
    }
    else if n == "shop_gold_brick_purchased_bits"@ {
        "Purchased shop gold bricks: bit i is shop brick i; original completion calculation scans 14 entries."@
    }
    else if n == "suit_flags"@ {
        "Suit availability mask retained from the shared Batman engine. Separate from SuperOptions store entitlements."@
    }
    else if n == "gold_bricks"@ {
        "Earned gold-brick total; AddToGoldBricks caps it at GOLDBRICKPOINTS."@
    }
    else if n == "reward_flags"@ {
        "One-time completion reward callbacks already fired; bit 0 also enables SuperWeirdo."@
    }
    else if n == "hub_build_flags"@ {
        "Hub construction progress bits used by Hub_Update and GizBuildIt_FinishFn_Game; meanings are indexed by hub build data."@
    }
    else if n == "indy_unlocked"@ {
        "Indiana Jones unlock marker tested by IndyUnlocked_UpdateHint and the hub."@
    }
    else if n == "gameplay_seconds"@ {
        "Accumulated gameplay time in seconds; GameTiming and hub time display."@
    }
    else if n == "mission_save.best_times[]"@ {
        "Twenty mission best-time floats in seconds; mission index follows the configured mission table."@
    }
    else if n == "mission_save.completed[]"@ {
        "Twenty mission completion bytes, following the 80-byte time array."@
    }
    else if n == "area_save[].minikit_complete"@ {
        "Complete minikit-set reward marker, independent of the count at the next byte."@
    }
    else if n == "area_save[].red_brick_collected"@ {
        "Area power/red brick collected marker; BuyAllShopExtras also sets it for each extra's associated area."@
    }
    else if n == "options.store_pack_flags"@ {
        "Eleven individual store entitlements; names recovered from original StorePack data. Initial value 65535 enables all, including reserved bits."@
    }
    else if n == "options.store_bundle_flags"@ {
        "Three purchase-bundle bits; original StoreBundle data names prequel, original trilogy and complete. Initial value 255."@
    }
    else if n == "options.dpad_locked"@ {
        "Virtual D-pad position lock; toggled by its lock button callback."@
    }
    else if n == "customizer.primary_use_saved_name"@ {
        "GameObj_GetName selects the stored primary name when nonzero; otherwise the character's text-table name. NewGame sets SAVED_NAME."@
    }
    else if n == "customizer.secondary_use_saved_name"@ {
        "GameObj_GetName selects the stored secondary name when nonzero; otherwise the character's text-table name. NewGame sets SAVED_NAME."@
    }
    else if n == "header.field0_0x0"@ {
        "Envelope magic: must remain 0x52474d48 (HMGR in file byte order)."@
    }
    else if n == "header.field1_0x4"@ {
        "Envelope version: must remain 1."@
    }
    else if n == "header.size"@ {
        "Envelope size in bytes: must remain 8232 (0x2028)."@
    }
    else if n == "header.extradata_offset"@ {
        "Bytes skipped after the header before the payload. Edits must preserve this layout."@
    }
    else if n == "extra_prefix"@ {
        "Opaque bytes skipped by the game loader before the payload; preserved verbatim."@
    }
    else if n == "coins"@ {
        "Stored stud/coin balance, as an unsigned integer."@
    }
    else if n == "completion"@ {
        "Completion points, not a percentage. Displayed percent is points * 100 / game COMPLETIONPOINTS; also feeds slot_code."@
    }
    else if n == "character_save[]"@ {
        "Character ID state: AVAILABLE is owned/playable (Collection_Got); UNLOCKED is CollectIDUnlocked. NewGame sets both for defaults."@
    }
    else if n == "hint_completion_bits"@ {
        "192-bit tutorial set: console IDs 0..95 at bits 0..95; touch IDs 0..95 at bits 96..191. Names identify original Hints_LSW callback and console text ID. Stored as six u32s."@
    }
    else if n == "area_save[].complete"@ {
        "Area availability/progression marker used when choosing the next area; NewGame sets starting areas to 1."@
    }
    else if n == "area_save[].area_complete"@ {
        "Area completion marker; game completion paths set this to 1."@
    }
    else if n == "area_save[].story_buildup_complete"@ {
        "Story-mode stud-buildup completion marker; normally 0 or 1."@
    }
    else if n == "area_save[].freeplay_buildup_complete"@ {
        "Free-play stud-buildup completion marker; normally 0 or 1."@
    }
    else if n == "area_save[].minikit_count"@ {
        "Stored area minikit count. The utility enforces byte width, not gameplay consistency."@
    }
    else if n == "area_save[].challenge_trial_time"@ {
        "Challenge trial time in seconds; NewGame obtains the starting value from area data."@
    }
    else if n == "episode_save[].superstory_time_limit"@ {
        "Stored best Super Story time in seconds; initialized to 3600 for episodes 0..5 and reduced by better times."@
    }
    else if n == "episode_save[].superstory_score_target"@ {
        "Stored best Super Story score; initialized to 100000 for episodes 0..5 and increased by better scores."@
    }
    else if n == "episode_save[].flags"@ {
        "Super Story status word. The low byte becomes 1 on first completion; remaining bits are preserved as numeric values."@
    }
    else if n == "customizer.pieces[]"@ {
        "Nine primary custom-character piece IDs, interpreted using the game's customizer data."@
    }
    else if n == "customizer.secondary_pieces[]"@ {
        "Nine secondary custom-character piece IDs, interpreted using the game's customizer data."@
    }
    else if n == "customizer.primary_name"@ {
        "Primary custom-character name: 32-byte buffer. text:NAME zero-pads and requires room for a terminator."@
    }
    else if n == "customizer.secondary_name"@ {
        "Secondary custom-character name: 32-byte buffer. text:NAME zero-pads and requires room for a terminator."@
    }
    else if n == "options.touch_controls"@ {
        "Touch control selection: 0 selects runtime control mode 1, nonzero selects mode 2."@
    }
    else if n == "options.left_control_x"@ {
        "Saved left touch-control horizontal position; coordinate scale/range is not yet established."@
    }
    else if n == "options.left_control_y"@ {
        "Saved left touch-control vertical position; coordinate scale/range is not yet established."@
    }
    else if n == "options.right_control_x"@ {
        "Saved right touch-control horizontal position; coordinate scale/range is not yet established."@
    }
    else if n == "options.right_control_y"@ {
        "Saved right touch-control vertical position; coordinate scale/range is not yet established."@
    }
    else if n == "options.music_enabled"@ {
        "Music enabled flag: 0 disables music, nonzero enables it."@
    }
    else if n == "checksum"@ {
        "Derived: ChecksumSaveData(payload), sum of little-endian u32 words plus 0x5c0999 modulo 2^32. Editing requires --keep-derived."@
    }
    else if n == "slot_code"@ {
        "Android game saves derive this from the sign-extended completion field; Android options use 0xffffffff. Windows stores the MakeSaveHash result but has no matching completion field in its payload, so ordinary edits preserve it. Editing it directly requires --keep-derived."@
    }
    else if n == "byte[]"@ {
        "Unidentified/padding byte at an absolute file offset. Raw byte[N] aliases are also available for every named field."@
    }
    else {
        "Unknown/reserved field: storage layout is recovered, but its meaning is not established. Preserved unless explicitly edited."@
    }
}

/// Returns the currently known purpose of a property, or an explicit
/// reserved-field description.
pub fn property_description(name: &str) -> (res: &'static str)
    ensures
        res@ == spec_description(normalized(name@)),
{
    let chars = chars_of(name);
    let normal = normalized_name(chars.as_slice());
    let n = normal.as_slice();
    if equals_str(n, "field_0x0") {
        return "Unidentified byte cleared by NewGame; no field-specific consumer established.";
    }
    if equals_str(n, "field_0x2") {
        return "Two unidentified bytes before the options record; cleared by NewGame.";
    }
    if equals_str(n, "options_save.field7_0x7") {
        return "Initialized to zero by InitGameBeforeConfig; no further meaning established.";
    }
    if equals_str(n, "options_save.field8_0x8") {
        return "Initialized to zero by InitGameBeforeConfig; no further meaning established.";
    }
    if equals_str(n, "options_save.field9_0x9") {
        return "Unidentified option byte preserved by whole-record copies; no field-specific use established.";
    }
    if equals_str(n, "options_save.field10_0xa") {
        return "Unidentified option byte preserved by whole-record copies; no field-specific use established.";
    }
    if equals_str(n, "level_save[].reserved_0x51") {
        return "Two unidentified bytes after the pickup count; preserved without assigning gameplay meanings.";
    }
    if equals_str(n, "area_save[].reserved_0x7") {
        return "Byte before the aligned challenge-time float; no recovered gameplay use.";
    }
    if equals_str(n, "reserved_0x7c2a") {
        return "Two bytes before the aligned gameplay-time float; no recovered gameplay use.";
    }
    if equals_str(n, "field_0x7c9f") {
        return "Last byte before mission storage; retained separately from the recovered customizer prefix.";
    }
    if equals_str(n, "options.field9_0x16") {
        return "Two trailing SuperOptions bytes; no field-specific consumer established.";
    }
    if equals_str(n, "difficulty") {
        return "AI difficulty threshold; NewGame initializes 5. Used by ResetAICreatures, ManageGameObjects, KillGameObject and ReleaseHearts; not a format version.";
    }
    if equals_str(n, "options_save.player1_rumble") {
        return "Player 1 controller vibration toggle.";
    }
    if equals_str(n, "options_save.player2_rumble") {
        return "Player 2 controller vibration toggle.";
    }
    if equals_str(n, "options_save.surround_sound") {
        return "Dolby Pro Logic/surround toggle; passed to NuSound3SetDPL.";
    }
    if equals_str(n, "options_save.sound_volume") {
        return "Sound effects volume, menu range 0..10; multiplied by master_volume/10.";
    }
    if equals_str(n, "options_save.music_volume") {
        return "Music volume, menu range 0..10; multiplied by master_volume/10.";
    }
    if equals_str(n, "options_save.master_volume") {
        return "Master volume, menu range 0..10; scales effects, music and cutscenes.";
    }
    if equals_str(n, "options_save.music_enabled") {
        return "Per-game music toggle checked by GamePlayMusic.";
    }
    if equals_str(n, "options_save.widescreen") {
        return "Widescreen video toggle.";
    }
    if equals_str(n, "options_save.brightness") {
        return "Brightness, menu range 0..10; passed to NuVideoSetBrightness divided by 10.";
    }
    if equals_str(n, "level_save[].minikit_names[]") {
        return "Ten fixed 8-byte pickup-name slots per level. First minikit_count slots are used by GizmoPickups_Reset and SuperCounter_AnyCollected.";
    }
    if equals_str(n, "level_save[].minikit_count") {
        return "Number of stored pickup names, gameplay range 0..10. Record stride 84; 366 slots fit before area storage.";
    }
    if equals_str(n, "level_save[].arcade_flags") {
        return "Arcade modes won; Arcade_AwardPoint sets one bit per mode. All three bits complete the area.";
    }
    if equals_str(n, "level_save_padding") {
        return "Three bytes between the level-record capacity and area storage; no recovered field use.";
    }
    if equals_str(n, "shop_hint_purchased_bits") {
        return "96-bit shop-hint purchase set, stored as three u32s. Original ShopHintTab contains only its -1 sentinel, so no named shop entries are established.";
    }
    if equals_str(n, "shop_character_purchased_bits") {
        return "128-bit purchase set, stored as four u32s. Named bits follow the 90 buy_in_shop entries in the shipped collection configuration, not character IDs. Remaining bits are preserved.";
    }
    if equals_str(n, "extra_unlocked_bits") {
        return "64-bit extra-unlock set, stored as two u32s. Names index the original 44-entry Cheat table; codes/red bricks unlock extras.";
    }
    if equals_str(n, "extra_purchased_bits") {
        return "64-bit extra-purchase set, stored as two u32s. Named independently of unlocks and the non-persisted enabled-cheat state.";
    }
    if equals_str(n, "shop_gold_brick_purchased_bits") {
        return "Purchased shop gold bricks: bit i is shop brick i; original completion calculation scans 14 entries.";
    }
    if equals_str(n, "suit_flags") {
        return "Suit availability mask retained from the shared Batman engine. Separate from SuperOptions store entitlements.";
    }
    if equals_str(n, "gold_bricks") {
        return "Earned gold-brick total; AddToGoldBricks caps it at GOLDBRICKPOINTS.";
    }
    if equals_str(n, "reward_flags") {
        return "One-time completion reward callbacks already fired; bit 0 also enables SuperWeirdo.";
    }
    if equals_str(n, "hub_build_flags") {
        return "Hub construction progress bits used by Hub_Update and GizBuildIt_FinishFn_Game; meanings are indexed by hub build data.";
    }
    if equals_str(n, "indy_unlocked") {
        return "Indiana Jones unlock marker tested by IndyUnlocked_UpdateHint and the hub.";
    }
    if equals_str(n, "gameplay_seconds") {
        return "Accumulated gameplay time in seconds; GameTiming and hub time display.";
    }
    if equals_str(n, "mission_save.best_times[]") {
        return "Twenty mission best-time floats in seconds; mission index follows the configured mission table.";
    }
    if equals_str(n, "mission_save.completed[]") {
        return "Twenty mission completion bytes, following the 80-byte time array.";
    }
    if equals_str(n, "area_save[].minikit_complete") {
        return "Complete minikit-set reward marker, independent of the count at the next byte.";
    }
    if equals_str(n, "area_save[].red_brick_collected") {
        return "Area power/red brick collected marker; BuyAllShopExtras also sets it for each extra's associated area.";
    }
    if equals_str(n, "options.store_pack_flags") {
        return "Eleven individual store entitlements; names recovered from original StorePack data. Initial value 65535 enables all, including reserved bits.";
    }
    if equals_str(n, "options.store_bundle_flags") {
        return "Three purchase-bundle bits; original StoreBundle data names prequel, original trilogy and complete. Initial value 255.";
    }
    if equals_str(n, "options.dpad_locked") {
        return "Virtual D-pad position lock; toggled by its lock button callback.";
    }
    if equals_str(n, "customizer.primary_use_saved_name") {
        return "GameObj_GetName selects the stored primary name when nonzero; otherwise the character's text-table name. NewGame sets SAVED_NAME.";
    }
    if equals_str(n, "customizer.secondary_use_saved_name") {
        return "GameObj_GetName selects the stored secondary name when nonzero; otherwise the character's text-table name. NewGame sets SAVED_NAME.";
    }
    if equals_str(n, "header.field0_0x0") {
        return "Envelope magic: must remain 0x52474d48 (HMGR in file byte order).";
    }
    if equals_str(n, "header.field1_0x4") {
        return "Envelope version: must remain 1.";
    }
    if equals_str(n, "header.size") {
        return "Envelope size in bytes: must remain 8232 (0x2028).";
    }
    if equals_str(n, "header.extradata_offset") {
        return "Bytes skipped after the header before the payload. Edits must preserve this layout.";
    }
    if equals_str(n, "extra_prefix") {
        return "Opaque bytes skipped by the game loader before the payload; preserved verbatim.";
    }
    if equals_str(n, "coins") {
        return "Stored stud/coin balance, as an unsigned integer.";
    }
    if equals_str(n, "completion") {
        return "Completion points, not a percentage. Displayed percent is points * 100 / game COMPLETIONPOINTS; also feeds slot_code.";
    }
    if equals_str(n, "character_save[]") {
        return "Character ID state: AVAILABLE is owned/playable (Collection_Got); UNLOCKED is CollectIDUnlocked. NewGame sets both for defaults.";
    }
    if equals_str(n, "hint_completion_bits") {
        return "192-bit tutorial set: console IDs 0..95 at bits 0..95; touch IDs 0..95 at bits 96..191. Names identify original Hints_LSW callback and console text ID. Stored as six u32s.";
    }
    if equals_str(n, "area_save[].complete") {
        return "Area availability/progression marker used when choosing the next area; NewGame sets starting areas to 1.";
    }
    if equals_str(n, "area_save[].area_complete") {
        return "Area completion marker; game completion paths set this to 1.";
    }
    if equals_str(n, "area_save[].story_buildup_complete") {
        return "Story-mode stud-buildup completion marker; normally 0 or 1.";
    }
    if equals_str(n, "area_save[].freeplay_buildup_complete") {
        return "Free-play stud-buildup completion marker; normally 0 or 1.";
    }
    if equals_str(n, "area_save[].minikit_count") {
        return "Stored area minikit count. The utility enforces byte width, not gameplay consistency.";
    }
    if equals_str(n, "area_save[].challenge_trial_time") {
        return "Challenge trial time in seconds; NewGame obtains the starting value from area data.";
    }
    if equals_str(n, "episode_save[].superstory_time_limit") {
        return "Stored best Super Story time in seconds; initialized to 3600 for episodes 0..5 and reduced by better times.";
    }
    if equals_str(n, "episode_save[].superstory_score_target") {
        return "Stored best Super Story score; initialized to 100000 for episodes 0..5 and increased by better scores.";
    }
    if equals_str(n, "episode_save[].flags") {
        return "Super Story status word. The low byte becomes 1 on first completion; remaining bits are preserved as numeric values.";
    }
    if equals_str(n, "customizer.pieces[]") {
        return "Nine primary custom-character piece IDs, interpreted using the game's customizer data.";
    }
    if equals_str(n, "customizer.secondary_pieces[]") {
        return "Nine secondary custom-character piece IDs, interpreted using the game's customizer data.";
    }
    if equals_str(n, "customizer.primary_name") {
        return "Primary custom-character name: 32-byte buffer. text:NAME zero-pads and requires room for a terminator.";
    }
    if equals_str(n, "customizer.secondary_name") {
        return "Secondary custom-character name: 32-byte buffer. text:NAME zero-pads and requires room for a terminator.";
    }
    if equals_str(n, "options.touch_controls") {
        return "Touch control selection: 0 selects runtime control mode 1, nonzero selects mode 2.";
    }
    if equals_str(n, "options.left_control_x") {
        return "Saved left touch-control horizontal position; coordinate scale/range is not yet established.";
    }
    if equals_str(n, "options.left_control_y") {
        return "Saved left touch-control vertical position; coordinate scale/range is not yet established.";
    }
    if equals_str(n, "options.right_control_x") {
        return "Saved right touch-control horizontal position; coordinate scale/range is not yet established.";
    }
    if equals_str(n, "options.right_control_y") {
        return "Saved right touch-control vertical position; coordinate scale/range is not yet established.";
    }
    if equals_str(n, "options.music_enabled") {
        return "Music enabled flag: 0 disables music, nonzero enables it.";
    }
    if equals_str(n, "checksum") {
        return "Derived: ChecksumSaveData(payload), sum of little-endian u32 words plus 0x5c0999 modulo 2^32. Editing requires --keep-derived.";
    }
    if equals_str(n, "slot_code") {
        return "Android game saves derive this from the sign-extended completion field; Android options use 0xffffffff. Windows stores the MakeSaveHash result but has no matching completion field in its payload, so ordinary edits preserve it. Editing it directly requires --keep-derived.";
    }
    if equals_str(n, "byte[]") {
        return "Unidentified/padding byte at an absolute file offset. Raw byte[N] aliases are also available for every named field.";
    }
    "Unknown/reserved field: storage layout is recovered, but its meaning is not established. Preserved unless explicitly edited."
}

} // verus!
