use nusave::{apply_assignments, enum_text, human_enum, human_words, number, parameter_lines, properties,
    raw_list_text, render_summary, summary_floats, summary_text, fixed_text, NameTables, Property, Save, SummaryRow,
    Kind};

fn float_texts(save: &Save, fields: &[Property]) -> Vec<String> {
    fields
        .iter()
        .map(|field| {
            if field.kind == Kind::Float {
                let bytes: [u8; 4] = save.bytes[field.offset..field.offset + 4].try_into().unwrap();
                format!("{}", f32::from_le_bytes(bytes))
            } else {
                String::new()
            }
        })
        .collect()
}

fn duration(seconds: f32) -> String {
    if !seconds.is_finite() || seconds < 0.0 {
        return format!("Invalid ({seconds:?})");
    }
    if seconds >= 60.0 && seconds.fract() == 0.0 {
        let total = seconds as u64;
        let hours = total / 3600;
        let minutes = total % 3600 / 60;
        let seconds = total % 60;
        if hours > 0 { format!("{hours}h {minutes:02}m {seconds:02}s") } else { format!("{minutes}m {seconds:02}s") }
    } else {
        format!("{seconds:.2}s")
    }
}

fn summary(save: &Save, filter: &str, tables: &NameTables) -> String {
    let fields = properties(save);
    let floats: Vec<String> = summary_floats(save)
        .into_iter()
        .map(|bits| if save.kind().is_game() { duration(f32::from_bits(bits)) } else { format!("{}", f32::from_bits(bits)) })
        .collect();
    summary_text(save, &fields, filter, false, tables, &floats)
}

fn edited(assignments: &[&str], floats: &[Option<u32>]) -> Save {
    let mut save = Save::fresh(false);
    apply_assignments(&mut save, assignments, floats, &NameTables::empty()).unwrap();
    save
}

#[test]
fn raw_listing_starts_with_kind_size_and_checksum_state() {
    let save = Save::fresh(false);
    let fields = properties(&save);
    let text = raw_list_text(&save, &fields, "coins", &float_texts(&save, &fields), &NameTables::empty());
    assert_eq!(text, "# kind=Android game progress payload_size=32344 checksum_valid=true\ncoins=0\n");
}

#[test]
fn raw_listing_shows_flags_and_masks_by_name() {
    let save = edited(&["reward_flags=100_PERCENT|ALL_GOLD_BRICKS", "extra_unlocked_bits=poo|scorex10"], &[None, None]);
    let fields = properties(&save);
    let floats = float_texts(&save, &fields);
    let text = raw_list_text(&save, &fields, "reward_flags", &floats, &NameTables::empty());
    assert!(text.contains("# reward_flags: 0x03; set bits: 0=100_PERCENT 1=ALL_GOLD_BRICKS\nreward_flags=100_PERCENT|ALL_GOLD_BRICKS\n"));
    let text = raw_list_text(&save, &fields, "extra_unlocked_bits", &floats, &NameTables::empty());
    assert!(text.contains("# extra_unlocked_bits: 0x0000080000000002; set bits: 1=poo 43=scorex10\nextra_unlocked_bits=poo|scorex10\n"));
}

#[test]
fn raw_listing_writes_bytes_signed_values_and_floats() {
    let save = edited(&["customizer.pieces[0]=-2", "customizer.primary_name=text:AB", "gameplay_seconds=2.5"], &[None, None, Some(2.5f32.to_bits())]);
    let fields = properties(&save);
    let floats = float_texts(&save, &fields);
    let text = raw_list_text(&save, &fields, "customizer.pieces[0]", &floats, &NameTables::empty());
    assert!(text.ends_with("customizer.pieces[0]=-2\n"));
    let text = raw_list_text(&save, &fields, "primary_name", &floats, &NameTables::empty());
    assert!(text.contains("customizer.primary_name=hex:4142000000"));
    let text = raw_list_text(&save, &fields, "gameplay_seconds", &floats, &NameTables::empty());
    assert!(text.ends_with("gameplay_seconds=2.5\n"));
}

#[test]
fn raw_listing_spells_awkward_floats_as_bytes() {
    let offset = Save::fresh(false).payload + 0x7c2c;
    let assignments = [
        format!("byte[{}]=1", offset),
        format!("byte[{}]=0", offset + 1),
        format!("byte[{}]=192", offset + 2),
        format!("byte[{}]=127", offset + 3),
    ];
    let refs: Vec<&str> = assignments.iter().map(String::as_str).collect();
    let save = edited(&refs, &[None, None, None, None]);
    let fields = properties(&save);
    let floats = float_texts(&save, &fields);
    let text = raw_list_text(&save, &fields, "gameplay_seconds", &floats, &NameTables::empty());
    let expected = format!(
        "gameplay_seconds=0\nbyte[{}]=1\nbyte[{}]=0\nbyte[{}]=192\nbyte[{}]=127\n",
        offset, offset + 1, offset + 2, offset + 3
    );
    assert!(text.ends_with(&expected), "{text}");
}

#[test]
fn raw_listing_is_accepted_back_as_assignments() {
    let save = edited(
        &["coins=99", "suit_flags=SHADOW|0x100", "shop_gold_brick_purchased_bits=GOLD_BRICK_2|BIT_20", "options_save.music_enabled=ON"],
        &[None, None, None, None],
    );
    let fields = properties(&save);
    let floats = float_texts(&save, &fields);
    let text = raw_list_text(&save, &fields, "", &floats, &NameTables::empty());
    let lines = parameter_lines(text.as_bytes()).unwrap();
    let float_bits: Vec<Option<u32>> = lines
        .iter()
        .map(|line| line.split_once('=').and_then(|(_, value)| value.parse::<f32>().ok()).filter(|v| v.is_finite()).map(f32::to_bits))
        .collect();
    let refs: Vec<&str> = lines.iter().map(String::as_str).collect();
    let mut copy = Save::fresh(false);
    apply_assignments(&mut copy, &refs, &float_bits, &NameTables::empty()).unwrap();
    assert_eq!(copy.bytes, save.bytes);
}

#[test]
fn enum_text_names_values_flags_and_leftover_bits() {
    let save = Save::fresh(false);
    let _ = save;
    let values = nusave::values::enum_values(&"suit_flags".chars().collect::<Vec<_>>());
    assert_eq!(enum_text(&values, 0), "NONE");
    assert_eq!(enum_text(&values, 0x21), "SHADOW|TECHNOLOGY");
    assert_eq!(enum_text(&values, 0x301), "SHADOW|768");
    let plain = nusave::values::enum_values(&"coins".chars().collect::<Vec<_>>());
    assert_eq!(enum_text(&plain, 17), "17");
}

#[test]
fn human_words_capitalise_each_piece() {
    assert_eq!(human_words("ALL_GOLD_BRICKS"), "All Gold Bricks");
    assert_eq!(human_words("EPISODE_III"), "Episode III");
    assert_eq!(human_words("__kashyyyk__escape"), "Kashyyyk Escape");
    assert_eq!(human_words("100_PERCENT"), "100 Percent");
    assert_eq!(human_words(""), "");
}

#[test]
fn human_enum_reads_flags_and_unknown_values() {
    assert_eq!(human_enum("suit_flags", 0x21), "Shadow, Technology");
    assert_eq!(human_enum("suit_flags", 0x101), "Shadow, unknown bits 0x100");
    assert_eq!(human_enum("suit_flags", 0), "None");
    assert_eq!(human_enum("options.touch_controls", 7), "Unknown (value 7)");
    assert_eq!(human_enum("coins", 12), "12");
    assert_eq!(human_enum("options.music_enabled", 1), "On");
}

#[test]
fn numbers_group_thousands() {
    assert_eq!(number(0), "0");
    assert_eq!(number(999), "999");
    assert_eq!(number(1000), "1,000");
    assert_eq!(number(125000), "125,000");
    assert_eq!(number(-1234567), "-1,234,567");
    assert_eq!(number(i64::MIN), "-9,223,372,036,854,775,808");
}

#[test]
fn fixed_text_reads_zero_terminated_ascii() {
    assert_eq!(fixed_text(b"Leia\0\0\0\0"), "Leia");
    assert_eq!(fixed_text(b"\0abc"), "(empty)");
    assert_eq!(fixed_text(b"a\x01c\0"), "(non-text data)");
    assert_eq!(fixed_text(b"full"), "full");
}

#[test]
fn summary_groups_rows_and_pads_labels() {
    let rows = vec![
        SummaryRow { section: "Progress".into(), label: "Studs".into(), value: "125,000".into() },
        SummaryRow { section: "Progress".into(), label: "Completion points".into(), value: "42".into() },
        SummaryRow { section: "Audio".into(), label: "Music".into(), value: "On".into() },
    ];
    assert_eq!(
        render_summary(&rows, "", false),
        "Progress\n  Studs              125,000\n  Completion points  42\nAudio\n  Music  On\n"
    );
    assert_eq!(render_summary(&rows, "MUSIC", false), "Audio\n  Music  On\n");
    assert_eq!(render_summary(&rows, "nothing", false), "No matching interpreted values.\n");
    assert_eq!(
        render_summary(&rows[2..].to_vec(), "", true),
        "\x1b[1m\x1b[36mAudio\x1b[0m\n  \x1b[1m\x1b[94mMusic\x1b[0m  \x1b[32mOn\x1b[0m\n"
    );
}

#[test]
fn list_defaults_to_a_compact_interpreted_summary() {
    let save = edited(
        &[
            "coins=12345",
            "options_save.music_enabled=ON",
            "area_save[2].complete=COMPLETE",
            "area_save[8].challenge_trial_time=1200",
            "episode_save[1].flags=SUPERSTORY_COMPLETE",
            "level_save[2].arcade_flags=BATTLE",
            "mission_save.best_times[0]=91",
            "mission_save.completed[0]=COMPLETE",
            "character_save[2]=UNLOCKED",
            "character_save[339]=AVAILABLE",
        ],
        &[None, None, None, Some(1200f32.to_bits()), None, None, Some(91f32.to_bits()), None, None, None],
    );
    let text = summary(&save, "", &NameTables::empty());
    assert!(text.contains("Progress\n"));
    assert!(text.contains(&format!("  Studs{}  12,345\n", " ".repeat(13))), "{text}");
    assert!(text.contains(&format!("  Music{}  On\n", " ".repeat(10))), "{text}");
    assert!(text.contains("Episode 1  Not completed; stored time 1h 00m 00s; stored score 100,000\n"), "{text}");
    assert!(text.contains("Episode 2  Completed; stored time 1h 00m 00s; stored score 100,000\n"), "{text}");
    assert!(text.contains("Stored challenge times\n  Unknown area (ID 8)  20m 00s\n"), "{text}");
    assert!(text.contains("Unknown level (ID 2)  arcade: Battle\n"), "{text}");
    assert!(text.contains("Unknown mission (ID 0)  Complete; best time 1m 31s\n"), "{text}");
    assert!(text.contains("Owned / playable      Unknown character (ID 339)\n"), "{text}");
    assert!(text.contains("Unlocked / not owned  Unknown character (ID 2)\n"), "{text}");
    assert!(text.contains("Primary custom character\n"), "{text}");
    assert!(!text.contains('\x1b'));
}

#[test]
fn summary_filter_matches_any_column_case_insensitively() {
    let save = edited(&["coins=12345"], &[None]);
    let text = summary(&save, "STUDS", &NameTables::empty());
    assert_eq!(text, "Progress\n  Studs  12,345\n");
}

#[test]
fn options_summary_shows_controls_and_store_entitlements() {
    let mut save = Save::fresh(true);
    apply_assignments(
        &mut save,
        &["options.left_control_x=0.25", "options.store_pack_flags=EPISODE_II|SITH", "options.store_bundle_flags=PREQUEL|COMPLETE"],
        &[Some(0.25f32.to_bits()), None, None],
        &NameTables::empty(),
    )
    .unwrap();
    let text = summary(&save, "", &NameTables::empty());
    assert!(text.contains("  Left position   (0.25, 0)\n"), "{text}");
    assert!(text.contains("  Packs    Episode II, Sith\n"), "{text}");
    assert!(text.contains("  Bundles  Prequel, Complete\n"), "{text}");
}

#[test]
fn parameter_files_skip_blank_and_comment_lines() {
    let lines = parameter_lines(b"# comment\r\ncoins=1\r\n\nsuit_flags=ALL\n#x\nlast=2").unwrap();
    assert_eq!(lines, vec!["coins=1".to_string(), "suit_flags=ALL".to_string(), "last=2".to_string()]);
    assert_eq!(parameter_lines(b"coins=1\n\xff\xfe=2\n"), None);
    assert_eq!(parameter_lines(b"").unwrap(), Vec::<String>::new());
    assert_eq!(parameter_lines("name=é\n".as_bytes()).unwrap(), vec!["name=é".to_string()]);
}

#[test]
fn raw_listing_rebuilds_an_unusual_save() {
    let mut bytes = Save::fresh(false).bytes;
    let header = nusave::HEADER_SIZE;
    bytes[0x2a..0x32].copy_from_slice(b"opaque!!");
    bytes[header + 0x7c2c..header + 0x7c30].copy_from_slice(&0x7fc01234u32.to_le_bytes());
    bytes.splice(header..header, *b"odd");
    bytes[0x14..0x18].copy_from_slice(&3i32.to_le_bytes());
    let save = Save::parse(bytes.clone()).unwrap();
    let fields = properties(&save);
    let text = raw_list_text(&save, &fields, "", &float_texts(&save, &fields), &NameTables::empty());
    let lines = parameter_lines(text.as_bytes()).unwrap();
    let float_bits: Vec<Option<u32>> = lines
        .iter()
        .map(|line| line.split_once('=').and_then(|(_, value)| value.parse::<f32>().ok()).filter(|v| v.is_finite()).map(f32::to_bits))
        .collect();
    let refs: Vec<&str> = lines.iter().map(String::as_str).collect();
    let mut scrambled = bytes.clone();
    for byte in &mut scrambled[header..] {
        *byte = 0x5a;
    }
    scrambled[0x2a..0x32].copy_from_slice(&[0; 8]);
    let mut copy = Save::parse(scrambled).unwrap();
    assert_ne!(copy.bytes, bytes);
    apply_assignments(&mut copy, &refs, &float_bits, &NameTables::empty()).unwrap();
    assert_eq!(copy.bytes, bytes);
    assert!(text.contains("extra_prefix=hex:6f6464\n"), "{text}");
}
