use nusave::{next_temporary_step, target_slot, temporary_suffix, OpenOutcome, TemporaryStep, TEMPORARY_ATTEMPTS};
use nusave::{apply_assignments, AssignmentError, EditError, NameTables, ParseError, Save, save_file_name,
    SaveKind, HEADER_SIZE, GAME_SIZE, OPTIONS_SIZE};

fn word(bytes: &[u8], offset: usize) -> u32 {
    u32::from_le_bytes(bytes[offset..offset + 4].try_into().unwrap())
}

#[test]
fn assignment_errors_are_specific_and_transactional() {
    let mut save = Save::fresh(false);
    let before = save.bytes.clone();
    let tables = NameTables::empty();
    let error = apply_assignments(&mut save, &["coins=12", "coins=-1"], &[None, None], &tables).unwrap_err();

    assert_eq!(save.bytes, before);
    assert!(matches!(
        error,
        EditError::Assignment(AssignmentError::InvalidValue {
            ref property,
            ref value,
            ..
        }) if property == "coins" && value == "-1"
    ));
    assert!(error.message().contains("expected 0..4294967295"));
}

#[test]
fn parse_errors_identify_the_bad_header_field() {
    let mut save = Save::fresh(false);
    save.bytes[0] = 0;

    assert_eq!(
        Save::parse(save.bytes).unwrap_err(),
        ParseError::InvalidMagic { found: 0x5247_4d00 }
    );
}

#[test]
fn fresh_game_save_holds_the_documented_new_game_state() {
    let save = Save::fresh(false);
    assert_eq!(save.bytes.len(), 0x9e88);
    assert_eq!(save.payload, HEADER_SIZE);
    assert_eq!(save.payload_size, GAME_SIZE);
    assert_eq!(save.kind(), SaveKind::AndroidGame);
    assert!(save.checksum_valid());
    let p = save.payload;
    assert_eq!(save.bytes[p + 1], 5);
    assert_eq!(save.bytes[p + 0x782c], 1);
    for episode in 0..6 {
        assert_eq!(f32::from_bits(word(&save.bytes, p + 0x7b8c + 12 * episode)), 3600.0);
        assert_eq!(word(&save.bytes, p + 0x7b90 + 12 * episode), 100_000);
    }
    assert_eq!(word(&save.bytes, p + 0x7bfc), 0x21);
    assert_eq!(save.bytes[p + 0x7c64], 1);
    assert_eq!(save.bytes[p + 0x7c9c], 1);
    let reparsed = Save::parse(save.bytes.clone()).unwrap();
    assert_eq!(reparsed.payload, save.payload);
    assert_eq!(reparsed.payload_size, save.payload_size);
}

#[test]
fn fresh_options_save_has_the_options_slot_code() {
    let save = Save::fresh(true);
    assert_eq!(save.bytes.len(), 0x2048);
    assert_eq!(save.payload_size, OPTIONS_SIZE);
    assert_eq!(save.kind(), SaveKind::AndroidOptions);
    assert!(!save.kind().is_game());
    assert!(save.checksum_valid());
    assert_eq!(save.slot_code(), 0xffff_ffff);
    assert_eq!(save.kind().description(), "Android SuperOptions");
}

#[test]
fn checksum_is_the_seeded_word_sum_of_the_payload() {
    let save = Save::fresh(true);
    let mut expected = 0x005c_0999u32;
    for k in 0..OPTIONS_SIZE / 4 {
        expected = expected.wrapping_add(word(&save.bytes, HEADER_SIZE + 4 * k));
    }
    assert_eq!(save.checksum(), expected);
    assert_eq!(word(&save.bytes, HEADER_SIZE + OPTIONS_SIZE), expected);
}

#[test]
fn derive_refreshes_checksum_and_android_slot_code() {
    let mut save = Save::fresh(false);
    let tables = NameTables::empty();
    apply_assignments(&mut save, &["completion=32769", "coins=7"], &[None, None], &tables).unwrap();
    assert!(!save.checksum_valid());
    save.derive();
    assert!(save.checksum_valid());
    assert_eq!(save.slot_code(), 0xffff_8001);
    assert_eq!(word(&save.bytes, save.payload + 0x7c20), 7);
}

#[test]
fn applied_assignments_write_typed_values() {
    let mut save = Save::fresh(false);
    let tables = NameTables::empty();
    let p = save.payload;
    apply_assignments(
        &mut save,
        &[
            "coins=12345",
            "area_save[2].minikit_count=10",
            "customizer.primary_name=text:TEST",
            "customizer.secondary_pieces[8]=-123",
            "character_save[339]=3",
            "episode_save[1].superstory_time_limit=12.5",
            "reward_flags=100_PERCENT|ALL_GOLD_BRICKS",
        ],
        &[None, None, None, None, None, Some(12.5f32.to_bits()), None],
        &tables,
    )
    .unwrap();
    assert_eq!(word(&save.bytes, p + 0x7c20), 12345);
    assert_eq!(save.bytes[p + 0x782c + 12 * 2 + 5], 10);
    assert_eq!(&save.bytes[p + 0x7c44..p + 0x7c49], b"TEST\0");
    assert_eq!(i16::from_le_bytes([save.bytes[p + 0x7c68 + 16], save.bytes[p + 0x7c69 + 16]]), -123);
    assert_eq!(save.bytes[p + 0x7d04 + 339], 3);
    assert_eq!(f32::from_bits(word(&save.bytes, p + 0x7b8c + 12)), 12.5);
    assert_eq!(save.bytes[p + 0x7c27], 3);
}

#[test]
fn invalid_edits_are_each_rejected_and_leave_the_save_unchanged() {
    let tables = NameTables::empty();
    for invalid in [
        "coins=-1",
        "coins=4294967296",
        "missing=1",
        "character_save[340]=1",
        "byte[999999]=1",
        "customizer.secondary_pieces[0]=-32769",
        "header.extradata_offset=1",
        "header.size=1",
        "customizer.primary_name=hex:gg",
    ] {
        let mut save = Save::fresh(false);
        let before = save.bytes.clone();
        assert!(apply_assignments(&mut save, &[invalid], &[None], &tables).is_err(), "accepted {invalid}");
        assert_eq!(save.bytes, before);
    }
}

#[test]
fn structural_edits_report_an_invalid_layout() {
    let mut save = Save::fresh(false);
    let tables = NameTables::empty();
    let error = apply_assignments(&mut save, &["header.size=1"], &[None], &tables).unwrap_err();
    assert_eq!(error, EditError::InvalidLayout);
    assert_eq!(error.message(), "edits would change or invalidate the save layout");
}

#[test]
fn missing_equals_and_unknown_properties_have_their_own_errors() {
    let mut save = Save::fresh(false);
    let tables = NameTables::empty();
    let error = apply_assignments(&mut save, &["coins"], &[None], &tables).unwrap_err();
    assert_eq!(error, EditError::Assignment(AssignmentError::MissingEquals { assignment: "coins".to_string() }));
    assert_eq!(error.message(), "assignment `coins` must use KEY=VALUE syntax");
    let error = apply_assignments(&mut save, &["nothing=1"], &[None], &tables).unwrap_err();
    assert_eq!(error.message(), "unknown save property `nothing`");
}

#[test]
fn absolute_byte_aliases_reach_every_byte() {
    let mut save = Save::fresh(false);
    let tables = NameTables::empty();
    let last = save.bytes.len() - 5;
    let name = format!("byte[{last}]=171");
    apply_assignments(&mut save, &[name.as_str()], &[None], &tables).unwrap();
    assert_eq!(save.bytes[last], 171);
}

#[test]
fn parse_reports_each_header_problem() {
    assert_eq!(
        Save::parse(vec![0; 10]).unwrap_err(),
        ParseError::TooShort { actual: 10, minimum: HEADER_SIZE + 8 }
    );
    let mut bytes = Save::fresh(false).bytes;
    bytes[4] = 2;
    assert_eq!(Save::parse(bytes.clone()).unwrap_err(), ParseError::UnsupportedVersion { found: 2 });
    bytes[4] = 1;
    bytes[8] = 0;
    assert!(matches!(Save::parse(bytes.clone()).unwrap_err(), ParseError::InvalidHeaderSize { .. }));
    bytes[8] = 0x28;
    bytes[0x17] = 0x80;
    assert!(matches!(Save::parse(bytes.clone()).unwrap_err(), ParseError::NegativeExtraDataOffset { .. }));
    bytes[0x17] = 0;
    bytes[0x14] = 4;
    assert_eq!(
        Save::parse(bytes.clone()).unwrap_err(),
        ParseError::UnsupportedPayloadSize { found: GAME_SIZE - 4, windows_game: 0x7e4c, android_game: 0x7e58, options: 0x18 }
    );
}

#[test]
fn parse_error_messages_name_the_values() {
    assert_eq!(
        ParseError::InvalidMagic { found: 0x5247_4d00 }.message(),
        "invalid save magic 0x52474d00; expected 0x52474d48"
    );
    assert_eq!(
        ParseError::InvalidMagic { found: -1 }.message(),
        "invalid save magic 0xffffffff; expected 0x52474d48"
    );
    assert_eq!(
        ParseError::TooShort { actual: 3, minimum: 8272 }.message(),
        "save is only 3 bytes; a save envelope needs at least 8272 bytes"
    );
    assert_eq!(
        ParseError::NegativeExtraDataOffset { found: -5 }.message(),
        "extra-data offset is negative (-5)"
    );
}

#[test]
fn slot_files_follow_the_game_naming() {
    assert_eq!(save_file_name(0), "SaveGame0.LEGO Star Wars - The Complete Saga_SavedGame");
    assert_eq!(save_file_name(3), "SaveGame3.LEGO Star Wars - The Complete Saga_SavedGame");
}

#[test]
fn numbered_bits_set_exactly_that_bit() {
    let mut save = Save::fresh(false);
    let tables = NameTables::empty();
    let p = save.payload;
    apply_assignments(&mut save, &["shop_gold_brick_purchased_bits=BIT_20"], &[None], &tables).unwrap();
    assert_eq!(word(&save.bytes, p + 0x7bf8), 1 << 20);
    apply_assignments(&mut save, &["hint_completion_bits=BIT_191"], &[None], &tables).unwrap();
    assert_eq!(save.bytes[p + 0x7c08 + 23], 0x80);
}

#[test]
fn an_assignment_changes_only_its_property() {
    let mut save = Save::fresh(false);
    let before = save.bytes.clone();
    let tables = NameTables::empty();
    apply_assignments(&mut save, &["coins=0x01020304"], &[None], &tables).unwrap();
    let start = save.payload + 0x7c20;
    for (index, (old, new)) in before.iter().zip(save.bytes.iter()).enumerate() {
        if index < start || index >= start + 4 {
            assert_eq!(old, new, "byte {index} changed");
        }
    }
    assert_eq!(&save.bytes[start..start + 4], &[4, 3, 2, 1]);
}

#[test]
fn options_saves_live_in_slot_three() {
    assert_eq!(target_slot(true, None), Some(3));
    assert_eq!(target_slot(true, Some(3)), Some(3));
    assert_eq!(target_slot(true, Some(1)), None);
    assert_eq!(target_slot(false, None), Some(0));
    assert_eq!(target_slot(false, Some(2)), Some(2));
}

#[test]
fn temporary_names_and_attempts() {
    assert_eq!(temporary_suffix(42, 7), ".incomplete.42.7");
    assert_eq!(next_temporary_step(0, OpenOutcome::Created), TemporaryStep::Write);
    assert_eq!(next_temporary_step(0, OpenOutcome::AlreadyExists), TemporaryStep::Retry(1));
    assert_eq!(next_temporary_step(TEMPORARY_ATTEMPTS - 1, OpenOutcome::AlreadyExists), TemporaryStep::Exhausted);
    assert_eq!(next_temporary_step(5, OpenOutcome::Failed), TemporaryStep::Fail);
}

#[test]
fn payload_offsets_past_the_file_are_rejected() {
    let mut bytes = Save::fresh(true).bytes;
    bytes[0x14] = 0x00;
    bytes[0x15] = 0x10;
    let length = bytes.len();
    assert_eq!(
        Save::parse(bytes).unwrap_err(),
        ParseError::PayloadBeyondFile { payload_offset: HEADER_SIZE + 0x1000, file_size: length }
    );
}

#[test]
fn header_metadata_reads_utf16_labels() {
    let mut save = Save::fresh(false);
    for (index, unit) in "Save Slot 0".encode_utf16().enumerate() {
        save.bytes[0x828 + 2 * index..0x828 + 2 * index + 2].copy_from_slice(&unit.to_le_bytes());
    }
    for (index, unit) in "LEGO® Star Wars™".encode_utf16().enumerate() {
        save.bytes[0x28 + 2 * index..0x28 + 2 * index + 2].copy_from_slice(&unit.to_le_bytes());
    }
    let metadata = save.header_metadata();
    assert_eq!(metadata.slot.as_deref(), Some("Save Slot 0"));
    assert_eq!(metadata.application.as_deref(), Some("LEGO® Star Wars™"));
    assert_eq!(metadata.reserved, None);
    assert_eq!(metadata.timestamp, None);
}

#[test]
fn hex_values_take_exactly_two_digits_per_byte() {
    let tables = NameTables::empty();
    let mut save = Save::fresh(false);
    let before = save.bytes.clone();
    let error = apply_assignments(&mut save, &["customizer.field_0x12=hex:+1+2"], &[None], &tables).unwrap_err();
    match error {
        EditError::Assignment(AssignmentError::InvalidValue { property, value, .. }) => {
            assert_eq!(property, "customizer.field_0x12");
            assert_eq!(value, "hex:+1+2");
        }
        other => panic!("unexpected error {other:?}"),
    }
    assert_eq!(save.bytes, before);
    apply_assignments(&mut save, &["customizer.field_0x12=hex:0A0b"], &[None], &tables).unwrap();
    let p = save.payload;
    assert_eq!(&save.bytes[p + 0x7c2c + 4 + 0x12..p + 0x7c2c + 4 + 0x14], &[0x0a, 0x0b]);
}

#[test]
fn header_fields_follow_the_envelope_table() {
    let save = Save::fresh(true);
    let fields = nusave::properties(&save);
    let header: Vec<(String, usize, usize, nusave::Kind)> = fields
        .iter()
        .filter(|field| field.name.starts_with("header."))
        .map(|field| (field.name.clone(), field.offset, field.size, field.kind))
        .collect();
    let expected = [
        ("header.field0_0x0", 0x0, 4, nusave::Kind::Signed),
        ("header.field1_0x4", 0x4, 4, nusave::Kind::Signed),
        ("header.size", 0x8, 4, nusave::Kind::Signed),
        ("header.field3_0xc", 0xc, 4, nusave::Kind::Signed),
        ("header.field4_0x10", 0x10, 4, nusave::Kind::Signed),
        ("header.extradata_offset", 0x14, 4, nusave::Kind::Signed),
        ("header.field6_0x18", 0x18, 16, nusave::Kind::Bytes),
        ("header.field7_0x28", 0x28, 2, nusave::Kind::Signed),
        ("header.field8_0x2a", 0x2a, 2046, nusave::Kind::Bytes),
        ("header.field9_0x828", 0x828, 2, nusave::Kind::Signed),
        ("header.field10_0x82a", 0x82a, 2046, nusave::Kind::Bytes),
        ("header.field11_0x1028", 0x1028, 2, nusave::Kind::Signed),
        ("header.field12_0x102a", 0x102a, 2046, nusave::Kind::Bytes),
        ("header.field13_0x1828", 0x1828, 2, nusave::Kind::Signed),
        ("header.field14_0x182a", 0x182a, 2046, nusave::Kind::Bytes),
    ];
    assert_eq!(header.len(), expected.len());
    for ((name, offset, size, kind), (e_name, e_offset, e_size, e_kind)) in header.iter().zip(expected.iter()) {
        assert_eq!(name, e_name);
        assert_eq!(offset, e_offset);
        assert_eq!(size, e_size);
        assert_eq!(kind, e_kind);
    }
    assert!(!fields.iter().any(|field| field.name.starts_with("byte[")));
}

#[test]
fn property_names_are_distinct_and_cover_every_byte() {
    let mut windows = Save::fresh(false).bytes;
    windows.drain(HEADER_SIZE + 0x7c20..HEADER_SIZE + 0x7c2c);
    let saves = [Save::fresh(false), Save::fresh(true), Save::parse(windows).unwrap()];
    for save in saves.iter() {
        let fields = nusave::properties(save);
        let mut names: Vec<&str> = fields.iter().map(|field| field.name.as_str()).collect();
        names.sort();
        let count = names.len();
        names.dedup();
        assert_eq!(names.len(), count, "a property name repeats");
        let mut covered = vec![false; save.bytes.len()];
        for field in fields.iter() {
            assert!(field.size >= 1 && field.offset + field.size <= save.bytes.len());
            for index in field.offset..field.offset + field.size {
                covered[index] = true;
            }
        }
        assert!(covered.iter().all(|c| *c), "a byte is not covered");
    }
}

#[test]
fn non_finite_float_bits_are_refused() {
    let tables = NameTables::empty();
    let mut save = Save::fresh(false);
    let before = save.bytes.clone();
    for bits in [0x7fc0_0001u32, 0x7f80_0000, 0xff80_0000] {
        let error = apply_assignments(&mut save, &["gameplay_seconds=x"], &[Some(bits)], &tables).unwrap_err();
        assert!(matches!(error, EditError::Assignment(AssignmentError::InvalidValue { .. })));
        assert_eq!(save.bytes, before);
    }
    apply_assignments(&mut save, &["gameplay_seconds=1.5"], &[Some(1.5f32.to_bits())], &tables).unwrap();
    let p = save.payload + 0x7c2c;
    assert_eq!(f32::from_le_bytes(save.bytes[p..p + 4].try_into().unwrap()), 1.5);
}
