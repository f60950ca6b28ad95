use nusave::{apply_assignments, area_name, character_name, customizer_piece, level_name, mission_name, properties,
    raw_list_text, shop_character_names, summary_floats, summary_text, NameTables, Property, Save, SaveKind, Kind};

const HEADER: usize = 0x2028;
const WINDOWS_PAYLOAD: usize = 0x7e4c;

fn duration(seconds: f32) -> String {
    if !seconds.is_finite() || seconds < 0.0 {
        return format!("Invalid ({seconds:?})");
    }
    if seconds >= 60.0 && seconds.fract() == 0.0 {
        let total = seconds as u64;
        let hours = total / 3600;
        let minutes = total % 3600 / 60;
        let seconds = total % 60;
        if hours > 0 { format!("{hours}h {minutes:02}m {seconds:02}s") } else { format!("{minutes}m {seconds:02}s") }
    } else {
        format!("{seconds:.2}s")
    }
}

fn float_texts(save: &Save, fields: &[Property]) -> Vec<String> {
    fields
        .iter()
        .map(|field| {
            if field.kind == Kind::Float {
                let bytes: [u8; 4] = save.bytes[field.offset..field.offset + 4].try_into().unwrap();
                format!("{}", f32::from_le_bytes(bytes))
            } else {
                String::new()
            }
        })
        .collect()
}

fn summary(save: &Save, tables: &NameTables) -> String {
    let fields = properties(save);
    let floats: Vec<String> = summary_floats(save)
        .into_iter()
        .map(|bits| if save.kind().is_game() { duration(f32::from_bits(bits)) } else { format!("{}", f32::from_bits(bits)) })
        .collect();
    summary_text(save, &fields, "", false, tables, &floats)
}

fn word(bytes: &[u8], offset: usize) -> u32 {
    u32::from_le_bytes(bytes[offset..offset + 4].try_into().unwrap())
}

fn write_word(bytes: &mut [u8], offset: usize, value: u32) {
    bytes[offset..offset + 4].copy_from_slice(&value.to_le_bytes());
}

fn write_utf16_prefix(bytes: &mut [u8], offset: usize, value: &str) {
    for (index, unit) in value.encode_utf16().chain([0]).enumerate() {
        bytes[offset + index * 2..offset + index * 2 + 2].copy_from_slice(&unit.to_le_bytes());
    }
}

fn checksum(bytes: &[u8], payload_size: usize) -> u32 {
    bytes[HEADER..HEADER + payload_size]
        .chunks(4)
        .fold(0x5c0999u32, |sum, chunk| sum.wrapping_add(u32::from_le_bytes(chunk.try_into().unwrap())))
}

fn convert_to_windows_save(bytes: &mut Vec<u8>) {
    bytes.drain(HEADER + 0x7c20..HEADER + 0x7c2c);
    write_utf16_prefix(bytes, 0x28, "LEGO® Star Wars™: The Complete Saga");
    write_utf16_prefix(bytes, 0x828, "Save Slot 0");
    write_utf16_prefix(bytes, 0x1828, "9/6/2026 3:44:24 AM");
    bytes[HEADER + 0x7c20..HEADER + 0x7c24].copy_from_slice(&120.0f32.to_le_bytes());
    bytes[HEADER + 0x7cf8 + 339] = 3;
    write_word(bytes, HEADER + WINDOWS_PAYLOAD + 4, 7);
    let sum = checksum(bytes, WINDOWS_PAYLOAD);
    write_word(bytes, HEADER + WINDOWS_PAYLOAD, sum);
}

/// A table of `count` lines, each `placeholder_N` unless `named` gives it a name.
fn table(count: usize, named: &[(usize, &str)]) -> String {
    let mut out = String::new();
    for index in 0..count {
        match named.iter().find(|(at, _)| *at == index) {
            Some((_, name)) => out.push_str(name),
            None => out.push_str(&format!("placeholder_{index}")),
        }
        out.push('\n');
    }
    out
}

/// The Android shop-entry order as the format documentation lists it.
const ANDROID_SHOP: &[&str] = &[
    "gonkdroid", "pkdroid", "battledroid", "battledroid_security", "battledroid_commander", "destroyer",
    "captaintarpals", "bossnass", "royalguard", "padme", "watto", "pitdroid", "darthmaul", "zamwesell", "dexter",
    "clone", "lamasu", "taunwe", "geonosian", "battledroid_geonosian", "superbattledroid", "jangofett",
    "bobafett_boy", "luminara", "kiadimundi", "kitfisto", "shaakti", "aylasecura", "plokoon", "countdooku",
    "bodyguard", "grievous", "wookie", "clone_ep3", "clone_ep3_pilot", "clone_ep3_swamp", "clone_ep3_walker",
    "disguisedclone", "macewindu_ep3", "anakin_jedi_scarred", "rebelscum", "stormtrooper", "imperialshuttlepilot",
    "tuskenraider", "jawa", "sandtrooper", "greedo", "imperialspy", "beachtrooper", "deathstartrooper",
    "tiefighterpilot", "imperialofficer", "grandmofftarkin", "hansolo_hood", "rebelhoth", "rebelpilot",
    "snowtrooper", "lukeskywalker_hoth", "lobot", "ugnaught", "bespinguard", "princessleia_prisoner",
    "gamorreanguard", "bibfortuna", "palaceguard", "bossk", "skiffguard", "bobafett", "ewok", "imperialguard",
    "theemperor", "admiralackbar", "ig88", "dengar", "4lom", "ghostbenkenobi", "anakin_ghost", "yoda_ghost", "r2q5",
    "sebulbaspod", "tiefighter", "zamsspeeder", "droidtrifighter", "vulturedroid", "clonearc", "tieinterceptor",
    "tiefighterdarth", "tiebomber", "imperialshuttle", "slave1",
];

fn customizer_rows() -> String {
    let mut out = String::new();
    for (category, count) in [("hathair", 4), ("head", 3), ("weapon", 8), ("body", 60), ("legs", 35)] {
        for index in 0..count {
            let (name, source) = match (category, index) {
                ("hathair", 1) => ("hat_hair_01".to_string(), "QuiGonJinn"),
                ("weapon", 5) => ("blaster_blue".to_string(), ""),
                ("body", 49) => ("Body_50".to_string(), ""),
                ("legs", 34) => ("leg_35".to_string(), ""),
                _ => (format!("{category}_piece_{index}"), ""),
            };
            out.push_str(&format!("{category}\t{name}\t{source}\n"));
        }
    }
    out
}

fn tables() -> NameTables {
    let mut tables = NameTables::empty();
    let mut windows_shop: Vec<(usize, &str)> = Vec::new();
    windows_shop.push((37, "macewindu_ep3"));
    tables.windows_shop_characters = table(88, &windows_shop);
    tables.android_shop_characters = ANDROID_SHOP.join("\n") + "\n";
    tables.windows_characters = table(319, &[(0, "slave1_lsw1"), (104, "QuiGonJinn"), (307, "Whip"), (317, "hansolo_indy")]);
    tables.android_characters = table(319, &[(307, "WA7"), (317, "plokoon"), (318, "raft")]);
    tables.windows_areas = table(70, &[(0, "Negotiations"), (69, "LostTemple")]);
    tables.android_areas = table(71, &[(0, "Negotiations"), (70, "Vehicles")]);
    tables.windows_levels = table(350, &[(0, "titles"), (349, "LostTemple_A")]);
    tables.android_levels = table(351, &[(0, "titles"), (350, "Platform")]);
    tables.missions = table(20, &[(0, "QuiGonJinn"), (19, "hansolo")]);
    tables.customizer_pieces = customizer_rows();
    assert!(tables.is_valid());
    tables
}

#[test]
fn character_names_follow_chars_txt_ids() {
    let tables = tables();
    assert_eq!(character_name(&tables, SaveKind::WindowsGame, 0).as_deref(), Some("slave1_lsw1"));
    assert_eq!(character_name(&tables, SaveKind::WindowsGame, 104).as_deref(), Some("QuiGonJinn"));
    assert_eq!(character_name(&tables, SaveKind::WindowsGame, 307).as_deref(), Some("Whip"));
    assert_eq!(character_name(&tables, SaveKind::WindowsGame, 317).as_deref(), Some("hansolo_indy"));
    assert_eq!(character_name(&tables, SaveKind::AndroidGame, 307).as_deref(), Some("WA7"));
    assert_eq!(character_name(&tables, SaveKind::AndroidGame, 317).as_deref(), Some("plokoon"));
    assert_eq!(character_name(&tables, SaveKind::AndroidGame, 318).as_deref(), Some("raft"));
    assert_eq!(character_name(&tables, SaveKind::AndroidGame, 319), None);
    assert_eq!(character_name(&tables, SaveKind::WindowsGame, 339), None);
}

#[test]
fn configured_save_indices_have_game_data_names() {
    let tables = tables();
    assert_eq!(area_name(&tables, SaveKind::WindowsGame, 0).as_deref(), Some("Negotiations"));
    assert_eq!(area_name(&tables, SaveKind::WindowsGame, 69).as_deref(), Some("LostTemple"));
    assert_eq!(area_name(&tables, SaveKind::WindowsGame, 70), None);
    assert_eq!(area_name(&tables, SaveKind::AndroidGame, 70).as_deref(), Some("Vehicles"));
    assert_eq!(level_name(&tables, SaveKind::WindowsGame, 0).as_deref(), Some("titles"));
    assert_eq!(level_name(&tables, SaveKind::WindowsGame, 349).as_deref(), Some("LostTemple_A"));
    assert_eq!(level_name(&tables, SaveKind::WindowsGame, 350), None);
    assert_eq!(level_name(&tables, SaveKind::AndroidGame, 350).as_deref(), Some("Platform"));
    assert_eq!(mission_name(&tables, 0).as_deref(), Some("QuiGonJinn"));
    assert_eq!(mission_name(&tables, 19).as_deref(), Some("hansolo"));
    assert_eq!(mission_name(&tables, 20), None);

    let piece = customizer_piece(&tables, 0, 1).unwrap();
    assert_eq!(piece.name, "hat_hair_01");
    assert_eq!(piece.source_character.as_deref(), Some("QuiGonJinn"));
    assert_eq!(customizer_piece(&tables, 2, 5).unwrap().name, "blaster_blue");
    assert_eq!(customizer_piece(&tables, 6, 49).unwrap().name, "Body_50");
    assert_eq!(customizer_piece(&tables, 8, 34).unwrap().name, "leg_35");
    assert_eq!(customizer_piece(&tables, 8, 35), None);
    assert_eq!(customizer_piece(&tables, 0, -1), None);
}

#[test]
fn shop_bit_order_is_selected_by_release() {
    let tables = tables();
    assert_eq!(shop_character_names(&tables, SaveKind::WindowsGame).get(37).map(String::as_str), Some("macewindu_ep3"));
    assert_eq!(shop_character_names(&tables, SaveKind::WindowsGame).len(), 88);
    assert_eq!(shop_character_names(&tables, SaveKind::AndroidGame).get(37).map(String::as_str), Some("disguisedclone"));
    assert_eq!(
        shop_character_names(&tables, SaveKind::AndroidGame).get(39).map(String::as_str),
        Some("anakin_jedi_scarred")
    );
    assert_eq!(shop_character_names(&tables, SaveKind::AndroidGame).len(), 90);
}

#[test]
fn lines_end_at_newlines_and_drop_carriage_returns() {
    let mut tables = NameTables::empty();
    tables.missions = "first\r\nsecond\n\nfourth".to_string();
    assert_eq!(mission_name(&tables, 0).as_deref(), Some("first"));
    assert_eq!(mission_name(&tables, 1).as_deref(), Some("second"));
    assert_eq!(mission_name(&tables, 2).as_deref(), Some(""));
    assert_eq!(mission_name(&tables, 3).as_deref(), Some("fourth"));
    assert_eq!(mission_name(&tables, 4), None);
}

#[test]
fn options_saves_use_the_android_tables() {
    let tables = tables();
    assert_eq!(shop_character_names(&tables, SaveKind::AndroidOptions).len(), 90);
    assert_eq!(character_name(&tables, SaveKind::AndroidOptions, 318).as_deref(), Some("raft"));
}

#[test]
fn logical_masks_use_names_across_word_boundaries() {
    let tables = tables();
    let mut save = Save::fresh(false);
    apply_assignments(
        &mut save,
        &[
            "shop_character_purchased_bits=gonkdroid|wookie|slave1|BIT_127",
            "extra_purchased_bits=scorex2|scorex10",
            "hint_completion_bits=console.AutoJump_1568|touch.AutoJump_1568|BIT_191",
        ],
        &[None, None, None],
        &tables,
    )
    .unwrap();
    let p = save.payload;
    let bytes = &save.bytes;
    assert_eq!(
        u128::from_le_bytes(bytes[p + 0x7be0..p + 0x7bf0].try_into().unwrap()),
        1 | (1u128 << 32) | (1u128 << 89) | (1u128 << 127)
    );
    assert_eq!(
        u64::from_le_bytes(bytes[p + 0x7c00..p + 0x7c08].try_into().unwrap()),
        (1u64 << 31) | (1u64 << 43)
    );
    let hints = u128::from_le_bytes(bytes[p + 0x7c08..p + 0x7c18].try_into().unwrap());
    assert_eq!(hints, (1u128 << 3) | (1u128 << 99));
    assert_eq!(bytes[p + 0x7c08 + 23], 0x80);
    let fields = properties(&save);
    let floats = vec![String::new(); fields.len()];
    let listed = raw_list_text(&save, &fields, "shop_character", &floats, &tables);
    assert!(listed.contains("0=gonkdroid"));
    assert!(listed.contains("32=wookie"));
    assert!(listed.contains("89=slave1"));
    assert!(listed.contains("127=BIT_127"));
}

#[test]
fn reads_and_edits_the_shared_windows_precursor_layout() {
    let tables = tables();
    let mut bytes = Save::fresh(false).bytes;
    convert_to_windows_save(&mut bytes);
    let mut save = Save::parse(bytes).unwrap();
    assert_eq!(save.kind(), SaveKind::WindowsGame);

    let listed = summary(&save, &tables);
    assert!(listed.contains("Windows PC game progress"));
    assert!(listed.contains("Application  LEGO® Star Wars™: The Complete Saga"));
    assert!(listed.contains("Slot label   Save Slot 0"));
    assert!(listed.contains("Saved at     9/6/2026 3:44:24 AM"));
    assert!(listed.contains("Stored slot code  7"));
    assert!(listed.contains("Gameplay time"));
    assert!(listed.contains("2m 00s"));
    assert!(listed.contains("Unknown character (ID 339)"));
    assert!(!listed.contains("  Studs"));

    let assignments = [
        "gameplay_seconds=90",
        "character_save[339]=UNLOCKED",
        "shop_character_purchased_bits=macewindu_ep3",
        "extra_purchased_bits=adaptivedifficulty",
        "hint_completion_bits=bank1.GizForce_601",
    ];
    apply_assignments(&mut save, &assignments, &[Some(90.0f32.to_bits()), None, None, None, None], &tables).unwrap();
    save.derive();
    let edited = save.bytes.clone();
    assert_eq!(edited.len(), HEADER + WINDOWS_PAYLOAD + 8);
    assert_eq!(f32::from_le_bytes(edited[HEADER + 0x7c20..HEADER + 0x7c24].try_into().unwrap()), 90.0);
    assert_eq!(edited[HEADER + 0x7cf8 + 339], 2);
    assert_eq!(word(&edited, edited.len() - 4), 7);
    assert_eq!(word(&edited, HEADER + WINDOWS_PAYLOAD), checksum(&edited, WINDOWS_PAYLOAD));

    let listed = summary(&save, &tables);
    assert!(listed.contains("Purchased characters   macewindu_ep3"));
    assert!(listed.contains("Purchased extras       adaptivedifficulty"));
    assert!(listed.contains("Completed tutorials    bank1.GizForce_601"));
    let fields = properties(&save);
    let raw = raw_list_text(&save, &fields, "", &float_texts(&save, &fields), &tables);
    assert!(raw.contains("shop_character_purchased_bits=macewindu_ep3"));
    assert!(raw.contains("extra_purchased_bits=adaptivedifficulty"));
    assert!(raw.contains("hint_completion_bits=bank1.GizForce_601"));

    let error = apply_assignments(&mut save, &["coins=1"], &[None], &tables).unwrap_err();
    assert!(error.message().contains("unknown save property `coins`"));
    assert_eq!(save.bytes, edited);
}
