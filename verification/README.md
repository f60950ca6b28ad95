# nusave

A verified library for the savegames of **LEGO Star Wars: The Complete Saga**
(Nu engine), and a small command line around it.

The library (`src/`) holds the save-format logic with contracts checked by
Verus: envelope parsing and validation, the payload checksum and slot code,
the editable property schema, transactional `KEY=VALUE` edits, the raw
listing (every property as a reusable assignment), the interpreted summary,
parameter files and the decisions of an atomic write.  Laws proved there
include that the raw listing of any save is a lossless parameter file: its
assignments, applied in order to a save of the same size, give back the
listed save byte for byte, given only that the release's shop-entry names
are distinct, none is `NONE`, holds `|` or reads as `BIT_n`, and that no
signed property with named values is negative (`lossless.rs`); that every
property of a save has a name of its own, lies in the save and every byte is
covered (`schema_laws.rs`); that an assignment changes only the property it
names; that an older property name edits exactly what its current name
edits; that an integer value is accepted exactly when it fits its width and
is then stored in two's complement; that every byte stays addressable as
`byte[N]` and every mask bit as `BIT_n`; and that the summary written
without colour holds no escape codes its rows do not hold, while the
coloured summary differs from it only by its escape sequences.

The command line (`app/`) reads and writes files, parses floating-point
values and formats durations, and loads the name tables (characters, areas,
levels, missions, shop entries and customizer pieces) from a `data/`
directory beside the executable, or from the directory named by
`NUSAVE_DATA`:

```text
data/pc/shop_character_names.txt      data/android/shop_character_names.txt
data/pc/character_names.txt           data/android/character_names.txt
data/pc/area_names.txt                data/android/area_names.txt
data/pc/level_names.txt               data/android/level_names.txt
data/mission_names.txt                data/customizer_pieces.tsv
```

Missing tables leave the corresponding names unknown; the summary then shows
`Unknown … (ID n)`.
