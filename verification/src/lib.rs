//! Reading, inspecting, editing and writing Nu engine savegames.
//!
//! The library holds the save-format logic: envelope validation, the derived
//! checksum and slot code, the editable property schema, transactional
//! assignment and the text views.  File I/O and the command line live in the
//! application around it.

pub mod text;
pub mod parse;
pub mod format;
pub mod schema;
pub mod names;
pub mod values;
pub mod assign;
pub mod describe;
pub mod rawlist;
pub mod messages;
pub mod summary;
pub mod interpret;
pub mod params;
pub mod publish;
pub mod roundtrip;
pub mod locality;
pub mod slots;
pub mod tables;
pub mod lossless;
pub mod schema_laws;

pub use format::{SaveKind, Save, ParseError, HeaderMetadata, save_file_name, HEADER_SIZE, GAME_SIZE,
    ANDROID_GAME_SIZE, WINDOWS_GAME_SIZE, OPTIONS_SIZE, MAX_SAVE_SIZE};
pub use schema::{Kind, Property, properties};
pub use assign::{AssignmentError, assignment_value};
pub use describe::property_description;
pub use names::{NameTables, CustomizerPiece, shop_character_names, character_name, customizer_piece,
    area_name, level_name, mission_name};
pub use rawlist::{raw_list_text, enum_text, all_fitting, all_listable};
pub use summary::{SummaryRow, Look, Hue, render_summary, human_words, human_enum, fixed_text, number};
pub use interpret::{summary_text, summary_floats};
pub use params::parameter_lines;
pub use slots::{target_slot, OPTIONS_SLOT};
pub use publish::{OpenOutcome, TemporaryStep, TEMPORARY_ATTEMPTS, temporary_suffix, next_temporary_step};

use vstd::prelude::*;
use assign::{ErrorView, spec_assign, assign};
use format::spec_parse;
use schema::{views, spec_properties};
use names::{text_lines, release_table, string_views};

verus! {

/// A requested edit could not be applied safely.
#[derive(Clone, Debug, PartialEq, Eq)]
pub enum EditError {
    /// One assignment was malformed, named no known property, or had an invalid value.
    Assignment(AssignmentError),
    /// An assignment changed or invalidated the structural save envelope.
    InvalidLayout,
}

/// The bytes after applying assignments in order, or the first error.
pub open spec fn spec_apply_all(
    bytes: Seq<u8>,
    kind: SaveKind,
    fields: Seq<schema::PropView>,
    shop: Seq<Seq<char>>,
    assignments: Seq<Seq<char>>,
    floats: Seq<Option<u32>>,
) -> Result<Seq<u8>, ErrorView>
    decreases assignments.len(),
{
    if assignments.len() == 0 {
        Ok(bytes)
    } else {
        match spec_apply_all(bytes, kind, fields, shop, assignments.drop_last(), floats) {
            Err(e) => Err(e),
            Ok(b) => spec_assign(b, kind, fields, shop, assignments.last(), floats[assignments.len() - 1]),
        }
    }
}

/// The text of each assignment.
pub open spec fn texts(v: Seq<&str>) -> Seq<Seq<char>> {
    v.map_values(|s: &str| s@)
}

/// The release shop-entry names a save's masks use.
pub open spec fn shop_names(tables: &NameTables, kind: SaveKind) -> Seq<Seq<char>> {
    text_lines(release_table(kind, tables.windows_shop_characters@, tables.android_shop_characters@))
}

/// Applies assignments transactionally, leaving `save` unchanged on any error.
/// `float_bits[i]` holds the bits of the finite `f32` that the value text of
/// assignment `i` denotes, or nothing; it is read only when that assignment
/// names a float property.
pub fn apply_assignments(save: &mut Save, assignments: &[&str], float_bits: &[Option<u32>], tables: &NameTables) -> (res: Result<(), EditError>)
    requires
        old(save).has_layout(),
        float_bits@.len() == assignments@.len(),
    ensures
        final(save).payload == old(save).payload,
        final(save).payload_size == old(save).payload_size,
        match spec_apply_all(
            old(save).bytes@,
            old(save).spec_kind(),
            spec_properties(old(save).payload as int, old(save).payload_size as int, old(save).bytes@.len() as int),
            shop_names(tables, old(save).spec_kind()),
            texts(assignments@),
            float_bits@,
        ) {
            Err(e) => res matches Err(EditError::Assignment(err)) && err@ == e && final(save).bytes@ == old(save).bytes@,
            Ok(b) => if spec_parse(b) == Ok::<(usize, usize), ParseError>((old(save).payload, old(save).payload_size)) {
                res is Ok && final(save).bytes@ == b
            } else {
                res == Err::<(), EditError>(EditError::InvalidLayout) && final(save).bytes@ == old(save).bytes@
            },
        },
{
    let fields = properties(save);
    let kind = save.kind();
    let shop = shop_character_names(tables, kind);
    let ghost fs = views(fields@);
    let ghost sh = string_views(shop@);
    let ghost ts = texts(assignments@);
    let mut edited = Save { bytes: save.bytes.clone(), payload: save.payload, payload_size: save.payload_size };
    assert(edited.bytes@ =~= save.bytes@);
    assert(ts.take(0) =~= Seq::<Seq<char>>::empty());
    let mut i: usize = 0;
    while i < assignments.len()
        invariant
            i <= assignments@.len(),
            float_bits@.len() == assignments@.len(),
            ts == texts(assignments@),
            fs == views(fields@),
            sh == string_views(shop@),
            save.bytes@ == old(save).bytes@,
            save.payload == old(save).payload,
            save.payload_size == old(save).payload_size,
            kind == old(save).spec_kind(),
            fs == spec_properties(old(save).payload as int, old(save).payload_size as int, old(save).bytes@.len() as int),
            sh == shop_names(tables, kind),
            schema::all_fit(fs, save.bytes@.len() as int),
            edited.has_layout(),
            edited.payload == save.payload,
            edited.payload_size == save.payload_size,
            edited.bytes@.len() == save.bytes@.len(),
            edited.spec_kind() == kind,
            spec_apply_all(save.bytes@, kind, fs, sh, ts.take(i as int), float_bits@) == Ok::<Seq<u8>, ErrorView>(edited.bytes@),
        decreases assignments@.len() - i,
    {
        assert(ts.take(i + 1).drop_last() =~= ts.take(i as int));
        assert(ts[i as int] == assignments@[i as int]@);
        let ghost prev = edited.bytes@;
        assert(ts.take(i + 1).last() == ts[i as int]);
        assert(spec_apply_all(save.bytes@, kind, fs, sh, ts.take(i + 1), float_bits@) == spec_assign(prev, kind, fs, sh, ts[i as int], float_bits@[i as int]));
        match assign(&mut edited, &fields, &shop, assignments[i], float_bits[i]) {
            Ok(()) => {},
            Err(e) => {
                assert(fs == views(fields@));
                assert(sh == string_views(shop@));
                assert(assignments[i as int]@ == ts[i as int]);
                assert(spec_assign(prev, kind, fs, sh, ts[i as int], float_bits@[i as int]) is Err);
                proof {
                    lemma_apply_all_error(save.bytes@, kind, fs, sh, ts, float_bits@, i as int + 1);
                }
                return Err(EditError::Assignment(e));
            },
        }
        i = i + 1;
    }
    assert(ts.take(i as int) =~= ts);
    if !edited.validate_layout() {
        return Err(EditError::InvalidLayout);
    }
    *save = edited;
    Ok(())
}

proof fn lemma_apply_all_error(
    bytes: Seq<u8>,
    kind: SaveKind,
    fields: Seq<schema::PropView>,
    shop: Seq<Seq<char>>,
    ts: Seq<Seq<char>>,
    floats: Seq<Option<u32>>,
    n: int,
)
    requires
        0 <= n <= ts.len(),
        spec_apply_all(bytes, kind, fields, shop, ts.take(n), floats) is Err,
    ensures
        spec_apply_all(bytes, kind, fields, shop, ts, floats) == spec_apply_all(bytes, kind, fields, shop, ts.take(n), floats),
    decreases ts.len() - n,
{
    if n < ts.len() {
        assert(ts.take(n + 1).drop_last() =~= ts.take(n));
        lemma_apply_all_error(bytes, kind, fields, shop, ts, floats, n + 1);
    } else {
        assert(ts.take(n) =~= ts);
    }
}

} // verus!
