//! Names of stored indices: shop entries, extras, tutorials and the
//! configured game-data tables.
use vstd::prelude::*;
use crate::format::SaveKind;
use crate::text::{chars_of, string_of, push_char};

verus! {

/// Views an optional string slice as optional text.
pub open spec fn opt_str(o: Option<&'static str>) -> Option<Seq<char>> {
    match o {
        Some(s) => Some(s@),
        None => None,
    }
}

/// Name of extra-mask bit `k`: the game's 44-entry cheat table.
pub open spec fn spec_extra_name(k: int) -> Option<Seq<char>> {
    if k == 0 { Some("extratoggle"@) }
    else if k == 1 { Some("poo"@) }
    else if k == 2 { Some("disguises"@) }
    else if k == 3 { Some("daisychains"@) }
    else if k == 4 { Some("c3pobits"@) }
    else if k == 5 { Some("towdeathstar"@) }
    else if k == 6 { Some("silhouettes"@) }
    else if k == 7 { Some("beepbeep"@) }
    else if k == 8 { Some("supergonk"@) }
    else if k == 9 { Some("poomoney"@) }
    else if k == 10 { Some("walkietalkiedisable"@) }
    else if k == 11 { Some("powerbrickdetector"@) }
    else if k == 12 { Some("superslap"@) }
    else if k == 13 { Some("forcezipup"@) }
    else if k == 14 { Some("coinmagnet"@) }
    else if k == 15 { Some("disarmtroopers"@) }
    else if k == 16 { Some("characterstuds"@) }
    else if k == 17 { Some("perfectdeflect"@) }
    else if k == 18 { Some("explodingblasterbolts"@) }
    else if k == 19 { Some("forcepull"@) }
    else if k == 20 { Some("vehiclesmartbomb"@) }
    else if k == 21 { Some("superastromech"@) }
    else if k == 22 { Some("superjedislam"@) }
    else if k == 23 { Some("superthermaldetonator"@) }
    else if k == 24 { Some("deflectbolts"@) }
    else if k == 25 { Some("darkside"@) }
    else if k == 26 { Some("superblasters"@) }
    else if k == 27 { Some("fastforce"@) }
    else if k == 28 { Some("supersabres"@) }
    else if k == 29 { Some("tractorbeam"@) }
    else if k == 30 { Some("invincibility"@) }
    else if k == 31 { Some("scorex2"@) }
    else if k == 32 { Some("selfdestruct"@) }
    else if k == 33 { Some("fastbuild"@) }
    else if k == 34 { Some("scorex4"@) }
    else if k == 35 { Some("regenerate"@) }
    else if k == 36 { Some("minikitdetector"@) }
    else if k == 37 { Some("scorex6"@) }
    else if k == 38 { Some("superzapper"@) }
    else if k == 39 { Some("rockets"@) }
    else if k == 40 { Some("scorex8"@) }
    else if k == 41 { Some("superewokcatapult"@) }
    else if k == 42 { Some("infinitetorpedos"@) }
    else if k == 43 { Some("scorex10"@) }
    else { None }
}

/// Name of extra-mask bit `k`: the game's 44-entry cheat table.
pub fn extra_name(k: usize) -> (res: Option<&'static str>)
    ensures
        opt_str(res) == spec_extra_name(k as int),
{
    match k {
        0 => Some("extratoggle"),
        1 => Some("poo"),
        2 => Some("disguises"),
        3 => Some("daisychains"),
        4 => Some("c3pobits"),
        5 => Some("towdeathstar"),
        6 => Some("silhouettes"),
        7 => Some("beepbeep"),
        8 => Some("supergonk"),
        9 => Some("poomoney"),
        10 => Some("walkietalkiedisable"),
        11 => Some("powerbrickdetector"),
        12 => Some("superslap"),
        13 => Some("forcezipup"),
        14 => Some("coinmagnet"),
        15 => Some("disarmtroopers"),
        16 => Some("characterstuds"),
        17 => Some("perfectdeflect"),
        18 => Some("explodingblasterbolts"),
        19 => Some("forcepull"),
        20 => Some("vehiclesmartbomb"),
        21 => Some("superastromech"),
        22 => Some("superjedislam"),
        23 => Some("superthermaldetonator"),
        24 => Some("deflectbolts"),
        25 => Some("darkside"),
        26 => Some("superblasters"),
        27 => Some("fastforce"),
        28 => Some("supersabres"),
        29 => Some("tractorbeam"),
        30 => Some("invincibility"),
        31 => Some("scorex2"),
        32 => Some("selfdestruct"),
        33 => Some("fastbuild"),
        34 => Some("scorex4"),
        35 => Some("regenerate"),
        36 => Some("minikitdetector"),
        37 => Some("scorex6"),
        38 => Some("superzapper"),
        39 => Some("rockets"),
        40 => Some("scorex8"),
        41 => Some("superewokcatapult"),
        42 => Some("infinitetorpedos"),
        43 => Some("scorex10"),
        _ => None,
    }
}

/// Name of tutorial `k` in each bank of the hint-completion mask.
pub open spec fn spec_tutorial_hint_name(k: int) -> Option<Seq<char>> {
    if k == 0 { Some("hint_356"@) }
    else if k == 1 { Some("GizForce_601"@) }
    else if k == 2 { Some("Lever_1548"@) }
    else if k == 3 { Some("AutoJump_1568"@) }
    else if k == 4 { Some("AutoJump_1569"@) }
    else if k == 5 { Some("GizBuildIts_604"@) }
    else if k == 6 { Some("Attack_631"@) }
    else if k == 7 { Some("Dodge_613"@) }
    else if k == 8 { Some("Dodge_1501"@) }
    else if k == 9 { Some("ZipUps_610"@) }
    else if k == 10 { Some("Tag_602"@) }
    else if k == 11 { Some("Push_615"@) }
    else if k == 12 { Some("Teleport_616"@) }
    else if k == 13 { Some("GizPanel_617"@) }
    else if k == 14 { Some("GizPanel_618"@) }
    else if k == 15 { Some("Tag_605"@) }
    else if k == 16 { Some("Tag_606"@) }
    else if k == 17 { Some("Tag_611"@) }
    else if k == 18 { Some("Tag_650"@) }
    else if k == 19 { Some("Tag_651"@) }
    else if k == 20 { Some("ShinyMetal_643"@) }
    else if k == 21 { Some("SmartBomb_1505"@) }
    else if k == 22 { Some("GizPanel_607"@) }
    else if k == 23 { Some("GizPanel_608"@) }
    else if k == 24 { Some("GizPanel_609"@) }
    else if k == 25 { Some("Shop_1516"@) }
    else if k == 26 { Some("Shop_1515"@) }
    else if k == 27 { Some("Shop_1514"@) }
    else if k == 28 { Some("DragBomb_1518"@) }
    else if k == 29 { Some("DragBomb_654"@) }
    else if k == 30 { Some("Move_1521"@) }
    else if k == 31 { Some("Move_1523"@) }
    else if k == 32 { Some("Jump_1540"@) }
    else if k == 33 { Some("Move_1522"@) }
    else if k == 34 { Some("Jump_1542"@) }
    else if k == 35 { Some("PlayerButton_1524"@) }
    else if k == 36 { Some("PlayerButton_1525"@) }
    else if k == 37 { Some("Jump_1544"@) }
    else if k == 38 { Some("Jump_1546"@) }
    else if k == 39 { Some("HoldTag_1526"@) }
    else if k == 40 { Some("UnlockHubStuff_1561"@) }
    else if k == 41 { Some("UnlockHubStuff_1562"@) }
    else if k == 42 { Some("UnlockHubStuff_1563"@) }
    else if k == 43 { Some("Tag_649"@) }
    else if k == 44 { Some("VehicleStuff_1559"@) }
    else if k == 45 { Some("ShinyMetal_1565"@) }
    else if k == 46 { Some("ShinyMetal_696"@) }
    else if k == 47 { Some("Teleport_1570"@) }
    else if k == 48 { Some("Sith_1571"@) }
    else if k == 49 { Some("GizPanel_1572"@) }
    else if k == 50 { Some("GizPanel_1573"@) }
    else if k == 51 { Some("HatMachine_1575"@) }
    else if k == 52 { Some("HatMachine_1576"@) }
    else if k == 53 { Some("Jump_1577"@) }
    else { None }
}

/// Name of tutorial `k` in each bank of the hint-completion mask.
pub fn tutorial_hint_name(k: usize) -> (res: Option<&'static str>)
    ensures
        opt_str(res) == spec_tutorial_hint_name(k as int),
{
    match k {
        0 => Some("hint_356"),
        1 => Some("GizForce_601"),
        2 => Some("Lever_1548"),
        3 => Some("AutoJump_1568"),
        4 => Some("AutoJump_1569"),
        5 => Some("GizBuildIts_604"),
        6 => Some("Attack_631"),
        7 => Some("Dodge_613"),
        8 => Some("Dodge_1501"),
        9 => Some("ZipUps_610"),
        10 => Some("Tag_602"),
        11 => Some("Push_615"),
        12 => Some("Teleport_616"),
        13 => Some("GizPanel_617"),
        14 => Some("GizPanel_618"),
        15 => Some("Tag_605"),
        16 => Some("Tag_606"),
        17 => Some("Tag_611"),
        18 => Some("Tag_650"),
        19 => Some("Tag_651"),
        20 => Some("ShinyMetal_643"),
        21 => Some("SmartBomb_1505"),
        22 => Some("GizPanel_607"),
        23 => Some("GizPanel_608"),
        24 => Some("GizPanel_609"),
        25 => Some("Shop_1516"),
        26 => Some("Shop_1515"),
        27 => Some("Shop_1514"),
        28 => Some("DragBomb_1518"),
        29 => Some("DragBomb_654"),
        30 => Some("Move_1521"),
        31 => Some("Move_1523"),
        32 => Some("Jump_1540"),
        33 => Some("Move_1522"),
        34 => Some("Jump_1542"),
        35 => Some("PlayerButton_1524"),
        36 => Some("PlayerButton_1525"),
        37 => Some("Jump_1544"),
        38 => Some("Jump_1546"),
        39 => Some("HoldTag_1526"),
        40 => Some("UnlockHubStuff_1561"),
        41 => Some("UnlockHubStuff_1562"),
        42 => Some("UnlockHubStuff_1563"),
        43 => Some("Tag_649"),
        44 => Some("VehicleStuff_1559"),
        45 => Some("ShinyMetal_1565"),
        46 => Some("ShinyMetal_696"),
        47 => Some("Teleport_1570"),
        48 => Some("Sith_1571"),
        49 => Some("GizPanel_1572"),
        50 => Some("GizPanel_1573"),
        51 => Some("HatMachine_1575"),
        52 => Some("HatMachine_1576"),
        53 => Some("Jump_1577"),
        _ => None,
    }
}

/// Splits text at every occurrence of `c`, like `str::split`: there is always
/// one more piece than occurrences.
pub open spec fn split_on(s: Seq<char>, c: char) -> Seq<Seq<char>>
    decreases s.len(),
{
    if s.len() == 0 {
        seq![Seq::empty()]
    } else {
        let p = split_on(s.drop_last(), c);
        if s.last() == c {
            p.push(Seq::empty())
        } else {
            p.update(p.len() - 1, p.last().push(s.last()))
        }
    }
}

pub proof fn lemma_split_on_len(s: Seq<char>, c: char)
    ensures
        split_on(s, c).len() >= 1,
    decreases s.len(),
{
    if s.len() > 0 {
        lemma_split_on_len(s.drop_last(), c);
    }
}

/// The lines of a text, like `str::lines`: pieces between `\n`, a `\r` before
/// a `\n` removed, and no line after a final `\n`.
pub open spec fn text_lines(t: Seq<char>) -> Seq<Seq<char>> {
    let pieces = split_on(t, '\n');
    let kept = if pieces.last().len() == 0 { pieces.drop_last() } else { pieces };
    Seq::new(
        kept.len(),
        |k: int|
            if k < pieces.len() - 1 && kept[k].len() > 0 && kept[k].last() == '\r' {
                kept[k].drop_last()
            } else {
                kept[k]
            },
    )
}

/// Views a list of character vectors.
pub open spec fn char_views(v: Seq<Vec<char>>) -> Seq<Seq<char>> {
    v.map_values(|x: Vec<char>| x@)
}

/// Splits characters at every occurrence of `c`.
pub fn split_chars(s: &[char], c: char) -> (res: Vec<Vec<char>>)
    ensures
        char_views(res@) == split_on(s@, c),
{
    let mut pieces: Vec<Vec<char>> = Vec::new();
    let mut current: Vec<char> = Vec::new();
    let mut i: usize = 0;
    assert(s@.take(0) =~= Seq::<char>::empty());
    assert(char_views(pieces@) + seq![current@] =~= split_on(s@.take(0), c));
    while i < s.len()
        invariant
            i <= s@.len(),
            char_views(pieces@) + seq![current@] == split_on(s@.take(i as int), c),
        decreases s@.len() - i,
    {
        let ghost prev = split_on(s@.take(i as int), c);
        assert(s@.take(i + 1).drop_last() =~= s@.take(i as int));
        assert(s@.take(i + 1).last() == s@[i as int]);
        if s[i] == c {
            let ghost done = pieces@;
            pieces.push(current);
            current = Vec::new();
            assert(char_views(pieces@) =~= char_views(done).push(prev.last()));
            assert(char_views(pieces@) + seq![current@] =~= prev.push(Seq::empty()));
        } else {
            current.push(s[i]);
            assert(char_views(pieces@) + seq![current@] =~= prev.update(prev.len() - 1, prev.last().push(s@[i as int])));
        }
        i = i + 1;
    }
    assert(s@.take(i as int) =~= s@);
    let ghost done = pieces@;
    pieces.push(current);
    assert(char_views(pieces@) =~= char_views(done) + seq![current@]);
    pieces
}

/// The lines of a text, like `str::lines`.
pub fn lines_of(text: &str) -> (res: Vec<Vec<char>>)
    ensures
        char_views(res@) == text_lines(text@),
{
    let chars = chars_of(text);
    let pieces = split_chars(chars.as_slice(), '\n');
    proof {
        lemma_split_on_len(text@, '\n');
    }
    let ghost ps = char_views(pieces@);
    let total = pieces.len();
    let kept = if pieces[total - 1].len() == 0 { total - 1 } else { total };
    let mut out: Vec<Vec<char>> = Vec::new();
    let mut k: usize = 0;
    while k < kept
        invariant
            kept <= total,
            total == pieces@.len(),
            ps == char_views(pieces@),
            ps == split_on(text@, '\n'),
            kept == (if ps.last().len() == 0 { total - 1 } else { total as int }),
            k <= kept,
            char_views(out@) == text_lines(text@).take(k as int),
        decreases kept - k,
    {
        let piece = &pieces[k];
        let n = piece.len();
        let line: Vec<char> = if k + 1 < total && n > 0 && piece[n - 1] == '\r' {
            let mut v = piece.clone();
            v.pop();
            v
        } else {
            piece.clone()
        };
        proof {
            assert(piece@ == ps[k as int]);
            if k + 1 < total && n > 0 && piece@[n - 1] == '\r' {
                assert(line@ =~= ps[k as int].drop_last());
            }
        }
        let ghost before = out@;
        out.push(line);
        assert(char_views(out@) =~= char_views(before).push(line@));
        assert(text_lines(text@).take(k + 1) =~= text_lines(text@).take(k as int).push(line@));
        k = k + 1;
    }
    assert(text_lines(text@).take(k as int) =~= text_lines(text@));
    out
}

/// Filtering a prefix gives a prefix of the filtered sequence.
pub proof fn lemma_filter_take_prefix<A>(s: Seq<A>, n: int, p: spec_fn(A) -> bool)
    requires
        0 <= n <= s.len(),
    ensures
        s.take(n).filter(p).len() <= s.filter(p).len(),
        forall|i: int| 0 <= i < s.take(n).filter(p).len() ==> s.filter(p)[i] == #[trigger] s.take(n).filter(p)[i],
    decreases s.len() - n,
{
    if n == s.len() {
        assert(s.take(n) =~= s);
    } else {
        lemma_filter_take_prefix(s, n + 1, p);
        assert(s.take(n + 1) =~= s.take(n).push(s[n]));
        s.take(n).lemma_filter_push(s[n], p);
        let a = s.take(n).filter(p);
        let b = s.take(n + 1).filter(p);
        assert forall|i: int| 0 <= i < a.len() implies s.filter(p)[i] == #[trigger] a[i] by {
            assert(b[i] == a[i]);
        }
    }
}

/// Line `i` of a text, if it has that many lines.
pub open spec fn nth_line(t: Seq<char>, i: int) -> Option<Seq<char>> {
    let lines = text_lines(t);
    if 0 <= i < lines.len() { Some(lines[i]) } else { None }
}

/// The name tables shipped with the game data, one name per line: shop entries,
/// character IDs, areas, levels and missions per release, and the customizer
/// pieces as tab-separated `category`, `name`, `source character` rows.
pub struct NameTables {
    pub windows_shop_characters: String,
    pub android_shop_characters: String,
    pub windows_characters: String,
    pub android_characters: String,
    pub customizer_pieces: String,
    pub windows_areas: String,
    pub android_areas: String,
    pub windows_levels: String,
    pub android_levels: String,
    pub missions: String,
}

/// The table of a release: the Windows table for Windows saves, the Android
/// table for Android game and options saves.
pub open spec fn release_table(kind: SaveKind, windows: Seq<char>, android: Seq<char>) -> Seq<char> {
    if kind is WindowsGame { windows } else { android }
}

/// Views an optional string as optional text.
pub open spec fn opt_string(o: Option<String>) -> Option<Seq<char>> {
    match o {
        Some(s) => Some(s@),
        None => None,
    }
}

/// Views a list of strings.
pub open spec fn string_views(v: Seq<String>) -> Seq<Seq<char>> {
    v.map_values(|x: String| x@)
}

/// The customizer category keys, in piece order.
pub open spec fn customizer_category_key(c: int) -> Seq<char> {
    if c == 0 { "hathair"@ }
    else if c == 1 { "head"@ }
    else if c == 2 { "weapon"@ }
    else if c == 3 { "arms"@ }
    else if c == 4 { "hands"@ }
    else if c == 5 { "cape"@ }
    else if c == 6 { "body"@ }
    else if c == 7 { "underpants"@ }
    else { "legs"@ }
}

/// The display label of customizer category `c`.
pub open spec fn spec_customizer_category(c: int) -> Seq<char> {
    if c == 0 { "Hat / hair"@ }
    else if c == 1 { "Head"@ }
    else if c == 2 { "Weapon"@ }
    else if c == 3 { "Arms"@ }
    else if c == 4 { "Hands"@ }
    else if c == 5 { "Cape"@ }
    else if c == 6 { "Body"@ }
    else if c == 7 { "Underpants"@ }
    else { "Legs"@ }
}

/// The display label of customizer category `c`.
pub fn customizer_category(c: usize) -> (res: &'static str)
    requires
        c < 9,
    ensures
        res@ == spec_customizer_category(c as int),
{
    if c == 0 { "Hat / hair" }
    else if c == 1 { "Head" }
    else if c == 2 { "Weapon" }
    else if c == 3 { "Arms" }
    else if c == 4 { "Hands" }
    else if c == 5 { "Cape" }
    else if c == 6 { "Body" }
    else if c == 7 { "Underpants" }
    else { "Legs" }
}

fn category_key(c: usize) -> (res: &'static str)
    requires
        c < 9,
    ensures
        res@ == customizer_category_key(c as int),
{
    if c == 0 { "hathair" }
    else if c == 1 { "head" }
    else if c == 2 { "weapon" }
    else if c == 3 { "arms" }
    else if c == 4 { "hands" }
    else if c == 5 { "cape" }
    else if c == 6 { "body" }
    else if c == 7 { "underpants" }
    else { "legs" }
}

/// The rows of the customizer table that belong to a category.
pub open spec fn category_rows(t: Seq<char>, key: Seq<char>) -> Seq<Seq<char>> {
    text_lines(t).filter(|l: Seq<char>| split_on(l, '\t')[0] == key)
}

/// Every customizer row that names a category key has a piece name after it.
pub open spec fn customizer_table_ok(t: Seq<char>) -> bool {
    forall|k: int, c: int|
        0 <= k < text_lines(t).len() && 0 <= c < 9 && #[trigger] split_on(text_lines(t)[k], '\t')[0]
            == #[trigger] customizer_category_key(c) ==> split_on(text_lines(t)[k], '\t').len() >= 2
}

/// A customizer piece: its name and, when recorded, the character it comes from.
#[derive(Clone, Debug, PartialEq, Eq)]
pub struct CustomizerPiece {
    pub name: String,
    pub source_character: Option<String>,
}

/// The piece a row describes.
pub open spec fn row_piece(row: Seq<char>) -> (Seq<char>, Option<Seq<char>>) {
    let fields = split_on(row, '\t');
    (fields[1], if fields.len() > 2 && fields[2].len() > 0 { Some(fields[2]) } else { None })
}

/// Piece `index` of category `category`, when both exist.
pub open spec fn spec_customizer_piece(t: Seq<char>, category: int, index: int) -> Option<(Seq<char>, Option<Seq<char>>)> {
    if category < 0 || category >= 9 || index < 0 {
        None
    } else {
        let rows = category_rows(t, customizer_category_key(category));
        if index < rows.len() { Some(row_piece(rows[index])) } else { None }
    }
}

/// Views a customizer piece.
pub open spec fn piece_view(p: CustomizerPiece) -> (Seq<char>, Option<Seq<char>>) {
    (p.name@, opt_string(p.source_character))
}

impl NameTables {
    /// Tables with no names in them.
    pub fn empty() -> (res: NameTables)
        ensures
            res.windows_shop_characters@.len() == 0,
            res.android_shop_characters@.len() == 0,
            res.windows_characters@.len() == 0,
            res.android_characters@.len() == 0,
            res.customizer_pieces@.len() == 0,
            res.windows_areas@.len() == 0,
            res.android_areas@.len() == 0,
            res.windows_levels@.len() == 0,
            res.android_levels@.len() == 0,
            res.missions@.len() == 0,
    {
        NameTables {
            windows_shop_characters: String::new(),
            android_shop_characters: String::new(),
            windows_characters: String::new(),
            android_characters: String::new(),
            customizer_pieces: String::new(),
            windows_areas: String::new(),
            android_areas: String::new(),
            windows_levels: String::new(),
            android_levels: String::new(),
            missions: String::new(),
        }
    }

    /// The tables are well formed: every customizer row of a category names a piece.
    pub open spec fn spec_valid(&self) -> bool {
        customizer_table_ok(self.customizer_pieces@)
    }

    /// Checks that every customizer row of a category names a piece.
    pub fn is_valid(&self) -> (res: bool)
        ensures
            res == self.spec_valid(),
    {
        let lines = lines_of(self.customizer_pieces.as_str());
        let mut k: usize = 0;
        while k < lines.len()
            invariant
                k <= lines@.len(),
                char_views(lines@) == text_lines(self.customizer_pieces@),
                forall|j: int, c: int|
                    0 <= j < k && 0 <= c < 9 && #[trigger] split_on(text_lines(self.customizer_pieces@)[j], '\t')[0]
                        == #[trigger] customizer_category_key(c) ==> split_on(text_lines(self.customizer_pieces@)[j], '\t').len() >= 2,
            decreases lines@.len() - k,
        {
            let fields = split_chars(lines[k].as_slice(), '\t');
            proof {
                assert(lines@[k as int]@ == text_lines(self.customizer_pieces@)[k as int]);
                lemma_split_on_len(lines@[k as int]@, '\t');
            }
            if fields.len() < 2 {
                let mut c: usize = 0;
                while c < 9
                    invariant
                        c <= 9,
                        k < text_lines(self.customizer_pieces@).len(),
                        fields@.len() == 1,
                        char_views(fields@) == split_on(text_lines(self.customizer_pieces@)[k as int], '\t'),
                        forall|d: int| 0 <= d < c ==> split_on(text_lines(self.customizer_pieces@)[k as int], '\t')[0] != customizer_category_key(d),
                    decreases 9 - c,
                {
                    if crate::text::equals_str(fields[0].as_slice(), category_key(c)) {
                        proof {
                            assert(fields@[0]@ == char_views(fields@)[0]);
                            let line = text_lines(self.customizer_pieces@)[k as int];
                            assert(split_on(line, '\t')[0] == customizer_category_key(c as int));
                            assert(split_on(line, '\t').len() < 2);
                            assert(!customizer_table_ok(self.customizer_pieces@));
                        }
                        return false;
                    }
                    assert(fields@[0]@ == char_views(fields@)[0]);
                    c = c + 1;
                }
            }
            k = k + 1;
        }
        true
    }
}

fn nth_in(text: &String, i: usize) -> (res: Option<String>)
    ensures
        opt_string(res) == nth_line(text@, i as int),
{
    let lines = lines_of(text.as_str());
    if i < lines.len() {
        assert(lines@[i as int]@ == char_views(lines@)[i as int]);
        Some(string_of(lines[i].as_slice()))
    } else {
        None
    }
}

/// The shop-entry names of a release, in purchase-bit order.
pub fn shop_character_names(tables: &NameTables, kind: SaveKind) -> (res: Vec<String>)
    ensures
        string_views(res@) == text_lines(release_table(kind, tables.windows_shop_characters@, tables.android_shop_characters@)),
{
    let text = match kind {
        SaveKind::WindowsGame => &tables.windows_shop_characters,
        _ => &tables.android_shop_characters,
    };
    let lines = lines_of(text.as_str());
    let mut out: Vec<String> = Vec::new();
    let mut k: usize = 0;
    while k < lines.len()
        invariant
            k <= lines@.len(),
            string_views(out@) == char_views(lines@).take(k as int),
        decreases lines@.len() - k,
    {
        let name = string_of(lines[k].as_slice());
        let ghost before = out@;
        out.push(name);
        assert(lines@[k as int]@ == char_views(lines@)[k as int]);
        assert(string_views(out@) =~= string_views(before).push(name@));
        assert(char_views(lines@).take(k + 1) =~= char_views(lines@).take(k as int).push(char_views(lines@)[k as int]));
        k = k + 1;
    }
    assert(char_views(lines@).take(k as int) =~= char_views(lines@));
    out
}

/// The identifier of character `id` in a release.
pub fn character_name(tables: &NameTables, kind: SaveKind, id: usize) -> (res: Option<String>)
    ensures
        opt_string(res) == nth_line(release_table(kind, tables.windows_characters@, tables.android_characters@), id as int),
{
    match kind {
        SaveKind::WindowsGame => nth_in(&tables.windows_characters, id),
        _ => nth_in(&tables.android_characters, id),
    }
}

/// The configured name of area `index` in a release.
pub fn area_name(tables: &NameTables, kind: SaveKind, index: usize) -> (res: Option<String>)
    ensures
        opt_string(res) == nth_line(release_table(kind, tables.windows_areas@, tables.android_areas@), index as int),
{
    match kind {
        SaveKind::WindowsGame => nth_in(&tables.windows_areas, index),
        _ => nth_in(&tables.android_areas, index),
    }
}

/// The configured name of level `index` in a release.
pub fn level_name(tables: &NameTables, kind: SaveKind, index: usize) -> (res: Option<String>)
    ensures
        opt_string(res) == nth_line(release_table(kind, tables.windows_levels@, tables.android_levels@), index as int),
{
    match kind {
        SaveKind::WindowsGame => nth_in(&tables.windows_levels, index),
        _ => nth_in(&tables.android_levels, index),
    }
}

/// The character sought by mission `index`.
pub fn mission_name(tables: &NameTables, index: usize) -> (res: Option<String>)
    ensures
        opt_string(res) == nth_line(tables.missions@, index as int),
{
    nth_in(&tables.missions, index)
}

/// Piece `index` of customizer category `category`.
pub fn customizer_piece(tables: &NameTables, category: usize, index: i16) -> (res: Option<CustomizerPiece>)
    requires
        tables.spec_valid(),
    ensures
        match res {
            Some(p) => spec_customizer_piece(tables.customizer_pieces@, category as int, index as int) == Some(piece_view(p)),
            None => spec_customizer_piece(tables.customizer_pieces@, category as int, index as int) is None,
        },
{
    if category >= 9 || index < 0 {
        return None;
    }
    let key = category_key(category);
    let ghost t = tables.customizer_pieces@;
    let ghost pred = |l: Seq<char>| split_on(l, '\t')[0] == key@;
    let lines = lines_of(tables.customizer_pieces.as_str());
    let target = index as usize;
    let mut seen: usize = 0;
    let mut k: usize = 0;
    while k < lines.len()
        invariant
            k <= lines@.len(),
            char_views(lines@) == text_lines(t),
            t == tables.customizer_pieces@,
            tables.spec_valid(),
            category < 9,
            key@ == customizer_category_key(category as int),
            pred == (|l: Seq<char>| split_on(l, '\t')[0] == key@),
            seen <= target,
            index >= 0,
            target == index as int,
            seen == text_lines(t).take(k as int).filter(pred).len(),
        decreases lines@.len() - k,
    {
        let fields = split_chars(lines[k].as_slice(), '\t');
        let ghost line = text_lines(t)[k as int];
        proof {
            assert(lines@[k as int]@ == line);
            lemma_split_on_len(line, '\t');
            text_lines(t).take(k as int).lemma_filter_push(line, pred);
            assert(text_lines(t).take(k + 1) =~= text_lines(t).take(k as int).push(line));
        }
        assert(fields@[0]@ == char_views(fields@)[0]);
        if crate::text::equals_str(fields[0].as_slice(), key) {
            if seen == target {
                assert(split_on(line, '\t').len() >= 2);
                assert(fields@[1]@ == char_views(fields@)[1]);
                let name = string_of(fields[1].as_slice());
                let source = if fields.len() > 2 && fields[2].len() > 0 {
                    assert(fields@[2]@ == char_views(fields@)[2]);
                    Some(string_of(fields[2].as_slice()))
                } else {
                    None
                };
                proof {
                    let rows = category_rows(t, key@);
                    let f = text_lines(t).take(k as int).filter(pred);
                    assert(text_lines(t).take(k + 1).filter(pred) == f.push(line));
                    lemma_filter_take_prefix(text_lines(t), k + 1, pred);
                    assert(rows == text_lines(t).filter(pred));
                    assert(rows[target as int] == f.push(line)[target as int]);
                    assert(rows[index as int] == line);
                    let fs = split_on(line, '\t');
                    assert(char_views(fields@) == fs);
                    assert(name@ == fs[1]);
                    if fields@.len() > 2 && fields@[2]@.len() > 0 {
                        assert(fs[2] == fields@[2]@);
                    } else {
                        assert(!(fs.len() > 2 && fs[2].len() > 0));
                    }
                }
                return Some(CustomizerPiece { name, source_character: source });
            }
            seen = seen + 1;
        }
        k = k + 1;
    }
    assert(text_lines(t).take(k as int) =~= text_lines(t));
    None
}

} // verus!
