//! Every fixed table of named values can be spelled by the raw listing and
//! read back by an assignment.
use vstd::prelude::*;
use crate::values::{spec_hub_build_values, spec_reward_values, spec_character_values, spec_arcade_values, spec_episode_values, spec_suit_values, spec_store_pack_values, spec_store_bundle_values, spec_touch_values, spec_naming_values, spec_completion_values, spec_switch_values, spec_bit_values, spec_extras_values, spec_enum_values, word_index, spec_bit_names};
use crate::roundtrip::{values_listable, has_char, lemma_decimal_digits, bit_name_listable};
use crate::parse::{all_digits, digit_value};
use crate::names::{spec_extra_name, spec_tutorial_hint_name};
use crate::text::decimal;

verus! {
/// The names of a literal table are distinct, hold no `|` and each has a
/// character that is not a decimal digit at position 0 or 3.
proof fn lemma_literal_table(v: Seq<(Seq<char>, u32)>)
    requires
        forall|i: int, j: int| 0 <= i < v.len() && 0 <= j < v.len() && i != j && #[trigger] v[i].0.len() == #[trigger] v[j].0.len()
            ==> v[i].0[0] != v[j].0[0] || v[i].0[6] != v[j].0[6] || v[i].0[8] != v[j].0[8] || v[i].0[9] != v[j].0[9],
        forall|i: int, k: int| 0 <= i < v.len() && 0 <= k < v[i].0.len() ==> #[trigger] v[i].0[k] != '|',
        forall|i: int| 0 <= i < v.len() ==> digit_value(#[trigger] v[i].0[0]) >= 10 || digit_value(v[i].0[3]) >= 10 && 3 < v[i].0.len(),
        forall|i: int| 0 <= i < v.len() ==> #[trigger] v[i].0.len() > 0,
    ensures
        values_listable(v),
{
    assert forall|i: int| 0 <= i < v.len() implies !all_digits(#[trigger] v[i].0, 10) by {
        if digit_value(v[i].0[0]) < 10 {
            assert(digit_value(v[i].0[3]) >= 10);
        }
    }
    assert forall|i: int| 0 <= i < v.len() implies !has_char(#[trigger] v[i].0, '|') by {
        if has_char(v[i].0, '|') {
            let k = choose|k: int| 0 <= k < v[i].0.len() && v[i].0[k] == '|';
            assert(v[i].0[k] != '|');
        }
    }
    assert forall|i: int, j: int| 0 <= i < v.len() && 0 <= j < v.len() && i != j implies #[trigger] v[i].0 != #[trigger] v[j].0 by {
        if v[i].0 == v[j].0 {
            assert(v[i].0.len() == v[j].0.len());
        }
    }
}

/// Every fixed table of named values can be listed and read back.
proof fn lemma_literal_tables_listable()
    ensures
        values_listable(spec_hub_build_values()),
        values_listable(spec_reward_values()),
        values_listable(spec_character_values()),
        values_listable(spec_arcade_values()),
        values_listable(spec_episode_values()),
        values_listable(spec_suit_values()),
        values_listable(spec_store_pack_values()),
        values_listable(spec_store_bundle_values()),
        values_listable(spec_touch_values()),
        values_listable(spec_naming_values()),
        values_listable(spec_completion_values()),
        values_listable(spec_switch_values()),
{
    reveal_strlit("NONE");
    reveal_strlit("BUILD_0");
    reveal_strlit("BUILD_1");
    reveal_strlit("BUILD_2");
    reveal_strlit("BUILD_3");
    reveal_strlit("BUILD_4");
    reveal_strlit("BUILD_5");
    reveal_strlit("BUILD_6");
    reveal_strlit("LEVEL_BUILD");
    reveal_strlit("100_PERCENT");
    reveal_strlit("ALL_GOLD_BRICKS");
    reveal_strlit("AVAILABLE");
    reveal_strlit("UNLOCKED");
    reveal_strlit("BATTLE");
    reveal_strlit("COLLECT");
    reveal_strlit("HUNT");
    reveal_strlit("SUPERSTORY_COMPLETE");
    reveal_strlit("SHADOW");
    reveal_strlit("GLIDE");
    reveal_strlit("DEMOLITION");
    reveal_strlit("SONAR");
    reveal_strlit("WATER");
    reveal_strlit("TECHNOLOGY");
    reveal_strlit("MAGNET");
    reveal_strlit("ATTRACT");
    reveal_strlit("ALL");
    reveal_strlit("EPISODE_II");
    reveal_strlit("EPISODE_III");
    reveal_strlit("EPISODE_IV");
    reveal_strlit("EPISODE_V");
    reveal_strlit("EPISODE_VI");
    reveal_strlit("ARCADE");
    reveal_strlit("BONUS");
    reveal_strlit("BOUNTY");
    reveal_strlit("CHALLENGE");
    reveal_strlit("JEDI");
    reveal_strlit("SITH");
    reveal_strlit("PREQUEL");
    reveal_strlit("ORIGINAL");
    reveal_strlit("COMPLETE");
    reveal_strlit("VIRTUAL_CONSOLE");
    reveal_strlit("TOUCH");
    reveal_strlit("CHARACTER_DEFAULT");
    reveal_strlit("SAVED_NAME");
    reveal_strlit("INCOMPLETE");
    reveal_strlit("OFF");
    reveal_strlit("ON");
    lemma_literal_table(spec_hub_build_values());
    lemma_literal_table(spec_reward_values());
    lemma_literal_table(spec_character_values());
    lemma_literal_table(spec_arcade_values());
    lemma_literal_table(spec_episode_values());
    lemma_literal_table(spec_suit_values());
    lemma_literal_table(spec_store_pack_values());
    lemma_literal_table(spec_store_bundle_values());
    lemma_literal_table(spec_touch_values());
    lemma_literal_table(spec_naming_values());
    lemma_literal_table(spec_completion_values());
    lemma_literal_table(spec_switch_values());
}


/// `NONE` and the thirty-two `BIT_n` names can be listed and read back.
proof fn lemma_bit_values_listable()
    ensures
        values_listable(spec_bit_values()),
{
    reveal_strlit("NONE");
    reveal_strlit("BIT_");
    let v = spec_bit_values();
    assert forall|i: int| 0 <= i < v.len() implies #[trigger] v[i].0.len() > 0 && digit_value(v[i].0[0]) >= 10
        && (i == 0 <==> v[i].0[0] == 'N') && !has_char(v[i].0, '|') by {
        if i > 0 {
            lemma_decimal_digits((i - 1) as nat);
            let d = decimal((i - 1) as nat);
            assert(v[i].0 == "BIT_"@ + d);
            if has_char(v[i].0, '|') {
                let k = choose|k: int| 0 <= k < v[i].0.len() && v[i].0[k] == '|';
                if k >= 4 {
                    assert(v[i].0[k] == d[k - 4]);
                }
            }
        }
    }
    assert forall|i: int| 0 <= i < v.len() implies !all_digits(#[trigger] v[i].0, 10) by {
        assert(digit_value(v[i].0[0]) >= 10);
    }
    assert forall|i: int, j: int| 0 <= i < v.len() && 0 <= j < v.len() && i != j implies #[trigger] v[i].0 != #[trigger] v[j].0 by {
        if v[i].0 == v[j].0 && i > 0 && j > 0 {
            lemma_decimal_digits((i - 1) as nat);
            lemma_decimal_digits((j - 1) as nat);
            assert(v[i].0.skip(4) =~= decimal((i - 1) as nat));
            assert(v[j].0.skip(4) =~= decimal((j - 1) as nat));
        } else if v[i].0 == v[j].0 {
            assert(v[i].0[0] == v[j].0[0]);
        }
    }
}

/// The names of the extras are distinct, hold no `|`, and start with a lower-case letter.
proof fn lemma_extra_names(a: int, b: int)
    requires
        0 <= a < 44,
        0 <= b < 44,
    ensures
        spec_extra_name(a) is Some,
        spec_extra_name(a).unwrap().len() > 0,
        'a' <= spec_extra_name(a).unwrap()[0] <= 'z',
        !has_char(spec_extra_name(a).unwrap(), '|'),
        a != b ==> spec_extra_name(a).unwrap() != spec_extra_name(b).unwrap(),
{
    reveal_strlit("extratoggle");
    reveal_strlit("poo");
    reveal_strlit("disguises");
    reveal_strlit("daisychains");
    reveal_strlit("c3pobits");
    reveal_strlit("towdeathstar");
    reveal_strlit("silhouettes");
    reveal_strlit("beepbeep");
    reveal_strlit("supergonk");
    reveal_strlit("poomoney");
    reveal_strlit("walkietalkiedisable");
    reveal_strlit("powerbrickdetector");
    reveal_strlit("superslap");
    reveal_strlit("forcezipup");
    reveal_strlit("coinmagnet");
    reveal_strlit("disarmtroopers");
    reveal_strlit("characterstuds");
    reveal_strlit("perfectdeflect");
    reveal_strlit("explodingblasterbolts");
    reveal_strlit("forcepull");
    reveal_strlit("vehiclesmartbomb");
    reveal_strlit("superastromech");
    reveal_strlit("superjedislam");
    reveal_strlit("superthermaldetonator");
    reveal_strlit("deflectbolts");
    reveal_strlit("darkside");
    reveal_strlit("superblasters");
    reveal_strlit("fastforce");
    reveal_strlit("supersabres");
    reveal_strlit("tractorbeam");
    reveal_strlit("invincibility");
    reveal_strlit("scorex2");
    reveal_strlit("selfdestruct");
    reveal_strlit("fastbuild");
    reveal_strlit("scorex4");
    reveal_strlit("regenerate");
    reveal_strlit("minikitdetector");
    reveal_strlit("scorex6");
    reveal_strlit("superzapper");
    reveal_strlit("rockets");
    reveal_strlit("scorex8");
    reveal_strlit("superewokcatapult");
    reveal_strlit("infinitetorpedos");
    reveal_strlit("scorex10");
    let x = spec_extra_name(a).unwrap();
    let y = spec_extra_name(b).unwrap();
    if has_char(x, '|') {
        let k = choose|k: int| 0 <= k < x.len() && x[k] == '|';
        assert(x[k] != '|');
    }
    if a != b && x.len() == y.len() {
        assert(x[0] != y[0] || x[1] != y[1] || x[4] != y[4] || x[5] != y[5] || x[6] != y[6]);
    }
}


/// `NONE` and the extras of any word can be listed and read back.
proof fn lemma_extras_values_listable(word: int)
    requires
        0 <= word,
    ensures
        values_listable(spec_extras_values(word)),
{
    reveal_strlit("NONE");
    let v = spec_extras_values(word);
    let first = word * 32;
    assert(v.len() > 1 ==> first + v.len() - 1 <= 44);
    assert forall|i: int| 0 <= i < v.len() implies #[trigger] v[i].0.len() > 0 && digit_value(v[i].0[0]) >= 10
        && (i == 0 <==> v[i].0[0] == 'N') && !has_char(v[i].0, '|') by {
        if i > 0 {
            lemma_extra_names(first + i - 1, first + i - 1);
        }
    }
    assert forall|i: int| 0 <= i < v.len() implies !all_digits(#[trigger] v[i].0, 10) by {
        assert(v[i].0.len() > 0);
        assert(digit_value(v[i].0[0]) >= 10);
    }
    assert forall|i: int, j: int| 0 <= i < v.len() && 0 <= j < v.len() && i != j implies #[trigger] v[i].0 != #[trigger] v[j].0 by {
        if i > 0 && j > 0 {
            lemma_extra_names(first + i - 1, first + j - 1);
        } else if v[i].0 == v[j].0 {
            assert(v[i].0[0] == v[j].0[0]);
        }
    }
}

/// The named values of every integer property can be listed and read back.
pub proof fn lemma_enum_values_listable(name: Seq<char>)
    ensures
        values_listable(spec_enum_values(name).0),
{
    reveal(spec_enum_values);
    lemma_literal_tables_listable();
    lemma_bit_values_listable();
    lemma_extras_values_listable(word_index(name));
}

/// The tutorial names of a hint bank are distinct, hold no `|`, and start with a letter.
proof fn lemma_hint_names(a: int, b: int)
    requires
        0 <= a < 54,
        0 <= b < 54,
    ensures
        spec_tutorial_hint_name(a) is Some,
        spec_tutorial_hint_name(a).unwrap().len() > 0,
        !has_char(spec_tutorial_hint_name(a).unwrap(), '|'),
        a != b ==> spec_tutorial_hint_name(a).unwrap() != spec_tutorial_hint_name(b).unwrap(),
{
    reveal_strlit("hint_356");
    reveal_strlit("GizForce_601");
    reveal_strlit("Lever_1548");
    reveal_strlit("AutoJump_1568");
    reveal_strlit("AutoJump_1569");
    reveal_strlit("GizBuildIts_604");
    reveal_strlit("Attack_631");
    reveal_strlit("Dodge_613");
    reveal_strlit("Dodge_1501");
    reveal_strlit("ZipUps_610");
    reveal_strlit("Tag_602");
    reveal_strlit("Push_615");
    reveal_strlit("Teleport_616");
    reveal_strlit("GizPanel_617");
    reveal_strlit("GizPanel_618");
    reveal_strlit("Tag_605");
    reveal_strlit("Tag_606");
    reveal_strlit("Tag_611");
    reveal_strlit("Tag_650");
    reveal_strlit("Tag_651");
    reveal_strlit("ShinyMetal_643");
    reveal_strlit("SmartBomb_1505");
    reveal_strlit("GizPanel_607");
    reveal_strlit("GizPanel_608");
    reveal_strlit("GizPanel_609");
    reveal_strlit("Shop_1516");
    reveal_strlit("Shop_1515");
    reveal_strlit("Shop_1514");
    reveal_strlit("DragBomb_1518");
    reveal_strlit("DragBomb_654");
    reveal_strlit("Move_1521");
    reveal_strlit("Move_1523");
    reveal_strlit("Jump_1540");
    reveal_strlit("Move_1522");
    reveal_strlit("Jump_1542");
    reveal_strlit("PlayerButton_1524");
    reveal_strlit("PlayerButton_1525");
    reveal_strlit("Jump_1544");
    reveal_strlit("Jump_1546");
    reveal_strlit("HoldTag_1526");
    reveal_strlit("UnlockHubStuff_1561");
    reveal_strlit("UnlockHubStuff_1562");
    reveal_strlit("UnlockHubStuff_1563");
    reveal_strlit("Tag_649");
    reveal_strlit("VehicleStuff_1559");
    reveal_strlit("ShinyMetal_1565");
    reveal_strlit("ShinyMetal_696");
    reveal_strlit("Teleport_1570");
    reveal_strlit("Sith_1571");
    reveal_strlit("GizPanel_1572");
    reveal_strlit("GizPanel_1573");
    reveal_strlit("HatMachine_1575");
    reveal_strlit("HatMachine_1576");
    reveal_strlit("Jump_1577");
    let x = spec_tutorial_hint_name(a).unwrap();
    let y = spec_tutorial_hint_name(b).unwrap();
    if has_char(x, '|') {
        let k = choose|k: int| 0 <= k < x.len() && x[k] == '|';
        assert(x[k] != '|');
    }
    if a != b && x.len() == y.len() {
        assert(x[0] != y[0] || x[1] != y[1] || x[3] != y[3] || x[5] != y[5] || x[6] != y[6] || x[7] != y[7]
            || x[8] != y[8] || x[10] != y[10] || x[11] != y[11] || x[12] != y[12] || x[14] != y[14] || x[16] != y[16]
            || x[18] != y[18]);
    }
}


/// A prefix followed by a decimal number: it keeps the prefix's first
/// character, holds no `|` when the prefix holds none, and the number can be
/// read back from it.
pub proof fn lemma_numbered_name(p: Seq<char>, n: nat, m: nat)
    requires
        p.len() > 0,
        !has_char(p, '|'),
    ensures
        (p + decimal(n)).len() > p.len(),
        (p + decimal(n))[0] == p[0],
        !has_char(p + decimal(n), '|'),
        p + decimal(n) == p + decimal(m) ==> n == m,
{
    lemma_decimal_digits(n);
    lemma_decimal_digits(m);
    let x = p + decimal(n);
    if has_char(x, '|') {
        let k = choose|k: int| 0 <= k < x.len() && x[k] == '|';
        if k < p.len() {
            assert(x[k] == p[k]);
        } else {
            assert(x[k] == decimal(n)[k - p.len()]);
        }
    }
    if x == p + decimal(m) {
        assert(x.skip(p.len() as int) =~= decimal(n));
        assert((p + decimal(m)).skip(p.len() as int) =~= decimal(m));
    }
}

/// A hint-completion name: a bank's label, a dot and a tutorial's name.
proof fn lemma_hint_label(kind: crate::format::SaveKind, bank: int, k: int, bank2: int, k2: int)
    requires
        0 <= bank < 2,
        0 <= bank2 < 2,
        0 <= k < 54,
        0 <= k2 < 54,
    ensures
        ({
            let x = crate::values::bank_label(kind, bank) + "."@ + spec_tutorial_hint_name(k).unwrap();
            &&& x.len() > 0
            &&& 'a' <= x[0] <= 'z'
            &&& !has_char(x, '|')
            &&& (bank != bank2 || k != k2) ==> x != crate::values::bank_label(kind, bank2) + "."@ + spec_tutorial_hint_name(k2).unwrap()
        }),
{
    reveal_strlit("console");
    reveal_strlit("touch");
    reveal_strlit("bank0");
    reveal_strlit("bank1");
    reveal_strlit(".");
    lemma_hint_names(k, k2);
    lemma_hint_names(k2, k);
    let l = crate::values::bank_label(kind, bank);
    let l2 = crate::values::bank_label(kind, bank2);
    let h = spec_tutorial_hint_name(k).unwrap();
    let h2 = spec_tutorial_hint_name(k2).unwrap();
    let x = l + "."@ + h;
    let y = l2 + "."@ + h2;
    assert(x[0] == l[0]);
    if has_char(x, '|') {
        let i = choose|i: int| 0 <= i < x.len() && x[i] == '|';
        if i < l.len() + 1 {
            assert(x[i] == (l + "."@)[i]);
        } else {
            assert(x[i] == h[i - l.len() - 1]);
        }
    }
    if x == y {
        if bank == bank2 {
            assert(x.skip(l.len() + 1int) =~= h);
            assert(y.skip(l.len() + 1int) =~= h2);
        } else {
            assert(x[0] == y[0]);
            assert(x[4] == l[4]);
            assert(y[4] == l2[4]);
        }
    }
}


/// No extra is named like the adaptive-difficulty bit that follows them on Windows.
proof fn lemma_adaptive_name(a: int)
    requires
        0 <= a < 44,
    ensures
        spec_extra_name(a).unwrap() != "adaptivedifficulty"@,
{
    reveal_strlit("extratoggle");
    reveal_strlit("poo");
    reveal_strlit("disguises");
    reveal_strlit("daisychains");
    reveal_strlit("c3pobits");
    reveal_strlit("towdeathstar");
    reveal_strlit("silhouettes");
    reveal_strlit("beepbeep");
    reveal_strlit("supergonk");
    reveal_strlit("poomoney");
    reveal_strlit("walkietalkiedisable");
    reveal_strlit("powerbrickdetector");
    reveal_strlit("superslap");
    reveal_strlit("forcezipup");
    reveal_strlit("coinmagnet");
    reveal_strlit("disarmtroopers");
    reveal_strlit("characterstuds");
    reveal_strlit("perfectdeflect");
    reveal_strlit("explodingblasterbolts");
    reveal_strlit("forcepull");
    reveal_strlit("vehiclesmartbomb");
    reveal_strlit("superastromech");
    reveal_strlit("superjedislam");
    reveal_strlit("superthermaldetonator");
    reveal_strlit("deflectbolts");
    reveal_strlit("darkside");
    reveal_strlit("superblasters");
    reveal_strlit("fastforce");
    reveal_strlit("supersabres");
    reveal_strlit("tractorbeam");
    reveal_strlit("invincibility");
    reveal_strlit("scorex2");
    reveal_strlit("selfdestruct");
    reveal_strlit("fastbuild");
    reveal_strlit("scorex4");
    reveal_strlit("regenerate");
    reveal_strlit("minikitdetector");
    reveal_strlit("scorex6");
    reveal_strlit("superzapper");
    reveal_strlit("rockets");
    reveal_strlit("scorex8");
    reveal_strlit("superewokcatapult");
    reveal_strlit("infinitetorpedos");
    reveal_strlit("scorex10");
    reveal_strlit("adaptivedifficulty");
    let x = spec_extra_name(a).unwrap();
    let y = "adaptivedifficulty"@;
    if x.len() == y.len() {
        assert(x[0] != y[0]);
    }
}

/// The shape of the name of bit `c` of a wide mask other than the shop-entry mask.
pub proof fn lemma_bit_name_shape(kind: crate::format::SaveKind, field: Seq<char>, size: int, shop: Seq<Seq<char>>, c: int)
    requires
        field != "shop_character_purchased_bits"@,
        4 <= size <= 24,
        size % 4 == 0,
        0 <= c < size * 8,
    ensures
        ({
            let x = crate::values::spec_bit_name(kind, field, size, shop, c);
            &&& x.len() > 0
            &&& !has_char(x, '|')
            &&& x[0] != 'N'
            &&& (x[0] == 'B' <==> x == "BIT_"@ + decimal(c as nat))
            &&& (x[0] == 'G' <==> x == "GOLD_BRICK_"@ + decimal(c as nat))
        }),
{
    reveal(crate::values::spec_bit_name);
    reveal_strlit("BIT_");
    reveal_strlit("GOLD_BRICK_");
    reveal_strlit("adaptivedifficulty");
    reveal_strlit("shop_character_purchased_bits");
    reveal_strlit("extra_unlocked_bits");
    reveal_strlit("extra_purchased_bits");
    reveal_strlit("hint_completion_bits");
    reveal_strlit("shop_gold_brick_purchased_bits");
    let x = crate::values::spec_bit_name(kind, field, size, shop, c);
    let d = "BIT_"@ + decimal(c as nat);
    let g = "GOLD_BRICK_"@ + decimal(c as nat);
    lemma_no_bar_literal("BIT_"@);
    lemma_no_bar_literal("GOLD_BRICK_"@);
    lemma_numbered_name("BIT_"@, c as nat, c as nat);
    lemma_numbered_name("GOLD_BRICK_"@, c as nat, c as nat);
    assert(d[0] == 'B');
    assert(g[0] == 'G');
    if field == "extra_unlocked_bits"@ || field == "extra_purchased_bits"@ {
        if c < 44 {
            lemma_extra_names(c, c);
        } else if kind is WindowsGame && c == 44 {
            let a = "adaptivedifficulty"@;
            if has_char(a, '|') {
                let i = choose|i: int| 0 <= i < a.len() && a[i] == '|';
                assert(a[i] != '|');
            }
        }
    } else if field == "hint_completion_bits"@ {
        let bank_bits = size * 8 / 2;
        assert(bank_bits == size * 4);
        if c % bank_bits < 54 {
            assert(0 <= c / bank_bits < 2) by (nonlinear_arith)
                requires
                    bank_bits == size * 4,
                    4 <= size,
                    0 <= c < size * 8;
            lemma_hint_label(kind, c / bank_bits, c % bank_bits, c / bank_bits, c % bank_bits);
        }
    }
}

/// A literal without `|`.
pub proof fn lemma_no_bar_literal(p: Seq<char>)
    requires
        p == "BIT_"@ || p == "GOLD_BRICK_"@,
    ensures
        !has_char(p, '|'),
{
    reveal_strlit("BIT_");
    reveal_strlit("GOLD_BRICK_");
    if has_char(p, '|') {
        let i = choose|i: int| 0 <= i < p.len() && p[i] == '|';
        assert(p[i] != '|');
    }
}


/// Every bit of a wide mask other than the shop-entry mask has a name that
/// reads back as that bit: the extras, the tutorial hints of each bank and
/// the shop gold bricks are named distinctly, and the other bits as `BIT_n`.
pub proof fn lemma_fixed_bit_names_listable(kind: crate::format::SaveKind, field: Seq<char>, size: int, shop: Seq<Seq<char>>, b: int)
    requires
        field != "shop_character_purchased_bits"@,
        4 <= size <= 24,
        size % 4 == 0,
        0 <= b < size * 8,
    ensures
        bit_name_listable(spec_bit_names(kind, field, size, shop), b),
{
    reveal_strlit("NONE");
    reveal_strlit("BIT_");
    reveal_strlit("GOLD_BRICK_");
    reveal_strlit("extra_unlocked_bits");
    reveal_strlit("extra_purchased_bits");
    reveal_strlit("hint_completion_bits");
    let names = spec_bit_names(kind, field, size, shop);
    let x = names[b];
    lemma_bit_name_shape(kind, field, size, shop, b);
    assert(x == crate::values::spec_bit_name(kind, field, size, shop, b));
    assert(x != "NONE"@) by {
        if x == "NONE"@ {
            assert(x[0] == 'N');
        }
    }
    assert forall|c: int| 0 <= c < b implies !#[trigger] crate::values::names_bit(names, x, c) by {
        lemma_bit_name_shape(kind, field, size, shop, c);
        let y = names[c];
        assert(y == crate::values::spec_bit_name(kind, field, size, shop, c));
        lemma_no_bar_literal("BIT_"@);
        lemma_no_bar_literal("GOLD_BRICK_"@);
        lemma_numbered_name("BIT_"@, b as nat, c as nat);
        lemma_numbered_name("GOLD_BRICK_"@, b as nat, c as nat);
        if x == "BIT_"@ + decimal(c as nat) {
            assert(x[0] == 'B');
        }
        if x == y {
            if x[0] != 'B' && x[0] != 'G' {
                lemma_same_lower_name(kind, field, size, shop, b, c);
            }
        }
    }
}

/// Two bits below each other with the same lower-case name are the same bit.
proof fn lemma_same_lower_name(kind: crate::format::SaveKind, field: Seq<char>, size: int, shop: Seq<Seq<char>>, b: int, c: int)
    requires
        field != "shop_character_purchased_bits"@,
        4 <= size <= 24,
        size % 4 == 0,
        0 <= c < b < size * 8,
        crate::values::spec_bit_name(kind, field, size, shop, b)[0] != 'B',
        crate::values::spec_bit_name(kind, field, size, shop, b)[0] != 'G',
    ensures
        crate::values::spec_bit_name(kind, field, size, shop, b) != crate::values::spec_bit_name(kind, field, size, shop, c),
{
    reveal(crate::values::spec_bit_name);
    reveal_strlit("BIT_");
    reveal_strlit("GOLD_BRICK_");
    reveal_strlit("extra_unlocked_bits");
    reveal_strlit("extra_purchased_bits");
    reveal_strlit("hint_completion_bits");
    reveal_strlit("shop_gold_brick_purchased_bits");
    lemma_bit_name_shape(kind, field, size, shop, b);
    lemma_bit_name_shape(kind, field, size, shop, c);
    let x = crate::values::spec_bit_name(kind, field, size, shop, b);
    let y = crate::values::spec_bit_name(kind, field, size, shop, c);
    if x == y {
        if field == "extra_unlocked_bits"@ || field == "extra_purchased_bits"@ {
            if b < 44 {
                lemma_extra_names(b, c);
            } else {
                lemma_adaptive_name(c);
            }
        } else if field == "hint_completion_bits"@ {
            let bb = size * 8 / 2;
            assert(bb == size * 4);
            assert(0 <= b / bb < 2 && 0 <= c / bb < 2) by (nonlinear_arith)
                requires
                    bb == size * 4,
                    4 <= size,
                    0 <= c < size * 8,
                    0 <= b < size * 8;
            assert(b == (b / bb) * bb + b % bb && c == (c / bb) * bb + c % bb) by (nonlinear_arith)
                requires
                    bb > 0;
            lemma_hint_label(kind, b / bb, b % bb, c / bb, c % bb);
        }
    }
}


/// `BIT_n` names only bit `n`.
pub proof fn lemma_bit_names_differ(n: nat, m: nat)
    ensures
        "BIT_"@ + decimal(n) == "BIT_"@ + decimal(m) ==> n == m,
{
    reveal_strlit("BIT_");
    lemma_no_bar_literal("BIT_"@);
    lemma_numbered_name("BIT_"@, n, m);
}

/// Whether a name selects a table of values that combine as flags.
pub open spec fn flag_named(name: Seq<char>) -> bool {
    ||| crate::text::starts_with(name, "extra_unlocked_bits["@)
    ||| crate::text::starts_with(name, "extra_purchased_bits["@)
    ||| crate::text::starts_with(name, "shop_hint_purchased_bits["@)
    ||| crate::text::starts_with(name, "shop_character_purchased_bits["@)
    ||| crate::text::starts_with(name, "hint_completion_bits["@)
    ||| name == "shop_gold_brick_purchased_bits"@
    ||| name == "hub_build_flags"@
    ||| name == "reward_flags"@
    ||| crate::text::starts_with(name, "character_save["@)
    ||| crate::text::contains_seq(name, ".arcade_flags"@)
    ||| crate::text::starts_with(name, "episode_save["@)
    ||| name == "suit_flags"@
    ||| name == "options.store_pack_flags"@
    ||| name == "options.store_bundle_flags"@
}

/// A name that selects no flag table has no named flags.
pub proof fn lemma_not_flag_named(name: Seq<char>)
    requires
        !flag_named(name),
    ensures
        !(spec_enum_values(name).1 && spec_enum_values(name).0.len() > 0),
{
    reveal(spec_enum_values);
}

/// Whether `s` holds `.` followed by `a` at `i`.
pub open spec fn dot_a_at(s: Seq<char>, i: int) -> bool {
    s[i] == '.' && s[i + 1] == 'a'
}

/// A text in which no `.` is followed by `a` does not hold `.arcade_flags`.
proof fn lemma_no_arcade(s: Seq<char>)
    requires
        forall|i: int| 0 <= i < s.len() - 1 ==> !#[trigger] dot_a_at(s, i),
    ensures
        !crate::text::contains_seq(s, ".arcade_flags"@),
{
    reveal_strlit(".arcade_flags");
    if crate::text::contains_seq(s, ".arcade_flags"@) {
        let p = ".arcade_flags"@;
        let i = choose|i: int| 0 <= i && i + p.len() <= s.len() && #[trigger] s.subrange(i, i + p.len()) == p;
        assert(s.subrange(i, i + p.len())[0] == s[i]);
        assert(s.subrange(i, i + p.len())[1] == s[i + 1]);
        assert(dot_a_at(s, i));
    }
}

/// A name whose first character starts none of the flag tables' names, and
/// in which no `.` is followed by `a`, selects no flag table.
proof fn lemma_flag_free_by_start(name: Seq<char>)
    requires
        name.len() > 0,
        name[0] != 'e' && name[0] != 's' && name[0] != 'h' && name[0] != 'c' && name[0] != 'r' && name[0] != 'o',
        forall|i: int| 0 <= i < name.len() - 1 ==> !#[trigger] dot_a_at(name, i),
    ensures
        !flag_named(name),
{
    reveal_strlit("extra_unlocked_bits[");
    reveal_strlit("extra_purchased_bits[");
    reveal_strlit("shop_hint_purchased_bits[");
    reveal_strlit("shop_character_purchased_bits[");
    reveal_strlit("hint_completion_bits[");
    reveal_strlit("shop_gold_brick_purchased_bits");
    reveal_strlit("hub_build_flags");
    reveal_strlit("reward_flags");
    reveal_strlit("character_save[");
    reveal_strlit("episode_save[");
    reveal_strlit("suit_flags");
    reveal_strlit("options.store_pack_flags");
    reveal_strlit("options.store_bundle_flags");
    lemma_no_arcade(name);
    let n0 = name[0];
    assert forall|p: Seq<char>| p.len() > 0 && p[0] != n0 implies !crate::text::starts_with(name, p) by {
        if crate::text::starts_with(name, p) {
            assert(name.subrange(0, p.len() as int)[0] == name[0]);
        }
    }
    assert forall|p: Seq<char>| p.len() > 0 && p[0] != n0 implies name != p by {
        if name == p {
            assert(name[0] == p[0]);
        }
    }
}

/// The long byte arrays of the schema select no flag table.
pub proof fn lemma_long_fields_flag_free(name: Seq<char>)
    requires
        name == "header.field6_0x18"@ || name == "header.field8_0x2a"@ || name == "header.field10_0x82a"@ || name == "header.field12_0x102a"@ || name == "header.field14_0x182a"@ || name == "extra_prefix"@ || name == "customizer.primary_name"@ || name == "customizer.secondary_name"@,
    ensures
        !flag_named(name),
{
    reveal_strlit("header.field6_0x18");
    reveal_strlit("header.field8_0x2a");
    reveal_strlit("header.field10_0x82a");
    reveal_strlit("header.field12_0x102a");
    reveal_strlit("header.field14_0x182a");
    reveal_strlit("extra_prefix");
    reveal_strlit("customizer.primary_name");
    reveal_strlit("customizer.secondary_name");
    reveal_strlit("extra_unlocked_bits[");
    reveal_strlit("extra_purchased_bits[");
    reveal_strlit("shop_hint_purchased_bits[");
    reveal_strlit("shop_character_purchased_bits[");
    reveal_strlit("hint_completion_bits[");
    reveal_strlit("shop_gold_brick_purchased_bits");
    reveal_strlit("hub_build_flags");
    reveal_strlit("reward_flags");
    reveal_strlit("character_save[");
    reveal_strlit("episode_save[");
    reveal_strlit("suit_flags");
    reveal_strlit("options.store_pack_flags");
    reveal_strlit("options.store_bundle_flags");
    reveal_strlit(".arcade_flags");
    assert forall|p: Seq<char>| p.len() > 7 && #[trigger] crate::text::starts_with(name, p)
        implies name[0] == p[0] && name[1] == p[1] && name[6] == p[6] && name[7] == p[7] by {
        let q = name.subrange(0, p.len() as int);
        assert(q[0] == name[0] && q[1] == name[1] && q[6] == name[6] && q[7] == name[7]);
    }
    assert forall|i: int| 0 <= i < name.len() - 1 implies !#[trigger] dot_a_at(name, i) by {}
    lemma_no_arcade(name);
    assert(!crate::text::starts_with(name, "extra_unlocked_bits["@));
    assert(!crate::text::starts_with(name, "extra_purchased_bits["@));
    assert(!crate::text::starts_with(name, "shop_hint_purchased_bits["@));
    assert(!crate::text::starts_with(name, "shop_character_purchased_bits["@));
    assert(!crate::text::starts_with(name, "hint_completion_bits["@));
    assert(!crate::text::starts_with(name, "character_save["@));
    assert(!crate::text::starts_with(name, "episode_save["@));
    assert(name != "shop_gold_brick_purchased_bits"@);
    assert(name != "hub_build_flags"@);
    assert(name != "reward_flags"@);
    assert(name != "suit_flags"@);
    assert(name != "options.store_pack_flags"@);
    assert(name != "options.store_bundle_flags"@);
    assert(!crate::text::contains_seq(name, ".arcade_flags"@));
}

/// The names of a level's minikit slots select no flag table.
pub proof fn lemma_minikit_names_flag_free(i: nat, j: nat)
    ensures
        !flag_named("level_save["@ + decimal(i) + "]."@ + "minikit_names["@ + decimal(j) + "]"@),
{
    reveal_strlit("level_save[");
    reveal_strlit("].");
    reveal_strlit("minikit_names[");
    reveal_strlit("]");
    lemma_decimal_digits(i);
    lemma_decimal_digits(j);
    let a = "level_save["@;
    let d1 = decimal(i);
    let b = "]."@;
    let c = "minikit_names["@;
    let d2 = decimal(j);
    let e = "]"@;
    let s = a + d1 + b + c + d2 + e;
    let o1 = a.len() as int;
    let o2 = o1 + d1.len();
    let o3 = o2 + 2;
    let o4 = o3 + c.len();
    let o5 = o4 + d2.len();
    assert forall|t: int| 0 <= t < s.len() - 1 implies !#[trigger] dot_a_at(s, t) by {
        if t < o1 {
            assert(s[t] == a[t]);
        } else if t < o2 {
            assert(s[t] == d1[t - o1]);
            assert(digit_value(d1[t - o1]) < 10);
        } else if t == o2 {
            assert(s[t] == ']');
        } else if t == o2 + 1 {
            assert(s[t + 1] == c[0]);
        } else if t < o4 {
            assert(s[t] == c[t - o3]);
        } else if t < o5 {
            assert(s[t] == d2[t - o4]);
            assert(digit_value(d2[t - o4]) < 10);
        } else {
            assert(s[t] == ']');
        }
    }
    assert(s[0] == 'l');
    lemma_flag_free_by_start(s);
}

/// A release's shop-entry names read back as mask bits: they are distinct,
/// none is `NONE`, holds `|` or is written like `BIT_n`.
pub open spec fn shop_names_read_back(shop: Seq<Seq<char>>) -> bool {
    &&& forall|i: int, j: int| 0 <= i < shop.len() && 0 <= j < shop.len() && i != j ==> #[trigger] shop[i] != #[trigger] shop[j]
    &&& forall|i: int| 0 <= i < shop.len() ==> !has_char(#[trigger] shop[i], '|') && shop[i] != "NONE"@
    &&& forall|i: int, n: nat| 0 <= i < shop.len() ==> #[trigger] shop[i] != #[trigger] ("BIT_"@ + decimal(n))
}

/// Shop-entry names that read back make every bit of the shop-entry mask
/// read back as that bit.
pub proof fn lemma_shop_bits_read_back(kind: crate::format::SaveKind, size: int, shop: Seq<Seq<char>>, b: int)
    requires
        shop_names_read_back(shop),
        0 <= b < size * 8,
    ensures
        bit_name_listable(spec_bit_names(kind, "shop_character_purchased_bits"@, size, shop), b),
{
    reveal(crate::values::spec_bit_name);
    reveal_strlit("BIT_");
    reveal_strlit("NONE");
    let names = spec_bit_names(kind, "shop_character_purchased_bits"@, size, shop);
    let x = names[b];
    lemma_no_bar_literal("BIT_"@);
    lemma_numbered_name("BIT_"@, b as nat, b as nat);
    if b >= shop.len() {
        assert(x == "BIT_"@ + decimal(b as nat));
        assert(x != "NONE"@) by {
            if x == "NONE"@ {
                assert(x[0] == 'B');
            }
        }
    } else {
        assert(x == shop[b]);
    }
    assert forall|c: int| 0 <= c < b implies !#[trigger] crate::values::names_bit(names, x, c) by {
        let y = names[c];
        lemma_bit_names_differ(b as nat, c as nat);
        if b < shop.len() {
            assert(shop[b] != "BIT_"@ + decimal(c as nat));
            if c < shop.len() {
                assert(y == shop[c]);
            } else {
                assert(y == "BIT_"@ + decimal(c as nat));
            }
        } else {
            if c < shop.len() {
                assert(y == shop[c]);
                assert(shop[c] != "BIT_"@ + decimal(b as nat));
            } else {
                assert(y == "BIT_"@ + decimal(c as nat));
            }
        }
    }
}
}

