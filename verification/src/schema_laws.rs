//! Laws of the property schema: every property of a save has a name of its
//! own, lies inside the save, and reads back through the raw listing.
use vstd::prelude::*;
use crate::schema::{Kind, PropView, fits};
use crate::text::decimal;
use crate::roundtrip::{has_char, lemma_decimal_digits};
use crate::parse::{digit_value, digits_value};

verus! {

/// No two properties share a name.
pub open spec fn distinct_names(s: Seq<PropView>) -> bool {
    forall|i: int, j: int| 0 <= i < s.len() && 0 <= j < s.len() && i != j ==> #[trigger] s[i].0 != #[trigger] s[j].0
}

/// No property of `a` shares a name with a property of `b`.
pub open spec fn names_apart(a: Seq<PropView>, b: Seq<PropView>) -> bool {
    forall|i: int, j: int| 0 <= i < a.len() && 0 <= j < b.len() ==> #[trigger] a[i].0 != #[trigger] b[j].0
}

proof fn lemma_concat_distinct(a: Seq<PropView>, b: Seq<PropView>)
    requires
        distinct_names(a),
        distinct_names(b),
        names_apart(a, b),
    ensures
        distinct_names(a + b),
{
    let s = a + b;
    assert forall|i: int, j: int| 0 <= i < s.len() && 0 <= j < s.len() && i != j implies #[trigger] s[i].0 != #[trigger] s[j].0 by {
        if i < a.len() && j < a.len() {
            assert(s[i] == a[i] && s[j] == a[j]);
        } else if i >= a.len() && j >= a.len() {
            assert(s[i] == b[i - a.len()] && s[j] == b[j - a.len()]);
        } else if i < a.len() {
            assert(s[i] == a[i] && s[j] == b[j - a.len()]);
        } else {
            assert(s[j] == a[j] && s[i] == b[i - a.len()]);
        }
    }
}

/// With names of their own, each property is the first of its name.
pub proof fn lemma_first_of_name(s: Seq<PropView>, k: int)
    requires
        distinct_names(s),
        0 <= k < s.len(),
    ensures
        crate::assign::find_field(s, s[k].0) == Some(k),
{
    let name = s[k].0;
    assert(s[k].0 == name);
    let c = choose|c: int| 0 <= c < s.len() && s[c].0 == name && forall|j: int| 0 <= j < c ==> #[trigger] s[j].0 != name;
    assert(exists|c: int| 0 <= c < s.len() && s[c].0 == name && forall|j: int| 0 <= j < c ==> #[trigger] s[j].0 != name) by {
        assert forall|j: int| 0 <= j < k implies #[trigger] s[j].0 != name by {
            assert(s[j].0 != s[k].0);
        }
    }
    if c != k {
        assert(s[c].0 != s[k].0);
    }
}

/// A decimal rendering holds only digits, and two renderings agree only for one number.
pub proof fn lemma_decimal_facts(n: nat, m: nat)
    ensures
        decimal(n).len() > 0,
        forall|i: int| 0 <= i < decimal(n).len() ==> digit_value(#[trigger] decimal(n)[i]) < 10,
        decimal(n) == decimal(m) ==> n == m,
{
    lemma_decimal_digits(n);
    lemma_decimal_digits(m);
}

/// A prefix, a decimal number and a rest that starts with `]`: two such
/// texts agree only with the same number and the same rest.
pub proof fn lemma_indexed_eq(p: Seq<char>, n1: nat, s1: Seq<char>, n2: nat, s2: Seq<char>)
    requires
        s1.len() > 0 && s1[0] == ']',
        s2.len() > 0 && s2[0] == ']',
        p + decimal(n1) + s1 == p + decimal(n2) + s2,
    ensures
        n1 == n2,
        s1 == s2,
{
    lemma_decimal_facts(n1, n2);
    lemma_decimal_facts(n2, n1);
    let d1 = decimal(n1);
    let d2 = decimal(n2);
    let x = p + d1 + s1;
    let y = p + d2 + s2;
    let o = p.len() as int;
    if d1.len() < d2.len() {
        assert(x[o + d1.len()] == s1[0]);
        assert(y[o + d1.len()] == d2[d1.len() as int]);
        assert(digit_value(d2[d1.len() as int]) < 10);
    } else if d2.len() < d1.len() {
        assert(y[o + d2.len()] == s2[0]);
        assert(x[o + d2.len()] == d1[d2.len() as int]);
        assert(digit_value(d1[d2.len() as int]) < 10);
    } else {
        assert(d1 =~= x.subrange(o, o + d1.len()));
        assert(d2 =~= y.subrange(o, o + d2.len()));
        assert(s1 =~= x.skip(o + d1.len()));
        assert(s2 =~= y.skip(o + d2.len()));
    }
}

/// A name starting with one prefix differs from a name starting with a
/// prefix that differs from it at position `t`.
pub proof fn lemma_heads_apart(n: Seq<char>, m: Seq<char>, p: Seq<char>, q: Seq<char>, t: int)
    requires
        crate::text::starts_with(n, p),
        crate::text::starts_with(m, q),
        0 <= t < p.len(),
        t < q.len(),
        p[t] != q[t],
    ensures
        n != m,
{
    assert(n.subrange(0, p.len() as int)[t] == n[t]);
    assert(m.subrange(0, q.len() as int)[t] == m[t]);
}

/// A name without `[` differs from a name starting with a prefix that holds one.
pub proof fn lemma_plain_apart(n: Seq<char>, m: Seq<char>, q: Seq<char>, t: int)
    requires
        !has_char(n, '['),
        crate::text::starts_with(m, q),
        0 <= t < q.len(),
        q[t] == '[',
    ensures
        n != m,
{
    assert(m.subrange(0, q.len() as int)[t] == m[t]);
    if n == m {
        assert(n[t] == '[');
    }
}


/// The groups of `n` properties each, flattened: element `k` is element
/// `k % n` of group `k / n`.
pub proof fn lemma_flatten_uniform(g: Seq<Seq<PropView>>, n: int)
    requires
        n > 0,
        forall|i: int| 0 <= i < g.len() ==> #[trigger] g[i].len() == n,
    ensures
        g.flatten().len() == g.len() * n,
        forall|k: int| 0 <= k < g.len() * n ==> #[trigger] g.flatten()[k] == g[k / n][k % n],
    decreases g.len(),
{
    g.lemma_flatten_and_flatten_alt_are_equivalent();
    if g.len() == 0 {
    } else {
        let h = g.drop_last();
        assert forall|i: int| 0 <= i < h.len() implies #[trigger] h[i].len() == n by {
            assert(h[i] == g[i]);
        }
        lemma_flatten_uniform(h, n);
        h.lemma_flatten_and_flatten_alt_are_equivalent();
        assert(g.flatten_alt() == h.flatten_alt() + g.last());
        let m = h.len();
        assert(g.len() * n == m * n + n) by (nonlinear_arith)
            requires g.len() == m + 1;
        assert forall|k: int| 0 <= k < g.len() * n implies #[trigger] g.flatten()[k] == g[k / n][k % n] by {
            if k < m * n {
                assert(g.flatten()[k] == h.flatten()[k]);
                assert(0 <= k / n < m) by (nonlinear_arith)
                    requires 0 <= k < m * n, n > 0;
                assert(h[k / n] == g[k / n]);
            } else {
                assert(g.flatten()[k] == g.last()[k - m * n]);
                assert(k / n == m && k % n == k - m * n) by (nonlinear_arith)
                    requires m * n <= k < m * n + n, n > 0;
            }
        }
    }
}

/// What follows `level_save[i].` in the name of member `m` of a level record.
pub open spec fn level_tail(m: int) -> Seq<char> {
    if m < 10 {
        "minikit_names["@ + decimal(m as nat) + "]"@
    } else if m == 10 {
        "minikit_count"@
    } else if m == 11 {
        "reserved_0x51"@
    } else {
        "arcade_flags"@
    }
}

/// A text made of `a` then `b` then `c` is `a` followed by `b` and `c` joined.
proof fn lemma_assoc3(a: Seq<char>, b: Seq<char>, c: Seq<char>)
    ensures
        a + b + c == a + (b + c),
{
    assert(a + b + c =~= a + (b + c));
}

/// Distinct members of a level record have distinct tails.
proof fn lemma_level_tails(m1: int, m2: int)
    requires
        0 <= m1 < 13,
        0 <= m2 < 13,
        m1 != m2,
    ensures
        level_tail(m1) != level_tail(m2),
{
    reveal_strlit("minikit_names[");
    reveal_strlit("]");
    reveal_strlit("minikit_count");
    reveal_strlit("reserved_0x51");
    reveal_strlit("arcade_flags");
    if m1 < 10 && m2 < 10 {
        if level_tail(m1) == level_tail(m2) {
            lemma_indexed_eq("minikit_names["@, m1 as nat, "]"@, m2 as nat, "]"@);
        }
    } else if m1 < 10 || m2 < 10 {
        let k = if m1 < 10 { m1 } else { m2 };
        let x = "minikit_names["@ + decimal(k as nat) + "]"@;
        assert(x[0] == 'm' && x[8] == 'n');
        if level_tail(m1) == level_tail(m2) {
            assert(level_tail(m1)[0] == level_tail(m2)[0]);
            assert(level_tail(m1)[8] == level_tail(m2)[8]);
        }
    } else {
        if level_tail(m1) == level_tail(m2) {
            assert(level_tail(m1)[0] == level_tail(m2)[0]);
            assert(level_tail(m1).len() == level_tail(m2).len());
        }
    }
}

/// The facts about member `m` of level record `i`.
proof fn lemma_level_member(base: int, len: int, i: int, m: int)
    requires
        0 <= i < 366,
        0 <= m < 13,
        0 <= base,
        base + 0x7829 <= len,
    ensures
        crate::schema::level_group(base, i).len() == 13,
        crate::schema::level_group(base, i)[m].0 == "level_save["@ + decimal(i as nat) + ("]."@ + level_tail(m)),
        fits(crate::schema::level_group(base, i)[m], len),
        crate::text::starts_with(crate::schema::level_group(base, i)[m].0, "level_save["@),
        !has_char(crate::schema::level_group(base, i)[m].0, '='),
        crate::assign::alias(crate::schema::level_group(base, i)[m].0) == crate::schema::level_group(base, i)[m].0,
{
    let g = crate::schema::level_group(base, i);
    let name = g[m].0;
    lemma_assoc3("level_save["@ + decimal(i as nat), "]."@, level_tail(m));
    assert(crate::schema::level_prefix(i) == "level_save["@ + decimal(i as nat) + "]."@);
    if m < 10 {
        assert(g[m] == crate::schema::minikit_name_prop(base, i, m));
        crate::tables::lemma_minikit_names_flag_free(i as nat, m as nat);
        crate::tables::lemma_not_flag_named(name);
        assert(name =~= "level_save["@ + decimal(i as nat) + "]."@ + "minikit_names["@ + decimal(m as nat) + "]"@);
    }
    reveal_strlit("level_save[");
    reveal_strlit("].");
    reveal_strlit("minikit_names[");
    reveal_strlit("]");
    reveal_strlit("minikit_count");
    reveal_strlit("reserved_0x51");
    reveal_strlit("arcade_flags");
    let p = "level_save["@;
    assert(name.subrange(0, p.len() as int) =~= p);
    assert(name[10] == p[10]);
    lemma_alias_bracket(name, 10);
    lemma_decimal_facts(i as nat, i as nat);
    lemma_decimal_facts(m as nat, m as nat);
    let d = decimal(i as nat);
    let t = "]."@ + level_tail(m);
    assert(!has_char(name, '=')) by {
        if has_char(name, '=') {
            let j = choose|j: int| 0 <= j < name.len() && name[j] == '=';
            if j < p.len() {
                assert(name[j] == p[j]);
            } else if j < p.len() + d.len() {
                assert(name[j] == d[j - p.len()]);
            } else {
                assert(name[j] == t[j - p.len() - d.len()]);
                if m < 10 {
                    let e = decimal(m as nat);
                    let u = j - p.len() - d.len() - 2;
                    assert(t[j - p.len() - d.len()] == level_tail(m)[u] || j - p.len() - d.len() < 2);
                    if 14 <= u < 14 + e.len() {
                        assert(level_tail(m)[u] == e[u - 14]);
                    }
                }
            }
        }
    }
}

/// Flattened groups whose members are named by a prefix, the group's number
/// and a tail starting with `]` that tells the members apart have names of
/// their own, all starting with the prefix.
proof fn lemma_family_distinct(g: Seq<Seq<PropView>>, n: int, p: Seq<char>, tail: spec_fn(int) -> Seq<char>)
    requires
        n > 0,
        forall|i: int| 0 <= i < g.len() ==> #[trigger] g[i].len() == n,
        forall|i: int, m: int| 0 <= i < g.len() && 0 <= m < n ==> #[trigger] g[i][m].0 == p + decimal(i as nat) + tail(m),
        forall|m: int| 0 <= m < n ==> #[trigger] tail(m).len() > 0 && tail(m)[0] == ']',
        forall|m1: int, m2: int| 0 <= m1 < n && 0 <= m2 < n && m1 != m2 ==> #[trigger] tail(m1) != #[trigger] tail(m2),
    ensures
        distinct_names(g.flatten()),
        forall|k: int| 0 <= k < g.flatten().len() ==> crate::text::starts_with(#[trigger] g.flatten()[k].0, p),
{
    lemma_flatten_uniform(g, n);
    let f = g.flatten();
    assert forall|k1: int, k2: int| 0 <= k1 < f.len() && 0 <= k2 < f.len() && k1 != k2 implies #[trigger] f[k1].0 != #[trigger] f[k2].0 by {
        let i1 = k1 / n;
        let m1 = k1 % n;
        let i2 = k2 / n;
        let m2 = k2 % n;
        assert(0 <= i1 < g.len() && 0 <= m1 < n && k1 == i1 * n + m1) by (nonlinear_arith)
            requires 0 <= k1 < g.len() * n, n > 0, i1 == k1 / n, m1 == k1 % n;
        assert(0 <= i2 < g.len() && 0 <= m2 < n && k2 == i2 * n + m2) by (nonlinear_arith)
            requires 0 <= k2 < g.len() * n, n > 0, i2 == k2 / n, m2 == k2 % n;
        assert(f[k1] == g[i1][m1]);
        assert(f[k2] == g[i2][m2]);
        assert(g[i1][m1].0 == p + decimal(i1 as nat) + tail(m1));
        assert(g[i2][m2].0 == p + decimal(i2 as nat) + tail(m2));
        if f[k1].0 == f[k2].0 {
            assert(tail(m1).len() > 0 && tail(m1)[0] == ']');
            assert(tail(m2).len() > 0 && tail(m2)[0] == ']');
            lemma_indexed_eq(p, i1 as nat, tail(m1), i2 as nat, tail(m2));
            if m1 != m2 {
                assert(tail(m1) != tail(m2));
            }
        }
    }
    assert forall|k: int| 0 <= k < f.len() implies crate::text::starts_with(#[trigger] f[k].0, p) by {
        let i = k / n;
        let m = k % n;
        assert(0 <= i < g.len() && 0 <= m < n) by (nonlinear_arith)
            requires 0 <= k < g.len() * n, n > 0, i == k / n, m == k % n;
        assert(f[k] == g[i][m]);
        assert(g[i][m].0 == p + decimal(i as nat) + tail(m));
        assert((p + decimal(i as nat) + tail(m)).subrange(0, p.len() as int) =~= p);
    }
}

/// Properties named by a prefix, their number and `]` have names of their
/// own, all starting with the prefix.
proof fn lemma_indexed_distinct(s: Seq<PropView>, p: Seq<char>)
    requires
        forall|i: int| 0 <= i < s.len() ==> #[trigger] s[i].0 == p + decimal(i as nat) + "]"@,
    ensures
        distinct_names(s),
        forall|k: int| 0 <= k < s.len() ==> crate::text::starts_with(#[trigger] s[k].0, p),
{
    reveal_strlit("]");
    assert forall|k1: int, k2: int| 0 <= k1 < s.len() && 0 <= k2 < s.len() && k1 != k2 implies #[trigger] s[k1].0 != #[trigger] s[k2].0 by {
        assert(s[k1].0 == p + decimal(k1 as nat) + "]"@);
        assert(s[k2].0 == p + decimal(k2 as nat) + "]"@);
        if s[k1].0 == s[k2].0 {
            lemma_indexed_eq(p, k1 as nat, "]"@, k2 as nat, "]"@);
        }
    }
    assert forall|k: int| 0 <= k < s.len() implies crate::text::starts_with(#[trigger] s[k].0, p) by {
        assert(s[k].0 == p + decimal(k as nat) + "]"@);
        assert((p + decimal(k as nat) + "]"@).subrange(0, p.len() as int) =~= p);
    }
}

/// Names, the save's bounds and the `=` sign: what every property must meet.
#[verifier::opaque]
pub open spec fn prop_ok(p: PropView, len: int) -> bool {
    fits(p, len) && !has_char(p.0, '=') && crate::assign::alias(p.0) == p.0
}

/// A name holding `[` is no older name of a property.
proof fn lemma_alias_bracket(n: Seq<char>, i: int)
    requires
        0 <= i < n.len(),
        n[i] == '[',
    ensures
        crate::assign::alias(n) == n,
{
    reveal_strlit("save_version");
    reveal_strlit("field30_0x7c2c");
    reveal_strlit("field30_0x7c20");
    reveal_strlit("initial_store_pack_flags");
    reveal_strlit("field_0x7bf8");
    reveal_strlit("customizer.primary_name_unlocked");
    reveal_strlit("customizer.secondary_name_unlocked");
    assert forall|q: Seq<char>| #![auto] !has_char(q, '[') implies n != q by {
        if n == q {
            assert(q[i] == '[');
        }
    }
    assert forall|q: Seq<char>| q == "save_version"@ || q == "field30_0x7c2c"@ || q == "field30_0x7c20"@ || q == "initial_store_pack_flags"@
        || q == "field_0x7bf8"@ || q == "customizer.primary_name_unlocked"@ || q == "customizer.secondary_name_unlocked"@
        implies !has_char(q, '[') by {
        if has_char(q, '[') {
            let j = choose|j: int| 0 <= j < q.len() && q[j] == '[';
            assert(q[j] != '[');
        }
    }
}

/// The level records: names of their own starting with `level_save[`,
/// inside the save, without `=`.
proof fn lemma_levels(base: int, len: int)
    requires
        0 <= base,
        base + 0x7829 <= len,
    ensures
        ({
            let l = Seq::new(366, |i: int| crate::schema::level_group(base, i)).flatten();
            &&& distinct_names(l)
            &&& forall|k: int| 0 <= k < l.len() ==> crate::text::starts_with(#[trigger] l[k].0, "level_save["@)
            &&& forall|k: int| 0 <= k < l.len() ==> #[trigger] prop_ok(l[k], len)
        }),
{
    let g = Seq::new(366, |i: int| crate::schema::level_group(base, i));
    let tail = |m: int| "]."@ + level_tail(m);
    reveal_strlit("].");
    assert forall|i: int| 0 <= i < g.len() implies #[trigger] g[i].len() == 13 by {
        lemma_level_member(base, len, i, 0);
    }
    assert forall|i: int, m: int| 0 <= i < g.len() && 0 <= m < 13 implies #[trigger] g[i][m].0 == "level_save["@ + decimal(i as nat) + tail(m) by {
        lemma_level_member(base, len, i, m);
    }
    assert forall|m1: int, m2: int| 0 <= m1 < 13 && 0 <= m2 < 13 && m1 != m2 implies #[trigger] tail(m1) != #[trigger] tail(m2) by {
        lemma_level_tails(m1, m2);
        if tail(m1) == tail(m2) {
            assert(tail(m1).skip(2) =~= level_tail(m1));
            assert(tail(m2).skip(2) =~= level_tail(m2));
        }
    }
    lemma_family_distinct(g, 13, "level_save["@, tail);
    lemma_flatten_uniform(g, 13);
    let l = g.flatten();
    assert forall|k: int| 0 <= k < l.len() implies #[trigger] prop_ok(l[k], len) by {
        let i = k / 13;
        let m = k % 13;
        assert(0 <= i < 366 && 0 <= m < 13);
        lemma_level_member(base, len, i, m);
        reveal(prop_ok);
    }
}

/// What follows the record number in the name of member `m` of a area_save[ record.
pub open spec fn area_tail(m: int) -> Seq<char> {
    if m == 0 {
        "complete"@
    } else if m == 1 {
        "area_complete"@
    } else if m == 2 {
        "story_buildup_complete"@
    } else if m == 3 {
        "freeplay_buildup_complete"@
    } else if m == 4 {
        "minikit_complete"@
    } else if m == 5 {
        "minikit_count"@
    } else if m == 6 {
        "red_brick_collected"@
    } else if m == 7 {
        "reserved_0x7"@
    } else {
        "challenge_trial_time"@
    }
}

proof fn lemma_area_member(base: int, len: int, i: int, m: int)
    requires
        0 <= i < 72,
        0 <= m < 9,
        0 <= base,
        base + 0x7c20 <= len,
    ensures
        crate::schema::area_group(base, i).len() == 9,
        crate::schema::area_group(base, i)[m].0 == "area_save["@ + decimal(i as nat) + ("]."@ + area_tail(m)),
        prop_ok(crate::schema::area_group(base, i)[m], len),
{
    let name = crate::schema::area_group(base, i)[m].0;
    lemma_assoc3("area_save["@ + decimal(i as nat), "]."@, area_tail(m));
    assert(crate::schema::area_prefix(i) == "area_save["@ + decimal(i as nat) + "]."@);
    reveal_strlit("area_save[");
    reveal_strlit("].");
    reveal_strlit("complete");
    reveal_strlit("area_complete");
    reveal_strlit("story_buildup_complete");
    reveal_strlit("freeplay_buildup_complete");
    reveal_strlit("minikit_complete");
    reveal_strlit("minikit_count");
    reveal_strlit("red_brick_collected");
    reveal_strlit("reserved_0x7");
    reveal_strlit("challenge_trial_time");
    lemma_decimal_facts(i as nat, i as nat);
    let p = "area_save["@;
    let d = decimal(i as nat);
    reveal(prop_ok);
    assert(name[9] == p[9]);
    lemma_alias_bracket(name, 9);
    let t = "]."@ + area_tail(m);
    assert(!has_char(name, '=')) by {
        if has_char(name, '=') {
            let j = choose|j: int| 0 <= j < name.len() && name[j] == '=';
            if j < p.len() {
                assert(name[j] == p[j]);
            } else if j < p.len() + d.len() {
                assert(name[j] == d[j - p.len()]);
            } else {
                assert(name[j] == t[j - p.len() - d.len()]);
            }
        }
    }
}

proof fn lemma_area_tails(m1: int, m2: int)
    requires
        0 <= m1 < 9,
        0 <= m2 < 9,
        m1 != m2,
    ensures
        area_tail(m1) != area_tail(m2),
{
    reveal_strlit("complete");
    reveal_strlit("area_complete");
    reveal_strlit("story_buildup_complete");
    reveal_strlit("freeplay_buildup_complete");
    reveal_strlit("minikit_complete");
    reveal_strlit("minikit_count");
    reveal_strlit("red_brick_collected");
    reveal_strlit("reserved_0x7");
    reveal_strlit("challenge_trial_time");
    let x = area_tail(m1);
    let y = area_tail(m2);
    if x == y {
        assert(x.len() == y.len());
        assert(x[0] == y[0]);
    }
}

proof fn lemma_areas(base: int, len: int)
    requires
        0 <= base,
        base + 0x7c20 <= len,
    ensures
        ({
            let l = Seq::new(72, |i: int| crate::schema::area_group(base, i)).flatten();
            &&& distinct_names(l)
            &&& forall|k: int| 0 <= k < l.len() ==> crate::text::starts_with(#[trigger] l[k].0, "area_save["@)
            &&& forall|k: int| 0 <= k < l.len() ==> #[trigger] prop_ok(l[k], len)
        }),
{
    let g = Seq::new(72, |i: int| crate::schema::area_group(base, i));
    let tail = |m: int| "]."@ + area_tail(m);
    reveal_strlit("].");
    assert forall|i: int| 0 <= i < g.len() implies #[trigger] g[i].len() == 9 by {
        lemma_area_member(base, len, i, 0);
    }
    assert forall|i: int, m: int| 0 <= i < g.len() && 0 <= m < 9 implies #[trigger] g[i][m].0 == "area_save["@ + decimal(i as nat) + tail(m) by {
        lemma_area_member(base, len, i, m);
    }
    assert forall|m1: int, m2: int| 0 <= m1 < 9 && 0 <= m2 < 9 && m1 != m2 implies #[trigger] tail(m1) != #[trigger] tail(m2) by {
        lemma_area_tails(m1, m2);
        if tail(m1) == tail(m2) {
            assert(tail(m1).skip(2) =~= area_tail(m1));
            assert(tail(m2).skip(2) =~= area_tail(m2));
        }
    }
    lemma_family_distinct(g, 9, "area_save["@, tail);
    lemma_flatten_uniform(g, 9);
    let l = g.flatten();
    assert forall|k: int| 0 <= k < l.len() implies #[trigger] prop_ok(l[k], len) by {
        let i = k / 9;
        let m = k % 9;
        assert(0 <= i < 72 && 0 <= m < 9);
        lemma_area_member(base, len, i, m);
    }
}

/// What follows the record number in the name of member `m` of a episode_save[ record.
pub open spec fn episode_tail(m: int) -> Seq<char> {
    if m == 0 {
        "superstory_time_limit"@
    } else if m == 1 {
        "superstory_score_target"@
    } else {
        "flags"@
    }
}

proof fn lemma_episode_member(base: int, len: int, i: int, m: int)
    requires
        0 <= i < 6,
        0 <= m < 3,
        0 <= base,
        base + 0x7c20 <= len,
    ensures
        crate::schema::episode_group(base, i).len() == 3,
        crate::schema::episode_group(base, i)[m].0 == "episode_save["@ + decimal(i as nat) + ("]."@ + episode_tail(m)),
        prop_ok(crate::schema::episode_group(base, i)[m], len),
{
    let name = crate::schema::episode_group(base, i)[m].0;
    lemma_assoc3("episode_save["@ + decimal(i as nat), "]."@, episode_tail(m));
    assert(crate::schema::episode_prefix(i) == "episode_save["@ + decimal(i as nat) + "]."@);
    reveal_strlit("episode_save[");
    reveal_strlit("].");
    reveal_strlit("superstory_time_limit");
    reveal_strlit("superstory_score_target");
    reveal_strlit("flags");
    lemma_decimal_facts(i as nat, i as nat);
    let p = "episode_save["@;
    let d = decimal(i as nat);
    reveal(prop_ok);
    assert(name[12] == p[12]);
    lemma_alias_bracket(name, 12);
    let t = "]."@ + episode_tail(m);
    assert(!has_char(name, '=')) by {
        if has_char(name, '=') {
            let j = choose|j: int| 0 <= j < name.len() && name[j] == '=';
            if j < p.len() {
                assert(name[j] == p[j]);
            } else if j < p.len() + d.len() {
                assert(name[j] == d[j - p.len()]);
            } else {
                assert(name[j] == t[j - p.len() - d.len()]);
            }
        }
    }
}

proof fn lemma_episode_tails(m1: int, m2: int)
    requires
        0 <= m1 < 3,
        0 <= m2 < 3,
        m1 != m2,
    ensures
        episode_tail(m1) != episode_tail(m2),
{
    reveal_strlit("superstory_time_limit");
    reveal_strlit("superstory_score_target");
    reveal_strlit("flags");
    let x = episode_tail(m1);
    let y = episode_tail(m2);
    if x == y {
        assert(x.len() == y.len());
        assert(x[0] == y[0]);
    }
}

proof fn lemma_episodes(base: int, len: int)
    requires
        0 <= base,
        base + 0x7c20 <= len,
    ensures
        ({
            let l = Seq::new(6, |i: int| crate::schema::episode_group(base, i)).flatten();
            &&& distinct_names(l)
            &&& forall|k: int| 0 <= k < l.len() ==> crate::text::starts_with(#[trigger] l[k].0, "episode_save["@)
            &&& forall|k: int| 0 <= k < l.len() ==> #[trigger] prop_ok(l[k], len)
        }),
{
    let g = Seq::new(6, |i: int| crate::schema::episode_group(base, i));
    let tail = |m: int| "]."@ + episode_tail(m);
    reveal_strlit("].");
    assert forall|i: int| 0 <= i < g.len() implies #[trigger] g[i].len() == 3 by {
        lemma_episode_member(base, len, i, 0);
    }
    assert forall|i: int, m: int| 0 <= i < g.len() && 0 <= m < 3 implies #[trigger] g[i][m].0 == "episode_save["@ + decimal(i as nat) + tail(m) by {
        lemma_episode_member(base, len, i, m);
    }
    assert forall|m1: int, m2: int| 0 <= m1 < 3 && 0 <= m2 < 3 && m1 != m2 implies #[trigger] tail(m1) != #[trigger] tail(m2) by {
        lemma_episode_tails(m1, m2);
        if tail(m1) == tail(m2) {
            assert(tail(m1).skip(2) =~= episode_tail(m1));
            assert(tail(m2).skip(2) =~= episode_tail(m2));
        }
    }
    lemma_family_distinct(g, 3, "episode_save["@, tail);
    lemma_flatten_uniform(g, 3);
    let l = g.flatten();
    assert forall|k: int| 0 <= k < l.len() implies #[trigger] prop_ok(l[k], len) by {
        let i = k / 3;
        let m = k % 3;
        assert(0 <= i < 6 && 0 <= m < 3);
        lemma_episode_member(base, len, i, m);
    }
}

/// A prefix without `=`, a number and `]` hold no `=`.
proof fn lemma_indexed_no_eq(p: Seq<char>, i: nat)
    requires
        !has_char(p, '='),
    ensures
        !has_char(p + decimal(i) + "]"@, '='),
{
    reveal_strlit("]");
    lemma_decimal_facts(i, i);
    let d = decimal(i);
    let x = p + d + "]"@;
    if has_char(x, '=') {
        let j = choose|j: int| 0 <= j < x.len() && x[j] == '=';
        if j < p.len() {
            assert(x[j] == p[j]);
        } else if j < p.len() + d.len() {
            assert(x[j] == d[j - p.len()]);
        }
    }
}

/// A literal prefix holds no `=`.
proof fn lemma_prefix_no_eq(p: Seq<char>)
    requires
        p == "mission_save.best_times["@ || p == "mission_save.completed["@ || p == "character_save["@
            || p == "customizer.pieces["@ || p == "customizer.secondary_pieces["@ || p == "byte["@,
    ensures
        !has_char(p, '='),
{
    reveal_strlit("mission_save.best_times[");
    reveal_strlit("mission_save.completed[");
    reveal_strlit("character_save[");
    reveal_strlit("customizer.pieces[");
    reveal_strlit("customizer.secondary_pieces[");
    reveal_strlit("byte[");
    if has_char(p, '=') {
        let j = choose|j: int| 0 <= j < p.len() && p[j] == '=';
        assert(p[j] != '=');
    }
}

/// Properties named by one prefix and their number.
proof fn lemma_indexed_family(s: Seq<PropView>, p: Seq<char>, len: int)
    requires
        p.len() > 0 && p[p.len() - 1] == '[',
        forall|i: int| 0 <= i < s.len() ==> #[trigger] s[i].0 == p + decimal(i as nat) + "]"@,
        forall|i: int| 0 <= i < s.len() ==> fits(#[trigger] s[i], len),
        !has_char(p, '='),
    ensures
        distinct_names(s),
        forall|k: int| 0 <= k < s.len() ==> crate::text::starts_with(#[trigger] s[k].0, p),
        forall|k: int| 0 <= k < s.len() ==> #[trigger] prop_ok(s[k], len),
{
    lemma_indexed_distinct(s, p);
    assert forall|k: int| 0 <= k < s.len() implies #[trigger] prop_ok(s[k], len) by {
        reveal(prop_ok);
        lemma_indexed_no_eq(p, k as nat);
        assert(crate::text::starts_with(s[k].0, p));
        assert(s[k].0.subrange(0, p.len() as int)[p.len() - 1] == s[k].0[p.len() - 1]);
        lemma_alias_bracket(s[k].0, p.len() - 1);
    }
}

/// The characters, and the customizer's piece slots.
proof fn lemma_suffix_families(suffix: int, len: int)
    requires
        0 <= suffix,
        suffix + 0x22c <= len,
    ensures
        ({
            let c = Seq::new(340, |i: int| crate::schema::character_prop(suffix, i));
            let p1 = Seq::new(9, |i: int| crate::schema::piece_prop(suffix + 4, i));
            let p2 = Seq::new(9, |i: int| crate::schema::secondary_piece_prop(suffix + 4, i));
            &&& distinct_names(c) && distinct_names(p1) && distinct_names(p2)
            &&& forall|k: int| 0 <= k < c.len() ==> crate::text::starts_with(#[trigger] c[k].0, "character_save["@)
            &&& forall|k: int| 0 <= k < p1.len() ==> crate::text::starts_with(#[trigger] p1[k].0, "customizer.pieces["@)
            &&& forall|k: int| 0 <= k < p2.len() ==> crate::text::starts_with(#[trigger] p2[k].0, "customizer.secondary_pieces["@)
            &&& forall|k: int| 0 <= k < c.len() ==> #[trigger] prop_ok(c[k], len)
            &&& forall|k: int| 0 <= k < p1.len() ==> #[trigger] prop_ok(p1[k], len)
            &&& forall|k: int| 0 <= k < p2.len() ==> #[trigger] prop_ok(p2[k], len)
        }),
{
    let c = Seq::new(340, |i: int| crate::schema::character_prop(suffix, i));
    let p1 = Seq::new(9, |i: int| crate::schema::piece_prop(suffix + 4, i));
    let p2 = Seq::new(9, |i: int| crate::schema::secondary_piece_prop(suffix + 4, i));
    reveal_strlit("character_save[");
    reveal_strlit("customizer.pieces[");
    reveal_strlit("customizer.secondary_pieces[");
    lemma_prefix_no_eq("character_save["@);
    lemma_prefix_no_eq("customizer.pieces["@);
    lemma_prefix_no_eq("customizer.secondary_pieces["@);
    lemma_indexed_family(c, "character_save["@, len);
    lemma_indexed_family(p1, "customizer.pieces["@, len);
    lemma_indexed_family(p2, "customizer.secondary_pieces["@, len);
}

/// The missions: best times and completion flags.
proof fn lemma_missions(suffix: int, len: int)
    requires
        0 <= suffix,
        suffix + 0x22c <= len,
    ensures
        ({
            let l = Seq::new(20, |i: int| crate::schema::mission_group(suffix, i)).flatten();
            &&& distinct_names(l)
            &&& forall|k: int| 0 <= k < l.len() ==> crate::text::starts_with(#[trigger] l[k].0, "mission_save.best_times["@)
                || crate::text::starts_with(l[k].0, "mission_save.completed["@)
            &&& forall|k: int| 0 <= k < l.len() ==> #[trigger] prop_ok(l[k], len)
        }),
{
    let g = Seq::new(20, |i: int| crate::schema::mission_group(suffix, i));
    let a = "mission_save.best_times["@;
    let b = "mission_save.completed["@;
    reveal_strlit("mission_save.best_times[");
    reveal_strlit("mission_save.completed[");
    lemma_prefix_no_eq(a);
    lemma_prefix_no_eq(b);
    assert forall|i: int| 0 <= i < g.len() implies #[trigger] g[i].len() == 2 by {}
    lemma_flatten_uniform(g, 2);
    let l = g.flatten();
    assert forall|k: int| 0 <= k < l.len() implies
        (k % 2 == 0 ==> l[k].0 == a + decimal((k / 2) as nat) + "]"@)
        && (k % 2 == 1 ==> l[k].0 == b + decimal((k / 2) as nat) + "]"@)
        && #[trigger] prop_ok(l[k], len) by {
        let i = k / 2;
        assert(l[k] == g[i][k % 2]);
        lemma_indexed_no_eq(a, i as nat);
        lemma_indexed_no_eq(b, i as nat);
        reveal(prop_ok);
        let pk = if k % 2 == 0 { a } else { b };
        assert(l[k].0 == pk + decimal(i as nat) + "]"@);
        assert(l[k].0[pk.len() - 1] == pk[pk.len() - 1]);
        lemma_alias_bracket(l[k].0, pk.len() - 1);
    }
    assert forall|k1: int, k2: int| 0 <= k1 < l.len() && 0 <= k2 < l.len() && k1 != k2 implies #[trigger] l[k1].0 != #[trigger] l[k2].0 by {
        let p1 = if k1 % 2 == 0 { a } else { b };
        let p2 = if k2 % 2 == 0 { a } else { b };
        assert(l[k1].0 == p1 + decimal((k1 / 2) as nat) + "]"@);
        assert(l[k2].0 == p2 + decimal((k2 / 2) as nat) + "]"@);
        assert((p1 + decimal((k1 / 2) as nat) + "]"@).subrange(0, p1.len() as int) =~= p1);
        assert((p2 + decimal((k2 / 2) as nat) + "]"@).subrange(0, p2.len() as int) =~= p2);
        if k1 % 2 != k2 % 2 {
            lemma_heads_apart(l[k1].0, l[k2].0, p1, p2, 13);
        } else if l[k1].0 == l[k2].0 {
            reveal_strlit("]");
            lemma_indexed_eq(p1, (k1 / 2) as nat, "]"@, (k2 / 2) as nat, "]"@);
        }
    }
    assert forall|k: int| 0 <= k < l.len() implies crate::text::starts_with(#[trigger] l[k].0, a)
        || crate::text::starts_with(l[k].0, b) by {
        let p1 = if k % 2 == 0 { a } else { b };
        assert((p1 + decimal((k / 2) as nat) + "]"@).subrange(0, p1.len() as int) =~= p1);
    }
}

/// The names of the properties that are not numbered, of every kind of save.
pub open spec fn literal_names() -> Seq<Seq<char>> {
    seq![
        "header.field0_0x0"@,
        "header.field1_0x4"@,
        "header.size"@,
        "header.field3_0xc"@,
        "header.field4_0x10"@,
        "header.extradata_offset"@,
        "header.field6_0x18"@,
        "header.field7_0x28"@,
        "header.field8_0x2a"@,
        "header.field9_0x828"@,
        "header.field10_0x82a"@,
        "header.field11_0x1028"@,
        "header.field12_0x102a"@,
        "header.field13_0x1828"@,
        "header.field14_0x182a"@,
        "extra_prefix"@,
        "field_0x0"@,
        "difficulty"@,
        "field_0x2"@,
        "shop_gold_brick_purchased_bits"@,
        "shop_hint_purchased_bits"@,
        "shop_character_purchased_bits"@,
        "extra_unlocked_bits"@,
        "extra_purchased_bits"@,
        "hint_completion_bits"@,
        "suit_flags"@,
        "level_save_padding"@,
        "coins"@,
        "completion"@,
        "gold_bricks"@,
        "reward_flags"@,
        "hub_build_flags"@,
        "indy_unlocked"@,
        "reserved_0x7c2a"@,
        "gameplay_seconds"@,
        "field_0x7c9f"@,
        "field_0x7c93"@,
        "options_save.player1_rumble"@,
        "options_save.player2_rumble"@,
        "options_save.surround_sound"@,
        "options_save.sound_volume"@,
        "options_save.music_volume"@,
        "options_save.master_volume"@,
        "options_save.music_enabled"@,
        "options_save.field7_0x7"@,
        "options_save.field8_0x8"@,
        "options_save.field9_0x9"@,
        "options_save.field10_0xa"@,
        "options_save.widescreen"@,
        "options_save.brightness"@,
        "customizer.field_0x12"@,
        "customizer.primary_name"@,
        "customizer.primary_use_saved_name"@,
        "customizer.field_0x35"@,
        "customizer.secondary_name"@,
        "customizer.secondary_use_saved_name"@,
        "customizer.field_0x4a"@,
        "customizer.field_0x6d"@,
        "options.store_pack_flags"@,
        "options.touch_controls"@,
        "options.dpad_locked"@,
        "options.left_control_x"@,
        "options.left_control_y"@,
        "options.right_control_x"@,
        "options.right_control_y"@,
        "options.music_enabled"@,
        "options.store_bundle_flags"@,
        "options.field9_0x16"@,
        "checksum"@,
        "slot_code"@
    ]
}

/// Where a literal name stands among the literal names.
pub open spec fn literal_index(n: Seq<char>) -> int {
    choose|a: int| 0 <= a < literal_names().len() && literal_names()[a] == n
}

/// The literal names are distinct, hold neither `[` nor `=`, and none is an
/// older name of a property.
#[verifier::spinoff_prover]
#[verifier::rlimit(80)]
proof fn lemma_literal_names()
    ensures
        literal_names().len() == 70,
        forall|a: int, b: int| 0 <= a < 70 && 0 <= b < 70 && a != b ==> #[trigger] literal_names()[a] != #[trigger] literal_names()[b],
        forall|a: int| 0 <= a < 70 ==> !has_char(#[trigger] literal_names()[a], '[') && !has_char(literal_names()[a], '=')
            && crate::assign::alias(literal_names()[a]) == literal_names()[a],
{
    reveal_strlit("header.field0_0x0");
    reveal_strlit("header.field1_0x4");
    reveal_strlit("header.size");
    reveal_strlit("header.field3_0xc");
    reveal_strlit("header.field4_0x10");
    reveal_strlit("header.extradata_offset");
    reveal_strlit("header.field6_0x18");
    reveal_strlit("header.field7_0x28");
    reveal_strlit("header.field8_0x2a");
    reveal_strlit("header.field9_0x828");
    reveal_strlit("header.field10_0x82a");
    reveal_strlit("header.field11_0x1028");
    reveal_strlit("header.field12_0x102a");
    reveal_strlit("header.field13_0x1828");
    reveal_strlit("header.field14_0x182a");
    reveal_strlit("extra_prefix");
    reveal_strlit("field_0x0");
    reveal_strlit("difficulty");
    reveal_strlit("field_0x2");
    reveal_strlit("shop_gold_brick_purchased_bits");
    reveal_strlit("shop_hint_purchased_bits");
    reveal_strlit("shop_character_purchased_bits");
    reveal_strlit("extra_unlocked_bits");
    reveal_strlit("extra_purchased_bits");
    reveal_strlit("hint_completion_bits");
    reveal_strlit("suit_flags");
    reveal_strlit("level_save_padding");
    reveal_strlit("coins");
    reveal_strlit("completion");
    reveal_strlit("gold_bricks");
    reveal_strlit("reward_flags");
    reveal_strlit("hub_build_flags");
    reveal_strlit("indy_unlocked");
    reveal_strlit("reserved_0x7c2a");
    reveal_strlit("gameplay_seconds");
    reveal_strlit("field_0x7c9f");
    reveal_strlit("field_0x7c93");
    reveal_strlit("options_save.player1_rumble");
    reveal_strlit("options_save.player2_rumble");
    reveal_strlit("options_save.surround_sound");
    reveal_strlit("options_save.sound_volume");
    reveal_strlit("options_save.music_volume");
    reveal_strlit("options_save.master_volume");
    reveal_strlit("options_save.music_enabled");
    reveal_strlit("options_save.field7_0x7");
    reveal_strlit("options_save.field8_0x8");
    reveal_strlit("options_save.field9_0x9");
    reveal_strlit("options_save.field10_0xa");
    reveal_strlit("options_save.widescreen");
    reveal_strlit("options_save.brightness");
    reveal_strlit("customizer.field_0x12");
    reveal_strlit("customizer.primary_name");
    reveal_strlit("customizer.primary_use_saved_name");
    reveal_strlit("customizer.field_0x35");
    reveal_strlit("customizer.secondary_name");
    reveal_strlit("customizer.secondary_use_saved_name");
    reveal_strlit("customizer.field_0x4a");
    reveal_strlit("customizer.field_0x6d");
    reveal_strlit("options.store_pack_flags");
    reveal_strlit("options.touch_controls");
    reveal_strlit("options.dpad_locked");
    reveal_strlit("options.left_control_x");
    reveal_strlit("options.left_control_y");
    reveal_strlit("options.right_control_x");
    reveal_strlit("options.right_control_y");
    reveal_strlit("options.music_enabled");
    reveal_strlit("options.store_bundle_flags");
    reveal_strlit("options.field9_0x16");
    reveal_strlit("checksum");
    reveal_strlit("slot_code");
    reveal_strlit("save_version");
    reveal_strlit("field30_0x7c2c");
    reveal_strlit("field30_0x7c20");
    reveal_strlit("initial_store_pack_flags");
    reveal_strlit("field_0x7bf8");
    reveal_strlit("customizer.primary_name_unlocked");
    reveal_strlit("customizer.secondary_name_unlocked");
    let l = literal_names();
    assert forall|a: int, b: int| 0 <= a < 70 && 0 <= b < 70 && a != b implies #[trigger] l[a] != #[trigger] l[b] by {
        let x = l[a];
        let y = l[b];
        if x.len() == y.len() {
            assert(x[0] != y[0] || x[1] != y[1] || x[7] != y[7] || x[8] != y[8] || x[11] != y[11] || x[12] != y[12] || x[13] != y[13] || x[14] != y[14] || x[18] != y[18] || x[19] != y[19] || x[21] != y[21] || x[22] != y[22]);
        }
    }
    assert forall|a: int| 0 <= a < 70 implies !has_char(#[trigger] l[a], '[') && !has_char(l[a], '=') by {
        let x = l[a];
        if has_char(x, '[') {
            let j = choose|j: int| 0 <= j < x.len() && x[j] == '[';
            assert(x[j] != '[');
        }
        if has_char(x, '=') {
            let j = choose|j: int| 0 <= j < x.len() && x[j] == '=';
            assert(x[j] != '=');
        }
     }
    assert forall|a: int| 0 <= a < 70 implies crate::assign::alias(#[trigger] l[a]) == l[a] by {
        let x = l[a];
        if x.len() == "save_version"@.len() {
            let y = "save_version"@;
            assert(x[0] != y[0] || x[9] != y[9]);
        }
        if x.len() == "field30_0x7c2c"@.len() {
            let y = "field30_0x7c2c"@;
            assert(x[0] != y[0] || x[9] != y[9]);
        }
        if x.len() == "field30_0x7c20"@.len() {
            let y = "field30_0x7c20"@;
            assert(x[0] != y[0] || x[9] != y[9]);
        }
        if x.len() == "initial_store_pack_flags"@.len() {
            let y = "initial_store_pack_flags"@;
            assert(x[0] != y[0] || x[9] != y[9]);
        }
        if x.len() == "field_0x7bf8"@.len() {
            let y = "field_0x7bf8"@;
            assert(x[0] != y[0] || x[9] != y[9]);
        }
        if x.len() == "customizer.primary_name_unlocked"@.len() {
            let y = "customizer.primary_name_unlocked"@;
            assert(x[0] != y[0] || x[9] != y[9]);
        }
        if x.len() == "customizer.secondary_name_unlocked"@.len() {
            let y = "customizer.secondary_name_unlocked"@;
            assert(x[0] != y[0] || x[9] != y[9]);
        }
    }
}

/// A name that stands among the literal names stands at one place.
proof fn lemma_literal_index(a: int)
    requires
        0 <= a < 70,
    ensures
        literal_index(literal_names()[a]) == a,
{
    lemma_literal_names();
    let n = literal_names()[a];
    let b = literal_index(n);
    assert(literal_names()[a] == n);
    if b != a {
        assert(literal_names()[b] != literal_names()[a]);
    }
}

/// Properties named by literal names standing between `lo` and `hi`.
pub open spec fn literal_segment(s: Seq<PropView>, lo: int, hi: int, len: int) -> bool {
    &&& distinct_names(s)
    &&& forall|k: int| 0 <= k < s.len() ==> lo <= literal_index(#[trigger] s[k].0) < hi
        && literal_names()[literal_index(s[k].0)] == s[k].0
    &&& forall|k: int| 0 <= k < s.len() ==> #[trigger] prop_ok(s[k], len)
}

/// Properties named by the literal names from `lo` on, in order, lie in
/// such a segment.
proof fn lemma_literal_run(s: Seq<PropView>, lo: int, len: int)
    requires
        0 <= lo,
        lo + s.len() <= 70,
        forall|k: int| 0 <= k < s.len() ==> #[trigger] s[k].0 == literal_names()[lo + k],
        forall|k: int| 0 <= k < s.len() ==> fits(#[trigger] s[k], len),
    ensures
        literal_segment(s, lo, lo + s.len(), len),
{
    lemma_literal_names();
    assert forall|k: int| 0 <= k < s.len() implies lo <= literal_index(#[trigger] s[k].0) < lo + s.len()
        && literal_names()[literal_index(s[k].0)] == s[k].0 by {
        lemma_literal_index(lo + k);
    }
    assert forall|i: int, j: int| 0 <= i < s.len() && 0 <= j < s.len() && i != j implies #[trigger] s[i].0 != #[trigger] s[j].0 by {
        assert(literal_names()[lo + i] != literal_names()[lo + j]);
    }
    assert forall|k: int| 0 <= k < s.len() implies #[trigger] prop_ok(s[k], len) by {
        reveal(prop_ok);
        assert(!has_char(literal_names()[lo + k], '='));
    }
}

proof fn lemma_header_segment(base: int, len: int)
    requires
        0x2028 <= len,
    ensures
        literal_segment(crate::schema::header_props(), 0, 15, len),
{
    let s = crate::schema::header_props();
    crate::tables::lemma_long_fields_flag_free("header.field6_0x18"@);
    crate::tables::lemma_not_flag_named("header.field6_0x18"@);
    crate::tables::lemma_long_fields_flag_free("header.field8_0x2a"@);
    crate::tables::lemma_not_flag_named("header.field8_0x2a"@);
    crate::tables::lemma_long_fields_flag_free("header.field10_0x82a"@);
    crate::tables::lemma_not_flag_named("header.field10_0x82a"@);
    crate::tables::lemma_long_fields_flag_free("header.field12_0x102a"@);
    crate::tables::lemma_not_flag_named("header.field12_0x102a"@);
    crate::tables::lemma_long_fields_flag_free("header.field14_0x182a"@);
    crate::tables::lemma_not_flag_named("header.field14_0x182a"@);
    assert forall|k: int| 0 <= k < s.len() implies #[trigger] s[k].0 == literal_names()[0 + k] by {}
    assert forall|k: int| 0 <= k < s.len() implies fits(#[trigger] s[k], len) by {}
    lemma_literal_run(s, 0, len);
}

proof fn lemma_fixed_segment(base: int, len: int)
    requires
        0 <= base && base + 0x7c20 <= len,
    ensures
        literal_segment(crate::schema::game_fixed_props(base), 16, 27, len),
{
    let s = crate::schema::game_fixed_props(base);
    assert forall|k: int| 0 <= k < s.len() implies #[trigger] s[k].0 == literal_names()[16 + k] by {}
    assert forall|k: int| 0 <= k < s.len() implies fits(#[trigger] s[k], len) by {}
    lemma_literal_run(s, 16, len);
}

proof fn lemma_android_segment(base: int, len: int)
    requires
        0 <= base && base + 0x7c2c <= len,
    ensures
        literal_segment(crate::schema::android_summary_props(base + 0x7c20), 27, 34, len),
{
    let s = crate::schema::android_summary_props(base + 0x7c20);
    assert forall|k: int| 0 <= k < s.len() implies #[trigger] s[k].0 == literal_names()[27 + k] by {}
    assert forall|k: int| 0 <= k < s.len() implies fits(#[trigger] s[k], len) by {}
    lemma_literal_run(s, 27, len);
}

proof fn lemma_options_save_segment(base: int, len: int)
    requires
        0 <= base && base + 0x11 <= len,
    ensures
        literal_segment(crate::schema::options_save_props(base), 37, 50, len),
{
    let s = crate::schema::options_save_props(base);
    assert forall|k: int| 0 <= k < s.len() implies #[trigger] s[k].0 == literal_names()[37 + k] by {}
    assert forall|k: int| 0 <= k < s.len() implies fits(#[trigger] s[k], len) by {}
    lemma_literal_run(s, 37, len);
}

proof fn lemma_custom_fixed_segment(base: int, len: int)
    requires
        0 <= base && base + 0x6f <= len,
    ensures
        literal_segment(crate::schema::customizer_fixed_props(base), 50, 58, len),
{
    let s = crate::schema::customizer_fixed_props(base);
    crate::tables::lemma_long_fields_flag_free("customizer.primary_name"@);
    crate::tables::lemma_not_flag_named("customizer.primary_name"@);
    crate::tables::lemma_long_fields_flag_free("customizer.secondary_name"@);
    crate::tables::lemma_not_flag_named("customizer.secondary_name"@);
    assert forall|k: int| 0 <= k < s.len() implies #[trigger] s[k].0 == literal_names()[50 + k] by {}
    assert forall|k: int| 0 <= k < s.len() implies fits(#[trigger] s[k], len) by {}
    lemma_literal_run(s, 50, len);
}

proof fn lemma_super_options_segment(base: int, len: int)
    requires
        0 <= base && base + 0x18 <= len,
    ensures
        literal_segment(crate::schema::super_options_props(base), 58, 68, len),
{
    let s = crate::schema::super_options_props(base);
    assert forall|k: int| 0 <= k < s.len() implies #[trigger] s[k].0 == literal_names()[58 + k] by {}
    assert forall|k: int| 0 <= k < s.len() implies fits(#[trigger] s[k], len) by {}
    lemma_literal_run(s, 58, len);
}

proof fn lemma_extra_segment(payload: int, len: int)
    requires
        0x2028 <= payload <= len,
    ensures
        literal_segment(crate::schema::extra_props(payload), 15, 16, len),
{
    let s = crate::schema::extra_props(payload);
    if payload > 0x2028 {
        crate::tables::lemma_long_fields_flag_free("extra_prefix"@);
        crate::tables::lemma_not_flag_named("extra_prefix"@);
        assert forall|k: int| 0 <= k < s.len() implies #[trigger] s[k].0 == literal_names()[15 + k] by {}
        assert forall|k: int| 0 <= k < s.len() implies fits(#[trigger] s[k], len) by {}
        lemma_literal_run(s, 15, len);
    } else {
        assert(s.len() == 0);
    }
}

#[verifier::spinoff_prover]
#[verifier::rlimit(80)]
proof fn lemma_suffix_segment(suffix: int, android: bool, len: int)
    requires
        0 <= suffix,
        suffix + 0x74 <= len,
    ensures
        literal_segment(crate::schema::suffix_props(suffix, android), 34, 37, len),
{
    let s = crate::schema::suffix_props(suffix, android);
    lemma_literal_names();
    lemma_literal_index(34);
    lemma_literal_index(35);
    lemma_literal_index(36);
    assert(s[0].0 == literal_names()[34]);
    assert(s[1].0 == literal_names()[if android { 35int } else { 36int }]);
    assert forall|i: int, j: int| 0 <= i < s.len() && 0 <= j < s.len() && i != j implies #[trigger] s[i].0 != #[trigger] s[j].0 by {
        assert(literal_names()[34] != literal_names()[35]);
        assert(literal_names()[34] != literal_names()[36]);
    }
    assert forall|k: int| 0 <= k < s.len() implies #[trigger] prop_ok(s[k], len) by {
        reveal(prop_ok);
        assert(!has_char(literal_names()[34], '='));
        assert(!has_char(literal_names()[35], '='));
        assert(!has_char(literal_names()[36], '='));
    }
}

/// The checksum and slot code.
pub open spec fn tail_props(payload: int, size: int, len: int) -> Seq<PropView> {
    seq![
        crate::schema::pv("checksum"@, payload + size, 4, Kind::Unsigned),
        crate::schema::pv("slot_code"@, len - 4, 4, Kind::Unsigned),
    ]
}

proof fn lemma_tail_segment(payload: int, size: int, len: int)
    requires
        0 <= payload,
        0 <= size,
        payload + size + 8 == len,
    ensures
        literal_segment(tail_props(payload, size, len), 68, 70, len),
{
    let s = tail_props(payload, size, len);
    assert forall|k: int| 0 <= k < s.len() implies #[trigger] s[k].0 == literal_names()[68 + k] by {}
    assert forall|k: int| 0 <= k < s.len() implies fits(#[trigger] s[k], len) by {}
    lemma_literal_run(s, 68, len);
}

/// Every name of `t` starts with `p` or with `q`.
pub open spec fn headed(t: Seq<PropView>, p: Seq<char>, q: Seq<char>) -> bool {
    forall|k: int| 0 <= k < t.len() ==> crate::text::starts_with(#[trigger] t[k].0, p) || crate::text::starts_with(t[k].0, q)
}

proof fn lemma_apart_concat(a: Seq<PropView>, b: Seq<PropView>, c: Seq<PropView>)
    requires
        names_apart(a, c),
        names_apart(b, c),
    ensures
        names_apart(a + b, c),
{
    let s = a + b;
    assert forall|i: int, j: int| 0 <= i < s.len() && 0 <= j < c.len() implies #[trigger] s[i].0 != #[trigger] c[j].0 by {
        if i < a.len() {
            assert(s[i] == a[i]);
        } else {
            assert(s[i] == b[i - a.len()]);
        }
    }
}

proof fn lemma_literals_apart(s: Seq<PropView>, lo1: int, hi1: int, t: Seq<PropView>, lo2: int, hi2: int, len: int)
    requires
        literal_segment(s, lo1, hi1, len),
        literal_segment(t, lo2, hi2, len),
        hi1 <= lo2 || hi2 <= lo1,
    ensures
        names_apart(s, t),
{
    assert forall|i: int, j: int| 0 <= i < s.len() && 0 <= j < t.len() implies #[trigger] s[i].0 != #[trigger] t[j].0 by {
        assert(lo1 <= literal_index(s[i].0) < hi1);
        assert(lo2 <= literal_index(t[j].0) < hi2);
    }
}

proof fn lemma_literal_headed_apart(s: Seq<PropView>, lo: int, hi: int, t: Seq<PropView>, p: Seq<char>, q: Seq<char>, i1: int, i2: int, len: int)
    requires
        0 <= lo,
        hi <= 70,
        literal_segment(s, lo, hi, len),
        headed(t, p, q),
        0 <= i1 < p.len() && p[i1] == '[',
        0 <= i2 < q.len() && q[i2] == '[',
    ensures
        names_apart(s, t),
        names_apart(t, s),
{
    lemma_literal_names();
    assert forall|i: int, j: int| 0 <= i < s.len() && 0 <= j < t.len() implies #[trigger] s[i].0 != #[trigger] t[j].0 by {
        let a = literal_index(s[i].0);
        assert(lo <= a < hi);
        assert(!has_char(literal_names()[a], '['));
        if crate::text::starts_with(t[j].0, p) {
            lemma_plain_apart(s[i].0, t[j].0, p, i1);
        } else {
            lemma_plain_apart(s[i].0, t[j].0, q, i2);
        }
    }
}

proof fn lemma_headed_apart(s: Seq<PropView>, p1: Seq<char>, q1: Seq<char>, t: Seq<PropView>, p2: Seq<char>, q2: Seq<char>,
    a: int, b: int, c: int, d: int)
    requires
        headed(s, p1, q1),
        headed(t, p2, q2),
        0 <= a < p1.len() && a < p2.len() && p1[a] != p2[a],
        0 <= b < p1.len() && b < q2.len() && p1[b] != q2[b],
        0 <= c < q1.len() && c < p2.len() && q1[c] != p2[c],
        0 <= d < q1.len() && d < q2.len() && q1[d] != q2[d],
    ensures
        names_apart(s, t),
        names_apart(t, s),
{
    assert forall|i: int, j: int| 0 <= i < s.len() && 0 <= j < t.len() implies #[trigger] s[i].0 != #[trigger] t[j].0 by {
        let x = s[i].0;
        let y = t[j].0;
        if crate::text::starts_with(x, p1) {
            if crate::text::starts_with(y, p2) { lemma_heads_apart(x, y, p1, p2, a); } else { lemma_heads_apart(x, y, p1, q2, b); }
        } else {
            if crate::text::starts_with(y, p2) { lemma_heads_apart(x, y, q1, p2, c); } else { lemma_heads_apart(x, y, q1, q2, d); }
        }
    }
}

proof fn lemma_apart_sym(a: Seq<PropView>, b: Seq<PropView>)
    requires
        names_apart(a, b),
    ensures
        names_apart(b, a),
{
    assert forall|i: int, j: int| 0 <= i < b.len() && 0 <= j < a.len() implies #[trigger] b[i].0 != #[trigger] a[j].0 by {
        assert(a[j].0 != b[i].0);
    }
}

/// The numbers below `n` that meet `pred`, in order.
pub open spec fn filtered(n: int, pred: spec_fn(int) -> bool) -> Seq<int> {
    Seq::new(n as nat, |x: int| x).filter(pred)
}

/// Numbers below `n` that meet `pred`, in order: strictly increasing.
proof fn lemma_filter_increasing(n: int, pred: spec_fn(int) -> bool)
    requires
        0 <= n,
    ensures
        forall|i: int, j: int| 0 <= i < j < filtered(n, pred).len() ==> #[trigger] filtered(n, pred)[i] < #[trigger] filtered(n, pred)[j],
        forall|i: int| 0 <= i < filtered(n, pred).len() ==> 0 <= #[trigger] filtered(n, pred)[i] < n,
    decreases n,
{
    let ids = Seq::new(n as nat, |x: int| x);
    if n == 0 {
        assert(ids =~= Seq::<int>::empty());
        assert(ids.filter(pred) =~= Seq::<int>::empty()) by {
            reveal(Seq::filter);
        }
    } else {
        lemma_filter_increasing(n - 1, pred);
        let prev = Seq::new((n - 1) as nat, |x: int| x);
        assert(ids =~= prev.push(n - 1));
        prev.lemma_filter_push(n - 1, pred);
        let pf = prev.filter(pred);
        let f = ids.filter(pred);
        assert(pf == filtered(n - 1, pred));
        assert(f == filtered(n, pred));
        if pred(n - 1) {
            assert(f == pf.push(n - 1));
        } else {
            assert(f == pf);
        }
    }
}

/// The `byte[N]` aliases of the bytes no named property covers.
proof fn lemma_uncovered(named: Seq<PropView>, len: int)
    requires
        0 <= len,
    ensures
        ({
            let u = crate::schema::uncovered_props(named, len);
            &&& distinct_names(u)
            &&& headed(u, "byte["@, "byte["@)
            &&& forall|k: int| 0 <= k < u.len() ==> #[trigger] prop_ok(u[k], len)
            &&& forall|k: int| 0 <= k < u.len() ==> 0 <= (#[trigger] u[k]).1 < len && u[k] == crate::schema::byte_prop(u[k].1)
        }),
{
    let pred = |j: int| !crate::schema::covered(named, j);
    let fl = filtered(len, pred);
    lemma_filter_increasing(len, pred);
    let u = crate::schema::uncovered_props(named, len);
    assert(u =~= fl.map_values(|x: int| crate::schema::byte_prop(x)));
    reveal_strlit("byte[");
    reveal_strlit("]");
    lemma_prefix_no_eq("byte["@);
    assert forall|k: int| 0 <= k < u.len() implies 0 <= (#[trigger] u[k]).1 < len && u[k] == crate::schema::byte_prop(u[k].1) by {
        assert(u[k] == crate::schema::byte_prop(fl[k]));
    }
    assert forall|i: int, j: int| 0 <= i < u.len() && 0 <= j < u.len() && i != j implies #[trigger] u[i].0 != #[trigger] u[j].0 by {
        assert(u[i] == crate::schema::byte_prop(fl[i]));
        assert(u[j] == crate::schema::byte_prop(fl[j]));
        if i < j { assert(fl[i] < fl[j]); } else { assert(fl[j] < fl[i]); }
        if u[i].0 == u[j].0 {
            lemma_indexed_eq("byte["@, fl[i] as nat, "]"@, fl[j] as nat, "]"@);
        }
    }
    assert forall|k: int| 0 <= k < u.len() implies crate::text::starts_with(#[trigger] u[k].0, "byte["@)
        || crate::text::starts_with(u[k].0, "byte["@) by {
        assert(u[k] == crate::schema::byte_prop(fl[k]));
        assert(("byte["@ + decimal(fl[k] as nat) + "]"@).subrange(0, 5) =~= "byte["@);
    }
    assert forall|k: int| 0 <= k < u.len() implies #[trigger] prop_ok(u[k], len) by {
        reveal(prop_ok);
        assert(u[k] == crate::schema::byte_prop(fl[k]));
        lemma_indexed_no_eq("byte["@, fl[k] as nat);
        assert(u[k].0[4] == '[');
        lemma_alias_bracket(u[k].0, 4);
    }
}

/// Every property lies in the save and has a name without `=`.
pub open spec fn all_ok(s: Seq<PropView>, len: int) -> bool {
    forall|k: int| 0 <= k < s.len() ==> #[trigger] prop_ok(s[k], len)
}

/// No property's name starts with `byte[`.
pub open spec fn no_byte_names(s: Seq<PropView>) -> bool {
    forall|k: int| 0 <= k < s.len() ==> !crate::text::starts_with(#[trigger] s[k].0, "byte["@)
}

proof fn lemma_ok_concat(a: Seq<PropView>, b: Seq<PropView>, len: int)
    requires
        all_ok(a, len),
        all_ok(b, len),
        no_byte_names(a),
        no_byte_names(b),
    ensures
        all_ok(a + b, len),
        no_byte_names(a + b),
{
    let s = a + b;
    assert forall|k: int| 0 <= k < s.len() implies #[trigger] prop_ok(s[k], len) && !crate::text::starts_with(s[k].0, "byte["@) by {
        if k < a.len() {
            assert(s[k] == a[k]);
        } else {
            assert(s[k] == b[k - a.len()]);
        }
    }
}

proof fn lemma_literal_no_byte(s: Seq<PropView>, lo: int, hi: int, len: int)
    requires
        0 <= lo,
        hi <= 70,
        literal_segment(s, lo, hi, len),
    ensures
        no_byte_names(s),
        all_ok(s, len),
{
    lemma_literal_names();
    reveal_strlit("byte[");
    assert forall|k: int| 0 <= k < s.len() implies !crate::text::starts_with(#[trigger] s[k].0, "byte["@) by {
        let a = literal_index(s[k].0);
        assert(!has_char(literal_names()[a], '['));
        if crate::text::starts_with(s[k].0, "byte["@) {
            assert(s[k].0.subrange(0, 5)[4] == s[k].0[4]);
            assert(has_char(s[k].0, '['));
        }
    }
}

proof fn lemma_headed_no_byte(s: Seq<PropView>, p: Seq<char>, q: Seq<char>)
    requires
        headed(s, p, q),
        p.len() > 0 && p[0] != 'b',
        q.len() > 0 && q[0] != 'b',
    ensures
        no_byte_names(s),
{
    reveal_strlit("byte[");
    assert forall|k: int| 0 <= k < s.len() implies !crate::text::starts_with(#[trigger] s[k].0, "byte["@) by {
        if crate::text::starts_with(s[k].0, "byte["@) {
            if crate::text::starts_with(s[k].0, p) {
                lemma_heads_apart(s[k].0, s[k].0, p, "byte["@, 0);
            } else {
                lemma_heads_apart(s[k].0, s[k].0, q, "byte["@, 0);
            }
        }
    }
}

#[verifier::spinoff_prover]
#[verifier::rlimit(100)]
proof fn lemma_game_names(b: int, sz: int, len: int)
    requires
        sz == 0x7e58 || sz == 0x7e4c,
        0x2028 <= b,
        len == b + sz + 8,
    ensures
        distinct_names(crate::schema::named_props(b, sz, len)),
        all_ok(crate::schema::named_props(b, sz, len), len),
        no_byte_names(crate::schema::named_props(b, sz, len)),
{
    let android = sz == 0x7e58;
    let sf = crate::schema::suffix_offset(b, android);
    let x0 = crate::schema::header_props();
    lemma_header_segment(0, len);
    lemma_literal_no_byte(x0, 0, 15, len);
    let x1 = crate::schema::extra_props(b);
    lemma_extra_segment(b, len);
    lemma_literal_no_byte(x1, 15, 16, len);
    let x2 = crate::schema::game_fixed_props(b);
    lemma_fixed_segment(b, len);
    lemma_literal_no_byte(x2, 16, 27, len);
    let x3 = if android { crate::schema::android_summary_props(b + 0x7c20) } else { Seq::<PropView>::empty() };
    if android { lemma_android_segment(b, len); } else { assert(literal_segment(x3, 27, 34, len)); }
    lemma_literal_no_byte(x3, 27, 34, len);
    let x4 = crate::schema::suffix_props(sf, android);
    lemma_suffix_segment(sf, android, len);
    lemma_literal_no_byte(x4, 34, 37, len);
    let x5 = crate::schema::options_save_props(b);
    lemma_options_save_segment(b, len);
    lemma_literal_no_byte(x5, 37, 50, len);
    let x6 = Seq::new(366, |i: int| crate::schema::level_group(b, i)).flatten();
    lemma_levels(b, len);
    assert(headed(x6, "level_save["@, "level_save["@));
    reveal_strlit("level_save[");
    reveal_strlit("level_save[");
    lemma_headed_no_byte(x6, "level_save["@, "level_save["@);
    let x7 = Seq::new(20, |i: int| crate::schema::mission_group(sf, i)).flatten();
    lemma_missions(sf, len);
    assert(headed(x7, "mission_save.best_times["@, "mission_save.completed["@));
    reveal_strlit("mission_save.best_times[");
    reveal_strlit("mission_save.completed[");
    lemma_headed_no_byte(x7, "mission_save.best_times["@, "mission_save.completed["@);
    let x8 = Seq::new(340, |i: int| crate::schema::character_prop(sf, i));
    lemma_suffix_families(sf, len);
    assert(headed(x8, "character_save["@, "character_save["@));
    reveal_strlit("character_save[");
    reveal_strlit("character_save[");
    lemma_headed_no_byte(x8, "character_save["@, "character_save["@);
    let x9 = Seq::new(72, |i: int| crate::schema::area_group(b, i)).flatten();
    lemma_areas(b, len);
    assert(headed(x9, "area_save["@, "area_save["@));
    reveal_strlit("area_save[");
    reveal_strlit("area_save[");
    lemma_headed_no_byte(x9, "area_save["@, "area_save["@);
    let x10 = Seq::new(6, |i: int| crate::schema::episode_group(b, i)).flatten();
    lemma_episodes(b, len);
    assert(headed(x10, "episode_save["@, "episode_save["@));
    reveal_strlit("episode_save[");
    reveal_strlit("episode_save[");
    lemma_headed_no_byte(x10, "episode_save["@, "episode_save["@);
    let x11 = Seq::new(9, |i: int| crate::schema::piece_prop(sf + 4, i));
    assert(headed(x11, "customizer.pieces["@, "customizer.pieces["@));
    reveal_strlit("customizer.pieces[");
    reveal_strlit("customizer.pieces[");
    lemma_headed_no_byte(x11, "customizer.pieces["@, "customizer.pieces["@);
    let x12 = Seq::new(9, |i: int| crate::schema::secondary_piece_prop(sf + 4, i));
    assert(headed(x12, "customizer.secondary_pieces["@, "customizer.secondary_pieces["@));
    reveal_strlit("customizer.secondary_pieces[");
    reveal_strlit("customizer.secondary_pieces[");
    lemma_headed_no_byte(x12, "customizer.secondary_pieces["@, "customizer.secondary_pieces["@);
    let x13 = crate::schema::customizer_fixed_props(sf + 4);
    lemma_custom_fixed_segment(sf + 4, len);
    lemma_literal_no_byte(x13, 50, 58, len);
    let x14 = tail_props(b, sz, len);
    lemma_tail_segment(b, sz, len);
    lemma_literal_no_byte(x14, 68, 70, len);
    lemma_literals_apart(x0, 0, 15, x1, 15, 16, len);
    lemma_concat_distinct(x0, x1);
    lemma_ok_concat(x0, x1, len);
    lemma_literals_apart(x0, 0, 15, x2, 16, 27, len);
    lemma_literals_apart(x1, 15, 16, x2, 16, 27, len);
    lemma_apart_concat(x0, x1, x2);
    lemma_concat_distinct((x0 + x1), x2);
    lemma_ok_concat((x0 + x1), x2, len);
    lemma_literals_apart(x0, 0, 15, x3, 27, 34, len);
    lemma_literals_apart(x1, 15, 16, x3, 27, 34, len);
    lemma_apart_concat(x0, x1, x3);
    lemma_literals_apart(x2, 16, 27, x3, 27, 34, len);
    lemma_apart_concat((x0 + x1), x2, x3);
    lemma_concat_distinct(((x0 + x1) + x2), x3);
    lemma_ok_concat(((x0 + x1) + x2), x3, len);
    lemma_literals_apart(x0, 0, 15, x4, 34, 37, len);
    lemma_literals_apart(x1, 15, 16, x4, 34, 37, len);
    lemma_apart_concat(x0, x1, x4);
    lemma_literals_apart(x2, 16, 27, x4, 34, 37, len);
    lemma_apart_concat((x0 + x1), x2, x4);
    lemma_literals_apart(x3, 27, 34, x4, 34, 37, len);
    lemma_apart_concat(((x0 + x1) + x2), x3, x4);
    lemma_concat_distinct((((x0 + x1) + x2) + x3), x4);
    lemma_ok_concat((((x0 + x1) + x2) + x3), x4, len);
    lemma_literals_apart(x0, 0, 15, x5, 37, 50, len);
    lemma_literals_apart(x1, 15, 16, x5, 37, 50, len);
    lemma_apart_concat(x0, x1, x5);
    lemma_literals_apart(x2, 16, 27, x5, 37, 50, len);
    lemma_apart_concat((x0 + x1), x2, x5);
    lemma_literals_apart(x3, 27, 34, x5, 37, 50, len);
    lemma_apart_concat(((x0 + x1) + x2), x3, x5);
    lemma_literals_apart(x4, 34, 37, x5, 37, 50, len);
    lemma_apart_concat((((x0 + x1) + x2) + x3), x4, x5);
    lemma_concat_distinct(((((x0 + x1) + x2) + x3) + x4), x5);
    lemma_ok_concat(((((x0 + x1) + x2) + x3) + x4), x5, len);
    lemma_literal_headed_apart(x0, 0, 15, x6, "level_save["@, "level_save["@, 10, 10, len);
    lemma_literal_headed_apart(x1, 15, 16, x6, "level_save["@, "level_save["@, 10, 10, len);
    lemma_apart_concat(x0, x1, x6);
    lemma_literal_headed_apart(x2, 16, 27, x6, "level_save["@, "level_save["@, 10, 10, len);
    lemma_apart_concat((x0 + x1), x2, x6);
    lemma_literal_headed_apart(x3, 27, 34, x6, "level_save["@, "level_save["@, 10, 10, len);
    lemma_apart_concat(((x0 + x1) + x2), x3, x6);
    lemma_literal_headed_apart(x4, 34, 37, x6, "level_save["@, "level_save["@, 10, 10, len);
    lemma_apart_concat((((x0 + x1) + x2) + x3), x4, x6);
    lemma_literal_headed_apart(x5, 37, 50, x6, "level_save["@, "level_save["@, 10, 10, len);
    lemma_apart_concat(((((x0 + x1) + x2) + x3) + x4), x5, x6);
    lemma_concat_distinct((((((x0 + x1) + x2) + x3) + x4) + x5), x6);
    lemma_ok_concat((((((x0 + x1) + x2) + x3) + x4) + x5), x6, len);
    lemma_literal_headed_apart(x0, 0, 15, x7, "mission_save.best_times["@, "mission_save.completed["@, 23, 22, len);
    lemma_literal_headed_apart(x1, 15, 16, x7, "mission_save.best_times["@, "mission_save.completed["@, 23, 22, len);
    lemma_apart_concat(x0, x1, x7);
    lemma_literal_headed_apart(x2, 16, 27, x7, "mission_save.best_times["@, "mission_save.completed["@, 23, 22, len);
    lemma_apart_concat((x0 + x1), x2, x7);
    lemma_literal_headed_apart(x3, 27, 34, x7, "mission_save.best_times["@, "mission_save.completed["@, 23, 22, len);
    lemma_apart_concat(((x0 + x1) + x2), x3, x7);
    lemma_literal_headed_apart(x4, 34, 37, x7, "mission_save.best_times["@, "mission_save.completed["@, 23, 22, len);
    lemma_apart_concat((((x0 + x1) + x2) + x3), x4, x7);
    lemma_literal_headed_apart(x5, 37, 50, x7, "mission_save.best_times["@, "mission_save.completed["@, 23, 22, len);
    lemma_apart_concat(((((x0 + x1) + x2) + x3) + x4), x5, x7);
    lemma_headed_apart(x6, "level_save["@, "level_save["@, x7, "mission_save.best_times["@, "mission_save.completed["@, 0, 0, 0, 0);
    lemma_apart_concat((((((x0 + x1) + x2) + x3) + x4) + x5), x6, x7);
    lemma_concat_distinct(((((((x0 + x1) + x2) + x3) + x4) + x5) + x6), x7);
    lemma_ok_concat(((((((x0 + x1) + x2) + x3) + x4) + x5) + x6), x7, len);
    lemma_literal_headed_apart(x0, 0, 15, x8, "character_save["@, "character_save["@, 14, 14, len);
    lemma_literal_headed_apart(x1, 15, 16, x8, "character_save["@, "character_save["@, 14, 14, len);
    lemma_apart_concat(x0, x1, x8);
    lemma_literal_headed_apart(x2, 16, 27, x8, "character_save["@, "character_save["@, 14, 14, len);
    lemma_apart_concat((x0 + x1), x2, x8);
    lemma_literal_headed_apart(x3, 27, 34, x8, "character_save["@, "character_save["@, 14, 14, len);
    lemma_apart_concat(((x0 + x1) + x2), x3, x8);
    lemma_literal_headed_apart(x4, 34, 37, x8, "character_save["@, "character_save["@, 14, 14, len);
    lemma_apart_concat((((x0 + x1) + x2) + x3), x4, x8);
    lemma_literal_headed_apart(x5, 37, 50, x8, "character_save["@, "character_save["@, 14, 14, len);
    lemma_apart_concat(((((x0 + x1) + x2) + x3) + x4), x5, x8);
    lemma_headed_apart(x6, "level_save["@, "level_save["@, x8, "character_save["@, "character_save["@, 0, 0, 0, 0);
    lemma_apart_concat((((((x0 + x1) + x2) + x3) + x4) + x5), x6, x8);
    lemma_headed_apart(x7, "mission_save.best_times["@, "mission_save.completed["@, x8, "character_save["@, "character_save["@, 0, 0, 0, 0);
    lemma_apart_concat(((((((x0 + x1) + x2) + x3) + x4) + x5) + x6), x7, x8);
    lemma_concat_distinct((((((((x0 + x1) + x2) + x3) + x4) + x5) + x6) + x7), x8);
    lemma_ok_concat((((((((x0 + x1) + x2) + x3) + x4) + x5) + x6) + x7), x8, len);
    lemma_literal_headed_apart(x0, 0, 15, x9, "area_save["@, "area_save["@, 9, 9, len);
    lemma_literal_headed_apart(x1, 15, 16, x9, "area_save["@, "area_save["@, 9, 9, len);
    lemma_apart_concat(x0, x1, x9);
    lemma_literal_headed_apart(x2, 16, 27, x9, "area_save["@, "area_save["@, 9, 9, len);
    lemma_apart_concat((x0 + x1), x2, x9);
    lemma_literal_headed_apart(x3, 27, 34, x9, "area_save["@, "area_save["@, 9, 9, len);
    lemma_apart_concat(((x0 + x1) + x2), x3, x9);
    lemma_literal_headed_apart(x4, 34, 37, x9, "area_save["@, "area_save["@, 9, 9, len);
    lemma_apart_concat((((x0 + x1) + x2) + x3), x4, x9);
    lemma_literal_headed_apart(x5, 37, 50, x9, "area_save["@, "area_save["@, 9, 9, len);
    lemma_apart_concat(((((x0 + x1) + x2) + x3) + x4), x5, x9);
    lemma_headed_apart(x6, "level_save["@, "level_save["@, x9, "area_save["@, "area_save["@, 0, 0, 0, 0);
    lemma_apart_concat((((((x0 + x1) + x2) + x3) + x4) + x5), x6, x9);
    lemma_headed_apart(x7, "mission_save.best_times["@, "mission_save.completed["@, x9, "area_save["@, "area_save["@, 0, 0, 0, 0);
    lemma_apart_concat(((((((x0 + x1) + x2) + x3) + x4) + x5) + x6), x7, x9);
    lemma_headed_apart(x8, "character_save["@, "character_save["@, x9, "area_save["@, "area_save["@, 0, 0, 0, 0);
    lemma_apart_concat((((((((x0 + x1) + x2) + x3) + x4) + x5) + x6) + x7), x8, x9);
    lemma_concat_distinct(((((((((x0 + x1) + x2) + x3) + x4) + x5) + x6) + x7) + x8), x9);
    lemma_ok_concat(((((((((x0 + x1) + x2) + x3) + x4) + x5) + x6) + x7) + x8), x9, len);
    lemma_literal_headed_apart(x0, 0, 15, x10, "episode_save["@, "episode_save["@, 12, 12, len);
    lemma_literal_headed_apart(x1, 15, 16, x10, "episode_save["@, "episode_save["@, 12, 12, len);
    lemma_apart_concat(x0, x1, x10);
    lemma_literal_headed_apart(x2, 16, 27, x10, "episode_save["@, "episode_save["@, 12, 12, len);
    lemma_apart_concat((x0 + x1), x2, x10);
    lemma_literal_headed_apart(x3, 27, 34, x10, "episode_save["@, "episode_save["@, 12, 12, len);
    lemma_apart_concat(((x0 + x1) + x2), x3, x10);
    lemma_literal_headed_apart(x4, 34, 37, x10, "episode_save["@, "episode_save["@, 12, 12, len);
    lemma_apart_concat((((x0 + x1) + x2) + x3), x4, x10);
    lemma_literal_headed_apart(x5, 37, 50, x10, "episode_save["@, "episode_save["@, 12, 12, len);
    lemma_apart_concat(((((x0 + x1) + x2) + x3) + x4), x5, x10);
    lemma_headed_apart(x6, "level_save["@, "level_save["@, x10, "episode_save["@, "episode_save["@, 0, 0, 0, 0);
    lemma_apart_concat((((((x0 + x1) + x2) + x3) + x4) + x5), x6, x10);
    lemma_headed_apart(x7, "mission_save.best_times["@, "mission_save.completed["@, x10, "episode_save["@, "episode_save["@, 0, 0, 0, 0);
    lemma_apart_concat(((((((x0 + x1) + x2) + x3) + x4) + x5) + x6), x7, x10);
    lemma_headed_apart(x8, "character_save["@, "character_save["@, x10, "episode_save["@, "episode_save["@, 0, 0, 0, 0);
    lemma_apart_concat((((((((x0 + x1) + x2) + x3) + x4) + x5) + x6) + x7), x8, x10);
    lemma_headed_apart(x9, "area_save["@, "area_save["@, x10, "episode_save["@, "episode_save["@, 0, 0, 0, 0);
    lemma_apart_concat(((((((((x0 + x1) + x2) + x3) + x4) + x5) + x6) + x7) + x8), x9, x10);
    lemma_concat_distinct((((((((((x0 + x1) + x2) + x3) + x4) + x5) + x6) + x7) + x8) + x9), x10);
    lemma_ok_concat((((((((((x0 + x1) + x2) + x3) + x4) + x5) + x6) + x7) + x8) + x9), x10, len);
    lemma_literal_headed_apart(x0, 0, 15, x11, "customizer.pieces["@, "customizer.pieces["@, 17, 17, len);
    lemma_literal_headed_apart(x1, 15, 16, x11, "customizer.pieces["@, "customizer.pieces["@, 17, 17, len);
    lemma_apart_concat(x0, x1, x11);
    lemma_literal_headed_apart(x2, 16, 27, x11, "customizer.pieces["@, "customizer.pieces["@, 17, 17, len);
    lemma_apart_concat((x0 + x1), x2, x11);
    lemma_literal_headed_apart(x3, 27, 34, x11, "customizer.pieces["@, "customizer.pieces["@, 17, 17, len);
    lemma_apart_concat(((x0 + x1) + x2), x3, x11);
    lemma_literal_headed_apart(x4, 34, 37, x11, "customizer.pieces["@, "customizer.pieces["@, 17, 17, len);
    lemma_apart_concat((((x0 + x1) + x2) + x3), x4, x11);
    lemma_literal_headed_apart(x5, 37, 50, x11, "customizer.pieces["@, "customizer.pieces["@, 17, 17, len);
    lemma_apart_concat(((((x0 + x1) + x2) + x3) + x4), x5, x11);
    lemma_headed_apart(x6, "level_save["@, "level_save["@, x11, "customizer.pieces["@, "customizer.pieces["@, 0, 0, 0, 0);
    lemma_apart_concat((((((x0 + x1) + x2) + x3) + x4) + x5), x6, x11);
    lemma_headed_apart(x7, "mission_save.best_times["@, "mission_save.completed["@, x11, "customizer.pieces["@, "customizer.pieces["@, 0, 0, 0, 0);
    lemma_apart_concat(((((((x0 + x1) + x2) + x3) + x4) + x5) + x6), x7, x11);
    lemma_headed_apart(x8, "character_save["@, "character_save["@, x11, "customizer.pieces["@, "customizer.pieces["@, 1, 1, 1, 1);
    lemma_apart_concat((((((((x0 + x1) + x2) + x3) + x4) + x5) + x6) + x7), x8, x11);
    lemma_headed_apart(x9, "area_save["@, "area_save["@, x11, "customizer.pieces["@, "customizer.pieces["@, 0, 0, 0, 0);
    lemma_apart_concat(((((((((x0 + x1) + x2) + x3) + x4) + x5) + x6) + x7) + x8), x9, x11);
    lemma_headed_apart(x10, "episode_save["@, "episode_save["@, x11, "customizer.pieces["@, "customizer.pieces["@, 0, 0, 0, 0);
    lemma_apart_concat((((((((((x0 + x1) + x2) + x3) + x4) + x5) + x6) + x7) + x8) + x9), x10, x11);
    lemma_concat_distinct(((((((((((x0 + x1) + x2) + x3) + x4) + x5) + x6) + x7) + x8) + x9) + x10), x11);
    lemma_ok_concat(((((((((((x0 + x1) + x2) + x3) + x4) + x5) + x6) + x7) + x8) + x9) + x10), x11, len);
    lemma_literal_headed_apart(x0, 0, 15, x12, "customizer.secondary_pieces["@, "customizer.secondary_pieces["@, 27, 27, len);
    lemma_literal_headed_apart(x1, 15, 16, x12, "customizer.secondary_pieces["@, "customizer.secondary_pieces["@, 27, 27, len);
    lemma_apart_concat(x0, x1, x12);
    lemma_literal_headed_apart(x2, 16, 27, x12, "customizer.secondary_pieces["@, "customizer.secondary_pieces["@, 27, 27, len);
    lemma_apart_concat((x0 + x1), x2, x12);
    lemma_literal_headed_apart(x3, 27, 34, x12, "customizer.secondary_pieces["@, "customizer.secondary_pieces["@, 27, 27, len);
    lemma_apart_concat(((x0 + x1) + x2), x3, x12);
    lemma_literal_headed_apart(x4, 34, 37, x12, "customizer.secondary_pieces["@, "customizer.secondary_pieces["@, 27, 27, len);
    lemma_apart_concat((((x0 + x1) + x2) + x3), x4, x12);
    lemma_literal_headed_apart(x5, 37, 50, x12, "customizer.secondary_pieces["@, "customizer.secondary_pieces["@, 27, 27, len);
    lemma_apart_concat(((((x0 + x1) + x2) + x3) + x4), x5, x12);
    lemma_headed_apart(x6, "level_save["@, "level_save["@, x12, "customizer.secondary_pieces["@, "customizer.secondary_pieces["@, 0, 0, 0, 0);
    lemma_apart_concat((((((x0 + x1) + x2) + x3) + x4) + x5), x6, x12);
    lemma_headed_apart(x7, "mission_save.best_times["@, "mission_save.completed["@, x12, "customizer.secondary_pieces["@, "customizer.secondary_pieces["@, 0, 0, 0, 0);
    lemma_apart_concat(((((((x0 + x1) + x2) + x3) + x4) + x5) + x6), x7, x12);
    lemma_headed_apart(x8, "character_save["@, "character_save["@, x12, "customizer.secondary_pieces["@, "customizer.secondary_pieces["@, 1, 1, 1, 1);
    lemma_apart_concat((((((((x0 + x1) + x2) + x3) + x4) + x5) + x6) + x7), x8, x12);
    lemma_headed_apart(x9, "area_save["@, "area_save["@, x12, "customizer.secondary_pieces["@, "customizer.secondary_pieces["@, 0, 0, 0, 0);
    lemma_apart_concat(((((((((x0 + x1) + x2) + x3) + x4) + x5) + x6) + x7) + x8), x9, x12);
    lemma_headed_apart(x10, "episode_save["@, "episode_save["@, x12, "customizer.secondary_pieces["@, "customizer.secondary_pieces["@, 0, 0, 0, 0);
    lemma_apart_concat((((((((((x0 + x1) + x2) + x3) + x4) + x5) + x6) + x7) + x8) + x9), x10, x12);
    lemma_headed_apart(x11, "customizer.pieces["@, "customizer.pieces["@, x12, "customizer.secondary_pieces["@, "customizer.secondary_pieces["@, 11, 11, 11, 11);
    lemma_apart_concat(((((((((((x0 + x1) + x2) + x3) + x4) + x5) + x6) + x7) + x8) + x9) + x10), x11, x12);
    lemma_concat_distinct((((((((((((x0 + x1) + x2) + x3) + x4) + x5) + x6) + x7) + x8) + x9) + x10) + x11), x12);
    lemma_ok_concat((((((((((((x0 + x1) + x2) + x3) + x4) + x5) + x6) + x7) + x8) + x9) + x10) + x11), x12, len);
    lemma_literals_apart(x0, 0, 15, x13, 50, 58, len);
    lemma_literals_apart(x1, 15, 16, x13, 50, 58, len);
    lemma_apart_concat(x0, x1, x13);
    lemma_literals_apart(x2, 16, 27, x13, 50, 58, len);
    lemma_apart_concat((x0 + x1), x2, x13);
    lemma_literals_apart(x3, 27, 34, x13, 50, 58, len);
    lemma_apart_concat(((x0 + x1) + x2), x3, x13);
    lemma_literals_apart(x4, 34, 37, x13, 50, 58, len);
    lemma_apart_concat((((x0 + x1) + x2) + x3), x4, x13);
    lemma_literals_apart(x5, 37, 50, x13, 50, 58, len);
    lemma_apart_concat(((((x0 + x1) + x2) + x3) + x4), x5, x13);
    lemma_literal_headed_apart(x13, 50, 58, x6, "level_save["@, "level_save["@, 10, 10, len);
    lemma_apart_concat((((((x0 + x1) + x2) + x3) + x4) + x5), x6, x13);
    lemma_literal_headed_apart(x13, 50, 58, x7, "mission_save.best_times["@, "mission_save.completed["@, 23, 22, len);
    lemma_apart_concat(((((((x0 + x1) + x2) + x3) + x4) + x5) + x6), x7, x13);
    lemma_literal_headed_apart(x13, 50, 58, x8, "character_save["@, "character_save["@, 14, 14, len);
    lemma_apart_concat((((((((x0 + x1) + x2) + x3) + x4) + x5) + x6) + x7), x8, x13);
    lemma_literal_headed_apart(x13, 50, 58, x9, "area_save["@, "area_save["@, 9, 9, len);
    lemma_apart_concat(((((((((x0 + x1) + x2) + x3) + x4) + x5) + x6) + x7) + x8), x9, x13);
    lemma_literal_headed_apart(x13, 50, 58, x10, "episode_save["@, "episode_save["@, 12, 12, len);
    lemma_apart_concat((((((((((x0 + x1) + x2) + x3) + x4) + x5) + x6) + x7) + x8) + x9), x10, x13);
    lemma_literal_headed_apart(x13, 50, 58, x11, "customizer.pieces["@, "customizer.pieces["@, 17, 17, len);
    lemma_apart_concat(((((((((((x0 + x1) + x2) + x3) + x4) + x5) + x6) + x7) + x8) + x9) + x10), x11, x13);
    lemma_literal_headed_apart(x13, 50, 58, x12, "customizer.secondary_pieces["@, "customizer.secondary_pieces["@, 27, 27, len);
    lemma_apart_concat((((((((((((x0 + x1) + x2) + x3) + x4) + x5) + x6) + x7) + x8) + x9) + x10) + x11), x12, x13);
    lemma_concat_distinct(((((((((((((x0 + x1) + x2) + x3) + x4) + x5) + x6) + x7) + x8) + x9) + x10) + x11) + x12), x13);
    lemma_ok_concat(((((((((((((x0 + x1) + x2) + x3) + x4) + x5) + x6) + x7) + x8) + x9) + x10) + x11) + x12), x13, len);
    lemma_literals_apart(x0, 0, 15, x14, 68, 70, len);
    lemma_literals_apart(x1, 15, 16, x14, 68, 70, len);
    lemma_apart_concat(x0, x1, x14);
    lemma_literals_apart(x2, 16, 27, x14, 68, 70, len);
    lemma_apart_concat((x0 + x1), x2, x14);
    lemma_literals_apart(x3, 27, 34, x14, 68, 70, len);
    lemma_apart_concat(((x0 + x1) + x2), x3, x14);
    lemma_literals_apart(x4, 34, 37, x14, 68, 70, len);
    lemma_apart_concat((((x0 + x1) + x2) + x3), x4, x14);
    lemma_literals_apart(x5, 37, 50, x14, 68, 70, len);
    lemma_apart_concat(((((x0 + x1) + x2) + x3) + x4), x5, x14);
    lemma_literal_headed_apart(x14, 68, 70, x6, "level_save["@, "level_save["@, 10, 10, len);
    lemma_apart_concat((((((x0 + x1) + x2) + x3) + x4) + x5), x6, x14);
    lemma_literal_headed_apart(x14, 68, 70, x7, "mission_save.best_times["@, "mission_save.completed["@, 23, 22, len);
    lemma_apart_concat(((((((x0 + x1) + x2) + x3) + x4) + x5) + x6), x7, x14);
    lemma_literal_headed_apart(x14, 68, 70, x8, "character_save["@, "character_save["@, 14, 14, len);
    lemma_apart_concat((((((((x0 + x1) + x2) + x3) + x4) + x5) + x6) + x7), x8, x14);
    lemma_literal_headed_apart(x14, 68, 70, x9, "area_save["@, "area_save["@, 9, 9, len);
    lemma_apart_concat(((((((((x0 + x1) + x2) + x3) + x4) + x5) + x6) + x7) + x8), x9, x14);
    lemma_literal_headed_apart(x14, 68, 70, x10, "episode_save["@, "episode_save["@, 12, 12, len);
    lemma_apart_concat((((((((((x0 + x1) + x2) + x3) + x4) + x5) + x6) + x7) + x8) + x9), x10, x14);
    lemma_literal_headed_apart(x14, 68, 70, x11, "customizer.pieces["@, "customizer.pieces["@, 17, 17, len);
    lemma_apart_concat(((((((((((x0 + x1) + x2) + x3) + x4) + x5) + x6) + x7) + x8) + x9) + x10), x11, x14);
    lemma_literal_headed_apart(x14, 68, 70, x12, "customizer.secondary_pieces["@, "customizer.secondary_pieces["@, 27, 27, len);
    lemma_apart_concat((((((((((((x0 + x1) + x2) + x3) + x4) + x5) + x6) + x7) + x8) + x9) + x10) + x11), x12, x14);
    lemma_literals_apart(x13, 50, 58, x14, 68, 70, len);
    lemma_apart_concat(((((((((((((x0 + x1) + x2) + x3) + x4) + x5) + x6) + x7) + x8) + x9) + x10) + x11) + x12), x13, x14);
    lemma_concat_distinct((((((((((((((x0 + x1) + x2) + x3) + x4) + x5) + x6) + x7) + x8) + x9) + x10) + x11) + x12) + x13), x14);
    lemma_ok_concat((((((((((((((x0 + x1) + x2) + x3) + x4) + x5) + x6) + x7) + x8) + x9) + x10) + x11) + x12) + x13), x14, len);
    assert(crate::schema::named_props(b, sz, len) =~= ((((((((((((((x0 + x1) + x2) + x3) + x4) + x5) + x6) + x7) + x8) + x9) + x10) + x11) + x12) + x13) + x14));
}

proof fn lemma_options_names(b: int, sz: int, len: int)
    requires
        sz == 0x18,
        0x2028 <= b,
        len == b + sz + 8,
    ensures
        distinct_names(crate::schema::named_props(b, sz, len)),
        all_ok(crate::schema::named_props(b, sz, len), len),
        no_byte_names(crate::schema::named_props(b, sz, len)),
{
    let x0 = crate::schema::header_props();
    lemma_header_segment(0, len);
    lemma_literal_no_byte(x0, 0, 15, len);
    let x1 = crate::schema::extra_props(b);
    lemma_extra_segment(b, len);
    lemma_literal_no_byte(x1, 15, 16, len);
    let x2 = crate::schema::super_options_props(b);
    lemma_super_options_segment(b, len);
    lemma_literal_no_byte(x2, 58, 68, len);
    let x3 = tail_props(b, sz, len);
    lemma_tail_segment(b, sz, len);
    lemma_literal_no_byte(x3, 68, 70, len);
    lemma_literals_apart(x0, 0, 15, x1, 15, 16, len);
    lemma_concat_distinct(x0, x1);
    lemma_ok_concat(x0, x1, len);
    lemma_literals_apart(x0, 0, 15, x2, 58, 68, len);
    lemma_literals_apart(x1, 15, 16, x2, 58, 68, len);
    lemma_apart_concat(x0, x1, x2);
    lemma_concat_distinct((x0 + x1), x2);
    lemma_ok_concat((x0 + x1), x2, len);
    lemma_literals_apart(x0, 0, 15, x3, 68, 70, len);
    lemma_literals_apart(x1, 15, 16, x3, 68, 70, len);
    lemma_apart_concat(x0, x1, x3);
    lemma_literals_apart(x2, 58, 68, x3, 68, 70, len);
    lemma_apart_concat((x0 + x1), x2, x3);
    lemma_concat_distinct(((x0 + x1) + x2), x3);
    lemma_ok_concat(((x0 + x1) + x2), x3, len);
    assert(crate::schema::named_props(b, sz, len) =~= (((x0 + x1) + x2) + x3));
}

proof fn lemma_named_apart_bytes(a: Seq<PropView>, u: Seq<PropView>)
    requires
        no_byte_names(a),
        headed(u, "byte["@, "byte["@),
    ensures
        names_apart(a, u),
{
    assert forall|i: int, j: int| 0 <= i < a.len() && 0 <= j < u.len() implies #[trigger] a[i].0 != #[trigger] u[j].0 by {
        assert(!crate::text::starts_with(a[i].0, "byte["@));
        assert(crate::text::starts_with(u[j].0, "byte["@));
    }
}

/// Every property of a save has a name of its own, lies inside the save,
/// has no `=` in its name and is no older name of a property; a property
/// whose name starts with `byte[` is the alias of the byte it names.
pub proof fn law_properties_have_names_of_their_own(payload: int, size: int, len: int)
    requires
        crate::format::supported_payload_size(size),
        crate::format::HEADER_SIZE <= payload,
        len == payload + size + 8,
    ensures
        distinct_names(crate::schema::spec_properties(payload, size, len)),
        forall|k: int| 0 <= k < crate::schema::spec_properties(payload, size, len).len() ==> {
            let f = #[trigger] crate::schema::spec_properties(payload, size, len)[k];
            &&& fits(f, len)
            &&& !has_char(f.0, '=')
            &&& crate::assign::alias(f.0) == f.0
            &&& (crate::text::starts_with(f.0, "byte["@) ==> f == crate::schema::byte_prop(f.1))
        },
{
    let named = crate::schema::named_props(payload, size, len);
    if size == 0x18 {
        lemma_options_names(payload, size, len);
    } else {
        lemma_game_names(payload, size, len);
    }
    let u = crate::schema::uncovered_props(named, len);
    lemma_uncovered(named, len);
    lemma_named_apart_bytes(named, u);
    lemma_concat_distinct(named, u);
    let all = crate::schema::spec_properties(payload, size, len);
    assert(all == named + u);
    assert forall|k: int| 0 <= k < all.len() implies {
        let f = #[trigger] all[k];
        &&& fits(f, len)
        &&& !has_char(f.0, '=')
        &&& crate::assign::alias(f.0) == f.0
        &&& (crate::text::starts_with(f.0, "byte["@) ==> f == crate::schema::byte_prop(f.1))
    } by {
        reveal(prop_ok);
        if k < named.len() {
            assert(all[k] == named[k]);
            assert(prop_ok(named[k], len));
            assert(!crate::text::starts_with(named[k].0, "byte["@));
        } else {
            assert(all[k] == u[k - named.len()]);
            assert(prop_ok(u[k - named.len()], len));
        }
    }
}
}

