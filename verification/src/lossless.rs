//! The raw listing as a parameter file: its assignments, applied in order to
//! any save of the same layout, give back the listed save byte for byte.
use vstd::prelude::*;
use crate::schema::{Kind, PropView, covered, covers};
use crate::parse::le_value;
use crate::format::{SaveKind, u32_le_bytes};
use crate::roundtrip::{listed_value, awkward_float_lines, has_char};
use crate::rawlist::float_plain;
use crate::assign::{spec_assign, ErrorView};
use crate::spec_apply_all;

verus! {

/// The four little-endian bytes of the value read from four bytes are those bytes.
proof fn lemma_four_bytes(d: Seq<u8>)
    requires
        d.len() == 4,
    ensures
        le_value(d) < 0x1_0000_0000,
        u32_le_bytes(le_value(d) as int) == d,
{
    crate::roundtrip::lemma_le_value_small(d);
    let a = d[0];
    let b = d[1];
    let c = d[2];
    let e = d[3];
    let v = a as int + 256 * b as int + 65536 * c as int + 16777216 * e as int;
    assert((a as u32 + 256 * (b as u32) + 65536 * (c as u32) + 16777216 * (e as u32)) % 256 == a
        && (a as u32 + 256 * (b as u32) + 65536 * (c as u32) + 16777216 * (e as u32)) / 256 % 256 == b
        && (a as u32 + 256 * (b as u32) + 65536 * (c as u32) + 16777216 * (e as u32)) / 65536 % 256 == c
        && (a as u32 + 256 * (b as u32) + 65536 * (c as u32) + 16777216 * (e as u32)) / 16777216 % 256 == e) by (bit_vector);
    assert(u32_le_bytes(v) =~= d);
}

/// Applying a list of assignments and then another is applying both lists in turn.
pub proof fn lemma_apply_concat(
    bytes: Seq<u8>,
    kind: SaveKind,
    fields: Seq<PropView>,
    shop: Seq<Seq<char>>,
    a: Seq<Seq<char>>,
    fa: Seq<Option<u32>>,
    b: Seq<Seq<char>>,
    fb: Seq<Option<u32>>,
)
    requires
        fa.len() == a.len(),
        fb.len() == b.len(),
    ensures
        spec_apply_all(bytes, kind, fields, shop, a + b, fa + fb) == match spec_apply_all(bytes, kind, fields, shop, a, fa) {
            Err(e) => Err(e),
            Ok(m) => spec_apply_all(m, kind, fields, shop, b, fb),
        },
    decreases b.len(),
{
    lemma_apply_prefix_floats(bytes, kind, fields, shop, a, fa, fb);
    if b.len() == 0 {
        assert(a + b =~= a);
    } else {
        let b2 = b.drop_last();
        let fb2 = fb.drop_last();
        lemma_apply_concat(bytes, kind, fields, shop, a, fa, b2, fb2);
        assert((a + b).drop_last() =~= a + b2);
        assert((a + b).last() == b.last());
        assert((fa + fb)[(a + b).len() - 1] == fb[b.len() - 1]);
        lemma_apply_prefix_floats(bytes, kind, fields, shop, a + b2, fa + fb2, seq![fb.last()]);
        assert(fa + fb2 + seq![fb.last()] =~= fa + fb);
        match spec_apply_all(bytes, kind, fields, shop, a, fa) {
            Err(e) => {},
            Ok(m) => {
                lemma_apply_prefix_floats(m, kind, fields, shop, b2, fb2, seq![fb.last()]);
                assert(fb2 + seq![fb.last()] =~= fb);
            },
        }
    }
}

/// Only the first `a.len()` float entries matter to a list of assignments.
proof fn lemma_apply_prefix_floats(
    bytes: Seq<u8>,
    kind: SaveKind,
    fields: Seq<PropView>,
    shop: Seq<Seq<char>>,
    a: Seq<Seq<char>>,
    fa: Seq<Option<u32>>,
    more: Seq<Option<u32>>,
)
    requires
        fa.len() == a.len(),
    ensures
        spec_apply_all(bytes, kind, fields, shop, a, fa + more) == spec_apply_all(bytes, kind, fields, shop, a, fa),
    decreases a.len(),
{
    if a.len() > 0 {
        lemma_apply_prefix_floats(bytes, kind, fields, shop, a.drop_last(), fa.drop_last(), more);
        lemma_apply_prefix_floats(bytes, kind, fields, shop, a.drop_last(), fa.drop_last(), seq![fa.last()] + more);
        assert(fa.drop_last() + (seq![fa.last()] + more) =~= fa + more);
        assert(fa.drop_last() + seq![fa.last()] =~= fa);
        lemma_apply_prefix_floats(bytes, kind, fields, shop, a.drop_last(), fa.drop_last(), seq![fa.last()]);
        assert((fa + more)[a.len() - 1] == fa[a.len() - 1]);
    }
}


/// Whether property `k` of a listing of `bytes` reads back as its own bytes:
/// it fits the save, is the first property of its name, its name is no older
/// alias and holds no `=`; a mask of shop entries names each set bit
/// uniquely; a signed property with named values is not negative; and the
/// `byte[N]` names of a float's bytes, when listed, are those bytes' aliases.
#[verifier::opaque]
pub open spec fn reads_back(bytes: Seq<u8>, kind: SaveKind, fields: Seq<PropView>, shop: Seq<Seq<char>>, k: int) -> bool {
    let f = fields[k];
    let data = bytes.subrange(f.1, f.1 + f.2);
    &&& crate::rawlist::listable(f, bytes.len() as int)
    &&& crate::assign::find_field(fields, f.0) == Some(k)
    &&& crate::assign::alias(f.0) == f.0
    &&& !has_char(f.0, '=')
    &&& (f.3 is Bitmask && f.0 == "shop_character_purchased_bits"@ ==> crate::roundtrip::mask_listable(
        crate::values::spec_bit_names(kind, f.0, f.2, shop),
        data,
    ))
    &&& (f.3 is Signed && crate::values::spec_enum_values(f.0).0.len() > 0 ==> crate::rawlist::sign_extend(le_value(data) as int, f.2) >= 0)
    &&& (f.3 is Float ==> forall|i: int| 0 <= i < 4 ==> (#[trigger] crate::assign::find_field(fields, crate::locality::byte_name((f.1 + i) as nat)) matches Some(j)
        ==> fields[j] == (crate::locality::byte_name((f.1 + i) as nat), f.1 + i, 1int, Kind::Unsigned)))
}

/// The assignments a property's block of the raw listing holds, in order:
/// one `name=value` line, or, for a float whose bits are not plain, the zero
/// line and one `byte[N]=v` line per byte.
pub open spec fn block_assignments(kind: SaveKind, shop: Seq<Seq<char>>, bytes: Seq<u8>, f: PropView, float_text: Seq<char>) -> Seq<Seq<char>> {
    let data = bytes.subrange(f.1, f.1 + f.2);
    if f.3 is Float && !float_plain(le_value(data) as int) {
        awkward_float_lines(f, data)
    } else {
        seq![f.0 + "="@ + listed_value(kind, shop, bytes, f, float_text)]
    }
}

/// The float each of those assignments is read as: the stored bits of a
/// plain float, zero for the zero line of another float, none for the rest.
pub open spec fn block_floats(bytes: Seq<u8>, f: PropView) -> Seq<Option<u32>> {
    let data = bytes.subrange(f.1, f.1 + f.2);
    if f.3 is Float {
        if float_plain(le_value(data) as int) {
            seq![Some(le_value(data) as u32)]
        } else {
            seq![Some(0u32)] + Seq::new(4, |i: int| None::<u32>)
        }
    } else {
        seq![None::<u32>]
    }
}

/// A float assignment stores the finite bits it is read as, whatever its text.
#[verifier::spinoff_prover]
#[verifier::rlimit(60)]
proof fn lemma_float_line(
    t: Seq<u8>,
    kind: SaveKind,
    fields: Seq<PropView>,
    shop: Seq<Seq<char>>,
    k: int,
    value: Seq<char>,
    bits: u32,
)
    requires
        crate::assign::finite_bits(bits),
        0 <= k < fields.len(),
        crate::rawlist::listable(fields[k], t.len() as int),
        fields[k].3 is Float,
        crate::assign::find_field(fields, fields[k].0) == Some(k),
        crate::assign::alias(fields[k].0) == fields[k].0,
        !has_char(fields[k].0, '='),
    ensures
        spec_assign(t, kind, fields, shop, fields[k].0 + "="@ + value, Some(bits))
            == Ok::<Seq<u8>, ErrorView>(t.take(fields[k].1) + u32_le_bytes(bits as int) + t.skip(fields[k].1 + 4)),
{
    crate::roundtrip::lemma_split_assignment(fields[k].0, value);
    crate::roundtrip::lemma_resolve_listed(fields, t.len() as int, k);
    reveal(spec_assign);
}

/// One assignment applied to a save.
proof fn lemma_apply_one(bytes: Seq<u8>, kind: SaveKind, fields: Seq<PropView>, shop: Seq<Seq<char>>, a: Seq<char>, f: Option<u32>)
    ensures
        spec_apply_all(bytes, kind, fields, shop, seq![a], seq![f]) == spec_assign(bytes, kind, fields, shop, a, f),
{
    assert(seq![a].drop_last() =~= Seq::<Seq<char>>::empty());
    assert(spec_apply_all(bytes, kind, fields, shop, Seq::<Seq<char>>::empty(), seq![f]) == Ok::<Seq<u8>, ErrorView>(bytes));
    assert(seq![a].last() == a);
    assert(seq![f][0] == f);
}

/// A property's block, applied to a save of the listed size, stores the
/// property's listed bytes and nothing else.
#[verifier::spinoff_prover]
pub proof fn lemma_block_stores(
    t: Seq<u8>,
    bytes: Seq<u8>,
    kind: SaveKind,
    fields: Seq<PropView>,
    shop: Seq<Seq<char>>,
    k: int,
    float_text: Seq<char>,
)
    requires
        t.len() == bytes.len(),
        bytes.len() <= usize::MAX,
        0 <= k < fields.len(),
        reads_back(bytes, kind, fields, shop, k),
    ensures
        block_assignments(kind, shop, bytes, fields[k], float_text).len() == block_floats(bytes, fields[k]).len(),
        spec_apply_all(t, kind, fields, shop, block_assignments(kind, shop, bytes, fields[k], float_text), block_floats(bytes, fields[k]))
            == Ok::<Seq<u8>, ErrorView>(t.take(fields[k].1) + bytes.subrange(fields[k].1, fields[k].1 + fields[k].2) + t.skip(fields[k].1 + fields[k].2)),
{
    reveal(reads_back);
    let f = fields[k];
    let data = bytes.subrange(f.1, f.1 + f.2);
    if f.3 is Float {
        assert(f.2 == 4);
        if float_plain(le_value(data) as int) {
            reveal(listed_value);
            lemma_four_bytes(data);
            assert(crate::assign::finite_bits(le_value(data) as u32));
            lemma_float_line(t, kind, fields, shop, k, float_text, le_value(data) as u32);
            lemma_apply_one(t, kind, fields, shop, f.0 + "="@ + float_text, Some(le_value(data) as u32));
            assert(listed_value(kind, shop, bytes, f, float_text) == float_text);
        } else {
            crate::roundtrip::lemma_apply_awkward(t, kind, fields, shop, k, data, 0);
        }
    } else {
        crate::roundtrip::law_listing_assigns_back(bytes, t, kind, fields, shop, k);
        reveal(listed_value);
        assert(listed_value(kind, shop, bytes, f, float_text) == listed_value(kind, shop, bytes, f, seq![]));
        lemma_apply_one(t, kind, fields, shop, f.0 + "="@ + listed_value(kind, shop, bytes, f, float_text), None);
    }
}

/// The assignments of the blocks of the first `n` properties, in order.
pub open spec fn listing_assignments(kind: SaveKind, shop: Seq<Seq<char>>, bytes: Seq<u8>, fields: Seq<PropView>, floats: Seq<Seq<char>>, n: int) -> Seq<Seq<char>>
    decreases n,
{
    if n <= 0 {
        seq![]
    } else {
        listing_assignments(kind, shop, bytes, fields, floats, n - 1) + block_assignments(kind, shop, bytes, fields[n - 1], floats[n - 1])
    }
}

/// The floats those assignments are read as, in order.
pub open spec fn listing_floats(bytes: Seq<u8>, fields: Seq<PropView>, n: int) -> Seq<Option<u32>>
    decreases n,
{
    if n <= 0 {
        seq![]
    } else {
        listing_floats(bytes, fields, n - 1) + block_floats(bytes, fields[n - 1])
    }
}

/// `target` with every byte that one of the first `n` properties covers taken from `bytes`.
pub open spec fn partly_listed(target: Seq<u8>, bytes: Seq<u8>, fields: Seq<PropView>, n: int) -> Seq<u8> {
    Seq::new(target.len(), |j: int| if covered(fields.take(n), j) { bytes[j] } else { target[j] })
}

/// Storing property `n - 1`'s bytes into the save that holds the first
/// `n - 1` properties' bytes gives the save that holds the first `n`.
#[verifier::spinoff_prover]
proof fn lemma_partly_listed_step(target: Seq<u8>, bytes: Seq<u8>, fields: Seq<PropView>, n: int)
    requires
        target.len() == bytes.len(),
        0 < n <= fields.len(),
        crate::schema::fits(fields[n - 1], bytes.len() as int),
    ensures
        ({
            let prev = partly_listed(target, bytes, fields, n - 1);
            let f = fields[n - 1];
            prev.take(f.1) + bytes.subrange(f.1, f.1 + f.2) + prev.skip(f.1 + f.2) == partly_listed(target, bytes, fields, n)
        }),
{
    let prev = partly_listed(target, bytes, fields, n - 1);
    let f = fields[n - 1];
    let stored = prev.take(f.1) + bytes.subrange(f.1, f.1 + f.2) + prev.skip(f.1 + f.2);
    let next = partly_listed(target, bytes, fields, n);
    assert forall|j: int| 0 <= j < target.len() implies #[trigger] stored[j] == next[j] by {
        if covers(f, j) {
            assert(fields.take(n)[n - 1] == f);
            assert(covered(fields.take(n), j));
        } else {
            if covered(fields.take(n), j) {
                let w = choose|w: int| 0 <= w < fields.take(n).len() && covers(#[trigger] fields.take(n)[w], j);
                assert(w != n - 1);
                assert(fields.take(n - 1)[w] == fields.take(n)[w]);
                assert(covered(fields.take(n - 1), j));
            } else if covered(fields.take(n - 1), j) {
                let w = choose|w: int| 0 <= w < fields.take(n - 1).len() && covers(#[trigger] fields.take(n - 1)[w], j);
                assert(fields.take(n - 1)[w] == fields.take(n)[w]);
                assert(covered(fields.take(n), j));
            }
        }
    }
    assert(stored =~= next);
}

#[verifier::spinoff_prover]
proof fn lemma_listing_prefix(
    target: Seq<u8>,
    bytes: Seq<u8>,
    kind: SaveKind,
    fields: Seq<PropView>,
    shop: Seq<Seq<char>>,
    floats: Seq<Seq<char>>,
    n: int,
)
    requires
        target.len() == bytes.len(),
        bytes.len() <= usize::MAX,
        0 <= n <= fields.len(),
        floats.len() == fields.len(),
        forall|k: int| 0 <= k < fields.len() ==> #[trigger] reads_back(bytes, kind, fields, shop, k),
    ensures
        listing_assignments(kind, shop, bytes, fields, floats, n).len() == listing_floats(bytes, fields, n).len(),
        spec_apply_all(target, kind, fields, shop, listing_assignments(kind, shop, bytes, fields, floats, n), listing_floats(bytes, fields, n))
            == Ok::<Seq<u8>, ErrorView>(partly_listed(target, bytes, fields, n)),
    decreases n,
{
    if n == 0 {
        assert(partly_listed(target, bytes, fields, 0) =~= target);
    } else {
        lemma_listing_prefix(target, bytes, kind, fields, shop, floats, n - 1);
        let prev = partly_listed(target, bytes, fields, n - 1);
        let f = fields[n - 1];
        assert(reads_back(bytes, kind, fields, shop, n - 1));
        assert(crate::schema::fits(f, bytes.len() as int)) by {
            reveal(reads_back);
        }
        lemma_block_stores(prev, bytes, kind, fields, shop, n - 1, floats[n - 1]);
        lemma_apply_concat(
            target, kind, fields, shop,
            listing_assignments(kind, shop, bytes, fields, floats, n - 1),
            listing_floats(bytes, fields, n - 1),
            block_assignments(kind, shop, bytes, f, floats[n - 1]),
            block_floats(bytes, f),
        );
        lemma_partly_listed_step(target, bytes, fields, n);
    }
}

/// The raw listing of a save is a lossless parameter file: unfiltered, its
/// blocks are each property's comment (empty or starting with `#`) followed
/// by the property's assignments one per line, and those assignments,
/// block by block in listing order, each float line read as the float it
/// lists (for a plain float, its stored value, which its display text gives
/// back; for any other float, the zero line as zero), applied to any
/// save of the same size, give back the listed save byte for byte, opaque
/// bytes, derived words and awkward floats included.  It holds when every
/// byte of the save is covered by a listed property and each property reads
/// back as its own bytes (`reads_back`).
#[verifier::spinoff_prover]
pub proof fn law_listing_is_lossless(
    target: Seq<u8>,
    bytes: Seq<u8>,
    kind: SaveKind,
    fields: Seq<PropView>,
    shop: Seq<Seq<char>>,
    floats: Seq<Seq<char>>,
)
    requires
        target.len() == bytes.len(),
        bytes.len() <= usize::MAX,
        floats.len() == fields.len(),
        forall|k: int| 0 <= k < fields.len() ==> #[trigger] reads_back(bytes, kind, fields, shop, k),
        forall|j: int| 0 <= j < bytes.len() ==> #[trigger] covered(fields, j),
    ensures
        spec_apply_all(
            target,
            kind,
            fields,
            shop,
            listing_assignments(kind, shop, bytes, fields, floats, fields.len() as int),
            listing_floats(bytes, fields, fields.len() as int),
        ) == Ok::<Seq<u8>, ErrorView>(bytes),
        crate::rawlist::raw_blocks(kind, shop, bytes, fields, floats, Seq::empty(), fields.len() as int)
            == listing_text(kind, shop, bytes, fields, floats, fields.len() as int),
{
    assert(crate::schema::all_fit(fields, bytes.len() as int)) by {
        assert forall|k: int| 0 <= k < fields.len() implies crate::schema::fits(#[trigger] fields[k], bytes.len() as int) by {
            assert(reads_back(bytes, kind, fields, shop, k));
            reveal(reads_back);
        }
    }
    lemma_listing_text(kind, shop, bytes, fields, floats, fields.len() as int);
    lemma_listing_prefix(target, bytes, kind, fields, shop, floats, fields.len() as int);
    assert(fields.take(fields.len() as int) =~= fields);
    assert(partly_listed(target, bytes, fields, fields.len() as int) =~= bytes);
}

/// The comment lines a property's block starts with: the bits of a wide
/// mask, the bytes and set bits of an integer with named values, or nothing.
pub open spec fn block_comment(kind: SaveKind, shop: Seq<Seq<char>>, bytes: Seq<u8>, f: PropView) -> Seq<char> {
    let data = bytes.subrange(f.1, f.1 + f.2);
    if f.3 is Bitmask {
        "# "@ + f.0 + ": "@ + crate::rawlist::mask_hex(data) + "; set bits:"@ + crate::rawlist::set_listing(
            crate::rawlist::set_bits(data, f.2 * 8),
            crate::values::spec_bit_names(kind, f.0, f.2, shop),
        ) + "\n"@
    } else {
        let (values, flags) = crate::values::spec_enum_values(f.0);
        crate::rawlist::enum_header(data, f, values, flags)
    }
}

/// The comment of a block is empty or starts with `#`.
proof fn lemma_comment_start(kind: SaveKind, shop: Seq<Seq<char>>, bytes: Seq<u8>, f: PropView)
    ensures
        block_comment(kind, shop, bytes, f).len() == 0 || block_comment(kind, shop, bytes, f)[0] == '#',
{
    reveal_strlit("# ");
    let c = block_comment(kind, shop, bytes, f);
    if c.len() > 0 {
        assert(c[0] == '#');
    }
}

/// The block of a float whose bits are not plain: its comment, the zero
/// line and its byte lines.
#[verifier::spinoff_prover]
#[verifier::rlimit(60)]
proof fn lemma_awkward_block_text(kind: SaveKind, shop: Seq<Seq<char>>, bytes: Seq<u8>, f: PropView, float_text: Seq<char>)
    requires
        crate::schema::fits(f, bytes.len() as int),
        f.3 is Float,
        !float_plain(le_value(bytes.subrange(f.1, f.1 + f.2)) as int),
    ensures
        crate::rawlist::field_block(kind, shop, bytes, f, float_text)
            == block_comment(kind, shop, bytes, f) + crate::rawlist::join(block_assignments(kind, shop, bytes, f, float_text), "\n"@) + "\n"@,
{
    let data = bytes.subrange(f.1, f.1 + f.2);
    let c = block_comment(kind, shop, bytes, f);
    reveal_strlit("=0");
    reveal_strlit("=");
    reveal_strlit("0\n");
    reveal_strlit("\n");
    reveal_strlit("byte[");
    reveal_strlit("]=");
    reveal_strlit("]");
    let bl = Seq::new(data.len(), |i: int| crate::locality::byte_name((f.1 + i) as nat) + "="@ + crate::text::decimal(data[i] as nat));
    assert(awkward_float_lines(f, data) =~= seq![f.0 + "=0"@] + bl);
    assert forall|i: int| 0 <= i < data.len() implies #[trigger] bl[i] == "byte["@ + crate::text::decimal((f.1 + i) as nat) + "]="@ + crate::text::decimal(data[i] as nat) by {
        assert(bl[i] =~= "byte["@ + crate::text::decimal((f.1 + i) as nat) + "]="@ + crate::text::decimal(data[i] as nat));
    }
    assert(bl =~= Seq::new(data.len(), |i: int| "byte["@ + crate::text::decimal((f.1 + i) as nat) + "]="@ + crate::text::decimal(data[i] as nat)));
    assert(bl.len() > 0);
    crate::roundtrip::lemma_join_first(f.0 + "=0"@, bl, "\n"@);
    let v = "0\n"@ + crate::rawlist::byte_lines(f.1, data);
    assert(f.0 + "=0"@ + "\n"@ + crate::rawlist::join(bl, "\n"@) =~= f.0 + "="@ + v);
    assert(crate::rawlist::field_block(kind, shop, bytes, f, float_text) == c + f.0 + "="@ + v + "\n"@);
    assert(c + f.0 + "="@ + v + "\n"@ =~= c + (f.0 + "="@ + v) + "\n"@);
}

/// A property's block of the raw listing is its comment, then its
/// assignments one per line; the comment is empty or starts with `#`.
#[verifier::spinoff_prover]
pub proof fn lemma_block_text(kind: SaveKind, shop: Seq<Seq<char>>, bytes: Seq<u8>, f: PropView, float_text: Seq<char>)
    requires
        crate::schema::fits(f, bytes.len() as int),
    ensures
        crate::rawlist::field_block(kind, shop, bytes, f, float_text)
            == block_comment(kind, shop, bytes, f) + crate::rawlist::join(block_assignments(kind, shop, bytes, f, float_text), "\n"@) + "\n"@,
        block_comment(kind, shop, bytes, f).len() == 0 || block_comment(kind, shop, bytes, f)[0] == '#',
{
    lemma_comment_start(kind, shop, bytes, f);
    let data = bytes.subrange(f.1, f.1 + f.2);
    if f.3 is Float && !float_plain(le_value(data) as int) {
        lemma_awkward_block_text(kind, shop, bytes, f, float_text);
    } else {
        let c = block_comment(kind, shop, bytes, f);
        let a = f.0 + "="@ + listed_value(kind, shop, bytes, f, float_text);
        assert(block_assignments(kind, shop, bytes, f, float_text) == seq![a]);
        assert(crate::rawlist::join(seq![a], "\n"@) == a);
        lemma_listed_comment(kind, shop, bytes, f, float_text);
    }
}

/// The comment `lemma_listed_line` finds is the block's comment.
proof fn lemma_listed_comment(kind: SaveKind, shop: Seq<Seq<char>>, bytes: Seq<u8>, f: PropView, float_text: Seq<char>)
    requires
        !(f.3 is Float && !float_plain(le_value(bytes.subrange(f.1, f.1 + f.2)) as int)),
    ensures
        crate::rawlist::field_block(kind, shop, bytes, f, float_text)
            == block_comment(kind, shop, bytes, f) + (f.0 + "="@ + listed_value(kind, shop, bytes, f, float_text)) + "\n"@,
{
    reveal(listed_value);
    let data = bytes.subrange(f.1, f.1 + f.2);
    let c = block_comment(kind, shop, bytes, f);
    let v = listed_value(kind, shop, bytes, f, float_text);
    assert(crate::rawlist::field_block(kind, shop, bytes, f, float_text) =~= c + (f.0 + "="@ + v) + "\n"@);
}

/// The blocks of the first `n` properties, each its comment then its
/// assignments one per line.
pub open spec fn listing_text(kind: SaveKind, shop: Seq<Seq<char>>, bytes: Seq<u8>, fields: Seq<PropView>, floats: Seq<Seq<char>>, n: int) -> Seq<char>
    decreases n,
{
    if n <= 0 {
        seq![]
    } else {
        listing_text(kind, shop, bytes, fields, floats, n - 1) + block_comment(kind, shop, bytes, fields[n - 1])
            + crate::rawlist::join(block_assignments(kind, shop, bytes, fields[n - 1], floats[n - 1]), "\n"@) + "\n"@
    }
}

/// Unfiltered, the blocks of the raw listing are those of every property.
#[verifier::spinoff_prover]
#[verifier::rlimit(50)]
pub proof fn lemma_listing_text(kind: SaveKind, shop: Seq<Seq<char>>, bytes: Seq<u8>, fields: Seq<PropView>, floats: Seq<Seq<char>>, n: int)
    requires
        0 <= n <= fields.len(),
        floats.len() == fields.len(),
        crate::schema::all_fit(fields, bytes.len() as int),
    ensures
        crate::rawlist::raw_blocks(kind, shop, bytes, fields, floats, Seq::empty(), n) == listing_text(kind, shop, bytes, fields, floats, n),
    decreases n,
{
    if n > 0 {
        lemma_listing_text(kind, shop, bytes, fields, floats, n - 1);
        let name = fields[n - 1].0;
        let e = Seq::<char>::empty();
        assert(name.subrange(0, 0 + e.len() as int) =~= e);
        assert(crate::text::contains_seq(name, Seq::empty()));
        assert(crate::schema::fits(fields[n - 1], bytes.len() as int));
        lemma_block_text(kind, shop, bytes, fields[n - 1], floats[n - 1]);
    }
}

/// Every byte of a save is covered by one of its properties: by a named
/// field, or else by its `byte[N]` alias.
pub proof fn law_properties_cover_every_byte(payload: int, size: int, len: int, j: int)
    requires
        0 <= j < len,
    ensures
        covered(crate::schema::spec_properties(payload, size, len), j),
{
    let named = crate::schema::named_props(payload, size, len);
    let all = crate::schema::spec_properties(payload, size, len);
    let un = crate::schema::uncovered_props(named, len);
    assert(all == named + un);
    if covered(named, j) {
        let k = choose|k: int| 0 <= k < named.len() && covers(#[trigger] named[k], j);
        assert(all[k] == named[k]);
    } else {
        let ids = Seq::new(len as nat, |x: int| x);
        let pred = |x: int| !covered(named, x);
        assert(ids[j] == j);
        assert(ids.contains(j));
        ids.lemma_filter_contains_rev(pred, j);
        let fl = ids.filter(pred);
        assert(fl.contains(j));
        let idx = choose|idx: int| 0 <= idx < fl.len() && fl[idx] == j;
        assert(un =~= fl.map_values(|x: int| crate::schema::byte_prop(x)));
        assert(un[idx] == crate::schema::byte_prop(j));
        assert(all[named.len() + idx] == un[idx]);
        assert(covers(all[named.len() + idx], j));
    }
}

/// Following an older name twice gives what following it once gives.
proof fn lemma_alias_canonical(a: Seq<char>)
    ensures
        crate::assign::alias(crate::assign::alias(a)) == crate::assign::alias(a),
{
    reveal_strlit("save_version");
    reveal_strlit("difficulty");
    reveal_strlit("field30_0x7c2c");
    reveal_strlit("field30_0x7c20");
    reveal_strlit("gameplay_seconds");
    reveal_strlit("initial_store_pack_flags");
    reveal_strlit("suit_flags");
    reveal_strlit("field_0x7bf8");
    reveal_strlit("shop_gold_brick_purchased_bits");
    reveal_strlit("customizer.primary_name_unlocked");
    reveal_strlit("customizer.primary_use_saved_name");
    reveal_strlit("customizer.secondary_name_unlocked");
    reveal_strlit("customizer.secondary_use_saved_name");
}

/// An older property name edits exactly what its current name edits: the
/// two assignments with the same value succeed together and then store the
/// same bytes.
pub proof fn law_alias_edits_as_canonical(
    bytes: Seq<u8>,
    kind: SaveKind,
    fields: Seq<PropView>,
    shop: Seq<Seq<char>>,
    a: Seq<char>,
    value: Seq<char>,
    float: Option<u32>,
)
    requires
        !has_char(a, '='),
        !has_char(crate::assign::alias(a), '='),
    ensures
        (spec_assign(bytes, kind, fields, shop, a + "="@ + value, float) is Ok)
            == (spec_assign(bytes, kind, fields, shop, crate::assign::alias(a) + "="@ + value, float) is Ok),
        spec_assign(bytes, kind, fields, shop, a + "="@ + value, float) is Ok ==> spec_assign(bytes, kind, fields, shop, a + "="@ + value, float)
            == spec_assign(bytes, kind, fields, shop, crate::assign::alias(a) + "="@ + value, float),
{
    lemma_alias_canonical(a);
    crate::roundtrip::lemma_split_assignment(a, value);
    crate::roundtrip::lemma_split_assignment(crate::assign::alias(a), value);
    reveal(spec_assign);
}

/// The properties of a save read back through its raw listing: each is the
/// first of its name, lies in the save, has no `=` in its name and no older
/// name, and a float's bytes are listed under no other property, given that
/// the release's shop-entry names are distinct, none is `NONE`, holds `|` or
/// is written like `BIT_n`, and that no signed property with named values
/// holds a negative value.
pub proof fn law_save_properties_read_back(s: crate::format::Save, shop: Seq<Seq<char>>)
    requires
        s.has_layout(),
        ({
            let fields = crate::schema::spec_properties(s.payload as int, s.payload_size as int, s.bytes@.len() as int);
            &&& crate::tables::shop_names_read_back(shop)
            &&& forall|k: int| 0 <= k < fields.len() && (#[trigger] fields[k]).3 is Signed && crate::values::spec_enum_values(fields[k].0).0.len() > 0
                ==> crate::rawlist::sign_extend(le_value(s.bytes@.subrange(fields[k].1, fields[k].1 + fields[k].2)) as int, fields[k].2) >= 0
        }),
    ensures
        forall|k: int| 0 <= k < crate::schema::spec_properties(s.payload as int, s.payload_size as int, s.bytes@.len() as int).len()
            ==> #[trigger] reads_back(s.bytes@, s.spec_kind(), crate::schema::spec_properties(s.payload as int, s.payload_size as int, s.bytes@.len() as int), shop, k),
{
    let len = s.bytes@.len() as int;
    let fields = crate::schema::spec_properties(s.payload as int, s.payload_size as int, len);
    crate::schema_laws::law_properties_have_names_of_their_own(s.payload as int, s.payload_size as int, len);
    assert forall|k: int| 0 <= k < fields.len() implies #[trigger] reads_back(s.bytes@, s.spec_kind(), fields, shop, k) by {
        reveal(reads_back);
        let f = fields[k];
        crate::schema_laws::lemma_first_of_name(fields, k);
        assert(crate::schema::fits(f, len));
        if f.3 is Bitmask && f.0 == "shop_character_purchased_bits"@ {
            let data = s.bytes@.subrange(f.1, f.1 + f.2);
            assert forall|b: int| 0 <= b < 8 * data.len() && crate::rawlist::bit_set(data, b)
                implies #[trigger] crate::roundtrip::bit_name_listable(crate::values::spec_bit_names(s.spec_kind(), f.0, f.2, shop), b) by {
                crate::tables::lemma_shop_bits_read_back(s.spec_kind(), f.2, shop, b);
            }
        }
        if f.3 is Float {
            assert forall|i: int| 0 <= i < 4 implies (#[trigger] crate::assign::find_field(fields, crate::locality::byte_name((f.1 + i) as nat)) matches Some(j)
                ==> fields[j] == (crate::locality::byte_name((f.1 + i) as nat), f.1 + i, 1int, Kind::Unsigned)) by {
                let x = (f.1 + i) as nat;
                let n = crate::locality::byte_name(x);
                if let Some(j) = crate::assign::find_field(fields, n) {
                    assert(0 <= j < fields.len() && fields[j].0 == n);
                    reveal_strlit("byte[");
                    reveal_strlit("]");
                    assert(n.subrange(0, 5) =~= "byte["@);
                    let y = fields[j].1;
                    assert(fields[j] == crate::schema::byte_prop(y));
                    assert(y >= 0);
                    crate::schema_laws::lemma_indexed_eq("byte["@, y as nat, "]"@, x, "]"@);
                }
            }
        }
    }
}

/// The raw listing of any save is a lossless parameter file: unfiltered, its
/// blocks are each property's comment and assignments, and those
/// assignments, applied in order to any save of the same size (each float
/// line read as the float it lists), give back the listed save byte for
/// byte, given that the release's shop-entry names are distinct, none is
/// `NONE`, holds `|` or is written like `BIT_n`, and that no signed property
/// with named values holds a negative value.
pub proof fn law_save_listing_is_lossless(s: crate::format::Save, target: Seq<u8>, shop: Seq<Seq<char>>, floats: Seq<Seq<char>>)
    requires
        s.has_layout(),
        target.len() == s.bytes@.len(),
        s.bytes@.len() <= usize::MAX,
        floats.len() == crate::schema::spec_properties(s.payload as int, s.payload_size as int, s.bytes@.len() as int).len(),
        ({
            let fields = crate::schema::spec_properties(s.payload as int, s.payload_size as int, s.bytes@.len() as int);
            &&& crate::tables::shop_names_read_back(shop)
            &&& forall|k: int| 0 <= k < fields.len() && (#[trigger] fields[k]).3 is Signed && crate::values::spec_enum_values(fields[k].0).0.len() > 0
                ==> crate::rawlist::sign_extend(le_value(s.bytes@.subrange(fields[k].1, fields[k].1 + fields[k].2)) as int, fields[k].2) >= 0
        }),
    ensures
        ({
            let fields = crate::schema::spec_properties(s.payload as int, s.payload_size as int, s.bytes@.len() as int);
            &&& crate::rawlist::raw_blocks(s.spec_kind(), shop, s.bytes@, fields, floats, Seq::empty(), fields.len() as int)
                == listing_text(s.spec_kind(), shop, s.bytes@, fields, floats, fields.len() as int)
            &&& spec_apply_all(
                target,
                s.spec_kind(),
                fields,
                shop,
                listing_assignments(s.spec_kind(), shop, s.bytes@, fields, floats, fields.len() as int),
                listing_floats(s.bytes@, fields, fields.len() as int),
            ) == Ok::<Seq<u8>, ErrorView>(s.bytes@)
        }),
{
    let len = s.bytes@.len() as int;
    let fields = crate::schema::spec_properties(s.payload as int, s.payload_size as int, len);
    law_save_properties_read_back(s, shop);
    assert forall|j: int| 0 <= j < s.bytes@.len() implies #[trigger] covered(fields, j) by {
        law_properties_cover_every_byte(s.payload as int, s.payload_size as int, len, j);
    }
    law_listing_is_lossless(target, s.bytes@, s.spec_kind(), fields, shop, floats);
}

/// An integer property of a save without named values, assigned a decimal
/// value, takes it exactly when it fits the property's width and then
/// stores it in two's complement, little-endian, changing nothing else; a
/// value that does not fit is refused as an invalid value of that property.
/// `-0` is left out, as in `law_integer_values_fit_their_width`.
pub proof fn law_save_integer_assignment(s: crate::format::Save, shop: Seq<Seq<char>>, k: int, n: nat, negative: bool)
    requires
        s.has_layout(),
        0 <= k < crate::schema::spec_properties(s.payload as int, s.payload_size as int, s.bytes@.len() as int).len(),
        ({
            let f = crate::schema::spec_properties(s.payload as int, s.payload_size as int, s.bytes@.len() as int)[k];
            &&& f.3 is Unsigned || f.3 is Signed
            &&& crate::values::spec_enum_values(f.0).0.len() == 0
        }),
        n <= u64::MAX,
        !(negative && n == 0),
    ensures
        ({
            let fields = crate::schema::spec_properties(s.payload as int, s.payload_size as int, s.bytes@.len() as int);
            let f = fields[k];
            let v = if negative { -(n as int) } else { n as int };
            let text = if negative { seq!['-'] + crate::text::decimal(n) } else { crate::text::decimal(n) };
            let signed = f.3 is Signed;
            let lo = if signed { -crate::assign::int_limit(f.2, true) } else { 0 };
            let hi = crate::assign::int_limit(f.2, signed);
            spec_assign(s.bytes@, s.spec_kind(), fields, shop, f.0 + "="@ + text, None)
                == if lo <= v < hi {
                    Ok::<Seq<u8>, ErrorView>(s.bytes@.take(f.1) + crate::roundtrip::twos_complement(v, f.2) + s.bytes@.skip(f.1 + f.2))
                } else {
                    Err::<Seq<u8>, ErrorView>((2nat, f.0, text, crate::assign::spec_expected(f)))
                }
        }),
{
    let len = s.bytes@.len() as int;
    let fields = crate::schema::spec_properties(s.payload as int, s.payload_size as int, len);
    let f = fields[k];
    let text = if negative { seq!['-'] + crate::text::decimal(n) } else { crate::text::decimal(n) };
    crate::schema_laws::law_properties_have_names_of_their_own(s.payload as int, s.payload_size as int, len);
    crate::schema_laws::lemma_first_of_name(fields, k);
    crate::roundtrip::lemma_resolve_listed(fields, len, k);
    crate::roundtrip::lemma_split_assignment(f.0, text);
    crate::roundtrip::law_integer_values_fit_their_width(s.spec_kind(), f, shop, n, negative);
    reveal(spec_assign);
}
}

