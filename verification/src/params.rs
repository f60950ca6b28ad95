//! Parameter files: one assignment per line.
use vstd::prelude::*;
use vstd::utf8::{valid_utf8, decode_utf8};
use crate::names::string_views;

verus! {

/// Splits bytes at every occurrence of `c`: there is always one more piece
/// than occurrences.
pub open spec fn split_bytes(s: Seq<u8>, c: u8) -> Seq<Seq<u8>>
    decreases s.len(),
{
    if s.len() == 0 {
        seq![Seq::empty()]
    } else {
        let p = split_bytes(s.drop_last(), c);
        if s.last() == c {
            p.push(Seq::empty())
        } else {
            p.update(p.len() - 1, p.last().push(s.last()))
        }
    }
}

proof fn lemma_split_bytes_len(s: Seq<u8>, c: u8)
    ensures
        split_bytes(s, c).len() >= 1,
    decreases s.len(),
{
    if s.len() > 0 {
        lemma_split_bytes_len(s.drop_last(), c);
    }
}

/// A line without its trailing carriage return.
pub open spec fn without_cr(line: Seq<u8>) -> Seq<u8> {
    if line.len() > 0 && line.last() == 0x0d { line.drop_last() } else { line }
}

/// Whether a line holds an assignment: it is not empty and does not start with `#`.
pub open spec fn holds_assignment(line: Seq<u8>) -> bool {
    line.len() > 0 && line[0] != 0x23
}

/// The assignment lines of a parameter file, in order.
pub open spec fn assignment_lines(contents: Seq<u8>) -> Seq<Seq<u8>> {
    split_bytes(contents, 0x0a).map_values(|l: Seq<u8>| without_cr(l)).filter(|l: Seq<u8>| holds_assignment(l))
}

/// `String::from_utf8`: the text when the bytes are valid UTF-8, else nothing.
#[verifier::external_body]
fn utf8_text(bytes: Vec<u8>) -> (res: Option<String>)
    ensures
        res is Some <==> valid_utf8(bytes@),
        res matches Some(s) ==> s@ == decode_utf8(bytes@),
{
    String::from_utf8(bytes).ok()
}

/// The assignments of a parameter file: every line split at `\n`, without a
/// trailing `\r`, that is not empty and does not start with `#`; nothing when
/// one of those lines is not UTF-8.
pub fn parameter_lines(contents: &[u8]) -> (res: Option<Vec<String>>)
    ensures
        match res {
            Some(v) => (forall|k: int| 0 <= k < assignment_lines(contents@).len() ==> valid_utf8(#[trigger] assignment_lines(contents@)[k]))
                && string_views(v@) == assignment_lines(contents@).map_values(|l: Seq<u8>| decode_utf8(l)),
            None => exists|k: int| 0 <= k < assignment_lines(contents@).len() && !valid_utf8(#[trigger] assignment_lines(contents@)[k]),
        },
{
    let ghost pieces = split_bytes(contents@, 0x0a);
    let ghost trimmed = pieces.map_values(|l: Seq<u8>| without_cr(l));
    let ghost pred = |l: Seq<u8>| holds_assignment(l);
    let ghost dec = |l: Seq<u8>| decode_utf8(l);
    // Split into lines.
    let mut lines: Vec<Vec<u8>> = Vec::new();
    let mut current: Vec<u8> = Vec::new();
    let mut i: usize = 0;
    assert(contents@.take(0) =~= Seq::<u8>::empty());
    while i < contents.len()
        invariant
            i <= contents@.len(),
            lines@.map_values(|l: Vec<u8>| l@).push(current@) == split_bytes(contents@.take(i as int), 0x0a),
        decreases contents@.len() - i,
    {
        let ghost before = lines@.map_values(|l: Vec<u8>| l@).push(current@);
        assert(contents@.take(i + 1).drop_last() =~= contents@.take(i as int));
        if contents[i] == 0x0a {
            let done = current;
            current = Vec::new();
            lines.push(done);
            assert(lines@.map_values(|l: Vec<u8>| l@).push(current@) =~= before.push(Seq::empty()));
        } else {
            current.push(contents[i]);
            assert(lines@.map_values(|l: Vec<u8>| l@).push(current@) =~= before.update(before.len() - 1, before.last().push(contents@[i as int])));
        }
        i = i + 1;
    }
    assert(contents@.take(i as int) =~= contents@);
    lines.push(current);
    let ghost lv = lines@.map_values(|l: Vec<u8>| l@);
    assert(lv == pieces);
    let mut out: Vec<String> = Vec::new();
    let mut k: usize = 0;
    while k < lines.len()
        invariant
            k <= lines@.len(),
            lv == lines@.map_values(|l: Vec<u8>| l@),
            lv == pieces,
            pieces == split_bytes(contents@, 0x0a),
            trimmed == pieces.map_values(|l: Seq<u8>| without_cr(l)),
            pred == (|l: Seq<u8>| holds_assignment(l)),
            dec == (|l: Seq<u8>| decode_utf8(l)),
            forall|j: int| 0 <= j < trimmed.take(k as int).filter(pred).len() ==> valid_utf8(#[trigger] trimmed.take(k as int).filter(pred)[j]),
            string_views(out@) == trimmed.take(k as int).filter(pred).map_values(dec),
        decreases lines@.len() - k,
    {
        let ghost before = trimmed.take(k as int).filter(pred);
        proof {
            trimmed.take(k as int).lemma_filter_push(trimmed[k as int], pred);
            assert(trimmed.take(k + 1) =~= trimmed.take(k as int).push(trimmed[k as int]));
        }
        let raw = &lines[k];
        assert(raw@ == lv[k as int]);
        let n = raw.len();
        let end = if n > 0 && raw[n - 1] == 0x0d { n - 1 } else { n };
        let line = vstd::slice::slice_subrange(raw.as_slice(), 0, end);
        assert(line@ =~= without_cr(raw@));
        if line.len() > 0 && line[0] != 0x23 {
            let mut owned: Vec<u8> = Vec::new();
            let mut j: usize = 0;
            while j < line.len()
                invariant
                    j <= line@.len(),
                    owned@ == line@.take(j as int),
                decreases line@.len() - j,
            {
                owned.push(line[j]);
                assert(owned@ =~= line@.take(j + 1));
                j = j + 1;
            }
            assert(owned@ =~= line@);
            match utf8_text(owned) {
                Some(text) => {
                    let ghost prev = out@;
                    out.push(text);
                    assert(string_views(out@) =~= string_views(prev).push(text@));
                    assert(before.push(line@).map_values(dec) =~= before.map_values(dec).push(text@));
                },
                None => {
                    proof {
                        assert(trimmed.take(k + 1).filter(pred).last() == line@);
                        lemma_filter_prefix_member(trimmed, k + 1, pred);
                        assert(assignment_lines(contents@) == trimmed.filter(pred));
                        let idx = choose|idx: int| 0 <= idx < trimmed.filter(pred).len() && #[trigger] trimmed.filter(pred)[idx] == trimmed.take(k + 1).filter(pred).last();
                        assert(assignment_lines(contents@)[idx] == line@);
                        assert(!valid_utf8(line@));
                    }
                    return None;
                },
            }
        }
        k = k + 1;
    }
    assert(trimmed.take(k as int) =~= trimmed);
    Some(out)
}

/// The filtered elements of a prefix are elements of the whole filter.
proof fn lemma_filter_prefix_member(s: Seq<Seq<u8>>, n: int, p: spec_fn(Seq<u8>) -> bool)
    requires
        0 <= n <= s.len(),
        s.take(n).filter(p).len() > 0,
    ensures
        exists|k: int| 0 <= k < s.filter(p).len() && #[trigger] s.filter(p)[k] == s.take(n).filter(p).last(),
{
    crate::names::lemma_filter_take_prefix(s, n, p);
    let k = s.take(n).filter(p).len() - 1;
    assert(s.filter(p)[k] == s.take(n).filter(p)[k]);
}

} // verus!
