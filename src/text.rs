use crate::parser::is_space;
use vstd::prelude::*;

verus! {

/// The pieces of a text between line feeds, in order; a text with `k` line
/// feeds has `k + 1` pieces.
pub open spec fn split_lines(s: Seq<u8>) -> Seq<Seq<u8>>
    decreases s.len(),
{
    if s.len() == 0 {
        seq![Seq::empty()]
    } else {
        let ls = split_lines(s.drop_last());
        if s.last() == 10 {
            ls.push(Seq::empty())
        } else {
            ls.update(ls.len() - 1, ls.last().push(s.last()))
        }
    }
}

/// The lines joined, with a line feed between two neighbours.
pub open spec fn join_lines(ls: Seq<Seq<u8>>) -> Seq<u8>
    decreases ls.len(),
{
    if ls.len() == 0 {
        Seq::empty()
    } else if ls.len() == 1 {
        ls[0]
    } else {
        join_lines(ls.drop_last()) + seq![10u8] + ls.last()
    }
}

/// A line without its leading spaces.
pub open spec fn trim_start(l: Seq<u8>) -> Seq<u8>
    decreases l.len(),
{
    if l.len() > 0 && is_space(l[0]) {
        trim_start(l.drop_first())
    } else {
        l
    }
}

/// A line whose first bytes after its leading spaces are `//`.
pub open spec fn is_comment(l: Seq<u8>) -> bool {
    let t = trim_start(l);
    t.len() >= 2 && t[0] == 47 && t[1] == 47
}

/// The lines that are not comments, in order.
pub open spec fn code_lines(ls: Seq<Seq<u8>>) -> Seq<Seq<u8>>
    decreases ls.len(),
{
    if ls.len() == 0 {
        Seq::empty()
    } else if is_comment(ls.last()) {
        code_lines(ls.drop_last())
    } else {
        code_lines(ls.drop_last()).push(ls.last())
    }
}

/// Whether a line is a comment.
pub fn is_comment_line(l: &[u8]) -> (r: bool)
    ensures
        r == is_comment(l@),
{
    let mut i: usize = 0;
    assert(l@.subrange(0, l@.len() as int) =~= l@);
    while i < l.len() && (l[i] == 32 || l[i] == 9 || l[i] == 10 || l[i] == 13)
        invariant
            0 <= i <= l@.len(),
            trim_start(l@) == trim_start(l@.subrange(i as int, l@.len() as int)),
        decreases l@.len() - i,
    {
        let ghost t = l@.subrange(i as int, l@.len() as int);
        assert(t.drop_first() =~= l@.subrange(i + 1, l@.len() as int));
        i += 1;
    }
    let ghost t = l@.subrange(i as int, l@.len() as int);
    assert(trim_start(t) == t);
    l.len() - i >= 2 && l[i] == 47 && l[i + 1] == 47
}

/// Removes the lines whose first bytes after their leading spaces are `//`;
/// the lines kept are joined by line feeds.
pub fn remove_comments(code: &[u8]) -> (r: Vec<u8>)
    ensures
        r@ == join_lines(code_lines(split_lines(code@))),
{
    let mut lines: Vec<Vec<u8>> = Vec::new();
    lines.push(Vec::new());
    let mut i: usize = 0;
    assert(code@.subrange(0, 0) =~= Seq::<u8>::empty());
    assert(lines@.map_values(|v: Vec<u8>| v@) =~= split_lines(Seq::<u8>::empty()));
    while i < code.len()
        invariant
            0 <= i <= code@.len(),
            lines@.len() >= 1,
            lines@.map_values(|v: Vec<u8>| v@) == split_lines(code@.subrange(0, i as int)),
        decreases code@.len() - i,
    {
        let c = code[i];
        let ghost p = code@.subrange(0, i + 1);
        assert(p.drop_last() =~= code@.subrange(0, i as int));
        let ghost before = lines@;
        if c == 10 {
            lines.push(Vec::new());
            assert(lines@.map_values(|v: Vec<u8>| v@) =~= split_lines(p));
        } else {
            let mut last = lines.pop().unwrap();
            last.push(c);
            lines.push(last);
            assert(lines@.map_values(|v: Vec<u8>| v@) =~= split_lines(p));
        }
        i += 1;
    }
    assert(code@.subrange(0, code@.len() as int) =~= code@);
    let ghost all = lines@.map_values(|v: Vec<u8>| v@);
    let mut kept: Vec<Vec<u8>> = Vec::new();
    let mut j: usize = 0;
    while j < lines.len()
        invariant
            0 <= j <= lines@.len(),
            all == lines@.map_values(|v: Vec<u8>| v@),
            kept@.map_values(|v: Vec<u8>| v@) == code_lines(all.subrange(0, j as int)),
        decreases lines@.len() - j,
    {
        assert(all.subrange(0, j + 1).drop_last() =~= all.subrange(0, j as int));
        let ghost before = kept@;
        if !is_comment_line(lines[j].as_slice()) {
            let mut copy: Vec<u8> = Vec::new();
            copy.extend_from_slice(lines[j].as_slice());
            assert(copy@ =~= lines@[j as int]@);
            kept.push(copy);
            assert(kept@.map_values(|v: Vec<u8>| v@) =~= before.map_values(|v: Vec<u8>| v@).push(all[j as int]));
        }
        j += 1;
    }
    assert(all.subrange(0, lines@.len() as int) =~= all);
    let ghost ks = kept@.map_values(|v: Vec<u8>| v@);
    let mut out: Vec<u8> = Vec::new();
    let mut k: usize = 0;
    while k < kept.len()
        invariant
            0 <= k <= kept@.len(),
            ks == kept@.map_values(|v: Vec<u8>| v@),
            out@ == join_lines(ks.subrange(0, k as int)),
        decreases kept@.len() - k,
    {
        assert(ks.subrange(0, k + 1).drop_last() =~= ks.subrange(0, k as int));
        let ghost before = out@;
        if k > 0 {
            out.push(10u8);
        }
        out.extend_from_slice(kept[k].as_slice());
        proof {
            if k == 0 {
                assert(out@ =~= ks[0]);
            } else {
                assert(out@ =~= before + seq![10u8] + ks[k as int]);
            }
        }
        k += 1;
    }
    assert(ks.subrange(0, kept@.len() as int) =~= ks);
    out
}

} // verus!
