//! Collecting the matches of every line in scan order, and collapsing
//! adjacent duplicates.
use vstd::prelude::*;
use crate::grammar::is_email;
use crate::pattern::{email_matches, texts, EmailPattern};

verus! {

/// The matches of all lines: those of the first line left to right, then
/// those of the second, and so on.
pub open spec fn scan_order(lines: Seq<Seq<char>>) -> Seq<Seq<char>>
    decreases lines.len(),
{
    if lines.len() == 0 {
        Seq::empty()
    } else {
        scan_order(lines.drop_last()) + email_matches(lines.last())
    }
}

/// `s` without each element that equals the one just before it. An element
/// equal to an earlier, non-adjacent one stays.
pub open spec fn collapse_adjacent(s: Seq<Seq<char>>) -> Seq<Seq<char>>
    decreases s.len(),
{
    if s.len() == 0 {
        s
    } else if s.len() >= 2 && s[s.len() - 2] == s.last() {
        collapse_adjacent(s.drop_last())
    } else {
        collapse_adjacent(s.drop_last()).push(s.last())
    }
}

/// The addresses that the extractor reports for `lines`, in order.
pub open spec fn extracted(lines: Seq<Seq<char>>) -> Seq<Seq<char>> {
    collapse_adjacent(scan_order(lines))
}

/// Every match of `pattern` in `lines`, in scan order, duplicates included.
pub fn collect_matches(pattern: &EmailPattern, lines: &Vec<String>) -> (r: Vec<String>)
    ensures
        texts(r@) == scan_order(texts(lines@)),
        forall|i: int| 0 <= i < r@.len() ==> is_email(#[trigger] r@[i]@),
{
    let mut out: Vec<String> = Vec::new();
    let mut n: usize = 0;
    while n < lines.len()
        invariant
            n <= lines@.len(),
            texts(out@) == scan_order(texts(lines@.take(n as int))),
            forall|i: int| 0 <= i < out@.len() ==> is_email(#[trigger] out@[i]@),
        decreases lines@.len() - n,
    {
        let found = pattern.matches_in(lines[n].as_str());
        let ghost before = out@;
        let mut j: usize = 0;
        while j < found.len()
            invariant
                j <= found@.len(),
                out@ == before + found@.take(j as int),
                forall|i: int| 0 <= i < found@.len() ==> is_email(#[trigger] found@[i]@),
                forall|i: int| 0 <= i < before.len() ==> is_email(#[trigger] before[i]@),
            decreases found@.len() - j,
        {
            out.push(found[j].clone());
            proof {
                assert(found@.take(j + 1) == found@.take(j as int).push(found@[j as int]));
            }
            j = j + 1;
        }
        proof {
            assert(found@.take(j as int) == found@);
            let prefix = texts(lines@.take(n + 1));
            assert(prefix.drop_last() == texts(lines@.take(n as int)));
            assert(prefix.last() == lines@[n as int]@);
            assert(texts(out@) == texts(before) + texts(found@));
        }
        n = n + 1;
    }
    proof {
        assert(lines@.take(n as int) == lines@);
    }
    out
}

/// `list` with each element that equals the one just before it removed.
pub fn dedupe(list: &Vec<String>) -> (r: Vec<String>)
    ensures
        texts(r@) == collapse_adjacent(texts(list@)),
{
    let mut out: Vec<String> = Vec::new();
    let mut n: usize = 0;
    while n < list.len()
        invariant
            n <= list@.len(),
            texts(out@) == collapse_adjacent(texts(list@.take(n as int))),
        decreases list@.len() - n,
    {
        let ghost prev = out@;
        let prefix = Ghost(texts(list@.take(n + 1)));
        proof {
            assert(prefix@.drop_last() == texts(list@.take(n as int)));
            assert(prefix@.last() == list@[n as int]@);
        }
        if n == 0 || list[n] != list[n - 1] {
            out.push(list[n].clone());
            proof {
                assert(texts(out@) == texts(prev).push(list@[n as int]@));
            }
        } else {
            proof {
                assert(prefix@[prefix@.len() - 2] == list@[n - 1]@);
            }
        }
        n = n + 1;
    }
    proof {
        assert(list@.take(n as int) == list@);
    }
    out
}

/// Position `i` of `s` holds an element that differs from the one before it,
/// or is the first.
pub open spec fn is_kept(s: Seq<Seq<char>>, i: int) -> bool {
    i == 0 || s[i] != s[i - 1]
}

/// `r` reads `s` at the strictly increasing positions `pos`, which are
/// exactly the kept positions of `s`.
pub open spec fn reads_kept_positions(s: Seq<Seq<char>>, r: Seq<Seq<char>>, pos: Seq<int>) -> bool {
    &&& pos.len() == r.len()
    &&& forall|j: int|
        0 <= j < pos.len() ==> 0 <= #[trigger] pos[j] < s.len() && is_kept(s, pos[j]) && r[j]
            == s[pos[j]]
    &&& forall|j: int, k: int| 0 <= j < k < pos.len() ==> #[trigger] pos[j] < #[trigger] pos[k]
    &&& forall|i: int|
        0 <= i < s.len() && #[trigger] is_kept(s, i) ==> exists|j: int|
            0 <= j < pos.len() && #[trigger] pos[j] == i
}

/// The positions of `s` that `collapse_adjacent(s)` reads, in order.
pub proof fn collapse_positions(s: Seq<Seq<char>>) -> (pos: Seq<int>)
    ensures
        reads_kept_positions(s, collapse_adjacent(s), pos),
    decreases s.len(),
{
    if s.len() == 0 {
        Seq::empty()
    } else {
        let t = s.drop_last();
        let prev = collapse_positions(t);
        let last = s.len() - 1;
        assert forall|i: int| 0 <= i < t.len() implies is_kept(t, i) == is_kept(s, i) by {
            if i > 0 {
                assert(t[i] == s[i] && t[i - 1] == s[i - 1]);
            }
        }
        if s.len() >= 2 && s[s.len() - 2] == s.last() {
            assert forall|i: int| 0 <= i < s.len() && #[trigger] is_kept(s, i) implies exists|j: int|
                0 <= j < prev.len() && #[trigger] prev[j] == i by {
                assert(is_kept(t, i));
            }
            prev
        } else {
            let pos = prev.push(last);
            let r = collapse_adjacent(s);
            assert(r == collapse_adjacent(t).push(s.last()));
            assert forall|i: int| 0 <= i < s.len() && #[trigger] is_kept(s, i) implies exists|j: int|
                0 <= j < pos.len() && #[trigger] pos[j] == i by {
                if i == last {
                    assert(pos[pos.len() - 1] == i);
                } else {
                    assert(is_kept(t, i));
                    let j = choose|j: int| 0 <= j < prev.len() && #[trigger] prev[j] == i;
                    assert(pos[j] == i);
                }
            }
            assert forall|j: int| 0 <= j < pos.len() implies 0 <= #[trigger] pos[j] < s.len()
                && is_kept(s, pos[j]) && r[j] == s[pos[j]] by {
                if j < prev.len() {
                    assert(pos[j] == prev[j]);
                }
            }
            pos
        }
    }
}

/// The reported addresses keep the scan order: they are the matches of
/// the lines, top to bottom and left to right, read at the positions whose
/// match differs from the match just before it, and at no other; nothing is
/// reordered or sorted.
pub proof fn lemma_scan_order_kept(lines: Seq<Seq<char>>)
    ensures
        exists|pos: Seq<int>| reads_kept_positions(scan_order(lines), extracted(lines), pos),
{
    let pos = collapse_positions(scan_order(lines));
    assert(reads_kept_positions(scan_order(lines), extracted(lines), pos));
}

/// The addresses of `lines` that `pattern` matches, in scan order, each
/// dropped where it repeats the address just before it.
pub fn file_process(pattern: &EmailPattern, lines: &Vec<String>) -> (r: Vec<String>)
    ensures
        texts(r@) == extracted(texts(lines@)),
        forall|i: int| 0 <= i < r@.len() ==> is_email(#[trigger] r@[i]@),
{
    let all = collect_matches(pattern, lines);
    let r = dedupe(&all);
    proof {
        let pos = collapse_positions(texts(all@));
        assert forall|i: int| 0 <= i < r@.len() implies is_email(#[trigger] r@[i]@) by {
            assert(texts(r@)[i] == r@[i]@);
            assert(texts(all@)[pos[i]] == all@[pos[i]]@);
        }
    }
    r
}

} // verus!
