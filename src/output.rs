//! The text written out: the reported addresses, one per line.
use vstd::prelude::*;
use crate::extract::{extracted, file_process};
use crate::grammar::{is_email, lemma_email_has_no_newline};
use crate::pattern::{texts, EmailPattern};

verus! {

/// The items joined by a single line feed between neighbours, with none
/// before the first or after the last.
pub open spec fn joined(items: Seq<Seq<char>>) -> Seq<char>
    decreases items.len(),
{
    if items.len() == 0 {
        Seq::empty()
    } else if items.len() == 1 {
        items[0]
    } else {
        joined(items.drop_last()) + seq!['\n'] + items.last()
    }
}

/// The lines of `t`: the pieces between its line feeds. A text without a
/// line feed, the empty one too, is a single line.
pub open spec fn lines_of(t: Seq<char>) -> Seq<Seq<char>>
    decreases t.len(),
{
    if t.len() == 0 {
        seq![Seq::empty()]
    } else {
        let rest = lines_of(t.drop_last());
        if t.last() == '\n' {
            rest.push(Seq::empty())
        } else {
            rest.update(rest.len() - 1, rest.last().push(t.last()))
        }
    }
}

/// The text written for `lines`.
pub open spec fn output_text(lines: Seq<Seq<char>>) -> Seq<char> {
    joined(extracted(lines))
}

pub open spec fn has_newline(s: Seq<char>) -> bool {
    exists|i: int| 0 <= i < s.len() && #[trigger] s[i] == '\n'
}

/// A line feed followed by a text without one adds that text as a last line.
proof fn lemma_lines_of_append(b: Seq<char>, a: Seq<char>)
    requires
        !has_newline(a),
    ensures
        lines_of(b + seq!['\n'] + a) == lines_of(b).push(a),
    decreases a.len(),
{
    let t = b + seq!['\n'] + a;
    if a.len() == 0 {
        assert(t.drop_last() == b);
        assert(a == Seq::<char>::empty());
    } else {
        let a0 = a.drop_last();
        assert(!has_newline(a0)) by {
            if has_newline(a0) {
                let i = choose|i: int| 0 <= i < a0.len() && #[trigger] a0[i] == '\n';
                assert(a[i] == '\n');
            }
        }
        lemma_lines_of_append(b, a0);
        assert(t.drop_last() == b + seq!['\n'] + a0);
        assert(a[a.len() - 1] != '\n');
        assert(a0.push(a.last()) == a);
        let rest = lines_of(b).push(a0);
        assert(t.last() == a.last());
        assert(rest.update(rest.len() - 1, a0.push(a.last())) == lines_of(b).push(a));
    }
}

/// A text without a line feed is one line.
proof fn lemma_lines_of_single(a: Seq<char>)
    requires
        !has_newline(a),
    ensures
        lines_of(a) == seq![a],
    decreases a.len(),
{
    if a.len() > 0 {
        let a0 = a.drop_last();
        assert(!has_newline(a0)) by {
            if has_newline(a0) {
                let i = choose|i: int| 0 <= i < a0.len() && #[trigger] a0[i] == '\n';
                assert(a[i] == '\n');
            }
        }
        lemma_lines_of_single(a0);
        assert(a[a.len() - 1] != '\n');
        assert(a0.push(a.last()) == a);
        assert(seq![a0].update(0, a0.push(a.last())) == seq![a]);
    } else {
        assert(a == Seq::<char>::empty());
    }
}

/// Joining a non-empty list of items, none of which holds a line feed,
/// gives a text whose lines are exactly those items.
pub proof fn lemma_lines_of_joined(items: Seq<Seq<char>>)
    requires
        items.len() > 0,
        forall|i: int| 0 <= i < items.len() ==> !has_newline(#[trigger] items[i]),
    ensures
        lines_of(joined(items)) == items,
    decreases items.len(),
{
    if items.len() == 1 {
        lemma_lines_of_single(items[0]);
        assert(items == seq![items[0]]);
    } else {
        let init = items.drop_last();
        assert(forall|i: int| 0 <= i < init.len() ==> init[i] == items[i]);
        lemma_lines_of_joined(init);
        assert(!has_newline(items[items.len() - 1]));
        lemma_lines_of_append(joined(init), items.last());
        assert(init.push(items.last()) == items);
    }
}

/// Joining addresses of the grammar gives a text whose lines are those
/// addresses, each of the grammar; joining none gives the empty text.
pub proof fn lemma_joined_emails_are_lines(items: Seq<Seq<char>>)
    requires
        forall|i: int| 0 <= i < items.len() ==> is_email(#[trigger] items[i]),
    ensures
        items.len() == 0 ==> joined(items).len() == 0,
        items.len() > 0 ==> lines_of(joined(items)) == items,
{
    if items.len() > 0 {
        assert forall|i: int| 0 <= i < items.len() implies !has_newline(#[trigger] items[i]) by {
            lemma_email_has_no_newline(items[i]);
        }
        lemma_lines_of_joined(items);
    }
}

/// The text written depends on the input lines alone: a second run on the
/// same input writes the same text as the first.
pub proof fn lemma_rerun_writes_same_text(first: Seq<Seq<char>>, second: Seq<Seq<char>>)
    requires
        first == second,
    ensures
        output_text(first) == output_text(second),
{
}

/// The items joined by a line feed between neighbours.
pub fn join_lines(content: &Vec<String>) -> (r: String)
    ensures
        r@ == joined(texts(content@)),
{
    let mut out = String::new();
    let mut n: usize = 0;
    while n < content.len()
        invariant
            n <= content@.len(),
            out@ == joined(texts(content@.take(n as int))),
        decreases content@.len() - n,
    {
        let ghost prefix = texts(content@.take(n + 1));
        proof {
            assert(prefix.drop_last() == texts(content@.take(n as int)));
            assert(prefix.last() == content@[n as int]@);
        }
        if n > 0 {
            out.append("\n");
            proof {
                reveal_strlit("\n");
            }
        } else {
            proof {
                assert(texts(content@.take(0)).len() == 0);
            }
        }
        out.append(content[n].as_str());
        proof {
            if n == 0 {
                assert(out@ == prefix[0]);
            }
        }
        n = n + 1;
    }
    proof {
        assert(content@.take(n as int) == content@);
    }
    out
}

/// The text written for `lines`: the reported addresses, one per line.
pub fn render(pattern: &EmailPattern, lines: &Vec<String>) -> (r: String)
    ensures
        r@ == output_text(texts(lines@)),
        extracted(texts(lines@)).len() == 0 ==> r@.len() == 0,
        extracted(texts(lines@)).len() > 0 ==> lines_of(r@) == extracted(texts(lines@)),
        forall|i: int| 0 <= i < extracted(texts(lines@)).len() ==> is_email(#[trigger] extracted(texts(lines@))[i]),
{
    let found = file_process(pattern, lines);
    proof {
        assert forall|i: int| 0 <= i < texts(found@).len() implies is_email(#[trigger] texts(found@)[i]) by {
            assert(texts(found@)[i] == found@[i]@);
        }
        lemma_joined_emails_are_lines(texts(found@));
    }
    join_lines(&found)
}

} // verus!
