//! Properties of the line automaton, proved over the spec functions of
//! `model`.

use vstd::prelude::*;
use crate::model::{
    Step, step_of, key_of, value_of, run, first_of, comment_start, before_comment, parsed,
    collapse, is_collapsed, lacks, lemma_first_of, lemma_comment_start, lemma_run_rejected_stays,
};

verus! {

/// No leading space and no two spaces in a row; a trailing space is allowed.
pub open spec fn spaced_once(t: Seq<char>) -> bool {
    forall|i: int|
        0 <= i < t.len() && #[trigger] t[i] == ' ' ==> 0 < i && (i + 1 < t.len() ==> t[i + 1]
            != ' ')
}

/// Every character of `t` is a space.
pub open spec fn all_spaces(t: Seq<char>) -> bool {
    forall|i: int| 0 <= i < t.len() ==> #[trigger] t[i] == ' '
}

/// What `collapse` yields: a collapsed text, empty exactly when the input
/// holds nothing but spaces.
pub proof fn lemma_collapse_shape(x: Seq<char>)
    ensures
        is_collapsed(collapse(x)),
        collapse(x).len() == 0 <==> all_spaces(x),
    decreases x.len(),
{
    if x.len() > 0 {
        let p = x.drop_last();
        lemma_collapse_shape(p);
        let cp = collapse(p);
        let r = collapse(x);
        if x.last() != ' ' {
            assert(x[x.len() - 1] != ' ');
        } else {
            assert(all_spaces(x) <==> all_spaces(p)) by {
                if all_spaces(p) {
                    assert forall|i: int| 0 <= i < x.len() implies #[trigger] x[i] == ' ' by {
                        if i < p.len() {
                            assert(x[i] == p[i]);
                        }
                    }
                }
                if all_spaces(x) {
                    assert forall|i: int| 0 <= i < p.len() implies #[trigger] p[i] == ' ' by {
                        assert(x[i] == p[i]);
                    }
                }
            }
        }
        assert forall|i: int| 0 <= i < r.len() && #[trigger] r[i] == ' ' implies 0 < i && i + 1
            < r.len() && r[i + 1] != ' ' by {
            if i < cp.len() {
                assert(r[i] == cp[i]);
                if i + 1 < cp.len() {
                    assert(r[i + 1] == cp[i + 1]);
                }
            }
        }
    }
}

/// Collapsing keeps out any character other than the space that the input
/// lacks.
pub proof fn lemma_collapse_lacks(x: Seq<char>, c: char)
    requires
        c != ' ',
        lacks(x, c),
    ensures
        lacks(collapse(x), c),
    decreases x.len(),
{
    if x.len() > 0 {
        let p = x.drop_last();
        assert(lacks(p, c)) by {
            assert forall|i: int| 0 <= i < p.len() implies #[trigger] p[i] != c by {
                assert(p[i] == x[i]);
            }
        }
        lemma_collapse_lacks(p, c);
        assert(x[x.len() - 1] != c);
        let r = collapse(x);
        let cp = collapse(p);
        assert forall|i: int| 0 <= i < r.len() implies #[trigger] r[i] != c by {
            if i < cp.len() {
                assert(r[i] == cp[i]);
            }
        }
    }
}

/// A text that is already spaced once collapses to itself, less a trailing
/// space.
pub proof fn lemma_collapse_spaced_once(t: Seq<char>)
    requires
        spaced_once(t),
    ensures
        collapse(t) == (if t.len() > 0 && t.last() == ' ' {
            t.drop_last()
        } else {
            t
        }),
    decreases t.len(),
{
    if t.len() > 0 {
        let p = t.drop_last();
        assert(spaced_once(p)) by {
            assert forall|i: int| 0 <= i < p.len() && #[trigger] p[i] == ' ' implies 0 < i && (i
                + 1 < p.len() ==> p[i + 1] != ' ') by {
                assert(p[i] == t[i]);
                if i + 1 < p.len() {
                    assert(p[i + 1] == t[i + 1]);
                }
            }
        }
        lemma_collapse_spaced_once(p);
        if t.last() == ' ' {
            assert(t[t.len() - 1] == ' ');
            if p.len() > 0 {
                assert(p[p.len() - 1] == t[t.len() - 2]);
            }
        } else if p.len() > 0 && p.last() == ' ' {
            assert(p[p.len() - 1] == t[t.len() - 2]);
            assert(t[t.len() - 2] == ' ');
            assert(p.len() >= 2);
            assert(p.drop_last().push(' ').push(t.last()) =~= t);
        } else if p.len() > 0 {
            assert(p.push(t.last()) =~= t);
        } else {
            assert(seq![t.last()] =~= t);
        }
    }
}

/// A collapsed text collapses to itself.
pub proof fn lemma_collapse_fixed(t: Seq<char>)
    requires
        is_collapsed(t),
    ensures
        collapse(t) == t,
{
    assert(spaced_once(t)) by {
        assert forall|i: int| 0 <= i < t.len() && #[trigger] t[i] == ' ' implies 0 < i && (i + 1
            < t.len() ==> t[i + 1] != ' ') by {}
    }
    if t.len() > 0 {
        assert(t[t.len() - 1] != ' ');
    }
    lemma_collapse_spaced_once(t);
}

/// A leading space makes no difference to the collapsed text.
pub proof fn lemma_collapse_leading_space(v: Seq<char>)
    ensures
        collapse(seq![' '] + v) == collapse(v),
    decreases v.len(),
{
    let w = seq![' '] + v;
    if v.len() == 0 {
        assert(w.drop_last() =~= v);
    } else {
        let p = v.drop_last();
        assert(w.drop_last() =~= seq![' '] + p);
        assert(w.last() == v.last());
        lemma_collapse_leading_space(p);
        if p.len() > 0 {
            assert((seq![' '] + p).last() == p.last());
        } else {
            assert(collapse(p).len() == 0);
        }
    }
}

/// Before any `|`, the automaton holds the collapsed text as the key: it
/// waits for a key while the text is all spaces, and sits after a key word
/// exactly when the text ends in a space.
pub proof fn lemma_run_key(t: Seq<char>)
    requires
        lacks(t, '|'),
    ensures
        run(t) is Some,
        key_of(run(t)->0) == collapse(t),
        value_of(run(t)->0) == Seq::<char>::empty(),
        (step_of(run(t)->0) is BeforeKey) <==> collapse(t).len() == 0,
        collapse(t).len() > 0 ==> (step_of(run(t)->0) is InKey || step_of(run(t)->0) is AfterKey),
        collapse(t).len() > 0 ==> ((step_of(run(t)->0) is AfterKey) <==> t.last() == ' '),
    decreases t.len(),
{
    if t.len() > 0 {
        let p = t.drop_last();
        assert(lacks(p, '|')) by {
            assert forall|i: int| 0 <= i < p.len() implies #[trigger] p[i] != '|' by {
                assert(p[i] == t[i]);
            }
        }
        assert(t[t.len() - 1] != '|');
        lemma_run_key(p);
        if collapse(p).len() > 0 && t.last() != ' ' {
            assert(p.len() > 0);
        }
    }
}

/// After the separator, the automaton keeps the key and holds the collapsed
/// rest of the text as the value.
pub proof fn lemma_run_value(p: Seq<char>, key: Seq<char>, w: Seq<char>)
    requires
        run(p) == Some((Step::BeforeValue, key, Seq::<char>::empty())),
    ensures
        run(p + w) is Some,
        key_of(run(p + w)->0) == key,
        value_of(run(p + w)->0) == collapse(w),
        (step_of(run(p + w)->0) is BeforeValue) <==> collapse(w).len() == 0,
        collapse(w).len() > 0 ==> (step_of(run(p + w)->0) is InValue || step_of(run(p + w)->0) is AfterValue),
        collapse(w).len() > 0 ==> ((step_of(run(p + w)->0) is AfterValue) <==> w.last() == ' '),
    decreases w.len(),
{
    if w.len() == 0 {
        assert(p + w =~= p);
    } else {
        let q = w.drop_last();
        assert((p + w).drop_last() =~= p + q);
        assert((p + w).last() == w.last());
        lemma_run_value(p, key, q);
        if collapse(q).len() > 0 && w.last() != ' ' {
            assert(q.len() > 0);
        }
    }
}

/// The key that a text gives: its collapsed part before the first `|`.
pub open spec fn key_text(t: Seq<char>) -> Seq<char> {
    collapse(t.take(first_of(t, '|') as int))
}

/// The value that a text gives: its collapsed part after the first `|`, and
/// empty where it has no `|`.
pub open spec fn value_text(t: Seq<char>) -> Seq<char> {
    if first_of(t, '|') < t.len() {
        collapse(t.skip(first_of(t, '|') + 1 as int))
    } else {
        Seq::empty()
    }
}

/// A line yields the collapsed text before its first `|` as the key and the
/// collapsed text after it as the value, both taken from the part before the
/// comment; where that key is empty the line yields no pair.
pub proof fn law_split_at_first_bar(line: Seq<char>)
    ensures
        parsed(line) == (if key_text(before_comment(line)).len() == 0 {
            None
        } else {
            Some((key_text(before_comment(line)), value_text(before_comment(line))))
        }),
{
    let t = before_comment(line);
    let b = first_of(t, '|') as int;
    lemma_first_of(t, '|');
    let a = t.take(b);
    lemma_run_key(a);
    if b == t.len() {
        assert(a =~= t);
    } else {
        let ab = t.take(b + 1);
        assert(ab.drop_last() =~= a);
        assert(ab.last() == '|');
        if collapse(a).len() == 0 {
            lemma_run_rejected_stays(t, b + 1);
        } else {
            let w = t.skip(b + 1);
            assert(ab + w =~= t);
            lemma_run_value(ab, collapse(a), w);
        }
    }
}

/// The first character of `line` other than a space is `|`.
pub open spec fn opens_with_bar(line: Seq<char>) -> bool {
    exists|i: int| 0 <= i < line.len() && line[i] == '|' && #[trigger] all_spaces(line.take(i))
}

/// A line whose first character other than a space is `|` yields no pair.
pub proof fn law_leading_bar_rejected(line: Seq<char>)
    requires
        opens_with_bar(line),
    ensures
        parsed(line) is None,
{
    let i = choose|i: int|
        0 <= i < line.len() && line[i] == '|' && #[trigger] all_spaces(line.take(i));
    let t = before_comment(line);
    let cs = comment_start(line) as int;
    lemma_comment_start(line);
    if cs <= i {
        if cs < i {
            assert(line.take(i)[cs] == line[cs]);
        }
        assert(line[cs] == '#');
    }
    assert(t[i] == '|');
    let b = first_of(t, '|') as int;
    lemma_first_of(t, '|');
    if b < i {
        assert(line.take(i)[b] == t[b]);
    }
    if b > i {
        assert(t.take(b)[i] == '|');
    }
    assert(t.take(b) =~= line.take(i));
    lemma_collapse_shape(t.take(b));
    law_split_at_first_bar(line);
}

/// A line without `|` whose text before the comment holds a character other
/// than a space yields that text, collapsed, as the key and an empty value.
pub proof fn law_no_bar(line: Seq<char>)
    requires
        lacks(line, '|'),
        !all_spaces(before_comment(line)),
    ensures
        parsed(line) == Some((collapse(before_comment(line)), Seq::<char>::empty())),
{
    let t = before_comment(line);
    lemma_comment_start(line);
    lemma_first_of(t, '|');
    let b = first_of(t, '|') as int;
    if b < t.len() {
        assert(t[b] == line[b]);
    }
    assert(t.take(b) =~= t);
    lemma_collapse_shape(t);
    law_split_at_first_bar(line);
}

/// `lacks` carries over to a part of a text.
proof fn lemma_lacks_subrange(t: Seq<char>, c: char, lo: int, hi: int)
    requires
        lacks(t, c),
        0 <= lo <= hi <= t.len(),
    ensures
        lacks(t.subrange(lo, hi), c),
{
    assert forall|i: int| 0 <= i < hi - lo implies #[trigger] t.subrange(lo, hi)[i] != c by {
        assert(t.subrange(lo, hi)[i] == t[lo + i]);
    }
}

/// Joining the key and value of a parsed line with ` | ` gives a line that
/// parses to the same pair.
pub proof fn law_reparse_stable(line: Seq<char>, key: Seq<char>, value: Seq<char>)
    requires
        parsed(line) == Some((key, value)),
    ensures
        parsed(key + seq![' ', '|', ' '] + value) == Some((key, value)),
{
    let t = before_comment(line);
    lemma_comment_start(line);
    law_split_at_first_bar(line);
    lemma_first_of(t, '|');
    let b = first_of(t, '|') as int;
    let a = t.take(b);
    assert(lacks(t, '#'));
    lemma_lacks_subrange(t, '#', 0, b);
    assert(a =~= t.subrange(0, b));
    lemma_collapse_lacks(a, '#');
    lemma_collapse_lacks(a, '|');
    lemma_collapse_shape(a);
    if b < t.len() {
        let w = t.skip(b + 1);
        lemma_lacks_subrange(t, '#', b + 1, t.len() as int);
        assert(w =~= t.subrange(b + 1, t.len() as int));
        lemma_collapse_lacks(w, '#');
        lemma_collapse_shape(w);
    }
    assert(is_collapsed(value) && lacks(value, '#'));
    let line2 = key + seq![' ', '|', ' '] + value;
    let n = key.len() as int;
    assert(lacks(line2, '#')) by {
        assert forall|i: int| 0 <= i < line2.len() implies #[trigger] line2[i] != '#' by {
            if i < n {
                assert(line2[i] == key[i]);
            } else if i >= n + 3 {
                assert(line2[i] == value[i - n - 3]);
            }
        }
    }
    lemma_comment_start(line2);
    if comment_start(line2) < line2.len() {
        assert(line2[comment_start(line2) as int] == '#');
    }
    let t2 = before_comment(line2);
    assert(t2 =~= line2);
    lemma_first_of(t2, '|');
    let b2 = first_of(t2, '|') as int;
    assert(line2[n + 1] == '|');
    if b2 > n + 1 {
        assert(t2.take(b2)[n + 1] == '|');
    }
    if b2 < n {
        assert(line2[b2] == key[b2]);
    }
    assert(b2 == n + 1);
    let a2 = t2.take(b2);
    assert(a2.drop_last() =~= key);
    lemma_collapse_fixed(key);
    assert(collapse(a2) == key);
    assert(t2.skip(b2 + 1) =~= seq![' '] + value);
    lemma_collapse_leading_space(value);
    lemma_collapse_fixed(value);
    law_split_at_first_bar(line2);
}

} // verus!
