//! The line automaton as spec functions over character sequences.

use vstd::prelude::*;

verus! {

/// Where the scan of a line stands.
#[derive(PartialEq, Eq, Structural, Clone, Copy, Debug)]
pub enum Step {
    /// No key character seen yet.
    BeforeKey,
    /// Inside a word of the key.
    InKey,
    /// After a space that follows a key word; the key may go on.
    AfterKey,
    /// After the separator `|`, before the first value character.
    BeforeValue,
    /// Inside a word of the value.
    InValue,
    /// After a space that follows a value word; the value may go on.
    AfterValue,
}

/// State of a scan: the step and the key and value gathered so far.
pub type Scan = (Step, Seq<char>, Seq<char>);

/// The step of a scan.
pub open spec fn step_of(sc: Scan) -> Step {
    sc.0
}

/// The key gathered by a scan.
pub open spec fn key_of(sc: Scan) -> Seq<char> {
    sc.1
}

/// The value gathered by a scan.
pub open spec fn value_of(sc: Scan) -> Seq<char> {
    sc.2
}

/// One character fed to the automaton. `None` means the line was rejected:
/// a `|` came before any key character.
pub open spec fn feed(st: Step, key: Seq<char>, value: Seq<char>, c: char) -> Option<Scan> {
    match st {
        Step::BeforeKey => if c == '|' {
            None
        } else if c == ' ' {
            Some((st, key, value))
        } else {
            Some((Step::InKey, key.push(c), value))
        },
        Step::InKey => if c == '|' {
            Some((Step::BeforeValue, key, value))
        } else if c == ' ' {
            Some((Step::AfterKey, key, value))
        } else {
            Some((Step::InKey, key.push(c), value))
        },
        Step::AfterKey => if c == '|' {
            Some((Step::BeforeValue, key, value))
        } else if c == ' ' {
            Some((st, key, value))
        } else {
            Some((Step::InKey, key.push(' ').push(c), value))
        },
        Step::BeforeValue => if c == ' ' {
            Some((st, key, value))
        } else {
            Some((Step::InValue, key, value.push(c)))
        },
        Step::InValue => if c == ' ' {
            Some((Step::AfterValue, key, value))
        } else {
            Some((Step::InValue, key, value.push(c)))
        },
        Step::AfterValue => if c == ' ' {
            Some((st, key, value))
        } else {
            Some((Step::InValue, key, value.push(' ').push(c)))
        },
    }
}

/// The automaton run over a whole sequence, from the start state.
pub open spec fn run(s: Seq<char>) -> Option<Scan>
    decreases s.len(),
{
    if s.len() == 0 {
        Some((Step::BeforeKey, Seq::empty(), Seq::empty()))
    } else {
        match run(s.drop_last()) {
            None => None,
            Some((st, key, value)) => feed(st, key, value, s.last()),
        }
    }
}

/// Index of the first `c` in `s`, or the length of `s` where it has none.
pub open spec fn first_of(s: Seq<char>, c: char) -> nat
    decreases s.len(),
{
    if s.len() == 0 {
        0
    } else if s[0] == c {
        0
    } else {
        1 + first_of(s.drop_first(), c)
    }
}

/// Where the comment of a line starts: its first `#`, or its end.
pub open spec fn comment_start(s: Seq<char>) -> nat {
    first_of(s, '#')
}

/// The part of a line that is read: everything before the first `#`.
pub open spec fn before_comment(s: Seq<char>) -> Seq<char> {
    s.take(comment_start(s) as int)
}

/// The pair that a line yields, if any.
pub open spec fn parsed(line: Seq<char>) -> Option<(Seq<char>, Seq<char>)> {
    match run(before_comment(line)) {
        None => None,
        Some((st, key, value)) => if st is BeforeKey {
            None
        } else {
            Some((key, value))
        },
    }
}

/// `s` with leading and trailing spaces dropped and each inner run of spaces
/// made a single space: a space is kept only between two other characters.
pub open spec fn collapse(s: Seq<char>) -> Seq<char>
    decreases s.len(),
{
    if s.len() == 0 {
        Seq::empty()
    } else {
        let p = s.drop_last();
        let c = s.last();
        if c == ' ' {
            collapse(p)
        } else if collapse(p).len() == 0 {
            seq![c]
        } else if p.last() == ' ' {
            collapse(p).push(' ').push(c)
        } else {
            collapse(p).push(c)
        }
    }
}

/// `t` has no leading or trailing space and no two spaces in a row.
pub open spec fn is_collapsed(t: Seq<char>) -> bool {
    forall|i: int|
        0 <= i < t.len() && #[trigger] t[i] == ' ' ==> 0 < i && i + 1 < t.len() && t[i + 1] != ' '
}

/// `c` does not occur in `t`.
pub open spec fn lacks(t: Seq<char>, c: char) -> bool {
    forall|i: int| 0 <= i < t.len() ==> #[trigger] t[i] != c
}

/// What `first_of` is: the first `c`, or the end.
pub proof fn lemma_first_of(s: Seq<char>, c: char)
    ensures
        first_of(s, c) <= s.len(),
        lacks(s.take(first_of(s, c) as int), c),
        first_of(s, c) < s.len() ==> s[first_of(s, c) as int] == c,
    decreases s.len(),
{
    if s.len() > 0 && s[0] != c {
        let t = s.drop_first();
        let k = first_of(s, c) as int;
        lemma_first_of(t, c);
        assert forall|i: int| 0 <= i < k implies #[trigger] s.take(k)[i] != c by {
            if i > 0 {
                assert(s.take(k)[i] == t.take(k - 1)[i - 1]);
            }
        }
        if k < s.len() {
            assert(s[k] == t[k - 1]);
        }
    }
}

/// What `comment_start` is: the first `#`, or the end.
pub proof fn lemma_comment_start(s: Seq<char>)
    ensures
        comment_start(s) <= s.len(),
        lacks(s.take(comment_start(s) as int), '#'),
        comment_start(s) < s.len() ==> s[comment_start(s) as int] == '#',
{
    lemma_first_of(s, '#');
}

/// Once a line is rejected, no further character brings it back.
pub proof fn lemma_run_rejected_stays(s: Seq<char>, i: int)
    requires
        0 <= i <= s.len(),
        run(s.take(i)) is None,
    ensures
        run(s) is None,
    decreases s.len() - i,
{
    if i < s.len() {
        assert(s.take(i + 1).drop_last() =~= s.take(i));
        lemma_run_rejected_stays(s, i + 1);
    } else {
        assert(s.take(i) =~= s);
    }
}

} // verus!
