//! The executable line parser.

use vstd::prelude::*;
use vstd::string::group_string_axioms;
use vstd::std_specs::iter::IteratorSpec;
use crate::model::{
    Step, run, comment_start, before_comment, parsed, lacks, lemma_comment_start,
    lemma_run_rejected_stays,
};

verus! {

broadcast use group_string_axioms;

/// Relies on `String::push`: the character is appended at the end.
pub assume_specification[ String::push ](s: &mut String, ch: char)
    ensures
        final(s)@ == old(s)@.push(ch),
;

/// Parses one configuration line into its key and value.
///
/// Returns `None` for a line whose key is empty: an empty line, a comment
/// line, or one whose first character other than a space is `|`.
pub fn parse_line(line: &str) -> (r: Option<(String, String)>)
    ensures
        match r {
            None => parsed(line@) is None,
            Some((key, value)) => parsed(line@) == Some((key@, value@)),
        },
{
    let mut key = String::new();
    let mut value = String::new();
    let mut step = Step::BeforeKey;
    let ghost mut n: int = 0;
    let ghost s = line@;
    let mut chars = line.chars();
    loop
        invariant_except_break
            chars.remaining() == s.skip(n),
        invariant
            s == line@,
            0 <= n <= s.len(),
            lacks(s.take(n), '#'),
            run(s.take(n)) == Some((step, key@, value@)),
        ensures
            n == s.len() || s[n] == '#',
        decreases s.len() - n,
    {
        let next = chars.next();
        let c = match next {
            None => {
                assert(s.skip(n).len() == 0);
                break;
            },
            Some(c) => c,
        };
        assert(s.skip(n)[0] == s[n]);
        if c == '#' {
            break;
        }
        proof {
            assert(s.take(n + 1).drop_last() =~= s.take(n));
            assert(lacks(s.take(n + 1), '#')) by {
                assert forall|j: int| 0 <= j < n + 1 implies #[trigger] s.take(n + 1)[j]
                    != '#' by {
                    if j < n {
                        assert(s.take(n + 1)[j] == s.take(n)[j]);
                    }
                }
            }
        }
        match step {
            Step::BeforeKey => if c == '|' {
                proof {
                    lemma_comment_start(s);
                    if comment_start(s) <= n {
                        assert(s.take(n + 1)[comment_start(s) as int] == '#');
                    }
                    assert(before_comment(s).take(n + 1) =~= s.take(n + 1));
                    lemma_run_rejected_stays(before_comment(s), n + 1);
                }
                return None;
            } else if c != ' ' {
                key.push(c);
                step = Step::InKey;
            },
            Step::InKey => if c == '|' {
                step = Step::BeforeValue;
            } else if c == ' ' {
                step = Step::AfterKey;
            } else {
                key.push(c);
            },
            Step::AfterKey => if c == '|' {
                step = Step::BeforeValue;
            } else if c != ' ' {
                key.push(' ');
                key.push(c);
                step = Step::InKey;
            },
            Step::BeforeValue => if c != ' ' {
                value.push(c);
                step = Step::InValue;
            },
            Step::InValue => if c == ' ' {
                step = Step::AfterValue;
            } else {
                value.push(c);
            },
            Step::AfterValue => if c != ' ' {
                value.push(' ');
                value.push(c);
                step = Step::InValue;
            },
        }
        proof {
            n = n + 1;
        }
    }
    proof {
        lemma_comment_start(s);
        if comment_start(s) < n {
            assert(s.take(n)[comment_start(s) as int] == '#');
        }
        if n < comment_start(s) {
            assert(s.take(comment_start(s) as int)[n] == '#');
        }
        assert(before_comment(s) =~= s.take(n));
    }
    if step == Step::BeforeKey {
        None
    } else {
        Some((key, value))
    }
}

} // verus!
