//! The documentation aggregator: merges the raw comment lines attached to a
//! declaration into one description string, unless an explicit description
//! directive overrides them.
//!
//! Lines are trimmed; a trailing line-continuation marker (`\`) is removed.
//! Consecutive non-blank lines join with a single space; a blank line starts
//! a new paragraph, and paragraphs join with a blank line between them.
//! Blank lines before the first content and after the last are dropped, and
//! input with no content at all aggregates to nothing.

use vstd::prelude::*;

use crate::text::{is_space_char, trim_spec, trimmed};

verus! {

/// The state of the aggregation after some prefix of the lines: whether any
/// content was seen, whether a paragraph break is pending, and the text so
/// far.
pub struct AggState {
    pub started: bool,
    pub pending_break: bool,
    pub text: Seq<char>,
}

/// A trimmed line with its trailing continuation marker removed.
pub open spec fn line_content(t: Seq<char>) -> Seq<char> {
    if t.len() > 0 && t.last() == '\\' {
        t.drop_last()
    } else {
        t
    }
}

/// How one raw line advances the aggregation.
pub open spec fn agg_step(st: AggState, line: Seq<char>) -> AggState {
    let t = trim_spec(line);
    if t.len() == 0 {
        AggState { started: st.started, pending_break: st.started, text: st.text }
    } else {
        let c = line_content(t);
        if !st.started {
            AggState { started: true, pending_break: false, text: c }
        } else if st.pending_break {
            AggState {
                started: true,
                pending_break: false,
                text: st.text + seq!['\n', '\n'] + c,
            }
        } else {
            AggState { started: true, pending_break: false, text: st.text + seq![' '] + c }
        }
    }
}

pub open spec fn agg_initial() -> AggState {
    AggState { started: false, pending_break: false, text: Seq::empty() }
}

/// The aggregation state after all lines, in order.
pub open spec fn agg_lines(lines: Seq<Seq<char>>) -> AggState
    decreases lines,
{
    if lines.len() == 0 {
        agg_initial()
    } else {
        agg_step(agg_lines(lines.drop_last()), lines.last())
    }
}

/// What [`aggregate`] returns: the override if one is given, otherwise the
/// joined comment text, and nothing when no line holds content.
pub open spec fn aggregate_spec(
    lines: Seq<Seq<char>>,
    description_override: Option<Seq<char>>,
) -> Option<Seq<char>> {
    match description_override {
        Option::Some(o) => Option::Some(o),
        Option::None => {
            let st = agg_lines(lines);
            if st.started {
                Option::Some(st.text)
            } else {
                Option::None
            }
        },
    }
}

/// The views of a list of raw comment lines.
pub open spec fn view_lines(ls: Seq<String>) -> Seq<Seq<char>> {
    ls.map_values(|l: String| l@)
}

/// Merges raw comment lines into one description. An explicit description
/// directive always wins: the comment lines are then ignored entirely.
pub fn aggregate(lines: &Vec<String>, description_override: Option<&str>) -> (r: Option<String>)
    ensures
        ({
            let spec_r = aggregate_spec(view_lines(lines@), match description_override {
                Option::Some(o) => Option::Some(o@),
                Option::None => Option::None,
            });
            match r {
                Option::Some(s) => spec_r == Option::Some(s@),
                Option::None => spec_r is None,
            }
        }),
        description_override matches Option::Some(o) ==> r matches Option::Some(s) && s@ == o@,
{
    match description_override {
        Option::Some(o) => Option::Some(o.to_owned()),
        Option::None => {
            let ghost vl = view_lines(lines@);
            let n = lines.len();
            let mut started = false;
            let mut pending = false;
            let mut text = String::new();
            let mut i: usize = 0;
            proof {
                assert(vl.take(0) =~= Seq::<Seq<char>>::empty());
            }
            while i < n
                invariant
                    0 <= i <= n,
                    n == lines@.len(),
                    vl == view_lines(lines@),
                    agg_lines(vl.take(i as int)) == (AggState {
                        started,
                        pending_break: pending,
                        text: text@,
                    }),
                decreases n - i,
            {
                let ghost st = agg_lines(vl.take(i as int));
                proof {
                    assert(vl.take(i + 1).drop_last() =~= vl.take(i as int));
                    assert(vl.take(i + 1).last() == vl[i as int]);
                    assert(vl[i as int] == lines@[i as int]@);
                }
                let t = trimmed(lines[i].as_str());
                let tl = t.unicode_len();
                if tl == 0 {
                    pending = started;
                } else {
                    let c = if t.get_char(tl - 1) == '\\' {
                        let ghost tv = t@;
                        let cc = t.substring_char(0, tl - 1);
                        proof {
                            assert(cc@ =~= tv.drop_last());
                        }
                        cc
                    } else {
                        t
                    };
                    proof {
                        assert(c@ == line_content(t@));
                    }
                    if !started {
                        text = c.to_owned();
                        started = true;
                        pending = false;
                    } else if pending {
                        text.append("\n\n");
                        text.append(c);
                        proof {
                            reveal_strlit("\n\n");
                            assert(("\n\n")@ =~= seq!['\n', '\n']);
                            assert(text@ =~= st.text + seq!['\n', '\n'] + c@);
                        }
                        pending = false;
                    } else {
                        text.append(" ");
                        text.append(c);
                        proof {
                            reveal_strlit(" ");
                            assert((" ")@ =~= seq![' ']);
                            assert(text@ =~= st.text + seq![' '] + c@);
                        }
                    }
                }
                i = i + 1;
            }
            proof {
                assert(vl.take(n as int) =~= vl);
            }
            if started {
                Option::Some(text)
            } else {
                Option::None
            }
        },
    }
}

} // verus!
