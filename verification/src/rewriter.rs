//! The line classifier and rewriter.
//!
//! A subtitle file is a sequence of blocks: a sequence-number line, a
//! `start --> end` timecode line, one or more content lines, and a blank
//! line. The rewriter walks the lines once, in order, with a three-state
//! machine that tracks which kind of line comes next; it rewrites exactly
//! the timecode lines, shifting both sides by the offset, and passes every
//! other line through unchanged. The first malformed or out-of-range
//! timecode stops the pass with an error naming the line and the side.

use vstd::prelude::*;

use crate::text::{is_space, skip_spaces};
use crate::timecode::{TimeCode, TimeCodeError};

verus! {

/// The kind of line the rewriter expects next.
#[derive(Clone, Copy, Debug, PartialEq, Eq, Structural)]
pub enum LineType {
    Count,
    Timecode,
    Content,
}

/// The side of a timecode line that an error concerns.
#[derive(Clone, Copy, Debug, PartialEq, Eq, Structural)]
pub enum Side {
    Start,
    End,
}

/// Why the pass stopped, with the 1-based number of the offending line.
#[derive(Clone, Copy, Debug, PartialEq, Eq, Structural)]
pub enum RewriteError {
    /// The expected timecode line does not split on `" --> "` into
    /// exactly two fields.
    Split { line: usize },
    /// One side of the timecode line failed to parse.
    Parse { line: usize, side: Side, kind: TimeCodeError },
    /// One side, shifted, left the representable range.
    Shift { line: usize, side: Side },
}

impl RewriteError {
    /// The 1-based number of the line the error concerns.
    pub open spec fn line(self) -> usize {
        match self {
            RewriteError::Split { line } => line,
            RewriteError::Parse { line, .. } => line,
            RewriteError::Shift { line, .. } => line,
        }
    }
}

/// The characters of the literal `" --> "` separator.
pub open spec fn sep_seq() -> Seq<char> {
    seq![' ', '-', '-', '>', ' ']
}

/// The `" --> "` separator stands at index `i` of `s`.
pub open spec fn is_sep_at(s: Seq<char>, i: int) -> bool {
    &&& 0 <= i
    &&& i + 5 <= s.len()
    &&& s[i] == ' '
    &&& s[i + 1] == '-'
    &&& s[i + 2] == '-'
    &&& s[i + 3] == '>'
    &&& s[i + 4] == ' '
}

/// The first index at or after `i` where the separator stands, or
/// `s.len()` when it stands nowhere there.
pub open spec fn find_sep_from(s: Seq<char>, i: int) -> int
    decreases s.len() - i,
{
    if !(0 <= i && i + 5 <= s.len()) {
        s.len() as int
    } else if is_sep_at(s, i) {
        i
    } else {
        find_sep_from(s, i + 1)
    }
}

/// A line is blank when it holds nothing but whitespace.
pub open spec fn spec_is_blank(line: Seq<char>) -> bool {
    forall|i: int| 0 <= i < line.len() ==> is_space(#[trigger] line[i])
}

/// What rewriting one expected timecode line yields: the line splits on
/// one `" --> "` separator into a start and an end, both parse, both
/// shift by `offset`, and the result is the two shifted timecodes joined
/// by the same separator. The first failure names the line and the side.
pub open spec fn spec_rewrite_timecode_line(line: Seq<char>, offset: int, lineno: int) -> Result<
    (Seq<char>, LineType),
    RewriteError,
> {
    let n = line.len() as int;
    let p = find_sep_from(line, 0);
    if p == n {
        Err(RewriteError::Split { line: lineno as usize })
    } else if find_sep_from(line, p + 5) != n {
        Err(RewriteError::Split { line: lineno as usize })
    } else {
        match TimeCode::spec_parse(line.subrange(0, p)) {
            Err(k) => Err(
                RewriteError::Parse { line: lineno as usize, side: Side::Start, kind: k },
            ),
            Ok(st) => match TimeCode::spec_parse(line.subrange(p + 5, n)) {
                Err(k) => Err(
                    RewriteError::Parse { line: lineno as usize, side: Side::End, kind: k },
                ),
                Ok(en) => match st.spec_shift(offset) {
                    Err(_) => Err(
                        RewriteError::Shift { line: lineno as usize, side: Side::Start },
                    ),
                    Ok(st2) => match en.spec_shift(offset) {
                        Err(_) => Err(
                            RewriteError::Shift { line: lineno as usize, side: Side::End },
                        ),
                        Ok(en2) => Ok(
                            (st2.spec_format() + sep_seq() + en2.spec_format(), LineType::Content),
                        ),
                    },
                },
            },
        }
    }
}

/// The output line and next state for one input line: a sequence-number
/// line or a content line passes through unchanged, a blank line closes
/// the block, and an expected timecode line is rewritten.
pub open spec fn spec_step(state: LineType, line: Seq<char>, offset: int, lineno: int) -> Result<
    (Seq<char>, LineType),
    RewriteError,
> {
    match state {
        LineType::Count => Ok((line, LineType::Timecode)),
        LineType::Timecode => spec_rewrite_timecode_line(line, offset, lineno),
        LineType::Content => if spec_is_blank(line) {
            Ok((line, LineType::Count))
        } else {
            Ok((line, LineType::Content))
        },
    }
}

/// The executable result equals the specified one: same error, or same
/// output text and same next state.
pub open spec fn step_result_matches(
    r: Result<(String, LineType), RewriteError>,
    s: Result<(Seq<char>, LineType), RewriteError>,
) -> bool {
    match (r, s) {
        (Ok(a), Ok(b)) => a.0@ == b.0 && a.1 == b.1,
        (Err(e), Err(f)) => e == f,
        _ => false,
    }
}

/// Whether `line` holds nothing but whitespace.
pub fn is_blank_line(line: &str) -> (r: bool)
    ensures
        r == spec_is_blank(line@),
{
    let n = line.unicode_len();
    let k = skip_spaces(line, 0, n);
    k == n
}

/// The first index at or after `from` where the `" --> "` separator
/// stands in `s`, or the length of `s` when it stands nowhere there.
fn find_sep(s: &str, from: usize) -> (r: usize)
    requires
        from <= s@.len(),
    ensures
        r == find_sep_from(s@, from as int),
        from <= r <= s@.len(),
        r < s@.len() ==> is_sep_at(s@, r as int),
{
    let n = s.unicode_len();
    if n < 5 {
        return n;
    }
    let mut i = from;
    while i <= n - 5
        invariant
            from <= i <= n,
            n == s@.len(),
            5 <= n,
            find_sep_from(s@, from as int) == find_sep_from(s@, i as int),
        decreases n - i,
    {
        if s.get_char(i) == ' ' && s.get_char(i + 1) == '-' && s.get_char(i + 2) == '-'
            && s.get_char(i + 3) == '>' && s.get_char(i + 4) == ' ' {
            return i;
        }
        i = i + 1;
    }
    n
}

/// Rewrites one expected timecode line, exactly as
/// `spec_rewrite_timecode_line` describes.
fn rewrite_timecode_line(line: &str, offset: i64, line_number: usize) -> (r: Result<
    (String, LineType),
    RewriteError,
>)
    ensures
        step_result_matches(
            r,
            spec_rewrite_timecode_line(line@, offset as int, line_number as int),
        ),
{
    let n = line.unicode_len();
    let p = find_sep(line, 0);
    if p == n {
        return Err(RewriteError::Split { line: line_number });
    }
    let p2 = find_sep(line, p + 5);
    if p2 != n {
        return Err(RewriteError::Split { line: line_number });
    }
    let start_str = line.substring_char(0, p);
    let end_str = line.substring_char(p + 5, n);
    let st = match TimeCode::parse(start_str) {
        Ok(t) => t,
        Err(k) => {
            return Err(RewriteError::Parse { line: line_number, side: Side::Start, kind: k });
        },
    };
    let en = match TimeCode::parse(end_str) {
        Ok(t) => t,
        Err(k) => {
            return Err(RewriteError::Parse { line: line_number, side: Side::End, kind: k });
        },
    };
    let mut st2 = st;
    match st2.shift(offset) {
        Ok(_) => (),
        Err(_) => {
            return Err(RewriteError::Shift { line: line_number, side: Side::Start });
        },
    }
    let mut en2 = en;
    match en2.shift(offset) {
        Ok(_) => (),
        Err(_) => {
            return Err(RewriteError::Shift { line: line_number, side: Side::End });
        },
    }
    let start_fmt = st2.format_string();
    let end_fmt = en2.format_string();
    let out = start_fmt.concat(" --> ").concat(end_fmt.as_str());
    proof {
        reveal_strlit(" --> ");
        assert(" --> "@ =~= sep_seq());
    }
    Ok((out, LineType::Content))
}

/// Classifies and processes one line, exactly as `spec_step` describes:
/// the output line to write and the state for the next line, or the
/// error that stops the pass.
pub fn process_line(state: LineType, line: &str, offset: i64, line_number: usize) -> (r: Result<
    (String, LineType),
    RewriteError,
>)
    ensures
        step_result_matches(r, spec_step(state, line@, offset as int, line_number as int)),
{
    match state {
        LineType::Count => Ok((line.to_owned(), LineType::Timecode)),
        LineType::Timecode => rewrite_timecode_line(line, offset, line_number),
        LineType::Content => {
            if is_blank_line(line) {
                Ok((line.to_owned(), LineType::Count))
            } else {
                Ok((line.to_owned(), LineType::Content))
            }
        },
    }
}

/// The lines produced, and the error if one stopped the pass, when the
/// machine runs from `state` over `lines`, numbering them from `lineno`.
pub open spec fn spec_run(state: LineType, lines: Seq<Seq<char>>, offset: int, lineno: int) -> (
    Seq<Seq<char>>,
    Option<RewriteError>,
)
    decreases lines.len(),
{
    if lines.len() == 0 {
        (Seq::empty(), None)
    } else {
        match spec_step(state, lines[0], offset, lineno) {
            Err(e) => (Seq::empty(), Some(e)),
            Ok(res) => {
                let rest = spec_run(res.1, lines.drop_first(), offset, lineno + 1);
                (seq![res.0] + rest.0, rest.1)
            },
        }
    }
}

/// One line comes out for every line that goes in: on success the output
/// has exactly as many lines as the input, and when an error stops the
/// pass at some line, exactly the lines before it have been produced.
pub proof fn lemma_run_line_counts(
    state: LineType,
    lines: Seq<Seq<char>>,
    offset: int,
    lineno: int,
)
    requires
        0 <= lineno,
        lineno + lines.len() <= usize::MAX,
    ensures
        ({
            let run = spec_run(state, lines, offset, lineno);
            &&& run.1 is None ==> run.0.len() == lines.len()
            &&& run.1 matches Some(e) ==> run.0.len() == e.line() - lineno && lineno <= e.line()
                < lineno + lines.len()
        }),
    decreases lines.len(),
{
    if lines.len() > 0 {
        match spec_step(state, lines[0], offset, lineno) {
            Err(e) => {},
            Ok(res) => {
                lemma_run_line_counts(res.1, lines.drop_first(), offset, lineno + 1);
            },
        }
    }
}

/// Runs the whole pass over a file held in memory: the lines produced,
/// in order, and the error that stopped the pass, if one did. Equal to
/// `spec_run` from the initial state with lines numbered from 1.
#[verifier::rlimit(50)]
pub fn rewrite_lines(lines: &Vec<String>, offset: i64) -> (r: (Vec<String>, Option<RewriteError>))
    ensures
        ({
            let run = spec_run(LineType::Count, lines.deep_view(), offset as int, 1);
            r.0.deep_view() == run.0 && r.1 == run.1
        }),
{
    let ghost dv = lines.deep_view();
    let mut out: Vec<String> = Vec::new();
    let mut state = LineType::Count;
    let mut i: usize = 0;
    proof {
        assert(dv.skip(0) =~= dv);
        assert(out.deep_view() + spec_run(LineType::Count, dv, offset as int, 1).0 =~= spec_run(
            LineType::Count,
            dv,
            offset as int,
            1,
        ).0);
    }
    while i < lines.len()
        invariant
            i <= lines.len(),
            dv == lines.deep_view(),
            dv.len() == lines.len(),
            ({
                let full = spec_run(LineType::Count, dv, offset as int, 1);
                let rest = spec_run(state, dv.skip(i as int), offset as int, i + 1);
                full.0 == out.deep_view() + rest.0 && full.1 == rest.1
            }),
        decreases lines.len() - i,
    {
        proof {
            assert(dv.skip(i as int)[0] == lines[i as int]@);
        }
        match process_line(state, lines[i].as_str(), offset, i + 1) {
            Ok(step) => {
                let ghost prev = out.deep_view();
                let ghost rest = spec_run(state, dv.skip(i as int), offset as int, i + 1);
                out.push(step.0);
                state = step.1;
                proof {
                    assert(dv.skip(i as int).drop_first() =~= dv.skip(i + 1));
                    assert(out.deep_view() =~= prev.push(step.0@));
                    let rest2 = spec_run(state, dv.skip(i + 1), offset as int, i + 2);
                    assert(prev + rest.0 =~= out.deep_view() + rest2.0);
                }
            },
            Err(e) => {
                proof {
                    assert(out.deep_view() + Seq::<Seq<char>>::empty() =~= out.deep_view());
                }
                return (out, Some(e));
            },
        }
        i = i + 1;
    }
    proof {
        assert(dv.skip(i as int).len() == 0);
        assert(out.deep_view() + Seq::<Seq<char>>::empty() =~= out.deep_view());
    }
    (out, None)
}

} // verus!
