//! Validation of the values handed in on the command line.
//!
//! Of the three arguments (program name, source path, offset) this module
//! checks what can be decided from the text alone: the source name must
//! end in `.srt`, the target name is derived from it, and the offset must
//! read as a signed 32-bit number of milliseconds. Whether the paths
//! exist on disk is the caller's concern.

use vstd::prelude::*;

use crate::text::{
    digits_val, is_digit, is_digit_char, is_digits, lemma_ltrim_idx, lemma_rtrim_idx, ltrim_idx,
    rtrim_idx, skip_spaces, skip_spaces_rev, trim,
};

verus! {

/// What parsing a signed decimal offset yields: the text trimmed of
/// whitespace, one optional `+` or `-` sign, then digits whose signed
/// value fits an `i32`; `None` when the shape or the range fails.
pub open spec fn spec_parse_i32(s: Seq<char>) -> Option<i32> {
    let t = trim(s);
    let neg = t.len() > 0 && t[0] == '-';
    let u = if t.len() > 0 && (t[0] == '+' || t[0] == '-') {
        t.drop_first()
    } else {
        t
    };
    if !is_digits(u) {
        None
    } else if neg {
        if digits_val(u) <= 2_147_483_648 {
            Some((0 - digits_val(u)) as i32)
        } else {
            None
        }
    } else {
        if digits_val(u) <= 2_147_483_647 {
            Some(digits_val(u) as i32)
        } else {
            None
        }
    }
}

/// Parses a signed decimal offset, exactly as `spec_parse_i32` describes.
fn parse_offset(s: &str) -> (r: Option<i32>)
    ensures
        r == spec_parse_i32(s@),
{
    let n = s.unicode_len();
    let lo = skip_spaces(s, 0, n);
    proof {
        lemma_ltrim_idx(s@, 0);
        assert(ltrim_idx(s@, 0) == lo);
        lemma_rtrim_idx(s@, n as int);
    }
    if lo == n {
        proof {
            assert(rtrim_idx(s@, n as int) == 0);
            assert(trim(s@).len() == 0);
        }
        return None;
    }
    let hi = skip_spaces_rev(s, lo, n);
    proof {
        assert(hi > lo);
        assert(rtrim_idx(s@, n as int) == hi);
        assert(trim(s@) =~= s@.subrange(lo as int, hi as int));
    }
    let mut k = lo;
    let mut neg = false;
    let c0 = s.get_char(lo);
    if c0 == '+' {
        k = lo + 1;
    } else if c0 == '-' {
        k = lo + 1;
        neg = true;
    }
    let ghost t = trim(s@);
    let ghost u = if t.len() > 0 && (t[0] == '+' || t[0] == '-') {
        t.drop_first()
    } else {
        t
    };
    proof {
        assert(u =~= s@.subrange(k as int, hi as int));
    }
    if k == hi {
        return None;
    }
    let mut acc: u64 = 0;
    let mut i = k;
    while i < hi
        invariant
            k <= i <= hi <= s@.len(),
            k < hi,
            u == s@.subrange(k as int, hi as int),
            u == (if t.len() > 0 && (t[0] == '+' || t[0] == '-') {
                t.drop_first()
            } else {
                t
            }),
            t == trim(s@),
            neg == (t.len() > 0 && t[0] == '-'),
            forall|j: int| k <= j < i ==> is_digit(#[trigger] s@[j]),
            ({
                let v = digits_val(s@.subrange(k as int, i as int));
                (v <= 9_999_999_999 ==> acc == v) && (v > 9_999_999_999 ==> acc > 9_999_999_999)
            }),
            acc <= 99_999_999_999,
        decreases hi - i,
    {
        let c = s.get_char(i);
        if !is_digit_char(c) {
            proof {
                assert(u[i - k] == c);
                assert(!is_digits(u));
            }
            return None;
        }
        let d = (c as u32 - 48) as u64;
        proof {
            let pre = s@.subrange(k as int, i as int);
            let ext = s@.subrange(k as int, i + 1);
            assert(ext.drop_last() =~= pre);
            assert(ext.last() == c);
        }
        if acc > 9_999_999_999 {
            acc = 10_000_000_000;
        } else {
            acc = acc * 10 + d;
        }
        i = i + 1;
    }
    proof {
        assert(s@.subrange(k as int, i as int) == u);
        assert(is_digits(u));
    }
    if neg {
        if acc <= 2_147_483_648 {
            Some((0 - acc as i64) as i32)
        } else {
            None
        }
    } else {
        if acc <= 2_147_483_647 {
            Some(acc as i32)
        } else {
            None
        }
    }
}

/// The characters of the `-shift.srt` ending given to the target name.
pub open spec fn shift_suffix() -> Seq<char> {
    seq!['-', 's', 'h', 'i', 'f', 't', '.', 's', 'r', 't']
}

/// The validated values of one run: where to read, where to write, and
/// the millisecond offset to apply.
pub struct RuntimeArguments {
    pub source_file_path: String,
    pub target_file_path: String,
    pub offset: i32,
}

impl RuntimeArguments {
    /// The source name is long enough to have a stem and ends in `.srt`.
    pub open spec fn valid_source_name(s: Seq<char>) -> bool {
        &&& s.len() >= 4
        &&& s[s.len() - 4] == '.'
        &&& s[s.len() - 3] == 's'
        &&& s[s.len() - 2] == 'r'
        &&& s[s.len() - 1] == 't'
    }

    /// The derived target name: the stem of the source name with
    /// `-shift.srt` appended.
    pub open spec fn target_name(s: Seq<char>) -> Seq<char> {
        s.subrange(0, s.len() - 4) + shift_suffix()
    }

    /// Validates the textual arguments: the source name (the second
    /// argument) must end in `.srt`, and the offset (the third) must read
    /// as a signed 32-bit integer. On success the target name is the
    /// source stem with `-shift.srt` appended; each failure names its
    /// reason. Whether the files exist is not decided here.
    pub fn build(args: [String; 3]) -> (r: Result<RuntimeArguments, &'static str>)
        ensures
            r is Ok <==> Self::valid_source_name(args@[1]@) && spec_parse_i32(args@[2]@) is Some,
            r matches Ok(ra) ==> {
                &&& ra.source_file_path@ == args@[1]@
                &&& ra.target_file_path@ == Self::target_name(args@[1]@)
                &&& Some(ra.offset) == spec_parse_i32(args@[2]@)
            },
            !Self::valid_source_name(args@[1]@) ==> (r matches Err(m) && m@
                == "The file is not a valid .srt file. Hint: make sure the file extension is correct."@),
            Self::valid_source_name(args@[1]@) && spec_parse_i32(args@[2]@) is None ==> (
            r matches Err(m) && m@
                == "Not a valid integer. Input the time offset in milliseconds."@),
    {
        let source_file_path = args[1].clone();
        let n = source_file_path.as_str().unicode_len();
        let valid_ext = n >= 4 && source_file_path.as_str().get_char(n - 4) == '.'
            && source_file_path.as_str().get_char(n - 3) == 's' && source_file_path.as_str().get_char(
            n - 2,
        ) == 'r' && source_file_path.as_str().get_char(n - 1) == 't';
        if !valid_ext {
            return Err(
                "The file is not a valid .srt file. Hint: make sure the file extension is correct.",
            );
        }
        let stem = source_file_path.as_str().substring_char(0, n - 4);
        let target_file_path = stem.to_owned().concat("-shift.srt");
        proof {
            reveal_strlit("-shift.srt");
            assert("-shift.srt"@ =~= shift_suffix());
        }
        let offset = match parse_offset(args[2].as_str()) {
            Some(v) => v,
            None => {
                return Err("Not a valid integer. Input the time offset in milliseconds.");
            },
        };
        Ok(RuntimeArguments { source_file_path, target_file_path, offset })
    }
}

} // verus!
