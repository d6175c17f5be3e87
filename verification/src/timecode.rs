//! The `HH:MM:SS,mmm` subtitle timecode.
//!
//! A `TimeCode` is a point in time between `00:00:00,000` and
//! `99:59:59,999`; it is equivalent to a count of milliseconds between 0
//! and 359,999,999 inclusive, and the conversion in both directions is
//! exact. Parsing, shifting and formatting all keep the field invariants.

use vstd::prelude::*;

use crate::text::{
    digit_char, digit_of, digits_val, find_char, find_from, is_digit, is_digit_char, is_digits,
    is_space, lemma_digit_of, lemma_find_from_at, lemma_ltrim_idx, lemma_rtrim_idx, ltrim_idx,
    push_char, rtrim_idx, skip_spaces, skip_spaces_rev, strip_plus, trim,
};

verus! {

/// The largest number of milliseconds a timecode can hold: `99:59:59,999`.
pub const MAX_TOTAL_MS: u64 = 359_999_999;

/// Why a timecode could not be produced: the text does not have the
/// `HH:MM:SS,mmm` shape, or a component or a shift result falls outside
/// its valid range.
#[derive(Clone, Copy, Debug, PartialEq, Eq, Structural)]
pub enum TimeCodeError {
    FormatError,
    RangeError,
}

/// The value of one timecode component: the given text, trimmed of
/// surrounding whitespace and allowing one leading `+` sign, read as a
/// decimal integer. A format error when what remains is not a non-empty
/// digit sequence; a range error when its value exceeds `bound`.
pub open spec fn spec_component(t: Seq<char>, bound: u32) -> Result<u32, TimeCodeError> {
    let u = strip_plus(trim(t));
    if !is_digits(u) {
        Err(TimeCodeError::FormatError)
    } else if digits_val(u) > bound {
        Err(TimeCodeError::RangeError)
    } else {
        Ok(digits_val(u) as u32)
    }
}

/// Reads the component of `s` that lies in `[from, to)`, as
/// `spec_component` describes: trimmed, one `+` sign allowed, a decimal
/// integer no greater than `bound`.
fn read_component(s: &str, from: usize, to: usize, bound: u32) -> (r: Result<u32, TimeCodeError>)
    requires
        from <= to <= s@.len(),
        bound <= 999,
    ensures
        r == spec_component(s@.subrange(from as int, to as int), bound),
{
    let ghost t = s@.subrange(from as int, to as int);
    let lo = skip_spaces(s, from, to);
    proof {
        lemma_ltrim_idx(t, 0);
        assert forall|j: int| 0 <= j < lo - from implies is_space(t[j]) by {
            assert(t[j] == s@[from + j]);
        }
        if lo < to {
            assert(t[lo - from] == s@[lo as int]);
        }
        assert(ltrim_idx(t, 0) == lo - from);
    }
    if lo == to {
        proof {
            lemma_rtrim_idx(t, t.len() as int);
            assert(rtrim_idx(t, t.len() as int) == 0);
            assert(trim(t).len() == 0);
            assert(!is_digits(strip_plus(trim(t))));
        }
        return Err(TimeCodeError::FormatError);
    }
    let hi = skip_spaces_rev(s, lo, to);
    proof {
        lemma_rtrim_idx(t, t.len() as int);
        assert forall|j: int| hi - from <= j < t.len() implies is_space(t[j]) by {
            assert(t[j] == s@[from + j]);
        }
        assert(hi > lo);
        assert(t[hi - from - 1] == s@[hi - 1]);
        assert(rtrim_idx(t, t.len() as int) == hi - from);
        assert(trim(t) =~= s@.subrange(lo as int, hi as int));
    }
    let mut k = lo;
    if s.get_char(lo) == '+' {
        k = lo + 1;
    }
    let ghost u = strip_plus(trim(t));
    proof {
        assert(u =~= s@.subrange(k as int, hi as int));
    }
    if k == hi {
        proof {
            assert(!is_digits(u));
        }
        return Err(TimeCodeError::FormatError);
    }
    let mut acc: u32 = 0;
    let mut i = k;
    while i < hi
        invariant
            from <= k < hi,
            k <= i <= hi <= to <= s@.len(),
            bound <= 999,
            t == s@.subrange(from as int, to as int),
            u == strip_plus(trim(t)),
            u == s@.subrange(k as int, hi as int),
            forall|j: int| k <= j < i ==> is_digit(#[trigger] s@[j]),
            ({
                let v = digits_val(s@.subrange(k as int, i as int));
                (v <= 999_999 ==> acc == v) && (v > 999_999 ==> acc > 99_999)
            }),
            acc <= 1_000_000,
        decreases hi - i,
    {
        let c = s.get_char(i);
        if !is_digit_char(c) {
            proof {
                assert(u[i - k] == c);
                assert(!is_digits(u));
            }
            return Err(TimeCodeError::FormatError);
        }
        let d = c as u32 - 48;
        proof {
            let pre = s@.subrange(k as int, i as int);
            let ext = s@.subrange(k as int, i + 1);
            assert(ext.drop_last() =~= pre);
            assert(ext.last() == c);
        }
        if acc > 99_999 {
            acc = 100_000;
        } else {
            acc = acc * 10 + d;
        }
        i = i + 1;
    }
    proof {
        assert(s@.subrange(k as int, i as int) == u);
        assert(is_digits(u));
    }
    if acc > bound {
        Err(TimeCodeError::RangeError)
    } else {
        Ok(acc)
    }
}

/// One point in time within a subtitle file.
#[derive(Clone, Copy, Debug, PartialEq, Eq, Structural)]
pub struct TimeCode {
    pub hour: u8,
    pub minute: u8,
    pub second: u8,
    pub millisecond: u16,
}

impl TimeCode {
    /// Every field lies in its semantic range.
    pub open spec fn valid(self) -> bool {
        self.hour <= 99 && self.minute <= 59 && self.second <= 59 && self.millisecond <= 999
    }

    /// The number of milliseconds since `00:00:00,000`.
    pub open spec fn total_ms(self) -> int {
        self.hour * 3_600_000 + self.minute * 60_000 + self.second * 1_000 + self.millisecond
    }

    /// The timecode whose total millisecond count is `t`, by division and
    /// remainder.
    pub open spec fn spec_from_ms(t: int) -> TimeCode {
        let rem_hour = t % 3_600_000;
        let rem_minute = rem_hour % 60_000;
        TimeCode {
            hour: (t / 3_600_000) as u8,
            minute: (rem_hour / 60_000) as u8,
            second: (rem_minute / 1_000) as u8,
            millisecond: (rem_minute % 1_000) as u16,
        }
    }

    /// The `HH:MM:SS,mmm` rendering of this timecode: hour, minute and
    /// second zero-padded to two digits, the millisecond to three.
    pub open spec fn spec_format(self) -> Seq<char> {
        seq![
            digit_of(self.hour as int / 10),
            digit_of(self.hour as int % 10),
            ':',
            digit_of(self.minute as int / 10),
            digit_of(self.minute as int % 10),
            ':',
            digit_of(self.second as int / 10),
            digit_of(self.second as int % 10),
            ',',
            digit_of(self.millisecond as int / 100),
            digit_of((self.millisecond as int / 10) % 10),
            digit_of(self.millisecond as int % 10),
        ]
    }

    /// What parsing a `HH:MM:SS,mmm` text yields. The text is split on
    /// the first comma, the part before it on colons; anything after a
    /// second comma or a third colon is ignored. A format error when the
    /// comma or one of the two colons is missing or a component is not a
    /// digit sequence; a range error when every component is numeric but
    /// one exceeds its bound.
    pub open spec fn spec_parse(s: Seq<char>) -> Result<TimeCode, TimeCodeError> {
        let n = s.len() as int;
        let c1 = find_from(s, ',', 0, n);
        if c1 == n {
            Err(TimeCodeError::FormatError)
        } else {
            let c2 = find_from(s, ',', c1 + 1, n);
            let i1 = find_from(s, ':', 0, c1);
            if i1 == c1 {
                Err(TimeCodeError::FormatError)
            } else {
                let i2 = find_from(s, ':', i1 + 1, c1);
                if i2 == c1 {
                    Err(TimeCodeError::FormatError)
                } else {
                    let i3 = find_from(s, ':', i2 + 1, c1);
                    let rh = spec_component(s.subrange(0, i1), 99);
                    let rm = spec_component(s.subrange(i1 + 1, i2), 59);
                    let rs = spec_component(s.subrange(i2 + 1, i3), 59);
                    let rms = spec_component(s.subrange(c1 + 1, c2), 999);
                    if rh == Err::<u32, _>(TimeCodeError::FormatError) || rm == Err::<u32, _>(
                        TimeCodeError::FormatError,
                    ) || rs == Err::<u32, _>(TimeCodeError::FormatError) || rms == Err::<u32, _>(
                        TimeCodeError::FormatError,
                    ) {
                        Err(TimeCodeError::FormatError)
                    } else {
                        match (rh, rm, rs, rms) {
                            (Ok(h), Ok(m), Ok(sec), Ok(ms)) => Ok(
                                TimeCode {
                                    hour: h as u8,
                                    minute: m as u8,
                                    second: sec as u8,
                                    millisecond: ms as u16,
                                },
                            ),
                            _ => Err(TimeCodeError::RangeError),
                        }
                    }
                }
            }
        }
    }

    /// The timecode `t` milliseconds after `self`, or a range error when
    /// the result would fall outside the representable range.
    pub open spec fn spec_shift(self, offset: int) -> Result<TimeCode, TimeCodeError> {
        let t = self.total_ms() + offset;
        if 0 <= t <= MAX_TOTAL_MS {
            Ok(Self::spec_from_ms(t))
        } else {
            Err(TimeCodeError::RangeError)
        }
    }

    /// Builds a timecode from its four fields, each within its range.
    pub fn new(hour: u8, minute: u8, second: u8, millisecond: u16) -> (r: TimeCode)
        requires
            hour <= 99,
            minute <= 59,
            second <= 59,
            millisecond <= 999,
        ensures
            r == (TimeCode { hour, minute, second, millisecond }),
            r.valid(),
    {
        TimeCode { hour, minute, second, millisecond }
    }

    /// Parses a `HH:MM:SS,mmm` text into a timecode, exactly as
    /// `spec_parse` describes. On success the timecode is valid.
    pub fn parse(timecode_string: &str) -> (r: Result<TimeCode, TimeCodeError>)
        ensures
            r == Self::spec_parse(timecode_string@),
            r matches Ok(tc) ==> tc.valid(),
    {
        let n = timecode_string.unicode_len();
        let c1 = find_char(timecode_string, ',', 0, n);
        if c1 == n {
            return Err(TimeCodeError::FormatError);
        }
        let c2 = find_char(timecode_string, ',', c1 + 1, n);
        let i1 = find_char(timecode_string, ':', 0, c1);
        if i1 == c1 {
            return Err(TimeCodeError::FormatError);
        }
        let i2 = find_char(timecode_string, ':', i1 + 1, c1);
        if i2 == c1 {
            return Err(TimeCodeError::FormatError);
        }
        let i3 = find_char(timecode_string, ':', i2 + 1, c1);
        let rh = read_component(timecode_string, 0, i1, 99);
        let rm = read_component(timecode_string, i1 + 1, i2, 59);
        let rs = read_component(timecode_string, i2 + 1, i3, 59);
        let rms = read_component(timecode_string, c1 + 1, c2, 999);
        if matches!(rh, Err(TimeCodeError::FormatError)) || matches!(
            rm,
            Err(TimeCodeError::FormatError),
        ) || matches!(rs, Err(TimeCodeError::FormatError)) || matches!(
            rms,
            Err(TimeCodeError::FormatError),
        ) {
            return Err(TimeCodeError::FormatError);
        }
        match (rh, rm, rs, rms) {
            (Ok(h), Ok(m), Ok(sec), Ok(ms)) => Ok(
                TimeCode::new(h as u8, m as u8, sec as u8, ms as u16),
            ),
            _ => Err(TimeCodeError::RangeError),
        }
    }

    /// The exact millisecond count of this timecode.
    pub fn get_millisecond_in_total(&self) -> (r: u64)
        ensures
            r == self.total_ms(),
            self.valid() ==> r <= MAX_TOTAL_MS,
    {
        self.hour as u64 * 3_600_000 + self.minute as u64 * 60_000 + self.second as u64 * 1_000
            + self.millisecond as u64
    }

    /// The timecode holding exactly `millisecond` milliseconds; a range
    /// error exactly when that count lies past `99:59:59,999`.
    pub fn millisecond_to_timecode(millisecond: u64) -> (r: Result<TimeCode, TimeCodeError>)
        ensures
            millisecond <= MAX_TOTAL_MS <==> (r matches Ok(tc) && tc == Self::spec_from_ms(
                millisecond as int,
            )),
            millisecond > MAX_TOTAL_MS <==> r == Err::<TimeCode, _>(TimeCodeError::RangeError),
            r matches Ok(tc) ==> tc.valid() && tc.total_ms() == millisecond,
    {
        if millisecond > MAX_TOTAL_MS {
            return Err(TimeCodeError::RangeError);
        }
        let hour = millisecond / (60 * 60 * 1000);
        let rem_hour = millisecond % (60 * 60 * 1000);
        let minute = rem_hour / (60 * 1000);
        let rem_minute = rem_hour % (60 * 1000);
        let second = rem_minute / 1000;
        let ms = rem_minute % 1000;
        proof {
            Self::lemma_from_ms_total(millisecond as int);
        }
        assert(hour <= 99);
        assert(minute <= 59 && second <= 59 && ms <= 999);
        Ok(
            TimeCode {
                hour: hour as u8,
                minute: minute as u8,
                second: second as u8,
                millisecond: ms as u16,
            },
        )
    }

    /// Converting a millisecond count in range to a timecode and back is
    /// exact, and the fields it produces are in range.
    pub proof fn lemma_from_ms_total(t: int)
        requires
            0 <= t <= MAX_TOTAL_MS,
        ensures
            Self::spec_from_ms(t).valid(),
            Self::spec_from_ms(t).total_ms() == t,
    {
        let rem_hour = t % 3_600_000;
        let rem_minute = rem_hour % 60_000;
        assert(t / 3_600_000 <= 99 && t == 3_600_000 * (t / 3_600_000) + rem_hour && 0 <= rem_hour
            < 3_600_000);
        assert(rem_hour == 60_000 * (rem_hour / 60_000) + rem_minute && rem_hour / 60_000 <= 59
            && 0 <= rem_minute < 60_000);
        assert(rem_minute == 1_000 * (rem_minute / 1_000) + rem_minute % 1_000 && rem_minute
            / 1_000 <= 59 && 0 <= rem_minute % 1_000 <= 999);
    }

    /// Converting a valid timecode to milliseconds and back yields the
    /// same timecode: the two conversions are mutually inverse.
    pub proof fn lemma_round_trip(tc: TimeCode)
        requires
            tc.valid(),
        ensures
            0 <= tc.total_ms() <= MAX_TOTAL_MS,
            Self::spec_from_ms(tc.total_ms()) == tc,
    {
        let t = tc.total_ms();
        let rest = tc.minute * 60_000 + tc.second * 1_000 + tc.millisecond;
        assert(t / 3_600_000 == tc.hour && t % 3_600_000 == rest);
        let rest2 = tc.second * 1_000 + tc.millisecond;
        assert(rest / 60_000 == tc.minute && rest % 60_000 == rest2);
        assert(rest2 / 1_000 == tc.second && rest2 % 1_000 == tc.millisecond);
    }

    /// Renders this timecode as `HH:MM:SS,mmm`, exactly as `spec_format`
    /// describes.
    pub fn format_string(&self) -> (r: String)
        requires
            self.valid(),
        ensures
            r@ == self.spec_format(),
    {
        let mut out = String::new();
        push_char(&mut out, digit_char(self.hour / 10));
        push_char(&mut out, digit_char(self.hour % 10));
        push_char(&mut out, ':');
        push_char(&mut out, digit_char(self.minute / 10));
        push_char(&mut out, digit_char(self.minute % 10));
        push_char(&mut out, ':');
        push_char(&mut out, digit_char(self.second / 10));
        push_char(&mut out, digit_char(self.second % 10));
        push_char(&mut out, ',');
        push_char(&mut out, digit_char((self.millisecond / 100) as u8));
        push_char(&mut out, digit_char(((self.millisecond / 10) % 10) as u8));
        push_char(&mut out, digit_char((self.millisecond % 10) as u8));
        proof {
            assert(out@ =~= self.spec_format());
        }
        out
    }

    /// Shifting by zero milliseconds returns the timecode unchanged.
    pub proof fn lemma_zero_shift(tc: TimeCode)
        requires
            tc.valid(),
        ensures
            tc.spec_shift(0) == Ok::<TimeCode, TimeCodeError>(tc),
    {
        Self::lemma_round_trip(tc);
    }

    /// Two shifts in sequence equal one shift by the summed offset,
    /// whenever the intermediate result stays in range.
    pub proof fn lemma_shift_composition(tc: TimeCode, a: int, b: int)
        requires
            tc.valid(),
            tc.spec_shift(a) is Ok,
        ensures
            tc.spec_shift(a) matches Ok(u) && u.spec_shift(b) == tc.spec_shift(a + b),
    {
        Self::lemma_from_ms_total(tc.total_ms() + a);
    }

    /// Formatting a valid timecode and parsing the text back yields the
    /// same timecode: `format_string` and `parse` are mutually inverse.
    pub proof fn lemma_parse_format(tc: TimeCode)
        requires
            tc.valid(),
        ensures
            Self::spec_parse(tc.spec_format()) == Ok::<TimeCode, TimeCodeError>(tc),
    {
        let s = tc.spec_format();
        let hour = tc.hour as int;
        let minute = tc.minute as int;
        let second = tc.second as int;
        let ms = tc.millisecond as int;
        lemma_digit_of(hour / 10);
        lemma_digit_of(hour % 10);
        lemma_digit_of(minute / 10);
        lemma_digit_of(minute % 10);
        lemma_digit_of(second / 10);
        lemma_digit_of(second % 10);
        lemma_digit_of(ms / 100);
        lemma_digit_of((ms / 10) % 10);
        lemma_digit_of(ms % 10);
        lemma_find_from_at(s, ',', 0, 12, 8);
        lemma_find_from_at(s, ',', 9, 12, 12);
        lemma_find_from_at(s, ':', 0, 8, 2);
        lemma_find_from_at(s, ':', 3, 8, 5);
        lemma_find_from_at(s, ':', 6, 8, 8);
        assert(s.subrange(0, 2) =~= seq![digit_of(hour / 10), digit_of(hour % 10)]);
        assert(s.subrange(3, 5) =~= seq![digit_of(minute / 10), digit_of(minute % 10)]);
        assert(s.subrange(6, 8) =~= seq![digit_of(second / 10), digit_of(second % 10)]);
        assert(s.subrange(9, 12) =~= seq![
            digit_of(ms / 100),
            digit_of((ms / 10) % 10),
            digit_of(ms % 10),
        ]);
        Self::lemma_two_digit_component(s.subrange(0, 2), hour / 10, hour % 10);
        Self::lemma_two_digit_component(s.subrange(3, 5), minute / 10, minute % 10);
        Self::lemma_two_digit_component(s.subrange(6, 8), second / 10, second % 10);
        Self::lemma_three_digit_component(s.subrange(9, 12), ms / 100, (ms / 10) % 10, ms % 10);
        assert(digits_val(s.subrange(0, 2)) == hour);
        assert(digits_val(s.subrange(3, 5)) == minute);
        assert(digits_val(s.subrange(6, 8)) == second);
        assert(ms == 100 * (ms / 100) + 10 * ((ms / 10) % 10) + ms % 10);
        assert(digits_val(s.subrange(9, 12)) == ms);
    }

    /// A two-digit sequence needs no trimming and reads back as the value
    /// its digits spell.
    proof fn lemma_two_digit_component(t: Seq<char>, a: int, b: int)
        requires
            0 <= a <= 9,
            0 <= b <= 9,
            t == seq![digit_of(a), digit_of(b)],
        ensures
            trim(t) == t,
            strip_plus(t) == t,
            is_digits(t),
            digits_val(t) == a * 10 + b,
    {
        lemma_digit_of(a);
        lemma_digit_of(b);
        assert(ltrim_idx(t, 0) == 0);
        assert(rtrim_idx(t, 2) == 2);
        assert(trim(t) =~= t);
        assert(is_digits(t));
        assert(t.drop_last() =~= seq![digit_of(a)]);
        assert(seq![digit_of(a)].drop_last() =~= Seq::<char>::empty());
        assert(digits_val(Seq::<char>::empty()) == 0);
        assert(digits_val(seq![digit_of(a)]) == a);
    }

    /// A three-digit sequence needs no trimming and reads back as the
    /// value its digits spell.
    proof fn lemma_three_digit_component(t: Seq<char>, a: int, b: int, c: int)
        requires
            0 <= a <= 9,
            0 <= b <= 9,
            0 <= c <= 9,
            t == seq![digit_of(a), digit_of(b), digit_of(c)],
        ensures
            trim(t) == t,
            strip_plus(t) == t,
            is_digits(t),
            digits_val(t) == a * 100 + b * 10 + c,
    {
        lemma_digit_of(a);
        lemma_digit_of(b);
        lemma_digit_of(c);
        assert(ltrim_idx(t, 0) == 0);
        assert(rtrim_idx(t, 3) == 3);
        assert(trim(t) =~= t);
        assert(is_digits(t));
        assert(t.drop_last() =~= seq![digit_of(a), digit_of(b)]);
        Self::lemma_two_digit_component(seq![digit_of(a), digit_of(b)], a, b);
    }

    /// Move this timecode by `offset` milliseconds. The result is exactly
    /// `spec_shift`: on success the new value holds the shifted count; a
    /// result below zero or above the maximum leaves the timecode
    /// unchanged and reports a range error.
    pub fn shift(&mut self, offset: i64) -> (r: Result<(), TimeCodeError>)
        requires
            old(self).valid(),
        ensures
            match old(self).spec_shift(offset as int) {
                Ok(tc) => r == Ok::<(), TimeCodeError>(()) && *final(self) == tc,
                Err(e) => r == Err::<(), TimeCodeError>(e) && *final(self) == *old(self),
            },
            final(self).valid(),
    {
        let total = self.get_millisecond_in_total();
        let sum: i128 = total as i128 + offset as i128;
        if sum < 0 || sum > MAX_TOTAL_MS as i128 {
            return Err(TimeCodeError::RangeError);
        }
        match Self::millisecond_to_timecode(sum as u64) {
            Ok(tc) => {
                *self = tc;
                Ok(())
            },
            Err(e) => {
                proof {
                    assert(false);
                }
                Err(e)
            },
        }
    }
}

} // verus!
