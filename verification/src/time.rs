use vstd::prelude::*;
use crate::chars::{digit_char, digit_char_spec, digit_val, digit_val_spec, lemma_digit_char_val};

verus! {

/// A civil timestamp with a fixed offset from UTC, at second granularity.
/// Field ranges are given by [`Timestamp::wf`]; the representable years are
/// 0000..=9999, which is what the serialized form can carry.
#[derive(Clone, Copy, PartialEq, Eq, Structural, Debug)]
pub struct Timestamp {
    pub year: u16,
    pub month: u8,
    pub day: u8,
    pub hour: u8,
    pub minute: u8,
    pub second: u8,
    /// Offset of local time from UTC, in minutes.
    pub off_min: i16,
}

impl Timestamp {
    /// Every field lies in its numeric range; the day may still miss its
    /// month (see [`Timestamp::wf`]).
    pub open spec fn in_ranges(self) -> bool {
        &&& self.year <= 9999
        &&& 1 <= self.month <= 12
        &&& 1 <= self.day <= 31
        &&& self.hour <= 23
        &&& self.minute <= 59
        &&& self.second <= 59
        &&& -1439 <= self.off_min <= 1439
    }

    /// Well-formedness: every field lies in its range, and the day exists
    /// in its month and year.
    pub open spec fn wf(self) -> bool {
        &&& self.in_ranges()
        &&& self.day as int <= days_in_month(self.year as int, self.month as int)
    }

    /// The serialized form: `YYYY-MM-DDTHH:MM:SS+HH:MM` (25 characters).
    pub open spec fn iso_of(self) -> Seq<char> {
        let y = self.year as int;
        let mo = self.month as int;
        let d = self.day as int;
        let h = self.hour as int;
        let mi = self.minute as int;
        let se = self.second as int;
        let oa = if self.off_min >= 0 {
            self.off_min as int
        } else {
            -(self.off_min as int)
        };
        seq![
            digit_char_spec(y / 1000),
            digit_char_spec((y % 1000) / 100),
            digit_char_spec(((y % 1000) % 100) / 10),
            digit_char_spec(((y % 1000) % 100) % 10),
            '-',
            digit_char_spec(mo / 10),
            digit_char_spec(mo % 10),
            '-',
            digit_char_spec(d / 10),
            digit_char_spec(d % 10),
            'T',
            digit_char_spec(h / 10),
            digit_char_spec(h % 10),
            ':',
            digit_char_spec(mi / 10),
            digit_char_spec(mi % 10),
            ':',
            digit_char_spec(se / 10),
            digit_char_spec(se % 10),
            if self.off_min >= 0 {
                '+'
            } else {
                '-'
            },
            digit_char_spec((oa / 60) / 10),
            digit_char_spec((oa / 60) % 10),
            ':',
            digit_char_spec((oa % 60) / 10),
            digit_char_spec((oa % 60) % 10),
        ]
    }

    /// The display form: `DD-MM-YYYY HH:MM:SS` (19 characters).
    pub open spec fn render_of(self) -> Seq<char> {
        let y = self.year as int;
        let mo = self.month as int;
        let d = self.day as int;
        let h = self.hour as int;
        let mi = self.minute as int;
        let se = self.second as int;
        seq![
            digit_char_spec(d / 10),
            digit_char_spec(d % 10),
            '-',
            digit_char_spec(mo / 10),
            digit_char_spec(mo % 10),
            '-',
            digit_char_spec(y / 1000),
            digit_char_spec((y % 1000) / 100),
            digit_char_spec(((y % 1000) % 100) / 10),
            digit_char_spec(((y % 1000) % 100) % 10),
            ' ',
            digit_char_spec(h / 10),
            digit_char_spec(h % 10),
            ':',
            digit_char_spec(mi / 10),
            digit_char_spec(mi % 10),
            ':',
            digit_char_spec(se / 10),
            digit_char_spec(se % 10),
        ]
    }

    /// Emits the serialized `YYYY-MM-DDTHH:MM:SS+HH:MM` form.
    #[verifier::rlimit(100)]
    #[verifier::spinoff_prover]
    pub fn iso_chars(&self) -> (r: Vec<char>)
        requires
            self.in_ranges(),
        ensures
            r@ == self.iso_of(),
    {
        let mut out: Vec<char> = Vec::new();
        let y = self.year;
        out.push(digit_char((y / 1000) as u8));
        out.push(digit_char(((y % 1000) / 100) as u8));
        out.push(digit_char((((y % 1000) % 100) / 10) as u8));
        out.push(digit_char((((y % 1000) % 100) % 10) as u8));
        out.push('-');
        out.push(digit_char(self.month / 10));
        out.push(digit_char(self.month % 10));
        out.push('-');
        out.push(digit_char(self.day / 10));
        out.push(digit_char(self.day % 10));
        out.push('T');
        out.push(digit_char(self.hour / 10));
        out.push(digit_char(self.hour % 10));
        out.push(':');
        out.push(digit_char(self.minute / 10));
        out.push(digit_char(self.minute % 10));
        out.push(':');
        out.push(digit_char(self.second / 10));
        out.push(digit_char(self.second % 10));
        let oa: u16 = if self.off_min >= 0 {
            out.push('+');
            self.off_min as u16
        } else {
            out.push('-');
            (-(self.off_min as i32)) as u16
        };
        out.push(digit_char(((oa / 60) / 10) as u8));
        out.push(digit_char(((oa / 60) % 10) as u8));
        out.push(':');
        out.push(digit_char(((oa % 60) / 10) as u8));
        out.push(digit_char(((oa % 60) % 10) as u8));
        proof {
            assert(out@ =~= self.iso_of());
        }
        out
    }

    /// Emits the display `DD-MM-YYYY HH:MM:SS` form.
    #[verifier::rlimit(100)]
    #[verifier::spinoff_prover]
    pub fn render_chars(&self) -> (r: Vec<char>)
        requires
            self.in_ranges(),
        ensures
            r@ == self.render_of(),
    {
        let mut out: Vec<char> = Vec::new();
        let y = self.year;
        out.push(digit_char(self.day / 10));
        out.push(digit_char(self.day % 10));
        out.push('-');
        out.push(digit_char(self.month / 10));
        out.push(digit_char(self.month % 10));
        out.push('-');
        out.push(digit_char((y / 1000) as u8));
        out.push(digit_char(((y % 1000) / 100) as u8));
        out.push(digit_char((((y % 1000) % 100) / 10) as u8));
        out.push(digit_char((((y % 1000) % 100) % 10) as u8));
        out.push(' ');
        out.push(digit_char(self.hour / 10));
        out.push(digit_char(self.hour % 10));
        out.push(':');
        out.push(digit_char(self.minute / 10));
        out.push(digit_char(self.minute % 10));
        out.push(':');
        out.push(digit_char(self.second / 10));
        out.push(digit_char(self.second % 10));
        proof {
            assert(out@ =~= self.render_of());
        }
        out
    }
}

/// A leap year of the proleptic Gregorian calendar.
pub open spec fn is_leap_year(y: int) -> bool {
    (y % 4 == 0 && y % 100 != 0) || y % 400 == 0
}

/// How many days the given month of the given year has.
pub open spec fn days_in_month(y: int, m: int) -> int {
    if m == 2 {
        if is_leap_year(y) {
            29
        } else {
            28
        }
    } else if m == 4 || m == 6 || m == 9 || m == 11 {
        30
    } else {
        31
    }
}

/// How many days the given month of the given year has.
pub fn month_len(y: u16, m: u8) -> (r: u8)
    ensures
        r as int == days_in_month(y as int, m as int),
        28 <= r <= 31,
{
    if m == 2 {
        if (y % 4 == 0 && y % 100 != 0) || y % 400 == 0 {
            29
        } else {
            28
        }
    } else if m == 4 || m == 6 || m == 9 || m == 11 {
        30
    } else {
        31
    }
}

/// The value of two decimal digit characters, or -1.
pub open spec fn val2(c0: char, c1: char) -> int {
    if digit_val_spec(c0) < 0 || digit_val_spec(c1) < 0 {
        -1
    } else {
        10 * digit_val_spec(c0) + digit_val_spec(c1)
    }
}

/// The value of four decimal digit characters, or -1.
pub open spec fn val4(c0: char, c1: char, c2: char, c3: char) -> int {
    if val2(c0, c1) < 0 || val2(c2, c3) < 0 {
        -1
    } else {
        100 * val2(c0, c1) + val2(c2, c3)
    }
}

/// First position at or after `i` holding no decimal digit.
pub open spec fn digits_end(s: Seq<char>, i: int) -> int
    decreases s.len() - i,
    when 0 <= i <= s.len()
{
    if i < s.len() && digit_val_spec(s[i]) >= 0 {
        digits_end(s, i + 1)
    } else {
        i
    }
}

/// The timestamp with these field values, when they lie on the calendar.
pub open spec fn ts_from_parts(y: int, mo: int, d: int, h: int, mi: int, se: int, off: int) -> Option<
    Timestamp,
> {
    if 0 <= y <= 9999 && 1 <= mo <= 12 && 1 <= d && d <= days_in_month(y, mo) && 0 <= h <= 23 && 0
        <= mi <= 59 && 0 <= se <= 59 && -1439 <= off <= 1439 {
        Some(
            Timestamp {
                year: y as u16,
                month: mo as u8,
                day: d as u8,
                hour: h as u8,
                minute: mi as u8,
                second: se as u8,
                off_min: off as i16,
            },
        )
    } else {
        None
    }
}

/// Reads a timestamp back from an RFC 3339-style form
/// `YYYY-MM-DDTHH:MM:SS[.fraction](Z|+HH:MM|-HH:MM)`. Fractional digits are
/// discarded: the model keeps second granularity. `None` when the
/// characters do not spell a date and time of the civil calendar.
pub open spec fn parse_iso_spec(s: Seq<char>) -> Option<Timestamp> {
    if s.len() < 20 {
        None
    } else if s[4] != '-' || s[7] != '-' || s[10] != 'T' || s[13] != ':' || s[16] != ':' {
        None
    } else {
        let y = val4(s[0], s[1], s[2], s[3]);
        let mo = val2(s[5], s[6]);
        let d = val2(s[8], s[9]);
        let h = val2(s[11], s[12]);
        let mi = val2(s[14], s[15]);
        let se = val2(s[17], s[18]);
        if y < 0 || mo < 0 || d < 0 || h < 0 || mi < 0 || se < 0 {
            None
        } else {
            let p = if s[19] == '.' {
                digits_end(s, 20)
            } else {
                19
            };
            if s[19] == '.' && p == 20 {
                None
            } else if p >= s.len() {
                None
            } else if s[p] == 'Z' || s[p] == 'z' {
                if p + 1 == s.len() {
                    ts_from_parts(y, mo, d, h, mi, se, 0)
                } else {
                    None
                }
            } else if s[p] == '+' || s[p] == '-' {
                if p + 6 == s.len() && s[p + 3] == ':' {
                    let oh = val2(s[p + 1], s[p + 2]);
                    let om = val2(s[p + 4], s[p + 5]);
                    if oh < 0 || om < 0 {
                        None
                    } else {
                        ts_from_parts(
                            y,
                            mo,
                            d,
                            h,
                            mi,
                            se,
                            if s[p] == '+' {
                                60 * oh + om
                            } else {
                                -(60 * oh + om)
                            },
                        )
                    }
                } else {
                    None
                }
            } else {
                None
            }
        }
    }
}

fn val2_at(c0: char, c1: char) -> (r: i32)
    ensures
        r as int == val2(c0, c1),
        -1 <= r <= 99,
{
    let d0 = digit_val(c0);
    let d1 = digit_val(c1);
    if d0 < 0 || d1 < 0 {
        -1
    } else {
        10 * (d0 as i32) + (d1 as i32)
    }
}

fn val4_at(c0: char, c1: char, c2: char, c3: char) -> (r: i32)
    ensures
        r as int == val4(c0, c1, c2, c3),
        -1 <= r <= 9999,
{
    let hi = val2_at(c0, c1);
    let lo = val2_at(c2, c3);
    if hi < 0 || lo < 0 {
        -1
    } else {
        100 * hi + lo
    }
}

fn ts_make(y: i32, mo: i32, d: i32, h: i32, mi: i32, se: i32, off: i32) -> (r: Option<Timestamp>)
    requires
        0 <= y <= 9999,
        0 <= mo <= 99,
        0 <= d <= 99,
        0 <= h <= 99,
        0 <= mi <= 99,
        0 <= se <= 99,
        -6039 <= off <= 6039,
    ensures
        r == ts_from_parts(y as int, mo as int, d as int, h as int, mi as int, se as int, off as int),
        r matches Some(t) ==> t.wf(),
{
    if 1 <= mo && mo <= 12 && 1 <= d && (d as u8) <= month_len(y as u16, mo as u8) && h <= 23 && mi
        <= 59 && se <= 59 && -1439 <= off && off <= 1439 {
        Some(
            Timestamp {
                year: y as u16,
                month: mo as u8,
                day: d as u8,
                hour: h as u8,
                minute: mi as u8,
                second: se as u8,
                off_min: off as i16,
            },
        )
    } else {
        None
    }
}

/// Reads a timestamp from its RFC 3339-style serialized form.
pub fn parse_iso(v: &Vec<char>) -> (r: Option<Timestamp>)
    ensures
        r == parse_iso_spec(v@),
        r matches Some(t) ==> t.wf(),
{
    let n = v.len();
    if n < 20 {
        return None;
    }
    if v[4] != '-' || v[7] != '-' || v[10] != 'T' || v[13] != ':' || v[16] != ':' {
        return None;
    }
    let y = val4_at(v[0], v[1], v[2], v[3]);
    let mo = val2_at(v[5], v[6]);
    let d = val2_at(v[8], v[9]);
    let h = val2_at(v[11], v[12]);
    let mi = val2_at(v[14], v[15]);
    let se = val2_at(v[17], v[18]);
    if y < 0 || mo < 0 || d < 0 || h < 0 || mi < 0 || se < 0 {
        return None;
    }
    let p: usize = if v[19] == '.' {
        let mut q: usize = 20;
        while q < n && digit_val(v[q]) >= 0
            invariant
                20 <= q <= n,
                n == v@.len(),
                digits_end(v@, 20) == digits_end(v@, q as int),
            decreases n - q,
        {
            proof {
                assert(digits_end(v@, q as int) == digits_end(v@, q + 1));
            }
            q = q + 1;
        }
        proof {
            assert(digits_end(v@, q as int) == q as int);
        }
        if q == 20 {
            return None;
        }
        q
    } else {
        19
    };
    if p >= n {
        return None;
    }
    let c = v[p];
    if c == 'Z' || c == 'z' {
        if p + 1 == n {
            ts_make(y, mo, d, h, mi, se, 0)
        } else {
            None
        }
    } else if c == '+' || c == '-' {
        if n - p == 6 && v[p + 3] == ':' {
            let oh = val2_at(v[p + 1], v[p + 2]);
            let om = val2_at(v[p + 4], v[p + 5]);
            if oh < 0 || om < 0 {
                None
            } else {
                ts_make(
                    y,
                    mo,
                    d,
                    h,
                    mi,
                    se,
                    if c == '+' {
                        60 * oh + om
                    } else {
                        -(60 * oh + om)
                    },
                )
            }
        } else {
            None
        }
    } else {
        None
    }
}

/// Reading the serialized form of a well-formed timestamp gives it back.
pub proof fn lemma_iso_round_trip(t: Timestamp)
    requires
        t.wf(),
    ensures
        t.iso_of().len() == 25,
        parse_iso_spec(t.iso_of()) == Some(t),
{
    let s = t.iso_of();
    let y = t.year as int;
    let mo = t.month as int;
    let d = t.day as int;
    let h = t.hour as int;
    let mi = t.minute as int;
    let se = t.second as int;
    let oa = if t.off_min >= 0 {
        t.off_min as int
    } else {
        -(t.off_min as int)
    };
    lemma_digit_char_val(y / 1000);
    lemma_digit_char_val((y % 1000) / 100);
    lemma_digit_char_val(((y % 1000) % 100) / 10);
    lemma_digit_char_val(((y % 1000) % 100) % 10);
    lemma_digit_char_val(mo / 10);
    lemma_digit_char_val(mo % 10);
    lemma_digit_char_val(d / 10);
    lemma_digit_char_val(d % 10);
    lemma_digit_char_val(h / 10);
    lemma_digit_char_val(h % 10);
    lemma_digit_char_val(mi / 10);
    lemma_digit_char_val(mi % 10);
    lemma_digit_char_val(se / 10);
    lemma_digit_char_val(se % 10);
    lemma_digit_char_val((oa / 60) / 10);
    lemma_digit_char_val((oa / 60) % 10);
    lemma_digit_char_val((oa % 60) / 10);
    lemma_digit_char_val((oa % 60) % 10);
    assert(val4(s[0], s[1], s[2], s[3]) == y);
    assert(val2(s[5], s[6]) == mo);
    assert(val2(s[8], s[9]) == d);
    assert(val2(s[11], s[12]) == h);
    assert(val2(s[14], s[15]) == mi);
    assert(val2(s[17], s[18]) == se);
    assert(val2(s[20], s[21]) == oa / 60);
    assert(val2(s[23], s[24]) == oa % 60);
    assert(60 * (oa / 60) + oa % 60 == oa);
    assert(s[19] == '+' || s[19] == '-');
    assert(s[19] != '.' && s[19] != 'Z' && s[19] != 'z');
    let r = parse_iso_spec(s);
    assert(r matches Some(t2) && t2 == t);
}

/// Relies on chrono's `Local::now` together with its `Datelike` and
/// `Timelike` accessors and `FixedOffset::local_minus_utc`: chrono documents
/// month as 1..=12, day as 1..=31, hour as 0..=23, minute and second as
/// 0..=59, and a fixed offset as strictly between -86400 and 86400 seconds.
#[verifier::external_body]
fn local_now_parts() -> (r: (i32, u32, u32, u32, u32, u32, i32))
    ensures
        1 <= r.1 <= 12,
        1 <= r.2 <= 31,
        r.3 <= 23,
        r.4 <= 59,
        r.5 <= 59,
        -86400 < r.6 < 86400,
{
    let now = chrono::Local::now();
    (
        chrono::Datelike::year(&now),
        chrono::Datelike::month(&now),
        chrono::Datelike::day(&now),
        chrono::Timelike::hour(&now),
        chrono::Timelike::minute(&now),
        chrono::Timelike::second(&now),
        now.offset().local_minus_utc(),
    )
}

impl Timestamp {
    /// The current local civil time. Years outside 0000..=9999, offsets not
    /// on a whole minute, and days past the clamped year's month length are
    /// clamped to the representable range.
    pub fn now() -> (t: Timestamp)
        ensures
            t.wf(),
    {
        let (y, mo, d, h, mi, se, off_secs) = local_now_parts();
        let off_min: i16 = if off_secs >= 0 {
            let m = (off_secs as u32) / 60;
            if m > 1439 {
                1439
            } else {
                m as i16
            }
        } else {
            let m = ((-off_secs) as u32) / 60;
            if m > 1439 {
                -1439
            } else {
                -(m as i16)
            }
        };
        if y < 0 {
            Timestamp { year: 0, month: 1, day: 1, hour: 0, minute: 0, second: 0, off_min }
        } else if y > 9999 {
            Timestamp { year: 9999, month: 12, day: 31, hour: 23, minute: 59, second: 59, off_min }
        } else {
            let year = y as u16;
            let month = mo as u8;
            let max_day = month_len(year, month);
            let day = if (d as u8) > max_day {
                max_day
            } else {
                d as u8
            };
            Timestamp {
                year,
                month,
                day,
                hour: h as u8,
                minute: mi as u8,
                second: se as u8,
                off_min,
            }
        }
    }
}

} // verus!
