//! Exact decimal numbers and the numeric field parsers of the chart format.
//!
//! A parsed decimal is kept as its digits (mantissa and scale) together with
//! the sign of the source text, so that a negative zero keeps its sign — the
//! timing-point decoder depends on that.
use vstd::prelude::*;
use vstd::arithmetic::div_mod::{lemma_div_is_ordered, lemma_div_is_ordered_by_denominator};
use crate::mathx::{pow10, pow10_u64, lemma_pow10_increases};
use crate::text::{is_digit_char, is_digit, split_by, split_str};

verus! {

/// Why a chart file was rejected.
#[derive(PartialEq, Eq, Structural, Clone, Copy, Debug)]
pub enum ParseError {
    /// A numeric field failed to decode.
    MalformedNumber,
    /// A record had a recognized shape but too few pieces to carry its
    /// required fields.
    MalformedRecord,
}

/// Largest integer magnitude the numeric parsers accept: eighteen nines.
pub const NUM_MAG_CAP: u64 = 999999999999999999;

pub open spec fn all_digits(s: Seq<char>) -> bool {
    forall|i: int| 0 <= i < s.len() ==> is_digit_char(#[trigger] s[i])
}

/// The value of a run of decimal digits.
pub open spec fn digits_val(s: Seq<char>) -> int
    decreases s.len(),
{
    if s.len() == 0 {
        0
    } else {
        digits_val(s.drop_last()) * 10 + (s.last() as int - 48)
    }
}

pub proof fn lemma_digits_val_nonneg(s: Seq<char>)
    requires
        all_digits(s),
    ensures
        digits_val(s) >= 0,
    decreases s.len(),
{
    if s.len() > 0 {
        assert(all_digits(s.drop_last()));
        lemma_digits_val_nonneg(s.drop_last());
    }
}

/// A digit run is worth at least any of its prefixes.
pub proof fn lemma_digits_prefix_le(s: Seq<char>, i: int)
    requires
        all_digits(s),
        0 <= i <= s.len(),
    ensures
        0 <= digits_val(s.take(i)) <= digits_val(s),
    decreases s.len(),
{
    if i == s.len() {
        assert(s.take(i) =~= s);
        lemma_digits_val_nonneg(s);
    } else {
        assert(all_digits(s.drop_last()));
        lemma_digits_prefix_le(s.drop_last(), i);
        assert(s.drop_last().take(i) =~= s.take(i));
        lemma_digits_val_nonneg(s.drop_last());
        assert(digits_val(s) >= digits_val(s.drop_last()));
    }
}

/// Decode a run of digits, refusing empty runs, other characters, and
/// values beyond `NUM_MAG_CAP`.
pub fn digit_run(s: &str) -> (r: Option<u64>)
    ensures
        r is Some <==> (s@.len() >= 1 && all_digits(s@) && digits_val(s@) <= NUM_MAG_CAP as int),
        r is Some ==> r.unwrap() == digits_val(s@),
{
    let n = s.unicode_len();
    if n == 0 {
        return None;
    }
    let mut mag: u64 = 0;
    let mut i: usize = 0;
    while i < n
        invariant
            n == s@.len(),
            i <= n,
            all_digits(s@.take(i as int)),
            mag == digits_val(s@.take(i as int)),
            mag <= NUM_MAG_CAP,
        decreases n - i,
    {
        let ch = s.get_char(i);
        if !is_digit(ch) {
            proof {
                assert(!is_digit_char(s@[i as int]));
            }
            return None;
        }
        let d: u64 = (ch as u32 - 48) as u64;
        let nm: u64 = mag * 10 + d;
        proof {
            assert(s@.take(i as int + 1).drop_last() =~= s@.take(i as int));
            assert(forall|j: int|
                0 <= j < i as int + 1 ==> is_digit_char(#[trigger] s@.take(i as int + 1)[j]));
        }
        if nm > NUM_MAG_CAP {
            proof {
                if all_digits(s@) && digits_val(s@) <= NUM_MAG_CAP as int {
                    lemma_digits_prefix_le(s@, i as int + 1);
                }
            }
            return None;
        }
        mag = nm;
        i = i + 1;
    }
    proof {
        assert(s@.take(n as int) =~= s@);
    }
    Some(mag)
}

/// What an integer field of the chart means: an optional sign, then one or
/// more digits, with the magnitude capped at `NUM_MAG_CAP`.
pub open spec fn parse_int_spec(s: Seq<char>) -> Option<int> {
    if s.len() == 0 {
        None
    } else {
        let neg = s[0] == '-';
        let ds = if s[0] == '-' || s[0] == '+' {
            s.skip(1)
        } else {
            s
        };
        if ds.len() >= 1 && all_digits(ds) && digits_val(ds) <= NUM_MAG_CAP as int {
            Some(
                if neg {
                    -digits_val(ds)
                } else {
                    digits_val(ds)
                },
            )
        } else {
            None
        }
    }
}

/// Decode an integer field and require it to lie in `[lo, hi]`; everything
/// else is a malformed number.
pub fn parse_int_range(s: &str, lo: i64, hi: i64) -> (r: Result<i64, ParseError>)
    requires
        -(NUM_MAG_CAP as int) <= lo <= hi <= NUM_MAG_CAP as int,
    ensures
        r is Ok <==> (parse_int_spec(s@) is Some && lo <= parse_int_spec(s@).unwrap() <= hi),
        r is Ok ==> r.unwrap() == parse_int_spec(s@).unwrap(),
        r is Err ==> r->Err_0 == ParseError::MalformedNumber,
{
    let n = s.unicode_len();
    if n == 0 {
        return Err(ParseError::MalformedNumber);
    }
    let c0 = s.get_char(0);
    let neg = c0 == '-';
    let start: usize = if c0 == '-' || c0 == '+' {
        1
    } else {
        0
    };
    let ds = s.substring_char(start, n);
    proof {
        if start == 0 {
            assert(ds@ =~= s@);
        } else {
            assert(ds@ =~= s@.skip(1));
        }
    }
    match digit_run(ds) {
        None => Err(ParseError::MalformedNumber),
        Some(mag) => {
            let v: i64 = if neg {
                -(mag as i64)
            } else {
                mag as i64
            };
            if lo <= v && v <= hi {
                Ok(v)
            } else {
                Err(ParseError::MalformedNumber)
            }
        },
    }
}

/// An exact decimal number: `mant / 10^scale`, negative when `neg` is set.
/// The sign is stored apart from the digits, so zero written with a minus
/// keeps its minus.
#[derive(PartialEq, Eq, Structural, Clone, Copy, Debug)]
pub struct Dec {
    pub neg: bool,
    pub mant: u64,
    pub scale: u8,
}

impl Dec {
    pub open spec fn wf(self) -> bool {
        self.mant <= NUM_MAG_CAP && self.scale <= 18
    }

    pub fn zero() -> (r: Dec)
        ensures
            r == (Dec { neg: false, mant: 0, scale: 0 }),
            r.wf(),
    {
        Dec { neg: false, mant: 0, scale: 0 }
    }

    pub fn one() -> (r: Dec)
        ensures
            r == (Dec { neg: false, mant: 1, scale: 0 }),
            r.wf(),
    {
        Dec { neg: false, mant: 1, scale: 0 }
    }

    /// The nearest whole number, halves rounded away from zero.
    pub open spec fn round_spec(self) -> int {
        let p = pow10(self.scale as nat) as int;
        let q = (self.mant as int) / p;
        let rm = (self.mant as int) % p;
        let mag = if 2 * rm >= p {
            q + 1
        } else {
            q
        };
        if self.neg {
            -mag
        } else {
            mag
        }
    }

    pub fn round(&self) -> (r: i64)
        requires
            self.wf(),
        ensures
            r == self.round_spec(),
            -(NUM_MAG_CAP as int) <= r <= NUM_MAG_CAP as int,
    {
        let p = pow10_u64(self.scale);
        let q = self.mant / p;
        let rm = self.mant % p;
        proof {
            assert(p <= 1000000000000000000) by {
                lemma_pow10_increases(self.scale as nat, 18);
                assert(pow10(18) == 1000000000000000000) by {
                    reveal_with_fuel(pow10, 20);
                }
            }
            lemma_div_is_ordered(q as int, self.mant as int, 1);
            assert(q <= self.mant);
            if self.scale >= 1 {
                lemma_pow10_increases(1, self.scale as nat);
                assert(pow10(1) == 10) by {
                    reveal_with_fuel(pow10, 3);
                }
                lemma_div_is_ordered_by_denominator(self.mant as int, 10, p as int);
                lemma_div_is_ordered(self.mant as int, NUM_MAG_CAP as int, 10);
                assert(q <= NUM_MAG_CAP as int / 10);
            }
        }
        let mag: u64 = if 2 * rm >= p {
            q + 1
        } else {
            q
        };
        if self.neg {
            -(mag as i64)
        } else {
            mag as i64
        }
    }
}

/// The decimal described by an integer digit part and a fraction digit
/// part, if they form a well-formed number.
pub open spec fn dec_from_parts(neg: bool, ip: Seq<char>, fp: Seq<char>) -> Option<Dec> {
    let all = ip + fp;
    if all.len() >= 1 && all_digits(all) && digits_val(all) <= NUM_MAG_CAP as int && fp.len()
        <= 18 {
        Some(Dec { neg, mant: digits_val(all) as u64, scale: fp.len() as u8 })
    } else {
        None
    }
}

/// What a decimal field of the chart means: an optional sign, then digits
/// with at most one decimal point and at least one digit in all.
pub open spec fn parse_dec_spec(s: Seq<char>) -> Option<Dec> {
    if s.len() == 0 {
        None
    } else {
        let neg = s[0] == '-';
        let ds = if s[0] == '-' || s[0] == '+' {
            s.skip(1)
        } else {
            s
        };
        let toks = split_by(ds, '.');
        if toks.len() == 1 {
            dec_from_parts(neg, toks[0], Seq::empty())
        } else if toks.len() == 2 {
            dec_from_parts(neg, toks[0], toks[1])
        } else {
            None
        }
    }
}

/// Decode a decimal field.
pub fn parse_dec(s: &str) -> (r: Result<Dec, ParseError>)
    ensures
        r is Ok <==> parse_dec_spec(s@) is Some,
        r is Ok ==> r.unwrap() == parse_dec_spec(s@).unwrap() && r.unwrap().wf(),
        r is Err ==> r->Err_0 == ParseError::MalformedNumber,
{
    let n = s.unicode_len();
    if n == 0 {
        return Err(ParseError::MalformedNumber);
    }
    let c0 = s.get_char(0);
    let neg = c0 == '-';
    let start: usize = if c0 == '-' || c0 == '+' {
        1
    } else {
        0
    };
    let ds = s.substring_char(start, n);
    proof {
        if start == 0 {
            assert(ds@ =~= s@);
        } else {
            assert(ds@ =~= s@.skip(1));
        }
    }
    let toks = split_str(ds, '.');
    if toks.len() == 1 {
        let ip: &str = toks[0];
        proof {
            assert(ip@ == split_by(ds@, '.')[0]);
            assert(ip@ + Seq::<char>::empty() =~= ip@);
        }
        match digit_run(ip) {
            None => Err(ParseError::MalformedNumber),
            Some(mag) => Ok(Dec { neg, mant: mag, scale: 0 }),
        }
    } else if toks.len() == 2 {
        let ip: &str = toks[0];
        let fp: &str = toks[1];
        proof {
            assert(ip@ == split_by(ds@, '.')[0]);
            assert(fp@ == split_by(ds@, '.')[1]);
        }
        let scale_len = fp.unicode_len();
        let combined: String = String::from_str(ip).concat(fp);
        proof {
            assert(combined@ == ip@ + fp@);
        }
        match digit_run(combined.as_str()) {
            None => Err(ParseError::MalformedNumber),
            Some(mag) => {
                if scale_len <= 18 {
                    Ok(Dec { neg, mant: mag, scale: scale_len as u8 })
                } else {
                    Err(ParseError::MalformedNumber)
                }
            },
        }
    } else {
        Err(ParseError::MalformedNumber)
    }
}


/// A well-formed decimal rounds to a value of at most nineteen digits.
pub proof fn lemma_round_spec_bounds(d: Dec)
    requires
        d.wf(),
    ensures
        -1000000000000000000 <= d.round_spec() <= 1000000000000000000,
{
    let p = pow10(d.scale as nat) as int;
    crate::mathx::lemma_pow10_positive(d.scale as nat);
    let q = (d.mant as int) / p;
    vstd::arithmetic::div_mod::lemma_div_is_ordered_by_denominator(d.mant as int, 1, p);
    vstd::arithmetic::div_mod::lemma_div_basics(d.mant as int);
    vstd::arithmetic::div_mod::lemma_div_pos_is_pos(d.mant as int, p);
}

/// A decimal the parser accepts is well formed.
pub proof fn lemma_parse_dec_wf(s: Seq<char>)
    requires
        parse_dec_spec(s) is Some,
    ensures
        parse_dec_spec(s).unwrap().wf(),
{
    let ds = if s[0] == '-' || s[0] == '+' {
        s.skip(1)
    } else {
        s
    };
    let toks = split_by(ds, '.');
    if toks.len() == 1 {
        let all = toks[0] + Seq::<char>::empty();
        lemma_digits_val_nonneg(all);
    } else if toks.len() == 2 {
        let all = toks[0] + toks[1];
        lemma_digits_val_nonneg(all);
    }
}

} // verus!
