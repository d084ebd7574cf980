//! Reading a target timestamp written as `hh:mm:ss:ms`.
//!
//! The text must split at `:` into exactly four fields. Each field is an
//! unsigned integer as Rust's `str::parse` reads one: an optional `+`, then one
//! or more ASCII digits, with no spaces. Hours, minutes and seconds must fit
//! in eight bits and milliseconds in sixteen. Leading zeros are allowed.
use vstd::prelude::*;
use crate::error::RetimeError;
use crate::timestamp::Timestamp;

verus! {

pub open spec fn is_digit(c: char) -> bool {
    '0' <= c && c <= '9'
}

pub open spec fn digit_value(c: char) -> int {
    c as int - '0' as int
}

/// The number a string of decimal digits denotes.
pub open spec fn field_value(f: Seq<char>) -> int
    decreases f.len(),
{
    if f.len() == 0 {
        0
    } else {
        field_value(f.drop_last()) * 10 + digit_value(f.last())
    }
}

/// One or more decimal digits.
pub open spec fn is_numeral(f: Seq<char>) -> bool {
    f.len() > 0 && forall|i: int| 0 <= i < f.len() ==> is_digit(#[trigger] f[i])
}

/// A field without its optional leading `+`.
pub open spec fn digits_of(f: Seq<char>) -> Seq<char> {
    if f.len() > 0 && f[0] == '+' {
        f.subrange(1, f.len() as int)
    } else {
        f
    }
}

/// An optional `+` and a numeral whose value is at most `max`.
pub open spec fn field_fits(f: Seq<char>, max: int) -> bool {
    is_numeral(digits_of(f)) && field_value(digits_of(f)) <= max
}

/// The pieces of `s` between colons; there is always one more piece than
/// there are colons.
pub open spec fn split_fields(s: Seq<char>) -> Seq<Seq<char>>
    decreases s.len(),
{
    if s.len() == 0 {
        seq![Seq::empty()]
    } else {
        let p = split_fields(s.drop_last());
        if s.last() == ':' {
            p.push(Seq::empty())
        } else {
            p.update(p.len() - 1, p.last().push(s.last()))
        }
    }
}

/// The timestamp that `s` denotes, if it is well formed.
pub open spec fn parse_timestamp_spec(s: Seq<char>) -> Option<Timestamp> {
    let f = split_fields(s);
    if f.len() == 4 && field_fits(f[0], 255) && field_fits(f[1], 255) && field_fits(f[2], 255)
        && field_fits(f[3], 65535) {
        Some(
            Timestamp {
                hours: field_value(digits_of(f[0])) as u8,
                minutes: field_value(digits_of(f[1])) as u8,
                seconds: field_value(digits_of(f[2])) as u8,
                milliseconds: field_value(digits_of(f[3])) as u16,
            },
        )
    } else {
        None
    }
}

/// Field values are tracked up to this cap; every bound checked is below it.
const FIELD_CAP: u64 = 65536;

spec fn capped(v: int) -> int {
    if v < FIELD_CAP {
        v
    } else {
        FIELD_CAP as int
    }
}

proof fn lemma_split_nonempty(s: Seq<char>)
    ensures
        split_fields(s).len() >= 1,
    decreases s.len(),
{
    if s.len() > 0 {
        lemma_split_nonempty(s.drop_last());
    }
}

proof fn lemma_field_value_nonneg(f: Seq<char>)
    requires
        forall|i: int| 0 <= i < f.len() ==> is_digit(#[trigger] f[i]),
    ensures
        field_value(f) >= 0,
    decreases f.len(),
{
    if f.len() > 0 {
        lemma_field_value_nonneg(f.drop_last());
    }
}

/// What the scanner holds after reading a prefix whose pieces are `f`: the
/// capped values of the finished pieces, whether all of them are numerals
/// once their sign is dropped, and, for the piece being read, whether it has
/// begun and the capped value, length and digit check of its unsigned part.
spec fn scan_matches(
    f: Seq<Seq<char>>,
    done: Seq<u64>,
    done_ok: bool,
    cur: int,
    cur_started: bool,
    cur_len: int,
    cur_digits: bool,
) -> bool {
    &&& f.len() == done.len() + 1
    &&& forall|j: int|
        0 <= j < done.len() && is_numeral(digits_of(f[j])) ==> #[trigger] done[j] == capped(
            field_value(digits_of(f[j])),
        )
    &&& done_ok == forall|j: int| 0 <= j < done.len() ==> is_numeral(digits_of(#[trigger] f[j]))
    &&& cur_started == (f.last().len() > 0)
    &&& cur_digits ==> cur == capped(field_value(digits_of(f.last())))
    &&& cur_len == digits_of(f.last()).len()
    &&& cur_digits == forall|k: int|
        0 <= k < digits_of(f.last()).len() ==> is_digit(#[trigger] digits_of(f.last())[k])
}

/// Parses `hh:mm:ss:ms` into a timestamp.
pub fn parse_timestamp(text: &str) -> (r: Result<Timestamp, RetimeError>)
    ensures
        match parse_timestamp_spec(text@) {
            Some(t) => r == Ok::<Timestamp, RetimeError>(t),
            None => r == Err::<Timestamp, RetimeError>(RetimeError::MalformedTimestamp),
        },
{
    let n = text.unicode_len();
    let mut done: Vec<u64> = Vec::new();
    let mut done_ok = true;
    let mut cur: u64 = 0;
    let mut cur_started = false;
    let mut cur_len: usize = 0;
    let mut cur_digits = true;
    let mut i: usize = 0;
    proof {
        assert(text@.take(0) =~= Seq::<char>::empty());
        assert(digits_of(Seq::<char>::empty()) =~= Seq::<char>::empty());
    }
    while i < n
        invariant
            n == text@.len(),
            0 <= i <= n,
            cur_len <= i,
            scan_matches(
                split_fields(text@.take(i as int)),
                done@,
                done_ok,
                cur as int,
                cur_started,
                cur_len as int,
                cur_digits,
            ),
        decreases n - i,
    {
        let c = text.get_char(i);
        let ghost prev = text@.take(i as int);
        let ghost next = text@.take(i as int + 1);
        proof {
            assert(next.drop_last() =~= prev);
            assert(next.last() == c);
            lemma_split_nonempty(prev);
        }
        let ghost fp = split_fields(prev);
        if c == ':' {
            done.push(cur);
            done_ok = done_ok && cur_len > 0 && cur_digits;
            cur = 0;
            cur_started = false;
            cur_len = 0;
            cur_digits = true;
            proof {
                let fnx = split_fields(next);
                assert(fnx == fp.push(Seq::empty()));
                assert(digits_of(fnx.last()) =~= Seq::<char>::empty());
                assert forall|j: int|
                    0 <= j < done@.len() && is_numeral(digits_of(fnx[j])) implies #[trigger] done@[j]
                    == capped(field_value(digits_of(fnx[j]))) by {
                    if j < done@.len() - 1 {
                        assert(fnx[j] == fp[j]);
                    } else {
                        assert(fnx[j] == fp.last());
                    }
                }
                assert(done_ok == forall|j: int|
                    0 <= j < done@.len() ==> is_numeral(digits_of(#[trigger] fnx[j]))) by {
                    if done_ok {
                        assert forall|j: int| 0 <= j < done@.len() implies is_numeral(
                            digits_of(#[trigger] fnx[j]),
                        ) by {
                            assert(fnx[j] == fp[j]);
                        }
                    } else {
                        if !(forall|j: int|
                            0 <= j < done@.len() - 1 ==> is_numeral(digits_of(#[trigger] fp[j]))) {
                            let j = choose|j: int|
                                0 <= j < done@.len() - 1 && !is_numeral(digits_of(#[trigger] fp[j]));
                            assert(fnx[j] == fp[j]);
                        } else {
                            assert(fnx[done@.len() - 1] == fp.last());
                        }
                    }
                }
            }
        } else if c == '+' && !cur_started {
            cur_started = true;
            proof {
                let fnx = split_fields(next);
                let new_last = fp.last().push(c);
                assert(fnx == fp.update(fp.len() - 1, new_last));
                assert(fp.last() =~= Seq::<char>::empty());
                assert(digits_of(new_last) =~= Seq::<char>::empty());
                assert forall|j: int| 0 <= j < done@.len() implies fnx[j] == fp[j] by {}
            }
        } else {
            let ghost old_last = fp.last();
            let ghost new_last = old_last.push(c);
            let ghost old_body = digits_of(old_last);
            let ghost new_body = old_body.push(c);
            proof {
                assert(split_fields(next) == fp.update(fp.len() - 1, new_last));
                if old_last.len() > 0 {
                    assert(new_last[0] == old_last[0]);
                }
                assert(digits_of(new_last) =~= new_body);
                assert(new_body.drop_last() =~= old_body);
            }
            if '0' <= c && c <= '9' {
                let d = (c as u32 - '0' as u32) as u64;
                proof {
                    assert(d == digit_value(c));
                }
                if cur < FIELD_CAP {
                    let v = cur * 10 + d;
                    cur = if v < FIELD_CAP { v } else { FIELD_CAP };
                }
                proof {
                    if cur_digits {
                        lemma_field_value_nonneg(old_body);
                    }
                    let ov = field_value(old_body);
                    assert(field_value(new_body) == ov * 10 + d);
                    if !(ov < FIELD_CAP) && cur_digits {
                        assert(ov * 10 + d >= FIELD_CAP) by (nonlinear_arith)
                            requires ov >= FIELD_CAP, 0 <= d;
                    }
                }
            } else {
                cur_digits = false;
            }
            cur_started = true;
            cur_len = cur_len + 1;
            proof {
                let fnx = split_fields(next);
                assert forall|j: int| 0 <= j < done@.len() implies fnx[j] == fp[j] by {}
                if cur_digits {
                    assert forall|k: int| 0 <= k < new_body.len() implies is_digit(
                        #[trigger] new_body[k],
                    ) by {
                        if k < old_body.len() {
                            assert(new_body[k] == old_body[k]);
                        }
                    }
                } else if is_digit(c) {
                    let k = choose|k: int|
                        0 <= k < old_body.len() && !is_digit(#[trigger] old_body[k]);
                    assert(new_body[k] == old_body[k]);
                } else {
                    assert(new_body[new_body.len() - 1] == c);
                }
                assert(fnx.last() == new_last);
            }
        }
        i = i + 1;
    }
    proof {
        assert(text@.take(n as int) =~= text@);
    }
    if done.len() != 3 || !done_ok || cur_len == 0 || !cur_digits {
        return Err(RetimeError::MalformedTimestamp);
    }
    let ghost f = split_fields(text@);
    proof {
        assert forall|j: int| 0 <= j < 4 implies field_value(digits_of(#[trigger] f[j])) >= 0 by {
            assert(is_numeral(digits_of(f[j])));
            lemma_field_value_nonneg(digits_of(f[j]));
        }
    }
    if done[0] > 255 || done[1] > 255 || done[2] > 255 || cur > 65535 {
        return Err(RetimeError::MalformedTimestamp);
    }
    Ok(
        Timestamp {
            hours: done[0] as u8,
            minutes: done[1] as u8,
            seconds: done[2] as u8,
            milliseconds: cur as u16,
        },
    )
}

/// Parses `hh:mm:ss:ms` and flattens it to milliseconds.
pub fn ts_arg_to_ms(text: &str) -> (r: Result<u64, RetimeError>)
    ensures
        match parse_timestamp_spec(text@) {
            Some(t) => r == Ok::<u64, RetimeError>(t.ms() as u64),
            None => r == Err::<u64, RetimeError>(RetimeError::MalformedTimestamp),
        },
{
    match parse_timestamp(text) {
        Ok(t) => Ok(t.to_ms()),
        Err(e) => Err(e),
    }
}

} // verus!
