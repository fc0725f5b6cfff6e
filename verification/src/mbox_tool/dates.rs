//! The time zone of a mail date, as `mailparse::dateparse` finds it: the
//! date is split into tokens at ' ' and ':'; the first token that reads as
//! a `u8` is the day, and the sixth token after it the time zone. A numeric
//! zone is read as an `i32` and split into hours and minutes, which
//! `dateparse` turns into seconds in `i32` arithmetic: the dates whose zone
//! overflows there are picked out here.
use vstd::prelude::*;
use crate::text::chars_of;

verus! {

pub open spec fn is_date_sep(c: char) -> bool {
    c == ' ' || c == ':'
}

/// The tokens of `s` after those in `done` and the unfinished token `cur`:
/// the pieces between separators, empty pieces dropped.
pub open spec fn tokens_after(s: Seq<char>, done: Seq<Seq<char>>, cur: Seq<char>) -> Seq<Seq<char>>
    decreases s.len(),
{
    if s.len() == 0 {
        if cur.len() > 0 { done.push(cur) } else { done }
    } else if is_date_sep(s[0]) {
        tokens_after(s.drop_first(), if cur.len() > 0 { done.push(cur) } else { done }, Seq::empty())
    } else {
        tokens_after(s.drop_first(), done, cur.push(s[0]))
    }
}

/// The non-empty pieces of `s` between ' ' and ':'.
pub open spec fn date_tokens(s: Seq<char>) -> Seq<Seq<char>> {
    tokens_after(s, Seq::empty(), Seq::empty())
}

pub open spec fn all_digits(t: Seq<char>) -> bool {
    forall|i: int| 0 <= i < t.len() ==> '0' <= #[trigger] t[i] <= '9'
}

/// The number the decimal digits `t` write.
pub open spec fn digits_value(t: Seq<char>) -> nat
    decreases t.len(),
{
    if t.len() == 0 {
        0
    } else {
        digits_value(t.drop_last()) * 10 + (t.last() as nat - 48) as nat
    }
}

/// The value of `t` read as an unsigned integer (an optional '+', then
/// at least one digit and nothing else), whatever its size.
pub open spec fn unsigned_text(t: Seq<char>) -> Option<nat> {
    let d = if t.len() > 0 && t[0] == '+' { t.drop_first() } else { t };
    if d.len() > 0 && all_digits(d) {
        Some(digits_value(d))
    } else {
        None
    }
}

/// Whether `t` reads as a `u8` (`str::parse::<u8>`).
pub open spec fn parses_as_u8(t: Seq<char>) -> bool {
    unsigned_text(t) matches Some(v) && v <= 255
}

/// The value of `t` read as an `i32` (`str::parse::<i32>`): an optional
/// sign, then at least one digit and nothing else, in range.
pub open spec fn i32_text(t: Seq<char>) -> Option<int> {
    if t.len() > 0 && t[0] == '-' {
        let d = t.drop_first();
        if d.len() > 0 && all_digits(d) && digits_value(d) <= 2147483648 {
            Some(-(digits_value(d) as int))
        } else {
            None
        }
    } else {
        match unsigned_text(t) {
            Some(v) => if v <= 2147483647 { Some(v as int) } else { None },
            None => None,
        }
    }
}

/// Whether `dateparse`'s arithmetic on the zone token `t` overflows an
/// `i32`: negating the least `i32`, or hours times 3600 plus minutes times
/// 60 past the greatest.
pub open spec fn zone_overflows(t: Seq<char>) -> bool {
    match i32_text(t) {
        Some(v) => v == -2147483648 || ({
            let z = if v < 0 { -v } else { v };
            (z / 100) * 3600 + (z % 100) * 60 > 2147483647
        }),
        None => false,
    }
}

/// Index of the first token that reads as a `u8`, from `k` on.
pub open spec fn first_u8_token(toks: Seq<Seq<char>>, k: int) -> Option<int>
    decreases toks.len() - k,
{
    if k < 0 || k >= toks.len() {
        None
    } else if parses_as_u8(toks[k]) {
        Some(k)
    } else {
        first_u8_token(toks, k + 1)
    }
}

/// Whether `dateparse` would overflow on the time zone of `date`.
pub open spec fn zone_overflows_in(date: Seq<char>) -> bool {
    let toks = date_tokens(date);
    match first_u8_token(toks, 0) {
        Some(k) => k + 6 < toks.len() && zone_overflows(toks[k + 6]),
        None => false,
    }
}

/// A bound on the values worked with: far above any `i32`.
pub open spec fn cap() -> nat {
    10000000000
}

pub open spec fn capped(v: nat) -> nat {
    if v < cap() { v } else { cap() }
}

fn tokens_of(v: &Vec<char>) -> (r: Vec<Vec<char>>)
    ensures
        r@.map_values(|t: Vec<char>| t@) == date_tokens(v@),
{
    let mut done: Vec<Vec<char>> = Vec::new();
    let mut cur: Vec<char> = Vec::new();
    let mut i: usize = 0;
    assert(v@.skip(0) =~= v@);
    assert(done@.map_values(|t: Vec<char>| t@) =~= Seq::<Seq<char>>::empty());
    while i < v.len()
        invariant
            i <= v@.len(),
            date_tokens(v@) == tokens_after(v@.skip(i as int), done@.map_values(|t: Vec<char>| t@), cur@),
        decreases v@.len() - i,
    {
        let c = v[i];
        let ghost rest = v@.skip(i as int);
        assert(rest[0] == c);
        assert(rest.drop_first() =~= v@.skip(i + 1));
        if c == ' ' || c == ':' {
            if cur.len() > 0 {
                let ghost before = done@.map_values(|t: Vec<char>| t@);
                let ghost cv = cur@;
                let mut t: Vec<char> = Vec::new();
                std::mem::swap(&mut t, &mut cur);
                done.push(t);
                assert(done@.map_values(|t: Vec<char>| t@) =~= before.push(cv));
            }
            assert(cur@ =~= Seq::<char>::empty());
        } else {
            cur.push(c);
        }
        i = i + 1;
    }
    assert(v@.skip(i as int) =~= Seq::<char>::empty());
    if cur.len() > 0 {
        let ghost before = done@.map_values(|t: Vec<char>| t@);
        let ghost cv = cur@;
        done.push(cur);
        assert(done@.map_values(|t: Vec<char>| t@) =~= before.push(cv));
    }
    done
}

proof fn lemma_capped_step(a: nat, d: nat)
    requires
        d < 10,
    ensures
        capped(capped(a) * 10 + d) == capped(a * 10 + d),
{
}

/// The value of the digits `t[from..]`, capped.
fn capped_digits(t: &Vec<char>, from: usize) -> (r: Option<u64>)
    requires
        from <= t@.len(),
    ensures
        match r {
            Some(v) => {
                let d = t@.skip(from as int);
                d.len() > 0 && all_digits(d) && v == capped(digits_value(d))
            },
            None => {
                let d = t@.skip(from as int);
                !(d.len() > 0 && all_digits(d))
            },
        },
{
    if from >= t.len() {
        return None;
    }
    let ghost d = t@.skip(from as int);
    let mut v: u64 = 0;
    let mut i: usize = from;
    assert(d.take(0) =~= Seq::<char>::empty());
    while i < t.len()
        invariant
            from <= i <= t@.len(),
            d == t@.skip(from as int),
            all_digits(d.take(i - from)),
            v == capped(digits_value(d.take(i - from))),
        decreases t@.len() - i,
    {
        let c = t[i];
        if !('0' <= c && c <= '9') {
            assert(d[i - from] == c);
            return None;
        }
        let digit: u64 = (c as u64) - 48;
        proof {
            lemma_capped_step(digits_value(d.take(i - from)), digit as nat);
            assert(d.take(i + 1 - from).drop_last() =~= d.take(i - from));
            assert(d.take(i + 1 - from).last() == c);
        }
        let next: u64 = v * 10 + digit;
        v = if next < 10000000000 { next } else { 10000000000 };
        i = i + 1;
        assert(all_digits(d.take(i - from))) by {
            assert forall|j: int| 0 <= j < d.take(i - from).len() implies '0' <= #[trigger] d.take(
                i - from,
            )[j] <= '9' by {
                if j < i - 1 - from {
                    assert(d.take(i - from)[j] == d.take(i - 1 - from)[j]);
                }
            }
        }
    }
    assert(d.take(i - from) =~= d);
    Some(v)
}

fn is_u8_token(t: &Vec<char>) -> (r: bool)
    ensures
        r == parses_as_u8(t@),
{
    let from: usize = if t.len() > 0 && t[0] == '+' { 1 } else { 0 };
    assert(from == 1 ==> t@.skip(1) =~= t@.drop_first());
    assert(from == 0 ==> t@.skip(0) =~= t@);
    match capped_digits(t, from) {
        Some(v) => v <= 255,
        None => false,
    }
}

/// Whether `dateparse`'s arithmetic overflows on the zone token `t`.
fn zone_token_overflows(t: &Vec<char>) -> (r: bool)
    ensures
        r == zone_overflows(t@),
{
    if t.len() > 0 && t[0] == '-' {
        assert(t@.skip(1) =~= t@.drop_first());
        match capped_digits(t, 1) {
            Some(v) => {
                if v > 2147483648 {
                    false
                } else if v == 2147483648 {
                    true
                } else {
                    (v / 100) * 3600 + (v % 100) * 60 > 2147483647
                }
            },
            None => false,
        }
    } else {
        let from: usize = if t.len() > 0 && t[0] == '+' { 1 } else { 0 };
        assert(from == 1 ==> t@.skip(1) =~= t@.drop_first());
        assert(from == 0 ==> t@.skip(0) =~= t@);
        match capped_digits(t, from) {
            Some(v) => {
                if v > 2147483647 {
                    false
                } else {
                    (v / 100) * 3600 + (v % 100) * 60 > 2147483647
                }
            },
            None => false,
        }
    }
}

/// Whether `dateparse` would overflow on the time zone of `date`.
pub fn zone_would_overflow(date: &str) -> (r: bool)
    ensures
        r == zone_overflows_in(date@),
{
    let v = chars_of(date);
    let toks = tokens_of(&v);
    let ghost tv = toks@.map_values(|t: Vec<char>| t@);
    let mut k: usize = 0;
    while k < toks.len()
        invariant
            tv == toks@.map_values(|t: Vec<char>| t@),
            tv == date_tokens(date@),
            k <= tv.len(),
            first_u8_token(tv, 0) == first_u8_token(tv, k as int),
        decreases tv.len() - k,
    {
        assert(tv[k as int] == toks@[k as int]@);
        if is_u8_token(&toks[k]) {
            if toks.len() - k > 6 {
                assert(tv[k + 6] == toks@[k + 6]@);
                return zone_token_overflows(&toks[k + 6]);
            }
            return false;
        }
        k = k + 1;
    }
    false
}

} // verus!
