//! Numbers as they are read out of texts.

use crate::text;
use vstd::prelude::*;

verus! {

/// Whether a character is a decimal digit.
pub open spec fn is_digit(c: char) -> bool {
    48 <= c as int <= 57
}

/// The number that digits spell; none where there are no digits, or something
/// else among them.
pub open spec fn digits_value(s: Seq<char>) -> Option<nat>
    decreases s.len(),
{
    if s.len() == 0 || !is_digit(s.last()) {
        None
    } else if s.len() == 1 {
        Some((s.last() as int - 48) as nat)
    } else {
        match digits_value(s.drop_last()) {
            Some(v) => Some((10 * v + (s.last() as int - 48)) as nat),
            None => None,
        }
    }
}

/// The number without a sign that a text spells, where it is no larger than a
/// limit. A plus may stand before it.
pub open spec fn unsigned_value(s: Seq<char>, limit: nat) -> Option<nat> {
    let digits = if s.len() > 0 && s[0] == '+' {
        s.skip(1)
    } else {
        s
    };
    match digits_value(digits) {
        Some(v) if v <= limit => Some(v),
        _ => None,
    }
}

/// The integer that a text spells, where 64 bits hold it. A plus or a minus may
/// stand before it.
pub open spec fn signed_value(s: Seq<char>) -> Option<int> {
    if s.len() > 0 && s[0] == '-' {
        match digits_value(s.skip(1)) {
            Some(v) if v <= 0x8000_0000_0000_0000 => Some(-v),
            _ => None,
        }
    } else {
        match unsigned_value(s, 0x7fff_ffff_ffff_ffff) {
            Some(v) => Some(v as int),
            None => None,
        }
    }
}

/// Reads digits from a place on, up to what 64 bits hold.
fn read_digits(v: &Vec<char>, from: usize) -> (r: Option<u64>)
    requires
        from <= v@.len(),
    ensures
        r matches Some(n) ==> digits_value(v@.skip(from as int)) == Some(n as nat),
        r is None ==> (digits_value(v@.skip(from as int)) matches Some(n) ==> n > u64::MAX),
{
    let ghost s = v@.skip(from as int);
    if from == v.len() {
        return None;
    }
    let mut n: u64 = 0;
    let mut over: bool = false;
    let mut i: usize = from;
    while i < v.len()
        invariant
            from <= i <= v@.len(),
            from < v@.len(),
            s == v@.skip(from as int),
            i == from ==> n == 0 && !over,
            i > from ==> digits_value(s.take(i - from)) is Some,
            i > from && !over ==> digits_value(s.take(i - from)) == Some(n as nat),
            i > from && over ==> digits_value(s.take(i - from))->0 > u64::MAX,
        decreases v@.len() - i,
    {
        let c: u32 = text::code_point(v[i]);
        let ghost k: int = i - from;
        assert(s.take(k + 1).last() == v@[i as int]);
        assert(s.take(k + 1).drop_last() =~= s.take(k));
        if c < 48 || c > 57 {
            proof {
                lemma_stray(s, k);
            }
            return None;
        }
        let d: u64 = (c - 48) as u64;
        if !over {
            let next: u128 = 10 * (n as u128) + d as u128;
            if next > u64::MAX as u128 {
                over = true;
            } else {
                n = next as u64;
            }
        }
        i = i + 1;
    }
    assert(s.take(s.len() as int) =~= s);
    if over {
        None
    } else {
        Some(n)
    }
}

/// Something that is no digit spoils the number.
proof fn lemma_stray(s: Seq<char>, k: int)
    requires
        0 <= k < s.len(),
        !is_digit(s[k]),
    ensures
        digits_value(s) is None,
    decreases s.len(),
{
    if k < s.len() - 1 {
        lemma_stray(s.drop_last(), k);
    }
}

/// Reads a number that 32 bits hold, as `str::parse` does.
pub fn parse_u32(s: &str) -> (r: Option<u32>)
    ensures
        match r {
            Some(n) => unsigned_value(s@, u32::MAX as nat) == Some(n as nat),
            None => unsigned_value(s@, u32::MAX as nat) is None,
        },
{
    let v = text::chars_of(s);
    let from: usize = if v.len() > 0 && v[0] == '+' {
        1
    } else {
        0
    };
    assert(v@.skip(0) =~= s@);
    match read_digits(&v, from) {
        Some(n) => if n <= u32::MAX as u64 {
            Some(n as u32)
        } else {
            None
        },
        None => None,
    }
}

/// Reads an integer that 64 bits hold, as `str::parse` does.
pub fn parse_i64(s: &str) -> (r: Option<i64>)
    ensures
        match r {
            Some(n) => signed_value(s@) == Some(n as int),
            None => signed_value(s@) is None,
        },
{
    let v = text::chars_of(s);
    assert(v@.skip(0) =~= s@);
    if v.len() > 0 && v[0] == '-' {
        return match read_digits(&v, 1) {
            Some(n) => if n <= 0x8000_0000_0000_0000 {
                Some((-(n as i128)) as i64)
            } else {
                None
            },
            None => None,
        };
    }
    let from: usize = if v.len() > 0 && v[0] == '+' {
        1
    } else {
        0
    };
    match read_digits(&v, from) {
        Some(n) => if n <= 0x7fff_ffff_ffff_ffff {
            Some(n as i64)
        } else {
            None
        },
        None => None,
    }
}

/// A number is read back from how it is written, and it is written with digits
/// only.
pub proof fn lemma_decimal_round_trip(n: nat)
    ensures
        digits_value(text::decimal(n)) == Some(n),
        text::decimal(n).len() > 0,
        forall|i: int|
            0 <= i < text::decimal(n).len() ==> is_digit(#[trigger] text::decimal(n)[i]),
    decreases n,
{
    if n >= 10 {
        lemma_decimal_round_trip(n / 10);
        let rest = text::decimal(n / 10);
        assert(text::decimal(n).drop_last() =~= rest);
    }
}

/// An integer that 64 bits hold is read back from how it is written.
pub proof fn law_integer_round_trip(n: i64)
    ensures
        signed_value(text::signed_decimal(n as int)) == Some(n as int),
{
    reveal_strlit("-");
    if n < 0 {
        let magnitude = (-n) as nat;
        lemma_decimal_round_trip(magnitude);
        let s = text::signed_decimal(n as int);
        assert(s[0] == '-');
        assert(s.skip(1) =~= text::decimal(magnitude));
    } else {
        lemma_decimal_round_trip(n as nat);
        let s = text::signed_decimal(n as int);
        assert(is_digit(s[0]));
    }
}

/// A number that is written has no white space at its ends.
pub proof fn lemma_written_integer_is_trimmed(n: i64)
    ensures
        text::trimmed(text::signed_decimal(n as int)) == text::signed_decimal(n as int),
{
    reveal_strlit("-");
    let s = text::signed_decimal(n as int);
    if n < 0 {
        lemma_decimal_round_trip((-n) as nat);
        assert(s.skip(1) =~= text::decimal((-n) as nat));
        assert(s.last() == text::decimal((-n) as nat).last());
        assert(s[0] == '-');
    } else {
        lemma_decimal_round_trip(n as nat);
    }
    assert(!text::is_space(s[0]));
    assert(!text::is_space(s.last()));
}

/// Digits are read from the left, each counting ten times the one behind it; anything
/// that is no digit spoils the number, and nothing is no number.
pub proof fn law_digits_are_read_by_their_places(s: Seq<char>, c: char)
    ensures
        digits_value(Seq::empty()) is None,
        !('0' <= c <= '9') ==> digits_value(s.push(c)) is None,
        '0' <= c <= '9' && s.len() == 0 ==> digits_value(s.push(c)) == Some((c as int - 48) as nat),
        '0' <= c <= '9' && s.len() > 0 ==> digits_value(s.push(c)) == match digits_value(s) {
            Some(v) => Some((10 * v + (c as int - 48)) as nat),
            None => None,
        },
{
    assert(s.push(c).drop_last() =~= s);
}

/// A number may have a plus before it and, where a sign is allowed, a minus, which makes
/// it negative; a number that is too large is none.
pub proof fn law_signs_and_limits_count(digits: Seq<char>, n: nat, limit: nat)
    requires
        digits_value(digits) == Some(n),
    ensures
        unsigned_value(digits, limit) == if n <= limit {
            Some(n)
        } else {
            None
        },
        unsigned_value(seq!['+'] + digits, limit) == unsigned_value(digits, limit),
        unsigned_value(seq!['-'] + digits, limit) is None,
        signed_value(seq!['-'] + digits) == if n <= 0x8000_0000_0000_0000 {
            Some(-(n as int))
        } else {
            None
        },
        signed_value(digits) == if n <= 0x7fff_ffff_ffff_ffff {
            Some(n as int)
        } else {
            None
        },
{
    if !is_digit(digits[0]) {
        lemma_stray(digits, 0);
    }
    assert((seq!['+'] + digits).skip(1) =~= digits);
    assert((seq!['-'] + digits).skip(1) =~= digits);
    lemma_stray(seq!['-'] + digits, 0);
}

} // verus!
