//! Unsigned numbers written in decimal or hexadecimal digits.

use vstd::prelude::*;

verus! {

/// The value of `c` as a digit, for letters without regard to case: `0`-`9`
/// stand for 0 to 9, `a`-`z` for 10 to 35.  A value of `radix` or more is no
/// digit in that radix.
pub open spec fn digit_of(c: char, radix: nat) -> Option<nat> {
    let v: nat = if '0' <= c && c <= '9' {
        (c as nat - '0' as nat) as nat
    } else if 'a' <= c && c <= 'z' {
        (c as nat - 'a' as nat + 10) as nat
    } else if 'A' <= c && c <= 'Z' {
        (c as nat - 'A' as nat + 10) as nat
    } else {
        radix
    };
    if v < radix {
        Some(v)
    } else {
        None
    }
}

/// Whether every character of `s` is a digit in `radix`.
pub open spec fn all_digits(s: Seq<char>, radix: nat) -> bool {
    forall|i: int| 0 <= i < s.len() ==> digit_of(#[trigger] s[i], radix) is Some
}

/// The number that the digits `s` denote in `radix`, most significant first.
pub open spec fn digits_value(s: Seq<char>, radix: nat) -> nat
    decreases s.len(),
{
    if s.len() == 0 {
        0
    } else {
        match digit_of(s.last(), radix) {
            Some(d) => digits_value(s.drop_last(), radix) * radix + d,
            None => 0,
        }
    }
}

/// `s` without one leading plus sign.
pub open spec fn unsigned_body(s: Seq<char>) -> Seq<char> {
    if s.len() > 0 && s[0] == '+' {
        s.drop_first()
    } else {
        s
    }
}

/// The number that `s` denotes: an optional `+`, then one or more digits in
/// `radix`, whose value is at most `max`.  Anything else denotes no number.
pub open spec fn parse_unsigned(s: Seq<char>, radix: nat, max: nat) -> Option<nat> {
    let body = unsigned_body(s);
    if body.len() > 0 && all_digits(body, radix) && digits_value(body, radix) <= max {
        Some(digits_value(body, radix))
    } else {
        None
    }
}

/// The decimal number in `s` that fits 64 bits.
pub open spec fn parse_u64(s: Seq<char>) -> Option<nat> {
    parse_unsigned(s, 10, u64::MAX as nat)
}

/// The decimal number in `s` that fits 8 bits.
pub open spec fn parse_u8(s: Seq<char>) -> Option<nat> {
    parse_unsigned(s, 10, u8::MAX as nat)
}

/// The hexadecimal number in `s` that fits 16 bits.
pub open spec fn parse_hex_u16(s: Seq<char>) -> Option<nat> {
    parse_unsigned(s, 16, u16::MAX as nat)
}

/// A longer run of digits denotes no smaller number than its prefix.
pub proof fn lemma_prefix_value(s: Seq<char>, k: nat, radix: nat)
    requires
        k <= s.len(),
        all_digits(s, radix),
        radix >= 1,
    ensures
        digits_value(s.take(k as int), radix) <= digits_value(s, radix),
    decreases s.len() - k,
{
    if k == s.len() {
        assert(s.take(k as int) =~= s);
    } else {
        let t = s.drop_last();
        assert forall|i: int| 0 <= i < t.len() implies digit_of(#[trigger] t[i], radix) is Some by {
            assert(t[i] == s[i]);
        }
        lemma_prefix_value(t, k, radix);
        assert(t.take(k as int) =~= s.take(k as int));
        assert(digit_of(s.last(), radix) is Some);
        let d = digit_of(s.last(), radix)->0;
        assert(digits_value(t, radix) * radix + d >= digits_value(t, radix)) by (nonlinear_arith)
            requires
                radix >= 1,
        ;
    }
}

/// The value of `c` as a digit in `radix`, if it is one.
pub fn digit(c: char, radix: u64) -> (out: Option<u64>)
    requires
        radix <= 36,
    ensures
        out is Some == digit_of(c, radix as nat) is Some,
        out is Some ==> out->0 == digit_of(c, radix as nat)->0,
{
    let v: u64 = if '0' <= c && c <= '9' {
        (c as u64) - ('0' as u64)
    } else if 'a' <= c && c <= 'z' {
        (c as u64) - ('a' as u64) + 10
    } else if 'A' <= c && c <= 'Z' {
        (c as u64) - ('A' as u64) + 10
    } else {
        radix
    };
    if v < radix {
        Some(v)
    } else {
        None
    }
}

/// Reads the unsigned number that `s` denotes in `radix`, up to `max`.
pub fn parse_number(s: &Vec<char>, radix: u64, max: u64) -> (out: Option<u64>)
    requires
        2 <= radix <= 36,
    ensures
        out is Some == parse_unsigned(s@, radix as nat, max as nat) is Some,
        out is Some ==> out->0 == parse_unsigned(s@, radix as nat, max as nat)->0,
{
    let start: usize = if s.len() > 0 && s[0] == '+' {
        1
    } else {
        0
    };
    let ghost body = unsigned_body(s@);
    assert(body =~= s@.skip(start as int));
    if start == s.len() {
        return None;
    }
    let mut acc: u64 = 0;
    let mut i: usize = start;
    while i < s.len()
        invariant
            start <= i <= s.len(),
            2 <= radix <= 36,
            body == s@.skip(start as int),
            body == unsigned_body(s@),
            all_digits(body.take(i - start), radix as nat),
            acc == digits_value(body.take(i - start), radix as nat),
            acc <= max,
        decreases s.len() - i,
    {
        let ghost prefix = body.take(i - start);
        let ghost next = body.take(i - start + 1);
        proof {
            assert(next.drop_last() =~= prefix);
            assert(next.last() == s@[i as int]);
        }
        match digit(s[i], radix) {
            None => {
                proof {
                    assert(body[i - start] == s@[i as int]);
                    assert(!all_digits(body, radix as nat));
                }
                return None;
            },
            Some(d) => {
                proof {
                    assert forall|k: int| 0 <= k < next.len() implies digit_of(
                        #[trigger] next[k],
                        radix as nat,
                    ) is Some by {
                        if k < prefix.len() {
                            assert(next[k] == prefix[k]);
                        }
                    }
                    assert(digits_value(next, radix as nat) == acc * radix + d);
                }
                if d > max || acc > (max - d) / radix {
                    proof {
                        assert(acc * radix + d > max) by (nonlinear_arith)
                            requires
                                d > max || acc > (max - d) / (radix as int),
                                radix >= 2,
                                acc >= 0,
                                d >= 0,
                        ;
                        if all_digits(body, radix as nat) {
                            lemma_prefix_value(body, (i - start + 1) as nat, radix as nat);
                        }
                    }
                    return None;
                }
                proof {
                    assert(acc * radix + d <= max) by (nonlinear_arith)
                        requires
                            d <= max,
                            acc <= (max - d) / (radix as int),
                            radix >= 2,
                            acc >= 0,
                    ;
                }
                acc = acc * radix + d;
                i += 1;
            },
        }
    }
    assert(body.take(body.len() as int) =~= body);
    Some(acc)
}

} // verus!
