//! Decimal text for unsigned integers: reading it as `u32::from_str` does,
//! and writing it as integer `Display` does.
use vstd::prelude::*;
use vstd::string::StringExecFns;

verus! {

/// The ASCII byte of the digit `d` (`d < 10`).
pub open spec fn digit_byte(d: nat) -> u8 {
    (48 + d) as u8
}

/// The character of the digit `d` (`d < 10`).
pub open spec fn digit_char(d: nat) -> char {
    (48 + d) as char
}

pub open spec fn is_digit(b: u8) -> bool {
    48 <= b <= 57
}

pub open spec fn all_digits(s: Seq<u8>) -> bool {
    forall|i: int| 0 <= i < s.len() ==> is_digit(#[trigger] s[i])
}

/// The number that a string of ASCII digits spells, most significant first.
pub open spec fn digits_value(s: Seq<u8>) -> nat
    decreases s.len(),
{
    if s.len() == 0 {
        0
    } else {
        digits_value(s.drop_last()) * 10 + (s.last() - 48) as nat
    }
}

/// What `u32::from_str` returns on `s`: an optional leading `+`, then one or
/// more ASCII digits whose value fits in a `u32`.
pub open spec fn u32_from_decimal(s: Seq<u8>) -> Option<u32> {
    let body = if s.len() > 0 && s[0] == 43 {
        s.drop_first()
    } else {
        s
    };
    if body.len() > 0 && all_digits(body) && digits_value(body) <= u32::MAX {
        Some(digits_value(body) as u32)
    } else {
        None
    }
}

/// The decimal digits of `n` without leading zeros, as written by integer `Display`.
pub open spec fn decimal_chars(n: nat) -> Seq<char>
    decreases n,
{
    if n < 10 {
        seq![digit_char(n)]
    } else {
        decimal_chars(n / 10).push(digit_char(n % 10))
    }
}

/// The ASCII bytes of [`decimal_chars`]`(n)`.
pub open spec fn decimal_bytes(n: nat) -> Seq<u8>
    decreases n,
{
    if n < 10 {
        seq![digit_byte(n)]
    } else {
        decimal_bytes(n / 10).push(digit_byte(n % 10))
    }
}

/// The decimal text of `n` is a non-empty run of ASCII digits, byte for
/// byte the characters of [`decimal_chars`], and it spells `n` back.
pub proof fn lemma_decimal_text(n: nat)
    ensures
        decimal_bytes(n).len() == decimal_chars(n).len(),
        decimal_bytes(n).len() >= 1,
        forall|i: int| 0 <= i < decimal_chars(n).len() ==> {
            &&& 48 <= (#[trigger] decimal_chars(n)[i]) as int <= 57
            &&& decimal_chars(n)[i] as u8 == decimal_bytes(n)[i]
        },
        all_digits(decimal_bytes(n)),
        digits_value(decimal_bytes(n)) == n,
    decreases n,
{
    let last = n % 10;
    assert(digit_byte(last) - 48 == last);
    if n < 10 {
        let b = decimal_bytes(n);
        assert(b.drop_last() =~= Seq::<u8>::empty());
        assert(digits_value(b.drop_last()) == 0);
        assert(b.last() == digit_byte(n));
    } else {
        lemma_decimal_text(n / 10);
        let b = decimal_bytes(n);
        assert(b.drop_last() =~= decimal_bytes(n / 10));
        assert(n == (n / 10) * 10 + last);
        assert(b.last() == digit_byte(last));
        assert(digits_value(b) == digits_value(b.drop_last()) * 10 + last);
        assert forall|i: int| 0 <= i < b.len() implies is_digit(#[trigger] b[i]) by {
            if i < b.len() - 1 {
                assert(b[i] == decimal_bytes(n / 10)[i]);
            }
        }
        assert forall|i: int| 0 <= i < decimal_chars(n).len() implies {
            &&& 48 <= (#[trigger] decimal_chars(n)[i]) as int <= 57
            &&& decimal_chars(n)[i] as u8 == decimal_bytes(n)[i]
        } by {
            if i < decimal_chars(n).len() - 1 {
                assert(decimal_chars(n)[i] == decimal_chars(n / 10)[i]);
                assert(b[i] == decimal_bytes(n / 10)[i]);
            }
        }
    }
}

/// Reads `s` as `u32::from_str` does; `None` where that returns an error.
pub fn parse_u32(s: &[u8]) -> (value: Option<u32>)
    ensures
        value == u32_from_decimal(s@),
{
    let start: usize = if s.len() > 0 && s[0] == 43 {
        1
    } else {
        0
    };
    let ghost body = s@.skip(start as int);
    proof {
        if start == 1 {
            assert(body =~= s@.drop_first());
        } else {
            assert(body =~= s@);
        }
    }
    if start == s.len() {
        return None;
    }
    // `acc` is the value of the digits read so far, capped just above `u32::MAX`.
    let cap: u64 = 0x1_0000_0000;
    let mut acc: u64 = 0;
    let mut i: usize = start;
    while i < s.len()
        invariant
            start <= i <= s.len(),
            start < s.len(),
            body == s@.skip(start as int),
            body == (if s@.len() > 0 && s@[0] == 43 { s@.drop_first() } else { s@ }),
            acc <= cap,
            cap == 0x1_0000_0000u64,
            all_digits(s@.subrange(start as int, i as int)),
            acc == if digits_value(s@.subrange(start as int, i as int)) < cap {
                digits_value(s@.subrange(start as int, i as int))
            } else {
                cap as nat
            },
        decreases s.len() - i,
    {
        let b = s[i];
        if !(48 <= b && b <= 57) {
            proof {
                assert(!all_digits(body)) by {
                    assert(body[i - start] == b);
                }
            }
            return None;
        }
        let ghost prefix = s@.subrange(start as int, i as int);
        let ghost next = s@.subrange(start as int, i + 1);
        proof {
            assert(next.drop_last() =~= prefix);
            assert(all_digits(next)) by {
                assert forall|j: int| 0 <= j < next.len() implies is_digit(#[trigger] next[j]) by {
                    if j < prefix.len() {
                        assert(next[j] == prefix[j]);
                    }
                }
            }
        }
        let d = (b - 48) as u64;
        let grown = acc * 10 + d;
        acc = if grown < cap {
            grown
        } else {
            cap
        };
        proof {
            let v = digits_value(prefix);
            assert(digits_value(next) == v * 10 + d);
            if v >= cap {
                assert(v * 10 + d >= cap) by (nonlinear_arith)
                    requires
                        v >= cap,
                ;
            }
        }
        i = i + 1;
    }
    proof {
        assert(s@.subrange(start as int, s@.len() as int) =~= body);
    }
    if acc < cap {
        Some(acc as u32)
    } else {
        None
    }
}

/// The text of the digit `d`.
fn digit_text(d: u32) -> (text: &'static str)
    requires
        d < 10,
    ensures
        text@ == seq![digit_char(d as nat)],
{
    proof {
        reveal_strlit("0");
        reveal_strlit("1");
        reveal_strlit("2");
        reveal_strlit("3");
        reveal_strlit("4");
        reveal_strlit("5");
        reveal_strlit("6");
        reveal_strlit("7");
        reveal_strlit("8");
        reveal_strlit("9");
    }
    match d {
        0 => "0",
        1 => "1",
        2 => "2",
        3 => "3",
        4 => "4",
        5 => "5",
        6 => "6",
        7 => "7",
        8 => "8",
        _ => "9",
    }
}

/// Appends the decimal digits of `n` to `out`.
fn append_decimal(n: u32, out: &mut String)
    ensures
        final(out)@ == old(out)@ + decimal_chars(n as nat),
    decreases n,
{
    if n >= 10 {
        append_decimal(n / 10, out);
    }
    out.append(digit_text(n % 10));
    proof {
        if n >= 10 {
            assert(decimal_chars(n as nat) == decimal_chars((n / 10) as nat).push(digit_char((n % 10) as nat)));
        }
    }
}

/// Writes `n` in decimal, without sign or leading zeros, as integer
/// `Display` does.
pub(crate) fn decimal_string(n: u32) -> (text: String)
    ensures
        text@ == decimal_chars(n as nat),
{
    let mut text = String::new();
    append_decimal(n, &mut text);
    proof {
        assert(text@ =~= decimal_chars(n as nat));
    }
    text
}

} // verus!
