use vstd::prelude::*;

verus! {

/// A value that is shown in hexadecimal when debugged.
#[derive(Debug)]
pub struct DebugHex<T>(pub T);

/// The lowercase hexadecimal digit of `d`, which is below 16.
pub open spec fn hex_digit(d: nat) -> char {
    if d < 10 {
        ('0' as u32 + d) as char
    } else {
        ('a' as u32 + (d - 10)) as char
    }
}

/// The lowercase hexadecimal digits of `n`, without leading zeros (`0` for
/// zero).
pub open spec fn hex_digits(n: nat) -> Seq<char>
    decreases n,
{
    if n < 16 {
        seq![hex_digit(n)]
    } else {
        hex_digits(n / 16) + seq![hex_digit(n % 16)]
    }
}

/// The digit of `d` as a string.
fn digit_str(d: u64) -> (r: &'static str)
    requires
        d < 16,
    ensures
        r@ == seq![hex_digit(d as nat)],
{
    proof {
        reveal_strlit("0");
        reveal_strlit("1");
        reveal_strlit("2");
        reveal_strlit("3");
        reveal_strlit("4");
        reveal_strlit("5");
        reveal_strlit("6");
        reveal_strlit("7");
        reveal_strlit("8");
        reveal_strlit("9");
        reveal_strlit("a");
        reveal_strlit("b");
        reveal_strlit("c");
        reveal_strlit("d");
        reveal_strlit("e");
        reveal_strlit("f");
    }
    match d {
        0 => "0",
        1 => "1",
        2 => "2",
        3 => "3",
        4 => "4",
        5 => "5",
        6 => "6",
        7 => "7",
        8 => "8",
        9 => "9",
        10 => "a",
        11 => "b",
        12 => "c",
        13 => "d",
        14 => "e",
        _ => "f",
    }
}

impl DebugHex<u64> {
    /// How the value is debugged: `0x` and its lowercase hexadecimal digits.
    pub fn to_debug_string(&self) -> (r: String)
        ensures
            r@ == seq!['0', 'x'] + hex_digits(self.0 as nat),
    {
        let mut digits: Vec<u64> = Vec::new();
        let mut n = self.0;
        let ghost mut rest: Seq<char> = Seq::empty();
        // digits, least significant first, until the rest is one digit
        while n >= 16
            invariant
                hex_digits(self.0 as nat) == hex_digits(n as nat) + rest,
                rest.len() == digits@.len(),
                forall|k: int|
                    0 <= k < digits@.len() ==> #[trigger] digits@[k] < 16 && rest[rest.len() - 1 - k]
                        == hex_digit(digits@[k] as nat),
            decreases n,
        {
            let d = n % 16;
            proof {
                let r2 = seq![hex_digit(d as nat)] + rest;
                assert(hex_digits(n as nat) == hex_digits((n / 16) as nat) + seq![hex_digit(d as nat)]);
                assert(hex_digits(n as nat) + rest =~= hex_digits((n / 16) as nat) + r2);
                assert forall|k: int| 0 <= k < digits@.len() + 1 implies (if k < digits@.len() {
                    digits@[k]
                } else {
                    d
                }) < 16 && r2[r2.len() - 1 - k] == hex_digit(
                    (if k < digits@.len() {
                        digits@[k]
                    } else {
                        d
                    }) as nat,
                ) by {}
                rest = r2;
            }
            digits.push(d);
            n = n / 16;
        }
        let mut text = String::new();
        proof {
            reveal_strlit("0x");
        }
        text.append("0x");
        text.append(digit_str(n));
        let ghost first = seq!['0', 'x'] + hex_digits(n as nat);
        proof {
            assert(hex_digits(n as nat) == seq![hex_digit(n as nat)]);
        }
        let mut k = digits.len();
        while k > 0
            invariant
                k <= digits@.len(),
                rest.len() == digits@.len(),
                forall|j: int|
                    0 <= j < digits@.len() ==> #[trigger] digits@[j] < 16 && rest[rest.len() - 1 - j]
                        == hex_digit(digits@[j] as nat),
                text@ == first + rest.subrange(0, (digits@.len() - k) as int),
            decreases k,
        {
            k = k - 1;
            text.append(digit_str(digits[k]));
            proof {
                let done = (digits@.len() - k) as int;
                assert(rest[done - 1] == hex_digit(digits@[k as int] as nat));
                assert(rest.subrange(0, done) =~= rest.subrange(0, done - 1) + seq![
                    hex_digit(digits@[k as int] as nat),
                ]);
            }
        }
        proof {
            assert(rest.subrange(0, rest.len() as int) =~= rest);
        }
        text
    }
}

impl core::ops::Deref for DebugHex<u64> {
    type Target = u64;

    fn deref(&self) -> (r: &u64)
        ensures
            *r == self.0,
    {
        &self.0
    }
}

} // verus!
