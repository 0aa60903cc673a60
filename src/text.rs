//! Decimal and hexadecimal rendering of integers, as used in symbol names,
//! generated source and debugger scripts.

use vstd::prelude::*;

verus! {

/// The digit of value `d` (`d < 16`), lower case for the letters.
pub open spec fn digit_char(d: int) -> char {
    seq!['0', '1', '2', '3', '4', '5', '6', '7', '8', '9', 'a', 'b', 'c', 'd', 'e', 'f'][d]
}

/// `n` in lower-case hexadecimal, without leading zeros.
pub open spec fn lower_hex(n: nat) -> Seq<char>
    decreases n,
{
    if n < 16 {
        seq![digit_char(n as int)]
    } else {
        lower_hex(n / 16) + seq![digit_char((n % 16) as int)]
    }
}

/// `n` in decimal, without leading zeros.
pub open spec fn decimal(n: nat) -> Seq<char>
    decreases n,
{
    if n < 10 {
        seq![digit_char(n as int)]
    } else {
        decimal(n / 10) + seq![digit_char((n % 10) as int)]
    }
}

/// `k` copies of the character `c`.
pub open spec fn repeat_char(c: char, k: nat) -> Seq<char> {
    Seq::new(k, |i: int| c)
}

/// `n` in lower-case hexadecimal, padded with zeros on the left to at
/// least `w` digits.
pub open spec fn hex_padded(n: nat, w: nat) -> Seq<char> {
    let h = lower_hex(n);
    if h.len() >= w {
        h
    } else {
        repeat_char('0', (w - h.len()) as nat) + h
    }
}

/// Whether `c` is one of the sixteen digits.
pub open spec fn is_digit_char(c: char) -> bool {
    exists|d: int| 0 <= d < 16 && c == digit_char(d)
}

pub proof fn lemma_lower_hex_digits(n: nat)
    ensures
        lower_hex(n).len() >= 1,
        forall|i: int| 0 <= i < lower_hex(n).len() ==> is_digit_char(#[trigger] lower_hex(n)[i]),
    decreases n,
{
    if n < 16 {
        assert(is_digit_char(lower_hex(n)[0]));
    } else {
        lemma_lower_hex_digits(n / 16);
        let d = (n % 16) as int;
        assert(is_digit_char(digit_char(d)));
        assert forall|i: int| 0 <= i < lower_hex(n).len() implies is_digit_char(
            #[trigger] lower_hex(n)[i],
        ) by {
            if i < lower_hex(n / 16).len() {
                assert(lower_hex(n)[i] == lower_hex(n / 16)[i]);
            }
        }
    }
}

/// The one-character string of digit `d`.
fn digit_str(d: u64) -> (r: &'static str)
    requires
        d < 16,
    ensures
        r@ == seq![digit_char(d as int)],
{
    proof {
        reveal_strlit("0");
        reveal_strlit("1");
        reveal_strlit("2");
        reveal_strlit("3");
        reveal_strlit("4");
        reveal_strlit("5");
        reveal_strlit("6");
        reveal_strlit("7");
        reveal_strlit("8");
        reveal_strlit("9");
        reveal_strlit("a");
        reveal_strlit("b");
        reveal_strlit("c");
        reveal_strlit("d");
        reveal_strlit("e");
        reveal_strlit("f");
    }
    let r = if d == 0 {
        "0"
    } else if d == 1 {
        "1"
    } else if d == 2 {
        "2"
    } else if d == 3 {
        "3"
    } else if d == 4 {
        "4"
    } else if d == 5 {
        "5"
    } else if d == 6 {
        "6"
    } else if d == 7 {
        "7"
    } else if d == 8 {
        "8"
    } else if d == 9 {
        "9"
    } else if d == 10 {
        "a"
    } else if d == 11 {
        "b"
    } else if d == 12 {
        "c"
    } else if d == 13 {
        "d"
    } else if d == 14 {
        "e"
    } else {
        "f"
    };
    assert(r@ =~= seq![digit_char(d as int)]);
    r
}

/// Renders `n` in lower-case hexadecimal.
pub fn to_lower_hex(n: u64) -> (r: String)
    ensures
        r@ == lower_hex(n as nat),
    decreases n,
{
    if n < 16 {
        String::from_str(digit_str(n))
    } else {
        let mut s = to_lower_hex(n / 16);
        s.append(digit_str(n % 16));
        s
    }
}

/// The number of digits of `n` in hexadecimal.
pub fn lower_hex_len(n: u64) -> (r: usize)
    ensures
        r == lower_hex(n as nat).len(),
        r <= 16,
    decreases n,
{
    if n < 16 {
        1
    } else {
        let k = lower_hex_len(n / 16);
        proof {
            assert(n / 16 < 0x1000_0000_0000_0000) by (nonlinear_arith)
                requires n <= 0xffff_ffff_ffff_ffff;
            if k == 16 {
                reveal_with_fuel(pow16, 16);
                lemma_hex_len_bound_k((n / 16) as nat, 15);
            }
        }
        k + 1
    }
}

proof fn lemma_hex_len_bound_k(n: nat, k: nat)
    requires
        k >= 1,
        n < pow16(k),
    ensures
        lower_hex(n).len() <= k,
    decreases k,
{
    if n >= 16 {
        assert(k >= 2) by {
            if k == 1 {
                assert(pow16(1) == 16 * pow16(0));
            }
        }
        assert(pow16(k) == 16 * pow16((k - 1) as nat));
        assert(n / 16 < pow16((k - 1) as nat)) by (nonlinear_arith)
            requires n < pow16(k), pow16(k) == 16 * pow16((k - 1) as nat);
        lemma_hex_len_bound_k(n / 16, (k - 1) as nat);
    }
}

/// Sixteen to the power `k`.
pub open spec fn pow16(k: nat) -> nat
    decreases k,
{
    if k == 0 {
        1
    } else {
        16 * pow16((k - 1) as nat)
    }
}

/// Renders `n` in lower-case hexadecimal with at least `w` digits.
pub fn to_hex_padded(n: u64, w: usize) -> (r: String)
    ensures
        r@ == hex_padded(n as nat, w as nat),
{
    let h = to_lower_hex(n);
    let len = lower_hex_len(n);
    if len >= w {
        h
    } else {
        let mut r = String::new();
        let mut k: usize = 0;
        while k < w - len
            invariant
                len < w,
                k <= w - len,
                r@ =~= repeat_char('0', k as nat),
            decreases w - len - k,
        {
            r.append("0");
            proof {
                reveal_strlit("0");
            }
            k = k + 1;
        }
        r.append(h.as_str());
        r
    }
}

/// Renders `n` in decimal.
pub fn to_decimal(n: u64) -> (r: String)
    ensures
        r@ == decimal(n as nat),
    decreases n,
{
    if n < 10 {
        String::from_str(digit_str(n))
    } else {
        let mut s = to_decimal(n / 10);
        s.append(digit_str(n % 10));
        s
    }
}

} // verus!
