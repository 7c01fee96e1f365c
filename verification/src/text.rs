//! Small text utilities: comparing strings and writing numbers.
use vstd::prelude::*;
use vstd::string::*;

verus! {

/// `String::push` (std) appends one character to the string; the contract
/// claims exactly that.
pub assume_specification[ String::push ](s: &mut String, ch: char)
    ensures
        final(s)@ == old(s)@.push(ch),
;

/// Whether two strings hold the same characters.
pub(crate) fn str_equal(a: &str, b: &str) -> (r: bool)
    ensures
        r == (a@ == b@),
{
    let n = a.unicode_len();
    if n != b.unicode_len() {
        return false;
    }
    let mut i: usize = 0;
    while i < n
        invariant
            i <= n == a@.len() == b@.len(),
            forall|k: int| 0 <= k < i ==> a@[k] == b@[k],
        decreases n - i,
    {
        if a.get_char(i) != b.get_char(i) {
            return false;
        }
        i = i + 1;
    }
    assert(a@ =~= b@);
    true
}

/// The decimal digit character of `d` (for `d < 10`).
pub open spec fn digit_char(d: nat) -> char {
    ('0' as int + d) as char
}

/// The decimal representation of `n`, without leading zeros (`"0"` for 0).
pub open spec fn decimal(n: nat) -> Seq<char>
    decreases n,
{
    if n < 10 {
        seq![digit_char(n)]
    } else {
        decimal(n / 10).push(digit_char(n % 10))
    }
}

/// The number that a string of decimal digits reads as.
pub open spec fn digits_value(s: Seq<char>) -> int
    decreases s.len(),
{
    if s.len() == 0 {
        0
    } else {
        digits_value(s.drop_last()) * 10 + (s.last() as int - '0' as int)
    }
}

/// The digit character of `d` is the character `d` places after `'0'`.
proof fn lemma_digit_char(d: nat)
    requires
        d < 10,
    ensures
        digit_char(d) as int == '0' as int + d,
{
}

/// `decimal(n)` is the usual decimal numeral of `n`: a non-empty string of
/// the digits `'0'..='9'`, without a leading zero (unless it is `"0"`), that
/// reads back as `n`.
pub proof fn lemma_decimal_reads_back(n: nat)
    ensures
        decimal(n).len() > 0,
        forall|i: int| 0 <= i < decimal(n).len() ==> '0' <= #[trigger] decimal(n)[i] <= '9',
        decimal(n).len() > 1 ==> decimal(n)[0] != '0',
        digits_value(decimal(n)) == n,
    decreases n,
{
    lemma_digit_char(n % 10);
    if n < 10 {
        assert(n % 10 == n);
        let d = decimal(n);
        assert(d == seq![digit_char(n)]);
        assert(d.drop_last() =~= Seq::<char>::empty());
        assert(digits_value(d.drop_last()) == 0);
        assert(d.last() == digit_char(n));
        assert(digits_value(d) == digits_value(d.drop_last()) * 10 + (d.last() as int - '0' as int));
    } else {
        let m = n / 10;
        if m < 10 {
            lemma_digit_char(m);
        }
        lemma_decimal_reads_back(m);
        let d = decimal(n);
        assert(d == decimal(m).push(digit_char(n % 10)));
        assert(d.drop_last() =~= decimal(m));
        assert(d.last() == digit_char(n % 10));
        assert(digits_value(d) == digits_value(d.drop_last()) * 10 + (d.last() as int - '0' as int));
        assert(d[0] == decimal(m)[0]);
        assert(n == m * 10 + n % 10);
        if decimal(m).len() == 1 {
            assert(m < 10) by {
                if m >= 10 {
                    lemma_decimal_reads_back(m / 10);
                }
            }
            assert(decimal(m)[0] == digit_char(m));
        }
        assert forall|i: int| 0 <= i < d.len() implies '0' <= #[trigger] d[i] <= '9' by {
            if i < decimal(m).len() {
                assert(d[i] == decimal(m)[i]);
            }
        }
    }
}

/// The digits of `n` from the least significant one.
spec fn digits_reversed(n: nat) -> Seq<char>
    decreases n,
{
    if n < 10 {
        seq![digit_char(n)]
    } else {
        seq![digit_char(n % 10)] + digits_reversed(n / 10)
    }
}

proof fn lemma_digits_reversed(n: nat)
    ensures
        digits_reversed(n) == decimal(n).reverse(),
    decreases n,
{
    if n >= 10 {
        lemma_digits_reversed(n / 10);
        assert(decimal(n).reverse() =~= seq![digit_char(n % 10)] + decimal(n / 10).reverse());
    } else {
        assert(decimal(n).reverse() =~= seq![digit_char(n)]);
    }
}

/// Append the decimal representation of `n` to `out`, as `{}` formats it.
pub(crate) fn push_decimal(out: &mut String, n: usize)
    ensures
        final(out)@ == old(out)@ + decimal(n as nat),
{
    let mut rev: Vec<char> = Vec::new();
    let mut m: usize = n;
    loop
        invariant_except_break
            m <= n,
            digits_reversed(n as nat) == rev@ + digits_reversed(m as nat),
        ensures
            rev@ == digits_reversed(n as nat),
        decreases m,
    {
        let d = (m % 10) as u32;
        let c = char_of_digit(d);
        let ghost before = rev@;
        rev.push(c);
        if m < 10 {
            assert(rev@ =~= before + digits_reversed(m as nat));
            break;
        }
        proof {
            assert(rev@ + digits_reversed((m / 10) as nat) =~= before + (seq![c]
                + digits_reversed((m / 10) as nat)));
        }
        m = m / 10;
    }
    proof {
        lemma_digits_reversed(n as nat);
    }
    let ghost start = out@;
    let mut k: usize = rev.len();
    while k > 0
        invariant
            k <= rev.len(),
            rev@ == decimal(n as nat).reverse(),
            out@ =~= start + rev@.subrange(k as int, rev.len() as int).reverse(),
        decreases k,
    {
        k = k - 1;
        out.push(rev[k]);
        proof {
            assert(rev@.subrange(k as int, rev.len() as int).reverse() =~= rev@.subrange(
                k as int + 1,
                rev.len() as int,
            ).reverse().push(rev@[k as int]));
        }
    }
    proof {
        assert(rev@.subrange(0, rev.len() as int) =~= rev@);
        assert(decimal(n as nat).reverse().reverse() =~= decimal(n as nat));
    }
}

/// The character of a decimal digit.
fn char_of_digit(d: u32) -> (c: char)
    requires
        d < 10,
    ensures
        c == digit_char(d as nat),
{
    match d {
        0 => '0',
        1 => '1',
        2 => '2',
        3 => '3',
        4 => '4',
        5 => '5',
        6 => '6',
        7 => '7',
        8 => '8',
        _ => '9',
    }
}

} // verus!
