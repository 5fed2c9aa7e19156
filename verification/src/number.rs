//! Numbers written as text: decimal and hexadecimal, both ways.
use vstd::prelude::*;
use vstd::string::*;

use crate::text::chars_of;

verus! {

/// The digit that stands for `d`: `0` to `9`, then lower-case letters.
pub open spec fn digit_char(d: int) -> char {
    if d < 10 {
        (48 + d) as char
    } else {
        (87 + d) as char
    }
}

/// The digits of `n` in base `base`, most significant first, without leading zeros.
pub open spec fn digits(n: nat, base: nat) -> Seq<char>
    recommends
        2 <= base <= 16,
    decreases n,
{
    if n < base || base < 2 {
        seq![digit_char(n as int)]
    } else {
        proof {
            assert(n / base < n) by (nonlinear_arith)
                requires
                    2 <= base <= n,
            ;
        }
        digits(n / base, base).push(digit_char((n % base) as int))
    }
}

/// `n` in decimal.
pub open spec fn decimal(n: int) -> Seq<char> {
    if n < 0 {
        seq!['-'] + digits((-n) as nat, 10)
    } else {
        digits(n as nat, 10)
    }
}

/// What the character `c` is worth as a digit; letters of either case count from ten.
pub open spec fn digit_worth(c: char) -> int {
    let n = c as int;
    if 48 <= n <= 57 {
        n - 48
    } else if 97 <= n <= 122 {
        n - 87
    } else if 65 <= n <= 90 {
        n - 55
    } else {
        36
    }
}

/// Whether every character of `s` is a digit in base `base`.
pub open spec fn all_digits(s: Seq<char>, base: int) -> bool {
    forall|i: int| 0 <= i < s.len() ==> digit_worth(#[trigger] s[i]) < base
}

/// The number that the digits `s` spell in base `base`.
pub open spec fn digits_worth(s: Seq<char>, base: int) -> int
    decreases s.len(),
{
    if s.len() == 0 {
        0
    } else {
        digits_worth(s.drop_last(), base) * base + digit_worth(s.last())
    }
}

/// The number that `s` spells: digits, at least one, after an optional sign. A minus
/// sign counts only where `signed`.
pub open spec fn number_worth(s: Seq<char>, base: int, signed: bool) -> Option<int> {
    let negative = signed && s.len() > 0 && s[0] == '-';
    let body = if s.len() > 0 && (s[0] == '+' || negative) {
        s.drop_first()
    } else {
        s
    };
    if body.len() == 0 || !all_digits(body, base) {
        None
    } else if negative {
        Some(-digits_worth(body, base))
    } else {
        Some(digits_worth(body, base))
    }
}

proof fn lemma_worth_of_digit(d: int)
    requires
        0 <= d < 16,
    ensures
        digit_worth(digit_char(d)) == d,
        digit_char(d) != '+',
        digit_char(d) != '-',
{
}

/// Reading back the digits of a number gives the number.
pub proof fn lemma_digits_worth(n: nat, base: nat)
    requires
        2 <= base <= 16,
    ensures
        digits(n, base).len() > 0,
        all_digits(digits(n, base), base as int),
        digits_worth(digits(n, base), base as int) == n,
        digits(n, base)[0] != '+',
        digits(n, base)[0] != '-',
    decreases n,
{
    if n < base {
        lemma_worth_of_digit(n as int);
        let s = digits(n, base);
        assert(s.drop_last() =~= Seq::empty());
        assert(digits_worth(s.drop_last(), base as int) == 0);
    } else {
        assert(n / base < n) by (nonlinear_arith)
            requires
                2 <= base <= n,
        ;
        lemma_digits_worth(n / base, base);
        let d = (n % base) as int;
        lemma_worth_of_digit(d);
        let head = digits(n / base, base);
        let s = head.push(digit_char(d));
        assert(s.drop_last() =~= head);
        assert((n / base) * base + n % base == n) by (nonlinear_arith)
            requires
                2 <= base,
        ;
    }
}

/// A number written in decimal reads back as itself.
pub proof fn lemma_decimal_reads_back(n: int)
    ensures
        number_worth(decimal(n), 10, true) == Some(n),
        n >= 0 ==> number_worth(decimal(n), 10, false) == Some(n),
{
    if n < 0 {
        lemma_digits_worth((-n) as nat, 10);
        assert(decimal(n).drop_first() =~= digits((-n) as nat, 10));
    } else {
        lemma_digits_worth(n as nat, 10);
    }
}

/// Different numbers have different digits.
pub proof fn lemma_digits_injective(m: nat, n: nat, base: nat)
    requires
        2 <= base <= 16,
        digits(m, base) == digits(n, base),
    ensures
        m == n,
{
    lemma_digits_worth(m, base);
    lemma_digits_worth(n, base);
}

proof fn lemma_digits_worth_grows(s: Seq<char>, k: int, base: int)
    requires
        0 <= k <= s.len(),
        1 <= base,
        all_digits(s, base),
    ensures
        0 <= digits_worth(s.take(k), base) <= digits_worth(s, base),
    decreases s.len(),
{
    if k == s.len() {
        assert(s.take(k) =~= s);
        if s.len() > 0 {
            assert(s.drop_last() =~= s.take(s.len() - 1));
            lemma_digits_worth_grows(s.drop_last(), s.len() - 1, base);
            let high = digits_worth(s.drop_last(), base);
            assert(high * base >= 0) by (nonlinear_arith)
                requires
                    high >= 0,
                    base >= 1,
            ;
            assert(digit_worth(s.last()) >= 0);
        }
    } else {
        assert(s.drop_last().take(k) =~= s.take(k));
        lemma_digits_worth_grows(s.drop_last(), k, base);
        let high = digits_worth(s.drop_last(), base);
        assert(high * base >= high) by (nonlinear_arith)
            requires
                high >= 0,
                base >= 1,
        ;
        assert(digit_worth(s.last()) >= 0);
    }
}

// ---------------------------------------------------------------------------
// Writing
// ---------------------------------------------------------------------------

fn digit(d: u64) -> (c: char)
    requires
        d < 16,
    ensures
        c == digit_char(d as int),
{
    if d < 10 {
        (48 + d as u8) as char
    } else {
        (87 + d as u8) as char
    }
}

fn push_digits(out: &mut String, n: u64, base: u64)
    requires
        2 <= base <= 16,
    ensures
        final(out)@ == old(out)@ + digits(n as nat, base as nat),
    decreases n,
{
    if n < base {
        out.push(digit(n));
        assert(out@ =~= old(out)@ + digits(n as nat, base as nat));
    } else {
        assert(n / base < n) by (nonlinear_arith)
            requires
                2 <= base <= n,
        ;
        push_digits(out, n / base, base);
        out.push(digit(n % base));
        assert(out@ =~= old(out)@ + digits(n as nat, base as nat));
    }
}

/// `n` in decimal.
pub fn decimal_text(n: u64) -> (r: String)
    ensures
        r@ == decimal(n as int),
{
    let mut r: String = String::new();
    push_digits(&mut r, n, 10);
    assert(r@ =~= digits(n as nat, 10));
    r
}

/// A count in decimal.
pub fn count_text(n: usize) -> (r: String)
    ensures
        r@ == decimal(n as int),
{
    decimal_text(n as u64)
}

/// `n` in decimal, with a minus sign where it is negative.
pub fn signed_text(n: i64) -> (r: String)
    ensures
        r@ == decimal(n as int),
{
    let mut r: String = String::new();
    if n < 0 {
        r.push('-');
        let magnitude: u64 = (-(n as i128)) as u64;
        push_digits(&mut r, magnitude, 10);
        assert(r@ =~= decimal(n as int));
    } else {
        push_digits(&mut r, n as u64, 10);
        assert(r@ =~= decimal(n as int));
    }
    r
}

/// `n` in lower-case hexadecimal.
pub fn hex_text(n: u64) -> (r: String)
    ensures
        r@ == digits(n as nat, 16),
{
    let mut r: String = String::new();
    push_digits(&mut r, n, 16);
    assert(r@ =~= digits(n as nat, 16));
    r
}

// ---------------------------------------------------------------------------
// Reading
// ---------------------------------------------------------------------------

fn worth(c: char) -> (r: u64)
    ensures
        r == digit_worth(c),
        r <= 36,
{
    let n: u32 = c as u32;
    if 48 <= n && n <= 57 {
        (n - 48) as u64
    } else if 97 <= n && n <= 122 {
        (n - 87) as u64
    } else if 65 <= n && n <= 90 {
        (n - 55) as u64
    } else {
        36
    }
}

/// The number that `cs[from..]` spells, where it is one and fits in 64 bits.
fn read_digits(cs: &Vec<char>, from: usize, base: u64) -> (r: Option<u64>)
    requires
        from <= cs@.len(),
        2 <= base <= 16,
    ensures
        ({
            let body = cs@.skip(from as int);
            r == if body.len() > 0 && all_digits(body, base as int) && digits_worth(
                body,
                base as int,
            ) <= u64::MAX {
                Some(digits_worth(body, base as int) as u64)
            } else {
                None
            }
        }),
        all_digits(cs@.skip(from as int), base as int) ==> digits_worth(
            cs@.skip(from as int),
            base as int,
        ) >= 0,
{
    let ghost body = cs@.skip(from as int);
    proof {
        if all_digits(body, base as int) {
            lemma_digits_worth_grows(body, 0, base as int);
        }
    }
    let n: usize = cs.len();
    if from == n {
        return None;
    }
    let mut acc: u64 = 0;
    let mut i: usize = from;
    proof {
        assert(body.take(0) =~= Seq::empty());
    }
    while i < n
        invariant
            n == cs@.len(),
            from <= i <= n,
            2 <= base <= 16,
            body == cs@.skip(from as int),
            forall|k: int| 0 <= k < i - from ==> digit_worth(#[trigger] body[k]) < base,
            acc == digits_worth(body.take(i - from), base as int),
        decreases n - i,
    {
        let d: u64 = worth(cs[i]);
        proof {
            assert(body[i - from] == cs@[i as int]);
            assert(body.take(i - from + 1).drop_last() =~= body.take(i - from));
            assert(body.take(i - from + 1).last() == cs@[i as int]);
        }
        if d >= base {
            assert(!all_digits(body, base as int));
            return None;
        }
        assert(acc * base <= u64::MAX * 16) by (nonlinear_arith)
            requires
                acc <= u64::MAX,
                base <= 16,
        ;
        let wide: u128 = acc as u128 * base as u128 + d as u128;
        if wide > u64::MAX as u128 {
            proof {
                if all_digits(body, base as int) {
                    lemma_digits_worth_grows(body, i - from + 1, base as int);
                }
            }
            return None;
        }
        acc = wide as u64;
        i = i + 1;
    }
    proof {
        assert(body.take(i - from) =~= body);
    }
    Some(acc)
}

/// The unsigned number that `s` spells in base `base`, where it fits in 64 bits.
pub fn parse_unsigned(s: &str, base: u64) -> (r: Option<u64>)
    requires
        2 <= base <= 16,
    ensures
        number_worth(s@, base as int, false) matches Some(n) ==> n >= 0,
        r == match number_worth(s@, base as int, false) {
            Some(n) => if n <= u64::MAX {
                Some(n as u64)
            } else {
                None
            },
            None => None,
        },
{
    let cs = chars_of(s);
    proof {
        assert(cs@.skip(0) =~= cs@);
        assert(cs@.len() > 0 ==> cs@.skip(1) =~= cs@.drop_first());
    }
    if cs.len() > 0 && cs[0] == '+' {
        read_digits(&cs, 1, base)
    } else {
        read_digits(&cs, 0, base)
    }
}

/// The signed number that `s` spells in base `base`, where it fits in 64 bits.
pub fn parse_signed(s: &str, base: u64) -> (r: Option<i64>)
    requires
        2 <= base <= 16,
    ensures
        r == match number_worth(s@, base as int, true) {
            Some(n) => if i64::MIN <= n <= i64::MAX {
                Some(n as i64)
            } else {
                None
            },
            None => None,
        },
{
    let cs = chars_of(s);
    proof {
        assert(cs@.skip(0) =~= cs@);
        assert(cs@.len() > 0 ==> cs@.skip(1) =~= cs@.drop_first());
    }
    if cs.len() > 0 && cs[0] == '-' {
        match read_digits(&cs, 1, base) {
            Some(n) => {
                if n <= 0x8000_0000_0000_0000 {
                    Some((-(n as i128)) as i64)
                } else {
                    None
                }
            },
            None => None,
        }
    } else {
        let from: usize = if cs.len() > 0 && cs[0] == '+' { 1 } else { 0 };
        match read_digits(&cs, from, base) {
            Some(n) => {
                if n <= 0x7fff_ffff_ffff_ffff {
                    Some(n as i64)
                } else {
                    None
                }
            },
            None => None,
        }
    }
}

/// The count that `s` spells in decimal, where it is one that `usize` holds.
pub fn parse_count(s: &str) -> (r: Option<usize>)
    ensures
        r == match number_worth(s@, 10, false) {
            Some(n) => if n <= usize::MAX {
                Some(n as usize)
            } else {
                None
            },
            None => None,
        },
{
    match parse_unsigned(s, 10) {
        Some(n) => {
            if n <= usize::MAX as u64 {
                Some(n as usize)
            } else {
                None
            }
        },
        None => None,
    }
}

// ---------------------------------------------------------------------------
// Laws
// ---------------------------------------------------------------------------

/// Numbers are written digit by digit, most significant first, without leading zeros, and a
/// negative one with a minus before it.
pub proof fn law_decimal_digits(n: int, d: int)
    requires
        0 < n,
        0 <= d < 10,
    ensures
        decimal(d) == seq![(('0' as int) + d) as char],
        decimal(10 * n + d) == decimal(n).push((('0' as int) + d) as char),
        decimal(-n) == seq!['-'] + decimal(n),
{
    let m = (10 * n + d) as nat;
    assert(m / 10 == n && m % 10 == d);
    assert(digits(m, 10) == digits(m / 10, 10).push(digit_char((m % 10) as int)));
}

/// Hexadecimal numbers are written alike, with the small letters from `a` to `f` for the
/// digits from ten on.
pub proof fn law_hexadecimal_digits(n: nat, d: nat)
    requires
        0 < n,
        d < 16,
    ensures
        digits(d, 16) == seq![
            if d < 10 {
                (('0' as int) + d) as char
            } else {
                (('a' as int) + (d - 10)) as char
            },
        ],
        digits(16 * n + d, 16) == digits(n, 16).push(
            if d < 10 {
                (('0' as int) + d) as char
            } else {
                (('a' as int) + (d - 10)) as char
            },
        ),
{
    let m = 16 * n + d;
    assert(m / 16 == n && m % 16 == d);
    assert(digits(m, 16) == digits(m / 16, 16).push(digit_char((m % 16) as int)));
}

/// A number is read digit by digit: each digit of the base counts for itself and the base
/// times what stands before it. Anything that is no digit spoils the number.
pub proof fn law_numbers_are_read_digit_by_digit(s: Seq<char>, c: char, signed: bool)
    ensures
        '0' <= c <= '9' ==> number_worth(seq![c], 10, signed) == Some((c as int) - ('0' as int)),
        number_worth(s, 10, signed) is Some && '0' <= c <= '9' && s[0] != '-' ==> number_worth(
            s.push(c),
            10,
            signed,
        ) == Some(10 * number_worth(s, 10, signed)->0 + (c as int) - ('0' as int)),
        s.len() > 0 && !('0' <= c <= '9') ==> number_worth(s.push(c), 10, signed) is None,
        number_worth(Seq::empty(), 10, signed) is None,
{
    if '0' <= c <= '9' {
        let one = seq![c];
        assert(one.drop_last() =~= Seq::empty());
        assert(one.last() == c);
        assert(digits_worth(one.drop_last(), 10) == 0);
        assert forall|i: int| 0 <= i < one.len() implies digit_worth(#[trigger] one[i]) < 10 by {}
    }
    if s.len() > 0 {
        let t = s.push(c);
        let signs = s[0] == '+' || (signed && s[0] == '-');
        let body = if signs {
            s.drop_first()
        } else {
            s
        };
        let longer = if signs {
            t.drop_first()
        } else {
            t
        };
        assert(t[0] == s[0]);
        assert(longer =~= body.push(c));
        assert(longer.drop_last() =~= body);
        assert(longer.last() == c);
        assert(longer[longer.len() - 1] == c);
        if all_digits(body, 10) && '0' <= c <= '9' {
            assert forall|i: int| 0 <= i < longer.len() implies digit_worth(#[trigger] longer[i])
                < 10 by {
                if i < body.len() {
                    assert(longer[i] == body[i]);
                }
            }
        }
    }
}

/// A plus before a number changes nothing, and a minus gives its opposite, where signs are
/// read.
pub proof fn law_signs(s: Seq<char>)
    requires
        s.len() > 0,
        s[0] != '+',
        s[0] != '-',
    ensures
        number_worth(seq!['+'] + s, 10, true) == number_worth(s, 10, true),
        number_worth(seq!['+'] + s, 10, false) == number_worth(s, 10, false),
        number_worth(seq!['-'] + s, 10, false) is None,
        number_worth(seq!['-'] + s, 10, true) == match number_worth(s, 10, true) {
            Some(n) => Some(-n),
            None => None,
        },
{
    let plus = seq!['+'] + s;
    let minus = seq!['-'] + s;
    assert(plus.drop_first() =~= s);
    assert(minus.drop_first() =~= s);
    assert(minus[0] == '-');
    assert(digit_worth(minus[0]) >= 10);
}

} // verus!
