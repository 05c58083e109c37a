//! Fixed-point coin amounts: integer base units (10^8 per coin) and their
//! canonical decimal text with exactly eight fractional digits.
use vstd::prelude::*;

verus! {

/// Base units in one whole coin.
pub const UNITS_PER_COIN: u64 = 100_000_000;

pub open spec fn is_digit(c: char) -> bool {
    48 <= c as u32 && c as u32 <= 57
}

pub open spec fn digit_value(c: char) -> nat {
    (c as u32 - 48) as nat
}

pub open spec fn digit_char(d: nat) -> char {
    (d + 48) as char
}

pub open spec fn all_digits(s: Seq<char>) -> bool {
    forall|i: int| 0 <= i < s.len() ==> is_digit(#[trigger] s[i])
}

/// The number that a string of decimal digits denotes.
pub open spec fn digits_value(s: Seq<char>) -> nat
    decreases s.len(),
{
    if s.len() == 0 {
        0
    } else {
        digits_value(s.drop_last()) * 10 + digit_value(s.last())
    }
}

/// Shortest decimal text of `n` (no leading zeros; `0` is "0").
pub open spec fn decimal(n: nat) -> Seq<char>
    decreases n,
{
    if n < 10 {
        seq![digit_char(n)]
    } else {
        decimal(n / 10).push(digit_char(n % 10))
    }
}

/// The last `w` decimal digits of `n`, zero-padded on the left.
pub open spec fn padded(n: nat, w: nat) -> Seq<char>
    decreases w,
{
    if w == 0 {
        Seq::empty()
    } else {
        padded(n / 10, (w - 1) as nat).push(digit_char(n % 10))
    }
}

pub open spec fn pow10(w: nat) -> nat
    decreases w,
{
    if w == 0 {
        1
    } else {
        10 * pow10((w - 1) as nat)
    }
}

/// Canonical text of an amount in base units: whole coins, a point, and
/// eight fractional digits ("20.00000000").
pub open spec fn amount_text(units: nat) -> Seq<char> {
    decimal(units / (UNITS_PER_COIN as nat)) + seq!['.'] + padded(
        units % (UNITS_PER_COIN as nat),
        8,
    )
}

/// The amount that a text of the shape `digits.dddddddd` denotes.
pub open spec fn amount_of_text(t: Seq<char>) -> Option<nat> {
    if t.len() >= 10 && t[t.len() - 9] == '.' && all_digits(t.subrange(0, t.len() - 9))
        && all_digits(t.subrange(t.len() - 8, t.len() as int)) {
        Some(
            digits_value(t.subrange(0, t.len() - 9)) * (UNITS_PER_COIN as nat) + digits_value(
                t.subrange(t.len() - 8, t.len() as int),
            ),
        )
    } else {
        None
    }
}

proof fn lemma_digit_char(d: nat)
    requires
        d < 10,
    ensures
        is_digit(digit_char(d)),
        digit_value(digit_char(d)) == d,
{
}

pub proof fn lemma_decimal(n: nat)
    ensures
        all_digits(decimal(n)),
        digits_value(decimal(n)) == n,
        decimal(n).len() >= 1,
    decreases n,
{
    if n < 10 {
        lemma_digit_char(n);
        assert(decimal(n).drop_last() =~= Seq::<char>::empty());
        assert(digits_value(Seq::<char>::empty()) == 0);
        assert(digits_value(decimal(n)) == digit_value(digit_char(n)));
    } else {
        lemma_decimal(n / 10);
        lemma_digit_char(n % 10);
        assert(decimal(n).drop_last() =~= decimal(n / 10));
        assert(decimal(n).last() == digit_char(n % 10));
        assert(n == (n / 10) * 10 + n % 10) by (nonlinear_arith);
        assert(digits_value(decimal(n)) == digits_value(decimal(n / 10)) * 10 + n % 10);
    }
}

pub proof fn lemma_padded(n: nat, w: nat)
    requires
        n < pow10(w),
    ensures
        all_digits(padded(n, w)),
        digits_value(padded(n, w)) == n,
        padded(n, w).len() == w,
    decreases w,
{
    if w == 0 {
    } else {
        assert(n / 10 < pow10((w - 1) as nat)) by (nonlinear_arith)
            requires
                n < 10 * pow10((w - 1) as nat),
        ;
        lemma_padded(n / 10, (w - 1) as nat);
        lemma_digit_char(n % 10);
        assert(padded(n, w).drop_last() =~= padded(n / 10, (w - 1) as nat));
        assert(n == (n / 10) * 10 + n % 10) by (nonlinear_arith);
    }
}

pub proof fn lemma_amount_text_shape(units: nat)
    ensures
        amount_of_text(amount_text(units)) == Some(units),
        amount_text(units).len() >= 10,
{
    let c = UNITS_PER_COIN as nat;
    let d = decimal(units / c);
    let p = padded(units % c, 8);
    let t = amount_text(units);
    lemma_decimal(units / c);
    assert(pow10(8) == 100_000_000) by {
        reveal_with_fuel(pow10, 9);
    }
    lemma_padded(units % c, 8);
    assert(t.subrange(0, t.len() - 9) =~= d);
    assert(t.subrange(t.len() - 8, t.len() as int) =~= p);
    assert(t[t.len() - 9] == '.');
    assert(units == (units / c) * c + units % c) by (nonlinear_arith)
        requires
            c == 100_000_000,
    ;
}

/// A string of digits never denotes less than any of its prefixes.
pub proof fn lemma_digits_prefix(s: Seq<char>, k: int)
    requires
        0 <= k <= s.len(),
    ensures
        digits_value(s.subrange(0, k)) <= digits_value(s),
    decreases s.len(),
{
    if k < s.len() {
        lemma_digits_prefix(s.drop_last(), k);
        assert(s.drop_last().subrange(0, k) =~= s.subrange(0, k));
    } else {
        assert(s.subrange(0, k) =~= s);
    }
}

/// Appends the text of one decimal digit.
fn push_digit(out: &mut String, d: u128)
    requires
        d < 10,
    ensures
        final(out)@ == old(out)@.push(digit_char(d as nat)),
{
    let s: &str = if d == 0 {
        "0"
    } else if d == 1 {
        "1"
    } else if d == 2 {
        "2"
    } else if d == 3 {
        "3"
    } else if d == 4 {
        "4"
    } else if d == 5 {
        "5"
    } else if d == 6 {
        "6"
    } else if d == 7 {
        "7"
    } else if d == 8 {
        "8"
    } else {
        "9"
    };
    proof {
        reveal_strlit("0");
        reveal_strlit("1");
        reveal_strlit("2");
        reveal_strlit("3");
        reveal_strlit("4");
        reveal_strlit("5");
        reveal_strlit("6");
        reveal_strlit("7");
        reveal_strlit("8");
        reveal_strlit("9");
    }
    out.append(s);
    assert(s@ =~= seq![digit_char(d as nat)]);
}

/// Appends the shortest decimal text of `n`.
pub fn push_decimal(out: &mut String, n: u128)
    ensures
        final(out)@ == old(out)@ + decimal(n as nat),
    decreases n,
{
    if n < 10 {
        push_digit(out, n);
        assert(old(out)@.push(digit_char(n as nat)) =~= old(out)@ + decimal(n as nat));
    } else {
        push_decimal(out, n / 10);
        push_digit(out, n % 10);
        assert(old(out)@ + decimal((n / 10) as nat) + seq![digit_char((n % 10) as nat)]
            =~= old(out)@ + decimal(n as nat));
    }
}

fn push_padded(out: &mut String, n: u128, w: u32)
    ensures
        final(out)@ == old(out)@ + padded(n as nat, w as nat),
    decreases w,
{
    if w == 0 {
        assert(old(out)@ =~= old(out)@ + padded(n as nat, w as nat));
    } else {
        push_padded(out, n / 10, w - 1);
        push_digit(out, n % 10);
        assert(old(out)@ + padded((n / 10) as nat, (w - 1) as nat) + seq![
            digit_char((n % 10) as nat),
        ] =~= old(out)@ + padded(n as nat, w as nat));
    }
}

/// Appends the canonical text of an amount in base units.
pub fn push_amount(out: &mut String, units: u128)
    ensures
        final(out)@ == old(out)@ + amount_text(units as nat),
{
    let coins = units / (UNITS_PER_COIN as u128);
    let frac = units % (UNITS_PER_COIN as u128);
    push_decimal(out, coins);
    out.append(".");
    proof {
        reveal_strlit(".");
    }
    push_padded(out, frac, 8);
    assert(out@ =~= old(out)@ + amount_text(units as nat));
}

/// Canonical text of an amount in base units, as in "20.00000000".
pub fn format_amount(units: u64) -> (r: String)
    ensures
        r@ == amount_text(units as nat),
{
    let mut s = String::new();
    push_amount(&mut s, units as u128);
    assert(s@ =~= amount_text(units as nat));
    s
}

/// Reads the digit at position `i` of `t`, if there is one.
fn digit_at(t: &str, i: usize) -> (r: Option<u128>)
    requires
        i < t@.len(),
    ensures
        r is Some <==> is_digit(t@[i as int]),
        r matches Some(d) ==> d == digit_value(t@[i as int]) && d < 10,
{
    let c = t.get_char(i);
    let v = c as u32;
    if 48 <= v && v <= 57 {
        Some((v - 48) as u128)
    } else {
        None
    }
}

/// The value of the digits `t[lo..hi]`, where they are all digits and their
/// value fits in a `u128`.
pub fn digits_in(t: &str, lo: usize, hi: usize) -> (r: Option<u128>)
    requires
        lo <= hi <= t@.len(),
    ensures
        r is Some <==> all_digits(t@.subrange(lo as int, hi as int)) && digits_value(
            t@.subrange(lo as int, hi as int),
        ) <= u128::MAX,
        r matches Some(v) ==> v == digits_value(t@.subrange(lo as int, hi as int)),
{
    let mut acc: u128 = 0;
    let mut i: usize = lo;
    while i < hi
        invariant
            lo <= i <= hi <= t@.len(),
            all_digits(t@.subrange(lo as int, i as int)),
            acc == digits_value(t@.subrange(lo as int, i as int)),
        decreases hi - i,
    {
        let ghost s = t@.subrange(lo as int, hi as int);
        let ghost next = t@.subrange(lo as int, i + 1);
        assert(next.drop_last() =~= t@.subrange(lo as int, i as int));
        match digit_at(t, i) {
            None => {
                assert(!is_digit(s[i - lo]));
                return None;
            },
            Some(d) => {
                if acc > (u128::MAX - d) / 10 {
                    proof {
                        assert(acc * 10 + d > u128::MAX) by (nonlinear_arith)
                            requires
                                acc > (u128::MAX - d) / 10,
                                d < 10,
                        ;
                        if all_digits(s) {
                            lemma_digits_prefix(s, i + 1 - lo);
                            assert(s.subrange(0, i + 1 - lo) =~= next);
                        }
                    }
                    return None;
                }
                assert(acc * 10 + d <= u128::MAX) by (nonlinear_arith)
                    requires
                        acc <= (u128::MAX - d) / 10,
                        d < 10,
                ;
                acc = acc * 10 + d;
                i = i + 1;
                assert forall|j: int| 0 <= j < next.len() implies is_digit(#[trigger] next[j]) by {
                    if j < next.len() - 1 {
                        assert(next[j] == t@.subrange(lo as int, i - 1)[j]);
                    }
                }
            },
        }
    }
    Some(acc)
}

/// Value of the amount text `t[lo..hi]` read leniently (any number of whole
/// digits), where it fits in a `u128`.
fn amount_in(t: &str, lo: usize, hi: usize) -> (r: Option<u128>)
    requires
        lo <= hi <= t@.len(),
    ensures
        ({
            let a = amount_of_text(t@.subrange(lo as int, hi as int));
            a is Some && a->0 <= u128::MAX ==> r == Some(a->0 as u128)
        }),
{
    let ghost s = t@.subrange(lo as int, hi as int);
    if hi - lo < 10 {
        return None;
    }
    if t.get_char(hi - 9) != '.' {
        return None;
    }
    let whole = digits_in(t, lo, hi - 9);
    let frac = digits_in(t, hi - 8, hi);
    assert(s.subrange(0, s.len() - 9) =~= t@.subrange(lo as int, hi - 9));
    assert(s.subrange(s.len() - 8, s.len() as int) =~= t@.subrange(hi - 8, hi as int));
    match (whole, frac) {
        (Some(w), Some(f)) => {
            if w > (u128::MAX - f) / (UNITS_PER_COIN as u128) {
                assert(w * 100_000_000 + f > u128::MAX) by (nonlinear_arith)
                    requires
                        w > (u128::MAX - f) / 100_000_000,
                ;
                None
            } else {
                assert(w * 100_000_000 + f <= u128::MAX) by (nonlinear_arith)
                    requires
                        w <= (u128::MAX - f) / 100_000_000,
                        f <= u128::MAX,
                ;
                Some(w * (UNITS_PER_COIN as u128) + f)
            }
        },
        _ => None,
    }
}

/// Reads the canonical amount text in `t[lo..hi]`: `Some` exactly when it is
/// the text of some amount that fits in a `u128`.
pub fn canonical_amount_in(t: &str, lo: usize, hi: usize) -> (r: Option<u128>)
    requires
        lo <= hi <= t@.len(),
    ensures
        r matches Some(v) ==> amount_text(v as nat) == t@.subrange(lo as int, hi as int),
        forall|v: u128| amount_text(v as nat) == t@.subrange(lo as int, hi as int) ==> r == Some(v),
{
    let ghost s = t@.subrange(lo as int, hi as int);
    proof {
        assert forall|v: u128| amount_text(v as nat) == s implies amount_of_text(s) == Some(
            v as nat,
        ) by {
            lemma_amount_text_shape(v as nat);
        }
    }
    match amount_in(t, lo, hi) {
        None => None,
        Some(v) => {
            let text = format_amount_wide(v);
            let piece = t.substring_char(lo, hi).to_owned();
            if text == piece {
                Some(v)
            } else {
                None
            }
        },
    }
}

fn format_amount_wide(units: u128) -> (r: String)
    ensures
        r@ == amount_text(units as nat),
{
    let mut s = String::new();
    push_amount(&mut s, units);
    assert(s@ =~= amount_text(units as nat));
    s
}

/// Parses the canonical text of an amount ("20.00000000") into base units.
/// Gives `None` for any text that `format_amount` does not produce.
pub fn parse_amount(t: &str) -> (r: Option<u64>)
    ensures
        r matches Some(v) ==> amount_text(v as nat) == t@,
        forall|v: u64| amount_text(v as nat) == t@ ==> r == Some(v),
{
    let n = t.unicode_len();
    assert(t@.subrange(0, n as int) =~= t@);
    match canonical_amount_in(t, 0, n) {
        Some(v) => {
            if v <= u64::MAX as u128 {
                Some(v as u64)
            } else {
                proof {
                    assert forall|w: u64| amount_text(w as nat) != t@ by {
                        if amount_text(w as nat) == t@ {
                            assert(w as u128 == v);
                        }
                    }
                }
                None
            }
        },
        None => None,
    }
}

} // verus!
