//! Decimal text for the XML codec: formatting and parsing of the integers
//! and fixed-point degree values that appear in attributes.

use vstd::prelude::*;

verus! {

/// 10 raised to `e`.
pub open spec fn pow10(e: int) -> nat
    decreases e,
{
    if e <= 0 {
        1
    } else {
        10 * pow10(e - 1)
    }
}

/// The small powers of ten the other lemmas need, written out.
pub proof fn lemma_pow10_values()
    ensures
        pow10(0) == 1,
        pow10(1) == 10,
        pow10(2) == 100,
        pow10(3) == 1_000,
        pow10(4) == 10_000,
        pow10(5) == 100_000,
        pow10(6) == 1_000_000,
        pow10(7) == 10_000_000,
        pow10(19) == 10_000_000_000_000_000_000,
        pow10(20) == 100_000_000_000_000_000_000,
{
    assert(pow10(0) == 1);
    assert(pow10(1) == 10);
    assert(pow10(2) == 100);
    assert(pow10(3) == 1000);
    assert(pow10(4) == 10000);
    assert(pow10(5) == 100000);
    assert(pow10(6) == 1000000);
    assert(pow10(7) == 10000000);
    assert(pow10(8) == 100000000);
    assert(pow10(9) == 1000000000);
    assert(pow10(10) == 10000000000);
    assert(pow10(11) == 100000000000);
    assert(pow10(12) == 1000000000000);
    assert(pow10(13) == 10000000000000);
    assert(pow10(14) == 100000000000000);
    assert(pow10(15) == 1000000000000000);
    assert(pow10(16) == 10000000000000000);
    assert(pow10(17) == 100000000000000000);
    assert(pow10(18) == 1000000000000000000);
    assert(pow10(19) == 10000000000000000000);
    assert(pow10(20) == 100000000000000000000);
}

/// The character for the decimal digit `d`.
pub open spec fn digit_char(d: nat) -> char {
    ((48 + d) as u8) as char
}

/// The decimal digits of `n`, most significant first.
pub open spec fn dec_digits(n: nat) -> Seq<char>
    decreases n,
{
    if n < 10 {
        seq![digit_char(n)]
    } else {
        dec_digits(n / 10) + seq![digit_char(n % 10)]
    }
}

/// The decimal text of `v`: a minus sign for negatives, then the digits.
pub open spec fn dec_int(v: int) -> Seq<char> {
    if v < 0 {
        seq!['-'] + dec_digits((-v) as nat)
    } else {
        dec_digits(v as nat)
    }
}

/// `k` zero characters.
pub open spec fn zero_chars(k: int) -> Seq<char>
    decreases k,
{
    if k <= 0 {
        Seq::empty()
    } else {
        seq!['0'] + zero_chars(k - 1)
    }
}

/// How many decimal digits `n` has.
pub open spec fn num_digits(n: nat) -> nat
    decreases n,
{
    if n < 10 {
        1
    } else {
        1 + num_digits(n / 10)
    }
}

/// Split the trailing decimal zeros off `f`: the pair of the remaining
/// value and the count of zeros removed. For zero itself nothing is split.
pub open spec fn split_tens(f: nat) -> (nat, nat)
    decreases f,
{
    if f > 0 && f % 10 == 0 {
        let (g, t) = split_tens(f / 10);
        (g, (t + 1) as nat)
    } else {
        (f, 0)
    }
}

/// The degree text of a fixed-point value `v` in 1e-7 degree units: sign,
/// whole degrees, and, unless they are all zero, a dot and the seven
/// fractional digits with their trailing zeros trimmed.
pub open spec fn fixed7_text(v: int) -> Seq<char> {
    let sign: Seq<char> = if v < 0 {
        seq!['-']
    } else {
        Seq::empty()
    };
    let m: nat = if v < 0 {
        (-v) as nat
    } else {
        v as nat
    };
    let whole = m / 10_000_000;
    let frac = m % 10_000_000;
    if frac == 0 {
        sign + dec_digits(whole)
    } else {
        let (g, t) = split_tens(frac);
        sign + dec_digits(whole) + seq!['.'] + zero_chars(7 - t - num_digits(g)) + dec_digits(g)
    }
}

/// The single-character string for the decimal digit `d`.
fn digit_str(d: u64) -> (r: &'static str)
    requires
        d < 10,
    ensures
        r@ == seq![digit_char(d as nat)],
{
    proof {
        reveal_strlit("0");
        reveal_strlit("1");
        reveal_strlit("2");
        reveal_strlit("3");
        reveal_strlit("4");
        reveal_strlit("5");
        reveal_strlit("6");
        reveal_strlit("7");
        reveal_strlit("8");
        reveal_strlit("9");
    }
    if d == 0 {
        "0"
    } else if d == 1 {
        "1"
    } else if d == 2 {
        "2"
    } else if d == 3 {
        "3"
    } else if d == 4 {
        "4"
    } else if d == 5 {
        "5"
    } else if d == 6 {
        "6"
    } else if d == 7 {
        "7"
    } else if d == 8 {
        "8"
    } else {
        "9"
    }
}

/// The decimal text of `n`.
pub fn u64_string(n: u64) -> (r: String)
    ensures
        r@ == dec_digits(n as nat),
    decreases n,
{
    if n < 10 {
        let mut r = String::new();
        r.append(digit_str(n));
        proof {
            assert(r@ =~= dec_digits(n as nat));
        }
        r
    } else {
        let mut r = u64_string(n / 10);
        r.append(digit_str(n % 10));
        proof {
            assert(r@ =~= dec_digits(n as nat));
        }
        r
    }
}

/// The decimal text of `v`, with a minus sign for negatives.
pub fn i64_string(v: i64) -> (r: String)
    ensures
        r@ == dec_int(v as int),
{
    if v < 0 {
        let m: u64 = (-(v + 1)) as u64 + 1;
        let mut r = String::new();
        r.append("-");
        r.append(u64_string(m).as_str());
        proof {
            reveal_strlit("-");
            assert(r@ =~= dec_int(v as int));
        }
        r
    } else {
        u64_string(v as u64)
    }
}

/// `k` zero characters as a string.
fn zeros_string(k: u64) -> (r: String)
    ensures
        r@ == zero_chars(k as int),
    decreases k,
{
    if k == 0 {
        let r = String::new();
        proof {
            assert(r@ =~= zero_chars(0));
        }
        r
    } else {
        let mut r = String::new();
        r.append("0");
        r.append(zeros_string(k - 1).as_str());
        proof {
            reveal_strlit("0");
            assert(r@ =~= zero_chars(k as int));
        }
        r
    }
}

/// How many decimal digits `n` has.
fn num_digits_exec(n: u64) -> (r: u64)
    ensures
        r as nat == num_digits(n as nat),
        1 <= r <= 20,
    decreases n,
{
    if n < 10 {
        1
    } else {
        proof {
            lemma_pow10_values();
            lemma_num_digits_bound((n / 10) as nat, 19);
        }
        1 + num_digits_exec(n / 10)
    }
}

/// The degree text of a fixed-point value in 1e-7 degree units.
pub fn fixed7_string(v: i32) -> (r: String)
    ensures
        r@ == fixed7_text(v as int),
{
    let m: u64 = if v < 0 {
        ((-(v + 1)) as u64) + 1
    } else {
        v as u64
    };
    let whole: u64 = m / 10_000_000;
    let frac: u64 = m % 10_000_000;
    let mut r = String::new();
    if v < 0 {
        r.append("-");
    }
    r.append(u64_string(whole).as_str());
    if frac > 0 {
        proof {
            lemma_split_tens_bounds(frac as nat);
        }
        let mut g: u64 = frac;
        let mut t: u64 = 0;
        while g % 10 == 0
            invariant
                g > 0,
                g <= frac < 10_000_000,
                split_tens(frac as nat).0 == split_tens(g as nat).0,
                split_tens(frac as nat).1 == split_tens(g as nat).1 + t,
                split_tens(frac as nat).1 <= 7,
            decreases g,
        {
            g = g / 10;
            t = t + 1;
        }
        proof {
            assert(split_tens(g as nat) == (g as nat, 0nat));
            assert(split_tens(frac as nat).0 == g as nat);
            assert(split_tens(frac as nat).1 == t as nat);
            lemma_split_tens_bounds(frac as nat);
        }
        let nd = num_digits_exec(g);
        r.append(".");
        r.append(zeros_string(7 - t - nd).as_str());
        r.append(u64_string(g).as_str());
        proof {
            reveal_strlit("-");
            reveal_strlit(".");
            assert(r@ =~= fixed7_text(v as int));
        }
    } else {
        proof {
            reveal_strlit("-");
            assert(r@ =~= fixed7_text(v as int));
        }
    }
    r
}

/// The zeros split off a seven-digit fraction, together with the digits of
/// what remains, never exceed seven places.
proof fn lemma_split_tens_bounds(f: nat)
    requires
        1 <= f < 10_000_000,
    ensures
        split_tens(f).1 + num_digits(split_tens(f).0) <= 7,
        split_tens(f).0 >= 1,
    decreases f,
{
    lemma_pow10_values();
    lemma_num_digits_bound(f, 7);
    if f % 10 == 0 {
        lemma_split_tens_bounds(f / 10);
        assert(num_digits(f as nat) == 1 + num_digits(f / 10));
        lemma_split_tens_digits(f / 10);
        lemma_split_tens_digits(f);
    } else {
        lemma_split_tens_digits(f);
    }
}

/// Splitting tens takes exactly one digit per zero removed.
proof fn lemma_split_tens_digits(f: nat)
    requires
        f >= 1,
    ensures
        split_tens(f).1 + num_digits(split_tens(f).0) == num_digits(f),
        split_tens(f).0 >= 1,
    decreases f,
{
    if f % 10 == 0 {
        lemma_split_tens_digits(f / 10);
        assert(f >= 10) by (nonlinear_arith)
            requires
                f >= 1,
                f % 10 == 0,
        ;
    }
}

/// A value below `10^k` has at most `k` digits.
proof fn lemma_num_digits_bound(n: nat, k: int)
    requires
        k >= 1,
        n < pow10(k),
    ensures
        num_digits(n) <= k,
    decreases n,
{
    if n >= 10 {
        assert(k >= 2) by {
            if k == 1 {
                assert(pow10(0) == 1);
                assert(pow10(1) == 10);
            }
        };
        assert(n / 10 < pow10(k - 1)) by (nonlinear_arith)
            requires
                n < pow10(k),
                pow10(k) == 10 * pow10(k - 1),
        ;
        lemma_num_digits_bound(n / 10, k - 1);
    }
}

} // verus!
// Parsing of the decimal attribute values.

use vstd::prelude::*;
use vstd::string::StringSliceAdditionalSpecFns;

verus! {

/// A decimal digit byte.
pub open spec fn is_digit_byte(b: u8) -> bool {
    48 <= b <= 57
}

/// Every byte a decimal digit.
pub open spec fn all_digit_bytes(s: Seq<u8>) -> bool {
    forall|i: int| 0 <= i < s.len() ==> is_digit_byte(#[trigger] s[i])
}

/// The count a run of digit bytes spells, most significant first.
pub open spec fn digits_val(s: Seq<u8>) -> nat
    decreases s.len(),
{
    if s.len() == 0 {
        0
    } else {
        10 * digits_val(s.drop_last()) + (s.last() - 48) as nat
    }
}

/// The body of an unsigned number: an optional leading plus sign is
/// dropped.
pub open spec fn unsigned_body(s: Seq<u8>) -> Seq<u8> {
    if s.len() > 0 && s[0] == 43 {
        s.skip(1)
    } else {
        s
    }
}

/// The text of an unsigned decimal number: an optional plus sign, then at
/// least one digit.
pub open spec fn valid_unsigned(s: Seq<u8>) -> bool {
    unsigned_body(s).len() >= 1 && all_digit_bytes(unsigned_body(s))
}

/// The body of a signed number: an optional leading plus or minus sign is
/// dropped.
pub open spec fn signed_body(s: Seq<u8>) -> Seq<u8> {
    if s.len() > 0 && (s[0] == 43 || s[0] == 45) {
        s.skip(1)
    } else {
        s
    }
}

/// Whether the number's text carries a minus sign.
pub open spec fn signed_neg(s: Seq<u8>) -> bool {
    s.len() > 0 && s[0] == 45
}

/// The text of a signed decimal number: an optional sign, then at least
/// one digit.
pub open spec fn valid_signed(s: Seq<u8>) -> bool {
    signed_body(s).len() >= 1 && all_digit_bytes(signed_body(s))
}

/// The value of a signed number's text.
pub open spec fn signed_val(s: Seq<u8>) -> int {
    if signed_neg(s) {
        -(digits_val(signed_body(s)) as int)
    } else {
        digits_val(signed_body(s)) as int
    }
}

/// Check that the bytes from `start` to `end` are all digits.
fn check_digits(bytes: &[u8], start: usize, end: usize) -> (r: bool)
    requires
        start <= end <= bytes@.len(),
    ensures
        r == all_digit_bytes(bytes@.subrange(start as int, end as int)),
{
    let mut i: usize = start;
    while i < end
        invariant
            start <= i <= end <= bytes@.len(),
            forall|j: int| start <= j < i ==> is_digit_byte(#[trigger] bytes@[j]),
        decreases end - i,
    {
        let b = bytes[i];
        if b < 48 || b > 57 {
            proof {
                assert(bytes@.subrange(start as int, end as int)[i - start] == bytes@[i as int]);
            }
            return false;
        }
        i = i + 1;
    }
    proof {
        assert forall|k: int|
            0 <= k < bytes@.subrange(start as int, end as int).len() implies is_digit_byte(
            #[trigger] bytes@.subrange(start as int, end as int)[k],
        ) by {
            assert(bytes@.subrange(start as int, end as int)[k] == bytes@[start + k]);
        };
    }
    true
}

/// The value of the digit run from `start` to `end`, or `None` where it
/// does not fit 64 bits.
fn digits_value(bytes: &[u8], start: usize, end: usize) -> (r: Option<u64>)
    requires
        start <= end <= bytes@.len(),
        all_digit_bytes(bytes@.subrange(start as int, end as int)),
    ensures
        match r {
            Some(v) => v as nat == digits_val(bytes@.subrange(start as int, end as int)),
            None => digits_val(bytes@.subrange(start as int, end as int)) > u64::MAX,
        },
    decreases end - start,
{
    if end == start {
        proof {
            assert(bytes@.subrange(start as int, end as int) =~= Seq::<u8>::empty());
        }
        return Some(0);
    }
    let ghost whole = bytes@.subrange(start as int, end as int);
    proof {
        assert(whole.drop_last() =~= bytes@.subrange(start as int, end as int - 1));
        assert forall|k: int| 0 <= k < whole.drop_last().len() implies is_digit_byte(
            #[trigger] whole.drop_last()[k],
        ) by {
            assert(whole.drop_last()[k] == whole[k]);
        };
    }
    let sub = match digits_value(bytes, start, end - 1) {
        Some(v) => v,
        None => {
            proof {
                let subv = digits_val(whole.drop_last());
                assert(digits_val(whole) == 10 * subv + (whole.last() - 48));
                assert(10 * subv >= subv) by (nonlinear_arith)
                    requires
                        subv >= 0,
                ;
            }
            return None;
        },
    };
    let d = bytes[end - 1];
    proof {
        assert(whole[end - 1 - start] == bytes@[end - 1]);
        assert(whole.last() == bytes@[end - 1]);
    }
    if sub > (u64::MAX - (d - 48) as u64) / 10 {
        proof {
            let subv = sub as nat;
            let dv = (d - 48) as nat;
            assert(10 * subv + dv > u64::MAX) by (nonlinear_arith)
                requires
                    subv > ((u64::MAX - dv) as nat) / 10,
                    dv < 10,
            ;
        }
        return None;
    }
    proof {
        let subv = sub as nat;
        let dv = (d - 48) as nat;
        assert(10 * subv + dv <= u64::MAX) by (nonlinear_arith)
            requires
                subv <= ((u64::MAX - dv) as nat) / 10,
                dv < 10,
        ;
    }
    Some(10 * sub + (d - 48) as u64)
}

/// Parse an unsigned 64-bit number: an optional plus sign and digits.
/// `None` where the text has another shape or the value does not fit.
pub fn parse_u64(s: &str) -> (r: Option<u64>)
    ensures
        match r {
            Some(v) => {
                &&& valid_unsigned(s.spec_bytes())
                &&& v as nat == digits_val(unsigned_body(s.spec_bytes()))
            },
            None => !valid_unsigned(s.spec_bytes()) || digits_val(unsigned_body(s.spec_bytes()))
                > u64::MAX,
        },
{
    let bytes = s.as_bytes();
    let n = bytes.len();
    let start: usize = if n > 0 && bytes[0] == 43 {
        1
    } else {
        0
    };
    proof {
        assert(unsigned_body(s.spec_bytes()) =~= bytes@.subrange(start as int, n as int));
    }
    if start == n {
        return None;
    }
    if !check_digits(bytes, start, n) {
        return None;
    }
    digits_value(bytes, start, n)
}

/// Parse an unsigned 32-bit number. `None` where the text has another
/// shape or the value does not fit.
pub fn parse_u32(s: &str) -> (r: Option<u32>)
    ensures
        match r {
            Some(v) => {
                &&& valid_unsigned(s.spec_bytes())
                &&& v as nat == digits_val(unsigned_body(s.spec_bytes()))
            },
            None => !valid_unsigned(s.spec_bytes()) || digits_val(unsigned_body(s.spec_bytes()))
                > u32::MAX,
        },
{
    match parse_u64(s) {
        Some(v) => {
            if v <= u32::MAX as u64 {
                Some(v as u32)
            } else {
                None
            }
        }
        None => None,
    }
}

/// Parse a signed 64-bit number: an optional sign and digits. `None` where
/// the text has another shape or the value does not fit.
pub fn parse_i64(s: &str) -> (r: Option<i64>)
    ensures
        match r {
            Some(v) => {
                &&& valid_signed(s.spec_bytes())
                &&& v as int == signed_val(s.spec_bytes())
            },
            None => !valid_signed(s.spec_bytes()) || signed_val(s.spec_bytes()) > i64::MAX
                || signed_val(s.spec_bytes()) < i64::MIN,
        },
{
    let bytes = s.as_bytes();
    let n = bytes.len();
    let neg = n > 0 && bytes[0] == 45;
    let start: usize = if n > 0 && (bytes[0] == 43 || bytes[0] == 45) {
        1
    } else {
        0
    };
    proof {
        assert(signed_body(s.spec_bytes()) =~= bytes@.subrange(start as int, n as int));
    }
    if start == n {
        return None;
    }
    if !check_digits(bytes, start, n) {
        return None;
    }
    let mag = match digits_value(bytes, start, n) {
        Some(v) => v,
        None => {
            return None;
        },
    };
    if neg {
        if mag > 0x8000_0000_0000_0000u64 {
            return None;
        }
        if mag == 0x8000_0000_0000_0000u64 {
            return Some(i64::MIN);
        }
        Some(-(mag as i64))
    } else {
        if mag > i64::MAX as u64 {
            return None;
        }
        Some(mag as i64)
    }
}

} // verus!

verus! {

/// The position of the first dot, if any.
pub open spec fn dot_pos(s: Seq<u8>) -> Option<int>
    decreases s.len(),
{
    if s.len() == 0 {
        None
    } else if s[0] == 46 {
        Some(0)
    } else {
        match dot_pos(s.skip(1)) {
            Some(p) => Some(p + 1),
            None => None,
        }
    }
}

/// The text of a fixed-point degree value: an optional sign, then digits
/// with at most one dot among them, and at least one digit in all.
pub open spec fn valid_fixed7(s: Seq<u8>) -> bool {
    let b = signed_body(s);
    match dot_pos(b) {
        None => b.len() >= 1 && all_digit_bytes(b),
        Some(p) => {
            let w = b.take(p);
            let f = b.skip(p + 1);
            all_digit_bytes(w) && all_digit_bytes(f) && w.len() + f.len() >= 1
        },
    }
}

/// The units the fractional digits contribute: the first seven of them,
/// right-padded with zeros to seven places.
pub open spec fn frac_units7(f: Seq<u8>) -> nat {
    let k: int = if f.len() < 7 {
        f.len() as int
    } else {
        7
    };
    digits_val(f.take(k)) * pow10(7 - k)
}

/// The value of a fixed-point degree text in 1e-7 degree units: the whole
/// part times ten million plus the first seven fractional digits; digits
/// beyond the seventh are dropped.
pub open spec fn fixed7_val(s: Seq<u8>) -> int {
    let b = signed_body(s);
    let m: int = match dot_pos(b) {
        None => (digits_val(b) * 10_000_000) as int,
        Some(p) => (digits_val(b.take(p)) * 10_000_000 + frac_units7(b.skip(p + 1))) as int,
    };
    if signed_neg(s) {
        -m
    } else {
        m
    }
}

/// Ten to the power `e`, for small exponents.
fn pow10_exec(e: u64) -> (r: u64)
    requires
        e <= 7,
    ensures
        r as nat == pow10(e as int),
{
    proof {
        lemma_pow10_values();
        assert(pow10(2) == 100);
        assert(pow10(3) == 1000);
        assert(pow10(4) == 10000);
        assert(pow10(5) == 100000);
        assert(pow10(6) == 1000000);
    }
    if e == 0 {
        1
    } else if e == 1 {
        10
    } else if e == 2 {
        100
    } else if e == 3 {
        1_000
    } else if e == 4 {
        10_000
    } else if e == 5 {
        100_000
    } else if e == 6 {
        1_000_000
    } else {
        10_000_000
    }
}

/// Parse a fixed-point degree value into 1e-7 degree units. `None` where
/// the text has another shape; a value beyond the 32-bit range saturates
/// at the range's ends.
pub fn parse_fixed7(s: &str) -> (r: Option<i32>)
    ensures
        match r {
            Some(v) => {
                &&& valid_fixed7(s.spec_bytes())
                &&& (i32::MIN <= fixed7_val(s.spec_bytes()) <= i32::MAX ==> v as int == fixed7_val(
                    s.spec_bytes(),
                ))
                &&& (fixed7_val(s.spec_bytes()) > i32::MAX ==> v == i32::MAX)
                &&& (fixed7_val(s.spec_bytes()) < i32::MIN ==> v == i32::MIN)
            },
            None => !valid_fixed7(s.spec_bytes()),
        },
{
    let bytes = s.as_bytes();
    let n = bytes.len();
    let neg = n > 0 && bytes[0] == 45;
    let start: usize = if n > 0 && (bytes[0] == 43 || bytes[0] == 45) {
        1
    } else {
        0
    };
    let ghost body = signed_body(s.spec_bytes());
    proof {
        assert(body =~= bytes@.subrange(start as int, n as int));
    }

    // find the dot inside the body, if any
    let mut dot: usize = n;
    let mut i: usize = start;
    proof {
        assert(body.skip(0) =~= body);
    }
    while i < n
        invariant_except_break
            dot == n,
        invariant
            start <= i <= n == bytes@.len(),
            body == bytes@.subrange(start as int, n as int),
            dot_pos(body) == match dot_pos(body.skip(i - start)) {
                Some(p) => Some(p + (i - start)),
                None => None,
            },
            start <= dot <= n,
        ensures
            start <= i <= n,
            start <= dot <= n,
            dot < n ==> dot_pos(body) == Some(dot - start) && bytes@[dot as int] == 46,
            dot == n ==> dot_pos(body) is None,
        decreases n - i,
    {
        proof {
            assert(body.skip(i - start)[0] == body[i - start]);
            assert(body[i - start] == bytes@[i as int]);
            assert(body.skip(i - start).skip(1) =~= body.skip(i - start + 1));
        }
        if bytes[i] == 46 {
            dot = i;
            break;
        }
        i = i + 1;
    }
    proof {
        if dot == n {
            assert(body.skip(n - start) =~= Seq::<u8>::empty());
        }
    }

    if dot == n {
        // no dot: plain signed digits scaled by ten million
        if start == n {
            return None;
        }
        if !check_digits(bytes, start, n) {
            return None;
        }
        let whole = match digits_value(bytes, start, n) {
            Some(v) => v,
            None => {
                proof {
                    lemma_scaled_exceeds(digits_val(body));
                }
                return Some(saturate(neg));
            },
        };
        proof {
            assert(digits_val(body) == whole as nat);
        }
        if whole > 0xFFFF_FFFFu64 {
            proof {
                lemma_scaled_exceeds_small(whole as nat);
            }
            return Some(saturate(neg));
        }
        let total: u64 = whole * 10_000_000;
        proof {
            assert(whole * 10_000_000 <= 0xFFFF_FFFFu64 * 10_000_000) by (nonlinear_arith)
                requires
                    whole <= 0xFFFF_FFFFu64,
            ;
        }
        Some(clamp_units(total, neg))
    } else {
        // a dot: whole digits, the dot, fractional digits
        let ghost p = dot - start;
        let ghost w = body.take(p as int);
        let ghost f = body.skip(p as int + 1);
        proof {
            assert(w =~= bytes@.subrange(start as int, dot as int));
            assert(f =~= bytes@.subrange(dot as int + 1, n as int));
        }
        if n - start <= 1 {
            // only the dot: no digit at all
            proof {
                assert(w.len() + f.len() == 0);
            }
            return None;
        }
        if !check_digits(bytes, start, dot) {
            return None;
        }
        if !check_digits(bytes, dot + 1, n) {
            return None;
        }
        let whole = match digits_value(bytes, start, dot) {
            Some(v) => v,
            None => {
                proof {
                    lemma_scaled_exceeds(digits_val(w));
                    assert(digits_val(w) * 10_000_000 + frac_units7(f) >= digits_val(w)
                        * 10_000_000);
                }
                return Some(saturate(neg));
            },
        };
        let flen = n - (dot + 1);
        let k: usize = if flen < 7 {
            flen
        } else {
            7
        };
        proof {
            assert(f.take(k as int) =~= bytes@.subrange(dot as int + 1, dot as int + 1 + k as int));
            assert forall|j: int| 0 <= j < f.take(k as int).len() implies is_digit_byte(
                #[trigger] f.take(k as int)[j],
            ) by {
                assert(f.take(k as int)[j] == f[j]);
            };
        }
        let fval = match digits_value(bytes, dot + 1, dot + 1 + k) {
            Some(v) => v,
            None => {
                proof {
                    lemma_digits_bounded(f.take(k as int));
                    lemma_pow10_values();
                    lemma_pow10_le(k as int, 7);
                }
                return None;
            },
        };
        proof {
            lemma_digits_bounded(f.take(k as int));
            lemma_pow10_values();
            assert(pow10(0) == 1 && pow10(1) == 10 && pow10(2) == 100 && pow10(3) == 1000 && pow10(
                4,
            ) == 10000 && pow10(5) == 100000 && pow10(6) == 1000000);
        }
        let scale = pow10_exec(7 - k as u64);
        proof {
            lemma_pow10_split(k as int);
            assert((fval as nat) * (scale as nat) <= 10_000_000) by (nonlinear_arith)
                requires
                    (fval as nat) < pow10(k as int),
                    (scale as nat) == pow10(7 - (k as int)),
                    pow10(k as int) * pow10(7 - (k as int)) == pow10(7),
                    pow10(7) == 10_000_000,
            ;
        }
        let frac7: u64 = fval * scale;
        proof {
            assert(frac7 as nat == frac_units7(f));
        }
        if whole > 0xFFFF_FFFFu64 {
            proof {
                lemma_scaled_exceeds_small(whole as nat);
            }
            return Some(saturate(neg));
        }
        let total: u64 = whole * 10_000_000 + frac7;
        proof {
            assert(whole * 10_000_000 <= 0xFFFF_FFFFu64 * 10_000_000) by (nonlinear_arith)
                requires
                    whole <= 0xFFFF_FFFFu64,
            ;
        }
        Some(clamp_units(total, neg))
    }
}

/// The saturated result for a magnitude beyond every 32-bit value.
fn saturate(neg: bool) -> (r: i32)
    ensures
        neg ==> r == i32::MIN,
        !neg ==> r == i32::MAX,
{
    if neg {
        i32::MIN
    } else {
        i32::MAX
    }
}

/// Clamp a magnitude with its sign into the 32-bit range.
fn clamp_units(total: u64, neg: bool) -> (r: i32)
    ensures
        ({
            let v: int = if neg {
                -(total as int)
            } else {
                total as int
            };
            &&& (i32::MIN <= v <= i32::MAX ==> r as int == v)
            &&& (v > i32::MAX ==> r == i32::MAX)
            &&& (v < i32::MIN ==> r == i32::MIN)
        }),
{
    if neg {
        if total > 0x8000_0000u64 {
            i32::MIN
        } else if total == 0x8000_0000u64 {
            i32::MIN
        } else {
            -(total as i32)
        }
    } else {
        if total > 0x7FFF_FFFFu64 {
            i32::MAX
        } else {
            total as i32
        }
    }
}

/// A run of `k` digits spells a value below ten to the `k`.
proof fn lemma_digits_bounded(s: Seq<u8>)
    requires
        all_digit_bytes(s),
    ensures
        digits_val(s) < pow10(s.len() as int),
    decreases s.len(),
{
    lemma_pow10_pos(s.len() as int);
    if s.len() > 0 {
        assert forall|j: int| 0 <= j < s.drop_last().len() implies is_digit_byte(
            #[trigger] s.drop_last()[j],
        ) by {
            assert(s.drop_last()[j] == s[j]);
        };
        lemma_digits_bounded(s.drop_last());
        let sub = digits_val(s.drop_last());
        assert(10 * sub <= 10 * (pow10(s.len() - 1) - 1)) by (nonlinear_arith)
            requires
                sub <= pow10(s.len() - 1) - 1,
        ;
        assert(pow10(s.len() as int) == 10 * pow10(s.len() - 1));
    }
}

/// `pow10` grows with its exponent.
proof fn lemma_pow10_le(a: int, b: int)
    requires
        a <= b,
    ensures
        pow10(a) <= pow10(b),
    decreases b - a,
{
    if a < b {
        if b <= 0 {
        } else {
            lemma_pow10_le(a, b - 1);
            lemma_pow10_pos(b - 1);
            assert(pow10(b) == 10 * pow10(b - 1));
            assert(10 * pow10(b - 1) >= pow10(b - 1)) by (nonlinear_arith)
                requires
                    pow10(b - 1) >= 1,
            ;
        }
    }
}

/// `pow10` is positive.
proof fn lemma_pow10_pos(e: int)
    ensures
        pow10(e) >= 1,
    decreases e,
{
    if e > 0 {
        lemma_pow10_pos(e - 1);
        assert(10 * pow10(e - 1) >= pow10(e - 1)) by (nonlinear_arith)
            requires
                pow10(e - 1) >= 1,
        ;
    }
}

/// Splitting an exponent splits the power.
proof fn lemma_pow10_split(k: int)
    requires
        0 <= k <= 7,
    ensures
        pow10(k) * pow10(7 - k) == pow10(7),
    decreases k,
{
    if k == 0 {
        assert(pow10(0) == 1);
        assert(1 * pow10(7) == pow10(7)) by (nonlinear_arith);
    } else {
        lemma_pow10_split(k - 1);
        assert(pow10(k) == 10 * pow10(k - 1));
        assert(pow10(7 - (k - 1)) == 10 * pow10(7 - k));
        assert((10 * pow10(k - 1)) * pow10(7 - k) == pow10(k - 1) * (10 * pow10(7 - k)))
            by (nonlinear_arith);
    }
}

/// A count beyond 64 bits, scaled to units, is beyond every 32-bit value.
proof fn lemma_scaled_exceeds(m: nat)
    requires
        m > u64::MAX,
    ensures
        m * 10_000_000 > i32::MAX,
{
    assert(m * 10_000_000 >= m) by (nonlinear_arith)
        requires
            m >= 1,
    ;
}

/// A count beyond 32 bits, scaled to units, is beyond every 32-bit value.
proof fn lemma_scaled_exceeds_small(m: nat)
    requires
        m > 0xFFFF_FFFF,
    ensures
        m * 10_000_000 > i32::MAX,
{
    assert(m * 10_000_000 >= m * 1) by (nonlinear_arith)
        requires
            m >= 1,
    ;
    assert(m * 1 == m) by (nonlinear_arith);
}

} // verus!
