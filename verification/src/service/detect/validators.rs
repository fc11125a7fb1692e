//! Format and checksum validators: Luhn, INN, SNILS, calendar dates, passport series.
use vstd::prelude::*;

use crate::textops::{
    all_digits, byte_len, digit_val, digit_value, digits_of, filter_digits, is_ascii_digit, is_digit,
    str_byte_len,
    lemma_digits_ascii, str_chars, str_eq,
};

verus! {

/// Outcome of a format or checksum check.
#[derive(Clone, Copy, Debug, PartialEq, Eq, Structural)]
pub enum ValidationResult {
    Valid,
    Invalid,
    NotApplicable,
}

/// A format or checksum check on raw text.
pub trait Validator {
    fn id(&self) -> &str;

    fn validate(&self, raw: &str) -> ValidationResult;
}

// ---------------------------------------------------------------- Luhn

/// One Luhn term: the digit, doubled (and reduced by 9 when above 9) on odd positions from the end.
pub open spec fn luhn_term(c: char, double: bool) -> int {
    let d = digit_val(c);
    if double {
        if 2 * d > 9 {
            2 * d - 9
        } else {
            2 * d
        }
    } else {
        d
    }
}

/// Sum of the Luhn terms of the last `k` characters of `s`.
pub open spec fn luhn_partial(s: Seq<char>, k: nat) -> int
    decreases k,
{
    if k == 0 {
        0
    } else {
        luhn_partial(s, (k - 1) as nat) + luhn_term(s[s.len() - k], (k - 1) % 2 == 1)
    }
}

/// The Luhn check: only digits, and the Luhn sum is a multiple of 10.
pub open spec fn luhn_spec(s: Seq<char>) -> bool {
    all_digits(s) && luhn_partial(s, s.len()) % 10 == 0
}

proof fn lemma_luhn_term_bounds(c: char, double: bool)
    requires
        is_digit(c),
    ensures
        0 <= luhn_term(c, double) <= 9,
{
}

/// Luhn check over characters.
pub fn luhn_valid_chars(s: &[char]) -> (r: bool)
    ensures
        r == luhn_spec(s@),
{
    let n = s.len();
    let mut k: usize = 0;
    let mut sum: u32 = 0;
    while k < n
        invariant
            n == s@.len(),
            k <= n,
            sum < 10,
            sum == luhn_partial(s@, k as nat) % 10,
            forall|j: int| n - k <= j < n ==> is_digit(#[trigger] s@[j]),
        decreases n - k,
    {
        let c = s[n - 1 - k];
        if !is_ascii_digit(c) {
            assert(!is_digit(s@[n - 1 - k]));
            return false;
        }
        let mut d = digit_value(c);
        let double = k % 2 == 1;
        if double {
            d = d * 2;
            if d > 9 {
                d = d - 9;
            }
        }
        proof {
            lemma_luhn_term_bounds(c, double);
            assert(d == luhn_term(s@[s@.len() - (k + 1)], k % 2 == 1));
            assert(luhn_partial(s@, (k + 1) as nat) == luhn_partial(s@, k as nat) + d);
        }
        sum = (sum + d) % 10;
        k += 1;
    }
    assert(all_digits(s@));
    sum == 0
}

/// Luhn check over a string.
pub fn luhn_valid(digits: &str) -> (r: bool)
    ensures
        r == luhn_spec(digits@),
{
    let cs = str_chars(digits);
    luhn_valid_chars(&cs)
}


/// The Luhn check on card numbers: applicable to 13..=19 digits.
pub struct LuhnValidator;

/// Result of the Luhn validator on raw text.
pub open spec fn luhn_result(raw: Seq<char>) -> ValidationResult {
    let d = filter_digits(raw);
    if d.len() < 13 || d.len() > 19 {
        ValidationResult::NotApplicable
    } else if luhn_spec(d) {
        ValidationResult::Valid
    } else {
        ValidationResult::Invalid
    }
}

impl LuhnValidator {
    pub fn validate_raw(&self, raw: &str) -> (r: ValidationResult)
        ensures
            r == luhn_result(raw@),
    {
        let digits = digits_of(raw);
        if digits.len() < 13 || digits.len() > 19 {
            return ValidationResult::NotApplicable;
        }
        if luhn_valid_chars(&digits) {
            ValidationResult::Valid
        } else {
            ValidationResult::Invalid
        }
    }
}

impl Validator for LuhnValidator {
    fn id(&self) -> (r: &str)
        ensures
            r@ == "luhn"@,
    {
        "luhn"
    }

    fn validate(&self, raw: &str) -> (r: ValidationResult)
        ensures
            r == luhn_result(raw@),
    {
        self.validate_raw(raw)
    }
}

// ---------------------------------------------------------------- weighted sums

/// Sum of `w[i] * digit(s[i])` over the first `n` positions.
pub open spec fn weighted(s: Seq<char>, w: Seq<u32>, n: nat) -> int
    decreases n,
{
    if n == 0 {
        0
    } else {
        weighted(s, w, (n - 1) as nat) + (w[n - 1] as int) * digit_val(s[n - 1])
    }
}

proof fn lemma_weighted_bounds(s: Seq<char>, w: Seq<u32>, n: nat)
    requires
        n <= s.len(),
        n <= w.len(),
        forall|i: int| 0 <= i < n ==> is_digit(#[trigger] s[i]),
        forall|i: int| 0 <= i < n ==> #[trigger] w[i] <= 10,
    ensures
        0 <= weighted(s, w, n) <= 90 * n,
    decreases n,
{
    if n > 0 {
        lemma_weighted_bounds(s, w, (n - 1) as nat);
        assert(is_digit(s[n - 1]));
        assert(w[n - 1] <= 10);
        assert((w[n - 1] as int) * digit_val(s[n - 1]) <= 90) by (nonlinear_arith)
            requires
                0 <= digit_val(s[n - 1]) <= 9,
                w[n - 1] <= 10,
        ;
        assert((w[n - 1] as int) * digit_val(s[n - 1]) >= 0) by (nonlinear_arith)
            requires
                0 <= digit_val(s[n - 1]) <= 9,
        ;
    }
}

/// Weighted digit sum over the first `n` characters.
pub(crate) fn weighted_sum(s: &[char], w: &[u32], n: usize) -> (r: u32)
    requires
        n <= s@.len(),
        n <= w@.len(),
        n <= 12,
        forall|i: int| 0 <= i < n ==> is_digit(#[trigger] s@[i]),
        forall|i: int| 0 <= i < n ==> #[trigger] w@[i] <= 10,
    ensures
        r == weighted(s@, w@, n as nat),
{
    let mut acc: u32 = 0;
    let mut i: usize = 0;
    while i < n
        invariant
            i <= n,
            n <= s@.len(),
            n <= w@.len(),
            n <= 12,
            forall|j: int| 0 <= j < n ==> is_digit(#[trigger] s@[j]),
            forall|j: int| 0 <= j < n ==> #[trigger] w@[j] <= 10,
            acc == weighted(s@, w@, i as nat),
        decreases n - i,
    {
        proof {
            lemma_weighted_bounds(s@, w@, (i + 1) as nat);
        }
        let d = digit_value(s[i]);
        assert(w@[i as int] * d <= 90) by (nonlinear_arith)
            requires
                d <= 9,
                w@[i as int] <= 10,
        ;
        acc = acc + w[i] * d;
        i += 1;
    }
    acc
}

// ---------------------------------------------------------------- INN

pub open spec fn inn10_weights() -> Seq<u32> {
    seq![2u32, 4, 10, 3, 5, 9, 4, 6, 8]
}

pub open spec fn inn12_weights1() -> Seq<u32> {
    seq![7u32, 2, 4, 10, 3, 5, 9, 4, 6, 8]
}

pub open spec fn inn12_weights2() -> Seq<u32> {
    seq![3u32, 7, 2, 4, 10, 3, 5, 9, 4, 6, 8]
}

/// Check digit of a weighted sum: `(sum mod 11) mod 10`.
pub open spec fn check_digit(sum: int) -> int {
    (sum % 11) % 10
}

/// A 10-digit INN (organisation) with a correct check digit.
pub open spec fn inn10_spec(s: Seq<char>) -> bool {
    &&& s.len() == 10
    &&& all_digits(s)
    &&& check_digit(weighted(s, inn10_weights(), 9)) == digit_val(s[9])
}

/// A 12-digit INN (person) with both check digits correct.
pub open spec fn inn12_spec(s: Seq<char>) -> bool {
    &&& s.len() == 12
    &&& all_digits(s)
    &&& check_digit(weighted(s, inn12_weights1(), 10)) == digit_val(s[10])
    &&& check_digit(weighted(s, inn12_weights2(), 11)) == digit_val(s[11])
}

/// Byte length 10 (resp. 12) only for digit strings: other inputs of that byte length make
/// the original checksum code fail on a non-digit.
pub open spec fn digits_if_byte_len(s: Seq<char>, n: nat) -> bool {
    byte_len(s) == n ==> all_digits(s)
}

pub fn inn10_valid(d: &str) -> (r: bool)
    requires
        digits_if_byte_len(d@, 10),
    ensures
        r == inn10_spec(d@),
{
    if str_byte_len(d) != 10 {
        proof {
            if all_digits(d@) {
                lemma_digits_ascii(d@);
            }
        }
        return false;
    }
    proof {
        lemma_digits_ascii(d@);
    }
    let cs = str_chars(d);
    let k: [u32; 9] = [2, 4, 10, 3, 5, 9, 4, 6, 8];
    assert(k@ =~= inn10_weights());
    let sum = weighted_sum(&cs, &k, 9);
    let c = (sum % 11) % 10;
    c == digit_value(cs[9])
}

pub fn inn12_valid(d: &str) -> (r: bool)
    requires
        digits_if_byte_len(d@, 12),
    ensures
        r == inn12_spec(d@),
{
    if str_byte_len(d) != 12 {
        proof {
            if all_digits(d@) {
                lemma_digits_ascii(d@);
            }
        }
        return false;
    }
    proof {
        lemma_digits_ascii(d@);
    }
    let cs = str_chars(d);
    let k1: [u32; 10] = [7, 2, 4, 10, 3, 5, 9, 4, 6, 8];
    assert(k1@ =~= inn12_weights1());
    let sum1 = weighted_sum(&cs, &k1, 10);
    let c1 = (sum1 % 11) % 10;
    if c1 != digit_value(cs[10]) {
        return false;
    }
    let k2: [u32; 11] = [3, 7, 2, 4, 10, 3, 5, 9, 4, 6, 8];
    assert(k2@ =~= inn12_weights2());
    let sum2 = weighted_sum(&cs, &k2, 11);
    let c2 = (sum2 % 11) % 10;
    c2 == digit_value(cs[11])
}

/// The INN check: 10 or 12 digits.
pub struct InnValidator;

pub open spec fn inn_result(raw: Seq<char>) -> ValidationResult {
    let d = filter_digits(raw);
    if d.len() == 10 {
        if inn10_spec(d) {
            ValidationResult::Valid
        } else {
            ValidationResult::Invalid
        }
    } else if d.len() == 12 {
        if inn12_spec(d) {
            ValidationResult::Valid
        } else {
            ValidationResult::Invalid
        }
    } else {
        ValidationResult::NotApplicable
    }
}

impl InnValidator {
    pub fn validate_raw(&self, raw: &str) -> (r: ValidationResult)
        ensures
            r == inn_result(raw@),
    {
        let digits = digits_of(raw);
        let n = digits.len();
        if n == 10 {
            if inn10_valid_chars(&digits) {
                ValidationResult::Valid
            } else {
                ValidationResult::Invalid
            }
        } else if n == 12 {
            if inn12_valid_chars(&digits) {
                ValidationResult::Valid
            } else {
                ValidationResult::Invalid
            }
        } else {
            ValidationResult::NotApplicable
        }
    }
}

impl Validator for InnValidator {
    fn id(&self) -> (r: &str)
        ensures
            r@ == "inn"@,
    {
        "inn"
    }

    fn validate(&self, raw: &str) -> (r: ValidationResult)
        ensures
            r == inn_result(raw@),
    {
        self.validate_raw(raw)
    }
}

/// The 10-digit INN check over a character sequence of digits.
pub fn inn10_valid_chars(cs: &[char]) -> (r: bool)
    requires
        all_digits(cs@),
    ensures
        r == inn10_spec(cs@),
{
    if cs.len() != 10 {
        return false;
    }
    let k: [u32; 9] = [2, 4, 10, 3, 5, 9, 4, 6, 8];
    assert(k@ =~= inn10_weights());
    let sum = weighted_sum(cs, &k, 9);
    (sum % 11) % 10 == digit_value(cs[9])
}

/// The 12-digit INN check over a character sequence of digits.
pub fn inn12_valid_chars(cs: &[char]) -> (r: bool)
    requires
        all_digits(cs@),
    ensures
        r == inn12_spec(cs@),
{
    if cs.len() != 12 {
        return false;
    }
    let k1: [u32; 10] = [7, 2, 4, 10, 3, 5, 9, 4, 6, 8];
    assert(k1@ =~= inn12_weights1());
    let sum1 = weighted_sum(cs, &k1, 10);
    if (sum1 % 11) % 10 != digit_value(cs[10]) {
        return false;
    }
    let k2: [u32; 11] = [3, 7, 2, 4, 10, 3, 5, 9, 4, 6, 8];
    assert(k2@ =~= inn12_weights2());
    let sum2 = weighted_sum(cs, &k2, 11);
    (sum2 % 11) % 10 == digit_value(cs[11])
}

// ---------------------------------------------------------------- SNILS

pub open spec fn snils_weights() -> Seq<u32> {
    seq![9u32, 8, 7, 6, 5, 4, 3, 2, 1]
}

/// The SNILS control number derived from the weighted sum of the first nine digits.
pub open spec fn snils_control(sum: int) -> int {
    let cs = if sum < 100 {
        sum
    } else if sum == 100 || sum == 101 {
        0
    } else {
        sum % 101
    };
    if cs == 100 {
        0
    } else {
        cs
    }
}

/// An 11-digit SNILS whose last two digits equal its control number.
pub open spec fn snils_spec(s: Seq<char>) -> bool {
    &&& s.len() == 11
    &&& all_digits(s)
    &&& snils_control(weighted(s, snils_weights(), 9)) == digit_val(s[9]) * 10 + digit_val(s[10])
}

/// The SNILS check over a character sequence of digits.
pub fn snils_valid_chars(cs: &[char]) -> (r: bool)
    requires
        all_digits(cs@),
    ensures
        r == snils_spec(cs@),
{
    if cs.len() != 11 {
        return false;
    }
    let k: [u32; 9] = [9, 8, 7, 6, 5, 4, 3, 2, 1];
    assert(k@ =~= snils_weights());
    let sum = weighted_sum(cs, &k, 9);
    let mut control = if sum < 100 {
        sum
    } else if sum == 100 || sum == 101 {
        0
    } else {
        sum % 101
    };
    if control == 100 {
        control = 0;
    }
    let given = digit_value(cs[9]) * 10 + digit_value(cs[10]);
    control == given
}

pub fn snils_valid(d: &str) -> (r: bool)
    requires
        digits_if_byte_len(d@, 11),
    ensures
        r == snils_spec(d@),
{
    if str_byte_len(d) != 11 {
        proof {
            if all_digits(d@) {
                lemma_digits_ascii(d@);
            }
        }
        return false;
    }
    proof {
        lemma_digits_ascii(d@);
    }
    let cs = str_chars(d);
    snils_valid_chars(&cs)
}

/// The SNILS check: applicable to exactly 11 digits.
pub struct SnilsValidator;

pub open spec fn snils_result(raw: Seq<char>) -> ValidationResult {
    let d = filter_digits(raw);
    if d.len() != 11 {
        ValidationResult::NotApplicable
    } else if snils_spec(d) {
        ValidationResult::Valid
    } else {
        ValidationResult::Invalid
    }
}

impl SnilsValidator {
    pub fn validate_raw(&self, raw: &str) -> (r: ValidationResult)
        ensures
            r == snils_result(raw@),
    {
        let digits = digits_of(raw);
        if digits.len() != 11 {
            return ValidationResult::NotApplicable;
        }
        if snils_valid_chars(&digits) {
            ValidationResult::Valid
        } else {
            ValidationResult::Invalid
        }
    }
}

impl Validator for SnilsValidator {
    fn id(&self) -> (r: &str)
        ensures
            r@ == "snils"@,
    {
        "snils"
    }

    fn validate(&self, raw: &str) -> (r: ValidationResult)
        ensures
            r == snils_result(raw@),
    {
        self.validate_raw(raw)
    }
}


// ---------------------------------------------------------------- dates

/// Values of the maximal runs of ASCII digits in `s`, left to right.
pub open spec fn run_values(s: Seq<char>) -> Seq<int>
    decreases s.len(),
{
    if s.len() == 0 {
        Seq::empty()
    } else {
        let r = run_values(s.drop_last());
        let c = s.last();
        if is_digit(c) {
            if s.len() >= 2 && is_digit(s[s.len() - 2]) {
                r.update(r.len() - 1, r.last() * 10 + digit_val(c))
            } else {
                r.push(digit_val(c))
            }
        } else {
            r
        }
    }
}

/// The values that fit in a `u32` (the others fail to parse and are dropped).
pub open spec fn keep_u32(v: Seq<int>) -> Seq<int>
    decreases v.len(),
{
    if v.len() == 0 {
        Seq::empty()
    } else {
        let r = keep_u32(v.drop_last());
        if 0 <= v.last() <= u32::MAX {
            r.push(v.last())
        } else {
            r
        }
    }
}

/// The numbers of a date string: digit runs that parse as `u32`.
pub open spec fn date_numbers(s: Seq<char>) -> Seq<int> {
    keep_u32(run_values(s))
}

pub open spec fn is_leap_spec(year: int) -> bool {
    (year % 4 == 0 && year % 100 != 0) || year % 400 == 0
}

pub open spec fn days_in_month(year: int, month: int) -> int {
    if month == 1 || month == 3 || month == 5 || month == 7 || month == 8 || month == 10
        || month == 12 {
        31
    } else if month == 4 || month == 6 || month == 9 || month == 11 {
        30
    } else if is_leap_spec(year) {
        29
    } else {
        28
    }
}

/// The day exists in the proleptic Gregorian calendar.
pub open spec fn valid_ymd_spec(year: int, month: int, day: int) -> bool {
    1 <= month <= 12 && day != 0 && day <= days_in_month(year, month)
}

/// The calendar date read from a string, trying day.month.year, then month.day.year
/// (when the first number exceeds 12), then year.month.day (when it exceeds 31).
/// A two-digit year means 20yy.
pub open spec fn parse_date_spec(raw: Seq<char>) -> Option<(i32, u32, u32)> {
    let v = date_numbers(raw);
    if v.len() != 3 {
        None
    } else {
        let a = v[0] as u32;
        let b = v[1] as u32;
        let c = v[2] as u32;
        let year: int = if c > 100 {
            c as int
        } else {
            2000 + c
        };
        if !(1900 <= year <= 2100) {
            None
        } else if valid_ymd_spec(year, b as int, a as int) {
            Some((year as i32, b, a))
        } else if a > 12 && valid_ymd_spec(year, a as int, b as int) {
            Some((year as i32, a, b))
        } else if a > 31 && valid_ymd_spec((a as i32) as int, b as int, c as int) {
            Some((a as i32, b, c))
        } else {
            None
        }
    }
}

proof fn lemma_run_values_nonempty(s: Seq<char>)
    requires
        s.len() > 0,
        is_digit(s.last()),
    ensures
        run_values(s).len() > 0,
    decreases s.len(),
{
    if s.len() >= 2 && is_digit(s[s.len() - 2]) {
        let t = s.drop_last();
        assert(t.last() == s[s.len() - 2]);
        lemma_run_values_nonempty(t);
    }
}

proof fn lemma_keep_u32_push(v: Seq<int>, x: int)
    ensures
        keep_u32(v.push(x)) == if 0 <= x <= u32::MAX {
            keep_u32(v).push(x)
        } else {
            keep_u32(v)
        },
{
    assert(v.push(x).drop_last() =~= v);
}

proof fn lemma_keep_u32_bounds(v: Seq<int>)
    ensures
        forall|i: int| 0 <= i < keep_u32(v).len() ==> 0 <= #[trigger] keep_u32(v)[i] <= u32::MAX,
    decreases v.len(),
{
    if v.len() > 0 {
        lemma_keep_u32_bounds(v.drop_last());
        let r = keep_u32(v.drop_last());
        assert(keep_u32(v) == if 0 <= v.last() <= u32::MAX {
            r.push(v.last())
        } else {
            r
        });
    }
}

const CAP: u64 = 4294967296;

/// The numbers of a date string (digit runs that parse as `u32`).
fn date_numbers_exec(raw: &str) -> (out: Vec<u32>)
    ensures
        out@.len() == date_numbers(raw@).len(),
        forall|i: int| 0 <= i < out@.len() ==> out@[i] as int == #[trigger] date_numbers(raw@)[i],
{
    let cs = str_chars(raw);
    let n = cs.len();
    let mut out: Vec<u32> = Vec::new();
    let mut cur: u64 = 0;
    let mut in_run = false;
    let mut i: usize = 0;
    while i < n
        invariant
            n == cs@.len(),
            cs@ == raw@,
            i <= n,
            in_run == (i > 0 && is_digit(cs@[i - 1])),
            in_run ==> run_values(cs@.take(i as int)).len() > 0,
            in_run ==> cur as int == if run_values(cs@.take(i as int)).last() < CAP {
                run_values(cs@.take(i as int)).last()
            } else {
                CAP as int
            },
            in_run ==> run_values(cs@.take(i as int)).last() >= 0,
            in_run ==> out@.len() == keep_u32(run_values(cs@.take(i as int)).drop_last()).len(),
            in_run ==> forall|j: int|
                0 <= j < out@.len() ==> out@[j] as int == #[trigger] keep_u32(
                    run_values(cs@.take(i as int)).drop_last(),
                )[j],
            !in_run ==> out@.len() == keep_u32(run_values(cs@.take(i as int))).len(),
            !in_run ==> forall|j: int|
                0 <= j < out@.len() ==> out@[j] as int == #[trigger] keep_u32(
                    run_values(cs@.take(i as int)),
                )[j],
        decreases n - i,
    {
        let c = cs[i];
        let ghost prev = cs@.take(i as int);
        let ghost next = cs@.take(i + 1);
        assert(next.drop_last() =~= prev);
        assert(next.last() == c);
        if is_ascii_digit(c) {
            let d = digit_value(c) as u64;
            if in_run {
                assert(next.len() >= 2 && next[next.len() - 2] == cs@[i - 1]);
                let ghost rv = run_values(prev);
                assert(run_values(next) == rv.update(rv.len() - 1, rv.last() * 10 + d));
                assert(run_values(next).drop_last() =~= rv.drop_last());
                if cur >= CAP {
                    cur = CAP;
                } else {
                    let t = cur * 10 + d;
                    cur = if t >= CAP { CAP } else { t };
                }
            } else {
                assert(run_values(next) == run_values(prev).push(d as int));
                assert(run_values(next).drop_last() =~= run_values(prev));
                cur = d;
            }
            in_run = true;
        } else {
            if in_run {
                let ghost rv = run_values(prev);
                assert(rv =~= rv.drop_last().push(rv.last()));
                proof {
                    lemma_keep_u32_push(rv.drop_last(), rv.last());
                }
                if cur < CAP {
                    out.push(cur as u32);
                }
            }
            assert(run_values(next) == run_values(prev));
            in_run = false;
        }
        i += 1;
    }
    assert(cs@.take(n as int) =~= cs@);
    if in_run {
        let ghost rv = run_values(cs@);
        assert(rv =~= rv.drop_last().push(rv.last()));
        proof {
            lemma_keep_u32_push(rv.drop_last(), rv.last());
        }
        if cur < CAP {
            out.push(cur as u32);
        }
    }
    out
}

pub fn is_leap(year: i32) -> (r: bool)
    ensures
        r == is_leap_spec(year as int),
{
    let y = year as i64;
    let a: i64 = if y < 0 {
        -y
    } else {
        y
    };
    proof {
        lemma_mod_zero_neg(y as int, 4);
        lemma_mod_zero_neg(y as int, 100);
        lemma_mod_zero_neg(y as int, 400);
    }
    (a % 4 == 0 && a % 100 != 0) || a % 400 == 0
}

proof fn lemma_mod_zero_neg(y: int, m: int)
    requires
        m > 0,
    ensures
        (y % m == 0) == ((-y) % m == 0),
{
    if y % m == 0 {
        vstd::arithmetic::div_mod::lemma_fundamental_div_mod(y, m);
        let q = y / m;
        assert(-y == m * (-q)) by (nonlinear_arith)
            requires
                y == m * q,
        ;
        vstd::arithmetic::div_mod::lemma_mod_multiples_basic(-q, m);
        assert(m * (-q) == (-q) * m) by (nonlinear_arith);
    }
    if (-y) % m == 0 {
        vstd::arithmetic::div_mod::lemma_fundamental_div_mod(-y, m);
        let q = (-y) / m;
        assert(y == m * (-q)) by (nonlinear_arith)
            requires
                -y == m * q,
        ;
        vstd::arithmetic::div_mod::lemma_mod_multiples_basic(-q, m);
        assert(m * (-q) == (-q) * m) by (nonlinear_arith);
    }
}

pub fn valid_ymd(year: i32, month: u32, day: u32) -> (r: bool)
    ensures
        r == valid_ymd_spec(year as int, month as int, day as int),
{
    if month < 1 || month > 12 || day == 0 {
        return false;
    }
    let days: u32 = if month == 1 || month == 3 || month == 5 || month == 7 || month == 8
        || month == 10 || month == 12 {
        31
    } else if month == 4 || month == 6 || month == 9 || month == 11 {
        30
    } else if is_leap(year) {
        29
    } else {
        28
    };
    day <= days
}

/// Reads a calendar date from text (see `parse_date_spec`).
pub fn parse_date(raw: &str) -> (r: Option<(i32, u32, u32)>)
    ensures
        r == parse_date_spec(raw@),
{
    let v = date_numbers_exec(raw);
    if v.len() != 3 {
        return None;
    }
    let a = v[0];
    let b = v[1];
    let c = v[2];
    assert(a as int == date_numbers(raw@)[0]);
    assert(b as int == date_numbers(raw@)[1]);
    assert(c as int == date_numbers(raw@)[2]);
    if c > 100 && c > 2100 {
        return None;
    }
    let year: i32 = if c > 100 {
        c as i32
    } else {
        2000 + c as i32
    };
    if year < 1900 || year > 2100 {
        return None;
    }
    if valid_ymd(year, b, a) {
        return Some((year, b, a));
    }
    if a > 12 && valid_ymd(year, a, b) {
        return Some((year, a, b));
    }
    if a > 31 && valid_ymd(a as i32, b, c) {
        return Some((a as i32, b, c));
    }
    None
}

/// The calendar-date check.
pub struct DateValidator;

pub open spec fn date_result(raw: Seq<char>) -> ValidationResult {
    if parse_date_spec(raw) is Some {
        ValidationResult::Valid
    } else {
        ValidationResult::Invalid
    }
}

impl DateValidator {
    pub fn validate_raw(&self, raw: &str) -> (r: ValidationResult)
        ensures
            r == date_result(raw@),
    {
        if parse_date(raw).is_some() {
            ValidationResult::Valid
        } else {
            ValidationResult::Invalid
        }
    }
}

impl Validator for DateValidator {
    fn id(&self) -> (r: &str)
        ensures
            r@ == "date"@,
    {
        "date"
    }

    fn validate(&self, raw: &str) -> (r: ValidationResult)
        ensures
            r == date_result(raw@),
    {
        self.validate_raw(raw)
    }
}


// ---------------------------------------------------------------- passport series

/// The two-digit year of issue allowed for a series, from the current year:
/// `((year % 100) as u32).wrapping_add(1) % 100`, with Rust's truncating remainder.
pub open spec fn series_year_limit(year: int) -> int {
    let r = if year >= 0 {
        year % 100
    } else {
        -((-year) % 100)
    };
    let cur = if r >= 0 {
        r
    } else {
        r + 0x1_0000_0000
    };
    ((cur + 1) % 0x1_0000_0000) % 100
}

/// Passport series check against the current year: four digits, region part 01..99,
/// year part 97..99 or at most the limit derived from the current year.
pub open spec fn series_result(raw: Seq<char>, year: int) -> ValidationResult {
    let d = filter_digits(raw);
    if d.len() != 4 {
        ValidationResult::NotApplicable
    } else {
        let s1 = digit_val(d[0]) * 10 + digit_val(d[1]);
        let s2 = digit_val(d[2]) * 10 + digit_val(d[3]);
        if !(1 <= s1 <= 99) {
            ValidationResult::Invalid
        } else if (97 <= s2 <= 99) || s2 <= series_year_limit(year) {
            ValidationResult::Valid
        } else {
            ValidationResult::Invalid
        }
    }
}

/// Calls `time::OffsetDateTime::now_utc()` and returns its `year()`. The value comes from
/// the system clock: nothing is stated of it.
#[verifier::external_body]
pub(crate) fn current_utc_year() -> i32 {
    time::OffsetDateTime::now_utc().year()
}

/// The passport series check.
pub struct PassportSeriesValidator;

impl PassportSeriesValidator {
    /// The check at a given current year.
    pub fn validate_at_year(&self, raw: &str, year: i32) -> (r: ValidationResult)
        ensures
            r == series_result(raw@, year as int),
    {
        let d = digits_of(raw);
        if d.len() != 4 {
            return ValidationResult::NotApplicable;
        }
        let s1 = digit_value(d[0]) * 10 + digit_value(d[1]);
        let s2 = digit_value(d[2]) * 10 + digit_value(d[3]);
        if !(1 <= s1 && s1 <= 99) {
            return ValidationResult::Invalid;
        }
        let y = year as i64;
        let r: i64 = if y >= 0 {
            y % 100
        } else {
            -((-y) % 100)
        };
        let cur: u64 = if r >= 0 {
            r as u64
        } else {
            (r + 0x1_0000_0000) as u64
        };
        let limit = ((cur + 1) % 0x1_0000_0000) % 100;
        if (97 <= s2 && s2 <= 99) || (s2 as u64) <= limit {
            ValidationResult::Valid
        } else {
            ValidationResult::Invalid
        }
    }
}

impl Validator for PassportSeriesValidator {
    fn id(&self) -> (r: &str)
        ensures
            r@ == "passport_series"@,
    {
        "passport_series"
    }

    /// The check at the current year of the system clock: whatever year the clock gives,
    /// the result is `series_result` at some year, and does not depend on it when the
    /// series has no four digits, a bad region part, or a year part 97..99.
    fn validate(&self, raw: &str) -> (r: ValidationResult)
        ensures
            exists|y: i32| r == series_result(raw@, y as int),
    {
        let year = current_utc_year();
        self.validate_at_year(raw, year)
    }
}

/// The validators selectable by name.
#[derive(Clone, Copy, Debug, PartialEq, Eq, Structural)]
pub enum ValidatorKind {
    Luhn,
    Inn,
    Snils,
    Date,
    PassportSeries,
}

impl ValidatorKind {
    /// The name the validator is selected by.
    pub fn id(&self) -> (r: &'static str)
        ensures
            r@ == match self {
                ValidatorKind::Luhn => "luhn"@,
                ValidatorKind::Inn => "inn"@,
                ValidatorKind::Snils => "snils"@,
                ValidatorKind::Date => "date"@,
                ValidatorKind::PassportSeries => "passport_series"@,
            },
    {
        match self {
            ValidatorKind::Luhn => "luhn",
            ValidatorKind::Inn => "inn",
            ValidatorKind::Snils => "snils",
            ValidatorKind::Date => "date",
            ValidatorKind::PassportSeries => "passport_series",
        }
    }
}

/// Looks up a validator by its name.
pub fn get_validator(name: &str) -> (r: Option<ValidatorKind>)
    ensures
        r == if name@ == "luhn"@ {
            Some(ValidatorKind::Luhn)
        } else if name@ == "inn"@ {
            Some(ValidatorKind::Inn)
        } else if name@ == "snils"@ {
            Some(ValidatorKind::Snils)
        } else if name@ == "date"@ {
            Some(ValidatorKind::Date)
        } else if name@ == "passport_series"@ {
            Some(ValidatorKind::PassportSeries)
        } else {
            None
        },
{
    if str_eq(name, "luhn") {
        Some(ValidatorKind::Luhn)
    } else if str_eq(name, "inn") {
        Some(ValidatorKind::Inn)
    } else if str_eq(name, "snils") {
        Some(ValidatorKind::Snils)
    } else if str_eq(name, "date") {
        Some(ValidatorKind::Date)
    } else if str_eq(name, "passport_series") {
        Some(ValidatorKind::PassportSeries)
    } else {
        None
    }
}

impl ValidatorKind {
    /// Runs the selected validator.
    pub fn validate(&self, raw: &str) -> (r: ValidationResult)
        ensures
            *self == ValidatorKind::Luhn ==> r == luhn_result(raw@),
            *self == ValidatorKind::Inn ==> r == inn_result(raw@),
            *self == ValidatorKind::Snils ==> r == snils_result(raw@),
            *self == ValidatorKind::Date ==> r == date_result(raw@),
            *self == ValidatorKind::PassportSeries ==> exists|y: i32|
                r == series_result(raw@, y as int),
    {
        match self {
            ValidatorKind::Luhn => LuhnValidator.validate_raw(raw),
            ValidatorKind::Inn => InnValidator.validate_raw(raw),
            ValidatorKind::Snils => SnilsValidator.validate_raw(raw),
            ValidatorKind::Date => DateValidator.validate_raw(raw),
            ValidatorKind::PassportSeries => PassportSeriesValidator.validate(raw),
        }
    }
}

/// The Gregorian calendar: months 1, 3, 5, 7, 8, 10 and 12 have 31 days, months 4, 6, 9
/// and 11 have 30, February has 29 in leap years (divisible by 4 and not by 100, or by 400)
/// and 28 otherwise; days start at 1 and months run from 1 to 12.
pub proof fn law_calendar(y: int, m: int, d: int)
    requires
        0 <= d,
    ensures
        (m == 1 || m == 3 || m == 5 || m == 7 || m == 8 || m == 10 || m == 12) ==> (valid_ymd_spec(y, m, d) <==> 1 <= d <= 31),
        (m == 4 || m == 6 || m == 9 || m == 11) ==> (valid_ymd_spec(y, m, d) <==> 1 <= d <= 30),
        m == 2 && ((y % 4 == 0 && y % 100 != 0) || y % 400 == 0) ==> (valid_ymd_spec(y, m, d) <==> 1 <= d <= 29),
        m == 2 && !((y % 4 == 0 && y % 100 != 0) || y % 400 == 0) ==> (valid_ymd_spec(y, m, d) <==> 1 <= d <= 28),
        !(1 <= m <= 12) ==> !valid_ymd_spec(y, m, d),
{
}

/// A date read as day, month, year: when the numbers of the text are a day, a month and a
/// year between 1900 and 2100 that make a calendar date, that date is the result.
pub proof fn law_parse_day_month_year(raw: Seq<char>)
    requires
        date_numbers(raw).len() == 3,
        1900 <= date_numbers(raw)[2] <= 2100,
        valid_ymd_spec(date_numbers(raw)[2], date_numbers(raw)[1], date_numbers(raw)[0]),
        0 <= date_numbers(raw)[0] <= u32::MAX,
        0 <= date_numbers(raw)[1] <= u32::MAX,
    ensures
        parse_date_spec(raw) == Some((date_numbers(raw)[2] as i32, date_numbers(raw)[1] as u32, date_numbers(raw)[0] as u32)),
{
}

/// The SNILS check: eleven digits, the weighted sum S of the first nine (weights 9 down to
/// 1); the control number is S below 100, 0 for 100 and 101, and S mod 101 (100 read as 0)
/// above; the number is valid when its last two digits spell the control number.
pub proof fn law_snils(s: Seq<char>)
    requires
        s.len() == 11,
        forall|i: int| 0 <= i < 11 ==> '0' <= #[trigger] s[i] <= '9',
    ensures
        ({
            let v = |i: int| (s[i] as int) - ('0' as int);
            let sum = 9 * v(0) + 8 * v(1) + 7 * v(2) + 6 * v(3) + 5 * v(4) + 4 * v(5) + 3 * v(6) + 2 * v(7) + v(8);
            let c = if sum < 100 {
                sum
            } else if sum == 100 || sum == 101 {
                0
            } else {
                (sum % 101) % 100
            };
            snils_spec(s) <==> c == 10 * v(9) + v(10)
        }),
{
    reveal_with_fuel(weighted, 10);
    assert(all_digits(s)) by {
        assert forall|i: int| 0 <= i < s.len() implies is_digit(#[trigger] s[i]) by {
            assert('0' <= s[i] <= '9');
        }
    }
    let w = snils_weights();
    assert(w[0] == 9 && w[1] == 8 && w[2] == 7 && w[3] == 6 && w[4] == 5 && w[5] == 4 && w[6] == 3 && w[7] == 2 && w[8] == 1);
    let v = |i: int| (s[i] as int) - ('0' as int);
    assert(weighted(s, w, 1) == 9 * v(0));
    assert(weighted(s, w, 2) == 9 * v(0) + 8 * v(1));
    assert(weighted(s, w, 3) == weighted(s, w, 2) + 7 * v(2));
    assert(weighted(s, w, 4) == weighted(s, w, 3) + 6 * v(3));
    assert(weighted(s, w, 5) == weighted(s, w, 4) + 5 * v(4));
    assert(weighted(s, w, 6) == weighted(s, w, 5) + 4 * v(5));
    assert(weighted(s, w, 7) == weighted(s, w, 6) + 3 * v(6));
    assert(weighted(s, w, 8) == weighted(s, w, 7) + 2 * v(7));
    assert(w[8] as int * digit_val(s[8]) == digit_val(s[8])) by (nonlinear_arith)
        requires
            w[8] == 1,
    ;
    assert(weighted(s, w, 9) == weighted(s, w, 8) + v(8));
    let sum = weighted(s, w, 9);
    assert(sum >= 0);
    if sum > 101 {
        assert(0 <= sum % 101 <= 100);
    }
    assert(digit_val(s[9]) == v(9) && digit_val(s[10]) == v(10));
}

/// The numbers of a date written `dd.mm.yyyy` are its day, its month and its year.
pub proof fn law_numbers_of_dotted_date(raw: Seq<char>)
    requires
        raw.len() == 10,
        raw[2] == '.',
        raw[5] == '.',
        forall|i: int| 0 <= i < 10 && i != 2 && i != 5 ==> '0' <= #[trigger] raw[i] <= '9',
    ensures
        ({
            let v = |i: int| (raw[i] as int) - ('0' as int);
            date_numbers(raw) == seq![10 * v(0) + v(1), 10 * v(3) + v(4), 1000 * v(6) + 100 * v(7) + 10 * v(8) + v(9)]
        }),
{
    let d = |i: int| digit_val(raw[i]);
    assert forall|i: int| 0 <= i < 10 && i != 2 && i != 5 implies is_digit(#[trigger] raw[i]) by {
        assert('0' <= raw[i] <= '9');
    }
    assert(!is_digit(raw[2]) && !is_digit(raw[5]));
    assert(raw.take(0) =~= Seq::<char>::empty());
    assert(raw.take(1).drop_last() =~= raw.take(0));
    assert(raw.take(1).last() == raw[0]);
    assert(raw.take(2).drop_last() =~= raw.take(1));
    assert(raw.take(2).last() == raw[1]);
    assert(raw.take(2)[0] == raw[0]);
    assert(raw.take(3).drop_last() =~= raw.take(2));
    assert(raw.take(3).last() == raw[2]);
    assert(raw.take(3)[1] == raw[1]);
    assert(raw.take(4).drop_last() =~= raw.take(3));
    assert(raw.take(4).last() == raw[3]);
    assert(raw.take(4)[2] == raw[2]);
    assert(raw.take(5).drop_last() =~= raw.take(4));
    assert(raw.take(5).last() == raw[4]);
    assert(raw.take(5)[3] == raw[3]);
    assert(raw.take(6).drop_last() =~= raw.take(5));
    assert(raw.take(6).last() == raw[5]);
    assert(raw.take(6)[4] == raw[4]);
    assert(raw.take(7).drop_last() =~= raw.take(6));
    assert(raw.take(7).last() == raw[6]);
    assert(raw.take(7)[5] == raw[5]);
    assert(raw.take(8).drop_last() =~= raw.take(7));
    assert(raw.take(8).last() == raw[7]);
    assert(raw.take(8)[6] == raw[6]);
    assert(raw.take(9).drop_last() =~= raw.take(8));
    assert(raw.take(9).last() == raw[8]);
    assert(raw.take(9)[7] == raw[7]);
    assert(raw.take(10).drop_last() =~= raw.take(9));
    assert(raw.take(10).last() == raw[9]);
    assert(raw.take(10)[8] == raw[8]);
    assert(run_values(raw.take(0)) =~= Seq::<int>::empty());
    assert(is_digit(raw[0]));
    assert(run_values(raw.take(1)) =~= seq![d(0)]);
    assert(run_values(raw.take(2)) =~= seq![10 * d(0) + d(1)]);
    assert(run_values(raw.take(3)) =~= seq![10 * d(0) + d(1)]);
    assert(run_values(raw.take(4)) =~= seq![10 * d(0) + d(1), d(3)]);
    assert(run_values(raw.take(5)) =~= seq![10 * d(0) + d(1), 10 * d(3) + d(4)]);
    assert(run_values(raw.take(6)) =~= seq![10 * d(0) + d(1), 10 * d(3) + d(4)]);
    assert(run_values(raw.take(7)) =~= seq![10 * d(0) + d(1), 10 * d(3) + d(4), d(6)]);
    assert(run_values(raw.take(8)) =~= seq![10 * d(0) + d(1), 10 * d(3) + d(4), 10 * d(6) + d(7)]);
    assert(run_values(raw.take(9)) =~= seq![10 * d(0) + d(1), 10 * d(3) + d(4), 100 * d(6) + 10 * d(7) + d(8)]);
    assert(run_values(raw.take(10)) =~= seq![10 * d(0) + d(1), 10 * d(3) + d(4), 1000 * d(6) + 100 * d(7) + 10 * d(8) + d(9)]);
    assert(raw.take(10) =~= raw);
    let w = run_values(raw);
    lemma_keep_u32_push(Seq::empty(), w[0]);
    lemma_keep_u32_push(seq![w[0]], w[1]);
    lemma_keep_u32_push(seq![w[0], w[1]], w[2]);
    assert(seq![w[0]] =~= Seq::<int>::empty().push(w[0]));
    assert(seq![w[0], w[1]] =~= seq![w[0]].push(w[1]));
    assert(w =~= seq![w[0], w[1]].push(w[2]));
    assert(keep_u32(Seq::<int>::empty()) =~= Seq::<int>::empty());
}

/// A date written `dd.mm.yyyy` with a year from 1900 to 2100 reads as that calendar date
/// whenever the day exists in that month (see `law_calendar`).
pub proof fn law_parse_dotted_date(raw: Seq<char>)
    requires
        raw.len() == 10,
        raw[2] == '.',
        raw[5] == '.',
        forall|i: int| 0 <= i < 10 && i != 2 && i != 5 ==> '0' <= #[trigger] raw[i] <= '9',
        ({
            let v = |i: int| (raw[i] as int) - ('0' as int);
            &&& 1900 <= 1000 * v(6) + 100 * v(7) + 10 * v(8) + v(9) <= 2100
            &&& valid_ymd_spec(1000 * v(6) + 100 * v(7) + 10 * v(8) + v(9), 10 * v(3) + v(4), 10 * v(0) + v(1))
        }),
    ensures
        ({
            let v = |i: int| (raw[i] as int) - ('0' as int);
            parse_date_spec(raw) == Some(((1000 * v(6) + 100 * v(7) + 10 * v(8) + v(9)) as i32, (10 * v(3) + v(4)) as u32, (10 * v(0) + v(1)) as u32))
        }),
{
    law_numbers_of_dotted_date(raw);
    law_parse_day_month_year(raw);
}

} // verus!
