//! Synthetic look-alike values: card numbers with a valid Luhn digit, personal INNs with
//! valid check digits, Russian mobile numbers, all derived from a numeric seed.
use vstd::prelude::*;

use crate::service::detect::validators::{
    check_digit, inn12_spec, inn12_weights1, inn12_weights2, luhn_partial, luhn_spec, luhn_term,
    weighted, weighted_sum,
};
use crate::textops::{
    all_digits, digit_char, digit_val, filter_digits, is_digit, push_str, string_from_chars,
    string_push,
};

verus! {

pub proof fn lemma_digit_char(d: int)
    requires
        0 <= d <= 9,
    ensures
        is_digit(digit_char(d)),
        digit_val(digit_char(d)) == d,
{
}

/// The first `n` decimal digits of `seed`, least significant first.
pub open spec fn seed_digits(seed: nat, n: nat) -> Seq<char>
    decreases n,
{
    if n == 0 {
        Seq::empty()
    } else {
        seq![digit_char((seed % 10) as int)] + seed_digits(seed / 10, (n - 1) as nat)
    }
}

pub proof fn lemma_seed_digits(seed: nat, n: nat)
    ensures
        seed_digits(seed, n).len() == n,
        all_digits(seed_digits(seed, n)),
    decreases n,
{
    if n > 0 {
        lemma_seed_digits(seed / 10, (n - 1) as nat);
        lemma_digit_char((seed % 10) as int);
        let s = seed_digits(seed, n);
        assert forall|i: int| 0 <= i < s.len() implies is_digit(#[trigger] s[i]) by {
            if i > 0 {
                assert(s[i] == seed_digits(seed / 10, (n - 1) as nat)[i - 1]);
            }
        }
    }
}

/// The first `n` decimal digits of `seed`, least significant first.
pub fn digits_from_seed(seed: u64, n: usize) -> (r: Vec<char>)
    ensures
        r@ == seed_digits(seed as nat, n as nat),
{
    let mut v: Vec<char> = Vec::new();
    let mut s = seed;
    let mut i: usize = 0;
    assert(v@ + seed_digits(seed as nat, n as nat) =~= seed_digits(seed as nat, n as nat));
    while i < n
        invariant
            i <= n,
            v@ + seed_digits(s as nat, (n - i) as nat) == seed_digits(seed as nat, n as nat),
        decreases n - i,
    {
        let d = (s % 10) as u8;
        let c = (48u8 + d) as char;
        let ghost before = v@;
        v.push(c);
        assert(v@ + seed_digits((s / 10) as nat, (n - (i + 1)) as nat) =~= before
            + seed_digits(s as nat, (n - i) as nat));
        s = s / 10;
        i += 1;
    }
    assert(v@ + seed_digits(s as nat, 0) =~= v@);
    v
}

// ---------------------------------------------------------------- cards

/// Luhn sum of the last `k` characters of `d` with doubling on odd positions counted from
/// the end starting at 1: the sum a check digit appended to `d` completes.
pub open spec fn luhn_before_check(d: Seq<char>, k: nat) -> int
    decreases k,
{
    if k == 0 {
        0
    } else {
        luhn_before_check(d, (k - 1) as nat) + luhn_term(d[d.len() - k], k % 2 == 1)
    }
}

proof fn lemma_luhn_append(d: Seq<char>, c: char, k: nat)
    requires
        k <= d.len(),
    ensures
        luhn_partial(d.push(c), k + 1) == luhn_term(c, false) + luhn_before_check(d, k),
    decreases k,
{
    let full = d.push(c);
    if k == 0 {
        assert(luhn_partial(full, 0) == 0);
        assert(full[full.len() - 1] == c);
    } else {
        lemma_luhn_append(d, c, (k - 1) as nat);
        assert(full[full.len() - (k + 1)] == d[d.len() - k]);
    }
}

/// Luhn check digit completing `d`.
pub open spec fn luhn_check_digit(d: Seq<char>) -> int {
    (10 - luhn_before_check(d, d.len()) % 10) % 10
}

/// The sixteen digits of a synthetic card number.
pub open spec fn card_digits(seed: nat) -> Seq<char> {
    let d = seed_digits(seed, 15);
    d.push(digit_char(luhn_check_digit(d)))
}

/// Digits in groups of four separated by single spaces.
pub open spec fn group4(s: Seq<char>) -> Seq<char>
    decreases s.len(),
{
    if s.len() <= 4 {
        s
    } else {
        s.take(4) + seq![' '] + group4(s.skip(4))
    }
}

pub proof fn lemma_filter_digits_concat(a: Seq<char>, b: Seq<char>)
    ensures
        filter_digits(a + b) == filter_digits(a) + filter_digits(b),
    decreases b.len(),
{
    if b.len() == 0 {
        assert(a + b =~= a);
        assert(filter_digits(a) + filter_digits(b) =~= filter_digits(a));
    } else {
        lemma_filter_digits_concat(a, b.drop_last());
        assert((a + b).drop_last() =~= a + b.drop_last());
        assert((a + b).last() == b.last());
        if is_digit(b.last()) {
            assert(filter_digits(a) + filter_digits(b) =~= (filter_digits(a) + filter_digits(
                b.drop_last(),
            )).push(b.last()));
        }
    }
}

proof fn lemma_filter_all_digits(s: Seq<char>)
    requires
        all_digits(s),
    ensures
        filter_digits(s) == s,
    decreases s.len(),
{
    if s.len() > 0 {
        lemma_filter_all_digits(s.drop_last());
        assert(s.drop_last().push(s.last()) =~= s);
    }
}

pub proof fn lemma_group4_digits(s: Seq<char>)
    requires
        all_digits(s),
    ensures
        filter_digits(group4(s)) == s,
    decreases s.len(),
{
    if s.len() <= 4 {
        lemma_filter_all_digits(s);
    } else {
        lemma_group4_digits(s.skip(4));
        lemma_filter_all_digits(s.take(4));
        lemma_filter_digits_concat(s.take(4), seq![' ']);
        lemma_filter_digits_concat(s.take(4) + seq![' '], group4(s.skip(4)));
        assert(filter_digits(seq![' ']) =~= Seq::<char>::empty()) by {
            assert(seq![' '].drop_last() =~= Seq::<char>::empty());
            assert(filter_digits(Seq::<char>::empty()) == Seq::<char>::empty());
            assert(!is_digit(seq![' '].last()));
        }
        assert(s.take(4) + Seq::<char>::empty() =~= s.take(4));
        assert(s.take(4) + s.skip(4) =~= s);
    }
}

/// A synthetic card number is sixteen digits that pass the Luhn check.
pub proof fn law_synthetic_card_luhn(seed: nat)
    ensures
        card_digits(seed).len() == 16,
        luhn_spec(card_digits(seed)),
        filter_digits(group4(card_digits(seed))) == card_digits(seed),
{
    let d = seed_digits(seed, 15);
    lemma_seed_digits(seed, 15);
    lemma_luhn_before_bounds(d, 15);
    let c = luhn_check_digit(d);
    lemma_digit_char(c);
    lemma_luhn_append(d, digit_char(c), 15);
    let full = card_digits(seed);
    assert(all_digits(full)) by {
        assert forall|i: int| 0 <= i < full.len() implies is_digit(#[trigger] full[i]) by {
            if i < 15 {
                assert(full[i] == d[i]);
            }
        }
    }
    lemma_group4_digits(full);
}

proof fn lemma_luhn_before_bounds(d: Seq<char>, k: nat)
    requires
        k <= d.len(),
        all_digits(d),
    ensures
        0 <= luhn_before_check(d, k) <= 9 * k,
    decreases k,
{
    if k > 0 {
        lemma_luhn_before_bounds(d, (k - 1) as nat);
        assert(is_digit(d[d.len() - k]));
    }
}

/// Luhn check digit of fifteen digits.
fn luhn_check_for(d: &Vec<char>) -> (c: u8)
    requires
        d@.len() == 15,
        all_digits(d@),
    ensures
        c == luhn_check_digit(d@),
        c <= 9,
{
    let mut sum: u32 = 0;
    let mut k: usize = 0;
    while k < 15
        invariant
            d@.len() == 15,
            all_digits(d@),
            k <= 15,
            sum == luhn_before_check(d@, k as nat),
        decreases 15 - k,
    {
        proof {
            lemma_luhn_before_bounds(d@, k as nat);
        }
        let ch = d[14 - k];
        assert(is_digit(ch));
        let mut v = (ch as u32) - 48;
        if (k + 1) % 2 == 1 {
            v = v * 2;
            if v > 9 {
                v = v - 9;
            }
        }
        sum = sum + v;
        k += 1;
    }
    ((10 - sum % 10) % 10) as u8
}

/// The synthetic card number for a seed, grouped by four digits.
pub fn synthetic_card(seed: u64) -> (r: String)
    ensures
        r@ == group4(card_digits(seed as nat)),
{
    let d = digits_from_seed(seed, 15);
    proof {
        lemma_seed_digits(seed as nat, 15);
    }
    let c = luhn_check_for(&d);
    let mut full = d;
    full.push((48u8 + c) as char);
    assert(full@ == card_digits(seed as nat));
    let mut out = String::new();
    let mut i: usize = 0;
    assert(out@ + group4(full@.skip(0)) =~= group4(full@)) by {
        assert(full@.skip(0) =~= full@);
    }
    while i < 16
        invariant
            full@.len() == 16,
            i % 4 == 0,
            i <= 16,
            out@ + group4(full@.skip(i as int)) == group4(full@),
        decreases 16 - i,
    {
        let ghost rest = full@.skip(i as int);
        let ghost before = out@;
        string_push(&mut out, full[i]);
        string_push(&mut out, full[i + 1]);
        string_push(&mut out, full[i + 2]);
        string_push(&mut out, full[i + 3]);
        if i + 4 < 16 {
            string_push(&mut out, ' ');
            assert(rest.take(4) =~= seq![full@[i as int], full@[i + 1], full@[i + 2], full@[i + 3]]);
            assert(rest.skip(4) =~= full@.skip(i + 4));
            assert(out@ + group4(full@.skip(i + 4)) =~= before + (rest.take(4) + seq![' ']
                + group4(rest.skip(4))));
        } else {
            assert(rest =~= seq![full@[i as int], full@[i + 1], full@[i + 2], full@[i + 3]]);
            assert(full@.skip(i + 4) =~= Seq::<char>::empty());
            assert(out@ + group4(full@.skip(i + 4)) =~= before + rest);
        }
        i += 4;
    }
    assert(full@.skip(16) =~= Seq::<char>::empty());
    assert(out@ + Seq::<char>::empty() =~= out@);
    out
}

// ---------------------------------------------------------------- INN

/// The twelve digits of a synthetic personal INN.
pub open spec fn inn_digits(seed: nat) -> Seq<char> {
    let d = seed_digits(seed, 10);
    let c1 = check_digit(weighted(d, inn12_weights1(), 10));
    let d11 = d.push(digit_char(c1));
    d11.push(digit_char(check_digit(weighted(d11, inn12_weights2(), 11))))
}

proof fn lemma_weighted_prefix(s: Seq<char>, t: Seq<char>, w: Seq<u32>, n: nat)
    requires
        n <= s.len(),
        n <= t.len(),
        forall|i: int| 0 <= i < n ==> s[i] == t[i],
    ensures
        weighted(s, w, n) == weighted(t, w, n),
    decreases n,
{
    if n > 0 {
        lemma_weighted_prefix(s, t, w, (n - 1) as nat);
    }
}

proof fn lemma_check_digit_range(sum: int)
    ensures
        0 <= check_digit(sum) <= 9,
{
}

/// A synthetic INN has twelve digits with both check digits correct.
pub proof fn law_synthetic_inn_valid(seed: nat)
    ensures
        inn12_spec(inn_digits(seed)),
{
    let d = seed_digits(seed, 10);
    lemma_seed_digits(seed, 10);
    let c1 = check_digit(weighted(d, inn12_weights1(), 10));
    lemma_check_digit_range(weighted(d, inn12_weights1(), 10));
    lemma_digit_char(c1);
    let d11 = d.push(digit_char(c1));
    let c2 = check_digit(weighted(d11, inn12_weights2(), 11));
    lemma_check_digit_range(weighted(d11, inn12_weights2(), 11));
    lemma_digit_char(c2);
    let full = d11.push(digit_char(c2));
    lemma_weighted_prefix(full, d, inn12_weights1(), 10);
    lemma_weighted_prefix(full, d11, inn12_weights2(), 11);
    assert forall|i: int| 0 <= i < full.len() implies is_digit(#[trigger] full[i]) by {
        if i < 10 {
            assert(full[i] == d[i]);
        }
    }
}

/// The synthetic personal INN for a seed.
pub fn synthetic_inn(seed: u64) -> (r: String)
    ensures
        r@ == inn_digits(seed as nat),
{
    let d = digits_from_seed(seed, 10);
    proof {
        lemma_seed_digits(seed as nat, 10);
    }
    let w1: Vec<u32> = vec![7, 2, 4, 10, 3, 5, 9, 4, 6, 8];
    let w2: Vec<u32> = vec![3, 7, 2, 4, 10, 3, 5, 9, 4, 6, 8];
    assert(w1@ =~= inn12_weights1());
    assert(w2@ =~= inn12_weights2());
    let s1 = weighted_sum(d.as_slice(), w1.as_slice(), 10);
    let c1 = ((s1 % 11) % 10) as u8;
    proof {
        lemma_digit_char(c1 as int);
    }
    let mut full = d;
    full.push((48u8 + c1) as char);
    assert forall|i: int| 0 <= i < 11 implies is_digit(#[trigger] full@[i]) by {}
    let s2 = weighted_sum(full.as_slice(), w2.as_slice(), 11);
    let c2 = ((s2 % 11) % 10) as u8;
    full.push((48u8 + c2) as char);
    string_from_chars(full.as_slice())
}

// ---------------------------------------------------------------- phones

/// A synthetic mobile number: `+7 (ddd) ddd-dd-dd` with the seed digits.
pub open spec fn phone_spec(seed: nat) -> Seq<char> {
    let d = seed_digits(seed, 10);
    seq!['+', '7', ' ', '('] + d.subrange(0, 3) + seq![')', ' '] + d.subrange(3, 6) + seq!['-']
        + d.subrange(6, 8) + seq!['-'] + d.subrange(8, 10)
}

/// The synthetic mobile number for a seed.
pub fn synthetic_phone(seed: u64) -> (r: String)
    ensures
        r@ == phone_spec(seed as nat),
{
    let d = digits_from_seed(seed, 10);
    proof {
        lemma_seed_digits(seed as nat, 10);
    }
    let mut out = String::new();
    string_push(&mut out, '+');
    string_push(&mut out, '7');
    string_push(&mut out, ' ');
    string_push(&mut out, '(');
    string_push(&mut out, d[0]);
    string_push(&mut out, d[1]);
    string_push(&mut out, d[2]);
    string_push(&mut out, ')');
    string_push(&mut out, ' ');
    string_push(&mut out, d[3]);
    string_push(&mut out, d[4]);
    string_push(&mut out, d[5]);
    string_push(&mut out, '-');
    string_push(&mut out, d[6]);
    string_push(&mut out, d[7]);
    string_push(&mut out, '-');
    string_push(&mut out, d[8]);
    string_push(&mut out, d[9]);
    assert(out@ =~= phone_spec(seed as nat));
    out
}

} // verus!
