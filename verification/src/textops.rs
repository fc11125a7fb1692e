//! Character and string primitives used throughout the library, each with an
//! exact contract over the character sequence (`@`) or the UTF-8 bytes of a string.
use unicode_normalization::UnicodeNormalization;
use vstd::prelude::*;
use vstd::string::StringSliceAdditionalSpecFns;
use vstd::string::StringExecFns;
use vstd::utf8::*;

verus! {

/// An ASCII decimal digit.
pub open spec fn is_digit(c: char) -> bool {
    '0' <= c && c <= '9'
}

/// The value of an ASCII decimal digit.
pub open spec fn digit_val(c: char) -> int {
    (c as int) - ('0' as int)
}

/// Every character of `s` is an ASCII digit.
pub open spec fn all_digits(s: Seq<char>) -> bool {
    forall|i: int| 0 <= i < s.len() ==> is_digit(#[trigger] s[i])
}

/// The ASCII digits of `s`, in order.
pub open spec fn filter_digits(s: Seq<char>) -> Seq<char>
    decreases s.len(),
{
    if s.len() == 0 {
        Seq::empty()
    } else {
        let r = filter_digits(s.drop_last());
        if is_digit(s.last()) {
            r.push(s.last())
        } else {
            r
        }
    }
}

/// The decimal value of a run of ASCII digits.
pub open spec fn decimal_value(s: Seq<char>) -> int
    decreases s.len(),
{
    if s.len() == 0 {
        0
    } else {
        decimal_value(s.drop_last()) * 10 + digit_val(s.last())
    }
}

/// Number of UTF-8 bytes of a character.
pub open spec fn utf8_len(c: char) -> nat {
    encode_scalar(c as u32).len()
}

/// Byte length of the UTF-8 encoding of a character sequence.
pub open spec fn byte_len(s: Seq<char>) -> nat {
    encode_utf8(s).len()
}

/// `needle` occurs in `hay` at position `i`.
pub open spec fn occurs_at<T>(hay: Seq<T>, needle: Seq<T>, i: int) -> bool {
    0 <= i && i + needle.len() <= hay.len() && hay.subrange(i, i + needle.len()) == needle
}

/// `needle` occurs somewhere in `hay`.
pub open spec fn seq_contains_seq<T>(hay: Seq<T>, needle: Seq<T>) -> bool {
    exists|i: int| occurs_at(hay, needle, i)
}

/// `hay` begins with `prefix`.
pub open spec fn seq_starts_with<T>(hay: Seq<T>, prefix: Seq<T>) -> bool {
    prefix.len() <= hay.len() && hay.subrange(0, prefix.len() as int) == prefix
}

/// `hay` ends with `suffix`.
pub open spec fn seq_ends_with<T>(hay: Seq<T>, suffix: Seq<T>) -> bool {
    suffix.len() <= hay.len() && hay.subrange(hay.len() - suffix.len(), hay.len() as int)
        == suffix
}

pub fn is_ascii_digit(c: char) -> (r: bool)
    ensures
        r == is_digit(c),
{
    c >= '0' && c <= '9'
}

/// Value of an ASCII digit.
pub fn digit_value(c: char) -> (r: u32)
    requires
        is_digit(c),
    ensures
        r == digit_val(c),
        r <= 9,
{
    (c as u32) - ('0' as u32)
}

/// Appends a character to a string.
#[verifier::external_body]
pub(crate) fn string_push(s: &mut String, c: char)
    ensures
        final(s)@ == old(s)@.push(c),
{
    s.push(c);
}

/// The characters of a string slice.
pub fn str_chars(s: &str) -> (v: Vec<char>)
    ensures
        v@ == s@,
{
    let mut v: Vec<char> = Vec::new();
    for c in it: s.chars()
        invariant
            v@.len() == it.index(),
            forall|j: int| 0 <= j < it.index() ==> v@[j] == it.seq()[j],
            it.seq() == s@,
    {
        v.push(c);
    }
    assert(v@ =~= s@);
    v
}

/// Builds a string from a character sequence.
pub fn string_from_chars(v: &[char]) -> (s: String)
    ensures
        s@ == v@,
{
    let mut s = String::new();
    let mut i: usize = 0;
    while i < v.len()
        invariant
            i <= v@.len(),
            s@ == v@.take(i as int),
        decreases v.len() - i,
    {
        string_push(&mut s, v[i]);
        assert(v@.take(i as int).push(v@[i as int]) =~= v@.take(i + 1));
        i += 1;
    }
    assert(v@.take(v@.len() as int) =~= v@);
    s
}

/// The ASCII digits of a string, in order.
pub fn digits_of(s: &str) -> (v: Vec<char>)
    ensures
        v@ == filter_digits(s@),
        all_digits(v@),
{
    let cs = str_chars(s);
    let mut v: Vec<char> = Vec::new();
    let mut i: usize = 0;
    while i < cs.len()
        invariant
            i <= cs@.len(),
            cs@ == s@,
            v@ == filter_digits(cs@.take(i as int)),
            all_digits(v@),
        decreases cs.len() - i,
    {
        assert(cs@.take(i + 1).drop_last() =~= cs@.take(i as int));
        if is_ascii_digit(cs[i]) {
            v.push(cs[i]);
        }
        i += 1;
    }
    assert(cs@.take(cs@.len() as int) =~= cs@);
    v
}

/// Character-sequence equality of two string slices.
pub fn str_eq(a: &str, b: &str) -> (r: bool)
    ensures
        r == (a@ == b@),
{
    let x = str_chars(a);
    let y = str_chars(b);
    chars_eq(&x, &y)
}

/// Equality of two character slices.
pub fn chars_eq(x: &[char], y: &[char]) -> (r: bool)
    ensures
        r == (x@ == y@),
{
    if x.len() != y.len() {
        return false;
    }
    let mut i: usize = 0;
    while i < x.len()
        invariant
            x@.len() == y@.len(),
            i <= x@.len(),
            forall|j: int| 0 <= j < i ==> x@[j] == y@[j],
        decreases x.len() - i,
    {
        if x[i] != y[i] {
            return false;
        }
        i += 1;
    }
    assert(x@ =~= y@);
    true
}

/// Does `needle` occur in `hay` at position `i`?
pub fn occurs_at_exec(hay: &[char], needle: &[char], i: usize) -> (r: bool)
    ensures
        r == occurs_at(hay@, needle@, i as int),
{
    if i > hay.len() || needle.len() > hay.len() - i {
        return false;
    }
    let mut j: usize = 0;
    while j < needle.len()
        invariant
            i + needle@.len() <= hay@.len(),
            hay@.len() <= usize::MAX,
            j <= needle@.len(),
            forall|k: int| 0 <= k < j ==> hay@[i + k] == needle@[k],
        decreases needle.len() - j,
    {
        if hay[i + j] != needle[j] {
            assert(hay@.subrange(i as int, i + needle@.len())[j as int] != needle@[j as int]);
            return false;
        }
        j += 1;
    }
    assert(hay@.subrange(i as int, i + needle@.len()) =~= needle@);
    true
}

} // verus!

verus! {

/// An ASCII character encodes to one UTF-8 byte.
pub open spec fn is_ascii_char(c: char) -> bool {
    (c as u32) < 128
}

/// Every character is ASCII.
pub open spec fn all_ascii(s: Seq<char>) -> bool {
    forall|i: int| 0 <= i < s.len() ==> is_ascii_char(#[trigger] s[i])
}

/// The UTF-8 encoding of ASCII characters has one byte per character.
pub proof fn lemma_ascii_byte_len(s: Seq<char>)
    requires
        all_ascii(s),
    ensures
        byte_len(s) == s.len(),
        encode_utf8(s) =~= Seq::new(s.len(), |i: int| (s[i] as u32) as u8),
    decreases s.len(),
{
    if s.len() > 0 {
        let t = s.drop_last();
        let u = s.drop_first();
        assert(is_ascii_char(s[0]));
        assert forall|i: int| 0 <= i < u.len() implies is_ascii_char(#[trigger] u[i]) by {
            assert(u[i] == s[i + 1]);
        }
        lemma_ascii_byte_len(u);
        let c = s[0] as u32;
        assert(has_width_1_encoding(c));
        assert((c & 0x7F) as u8 == c as u8) by (bit_vector)
            requires
                c < 128,
        ;
    }
}

/// Digits are ASCII.
pub proof fn lemma_digits_ascii(s: Seq<char>)
    requires
        all_digits(s),
    ensures
        all_ascii(s),
        byte_len(s) == s.len(),
{
    assert forall|i: int| 0 <= i < s.len() implies is_ascii_char(#[trigger] s[i]) by {
        assert(is_digit(s[i]));
    }
    lemma_ascii_byte_len(s);
}

} // verus!

verus! {

/// Number of UTF-8 bytes of a string slice.
pub fn str_byte_len(s: &str) -> (n: usize)
    ensures
        n == byte_len(s@),
        s.spec_bytes() == encode_utf8(s@),
{
    s.as_bytes().len()
}

} // verus!

verus! {

/// The UTF-8 encoding of a concatenation is the concatenation of the encodings.
pub proof fn lemma_encode_concat(a: Seq<char>, b: Seq<char>)
    ensures
        encode_utf8(a + b) == encode_utf8(a) + encode_utf8(b),
        byte_len(a + b) == byte_len(a) + byte_len(b),
    decreases a.len(),
{
    if a.len() == 0 {
        assert(a + b =~= b);
        assert(encode_utf8(a) =~= Seq::<u8>::empty());
        assert(encode_utf8(a) + encode_utf8(b) =~= encode_utf8(b));
    } else {
        assert((a + b).drop_first() =~= a.drop_first() + b);
        assert((a + b)[0] == a[0]);
        lemma_encode_concat(a.drop_first(), b);
        assert(encode_utf8(a + b) =~= encode_scalar(a[0] as u32) + encode_utf8(a.drop_first() + b));
        assert(encode_utf8(a) + encode_utf8(b) =~= encode_scalar(a[0] as u32) + (encode_utf8(
            a.drop_first(),
        ) + encode_utf8(b)));
    }
}

/// The encoding of a single character.
pub proof fn lemma_encode_single(c: char)
    ensures
        encode_utf8(seq![c]) == encode_scalar(c as u32),
        byte_len(seq![c]) == utf8_len(c),
{
    assert(seq![c].drop_first() =~= Seq::<char>::empty());
    assert(encode_utf8(seq![c]) =~= encode_scalar(c as u32) + encode_utf8(Seq::<char>::empty()));
}

/// Appending a character adds its encoding length.
pub proof fn lemma_byte_len_push(s: Seq<char>, c: char)
    ensures
        byte_len(s.push(c)) == byte_len(s) + utf8_len(c),
{
    assert(s.push(c) =~= s + seq![c]);
    lemma_encode_concat(s, seq![c]);
    lemma_encode_single(c);
}

/// Number of UTF-8 bytes of a character (1 to 4).
pub fn char_len_utf8(c: char) -> (n: usize)
    ensures
        n == utf8_len(c),
        1 <= n <= 4,
{
    proof {
        char_is_scalar(c);
    }
    let v = c as u32;
    if v < 0x80 {
        1
    } else if v < 0x800 {
        2
    } else if v < 0x10000 {
        3
    } else {
        4
    }
}

/// What Unicode NFKC normalization yields for one character.
pub uninterp spec fn nfkc_of(c: char) -> Seq<char>;

/// Calls `UnicodeNormalization::nfkc` (unicode-normalization) on one character and collects
/// the characters it yields; the result is named `nfkc_of(c)`, a function of `c` alone, and
/// is never empty (a character decomposes into itself or into its decomposition, and
/// recomposition gives out every starter it holds back).
#[verifier::external_body]
pub(crate) fn nfkc_chars(c: char) -> (r: Vec<char>)
    ensures
        r@ == nfkc_of(c),
        r@.len() > 0,
{
    c.nfkc().collect()
}

/// What `char::to_lowercase` yields for one character.
pub uninterp spec fn lowercase_of(c: char) -> Seq<char>;

/// Calls std's `char::to_lowercase` and collects the characters it yields; the result is
/// named `lowercase_of(c)`, a function of `c` alone, and holds one or more characters (as
/// std's documentation says of the mapping).
#[verifier::external_body]
pub(crate) fn lowercase_chars(c: char) -> (r: Vec<char>)
    ensures
        r@ == lowercase_of(c),
        r@.len() > 0,
{
    c.to_lowercase().collect()
}

/// Whether std's `char::is_alphanumeric` holds of a character.
pub uninterp spec fn alphanumeric(c: char) -> bool;

/// Calls std's `char::is_alphanumeric`; the result is named `alphanumeric(c)`.
#[verifier::external_body]
pub(crate) fn is_alphanumeric(c: char) -> (r: bool)
    ensures
        r == alphanumeric(c),
{
    c.is_alphanumeric()
}

/// Whether std's `char::is_alphabetic` holds of a character.
pub uninterp spec fn alphabetic(c: char) -> bool;

/// Calls std's `char::is_alphabetic`; the result is named `alphabetic(c)`.
#[verifier::external_body]
pub(crate) fn is_alphabetic(c: char) -> (r: bool)
    ensures
        r == alphabetic(c),
{
    c.is_alphabetic()
}

/// Whether std's `char::is_uppercase` holds of a character.
pub uninterp spec fn uppercase(c: char) -> bool;

/// Calls std's `char::is_uppercase`; the result is named `uppercase(c)`.
#[verifier::external_body]
pub(crate) fn is_uppercase(c: char) -> (r: bool)
    ensures
        r == uppercase(c),
{
    c.is_uppercase()
}

/// Unicode `White_Space`, which std's `char::is_whitespace` tests.
pub open spec fn whitespace(c: char) -> bool {
    let v = c as u32;
    (0x09 <= v <= 0x0D) || v == 0x20 || v == 0x85 || v == 0xA0 || v == 0x1680 || (0x2000 <= v
        <= 0x200A) || v == 0x2028 || v == 0x2029 || v == 0x202F || v == 0x205F || v == 0x3000
}

pub fn is_whitespace(c: char) -> (r: bool)
    ensures
        r == whitespace(c),
{
    let v = c as u32;
    (0x09 <= v && v <= 0x0D) || v == 0x20 || v == 0x85 || v == 0xA0 || v == 0x1680 || (0x2000
        <= v && v <= 0x200A) || v == 0x2028 || v == 0x2029 || v == 0x202F || v == 0x205F || v
        == 0x3000
}

/// What std's `str::to_lowercase` yields for a string.
pub uninterp spec fn str_lowercase_of(s: Seq<char>) -> Seq<char>;

/// Calls std's `str::to_lowercase`; the result is named `str_lowercase_of(s@)`, a
/// function of the string alone (its final-sigma rule looks at neighbouring characters,
/// so it is not stated per character).
#[verifier::external_body]
pub(crate) fn str_to_lowercase(s: &str) -> (r: String)
    ensures
        r@ == str_lowercase_of(s@),
{
    s.to_lowercase()
}

/// The whitespace-separated words of `s`, joined by single spaces (what
/// `split_whitespace` followed by `join(" ")` gives).
pub open spec fn collapse_ws(s: Seq<char>) -> Seq<char>
    decreases s.len(),
{
    if s.len() == 0 {
        Seq::empty()
    } else {
        let r = collapse_ws(s.drop_last());
        let c = s.last();
        if whitespace(c) {
            r
        } else if r.len() > 0 && whitespace(s.drop_last().last()) {
            r.push(' ').push(c)
        } else {
            r.push(c)
        }
    }
}

proof fn lemma_collapse_empty_prefix(s: Seq<char>)
    requires
        collapse_ws(s).len() > 0,
    ensures
        s.len() > 0,
{
}

/// Words of `s` joined by single spaces.
pub fn collapse_whitespace(s: &str) -> (r: String)
    ensures
        r@ == collapse_ws(s@),
{
    let cs = str_chars(s);
    let mut out = String::new();
    let mut has_word = false;
    let mut i: usize = 0;
    while i < cs.len()
        invariant
            cs@ == s@,
            i <= cs@.len(),
            out@ == collapse_ws(cs@.take(i as int)),
            has_word == (out@.len() > 0),
        decreases cs.len() - i,
    {
        let c = cs[i];
        let ghost pre = cs@.take(i as int);
        assert(cs@.take(i + 1).drop_last() =~= pre);
        assert(cs@.take(i + 1).last() == c);
        if !is_whitespace(c) {
            if has_word {
                proof {
                    lemma_collapse_empty_prefix(pre);
                    assert(pre.last() == cs@[i - 1]);
                }
                if is_whitespace(cs[i - 1]) {
                    string_push(&mut out, ' ');
                }
            }
            string_push(&mut out, c);
            has_word = true;
        }
        i += 1;
    }
    assert(cs@.take(cs@.len() as int) =~= cs@);
    out
}

/// Appends a string slice.
pub fn push_str(out: &mut String, s: &str)
    ensures
        final(out)@ == old(out)@ + s@,
{
    out.append(s);
}

/// Decimal digit character of a value below 10.
pub open spec fn digit_char(d: int) -> char {
    ((48 + d) as u8) as char
}

/// Decimal representation of a natural number, without leading zeros.
pub open spec fn decimal_spec(n: nat) -> Seq<char>
    decreases n,
{
    if n < 10 {
        seq![digit_char(n as int)]
    } else {
        decimal_spec(n / 10).push(digit_char((n % 10) as int))
    }
}

/// Appends the decimal representation of `n`.
pub fn push_decimal(out: &mut String, n: u64)
    ensures
        final(out)@ == old(out)@ + decimal_spec(n as nat),
    decreases n,
{
    if n >= 10 {
        push_decimal(out, n / 10);
    }
    let d = (n % 10) as u8;
    string_push(out, (48u8 + d) as char);
    assert(old(out)@ + decimal_spec(n as nat) =~= if n >= 10 {
        (old(out)@ + decimal_spec((n / 10) as nat)).push(digit_char((n % 10) as int))
    } else {
        old(out)@.push(digit_char((n % 10) as int))
    });
}

/// `s` with every non-overlapping occurrence of `pat` (scanning left to right) replaced
/// by `with`, as `str::replace` does.
pub open spec fn replace_spec(s: Seq<char>, pat: Seq<char>, with: Seq<char>) -> Seq<char>
    recommends
        pat.len() > 0,
    decreases s.len(),
{
    if s.len() == 0 || pat.len() == 0 {
        s
    } else if seq_starts_with(s, pat) {
        with + replace_spec(s.skip(pat.len() as int), pat, with)
    } else {
        seq![s[0]] + replace_spec(s.skip(1), pat, with)
    }
}

/// Number of occurrences `replace_spec` replaces.
pub open spec fn replace_count(s: Seq<char>, pat: Seq<char>) -> nat
    decreases s.len(),
{
    if s.len() == 0 || pat.len() == 0 {
        0
    } else if seq_starts_with(s, pat) {
        1 + replace_count(s.skip(pat.len() as int), pat)
    } else {
        replace_count(s.skip(1), pat)
    }
}

/// Replaces every occurrence of a non-empty pattern, and counts the replacements.
pub fn replace_all_counting(s: &str, pat: &str, with: &str) -> (r: (String, usize))
    requires
        pat@.len() > 0,
    ensures
        r.0@ == replace_spec(s@, pat@, with@),
        r.1 == replace_count(s@, pat@),
{
    let cs = str_chars(s);
    let ps = str_chars(pat);
    let mut out = String::new();
    let mut count: usize = 0;
    let mut i: usize = 0;
    assert(cs@.skip(0) =~= cs@);
    assert(out@ + replace_spec(cs@, ps@, with@) =~= replace_spec(cs@, ps@, with@));
    while i < cs.len()
        invariant
            cs@ == s@,
            ps@ == pat@,
            ps@.len() > 0,
            i <= cs@.len(),
            count <= i,
            out@ + replace_spec(cs@.skip(i as int), ps@, with@) == replace_spec(cs@, ps@, with@),
            count + replace_count(cs@.skip(i as int), ps@) == replace_count(cs@, ps@),
        decreases cs.len() - i,
    {
        let ghost rest = cs@.skip(i as int);
        if occurs_at_exec(cs.as_slice(), ps.as_slice(), i) {
            proof {
                assert(rest.subrange(0, ps@.len() as int) =~= cs@.subrange(i as int, i + ps@.len()));
                assert(rest.skip(ps@.len() as int) =~= cs@.skip(i + ps@.len()));
            }
            let ghost before = out@;
            push_str(&mut out, with);
            assert(out@ + replace_spec(cs@.skip(i + ps@.len()), ps@, with@) =~= before + (with@
                + replace_spec(cs@.skip(i + ps@.len()), ps@, with@)));
            count = count + 1;
            i = i + ps.len();
        } else {
            proof {
                if seq_starts_with(rest, ps@) {
                    assert(rest.subrange(0, ps@.len() as int) =~= cs@.subrange(i as int, i + ps@.len()));
                }
                assert(rest.skip(1) =~= cs@.skip(i + 1));
            }
            let ghost before = out@;
            string_push(&mut out, cs[i]);
            assert(out@ + replace_spec(cs@.skip(i + 1), ps@, with@) =~= before + (seq![rest[0]]
                + replace_spec(cs@.skip(i + 1), ps@, with@)));
            i = i + 1;
        }
    }
    assert(cs@.skip(cs@.len() as int) =~= Seq::<char>::empty());
    assert(out@ + Seq::<char>::empty() =~= out@);
    (out, count)
}

/// Replaces every occurrence of a non-empty pattern.
pub fn replace_all(s: &str, pat: &str, with: &str) -> (r: String)
    requires
        pat@.len() > 0,
    ensures
        r@ == replace_spec(s@, pat@, with@),
{
    replace_all_counting(s, pat, with).0
}


/// `s` without leading whitespace.
pub open spec fn trim_start_spec(s: Seq<char>) -> Seq<char>
    decreases s.len(),
{
    if s.len() > 0 && whitespace(s[0]) {
        trim_start_spec(s.skip(1))
    } else {
        s
    }
}

/// `s` without trailing whitespace.
pub open spec fn trim_end_spec(s: Seq<char>) -> Seq<char>
    decreases s.len(),
{
    if s.len() > 0 && whitespace(s.last()) {
        trim_end_spec(s.drop_last())
    } else {
        s
    }
}

/// `s` without leading and trailing whitespace, as `str::trim` gives it.
pub open spec fn trim_spec(s: Seq<char>) -> Seq<char> {
    trim_end_spec(trim_start_spec(s))
}

/// Characters without leading and trailing whitespace.
pub fn trim_chars(s: &[char]) -> (r: Vec<char>)
    ensures
        r@ == trim_spec(s@),
{
    let mut a: usize = 0;
    assert(s@.skip(0) =~= s@);
    while a < s.len() && is_whitespace(s[a])
        invariant
            a <= s@.len(),
            trim_start_spec(s@) == trim_start_spec(s@.skip(a as int)),
        decreases s.len() - a,
    {
        assert(s@.skip(a as int).skip(1) =~= s@.skip(a + 1));
        a += 1;
    }
    let mut b: usize = s.len();
    assert(s@.skip(a as int).take(b - a) =~= s@.skip(a as int));
    while b > a && is_whitespace(s[b - 1])
        invariant
            a <= b <= s@.len(),
            trim_start_spec(s@) == s@.skip(a as int),
            trim_end_spec(s@.skip(a as int)) == trim_end_spec(s@.subrange(a as int, b as int)),
        decreases b,
    {
        assert(s@.subrange(a as int, b as int).drop_last() =~= s@.subrange(a as int, b - 1));
        b -= 1;
    }
    let r = vstd::slice::slice_subrange(s, a, b);
    let mut out: Vec<char> = Vec::new();
    let mut i: usize = 0;
    while i < r.len()
        invariant
            i <= r@.len(),
            out@ == r@.take(i as int),
        decreases r.len() - i,
    {
        out.push(r[i]);
        assert(out@ =~= r@.take(i + 1));
        i += 1;
    }
    assert(r@.take(r@.len() as int) =~= r@);
    out
}

/// The pieces of `s` between the separators `c` (one more piece than separators).
pub open spec fn split_on(s: Seq<char>, c: char) -> Seq<Seq<char>>
    decreases s.len(),
{
    if s.len() == 0 {
        seq![Seq::empty()]
    } else {
        let p = split_on(s.drop_last(), c);
        if s.last() == c {
            p.push(Seq::empty())
        } else {
            p.update(p.len() - 1, p.last().push(s.last()))
        }
    }
}

pub proof fn lemma_split_nonempty(s: Seq<char>, c: char)
    ensures
        split_on(s, c).len() >= 1,
    decreases s.len(),
{
    if s.len() > 0 {
        lemma_split_nonempty(s.drop_last(), c);
    }
}

/// Slice of a string between two character boundaries of its bytes.
pub fn str_slice(s: &str, start: usize, end: usize) -> (r: &str)
    requires
        start <= end <= byte_len(s@),
        is_char_boundary(encode_utf8(s@), start as int),
        is_char_boundary(encode_utf8(s@), end as int),
    ensures
        encode_utf8(r@) == encode_utf8(s@).subrange(start as int, end as int),
{
    let (head, _) = s.split_at(end);
    proof {
        encode_utf8_valid_utf8(s@);
        let b = encode_utf8(s@);
        valid_utf8_split(b, end as int);
        assert(b.subrange(0, end as int).subrange(0, start as int) =~= b.subrange(0, start as int));
        lemma_char_boundary_prefix(b, end as int, start as int);
    }
    let (_, tail) = head.split_at(start);
    proof {
        let b = encode_utf8(s@);
        assert(b.subrange(0, end as int).subrange(start as int, end as int) =~= b.subrange(
            start as int,
            end as int,
        ));
    }
    tail
}


/// The byte offset of a prefix is a character boundary of the encoding.
pub proof fn lemma_prefix_boundary(s: Seq<char>, k: int)
    requires
        0 <= k <= s.len(),
    ensures
        is_char_boundary(encode_utf8(s), byte_len(s.take(k)) as int),
        byte_len(s.take(k)) <= byte_len(s),
    decreases k,
{
    encode_utf8_valid_utf8(s);
    if k == 0 {
        assert(s.take(0) =~= Seq::<char>::empty());
        assert(encode_utf8(Seq::<char>::empty()) =~= Seq::<u8>::empty());
        assert(s.take(k) + s.skip(k) =~= s);
        lemma_encode_concat(s.take(k), s.skip(k));
    } else {
        let bytes = encode_utf8(s);
        let rest = s.drop_first();
        encode_utf8_first_scalar(s);
        lemma_encode_single(s[0]);
        assert(s.take(k) =~= seq![s[0]] + rest.take(k - 1));
        lemma_encode_concat(seq![s[0]], rest.take(k - 1));
        assert(s =~= seq![s[0]] + rest);
        lemma_encode_concat(seq![s[0]], rest);
        lemma_prefix_boundary(rest, k - 1);
        let l = length_of_first_scalar(bytes);
        assert(pop_first_scalar(bytes) =~= encode_utf8(rest));
        assert(byte_len(s.take(k)) - l == byte_len(rest.take(k - 1)));
    }
}

/// A character boundary before `end` stays one in the prefix of length `end`.
pub proof fn lemma_char_boundary_prefix(b: Seq<u8>, end: int, k: int)
    requires
        valid_utf8(b),
        is_char_boundary(b, end),
        is_char_boundary(b, k),
        0 <= k <= end <= b.len(),
    ensures
        is_char_boundary(b.subrange(0, end), k),
    decreases b.len(),
{
    valid_utf8_split(b, end);
    let p = b.subrange(0, end);
    assert(valid_utf8(p));
    if k == 0 {
    } else {
        let t = pop_first_scalar(b);
        let l = length_of_first_scalar(b);
        reveal_with_fuel(is_char_boundary, 2);
        reveal_with_fuel(valid_utf8, 2);
        lemma_char_boundary_len(b, k);
        assert(valid_utf8(t));
        assert(is_char_boundary(t, k - l));
        assert(is_char_boundary(t, end - l));
        lemma_char_boundary_prefix(t, end - l, k - l);
        assert(p[0] == b[0]);
        assert(length_of_first_scalar(p) == l);
        assert(pop_first_scalar(p) =~= t.subrange(0, end - l));
        assert(is_char_boundary(pop_first_scalar(p), k - l));
    }
}

proof fn lemma_char_boundary_len(b: Seq<u8>, k: int)
    requires
        valid_utf8(b),
        is_char_boundary(b, k),
        k > 0,
    ensures
        k >= length_of_first_scalar(b),
        b.len() > 0,
{
    reveal_with_fuel(is_char_boundary, 2);
}

} // verus!

verus! {

/// Does `needle` occur in `hay` (as characters)?  Same answer as `str::contains` on
/// valid UTF-8.
pub fn chars_contains(hay: &[char], needle: &[char]) -> (r: bool)
    ensures
        r == seq_contains_seq(hay@, needle@),
{
    if needle.len() > hay.len() {
        proof {
            assert forall|i: int| !occurs_at(hay@, needle@, i) by {}
        }
        return false;
    }
    if needle.len() == 0 {
        assert(hay@.subrange(0, 0) =~= needle@);
        assert(occurs_at(hay@, needle@, 0));
        return true;
    }
    let mut i: usize = 0;
    let last = hay.len() - needle.len();
    while i <= last
        invariant
            last == hay@.len() - needle@.len(),
            1 <= needle@.len() <= hay@.len(),
            hay@.len() <= usize::MAX,
            i <= last + 1,
            forall|k: int| 0 <= k < i ==> !occurs_at(hay@, needle@, k),
        decreases last + 1 - i,
    {
        if occurs_at_exec(hay, needle, i) {
            return true;
        }
        i += 1;
    }
    proof {
        assert forall|k: int| !occurs_at(hay@, needle@, k) by {
            if 0 <= k < i {
            }
        }
    }
    false
}

/// Substring test on strings (over their characters).
pub fn str_contains(hay: &str, needle: &str) -> (r: bool)
    ensures
        r == seq_contains_seq(hay@, needle@),
{
    let h = str_chars(hay);
    let n = str_chars(needle);
    chars_contains(&h, &n)
}

/// Does any of `words` occur in `hay`?
pub fn str_contains_any(hay: &str, words: &[&str]) -> (r: bool)
    ensures
        r == exists|i: int| 0 <= i < words@.len() && seq_contains_seq(hay@, #[trigger] words@[i]@),
{
    let h = str_chars(hay);
    let mut i: usize = 0;
    while i < words.len()
        invariant
            h@ == hay@,
            i <= words@.len(),
            forall|j: int| 0 <= j < i ==> !seq_contains_seq(hay@, #[trigger] words@[j]@),
        decreases words.len() - i,
    {
        let n = str_chars(words[i]);
        if chars_contains(&h, &n) {
            return true;
        }
        i += 1;
    }
    false
}

/// Does any of `words` occur in `hay`?
pub fn str_contains_any_string(hay: &str, words: &[String]) -> (r: bool)
    ensures
        r == exists|i: int| 0 <= i < words@.len() && seq_contains_seq(hay@, #[trigger] words@[i]@),
{
    let h = str_chars(hay);
    let mut i: usize = 0;
    while i < words.len()
        invariant
            h@ == hay@,
            i <= words@.len(),
            forall|j: int| 0 <= j < i ==> !seq_contains_seq(hay@, #[trigger] words@[j]@),
        decreases words.len() - i,
    {
        let n = str_chars(words[i].as_str());
        if chars_contains(&h, &n) {
            return true;
        }
        i += 1;
    }
    false
}

/// `alphanumeric` of each character.
pub fn alnum_flags(cs: &[char]) -> (f: Vec<bool>)
    ensures
        f@.len() == cs@.len(),
        forall|i: int| 0 <= i < cs@.len() ==> f@[i] == alphanumeric(#[trigger] cs@[i]),
{
    let mut f: Vec<bool> = Vec::new();
    let mut i: usize = 0;
    while i < cs.len()
        invariant
            i <= cs@.len(),
            f@.len() == i,
            forall|j: int| 0 <= j < i ==> f@[j] == alphanumeric(#[trigger] cs@[j]),
        decreases cs.len() - i,
    {
        f.push(is_alphanumeric(cs[i]));
        i += 1;
    }
    f
}

/// The bytes of `b` between two of its character boundaries are valid text.
pub proof fn lemma_valid_between(b: Seq<u8>, c: int, s: int)
    requires
        valid_utf8(b),
        0 <= c <= s <= b.len(),
        is_char_boundary(b, c),
        is_char_boundary(b, s),
    ensures
        valid_utf8(b.subrange(c, s)),
{
    valid_utf8_split(b, s);
    lemma_char_boundary_prefix(b, s, c);
    let pre = b.subrange(0, s);
    valid_utf8_split(pre, c);
    assert(pre.subrange(c, pre.len() as int) =~= b.subrange(c, s));
}

} // verus!
