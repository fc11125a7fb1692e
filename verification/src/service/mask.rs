//! Masking strategies: placeholders, redaction, partial masks, keyed tokens, hashes and
//! synthetic look-alikes.
use vstd::prelude::*;

use crate::domain::entity::{numbered, Entity, MaskState};
use crate::domain::pd_type::PdType;
use crate::domain::traits::{MaskKind, MaskOutput};
use crate::domain::type_map::TypeMap;
use crate::infra::crypto::{hmac_token, hmac_token_spec, sha256_hex, hex_spec, sha256_of};
use crate::service::synthetic::{
    card_digits, group4, inn_digits, phone_spec, synthetic_card, synthetic_inn, synthetic_phone,
};
use crate::textops::{
    decimal_spec, is_ascii_digit, is_digit, push_decimal, push_str, replace_all, replace_spec,
    str_chars, string_push,
};
use vstd::string::StringSliceAdditionalSpecFns;
use vstd::utf8::encode_utf8;

verus! {

/// The value of an optional string.
pub open spec fn opt_view(o: Option<String>) -> Option<Seq<char>> {
    match o {
        Some(s) => Some(s@),
        None => None,
    }
}

impl View for MaskOutput {
    type V = (Seq<char>, Option<Seq<char>>);

    open spec fn view(&self) -> (Seq<char>, Option<Seq<char>>) {
        (self.replacement@, opt_view(self.key))
    }
}

/// A masking strategy.
pub trait Masker {
    fn kind(&self) -> MaskKind;

    /// Masks one value; `original` is its text in the input.
    fn mask(&self, entity: &Entity, original: &str, state: &mut MaskState) -> (out: MaskOutput)
        requires
            old(state).wf(),
            old(state).counter(entity.pd_type@) < u32::MAX,
        ensures
            final(state).wf(),
    ;

    /// Whether the mask can be turned back into the original.
    fn reversible(&self) -> bool;
}

/// Number the session gives to an entity's value.
pub open spec fn number_of_entity(st: MaskState, e: Entity) -> u32 {
    st.number_for(e.pd_type@, e@.canonical)
}

// ---------------------------------------------------------------- placeholder

/// The label of a type: the configured one, else the type's own name.
pub open spec fn label_of(labels: TypeMap<String>, t: Seq<char>) -> Seq<char> {
    match labels.get_spec(t) {
        Some(l) => l@,
        None => t,
    }
}

/// The placeholder text: the format with `{label}` and then `{n}` replaced.
pub open spec fn placeholder_text(format: Seq<char>, label: Seq<char>, n: u32) -> Seq<char> {
    replace_spec(replace_spec(format, "{label}"@, label), "{n}"@, decimal_spec(n as nat))
}

/// Placeholder masker: `[ФИО_1]`.
pub struct PlaceholderMasker {
    pub format: String,
    pub labels: TypeMap<String>,
}

impl PlaceholderMasker {
    /// What placeholder masking gives for a value of type `t` numbered `n`: the filled-in
    /// format, and the key `label_n`.
    pub open spec fn out_spec(&self, t: Seq<char>, n: u32) -> (Seq<char>, Option<Seq<char>>) {
        let label = label_of(self.labels, t);
        (placeholder_text(self.format@, label, n), Some(label + "_"@ + decimal_spec(n as nat)))
    }
}

impl Masker for PlaceholderMasker {
    fn kind(&self) -> (k: MaskKind)
        ensures
            k == MaskKind::Placeholder,
    {
        MaskKind::Placeholder
    }

    fn mask(&self, entity: &Entity, original: &str, state: &mut MaskState) -> (out: MaskOutput)
        ensures
            out@ == self.out_spec(entity.pd_type@, number_of_entity(*old(state), *entity)),
            numbered(*old(state), *final(state), entity.pd_type@, entity@.canonical),
    {
        let canonical = entity.canonical.expose().clone();
        let n = state.next_number(&entity.pd_type, canonical.as_str());
        let label: &str = match self.labels.get(&entity.pd_type) {
            Some(l) => l.as_str(),
            None => entity.pd_type.as_str(),
        };
        proof {
            reveal_strlit("{label}");
            reveal_strlit("{n}");
        }
        let with_label = replace_all(self.format.as_str(), "{label}", label);
        let mut num = String::new();
        push_decimal(&mut num, n as u64);
        assert(num@ =~= decimal_spec(n as nat));
        let replacement = replace_all(with_label.as_str(), "{n}", num.as_str());
        let mut key = String::new();
        push_str(&mut key, label);
        push_str(&mut key, "_");
        push_str(&mut key, num.as_str());
        MaskOutput { replacement, key: Some(key) }
    }

    fn reversible(&self) -> (r: bool)
        ensures
            r,
    {
        true
    }
}

// ---------------------------------------------------------------- redact

/// As many asterisks as the value has characters.
pub open spec fn stars(n: nat) -> Seq<char> {
    Seq::new(n, |i: int| '*')
}

/// Redact masker: `*****` of the same length.
pub struct RedactMasker;

impl Masker for RedactMasker {
    fn kind(&self) -> (k: MaskKind)
        ensures
            k == MaskKind::Redact,
    {
        MaskKind::Redact
    }

    fn mask(&self, entity: &Entity, original: &str, state: &mut MaskState) -> (out: MaskOutput)
        ensures
            out@ == (stars(original@.len()), None::<Seq<char>>),
            *final(state) == *old(state),
    {
        let cs = str_chars(original);
        let mut out = String::new();
        let mut i: usize = 0;
        while i < cs.len()
            invariant
                i <= cs@.len(),
                out@ == stars(i as nat),
            decreases cs.len() - i,
        {
            string_push(&mut out, '*');
            assert(out@ =~= stars((i + 1) as nat));
            i += 1;
        }
        MaskOutput { replacement: out, key: None }
    }

    fn reversible(&self) -> (r: bool)
        ensures
            !r,
    {
        false
    }
}

// ---------------------------------------------------------------- partial

/// Digits hidden except in the last `keep_last` characters; other characters kept.
pub open spec fn partial_text(s: Seq<char>, keep_last: usize) -> Seq<char> {
    let keep = if keep_last < s.len() {
        keep_last as int
    } else {
        s.len() as int
    };
    Seq::new(
        s.len(),
        |i: int|
            if i >= s.len() - keep || !is_digit(s[i]) {
                s[i]
            } else {
                '*'
            },
    )
}

/// What partial masking gives for `o` of type `t` numbered `n`.
pub open spec fn partial_out(keep_last: usize, o: Seq<char>, t: Seq<char>, n: u32) -> (Seq<char>, Option<Seq<char>>) {
    (partial_text(o, keep_last), Some(t + "_p"@ + decimal_spec(n as nat)))
}

/// Partial masker: keeps the last `keep_last` characters.
pub struct PartialMasker {
    pub keep_last: usize,
}

impl Masker for PartialMasker {
    fn kind(&self) -> (k: MaskKind)
        ensures
            k == MaskKind::Partial,
    {
        MaskKind::Partial
    }

    fn mask(&self, entity: &Entity, original: &str, state: &mut MaskState) -> (out: MaskOutput)
        ensures
            out@ == partial_out(self.keep_last, original@, entity.pd_type@, number_of_entity(*old(state), *entity)),
            numbered(*old(state), *final(state), entity.pd_type@, entity@.canonical),
    {
        let cs = str_chars(original);
        let n = cs.len();
        let keep = if self.keep_last < n {
            self.keep_last
        } else {
            n
        };
        let mut out = String::new();
        let mut i: usize = 0;
        while i < n
            invariant
                n == cs@.len(),
                cs@ == original@,
                keep <= n,
                keep == (if self.keep_last < n { self.keep_last } else { n }),
                i <= n,
                out@ == partial_text(original@, self.keep_last).take(i as int),
            decreases n - i,
        {
            let c = cs[i];
            if i >= n - keep {
                string_push(&mut out, c);
            } else if is_ascii_digit(c) {
                string_push(&mut out, '*');
            } else {
                string_push(&mut out, c);
            }
            assert(out@ =~= partial_text(original@, self.keep_last).take(i + 1));
            i += 1;
        }
        assert(partial_text(original@, self.keep_last).take(n as int) =~= partial_text(
            original@,
            self.keep_last,
        ));
        let canonical = entity.canonical.expose().clone();
        let num = state.next_number(&entity.pd_type, canonical.as_str());
        let mut key = String::new();
        push_str(&mut key, entity.pd_type.as_str());
        push_str(&mut key, "_p");
        push_decimal(&mut key, num as u64);
        MaskOutput { replacement: out, key: Some(key) }
    }

    fn reversible(&self) -> (r: bool)
        ensures
            r,
    {
        true
    }
}

// ---------------------------------------------------------------- token

/// The token mask `tok_TYPE_xxxxxxxx` of value `c` of type `t`.
pub open spec fn token_text(secret: Seq<u8>, t: Seq<char>, c: Seq<char>) -> Seq<char> {
    "tok_"@ + t + "_"@ + hmac_token_spec(secret, t + "|"@ + c)
}

/// Token masker: `tok_FIO_3fa9c2d1`, keyed by a secret, the same for the same value.
pub struct TokenMasker {
    pub secret: Vec<u8>,
}

impl Masker for TokenMasker {
    fn kind(&self) -> (k: MaskKind)
        ensures
            k == MaskKind::Token,
    {
        MaskKind::Token
    }

    fn mask(&self, entity: &Entity, original: &str, state: &mut MaskState) -> (out: MaskOutput)
        ensures
            out@ == (token_text(self.secret@, entity.pd_type@, entity@.canonical), Some(
                token_text(self.secret@, entity.pd_type@, entity@.canonical),
            )),
            *final(state) == *old(state),
    {
        let canonical = entity.canonical.expose();
        let mut data = String::new();
        push_str(&mut data, entity.pd_type.as_str());
        push_str(&mut data, "|");
        push_str(&mut data, canonical.as_str());
        let token = hmac_token(self.secret.as_slice(), data.as_str());
        let mut replacement = String::new();
        push_str(&mut replacement, "tok_");
        push_str(&mut replacement, entity.pd_type.as_str());
        push_str(&mut replacement, "_");
        push_str(&mut replacement, token.as_str());
        let key = replacement.clone();
        MaskOutput { replacement, key: Some(key) }
    }

    fn reversible(&self) -> (r: bool)
        ensures
            r,
    {
        true
    }
}

// ---------------------------------------------------------------- hash

/// The hash mask of value `c`.
pub open spec fn hash_text(c: Seq<char>) -> Seq<char> {
    "sha256:"@ + hex_spec(sha256_of(encode_utf8(c)))
}

/// Hash masker: `sha256:` and the hex digest of the canonical value.
pub struct HashMasker;

impl Masker for HashMasker {
    fn kind(&self) -> (k: MaskKind)
        ensures
            k == MaskKind::Hash,
    {
        MaskKind::Hash
    }

    fn mask(&self, entity: &Entity, original: &str, state: &mut MaskState) -> (out: MaskOutput)
        ensures
            out@ == (hash_text(entity@.canonical), None::<Seq<char>>),
            *final(state) == *old(state),
    {
        let canonical = entity.canonical.expose();
        let hash = sha256_hex(canonical.as_str().as_bytes());
        let mut replacement = String::new();
        push_str(&mut replacement, "sha256:");
        push_str(&mut replacement, hash.as_str());
        MaskOutput { replacement, key: None }
    }

    fn reversible(&self) -> (r: bool)
        ensures
            !r,
    {
        false
    }
}

// ---------------------------------------------------------------- synthetic

/// Value of a hex digit (either case), or -1.
pub open spec fn hex_val(c: char) -> int {
    if '0' <= c <= '9' {
        c as int - '0' as int
    } else if 'a' <= c <= 'f' {
        c as int - 'a' as int + 10
    } else if 'A' <= c <= 'F' {
        c as int - 'A' as int + 10
    } else {
        -1
    }
}

/// Value of a run of hex digits.
pub open spec fn hex_number(s: Seq<char>) -> int
    decreases s.len(),
{
    if s.len() == 0 {
        0
    } else {
        hex_number(s.drop_last()) * 16 + hex_val(s.last())
    }
}

/// Whether every character is a hex digit.
pub open spec fn all_hex(s: Seq<char>) -> bool {
    forall|i: int| 0 <= i < s.len() ==> hex_val(#[trigger] s[i]) >= 0
}

/// The number a hex string denotes, 0 when it is empty or holds a non-hex character.
pub open spec fn hex_or_zero(s: Seq<char>) -> int {
    if s.len() > 0 && all_hex(s) {
        hex_number(s)
    } else {
        0
    }
}

proof fn lemma_hex_number_bound(s: Seq<char>)
    requires
        all_hex(s),
    ensures
        0 <= hex_number(s) < pow16(s.len()),
    decreases s.len(),
{
    if s.len() > 0 {
        lemma_hex_number_bound(s.drop_last());
        assert(hex_val(s.last()) >= 0);
    }
}

/// Sixteen to the power `n`.
pub open spec fn pow16(n: nat) -> int
    decreases n,
{
    if n == 0 {
        1
    } else {
        16 * pow16((n - 1) as nat)
    }
}

fn hex_digit_value(c: char) -> (r: i32)
    ensures
        r == hex_val(c),
{
    if '0' <= c && c <= '9' {
        (c as u32 - '0' as u32) as i32
    } else if 'a' <= c && c <= 'f' {
        (c as u32 - 'a' as u32 + 10) as i32
    } else if 'A' <= c && c <= 'F' {
        (c as u32 - 'A' as u32 + 10) as i32
    } else {
        -1
    }
}

/// The number a hex string of at most eight characters denotes, 0 when it is not one.
fn parse_hex_or_zero(s: &str) -> (r: u64)
    requires
        s@.len() <= 8,
    ensures
        r == hex_or_zero(s@),
        r < 0x1_0000_0000,
{
    let cs = str_chars(s);
    if cs.len() == 0 {
        return 0;
    }
    let mut v: u64 = 0;
    let mut i: usize = 0;
    proof {
        reveal_with_fuel(pow16, 9);
    }
    assert(pow16(8) == 0x1_0000_0000);
    while i < cs.len()
        invariant
            cs@ == s@,
            cs@.len() <= 8,
            i <= cs@.len(),
            all_hex(cs@.take(i as int)),
            v == hex_number(cs@.take(i as int)),
            pow16(8) == 0x1_0000_0000,
        decreases cs.len() - i,
    {
        let d = hex_digit_value(cs[i]);
        if d < 0 {
            assert(!all_hex(s@));
            return 0;
        }
        assert(cs@.take(i + 1).drop_last() =~= cs@.take(i as int));
        proof {
            lemma_hex_number_bound(cs@.take(i as int));
            lemma_pow16_mono(i as nat, 7);
        }
        v = v * 16 + d as u64;
        assert(all_hex(cs@.take(i + 1))) by {
            assert forall|j: int| 0 <= j < i + 1 implies hex_val(#[trigger] cs@.take(i + 1)[j]) >= 0 by {
                if j < i {
                    assert(cs@.take(i + 1)[j] == cs@.take(i as int)[j]);
                }
            }
        }
        i += 1;
    }
    assert(cs@.take(cs@.len() as int) =~= cs@);
    proof {
        lemma_hex_number_bound(cs@);
        lemma_pow16_mono(cs@.len(), 8);
    }
    v
}

proof fn lemma_pow16_mono(a: nat, b: nat)
    requires
        a <= b,
    ensures
        1 <= pow16(a) <= pow16(b),
    decreases b,
{
    if b > a {
        lemma_pow16_mono(a, (b - 1) as nat);
    } else {
        lemma_pow16_pos(a);
    }
}

proof fn lemma_pow16_pos(n: nat)
    ensures
        pow16(n) >= 1,
    decreases n,
{
    if n > 0 {
        lemma_pow16_pos((n - 1) as nat);
    }
}

/// One name out of a list by the seed, or a fixed name when the list is empty.
pub open spec fn pick_spec(seed: nat, list: Seq<String>) -> Seq<char> {
    if list.len() == 0 {
        "Синтетик"@
    } else {
        list[(seed % list.len()) as int]@
    }
}

/// Synthetic masker: realistic values, fixed by the canonical value and the secret.
pub struct SyntheticMasker {
    pub secret: Vec<u8>,
    pub first_names: Vec<String>,
    pub surnames: Vec<String>,
}

impl SyntheticMasker {
    /// The seed of value `c` of type `t`: the number its keyed token denotes.
    pub open spec fn seed_spec(&self, t: Seq<char>, c: Seq<char>) -> nat {
        hex_or_zero(hmac_token_spec(self.secret@, "synth|"@ + t + "|"@ + c)) as nat
    }

    /// The synthetic value for value `c` of type `t`.
    pub open spec fn synthetic_text(&self, t: Seq<char>, c: Seq<char>) -> Seq<char> {
        let seed = self.seed_spec(t, c);
        if t == PdType::FIO@ {
            pick_spec(seed / 256, self.surnames@) + " "@ + pick_spec(seed, self.first_names@)
        } else if t == PdType::CARD_NUMBER@ {
            group4(card_digits(seed))
        } else if t == PdType::PHONE@ {
            phone_spec(seed)
        } else if t == PdType::INN@ {
            inn_digits(seed)
        } else {
            "synth_"@ + hmac_token_spec(self.secret@, "synth|"@ + c)
        }
    }

    /// What synthetic masking gives for value `c` of type `t` numbered `n`.
    pub open spec fn out_spec(&self, t: Seq<char>, c: Seq<char>, n: u32) -> (Seq<char>, Option<Seq<char>>) {
        (self.synthetic_text(t, c), Some(t + "_s"@ + decimal_spec(n as nat)))
    }

    fn seed(&self, entity: &Entity) -> (r: u64)
        ensures
            r == self.seed_spec(entity.pd_type@, entity@.canonical),
            r < 0x1_0000_0000,
    {
        let canonical = entity.canonical.expose();
        let mut data = String::new();
        push_str(&mut data, "synth|");
        push_str(&mut data, entity.pd_type.as_str());
        push_str(&mut data, "|");
        push_str(&mut data, canonical.as_str());
        let token = hmac_token(self.secret.as_slice(), data.as_str());
        parse_hex_or_zero(token.as_str())
    }

    fn pick(&self, seed: u64, list: &Vec<String>) -> (r: String)
        requires
            seed < 0x1_0000_0000,
        ensures
            r@ == pick_spec(seed as nat, list@),
    {
        if list.len() == 0 {
            return "Синтетик".to_string();
        }
        let i = (seed as usize) % list.len();
        list[i].clone()
    }
}

impl Masker for SyntheticMasker {
    fn kind(&self) -> (k: MaskKind)
        ensures
            k == MaskKind::Synthetic,
    {
        MaskKind::Synthetic
    }

    fn mask(&self, entity: &Entity, original: &str, state: &mut MaskState) -> (out: MaskOutput)
        ensures
            out@ == self.out_spec(entity.pd_type@, entity@.canonical, number_of_entity(*old(state), *entity)),
            numbered(*old(state), *final(state), entity.pd_type@, entity@.canonical),
    {
        let seed = self.seed(entity);
        let replacement = if entity.pd_type.is(PdType::FIO) {
            let name = self.pick(seed, &self.first_names);
            let surname = self.pick(seed / 256, &self.surnames);
            let mut s = String::new();
            push_str(&mut s, surname.as_str());
            push_str(&mut s, " ");
            push_str(&mut s, name.as_str());
            s
        } else if entity.pd_type.is(PdType::CARD_NUMBER) {
            synthetic_card(seed)
        } else if entity.pd_type.is(PdType::PHONE) {
            synthetic_phone(seed)
        } else if entity.pd_type.is(PdType::INN) {
            synthetic_inn(seed)
        } else {
            let canonical = entity.canonical.expose();
            let mut data = String::new();
            push_str(&mut data, "synth|");
            push_str(&mut data, canonical.as_str());
            let token = hmac_token(self.secret.as_slice(), data.as_str());
            let mut s = String::new();
            push_str(&mut s, "synth_");
            push_str(&mut s, token.as_str());
            s
        };
        let canonical = entity.canonical.expose().clone();
        let num = state.next_number(&entity.pd_type, canonical.as_str());
        let mut key = String::new();
        push_str(&mut key, entity.pd_type.as_str());
        push_str(&mut key, "_s");
        push_decimal(&mut key, num as u64);
        MaskOutput { replacement, key: Some(key) }
    }

    fn reversible(&self) -> (r: bool)
        ensures
            r,
    {
        true
    }
}

/// One masker of each kind.
pub struct Maskers {
    pub placeholder: PlaceholderMasker,
    pub redact: RedactMasker,
    pub partial: PartialMasker,
    pub token: TokenMasker,
    pub hash: HashMasker,
    pub synthetic: SyntheticMasker,
}

/// Masks of this kind take a number in the session.
pub open spec fn numbers(k: MaskKind) -> bool {
    k == MaskKind::Placeholder || k == MaskKind::Partial || k == MaskKind::Synthetic
}

impl Maskers {
    /// What the masker of kind `k` gives for value `c` (written `o`) of type `t`, numbered `n`.
    pub open spec fn out_spec(&self, k: MaskKind, t: Seq<char>, c: Seq<char>, o: Seq<char>, n: u32) -> (
        Seq<char>,
        Option<Seq<char>>,
    ) {
        match k {
            MaskKind::Placeholder => self.placeholder.out_spec(t, n),
            MaskKind::Redact => (stars(o.len()), None),
            MaskKind::Partial => partial_out(self.partial.keep_last, o, t, n),
            MaskKind::Token => (token_text(self.token.secret@, t, c), Some(token_text(self.token.secret@, t, c))),
            MaskKind::Hash => (hash_text(c), None),
            MaskKind::Synthetic => self.synthetic.out_spec(t, c, n),
        }
    }

    /// Masks a value with the masker of kind `k`.
    pub fn mask_with(&self, k: MaskKind, entity: &Entity, original: &str, state: &mut MaskState) -> (out: MaskOutput)
        requires
            old(state).wf(),
            old(state).counter(entity.pd_type@) < u32::MAX,
        ensures
            out@ == self.out_spec(k, entity.pd_type@, entity@.canonical, original@, number_of_entity(*old(state), *entity)),
            numbers(k) ==> numbered(*old(state), *final(state), entity.pd_type@, entity@.canonical),
            !numbers(k) ==> *final(state) == *old(state),
    {
        match k {
            MaskKind::Placeholder => self.placeholder.mask(entity, original, state),
            MaskKind::Redact => self.redact.mask(entity, original, state),
            MaskKind::Partial => self.partial.mask(entity, original, state),
            MaskKind::Token => self.token.mask(entity, original, state),
            MaskKind::Hash => self.hash.mask(entity, original, state),
            MaskKind::Synthetic => self.synthetic.mask(entity, original, state),
        }
    }
}

/// Partial masking keeps the length and the last `keep_last` characters (all of them when the
/// value is shorter); before those, every ASCII digit becomes `*` and every other character
/// stays.
pub proof fn law_partial_text(s: Seq<char>, keep_last: usize)
    ensures
        ({
            let r = partial_text(s, keep_last);
            let k: int = if keep_last < s.len() { keep_last as int } else { s.len() as int };
            &&& r.len() == s.len()
            &&& forall|i: int| s.len() - k <= i < s.len() ==> #[trigger] r[i] == s[i]
            &&& forall|i: int| 0 <= i < s.len() - k ==> #[trigger] r[i] == if '0' <= s[i] <= '9' {
                '*'
            } else {
                s[i]
            }
        }),
{
}

} // verus!
