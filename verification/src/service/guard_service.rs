//! The decisions of the service facade: what a masking call returns, how the mapping of a
//! session is built, and which way a keyed request goes (mask, repeat, restore).
use vstd::prelude::*;
use vstd::utf8::{decode_utf8, encode_utf8, encode_utf8_decode_utf8};

use crate::domain::errors::VaultError;
use crate::domain::traits::{EffectivePolicy, EncryptedMapping, NerOnFailure};
use crate::service::demask::{demask, demask_restored, demask_text, demask_unresolved, Mapping, MappingEntry};
use crate::service::pipeline::{record_view, MaskLineResult, MaskedEntityInfo, RecordView};
use crate::infra::crypto::{
    base64_decode, base64_decoded, base64_encode, base64_encoded, decode_error_text, decrypt_mapping, decrypted,
    encrypt_mapping, gcm_limit, MasterKey,
};
use crate::textops::{push_str, seq_starts_with, str_eq, str_slice};

verus! {

/// Result of masking a text.
pub struct MaskResult {
    pub text: String,
    pub session_id: String,
    pub entities: Vec<MaskedEntityInfo>,
    pub degraded: bool,
    pub mask_context: Option<String>,
    pub mapping: Mapping,
}

/// How a keyed request was served.
pub enum TzOutcome {
    /// Forward step: the key was new, the text is masked.
    Masked(MaskResult),
    /// Reverse step: the original text is given back.
    Restored { text: String, restored: usize },
    /// A retry of the forward step with the same key: the same masked text again.
    Repeated(String),
}

impl TzOutcome {
    /// The text the outcome answers with.
    pub fn text(&self) -> (r: &str)
        ensures
            r@ == match self {
                TzOutcome::Masked(m) => m.text@,
                TzOutcome::Restored { text, .. } => text@,
                TzOutcome::Repeated(text) => text@,
            },
    {
        match self {
            TzOutcome::Masked(m) => m.text.as_str(),
            TzOutcome::Restored { text, .. } => text.as_str(),
            TzOutcome::Repeated(text) => text.as_str(),
        }
    }

    /// The name of the step.
    pub fn step(&self) -> (r: &'static str)
        ensures
            r@ == match self {
                TzOutcome::Masked(_) => "mask"@,
                TzOutcome::Restored { .. } => "demask"@,
                TzOutcome::Repeated(_) => "mask_retry"@,
            },
    {
        match self {
            TzOutcome::Masked(_) => "mask",
            TzOutcome::Restored { .. } => "demask",
            TzOutcome::Repeated(_) => "mask_retry",
        }
    }
}

/// Result of demasking a text.
pub struct DemaskResult {
    pub text: String,
    pub restored: usize,
    pub unresolved: usize,
    pub degraded: bool,
}

// ---------------------------------------------------------------- the mapping of a session

/// The characters between two byte offsets.
pub open spec fn slice_text(b: Seq<u8>, start: int, end: int) -> Seq<char> {
    decode_utf8(b.subrange(start, end))
}

/// The entry a record of a masked line gives: its key (empty when none), type, original
/// text, and masked text when the mask is not empty.
pub open spec fn entry_matches(e: MappingEntry, r: RecordView, original: Seq<u8>, masked: Seq<u8>) -> bool {
    &&& e.key@ == match r.key {
        Some(k) => k,
        None => Seq::<char>::empty(),
    }
    &&& e.pd_type@ == r.pd_type
    &&& e.original@ == slice_text(original, r.original_span.start as int, r.original_span.end as int)
    &&& match e.masked {
        Some(m) => r.masked_start < r.masked_end && m@ == slice_text(masked, r.masked_start, r.masked_end),
        None => !(r.masked_start < r.masked_end),
    }
}

/// The record's spans lie on character boundaries of the original and masked texts.
pub open spec fn record_in(r: RecordView, original: Seq<u8>, masked: Seq<u8>) -> bool {
    &&& r.original_span.start <= r.original_span.end <= original.len()
    &&& vstd::utf8::is_char_boundary(original, r.original_span.start as int)
    &&& vstd::utf8::is_char_boundary(original, r.original_span.end as int)
    &&& 0 <= r.masked_start <= r.masked_end <= masked.len()
    &&& vstd::utf8::is_char_boundary(masked, r.masked_start)
    &&& vstd::utf8::is_char_boundary(masked, r.masked_end)
}

/// The mapping of a masked line: one entry per record, with both texts.
pub fn build_mapping(text: &str, line: &MaskLineResult) -> (m: Mapping)
    requires
        forall|i: int| 0 <= i < line.records@.len() ==> record_in(
            record_view(#[trigger] line.records@[i]),
            encode_utf8(text@),
            encode_utf8(line.text@),
        ),
    ensures
        m.original@ == text@,
        m.masked@ == line.text@,
        m.entries@.len() == line.records@.len(),
        forall|i: int| 0 <= i < m.entries@.len() ==> entry_matches(
            #[trigger] m.entries@[i],
            record_view(line.records@[i]),
            encode_utf8(text@),
            encode_utf8(line.text@),
        ),
{
    let mut entries: Vec<MappingEntry> = Vec::new();
    let mut i: usize = 0;
    while i < line.records.len()
        invariant
            i <= line.records@.len(),
            entries@.len() == i,
            forall|j: int| 0 <= j < line.records@.len() ==> record_in(
                record_view(#[trigger] line.records@[j]),
                encode_utf8(text@),
                encode_utf8(line.text@),
            ),
            forall|j: int| 0 <= j < i ==> entry_matches(
                #[trigger] entries@[j],
                record_view(line.records@[j]),
                encode_utf8(text@),
                encode_utf8(line.text@),
            ),
        decreases line.records.len() - i,
    {
        let r = &line.records[i];
        assert(record_in(record_view(*r), encode_utf8(text@), encode_utf8(line.text@)));
        let orig = str_slice(text, r.original_span.start, r.original_span.end);
        proof {
            encode_utf8_decode_utf8(orig@);
        }
        let masked = if r.masked_span.start < r.masked_span.end {
            let ms = str_slice(line.text.as_str(), r.masked_span.start, r.masked_span.end);
            proof {
                encode_utf8_decode_utf8(ms@);
            }
            Some(ms.to_string())
        } else {
            None
        };
        let key = match &r.key {
            Some(k) => k.clone(),
            None => String::new(),
        };
        entries.push(MappingEntry {
            key,
            pd_type: r.pd_type.as_str().to_string(),
            original: orig.to_string(),
            masked,
        });
        i += 1;
    }
    Mapping { entries, original: text.to_string(), masked: line.text.clone() }
}

/// What a masking call returns once the line is masked: with `dry_run` the text unchanged,
/// the entities found, and an empty mapping; an error when named-entity recognition failed
/// and the policy requires failing; otherwise the masked text and its mapping. The mask
/// context is filled in when the mapping is stored.
pub fn finish_mask(
    policy: &EffectivePolicy,
    text: &str,
    session_id: String,
    line: MaskLineResult,
    dry_run: bool,
) -> (r: Result<MaskResult, VaultError>)
    requires
        forall|i: int| 0 <= i < line.records@.len() ==> record_in(
            record_view(#[trigger] line.records@[i]),
            encode_utf8(text@),
            encode_utf8(line.text@),
        ),
    ensures
        dry_run ==> (r matches Ok(m) && m.text@ == text@ && m.session_id == session_id
            && m.entities == line.entities && m.degraded == line.degraded && m.mask_context is None
            && m.mapping.entries@.len() == 0),
        !dry_run && line.ner_failed && policy.ner_on_failure == NerOnFailure::Fail ==> (r matches Err(
            VaultError::Unavailable(msg),
        ) && msg@ == "NER unavailable and policy requires fail"@),
        !dry_run && !(line.ner_failed && policy.ner_on_failure == NerOnFailure::Fail) ==> (r matches Ok(m)
            && m.text@ == line.text@ && m.session_id == session_id && m.entities == line.entities
            && m.degraded == line.degraded && m.mask_context is None && m.mapping.original@ == text@
            && m.mapping.masked@ == line.text@ && m.mapping.entries@.len() == line.records@.len()
            && forall|i: int| 0 <= i < m.mapping.entries@.len() ==> entry_matches(
                #[trigger] m.mapping.entries@[i],
                record_view(line.records@[i]),
                encode_utf8(text@),
                encode_utf8(line.text@),
            )),
{
    if dry_run {
        let MaskLineResult { text: _, entities, records: _, degraded, ner_failed: _ } = line;
        return Ok(MaskResult {
            text: text.to_string(),
            session_id,
            entities,
            degraded,
            mask_context: None,
            mapping: Mapping::default(),
        });
    }
    let fail = match policy.ner_on_failure {
        NerOnFailure::Fail => true,
        NerOnFailure::Degrade => false,
    };
    if line.ner_failed && fail {
        return Err(VaultError::Unavailable("NER unavailable and policy requires fail".to_string()));
    }
    let mapping = build_mapping(text, &line);
    let MaskLineResult { text: masked, entities, records: _, degraded, ner_failed: _ } = line;
    Ok(MaskResult { text: masked, session_id, entities, degraded, mask_context: None, mapping })
}

// ---------------------------------------------------------------- demasking

/// Demasking is refused, as unavailable, when the policy does not allow it.
pub fn demask_permitted(policy: &EffectivePolicy) -> (r: Result<(), VaultError>)
    ensures
        policy.demask ==> r is Ok,
        !policy.demask ==> (r matches Err(VaultError::Unavailable(m)) && m@ == "demask disabled for this system"@),
{
    if policy.demask {
        Ok(())
    } else {
        Err(VaultError::Unavailable("demask disabled for this system".to_string()))
    }
}

// ---------------------------------------------------------------- keyed requests

/// The answer to a keyed request, as a value.
pub enum TzAnswer {
    /// The same masked text again.
    Repeated(Seq<char>),
    /// A text given back, and how many values were restored.
    Restored(Seq<char>, int),
}

/// The answer of an outcome (none for a fresh masking).
pub open spec fn tz_view(o: TzOutcome) -> Option<TzAnswer> {
    match o {
        TzOutcome::Repeated(t) => Some(TzAnswer::Repeated(t@)),
        TzOutcome::Restored { text, restored } => Some(TzAnswer::Restored(text@, restored as int)),
        TzOutcome::Masked(_) => None,
    }
}

/// The answer to a keyed request from a stored mapping: the original text again is answered
/// with the masked text; the masked text with the original, every entry counted as restored;
/// any other text is demasked by its placeholders (the count saturating at `usize::MAX`).
pub open spec fn tz_answer(m: Mapping, payload: Seq<char>) -> TzAnswer {
    if payload == m.original@ {
        TzAnswer::Repeated(m.masked@)
    } else if payload == m.masked@ {
        TzAnswer::Restored(m.original@, m.entries@.len() as int)
    } else {
        TzAnswer::Restored(
            demask_text(payload, m.entries@),
            if demask_restored(payload, m.entries@) < usize::MAX {
                demask_restored(payload, m.entries@)
            } else {
                usize::MAX as int
            },
        )
    }
}

/// Keyed requests served from the mapping that masking a text stored (its original and its
/// masked text, as `finish_mask` records them): the text again gets the same masked text,
/// and the masked text, when masking changed it, gets the original back with every entry
/// counted as restored.
pub proof fn law_keyed_requests_after_masking(m: Mapping)
    ensures
        tz_answer(m, m.original@) == TzAnswer::Repeated(m.masked@),
        m.masked@ != m.original@ ==> tz_answer(m, m.masked@) == TzAnswer::Restored(m.original@, m.entries@.len() as int),
{
}

/// Serves a keyed request from the stored mapping, when demasking is enabled and one is
/// stored: the original text again is a retry of the forward step (answered with the same
/// masked text), the masked text is the reverse step (answered with the original), and any
/// other text is demasked by its placeholders. `None` means the text is to be masked.
pub fn decide_tz(demask_enabled: bool, stored: Option<Mapping>, payload: &str) -> (r: Option<TzOutcome>)
    ensures
        !demask_enabled ==> r is None,
        stored is None ==> r is None,
        demask_enabled && stored is Some ==> (r matches Some(o) && tz_view(o) == Some(tz_answer(stored->0, payload@))),
{
    if !demask_enabled {
        return None;
    }
    match stored {
        None => None,
        Some(mapping) => {
            if str_eq(payload, mapping.original.as_str()) {
                return Some(TzOutcome::Repeated(mapping.masked));
            }
            if str_eq(payload, mapping.masked.as_str()) {
                let restored = mapping.entries.len();
                return Some(TzOutcome::Restored { text: mapping.original, restored });
            }
            let res = demask(payload, &mapping);
            Some(TzOutcome::Restored { text: res.text, restored: res.restored })
        },
    }
}

/// Demasks a text with the mapping of its session.
pub fn demask_with_mapping(text: &str, mapping: &Mapping) -> (r: DemaskResult)
    ensures
        r.text@ == demask_text(text@, mapping.entries@),
        r.restored == if demask_restored(text@, mapping.entries@) < usize::MAX {
            demask_restored(text@, mapping.entries@)
        } else {
            usize::MAX as int
        },
        r.unresolved == demask_unresolved(text@, mapping.entries@),
        !r.degraded,
{
    let res = demask(text, mapping);
    DemaskResult { text: res.text, restored: res.restored, unresolved: res.unresolved, degraded: false }
}

// ---------------------------------------------------------------- stateless context

/// The stateless mask context: the nonce followed by the ciphertext.
pub fn join_context(enc: &EncryptedMapping) -> (r: Vec<u8>)
    ensures
        r@ == enc.nonce@ + enc.ciphertext@,
{
    let mut out: Vec<u8> = Vec::new();
    let mut i: usize = 0;
    while i < enc.nonce.len()
        invariant
            i <= enc.nonce@.len(),
            out@ == enc.nonce@.take(i as int),
        decreases enc.nonce.len() - i,
    {
        out.push(enc.nonce[i]);
        assert(out@ =~= enc.nonce@.take(i + 1));
        i += 1;
    }
    let mut j: usize = 0;
    while j < enc.ciphertext.len()
        invariant
            j <= enc.ciphertext@.len(),
            out@ == enc.nonce@ + enc.ciphertext@.take(j as int),
        decreases enc.ciphertext.len() - j,
    {
        out.push(enc.ciphertext[j]);
        assert(out@ =~= enc.nonce@ + enc.ciphertext@.take(j + 1));
        j += 1;
    }
    assert(enc.ciphertext@.take(enc.ciphertext@.len() as int) =~= enc.ciphertext@);
    out
}

/// Splits a stateless mask context into its 12-byte nonce and the ciphertext.
pub fn split_context(bytes: &[u8]) -> (r: Result<EncryptedMapping, VaultError>)
    ensures
        bytes@.len() < 12 ==> (r matches Err(VaultError::Crypto(msg)) && msg@ == "mask_context too short"@),
        bytes@.len() >= 12 ==> (r matches Ok(e) && e.nonce@ == bytes@.take(12) && e.ciphertext@
            == bytes@.skip(12)),
{
    if bytes.len() < 12 {
        return Err(VaultError::Crypto("mask_context too short".to_string()));
    }
    let mut nonce: Vec<u8> = Vec::new();
    let mut i: usize = 0;
    while i < 12
        invariant
            bytes@.len() >= 12,
            i <= 12,
            nonce@ == bytes@.take(i as int),
        decreases 12 - i,
    {
        nonce.push(bytes[i]);
        assert(nonce@ =~= bytes@.take(i + 1));
        i += 1;
    }
    let mut ct: Vec<u8> = Vec::new();
    let mut j: usize = 12;
    while j < bytes.len()
        invariant
            12 <= j <= bytes@.len(),
            ct@ == bytes@.subrange(12, j as int),
        decreases bytes.len() - j,
    {
        ct.push(bytes[j]);
        assert(ct@ =~= bytes@.subrange(12, j + 1));
        j += 1;
    }
    assert(ct@ =~= bytes@.skip(12));
    Ok(EncryptedMapping { nonce, ciphertext: ct })
}

/// Splitting a joined context gives back the nonce and ciphertext, when the nonce has its
/// 12 bytes.
pub proof fn law_context_roundtrip(nonce: Seq<u8>, ciphertext: Seq<u8>)
    requires
        nonce.len() == 12,
    ensures
        (nonce + ciphertext).take(12) == nonce,
        (nonce + ciphertext).skip(12) == ciphertext,
{
    assert((nonce + ciphertext).take(12) =~= nonce);
    assert((nonce + ciphertext).skip(12) =~= ciphertext);
}


/// The mask context of a stateless vault: the base64 text of the nonce followed by the
/// ciphertext.
pub fn encode_context(enc: &EncryptedMapping) -> (r: String)
    ensures
        r@ == base64_encoded(enc.nonce@ + enc.ciphertext@),
        base64_decoded(r@) == Some(enc.nonce@ + enc.ciphertext@),
{
    let bytes = join_context(enc);
    base64_encode(bytes.as_slice())
}

/// Reads a stateless mask context back: base64, then a 12-byte nonce and the ciphertext.
pub fn decode_context(ctx: &str) -> (r: Result<EncryptedMapping, VaultError>)
    ensures
        match base64_decoded(ctx@) {
            None => r matches Err(VaultError::Crypto(m)) && seq_starts_with(m@, "bad mask_context: "@),
            Some(b) => if b.len() < 12 {
                r matches Err(VaultError::Crypto(m)) && m@ == "mask_context too short"@
            } else {
                r matches Ok(e) && e.nonce@ == b.take(12) && e.ciphertext@ == b.skip(12)
            },
        },
{
    match base64_decode(ctx) {
        Ok(bytes) => split_context(bytes.as_slice()),
        Err(e) => {
            let mut m = String::new();
            push_str(&mut m, "bad mask_context: ");
            push_str(&mut m, decode_error_text(&e).as_str());
            assert(m@.subrange(0, "bad mask_context: "@.len() as int) =~= "bad mask_context: "@);
            Err(VaultError::Crypto(m))
        },
    }
}

/// Encrypts the serialized mapping of a session into a stateless mask context.
pub fn seal_context(master: &MasterKey, session_id: &str, system_id: &str, plaintext: &[u8]) -> (r: Result<String, VaultError>)
    ensures
        r is Ok == (plaintext@.len() <= gcm_limit() && encode_utf8(system_id@).len() <= gcm_limit()),
        r matches Ok(ctx) ==> opened_context(master@, session_id@, system_id@, ctx@) == Ok::<Seq<u8>, ()>(plaintext@),
{
    let enc = encrypt_mapping(master, session_id, system_id, plaintext)?;
    let ctx = encode_context(&enc);
    proof {
        law_context_roundtrip(enc.nonce@, enc.ciphertext@);
    }
    Ok(ctx)
}

/// What reading a stateless mask context gives: the plaintext, or an error (`Err(())`
/// stands for any of them: bad base64, too short, wrong key or tampered).
pub open spec fn opened_context(master: Seq<u8>, session_id: Seq<char>, system_id: Seq<char>, ctx: Seq<char>) -> Result<Seq<u8>, ()> {
    match base64_decoded(ctx) {
        None => Err(()),
        Some(b) => if b.len() < 12 {
            Err(())
        } else {
            match decrypted(master, session_id, system_id, b.take(12), b.skip(12)) {
                Some(p) => Ok(p),
                None => Err(()),
            }
        },
    }
}

/// Decrypts the serialized mapping held in a stateless mask context.
pub fn open_context(master: &MasterKey, session_id: &str, system_id: &str, ctx: &str) -> (r: Result<Vec<u8>, VaultError>)
    ensures
        match opened_context(master@, session_id@, system_id@, ctx@) {
            Ok(p) => r matches Ok(v) && v@ == p,
            Err(_) => r matches Err(VaultError::Crypto(_)),
        },
{
    let enc = decode_context(ctx)?;
    decrypt_mapping(master, session_id, system_id, &enc)
}

} // verus!
