//! The seal: a signed record of a window's attributions, bound to the hardware
//! and to the total energy.

use ed25519_dalek::{SigningKey, VerifyingKey};
use vstd::prelude::*;

use crate::clock::unix_now;
use crate::hardware::{
    identity_document, identity_fields, labels_tell_sources_apart, lemma_identity_keys_differ,
    HardwareIdentity, IdentityModel,
};
use crate::json::{
    array_value, canonical, canonical_arrays_agree, canonical_json, canonical_keys_ascend,
    canonical_loses_nothing, canonical_objects_agree, field, field_models, has_fields, holds_field,
    is_compact, is_text_of_only, json_text, keys_ascend, keys_differ, number, number_value,
    object_value, same_up_to_field_order, text_value, value_model, value_models, FieldModel,
    JsonField, JsonModel, NumberModel,
};
use crate::provider::{
    attribution_models, only_equal_attributions_tie, AttributionModel, PidEnergyAttribution,
};
use crate::signing::{
    accepts, check_signature, is_public_key, key_from_bytes, key_to_bytes, public_half,
    public_key_bytes, same_bytes, sign_message, signature_array, signature_of, signature_vec,
    verifying_key, SealError, SIGNATURE_LENGTH,
};
use crate::sorting::{
    permutations_map_to_permutations, sort_stably, stable_sorted, stable_sorted_commutes,
    stable_sorted_ignores_input_order, stable_sorted_is_an_ordered_permutation, ties, Ranked,
};
use crate::text::text_le;

verus! {

/// How often a fresh seal is published, in seconds.
pub const AMALGAFY_SEAL_INTERVAL_SECS: u64 = 60;

/// What the signature of a seal covers.
#[derive(Debug, Clone, PartialEq, Eq)]
pub struct AmalgafySealPayload {
    pub manifest_version: u32,
    pub hardware_serial: String,
    pub sealed_at_unix_ns: u64,
    pub total_micro_joules: u64,
    pub attributions: Vec<PidEnergyAttribution>,
    /// The identity of the machine, where the seal is bound to one.
    pub hardware_identity: Option<HardwareIdentity>,
}

/// A payload as a plain value.
#[verifier::ext_equal]
pub struct PayloadModel {
    pub manifest_version: u32,
    pub hardware_serial: Seq<char>,
    pub sealed_at_unix_ns: u64,
    pub total_micro_joules: u64,
    pub attributions: Seq<AttributionModel>,
    pub hardware_identity: Option<IdentityModel>,
}

/// An identity as a plain value, where it is there.
pub open spec fn optional_identity(identity: Option<HardwareIdentity>) -> Option<IdentityModel> {
    match identity {
        Some(identity) => Some(identity@),
        None => None,
    }
}

impl View for AmalgafySealPayload {
    type V = PayloadModel;

    open spec fn view(&self) -> PayloadModel {
        PayloadModel {
            manifest_version: self.manifest_version,
            hardware_serial: self.hardware_serial@,
            sealed_at_unix_ns: self.sealed_at_unix_ns,
            total_micro_joules: self.total_micro_joules,
            attributions: attribution_models(self.attributions@),
            hardware_identity: optional_identity(self.hardware_identity),
        }
    }
}

/// The fields of an encoded attribution.
pub open spec fn attribution_fields(attribution: AttributionModel) -> Seq<FieldModel> {
    seq![
        FieldModel { key: "pid"@, value: number(attribution.pid as int) },
        FieldModel { key: "window_start_ns"@, value: number(attribution.window_start_ns as int) },
        FieldModel { key: "window_end_ns"@, value: number(attribution.window_end_ns as int) },
        FieldModel { key: "burst_power_uw"@, value: number(attribution.burst_power_uw as int) },
        FieldModel {
            key: "attributed_energy_uj"@,
            value: number(attribution.attributed_energy_uj as int),
        },
        FieldModel {
            key: "hardware_signature"@,
            value: JsonModel::Text(attribution.hardware_signature),
        },
    ]
}

/// An attribution as a JSON document.
pub open spec fn attribution_document(attribution: AttributionModel) -> JsonModel {
    JsonModel::Object(attribution_fields(attribution))
}

/// Attributions as JSON documents.
pub open spec fn attribution_documents(attributions: Seq<AttributionModel>) -> Seq<JsonModel> {
    attributions.map_values(|attribution: AttributionModel| attribution_document(attribution))
}

/// The fields of an encoded payload. An identity has a field where it is there.
pub open spec fn payload_fields(payload: PayloadModel) -> Seq<FieldModel> {
    let always = seq![
        FieldModel { key: "manifest_version"@, value: number(payload.manifest_version as int) },
        FieldModel { key: "hardware_serial"@, value: JsonModel::Text(payload.hardware_serial) },
        FieldModel { key: "sealed_at_unix_ns"@, value: number(payload.sealed_at_unix_ns as int) },
        FieldModel { key: "total_micro_joules"@, value: number(payload.total_micro_joules as int) },
        FieldModel {
            key: "attributions"@,
            value: JsonModel::Array(attribution_documents(payload.attributions)),
        },
    ];
    match payload.hardware_identity {
        Some(identity) => always.push(
            FieldModel { key: "hardware_identity"@, value: identity_document(identity) },
        ),
        None => always,
    }
}

/// A payload as a JSON document.
pub open spec fn payload_document(payload: PayloadModel) -> JsonModel {
    JsonModel::Object(payload_fields(payload))
}

/// The bytes that a seal signs.
pub open spec fn canonical_text(payload: PayloadModel) -> Seq<u8> {
    json_text(canonical(payload_document(payload)))
}

/// Whether `text` encodes `payload` and no other payload.
pub open spec fn seals_only(text: Seq<u8>, payload: PayloadModel) -> bool {
    &&& text == canonical_text(payload)
    &&& forall|other: PayloadModel| #[trigger] canonical_text(other) == text ==> other == payload
}

proof fn lemma_attribution_keys_differ(attribution: AttributionModel)
    ensures
        keys_differ(attribution_fields(attribution)),
{
    reveal_strlit("pid");
    reveal_strlit("window_start_ns");
    reveal_strlit("window_end_ns");
    reveal_strlit("burst_power_uw");
    reveal_strlit("attributed_energy_uj");
    reveal_strlit("hardware_signature");
    assert("pid"@.len() == 3 && "window_start_ns"@.len() == 15 && "window_end_ns"@.len() == 13
        && "burst_power_uw"@.len() == 14 && "attributed_energy_uj"@.len() == 20
        && "hardware_signature"@.len() == 18);
}

proof fn lemma_payload_keys_differ(payload: PayloadModel)
    ensures
        keys_differ(payload_fields(payload)),
{
    reveal_strlit("manifest_version");
    reveal_strlit("hardware_serial");
    reveal_strlit("sealed_at_unix_ns");
    reveal_strlit("total_micro_joules");
    reveal_strlit("attributions");
    reveal_strlit("hardware_identity");
    assert("manifest_version"@.len() == 16 && "hardware_serial"@.len() == 15
        && "sealed_at_unix_ns"@.len() == 17 && "total_micro_joules"@.len() == 18
        && "attributions"@.len() == 12 && "hardware_identity"@.len() == 17);
    assert("sealed_at_unix_ns"@[0] != "hardware_identity"@[0]);
}

/// Different attributions have different encodings.
pub proof fn attribution_encoding_is_faithful(first: AttributionModel, second: AttributionModel)
    requires
        canonical(attribution_document(first)) == canonical(attribution_document(second)),
    ensures
        first == second,
{
    let (a, b) = (attribution_fields(first), attribution_fields(second));
    lemma_attribution_keys_differ(first);
    lemma_attribution_keys_differ(second);
    canonical_objects_agree(a, b);
    assert(canonical(a[0].value) == canonical(b[0].value));
    assert(canonical(a[1].value) == canonical(b[1].value));
    assert(canonical(a[2].value) == canonical(b[2].value));
    assert(canonical(a[3].value) == canonical(b[3].value));
    assert(canonical(a[4].value) == canonical(b[4].value));
    assert(canonical(a[5].value) == canonical(b[5].value));
}

/// Different identities have different encodings.
pub proof fn identity_encoding_is_faithful(first: IdentityModel, second: IdentityModel)
    requires
        canonical(identity_document(first)) == canonical(identity_document(second)),
    ensures
        first == second,
{
    let (a, b) = (identity_fields(first), identity_fields(second));
    lemma_identity_keys_differ(first);
    lemma_identity_keys_differ(second);
    canonical_objects_agree(a, b);
    assert(canonical(a[0].value) == canonical(b[0].value));
    assert(canonical(a[1].value) == canonical(b[1].value));
    labels_tell_sources_apart(first.source, second.source);
}

/// Different payloads have different encodings: no field of a payload can
/// change without a change in what is signed.
pub proof fn payload_encoding_is_faithful(first: PayloadModel, second: PayloadModel)
    requires
        canonical(payload_document(first)) == canonical(payload_document(second)),
    ensures
        first == second,
{
    let (a, b) = (payload_fields(first), payload_fields(second));
    lemma_payload_keys_differ(first);
    lemma_payload_keys_differ(second);
    canonical_objects_agree(a, b);
    assert(canonical(a[0].value) == canonical(b[0].value));
    assert(canonical(a[1].value) == canonical(b[1].value));
    assert(canonical(a[2].value) == canonical(b[2].value));
    assert(canonical(a[3].value) == canonical(b[3].value));
    assert(canonical(a[4].value) == canonical(b[4].value));
    let (s, t) = (
        attribution_documents(first.attributions),
        attribution_documents(second.attributions),
    );
    canonical_arrays_agree(s, t);
    assert forall|i: int| 0 <= i < first.attributions.len() implies first.attributions[i]
        == second.attributions[i] by {
        assert(canonical(s[i]) == canonical(t[i]));
        attribution_encoding_is_faithful(first.attributions[i], second.attributions[i]);
    }
    assert(first.attributions =~= second.attributions);
    if first.hardware_identity is Some {
        assert(second.hardware_identity is Some);
        assert(canonical(a[5].value) == canonical(b[5].value));
        identity_encoding_is_faithful(first.hardware_identity->0, second.hardware_identity->0);
    } else {
        assert(second.hardware_identity is None);
    }
}

fn attribution_json(attribution: &PidEnergyAttribution) -> (document: serde_json::Value)
    ensures
        value_model(document) == attribution_document(attribution@),
{
    let fields = vec![
        field("pid", number_value(attribution.pid as u64)),
        field("window_start_ns", number_value(attribution.window_start_ns)),
        field("window_end_ns", number_value(attribution.window_end_ns)),
        field("burst_power_uw", number_value(attribution.burst_power_uw)),
        field("attributed_energy_uj", number_value(attribution.attributed_energy_uj)),
        field("hardware_signature", text_value(attribution.hardware_signature.as_str())),
    ];
    proof {
        lemma_attribution_keys_differ(attribution@);
        assert(field_models(fields@) =~= attribution_fields(attribution@));
    }
    object_value(fields)
}

fn attributions_json(attributions: &Vec<PidEnergyAttribution>) -> (document: serde_json::Value)
    ensures
        value_model(document) == JsonModel::Array(
            attribution_documents(attribution_models(attributions@)),
        ),
{
    let ghost documents = attribution_documents(attribution_models(attributions@));
    let mut items: Vec<serde_json::Value> = Vec::with_capacity(attributions.len());
    let mut i: usize = 0;
    while i < attributions.len()
        invariant
            i <= attributions.len(),
            documents == attribution_documents(attribution_models(attributions@)),
            value_models(items@) == documents.take(i as int),
        decreases attributions.len() - i,
    {
        let ghost before = items@;
        items.push(attribution_json(&attributions[i]));
        assert(value_models(items@) =~= value_models(before).push(documents[i as int]));
        assert(documents.take(i + 1) =~= documents.take(i as int).push(documents[i as int]));
        i += 1;
    }
    assert(documents.take(i as int) =~= documents);
    array_value(items)
}

impl AmalgafySealPayload {
    /// The payload as a JSON document.
    pub fn to_json(&self) -> (document: serde_json::Value)
        ensures
            value_model(document) == payload_document(self@),
    {
        let mut fields: Vec<JsonField> = vec![
            field("manifest_version", number_value(self.manifest_version as u64)),
            field("hardware_serial", text_value(self.hardware_serial.as_str())),
            field("sealed_at_unix_ns", number_value(self.sealed_at_unix_ns)),
            field("total_micro_joules", number_value(self.total_micro_joules)),
            field("attributions", attributions_json(&self.attributions)),
        ];
        if let Some(identity) = &self.hardware_identity {
            fields.push(field("hardware_identity", identity.to_json()));
        }
        proof {
            lemma_payload_keys_differ(self@);
            assert(field_models(fields@) =~= payload_fields(self@));
        }
        object_value(fields)
    }

    /// The bytes that a seal over the payload signs.
    pub fn canonical_bytes(&self) -> (text: Result<Vec<u8>, SealError>)
        ensures
            text is Ok,
            seals_only(text->Ok_0@, self@),
            is_compact(text->Ok_0@),
    {
        match canonical_json(&self.to_json()) {
            Ok(text) => {
                proof {
                    let document = canonical(payload_document(self@));
                    assert(is_text_of_only(text@, document));
                    assert forall|other: PayloadModel| #[trigger]
                        canonical_text(other) == text@ implies other == self@ by {
                        assert(canonical(payload_document(other)) == document);
                        payload_encoding_is_faithful(other, self@);
                    }
                }
                Ok(text)
            },
            Err(_) => Err(SealError::Encoding),
        }
    }
}

/// A signed record of a window. The signature is detached: it covers the
/// canonical payload.
#[derive(Debug, Clone, PartialEq, Eq)]
pub struct AmalgafySeal {
    pub payload: AmalgafySealPayload,
    pub signing_public_key: [u8; 32],
    pub signature: Vec<u8>,
    pub canonical_payload: Vec<u8>,
}

/// What the verification of a seal finds.
pub open spec fn seal_verdict(seal: AmalgafySeal) -> Result<(), SealError> {
    if !is_public_key(seal.signing_public_key@) {
        Err(SealError::InvalidPublicKey)
    } else if seal.signature@.len() != SIGNATURE_LENGTH {
        Err(SealError::InvalidSignatureLength)
    } else if seal.canonical_payload@ != canonical_text(seal.payload@) {
        Err(SealError::PayloadMismatch)
    } else if !accepts(
        seal.signing_public_key@,
        seal.canonical_payload@,
        seal.signature@,
    ) {
        Err(SealError::SignatureRejected)
    } else {
        Ok(())
    }
}

impl AmalgafySeal {
    /// Verifies the seal: its canonical payload is the encoding of its declared
    /// payload, and its signature is one of the canonical payload.
    pub fn verify(&self) -> (verdict: Result<(), SealError>)
        ensures
            verdict == seal_verdict(*self),
    {
        let key = match key_from_bytes(&self.signing_public_key) {
            Ok(key) => key,
            Err(_) => return Err(SealError::InvalidPublicKey),
        };
        let signature = match signature_array(&self.signature) {
            Some(signature) => signature,
            None => return Err(SealError::InvalidSignatureLength),
        };
        let encoded = match self.payload.canonical_bytes() {
            Ok(encoded) => encoded,
            Err(error) => return Err(error),
        };
        if !same_bytes(&encoded, &self.canonical_payload) {
            return Err(SealError::PayloadMismatch);
        }
        match check_signature(&key, self.canonical_payload.as_slice(), &signature) {
            Ok(()) => Ok(()),
            Err(_) => Err(SealError::SignatureRejected),
        }
    }
}

/// The payload that a signer seals.
pub open spec fn sealed_payload(
    manifest_version: u32,
    attributions: Seq<AttributionModel>,
    hardware_serial: Seq<char>,
    total_micro_joules: u64,
    hardware_identity: Option<IdentityModel>,
    sealed_at_unix_ns: u64,
) -> PayloadModel {
    PayloadModel {
        manifest_version,
        hardware_serial,
        sealed_at_unix_ns,
        total_micro_joules,
        attributions: stable_sorted(attributions),
        hardware_identity,
    }
}

/// Whether `seal` is what the holder of `key` makes of `payload`.
pub open spec fn is_seal_of(seal: AmalgafySeal, key: SigningKey, payload: PayloadModel) -> bool {
    &&& seal.payload@ == payload
    &&& seals_only(seal.canonical_payload@, payload)
    &&& is_compact(seal.canonical_payload@)
    &&& seal.signing_public_key@ == public_key_bytes(public_half(key))
    &&& seal.signature@ == signature_of(key, canonical_text(payload))
    &&& seal_verdict(seal) == Ok::<(), SealError>(())
}

/// The holder of the signing key. The secret half never leaves it.
#[derive(Debug)]
pub struct AmalgafySigner {
    signing_key: SigningKey,
    manifest_version: u32,
}

impl AmalgafySigner {
    /// The signing key.
    pub closed spec fn key(self) -> SigningKey {
        self.signing_key
    }

    /// The manifest version that every seal carries.
    pub closed spec fn version(self) -> u32 {
        self.manifest_version
    }

    /// A signer for manifest version 1.
    pub fn new(signing_key: SigningKey) -> (signer: Self)
        ensures
            signer.key() == signing_key,
            signer.version() == 1,
    {
        AmalgafySigner { signing_key, manifest_version: 1 }
    }

    /// The signer with another manifest version.
    pub fn with_manifest_version(self, version: u32) -> (signer: Self)
        ensures
            signer.key() == self.key(),
            signer.version() == version,
    {
        AmalgafySigner { signing_key: self.signing_key, manifest_version: version }
    }

    /// The public key under which the signer's seals verify.
    pub fn verifying_key(&self) -> (key: VerifyingKey)
        ensures
            key == public_half(self.key()),
    {
        verifying_key(&self.signing_key)
    }

    /// Seals the attributions, the hardware's serial and the total energy, at
    /// the present time.
    pub fn seal(
        &self,
        attributions: Vec<PidEnergyAttribution>,
        hardware_serial: &str,
        total_micro_joules: u64,
    ) -> (seal: Result<AmalgafySeal, SealError>)
        ensures
            seal is Ok,
            is_seal_of(
                seal->Ok_0,
                self.key(),
                sealed_payload(
                    self.version(),
                    attribution_models(attributions@),
                    hardware_serial@,
                    total_micro_joules,
                    None,
                    seal->Ok_0.payload.sealed_at_unix_ns,
                ),
            ),
            seal->Ok_0.payload.attributions@.to_multiset() == attributions@.to_multiset(),
            seal->Ok_0.payload.hardware_serial@ == hardware_serial@,
            seal->Ok_0.payload.total_micro_joules == total_micro_joules,
            seal->Ok_0.payload.manifest_version == self.version(),
            seal->Ok_0.payload.hardware_identity is None,
    {
        self.seal_at(attributions, hardware_serial, total_micro_joules, None, unix_now())
    }

    /// Seals as [`AmalgafySigner::seal`] does, and binds the seal to the
    /// identity of the machine.
    pub fn seal_with_identity(
        &self,
        attributions: Vec<PidEnergyAttribution>,
        hardware_serial: &str,
        total_micro_joules: u64,
        identity: HardwareIdentity,
    ) -> (seal: Result<AmalgafySeal, SealError>)
        ensures
            seal is Ok,
            is_seal_of(
                seal->Ok_0,
                self.key(),
                sealed_payload(
                    self.version(),
                    attribution_models(attributions@),
                    hardware_serial@,
                    total_micro_joules,
                    Some(identity@),
                    seal->Ok_0.payload.sealed_at_unix_ns,
                ),
            ),
            seal->Ok_0.payload.attributions@.to_multiset() == attributions@.to_multiset(),
            seal->Ok_0.payload.hardware_serial@ == hardware_serial@,
            seal->Ok_0.payload.total_micro_joules == total_micro_joules,
            seal->Ok_0.payload.manifest_version == self.version(),
            seal->Ok_0.payload.hardware_identity == Some(identity),
    {
        self.seal_at(attributions, hardware_serial, total_micro_joules, Some(identity), unix_now())
    }

    /// Seals with a given time stamp. The attributions come in the order of
    /// their process, then of their window; those that share both come by power,
    /// energy and hardware.
    pub fn seal_at(
        &self,
        attributions: Vec<PidEnergyAttribution>,
        hardware_serial: &str,
        total_micro_joules: u64,
        hardware_identity: Option<HardwareIdentity>,
        sealed_at_unix_ns: u64,
    ) -> (seal: Result<AmalgafySeal, SealError>)
        ensures
            seal is Ok,
            is_seal_of(
                seal->Ok_0,
                self.key(),
                sealed_payload(
                    self.version(),
                    attribution_models(attributions@),
                    hardware_serial@,
                    total_micro_joules,
                    optional_identity(hardware_identity),
                    sealed_at_unix_ns,
                ),
            ),
            seal->Ok_0.payload.attributions@.to_multiset() == attributions@.to_multiset(),
            seal->Ok_0.payload.hardware_serial@ == hardware_serial@,
            seal->Ok_0.payload.total_micro_joules == total_micro_joules,
            seal->Ok_0.payload.manifest_version == self.version(),
            seal->Ok_0.payload.hardware_identity == hardware_identity,
            seal->Ok_0.payload.sealed_at_unix_ns == sealed_at_unix_ns,
    {
        let ghost given = attributions@;
        let sorted = sort_stably(attributions);
        proof {
            stable_sorted_commutes(given, |attribution: PidEnergyAttribution| attribution@);
            stable_sorted_is_an_ordered_permutation(given);
        }
        let payload = AmalgafySealPayload {
            manifest_version: self.manifest_version,
            hardware_serial: hardware_serial.to_owned(),
            sealed_at_unix_ns,
            total_micro_joules,
            attributions: sorted,
            hardware_identity,
        };
        let canonical_payload = match payload.canonical_bytes() {
            Ok(encoded) => encoded,
            Err(error) => return Err(error),
        };
        let signature = sign_message(&self.signing_key, canonical_payload.as_slice());
        Ok(
            AmalgafySeal {
                payload,
                signing_public_key: key_to_bytes(&verifying_key(&self.signing_key)),
                signature: signature_vec(&signature),
                canonical_payload,
            },
        )
    }
}

/// A payload that was changed after sealing is refused: its total, its serial,
/// its identity, its attributions, or any other field.
pub proof fn tampered_payload_is_refused(
    seal: AmalgafySeal,
    key: SigningKey,
    payload: PayloadModel,
    tampered: AmalgafySeal,
)
    requires
        is_seal_of(seal, key, payload),
        tampered.signing_public_key@ == seal.signing_public_key@,
        tampered.signature@ == seal.signature@,
        tampered.canonical_payload@ == seal.canonical_payload@,
        tampered.payload@ != payload,
    ensures
        seal_verdict(tampered) == Err::<(), SealError>(SealError::PayloadMismatch),
{
}

/// A seal that verifies with another payload signs another message: no signature
/// of one payload's message lets another payload pass.
pub proof fn other_payload_needs_another_message(
    seal: AmalgafySeal,
    key: SigningKey,
    payload: PayloadModel,
    other: AmalgafySeal,
)
    requires
        is_seal_of(seal, key, payload),
        seal_verdict(other) is Ok,
        other.payload@ != payload,
    ensures
        other.canonical_payload@ != seal.canonical_payload@,
        accepts(other.signing_public_key@, other.canonical_payload@, other.signature@),
{
}

/// The order in which the attributions were assembled does not show in the
/// payload.
pub proof fn sealing_ignores_attribution_order(
    manifest_version: u32,
    first: Seq<AttributionModel>,
    second: Seq<AttributionModel>,
    hardware_serial: Seq<char>,
    total_micro_joules: u64,
    hardware_identity: Option<IdentityModel>,
    sealed_at_unix_ns: u64,
)
    requires
        first.to_multiset() == second.to_multiset(),
    ensures
        sealed_payload(
            manifest_version,
            first,
            hardware_serial,
            total_micro_joules,
            hardware_identity,
            sealed_at_unix_ns,
        ) == sealed_payload(
            manifest_version,
            second,
            hardware_serial,
            total_micro_joules,
            hardware_identity,
            sealed_at_unix_ns,
        ),
{
    assert forall|i: int, j: int|
        0 <= i < first.len() && 0 <= j < first.len() && ties(
            #[trigger] first[i],
            #[trigger] first[j],
        ) implies first[i] == first[j] by {
        only_equal_attributions_tie(first[i], first[j]);
    }
    stable_sorted_ignores_input_order(first, second);
}

/// Seals that one key makes of one state at one time are byte-identical, and so
/// are their signatures, in whichever order the attributions were assembled.
pub proof fn seals_ignore_attribution_order(
    first: AmalgafySeal,
    second: AmalgafySeal,
    key: SigningKey,
    manifest_version: u32,
    first_attributions: Seq<PidEnergyAttribution>,
    second_attributions: Seq<PidEnergyAttribution>,
    hardware_serial: Seq<char>,
    total_micro_joules: u64,
    hardware_identity: Option<IdentityModel>,
    sealed_at_unix_ns: u64,
)
    requires
        first_attributions.to_multiset() == second_attributions.to_multiset(),
        is_seal_of(
            first,
            key,
            sealed_payload(
                manifest_version,
                attribution_models(first_attributions),
                hardware_serial,
                total_micro_joules,
                hardware_identity,
                sealed_at_unix_ns,
            ),
        ),
        is_seal_of(
            second,
            key,
            sealed_payload(
                manifest_version,
                attribution_models(second_attributions),
                hardware_serial,
                total_micro_joules,
                hardware_identity,
                sealed_at_unix_ns,
            ),
        ),
    ensures
        first.payload@ == second.payload@,
        first.canonical_payload@ == second.canonical_payload@,
        first.signature@ == second.signature@,
        first.signing_public_key@ == second.signing_public_key@,
{
    permutations_map_to_permutations(
        first_attributions,
        second_attributions,
        |attribution: PidEnergyAttribution| attribution@,
    );
    sealing_ignores_attribution_order(
        manifest_version,
        attribution_models(first_attributions),
        attribution_models(second_attributions),
        hardware_serial,
        total_micro_joules,
        hardware_identity,
        sealed_at_unix_ns,
    );
}

/// Whether `a` comes no later than `b` by process, then by the window's start,
/// then by its end.
pub open spec fn window_comes_by(a: AttributionModel, b: AttributionModel) -> bool {
    ||| a.pid < b.pid
    ||| a.pid == b.pid && a.window_start_ns < b.window_start_ns
    ||| a.pid == b.pid && a.window_start_ns == b.window_start_ns && a.window_end_ns
        <= b.window_end_ns
}

/// A sealed list ascends by process and window, and holds every attribution as
/// often as the given one.
pub proof fn sealed_attributions_ascend(attributions: Seq<AttributionModel>)
    ensures
        stable_sorted(attributions).to_multiset() == attributions.to_multiset(),
        forall|i: int, j: int|
            0 <= i <= j < attributions.len() ==> window_comes_by(
                #[trigger] stable_sorted(attributions)[i],
                #[trigger] stable_sorted(attributions)[j],
            ),
{
    stable_sorted_is_an_ordered_permutation(attributions);
    let sorted = stable_sorted(attributions);
    assert forall|i: int, j: int| 0 <= i <= j < attributions.len() implies window_comes_by(
        #[trigger] sorted[i],
        #[trigger] sorted[j],
    ) by {
        assert(sorted[i].ranks_by(sorted[j]));
    }
}

/// In a sealed list, attributions of the same process and window come by their power,
/// then by their energy, then by their hardware.
pub proof fn sealed_windows_come_by_power_energy_and_hardware(
    attributions: Seq<AttributionModel>,
    i: int,
    j: int,
)
    requires
        0 <= i <= j < attributions.len(),
    ensures
        ({
            let a = stable_sorted(attributions)[i];
            let b = stable_sorted(attributions)[j];
            a.pid == b.pid && a.window_start_ns == b.window_start_ns && a.window_end_ns
                == b.window_end_ns ==> {
                &&& a.burst_power_uw <= b.burst_power_uw
                &&& a.burst_power_uw == b.burst_power_uw ==> a.attributed_energy_uj
                    <= b.attributed_energy_uj
                &&& a.burst_power_uw == b.burst_power_uw && a.attributed_energy_uj
                    == b.attributed_energy_uj ==> text_le(
                    a.hardware_signature,
                    b.hardware_signature,
                )
            }
        }),
{
    stable_sorted_is_an_ordered_permutation(attributions);
    let sorted = stable_sorted(attributions);
    assert(sorted[i].ranks_by(sorted[j]));
}

/// Two signers with the same key that seal the same payload produce the same
/// bytes and the same signature.
pub proof fn sealing_is_deterministic(
    first: AmalgafySeal,
    second: AmalgafySeal,
    key: SigningKey,
    payload: PayloadModel,
)
    requires
        is_seal_of(first, key, payload),
        is_seal_of(second, key, payload),
    ensures
        first.canonical_payload@ == second.canonical_payload@,
        first.signature@ == second.signature@,
        first.signing_public_key@ == second.signing_public_key@,
{
}

/// A plain payload shows every field of the payload.
pub proof fn plain_payload_shows_every_field(payload: AmalgafySealPayload)
    ensures
        payload@.manifest_version == payload.manifest_version,
        payload@.hardware_serial == payload.hardware_serial@,
        payload@.sealed_at_unix_ns == payload.sealed_at_unix_ns,
        payload@.total_micro_joules == payload.total_micro_joules,
        payload@.attributions.len() == payload.attributions@.len(),
        forall|i: int|
            0 <= i < payload.attributions@.len() ==> #[trigger] payload@.attributions[i]
                == payload.attributions@[i]@,
        payload.hardware_identity is Some <==> payload@.hardware_identity is Some,
        payload.hardware_identity matches Some(identity) ==> payload@.hardware_identity == Some(
            identity@,
        ),
{
}

/// A seal holds what was handed in: every attribution, each as often, in ascending
/// order of process and window; and the serial, the total, the identity, the
/// version and the time as they were.
pub proof fn seal_holds_what_was_handed_in(
    seal: AmalgafySeal,
    key: SigningKey,
    manifest_version: u32,
    attributions: Seq<AttributionModel>,
    hardware_serial: Seq<char>,
    total_micro_joules: u64,
    hardware_identity: Option<IdentityModel>,
    sealed_at_unix_ns: u64,
)
    requires
        is_seal_of(
            seal,
            key,
            sealed_payload(
                manifest_version,
                attributions,
                hardware_serial,
                total_micro_joules,
                hardware_identity,
                sealed_at_unix_ns,
            ),
        ),
    ensures
        seal.payload.attributions@.len() == attributions.len(),
        seal.payload.attributions@.map_values(
            |attribution: PidEnergyAttribution| attribution@,
        ).to_multiset() == attributions.to_multiset(),
        forall|i: int, j: int|
            0 <= i <= j < seal.payload.attributions@.len() ==> {
                let a = #[trigger] seal.payload.attributions@[i];
                let b = #[trigger] seal.payload.attributions@[j];
                ||| a.pid < b.pid
                ||| a.pid == b.pid && a.window_start_ns < b.window_start_ns
                ||| a.pid == b.pid && a.window_start_ns == b.window_start_ns && a.window_end_ns
                    <= b.window_end_ns
            },
        seal.payload.manifest_version == manifest_version,
        seal.payload.hardware_serial@ == hardware_serial,
        seal.payload.sealed_at_unix_ns == sealed_at_unix_ns,
        seal.payload.total_micro_joules == total_micro_joules,
        seal.payload.hardware_identity is Some <==> hardware_identity is Some,
        seal.payload.hardware_identity matches Some(identity) ==> hardware_identity == Some(
            IdentityModel { fingerprint: identity.fingerprint@, source: identity.source },
        ),
{
    broadcast use vstd::seq_lib::group_to_multiset_ensures;

    let sealed = seal.payload.attributions@;
    let models = sealed.map_values(|attribution: PidEnergyAttribution| attribution@);
    assert(models =~= seal.payload@.attributions);
    stable_sorted_is_an_ordered_permutation(attributions);
    assert(models.to_multiset() == attributions.to_multiset());
    assert(models.to_multiset().len() == models.len());
    assert(attributions.to_multiset().len() == attributions.len());
    sealed_attributions_ascend(attributions);
    assert forall|i: int, j: int| 0 <= i <= j < sealed.len() implies {
        let a = #[trigger] sealed[i];
        let b = #[trigger] sealed[j];
        ||| a.pid < b.pid
        ||| a.pid == b.pid && a.window_start_ns < b.window_start_ns
        ||| a.pid == b.pid && a.window_start_ns == b.window_start_ns && a.window_end_ns
            <= b.window_end_ns
    } by {
        assert(models[i] == sealed[i]@ && models[j] == sealed[j]@);
        assert(window_comes_by(stable_sorted(attributions)[i], stable_sorted(attributions)[j]));
    }
}

/// A seal carries the public key of its signer, the signature of its own canonical
/// payload under the signer's key, and it verifies.
pub proof fn seal_is_signed_by_its_signer(
    seal: AmalgafySeal,
    key: SigningKey,
    payload: PayloadModel,
)
    requires
        is_seal_of(seal, key, payload),
    ensures
        seal.signing_public_key@ == public_key_bytes(public_half(key)),
        seal.signature@ == signature_of(key, seal.canonical_payload@),
        accepts(seal.signing_public_key@, seal.canonical_payload@, seal.signature@),
        seal.signature@.len() == 64,
        seal_verdict(seal) is Ok,
{
}

/// What a seal signs is the text of a document with ascending keys that holds the
/// payload as its document does, but for the order of fields.
pub proof fn seal_signs_its_payload(seal: AmalgafySeal, key: SigningKey, payload: PayloadModel)
    requires
        is_seal_of(seal, key, payload),
    ensures
        exists|document: JsonModel|
            {
                &&& seal.canonical_payload@ == #[trigger] json_text(document)
                &&& keys_ascend(document)
                &&& same_up_to_field_order(payload_document(seal.payload@), document)
            },
{
    let document = canonical(payload_document(seal.payload@));
    canonical_keys_ascend(payload_document(seal.payload@));
    canonical_loses_nothing(payload_document(seal.payload@));
    assert(seal.canonical_payload@ == json_text(document));
}

/// A seal verifies exactly where its public key is one, its signature has the
/// length of one, its canonical payload is the canonical text of its payload, and
/// the public key accepts the signature for the canonical payload. The first of
/// these that fails is what is reported.
pub proof fn verification_checks_everything(seal: AmalgafySeal)
    ensures
        ({
            let key = is_public_key(seal.signing_public_key@);
            let length = seal.signature@.len() == 64;
            let text = seal.canonical_payload@ == json_text(
                canonical(payload_document(seal.payload@)),
            );
            let accepted = accepts(
                seal.signing_public_key@,
                seal.canonical_payload@,
                seal.signature@,
            );
            &&& seal_verdict(seal) is Ok <==> key && length && text && accepted
            &&& !key ==> seal_verdict(seal) == Err::<(), SealError>(SealError::InvalidPublicKey)
            &&& key && !length ==> seal_verdict(seal) == Err::<(), SealError>(
                SealError::InvalidSignatureLength,
            )
            &&& key && length && !text ==> seal_verdict(seal) == Err::<(), SealError>(
                SealError::PayloadMismatch,
            )
            &&& key && length && text && !accepted ==> seal_verdict(seal) == Err::<(), SealError>(
                SealError::SignatureRejected,
            )
        }),
{
}

/// Whether a document holds an attribution: each of its fields under the field's
/// name, and nothing else.
pub open spec fn tells_attribution(
    document: JsonModel,
    attribution: PidEnergyAttribution,
) -> bool {
    &&& has_fields(document, 6)
    &&& holds_field(
        document,
        "pid"@,
        JsonModel::Number(NumberModel::Unsigned(attribution.pid as u64)),
    )
    &&& holds_field(
        document,
        "window_start_ns"@,
        JsonModel::Number(NumberModel::Unsigned(attribution.window_start_ns)),
    )
    &&& holds_field(
        document,
        "window_end_ns"@,
        JsonModel::Number(NumberModel::Unsigned(attribution.window_end_ns)),
    )
    &&& holds_field(
        document,
        "burst_power_uw"@,
        JsonModel::Number(NumberModel::Unsigned(attribution.burst_power_uw)),
    )
    &&& holds_field(
        document,
        "attributed_energy_uj"@,
        JsonModel::Number(NumberModel::Unsigned(attribution.attributed_energy_uj)),
    )
    &&& holds_field(
        document,
        "hardware_signature"@,
        JsonModel::Text(attribution.hardware_signature@),
    )
}

proof fn lemma_attribution_document_tells(attribution: PidEnergyAttribution)
    ensures
        tells_attribution(attribution_document(attribution@), attribution),
{
    let fields = attribution_fields(attribution@);
    assert(fields[0].key == "pid"@);
    assert(fields[1].key == "window_start_ns"@);
    assert(fields[2].key == "window_end_ns"@);
    assert(fields[3].key == "burst_power_uw"@);
    assert(fields[4].key == "attributed_energy_uj"@);
    assert(fields[5].key == "hardware_signature"@);
}

/// The document of a payload holds each of its fields under the field's name, every
/// attribution in its place, the identity where there is one, and nothing else.
pub proof fn payload_document_holds_every_field(payload: AmalgafySealPayload)
    ensures
        holds_field(
            payload_document(payload@),
            "manifest_version"@,
            JsonModel::Number(NumberModel::Unsigned(payload.manifest_version as u64)),
        ),
        holds_field(
            payload_document(payload@),
            "hardware_serial"@,
            JsonModel::Text(payload.hardware_serial@),
        ),
        holds_field(
            payload_document(payload@),
            "sealed_at_unix_ns"@,
            JsonModel::Number(NumberModel::Unsigned(payload.sealed_at_unix_ns)),
        ),
        holds_field(
            payload_document(payload@),
            "total_micro_joules"@,
            JsonModel::Number(NumberModel::Unsigned(payload.total_micro_joules)),
        ),
        exists|items: Seq<JsonModel>|
            {
                &&& #[trigger] holds_field(
                    payload_document(payload@),
                    "attributions"@,
                    JsonModel::Array(items),
                )
                &&& items.len() == payload.attributions@.len()
                &&& forall|i: int|
                    0 <= i < items.len() ==> tells_attribution(
                        #[trigger] items[i],
                        payload.attributions@[i],
                    )
            },
        payload.hardware_identity matches Some(identity) ==> holds_field(
            payload_document(payload@),
            "hardware_identity"@,
            identity_document(identity@),
        ),
        has_fields(
            payload_document(payload@),
            if payload.hardware_identity is Some {
                6
            } else {
                5
            },
        ),
{
    let fields = payload_fields(payload@);
    assert(fields[0].key == "manifest_version"@);
    assert(fields[1].key == "hardware_serial"@);
    assert(fields[2].key == "sealed_at_unix_ns"@);
    assert(fields[3].key == "total_micro_joules"@);
    assert(fields[4].key == "attributions"@);
    if payload.hardware_identity is Some {
        assert(fields[5].key == "hardware_identity"@);
    }
    let items = attribution_documents(payload@.attributions);
    assert forall|i: int| 0 <= i < items.len() implies tells_attribution(
        #[trigger] items[i],
        payload.attributions@[i],
    ) by {
        lemma_attribution_document_tells(payload.attributions@[i]);
    }
    assert(holds_field(payload_document(payload@), "attributions"@, JsonModel::Array(items)));
}

} // verus!
