//! The signed record of one process. New code seals a whole window with
//! [`AmalgafySigner`](crate::signer::AmalgafySigner); the manifest is kept for
//! verifiers that still read it. It is encoded in the order of its fields.

use ed25519_dalek::SigningKey;
use vstd::prelude::*;

use crate::json::{
    field, field_models, has_fields, holds_field, is_text_of_only, json_text, keys_differ, number,
    number_value, object_value, plain_json, text_value, value_model, FieldModel, JsonField,
    JsonModel, NumberModel,
};
use crate::signing::{
    accepts, check_signature, is_public_key, key_from_bytes, key_to_bytes, public_half,
    public_key_bytes, sign_message, signature_array, signature_of, signature_vec, verifying_key,
    SealError, SIGNATURE_LENGTH,
};

verus! {

/// What the signature of a manifest covers.
#[derive(Debug, Clone, PartialEq, Eq)]
pub struct EnergyManifestPayload {
    pub manifest_version: u32,
    pub provider: String,
    pub hardware_signature: String,
    pub workload_pid: u32,
    pub window_start_ns: u64,
    pub window_end_ns: u64,
    pub sampled_at_ns: u64,
    pub idle_power_uw: u64,
    pub active_power_uw: u64,
    pub attributed_energy_uj: u64,
}

/// A manifest's payload as a plain value.
#[verifier::ext_equal]
pub struct ManifestModel {
    pub manifest_version: u32,
    pub provider: Seq<char>,
    pub hardware_signature: Seq<char>,
    pub workload_pid: u32,
    pub window_start_ns: u64,
    pub window_end_ns: u64,
    pub sampled_at_ns: u64,
    pub idle_power_uw: u64,
    pub active_power_uw: u64,
    pub attributed_energy_uj: u64,
}

impl View for EnergyManifestPayload {
    type V = ManifestModel;

    open spec fn view(&self) -> ManifestModel {
        ManifestModel {
            manifest_version: self.manifest_version,
            provider: self.provider@,
            hardware_signature: self.hardware_signature@,
            workload_pid: self.workload_pid,
            window_start_ns: self.window_start_ns,
            window_end_ns: self.window_end_ns,
            sampled_at_ns: self.sampled_at_ns,
            idle_power_uw: self.idle_power_uw,
            active_power_uw: self.active_power_uw,
            attributed_energy_uj: self.attributed_energy_uj,
        }
    }
}

/// The fields of an encoded manifest, in their order.
pub open spec fn manifest_fields(payload: ManifestModel) -> Seq<FieldModel> {
    seq![
        FieldModel { key: "manifest_version"@, value: number(payload.manifest_version as int) },
        FieldModel { key: "provider"@, value: JsonModel::Text(payload.provider) },
        FieldModel {
            key: "hardware_signature"@,
            value: JsonModel::Text(payload.hardware_signature),
        },
        FieldModel { key: "workload_pid"@, value: number(payload.workload_pid as int) },
        FieldModel { key: "window_start_ns"@, value: number(payload.window_start_ns as int) },
        FieldModel { key: "window_end_ns"@, value: number(payload.window_end_ns as int) },
        FieldModel { key: "sampled_at_ns"@, value: number(payload.sampled_at_ns as int) },
        FieldModel { key: "idle_power_uw"@, value: number(payload.idle_power_uw as int) },
        FieldModel { key: "active_power_uw"@, value: number(payload.active_power_uw as int) },
        FieldModel {
            key: "attributed_energy_uj"@,
            value: number(payload.attributed_energy_uj as int),
        },
    ]
}

/// The bytes that a manifest signs.
pub open spec fn manifest_text(payload: ManifestModel) -> Seq<u8> {
    json_text(JsonModel::Object(manifest_fields(payload)))
}

/// Whether `text` encodes `payload` and no other manifest.
pub open spec fn records_only(text: Seq<u8>, payload: ManifestModel) -> bool {
    &&& text == manifest_text(payload)
    &&& forall|other: ManifestModel| #[trigger] manifest_text(other) == text ==> other == payload
}

proof fn lemma_manifest_keys_differ(payload: ManifestModel)
    ensures
        keys_differ(manifest_fields(payload)),
{
    reveal_strlit("manifest_version");
    reveal_strlit("provider");
    reveal_strlit("hardware_signature");
    reveal_strlit("workload_pid");
    reveal_strlit("window_start_ns");
    reveal_strlit("window_end_ns");
    reveal_strlit("sampled_at_ns");
    reveal_strlit("idle_power_uw");
    reveal_strlit("active_power_uw");
    reveal_strlit("attributed_energy_uj");
    assert("manifest_version"@.len() == 16 && "provider"@.len() == 8
        && "hardware_signature"@.len() == 18 && "workload_pid"@.len() == 12
        && "window_start_ns"@.len() == 15 && "window_end_ns"@.len() == 13
        && "sampled_at_ns"@.len() == 13 && "idle_power_uw"@.len() == 13
        && "active_power_uw"@.len() == 15 && "attributed_energy_uj"@.len() == 20);
    assert("window_end_ns"@[0] != "sampled_at_ns"@[0]);
    assert("window_end_ns"@[0] != "idle_power_uw"@[0]);
    assert("sampled_at_ns"@[0] != "idle_power_uw"@[0]);
    assert("window_start_ns"@[0] != "active_power_uw"@[0]);
}

/// Different manifests have different encodings.
pub proof fn manifest_encoding_is_faithful(first: ManifestModel, second: ManifestModel)
    requires
        manifest_fields(first) == manifest_fields(second),
    ensures
        first == second,
{
    let (a, b) = (manifest_fields(first), manifest_fields(second));
    assert(a[0].value == b[0].value);
    assert(a[1].value == b[1].value);
    assert(a[2].value == b[2].value);
    assert(a[3].value == b[3].value);
    assert(a[4].value == b[4].value);
    assert(a[5].value == b[5].value);
    assert(a[6].value == b[6].value);
    assert(a[7].value == b[7].value);
    assert(a[8].value == b[8].value);
    assert(a[9].value == b[9].value);
}

impl EnergyManifestPayload {
    /// The payload as a JSON document, its fields in their order.
    pub fn to_json(&self) -> (document: serde_json::Value)
        ensures
            value_model(document) == JsonModel::Object(manifest_fields(self@)),
    {
        let fields: Vec<JsonField> = vec![
            field("manifest_version", number_value(self.manifest_version as u64)),
            field("provider", text_value(self.provider.as_str())),
            field("hardware_signature", text_value(self.hardware_signature.as_str())),
            field("workload_pid", number_value(self.workload_pid as u64)),
            field("window_start_ns", number_value(self.window_start_ns)),
            field("window_end_ns", number_value(self.window_end_ns)),
            field("sampled_at_ns", number_value(self.sampled_at_ns)),
            field("idle_power_uw", number_value(self.idle_power_uw)),
            field("active_power_uw", number_value(self.active_power_uw)),
            field("attributed_energy_uj", number_value(self.attributed_energy_uj)),
        ];
        proof {
            lemma_manifest_keys_differ(self@);
            assert(field_models(fields@) =~= manifest_fields(self@));
        }
        object_value(fields)
    }

    /// The bytes that a manifest over the payload signs.
    pub fn encoded(&self) -> (text: Result<Vec<u8>, SealError>)
        ensures
            text is Ok,
            records_only(text->Ok_0@, self@),
    {
        match plain_json(&self.to_json()) {
            Ok(text) => {
                proof {
                    let document = JsonModel::Object(manifest_fields(self@));
                    assert(is_text_of_only(text@, document));
                    assert forall|other: ManifestModel| #[trigger]
                        manifest_text(other) == text@ implies other == self@ by {
                        assert(JsonModel::Object(manifest_fields(other)) == document);
                        manifest_encoding_is_faithful(other, self@);
                    }
                }
                Ok(text)
            },
            Err(_) => Err(SealError::Encoding),
        }
    }
}

/// A signed record of one process over one window.
#[derive(Debug, Clone, PartialEq, Eq)]
pub struct EnergyManifest {
    pub payload: EnergyManifestPayload,
    pub signing_public_key: [u8; 32],
    pub signature: Vec<u8>,
}

/// What the verification of a manifest finds.
pub open spec fn manifest_verdict(manifest: EnergyManifest) -> Result<(), SealError> {
    if !is_public_key(manifest.signing_public_key@) {
        Err(SealError::InvalidPublicKey)
    } else if manifest.signature@.len() != SIGNATURE_LENGTH {
        Err(SealError::InvalidSignatureLength)
    } else if !accepts(
        manifest.signing_public_key@,
        manifest_text(manifest.payload@),
        manifest.signature@,
    ) {
        Err(SealError::SignatureRejected)
    } else {
        Ok(())
    }
}

impl EnergyManifest {
    /// Signs a payload. The manifest that comes out verifies.
    pub fn sign(payload: EnergyManifestPayload, signing_key: &SigningKey) -> (manifest: Result<
        Self,
        SealError,
    >)
        ensures
            manifest is Ok,
            manifest->Ok_0.payload == payload,
            manifest->Ok_0.signing_public_key@ == public_key_bytes(public_half(*signing_key)),
            manifest->Ok_0.signature@ == signature_of(*signing_key, manifest_text(payload@)),
            manifest_verdict(manifest->Ok_0) == Ok::<(), SealError>(()),
    {
        let message = match payload.encoded() {
            Ok(message) => message,
            Err(error) => return Err(error),
        };
        let signature = sign_message(signing_key, message.as_slice());
        Ok(
            EnergyManifest {
                payload,
                signing_public_key: key_to_bytes(&verifying_key(signing_key)),
                signature: signature_vec(&signature),
            },
        )
    }

    /// Verifies the signature against the payload.
    pub fn verify(&self) -> (verdict: Result<(), SealError>)
        ensures
            verdict == manifest_verdict(*self),
    {
        let key = match key_from_bytes(&self.signing_public_key) {
            Ok(key) => key,
            Err(_) => return Err(SealError::InvalidPublicKey),
        };
        let signature = match signature_array(&self.signature) {
            Some(signature) => signature,
            None => return Err(SealError::InvalidSignatureLength),
        };
        let message = match self.payload.encoded() {
            Ok(message) => message,
            Err(error) => return Err(error),
        };
        match check_signature(&key, message.as_slice(), &signature) {
            Ok(()) => Ok(()),
            Err(_) => Err(SealError::SignatureRejected),
        }
    }
}

/// A manifest that verifies with another payload signs another message.
pub proof fn other_manifest_needs_another_message(
    payload: ManifestModel,
    text: Seq<u8>,
    other: EnergyManifest,
)
    requires
        records_only(text, payload),
        manifest_verdict(other) is Ok,
        other.payload@ != payload,
    ensures
        manifest_text(other.payload@) != text,
        accepts(other.signing_public_key@, manifest_text(other.payload@), other.signature@),
{
}

/// A plain manifest payload shows every field of the payload, and its document holds
/// each of them under the field's name, and nothing else.
pub proof fn manifest_document_holds_every_field(payload: EnergyManifestPayload)
    ensures
        ({
            let document = JsonModel::Object(manifest_fields(payload@));
            &&& has_fields(document, 10)
            &&& holds_field(
                document,
                "manifest_version"@,
                JsonModel::Number(NumberModel::Unsigned(payload.manifest_version as u64)),
            )
            &&& holds_field(document, "provider"@, JsonModel::Text(payload.provider@))
            &&& holds_field(
                document,
                "hardware_signature"@,
                JsonModel::Text(payload.hardware_signature@),
            )
            &&& holds_field(
                document,
                "workload_pid"@,
                JsonModel::Number(NumberModel::Unsigned(payload.workload_pid as u64)),
            )
            &&& holds_field(
                document,
                "window_start_ns"@,
                JsonModel::Number(NumberModel::Unsigned(payload.window_start_ns)),
            )
            &&& holds_field(
                document,
                "window_end_ns"@,
                JsonModel::Number(NumberModel::Unsigned(payload.window_end_ns)),
            )
            &&& holds_field(
                document,
                "sampled_at_ns"@,
                JsonModel::Number(NumberModel::Unsigned(payload.sampled_at_ns)),
            )
            &&& holds_field(
                document,
                "idle_power_uw"@,
                JsonModel::Number(NumberModel::Unsigned(payload.idle_power_uw)),
            )
            &&& holds_field(
                document,
                "active_power_uw"@,
                JsonModel::Number(NumberModel::Unsigned(payload.active_power_uw)),
            )
            &&& holds_field(
                document,
                "attributed_energy_uj"@,
                JsonModel::Number(NumberModel::Unsigned(payload.attributed_energy_uj)),
            )
        }),
{
    let fields = manifest_fields(payload@);
    assert(fields[0].key == "manifest_version"@);
    assert(fields[1].key == "provider"@);
    assert(fields[2].key == "hardware_signature"@);
    assert(fields[3].key == "workload_pid"@);
    assert(fields[4].key == "window_start_ns"@);
    assert(fields[5].key == "window_end_ns"@);
    assert(fields[6].key == "sampled_at_ns"@);
    assert(fields[7].key == "idle_power_uw"@);
    assert(fields[8].key == "active_power_uw"@);
    assert(fields[9].key == "attributed_energy_uj"@);
}

/// A manifest verifies exactly where its public key is one, its signature has the
/// length of one, and the public key accepts the signature for the text of the
/// payload's document. The first of these that fails is what is reported.
pub proof fn manifest_verification_checks_everything(manifest: EnergyManifest)
    ensures
        ({
            let key = is_public_key(manifest.signing_public_key@);
            let length = manifest.signature@.len() == 64;
            let accepted = accepts(
                manifest.signing_public_key@,
                json_text(JsonModel::Object(manifest_fields(manifest.payload@))),
                manifest.signature@,
            );
            &&& manifest_verdict(manifest) is Ok <==> key && length && accepted
            &&& !key ==> manifest_verdict(manifest) == Err::<(), SealError>(
                SealError::InvalidPublicKey,
            )
            &&& key && !length ==> manifest_verdict(manifest) == Err::<(), SealError>(
                SealError::InvalidSignatureLength,
            )
            &&& key && length && !accepted ==> manifest_verdict(manifest) == Err::<(), SealError>(
                SealError::SignatureRejected,
            )
        }),
{
}

} // verus!
