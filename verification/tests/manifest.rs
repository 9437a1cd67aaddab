use ed25519_dalek::{SigningKey, SECRET_KEY_LENGTH};
use mjae::{EnergyManifest, EnergyManifestPayload, SealError};

fn sample_payload() -> EnergyManifestPayload {
    EnergyManifestPayload {
        manifest_version: 1,
        provider: "linux-ebpf".to_owned(),
        hardware_signature: "NV-H100".to_owned(),
        workload_pid: 4242,
        window_start_ns: 10,
        window_end_ns: 20,
        sampled_at_ns: 20,
        idle_power_uw: 3_000_000,
        active_power_uw: 9_500_000,
        attributed_energy_uj: 65,
    }
}

#[test]
fn manifest_round_trips_a_signature() {
    let signing_key = SigningKey::from_bytes(&[7_u8; SECRET_KEY_LENGTH]);
    let manifest =
        EnergyManifest::sign(sample_payload(), &signing_key).expect("manifest should sign");

    manifest.verify().expect("manifest should verify");
    assert_eq!(manifest.signing_public_key, signing_key.verifying_key().to_bytes());
}

#[test]
fn manifest_verification_fails_after_mutation() {
    let signing_key = SigningKey::from_bytes(&[9_u8; SECRET_KEY_LENGTH]);
    let mut manifest =
        EnergyManifest::sign(sample_payload(), &signing_key).expect("manifest should sign");
    manifest.payload.attributed_energy_uj += 1;

    assert!(manifest.verify().is_err());
    assert_eq!(manifest.verify(), Err(SealError::SignatureRejected));
}

#[test]
fn manifest_is_encoded_in_the_order_of_its_fields() {
    let text = String::from_utf8(sample_payload().encoded().unwrap()).unwrap();
    assert_eq!(
        text,
        "{\"manifest_version\":1,\"provider\":\"linux-ebpf\",\"hardware_signature\":\"NV-H100\",\
         \"workload_pid\":4242,\"window_start_ns\":10,\"window_end_ns\":20,\"sampled_at_ns\":20,\
         \"idle_power_uw\":3000000,\"active_power_uw\":9500000,\"attributed_energy_uj\":65}"
    );
}

#[test]
fn manifest_with_a_short_signature_is_refused() {
    let signing_key = SigningKey::from_bytes(&[9_u8; SECRET_KEY_LENGTH]);
    let mut manifest = EnergyManifest::sign(sample_payload(), &signing_key).unwrap();
    manifest.signature.truncate(63);
    assert_eq!(manifest.verify(), Err(SealError::InvalidSignatureLength));
}

#[test]
fn manifest_with_a_broken_public_key_is_refused() {
    let signing_key = SigningKey::from_bytes(&[9_u8; SECRET_KEY_LENGTH]);
    let mut manifest = EnergyManifest::sign(sample_payload(), &signing_key).unwrap();
    manifest.signing_public_key = [2; 32];
    assert_eq!(manifest.verify(), Err(SealError::InvalidPublicKey));
}
