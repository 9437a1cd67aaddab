use ed25519_dalek::{SigningKey, SECRET_KEY_LENGTH};
use mjae::signing::SIGNATURE_LENGTH;
use mjae::{
    AmalgafySeal, AmalgafySigner, HardwareIdentity, PidEnergyAttribution, SealError,
    AMALGAFY_SEAL_INTERVAL_SECS,
};

fn fixture_attributions() -> Vec<PidEnergyAttribution> {
    vec![
        PidEnergyAttribution {
            pid: 4242,
            window_start_ns: 100,
            window_end_ns: 200,
            burst_power_uw: 5_500_000,
            attributed_energy_uj: 550,
            hardware_signature: "NV-H100-SXM5-SN-0001".to_owned(),
        },
        PidEnergyAttribution {
            pid: 7,
            window_start_ns: 100,
            window_end_ns: 200,
            burst_power_uw: 1_000_000,
            attributed_energy_uj: 100,
            hardware_signature: "NV-H100-SXM5-SN-0001".to_owned(),
        },
    ]
}

fn signer(seed: u8) -> AmalgafySigner {
    AmalgafySigner::new(SigningKey::from_bytes(&[seed; SECRET_KEY_LENGTH]))
}

fn pids(seal: &AmalgafySeal) -> Vec<u32> {
    seal.payload.attributions.iter().map(|a| a.pid).collect()
}

#[test]
fn signer_produces_a_verifiable_seal() {
    let signer = AmalgafySigner::new(SigningKey::from_bytes(&[3_u8; SECRET_KEY_LENGTH]));
    let seal = signer
        .seal(fixture_attributions(), "NV-H100-SXM5-SN-0001", 650)
        .expect("seal should sign");

    seal.verify().expect("seal should verify");
    assert_eq!(seal.payload.total_micro_joules, 650);
    assert_eq!(seal.payload.hardware_serial, "NV-H100-SXM5-SN-0001");
    assert_eq!(seal.payload.attributions.len(), 2);
    assert_eq!(seal.signature.len(), 64);
}

#[test]
fn seal_verification_fails_after_tampering_with_total_joules() {
    let signer = AmalgafySigner::new(SigningKey::from_bytes(&[5_u8; SECRET_KEY_LENGTH]));
    let mut seal = signer.seal(fixture_attributions(), "NV-H100", 650).expect("seal should sign");

    seal.payload.total_micro_joules = 1;

    assert!(seal.verify().is_err());
    assert_eq!(seal.verify(), Err(SealError::PayloadMismatch));
}

#[test]
fn seal_verification_fails_after_swapping_hardware_serial() {
    let signer = AmalgafySigner::new(SigningKey::from_bytes(&[6_u8; SECRET_KEY_LENGTH]));
    let mut seal = signer.seal(fixture_attributions(), "NV-H100", 650).expect("seal should sign");

    seal.payload.hardware_serial = "WRONG-SERIAL".to_owned();

    assert!(seal.verify().is_err());
}

#[test]
fn seal_is_order_independent_across_attribution_inputs() {
    let signer = AmalgafySigner::new(SigningKey::from_bytes(&[9_u8; SECRET_KEY_LENGTH]));

    let forward = fixture_attributions();
    let mut reversed = fixture_attributions();
    reversed.reverse();

    let seal_a = signer.seal(forward, "NV-H100-SXM5-SN-0001", 650).expect("seal should sign");
    let seal_b = signer.seal(reversed, "NV-H100-SXM5-SN-0001", 650).expect("seal should sign");

    assert_eq!(pids(&seal_a), pids(&seal_b));
    assert_eq!(seal_a.payload.attributions, seal_b.payload.attributions);
    assert_eq!(pids(&seal_a), vec![7, 4242]);
}

#[test]
fn seals_of_one_state_are_byte_identical() {
    let mut reversed = fixture_attributions();
    reversed.reverse();
    let a = signer(9).seal_at(fixture_attributions(), "SN", 650, None, 77).unwrap();
    let b = signer(9).seal_at(reversed, "SN", 650, None, 77).unwrap();
    assert_eq!(a, b);
}

#[test]
fn attributions_of_one_window_seal_alike_in_any_order() {
    // One process on several devices over one window.
    let mut shared = fixture_attributions();
    shared[1].pid = 4242;
    let mut third = shared[0].clone();
    third.hardware_signature = "NV-H100-SXM5-SN-0000".to_owned();
    let mut fourth = shared[0].clone();
    fourth.attributed_energy_uj = 549;
    shared.push(third.clone());
    shared.push(fourth.clone());
    let ordered = vec![shared[1].clone(), fourth, third, shared[0].clone()];
    let sealed = signer(9).seal_at(shared.clone(), "SN", 650, None, 77).unwrap();
    assert_eq!(sealed.payload.attributions, ordered);
    for _ in 0..shared.len() {
        shared.rotate_left(1);
        let rotated = signer(9).seal_at(shared.clone(), "SN", 650, None, 77).unwrap();
        assert_eq!(rotated, sealed);
        let mut reversed = shared.clone();
        reversed.reverse();
        let reversed = signer(9).seal_at(reversed, "SN", 650, None, 77).unwrap();
        assert_eq!(reversed.canonical_payload, sealed.canonical_payload);
        assert_eq!(reversed.signature, sealed.signature);
    }
}

#[test]
fn canonical_payload_has_sorted_keys() {
    let seal = signer(9)
        .with_manifest_version(3)
        .seal_at(fixture_attributions().split_off(1), "SN", 650, None, 77)
        .unwrap();
    let text = String::from_utf8(seal.canonical_payload).unwrap();
    assert_eq!(
        text,
        "{\"attributions\":[{\"attributed_energy_uj\":100,\"burst_power_uw\":1000000,\
         \"hardware_signature\":\"NV-H100-SXM5-SN-0001\",\"pid\":7,\"window_end_ns\":200,\
         \"window_start_ns\":100}],\"hardware_serial\":\"SN\",\"manifest_version\":3,\
         \"sealed_at_unix_ns\":77,\"total_micro_joules\":650}"
    );
}

#[test]
fn the_identity_is_part_of_the_signed_payload() {
    let identity = HardwareIdentity::manual("host-a");
    let seal = signer(9)
        .seal_at(Vec::new(), "SN", 650, Some(identity), 77)
        .unwrap();
    assert_eq!(seal.verify(), Ok(()));
    let text = String::from_utf8(seal.canonical_payload.clone()).unwrap();
    assert_eq!(
        text,
        "{\"attributions\":[],\"hardware_identity\":{\"fingerprint\":\"host-a\",\
         \"source\":\"manual\"},\"hardware_serial\":\"SN\",\"manifest_version\":1,\
         \"sealed_at_unix_ns\":77,\"total_micro_joules\":650}"
    );
    let mut replayed = seal;
    replayed.payload.hardware_identity = Some(HardwareIdentity::manual("host-b"));
    assert_eq!(replayed.verify(), Err(SealError::PayloadMismatch));
}

#[test]
fn a_bound_seal_verifies() {
    let identity = HardwareIdentity::manual("host-a");
    let seal = signer(4)
        .seal_with_identity(fixture_attributions(), "SN", 650, identity.clone())
        .unwrap();
    assert_eq!(seal.verify(), Ok(()));
    assert_eq!(seal.payload.hardware_identity, Some(identity));
    assert!(seal.payload.sealed_at_unix_ns > 1_600_000_000_000_000_000);
}

#[test]
fn every_field_of_a_seal_is_checked() {
    let good = signer(3).seal(fixture_attributions(), "SN", 650).unwrap();

    let mut bad = good.clone();
    bad.signature.pop();
    assert_eq!(bad.verify(), Err(SealError::InvalidSignatureLength));

    let mut bad = good.clone();
    bad.signature[0] ^= 1;
    assert_eq!(bad.verify(), Err(SealError::SignatureRejected));

    let mut bad = good.clone();
    bad.canonical_payload.push(b' ');
    assert_eq!(bad.verify(), Err(SealError::PayloadMismatch));

    let mut bad = good.clone();
    bad.signing_public_key = signer(4).verifying_key().to_bytes();
    assert_eq!(bad.verify(), Err(SealError::SignatureRejected));

    // No point of the curve has this encoding.
    let mut bad = good.clone();
    bad.signing_public_key = [2; 32];
    bad.signature.clear();
    assert_eq!(bad.verify(), Err(SealError::InvalidPublicKey));

    let mut bad = good.clone();
    bad.payload.attributions[0].attributed_energy_uj += 1;
    assert_eq!(bad.verify(), Err(SealError::PayloadMismatch));

    let mut bad = good;
    bad.payload.sealed_at_unix_ns = 0;
    assert_eq!(bad.verify(), Err(SealError::PayloadMismatch));
}

#[test]
fn a_seal_carries_the_public_key_of_its_signer() {
    let key = SigningKey::from_bytes(&[3_u8; SECRET_KEY_LENGTH]);
    let seal = signer(3).seal(Vec::new(), "SN", 0).unwrap();
    assert_eq!(signer(3).verifying_key(), key.verifying_key());
    assert_eq!(seal.signing_public_key, key.verifying_key().to_bytes());
    assert_eq!(seal.payload.manifest_version, 1);
    assert_eq!(seal.signature.len(), SIGNATURE_LENGTH);
    assert_eq!(seal.payload.hardware_identity, None);
}

#[test]
fn seals_are_published_every_minute() {
    assert_eq!(AMALGAFY_SEAL_INTERVAL_SECS, 60);
}
