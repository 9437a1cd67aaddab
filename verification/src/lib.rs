//! Micro-joule attribution: turns power telemetry into per-process energy,
//! keeps the running totals, and seals them under an Ed25519 signature.

pub mod attribution;
pub mod clock;
pub mod error;
pub mod hardware;
pub mod json;
pub mod manifest;
pub mod provider;
pub mod providers;
pub mod registry;
pub mod signer;
pub mod signing;
pub mod sorting;
pub mod text;

pub use crate::attribution::{
    baseline_burst_power_uw, burst_energy_uj, deterministic_attribution_uj, nvml_window_energy_uj,
    rapl_fallback_uj, window_energy_uj, NANOSECONDS_PER_SECOND,
};
pub use crate::error::ProviderError;
pub use crate::hardware::{HardwareIdentity, HardwareIdentitySource};
pub use crate::json::canonical_json;
pub use crate::manifest::{EnergyManifest, EnergyManifestPayload};
pub use crate::provider::{
    DifferentialSampler, EnergyProvider, Heartbeat, PidEnergyAttribution, PowerSnapshot,
    SAMPLING_LOOP_INTERVAL_MS,
};
pub use crate::providers::apple_silicon::{AppleEnergyChannel, AppleSiliconProvider};
pub use crate::providers::linux::{DmaFenceEvent, LinuxProvider};
pub use crate::providers::windows::{NvmlComputeProcess, WindowsProvider};
pub use crate::registry::AmalgafyRegistry;
pub use crate::signer::{
    AmalgafySeal, AmalgafySealPayload, AmalgafySigner, AMALGAFY_SEAL_INTERVAL_SECS,
};
pub use crate::signing::SealError;
