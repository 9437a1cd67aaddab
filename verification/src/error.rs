//! What can go wrong when a provider is asked for telemetry.

use vstd::prelude::*;

verus! {

/// Why a provider could not answer.
#[derive(Debug, Clone, PartialEq, Eq)]
pub enum ProviderError {
    /// The RAPL energy counter could not be read.
    UnreadableEnergyCounter,
    /// The RAPL energy counter does not read as a number.
    MalformedEnergyCounter,
    /// Power readings need an IOReport subscription, and there is none.
    SubscriptionRequired,
    /// IOReport has no catalogue of energy channels.
    MissingChannelCatalogue,
    /// A channel of the catalogue lacks one of its texts.
    IncompleteChannel,
    /// An NVML call failed.
    Nvml {
        /// The call.
        context: String,
        /// NVML's own words.
        reason: String,
    },
}

} // verus!
