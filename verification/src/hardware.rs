//! The identity of the machine that a seal is bound to.

use vstd::prelude::*;
use vstd::string::StringExecFns;

use crate::json::{
    field, field_models, has_fields, holds_field, keys_differ, object_value, text_value,
    value_model, FieldModel, JsonModel,
};
use crate::providers::windows::{DeviceTelemetry, WindowsProvider};
use crate::text::{
    decimal, digit_char, is_digit, is_white_space, push_decimal, stands_between_white_space, trim,
    trimmed, trimming_is_exact, trimming_takes_white_space_only,
};

verus! {

/// Which probe produced an identity.
#[derive(Debug, Clone, Copy, PartialEq, Eq, Structural)]
pub enum HardwareIdentitySource {
    /// The serial number that IOKit publishes on macOS.
    MacosIoKitSerial,
    /// The machine identifier of a Linux host.
    LinuxMachineId,
    /// The identifier of a GPU of a Linux host.
    LinuxGpuUuid,
    /// The NVML identifier of a GPU on Windows, where its serial is missing.
    WindowsNvmlUuid,
    /// The NVML serial of a GPU on Windows.
    WindowsNvmlSerial,
    /// Supplied by the caller.
    Manual,
    /// No probe succeeded. Seals with such an identity are unverifiable.
    Synthetic,
}

/// The name of a source in an encoded identity.
pub open spec fn source_label(source: HardwareIdentitySource) -> Seq<char> {
    match source {
        HardwareIdentitySource::MacosIoKitSerial => "macos_io_kit_serial"@,
        HardwareIdentitySource::LinuxMachineId => "linux_machine_id"@,
        HardwareIdentitySource::LinuxGpuUuid => "linux_gpu_uuid"@,
        HardwareIdentitySource::WindowsNvmlUuid => "windows_nvml_uuid"@,
        HardwareIdentitySource::WindowsNvmlSerial => "windows_nvml_serial"@,
        HardwareIdentitySource::Manual => "manual"@,
        HardwareIdentitySource::Synthetic => "synthetic"@,
    }
}

/// The name of a source's variant.
pub open spec fn source_name(source: HardwareIdentitySource) -> Seq<char> {
    match source {
        HardwareIdentitySource::MacosIoKitSerial => "MacosIoKitSerial"@,
        HardwareIdentitySource::LinuxMachineId => "LinuxMachineId"@,
        HardwareIdentitySource::LinuxGpuUuid => "LinuxGpuUuid"@,
        HardwareIdentitySource::WindowsNvmlUuid => "WindowsNvmlUuid"@,
        HardwareIdentitySource::WindowsNvmlSerial => "WindowsNvmlSerial"@,
        HardwareIdentitySource::Manual => "Manual"@,
        HardwareIdentitySource::Synthetic => "Synthetic"@,
    }
}

impl HardwareIdentitySource {
    /// The name of the source in an encoded identity.
    pub fn label(self) -> (label: &'static str)
        ensures
            label@ == source_label(self),
    {
        match self {
            HardwareIdentitySource::MacosIoKitSerial => "macos_io_kit_serial",
            HardwareIdentitySource::LinuxMachineId => "linux_machine_id",
            HardwareIdentitySource::LinuxGpuUuid => "linux_gpu_uuid",
            HardwareIdentitySource::WindowsNvmlUuid => "windows_nvml_uuid",
            HardwareIdentitySource::WindowsNvmlSerial => "windows_nvml_serial",
            HardwareIdentitySource::Manual => "manual",
            HardwareIdentitySource::Synthetic => "synthetic",
        }
    }

    /// The name of the source's variant.
    pub fn name(self) -> (name: &'static str)
        ensures
            name@ == source_name(self),
    {
        match self {
            HardwareIdentitySource::MacosIoKitSerial => "MacosIoKitSerial",
            HardwareIdentitySource::LinuxMachineId => "LinuxMachineId",
            HardwareIdentitySource::LinuxGpuUuid => "LinuxGpuUuid",
            HardwareIdentitySource::WindowsNvmlUuid => "WindowsNvmlUuid",
            HardwareIdentitySource::WindowsNvmlSerial => "WindowsNvmlSerial",
            HardwareIdentitySource::Manual => "Manual",
            HardwareIdentitySource::Synthetic => "Synthetic",
        }
    }
}

/// Different sources have different labels.
pub proof fn labels_tell_sources_apart(a: HardwareIdentitySource, b: HardwareIdentitySource)
    requires
        source_label(a) == source_label(b),
    ensures
        a == b,
{
    reveal_strlit("macos_io_kit_serial");
    reveal_strlit("linux_machine_id");
    reveal_strlit("linux_gpu_uuid");
    reveal_strlit("windows_nvml_uuid");
    reveal_strlit("windows_nvml_serial");
    reveal_strlit("manual");
    reveal_strlit("synthetic");
    let s = source_label(a);
    let t = source_label(b);
    assert(s.len() == t.len() && s[0] == t[0]);
    assert(s.len() > 0);
}

/// A stable identifier of the physical machine.
#[derive(Debug, Clone, PartialEq, Eq)]
pub struct HardwareIdentity {
    /// The fingerprint, in a form that humans can read.
    pub fingerprint: String,
    /// Where the fingerprint came from.
    pub source: HardwareIdentitySource,
}

/// An identity as a plain value.
#[verifier::ext_equal]
pub struct IdentityModel {
    pub fingerprint: Seq<char>,
    pub source: HardwareIdentitySource,
}

impl View for HardwareIdentity {
    type V = IdentityModel;

    open spec fn view(&self) -> IdentityModel {
        IdentityModel { fingerprint: self.fingerprint@, source: self.source }
    }
}

/// What the process knows of its host: the `HOSTNAME` and `COMPUTERNAME`
/// variables, the contents of `/etc/hostname`, each where it can be read, and
/// the process's own identifier.
#[derive(Debug, Clone, PartialEq, Eq)]
pub struct HostContext {
    pub hostname_var: Option<String>,
    pub computername_var: Option<String>,
    pub hostname_file: Option<String>,
    pub pid: u32,
}

/// The name that a source gives, without the white space around it; none where
/// the source is blank or cannot be read.
pub open spec fn given_name(source: Option<String>) -> Option<Seq<char>> {
    match source {
        Some(text) => if trimmed(text@).len() > 0 {
            Some(trimmed(text@))
        } else {
            None
        },
        None => None,
    }
}

/// The host's name: that of the first source that gives one, or a placeholder.
pub open spec fn host_name(context: HostContext) -> Seq<char> {
    match given_name(context.hostname_var) {
        Some(name) => name,
        None => match given_name(context.computername_var) {
            Some(name) => name,
            None => match given_name(context.hostname_file) {
                Some(name) => name,
                None => "unknown-host"@,
            },
        },
    }
}

/// The fingerprint of a host without a readable identity.
pub open spec fn synthetic_fingerprint(reason: Seq<char>, host: Seq<char>, pid: u32) -> Seq<char> {
    "synthetic:"@ + reason + ":host="@ + host + ":pid="@ + decimal(pid as nat)
}

/// The identity of a host without a readable one.
pub open spec fn synthetic_identity(reason: Seq<char>, context: HostContext) -> IdentityModel {
    IdentityModel {
        fingerprint: synthetic_fingerprint(reason, host_name(context), context.pid),
        source: HardwareIdentitySource::Synthetic,
    }
}

/// Why a Linux host has no machine identifier.
#[derive(Debug, Clone, Copy, PartialEq, Eq, Structural)]
pub enum MachineIdError {
    /// `/etc/machine-id` cannot be read.
    Unreadable,
    /// `/etc/machine-id` is blank.
    Empty,
}

/// Why a Linux host has no identifier of a GPU.
#[derive(Debug, Clone, Copy, PartialEq, Eq, Structural)]
pub enum GpuUuidError {
    /// The directory of the GPUs cannot be listed.
    DirectoryUnreadable,
    /// No GPU has a readable identifier that is not blank.
    NoneFound,
}

/// Why no identity was found.
#[derive(Debug, Clone, Copy, PartialEq, Eq, Structural)]
pub enum ProbeError {
    /// Neither the machine identifier nor a GPU identifier is there.
    NoLinuxIdentity { machine_id: MachineIdError, gpu_uuid: GpuUuidError },
    /// IOKit has no serial number.
    NoPlatformSerial,
    /// NVML does not give access to the device.
    DeviceUnavailable,
    /// There is no probe for this operating system.
    UnsupportedSystem,
}

/// What the host's telemetry says of its identity, as far as it can be read.
#[derive(Debug, Clone)]
pub enum HostTelemetry {
    /// The contents of `/etc/machine-id`, and of the identifier file of each
    /// GPU in the order of their directory.
    Linux { machine_id: Option<String>, gpu_uuids: Option<Vec<Option<String>>> },
    /// The serial number that IOKit publishes.
    Macos { serial: Option<String> },
    /// The first NVML device.
    Windows { device: Option<DeviceTelemetry> },
    /// An operating system without a probe.
    Other,
}

/// The machine identifier that a file holds, without the white space around it.
pub open spec fn machine_id(raw: Option<Seq<char>>) -> Result<Seq<char>, MachineIdError> {
    match raw {
        None => Err(MachineIdError::Unreadable),
        Some(text) => if trimmed(text).len() == 0 {
            Err(MachineIdError::Empty)
        } else {
            Ok(trimmed(text))
        },
    }
}

/// A text as a plain value, where it is there.
pub open spec fn optional_text(text: Option<String>) -> Option<Seq<char>> {
    match text {
        Some(text) => Some(text@),
        None => None,
    }
}

/// Whether a GPU's identifier file holds an identifier.
pub open spec fn names_a_gpu(raw: Option<String>) -> bool {
    raw matches Some(text) && trimmed(text@).len() > 0
}

/// Whether `uuid` is the first identifier that the files of the GPUs hold.
pub open spec fn is_first_gpu_uuid(raws: Seq<Option<String>>, uuid: Seq<char>) -> bool {
    exists|i: int|
        0 <= i < raws.len() && names_a_gpu(#[trigger] raws[i]) && uuid == trimmed(raws[i]->0@) && (
        forall|j: int| 0 <= j < i ==> !names_a_gpu(#[trigger] raws[j]))
}

/// Whether none of the files holds an identifier.
pub open spec fn no_gpu_uuid(raws: Seq<Option<String>>) -> bool {
    forall|i: int| 0 <= i < raws.len() ==> !names_a_gpu(#[trigger] raws[i])
}

fn read_machine_id(raw: &Option<String>) -> (id: Result<String, MachineIdError>)
    ensures
        match id {
            Ok(id) => machine_id(optional_text(*raw)) == Ok::<Seq<char>, MachineIdError>(id@),
            Err(error) => machine_id(optional_text(*raw)) == Err::<Seq<char>, MachineIdError>(
                error,
            ),
        },
{
    match raw {
        None => Err(MachineIdError::Unreadable),
        Some(text) => {
            let inner = trim(text.as_str());
            if inner.is_empty() {
                Err(MachineIdError::Empty)
            } else {
                Ok(inner.to_owned())
            }
        },
    }
}

fn read_gpu_uuid(raws: &Option<Vec<Option<String>>>) -> (uuid: Result<String, GpuUuidError>)
    ensures
        raws is None <==> uuid == Err::<String, GpuUuidError>(GpuUuidError::DirectoryUnreadable),
        uuid is Ok ==> is_first_gpu_uuid(raws->0@, uuid->Ok_0@),
        raws is Some && uuid is Err ==> uuid == Err::<String, GpuUuidError>(GpuUuidError::NoneFound)
            && no_gpu_uuid(raws->0@),
{
    let files = match raws {
        None => return Err(GpuUuidError::DirectoryUnreadable),
        Some(files) => files,
    };
    let mut i: usize = 0;
    while i < files.len()
        invariant
            i <= files.len(),
            forall|j: int| 0 <= j < i ==> !names_a_gpu(#[trigger] files@[j]),
            *raws == Some(*files),
        decreases files.len() - i,
    {
        if let Some(text) = &files[i] {
            let inner = trim(text.as_str());
            if !inner.is_empty() {
                assert(names_a_gpu(files@[i as int]));
                return Ok(inner.to_owned());
            }
        }
        i += 1;
    }
    Err(GpuUuidError::NoneFound)
}

/// Whether `identity` is what the probe of a Linux host finds: the machine
/// identifier, or else the first identifier of a GPU.
pub open spec fn is_linux_identity(
    machine_file: Option<String>,
    gpu_files: Option<Vec<Option<String>>>,
    identity: IdentityModel,
) -> bool {
    match machine_id(optional_text(machine_file)) {
        Ok(id) => identity == (IdentityModel {
            fingerprint: id,
            source: HardwareIdentitySource::LinuxMachineId,
        }),
        Err(_) => gpu_files is Some && is_first_gpu_uuid(gpu_files->0@, identity.fingerprint)
            && identity.source == HardwareIdentitySource::LinuxGpuUuid,
    }
}

/// Whether a Linux host has neither a machine identifier nor one of a GPU, for
/// the given reasons.
pub open spec fn no_linux_identity(
    machine_file: Option<String>,
    gpu_files: Option<Vec<Option<String>>>,
    error: ProbeError,
) -> bool {
    match error {
        ProbeError::NoLinuxIdentity { machine_id: no_machine, gpu_uuid: no_gpu } => {
            &&& machine_id(optional_text(machine_file)) == Err::<Seq<char>, MachineIdError>(
                no_machine,
            )
            &&& match gpu_files {
                None => no_gpu == GpuUuidError::DirectoryUnreadable,
                Some(files) => no_gpu == GpuUuidError::NoneFound && no_gpu_uuid(files@),
            }
        },
        _ => false,
    }
}

/// The identity that the probe finds, or why it finds none.
pub open spec fn is_probed(
    telemetry: HostTelemetry,
    context: HostContext,
    outcome: Result<IdentityModel, ProbeError>,
) -> bool {
    match telemetry {
        HostTelemetry::Linux { machine_id, gpu_uuids } => match outcome {
            Ok(identity) => is_linux_identity(machine_id, gpu_uuids, identity),
            Err(error) => no_linux_identity(machine_id, gpu_uuids, error),
        },
        HostTelemetry::Macos { serial } => outcome == match serial {
            Some(text) => if text@.len() > 0 {
                Ok(
                    IdentityModel {
                        fingerprint: text@,
                        source: HardwareIdentitySource::MacosIoKitSerial,
                    },
                )
            } else {
                Err(ProbeError::NoPlatformSerial)
            },
            None => Err(ProbeError::NoPlatformSerial),
        },
        HostTelemetry::Windows { device } => outcome == match device {
            Some(device) => Ok(device_identity(device, context)),
            None => Err(ProbeError::DeviceUnavailable),
        },
        HostTelemetry::Other => outcome == Err::<IdentityModel, ProbeError>(
            ProbeError::UnsupportedSystem,
        ),
    }
}

/// The identity of an NVML device: its serial, or else its identifier, or else
/// a synthetic identity.
pub open spec fn device_identity(device: DeviceTelemetry, context: HostContext) -> IdentityModel {
    let (signature, source) = crate::providers::windows::device_signature(device);
    if source == HardwareIdentitySource::Synthetic {
        synthetic_identity(signature, context)
    } else {
        IdentityModel { fingerprint: signature, source }
    }
}

/// The outcome of a probe as a plain value.
pub open spec fn outcome_model(outcome: Result<HardwareIdentity, ProbeError>) -> Result<
    IdentityModel,
    ProbeError,
> {
    match outcome {
        Ok(identity) => Ok(identity@),
        Err(error) => Err(error),
    }
}

fn read_name(source: &Option<String>) -> (name: Option<String>)
    ensures
        optional_text(name) == given_name(*source),
{
    match source {
        Some(text) => {
            let inner = trim(text.as_str());
            if inner.is_empty() {
                None
            } else {
                Some(inner.to_owned())
            }
        },
        None => None,
    }
}

fn resolve_host(context: &HostContext) -> (host: String)
    ensures
        host@ == host_name(*context),
{
    if let Some(name) = read_name(&context.hostname_var) {
        return name;
    }
    if let Some(name) = read_name(&context.computername_var) {
        return name;
    }
    if let Some(name) = read_name(&context.hostname_file) {
        return name;
    }
    "unknown-host".to_owned()
}

impl HardwareIdentity {
    /// An identity that the caller supplies.
    pub fn manual(fingerprint: &str) -> (identity: Self)
        ensures
            identity@ == (IdentityModel {
                fingerprint: fingerprint@,
                source: HardwareIdentitySource::Manual,
            }),
    {
        HardwareIdentity {
            fingerprint: fingerprint.to_owned(),
            source: HardwareIdentitySource::Manual,
        }
    }

    /// A placeholder for a host whose probes all failed. It names the host and
    /// the process, so that two of them are told apart.
    pub fn synthetic(reason: &str, context: &HostContext) -> (identity: Self)
        ensures
            identity@ == synthetic_identity(reason@, *context),
    {
        let host = resolve_host(context);
        let mut fingerprint = "synthetic:".to_owned();
        fingerprint.append(reason);
        fingerprint.append(":host=");
        fingerprint.append(host.as_str());
        fingerprint.append(":pid=");
        push_decimal(&mut fingerprint, context.pid);
        HardwareIdentity { fingerprint, source: HardwareIdentitySource::Synthetic }
    }

    /// The identity that the host's telemetry gives, or a synthetic one.
    pub fn probe(telemetry: &HostTelemetry, context: &HostContext) -> (identity: Self)
        ensures
            exists|outcome: Result<IdentityModel, ProbeError>| #[trigger]
                is_probed(*telemetry, *context, outcome) && identity@ == match outcome {
                    Ok(found) => found,
                    Err(_) => synthetic_identity("probe_failed"@, *context),
                },
            identity.fingerprint@.len() > 0,
            identity.source == HardwareIdentitySource::Synthetic
                ==> "synthetic:"@.is_prefix_of(identity.fingerprint@),
    {
        let outcome = Self::try_probe(telemetry, context);
        assert(is_probed(*telemetry, *context, outcome_model(outcome)));
        match outcome {
            Ok(identity) => identity,
            Err(_) => {
                proof {
                    lemma_synthetic_is_marked("probe_failed"@, *context);
                }
                Self::synthetic("probe_failed", context)
            },
        }
    }

    /// The identity that the host's telemetry gives, or why it gives none.
    pub fn try_probe(telemetry: &HostTelemetry, context: &HostContext) -> (outcome: Result<
        Self,
        ProbeError,
    >)
        ensures
            is_probed(*telemetry, *context, outcome_model(outcome)),
            outcome matches Ok(identity) ==> identity.fingerprint@.len() > 0,
            outcome matches Ok(identity) ==> identity.source == HardwareIdentitySource::Synthetic
                ==> "synthetic:"@.is_prefix_of(identity.fingerprint@),
    {
        match telemetry {
            HostTelemetry::Linux { machine_id, gpu_uuids } => match read_machine_id(machine_id) {
                Ok(fingerprint) => Ok(
                    HardwareIdentity {
                        fingerprint,
                        source: HardwareIdentitySource::LinuxMachineId,
                    },
                ),
                Err(no_machine) => match read_gpu_uuid(gpu_uuids) {
                    Ok(fingerprint) => Ok(
                        HardwareIdentity {
                            fingerprint,
                            source: HardwareIdentitySource::LinuxGpuUuid,
                        },
                    ),
                    Err(no_gpu) => Err(
                        ProbeError::NoLinuxIdentity { machine_id: no_machine, gpu_uuid: no_gpu },
                    ),
                },
            },
            HostTelemetry::Macos { serial } => match serial {
                Some(text) => if text.as_str().is_empty() {
                    Err(ProbeError::NoPlatformSerial)
                } else {
                    Ok(
                        HardwareIdentity {
                            fingerprint: text.clone(),
                            source: HardwareIdentitySource::MacosIoKitSerial,
                        },
                    )
                },
                None => Err(ProbeError::NoPlatformSerial),
            },
            HostTelemetry::Windows { device } => match device {
                Some(device) => Ok(Self::probe_windows_device(device, context)),
                None => Err(ProbeError::DeviceUnavailable),
            },
            HostTelemetry::Other => Err(ProbeError::UnsupportedSystem),
        }
    }

    /// The identity of one NVML device.
    pub fn probe_windows_device(device: &DeviceTelemetry, context: &HostContext) -> (identity: Self)
        ensures
            identity@ == device_identity(*device, *context),
            identity.fingerprint@.len() > 0,
            identity.source == HardwareIdentitySource::Synthetic
                ==> "synthetic:"@.is_prefix_of(identity.fingerprint@),
    {
        let provider = WindowsProvider::new(device);
        let source = provider.signature_source();
        let signature = provider.hardware_signature_string();
        if source == HardwareIdentitySource::Synthetic {
            proof {
                lemma_synthetic_is_marked(signature@, *context);
            }
            Self::synthetic(signature.as_str(), context)
        } else {
            HardwareIdentity { fingerprint: signature, source }
        }
    }

    /// The identity for humans: the fingerprint and where it came from.
    pub fn describe(&self) -> (text: String)
        ensures
            text@ == self.fingerprint@ + " (source: "@ + source_name(self.source) + ")"@,
    {
        let mut text = self.fingerprint.clone();
        text.append(" (source: ");
        text.append(self.source.name());
        text.append(")");
        text
    }

    /// The identity as a JSON document.
    pub fn to_json(&self) -> (document: serde_json::Value)
        ensures
            value_model(document) == identity_document(self@),
    {
        let fields = vec![
            field("fingerprint", text_value(self.fingerprint.as_str())),
            field("source", text_value(self.source.label())),
        ];
        proof {
            lemma_identity_keys_differ(self@);
            assert(field_models(fields@) =~= identity_fields(self@));
        }
        object_value(fields)
    }
}

/// The fields of an encoded identity.
pub open spec fn identity_fields(identity: IdentityModel) -> Seq<FieldModel> {
    seq![
        FieldModel { key: "fingerprint"@, value: JsonModel::Text(identity.fingerprint) },
        FieldModel { key: "source"@, value: JsonModel::Text(source_label(identity.source)) },
    ]
}

/// An identity as a JSON document.
pub open spec fn identity_document(identity: IdentityModel) -> JsonModel {
    JsonModel::Object(identity_fields(identity))
}

pub(crate) proof fn lemma_identity_keys_differ(identity: IdentityModel)
    ensures
        keys_differ(identity_fields(identity)),
{
    reveal_strlit("fingerprint");
    reveal_strlit("source");
    assert("fingerprint"@.len() != "source"@.len());
}

/// A synthetic fingerprint says what it is.
proof fn lemma_synthetic_is_marked(reason: Seq<char>, context: HostContext)
    ensures
        "synthetic:"@.is_prefix_of(synthetic_identity(reason, context).fingerprint),
        synthetic_identity(reason, context).fingerprint.len() > 0,
{
    reveal_strlit("synthetic:");
    let fingerprint = synthetic_identity(reason, context).fingerprint;
    assert(fingerprint.subrange(0, "synthetic:"@.len() as int) =~= "synthetic:"@);
}

proof fn lemma_decimal_is_digits(n: nat)
    ensures
        decimal(n).len() > 0,
        forall|i: int| 0 <= i < decimal(n).len() ==> is_digit(#[trigger] decimal(n)[i]),
    decreases n,
{
    if n >= 10 {
        lemma_decimal_is_digits(n / 10);
    }
}

proof fn lemma_decimal_is_injective(m: nat, n: nat)
    requires
        decimal(m) == decimal(n),
    ensures
        m == n,
    decreases m,
{
    lemma_decimal_is_digits(m / 10);
    lemma_decimal_is_digits(n / 10);
    assert(decimal(m).last() == digit_char(m as int % 10));
    assert(decimal(n).last() == digit_char(n as int % 10));
    if m >= 10 && n >= 10 {
        assert(decimal(m).drop_last() =~= decimal(m / 10));
        assert(decimal(n).drop_last() =~= decimal(n / 10));
        lemma_decimal_is_injective(m / 10, n / 10);
    }
}

/// Two hosts of different names, or two processes, have different synthetic
/// identities.
pub proof fn synthetic_identities_tell_hosts_apart(
    reason: Seq<char>,
    first: HostContext,
    second: HostContext,
)
    requires
        synthetic_identity(reason, first) == synthetic_identity(reason, second),
    ensures
        host_name(first) == host_name(second),
        first.pid == second.pid,
{
    reveal_strlit(":pid=");
    let (d1, d2) = (decimal(first.pid as nat), decimal(second.pid as nat));
    let front = "synthetic:"@ + reason + ":host="@;
    let (h1, h2) = (host_name(first), host_name(second));
    let whole = front + h1 + ":pid="@ + d1;
    let other = front + h2 + ":pid="@ + d2;
    assert(whole == synthetic_identity(reason, first).fingerprint);
    assert(other == synthetic_identity(reason, second).fingerprint);
    lemma_decimal_is_digits(first.pid as nat);
    lemma_decimal_is_digits(second.pid as nat);
    let end = whole.len() as int;
    if d1.len() < d2.len() {
        assert(whole[end - d1.len() - 1] == '=');
        assert(other[end - d1.len() - 1] == d2[d2.len() - d1.len() - 1]);
    } else if d2.len() < d1.len() {
        assert(other[end - d2.len() - 1] == '=');
        assert(whole[end - d2.len() - 1] == d1[d1.len() - d2.len() - 1]);
    }
    assert(whole.subrange(end - d1.len(), end) =~= d1);
    assert(other.subrange(end - d2.len(), end) =~= d2);
    lemma_decimal_is_injective(first.pid as nat, second.pid as nat);
    let start = front.len() as int;
    assert(whole.subrange(start, start + h1.len()) =~= h1);
    assert(other.subrange(start, start + h2.len()) =~= h2);
}

/// A plain identity shows the whole fingerprint and the source.
pub proof fn plain_identity_shows_every_field(identity: HardwareIdentity)
    ensures
        identity@.fingerprint == identity.fingerprint@,
        identity@.source == identity.source,
{
}

/// Whether a text holds nothing but white space.
pub open spec fn is_blank(text: Seq<char>) -> bool {
    forall|i: int| 0 <= i < text.len() ==> is_white_space(#[trigger] text[i])
}

proof fn lemma_blank_texts_trim_away(text: Seq<char>)
    ensures
        is_blank(text) <==> trimmed(text).len() == 0,
{
    trimming_takes_white_space_only(text);
    let (from, to) = choose|from: int, to: int|
        {
            &&& 0 <= from <= to <= text.len()
            &&& trimmed(text) == #[trigger] text.subrange(from, to)
            &&& forall|i: int| 0 <= i < from ==> is_white_space(#[trigger] text[i])
            &&& forall|i: int| to <= i < text.len() ==> is_white_space(#[trigger] text[i])
            &&& from < to ==> !is_white_space(text[from]) && !is_white_space(text[to - 1])
        };
    assert(text.subrange(from, to).len() == to - from);
    if from < to {
        assert(!is_white_space(text[from]));
    }
}

/// A Linux host with a machine identifier is identified by the whole of it: the
/// file is white space, then the fingerprint, then white space, and no white space
/// stands at either end of the fingerprint.
pub proof fn linux_fingerprint_is_the_whole_machine_id(
    machine_file: String,
    gpu_files: Option<Vec<Option<String>>>,
    context: HostContext,
    outcome: Result<IdentityModel, ProbeError>,
)
    requires
        is_probed(
            HostTelemetry::Linux { machine_id: Some(machine_file), gpu_uuids: gpu_files },
            context,
            outcome,
        ),
    ensures
        !is_blank(machine_file@) ==> outcome is Ok,
        outcome matches Ok(identity) ==> (identity.source == HardwareIdentitySource::LinuxMachineId
            <==> !is_blank(machine_file@)),
        outcome matches Ok(identity) ==> !is_blank(machine_file@) ==> stands_between_white_space(
            machine_file@,
            identity.fingerprint,
        ) && identity.fingerprint.len() > 0,
{
    lemma_blank_texts_trim_away(machine_file@);
    trimming_takes_white_space_only(machine_file@);
}

/// Linux hosts with different machine identifiers have different fingerprints.
pub proof fn machine_ids_tell_hosts_apart(
    first_file: String,
    second_file: String,
    gpu_files: Option<Vec<Option<String>>>,
    context: HostContext,
    first: IdentityModel,
    second: IdentityModel,
)
    requires
        is_probed(
            HostTelemetry::Linux { machine_id: Some(first_file), gpu_uuids: gpu_files },
            context,
            Ok(first),
        ),
        is_probed(
            HostTelemetry::Linux { machine_id: Some(second_file), gpu_uuids: gpu_files },
            context,
            Ok(second),
        ),
        first_file@ != second_file@,
        first_file@.len() > 0,
        second_file@.len() > 0,
        !is_white_space(first_file@[0]),
        !is_white_space(first_file@.last()),
        !is_white_space(second_file@[0]),
        !is_white_space(second_file@.last()),
    ensures
        first.fingerprint == first_file@,
        second.fingerprint == second_file@,
        first.fingerprint != second.fingerprint,
{
    let (a, b) = (first_file@, second_file@);
    assert(a.subrange(0, a.len() as int) =~= a);
    assert(b.subrange(0, b.len() as int) =~= b);
    assert(stands_between_white_space(a, a));
    assert(stands_between_white_space(b, b));
    trimming_is_exact(a, a);
    trimming_is_exact(b, b);
}

/// A Linux host without a machine identifier is identified by the whole text of
/// the first GPU that has one; without any there is no identity, and the reasons
/// are those of the files.
pub proof fn linux_fingerprint_falls_back_to_the_first_gpu(
    machine_file: Option<String>,
    gpu_files: Option<Vec<Option<String>>>,
    context: HostContext,
    outcome: Result<IdentityModel, ProbeError>,
    first: int,
)
    requires
        is_probed(
            HostTelemetry::Linux { machine_id: machine_file, gpu_uuids: gpu_files },
            context,
            outcome,
        ),
        machine_file matches Some(text) ==> is_blank(text@),
        gpu_files matches Some(files) ==> {
            &&& 0 <= first <= files@.len()
            &&& forall|i: int|
                0 <= i < first ==> ((#[trigger] files@[i]) matches Some(text) ==> is_blank(text@))
            &&& first < files@.len() ==> (files@[first] matches Some(text) && !is_blank(text@))
        },
    ensures
        outcome is Ok <==> gpu_files is Some && first < gpu_files->0@.len(),
        outcome matches Ok(identity) ==> {
            &&& identity.source == HardwareIdentitySource::LinuxGpuUuid
            &&& identity.fingerprint.len() > 0
            &&& stands_between_white_space(gpu_files->0@[first]->0@, identity.fingerprint)
        },
        outcome matches Err(error) ==> error == (ProbeError::NoLinuxIdentity {
            machine_id: if machine_file is None {
                MachineIdError::Unreadable
            } else {
                MachineIdError::Empty
            },
            gpu_uuid: if gpu_files is None {
                GpuUuidError::DirectoryUnreadable
            } else {
                GpuUuidError::NoneFound
            },
        }),
{
    if machine_file is Some {
        lemma_blank_texts_trim_away(machine_file->0@);
    }
    if gpu_files is Some {
        let files = gpu_files->0@;
        assert forall|i: int| 0 <= i < first implies !names_a_gpu(#[trigger] files[i]) by {
            if files[i] is Some {
                lemma_blank_texts_trim_away(files[i]->0@);
            }
        }
        if first < files.len() {
            lemma_blank_texts_trim_away(files[first]->0@);
            trimming_takes_white_space_only(files[first]->0@);
            assert(names_a_gpu(files[first]));
        }
    }
}

/// A Mac is identified by its whole serial number, where it has one.
pub proof fn macos_fingerprint_is_the_serial(
    serial: Option<String>,
    context: HostContext,
    outcome: Result<IdentityModel, ProbeError>,
)
    requires
        is_probed(HostTelemetry::Macos { serial }, context, outcome),
    ensures
        outcome is Ok <==> serial is Some && serial->0@.len() > 0,
        outcome matches Ok(identity) ==> identity.fingerprint == serial->0@ && identity.source
            == HardwareIdentitySource::MacosIoKitSerial,
        outcome matches Err(error) ==> error == ProbeError::NoPlatformSerial,
{
}

/// A Windows host is identified by the whole serial of its device, or else by the
/// whole identifier, or else by a placeholder that says so.
pub proof fn windows_fingerprint_is_the_device_s(
    device: Option<DeviceTelemetry>,
    context: HostContext,
    outcome: Result<IdentityModel, ProbeError>,
)
    requires
        is_probed(HostTelemetry::Windows { device }, context, outcome),
    ensures
        outcome is Ok <==> device is Some,
        outcome matches Err(error) ==> error == ProbeError::DeviceUnavailable,
        outcome matches Ok(identity) ==> {
            let serial = device->0.serial;
            let uuid = device->0.uuid;
            &&& serial is Some && serial->0@.len() > 0 ==> identity.fingerprint == serial->0@
                && identity.source == HardwareIdentitySource::WindowsNvmlSerial
            &&& !(serial is Some && serial->0@.len() > 0) && uuid is Some && uuid->0@.len() > 0
                ==> identity.fingerprint == uuid->0@ && identity.source
                == HardwareIdentitySource::WindowsNvmlUuid
            &&& !(serial is Some && serial->0@.len() > 0) && !(uuid is Some && uuid->0@.len() > 0)
                ==> identity == synthetic_identity(
                "nvml-device-"@ + decimal(device->0.index as nat),
                context,
            )
        },
{
}

/// The outcome of a probe shows the whole identity that was found, or the error.
pub proof fn outcomes_show_what_was_found(identity: HardwareIdentity, error: ProbeError)
    ensures
        outcome_model(Ok(identity)) == Ok::<IdentityModel, ProbeError>(
            IdentityModel { fingerprint: identity.fingerprint@, source: identity.source },
        ),
        outcome_model(Err(error)) == Err::<IdentityModel, ProbeError>(error),
{
}

/// A host of another system has no identity.
pub proof fn other_systems_have_no_identity(
    context: HostContext,
    outcome: Result<IdentityModel, ProbeError>,
)
    requires
        is_probed(HostTelemetry::Other, context, outcome),
    ensures
        outcome matches Err(error) && error == ProbeError::UnsupportedSystem,
{
}

/// The host's name is the whole name that the first source gives which is not
/// blank: the variables, then the file; a placeholder without any.
pub proof fn host_name_is_the_whole_name(context: HostContext)
    ensures
        context.hostname_var matches Some(text) ==> !is_blank(text@) ==> stands_between_white_space(
            text@,
            host_name(context),
        ) && host_name(context).len() > 0,
        (context.hostname_var matches Some(text) ==> is_blank(text@)) ==> (
        context.computername_var matches Some(text) ==> !is_blank(text@)
            ==> stands_between_white_space(text@, host_name(context)) && host_name(context).len()
            > 0),
        (context.hostname_var matches Some(text) ==> is_blank(text@)) && (
        context.computername_var matches Some(text) ==> is_blank(text@)) ==> (
        context.hostname_file matches Some(text) ==> !is_blank(text@)
            ==> stands_between_white_space(text@, host_name(context)) && host_name(context).len()
            > 0),
        (context.hostname_var matches Some(text) ==> is_blank(text@)) && (
        context.computername_var matches Some(text) ==> is_blank(text@)) && (
        context.hostname_file matches Some(text) ==> is_blank(text@)) ==> host_name(context)
            == "unknown-host"@,
{
    if context.hostname_var is Some {
        lemma_blank_texts_trim_away(context.hostname_var->0@);
        trimming_takes_white_space_only(context.hostname_var->0@);
    }
    if context.computername_var is Some {
        lemma_blank_texts_trim_away(context.computername_var->0@);
        trimming_takes_white_space_only(context.computername_var->0@);
    }
    if context.hostname_file is Some {
        lemma_blank_texts_trim_away(context.hostname_file->0@);
        trimming_takes_white_space_only(context.hostname_file->0@);
    }
}

/// A synthetic identity says that it is one, and names the reason, the host and the
/// process, each of them whole.
pub proof fn synthetic_identity_names_its_parts(reason: Seq<char>, context: HostContext)
    ensures
        synthetic_identity(reason, context).source == HardwareIdentitySource::Synthetic,
        synthetic_identity(reason, context).fingerprint == "synthetic:"@ + reason + ":host="@
            + host_name(context) + ":pid="@ + decimal(context.pid as nat),
        synthetic_identity(reason, context).fingerprint.len() == "synthetic:"@.len() + reason.len()
            + ":host="@.len() + host_name(context).len() + ":pid="@.len() + decimal(
            context.pid as nat,
        ).len(),
{
}

/// An encoded identity holds the whole fingerprint, the label of the source, and
/// nothing else.
pub proof fn identity_document_holds_every_field(identity: HardwareIdentity)
    ensures
        holds_field(
            identity_document(identity@),
            "fingerprint"@,
            JsonModel::Text(identity.fingerprint@),
        ),
        holds_field(
            identity_document(identity@),
            "source"@,
            JsonModel::Text(source_label(identity.source)),
        ),
        has_fields(identity_document(identity@), 2),
{
    let fields = identity_fields(identity@);
    assert(fields[0].key == "fingerprint"@);
    assert(fields[1].key == "source"@);
}

} // verus!
