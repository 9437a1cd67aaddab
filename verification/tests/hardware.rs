use mjae::hardware::{GpuUuidError, HostContext, HostTelemetry, MachineIdError, ProbeError};
use mjae::json::plain_json;
use mjae::providers::windows::DeviceTelemetry;
use mjae::{HardwareIdentity, HardwareIdentitySource};
use serde_json::Value;

fn host() -> HostContext {
    HostContext {
        hostname_var: Some(" node-1\n".to_owned()),
        computername_var: None,
        hostname_file: None,
        pid: 4242,
    }
}

fn text(s: &str) -> Option<String> {
    Some(s.to_owned())
}

fn linux(machine_id: Option<String>, gpu_uuids: Option<Vec<Option<String>>>) -> HostTelemetry {
    HostTelemetry::Linux { machine_id, gpu_uuids }
}

#[test]
fn manual_identity_round_trips_through_serde() {
    let id = HardwareIdentity::manual("NV-H100-SXM5-SN-0001");
    assert_eq!(id.source, HardwareIdentitySource::Manual);
    assert_eq!(id.fingerprint, "NV-H100-SXM5-SN-0001");

    let json = plain_json(&id.to_json()).expect("identity should serialize");
    let value: Value = serde_json::from_slice(&json).expect("identity should deserialize");
    assert_eq!(value.get("source").and_then(Value::as_str), Some("manual"));
    let parsed = HardwareIdentity {
        fingerprint: value.get("fingerprint").and_then(Value::as_str).unwrap().to_owned(),
        source: HardwareIdentitySource::Manual,
    };
    assert_eq!(parsed, id);
}

#[test]
fn synthetic_identity_is_marked_as_unverifiable() {
    let id = HardwareIdentity::synthetic("no_probe", &host());
    assert_eq!(id.source, HardwareIdentitySource::Synthetic);
    assert!(id.fingerprint.starts_with("synthetic:"));
    assert_eq!(id.fingerprint, "synthetic:no_probe:host=node-1:pid=4242");
}

#[test]
fn linux_probe_returns_a_real_or_synthetic_identity() {
    let id = HardwareIdentity::probe(&linux(None, None), &host());
    assert!(!id.fingerprint.is_empty());
    assert_eq!(id.fingerprint, "synthetic:probe_failed:host=node-1:pid=4242");
    let id = HardwareIdentity::probe(&linux(text("0123abcd\n"), None), &host());
    assert!(!id.fingerprint.is_empty());
}

#[test]
fn host_names_come_from_the_first_source_that_gives_one() {
    let mut context = host();
    context.hostname_var = None;
    context.computername_var = text("WIN-1");
    context.hostname_file = text("file-1\n");
    assert_eq!(
        HardwareIdentity::synthetic("r", &context).fingerprint,
        "synthetic:r:host=WIN-1:pid=4242"
    );
    context.computername_var = None;
    assert_eq!(
        HardwareIdentity::synthetic("r", &context).fingerprint,
        "synthetic:r:host=file-1:pid=4242"
    );
    context.hostname_file = None;
    assert_eq!(
        HardwareIdentity::synthetic("r", &context).fingerprint,
        "synthetic:r:host=unknown-host:pid=4242"
    );
    context.hostname_var = text(" \t\n");
    context.pid = 0;
    assert_eq!(
        HardwareIdentity::synthetic("r", &context).fingerprint,
        "synthetic:r:host=unknown-host:pid=0"
    );
}

#[test]
fn blank_sources_hide_no_name() {
    let mut context = host();
    context.hostname_var = text(" \n");
    context.computername_var = text("");
    context.hostname_file = text("file-1\n");
    let first = HardwareIdentity::synthetic("r", &context);
    assert_eq!(first.fingerprint, "synthetic:r:host=file-1:pid=4242");
    context.hostname_file = text("file-2\n");
    assert_ne!(HardwareIdentity::synthetic("r", &context), first);
    context.computername_var = text("WIN-1");
    assert_eq!(
        HardwareIdentity::synthetic("r", &context).fingerprint,
        "synthetic:r:host=WIN-1:pid=4242"
    );
}

#[test]
fn synthetic_identities_of_two_hosts_differ() {
    let mut other = host();
    other.hostname_var = text("node-2");
    assert_ne!(
        HardwareIdentity::synthetic("r", &host()),
        HardwareIdentity::synthetic("r", &other)
    );
    let mut other = host();
    other.pid = 4243;
    assert_ne!(
        HardwareIdentity::synthetic("r", &host()),
        HardwareIdentity::synthetic("r", &other)
    );
}

#[test]
fn linux_probe_prefers_the_machine_identifier() {
    let gpus = Some(vec![text("GPU-1")]);
    let id = HardwareIdentity::try_probe(&linux(text(" 0123abcd \n"), gpus), &host()).unwrap();
    assert_eq!(id.fingerprint, "0123abcd");
    assert_eq!(id.source, HardwareIdentitySource::LinuxMachineId);
}

#[test]
fn linux_probe_falls_back_to_the_first_gpu() {
    let gpus = Some(vec![None, text(" \n"), text("GPU-2\n"), text("GPU-3")]);
    let id = HardwareIdentity::try_probe(&linux(text("\n"), gpus), &host()).unwrap();
    assert_eq!(id.fingerprint, "GPU-2");
    assert_eq!(id.source, HardwareIdentitySource::LinuxGpuUuid);
}

#[test]
fn probes_without_telemetry_fail() {
    assert_eq!(
        HardwareIdentity::try_probe(&linux(None, Some(vec![None])), &host()),
        Err(ProbeError::NoLinuxIdentity {
            machine_id: MachineIdError::Unreadable,
            gpu_uuid: GpuUuidError::NoneFound,
        })
    );
    assert_eq!(
        HardwareIdentity::try_probe(&linux(text(""), None), &host()),
        Err(ProbeError::NoLinuxIdentity {
            machine_id: MachineIdError::Empty,
            gpu_uuid: GpuUuidError::DirectoryUnreadable,
        })
    );
    for serial in [None, text("")] {
        assert_eq!(
            HardwareIdentity::try_probe(&HostTelemetry::Macos { serial }, &host()),
            Err(ProbeError::NoPlatformSerial)
        );
    }
    assert_eq!(
        HardwareIdentity::try_probe(&HostTelemetry::Windows { device: None }, &host()),
        Err(ProbeError::DeviceUnavailable)
    );
    assert_eq!(
        HardwareIdentity::try_probe(&HostTelemetry::Other, &host()),
        Err(ProbeError::UnsupportedSystem)
    );
}

#[test]
fn macos_probe_takes_the_serial() {
    let id =
        HardwareIdentity::try_probe(&HostTelemetry::Macos { serial: text("C02XYZ") }, &host())
            .unwrap();
    assert_eq!(id.fingerprint, "C02XYZ");
    assert_eq!(id.source, HardwareIdentitySource::MacosIoKitSerial);
}

#[test]
fn windows_probe_prefers_the_serial() {
    let device = DeviceTelemetry { index: 0, serial: text("SN-1"), uuid: text("GPU-1") };
    let id = HardwareIdentity::probe_windows_device(&device, &host());
    assert_eq!(id.fingerprint, "SN-1");
    assert_eq!(id.source, HardwareIdentitySource::WindowsNvmlSerial);

    let device = DeviceTelemetry { index: 0, serial: None, uuid: text("GPU-1") };
    let probed =
        HardwareIdentity::try_probe(&HostTelemetry::Windows { device: Some(device) }, &host());
    let id = probed.unwrap();
    assert_eq!(id.fingerprint, "GPU-1");
    assert_eq!(id.source, HardwareIdentitySource::WindowsNvmlUuid);

    let device = DeviceTelemetry { index: 3, serial: text(""), uuid: None };
    let id = HardwareIdentity::probe_windows_device(&device, &host());
    assert_eq!(id.fingerprint, "synthetic:nvml-device-3:host=node-1:pid=4242");
    assert_eq!(id.source, HardwareIdentitySource::Synthetic);
}

#[test]
fn identities_can_be_described() {
    assert_eq!(
        HardwareIdentity::manual("SN-1").describe(),
        "SN-1 (source: Manual)"
    );
}

#[test]
fn labels_are_in_snake_case() {
    let sources = [
        (HardwareIdentitySource::MacosIoKitSerial, "macos_io_kit_serial"),
        (HardwareIdentitySource::LinuxMachineId, "linux_machine_id"),
        (HardwareIdentitySource::LinuxGpuUuid, "linux_gpu_uuid"),
        (HardwareIdentitySource::WindowsNvmlUuid, "windows_nvml_uuid"),
        (HardwareIdentitySource::WindowsNvmlSerial, "windows_nvml_serial"),
        (HardwareIdentitySource::Manual, "manual"),
        (HardwareIdentitySource::Synthetic, "synthetic"),
    ];
    for (source, label) in sources {
        assert_eq!(source.label(), label);
        assert_eq!(source.name(), format!("{source:?}"));
    }
}
