use sonus::audio::device::AudioDevice;
use sonus::audio::device::BufferRange;
use sonus::audio::device::ConfigRange;
use sonus::audio::device::DeviceError;
use sonus::audio::device::DeviceType;
use sonus::audio::AudioSystem;
use sonus::audio::HostDeviceReport;
use sonus::audio::HostSnapshot;
use sonus::audio::SupportedConfig;

fn rep(name: Option<&str>, configs: Option<Vec<ConfigRange>>) -> HostDeviceReport {
    HostDeviceReport {
        reported_name: name.map(|s| s.to_string()),
        reported_configs: configs,
    }
}

fn snapshot_with_inputs(inputs: Vec<HostDeviceReport>) -> HostSnapshot {
    HostSnapshot {
        input_devices: Some(inputs),
        output_devices: Some(Vec::new()),
        default_input: None,
        default_output: None,
    }
}

#[test]
fn enumeration_drops_unnamed_devices_and_keeps_names_nonempty() {
    let system = AudioSystem::new(snapshot_with_inputs(vec![
        rep(Some("Mic A"), None),
        rep(None, None),
        rep(Some(""), None),
        rep(Some("Mic B"), None),
    ]));
    let (inputs, outputs) = system.get_available_devices();
    let names: Vec<&str> = inputs.iter().map(|d| d.name()).collect();
    assert_eq!(names, vec!["Mic A", "Mic B"]);
    assert!(inputs.iter().all(|d| !d.name().is_empty()));
    assert!(outputs.is_empty());
}

#[test]
fn enumeration_failure_yields_empty_lists() {
    let system = AudioSystem::new(HostSnapshot {
        input_devices: None,
        output_devices: None,
        default_input: None,
        default_output: None,
    });
    let (inputs, outputs) = system.get_available_devices();
    assert!(inputs.is_empty());
    assert!(outputs.is_empty());
}

#[test]
fn devices_carry_their_role() {
    let system = AudioSystem::new(HostSnapshot {
        input_devices: Some(vec![rep(Some("Mic"), None)]),
        output_devices: Some(vec![rep(Some("Speaker"), None)]),
        default_input: None,
        default_output: None,
    });
    let (inputs, outputs) = system.get_available_devices();
    assert_eq!(*inputs[0].device_type(), DeviceType::Input);
    assert_eq!(*outputs[0].device_type(), DeviceType::Output);
}

#[test]
fn supported_configs_report_max_rate_and_bounded_max() {
    let ranges = vec![
        ConfigRange { max_sample_rate: 48000, buffer_size: BufferRange::Range { min: 32, max: 256 } },
        ConfigRange { max_sample_rate: 44100, buffer_size: BufferRange::Unknown },
        ConfigRange { max_sample_rate: 96000, buffer_size: BufferRange::Range { min: 0, max: 0 } },
    ];
    let system = AudioSystem::new(snapshot_with_inputs(vec![rep(Some("Mic"), Some(ranges))]));
    let (inputs, _) = system.get_available_devices();
    let configs = system.get_supported_configs(&inputs[0]);
    assert_eq!(
        configs,
        vec![
            SupportedConfig { sample_rate: 48000, buffer_size: Some(256) },
            SupportedConfig { sample_rate: 44100, buffer_size: None },
            SupportedConfig { sample_rate: 96000, buffer_size: None },
        ]
    );
    assert!(configs.iter().all(|c| c.buffer_size.map_or(true, |b| b >= 1)));
}

#[test]
fn supported_configs_of_failed_query_are_empty() {
    let system = AudioSystem::new(snapshot_with_inputs(vec![rep(Some("Mic"), None)]));
    let (inputs, _) = system.get_available_devices();
    assert!(inputs[0].get_supported_configs().is_empty());
}

#[test]
fn default_devices_follow_the_host_report() {
    let system = AudioSystem::new(HostSnapshot {
        input_devices: Some(Vec::new()),
        output_devices: Some(Vec::new()),
        default_input: Some(rep(Some("Mic B"), None)),
        default_output: Some(rep(None, None)),
    });
    let (default_input, default_output) = system.get_default_devices();
    assert_eq!(default_input.map(|d| d.name().to_string()), Some("Mic B".to_string()));
    assert!(default_output.is_none());
}

#[test]
fn device_without_a_readable_name_is_an_error() {
    assert_eq!(
        AudioDevice::new(None, DeviceType::Input, None).err(),
        Some(DeviceError::Unnamed)
    );
    assert_eq!(
        AudioDevice::new(Some(String::new()), DeviceType::Input, None).err(),
        Some(DeviceError::Unnamed)
    );
    let device = AudioDevice::new(Some("Mic".to_string()), DeviceType::Output, None).unwrap();
    assert_eq!(device.name(), "Mic");
}

#[test]
fn device_type_labels() {
    assert_eq!(DeviceType::Input.as_str(), "Input");
    assert_eq!(DeviceType::Output.as_str(), "Output");
}
