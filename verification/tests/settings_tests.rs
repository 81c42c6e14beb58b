use sonus::audio::device::AudioDevice;
use sonus::audio::device::DeviceType;
use sonus::interface::settings::Settings;
use sonus::interface::settings::SettingsCategory;

fn device(name: &str, role: DeviceType) -> AudioDevice {
    AudioDevice::new(Some(name.to_string()), role, None).unwrap()
}

fn sample_settings() -> Settings {
    Settings {
        auto_update: true,
        buffer_size: 256,
        sample_rate: 48000,
        update_status: None,
        selected_input_device: Some(1),
        selected_output_device: None,
    }
}

#[test]
fn defaults_are_documented() {
    let s = Settings::default();
    assert_eq!(s.auto_update, false);
    assert_eq!(s.buffer_size, 512);
    assert_eq!(s.sample_rate, 44100);
    assert_eq!(s.update_status, None);
    assert_eq!(s.selected_input_device, None);
    assert_eq!(s.selected_output_device, None);
}

#[test]
fn save_then_load_round_trips_the_persisted_tuple() {
    let s = sample_settings();
    let bytes = s.to_json();
    let loaded = Settings::load(Some(&bytes));
    assert_eq!(
        (
            loaded.buffer_size,
            loaded.sample_rate,
            loaded.auto_update,
            loaded.selected_input_device,
            loaded.selected_output_device,
        ),
        (256, 48000, true, Some(1), None)
    );
    assert_eq!(Settings::from_json(&bytes), Some(s));
}

#[test]
fn update_status_is_transient_and_not_persisted() {
    let mut s = sample_settings();
    s.update_status = Some("checking".to_string());
    let bytes = s.to_json();
    let loaded = Settings::load(Some(&bytes));
    assert_eq!(loaded.update_status, None);
    assert_eq!(loaded.buffer_size, s.buffer_size);
    assert_eq!(loaded.selected_input_device, s.selected_input_device);
}

#[test]
fn canonical_encoding_is_exact() {
    let expected = "{\"auto_update\":false,\"buffer_size\":512,\"sample_rate\":44100,\"selected_input_device\":null,\"selected_output_device\":null}";
    assert_eq!(Settings::default().to_json(), expected.as_bytes().to_vec());
}

#[test]
fn encoding_is_real_json() {
    let s = sample_settings();
    let text = String::from_utf8(s.to_json()).unwrap();
    let value: serde_json::Value = serde_json::from_str(&text).unwrap();
    assert_eq!(value["auto_update"], serde_json::Value::Bool(true));
    assert_eq!(value["buffer_size"], serde_json::Value::from(256u32));
    assert_eq!(value["sample_rate"], serde_json::Value::from(48000u32));
    assert_eq!(value["selected_input_device"], serde_json::Value::from(1u64));
    assert_eq!(value["selected_output_device"], serde_json::Value::Null);
}

#[test]
fn corrupt_file_falls_back_to_defaults() {
    let corrupt = "{\"auto_update\":tr".as_bytes().to_vec();
    assert_eq!(Settings::load(Some(&corrupt)), Settings::default());
    assert_eq!(Settings::from_json(&corrupt), None);
}

#[test]
fn missing_file_falls_back_to_defaults() {
    assert_eq!(Settings::load(None), Settings::default());
}

#[test]
fn non_canonical_numerals_are_rejected() {
    let padded = "{\"auto_update\":false,\"buffer_size\":007,\"sample_rate\":44100,\"selected_input_device\":null,\"selected_output_device\":null}";
    assert_eq!(Settings::from_json(&padded.as_bytes().to_vec()), None);
    let trailing = "{\"auto_update\":false,\"buffer_size\":512,\"sample_rate\":44100,\"selected_input_device\":null,\"selected_output_device\":null} ";
    assert_eq!(Settings::from_json(&trailing.as_bytes().to_vec()), None);
}

#[test]
fn reconcile_selects_the_default_by_name() {
    let inputs = vec![device("Mic A", DeviceType::Input), device("Mic B", DeviceType::Input)];
    let outputs: Vec<AudioDevice> = Vec::new();
    let default_input = Some(device("Mic B", DeviceType::Input));
    let mut s = Settings::default();
    s.reconcile_defaults(&inputs, &outputs, &default_input, &None);
    assert_eq!(s.selected_input_device, Some(1));
    assert_eq!(s.selected_output_device, None);
}

#[test]
fn reconcile_never_overwrites_a_set_selection() {
    let inputs = vec![device("Mic A", DeviceType::Input), device("Mic B", DeviceType::Input)];
    let outputs = vec![device("Out", DeviceType::Output)];
    let default_input = Some(device("Mic B", DeviceType::Input));
    let default_output = Some(device("Out", DeviceType::Output));
    let mut s = Settings::default();
    s.selected_input_device = Some(0);
    s.reconcile_defaults(&inputs, &outputs, &default_input, &default_output);
    assert_eq!(s.selected_input_device, Some(0));
    assert_eq!(s.selected_output_device, Some(0));
}

#[test]
fn reconcile_without_a_matching_name_leaves_selection_unset() {
    let inputs = vec![device("Mic A", DeviceType::Input)];
    let outputs: Vec<AudioDevice> = Vec::new();
    let default_input = Some(device("Mic C", DeviceType::Input));
    let mut s = Settings::default();
    s.reconcile_defaults(&inputs, &outputs, &default_input, &None);
    assert_eq!(s.selected_input_device, None);
}

#[test]
fn reconcile_picks_the_first_of_equally_named_devices() {
    let inputs = vec![
        device("Mic A", DeviceType::Input),
        device("Mic B", DeviceType::Input),
        device("Mic B", DeviceType::Input),
    ];
    let outputs: Vec<AudioDevice> = Vec::new();
    let default_input = Some(device("Mic B", DeviceType::Input));
    let mut s = Settings::default();
    s.reconcile_defaults(&inputs, &outputs, &default_input, &None);
    assert_eq!(s.selected_input_device, Some(1));
}

#[test]
fn large_positions_round_trip() {
    let mut s = Settings::default();
    s.select_input(usize::MAX);
    s.select_output(0);
    let bytes = s.to_json();
    let loaded = Settings::load(Some(&bytes));
    assert_eq!(loaded.selected_input_device, Some(usize::MAX));
    assert_eq!(loaded.selected_output_device, Some(0));
}

#[test]
fn setters_update_single_fields() {
    let mut s = Settings::default();
    s.select_input(2);
    s.select_output(7);
    s.set_buffer_size(1024);
    s.set_sample_rate(96000);
    assert_eq!(s.selected_input_device, Some(2));
    assert_eq!(s.selected_output_device, Some(7));
    assert_eq!(s.buffer_size, 1024);
    assert_eq!(s.sample_rate, 96000);
}

#[test]
fn settings_categories_are_distinct() {
    assert!(SettingsCategory::Updates != SettingsCategory::Audio);
    assert_eq!(SettingsCategory::Audio, SettingsCategory::Audio);
}
