use audio_forwarder::{
    AudioCaps, ConfigRange, DeviceListing, HostListing, ListedConfig, SampleFormat, StreamConfig,
};

fn strings(v: &[&str]) -> Vec<String> {
    v.iter().map(|s| s.to_string()).collect()
}

#[test]
fn repeated_names_get_numbers() {
    let r = AudioCaps::make_strings_unique(strings(&["a", "b", "a", "c", "a"]));
    assert_eq!(r, strings(&["a #1", "b", "a #2", "c", "a #3"]));
}

#[test]
fn unique_names_are_kept() {
    assert_eq!(AudioCaps::make_strings_unique(strings(&["x", "y"])), strings(&["x", "y"]));
    assert_eq!(AudioCaps::make_strings_unique(Vec::new()), Vec::<String>::new());
}

#[test]
fn names_with_hash_may_still_collide() {
    // Only names without `#` are sure to come out distinct.
    let r = AudioCaps::make_strings_unique(strings(&["a", "a", "a #1"]));
    assert_eq!(r, strings(&["a #1", "a #2", "a #1"]));
}

#[test]
fn finds_device_by_unique_name() {
    let names = strings(&["Mic", "Speakers", "Mic"]);
    assert_eq!(AudioCaps::device_position(names.clone(), "Mic #2"), Some(2));
    assert_eq!(AudioCaps::device_position(names.clone(), "Speakers"), Some(1));
    assert_eq!(AudioCaps::device_position(names, "Mic"), None);
}

#[test]
fn finds_host_by_name() {
    let hosts = strings(&["ALSA", "JACK"]);
    assert_eq!(AudioCaps::host_position(&hosts, "JACK"), Some(1));
    assert_eq!(AudioCaps::host_position(&hosts, "CoreAudio"), None);
}

fn range(ch: u16, min: u32, max: u32, f: SampleFormat) -> ConfigRange {
    ConfigRange { channels: ch, min_sample_rate: min, max_sample_rate: max, sample_format: f }
}

#[test]
fn selects_supported_config() {
    let ranges = vec![
        range(1, 8000, 48000, SampleFormat::F32),
        range(2, 44100, 96000, SampleFormat::F32),
    ];
    let want = StreamConfig { channels: 2, sample_rate: 48000, sample_format: SampleFormat::F32 };
    assert_eq!(AudioCaps::select_config(&ranges, &want), Some(want));
    let too_fast = StreamConfig { channels: 2, sample_rate: 192000, sample_format: SampleFormat::F32 };
    assert_eq!(AudioCaps::select_config(&ranges, &too_fast), None);
    let wrong_format = StreamConfig { channels: 1, sample_rate: 8000, sample_format: SampleFormat::I16 };
    assert_eq!(AudioCaps::select_config(&ranges, &wrong_format), None);
}

fn listed(ch: u16, min: u32, max: u32, f: SampleFormat, min_khz: &str, max_khz: &str) -> ListedConfig {
    ListedConfig { range: range(ch, min, max, f), min_khz: min_khz.to_string(), max_khz: max_khz.to_string() }
}

#[test]
fn describes_hosts_and_devices() {
    let mic = DeviceListing {
        input_configs: vec![
            listed(2, 44100, 48000, SampleFormat::F32, "44.1", "48"),
            listed(2, 48000, 48000, SampleFormat::I16, "48", "48"),
            listed(1, 48000, 48000, SampleFormat::I32, "48", "48"),
        ],
        default_input: Some(StreamConfig { channels: 2, sample_rate: 48000, sample_format: SampleFormat::F32 }),
        output_configs: vec![],
        default_output: None,
    };
    let speakers = DeviceListing {
        input_configs: vec![],
        default_input: None,
        output_configs: vec![
            listed(1, 48000, 48000, SampleFormat::F32, "48", "48"),
            listed(2, 48000, 48000, SampleFormat::F32, "48", "48"),
        ],
        default_output: Some(StreamConfig { channels: 2, sample_rate: 44100, sample_format: SampleFormat::F32 }),
    };
    let host = HostListing {
        name: "ALSA".to_string(),
        default_input_device: "Mic".to_string(),
        default_output_device: "Speakers".to_string(),
        device_names: strings(&["Mic", "Speakers"]),
        devices: vec![mic, speakers],
    };
    let empty = HostListing {
        name: "JACK".to_string(),
        default_input_device: String::new(),
        default_output_device: String::new(),
        device_names: vec![],
        devices: vec![],
    };
    let text = AudioCaps::device_list_text(&vec![host, empty]);
    let expected = [
        "Host \"ALSA\"\n",
        "  Device \"Mic\" (default input)\n",
        "    Input \"2x44.1-48xf32\" (default), \"1x48xi32\"\n",
        "    Output none\n",
        "  Device \"Speakers\" (default output)\n",
        "    Input none\n",
        "    Output \"2x48xf32\"\n",
        "Host \"JACK\"\n",
    ]
    .join("");
    assert_eq!(text, expected);
}

#[test]
fn repeated_devices_are_listed_apart() {
    let dev = || DeviceListing { input_configs: vec![], default_input: None, output_configs: vec![], default_output: None };
    let host = HostListing {
        name: "H".to_string(),
        default_input_device: "Mic".to_string(),
        default_output_device: String::new(),
        device_names: strings(&["Mic", "Mic"]),
        devices: vec![dev(), dev()],
    };
    let text = AudioCaps::device_list_text(&vec![host]);
    assert_eq!(
        text,
        "Host \"H\"\n  Device \"Mic #1\"\n    Input none\n    Output none\n  Device \"Mic #2\"\n    Input none\n    Output none\n"
    );
}
