use audio_forwarder::{DeviceConfig, DeviceDirection, SampleFormat, StreamConfig};

fn mic() -> DeviceConfig {
    DeviceConfig {
        direction: DeviceDirection::Input,
        host_name: "Core Audio".to_string(),
        device_name: "Built-in Microphone".to_string(),
        stream_cfg: StreamConfig { channels: 2, sample_rate: 44100, sample_format: SampleFormat::F32 },
    }
}

#[test]
fn device_id_names_host_device_and_direction() {
    assert_eq!(mic().device_id(), "Core Audio|Built-in Microphone|Input");
    let mut out = mic();
    out.direction = DeviceDirection::Output;
    assert_eq!(out.device_id(), "Core Audio|Built-in Microphone|Output");
}

#[test]
fn full_description() {
    assert_eq!(mic().to_text("44.1"), "Core Audio|Built-in Microphone|Input|2x44.1xf32");
}

#[test]
fn direction_names() {
    assert_eq!(DeviceDirection::Input.name(), "Input");
    assert_eq!(DeviceDirection::Output.name(), "Output");
}
