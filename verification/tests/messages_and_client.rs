use audio_forwarder::{
    Client, DeviceConfig, DeviceDirection, NetworkMessage, SampleFormat, StreamConfig,
};

fn speakers() -> DeviceConfig {
    DeviceConfig {
        direction: DeviceDirection::Output,
        host_name: "ALSA".to_string(),
        device_name: "Speakers".to_string(),
        stream_cfg: StreamConfig { channels: 2, sample_rate: 48000, sample_format: SampleFormat::F32 },
    }
}

#[test]
fn requests_and_responses() {
    assert!(NetworkMessage::List.is_request());
    assert!(NetworkMessage::ReceiveAudio { host: "h".into(), device: None, stream_cfg: None }.is_request());
    assert!(!NetworkMessage::ListResponse { output: String::new() }.is_request());
}

#[test]
fn receive_response_describes_device() {
    match NetworkMessage::receive_audio_response("ALSA".into(), &speakers(), "48", "1.2.3.4:5".into()) {
        NetworkMessage::ReceiveAudioResponse { actual_host, actual_device, actual_stream_cfg, udp_addr } => {
            assert_eq!(actual_host, "ALSA");
            assert_eq!(actual_device, "Speakers");
            assert_eq!(actual_stream_cfg, "2x48xf32");
            assert_eq!(udp_addr, "1.2.3.4:5");
        }
        _ => panic!("wrong message"),
    }
}

#[test]
fn send_response_describes_device() {
    match NetworkMessage::send_audio_response("ALSA".into(), &speakers(), "48") {
        NetworkMessage::SendAudioResponse { actual_host, actual_device, actual_stream_cfg } => {
            assert_eq!(actual_host, "ALSA");
            assert_eq!(actual_device, "Speakers");
            assert_eq!(actual_stream_cfg, "2x48xf32");
        }
        _ => panic!("wrong message"),
    }
}

#[test]
fn client_device_checks() {
    let c = |ch, f| StreamConfig { channels: ch, sample_rate: 48000, sample_format: f };
    assert!(Client::output_supported(&c(2, SampleFormat::F32)));
    assert!(Client::output_supported(&c(2, SampleFormat::I32)));
    assert!(!Client::output_supported(&c(1, SampleFormat::F32)));
    assert!(!Client::output_supported(&c(2, SampleFormat::I16)));
    assert!(Client::input_supported(&c(1, SampleFormat::F32)));
    assert!(Client::input_supported(&c(0, SampleFormat::I32)));
    assert!(!Client::input_supported(&c(3, SampleFormat::F32)));
    assert!(!Client::input_supported(&c(2, SampleFormat::U16)));
}
