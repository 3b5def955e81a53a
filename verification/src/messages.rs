//! The messages of the control channel between client and server.
use crate::device_config::DeviceConfig;
use crate::stream_config::config_text;
use vstd::prelude::*;

verus! {

/// A message on the control channel.
#[derive(Clone, Debug)]
pub enum NetworkMessage {
    /// Asks the server to list its audio devices.
    List,
    /// Answers `List` with the device list.
    ListResponse { output: String },
    /// Asks the server to read one of its input devices and send the audio
    /// to `udp_addr`.
    SendAudio {
        host: String,
        device: Option<String>,
        stream_cfg: Option<String>,
        udp_addr: String,
    },
    /// Answers `SendAudio` with the device actually used.
    SendAudioResponse { actual_host: String, actual_device: String, actual_stream_cfg: String },
    /// Asks the server to play received audio on one of its output devices.
    ReceiveAudio { host: String, device: Option<String>, stream_cfg: Option<String> },
    /// Answers `ReceiveAudio` with the device actually used and the UDP
    /// address to send the audio to.
    ReceiveAudioResponse {
        actual_host: String,
        actual_device: String,
        actual_stream_cfg: String,
        udp_addr: String,
    },
}

impl NetworkMessage {
    /// Whether the message is one that the server answers: a request to list,
    /// send or receive.
    pub fn is_request(&self) -> (b: bool)
        ensures
            b == (self is List || self is SendAudio || self is ReceiveAudio),
    {
        match self {
            NetworkMessage::List | NetworkMessage::SendAudio { .. } | NetworkMessage::ReceiveAudio {
                ..
            } => true,
            _ => false,
        }
    }

    /// The answer to `SendAudio`: the host as asked, and the device and
    /// configuration that the server opened, the sample rate written `khz`.
    pub fn send_audio_response(host: String, cfg: &DeviceConfig, khz: &str) -> (m: NetworkMessage)
        ensures
            m matches NetworkMessage::SendAudioResponse {
                actual_host,
                actual_device,
                actual_stream_cfg,
            } && actual_host@ == host@ && actual_device@ == cfg.device_name@
                && actual_stream_cfg@ == config_text(cfg.stream_cfg, khz@),
    {
        NetworkMessage::SendAudioResponse {
            actual_host: host,
            actual_device: cfg.device_name.clone(),
            actual_stream_cfg: cfg.stream_cfg.to_text(khz),
        }
    }

    /// The answer to `ReceiveAudio`: the host as asked, the device and
    /// configuration that the server opened, the sample rate written `khz`,
    /// and the UDP address at which the server takes the audio.
    pub fn receive_audio_response(host: String, cfg: &DeviceConfig, khz: &str, udp_addr: String) -> (m:
        NetworkMessage)
        ensures
            m matches NetworkMessage::ReceiveAudioResponse {
                actual_host,
                actual_device,
                actual_stream_cfg,
                udp_addr: addr,
            } && actual_host@ == host@ && actual_device@ == cfg.device_name@
                && actual_stream_cfg@ == config_text(cfg.stream_cfg, khz@) && addr@ == udp_addr@,
    {
        NetworkMessage::ReceiveAudioResponse {
            actual_host: host,
            actual_device: cfg.device_name.clone(),
            actual_stream_cfg: cfg.stream_cfg.to_text(khz),
            udp_addr,
        }
    }
}

} // verus!
