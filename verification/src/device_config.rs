//! Audio devices as the program names them: host, device, direction and
//! stream configuration.
use crate::stream_config::{config_text, StreamConfig};
use crate::text::{push_char, push_str, string_of};
use vstd::prelude::*;

verus! {

/// Whether a device records (input) or plays (output) audio.
#[derive(Clone, Copy, Debug, PartialEq, Eq, Hash, Structural)]
pub enum DeviceDirection {
    Input,
    Output,
}

/// The word under which a direction is written.
pub open spec fn direction_name(d: DeviceDirection) -> Seq<char> {
    match d {
        DeviceDirection::Input => "Input"@,
        DeviceDirection::Output => "Output"@,
    }
}

/// A device on an audio host, used in one direction with one configuration.
#[derive(Clone, Debug, PartialEq, Eq, Hash)]
pub struct DeviceConfig {
    pub direction: DeviceDirection,
    pub host_name: String,
    pub device_name: String,
    pub stream_cfg: StreamConfig,
}

/// `host|device|direction`: what tells one device apart from another.
pub open spec fn device_id_text(cfg: DeviceConfig) -> Seq<char> {
    cfg.host_name@ + seq!['|'] + cfg.device_name@ + seq!['|'] + direction_name(cfg.direction)
}

/// `host|device|direction|configuration`, with the sample rate written `khz`.
pub open spec fn device_config_text(cfg: DeviceConfig, khz: Seq<char>) -> Seq<char> {
    device_id_text(cfg) + seq!['|'] + config_text(cfg.stream_cfg, khz)
}

impl DeviceDirection {
    /// The word under which this direction is written.
    pub fn name(&self) -> (s: String)
        ensures
            s@ == direction_name(*self),
    {
        match self {
            DeviceDirection::Input => string_of("Input"),
            DeviceDirection::Output => string_of("Output"),
        }
    }
}

impl DeviceConfig {
    /// The identity of the device: `host|device|direction`, for instance
    /// `Core Audio|Built-in Microphone|Input`.
    pub fn device_id(&self) -> (s: String)
        ensures
            s@ == device_id_text(*self),
    {
        let mut s = string_of(self.host_name.as_str());
        push_char(&mut s, '|');
        push_str(&mut s, self.device_name.as_str());
        push_char(&mut s, '|');
        let d = self.direction.name();
        push_str(&mut s, d.as_str());
        assert(s@ =~= device_id_text(*self));
        s
    }

    /// The full description of the device, for instance
    /// `Core Audio|Built-in Microphone|Input|2x44.1xf32`, with the sample
    /// rate written `khz`.
    pub fn to_text(&self, khz: &str) -> (s: String)
        ensures
            s@ == device_config_text(*self, khz@),
    {
        let mut s = self.device_id();
        push_char(&mut s, '|');
        let c = self.stream_cfg.to_text(khz);
        push_str(&mut s, c.as_str());
        assert(s@ =~= device_config_text(*self, khz@));
        s
    }
}

} // verus!
