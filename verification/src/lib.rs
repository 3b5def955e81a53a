//! Forwarding audio between machines over the network: the verified core.
//!
//! Audio samples travel in UDP packets whose first eight bytes hold a
//! little-endian sequence number, followed by 32-bit samples in little-endian
//! order. A TCP control channel carries `NetworkMessage`s that configure the
//! streams. Stream configurations are written `<channels>x<khz>x<format>`.
//!
//! This crate holds the logic: text formats, device and configuration
//! selection, the packet format, the sample buffers and the connection table.
//! Devices, sockets and floating-point conversion live with the caller.
pub mod audio_caps;
pub mod client;
pub mod device_config;
pub mod messages;
pub mod server;
pub mod stream_config;
pub mod text;
pub mod udp_server;

pub use crate::audio_caps::{AudioCaps, ConfigRange, DeviceListing, HostListing, ListedConfig};
pub use crate::client::Client;
pub use crate::device_config::{DeviceConfig, DeviceDirection};
pub use crate::messages::NetworkMessage;
pub use crate::server::ConnectionTable;
pub use crate::stream_config::{ConfigError, SampleFormat, StreamConfig};
pub use crate::udp_server::{PacketOutcome, SampleKind, SampleQueue, StreamError, UdpServer};

use vstd::prelude::*;

verus! {

/// Largest UDP packet, in bytes, that the sender builds and the receiver reads.
pub const MTU: usize = 1472;

/// Seconds that a peer is given to answer on the control channel.
pub const SERVER_TIMEOUT_SECS: u64 = 5;

/// Number of samples that a sample buffer holds before it drops the oldest.
pub const AUDIO_BUFFER_CAPACITY: usize = 16384;

} // verus!
