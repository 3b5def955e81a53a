//! The audio path: bounded sample buffers, the UDP packet format, and the
//! decisions of the sending and receiving loops.
//!
//! A packet holds an 8-byte little-endian sequence number followed by
//! samples, each the 4 little-endian bytes of a 32-bit float. Samples are
//! held here by those 32 bits.
use crate::stream_config::{SampleFormat, StreamConfig};
use crate::text::{push_str, replace_char, replace_char_in, string_of};
use crate::MTU;
use std::collections::VecDeque;
use vstd::prelude::*;

verus! {

broadcast use vstd::std_specs::vecdeque::group_vec_dequeue_axioms;

/// The little-endian bytes of a 64-bit number.
#[verifier::opaque]
pub open spec fn u64_le_bytes(v: u64) -> Seq<u8> {
    seq![
        (v & 0xff) as u8,
        ((v >> 8u64) & 0xff) as u8,
        ((v >> 16u64) & 0xff) as u8,
        ((v >> 24u64) & 0xff) as u8,
        ((v >> 32u64) & 0xff) as u8,
        ((v >> 40u64) & 0xff) as u8,
        ((v >> 48u64) & 0xff) as u8,
        ((v >> 56u64) & 0xff) as u8,
    ]
}

/// The little-endian bytes of a 32-bit number.
#[verifier::opaque]
pub open spec fn u32_le_bytes(v: u32) -> Seq<u8> {
    seq![
        (v & 0xff) as u8,
        ((v >> 8u32) & 0xff) as u8,
        ((v >> 16u32) & 0xff) as u8,
        ((v >> 24u32) & 0xff) as u8,
    ]
}

/// The 64-bit number whose little-endian bytes start `b`.
#[verifier::opaque]
pub open spec fn u64_from_le(b: Seq<u8>) -> u64 {
    (b[0] as u64) | ((b[1] as u64) << 8u64) | ((b[2] as u64) << 16u64) | ((b[3] as u64) << 24u64)
        | ((b[4] as u64) << 32u64) | ((b[5] as u64) << 40u64) | ((b[6] as u64) << 48u64) | ((
    b[7] as u64) << 56u64)
}

/// The 32-bit number whose little-endian bytes start `b`.
#[verifier::opaque]
pub open spec fn u32_from_le(b: Seq<u8>) -> u32 {
    (b[0] as u32) | ((b[1] as u32) << 8u32) | ((b[2] as u32) << 16u32) | ((b[3] as u32) << 24u32)
}

/// The bytes that carry `samples`; with `mono`, each sample is written twice,
/// once for each of two channels.
pub open spec fn sample_bytes(samples: Seq<u32>, mono: bool) -> Seq<u8>
    decreases samples.len(),
{
    if samples.len() == 0 {
        Seq::<u8>::empty()
    } else {
        let b = u32_le_bytes(samples.last());
        sample_bytes(samples.drop_last(), mono) + if mono {
            b + b
        } else {
            b
        }
    }
}

/// The packet with sequence number `seq` that carries `samples`.
pub open spec fn encode_packet(seq: u64, samples: Seq<u32>, mono: bool) -> Seq<u8> {
    u64_le_bytes(seq) + sample_bytes(samples, mono)
}

/// The most samples that one packet carries. A packet is filled while two
/// more 4-byte values still fit in `MTU` bytes.
pub open spec fn packet_sample_limit(mono: bool) -> nat {
    if mono {
        ((MTU - 16) / 8 + 1) as nat
    } else {
        ((MTU - 16) / 4 + 1) as nat
    }
}

/// The samples that a packet body holds, 4 bytes each.
pub open spec fn decode_samples(body: Seq<u8>) -> Seq<u32>
    decreases body.len(),
{
    if body.len() < 4 {
        Seq::<u32>::empty()
    } else {
        decode_samples(body.take(body.len() - 4)).push(
            u32_from_le(body.subrange(body.len() - 4, body.len() as int)),
        )
    }
}

/// Each sample of `samples` twice in a row.
pub open spec fn doubled(samples: Seq<u32>) -> Seq<u32>
    decreases samples.len(),
{
    if samples.len() == 0 {
        Seq::<u32>::empty()
    } else {
        doubled(samples.drop_last()).push(samples.last()).push(samples.last())
    }
}

/// The sequence number of a packet.
pub open spec fn packet_sequence(packet: Seq<u8>) -> u64 {
    u64_from_le(packet.take(8))
}

/// The body of a packet, after its sequence number.
pub open spec fn packet_body(packet: Seq<u8>) -> Seq<u8> {
    packet.skip(8)
}

/// `buffer` after `input` was added to its end, where the oldest samples
/// were dropped first as far as needed to keep it within `capacity`.
pub open spec fn push_bounded(buffer: Seq<u32>, capacity: nat, input: Seq<u32>) -> Seq<u32> {
    if buffer.len() + input.len() > capacity {
        buffer.skip(buffer.len() + input.len() - capacity) + input
    } else {
        buffer + input
    }
}

/// The packets that carry `samples`, filled in order from sequence number
/// `seq` on, each with as many samples as fit.
pub open spec fn packets_for(samples: Seq<u32>, mono: bool, seq: u64) -> Seq<Seq<u8>>
    decreases samples.len(),
{
    if samples.len() == 0 {
        Seq::<Seq<u8>>::empty()
    } else {
        let k = if samples.len() < packet_sample_limit(mono) {
            samples.len()
        } else {
            packet_sample_limit(mono)
        };
        seq![encode_packet(seq, samples.take(k as int), mono)] + packets_for(
            samples.skip(k as int),
            mono,
            (seq + 1) as u64,
        )
    }
}

/// The receiver's last sequence number and buffer after taking in
/// `packets` one after another.
pub open spec fn receive_all(last: u64, buffer: Seq<u32>, capacity: nat, packets: Seq<Seq<u8>>) -> (
    u64,
    Seq<u32>,
)
    decreases packets.len(),
{
    if packets.len() == 0 {
        (last, buffer)
    } else {
        let step = receive_step(last, buffer, capacity, packets[0]);
        receive_all(step.0, step.1, capacity, packets.drop_first())
    }
}

/// What a receiver gets of `samples`: each twice where they come from a
/// mono device.
pub open spec fn delivered(samples: Seq<u32>, mono: bool) -> Seq<u32> {
    if mono {
        doubled(samples)
    } else {
        samples
    }
}

/// What the receiver made of a packet.
#[derive(Clone, Copy, Debug, PartialEq, Eq, Structural)]
pub enum PacketOutcome {
    /// Shorter than a sequence number.
    TooSmall,
    /// Its sequence number is not above the last accepted one.
    OutOfOrder,
    /// Its body is not a whole number of samples.
    BadSize,
    /// Its samples were added; `truncated` when old samples were dropped for them.
    Accepted { truncated: bool },
}

/// The receiver's state after a packet: the last sequence number, the
/// buffered samples, and the outcome.
pub open spec fn receive_step(last: u64, buffer: Seq<u32>, capacity: nat, packet: Seq<u8>) -> (
    u64,
    Seq<u32>,
    PacketOutcome,
) {
    if packet.len() < 8 {
        (last, buffer, PacketOutcome::TooSmall)
    } else if packet_sequence(packet) <= last {
        (last, buffer, PacketOutcome::OutOfOrder)
    } else if packet_body(packet).len() % 4 != 0 {
        (packet_sequence(packet), buffer, PacketOutcome::BadSize)
    } else {
        let samples = decode_samples(packet_body(packet));
        (
            packet_sequence(packet),
            push_bounded(buffer, capacity, samples),
            PacketOutcome::Accepted { truncated: buffer.len() + samples.len() > capacity },
        )
    }
}

/// A first-in first-out buffer of samples that holds at most `capacity` of
/// them and makes room for new ones by dropping the oldest.
pub struct SampleQueue {
    samples: VecDeque<u32>,
    capacity: usize,
}

impl View for SampleQueue {
    type V = Seq<u32>;

    closed spec fn view(&self) -> Seq<u32> {
        self.samples@
    }
}

impl SampleQueue {
    /// The most samples that the buffer holds.
    pub closed spec fn cap(&self) -> nat {
        self.capacity as nat
    }

    /// The buffer holds no more than its capacity, which is not zero.
    pub closed spec fn wf(&self) -> bool {
        &&& self.samples@.len() <= self.capacity
        &&& self.capacity > 0
    }

    /// An empty buffer for `capacity` samples.
    pub fn new(capacity: usize) -> (q: Self)
        requires
            capacity > 0,
        ensures
            q.wf(),
            q@ == Seq::<u32>::empty(),
            q.cap() == capacity,
    {
        SampleQueue { samples: VecDeque::with_capacity(capacity), capacity }
    }

    /// The number of buffered samples.
    pub fn len(&self) -> (n: usize)
        ensures
            n == self@.len(),
    {
        self.samples.len()
    }

    /// Whether no sample is buffered.
    pub fn is_empty(&self) -> (b: bool)
        ensures
            b == (self@.len() == 0),
    {
        self.samples.len() == 0
    }

    /// The most samples that the buffer holds.
    pub fn capacity(&self) -> (c: usize)
        ensures
            c == self.cap(),
    {
        self.capacity
    }

    /// Adds `input` at the end, first dropping the oldest samples as far as
    /// needed to stay within capacity. Returns whether any were dropped.
    pub fn push_samples(&mut self, input: &[u32]) -> (truncated: bool)
        requires
            old(self).wf(),
            input@.len() <= old(self).cap(),
        ensures
            final(self).wf(),
            final(self).cap() == old(self).cap(),
            truncated == (old(self)@.len() + input@.len() > old(self).cap()),
            final(self)@ == push_bounded(old(self)@, old(self).cap(), input@),
            final(self)@ == (old(self)@ + input@).skip(
                if old(self)@.len() + input@.len() > old(self).cap() {
                    old(self)@.len() + input@.len() - old(self).cap()
                } else {
                    0
                },
            ),
            truncated ==> final(self)@.len() == old(self).cap(),
            !truncated ==> final(self)@.len() == old(self)@.len() + input@.len(),
    {
        proof {
            lemma_push_bounded_law(self@, self.cap(), input@);
        }
        let n = input.len();
        let truncated = n > self.capacity - self.samples.len();
        let ghost start = self.samples@;
        let ghost dropped: int = 0;
        let ghost cap0 = self.capacity;
        while n > self.capacity - self.samples.len()
            invariant
                self.capacity == cap0,
                self.samples@.len() <= self.capacity,
                n == input@.len(),
                n <= self.capacity,
                0 <= dropped <= start.len(),
                self.samples@ == start.skip(dropped),
                start.len() + n > self.capacity ==> start.len() - dropped + n >= self.capacity,
                start.len() + n <= self.capacity ==> dropped == 0,
            decreases self.samples@.len(),
        {
            let _ = self.samples.pop_front();
            proof {
                assert(start.skip(dropped).subrange(1, start.skip(dropped).len() as int) =~= start.skip(
                    dropped + 1,
                ));
                dropped = dropped + 1;
            }
        }
        let ghost kept = self.samples@;
        let mut i: usize = 0;
        while i < n
            invariant
                i <= n,
                n == input@.len(),
                self.samples@ == kept + input@.take(i as int),
                kept.len() + n <= self.capacity,
                self.capacity == cap0,
            decreases n - i,
        {
            self.samples.push_back(input[i]);
            assert(input@.take(i + 1) =~= input@.take(i as int).push(input@[i as int]));
            i = i + 1;
        }
        assert(input@.take(n as int) =~= input@);
        truncated
    }

    /// Removes and returns the oldest sample, if there is one.
    pub fn pop_front(&mut self) -> (x: Option<u32>)
        requires
            old(self).wf(),
        ensures
            final(self).wf(),
            final(self).cap() == old(self).cap(),
            match x {
                Some(v) => old(self)@.len() > 0 && v == old(self)@[0] && final(self)@ == old(
                    self,
                )@.skip(1),
                None => old(self)@.len() == 0 && final(self)@ == old(self)@,
            },
    {
        let x = self.samples.pop_front();
        proof {
            if x.is_some() {
                assert(old(self)@.subrange(1, old(self)@.len() as int) =~= old(self)@.skip(1));
            }
        }
        x
    }

    /// Removes and returns the oldest `n` samples, or all of them where
    /// fewer are buffered.
    pub fn take_front(&mut self, n: usize) -> (taken: Vec<u32>)
        requires
            old(self).wf(),
        ensures
            final(self).wf(),
            final(self).cap() == old(self).cap(),
            taken@ == old(self)@.take(if n < old(self)@.len() { n as int } else { old(self)@.len() as int }),
            final(self)@ == old(self)@.skip(if n < old(self)@.len() { n as int } else { old(self)@.len() as int }),
    {
        let ghost start = self.samples@;
        let ghost cap0 = self.capacity;
        let mut taken: Vec<u32> = Vec::new();
        while taken.len() < n && self.samples.len() > 0
            invariant
                self.capacity == cap0,
                start.len() <= cap0,
                cap0 > 0,
                taken@.len() <= n,
                taken@.len() <= start.len(),
                taken@ == start.take(taken@.len() as int),
                self.samples@ == start.skip(taken@.len() as int),
            decreases self.samples@.len(),
        {
            let k = taken.len();
            match self.samples.pop_front() {
                Some(x) => {
                    taken.push(x);
                    assert(start.take(k + 1) =~= start.take(k as int).push(x));
                    assert(start.skip(k as int).subrange(1, start.skip(k as int).len() as int)
                        =~= start.skip(k + 1));
                },
                None => {},
            }
        }
        taken
    }
}

/// Why an audio stream cannot be run on a device.
#[derive(Clone, Copy, Debug, PartialEq, Eq, Structural)]
pub enum StreamError {
    /// The device's channel count is not one the stream handles.
    UnsupportedChannels,
    /// The device's sample format is not one the stream handles.
    UnsupportedFormat,
}

/// The sample type in which a device stream is opened.
#[derive(Clone, Copy, Debug, PartialEq, Eq, Structural)]
pub enum SampleKind {
    Float32,
    Int32,
}

/// How audio is read from an input device of configuration `cfg`: one or
/// two channels, and `f32` read as floats or `i16` read as 32-bit integers.
pub open spec fn send_kind_spec(cfg: StreamConfig) -> Result<SampleKind, StreamError> {
    if cfg.channels != 1 && cfg.channels != 2 {
        Err(StreamError::UnsupportedChannels)
    } else if cfg.sample_format == SampleFormat::F32 {
        Ok(SampleKind::Float32)
    } else if cfg.sample_format == SampleFormat::I16 {
        Ok(SampleKind::Int32)
    } else {
        Err(StreamError::UnsupportedFormat)
    }
}

/// How audio is written to an output device of configuration `cfg`: two
/// channels, and `f32` written as floats or `u16` written as 32-bit integers.
pub open spec fn receive_kind_spec(cfg: StreamConfig) -> Result<SampleKind, StreamError> {
    if cfg.channels != 2 {
        Err(StreamError::UnsupportedChannels)
    } else if cfg.sample_format == SampleFormat::F32 {
        Ok(SampleKind::Float32)
    } else if cfg.sample_format == SampleFormat::U16 {
        Ok(SampleKind::Int32)
    } else {
        Err(StreamError::UnsupportedFormat)
    }
}

/// The prefixes of the names of the sender's metrics, in the order
/// buffer length, buffer percent full, buffer truncated, partial send,
/// stream error, send error.
pub open spec fn send_metric_prefixes() -> Seq<Seq<char>> {
    seq![
        "audio_buffer_length_"@,
        "audio_buffer_percent_full_"@,
        "audio_buffer_truncated_"@,
        "audio_buffer_partial_send_"@,
        "audio_buffer_stream_error_"@,
        "audio_buffer_send_error_"@,
    ]
}

/// The prefixes of the names of the receiver's metrics, in the order
/// buffer length, buffer percent full, buffer truncated, stream error,
/// packet receive error, packet length, packet too small, packet out of
/// order, packet bad size.
pub open spec fn receive_metric_prefixes() -> Seq<Seq<char>> {
    seq![
        "audio_buffer_length_"@,
        "audio_buffer_percent_full_"@,
        "audio_buffer_truncated_"@,
        "audio_stream_error_"@,
        "audio_packet_receive_error_"@,
        "audio_packet_length_"@,
        "audio_packet_too_small_"@,
        "audio_packet_out_of_order_"@,
        "audio_packet_bad_size_"@,
    ]
}

/// The metric names made of `prefixes` and a device description, whose `|`
/// become `_`.
pub open spec fn metric_names(prefixes: Seq<Seq<char>>, device_text: Seq<char>) -> Seq<Seq<char>> {
    Seq::new(prefixes.len(), |i: int| prefixes[i] + replace_char(device_text, '|', '_'))
}

/// Adding samples to a bounded buffer keeps the newest: the buffer becomes
/// the old samples followed by the new ones, less as many of the oldest as
/// needed to stay within capacity and no more; an overflowing push leaves it
/// exactly full.
pub proof fn lemma_push_bounded_law(buffer: Seq<u32>, capacity: nat, input: Seq<u32>)
    requires
        buffer.len() <= capacity,
        input.len() <= capacity,
    ensures
        push_bounded(buffer, capacity, input) == (buffer + input).skip(
            if buffer.len() + input.len() > capacity {
                buffer.len() + input.len() - capacity
            } else {
                0
            },
        ),
        buffer.len() + input.len() > capacity ==> push_bounded(buffer, capacity, input).len()
            == capacity,
        buffer.len() + input.len() <= capacity ==> push_bounded(buffer, capacity, input).len()
            == buffer.len() + input.len(),
{
    let d: int = if buffer.len() + input.len() > capacity {
        buffer.len() + input.len() - capacity
    } else {
        0
    };
    assert(push_bounded(buffer, capacity, input) =~= (buffer + input).skip(d));
}

/// Only stereo devices are played to: every configuration with another
/// channel count is refused for its channels, and an accepted one has two.
pub proof fn lemma_receive_kind_law(cfg: StreamConfig)
    ensures
        receive_kind_spec(cfg) is Ok ==> cfg.channels == 2,
        cfg.channels != 2 ==> receive_kind_spec(cfg) == Err::<SampleKind, StreamError>(
            StreamError::UnsupportedChannels,
        ),
        receive_kind_spec(cfg) is Ok ==> (cfg.sample_format == SampleFormat::F32
            || cfg.sample_format == SampleFormat::U16),
{
}

/// Only mono and stereo devices are read from: every configuration with
/// another channel count is refused for its channels.
pub proof fn lemma_send_kind_law(cfg: StreamConfig)
    ensures
        send_kind_spec(cfg) is Ok ==> (cfg.channels == 1 || cfg.channels == 2),
        cfg.channels != 1 && cfg.channels != 2 ==> send_kind_spec(cfg) == Err::<
            SampleKind,
            StreamError,
        >(StreamError::UnsupportedChannels),
        send_kind_spec(cfg) is Ok ==> (cfg.sample_format == SampleFormat::F32
            || cfg.sample_format == SampleFormat::I16),
{
}

/// The audio streams between a device and a UDP peer.
pub struct UdpServer {}

impl UdpServer {
    /// How audio is read from an input device of configuration `cfg`.
    pub fn send_sample_kind(cfg: &StreamConfig) -> (r: Result<SampleKind, StreamError>)
        ensures
            r == send_kind_spec(*cfg),
            r is Ok ==> (cfg.channels == 1 || cfg.channels == 2),
            cfg.channels != 1 && cfg.channels != 2 ==> r == Err::<SampleKind, StreamError>(
                StreamError::UnsupportedChannels,
            ),
    {
        if cfg.channels != 1 && cfg.channels != 2 {
            Err(StreamError::UnsupportedChannels)
        } else {
            match cfg.sample_format {
                SampleFormat::F32 => Ok(SampleKind::Float32),
                SampleFormat::I16 => Ok(SampleKind::Int32),
                _ => Err(StreamError::UnsupportedFormat),
            }
        }
    }

    /// How audio is written to an output device of configuration `cfg`.
    pub fn receive_sample_kind(cfg: &StreamConfig) -> (r: Result<SampleKind, StreamError>)
        ensures
            r == receive_kind_spec(*cfg),
            r is Ok ==> cfg.channels == 2,
            cfg.channels != 2 ==> r == Err::<SampleKind, StreamError>(StreamError::UnsupportedChannels),
    {
        if cfg.channels != 2 {
            Err(StreamError::UnsupportedChannels)
        } else {
            match cfg.sample_format {
                SampleFormat::F32 => Ok(SampleKind::Float32),
                SampleFormat::U16 => Ok(SampleKind::Int32),
                _ => Err(StreamError::UnsupportedFormat),
            }
        }
    }

    /// The names under which the sender of the device described by
    /// `device_text` reports its metrics.
    pub fn send_metric_names(device_text: &str) -> (names: Vec<String>)
        ensures
            names.deep_view() == metric_names(send_metric_prefixes(), device_text@),
    {
        let suffix = replace_char_in(device_text, '|', '_');
        let mut names: Vec<String> = Vec::new();
        names.push(Self::metric_name("audio_buffer_length_", &suffix));
        names.push(Self::metric_name("audio_buffer_percent_full_", &suffix));
        names.push(Self::metric_name("audio_buffer_truncated_", &suffix));
        names.push(Self::metric_name("audio_buffer_partial_send_", &suffix));
        names.push(Self::metric_name("audio_buffer_stream_error_", &suffix));
        names.push(Self::metric_name("audio_buffer_send_error_", &suffix));
        assert(names.deep_view() =~= metric_names(send_metric_prefixes(), device_text@));
        names
    }

    /// The names under which the receiver of the device described by
    /// `device_text` reports its metrics.
    pub fn receive_metric_names(device_text: &str) -> (names: Vec<String>)
        ensures
            names.deep_view() == metric_names(receive_metric_prefixes(), device_text@),
    {
        let suffix = replace_char_in(device_text, '|', '_');
        let mut names: Vec<String> = Vec::new();
        names.push(Self::metric_name("audio_buffer_length_", &suffix));
        names.push(Self::metric_name("audio_buffer_percent_full_", &suffix));
        names.push(Self::metric_name("audio_buffer_truncated_", &suffix));
        names.push(Self::metric_name("audio_stream_error_", &suffix));
        names.push(Self::metric_name("audio_packet_receive_error_", &suffix));
        names.push(Self::metric_name("audio_packet_length_", &suffix));
        names.push(Self::metric_name("audio_packet_too_small_", &suffix));
        names.push(Self::metric_name("audio_packet_out_of_order_", &suffix));
        names.push(Self::metric_name("audio_packet_bad_size_", &suffix));
        assert(names.deep_view() =~= metric_names(receive_metric_prefixes(), device_text@));
        names
    }

    fn metric_name(prefix: &str, suffix: &String) -> (s: String)
        ensures
            s@ == prefix@ + suffix@,
    {
        let mut s = string_of(prefix);
        push_str(&mut s, suffix.as_str());
        s
    }

    /// Builds the next packet from the oldest buffered samples: the sequence
    /// number, then as many samples as fit (each twice with `mono`), which
    /// leave the buffer.
    pub fn next_packet(queue: &mut SampleQueue, sequence_number: u64, mono: bool) -> (packet: Vec<u8>)
        requires
            old(queue).wf(),
            old(queue)@.len() > 0,
        ensures
            final(queue).wf(),
            final(queue).cap() == old(queue).cap(),
            ({
                let k = if old(queue)@.len() < packet_sample_limit(mono) {
                    old(queue)@.len()
                } else {
                    packet_sample_limit(mono)
                };
                &&& packet@ == encode_packet(sequence_number, old(queue)@.take(k as int), mono)
                &&& final(queue)@ == old(queue)@.skip(k as int)
            }),
            packets_for(old(queue)@, mono, sequence_number) == seq![packet@] + packets_for(
                final(queue)@,
                mono,
                (sequence_number + 1) as u64,
            ),
            packet@.len() <= MTU,
    {
        let mut packet: Vec<u8> = Vec::with_capacity(MTU);
        push_u64_le(&mut packet, sequence_number);
        let ghost start = queue@;
        let ghost mut j: int = 0;
        assert(start.take(0) =~= Seq::<u32>::empty());
        assert(start.skip(0) =~= start);
        assert(packet@ =~= encode_packet(sequence_number, start.take(0), mono));
        while !queue.is_empty() && packet.len() + 8 <= MTU
            invariant
                queue.wf(),
                queue.cap() == old(queue).cap(),
                start == old(queue)@,
                0 <= j <= start.len(),
                j <= packet_sample_limit(mono),
                queue@ == start.skip(j),
                packet@ == encode_packet(sequence_number, start.take(j), mono),
                packet@.len() == 8 + if mono {
                    8 * j
                } else {
                    4 * j
                },
                packet@.len() <= MTU,
            decreases queue@.len(),
        {
            let x = match queue.pop_front() {
                Some(v) => v,
                None => {
                    return packet;
                },
            };
            let ghost before = packet@;
            push_u32_le(&mut packet, x);
            if mono {
                push_u32_le(&mut packet, x);
            }
            proof {
                assert(start.take(j + 1).drop_last() =~= start.take(j));
                assert(start.take(j + 1).last() == x);
                assert(start.skip(j).skip(1) =~= start.skip(j + 1));
                let b = u32_le_bytes(x);
                if mono {
                    assert(packet@ =~= before + (b + b));
                } else {
                    assert(packet@ =~= before + b);
                }
                assert(packet@ =~= encode_packet(sequence_number, start.take(j + 1), mono));
                j = j + 1;
            }
        }
        packet
    }

    /// Takes in a received packet: checks its size and sequence number,
    /// moves the last sequence number up to it, and adds its samples to the
    /// buffer, dropping the oldest samples where room is needed.
    pub fn accept_packet(last_sequence: &mut u64, queue: &mut SampleQueue, packet: &[u8]) -> (outcome: PacketOutcome)
        requires
            old(queue).wf(),
            packet@.len() <= 8 + 4 * old(queue).cap(),
        ensures
            final(queue).wf(),
            final(queue).cap() == old(queue).cap(),
            (*final(last_sequence), final(queue)@, outcome) == receive_step(
                *old(last_sequence),
                old(queue)@,
                old(queue).cap(),
                packet@,
            ),
            *final(last_sequence) >= *old(last_sequence),
    {
        if packet.len() < 8 {
            return PacketOutcome::TooSmall;
        }
        let seq = read_u64_le(packet, 0);
        assert(packet@.subrange(0, 8) =~= packet@.take(8));
        if seq <= *last_sequence {
            return PacketOutcome::OutOfOrder;
        }
        *last_sequence = seq;
        let plen = packet.len();
        let body_len = plen - 8;
        let ghost body = packet_body(packet@);
        assert(body.len() == body_len);
        if body_len % 4 != 0 {
            return PacketOutcome::BadSize;
        }
        let mut samples: Vec<u32> = Vec::new();
        let mut pos: usize = 0;
        assert(body.take(0) =~= Seq::<u8>::empty());
        while pos < body_len
            invariant
                body == packet@.skip(8),
                body_len == body.len(),
                body_len + 8 == plen,
                plen == packet@.len(),
                body_len % 4 == 0,
                pos <= body_len,
                pos % 4 == 0,
                samples@.len() * 4 == pos,
                samples@ == decode_samples(body.take(pos as int)),
            decreases body_len - pos,
        {
            let x = read_u32_le(packet, 8 + pos);
            proof {
                let t = body.take(pos + 4);
                assert(t.take(pos as int) =~= body.take(pos as int));
                assert(t.subrange(pos as int, pos + 4) =~= packet@.subrange(8 + pos, 8 + pos + 4));
                assert(t.len() == pos + 4);
            }
            samples.push(x);
            pos = pos + 4;
        }
        assert(body.take(body_len as int) =~= body);
        let truncated = queue.push_samples(samples.as_slice());
        PacketOutcome::Accepted { truncated }
    }
}

/// Adding one sample's bytes to a body adds the sample to what it decodes to.
proof fn lemma_decode_push(body: Seq<u8>, x: u32)
    ensures
        decode_samples(body + u32_le_bytes(x)) == decode_samples(body).push(x),
{
    lemma_u32_le_roundtrip(x);
    let p = body + u32_le_bytes(x);
    assert(p.take(p.len() - 4) =~= body);
    assert(p.subrange(p.len() - 4, p.len() as int) =~= u32_le_bytes(x));
}

/// The bytes of samples decode back to the samples, each twice where they
/// were written for a mono device.
pub proof fn lemma_sample_bytes_decode(samples: Seq<u32>, mono: bool)
    ensures
        sample_bytes(samples, mono).len() == if mono {
            8 * samples.len()
        } else {
            4 * samples.len()
        },
        decode_samples(sample_bytes(samples, mono)) == if mono {
            doubled(samples)
        } else {
            samples
        },
    decreases samples.len(),
{
    if samples.len() > 0 {
        let x = samples.last();
        let b = u32_le_bytes(x);
        lemma_sample_bytes_decode(samples.drop_last(), mono);
        lemma_u32_le_roundtrip(x);
        let prev = sample_bytes(samples.drop_last(), mono);
        if mono {
            assert(prev + (b + b) =~= (prev + b) + b);
            lemma_decode_push(prev, x);
            lemma_decode_push(prev + b, x);
        } else {
            lemma_decode_push(prev, x);
        }
    } else {
        assert(decode_samples(Seq::<u8>::empty()) == Seq::<u32>::empty());
    }
}

/// A packet carries its sequence number and its samples: read back, it
/// gives the sequence number it was built with, a body of whole samples,
/// and the samples themselves, each twice where they came from a mono
/// device.
pub proof fn lemma_packet_roundtrip(seq: u64, samples: Seq<u32>, mono: bool)
    ensures
        encode_packet(seq, samples, mono).len() >= 8,
        packet_sequence(encode_packet(seq, samples, mono)) == seq,
        packet_body(encode_packet(seq, samples, mono)).len() % 4 == 0,
        decode_samples(packet_body(encode_packet(seq, samples, mono))) == if mono {
            doubled(samples)
        } else {
            samples
        },
{
    lemma_u64_le_roundtrip(seq);
    lemma_sample_bytes_decode(samples, mono);
    let p = encode_packet(seq, samples, mono);
    assert(p.take(8) =~= u64_le_bytes(seq));
    assert(p.skip(8) =~= sample_bytes(samples, mono));
}

/// A packet built by the sender and received while the receiver's last
/// sequence number is below the packet's is accepted, moves the last
/// sequence number to the packet's, and adds the sender's samples (each
/// twice for a mono sender) at the end of the receiver's buffer.
pub proof fn lemma_packet_delivery(
    seq: u64,
    samples: Seq<u32>,
    mono: bool,
    last: u64,
    buffer: Seq<u32>,
    capacity: nat,
)
    requires
        last < seq,
    ensures
        ({
            let delivered = if mono {
                doubled(samples)
            } else {
                samples
            };
            receive_step(last, buffer, capacity, encode_packet(seq, samples, mono)) == (
                seq,
                push_bounded(buffer, capacity, delivered),
                PacketOutcome::Accepted { truncated: buffer.len() + delivered.len() > capacity },
            )
        }),
{
    lemma_packet_roundtrip(seq, samples, mono);
}

/// Doubling two pieces one after the other doubles the whole.
proof fn lemma_doubled_append(a: Seq<u32>, b: Seq<u32>)
    ensures
        doubled(a + b) == doubled(a) + doubled(b),
        doubled(a).len() == 2 * a.len(),
    decreases b.len(),
{
    if b.len() == 0 {
        assert(a + b =~= a);
        lemma_doubled_len(a);
        assert(doubled(a) + doubled(b) =~= doubled(a));
    } else {
        lemma_doubled_append(a, b.drop_last());
        assert((a + b).drop_last() =~= a + b.drop_last());
        assert((a + b).last() == b.last());
        assert(doubled(a + b) =~= doubled(a) + doubled(b));
    }
}

/// A doubled sequence is twice as long.
proof fn lemma_doubled_len(a: Seq<u32>)
    ensures
        doubled(a).len() == 2 * a.len(),
    decreases a.len(),
{
    if a.len() > 0 {
        lemma_doubled_len(a.drop_last());
    }
}

/// Audio forwarded is audio received: the packets that carry a run of
/// samples, taken in by a receiver whose last sequence number lies below
/// the first of them and whose buffer has room, leave the buffer holding
/// what it held followed by the samples (each twice for a mono sender), and
/// the last sequence number at the last packet's.
pub proof fn lemma_stream_delivery(
    samples: Seq<u32>,
    mono: bool,
    seq: u64,
    last: u64,
    buffer: Seq<u32>,
    capacity: nat,
)
    requires
        last < seq,
        seq + samples.len() <= u64::MAX,
        buffer.len() + delivered(samples, mono).len() <= capacity,
    ensures
        receive_all(last, buffer, capacity, packets_for(samples, mono, seq)).1 == buffer + delivered(
            samples,
            mono,
        ),
        samples.len() > 0 ==> receive_all(last, buffer, capacity, packets_for(samples, mono, seq)).0
            == seq + packets_for(samples, mono, seq).len() - 1,
    decreases samples.len(),
{
    let packets = packets_for(samples, mono, seq);
    if samples.len() == 0 {
        assert(buffer + delivered(samples, mono) =~= buffer) by {
            if mono {
                assert(doubled(samples) =~= Seq::<u32>::empty());
            }
        }
    } else {
        let k = if samples.len() < packet_sample_limit(mono) {
            samples.len()
        } else {
            packet_sample_limit(mono)
        };
        let head = samples.take(k as int);
        let rest = samples.skip(k as int);
        assert(samples =~= head + rest);
        lemma_doubled_append(head, rest);
        lemma_doubled_len(samples);
        lemma_doubled_len(rest);
        assert(delivered(samples, mono) == delivered(head, mono) + delivered(rest, mono));
        lemma_packet_delivery(seq, head, mono, last, buffer, capacity);
        let next = buffer + delivered(head, mono);
        assert(push_bounded(buffer, capacity, delivered(head, mono)) == next);
        assert(packets[0] == encode_packet(seq, head, mono));
        assert(packets.drop_first() =~= packets_for(rest, mono, (seq + 1) as u64));
        lemma_stream_delivery(rest, mono, (seq + 1) as u64, seq, next, capacity);
        assert(next + delivered(rest, mono) =~= buffer + delivered(samples, mono));
        if rest.len() == 0 {
            assert(packets_for(rest, mono, (seq + 1) as u64).len() == 0);
        }
    }
}

/// A packet whose sequence number is not above the receiver's last one
/// changes nothing at the receiver.
pub proof fn lemma_stale_packet_ignored(last: u64, buffer: Seq<u32>, capacity: nat, packet: Seq<u8>)
    requires
        packet.len() >= 8,
        packet_sequence(packet) <= last,
    ensures
        receive_step(last, buffer, capacity, packet) == (last, buffer, PacketOutcome::OutOfOrder),
{
}

/// Appends the little-endian bytes of `v`.
fn push_u64_le(buf: &mut Vec<u8>, v: u64)
    ensures
        final(buf)@ == old(buf)@ + u64_le_bytes(v),
        final(buf)@.len() == old(buf)@.len() + 8,
{
    reveal(u64_le_bytes);
    buf.push((v & 0xff) as u8);
    buf.push(((v >> 8u64) & 0xff) as u8);
    buf.push(((v >> 16u64) & 0xff) as u8);
    buf.push(((v >> 24u64) & 0xff) as u8);
    buf.push(((v >> 32u64) & 0xff) as u8);
    buf.push(((v >> 40u64) & 0xff) as u8);
    buf.push(((v >> 48u64) & 0xff) as u8);
    buf.push(((v >> 56u64) & 0xff) as u8);
    assert(final(buf)@ =~= old(buf)@ + u64_le_bytes(v));
}

/// Appends the little-endian bytes of `v`.
fn push_u32_le(buf: &mut Vec<u8>, v: u32)
    ensures
        final(buf)@ == old(buf)@ + u32_le_bytes(v),
        final(buf)@.len() == old(buf)@.len() + 4,
{
    reveal(u32_le_bytes);
    buf.push((v & 0xff) as u8);
    buf.push(((v >> 8u32) & 0xff) as u8);
    buf.push(((v >> 16u32) & 0xff) as u8);
    buf.push(((v >> 24u32) & 0xff) as u8);
    assert(final(buf)@ =~= old(buf)@ + u32_le_bytes(v));
}

/// The 64-bit number whose little-endian bytes start at `at`.
fn read_u64_le(b: &[u8], at: usize) -> (v: u64)
    requires
        at + 8 <= b@.len(),
    ensures
        v == u64_from_le(b@.subrange(at as int, at + 8)),
{
    reveal(u64_from_le);
    let ghost s = b@.subrange(at as int, at + 8);
    assert(s[0] == b@[at as int] && s[1] == b@[at + 1] && s[2] == b@[at + 2] && s[3] == b@[at + 3]
        && s[4] == b@[at + 4] && s[5] == b@[at + 5] && s[6] == b@[at + 6] && s[7] == b@[at + 7]);
    (b[at] as u64) | ((b[at + 1] as u64) << 8u64) | ((b[at + 2] as u64) << 16u64) | ((
    b[at + 3] as u64) << 24u64) | ((b[at + 4] as u64) << 32u64) | ((b[at + 5] as u64) << 40u64)
        | ((b[at + 6] as u64) << 48u64) | ((b[at + 7] as u64) << 56u64)
}

/// The 32-bit number whose little-endian bytes start at `at`.
fn read_u32_le(b: &[u8], at: usize) -> (v: u32)
    requires
        at + 4 <= b@.len(),
    ensures
        v == u32_from_le(b@.subrange(at as int, at + 4)),
{
    reveal(u32_from_le);
    let ghost s = b@.subrange(at as int, at + 4);
    assert(s[0] == b@[at as int] && s[1] == b@[at + 1] && s[2] == b@[at + 2] && s[3] == b@[at + 3]);
    (b[at] as u32) | ((b[at + 1] as u32) << 8u32) | ((b[at + 2] as u32) << 16u32) | ((
    b[at + 3] as u32) << 24u32)
}

/// The 64-bit value read back from its little-endian bytes.
pub proof fn lemma_u64_le_roundtrip(v: u64)
    ensures
        u64_le_bytes(v).len() == 8,
        u64_from_le(u64_le_bytes(v)) == v,
{
    reveal(u64_le_bytes);
    reveal(u64_from_le);
    let b = u64_le_bytes(v);
    let b0 = (v & 0xff) as u8;
    let b1 = ((v >> 8u64) & 0xff) as u8;
    let b2 = ((v >> 16u64) & 0xff) as u8;
    let b3 = ((v >> 24u64) & 0xff) as u8;
    let b4 = ((v >> 32u64) & 0xff) as u8;
    let b5 = ((v >> 40u64) & 0xff) as u8;
    let b6 = ((v >> 48u64) & 0xff) as u8;
    let b7 = ((v >> 56u64) & 0xff) as u8;
    assert(b[0] == b0 && b[1] == b1 && b[2] == b2 && b[3] == b3 && b[4] == b4 && b[5] == b5 && b[6]
        == b6 && b[7] == b7);
    assert((b0 as u64) | ((b1 as u64) << 8u64) | ((b2 as u64) << 16u64) | ((b3 as u64) << 24u64)
        | ((b4 as u64) << 32u64) | ((b5 as u64) << 40u64) | ((b6 as u64) << 48u64) | ((b7 as u64)
        << 56u64) == v) by (bit_vector)
        requires
            b0 == (v & 0xff) as u8,
            b1 == ((v >> 8u64) & 0xff) as u8,
            b2 == ((v >> 16u64) & 0xff) as u8,
            b3 == ((v >> 24u64) & 0xff) as u8,
            b4 == ((v >> 32u64) & 0xff) as u8,
            b5 == ((v >> 40u64) & 0xff) as u8,
            b6 == ((v >> 48u64) & 0xff) as u8,
            b7 == ((v >> 56u64) & 0xff) as u8,
    ;
}

/// The 32-bit value read back from its little-endian bytes.
pub proof fn lemma_u32_le_roundtrip(v: u32)
    ensures
        u32_le_bytes(v).len() == 4,
        u32_from_le(u32_le_bytes(v)) == v,
{
    reveal(u32_le_bytes);
    reveal(u32_from_le);
    let b = u32_le_bytes(v);
    let b0 = (v & 0xff) as u8;
    let b1 = ((v >> 8u32) & 0xff) as u8;
    let b2 = ((v >> 16u32) & 0xff) as u8;
    let b3 = ((v >> 24u32) & 0xff) as u8;
    assert(b[0] == b0 && b[1] == b1 && b[2] == b2 && b[3] == b3);
    assert((b0 as u32) | ((b1 as u32) << 8u32) | ((b2 as u32) << 16u32) | ((b3 as u32) << 24u32)
        == v) by (bit_vector)
        requires
            b0 == (v & 0xff) as u8,
            b1 == ((v >> 8u32) & 0xff) as u8,
            b2 == ((v >> 16u32) & 0xff) as u8,
            b3 == ((v >> 24u32) & 0xff) as u8,
    ;
}

} // verus!
