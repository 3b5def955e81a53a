use audio_forwarder::{
    PacketOutcome, SampleFormat, SampleKind, SampleQueue, StreamConfig, StreamError, UdpServer,
    AUDIO_BUFFER_CAPACITY, MTU,
};

fn queue_with(cap: usize, samples: &[u32]) -> SampleQueue {
    let mut q = SampleQueue::new(cap);
    q.push_samples(samples);
    q
}

fn drain(q: &mut SampleQueue) -> Vec<u32> {
    let n = q.len();
    q.take_front(n)
}

#[test]
fn queue_keeps_order_and_capacity() {
    let mut q = SampleQueue::new(4);
    assert!(q.is_empty());
    assert!(!q.push_samples(&[1, 2, 3]));
    assert!(q.push_samples(&[4, 5]));
    assert_eq!(q.len(), 4);
    assert_eq!(q.capacity(), 4);
    assert_eq!(drain(&mut q), vec![2, 3, 4, 5]);
}

#[test]
fn take_front_takes_at_most_what_is_there() {
    let mut q = queue_with(8, &[1, 2, 3]);
    assert_eq!(q.take_front(2), vec![1, 2]);
    assert_eq!(q.take_front(5), vec![3]);
    assert_eq!(q.take_front(5), Vec::<u32>::new());
    assert_eq!(q.pop_front(), None);
}

#[test]
fn stereo_packet_layout() {
    let mut q = queue_with(16, &[0x11223344, 0xAABBCCDD]);
    let p = UdpServer::next_packet(&mut q, 0x0102030405060708, false);
    assert_eq!(
        p,
        vec![8, 7, 6, 5, 4, 3, 2, 1, 0x44, 0x33, 0x22, 0x11, 0xDD, 0xCC, 0xBB, 0xAA]
    );
    assert!(q.is_empty());
}

#[test]
fn mono_samples_are_doubled() {
    let mut q = queue_with(16, &[0x01020304]);
    let p = UdpServer::next_packet(&mut q, 1, true);
    assert_eq!(p, vec![1, 0, 0, 0, 0, 0, 0, 0, 4, 3, 2, 1, 4, 3, 2, 1]);
}

#[test]
fn float_samples_travel_as_their_bits() {
    let mut q = queue_with(16, &[0.5f32.to_bits(), (-1.0f32).to_bits()]);
    let p = UdpServer::next_packet(&mut q, 9, false);
    let mut expected = 9u64.to_le_bytes().to_vec();
    expected.extend_from_slice(&0.5f32.to_le_bytes());
    expected.extend_from_slice(&(-1.0f32).to_le_bytes());
    assert_eq!(p, expected);
}

#[test]
fn packets_fill_up_to_mtu() {
    let samples: Vec<u32> = (0..1000).collect();
    let mut q = queue_with(AUDIO_BUFFER_CAPACITY, &samples);
    let p = UdpServer::next_packet(&mut q, 1, false);
    assert_eq!(p.len(), 8 + 4 * 365);
    assert_eq!(q.len(), 1000 - 365);
    let p = UdpServer::next_packet(&mut q, 2, true);
    assert_eq!(p.len(), 8 + 8 * 183);
    assert_eq!(p.len(), MTU);
    assert_eq!(q.len(), 1000 - 365 - 183);
}

fn packet(seq: u64, samples: &[u32]) -> Vec<u8> {
    let mut p = seq.to_le_bytes().to_vec();
    for s in samples {
        p.extend_from_slice(&s.to_le_bytes());
    }
    p
}

#[test]
fn receiver_outcomes() {
    let mut last = 0u64;
    let mut q = SampleQueue::new(4);
    assert_eq!(UdpServer::accept_packet(&mut last, &mut q, &[1, 2, 3]), PacketOutcome::TooSmall);
    // Sequence number 0 is not above the initial last sequence number.
    assert_eq!(UdpServer::accept_packet(&mut last, &mut q, &packet(0, &[1])), PacketOutcome::OutOfOrder);
    assert_eq!(
        UdpServer::accept_packet(&mut last, &mut q, &packet(2, &[10, 11])),
        PacketOutcome::Accepted { truncated: false }
    );
    assert_eq!(last, 2);
    assert_eq!(UdpServer::accept_packet(&mut last, &mut q, &packet(2, &[12])), PacketOutcome::OutOfOrder);
    let mut bad = packet(5, &[1]);
    bad.push(0);
    assert_eq!(UdpServer::accept_packet(&mut last, &mut q, &bad), PacketOutcome::BadSize);
    // A packet of bad size still moves the sequence number on.
    assert_eq!(last, 5);
    assert_eq!(
        UdpServer::accept_packet(&mut last, &mut q, &packet(6, &[12, 13, 14])),
        PacketOutcome::Accepted { truncated: true }
    );
    assert_eq!(drain(&mut q), vec![11, 12, 13, 14]);
}

#[test]
fn sent_packet_is_received() {
    let mut sender = queue_with(16, &[5, 6, 7]);
    let p = UdpServer::next_packet(&mut sender, 3, true);
    let mut last = 2u64;
    let mut receiver = SampleQueue::new(16);
    assert_eq!(
        UdpServer::accept_packet(&mut last, &mut receiver, &p),
        PacketOutcome::Accepted { truncated: false }
    );
    assert_eq!(drain(&mut receiver), vec![5, 5, 6, 6, 7, 7]);
}

fn cfg(ch: u16, f: SampleFormat) -> StreamConfig {
    StreamConfig { channels: ch, sample_rate: 48000, sample_format: f }
}

#[test]
fn sending_kinds() {
    assert_eq!(UdpServer::send_sample_kind(&cfg(1, SampleFormat::F32)), Ok(SampleKind::Float32));
    assert_eq!(UdpServer::send_sample_kind(&cfg(2, SampleFormat::I16)), Ok(SampleKind::Int32));
    assert_eq!(UdpServer::send_sample_kind(&cfg(2, SampleFormat::I32)), Err(StreamError::UnsupportedFormat));
    assert_eq!(UdpServer::send_sample_kind(&cfg(3, SampleFormat::F32)), Err(StreamError::UnsupportedChannels));
    assert_eq!(UdpServer::send_sample_kind(&cfg(0, SampleFormat::F32)), Err(StreamError::UnsupportedChannels));
}

#[test]
fn receiving_kinds() {
    assert_eq!(UdpServer::receive_sample_kind(&cfg(2, SampleFormat::F32)), Ok(SampleKind::Float32));
    assert_eq!(UdpServer::receive_sample_kind(&cfg(2, SampleFormat::U16)), Ok(SampleKind::Int32));
    assert_eq!(UdpServer::receive_sample_kind(&cfg(2, SampleFormat::I32)), Err(StreamError::UnsupportedFormat));
    assert_eq!(UdpServer::receive_sample_kind(&cfg(1, SampleFormat::F32)), Err(StreamError::UnsupportedChannels));
}

#[test]
fn metric_names() {
    let names = UdpServer::send_metric_names("Core Audio|Mic|Input|2x48xf32");
    assert_eq!(names.len(), 6);
    assert_eq!(names[0], "audio_buffer_length_Core Audio_Mic_Input_2x48xf32");
    assert_eq!(names[4], "audio_buffer_stream_error_Core Audio_Mic_Input_2x48xf32");
    let names = UdpServer::receive_metric_names("H|D|Output|2x48xf32");
    assert_eq!(names.len(), 9);
    assert_eq!(names[3], "audio_stream_error_H_D_Output_2x48xf32");
    assert_eq!(names[8], "audio_packet_bad_size_H_D_Output_2x48xf32");
}

#[test]
fn whole_stream_is_delivered_in_order() {
    for mono in [false, true] {
        let samples: Vec<u32> = (100..900).collect();
        let mut sender = queue_with(AUDIO_BUFFER_CAPACITY, &samples);
        let mut seq = 1u64;
        let mut packets = Vec::new();
        while !sender.is_empty() {
            packets.push(UdpServer::next_packet(&mut sender, seq, mono));
            seq += 1;
        }
        let mut last = 0u64;
        let mut receiver = SampleQueue::new(AUDIO_BUFFER_CAPACITY);
        for p in &packets {
            assert_eq!(
                UdpServer::accept_packet(&mut last, &mut receiver, p),
                PacketOutcome::Accepted { truncated: false }
            );
        }
        assert_eq!(last, packets.len() as u64);
        let expected: Vec<u32> = if mono {
            samples.iter().flat_map(|s| [*s, *s]).collect()
        } else {
            samples.clone()
        };
        assert_eq!(drain(&mut receiver), expected);
    }
}
