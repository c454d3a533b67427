use e_nguyen::audio::{
    first_monitor, i16_from_le, monitor_chunk_step, ready_wait_step, sample_le_bytes,
    stereo_frames, AudioStream, ChunkAction, ChunkKind, MonitorSource, ReadyAction, RingState,
    SampleFormat, ServerReadiness, ServerStream, SimpleSource, SyntheticSource,
};

#[test]
fn lifecycle_only_connect_from_born() {
    let mut stream = SyntheticSource::default();
    assert_eq!(stream.state(), RingState::BORN);
    assert!(stream.heat().is_err());
    assert!(stream.chill().is_err());
    assert_eq!(stream.state(), RingState::BORN);

    let connected = stream.connect().unwrap();
    assert_eq!(connected, RingState::CONNECTED);
    assert_eq!(stream.state(), RingState::CONNECTED);
    assert!(stream.connect().is_err());
    assert!(stream.chill().is_err());

    let (_rx, _info, _producer) = stream.heat().unwrap();
    assert_eq!(stream.state(), RingState::HOT);
    assert!(stream.connect().is_err());
    assert!(stream.heat().is_err());

    let dead = stream.chill().unwrap();
    assert_eq!(dead, RingState::DEAD);
    assert_eq!(stream.state(), RingState::DEAD);
    assert!(stream.connect().is_err());
    assert!(stream.heat().is_err());
    assert!(stream.chill().is_err());
}

#[test]
fn lifecycle_error_messages() {
    let mut stream = SyntheticSource::default();
    let heat_err = match stream.heat() {
        Err(e) => e,
        Ok(_) => panic!("heat should fail from BORN"),
    };
    assert_eq!(heat_err.message(), "Can't heat a ring that isn't connected");
    assert_eq!(
        stream.chill().unwrap_err().message(),
        "Can't chill a ring that isn't hot"
    );
    stream.connect().unwrap();
    assert_eq!(
        stream.connect().unwrap_err().message(),
        "Ring already connected.  Get your own"
    );
}

#[test]
fn heat_and_chill_square_test_ring() {
    let min_count = 512;
    let mut stream = SyntheticSource::default();
    let _connected = stream.connect().unwrap();
    let (rx, source, mut producer) = stream.heat().unwrap();
    assert_eq!(source.byte_rate(), 44100 * 4);
    let mut recorded = 0;

    while recorded < 16334 {
        producer.pump();
        let ravail = rx.available();
        if ravail > min_count {
            let _read = rx.read(ravail);
            recorded += ravail;
        }
    }
    stream.chill().unwrap();
    assert_eq!(stream.state(), RingState::DEAD);
}

#[test]
fn synthetic_byte_rate_over_one_second() {
    // one hundred pacing steps make one second: the bytes submitted match
    // the stream's derived byte rate exactly
    let mut stream = SyntheticSource::default();
    stream.connect().unwrap();
    let (_rx, source, mut producer) = stream.heat().unwrap();
    let mut total: usize = 0;
    for _ in 0..100 {
        let step_bytes = producer.pump();
        assert_eq!(step_bytes, 441 * 4);
        total += step_bytes;
    }
    assert_eq!(total as u64, source.byte_rate());
    assert_eq!(source.byte_rate(), 176400);
    assert_eq!(source.sample_bytes(), 4);
}

#[test]
fn synthetic_square_wave_shape() {
    // 200 Hz at 44100 Hz flips polarity every 110 samples; volume 50%
    // gives amplitudes 16383 and -16384
    let mut stream = SyntheticSource::default();
    stream.connect().unwrap();
    let (_rx, _source, producer) = stream.heat().unwrap();
    let gen_before = producer.generator();
    assert_eq!(gen_before.samples_per_cycle, 110);
    assert_eq!(gen_before.step_samples, 441);
    let mut gen = gen_before;
    let samples = gen.next_step();
    assert_eq!(samples.len(), 441);
    assert_eq!(samples[0], 16383);
    assert_eq!(samples[109], 16383);
    assert_eq!(samples[110], -16384);
    assert_eq!(samples[219], -16384);
    assert_eq!(samples[220], 16383);
    assert_eq!(samples[440], 16383);
}

#[test]
fn stereo_frames_duplicate_channels() {
    let samples: Vec<i16> = vec![16383, -16384, 0];
    let bytes = stereo_frames(&samples);
    assert_eq!(bytes.len(), 12);
    // 16383 = 0x3fff little-endian, on both channels
    assert_eq!(&bytes[0..4], &[0xff, 0x3f, 0xff, 0x3f]);
    // -16384 = 0xc000 as two's complement
    assert_eq!(&bytes[4..8], &[0x00, 0xc0, 0x00, 0xc0]);
    assert_eq!(&bytes[8..12], &[0x00, 0x00, 0x00, 0x00]);
}

#[test]
fn sample_bytes_round_trip() {
    for v in [-32768i16, -16384, -1, 0, 1, 255, 256, 16383, 32767] {
        let (b0, b1) = sample_le_bytes(v);
        assert_eq!(i16_from_le(b0, b1), v);
        assert_eq!([b0, b1], v.to_le_bytes());
    }
}

fn device(name: &str, desc: &str, index: u32) -> (ServerStream, SimpleSource) {
    let stream = ServerStream {
        name: name.as_bytes().to_vec(),
        index,
        desc: desc.as_bytes().to_vec(),
    };
    let mut info = SimpleSource::default();
    info.index = index;
    info.name = String::from(desc);
    (stream, info)
}

#[test]
fn first_monitor_picks_first_match() {
    let devices = vec![
        device("alsa_input.usb-mic.analog-stereo", "USB Microphone", 0),
        device(
            "alsa_output.pci-0000_00_1f.3.analog-stereo.monitor",
            "Monitor of Built-in Audio Analog Stereo",
            1,
        ),
        device("alsa_output.hdmi.monitor", "Monitor of HDMI Audio", 2),
    ];
    assert_eq!(first_monitor(&devices), Some(1));
}

#[test]
fn first_monitor_is_case_insensitive() {
    let devices = vec![
        device("mic", "Front Microphone", 0),
        device("loopback", "MONITOR of Something", 1),
    ];
    assert_eq!(first_monitor(&devices), Some(1));
    let none = vec![device("mic", "Front Microphone", 0)];
    assert_eq!(first_monitor(&none), None);
}

#[test]
fn monitor_source_lifecycle_and_forward() {
    let devices = vec![
        device("mic", "Front Microphone", 0),
        device("out.monitor", "Monitor of Out", 7),
    ];
    let mut source = MonitorSource::new(devices).unwrap();
    assert_eq!(source.stream().index, 7);
    assert_eq!(source.state(), RingState::BORN);
    assert!(source.heat().is_err());
    source.connect().unwrap();
    let (rx, info, feed) = source.heat().unwrap();
    assert_eq!(info.index, 7);
    let chunk: Vec<u8> = vec![1, 2, 3, 4, 5, 6, 7, 8];
    let written = feed.forward(&chunk);
    assert_eq!(written, 8);
    assert_eq!(rx.read(8), chunk);
    assert_eq!(source.chill().unwrap(), RingState::DEAD);
}

#[test]
fn monitor_source_requires_a_monitor() {
    let devices = vec![device("mic", "Front Microphone", 0)];
    let err = match MonitorSource::new(devices) {
        Err(e) => e,
        Ok(_) => panic!("selection should fail without a monitor"),
    };
    assert_eq!(err.message(), "No monitor device found");
}

#[test]
fn ready_wait_decisions() {
    assert_eq!(ready_wait_step(ServerReadiness::Ready).unwrap(), ReadyAction::Proceed);
    assert_eq!(ready_wait_step(ServerReadiness::Pending).unwrap(), ReadyAction::Wait);
    for state in [ServerReadiness::Failed, ServerReadiness::Terminated] {
        let err = match ready_wait_step(state) {
            Err(e) => e,
            Ok(_) => panic!("a dead server must not look ready"),
        };
        assert_eq!(
            err.message(),
            "PulseAudio returned Failed|Terminated.  Check sound server."
        );
    }
}

#[test]
fn monitor_chunk_decisions() {
    assert_eq!(monitor_chunk_step(ChunkKind::Data), ChunkAction::ForwardThenDiscard);
    assert_eq!(monitor_chunk_step(ChunkKind::Hole), ChunkAction::Discard);
    assert_eq!(monitor_chunk_step(ChunkKind::NothingYet), ChunkAction::Sleep);
}

#[test]
fn enumeration_conversions() {
    // a nameless device is skipped
    assert!(ServerStream::from_parts(None, 3, Some(b"Monitor of Out".to_vec())).is_none());
    // a missing description becomes empty
    let s = ServerStream::from_parts(Some(b"out.monitor".to_vec()), 3, None).unwrap();
    assert_eq!(s.name, b"out.monitor".to_vec());
    assert_eq!(s.index, 3);
    assert_eq!(s.desc, Vec::<u8>::new());
    // a missing source name gets the placeholder
    let named = SimpleSource::from_parts(
        Some(String::from("Built-in Audio")),
        1,
        48000,
        2,
        SampleFormat::S16le,
    );
    assert_eq!(named.name, "Built-in Audio");
    assert_eq!(named.rate, 48000);
    let unnamed = SimpleSource::from_parts(None, 0, 44100, 2, SampleFormat::S16le);
    assert_eq!(unnamed.name, "Unnamed audio source");
}
