use e_nguyen::audio::{AudioStream, SyntheticSource};
use e_nguyen::compute::{AudioTexSource, PumpResult, SpectralPipeline};
use e_nguyen::ring::RingBytes;
use e_nguyen::scale::{LogFrequencyMapper, FP_ONE};

use rustfft::num_complex::Complex;
use rustfft::FftPlanner;

#[test]
fn tex_source_doubles_height() {
    let source = AudioTexSource::new(512).unwrap();
    assert_eq!(source.tex_height, 512);
    assert_eq!(source.bins, 1024);
}

#[test]
fn consume_amount_paces_frames() {
    // nothing until two frames' worth are available, then one frame's
    // worth rounded down to whole stereo sample frames
    assert_eq!(SpectralPipeline::consume_amount(999, 500), None);
    assert_eq!(SpectralPipeline::consume_amount(1000, 500), Some(500));
    assert_eq!(SpectralPipeline::consume_amount(5000, 501), Some(500));
}

#[test]
fn sliding_window_keeps_most_recent() {
    let source = AudioTexSource::new(8).unwrap();
    let meta = e_nguyen::audio::SimpleSource::default();
    let (_tx, rx) = RingBytes::new(64);
    let mut pipe = SpectralPipeline::new(rx, &source, &meta, 60).unwrap();
    // window is bins * 4 = 64 bytes; feed 100 bytes, the last 64 stay
    let fresh: Vec<u8> = (0..100).collect();
    let frame = pipe.accept(&fresh);
    let (left, right) = frame.unwrap();
    assert_eq!(left.len(), 16);
    assert_eq!(right.len(), 16);
    // the first decoded frame comes from bytes 36..40 of the input
    assert_eq!(right[0], i16::from_le_bytes([36, 37]));
    assert_eq!(left[0], i16::from_le_bytes([38, 39]));
    // the last from bytes 96..100
    assert_eq!(right[15], i16::from_le_bytes([96, 97]));
    assert_eq!(left[15], i16::from_le_bytes([98, 99]));
}

#[test]
fn partial_window_yields_nothing() {
    let source = AudioTexSource::new(8).unwrap();
    let meta = e_nguyen::audio::SimpleSource::default();
    let (_tx, rx) = RingBytes::new(64);
    let mut pipe = SpectralPipeline::new(rx, &source, &meta, 60).unwrap();
    let fresh: Vec<u8> = (0..32).collect();
    assert!(pipe.accept(&fresh).is_none());
    // the second half completes the window
    let more: Vec<u8> = (32..64).collect();
    assert!(pipe.accept(&more).is_some());
}

#[test]
fn pump_reports_need_more_data() {
    let source = AudioTexSource::new(8).unwrap();
    let meta = e_nguyen::audio::SimpleSource::default();
    let (_tx, rx) = RingBytes::new(64);
    let mut pipe = SpectralPipeline::new(rx, &source, &meta, 60).unwrap();
    assert!(matches!(pipe.pump(), PumpResult::NeedMoreData));
}

#[test]
fn log_mapper_ratio_spans_the_range() {
    // f_min × a^(bins-1) lands on f_max within floating-point tolerance
    let mapper = LogFrequencyMapper::new(1024, 40, 20000).unwrap();
    assert_eq!(mapper.min_freq, 40);
    assert_eq!(mapper.max_freq, 20000);
    assert_eq!(mapper.n_log_bins, 1024);
    let a = mapper.log_bin_ratio as f64 / FP_ONE as f64;
    let reached = 40.0_f64 * a.powi(1023);
    assert!((reached - 20000.0).abs() < 20000.0 * 1e-4, "reached {}", reached);
    // the linear bin count that resolves the narrowest logarithmic bin:
    // f_max / (f_min × (a − 1))
    assert!(mapper.n_lin_bins > 82000 && mapper.n_lin_bins < 82110, "{}", mapper.n_lin_bins);
}

#[test]
fn log_mapper_clamps_to_audible_range() {
    let mapper = LogFrequencyMapper::new(1024, 1, 30000).unwrap();
    assert_eq!(mapper.min_freq, 20);
    assert_eq!(mapper.max_freq, 20000);
}

#[test]
fn log_mapper_rejects_empty_range() {
    // f_max ≤ f_min fails deterministically and never yields a ratio ≤ 0
    assert!(LogFrequencyMapper::new(1024, 20000, 40).is_err());
    assert!(LogFrequencyMapper::new(1024, 100, 100).is_err());
    assert!(LogFrequencyMapper::new(1, 40, 20000).is_err());
    let err = LogFrequencyMapper::new(1024, 500, 400).unwrap_err();
    assert_eq!(
        err.message(),
        "Log scale requires f_max above f_min and at least two bins"
    );
    for (bins, lo, hi) in [(2usize, 20u32, 21u32), (1024, 40, 20000), (4096, 19999, 20000)] {
        let mapper = LogFrequencyMapper::new(bins, lo, hi).unwrap();
        assert!(mapper.log_bin_ratio > FP_ONE);
    }
}

#[test]
fn square_wave_peak_lands_on_its_bin() {
    // a 200 Hz square wave at 44.1 kHz through the full pipeline: the
    // left-channel magnitude peak falls in the FFT bin nearest 200 Hz
    let mut stream = SyntheticSource::default();
    stream.connect().unwrap();
    let (rx, meta, mut producer) = stream.heat().unwrap();
    let source = AudioTexSource::new(1024).unwrap();
    let bins = source.bins; // 2048 samples per channel
    let mut pipe = SpectralPipeline::new(rx, &source, &meta, 60).unwrap();

    let mut frame = None;
    for _ in 0..64 {
        producer.pump();
        match pipe.pump() {
            PumpResult::Frame(left, right) => {
                frame = Some((left, right));
                break;
            }
            _ => {}
        }
    }
    let (left, _right) = frame.expect("no frame produced");
    assert_eq!(left.len(), bins);

    let norm = 1.0_f32 / i16::MAX as f32;
    let mut buf: Vec<Complex<f32>> =
        left.iter().map(|s| Complex::new(*s as f32 * norm, 0.0)).collect();
    let mut planner = FftPlanner::new();
    let fft = planner.plan_fft_forward(bins);
    fft.process(&mut buf);

    let mut peak_bin = 1;
    let mut peak_mag = 0.0_f32;
    for (k, value) in buf.iter().enumerate().take(bins / 2).skip(1) {
        let mag = value.norm();
        if mag > peak_mag {
            peak_mag = mag;
            peak_bin = k;
        }
    }
    // the generator flips every 110 samples, so its true period is 220
    // samples and its fundamental sits at bin 2048 / 220 ≈ 9.3
    let expected = (bins as f64 / 220.0).round() as usize;
    assert_eq!(peak_bin, expected);
    assert_eq!(expected, 9);
}
