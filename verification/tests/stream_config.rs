use audio_forwarder::{ConfigError, SampleFormat, StreamConfig};

fn parse(text: &str, rate: Option<u32>) -> Result<StreamConfig, ConfigError> {
    let fields = StreamConfig::split_text(text);
    StreamConfig::from_fields(&fields, rate)
}

#[test]
fn parses_full_config() {
    let c = parse("2x44.1xf32", Some(44100)).unwrap();
    assert_eq!(c.channels, 2);
    assert_eq!(c.sample_rate, 44100);
    assert_eq!(c.sample_format, SampleFormat::F32);
}

#[test]
fn parses_plus_sign_and_extra_fields() {
    let c = parse("+1x48xi16xjunk", Some(48000)).unwrap();
    assert_eq!(c, StreamConfig { channels: 1, sample_rate: 48000, sample_format: SampleFormat::I16 });
}

#[test]
fn error_missing_channels() {
    assert_eq!(StreamConfig::from_fields(&Vec::new(), Some(1)), Err(ConfigError::MissingChannels));
}

#[test]
fn error_invalid_channels() {
    assert_eq!(parse("", Some(1)), Err(ConfigError::InvalidChannels));
    assert_eq!(parse("twox48xf32", Some(48000)), Err(ConfigError::InvalidChannels));
    assert_eq!(parse("-1x48xf32", Some(48000)), Err(ConfigError::InvalidChannels));
    assert_eq!(parse("65536x48xf32", Some(48000)), Err(ConfigError::InvalidChannels));
    assert_eq!(parse("+x48xf32", Some(48000)), Err(ConfigError::InvalidChannels));
}

#[test]
fn error_missing_sample_rate() {
    assert_eq!(parse("2", Some(48000)), Err(ConfigError::MissingSampleRate));
}

#[test]
fn error_invalid_sample_rate() {
    assert_eq!(parse("2xabcxf32", None), Err(ConfigError::InvalidSampleRate));
    // The rate is checked before the format is looked for.
    assert_eq!(parse("2xabc", None), Err(ConfigError::InvalidSampleRate));
}

#[test]
fn error_missing_sample_format() {
    assert_eq!(parse("2x48", Some(48000)), Err(ConfigError::MissingSampleFormat));
}

#[test]
fn error_unsupported_sample_format() {
    assert_eq!(parse("2x48xf64", Some(48000)), Err(ConfigError::UnsupportedSampleFormat));
    assert_eq!(parse("2x48xu24", Some(48000)), Err(ConfigError::UnsupportedSampleFormat));
    assert_eq!(parse("2x48x", Some(48000)), Err(ConfigError::UnsupportedSampleFormat));
}

#[test]
fn every_parseable_format() {
    let names = ["i8", "i16", "i24", "i32", "i64", "u8", "u16", "u32", "u64", "f32"];
    for n in names.iter() {
        let f = SampleFormat::parse(n).unwrap();
        assert_eq!(f.name(), *n);
    }
    assert_eq!(SampleFormat::parse("dsdu8"), None);
}

#[test]
fn format_names() {
    assert_eq!(SampleFormat::U24.name(), "u24");
    assert_eq!(SampleFormat::F64.name(), "f64");
    assert_eq!(SampleFormat::DsdU8.name(), "dsdu8");
    assert_eq!(SampleFormat::DsdU16.name(), "dsdu16");
    assert_eq!(SampleFormat::DsdU32.name(), "dsdu32");
}

#[test]
fn writes_config_text() {
    let c = StreamConfig { channels: 2, sample_rate: 44100, sample_format: SampleFormat::F32 };
    assert_eq!(c.to_text("44.1"), "2x44.1xf32");
    let m = StreamConfig { channels: 1, sample_rate: 48000, sample_format: SampleFormat::I16 };
    assert_eq!(m.to_text("48"), "1x48xi16");
}

#[test]
fn config_text_reads_back() {
    let c = StreamConfig { channels: 2, sample_rate: 96000, sample_format: SampleFormat::U16 };
    let text = c.to_text("96");
    let fields = StreamConfig::split_text(&text);
    assert_eq!(fields, vec!["2".to_string(), "96".to_string(), "u16".to_string()]);
    assert_eq!(StreamConfig::from_fields(&fields, Some(96000)), Ok(c));
}

#[test]
fn trims_khz_figures() {
    assert_eq!(StreamConfig::trim_khz("44.10"), "44.1");
    assert_eq!(StreamConfig::trim_khz("48.00"), "48");
    assert_eq!(StreamConfig::trim_khz("100.00"), "100");
    assert_eq!(StreamConfig::trim_khz("11.02"), "11.02");
    assert_eq!(StreamConfig::trim_khz("0.00"), "0");
    assert_eq!(StreamConfig::trim_khz("000"), "");
}

#[test]
fn splits_at_each_x() {
    assert_eq!(StreamConfig::split_text("ax"), vec!["a".to_string(), String::new()]);
    assert_eq!(StreamConfig::split_text(""), vec![String::new()]);
    assert_eq!(StreamConfig::split_text("2x48xf32xz").len(), 4);
}
