//! Stream configurations and their text form `<channels>x<khz>x<format>`.
use crate::text::{
    decimal, decimal_string, parse_u16, parse_u16_text, push_char, push_str, split_char, split_on,
    string_of, trim_end_char, trim_end_matches_char, lemma_decimal_digits, lemma_parse_u16_decimal,
    lemma_split_append, lemma_split_without_sep, is_digit,
};
use vstd::prelude::*;

verus! {

/// The encoding of one audio sample, as an audio host names it.
#[derive(Clone, Copy, Debug, PartialEq, Eq, Hash, Structural)]
pub enum SampleFormat {
    I8,
    I16,
    I24,
    I32,
    I64,
    U8,
    U16,
    U24,
    U32,
    U64,
    F32,
    F64,
    DsdU8,
    DsdU16,
    DsdU32,
}

/// The name under which a sample format is written.
pub open spec fn format_name(f: SampleFormat) -> Seq<char> {
    match f {
        SampleFormat::I8 => "i8"@,
        SampleFormat::I16 => "i16"@,
        SampleFormat::I24 => "i24"@,
        SampleFormat::I32 => "i32"@,
        SampleFormat::I64 => "i64"@,
        SampleFormat::U8 => "u8"@,
        SampleFormat::U16 => "u16"@,
        SampleFormat::U24 => "u24"@,
        SampleFormat::U32 => "u32"@,
        SampleFormat::U64 => "u64"@,
        SampleFormat::F32 => "f32"@,
        SampleFormat::F64 => "f64"@,
        SampleFormat::DsdU8 => "dsdu8"@,
        SampleFormat::DsdU16 => "dsdu16"@,
        SampleFormat::DsdU32 => "dsdu32"@,
    }
}

/// The sample format that a configuration text may name: ten of the
/// formats are accepted there.
pub open spec fn parse_format_text(s: Seq<char>) -> Option<SampleFormat> {
    if s == "i8"@ {
        Some(SampleFormat::I8)
    } else if s == "i16"@ {
        Some(SampleFormat::I16)
    } else if s == "i24"@ {
        Some(SampleFormat::I24)
    } else if s == "i32"@ {
        Some(SampleFormat::I32)
    } else if s == "i64"@ {
        Some(SampleFormat::I64)
    } else if s == "u8"@ {
        Some(SampleFormat::U8)
    } else if s == "u16"@ {
        Some(SampleFormat::U16)
    } else if s == "u32"@ {
        Some(SampleFormat::U32)
    } else if s == "u64"@ {
        Some(SampleFormat::U64)
    } else if s == "f32"@ {
        Some(SampleFormat::F32)
    } else {
        None
    }
}

/// Whether a configuration text may name the format `f`.
pub open spec fn format_is_parseable(f: SampleFormat) -> bool {
    match f {
        SampleFormat::U24 | SampleFormat::F64 | SampleFormat::DsdU8 | SampleFormat::DsdU16
        | SampleFormat::DsdU32 => false,
        _ => true,
    }
}

impl SampleFormat {
    /// The name under which this format is written, such as `f32`.
    pub fn name(&self) -> (s: String)
        ensures
            s@ == format_name(*self),
    {
        match self {
            SampleFormat::I8 => string_of("i8"),
            SampleFormat::I16 => string_of("i16"),
            SampleFormat::I24 => string_of("i24"),
            SampleFormat::I32 => string_of("i32"),
            SampleFormat::I64 => string_of("i64"),
            SampleFormat::U8 => string_of("u8"),
            SampleFormat::U16 => string_of("u16"),
            SampleFormat::U24 => string_of("u24"),
            SampleFormat::U32 => string_of("u32"),
            SampleFormat::U64 => string_of("u64"),
            SampleFormat::F32 => string_of("f32"),
            SampleFormat::F64 => string_of("f64"),
            SampleFormat::DsdU8 => string_of("dsdu8"),
            SampleFormat::DsdU16 => string_of("dsdu16"),
            SampleFormat::DsdU32 => string_of("dsdu32"),
        }
    }

    /// The format that `s` names in a configuration text, if it names one.
    pub fn parse(s: &str) -> (r: Option<SampleFormat>)
        ensures
            r == parse_format_text(s@),
    {
        let t = string_of(s);
        if t == string_of("i8") {
            Some(SampleFormat::I8)
        } else if t == string_of("i16") {
            Some(SampleFormat::I16)
        } else if t == string_of("i24") {
            Some(SampleFormat::I24)
        } else if t == string_of("i32") {
            Some(SampleFormat::I32)
        } else if t == string_of("i64") {
            Some(SampleFormat::I64)
        } else if t == string_of("u8") {
            Some(SampleFormat::U8)
        } else if t == string_of("u16") {
            Some(SampleFormat::U16)
        } else if t == string_of("u32") {
            Some(SampleFormat::U32)
        } else if t == string_of("u64") {
            Some(SampleFormat::U64)
        } else if t == string_of("f32") {
            Some(SampleFormat::F32)
        } else {
            None
        }
    }
}

/// Why a configuration text was refused.
#[derive(Clone, Copy, Debug, PartialEq, Eq, Structural)]
pub enum ConfigError {
    MissingChannels,
    InvalidChannels,
    MissingSampleRate,
    InvalidSampleRate,
    MissingSampleFormat,
    UnsupportedSampleFormat,
}

/// The shape of an audio stream: channels, sample rate in Hz and sample format.
#[derive(Clone, Copy, Debug, PartialEq, Eq, Hash, Structural)]
pub struct StreamConfig {
    pub channels: u16,
    pub sample_rate: u32,
    pub sample_format: SampleFormat,
}

/// The configuration that the pieces of a configuration text describe.
/// `rate` is the sample rate in Hz that the second piece denotes, `None`
/// where that piece is no number; the pieces are read in order and the first
/// fault found is the error.
pub open spec fn config_from_fields(fields: Seq<Seq<char>>, rate: Option<u32>) -> Result<
    StreamConfig,
    ConfigError,
> {
    if fields.len() < 1 {
        Err(ConfigError::MissingChannels)
    } else {
        match parse_u16_text(fields[0]) {
            None => Err(ConfigError::InvalidChannels),
            Some(channels) => if fields.len() < 2 {
                Err(ConfigError::MissingSampleRate)
            } else {
                match rate {
                    None => Err(ConfigError::InvalidSampleRate),
                    Some(sample_rate) => if fields.len() < 3 {
                        Err(ConfigError::MissingSampleFormat)
                    } else {
                        match parse_format_text(fields[2]) {
                            None => Err(ConfigError::UnsupportedSampleFormat),
                            Some(sample_format) => Ok(
                                StreamConfig { channels, sample_rate, sample_format },
                            ),
                        }
                    },
                }
            },
        }
    }
}

/// The text of a configuration whose sample rate is written `khz`.
pub open spec fn config_text(cfg: StreamConfig, khz: Seq<char>) -> Seq<char> {
    decimal(cfg.channels as nat) + seq!['x'] + khz + seq!['x'] + format_name(cfg.sample_format)
}

/// A kilohertz figure written with two decimals, with its trailing zeros
/// and then its trailing points removed.
pub open spec fn trim_khz_text(text: Seq<char>) -> Seq<char> {
    trim_end_char(trim_end_char(text, '0'), '.')
}

/// No format name holds an `x`, and the names that a configuration text
/// may hold read back as their formats.
pub proof fn lemma_format_name(f: SampleFormat)
    ensures
        !format_name(f).contains('x'),
        format_is_parseable(f) ==> parse_format_text(format_name(f)) == Some(f),
{
    broadcast use vstd::string::group_string_axioms;

    reveal_strlit("i8");
    reveal_strlit("i16");
    reveal_strlit("i24");
    reveal_strlit("i32");
    reveal_strlit("i64");
    reveal_strlit("u8");
    reveal_strlit("u16");
    reveal_strlit("u24");
    reveal_strlit("u32");
    reveal_strlit("u64");
    reveal_strlit("f32");
    reveal_strlit("f64");
    reveal_strlit("dsdu8");
    reveal_strlit("dsdu16");
    reveal_strlit("dsdu32");
    let name = format_name(f);
    assert("i8"@.len() == 2);
    assert("i8"@[0] == 'i');
    assert("i8"@[1] == '8');
    assert("i16"@.len() == 3);
    assert("i16"@[0] == 'i');
    assert("i16"@[1] == '1');
    assert("i16"@[2] == '6');
    assert("i24"@.len() == 3);
    assert("i24"@[0] == 'i');
    assert("i24"@[1] == '2');
    assert("i24"@[2] == '4');
    assert("i32"@.len() == 3);
    assert("i32"@[0] == 'i');
    assert("i32"@[1] == '3');
    assert("i32"@[2] == '2');
    assert("i64"@.len() == 3);
    assert("i64"@[0] == 'i');
    assert("i64"@[1] == '6');
    assert("i64"@[2] == '4');
    assert("u8"@.len() == 2);
    assert("u8"@[0] == 'u');
    assert("u8"@[1] == '8');
    assert("u16"@.len() == 3);
    assert("u16"@[0] == 'u');
    assert("u16"@[1] == '1');
    assert("u16"@[2] == '6');
    assert("u32"@.len() == 3);
    assert("u32"@[0] == 'u');
    assert("u32"@[1] == '3');
    assert("u32"@[2] == '2');
    assert("u64"@.len() == 3);
    assert("u64"@[0] == 'u');
    assert("u64"@[1] == '6');
    assert("u64"@[2] == '4');
    assert("f32"@.len() == 3);
    assert("f32"@[0] == 'f');
    assert("f32"@[1] == '3');
    assert("f32"@[2] == '2');
    assert(!name.contains('x')) by {
        if name.contains('x') {
            let k = choose|k: int| 0 <= k < name.len() && name[k] == 'x';
        }
    }
}

/// A configuration written out reads back as itself: the text splits into
/// the channel count, the kilohertz figure and the format name, and these
/// describe the configuration again. This holds where the kilohertz figure
/// holds no `x`, denotes the configuration's sample rate, and the format is
/// one that a configuration text may name.
pub proof fn lemma_config_text_roundtrip(cfg: StreamConfig, khz: Seq<char>)
    requires
        !khz.contains('x'),
        format_is_parseable(cfg.sample_format),
    ensures
        split_on(config_text(cfg, khz), 'x') == seq![
            decimal(cfg.channels as nat),
            khz,
            format_name(cfg.sample_format),
        ],
        config_from_fields(split_on(config_text(cfg, khz), 'x'), Some(cfg.sample_rate))
            == Ok::<StreamConfig, ConfigError>(cfg),
{
    let ch = decimal(cfg.channels as nat);
    let name = format_name(cfg.sample_format);
    lemma_decimal_digits(cfg.channels as nat);
    assert(!ch.contains('x')) by {
        if ch.contains('x') {
            let k = choose|k: int| 0 <= k < ch.len() && ch[k] == 'x';
            assert(is_digit(ch[k]));
        }
    }
    lemma_format_name(cfg.sample_format);
    lemma_split_without_sep(ch, 'x');
    lemma_split_append(ch, khz, 'x');
    lemma_split_append(ch + seq!['x'] + khz, name, 'x');
    assert(config_text(cfg, khz) =~= (ch + seq!['x'] + khz) + seq!['x'] + name);
    assert(seq![ch].push(khz).push(name) =~= seq![ch, khz, name]);
    lemma_parse_u16_decimal(cfg.channels);
}

impl StreamConfig {
    /// The pieces of a configuration text, split at each `x`.
    pub fn split_text(s: &str) -> (fields: Vec<String>)
        ensures
            fields.deep_view() == split_on(s@, 'x'),
    {
        split_char(s, 'x')
    }

    /// The configuration that the pieces of a configuration text describe,
    /// given the sample rate in Hz that the second piece denotes.
    pub fn from_fields(fields: &Vec<String>, rate: Option<u32>) -> (r: Result<StreamConfig, ConfigError>)
        ensures
            r == config_from_fields(fields.deep_view(), rate),
    {
        let ghost fv = fields.deep_view();
        if fields.len() < 1 {
            return Err(ConfigError::MissingChannels);
        }
        assert(fv[0] == fields@[0]@);
        let channels = match parse_u16(fields[0].as_str()) {
            None => return Err(ConfigError::InvalidChannels),
            Some(c) => c,
        };
        if fields.len() < 2 {
            return Err(ConfigError::MissingSampleRate);
        }
        let sample_rate = match rate {
            None => return Err(ConfigError::InvalidSampleRate),
            Some(r) => r,
        };
        if fields.len() < 3 {
            return Err(ConfigError::MissingSampleFormat);
        }
        assert(fv[2] == fields@[2]@);
        match SampleFormat::parse(fields[2].as_str()) {
            None => Err(ConfigError::UnsupportedSampleFormat),
            Some(sample_format) => Ok(StreamConfig { channels, sample_rate, sample_format }),
        }
    }

    /// The text of this configuration, with its sample rate written `khz`.
    pub fn to_text(&self, khz: &str) -> (s: String)
        ensures
            s@ == config_text(*self, khz@),
    {
        let mut s = decimal_string(self.channels as u64);
        push_char(&mut s, 'x');
        push_str(&mut s, khz);
        push_char(&mut s, 'x');
        let name = self.sample_format.name();
        push_str(&mut s, name.as_str());
        assert(s@ =~= config_text(*self, khz@));
        s
    }

    /// A kilohertz figure written with two decimals, such as `44.10`, in the
    /// short form used in configuration texts, such as `44.1`.
    pub fn trim_khz(text: &str) -> (s: String)
        ensures
            s@ == trim_khz_text(text@),
    {
        let t = trim_end_matches_char(text, '0');
        trim_end_matches_char(t.as_str(), '.')
    }
}

} // verus!
