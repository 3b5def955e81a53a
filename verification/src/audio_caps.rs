//! Choosing hosts, devices and configurations, and describing what the audio
//! hosts offer.
use crate::stream_config::{format_name, SampleFormat, StreamConfig};
use crate::text::{
    decimal, join, join_strings, lemma_decimal_digits, lemma_decimal_injective, position_of,
    push_char, push_decimal, push_str, string_of,
};
use vstd::prelude::*;

verus! {

/// How many of the first `n` names of `names` equal `x`.
pub open spec fn count_in(names: Seq<Seq<char>>, x: Seq<char>, n: int) -> nat
    decreases n,
{
    if n <= 0 {
        0
    } else {
        count_in(names, x, n - 1) + if names[n - 1] == x {
            1nat
        } else {
            0nat
        }
    }
}

/// The `i`th name made unique: a name that occurs more than once gets
/// ` #k`, where it is the `k`th occurrence; other names stay as they are.
pub open spec fn unique_name(names: Seq<Seq<char>>, i: int) -> Seq<char> {
    if count_in(names, names[i], names.len() as int) > 1 {
        names[i] + seq![' ', '#'] + decimal(count_in(names, names[i], i + 1))
    } else {
        names[i]
    }
}

/// All names made unique, in their order.
pub open spec fn unique_names(names: Seq<Seq<char>>) -> Seq<Seq<char>> {
    Seq::new(names.len(), |i: int| unique_name(names, i))
}

/// No name holds a `#`.
pub open spec fn free_of_hash(names: Seq<Seq<char>>) -> bool {
    forall|k: int, m: int| 0 <= k < names.len() && 0 <= m < names[k].len() ==> #[trigger] names[k][m] != '#'
}

/// A range of configurations that a device offers: a channel count and a
/// sample format over a range of sample rates.
#[derive(Clone, Copy, Debug, PartialEq, Eq, Structural)]
pub struct ConfigRange {
    pub channels: u16,
    pub min_sample_rate: u32,
    pub max_sample_rate: u32,
    pub sample_format: SampleFormat,
}

/// A range of configurations with its lowest and highest sample rates
/// written in kilohertz.
#[derive(Clone, Debug)]
pub struct ListedConfig {
    pub range: ConfigRange,
    pub min_khz: String,
    pub max_khz: String,
}

/// What one device offers: its configuration ranges and default
/// configuration in each direction.
#[derive(Clone, Debug)]
pub struct DeviceListing {
    pub input_configs: Vec<ListedConfig>,
    pub default_input: Option<StreamConfig>,
    pub output_configs: Vec<ListedConfig>,
    pub default_output: Option<StreamConfig>,
}

/// What one audio host offers: its name, the names of its default input and
/// output devices (empty where it has none), the names of its devices that
/// could be read, and its devices.
#[derive(Clone, Debug)]
pub struct HostListing {
    pub name: String,
    pub default_input_device: String,
    pub default_output_device: String,
    pub device_names: Vec<String>,
    pub devices: Vec<DeviceListing>,
}

/// Whether the range offers the configuration `cfg`.
pub open spec fn range_supports(r: ConfigRange, cfg: StreamConfig) -> bool {
    &&& r.min_sample_rate <= cfg.sample_rate
    &&& cfg.sample_rate <= r.max_sample_rate
    &&& r.channels == cfg.channels
    &&& r.sample_format == cfg.sample_format
}

/// Whether a listed range is shown for input: one or two channels of `f32`
/// or `i32`.
pub open spec fn shown_for_input(r: ConfigRange) -> bool {
    (r.channels == 1 || r.channels == 2) && (r.sample_format == SampleFormat::F32
        || r.sample_format == SampleFormat::I32)
}

/// Whether a listed range is shown for output: two channels of `f32` or
/// `i32`.
pub open spec fn shown_for_output(r: ConfigRange) -> bool {
    r.channels == 2 && (r.sample_format == SampleFormat::F32 || r.sample_format
        == SampleFormat::I32)
}

/// Whether `default` is a configuration within the range.
pub open spec fn is_default_in(r: ConfigRange, default: Option<StreamConfig>) -> bool {
    match default {
        Some(d) => d.channels == r.channels && d.sample_rate >= r.min_sample_rate && d.sample_rate
            <= r.max_sample_rate && d.sample_format == r.sample_format,
        None => false,
    }
}

/// The sample rates of a listed range: one figure where the range is a
/// single rate, else the lowest and highest joined by `-`.
pub open spec fn rate_text(c: ListedConfig) -> Seq<char> {
    if c.range.min_sample_rate == c.range.max_sample_rate {
        c.max_khz@
    } else {
        c.min_khz@ + seq!['-'] + c.max_khz@
    }
}

/// A listed range as shown: `"<channels>x<rates>x<format>"`, followed by
/// ` (default)` where the default configuration lies within it.
pub open spec fn config_entry(c: ListedConfig, default: Option<StreamConfig>) -> Seq<char> {
    seq!['"'] + decimal(c.range.channels as nat) + seq!['x'] + rate_text(c) + seq!['x']
        + format_name(c.range.sample_format) + seq!['"'] + if is_default_in(c.range, default) {
        " (default)"@
    } else {
        Seq::<char>::empty()
    }
}

/// The entries shown for the ranges `cs`, in order, keeping those shown for
/// input (`input`) or for output.
pub open spec fn config_entries(cs: Seq<ListedConfig>, default: Option<StreamConfig>, input: bool) -> Seq<
    Seq<char>,
>
    decreases cs.len(),
{
    if cs.len() == 0 {
        Seq::<Seq<char>>::empty()
    } else {
        let prev = config_entries(cs.drop_last(), default, input);
        let c = cs.last();
        if (input && shown_for_input(c.range)) || (!input && shown_for_output(c.range)) {
            prev.push(config_entry(c, default))
        } else {
            prev
        }
    }
}

/// The entries joined with `, `, or `none` where there are none.
pub open spec fn entries_text(entries: Seq<Seq<char>>) -> Seq<char> {
    if entries.len() == 0 {
        "none"@
    } else {
        join(entries, ", "@)
    }
}

/// The lines that describe the `i`th device of a host.
pub open spec fn device_block(h: HostListing, i: int) -> Seq<char> {
    let name = unique_names(h.device_names.deep_view())[i];
    let d = h.devices@[i];
    "  Device \""@ + name + seq!['"'] + (if name == h.default_input_device@ {
        " (default input)"@
    } else {
        Seq::<char>::empty()
    }) + (if name == h.default_output_device@ {
        " (default output)"@
    } else {
        Seq::<char>::empty()
    }) + seq!['\n'] + "    Input "@ + entries_text(
        config_entries(d.input_configs@, d.default_input, true),
    ) + seq!['\n'] + "    Output "@ + entries_text(
        config_entries(d.output_configs@, d.default_output, false),
    ) + seq!['\n']
}

/// The lines that describe the first `n` devices of a host.
pub open spec fn device_blocks(h: HostListing, n: int) -> Seq<char>
    decreases n,
{
    if n <= 0 {
        Seq::<char>::empty()
    } else {
        device_blocks(h, n - 1) + device_block(h, n - 1)
    }
}

/// The lines that describe a host and its devices.
pub open spec fn host_block(h: HostListing) -> Seq<char> {
    "Host \""@ + h.name@ + seq!['"', '\n'] + device_blocks(h, h.devices@.len() as int)
}

/// The description of the hosts `hs`, one after another.
pub open spec fn hosts_text(hs: Seq<HostListing>) -> Seq<char>
    decreases hs.len(),
{
    if hs.len() == 0 {
        Seq::<char>::empty()
    } else {
        hosts_text(hs.drop_last()) + host_block(hs.last())
    }
}

/// A host listing can be described: each device has a readable name.
pub open spec fn listing_complete(h: HostListing) -> bool {
    h.devices@.len() <= h.device_names@.len()
}

/// A range supports a configuration exactly when it has the
/// configuration's channel count and sample format and its sample rates
/// reach from at most to at least the configuration's rate; a range with
/// another channel count never supports it.
pub proof fn lemma_range_supports_law(r: ConfigRange, cfg: StreamConfig)
    ensures
        range_supports(r, cfg) <==> (r.channels == cfg.channels && r.sample_format
            == cfg.sample_format && r.min_sample_rate <= cfg.sample_rate && cfg.sample_rate
            <= r.max_sample_rate),
        r.channels != cfg.channels ==> !range_supports(r, cfg),
{
}

/// A listed range is marked as the default exactly when a default
/// configuration exists with the range's channel count and sample format and
/// a sample rate within the range: its entry is the bare entry followed by
/// ` (default)` then, and the bare entry otherwise. A range with another
/// channel count than the default's is never marked.
pub proof fn lemma_default_marker_law(c: ListedConfig, default: Option<StreamConfig>)
    ensures
        ({
            let marked = match default {
                Some(d) => d.channels == c.range.channels && d.sample_format
                    == c.range.sample_format && c.range.min_sample_rate <= d.sample_rate
                    && d.sample_rate <= c.range.max_sample_rate,
                None => false,
            };
            let bare = seq!['"'] + decimal(c.range.channels as nat) + seq!['x'] + rate_text(c)
                + seq!['x'] + format_name(c.range.sample_format) + seq!['"'];
            &&& is_default_in(c.range, default) == marked
            &&& config_entry(c, default) == if marked {
                bare + " (default)"@
            } else {
                bare
            }
        }),
        default matches Some(d) && d.channels != c.range.channels ==> config_entry(c, default)
            == seq!['"'] + decimal(c.range.channels as nat) + seq!['x'] + rate_text(c) + seq!['x']
            + format_name(c.range.sample_format) + seq!['"'],
{
    let bare = seq!['"'] + decimal(c.range.channels as nat) + seq!['x'] + rate_text(c) + seq!['x']
        + format_name(c.range.sample_format) + seq!['"'];
    if !is_default_in(c.range, default) {
        assert(config_entry(c, default) =~= bare);
    }
}

/// The audio hosts and devices of this machine, as far as the program
/// handles them.
pub struct AudioCaps {}

impl AudioCaps {
    /// Makes each repeated name distinct by adding ` #1`, ` #2`, ... in
    /// order of occurrence; names that occur once are kept.
    pub fn make_strings_unique(strings: Vec<String>) -> (r: Vec<String>)
        ensures
            r.deep_view() == unique_names(strings.deep_view()),
    {
        let ghost names = strings.deep_view();
        let n = strings.len();
        let mut r: Vec<String> = Vec::new();
        let mut i: usize = 0;
        while i < n
            invariant
                n == strings@.len(),
                names == strings.deep_view(),
                i <= n,
                r.deep_view() =~= unique_names(names).take(i as int),
            decreases n - i,
        {
            let total = Self::count_equal(&strings, i, n);
            let seen = Self::count_equal(&strings, i, i + 1);
            assert(names[i as int] == strings@[i as int]@);
            let mut name = string_of(strings[i].as_str());
            if total > 1 {
                push_char(&mut name, ' ');
                push_char(&mut name, '#');
                push_decimal(&mut name, seen as u64);
            }
            assert(name@ =~= unique_name(names, i as int));
            let ghost before = r.deep_view();
            r.push(name);
            assert(r.deep_view() =~= before.push(name@));
            assert(unique_names(names).take(i + 1) =~= unique_names(names).take(i as int).push(
                unique_name(names, i as int),
            ));
            i = i + 1;
        }
        assert(unique_names(names).take(n as int) =~= unique_names(names));
        r
    }

    /// Whether some range offers `requested`; then the device is opened
    /// with that configuration.
    pub fn select_config(ranges: &Vec<ConfigRange>, requested: &StreamConfig) -> (r: Option<StreamConfig>)
        ensures
            r == if exists|i: int| 0 <= i < ranges@.len() && range_supports(ranges@[i], *requested) {
                Some(*requested)
            } else {
                None::<StreamConfig>
            },
            match r {
                Some(c) => c == *requested && exists|i: int|
                    0 <= i < ranges@.len() && #[trigger] ranges@[i].channels == c.channels
                        && ranges@[i].sample_format == c.sample_format
                        && ranges@[i].min_sample_rate <= c.sample_rate
                        && c.sample_rate <= ranges@[i].max_sample_rate,
                None => forall|i: int|
                    0 <= i < ranges@.len() ==> !(#[trigger] ranges@[i].channels == requested.channels
                        && ranges@[i].sample_format == requested.sample_format
                        && ranges@[i].min_sample_rate <= requested.sample_rate
                        && requested.sample_rate <= ranges@[i].max_sample_rate),
            },
            (forall|i: int| 0 <= i < ranges@.len() ==> #[trigger] ranges@[i].channels != requested.channels)
                ==> r is None,
    {
        let mut i: usize = 0;
        proof {
            assert forall|j: int| 0 <= j < ranges@.len() implies range_supports(#[trigger] ranges@[j], *requested)
                <==> (ranges@[j].channels == requested.channels
                && ranges@[j].sample_format == requested.sample_format
                && ranges@[j].min_sample_rate <= requested.sample_rate
                && requested.sample_rate <= ranges@[j].max_sample_rate) by {
                lemma_range_supports_law(ranges@[j], *requested);
            }
        }
        while i < ranges.len()
            invariant
                i <= ranges@.len(),
                forall|j: int| 0 <= j < i ==> !range_supports(#[trigger] ranges@[j], *requested),
            decreases ranges@.len() - i,
        {
            let c = ranges[i];
            if requested.sample_rate >= c.min_sample_rate && requested.sample_rate
                <= c.max_sample_rate && requested.channels == c.channels
                && requested.sample_format == c.sample_format {
                return Some(*requested);
            }
            i = i + 1;
        }
        None
    }

    /// The entry shown for one listed range.
    fn config_entry_string(c: &ListedConfig, default: &Option<StreamConfig>) -> (s: String)
        ensures
            s@ == config_entry(*c, *default),
            s@ == seq!['"'] + decimal(c.range.channels as nat) + seq!['x'] + rate_text(*c) + seq!['x']
                + format_name(c.range.sample_format) + seq!['"'] + if (match *default {
                Some(d) => d.channels == c.range.channels && d.sample_format
                    == c.range.sample_format && c.range.min_sample_rate <= d.sample_rate
                    && d.sample_rate <= c.range.max_sample_rate,
                None => false,
            }) {
                " (default)"@
            } else {
                Seq::<char>::empty()
            },
    {
        proof {
            lemma_default_marker_law(*c, *default);
        }
        let mut s = String::new();
        push_char(&mut s, '"');
        push_decimal(&mut s, c.range.channels as u64);
        push_char(&mut s, 'x');
        if c.range.min_sample_rate == c.range.max_sample_rate {
            push_str(&mut s, c.max_khz.as_str());
        } else {
            push_str(&mut s, c.min_khz.as_str());
            push_char(&mut s, '-');
            push_str(&mut s, c.max_khz.as_str());
        }
        push_char(&mut s, 'x');
        let name = c.range.sample_format.name();
        push_str(&mut s, name.as_str());
        push_char(&mut s, '"');
        let is_default = match default {
            Some(d) => d.channels == c.range.channels && d.sample_rate >= c.range.min_sample_rate
                && d.sample_rate <= c.range.max_sample_rate && d.sample_format
                == c.range.sample_format,
            None => false,
        };
        if is_default {
            push_str(&mut s, " (default)");
        }
        assert(s@ =~= config_entry(*c, *default));
        s
    }

    /// The entries shown for the ranges `cs`, joined, or `none`.
    fn entries_string(cs: &Vec<ListedConfig>, default: &Option<StreamConfig>, input: bool) -> (s: String)
        ensures
            s@ == entries_text(config_entries(cs@, *default, input)),
    {
        let mut entries: Vec<String> = Vec::new();
        let mut k: usize = 0;
        while k < cs.len()
            invariant
                k <= cs@.len(),
                entries.deep_view() == config_entries(cs@.take(k as int), *default, input),
            decreases cs@.len() - k,
        {
            let c = &cs[k];
            let shown = if input {
                (c.range.channels == 1 || c.range.channels == 2) && (c.range.sample_format
                    == SampleFormat::F32 || c.range.sample_format == SampleFormat::I32)
            } else {
                c.range.channels == 2 && (c.range.sample_format == SampleFormat::F32
                    || c.range.sample_format == SampleFormat::I32)
            };
            assert(cs@.take(k + 1).drop_last() =~= cs@.take(k as int));
            assert(cs@.take(k + 1).last() == cs@[k as int]);
            if shown {
                let e = Self::config_entry_string(c, default);
                let ghost before = entries.deep_view();
                entries.push(e);
                assert(entries.deep_view() =~= before.push(e@));
            }
            k = k + 1;
        }
        assert(cs@.take(cs@.len() as int) =~= cs@);
        if entries.len() == 0 {
            string_of("none")
        } else {
            join_strings(&entries, ", ")
        }
    }

    /// The lines that describe the `i`th device of a host.
    fn device_block_string(h: &HostListing, unique: &Vec<String>, i: usize) -> (s: String)
        requires
            i < h.devices@.len(),
            unique.deep_view() == unique_names(h.device_names.deep_view()),
            listing_complete(*h),
        ensures
            s@ == device_block(*h, i as int),
    {
        let d = &h.devices[i];
        assert(unique.deep_view().len() == unique@.len());
        assert(h.device_names.deep_view().len() == h.device_names@.len());
        let name = &unique[i];
        assert(unique.deep_view()[i as int] == name@);
        let mut s = string_of("  Device \"");
        push_str(&mut s, name.as_str());
        push_char(&mut s, '"');
        if *name == h.default_input_device {
            push_str(&mut s, " (default input)");
        }
        if *name == h.default_output_device {
            push_str(&mut s, " (default output)");
        }
        push_char(&mut s, '\n');
        push_str(&mut s, "    Input ");
        let input = Self::entries_string(&d.input_configs, &d.default_input, true);
        push_str(&mut s, input.as_str());
        push_char(&mut s, '\n');
        push_str(&mut s, "    Output ");
        let output = Self::entries_string(&d.output_configs, &d.default_output, false);
        push_str(&mut s, output.as_str());
        push_char(&mut s, '\n');
        assert(s@ =~= device_block(*h, i as int));
        s
    }

    /// The description of the audio hosts: for each host its name, and for
    /// each of its devices the unique name, whether it is the default input
    /// or output device, and the configurations it offers for input (mono or
    /// stereo) and output (stereo), in `f32` or `i32`.
    pub fn device_list_text(hosts: &Vec<HostListing>) -> (s: String)
        requires
            forall|i: int| 0 <= i < hosts@.len() ==> listing_complete(#[trigger] hosts@[i]),
        ensures
            s@ == hosts_text(hosts@),
    {
        let mut s = String::new();
        let mut i: usize = 0;
        while i < hosts.len()
            invariant
                i <= hosts@.len(),
                forall|k: int| 0 <= k < hosts@.len() ==> listing_complete(#[trigger] hosts@[k]),
                s@ == hosts_text(hosts@.take(i as int)),
            decreases hosts@.len() - i,
        {
            let h = &hosts[i];
            assert(listing_complete(hosts@[i as int]));
            let ghost base = s@;
            push_str(&mut s, "Host \"");
            push_str(&mut s, h.name.as_str());
            push_char(&mut s, '"');
            push_char(&mut s, '\n');
            let unique = Self::make_strings_unique(h.device_names.clone());
            let mut j: usize = 0;
            assert(s@ =~= base + ("Host \""@ + h.name@ + seq!['"', '\n']) + device_blocks(*h, 0));
            while j < h.devices.len()
                invariant
                    j <= h.devices@.len(),
                    listing_complete(*h),
                    unique.deep_view() == unique_names(h.device_names.deep_view()),
                    s@ =~= base + ("Host \""@ + h.name@ + seq!['"', '\n']) + device_blocks(*h, j as int),
                decreases h.devices@.len() - j,
            {
                let block = Self::device_block_string(h, &unique, j);
                push_str(&mut s, block.as_str());
                j = j + 1;
            }
            assert(hosts@.take(i + 1).drop_last() =~= hosts@.take(i as int));
            assert(hosts@.take(i + 1).last() == hosts@[i as int]);
            assert(s@ =~= hosts_text(hosts@.take(i as int)) + host_block(*h));
            i = i + 1;
        }
        assert(hosts@.take(hosts@.len() as int) =~= hosts@);
        s
    }

    /// How many of the first `n` strings equal the `at`th.
    fn count_equal(strings: &Vec<String>, at: usize, n: usize) -> (c: usize)
        requires
            at < strings@.len(),
            n <= strings@.len(),
        ensures
            c == count_in(strings.deep_view(), strings.deep_view()[at as int], n as int),
            c <= n,
    {
        let ghost names = strings.deep_view();
        let mut c: usize = 0;
        let mut j: usize = 0;
        while j < n
            invariant
                j <= n <= strings@.len(),
                at < strings@.len(),
                names == strings.deep_view(),
                c == count_in(names, names[at as int], j as int),
                c <= j,
            decreases n - j,
        {
            assert(names[j as int] == strings@[j as int]@);
            assert(names[at as int] == strings@[at as int]@);
            if strings[j] == strings[at] {
                c = c + 1;
            }
            j = j + 1;
        }
        c
    }

    /// The position of the host named `host_name` among `host_names`.
    pub fn host_position(host_names: &Vec<String>, host_name: &str) -> (r: Option<usize>)
        ensures
            match r {
                Some(i) => i < host_names@.len() && host_names@[i as int]@ == host_name@
                    && forall|j: int| 0 <= j < i ==> host_names@[j]@ != host_name@,
                None => forall|j: int| 0 <= j < host_names@.len() ==> host_names@[j]@ != host_name@,
            },
    {
        position_of(host_names, host_name)
    }

    /// The position of the device called `device_name`, where device names
    /// are told apart as `make_strings_unique` does.
    pub fn device_position(device_names: Vec<String>, device_name: &str) -> (r: Option<usize>)
        ensures
            ({
                let u = unique_names(device_names.deep_view());
                match r {
                    Some(i) => i < u.len() && u[i as int] == device_name@ && forall|j: int|
                        0 <= j < i ==> u[j] != device_name@,
                    None => forall|j: int| 0 <= j < u.len() ==> u[j] != device_name@,
                }
            }),
    {
        let unique = Self::make_strings_unique(device_names);
        let r = position_of(&unique, device_name);
        proof {
            let u = unique_names(device_names.deep_view());
            assert(unique.deep_view() == u);
            assert forall|j: int| 0 <= j < u.len() implies u[j] == unique@[j]@ by {
                assert(unique.deep_view()[j] == unique@[j]@);
            }
        }
        r
    }
}

/// Counting over a longer prefix never counts fewer.
proof fn lemma_count_monotone(names: Seq<Seq<char>>, x: Seq<char>, a: int, b: int)
    requires
        a <= b,
    ensures
        count_in(names, x, a) <= count_in(names, x, b),
    decreases b - a,
{
    if a < b {
        lemma_count_monotone(names, x, a, b - 1);
    }
}

/// A later occurrence of a name is counted after an earlier one.
proof fn lemma_count_increases(names: Seq<Seq<char>>, i: int, j: int)
    requires
        0 <= i < j < names.len(),
        names[i] == names[j],
    ensures
        count_in(names, names[i], i + 1) < count_in(names, names[i], j + 1),
{
    lemma_count_monotone(names, names[i], i + 1, j);
}

/// Two texts that agree after a common length of prefix, and whose
/// prefixes of that length agree, are told apart by what follows.
proof fn lemma_suffix_differs(a: Seq<char>, b: Seq<char>, p: Seq<char>, q: Seq<char>)
    requires
        a + p == b + q,
        a.len() == b.len(),
    ensures
        p == q,
        a == b,
{
    assert((a + p).skip(a.len() as int) =~= p);
    assert((b + q).skip(b.len() as int) =~= q);
    assert((a + p).take(a.len() as int) =~= a);
    assert((b + q).take(b.len() as int) =~= b);
}

/// Occurrences of one name are told apart: where two positions hold the
/// same name, their unique names differ.
pub proof fn lemma_repeated_names_distinct(names: Seq<Seq<char>>, i: int, j: int)
    requires
        0 <= i < names.len(),
        0 <= j < names.len(),
        i != j,
        names[i] == names[j],
    ensures
        unique_names(names)[i] != unique_names(names)[j],
{
    let (a, b) = if i < j {
        (i, j)
    } else {
        (j, i)
    };
    lemma_count_increases(names, a, b);
    lemma_count_monotone(names, names[a], b + 1, names.len() as int);
    lemma_count_monotone(names, names[a], 0, a);
    assert(count_in(names, names[a], names.len() as int) > 1);
    let ca = count_in(names, names[a], a + 1);
    let cb = count_in(names, names[a], b + 1);
    if unique_name(names, a) == unique_name(names, b) {
        lemma_suffix_differs(names[a] + seq![' ', '#'], names[b] + seq![' ', '#'], decimal(ca), decimal(cb));
        lemma_decimal_injective(ca, cb);
    }
}

/// Where no name holds a `#`, the unique names are all different: a device
/// named by its unique name is found at one position only.
pub proof fn lemma_unique_names_distinct(names: Seq<Seq<char>>, i: int, j: int)
    requires
        free_of_hash(names),
        0 <= i < names.len(),
        0 <= j < names.len(),
        i != j,
    ensures
        unique_names(names)[i] != unique_names(names)[j],
{
    if names[i] == names[j] {
        lemma_repeated_names_distinct(names, i, j);
    } else {
        let ui = unique_name(names, i);
        let uj = unique_name(names, j);
        if ui == uj {
            let si = names[i];
            let sj = names[j];
            let li = si.len() as int;
            let lj = sj.len() as int;
            let suffixed_i = count_in(names, si, names.len() as int) > 1;
            let suffixed_j = count_in(names, sj, names.len() as int) > 1;
            let di = decimal(count_in(names, si, i + 1));
            let dj = decimal(count_in(names, sj, j + 1));
            lemma_decimal_digits(count_in(names, si, i + 1));
            lemma_decimal_digits(count_in(names, sj, j + 1));
            if suffixed_i && !suffixed_j {
                // `ui` holds a `#` where `sj` holds none.
                assert(ui[li + 1] == '#');
                assert(sj[li + 1] == names[j][li + 1]);
            } else if !suffixed_i && suffixed_j {
                assert(uj[lj + 1] == '#');
                assert(si[lj + 1] == names[i][lj + 1]);
            } else if suffixed_i && suffixed_j {
                // The only `#` of each follows its name and a space.
                if li < lj {
                    assert(ui[li + 1] == '#');
                    if li + 1 < lj {
                        assert(uj[li + 1] == names[j][li + 1]);
                    } else {
                        assert(uj[li + 1] == ' ');
                    }
                } else if lj < li {
                    assert(uj[lj + 1] == '#');
                    if lj + 1 < li {
                        assert(ui[lj + 1] == names[i][lj + 1]);
                    } else {
                        assert(ui[lj + 1] == ' ');
                    }
                } else {
                    assert(si + seq![' ', '#'] + di =~= si + (seq![' ', '#'] + di));
                    assert(sj + seq![' ', '#'] + dj =~= sj + (seq![' ', '#'] + dj));
                    lemma_suffix_differs(si, sj, seq![' ', '#'] + di, seq![' ', '#'] + dj);
                }
            }
        }
    }
}

} // verus!
