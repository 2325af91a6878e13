//! Command-line settings: the logging categories, the interval rules and
//! the parser for the comma-separated `key=value` settings list.

use vstd::prelude::*;

use crate::text::{
    digits_value, is_blank, is_space_char, parse_u64, parse_uint_ok, spec_split, split,
    strip_plus, trim, trim_back_spec, trim_front_spec, trim_spec,
};

verus! {

/// A service whose output can be logged periodically.
#[derive(Clone, Copy, Debug, Hash, PartialEq, Eq, Structural)]
pub enum LogSetting {
    Netstat,
    Platform,
    SerialPorts,
    SystemCpu,
    SystemDisk,
    SystemInfo,
    SystemMemory,
    SystemNetwork,
    SystemProcess,
    SystemTemperature,
    SystemUnixTimeSeconds,
}

/// The kebab-case name of each logging category, as it appears on the
/// command line.
pub open spec fn kebab_name(k: LogSetting) -> Seq<char> {
    match k {
        LogSetting::Netstat => "netstat"@,
        LogSetting::Platform => "platform"@,
        LogSetting::SerialPorts => "serial-ports"@,
        LogSetting::SystemCpu => "system-cpu"@,
        LogSetting::SystemDisk => "system-disk"@,
        LogSetting::SystemInfo => "system-info"@,
        LogSetting::SystemMemory => "system-memory"@,
        LogSetting::SystemNetwork => "system-network"@,
        LogSetting::SystemProcess => "system-process"@,
        LogSetting::SystemTemperature => "system-temperature"@,
        LogSetting::SystemUnixTimeSeconds => "system-unix-time-seconds"@,
    }
}

impl LogSetting {
    /// The kebab-case name of this category.
    pub fn name(&self) -> (r: String)
        ensures
            r@ == kebab_name(*self),
    {
        match self {
            LogSetting::Netstat => "netstat".to_owned(),
            LogSetting::Platform => "platform".to_owned(),
            LogSetting::SerialPorts => "serial-ports".to_owned(),
            LogSetting::SystemCpu => "system-cpu".to_owned(),
            LogSetting::SystemDisk => "system-disk".to_owned(),
            LogSetting::SystemInfo => "system-info".to_owned(),
            LogSetting::SystemMemory => "system-memory".to_owned(),
            LogSetting::SystemNetwork => "system-network".to_owned(),
            LogSetting::SystemProcess => "system-process".to_owned(),
            LogSetting::SystemTemperature => "system-temperature".to_owned(),
            LogSetting::SystemUnixTimeSeconds => "system-unix-time-seconds".to_owned(),
        }
    }
}

/// The category whose kebab-case name is `s`, if any.
pub open spec fn setting_from_name(s: Seq<char>) -> Option<LogSetting> {
    if s == kebab_name(LogSetting::Netstat) {
        Some(LogSetting::Netstat)
    } else if s == kebab_name(LogSetting::Platform) {
        Some(LogSetting::Platform)
    } else if s == kebab_name(LogSetting::SerialPorts) {
        Some(LogSetting::SerialPorts)
    } else if s == kebab_name(LogSetting::SystemCpu) {
        Some(LogSetting::SystemCpu)
    } else if s == kebab_name(LogSetting::SystemDisk) {
        Some(LogSetting::SystemDisk)
    } else if s == kebab_name(LogSetting::SystemInfo) {
        Some(LogSetting::SystemInfo)
    } else if s == kebab_name(LogSetting::SystemMemory) {
        Some(LogSetting::SystemMemory)
    } else if s == kebab_name(LogSetting::SystemNetwork) {
        Some(LogSetting::SystemNetwork)
    } else if s == kebab_name(LogSetting::SystemProcess) {
        Some(LogSetting::SystemProcess)
    } else if s == kebab_name(LogSetting::SystemTemperature) {
        Some(LogSetting::SystemTemperature)
    } else if s == kebab_name(LogSetting::SystemUnixTimeSeconds) {
        Some(LogSetting::SystemUnixTimeSeconds)
    } else {
        None
    }
}

/// Whether `s` equals the literal `lit`, character for character.
fn str_matches(s: &String, lit: &str) -> (r: bool)
    ensures
        r == (s@ == lit@),
{
    s.eq(&lit.to_owned())
}

/// Parses one settings key into its logging category.
pub fn parse_log_setting_key(s: &String) -> (r: Option<LogSetting>)
    ensures
        r == setting_from_name(s@),
{
    if str_matches(s, "netstat") {
        Some(LogSetting::Netstat)
    } else if str_matches(s, "platform") {
        Some(LogSetting::Platform)
    } else if str_matches(s, "serial-ports") {
        Some(LogSetting::SerialPorts)
    } else if str_matches(s, "system-cpu") {
        Some(LogSetting::SystemCpu)
    } else if str_matches(s, "system-disk") {
        Some(LogSetting::SystemDisk)
    } else if str_matches(s, "system-info") {
        Some(LogSetting::SystemInfo)
    } else if str_matches(s, "system-memory") {
        Some(LogSetting::SystemMemory)
    } else if str_matches(s, "system-network") {
        Some(LogSetting::SystemNetwork)
    } else if str_matches(s, "system-process") {
        Some(LogSetting::SystemProcess)
    } else if str_matches(s, "system-temperature") {
        Some(LogSetting::SystemTemperature)
    } else if str_matches(s, "system-unix-time-seconds") {
        Some(LogSetting::SystemUnixTimeSeconds)
    } else {
        None
    }
}

/// The service's command-line arguments, with their parsed settings.
pub struct Arguments {
    /// Activate debug/verbose mode.
    pub verbose: bool,
    /// Where the log files are stored.
    pub log_path: String,
    /// Port of the REST API server.
    pub port: u16,
    /// Logging intervals per category, in seconds.
    pub log_settings: Vec<(LogSetting, u64)>,
}

impl Default for Arguments {
    /// The defaults the command line starts from: quiet, logs under
    /// `./logs`, port 6030, nothing logged periodically.
    fn default() -> (r: Arguments)
        ensures
            r.verbose == false,
            r.log_path@ == "./logs"@,
            r.port == 6030,
            r.log_settings@ == Seq::<(LogSetting, u64)>::empty(),
    {
        Arguments {
            verbose: false,
            log_path: "./logs".to_owned(),
            port: 6030,
            log_settings: Vec::new(),
        }
    }
}

/// Why a settings list was rejected.
#[derive(Clone, Copy, Debug, PartialEq, Eq, Structural)]
pub enum SettingsError {
    /// A piece of the comma-separated list holds no `=`.
    InvalidFormat,
    /// The key before the `=` names no logging category.
    UnknownKey,
    /// The value after the `=` is no unsigned integer.
    InvalidValue,
    /// The interval is below the category's minimum.
    IntervalTooSmall(LogSetting),
}

/// The smallest interval, in seconds, at which each category may be logged.
pub open spec fn min_interval(k: LogSetting) -> u64 {
    match k {
        LogSetting::SystemUnixTimeSeconds => 1,
        LogSetting::SystemTemperature => 5,
        LogSetting::Platform => 5,
        LogSetting::SystemProcess => 10,
        LogSetting::Netstat => 10,
        LogSetting::SerialPorts => 10,
        LogSetting::SystemCpu => 10,
        LogSetting::SystemMemory => 10,
        LogSetting::SystemNetwork => 10,
        LogSetting::SystemDisk => 30,
        LogSetting::SystemInfo => 0,
    }
}

/// Rejects an interval below the category's minimum: at least 1 second for
/// the unix-time category, 5 for temperature and platform, 10 for processes,
/// netstat, serial ports, cpu, memory and network, and 30 for disks.
pub fn validate_interval(key: &LogSetting, val: u64) -> (r: Result<(), SettingsError>)
    ensures
        r is Ok <==> val >= min_interval(*key),
        r is Err ==> r == Result::<(), SettingsError>::Err(SettingsError::IntervalTooSmall(*key)),
{
    let min: u64 = match key {
        LogSetting::SystemUnixTimeSeconds => 1,
        LogSetting::SystemTemperature | LogSetting::Platform => 5,
        LogSetting::SystemProcess | LogSetting::Netstat | LogSetting::SerialPorts
            | LogSetting::SystemCpu | LogSetting::SystemMemory | LogSetting::SystemNetwork => 10,
        LogSetting::SystemDisk => 30,
        LogSetting::SystemInfo => 0,
    };
    if val < min {
        Err(SettingsError::IntervalTooSmall(*key))
    } else {
        Ok(())
    }
}

/// `pairs` with the value of `k` set to `v`: the first pair carrying `k` is
/// replaced, or a new pair is appended, as a map insert behaves.
pub open spec fn upsert(pairs: Seq<(LogSetting, u64)>, k: LogSetting, v: u64) -> Seq<
    (LogSetting, u64),
>
    decreases pairs.len(),
{
    if pairs.len() == 0 {
        seq![(k, v)]
    } else if pairs.first().0 == k {
        seq![(k, v)] + pairs.drop_first()
    } else {
        seq![pairs.first()] + upsert(pairs.drop_first(), k, v)
    }
}

/// The meaning of the remaining pieces of a settings list, given the pairs
/// accumulated so far: each piece must be `key=value` (text after a second
/// `=` is ignored) with a known key and a valid interval; a repeated key
/// overwrites its earlier value. The first offending piece decides the
/// error.
pub open spec fn parse_pieces(
    pieces: Seq<Seq<char>>,
    acc: Seq<(LogSetting, u64)>,
) -> Result<Seq<(LogSetting, u64)>, SettingsError>
    decreases pieces.len(),
{
    if pieces.len() == 0 {
        Ok(acc)
    } else {
        let kv = spec_split(pieces.first(), '=');
        if kv.len() < 2 {
            Err(SettingsError::InvalidFormat)
        } else {
            match setting_from_name(kv[0]) {
                None => Err(SettingsError::UnknownKey),
                Some(key) => {
                    if !parse_uint_ok(kv[1], 10) {
                        Err(SettingsError::InvalidValue)
                    } else {
                        let v = digits_value(strip_plus(kv[1]), 10) as u64;
                        if v < min_interval(key) {
                            Err(SettingsError::IntervalTooSmall(key))
                        } else {
                            parse_pieces(pieces.drop_first(), upsert(acc, key, v))
                        }
                    }
                },
            }
        }
    }
}

/// The meaning of a whole settings list: a blank list is empty; otherwise
/// the list is split on commas and each piece parsed in turn.
pub open spec fn parse_log_settings_spec(s: Seq<char>) -> Result<
    Seq<(LogSetting, u64)>,
    SettingsError,
> {
    if is_blank(s) {
        Ok(Seq::empty())
    } else {
        parse_pieces(spec_split(s, ','), Seq::empty())
    }
}

/// Sets `k` to `v` among the accumulated pairs, overwriting the earlier
/// value of a repeated key.
#[verifier::loop_isolation(false)]
fn upsert_pair(pairs: &mut Vec<(LogSetting, u64)>, k: LogSetting, v: u64)
    ensures
        final(pairs)@ == upsert(old(pairs)@, k, v),
{
    let n = pairs.len();
    let mut i: usize = 0;
    proof {
        assert(old(pairs)@.skip(0) =~= old(pairs)@);
        assert(old(pairs)@.take(0) + upsert(old(pairs)@, k, v) =~= upsert(old(pairs)@, k, v));
    }
    while i < n
        invariant
            i <= n,
            n == pairs@.len(),
            pairs@ == old(pairs)@,
            upsert(old(pairs)@, k, v) =~= old(pairs)@.take(i as int) + upsert(
                old(pairs)@.skip(i as int),
                k,
                v,
            ),
        decreases n - i,
    {
        proof {
            assert(old(pairs)@.skip(i as int).first() == old(pairs)@[i as int]);
            assert(old(pairs)@.skip(i as int).drop_first() =~= old(pairs)@.skip(i + 1));
        }
        if pairs[i].0 == k {
            pairs.remove(i);
            pairs.insert(i, (k, v));
            proof {
                assert(upsert(old(pairs)@.skip(i as int), k, v) =~= seq![(k, v)] + old(
                    pairs,
                )@.skip(i + 1));
                assert(pairs@ =~= old(pairs)@.take(i as int) + (seq![(k, v)] + old(pairs)@.skip(
                    i + 1,
                )));
            }
            return ;
        }
        proof {
            assert(old(pairs)@.take(i + 1) =~= old(pairs)@.take(i as int) + seq![old(
                pairs,
            )@[i as int]]);
            assert(upsert(old(pairs)@.skip(i as int), k, v) =~= seq![old(pairs)@[i as int]]
                + upsert(old(pairs)@.skip(i + 1), k, v));
            assert(old(pairs)@.take(i as int) + upsert(old(pairs)@.skip(i as int), k, v)
                =~= old(pairs)@.take(i + 1) + upsert(old(pairs)@.skip(i + 1), k, v));
        }
        i += 1;
    }
    proof {
        assert(old(pairs)@.skip(n as int) =~= Seq::<(LogSetting, u64)>::empty());
        assert(upsert(Seq::empty(), k, v) == seq![(k, v)]);
    }
    pairs.push((k, v));
    proof {
        assert(pairs@ =~= old(pairs)@.take(n as int) + seq![(k, v)]);
    }
}

/// Parses a comma-separated list of `key=value` logging settings, as the
/// command line carries it: a blank list is empty; every piece must name a
/// known category and an unsigned interval no smaller than the category's
/// minimum; a repeated key overwrites its earlier value; the first offending
/// piece decides the error.
#[verifier::loop_isolation(false)]
pub fn parse_log_settings(s: &str) -> (r: Result<Vec<(LogSetting, u64)>, SettingsError>)
    ensures
        match r {
            Ok(pairs) => parse_log_settings_spec(s@) == Ok::<_, SettingsError>(pairs@),
            Err(e) => parse_log_settings_spec(s@) == Err::<Seq<(LogSetting, u64)>, _>(e),
        },
{
    let cleaned = trim(s);
    if cleaned.as_str().is_empty() {
        proof {
            lemma_trim_blank(s@);
        }
        return Ok(Vec::new());
    }
    proof {
        lemma_blank_trim(s@);
    }
    let pieces = split(s, ',');
    let ghost all_pieces = spec_split(s@, ',');
    let n = pieces.len();
    let mut acc: Vec<(LogSetting, u64)> = Vec::new();
    let mut i: usize = 0;
    proof {
        assert(all_pieces.skip(0) =~= all_pieces);
        assert(acc@ =~= Seq::<(LogSetting, u64)>::empty());
    }
    while i < n
        invariant
            i <= n,
            n == all_pieces.len(),
            pieces.deep_view() == all_pieces,
            parse_pieces(all_pieces, Seq::empty()) == parse_pieces(
                all_pieces.skip(i as int),
                acc@,
            ),
        decreases n - i,
    {
        proof {
            assert(all_pieces.skip(i as int).first() == all_pieces[i as int]);
            assert(all_pieces.skip(i as int).drop_first() =~= all_pieces.skip(i + 1));
            assert(pieces@[i as int]@ == all_pieces[i as int]);
        }
        let kv = split(pieces[i].as_str(), '=');
        proof {
            assert(kv.deep_view() == spec_split(all_pieces[i as int], '='));
        }
        if kv.len() < 2 {
            return Err(SettingsError::InvalidFormat);
        }
        proof {
            assert(kv@[0]@ == kv.deep_view()[0]);
            assert(kv@[1]@ == kv.deep_view()[1]);
        }
        let key = match parse_log_setting_key(&kv[0]) {
            Some(key) => key,
            None => {
                return Err(SettingsError::UnknownKey);
            },
        };
        let val = match parse_u64(kv[1].as_str()) {
            Some(val) => val,
            None => {
                return Err(SettingsError::InvalidValue);
            },
        };
        match validate_interval(&key, val) {
            Ok(()) => (),
            Err(e) => {
                return Err(e);
            },
        }
        upsert_pair(&mut acc, key, val);
        i += 1;
    }
    proof {
        assert(all_pieces.skip(n as int) =~= Seq::<Seq<char>>::empty());
    }
    Ok(acc)
}

/// A string whose trimmed form is empty is blank.
proof fn lemma_trim_blank(s: Seq<char>)
    requires
        trim_spec(s).len() == 0,
    ensures
        is_blank(s),
{
    lemma_trim_front_blank(s);
}

/// A string whose whole trim is empty holds nothing but whitespace.
proof fn lemma_trim_front_blank(s: Seq<char>)
    requires
        trim_back_spec_len0(s),
    ensures
        is_blank(s),
    decreases s.len(),
{
    if s.len() > 0 {
        if is_space_char(s[0]) {
            lemma_trim_front_blank(s.skip(1));
            assert forall|i: int| 0 <= i < s.len() implies is_space_char(#[trigger] s[i]) by {
                if i > 0 {
                    assert(s.skip(1)[i - 1] == s[i]);
                }
            }
        } else {
            lemma_trim_back_keeps_first(s);
        }
    }
}

/// Shorthand: the whole trim of `s` is empty.
spec fn trim_back_spec_len0(s: Seq<char>) -> bool {
    trim_spec(s).len() == 0
}

/// Back-trimming never removes a leading non-whitespace character, so a
/// string that starts with one never trims to nothing.
proof fn lemma_trim_back_keeps_first(s: Seq<char>)
    requires
        s.len() > 0,
        !is_space_char(s[0]),
    ensures
        trim_spec(s).len() > 0,
    decreases s.len(),
{
    assert(trim_front_spec(s) == s);
    lemma_trim_back_nonempty(s);
}

/// Back-trimming a string with a non-whitespace head keeps at least that
/// head.
proof fn lemma_trim_back_nonempty(s: Seq<char>)
    requires
        s.len() > 0,
        !is_space_char(s[0]),
    ensures
        trim_back_spec(s).len() > 0,
    decreases s.len(),
{
    if is_space_char(s.last()) {
        assert(s.drop_last()[0] == s[0]);
        lemma_trim_back_nonempty(s.drop_last());
    }
}

/// A blank string trims to nothing.
proof fn lemma_blank_trim(s: Seq<char>)
    ensures
        is_blank(s) ==> trim_spec(s).len() == 0,
    decreases s.len(),
{
    if is_blank(s) && s.len() > 0 {
        assert(is_space_char(s[0]));
        let t = s.skip(1);
        assert forall|i: int| 0 <= i < t.len() implies is_space_char(#[trigger] t[i]) by {
            assert(t[i] == s[i + 1]);
        }
        lemma_blank_trim(t);
        assert(trim_front_spec(s) == trim_front_spec(t));
    }
}

} // verus!