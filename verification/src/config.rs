//! Run configuration: defaults of the sections that hold no physical
//! quantities. The sections with thresholds in volts, amperes or hertz are
//! read by the application.
use vstd::prelude::*;
use vstd::string::*;

verus! {

/// One signal index to TCP logger channel assignment beyond the standard map.
#[derive(Debug, Clone, Copy, PartialEq, Eq, Structural)]
pub struct TcpChannelMapping {
    pub nanonis_index: u8,
    pub tcp_channel: u8,
}

/// Where the controller is. The workbench connects through its own
/// Connection page and ignores this section.
#[derive(Debug)]
pub struct NanonisConfig {
    pub host_ip: String,
    /// Command ports; the first one is used.
    pub control_ports: Vec<u16>,
    /// Nanonis layout file, loaded on connect.
    pub layout_file: Option<String>,
    /// Nanonis settings file, loaded on connect.
    pub settings_file: Option<String>,
}

impl Default for NanonisConfig {
    fn default() -> (r: Self)
        ensures
            r.host_ip@ == "127.0.0.1"@,
            r.control_ports@ == seq![6501u16, 6502u16, 6503u16, 6504u16],
            r.layout_file is None,
            r.settings_file is None,
    {
        let mut control_ports: Vec<u16> = Vec::new();
        control_ports.push(6501);
        control_ports.push(6502);
        control_ports.push(6503);
        control_ports.push(6504);
        proof {
            assert(control_ports@ =~= seq![6501u16, 6502u16, 6503u16, 6504u16]);
        }
        Self {
            host_ip: String::from_str("127.0.0.1"),
            control_ports,
            layout_file: None,
            settings_file: None,
        }
    }
}

/// Number of TCP stream samples averaged for a stable signal read.
pub fn default_stable_signal_samples() -> (r: usize)
    ensures
        r == 100,
{
    100
}

/// How the signal stream is acquired.
#[derive(Debug, Clone, Copy)]
pub struct DataAcquisitionConfig {
    /// TCP logger data port.
    pub data_port: u16,
    /// Stream rate to ask the TCP logger for, in Hz.
    pub sample_rate: u32,
    /// Number of TCP stream samples to average for a stable signal read.
    pub stable_signal_samples: usize,
}

impl Default for DataAcquisitionConfig {
    fn default() -> (r: Self)
        ensures
            r.data_port == 6590,
            r.sample_rate == 1000,
            r.stable_signal_samples == 100,
    {
        Self { data_port: 6590, sample_rate: 1000, stable_signal_samples: default_stable_signal_samples() }
    }
}

/// The JSONL run log.
#[derive(Debug)]
pub struct ExperimentLoggingConfig {
    pub enabled: bool,
    pub output_path: String,
}

impl Default for ExperimentLoggingConfig {
    fn default() -> (r: Self)
        ensures
            r.enabled,
            r.output_path@ == "./experiments"@,
    {
        Self { enabled: true, output_path: String::from_str("./experiments") }
    }
}

#[derive(Debug)]
pub struct ConsoleConfig {
    /// trace, debug, info, warn or error.
    pub verbosity: String,
}

impl Default for ConsoleConfig {
    fn default() -> (r: Self)
        ensures
            r.verbosity@ == "info"@,
    {
        Self { verbosity: String::from_str("info") }
    }
}

/// Budget for an approach from a few coarse steps off the surface, in ms:
/// the five minutes the controller interface gives an auto-approach.
pub const DEFAULT_APPROACH_TIMEOUT_MS: u64 = 300_000;

pub fn default_pulse_width_ms() -> (r: u64)
    ensures
        r == 50,
{
    50
}

pub fn default_post_approach_settle_ms() -> (r: u64)
    ensures
        r == 2000,
{
    2000
}

pub fn default_post_reposition_settle_ms() -> (r: u64)
    ensures
        r == 1000,
{
    1000
}

pub fn default_post_move_settle_ms() -> (r: u64)
    ensures
        r == 500,
{
    500
}

pub fn default_buffer_clear_wait_ms() -> (r: u64)
    ensures
        r == 500,
{
    500
}

pub fn default_post_pulse_settle_ms() -> (r: u64)
    ensures
        r == 1000,
{
    1000
}

pub fn default_reposition_steps() -> (r: [i16; 2])
    ensures
        r@ == seq![3i16, 3i16],
{
    let r = [3i16, 3i16];
    proof {
        assert(r@ =~= seq![3i16, 3i16]);
    }
    r
}

pub fn default_status_interval() -> (r: usize)
    ensures
        r == 10,
{
    10
}

/// Approaches that start from a full withdraw get ten minutes.
pub fn default_approach_timeout_ms() -> (r: u64)
    ensures
        r == 600_000,
{
    600_000
}

/// A reposition retracts three coarse steps, so its approach is short.
pub fn default_reposition_approach_timeout_ms() -> (r: u64)
    ensures
        r == DEFAULT_APPROACH_TIMEOUT_MS,
{
    DEFAULT_APPROACH_TIMEOUT_MS
}

/// Coarse steps backed off after the final withdraw.
pub fn default_exit_retract_steps() -> (r: u16)
    ensures
        r == 2,
{
    2
}

/// Settle times and step counts, in milliseconds and coarse steps.
#[derive(Debug, Clone, Copy)]
pub struct TimingConfig {
    /// Length of one bias pulse.
    pub pulse_width_ms: u64,
    /// Settle after an approach.
    pub post_approach_settle_ms: u64,
    /// Settle at the end of a reposition.
    pub post_reposition_settle_ms: u64,
    /// Settle time between the motor move and the approach during a
    /// reposition.
    pub post_move_settle_ms: u64,
    /// Wait after clearing the stream buffer before the first read.
    pub buffer_clear_wait_ms: u64,
    /// Settle after a pulse, before the reposition.
    pub post_pulse_settle_ms: u64,
    /// Coarse motor steps in x and y for each reposition.
    pub reposition_steps: [i16; 2],
    /// Log a status line every this many cycles.
    pub status_interval: usize,
    /// Budget for an approach that starts from a full withdraw.
    pub approach_timeout_ms: u64,
    /// Budget for the approach inside a reposition.
    pub reposition_approach_timeout_ms: u64,
    /// Coarse Z steps to back off after the final withdraw. Zero disables
    /// the retract.
    pub exit_retract_steps: u16,
}

impl Default for TimingConfig {
    fn default() -> (r: Self)
        ensures
            r.pulse_width_ms == 50,
            r.post_approach_settle_ms == 2000,
            r.post_reposition_settle_ms == 1000,
            r.post_move_settle_ms == 500,
            r.buffer_clear_wait_ms == 500,
            r.post_pulse_settle_ms == 1000,
            r.reposition_steps@ == seq![3i16, 3i16],
            r.status_interval == 10,
            r.approach_timeout_ms == 600_000,
            r.reposition_approach_timeout_ms == DEFAULT_APPROACH_TIMEOUT_MS,
            r.exit_retract_steps == 2,
    {
        Self {
            pulse_width_ms: default_pulse_width_ms(),
            post_approach_settle_ms: default_post_approach_settle_ms(),
            post_reposition_settle_ms: default_post_reposition_settle_ms(),
            post_move_settle_ms: default_post_move_settle_ms(),
            buffer_clear_wait_ms: default_buffer_clear_wait_ms(),
            post_pulse_settle_ms: default_post_pulse_settle_ms(),
            reposition_steps: default_reposition_steps(),
            status_interval: default_status_interval(),
            approach_timeout_ms: default_approach_timeout_ms(),
            reposition_approach_timeout_ms: default_reposition_approach_timeout_ms(),
            exit_retract_steps: default_exit_retract_steps(),
        }
    }
}

/// Window of one stable read, in ms (kept so older configurations parse).
pub fn default_data_collection_duration_ms() -> (r: u64)
    ensures
        r == 500,
{
    500
}

/// Timeout of one stable read, in s (kept so older configurations parse).
pub fn default_read_timeout_secs() -> (r: u64)
    ensures
        r == 15,
{
    15
}

/// Retries when a stable read is not found.
pub fn default_read_retry_count() -> (r: u32)
    ensures
        r == 3,
{
    3
}

/// Why a timing configuration is refused: `cycle % status_interval` is
/// evaluated every cycle, so the interval must be at least 1.
pub fn validate_status_interval(timing: &TimingConfig) -> (r: Result<(), String>)
    ensures
        timing.status_interval == 0 ==> (r matches Err(m) && m@
            == "tip_prep.timing.status_interval must be at least 1"@),
        timing.status_interval != 0 ==> r is Ok,
{
    if timing.status_interval == 0 {
        return Err(String::from_str("tip_prep.timing.status_interval must be at least 1"));
    }
    Ok(())
}

/// Where the configuration comes from.
#[derive(Debug, Clone, Copy, PartialEq, Eq, Structural)]
pub enum ConfigSource {
    /// The file the caller named.
    Given,
    /// The first of the usual places that holds a file, by its position
    /// among them.
    Found(usize),
    /// No file: the built-in defaults.
    Defaults,
}

/// The first position in `exists` that holds `true`, or -1.
pub open spec fn first_true(exists: Seq<bool>) -> int
    decreases exists.len(),
{
    if exists.len() == 0 {
        -1
    } else if first_true(exists.drop_last()) >= 0 {
        first_true(exists.drop_last())
    } else if exists.last() {
        exists.len() - 1
    } else {
        -1
    }
}

/// Which file to load. A named file is used when it exists, and is an
/// error (`Err(())`) when it does not; with no name, the first of the usual
/// places (`config.toml`, `base_config.toml`, `examples/base_config.toml`)
/// whose file exists, else the defaults. `given` says whether a path was
/// named and whether its file exists; `usual` says, for each usual place,
/// whether its file exists.
pub fn config_source(given: Option<bool>, usual: &[bool]) -> (r: Result<ConfigSource, ()>)
    ensures
        given == Some(true) ==> r == Ok::<ConfigSource, ()>(ConfigSource::Given),
        given == Some(false) ==> r == Err::<ConfigSource, ()>(()),
        given is None && first_true(usual@) >= 0 ==> r == Ok::<ConfigSource, ()>(
            ConfigSource::Found(first_true(usual@) as usize),
        ),
        given is None && first_true(usual@) < 0 ==> r == Ok::<ConfigSource, ()>(
            ConfigSource::Defaults,
        ),
{
    match given {
        Some(true) => Ok(ConfigSource::Given),
        Some(false) => Err(()),
        None => {
            let n = usual.len();
            let mut i: usize = 0;
            proof {
                assert(usual@.take(0) =~= Seq::<bool>::empty());
            }
            while i < n
                invariant
                    given is None,
                    n == usual@.len(),
                    i <= n,
                    first_true(usual@.take(i as int)) < 0,
                decreases n - i,
            {
                proof {
                    assert(usual@.take(i + 1).drop_last() =~= usual@.take(i as int));
                }
                if usual[i] {
                    proof {
                        lemma_first_true_extend(usual@, (i + 1) as nat);
                    }
                    return Ok(ConfigSource::Found(i));
                }
                i = i + 1;
            }
            proof {
                assert(usual@.take(n as int) =~= usual@);
            }
            Ok(ConfigSource::Defaults)
        },
    }
}

proof fn lemma_first_true_extend(s: Seq<bool>, k: nat)
    requires
        k <= s.len(),
        first_true(s.take(k as int)) >= 0,
    ensures
        first_true(s) == first_true(s.take(k as int)),
    decreases s.len() - k,
{
    if k < s.len() {
        assert(s.take(k + 1 as int).drop_last() =~= s.take(k as int));
        lemma_first_true_extend(s, k + 1);
    } else {
        assert(s.take(k as int) =~= s);
    }
}

} // verus!
