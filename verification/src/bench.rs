//! The benchmark: which modes run and with what, what a worker counts, and the
//! records that describe a run.

use crate::chain::{batch_keys, position_after, KeyChain};
use crate::curve::{group_order, CHAIN_BATCH};
use crate::entropy::random_start_scalar;
use crate::hex_text::is_hex_text;
use crate::prefix::{byte_len, count_of_len, shortest_len, shortest_prefixes, PrefixMatcher};
use crate::scalar::{is_clamped, le_value};
use crate::search::{
    all_wf, count_vanity, flushed_keys, flushed_matches, vanity_count, Tally, FLUSH_EVERY,
};
use crate::text::{decimal, decimal_text, join, joined, split_at_byte, texts};
use std::path::PathBuf;
use vstd::prelude::*;
use vstd::utf8::{encode_utf8, is_char_boundary};

verus! {

/// Version of the layout of a record.
pub const SCHEMA_VERSION: u32 = 1;

/// Bytes of a gibibyte.
pub const GIB: u64 = 1073741824;

/// Bytes of a commit hash that are shown.
pub const SHORT_SHA: usize = 12;

/// A path of the file system, opaque here.
#[verifier::external_type_specification]
#[verifier::external_body]
pub struct ExPathBuf(PathBuf);

/// What a user asks of a benchmark.
#[derive(Debug)]
pub struct BenchArgs {
    /// Seconds to run each mode.
    pub duration: u64,
    /// Which mode or modes to run.
    pub mode: BenchMode,
    /// Threads of the modes with more than one.
    pub threads: Option<usize>,
    /// Hex prefixes to count matches against.
    pub prefix: Vec<String>,
    /// File that records are appended to; without one they are printed.
    pub out: Option<PathBuf>,
    /// Label of the machine in each record.
    pub machine_label: Option<String>,
}

/// What a benchmark runs on.
#[derive(Clone, Copy, Debug, PartialEq, Eq, Structural)]
pub enum BenchMode {
    Cpu1,
    CpuN,
    Gpu,
    Hybrid,
    All,
}

/// The commit that a binary was built from, as far as it is known.
pub struct BenchGit {
    pub sha: Option<String>,
    pub dirty: Option<bool>,
    pub branch: Option<String>,
}

/// The machine that a benchmark ran on.
pub struct BenchMachine {
    pub label: Option<String>,
    pub hostname: String,
    pub os: String,
    pub cpu_model: String,
    pub cpu_physical_cores: Option<usize>,
    pub cpu_logical_cores: usize,
    pub memory_gb: u64,
    pub gpus: Vec<String>,
}

/// How a benchmark ran.
pub struct BenchConfig {
    pub mode: &'static str,
    pub threads: usize,
    pub gpus_used: usize,
    pub prefixes: Vec<String>,
    pub duration_secs: u64,
    pub build_features: Vec<&'static str>,
}

/// The modes that a mode stands for.
pub open spec fn expanded(mode: BenchMode) -> Seq<BenchMode> {
    if mode == BenchMode::All {
        seq![BenchMode::Cpu1, BenchMode::CpuN, BenchMode::Gpu, BenchMode::Hybrid]
    } else {
        seq![mode]
    }
}

/// The modes that a mode stands for.
pub fn expand_modes(mode: BenchMode) -> (modes: Vec<BenchMode>)
    ensures
        modes@ == expanded(mode),
{
    match mode {
        BenchMode::All => {
            vec![BenchMode::Cpu1, BenchMode::CpuN, BenchMode::Gpu, BenchMode::Hybrid]
        },
        m => vec![m],
    }
}

/// The name of a mode in a record.
pub open spec fn mode_name(mode: BenchMode) -> Seq<char> {
    match mode {
        BenchMode::Cpu1 => "cpu1"@,
        BenchMode::CpuN => "cpuN"@,
        BenchMode::Gpu => "gpu"@,
        BenchMode::Hybrid => "hybrid"@,
        BenchMode::All => "all"@,
    }
}

/// The name of a mode in a record.
pub fn mode_str(mode: BenchMode) -> (name: &'static str)
    ensures
        name@ == mode_name(mode),
{
    match mode {
        BenchMode::Cpu1 => "cpu1",
        BenchMode::CpuN => "cpuN",
        BenchMode::Gpu => "gpu",
        BenchMode::Hybrid => "hybrid",
        BenchMode::All => "all",
    }
}

/// The contents of some static strings.
pub open spec fn static_texts(strings: Seq<&'static str>) -> Seq<Seq<char>> {
    strings.map_values(|s: &'static str| s@)
}

/// The device backends that a binary was built with, in the order of a record.
pub fn build_features(cuda: bool, metal: bool) -> (features: Vec<&'static str>)
    ensures
        static_texts(features@) == (if cuda {
            seq!["cuda"@]
        } else {
            Seq::empty()
        }) + (if metal {
            seq!["metal"@]
        } else {
            Seq::empty()
        }),
{
    let mut features: Vec<&'static str> = Vec::new();
    if cuda {
        features.push("cuda");
    }
    if metal {
        features.push("metal");
    }
    features
}

/// What a variable of the build says, if it says anything: an empty one and
/// the placeholder of a build without a repository say nothing.
pub open spec fn build_value(v: Option<&'static str>) -> Option<Seq<char>> {
    match v {
        Some(s) => if s@.len() == 0 || s@ == "VERGEN_IDEMPOTENT_OUTPUT"@ {
            None
        } else {
            Some(s@)
        },
        None => None,
    }
}

/// The contents of a string, if there is one.
pub open spec fn text_of(s: Option<String>) -> Option<Seq<char>> {
    match s {
        Some(t) => Some(t@),
        None => None,
    }
}

/// What a variable of the build says, if it says anything.
pub fn vergen_env(v: Option<&'static str>) -> (value: Option<String>)
    ensures
        text_of(value) == build_value(v),
{
    match v {
        Some(s) => {
            let text = String::from_str(s);
            if s.is_empty() || text == String::from_str("VERGEN_IDEMPOTENT_OUTPUT") {
                None
            } else {
                Some(text)
            }
        },
        None => None,
    }
}

/// The commit that the variables of the build speak of.
pub fn gather_git(
    sha: Option<&'static str>,
    dirty: Option<&'static str>,
    branch: Option<&'static str>,
) -> (git: BenchGit)
    ensures
        text_of(git.sha) == build_value(sha),
        git.dirty == match build_value(dirty) {
            Some(text) => Some(text == "true"@),
            None => None,
        },
        text_of(git.branch) == build_value(branch),
{
    let dirty = match vergen_env(dirty) {
        Some(text) => Some(text == String::from_str("true")),
        None => None,
    };
    BenchGit { sha: vergen_env(sha), dirty, branch: vergen_env(branch) }
}

/// Whether a mode runs on a device.
pub open spec fn needs_gpu(mode: BenchMode) -> bool {
    mode == BenchMode::Gpu || mode == BenchMode::Hybrid
}

/// Whether a mode runs on a device.
pub fn uses_gpu(mode: BenchMode) -> (uses: bool)
    ensures
        uses == needs_gpu(mode),
{
    mode == BenchMode::Gpu || mode == BenchMode::Hybrid
}

/// Why a mode cannot run on this build or hardware, if it cannot: it needs a
/// device, and the build has no device backend or the machine no device.
pub open spec fn skip_reason(mode: BenchMode, gpu: bool, devices: nat) -> Option<Seq<char>> {
    if !needs_gpu(mode) {
        None
    } else if !gpu {
        Some("built without gpu feature"@)
    } else if devices == 0 {
        Some("no GPU available"@)
    } else {
        None
    }
}

/// Why a mode cannot run on this build or hardware, if it cannot. `gpu` says
/// whether the build has a device backend, and `devices` how many devices the
/// machine has for it.
pub fn mode_skip_reason(mode: BenchMode, gpu: bool, devices: usize) -> (reason: Option<
    &'static str,
>)
    ensures
        reason is Some <==> needs_gpu(mode) && (!gpu || devices == 0),
        reason matches Some(r) ==> r@ == if !gpu {
            "built without gpu feature"@
        } else {
            "no GPU available"@
        },
{
    if !uses_gpu(mode) {
        None
    } else if !gpu {
        Some("built without gpu feature")
    } else if devices == 0 {
        Some("no GPU available")
    } else {
        None
    }
}

/// No mode that runs stands for others.
pub proof fn law_expanded_modes_are_single(mode: BenchMode, i: int)
    requires
        0 <= i < expanded(mode).len(),
    ensures
        expanded(mode)[i] != BenchMode::All,
        expanded(expanded(mode)[i]) == seq![expanded(mode)[i]],
{
}

/// One mode of a run: whether it is skipped, and if so why.
pub struct Scheduled {
    pub mode: BenchMode,
    pub skip: Option<&'static str>,
}

impl Scheduled {
    /// Why the mode is skipped, if it is.
    pub open spec fn reason(&self) -> Option<Seq<char>> {
        match self.skip {
            Some(r) => Some(r@),
            None => None,
        }
    }
}

/// The modes of a run, in order. Those that need a device are skipped where
/// the build has no device backend or the machine no device.
pub fn schedule(mode: BenchMode, gpu: bool, devices: usize) -> (modes: Vec<Scheduled>)
    ensures
        modes@.len() == expanded(mode).len(),
        forall|i: int|
            0 <= i < modes@.len() ==> {
                &&& (#[trigger] modes@[i]).mode == expanded(mode)[i]
                &&& modes@[i].reason() == skip_reason(expanded(mode)[i], gpu, devices as nat)
            },
{
    let expanded_modes = expand_modes(mode);
    let mut modes: Vec<Scheduled> = Vec::new();
    let mut i: usize = 0;
    while i < expanded_modes.len()
        invariant
            expanded_modes@ == expanded(mode),
            0 <= i <= expanded_modes@.len(),
            modes@.len() == i,
            forall|k: int|
                0 <= k < i ==> {
                    &&& (#[trigger] modes@[k]).mode == expanded(mode)[k]
                    &&& modes@[k].reason() == skip_reason(expanded(mode)[k], gpu, devices as nat)
                },
        decreases expanded_modes@.len() - i,
    {
        let m: BenchMode = expanded_modes[i];
        modes.push(Scheduled { mode: m, skip: mode_skip_reason(m, gpu, devices) });
        i = i + 1;
    }
    modes
}

/// The line on a mode that is skipped.
pub fn skip_line(mode: BenchMode, reason: &str) -> (line: String)
    ensures
        line@ == "Skipping "@ + mode_name(mode) + ": "@ + reason@,
{
    let mut line = String::from_str("Skipping ");
    line.append(mode_str(mode));
    line.append(": ");
    line.append(reason);
    line
}

/// What a mode runs with.
#[derive(Clone, Copy, PartialEq, Eq, Structural)]
pub struct ModePlan {
    /// Threads on the CPU.
    pub threads: usize,
    /// Whether the devices take part.
    pub on_gpus: bool,
}

/// What a mode runs with, given the threads that the user asked for and the
/// number of devices there are; `None` if it needs a device and there is none.
pub open spec fn planned(mode: BenchMode, threads: usize, gpus: nat) -> Option<ModePlan> {
    match mode {
        BenchMode::Cpu1 => Some(ModePlan { threads: 1, on_gpus: false }),
        BenchMode::CpuN => Some(ModePlan { threads, on_gpus: false }),
        BenchMode::Gpu => if gpus > 0 {
            Some(ModePlan { threads: 0, on_gpus: true })
        } else {
            None
        },
        _ => if gpus > 0 {
            Some(ModePlan { threads, on_gpus: true })
        } else {
            None
        },
    }
}

/// In a build with a device backend, a single mode has a plan exactly where it
/// is not skipped.
pub proof fn law_modes_with_a_plan_are_not_skipped(mode: BenchMode, threads: usize, devices: nat)
    requires
        mode != BenchMode::All,
    ensures
        planned(mode, threads, devices) is Some <==> skip_reason(mode, true, devices) is None,
{
}

/// What a mode runs with, given the threads that the user asked for and the
/// number of devices there are; `None` if it needs a device and there is none.
pub fn plan_mode(mode: BenchMode, threads: usize, gpus: usize) -> (plan: Option<ModePlan>)
    requires
        mode != BenchMode::All,
    ensures
        plan == planned(mode, threads, gpus as nat),
{
    match mode {
        BenchMode::Cpu1 => Some(ModePlan { threads: 1, on_gpus: false }),
        BenchMode::CpuN => Some(ModePlan { threads, on_gpus: false }),
        _ => {
            if gpus == 0 {
                None
            } else if mode == BenchMode::Gpu {
                Some(ModePlan { threads: 0, on_gpus: true })
            } else {
                Some(ModePlan { threads, on_gpus: true })
            }
        },
    }
}

/// How many threads to run: as many as the user asked for, else as many as the
/// machine has, else one.
pub fn thread_count(asked: Option<usize>, available: Option<usize>) -> (threads: usize)
    ensures
        threads == match asked {
            Some(n) => n,
            None => match available {
                Some(n) => n,
                None => 1,
            },
        },
{
    match asked {
        Some(n) => n,
        None => match available {
            Some(n) => n,
            None => 1,
        },
    }
}

/// The length of the shortest prefix and how many prefixes have it. Without
/// prefixes the length counts as one, and nothing has it.
pub fn match_odds(prefixes: &[String]) -> (odds: (usize, usize))
    ensures
        prefixes@.len() == 0 ==> odds == (1usize, 0usize),
        prefixes@.len() > 0 ==> odds.0 == shortest_len(texts(prefixes@)) && odds.1 == count_of_len(
            texts(prefixes@),
            shortest_len(texts(prefixes@)),
        ),
{
    if prefixes.len() == 0 {
        (1, 0)
    } else {
        shortest_prefixes(prefixes)
    }
}

/// How a mode ran, for the record of it.
pub fn describe_run(
    mode: BenchMode,
    plan: ModePlan,
    gpus: usize,
    prefixes: Vec<String>,
    duration_secs: u64,
    build_features: Vec<&'static str>,
) -> (config: BenchConfig)
    ensures
        config.mode@ == mode_name(mode),
        config.threads == plan.threads,
        config.gpus_used == if plan.on_gpus {
            gpus
        } else {
            0
        },
        config.prefixes == prefixes,
        config.duration_secs == duration_secs,
        config.build_features == build_features,
{
    let gpus_used: usize = if plan.on_gpus {
        gpus
    } else {
        0
    };
    BenchConfig {
        mode: mode_str(mode),
        threads: plan.threads,
        gpus_used,
        prefixes,
        duration_secs,
        build_features,
    }
}

/// A text in double quotes.
pub open spec fn quoted(text: Seq<char>) -> Seq<char> {
    "\""@ + text + "\""@
}

/// Some texts as a list: each in double quotes, with commas between them and
/// square brackets around them.
pub open spec fn listed(parts: Seq<Seq<char>>) -> Seq<char> {
    "["@ + joined(parts.map_values(|p: Seq<char>| quoted(p)), ", "@) + "]"@
}

/// Hex prefixes as a list.
fn list(prefixes: &[String]) -> (line: String)
    ensures
        line@ == listed(texts(prefixes@)),
{
    let ghost all = texts(prefixes@);
    let mut parts: Vec<String> = Vec::new();
    let mut i: usize = 0;
    while i < prefixes.len()
        invariant
            all == texts(prefixes@),
            0 <= i <= prefixes@.len(),
            parts@.len() == i,
            forall|k: int| 0 <= k < i ==> (#[trigger] parts@[k])@ == quoted(all[k]),
        decreases prefixes@.len() - i,
    {
        let mut part = String::from_str("\"");
        part.append(prefixes[i].as_str());
        part.append("\"");
        parts.push(part);
        i = i + 1;
    }
    assert(texts(parts@) =~= all.map_values(|p: Seq<char>| quoted(p)));
    let mut line = String::from_str("[");
    line.append(join(parts.as_slice(), ", ").as_str());
    line.append("]");
    line
}

/// The line on a mode that starts.
pub fn running_line(mode: BenchMode, duration_secs: u64, prefixes: &[String]) -> (line: String)
    requires
        forall|i: int| 0 <= i < prefixes@.len() ==> is_hex_text((#[trigger] prefixes@[i])@),
    ensures
        line@ == "Running bench: mode="@ + mode_name(mode) + " duration="@ + decimal(
            duration_secs as nat,
        ) + "s prefixes="@ + listed(texts(prefixes@)),
{
    let mut line = String::from_str("Running bench: mode=");
    line.append(mode_str(mode));
    line.append(" duration=");
    line.append(decimal_text(duration_secs).as_str());
    line.append("s prefixes=");
    line.append(list(prefixes).as_str());
    line
}

/// What the operating system says of a machine.
pub struct MachineProbe {
    pub host_name: Option<String>,
    pub long_os_version: Option<String>,
    pub os_name: Option<String>,
    /// The brand of each logical core.
    pub cpu_brands: Vec<String>,
    pub physical_cores: Option<usize>,
    /// Memory in bytes.
    pub total_memory: u64,
}

/// The first text that is there, or `unknown`.
pub open spec fn known(first: Option<String>, second: Option<String>) -> Seq<char> {
    match first {
        Some(s) => s@,
        None => match second {
            Some(s) => s@,
            None => "unknown"@,
        },
    }
}

fn known_text(first: Option<String>, second: Option<String>) -> (text: String)
    ensures
        text@ == known(first, second),
{
    match first {
        Some(s) => s,
        None => match second {
            Some(s) => s,
            None => String::from_str("unknown"),
        },
    }
}

/// The machine for the records, as the operating system describes it. Devices
/// are filled in for each mode.
pub fn gather_machine(label: Option<String>, probe: MachineProbe) -> (machine: BenchMachine)
    ensures
        machine.label == label,
        machine.hostname@ == known(probe.host_name, None),
        machine.os@ == known(probe.long_os_version, probe.os_name),
        machine.cpu_model@ == if probe.cpu_brands@.len() > 0 {
            probe.cpu_brands@[0]@
        } else {
            "unknown"@
        },
        machine.cpu_physical_cores == probe.physical_cores,
        machine.cpu_logical_cores == probe.cpu_brands@.len(),
        machine.memory_gb == probe.total_memory as nat / GIB as nat,
        machine.gpus@.len() == 0,
{
    let cpu_logical_cores: usize = probe.cpu_brands.len();
    let cpu_model = if cpu_logical_cores > 0 {
        probe.cpu_brands[0].clone()
    } else {
        String::from_str("unknown")
    };
    BenchMachine {
        label,
        hostname: known_text(probe.host_name, None),
        os: known_text(probe.long_os_version, probe.os_name),
        cpu_model,
        cpu_physical_cores: probe.physical_cores,
        cpu_logical_cores,
        memory_gb: probe.total_memory / GIB,
        gpus: Vec::new(),
    }
}

/// An optional number as a debugging format writes it.
pub open spec fn optional_number(n: Option<usize>) -> Seq<char> {
    match n {
        Some(k) => "Some("@ + decimal(k as nat) + ")"@,
        None => "None"@,
    }
}

/// The line on the machine at the start of a run.
pub fn machine_line(machine: &BenchMachine) -> (line: String)
    ensures
        line@ == "Machine: "@ + (match machine.label {
            Some(label) => label@,
            None => machine.hostname@,
        }) + " ("@ + machine.cpu_model@ + ", "@ + decimal(machine.cpu_logical_cores as nat)
            + " logical / "@ + optional_number(machine.cpu_physical_cores) + " physical cores, "@
            + decimal(machine.memory_gb as nat) + " GB RAM)"@,
{
    let mut line = String::from_str("Machine: ");
    match &machine.label {
        Some(label) => line.append(label.as_str()),
        None => line.append(machine.hostname.as_str()),
    }
    line.append(" (");
    line.append(machine.cpu_model.as_str());
    line.append(", ");
    line.append(decimal_text(machine.cpu_logical_cores as u64).as_str());
    line.append(" logical / ");
    match machine.cpu_physical_cores {
        Some(k) => {
            let mut cores = String::from_str("Some(");
            cores.append(decimal_text(k as u64).as_str());
            cores.append(")");
            line.append(cores.as_str());
        },
        None => line.append("None"),
    }
    line.append(" physical cores, ");
    line.append(decimal_text(machine.memory_gb).as_str());
    line.append(" GB RAM)");
    line
}

/// How many bytes of a commit hash are shown.
pub open spec fn shown_len(sha: Seq<char>) -> nat {
    if byte_len(sha) < SHORT_SHA {
        byte_len(sha)
    } else {
        SHORT_SHA as nat
    }
}

/// The line on the commit at the start of a run, if the commit is known.
pub fn commit_line(git: &BenchGit) -> (line: Option<String>)
    requires
        git.sha matches Some(sha) ==> is_char_boundary(
            encode_utf8(sha@),
            shown_len(sha@) as int,
        ),
    ensures
        line is Some <==> git.sha is Some,
        line matches Some(l) ==> exists|short: Seq<char>|
            {
                &&& short.is_prefix_of(git.sha->0@)
                &&& encode_utf8(short) == encode_utf8(git.sha->0@).subrange(
                    0,
                    shown_len(git.sha->0@) as int,
                )
                &&& l@ == "Commit:  "@ + short + (if git.dirty == Some(true) {
                    " (dirty)"@
                } else {
                    ""@
                }) + " on "@ + (match git.branch {
                    Some(branch) => branch@,
                    None => "?"@,
                })
            },
{
    match &git.sha {
        None => None,
        Some(sha) => {
            let len: usize = sha.as_str().as_bytes().len();
            let shown: usize = if len < SHORT_SHA {
                len
            } else {
                SHORT_SHA
            };
            let (short, rest) = split_at_byte(sha.as_str(), shown);
            let mut line = String::from_str("Commit:  ");
            line.append(short);
            let dirty = match git.dirty {
                Some(d) => d,
                None => false,
            };
            if dirty {
                line.append(" (dirty)");
            } else {
                line.append("");
            }
            line.append(" on ");
            match &git.branch {
                Some(branch) => line.append(branch.as_str()),
                None => line.append("?"),
            }
            assert(short@.is_prefix_of(sha@)) by {
                assert((short@ + rest@).subrange(0, short@.len() as int) =~= short@);
            }
            Some(line)
        },
    }
}

/// A CPU worker of a benchmark: it walks the same chain as a search, and
/// counts matches without stopping at one.
pub struct CpuBenchWorker {
    chain: KeyChain,
    tally: Tally,
}

impl CpuBenchWorker {
    /// The multiple of the base point that the next key encodes.
    pub closed spec fn position(&self) -> nat {
        self.chain.position()
    }

    /// Keys tried and not yet handed out.
    pub closed spec fn pending_keys(&self) -> nat {
        self.tally.keys as nat
    }

    /// Matches found and not yet handed out.
    pub closed spec fn pending_matches(&self) -> nat {
        self.tally.matches as nat
    }

    /// The chain and the counts are well formed.
    pub closed spec fn wf(&self) -> bool {
        &&& self.chain.wf()
        &&& self.tally.wf()
    }

    /// A worker that starts at a clamped scalar.
    pub fn new(start: &[u8; 32]) -> (worker: CpuBenchWorker)
        requires
            is_clamped(start@),
        ensures
            worker.wf(),
            worker.position() == le_value(start@) % group_order(),
            worker.pending_keys() == 0,
            worker.pending_matches() == 0,
    {
        CpuBenchWorker { chain: KeyChain::new(start), tally: Tally::new() }
    }

    /// The worker that starts at a drawn scalar, if one was drawn.
    pub fn from_draw(start: Option<[u8; 32]>) -> (worker: Option<CpuBenchWorker>)
        requires
            start matches Some(s) ==> is_clamped(s@),
        ensures
            worker is Some <==> start is Some,
            worker matches Some(w) ==> {
                &&& w.wf()
                &&& w.position() == le_value(start->0@) % group_order()
                &&& w.pending_keys() == 0
                &&& w.pending_matches() == 0
            },
    {
        match start {
            Some(s) => Some(CpuBenchWorker::new(&s)),
            None => None,
        }
    }

    /// A worker that starts at a random scalar; `None` if the operating system
    /// has no random bytes to give.
    pub fn from_os() -> (worker: Option<CpuBenchWorker>)
        ensures
            worker matches Some(w) ==> {
                &&& w.wf()
                &&& exists|start: Seq<u8>|
                    #[trigger] is_clamped(start) && w.position() == le_value(start)
                        % group_order()
                &&& w.pending_keys() == 0
                &&& w.pending_matches() == 0
            },
            exists|start: Option<[u8; 32]>|
                {
                    &&& #[trigger] call_ensures(random_start_scalar, (), start)
                    &&& worker is Some <==> start is Some
                    &&& worker matches Some(w) ==> w.position() == le_value(start->0@)
                        % group_order()
                },
    {
        CpuBenchWorker::from_draw(random_start_scalar())
    }

    /// Tries one batch of keys and counts the matches in it. Once enough keys
    /// are counted, the counts are handed out as `(keys, matches)`.
    pub fn step(&mut self, matchers: &Vec<PrefixMatcher>) -> (flushed: Option<(u64, u64)>)
        requires
            old(self).wf(),
            all_wf(matchers@),
        ensures
            final(self).wf(),
            final(self).position() == position_after(old(self).position(), CHAIN_BATCH as nat),
            flushed is Some <==> old(self).pending_keys() + CHAIN_BATCH >= FLUSH_EVERY,
            final(self).pending_keys() + flushed_keys(flushed) == old(self).pending_keys()
                + CHAIN_BATCH,
            final(self).pending_matches() + flushed_matches(flushed) == old(self).pending_matches()
                + vanity_count(matchers@, batch_keys(old(self).position())),
            flushed is Some ==> final(self).pending_keys() == 0 && final(self).pending_matches()
                == 0,
    {
        let keys = self.chain.next_batch();
        let matches: u64 = count_vanity(matchers, &keys);
        assert(keys@.map_values(|k: [u8; 32]| k@) =~= batch_keys(old(self).position()));
        self.tally.record(CHAIN_BATCH as u64, matches)
    }

    /// The counts that are still to be handed out when the worker stops.
    pub fn finish(&self) -> (counts: (u64, u64))
        ensures
            counts.0 == self.pending_keys(),
            counts.1 == self.pending_matches(),
    {
        (self.tally.keys, self.tally.matches)
    }
}

/// What a worker that drives a device does after a launch.
pub enum GpuBenchStep {
    /// Add these counts and launch again.
    Count { keys: u64, matches: u64 },
    /// Tell the user and stop.
    Stop { message: String },
}

/// Decides what follows a launch of the count kernel.
pub fn gpu_bench_step(outcome: Result<(u64, u32), String>, device: &str) -> (step: GpuBenchStep)
    ensures
        match outcome {
            Ok(counts) => step == (GpuBenchStep::Count {
                keys: counts.0,
                matches: counts.1 as u64,
            }),
            Err(error) => step matches GpuBenchStep::Stop { message } && message@
                == "GPU error during bench ("@ + device@ + "): "@ + error@,
        },
{
    match outcome {
        Ok((keys, matches)) => GpuBenchStep::Count { keys, matches: matches as u64 },
        Err(error) => {
            let mut message = String::from_str("GPU error during bench (");
            message.append(device);
            message.append("): ");
            message.append(error.as_str());
            GpuBenchStep::Stop { message }
        },
    }
}

/// `All` stands for the four single modes in order, and a single mode for
/// itself.
pub proof fn law_modes_of_a_run(mode: BenchMode)
    ensures
        expanded(BenchMode::All).len() == 4,
        expanded(BenchMode::All)[0] == BenchMode::Cpu1,
        expanded(BenchMode::All)[1] == BenchMode::CpuN,
        expanded(BenchMode::All)[2] == BenchMode::Gpu,
        expanded(BenchMode::All)[3] == BenchMode::Hybrid,
        mode != BenchMode::All ==> expanded(mode).len() == 1 && expanded(mode)[0] == mode,
{
}

/// A mode is skipped where it runs on a device and the build has no backend or
/// the machine no device.
pub proof fn law_skipped_modes(mode: BenchMode, gpu: bool, devices: nat)
    ensures
        needs_gpu(mode) <==> mode is Gpu || mode is Hybrid,
        skip_reason(mode, gpu, devices) is Some <==> (mode is Gpu || mode is Hybrid) && (!gpu
            || devices == 0),
        skip_reason(mode, gpu, devices) matches Some(reason) ==> reason == if gpu {
            "no GPU available"@
        } else {
            "built without gpu feature"@
        },
{
}

/// The modes on a device take it, the modes on the CPU do not; one thread, all
/// of them or none run with it.
pub proof fn law_plans(threads: usize, gpus: nat)
    ensures
        planned(BenchMode::Cpu1, threads, gpus) == Some(ModePlan { threads: 1, on_gpus: false }),
        planned(BenchMode::CpuN, threads, gpus) == Some(ModePlan { threads, on_gpus: false }),
        gpus > 0 ==> planned(BenchMode::Gpu, threads, gpus) == Some(
            ModePlan { threads: 0, on_gpus: true },
        ),
        gpus > 0 ==> planned(BenchMode::Hybrid, threads, gpus) == Some(
            ModePlan { threads, on_gpus: true },
        ),
        gpus == 0 ==> planned(BenchMode::Gpu, threads, gpus) is None,
        gpus == 0 ==> planned(BenchMode::Hybrid, threads, gpus) is None,
{
}

/// A variable of the build says what it holds, unless it is missing, empty or
/// the placeholder.
pub proof fn law_build_values(value: &'static str)
    ensures
        build_value(None) is None,
        build_value(Some(value)) is None <==> value@.len() == 0 || value@
            == "VERGEN_IDEMPOTENT_OUTPUT"@,
        build_value(Some(value)) matches Some(said) ==> said == value@,
{
}

/// The contents of strings stand one for one, and a missing string has none.
pub proof fn law_contents(strings: Seq<&'static str>, s: String)
    ensures
        static_texts(strings).len() == strings.len(),
        forall|i: int| 0 <= i < strings.len() ==> #[trigger] static_texts(strings)[i] == strings[i]@,
        text_of(Some(s)) == Some(s@),
        text_of(None) is None,
{
}

/// A list starts and ends with brackets, an only text stands in quotes between
/// them, and one more text comes behind a comma and a blank.
pub proof fn law_lists(parts: Seq<Seq<char>>, last: Seq<char>)
    ensures
        listed(Seq::empty()) == "["@ + "]"@,
        listed(seq![last]) == "["@ + ("\""@ + last + "\""@) + "]"@,
        parts.len() > 0 ==> exists|inner: Seq<char>|
            {
                &&& listed(parts) == #[trigger] ("["@ + inner + "]"@)
                &&& listed(parts.push(last)) == "["@ + (inner + ", "@ + ("\""@ + last + "\""@))
                    + "]"@
            },
{
    let quote = |p: Seq<char>| quoted(p);
    assert(Seq::<Seq<char>>::empty().map_values(quote) =~= Seq::empty());
    assert("["@ + Seq::<char>::empty() + "]"@ =~= "["@ + "]"@);
    assert(seq![last].map_values(quote) =~= seq![quoted(last)]);
    if parts.len() > 0 {
        let all = parts.map_values(quote);
        let inner = joined(all, ", "@);
        assert(parts.push(last).map_values(quote) =~= all.push(quoted(last)));
        assert(all.push(quoted(last)).drop_last() =~= all);
        assert(listed(parts) == "["@ + inner + "]"@);
    }
}

/// The first text that is there is taken, and `unknown` where none is.
pub proof fn law_known(first: String, second: String)
    ensures
        known(Some(first), Some(second)) == first@,
        known(Some(first), None) == first@,
        known(None, Some(second)) == second@,
        known(None, None) == "unknown"@,
{
}

/// A number that is there stands in brackets.
pub proof fn law_optional_number(n: usize)
    ensures
        optional_number(Some(n)) == "Some("@ + decimal(n as nat) + ")"@,
        optional_number(None) == "None"@,
{
}

/// Of a commit hash twelve bytes are shown, or all if it has fewer.
pub proof fn law_shown_len(sha: Seq<char>)
    ensures
        shown_len(sha) == if encode_utf8(sha).len() < 12 {
            encode_utf8(sha).len()
        } else {
            12
        },
{
}

/// Each mode has its name.
pub proof fn law_mode_names()
    ensures
        mode_name(BenchMode::Cpu1) == "cpu1"@,
        mode_name(BenchMode::CpuN) == "cpuN"@,
        mode_name(BenchMode::Gpu) == "gpu"@,
        mode_name(BenchMode::Hybrid) == "hybrid"@,
        mode_name(BenchMode::All) == "all"@,
{
}

} // verus!
