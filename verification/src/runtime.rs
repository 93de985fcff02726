//! Starting up: which backends run, in which order things begin, and what is
//! said when one of them fails. Without the interface the metrics are logged at
//! an interval. The work itself is done outside.
use vstd::prelude::*;
use vstd::string::*;

use crate::float::Float;
use crate::text;

verus! {

/// The `[compute]` section of the configuration.
#[derive(Debug)]
pub struct ComputeConfig {
    pub use_cpu: bool,
    /// Zero stands for all logical cores.
    pub cpu_threads: usize,
    pub cpu_chunk_size: u64,
    pub use_gpu: bool,
    pub gpu_profile: String,
    pub gpu_blocks: u32,
    pub gpu_chunk_size: u64,
}

/// What the runtime reads of the configuration.
#[derive(Debug)]
pub struct Config {
    pub compute: ComputeConfig,
    pub disable_tui: bool,
    /// The time between two lines of the log monitor, in milliseconds.
    pub report_interval: u64,
}

#[derive(Clone, Copy, Debug, PartialEq, Eq, Structural)]
pub enum GpuBackendKind {
    Cuda,
    Hip,
    Vulkan,
}

/// The GPU backends that the program was built with.
#[derive(Clone, Copy, Debug, PartialEq, Eq, Structural)]
pub struct Features {
    pub cuda: bool,
    pub hip: bool,
    pub vk: bool,
}

impl Features {
    pub open spec fn holds(self, kind: GpuBackendKind) -> bool {
        match kind {
            GpuBackendKind::Cuda => self.cuda,
            GpuBackendKind::Hip => self.hip,
            GpuBackendKind::Vulkan => self.vk,
        }
    }

    pub fn has(self, kind: GpuBackendKind) -> (b: bool)
        ensures
            b == self.holds(kind),
    {
        match kind {
            GpuBackendKind::Cuda => self.cuda,
            GpuBackendKind::Hip => self.hip,
            GpuBackendKind::Vulkan => self.vk,
        }
    }
}

/// The GPU as it is to be started.
#[derive(Clone, Copy, Debug, PartialEq, Eq, Structural)]
pub struct GpuSettings {
    pub kind: GpuBackendKind,
    pub blocks: u32,
    pub threads_per_block: u32,
    pub chunk_size: u64,
}

/// The backend that a profile names.
pub open spec fn profile_kind(profile: Seq<char>) -> Option<GpuBackendKind> {
    if profile == "cuda"@ {
        Some(GpuBackendKind::Cuda)
    } else if profile == "hip"@ {
        Some(GpuBackendKind::Hip)
    } else if profile == "vulkan"@ {
        Some(GpuBackendKind::Vulkan)
    } else {
        None
    }
}

impl ComputeConfig {
    /// The GPU that the profile names. The kernels have 256 threads per block.
    pub open spec fn gpu(self) -> Option<GpuSettings> {
        match profile_kind(self.gpu_profile@) {
            Some(kind) => Some(
                GpuSettings {
                    kind,
                    blocks: self.gpu_blocks,
                    threads_per_block: 256,
                    chunk_size: self.gpu_chunk_size,
                },
            ),
            None => None,
        }
    }

    pub fn resolve_gpu(&self) -> (r: Option<GpuSettings>)
        ensures
            r == self.gpu(),
    {
        let kind: GpuBackendKind = if self.gpu_profile == "cuda".to_owned() {
            GpuBackendKind::Cuda
        } else if self.gpu_profile == "hip".to_owned() {
            GpuBackendKind::Hip
        } else if self.gpu_profile == "vulkan".to_owned() {
            GpuBackendKind::Vulkan
        } else {
            return None;
        };
        Some(
            GpuSettings {
                kind,
                blocks: self.gpu_blocks,
                threads_per_block: 256,
                chunk_size: self.gpu_chunk_size,
            },
        )
    }
}

/// What a GPU backend that could not be made is reported as.
pub open spec fn failure_text(kind: GpuBackendKind, error: Seq<char>) -> Seq<char> {
    match kind {
        GpuBackendKind::Cuda => "gpu: "@ + error,
        GpuBackendKind::Hip => "amd: "@ + error,
        GpuBackendKind::Vulkan => "vk: "@ + error,
    }
}

pub fn failure_message(kind: GpuBackendKind, error: &str) -> (r: String)
    ensures
        r@ == failure_text(kind, error@),
{
    let prefix: String = match kind {
        GpuBackendKind::Cuda => "gpu: ".to_owned(),
        GpuBackendKind::Hip => "amd: ".to_owned(),
        GpuBackendKind::Vulkan => "vk: ".to_owned(),
    };
    prefix.concat(error)
}

/// What is said of a profile whose backend the program was built without.
pub open spec fn not_built_text(profile: Seq<char>) -> Seq<char> {
    "gpu_profile \""@ + profile
        + "\" requires a backend not compiled in (rebuild with --features cuda or --features hip or --features vk)"@
}

fn not_built_message(profile: &str) -> (r: String)
    ensures
        r@ == not_built_text(profile@),
{
    "gpu_profile \"".to_owned().concat(profile).concat(
        "\" requires a backend not compiled in (rebuild with --features cuda or --features hip or --features vk)",
    )
}

/// How long a GPU may take to come up, in milliseconds.
pub const GPU_INIT_MILLIS: u64 = 15_000;

/// How long everything may take to wind down, in milliseconds.
pub const GRACE_MILLIS: u64 = 500;

/// What start-up does next.
#[derive(Debug)]
pub enum StartupStep {
    /// Show the terminal interface on a thread of its own.
    StartTui,
    /// Log the metrics on a thread of its own, at this interval in milliseconds.
    StartLogMonitor(u64),
    /// Start the CPU backend as number `id` with so many threads.
    StartCpu { id: usize, threads: usize },
    /// Start the GPU backend as number `id` and wait for it, so many
    /// milliseconds at most.
    StartGpu { id: usize, gpu: GpuSettings, millis: u64 },
    /// The configuration names a profile that does not exist.
    Abort(String),
    LogError(String),
    SetStatus(String),
    /// Connect, and schedule work on the backends: one chunk size each, by
    /// number.
    RunServices { chunk_sizes: Vec<u64> },
    /// Tell everything to stop, and wait so many milliseconds.
    CancelAndWait(u64),
    /// Wait for the thread of the interface or of the log monitor.
    JoinMonitor,
    Finish,
}

/// How the last step came out.
#[derive(Debug)]
pub enum StartupEvent {
    Done,
    /// The GPU came up.
    GpuReady,
    /// The GPU did not come up, for the reason given.
    GpuFailed(String),
    /// The GPU did not answer in time.
    GpuSilent,
    /// The connection ended, in an error or not.
    NetExited(Option<String>),
    /// The scheduler ended, in an error or not.
    SchedulerExited(Option<String>),
    /// The program was told to stop.
    Cancelled,
}

/// What start-up is at.
#[derive(Clone, Copy, Debug, PartialEq, Eq, Structural)]
pub enum StartupStage {
    Monitor,
    Cpu,
    Gpu,
    /// Show why the GPU did not come up.
    GpuStatus,
    GpuReport,
    Services,
    ExitReport,
    Grace,
    Join,
    Finished,
    Aborted,
}

/// The runtime: a configuration, and what the program was built with.
#[derive(Debug)]
pub struct ForgeRuntime {
    pub config: Config,
    pub features: Features,
}

/// Start-up between two steps.
#[derive(Debug)]
pub struct Startup {
    pub stage: StartupStage,
    /// The chunk size of each backend that came up, by its number.
    pub backends: Vec<u64>,
    /// Why the GPU did not come up, where it did not.
    pub gpu_failure: String,
}

impl ForgeRuntime {
    pub fn new(config: Config, features: Features) -> (r: ForgeRuntime)
        ensures
            r.config == config,
            r.features == features,
    {
        ForgeRuntime { config, features }
    }

    /// Begins: something must compute, and the monitor starts first.
    pub fn startup(&self) -> (r: Result<(Startup, StartupStep), String>)
        ensures
            r is Err <==> !self.config.compute.use_cpu && !self.config.compute.use_gpu,
            r matches Err(why) ==> why@
                == "no compute backend enabled; set use_cpu or use_gpu to true in conf.toml"@,
            r matches Ok((s, step)) ==> {
                &&& s.stage == StartupStage::Monitor
                &&& s.backends@ == Seq::<u64>::empty()
                &&& step == (if self.config.disable_tui {
                    StartupStep::StartLogMonitor(self.config.report_interval)
                } else {
                    StartupStep::StartTui
                })
            },
    {
        if !self.config.compute.use_cpu && !self.config.compute.use_gpu {
            return Err(
                "no compute backend enabled; set use_cpu or use_gpu to true in conf.toml".to_owned(),
            );
        }
        let s = Startup {
            stage: StartupStage::Monitor,
            backends: Vec::new(),
            gpu_failure: String::new(),
        };
        if self.config.disable_tui {
            Ok((s, StartupStep::StartLogMonitor(self.config.report_interval)))
        } else {
            Ok((s, StartupStep::StartTui))
        }
    }

    /// Whether the event can be the outcome of the step under way.
    pub open spec fn expects(&self, s: Startup, event: StartupEvent) -> bool {
        match s.stage {
            StartupStage::Gpu => event is GpuReady || event is GpuFailed || event is GpuSilent,
            StartupStage::Services => event is NetExited || event is SchedulerExited
                || event is Cancelled,
            StartupStage::Finished | StartupStage::Aborted => false,
            _ => event is Done,
        }
    }

    /// What start-up knows of its backends.
    pub open spec fn is_valid(&self, s: Startup) -> bool {
        &&& s.backends@.len() <= 2
        &&& s.stage == StartupStage::Monitor ==> s.backends@.len() == 0
        &&& s.stage == StartupStage::Cpu ==> s.backends@.len() == 0 && self.config.compute.use_cpu
        &&& s.stage == StartupStage::Gpu ==> {
            &&& s.backends@ == self.before_gpu()
            &&& self.config.compute.use_gpu
            &&& self.config.compute.gpu() is Some
        }
    }

    /// The backends when it is the turn of the GPU.
    pub open spec fn before_gpu(&self) -> Seq<u64> {
        if self.config.compute.use_cpu {
            seq![self.config.compute.cpu_chunk_size]
        } else {
            seq![]
        }
    }

    /// The stage after the CPU backend, whether there is one or not.
    pub open spec fn stage_after_cpu(&self) -> StartupStage {
        if !self.config.compute.use_gpu {
            StartupStage::Services
        } else {
            match self.config.compute.gpu() {
                None => StartupStage::Aborted,
                Some(gpu) => if self.features.holds(gpu.kind) {
                    StartupStage::Gpu
                } else {
                    StartupStage::GpuReport
                },
            }
        }
    }

    /// The step that begins the stage after the CPU backend.
    pub open spec fn is_step_after_cpu(&self, step: StartupStep) -> bool {
        let compute = self.config.compute;
        match self.stage_after_cpu() {
            StartupStage::Aborted => step matches StartupStep::Abort(why) && why@
                == "invalid gpu_profile"@,
            StartupStage::Gpu => step == StartupStep::StartGpu {
                id: self.before_gpu().len() as usize,
                gpu: compute.gpu().unwrap(),
                millis: GPU_INIT_MILLIS,
            },
            StartupStage::GpuReport => step matches StartupStep::LogError(line) && line@
                == "[gpu] "@ + not_built_text(compute.gpu_profile@),
            _ => is_services_step(step, self.before_gpu()),
        }
    }

    fn after_cpu(&self, s: &mut Startup) -> (step: StartupStep)
        requires
            old(s).backends@ == self.before_gpu(),
        ensures
            final(s).backends@ == self.before_gpu(),
            final(s).stage == self.stage_after_cpu(),
            self.is_step_after_cpu(step),
    {
        if !self.config.compute.use_gpu {
            return services(s);
        }
        match self.config.compute.resolve_gpu() {
            None => {
                s.stage = StartupStage::Aborted;
                StartupStep::Abort("invalid gpu_profile".to_owned())
            },
            Some(gpu) => {
                if self.features.has(gpu.kind) {
                    s.stage = StartupStage::Gpu;
                    StartupStep::StartGpu { id: s.backends.len(), gpu, millis: GPU_INIT_MILLIS }
                } else {
                    s.stage = StartupStage::GpuReport;
                    let message: String = not_built_message(
                        self.config.compute.gpu_profile.as_str(),
                    );
                    StartupStep::LogError("[gpu] ".to_owned().concat(message.as_str()))
                }
            },
        }
    }

    /// Takes the outcome of the step under way and says what comes next.
    ///
    /// The CPU backend starts before the GPU, and the number of a backend is its
    /// place among those that came up. A GPU that does not come up is shown as
    /// the status, reported and left out. When the connection or the scheduler
    /// ends, or the program is told to stop, everything is told to stop and has
    /// some time to.
    pub fn advance(&self, s: &mut Startup, event: StartupEvent) -> (step: StartupStep)
        requires
            self.is_valid(*old(s)),
            self.expects(*old(s), event),
        ensures
            self.is_valid(*final(s)),
            final(s).stage.rank() > old(s).stage.rank(),
            step is Finish <==> final(s).stage == StartupStage::Finished,
            step is Abort <==> final(s).stage == StartupStage::Aborted,
            old(s).stage != StartupStage::Cpu && !(event is GpuReady) ==> final(s).backends@
                == old(s).backends@,
            old(s).stage == StartupStage::Monitor && self.config.compute.use_cpu ==> {
                &&& final(s).stage == StartupStage::Cpu
                &&& final(s).backends@ == old(s).backends@
                &&& step == StartupStep::StartCpu {
                    id: 0,
                    threads: self.config.compute.cpu_threads,
                }
            },
            old(s).stage == StartupStage::Cpu || (old(s).stage == StartupStage::Monitor
                && !self.config.compute.use_cpu) ==> {
                &&& final(s).stage == self.stage_after_cpu()
                &&& final(s).backends@ == self.before_gpu()
                &&& self.is_step_after_cpu(step)
            },
            event is GpuReady ==> {
                &&& final(s).stage == StartupStage::Services
                &&& final(s).backends@ == old(s).backends@.push(self.config.compute.gpu_chunk_size)
                &&& is_services_step(step, final(s).backends@)
            },
            event matches StartupEvent::GpuFailed(why) ==> {
                &&& final(s).stage == StartupStage::GpuStatus
                &&& final(s).gpu_failure@ == why@
                &&& step matches StartupStep::SetStatus(line) && line@ == why@
            },
            old(s).stage == StartupStage::GpuStatus ==> {
                &&& final(s).stage == StartupStage::GpuReport
                &&& step matches StartupStep::LogError(line) && line@ == "[gpu] "@
                    + old(s).gpu_failure@
            },
            event is GpuSilent ==> {
                &&& final(s).stage == StartupStage::GpuReport
                &&& step matches StartupStep::SetStatus(line) && line@ == "gpu init timed out"@
            },
            old(s).stage == StartupStage::GpuReport ==> {
                &&& final(s).stage == StartupStage::Services
                &&& final(s).backends@ == old(s).backends@
                &&& is_services_step(step, final(s).backends@)
            },
            event matches StartupEvent::NetExited(Some(e)) ==> {
                &&& final(s).stage == StartupStage::ExitReport
                &&& step matches StartupStep::LogError(line) && line@
                    == "[net] exited with error: "@ + e@
            },
            event matches StartupEvent::SchedulerExited(Some(e)) ==> {
                &&& final(s).stage == StartupStage::ExitReport
                &&& step matches StartupStep::LogError(line) && line@
                    == "[scheduler] exited with error: "@ + e@
            },
            old(s).stage == StartupStage::ExitReport || event is Cancelled || event
                == StartupEvent::NetExited(None) || event == StartupEvent::SchedulerExited(None)
                ==> {
                &&& final(s).stage == StartupStage::Grace
                &&& step == StartupStep::CancelAndWait(GRACE_MILLIS)
            },
            old(s).stage == StartupStage::Grace ==> {
                &&& final(s).stage == StartupStage::Join
                &&& step == StartupStep::JoinMonitor
            },
            old(s).stage == StartupStage::Join ==> final(s).stage == StartupStage::Finished,
    {
        match event {
            StartupEvent::Done => match s.stage {
                StartupStage::Monitor => {
                    if self.config.compute.use_cpu {
                        s.stage = StartupStage::Cpu;
                        return StartupStep::StartCpu {
                            id: s.backends.len(),
                            threads: self.config.compute.cpu_threads,
                        };
                    }
                    proof {
                        assert(s.backends@ =~= self.before_gpu());
                    }
                    self.after_cpu(s)
                },
                StartupStage::Cpu => {
                    s.backends.push(self.config.compute.cpu_chunk_size);
                    proof {
                        assert(s.backends@ =~= self.before_gpu());
                    }
                    self.after_cpu(s)
                },
                StartupStage::GpuStatus => {
                    s.stage = StartupStage::GpuReport;
                    StartupStep::LogError("[gpu] ".to_owned().concat(s.gpu_failure.as_str()))
                },
                StartupStage::GpuReport => services(s),
                StartupStage::ExitReport => {
                    s.stage = StartupStage::Grace;
                    StartupStep::CancelAndWait(GRACE_MILLIS)
                },
                StartupStage::Grace => {
                    s.stage = StartupStage::Join;
                    StartupStep::JoinMonitor
                },
                _ => {
                    s.stage = StartupStage::Finished;
                    StartupStep::Finish
                },
            },
            StartupEvent::GpuReady => {
                s.backends.push(self.config.compute.gpu_chunk_size);
                services(s)
            },
            StartupEvent::GpuFailed(why) => {
                s.stage = StartupStage::GpuStatus;
                let status: String = why.clone();
                s.gpu_failure = why;
                StartupStep::SetStatus(status)
            },
            StartupEvent::GpuSilent => {
                s.stage = StartupStage::GpuReport;
                StartupStep::SetStatus("gpu init timed out".to_owned())
            },
            StartupEvent::NetExited(Some(e)) => {
                s.stage = StartupStage::ExitReport;
                StartupStep::LogError("[net] exited with error: ".to_owned().concat(e.as_str()))
            },
            StartupEvent::SchedulerExited(Some(e)) => {
                s.stage = StartupStage::ExitReport;
                StartupStep::LogError(
                    "[scheduler] exited with error: ".to_owned().concat(e.as_str()),
                )
            },
            _ => {
                s.stage = StartupStage::Grace;
                StartupStep::CancelAndWait(GRACE_MILLIS)
            },
        }
    }
}

/// Work is scheduled on backends with these chunk sizes.
pub open spec fn is_services_step(step: StartupStep, backends: Seq<u64>) -> bool {
    step matches StartupStep::RunServices { chunk_sizes } && chunk_sizes@ == backends
}

fn services(s: &mut Startup) -> (step: StartupStep)
    ensures
        final(s).stage == StartupStage::Services,
        final(s).backends@ == old(s).backends@,
        is_services_step(step, old(s).backends@),
{
    s.stage = StartupStage::Services;
    let mut chunk_sizes: Vec<u64> = Vec::new();
    let mut i: usize = 0;
    while i < s.backends.len()
        invariant
            i <= s.backends.len(),
            chunk_sizes@ == s.backends@.take(i as int),
        decreases s.backends.len() - i,
    {
        chunk_sizes.push(s.backends[i]);
        i = i + 1;
        proof {
            assert(chunk_sizes@ =~= s.backends@.take(i as int));
        }
    }
    proof {
        assert(chunk_sizes@ =~= s.backends@);
    }
    StartupStep::RunServices { chunk_sizes }
}

impl StartupStage {
    /// The order of the stages.
    pub open spec fn rank(self) -> int {
        match self {
            StartupStage::Monitor => 0,
            StartupStage::Cpu => 1,
            StartupStage::Gpu => 2,
            StartupStage::GpuStatus => 3,
            StartupStage::GpuReport => 4,
            StartupStage::Services => 5,
            StartupStage::ExitReport => 6,
            StartupStage::Grace => 7,
            StartupStage::Join => 8,
            StartupStage::Finished => 9,
            StartupStage::Aborted => 10,
        }
    }
}

/// What the log monitor reports.
#[derive(Debug)]
pub struct Tally {
    pub rate: Float,
    pub session: u64,
    pub lifetime: u64,
    pub last_best: i32,
    pub session_best: i32,
    pub all_best: i32,
    pub status: String,
}

/// One line of the log monitor.
pub open spec fn tally_text(t: Tally) -> Seq<char> {
    "metrics: rate="@ + t.rate.text(2) + " session="@ + text::decimal(t.session as nat)
        + " lifetime="@ + text::decimal(t.lifetime as nat) + " last_best="@ + text::signed(
        t.last_best as int,
    ) + " session_best="@ + text::signed(t.session_best as int) + " all_best="@ + text::signed(
        t.all_best as int,
    ) + " status="@ + t.status@
}

pub fn tally_line(t: &Tally) -> (r: String)
    ensures
        r@ == tally_text(*t),
{
    let mut out: String = "metrics: rate=".to_owned();
    t.rate.push_text(&mut out, 2);
    out.append(" session=");
    text::push_decimal(&mut out, t.session);
    out.append(" lifetime=");
    text::push_decimal(&mut out, t.lifetime);
    out.append(" last_best=");
    text::push_signed(&mut out, t.last_best);
    out.append(" session_best=");
    text::push_signed(&mut out, t.session_best);
    out.append(" all_best=");
    text::push_signed(&mut out, t.all_best);
    out.append(" status=");
    out.append(t.status.as_str());
    out
}

/// What the log monitor does next.
#[derive(Clone, Copy, Debug, PartialEq, Eq, Structural)]
pub enum LogCall {
    /// Look whether the program is to stop.
    CheckCancel,
    /// Log one line of metrics.
    Log,
    /// Sleep this many milliseconds.
    Sleep(u64),
    /// Stop logging.
    Finish,
}

/// How the last call came out.
#[derive(Clone, Copy, Debug, PartialEq, Eq, Structural)]
pub enum LogEvent {
    Cancelled(bool),
    Done,
}

/// The log monitor between two calls.
#[derive(Clone, Copy, Debug, PartialEq, Eq, Structural)]
pub struct LogLoop {
    /// The time between two lines, in milliseconds.
    pub interval: u64,
    pub call: LogCall,
}

impl LogLoop {
    /// Whether the event can be the outcome of the call under way.
    pub open spec fn expects(self, event: LogEvent) -> bool {
        match self.call {
            LogCall::CheckCancel => event is Cancelled,
            LogCall::Log | LogCall::Sleep(_) => event is Done,
            LogCall::Finish => false,
        }
    }

    /// The monitor after the event: each round looks whether to stop, logs a
    /// line, and sleeps.
    pub open spec fn next(self, event: LogEvent) -> LogLoop {
        let call = match self.call {
            LogCall::CheckCancel => if event == LogEvent::Cancelled(true) {
                LogCall::Finish
            } else {
                LogCall::Log
            },
            LogCall::Log => LogCall::Sleep(self.interval),
            LogCall::Sleep(_) => LogCall::CheckCancel,
            LogCall::Finish => LogCall::Finish,
        };
        LogLoop { interval: self.interval, call }
    }

    pub fn start(interval: u64) -> (s: LogLoop)
        ensures
            s == (LogLoop { interval, call: LogCall::CheckCancel }),
    {
        LogLoop { interval, call: LogCall::CheckCancel }
    }

    /// Takes the outcome of the call under way and says what comes next.
    pub fn advance(self, event: LogEvent) -> (s: LogLoop)
        requires
            self.expects(event),
        ensures
            s == self.next(event),
    {
        let call: LogCall = match event {
            LogEvent::Cancelled(stop) => {
                if stop {
                    LogCall::Finish
                } else {
                    LogCall::Log
                }
            },
            LogEvent::Done => match self.call {
                LogCall::Log => LogCall::Sleep(self.interval),
                _ => LogCall::CheckCancel,
            },
        };
        LogLoop { interval: self.interval, call }
    }
}

/// Law: a line is logged only after a look that did not say to stop, and the
/// interval passes before the next look.
pub proof fn law_log_line_in_every_round(s: LogLoop)
    requires
        s.call == LogCall::CheckCancel,
    ensures
        s.next(LogEvent::Cancelled(true)).call == LogCall::Finish,
        s.next(LogEvent::Cancelled(false)).call == LogCall::Log,
        s.next(LogEvent::Cancelled(false)).next(LogEvent::Done).call == LogCall::Sleep(s.interval),
        s.next(LogEvent::Cancelled(false)).next(LogEvent::Done).next(LogEvent::Done) == s,
{
}

/// Law: a profile names the backend that it is called after, with the grid and
/// the chunk size of the configuration and 256 threads per block. No other text
/// names one.
pub proof fn law_profile_names_its_backend(c: ComputeConfig, r: Option<GpuSettings>)
    requires
        call_ensures(ComputeConfig::resolve_gpu, (&c,), r),
    ensures
        r is Some <==> c.gpu_profile@ == "cuda"@ || c.gpu_profile@ == "hip"@ || c.gpu_profile@
            == "vulkan"@,
        c.gpu_profile@ == "cuda"@ ==> r.unwrap().kind == GpuBackendKind::Cuda,
        c.gpu_profile@ == "hip"@ ==> r.unwrap().kind == GpuBackendKind::Hip,
        c.gpu_profile@ == "vulkan"@ ==> r.unwrap().kind == GpuBackendKind::Vulkan,
        r matches Some(gpu) ==> gpu.blocks == c.gpu_blocks && gpu.chunk_size == c.gpu_chunk_size
            && gpu.threads_per_block == 256,
{
    reveal_strlit("cuda");
    reveal_strlit("hip");
    reveal_strlit("vulkan");
    assert("cuda"@.len() == 4 && "hip"@.len() == 3 && "vulkan"@.len() == 6);
}

/// The number of backends before the GPU: one where the CPU computes.
pub open spec fn gpu_number(compute: ComputeConfig) -> usize {
    if compute.use_cpu {
        1
    } else {
        0
    }
}

/// Law: with the profile `cuda`, `hip` or `vulkan`, and the feature of that
/// backend built in, the GPU that is started after the CPU is of that kind,
/// whatever else was built in. It is the next backend in number, and has fifteen
/// seconds.
pub proof fn law_built_in_backend_is_started(rt: ForgeRuntime, step: StartupStep)
    requires
        rt.is_step_after_cpu(step),
        rt.config.compute.use_gpu,
    ensures
        rt.config.compute.gpu_profile@ == "cuda"@ && rt.features.cuda ==> (
        step matches StartupStep::StartGpu { id, gpu, millis } && gpu.kind == GpuBackendKind::Cuda
            && gpu.blocks == rt.config.compute.gpu_blocks && id == gpu_number(rt.config.compute)
            && millis == 15_000),
        rt.config.compute.gpu_profile@ == "hip"@ && rt.features.hip ==> (
        step matches StartupStep::StartGpu { id, gpu, millis } && gpu.kind == GpuBackendKind::Hip
            && gpu.blocks == rt.config.compute.gpu_blocks && id == gpu_number(rt.config.compute)
            && millis == 15_000),
        rt.config.compute.gpu_profile@ == "vulkan"@ && rt.features.vk ==> (
        step matches StartupStep::StartGpu { id, gpu, millis } && gpu.kind == GpuBackendKind::Vulkan
            && gpu.blocks == rt.config.compute.gpu_blocks && id == gpu_number(rt.config.compute)
            && millis == 15_000),
{
    reveal_strlit("cuda");
    reveal_strlit("hip");
    reveal_strlit("vulkan");
    assert("cuda"@.len() == 4 && "hip"@.len() == 3 && "vulkan"@.len() == 6);
}

/// Law: with the profile `cuda`, `hip` or `vulkan`, and the feature of that
/// backend not built in, no GPU is started and the log says why. Any other
/// profile ends start-up. Without a GPU the services run on the CPU alone.
pub proof fn law_missing_backend_is_reported(rt: ForgeRuntime, step: StartupStep)
    requires
        rt.is_step_after_cpu(step),
    ensures
        ({
            let profile = rt.config.compute.gpu_profile@;
            let gpu = rt.config.compute.use_gpu;
            &&& gpu && (profile == "cuda"@ && !rt.features.cuda || profile == "hip"@
                && !rt.features.hip || profile == "vulkan"@ && !rt.features.vk) ==> (
            step matches StartupStep::LogError(line) && line@ == "[gpu] gpu_profile \""@ + profile
                + "\" requires a backend not compiled in (rebuild with --features cuda or --features hip or --features vk)"@)
            &&& gpu && profile != "cuda"@ && profile != "hip"@ && profile != "vulkan"@ ==> (
            step matches StartupStep::Abort(why) && why@ == "invalid gpu_profile"@)
            &&& !gpu ==> (step matches StartupStep::RunServices { chunk_sizes } && chunk_sizes@
                == if rt.config.compute.use_cpu {
                seq![rt.config.compute.cpu_chunk_size]
            } else {
                seq![]
            })
        }),
{
    reveal_strlit("cuda");
    reveal_strlit("hip");
    reveal_strlit("vulkan");
    reveal_strlit("[gpu] ");
    reveal_strlit("gpu_profile \"");
    reveal_strlit("[gpu] gpu_profile \"");
    assert("cuda"@.len() == 4 && "hip"@.len() == 3 && "vulkan"@.len() == 6);
    let profile = rt.config.compute.gpu_profile@;
    let tail =
        "\" requires a backend not compiled in (rebuild with --features cuda or --features hip or --features vk)"@;
    assert("[gpu] "@ + ("gpu_profile \""@ + profile + tail) =~= "[gpu] gpu_profile \""@ + profile
        + tail);
}

/// Law: a failure names the kind of GPU that did not come up, and then says why.
pub proof fn law_failure_names_the_kind(kind: GpuBackendKind, error: &str, r: String)
    requires
        call_ensures(failure_message, (kind, error), r),
    ensures
        kind == GpuBackendKind::Cuda ==> r@ == "gpu: "@ + error@,
        kind == GpuBackendKind::Hip ==> r@ == "amd: "@ + error@,
        kind == GpuBackendKind::Vulkan ==> r@ == "vk: "@ + error@,
{
}

/// Law: a line of the log monitor gives every figure in full, under its name.
pub proof fn law_tally_names_every_figure(t: Tally, r: String)
    requires
        call_ensures(tally_line, (&t,), r),
    ensures
        r@ == "metrics: rate="@ + t.rate.text(2) + " session="@ + text::decimal(t.session as nat)
            + " lifetime="@ + text::decimal(t.lifetime as nat) + " last_best="@ + text::signed(
            t.last_best as int,
        ) + " session_best="@ + text::signed(t.session_best as int) + " all_best="@ + text::signed(
            t.all_best as int,
        ) + " status="@ + t.status@,
{
}

/// Law: the services run on the backends that came up, in the order of their
/// numbers, the CPU before the GPU.
pub proof fn law_services_run_on_what_came_up(
    rt: ForgeRuntime,
    step: StartupStep,
    backends: Seq<u64>,
)
    requires
        is_services_step(step, backends),
    ensures
        step matches StartupStep::RunServices { chunk_sizes } && chunk_sizes@ == backends,
        rt.config.compute.use_cpu ==> rt.before_gpu() == seq![rt.config.compute.cpu_chunk_size],
        !rt.config.compute.use_cpu ==> rt.before_gpu() == Seq::<u64>::empty(),
{
}

/// Law: after the CPU comes the GPU exactly where one is asked for and its backend
/// was built in. A profile that names no backend ends start-up.
pub proof fn law_gpu_follows_the_cpu(rt: ForgeRuntime)
    ensures
        ({
            let profile = rt.config.compute.gpu_profile@;
            let built = profile == "cuda"@ && rt.features.cuda || profile == "hip"@
                && rt.features.hip || profile == "vulkan"@ && rt.features.vk;
            let named = profile == "cuda"@ || profile == "hip"@ || profile == "vulkan"@;
            let gpu = rt.config.compute.use_gpu;
            &&& rt.stage_after_cpu() == StartupStage::Gpu <==> gpu && built
            &&& rt.stage_after_cpu() == StartupStage::GpuReport <==> gpu && named && !built
            &&& rt.stage_after_cpu() == StartupStage::Aborted <==> gpu && !named
            &&& rt.stage_after_cpu() == StartupStage::Services <==> !gpu
        }),
{
    reveal_strlit("cuda");
    reveal_strlit("hip");
    reveal_strlit("vulkan");
    assert("cuda"@.len() == 4 && "hip"@.len() == 3 && "vulkan"@.len() == 6);
}

} // verus!
