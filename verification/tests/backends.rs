use bogoforge::compute::amd::{
    hip_check, kernel_name, AmdBackend, AmdError, DeviceBuffer, HipEvent, RangeCall, RangeStep, ReleaseCall,
    SetupCall, Stage,
};
use bogoforge::float::Float;
use bogoforge::logging::{default_level, greeting, log_line, LogLevel};
use bogoforge::runtime::{
    failure_message, tally_line, ComputeConfig, Config, Features, ForgeRuntime, GpuBackendKind,
    GpuSettings, LogCall, LogEvent, LogLoop, Startup, StartupEvent, StartupStage, StartupStep, Tally,
};

#[test]
fn hip_codes_are_checked() {
    assert!(hip_check(0, "fine".to_string()).is_ok());
    match hip_check(2, "out of memory".to_string()) {
        Err(e) => assert_eq!(e.message(), "HIP error: out of memory"),
        Ok(()) => panic!("code 2 passed"),
    }
}

#[test]
fn amd_blocks_have_256_threads() {
    match AmdBackend::new(4, 128) {
        Err(e) => {
            assert!(matches!(e, AmdError::ThreadsPerBlock));
            assert_eq!(
                e.message(),
                "kernel.hip hardcodes 256 threads/block; set amd_threads_per_block = 256"
            );
        }
        Ok(_) => panic!("128 threads per block passed"),
    }
}

fn amd() -> AmdBackend {
    match AmdBackend::new(2, 256) {
        Ok(b) => b,
        Err(e) => panic!("{}", e.message()),
    }
}

#[test]
fn amd_devices_are_set_up_and_released() {
    assert_eq!(
        amd().setup_calls(),
        vec![
            SetupCall::Init { flags: 0 },
            SetupCall::SetDevice { device: 0 },
            SetupCall::LoadModule,
            SetupCall::GetKernel,
            SetupCall::CreateStream,
            SetupCall::Malloc { buffer: DeviceBuffer::Best, bytes: 8 },
            SetupCall::Malloc { buffer: DeviceBuffer::Arrays, bytes: 512 * 25 },
            SetupCall::Malloc { buffer: DeviceBuffer::Indices, bytes: 512 * 8 },
        ]
    );
    assert_eq!(
        AmdBackend::release_calls(),
        vec![
            ReleaseCall::Free(DeviceBuffer::Best),
            ReleaseCall::Free(DeviceBuffer::Arrays),
            ReleaseCall::Free(DeviceBuffer::Indices),
            ReleaseCall::DestroyStream,
            ReleaseCall::UnloadModule,
        ]
    );
}

/// Makes the calls that are asked for; call `i` gives `codes[i]`.
fn set_up(b: &AmdBackend, codes: &[i32]) -> (Vec<SetupCall>, Result<(), String>) {
    let mut made = vec![];
    let (mut code, mut described) = (0, String::new());
    loop {
        match b.set_up(made.len(), code, described) {
            Ok(Some(call)) => {
                code = codes[made.len()];
                described = format!("code {code}");
                made.push(call);
            }
            Ok(None) => return (made, Ok(())),
            Err(e) => return (made, Err(e.message())),
        }
    }
}

/// The device is up when every call went well; else the first failure ends it.
#[test]
fn amd_set_up_stops_at_the_first_failure() {
    let b = amd();
    let all = b.setup_calls();
    assert_eq!(set_up(&b, &[0; 8]), (all.clone(), Ok(())));
    for at in 0..8usize {
        let mut codes = [0i32; 8];
        codes[at] = 100 + at as i32;
        codes[7] = if at == 7 { 107 } else { 9 };
        assert_eq!(
            set_up(&b, &codes),
            (all[..=at].to_vec(), Err(format!("HIP error: code {}", 100 + at)))
        );
    }
    assert_eq!(kernel_name(), "bogo_range_kernel");
}

#[test]
fn amd_ranges_report_the_winner() {
    let mut b = amd();
    let (mut run, step) = b.compute_range(42, 100, 200);
    assert!(matches!(step, RangeStep::Call(RangeCall::ResetBest { bytes: 8 })));
    match b.advance(&mut run, HipEvent::Done) {
        RangeStep::Call(RangeCall::Launch { base_seed, lo, hi, blocks, threads }) => {
            assert_eq!((base_seed, lo, hi, blocks, threads), (42, 100, 200, 2, 256));
        }
        _ => panic!("no launch"),
    }
    assert!(matches!(b.advance(&mut run, HipEvent::Done), RangeStep::Call(RangeCall::Synchronize)));
    assert!(matches!(
        b.advance(&mut run, HipEvent::Done),
        RangeStep::Call(RangeCall::ReadBest { bytes: 8 })
    ));
    let winner = 300u64;
    let mut arrays = match b.advance(&mut run, HipEvent::Best(7 << 32 | winner)) {
        RangeStep::Call(RangeCall::ReadArrays { arrays }) => arrays,
        _ => panic!("no boards"),
    };
    assert_eq!(arrays, vec![0u8; 512 * 25]);
    for (i, v) in arrays.iter_mut().enumerate() {
        *v = (i / 25 + i % 25) as u8;
    }
    let mut indices = match b.advance(&mut run, HipEvent::Arrays(arrays)) {
        RangeStep::Call(RangeCall::ReadIndices { indices }) => indices,
        _ => panic!("no indices"),
    };
    assert_eq!(indices, vec![0u64; 512]);
    indices[winner as usize] = 123;
    match b.advance(&mut run, HipEvent::Indices(indices)) {
        RangeStep::Done(r) => {
            assert_eq!((r.lo, r.hi, r.best_correct, r.best_index), (100, 200, 7, 123));
            let expected: [u8; 25] = core::array::from_fn(|i| (300 + i) as u8);
            assert_eq!(r.best_arr, expected);
        }
        _ => panic!("not done"),
    }
    assert_eq!(run.stage, Stage::Finished);
}

#[test]
fn amd_ranges_may_find_nothing() {
    let mut b = amd();
    let (mut run, _) = b.compute_range(1, 5, 9);
    b.advance(&mut run, HipEvent::Done);
    b.advance(&mut run, HipEvent::Done);
    b.advance(&mut run, HipEvent::Done);
    match b.advance(&mut run, HipEvent::Best(0)) {
        RangeStep::Done(r) => {
            assert_eq!((r.lo, r.hi, r.best_correct, r.best_index), (5, 9, -1, 5));
            assert_eq!(r.best_arr, [0u8; 25]);
        }
        _ => panic!("not done"),
    }
}

#[test]
fn amd_ranges_fail_with_their_call() {
    let names = [
        "hipMemset dev_best",
        "hipModuleLaunchKernel",
        "hipStreamSynchronize",
        "D2H dev_best",
    ];
    for (at, name) in names.iter().enumerate() {
        let mut b = amd();
        let (mut run, _) = b.compute_range(1, 5, 9);
        for _ in 0..at {
            b.advance(&mut run, HipEvent::Done);
        }
        let failure = HipEvent::Failed(AmdError::Hip("gone".to_string()));
        match b.advance(&mut run, failure) {
            RangeStep::Fail(why) => assert_eq!(why, format!("{name}: HIP error: gone")),
            _ => panic!("went on"),
        }
    }
    let mut b = amd();
    let (mut run, _) = b.compute_range(1, 5, 9);
    for _ in 0..3 {
        b.advance(&mut run, HipEvent::Done);
    }
    assert!(matches!(b.advance(&mut run, HipEvent::Best(1 << 32 | 512)), RangeStep::Fail(_)));
}

fn runtime(use_cpu: bool, use_gpu: bool, profile: &str) -> ForgeRuntime {
    ForgeRuntime::new(
        Config {
            compute: ComputeConfig {
                use_cpu,
                cpu_threads: 3,
                cpu_chunk_size: 50,
                use_gpu,
                gpu_profile: profile.to_string(),
                gpu_blocks: 4096,
                gpu_chunk_size: 536,
            },
            disable_tui: false,
            report_interval: 1000,
        },
        Features { cuda: false, hip: true, vk: false },
    )
}

fn begin(r: &ForgeRuntime) -> Startup {
    match r.startup() {
        Ok((s, StartupStep::StartTui)) => s,
        other => panic!("{other:?}"),
    }
}

fn sizes(step: StartupStep) -> Vec<u64> {
    match step {
        StartupStep::RunServices { chunk_sizes } => chunk_sizes,
        other => panic!("{other:?}"),
    }
}

fn logged(step: StartupStep) -> String {
    match step {
        StartupStep::LogError(line) => line,
        other => panic!("{other:?}"),
    }
}

#[test]
fn something_must_compute() {
    match runtime(false, false, "hip").startup() {
        Err(why) => assert_eq!(
            why,
            "no compute backend enabled; set use_cpu or use_gpu to true in conf.toml"
        ),
        Ok(_) => panic!("started"),
    }
}

#[test]
fn metrics_are_logged_without_the_interface() {
    let mut r = runtime(true, false, "");
    r.config.disable_tui = true;
    assert!(matches!(r.startup(), Ok((_, StartupStep::StartLogMonitor(1000)))));
}

#[test]
fn cpu_alone_starts() {
    let r = runtime(true, false, "");
    let mut s = begin(&r);
    assert!(matches!(
        r.advance(&mut s, StartupEvent::Done),
        StartupStep::StartCpu { id: 0, threads: 3 }
    ));
    assert_eq!(sizes(r.advance(&mut s, StartupEvent::Done)), vec![50]);
    assert!(matches!(
        r.advance(&mut s, StartupEvent::Cancelled),
        StartupStep::CancelAndWait(500)
    ));
    assert!(matches!(r.advance(&mut s, StartupEvent::Done), StartupStep::JoinMonitor));
    assert!(matches!(r.advance(&mut s, StartupEvent::Done), StartupStep::Finish));
    assert_eq!(s.stage, StartupStage::Finished);
}

#[test]
fn gpus_follow_the_cpu() {
    let r = runtime(true, true, "hip");
    let mut s = begin(&r);
    r.advance(&mut s, StartupEvent::Done);
    match r.advance(&mut s, StartupEvent::Done) {
        StartupStep::StartGpu { id, gpu, millis } => {
            assert_eq!((id, millis), (1, 15_000));
            assert_eq!(
                gpu,
                GpuSettings {
                    kind: GpuBackendKind::Hip,
                    blocks: 4096,
                    threads_per_block: 256,
                    chunk_size: 536
                }
            );
        }
        other => panic!("{other:?}"),
    }
    assert_eq!(sizes(r.advance(&mut s, StartupEvent::GpuReady)), vec![50, 536]);
    assert_eq!(
        logged(r.advance(&mut s, StartupEvent::NetExited(Some("closed".to_string())))),
        "[net] exited with error: closed"
    );
    assert!(matches!(
        r.advance(&mut s, StartupEvent::Done),
        StartupStep::CancelAndWait(500)
    ));
}

#[test]
fn gpus_that_do_not_come_up_are_left_out() {
    let r = runtime(false, true, "hip");
    let mut s = begin(&r);
    assert!(matches!(
        r.advance(&mut s, StartupEvent::Done),
        StartupStep::StartGpu { id: 0, .. }
    ));
    let message = failure_message(GpuBackendKind::Hip, "no device");
    assert_eq!(message, "amd: no device");
    match r.advance(&mut s, StartupEvent::GpuFailed(message)) {
        StartupStep::SetStatus(line) => assert_eq!(line, "amd: no device"),
        other => panic!("{other:?}"),
    }
    assert_eq!(logged(r.advance(&mut s, StartupEvent::Done)), "[gpu] amd: no device");
    assert_eq!(sizes(r.advance(&mut s, StartupEvent::Done)), Vec::<u64>::new());
    assert_eq!(
        logged(r.advance(&mut s, StartupEvent::SchedulerExited(Some("idle".to_string())))),
        "[scheduler] exited with error: idle"
    );

    let mut s = begin(&r);
    r.advance(&mut s, StartupEvent::Done);
    match r.advance(&mut s, StartupEvent::GpuSilent) {
        StartupStep::SetStatus(line) => assert_eq!(line, "gpu init timed out"),
        other => panic!("{other:?}"),
    }
    r.advance(&mut s, StartupEvent::Done);
    assert!(matches!(
        r.advance(&mut s, StartupEvent::SchedulerExited(None)),
        StartupStep::CancelAndWait(500)
    ));
}

#[test]
fn gpus_that_were_not_built_in_are_reported() {
    let r = runtime(true, true, "vulkan");
    let mut s = begin(&r);
    r.advance(&mut s, StartupEvent::Done);
    assert_eq!(
        logged(r.advance(&mut s, StartupEvent::Done)),
        "[gpu] gpu_profile \"vulkan\" requires a backend not compiled in (rebuild with --features cuda or --features hip or --features vk)"
    );
    assert_eq!(sizes(r.advance(&mut s, StartupEvent::Done)), vec![50]);
    assert!(matches!(
        r.advance(&mut s, StartupEvent::NetExited(None)),
        StartupStep::CancelAndWait(500)
    ));
}

#[test]
fn unknown_profiles_abort() {
    for profile in ["", "HIP", "metal"] {
        let r = runtime(false, true, profile);
        let mut s = begin(&r);
        match r.advance(&mut s, StartupEvent::Done) {
            StartupStep::Abort(why) => assert_eq!(why, "invalid gpu_profile"),
            other => panic!("{other:?}"),
        }
        assert_eq!(s.stage, StartupStage::Aborted);
    }
    assert_eq!(failure_message(GpuBackendKind::Cuda, "x"), "gpu: x");
    assert_eq!(failure_message(GpuBackendKind::Vulkan, "x"), "vk: x");
}

#[test]
fn tallies_are_logged() {
    let t = Tally {
        rate: Float { bits: (1.0f64 / 3.0).to_bits() },
        session: 10,
        lifetime: 20,
        last_best: -1,
        session_best: 4,
        all_best: i32::MIN,
        status: "ok".to_string(),
    };
    assert_eq!(
        tally_line(&t),
        "metrics: rate=0.33 session=10 lifetime=20 last_best=-1 session_best=4 all_best=-2147483648 status=ok"
    );
}

#[test]
fn log_monitors_take_turns() {
    let s = LogLoop::start(1000);
    assert_eq!((s.interval, s.call), (1000, LogCall::CheckCancel));
    let t = s.advance(LogEvent::Cancelled(false));
    assert_eq!(t.call, LogCall::Log);
    let t = t.advance(LogEvent::Done);
    assert_eq!(t.call, LogCall::Sleep(1000));
    let t = t.advance(LogEvent::Done);
    assert_eq!(t, s);
    assert_eq!(t.advance(LogEvent::Cancelled(true)).call, LogCall::Finish);
}

#[test]
fn log_lines_have_time_and_level() {
    assert_eq!(default_level(true), LogLevel::Debug);
    assert_eq!(default_level(false), LogLevel::Info);
    assert_eq!(
        log_line("2026-01-02 03:04:05.678", "INFO", "hello"),
        "2026-01-02 03:04:05.678 [INFO] hello"
    );
    assert_eq!(
        greeting(true, false),
        "starting bogoforge (disable_tui=true, kernel_activity=false)"
    );
}
