use mc_keygen::bench::{
    build_features, commit_line, describe_run, expand_modes, gather_git, gather_machine,
    gpu_bench_step, machine_line, match_odds, mode_skip_reason, mode_str, plan_mode, running_line,
    schedule, skip_line, thread_count, uses_gpu, vergen_env, BenchArgs, BenchGit, BenchMode,
    CpuBenchWorker, GpuBenchStep, MachineProbe, ModePlan, SCHEMA_VERSION,
};
use mc_keygen::device::scalar_public_key;
use mc_keygen::prefix::make_matchers;
use mc_keygen::scalar::{advance_scalar, clamp_scalar};

fn strings(texts: &[&str]) -> Vec<String> {
    texts.iter().map(|t| t.to_string()).collect()
}

fn probe() -> MachineProbe {
    MachineProbe {
        host_name: Some("box".to_string()),
        long_os_version: None,
        os_name: Some("Linux".to_string()),
        cpu_brands: strings(&["Ryzen", "Ryzen"]),
        physical_cores: Some(1),
        total_memory: 3 * 1024 * 1024 * 1024 - 1,
    }
}

#[test]
fn all_stands_for_the_single_modes() {
    assert_eq!(
        expand_modes(BenchMode::All),
        vec![BenchMode::Cpu1, BenchMode::CpuN, BenchMode::Gpu, BenchMode::Hybrid]
    );
    assert_eq!(expand_modes(BenchMode::Gpu), vec![BenchMode::Gpu]);
    for mode in expand_modes(BenchMode::All) {
        assert_eq!(expand_modes(mode), vec![mode]);
    }
}

#[test]
fn modes_have_names() {
    assert_eq!(mode_str(BenchMode::Cpu1), "cpu1");
    assert_eq!(mode_str(BenchMode::CpuN), "cpuN");
    assert_eq!(mode_str(BenchMode::Gpu), "gpu");
    assert_eq!(mode_str(BenchMode::Hybrid), "hybrid");
    assert_eq!(mode_str(BenchMode::All), "all");
}

#[test]
fn features_are_listed_in_order() {
    assert!(build_features(false, false).is_empty());
    assert_eq!(build_features(true, false), vec!["cuda"]);
    assert_eq!(build_features(false, true), vec!["metal"]);
    assert_eq!(build_features(true, true), vec!["cuda", "metal"]);
}

#[test]
fn placeholders_of_the_build_say_nothing() {
    assert_eq!(vergen_env(None), None);
    assert_eq!(vergen_env(Some("")), None);
    assert_eq!(vergen_env(Some("VERGEN_IDEMPOTENT_OUTPUT")), None);
    assert_eq!(vergen_env(Some("main")), Some("main".to_string()));
}

#[test]
fn commit_is_gathered() {
    let git = gather_git(Some("0123456789abcdef"), Some("true"), Some("main"));
    assert_eq!(git.sha.as_deref(), Some("0123456789abcdef"));
    assert_eq!(git.dirty, Some(true));
    assert_eq!(git.branch.as_deref(), Some("main"));
    assert_eq!(commit_line(&git), Some("Commit:  0123456789ab (dirty) on main".to_string()));

    let git = gather_git(Some("abc"), Some("false"), None);
    assert_eq!(git.dirty, Some(false));
    assert_eq!(commit_line(&git), Some("Commit:  abc on ?".to_string()));

    let git = gather_git(None, Some(""), Some("VERGEN_IDEMPOTENT_OUTPUT"));
    assert_eq!(git.dirty, None);
    assert_eq!(git.branch, None);
    assert_eq!(commit_line(&git), None);

    let git = BenchGit { sha: Some("exactly12chr".to_string()), dirty: None, branch: None };
    assert_eq!(commit_line(&git), Some("Commit:  exactly12chr on ?".to_string()));
}

#[test]
fn modes_on_a_device_are_skipped_without_a_backend() {
    assert!(uses_gpu(BenchMode::Gpu) && uses_gpu(BenchMode::Hybrid));
    assert!(!uses_gpu(BenchMode::Cpu1) && !uses_gpu(BenchMode::CpuN));
    for devices in [0, 1] {
        for mode in [BenchMode::Gpu, BenchMode::Hybrid] {
            assert_eq!(
                mode_skip_reason(mode, false, devices),
                Some("built without gpu feature")
            );
        }
        assert_eq!(mode_skip_reason(BenchMode::CpuN, false, devices), None);
    }

    let modes = schedule(BenchMode::All, false, 1);
    let run: Vec<BenchMode> =
        modes.iter().filter(|m| m.skip.is_none()).map(|m| m.mode).collect();
    assert_eq!(run, vec![BenchMode::Cpu1, BenchMode::CpuN]);
    assert_eq!(
        skip_line(modes[2].mode, modes[2].skip.unwrap()),
        "Skipping gpu: built without gpu feature"
    );
}

#[test]
fn modes_on_a_device_are_skipped_without_a_device() {
    assert_eq!(mode_skip_reason(BenchMode::Gpu, true, 0), Some("no GPU available"));
    assert_eq!(mode_skip_reason(BenchMode::Hybrid, true, 0), Some("no GPU available"));
    assert_eq!(mode_skip_reason(BenchMode::Cpu1, true, 0), None);
    assert_eq!(mode_skip_reason(BenchMode::CpuN, true, 0), None);
    assert_eq!(mode_skip_reason(BenchMode::Gpu, true, 1), None);
    assert_eq!(mode_skip_reason(BenchMode::Hybrid, true, 2), None);

    let modes = schedule(BenchMode::All, true, 0);
    assert_eq!(modes.len(), 4);
    assert_eq!(skip_line(modes[3].mode, modes[3].skip.unwrap()), "Skipping hybrid: no GPU available");
    assert!(modes[0].skip.is_none() && modes[1].skip.is_none());
    assert!(schedule(BenchMode::All, true, 1).iter().all(|m| m.skip.is_none()));
    for devices in [0, 1] {
        for scheduled in schedule(BenchMode::All, true, devices) {
            let plan = plan_mode(scheduled.mode, 8, devices);
            assert_eq!(plan.is_some(), scheduled.skip.is_none());
        }
    }
}

#[test]
fn modes_are_planned() {
    assert!(plan_mode(BenchMode::Cpu1, 8, 1) == Some(ModePlan { threads: 1, on_gpus: false }));
    assert!(plan_mode(BenchMode::CpuN, 8, 1) == Some(ModePlan { threads: 8, on_gpus: false }));
    assert!(plan_mode(BenchMode::Gpu, 8, 1) == Some(ModePlan { threads: 0, on_gpus: true }));
    assert!(plan_mode(BenchMode::Hybrid, 8, 1) == Some(ModePlan { threads: 8, on_gpus: true }));
    assert!(plan_mode(BenchMode::Gpu, 8, 0).is_none());
    assert!(plan_mode(BenchMode::Hybrid, 8, 0).is_none());
}

#[test]
fn threads_default_to_the_machine() {
    assert_eq!(thread_count(Some(3), Some(16)), 3);
    assert_eq!(thread_count(None, Some(16)), 16);
    assert_eq!(thread_count(None, None), 1);
}

#[test]
fn odds_go_by_the_shortest_prefixes() {
    assert_eq!(match_odds(&strings(&["ABC"])), (3, 1));
    assert_eq!(match_odds(&strings(&["ABC", "DE", "FA"])), (2, 2));
    assert_eq!(match_odds(&[]), (1, 0));
}

#[test]
fn run_is_described() {
    let plan = plan_mode(BenchMode::Hybrid, 8, 2).unwrap();
    let config = describe_run(
        BenchMode::Hybrid,
        plan,
        2,
        strings(&["ABC"]),
        10,
        build_features(true, false),
    );
    assert_eq!(config.mode, "hybrid");
    assert_eq!(config.threads, 8);
    assert_eq!(config.gpus_used, 2);
    assert_eq!(config.prefixes, strings(&["ABC"]));
    assert_eq!(config.duration_secs, 10);
    assert_eq!(config.build_features, vec!["cuda"]);
    let plan = plan_mode(BenchMode::Cpu1, 8, 2).unwrap();
    let config = describe_run(BenchMode::Cpu1, plan, 2, Vec::new(), 1, Vec::new());
    assert_eq!(config.gpus_used, 0);
    assert_eq!(SCHEMA_VERSION, 1);
}

#[test]
fn run_is_announced() {
    assert_eq!(
        running_line(BenchMode::CpuN, 10, &strings(&["ABC", "DE"])),
        format!(
            "Running bench: mode=cpuN duration=10s prefixes={:?}",
            strings(&["ABC", "DE"])
        )
    );
    assert_eq!(
        running_line(BenchMode::Cpu1, 0, &[]),
        "Running bench: mode=cpu1 duration=0s prefixes=[]"
    );
}

#[test]
fn machine_is_described() {
    let machine = gather_machine(None, probe());
    assert_eq!(machine.hostname, "box");
    assert_eq!(machine.os, "Linux");
    assert_eq!(machine.cpu_model, "Ryzen");
    assert_eq!(machine.cpu_logical_cores, 2);
    assert_eq!(machine.cpu_physical_cores, Some(1));
    assert_eq!(machine.memory_gb, 2);
    assert!(machine.gpus.is_empty());
    assert_eq!(
        machine_line(&machine),
        "Machine: box (Ryzen, 2 logical / Some(1) physical cores, 2 GB RAM)"
    );

    let bare = MachineProbe {
        host_name: None,
        long_os_version: None,
        os_name: None,
        cpu_brands: Vec::new(),
        physical_cores: None,
        total_memory: 0,
    };
    let machine = gather_machine(Some("M4 Max MBP".to_string()), bare);
    assert_eq!(machine.hostname, "unknown");
    assert_eq!(machine.os, "unknown");
    assert_eq!(machine.cpu_model, "unknown");
    assert_eq!(
        machine_line(&machine),
        "Machine: M4 Max MBP (unknown, 0 logical / None physical cores, 0 GB RAM)"
    );
    let mut long = probe();
    long.long_os_version = Some("Linux 6".to_string());
    assert_eq!(gather_machine(None, long).os, "Linux 6");
}

#[test]
fn worker_counts_every_match() {
    let matchers = make_matchers(&strings(&["A", "7"]));
    let mut start = [0x42u8; 32];
    clamp_scalar(&mut start);
    let mut worker = CpuBenchWorker::new(&start);
    let mut keys = 0u64;
    let mut matches = 0u64;
    for _ in 0..70 {
        if let Some((k, m)) = worker.step(&matchers) {
            assert_eq!(k, 1024);
            keys += k;
            matches += m;
        }
    }
    let (k, m) = worker.finish();
    assert_eq!(k, 6 * 16);
    assert_eq!(keys + k, 70 * 16);

    let mut expected = 0u64;
    let mut scalar = start;
    for _ in 0..70 * 16 {
        let first = scalar_public_key(&scalar)[0];
        if first >> 4 == 0xA || first >> 4 == 7 {
            expected += 1;
        }
        advance_scalar(&mut scalar, 8);
    }
    assert_eq!(matches + m, expected);
    assert!(expected > 0);
}

#[test]
fn device_worker_counts_or_stops() {
    match gpu_bench_step(Ok((100, 7)), "GPU") {
        GpuBenchStep::Count { keys, matches } => assert_eq!((keys, matches), (100, 7)),
        GpuBenchStep::Stop { .. } => unreachable!(),
    }
    match gpu_bench_step(Err("lost".to_string()), "CUDA GPU (RTX)") {
        GpuBenchStep::Stop { message } => {
            assert_eq!(message, "GPU error during bench (CUDA GPU (RTX)): lost")
        }
        GpuBenchStep::Count { .. } => unreachable!(),
    }
}

#[test]
fn arguments_are_plain_values() {
    let args = BenchArgs {
        duration: 10,
        mode: BenchMode::All,
        threads: None,
        prefix: strings(&["abc"]),
        out: Some("records.jsonl".into()),
        machine_label: None,
    };
    assert_eq!(args.out.unwrap().to_string_lossy(), "records.jsonl");
    assert_eq!(args.mode, BenchMode::All);
}

#[test]
fn draw_decides_whether_there_is_a_worker() {
    assert!(CpuBenchWorker::from_draw(None).is_none());
    let matchers = make_matchers(&strings(&["A", "7"]));
    let mut start = [0x42u8; 32];
    clamp_scalar(&mut start);
    let mut drawn = CpuBenchWorker::from_draw(Some(start)).unwrap();
    let mut direct = CpuBenchWorker::new(&start);
    for _ in 0..5 {
        drawn.step(&matchers);
        direct.step(&matchers);
    }
    assert_eq!(drawn.finish(), direct.finish());
    assert_eq!(drawn.finish().0, 80);
    assert!(CpuBenchWorker::from_os().is_some());
}
