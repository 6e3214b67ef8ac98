//! States from what programs, files and servers say.

use polybar_modules::bytes::ProgramOutput;
use polybar_modules::backoff::{delay_from, Backoff, Delay};
use polybar_modules::double::Double;
use polybar_modules::polybar_module::arch_updates::{
    ArchUpdatesModule, ArchUpdatesModuleState, AuditFailed,
};
use polybar_modules::polybar_module::autolock::AutolockModule;
use polybar_modules::polybar_module::battery_mouse::{BatteryMouseModule, BatteryMouseModuleState};
use polybar_modules::polybar_module::cpu_freq::{CpuFreqError, CpuFreqModule, CpuFreqModuleState};
use polybar_modules::polybar_module::cpu_top::{
    path_file_name, CpuTopError, CpuTopModule, CpuTopModuleState, ProcessInfo,
};
use polybar_modules::polybar_module::debian_updates::{
    DebianUpdatesError, DebianUpdatesModule, DebianUpdatesModuleState,
};
use polybar_modules::polybar_module::gpu_nvidia::{
    GpuNvidiaError, GpuNvidiaModule, GpuNvidiaModuleState,
};
use polybar_modules::polybar_module::internet_bandwidth::{
    InternetBandwidthModule, InternetBandwidthModuleState,
};
use polybar_modules::polybar_module::market::{can_parse, clean_number, MarketModule, MarketValue};
use polybar_modules::polybar_module::notifications::NotificationsModule;
use polybar_modules::polybar_module::player::{PlayerModule, PlayerModuleState};
use polybar_modules::polybar_module::taskwarrior::{
    TaskwarriorError, TaskwarriorModule, TaskwarriorModuleState,
};
use polybar_modules::polybar_module::todotxt::{
    InvalidTask, Task, TodoTxtError, TodoTxtModule, TodoTxtModuleState, TodoTxtWait,
};
use polybar_modules::polybar_module::weather::{weather_icon, UnknownWeatherCode, WeatherModule};
use polybar_modules::polybar_module::wttr::{WttrError, WttrModule, WttrModuleState};
use polybar_modules::theme::can_shorten_model_name;
use polybar_modules::polybar_module::xmonad::{PipePlan, XmonadModule, XmonadModuleState};
use polybar_modules::polybar_module::{
    join_path, should_render, NetworkMode, PolybarModuleEnv, RenderablePolybarModule, RuntimeMode, WaitStep,
};

fn env() -> PolybarModuleEnv {
    PolybarModuleEnv::new("/home/user/.local/share", "/run/user/1000/public_screen")
}

fn double(x: f64) -> Double {
    Double::from_bits(x.to_bits())
}

fn output(success: bool, stdout: &str) -> ProgramOutput {
    ProgramOutput {
        success,
        stdout: stdout.as_bytes().to_vec(),
    }
}

fn texts(v: &[&str]) -> Vec<String> {
    v.iter().map(|s| (*s).to_owned()).collect()
}

// Environment and delays

#[test]
fn environment_follows_its_files() {
    let env = env();
    assert_eq!(env.low_bw_filepath, "/home/user/.local/share/low_internet_bandwidth");
    assert_eq!(env.get_runtime_mode(true), RuntimeMode::LowNetworkBandwith);
    assert_eq!(env.get_runtime_mode(false), RuntimeMode::Unrestricted);
    assert_eq!(env.network_mode(true), NetworkMode::LowBandwith);
    assert_eq!(env.network_mode(false), NetworkMode::Unrestricted);
    assert_eq!(
        env.wait_runtime_mode(RuntimeMode::Unrestricted, true, false),
        WaitStep::Wait
    );
    assert_eq!(
        env.wait_runtime_mode(RuntimeMode::Unrestricted, false, true),
        WaitStep::Done(true)
    );
    assert_eq!(
        env.wait_network_mode(NetworkMode::LowBandwith, true, false),
        WaitStep::Done(false)
    );
    assert_eq!(
        env.wait_network_mode(NetworkMode::LowBandwith, false, true),
        WaitStep::Wait
    );
    assert_eq!(env.wait_public_screen(false, true, false), WaitStep::Wait);
    assert_eq!(env.wait_public_screen(true, true, true), WaitStep::Done(true));
    assert_eq!(join_path("", "a"), "a");
    assert_eq!(join_path("/", "a"), "/a");
    assert_eq!(join_path("/b", "a"), "/b/a");
}

#[test]
fn delays_grow_after_failures() {
    let mut module = ArchUpdatesModule::new(env());
    assert_eq!(module.wait_update(None), Delay::NoWait);
    assert_eq!(module.wait_update(Some(true)), Delay::Nanos(10_800_000_000_000));
    let minute = 60_000_000_000;
    assert!(matches!(module.wait_update(Some(false)), Delay::Nanos(n) if n >= 15 * minute && n < 30 * minute));
    assert!(matches!(module.wait_update(Some(false)), Delay::Nanos(n) if n >= 45 * minute && n < 90 * minute));
    for _ in 0..5 {
        module.wait_update(Some(false));
    }
    assert!(matches!(module.wait_update(Some(false)), Delay::Nanos(n) if n >= 360 * minute && n < 720 * minute));
    module.wait_update(Some(true));
    assert!(matches!(module.wait_update(Some(false)), Delay::Nanos(n) if n < 30 * minute));

    let mut module = WttrModule::new(None, env());
    assert_eq!(module.wait_update(Some(true)), Delay::Nanos(5 * minute));
    assert!(matches!(module.wait_update(Some(false)), Delay::Nanos(n) if n >= 3_000_000_000 && n < 6_000_000_000));
    let mut module = WeatherModule::new("1", "2", env());
    assert_eq!(module.wait_update(Some(true)), Delay::Nanos(5 * minute));
    let mut module = MarketModule::new(env());
    assert_eq!(module.wait_update(Some(true)), Delay::Nanos(30 * minute));

    let mut bounded = Backoff::bounded(100, 1000, 5);
    let ms = 1_000_000;
    let delays = [
        bounded.next(),
        bounded.next(),
        bounded.next(),
        bounded.next(),
        bounded.next(),
    ];
    assert_eq!(delays[0], Some(100 * ms));
    for i in 0..3 {
        // Doubled, up to the rounding of single precision numbers
        let (last, next) = (delays[i].unwrap(), delays[i + 1].unwrap());
        assert!(next.abs_diff(2 * last) <= last / 2000);
    }
    assert!(delays[3].unwrap() > delays[2].unwrap());
    assert_eq!(delays[4], Some(1000 * ms));
    assert_eq!(bounded.next(), None);
    assert_eq!(bounded.delay_after(Some(false), 0), Delay::Exhausted);
    bounded.reset();
    assert_eq!(bounded.next(), Some(100 * ms));
    assert_eq!(delay_from(Some(3)), Delay::Nanos(3));
}

#[test]
fn only_changes_are_rendered() {
    assert!(should_render(true, false));
    assert!(should_render(false, false));
    assert!(!should_render(false, true));
}

// Updates

#[test]
fn arch_updates_are_counted() {
    let checkupdates = "linux 6.1 -> 6.2\nfirefox 1 -> 2\nvim 8 -> 9\n";
    let audit = output(true, "firefox\nopenssl\nvim\n");
    assert!(ArchUpdatesModule::needs_audit(checkupdates.as_bytes()));
    assert!(!ArchUpdatesModule::needs_audit(b""));
    assert_eq!(
        ArchUpdatesModule::try_update(checkupdates.as_bytes(), &audit, b"a 1 -> 2\nb 1 -> 2\n"),
        Ok(ArchUpdatesModuleState {
            repo_update_count: 3,
            repo_security_update_count: 2,
            aur_update_count: 2,
        })
    );
    assert_eq!(
        ArchUpdatesModule::try_update(b"", &output(false, ""), b""),
        Ok(ArchUpdatesModuleState {
            repo_update_count: 0,
            repo_security_update_count: 0,
            aur_update_count: 0,
        })
    );
    assert_eq!(
        ArchUpdatesModule::try_update(checkupdates.as_bytes(), &output(false, ""), b""),
        Err(AuditFailed)
    );
    assert_eq!(
        ArchUpdatesModule::audit_args("/cache/db"),
        texts(&["-u", "-b", "/cache/db", "-f", "%n"])
    );
    // Bytes that are no text do not stop the count
    assert_eq!(
        ArchUpdatesModule::try_update(b"\xff 1 -> 2\n", &output(true, "\u{fffd}\n"), b"").unwrap(),
        ArchUpdatesModuleState {
            repo_update_count: 1,
            repo_security_update_count: 1,
            aur_update_count: 0,
        }
    );
}

#[test]
fn debian_updates_are_counted() {
    let module = DebianUpdatesModule::new(env(), &output(true, "bookworm\n")).unwrap();
    assert_eq!(
        module.debsecan_args(),
        texts(&["--only-fixed", "--suite=bookworm", "--format=packages"])
    );
    assert!(matches!(
        DebianUpdatesModule::new(env(), &output(false, "")),
        Err(DebianUpdatesError::Release)
    ));
    let apt = output(
        true,
        "Listing...\nvim/stable 2:9 amd64 [upgradable from: 2:8]\ncurl/stable 7 amd64 [upgradable from: 6]\n",
    );
    assert!(DebianUpdatesModule::needs_debsecan(&apt));
    assert!(!DebianUpdatesModule::needs_debsecan(&output(true, "Listing...\n")));
    assert_eq!(
        DebianUpdatesModule::try_update(&apt, &output(true, "curl\nopenssl\n")),
        Ok(DebianUpdatesModuleState {
            update_count: 2,
            security_update_count: 1,
        })
    );
    assert_eq!(
        DebianUpdatesModule::try_update(&output(false, ""), &output(true, "")),
        Err(DebianUpdatesError::Apt)
    );
    assert_eq!(
        DebianUpdatesModule::try_update(&apt, &output(false, "")),
        Err(DebianUpdatesError::Debsecan)
    );
}

#[test]
fn switches_follow_their_programs() {
    assert!(AutolockModule::new().update(true).enabled);
    assert!(!AutolockModule::new().update(false).enabled);
    assert!(NotificationsModule::new().update(Some(false)).enabled);
    assert!(!NotificationsModule::new().update(Some(true)).enabled);
    assert!(!NotificationsModule::new().update(None).enabled);
    let module = InternetBandwidthModule::new(env());
    let low = InternetBandwidthModuleState {
        mode: NetworkMode::LowBandwith,
    };
    assert_eq!(module.update(true), low);
    assert_eq!(module.wait_update(None, true, false), WaitStep::Done(false));
    assert_eq!(module.wait_update(Some(low), true, false), WaitStep::Wait);
    assert_eq!(module.wait_update(Some(low), false, true), WaitStep::Done(true));
}

#[test]
fn mice_are_read() {
    for (level, prct) in [
        ("Full", Some(100)),
        ("High", Some(80)),
        ("Normal", Some(60)),
        ("Low", Some(30)),
        ("Critical", Some(10)),
        ("Unknown", None),
    ] {
        assert!(BatteryMouseModule::is_known_level(level));
        assert_eq!(BatteryMouseModule::sysfs_capacity_level_to_prct(level), prct);
    }
    assert!(!BatteryMouseModule::is_known_level("Empty"));
    let name = Some("G604 Wireless Gaming Mouse\n");
    assert_eq!(
        BatteryMouseModule::read_mouse(Some("57\n"), None, name),
        Some(("G604".to_owned(), Some(57)))
    );
    assert_eq!(
        BatteryMouseModule::read_mouse(None, Some("Low\n"), name),
        Some(("G604".to_owned(), Some(30)))
    );
    assert_eq!(
        BatteryMouseModule::read_mouse(None, Some("Unknown\n"), name),
        Some(("G604".to_owned(), None))
    );
    assert_eq!(BatteryMouseModule::read_mouse(Some("256"), None, name), None);
    assert_eq!(BatteryMouseModule::read_mouse(None, None, name), None);
    assert_eq!(BatteryMouseModule::read_mouse(Some("5"), None, None), None);
    // The name does not matter where the level is not known
    assert!(!can_shorten_model_name("éé"));
    assert_eq!(BatteryMouseModule::read_mouse(Some("much"), None, Some("éé")), None);
    assert_eq!(BatteryMouseModule::read_level(Some("57\n"), None), Some(Some(57)));
    assert_eq!(BatteryMouseModule::read_level(None, Some("Unknown\n")), Some(None));
    assert_eq!(BatteryMouseModule::read_level(Some("much"), Some("Full")), None);
    let empty = BatteryMouseModuleState { levels: vec![] };
    assert_eq!(BatteryMouseModule::new().render(&empty), "");
}

#[test]
fn frequencies_are_averaged() {
    let module = CpuFreqModule::new(
        &texts(&["800000\n", "400000\n"]),
        &texts(&["4000000\n", "4500000\n"]),
    )
    .unwrap();
    assert_eq!(module.freq_range, (400_000, 4_500_000));
    assert!(matches!(CpuFreqModule::new(&vec![], &vec![]), Err(CpuFreqError::NoCore)));
    assert!(matches!(
        CpuFreqModule::new(&texts(&["x"]), &texts(&["1"])),
        Err(CpuFreqError::Number)
    ));
    let files = texts(&["1000000\n", "2000001\n"]);
    assert!(module.can_update(&files));
    assert_eq!(
        module.try_update(&files),
        Ok(CpuFreqModuleState {
            min_freq: 1_000_000,
            max_freq: 2_000_001,
            avg_freq: 1_500_000,
        })
    );
    assert_eq!(module.try_update(&vec![]), Err(CpuFreqError::NoCore));
    assert_eq!(module.try_update(&texts(&["-1"])), Err(CpuFreqError::Number));
    assert!(!module.can_update(&texts(&["4294967295", "1"])));
    let below = Some(CpuFreqModuleState {
        min_freq: 1,
        max_freq: 1,
        avg_freq: 1,
    });
    assert!(!module.can_render(&below));
}

#[test]
fn test_resolve_process_name() {
    let resolve = |kernel_thread, exe: Option<&str>, args: &[&str], name: &str| {
        CpuTopModule::resolve_process_name(
            kernel_thread,
            &exe.map(|e| e.as_bytes().to_vec()),
            &args.iter().map(|a| a.as_bytes().to_vec()).collect(),
            &name.as_bytes().to_vec(),
        )
    };
    // exe basename wins over the command and the name
    assert_eq!(
        resolve(
            false,
            Some("/usr/lib/firefox/firefox"),
            &["/usr/bin/from-command"],
            "from-name"
        )
        .unwrap(),
        "firefox"
    );
    // exe unavailable: fall back to the command basename over the name
    assert_eq!(
        resolve(
            false,
            None,
            &["/usr/bin/polybar-modules", "network-status"],
            "from-name"
        )
        .unwrap(),
        "polybar-modules"
    );
    // empty exe path is treated as unavailable
    assert_eq!(
        resolve(false, Some(""), &["/usr/lib/Xorg", ":0"], "from-name").unwrap(),
        "Xorg"
    );
    // kernel thread: identified by thread kind, not by empty exe/cmd
    assert_eq!(resolve(true, None, &[], "kworker/0:1").unwrap(), "[kthread]");
    // userland process with neither exe nor command line: fall back to the name
    assert_eq!(resolve(false, None, &[], "mystery").unwrap(), "mystery");
    // no usable identity: unresolved
    assert_eq!(resolve(false, None, &[], ""), None);
}

#[test]
fn test_resolve_non_utf8_process_name() {
    assert_eq!(
        CpuTopModule::resolve_process_name(false, &None, &vec![], &b"process-\xff".to_vec()),
        Some("process-\u{fffd}".to_owned())
    );
}

#[test]
fn file_names_are_those_of_paths() {
    for path in [
        "", "/", "a", "/a", "a/", "/a/b", "/a/b/", "a//b//", ".", "..", "/..", "a/.", "a/..", "./a",
        "a/./", "a/b/.", "a/b/./.", "...", "/a/...", "//", "./", "a/../b", " ",
    ] {
        let expected = std::path::Path::new(path)
            .file_name()
            .map(|n| n.to_str().unwrap().as_bytes().to_vec());
        assert_eq!(path_file_name(&path.as_bytes().to_vec()), expected);
    }
}

fn process(pid: u32, name: &str, cpu_usage: f64) -> ProcessInfo {
    ProcessInfo {
        pid,
        kernel_thread: false,
        exe: None,
        cmd: vec![],
        name: name.as_bytes().to_vec(),
        cpu_usage: double(cpu_usage),
    }
}

#[test]
fn the_busiest_process_is_shown() {
    let module = CpuTopModule::new(Some(10));
    let processes = vec![
        process(1, "init", 0.5),
        process(2, "sampler", 300.0),
        process(3, "busy", 41.5),
        process(4, "idle", 0.0),
    ];
    assert_eq!(
        module.try_update(&processes, 2),
        Ok(CpuTopModuleState {
            cpu_prct: 42,
            process_name: "busy".to_owned(),
        })
    );
    assert_eq!(module.try_update(&processes, 9).unwrap().cpu_prct, 99);
    assert_eq!(module.try_update(&vec![], 2), Err(CpuTopError::NoProcess));
    assert_eq!(
        module.try_update(&vec![process(2, "sampler", 300.0)], 2),
        Err(CpuTopError::NoProcess)
    );
    assert_eq!(
        module.try_update(&vec![process(3, "", 1.0)], 2),
        Err(CpuTopError::NoName)
    );
    let state = |cpu_prct| {
        Some(CpuTopModuleState {
            cpu_prct,
            process_name: "busy".to_owned(),
        })
    };
    assert_eq!(module.wait_update(None), 0);
    assert_eq!(module.wait_update(Some(&state(31))), 1);
    assert_eq!(module.wait_update(Some(&state(30))), 3);
    assert_eq!(module.wait_update(Some(&None)), 3);
    assert!(!CpuTopModule::new(Some(3)).can_render(&state(30)));
}

#[test]
fn gpu_figures_are_read() {
    let module = GpuNvidiaModule::new();
    let out = output(true, "200, 4000, 600, 800, Active, 40, 20.61\n");
    assert_eq!(GpuNvidiaModule::power_field(&out), Some("20.61".to_owned()));
    assert_eq!(
        module.try_update(&out, Some(double(f64::from(20.61_f32)))),
        Ok(GpuNvidiaModuleState {
            mem_used: 200,
            mem_total: 4000,
            freq_graphics: 600,
            freq_mem: 800,
            throttle: true,
            temp: 40,
            power_draw: 20,
        })
    );
    assert_eq!(module.try_update(&output(false, ""), None), Err(GpuNvidiaError::ExitStatus));
    assert_eq!(module.try_update(&output(true, "200, 4000"), None), Err(GpuNvidiaError::Missing));
    assert_eq!(
        module.try_update(&output(true, "[N/A], 4000, 1, 2, x, 3, 4"), Some(double(4.0))),
        Err(GpuNvidiaError::Number)
    );
    assert_eq!(module.try_update(&out, None), Err(GpuNvidiaError::Number));
    // More than a number can hold is cut
    let state = module.try_update(&out, Some(double(1e9))).unwrap();
    assert_eq!(state.power_draw, 65535);
    for (prct, expected) in [
        (0, "%{F#859900}▁%{F-}"),
        (12, "%{F#859900}▁%{F-}"),
        (13, "%{F#859900}▂%{F-}"),
        (96, "%{F#dc322f}█%{F-}"),
        (100, "%{F#dc322f}█%{F-}"),
    ] {
        assert_eq!(GpuNvidiaModule::ramp_prct(prct), expected);
    }
}

#[test]
fn market_values_are_found() {
    let page = "<html><body><div class=\"l-quotepage__header\"><div class=\"c-faceplate__price\">\
        <span>7 123,45</span><span>pts</span></div><div class=\"c-faceplate__fluctuation\">\
        <span class=\"c-instrument--variation\"> -1,25 %</span></div></div></body></html>";
    assert_eq!(
        MarketModule::extract_number(page, MarketValue::Value),
        Some("7123.45".to_owned())
    );
    assert_eq!(
        MarketModule::extract_number(page, MarketValue::Delta),
        Some("-1.25".to_owned())
    );
    assert_eq!(MarketModule::extract_number(page, MarketValue::Ma50), None);
    assert!(can_parse(page));
    assert_eq!(clean_number("1\u{a0}2\u{202f}3,4 %"), "123.4");
    assert_eq!(clean_number("%%"), "%");
}

#[test]
fn markets_are_closed_at_weekends() {
    for day in 0..5 {
        assert_eq!(MarketModule::wait_working_day(day, false), WaitStep::Done(false));
    }
    assert_eq!(MarketModule::wait_working_day(5, false), WaitStep::Wait);
    assert_eq!(MarketModule::wait_working_day(6, true), WaitStep::Wait);
    assert!(MarketModule::needs_working_day(Some(true)));
    assert!(!MarketModule::needs_working_day(Some(false)));
    assert!(!MarketModule::needs_working_day(None));
    assert!(MarketModule::waits_are_over(false, false));
    assert!(!MarketModule::waits_are_over(true, false));
    assert!(!MarketModule::waits_are_over(false, true));
}

fn player_state(player: &str, status: &str) -> PlayerModuleState {
    PlayerModuleState {
        player: player.to_owned(),
        status: status.to_owned(),
        artist: "artist".to_owned(),
        album: "album".to_owned(),
        title: "title".to_owned(),
    }
}

#[test]
fn players_are_shown_as_far_as_they_fit() {
    let module = PlayerModule::new(1000);
    assert_eq!(module.update(""), None);
    assert_eq!(
        module.update("mpv│Playing│artist│album│title│more"),
        Some(player_state("mpv", "Playing"))
    );
    assert!(!module.can_update("mpv│Playing"));
    assert!(module.can_update(""));
    let whole = module.render(&Some(player_state("vlc", "Weird")));
    assert!(whole.contains("vlc Weird"));
    assert!(whole.ends_with("title"));
    let less = PlayerModule::new(whole.len() - 1).render(&Some(player_state("vlc", "Weird")));
    assert_eq!(less, whole.replace("vlc ", ""));
    let lesser = PlayerModule::new(less.len() - 1).render(&Some(player_state("vlc", "Weird")));
    assert!(!lesser.contains("album"));
    assert!(lesser.contains("artist"));
    let least = PlayerModule::new(lesser.len() - 1).render(&Some(player_state("vlc", "Weird")));
    assert!(least.ends_with(" Weird title"));
    let cut = PlayerModule::new(least.len() - 1).render(&Some(player_state("vlc", "Weird")));
    assert!(cut.ends_with('…'));
    assert!(cut.chars().count() < least.len());
    assert_eq!(module.render(&None), "");
}

#[test]
fn tasks_are_counted() {
    let module = TaskwarriorModule::from_data_location(
        None,
        &output(true, "Config Variable Value\n------\ndata.location   /home/user/.task\n"),
    )
    .unwrap();
    assert_eq!(module.data_dir, "/home/user/.task");
    assert_eq!(
        module.data_files(),
        texts(&["/home/user/.task/completed.data", "/home/user/.task/pending.data"])
    );
    let tilde = TaskwarriorModule::from_data_location(None, &output(true, "data.location ~\n"))
        .unwrap();
    assert_eq!(tilde.data_dir, shellexpand::tilde("~"));
    assert!(matches!(
        TaskwarriorModule::from_data_location(None, &output(false, "")),
        Err(TaskwarriorError::ExitStatus)
    ));
    assert!(matches!(
        TaskwarriorModule::from_data_location(None, &output(true, "")),
        Err(TaskwarriorError::DataLocation)
    ));
    let count = output(true, "12\n");
    let next = output(true, "8.5 write a letter\n");
    let project = output(true, "home\n");
    let urgency = Some(double(8.5));
    let state = module.try_update(&count, &next, urgency, &project, 7).unwrap();
    assert_eq!(
        state,
        TaskwarriorModuleState {
            pending_count: 12,
            next_task: "write a letter".to_owned(),
            next_task_project: Some("home".to_owned()),
            next_task_urgency: double(8.5),
            last_fs_change: 7,
        }
    );
    assert!(!module.is_stale(&state, 7));
    assert!(module.is_stale(&state, 8));
    let no_project = module.try_update(&count, &next, urgency, &output(true, "\n"), 7).unwrap();
    assert_eq!(no_project.next_task_project, None);
    assert_eq!(
        module.try_update(&output(true, "x"), &next, urgency, &project, 7),
        Err(TaskwarriorError::Count)
    );
    assert_eq!(
        module.try_update(&count, &next, None, &project, 7),
        Err(TaskwarriorError::Urgency)
    );
    assert_eq!(
        module.try_update(&count, &output(true, "8.5"), urgency, &project, 7),
        Err(TaskwarriorError::Task)
    );
    assert_eq!(
        module.try_update(&count, &next, urgency, &output(false, ""), 7),
        Err(TaskwarriorError::ExitStatus)
    );
    assert_eq!(module.get_max_task_data_file_mtime(Some(3), Some(5)), 5);
    assert_eq!(module.get_max_task_data_file_mtime(Some(3), None), 3);
    assert!(TaskwarriorModule::can_ellipsis("éé", Some(10)));
    assert!(!TaskwarriorModule::can_ellipsis("éé", Some(2)));
}

#[test]
fn task_lines_keep_to_their_length() {
    let module = TaskwarriorModule::new(Some(20), "/home/user/.task");
    let state = Some(TaskwarriorModuleState {
        pending_count: 10,
        next_task: "a rather long task".to_owned(),
        next_task_project: Some("project".to_owned()),
        next_task_urgency: double(1.5),
        last_fs_change: 7,
    });
    assert!(module.can_render(&state));
    assert_eq!(
        module.render(&state),
        "%{F#eee8d5}\u{e938}%{F-} 10 [pro…] a rather …"
    );
    assert!(!TaskwarriorModule::new(Some(4), "/home/user/.task").can_render(&state));

    let module = TodoTxtModule::new(Some(10), "/home/user/todo.txt", env());
    let state = Some(TodoTxtModuleState::Active {
        pending_count: 10,
        next_task: Some(Task {
            priority: None,
            text: "a long task".to_owned(),
        }),
        last_fs_change: None,
    });
    assert!(module.can_render(&state));
    assert!(module.render(&state).ends_with(":}10 a long…%{A}"));
    assert!(!TodoTxtModule::new(Some(2), "/home/user/todo.txt", env()).can_render(&state));
}

#[test]
fn todo_lines_are_tasks() {
    assert_eq!(
        Task::from_str("(A) call"),
        Ok(Task {
            priority: Some('A'),
            text: "call".to_owned(),
        })
    );
    assert_eq!(
        Task::from_str("call (A) back"),
        Ok(Task {
            priority: None,
            text: "call (A) back".to_owned(),
        })
    );
    assert_eq!(
        Task::from_str("(AB) call"),
        Ok(Task {
            priority: None,
            text: "(AB) call".to_owned(),
        })
    );
    assert_eq!(
        Task::from_str("(é) "),
        Ok(Task {
            priority: Some('é'),
            text: String::new(),
        })
    );
    assert_eq!(Task::from_str("one\ntwo"), Err(InvalidTask));
    let module = TodoTxtModule::new(None, "/home/user/todo.txt", env());
    let next = output(true, "(B) call\n");
    let count = output(true, "3\n");
    assert_eq!(
        module.try_update(true, None, &output(false, ""), &output(false, "")),
        Ok(TodoTxtModuleState::Paused)
    );
    let active = module.try_update(false, Some(5), &next, &count).unwrap();
    assert_eq!(
        active,
        TodoTxtModuleState::Active {
            pending_count: 3,
            next_task: Some(Task {
                priority: Some('B'),
                text: "call".to_owned(),
            }),
            last_fs_change: Some(5),
        }
    );
    assert_eq!(
        module.try_update(false, None, &output(true, "\n"), &count),
        Ok(TodoTxtModuleState::Active {
            pending_count: 3,
            next_task: None,
            last_fs_change: None,
        })
    );
    assert_eq!(
        module.try_update(false, None, &output(false, ""), &count),
        Err(TodoTxtError::ExitStatus)
    );
    let invalid = ProgramOutput {
        success: true,
        stdout: b"\xff".to_vec(),
    };
    assert_eq!(
        module.try_update(false, None, &invalid, &count),
        Err(TodoTxtError::Encoding)
    );
    assert_eq!(
        module.try_update(false, None, &output(true, "one\ntwo"), &count),
        Err(TodoTxtError::Task)
    );
    assert_eq!(
        module.try_update(false, None, &next, &output(true, "many")),
        Err(TodoTxtError::Count)
    );
    assert_eq!(module.wait_update(None, false, None), TodoTxtWait::Update);
    assert_eq!(module.wait_update(Some(&None), false, None), TodoTxtWait::Sleep(1));
    let active = Some(active);
    assert_eq!(module.wait_update(Some(&active), false, Some(5)), TodoTxtWait::Event);
    assert_eq!(module.wait_update(Some(&active), false, Some(6)), TodoTxtWait::Update);
    assert_eq!(module.wait_update(Some(&active), true, Some(5)), TodoTxtWait::Update);
    let paused = Some(TodoTxtModuleState::Paused);
    assert_eq!(module.wait_update(Some(&paused), true, None), TodoTxtWait::Event);
    assert_eq!(module.wait_update(Some(&paused), false, None), TodoTxtWait::Update);
}

#[test]
fn weather_codes_are_known_or_not() {
    assert_eq!(
        weather_icon(123, true, double(0.0), double(0.0)),
        Err(UnknownWeatherCode { code: 123 })
    );
    // Wind matters only under a clear sky
    let calm = weather_icon(3, true, double(0.0), double(0.0));
    assert_eq!(weather_icon(3, true, double(100.0), double(f64::NAN)), calm);
    let windy = weather_icon(0, true, double(40.0), double(0.0));
    assert_eq!(weather_icon(1, false, double(39.9), double(60.0)), windy);
    assert_ne!(weather_icon(0, true, double(39.9), double(59.9)), windy);
    assert_eq!(
        WeatherModule::new("48.8566", "2.3522", env()).url,
        "https://api.open-meteo.com/v1/forecast?latitude=48.8566&longitude=2.3522\
         &current=temperature_2m,weather_code,is_day,wind_speed_10m,wind_gusts_10m"
    );
}

#[test]
fn wttr_replies_are_read() {
    assert_eq!(
        WttrModule::parse("☀️  /+15°C"),
        Ok(WttrModuleState {
            sky: "\u{f0599}",
            temp: 15,
        })
    );
    assert_eq!(WttrModule::parse("🌧 / -3°C\n").unwrap().temp, -3);
    assert_eq!(WttrModule::parse("x/+15°C"), Err(WttrError::Sky));
    assert_eq!(WttrModule::parse("☀️"), Err(WttrError::Missing));
    assert_eq!(WttrModule::parse("☀️/warm"), Err(WttrError::Temperature));
    assert_eq!(WttrModule::parse("☀️/128°C"), Err(WttrError::Temperature));
    assert_eq!(
        WttrModule::new(Some("Paris"), env()).url,
        "https://wttr.in/Paris?format=%c/%t"
    );
}

#[test]
fn xmonad_pipes_are_reopened() {
    let mut module = XmonadModule::new();
    assert_eq!(
        module.wait_update(None),
        PipePlan {
            sleep_secs: 0,
            open: true,
        }
    );
    assert_eq!(module.update(), None);
    module.opened(true);
    assert_eq!(
        module.wait_update(None),
        PipePlan {
            sleep_secs: 0,
            open: false,
        }
    );
    assert!(!module.receive(""));
    assert!(module.receive("Tall"));
    assert!(module.receive(" Grid"));
    assert_eq!(
        module.update(),
        Some(XmonadModuleState {
            layout: "Tall Grid".to_owned(),
        })
    );
    assert_eq!(module.pending_data, "");
    assert_eq!(
        module.wait_update(Some(&None)),
        PipePlan {
            sleep_secs: 1,
            open: true,
        }
    );
    module.opened(false);
    assert_eq!(module.update(), None);
}
