//! Markup of the states of the modules.

use polybar_modules::bytes::ProgramOutput;
use polybar_modules::double::Double;
use polybar_modules::polybar_module::arch_updates::{ArchUpdatesModule, ArchUpdatesModuleState};
use polybar_modules::polybar_module::autolock::{AutolockModule, AutolockModuleState};
use polybar_modules::polybar_module::battery_mouse::{BatteryMouseModule, BatteryMouseModuleState};
use polybar_modules::polybar_module::bluetooth::{
    probe_controller, BluetoothDevice, BluetoothModule, BluetoothModuleState, MacAddr,
};
use polybar_modules::polybar_module::cpu_freq::{CpuFreqModule, CpuFreqModuleState};
use polybar_modules::polybar_module::cpu_top::{CpuTopModule, CpuTopModuleState};
use polybar_modules::polybar_module::debian_updates::{
    DebianUpdatesModule, DebianUpdatesModuleState,
};
use polybar_modules::polybar_module::gpu_nvidia::{GpuNvidiaModule, GpuNvidiaModuleState};
use polybar_modules::polybar_module::home_power::{
    HomeDevice, HomeDeviceStatus, HomePowerModule, HomePowerModuleConfig, HomePowerModuleState,
    InverterModbusConfig,
};
use polybar_modules::polybar_module::internet_bandwidth::{
    InternetBandwidthModule, InternetBandwidthModuleState,
};
use polybar_modules::polybar_module::market::{MarketModule, MarketModuleState};
use polybar_modules::polybar_module::network_status::{
    NetworkStatusHost, NetworkStatusModule, NetworkStatusModuleConfig, NetworkStatusModuleState,
};
use polybar_modules::polybar_module::notifications::{
    NotificationsModule, NotificationsModuleState,
};
use polybar_modules::polybar_module::progressbar_server::{
    ProgressBarServerModule, ProgressBarServerModuleState,
};
use polybar_modules::polybar_module::pulseaudio::{
    PulseAudioModule, PulseAudioModuleState, PulseAudioSink, PulseAudioSource,
};
use polybar_modules::polybar_module::syncthing::{SyncthingModule, SyncthingModuleState};
use polybar_modules::polybar_module::taskwarrior::{TaskwarriorModule, TaskwarriorModuleState};
use polybar_modules::polybar_module::todotxt::{Task, TodoTxtModule, TodoTxtModuleState};
use polybar_modules::polybar_module::weather::{
    weather_icon, OpenMeteoCurrent, WeatherModule, WeatherModuleState,
};
use polybar_modules::polybar_module::wttr::{WttrModule, WttrModuleState};
use polybar_modules::polybar_module::xmonad::{XmonadModule, XmonadModuleState};
use polybar_modules::polybar_module::{NetworkMode, PolybarModuleEnv, RenderablePolybarModule};
use polybar_modules::theme::ICON_WARNING;

fn env() -> PolybarModuleEnv {
    PolybarModuleEnv::new("/home/user/.local/share", "/run/user/1000/public_screen")
}

fn double(x: f64) -> Double {
    Double::from_bits(x.to_bits())
}

fn current(temperature: f64, weather_code: u8, wind_speed: f64, wind_gusts: f64) -> OpenMeteoCurrent {
    OpenMeteoCurrent {
        temperature_2m: double(temperature),
        weather_code,
        is_day: 1,
        wind_speed_10m: double(wind_speed),
        wind_gusts_10m: double(wind_gusts),
    }
}

#[test]
fn test_parse_response() {
    let state = WeatherModule::parse(current(14.6, 3, 15.5, 25.3)).unwrap();
    assert_eq!(
        state,
        WeatherModuleState {
            icon: "\u{f0590}",
            temp: 15,
        }
    );
}

#[test]
fn test_parse_temperature_rounding() {
    assert_eq!(WeatherModule::parse(current(14.4, 0, 0.0, 0.0)).unwrap().temp, 14);
    assert_eq!(WeatherModule::parse(current(-3.5, 0, 0.0, 0.0)).unwrap().temp, -4);
}

#[test]
fn arch_updates_test_render() {
    let module = ArchUpdatesModule::new(env());

    let state = Some(ArchUpdatesModuleState {
        repo_update_count: 0,
        repo_security_update_count: 0,
        aur_update_count: 0,
    });
    assert_eq!(module.render(&state), "");

    let state = Some(ArchUpdatesModuleState {
        repo_update_count: 12,
        repo_security_update_count: 0,
        aur_update_count: 0,
    });
    assert_eq!(module.render(&state), "%{F#eee8d5}\u{ebff}%{F-} 12");

    let state = Some(ArchUpdatesModuleState {
        repo_update_count: 12,
        repo_security_update_count: 2,
        aur_update_count: 0,
    });
    assert_eq!(
        module.render(&state),
        "%{F#eee8d5}\u{ebff}%{F-} 12%{F#cb4b16}(2)%{F-}"
    );

    let state = Some(ArchUpdatesModuleState {
        repo_update_count: 12,
        repo_security_update_count: 2,
        aur_update_count: 3,
    });
    assert_eq!(
        module.render(&state),
        "%{F#eee8d5}\u{ebff}%{F-} 12%{F#cb4b16}(2)%{F-}+3"
    );

    let state = Some(ArchUpdatesModuleState {
        repo_update_count: 12,
        repo_security_update_count: 0,
        aur_update_count: 3,
    });
    assert_eq!(module.render(&state), "%{F#eee8d5}\u{ebff}%{F-} 12+3");

    let state = Some(ArchUpdatesModuleState {
        repo_update_count: 0,
        repo_security_update_count: 0,
        aur_update_count: 3,
    });
    assert_eq!(module.render(&state), "%{F#eee8d5}\u{ebff}%{F-} 0+3");

    let state = None;
    assert_eq!(module.render(&state), "%{F#cb4b16}\u{f071}%{F-}");
}

#[test]
fn autolock_test_render() {
    let module = AutolockModule::new();

    let state = AutolockModuleState { enabled: true };
    assert_eq!(
        module.render(&state),
        format!(
            "%{{A1:systemctl --user stop autolock.service && pkill -USR1 -f \'polybar-modules autolock$\':}}\u{f1ad7}%{{A}}",
        )
    );

    let state = AutolockModuleState { enabled: false };
    assert_eq!(
        module.render(&state),
        format!(
            "%{{A1:systemctl --user start autolock.service && pkill -USR1 -f \'polybar-modules autolock$\':}}%{{u#b58900}}%{{+u}}\u{f1ad5}%{{-u}}%{{A}}",
        )
    );
}

#[test]
fn battery_mouse_test_render() {
    let module = BatteryMouseModule::new();

    let levels = vec![
        ("m0".to_string(), Some(100)),
        ("m1".to_string(), Some(50)),
        ("m2".to_string(), Some(49)),
        ("m3".to_string(), Some(30)),
        ("m4".to_string(), Some(29)),
        ("m5".to_string(), Some(5)),
        ("m6".to_string(), None),
    ];
    let state = BatteryMouseModuleState { levels };
    assert_eq!(
        module.render(&state),
        "%{F#eee8d5}\u{e91c}%{F-} m0 100% m1 50% %{F#b58900}m2 49%%{F-} %{F#cb4b16}m3 30%%{F-} %{F#cb4b16}m4 29%%{F-} %{F#cb4b16}m5 5%%{F-} m6 ?"
    );
}

#[test]
fn bluetooth_test_render() {
    let module = BluetoothModule::new(
        probe_controller("Controller 01:02:03:04:05:06 \n\tPowered: yes\n").unwrap(),
    );

    let state = BluetoothModuleState {
        controller_powered: false,
        devices: vec![],
    };
    assert_eq!(
        module.render(&state),
        "%{F#eee8d5}\u{e920}%{F-} %{A1:bluetoothctl power on:}\u{f204}%{A}"
    );

    let state = BluetoothModuleState {
        controller_powered: true,
        devices: vec![],
    };
    assert_eq!(
        module.render(&state),
        "%{F#eee8d5}\u{e920}%{F-} %{A1:bluetoothctl power off:}\u{f205}%{A}"
    );

    let state = BluetoothModuleState {
        controller_powered: true,
        devices: vec![
            BluetoothDevice {
                connected: false,
                name: "D1".to_owned(),
                addr: MacAddr::parse("01:02:03:04:05:06").unwrap(),
            },
            BluetoothDevice {
                connected: true,
                name: "D2".to_owned(),
                addr: MacAddr::parse("02:01:03:04:05:06").unwrap(),
            },
        ],
    };
    assert_eq!(
        module.render(&state),
        "%{F#eee8d5}\u{e920}%{F-} %{A1:bluetoothctl power off:}\u{f205}%{A} %{A1:bluetoothctl connect 01\\:02\\:03\\:04\\:05\\:06:}D1%{A} %{A1:bluetoothctl disconnect 02\\:01\\:03\\:04\\:05\\:06:}%{u#93a1a1}%{+u}D2%{-u}%{A}"
    );
}

#[test]
fn cpu_freq_test_render() {
    let module = CpuFreqModule {
        freq_range: (1_000_000, 4_000_000),
    };

    let state = Some(CpuFreqModuleState {
        min_freq: 1_000_000,
        max_freq: 4_000_000,
        avg_freq: 2_000_000,
    });
    assert_eq!(module.render(&state), "%{F#859900}1.0/2.0/4.0 GHz%{F-}");

    let state = Some(CpuFreqModuleState {
        min_freq: 1_000_000,
        max_freq: 4_000_000,
        avg_freq: 3_000_000,
    });
    assert_eq!(module.render(&state), "1.0/3.0/4.0 GHz");

    let state = Some(CpuFreqModuleState {
        min_freq: 1_000_000,
        max_freq: 4_000_000,
        avg_freq: 3_500_000,
    });
    assert_eq!(module.render(&state), "%{F#b58900}1.0/3.5/4.0 GHz%{F-}");

    let state = Some(CpuFreqModuleState {
        min_freq: 1_000_000,
        max_freq: 4_000_000,
        avg_freq: 4_500_000,
    });
    assert_eq!(module.render(&state), "%{F#cb4b16}1.0/4.5/4.0 GHz%{F-}");
}

#[test]
fn cpu_top_test_render() {
    let module = CpuTopModule::new(Some(10));

    for (cpu_prct, process_name, expected) in [
        (1, "bz", " 1%     bz"),
        (1, "bzzzzzzzzzzzzzzzz", " 1% bzzzz…"),
        (50, "bz", "%{F#ac8300}50%     bz%{F-}"),
        (99, "bz", "%{F#d56500}99%     bz%{F-}"),
    ] {
        let state = Some(CpuTopModuleState {
            cpu_prct,
            process_name: process_name.to_owned(),
        });
        assert_eq!(module.render(&state), expected);
    }

    let state = None;
    assert_eq!(
        module.render(&state),
        format!("%{{F#d56500}}{ICON_WARNING}%{{F-}}")
    );
}

#[test]
fn debian_updates_test_render() {
    let module = DebianUpdatesModule::new(
        env(),
        &ProgramOutput {
            success: true,
            stdout: b"bookworm\n".to_vec(),
        },
    )
    .unwrap();

    let state = Some(DebianUpdatesModuleState {
        update_count: 0,
        security_update_count: 0,
    });
    assert_eq!(module.render(&state), "");

    let state = Some(DebianUpdatesModuleState {
        update_count: 12,
        security_update_count: 0,
    });
    assert_eq!(module.render(&state), "%{F#eee8d5}\u{e915}%{F-} 12");

    let state = Some(DebianUpdatesModuleState {
        update_count: 12,
        security_update_count: 2,
    });
    assert_eq!(
        module.render(&state),
        "%{F#eee8d5}\u{e915}%{F-} 12%{F#cb4b16}(2)%{F-}"
    );

    let state = None;
    assert_eq!(module.render(&state), "%{F#cb4b16}\u{e904}%{F-}");
}

#[test]
fn gpu_nvidia_test_render() {
    let module = GpuNvidiaModule::new();

    let state = Some(GpuNvidiaModuleState {
        mem_used: 200,
        mem_total: 4000,
        freq_graphics: 600,
        freq_mem: 800,
        throttle: false,
        temp: 40,
        power_draw: 20,
    });
    assert_eq!(
        module.render(&state),
        "%{F#eee8d5}\u{e999}%{F-}  5% %{F#859900}▁%{F-}  600+ 800MHz 40°C  20W"
    );

    let state = Some(GpuNvidiaModuleState {
        mem_used: 3500,
        mem_total: 4000,
        freq_graphics: 1600,
        freq_mem: 2000,
        throttle: false,
        temp: 69,
        power_draw: 200,
    });
    assert_eq!(
        module.render(&state),
        "%{F#eee8d5}\u{e999}%{F-} 88% %{F#dc322f}█%{F-} 1600+2000MHz 69°C 200W"
    );

    let state = Some(GpuNvidiaModuleState {
        mem_used: 3500,
        mem_total: 4000,
        freq_graphics: 1600,
        freq_mem: 2000,
        throttle: true,
        temp: 69,
        power_draw: 200,
    });
    assert_eq!(
        module.render(&state),
        "%{F#eee8d5}\u{e999}%{F-} 88% %{F#dc322f}█%{F-} 1600+2000MHz %{u#dc322f}%{+u}%{F#dc322f}69°C%{F-}%{-u} 200W"
    );

    let state = Some(GpuNvidiaModuleState {
        mem_used: 3500,
        mem_total: 4000,
        freq_graphics: 1600,
        freq_mem: 2000,
        throttle: false,
        temp: 70,
        power_draw: 200,
    });
    assert_eq!(
        module.render(&state),
        "%{F#eee8d5}\u{e999}%{F-} 88% %{F#dc322f}█%{F-} 1600+2000MHz %{u#dc322f}%{+u}%{F#dc322f}70°C%{F-}%{-u} 200W"
    );

    let state = Some(GpuNvidiaModuleState {
        mem_used: 3963,
        mem_total: 4040,
        freq_graphics: 1600,
        freq_mem: 2000,
        throttle: false,
        temp: 70,
        power_draw: 200,
    });
    assert_eq!(
        module.render(&state),
        "%{F#eee8d5}\u{e999}%{F-} 98% %{F#dc322f}█%{F-} 1600+2000MHz %{u#dc322f}%{+u}%{F#dc322f}70°C%{F-}%{-u} 200W"
    );

    let state = None;
    assert_eq!(module.render(&state), "%{F#cb4b16}\u{e904}%{F-}");
}

#[test]
fn home_power_test_render() {
    let module = HomePowerModule::new(HomePowerModuleConfig {
        shelly_devices: vec![],
        inverter_modbus: InverterModbusConfig {
            host: "127.0.0.1".to_owned(),
            port: 0,
        },
    }, env());

    let state = Some(HomePowerModuleState {
        solar_power: 2000,
        home_consumption_power: 600,
        grid_power: 1400,
        devices: vec![],
    });
    assert_eq!(module.render(&state), "%{F#eee8d5}\u{ea06}%{F-} \u{ee81}2.0\u{e912}\u{f1903}0.6\u{e912}\u{f0d3e}1.4kW");

    let state = Some(HomePowerModuleState {
        solar_power: 0,
        home_consumption_power: 600,
        grid_power: 1400,
        devices: vec![
            HomeDevice {
                name: "D1".to_owned(),
                status: Some(HomeDeviceStatus {
                    enabled: false,
                    power: 0,
                }),
            },
            HomeDevice {
                name: "D2".to_owned(),
                status: Some(HomeDeviceStatus {
                    enabled: true,
                    power: 0,
                }),
            },
            HomeDevice {
                name: "D3".to_owned(),
                status: Some(HomeDeviceStatus {
                    enabled: true,
                    power: 1500,
                }),
            },
            HomeDevice {
                name: "D4".to_owned(),
                status: None,
            },
        ],
    });
    assert_eq!(
        module.render(&state),
        "%{F#eee8d5}\u{ea06}%{F-} \u{ee81}0.0 \u{f1903}0.6\u{e910}\u{f0d3e}1.4kW D1 %{u#93a1a1}%{+u}D2%{-u} %{u#b58900}%{+u}D3%{-u} %{F#657b83}D4%{F-}"
    );

    let state = None;
    assert_eq!(module.render(&state), "%{F#cb4b16}\u{f071}%{F-}");
}

#[test]
fn internet_bandwidth_test_render() {
    let home = "/home/user";
    let module = InternetBandwidthModule::new(PolybarModuleEnv::new(
        "/home/user/.local/share",
        "/run/user/1000/public_screen",
    ));

    let state = InternetBandwidthModuleState {
        mode: NetworkMode::Unrestricted,
    };
    assert_eq!(
        module.render(&state),
        format!("%{{A1:touch {home}/.local/share/low_internet_bandwidth:}}\u{f0c9d}%{{A}}")
    );

    let state = InternetBandwidthModuleState {
        mode: NetworkMode::LowBandwith,
    };
    assert_eq!(
        module.render(&state),
        format!(
            "%{{A1:rm {home}/.local/share/low_internet_bandwidth:}}%{{u#b58900}}%{{+u}}\u{f0c5f}%{{-u}}%{{A}}"
        )
    );
}

#[test]
fn market_test_render() {
    let module = MarketModule::new(env());

    let state = Some(MarketModuleState {
        val: double(5000.6),
        delta_prct: double(0.1),
        ma50: double(4501.0),
        ma100: double(4500.0),
    });
    assert_eq!(module.render(&state), "%{F#eee8d5}\u{e9e6}%{F-} 5001 +0.10%");

    let state = Some(MarketModuleState {
        val: double(5000.6),
        delta_prct: double(0.1),
        ma50: double(4500.0),
        ma100: double(4501.0),
    });
    assert_eq!(module.render(&state), "%{F#eee8d5}\u{e9e5}%{F-} 5001 +0.10%");

    let state = Some(MarketModuleState {
        val: double(5000.6),
        delta_prct: double(1.01),
        ma50: double(4501.0),
        ma100: double(4500.0),
    });
    assert_eq!(
        module.render(&state),
        "%{F#eee8d5}\u{e9e6}%{F-} 5001 %{F#859900}+1.01%%{F-}"
    );

    let state = Some(MarketModuleState {
        val: double(5000.6),
        delta_prct: double(-2.01),
        ma50: double(4501.0),
        ma100: double(4500.0),
    });
    assert_eq!(
        module.render(&state),
        "%{F#eee8d5}\u{e9e6}%{F-} 5001 %{F#cb4b16}-2.01%%{F-}"
    );

    let state = Some(MarketModuleState {
        val: double(5000.6),
        delta_prct: double(-1.01),
        ma50: double(4501.0),
        ma100: double(4500.0),
    });
    assert_eq!(
        module.render(&state),
        "%{F#eee8d5}\u{e9e6}%{F-} 5001 %{F#b58900}-1.01%%{F-}"
    );

    let state = None;
    assert_eq!(module.render(&state), "%{F#cb4b16}\u{f071}%{F-}");
}

#[test]
fn network_status_test_render() {
    let module = NetworkStatusModule::new(NetworkStatusModuleConfig {
        hosts: vec![
            NetworkStatusHost {
                name: "h1".to_owned(),
                host: "h1.example.com".to_owned(),
                warn_unreachable: false,
            },
            NetworkStatusHost {
                name: "h2".to_owned(),
                host: "h2.example.com".to_owned(),
                warn_unreachable: true,
            },
        ],
    }, 0);

    let state = Some(NetworkStatusModuleState {
        reachable_hosts: vec![true, true],
        vpn: vec![],
    });
    assert_eq!(
        module.render(&state),
        "%{F#eee8d5}\u{e9c6}%{F-} %{u#93a1a1}%{+u}h1%{-u} %{u#93a1a1}%{+u}h2%{-u}"
    );

    let state = Some(NetworkStatusModuleState {
        reachable_hosts: vec![false, true],
        vpn: vec![],
    });
    assert_eq!(
        module.render(&state),
        "%{F#eee8d5}\u{e9c6}%{F-} h1 %{u#93a1a1}%{+u}h2%{-u}"
    );

    let state = Some(NetworkStatusModuleState {
        reachable_hosts: vec![true, false],
        vpn: vec![],
    });
    assert_eq!(
        module.render(&state),
        "%{F#eee8d5}\u{e9c6}%{F-} %{u#93a1a1}%{+u}h1%{-u} %{F#cb4b16}h2%{F-}"
    );

    let state = Some(NetworkStatusModuleState {
        reachable_hosts: vec![true, false],
        vpn: vec!["i1".to_owned()],
    });
    assert_eq!(
        module.render(&state),
        "%{F#eee8d5}\u{e9c6}%{F-} %{u#93a1a1}%{+u}h1%{-u} %{F#cb4b16}h2%{F-}  %{F#eee8d5}\u{f0483}%{F-} %{u#93a1a1}%{+u}i1%{-u}"
    );

    let state = None;
    assert_eq!(module.render(&state), "%{F#cb4b16}\u{f071}%{F-}");
}

#[test]
fn notifications_test_render() {
    let module = NotificationsModule::new();

    let state = NotificationsModuleState { enabled: true };
    assert_eq!(
        module.render(&state),
        "%{A1:dunstctl set-paused true && pkill -USR1 -f 'polybar-modules notifications$':}\u{f0369}%{A}",
    );

    let state = NotificationsModuleState { enabled: false };
    assert_eq!(
        module.render(&state),
        "%{A1:dunstctl set-paused false && pkill -USR1 -f 'polybar-modules notifications$':}%{u#ac8300}%{+u}\u{f06a3}%{-u}%{A}"
    );
}

#[test]
fn progressbar_server_test_render() {
    let module = ProgressBarServerModule::new();

    let state = Some(ProgressBarServerModuleState { progress: vec![] });
    assert_eq!(module.render(&state), "");

    let state = Some(ProgressBarServerModuleState { progress: vec![0] });
    assert_eq!(module.render(&state), "%{F#f1e9d2}\u{ef8f}%{F-} %{F#8faaab}\u{f251}%{F-}");

    let state = Some(ProgressBarServerModuleState { progress: vec![1] });
    assert_eq!(module.render(&state), "%{F#f1e9d2}\u{ef8f}%{F-} %{F#8faaab}\u{f0a9e}%{F-}");

    let state = Some(ProgressBarServerModuleState { progress: vec![50] });
    assert_eq!(module.render(&state), "%{F#f1e9d2}\u{ef8f}%{F-} %{F#8faaab}\u{f0aa1}%{F-}");

    let state = Some(ProgressBarServerModuleState {
        progress: vec![100],
    });
    assert_eq!(module.render(&state), "%{F#f1e9d2}\u{ef8f}%{F-} %{F#8faaab}\u{f0aa5}%{F-}");

    let state = Some(ProgressBarServerModuleState {
        progress: vec![30, 100],
    });
    assert_eq!(
        module.render(&state),
        "%{F#f1e9d2}\u{ef8f}%{F-} %{F#8faaab}\u{f0aa0}%{F-}%{F#8faaab}\u{f0aa5}%{F-}"
    );

    let state = Some(ProgressBarServerModuleState {
        progress: vec![30, 50, 100],
    });
    assert_eq!(
        module.render(&state),
        "%{F#f1e9d2}\u{ef8f}%{F-} %{F#8faaab}\u{f0aa0}%{F-}%{F#8faaab}\u{f0aa1}%{F-}%{F#8faaab}\u{f0aa5}%{F-}"
    );

    let state = None;
    assert_eq!(module.render(&state), "%{F#d56500}\u{f071}%{F-}");
}

#[test]
fn test_abbrev() {
    assert_eq!(PulseAudioModule::abbrev("111 2222", 4), "2222");
    assert_eq!(PulseAudioModule::abbrev("111 2222", 3), "22…");
    assert_eq!(PulseAudioModule::abbrev("111 2222", 1), "2");
}

#[test]
fn pulseaudio_test_render() {
    let module = PulseAudioModule::new(false);

    let state = Some(PulseAudioModuleState {
        sources: vec![
            PulseAudioSource {
                id: 1,
                name: "so1".to_owned(),
                running: false,
            },
            PulseAudioSource {
                id: 2,
                name: "so2".to_owned(),
                running: true,
            },
        ],
        sinks: vec![
            PulseAudioSink {
                id: 1,
                name: "si1".to_owned(),
                running: false,
            },
            PulseAudioSink {
                id: 2,
                name: "si2".to_owned(),
                running: true,
            },
        ],
        easyeffects: None,
    });
    assert_eq!(
        module.render(&state),
        "%{A1:pactl set-default-sink 1:}si1%{A} %{u#93a1a1}%{+u}si2%{-u}  %{F#eee8d5}\u{e992}%{F-} %{A1:pactl set-default-source 1:}so1%{A} %{u#93a1a1}%{+u}so2%{-u}"
    );

    let state = Some(PulseAudioModuleState {
        sources: vec![
            PulseAudioSource {
                id: 1,
                name: "so1".to_owned(),
                running: false,
            },
            PulseAudioSource {
                id: 2,
                name: "so2".to_owned(),
                running: true,
            },
        ],
        sinks: vec![],
        easyeffects: None,
    });
    assert_eq!(
        module.render(&state),
        "  %{F#eee8d5}\u{e992}%{F-} %{A1:pactl set-default-source 1:}so1%{A} %{u#93a1a1}%{+u}so2%{-u}"
    );

    let state = Some(PulseAudioModuleState {
        sources: vec![],
        sinks: vec![
            PulseAudioSink {
                id: 1,
                name: "si1".to_owned(),
                running: false,
            },
            PulseAudioSink {
                id: 2,
                name: "si2".to_owned(),
                running: true,
            },
        ],
        easyeffects: None,
    });
    assert_eq!(
        module.render(&state),
        "%{A1:pactl set-default-sink 1:}si1%{A} %{u#93a1a1}%{+u}si2%{-u}"
    );

    let state = Some(PulseAudioModuleState {
        sources: vec![PulseAudioSource {
            id: 1,
            name: "so1".to_owned(),
            running: false,
        }],
        sinks: vec![PulseAudioSink {
            id: 1,
            name: "si1".to_owned(),
            running: false,
        }],
        easyeffects: None,
    });
    assert_eq!(module.render(&state), "");

    let state = Some(PulseAudioModuleState {
        sources: vec![],
        sinks: vec![],
        easyeffects: Some(true),
    });
    assert_eq!(
        module.render(&state),
        "%{A1:systemctl --user -q --no-block stop easyeffects.service:}%{u#93a1a1}%{+u}\u{f0dde}%{-u}%{A}"
    );

    let state = Some(PulseAudioModuleState {
        sources: vec![],
        sinks: vec![],
        easyeffects: Some(false),
    });
    assert_eq!(
        module.render(&state),
        "%{A1:systemctl --user -q --no-block start easyeffects.service:}\u{f0dde}%{A}"
    );

    let state = Some(PulseAudioModuleState {
        sources: vec![
            PulseAudioSource {
                id: 1,
                name: "so1".to_owned(),
                running: false,
            },
            PulseAudioSource {
                id: 2,
                name: "so2".to_owned(),
                running: true,
            },
        ],
        sinks: vec![],
        easyeffects: Some(true),
    });
    assert_eq!(
        module.render(&state),
        "%{A1:systemctl --user -q --no-block stop easyeffects.service:}%{u#93a1a1}%{+u}\u{f0dde}%{-u}%{A}   %{F#eee8d5}\u{e992}%{F-} %{A1:pactl set-default-source 1:}so1%{A} %{u#93a1a1}%{+u}so2%{-u}"
    );

    let state = Some(PulseAudioModuleState {
        sources: vec![],
        sinks: vec![
            PulseAudioSink {
                id: 1,
                name: "si1".to_owned(),
                running: false,
            },
            PulseAudioSink {
                id: 2,
                name: "si2".to_owned(),
                running: true,
            },
        ],
        easyeffects: Some(true),
    });
    assert_eq!(
        module.render(&state),
        "%{A1:systemctl --user -q --no-block stop easyeffects.service:}%{u#93a1a1}%{+u}\u{f0dde}%{-u}%{A} %{A1:pactl set-default-sink 1:}si1%{A} %{u#93a1a1}%{+u}si2%{-u}"
    );

    let state = Some(PulseAudioModuleState {
        sources: vec![
            PulseAudioSource {
                id: 1,
                name: "so1".to_owned(),
                running: false,
            },
            PulseAudioSource {
                id: 2,
                name: "so2".to_owned(),
                running: true,
            },
        ],
        sinks: vec![
            PulseAudioSink {
                id: 1,
                name: "si1".to_owned(),
                running: false,
            },
            PulseAudioSink {
                id: 2,
                name: "si2".to_owned(),
                running: true,
            },
        ],
        easyeffects: Some(true),
    });
    assert_eq!(
        module.render(&state),
        "%{A1:systemctl --user -q --no-block stop easyeffects.service:}%{u#93a1a1}%{+u}\u{f0dde}%{-u}%{A} %{A1:pactl set-default-sink 1:}si1%{A} %{u#93a1a1}%{+u}si2%{-u}  %{F#eee8d5}\u{e992}%{F-} %{A1:pactl set-default-source 1:}so1%{A} %{u#93a1a1}%{+u}so2%{-u}"
    );

    let state = None;
    assert_eq!(module.render(&state), "%{F#cb4b16}\u{e904}%{F-}");
}

#[test]
fn syncthing_test_render() {
    let module = SyncthingModule::new();

    let state = Some(SyncthingModuleState {
        folder_count: 1,
        device_connected_count: 2,
        device_syncing_to_count: 3,
        folders_syncing_down_count: 4,
        remote_device_count: 5,
    });
    assert_eq!(
        module.render(&state),
        "%{A1:firefox --new-tab 'http\\://127.0.0.1\\:8384/':}%{F#eee8d5}\u{f12d6}%{F-} \u{e968} 1 \u{e974} 2/5 \u{e932}4 \u{e935}3%{A}"
    );

    let state = None;
    assert_eq!(module.render(&state), "%{F#cb4b16}\u{f071}%{F-}");
}

#[test]
fn taskwarrior_test_ellipsis() {
    assert_eq!(
        TaskwarriorModule::ellipsis("blah blah blah", None),
        "blah blah blah"
    );
    assert_eq!(
        TaskwarriorModule::ellipsis("blah blah blah", Some(14)),
        "blah blah blah"
    );
    assert_eq!(
        TaskwarriorModule::ellipsis("blah blah blah!", Some(14)),
        "blah blah bla…"
    );
    assert_eq!(
        TaskwarriorModule::ellipsis("blah blah blah ", Some(14)),
        "blah blah blah"
    );
    assert_eq!(
        TaskwarriorModule::ellipsis("blah blah bla h", Some(14)),
        "blah blah bla…"
    );
}

#[test]
fn taskwarrior_test_render() {
    let module = TaskwarriorModule::new(None, "/home/user/.task");

    let state = Some(TaskwarriorModuleState {
        pending_count: 10,
        next_task: "todo".to_string(),
        next_task_project: Some("proj".to_string()),
        next_task_urgency: double(1.5),
        last_fs_change: 1_700_000_000_000_000_000,
    });
    assert_eq!(module.render(&state), "%{F#eee8d5}\u{e938}%{F-} 10 [proj] todo");

    let state = Some(TaskwarriorModuleState {
        pending_count: 10,
        next_task: "todo".to_string(),
        next_task_project: None,
        next_task_urgency: double(1.5),
        last_fs_change: 1_700_000_000_000_000_000,
    });
    assert_eq!(module.render(&state), "%{F#eee8d5}\u{e938}%{F-} 10 todo");

    let state = Some(TaskwarriorModuleState {
        pending_count: 10,
        next_task: "todo".to_string(),
        next_task_project: Some("proj".to_string()),
        next_task_urgency: double(7.51),
        last_fs_change: 1_700_000_000_000_000_000,
    });
    assert_eq!(
        module.render(&state),
        "%{F#eee8d5}\u{e938}%{F-} 10 %{u#93a1a1}%{+u}[proj] todo%{-u}"
    );

    let state = Some(TaskwarriorModuleState {
        pending_count: 10,
        next_task: "todo".to_string(),
        next_task_project: Some("proj".to_string()),
        next_task_urgency: double(8.51),
        last_fs_change: 1_700_000_000_000_000_000,
    });
    assert_eq!(
        module.render(&state),
        "%{F#eee8d5}\u{e938}%{F-} 10 %{u#b58900}%{+u}[proj] todo%{-u}"
    );

    let state = Some(TaskwarriorModuleState {
        pending_count: 10,
        next_task: "todo".to_string(),
        next_task_project: Some("proj".to_string()),
        next_task_urgency: double(9.51),
        last_fs_change: 1_700_000_000_000_000_000,
    });
    assert_eq!(
        module.render(&state),
        "%{F#eee8d5}\u{e938}%{F-} 10 %{u#cb4b16}%{+u}[proj] todo%{-u}"
    );

    let module = TaskwarriorModule::new(Some(14), "/home/user/.task");

    let state = Some(TaskwarriorModuleState {
        pending_count: 10,
        next_task: "todo".to_string(),
        next_task_project: Some("proj".to_string()),
        next_task_urgency: double(1.5),
        last_fs_change: 1_700_000_000_000_000_000,
    });
    assert_eq!(module.render(&state), "%{F#eee8d5}\u{e938}%{F-} 10 [proj] todo");

    let state = Some(TaskwarriorModuleState {
        pending_count: 101,
        next_task: "todo".to_string(),
        next_task_project: Some("proj".to_string()),
        next_task_urgency: double(1.5),
        last_fs_change: 1_700_000_000_000_000_000,
    });
    assert_eq!(module.render(&state), "%{F#eee8d5}\u{e938}%{F-} 101 [p…] todo");

    let state = Some(TaskwarriorModuleState {
        pending_count: 1011,
        next_task: "todo".to_string(),
        next_task_project: Some("proj".to_string()),
        next_task_urgency: double(1.5),
        last_fs_change: 1_700_000_000_000_000_000,
    });
    assert_eq!(module.render(&state), "%{F#eee8d5}\u{e938}%{F-} 1011 [p…] todo");

    let state = Some(TaskwarriorModuleState {
        pending_count: 10,
        next_task: "todozz".to_string(),
        next_task_project: Some("proj".to_string()),
        next_task_urgency: double(1.5),
        last_fs_change: 1_700_000_000_000_000_000,
    });
    assert_eq!(module.render(&state), "%{F#eee8d5}\u{e938}%{F-} 10 [p…] todozz");

    let state = Some(TaskwarriorModuleState {
        pending_count: 10,
        next_task: "todozzz".to_string(),
        next_task_project: Some("proj".to_string()),
        next_task_urgency: double(1.5),
        last_fs_change: 1_700_000_000_000_000_000,
    });
    assert_eq!(module.render(&state), "%{F#eee8d5}\u{e938}%{F-} 10 [p…] todoz…");
}

#[test]
fn todotxt_test_render() {
    let runtime_dir = "/run/user/1000";
    let module = TodoTxtModule::new(None, "/home/user/todo.txt", env());

    let state = Some(TodoTxtModuleState::Active {
        pending_count: 10,
        next_task: None,
        last_fs_change: None,
    });
    assert_eq!(
        module.render(&state),
        format!(
            "%{{F#eee8d5}}\u{e938}%{{F-}} %{{A1:touch {}/public_screen:}}10 😌%{{A}}",
            runtime_dir
        )
    );

    let state = Some(TodoTxtModuleState::Active {
        pending_count: 10,
        next_task: Some(Task {
            priority: None,
            text: "todo".to_string(),
        }),
        last_fs_change: None,
    });
    assert_eq!(
        module.render(&state),
        format!(
            "%{{F#eee8d5}}\u{e938}%{{F-}} %{{A1:touch {}/public_screen:}}10 todo%{{A}}",
            runtime_dir
        )
    );

    let state = Some(TodoTxtModuleState::Active {
        pending_count: 10,
        next_task: Some(Task {
            priority: Some('D'),
            text: "todo".to_string(),
        }),
        last_fs_change: None,
    });
    assert_eq!(
        module.render(&state),
        format!(
            "%{{F#eee8d5}}\u{e938}%{{F-}} %{{A1:touch {}/public_screen:}}10 todo%{{A}}",
            runtime_dir
        )
    );

    let state = Some(TodoTxtModuleState::Active {
        pending_count: 10,
        next_task: Some(Task {
            priority: Some('C'),
            text: "todo".to_string(),
        }),
        last_fs_change: None,
    });
    assert_eq!(
        module.render(&state),
        format!(
            "%{{F#eee8d5}}\u{e938}%{{F-}} %{{A1:touch {}/public_screen:}}10 %{{u#93a1a1}}%{{+u}}todo%{{-u}}%{{A}}",
            runtime_dir
        )
    );

    let state = Some(TodoTxtModuleState::Active {
        pending_count: 10,
        next_task: Some(Task {
            priority: Some('A'),
            text: "todo".to_string(),
        }),
        last_fs_change: None,
    });
    assert_eq!(
        module.render(&state),
        format!(
            "%{{F#eee8d5}}\u{e938}%{{F-}} %{{A1:touch {}/public_screen:}}10 %{{u#cb4b16}}%{{+u}}todo%{{-u}}%{{A}}",
            runtime_dir
        )
    );

    let module = TodoTxtModule::new(Some(7), "/home/user/todo.txt", env());

    let state = Some(TodoTxtModuleState::Active {
        pending_count: 10,
        next_task: Some(Task {
            priority: None,
            text: "todo".to_string(),
        }),
        last_fs_change: None,
    });
    assert_eq!(
        module.render(&state),
        format!(
            "%{{F#eee8d5}}\u{e938}%{{F-}} %{{A1:touch {}/public_screen:}}10 todo%{{A}}",
            runtime_dir
        )
    );

    let state = Some(TodoTxtModuleState::Active {
        pending_count: 101,
        next_task: Some(Task {
            priority: None,
            text: "todo".to_string(),
        }),
        last_fs_change: None,
    });
    assert_eq!(
        module.render(&state),
        format!(
            "%{{F#eee8d5}}\u{e938}%{{F-}} %{{A1:touch {}/public_screen:}}101 to…%{{A}}",
            runtime_dir
        )
    );

    let state = Some(TodoTxtModuleState::Active {
        pending_count: 1011,
        next_task: Some(Task {
            priority: None,
            text: "todo".to_string(),
        }),
        last_fs_change: None,
    });
    assert_eq!(
        module.render(&state),
        format!(
            "%{{F#eee8d5}}\u{e938}%{{F-}} %{{A1:touch {}/public_screen:}}1011 t…%{{A}}",
            runtime_dir
        )
    );

    let state = Some(TodoTxtModuleState::Active {
        pending_count: 10,
        next_task: Some(Task {
            priority: None,
            text: "todozzz".to_string(),
        }),
        last_fs_change: None,
    });
    assert_eq!(
        module.render(&state),
        format!(
            "%{{F#eee8d5}}\u{e938}%{{F-}} %{{A1:touch {}/public_screen:}}10 tod…%{{A}}",
            runtime_dir
        )
    );

    let state = Some(TodoTxtModuleState::Paused);
    assert_eq!(
        module.render(&state),
        format!(
            "%{{F#eee8d5}}\u{e938}%{{F-}} %{{A1:rm {}/public_screen:}}\u{e9d0}%{{A}}",
            runtime_dir
        )
    );
}

#[test]
fn weather_test_render() {
    let module = WeatherModule::new("48.8566", "2.3522", env());

    let state = Some(WeatherModuleState {
        icon: "\u{f0599}",
        temp: 15,
    });
    assert_eq!(module.render(&state), "%{F#f1e9d2}\u{f0599}%{F-} 15°C");

    let state = None;
    assert_eq!(module.render(&state), "%{F#d56500}\u{f071}%{F-}");
}

#[test]
fn wttr_test_render() {
    let module = WttrModule::new(None, env());

    let state = Some(WttrModuleState {
        sky: "\u{e93a}", temp: 15
    });
    assert_eq!(module.render(&state), "%{F#f1e9d2}\u{e93a}%{F-} 15°C");

    let state = None;
    assert_eq!(module.render(&state), "%{F#d56500}\u{f071}%{F-}");
}

#[test]
fn xmonad_test_render() {
    let module = XmonadModule::new();

    let state = Some(XmonadModuleState {
        layout: "Spacing Tall".to_string(),
    });
    assert_eq!(module.render(&state), "Spac Tall");

    let state = Some(XmonadModuleState {
        layout: "Tabbed Simplest".to_string(),
    });
    assert_eq!(module.render(&state), "Tabb Simp");

    let state = None;
    assert_eq!(module.render(&state), "%{F#cb4b16}\u{e904}%{F-}");
}

#[test]
fn test_weather_icon_day_night() {
    assert_eq!(weather_icon(0, true, double(0.0), double(0.0)).unwrap(), "\u{e30d}");
    assert_eq!(weather_icon(0, false, double(0.0), double(0.0)).unwrap(), "\u{e32b}");
    assert_eq!(weather_icon(1, true, double(0.0), double(0.0)).unwrap(), "\u{e30d}");
    assert_eq!(weather_icon(1, false, double(0.0), double(0.0)).unwrap(), "\u{e32b}");
    assert_eq!(weather_icon(2, true, double(0.0), double(0.0)).unwrap(), "\u{e302}");
    assert_eq!(weather_icon(2, false, double(0.0), double(0.0)).unwrap(), "\u{e37e}");
    assert_eq!(weather_icon(80, true, double(0.0), double(0.0)).unwrap(), "\u{e309}");
    assert_eq!(weather_icon(80, false, double(0.0), double(0.0)).unwrap(), "\u{e325}");
}

#[test]
fn test_weather_icon_wind_override() {
    assert_eq!(weather_icon(0, true, double(50.0), double(0.0)).unwrap(), "\u{e34c}");
    assert_eq!(weather_icon(0, false, double(0.0), double(70.0)).unwrap(), "\u{e34c}");
    assert_eq!(weather_icon(0, true, double(39.0), double(59.0)).unwrap(), "\u{e30d}");
    assert_eq!(weather_icon(3, true, double(100.0), double(100.0)).unwrap(), "\u{f0590}");
}

#[test]
fn test_weather_icon_all_codes() {
    let codes = [
        (3_u8, "\u{f0590}"),
        (45, "\u{f0591}"),
        (48, "\u{f0591}"),
        (51, "\u{f0597}"),
        (53, "\u{f0597}"),
        (55, "\u{f0597}"),
        (56, "\u{f067f}"),
        (57, "\u{f067f}"),
        (61, "\u{f0597}"),
        (63, "\u{f0597}"),
        (65, "\u{f0596}"),
        (66, "\u{f067f}"),
        (67, "\u{f067f}"),
        (71, "\u{f0598}"),
        (73, "\u{f0598}"),
        (75, "\u{f0f36}"),
        (77, "\u{f0598}"),
        (82, "\u{f0596}"),
        (85, "\u{f0598}"),
        (86, "\u{f0f36}"),
        (95, "\u{f067e}"),
        (96, "\u{f0592}"),
        (99, "\u{f0592}"),
    ];
    for (code, expected) in codes {
        assert_eq!(weather_icon(code, true, double(0.0), double(0.0)).unwrap(), expected);
    }
}

#[test]
fn test_weather_icon_unknown_code() {
    assert!(weather_icon(123, true, double(0.0), double(0.0)).is_err());
}
