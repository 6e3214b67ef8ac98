//! Modules that keep track of devices, hosts and clients.

use polybar_modules::bytes::ProgramOutput;
use polybar_modules::double::Double;
use polybar_modules::polybar_module::bluetooth::{
    bluetoothctl_output, info_args, parse_event, probe_connected, probe_controller, probe_devices,
    BluetoothError, BluetoothEvent, BluetoothModule, MacAddr,
};
use polybar_modules::polybar_module::home_power::{
    home_device, home_power_state, keeps_message, modbus_read_holding_register, sha256_hex, HomeDeviceStatus,
    HomePowerModule, HomePowerModuleConfig, InvalidRegister, InverterModbusConfig, InverterReading,
    ShellyRpcAuthParams, ShellyRpcReply, ShellySession, ShellyStep, SwitchStatus,
    REG_ADDR_I_AC_POWER, REG_ADDR_I_AC_POWER_SF, REG_ADDR_M_AC_POWER, REG_ADDR_M_AC_POWER_SF,
};
use polybar_modules::backoff::Delay;
use polybar_modules::polybar_module::network_status::{
    NetworkStatusHost, NetworkStatusModule, NetworkStatusModuleConfig, NetworkStatusModuleState,
};
use polybar_modules::polybar_module::progressbar_server::{
    ProgressBarServerModule, SocketAction,
};
use polybar_modules::polybar_module::pulseaudio::{
    can_read_devices, is_change, on_subscribe_output, read_devices, DeviceKind, PulseAudioDevice,
    PulseAudioError, PulseAudioModule, SubscribeAction,
};
use polybar_modules::polybar_module::syncthing::{
    count_syncing, rest_url, CompletionReply, DbCompletion, HttpStatus, SyncthingEvent,
    SyncthingModule, SyncthingModuleState,
};
use polybar_modules::polybar_module::{NetworkMode, PolybarModuleEnv, RenderablePolybarModule};

fn double(x: f64) -> Double {
    Double::from_bits(x.to_bits())
}

fn output(success: bool, stdout: &str) -> ProgramOutput {
    ProgramOutput {
        success,
        stdout: stdout.as_bytes().to_vec(),
    }
}

// Bluetooth

const A: &str = "01:02:03:04:05:06";
const B: &str = "AA:BB:CC:DD:EE:FF";

fn addr(s: &str) -> MacAddr {
    MacAddr::parse(s).unwrap()
}

fn bluetooth() -> BluetoothModule {
    let controller = probe_controller("Controller 00:00:00:00:00:01 host [default]\n\tPowered: yes\n");
    let mut module = BluetoothModule::new(controller.unwrap());
    let known = probe_devices(
        "Device AA:BB:CC:DD:EE:FF Zed phone\nDevice 01:02:03:04:05:06 Anywhere MX\nnothing\n",
        &vec![],
    );
    for device in known {
        module.add_device(device, false);
    }
    module
}

#[test]
fn addresses_are_read_and_written() {
    assert_eq!(addr(A).bytes, [1, 2, 3, 4, 5, 6]);
    assert!(addr(A).same(addr(A)));
    assert!(!addr(A).same(addr(B)));
    assert!(MacAddr::parse("01:02").is_none());
    assert!(MacAddr::parse("").is_none());
    assert!(MacAddr::parse("aa:bb:cc:dd:ee:ff").is_none());
    assert_eq!(info_args(addr(B)), vec!["info".to_owned(), B.to_owned()]);
}

#[test]
fn controllers_are_probed() {
    assert_eq!(
        bluetoothctl_output(&output(false, "")).unwrap_err(),
        BluetoothError::ExitStatus
    );
    assert_eq!(bluetoothctl_output(&output(true, "text")).unwrap(), "text");
    let controller = probe_controller("Controller AA:BB:CC:DD:EE:FF x\n\tPowered: no\n").unwrap();
    assert!(!controller.powered);
    assert_eq!(controller.addr, addr(B));
    assert_eq!(
        probe_controller("Controller AA:BB:CC:DD:EE:FF x\n").unwrap_err(),
        BluetoothError::ControllerPowered
    );
    assert_eq!(
        probe_controller("\tPowered: yes\nController AA:BB:CC:DD:EE:FF").unwrap_err(),
        BluetoothError::ControllerAddress
    );
    assert_eq!(probe_connected("\tConnected: yes\n"), Ok(true));
    assert_eq!(probe_connected("\tConnected: no\n"), Ok(false));
    assert_eq!(
        probe_connected("Connected: yes\n"),
        Err(BluetoothError::DeviceConnected)
    );
    let known = probe_devices("Device 01:02:03:04:05:06 a\nDevice AA:BB:CC:DD:EE:FF b\n", &vec![addr(B)]);
    assert_eq!(known.len(), 1);
    assert_eq!(known[0].name, "b");
}

#[test]
fn events_are_read() {
    assert!(matches!(
        parse_event("[bluetooth]# [CHG] Controller 01:02:03:04:05:06 Powered: no"),
        BluetoothEvent::Powered(a, false) if a == addr(A)
    ));
    assert!(matches!(
        parse_event("[CHG] Device AA:BB:CC:DD:EE:FF Connected: yes"),
        BluetoothEvent::Connected(a, true) if a == addr(B)
    ));
    for line in [
        "",
        "[CHG] Device AA:BB:CC:DD:EE:FF Connected: maybe",
        "[CHG] Device aa:bb:cc:dd:ee:ff Connected: yes",
        "[NEW] Device AA:BB:CC:DD:EE:FF Connected: yes",
    ] {
        assert!(matches!(parse_event(line), BluetoothEvent::Other));
    }
}

#[test]
fn events_change_the_state() {
    let mut module = bluetooth();
    let state = module.update();
    assert!(state.controller_powered);
    // Devices are shown by name
    assert_eq!(state.devices[0].name, "Anywhere MX");
    assert_eq!(state.devices[1].name, "Zed phone");
    assert!(!state.devices[1].connected);

    // Colors are dropped before lines are read
    let connect = "\u{1b}[0;94m[CHG]\u{1b}[0m Device AA:BB:CC:DD:EE:FF Connected: yes\n";
    assert!(module.on_output(connect.as_bytes()));
    assert!(module.update().devices[1].connected);
    assert!(!module.on_output(b"noise\n"));
    assert!(!module.on_text("[CHG] Device 11:11:11:11:11:11 Connected: yes\n"));

    // No device stays connected without power
    assert!(module.on_text("[CHG] Controller 00:00:00:00:00:01 Powered: no\n"));
    let state = module.update();
    assert!(!state.controller_powered);
    assert!(state.devices.is_empty());
    assert!(!module.devices.iter().any(|d| d.connected));
    assert_eq!(module.devices.len(), 2);
    assert!(!module.apply(BluetoothEvent::Powered(addr(B), true)));
    assert!(module.apply(BluetoothEvent::Powered(addr("00:00:00:00:00:01"), true)));
    assert_eq!(module.update().devices.len(), 2);
}

// Home power

fn home_power() -> HomePowerModule {
    HomePowerModule::new(
        HomePowerModuleConfig {
            shelly_devices: vec![],
            inverter_modbus: InverterModbusConfig {
                host: "127.0.0.1".to_owned(),
                port: 1502,
            },
        },
        PolybarModuleEnv::new("/data", "/run/public_screen"),
    )
}

#[test]
fn digests_are_sha256() {
    assert_eq!(
        sha256_hex(""),
        "e3b0c44298fc1c149afbf4c8996fb92427ae41e4649b934ca495991b7852b855"
    );
    assert_eq!(
        sha256_hex("abc"),
        "ba7816bf8f01cfea414140de5dae2223b00361a396177a9cb410ff61f20015ad"
    );
}

fn challenge() -> ShellyRpcAuthParams {
    ShellyRpcAuthParams {
        nonce: 7,
        nc: 1,
        realm: "shelly".to_owned(),
        algorithm: "SHA-256".to_owned(),
    }
}

#[test]
fn devices_are_authenticated_with() {
    let mut session = ShellySession::new("secret");
    let request = session.begin("Switch.GetStatus");
    assert_eq!(request.id, 0);
    assert_eq!(request.auth, None);
    assert_eq!(
        session.on_first_reply(ShellyRpcReply::Error {
            code: 500,
            message: "m".to_owned(),
        }),
        ShellyStep::Failed {
            code: 500,
            message: "m".to_owned(),
        }
    );
    assert_eq!(
        session.on_first_reply(ShellyRpcReply::Error {
            code: 401,
            message: "m".to_owned(),
        }),
        ShellyStep::Authenticate {
            message: "m".to_owned(),
        }
    );
    let request = session.authenticate_with(request, challenge(), 9);
    assert_eq!(request.id, 1);
    assert_eq!(request.method, "Switch.GetStatus");
    let answer = request.auth.as_ref().unwrap();
    assert_eq!(answer.username, "admin");
    assert_eq!(answer.cnonce, 9);
    let ha1 = sha256_hex("admin:shelly:secret");
    let ha2 = sha256_hex("dummy_method:dummy_uri");
    assert_eq!(answer.response, sha256_hex(&format!("{ha1}:7:1:9:auth:{ha2}")));
    // A second refusal is final, and leaves nothing behind
    assert_eq!(
        session.on_second_reply(
            session_request(&mut ShellySession::new("x")),
            ShellyRpcReply::Error {
                code: 401,
                message: "m".to_owned(),
            }
        ),
        ShellyStep::Failed {
            code: 401,
            message: "m".to_owned(),
        }
    );
    assert_eq!(session.auth, None);
    // An accepted answer is used again
    assert_eq!(session.on_second_reply(request, ShellyRpcReply::Success), ShellyStep::Done);
    let next = session.begin("Switch.GetStatus");
    assert_eq!(next.id, 2);
    assert_eq!(next.auth.unwrap().cnonce, 9);
    assert_eq!(session.on_first_reply(ShellyRpcReply::Success), ShellyStep::Done);
    // Nonces are drawn where none is given
    let mut a = ShellySession::new("x");
    let request = session_request(&mut a);
    let first = a.authenticate(request, challenge()).auth.unwrap();
    let request = session_request(&mut a);
    let second = a.authenticate(request, challenge()).auth.unwrap();
    assert_ne!(first.cnonce, second.cnonce);
    assert_ne!(first.response, second.response);
}

fn session_request(
    session: &mut ShellySession,
) -> polybar_modules::polybar_module::home_power::ShellyRpcRequest {
    session.begin("Switch.GetStatus")
}

#[test]
fn pings_are_no_replies() {
    assert!(keeps_message(false, false));
    assert!(!keeps_message(true, false));
    assert!(!keeps_message(true, true));
    assert!(!keeps_message(false, true));
}

#[test]
fn inverters_are_read() {
    assert_eq!(modbus_read_holding_register(1, &vec![0xffff]), Ok(-1));
    assert_eq!(modbus_read_holding_register(1, &vec![0x8000]), Ok(-32768));
    assert_eq!(
        modbus_read_holding_register(1, &vec![0x7fff]),
        Err(InvalidRegister { addr: 1 })
    );
    let mut reading = InverterReading::new();
    for register in [
        REG_ADDR_I_AC_POWER,
        REG_ADDR_I_AC_POWER_SF,
        REG_ADDR_M_AC_POWER,
        REG_ADDR_M_AC_POWER_SF,
    ] {
        assert_eq!(reading.next_register(), Some(register));
        assert_eq!(reading.accept(&vec![register & 0xff]), Ok(()));
    }
    assert_eq!(reading.next_register(), None);
    assert_eq!(reading.values, vec![0x93, 0x94, 0x0e, 0x12]);
    let mut reading = InverterReading::new();
    assert_eq!(
        reading.accept(&vec![0x7fff]),
        Err(InvalidRegister {
            addr: REG_ADDR_I_AC_POWER,
        })
    );
}

#[test]
fn powers_are_whole_watts() {
    let device = home_device(
        "d",
        Some(SwitchStatus {
            output: true,
            apower: Some(double(12.9)),
        }),
    );
    assert_eq!(
        device.status,
        Some(HomeDeviceStatus {
            enabled: true,
            power: 12,
        })
    );
    let silent = SwitchStatus {
        output: false,
        apower: None,
    };
    assert_eq!(home_device("d", Some(silent)).status.unwrap().power, 0);
    assert_eq!(home_device("d", None).status, None);
    let state = home_power_state(double(1999.9), double(-3.0), double(-700.5), vec![device]);
    assert_eq!(state.solar_power, 1999);
    assert_eq!(state.home_consumption_power, 0);
    assert_eq!(state.grid_power, 700);
    let mut module = home_power();
    assert_eq!(module.wait_update(None), (Delay::NoWait, false));
    assert_eq!(module.wait_update(Some(true)), (Delay::Nanos(1_000_000_000), false));
    assert!(module.wait_update(Some(false)).1);
}

// Network status

fn network_status() -> NetworkStatusModule {
    let host = |name: &str| NetworkStatusHost {
        name: name.to_owned(),
        host: format!("{name}.example.com"),
        warn_unreachable: false,
    };
    NetworkStatusModule::new(
        NetworkStatusModuleConfig {
            hosts: vec![host("h1"), host("h2")],
        },
        0,
    )
}

const SECOND: u128 = 1_000_000_000;

#[test]
fn hosts_are_reachable_by_recent_results() {
    let mut module = network_status();
    let none: Vec<String> = vec![];
    assert_eq!(module.state(&none, false).reachable_hosts, vec![false, false]);
    module.record_output(0, b"64 bytes from 1.1.1.1: icmp_seq=1 ttl=58 time=9.1 ms\n", SECOND);
    assert_eq!(module.state(&none, false).reachable_hosts, vec![true, false]);
    module.record_text(0, "no answer yet for icmp_seq=2\n", 2 * SECOND);
    assert_eq!(module.state(&none, false).reachable_hosts, vec![false, false]);
    // Only the last three results count
    module.record_text(0, "1 ms\n2 ms\nno answer\n1 ms\n", 3 * SECOND);
    assert_eq!(module.state(&none, false).reachable_hosts, vec![true, false]);
    assert_eq!(
        module.state(&vec!["wg1".to_owned(), "eth0".to_owned(), "wg0".to_owned()], true).vpn,
        vec!["ovpn".to_owned(), "wg0".to_owned(), "wg1".to_owned()]
    );
    assert_eq!(
        module.state(&none, false),
        NetworkStatusModuleState {
            reachable_hosts: vec![true, false],
            vpn: vec![],
        }
    );
}

#[test]
fn stale_pings_are_restarted() {
    let mode = NetworkMode::Unrestricted;
    let mut module = network_status();
    module.record_text(0, "1 ms\n", 2 * SECOND);
    assert_eq!(module.take_stale(2 * SECOND, mode), Vec::<usize>::new());
    assert_eq!(module.take_stale(2 * SECOND + 1, mode), vec![1]);
    // Killed once only
    assert_eq!(module.take_stale(2 * SECOND + 1, mode), Vec::<usize>::new());
    assert!(module.note_death(1, 3 * SECOND));
    assert!(!module.note_death(1, 3 * SECOND));
    module.mark_down(1);
    assert_eq!(module.next_restart(4 * SECOND, mode), None);
    assert_eq!(module.next_restart(4 * SECOND + 1, mode), Some(1));
    module.restarted(1, 4 * SECOND + 1);
    assert_eq!(module.next_restart(9 * SECOND, mode), None);
    assert!(module.take_stale(9 * SECOND, mode).contains(&1));
    assert_eq!(NetworkStatusModule::get_ping_period(NetworkMode::LowBandwith), 5);
    assert_eq!(NetworkStatusModule::get_stale_child_timeout(mode), 2);
    assert_eq!(NetworkStatusModule::get_stale_child_timeout(NetworkMode::LowBandwith), 5);
    assert_eq!(NetworkStatusModule::poll_duration_ms(mode), 800);
    assert_eq!(
        NetworkStatusModule::ping_args("h", mode),
        ["-O", "-W", "1", "-i", "1", "-n", "h"].map(str::to_owned).to_vec()
    );
}

// Progress bars

#[test]
fn clients_report_progress() {
    let mut module = ProgressBarServerModule::new();
    assert_eq!(ProgressBarServerModule::on_event(0, true, false), SocketAction::Accept);
    assert_eq!(ProgressBarServerModule::on_event(0, false, true), SocketAction::Ignore);
    assert_eq!(ProgressBarServerModule::on_event(3, true, true), SocketAction::Read(3));
    assert_eq!(ProgressBarServerModule::on_event(3, false, true), SocketAction::Disconnect(3));
    assert_eq!(ProgressBarServerModule::on_event(3, false, false), SocketAction::Ignore);
    let a = module.take_client_id();
    module.add_client(a);
    let b = module.take_client_id();
    module.add_client(b);
    assert_eq!((a, b), (1, 2));
    assert!(!module.on_read(b, &[10, 20]));
    assert!(!module.on_read(a, &[100]));
    assert_eq!(module.state().progress, vec![100, 20]);
    // What is no percentage is ignored
    assert!(!module.on_read(a, &[101]));
    assert_eq!(module.state().progress, vec![100, 20]);
    // The end of the data is the end of the client
    assert!(module.on_read(a, &[]));
    module.remove_client(a);
    assert_eq!(module.state().progress, vec![20]);
    assert_eq!(ProgressBarServerModule::render_progress(15), "%{F#8faaab}\u{f0a9e}%{F-}");
    assert_eq!(ProgressBarServerModule::render_progress(16), "%{F#8faaab}\u{f0a9f}%{F-}");
}

// Sound

const SINKS: &str = "Sink #1\n\tState: RUNNING\n\tProperties:\n\t\tdevice.class = \"sound\"\n\
    \t\talsa.card_name = \"HDA Intel\"\n\nSink #2\n\tState: IDLE\n\
    \t\tmedia.class = \"Audio/Sink\"\n\t\tbluez.alias = \"WH-1000\"\n\nSink #3\n\tState: IDLE\n\
    \t\tdevice.class = \"monitor\"\n\nSink #4\n\tState: IDLE\n\t\tdevice.class = \"sound\"\n";

#[test]
fn sound_devices_are_read() {
    let out = output(true, SINKS);
    assert!(can_read_devices(&out, DeviceKind::Sink));
    assert_eq!(
        read_devices(&out, DeviceKind::Sink),
        Ok(vec![
            PulseAudioDevice {
                id: 1,
                name: "I".to_owned(),
                running: true,
            },
            PulseAudioDevice {
                id: 2,
                name: "W".to_owned(),
                running: false,
            },
        ])
    );
    let sources = SINKS.replace("Sink", "Source");
    // A source without a name is an error
    assert_eq!(
        read_devices(&output(true, &sources), DeviceKind::Source),
        Err(PulseAudioError::Name)
    );
    assert_eq!(
        read_devices(&output(false, ""), DeviceKind::Sink),
        Err(PulseAudioError::ExitStatus)
    );
    assert_eq!(
        read_devices(&output(true, "Sink #x\n"), DeviceKind::Sink),
        Err(PulseAudioError::Id)
    );
    assert_eq!(
        read_devices(&output(true, "Sink #1\n"), DeviceKind::Sink),
        Err(PulseAudioError::State)
    );
    let invalid = ProgramOutput {
        success: true,
        stdout: b"\xff\n".to_vec(),
    };
    assert_eq!(read_devices(&invalid, DeviceKind::Sink), Err(PulseAudioError::Encoding));
    let state = PulseAudioModule::new(true)
        .try_update(&output(true, ""), &out, false)
        .unwrap();
    assert_eq!(state.easyeffects, Some(false));
    assert_eq!(state.sinks.len(), 2);
    // The sinks do not matter where the sources cannot be read
    let odd = output(true, &SINKS.replace('I', "é"));
    assert!(!can_read_devices(&odd, DeviceKind::Sink));
    assert_eq!(
        PulseAudioModule::new(true).try_update(&output(false, ""), &odd, false),
        Err(PulseAudioError::ExitStatus)
    );
    assert!(!PulseAudioModule::abbreviable("é", 1));
    assert!(PulseAudioModule::abbreviable("e", 1));
}

#[test]
fn sound_events_are_told_apart() {
    assert!(is_change("Event 'change' on sink #1\n"));
    assert!(!is_change("Event 'new' on client #1\nEvent 'remove' on client #1\n"));
    assert_eq!(on_subscribe_output(b""), SubscribeAction::Restart);
    assert_eq!(on_subscribe_output(b"Event 'new' on client #1\n"), SubscribeAction::ReadOn);
    assert_eq!(on_subscribe_output(b"Event 'change' on sink #1\n"), SubscribeAction::Update);
}

// Syncthing

#[test]
fn rest_addresses_are_built() {
    assert_eq!(
        rest_url("system/config", &vec![]).unwrap(),
        "http://127.0.0.1:8384/rest/system/config"
    );
    assert_eq!(
        rest_url("db/completion", &vec![("device".to_owned(), "a b&c".to_owned())]).unwrap(),
        "http://127.0.0.1:8384/rest/db/completion?device=a+b%26c"
    );
    assert_eq!(
        rest_url("a?b=c#d", &vec![("e".to_owned(), "é".to_owned())]).unwrap(),
        "http://127.0.0.1:8384/rest/a?b=c&e=%C3%A9#d"
    );
    assert_eq!(rest_url("http://[", &vec![("e".to_owned(), "f".to_owned())]), None);
    let long = "x".repeat(20_000_000);
    assert_eq!(
        rest_url("a", &vec![("e".to_owned(), long.clone())]),
        Some(format!("http://127.0.0.1:8384/rest/a?e={long}"))
    );
    assert_eq!(
        SyncthingModule::new().events_url(&SyncthingModule::event_types()).unwrap(),
        "http://127.0.0.1:8384/rest/events?since=0&events=DeviceConnected%2CDeviceDisconnected\
         %2CDownloadProgress%2CRemoteDownloadProgress&timeout=3605"
    );
}

fn completion(need_bytes: u64, need_items: u64, need_deletes: u64) -> CompletionReply {
    CompletionReply::Completion(DbCompletion {
        need_bytes,
        need_items,
        need_deletes,
    })
}

#[test]
fn syncing_devices_are_counted() {
    let replies = vec![
        completion(1, 0, 0),
        completion(0, 0, 0),
        CompletionReply::Status(404),
        completion(0, 0, 1),
    ];
    assert_eq!(count_syncing(&replies), Ok(2));
    assert_eq!(
        count_syncing(&vec![completion(1, 0, 0), CompletionReply::Status(500)]),
        Err(HttpStatus { code: 500 })
    );
    let mut module = SyncthingModule::new();
    module.on_event(SyncthingEvent {
        id: 7,
        downloading: Some(vec!["a".to_owned(), "b".to_owned(), "a".to_owned()]),
    });
    module.on_event(SyncthingEvent {
        id: 8,
        downloading: None,
    });
    assert_eq!(module.last_event_id, 8);
    let state = module.try_update(3, 4, &vec![true, false, true], &replies).unwrap();
    assert_eq!(
        state,
        SyncthingModuleState {
            folder_count: 3,
            device_connected_count: 2,
            device_syncing_to_count: 2,
            folders_syncing_down_count: 2,
            remote_device_count: 3,
        }
    );
    module.on_event(SyncthingEvent {
        id: 9,
        downloading: Some(vec![]),
    });
    assert_eq!(module.try_update(3, 4, &vec![], &vec![]).unwrap().folders_syncing_down_count, 0);
    assert!(module.can_render(&Some(state)));
}
