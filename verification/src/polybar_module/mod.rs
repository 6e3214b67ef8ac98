//! The modules of the bar.

use vstd::prelude::*;

use crate::backoff::Backoff;
use crate::text;

pub mod arch_updates;
pub mod autolock;
pub mod battery_mouse;
pub mod bluetooth;
pub mod cpu_freq;
pub mod cpu_top;
pub mod debian_updates;
pub mod gpu_nvidia;
pub mod home_power;
pub mod inference_usage;
pub mod internet_bandwidth;
pub mod market;
pub mod network_status;
pub mod notifications;
pub mod player;
pub mod progressbar_server;
pub mod pulseaudio;
pub mod syncthing;
pub mod taskwarrior;
pub mod todotxt;
pub mod weather;
pub mod wttr;
pub mod xmonad;

verus! {

/// A module of the bar.
pub enum PolybarModule {
    ArchUpdates(arch_updates::ArchUpdatesModule),
    Autolock(autolock::AutolockModule),
    BatteryMouse(battery_mouse::BatteryMouseModule),
    Bluetooth(bluetooth::BluetoothModule),
    CpuFreq(cpu_freq::CpuFreqModule),
    CpuTop(cpu_top::CpuTopModule),
    DebianUpdates(debian_updates::DebianUpdatesModule),
    GpuNvidia(gpu_nvidia::GpuNvidiaModule),
    HomePower(home_power::HomePowerModule),
    InferenceUsage(inference_usage::InferenceUsageModule),
    InternetBandwidth(internet_bandwidth::InternetBandwidthModule),
    Market(market::MarketModule),
    NetworkStatus(network_status::NetworkStatusModule),
    Notifications(notifications::NotificationsModule),
    Player(player::PlayerModule),
    ProgressBarServer(progressbar_server::ProgressBarServerModule),
    PulseAudio(pulseaudio::PulseAudioModule),
    Syncthing(syncthing::SyncthingModule),
    Taskwarrior(taskwarrior::TaskwarriorModule),
    TodoTxt(todotxt::TodoTxtModule),
    Weather(weather::WeatherModule),
    Wttr(wttr::WttrModule),
    Xmonad(xmonad::XmonadModule),
}

/// How much the network may be used.
#[derive(Clone, Copy, Debug, PartialEq, Eq, Structural)]
pub enum NetworkMode {
    Unrestricted,
    LowBandwith,
}

/// How much the network may be used, as the modules without further modes see it.
#[derive(Clone, Copy, Debug, PartialEq, Eq, Structural)]
pub enum RuntimeMode {
    Unrestricted,
    LowNetworkBandwith,
}

/// What to do while waiting for a condition.
#[derive(Clone, Copy, Debug, PartialEq, Eq, Structural)]
pub enum WaitStep {
    /// The condition holds; whether it took a wait.
    Done(bool),
    /// Wait for the next event, then look again.
    Wait,
}

/// One look at a condition, `did_wait` telling whether there was a wait before.
pub open spec fn wait_step(holds: bool, did_wait: bool) -> WaitStep {
    if holds {
        WaitStep::Done(did_wait)
    } else {
        WaitStep::Wait
    }
}

/// A name below a directory.
pub open spec fn path_below(dir: Seq<char>, name: Seq<char>) -> Seq<char> {
    if dir.len() == 0 || dir.last() == '/' {
        dir + name
    } else {
        dir.push('/') + name
    }
}

/// Puts a name below a directory.
pub fn join_path(dir: &str, name: &str) -> (r: String)
    ensures
        r@ == path_below(dir@, name@),
{
    let v = text::chars_of(dir);
    let mut r = dir.to_owned();
    if v.len() > 0 && v[v.len() - 1] != '/' {
        r.push('/');
    }
    r.append(name);
    r
}

/// Files that tell how the bar is to behave.
pub struct PolybarModuleEnv {
    /// Exists while little of the network may be used.
    pub low_bw_filepath: String,
    /// Exists while the screen can be seen by others.
    pub public_screen_filepath: String,
    /// Delays between attempts to reach a server.
    pub network_error_backoff: Backoff,
}

impl PolybarModuleEnv {
    /// Whether the delays are those they were made to be.
    pub open spec fn wf(&self) -> bool {
        self.network_error_backoff.wf()
    }

    /// Whether two environments have the same files.
    pub open spec fn same_files(&self, other: Self) -> bool {
        &&& self.low_bw_filepath == other.low_bw_filepath
        &&& self.public_screen_filepath == other.public_screen_filepath
    }

    /// Environment with its files below the data directory, and at the given place.
    pub fn new(data_home: &str, public_screen_filepath: &str) -> (r: Self)
        ensures
            r.low_bw_filepath@ == path_below(data_home@, "low_internet_bandwidth"@),
            r.public_screen_filepath@ == public_screen_filepath@,
            r.network_error_backoff.starts_as("1.5"@, 3, 60 * 60),
    {
        proof {
            reveal_strlit("1.5");
        }
        PolybarModuleEnv {
            network_error_backoff: Backoff::new("1.5", 3, 60 * 60),
            low_bw_filepath: join_path(data_home, "low_internet_bandwidth"),
            public_screen_filepath: public_screen_filepath.to_owned(),
        }
    }

    /// Mode, from whether the low bandwidth file exists.
    pub fn get_runtime_mode(&self, low_bw_exists: bool) -> (r: RuntimeMode)
        ensures
            r == if low_bw_exists {
                RuntimeMode::LowNetworkBandwith
            } else {
                RuntimeMode::Unrestricted
            },
    {
        if low_bw_exists {
            RuntimeMode::LowNetworkBandwith
        } else {
            RuntimeMode::Unrestricted
        }
    }

    /// One look at whether the mode is reached, after the events so far.
    pub fn wait_runtime_mode(
        &self,
        mode: RuntimeMode,
        low_bw_exists: bool,
        did_wait: bool,
    ) -> (r: WaitStep)
        ensures
            r == wait_step((mode == RuntimeMode::LowNetworkBandwith) == low_bw_exists, did_wait),
    {
        if self.get_runtime_mode(low_bw_exists) == mode {
            WaitStep::Done(did_wait)
        } else {
            WaitStep::Wait
        }
    }

    /// Mode, from whether the low bandwidth file exists.
    pub fn network_mode(&self, low_bw_exists: bool) -> (r: NetworkMode)
        ensures
            r == if low_bw_exists {
                NetworkMode::LowBandwith
            } else {
                NetworkMode::Unrestricted
            },
    {
        if low_bw_exists {
            NetworkMode::LowBandwith
        } else {
            NetworkMode::Unrestricted
        }
    }

    /// One look at whether the mode is reached, after the events so far.
    pub fn wait_network_mode(
        &self,
        mode: NetworkMode,
        low_bw_exists: bool,
        did_wait: bool,
    ) -> (r: WaitStep)
        ensures
            r == wait_step((mode == NetworkMode::LowBandwith) == low_bw_exists, did_wait),
    {
        if self.network_mode(low_bw_exists) == mode {
            WaitStep::Done(did_wait)
        } else {
            WaitStep::Wait
        }
    }

    /// One look at whether the screen is public or not, as wanted, after the events so far.
    pub fn wait_public_screen(
        &self,
        public: bool,
        public_screen_exists: bool,
        did_wait: bool,
    ) -> (r: WaitStep)
        ensures
            r == wait_step(public == public_screen_exists, did_wait),
    {
        if public_screen_exists == public {
            WaitStep::Done(did_wait)
        } else {
            WaitStep::Wait
        }
    }
}

/// Whether a state is to be rendered: the first one is, and each that differs from the one rendered
/// last.
pub fn should_render(first: bool, same: bool) -> (r: bool)
    ensures
        r == (first || !same),
{
    first || !same
}

/// What every module does: turn its state into markup.
pub trait RenderablePolybarModule {
    type State;

    /// Whether the state can be rendered.
    spec fn renderable(&self, state: &Self::State) -> bool;

    /// The markup of a state.
    spec fn rendered(&self, state: &Self::State) -> Seq<char>;

    /// Whether the state can be rendered.
    fn can_render(&self, state: &Self::State) -> (r: bool)
        ensures
            r == self.renderable(state),
    ;

    /// The markup of a state.
    fn render(&self, state: &Self::State) -> (r: String)
        requires
            self.renderable(state),
        ensures
            r@ == self.rendered(state),
    ;
}

/// A name stands behind exactly one slash below a directory that has none at its end, and right
/// behind one that has, or that is empty.
pub proof fn names_stand_below_their_directory(dir: Seq<char>, name: Seq<char>)
    ensures
        dir.len() > 0 && dir.last() != '/' ==> path_below(dir, name) == dir + seq!['/'] + name,
        path_below(dir + seq!['/'], name) == dir + seq!['/'] + name,
        path_below(Seq::empty(), name) == name,
{
    assert(dir.push('/') + name =~= dir + seq!['/'] + name);
    assert(Seq::<char>::empty() + name =~= name);
}

/// A wait ends exactly when its condition holds, and tells whether it took one.
pub proof fn waits_end_when_they_may(did_wait: bool)
    ensures
        wait_step(true, did_wait) == WaitStep::Done(did_wait),
        wait_step(false, did_wait) == WaitStep::Wait,
{
}

}
