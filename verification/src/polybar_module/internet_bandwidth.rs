//! Switch of the low bandwidth mode.

use vstd::prelude::*;

use crate::markup;
use crate::markup::PolybarActionType;
use crate::polybar_module::{
    NetworkMode,
    PolybarModuleEnv,
    RenderablePolybarModule,
    WaitStep,
};
use crate::theme::{Color, Palette};

verus! {

pub struct InternetBandwidthModule {
    pub env: PolybarModuleEnv,
}

#[derive(Clone, Copy, Debug, PartialEq, Eq, Structural)]
pub struct InternetBandwidthModuleState {
    pub mode: NetworkMode,
}

impl InternetBandwidthModule {
    pub fn new(env: PolybarModuleEnv) -> (r: Self)
        ensures
            r.env == env,
    {
        InternetBandwidthModule { env }
    }

    /// State from whether the low bandwidth file exists.
    pub fn update(&self, low_bw_exists: bool) -> (r: InternetBandwidthModuleState)
        ensures
            r.mode == if low_bw_exists {
                NetworkMode::LowBandwith
            } else {
                NetworkMode::Unrestricted
            },
    {
        InternetBandwidthModuleState { mode: self.env.network_mode(low_bw_exists) }
    }

    /// One look at whether the mode has changed, after the events so far.
    pub fn wait_update(
        &self,
        prev_state: Option<InternetBandwidthModuleState>,
        low_bw_exists: bool,
        did_wait: bool,
    ) -> (r: WaitStep)
        ensures
            r == match prev_state {
                Some(s) => crate::polybar_module::wait_step(
                    (s.mode == NetworkMode::Unrestricted) == low_bw_exists,
                    did_wait,
                ),
                None => WaitStep::Done(did_wait),
            },
    {
        match prev_state {
            Some(s) => {
                let to_wait = match s.mode {
                    NetworkMode::Unrestricted => NetworkMode::LowBandwith,
                    NetworkMode::LowBandwith => NetworkMode::Unrestricted,
                };
                self.env.wait_network_mode(to_wait, low_bw_exists, did_wait)
            },
            None => WaitStep::Done(did_wait),
        }
    }
}

impl RenderablePolybarModule for InternetBandwidthModule {
    type State = InternetBandwidthModuleState;

    open spec fn renderable(&self, state: &InternetBandwidthModuleState) -> bool {
        true
    }

    open spec fn rendered(&self, state: &InternetBandwidthModuleState) -> Seq<char> {
        match state.mode {
            NetworkMode::Unrestricted => markup::clickable(
                "\u{f0c9d}"@,
                PolybarActionType::ClickLeft,
                "touch "@ + self.env.low_bw_filepath@,
            ),
            NetworkMode::LowBandwith => markup::clickable(
                markup::styled(
                    Palette::SolarizedDark,
                    "\u{f0c5f}"@,
                    None,
                    Some(Color::Notice),
                ),
                PolybarActionType::ClickLeft,
                "rm "@ + self.env.low_bw_filepath@,
            ),
        }
    }

    fn can_render(&self, state: &InternetBandwidthModuleState) -> (r: bool) {
        true
    }

    fn render(&self, state: &InternetBandwidthModuleState) -> (r: String) {
        match state.mode {
            NetworkMode::Unrestricted => {
                let mut command = "touch ".to_owned();
                command.append(self.env.low_bw_filepath.as_str());
                markup::action("\u{f0c9d}", PolybarActionType::ClickLeft, command.as_str())
            },
            NetworkMode::LowBandwith => {
                let icon = markup::style(
                    Palette::SolarizedDark,
                    "\u{f0c5f}",
                    None,
                    Some(Color::Notice),
                );
                let mut command = "rm ".to_owned();
                command.append(self.env.low_bw_filepath.as_str());
                markup::action(icon.as_str(), PolybarActionType::ClickLeft, command.as_str())
            },
        }
    }
}

}
