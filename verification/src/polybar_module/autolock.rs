//! Switch of the automatic screen lock.

use vstd::prelude::*;

use crate::markup;
use crate::markup::PolybarActionType;
use crate::polybar_module::RenderablePolybarModule;
use crate::theme::{Color, Palette};

verus! {

/// Unit that locks the screen.
pub const UNIT: &'static str = "autolock.service";

pub struct AutolockModule {}

#[derive(Clone, Copy, Debug, PartialEq, Eq, Structural)]
pub struct AutolockModuleState {
    pub enabled: bool,
}

impl AutolockModule {
    pub fn new() -> Self {
        AutolockModule {  }
    }

    /// State from whether the unit runs.
    pub fn update(&self, unit_running: bool) -> (r: AutolockModuleState)
        ensures
            r.enabled == unit_running,
    {
        AutolockModuleState { enabled: unit_running }
    }
}

impl RenderablePolybarModule for AutolockModule {
    type State = AutolockModuleState;

    open spec fn renderable(&self, state: &AutolockModuleState) -> bool {
        true
    }

    open spec fn rendered(&self, state: &AutolockModuleState) -> Seq<char> {
        if state.enabled {
            markup::clickable(
                "\u{f1ad7}"@,
                PolybarActionType::ClickLeft,
                "systemctl --user stop autolock.service && pkill -USR1 -f 'polybar-modules autolock$'"@,
            )
        } else {
            markup::clickable(
                markup::styled(
                    Palette::SolarizedDark,
                    "\u{f1ad5}"@,
                    None,
                    Some(Color::Notice),
                ),
                PolybarActionType::ClickLeft,
                "systemctl --user start autolock.service && pkill -USR1 -f 'polybar-modules autolock$'"@,
            )
        }
    }

    fn can_render(&self, state: &AutolockModuleState) -> (r: bool) {
        true
    }

    fn render(&self, state: &AutolockModuleState) -> (r: String) {
        if state.enabled {
            markup::action(
                "\u{f1ad7}",
                PolybarActionType::ClickLeft,
                "systemctl --user stop autolock.service && pkill -USR1 -f 'polybar-modules autolock$'",
            )
        } else {
            let icon = markup::style(
                Palette::SolarizedDark,
                "\u{f1ad5}",
                None,
                Some(Color::Notice),
            );
            markup::action(
                icon.as_str(),
                PolybarActionType::ClickLeft,
                "systemctl --user start autolock.service && pkill -USR1 -f 'polybar-modules autolock$'",
            )
        }
    }
}

}
