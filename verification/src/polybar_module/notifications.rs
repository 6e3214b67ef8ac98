//! Switch of the desktop notifications.

use vstd::prelude::*;

use crate::markup;
use crate::markup::PolybarActionType;
use crate::polybar_module::RenderablePolybarModule;
use crate::theme::{Color, Palette};

verus! {

pub struct NotificationsModule {}

#[derive(Clone, Copy, Debug, PartialEq, Eq, Structural)]
pub struct NotificationsModuleState {
    pub enabled: bool,
}

impl NotificationsModule {
    pub fn new() -> Self {
        NotificationsModule {  }
    }

    /// State from whether `dunstctl is-paused` succeeded, which it does while notifications are
    /// paused; they count as paused where it could not be run.
    pub fn update(&self, is_paused: Option<bool>) -> (r: NotificationsModuleState)
        ensures
            r.enabled == (is_paused == Some(false)),
    {
        let paused = match is_paused {
            Some(p) => p,
            None => true,
        };
        NotificationsModuleState { enabled: !paused }
    }
}

impl RenderablePolybarModule for NotificationsModule {
    type State = NotificationsModuleState;

    open spec fn renderable(&self, state: &NotificationsModuleState) -> bool {
        true
    }

    open spec fn rendered(&self, state: &NotificationsModuleState) -> Seq<char> {
        if state.enabled {
            markup::clickable(
                "\u{f0369}"@,
                PolybarActionType::ClickLeft,
                "dunstctl set-paused true && pkill -USR1 -f 'polybar-modules notifications$'"@,
            )
        } else {
            markup::clickable(
                markup::styled(Palette::OkSolar, "\u{f06a3}"@, None, Some(Color::Notice)),
                PolybarActionType::ClickLeft,
                "dunstctl set-paused false && pkill -USR1 -f 'polybar-modules notifications$'"@,
            )
        }
    }

    fn can_render(&self, state: &NotificationsModuleState) -> (r: bool) {
        true
    }

    fn render(&self, state: &NotificationsModuleState) -> (r: String) {
        if state.enabled {
            markup::action(
                "\u{f0369}",
                PolybarActionType::ClickLeft,
                "dunstctl set-paused true && pkill -USR1 -f 'polybar-modules notifications$'",
            )
        } else {
            let icon = markup::style(Palette::OkSolar, "\u{f06a3}", None, Some(Color::Notice));
            markup::action(
                icon.as_str(),
                PolybarActionType::ClickLeft,
                "dunstctl set-paused false && pkill -USR1 -f 'polybar-modules notifications$'",
            )
        }
    }
}

}
