//! Weather from Open-Meteo.

use vstd::arithmetic::power2::*;
use vstd::prelude::*;

use crate::backoff::{self, Delay};
use crate::double::Double;
use crate::markup;
use crate::markup::Markup;
use crate::numeral;
use crate::polybar_module::{PolybarModuleEnv, RenderablePolybarModule};
use crate::theme::{Color, Palette, ICON_WARNING};

verus! {

/// Wind speed from which on the wind counts as strong, in km/h.
pub const WIND_STRONG_KMH: i64 = 40;

/// Speed of gusts from which on the wind counts as strong, in km/h.
pub const WIND_GUST_STRONG_KMH: i64 = 60;

pub struct WeatherModule {
    pub url: String,
    pub env: PolybarModuleEnv,
}

#[derive(Clone, Copy, Debug, PartialEq, Eq)]
pub struct WeatherModuleState {
    pub icon: &'static str,
    pub temp: i16,
}

/// The current weather, as the service reports it.
#[derive(Clone, Copy, Debug, PartialEq, Eq, Structural)]
pub struct OpenMeteoCurrent {
    pub temperature_2m: Double,
    pub weather_code: u8,
    pub is_day: u8,
    pub wind_speed_10m: Double,
    pub wind_gusts_10m: Double,
}

/// A weather code is not known.
#[derive(Clone, Copy, Debug, PartialEq, Eq, Structural)]
pub struct UnknownWeatherCode {
    pub code: u8,
}

pub open spec fn is_windy(wind_speed: Double, wind_gusts: Double) -> bool {
    wind_speed.is_at_least(WIND_STRONG_KMH as int, 0) || wind_gusts.is_at_least(
        WIND_GUST_STRONG_KMH as int,
        0,
    )
}

/// Icon for a weather code.
pub open spec fn icon_of(code: u8, is_day: bool, windy: bool) -> Option<Seq<char>> {
    if code == 0 || code == 1 {
        if windy {
            Some("\u{e34c}"@)
        } else if is_day {
            Some("\u{e30d}"@)
        } else {
            Some("\u{e32b}"@)
        }
    } else if code == 2 {
        if is_day {
            Some("\u{e302}"@)
        } else {
            Some("\u{e37e}"@)
        }
    } else if code == 3 {
        Some("\u{f0590}"@)
    } else if code == 45 || code == 48 {
        Some("\u{f0591}"@)
    } else if code == 51 || code == 53 || code == 55 || code == 61 || code == 63 {
        Some("\u{f0597}"@)
    } else if code == 56 || code == 57 || code == 66 || code == 67 {
        Some("\u{f067f}"@)
    } else if code == 65 || code == 82 {
        Some("\u{f0596}"@)
    } else if code == 71 || code == 73 || code == 77 || code == 85 {
        Some("\u{f0598}"@)
    } else if code == 75 || code == 86 {
        Some("\u{f0f36}"@)
    } else if code == 80 || code == 81 {
        if is_day {
            Some("\u{e309}"@)
        } else {
            Some("\u{e325}"@)
        }
    } else if code == 95 {
        Some("\u{f067e}"@)
    } else if code == 96 || code == 99 {
        Some("\u{f0592}"@)
    } else {
        None
    }
}

/// Icon for a weather code; the wind counts only where the sky is clear.
pub fn weather_icon(code: u8, is_day: bool, wind_speed: Double, wind_gusts: Double) -> (r: Result<
    &'static str,
    UnknownWeatherCode,
>)
    ensures
        match (r, icon_of(code, is_day, is_windy(wind_speed, wind_gusts))) {
            (Ok(s), Some(i)) => s@ == i,
            (Err(e), None) => e.code == code,
            _ => false,
        },
{
    let windy = wind_speed.at_least(WIND_STRONG_KMH, 0) || wind_gusts.at_least(
        WIND_GUST_STRONG_KMH,
        0,
    );
    if code == 0 || code == 1 {
        if windy {
            Ok("\u{e34c}")
        } else if is_day {
            Ok("\u{e30d}")
        } else {
            Ok("\u{e32b}")
        }
    } else if code == 2 {
        if is_day {
            Ok("\u{e302}")
        } else {
            Ok("\u{e37e}")
        }
    } else if code == 3 {
        Ok("\u{f0590}")
    } else if code == 45 || code == 48 {
        Ok("\u{f0591}")
    } else if code == 51 || code == 53 || code == 55 || code == 61 || code == 63 {
        Ok("\u{f0597}")
    } else if code == 56 || code == 57 || code == 66 || code == 67 {
        Ok("\u{f067f}")
    } else if code == 65 || code == 82 {
        Ok("\u{f0596}")
    } else if code == 71 || code == 73 || code == 77 || code == 85 {
        Ok("\u{f0598}")
    } else if code == 75 || code == 86 {
        Ok("\u{f0f36}")
    } else if code == 80 || code == 81 {
        if is_day {
            Ok("\u{e309}")
        } else {
            Ok("\u{e325}")
        }
    } else if code == 95 {
        Ok("\u{f067e}")
    } else if code == 96 || code == 99 {
        Ok("\u{f0592}")
    } else {
        Err(UnknownWeatherCode { code })
    }
}

/// The wind changes the icon of a clear sky only.
pub proof fn wind_matters_only_when_clear(code: u8, is_day: bool)
    requires
        code > 1,
    ensures
        icon_of(code, is_day, true) == icon_of(code, is_day, false),
{
}

impl WeatherModule {
    /// A module for the place with the given coordinates.
    pub fn new(latitude: &str, longitude: &str, env: PolybarModuleEnv) -> (r: Self)
        ensures
            r.env == env,
            r.url@ == "https://api.open-meteo.com/v1/forecast?latitude="@ + latitude@
                + "&longitude="@ + longitude@
                + "&current=temperature_2m,weather_code,is_day,wind_speed_10m,wind_gusts_10m"@,
    {
        let mut url = "https://api.open-meteo.com/v1/forecast?latitude=".to_owned();
        url.append(latitude);
        url.append("&longitude=");
        url.append(longitude);
        url.append("&current=temperature_2m,weather_code,is_day,wind_speed_10m,wind_gusts_10m");
        WeatherModule { url, env }
    }

    /// State from the current weather: its icon, and the temperature in whole degrees.
    pub fn parse(current: OpenMeteoCurrent) -> (r: Result<WeatherModuleState, UnknownWeatherCode>)
        ensures
            match (
                r,
                icon_of(
                    current.weather_code,
                    current.is_day != 0,
                    is_windy(current.wind_speed_10m, current.wind_gusts_10m),
                ),
            ) {
                (Ok(s), Some(i)) => {
                    &&& s.icon@ == i
                    &&& s.temp == current.temperature_2m.rounded_into(
                        i16::MIN as int,
                        i16::MAX as int,
                    )
                },
                (Err(e), None) => e.code == current.weather_code,
                _ => false,
            },
    {
        match weather_icon(
            current.weather_code,
            current.is_day != 0,
            current.wind_speed_10m,
            current.wind_gusts_10m,
        ) {
            Ok(icon) => {
                let temp: i16 = current.temperature_2m.round_into(
                    i16::MIN as i64,
                    i16::MAX as i64,
                ) as i16;
                Ok(WeatherModuleState { icon, temp })
            },
            Err(e) => Err(e),
        }
    }

    /// Wait before the next update; `last` tells whether the last one succeeded.
    pub fn wait_update(&mut self, last: Option<bool>) -> (r: Delay)
        requires
            old(self).env.wf(),
        ensures
            final(self).url == old(self).url,
            final(self).env.same_files(old(self).env),
            backoff::waits(
                old(self).env.network_error_backoff,
                final(self).env.network_error_backoff,
                last,
                300_000_000_000,
                r,
            ),
    {
        self.env.network_error_backoff.delay_after(last, 300_000_000_000)
    }
}

impl RenderablePolybarModule for WeatherModule {
    type State = Option<WeatherModuleState>;

    open spec fn renderable(&self, state: &Option<WeatherModuleState>) -> bool {
        true
    }

    open spec fn rendered(&self, state: &Option<WeatherModuleState>) -> Seq<char> {
        match state {
            Some(s) => markup::colored(Palette::OkSolar, s.icon@, Color::MainIcon) + " "@
                + numeral::signed_text(s.temp as int) + "°C"@,
            None => markup::colored(Palette::OkSolar, ICON_WARNING@, Color::Attention),
        }
    }

    fn can_render(&self, state: &Option<WeatherModuleState>) -> (r: bool) {
        true
    }

    fn render(&self, state: &Option<WeatherModuleState>) -> (r: String) {
        match state {
            Some(s) => {
                let mut r = Markup::new(s.icon).fg(Color::MainIcon).into_string();
                r.append(" ");
                let t = numeral::signed_decimal(s.temp as i64);
                r.append(t.as_str());
                r.append("°C");
                r
            },
            None => Markup::new(ICON_WARNING).fg(Color::Attention).into_string(),
        }
    }
}

/// The wind is strong from 40 km/h on, or with gusts from 60 km/h on.
pub proof fn strong_winds_are_told(wind_speed: Double, wind_gusts: Double)
    ensures
        is_windy(wind_speed, wind_gusts) <==> (!wind_speed.is_nan() && wind_speed.units() >= 40
            * pow2(1074)) || (!wind_gusts.is_nan() && wind_gusts.units() >= 60 * pow2(1074)),
{
    lemma2_to64();
    let a = wind_speed.units();
    let b = wind_gusts.units();
    assert(a * pow2(0) == a && b * pow2(0) == b) by (nonlinear_arith)
        requires
            pow2(0) == 1,
    ;
}

/// Day and night differ only where the sky can be seen: under a clear sky without wind, between
/// clouds, and between showers.
pub proof fn nights_differ_under_an_open_sky(code: u8, windy: bool)
    ensures
        icon_of(code, true, windy) != icon_of(code, false, windy) <==> (code == 0 || code == 1)
            && !windy || code == 2 || code == 80 || code == 81,
        icon_of(code, true, true) != icon_of(code, true, false) <==> code == 0 || code == 1,
{
    reveal_strlit("\u{e34c}");
    reveal_strlit("\u{e30d}");
    reveal_strlit("\u{e32b}");
    reveal_strlit("\u{e302}");
    reveal_strlit("\u{e37e}");
    reveal_strlit("\u{e309}");
    reveal_strlit("\u{e325}");
    assert("\u{e34c}"@[0] != "\u{e30d}"@[0]);
    assert("\u{e30d}"@[0] != "\u{e32b}"@[0]);
    assert("\u{e302}"@[0] != "\u{e37e}"@[0]);
    assert("\u{e309}"@[0] != "\u{e325}"@[0]);
}

/// Codes of the same weather have the same icon; some codes are not known.
pub proof fn like_weather_looks_alike(is_day: bool, windy: bool)
    ensures
        ({
            let icon = |code: u8| icon_of(code, is_day, windy);
            &&& icon(0) == icon(1)
            &&& icon(3) == Some("\u{f0590}"@)
            &&& icon(45) == icon(48)
            &&& icon(45) == Some("\u{f0591}"@)
            &&& icon(51) == icon(53) && icon(53) == icon(55) && icon(55) == icon(61) && icon(61)
                == icon(63)
            &&& icon(51) == Some("\u{f0597}"@)
            &&& icon(56) == icon(57) && icon(57) == icon(66) && icon(66) == icon(67)
            &&& icon(56) == Some("\u{f067f}"@)
            &&& icon(65) == icon(82)
            &&& icon(65) == Some("\u{f0596}"@)
            &&& icon(71) == icon(73) && icon(73) == icon(77) && icon(77) == icon(85)
            &&& icon(71) == Some("\u{f0598}"@)
            &&& icon(75) == icon(86)
            &&& icon(75) == Some("\u{f0f36}"@)
            &&& icon(80) == icon(81)
            &&& icon(95) == Some("\u{f067e}"@)
            &&& icon(96) == icon(99)
            &&& icon(96) == Some("\u{f0592}"@)
            &&& icon(2) == Some(
                if is_day {
                    "\u{e302}"@
                } else {
                    "\u{e37e}"@
                },
            )
            &&& icon(80) == Some(
                if is_day {
                    "\u{e309}"@
                } else {
                    "\u{e325}"@
                },
            )
        }),
        icon_of(0, is_day, true) == Some("\u{e34c}"@),
        icon_of(0, is_day, false) == Some(
            if is_day {
                "\u{e30d}"@
            } else {
                "\u{e32b}"@
            },
        ),
        forall|code: u8|
            code == 4 || 3 < code < 45 || 48 < code < 51 || 67 < code < 71 || 77 < code < 80 || 86
                < code < 95 || 99 < code ==> #[trigger] icon_of(code, is_day, windy) is None,
{
}

}
