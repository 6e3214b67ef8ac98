//! Markup and short texts.

use polybar_modules::double::Double;
use polybar_modules::markup::{ramp, Gauge, Markup, PolybarActionType};
use polybar_modules::theme::{ellipsis, pad, shorten_model_name, Color, Palette};

fn double(x: f64) -> Double {
    Double::from_bits(x.to_bits())
}

#[test]
fn test_markup() {
    assert_eq!(
        Markup::new("\u{e93a}").fg(Color::MainIcon).into_string(),
        "%{F#f1e9d2}\u{e93a}%{F-}"
    );
}

#[test]
fn test_ramp() {
    for (frac, expected) in [
        (-0.1, "%{F#819500}—%{F-}"),
        (0.0, "%{F#819500}—%{F-}"),
        (0.0001, "%{F#819500}▁%{F-}"),
        (0.1874, "%{F#819500}▁%{F-}"),
        (0.1875, "%{F#819500}▂%{F-}"),
        (0.3124, "%{F#819500}▂%{F-}"),
        (0.3125, "%{F#819500}▃%{F-}"),
        (0.4374, "%{F#819500}▃%{F-}"),
        (0.4375, "%{F#819500}▄%{F-}"),
        (0.5624, "%{F#819500}▄%{F-}"),
        (0.5625, "%{F#819500}▅%{F-}"),
        (0.6874, "%{F#819500}▅%{F-}"),
        (0.6875, "%{F#819500}▆%{F-}"),
        (0.8124, "%{F#819500}▆%{F-}"),
        (0.8125, "%{F#819500}▇%{F-}"),
        (0.9999, "%{F#819500}▇%{F-}"),
        (1.0, "%{F#819500}█%{F-}"),
        (1.1, "%{F#819500}█%{F-}"),
    ] {
        assert_eq!(Gauge::ramp().render(double(frac), Color::Good), expected);
    }
}

#[test]
fn test_action() {
    assert_eq!(
        Markup::new(":)")
            .action(
                PolybarActionType::ClickRight,
                "this contains a : and ; and \\"
            )
            .into_string(),
        "%{A3:this contains a \\: and ; and \\:}:)%{A}"
    );
}

#[test]
fn theme_test_ellipsis() {
    assert_eq!(ellipsis("blah blah blah", None), "blah blah blah");
    assert_eq!(ellipsis("blah blah blah", Some(14)), "blah blah blah");
    assert_eq!(ellipsis("blah blah blah!", Some(14)), "blah blah bla…");
    assert_eq!(ellipsis("blah blah blah ", Some(14)), "blah blah blah");
    assert_eq!(ellipsis("blah blah bla h", Some(14)), "blah blah bla…");
    assert_eq!(ellipsis("blah blah bla ha", Some(15)), "blah blah bla…");
    assert_eq!(ellipsis("éééé", Some(2)), "é…");
}

#[test]
fn test_shorten_model_name() {
    assert_eq!(shorten_model_name("G604 Wireless Gaming Mouse"), "G604");
    assert_eq!(shorten_model_name("Anywhere MX"), "AMX");
    assert_eq!(shorten_model_name("WH-1000XM3"), "WH");
}

#[test]
fn decorations_nest() {
    assert_eq!(
        Markup::with_palette(Palette::SolarizedDark, "x")
            .fg(Color::Good)
            .underline(Color::Notice)
            .overline(Color::Attention)
            .bg(Color::Critical)
            .font(3)
            .into_string(),
        "%{T3}%{b#dc322f}%{o#cb4b16}%{+o}%{u#b58900}%{+u}%{F#859900}x%{F-}%{-u}%{-o}%{b-}%{T-}"
    );
}

#[test]
fn bars_are_at_least_as_high() {
    for (frac, expected) in [
        (0.0, "▁"),
        (0.125, "▁"),
        (0.126, "▂"),
        (0.5, "▄"),
        (0.875, "▇"),
        (0.876, "█"),
        (7.0, "█"),
        (-1.0, "▁"),
        (f64::NAN, "█"),
    ] {
        assert_eq!(
            ramp(double(frac), Color::Good),
            format!("%{{F#819500}}{expected}%{{F-}}")
        );
    }
    let gauge = Gauge::circle_slices("?");
    assert_eq!(gauge.render(double(0.0), Color::Good), "%{F#819500}?%{F-}");
    assert_ne!(gauge.render(double(1e-300), Color::Good), "%{F#819500}?%{F-}");
}

#[test]
fn short_texts_keep_their_length() {
    for max_len in 1..20 {
        let s = ellipsis("blah blah blah blah", Some(max_len));
        assert!(s.chars().count() <= max_len);
        assert_eq!(ellipsis("b", Some(max_len)), "b");
        let padded = pad("bz", Some(max_len));
        assert_eq!(padded, format!("{:>1$}", "bz", max_len));
    }
    assert_eq!(pad("bz", None), "bz");
}
