use maki::progress_bar::{render, BarSymbols, BarView, ProgressBarConfig};
use maki::span::Area;

fn area(width: u16) -> Area {
    Area { x: 0, y: 0, width, height: 1 }
}

fn render_gauge(ratio: f64, width: u16, use_unicode_weight: bool) -> Option<BarView> {
    render(
        area(width),
        ProgressBarConfig { ratio_bits: ratio.to_bits(), label: None, use_unicode_weight },
    )
}

#[test]
fn render_does_not_panic() {
    for ratio in [0.0, 0.5, 1.0] {
        let bar = render_gauge(ratio, 20, false).unwrap();
        assert_eq!(f64::from_bits(bar.ratio_bits), ratio);
        assert_eq!(bar.symbols, BarSymbols::Lines);
    }
}

#[test]
fn render_clamps_ratio() {
    for ratio in [
        1.5,
        -0.5,
        0.999_999,
        1.000_000_1,
        -0.0,
        f64::MIN,
        f64::MAX,
        f64::INFINITY,
        f64::NEG_INFINITY,
        f64::MIN_POSITIVE,
        -f64::MIN_POSITIVE,
    ] {
        let bar = render_gauge(ratio, 20, false).unwrap();
        assert_eq!(bar.ratio_bits, ratio.clamp(0.0, 1.0).to_bits());
    }
}

#[test]
fn render_zero_width_does_not_panic() {
    assert!(render_gauge(0.5, 0, false).is_none());
}

#[test]
fn render_with_label_does_not_panic() {
    let bar = render(
        area(30),
        ProgressBarConfig {
            ratio_bits: 0.5f64.to_bits(),
            label: Some("test".to_string()),
            use_unicode_weight: false,
        },
    )
    .unwrap();
    assert_eq!(bar.label.as_deref(), Some("test"));
}

#[test]
fn render_unicode_mode_does_not_panic() {
    let bar = render_gauge(0.375, 20, true).unwrap();
    assert_eq!(bar.symbols, BarSymbols::Blocks);
    assert_eq!(f64::from_bits(bar.ratio_bits), 0.375);
}
