use maki::span::{Area, Color, Span, Style};
use maki::step_slider::{
    effort_steps, KeyCode, SliderDraw, Step, StepSlider, StepSliderAction,
};

const STEPS: &[Step] = &[
    Step { label: "a", color: Color::Green, desc: "desc a" },
    Step { label: "b", color: Color::Yellow, desc: "desc b" },
    Step { label: "c", color: Color::Red, desc: "desc c" },
];

fn area(width: u16, height: u16) -> Area {
    Area { x: 3, y: 4, width, height }
}

fn texts(row: &[Span]) -> String {
    row.iter().map(|s| s.text.as_str()).collect()
}

fn shown(selected: usize) -> StepSlider {
    let mut slider = StepSlider::with_selected(selected);
    slider.show();
    slider
}

#[test]
fn default_state() {
    let s = StepSlider::new();
    assert_eq!(s.selected(), 0);
    assert!(!s.is_visible());
    let d = StepSlider::default();
    assert_eq!(d.selected(), 0);
    assert!(!d.is_visible());
}

#[test]
fn with_selected_sets_index() {
    let s = StepSlider::with_selected(2);
    assert_eq!(s.selected(), 2);
}

#[test]
fn navigation() {
    let cases: [(usize, KeyCode, usize, StepSliderAction); 6] = [
        (0, KeyCode::Left, 0, StepSliderAction::Consumed),
        (1, KeyCode::Left, 0, StepSliderAction::Changed(0)),
        (2, KeyCode::Left, 1, StepSliderAction::Changed(1)),
        (0, KeyCode::Right, 1, StepSliderAction::Changed(1)),
        (1, KeyCode::Right, 2, StepSliderAction::Changed(2)),
        (2, KeyCode::Right, 2, StepSliderAction::Consumed),
    ];
    for (start, code, expected_idx, expected_action) in cases {
        let mut s = StepSlider::with_selected(start);
        let action = s.handle_key(code, STEPS.len());
        assert_eq!(action, expected_action);
        assert_eq!(s.selected(), expected_idx);
    }
}

#[test]
fn digit_shortcut() {
    let cases: [(char, usize); 4] = [('1', 0), ('2', 1), ('3', 2), ('4', 0)];
    for (ch, expected) in cases {
        let mut s = StepSlider::new();
        s.handle_key(KeyCode::Char(ch), STEPS.len());
        assert_eq!(s.selected(), expected);
    }
}

#[test]
fn letters_and_odd_characters() {
    let mut s = StepSlider::with_selected(1);
    assert_eq!(s.handle_key(KeyCode::Char('l'), 3), StepSliderAction::Changed(2));
    assert_eq!(s.handle_key(KeyCode::Char('h'), 3), StepSliderAction::Changed(1));
    assert_eq!(s.handle_key(KeyCode::Char('4'), 3), StepSliderAction::Consumed);
    assert_eq!(s.handle_key(KeyCode::Other, 3), StepSliderAction::Consumed);
    assert_eq!(s.selected(), 1);
    // The characters below the digit one select the first step.
    assert_eq!(s.handle_key(KeyCode::Char('0'), 3), StepSliderAction::Changed(0));
    for c in ['\u{133}', 'ſ', '\u{1f600}', 'z'] {
        let idx = (c as u8).saturating_sub(b'1') as usize;
        let expected = if idx < 3 {
            StepSliderAction::Changed(idx)
        } else {
            StepSliderAction::Consumed
        };
        assert_eq!(StepSlider::new().handle_key(KeyCode::Char(c), 3), expected);
    }
}

#[test]
fn visibility_toggle() {
    let mut s = StepSlider::new();
    assert!(!s.is_visible());
    s.show();
    assert!(s.is_visible());
    s.conceal();
    assert!(!s.is_visible());
    s.set_visible(true);
    assert!(s.is_visible());
}

#[test]
fn set_selected_updates() {
    let mut s = StepSlider::new();
    s.set_selected(2);
    assert_eq!(s.selected(), 2);
}

#[test]
fn height_is_constant() {
    assert_eq!(StepSlider::height(), 2);
}

#[test]
fn description_line_returns_italic() {
    let s = StepSlider::new();
    let line = s.description_line(STEPS);
    assert!(!line.is_empty());
    assert_eq!(line[0].text, "desc a");
    assert_eq!(line[0].style, Style::Italic(Color::Foreground));
}

#[test]
fn effort_steps_have_three_levels() {
    let steps = effort_steps();
    assert_eq!(steps.len(), 3);
    assert_eq!(steps[0].label, "low");
    assert_eq!(steps[1].label, "medium");
    assert_eq!(steps[2].label, "high");
}

#[test]
fn right_arrow_at_end_returns_consumed() {
    let mut s = StepSlider::with_selected(2);
    let action = s.handle_key(KeyCode::Right, 3);
    assert_eq!(action, StepSliderAction::Consumed);
    assert_eq!(s.selected(), 2);
}

#[test]
fn left_arrow_at_start_returns_consumed() {
    let mut s = StepSlider::new();
    let action = s.handle_key(KeyCode::Left, 3);
    assert_eq!(action, StepSliderAction::Consumed);
    assert_eq!(s.selected(), 0);
}

#[test]
fn markers_stand_in_order() {
    assert_eq!(StepSlider::compute_positions(11, 3), [0, 5, 10]);
    assert_eq!(StepSlider::compute_positions(10, 3), [0, 4, 9]);
    assert_eq!(StepSlider::compute_positions(10, 4), [0, 3, 6, 9]);
    assert_eq!(StepSlider::compute_positions(4, 4), [0, 1, 2, 3]);
    assert_eq!(StepSlider::compute_positions(10, 2), [0, 9]);
    assert_eq!(StepSlider::compute_positions(10, 1), [5]);
    assert_eq!(StepSlider::compute_positions(0, 1), [0]);
    assert_eq!(StepSlider::compute_positions(2, 4), [0, 0, 0, 1]);
}

#[test]
fn rows_show_the_selected_step() {
    let view = match shown(1).render(area(40, 5), "Effort", STEPS) {
        SliderDraw::Rows(view) => view,
        other => panic!("unexpected draw {other:?}"),
    };
    // The track takes three tenths of forty columns, less two.
    assert_eq!(texts(&view.track), "Effort  ◀ ○━━━◉━━━━○ ▶");
    assert_eq!(texts(&view.labels), "          a   b    c ");
    assert_eq!(view.area, Area { x: 3, y: 4, width: 21, height: 2 });
    let styles: Vec<Style> = view.track.iter().map(|s| s.style).collect();
    assert_eq!(styles[2], Style::Tinted(Color::Yellow));
    assert_eq!(styles[5], Style::Tinted(Color::Yellow));
    assert_eq!(styles[9], Style::Tinted(Color::Gray));
    assert_eq!(styles[15], Style::Tinted(Color::Yellow));
    assert_eq!(view.labels[10].style, Style::Tinted(Color::Gray));
    assert_eq!(view.labels[14].style, Style::Tinted(Color::Yellow));
}

#[test]
fn arrows_lose_their_colour_at_the_ends() {
    for (selected, left, right) in [
        (0, Color::Foreground, Color::Green),
        (2, Color::Red, Color::Foreground),
    ] {
        match shown(selected).render(area(40, 2), "E", STEPS) {
            SliderDraw::Rows(view) => {
                assert_eq!(view.track[2].style, Style::Tinted(left));
                assert_eq!(view.track[view.track.len() - 1].style, Style::Tinted(right));
            }
            other => panic!("unexpected draw {other:?}"),
        }
    }
}

#[test]
fn nothing_is_drawn_without_room() {
    assert!(matches!(StepSlider::new().render(area(40, 2), "E", STEPS), SliderDraw::Nothing));
    assert!(matches!(shown(0).render(area(40, 1), "E", STEPS), SliderDraw::Nothing));
    assert!(matches!(shown(0).render(area(0, 2), "E", STEPS), SliderDraw::Nothing));
    assert!(matches!(shown(0).render(area(40, 2), "E", &[]), SliderDraw::Nothing));
    let long = "x".repeat(40);
    assert!(matches!(shown(0).render(area(40, 2), &long, STEPS), SliderDraw::Nothing));
    assert!(matches!(shown(5).render(area(40, 2), "E", STEPS), SliderDraw::Impossible));
    assert!(matches!(shown(0).render(area(6, 2), "E", STEPS), SliderDraw::Impossible));
    assert!(matches!(shown(0).render(area(12, 2), "E", STEPS), SliderDraw::Impossible));
}

#[test]
fn wide_labels_take_their_width() {
    // Each of these characters takes two columns.
    let steps = [Step { label: "幅", color: Color::Red, desc: "" }];
    match shown(0).render(area(40, 2), "漢字", &steps) {
        SliderDraw::Rows(view) => {
            assert_eq!(view.area.width, 4 + 4 + 10 + 2);
            assert_eq!(view.labels.len(), 4 + 4 + 10 + 2);
            assert_eq!(view.labels[4 + 4 + 5].text, "幅");
        }
        other => panic!("unexpected draw {other:?}"),
    }
}

#[test]
fn track_width_agrees_with_floating_point() {
    for width in 0..=u16::MAX {
        assert_eq!(((width as f64) * 0.3) as usize, 3 * width as usize / 10);
    }
}
