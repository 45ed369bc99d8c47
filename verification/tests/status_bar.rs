use maki::llama_cpp_sse::{LoadingStatus, ModelLoadingState};
use maki::number::{percent_of, round_div, single_bits_of, tenths_of};
use maki::span::{Area, Color, Span, Style};
use maki::status_bar::{
    collapse_home, collapse_home_with, cwd_branch_label, detect_branch, format_tokens,
    loading_widths, nearest_git_dir, place_right, render_loading_bar, right_alloc, Costs, Draw, RetryInfo, Status,
    StatusBar, StatusBarContext, UsageStats,
};

const SECOND: u128 = 1_000_000_000;

fn bar() -> StatusBar {
    StatusBar::new(SECOND, "~/app:main".to_string())
}

fn context() -> StatusBarContext {
    StatusBarContext {
        status: Status::Idle,
        spinner: "*".to_string(),
        mode_label: "BUILD".to_string(),
        model_id: "m".to_string(),
        stats: UsageStats {
            context_size: 12_345,
            context_window: 200_000,
            costs: None,
            show_global: false,
        },
        auto_scroll: true,
        chat_name: None,
        retry_info: None,
        thinking_label: None,
        fast: false,
        workflow: false,
        restoring: false,
        model_loading: None,
    }
}

fn loading(status: LoadingStatus) -> Option<ModelLoadingState> {
    Some(ModelLoadingState {
        model: "m".to_string(),
        stage: String::new(),
        stages: Vec::new(),
        progress_bits: 0.5f32.to_bits(),
        status,
    })
}

fn texts(spans: &[Span]) -> Vec<&str> {
    spans.iter().map(|s| s.text.as_str()).collect()
}

fn row(width: u16) -> Area {
    Area { x: 0, y: 7, width, height: 1 }
}

#[test]
fn format_tokens_display() {
    let cases: [(u32, &str); 6] = [
        (999, "999"),
        (1_000, "1.0k"),
        (12_345, "12.3k"),
        (999_999, "1000.0k"),
        (1_000_000, "1.0m"),
        (1_500_000, "1.5m"),
    ];
    for (input, expected) in cases {
        assert_eq!(format_tokens(input), expected);
    }
}

#[test]
fn tokens_agree_with_floating_point() {
    for n in 1_000..1_000_000u32 {
        if n % 100 == 50 || n % 977 == 0 {
            assert_eq!(format_tokens(n), format!("{:.1}k", n as f64 / 1_000.0));
        }
    }
    let mut n: u32 = 1_050_000;
    while n < 4_294_900_000 {
        for m in [n - 1, n, n + 1] {
            assert_eq!(format_tokens(m), format!("{:.1}m", m as f64 / 1_000_000.0));
        }
        n += 50_000;
    }
    assert_eq!(format_tokens(u32::MAX), format!("{:.1}m", u32::MAX as f64 / 1_000_000.0));
    assert_eq!(tenths_of(1_250, 1_000), 12);
    assert_eq!(tenths_of(1_750, 1_000), 18);
}

#[test]
fn percentages_agree_with_floating_point() {
    let float = |a: u32, b: u32| if b > 0 { (a as f64 / b as f64 * 100.0) as u32 } else { 0 };
    for a in 0..400u32 {
        for b in 0..400u32 {
            assert_eq!(percent_of(a, b), float(a, b));
        }
    }
    let mut seed: u64 = 7;
    for _ in 0..20_000 {
        seed = seed.wrapping_mul(6_364_136_223_846_793_005).wrapping_add(1_442_695_040_888_963_407);
        let a = (seed >> 32) as u32 >> (seed % 29);
        let b = (seed >> 16) as u32 >> (seed % 31);
        assert_eq!(percent_of(a, b), float(a, b));
    }
    assert_eq!(percent_of(u32::MAX, 1), u32::MAX);
    assert_eq!(percent_of(29, 100), 28);
    assert_eq!(percent_of(1, u32::MAX), 0);
}

#[test]
fn single_bits_agree_with_floating_point() {
    for n in (0..70_000u32).chain([0xff_ffff, 0x100_0000, 0x100_0001, 0x100_0003, u32::MAX]) {
        assert_eq!(single_bits_of(n), (n as f32).to_bits());
    }
    let mut n: u32 = 3;
    while n < 4_000_000_000 {
        assert_eq!(single_bits_of(n), (n as f32).to_bits());
        n = n / 2 * 3 + 1;
    }
    assert_eq!(round_div(5, 2), 2);
    assert_eq!(round_div(7, 2), 4);
    assert_eq!(round_div(8, 3), 3);
}

#[test]
fn collapse_home_cases() {
    let cases: [(&str, &str, &str); 3] = [
        ("/home/user/projects/app", "/home/user", "~/projects/app"),
        ("/tmp/other", "/home/user", "/tmp/other"),
        ("/home/user", "/home/user", "~"),
    ];
    for (path, home, expected) in cases {
        assert_eq!(collapse_home_with(path, home), expected);
        assert_eq!(collapse_home(path, Some(home)), expected);
        assert_eq!(collapse_home(path, None), path);
    }
}

#[test]
fn detect_branch_cases() {
    let cases: [(Option<&str>, Option<&str>); 3] = [
        (Some("ref: refs/heads/feature/foo\n"), Some("feature/foo")),
        (Some("abc1234deadbeef\n"), Some("abc1234")),
        (None, None),
    ];
    for (head, expected) in cases {
        assert_eq!(detect_branch(head), expected.map(String::from));
    }
}

#[test]
fn detect_branch_from_subdirectory() {
    assert_eq!(nearest_git_dir(&[false, true, false]), Some(1));
    assert_eq!(detect_branch(Some("ref: refs/heads/main\n")), Some("main".to_string()));
    assert_eq!(nearest_git_dir(&[true, true]), Some(0));
    assert_eq!(nearest_git_dir(&[false, false]), None);
    assert_eq!(nearest_git_dir(&[]), None);
}

#[test]
fn a_short_commit_is_no_branch() {
    assert_eq!(detect_branch(Some("abc123\n")), None);
    assert_eq!(detect_branch(Some("  abc1234 ")).as_deref(), Some("abc1234"));
    // The seventh byte lies inside a character.
    assert_eq!(detect_branch(Some("abcdefé")), None);
    assert_eq!(detect_branch(Some("abcdeéx")).as_deref(), Some("abcdeé"));
    assert_eq!(detect_branch(Some("ref: refs/heads/")).as_deref(), Some(""));
}

#[test]
fn labels_name_the_branch() {
    assert_eq!(cwd_branch_label("/h/u/a", Some("/h/u"), Some("main")), "~/a:main");
    assert_eq!(cwd_branch_label("/h/u/a", None, None), "/h/u/a");
}

#[test]
fn clear_expired_hint_removes_stale_flash() {
    let mut bar = StatusBar::new(0, String::new());
    bar.flash("Copied".into(), 5);
    bar.clear_expired_hint(5);
    assert!(bar.flash.is_none());
}

#[test]
fn clear_flash_removes_flash() {
    let mut bar = StatusBar::new(999 * SECOND, String::new());
    bar.flash("Copied".into(), 5);
    assert_eq!(bar.flash_text(), Some("Copied"));
    bar.clear_flash();
    assert!(bar.flash.is_none());
    assert_eq!(bar.flash_text(), None);
}

#[test]
fn a_flash_stays_as_long_as_it_should() {
    let mut bar = bar();
    bar.flash("Copied".to_string(), 10);
    bar.clear_expired_hint(3);
    bar.clear_expired_hint(9 + SECOND);
    assert_eq!(bar.flash_text(), Some("Copied"));
    bar.clear_expired_hint(10 + SECOND);
    assert_eq!(bar.flash_text(), None);
}

#[test]
fn the_branch_follows_its_file() {
    let mut bar = bar();
    bar.poll_branch_update(false, "~/app:dev".to_string());
    assert_eq!(bar.cwd_branch, "~/app:main");
    bar.poll_branch_update(true, "~/app:dev".to_string());
    assert_eq!(bar.cwd_branch, "~/app:dev");
    bar.refresh_cwd("/tmp".to_string());
    assert_eq!(bar.cwd_branch, "/tmp");
}

#[test]
fn the_left_side_tells_what_goes_on() {
    assert_eq!(texts(&bar().left(&context(), 0)), [" BUILD"]);
    let mut bar = bar();
    bar.flash("Copied".to_string(), 0);
    let busy = StatusBarContext {
        status: Status::Streaming,
        restoring: true,
        auto_scroll: false,
        chat_name: Some("sub".to_string()),
        retry_info: Some(RetryInfo {
            attempt: 2,
            message: "busy".to_string(),
            deadline: 7 * SECOND + 5,
        }),
        ..context()
    };
    let spans = bar.left(&busy, 4 * SECOND);
    assert_eq!(
        texts(&spans),
        [
            " *",
            " *",
            " BUILD",
            " [sub]",
            " auto-scroll paused",
            " busy",
            " · retrying in 3s (#2)",
            " Copied",
        ]
    );
    let styles: Vec<Style> = spans.iter().map(|s| s.style).collect();
    assert_eq!(
        styles,
        [
            Style::Spinner,
            Style::Notice,
            Style::Mode,
            Style::Dim,
            Style::Dim,
            Style::RetryError,
            Style::RetryInfo,
            Style::Notice,
        ]
    );
    assert_eq!(texts(&bar.left(&busy, 9 * SECOND))[6], " · retrying in 0s (#2)");
}

#[test]
fn the_right_side_tells_of_model_and_cost() {
    assert_eq!(texts(&bar().right(&context())), ["~/app:main", "  ", "m", "  12.3k/200.0k (6%) "]);
    let full = StatusBarContext {
        thinking_label: Some("high".to_string()),
        fast: true,
        workflow: true,
        stats: UsageStats {
            context_size: 500,
            context_window: 0,
            costs: Some(Costs { own: "0.125".to_string(), global: "1.500".to_string() }),
            show_global: true,
        },
        ..context()
    };
    let spans = bar().right(&full);
    assert_eq!(
        texts(&spans),
        [
            "~/app:main",
            "  ",
            "m",
            " [high]",
            " [fast]",
            " [workflow]",
            "  500/0 (0%) $0.125 ",
            " \u{03a3}$1.500 ",
        ]
    );
    assert_eq!(spans[1].style, Style::Plain);
    assert_eq!(spans[7].style, Style::Tinted(Color::Foreground));
}

#[test]
fn an_error_takes_the_place_of_the_right_side() {
    let failed = StatusBarContext {
        status: Status::Error { message: "boom".to_string() },
        ..context()
    };
    assert_eq!(texts(&bar().left(&failed, 0)), [" BUILD", " boom"]);
    assert!(bar().right(&failed).is_empty());
    let draws = bar().view(row(40), &failed, 0).unwrap();
    assert_eq!(draws.len(), 2);
}

#[test]
fn the_bar_fills_its_row() {
    let draws = bar().view(row(80), &context(), 0).unwrap();
    assert_eq!(draws.len(), 2);
    match (&draws[0], &draws[1]) {
        (
            Draw::Text { spans: left, area: left_area, from_right: false },
            Draw::Text { spans: right, area: right_area, from_right: true },
        ) => {
            assert_eq!(texts(left), [" BUILD"]);
            let width: usize = texts(right).iter().map(|t| t.len()).sum();
            assert_eq!(right_area.width as usize, width);
            assert_eq!(left_area.width + right_area.width, 80);
            assert_eq!(right_area.x, left_area.width);
            assert_eq!(left_area.y, 7);
            assert_eq!(right_area.height, 1);
        }
        other => panic!("unexpected draws {other:?}"),
    }
}

#[test]
fn wide_characters_take_two_columns() {
    let wide = StatusBarContext { model_id: "漢字".to_string(), ..context() };
    let plain = StatusBarContext { model_id: "abcd".to_string(), ..context() };
    let right_width = |ctx: &StatusBarContext| match &bar().view(row(80), ctx, 0).unwrap()[1] {
        Draw::Text { area, .. } => area.width,
        other => panic!("unexpected draw {other:?}"),
    };
    assert_eq!(right_width(&wide), right_width(&plain));
}

#[test]
fn a_loading_model_has_a_gauge() {
    let ctx = StatusBarContext { model_loading: loading(LoadingStatus::Loading), ..context() };
    let spans = bar().right(&ctx);
    assert_eq!(texts(&spans)[2], " Loading model ");
    let (front, last) = loading_widths(&spans).unwrap();
    assert_eq!((front, last), (27, 20));
    assert_eq!(right_alloc(front + last, &ctx.model_loading), front + 20 + last);
    let draws = bar().view(row(100), &ctx, 0).unwrap();
    assert_eq!(draws.len(), 4);
    match (&draws[1], &draws[2], &draws[3]) {
        (
            Draw::Text { spans: content, area: a, from_right: false },
            Draw::Gauge { area: b, progress_bits },
            Draw::Text { spans: context, area: c, from_right: false },
        ) => {
            assert_eq!(content.len(), 3);
            assert_eq!(texts(context), ["  12.3k/200.0k (6%) "]);
            assert_eq!(f32::from_bits(*progress_bits), 0.5);
            assert_eq!((a.width, b.width, c.width), (27, 20, 20));
            assert_eq!(a.x + a.width, b.x);
            assert_eq!(b.x + b.width, c.x);
        }
        other => panic!("unexpected draws {other:?}"),
    }
}

#[test]
fn a_flat_area_holds_nothing() {
    let spans = bar().right(&context());
    let flat = Area { x: 0, y: 0, width: 0, height: 1 };
    assert!(render_loading_bar(&spans, 0, flat, flat, flat).is_empty());
    assert_eq!(render_loading_bar(&spans, 0, row(5), flat, row(5)).len(), 2);
    assert_eq!(render_loading_bar(&Vec::new(), 0, row(5), row(5), row(5)).len(), 1);
    assert_eq!(loading_widths(&Vec::new()), Some((0, 0)));
}

#[test]
fn a_failed_model_is_told_of() {
    let ctx = StatusBarContext { model_loading: loading(LoadingStatus::Failed), ..context() };
    let draws = bar().view(row(100), &ctx, 0).unwrap();
    match &draws[1] {
        Draw::Text { spans, area, from_right: true } => {
            assert_eq!(
                texts(spans),
                ["~/app:main", "  ", " (load failed)", "m", "  12.3k/200.0k (6%) "]
            );
            assert_eq!(area.width as usize, texts(spans).iter().map(|t| t.len()).sum::<usize>());
            assert_eq!(spans[2].style, Style::Error);
        }
        other => panic!("unexpected draw {other:?}"),
    }
    assert_eq!(right_alloc(u16::MAX - 3, &ctx.model_loading), u16::MAX);
    let placed = place_right(bar().right(&context()), &None, row(9), &Vec::new());
    assert_eq!(placed.len(), 1);
}

#[test]
fn text_beyond_all_bounds_is_not_drawn() {
    let long = StatusBarContext { model_id: "x".repeat(65_520), ..context() };
    assert!(bar().view(row(80), &long, 0).is_none());
}

#[test]
fn the_two_sides_share_any_row() {
    for x in [0u16, 3, 1_000, 60_000] {
        for width in (0..90u16).chain([255, 1_000, 5_535]) {
            for model in ["", "m", "a-rather-long-model-name"] {
                let ctx = StatusBarContext { model_id: model.to_string(), ..context() };
                let area = Area { x, y: 2, width, height: 1 };
                let spans = bar().right(&ctx);
                let asked: usize = texts(&spans).iter().map(|t| t.len()).sum();
                let right_width = (asked as u16).min(width);
                let draws = bar().view(area, &ctx, 0).unwrap();
                match (&draws[0], &draws[1]) {
                    (Draw::Text { area: left, .. }, Draw::Text { area: right, .. }) => {
                        assert_eq!(*left, Area { width: width - right_width, ..area });
                        let start = x + width - right_width;
                        assert_eq!(*right, Area { x: start, width: right_width, ..area });
                    }
                    other => panic!("unexpected draws {other:?}"),
                }
            }
        }
    }
}

#[test]
fn the_parts_of_the_right_side_stand_in_a_row() {
    let ctx = StatusBarContext { model_loading: loading(LoadingStatus::Loading), ..context() };
    let (front, last) = loading_widths(&bar().right(&ctx)).unwrap();
    let asked = front + 20 + last;
    for x in [0u16, 7, 50_000] {
        for width in (asked..asked + 40).chain([500, 9_999]) {
            let area = Area { x, y: 0, width, height: 3 };
            let draws = bar().view(area, &ctx, 0).unwrap();
            let start = x + width - asked;
            match (&draws[1], &draws[2], &draws[3]) {
                (
                    Draw::Text { area: content, .. },
                    Draw::Gauge { area: gauge, .. },
                    Draw::Text { area: context, .. },
                ) => {
                    assert_eq!(*content, Area { x: start, width: front, ..area });
                    assert_eq!(*gauge, Area { x: start + front, width: 20, ..area });
                    assert_eq!(*context, Area { x: start + front + 20, width: last, ..area });
                }
                other => panic!("unexpected draws {other:?}"),
            }
        }
    }
    // In a narrower row the parts fill it, none wider than it asks.
    for x in [0u16, 7, 60_000] {
        for width in 0..asked {
            let area = Area { x, y: 1, width, height: 1 };
            let draws = bar().view(area, &ctx, 0).unwrap();
            let mut end = x;
            for draw in &draws[1..] {
                let (part, most) = match draw {
                    Draw::Gauge { area, .. } => (area, 20),
                    Draw::Text { spans, area, .. } if spans.len() == 1 => (area, last),
                    Draw::Text { area, .. } => (area, front),
                };
                assert_eq!(part.x, end);
                assert!(part.width <= most);
                assert_eq!((part.y, part.height), (1, 1));
                end = part.x + part.width;
            }
            assert_eq!(end, x + width);
        }
    }
}
