use sitekit::config::{Game, Quote, StartMenuItem};
use sitekit::desktop::{
    bubble_shown, clippy_icon_is_url, clippy_style, contributors_line, current_quote, demo_kind,
    drag_offset, dragged_to, format_clock, game_icon_src, icon_click, launch_label,
    next_quote_index, outside_click_hides, raised, start_icon_is_url, start_menu_label,
    taskbar_buttons, tech_icon_src, webamp_layout, window_style, window_title, DemoKind, IconClick,
};
use sitekit::state::WindowState;

fn game(id: &str, title: &str) -> Game {
    Game {
        id: id.to_string(),
        title: title.to_string(),
        description: String::new(),
        contributors: vec![],
        tech: vec![],
        icon: String::new(),
        demo: None,
        launch_url: String::new(),
        launch_type: "wasm".to_string(),
        launch_label: String::new(),
    }
}

#[test]
fn icons_as_urls() {
    assert!(clippy_icon_is_url("https://x/y.png"));
    assert!(clippy_icon_is_url("img/clippy.png"));
    assert!(!clippy_icon_is_url("📎"));
    assert!(!clippy_icon_is_url("clippy.png"));
    assert!(start_icon_is_url("clippy.png"));
    assert!(!start_icon_is_url("🪟"));
}

#[test]
fn clock() {
    assert_eq!(format_clock(0, 5), "12:05 AM");
    assert_eq!(format_clock(9, 30), "09:30 AM");
    assert_eq!(format_clock(12, 0), "12:00 PM");
    assert_eq!(format_clock(23, 59), "11:59 PM");
}

#[test]
fn taskbar() {
    let games = vec![game("a", "Alpha"), game("b", "Beta")];
    assert_eq!(window_title(&games, "b"), "Beta");
    assert_eq!(window_title(&games, "zzz"), "zzz");
    let windows = vec![
        WindowState { game_id: "a".to_string(), open: false, pos: (0, 0), z_index: 1 },
        WindowState { game_id: "b".to_string(), open: true, pos: (0, 0), z_index: 2 },
        WindowState { game_id: "c".to_string(), open: true, pos: (0, 0), z_index: 3 },
    ];
    assert_eq!(
        taskbar_buttons(&windows, &games),
        vec![("b".to_string(), "Beta".to_string()), ("c".to_string(), "c".to_string())]
    );
    let item = StartMenuItem { icon: "★".to_string(), title: "Home".to_string(), url: String::new() };
    assert_eq!(start_menu_label(&item), "★ Home");
}

#[test]
fn assistant() {
    let quotes = vec![Quote { text: "hi".to_string() }, Quote { text: "yo".to_string() }];
    assert_eq!(current_quote(&quotes, 1), "yo");
    assert_eq!(current_quote(&quotes, 5), "");
    assert_eq!(next_quote_index(1, 2), 0);
    assert_eq!(next_quote_index(0, 2), 1);
    assert_eq!(next_quote_index(3, 0), 3);
    assert_eq!(next_quote_index(usize::MAX, 0), usize::MAX);
    assert!(bubble_shown(true, "hi"));
    assert!(!bubble_shown(true, ""));
    assert_eq!(icon_click(true, false), IconClick::Ignore);
    assert_eq!(icon_click(false, false), IconClick::ShowBubble);
    assert_eq!(icon_click(false, true), IconClick::OpenModal);
    assert!(outside_click_hides(true, false));
    assert!(!outside_click_hides(true, true));
    assert_eq!(
        clippy_style(Some((-5, 40))),
        "position:fixed; left:-5px; top:40px; right:auto; bottom:auto; z-index:10;"
    );
    assert_eq!(clippy_style(None), "");
}

#[test]
fn windows() {
    let off = drag_offset((120, 80), (100, 50));
    assert_eq!(off, (20, 30));
    assert_eq!(dragged_to((150, 90), off), (130, 60));
    assert_eq!(
        window_style((10, -3), 101, (-4, 7)),
        "position:absolute; left:10px; top:-3px; z-index:101; width:480px; min-height:300px; --jitter-x:-4px; --jitter-y:7px;"
    );
    assert_eq!(raised(500), 501);
    assert_eq!(webamp_layout(20, 1000), [(20, 362), (136, 362), (252, 362)]);
    assert_eq!(webamp_layout(20, 100), [(20, 0), (136, 0), (252, 0)]);
}

#[test]
fn project_window() {
    assert_eq!(launch_label("wasm"), "Launch");
    assert_eq!(launch_label("zip"), "Download");
    assert_eq!(demo_kind(Some("d.webm")), DemoKind::Video("d.webm".to_string()));
    assert_eq!(demo_kind(Some("d.gif")), DemoKind::Image("d.gif".to_string()));
    assert_eq!(demo_kind(None), DemoKind::Placeholder);
    assert_eq!(contributors_line(&["A".to_string(), "B".to_string()]), "By: A, B");
    assert_eq!(contributors_line(&[]), "By: ");
    assert!(tech_icon_src("").contains("width='16'"));
    assert_eq!(tech_icon_src("x.png"), "x.png");
    assert!(game_icon_src("").contains("width='48'"));
}
