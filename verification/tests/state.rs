use sitekit::state::WindowManager;
use sitekit::worker::{cors_headers, worker_route, WorkerRoute};

fn ids(names: &[&str]) -> Vec<String> {
    names.iter().map(|s| s.to_string()).collect()
}

#[test]
fn new_window_manager_cascades_closed_windows() {
    let wm = WindowManager::new(ids(&["a", "b", "c"]));
    assert_eq!(wm.z_counter, 100);
    assert_eq!(wm.windows.len(), 3);
    for (i, w) in wm.windows.iter().enumerate() {
        assert!(!w.open);
        assert_eq!(w.z_index, 100);
        let off = 50 + 30 * i as i32;
        assert_eq!(w.pos, (off, off));
    }
    assert_eq!(wm.windows[2].game_id, "c");
}

#[test]
fn open_raises_window_above_others() {
    let mut wm = WindowManager::new(ids(&["a", "b"]));
    wm.open_window("b");
    assert_eq!(wm.z_counter, 101);
    assert!(wm.windows[1].open);
    assert_eq!(wm.windows[1].z_index, 101);
    wm.open_window("a");
    assert!(wm.windows[0].z_index > wm.windows[1].z_index);
    wm.focus_window("b");
    assert!(wm.windows[1].z_index > wm.windows[0].z_index);
    assert_eq!(wm.z_counter, 103);
}

#[test]
fn close_and_move_touch_only_their_window() {
    let mut wm = WindowManager::new(ids(&["a", "b"]));
    wm.open_window("a");
    wm.open_window("b");
    wm.close_window("a");
    assert!(!wm.windows[0].open);
    assert!(wm.windows[1].open);
    wm.move_window("b", (-5, 7));
    assert_eq!(wm.windows[1].pos, (-5, 7));
    assert_eq!(wm.windows[0].pos, (50, 50));
    assert_eq!(wm.z_counter, 102);
    let open = wm.open_windows();
    assert_eq!(open.len(), 1);
    assert_eq!(open[0].game_id, "b");
}

#[test]
fn unknown_id_still_advances_counter() {
    let mut wm = WindowManager::new(ids(&["a"]));
    wm.focus_window("zzz");
    assert_eq!(wm.z_counter, 101);
    assert_eq!(wm.windows[0].z_index, 100);
}

#[test]
fn close_after_open_restores_open_set() {
    let mut wm = WindowManager::new(ids(&["a", "b"]));
    wm.open_window("a");
    let before: Vec<String> = wm.open_windows().iter().map(|w| w.game_id.clone()).collect();
    wm.open_window("b");
    wm.close_window("b");
    let after: Vec<String> = wm.open_windows().iter().map(|w| w.game_id.clone()).collect();
    assert_eq!(before, after);
}

#[test]
fn cors_headers_are_the_three_fixed_pairs() {
    let h = cors_headers();
    assert_eq!(
        h,
        vec![
            ("Access-Control-Allow-Origin".to_string(), "*".to_string()),
            ("Access-Control-Allow-Methods".to_string(), "POST, OPTIONS".to_string()),
            ("Access-Control-Allow-Headers".to_string(), "Content-Type".to_string()),
        ]
    );
}

#[test]
fn worker_routes_requests() {
    assert_eq!(worker_route("OPTIONS", "/anything"), WorkerRoute::Preflight);
    assert_eq!(worker_route("POST", "/exchange"), WorkerRoute::Exchange);
    assert_eq!(worker_route("POST", "/other"), WorkerRoute::NotFound);
    assert_eq!(worker_route("GET", "/exchange"), WorkerRoute::NotFound);
}
