use cosmic_panel::panel_minimize::{
    minimized_on_output, update_toplevel, rectangle_targets, set_rectangles, MinimizeApplet,
    WindowOutputs,
};

fn applet(priority: i32, x: i32, surface: u64) -> MinimizeApplet {
    MinimizeApplet { priority, x, y: 0, w: 40, h: 40, surface }
}

fn window(id: u64, outputs: Vec<Option<&str>>, minimized: bool) -> WindowOutputs {
    WindowOutputs { id, outputs: outputs.into_iter().map(|o| o.map(|s| s.to_string())).collect(), minimized }
}

#[test]
fn first_announcement_is_recorded() {
    assert_eq!(set_rectangles(None, applet(1, 10, 5), true), (applet(1, 10, 5), true));
}

#[test]
fn recorded_applet_moves() {
    let (rec, changed) = set_rectangles(Some(applet(3, 10, 5)), applet(1, 50, 5), true);
    assert!(changed);
    assert_eq!(rec, applet(3, 50, 5));
}

#[test]
fn same_rectangle_changes_nothing() {
    assert_eq!(set_rectangles(Some(applet(3, 10, 5)), applet(3, 10, 5), true), (applet(3, 10, 5), false));
}

#[test]
fn higher_priority_replaces() {
    assert_eq!(set_rectangles(Some(applet(1, 10, 5)), applet(2, 90, 6), true), (applet(2, 90, 6), true));
    assert_eq!(set_rectangles(Some(applet(2, 10, 5)), applet(1, 90, 6), true), (applet(2, 10, 5), false));
}

#[test]
fn dead_surface_is_replaced() {
    assert_eq!(set_rectangles(Some(applet(9, 10, 5)), applet(1, 90, 6), false), (applet(1, 90, 6), true));
}

#[test]
fn windows_on_output() {
    let windows = vec![
        window(1, vec![Some("DP-1")], false),
        window(2, vec![None, Some("HDMI-1")], true),
        window(3, vec![Some("HDMI-1"), Some("DP-1")], true),
    ];
    assert_eq!(rectangle_targets(&windows, &"DP-1".to_string()), vec![1, 3]);
    assert_eq!(minimized_on_output(&windows, &"DP-1".to_string()), vec![3]);
    assert_eq!(minimized_on_output(&windows, &"HDMI-1".to_string()), vec![2, 3]);
    assert!(rectangle_targets(&windows, &"eDP-1".to_string()).is_empty());
}

#[test]
fn window_gets_first_matching_record() {
    let records = vec![("HDMI-1".to_string(), applet(1, 1, 1)), ("DP-1".to_string(), applet(2, 2, 2))];
    let w = window(1, vec![Some("DP-1"), Some("HDMI-1")], false);
    assert_eq!(update_toplevel(&records, &w), Some(applet(1, 1, 1)));
    let w = window(2, vec![Some("DP-1")], false);
    assert_eq!(update_toplevel(&records, &w), Some(applet(2, 2, 2)));
    let w = window(3, vec![None], false);
    assert_eq!(update_toplevel(&records, &w), None);
}
