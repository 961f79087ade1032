use cosmic_panel::even_layout::{update_window_locations, EvenLayoutInputs, Placed};
use cosmic_panel::panel_geometry::{
    configure_size, constrain_panel_dim, crosswise_position, input_region, layout_windows,
    list_count, max_thickness, section_windows, suggested_sum, window_extent, ConfigureState,
    LaidWindow, PanelWindow, Rect, RegionInputs, SectionClient, WindowGeometry,
};
use cosmic_panel::panel_pointer::{clear_seat_surface, set_seat_surface, keyboard_leave, handle_button, ButtonPlan, auto_click_point, auto_hover, effective_anchor, AutoHover};
use cosmic_panel::panel_space::{
    is_dark, set_margin, AppletAutoClickAnchor, ClientShrinkSize, HoverId, HoverTrack,
    PanelAnchor, PanelBackgroundKind,
};
use cosmic_panel::panel_stack::{dispatch_order, pointer_leave_plan, stack_gaps, stacked_spaces_by_priority, StackMember, StackStep, StackedPanel};
use cosmic_panel::panel_update::{
    config_unchanged, must_recreate, recreated_on_output, ConfigComparison, OutputChoice,
    OutputPanel, Recreated,
};
use cosmic_panel::panel_visibility::{
    current_hover, handle_focus, set_additional_gap, transition_progress, AutoHide, FocusInputs,
    FocusStatus, HoverEntry, Visibility,
};
use cosmic_panel::sorting::{by_key, by_priority_desc, stable_order};
use std::cmp::Ordering;

#[test]
fn shrink_size_pixels() {
    assert_eq!(ClientShrinkSize::AppletUnit(2).to_pixels(32), 72);
    assert_eq!(ClientShrinkSize::AppletUnit(0).to_pixels(32), 4);
    assert_eq!(ClientShrinkSize::AppletUnit(1).to_pixels(40), 44);
    assert_eq!(ClientShrinkSize::Pixel(50).to_pixels(32), 50);
}

#[test]
fn auto_click_anchor_parses_any_case() {
    assert_eq!(AppletAutoClickAnchor::parse("LEFT"), Ok(AppletAutoClickAnchor::Left));
    assert_eq!(AppletAutoClickAnchor::parse("Bottom"), Ok(AppletAutoClickAnchor::Bottom));
    assert_eq!(AppletAutoClickAnchor::parse("start"), Ok(AppletAutoClickAnchor::Start));
    assert_eq!(AppletAutoClickAnchor::parse("auto"), Err(()));
    assert_eq!(AppletAutoClickAnchor::parse("sideways"), Err(()));
    assert_eq!("Center".parse::<AppletAutoClickAnchor>(), Ok(AppletAutoClickAnchor::Center));
    assert_eq!(AppletAutoClickAnchor::default(), AppletAutoClickAnchor::Auto);
}

#[test]
fn hover_track_counts_changes() {
    let mut t = HoverTrack::default();
    assert_eq!(t.generation, 0);
    t.set_hover_id(Some(HoverId::Client(3)));
    t.set_hover_id(None);
    assert_eq!(t.generation, 2);
    assert_eq!(t.hover_id, None);
}

#[test]
fn opposite_anchor_is_an_involution() {
    for a in [PanelAnchor::Left, PanelAnchor::Right, PanelAnchor::Top, PanelAnchor::Bottom] {
        assert_eq!(a.opposite().opposite(), a);
        assert_ne!(a.opposite(), a);
        assert_eq!(a.is_horizontal(), a.opposite().is_horizontal());
    }
    assert_eq!(PanelAnchor::Top.opposite(), PanelAnchor::Bottom);
    assert!(PanelAnchor::Top.is_horizontal());
    assert!(!PanelAnchor::Left.is_horizontal());
}

#[test]
fn margins_by_edge() {
    assert_eq!(set_margin(PanelAnchor::Left, 5, 7), (5, 0, 5, 7));
    assert_eq!(set_margin(PanelAnchor::Right, 5, 7), (5, 7, 5, 0));
    assert_eq!(set_margin(PanelAnchor::Top, 5, 7), (7, 5, 0, 5));
    assert_eq!(set_margin(PanelAnchor::Bottom, 5, 7), (0, 5, 7, 5));
}

#[test]
fn dark_by_background() {
    assert!(is_dark(PanelBackgroundKind::Dark, false));
    assert!(!is_dark(PanelBackgroundKind::Light, true));
    assert!(is_dark(PanelBackgroundKind::ThemeDefault, true));
    assert!(!is_dark(PanelBackgroundKind::Color, false));
}

fn inputs() -> FocusInputs {
    FocusInputs {
        has_layer: true,
        focused: vec![],
        hovered: vec![],
        autohide: Some(AutoHide { wait: 1000, transition: 100, handle: 4 }),
        animating: false,
        output_has_toplevel: true,
        start_instant: 0,
        intellihide: false,
        overlaps_empty: true,
        anchor: PanelAnchor::Top,
        width: 1000,
        height: 40,
        exclusive_zone: true,
        margin: 0,
        additional_gap: 0,
    }
}

fn ours(status: FocusStatus) -> HoverEntry {
    HoverEntry { ours: true, status }
}

#[test]
fn hover_status_folds_latest() {
    let hovered = vec![
        ours(FocusStatus::LastFocused(5)),
        HoverEntry { ours: false, status: FocusStatus::Focused },
        ours(FocusStatus::LastFocused(9)),
        ours(FocusStatus::LastFocused(7)),
    ];
    assert_eq!(current_hover(&hovered, false, true, 1), FocusStatus::LastFocused(9));
    let focused = vec![ours(FocusStatus::Focused), ours(FocusStatus::LastFocused(9))];
    assert_eq!(current_hover(&focused, false, true, 1), FocusStatus::Focused);
    assert_eq!(current_hover(&vec![], true, true, 1), FocusStatus::Focused);
    assert_eq!(current_hover(&vec![], false, false, 1), FocusStatus::Focused);
    assert_eq!(current_hover(&vec![], false, true, 1), FocusStatus::LastFocused(1));
}

#[test]
fn without_autohide_visibility_follows_focus() {
    let mut inp = inputs();
    inp.autohide = None;
    let step = handle_focus(Visibility::Visible, &inp, 10, 0);
    assert_eq!(step.visibility, Visibility::Hidden);
    assert!(!step.dirty);
    inp.focused = vec![FocusStatus::Focused];
    let step = handle_focus(Visibility::Hidden, &inp, 10, 0);
    assert_eq!(step.visibility, Visibility::Visible);
}

#[test]
fn hidden_panel_starts_showing_when_hovered() {
    let mut inp = inputs();
    inp.hovered = vec![ours(FocusStatus::Focused)];
    let step = handle_focus(Visibility::Hidden, &inp, 500, 0);
    assert_eq!(step.visibility, Visibility::TransitionToVisible { last_instant: 500, progress: 0, prev_margin: -36 });
    assert!(step.dirty);
    assert_eq!(step.margins, Some((0, 0, 0, 0)));
}

#[test]
fn visible_panel_hides_after_the_wait() {
    let inp = inputs();
    let step = handle_focus(Visibility::Visible, &inp, 2000, 0);
    assert_eq!(step.visibility, Visibility::TransitionToHidden { last_instant: 2000, progress: 0, prev_margin: 0 });
    let early = handle_focus(Visibility::Visible, &inp, 500, 0);
    assert_eq!(early.visibility, Visibility::Visible);
    assert!(!early.dirty);
}

#[test]
fn sliding_panel_moves_and_finishes() {
    let inp = inputs();
    let vis = Visibility::TransitionToHidden { last_instant: 1000, progress: 50, prev_margin: -5 };
    assert_eq!(transition_progress(vis, 1030), Some(80));
    let step = handle_focus(vis, &inp, 1030, -20);
    assert_eq!(step.visibility, Visibility::TransitionToHidden { last_instant: 1030, progress: 80, prev_margin: -20 });
    assert_eq!(step.anchor_gap, Some(-20));
    assert_eq!(step.exclusive_zone, Some(60));
    assert!(step.close_popups);
    let done = handle_focus(Visibility::TransitionToHidden { last_instant: 1000, progress: 90, prev_margin: -30 }, &inp, 1020, -33);
    assert_eq!(done.visibility, Visibility::Hidden);
    assert_eq!(done.anchor_gap, Some(-36));
    assert_eq!(done.exclusive_zone, Some(40));
}

#[test]
fn hovered_slide_turns_back() {
    let mut inp = inputs();
    inp.hovered = vec![ours(FocusStatus::Focused)];
    let vis = Visibility::TransitionToHidden { last_instant: 1000, progress: 30, prev_margin: -10 };
    let step = handle_focus(vis, &inp, 1010, 0);
    assert_eq!(step.visibility, Visibility::TransitionToVisible { last_instant: 1010, progress: 60, prev_margin: -10 });
}

#[test]
fn clock_going_back_changes_nothing() {
    let inp = inputs();
    let vis = Visibility::TransitionToVisible { last_instant: 1000, progress: 30, prev_margin: -10 };
    assert_eq!(transition_progress(vis, 900), None);
    assert_eq!(transition_progress(Visibility::Visible, 900), None);
    let step = handle_focus(vis, &inp, 900, 0);
    assert_eq!(step.visibility, vis);
    assert!(!step.dirty);
}

#[test]
fn additional_gap_updates_margins_when_shown() {
    let same = set_additional_gap(0, 0, true, Visibility::Visible, false, true, PanelAnchor::Top, 3);
    assert!(!same.changed);
    let shown = set_additional_gap(0, 10, true, Visibility::Visible, false, true, PanelAnchor::Top, 3);
    assert!(shown.changed);
    assert_eq!(shown.margins, Some((10, 3, 0, 3)));
    assert!(shown.reset_anchor_gap);
    let hidden = set_additional_gap(0, 10, true, Visibility::Hidden, false, true, PanelAnchor::Top, 3);
    assert!(hidden.changed);
    assert_eq!(hidden.margins, None);
}

fn stacked(out: &str, anchor: PanelAnchor, autohide: bool, priority: u32) -> StackedPanel {
    StackedPanel { output_name: out.to_string(), anchor, autohide, priority }
}

#[test]
fn stacked_panels_by_priority() {
    let spaces = vec![
        stacked("DP-1", PanelAnchor::Top, true, 5),
        stacked("DP-1", PanelAnchor::Top, false, 10),
        stacked("HDMI-1", PanelAnchor::Top, true, 50),
        stacked("DP-1", PanelAnchor::Bottom, true, 50),
        stacked("DP-1", PanelAnchor::Top, true, 5),
    ];
    assert_eq!(stacked_spaces_by_priority(&spaces, "DP-1", PanelAnchor::Top), vec![1, 4, 0]);
    let mut last_shown = spaces.clone();
    last_shown[4].autohide = false;
    assert_eq!(stacked_spaces_by_priority(&last_shown, "DP-1", PanelAnchor::Top), vec![1, 0]);
    assert_eq!(stacked_spaces_by_priority(&spaces, "eDP-1", PanelAnchor::Top), Vec::<usize>::new());
}

#[test]
fn stack_gaps_accumulate_hiding_panels() {
    let ms = vec![
        StackMember { has_layer: true, autohide: false, visible: true, crosswise: 30 },
        StackMember { has_layer: true, autohide: true, visible: true, crosswise: 40 },
        StackMember { has_layer: false, autohide: true, visible: true, crosswise: 99 },
        StackMember { has_layer: true, autohide: true, visible: false, crosswise: 20 },
    ];
    assert_eq!(
        stack_gaps(&ms),
        vec![
            StackStep::SetGap(0),
            StackStep::Hover { gap: 0, apply: true },
            StackStep::Skip,
            StackStep::Hover { gap: 40, apply: false },
        ]
    );
}

fn win(window: u64, client: u64, toplevel: bool, w: i32, h: i32) -> PanelWindow {
    PanelWindow { window, has_toplevel: toplevel, client, bbox_w: w, bbox_h: h }
}

#[test]
fn section_windows_follow_client_order() {
    let windows = vec![
        win(10, 7, true, 1, 1),
        win(11, 5, true, 1, 1),
        win(12, 7, true, 1, 1),
        win(13, 99, true, 1, 1),
        win(14, 5, false, 1, 1),
    ];
    let clients = vec![
        SectionClient { client: 5, minimize_priority: None },
        SectionClient { client: 7, minimize_priority: Some(2) },
    ];
    assert_eq!(
        section_windows(&windows, &clients),
        vec![
            LaidWindow { index: 0, window: 11, minimize_priority: None },
            LaidWindow { index: 1, window: 10, minimize_priority: Some(2) },
            LaidWindow { index: 2, window: 12, minimize_priority: Some(2) },
        ]
    );
}

#[test]
fn dock_keeps_all_windows_in_center() {
    let windows = vec![win(10, 7, true, 1, 1), win(11, 5, true, 1, 1), win(12, 7, true, 1, 1)];
    let left = vec![SectionClient { client: 5, minimize_priority: None }];
    let center = vec![SectionClient { client: 7, minimize_priority: Some(2) }];
    let right: Vec<SectionClient> = vec![];
    let (l, c, r) = layout_windows(&windows, &left, &center, &right, true);
    assert!(l.is_empty() && r.is_empty());
    assert_eq!(
        c,
        vec![
            LaidWindow { index: 0, window: 11, minimize_priority: None },
            LaidWindow { index: 0, window: 10, minimize_priority: Some(2) },
            LaidWindow { index: 1, window: 12, minimize_priority: Some(2) },
        ]
    );
    let (l2, c2, _) = layout_windows(&windows, &left, &center, &right, false);
    assert_eq!(l2.len(), 1);
    assert_eq!(c2.len(), 2);
}

#[test]
fn window_extent_by_orientation() {
    let g = WindowGeometry { bbox_w: 50, bbox_h: 30, size: Some((40, 0)), bounds: None };
    assert_eq!(window_extent(PanelAnchor::Top, &g), (40, 30, 40));
    assert_eq!(window_extent(PanelAnchor::Left, &g), (30, 40, 30));
    let b = WindowGeometry { bbox_w: 50, bbox_h: 30, size: Some((40, 0)), bounds: Some((20, 10)) };
    assert_eq!(window_extent(PanelAnchor::Bottom, &b), (40, 30, 20));
    assert_eq!(window_extent(PanelAnchor::Right, &b), (30, 40, 10));
    let gs = vec![b, g];
    assert_eq!(suggested_sum(PanelAnchor::Top, &gs), 60);
    assert_eq!(max_thickness(PanelAnchor::Top, &gs), 30);
    assert_eq!(max_thickness(PanelAnchor::Top, &vec![]), 0);
}

#[test]
fn list_counts() {
    assert_eq!(list_count(1, 0, 0, false, false, false), (2, false));
    assert_eq!(list_count(0, 2, 0, false, false, false), (1, true));
    assert_eq!(list_count(0, 0, 0, false, true, true), (3, true));
    assert_eq!(list_count(0, 0, 0, false, false, false), (0, false));
}

#[test]
fn crosswise_positions() {
    assert_eq!(crosswise_position(PanelAnchor::Top, 8, 40, 20), 18);
    assert_eq!(crosswise_position(PanelAnchor::Bottom, 8, 40, 20), 10);
    assert_eq!(crosswise_position(PanelAnchor::Left, 2, 30, 40), -3);
}

#[test]
fn input_regions() {
    let dock = RegionInputs {
        anchor: PanelAnchor::Top,
        is_dock: true,
        dim_w: 1000,
        dim_h: 48,
        actual_w: 600,
        actual_h: 40,
        crosswise: 40,
        gap: 8,
        container_length: 600,
        anim_gap: 0,
    };
    assert_eq!(input_region(&dock), Rect { x: 200, y: -1, w: 600, h: 49 });
    let panel = RegionInputs { anchor: PanelAnchor::Bottom, is_dock: false, anim_gap: 3, ..dock };
    assert_eq!(input_region(&panel), Rect { x: 0, y: -3, w: 1000, h: 52 });
    let left = RegionInputs { anchor: PanelAnchor::Left, is_dock: false, anim_gap: 3, dim_w: 48, dim_h: 900, ..dock };
    assert_eq!(input_region(&left), Rect { x: -1, y: 0, w: 52, h: 900 });
}

#[test]
fn panel_dimension_clamp() {
    assert_eq!(constrain_panel_dim(5000, 3, Some((0, 1920)), Some((32, 64))), (1919, 32));
    assert_eq!(constrain_panel_dim(50, 40, None, Some((32, 64))), (50, 40));
}

#[test]
fn configure_sizes() {
    let d = configure_size(ConfigureState::Waiting { width: 100, height: 0 }, (0, 0), 0, 48, true);
    assert_eq!(d.size, Some((100, 48)));
    assert_eq!(d.suggested_length, None);
    let i = configure_size(ConfigureState::Idle, (200, 40), 300, 0, true);
    assert_eq!(i.size, Some((300, 40)));
    assert_eq!(i.suggested_length, Some(300));
    let neg = configure_size(ConfigureState::Waiting { width: -5, height: 0 }, (0, 0), 0, 0, false);
    assert_eq!(neg.size, Some((1, 1)));
    let q = configure_size(ConfigureState::Quit, (200, 40), 300, 0, true);
    assert_eq!(q.size, None);
}

#[test]
fn even_layout_with_three_lists() {
    let inp = EvenLayoutInputs {
        anchor: PanelAnchor::Top,
        padding: 2,
        spacing: 4,
        width: 300,
        height: 40,
        has_left: true,
        has_center: true,
        has_right: true,
    };
    let windows = vec![win(1, 1, true, 50, 20), win(2, 2, true, 60, 30), win(3, 3, true, 40, 20)];
    let left = vec![SectionClient { client: 1, minimize_priority: None }];
    let center = vec![SectionClient { client: 2, minimize_priority: None }];
    let right = vec![SectionClient { client: 3, minimize_priority: None }];
    let (l, c, r) = update_window_locations(&inp, &windows, &left, &center, &right);
    assert_eq!(l, vec![Placed { window: 1, x: 2, y: 10 }]);
    assert_eq!(c, vec![Placed { window: 2, x: 122, y: 5 }]);
    assert_eq!(r, vec![Placed { window: 3, x: 258, y: 10 }]);
}

#[test]
fn even_layout_dock_starts_at_padding() {
    let inp = EvenLayoutInputs {
        anchor: PanelAnchor::Top,
        padding: 2,
        spacing: 4,
        width: 300,
        height: 40,
        has_left: false,
        has_center: true,
        has_right: false,
    };
    let windows = vec![win(2, 2, true, 60, 30), win(5, 2, true, 10, 10)];
    let center = vec![SectionClient { client: 2, minimize_priority: None }];
    let (l, c, r) = update_window_locations(&inp, &windows, &vec![], &center, &vec![]);
    assert!(l.is_empty() && r.is_empty());
    assert_eq!(c, vec![Placed { window: 2, x: 2, y: 5 }, Placed { window: 5, x: 62, y: 15 }]);
}

#[test]
fn hover_press_points() {
    assert_eq!(effective_anchor(AppletAutoClickAnchor::Start, true), AppletAutoClickAnchor::Left);
    assert_eq!(effective_anchor(AppletAutoClickAnchor::Start, false), AppletAutoClickAnchor::Top);
    assert_eq!(effective_anchor(AppletAutoClickAnchor::End, false), AppletAutoClickAnchor::Bottom);
    assert_eq!(effective_anchor(AppletAutoClickAnchor::Center, true), AppletAutoClickAnchor::Center);
    assert_eq!(auto_click_point(AppletAutoClickAnchor::Top, 0, 0, 10, 20, 30, 40), (25, 24));
    assert_eq!(auto_click_point(AppletAutoClickAnchor::Bottom, 0, 0, 10, 20, 30, 40), (25, 56));
    assert_eq!(auto_click_point(AppletAutoClickAnchor::Left, 0, 0, 10, 20, 30, 40), (14, 40));
    assert_eq!(auto_click_point(AppletAutoClickAnchor::Right, 0, 0, 10, 20, 30, 40), (36, 40));
    assert_eq!(auto_click_point(AppletAutoClickAnchor::Center, 0, 0, 10, 20, 30, 40), (25, 40));
    assert_eq!(auto_click_point(AppletAutoClickAnchor::Auto, 11, 50, 10, 20, 30, 40), (15, 50));
    assert_eq!(auto_click_point(AppletAutoClickAnchor::Auto, 38, 59, 10, 20, 30, 40), (34, 55));
}

#[test]
fn hover_press_decisions() {
    let overflow = Some(HoverId::Overflow("left".to_string()));
    assert_eq!(auto_hover(false, Some(1), &overflow, true), AutoHover::Nothing);
    assert_eq!(auto_hover(true, Some(1), &overflow, false), AutoHover::Overflow);
    assert_eq!(auto_hover(true, Some(1), &Some(HoverId::Client(2)), false), AutoHover::Client);
    assert_eq!(auto_hover(true, Some(2), &Some(HoverId::Client(2)), false), AutoHover::Nothing);
    assert_eq!(auto_hover(true, None, &Some(HoverId::Client(2)), true), AutoHover::Client);
    assert_eq!(auto_hover(true, None, &Some(HoverId::Client(2)), false), AutoHover::Nothing);
}

fn cmp(name: &str, anchor: PanelAnchor, priority: u32) -> ConfigComparison {
    ConfigComparison {
        name: name.to_string(),
        anchor,
        priority,
        size_differs: false,
        output_differs: false,
        orientation_differs: false,
        background_differs: false,
        center_differs: false,
        wings_differs: false,
    }
}

#[test]
fn unchanged_config_is_skipped() {
    assert!(config_unchanged(false, &vec![true, false, true], OutputChoice::All, 2, 5));
    assert!(!config_unchanged(false, &vec![true, false], OutputChoice::All, 2, 5));
    assert!(!config_unchanged(true, &vec![true, true], OutputChoice::All, 2, 5));
    assert!(config_unchanged(false, &vec![false], OutputChoice::Named, 3, 0));
}

#[test]
fn recreate_rules() {
    let configs = vec![cmp("panel", PanelAnchor::Top, 10), cmp("dock", PanelAnchor::Bottom, 5)];
    let name = "panel".to_string();
    assert!(!must_recreate(&configs, &name, PanelAnchor::Top, false, 10, false));
    assert!(must_recreate(&configs, &name, PanelAnchor::Top, false, 10, true));
    assert!(must_recreate(&configs, &name, PanelAnchor::Top, false, 3, false));
    assert!(must_recreate(&configs, &name, PanelAnchor::Bottom, false, 10, false));
    let mut resized = configs.clone();
    resized[0].size_differs = true;
    assert!(must_recreate(&resized, &name, PanelAnchor::Top, false, 10, false));
    let mut moved = configs.clone();
    moved[0].output_differs = true;
    assert!(!must_recreate(&moved, &name, PanelAnchor::Top, true, 10, false));
    assert!(must_recreate(&moved, &name, PanelAnchor::Top, false, 10, false));
}

#[test]
fn panels_recreated_on_an_output() {
    let all = vec![
        OutputPanel { name: "panel".to_string(), anchor: PanelAnchor::Top, priority: 10, autohide: false },
        OutputPanel { name: "dock".to_string(), anchor: PanelAnchor::Bottom, priority: 5, autohide: true },
        OutputPanel { name: "bar".to_string(), anchor: PanelAnchor::Top, priority: 1, autohide: false },
    ];
    assert_eq!(
        recreated_on_output(&all, &"dock".to_string(), None, 5, true),
        vec![Recreated { index: 1, visible: false }, Recreated { index: 2, visible: true }]
    );
}

#[test]
fn stable_order_keeps_ties_in_place() {
    assert_eq!(stable_order(&vec![3, 1, 3, 0]), vec![3, 1, 0, 2]);
    assert_eq!(stable_order(&vec![]), Vec::<usize>::new());
    assert_eq!(by_key(&(1, 0), &(2, 5), false), Ordering::Less);
    assert_eq!(by_key(&(1, 0), &(2, 5), true), Ordering::Greater);
    assert_eq!(by_key(&(2, 0), &(2, 5), true), Ordering::Equal);
    assert_eq!(by_priority_desc(&(0, 9, 1), &(1, 3, 1)), Ordering::Less);
}

#[test]
fn popup_panel_is_asked_first() {
    assert_eq!(dispatch_order(&vec![false, false, true, true]), vec![2, 0, 1, 3]);
    assert_eq!(dispatch_order(&vec![false, false]), vec![0, 1]);
    assert_eq!(dispatch_order(&vec![true, false]), vec![0, 1]);
    assert!(dispatch_order(&vec![]).is_empty());
}

#[test]
fn pointer_leave_releases_stack() {
    assert_eq!(pointer_leave_plan(&vec![false, true], &vec![true, false]), (Some(1), vec![false, true]));
    assert_eq!(pointer_leave_plan(&vec![false, false], &vec![false, true]), (Some(1), vec![false, false]));
    assert_eq!(pointer_leave_plan(&vec![false], &vec![false]), (None, vec![false]));
}

#[test]
fn button_press_routing() {
    assert_eq!(handle_button(Some(false), Some(4), true), ButtonPlan { target: Some(4), close_popups: false, keyboard_leave: false });
    assert_eq!(handle_button(Some(true), None, true), ButtonPlan { target: None, close_popups: true, keyboard_leave: false });
    assert_eq!(handle_button(Some(true), None, false), ButtonPlan { target: None, close_popups: false, keyboard_leave: false });
    assert_eq!(handle_button(None, Some(4), true), ButtonPlan { target: None, close_popups: true, keyboard_leave: true });
    assert_eq!(handle_button(None, None, false), ButtonPlan { target: None, close_popups: false, keyboard_leave: true });
}

#[test]
fn keyboard_leave_keeps_popups_when_needed() {
    assert!(!keyboard_leave(true, false, false, false));
    assert!(!keyboard_leave(false, true, true, false));
    assert!(!keyboard_leave(false, true, false, true));
    assert!(keyboard_leave(false, true, false, false));
    assert!(keyboard_leave(false, false, true, true));
}

#[test]
fn per_seat_pointer_entries() {
    let mut e = vec![(1, 10), (2, 20)];
    set_seat_surface(&mut e, 2, 21);
    assert_eq!(e, vec![(1, 10), (2, 21)]);
    set_seat_surface(&mut e, 3, 30);
    assert_eq!(e, vec![(1, 10), (2, 21), (3, 30)]);
    clear_seat_surface(&mut e, 1);
    assert_eq!(e, vec![(3, 30), (2, 21)]);
    clear_seat_surface(&mut e, 9);
    assert_eq!(e, vec![(3, 30), (2, 21)]);
}

#[test]
fn seat_entries_stay_one_per_seat() {
    let mut e: Vec<(u64, u64)> = vec![(1, 10), (2, 20), (3, 30)];
    set_seat_surface(&mut e, 1, 11);
    set_seat_surface(&mut e, 4, 40);
    clear_seat_surface(&mut e, 2);
    let mut seats: Vec<u64> = e.iter().map(|p| p.0).collect();
    seats.sort();
    seats.dedup();
    assert_eq!(seats.len(), e.len());
    assert!(e.contains(&(1, 11)));
    assert!(!e.iter().any(|p| p.0 == 2));
}
