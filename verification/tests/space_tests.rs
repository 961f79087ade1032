use cosmic_panel::panel_pointer::update_pointer;
use cosmic_panel::panel_visibility::{visibility, PanelActivity, Visibility};
use cosmic_panel::panel_geometry::{minimize_rect_update, resize_step, background_radius, corner_radii, render_skipped, map_window, Alignment, WindowGeometry};
use cosmic_panel::panel_container::{remove_space, replace_entry, spawn_needed, add_window, cleanup_client, latest_dirty, retheme, space_for_client, ClientUse, ThemeChange};
use cosmic_panel::panel_entries::entries_update;
use cosmic_panel::panel_config::{maximized_style, PanelStyle, crosswise, gap, handle_events, set_maximized, RoundInputs, SpaceEvent, update_config, LayerCall, PanelSettings};
use cosmic_panel::panel_layout::OverflowSection;
use cosmic_panel::panel_output::{
    accepts_output, plan_output_spaces, ExistingSpace, OutputEntry, OutputRefusal, OutputTarget,
    SpacePlan, ThemeChoice,
};
use cosmic_panel::panel_popup::{
    reposition_popup,
    forget_closed_popups,
    hides_only, Message,
    add_popup_plan, configure_panel_popup, popup_takes_grab, PopupParent,
    close_popups, overflow_popup_placement, overflow_section_for, space_focus,
    handle_overflow_popup_events, toggle_overflow_popup, touch_under, HitBox, OverflowToggle,
    PopupConfigure, TouchSurface, TouchTarget,
};
use cosmic_panel::panel_space::{PanelAnchor, PanelBackgroundKind};

fn settings() -> PanelSettings {
    PanelSettings {
        anchor: PanelAnchor::Top,
        exclusive_zone: true,
        autohide: false,
        effective_anchor_gap: 4,
        anchor_gap: 4,
        expand_to_edges: true,
    }
}

#[test]
fn maximized_panel_takes_config_without_animation() {
    let mut new = settings();
    new.exclusive_zone = false;
    let u = update_config(settings(), new, true, true, (800, 32), None, 0, true);
    assert_eq!(u.calls, vec![LayerCall::ExclusiveZone(-1), LayerCall::Commit]);
    assert!(!u.animate);
    assert_eq!(u.dimensions, (800, 32));
}

#[test]
fn style_on_maximize() {
    let configured = PanelStyle { expand_to_edges: false, margin: 4, border_radius: 8, opaque: false };
    let full = PanelStyle { expand_to_edges: true, margin: 0, border_radius: 0, opaque: true };
    assert_eq!(maximized_style(configured, true, false), full);
    assert_eq!(maximized_style(configured, true, true), configured);
    assert_eq!(maximized_style(configured, false, false), configured);
}

#[test]
fn exclusive_zone_switch() {
    let mut new = settings();
    new.exclusive_zone = false;
    let u = update_config(settings(), new, false, true, (800, 32), None, 0, false);
    assert_eq!(u.calls, vec![LayerCall::ExclusiveZone(-1), LayerCall::Commit]);
    let back = update_config(new, settings(), false, true, (800, 32), None, 0, false);
    assert_eq!(back.calls, vec![LayerCall::ExclusiveZone(32), LayerCall::Commit]);
}

#[test]
fn autohide_off_sets_margins_zone_and_size() {
    let mut old = settings();
    old.autohide = true;
    let mut new = settings();
    new.effective_anchor_gap = 6;
    let u = update_config(old, new, false, true, (800, 32), None, 2, true);
    assert_eq!(
        u.calls,
        vec![
            LayerCall::Margin(2, 6, 0, 6),
            LayerCall::ExclusiveZone(32),
            LayerCall::Size(0, 32),
            LayerCall::Commit
        ]
    );
    assert!(u.reset_anchor_gap);
    assert!(u.animate);
}

#[test]
fn gap_change_on_vertical_panel() {
    let mut old = settings();
    old.anchor = PanelAnchor::Left;
    let mut new = old;
    new.effective_anchor_gap = 8;
    new.anchor_gap = 8;
    let u = update_config(old, new, false, true, (40, 600), Some(500), 0, false);
    assert_eq!(u.calls, vec![LayerCall::Margin(8, 0, 8, 0), LayerCall::Commit]);
    assert_eq!(u.dimensions, (40, 500));
}

#[test]
fn no_layer_no_calls() {
    let mut new = settings();
    new.exclusive_zone = false;
    new.expand_to_edges = false;
    let u = update_config(settings(), new, false, false, (800, 32), None, 0, false);
    assert!(u.calls.is_empty());
    assert!(!u.reset_anchor_gap);
    assert!(u.reset_overflow);
}

#[test]
fn same_config_is_quiet() {
    let u = update_config(settings(), settings(), false, true, (800, 32), Some(100), 0, false);
    assert!(u.calls.is_empty());
    assert_eq!(u.dimensions, (800, 32));
    assert!(!u.reset_overflow);
}

#[test]
fn maximize_switch() {
    let (state, u) = set_maximized(false, false, settings(), settings(), true, (800, 32), None, 0);
    assert!(!state);
    assert!(u.is_none());
    let mut new = settings();
    new.exclusive_zone = false;
    let (state, u) = set_maximized(false, true, settings(), new, true, (800, 32), None, 0);
    assert!(state);
    let u = u.unwrap();
    assert!(u.animate);
    assert_eq!(u.calls, vec![LayerCall::ExclusiveZone(-1), LayerCall::Commit]);
}

fn hitbox(x: i32, y: i32, w: i32, h: i32) -> HitBox {
    HitBox { loc_x: x, loc_y: y, geo_x: 0, geo_y: 0, w, h, configured_w: 0, configured_h: 0 }
}

#[test]
fn topmost_element_is_focused() {
    let boxes = vec![hitbox(0, 0, 100, 30), hitbox(50, 0, 20, 30)];
    assert_eq!(space_focus(&boxes, 55, 10), Some(1));
    assert_eq!(space_focus(&boxes, 10, 10), Some(0));
    assert_eq!(space_focus(&boxes, 100, 10), None);
    assert_eq!(space_focus(&boxes, 10, 30), None);
}

#[test]
fn configured_size_cuts_the_box() {
    let mut b = hitbox(0, 0, 100, 30);
    b.configured_w = 40;
    assert_eq!(space_focus(&vec![b], 50, 10), None);
    assert_eq!(space_focus(&vec![b], 39, 10), Some(0));
    b.configured_w = 200;
    assert_eq!(space_focus(&vec![b], 99, 10), Some(0));
}

#[test]
fn touch_goes_to_surface() {
    let panel = vec![hitbox(0, 0, 100, 30)];
    let overflow = vec![hitbox(0, 0, 10, 10)];
    assert_eq!(touch_under(TouchSurface::Popup(3), &overflow, &panel, 5, 5), TouchTarget::Popup(3));
    assert_eq!(touch_under(TouchSurface::OverflowPopup, &overflow, &panel, 5, 5), TouchTarget::OverflowElement(0));
    assert_eq!(touch_under(TouchSurface::OverflowPopup, &overflow, &panel, 50, 5), TouchTarget::Nothing);
    assert_eq!(touch_under(TouchSurface::Panel, &overflow, &panel, 50, 5), TouchTarget::PanelElement(0));
    assert_eq!(touch_under(TouchSurface::Other, &overflow, &panel, 5, 5), TouchTarget::Nothing);
}

#[test]
fn overflow_button_sections() {
    assert_eq!(overflow_section_for(1, 1, 2), OverflowSection::Left);
    assert_eq!(overflow_section_for(2, 1, 2), OverflowSection::Right);
    assert_eq!(overflow_section_for(3, 1, 2), OverflowSection::Center);
}

#[test]
fn overflow_popup_opens_inward() {
    assert_eq!(overflow_popup_placement(PanelAnchor::Left), ((8, 0), PanelAnchor::Right));
    assert_eq!(overflow_popup_placement(PanelAnchor::Right), ((-8, 0), PanelAnchor::Left));
    assert_eq!(overflow_popup_placement(PanelAnchor::Top), ((0, 8), PanelAnchor::Bottom));
    assert_eq!(overflow_popup_placement(PanelAnchor::Bottom), ((0, -8), PanelAnchor::Top));
}

#[test]
fn toggling_the_overflow_popup() {
    assert_eq!(
        toggle_overflow_popup(&mut vec![3, 4], true, Some(OverflowSection::Left), Some((0, 0, 10, 10)), PanelAnchor::Top),
        OverflowToggle::Close
    );
    assert_eq!(toggle_overflow_popup(&mut vec![], false, None, Some((0, 0, 10, 10)), PanelAnchor::Top), OverflowToggle::NotFound);
    assert_eq!(
        toggle_overflow_popup(&mut vec![], false, Some(OverflowSection::Right), Some((3, 4, 0, 20)), PanelAnchor::Bottom),
        OverflowToggle::Open {
            section: OverflowSection::Right,
            dx: 0,
            dy: -8,
            side: PanelAnchor::Top,
            x: 3,
            y: 4,
            width: 1,
            height: 20
        }
    );
}

#[test]
fn closing_popups() {
    let (closed, overflow) = close_popups(&vec![true, false, false, true], Some(false));
    assert_eq!(closed, vec![1, 2]);
    assert!(overflow);
    let (closed, overflow) = close_popups(&vec![true], Some(true));
    assert!(closed.is_empty());
    assert!(!overflow);
    let (_, overflow) = close_popups(&vec![], None);
    assert!(!overflow);
}

#[test]
fn configured_popup_rectangle() {
    assert_eq!(handle_overflow_popup_events(None), None);
    assert_eq!(handle_overflow_popup_events(Some(PopupConfigure::WaitConfigure)), None);
    assert_eq!(
        handle_overflow_popup_events(Some(PopupConfigure::Rectangle { x: 1, y: 2, width: 0, height: 30 })),
        Some(((1, 2, 0, 30), (1, 30)))
    );
}

#[test]
fn output_acceptance() {
    let name = Some(Some("DP-1".to_string()));
    assert_eq!(accepts_output(true, &OutputTarget::All, &name), Err(OutputRefusal::AlreadySetUp));
    assert_eq!(accepts_output(false, &OutputTarget::All, &name), Ok(()));
    assert_eq!(accepts_output(false, &OutputTarget::Active, &name), Err(OutputRefusal::Mismatch));
    assert_eq!(accepts_output(false, &OutputTarget::Name("DP-1".to_string()), &name), Ok(()));
    assert_eq!(accepts_output(false, &OutputTarget::Name("HDMI-1".to_string()), &name), Err(OutputRefusal::Mismatch));
    assert_eq!(accepts_output(false, &OutputTarget::Active, &None), Ok(()));
    assert_eq!(accepts_output(false, &OutputTarget::All, &None), Err(OutputRefusal::Mismatch));
}

fn entry(name: &str, target: OutputTarget, autohide: bool, background: PanelBackgroundKind) -> OutputEntry {
    OutputEntry { name: name.to_string(), target, autohide, background }
}

#[test]
fn spaces_for_new_output() {
    let entries = vec![
        entry("panel", OutputTarget::All, false, PanelBackgroundKind::ThemeDefault),
        entry("dock", OutputTarget::Name("DP-1".to_string()), true, PanelBackgroundKind::Dark),
        entry("other", OutputTarget::Name("HDMI-1".to_string()), false, PanelBackgroundKind::Light),
        entry("active", OutputTarget::Active, false, PanelBackgroundKind::Light),
    ];
    let existing = vec![
        ExistingSpace { name: "panel".to_string(), target: OutputTarget::All, output: Some(9) },
        ExistingSpace { name: "dock".to_string(), target: OutputTarget::Name("DP-1".to_string()), output: None },
    ];
    let plans = plan_output_spaces(&entries, &existing, 7, &"DP-1".to_string());
    assert_eq!(
        plans,
        vec![
            Some(SpacePlan { reuse: None, hidden: false, theme: ThemeChoice::Current, kept: true }),
            Some(SpacePlan { reuse: Some(1), hidden: true, theme: ThemeChoice::Dark, kept: true }),
            None,
            None,
        ]
    );
}

#[test]
fn reused_space_with_output_is_dropped() {
    let entries = vec![
        entry("panel", OutputTarget::All, false, PanelBackgroundKind::Light),
        entry("panel", OutputTarget::All, false, PanelBackgroundKind::Color),
    ];
    let existing = vec![ExistingSpace { name: "panel".to_string(), target: OutputTarget::All, output: Some(7) }];
    let plans = plan_output_spaces(&entries, &existing, 7, &"DP-1".to_string());
    assert_eq!(
        plans,
        vec![
            Some(SpacePlan { reuse: Some(0), hidden: false, theme: ThemeChoice::Light, kept: false }),
            Some(SpacePlan { reuse: None, hidden: false, theme: ThemeChoice::Current, kept: true }),
        ]
    );
}

#[test]
fn popup_configure_keeps_old_size_for_zero() {
    assert_eq!(
        configure_panel_popup(false, 100, 50, 3, 4, 0, 20, None),
        ((3, 4, 100, 20), Some(PopupConfigure::Rectangle { x: 3, y: 4, width: 100, height: 20 }))
    );
    assert_eq!(configure_panel_popup(true, 100, 50, 3, 4, 10, 0, Some(PopupConfigure::WaitConfigure)), ((3, 4, 10, 50), None));
    let r = PopupConfigure::Rectangle { x: 0, y: 0, width: 5, height: 5 };
    assert_eq!(configure_panel_popup(true, 1, 1, 0, 0, 7, 7, Some(r)), ((0, 0, 7, 7), Some(r)));
}

#[test]
fn grab_follows_input_region() {
    assert!(popup_takes_grab(&None));
    assert!(!popup_takes_grab(&Some(vec![])));
    assert!(!popup_takes_grab(&Some(vec![(1, 1)])));
    assert!(popup_takes_grab(&Some(vec![(1, 1), (1, 1)])));
    assert!(popup_takes_grab(&Some(vec![(i32::MAX, i32::MAX), (i32::MAX, 2)])));
    assert!(!popup_takes_grab(&Some(vec![(i32::MIN, 2), (3, 3)])));
}

#[test]
fn new_popup_parent_and_closing() {
    let (parent, keep, overflow) = add_popup_plan(&vec![false, true, true], &vec![true, true, false], Some((true, true)));
    assert_eq!(parent, PopupParent::Popup(1));
    assert_eq!(keep, vec![false, true, true]);
    assert_eq!(overflow, Some(false));
    let (parent, keep, overflow) = add_popup_plan(&vec![false], &vec![true], Some((true, true)));
    assert_eq!(parent, PopupParent::Overflow);
    assert_eq!(keep, vec![false]);
    assert_eq!(overflow, Some(true));
    let (parent, _, overflow) = add_popup_plan(&vec![], &vec![], None);
    assert_eq!(parent, PopupParent::Panel);
    assert_eq!(overflow, None);
}

#[test]
fn entries_list_changes() {
    let configured = vec!["Panel".to_string(), "Dock".to_string()];
    let entries = vec!["Dock".to_string(), "Extra".to_string(), "Other".to_string()];
    let (add, remove) = entries_update(&configured, &entries);
    assert_eq!(add, vec!["Extra".to_string(), "Other".to_string()]);
    assert_eq!(remove, vec!["Panel".to_string()]);
    let (add, remove) = entries_update(&configured, &configured);
    assert!(add.is_empty() && remove.is_empty());
}

#[test]
fn theme_changes_reach_matching_panels() {
    let bgs = vec![
        PanelBackgroundKind::ThemeDefault,
        PanelBackgroundKind::Dark,
        PanelBackgroundKind::Light,
        PanelBackgroundKind::Color,
    ];
    assert_eq!(retheme(&bgs, true, ThemeChange::Dark), vec![true, true, false, true]);
    assert_eq!(retheme(&bgs, true, ThemeChange::Light), vec![false, false, true, false]);
    assert_eq!(retheme(&bgs, true, ThemeChange::Mode { dark: false }), vec![true, false, false, false]);
    assert_eq!(retheme(&bgs, true, ThemeChange::Mode { dark: true }), vec![false, false, false, false]);
}

#[test]
fn client_cleanup_stops_at_first_panel_touched() {
    let spaces = vec![
        ClientUse { has_window: false, popup_clients: vec![Some(1)] },
        ClientUse { has_window: false, popup_clients: vec![Some(5), None, Some(2)] },
        ClientUse { has_window: true, popup_clients: vec![] },
    ];
    let steps = cleanup_client(&spaces, 5);
    assert_eq!(steps.len(), 2);
    assert!(!steps[0].dirty);
    assert_eq!(steps[0].keep_popups, vec![true]);
    assert!(steps[1].dirty);
    assert_eq!(steps[1].keep_popups, vec![false, false, true]);
    let steps = cleanup_client(&spaces, 9);
    assert_eq!(steps.len(), 2);
    assert!(steps[1].dirty);
    let quiet = vec![ClientUse { has_window: false, popup_clients: vec![Some(1)] }];
    let steps = cleanup_client(&quiet, 9);
    assert_eq!(steps.len(), 1);
    assert!(!steps[0].dirty);
}

#[test]
fn overflow_button_messages() {
    assert!(!hides_only(Message::TogglePopup));
    assert!(hides_only(Message::HidePopup));
}

#[test]
fn window_measured_for_its_section() {
    let g = WindowGeometry { bbox_w: 40, bbox_h: 32, size: Some((0, 30)), bounds: Some((25, 0)) };
    assert_eq!(map_window(2, &g, PanelAnchor::Top, Alignment::Center), (Alignment::Center, 2, 40, 30, 25));
    assert_eq!(map_window(0, &g, PanelAnchor::Left, Alignment::Right), (Alignment::Right, 0, 30, 40, 30));
}

#[test]
fn thickness_and_gap() {
    assert_eq!(crosswise(PanelAnchor::Top, (800, 32)), 32);
    assert_eq!(crosswise(PanelAnchor::Right, (48, 600)), 48);
    assert_eq!(gap(Some(3), 8), 3);
    assert_eq!(gap(None, 8), 8);
    assert_eq!(gap(None, 65536 + 5), 5);
}

fn round(autohide: bool, hidden: bool) -> RoundInputs {
    RoundInputs {
        anchor: PanelAnchor::Bottom,
        has_layer: true,
        autohide,
        hidden,
        exclusive_zone: true,
        effective_anchor_gap: 4,
        margin: 2,
        hide_handle: Some(4),
        additional_gap: 0,
        dirty: true,
    }
}

#[test]
fn event_rounds() {
    let r = handle_events(Some(SpaceEvent::Quit), Some((10, 20)), round(false, false));
    assert!(r.calls.is_empty() && !r.keep_event && !r.pending_taken);
    let r = handle_events(Some(SpaceEvent::WaitConfigure { first: true, width: 1, height: 1 }), Some((10, 20)), round(false, false));
    assert!(r.keep_event && !r.pending_taken);
    let r = handle_events(Some(SpaceEvent::Running), Some((800, 32)), round(false, false));
    assert!(r.pending_taken);
    assert_eq!(
        r.calls,
        vec![LayerCall::Size(0, 32), LayerCall::ExclusiveZone(32), LayerCall::Margin(0, 4, 0, 4), LayerCall::Commit]
    );
    assert_eq!(r.anchor_gap, Some(0));
    let r = handle_events(None, Some((800, 32)), round(true, true));
    assert_eq!(
        r.calls,
        vec![LayerCall::Size(0, 32), LayerCall::ExclusiveZone(32), LayerCall::Margin(0, 2, 0, 2), LayerCall::Commit]
    );
    assert_eq!(r.anchor_gap, Some(-28));
    let r = handle_events(None, None, round(false, false));
    assert!(r.render && r.relayout && r.calls.is_empty());
    let mut no_layer = round(false, false);
    no_layer.has_layer = false;
    let r = handle_events(None, Some((800, 32)), no_layer);
    assert!(r.pending_taken && r.calls.is_empty() && !r.render);
}

#[test]
fn panels_visibility_together() {
    let idle = PanelActivity { transitioning: false, animating: false, has_popups: false };
    let popups = PanelActivity { has_popups: true, ..idle };
    assert_eq!(visibility(false, &vec![idle, idle]), Visibility::Hidden);
    assert_eq!(visibility(true, &vec![idle]), Visibility::Visible);
    assert_eq!(visibility(true, &vec![]), Visibility::Hidden);
    assert_eq!(visibility(false, &vec![idle, popups]), Visibility::Visible);
}

#[test]
fn panel_of_a_client() {
    let clients = vec![vec![None, Some(3)], vec![Some(4)], vec![Some(4)]];
    assert_eq!(space_for_client(&clients, Some(4)), Some(1));
    assert_eq!(space_for_client(&clients, Some(3)), Some(0));
    assert_eq!(space_for_client(&clients, None), None);
    assert_eq!(space_for_client(&clients, Some(9)), None);
}

#[test]
fn latest_change_of_panels() {
    assert_eq!(latest_dirty(&vec![]), None);
    assert_eq!(latest_dirty(&vec![5, 9, 2]), Some(9));
    assert_eq!(latest_dirty(&vec![7]), Some(7));
}

#[test]
fn new_window_replaces_same_client() {
    assert_eq!(add_window(&vec![Some(1), Some(2), Some(2)], Some(2)), Some(1));
    assert_eq!(add_window(&vec![Some(1)], Some(2)), None);
    assert_eq!(add_window(&vec![Some(1), None], None), Some(1));
}

#[test]
fn toggling_closes_applet_popups() {
    let mut popups = vec![7, 8];
    let _ = toggle_overflow_popup(&mut popups, false, None, None, PanelAnchor::Top);
    assert!(popups.is_empty());
}

#[test]
fn closed_popups_are_forgotten_by_seats() {
    let mut cf = vec![1, 2, 3];
    let mut ch = vec![2, 2, 4];
    let mut sf = vec![10, 11];
    let mut sh = vec![11];
    forget_closed_popups(&mut cf, &mut ch, &mut sf, &mut sh, &vec![2], &vec![11]);
    assert_eq!(cf, vec![1, 3]);
    assert_eq!(ch, vec![4]);
    assert_eq!(sf, vec![10]);
    assert!(sh.is_empty());
}

#[test]
fn named_entries_replaced_and_removed() {
    let mut list = vec![("a".to_string(), 1), ("b".to_string(), 2), ("a".to_string(), 3)];
    replace_entry(&mut list, "a".to_string(), 9);
    assert_eq!(list, vec![("b".to_string(), 2), ("a".to_string(), 9)]);
    remove_space(&mut list, &"b".to_string());
    assert_eq!(list, vec![("a".to_string(), 9)]);
}

#[test]
fn applets_spawn_once() {
    assert!(spawn_needed(0, 0, 0));
    assert!(!spawn_needed(0, 1, 0));
}

#[test]
fn popup_reposition_lookup() {
    assert_eq!(reposition_popup(&vec![4, 5, 5], 5, 3), Some((1, true)));
    assert_eq!(reposition_popup(&vec![4], 4, 2), Some((0, false)));
    assert_eq!(reposition_popup(&vec![4], 6, 3), None);
}

#[test]
fn background_corners() {
    assert_eq!(corner_radii(PanelAnchor::Top, 0, 8), (0, 0, 8, 8));
    assert_eq!(corner_radii(PanelAnchor::Right, 0, 8), (8, 0, 8, 0));
    assert_eq!(corner_radii(PanelAnchor::Left, 4, 8), (8, 8, 8, 8));
    assert_eq!(background_radius(16, 100, 20), 8);
    assert_eq!(background_radius(50, 100, 20), 10);
}

#[test]
fn drawing_skipped_for_small_or_waiting_panels() {
    assert!(render_skipped(true, (100, 100), (100, 100)));
    assert!(render_skipped(false, (100, 20), (100, 100)));
    assert!(!render_skipped(false, (100, 21), (100, 21)));
}

#[test]
fn layout_resize_and_minimize_rect() {
    assert_eq!(resize_step(true, (800, 32), 4, 32), Some((800, 36)));
    assert_eq!(resize_step(true, (800, 32), 4, 36), None);
    assert_eq!(resize_step(false, (40, 600), 0, 32), Some((40, 600)));
    assert_eq!(minimize_rect_update(true, 2_000_000_000, true), Some(1));
    assert_eq!(minimize_rect_update(true, 500, false), None);
    assert_eq!(minimize_rect_update(false, 2_000_000_000, false), None);
}

#[test]
fn replacing_an_entry_keeps_names_distinct() {
    let mut list = vec![("a".to_string(), 1), ("b".to_string(), 2), ("c".to_string(), 3)];
    replace_entry(&mut list, "b".to_string(), 7);
    replace_entry(&mut list, "d".to_string(), 8);
    let names: Vec<&str> = list.iter().map(|e| e.0.as_str()).collect();
    assert_eq!(names, vec!["a", "c", "b", "d"]);
    assert_eq!(list.iter().filter(|e| e.0 == "b").count(), 1);
    assert!(list.contains(&("b".to_string(), 7)));
}

#[test]
fn pointer_motion_records_one_hover_per_seat() {
    let popups = vec![(100, 900)];
    let panel = vec![hitbox(0, 0, 10, 10), hitbox(10, 0, 10, 10)];
    let panel_targets = vec![501, 502];
    let overflow = vec![hitbox(0, 0, 5, 5)];
    let overflow_targets = vec![601];
    let own = vec![501, 502, 601];
    let mut focused: Vec<(u64, u64)> = vec![];
    let mut hovered: Vec<(u64, u64)> = vec![(2, 777)];
    let mut go = |x: i32, y: i32, seat: u64, c: u64, focused: &mut Vec<(u64, u64)>, hovered: &mut Vec<(u64, u64)>| {
        update_pointer(x, y, seat, c, &popups, Some(1), Some(2), &panel, &panel_targets, &overflow, &overflow_targets, &own, focused, hovered)
    };
    assert_eq!(go(12, 3, 1, 1, &mut focused, &mut hovered), Some(502));
    assert_eq!(hovered, vec![(2, 777), (1, 502)]);
    assert_eq!(focused, vec![(1, 502)]);
    assert_eq!(go(3, 3, 1, 100, &mut focused, &mut hovered), Some(900));
    assert_eq!(hovered, vec![(2, 777), (1, 900)]);
    assert_eq!(go(3, 3, 1, 2, &mut focused, &mut hovered), Some(601));
    assert_eq!(hovered, vec![(2, 777), (1, 601)]);
    assert_eq!(go(50, 50, 1, 1, &mut focused, &mut hovered), None);
    assert_eq!(hovered, vec![(2, 777)]);
    assert_eq!(focused, vec![(1, 601)]);
    assert_eq!(go(3, 3, 2, 42, &mut focused, &mut hovered), None);
    assert_eq!(hovered, vec![(2, 777)]);
    hovered.push((3, 501));
    assert_eq!(go(3, 3, 3, 42, &mut focused, &mut hovered), None);
    assert_eq!(hovered, vec![(2, 777)]);
}
