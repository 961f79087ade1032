use cosmic_panel::dock_render::{frame_plan, DamageRect, WindowFrame};
use cosmic_panel::dock_clients::{
    find_server_surface, find_server_window, order_by_clients, section_for_client, update_pointer,
    DockSection, FoundSurface, SurfaceTree,
};
use cosmic_panel::dock_config::{
    Anchor, CosmicDockConfig, DockConfigs, DockSize, InvalidAnchor, KeyboardInteractivity, Layer,
};
use cosmic_panel::dock_space::{
    center_in_bar, constrain_dim, hide_by_priority, layer_event, seat_devices, DockRound, LayerEvent, SeatDevices, pending_dimensions_after_dirty, update_offsets,
    RenderEvent, SpaceEntry, SpaceManager, TopLevelSlot,
};
use cosmic_panel::dock_top_level::{handle_events, popup_event, ActiveState, PopupEvent, PopupRenderEvent, PopupState};
use std::cmp::Ordering;

fn slot(priority: u32, width: i32, height: i32) -> TopLevelSlot {
    TopLevelSlot { priority, x: 0, y: 0, width, height, hidden: false }
}

#[test]
fn anchor_bits_roundtrip() {
    for a in [Anchor::Left, Anchor::Right, Anchor::Top, Anchor::Bottom] {
        assert_eq!(Anchor::try_from_bits(a.to_bits()), Ok(a));
    }
}

#[test]
fn anchor_protocol_bits() {
    assert_eq!(Anchor::Top.to_bits(), 1);
    assert_eq!(Anchor::Bottom.to_bits(), 2);
    assert_eq!(Anchor::Left.to_bits(), 4);
    assert_eq!(Anchor::Right.to_bits(), 8);
}

#[test]
fn anchor_first_set_bit_wins() {
    assert_eq!(Anchor::try_from_bits(4 | 8), Ok(Anchor::Left));
    assert_eq!(Anchor::try_from_bits(1 | 2), Ok(Anchor::Top));
    assert_eq!(Anchor::try_from_bits(2 | 8), Ok(Anchor::Right));
    assert_eq!(Anchor::try_from_bits(15), Ok(Anchor::Left));
}

#[test]
fn anchor_without_edge_bit_is_invalid() {
    assert_eq!(Anchor::try_from_bits(0), Err(InvalidAnchor));
    assert_eq!(Anchor::try_from_bits(16), Err(InvalidAnchor));
}

#[test]
fn layer_and_interactivity_values_roundtrip() {
    for l in [Layer::Background, Layer::Bottom, Layer::Top, Layer::Overlay] {
        assert_eq!(Layer::from_value(l.to_value()), l);
    }
    for k in [
        KeyboardInteractivity::NotInteractive,
        KeyboardInteractivity::Exclusive,
        KeyboardInteractivity::OnDemand,
    ] {
        assert_eq!(KeyboardInteractivity::from_value(k.to_value()), k);
    }
    assert_eq!(Layer::from_value(7), Layer::Top);
    assert_eq!(KeyboardInteractivity::from_value(9), KeyboardInteractivity::NotInteractive);
}

#[test]
fn default_config_expands_to_edges() {
    let c = CosmicDockConfig::default();
    assert_eq!(c.anchor, Anchor::Top);
    assert!(c.expand_to_edges());
    let mut d = CosmicDockConfig::default();
    d.expand_to_edges = false;
    assert!(!d.expand_to_edges());
    d.plugins_left.push("a".to_string());
    assert!(d.expand_to_edges());
}

#[test]
fn dimensions_of_medium_top_dock() {
    let c = CosmicDockConfig::default();
    let (w, h) = c.get_dimensions((1920, 1080));
    let w = w.unwrap();
    let h = h.unwrap();
    assert_eq!((w.start, w.end), (1920, 1920));
    assert_eq!((h.start, h.end), (10, 81));
}

#[test]
fn dimensions_of_left_dock_not_expanded() {
    let mut c = CosmicDockConfig::default();
    c.anchor = Anchor::Left;
    c.expand_to_edges = false;
    c.size = DockSize::Custom(5..50);
    let (w, h) = c.get_dimensions((1920, 1080));
    let w = w.unwrap();
    assert_eq!((w.start, w.end), (5, 50));
    assert!(h.is_none());
}

#[test]
fn constrain_dim_clamps_thickness() {
    let mut c = CosmicDockConfig::default();
    c.expand_to_edges = false;
    assert_eq!(constrain_dim(&c, (300, 500), (1920, 1080)), (300, 81));
    assert_eq!(constrain_dim(&c, (0, 0), (1920, 1080)), (1, 10));
}

#[test]
fn load_missing_name_gives_default() {
    let configs = DockConfigs::new();
    let c = CosmicDockConfig::load(configs, "dock");
    assert_eq!(c.anchor, Anchor::Top);
    assert!(c.expand_to_edges);
}

#[test]
fn load_stored_config() {
    let mut configs = DockConfigs::new();
    let mut c = CosmicDockConfig::default();
    c.anchor = Anchor::Bottom;
    configs.insert("dock".to_string(), c);
    assert_eq!(configs.len(), 1);
    let loaded = CosmicDockConfig::load(configs, "dock");
    assert_eq!(loaded.anchor, Anchor::Bottom);
}

#[test]
fn insert_replaces_and_remove_reads_back() {
    let mut configs = DockConfigs::new();
    let mut a = CosmicDockConfig::default();
    a.anchor = Anchor::Left;
    configs.insert("x".to_string(), a);
    let mut b = CosmicDockConfig::default();
    b.anchor = Anchor::Right;
    configs.insert("x".to_string(), b);
    assert_eq!(configs.len(), 1);
    let got = configs.remove(&"x".to_string()).unwrap();
    assert_eq!(got.anchor, Anchor::Right);
    assert_eq!(configs.len(), 0);
    assert!(configs.remove(&"x".to_string()).is_none());
}

#[test]
fn configs_for_write_adds_the_current_config() {
    let mut c = CosmicDockConfig::default();
    c.anchor = Anchor::Left;
    let configs = c.configs_for_write(DockConfigs::new(), "dock");
    let loaded = CosmicDockConfig::load(configs, "dock");
    assert_eq!(loaded.anchor, Anchor::Left);
}

#[test]
fn center_in_bar_values() {
    assert_eq!(center_in_bar(40, 20), 10);
    assert_eq!(center_in_bar(20, 25), -2);
    assert_eq!(center_in_bar(7, 0), 3);
}

#[test]
fn hide_lowest_priority_until_it_fits() {
    let mut left = Vec::new();
    let mut center = vec![slot(3, 30, 20), slot(1, 30, 20), slot(2, 30, 20)];
    let mut right = Vec::new();
    let sums = hide_by_priority(Anchor::Top, 2, 4, (60, 40), &mut left, &mut center, &mut right);
    assert_eq!(sums, (0, 30, 0));
    assert!(!center[0].hidden);
    assert!(center[1].hidden);
    assert!(center[2].hidden);
}

#[test]
fn nothing_hidden_when_everything_fits() {
    let mut left = vec![slot(1, 10, 10)];
    let mut center = vec![slot(1, 10, 10)];
    let mut right = vec![slot(1, 10, 10)];
    let sums = hide_by_priority(Anchor::Top, 1, 1, (100, 30), &mut left, &mut center, &mut right);
    assert_eq!(sums, (10, 10, 10));
    assert!(left.iter().chain(center.iter()).chain(right.iter()).all(|s| !s.hidden));
}

#[test]
fn update_offsets_places_center_list() {
    let mut left = Vec::new();
    let mut center = vec![slot(1, 30, 20), slot(2, 30, 20)];
    let mut right = Vec::new();
    update_offsets(Anchor::Top, 2, 4, (200, 40), &mut left, &mut center, &mut right);
    assert_eq!((center[0].x, center[0].y), (276, 10));
    assert_eq!((center[1].x, center[1].y), (310, 10));
}

#[test]
fn update_offsets_places_left_list_on_vertical_dock() {
    let mut left = vec![slot(1, 20, 30), slot(1, 10, 30)];
    let mut center = Vec::new();
    let mut right = Vec::new();
    update_offsets(Anchor::Left, 3, 2, (40, 400), &mut left, &mut center, &mut right);
    assert_eq!((left[0].x, left[0].y), (10, 3));
    assert_eq!((left[1].x, left[1].y), (15, 35));
}

#[test]
fn pending_dimensions_grow_with_padding() {
    let p = pending_dimensions_after_dirty((100, 50), None, None, (120, 40), 5);
    assert_eq!(p, Some((130, 50)));
    let q = pending_dimensions_after_dirty((100, 50), None, None, (90, 40), 5);
    assert_eq!(q, None);
    let r = pending_dimensions_after_dirty(
        (100, 50),
        None,
        Some(RenderEvent::WaitConfigure { width: 200, height: 10 }),
        (120, 60),
        5,
    );
    assert_eq!(r, Some((100, 70)));
}

#[test]
fn space_manager_tracks_active_space() {
    let mut m = SpaceManager::new();
    assert_eq!(m.active_space(), None);
    m.push_space(SpaceEntry { surface: 10, output_name: "DP-1".to_string() });
    m.push_space(SpaceEntry { surface: 20, output_name: "HDMI-1".to_string() });
    assert_eq!(m.active_space(), Some(0));
    assert_eq!(m.update_active(Some(20)), Some(0));
    assert_eq!(m.active_space(), Some(1));
    assert_eq!(m.update_active(Some(20)), None);
    assert_eq!(m.update_active(None), Some(1));
    assert_eq!(m.active_space(), None);
}

#[test]
fn remove_space_with_output_keeps_matching_names() {
    let mut m = SpaceManager::new();
    m.push_space(SpaceEntry { surface: 1, output_name: "A".to_string() });
    m.push_space(SpaceEntry { surface: 2, output_name: "B".to_string() });
    m.remove_space_with_output("B");
    assert_eq!(m.spaces().len(), 1);
    assert_eq!(m.spaces()[0].surface, 2);
}

#[test]
fn active_state_orders_active_last() {
    let a = ActiveState::InactiveCleared(true);
    let b = ActiveState::ActiveFullyRendered(false);
    assert_eq!(a.cmp(&b), Ordering::Less);
    assert_eq!(b.cmp(&a), Ordering::Greater);
    assert_eq!(a.cmp(&ActiveState::InactiveCleared(false)), Ordering::Equal);
    assert!(a < b);
}

#[test]
fn popup_events_drop_closed_and_apply_configure() {
    let mut popups = vec![
        PopupState { id: 1, alive: true, next_render_event: Some(PopupRenderEvent::Closed), width: 1, height: 1, dirty: false },
        PopupState {
            id: 2,
            alive: true,
            next_render_event: Some(PopupRenderEvent::Configure { x: 2, y: 3, width: 30, height: 40 }),
            width: 1,
            height: 1,
            dirty: false,
        },
        PopupState { id: 3, alive: false, next_render_event: None, width: 1, height: 1, dirty: false },
        PopupState { id: 4, alive: true, next_render_event: None, width: 5, height: 6, dirty: false },
    ];
    assert!(!handle_events(true, &mut popups));
    assert_eq!(popups.len(), 2);
    assert_eq!(popups[0].id, 2);
    assert_eq!((popups[0].width, popups[0].height, popups[0].dirty), (30, 40, true));
    assert_eq!(popups[0].next_render_event, None);
    assert_eq!(popups[1].id, 4);
    let mut kept = vec![PopupState { id: 9, alive: false, next_render_event: None, width: 0, height: 0, dirty: false }];
    assert!(handle_events(false, &mut kept));
    assert_eq!(kept.len(), 1);
}

#[test]
fn new_surface_joins_its_applets_list() {
    let left = vec![(3, 10), (1, 11)];
    let center = vec![(7, 20), (9, 11)];
    let right = vec![(2, 30)];
    assert_eq!(section_for_client(11, &left, &center, &right), Some((DockSection::Left, 1)));
    assert_eq!(section_for_client(20, &left, &center, &right), Some((DockSection::Center, 7)));
    assert_eq!(section_for_client(30, &left, &center, &right), Some((DockSection::Right, 2)));
    assert_eq!(section_for_client(99, &left, &center, &right), None);
}

#[test]
fn surfaces_follow_applet_order() {
    let clients = vec![(0, 10), (0, 20), (0, 30)];
    assert_eq!(order_by_clients(&vec![30, 10, 20], &clients), vec![1, 2, 0]);
    assert_eq!(order_by_clients(&vec![20, 20, 10], &clients), vec![2, 0, 1]);
    assert!(order_by_clients(&vec![], &clients).is_empty());
}

#[test]
fn pointer_focuses_first_visible_surface() {
    let slots = vec![
        TopLevelSlot { priority: 0, x: 0, y: 0, width: 10, height: 10, hidden: true },
        TopLevelSlot { priority: 0, x: 5, y: 0, width: 10, height: 10, hidden: false },
        TopLevelSlot { priority: 0, x: 5, y: 0, width: 20, height: 10, hidden: false },
    ];
    assert_eq!(update_pointer(&slots, 6, 5), Some(1));
    assert_eq!(update_pointer(&slots, 2, 5), None);
    assert_eq!(update_pointer(&slots, 20, 5), Some(2));
    assert_eq!(update_pointer(&slots, 20, 10), None);
}

#[test]
fn surfaces_found_by_identity() {
    let trees = vec![
        SurfaceTree { surface: 1, popups: vec![10, 11] },
        SurfaceTree { surface: 2, popups: vec![11] },
    ];
    assert_eq!(find_server_window(&trees, 2), Some(FoundSurface::TopLevel(1)));
    assert_eq!(find_server_window(&trees, 11), Some(FoundSurface::Popup(0, 1)));
    assert_eq!(find_server_window(&trees, 99), None);
    let shown = vec![vec![100, 101], vec![102]];
    assert_eq!(find_server_surface(&trees, &shown, 7, 7, Some(2)), Some(FoundSurface::TopLevel(1)));
    assert_eq!(find_server_surface(&trees, &shown, 7, 7, None), None);
    assert_eq!(find_server_surface(&trees, &shown, 102, 7, Some(2)), Some(FoundSurface::Popup(1, 0)));
    assert_eq!(find_server_surface(&trees, &shown, 103, 7, Some(2)), None);
}

#[test]
fn popup_events() {
    let wait = Some(PopupRenderEvent::WaitConfigure);
    assert_eq!(
        popup_event(wait, PopupEvent::Configure { x: 1, y: 2, width: 3, height: 4 }),
        Some(PopupRenderEvent::Configure { x: 1, y: 2, width: 3, height: 4 })
    );
    assert_eq!(popup_event(wait, PopupEvent::PopupDone), Some(PopupRenderEvent::Closed));
    assert_eq!(popup_event(wait, PopupEvent::Other), wait);
    let closed = Some(PopupRenderEvent::Closed);
    assert_eq!(popup_event(closed, PopupEvent::Configure { x: 1, y: 2, width: 3, height: 4 }), closed);
}

#[test]
fn layer_events() {
    let wait = Some(RenderEvent::WaitConfigure { width: 10, height: 20 });
    assert_eq!(
        layer_event(wait, LayerEvent::Configure { serial: 5, width: 30, height: 40 }),
        (Some(RenderEvent::Configure { width: 30, height: 40, serial: 5 }), Some(5))
    );
    assert_eq!(layer_event(wait, LayerEvent::Closed), (Some(RenderEvent::Closed), None));
    assert_eq!(
        layer_event(Some(RenderEvent::Closed), LayerEvent::Configure { serial: 5, width: 30, height: 40 }),
        (Some(RenderEvent::Closed), None)
    );
    assert_eq!(layer_event(None, LayerEvent::Other), (None, None));
}

#[test]
fn seat_capabilities() {
    assert_eq!(
        seat_devices(true, false, false, false, true),
        SeatDevices { add_keyboard: true, add_pointer: false, release_keyboard: false, release_pointer: false }
    );
    assert_eq!(
        seat_devices(true, true, true, true, false),
        SeatDevices { add_keyboard: false, add_pointer: false, release_keyboard: true, release_pointer: false }
    );
    assert_eq!(
        seat_devices(false, false, false, true, true),
        SeatDevices { add_keyboard: false, add_pointer: false, release_keyboard: true, release_pointer: true }
    );
}

#[test]
fn dock_event_rounds() {
    let round = cosmic_panel::dock_space::handle_events;
    let r = round(Some(RenderEvent::Closed), (10, 20), Some((1, 2)), 77);
    assert!(r.kill_children && !r.render);
    assert_eq!(r.pending, Some((1, 2)));
    assert_eq!(r.last_dirty, 77);
    let r = round(Some(RenderEvent::Configure { width: 30, height: 40, serial: 1 }), (10, 20), None, 5);
    assert_eq!((r.width, r.height, r.relayout), (30, 40, true));
    let r = round(Some(RenderEvent::Configure { width: 30, height: 40, serial: 1 }), (10, 20), Some((5, 5)), 5);
    assert_eq!((r.width, r.height, r.relayout), (10, 20, false));
    let wait = Some(RenderEvent::WaitConfigure { width: 3, height: 4 });
    assert_eq!(round(wait, (10, 20), None, 0).next_event, wait);
    let r = round(None, (10, 20), Some((50, 60)), 9);
    assert_eq!(
        r,
        DockRound {
            kill_children: false,
            width: 10,
            height: 20,
            relayout: false,
            set_size: Some((50, 60)),
            next_event: Some(RenderEvent::WaitConfigure { width: 50, height: 60 }),
            pending: None,
            render: false,
            last_dirty: 9,
        }
    );
    assert!(round(None, (10, 20), None, 3).render);
    assert_eq!(round(None, (10, 20), None, 3).last_dirty, 3);
}

fn rect(x: i32, y: i32, w: i32, h: i32) -> DamageRect {
    DamageRect { x, y, w, h }
}

fn window(dirty: bool, hidden: bool, x: i32, damage: Vec<DamageRect>) -> WindowFrame {
    WindowFrame {
        dirty,
        hidden,
        has_surface: true,
        rect: rect(x, 4, 30, 20),
        bbox_x: x - 2,
        bbox_y: 1,
        surface_damage: damage,
    }
}

#[test]
fn full_clear_damages_the_whole_dock() {
    let ws = vec![window(false, false, 10, vec![]), window(false, true, 50, vec![])];
    let p = frame_plan(true, (200, 48), &ws);
    assert_eq!(p.damage, vec![(rect(0, 0, 200, 48), (0, 0))]);
    assert_eq!(p.output_damage, vec![rect(0, 0, 200, 48)]);
    assert_eq!(p.draw, vec![true, false]);
    assert!(!p.swap);
}

#[test]
fn changed_windows_give_their_damage() {
    let ws = vec![
        window(true, false, 10, vec![]),
        window(true, false, 50, vec![rect(1, 2, 3, 4), rect(5, 6, 7, 8)]),
        window(true, true, 90, vec![rect(0, 0, 1, 1)]),
        window(false, false, 130, vec![rect(0, 0, 1, 1)]),
    ];
    let p = frame_plan(false, (200, 48), &ws);
    assert_eq!(
        p.damage,
        vec![(rect(2, 3, 30, 20), (10, 4)), (rect(1, 2, 3, 4), (50, 4)), (rect(5, 6, 7, 8), (50, 4))]
    );
    assert_eq!(p.output_damage, vec![rect(12, 7, 30, 20), rect(51, 6, 3, 4), rect(55, 10, 7, 8)]);
    assert_eq!(p.draw, vec![true, true, false, true]);
    assert!(p.swap);
    let quiet = vec![window(false, false, 10, vec![])];
    let p = frame_plan(false, (200, 48), &quiet);
    assert!(p.damage.is_empty() && p.output_damage.is_empty());
    assert_eq!(p.draw, vec![false]);
    assert!(!p.swap);
}
