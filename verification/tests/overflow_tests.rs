use cosmic_panel::panel_layout::{section_overflow, SectionFit};
use cosmic_panel::panel_layout::{
    move_from_overflow, move_to_overflow, overflow_grid_position, relax_all, relax_overflow_clients,
    relax_section, reorder_overflow_space, shrink_clients, AppletWindow, Extent, MovableApplet,
    OverflowAction, OverflowClientPartition, OverflowMetrics, OverflowSection, OverflowSpace,
    OverflowWindow, PanelClientInfo, PopupElement, ReorderAction, ReorderMetrics,
    SectionRelaxInput, ShrinkableApplet,
};
use cosmic_panel::panel_space::ClientShrinkSize;

fn metrics() -> OverflowMetrics {
    OverflowMetrics { horizontal: true, icon_size: 24, applet_padding: 4, unit_size: 32, padding: 2, spacing: 4 }
}

fn shrinkable(window: u64, priority: i32, min: ClientShrinkSize, w: i32, bounds: Option<(i32, i32)>) -> ShrinkableApplet {
    ShrinkableApplet { window, client: window as usize, priority, min_size: min, bbox_w: w, bbox_h: 32, size: None, bounds }
}

fn movable(window: u64, priority: u32, w: i32) -> MovableApplet {
    MovableApplet { window, client: window as usize, priority, bbox_w: w, bbox_h: 32, alive: true }
}

fn empty_space() -> OverflowSpace {
    OverflowSpace { windows: vec![], popups: 0, has_button: false }
}

#[test]
fn shrink_within_minimum() {
    let clients = OverflowClientPartition {
        shrinkable: vec![shrinkable(1, 5, ClientShrinkSize::AppletUnit(1), 100, None)],
        movable: vec![],
        suggested_size: 40,
    };
    let mut space = empty_space();
    let mut actions = Vec::new();
    let left = shrink_clients(30, &clients, metrics(), &mut space, false, &mut actions);
    assert_eq!(left, 0);
    assert_eq!(actions, vec![OverflowAction::SetBound { window: 1, length: 70 }]);
    assert_eq!(space.popups, 0);
}

#[test]
fn shrink_is_forced_below_minimum_when_nothing_else_helps() {
    let clients = OverflowClientPartition {
        shrinkable: vec![shrinkable(1, 5, ClientShrinkSize::AppletUnit(1), 100, None)],
        movable: vec![],
        suggested_size: 40,
    };
    let mut space = empty_space();
    let mut actions = Vec::new();
    let left = shrink_clients(80, &clients, metrics(), &mut space, false, &mut actions);
    assert_eq!(left, 0);
    assert_eq!(
        actions,
        vec![
            OverflowAction::SetBound { window: 1, length: 36 },
            OverflowAction::SetBound { window: 1, length: 84 },
        ]
    );
}

#[test]
fn applet_without_priority_is_not_shrunk_unless_forced() {
    let clients = OverflowClientPartition {
        shrinkable: vec![shrinkable(2, -1, ClientShrinkSize::AppletUnit(1), 100, None)],
        movable: vec![],
        suggested_size: 40,
    };
    let mut space = empty_space();
    let mut actions = Vec::new();
    let left = shrink_clients(10, &clients, metrics(), &mut space, true, &mut actions);
    assert_eq!(left, 0);
    assert_eq!(actions, vec![OverflowAction::SetBound { window: 2, length: 90 }]);
}

#[test]
fn movables_go_to_the_overflow_popup() {
    let movable = vec![movable(7, 3, 40), movable(8, 1, 40)];
    let mut space = empty_space();
    let mut actions = Vec::new();
    let left = move_to_overflow(30, metrics(), &movable, &mut space, &mut actions);
    assert_eq!(left, 0);
    assert_eq!(
        actions,
        vec![
            OverflowAction::MoveToOverflow { window: 7, x: 3, y: 1, size: 32 },
            OverflowAction::MoveToOverflow { window: 8, x: 39, y: 1, size: 32 },
            OverflowAction::UpdatePopup { replace: false, element_count: 2, alive_windows: 2 },
            OverflowAction::AddOverflowButton,
        ]
    );
    assert_eq!(
        space.windows,
        vec![OverflowWindow { window: 7, alive: true }, OverflowWindow { window: 8, alive: true }]
    );
    assert_eq!(space.popups, 1);
    assert!(space.has_button);
}

#[test]
fn a_single_movable_stays() {
    let movable = vec![movable(7, 3, 40)];
    let mut space = empty_space();
    let mut actions = Vec::new();
    let left = move_to_overflow(30, metrics(), &movable, &mut space, &mut actions);
    assert_eq!(left, 30);
    assert!(actions.is_empty());
    assert!(!space.has_button);
}

#[test]
fn grid_rows_of_eight() {
    let m = metrics();
    assert_eq!(overflow_grid_position(m, 0), (3, 1));
    assert_eq!(overflow_grid_position(m, 9), (39, 37));
    let v = OverflowMetrics { horizontal: false, ..m };
    assert_eq!(overflow_grid_position(v, 9), (37, 39));
}

fn client(window: Option<u64>, prio: Option<u32>, min: Option<ClientShrinkSize>) -> PanelClientInfo {
    PanelClientInfo {
        window: window.map(|w| AppletWindow { window: w, bbox_w: 50, bbox_h: 30, size: None, bounds: None, alive: true }),
        shrink_priority: prio,
        shrink_min_size: min,
    }
}

#[test]
fn clients_split_into_shrinkable_and_movable() {
    let clients = vec![
        client(Some(1), Some(2), Some(ClientShrinkSize::AppletUnit(1))),
        client(None, Some(3), None),
        client(Some(3), Some(7), None),
        client(Some(4), None, None),
        client(Some(5), None, Some(ClientShrinkSize::Pixel(10))),
        client(Some(6), Some(9), None),
    ];
    let p = OverflowClientPartition::shrinkable_clients(&clients, metrics());
    assert_eq!(p.suggested_size, 40);
    let s: Vec<(u64, i32, usize)> = p.shrinkable.iter().map(|a| (a.window, a.priority, a.client)).collect();
    assert_eq!(s, vec![(1, 2, 0), (5, 0, 4), (4, -1, 3)]);
    assert_eq!(p.shrinkable[2].min_size, ClientShrinkSize::AppletUnit(1));
    let m: Vec<(u64, u32)> = p.movable.iter().map(|a| (a.window, a.priority)).collect();
    assert_eq!(m, vec![(6, 9), (3, 7)]);
}

fn popup(count: usize) -> PopupElement {
    PopupElement::Popup { count, bbox_w: 10, bbox_h: 10 }
}

fn pwin(window: u64, alive: bool, client_pos: Option<usize>, w: i32) -> PopupElement {
    PopupElement::Window { window, alive, client_pos, bbox_w: w, bbox_h: 32 }
}

#[test]
fn windows_come_back_while_there_is_room() {
    let elements = vec![popup(2), pwin(7, true, None, 40), pwin(8, true, None, 70)];
    let (left, moved, stay) = move_from_overflow(100, true, &elements, 32);
    assert_eq!(left, 60);
    assert_eq!(moved, vec![7]);
    assert_eq!(stay, vec![popup(2), pwin(8, true, None, 70)]);
    let (left, moved, stay) = move_from_overflow(20, true, &elements, 32);
    assert_eq!(left, 20);
    assert!(moved.is_empty());
    assert_eq!(stay.len(), 3);
}

#[test]
fn constrained_applets_grow_last_first() {
    let apps = vec![
        shrinkable(1, 1, ClientShrinkSize::AppletUnit(1), 100, Some((50, 32))),
        shrinkable(2, 1, ClientShrinkSize::AppletUnit(1), 100, Some((0, 32))),
        shrinkable(3, 1, ClientShrinkSize::AppletUnit(1), 100, None),
    ];
    assert_eq!(
        relax_overflow_clients(0, true, &apps, 20),
        vec![
            OverflowAction::Relax { window: 3, bounds: None },
            OverflowAction::Relax { window: 2, bounds: Some(Extent { w: 0, h: 0 }) },
            OverflowAction::Relax { window: 1, bounds: Some(Extent { w: 70, h: 0 }) },
        ]
    );
    assert!(relax_overflow_clients(1, true, &apps, 20).is_empty());
    assert!(relax_overflow_clients(0, true, &apps, 0).is_empty());
    let first_grows = vec![apps[2], apps[0]];
    assert_eq!(
        relax_overflow_clients(0, true, &first_grows, 20),
        vec![OverflowAction::Relax { window: 1, bounds: Some(Extent { w: 70, h: 0 }) }]
    );
}

#[test]
fn constrained_and_relaxed_applets() {
    let part = OverflowClientPartition {
        shrinkable: vec![
            shrinkable(1, 1, ClientShrinkSize::AppletUnit(1), 100, Some((50, 0))),
            shrinkable(2, 1, ClientShrinkSize::AppletUnit(1), 30, Some((0, 32))),
            shrinkable(3, 1, ClientShrinkSize::AppletUnit(1), 100, None),
        ],
        movable: vec![],
        suggested_size: 40,
    };
    let c = part.constrained_shrinkables(true, &vec![50, 0, 0]);
    let ids: Vec<u64> = c.iter().map(|a| a.window).collect();
    assert_eq!(ids, vec![1, 3]);
    assert!(part.shrinkable_is_relaxed(true, &vec![50, 0, 0]));
    assert!(!part.shrinkable_is_relaxed(true, &vec![70, 0, 0]));
    let none = OverflowClientPartition { shrinkable: vec![], movable: vec![], suggested_size: 40 };
    assert!(none.shrinkable_is_relaxed(true, &vec![]));
}

#[test]
fn relaxed_section_takes_windows_back_and_drops_the_button() {
    let part = OverflowClientPartition { shrinkable: vec![], movable: vec![], suggested_size: 40 };
    let elements = vec![popup(1), pwin(7, true, None, 40)];
    let out = relax_section(OverflowSection::Center, metrics(), &part, &vec![], &vec![], 0, 100, &elements, true);
    assert_eq!(out.moved, vec![7]);
    assert!(out.remove_button);
    assert!(out.relaxed.is_empty());
    let out = relax_section(OverflowSection::Center, metrics(), &part, &vec![], &vec![], 0, 50, &vec![pwin(7, true, None, 40), pwin(8, true, None, 40)], true);
    assert_eq!(out.moved, vec![7]);
    assert!(!out.remove_button);
}

#[test]
fn left_section_grows_applets_only_with_enough_room() {
    let part = OverflowClientPartition {
        shrinkable: vec![shrinkable(1, 1, ClientShrinkSize::AppletUnit(1), 60, Some((50, 0)))],
        movable: vec![],
        suggested_size: 40,
    };
    let small = relax_section(OverflowSection::Left, metrics(), &part, &vec![50], &vec![50], 0, 20, &vec![], false);
    assert!(small.relaxed.is_empty() && small.moved.is_empty());
    let big = relax_section(OverflowSection::Left, metrics(), &part, &vec![50], &vec![50], 0, 40, &vec![], false);
    assert_eq!(big.relaxed, vec![OverflowAction::Relax { window: 1, bounds: Some(Extent { w: 90, h: 0 }) }]);
    let center = relax_section(OverflowSection::Center, metrics(), &part, &vec![50], &vec![50], 0, 20, &vec![], false);
    assert_eq!(center.relaxed, vec![OverflowAction::Relax { window: 1, bounds: Some(Extent { w: 70, h: 0 }) }]);
}

#[test]
fn relax_all_sections() {
    let empty = || OverflowClientPartition { shrinkable: vec![], movable: vec![], suggested_size: 40 };
    let left = SectionRelaxInput { clients: empty(), scaled: vec![], rounded: vec![], elements: vec![pwin(7, true, None, 40)], has_button: true };
    let center = SectionRelaxInput { clients: empty(), scaled: vec![], rounded: vec![], elements: vec![], has_button: false };
    let right = SectionRelaxInput { clients: empty(), scaled: vec![], rounded: vec![], elements: vec![popup(1)], has_button: true };
    let (l, c, r) = relax_all(metrics(), 0, &left, &center, &right);
    assert_eq!(l.moved, vec![7]);
    assert!(l.remove_button);
    assert!(c.moved.is_empty() && !c.remove_button);
    assert!(r.moved.is_empty() && r.remove_button);
}

#[test]
fn reorder_places_windows_by_client_position() {
    let m = ReorderMetrics { horizontal: true, unit: 32, padding: 2, spacing: 4 };
    let elements = vec![
        popup(5),
        pwin(1, true, Some(2), 32),
        pwin(2, false, Some(1), 32),
        pwin(3, true, Some(0), 32),
        pwin(4, true, None, 32),
    ];
    assert_eq!(
        reorder_overflow_space(m, &elements, true),
        vec![
            ReorderAction::Unmap { window: 2 },
            ReorderAction::ReplacePopup { count: 3 },
            ReorderAction::Place { window: 4, x: 3, y: 3 },
            ReorderAction::Place { window: 3, x: 39, y: 3 },
            ReorderAction::Place { window: 1, x: 75, y: 3 },
        ]
    );
    assert_eq!(reorder_overflow_space(m, &elements, false), vec![ReorderAction::Unmap { window: 2 }]);
    assert!(reorder_overflow_space(m, &vec![], true).is_empty());
    let vertical = ReorderMetrics { horizontal: false, ..m };
    assert_eq!(
        reorder_overflow_space(vertical, &vec![pwin(9, true, None, 32), popup(1)], true),
        vec![ReorderAction::Place { window: 9, x: 3, y: 3 }, ReorderAction::ReplacePopup { count: 1 }]
    );
}

#[test]
fn section_overflow_decisions() {
    assert_eq!(section_overflow(-100, -60), SectionFit::Relax(100));
    assert_eq!(section_overflow(-30, -60), SectionFit::Fits);
    assert_eq!(section_overflow(25, -60), SectionFit::Shrink(25));
    assert_eq!(section_overflow(i32::MIN, -60), SectionFit::Relax(2147483648));
}
