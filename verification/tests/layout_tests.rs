use olshell::layout::{
    icon_layout, icon_rect, is_on_popup_pushpin, is_selectable, menu_row_at, point_in_rect,
    popup_header_rows, popup_item_at, popup_pushpin_rect, rect_index_at, tray_order, workspace_at, workspace_submenu_rows, has_move_target,
    workspace_segment_x, DecorationGeometry, ResizeRegion, SubmenuRow, TrayCandidate, EDGE_BOTTOM, EDGE_LEFT,
    EDGE_RIGHT, EDGE_TOP, ICON_MENU_ROWS, WINDOW_MENU_ROWS,
};

#[test]
fn point_in_half_open_rect() {
    let r = (10, 20, 30, 40);
    assert!(point_in_rect(r, 10, 20));
    assert!(point_in_rect(r, 29, 39));
    assert!(!point_in_rect(r, 30, 25));
    assert!(!point_in_rect(r, 15, 40));
    assert!(!point_in_rect(r, 9, 25));
}

#[test]
fn resize_region_edges() {
    assert_eq!(ResizeRegion::TopLeft.edges(), EDGE_TOP | EDGE_LEFT);
    assert_eq!(ResizeRegion::TopRight.edges(), 9);
    assert_eq!(ResizeRegion::BottomLeft.edges(), 6);
    assert_eq!(ResizeRegion::BottomRight.edges(), EDGE_BOTTOM | EDGE_RIGHT);
    assert_eq!(ResizeRegion::Footer.edges(), EDGE_BOTTOM);
    // Each handle pulls exactly the edges it sits against.
    for r in [
        ResizeRegion::TopLeft,
        ResizeRegion::TopRight,
        ResizeRegion::BottomLeft,
        ResizeRegion::BottomRight,
        ResizeRegion::Footer,
    ] {
        let e = r.edges();
        assert_eq!(e & EDGE_TOP != 0, matches!(r, ResizeRegion::TopLeft | ResizeRegion::TopRight));
        assert_eq!(e & EDGE_LEFT != 0, matches!(r, ResizeRegion::TopLeft | ResizeRegion::BottomLeft));
    }
}

#[test]
fn corner_flips() {
    assert_eq!(ResizeRegion::TopLeft.corner_flip(), (true, true));
    assert_eq!(ResizeRegion::TopRight.corner_flip(), (false, true));
    assert_eq!(ResizeRegion::BottomLeft.corner_flip(), (true, false));
    assert_eq!(ResizeRegion::BottomRight.corner_flip(), (false, false));
}

#[test]
fn decoration_chrome() {
    let g = DecorationGeometry { width: 200, height: 30, toplevel_height: 100 };
    assert_eq!(g.button_rect(), (18, 8, 32, 22));
    assert_eq!(g.sticky_pushpin_rect(), (167, 7, 182, 22));
    assert_eq!(g.corner_handle_position(ResizeRegion::TopLeft), (0, 0));
    assert_eq!(g.corner_handle_position(ResizeRegion::TopRight), (186, 0));
    assert_eq!(g.corner_handle_position(ResizeRegion::BottomLeft), (0, 116));
    assert_eq!(g.corner_handle_position(ResizeRegion::BottomRight), (186, 116));
    assert_eq!(g.footer_rect(), (14, 116, 172));
    assert_eq!(g.border_side_rect(false), (0, 14, 116));
    assert_eq!(g.border_side_rect(true), (197, 14, 116));
    assert!(g.is_on_button(18, 8));
    assert!(!g.is_on_button(32, 10));
}

#[test]
fn short_header_centres_button_toward_zero() {
    // A header shorter than the button: (10 - 14) / 2 rounds toward zero.
    let g = DecorationGeometry { width: 100, height: 10, toplevel_height: 0 };
    assert_eq!(g.button_rect(), (18, -2, 32, 12));
}

#[test]
fn menu_rows() {
    assert_eq!(menu_row_at(-5, WINDOW_MENU_ROWS), Some(0));
    assert_eq!(menu_row_at(0, WINDOW_MENU_ROWS), Some(0));
    assert_eq!(menu_row_at(25, WINDOW_MENU_ROWS), Some(0));
    assert_eq!(menu_row_at(26, WINDOW_MENU_ROWS), Some(1));
    assert_eq!(menu_row_at(26 * 9 - 1, WINDOW_MENU_ROWS), Some(8));
    assert_eq!(menu_row_at(26 * 9, WINDOW_MENU_ROWS), None);
    assert_eq!(menu_row_at(60, ICON_MENU_ROWS), Some(2));
    assert_eq!(menu_row_at(78, ICON_MENU_ROWS), None);
}

#[test]
fn popup_rows_and_pushpin() {
    assert_eq!(popup_header_rows(), 1);
    assert_eq!(popup_pushpin_rect(), (12, 6, 38, 20));
    assert!(is_on_popup_pushpin(12, 6));
    assert!(!is_on_popup_pushpin(38, 10));
    assert_eq!(popup_item_at(10, 3), None);
    assert_eq!(popup_item_at(26, 3), Some(0));
    assert_eq!(popup_item_at(52, 3), Some(1));
    assert_eq!(popup_item_at(103, 3), Some(2));
    assert_eq!(popup_item_at(104, 3), None);
}

#[test]
fn submenu_rows_selectable() {
    let rows = vec![
        SubmenuRow::OutputHeader { panel: 0 },
        SubmenuRow::Workspace { panel: 0, index: 0, current: true },
        SubmenuRow::Workspace { panel: 0, index: 1, current: false },
    ];
    assert!(!is_selectable(&rows, 0));
    assert!(!is_selectable(&rows, 1));
    assert!(is_selectable(&rows, 2));
    assert!(!is_selectable(&rows, 3));
}

#[test]
fn first_rect_holding_point() {
    let rects = vec![(0, 0, 10, 10), (5, 5, 20, 20), (30, 30, 40, 40)];
    assert_eq!(rect_index_at(&rects, 7, 7), Some(0));
    assert_eq!(rect_index_at(&rects, 15, 15), Some(1));
    assert_eq!(rect_index_at(&rects, 35, 39), Some(2));
    assert_eq!(rect_index_at(&rects, 25, 25), None);
    assert_eq!(rect_index_at(&Vec::new(), 0, 0), None);
}

#[test]
fn workspace_strip_segments() {
    assert_eq!(workspace_segment_x(0), (6, 36));
    assert_eq!(workspace_segment_x(1), (38, 68));
    assert_eq!(workspace_segment_x(3), (102, 132));
    assert_eq!(workspace_at(6, 4), Some(0));
    assert_eq!(workspace_at(36, 4), None); // the gap between segments
    assert_eq!(workspace_at(37, 4), None);
    assert_eq!(workspace_at(38, 4), Some(1));
    assert_eq!(workspace_at(131, 4), Some(3));
    assert_eq!(workspace_at(131, 3), None);
    assert_eq!(workspace_at(0, 4), None);
}

#[test]
fn tray_slots_and_layout() {
    assert_eq!(icon_rect(0, 600), (14, 522, 62, 570));
    assert_eq!(icon_rect(2, 600), (138, 522, 186, 570));
    let positions = vec![None, Some((300, 40)), None, None];
    let boxes = icon_layout(&positions, 600);
    assert_eq!(
        boxes,
        vec![(14, 522, 62, 570), (300, 40, 348, 88), (76, 522, 124, 570), (138, 522, 186, 570)]
    );
    assert!(icon_layout(&Vec::new(), 600).is_empty());
}

fn candidate(title: &str, states: &[u32], on_output: bool, sticky: bool, workspace: Option<u32>) -> TrayCandidate {
    TrayCandidate { title: title.to_string(), states: states.to_vec(), on_output, sticky, workspace }
}

#[test]
fn tray_shows_minimized_windows_by_title() {
    let cs = vec![
        candidate("zsh", &[1], true, false, Some(0)),
        candidate("Editor", &[2, 1], true, false, Some(0)),
        candidate("browser", &[1], true, true, Some(3)), // sticky: on every workspace
        candidate("Editor", &[1], true, false, Some(0)),
        candidate("Mail", &[2], true, false, Some(0)), // not minimized
        candidate("Clock", &[1], false, false, Some(0)), // another output
        candidate("Music", &[1], true, false, Some(1)), // another workspace
        candidate("Notes", &[1], true, false, None),
    ];
    // Upper case sorts before lower case, as in byte order; the two
    // "Editor" windows keep their order.
    assert_eq!(tray_order(&cs, 0), vec![1, 3, 2, 0]);
    assert_eq!(tray_order(&cs, 1), vec![6, 2]);
    assert_eq!(tray_order(&Vec::new(), 0), Vec::<usize>::new());
}

#[test]
fn tray_order_uses_character_order() {
    let cs = vec![
        candidate("\u{e9}t\u{e9}", &[1], true, true, None),
        candidate("ab", &[1], true, true, None),
        candidate("a", &[1], true, true, None),
        candidate("", &[1], true, true, None),
    ];
    assert_eq!(tray_order(&cs, 0), vec![3, 2, 1, 0]);
}

#[test]
fn workspace_submenu_single_output() {
    let rows = workspace_submenu_rows(&vec![3], 0, Some(1));
    assert_eq!(
        rows,
        vec![
            SubmenuRow::Workspace { panel: 0, index: 0, current: false },
            SubmenuRow::Workspace { panel: 0, index: 1, current: true },
            SubmenuRow::Workspace { panel: 0, index: 2, current: false },
        ]
    );
    assert!(has_move_target(&rows));
    // One workspace and nowhere else to go.
    let only = workspace_submenu_rows(&vec![1], 0, Some(0));
    assert_eq!(only, vec![SubmenuRow::Workspace { panel: 0, index: 0, current: true }]);
    assert!(!has_move_target(&only));
}

#[test]
fn workspace_submenu_own_output_first_with_headers() {
    let rows = workspace_submenu_rows(&vec![1, 0, 2], 2, Some(0));
    assert_eq!(
        rows,
        vec![
            SubmenuRow::OutputHeader { panel: 2 },
            SubmenuRow::Workspace { panel: 2, index: 0, current: true },
            SubmenuRow::Workspace { panel: 2, index: 1, current: false },
            SubmenuRow::OutputHeader { panel: 0 },
            SubmenuRow::Workspace { panel: 0, index: 0, current: false },
        ]
    );
    // The window's workspace is only current on its own output.
    let rows = workspace_submenu_rows(&vec![1, 1], 1, Some(0));
    assert_eq!(
        rows,
        vec![
            SubmenuRow::OutputHeader { panel: 1 },
            SubmenuRow::Workspace { panel: 1, index: 0, current: true },
            SubmenuRow::OutputHeader { panel: 0 },
            SubmenuRow::Workspace { panel: 0, index: 0, current: false },
        ]
    );
    assert!(has_move_target(&rows));
    assert!(!has_move_target(&vec![SubmenuRow::OutputHeader { panel: 0 }]));
}
