use olshell::layout::{DecorationGeometry, ResizeRegion, SubmenuRow, EDGE_BOTTOM, EDGE_LEFT};
use olshell::pointer::{
    add_popup, key_step, open_notice, Key, open_workspace_submenu, pointer_step, window_menu_action, window_menu_item,
    BackgroundState, Button, IconMenuState, PointerInput, PointerKind, PointerState, PopupRow, ShellAction,
    Surface, WindowMenuAction, WindowMenuState,
};

fn state(backgrounds: usize, panels: usize) -> PointerState {
    PointerState {
        backgrounds: (0..backgrounds)
            .map(|_| BackgroundState { selected: Vec::new(), drag: None, hovered: None, last_click: None })
            .collect(),
        panels: vec![None; panels],
        popups: Vec::new(),
        window_menu: None,
        icon_menu: None,
        notice: None,
    }
}

fn event(surface: Surface, kind: PointerKind, x: i32, y: i32) -> PointerInput {
    PointerInput { surface, kind, x, y, tray_ids: Vec::new(), tray_boxes: Vec::new() }
}

/// An event on background 0 (800 by 600) whose tray holds windows 10
/// and 20 in boxes side by side.
fn on_tray(kind: PointerKind, x: i32, y: i32) -> PointerInput {
    PointerInput {
        surface: Surface::Background { index: 0, width: 800, height: 600 },
        kind,
        x,
        y,
        tray_ids: vec![10, 20],
        tray_boxes: vec![(14, 522, 62, 570), (76, 522, 124, 570)],
    }
}

fn press(button: Button, time: u32) -> PointerKind {
    PointerKind::Press { button, time }
}

fn header(toplevel: u64) -> Surface {
    Surface::Header {
        toplevel,
        geometry: DecorationGeometry { width: 200, height: 30, toplevel_height: 100 },
        button_hovered: false,
        sticky: false,
    }
}

#[test]
fn window_menu_rows() {
    assert_eq!(window_menu_item(6, false), ("Stick", true));
    assert_eq!(window_menu_item(6, true), ("Unstick", true));
    assert_eq!(window_menu_item(7, false), ("Move to Workspace", true));
    assert_eq!(window_menu_item(7, true), ("Move to Workspace", false));
    assert_eq!(window_menu_item(4, false), ("Properties", false));
    assert_eq!(window_menu_item(0, true), ("Close", true));
    assert_eq!(window_menu_action(0), WindowMenuAction::Minimize);
    assert_eq!(window_menu_action(7), WindowMenuAction::MoveToWorkspace);
}

#[test]
fn header_button_opens_and_toggles_window_menu() {
    let st = state(0, 0);
    let (st, acts) = pointer_step(&st, &event(header(7), press(Button::Select, 0), 20, 10));
    assert_eq!(acts, vec![ShellAction::OpenWindowMenu { toplevel: 7 }]);
    assert_eq!(st.window_menu.as_ref().map(|w| w.toplevel), Some(7));
    // A second click on the same button closes it.
    let (st, acts) = pointer_step(&st, &event(header(7), press(Button::Select, 0), 20, 10));
    assert_eq!(acts, vec![ShellAction::CloseWindowMenu]);
    assert!(st.window_menu.is_none());
    // Elsewhere on the header drags the window.
    let (_, acts) = pointer_step(&st, &event(header(7), press(Button::Select, 0), 100, 10));
    assert_eq!(acts, vec![ShellAction::MoveWindow { toplevel: 7, held: true }]);
}

#[test]
fn window_menu_rows_act_and_close() {
    let mut st = state(0, 0);
    st.window_menu = Some(WindowMenuState { toplevel: 3, sticky: false, hovered: None, submenu: None });
    // Hovering Properties highlights nothing; hovering Back does.
    let (st, acts) = pointer_step(&st, &event(Surface::WindowMenu, PointerKind::Motion, 5, 4 * 26 + 3));
    assert!(acts.is_empty());
    let (st, acts) = pointer_step(&st, &event(Surface::WindowMenu, PointerKind::Motion, 5, 5 * 26 + 3));
    assert_eq!(acts, vec![ShellAction::RedrawWindowMenu]);
    assert_eq!(st.window_menu.as_ref().unwrap().hovered, Some(5));
    // Move to Workspace asks for the submenu and keeps the menu open.
    let (mut st, acts) = pointer_step(&st, &event(Surface::WindowMenu, press(Button::Select, 0), 5, 7 * 26 + 1));
    assert_eq!(acts, vec![ShellAction::OpenWorkspaceSubmenu { toplevel: 3 }]);
    let rows = vec![
        SubmenuRow::Workspace { panel: 0, index: 0, current: true },
        SubmenuRow::Workspace { panel: 0, index: 1, current: false },
    ];
    assert!(open_workspace_submenu(&mut st, rows));
    let (st, acts) = pointer_step(&st, &event(Surface::WorkspaceSubmenu, press(Button::Select, 0), 5, 30));
    assert_eq!(
        acts,
        vec![ShellAction::AssignToplevel { toplevel: 3, panel: 0, index: 1 }, ShellAction::CloseWindowMenu]
    );
    assert!(st.window_menu.is_none());
    // Back lowers the window and closes the menu.
    let mut st = st;
    st.window_menu = Some(WindowMenuState { toplevel: 3, sticky: false, hovered: None, submenu: None });
    let (st, acts) = pointer_step(&st, &event(Surface::WindowMenu, press(Button::Select, 0), 5, 5 * 26));
    assert_eq!(acts, vec![ShellAction::Lower { toplevel: 3 }, ShellAction::CloseWindowMenu]);
    assert!(st.window_menu.is_none());
}

#[test]
fn nowhere_to_move_keeps_submenu_closed() {
    let mut st = state(0, 0);
    st.window_menu = Some(WindowMenuState { toplevel: 3, sticky: false, hovered: None, submenu: None });
    assert!(!open_workspace_submenu(&mut st, vec![SubmenuRow::Workspace { panel: 0, index: 0, current: true }]));
    assert!(st.window_menu.as_ref().unwrap().submenu.is_none());
}

#[test]
fn press_elsewhere_closes_menus() {
    let mut st = state(1, 1);
    st.window_menu = Some(WindowMenuState { toplevel: 3, sticky: false, hovered: None, submenu: None });
    st.icon_menu = Some(IconMenuState { toplevel: 10, background: 0, group: vec![10], hovered: None });
    let (st, acts) = pointer_step(&st, &event(Surface::Other, press(Button::Select, 0), 0, 0));
    assert_eq!(acts, vec![ShellAction::CloseWindowMenu, ShellAction::CloseIconMenu]);
    assert!(st.window_menu.is_none() && st.icon_menu.is_none());
}

#[test]
fn notice_is_modal() {
    let mut st = state(1, 0);
    assert!(open_notice(&mut st, vec![(10, 10, 50, 30), (60, 10, 100, 30)]));
    assert!(!open_notice(&mut st, Vec::new()));
    let (st, acts) = pointer_step(&st, &on_tray(press(Button::Menu, 0), 20, 530));
    assert!(acts.is_empty());
    // Pressing Cancel and releasing on it closes the notice.
    let (st, acts) = pointer_step(&st, &event(Surface::Notice, press(Button::Select, 0), 70, 20));
    assert_eq!(acts, vec![ShellAction::RedrawNotice]);
    let (st, acts) = pointer_step(&st, &event(Surface::Notice, PointerKind::Release { button: Button::Select }, 70, 20));
    assert_eq!(acts, vec![ShellAction::CloseNotice]);
    assert!(st.notice.is_none());
    // Exit confirms.
    let mut st = st;
    open_notice(&mut st, vec![(10, 10, 50, 30), (60, 10, 100, 30)]);
    let (st, _) = pointer_step(&st, &event(Surface::Notice, press(Button::Select, 0), 20, 20));
    let (_, acts) = pointer_step(&st, &event(Surface::Notice, PointerKind::Release { button: Button::Select }, 20, 20));
    assert_eq!(acts, vec![ShellAction::ExitSession, ShellAction::CloseNotice]);
}

#[test]
fn adjust_toggles_icon_selection() {
    let st = state(1, 0);
    let (st, acts) = pointer_step(&st, &on_tray(press(Button::Adjust, 0), 20, 530));
    assert_eq!(acts, vec![ShellAction::RedrawBackground { background: 0 }]);
    let (st, _) = pointer_step(&st, &on_tray(press(Button::Adjust, 0), 80, 530));
    assert_eq!(st.backgrounds[0].selected, vec![10, 20]);
    let (st, _) = pointer_step(&st, &on_tray(press(Button::Adjust, 0), 20, 530));
    assert_eq!(st.backgrounds[0].selected, vec![20]);
    // ADJUST on empty background changes nothing.
    let (st, acts) = pointer_step(&st, &on_tray(press(Button::Adjust, 0), 400, 100));
    assert!(acts.is_empty());
    assert_eq!(st.backgrounds[0].selected, vec![20]);
}

#[test]
fn double_click_restores_icon() {
    let st = state(1, 0);
    let (st, _) = pointer_step(&st, &on_tray(press(Button::Select, 1000), 20, 530));
    let (st, acts) = pointer_step(&st, &on_tray(PointerKind::Release { button: Button::Select }, 20, 530));
    assert_eq!(acts, vec![ShellAction::RedrawBackground { background: 0 }]);
    assert_eq!(st.backgrounds[0].selected, vec![10]);
    let (st, _) = pointer_step(&st, &on_tray(press(Button::Select, 1300), 20, 530));
    let (st, acts) = pointer_step(&st, &on_tray(PointerKind::Release { button: Button::Select }, 20, 530));
    assert_eq!(acts, vec![ShellAction::RedrawBackground { background: 0 }, ShellAction::Restore { toplevel: 10 }]);
    assert!(st.backgrounds[0].selected.is_empty());
    // Too slow: just a click again.
    let (st, _) = pointer_step(&st, &on_tray(press(Button::Select, 2000), 20, 530));
    let (st, _) = pointer_step(&st, &on_tray(PointerKind::Release { button: Button::Select }, 20, 530));
    let (st, _) = pointer_step(&st, &on_tray(press(Button::Select, 2500), 20, 530));
    let (_, acts) = pointer_step(&st, &on_tray(PointerKind::Release { button: Button::Select }, 20, 530));
    assert_eq!(acts, vec![ShellAction::RedrawBackground { background: 0 }]);
}

#[test]
fn drag_moves_icon_past_threshold() {
    let st = state(1, 0);
    let (st, _) = pointer_step(&st, &on_tray(press(Button::Select, 0), 20, 530));
    // Under four pixels: nothing moves yet.
    let (st, acts) = pointer_step(&st, &on_tray(PointerKind::Motion, 22, 532));
    assert!(acts.is_empty());
    let (st, acts) = pointer_step(&st, &on_tray(PointerKind::Motion, 23, 533));
    assert_eq!(
        acts,
        vec![ShellAction::SetIconPosition { toplevel: 10, x: 17, y: 525 }, ShellAction::RedrawBackground { background: 0 }]
    );
    // Kept on the background.
    let (st, acts) = pointer_step(&st, &on_tray(PointerKind::Motion, 5000, -90));
    assert_eq!(acts[0], ShellAction::SetIconPosition { toplevel: 10, x: 752, y: 0 });
    let (st, acts) = pointer_step(&st, &on_tray(PointerKind::Release { button: Button::Select }, 5000, -90));
    assert!(acts.is_empty());
    assert!(st.backgrounds[0].drag.is_none());
}

#[test]
fn menu_on_icon_and_background() {
    let st = state(1, 0);
    let (st, acts) = pointer_step(&st, &on_tray(press(Button::Menu, 0), 80, 530));
    assert_eq!(
        acts,
        vec![ShellAction::RedrawBackground { background: 0 }, ShellAction::OpenIconMenu { background: 0, toplevel: 20 }]
    );
    // MENU again on the same icon toggles its menu closed.
    let (st, acts) = pointer_step(&st, &on_tray(press(Button::Menu, 0), 80, 530));
    assert_eq!(acts, vec![ShellAction::CloseIconMenu]);
    // MENU on empty background opens the root menu.
    let (mut st, acts) = pointer_step(&st, &on_tray(press(Button::Menu, 0), 300, 200));
    assert_eq!(acts, vec![ShellAction::OpenRootMenu { background: 0, x: 300, y: 200 }]);
    add_popup(&mut st, vec![PopupRow::Command, PopupRow::Exit]);
    // Releasing on the first row runs it and closes the popup.
    let (st, acts) = pointer_step(
        &st,
        &event(Surface::Popup { index: 0 }, PointerKind::Release { button: Button::Menu }, 60, 30),
    );
    assert_eq!(acts, vec![ShellAction::RunCommand { popup: 0, row: 0 }, ShellAction::ClosePopup { popup: 0 }]);
    assert!(st.popups.is_empty());
}

#[test]
fn pushpin_pins_popup() {
    let mut st = state(0, 0);
    add_popup(&mut st, vec![PopupRow::Exit]);
    let release = PointerKind::Release { button: Button::Menu };
    let (st, acts) = pointer_step(&st, &event(Surface::Popup { index: 0 }, release, 15, 10));
    assert_eq!(acts, vec![ShellAction::RedrawPopup { popup: 0 }]);
    assert!(st.popups[0].pinned);
    // A pinned popup stays up after a choice and a release elsewhere.
    let (st, acts) = pointer_step(&st, &event(Surface::Popup { index: 0 }, release, 60, 30));
    assert_eq!(acts, vec![ShellAction::OpenNotice { popup: 0 }]);
    let (st, acts) = pointer_step(&st, &event(Surface::Other, release, 0, 0));
    assert!(acts.is_empty());
    // Its pushpin dismisses it.
    let (st, acts) = pointer_step(&st, &event(Surface::Popup { index: 0 }, release, 15, 10));
    assert_eq!(acts, vec![ShellAction::ClosePopup { popup: 0 }]);
    assert!(st.popups.is_empty());
}

#[test]
fn panel_segments_switch_and_assign() {
    let st = state(0, 1);
    let panel = Surface::Panel { index: 0, workspace_count: 3 };
    let (st, acts) = pointer_step(&st, &event(panel, PointerKind::Motion, 40, 5));
    assert_eq!(acts, vec![ShellAction::RedrawPanel { panel: 0 }]);
    assert_eq!(st.panels[0], Some(1));
    let (st, acts) = pointer_step(&st, &event(panel, press(Button::Select, 0), 40, 5));
    assert_eq!(acts, vec![ShellAction::SwitchWorkspace { panel: 0, index: 1 }]);
    let (st, acts) = pointer_step(&st, &event(panel, press(Button::Adjust, 0), 80, 5));
    assert_eq!(acts, vec![ShellAction::AssignFocused { panel: 0, index: 2 }]);
    let (_, acts) = pointer_step(&st, &event(panel, press(Button::Select, 0), 36, 5));
    assert!(acts.is_empty());
}

#[test]
fn resize_handles() {
    let st = state(0, 0);
    let h = Surface::Handle { toplevel: 4, region: ResizeRegion::BottomLeft, hovered: false };
    let (st, acts) = pointer_step(&st, &event(h, PointerKind::Motion, 1, 1));
    assert_eq!(acts, vec![ShellAction::SetHandleHover { toplevel: 4, region: ResizeRegion::BottomLeft, hovered: true }]);
    let (_, acts) = pointer_step(&st, &event(h, press(Button::Select, 0), 1, 1));
    assert_eq!(acts, vec![ShellAction::ResizeWindow { toplevel: 4, edges: EDGE_BOTTOM | EDGE_LEFT, held: true }]);
}

#[test]
fn icon_menu_move_arms_a_drag_ended_by_next_press() {
    let mut st = state(1, 0);
    st.icon_menu = Some(IconMenuState { toplevel: 20, background: 0, group: vec![20], hovered: None });
    let mut ev = on_tray(press(Button::Select, 0), 5, 30);
    ev.surface = Surface::IconMenu;
    let (st, acts) = pointer_step(&st, &ev);
    assert_eq!(acts, vec![ShellAction::RedrawBackground { background: 0 }, ShellAction::CloseIconMenu]);
    assert!(st.backgrounds[0].drag.as_ref().unwrap().armed);
    // The next press, anywhere, only ends the move.
    let (st, acts) = pointer_step(&st, &event(header(1), press(Button::Select, 0), 20, 10));
    assert_eq!(acts, vec![ShellAction::RedrawBackground { background: 0 }]);
    assert!(st.backgrounds[0].drag.is_none());
    assert!(st.window_menu.is_none());
}

#[test]
fn escape_closes_one_level_and_return_cancels_notice() {
    let mut st = state(0, 0);
    st.window_menu = Some(WindowMenuState { toplevel: 3, sticky: false, hovered: None, submenu: None });
    open_workspace_submenu(&mut st, vec![SubmenuRow::Workspace { panel: 0, index: 1, current: false }]);
    let (st, acts) = key_step(st, Key::Escape, Surface::WindowMenu);
    assert_eq!(acts, vec![ShellAction::CloseWorkspaceSubmenu]);
    assert!(st.window_menu.is_some());
    let (mut st, acts) = key_step(st, Key::Escape, Surface::WindowMenu);
    assert_eq!(acts, vec![ShellAction::CloseWindowMenu]);
    open_notice(&mut st, vec![(0, 0, 10, 10), (20, 0, 30, 10)]);
    let (st, acts) = key_step(st, Key::Return, Surface::Notice);
    assert_eq!(acts, vec![ShellAction::CloseNotice]);
    assert!(st.notice.is_none());
    let (_, acts) = key_step(st, Key::Other, Surface::Notice);
    assert!(acts.is_empty());
}
