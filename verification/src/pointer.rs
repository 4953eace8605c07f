//! What the shell does with each pointer event: which popups open and
//! close, what is hovered, selected and dragged, and which requests go
//! out to the compositor. The decisions are a function from the shell's
//! pointer state and one event to the next state and a list of
//! actions; the caller performs the actions (drawing, Wayland requests,
//! running commands) and feeds in the next event.
//!
//! The caller names the surface under the pointer and supplies what only
//! it knows of that surface (a decoration's geometry, a background's
//! tray of icons); positions are surface-local and already rounded to
//! whole pixels.
use vstd::prelude::*;
use crate::layout::{
    button_box, in_rect, is_selectable, menu_row_at, opt_usize, point_in_rect, popup_item_at,
    popup_pushpin_box, popup_row_at, region_edges, row_at, is_on_popup_pushpin, DecorationGeometry,
    Rect, ResizeRegion, SubmenuRow, EDGE_BOTTOM, EDGE_RIGHT, ICON_LABEL_HEIGHT, ICON_MENU_ROWS,
    ICON_SIZE, WINDOW_MENU_ROWS,
};

verus! {

/// Icons move once the pointer has gone this far from where SELECT
/// went down on them.
pub const ICON_DRAG_THRESHOLD: i64 = 4;

/// Two SELECT clicks on one icon at most this many milliseconds apart
/// restore its window.
pub const ICON_DOUBLE_CLICK_MS: u32 = 400;

// ---------------------------------------------------------------------
// The window menu and the icon menu
// ---------------------------------------------------------------------

/// What a window-menu row does.
#[derive(Clone, Copy, Debug, PartialEq, Eq, Structural)]
pub enum WindowMenuAction {
    Minimize,
    ToggleMaximize,
    Move,
    Resize,
    Unimplemented,
    Lower,
    ToggleSticky,
    MoveToWorkspace,
    Quit,
}

/// The action of window-menu row `i` (Close, Full Size, Move, Resize,
/// Properties, Back, Stick, Move to Workspace, Quit).
pub open spec fn window_row_action(i: int) -> WindowMenuAction {
    if i == 0 {
        WindowMenuAction::Minimize
    } else if i == 1 {
        WindowMenuAction::ToggleMaximize
    } else if i == 2 {
        WindowMenuAction::Move
    } else if i == 3 {
        WindowMenuAction::Resize
    } else if i == 4 {
        WindowMenuAction::Unimplemented
    } else if i == 5 {
        WindowMenuAction::Lower
    } else if i == 6 {
        WindowMenuAction::ToggleSticky
    } else if i == 7 {
        WindowMenuAction::MoveToWorkspace
    } else {
        WindowMenuAction::Quit
    }
}

/// The label of window-menu row `i`: "Stick" reads "Unstick" on a
/// sticky window.
pub open spec fn window_row_label(i: int, sticky: bool) -> Seq<char> {
    if i == 0 {
        "Close"@
    } else if i == 1 {
        "Full Size"@
    } else if i == 2 {
        "Move"@
    } else if i == 3 {
        "Resize"@
    } else if i == 4 {
        "Properties"@
    } else if i == 5 {
        "Back"@
    } else if i == 6 {
        if sticky {
            "Unstick"@
        } else {
            "Stick"@
        }
    } else if i == 7 {
        "Move to Workspace"@
    } else {
        "Quit"@
    }
}

/// Whether window-menu row `i` can be chosen: Properties never, Move to
/// Workspace not on a sticky window (it is on every workspace).
pub open spec fn window_row_enabled(i: int, sticky: bool) -> bool {
    i != 4 && !(i == 7 && sticky)
}

/// The action of window-menu row `index`.
pub fn window_menu_action(index: usize) -> (r: WindowMenuAction)
    ensures
        r == window_row_action(index as int),
{
    if index == 0 {
        WindowMenuAction::Minimize
    } else if index == 1 {
        WindowMenuAction::ToggleMaximize
    } else if index == 2 {
        WindowMenuAction::Move
    } else if index == 3 {
        WindowMenuAction::Resize
    } else if index == 4 {
        WindowMenuAction::Unimplemented
    } else if index == 5 {
        WindowMenuAction::Lower
    } else if index == 6 {
        WindowMenuAction::ToggleSticky
    } else if index == 7 {
        WindowMenuAction::MoveToWorkspace
    } else {
        WindowMenuAction::Quit
    }
}

/// The label of window-menu row `index` and whether it can be chosen,
/// for a window that is `sticky` or not.
pub fn window_menu_item(index: usize, sticky: bool) -> (r: (&'static str, bool))
    requires
        index < WINDOW_MENU_ROWS,
    ensures
        r.0@ == window_row_label(index as int, sticky),
        r.1 == window_row_enabled(index as int, sticky),
{
    let label = if index == 0 {
        "Close"
    } else if index == 1 {
        "Full Size"
    } else if index == 2 {
        "Move"
    } else if index == 3 {
        "Resize"
    } else if index == 4 {
        "Properties"
    } else if index == 5 {
        "Back"
    } else if index == 6 {
        if sticky {
            "Unstick"
        } else {
            "Stick"
        }
    } else if index == 7 {
        "Move to Workspace"
    } else {
        "Quit"
    };
    (label, index != 4 && !(index == 7 && sticky))
}

/// Whether icon-menu row `i` (Open, Move, Properties) can be chosen.
pub open spec fn icon_row_enabled(i: int) -> bool {
    i != 2
}

// ---------------------------------------------------------------------
// State, events and actions
// ---------------------------------------------------------------------

/// A SELECT press on an icon, followed until release: the icon pressed,
/// when and where, the icons that move with it and their starting
/// boxes' top-left corners, and whether it has started moving. An
/// `armed` drag was started from the icon menu's Move and ends at the
/// next press.
pub struct IconDrag {
    pub primary: u64,
    pub press_time: u32,
    pub press_pos: Option<(i32, i32)>,
    pub icons: Vec<(u64, i32, i32)>,
    pub dragging: bool,
    pub armed: bool,
}

pub struct DragModel {
    pub primary: u64,
    pub press_time: u32,
    pub press_pos: Option<(i32, i32)>,
    pub icons: Seq<(u64, i32, i32)>,
    pub dragging: bool,
    pub armed: bool,
}

impl View for IconDrag {
    type V = DragModel;

    open spec fn view(&self) -> DragModel {
        DragModel {
            primary: self.primary,
            press_time: self.press_time,
            press_pos: self.press_pos,
            icons: self.icons@,
            dragging: self.dragging,
            armed: self.armed,
        }
    }
}

pub open spec fn opt_drag(d: Option<IconDrag>) -> Option<DragModel> {
    match d {
        Some(d) => Some(d@),
        None => None,
    }
}

/// One output's background: the selected icons (by window), the drag in
/// progress, the hovered icon (tray position) and the last plain click
/// on an icon (window, time).
pub struct BackgroundState {
    pub selected: Vec<u64>,
    pub drag: Option<IconDrag>,
    pub hovered: Option<usize>,
    pub last_click: Option<(u64, u32)>,
}

pub struct BackgroundModel {
    pub selected: Seq<u64>,
    pub drag: Option<DragModel>,
    pub hovered: Option<usize>,
    pub last_click: Option<(u64, u32)>,
}

impl View for BackgroundState {
    type V = BackgroundModel;

    open spec fn view(&self) -> BackgroundModel {
        BackgroundModel {
            selected: self.selected@,
            drag: opt_drag(self.drag),
            hovered: self.hovered,
            last_click: self.last_click,
        }
    }
}

/// The "Move to Workspace" submenu: its rows and the hovered one.
pub struct SubmenuState {
    pub rows: Vec<SubmenuRow>,
    pub hovered: Option<usize>,
}

pub struct SubmenuModel {
    pub rows: Seq<SubmenuRow>,
    pub hovered: Option<usize>,
}

impl View for SubmenuState {
    type V = SubmenuModel;

    open spec fn view(&self) -> SubmenuModel {
        SubmenuModel { rows: self.rows@, hovered: self.hovered }
    }
}

/// The open window menu: its window, whether that window is sticky, the
/// hovered row and the workspace submenu, if open.
pub struct WindowMenuState {
    pub toplevel: u64,
    pub sticky: bool,
    pub hovered: Option<usize>,
    pub submenu: Option<SubmenuState>,
}

pub struct WindowMenuModel {
    pub toplevel: u64,
    pub sticky: bool,
    pub hovered: Option<usize>,
    pub submenu: Option<SubmenuModel>,
}

impl View for WindowMenuState {
    type V = WindowMenuModel;

    open spec fn view(&self) -> WindowMenuModel {
        WindowMenuModel {
            toplevel: self.toplevel,
            sticky: self.sticky,
            hovered: self.hovered,
            submenu: match self.submenu {
                Some(s) => Some(s@),
                None => None,
            },
        }
    }
}

/// The open icon menu: the icon's window, its background, the windows
/// Open and Move act on, and the hovered row.
pub struct IconMenuState {
    pub toplevel: u64,
    pub background: usize,
    pub group: Vec<u64>,
    pub hovered: Option<usize>,
}

pub struct IconMenuModel {
    pub toplevel: u64,
    pub background: usize,
    pub group: Seq<u64>,
    pub hovered: Option<usize>,
}

impl View for IconMenuState {
    type V = IconMenuModel;

    open spec fn view(&self) -> IconMenuModel {
        IconMenuModel {
            toplevel: self.toplevel,
            background: self.background,
            group: self.group@,
            hovered: self.hovered,
        }
    }
}

/// The open Exit confirmation: its buttons' boxes (Exit first) and the
/// button held down, if any.
pub struct NoticeState {
    pub buttons: Vec<Rect>,
    pub pressed: Option<usize>,
}

pub struct NoticeModel {
    pub buttons: Seq<Rect>,
    pub pressed: Option<usize>,
}

impl View for NoticeState {
    type V = NoticeModel;

    open spec fn view(&self) -> NoticeModel {
        NoticeModel { buttons: self.buttons@, pressed: self.pressed }
    }
}

/// What a row of a root-menu popup does.
#[derive(Clone, Copy, Debug, PartialEq, Eq, Structural)]
pub enum PopupRow {
    Command,
    Exit,
    Reload,
    Inert,
}

/// A root-menu popup: pinned or not, its hovered row, and its rows.
pub struct PopupState {
    pub pinned: bool,
    pub hovered: Option<usize>,
    pub rows: Vec<PopupRow>,
}

pub struct PopupModel {
    pub pinned: bool,
    pub hovered: Option<usize>,
    pub rows: Seq<PopupRow>,
}

impl View for PopupState {
    type V = PopupModel;

    open spec fn view(&self) -> PopupModel {
        PopupModel { pinned: self.pinned, hovered: self.hovered, rows: self.rows@ }
    }
}

/// Everything the pointer's handling reads and changes: per background,
/// per panel (its hovered workspace) and per root-menu popup, and the
/// window menu, icon menu and notice when open.
pub struct PointerState {
    pub backgrounds: Vec<BackgroundState>,
    pub panels: Vec<Option<u32>>,
    pub popups: Vec<PopupState>,
    pub window_menu: Option<WindowMenuState>,
    pub icon_menu: Option<IconMenuState>,
    pub notice: Option<NoticeState>,
}

pub struct PointerModel {
    pub backgrounds: Seq<BackgroundModel>,
    pub panels: Seq<Option<u32>>,
    pub popups: Seq<PopupModel>,
    pub window_menu: Option<WindowMenuModel>,
    pub icon_menu: Option<IconMenuModel>,
    pub notice: Option<NoticeModel>,
}

impl View for PointerState {
    type V = PointerModel;

    open spec fn view(&self) -> PointerModel {
        PointerModel {
            backgrounds: Seq::new(self.backgrounds@.len(), |i: int| self.backgrounds@[i]@),
            panels: self.panels@,
            popups: Seq::new(self.popups@.len(), |i: int| self.popups@[i]@),
            window_menu: match self.window_menu {
                Some(w) => Some(w@),
                None => None,
            },
            icon_menu: match self.icon_menu {
                Some(m) => Some(m@),
                None => None,
            },
            notice: match self.notice {
                Some(n) => Some(n@),
                None => None,
            },
        }
    }
}

/// A pointer button: SELECT (left), ADJUST (middle), MENU (right).
#[derive(Clone, Copy, Debug, PartialEq, Eq, Structural)]
pub enum Button {
    Select,
    Adjust,
    Menu,
    Other,
}

#[derive(Clone, Copy, Debug, PartialEq, Eq, Structural)]
pub enum PointerKind {
    Enter,
    Leave,
    Motion,
    Press { button: Button, time: u32 },
    Release { button: Button },
}

/// The surface an event is on, with what the caller knows of it: a
/// background's size, a panel's workspace count, a decoration header's
/// geometry, whether its button is hovered and whether its window is
/// sticky, a resize handle's region and whether it is hovered.
#[derive(Clone, Copy, Debug)]
pub enum Surface {
    Background { index: usize, width: i32, height: i32 },
    Panel { index: usize, workspace_count: u32 },
    Popup { index: usize },
    Header { toplevel: u64, geometry: DecorationGeometry, button_hovered: bool, sticky: bool },
    Handle { toplevel: u64, region: ResizeRegion, hovered: bool },
    WindowMenu,
    WorkspaceSubmenu,
    IconMenu,
    Notice,
    Other,
}

/// One pointer event at surface-local `(x, y)`. `tray_ids` and
/// `tray_boxes` are the icons of the background concerned (the one under
/// the pointer, or the icon menu's), in tray order with their boxes.
pub struct PointerInput {
    pub surface: Surface,
    pub kind: PointerKind,
    pub x: i32,
    pub y: i32,
    pub tray_ids: Vec<u64>,
    pub tray_boxes: Vec<Rect>,
}

pub struct InputModel {
    pub surface: Surface,
    pub kind: PointerKind,
    pub x: i32,
    pub y: i32,
    pub tray_ids: Seq<u64>,
    pub tray_boxes: Seq<Rect>,
}

impl View for PointerInput {
    type V = InputModel;

    open spec fn view(&self) -> InputModel {
        InputModel {
            surface: self.surface,
            kind: self.kind,
            x: self.x,
            y: self.y,
            tray_ids: self.tray_ids@,
            tray_boxes: self.tray_boxes@,
        }
    }
}

/// What the caller does after an event, in order.
#[derive(Clone, Copy, Debug, PartialEq, Eq, Structural)]
pub enum ShellAction {
    RedrawBackground { background: usize },
    RedrawPanel { panel: usize },
    RedrawPopup { popup: usize },
    RedrawWindowMenu,
    RedrawIconMenu,
    RedrawWorkspaceSubmenu,
    RedrawNotice,
    SetButtonHover { toplevel: u64, hovered: bool },
    SetHandleHover { toplevel: u64, region: ResizeRegion, hovered: bool },
    CloseWindowMenu,
    CloseIconMenu,
    CloseWorkspaceSubmenu,
    ClosePopup { popup: usize },
    CloseNotice,
    OpenWindowMenu { toplevel: u64 },
    OpenIconMenu { background: usize, toplevel: u64 },
    OpenWorkspaceSubmenu { toplevel: u64 },
    OpenRootMenu { background: usize, x: i32, y: i32 },
    OpenNotice { popup: usize },
    SetIconPosition { toplevel: u64, x: i32, y: i32 },
    Restore { toplevel: u64 },
    SwitchWorkspace { panel: usize, index: u32 },
    AssignFocused { panel: usize, index: u32 },
    AssignToplevel { toplevel: u64, panel: usize, index: u32 },
    MoveWindow { toplevel: u64, held: bool },
    ResizeWindow { toplevel: u64, edges: u32, held: bool },
    Minimize { toplevel: u64 },
    ToggleMaximize { toplevel: u64 },
    Lower { toplevel: u64 },
    Quit { toplevel: u64 },
    ToggleSticky { toplevel: u64 },
    RunCommand { popup: usize, row: usize },
    ReloadMenu,
    ExitSession,
}

pub type Outcome = (PointerModel, Seq<ShellAction>);

// ---------------------------------------------------------------------
// Searching sequences
// ---------------------------------------------------------------------

/// The first index of `s` whose element satisfies `p`.
pub open spec fn first_where<T>(s: Seq<T>, p: spec_fn(T) -> bool) -> Option<int> {
    if exists|k: int| 0 <= k < s.len() && p(s[k]) && forall|j: int| 0 <= j < k ==> !p(#[trigger] s[j]) {
        Some(
            choose|k: int| 0 <= k < s.len() && p(s[k]) && forall|j: int| 0 <= j < k ==> !p(#[trigger] s[j]),
        )
    } else {
        None
    }
}

proof fn lemma_first_where<T>(s: Seq<T>, p: spec_fn(T) -> bool, k: int)
    requires
        0 <= k <= s.len(),
        k < s.len() ==> p(s[k]),
        forall|j: int| 0 <= j < k ==> !p(#[trigger] s[j]),
    ensures
        first_where(s, p) == if k < s.len() {
            Some(k)
        } else {
            None::<int>
        },
{
    if k < s.len() {
        assert(0 <= k < s.len() && p(s[k]) && forall|j: int| 0 <= j < k ==> !p(#[trigger] s[j]));
        let c = choose|c: int| 0 <= c < s.len() && p(s[c]) && forall|j: int| 0 <= j < c ==> !p(#[trigger] s[j]);
        if c < k {
            assert(!p(s[c]));
        }
        if c > k {
            assert(!p(s[k]));
        }
    } else {
        if exists|c: int| 0 <= c < s.len() && p(s[c]) && forall|j: int| 0 <= j < c ==> !p(#[trigger] s[j]) {
            let c = choose|c: int| 0 <= c < s.len() && p(s[c]) && forall|j: int| 0 <= j < c ==> !p(#[trigger] s[j]);
            assert(!p(s[c]));
        }
    }
}

/// The tray position of the icon whose box holds `(x, y)`.
pub open spec fn icon_hit(e: InputModel) -> Option<int> {
    first_where(e.tray_boxes, |r: Rect| in_rect(r, e.x as int, e.y as int))
}

/// The window of the icon under the pointer.
pub open spec fn icon_window(e: InputModel) -> Option<u64> {
    match icon_hit(e) {
        Some(k) => if k < e.tray_ids.len() {
            Some(e.tray_ids[k])
        } else {
            None
        },
        None => None,
    }
}

fn find_icon(input: &PointerInput) -> (r: Option<usize>)
    ensures
        opt_usize(r) == icon_hit(input@),
{
    let ghost p = |r: Rect| in_rect(r, input.x as int, input.y as int);
    let mut k: usize = 0;
    while k < input.tray_boxes.len()
        invariant
            k <= input.tray_boxes.len(),
            p == (|r: Rect| in_rect(r, input.x as int, input.y as int)),
            forall|j: int| 0 <= j < k ==> !p(#[trigger] input.tray_boxes@[j]),
        decreases input.tray_boxes.len() - k,
    {
        if point_in_rect(input.tray_boxes[k], input.x, input.y) {
            proof {
                lemma_first_where(input.tray_boxes@, p, k as int);
            }
            return Some(k);
        }
        k = k + 1;
    }
    proof {
        lemma_first_where(input.tray_boxes@, p, k as int);
    }
    None
}

fn find_icon_window(input: &PointerInput) -> (r: Option<(usize, u64)>)
    ensures
        match r {
            Some((k, w)) => icon_hit(input@) == Some(k as int) && k < input.tray_ids.len() && icon_window(input@) == Some(w),
            None => icon_window(input@) is None,
        },
{
    match find_icon(input) {
        Some(k) => if k < input.tray_ids.len() {
            Some((k, input.tray_ids[k]))
        } else {
            None
        },
        None => None,
    }
}

/// The position of `w` in `s`, if it occurs.
pub open spec fn position_of(s: Seq<u64>, w: u64) -> Option<int> {
    first_where(s, |v: u64| v == w)
}

fn find_u64(s: &Vec<u64>, w: u64) -> (r: Option<usize>)
    ensures
        opt_usize(r) == position_of(s@, w),
        r is Some <==> s@.contains(w),
        r matches Some(k) ==> k < s.len() && s@[k as int] == w,
{
    let ghost p = |v: u64| v == w;
    let mut k: usize = 0;
    while k < s.len()
        invariant
            k <= s.len(),
            p == (|v: u64| v == w),
            forall|j: int| 0 <= j < k ==> !p(#[trigger] s@[j]),
        decreases s.len() - k,
    {
        if s[k] == w {
            proof {
                lemma_first_where(s@, p, k as int);
            }
            return Some(k);
        }
        k = k + 1;
    }
    proof {
        lemma_first_where(s@, p, k as int);
    }
    None
}

/// The icons of `group` that are in the tray, in `group`'s order, with
/// the top-left corners of their boxes.
pub open spec fn group_icons(group: Seq<u64>, ids: Seq<u64>, boxes: Seq<Rect>) -> Seq<(u64, i32, i32)>
    decreases group.len(),
{
    if group.len() == 0 {
        seq![]
    } else {
        let rest = group_icons(group.drop_last(), ids, boxes);
        let w = group.last();
        match position_of(ids, w) {
            Some(k) => if k < boxes.len() {
                rest.push((w, boxes[k].0, boxes[k].1))
            } else {
                rest
            },
            None => rest,
        }
    }
}

fn collect_group(group: &Vec<u64>, input: &PointerInput) -> (r: Vec<(u64, i32, i32)>)
    ensures
        r@ == group_icons(group@, input.tray_ids@, input.tray_boxes@),
{
    let mut r: Vec<(u64, i32, i32)> = Vec::new();
    let mut i: usize = 0;
    while i < group.len()
        invariant
            i <= group.len(),
            r@ == group_icons(group@.take(i as int), input.tray_ids@, input.tray_boxes@),
        decreases group.len() - i,
    {
        proof {
            assert(group@.take(i + 1).drop_last() =~= group@.take(i as int));
            assert(group@.take(i + 1).last() == group@[i as int]);
        }
        match find_u64(&input.tray_ids, group[i]) {
            Some(k) => if k < input.tray_boxes.len() {
                let b = input.tray_boxes[k];
                r.push((group[i], b.0, b.1));
            },
            None => {},
        }
        i = i + 1;
    }
    proof {
        assert(group@.take(group.len() as int) =~= group@);
    }
    r
}

// ---------------------------------------------------------------------
// The decisions
// ---------------------------------------------------------------------

pub open spec fn no_change(st: PointerModel) -> Outcome {
    (st, seq![])
}

/// The first background with an armed drag.
pub open spec fn armed_background(st: PointerModel) -> Option<int> {
    first_where(st.backgrounds, |b: BackgroundModel| b.drag matches Some(d) && d.armed)
}

/// `b` with `w` added to its selection, or taken out of it.
pub open spec fn toggled(sel: Seq<u64>, w: u64) -> Seq<u64> {
    match position_of(sel, w) {
        Some(k) => sel.remove(k),
        None => sel.push(w),
    }
}

pub open spec fn set_background(st: PointerModel, i: int, b: BackgroundModel) -> PointerModel {
    PointerModel { backgrounds: st.backgrounds.update(i, b), ..st }
}

/// MENU pressed on background `i`.
pub open spec fn background_menu(st: PointerModel, e: InputModel, i: int, prev_icon_menu: Option<u64>) -> Outcome {
    match icon_window(e) {
        Some(w) => if prev_icon_menu == Some(w) {
            no_change(st)
        } else {
            let b = st.backgrounds[i];
            let group_member = b.selected.len() > 1 && b.selected.contains(w);
            let group = if group_member { b.selected } else { seq![w] };
            let st2 = if group_member { st } else { set_background(st, i, BackgroundModel { selected: seq![w], ..b }) };
            let acts = if group_member {
                seq![]
            } else {
                seq![ShellAction::RedrawBackground { background: i as usize }]
            };
            (
                PointerModel {
                    icon_menu: Some(
                        IconMenuModel { toplevel: w, background: i as usize, group, hovered: None },
                    ),
                    ..st2
                },
                acts.push(ShellAction::OpenIconMenu { background: i as usize, toplevel: w }),
            )
        },
        None => (
            PointerModel { popups: st.popups.filter(|p: PopupModel| p.pinned), ..st },
            seq![ShellAction::OpenRootMenu { background: i as usize, x: e.x, y: e.y }],
        ),
    }
}

/// ADJUST pressed on background `i`.
pub open spec fn background_adjust(st: PointerModel, e: InputModel, i: int) -> Outcome {
    match icon_window(e) {
        Some(w) => {
            let b = st.backgrounds[i];
            (
                set_background(st, i, BackgroundModel { selected: toggled(b.selected, w), ..b }),
                seq![ShellAction::RedrawBackground { background: i as usize }],
            )
        },
        None => no_change(st),
    }
}

pub open spec fn clamp(v: int, hi: int) -> int {
    if v < 0 {
        0
    } else if v > hi {
        hi
    } else {
        v
    }
}

/// The moves of the dragged icons by `(dx, dy)`, each kept on a
/// background whose icon corners may go up to `(max_x, max_y)`.
pub open spec fn icon_moves(icons: Seq<(u64, i32, i32)>, dx: int, dy: int, max_x: int, max_y: int) -> Seq<ShellAction> {
    Seq::new(
        icons.len(),
        |k: int| ShellAction::SetIconPosition {
            toplevel: icons[k].0,
            x: clamp(icons[k].1 + dx, max_x) as i32,
            y: clamp(icons[k].2 + dy, max_y) as i32,
        },
    )
}

pub open spec fn max0(v: int) -> int {
    if v < 0 {
        0
    } else {
        v
    }
}

/// Motion over background `i` (`width` by `height`).
pub open spec fn background_motion(st: PointerModel, e: InputModel, i: int, width: int, height: int) -> Outcome {
    let b = st.backgrounds[i];
    match b.drag {
        Some(d) => {
            let origin = match d.press_pos {
                Some(p) => p,
                None => (e.x, e.y),
            };
            let d1 = DragModel { press_pos: Some(origin), ..d };
            let dx = e.x - origin.0;
            let dy = e.y - origin.1;
            if d.dragging || dx * dx + dy * dy >= ICON_DRAG_THRESHOLD * ICON_DRAG_THRESHOLD {
                let max_x = max0(width - ICON_SIZE);
                let max_y = max0(height - ICON_SIZE - ICON_LABEL_HEIGHT);
                (
                    set_background(
                        st,
                        i,
                        BackgroundModel {
                            drag: Some(DragModel { dragging: true, ..d1 }),
                            selected: Seq::new(d.icons.len(), |k: int| d.icons[k].0),
                            ..b
                        },
                    ),
                    icon_moves(d.icons, dx, dy, max_x, max_y).push(
                        ShellAction::RedrawBackground { background: i as usize },
                    ),
                )
            } else {
                (set_background(st, i, BackgroundModel { drag: Some(d1), ..b }), seq![])
            }
        },
        None => {
            let hovered = match icon_hit(e) {
                Some(k) => Some(k as usize),
                None => None,
            };
            if b.hovered != hovered {
                (
                    set_background(st, i, BackgroundModel { hovered, ..b }),
                    seq![ShellAction::RedrawBackground { background: i as usize }],
                )
            } else {
                no_change(st)
            }
        },
    }
}

/// The pointer left background `i`.
pub open spec fn background_leave(st: PointerModel, i: int) -> Outcome {
    let b = st.backgrounds[i];
    if b.hovered is Some {
        (
            set_background(st, i, BackgroundModel { hovered: None, ..b }),
            seq![ShellAction::RedrawBackground { background: i as usize }],
        )
    } else {
        no_change(st)
    }
}

/// SELECT pressed on background `i` at time `time`.
pub open spec fn background_select(st: PointerModel, e: InputModel, i: int, time: u32) -> Outcome {
    let b = st.backgrounds[i];
    match icon_hit(e) {
        Some(k) => if k < e.tray_ids.len() {
            let w = e.tray_ids[k];
            let icons = if b.selected.len() > 1 && b.selected.contains(w) {
                group_icons(b.selected, e.tray_ids, e.tray_boxes)
            } else {
                seq![(w, e.tray_boxes[k].0, e.tray_boxes[k].1)]
            };
            (
                set_background(
                    st,
                    i,
                    BackgroundModel {
                        drag: Some(
                            DragModel {
                                primary: w,
                                press_time: time,
                                press_pos: Some((e.x, e.y)),
                                icons,
                                dragging: false,
                                armed: false,
                            },
                        ),
                        ..b
                    },
                ),
                seq![],
            )
        } else {
            background_clear(st, i)
        },
        None => background_clear(st, i),
    }
}

pub open spec fn background_clear(st: PointerModel, i: int) -> Outcome {
    let b = st.backgrounds[i];
    if b.selected.len() > 0 {
        (
            set_background(st, i, BackgroundModel { selected: seq![], ..b }),
            seq![ShellAction::RedrawBackground { background: i as usize }],
        )
    } else {
        no_change(st)
    }
}

/// Milliseconds from `earlier` to `later` on a clock that wraps.
pub open spec fn elapsed(later: u32, earlier: u32) -> int {
    if later >= earlier {
        later - earlier
    } else {
        later + 0x1_0000_0000 - earlier
    }
}

/// SELECT released over background `i`.
pub open spec fn background_release(st: PointerModel, i: int) -> Outcome {
    let b = st.backgrounds[i];
    match b.drag {
        None => no_change(st),
        Some(d) => if d.dragging {
            (set_background(st, i, BackgroundModel { drag: None, ..b }), seq![])
        } else {
            let double = b.last_click matches Some((w, t)) && w == d.primary && elapsed(
                d.press_time,
                t,
            ) <= ICON_DOUBLE_CLICK_MS;
            if double {
                (
                    set_background(
                        st,
                        i,
                        BackgroundModel { drag: None, selected: seq![], last_click: None, ..b },
                    ),
                    seq![
                        ShellAction::RedrawBackground { background: i as usize },
                        ShellAction::Restore { toplevel: d.primary },
                    ],
                )
            } else {
                (
                    set_background(
                        st,
                        i,
                        BackgroundModel {
                            drag: None,
                            selected: seq![d.primary],
                            last_click: Some((d.primary, d.press_time)),
                            ..b
                        },
                    ),
                    seq![ShellAction::RedrawBackground { background: i as usize }],
                )
            }
        },
    }
}

/// The workspace segment of a panel with `count` workspaces under `x`.
pub open spec fn workspace_hit(x: int, count: int) -> Option<u32> {
    let q = (x - 6) / 32;
    if x >= 6 && (x - 6) % 32 < 30 && q < count {
        Some(q as u32)
    } else {
        None
    }
}

fn find_workspace(x: i32, count: u32) -> (r: Option<u32>)
    ensures
        r == workspace_hit(x as int, count as int),
{
    if x < 6 {
        return None;
    }
    let off: i32 = x - 6;
    let q: i32 = off / 32;
    if off % 32 < 30 && (q as u32) < count {
        Some(q as u32)
    } else {
        None
    }
}

/// An event on panel `i` (with `count` workspaces).
pub open spec fn panel_event(st: PointerModel, e: InputModel, i: int, count: int) -> Outcome {
    let hit = workspace_hit(e.x as int, count);
    match e.kind {
        PointerKind::Motion => if st.panels[i] != hit {
            (
                PointerModel { panels: st.panels.update(i, hit), ..st },
                seq![ShellAction::RedrawPanel { panel: i as usize }],
            )
        } else {
            no_change(st)
        },
        PointerKind::Leave => if st.panels[i] is Some {
            (
                PointerModel { panels: st.panels.update(i, None), ..st },
                seq![ShellAction::RedrawPanel { panel: i as usize }],
            )
        } else {
            no_change(st)
        },
        PointerKind::Press { button: Button::Select, .. } => match hit {
            Some(w) => (st, seq![ShellAction::SwitchWorkspace { panel: i as usize, index: w }]),
            None => no_change(st),
        },
        PointerKind::Press { button: Button::Adjust, .. } => match hit {
            Some(w) => (st, seq![ShellAction::AssignFocused { panel: i as usize, index: w }]),
            None => no_change(st),
        },
        _ => no_change(st),
    }
}

/// Whether `(x, y)` is on the window-menu button of a header.
pub open spec fn on_header_button(g: DecorationGeometry, x: int, y: int) -> bool {
    g.height <= i32::MAX && in_rect(button_box(g), x, y)
}

/// An event on the decoration header of `toplevel`.
pub open spec fn header_event(
    st: PointerModel,
    e: InputModel,
    toplevel: u64,
    g: DecorationGeometry,
    hovered: bool,
    sticky: bool,
    prev_window_menu: Option<u64>,
) -> Outcome {
    let on = on_header_button(g, e.x as int, e.y as int);
    match e.kind {
        PointerKind::Motion => if on != hovered {
            (st, seq![ShellAction::SetButtonHover { toplevel, hovered: on }])
        } else {
            no_change(st)
        },
        PointerKind::Leave => if hovered {
            (st, seq![ShellAction::SetButtonHover { toplevel, hovered: false }])
        } else {
            no_change(st)
        },
        PointerKind::Press { button: Button::Select, .. } => if on {
            if prev_window_menu == Some(toplevel) {
                no_change(st)
            } else {
                (
                    PointerModel {
                        window_menu: Some(
                            WindowMenuModel { toplevel, sticky, hovered: None, submenu: None },
                        ),
                        ..st
                    },
                    seq![ShellAction::OpenWindowMenu { toplevel }],
                )
            }
        } else {
            (st, seq![ShellAction::MoveWindow { toplevel, held: true }])
        },
        _ => no_change(st),
    }
}

/// An event on a resize handle.
pub open spec fn handle_event(st: PointerModel, e: InputModel, toplevel: u64, region: ResizeRegion, hovered: bool) -> Outcome {
    match e.kind {
        PointerKind::Motion => if !hovered {
            (st, seq![ShellAction::SetHandleHover { toplevel, region, hovered: true }])
        } else {
            no_change(st)
        },
        PointerKind::Leave => if hovered {
            (st, seq![ShellAction::SetHandleHover { toplevel, region, hovered: false }])
        } else {
            no_change(st)
        },
        PointerKind::Press { button: Button::Select, .. } => (
            st,
            seq![ShellAction::ResizeWindow { toplevel, edges: region_edges(region), held: true }],
        ),
        _ => no_change(st),
    }
}

/// What choosing window-menu row `i` does to `toplevel`'s window.
pub open spec fn window_row_effect(action: WindowMenuAction, toplevel: u64) -> Seq<ShellAction> {
    match action {
        WindowMenuAction::Minimize => seq![ShellAction::Minimize { toplevel }],
        WindowMenuAction::ToggleMaximize => seq![ShellAction::ToggleMaximize { toplevel }],
        WindowMenuAction::Move => seq![ShellAction::MoveWindow { toplevel, held: false }],
        WindowMenuAction::Resize => seq![
            ShellAction::ResizeWindow { toplevel, edges: EDGE_BOTTOM | EDGE_RIGHT, held: false },
        ],
        WindowMenuAction::Lower => seq![ShellAction::Lower { toplevel }],
        WindowMenuAction::Quit => seq![ShellAction::Quit { toplevel }],
        WindowMenuAction::ToggleSticky => seq![ShellAction::ToggleSticky { toplevel }],
        _ => seq![],
    }
}

/// The hovered row under `y` of a menu of `rows` rows, of those rows
/// that `ok` allows.
pub open spec fn hover_row(y: int, rows: int, ok: spec_fn(int) -> bool) -> Option<usize> {
    match row_at(y, rows) {
        Some(r) => if ok(r) {
            Some(r as usize)
        } else {
            None
        },
        None => None,
    }
}

/// An event on the open window menu `wm`.
pub open spec fn window_menu_event(st: PointerModel, e: InputModel, wm: WindowMenuModel) -> Outcome {
    match e.kind {
        PointerKind::Motion => {
            let h = hover_row(e.y as int, WINDOW_MENU_ROWS as int, |r: int| window_row_enabled(r, wm.sticky));
            if wm.hovered != h {
                (
                    PointerModel { window_menu: Some(WindowMenuModel { hovered: h, ..wm }), ..st },
                    seq![ShellAction::RedrawWindowMenu],
                )
            } else {
                no_change(st)
            }
        },
        PointerKind::Leave => if wm.hovered is Some {
            (
                PointerModel { window_menu: Some(WindowMenuModel { hovered: None, ..wm }), ..st },
                seq![ShellAction::RedrawWindowMenu],
            )
        } else {
            no_change(st)
        },
        PointerKind::Press { button: Button::Select, .. } => {
            let closed = (PointerModel { window_menu: None, ..st }, seq![ShellAction::CloseWindowMenu]);
            match row_at(e.y as int, WINDOW_MENU_ROWS as int) {
                Some(r) => if !window_row_enabled(r, wm.sticky) {
                    closed
                } else if window_row_action(r) == WindowMenuAction::MoveToWorkspace {
                    if wm.submenu is Some {
                        (
                            PointerModel { window_menu: Some(WindowMenuModel { submenu: None, ..wm }), ..st },
                            seq![ShellAction::CloseWorkspaceSubmenu],
                        )
                    } else {
                        (st, seq![ShellAction::OpenWorkspaceSubmenu { toplevel: wm.toplevel }])
                    }
                } else {
                    (closed.0, window_row_effect(window_row_action(r), wm.toplevel) + closed.1)
                },
                None => closed,
            }
        },
        _ => no_change(st),
    }
}

/// An event on the open workspace submenu `sm` of window menu `wm`.
pub open spec fn submenu_event(st: PointerModel, e: InputModel, wm: WindowMenuModel, sm: SubmenuModel) -> Outcome {
    let ok = |r: int| sm.rows[r] matches SubmenuRow::Workspace { current: false, .. };
    match e.kind {
        PointerKind::Motion => {
            let h = hover_row(e.y as int, sm.rows.len() as int, ok);
            if sm.hovered != h {
                (
                    PointerModel {
                        window_menu: Some(WindowMenuModel { submenu: Some(SubmenuModel { hovered: h, ..sm }), ..wm }),
                        ..st
                    },
                    seq![ShellAction::RedrawWorkspaceSubmenu],
                )
            } else {
                no_change(st)
            }
        },
        PointerKind::Leave => if sm.hovered is Some {
            (
                PointerModel {
                    window_menu: Some(WindowMenuModel { submenu: Some(SubmenuModel { hovered: None, ..sm }), ..wm }),
                    ..st
                },
                seq![ShellAction::RedrawWorkspaceSubmenu],
            )
        } else {
            no_change(st)
        },
        PointerKind::Press { button: Button::Select, .. } => {
            let assign = match hover_row(e.y as int, sm.rows.len() as int, ok) {
                Some(r) => match sm.rows[r as int] {
                    SubmenuRow::Workspace { panel, index, .. } => seq![
                        ShellAction::AssignToplevel { toplevel: wm.toplevel, panel, index },
                    ],
                    _ => seq![],
                },
                None => seq![],
            };
            (PointerModel { window_menu: None, ..st }, assign.push(ShellAction::CloseWindowMenu))
        },
        _ => no_change(st),
    }
}

/// An event on the open icon menu `im`.
pub open spec fn icon_menu_event(st: PointerModel, e: InputModel, im: IconMenuModel) -> Outcome {
    match e.kind {
        PointerKind::Motion => {
            let h = hover_row(e.y as int, ICON_MENU_ROWS as int, |r: int| icon_row_enabled(r));
            if im.hovered != h {
                (
                    PointerModel { icon_menu: Some(IconMenuModel { hovered: h, ..im }), ..st },
                    seq![ShellAction::RedrawIconMenu],
                )
            } else {
                no_change(st)
            }
        },
        PointerKind::Leave => if im.hovered is Some {
            (
                PointerModel { icon_menu: Some(IconMenuModel { hovered: None, ..im }), ..st },
                seq![ShellAction::RedrawIconMenu],
            )
        } else {
            no_change(st)
        },
        PointerKind::Press { button: Button::Select, .. } => {
            let st0 = PointerModel { icon_menu: None, ..st };
            let done = seq![ShellAction::CloseIconMenu];
            match row_at(e.y as int, ICON_MENU_ROWS as int) {
                Some(r) => if r == 0 {
                    (
                        st0,
                        Seq::new(im.group.len(), |k: int| ShellAction::Restore { toplevel: im.group[k] }) + done,
                    )
                } else if r == 1 {
                    let icons = group_icons(im.group, e.tray_ids, e.tray_boxes);
                    let b = im.background as int;
                    if icons.len() > 0 && b < st.backgrounds.len() {
                        (
                            set_background(
                                st0,
                                b,
                                BackgroundModel {
                                    drag: Some(
                                        DragModel {
                                            primary: im.toplevel,
                                            press_time: 0,
                                            press_pos: None,
                                            icons,
                                            dragging: true,
                                            armed: true,
                                        },
                                    ),
                                    selected: im.group,
                                    ..st.backgrounds[b]
                                },
                            ),
                            seq![ShellAction::RedrawBackground { background: im.background }] + done,
                        )
                    } else {
                        (st0, done)
                    }
                } else {
                    (st0, done)
                },
                None => (st0, done),
            }
        },
        _ => no_change(st),
    }
}

/// The notice button under the pointer.
pub open spec fn notice_hit(n: NoticeModel, e: InputModel) -> Option<int> {
    first_where(n.buttons, |r: Rect| in_rect(r, e.x as int, e.y as int))
}

/// An event on the open notice `n`. Its first button confirms the exit.
pub open spec fn notice_event(st: PointerModel, e: InputModel, n: NoticeModel) -> Outcome {
    let hit = notice_hit(n, e);
    match e.kind {
        PointerKind::Motion => match n.pressed {
            Some(p) => if hit != Some(p as int) {
                (
                    PointerModel { notice: Some(NoticeModel { pressed: None, ..n }), ..st },
                    seq![ShellAction::RedrawNotice],
                )
            } else {
                no_change(st)
            },
            None => no_change(st),
        },
        PointerKind::Press { button: Button::Select, .. } => match hit {
            Some(k) => (
                PointerModel { notice: Some(NoticeModel { pressed: Some(k as usize), ..n }), ..st },
                seq![ShellAction::RedrawNotice],
            ),
            None => no_change(st),
        },
        PointerKind::Release { button: Button::Select } => match hit {
            Some(k) => if n.pressed == Some(k as usize) {
                (
                    PointerModel { notice: None, ..st },
                    if k == 0 {
                        seq![ShellAction::ExitSession, ShellAction::CloseNotice]
                    } else {
                        seq![ShellAction::CloseNotice]
                    },
                )
            } else {
                no_change(st)
            },
            None => no_change(st),
        },
        _ => no_change(st),
    }
}

/// Motion over root-menu popup `i`.
pub open spec fn popup_motion(st: PointerModel, e: InputModel, i: int) -> Outcome {
    let p = st.popups[i];
    let h = match popup_row_at(e.y as int, p.rows.len() as int) {
        Some(r) => Some(r as usize),
        None => None,
    };
    if p.hovered != h {
        (
            PointerModel { popups: st.popups.update(i, PopupModel { hovered: h, ..p }), ..st },
            seq![ShellAction::RedrawPopup { popup: i as usize }],
        )
    } else {
        no_change(st)
    }
}

pub open spec fn close_popup(st: PointerModel, i: int) -> Outcome {
    (PointerModel { popups: st.popups.remove(i), ..st }, seq![ShellAction::ClosePopup { popup: i as usize }])
}

/// MENU released, over popup `on` if it is one: the pushpin pins or
/// dismisses the popup, a row is chosen, and a transient popup closes;
/// off every popup, the transient one closes.
pub open spec fn menu_release(st: PointerModel, e: InputModel, on: Option<int>) -> Outcome {
    match on {
        Some(i) => {
            let p = st.popups[i];
            if in_rect(popup_pushpin_box(), e.x as int, e.y as int) {
                if p.pinned {
                    close_popup(st, i)
                } else {
                    (
                        PointerModel { popups: st.popups.update(i, PopupModel { pinned: true, ..p }), ..st },
                        seq![ShellAction::RedrawPopup { popup: i as usize }],
                    )
                }
            } else {
                match popup_row_at(e.y as int, p.rows.len() as int) {
                    Some(r) => {
                        let chosen = match p.rows[r] {
                            PopupRow::Command => seq![ShellAction::RunCommand { popup: i as usize, row: r as usize }],
                            PopupRow::Exit => seq![ShellAction::OpenNotice { popup: i as usize }],
                            PopupRow::Reload => seq![ShellAction::ReloadMenu],
                            PopupRow::Inert => seq![],
                        };
                        if p.pinned {
                            (st, chosen)
                        } else {
                            (close_popup(st, i).0, chosen + close_popup(st, i).1)
                        }
                    },
                    None => if p.pinned {
                        no_change(st)
                    } else {
                        close_popup(st, i)
                    },
                }
            }
        },
        None => match first_where(st.popups, |p: PopupModel| !p.pinned) {
            Some(j) => close_popup(st, j),
            None => no_change(st),
        },
    }
}

/// The event dispatched by surface, after the steps every press takes.
pub open spec fn dispatch(st: PointerModel, e: InputModel, prev_window_menu: Option<u64>, prev_icon_menu: Option<u64>) -> Outcome {
    if e.kind matches PointerKind::Release { button: Button::Menu } {
        match e.surface {
            Surface::Popup { index } => menu_release(
                st,
                e,
                if index < st.popups.len() {
                    Some(index as int)
                } else {
                    None
                },
            ),
            _ => menu_release(st, e, None),
        }
    } else {
        match e.surface {
            Surface::Background { index, width, height } => if index >= st.backgrounds.len() {
                no_change(st)
            } else {
                let i = index as int;
                match e.kind {
                    PointerKind::Press { button: Button::Menu, .. } => background_menu(st, e, i, prev_icon_menu),
                    PointerKind::Press { button: Button::Adjust, .. } => background_adjust(st, e, i),
                    PointerKind::Motion => background_motion(st, e, i, width as int, height as int),
                    PointerKind::Leave => background_leave(st, i),
                    PointerKind::Press { button: Button::Select, time } => background_select(st, e, i, time),
                    PointerKind::Release { button: Button::Select } => background_release(st, i),
                    _ => no_change(st),
                }
            },
            Surface::Panel { index, workspace_count } => if index >= st.panels.len() {
                no_change(st)
            } else {
                panel_event(st, e, index as int, workspace_count as int)
            },
            Surface::Header { toplevel, geometry, button_hovered, sticky } => header_event(
                st,
                e,
                toplevel,
                geometry,
                button_hovered,
                sticky,
                prev_window_menu,
            ),
            Surface::Handle { toplevel, region, hovered } => handle_event(st, e, toplevel, region, hovered),
            Surface::WindowMenu => match st.window_menu {
                Some(wm) => window_menu_event(st, e, wm),
                None => no_change(st),
            },
            Surface::WorkspaceSubmenu => match st.window_menu {
                Some(wm) => match wm.submenu {
                    Some(sm) => submenu_event(st, e, wm, sm),
                    None => no_change(st),
                },
                None => no_change(st),
            },
            Surface::IconMenu => match st.icon_menu {
                Some(im) => icon_menu_event(st, e, im),
                None => no_change(st),
            },
            Surface::Notice => match st.notice {
                Some(n) => notice_event(st, e, n),
                None => no_change(st),
            },
            Surface::Popup { index } => if index < st.popups.len() && e.kind == PointerKind::Motion {
                popup_motion(st, e, index as int)
            } else {
                no_change(st)
            },
            Surface::Other => no_change(st),
        }
    }
}

/// A press closes an open window menu unless it is on that menu or its
/// workspace submenu, and an open icon menu unless it is on it.
pub open spec fn press_closes(st: PointerModel, e: InputModel) -> Outcome {
    let close_wm = st.window_menu is Some && !(e.surface matches Surface::WindowMenu) && !(
    e.surface matches Surface::WorkspaceSubmenu);
    let close_im = st.icon_menu is Some && !(e.surface matches Surface::IconMenu);
    (
        PointerModel {
            window_menu: if close_wm {
                None
            } else {
                st.window_menu
            },
            icon_menu: if close_im {
                None
            } else {
                st.icon_menu
            },
            ..st
        },
        (if close_wm {
            seq![ShellAction::CloseWindowMenu]
        } else {
            seq![]
        }) + (if close_im {
            seq![ShellAction::CloseIconMenu]
        } else {
            seq![]
        }),
    )
}

/// The outcome of one pointer event: while a notice is open, events off
/// it do nothing; a press ends an armed icon move and does nothing else;
/// otherwise a press first closes menus it is not on, then the event
/// acts on the surface it is on.
pub open spec fn pointer_outcome(st: PointerModel, e: InputModel) -> Outcome {
    if st.notice is Some && !(e.surface matches Surface::Notice) {
        no_change(st)
    } else if e.kind is Press && armed_background(st) is Some {
        let i = armed_background(st)->0;
        (
            set_background(st, i, BackgroundModel { drag: None, ..st.backgrounds[i] }),
            seq![ShellAction::RedrawBackground { background: i as usize }],
        )
    } else {
        let prev_wm = match st.window_menu {
            Some(wm) => Some(wm.toplevel),
            None => None,
        };
        let prev_im = match st.icon_menu {
            Some(im) => Some(im.toplevel),
            None => None,
        };
        let pre = if e.kind is Press {
            press_closes(st, e)
        } else {
            no_change(st)
        };
        let post = dispatch(pre.0, e, prev_wm, prev_im);
        (post.0, pre.1 + post.1)
    }
}

pub open spec fn pointer_next(st: PointerModel, e: InputModel) -> PointerModel {
    pointer_outcome(st, e).0
}

pub open spec fn pointer_actions(st: PointerModel, e: InputModel) -> Seq<ShellAction> {
    pointer_outcome(st, e).1
}

// ---------------------------------------------------------------------
// Executable decisions
// ---------------------------------------------------------------------

proof fn lemma_update_view(old: Seq<BackgroundState>, new: Seq<BackgroundState>, i: int, b: BackgroundState)
    requires
        0 <= i < old.len(),
        new =~= old.update(i, b),
    ensures
        Seq::new(new.len(), |k: int| new[k]@) =~= Seq::new(old.len(), |k: int| old[k]@).update(i, b@),
{
}

/// Takes background `i` out of `st` (leaving the others in place).
fn take_background(st: &mut PointerState, i: usize) -> (b: BackgroundState)
    requires
        i < old(st).backgrounds.len(),
    ensures
        b@ == old(st)@.backgrounds[i as int],
        final(st).backgrounds@ == old(st).backgrounds@.remove(i as int),
        final(st).panels == old(st).panels,
        final(st).popups == old(st).popups,
        final(st).window_menu == old(st).window_menu,
        final(st).icon_menu == old(st).icon_menu,
        final(st).notice == old(st).notice,
{
    st.backgrounds.remove(i)
}

/// Puts background `b` back in at `i` after `take_background`.
fn put_background(st: PointerState, i: usize, b: BackgroundState, Ghost(orig): Ghost<PointerState>) -> (r: PointerState)
    requires
        i < orig.backgrounds.len(),
        st.backgrounds@ == orig.backgrounds@.remove(i as int),
        st.panels == orig.panels,
        st.popups == orig.popups,
        st.window_menu == orig.window_menu,
        st.icon_menu == orig.icon_menu,
        st.notice == orig.notice,
    ensures
        r@ == set_background(orig@, i as int, b@),
{
    let mut st = st;
    st.backgrounds.insert(i, b);
    proof {
        lemma_update_view(orig.backgrounds@, st.backgrounds@, i as int, b);
    }
    st
}
fn copy_ids(v: &Vec<u64>) -> (r: Vec<u64>)
    ensures
        r@ == v@,
{
    let mut r: Vec<u64> = Vec::new();
    let mut i: usize = 0;
    while i < v.len()
        invariant
            i <= v.len(),
            r@ == v@.take(i as int),
        decreases v.len() - i,
    {
        r.push(v[i]);
        proof {
            assert(v@.take(i + 1) =~= v@.take(i as int).push(v@[i as int]));
        }
        i = i + 1;
    }
    assert(v@.take(v.len() as int) =~= v@);
    r
}

fn bg_menu(st: PointerState, input: &PointerInput, i: usize, prev_im: Option<u64>) -> (r: (PointerState, Vec<ShellAction>))
    requires
        i < st.backgrounds.len(),
    ensures
        (r.0@, r.1@) == background_menu(st@, input@, i as int, prev_im),
{
    let ghost orig = st;
    match find_icon_window(input) {
        Some((_k, w)) => {
            if prev_im == Some(w) {
                return (st, Vec::new());
            }
            let member = st.backgrounds[i].selected.len() > 1 && find_u64(&st.backgrounds[i].selected, w).is_some();
            let mut acts: Vec<ShellAction> = Vec::new();
            let group: Vec<u64>;
            let mut st = if member {
                group = copy_ids(&st.backgrounds[i].selected);
                st
            } else {
                let mut st = st;
                let mut b = take_background(&mut st, i);
                b.selected = vec![w];
                group = vec![w];
                acts.push(ShellAction::RedrawBackground { background: i });
                put_background(st, i, b, Ghost(orig))
            };
            let ghost mid = st@;
            st.icon_menu = Some(IconMenuState { toplevel: w, background: i, group, hovered: None });
            acts.push(ShellAction::OpenIconMenu { background: i, toplevel: w });
            proof {
                let b = orig@.backgrounds[i as int];
                let expect = background_menu(orig@, input@, i as int, prev_im);
                if member {
                    assert(group@ == b.selected);
                    assert(mid == orig@);
                    assert(acts@ =~= seq![ShellAction::OpenIconMenu { background: i, toplevel: w }]);
                } else {
                    assert(group@ =~= seq![w]);
                    assert(mid == set_background(orig@, i as int, BackgroundModel { selected: seq![w], ..b }));
                    assert(acts@ =~= seq![ShellAction::RedrawBackground { background: i }, ShellAction::OpenIconMenu { background: i, toplevel: w }]);
                }
                assert(st@ == expect.0);
                assert(acts@ == expect.1);
            }
            (st, acts)
        },
        None => {
            let mut st = st;
            let mut kept: Vec<PopupState> = Vec::new();
            let ghost ps = orig@.popups;
            let mut old_popups: Vec<PopupState> = Vec::new();
            std::mem::swap(&mut old_popups, &mut st.popups);
            let mut k: usize = 0;
            while k < old_popups.len()
                invariant
                    k <= old_popups.len(),
                    ps == Seq::new(old_popups@.len(), |j: int| old_popups@[j]@),
                    Seq::new(kept@.len(), |j: int| kept@[j]@) == ps.take(k as int).filter(|p: PopupModel| p.pinned),
                decreases old_popups.len() - k,
            {
                proof {
                    reveal(Seq::filter);
                    assert(ps.take(k + 1).drop_last() =~= ps.take(k as int));
                    assert(ps.take(k + 1).last() == old_popups@[k as int]@);
                }
                if old_popups[k].pinned {
                    let p = copy_popup(&old_popups[k]);
                    kept.push(p);
                    proof {
                        reveal(Seq::filter);
                        assert(Seq::new(kept@.len(), |j: int| kept@[j]@) =~= Seq::new((kept@.len() - 1) as nat, |j: int| kept@[j]@).push(p@));
                    }
                } else {
                    proof {
                        reveal(Seq::filter);
                        assert(Seq::new(kept@.len(), |j: int| kept@[j]@) == ps.take(k + 1).filter(|p: PopupModel| p.pinned));
                    }
                }
                k = k + 1;
            }
            proof {
                assert(ps.take(old_popups.len() as int) =~= ps);
            }
            st.popups = kept;
            let mut acts: Vec<ShellAction> = Vec::new();
            acts.push(ShellAction::OpenRootMenu { background: i, x: input.x, y: input.y });
            proof {
                assert(st@.popups =~= orig@.popups.filter(|p: PopupModel| p.pinned));
            }
            (st, acts)
        },
    }
}

fn copy_rows(v: &Vec<PopupRow>) -> (r: Vec<PopupRow>)
    ensures
        r@ == v@,
{
    let mut r: Vec<PopupRow> = Vec::new();
    let mut i: usize = 0;
    while i < v.len()
        invariant
            i <= v.len(),
            r@ == v@.take(i as int),
        decreases v.len() - i,
    {
        r.push(v[i]);
        proof {
            assert(v@.take(i + 1) =~= v@.take(i as int).push(v@[i as int]));
        }
        i = i + 1;
    }
    assert(v@.take(v.len() as int) =~= v@);
    r
}

fn copy_popup(p: &PopupState) -> (r: PopupState)
    ensures
        r@ == p@,
{
    PopupState { pinned: p.pinned, hovered: p.hovered, rows: copy_rows(&p.rows) }
}
fn bg_adjust(st: PointerState, input: &PointerInput, i: usize) -> (r: (PointerState, Vec<ShellAction>))
    requires
        i < st.backgrounds.len(),
    ensures
        (r.0@, r.1@) == background_adjust(st@, input@, i as int),
{
    let ghost orig = st;
    match find_icon_window(input) {
        Some((_k, w)) => {
            let mut st = st;
            let mut b = take_background(&mut st, i);
            let ghost before = b.selected@;
            match find_u64(&b.selected, w) {
                Some(pos) => {
                    b.selected.remove(pos);
                },
                None => {
                    b.selected.push(w);
                },
            }
            assert(b.selected@ == toggled(before, w));
            let st = put_background(st, i, b, Ghost(orig));
            let mut acts: Vec<ShellAction> = Vec::new();
            acts.push(ShellAction::RedrawBackground { background: i });
            proof {
                assert(acts@ =~= seq![ShellAction::RedrawBackground { background: i }]);
            }
            (st, acts)
        },
        None => (st, Vec::new()),
    }
}

fn bg_leave(st: PointerState, i: usize) -> (r: (PointerState, Vec<ShellAction>))
    requires
        i < st.backgrounds.len(),
    ensures
        (r.0@, r.1@) == background_leave(st@, i as int),
{
    let ghost orig = st;
    if st.backgrounds[i].hovered.is_some() {
        let mut st = st;
        let mut b = take_background(&mut st, i);
        b.hovered = None;
        let st = put_background(st, i, b, Ghost(orig));
        let mut acts: Vec<ShellAction> = Vec::new();
        acts.push(ShellAction::RedrawBackground { background: i });
        proof {
            assert(acts@ =~= seq![ShellAction::RedrawBackground { background: i }]);
        }
        (st, acts)
    } else {
        (st, Vec::new())
    }
}

fn bg_clear(st: PointerState, i: usize) -> (r: (PointerState, Vec<ShellAction>))
    requires
        i < st.backgrounds.len(),
    ensures
        (r.0@, r.1@) == background_clear(st@, i as int),
{
    let ghost orig = st;
    if st.backgrounds[i].selected.len() > 0 {
        let mut st = st;
        let mut b = take_background(&mut st, i);
        b.selected = Vec::new();
        let st = put_background(st, i, b, Ghost(orig));
        let mut acts: Vec<ShellAction> = Vec::new();
        acts.push(ShellAction::RedrawBackground { background: i });
        proof {
            assert(b.selected@ =~= Seq::<u64>::empty());
            assert(acts@ =~= seq![ShellAction::RedrawBackground { background: i }]);
        }
        (st, acts)
    } else {
        (st, Vec::new())
    }
}

fn bg_select(st: PointerState, input: &PointerInput, i: usize, time: u32) -> (r: (PointerState, Vec<ShellAction>))
    requires
        i < st.backgrounds.len(),
    ensures
        (r.0@, r.1@) == background_select(st@, input@, i as int, time),
{
    let ghost orig = st;
    match find_icon(input) {
        Some(k) => if k < input.tray_ids.len() {
            let w = input.tray_ids[k];
            let mut st = st;
            let mut b = take_background(&mut st, i);
            let icons = if b.selected.len() > 1 && find_u64(&b.selected, w).is_some() {
                collect_group(&b.selected, input)
            } else {
                let bx = input.tray_boxes[k];
                vec![(w, bx.0, bx.1)]
            };
            b.drag = Some(
                IconDrag {
                    primary: w,
                    press_time: time,
                    press_pos: Some((input.x, input.y)),
                    icons,
                    dragging: false,
                    armed: false,
                },
            );
            let st = put_background(st, i, b, Ghost(orig));
            proof {
                let ob = orig@.backgrounds[i as int];
                let expect = background_select(orig@, input@, i as int, time);
                assert(icon_hit(input@) == Some(k as int));
                assert(b.selected@ == ob.selected);
                assert(b@ == BackgroundModel {
                    drag: Some(DragModel {
                        primary: w,
                        press_time: time,
                        press_pos: Some((input.x, input.y)),
                        icons: b.drag->0.icons@,
                        dragging: false,
                        armed: false,
                    }),
                    ..ob
                });
                if ob.selected.len() > 1 && ob.selected.contains(w) {
                    assert(b.drag->0.icons@ == group_icons(ob.selected, input.tray_ids@, input.tray_boxes@));
                } else {
                    assert(b.drag->0.icons@ =~= seq![(w, input.tray_boxes@[k as int].0, input.tray_boxes@[k as int].1)]);
                }
                assert(st@ == expect.0);
            }
            (st, Vec::new())
        } else {
            bg_clear(st, i)
        },
        None => bg_clear(st, i),
    }
}

fn elapsed_ms(later: u32, earlier: u32) -> (r: u64)
    ensures
        r == elapsed(later, earlier),
{
    if later >= earlier {
        (later - earlier) as u64
    } else {
        later as u64 + 0x1_0000_0000u64 - earlier as u64
    }
}

fn bg_release(st: PointerState, i: usize) -> (r: (PointerState, Vec<ShellAction>))
    requires
        i < st.backgrounds.len(),
    ensures
        (r.0@, r.1@) == background_release(st@, i as int),
{
    let ghost orig = st;
    if st.backgrounds[i].drag.is_none() {
        return (st, Vec::new());
    }
    let mut st = st;
    let mut b = take_background(&mut st, i);
    let d = b.drag.take().unwrap();
    let mut acts: Vec<ShellAction> = Vec::new();
    if d.dragging {
        let st = put_background(st, i, b, Ghost(orig));
        return (st, acts);
    }
    let double = match b.last_click {
        Some((w, t)) => w == d.primary && elapsed_ms(d.press_time, t) <= ICON_DOUBLE_CLICK_MS as u64,
        None => false,
    };
    if double {
        b.selected = Vec::new();
        b.last_click = None;
    } else {
        b.selected = vec![d.primary];
        b.last_click = Some((d.primary, d.press_time));
    }
    let st = put_background(st, i, b, Ghost(orig));
    acts.push(ShellAction::RedrawBackground { background: i });
    if double {
        acts.push(ShellAction::Restore { toplevel: d.primary });
    }
    proof {
        assert(b.selected@ =~= (if double { Seq::<u64>::empty() } else { seq![d.primary] }));
        if double {
            assert(acts@ =~= seq![ShellAction::RedrawBackground { background: i }, ShellAction::Restore { toplevel: d.primary }]);
        } else {
            assert(acts@ =~= seq![ShellAction::RedrawBackground { background: i }]);
        }
    }
    (st, acts)
}

fn clamp_i64(v: i64, hi: i64) -> (r: i64)
    ensures
        r == clamp(v as int, hi as int),
{
    if v < 0 {
        0
    } else if v > hi {
        hi
    } else {
        v
    }
}

fn bg_motion(st: PointerState, input: &PointerInput, i: usize, width: i32, height: i32) -> (r: (PointerState, Vec<ShellAction>))
    requires
        i < st.backgrounds.len(),
    ensures
        (r.0@, r.1@) == background_motion(st@, input@, i as int, width as int, height as int),
{
    let ghost orig = st;
    if st.backgrounds[i].drag.is_none() {
        let hovered = find_icon(input);
        if st.backgrounds[i].hovered != hovered {
            let mut st = st;
            let mut b = take_background(&mut st, i);
            b.hovered = hovered;
            let st = put_background(st, i, b, Ghost(orig));
            let mut acts: Vec<ShellAction> = Vec::new();
            acts.push(ShellAction::RedrawBackground { background: i });
            proof {
                assert(acts@ =~= seq![ShellAction::RedrawBackground { background: i }]);
            }
            return (st, acts);
        } else {
            return (st, Vec::new());
        }
    }
    let mut st = st;
    let mut b = take_background(&mut st, i);
    let mut d = b.drag.take().unwrap();
    let ghost od = d@;
    let origin = match d.press_pos {
        Some(p) => p,
        None => (input.x, input.y),
    };
    d.press_pos = Some(origin);
    let dx: i64 = input.x as i64 - origin.0 as i64;
    let dy: i64 = input.y as i64 - origin.1 as i64;
    let far = if dx >= ICON_DRAG_THRESHOLD || dx <= -ICON_DRAG_THRESHOLD || dy >= ICON_DRAG_THRESHOLD || dy <= -ICON_DRAG_THRESHOLD {
        assert(dx * dx + dy * dy >= ICON_DRAG_THRESHOLD * ICON_DRAG_THRESHOLD) by (nonlinear_arith)
            requires
                dx >= 4 || dx <= -4 || dy >= 4 || dy <= -4,
        {
        }
        true
    } else {
        assert(0 <= dx * dx <= 16 && 0 <= dy * dy <= 16) by (nonlinear_arith)
            requires
                -4 < dx < 4,
                -4 < dy < 4,
        {
        }
        dx * dx + dy * dy >= ICON_DRAG_THRESHOLD * ICON_DRAG_THRESHOLD
    };
    let mut acts: Vec<ShellAction> = Vec::new();
    if d.dragging || far {
        let max_x: i64 = if width as i64 - ICON_SIZE as i64 > 0 { width as i64 - ICON_SIZE as i64 } else { 0 };
        let max_y: i64 = if height as i64 - ICON_SIZE as i64 - ICON_LABEL_HEIGHT as i64 > 0 {
            height as i64 - ICON_SIZE as i64 - ICON_LABEL_HEIGHT as i64
        } else {
            0
        };
        let mut sel: Vec<u64> = Vec::new();
        let mut k: usize = 0;
        while k < d.icons.len()
            invariant
                k <= d.icons.len(),
                d.icons@ == od.icons,
                -0x1_0000_0000 <= dx <= 0x1_0000_0000,
                -0x1_0000_0000 <= dy <= 0x1_0000_0000,
                0 <= max_x <= i32::MAX,
                0 <= max_y <= i32::MAX,
                max_x == max0(width - ICON_SIZE),
                max_y == max0(height - ICON_SIZE - ICON_LABEL_HEIGHT),
                acts@ == icon_moves(od.icons, dx as int, dy as int, max_x as int, max_y as int).take(k as int),
                sel@ == Seq::new(od.icons.len(), |q: int| od.icons[q].0).take(k as int),
            decreases d.icons.len() - k,
        {
            let (w, ox, oy) = d.icons[k];
            let nx = clamp_i64(ox as i64 + dx, max_x);
            let ny = clamp_i64(oy as i64 + dy, max_y);
            acts.push(ShellAction::SetIconPosition { toplevel: w, x: nx as i32, y: ny as i32 });
            sel.push(w);
            proof {
                assert(acts@ =~= icon_moves(od.icons, dx as int, dy as int, max_x as int, max_y as int).take(k + 1));
                assert(sel@ =~= Seq::new(od.icons.len(), |q: int| od.icons[q].0).take(k + 1));
            }
            k = k + 1;
        }
        proof {
            assert(icon_moves(od.icons, dx as int, dy as int, max_x as int, max_y as int).take(d.icons.len() as int)
                =~= icon_moves(od.icons, dx as int, dy as int, max_x as int, max_y as int));
            assert(Seq::new(od.icons.len(), |q: int| od.icons[q].0).take(d.icons.len() as int)
                =~= Seq::new(od.icons.len(), |q: int| od.icons[q].0));
        }
        d.dragging = true;
        b.drag = Some(d);
        b.selected = sel;
        let st = put_background(st, i, b, Ghost(orig));
        acts.push(ShellAction::RedrawBackground { background: i });
        (st, acts)
    } else {
        b.drag = Some(d);
        let st = put_background(st, i, b, Ghost(orig));
        (st, acts)
    }
}
fn one(a: ShellAction) -> (r: Vec<ShellAction>)
    ensures
        r@ == seq![a],
{
    let mut r: Vec<ShellAction> = Vec::new();
    r.push(a);
    assert(r@ =~= seq![a]);
    r
}

fn panel_step(st: PointerState, input: &PointerInput, i: usize, count: u32) -> (r: (PointerState, Vec<ShellAction>))
    requires
        i < st.panels.len(),
    ensures
        (r.0@, r.1@) == panel_event(st@, input@, i as int, count as int),
{
    let hit = find_workspace(input.x, count);
    match input.kind {
        PointerKind::Motion => if st.panels[i] != hit {
            let mut st = st;
            st.panels.set(i, hit);
            (st, one(ShellAction::RedrawPanel { panel: i }))
        } else {
            (st, Vec::new())
        },
        PointerKind::Leave => if st.panels[i].is_some() {
            let mut st = st;
            st.panels.set(i, None);
            (st, one(ShellAction::RedrawPanel { panel: i }))
        } else {
            (st, Vec::new())
        },
        PointerKind::Press { button: Button::Select, .. } => match hit {
            Some(w) => (st, one(ShellAction::SwitchWorkspace { panel: i, index: w })),
            None => (st, Vec::new()),
        },
        PointerKind::Press { button: Button::Adjust, .. } => match hit {
            Some(w) => (st, one(ShellAction::AssignFocused { panel: i, index: w })),
            None => (st, Vec::new()),
        },
        _ => (st, Vec::new()),
    }
}

fn header_step(
    st: PointerState,
    input: &PointerInput,
    toplevel: u64,
    g: DecorationGeometry,
    hovered: bool,
    sticky: bool,
    prev_wm: Option<u64>,
) -> (r: (PointerState, Vec<ShellAction>))
    ensures
        (r.0@, r.1@) == header_event(st@, input@, toplevel, g, hovered, sticky, prev_wm),
{
    let on = g.height <= 0x7fff_ffff && g.is_on_button(input.x, input.y);
    match input.kind {
        PointerKind::Motion => if on != hovered {
            (st, one(ShellAction::SetButtonHover { toplevel, hovered: on }))
        } else {
            (st, Vec::new())
        },
        PointerKind::Leave => if hovered {
            (st, one(ShellAction::SetButtonHover { toplevel, hovered: false }))
        } else {
            (st, Vec::new())
        },
        PointerKind::Press { button: Button::Select, .. } => if on {
            if prev_wm == Some(toplevel) {
                (st, Vec::new())
            } else {
                let mut st = st;
                st.window_menu = Some(WindowMenuState { toplevel, sticky, hovered: None, submenu: None });
                (st, one(ShellAction::OpenWindowMenu { toplevel }))
            }
        } else {
            (st, one(ShellAction::MoveWindow { toplevel, held: true }))
        },
        _ => (st, Vec::new()),
    }
}

fn handle_step(st: PointerState, input: &PointerInput, toplevel: u64, region: ResizeRegion, hovered: bool) -> (r: (PointerState, Vec<ShellAction>))
    ensures
        (r.0@, r.1@) == handle_event(st@, input@, toplevel, region, hovered),
{
    match input.kind {
        PointerKind::Motion => if !hovered {
            (st, one(ShellAction::SetHandleHover { toplevel, region, hovered: true }))
        } else {
            (st, Vec::new())
        },
        PointerKind::Leave => if hovered {
            (st, one(ShellAction::SetHandleHover { toplevel, region, hovered: false }))
        } else {
            (st, Vec::new())
        },
        PointerKind::Press { button: Button::Select, .. } => {
            let edges = region.edges();
            (st, one(ShellAction::ResizeWindow { toplevel, edges, held: true }))
        },
        _ => (st, Vec::new()),
    }
}

fn row_effect(action: WindowMenuAction, toplevel: u64) -> (r: Vec<ShellAction>)
    ensures
        r@ == window_row_effect(action, toplevel),
{
    match action {
        WindowMenuAction::Minimize => one(ShellAction::Minimize { toplevel }),
        WindowMenuAction::ToggleMaximize => one(ShellAction::ToggleMaximize { toplevel }),
        WindowMenuAction::Move => one(ShellAction::MoveWindow { toplevel, held: false }),
        WindowMenuAction::Resize => one(ShellAction::ResizeWindow { toplevel, edges: EDGE_BOTTOM | EDGE_RIGHT, held: false }),
        WindowMenuAction::Lower => one(ShellAction::Lower { toplevel }),
        WindowMenuAction::Quit => one(ShellAction::Quit { toplevel }),
        WindowMenuAction::ToggleSticky => one(ShellAction::ToggleSticky { toplevel }),
        _ => Vec::new(),
    }
}

fn window_menu_step(st: PointerState, input: &PointerInput) -> (r: (PointerState, Vec<ShellAction>))
    requires
        st.window_menu is Some,
    ensures
        (r.0@, r.1@) == window_menu_event(st@, input@, st@.window_menu->0),
{
    let ghost orig = st@;
    let ghost wmv = st@.window_menu->0;
    let sticky = st.window_menu.as_ref().unwrap().sticky;
    let toplevel = st.window_menu.as_ref().unwrap().toplevel;
    match input.kind {
        PointerKind::Motion => {
            let row = menu_row_at(input.y, WINDOW_MENU_ROWS);
            let h = match row {
                Some(r) => if r != 4 && !(r == 7 && sticky) { Some(r) } else { None },
                None => None,
            };
            assert(h == hover_row(input.y as int, WINDOW_MENU_ROWS as int, |r: int| window_row_enabled(r, wmv.sticky)));
            if st.window_menu.as_ref().unwrap().hovered != h {
                let mut st = st;
                let mut wm = st.window_menu.take().unwrap();
                wm.hovered = h;
                st.window_menu = Some(wm);
                (st, one(ShellAction::RedrawWindowMenu))
            } else {
                (st, Vec::new())
            }
        },
        PointerKind::Leave => if st.window_menu.as_ref().unwrap().hovered.is_some() {
            let mut st = st;
            let mut wm = st.window_menu.take().unwrap();
            wm.hovered = None;
            st.window_menu = Some(wm);
            (st, one(ShellAction::RedrawWindowMenu))
        } else {
            (st, Vec::new())
        },
        PointerKind::Press { button: Button::Select, .. } => {
            let row = menu_row_at(input.y, WINDOW_MENU_ROWS);
            match row {
                Some(r) => {
                    if r == 4 || (r == 7 && sticky) {
                        let mut st = st;
                        st.window_menu = None;
                        return (st, one(ShellAction::CloseWindowMenu));
                    }
                    let action = window_menu_action(r);
                    if action == WindowMenuAction::MoveToWorkspace {
                        if st.window_menu.as_ref().unwrap().submenu.is_some() {
                            let mut st = st;
                            let mut wm = st.window_menu.take().unwrap();
                            wm.submenu = None;
                            st.window_menu = Some(wm);
                            (st, one(ShellAction::CloseWorkspaceSubmenu))
                        } else {
                            (st, one(ShellAction::OpenWorkspaceSubmenu { toplevel }))
                        }
                    } else {
                        let mut acts = row_effect(action, toplevel);
                        acts.push(ShellAction::CloseWindowMenu);
                        let mut st = st;
                        st.window_menu = None;
                        proof {
                            assert(acts@ =~= window_row_effect(window_row_action(r as int), toplevel) + seq![ShellAction::CloseWindowMenu]);
                        }
                        (st, acts)
                    }
                },
                None => {
                    let mut st = st;
                    st.window_menu = None;
                    (st, one(ShellAction::CloseWindowMenu))
                },
            }
        },
        _ => (st, Vec::new()),
    }
}

fn submenu_step(st: PointerState, input: &PointerInput) -> (r: (PointerState, Vec<ShellAction>))
    requires
        st.window_menu matches Some(wm) && wm.submenu is Some,
    ensures
        (r.0@, r.1@) == submenu_event(st@, input@, st@.window_menu->0, st@.window_menu->0.submenu->0),
{
    let ghost wmv = st@.window_menu->0;
    let ghost smv = wmv.submenu->0;
    let ghost ok = |r: int| smv.rows[r] matches SubmenuRow::Workspace { current: false, .. };
    let toplevel = st.window_menu.as_ref().unwrap().toplevel;
    let h = {
        let sm = st.window_menu.as_ref().unwrap().submenu.as_ref().unwrap();
        match menu_row_at(input.y, sm.rows.len()) {
            Some(r) => if is_selectable(&sm.rows, r) { Some(r) } else { None },
            None => None,
        }
    };
    assert(h == hover_row(input.y as int, smv.rows.len() as int, ok));
    match input.kind {
        PointerKind::Motion => {
            if st.window_menu.as_ref().unwrap().submenu.as_ref().unwrap().hovered != h {
                let mut st = st;
                let mut wm = st.window_menu.take().unwrap();
                let mut sm = wm.submenu.take().unwrap();
                sm.hovered = h;
                wm.submenu = Some(sm);
                st.window_menu = Some(wm);
                (st, one(ShellAction::RedrawWorkspaceSubmenu))
            } else {
                (st, Vec::new())
            }
        },
        PointerKind::Leave => if st.window_menu.as_ref().unwrap().submenu.as_ref().unwrap().hovered.is_some() {
            let mut st = st;
            let mut wm = st.window_menu.take().unwrap();
            let mut sm = wm.submenu.take().unwrap();
            sm.hovered = None;
            wm.submenu = Some(sm);
            st.window_menu = Some(wm);
            (st, one(ShellAction::RedrawWorkspaceSubmenu))
        } else {
            (st, Vec::new())
        },
        PointerKind::Press { button: Button::Select, .. } => {
            let mut acts: Vec<ShellAction> = Vec::new();
            match h {
                Some(r) => {
                    let row = st.window_menu.as_ref().unwrap().submenu.as_ref().unwrap().rows[r];
                    match row {
                        SubmenuRow::Workspace { panel, index, .. } => {
                            acts.push(ShellAction::AssignToplevel { toplevel, panel, index });
                        },
                        _ => {},
                    }
                },
                None => {},
            }
            let ghost assign = acts@;
            acts.push(ShellAction::CloseWindowMenu);
            let mut st = st;
            st.window_menu = None;
            proof {
                assert(acts@ == assign.push(ShellAction::CloseWindowMenu));
                let expect = match hover_row(input.y as int, smv.rows.len() as int, ok) {
                    Some(r) => match smv.rows[r as int] {
                        SubmenuRow::Workspace { panel, index, .. } => seq![
                            ShellAction::AssignToplevel { toplevel: wmv.toplevel, panel, index },
                        ],
                        _ => seq![],
                    },
                    None => seq![],
                };
                assert(assign =~= expect);
            }
            (st, acts)
        },
        _ => (st, Vec::new()),
    }
}
fn icon_menu_step(st: PointerState, input: &PointerInput) -> (r: (PointerState, Vec<ShellAction>))
    requires
        st.icon_menu is Some,
    ensures
        (r.0@, r.1@) == icon_menu_event(st@, input@, st@.icon_menu->0),
{
    let ghost orig = st;
    let ghost imv = st@.icon_menu->0;
    match input.kind {
        PointerKind::Motion => {
            let h = match menu_row_at(input.y, ICON_MENU_ROWS) {
                Some(r) => if r != 2 { Some(r) } else { None },
                None => None,
            };
            assert(h == hover_row(input.y as int, ICON_MENU_ROWS as int, |r: int| icon_row_enabled(r)));
            if st.icon_menu.as_ref().unwrap().hovered != h {
                let mut st = st;
                let mut im = st.icon_menu.take().unwrap();
                im.hovered = h;
                st.icon_menu = Some(im);
                (st, one(ShellAction::RedrawIconMenu))
            } else {
                (st, Vec::new())
            }
        },
        PointerKind::Leave => if st.icon_menu.as_ref().unwrap().hovered.is_some() {
            let mut st = st;
            let mut im = st.icon_menu.take().unwrap();
            im.hovered = None;
            st.icon_menu = Some(im);
            (st, one(ShellAction::RedrawIconMenu))
        } else {
            (st, Vec::new())
        },
        PointerKind::Press { button: Button::Select, .. } => {
            let mut st = st;
            let im = st.icon_menu.take().unwrap();
            let ghost st0 = st;
            assert(st0@ == PointerModel { icon_menu: None, ..orig@ });
            let mut acts: Vec<ShellAction> = Vec::new();
            match menu_row_at(input.y, ICON_MENU_ROWS) {
                Some(r) => if r == 0 {
                    let mut k: usize = 0;
                    while k < im.group.len()
                        invariant
                            k <= im.group.len(),
                            im.group@ == imv.group,
                            acts@ == Seq::new(imv.group.len(), |q: int| ShellAction::Restore { toplevel: imv.group[q] }).take(k as int),
                        decreases im.group.len() - k,
                    {
                        acts.push(ShellAction::Restore { toplevel: im.group[k] });
                        proof {
                            assert(acts@ =~= Seq::new(imv.group.len(), |q: int| ShellAction::Restore { toplevel: imv.group[q] }).take(k + 1));
                        }
                        k = k + 1;
                    }
                    proof {
                        assert(Seq::new(imv.group.len(), |q: int| ShellAction::Restore { toplevel: imv.group[q] }).take(im.group.len() as int)
                            =~= Seq::new(imv.group.len(), |q: int| ShellAction::Restore { toplevel: imv.group[q] }));
                    }
                } else if r == 1 {
                    let icons = collect_group(&im.group, input);
                    let b = im.background;
                    if icons.len() > 0 && b < st.backgrounds.len() {
                        let mut bg = take_background(&mut st, b);
                        bg.drag = Some(
                            IconDrag {
                                primary: im.toplevel,
                                press_time: 0,
                                press_pos: None,
                                icons,
                                dragging: true,
                                armed: true,
                            },
                        );
                        bg.selected = im.group;
                        st = put_background(st, b, bg, Ghost(st0));
                        acts.push(ShellAction::RedrawBackground { background: b });
                    }
                },
                None => {},
            }
            let ghost before = acts@;
            acts.push(ShellAction::CloseIconMenu);
            proof {
                assert(acts@ =~= before + seq![ShellAction::CloseIconMenu]);
            }
            (st, acts)
        },
        _ => (st, Vec::new()),
    }
}

fn notice_step(st: PointerState, input: &PointerInput) -> (r: (PointerState, Vec<ShellAction>))
    requires
        st.notice is Some,
    ensures
        (r.0@, r.1@) == notice_event(st@, input@, st@.notice->0),
{
    let ghost nv = st@.notice->0;
    let ghost p = |r: Rect| in_rect(r, input.x as int, input.y as int);
    let hit = {
        let n = st.notice.as_ref().unwrap();
        let h = crate::layout::rect_index_at(&n.buttons, input.x, input.y);
        proof {
            match h {
                Some(k) => lemma_first_where(n.buttons@, p, k as int),
                None => lemma_first_where(n.buttons@, p, n.buttons@.len() as int),
            }
        }
        h
    };
    assert(opt_usize(hit) == notice_hit(nv, input@));
    let pressed = st.notice.as_ref().unwrap().pressed;
    match input.kind {
        PointerKind::Motion => match pressed {
            Some(pk) => if hit != Some(pk) {
                let mut st = st;
                let mut n = st.notice.take().unwrap();
                n.pressed = None;
                st.notice = Some(n);
                (st, one(ShellAction::RedrawNotice))
            } else {
                (st, Vec::new())
            },
            None => (st, Vec::new()),
        },
        PointerKind::Press { button: Button::Select, .. } => match hit {
            Some(k) => {
                let mut st = st;
                let mut n = st.notice.take().unwrap();
                n.pressed = Some(k);
                st.notice = Some(n);
                (st, one(ShellAction::RedrawNotice))
            },
            None => (st, Vec::new()),
        },
        PointerKind::Release { button: Button::Select } => match hit {
            Some(k) => if pressed == Some(k) {
                let mut st = st;
                st.notice = None;
                let mut acts: Vec<ShellAction> = Vec::new();
                if k == 0 {
                    acts.push(ShellAction::ExitSession);
                }
                acts.push(ShellAction::CloseNotice);
                proof {
                    if k == 0 {
                        assert(acts@ =~= seq![ShellAction::ExitSession, ShellAction::CloseNotice]);
                    } else {
                        assert(acts@ =~= seq![ShellAction::CloseNotice]);
                    }
                }
                (st, acts)
            } else {
                (st, Vec::new())
            },
            None => (st, Vec::new()),
        },
        _ => (st, Vec::new()),
    }
}
fn remove_popup(st: PointerState, i: usize) -> (r: (PointerState, Vec<ShellAction>))
    requires
        i < st.popups.len(),
    ensures
        (r.0@, r.1@) == close_popup(st@, i as int),
{
    let ghost orig = st;
    let mut st = st;
    let _gone = st.popups.remove(i);
    proof {
        assert(Seq::new(st.popups@.len(), |k: int| st.popups@[k]@) =~= orig@.popups.remove(i as int));
    }
    (st, one(ShellAction::ClosePopup { popup: i }))
}

/// `st` with popup `i` pinned or not and hovering `hovered`.
fn change_popup(st: PointerState, i: usize, pinned: bool, hovered: Option<usize>) -> (r: PointerState)
    requires
        i < st.popups.len(),
    ensures
        r@ == (PointerModel {
            popups: st@.popups.update(i as int, PopupModel { pinned, hovered, ..st@.popups[i as int] }),
            ..st@
        }),
{
    let ghost orig = st;
    let mut st = st;
    let mut p = st.popups.remove(i);
    p.pinned = pinned;
    p.hovered = hovered;
    st.popups.insert(i, p);
    proof {
        assert(st.popups@ =~= orig.popups@.update(i as int, p));
        assert(Seq::new(st.popups@.len(), |k: int| st.popups@[k]@) =~= orig@.popups.update(
            i as int,
            PopupModel { pinned, hovered, ..orig@.popups[i as int] },
        ));
    }
    st
}

fn popup_motion_step(st: PointerState, input: &PointerInput, i: usize) -> (r: (PointerState, Vec<ShellAction>))
    requires
        i < st.popups.len(),
    ensures
        (r.0@, r.1@) == popup_motion(st@, input@, i as int),
{
    let h = popup_item_at(input.y, st.popups[i].rows.len());
    if st.popups[i].hovered != h {
        let pinned = st.popups[i].pinned;
        let st = change_popup(st, i, pinned, h);
        (st, one(ShellAction::RedrawPopup { popup: i }))
    } else {
        (st, Vec::new())
    }
}

fn menu_release_step(st: PointerState, input: &PointerInput, on: Option<usize>) -> (r: (PointerState, Vec<ShellAction>))
    requires
        on matches Some(i) ==> i < st.popups.len(),
    ensures
        (r.0@, r.1@) == menu_release(st@, input@, opt_usize(on)),
{
    let ghost orig = st@;
    match on {
        Some(i) => {
            let pinned = st.popups[i].pinned;
            if is_on_popup_pushpin(input.x, input.y) {
                if pinned {
                    remove_popup(st, i)
                } else {
                    let hovered = st.popups[i].hovered;
                    let st = change_popup(st, i, true, hovered);
                    (st, one(ShellAction::RedrawPopup { popup: i }))
                }
            } else {
                match popup_item_at(input.y, st.popups[i].rows.len()) {
                    Some(row) => {
                        let mut acts: Vec<ShellAction> = Vec::new();
                        match st.popups[i].rows[row] {
                            PopupRow::Command => acts.push(ShellAction::RunCommand { popup: i, row }),
                            PopupRow::Exit => acts.push(ShellAction::OpenNotice { popup: i }),
                            PopupRow::Reload => acts.push(ShellAction::ReloadMenu),
                            PopupRow::Inert => {},
                        }
                        let ghost chosen = acts@;
                        if pinned {
                            proof {
                                assert(chosen =~= match orig.popups[i as int].rows[row as int] {
                                    PopupRow::Command => seq![ShellAction::RunCommand { popup: i, row }],
                                    PopupRow::Exit => seq![ShellAction::OpenNotice { popup: i }],
                                    PopupRow::Reload => seq![ShellAction::ReloadMenu],
                                    PopupRow::Inert => seq![],
                                });
                            }
                            (st, acts)
                        } else {
                            let (st, close) = remove_popup(st, i);
                            acts.push(ShellAction::ClosePopup { popup: i });
                            proof {
                                assert(chosen =~= match orig.popups[i as int].rows[row as int] {
                                    PopupRow::Command => seq![ShellAction::RunCommand { popup: i, row }],
                                    PopupRow::Exit => seq![ShellAction::OpenNotice { popup: i }],
                                    PopupRow::Reload => seq![ShellAction::ReloadMenu],
                                    PopupRow::Inert => seq![],
                                });
                                assert(acts@ =~= chosen + close@);
                            }
                            (st, acts)
                        }
                    },
                    None => if pinned {
                        (st, Vec::new())
                    } else {
                        remove_popup(st, i)
                    },
                }
            }
        },
        None => {
            let ghost p = |q: PopupModel| !q.pinned;
            let mut k: usize = 0;
            while k < st.popups.len()
                invariant
                    k <= st.popups.len(),
                    orig == st@,
                    on is None,
                    p == (|q: PopupModel| !q.pinned),
                    forall|j: int| 0 <= j < k ==> !p(#[trigger] orig.popups[j]),
                decreases st.popups.len() - k,
            {
                if !st.popups[k].pinned {
                    proof {
                        assert(orig.popups[k as int] == st.popups@[k as int]@);
                        lemma_first_where(orig.popups, p, k as int);
                        assert(menu_release(orig, input@, None) == close_popup(orig, k as int));
                        assert(opt_usize(on) == None::<int>);
                    }
                    let r = remove_popup(st, k);
                    return r;
                }
                k = k + 1;
            }
            proof {
                lemma_first_where(orig.popups, p, k as int);
            }
            (st, Vec::new())
        },
    }
}
fn press_closes_step(st: PointerState, input: &PointerInput) -> (r: (PointerState, Vec<ShellAction>))
    ensures
        (r.0@, r.1@) == press_closes(st@, input@),
{
    let ghost orig = st@;
    let close_wm = st.window_menu.is_some() && !matches!(input.surface, Surface::WindowMenu) && !matches!(input.surface, Surface::WorkspaceSubmenu);
    let close_im = st.icon_menu.is_some() && !matches!(input.surface, Surface::IconMenu);
    let mut st = st;
    let mut acts: Vec<ShellAction> = Vec::new();
    if close_wm {
        st.window_menu = None;
        acts.push(ShellAction::CloseWindowMenu);
    }
    if close_im {
        st.icon_menu = None;
        acts.push(ShellAction::CloseIconMenu);
    }
    proof {
        assert(acts@ =~= (if close_wm { seq![ShellAction::CloseWindowMenu] } else { seq![] }) + (if close_im {
            seq![ShellAction::CloseIconMenu]
        } else {
            seq![]
        }));
    }
    (st, acts)
}

fn find_armed(st: &PointerState) -> (r: Option<usize>)
    ensures
        opt_usize(r) == armed_background(st@),
        r matches Some(i) ==> i < st.backgrounds.len(),
{
    let ghost p = |b: BackgroundModel| b.drag matches Some(d) && d.armed;
    let ghost bs = st@.backgrounds;
    let mut k: usize = 0;
    while k < st.backgrounds.len()
        invariant
            k <= st.backgrounds.len(),
            bs == st@.backgrounds,
            p == (|b: BackgroundModel| b.drag matches Some(d) && d.armed),
            forall|j: int| 0 <= j < k ==> !p(#[trigger] bs[j]),
        decreases st.backgrounds.len() - k,
    {
        let armed = match &st.backgrounds[k].drag {
            Some(d) => d.armed,
            None => false,
        };
        if armed {
            proof {
                lemma_first_where(bs, p, k as int);
            }
            return Some(k);
        }
        k = k + 1;
    }
    proof {
        lemma_first_where(bs, p, k as int);
    }
    None
}

fn dispatch_step(st: PointerState, input: &PointerInput, prev_wm: Option<u64>, prev_im: Option<u64>) -> (r: (PointerState, Vec<ShellAction>))
    ensures
        (r.0@, r.1@) == dispatch(st@, input@, prev_wm, prev_im),
{
    if input.kind == (PointerKind::Release { button: Button::Menu }) {
        return match input.surface {
            Surface::Popup { index } => if index < st.popups.len() {
                menu_release_step(st, input, Some(index))
            } else {
                menu_release_step(st, input, None)
            },
            _ => menu_release_step(st, input, None),
        };
    }
    match input.surface {
        Surface::Background { index, width, height } => if index >= st.backgrounds.len() {
            (st, Vec::new())
        } else {
            match input.kind {
                PointerKind::Press { button: Button::Menu, .. } => bg_menu(st, input, index, prev_im),
                PointerKind::Press { button: Button::Adjust, .. } => bg_adjust(st, input, index),
                PointerKind::Motion => bg_motion(st, input, index, width, height),
                PointerKind::Leave => bg_leave(st, index),
                PointerKind::Press { button: Button::Select, time } => bg_select(st, input, index, time),
                PointerKind::Release { button: Button::Select } => bg_release(st, index),
                _ => (st, Vec::new()),
            }
        },
        Surface::Panel { index, workspace_count } => if index >= st.panels.len() {
            (st, Vec::new())
        } else {
            panel_step(st, input, index, workspace_count)
        },
        Surface::Header { toplevel, geometry, button_hovered, sticky } => header_step(
            st,
            input,
            toplevel,
            geometry,
            button_hovered,
            sticky,
            prev_wm,
        ),
        Surface::Handle { toplevel, region, hovered } => handle_step(st, input, toplevel, region, hovered),
        Surface::WindowMenu => if st.window_menu.is_some() {
            window_menu_step(st, input)
        } else {
            (st, Vec::new())
        },
        Surface::WorkspaceSubmenu => if st.window_menu.is_some() && st.window_menu.as_ref().unwrap().submenu.is_some() {
            submenu_step(st, input)
        } else {
            (st, Vec::new())
        },
        Surface::IconMenu => if st.icon_menu.is_some() {
            icon_menu_step(st, input)
        } else {
            (st, Vec::new())
        },
        Surface::Notice => if st.notice.is_some() {
            notice_step(st, input)
        } else {
            (st, Vec::new())
        },
        Surface::Popup { index } => if index < st.popups.len() && input.kind == PointerKind::Motion {
            popup_motion_step(st, input, index)
        } else {
            (st, Vec::new())
        },
        Surface::Other => (st, Vec::new()),
    }
}

/// The shell's response to one pointer event: the next pointer state and
/// the actions to perform, in order.
pub fn pointer_step(st: &PointerState, input: &PointerInput) -> (r: (PointerState, Vec<ShellAction>))
    ensures
        r.0@ == pointer_next(st@, input@),
        r.1@ == pointer_actions(st@, input@),
{
    step_owned(copy_state(st), input)
}

fn copy_drag(d: &IconDrag) -> (r: IconDrag)
    ensures
        r@ == d@,
{
    let mut icons: Vec<(u64, i32, i32)> = Vec::new();
    let mut i: usize = 0;
    while i < d.icons.len()
        invariant
            i <= d.icons.len(),
            icons@ == d.icons@.take(i as int),
        decreases d.icons.len() - i,
    {
        icons.push(d.icons[i]);
        proof {
            assert(d.icons@.take(i + 1) =~= d.icons@.take(i as int).push(d.icons@[i as int]));
        }
        i = i + 1;
    }
    assert(d.icons@.take(d.icons.len() as int) =~= d.icons@);
    IconDrag {
        primary: d.primary,
        press_time: d.press_time,
        press_pos: d.press_pos,
        icons,
        dragging: d.dragging,
        armed: d.armed,
    }
}

fn copy_background(b: &BackgroundState) -> (r: BackgroundState)
    ensures
        r@ == b@,
{
    let drag = match &b.drag {
        Some(d) => Some(copy_drag(d)),
        None => None,
    };
    BackgroundState { selected: copy_ids(&b.selected), drag, hovered: b.hovered, last_click: b.last_click }
}

fn copy_submenu_rows(v: &Vec<SubmenuRow>) -> (r: Vec<SubmenuRow>)
    ensures
        r@ == v@,
{
    let mut r: Vec<SubmenuRow> = Vec::new();
    let mut i: usize = 0;
    while i < v.len()
        invariant
            i <= v.len(),
            r@ == v@.take(i as int),
        decreases v.len() - i,
    {
        r.push(v[i]);
        proof {
            assert(v@.take(i + 1) =~= v@.take(i as int).push(v@[i as int]));
        }
        i = i + 1;
    }
    assert(v@.take(v.len() as int) =~= v@);
    r
}

fn copy_rects(v: &Vec<Rect>) -> (r: Vec<Rect>)
    ensures
        r@ == v@,
{
    let mut r: Vec<Rect> = Vec::new();
    let mut i: usize = 0;
    while i < v.len()
        invariant
            i <= v.len(),
            r@ == v@.take(i as int),
        decreases v.len() - i,
    {
        r.push(v[i]);
        proof {
            assert(v@.take(i + 1) =~= v@.take(i as int).push(v@[i as int]));
        }
        i = i + 1;
    }
    assert(v@.take(v.len() as int) =~= v@);
    r
}

fn copy_panels(v: &Vec<Option<u32>>) -> (r: Vec<Option<u32>>)
    ensures
        r@ == v@,
{
    let mut r: Vec<Option<u32>> = Vec::new();
    let mut i: usize = 0;
    while i < v.len()
        invariant
            i <= v.len(),
            r@ == v@.take(i as int),
        decreases v.len() - i,
    {
        r.push(v[i]);
        proof {
            assert(v@.take(i + 1) =~= v@.take(i as int).push(v@[i as int]));
        }
        i = i + 1;
    }
    assert(v@.take(v.len() as int) =~= v@);
    r
}

fn copy_state(st: &PointerState) -> (r: PointerState)
    ensures
        r@ == st@,
{
    let mut backgrounds: Vec<BackgroundState> = Vec::new();
    let mut i: usize = 0;
    while i < st.backgrounds.len()
        invariant
            i <= st.backgrounds.len(),
            backgrounds.len() == i,
            forall|q: int| 0 <= q < i ==> (#[trigger] backgrounds@[q])@ == st.backgrounds@[q]@,
        decreases st.backgrounds.len() - i,
    {
        backgrounds.push(copy_background(&st.backgrounds[i]));
        i = i + 1;
    }
    let mut popups: Vec<PopupState> = Vec::new();
    let mut j: usize = 0;
    while j < st.popups.len()
        invariant
            j <= st.popups.len(),
            popups.len() == j,
            forall|q: int| 0 <= q < j ==> (#[trigger] popups@[q])@ == st.popups@[q]@,
        decreases st.popups.len() - j,
    {
        popups.push(copy_popup(&st.popups[j]));
        j = j + 1;
    }
    let window_menu = match &st.window_menu {
        Some(wm) => Some(
            WindowMenuState {
                toplevel: wm.toplevel,
                sticky: wm.sticky,
                hovered: wm.hovered,
                submenu: match &wm.submenu {
                    Some(sm) => Some(SubmenuState { rows: copy_submenu_rows(&sm.rows), hovered: sm.hovered }),
                    None => None,
                },
            },
        ),
        None => None,
    };
    let icon_menu = match &st.icon_menu {
        Some(im) => Some(
            IconMenuState {
                toplevel: im.toplevel,
                background: im.background,
                group: copy_ids(&im.group),
                hovered: im.hovered,
            },
        ),
        None => None,
    };
    let notice = match &st.notice {
        Some(n) => Some(NoticeState { buttons: copy_rects(&n.buttons), pressed: n.pressed }),
        None => None,
    };
    let r = PointerState { backgrounds, panels: copy_panels(&st.panels), popups, window_menu, icon_menu, notice };
    proof {
        assert(r@.backgrounds =~= st@.backgrounds);
        assert(r@.popups =~= st@.popups);
    }
    r
}

fn step_owned(st: PointerState, input: &PointerInput) -> (r: (PointerState, Vec<ShellAction>))
    ensures
        r.0@ == pointer_next(st@, input@),
        r.1@ == pointer_actions(st@, input@),
{
    let ghost orig = st@;
    if st.notice.is_some() && !matches!(input.surface, Surface::Notice) {
        return (st, Vec::new());
    }
    let is_press = matches!(input.kind, PointerKind::Press { .. });
    if is_press {
        match find_armed(&st) {
            Some(i) => {
                let ghost o = st;
                let mut st = st;
                let mut b = take_background(&mut st, i);
                b.drag = None;
                let st = put_background(st, i, b, Ghost(o));
                return (st, one(ShellAction::RedrawBackground { background: i }));
            },
            None => {},
        }
    }
    let prev_wm = match &st.window_menu {
        Some(wm) => Some(wm.toplevel),
        None => None,
    };
    let prev_im = match &st.icon_menu {
        Some(im) => Some(im.toplevel),
        None => None,
    };
    let (st, mut acts) = if is_press {
        press_closes_step(st, input)
    } else {
        (st, Vec::new())
    };
    let ghost pre = acts@;
    let ghost pre_st = st@;
    let (st, post) = dispatch_step(st, input, prev_wm, prev_im);
    let ghost post_acts = post@;
    let mut post = post;
    acts.append(&mut post);
    proof {
        assert(acts@ =~= pre + post_acts);
        assert(pre_st == (if is_press { press_closes(orig, input@) } else { no_change(orig) }).0);
    }
    (st, acts)
}
/// Records a root-menu popup the caller opened (after `OpenRootMenu`),
/// with its rows, unpinned and with nothing hovered.
pub fn add_popup(st: &mut PointerState, rows: Vec<PopupRow>)
    ensures
        final(st)@ == (PointerModel {
            popups: old(st)@.popups.push(PopupModel { pinned: false, hovered: None, rows: rows@ }),
            ..old(st)@
        }),
{
    let ghost before = st@;
    st.popups.push(PopupState { pinned: false, hovered: None, rows });
    proof {
        assert(st@.popups =~= before.popups.push(PopupModel { pinned: false, hovered: None, rows: rows@ }));
    }
}

/// Records the Exit confirmation the caller opened (after `OpenNotice`),
/// with its buttons' boxes; a notice already open stays as it is.
pub fn open_notice(st: &mut PointerState, buttons: Vec<Rect>) -> (opened: bool)
    ensures
        opened == (old(st)@.notice is None),
        final(st)@ == (if opened {
            PointerModel { notice: Some(NoticeModel { buttons: buttons@, pressed: None }), ..old(st)@ }
        } else {
            old(st)@
        }),
{
    if st.notice.is_some() {
        return false;
    }
    st.notice = Some(NoticeState { buttons, pressed: None });
    true
}

/// Records the workspace submenu the caller built (after
/// `OpenWorkspaceSubmenu`), unless the window menu has closed or the
/// rows offer nowhere to move to; returns whether it opened.
pub fn open_workspace_submenu(st: &mut PointerState, rows: Vec<SubmenuRow>) -> (opened: bool)
    ensures
        opened == (old(st)@.window_menu is Some && exists|k: int|
            0 <= k < rows@.len() && (#[trigger] rows@[k]) matches SubmenuRow::Workspace { current: false, .. }),
        final(st)@ == (if opened {
            PointerModel {
                window_menu: Some(WindowMenuModel {
                    submenu: Some(SubmenuModel { rows: rows@, hovered: None }),
                    ..old(st)@.window_menu->0
                }),
                ..old(st)@
            }
        } else {
            old(st)@
        }),
{
    if st.window_menu.is_none() || !crate::layout::has_move_target(&rows) {
        return false;
    }
    let mut wm = st.window_menu.take().unwrap();
    wm.submenu = Some(SubmenuState { rows, hovered: None });
    st.window_menu = Some(wm);
    true
}

// ---------------------------------------------------------------------
// Laws
// ---------------------------------------------------------------------

/// While the Exit confirmation is open it is modal: an event on any other
/// surface changes nothing and does nothing.
pub proof fn law_notice_is_modal(st: PointerModel, e: InputModel)
    requires
        st.notice is Some,
        !(e.surface matches Surface::Notice),
    ensures
        pointer_next(st, e) == st,
        pointer_actions(st, e) == Seq::<ShellAction>::empty(),
{
}

/// A press anywhere but on the open window menu (or its workspace
/// submenu) closes it first; afterwards no window menu is open, unless
/// the press was on another window's menu button and opened that
/// window's menu.
pub proof fn law_press_elsewhere_closes_window_menu(st: PointerModel, e: InputModel)
    requires
        st.notice is None,
        armed_background(st) is None,
        e.kind is Press,
        st.window_menu is Some,
        !(e.surface matches Surface::WindowMenu),
        !(e.surface matches Surface::WorkspaceSubmenu),
    ensures
        pointer_actions(st, e).len() > 0,
        pointer_actions(st, e)[0] == ShellAction::CloseWindowMenu,
        pointer_next(st, e).window_menu matches Some(wm) ==> ((e.surface matches Surface::Header { toplevel, .. })
            && e.surface->Header_toplevel == wm.toplevel && wm.toplevel != st.window_menu->0.toplevel),
{
}

/// A press anywhere but on the open icon menu closes it first;
/// afterwards no icon menu is open, unless the press was MENU on the
/// icon of another window and opened that icon's menu.
pub proof fn law_press_elsewhere_closes_icon_menu(st: PointerModel, e: InputModel)
    requires
        st.notice is None,
        armed_background(st) is None,
        e.kind is Press,
        st.icon_menu is Some,
        !(e.surface matches Surface::IconMenu),
    ensures
        pointer_actions(st, e).contains(ShellAction::CloseIconMenu),
        pointer_next(st, e).icon_menu matches Some(im) ==> (e.surface is Background && (e.kind
            matches PointerKind::Press { button: Button::Menu, .. }) && icon_window(e) == Some(im.toplevel)
            && im.toplevel != st.icon_menu->0.toplevel),
{
    let pre = press_closes(st, e);
    let acts = pointer_actions(st, e);
    if st.window_menu is Some && !(e.surface matches Surface::WindowMenu) && !(e.surface matches Surface::WorkspaceSubmenu) {
        assert(acts[1] == ShellAction::CloseIconMenu);
    } else {
        assert(acts[0] == ShellAction::CloseIconMenu);
    }
}

/// ADJUST on an icon flips whether its window is selected and leaves the
/// rest of the selection as it was (a selection holds each window once).
pub proof fn law_adjust_toggles_selection(st: PointerModel, e: InputModel, w: u64, v: u64)
    requires
        st.notice is None,
        armed_background(st) is None,
        e.surface matches Surface::Background { index, .. } && index < st.backgrounds.len(),
        e.kind matches PointerKind::Press { button: Button::Adjust, .. },
        icon_window(e) == Some(w),
        st.backgrounds[e.surface->Background_index as int].selected.no_duplicates(),
    ensures
        ({
            let i = e.surface->Background_index as int;
            let before = st.backgrounds[i].selected;
            let after = pointer_next(st, e).backgrounds[i].selected;
            &&& after.contains(w) == !before.contains(w)
            &&& v != w ==> after.contains(v) == before.contains(v)
            &&& after.no_duplicates()
        }),
{
    let i = e.surface->Background_index as int;
    let pre = press_closes(st, e).0;
    assert(pre.backgrounds == st.backgrounds);
    let sel = st.backgrounds[i].selected;
    let p = |x: u64| x == w;
    match position_of(sel, w) {
        Some(k) => {
            assert(0 <= k < sel.len() && sel[k] == w) by {
                let c = choose|c: int| 0 <= c < sel.len() && p(sel[c]) && forall|j: int| 0 <= j < c ==> !p(#[trigger] sel[j]);
            }
            let after = sel.remove(k);
            assert forall|j: int| 0 <= j < after.len() implies after[j] != w by {
                if j < k {
                    assert(after[j] == sel[j]);
                } else {
                    assert(after[j] == sel[j + 1]);
                }
            }
            if v != w && sel.contains(v) {
                let c = choose|c: int| 0 <= c < sel.len() && sel[c] == v;
                if c < k {
                    assert(after[c] == v);
                } else {
                    assert(after[c - 1] == v);
                }
            }
            assert forall|a: int, b: int| 0 <= a < b < after.len() implies after[a] != after[b] by {
                let a2 = if a < k { a } else { a + 1 };
                let b2 = if b < k { b } else { b + 1 };
                assert(after[a] == sel[a2] && after[b] == sel[b2]);
            }
        },
        None => {
            if sel.contains(w) {
                let c = choose|c: int| 0 <= c < sel.len() && sel[c] == w;
                lemma_first_exists(sel, p, c);
            }
            let after = sel.push(w);
            assert(after[sel.len() as int] == w);
            if v != w && sel.contains(v) {
                let c = choose|c: int| 0 <= c < sel.len() && sel[c] == v;
                assert(after[c] == v);
            }
            assert forall|a: int, b: int| 0 <= a < b < after.len() implies after[a] != after[b] by {
                if b == sel.len() {
                    assert(after[a] == sel[a]);
                    assert(!p(sel[a]));
                }
            }
        },
    }
}

/// Where some element satisfies `p`, a first one does.
proof fn lemma_first_exists<T>(s: Seq<T>, p: spec_fn(T) -> bool, c: int)
    requires
        0 <= c < s.len(),
        p(s[c]),
    ensures
        first_where(s, p) is Some,
    decreases c,
{
    if exists|j: int| 0 <= j < c && p(s[j]) {
        let j = choose|j: int| 0 <= j < c && p(s[j]);
        lemma_first_exists(s, p, j);
    } else {
        assert(0 <= c < s.len() && p(s[c]) && forall|j: int| 0 <= j < c ==> !p(#[trigger] s[j]));
    }
}
// ---------------------------------------------------------------------
// Keys
// ---------------------------------------------------------------------

#[derive(Clone, Copy, Debug, PartialEq, Eq, Structural)]
pub enum Key {
    Escape,
    Return,
    Other,
}

/// The Exit notice's default button, the one Return chooses: Cancel.
pub const NOTICE_DEFAULT_BUTTON: usize = 1;

/// A key pressed while `focus` has the keyboard: Escape closes the
/// focused popup, the window menu's workspace submenu before the window
/// menu itself, the icon menu, or the notice; Return chooses the
/// notice's default button.
pub open spec fn key_outcome(st: PointerModel, key: Key, focus: Surface) -> Outcome {
    match key {
        Key::Escape => match focus {
            Surface::Popup { index } => if index < st.popups.len() {
                close_popup(st, index as int)
            } else {
                no_change(st)
            },
            Surface::WindowMenu => match st.window_menu {
                Some(wm) => if wm.submenu is Some {
                    (
                        PointerModel { window_menu: Some(WindowMenuModel { submenu: None, ..wm }), ..st },
                        seq![ShellAction::CloseWorkspaceSubmenu],
                    )
                } else {
                    (PointerModel { window_menu: None, ..st }, seq![ShellAction::CloseWindowMenu])
                },
                None => no_change(st),
            },
            Surface::IconMenu => if st.icon_menu is Some {
                (PointerModel { icon_menu: None, ..st }, seq![ShellAction::CloseIconMenu])
            } else {
                no_change(st)
            },
            Surface::Notice => if st.notice is Some {
                (PointerModel { notice: None, ..st }, seq![ShellAction::CloseNotice])
            } else {
                no_change(st)
            },
            _ => no_change(st),
        },
        Key::Return => if (focus matches Surface::Notice) && st.notice is Some {
            (
                PointerModel { notice: None, ..st },
                if NOTICE_DEFAULT_BUTTON == 0 {
                    seq![ShellAction::ExitSession, ShellAction::CloseNotice]
                } else {
                    seq![ShellAction::CloseNotice]
                },
            )
        } else {
            no_change(st)
        },
        Key::Other => no_change(st),
    }
}

/// The shell's response to a key pressed while `focus` has the keyboard.
pub fn key_step(st: PointerState, key: Key, focus: Surface) -> (r: (PointerState, Vec<ShellAction>))
    ensures
        (r.0@, r.1@) == key_outcome(st@, key, focus),
{
    match key {
        Key::Escape => match focus {
            Surface::Popup { index } => if index < st.popups.len() {
                remove_popup(st, index)
            } else {
                (st, Vec::new())
            },
            Surface::WindowMenu => if st.window_menu.is_some() {
                let mut st = st;
                let mut wm = st.window_menu.take().unwrap();
                if wm.submenu.is_some() {
                    wm.submenu = None;
                    st.window_menu = Some(wm);
                    (st, one(ShellAction::CloseWorkspaceSubmenu))
                } else {
                    (st, one(ShellAction::CloseWindowMenu))
                }
            } else {
                (st, Vec::new())
            },
            Surface::IconMenu => if st.icon_menu.is_some() {
                let mut st = st;
                st.icon_menu = None;
                (st, one(ShellAction::CloseIconMenu))
            } else {
                (st, Vec::new())
            },
            Surface::Notice => if st.notice.is_some() {
                let mut st = st;
                st.notice = None;
                (st, one(ShellAction::CloseNotice))
            } else {
                (st, Vec::new())
            },
            _ => (st, Vec::new()),
        },
        Key::Return => if matches!(focus, Surface::Notice) && st.notice.is_some() {
            let mut st = st;
            st.notice = None;
            (st, one(ShellAction::CloseNotice))
        } else {
            (st, Vec::new())
        },
        Key::Other => (st, Vec::new()),
    }
}

// ---------------------------------------------------------------------
// Window-menu rows do what they say
// ---------------------------------------------------------------------

/// What the window-menu row labelled `label` does.
pub open spec fn action_named(label: Seq<char>) -> Option<WindowMenuAction> {
    if label == "Close"@ {
        Some(WindowMenuAction::Minimize)
    } else if label == "Full Size"@ {
        Some(WindowMenuAction::ToggleMaximize)
    } else if label == "Move"@ {
        Some(WindowMenuAction::Move)
    } else if label == "Resize"@ {
        Some(WindowMenuAction::Resize)
    } else if label == "Properties"@ {
        Some(WindowMenuAction::Unimplemented)
    } else if label == "Back"@ {
        Some(WindowMenuAction::Lower)
    } else if label == "Stick"@ || label == "Unstick"@ {
        Some(WindowMenuAction::ToggleSticky)
    } else if label == "Move to Workspace"@ {
        Some(WindowMenuAction::MoveToWorkspace)
    } else if label == "Quit"@ {
        Some(WindowMenuAction::Quit)
    } else {
        None
    }
}

/// Every window-menu row does what its label says, sticky or not: Close
/// minimizes, Full Size toggles maximized, Move moves, Resize resizes,
/// Back lowers, Stick / Unstick toggles sticky, Move to Workspace opens
/// the workspace submenu, Quit quits; and no two rows share a label.
pub proof fn law_window_rows_do_what_they_say(sticky: bool)
    ensures
        forall|i: int|
            0 <= i < WINDOW_MENU_ROWS ==> action_named(#[trigger] window_row_label(i, sticky)) == Some(
                window_row_action(i),
            ),
        forall|i: int, j: int|
            0 <= i < j < WINDOW_MENU_ROWS ==> #[trigger] window_row_label(i, sticky) != #[trigger] window_row_label(
                j,
                sticky,
            ),
{
    reveal_strlit("Close");
    reveal_strlit("Full Size");
    reveal_strlit("Move");
    reveal_strlit("Resize");
    reveal_strlit("Properties");
    reveal_strlit("Back");
    reveal_strlit("Stick");
    reveal_strlit("Unstick");
    reveal_strlit("Move to Workspace");
    reveal_strlit("Quit");
    assert("Close"@.len() == 5 && "Close"@[0] == 'C');
    assert("Full Size"@.len() == 9 && "Full Size"@[0] == 'F');
    assert("Move"@.len() == 4 && "Move"@[0] == 'M');
    assert("Resize"@.len() == 6 && "Resize"@[0] == 'R');
    assert("Properties"@.len() == 10 && "Properties"@[0] == 'P');
    assert("Back"@.len() == 4 && "Back"@[0] == 'B');
    assert("Stick"@.len() == 5 && "Stick"@[0] == 'S');
    assert("Unstick"@.len() == 7 && "Unstick"@[0] == 'U');
    assert("Move to Workspace"@.len() == 17 && "Move to Workspace"@[0] == 'M');
    assert("Quit"@.len() == 4 && "Quit"@[0] == 'Q');
    assert forall|i: int| 0 <= i < WINDOW_MENU_ROWS implies action_named(#[trigger] window_row_label(i, sticky))
        == Some(window_row_action(i)) by {

    }
    assert forall|i: int, j: int| 0 <= i < j < WINDOW_MENU_ROWS implies #[trigger] window_row_label(i, sticky)
        != #[trigger] window_row_label(j, sticky) by {
        if window_row_label(i, sticky) == window_row_label(j, sticky) {
            assert(action_named(window_row_label(i, sticky)) == Some(window_row_action(i)));
            assert(action_named(window_row_label(j, sticky)) == Some(window_row_action(j)));
        }
    }
}

} // verus!
