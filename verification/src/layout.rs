//! Geometry of the shell's chrome: the window decoration's button,
//! sticky indicator, resize corners, footer and side borders; menu and
//! popup rows; the workspace switcher strip; and the icon tray. Shared by
//! drawing and hit-testing so the two can never disagree. All positions
//! are in logical pixels; pointer positions are taken already truncated
//! to integers.
use vstd::prelude::*;
use crate::text::{chars_of, less_than, seq_less};

verus! {

pub const MENU_ROW_HEIGHT: i32 = 26;
pub const MENU_H_PADDING: i32 = 12;
pub const POPUP_PUSHPIN_WIDTH: i32 = 26;
pub const POPUP_PUSHPIN_HEIGHT: i32 = 14;
pub const STICKY_PUSHPIN_SIZE: i32 = 15;
pub const DECORATION_BUTTON_SIZE: i32 = 14;
pub const DECORATION_BUTTON_MARGIN: i32 = 4;
pub const CORNER_HANDLE_SIZE: i32 = 14;
pub const DECORATION_BORDER_WIDTH: i32 = 3;
pub const WORKSPACE_SEGMENT_WIDTH: i32 = 32;
pub const WORKSPACE_STRIP_MARGIN: i32 = 6;
pub const WORKSPACE_SEGMENT_GAP: i32 = 2;
pub const ICON_SIZE: i32 = 48;
pub const ICON_GAP: i32 = 14;
pub const ICON_MARGIN_BOTTOM: i32 = 14;
pub const ICON_LABEL_HEIGHT: i32 = 16;

/// Edge bits of a resize request (xdg_toplevel's resize_edge encoding).
pub const EDGE_TOP: u32 = 1;
pub const EDGE_BOTTOM: u32 = 2;
pub const EDGE_LEFT: u32 = 4;
pub const EDGE_RIGHT: u32 = 8;

/// Rows of the window menu (Close, Full Size, Move, Resize, Properties,
/// Back, Stick, Move to Workspace, Quit).
pub const WINDOW_MENU_ROWS: usize = 9;

/// Rows of an icon's menu (Open, Move, Properties).
pub const ICON_MENU_ROWS: usize = 3;

pub type Rect = (i32, i32, i32, i32);

/// Whether `(x, y)` lies in the half-open box `(x0, y0)`..`(x1, y1)`.
pub open spec fn in_rect(r: Rect, x: int, y: int) -> bool {
    r.0 <= x < r.2 && r.1 <= y < r.3
}

pub fn point_in_rect(r: Rect, x: i32, y: i32) -> (b: bool)
    ensures
        b == in_rect(r, x as int, y as int),
{
    x >= r.0 && x < r.2 && y >= r.1 && y < r.3
}

// ---------------------------------------------------------------------
// Resize regions
// ---------------------------------------------------------------------

/// A resize handle of a decorated window: the four corner brackets and
/// the footer strip between the two bottom ones.
#[derive(Clone, Copy, Debug, PartialEq, Eq, Structural)]
pub enum ResizeRegion {
    TopLeft,
    TopRight,
    BottomLeft,
    BottomRight,
    Footer,
}

pub open spec fn region_edges(r: ResizeRegion) -> u32 {
    match r {
        ResizeRegion::TopLeft => EDGE_TOP | EDGE_LEFT,
        ResizeRegion::TopRight => EDGE_TOP | EDGE_RIGHT,
        ResizeRegion::BottomLeft => EDGE_BOTTOM | EDGE_LEFT,
        ResizeRegion::BottomRight => EDGE_BOTTOM | EDGE_RIGHT,
        ResizeRegion::Footer => EDGE_BOTTOM,
    }
}

impl ResizeRegion {
    /// Edge bitmask to pass to the resize request.
    pub fn edges(self) -> (r: u32)
        ensures
            r == region_edges(self),
    {
        match self {
            ResizeRegion::TopLeft => EDGE_TOP | EDGE_LEFT,
            ResizeRegion::TopRight => EDGE_TOP | EDGE_RIGHT,
            ResizeRegion::BottomLeft => EDGE_BOTTOM | EDGE_LEFT,
            ResizeRegion::BottomRight => EDGE_BOTTOM | EDGE_RIGHT,
            ResizeRegion::Footer => EDGE_BOTTOM,
        }
    }

    /// Which sides of its square a corner bracket's elbow sits against:
    /// `(flip_x, flip_y)` true means left / top rather than right /
    /// bottom. Only corners have a bracket.
    pub fn corner_flip(self) -> (r: (bool, bool))
        requires
            self != ResizeRegion::Footer,
        ensures
            r.0 == (self == ResizeRegion::TopLeft || self == ResizeRegion::BottomLeft),
            r.1 == (self == ResizeRegion::TopLeft || self == ResizeRegion::TopRight),
    {
        match self {
            ResizeRegion::TopLeft => (true, true),
            ResizeRegion::TopRight => (false, true),
            ResizeRegion::BottomLeft => (true, false),
            _ => (false, false),
        }
    }
}

/// Each handle resizes from the edges it sits on: a corner from its two
/// edges, the footer from the bottom edge alone.
pub proof fn law_region_edges_match_position(r: ResizeRegion)
    ensures
        (region_edges(r) & EDGE_TOP != 0) == (r == ResizeRegion::TopLeft || r == ResizeRegion::TopRight),
        (region_edges(r) & EDGE_BOTTOM != 0) == (r == ResizeRegion::BottomLeft || r
            == ResizeRegion::BottomRight || r == ResizeRegion::Footer),
        (region_edges(r) & EDGE_LEFT != 0) == (r == ResizeRegion::TopLeft || r == ResizeRegion::BottomLeft),
        (region_edges(r) & EDGE_RIGHT != 0) == (r == ResizeRegion::TopRight || r
            == ResizeRegion::BottomRight),
{
    assert((1u32 | 4u32) & 1u32 != 0 && (1u32 | 4u32) & 2u32 == 0 && (1u32 | 4u32) & 4u32 != 0 && (1u32 | 4u32) & 8u32 == 0) by (bit_vector);
    assert((1u32 | 8u32) & 1u32 != 0 && (1u32 | 8u32) & 2u32 == 0 && (1u32 | 8u32) & 4u32 == 0 && (1u32 | 8u32) & 8u32 != 0) by (bit_vector);
    assert((2u32 | 4u32) & 1u32 == 0 && (2u32 | 4u32) & 2u32 != 0 && (2u32 | 4u32) & 4u32 != 0 && (2u32 | 4u32) & 8u32 == 0) by (bit_vector);
    assert((2u32 | 8u32) & 1u32 == 0 && (2u32 | 8u32) & 2u32 != 0 && (2u32 | 8u32) & 4u32 == 0 && (2u32 | 8u32) & 8u32 != 0) by (bit_vector);
    assert(2u32 & 1u32 == 0 && 2u32 & 2u32 != 0 && 2u32 & 4u32 == 0 && 2u32 & 8u32 == 0) by (bit_vector);
}

// ---------------------------------------------------------------------
// The window decoration
// ---------------------------------------------------------------------

/// The sizes a decoration header's chrome is laid out from: the
/// header's own width and height, and the decorated window's content
/// height below it.
#[derive(Clone, Copy, Debug)]
pub struct DecorationGeometry {
    pub width: u32,
    pub height: u32,
    pub toplevel_height: u32,
}

/// Whether the geometry's sizes fit the signed pixel arithmetic.
pub open spec fn geometry_fits(g: DecorationGeometry) -> bool {
    g.width <= i32::MAX && g.height + g.toplevel_height <= i32::MAX
}

/// `a / b` rounded toward zero, as Rust's `/` on integers.
pub open spec fn div_trunc(a: int, b: int) -> int {
    if a >= 0 {
        a / b
    } else {
        -((-a) / b)
    }
}

pub open spec fn button_box(g: DecorationGeometry) -> Rect {
    let x0 = CORNER_HANDLE_SIZE + DECORATION_BUTTON_MARGIN;
    let y0 = div_trunc(g.height - DECORATION_BUTTON_SIZE, 2);
    (x0 as i32, y0 as i32, (x0 + DECORATION_BUTTON_SIZE) as i32, (y0 + DECORATION_BUTTON_SIZE) as i32)
}

pub open spec fn pushpin_box(g: DecorationGeometry) -> Rect {
    let x1 = g.width - CORNER_HANDLE_SIZE - DECORATION_BUTTON_MARGIN;
    let x0 = x1 - STICKY_PUSHPIN_SIZE;
    let y0 = div_trunc(g.height - STICKY_PUSHPIN_SIZE, 2);
    (x0 as i32, y0 as i32, x1 as i32, (y0 + STICKY_PUSHPIN_SIZE) as i32)
}

pub open spec fn corner_position(g: DecorationGeometry, r: ResizeRegion) -> (int, int) {
    let right = r == ResizeRegion::TopRight || r == ResizeRegion::BottomRight;
    let bottom = r == ResizeRegion::BottomLeft || r == ResizeRegion::BottomRight;
    (
        if right { g.width - CORNER_HANDLE_SIZE } else { 0 },
        if bottom { g.height + g.toplevel_height - CORNER_HANDLE_SIZE } else { 0 },
    )
}

impl DecorationGeometry {
    /// The header's window-menu button, shifted in past the top-left
    /// corner handle.
    pub fn button_rect(&self) -> (r: Rect)
        requires
            self.height <= i32::MAX,
        ensures
            r == button_box(*self),
    {
        let x0 = CORNER_HANDLE_SIZE + DECORATION_BUTTON_MARGIN;
        let y0 = (self.height as i32 - DECORATION_BUTTON_SIZE) / 2;
        (x0, y0, x0 + DECORATION_BUTTON_SIZE, y0 + DECORATION_BUTTON_SIZE)
    }

    /// The passive sticky indicator near the header's right edge.
    pub fn sticky_pushpin_rect(&self) -> (r: Rect)
        requires
            self.width <= i32::MAX,
            self.height <= i32::MAX,
        ensures
            r == pushpin_box(*self),
    {
        let x1 = self.width as i32 - CORNER_HANDLE_SIZE - DECORATION_BUTTON_MARGIN;
        let x0 = x1 - STICKY_PUSHPIN_SIZE;
        let y0 = (self.height as i32 - STICKY_PUSHPIN_SIZE) / 2;
        (x0, y0, x1, y0 + STICKY_PUSHPIN_SIZE)
    }

    /// Header-local top-left of a corner handle: top corners at the
    /// header's top edge, bottom corners reaching the window's bottom.
    pub fn corner_handle_position(&self, region: ResizeRegion) -> (r: (i32, i32))
        requires
            geometry_fits(*self),
        ensures
            (r.0 as int, r.1 as int) == corner_position(*self, region),
    {
        let right = region == ResizeRegion::TopRight || region == ResizeRegion::BottomRight;
        let bottom = region == ResizeRegion::BottomLeft || region == ResizeRegion::BottomRight;
        let x = if right { self.width as i32 - CORNER_HANDLE_SIZE } else { 0 };
        let y = if bottom {
            self.height as i32 + self.toplevel_height as i32 - CORNER_HANDLE_SIZE
        } else {
            0
        };
        (x, y)
    }

    /// Header-local (x, y, width) of the footer strip between the two
    /// bottom corners (the width is not positive for a window narrower
    /// than both corners).
    pub fn footer_rect(&self) -> (r: (i32, i32, i32))
        requires
            geometry_fits(*self),
        ensures
            r.0 == CORNER_HANDLE_SIZE,
            r.1 == self.height + self.toplevel_height - CORNER_HANDLE_SIZE,
            r.2 == self.width - 2 * CORNER_HANDLE_SIZE,
    {
        let x0 = CORNER_HANDLE_SIZE;
        let y0 = self.height as i32 + self.toplevel_height as i32 - CORNER_HANDLE_SIZE;
        let width = self.width as i32 - 2 * CORNER_HANDLE_SIZE;
        (x0, y0, width)
    }

    /// Header-local (x, y0, y1) of the left or right border strip,
    /// running from below the top corner to above the bottom one.
    pub fn border_side_rect(&self, right: bool) -> (r: (i32, i32, i32))
        requires
            geometry_fits(*self),
        ensures
            r.0 == (if right { self.width - DECORATION_BORDER_WIDTH } else { 0 }),
            r.1 == CORNER_HANDLE_SIZE,
            r.2 == self.height + self.toplevel_height - CORNER_HANDLE_SIZE,
    {
        let x = if right { self.width as i32 - DECORATION_BORDER_WIDTH } else { 0 };
        let y0 = CORNER_HANDLE_SIZE;
        let y1 = self.height as i32 + self.toplevel_height as i32 - CORNER_HANDLE_SIZE;
        (x, y0, y1)
    }

    /// Whether the header-local point is on the window-menu button.
    pub fn is_on_button(&self, x: i32, y: i32) -> (b: bool)
        requires
            self.height <= i32::MAX,
        ensures
            b == in_rect(button_box(*self), x as int, y as int),
    {
        let r = self.button_rect();
        point_in_rect(r, x, y)
    }
}

// ---------------------------------------------------------------------
// Menu rows and popups
// ---------------------------------------------------------------------

/// The row under surface-local `y` of a menu with `rows` rows of
/// `MENU_ROW_HEIGHT` and no header; a point above the first row counts
/// as the first row.
pub open spec fn row_at(y: int, rows: int) -> Option<int> {
    let row = if y < 0 { 0 } else { y / MENU_ROW_HEIGHT as int };
    if row < rows {
        Some(row)
    } else {
        None
    }
}

/// Row index at `y` in the window menu, an icon's menu, or the
/// workspace submenu (`rows` rows).
pub fn menu_row_at(y: i32, rows: usize) -> (r: Option<usize>)
    ensures
        opt_usize(r) == row_at(y as int, rows as int),
{
    let row: i32 = if y < 0 { 0 } else { y / MENU_ROW_HEIGHT };
    if (row as usize) < rows {
        Some(row as usize)
    } else {
        None
    }
}

pub open spec fn opt_usize(o: Option<usize>) -> Option<int> {
    match o {
        Some(k) => Some(k as int),
        None => None,
    }
}

/// Rows of a root-menu popup above its items: the header with the
/// pushpin and the optional title.
pub fn popup_header_rows() -> (r: i32)
    ensures
        r == 1,
{
    1
}

/// The popup's pushpin box: after the left padding, centred in the
/// header row.
pub open spec fn popup_pushpin_box() -> Rect {
    (12i32, 6i32, 38i32, 20i32)
}

/// The popup's pushpin, before the title in the header row.
pub fn popup_pushpin_rect() -> (r: Rect)
    ensures
        r == popup_pushpin_box(),
{
    let x0 = MENU_H_PADDING;
    let x1 = x0 + POPUP_PUSHPIN_WIDTH;
    let y0 = (MENU_ROW_HEIGHT - POPUP_PUSHPIN_HEIGHT) / 2;
    (x0, y0, x1, y0 + POPUP_PUSHPIN_HEIGHT)
}

pub fn is_on_popup_pushpin(x: i32, y: i32) -> (b: bool)
    ensures
        b == in_rect(popup_pushpin_box(), x as int, y as int),
{
    point_in_rect(popup_pushpin_rect(), x, y)
}

/// The item under surface-local `y` of a popup with `items` items below
/// its header row.
pub open spec fn popup_row_at(y: int, items: int) -> Option<int> {
    if y < MENU_ROW_HEIGHT {
        None
    } else {
        let row = (y - MENU_ROW_HEIGHT) / MENU_ROW_HEIGHT as int;
        if row < items {
            Some(row)
        } else {
            None
        }
    }
}

pub fn popup_item_at(y: i32, items: usize) -> (r: Option<usize>)
    ensures
        opt_usize(r) == popup_row_at(y as int, items as int),
{
    let header_h = popup_header_rows() * MENU_ROW_HEIGHT;
    if y < header_h {
        return None;
    }
    let row = (y - header_h) / MENU_ROW_HEIGHT;
    if (row as usize) < items {
        Some(row as usize)
    } else {
        None
    }
}

/// A row of the "Move to Workspace" submenu: a non-interactive header
/// naming the output of panel `panel`, or a workspace on that output
/// (`current` where the window already is).
#[derive(Clone, Copy, Debug, PartialEq, Eq, Structural)]
pub enum SubmenuRow {
    OutputHeader { panel: usize },
    Workspace { panel: usize, index: u32, current: bool },
}

/// The rows of panel `p`, which has `count` workspaces: a header naming
/// its output when `headed`, then one row per workspace, the one equal
/// to `here` marked current. A panel without workspaces has no rows.
pub open spec fn panel_rows(p: usize, count: u32, headed: bool, here: Option<u32>) -> Seq<SubmenuRow> {
    if count == 0 {
        seq![]
    } else {
        (if headed {
            seq![SubmenuRow::OutputHeader { panel: p }]
        } else {
            seq![]
        }) + Seq::new(
            count as nat,
            |i: int| SubmenuRow::Workspace { panel: p, index: i as u32, current: here == Some(i as u32) },
        )
    }
}

/// The panels in submenu order: the window's panel `cur` first, then the
/// other `n - 1` in their own order.
pub open spec fn panel_order(n: int, cur: int) -> Seq<int> {
    seq![cur] + Seq::new((n - 1) as nat, |k: int| if k < cur { k } else { k + 1 })
}

/// The rows of the panels `order`, in turn. Headers are shown when there
/// are several panels; the window's workspace `cw` is current on its
/// own panel `cur` only.
pub open spec fn rows_for(order: Seq<int>, counts: Seq<u32>, cur: int, cw: Option<u32>) -> Seq<SubmenuRow>
    decreases order.len(),
{
    if order.len() == 0 {
        seq![]
    } else {
        let p = order.last();
        rows_for(order.drop_last(), counts, cur, cw) + panel_rows(
            p as usize,
            counts[p],
            counts.len() > 1,
            if p == cur { cw } else { None },
        )
    }
}

/// The rows of the "Move to Workspace" submenu of a window on panel
/// `cur`, on workspace `cw` there, where panel `p` has `counts[p]`
/// workspaces.
pub open spec fn submenu_rows(counts: Seq<u32>, cur: int, cw: Option<u32>) -> Seq<SubmenuRow> {
    rows_for(panel_order(counts.len() as int, cur), counts, cur, cw)
}

fn push_panel_rows(rows: &mut Vec<SubmenuRow>, p: usize, count: u32, headed: bool, here: Option<u32>)
    ensures
        final(rows)@ == old(rows)@ + panel_rows(p, count, headed, here),
{
    if count == 0 {
        assert(old(rows)@ + panel_rows(p, count, headed, here) =~= old(rows)@);
        return;
    }
    let ghost start = rows@;
    if headed {
        rows.push(SubmenuRow::OutputHeader { panel: p });
    }
    let ghost head: Seq<SubmenuRow> = if headed {
        seq![SubmenuRow::OutputHeader { panel: p }]
    } else {
        seq![]
    };
    assert(rows@ =~= start + head);
    let mut i: u32 = 0;
    while i < count
        invariant
            i <= count,
            rows@ =~= start + head + Seq::new(
                i as nat,
                |k: int| SubmenuRow::Workspace { panel: p, index: k as u32, current: here == Some(k as u32) },
            ),
        decreases count - i,
    {
        rows.push(SubmenuRow::Workspace { panel: p, index: i, current: here == Some(i) });
        i = i + 1;
    }
    assert(start + panel_rows(p, count, headed, here) =~= start + head + Seq::new(
        count as nat,
        |k: int| SubmenuRow::Workspace { panel: p, index: k as u32, current: here == Some(k as u32) },
    ));
}

/// The rows of the "Move to Workspace" submenu of a window on panel
/// `current_panel` (on workspace `current_workspace` there, if known),
/// where panel `p` has `workspace_counts[p]` workspaces: the window's
/// own panel first, then the others in order; each panel with
/// workspaces lists them, headed by its output's name when there are
/// several panels.
pub fn workspace_submenu_rows(
    workspace_counts: &Vec<u32>,
    current_panel: usize,
    current_workspace: Option<u32>,
) -> (r: Vec<SubmenuRow>)
    requires
        current_panel < workspace_counts.len(),
    ensures
        r@ == submenu_rows(workspace_counts@, current_panel as int, current_workspace),
{
    let ghost counts = workspace_counts@;
    let ghost cur = current_panel as int;
    let ghost order = panel_order(counts.len() as int, cur);
    let n = workspace_counts.len();
    let headed = n > 1;
    let mut rows: Vec<SubmenuRow> = Vec::new();
    push_panel_rows(&mut rows, current_panel, workspace_counts[current_panel], headed, current_workspace);
    proof {
        let first = order.take(1);
        assert(first.drop_last() =~= Seq::<int>::empty());
        assert(first.last() == cur);
        assert(rows_for(first.drop_last(), counts, cur, current_workspace) =~= Seq::<SubmenuRow>::empty());
        assert(rows@ =~= rows_for(first, counts, cur, current_workspace));
    }
    let mut p: usize = 0;
    while p < n
        invariant
            p <= n == workspace_counts.len() == counts.len(),
            counts == workspace_counts@,
            current_panel < n,
            cur == current_panel as int,
            headed == (n > 1),
            order == panel_order(counts.len() as int, cur),
            rows@ == rows_for(
                order.take(1 + if p <= current_panel { p as int } else { p - 1 }),
                counts,
                cur,
                current_workspace,
            ),
        decreases n - p,
    {
        if p != current_panel {
            let ghost m: int = 1 + if p <= current_panel { p as int } else { p - 1 };
            proof {
                assert(order[m] == p as int);
                assert(order.take(m + 1).drop_last() =~= order.take(m));
                assert(order.take(m + 1).last() == p as int);
            }
            push_panel_rows(&mut rows, p, workspace_counts[p], headed, None);
        }
        p = p + 1;
    }
    proof {
        assert(order.take(order.len() as int) =~= order);
    }
    rows
}

/// Whether the submenu offers anywhere to move to: a workspace row that
/// is not the current one.
pub fn has_move_target(rows: &Vec<SubmenuRow>) -> (b: bool)
    ensures
        b == exists|k: int| 0 <= k < rows.len() && (#[trigger] rows@[k]) matches SubmenuRow::Workspace { current: false, .. },
{
    let mut k: usize = 0;
    while k < rows.len()
        invariant
            k <= rows.len(),
            forall|q: int| 0 <= q < k ==> !((#[trigger] rows@[q]) matches SubmenuRow::Workspace { current: false, .. }),
        decreases rows.len() - k,
    {
        if is_selectable(rows, k) {
            return true;
        }
        k = k + 1;
    }
    false
}

/// Whether row `index` is a real, clickable target: a workspace other
/// than the current one.
pub fn is_selectable(rows: &Vec<SubmenuRow>, index: usize) -> (b: bool)
    ensures
        b == (index < rows.len() && rows@[index as int] matches SubmenuRow::Workspace { current: false, .. }),
{
    if index < rows.len() {
        match rows[index] {
            SubmenuRow::Workspace { current: false, .. } => true,
            _ => false,
        }
    } else {
        false
    }
}

/// Index of the first of `rects` holding the point, if any (notice
/// buttons, tray icons).
pub fn rect_index_at(rects: &Vec<Rect>, x: i32, y: i32) -> (r: Option<usize>)
    ensures
        r matches Some(i) ==> i < rects.len() && in_rect(rects@[i as int], x as int, y as int)
            && forall|j: int| 0 <= j < i ==> !in_rect(#[trigger] rects@[j], x as int, y as int),
        r is None ==> forall|j: int| 0 <= j < rects.len() ==> !in_rect(#[trigger] rects@[j], x as int, y as int),
{
    let mut i: usize = 0;
    while i < rects.len()
        invariant
            i <= rects.len(),
            forall|j: int| 0 <= j < i ==> !in_rect(#[trigger] rects@[j], x as int, y as int),
        decreases rects.len() - i,
    {
        if point_in_rect(rects[i], x, y) {
            return Some(i);
        }
        i = i + 1;
    }
    None
}

// ---------------------------------------------------------------------
// The workspace strip
// ---------------------------------------------------------------------

/// Panel-local `[x0, x1)` span of workspace segment `i`.
pub open spec fn segment(i: int) -> (int, int) {
    let x0 = WORKSPACE_STRIP_MARGIN + i * WORKSPACE_SEGMENT_WIDTH;
    (x0, x0 + WORKSPACE_SEGMENT_WIDTH - WORKSPACE_SEGMENT_GAP)
}

/// The most workspaces whose segments fit the panel's pixel range.
pub const MAX_WORKSPACES: u32 = 67108862;

pub fn workspace_segment_x(index: u32) -> (r: (i32, i32))
    requires
        index <= MAX_WORKSPACES,
    ensures
        (r.0 as int, r.1 as int) == segment(index as int),
{
    assert(index * 32 <= 67108862 * 32) by (nonlinear_arith)
        requires
            index <= 67108862,
    {
    }
    let x0 = WORKSPACE_STRIP_MARGIN + index as i32 * WORKSPACE_SEGMENT_WIDTH;
    (x0, x0 + WORKSPACE_SEGMENT_WIDTH - WORKSPACE_SEGMENT_GAP)
}

/// The workspace (of `count`) whose segment holds panel-local `x`.
pub fn workspace_at(x: i32, count: u32) -> (r: Option<u32>)
    requires
        count <= MAX_WORKSPACES,
    ensures
        r matches Some(i) ==> i < count && segment(i as int).0 <= x < segment(i as int).1,
        r is None ==> forall|i: int| 0 <= i < count ==> !(segment(i).0 <= x < #[trigger] segment(i).1),
{
    let mut i: u32 = 0;
    while i < count
        invariant
            i <= count <= MAX_WORKSPACES,
            forall|q: int| 0 <= q < i ==> !(segment(q).0 <= x < #[trigger] segment(q).1),
        decreases count - i,
    {
        let (x0, x1) = workspace_segment_x(i);
        if x >= x0 && x < x1 {
            return Some(i);
        }
        i = i + 1;
    }
    None
}

/// The segments of different workspaces do not overlap, so a point is
/// on at most one workspace.
pub proof fn law_segments_disjoint(i: int, j: int, x: int)
    requires
        0 <= i < j,
    ensures
        !(segment(i).0 <= x < segment(i).1 && segment(j).0 <= x < segment(j).1),
{
    assert(segment(i).1 <= segment(j).0) by (nonlinear_arith)
        requires
            i < j,
    {
    }
}

// ---------------------------------------------------------------------
// The icon tray
// ---------------------------------------------------------------------

/// Background-local box of tray slot `index` (left to right along the
/// bottom) on a background `bg_height` tall.
pub open spec fn slot(index: int, bg_height: int) -> (int, int, int, int) {
    let x0 = ICON_GAP + index * (ICON_SIZE + ICON_GAP);
    let y1 = bg_height - ICON_MARGIN_BOTTOM - ICON_LABEL_HEIGHT;
    (x0, y1 - ICON_SIZE, x0 + ICON_SIZE, y1)
}

/// The most tray slots whose boxes fit the pixel range.
pub const MAX_ICON_SLOTS: usize = 34636832;

pub open spec fn rect_int(r: Rect) -> (int, int, int, int) {
    (r.0 as int, r.1 as int, r.2 as int, r.3 as int)
}

pub fn icon_rect(index: usize, bg_height: i32) -> (r: Rect)
    requires
        index <= MAX_ICON_SLOTS,
        bg_height >= i32::MIN + ICON_MARGIN_BOTTOM + ICON_LABEL_HEIGHT + ICON_SIZE,
    ensures
        rect_int(r) == slot(index as int, bg_height as int),
{
    assert(index * 62 <= 34636832 * 62) by (nonlinear_arith)
        requires
            index <= 34636832,
    {
    }
    let x0 = ICON_GAP + index as i32 * (ICON_SIZE + ICON_GAP);
    let y1 = bg_height - ICON_MARGIN_BOTTOM - ICON_LABEL_HEIGHT;
    let y0 = y1 - ICON_SIZE;
    (x0, y0, x0 + ICON_SIZE, y1)
}

/// Number of `None`s among the first `n` of `pos`.
pub open spec fn packed_before(pos: Seq<Option<(i32, i32)>>, n: int) -> int
    decreases n,
{
    if n <= 0 {
        0
    } else {
        packed_before(pos, n - 1) + if pos[n - 1] is None { 1int } else { 0 }
    }
}

/// Where icon `k` of a tray sits: at its dragged position if it has
/// one, otherwise in the next free packed slot.
pub open spec fn icon_box(pos: Seq<Option<(i32, i32)>>, k: int, bg_height: int) -> (int, int, int, int) {
    match pos[k] {
        Some((x0, y0)) => (x0 as int, y0 as int, x0 + ICON_SIZE, y0 + ICON_SIZE),
        None => slot(packed_before(pos, k), bg_height),
    }
}

/// The box of each tray icon, in order: `positions[k]` is where icon `k`
/// was dragged to, if it was; the others pack left to right, skipping
/// no slot for the dragged ones.
pub fn icon_layout(positions: &Vec<Option<(i32, i32)>>, bg_height: i32) -> (r: Vec<Rect>)
    requires
        positions.len() <= MAX_ICON_SLOTS,
        bg_height >= i32::MIN + ICON_MARGIN_BOTTOM + ICON_LABEL_HEIGHT + ICON_SIZE,
        forall|k: int| 0 <= k < positions.len() ==> (#[trigger] positions@[k] matches Some((x0, y0)) ==> x0 <= i32::MAX - ICON_SIZE && y0 <= i32::MAX - ICON_SIZE),
    ensures
        r.len() == positions.len(),
        forall|k: int| 0 <= k < r.len() ==> rect_int(#[trigger] r@[k]) == icon_box(positions@, k, bg_height as int),
{
    let mut r: Vec<Rect> = Vec::new();
    let mut packed: usize = 0;
    let mut k: usize = 0;
    while k < positions.len()
        invariant
            k <= positions.len() <= MAX_ICON_SLOTS,
            r.len() == k,
            packed as int == packed_before(positions@, k as int),
            packed <= k,
            bg_height >= i32::MIN + ICON_MARGIN_BOTTOM + ICON_LABEL_HEIGHT + ICON_SIZE,
            forall|q: int| 0 <= q < positions.len() ==> (#[trigger] positions@[q] matches Some((x0, y0)) ==> x0 <= i32::MAX - ICON_SIZE && y0 <= i32::MAX - ICON_SIZE),
            forall|q: int| 0 <= q < k ==> rect_int(#[trigger] r@[q]) == icon_box(positions@, q, bg_height as int),
        decreases positions.len() - k,
    {
        match positions[k] {
            Some((x0, y0)) => {
                r.push((x0, y0, x0 + ICON_SIZE, y0 + ICON_SIZE));
            },
            None => {
                r.push(icon_rect(packed, bg_height));
                packed = packed + 1;
            },
        }
        k = k + 1;
    }
    r
}

/// Packed tray slots sit side by side with a gap between them, never
/// overlapping.
pub proof fn law_slots_disjoint(i: int, j: int, bg_height: int)
    requires
        0 <= i < j,
    ensures
        slot(i, bg_height).2 + ICON_GAP <= slot(j, bg_height).0,
        slot(i, bg_height).1 == slot(j, bg_height).1,
{
    assert(i * (ICON_SIZE + ICON_GAP) + (ICON_SIZE + ICON_GAP) <= j * (ICON_SIZE + ICON_GAP)) by (nonlinear_arith)
        requires
            i < j,
    {
    }
}

// ---------------------------------------------------------------------
// The order of the icon tray
// ---------------------------------------------------------------------

/// The foreign-toplevel state value of a minimized window.
pub const STATE_MINIMIZED: u32 = 1;

/// What the tray reads of one toplevel: its title, its foreign-toplevel
/// states, whether it is on the tray's output, whether its decoration
/// is sticky, and the workspace it is on.
pub struct TrayCandidate {
    pub title: String,
    pub states: Vec<u32>,
    pub on_output: bool,
    pub sticky: bool,
    pub workspace: Option<u32>,
}

/// Whether `c` has an icon in the tray of its output while workspace
/// `active` is shown: it is minimized there and either sticky or on
/// that workspace.
pub open spec fn in_tray(c: TrayCandidate, active: u32) -> bool {
    &&& c.states@.contains(STATE_MINIMIZED)
    &&& c.on_output
    &&& (c.sticky || c.workspace == Some(active))
}

/// Whether candidate `a` is shown before candidate `b`: by title, then,
/// for equal titles, by position among the candidates.
pub open spec fn tray_before(cs: Seq<TrayCandidate>, a: int, b: int) -> bool {
    seq_less(cs[a].title@, cs[b].title@) || (cs[a].title@ == cs[b].title@ && a < b)
}

fn is_minimized(states: &Vec<u32>) -> (r: bool)
    ensures
        r == states@.contains(STATE_MINIMIZED),
{
    let mut k: usize = 0;
    while k < states.len()
        invariant
            k <= states.len(),
            forall|q: int| 0 <= q < k ==> states@[q] != STATE_MINIMIZED,
        decreases states.len() - k,
    {
        if states[k] == STATE_MINIMIZED {
            assert(states@[k as int] == STATE_MINIMIZED);
            return true;
        }
        k = k + 1;
    }
    false
}

/// Candidate `x` goes after the first `p` entries of `r` and before the
/// rest.
proof fn lemma_insert_keeps_order(cs: Seq<TrayCandidate>, r: Seq<usize>, p: int, x: usize)
    requires
        0 <= p <= r.len(),
        x < cs.len(),
        forall|k: int| 0 <= k < r.len() ==> #[trigger] r[k] < x,
        forall|a: int, b: int| 0 <= a < b < r.len() ==> tray_before(cs, #[trigger] r[a] as int, #[trigger] r[b] as int),
        forall|q: int| 0 <= q < p ==> !seq_less(cs[x as int].title@, #[trigger] cs[r[q] as int].title@),
        p < r.len() ==> seq_less(cs[x as int].title@, cs[r[p] as int].title@),
    ensures
        forall|a: int, b: int|
            0 <= a < b < r.len() + 1 ==> tray_before(cs, #[trigger] r.insert(p, x)[a] as int, #[trigger] r.insert(p, x)[b] as int),
{
    let r2 = r.insert(p, x);
    assert forall|a: int, b: int| 0 <= a < b < r.len() + 1 implies tray_before(cs, #[trigger] r2[a] as int, #[trigger] r2[b] as int) by {
        let tx = cs[x as int].title@;
        if a < p && b < p {
            assert(r2[a] == r[a] && r2[b] == r[b]);
        } else if a > p && b > p {
            assert(r2[a] == r[a - 1] && r2[b] == r[b - 1]);
        } else if a > p {
            // b > a > p handled above; here b <= p < a is impossible.
        } else if a < p {
            // r[a] comes before x: not after it in title, and earlier.
            assert(r2[a] == r[a]);
            let ta = cs[r[a] as int].title@;
            crate::text::lemma_seq_less_total(tx, ta);
            if b == p {
                assert(r2[b] == x);
            } else {
                // b > p: r2[b] == r[b - 1], after x.
                assert(r2[b] == r[b - 1]);
                assert(tray_before(cs, r[a] as int, r[b - 1] as int));
            }
        } else {
            // a == p: x itself, before every later entry.
            assert(r2[a] == x);
            assert(r2[b] == r[b - 1]);
            let tp = cs[r[p] as int].title@;
            let tb = cs[r[b - 1] as int].title@;
            if b - 1 > p {
                assert(tray_before(cs, r[p] as int, r[b - 1] as int));
                if seq_less(tp, tb) {
                    crate::text::lemma_seq_less_transitive(tx, tp, tb);
                }
            }
        }
    }
}

/// The toplevels with an icon in an output's tray (see `in_tray`), as
/// indices into `candidates`, in the order the tray shows them: by title
/// in character order (the byte order of their UTF-8 text), toplevels
/// of equal title in the order `candidates` lists them.
pub fn tray_order(candidates: &Vec<TrayCandidate>, active_workspace: u32) -> (r: Vec<usize>)
    ensures
        forall|k: int|
            0 <= k < r.len() ==> #[trigger] r@[k] < candidates.len() && in_tray(
                candidates@[r@[k] as int],
                active_workspace,
            ),
        forall|i: int|
            0 <= i < candidates.len() && in_tray(#[trigger] candidates@[i], active_workspace)
                ==> r@.contains(i as usize),
        forall|a: int, b: int|
            0 <= a < b < r.len() ==> tray_before(candidates@, #[trigger] r@[a] as int, #[trigger] r@[b] as int),
{
    let ghost cs = candidates@;
    let mut titles: Vec<Vec<char>> = Vec::new();
    let mut t: usize = 0;
    while t < candidates.len()
        invariant
            t <= candidates.len(),
            titles.len() == t,
            forall|q: int| 0 <= q < t ==> (#[trigger] titles@[q])@ == candidates@[q].title@,
        decreases candidates.len() - t,
    {
        titles.push(chars_of(candidates[t].title.as_str()));
        t = t + 1;
    }
    let mut r: Vec<usize> = Vec::new();
    let mut x: usize = 0;
    while x < candidates.len()
        invariant
            x <= candidates.len(),
            cs == candidates@,
            titles.len() == candidates.len(),
            forall|q: int| 0 <= q < titles.len() ==> (#[trigger] titles@[q])@ == cs[q].title@,
            forall|k: int| 0 <= k < r.len() ==> #[trigger] r@[k] < x && in_tray(cs[r@[k] as int], active_workspace),
            forall|i: int| 0 <= i < x && in_tray(#[trigger] cs[i], active_workspace) ==> r@.contains(i as usize),
            forall|a: int, b: int| 0 <= a < b < r.len() ==> tray_before(cs, #[trigger] r@[a] as int, #[trigger] r@[b] as int),
        decreases candidates.len() - x,
    {
        let c = &candidates[x];
        let shown = is_minimized(&c.states) && c.on_output && (c.sticky || c.workspace == Some(active_workspace));
        if shown {
            let mut p: usize = 0;
            while p < r.len()
                invariant
                    p <= r.len(),
                    x < titles.len() == cs.len(),
                    forall|q: int| 0 <= q < titles.len() ==> (#[trigger] titles@[q])@ == cs[q].title@,
                    forall|k: int| 0 <= k < r.len() ==> #[trigger] r@[k] < x,
                    forall|q: int| 0 <= q < p ==> !seq_less(cs[x as int].title@, #[trigger] cs[r@[q] as int].title@),
                ensures
                    p <= r.len(),
                    p < r.len() ==> seq_less(cs[x as int].title@, cs[r@[p as int] as int].title@),
                    forall|q: int| 0 <= q < p ==> !seq_less(cs[x as int].title@, #[trigger] cs[r@[q] as int].title@),
                decreases r.len() - p,
            {
                if less_than(&titles[x], &titles[r[p]]) {
                    break;
                }
                p = p + 1;
            }
            proof {
                lemma_insert_keeps_order(cs, r@, p as int, x);
            }
            let ghost old_r = r@;
            r.insert(p, x);
            proof {
                assert forall|k: int| 0 <= k < r.len() implies #[trigger] r@[k] < x + 1 && in_tray(cs[r@[k] as int], active_workspace) by {
                    if k < p {
                        assert(r@[k] == old_r[k]);
                    } else if k > p {
                        assert(r@[k] == old_r[k - 1]);
                    }
                }
                assert forall|i: int| 0 <= i < x + 1 && in_tray(#[trigger] cs[i], active_workspace) implies r@.contains(i as usize) by {
                    if i == x {
                        assert(r@[p as int] == x);
                    } else {
                        assert(old_r.contains(i as usize));
                        let k = choose|k: int| 0 <= k < old_r.len() && old_r[k] == i as usize;
                        if k < p {
                            assert(r@[k] == old_r[k]);
                        } else {
                            assert(r@[k + 1] == old_r[k]);
                        }
                    }
                }
            }
        }
        x = x + 1;
    }
    r
}

} // verus!
