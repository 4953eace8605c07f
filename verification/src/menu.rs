//! Parser for an olwm-compatible root menu config (traditionally
//! `~/.openwin-menu`). A deliberately lenient subset of olwm's menu
//! file format:
//!
//!   ! a comment line                  -- ignored
//!   "Label" TITLE                     -- sets the menu's title (first wins)
//!   "Label" exec <command...>         -- leaf item; <command> runs via `sh -c`
//!   "Label" MENU                      -- opens a submenu; following lines
//!       ...                              are its items, until a line that
//!   END [MENU]                        -- is exactly END (optionally "END MENU")
//!   "Label" EXIT                      -- leaf item; ends the session
//!   "Label" REREAD_MENU_FILE          -- leaf item; reloads the root menu
//!   "Label" INCLUDE <file>            -- submenu whose items come from <file>
//!   "Label" APPMENU                   -- submenu filled from the system's
//!                                        .desktop files (see appmenu.rs)
//!   "Label" DEFAULT <action>          -- any of the above, marked as the
//!                                        menu's default item
//!
//! Unrecognized directives are skipped rather than treated as errors.
//!
//! Reading an `INCLUDE`d file is the caller's business: the parser is a
//! pure function of the text and of a table of the included files known
//! so far ([`Includes`]). When it meets an `INCLUDE` the table does not
//! answer, it stops and names the file it needs ([`IncludeKey`]); the
//! caller reads it, records it, and parses again.
use vstd::prelude::*;
use crate::text::{
    chars_of, is_lit, lines, seqs_of, slice_of, split_lines, string_of, strip_prefix,
    strip_prefix_lit, trim, trim_chars,
};

verus! {

broadcast use vstd::string::group_string_axioms;

/// An INCLUDE chain deeper than this is cut off: a real cycle (A
/// includes B includes A) would otherwise never end, and no legitimate
/// menu nests this deep.
pub const MAX_INCLUDE_DEPTH: usize = 16;

// ---------------------------------------------------------------------
// Types and their mathematical models
// ---------------------------------------------------------------------

#[derive(Debug)]
pub enum MenuNode {
    Item { label: String, command: String },
    /// A nested submenu, from a `MENU`/`END` block or `INCLUDE <file>`;
    /// `default` is the index into `items` of its own DEFAULT item.
    Submenu { label: String, items: Vec<MenuNode>, default: Option<usize> },
    /// Asks for the session to end (after a confirmation notice).
    Exit { label: String },
    /// Reloads the root menu from disk.
    ReloadMenu { label: String },
    /// Placeholder for the application submenu, replaced by
    /// `Menu::expand_appmenus`.
    AppMenu { label: String },
}

#[derive(Debug)]
pub struct Menu {
    pub title: Option<String>,
    pub items: Vec<MenuNode>,
    /// Index into `items` of the item marked `DEFAULT`, if any.
    pub default: Option<usize>,
}

/// The model of a [`MenuNode`].
pub enum MenuEntry {
    Item { label: Seq<char>, command: Seq<char> },
    Submenu { label: Seq<char>, items: Seq<MenuEntry>, default: Option<int> },
    Exit { label: Seq<char> },
    ReloadMenu { label: Seq<char> },
    AppMenu { label: Seq<char> },
}

/// The model of a [`Menu`] (and of a block of menu lines being parsed).
pub struct MenuModel {
    pub title: Option<Seq<char>>,
    pub items: Seq<MenuEntry>,
    pub default: Option<int>,
}

pub open spec fn opt_str(o: Option<String>) -> Option<Seq<char>> {
    match o {
        Some(s) => Some(s@),
        None => None,
    }
}

pub open spec fn opt_index(o: Option<usize>) -> Option<int> {
    match o {
        Some(k) => Some(k as int),
        None => None,
    }
}

pub open spec fn entry_of(n: MenuNode) -> MenuEntry
    decreases n, 0int,
{
    match n {
        MenuNode::Item { label, command } => MenuEntry::Item { label: label@, command: command@ },
        MenuNode::Submenu { label, items, default } => {
            proof {
                assert(decreases_to!(items => items@));
            }
            MenuEntry::Submenu {
                label: label@,
                items: entries_of(items@),
                default: opt_index(default),
            }
        },
        MenuNode::Exit { label } => MenuEntry::Exit { label: label@ },
        MenuNode::ReloadMenu { label } => MenuEntry::ReloadMenu { label: label@ },
        MenuNode::AppMenu { label } => MenuEntry::AppMenu { label: label@ },
    }
}

pub open spec fn entries_of(s: Seq<MenuNode>) -> Seq<MenuEntry>
    decreases s, 1int,
{
    if s.len() == 0 {
        seq![]
    } else {
        entries_of(s.drop_last()).push(entry_of(s.last()))
    }
}

impl View for MenuNode {
    type V = MenuEntry;

    open spec fn view(&self) -> MenuEntry {
        entry_of(*self)
    }
}

impl View for Menu {
    type V = MenuModel;

    open spec fn view(&self) -> MenuModel {
        MenuModel {
            title: opt_str(self.title),
            items: entries_of(self.items@),
            default: opt_index(self.default),
        }
    }
}

pub open spec fn entry_label(e: MenuEntry) -> Seq<char> {
    match e {
        MenuEntry::Item { label, .. } => label,
        MenuEntry::Submenu { label, .. } => label,
        MenuEntry::Exit { label } => label,
        MenuEntry::ReloadMenu { label } => label,
        MenuEntry::AppMenu { label } => label,
    }
}

pub proof fn lemma_entries_of(s: Seq<MenuNode>)
    ensures
        entries_of(s).len() == s.len(),
        forall|i: int| 0 <= i < s.len() ==> #[trigger] entries_of(s)[i] == entry_of(s[i]),
    decreases s.len(),
{
    if s.len() > 0 {
        lemma_entries_of(s.drop_last());
        assert forall|i: int| 0 <= i < s.len() implies #[trigger] entries_of(s)[i] == entry_of(
            s[i],
        ) by {
            if i < s.len() - 1 {
                assert(s.drop_last()[i] == s[i]);
            }
        }
    }
}

pub proof fn lemma_entries_of_push(s: Seq<MenuNode>, n: MenuNode)
    ensures
        entries_of(s.push(n)) == entries_of(s).push(entry_of(n)),
{
    assert(s.push(n).drop_last() == s);
}

// ---------------------------------------------------------------------
// Included files
// ---------------------------------------------------------------------

/// Names an `INCLUDE`d file: the (trimmed) argument of the `INCLUDE`,
/// and the directory of the file that holds the line, if known.
#[derive(Debug, Clone)]
pub struct IncludeKey {
    pub file: String,
    pub base_dir: Option<String>,
}

/// An `INCLUDE`d file that was found and read: its own directory (the
/// base for its own `INCLUDE`s) and its text.
#[derive(Debug, Clone)]
pub struct IncludedFile {
    pub dir: Option<String>,
    pub contents: String,
}

/// What is known of `INCLUDE`d files. Each entry pairs a key with its
/// file, or `None` where the file was not found or could not be read.
/// When `complete` holds, a key with no entry counts as not found.
#[derive(Debug, Clone)]
pub struct Includes {
    pub known: Vec<(IncludeKey, Option<IncludedFile>)>,
    pub complete: bool,
}

pub type KeyModel = (Seq<char>, Option<Seq<char>>);

pub type FileModel = (Option<Seq<char>>, Seq<char>);

pub open spec fn key_of(k: IncludeKey) -> KeyModel {
    (k.file@, opt_str(k.base_dir))
}

pub open spec fn file_of(f: Option<IncludedFile>) -> Option<FileModel> {
    match f {
        Some(f) => Some((opt_str(f.dir), f.contents@)),
        None => None,
    }
}

pub struct IncludesModel {
    pub known: Seq<(KeyModel, Option<FileModel>)>,
    pub complete: bool,
}

impl View for Includes {
    type V = IncludesModel;

    open spec fn view(&self) -> IncludesModel {
        IncludesModel {
            known: Seq::new(
                self.known@.len(),
                |i: int| (key_of(self.known@[i].0), file_of(self.known@[i].1)),
            ),
            complete: self.complete,
        }
    }
}

/// The entry of the first record for `k`, if any: `Some(f)` where `f`
/// is what was found for it.
pub open spec fn lookup(known: Seq<(KeyModel, Option<FileModel>)>, k: KeyModel) -> Option<
    Option<FileModel>,
>
    decreases known.len(),
{
    if known.len() == 0 {
        None
    } else if known[0].0 == k {
        Some(known[0].1)
    } else {
        lookup(known.drop_first(), k)
    }
}

// ---------------------------------------------------------------------
// The grammar
// ---------------------------------------------------------------------

/// A leading `"quoted label"` (`\` escapes the next character), and the
/// rest of the line after the closing quote. `s` is the text after the
/// opening quote.
pub open spec fn scan_label(s: Seq<char>) -> Option<(Seq<char>, Seq<char>)>
    decreases s.len(),
{
    if s.len() == 0 {
        None
    } else if s[0] == '\\' {
        if s.len() < 2 {
            None
        } else {
            match scan_label(s.skip(2)) {
                Some((l, r)) => Some((seq![s[1]] + l, r)),
                None => None,
            }
        }
    } else if s[0] == '"' {
        Some((seq![], s.skip(1)))
    } else {
        match scan_label(s.drop_first()) {
            Some((l, r)) => Some((seq![s[0]] + l, r)),
            None => None,
        }
    }
}

/// `parse_label`: the label of a line that starts with a quote.
pub open spec fn label_of_line(line: Seq<char>) -> Option<(Seq<char>, Seq<char>)> {
    if line.len() > 0 && line[0] == '"' {
        scan_label(line.drop_first())
    } else {
        None
    }
}

/// The action text after a label, and whether it carried the `DEFAULT`
/// modifier.
pub open spec fn split_default(rest: Seq<char>) -> (bool, Seq<char>) {
    match strip_prefix(trim(rest), "DEFAULT "@) {
        Some(after) => (true, trim(after)),
        None => (false, trim(rest)),
    }
}

pub enum Action {
    Title,
    Menu,
    Include(Seq<char>),
    Exec(Seq<char>),
    Exit,
    Reload,
    AppMenu,
    Unsupported,
}

/// What an action text asks for. `Include` carries the file argument
/// untrimmed, `Exec` the trimmed command.
pub open spec fn action_of(act: Seq<char>) -> Action {
    if act == "TITLE"@ {
        Action::Title
    } else if act == "MENU"@ {
        Action::Menu
    } else if strip_prefix(act, "INCLUDE "@) is Some {
        Action::Include(strip_prefix(act, "INCLUDE "@)->0)
    } else if strip_prefix(act, "exec "@) is Some {
        Action::Exec(trim(strip_prefix(act, "exec "@)->0))
    } else if act == "EXIT"@ {
        Action::Exit
    } else if act == "REREAD_MENU_FILE"@ {
        Action::Reload
    } else if act == "APPMENU"@ {
        Action::AppMenu
    } else {
        Action::Unsupported
    }
}

pub open spec fn empty_model() -> MenuModel {
    MenuModel { title: None, items: seq![], default: None }
}

/// `st` with `e` appended, made the default when `is_default`.
pub open spec fn push_entry(st: MenuModel, e: MenuEntry, is_default: bool) -> MenuModel {
    MenuModel {
        title: st.title,
        items: st.items.push(e),
        default: if is_default {
            Some(st.items.len() as int)
        } else {
            st.default
        },
    }
}

/// `st` titled `label`, unless it already has a title (the first wins).
pub open spec fn with_title(st: MenuModel, label: Seq<char>) -> MenuModel {
    if st.title is None {
        MenuModel { title: Some(label), items: st.items, default: st.default }
    } else {
        st
    }
}

pub open spec fn depth_left(depth: int) -> int {
    if depth < MAX_INCLUDE_DEPTH {
        MAX_INCLUDE_DEPTH - depth
    } else {
        0
    }
}

/// Whether an `INCLUDE` of `file` cannot be resolved at all: it is a
/// relative path and the including text has no directory. Such a line
/// is skipped and adds no item.
pub open spec fn unresolvable(file: Seq<char>, base: Option<Seq<char>>) -> bool {
    base is None && !(trim(file).len() > 0 && trim(file)[0] == '/')
}

/// Parses `lines` from index `i` on into `st`, up to and including an
/// `END` line or to the end. `Ok((block, next))` gives the block and the
/// index of the first line after it; `Err(k)` names an included file
/// that `inc` does not answer.
pub open spec fn parse_block(
    ls: Seq<Seq<char>>,
    i: int,
    st: MenuModel,
    base: Option<Seq<char>>,
    depth: int,
    inc: IncludesModel,
) -> Result<(MenuModel, int), KeyModel>
    decreases depth_left(depth), ls.len() - i,
{
    if i < 0 || i >= ls.len() {
        Ok((st, i))
    } else {
        let line = trim(ls[i]);
        if line.len() == 0 || line[0] == '!' {
            parse_block(ls, i + 1, st, base, depth, inc)
        } else if line == "END"@ || line == "END MENU"@ {
            Ok((st, i + 1))
        } else {
            match label_of_line(line) {
                None => parse_block(ls, i + 1, st, base, depth, inc),
                Some((label, rest)) => {
                    let is_default = split_default(rest).0;
                    match action_of(split_default(rest).1) {
                        Action::Title => parse_block(
                            ls,
                            i + 1,
                            with_title(st, label),
                            base,
                            depth,
                            inc,
                        ),
                        Action::Menu => match parse_block(
                            ls,
                            i + 1,
                            empty_model(),
                            base,
                            depth,
                            inc,
                        ) {
                            Err(k) => Err(k),
                            Ok((child, next)) => if i < next <= ls.len() {
                                parse_block(
                                    ls,
                                    next,
                                    push_entry(
                                        st,
                                        MenuEntry::Submenu {
                                            label,
                                            items: child.items,
                                            default: child.default,
                                        },
                                        is_default,
                                    ),
                                    base,
                                    depth,
                                    inc,
                                )
                            } else {
                                Ok((st, ls.len() as int))
                            },
                        },
                        Action::Include(file) => {
                            let key = (trim(file), base);
                            if depth >= MAX_INCLUDE_DEPTH {
                                parse_block(
                                    ls,
                                    i + 1,
                                    push_entry(
                                        st,
                                        MenuEntry::Submenu { label, items: seq![], default: None },
                                        is_default,
                                    ),
                                    base,
                                    depth,
                                    inc,
                                )
                            } else if unresolvable(file, base) {
                                parse_block(ls, i + 1, st, base, depth, inc)
                            } else {
                                match lookup(inc.known, key) {
                                    None => if inc.complete {
                                        parse_block(
                                            ls,
                                            i + 1,
                                            push_entry(
                                                st,
                                                MenuEntry::Submenu {
                                                    label,
                                                    items: seq![],
                                                    default: None,
                                                },
                                                is_default,
                                            ),
                                            base,
                                            depth,
                                            inc,
                                        )
                                    } else {
                                        Err(key)
                                    },
                                    Some(None) => parse_block(
                                        ls,
                                        i + 1,
                                        push_entry(
                                            st,
                                            MenuEntry::Submenu {
                                                label,
                                                items: seq![],
                                                default: None,
                                            },
                                            is_default,
                                        ),
                                        base,
                                        depth,
                                        inc,
                                    ),
                                    Some(Some((dir, text))) => match parse_block(
                                        lines(text),
                                        0,
                                        empty_model(),
                                        dir,
                                        depth + 1,
                                        inc,
                                    ) {
                                        Err(k) => Err(k),
                                        Ok((sub, _)) => parse_block(
                                            ls,
                                            i + 1,
                                            push_entry(
                                                st,
                                                MenuEntry::Submenu {
                                                    label,
                                                    items: sub.items,
                                                    default: sub.default,
                                                },
                                                is_default,
                                            ),
                                            base,
                                            depth,
                                            inc,
                                        ),
                                    },
                                }
                            }
                        },
                        Action::Exec(command) => parse_block(
                            ls,
                            i + 1,
                            push_entry(st, MenuEntry::Item { label, command }, is_default),
                            base,
                            depth,
                            inc,
                        ),
                        Action::Exit => parse_block(
                            ls,
                            i + 1,
                            push_entry(st, MenuEntry::Exit { label }, is_default),
                            base,
                            depth,
                            inc,
                        ),
                        Action::Reload => parse_block(
                            ls,
                            i + 1,
                            push_entry(st, MenuEntry::ReloadMenu { label }, is_default),
                            base,
                            depth,
                            inc,
                        ),
                        Action::AppMenu => parse_block(
                            ls,
                            i + 1,
                            push_entry(st, MenuEntry::AppMenu { label }, is_default),
                            base,
                            depth,
                            inc,
                        ),
                        Action::Unsupported => parse_block(ls, i + 1, st, base, depth, inc),
                    }
                },
            }
        }
    }
}

/// The menu that the lines `ls` describe, read in a file whose
/// directory is `base`, at INCLUDE nesting `depth`; or the included file
/// it needs.
pub open spec fn menu_of_lines(
    ls: Seq<Seq<char>>,
    base: Option<Seq<char>>,
    depth: int,
    inc: IncludesModel,
) -> Result<MenuModel, KeyModel> {
    match parse_block(ls, 0, empty_model(), base, depth, inc) {
        Ok((m, _)) => Ok(m),
        Err(k) => Err(k),
    }
}

/// The menu that `text` describes (see `menu_of_lines`).
pub open spec fn parse_menu(
    text: Seq<char>,
    base: Option<Seq<char>>,
    depth: int,
    inc: IncludesModel,
) -> Result<MenuModel, KeyModel> {
    menu_of_lines(lines(text), base, depth, inc)
}

// ---------------------------------------------------------------------
// Lemmas
// ---------------------------------------------------------------------

/// `prepend_label(acc, r)` is `r` with `acc` put before its label.
pub open spec fn prepend_label(acc: Seq<char>, r: Option<(Seq<char>, Seq<char>)>) -> Option<
    (Seq<char>, Seq<char>),
> {
    match r {
        Some((l, rest)) => Some((acc + l, rest)),
        None => None,
    }
}

pub proof fn lemma_lookup(known: Seq<(KeyModel, Option<FileModel>)>, k: KeyModel, j: int)
    requires
        0 <= j <= known.len(),
        forall|q: int| 0 <= q < j ==> (#[trigger] known[q]).0 != k,
    ensures
        j == known.len() ==> lookup(known, k) is None,
        j < known.len() && known[j].0 == k ==> lookup(known, k) == Some(known[j].1),
    decreases j,
{
    if j > 0 {
        let t = known.drop_first();
        assert forall|q: int| 0 <= q < j - 1 implies (#[trigger] t[q]).0 != k by {
            assert(t[q] == known[q + 1]);
        }
        if j - 1 < t.len() {
            assert(t[j - 1] == known[j]);
        }
        lemma_lookup(t, k, j - 1);
    }
}

// ---------------------------------------------------------------------
// Executable code
// ---------------------------------------------------------------------

fn copy_string(s: &String) -> (r: String)
    ensures
        r@ == s@,
{
    s.clone()
}

fn copy_opt_string(o: &Option<String>) -> (r: Option<String>)
    ensures
        opt_str(r) == opt_str(*o),
{
    match o {
        Some(s) => Some(copy_string(s)),
        None => None,
    }
}

fn opt_string_eq(a: &Option<String>, b: &Option<String>) -> (r: bool)
    ensures
        r == (opt_str(*a) == opt_str(*b)),
{
    match (a, b) {
        (Some(x), Some(y)) => {
            let e = *x == *y;
            e
        },
        (None, None) => true,
        _ => false,
    }
}

impl MenuNode {
    /// The row text of this node.
    pub fn label(&self) -> (r: &str)
        ensures
            r@ == entry_label(self@),
    {
        match self {
            MenuNode::Item { label, .. } => label.as_str(),
            MenuNode::Submenu { label, .. } => label.as_str(),
            MenuNode::Exit { label } => label.as_str(),
            MenuNode::ReloadMenu { label } => label.as_str(),
            MenuNode::AppMenu { label } => label.as_str(),
        }
    }
}

impl Includes {
    /// Index of the first record for `key`, if any.
    pub fn find(&self, key: &IncludeKey) -> (r: Option<usize>)
        ensures
            r matches Some(j) ==> j < self.known@.len() && lookup(self@.known, key_of(*key))
                == Some(self@.known[j as int].1),
            r is None ==> lookup(self@.known, key_of(*key)) is None,
    {
        let ghost known = self@.known;
        let mut j: usize = 0;
        while j < self.known.len()
            invariant
                j <= self.known.len(),
                known == self@.known,
                known.len() == self.known@.len(),
                forall|q: int| 0 <= q < j ==> (#[trigger] known[q]).0 != key_of(*key),
            decreases self.known.len() - j,
        {
            let k = &self.known[j].0;
            if k.file == key.file && opt_string_eq(&k.base_dir, &key.base_dir) {
                proof {
                    assert(known[j as int].0 == key_of(*key));
                    lemma_lookup(known, key_of(*key), j as int);
                }
                return Some(j);
            }
            assert(known[j as int].0 != key_of(*key));
            j = j + 1;
        }
        proof {
            lemma_lookup(known, key_of(*key), j as int);
        }
        None
    }
}

/// `parse_label`: splits a leading quoted label off `line`.
fn parse_label(line: &Vec<char>) -> (r: Option<(Vec<char>, Vec<char>)>)
    ensures
        r matches Some((l, rest)) ==> label_of_line(line@) == Some((l@, rest@)),
        r is None ==> label_of_line(line@) is None,
{
    if line.len() == 0 || line[0] != '"' {
        return None;
    }
    let ghost s = line@.drop_first();
    let mut label: Vec<char> = Vec::new();
    let mut i: usize = 1;
    assert(line@.skip(1) == s);
    while i < line.len()
        invariant
            1 <= i <= line.len(),
            line@[0] == '"',
            s == line@.drop_first(),
            scan_label(s) == prepend_label(label@, scan_label(line@.skip(i as int))),
        decreases line.len() - i,
    {
        let ghost t = line@.skip(i as int);
        assert(t[0] == line@[i as int]);
        if line[i] == '\\' {
            if i + 1 < line.len() {
                assert(t[1] == line@[i + 1]);
                assert(t.skip(2) == line@.skip(i + 2));
                let ghost before = label@;
                label.push(line[i + 1]);
                assert(label@ == before.push(t[1]));
                proof {
                    if scan_label(t.skip(2)) is Some {
                        assert(before + (seq![t[1]] + scan_label(t.skip(2)).unwrap().0) =~= label@
                            + scan_label(t.skip(2)).unwrap().0);
                    }
                }
                i = i + 2;
            } else {
                assert(t.len() == 1);
                return None;
            }
        } else if line[i] == '"' {
            let rest = slice_of(line, i + 1, line.len());
            assert(t.skip(1) == rest@);
            assert(t.len() > 0 && t[0] == '"');
            assert(scan_label(t) == Some((Seq::<char>::empty(), t.skip(1))));
            assert(label@ + Seq::<char>::empty() =~= label@);
            assert(scan_label(s) == Some((label@, rest@)));
            return Some((label, rest));
        } else {
            assert(t.drop_first() == line@.skip(i + 1));
            let ghost before = label@;
            label.push(line[i]);
            assert(label@ == before.push(t[0]));
            proof {
                if scan_label(t.drop_first()) is Some {
                    assert(before + (seq![t[0]] + scan_label(t.drop_first()).unwrap().0) =~= label@
                        + scan_label(t.drop_first()).unwrap().0);
                }
            }
            i = i + 1;
        }
    }
    assert(line@.skip(i as int).len() == 0);
    None
}

/// The action text after a label, and whether it was marked `DEFAULT`.
fn split_default_chars(rest: &Vec<char>) -> (r: (bool, Vec<char>))
    ensures
        split_default(rest@) == (r.0, r.1@),
{
    let r = trim_chars(rest);
    match strip_prefix_lit(&r, "DEFAULT ") {
        Some(after) => (true, trim_chars(&after)),
        None => (false, r),
    }
}

impl Menu {
    fn empty() -> (m: Menu)
        ensures
            m@ == empty_model(),
    {
        let m = Menu { title: None, items: Vec::new(), default: None };
        assert(entries_of(m.items@) =~= Seq::<MenuEntry>::empty());
        m
    }

    fn push_node(&mut self, node: MenuNode, is_default: bool)
        ensures
            final(self)@ == push_entry(old(self)@, node@, is_default),
    {
        proof {
            lemma_entries_of(self.items@);
            lemma_entries_of_push(self.items@, node);
        }
        if is_default {
            self.default = Some(self.items.len());
        }
        self.items.push(node);
    }
}

/// Parses the block of `ls` that starts at line `start` (see the spec
/// function of the same name).
fn parse_block_lines(
    ls: &Vec<Vec<char>>,
    start: usize,
    base: &Option<String>,
    depth: usize,
    inc: &Includes,
) -> (r: Result<(Menu, usize), IncludeKey>)
    requires
        start <= ls.len(),
    ensures
        match r {
            Ok((m, next)) => {
                &&& parse_block(
                    seqs_of(ls@),
                    start as int,
                    empty_model(),
                    opt_str(*base),
                    depth as int,
                    inc@,
                ) == Ok::<(MenuModel, int), KeyModel>((m@, next as int))
                &&& start <= next <= ls.len()
            },
            Err(k) => {
                &&& parse_block(
                    seqs_of(ls@),
                    start as int,
                    empty_model(),
                    opt_str(*base),
                    depth as int,
                    inc@,
                ) == Err::<(MenuModel, int), KeyModel>(key_of(k))
                &&& !inc.complete
                &&& lookup(inc@.known, key_of(k)) is None
            },
        },
    decreases depth_left(depth as int), ls.len() - start,
{
    let ghost L = seqs_of(ls@);
    let ghost b = opt_str(*base);
    let ghost d = depth as int;
    let ghost spec_all = parse_block(L, start as int, empty_model(), b, d, inc@);
    let mut st = Menu::empty();
    let mut i = start;
    while i < ls.len()
        invariant
            start <= i <= ls.len(),
            L == seqs_of(ls@),
            L.len() == ls.len(),
            b == opt_str(*base),
            d == depth as int,
            spec_all == parse_block(L, start as int, empty_model(), b, d, inc@),
            spec_all == parse_block(L, i as int, st@, b, d, inc@),
        decreases ls.len() - i,
    {
        assert(L[i as int] == ls@[i as int]@);
        let line = trim_chars(&ls[i]);
        if line.len() == 0 || line[0] == '!' {
            i = i + 1;
            continue;
        }
        if is_lit(&line, "END") || is_lit(&line, "END MENU") {
            return Ok((st, i + 1));
        }
        match parse_label(&line) {
            None => {
                i = i + 1;
            },
            Some((label_chars, rest)) => {
                let (is_default, act) = split_default_chars(&rest);
                let label = string_of(&label_chars);
                if is_lit(&act, "TITLE") {
                    if st.title.is_none() {
                        st.title = Some(label);
                    }
                    i = i + 1;
                } else if is_lit(&act, "MENU") {
                    match parse_block_lines(ls, i + 1, base, depth, inc) {
                        Err(k) => {
                            return Err(k);
                        },
                        Ok((child, next)) => {
                            st.push_node(
                                MenuNode::Submenu {
                                    label,
                                    items: child.items,
                                    default: child.default,
                                },
                                is_default,
                            );
                            i = next;
                        },
                    }
                } else if let Some(file) = strip_prefix_lit(&act, "INCLUDE ") {
                    let fname = trim_chars(&file);
                    if depth < MAX_INCLUDE_DEPTH && base.is_none() && !(fname.len() > 0 && fname[0] == '/') {
                        i = i + 1;
                        continue;
                    }
                    let key = IncludeKey {
                        file: string_of(&fname),
                        base_dir: copy_opt_string(base),
                    };
                    let sub = if depth >= MAX_INCLUDE_DEPTH {
                        Menu::empty()
                    } else {
                        match inc.find(&key) {
                            None => {
                                if inc.complete {
                                    Menu::empty()
                                } else {
                                    return Err(key);
                                }
                            },
                            Some(j) => match &inc.known[j].1 {
                                None => Menu::empty(),
                                Some(f) => {
                                    let text = chars_of(f.contents.as_str());
                                    let sub_lines = split_lines(&text);
                                    match parse_block_lines(&sub_lines, 0, &f.dir, depth + 1, inc) {
                                        Err(k) => {
                                            return Err(k);
                                        },
                                        Ok((m, _)) => m,
                                    }
                                },
                            },
                        }
                    };
                    st.push_node(
                        MenuNode::Submenu { label, items: sub.items, default: sub.default },
                        is_default,
                    );
                    i = i + 1;
                } else if let Some(command) = strip_prefix_lit(&act, "exec ") {
                    let command = string_of(&trim_chars(&command));
                    st.push_node(MenuNode::Item { label, command }, is_default);
                    i = i + 1;
                } else if is_lit(&act, "EXIT") {
                    st.push_node(MenuNode::Exit { label }, is_default);
                    i = i + 1;
                } else if is_lit(&act, "REREAD_MENU_FILE") {
                    st.push_node(MenuNode::ReloadMenu { label }, is_default);
                    i = i + 1;
                } else if is_lit(&act, "APPMENU") {
                    st.push_node(MenuNode::AppMenu { label }, is_default);
                    i = i + 1;
                } else {
                    i = i + 1;
                }
            },
        }
    }
    Ok((st, i))
}

impl Menu {
    /// Parses menu `contents` read from a file in directory `base_dir`,
    /// at INCLUDE nesting `depth`, taking included files from
    /// `includes`. `Err(key)` names an included file that `includes`
    /// does not answer yet (never one it already records).
    pub fn parse_inner(contents: &str, base_dir: &Option<String>, depth: usize, includes: &Includes) -> (r: Result<Menu, IncludeKey>)
        ensures
            r matches Ok(m) ==> parse_menu(contents@, opt_str(*base_dir), depth as int, includes@) == Ok::<MenuModel, KeyModel>(m@),
            r matches Err(k) ==> {
                &&& parse_menu(contents@, opt_str(*base_dir), depth as int, includes@) == Err::<MenuModel, KeyModel>(key_of(k))
                &&& !includes.complete
                &&& lookup(includes@.known, key_of(k)) is None
            },
    {
        let text = chars_of(contents);
        let ls = split_lines(&text);
        match parse_block_lines(&ls, 0, base_dir, depth, includes) {
            Ok((m, _)) => Ok(m),
            Err(k) => Err(k),
        }
    }

    /// Parses menu text with no base directory and no included files: a
    /// relative `INCLUDE` cannot be resolved without a directory, so it is
    /// skipped and adds no item (see `unresolvable`); an absolute one
    /// becomes an empty submenu.
    pub fn parse(contents: &str) -> (r: Result<Menu, String>)
        ensures
            r matches Ok(m) && parse_menu(contents@, None, 0, IncludesModel { known: seq![], complete: true }) == Ok::<MenuModel, KeyModel>(m@),
    {
        let includes = Includes { known: Vec::new(), complete: true };
        assert(includes@.known =~= seq![]);
        match Menu::parse_inner(contents, &None, 0, &includes) {
            Ok(m) => Ok(m),
            Err(_) => Ok(Menu::empty()),
        }
    }
}

// ---------------------------------------------------------------------
// The built-in menu, and expanding the application submenu
// ---------------------------------------------------------------------

/// The menu used when no config file exists: a DEFAULT application
/// submenu, a terminal, Reread Menu File, and Exit....
pub open spec fn default_menu_model() -> MenuModel {
    MenuModel {
        title: Some("Workspace"@),
        items: seq![
            MenuEntry::AppMenu { label: "Programs"@ },
            MenuEntry::Item { label: "Terminal"@, command: "konsole --separate"@ },
            MenuEntry::ReloadMenu { label: "Reread Menu File"@ },
            MenuEntry::Exit { label: "Exit..."@ },
        ],
        default: Some(0),
    }
}

/// `e` with every application placeholder in it replaced by a submenu
/// of the same label holding `secs`.
pub open spec fn expand_entry(e: MenuEntry, secs: Seq<MenuEntry>) -> MenuEntry
    decreases e, 0int,
{
    match e {
        MenuEntry::AppMenu { label } => MenuEntry::Submenu { label, items: secs, default: None },
        MenuEntry::Submenu { label, items, default } => MenuEntry::Submenu {
            label,
            items: expand_entries(items, secs),
            default,
        },
        _ => e,
    }
}

pub open spec fn expand_entries(s: Seq<MenuEntry>, secs: Seq<MenuEntry>) -> Seq<MenuEntry>
    decreases s, 1int,
{
    if s.len() == 0 {
        seq![]
    } else {
        expand_entries(s.drop_last(), secs).push(expand_entry(s.last(), secs))
    }
}

/// Whether no application placeholder occurs anywhere in `e`.
pub open spec fn entry_expanded(e: MenuEntry) -> bool
    decreases e, 0int,
{
    match e {
        MenuEntry::AppMenu { .. } => false,
        MenuEntry::Submenu { items, .. } => entries_expanded(items),
        _ => true,
    }
}

pub open spec fn entries_expanded(s: Seq<MenuEntry>) -> bool
    decreases s, 1int,
{
    s.len() == 0 || (entries_expanded(s.drop_last()) && entry_expanded(s.last()))
}

/// Whether `default` is absent or an index into a list of `len` items.
pub open spec fn default_ok(len: int, default: Option<int>) -> bool {
    default matches Some(k) ==> 0 <= k < len
}

/// Whether every DEFAULT index in `e` points at an item of its menu.
pub open spec fn entry_wf(e: MenuEntry) -> bool
    decreases e, 0int,
{
    match e {
        MenuEntry::Submenu { items, default, .. } => default_ok(items.len() as int, default)
            && entries_wf(items),
        _ => true,
    }
}

pub open spec fn entries_wf(s: Seq<MenuEntry>) -> bool
    decreases s, 1int,
{
    s.len() == 0 || (entries_wf(s.drop_last()) && entry_wf(s.last()))
}

/// Whether every DEFAULT index in `m` points at an item of its menu.
pub open spec fn menu_wf(m: MenuModel) -> bool {
    default_ok(m.items.len() as int, m.default) && entries_wf(m.items)
}

pub proof fn lemma_expand_entries(s: Seq<MenuEntry>, secs: Seq<MenuEntry>)
    ensures
        expand_entries(s, secs).len() == s.len(),
        forall|i: int|
            0 <= i < s.len() ==> #[trigger] expand_entries(s, secs)[i] == expand_entry(s[i], secs),
    decreases s.len(),
{
    if s.len() > 0 {
        lemma_expand_entries(s.drop_last(), secs);
        assert forall|i: int| 0 <= i < s.len() implies #[trigger] expand_entries(s, secs)[i]
            == expand_entry(s[i], secs) by {
            if i < s.len() - 1 {
                assert(s.drop_last()[i] == s[i]);
            }
        }
    }
}

pub proof fn lemma_entries_push(s: Seq<MenuEntry>, e: MenuEntry)
    ensures
        entries_wf(s.push(e)) == (entries_wf(s) && entry_wf(e)),
        entries_expanded(s.push(e)) == (entries_expanded(s) && entry_expanded(e)),
{
    assert(s.push(e).drop_last() == s);
}

pub proof fn lemma_entries_empty(s: Seq<MenuEntry>)
    requires
        s.len() == 0,
    ensures
        entries_wf(s),
        entries_expanded(s),
{
}

fn owned(s: &str) -> (r: String)
    ensures
        r@ == s@,
{
    s.to_string()
}

fn copy_node(n: &MenuNode) -> (r: MenuNode)
    ensures
        r@ == n@,
    decreases n, 0int,
{
    match n {
        MenuNode::Item { label, command } => MenuNode::Item {
            label: copy_string(label),
            command: copy_string(command),
        },
        MenuNode::Submenu { label, items, default } => MenuNode::Submenu {
            label: copy_string(label),
            items: copy_nodes(items),
            default: *default,
        },
        MenuNode::Exit { label } => MenuNode::Exit { label: copy_string(label) },
        MenuNode::ReloadMenu { label } => MenuNode::ReloadMenu { label: copy_string(label) },
        MenuNode::AppMenu { label } => MenuNode::AppMenu { label: copy_string(label) },
    }
}

fn copy_nodes(v: &Vec<MenuNode>) -> (r: Vec<MenuNode>)
    ensures
        entries_of(r@) == entries_of(v@),
    decreases v, 1int,
{
    let mut r: Vec<MenuNode> = Vec::new();
    let mut i: usize = 0;
    while i < v.len()
        invariant
            i <= v.len(),
            entries_of(r@) == entries_of(v@.take(i as int)),
        decreases v.len() - i,
    {
        proof {
            assert(decreases_to!(v => v@));
            assert(decreases_to!(v@ => v@[i as int]));
        }
        let n = copy_node(&v[i]);
        proof {
            lemma_entries_of_push(r@, n);
            assert(v@.take(i + 1).drop_last() == v@.take(i as int));
        }
        r.push(n);
        i = i + 1;
    }
    assert(v@.take(v.len() as int) == v@);
    r
}

fn expand_node(n: &MenuNode, secs: &Vec<MenuNode>) -> (r: MenuNode)
    ensures
        r@ == expand_entry(n@, entries_of(secs@)),
    decreases n, 0int,
{
    match n {
        MenuNode::AppMenu { label } => MenuNode::Submenu {
            label: copy_string(label),
            items: copy_nodes(secs),
            default: None,
        },
        MenuNode::Submenu { label, items, default } => MenuNode::Submenu {
            label: copy_string(label),
            items: expand_nodes(items, secs),
            default: *default,
        },
        _ => copy_node(n),
    }
}

fn expand_nodes(v: &Vec<MenuNode>, secs: &Vec<MenuNode>) -> (r: Vec<MenuNode>)
    ensures
        entries_of(r@) == expand_entries(entries_of(v@), entries_of(secs@)),
    decreases v, 1int,
{
    let ghost sv = entries_of(secs@);
    let mut r: Vec<MenuNode> = Vec::new();
    let mut i: usize = 0;
    while i < v.len()
        invariant
            i <= v.len(),
            sv == entries_of(secs@),
            entries_of(r@) == expand_entries(entries_of(v@.take(i as int)), sv),
        decreases v.len() - i,
    {
        proof {
            assert(decreases_to!(v => v@));
            assert(decreases_to!(v@ => v@[i as int]));
        }
        let n = expand_node(&v[i], secs);
        proof {
            lemma_entries_of_push(r@, n);
            let t = v@.take(i + 1);
            assert(t.drop_last() == v@.take(i as int));
            lemma_entries_of_push(v@.take(i as int), v@[i as int]);
            assert(t == v@.take(i as int).push(v@[i as int]));
            let et = entries_of(t);
            assert(et.drop_last() == entries_of(v@.take(i as int)));
            assert(et.last() == entry_of(v@[i as int]));
        }
        r.push(n);
        i = i + 1;
    }
    assert(v@.take(v.len() as int) == v@);
    r
}

impl Menu {
    /// The built-in menu used when no config file exists.
    pub fn default_menu() -> (m: Menu)
        ensures
            m@ == default_menu_model(),
    {
        let mut items: Vec<MenuNode> = Vec::new();
        items.push(MenuNode::AppMenu { label: owned("Programs") });
        items.push(MenuNode::Item { label: owned("Terminal"), command: owned("konsole --separate") });
        items.push(MenuNode::ReloadMenu { label: owned("Reread Menu File") });
        items.push(MenuNode::Exit { label: owned("Exit...") });
        let m = Menu { title: Some(owned("Workspace")), items, default: Some(0) };
        proof {
            reveal_with_fuel(entries_of, 5);
            assert(m.items@.drop_last().drop_last().drop_last().drop_last() =~= Seq::<MenuNode>::empty());
            assert(entries_of(m.items@) =~= default_menu_model().items);
        }
        m
    }

    /// Replaces every application placeholder in the tree (top level and
    /// inside any submenu) with a submenu of the same label holding
    /// `sections`, the category submenus built from the installed
    /// applications (see `appmenu::generate_from`).
    pub fn expand_appmenus(&mut self, sections: &Vec<MenuNode>)
        ensures
            final(self)@ == (MenuModel {
                title: old(self)@.title,
                items: expand_entries(old(self)@.items, entries_of(sections@)),
                default: old(self)@.default,
            }),
    {
        let items = expand_nodes(&self.items, sections);
        self.items = items;
    }
}

// ---------------------------------------------------------------------
// Laws
// ---------------------------------------------------------------------

proof fn lemma_push_entry_wf(st: MenuModel, e: MenuEntry, is_default: bool)
    requires
        menu_wf(st),
        entry_wf(e),
    ensures
        menu_wf(push_entry(st, e, is_default)),
{
    lemma_entries_push(st.items, e);
}

proof fn lemma_parse_block_wf(
    ls: Seq<Seq<char>>,
    i: int,
    st: MenuModel,
    base: Option<Seq<char>>,
    depth: int,
    inc: IncludesModel,
)
    requires
        menu_wf(st),
    ensures
        parse_block(ls, i, st, base, depth, inc) matches Ok((m, _)) ==> menu_wf(m),
    decreases depth_left(depth), ls.len() - i,
{
    if i < 0 || i >= ls.len() {
    } else {
        let line = trim(ls[i]);
        if line.len() == 0 || line[0] == '!' {
            lemma_parse_block_wf(ls, i + 1, st, base, depth, inc);
        } else if line == "END"@ || line == "END MENU"@ {
        } else {
            match label_of_line(line) {
                None => lemma_parse_block_wf(ls, i + 1, st, base, depth, inc),
                Some((label, rest)) => {
                    let is_default = split_default(rest).0;
                    let empty_sub = MenuEntry::Submenu { label, items: seq![], default: None };
                    assert(entry_wf(empty_sub));
                    match action_of(split_default(rest).1) {
                        Action::Title => lemma_parse_block_wf(
                            ls,
                            i + 1,
                            with_title(st, label),
                            base,
                            depth,
                            inc,
                        ),
                        Action::Menu => {
                            assert(menu_wf(empty_model()));
                            lemma_parse_block_wf(ls, i + 1, empty_model(), base, depth, inc);
                            match parse_block(ls, i + 1, empty_model(), base, depth, inc) {
                                Err(k) => {},
                                Ok((child, next)) => if i < next <= ls.len() {
                                    let e = MenuEntry::Submenu {
                                        label,
                                        items: child.items,
                                        default: child.default,
                                    };
                                    lemma_push_entry_wf(st, e, is_default);
                                    lemma_parse_block_wf(
                                        ls,
                                        next,
                                        push_entry(st, e, is_default),
                                        base,
                                        depth,
                                        inc,
                                    );
                                },
                            }
                        },
                        Action::Include(file) => {
                            let key = (trim(file), base);
                            lemma_push_entry_wf(st, empty_sub, is_default);
                            if depth >= MAX_INCLUDE_DEPTH {
                                lemma_parse_block_wf(
                                    ls,
                                    i + 1,
                                    push_entry(st, empty_sub, is_default),
                                    base,
                                    depth,
                                    inc,
                                );
                            } else if unresolvable(file, base) {
                                lemma_parse_block_wf(ls, i + 1, st, base, depth, inc);
                            } else {
                                match lookup(inc.known, key) {
                                    None => if inc.complete {
                                        lemma_parse_block_wf(
                                            ls,
                                            i + 1,
                                            push_entry(st, empty_sub, is_default),
                                            base,
                                            depth,
                                            inc,
                                        );
                                    },
                                    Some(None) => lemma_parse_block_wf(
                                        ls,
                                        i + 1,
                                        push_entry(st, empty_sub, is_default),
                                        base,
                                        depth,
                                        inc,
                                    ),
                                    Some(Some((dir, text))) => {
                                        assert(menu_wf(empty_model()));
                                        lemma_parse_block_wf(
                                            lines(text),
                                            0,
                                            empty_model(),
                                            dir,
                                            depth + 1,
                                            inc,
                                        );
                                        match parse_block(
                                            lines(text),
                                            0,
                                            empty_model(),
                                            dir,
                                            depth + 1,
                                            inc,
                                        ) {
                                            Err(k) => {},
                                            Ok((sub, _)) => {
                                                let e = MenuEntry::Submenu {
                                                    label,
                                                    items: sub.items,
                                                    default: sub.default,
                                                };
                                                lemma_push_entry_wf(st, e, is_default);
                                                lemma_parse_block_wf(
                                                    ls,
                                                    i + 1,
                                                    push_entry(st, e, is_default),
                                                    base,
                                                    depth,
                                                    inc,
                                                );
                                            },
                                        }
                                    },
                                }
                            }
                        },
                        Action::Exec(command) => {
                            lemma_push_entry_wf(st, MenuEntry::Item { label, command }, is_default);
                            lemma_parse_block_wf(
                                ls,
                                i + 1,
                                push_entry(st, MenuEntry::Item { label, command }, is_default),
                                base,
                                depth,
                                inc,
                            );
                        },
                        Action::Exit => {
                            lemma_push_entry_wf(st, MenuEntry::Exit { label }, is_default);
                            lemma_parse_block_wf(
                                ls,
                                i + 1,
                                push_entry(st, MenuEntry::Exit { label }, is_default),
                                base,
                                depth,
                                inc,
                            );
                        },
                        Action::Reload => {
                            lemma_push_entry_wf(st, MenuEntry::ReloadMenu { label }, is_default);
                            lemma_parse_block_wf(
                                ls,
                                i + 1,
                                push_entry(st, MenuEntry::ReloadMenu { label }, is_default),
                                base,
                                depth,
                                inc,
                            );
                        },
                        Action::AppMenu => {
                            lemma_push_entry_wf(st, MenuEntry::AppMenu { label }, is_default);
                            lemma_parse_block_wf(
                                ls,
                                i + 1,
                                push_entry(st, MenuEntry::AppMenu { label }, is_default),
                                base,
                                depth,
                                inc,
                            );
                        },
                        Action::Unsupported => lemma_parse_block_wf(
                            ls,
                            i + 1,
                            st,
                            base,
                            depth,
                            inc,
                        ),
                    }
                },
            }
        }
    }
}

/// Every DEFAULT index of a parsed menu, and of each of its submenus,
/// points at an item of that same menu.
pub proof fn law_parsed_defaults_in_range(
    text: Seq<char>,
    base: Option<Seq<char>>,
    depth: int,
    inc: IncludesModel,
)
    ensures
        parse_menu(text, base, depth, inc) matches Ok(m) ==> menu_wf(m),
{
    assert(menu_wf(empty_model()));
    lemma_parse_block_wf(lines(text), 0, empty_model(), base, depth, inc);
}

proof fn lemma_expand_entry(e: MenuEntry, secs: Seq<MenuEntry>)
    requires
        entries_expanded(secs),
        entries_wf(secs),
    ensures
        entry_expanded(expand_entry(e, secs)),
        entry_wf(e) ==> entry_wf(expand_entry(e, secs)),
        entry_label(expand_entry(e, secs)) == entry_label(e),
    decreases e, 0int,
{
    match e {
        MenuEntry::Submenu { label, items, default } => {
            lemma_expand_entries_props(items, secs);
            lemma_expand_entries(items, secs);
        },
        _ => {},
    }
}

proof fn lemma_expand_entries_props(s: Seq<MenuEntry>, secs: Seq<MenuEntry>)
    requires
        entries_expanded(secs),
        entries_wf(secs),
    ensures
        entries_expanded(expand_entries(s, secs)),
        entries_wf(s) ==> entries_wf(expand_entries(s, secs)),
    decreases s, 1int,
{
    if s.len() > 0 {
        lemma_expand_entries_props(s.drop_last(), secs);
        lemma_expand_entry(s.last(), secs);
        lemma_entries_push(expand_entries(s.drop_last(), secs), expand_entry(s.last(), secs));
    }
}

/// Expanding the application placeholders (with sections that hold none
/// themselves) leaves none anywhere in the menu, keeps every item in its
/// place under its own label, keeps the DEFAULT indices, and keeps every
/// DEFAULT index in range.
pub proof fn law_expand_replaces_every_placeholder(m: MenuModel, secs: Seq<MenuEntry>)
    requires
        entries_expanded(secs),
        entries_wf(secs),
    ensures
        entries_expanded(expand_entries(m.items, secs)),
        expand_entries(m.items, secs).len() == m.items.len(),
        forall|i: int|
            0 <= i < m.items.len() ==> entry_label(#[trigger] expand_entries(m.items, secs)[i])
                == entry_label(m.items[i]),
        menu_wf(m) ==> menu_wf(
            MenuModel { title: m.title, items: expand_entries(m.items, secs), default: m.default },
        ),
{
    lemma_expand_entries_props(m.items, secs);
    lemma_expand_entries(m.items, secs);
    assert forall|i: int| 0 <= i < m.items.len() implies entry_label(
        #[trigger] expand_entries(m.items, secs)[i],
    ) == entry_label(m.items[i]) by {
        lemma_expand_entry(m.items[i], secs);
    }
}

// ---------------------------------------------------------------------
// Loading the root menu
// ---------------------------------------------------------------------

// ---------------------------------------------------------------------
// Blank and comment lines
// ---------------------------------------------------------------------

/// Whether the parser skips `l` as a blank line or a `!` comment.
pub open spec fn is_comment_line(l: Seq<char>) -> bool {
    trim(l).len() == 0 || trim(l)[0] == '!'
}

/// `r` with the index of the next line moved on by `d`.
spec fn shift_block(r: Result<(MenuModel, int), KeyModel>, d: int) -> Result<
    (MenuModel, int),
    KeyModel,
> {
    match r {
        Ok((m, n)) => Ok((m, n + d)),
        Err(k) => Err(k),
    }
}

/// `r2` parses the same as `r`, after a line was inserted at `j`: the
/// index of the next line is one more when the parse got past `j`.
spec fn same_but_for_line(
    r: Result<(MenuModel, int), KeyModel>,
    r2: Result<(MenuModel, int), KeyModel>,
    j: int,
) -> bool {
    match r {
        Err(k) => r2 == Err::<(MenuModel, int), KeyModel>(k),
        Ok((m, n)) => (n <= j && r2 == Ok::<(MenuModel, int), KeyModel>((m, n))) || (n >= j && r2
            == Ok::<(MenuModel, int), KeyModel>((m, n + 1))),
    }
}

/// Whether `r`, if it parsed, ends at a line index in `lo..=hi`.
spec fn next_within(r: Result<(MenuModel, int), KeyModel>, lo: int, hi: int) -> bool {
    r matches Ok((_, n)) ==> lo <= n <= hi
}

/// One step of `parse_block` at line `i`: its result, or where it goes
/// on and with what menu so far.
pub enum Step {
    Done(Result<(MenuModel, int), KeyModel>),
    Next(int, MenuModel),
}

pub open spec fn block_step(
    ls: Seq<Seq<char>>,
    i: int,
    st: MenuModel,
    base: Option<Seq<char>>,
    depth: int,
    inc: IncludesModel,
) -> Step {
    let line = trim(ls[i]);
    if line.len() == 0 || line[0] == '!' {
        Step::Next(i + 1, st)
    } else if line == "END"@ || line == "END MENU"@ {
        Step::Done(Ok((st, i + 1)))
    } else {
        match label_of_line(line) {
            None => Step::Next(i + 1, st),
            Some((label, rest)) => {
                let is_default = split_default(rest).0;
                let empty_sub = MenuEntry::Submenu { label, items: seq![], default: None };
                match action_of(split_default(rest).1) {
                    Action::Title => Step::Next(i + 1, with_title(st, label)),
                    Action::Menu => match parse_block(ls, i + 1, empty_model(), base, depth, inc) {
                        Err(k) => Step::Done(Err(k)),
                        Ok((child, next)) => if i < next <= ls.len() {
                            Step::Next(
                                next,
                                push_entry(
                                    st,
                                    MenuEntry::Submenu {
                                        label,
                                        items: child.items,
                                        default: child.default,
                                    },
                                    is_default,
                                ),
                            )
                        } else {
                            Step::Done(Ok((st, ls.len() as int)))
                        },
                    },
                    Action::Include(file) => {
                        let key = (trim(file), base);
                        if depth >= MAX_INCLUDE_DEPTH {
                            Step::Next(i + 1, push_entry(st, empty_sub, is_default))
                        } else if unresolvable(file, base) {
                            Step::Next(i + 1, st)
                        } else {
                            match lookup(inc.known, key) {
                                None => if inc.complete {
                                    Step::Next(i + 1, push_entry(st, empty_sub, is_default))
                                } else {
                                    Step::Done(Err(key))
                                },
                                Some(None) => Step::Next(i + 1, push_entry(st, empty_sub, is_default)),
                                Some(Some((dir, text))) => match parse_block(
                                    lines(text),
                                    0,
                                    empty_model(),
                                    dir,
                                    depth + 1,
                                    inc,
                                ) {
                                    Err(k) => Step::Done(Err(k)),
                                    Ok((sub, _)) => Step::Next(
                                        i + 1,
                                        push_entry(
                                            st,
                                            MenuEntry::Submenu {
                                                label,
                                                items: sub.items,
                                                default: sub.default,
                                            },
                                            is_default,
                                        ),
                                    ),
                                },
                            }
                        }
                    },
                    Action::Exec(command) => Step::Next(
                        i + 1,
                        push_entry(st, MenuEntry::Item { label, command }, is_default),
                    ),
                    Action::Exit => Step::Next(i + 1, push_entry(st, MenuEntry::Exit { label }, is_default)),
                    Action::Reload => Step::Next(
                        i + 1,
                        push_entry(st, MenuEntry::ReloadMenu { label }, is_default),
                    ),
                    Action::AppMenu => Step::Next(
                        i + 1,
                        push_entry(st, MenuEntry::AppMenu { label }, is_default),
                    ),
                    Action::Unsupported => Step::Next(i + 1, st),
                }
            },
        }
    }
}

proof fn lemma_step(
    ls: Seq<Seq<char>>,
    i: int,
    st: MenuModel,
    base: Option<Seq<char>>,
    depth: int,
    inc: IncludesModel,
)
    requires
        0 <= i < ls.len(),
    ensures
        parse_block(ls, i, st, base, depth, inc) == match block_step(ls, i, st, base, depth, inc) {
            Step::Done(r) => r,
            Step::Next(n, s) => parse_block(ls, n, s, base, depth, inc),
        },
{
}

proof fn lemma_block_bounds(
    ls: Seq<Seq<char>>,
    i: int,
    base: Option<Seq<char>>,
    depth: int,
    inc: IncludesModel,
)
    requires
        0 <= i <= ls.len(),
    ensures
        forall|st: MenuModel|
            next_within(#[trigger] parse_block(ls, i, st, base, depth, inc), i, ls.len() as int),
    decreases depth_left(depth), ls.len() - i,
{
    if i < ls.len() {
        lemma_block_bounds(ls, i + 1, base, depth, inc);
        match parse_block(ls, i + 1, empty_model(), base, depth, inc) {
            Ok((_, next)) => if i < next <= ls.len() {
                lemma_block_bounds(ls, next, base, depth, inc);
            },
            Err(_) => {},
        }
        assert forall|st: MenuModel|
            next_within(#[trigger] parse_block(ls, i, st, base, depth, inc), i, ls.len() as int) by {
            lemma_step(ls, i, st, base, depth, inc);
        }
    }
}

/// Parsing from `i` in `ls` is parsing from `i + d` in `ls2` when the
/// lines from there on are the same.
proof fn lemma_block_offset(
    ls: Seq<Seq<char>>,
    ls2: Seq<Seq<char>>,
    d: int,
    i: int,
    base: Option<Seq<char>>,
    depth: int,
    inc: IncludesModel,
)
    requires
        0 <= d,
        0 <= i <= ls.len(),
        ls2.len() == ls.len() + d,
        forall|k: int| i + d <= k < ls2.len() ==> #[trigger] ls2[k] == ls[k - d],
    ensures
        forall|st: MenuModel|
            #![trigger parse_block(ls, i, st, base, depth, inc)]
            parse_block(ls2, i + d, st, base, depth, inc) == shift_block(
                parse_block(ls, i, st, base, depth, inc),
                d,
            ),
    decreases depth_left(depth), ls.len() - i,
{
    if i < ls.len() {
        assert(ls2[i + d] == ls[i]);
        lemma_block_offset(ls, ls2, d, i + 1, base, depth, inc);
        match parse_block(ls, i + 1, empty_model(), base, depth, inc) {
            Ok((_, next)) => if i < next <= ls.len() {
                lemma_block_offset(ls, ls2, d, next, base, depth, inc);
            },
            Err(_) => {},
        }
        assert forall|st: MenuModel|
            #![trigger parse_block(ls, i, st, base, depth, inc)]
            parse_block(ls2, i + d, st, base, depth, inc) == shift_block(
                parse_block(ls, i, st, base, depth, inc),
                d,
            ) by {
            lemma_step(ls, i, st, base, depth, inc);
            lemma_step(ls2, i + d, st, base, depth, inc);
        }
    }
}

proof fn lemma_comment_ahead(
    ls: Seq<Seq<char>>,
    c: Seq<char>,
    j: int,
    i: int,
    base: Option<Seq<char>>,
    depth: int,
    inc: IncludesModel,
)
    requires
        is_comment_line(c),
        0 <= i <= j <= ls.len(),
    ensures
        forall|st: MenuModel|
            #![trigger parse_block(ls, i, st, base, depth, inc)]
            same_but_for_line(
                parse_block(ls, i, st, base, depth, inc),
                parse_block(ls.insert(j, c), i, st, base, depth, inc),
                j,
            ),
    decreases depth_left(depth), ls.len() - i,
{
    let ls2 = ls.insert(j, c);
    assert(ls2.len() == ls.len() + 1);
    assert(ls2[j] == c);
    assert forall|k: int| 0 <= k < j implies #[trigger] ls2[k] == ls[k] by {}
    assert forall|k: int| j + 1 <= k < ls2.len() implies #[trigger] ls2[k] == ls[k - 1] by {}
    lemma_block_offset(ls, ls2, 1, j, base, depth, inc);
    lemma_block_bounds(ls, j, base, depth, inc);
    if i < j {
        assert(ls2[i] == ls[i]);
        lemma_comment_ahead(ls, c, j, i + 1, base, depth, inc);
        lemma_block_bounds(ls, i + 1, base, depth, inc);
        match (
            parse_block(ls, i + 1, empty_model(), base, depth, inc),
            parse_block(ls2, i + 1, empty_model(), base, depth, inc),
        ) {
            (Ok((_, next)), Ok((_, next2))) => {
                if next2 == next {
                    lemma_comment_ahead(ls, c, j, next, base, depth, inc);
                } else {
                    lemma_block_offset(ls, ls2, 1, next, base, depth, inc);
                    lemma_block_bounds(ls, next, base, depth, inc);
                }
            },
            _ => {},
        }
        assert forall|st: MenuModel|
            #![trigger parse_block(ls, i, st, base, depth, inc)]
            same_but_for_line(
                parse_block(ls, i, st, base, depth, inc),
                parse_block(ls2, i, st, base, depth, inc),
                j,
            ) by {
            lemma_step(ls, i, st, base, depth, inc);
            lemma_step(ls2, i, st, base, depth, inc);
        }
    } else {
        assert forall|st: MenuModel|
            #![trigger parse_block(ls, i, st, base, depth, inc)]
            same_but_for_line(
                parse_block(ls, i, st, base, depth, inc),
                parse_block(ls2, i, st, base, depth, inc),
                j,
            ) by {
            lemma_step(ls2, i, st, base, depth, inc);
        }
    }
}

// ---------------------------------------------------------------------
// Where a DEFAULT comes from
// ---------------------------------------------------------------------

/// Whether line `l` is a labelled line whose action carries the
/// `DEFAULT` modifier.
pub open spec fn carries_default(l: Seq<char>) -> bool {
    label_of_line(trim(l)) matches Some((_, rest)) && split_default(rest).0
}

/// The indices of the lines that produced the items of the block parsed
/// from line `i` on into `st`, after `og` for the items `st` already
/// holds: each line that adds an item contributes its own index.
pub open spec fn item_lines(
    ls: Seq<Seq<char>>,
    i: int,
    st: MenuModel,
    og: Seq<int>,
    base: Option<Seq<char>>,
    depth: int,
    inc: IncludesModel,
) -> Seq<int>
    decreases depth_left(depth), ls.len() - i,
{
    if i < 0 || i >= ls.len() {
        og
    } else {
        match block_step(ls, i, st, base, depth, inc) {
            Step::Done(_) => og,
            Step::Next(n, s) => if i < n <= ls.len() {
                item_lines(
                    ls,
                    n,
                    s,
                    if s.items.len() > st.items.len() {
                        og.push(i)
                    } else {
                        og
                    },
                    base,
                    depth,
                    inc,
                )
            } else {
                og
            },
        }
    }
}

/// What a menu block parsed so far says of its origin lines: one per
/// item, each a line of `ls`, and the DEFAULT item's line carries the
/// modifier.
pub open spec fn origins_ok(ls: Seq<Seq<char>>, m: MenuModel, og: Seq<int>) -> bool {
    &&& og.len() == m.items.len()
    &&& forall|q: int| 0 <= q < og.len() ==> 0 <= #[trigger] og[q] < ls.len()
    &&& m.default matches Some(k) ==> 0 <= k < og.len() && carries_default(ls[og[k]])
}

proof fn lemma_step_shape(
    ls: Seq<Seq<char>>,
    i: int,
    st: MenuModel,
    base: Option<Seq<char>>,
    depth: int,
    inc: IncludesModel,
)
    requires
        0 <= i < ls.len(),
    ensures
        block_step(ls, i, st, base, depth, inc) matches Step::Next(n, s) ==> {
            ||| (s.items == st.items && s.default == st.default)
            ||| (s.items.len() == st.items.len() + 1 && s.items.drop_last() == st.items && (s.default
                == st.default || (s.default == Some(st.items.len() as int) && carries_default(ls[i]))))
        },
        block_step(ls, i, st, base, depth, inc) matches Step::Done(r) ==> (r matches Ok((m, _)) ==> m == st),
{
}

proof fn lemma_item_lines(
    ls: Seq<Seq<char>>,
    i: int,
    st: MenuModel,
    og: Seq<int>,
    base: Option<Seq<char>>,
    depth: int,
    inc: IncludesModel,
)
    requires
        0 <= i <= ls.len(),
        origins_ok(ls, st, og),
    ensures
        parse_block(ls, i, st, base, depth, inc) matches Ok((m, _)) ==> origins_ok(
            ls,
            m,
            item_lines(ls, i, st, og, base, depth, inc),
        ),
    decreases depth_left(depth), ls.len() - i,
{
    if i < ls.len() {
        lemma_step(ls, i, st, base, depth, inc);
        lemma_step_shape(ls, i, st, base, depth, inc);
        match block_step(ls, i, st, base, depth, inc) {
            Step::Done(_) => {},
            Step::Next(n, s) => {
                if i < n <= ls.len() {
                    let og2 = if s.items.len() > st.items.len() {
                        og.push(i)
                    } else {
                        og
                    };
                    assert(origins_ok(ls, s, og2)) by {
                        if s.items.len() > st.items.len() {
                            assert(og2.last() == i);
                            assert forall|q: int| 0 <= q < og2.len() implies 0 <= #[trigger] og2[q] < ls.len() by {
                                if q < og.len() {
                                    assert(og2[q] == og[q]);
                                }
                            }
                            if s.default != st.default {
                                assert(og2[st.items.len() as int] == i);
                            } else if st.default is Some {
                                let k = st.default->0;
                                assert(og2[k] == og[k]);
                            }
                        }
                    }
                    lemma_item_lines(ls, n, s, og2, base, depth, inc);
                } else {
                    lemma_block_bounds(ls, i + 1, base, depth, inc);
                }
            },
        }
    }
}

/// The DEFAULT item of a parsed menu comes from a line that carries the
/// `DEFAULT` modifier: `item_lines` gives, for each top-level item, the
/// line it was read from, and the DEFAULT item's line has the modifier.
pub proof fn law_default_from_default_line(
    ls: Seq<Seq<char>>,
    base: Option<Seq<char>>,
    depth: int,
    inc: IncludesModel,
)
    ensures
        menu_of_lines(ls, base, depth, inc) matches Ok(m) ==> origins_ok(
            ls,
            m,
            item_lines(ls, 0, empty_model(), seq![], base, depth, inc),
        ),
{
    lemma_item_lines(ls, 0, empty_model(), seq![], base, depth, inc);
}

/// A blank or comment line, inserted anywhere among a menu file's
/// lines, changes nothing the parser reads from them.
pub proof fn law_comment_lines_ignored(
    ls: Seq<Seq<char>>,
    j: int,
    c: Seq<char>,
    base: Option<Seq<char>>,
    depth: int,
    inc: IncludesModel,
)
    requires
        is_comment_line(c),
        0 <= j <= ls.len(),
    ensures
        menu_of_lines(ls.insert(j, c), base, depth, inc) == menu_of_lines(ls, base, depth, inc),
{
    lemma_comment_ahead(ls, c, j, 0, base, depth, inc);
    assert(same_but_for_line(
        parse_block(ls, 0, empty_model(), base, depth, inc),
        parse_block(ls.insert(j, c), 0, empty_model(), base, depth, inc),
        j,
    ));
}

/// The menu file to read: `$OLWC_MENU` if set, else `$HOME/.openwin-menu`.
pub open spec fn config_path(olwc_menu: Option<Seq<char>>, home: Option<Seq<char>>) -> Option<Seq<char>> {
    match olwc_menu {
        Some(p) => Some(p),
        None => match home {
            Some(h) => Some(crate::icon_theme::path_join(h, ".openwin-menu"@)),
            None => None,
        },
    }
}

/// The menu file to read, given the values of `OLWC_MENU` and `HOME`.
pub fn menu_config_path(olwc_menu: &Option<String>, home: &Option<String>) -> (r: Option<String>)
    ensures
        opt_str(r) == config_path(opt_str(*olwc_menu), opt_str(*home)),
{
    match olwc_menu {
        Some(p) => Some(copy_string(p)),
        None => match home {
            Some(h) => Some(crate::icon_theme::join_path(h.as_str(), ".openwin-menu")),
            None => None,
        },
    }
}

impl Menu {
    /// The root menu: the menu parsed from the config file if there is
    /// one and it could be read (`parsed`), else the built-in default;
    /// either way with every application placeholder expanded into
    /// `sections`.
    pub fn load_default(parsed: Option<Menu>, sections: &Vec<MenuNode>) -> (m: Menu)
        ensures
            ({
                let base = match parsed {
                    Some(p) => p@,
                    None => default_menu_model(),
                };
                m@ == (MenuModel {
                    title: base.title,
                    items: expand_entries(base.items, entries_of(sections@)),
                    default: base.default,
                })
            }),
    {
        let mut menu = match parsed {
            Some(p) => p,
            None => Menu::default_menu(),
        };
        menu.expand_appmenus(sections);
        menu
    }
}

// ---------------------------------------------------------------------
// Quoting labels
// ---------------------------------------------------------------------

/// `l` as it is written between the quotes of a menu line: each `"`
/// and `\` preceded by a `\`.
pub open spec fn escape_label(l: Seq<char>) -> Seq<char>
    decreases l.len(),
{
    if l.len() == 0 {
        seq![]
    } else if l[0] == '"' || l[0] == '\\' {
        seq!['\\', l[0]] + escape_label(l.drop_first())
    } else {
        seq![l[0]] + escape_label(l.drop_first())
    }
}

proof fn lemma_scan_escaped(l: Seq<char>, rest: Seq<char>)
    ensures
        scan_label(escape_label(l) + seq!['"'] + rest) == Some((l, rest)),
    decreases l.len(),
{
    let s = escape_label(l) + seq!['"'] + rest;
    if l.len() == 0 {
        assert(s =~= seq!['"'] + rest);
        assert(s.skip(1) =~= rest);
        assert(Seq::<char>::empty() =~= l);
    } else {
        lemma_scan_escaped(l.drop_first(), rest);
        let t = escape_label(l.drop_first()) + seq!['"'] + rest;
        if l[0] == '"' || l[0] == '\\' {
            assert(s =~= seq!['\\', l[0]] + t);
            assert(s.skip(2) =~= t);
            assert(seq![l[0]] + l.drop_first() =~= l);
        } else {
            assert(s =~= seq![l[0]] + t);
            assert(s.drop_first() =~= t);
            assert(seq![l[0]] + l.drop_first() =~= l);
        }
    }
}

/// A label written with its quotes and backslashes escaped reads back
/// as itself, whatever follows the closing quote.
pub proof fn law_label_escape_round_trip(l: Seq<char>, rest: Seq<char>)
    ensures
        label_of_line(seq!['"'] + escape_label(l) + seq!['"'] + rest) == Some((l, rest)),
{
    let line = seq!['"'] + escape_label(l) + seq!['"'] + rest;
    assert(line.drop_first() =~= escape_label(l) + seq!['"'] + rest);
    lemma_scan_escaped(l, rest);
}

/// `$OLWC_MENU`, when set, names the menu file read, whatever `HOME`
/// is; only when it is unset is `.openwin-menu` in `$HOME` read, and
/// with neither set no file is.
pub proof fn law_olwc_menu_wins(olwc_menu: Option<Seq<char>>, home: Option<Seq<char>>)
    ensures
        olwc_menu matches Some(p) ==> config_path(olwc_menu, home) == Some(p),
        olwc_menu is None && home is Some ==> config_path(olwc_menu, home) == Some(
            crate::icon_theme::path_join(home->0, ".openwin-menu"@),
        ),
        olwc_menu is None && home is None ==> config_path(olwc_menu, home) is None,
{
}

} // verus!
