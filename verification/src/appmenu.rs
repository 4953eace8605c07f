//! Builds a category-grouped submenu of the installed applications from
//! XDG `.desktop` files -- the stand-in for a hand-maintained `Programs`
//! submenu, reached from a `"Programs" APPMENU` line (see menu.rs).
//!
//! A lenient subset of the freedesktop Desktop Entry and Menu specs: it
//! ignores OnlyShowIn/NotShowIn, localized `Name[xx]` keys, D-Bus
//! activation, and the Menu spec's `.directory` files.
//!
//! Listing directories, reading files and testing for installed
//! binaries is the caller's business; this module decides which files
//! to read, what each one says, and how the menu is laid out.
use vstd::prelude::*;
use crate::menu::{entries_of, entry_of, MenuEntry, MenuNode};
use crate::text::{
    chars_of, find, find_char, is_lit, is_ws, join_spaced, join_with_spaces, lines, no_ws, seq_less, seqs_of,
    slice_of, split_lines, split_nonempty, split_nonempty_chars, split_words, string_of, trim,
    trim_chars, words,
};

verus! {

// ---------------------------------------------------------------------
// Exec field codes
// ---------------------------------------------------------------------

/// A standalone Flatpak argument wrapper: `@@` or `@@` plus one ASCII
/// letter.
pub open spec fn flatpak_placeholder(tok: Seq<char>) -> bool {
    ||| tok == seq!['@', '@']
    ||| (tok.len() == 3 && tok[0] == '@' && tok[1] == '@' && (('a' <= tok[2] && tok[2] <= 'z')
        || ('A' <= tok[2] && tok[2] <= 'Z')))
}

/// One token with its `%` field codes dropped: `%%` becomes `%`, `%`
/// and any other next character vanish, a stray trailing `%` vanishes.
pub open spec fn strip_percent(s: Seq<char>) -> Seq<char>
    decreases s.len(),
{
    if s.len() == 0 {
        seq![]
    } else if s[0] != '%' {
        seq![s[0]] + strip_percent(s.drop_first())
    } else if s.len() >= 2 {
        if s[1] == '%' {
            seq!['%'] + strip_percent(s.skip(2))
        } else {
            strip_percent(s.skip(2))
        }
    } else {
        seq![]
    }
}

/// The tokens that remain of `ws`: placeholders dropped, field codes
/// stripped, tokens left empty dropped.
pub open spec fn kept_tokens(ws: Seq<Seq<char>>) -> Seq<Seq<char>>
    decreases ws.len(),
{
    if ws.len() == 0 {
        seq![]
    } else {
        let w = ws.last();
        if !flatpak_placeholder(w) && strip_percent(w).len() > 0 {
            kept_tokens(ws.drop_last()).push(strip_percent(w))
        } else {
            kept_tokens(ws.drop_last())
        }
    }
}

/// A Desktop Entry `Exec` string with its argument placeholders
/// removed and the whitespace between the remaining tokens collapsed.
pub open spec fn stripped_exec(exec: Seq<char>) -> Seq<char> {
    join_spaced(kept_tokens(words(exec)))
}

pub fn is_flatpak_placeholder(tok: &Vec<char>) -> (r: bool)
    ensures
        r == flatpak_placeholder(tok@),
{
    if tok.len() == 2 {
        let r = tok[0] == '@' && tok[1] == '@';
        assert(r ==> tok@ =~= seq!['@', '@']);
        r
    } else {
        tok.len() == 3 && tok[0] == '@' && tok[1] == '@' && (('a' <= tok[2] && tok[2] <= 'z') || (
        'A' <= tok[2] && tok[2] <= 'Z'))
    }
}

/// Drops `%` field codes from one token.
pub fn strip_percent_codes(tok: &Vec<char>) -> (r: Vec<char>)
    ensures
        r@ == strip_percent(tok@),
{
    let mut out: Vec<char> = Vec::new();
    let mut i: usize = 0;
    assert(tok@.skip(0) == tok@);
    while i < tok.len()
        invariant
            i <= tok.len(),
            strip_percent(tok@) == out@ + strip_percent(tok@.skip(i as int)),
        decreases tok.len() - i,
    {
        let ghost t = tok@.skip(i as int);
        assert(t[0] == tok@[i as int]);
        if tok[i] != '%' {
            assert(t.drop_first() == tok@.skip(i + 1));
            let ghost before = out@;
            out.push(tok[i]);
            assert(before + (seq![t[0]] + strip_percent(t.drop_first())) =~= out@ + strip_percent(
                t.drop_first(),
            ));
            i = i + 1;
        } else if i + 1 < tok.len() {
            assert(t[1] == tok@[i + 1]);
            assert(t.skip(2) == tok@.skip(i + 2));
            if tok[i + 1] == '%' {
                let ghost before = out@;
                out.push('%');
                assert(before + (seq!['%'] + strip_percent(t.skip(2))) =~= out@ + strip_percent(
                    t.skip(2),
                ));
            }
            i = i + 2;
        } else {
            assert(tok@.skip(i + 1).len() == 0);
            assert(strip_percent(t) =~= Seq::<char>::empty());
            i = i + 1;
        }
    }
    assert(tok@.skip(i as int).len() == 0);
    assert(out@ + strip_percent(tok@.skip(i as int)) =~= out@);
    out
}

/// Strips the argument placeholders out of a Desktop Entry `Exec`
/// string so what is left just launches the application: the `%` field
/// codes and Flatpak's `@@` / `@@u` wrappers.
pub fn strip_field_codes(exec: &str) -> (r: String)
    ensures
        r@ == stripped_exec(exec@),
{
    let v = chars_of(exec);
    let ws = split_words(&v);
    let mut kept: Vec<Vec<char>> = Vec::new();
    let mut i: usize = 0;
    while i < ws.len()
        invariant
            i <= ws.len(),
            seqs_of(kept@) == kept_tokens(seqs_of(ws@).take(i as int)),
        decreases ws.len() - i,
    {
        let ghost t = seqs_of(ws@).take(i + 1);
        assert(t.drop_last() =~= seqs_of(ws@).take(i as int));
        assert(t.last() == ws@[i as int]@);
        if !is_flatpak_placeholder(&ws[i]) {
            let s = strip_percent_codes(&ws[i]);
            if s.len() > 0 {
                let ghost prev = seqs_of(kept@);
                kept.push(s);
                assert(seqs_of(kept@) =~= prev.push(s@));
            }
        }
        i = i + 1;
    }
    assert(seqs_of(ws@).take(ws.len() as int) =~= seqs_of(ws@));
    let joined = join_with_spaces(&kept);
    string_of(&joined)
}

// ---------------------------------------------------------------------
// Desktop entries
// ---------------------------------------------------------------------

/// One application found in a `.desktop` file. `try_exec` is the
/// binary its `TryExec` key names, when not empty: the entry is only to
/// be shown if that binary is installed, which the caller checks.
#[derive(Debug, Clone)]
pub struct DesktopApp {
    pub name: String,
    pub command: String,
    pub categories: Vec<String>,
    pub try_exec: Option<String>,
}

pub struct AppModel {
    pub name: Seq<char>,
    pub command: Seq<char>,
    pub categories: Seq<Seq<char>>,
    pub try_exec: Option<Seq<char>>,
}

pub open spec fn strs_of(v: Seq<String>) -> Seq<Seq<char>> {
    Seq::new(v.len(), |i: int| v[i]@)
}

impl View for DesktopApp {
    type V = AppModel;

    open spec fn view(&self) -> AppModel {
        AppModel {
            name: self.name@,
            command: self.command@,
            categories: strs_of(self.categories@),
            try_exec: match self.try_exec {
                Some(t) => Some(t@),
                None => None,
            },
        }
    }
}

/// What the `[Desktop Entry]` group of a file says, read so far.
pub struct EntryScan {
    pub in_entry: bool,
    pub seen: bool,
    pub name: Option<Seq<char>>,
    pub command: Option<Seq<char>>,
    pub kind: Option<Seq<char>>,
    pub try_exec: Option<Seq<char>>,
    pub categories: Seq<Seq<char>>,
    pub no_display: bool,
    pub hidden: bool,
}

pub open spec fn scan_start() -> EntryScan {
    EntryScan {
        in_entry: false,
        seen: false,
        name: None,
        command: None,
        kind: None,
        try_exec: None,
        categories: seq![],
        no_display: false,
        hidden: false,
    }
}

/// One `key=value` line of the `[Desktop Entry]` group applied to `st`
/// (a later line for the same key overrides an earlier one).
pub open spec fn scan_key(st: EntryScan, key: Seq<char>, value: Seq<char>) -> EntryScan {
    if key == "Name"@ {
        EntryScan { name: Some(value), ..st }
    } else if key == "Exec"@ {
        EntryScan { command: Some(value), ..st }
    } else if key == "Type"@ {
        EntryScan { kind: Some(value), ..st }
    } else if key == "TryExec"@ {
        EntryScan { try_exec: Some(value), ..st }
    } else if key == "NoDisplay"@ {
        EntryScan { no_display: value == "true"@, ..st }
    } else if key == "Hidden"@ {
        EntryScan { hidden: value == "true"@, ..st }
    } else if key == "Categories"@ {
        EntryScan { categories: split_nonempty(value, ';'), ..st }
    } else {
        st
    }
}

/// One line of a `.desktop` file applied to `st`: a group header opens
/// the first `[Desktop Entry]` group (`seen` from then on) or closes it,
/// and a later `[Desktop Entry]` header does not open it again; blank
/// lines, comments, lines outside that group and lines without `=`
/// change nothing.
pub open spec fn scan_line(st: EntryScan, raw: Seq<char>) -> EntryScan {
    let line = trim(raw);
    if line.len() > 0 && line[0] == '[' {
        let opens = line == "[Desktop Entry]"@ && !st.seen;
        EntryScan { in_entry: opens, seen: st.seen || opens, ..st }
    } else if !st.in_entry || line.len() == 0 || line[0] == '#' {
        st
    } else {
        match find_char(line, '=') {
            None => st,
            Some(k) => scan_key(st, trim(line.take(k)), trim(line.skip(k + 1))),
        }
    }
}

pub open spec fn scan_lines(ls: Seq<Seq<char>>) -> EntryScan
    decreases ls.len(),
{
    if ls.len() == 0 {
        scan_start()
    } else {
        scan_line(scan_lines(ls.drop_last()), ls.last())
    }
}

/// The application a `.desktop` file describes, or `None` for anything
/// that should not appear in a menu: a type other than `Application`,
/// `NoDisplay=true` or `Hidden=true`, a missing or empty `Name`, or an
/// `Exec` that is missing or empty once its placeholders are stripped.
pub open spec fn desktop_app(contents: Seq<char>) -> Option<AppModel> {
    let st = scan_lines(lines(contents));
    if st.hidden || st.no_display {
        None
    } else if st.kind matches Some(t) && t != "Application"@ {
        None
    } else if !(st.name matches Some(n) && n.len() > 0) {
        None
    } else if st.command is None || stripped_exec(st.command->0).len() == 0 {
        None
    } else {
        Some(
            AppModel {
                name: st.name->0,
                command: stripped_exec(st.command->0),
                categories: st.categories,
                try_exec: if st.try_exec matches Some(t) && t.len() > 0 {
                    st.try_exec
                } else {
                    None
                },
            },
        )
    }
}

struct Scan {
    in_entry: bool,
    seen: bool,
    name: Option<Vec<char>>,
    command: Option<Vec<char>>,
    kind: Option<Vec<char>>,
    try_exec: Option<Vec<char>>,
    categories: Vec<Vec<char>>,
    no_display: bool,
    hidden: bool,
}

spec fn opt_chars(o: Option<Vec<char>>) -> Option<Seq<char>> {
    match o {
        Some(v) => Some(v@),
        None => None,
    }
}

impl View for Scan {
    type V = EntryScan;

    closed spec fn view(&self) -> EntryScan {
        EntryScan {
            in_entry: self.in_entry,
            seen: self.seen,
            name: opt_chars(self.name),
            command: opt_chars(self.command),
            kind: opt_chars(self.kind),
            try_exec: opt_chars(self.try_exec),
            categories: seqs_of(self.categories@),
            no_display: self.no_display,
            hidden: self.hidden,
        }
    }
}

fn strings_of(v: &Vec<Vec<char>>) -> (r: Vec<String>)
    ensures
        strs_of(r@) == seqs_of(v@),
{
    let mut r: Vec<String> = Vec::new();
    let mut i: usize = 0;
    while i < v.len()
        invariant
            i <= v.len(),
            r.len() == i,
            strs_of(r@) == seqs_of(v@).take(i as int),
        decreases v.len() - i,
    {
        let ghost prev = r@;
        let s = string_of(&v[i]);
        r.push(s);
        assert forall|j: int| 0 <= j < i + 1 implies #[trigger] strs_of(r@)[j] == seqs_of(v@).take(
            i + 1,
        )[j] by {
            if j < i {
                assert(r@[j] == prev[j]);
                assert(strs_of(prev)[j] == seqs_of(v@).take(i as int)[j]);
            }
        }
        assert(strs_of(r@) =~= seqs_of(v@).take(i + 1));
        i = i + 1;
    }
    assert(seqs_of(v@).take(v.len() as int) =~= seqs_of(v@));
    r
}

impl DesktopApp {
    /// Parses one `.desktop` file's `[Desktop Entry]` group.
    pub fn parse(contents: &str) -> (r: Option<DesktopApp>)
        ensures
            r matches Some(a) ==> desktop_app(contents@) == Some(a@),
            r is None ==> desktop_app(contents@) is None,
    {
        let text = chars_of(contents);
        let ls = split_lines(&text);
        let mut st = Scan {
            in_entry: false,
            seen: false,
            name: None,
            command: None,
            kind: None,
            try_exec: None,
            categories: Vec::new(),
            no_display: false,
            hidden: false,
        };
        assert(st@ =~= scan_start()) by {
            assert(seqs_of(st.categories@) =~= Seq::<Seq<char>>::empty());
        }
        let mut i: usize = 0;
        while i < ls.len()
            invariant
                i <= ls.len(),
                st@ == scan_lines(seqs_of(ls@).take(i as int)),
            decreases ls.len() - i,
        {
            let ghost t = seqs_of(ls@).take(i + 1);
            assert(t.drop_last() =~= seqs_of(ls@).take(i as int));
            assert(t.last() == ls@[i as int]@);
            let ghost before = st@;
            let line = trim_chars(&ls[i]);
            if line.len() > 0 && line[0] == '[' {
                let opens = is_lit(&line, "[Desktop Entry]") && !st.seen;
                st.in_entry = opens;
                st.seen = st.seen || opens;
                assert(st@ =~= scan_line(before, ls@[i as int]@));
            } else if !st.in_entry || line.len() == 0 || line[0] == '#' {
            } else {
                match find(&line, '=') {
                    None => {},
                    Some(k) => {
                        proof {
                            crate::text::lemma_find_char_props(line@, '=');
                        }
                        let key = trim_chars(&slice_of(&line, 0, k));
                        let value = trim_chars(&slice_of(&line, k + 1, line.len()));
                        assert(line@.take(k as int) == line@.subrange(0, k as int));
                        assert(line@.skip(k + 1) == line@.subrange(k + 1, line@.len() as int));
                        if is_lit(&key, "Name") {
                            st.name = Some(value);
                        } else if is_lit(&key, "Exec") {
                            st.command = Some(value);
                        } else if is_lit(&key, "Type") {
                            st.kind = Some(value);
                        } else if is_lit(&key, "TryExec") {
                            st.try_exec = Some(value);
                        } else if is_lit(&key, "NoDisplay") {
                            st.no_display = is_lit(&value, "true");
                        } else if is_lit(&key, "Hidden") {
                            st.hidden = is_lit(&value, "true");
                        } else if is_lit(&key, "Categories") {
                            st.categories = split_nonempty_chars(&value, ';');
                        }
                        assert(st@ =~= scan_line(before, ls@[i as int]@));
                    },
                }
            }
            i = i + 1;
        }
        assert(seqs_of(ls@).take(ls.len() as int) =~= seqs_of(ls@));
        if st.hidden || st.no_display {
            return None;
        }
        match &st.kind {
            Some(t) => {
                if !is_lit(t, "Application") {
                    return None;
                }
            },
            None => {},
        }
        let name = match &st.name {
            Some(n) => {
                if n.len() == 0 {
                    return None;
                }
                string_of(n)
            },
            None => {
                return None;
            },
        };
        let command = match &st.command {
            Some(e) => strip_field_codes(string_of(e).as_str()),
            None => {
                return None;
            },
        };
        if command.as_str().is_empty() {
            return None;
        }
        let try_exec = match &st.try_exec {
            Some(t) => if t.len() > 0 {
                Some(string_of(t))
            } else {
                None
            },
            None => None,
        };
        Some(DesktopApp { name, command, categories: strings_of(&st.categories), try_exec })
    }
}

// ---------------------------------------------------------------------
// Category buckets
// ---------------------------------------------------------------------

/// Number of category buckets before the catch-all `Other` one.
pub const CATEGORY_COUNT: usize = 10;

/// The freedesktop `Categories` values that map to bucket `i`. Buckets
/// are tried in index order, so the more specific ones come first and
/// the broad catch-alls (Utility, System) last.
pub open spec fn bucket_keys(i: int) -> Seq<Seq<char>> {
    if i == 0 {
        seq!["Development"@]
    } else if i == 1 {
        seq!["Graphics"@]
    } else if i == 2 {
        seq!["AudioVideo"@, "Audio"@, "Video"@]
    } else if i == 3 {
        seq!["Game"@]
    } else if i == 4 {
        seq!["Office"@]
    } else if i == 5 {
        seq!["Science"@]
    } else if i == 6 {
        seq!["Education"@]
    } else if i == 7 {
        seq!["Network"@]
    } else if i == 8 {
        seq!["System"@, "Settings"@]
    } else if i == 9 {
        seq!["Utility"@]
    } else {
        seq![]
    }
}

/// The menu label of bucket `i` (`CATEGORY_COUNT` is `Other`).
pub open spec fn bucket_label(i: int) -> Seq<char> {
    if i == 0 {
        "Development"@
    } else if i == 1 {
        "Graphics"@
    } else if i == 2 {
        "Multimedia"@
    } else if i == 3 {
        "Games"@
    } else if i == 4 {
        "Office"@
    } else if i == 5 {
        "Science"@
    } else if i == 6 {
        "Education"@
    } else if i == 7 {
        "Internet"@
    } else if i == 8 {
        "System"@
    } else if i == 9 {
        "Accessories"@
    } else {
        "Other"@
    }
}

/// Whether one of `cats` maps to bucket `i`.
pub open spec fn in_bucket(cats: Seq<Seq<char>>, i: int) -> bool {
    exists|j: int| 0 <= j < cats.len() && bucket_keys(i).contains(#[trigger] cats[j])
}

/// The first bucket from `i` on that one of `cats` maps to, or
/// `CATEGORY_COUNT`.
pub open spec fn first_bucket(cats: Seq<Seq<char>>, i: int) -> int
    decreases CATEGORY_COUNT - i,
{
    if i >= CATEGORY_COUNT {
        CATEGORY_COUNT as int
    } else if in_bucket(cats, i) {
        i
    } else {
        first_bucket(cats, i + 1)
    }
}

/// The bucket of an application with these `Categories` values.
pub open spec fn bucket_of(cats: Seq<Seq<char>>) -> int {
    first_bucket(cats, 0)
}

pub proof fn lemma_first_bucket(cats: Seq<Seq<char>>, i: int)
    requires
        0 <= i <= CATEGORY_COUNT,
    ensures
        i <= first_bucket(cats, i) <= CATEGORY_COUNT,
        first_bucket(cats, i) < CATEGORY_COUNT ==> in_bucket(cats, first_bucket(cats, i)),
        forall|q: int| i <= q < first_bucket(cats, i) ==> !in_bucket(cats, q),
    decreases CATEGORY_COUNT - i,
{
    if i < CATEGORY_COUNT && !in_bucket(cats, i) {
        lemma_first_bucket(cats, i + 1);
    }
}

fn bucket_label_str(i: usize) -> (r: &'static str)
    ensures
        r@ == bucket_label(i as int),
{
    if i == 0 {
        "Development"
    } else if i == 1 {
        "Graphics"
    } else if i == 2 {
        "Multimedia"
    } else if i == 3 {
        "Games"
    } else if i == 4 {
        "Office"
    } else if i == 5 {
        "Science"
    } else if i == 6 {
        "Education"
    } else if i == 7 {
        "Internet"
    } else if i == 8 {
        "System"
    } else if i == 9 {
        "Accessories"
    } else {
        "Other"
    }
}

proof fn lemma_contains1(a: Seq<char>, c: Seq<char>)
    ensures
        seq![a].contains(c) == (c == a),
{
    if c == a {
        assert(seq![a][0] == c);
    }
}

proof fn lemma_contains2(a: Seq<char>, b: Seq<char>, c: Seq<char>)
    ensures
        seq![a, b].contains(c) == (c == a || c == b),
{
    if c == a {
        assert(seq![a, b][0] == c);
    }
    if c == b {
        assert(seq![a, b][1] == c);
    }
}

proof fn lemma_contains3(a: Seq<char>, b: Seq<char>, d: Seq<char>, c: Seq<char>)
    ensures
        seq![a, b, d].contains(c) == (c == a || c == b || c == d),
{
    if c == a {
        assert(seq![a, b, d][0] == c);
    }
    if c == b {
        assert(seq![a, b, d][1] == c);
    }
    if c == d {
        assert(seq![a, b, d][2] == c);
    }
}

/// Whether category value `c` maps to bucket `i`.
fn bucket_matches(i: usize, c: &Vec<char>) -> (r: bool)
    requires
        i < CATEGORY_COUNT,
    ensures
        r == bucket_keys(i as int).contains(c@),
{
    if i == 0 {
        proof { lemma_contains1("Development"@, c@); }
        is_lit(c, "Development")
    } else if i == 1 {
        proof { lemma_contains1("Graphics"@, c@); }
        is_lit(c, "Graphics")
    } else if i == 2 {
        proof { lemma_contains3("AudioVideo"@, "Audio"@, "Video"@, c@); }
        is_lit(c, "AudioVideo") || is_lit(c, "Audio") || is_lit(c, "Video")
    } else if i == 3 {
        proof { lemma_contains1("Game"@, c@); }
        is_lit(c, "Game")
    } else if i == 4 {
        proof { lemma_contains1("Office"@, c@); }
        is_lit(c, "Office")
    } else if i == 5 {
        proof { lemma_contains1("Science"@, c@); }
        is_lit(c, "Science")
    } else if i == 6 {
        proof { lemma_contains1("Education"@, c@); }
        is_lit(c, "Education")
    } else if i == 7 {
        proof { lemma_contains1("Network"@, c@); }
        is_lit(c, "Network")
    } else if i == 8 {
        proof { lemma_contains2("System"@, "Settings"@, c@); }
        is_lit(c, "System") || is_lit(c, "Settings")
    } else {
        proof { lemma_contains1("Utility"@, c@); }
        is_lit(c, "Utility")
    }
}

/// Index of the bucket (`CATEGORY_COUNT` meaning `Other`) for an
/// application with these `Categories` values: the first bucket that
/// one of them maps to.
pub fn bucket_for(categories: &Vec<String>) -> (r: usize)
    ensures
        r == bucket_of(strs_of(categories@)),
        r <= CATEGORY_COUNT,
        r < CATEGORY_COUNT ==> in_bucket(strs_of(categories@), r as int),
        forall|q: int| 0 <= q < r ==> !in_bucket(strs_of(categories@), q),
{
    let ghost cats = strs_of(categories@);
    let mut cs: Vec<Vec<char>> = Vec::new();
    let mut j: usize = 0;
    while j < categories.len()
        invariant
            j <= categories.len(),
            cats == strs_of(categories@),
            cs.len() == j,
            seqs_of(cs@) == cats.take(j as int),
        decreases categories.len() - j,
    {
        let ghost prev = cs@;
        let c = chars_of(categories[j].as_str());
        cs.push(c);
        assert forall|q: int| 0 <= q < j + 1 implies #[trigger] seqs_of(cs@)[q] == cats.take(
            j + 1,
        )[q] by {
            if q < j {
                assert(cs@[q] == prev[q]);
                assert(seqs_of(prev)[q] == cats.take(j as int)[q]);
            }
        }
        assert(seqs_of(cs@) =~= cats.take(j + 1));
        j = j + 1;
    }
    assert(cats.take(categories.len() as int) =~= cats);
    let mut i: usize = 0;
    while i < CATEGORY_COUNT
        invariant
            i <= CATEGORY_COUNT,
            cats == strs_of(categories@),
            seqs_of(cs@) == cats,
            first_bucket(cats, 0) == first_bucket(cats, i as int),
            forall|q: int| 0 <= q < i ==> !in_bucket(cats, q),
        decreases CATEGORY_COUNT - i,
    {
        let mut j: usize = 0;
        let mut hit = false;
        while j < cs.len()
            invariant
                j <= cs.len(),
                i < CATEGORY_COUNT,
                seqs_of(cs@) == cats,
                hit == exists|q: int| 0 <= q < j && bucket_keys(i as int).contains(#[trigger] cats[q]),
            decreases cs.len() - j,
        {
            let m = bucket_matches(i, &cs[j]);
            assert(cats[j as int] == cs@[j as int]@);
            if m {
                hit = true;
            }
            j = j + 1;
        }
        if hit {
            proof {
                lemma_first_bucket(cats, 0);
            }
            return i;
        }
        i = i + 1;
    }
    proof {
        lemma_first_bucket(cats, 0);
    }
    i
}

// ---------------------------------------------------------------------
// Sections
// ---------------------------------------------------------------------

/// What `str::to_lowercase` returns for `s`: the Unicode lowercase
/// mapping, a function of `s` alone.
pub uninterp spec fn lowercase(s: Seq<char>) -> Seq<char>;

/// `str::to_lowercase`; its result is named by `lowercase`.
#[verifier::external_body]
fn to_lowercase(s: &str) -> (r: String)
    ensures
        r@ == lowercase(s@),
{
    s.to_lowercase()
}

/// Names ordered by their sort keys `key`, the exact name breaking
/// ties.
pub open spec fn key_less(key: spec_fn(Seq<char>) -> Seq<char>, a: Seq<char>, b: Seq<char>) -> bool {
    ||| seq_less(key(a), key(b))
    ||| (key(a) == key(b) && seq_less(a, b))
}

/// The sort key of application names: their lowercase form.
pub open spec fn lower() -> spec_fn(Seq<char>) -> Seq<char> {
    |s: Seq<char>| lowercase(s)
}

/// Application names in menu order: case-insensitively, with the exact
/// name breaking ties.
pub open spec fn name_less(a: Seq<char>, b: Seq<char>) -> bool {
    key_less(lower(), a, b)
}

pub proof fn lemma_key_less_transitive(key: spec_fn(Seq<char>) -> Seq<char>, a: Seq<char>, b: Seq<char>, c: Seq<char>)
    requires
        key_less(key, a, b),
        key_less(key, b, c),
    ensures
        key_less(key, a, c),
{
    let (la, lb, lc) = (key(a), key(b), key(c));
    if seq_less(la, lb) && seq_less(lb, lc) {
        crate::text::lemma_seq_less_transitive(la, lb, lc);
    } else if seq_less(la, lb) {
    } else if seq_less(lb, lc) {
    } else {
        crate::text::lemma_seq_less_transitive(a, b, c);
    }
}

pub proof fn lemma_key_less_total(key: spec_fn(Seq<char>) -> Seq<char>, a: Seq<char>, b: Seq<char>)
    ensures
        a == b || key_less(key, a, b) || key_less(key, b, a),
{
    crate::text::lemma_seq_less_total(key(a), key(b));
    crate::text::lemma_seq_less_total(a, b);
}

pub proof fn lemma_name_less_transitive(a: Seq<char>, b: Seq<char>, c: Seq<char>)
    requires
        name_less(a, b),
        name_less(b, c),
    ensures
        name_less(a, c),
{
    lemma_key_less_transitive(lower(), a, b, c);
}

pub proof fn lemma_name_less_total(a: Seq<char>, b: Seq<char>)
    ensures
        a == b || name_less(a, b) || name_less(b, a),
{
    lemma_key_less_total(lower(), a, b);
}

pub type Pair = (Seq<char>, Seq<char>);

pub open spec fn pairs_of(v: Seq<(String, String)>) -> Seq<Pair> {
    Seq::new(v.len(), |i: int| (v[i].0@, v[i].1@))
}

/// The name of `apps[q]`.
pub open spec fn name_at(apps: Seq<Pair>, q: int) -> Seq<char> {
    apps[q].0
}

/// Whether `apps[j]` is the first of `apps` with its name.
pub open spec fn is_first(apps: Seq<Pair>, j: int) -> bool {
    0 <= j < apps.len() && forall|q: int| 0 <= q < j ==> #[trigger] name_at(apps, q) != apps[j].0
}


/// Whether `r` lists `apps` as a section does, ordered by the sort keys
/// `key`: sorted with no name twice, each entry the first one of `apps`
/// with that name, and every name of `apps` present.
pub open spec fn section_by(key: spec_fn(Seq<char>) -> Seq<char>, r: Seq<Pair>, apps: Seq<Pair>) -> bool {
    &&& sorted_by(key, r)
    &&& from_firsts(r, apps, apps.len() as int)
    &&& covers(r, apps, apps.len() as int)
}

/// Whether `r` lists `apps` as a section does: sorted by name (case-
/// insensitively, exact name as tie-break) with no name twice, each
/// entry the first one of `apps` with that name, and every name of
/// `apps` present.
pub open spec fn is_section(r: Seq<Pair>, apps: Seq<Pair>) -> bool {
    section_by(lower(), r, apps)
}

proof fn lemma_insert_sorted(key: spec_fn(Seq<char>) -> Seq<char>, r: Seq<Pair>, p: int, x: Pair)
    requires
        0 <= p <= r.len(),
        forall|a: int, b: int| 0 <= a < b < r.len() ==> key_less(key, #[trigger] r[a].0, #[trigger] r[b].0),
        forall|q: int| 0 <= q < r.len() ==> (#[trigger] r[q]).0 != x.0,
        forall|q: int| 0 <= q < p ==> !key_less(key, x.0, (#[trigger] r[q]).0),
        p < r.len() ==> key_less(key, x.0, r[p].0),
    ensures
        forall|a: int, b: int|
            0 <= a < b < r.insert(p, x).len() ==> key_less(
                key,
                #[trigger] r.insert(p, x)[a].0,
                #[trigger] r.insert(p, x)[b].0,
            ),
{
    let s = r.insert(p, x);
    assert forall|a: int, b: int| 0 <= a < b < s.len() implies key_less(
        key,
        #[trigger] s[a].0,
        #[trigger] s[b].0,
    ) by {
        if b < p {
            assert(s[a] == r[a] && s[b] == r[b]);
        } else if b == p {
            assert(s[a] == r[a]);
            lemma_key_less_total(key, x.0, r[a].0);
        } else if a == p {
            assert(s[b] == r[b - 1]);
            if b - 1 > p {
                assert(key_less(key, r[p].0, r[b - 1].0));
                lemma_key_less_transitive(key, x.0, r[p].0, r[b - 1].0);
            }
        } else if a < p {
            assert(s[a] == r[a] && s[b] == r[b - 1]);
        } else {
            assert(s[a] == r[a - 1] && s[b] == r[b - 1]);
        }
    }
}

fn copy_text(s: &String) -> (r: String)
    ensures
        r@ == s@,
{
    s.clone()
}

/// Whether `key_less(key, a, b)`, given the keys of both.
fn key_less_exec(
    Ghost(key): Ghost<spec_fn(Seq<char>) -> Seq<char>>,
    a: &Vec<char>,
    a_key: &Vec<char>,
    b: &Vec<char>,
    b_key: &Vec<char>,
) -> (r: bool)
    requires
        a_key@ == key(a@),
        b_key@ == key(b@),
    ensures
        r == key_less(key, a@, b@),
{
    crate::text::less_than(a_key, b_key) || (crate::text::chars_eq(a_key, b_key) && crate::text::less_than(a, b))
}

pub open spec fn sorted_by(key: spec_fn(Seq<char>) -> Seq<char>, r: Seq<Pair>) -> bool {
    forall|a: int, b: int| 0 <= a < b < r.len() ==> key_less(key, #[trigger] r[a].0, #[trigger] r[b].0)
}

pub open spec fn names_sorted(r: Seq<Pair>) -> bool {
    sorted_by(lower(), r)
}

/// Index of the first application of `apps` named `name`, or the
/// length of `apps` when there is none.
pub open spec fn index_of_name(apps: Seq<Pair>, name: Seq<char>) -> int
    decreases apps.len(),
{
    if apps.len() == 0 {
        0
    } else if apps[0].0 == name {
        0
    } else {
        1 + index_of_name(apps.drop_first(), name)
    }
}

pub proof fn lemma_index_of_name(apps: Seq<Pair>, name: Seq<char>, j: int)
    requires
        0 <= j <= apps.len(),
        forall|q: int| 0 <= q < j ==> #[trigger] name_at(apps, q) != name,
        j == apps.len() || apps[j].0 == name,
    ensures
        index_of_name(apps, name) == j,
    decreases j,
{
    if j > 0 {
        let t = apps.drop_first();
        assert(name_at(apps, 0) != name);
        assert forall|q: int| 0 <= q < j - 1 implies #[trigger] name_at(t, q) != name by {
            assert(name_at(apps, q + 1) != name);
        }
        if j - 1 < t.len() {
            assert(t[j - 1] == apps[j]);
        }
        lemma_index_of_name(t, name, j - 1);
    }
}

/// Every entry of `r` is the first application of `apps[..n]` with its
/// name.
pub open spec fn from_firsts(r: Seq<Pair>, apps: Seq<Pair>, n: int) -> bool {
    forall|k: int|
        0 <= k < r.len() ==> index_of_name(apps, (#[trigger] r[k]).0) < n && apps[index_of_name(
            apps,
            r[k].0,
        )] == r[k]
}

/// Every name of `apps[..n]` is the name of an entry of `r`.
pub open spec fn covers(r: Seq<Pair>, apps: Seq<Pair>, n: int) -> bool {
    forall|j: int|
        #![trigger apps[j]]
        0 <= j < n ==> exists|k: int| 0 <= k < r.len() && #[trigger] r[k].0 == apps[j].0
}

proof fn lemma_known_name_covers(r: Seq<Pair>, apps: Seq<Pair>, i: int, q: int)
    requires
        0 <= i < apps.len(),
        0 <= q < r.len(),
        r[q].0 == apps[i].0,
        covers(r, apps, i),
    ensures
        covers(r, apps, i + 1),
{
    assert forall|j: int| #![trigger apps[j]] 0 <= j < i + 1 implies exists|k: int|
        0 <= k < r.len() && #[trigger] r[k].0 == apps[j].0 by {
        if j == i {
            assert(r[q].0 == apps[j].0);
        } else {
            let a = apps[j];
            let k = choose|k: int| 0 <= k < r.len() && #[trigger] r[k].0 == apps[j].0;
            assert(r[k].0 == apps[j].0);
        }
    }
}

proof fn lemma_from_firsts_grow(r: Seq<Pair>, apps: Seq<Pair>, i: int)
    requires
        0 <= i,
        from_firsts(r, apps, i),
    ensures
        from_firsts(r, apps, i + 1),
{
}

proof fn lemma_new_name_is_first(r: Seq<Pair>, apps: Seq<Pair>, i: int)
    requires
        0 <= i < apps.len(),
        forall|q: int| 0 <= q < r.len() ==> (#[trigger] r[q]).0 != apps[i].0,
        covers(r, apps, i),
    ensures
        is_first(apps, i),
{
    assert forall|q: int| 0 <= q < i implies #[trigger] name_at(apps, q) != apps[i].0 by {
        let a = apps[q];
        let k = choose|k: int| 0 <= k < r.len() && #[trigger] r[k].0 == apps[q].0;
        assert(r[k].0 != apps[i].0);
    }
}

proof fn lemma_insert_firsts(r: Seq<Pair>, apps: Seq<Pair>, i: int, p: int)
    requires
        0 <= i < apps.len(),
        0 <= p <= r.len(),
        is_first(apps, i),
        from_firsts(r, apps, i),
    ensures
        from_firsts(r.insert(p, apps[i]), apps, i + 1),
{
    let r2 = r.insert(p, apps[i]);
    lemma_index_of_name(apps, apps[i].0, i);
    assert forall|k: int| 0 <= k < r2.len() implies index_of_name(apps, (#[trigger] r2[k]).0) < i
        + 1 && apps[index_of_name(apps, r2[k].0)] == r2[k] by {
        if k < p {
            assert(r2[k] == r[k]);
        } else if k > p {
            assert(r2[k] == r[k - 1]);
        }
    }
}

proof fn lemma_insert_covers(r: Seq<Pair>, apps: Seq<Pair>, i: int, p: int)
    requires
        0 <= i < apps.len(),
        0 <= p <= r.len(),
        covers(r, apps, i),
    ensures
        covers(r.insert(p, apps[i]), apps, i + 1),
{
    let r2 = r.insert(p, apps[i]);
    assert forall|j: int| #![trigger apps[j]] 0 <= j < i + 1 implies exists|k: int|
        0 <= k < r2.len() && #[trigger] r2[k].0 == apps[j].0 by {
        if j == i {
            assert(r2[p].0 == apps[j].0);
        } else {
            let a = apps[j];
            let k = choose|k: int| 0 <= k < r.len() && #[trigger] r[k].0 == apps[j].0;
            let k2 = if k < p { k } else { k + 1 };
            assert(r2[k2] == r[k]);
            assert(r2[k2].0 == apps[j].0);
        }
    }
}

/// The sort key of each name: the key given for the first application
/// of `apps` with that name.
pub open spec fn key_of(apps: Seq<Pair>, keys: Seq<Seq<char>>) -> spec_fn(Seq<char>) -> Seq<char> {
    |n: Seq<char>| keys[index_of_name(apps, n)]
}

/// Whether applications of the same name have the same key.
pub open spec fn keys_agree(apps: Seq<Pair>, keys: Seq<Seq<char>>) -> bool {
    forall|i: int, j: int|
        0 <= i < apps.len() && 0 <= j < apps.len() && apps[i].0 == apps[j].0 ==> #[trigger] keys[i]
            == #[trigger] keys[j]
}

proof fn lemma_index_of_name_nonneg(apps: Seq<Pair>, name: Seq<char>)
    ensures
        0 <= index_of_name(apps, name) <= apps.len(),
    decreases apps.len(),
{
    if apps.len() > 0 && apps[0].0 != name {
        lemma_index_of_name_nonneg(apps.drop_first(), name);
    }
}

/// The first application of `apps` named as `apps[i]` is at or before
/// `i`.
proof fn lemma_index_of_present(apps: Seq<Pair>, i: int)
    requires
        0 <= i < apps.len(),
    ensures
        0 <= index_of_name(apps, apps[i].0) <= i,
        apps[index_of_name(apps, apps[i].0)].0 == apps[i].0,
    decreases i,
{
    if apps[0].0 != apps[i].0 {
        let t = apps.drop_first();
        assert(t[i - 1] == apps[i]);
        lemma_index_of_present(t, i - 1);
        assert(t[index_of_name(t, apps[i].0)] == apps[index_of_name(t, apps[i].0) + 1]);
    }
}

/// The entries of one section, given each application's sort key
/// (`keys[i]` for `apps[i]`, equal for equal names): `apps` sorted by
/// key, the exact name breaking ties, with only the first application
/// of each name kept.
pub fn section_items_by_keys(apps: &Vec<(String, String)>, keys: &Vec<String>) -> (r: Vec<(String, String)>)
    requires
        keys.len() == apps.len(),
        keys_agree(pairs_of(apps@), strs_of(keys@)),
    ensures
        section_by(key_of(pairs_of(apps@), strs_of(keys@)), pairs_of(r@), pairs_of(apps@)),
{
    let ghost A = pairs_of(apps@);
    let ghost K = key_of(A, strs_of(keys@));
    let mut out: Vec<(String, String)> = Vec::new();
    let mut names: Vec<Vec<char>> = Vec::new();
    let mut lows: Vec<Vec<char>> = Vec::new();
    let mut i: usize = 0;
    proof {
            }
    while i < apps.len()
        invariant
            i <= apps.len(),
            A == pairs_of(apps@),
            names.len() == out.len(),
            lows.len() == out.len(),
            forall|k: int| 0 <= k < out.len() ==> (#[trigger] names@[k])@ == pairs_of(out@)[k].0,
            forall|k: int| 0 <= k < out.len() ==> (#[trigger] lows@[k])@ == K(pairs_of(out@)[k].0),
            sorted_by(K, pairs_of(out@)),
            K == key_of(A, strs_of(keys@)),
            keys.len() == apps.len(),
            keys_agree(A, strs_of(keys@)),
            from_firsts(pairs_of(out@), A, i as int),
            covers(pairs_of(out@), A, i as int),
        decreases apps.len() - i,
    {
        let ghost R = pairs_of(out@);
        let nm = chars_of(apps[i].0.as_str());
        assert(nm@ == A[i as int].0);
        let mut k: usize = 0;
        let mut found = false;
        while k < out.len() && !found
            invariant
                k <= out.len(),
                names.len() == out.len(),
                R == pairs_of(out@),
                forall|q: int| 0 <= q < out.len() ==> (#[trigger] names@[q])@ == R[q].0,
                !found ==> forall|q: int| 0 <= q < k ==> (#[trigger] R[q]).0 != nm@,
                found ==> 0 < k && R[k - 1].0 == nm@,
            decreases out.len() - k,
        {
            if crate::text::chars_eq(&names[k], &nm) {
                found = true;
            }
            k = k + 1;
        }
        if found {
            proof {
                lemma_known_name_covers(R, A, i as int, k - 1);
                lemma_from_firsts_grow(R, A, i as int);
            }
            i = i + 1;
            continue;
        }
        proof {
            lemma_new_name_is_first(R, A, i as int);
        }
        let low = chars_of(keys[i].as_str());
        proof {
            lemma_index_of_present(A, i as int);
            let j = index_of_name(A, A[i as int].0);
            assert(strs_of(keys@)[j] == strs_of(keys@)[i as int]);
            assert(low@ == K(nm@));
        }
        let mut p: usize = 0;
        while p < out.len() && !key_less_exec(Ghost(K), &nm, &low, &names[p], &lows[p])
            invariant
                p <= out.len(),
                names.len() == out.len(),
                lows.len() == out.len(),
                R == pairs_of(out@),
                low@ == K(nm@),
                forall|q: int| 0 <= q < out.len() ==> (#[trigger] names@[q])@ == R[q].0,
                forall|q: int| 0 <= q < out.len() ==> (#[trigger] lows@[q])@ == K(R[q].0),
                forall|q: int| 0 <= q < p ==> !key_less(K, nm@, (#[trigger] R[q]).0),
            decreases out.len() - p,
        {
            p = p + 1;
        }
        let x = (copy_text(&apps[i].0), copy_text(&apps[i].1));
        assert((x.0@, x.1@) == A[i as int]);
        proof {
            lemma_insert_sorted(K, R, p as int, A[i as int]);
            lemma_insert_firsts(R, A, i as int, p as int);
            lemma_insert_covers(R, A, i as int, p as int);
        }
        let ghost old_names = names@;
        let ghost old_lows = lows@;
        out.insert(p, x);
        names.insert(p, nm);
        lows.insert(p, low);
        proof {
            let R2 = pairs_of(out@);
            assert(R2 =~= R.insert(p as int, A[i as int]));
            assert forall|q: int| 0 <= q < out.len() implies (#[trigger] names@[q])@ == R2[q].0 by {
                if q < p {
                    assert(names@[q] == old_names[q]);
                } else if q > p {
                    assert(names@[q] == old_names[q - 1]);
                }
            }
            assert forall|q: int| 0 <= q < out.len() implies (#[trigger] lows@[q])@ == K(R2[q].0) by {
                if q < p {
                    assert(lows@[q] == old_lows[q]);
                } else if q > p {
                    assert(lows@[q] == old_lows[q - 1]);
                }
            }
        }
        i = i + 1;
    }
    out
}

/// The entries of one section: `apps` sorted by name (case-
/// insensitively, the exact name breaking ties) with only the first
/// application of each name kept.
pub fn section_items(apps: &Vec<(String, String)>) -> (r: Vec<(String, String)>)
    ensures
        is_section(pairs_of(r@), pairs_of(apps@)),
{
    let ghost A = pairs_of(apps@);
    let mut keys: Vec<String> = Vec::new();
    let mut i: usize = 0;
    while i < apps.len()
        invariant
            i <= apps.len(),
            A == pairs_of(apps@),
            keys.len() == i,
            forall|q: int| 0 <= q < i ==> (#[trigger] strs_of(keys@)[q]) == lowercase(A[q].0),
        decreases apps.len() - i,
    {
        let ghost old_keys = keys@;
        keys.push(to_lowercase(apps[i].0.as_str()));
        proof {
            assert forall|q: int| 0 <= q < i + 1 implies (#[trigger] strs_of(keys@)[q]) == lowercase(A[q].0) by {
                assert(strs_of(keys@)[q] == keys@[q]@);
                if q < i {
                    assert(keys@[q] == old_keys[q]);
                    assert(strs_of(old_keys)[q] == old_keys[q]@);
                }
            }
        }
        i = i + 1;
    }
    let ghost KS = strs_of(keys@);
    assert(keys_agree(A, KS)) by {
        assert forall|a: int, b: int|
            0 <= a < A.len() && 0 <= b < A.len() && A[a].0 == A[b].0 implies #[trigger] KS[a] == #[trigger] KS[b] by {
            assert(KS[a] == lowercase(A[a].0));
            assert(KS[b] == lowercase(A[b].0));
        }
    }
    let r = section_items_by_keys(apps, &keys);
    proof {
        let K = key_of(A, KS);
        let R = pairs_of(r@);
        assert forall|a: int, b: int| 0 <= a < b < R.len() implies key_less(lower(), #[trigger] R[a].0, #[trigger] R[b].0) by {
            assert(key_less(K, R[a].0, R[b].0));
            let ja = index_of_name(A, R[a].0);
            let jb = index_of_name(A, R[b].0);
            lemma_index_of_name_nonneg(A, R[a].0);
            lemma_index_of_name_nonneg(A, R[b].0);
            assert(ja < A.len() && A[ja] == R[a]);
            assert(jb < A.len() && A[jb] == R[b]);
            assert(K(R[a].0) == KS[ja]);
            assert(K(R[b].0) == KS[jb]);
        }
    }
    r
}

// ---------------------------------------------------------------------
// The application submenu
// ---------------------------------------------------------------------

pub open spec fn models_of(v: Seq<DesktopApp>) -> Seq<AppModel> {
    Seq::new(v.len(), |i: int| v[i]@)
}

/// The (name, command) entries of the applications of `apps` that
/// belong in bucket `b`, in order.
pub open spec fn bucket_apps(apps: Seq<AppModel>, b: int) -> Seq<Pair>
    decreases apps.len(),
{
    if apps.len() == 0 {
        seq![]
    } else {
        let rest = bucket_apps(apps.drop_last(), b);
        if bucket_of(apps.last().categories) == b {
            rest.push((apps.last().name, apps.last().command))
        } else {
            rest
        }
    }
}

/// The order the sections are shown in: alphabetical by label, with
/// `Other` (bucket `CATEGORY_COUNT`) last.
pub open spec fn display_order() -> Seq<int> {
    seq![9, 0, 6, 3, 1, 7, 2, 4, 5, 8, 10]
}

/// The buckets that get a section: the non-empty ones, in display order.
pub open spec fn shown_buckets(apps: Seq<AppModel>) -> Seq<int> {
    display_order().filter(|b: int| bucket_apps(apps, b).len() > 0)
}

/// The (label, command) pairs of a list of menu items.
pub open spec fn item_pairs(items: Seq<MenuEntry>) -> Seq<Pair> {
    Seq::new(
        items.len(),
        |k: int|
            match items[k] {
                MenuEntry::Item { label, command } => (label, command),
                _ => (seq![], seq![]),
            },
    )
}

/// Whether `e` is the section of bucket `b` for `apps`: a submenu with
/// the bucket's label and no DEFAULT, whose items list the bucket's
/// applications as `is_section` says.
pub open spec fn is_bucket_section(e: MenuEntry, b: int, apps: Seq<AppModel>) -> bool {
    &&& e matches MenuEntry::Submenu { label, items, default }
    &&& e->Submenu_label == bucket_label(b)
    &&& e->Submenu_default is None
    &&& forall|k: int| 0 <= k < e->Submenu_items.len() ==> (#[trigger] e->Submenu_items[k]) is Item
    &&& is_section(item_pairs(e->Submenu_items), bucket_apps(apps, b))
}

/// Whether `secs` are the sections for `apps`: one per non-empty
/// bucket, in display order.
pub open spec fn are_sections(secs: Seq<MenuEntry>, apps: Seq<AppModel>) -> bool {
    &&& secs.len() == shown_buckets(apps).len()
    &&& forall|k: int|
        0 <= k < secs.len() ==> is_bucket_section(#[trigger] secs[k], shown_buckets(apps)[k], apps)
}

fn app_pairs_in_bucket(apps: &Vec<DesktopApp>, idx: &Vec<usize>, b: usize) -> (r: Vec<(String, String)>)
    requires
        idx.len() == apps.len(),
        forall|j: int| 0 <= j < apps.len() ==> #[trigger] idx@[j] == bucket_of(apps@[j]@.categories),
    ensures
        pairs_of(r@) == bucket_apps(models_of(apps@), b as int),
{
    let ghost M = models_of(apps@);
    let mut r: Vec<(String, String)> = Vec::new();
    let mut j: usize = 0;
    while j < apps.len()
        invariant
            j <= apps.len(),
            idx.len() == apps.len(),
            M == models_of(apps@),
            forall|q: int| 0 <= q < apps.len() ==> #[trigger] idx@[q] == bucket_of(apps@[q]@.categories),
            pairs_of(r@) == bucket_apps(M.take(j as int), b as int),
        decreases apps.len() - j,
    {
        let ghost t = M.take(j + 1);
        assert(t.drop_last() =~= M.take(j as int));
        assert(t.last() == apps@[j as int]@);
        if idx[j] == b {
            let ghost prev = r@;
            let x = (copy_text(&apps[j].name), copy_text(&apps[j].command));
            r.push(x);
            assert(pairs_of(r@) =~= pairs_of(prev).push((x.0@, x.1@)));
        }
        j = j + 1;
    }
    assert(M.take(apps.len() as int) =~= M);
    r
}

/// Appends the section for bucket label `label` listing `apps` to
/// `sections`, unless `apps` is empty.
fn push_section(sections: &mut Vec<MenuNode>, label: &str, apps: &Vec<(String, String)>)
    ensures
        apps.len() == 0 ==> final(sections)@ == old(sections)@,
        apps.len() > 0 ==> final(sections)@.len() == old(sections)@.len() + 1,
        apps.len() > 0 ==> forall|k: int| 0 <= k < old(sections)@.len() ==> final(sections)@[k] == old(sections)@[k],
        apps.len() > 0 ==> ({
            let e = final(sections)@.last()@;
            &&& e matches MenuEntry::Submenu { label: l, items, default }
            &&& e->Submenu_label == label@
            &&& e->Submenu_default is None
            &&& forall|k: int| 0 <= k < e->Submenu_items.len() ==> (#[trigger] e->Submenu_items[k]) is Item
            &&& is_section(item_pairs(e->Submenu_items), pairs_of(apps@))
        }),
{
    if apps.len() == 0 {
        return;
    }
    let sorted = section_items(apps);
    let mut items: Vec<MenuNode> = Vec::new();
    let mut k: usize = 0;
    while k < sorted.len()
        invariant
            k <= sorted.len(),
            items.len() == k,
            forall|q: int| 0 <= q < k ==> (#[trigger] entries_of(items@)[q]) == (MenuEntry::Item { label: sorted@[q].0@, command: sorted@[q].1@ }),
        decreases sorted.len() - k,
    {
        let ghost prev = items@;
        let node = MenuNode::Item { label: copy_text(&sorted[k].0), command: copy_text(&sorted[k].1) };
        let ghost nv = node@;
        assert(nv == (MenuEntry::Item { label: sorted@[k as int].0@, command: sorted@[k as int].1@ }));
        items.push(node);
        assert(items@[k as int]@ == nv);
        proof {
            crate::menu::lemma_entries_of(items@);
            crate::menu::lemma_entries_of(prev);
            assert forall|q: int| 0 <= q < k + 1 implies (#[trigger] entries_of(items@)[q]) == (MenuEntry::Item { label: sorted@[q].0@, command: sorted@[q].1@ }) by {
                if q < k {
                    assert(items@[q] == prev[q]);
                    assert(entries_of(prev)[q] == entry_of(prev[q]));
                }
            }
        }
        k = k + 1;
    }
    proof {
        crate::menu::lemma_entries_of(items@);
        assert(item_pairs(entries_of(items@)) =~= pairs_of(sorted@));
    }
    sections.push(MenuNode::Submenu { label: label.to_string(), items, default: None });
}

/// The submenu an application placeholder labelled `label` expands to:
/// one section per non-empty category bucket, alphabetical by label
/// with `Other` last, each listing its applications sorted by name.
pub fn generate_from(apps: &Vec<DesktopApp>, label: String) -> (r: MenuNode)
    ensures
        r@ matches MenuEntry::Submenu { label: l, items, default },
        r@->Submenu_label == label@,
        r@->Submenu_default is None,
        are_sections(r@->Submenu_items, models_of(apps@)),
{
    let ghost M = models_of(apps@);
    let mut idx: Vec<usize> = Vec::new();
    let mut j: usize = 0;
    while j < apps.len()
        invariant
            j <= apps.len(),
            idx.len() == j,
            forall|q: int| 0 <= q < j ==> #[trigger] idx@[q] == bucket_of(apps@[q]@.categories),
        decreases apps.len() - j,
    {
        let b = bucket_for(&apps[j].categories);
        idx.push(b);
        j = j + 1;
    }
    let order: Vec<usize> = vec![9, 0, 6, 3, 1, 7, 2, 4, 5, 8, 10];
    assert(order@.len() == 11);
    let ghost D = display_order();
    let ghost f = |b: int| bucket_apps(M, b).len() > 0;
    let mut sections: Vec<MenuNode> = Vec::new();
    let mut t: usize = 0;
    while t < order.len()
        invariant
            t <= order.len() == 11,
            M == models_of(apps@),
            D == display_order(),
            f == (|b: int| bucket_apps(M, b).len() > 0),
            forall|q: int| 0 <= q < 11 ==> order@[q] as int == #[trigger] D[q],
            idx.len() == apps.len(),
            forall|q: int| 0 <= q < apps.len() ==> #[trigger] idx@[q] == bucket_of(apps@[q]@.categories),
            sections.len() == D.take(t as int).filter(f).len(),
            forall|k: int|
                0 <= k < sections.len() ==> is_bucket_section(#[trigger] entries_of(sections@)[k], D.take(t as int).filter(f)[k], M),
        decreases order.len() - t,
    {
        let b = order[t];
        assert(D[t as int] == b as int);
        let list = app_pairs_in_bucket(apps, &idx, b);
        let ghost prev = sections@;
        push_section(&mut sections, bucket_label_str(b), &list);
        proof {
            reveal(Seq::filter);
            let tk = D.take(t + 1);
            assert(tk.drop_last() =~= D.take(t as int));
            assert(tk.last() == b as int);
            crate::menu::lemma_entries_of(sections@);
            crate::menu::lemma_entries_of(prev);
            assert(pairs_of(list@).len() == list.len());
            assert(f(b as int) == (list.len() > 0));
            if list.len() > 0 {
                assert(tk.filter(f) == D.take(t as int).filter(f).push(b as int));
                let pf = D.take(t as int).filter(f);
                assert forall|k: int| 0 <= k < sections.len() implies is_bucket_section(#[trigger] entries_of(sections@)[k], tk.filter(f)[k], M) by {
                    if k < prev.len() {
                        assert(sections@[k] == prev[k]);
                        assert(entries_of(prev)[k] == entry_of(prev[k]));
                        assert(is_bucket_section(entries_of(prev)[k], pf[k], M));
                        assert(tk.filter(f)[k] == pf[k]);
                    } else {
                        assert(k == prev.len());
                        assert(tk.filter(f)[k] == b as int);
                        assert(entries_of(sections@)[k] == sections@.last()@);
                        assert(is_bucket_section(sections@.last()@, b as int, M));
                    }
                }
            } else {
                assert(tk.filter(f) == D.take(t as int).filter(f));
            }
        }
        t = t + 1;
    }
    assert(D.take(11) =~= D);
    assert(shown_buckets(M) == D.filter(f));
    proof {
        crate::menu::lemma_entries_of(sections@);
        assert(D.take(t as int) == D);
    }
    let r = MenuNode::Submenu { label, items: sections, default: None };
    r
}

/// Whether an application is launchable: it names no `TryExec`
/// binary, or that binary is among `installed`.
pub open spec fn launchable(a: AppModel, installed: Seq<Seq<char>>) -> bool {
    a.try_exec matches Some(t) ==> installed.contains(t)
}

/// The applications that the files `contents` describe, in order: each
/// file that parses to an application (`desktop_app`) and is
/// launchable.
pub open spec fn kept_apps(contents: Seq<Seq<char>>, installed: Seq<Seq<char>>) -> Seq<AppModel>
    decreases contents.len(),
{
    if contents.len() == 0 {
        seq![]
    } else {
        let rest = kept_apps(contents.drop_last(), installed);
        match desktop_app(contents.last()) {
            Some(a) => if launchable(a, installed) {
                rest.push(a)
            } else {
                rest
            },
            None => rest,
        }
    }
}

fn is_installed(t: &String, installed: &Vec<String>) -> (r: bool)
    ensures
        r == strs_of(installed@).contains(t@),
{
    let tc = chars_of(t.as_str());
    let mut k: usize = 0;
    while k < installed.len()
        invariant
            k <= installed.len(),
            tc@ == t@,
            forall|q: int| 0 <= q < k ==> installed@[q]@ != t@,
        decreases installed.len() - k,
    {
        let ic = chars_of(installed[k].as_str());
        if crate::text::chars_eq(&ic, &tc) {
            assert(strs_of(installed@)[k as int] == t@);
            return true;
        }
        k = k + 1;
    }
    proof {
        if strs_of(installed@).contains(t@) {
            let q = choose|q: int| 0 <= q < strs_of(installed@).len() && strs_of(installed@)[q] == t@;
            assert(installed@[q]@ == t@);
        }
    }
    false
}

/// The submenu an application placeholder labelled `label` expands to,
/// built from the contents of the desktop files to show (in the order
/// `desktop_files` gives) and the `TryExec` binaries that were found
/// installed: the files that describe a launchable application are
/// grouped as `generate_from` groups them.
pub fn generate(label: String, contents: &Vec<String>, installed: &Vec<String>) -> (r: MenuNode)
    ensures
        r@ matches MenuEntry::Submenu { label: l, items, default },
        r@->Submenu_label == label@,
        r@->Submenu_default is None,
        are_sections(r@->Submenu_items, kept_apps(strs_of(contents@), strs_of(installed@))),
{
    let ghost C = strs_of(contents@);
    let ghost I = strs_of(installed@);
    let mut apps: Vec<DesktopApp> = Vec::new();
    let mut i: usize = 0;
    while i < contents.len()
        invariant
            i <= contents.len(),
            C == strs_of(contents@),
            I == strs_of(installed@),
            models_of(apps@) == kept_apps(C.take(i as int), I),
        decreases contents.len() - i,
    {
        let ghost before = apps@;
        proof {
            assert(C.take(i + 1).drop_last() =~= C.take(i as int));
            assert(C.take(i + 1).last() == contents@[i as int]@);
        }
        match DesktopApp::parse(contents[i].as_str()) {
            Some(app) => {
                let keep = match &app.try_exec {
                    Some(t) => is_installed(t, installed),
                    None => true,
                };
                if keep {
                    apps.push(app);
                    assert(models_of(apps@) =~= models_of(before).push(apps@[before.len() as int]@));
                }
            },
            None => {},
        }
        i = i + 1;
    }
    assert(C.take(contents.len() as int) =~= C);
    generate_from(&apps, label)
}

// ---------------------------------------------------------------------
// Which desktop files to read
// ---------------------------------------------------------------------

/// Whether a file name has the extension `desktop` (`Path::extension`:
/// the text after the last `.`, where that `.` does not start the name).
pub open spec fn is_desktop_name(n: Seq<char>) -> bool {
    n.len() > 8 && n.skip(n.len() - 8) == ".desktop"@
}

/// The (directory, file name) entries of `listings`, directory by
/// directory: `listings[d]` lists the names in `dirs[d]`.
pub open spec fn listing_entries(dirs: Seq<Seq<char>>, listings: Seq<Seq<Seq<char>>>) -> Seq<Pair>
    decreases listings.len(),
{
    if listings.len() == 0 || dirs.len() == 0 {
        seq![]
    } else {
        listing_entries(dirs.drop_last(), listings.drop_last()) + Seq::new(
            listings.last().len(),
            |k: int| (dirs.last(), listings.last()[k]),
        )
    }
}

/// Whether a file named `n` occurs among `es`.
pub open spec fn name_listed(es: Seq<Pair>, n: Seq<char>) -> bool {
    exists|k: int| 0 <= k < es.len() && (#[trigger] es[k]).1 == n
}

/// The paths of the desktop files to read, in scan order: each file
/// whose name has the `desktop` extension and was not listed before
/// (a file in an earlier directory shadows a same-named one later).
pub open spec fn files_to_read(es: Seq<Pair>) -> Seq<Seq<char>>
    decreases es.len(),
{
    if es.len() == 0 {
        seq![]
    } else {
        let rest = files_to_read(es.drop_last());
        let (d, n) = es.last();
        if is_desktop_name(n) && !name_listed(es.drop_last(), n) {
            rest.push(crate::icon_theme::path_join(d, n))
        } else {
            rest
        }
    }
}

pub open spec fn listings_of(v: Seq<Vec<String>>) -> Seq<Seq<Seq<char>>> {
    Seq::new(v.len(), |i: int| strs_of(v[i]@))
}

fn ends_with_desktop(n: &Vec<char>) -> (r: bool)
    ensures
        r == is_desktop_name(n@),
{
    if n.len() <= 8 {
        return false;
    }
    let tail = slice_of(n, n.len() - 8, n.len());
    assert(tail@ == n@.skip(n.len() - 8));
    is_lit(&tail, ".desktop")
}

/// The desktop files to read, given the file names in each application
/// directory (`listings[d]` lists `dirs[d]`, in directory order).
pub fn desktop_files(dirs: &Vec<String>, listings: &Vec<Vec<String>>) -> (r: Vec<String>)
    requires
        dirs.len() == listings.len(),
    ensures
        strs_of(r@) == files_to_read(listing_entries(strs_of(dirs@), listings_of(listings@))),
{
    // Flatten the listings into (directory, name) entries.
    let mut flat: Vec<(String, String)> = Vec::new();
    let ghost D = strs_of(dirs@);
    let ghost L = listings_of(listings@);
    let mut d: usize = 0;
    while d < dirs.len()
        invariant
            d <= dirs.len() == listings.len(),
            D == strs_of(dirs@),
            L == listings_of(listings@),
            pairs_of(flat@) == listing_entries(D.take(d as int), L.take(d as int)),
            flat.len() == pairs_of(flat@).len(),
        decreases dirs.len() - d,
    {
        let names = &listings[d];
        let ghost start = pairs_of(flat@);
        let mut k: usize = 0;
        while k < names.len()
            invariant
                k <= names.len(),
                d < dirs.len() == listings.len(),
                names == listings@[d as int],
                flat.len() == start.len() + k,
                pairs_of(flat@) == start + Seq::new(k as nat, |q: int| (dirs@[d as int]@, names@[q]@)),
            decreases names.len() - k,
        {
            let ghost prev = flat@;
            let x = (copy_text(&dirs[d]), copy_text(&names[k]));
            flat.push(x);
            let ghost want = start + Seq::new((k + 1) as nat, |q: int| (dirs@[d as int]@, names@[q]@));
            assert forall|q: int| 0 <= q < flat.len() implies #[trigger] pairs_of(flat@)[q] == want[q] by {
                if q < flat.len() - 1 {
                    assert(flat@[q] == prev[q]);
                    assert(pairs_of(prev)[q] == (start + Seq::new(k as nat, |q: int| (dirs@[d as int]@, names@[q]@)))[q]);
                }
            }
            assert(pairs_of(flat@) =~= want);
            k = k + 1;
        }
        proof {
            let dt = D.take(d + 1);
            let lt = L.take(d + 1);
            assert(dt.drop_last() =~= D.take(d as int));
            assert(lt.drop_last() =~= L.take(d as int));
            assert(lt.last() == strs_of(names@));
            assert(dt.last() == dirs@[d as int]@);
            assert(Seq::new(names.len() as nat, |q: int| (dirs@[d as int]@, names@[q]@)) =~= Seq::new(
                lt.last().len(),
                |q: int| (dt.last(), lt.last()[q]),
            ));
        }
        d = d + 1;
    }
    assert(D.take(dirs.len() as int) =~= D);
    assert(L.take(dirs.len() as int) =~= L);
    let ghost E = pairs_of(flat@);
    // Select the first file of each desktop name.
    let mut seen: Vec<Vec<char>> = Vec::new();
    let mut r: Vec<String> = Vec::new();
    let mut i: usize = 0;
    while i < flat.len()
        invariant
            i <= flat.len(),
            E == pairs_of(flat@),
            strs_of(r@) == files_to_read(E.take(i as int)),
            forall|q: int| 0 <= q < seen.len() ==> name_listed(E.take(i as int), #[trigger] seen@[q]@),
            forall|q: int| 0 <= q < i && is_desktop_name(#[trigger] E[q].1) ==> exists|s: int| 0 <= s < seen.len() && seen@[s]@ == E[q].1,
        decreases flat.len() - i,
    {
        let ghost T = E.take(i + 1);
        assert(T.drop_last() =~= E.take(i as int));
        assert(T.last() == E[i as int]);
        let n = chars_of(flat[i].1.as_str());
        let dn = ends_with_desktop(&n);
        let mut listed = false;
        let mut s: usize = 0;
        while s < seen.len() && !listed
            invariant
                s <= seen.len(),
                !listed ==> forall|q: int| 0 <= q < s ==> seen@[q]@ != n@,
                listed ==> exists|q: int| 0 <= q < seen.len() && seen@[q]@ == n@,
            decreases seen.len() - s,
        {
            if crate::text::chars_eq(&seen[s], &n) {
                listed = true;
            }
            s = s + 1;
        }
        proof {
            if listed {
                let q = choose|q: int| 0 <= q < seen.len() && seen@[q]@ == n@;
                assert(name_listed(E.take(i as int), seen@[q]@));
            }
            if dn && !listed {
                assert forall|q: int| 0 <= q < i implies (#[trigger] E.take(i as int)[q]).1 != n@ by {
                    assert(E.take(i as int)[q] == E[q]);
                    if E[q].1 == n@ {
                        let s2 = choose|s2: int| 0 <= s2 < seen.len() && seen@[s2]@ == E[q].1;
                    }
                }
            }
        }
        if dn && !listed {
            let path = crate::icon_theme::join_path(flat[i].0.as_str(), flat[i].1.as_str());
            let ghost prev = r@;
            r.push(path);
            assert(strs_of(r@) =~= strs_of(prev).push(path@));
            let ghost sprev = seen@;
            seen.push(n);
            proof {
                assert forall|q: int| 0 <= q < seen.len() implies name_listed(T, #[trigger] seen@[q]@) by {
                    if q < sprev.len() {
                        assert(seen@[q] == sprev[q]);
                        let k = choose|k: int| 0 <= k < E.take(i as int).len() && (#[trigger] E.take(i as int)[k]).1 == seen@[q]@;
                        assert(T[k] == E.take(i as int)[k]);
                    } else {
                        assert(T[i as int].1 == seen@[q]@);
                    }
                }
                assert forall|q: int| 0 <= q < i + 1 && is_desktop_name(#[trigger] E[q].1) implies exists|s: int| 0 <= s < seen.len() && seen@[s]@ == E[q].1 by {
                    if q == i {
                        assert(seen@[sprev.len() as int]@ == E[q].1);
                    } else {
                        let s2 = choose|s2: int| 0 <= s2 < sprev.len() && sprev[s2]@ == E[q].1;
                        assert(seen@[s2] == sprev[s2]);
                    }
                }
            }
        } else {
            proof {
                assert forall|q: int| 0 <= q < seen.len() implies name_listed(T, #[trigger] seen@[q]@) by {
                    let k = choose|k: int| 0 <= k < E.take(i as int).len() && (#[trigger] E.take(i as int)[k]).1 == seen@[q]@;
                    assert(T[k] == E.take(i as int)[k]);
                }
                if dn {
                    let q = choose|q: int| 0 <= q < seen.len() && seen@[q]@ == n@;
                    let k = choose|k: int| 0 <= k < E.take(i as int).len() && (#[trigger] E.take(i as int)[k]).1 == seen@[q]@;
                    assert(name_listed(E.take(i as int), n@));
                }
            }
        }
        i = i + 1;
    }
    assert(E.take(flat.len() as int) =~= E);
    r
}

// ---------------------------------------------------------------------
// Laws
// ---------------------------------------------------------------------

proof fn lemma_label_less(p: int)
    requires
        0 <= p < 9,
    ensures
        seq_less(bucket_label(display_order()[p]), bucket_label(display_order()[p + 1])),
{
    reveal_with_fuel(seq_less, 3);
    reveal_strlit("Accessories");
    reveal_strlit("Development");
    reveal_strlit("Education");
    reveal_strlit("Games");
    reveal_strlit("Graphics");
    reveal_strlit("Internet");
    reveal_strlit("Multimedia");
    reveal_strlit("Office");
    reveal_strlit("Science");
    reveal_strlit("System");
}

/// The category sections are shown in alphabetical order of their
/// labels, with `Other` last.
pub proof fn law_sections_alphabetical()
    ensures
        forall|p: int, q: int|
            0 <= p < q < 10 ==> seq_less(
                #[trigger] bucket_label(display_order()[p]),
                #[trigger] bucket_label(display_order()[q]),
            ),
        display_order().last() == CATEGORY_COUNT,
{
    assert forall|p: int, q: int| 0 <= p < q < 10 implies seq_less(
        #[trigger] bucket_label(display_order()[p]),
        #[trigger] bucket_label(display_order()[q]),
    ) by {
        lemma_label_chain(p, q);
    }
}

proof fn lemma_label_chain(p: int, q: int)
    requires
        0 <= p < q < 10,
    ensures
        seq_less(bucket_label(display_order()[p]), bucket_label(display_order()[q])),
    decreases q - p,
{
    if q == p + 1 {
        lemma_label_less(p);
    } else {
        lemma_label_chain(p, q - 1);
        lemma_label_less(q - 1);
        crate::text::lemma_seq_less_transitive(
            bucket_label(display_order()[p]),
            bucket_label(display_order()[q - 1]),
            bucket_label(display_order()[q]),
        );
    }
}

proof fn lemma_items_plain(items: Seq<MenuEntry>)
    requires
        forall|k: int| 0 <= k < items.len() ==> (#[trigger] items[k]) is Item,
    ensures
        crate::menu::entries_expanded(items),
        crate::menu::entries_wf(items),
    decreases items.len(),
{
    if items.len() > 0 {
        let t = items.drop_last();
        assert forall|k: int| 0 <= k < t.len() implies (#[trigger] t[k]) is Item by {
            assert(t[k] == items[k]);
        }
        lemma_items_plain(t);
        crate::menu::lemma_entries_push(t, items.last());
        assert(t.push(items.last()) =~= items);
    } else {
        crate::menu::lemma_entries_empty(items);
    }
}

proof fn lemma_sections_plain(secs: Seq<MenuEntry>, apps: Seq<AppModel>, n: int)
    requires
        are_sections(secs, apps),
        0 <= n <= secs.len(),
    ensures
        crate::menu::entries_expanded(secs.take(n)),
        crate::menu::entries_wf(secs.take(n)),
    decreases n,
{
    if n > 0 {
        lemma_sections_plain(secs, apps, n - 1);
        let t = secs.take(n);
        assert(t.drop_last() =~= secs.take(n - 1));
        let e = secs[n - 1];
        assert(is_bucket_section(e, shown_buckets(apps)[n - 1], apps));
        lemma_items_plain(e->Submenu_items);
        crate::menu::lemma_entries_push(secs.take(n - 1), e);
        assert(secs.take(n - 1).push(e) =~= t);
    } else {
        crate::menu::lemma_entries_empty(secs.take(n));
    }
}

/// The generated application submenu holds no placeholder, and none of
/// its sections has a DEFAULT out of range; so expanding a menu with it
/// leaves no placeholder anywhere and keeps every DEFAULT in range.
pub proof fn law_expanded_menu_has_no_placeholder(
    m: crate::menu::MenuModel,
    secs: Seq<MenuEntry>,
    apps: Seq<AppModel>,
)
    requires
        are_sections(secs, apps),
    ensures
        crate::menu::entries_expanded(secs),
        crate::menu::entries_expanded(crate::menu::expand_entries(m.items, secs)),
        crate::menu::menu_wf(m) ==> crate::menu::menu_wf(
            crate::menu::MenuModel {
                title: m.title,
                items: crate::menu::expand_entries(m.items, secs),
                default: m.default,
            },
        ),
{
    lemma_sections_plain(secs, apps, secs.len() as int);
    assert(secs.take(secs.len() as int) =~= secs);
    crate::menu::law_expand_replaces_every_placeholder(m, secs);
}

proof fn lemma_strip_percent_no_ws(s: Seq<char>)
    requires
        no_ws(s),
    ensures
        no_ws(strip_percent(s)),
    decreases s.len(),
{
    if s.len() > 0 {
        if s[0] != '%' {
            let t = s.drop_first();
            assert forall|i: int| 0 <= i < t.len() implies !is_ws(#[trigger] t[i]) by {
                assert(t[i] == s[i + 1]);
            }
            lemma_strip_percent_no_ws(t);
            let r = strip_percent(s);
            assert forall|i: int| 0 <= i < r.len() implies !is_ws(#[trigger] r[i]) by {
                if i > 0 {
                    assert(r[i] == strip_percent(t)[i - 1]);
                }
            }
        } else if s.len() >= 2 {
            let t = s.skip(2);
            assert forall|i: int| 0 <= i < t.len() implies !is_ws(#[trigger] t[i]) by {
                assert(t[i] == s[i + 2]);
            }
            lemma_strip_percent_no_ws(t);
            let r = strip_percent(s);
            assert forall|i: int| 0 <= i < r.len() implies !is_ws(#[trigger] r[i]) by {
                if s[1] == '%' && i > 0 {
                    assert(r[i] == strip_percent(t)[i - 1]);
                }
            }
        }
    }
}

proof fn lemma_kept_tokens_props(ws: Seq<Seq<char>>)
    requires
        forall|k: int| 0 <= k < ws.len() ==> no_ws(#[trigger] ws[k]),
    ensures
        forall|k: int|
            0 <= k < kept_tokens(ws).len() ==> (#[trigger] kept_tokens(ws)[k]).len() > 0 && no_ws(
                kept_tokens(ws)[k],
            ),
    decreases ws.len(),
{
    if ws.len() > 0 {
        let front = ws.drop_last();
        assert forall|k: int| 0 <= k < front.len() implies no_ws(#[trigger] front[k]) by {
            assert(front[k] == ws[k]);
        }
        lemma_kept_tokens_props(front);
        lemma_strip_percent_no_ws(ws.last());
        let kf = kept_tokens(front);
        let kt = kept_tokens(ws);
        assert forall|k: int| 0 <= k < kt.len() implies (#[trigger] kt[k]).len() > 0 && no_ws(kt[k]) by {
            if k < kf.len() {
                assert(kt[k] == kf[k]);
            }
        }
    }
}

/// What is left of an `Exec` string has the whitespace that the removals
/// leave behind collapsed: none at either end, and only single spaces
/// between the remaining tokens.
pub proof fn law_stripped_exec_collapsed(exec: Seq<char>)
    ensures
        crate::text::collapsed(stripped_exec(exec)),
{
    let ws = words(exec);
    crate::text::lemma_words_props(exec);
    assert forall|k: int| 0 <= k < ws.len() implies no_ws(#[trigger] ws[k]) by {}
    lemma_kept_tokens_props(ws);
    crate::text::lemma_join_spaced_collapsed(kept_tokens(ws));
}

// ---------------------------------------------------------------------
// The category table
// ---------------------------------------------------------------------

/// The section of the menu each freedesktop `Categories` value, alone,
/// puts an application in: Development, Graphics, AudioVideo / Audio /
/// Video (Multimedia), Game (Games), Office, Science, Education, Network
/// (Internet), System / Settings (System), Utility (Accessories); any
/// other value, Other.
pub open spec fn section_of_category(c: Seq<char>) -> Seq<char> {
    if c == "Development"@ {
        "Development"@
    } else if c == "Graphics"@ {
        "Graphics"@
    } else if c == "AudioVideo"@ || c == "Audio"@ || c == "Video"@ {
        "Multimedia"@
    } else if c == "Game"@ {
        "Games"@
    } else if c == "Office"@ {
        "Office"@
    } else if c == "Science"@ {
        "Science"@
    } else if c == "Education"@ {
        "Education"@
    } else if c == "Network"@ {
        "Internet"@
    } else if c == "System"@ || c == "Settings"@ {
        "System"@
    } else if c == "Utility"@ {
        "Accessories"@
    } else {
        "Other"@
    }
}

proof fn lemma_in_bucket_one(c: Seq<char>, i: int)
    ensures
        in_bucket(seq![c], i) == bucket_keys(i).contains(c),
{
    if bucket_keys(i).contains(c) {
        assert(seq![c][0] == c);
    }
}

/// An application with a single `Categories` value lands in the section
/// the category table gives that value; with several values, in the
/// first bucket that any of them maps to.
pub proof fn law_category_sections(c: Seq<char>, cats: Seq<Seq<char>>)
    ensures
        bucket_label(bucket_of(seq![c])) == section_of_category(c),
        forall|k: int| 0 <= k < cats.len() ==> bucket_of(cats) <= #[trigger] bucket_of(seq![cats[k]]),
{
    reveal_strlit("Development");
    reveal_strlit("Graphics");
    reveal_strlit("AudioVideo");
    reveal_strlit("Audio");
    reveal_strlit("Video");
    reveal_strlit("Multimedia");
    reveal_strlit("Game");
    reveal_strlit("Games");
    reveal_strlit("Office");
    reveal_strlit("Science");
    reveal_strlit("Education");
    reveal_strlit("Network");
    reveal_strlit("Internet");
    reveal_strlit("System");
    reveal_strlit("Settings");
    reveal_strlit("Utility");
    reveal_strlit("Accessories");
    reveal_strlit("Other");
    assert forall|q: int| 0 <= q <= CATEGORY_COUNT implies #[trigger] in_bucket(seq![c], q) == bucket_keys(q).contains(c) by {
        lemma_in_bucket_one(c, q);
    }
    reveal_with_fuel(first_bucket, 11);
    assert(bucket_keys(2) =~= seq!["AudioVideo"@, "Audio"@, "Video"@]);
    assert(bucket_keys(8) =~= seq!["System"@, "Settings"@]);
    assert(bucket_keys(2).contains(c) == (c == "AudioVideo"@ || c == "Audio"@ || c == "Video"@)) by {
        if c == "Audio"@ {
            assert(bucket_keys(2)[1] == c);
        }
        if c == "Video"@ {
            assert(bucket_keys(2)[2] == c);
        }
        if c == "AudioVideo"@ {
            assert(bucket_keys(2)[0] == c);
        }
    }
    assert(bucket_keys(8).contains(c) == (c == "System"@ || c == "Settings"@)) by {
        if c == "System"@ {
            assert(bucket_keys(8)[0] == c);
        }
        if c == "Settings"@ {
            assert(bucket_keys(8)[1] == c);
        }
    }
    assert forall|q: int| 0 <= q < 10 && q != 2 && q != 8 implies bucket_keys(q).contains(c) == (c == bucket_keys(q)[0]) by {
        if c == bucket_keys(q)[0] {
            assert(bucket_keys(q)[0] == c);
        }
    }
    assert forall|k: int| 0 <= k < cats.len() implies bucket_of(cats) <= #[trigger] bucket_of(seq![cats[k]]) by {
        lemma_first_bucket(cats, 0);
        lemma_first_bucket(seq![cats[k]], 0);
        let b = bucket_of(seq![cats[k]]);
        if b < CATEGORY_COUNT {
            assert(in_bucket(seq![cats[k]], b));
            let j = choose|j: int| 0 <= j < 1 && bucket_keys(b).contains(#[trigger] seq![cats[k]][j]);
            assert(seq![cats[k]][j] == cats[k]);
            assert(in_bucket(cats, b));
        }
    }
}

// ---------------------------------------------------------------------
// Keys a desktop file may hold that are not read
// ---------------------------------------------------------------------

/// The `[Desktop Entry]` keys read: Name, Exec, Type, TryExec,
/// NoDisplay, Hidden, Categories.
pub open spec fn read_key(k: Seq<char>) -> bool {
    ||| k == "Name"@
    ||| k == "Exec"@
    ||| k == "Type"@
    ||| k == "TryExec"@
    ||| k == "NoDisplay"@
    ||| k == "Hidden"@
    ||| k == "Categories"@
}

/// Whether line `l` says nothing that is read: not a group header, and
/// blank, a comment, without `=`, or a `key=value` line whose key is not
/// read (such as a localized `Name[de]`, `Icon` or `Keywords`).
pub open spec fn unread_line(l: Seq<char>) -> bool {
    let t = trim(l);
    &&& !(t.len() > 0 && t[0] == '[')
    &&& (t.len() == 0 || t[0] == '#' || match find_char(t, '=') {
        None => true,
        Some(k) => !read_key(trim(t.take(k))),
    })
}

proof fn lemma_unread_line_step(st: EntryScan, l: Seq<char>)
    requires
        unread_line(l),
    ensures
        scan_line(st, l) == st,
{
}

proof fn lemma_unread_line_scan(ls: Seq<Seq<char>>, j: int, l: Seq<char>)
    requires
        unread_line(l),
        0 <= j <= ls.len(),
    ensures
        scan_lines(ls.insert(j, l)) == scan_lines(ls),
    decreases ls.len(),
{
    let ls2 = ls.insert(j, l);
    if j == ls.len() {
        assert(ls2.drop_last() =~= ls);
        assert(ls2.last() == l);
        lemma_unread_line_step(scan_lines(ls), l);
    } else {
        assert(ls2.drop_last() =~= ls.drop_last().insert(j, l));
        assert(ls2.last() == ls.last());
        lemma_unread_line_scan(ls.drop_last(), j, l);
    }
}

/// A line that says nothing read (a localized `Name[xx]=...`, any other
/// key, a comment or a blank line), put anywhere in a desktop file,
/// changes nothing of the application it describes.
pub proof fn law_unread_keys_ignored(contents: Seq<char>, more: Seq<char>, j: int, l: Seq<char>)
    requires
        unread_line(l),
        0 <= j <= lines(contents).len(),
        lines(more) == lines(contents).insert(j, l),
    ensures
        desktop_app(more) == desktop_app(contents),
{
    lemma_unread_line_scan(lines(contents), j, l);
}

} // verus!
