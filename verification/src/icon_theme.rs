//! XDG directory lookup and icon lookup for a toplevel's app_id: find
//! its `.desktop` file, read the `Icon=` key, then resolve that name to
//! a PNG file through a bounded subset of the freedesktop Icon Theme
//! spec.
//!
//! The environment and the file system are the caller's business: this
//! module takes the values of the XDG variables, the contents of the
//! files it asked for, and the answers to the file-system questions it
//! asks, and decides.
use vstd::prelude::*;
use crate::text::{
    chars_of, lines, seqs_of, slice_of, split_lines, split_nonempty, split_nonempty_chars,
    string_of, strip_prefix, strip_prefix_lit, trim, trim_chars,
};

verus! {

broadcast use vstd::string::group_string_axioms;

// ---------------------------------------------------------------------
// Paths
// ---------------------------------------------------------------------

/// `PathBuf::join` on Unix: an absolute `comp` replaces `base`; else a
/// `/` is put between them unless `base` is empty or already ends in one.
pub open spec fn path_join(base: Seq<char>, comp: Seq<char>) -> Seq<char> {
    if comp.len() > 0 && comp[0] == '/' {
        comp
    } else if base.len() > 0 && base.last() != '/' {
        base + seq!['/'] + comp
    } else {
        base + comp
    }
}

fn push_all(v: &mut Vec<char>, s: &Vec<char>)
    ensures
        final(v)@ == old(v)@ + s@,
{
    let mut i: usize = 0;
    let ghost start = v@;
    while i < s.len()
        invariant
            i <= s.len(),
            v@ == start + s@.take(i as int),
        decreases s.len() - i,
    {
        v.push(s[i]);
        assert(s@.take(i + 1) == s@.take(i as int).push(s@[i as int]));
        assert(start + s@.take(i + 1) =~= (start + s@.take(i as int)).push(s@[i as int]));
        i = i + 1;
    }
    assert(s@.take(s.len() as int) == s@);
}

/// `base` joined with `comp` as a path.
pub fn join_path(base: &str, comp: &str) -> (r: String)
    ensures
        r@ == path_join(base@, comp@),
{
    let b = chars_of(base);
    let c = chars_of(comp);
    if c.len() > 0 && c[0] == '/' {
        return string_of(&c);
    }
    let mut out = slice_of(&b, 0, b.len());
    assert(out@ == b@);
    if b.len() > 0 && b[b.len() - 1] != '/' {
        out.push('/');
    }
    push_all(&mut out, &c);
    string_of(&out)
}

// ---------------------------------------------------------------------
// XDG base directories
// ---------------------------------------------------------------------

/// The values of the environment variables the XDG lookups read:
/// `XDG_DATA_HOME`, `HOME` and `XDG_DATA_DIRS` (`None` when unset).
#[derive(Debug, Clone)]
pub struct XdgEnv {
    pub data_home: Option<String>,
    pub home: Option<String>,
    pub data_dirs: Option<String>,
}

pub open spec fn opt_view(o: Option<String>) -> Option<Seq<char>> {
    match o {
        Some(s) => Some(s@),
        None => None,
    }
}

/// `$XDG_DATA_HOME`, else `$HOME/.local/share`.
pub open spec fn data_home(env: XdgEnv) -> Option<Seq<char>> {
    match env.data_home {
        Some(d) => Some(d@),
        None => match env.home {
            Some(h) => Some(path_join(h@, ".local/share"@)),
            None => None,
        },
    }
}

/// The non-empty entries of `$XDG_DATA_DIRS`, by default
/// `/usr/local/share:/usr/share`.
pub open spec fn data_dirs(env: XdgEnv) -> Seq<Seq<char>> {
    match env.data_dirs {
        Some(d) => split_nonempty(d@, ':'),
        None => split_nonempty("/usr/local/share:/usr/share"@, ':'),
    }
}

/// Every XDG data directory, most preferred first.
pub open spec fn base_dirs(env: XdgEnv) -> Seq<Seq<char>> {
    match data_home(env) {
        Some(h) => seq![h] + data_dirs(env),
        None => data_dirs(env),
    }
}

/// Each of `dirs` joined with `sub`.
pub open spec fn joined_all(dirs: Seq<Seq<char>>, sub: Seq<char>) -> Seq<Seq<char>> {
    Seq::new(dirs.len(), |i: int| path_join(dirs[i], sub))
}

pub open spec fn strs(v: Seq<String>) -> Seq<Seq<char>> {
    Seq::new(v.len(), |i: int| v[i]@)
}

fn base_dir_list(env: &XdgEnv) -> (r: Vec<Vec<char>>)
    ensures
        seqs_of(r@) == base_dirs(*env),
{
    let mut r: Vec<Vec<char>> = Vec::new();
    let home: Option<String> = match &env.data_home {
        Some(d) => Some(d.clone()),
        None => match &env.home {
            Some(h) => Some(join_path(h.as_str(), ".local/share")),
            None => None,
        },
    };
    assert(opt_view(home) == data_home(*env));
    let raw = match &env.data_dirs {
        Some(d) => chars_of(d.as_str()),
        None => chars_of("/usr/local/share:/usr/share"),
    };
    let dirs = split_nonempty_chars(&raw, ':');
    assert(seqs_of(dirs@) == data_dirs(*env));
    match home {
        Some(h) => {
            r.push(chars_of(h.as_str()));
        },
        None => {},
    }
    let ghost start = seqs_of(r@);
    let mut i: usize = 0;
    while i < dirs.len()
        invariant
            i <= dirs.len(),
            r.len() == start.len() + i,
            seqs_of(r@) == start + seqs_of(dirs@).take(i as int),
        decreases dirs.len() - i,
    {
        let ghost prev = r@;
        let d = slice_of(&dirs[i], 0, dirs[i].len());
        assert(d@ == dirs@[i as int]@);
        r.push(d);
        assert forall|q: int| 0 <= q < r.len() implies #[trigger] seqs_of(r@)[q] == (start + seqs_of(
            dirs@,
        ).take(i + 1))[q] by {
            if q < r.len() - 1 {
                assert(r@[q] == prev[q]);
                assert(seqs_of(prev)[q] == (start + seqs_of(dirs@).take(i as int))[q]);
            }
        }
        assert(seqs_of(r@) =~= start + seqs_of(dirs@).take(i + 1));
        i = i + 1;
    }
    assert(seqs_of(dirs@).take(dirs.len() as int) =~= seqs_of(dirs@));
    assert(start + seqs_of(dirs@) =~= base_dirs(*env)) by {
        if opt_view(home) is Some {
            assert(start =~= seq![opt_view(home)->0]);
        } else {
            assert(start =~= Seq::<Seq<char>>::empty());
        }
    }
    r
}

fn joined_dirs(env: &XdgEnv, sub: &str) -> (r: Vec<String>)
    ensures
        strs(r@) == joined_all(base_dirs(*env), sub@),
{
    let dirs = base_dir_list(env);
    let mut r: Vec<String> = Vec::new();
    let mut i: usize = 0;
    while i < dirs.len()
        invariant
            i <= dirs.len(),
            r.len() == i,
            seqs_of(dirs@) == base_dirs(*env),
            forall|q: int| 0 <= q < i ==> #[trigger] r@[q]@ == path_join(dirs@[q]@, sub@),
        decreases dirs.len() - i,
    {
        let d = string_of(&dirs[i]);
        r.push(join_path(d.as_str(), sub));
        i = i + 1;
    }
    assert(strs(r@) =~= joined_all(base_dirs(*env), sub@)) by {
        assert forall|q: int| 0 <= q < r.len() implies #[trigger] strs(r@)[q] == joined_all(
            base_dirs(*env),
            sub@,
        )[q] by {
            assert(seqs_of(dirs@)[q] == dirs@[q]@);
        }
    }
    r
}

/// Every `applications` directory to search, most preferred first.
pub fn application_dirs(env: &XdgEnv) -> (r: Vec<String>)
    ensures
        strs(r@) == joined_all(base_dirs(*env), "applications"@),
{
    joined_dirs(env, "applications")
}

/// Every icon theme base directory to search, most preferred first.
pub fn icon_base_dirs(env: &XdgEnv) -> (r: Vec<String>)
    ensures
        strs(r@) == joined_all(base_dirs(*env), "icons"@),
{
    joined_dirs(env, "icons")
}

// ---------------------------------------------------------------------
// The Icon= key of a desktop file
// ---------------------------------------------------------------------

/// The value of the first line of `ls` that starts with `Icon=`,
/// trimmed.
pub open spec fn icon_in_lines(ls: Seq<Seq<char>>) -> Option<Seq<char>>
    decreases ls.len(),
{
    if ls.len() == 0 {
        None
    } else {
        match strip_prefix(ls[0], "Icon="@) {
            Some(v) => Some(trim(v)),
            None => icon_in_lines(ls.drop_first()),
        }
    }
}

/// The icon name given by the first of `files` that could be read and
/// has an `Icon=` line.
pub open spec fn icon_in_files(files: Seq<Option<Seq<char>>>) -> Option<Seq<char>>
    decreases files.len(),
{
    if files.len() == 0 {
        None
    } else {
        match files[0] {
            Some(text) => match icon_in_lines(lines(text)) {
                Some(v) => Some(v),
                None => icon_in_files(files.drop_first()),
            },
            None => icon_in_files(files.drop_first()),
        }
    }
}

pub open spec fn opt_strs(v: Seq<Option<String>>) -> Seq<Option<Seq<char>>> {
    Seq::new(v.len(), |i: int| opt_view(v[i]))
}

/// The paths of `<dir>/<app_id>.desktop` for each of `app_dirs`.
pub fn desktop_file_paths(app_dirs: &Vec<String>, app_id: &str) -> (r: Vec<String>)
    ensures
        strs(r@) == joined_all(strs(app_dirs@), app_id@ + ".desktop"@),
{
    let mut name = chars_of(app_id);
    let suffix = chars_of(".desktop");
    push_all(&mut name, &suffix);
    let file = string_of(&name);
    let mut r: Vec<String> = Vec::new();
    let mut i: usize = 0;
    while i < app_dirs.len()
        invariant
            i <= app_dirs.len(),
            r.len() == i,
            file@ == app_id@ + ".desktop"@,
            forall|q: int| 0 <= q < i ==> #[trigger] r@[q]@ == path_join(app_dirs@[q]@, file@),
        decreases app_dirs.len() - i,
    {
        r.push(join_path(app_dirs[i].as_str(), file.as_str()));
        i = i + 1;
    }
    assert(strs(r@) =~= joined_all(strs(app_dirs@), app_id@ + ".desktop"@));
    r
}

fn icon_line(text: &str) -> (r: Option<String>)
    ensures
        opt_view(r) == icon_in_lines(lines(text@)),
{
    let t = chars_of(text);
    let ls = split_lines(&t);
    let ghost L = seqs_of(ls@);
    let mut i: usize = 0;
    assert(L.skip(0) == L);
    while i < ls.len()
        invariant
            i <= ls.len(),
            L == seqs_of(ls@),
            L == lines(text@),
            icon_in_lines(L) == icon_in_lines(L.skip(i as int)),
        decreases ls.len() - i,
    {
        assert(L.skip(i as int)[0] == ls@[i as int]@);
        assert(L.skip(i as int).drop_first() == L.skip(i + 1));
        match strip_prefix_lit(&ls[i], "Icon=") {
            Some(v) => {
                return Some(string_of(&trim_chars(&v)));
            },
            None => {},
        }
        i = i + 1;
    }
    assert(L.skip(i as int).len() == 0);
    None
}

/// Given the contents of `<dir>/<app_id>.desktop` for each application
/// directory in turn (`None` where it could not be read), the icon name
/// from the first one with an `Icon=` line, if any.
pub fn desktop_icon_name(files: &Vec<Option<String>>) -> (r: Option<String>)
    ensures
        opt_view(r) == icon_in_files(opt_strs(files@)),
{
    let ghost F = opt_strs(files@);
    let mut i: usize = 0;
    assert(F.skip(0) == F);
    while i < files.len()
        invariant
            i <= files.len(),
            F == opt_strs(files@),
            icon_in_files(F) == icon_in_files(F.skip(i as int)),
        decreases files.len() - i,
    {
        assert(F.skip(i as int)[0] == opt_view(files@[i as int]));
        assert(F.skip(i as int).drop_first() == F.skip(i + 1));
        match &files[i] {
            Some(text) => {
                match icon_line(text.as_str()) {
                    Some(v) => {
                        return Some(v);
                    },
                    None => {},
                }
            },
            None => {},
        }
        i = i + 1;
    }
    assert(F.skip(i as int).len() == 0);
    None
}

// ---------------------------------------------------------------------
// Resolving an icon name to a PNG file
// ---------------------------------------------------------------------

/// A question about the file system the icon search needs answered.
#[derive(Debug, Clone, PartialEq, Eq)]
pub enum FsQuery {
    /// Is this path a directory?
    IsDir(String),
    /// Is this path a regular file?
    IsFile(String),
    /// The names of the entries of this directory, in listing order
    /// (none if it cannot be read).
    ListDir(String),
}

/// What the file system said so far.
#[derive(Debug, Clone)]
pub struct FsKnowledge {
    pub dirs: Vec<(String, bool)>,
    pub files: Vec<(String, bool)>,
    pub listings: Vec<(String, Option<Vec<String>>)>,
}

/// One outcome of the icon search: the file found (or that there is
/// none), or the question it needs answered first.
#[derive(Debug, Clone)]
pub enum IconSearch {
    Done(Option<String>),
    Need(FsQuery),
}

pub enum QueryModel {
    IsDir(Seq<char>),
    IsFile(Seq<char>),
    ListDir(Seq<char>),
}

/// A step of the search: a file found, nothing found here, or a
/// question to answer first.
pub enum Step {
    Found(Seq<char>),
    NotFound,
    Need(QueryModel),
}

pub struct FsModel {
    pub dirs: Seq<(Seq<char>, bool)>,
    pub files: Seq<(Seq<char>, bool)>,
    pub listings: Seq<(Seq<char>, Option<Seq<Seq<char>>>)>,
}

impl View for FsKnowledge {
    type V = FsModel;

    open spec fn view(&self) -> FsModel {
        FsModel {
            dirs: Seq::new(self.dirs@.len(), |i: int| (self.dirs@[i].0@, self.dirs@[i].1)),
            files: Seq::new(self.files@.len(), |i: int| (self.files@[i].0@, self.files@[i].1)),
            listings: Seq::new(
                self.listings@.len(),
                |i: int|
                    (
                        self.listings@[i].0@,
                        match self.listings@[i].1 {
                            Some(v) => Some(strs(v@)),
                            None => None,
                        },
                    ),
            ),
        }
    }
}

pub open spec fn query_of(q: FsQuery) -> QueryModel {
    match q {
        FsQuery::IsDir(p) => QueryModel::IsDir(p@),
        FsQuery::IsFile(p) => QueryModel::IsFile(p@),
        FsQuery::ListDir(p) => QueryModel::ListDir(p@),
    }
}

/// The first answer recorded for `p`, if any.
pub open spec fn answer<A>(known: Seq<(Seq<char>, A)>, p: Seq<char>) -> Option<A>
    decreases known.len(),
{
    if known.len() == 0 {
        None
    } else if known[0].0 == p {
        Some(known[0].1)
    } else {
        answer(known.drop_first(), p)
    }
}

/// Whether the answer to `q` is recorded in `fs`.
pub open spec fn answered(fs: FsModel, q: QueryModel) -> bool {
    match q {
        QueryModel::IsDir(p) => answer(fs.dirs, p) is Some,
        QueryModel::IsFile(p) => answer(fs.files, p) is Some,
        QueryModel::ListDir(p) => answer(fs.listings, p) is Some,
    }
}

/// The first of `paths` that is a file.
pub open spec fn first_file(paths: Seq<Seq<char>>, fs: FsModel) -> Step
    decreases paths.len(),
{
    if paths.len() == 0 {
        Step::NotFound
    } else {
        match answer(fs.files, paths[0]) {
            None => Step::Need(QueryModel::IsFile(paths[0])),
            Some(true) => Step::Found(paths[0]),
            Some(false) => first_file(paths.drop_first(), fs),
        }
    }
}

/// `a`, or `b` when `a` found nothing.
pub open spec fn or_else(a: Step, b: Step) -> Step {
    match a {
        Step::NotFound => b,
        _ => a,
    }
}

/// The first `<dir>/<entry>/<sub>` that is a file, for the entries of
/// `dir` in listing order (`sub` one or two path components).
pub open spec fn first_in_children(dir: Seq<char>, sub: Seq<Seq<char>>, fs: FsModel) -> Step {
    match answer(fs.listings, dir) {
        None => Step::Need(QueryModel::ListDir(dir)),
        Some(None) => Step::NotFound,
        Some(Some(names)) => first_file(
            Seq::new(names.len(), |k: int| join_all(path_join(dir, names[k]), sub)),
            fs,
        ),
    }
}

/// `base` joined with each of `comps` in turn.
pub open spec fn join_all(base: Seq<char>, comps: Seq<Seq<char>>) -> Seq<char>
    decreases comps.len(),
{
    if comps.len() == 0 {
        base
    } else {
        join_all(path_join(base, comps[0]), comps.drop_first())
    }
}

/// Number of icon sizes searched.
pub const SIZE_COUNT: usize = 7;

/// The icon sizes searched, largest first, as `<n>x<n>` (hicolor-style
/// directory) and `<n>` (category-first directory).
pub open spec fn size_dirs(i: int) -> (Seq<char>, Seq<char>) {
    if i == 0 {
        ("128x128"@, "128"@)
    } else if i == 1 {
        ("64x64"@, "64"@)
    } else if i == 2 {
        ("48x48"@, "48"@)
    } else if i == 3 {
        ("32x32"@, "32"@)
    } else if i == 4 {
        ("24x24"@, "24"@)
    } else if i == 5 {
        ("22x22"@, "22"@)
    } else {
        ("16x16"@, "16"@)
    }
}

/// Number of icon themes searched.
pub const THEME_COUNT: usize = 3;

/// The icon themes searched, in order.
pub open spec fn theme_name(i: int) -> Seq<char> {
    if i == 0 {
        "hicolor"@
    } else if i == 1 {
        "AdwaitaLegacy"@
    } else {
        "Adwaita"@
    }
}

/// Searches one size of one theme: `<size>x<size>/<file>`, then
/// `<size>x<size>/<category>/<file>`, then `<category>/<size>/<file>`.
pub open spec fn size_step(theme_dir: Seq<char>, file: Seq<char>, i: int, fs: FsModel) -> Step {
    let size_dir = path_join(theme_dir, size_dirs(i).0);
    or_else(
        first_file(seq![path_join(size_dir, file)], fs),
        or_else(
            first_in_children(size_dir, seq![file], fs),
            first_in_children(theme_dir, seq![size_dirs(i).1, file], fs),
        ),
    )
}

/// Searches the sizes from `i` on, largest first.
pub open spec fn sizes_step(theme_dir: Seq<char>, file: Seq<char>, i: int, fs: FsModel) -> Step
    decreases SIZE_COUNT - i,
{
    if i >= SIZE_COUNT {
        Step::NotFound
    } else {
        or_else(size_step(theme_dir, file, i, fs), sizes_step(theme_dir, file, i + 1, fs))
    }
}

/// Searches one theme directory, if it is a directory.
pub open spec fn theme_step(theme_dir: Seq<char>, file: Seq<char>, fs: FsModel) -> Step {
    match answer(fs.dirs, theme_dir) {
        None => Step::Need(QueryModel::IsDir(theme_dir)),
        Some(false) => Step::NotFound,
        Some(true) => sizes_step(theme_dir, file, 0, fs),
    }
}

/// Searches the themes from `t` on under each base directory from `b`
/// on, in order.
pub open spec fn bases_step(bases: Seq<Seq<char>>, b: int, t: int, file: Seq<char>, fs: FsModel) -> Step
    decreases bases.len() - b, THEME_COUNT - t,
{
    if b < 0 || b >= bases.len() {
        Step::NotFound
    } else if t >= THEME_COUNT {
        bases_step(bases, b + 1, 0, file, fs)
    } else {
        or_else(
            theme_step(path_join(bases[b], theme_name(t)), file, fs),
            bases_step(bases, b, t + 1, file, fs),
        )
    }
}

/// The icon search for `name`: an absolute path is used directly if it
/// is a file; otherwise the themes under each icon base directory, then
/// `<pixmaps>/<name>.png`.
pub open spec fn icon_search(
    name: Seq<char>,
    bases: Seq<Seq<char>>,
    pixmaps: Seq<char>,
    fs: FsModel,
) -> Step {
    if name.len() > 0 && name[0] == '/' {
        first_file(seq![name], fs)
    } else {
        let file = name + ".png"@;
        or_else(bases_step(bases, 0, 0, file, fs), first_file(seq![path_join(pixmaps, file)], fs))
    }
}

pub open spec fn search_of(r: IconSearch) -> Step {
    match r {
        IconSearch::Done(Some(p)) => Step::Found(p@),
        IconSearch::Done(None) => Step::NotFound,
        IconSearch::Need(q) => Step::Need(query_of(q)),
    }
}

proof fn lemma_answer<A>(known: Seq<(Seq<char>, A)>, p: Seq<char>, j: int)
    requires
        0 <= j <= known.len(),
        forall|q: int| 0 <= q < j ==> (#[trigger] known[q]).0 != p,
        j == known.len() || known[j].0 == p,
    ensures
        j == known.len() ==> answer(known, p) is None,
        j < known.len() ==> answer(known, p) == Some(known[j].1),
    decreases j,
{
    if j > 0 {
        let t = known.drop_first();
        assert forall|q: int| 0 <= q < j - 1 implies (#[trigger] t[q]).0 != p by {
            assert(t[q] == known[q + 1]);
        }
        if j - 1 < t.len() {
            assert(t[j - 1] == known[j]);
        }
        lemma_answer(t, p, j - 1);
    }
}

impl FsKnowledge {
    fn is_dir(&self, p: &String) -> (r: Option<bool>)
        ensures
            r == answer(self@.dirs, p@),
    {
        let ghost K = self@.dirs;
        let mut j: usize = 0;
        while j < self.dirs.len()
            invariant
                j <= self.dirs.len(),
                K == self@.dirs,
                forall|q: int| 0 <= q < j ==> (#[trigger] K[q]).0 != p@,
            decreases self.dirs.len() - j,
        {
            if self.dirs[j].0 == *p {
                proof { lemma_answer(K, p@, j as int); }
                return Some(self.dirs[j].1);
            }
            j = j + 1;
        }
        proof { lemma_answer(K, p@, j as int); }
        None
    }

    fn is_file(&self, p: &String) -> (r: Option<bool>)
        ensures
            r == answer(self@.files, p@),
    {
        let ghost K = self@.files;
        let mut j: usize = 0;
        while j < self.files.len()
            invariant
                j <= self.files.len(),
                K == self@.files,
                forall|q: int| 0 <= q < j ==> (#[trigger] K[q]).0 != p@,
            decreases self.files.len() - j,
        {
            if self.files[j].0 == *p {
                proof { lemma_answer(K, p@, j as int); }
                return Some(self.files[j].1);
            }
            j = j + 1;
        }
        proof { lemma_answer(K, p@, j as int); }
        None
    }

    /// Index of the first listing recorded for `p`.
    fn listing(&self, p: &String) -> (r: Option<usize>)
        ensures
            r is None ==> answer(self@.listings, p@) is None,
            r matches Some(j) ==> j < self.listings.len() && answer(self@.listings, p@) == Some(
                self@.listings[j as int].1,
            ),
    {
        let ghost K = self@.listings;
        let mut j: usize = 0;
        while j < self.listings.len()
            invariant
                j <= self.listings.len(),
                K == self@.listings,
                forall|q: int| 0 <= q < j ==> (#[trigger] K[q]).0 != p@,
            decreases self.listings.len() - j,
        {
            if self.listings[j].0 == *p {
                proof { lemma_answer(K, p@, j as int); }
                return Some(j);
            }
            j = j + 1;
        }
        proof { lemma_answer(K, p@, j as int); }
        None
    }
}

enum StepX {
    Found(String),
    NotFound,
    Need(FsQuery),
}

spec fn step_of(s: StepX) -> Step {
    match s {
        StepX::Found(p) => Step::Found(p@),
        StepX::NotFound => Step::NotFound,
        StepX::Need(q) => Step::Need(query_of(q)),
    }
}

fn check_file(p: String, fs: &FsKnowledge) -> (r: StepX)
    ensures
        step_of(r) == first_file(seq![p@], fs@),
{
    assert(seq![p@].drop_first() =~= Seq::<Seq<char>>::empty());
    assert(seq![p@][0] == p@);
    assert(first_file(Seq::<Seq<char>>::empty(), fs@) == Step::NotFound);
    match fs.is_file(&p) {
        None => StepX::Need(FsQuery::IsFile(p)),
        Some(true) => StepX::Found(p),
        Some(false) => StepX::NotFound,
    }
}

fn join_each(base: &String, comps: &Vec<String>) -> (r: String)
    ensures
        r@ == join_all(base@, strs(comps@)),
{
    let mut cur = base.clone();
    let mut i: usize = 0;
    assert(strs(comps@).skip(0) == strs(comps@));
    while i < comps.len()
        invariant
            i <= comps.len(),
            join_all(base@, strs(comps@)) == join_all(cur@, strs(comps@).skip(i as int)),
        decreases comps.len() - i,
    {
        assert(strs(comps@).skip(i as int)[0] == comps@[i as int]@);
        assert(strs(comps@).skip(i as int).drop_first() == strs(comps@).skip(i + 1));
        cur = join_path(cur.as_str(), comps[i].as_str());
        i = i + 1;
    }
    assert(strs(comps@).skip(i as int).len() == 0);
    cur
}

fn search_children(dir: &String, sub: &Vec<String>, fs: &FsKnowledge) -> (r: StepX)
    ensures
        step_of(r) == first_in_children(dir@, strs(sub@), fs@),
{
    match fs.listing(dir) {
        None => StepX::Need(FsQuery::ListDir(dir.clone())),
        Some(j) => match &fs.listings[j].1 {
            None => StepX::NotFound,
            Some(names) => {
                let ghost P = Seq::new(
                    strs(names@).len(),
                    |k: int| join_all(path_join(dir@, strs(names@)[k]), strs(sub@)),
                );
                assert(first_in_children(dir@, strs(sub@), fs@) == first_file(P, fs@));
                let mut k: usize = 0;
                assert(P.skip(0) == P);
                while k < names.len()
                    invariant
                        k <= names.len(),
                        P.len() == names.len(),
                        P == Seq::new(
                            strs(names@).len(),
                            |k: int| join_all(path_join(dir@, strs(names@)[k]), strs(sub@)),
                        ),
                        first_in_children(dir@, strs(sub@), fs@) == first_file(P, fs@),
                        first_file(P, fs@) == first_file(P.skip(k as int), fs@),
                    decreases names.len() - k,
                {
                    let child = join_path(dir.as_str(), names[k].as_str());
                    let cand = join_each(&child, sub);
                    assert(P[k as int] == cand@);
                    assert(P.skip(k as int)[0] == cand@);
                    assert(P.skip(k as int).drop_first() == P.skip(k + 1));
                    match fs.is_file(&cand) {
                        None => {
                            return StepX::Need(FsQuery::IsFile(cand));
                        },
                        Some(true) => {
                            return StepX::Found(cand);
                        },
                        Some(false) => {},
                    }
                    k = k + 1;
                }
                assert(P.skip(k as int).len() == 0);
                StepX::NotFound
            },
        },
    }
}

fn size_names(i: usize) -> (r: (&'static str, &'static str))
    ensures
        (r.0@, r.1@) == size_dirs(i as int),
{
    if i == 0 {
        ("128x128", "128")
    } else if i == 1 {
        ("64x64", "64")
    } else if i == 2 {
        ("48x48", "48")
    } else if i == 3 {
        ("32x32", "32")
    } else if i == 4 {
        ("24x24", "24")
    } else if i == 5 {
        ("22x22", "22")
    } else {
        ("16x16", "16")
    }
}

fn theme_str(i: usize) -> (r: &'static str)
    ensures
        r@ == theme_name(i as int),
{
    if i == 0 {
        "hicolor"
    } else if i == 1 {
        "AdwaitaLegacy"
    } else {
        "Adwaita"
    }
}

fn search_size(theme_dir: &String, file: &String, i: usize, fs: &FsKnowledge) -> (r: StepX)
    ensures
        step_of(r) == size_step(theme_dir@, file@, i as int, fs@),
{
    let (sd, sn) = size_names(i);
    let size_dir = join_path(theme_dir.as_str(), sd);
    let direct = check_file(join_path(size_dir.as_str(), file.as_str()), fs);
    match direct {
        StepX::NotFound => {},
        _ => {
            return direct;
        },
    }
    let mut sub1: Vec<String> = Vec::new();
    sub1.push(file.clone());
    assert(strs(sub1@) =~= seq![file@]);
    let nested = search_children(&size_dir, &sub1, fs);
    match nested {
        StepX::NotFound => {},
        _ => {
            return nested;
        },
    }
    let mut sub2: Vec<String> = Vec::new();
    sub2.push(sn.to_string());
    sub2.push(file.clone());
    assert(strs(sub2@) =~= seq![size_dirs(i as int).1, file@]);
    search_children(theme_dir, &sub2, fs)
}

fn search_theme(theme_dir: &String, file: &String, fs: &FsKnowledge) -> (r: StepX)
    ensures
        step_of(r) == theme_step(theme_dir@, file@, fs@),
{
    match fs.is_dir(theme_dir) {
        None => StepX::Need(FsQuery::IsDir(theme_dir.clone())),
        Some(false) => StepX::NotFound,
        Some(true) => {
            let mut i: usize = 0;
            while i < SIZE_COUNT
                invariant
                    i <= SIZE_COUNT,
                    theme_step(theme_dir@, file@, fs@) == sizes_step(theme_dir@, file@, 0, fs@),
                    sizes_step(theme_dir@, file@, 0, fs@) == sizes_step(theme_dir@, file@, i as int, fs@),
                decreases SIZE_COUNT - i,
            {
                let r = search_size(theme_dir, file, i, fs);
                match r {
                    StepX::NotFound => {},
                    _ => {
                        return r;
                    },
                }
                i = i + 1;
            }
            StepX::NotFound
        },
    }
}

/// Resolves an icon name (a `.desktop` file's `Icon=` value, or a
/// fallback name) to a PNG file, given the icon base directories, the
/// pixmaps directory and what the file system said so far. An absolute
/// path is used directly if it is a file. Otherwise the search tries
/// each theme (`hicolor`, `AdwaitaLegacy`, `Adwaita`) under each base
/// directory, sizes largest first, in both directory layouts, then
/// `<pixmaps>/<name>.png`. `Need(q)` asks a question `fs` does not
/// answer yet: the caller answers it, records it, and searches again.
pub fn find_icon_file(name: &str, icon_base_dirs: &Vec<String>, pixmaps_dir: &str, fs: &FsKnowledge) -> (r: IconSearch)
    ensures
        search_of(r) == icon_search(name@, strs(icon_base_dirs@), pixmaps_dir@, fs@),
        r matches IconSearch::Need(q) ==> !answered(fs@, query_of(q)),
        r matches IconSearch::Done(Some(p)) ==> answer(fs@.files, p@) == Some(true),
{
    let n = chars_of(name);
    let found: StepX = if n.len() > 0 && n[0] == '/' {
        check_file(name.to_string(), fs)
    } else {
        let mut fname = n;
        push_all(&mut fname, &chars_of(".png"));
        let file = string_of(&fname);
        let ghost B = strs(icon_base_dirs@);
        let mut result = StepX::NotFound;
        let mut b: usize = 0;
        let mut done = false;
        while b < icon_base_dirs.len() && !done
            invariant
                b <= icon_base_dirs.len(),
                B == strs(icon_base_dirs@),
                !done ==> bases_step(B, 0, 0, file@, fs@) == bases_step(B, b as int, 0, file@, fs@),
                done ==> step_of(result) == bases_step(B, 0, 0, file@, fs@) && !(result is NotFound),
            decreases icon_base_dirs.len() - b, if done { 0int } else { 1 },
        {
            let mut t: usize = 0;
            while t < THEME_COUNT && !done
                invariant
                    t <= THEME_COUNT,
                    b < icon_base_dirs.len(),
                    B == strs(icon_base_dirs@),
                    !done ==> bases_step(B, 0, 0, file@, fs@) == bases_step(B, b as int, t as int, file@, fs@),
                    done ==> step_of(result) == bases_step(B, 0, 0, file@, fs@) && !(result is NotFound),
                decreases THEME_COUNT - t,
            {
                let theme_dir = join_path(icon_base_dirs[b].as_str(), theme_str(t));
                let r = search_theme(&theme_dir, &file, fs);
                match r {
                    StepX::NotFound => {},
                    _ => {
                        result = r;
                        done = true;
                    },
                }
                t = t + 1;
            }
            if !done {
                b = b + 1;
            }
        }
        if done {
            result
        } else {
            check_file(join_path(pixmaps_dir, file.as_str()), fs)
        }
    };
    let r = match found {
        StepX::Found(p) => IconSearch::Done(Some(p)),
        StepX::NotFound => IconSearch::Done(None),
        StepX::Need(q) => IconSearch::Need(q),
    };
    proof {
        lemma_search_sound(name@, strs(icon_base_dirs@), pixmaps_dir@, fs@);
    }
    r
}

// ---------------------------------------------------------------------
// Soundness of the search
// ---------------------------------------------------------------------

/// What every step of the search satisfies: a question it asks is not
/// answered yet, and a file it finds is one the file system called a
/// file.
pub open spec fn step_sound(s: Step, fs: FsModel) -> bool {
    match s {
        Step::Found(p) => answer(fs.files, p) == Some(true),
        Step::NotFound => true,
        Step::Need(q) => !answered(fs, q),
    }
}

proof fn lemma_first_file_sound(paths: Seq<Seq<char>>, fs: FsModel)
    ensures
        step_sound(first_file(paths, fs), fs),
    decreases paths.len(),
{
    if paths.len() > 0 {
        lemma_first_file_sound(paths.drop_first(), fs);
    }
}

proof fn lemma_children_sound(dir: Seq<char>, sub: Seq<Seq<char>>, fs: FsModel)
    ensures
        step_sound(first_in_children(dir, sub, fs), fs),
{
    match answer(fs.listings, dir) {
        Some(Some(names)) => lemma_first_file_sound(
            Seq::new(names.len(), |k: int| join_all(path_join(dir, names[k]), sub)),
            fs,
        ),
        _ => {},
    }
}

proof fn lemma_sizes_sound(theme_dir: Seq<char>, file: Seq<char>, i: int, fs: FsModel)
    ensures
        step_sound(sizes_step(theme_dir, file, i, fs), fs),
    decreases SIZE_COUNT - i,
{
    if i < SIZE_COUNT {
        let size_dir = path_join(theme_dir, size_dirs(i).0);
        lemma_first_file_sound(seq![path_join(size_dir, file)], fs);
        lemma_children_sound(size_dir, seq![file], fs);
        lemma_children_sound(theme_dir, seq![size_dirs(i).1, file], fs);
        lemma_sizes_sound(theme_dir, file, i + 1, fs);
    }
}

proof fn lemma_bases_sound(bases: Seq<Seq<char>>, b: int, t: int, file: Seq<char>, fs: FsModel)
    ensures
        step_sound(bases_step(bases, b, t, file, fs), fs),
    decreases bases.len() - b, THEME_COUNT - t,
{
    if 0 <= b < bases.len() {
        if t >= THEME_COUNT {
            lemma_bases_sound(bases, b + 1, 0, file, fs);
        } else {
            lemma_sizes_sound(path_join(bases[b], theme_name(t)), file, 0, fs);
            lemma_bases_sound(bases, b, t + 1, file, fs);
        }
    }
}

/// The icon search only asks what it does not know yet, and only
/// reports a file the file system called a file.
pub proof fn lemma_search_sound(name: Seq<char>, bases: Seq<Seq<char>>, pixmaps: Seq<char>, fs: FsModel)
    ensures
        step_sound(icon_search(name, bases, pixmaps, fs), fs),
{
    let file = name + ".png"@;
    lemma_first_file_sound(seq![name], fs);
    lemma_bases_sound(bases, 0, 0, file, fs);
    lemma_first_file_sound(seq![path_join(pixmaps, file)], fs);
}

// ---------------------------------------------------------------------
// The icon sizes
// ---------------------------------------------------------------------

/// The number a string of decimal digits writes.
pub open spec fn decimal(s: Seq<char>) -> int
    decreases s.len(),
{
    if s.len() == 0 {
        0
    } else {
        decimal(s.drop_last()) * 10 + (s.last() as int - '0' as int)
    }
}

/// Whether `s` is a non-empty string of decimal digits.
pub open spec fn digits(s: Seq<char>) -> bool {
    s.len() > 0 && forall|k: int| 0 <= k < s.len() ==> '0' <= #[trigger] s[k] <= '9'
}

proof fn lemma_size(i: int, n: int)
    requires
        0 <= i < SIZE_COUNT,
        n == seq![128int, 64, 48, 32, 24, 22, 16][i],
    ensures
        digits(size_dirs(i).1),
        decimal(size_dirs(i).1) == n,
        size_dirs(i).0 == size_dirs(i).1 + "x"@ + size_dirs(i).1,
{
    reveal_strlit("x");
    reveal_strlit("128x128");
    reveal_strlit("128");
    reveal_strlit("64x64");
    reveal_strlit("64");
    reveal_strlit("48x48");
    reveal_strlit("48");
    reveal_strlit("32x32");
    reveal_strlit("32");
    reveal_strlit("24x24");
    reveal_strlit("24");
    reveal_strlit("22x22");
    reveal_strlit("22");
    reveal_strlit("16x16");
    reveal_strlit("16");
    let d = size_dirs(i).1;
    reveal_with_fuel(decimal, 4);
    assert(size_dirs(i).0 =~= size_dirs(i).1 + "x"@ + size_dirs(i).1);
}

/// The theme sizes are searched largest first: each size directory is
/// named `<n>x<n>` for a decimal `n`, and `n` strictly decreases from
/// one size searched to the next, from 128 down to 16.
pub proof fn law_sizes_largest_first()
    ensures
        forall|i: int|
            0 <= i < SIZE_COUNT ==> digits(#[trigger] size_dirs(i).1) && size_dirs(i).0 == size_dirs(i).1
                + "x"@ + size_dirs(i).1,
        forall|i: int, j: int|
            0 <= i < j < SIZE_COUNT ==> decimal(#[trigger] size_dirs(i).1) > decimal(#[trigger] size_dirs(j).1),
        decimal(size_dirs(0).1) == 128,
        decimal(size_dirs(SIZE_COUNT - 1).1) == 16,
{
    let ns = seq![128int, 64, 48, 32, 24, 22, 16];
    assert forall|i: int| 0 <= i < SIZE_COUNT implies decimal(#[trigger] size_dirs(i).1) == ns[i] && digits(size_dirs(i).1)
        && size_dirs(i).0 == size_dirs(i).1 + "x"@ + size_dirs(i).1 by {
        lemma_size(i, ns[i]);
    }
    assert forall|i: int, j: int| 0 <= i < j < SIZE_COUNT implies decimal(#[trigger] size_dirs(i).1) > decimal(
        #[trigger] size_dirs(j).1,
    ) by {
        assert(decimal(size_dirs(i).1) == ns[i]);
        assert(decimal(size_dirs(j).1) == ns[j]);
    }
    assert(decimal(size_dirs(0).1) == ns[0]);
    assert(decimal(size_dirs(6).1) == ns[6]);
}

} // verus!
