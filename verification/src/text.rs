//! Character-level text handling shared by the menu, desktop-entry and
//! icon-theme parsers: whitespace trimming, line splitting, prefix tests,
//! field splitting and joining, all over sequences of `char`.
use vstd::prelude::*;

verus! {

broadcast use vstd::string::group_string_axioms;

// ---------------------------------------------------------------------
// Specifications
// ---------------------------------------------------------------------

/// Unicode `White_Space`, the set `char::is_whitespace` (and so
/// `str::trim`, `str::split_whitespace`) uses.
pub open spec fn is_ws(c: char) -> bool {
    ||| ('\u{9}' <= c && c <= '\u{d}')
    ||| c == ' '
    ||| c == '\u{85}'
    ||| c == '\u{a0}'
    ||| c == '\u{1680}'
    ||| ('\u{2000}' <= c && c <= '\u{200a}')
    ||| c == '\u{2028}'
    ||| c == '\u{2029}'
    ||| c == '\u{202f}'
    ||| c == '\u{205f}'
    ||| c == '\u{3000}'
}

/// `s` without its leading whitespace.
pub open spec fn trim_start(s: Seq<char>) -> Seq<char>
    decreases s.len(),
{
    if s.len() > 0 && is_ws(s[0]) {
        trim_start(s.drop_first())
    } else {
        s
    }
}

/// `s` without its trailing whitespace.
pub open spec fn trim_end(s: Seq<char>) -> Seq<char>
    decreases s.len(),
{
    if s.len() > 0 && is_ws(s.last()) {
        trim_end(s.drop_last())
    } else {
        s
    }
}

/// `s` without leading and trailing whitespace (`str::trim`).
pub open spec fn trim(s: Seq<char>) -> Seq<char> {
    trim_end(trim_start(s))
}

/// Index of the first occurrence of `c` in `s`, if any.
pub open spec fn find_char(s: Seq<char>, c: char) -> Option<int>
    decreases s.len(),
{
    if s.len() == 0 {
        None
    } else if s[0] == c {
        Some(0)
    } else {
        match find_char(s.drop_first(), c) {
            Some(k) => Some(k + 1),
            None => None,
        }
    }
}

/// Whether `p` is a prefix of `s`.
pub open spec fn has_prefix(s: Seq<char>, p: Seq<char>) -> bool {
    p.len() <= s.len() && s.take(p.len() as int) == p
}

/// `str::strip_prefix`.
pub open spec fn strip_prefix(s: Seq<char>, p: Seq<char>) -> Option<Seq<char>> {
    if has_prefix(s, p) {
        Some(s.skip(p.len() as int))
    } else {
        None
    }
}

/// A line without the `'\r'` of a `"\r\n"` ending.
pub open spec fn strip_cr(l: Seq<char>) -> Seq<char> {
    if l.len() > 0 && l.last() == '\r' {
        l.drop_last()
    } else {
        l
    }
}

/// The lines of `s` as `str::lines` yields them: split at each `'\n'`,
/// a `'\r'` right before a `'\n'` dropped, and no empty last line after
/// a final `'\n'`.
pub open spec fn lines(s: Seq<char>) -> Seq<Seq<char>>
    decreases s.len(),
{
    if s.len() == 0 {
        seq![]
    } else {
        match find_char(s, '\n') {
            None => seq![s],
            Some(k) => if 0 <= k < s.len() {
                seq![strip_cr(s.take(k))] + lines(s.skip(k + 1))
            } else {
                seq![s]
            },
        }
    }
}

/// The pieces of `s` between occurrences of `c` (`str::split` with a
/// `char`): always at least one piece.
pub open spec fn split_on(s: Seq<char>, c: char) -> Seq<Seq<char>>
    decreases s.len(),
{
    match find_char(s, c) {
        None => seq![s],
        Some(k) => if 0 <= k < s.len() {
            seq![s.take(k)] + split_on(s.skip(k + 1), c)
        } else {
            seq![s]
        },
    }
}

/// The non-empty pieces of `split_on(s, c)`, in order.
pub open spec fn split_nonempty(s: Seq<char>, c: char) -> Seq<Seq<char>> {
    split_on(s, c).filter(|p: Seq<char>| p.len() > 0)
}

/// Index of the first whitespace character of `s`, or its length.
pub open spec fn word_len(s: Seq<char>) -> int
    decreases s.len(),
{
    if s.len() == 0 || is_ws(s[0]) {
        0
    } else {
        1 + word_len(s.drop_first())
    }
}

/// The maximal runs of non-whitespace characters of `s`
/// (`str::split_whitespace`).
pub open spec fn words(s: Seq<char>) -> Seq<Seq<char>>
    decreases s.len(),
{
    let t = trim_start(s);
    if t.len() == 0 {
        seq![]
    } else {
        let k = word_len(t);
        if 0 < k <= t.len() && t.len() <= s.len() {
            seq![t.take(k)] + words(t.skip(k))
        } else {
            seq![]
        }
    }
}

/// The pieces of `ws` joined with single spaces between them.
pub open spec fn join_spaced(ws: Seq<Seq<char>>) -> Seq<char>
    decreases ws.len(),
{
    if ws.len() == 0 {
        seq![]
    } else if ws.len() == 1 {
        ws[0]
    } else {
        join_spaced(ws.drop_last()) + seq![' '] + ws.last()
    }
}

/// The character sequences held by a sequence of character vectors.
pub open spec fn seqs_of(v: Seq<Vec<char>>) -> Seq<Seq<char>> {
    Seq::new(v.len(), |i: int| v[i]@)
}

/// Whether `s` holds whitespace nowhere.
pub open spec fn no_ws(s: Seq<char>) -> bool {
    forall|i: int| 0 <= i < s.len() ==> !is_ws(#[trigger] s[i])
}

// ---------------------------------------------------------------------
// Lemmas
// ---------------------------------------------------------------------

pub proof fn lemma_trim_start_skip(s: Seq<char>, k: int)
    requires
        0 <= k <= s.len(),
        forall|j: int| 0 <= j < k ==> is_ws(#[trigger] s[j]),
        k == s.len() || !is_ws(s[k]),
    ensures
        trim_start(s) == s.skip(k),
    decreases k,
{
    if k == 0 {
        assert(s.skip(0) == s);
    } else {
        let t = s.drop_first();
        assert forall|j: int| 0 <= j < k - 1 implies is_ws(#[trigger] t[j]) by {
            assert(t[j] == s[j + 1]);
        }
        if k - 1 < t.len() {
            assert(t[k - 1] == s[k]);
        }
        lemma_trim_start_skip(t, k - 1);
        assert(t.skip(k - 1) == s.skip(k));
    }
}

pub proof fn lemma_trim_end_take(s: Seq<char>, k: int)
    requires
        0 <= k <= s.len(),
        forall|j: int| k <= j < s.len() ==> is_ws(#[trigger] s[j]),
        k == 0 || !is_ws(s[k - 1]),
    ensures
        trim_end(s) == s.take(k),
    decreases s.len() - k,
{
    if k == s.len() {
        assert(s.take(k) == s);
    } else {
        let t = s.drop_last();
        assert forall|j: int| k <= j < t.len() implies is_ws(#[trigger] t[j]) by {
            assert(t[j] == s[j]);
        }
        if k > 0 {
            assert(t[k - 1] == s[k - 1]);
        }
        lemma_trim_end_take(t, k);
        assert(t.take(k) == s.take(k));
    }
}

pub proof fn lemma_find_char(s: Seq<char>, c: char, k: int)
    requires
        0 <= k <= s.len(),
        forall|j: int| 0 <= j < k ==> #[trigger] s[j] != c,
    ensures
        k == s.len() ==> find_char(s, c) == None::<int>,
        k < s.len() && s[k] == c ==> find_char(s, c) == Some(k),
    decreases k,
{
    if k > 0 {
        let t = s.drop_first();
        assert forall|j: int| 0 <= j < k - 1 implies #[trigger] t[j] != c by {
            assert(t[j] == s[j + 1]);
        }
        if k - 1 < t.len() {
            assert(t[k - 1] == s[k]);
        }
        lemma_find_char(t, c, k - 1);
    }
}

pub proof fn lemma_find_char_props(s: Seq<char>, c: char)
    ensures
        find_char(s, c) matches Some(k) ==> 0 <= k < s.len() && s[k] == c && forall|j: int|
            0 <= j < k ==> s[j] != c,
        find_char(s, c) is None ==> forall|j: int| 0 <= j < s.len() ==> s[j] != c,
    decreases s.len(),
{
    if s.len() > 0 {
        let t = s.drop_first();
        lemma_find_char_props(t, c);
        if s[0] != c {
            assert forall|j: int| 1 <= j < s.len() implies s[j] == t[j - 1] by {}
        }
    }
}

pub proof fn lemma_word_len(s: Seq<char>, k: int)
    requires
        0 <= k <= s.len(),
        forall|j: int| 0 <= j < k ==> !is_ws(#[trigger] s[j]),
        k == s.len() || is_ws(s[k]),
    ensures
        word_len(s) == k,
    decreases k,
{
    if k > 0 {
        let t = s.drop_first();
        assert forall|j: int| 0 <= j < k - 1 implies !is_ws(#[trigger] t[j]) by {
            assert(t[j] == s[j + 1]);
        }
        if k - 1 < t.len() {
            assert(t[k - 1] == s[k]);
        }
        lemma_word_len(t, k - 1);
    }
}

pub proof fn lemma_trim_start_props(s: Seq<char>)
    ensures
        trim_start(s).len() <= s.len(),
        trim_start(s) == s.skip(s.len() - trim_start(s).len()),
        trim_start(s).len() > 0 ==> !is_ws(trim_start(s)[0]),
    decreases s.len(),
{
    if s.len() > 0 && is_ws(s[0]) {
        lemma_trim_start_props(s.drop_first());
        let t = trim_start(s.drop_first());
        assert(s.drop_first().skip(s.drop_first().len() - t.len()) == s.skip(s.len() - t.len()));
    } else {
        assert(s.skip(0) == s);
    }
}

pub proof fn lemma_word_len_props(s: Seq<char>)
    ensures
        0 <= word_len(s) <= s.len(),
        forall|j: int| 0 <= j < word_len(s) ==> !is_ws(#[trigger] s[j]),
        word_len(s) < s.len() ==> is_ws(s[word_len(s)]),
    decreases s.len(),
{
    if s.len() > 0 && !is_ws(s[0]) {
        let t = s.drop_first();
        lemma_word_len_props(t);
        assert forall|j: int| 0 <= j < word_len(s) implies !is_ws(#[trigger] s[j]) by {
            if j > 0 {
                assert(s[j] == t[j - 1]);
            }
        }
        if word_len(s) < s.len() {
            assert(s[word_len(s)] == t[word_len(t)]);
        }
    }
}

/// Whether `s` has no whitespace at either end and none but single
/// spaces inside.
pub open spec fn collapsed(s: Seq<char>) -> bool {
    s.len() == 0 || {
        &&& !is_ws(s[0])
        &&& !is_ws(s.last())
        &&& forall|i: int|
            0 <= i < s.len() - 1 && is_ws(#[trigger] s[i]) ==> s[i] == ' ' && !is_ws(s[i + 1])
    }
}

/// Every word of `s` is non-empty and holds no whitespace.
pub proof fn lemma_words_props(s: Seq<char>)
    ensures
        forall|k: int| 0 <= k < words(s).len() ==> (#[trigger] words(s)[k]).len() > 0 && no_ws(words(s)[k]),
    decreases s.len(),
{
    let t = trim_start(s);
    lemma_trim_start_props(s);
    if t.len() > 0 {
        let k = word_len(t);
        lemma_word_len_props(t);
        if 0 < k <= t.len() && t.len() <= s.len() {
            lemma_words_props(t.skip(k));
            let ws = words(s);
            assert(ws == seq![t.take(k)] + words(t.skip(k)));
            assert forall|q: int| 0 <= q < ws.len() implies (#[trigger] ws[q]).len() > 0 && no_ws(ws[q]) by {
                if q == 0 {
                    assert(ws[0] == t.take(k));
                    assert forall|i: int| 0 <= i < ws[0].len() implies !is_ws(#[trigger] ws[0][i]) by {
                        assert(ws[0][i] == t[i]);
                    }
                } else {
                    assert(ws[q] == words(t.skip(k))[q - 1]);
                }
            }
        }
    }
}

/// Joining non-empty whitespace-free pieces with single spaces gives a
/// collapsed text.
pub proof fn lemma_join_spaced_collapsed(ws: Seq<Seq<char>>)
    requires
        forall|k: int| 0 <= k < ws.len() ==> (#[trigger] ws[k]).len() > 0 && no_ws(ws[k]),
    ensures
        collapsed(join_spaced(ws)),
        ws.len() > 0 ==> join_spaced(ws).len() > 0,
    decreases ws.len(),
{
    if ws.len() == 1 {
        let w = ws[0];
        assert(no_ws(w) && w.len() > 0);
        assert(!is_ws(w[0]) && !is_ws(w[w.len() - 1]));
    } else if ws.len() > 1 {
        let front = ws.drop_last();
        assert forall|k: int| 0 <= k < front.len() implies (#[trigger] front[k]).len() > 0 && no_ws(front[k]) by {
            assert(front[k] == ws[k]);
        }
        lemma_join_spaced_collapsed(front);
        let a = join_spaced(front);
        let w = ws.last();
        assert(no_ws(w) && w.len() > 0);
        let r = join_spaced(ws);
        assert(r == a + seq![' '] + w);
        assert(r[0] == a[0]);
        assert(r.last() == w[w.len() - 1]);
        assert forall|i: int| 0 <= i < r.len() - 1 && is_ws(#[trigger] r[i]) implies r[i] == ' ' && !is_ws(r[i + 1]) by {
            if i < a.len() - 1 {
                assert(r[i] == a[i] && r[i + 1] == a[i + 1]);
            } else if i == a.len() - 1 {
                assert(r[i] == a.last());
            } else if i == a.len() {
                assert(r[i + 1] == w[0]);
            } else {
                assert(r[i] == w[i - a.len() - 1]);
            }
        }
    }
}

// ---------------------------------------------------------------------
// Executable functions
// ---------------------------------------------------------------------

/// Appends one character to a string (`String::push`).
#[verifier::external_body]
fn push_char(s: &mut String, c: char)
    ensures
        final(s)@ == old(s)@.push(c),
{
    s.push(c);
}

/// The characters of `s`, in order.
pub fn chars_of(s: &str) -> (v: Vec<char>)
    ensures
        v@ == s@,
{
    let mut v: Vec<char> = Vec::new();
    for c in it: s.chars()
        invariant
            it.seq() == s@,
            v@ == it.seq().take(it.index()),
    {
        v.push(c);
    }
    v
}

/// A string holding exactly the characters of `v`.
pub fn string_of(v: &Vec<char>) -> (s: String)
    ensures
        s@ == v@,
{
    let mut s = String::new();
    let mut i: usize = 0;
    while i < v.len()
        invariant
            i <= v.len(),
            s@ == v@.take(i as int),
        decreases v.len() - i,
    {
        push_char(&mut s, v[i]);
        assert(v@.take(i + 1) == v@.take(i as int).push(v@[i as int]));
        i = i + 1;
    }
    assert(v@.take(v.len() as int) == v@);
    s
}

/// `char::is_whitespace`.
pub fn is_whitespace(c: char) -> (b: bool)
    ensures
        b == is_ws(c),
{
    ('\u{9}' <= c && c <= '\u{d}') || c == ' ' || c == '\u{85}' || c == '\u{a0}' || c == '\u{1680}'
        || ('\u{2000}' <= c && c <= '\u{200a}') || c == '\u{2028}' || c == '\u{2029}' || c
        == '\u{202f}' || c == '\u{205f}' || c == '\u{3000}'
}

/// The characters of `v` from `from` up to (not including) `to`.
pub fn slice_of(v: &Vec<char>, from: usize, to: usize) -> (r: Vec<char>)
    requires
        from <= to <= v.len(),
    ensures
        r@ == v@.subrange(from as int, to as int),
{
    let mut r: Vec<char> = Vec::new();
    let mut i = from;
    while i < to
        invariant
            from <= i <= to <= v.len(),
            r@ == v@.subrange(from as int, i as int),
        decreases to - i,
    {
        r.push(v[i]);
        assert(v@.subrange(from as int, i + 1) == v@.subrange(from as int, i as int).push(
            v@[i as int],
        ));
        i = i + 1;
    }
    r
}

/// `v` without leading and trailing whitespace.
pub fn trim_chars(v: &Vec<char>) -> (r: Vec<char>)
    ensures
        r@ == trim(v@),
{
    let mut start: usize = 0;
    while start < v.len() && is_whitespace(v[start])
        invariant
            start <= v.len(),
            forall|j: int| 0 <= j < start ==> is_ws(#[trigger] v@[j]),
        decreases v.len() - start,
    {
        start = start + 1;
    }
    proof {
        lemma_trim_start_skip(v@, start as int);
    }
    let t = slice_of(v, start, v.len());
    assert(t@ == v@.skip(start as int));
    let mut end: usize = t.len();
    while end > 0 && is_whitespace(t[end - 1])
        invariant
            end <= t.len(),
            forall|j: int| end <= j < t.len() ==> is_ws(#[trigger] t@[j]),
        decreases end,
    {
        end = end - 1;
    }
    proof {
        lemma_trim_end_take(t@, end as int);
    }
    let r = slice_of(&t, 0, end);
    assert(r@ == t@.take(end as int));
    r
}

/// Whether the two character sequences are equal.
pub fn chars_eq(a: &Vec<char>, b: &Vec<char>) -> (r: bool)
    ensures
        r == (a@ == b@),
{
    if a.len() != b.len() {
        return false;
    }
    let mut i: usize = 0;
    while i < a.len()
        invariant
            i <= a.len() == b.len(),
            forall|j: int| 0 <= j < i ==> a@[j] == b@[j],
        decreases a.len() - i,
    {
        if a[i] != b[i] {
            return false;
        }
        i = i + 1;
    }
    assert(a@ =~= b@);
    true
}

/// Whether `s` equals the literal `lit`.
pub fn is_lit(s: &Vec<char>, lit: &str) -> (r: bool)
    ensures
        r == (s@ == lit@),
{
    let l = chars_of(lit);
    chars_eq(s, &l)
}

/// Whether `p` is a prefix of `s`.
pub fn starts_with(s: &Vec<char>, p: &Vec<char>) -> (r: bool)
    ensures
        r == has_prefix(s@, p@),
{
    if p.len() > s.len() {
        return false;
    }
    let mut i: usize = 0;
    while i < p.len()
        invariant
            i <= p.len() <= s.len(),
            forall|j: int| 0 <= j < i ==> s@[j] == p@[j],
        decreases p.len() - i,
    {
        if s[i] != p[i] {
            assert(s@.take(p.len() as int)[i as int] != p@[i as int]);
            return false;
        }
        i = i + 1;
    }
    assert(s@.take(p.len() as int) =~= p@);
    true
}

/// `s` with the literal prefix `lit` removed, if it starts with it.
pub fn strip_prefix_lit(s: &Vec<char>, lit: &str) -> (r: Option<Vec<char>>)
    ensures
        r matches Some(t) ==> strip_prefix(s@, lit@) == Some(t@),
        r is None ==> strip_prefix(s@, lit@) is None,
{
    let p = chars_of(lit);
    if starts_with(s, &p) {
        Some(slice_of(s, p.len(), s.len()))
    } else {
        None
    }
}

/// Index of the first `c` in `v`, if any.
pub fn find(v: &Vec<char>, c: char) -> (r: Option<usize>)
    ensures
        r matches Some(k) ==> find_char(v@, c) == Some(k as int),
        r is None ==> find_char(v@, c) is None,
{
    let mut i: usize = 0;
    while i < v.len()
        invariant
            i <= v.len(),
            forall|j: int| 0 <= j < i ==> #[trigger] v@[j] != c,
        decreases v.len() - i,
    {
        if v[i] == c {
            proof {
                lemma_find_char(v@, c, i as int);
            }
            return Some(i);
        }
        i = i + 1;
    }
    proof {
        lemma_find_char(v@, c, i as int);
    }
    None
}

/// The lines of `text` (`str::lines`).
pub fn split_lines(text: &Vec<char>) -> (r: Vec<Vec<char>>)
    ensures
        seqs_of(r@) == lines(text@),
{
    let mut r: Vec<Vec<char>> = Vec::new();
    let mut rest: Vec<char> = slice_of(text, 0, text.len());
    assert(rest@ == text@);
    while rest.len() > 0
        invariant
            seqs_of(r@) + lines(rest@) == lines(text@),
        decreases rest.len(),
    {
        let ghost old_rest = rest@;
        match find(&rest, '\n') {
            None => {
                assert(lines(old_rest) == seq![old_rest]);
                r.push(rest);
                rest = Vec::new();
                assert(seqs_of(r@) =~= lines(text@));
                assert(lines(rest@) =~= Seq::<Seq<char>>::empty());
            },
            Some(k) => {
                proof {
                    lemma_find_char_props(old_rest, '\n');
                }
                let mut line = slice_of(&rest, 0, k);
                if line.len() > 0 && line[line.len() - 1] == '\r' {
                    line.pop();
                }
                assert(line@ == strip_cr(old_rest.take(k as int)));
                let next = slice_of(&rest, k + 1, rest.len());
                assert(lines(old_rest) == seq![line@] + lines(next@));
                let ghost prev = seqs_of(r@);
                r.push(line);
                assert(seqs_of(r@) =~= prev.push(line@));
                assert(seqs_of(r@) + lines(next@) =~= prev + (seq![line@] + lines(next@)));
                rest = next;
            },
        }
    }
    assert(lines(rest@) =~= Seq::<Seq<char>>::empty());
    assert(seqs_of(r@) + lines(rest@) =~= seqs_of(r@));
    r
}

/// The pieces of `v` between occurrences of `c` that are not empty.
pub fn split_nonempty_chars(v: &Vec<char>, c: char) -> (r: Vec<Vec<char>>)
    ensures
        seqs_of(r@) == split_nonempty(v@, c),
{
    let mut r: Vec<Vec<char>> = Vec::new();
    let mut rest: Vec<char> = slice_of(v, 0, v.len());
    assert(rest@ == v@);
    let mut done = false;
    while !done
        invariant
            done ==> seqs_of(r@) == split_nonempty(v@, c),
            !done ==> seqs_of(r@) + split_nonempty(rest@, c) == split_nonempty(v@, c),
        decreases rest.len() + if done { 0int } else { 1 },
    {
        let ghost old_rest = rest@;
        let ghost prev = seqs_of(r@);
        match find(&rest, c) {
            None => {
                let ghost pieces = split_on(old_rest, c);
                assert(pieces == seq![old_rest]);
                if rest.len() > 0 {
                    assert(pieces.filter(|p: Seq<char>| p.len() > 0) =~= seq![old_rest]) by {
                        reveal_with_fuel(Seq::filter, 2);
                    }
                    r.push(rest);
                    assert(seqs_of(r@) =~= prev.push(old_rest));
                    assert(seqs_of(r@) =~= prev + seq![old_rest]);
                } else {
                    assert(pieces.filter(|p: Seq<char>| p.len() > 0) =~= Seq::<Seq<char>>::empty())
                        by {
                        reveal_with_fuel(Seq::filter, 2);
                    }
                    assert(prev + Seq::<Seq<char>>::empty() =~= prev);
                }
                rest = Vec::new();
                done = true;
            },
            Some(k) => {
                proof {
                    lemma_find_char_props(old_rest, c);
                }
                let piece = slice_of(&rest, 0, k);
                let next = slice_of(&rest, k + 1, rest.len());
                let ghost f = |p: Seq<char>| p.len() > 0;
                assert(split_on(old_rest, c) == seq![piece@] + split_on(next@, c));
                proof {
                    Seq::filter_distributes_over_add(seq![piece@], split_on(next@, c), f);
                    reveal_with_fuel(Seq::filter, 2);
                }
                if piece.len() > 0 {
                    assert(seq![piece@].filter(f) =~= seq![piece@]);
                    r.push(piece);
                    assert(seqs_of(r@) =~= prev + seq![piece@]);
                    assert(seqs_of(r@) + split_nonempty(next@, c) =~= prev + (seq![piece@]
                        + split_nonempty(next@, c)));
                } else {
                    assert(seq![piece@].filter(f) =~= Seq::<Seq<char>>::empty());
                    assert(Seq::<Seq<char>>::empty() + split_nonempty(next@, c) =~= split_nonempty(
                        next@,
                        c,
                    ));
                }
                rest = next;
            },
        }
    }
    r
}

/// The whitespace-separated words of `v` (`str::split_whitespace`).
pub fn split_words(v: &Vec<char>) -> (r: Vec<Vec<char>>)
    ensures
        seqs_of(r@) == words(v@),
{
    let mut r: Vec<Vec<char>> = Vec::new();
    let mut i: usize = 0;
    proof {
        assert(v@.skip(0) == v@);
    }
    while i < v.len()
        invariant
            i <= v.len(),
            seqs_of(r@) + words(v@.skip(i as int)) == words(v@),
        decreases v.len() - i,
    {
        let ghost s = v@.skip(i as int);
        let mut j = i;
        while j < v.len() && is_whitespace(v[j])
            invariant
                i <= j <= v.len(),
                forall|q: int| i <= q < j ==> is_ws(#[trigger] v@[q]),
            decreases v.len() - j,
        {
            j = j + 1;
        }
        proof {
            assert forall|q: int| 0 <= q < j - i implies is_ws(#[trigger] s[q]) by {
                assert(s[q] == v@[i + q]);
            }
            if j < v.len() {
                assert(s[j - i] == v@[j as int]);
            }
            lemma_trim_start_skip(s, j - i);
            assert(s.skip(j - i) == v@.skip(j as int));
        }
        if j == v.len() {
            assert(words(s) =~= Seq::<Seq<char>>::empty());
            assert(seqs_of(r@) + Seq::<Seq<char>>::empty() =~= seqs_of(r@));
            assert(v@.skip(j as int) =~= Seq::<char>::empty());
            assert(words(v@.skip(j as int)) =~= Seq::<Seq<char>>::empty());
            i = j;
        } else {
            let ghost t = v@.skip(j as int);
            let mut k = j;
            while k < v.len() && !is_whitespace(v[k])
                invariant
                    j <= k <= v.len(),
                    forall|q: int| j <= q < k ==> !is_ws(#[trigger] v@[q]),
                decreases v.len() - k,
            {
                k = k + 1;
            }
            proof {
                assert forall|q: int| 0 <= q < k - j implies !is_ws(#[trigger] t[q]) by {
                    assert(t[q] == v@[j + q]);
                }
                if k < v.len() {
                    assert(t[k - j] == v@[k as int]);
                }
                lemma_word_len(t, k - j);
                assert(t.skip(k - j) == v@.skip(k as int));
            }
            let w = slice_of(v, j, k);
            assert(w@ == t.take(k - j));
            assert(words(s) == seq![w@] + words(v@.skip(k as int)));
            let ghost prev = seqs_of(r@);
            r.push(w);
            assert(seqs_of(r@) =~= prev + seq![w@]);
            assert(seqs_of(r@) + words(v@.skip(k as int)) =~= prev + (seq![w@] + words(
                v@.skip(k as int),
            )));
            i = k;
        }
    }
    assert(v@.skip(i as int) =~= Seq::<char>::empty());
    assert(words(v@.skip(i as int)) =~= Seq::<Seq<char>>::empty());
    assert(seqs_of(r@) + Seq::<Seq<char>>::empty() =~= seqs_of(r@));
    r
}

/// The pieces of `ws` joined with single spaces.
pub fn join_with_spaces(ws: &Vec<Vec<char>>) -> (r: Vec<char>)
    ensures
        r@ == join_spaced(seqs_of(ws@)),
{
    let mut r: Vec<char> = Vec::new();
    let mut i: usize = 0;
    while i < ws.len()
        invariant
            i <= ws.len(),
            r@ == join_spaced(seqs_of(ws@).take(i as int)),
        decreases ws.len() - i,
    {
        let ghost before = r@;
        if i > 0 {
            r.push(' ');
        }
        let w = &ws[i];
        let mut j: usize = 0;
        let ghost mid = r@;
        while j < w.len()
            invariant
                j <= w.len(),
                r@ == mid + w@.take(j as int),
            decreases w.len() - j,
        {
            r.push(w[j]);
            assert(w@.take(j + 1) == w@.take(j as int).push(w@[j as int]));
            j = j + 1;
        }
        assert(w@.take(w.len() as int) == w@);
        let ghost t = seqs_of(ws@).take(i + 1);
        assert(t.drop_last() =~= seqs_of(ws@).take(i as int));
        assert(t.last() == w@);
        if i == 0 {
            assert(t.len() == 1);
            assert(r@ =~= w@);
        } else {
            assert(r@ =~= before + seq![' '] + w@);
        }
        i = i + 1;
    }
    assert(seqs_of(ws@).take(ws.len() as int) =~= seqs_of(ws@));
    r
}

// ---------------------------------------------------------------------
// Lexicographic order
// ---------------------------------------------------------------------

/// `a` comes strictly before `b` in lexicographic order of code points
/// (the order of `str`'s `<`).
pub open spec fn seq_less(a: Seq<char>, b: Seq<char>) -> bool
    decreases a.len(),
{
    if a.len() == 0 {
        b.len() > 0
    } else if b.len() == 0 {
        false
    } else if (a[0] as int) < (b[0] as int) {
        true
    } else if a[0] == b[0] {
        seq_less(a.drop_first(), b.drop_first())
    } else {
        false
    }
}

pub proof fn lemma_seq_less_irreflexive(a: Seq<char>)
    ensures
        !seq_less(a, a),
    decreases a.len(),
{
    if a.len() > 0 {
        lemma_seq_less_irreflexive(a.drop_first());
    }
}

pub proof fn lemma_seq_less_transitive(a: Seq<char>, b: Seq<char>, c: Seq<char>)
    requires
        seq_less(a, b),
        seq_less(b, c),
    ensures
        seq_less(a, c),
    decreases a.len(),
{
    if a.len() > 0 && b.len() > 0 && c.len() > 0 {
        if a[0] == b[0] && b[0] == c[0] {
            lemma_seq_less_transitive(a.drop_first(), b.drop_first(), c.drop_first());
        }
    }
}

pub proof fn lemma_seq_less_total(a: Seq<char>, b: Seq<char>)
    ensures
        a == b || seq_less(a, b) || seq_less(b, a),
    decreases a.len(),
{
    if a.len() > 0 && b.len() > 0 {
        if a[0] == b[0] {
            lemma_seq_less_total(a.drop_first(), b.drop_first());
            if a.drop_first() == b.drop_first() {
                assert(a =~= seq![a[0]] + a.drop_first());
                assert(b =~= seq![b[0]] + b.drop_first());
            }
        } else {
            assert((a[0] as int) != (b[0] as int));
        }
    } else if a.len() == 0 && b.len() == 0 {
        assert(a =~= b);
    }
}

/// Whether `a` comes strictly before `b` in lexicographic order.
pub fn less_than(a: &Vec<char>, b: &Vec<char>) -> (r: bool)
    ensures
        r == seq_less(a@, b@),
{
    let mut i: usize = 0;
    assert(a@.skip(0) == a@ && b@.skip(0) == b@);
    while i < a.len() && i < b.len() && a[i] == b[i]
        invariant
            i <= a.len(),
            i <= b.len(),
            forall|j: int| 0 <= j < i ==> a@[j] == b@[j],
            seq_less(a@, b@) == seq_less(a@.skip(i as int), b@.skip(i as int)),
        decreases a.len() - i,
    {
        proof {
            assert(a@.skip(i as int).drop_first() == a@.skip(i + 1));
            assert(b@.skip(i as int).drop_first() == b@.skip(i + 1));
        }
        i = i + 1;
    }
    if i == a.len() {
        i < b.len()
    } else if i == b.len() {
        false
    } else {
        assert(a@.skip(i as int)[0] == a@[i as int]);
        assert(b@.skip(i as int)[0] == b@[i as int]);
        a[i] < b[i]
    }
}

} // verus!
