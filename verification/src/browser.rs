//! The file browser's directory model: which directory entries are listed,
//! which count as audio files, and the order they are shown in.

use vstd::prelude::*;
use vstd::string::*;

verus! {

/// A directory entry as read from disk.
#[derive(Clone, Debug)]
pub struct DirItem {
    pub name: String,
    pub path: String,
    pub is_dir: bool,
}

/// A listed entry: a sub-directory or an audio file.
#[derive(Clone, Debug)]
pub struct FileEntry {
    pub name: String,
    pub path: String,
    pub is_dir: bool,
    pub is_audio: bool,
}

pub struct FileBrowserState {
    pub current_dir: String,
    pub entries: Vec<FileEntry>,
    pub selected_file: Option<String>,
    pub auto_play: bool,
    pub visible: bool,
}

/// What a listed entry says.
pub struct EntryView {
    pub name: Seq<char>,
    pub path: Seq<char>,
    pub is_dir: bool,
    pub is_audio: bool,
}

impl View for FileEntry {
    type V = EntryView;

    open spec fn view(&self) -> EntryView {
        EntryView { name: self.name@, path: self.path@, is_dir: self.is_dir, is_audio: self.is_audio }
    }
}

/// What a directory item says.
pub struct ItemView {
    pub name: Seq<char>,
    pub path: Seq<char>,
    pub is_dir: bool,
}

impl View for DirItem {
    type V = ItemView;

    open spec fn view(&self) -> ItemView {
        ItemView { name: self.name@, path: self.path@, is_dir: self.is_dir }
    }
}

/// Unicode lower case of a string, as `str::to_lowercase` computes it.
pub uninterp spec fn lowercase(s: Seq<char>) -> Seq<char>;

/// `str::to_lowercase`. Trusted: the result is `lowercase` of the argument;
/// the Unicode case mapping itself is left unstated.
#[verifier::external_body]
fn to_lowercase(s: &str) -> (r: String)
    ensures
        r@ == lowercase(s@),
{
    s.to_lowercase()
}

/// Strict lexicographic order on character sequences by code point, which is
/// also the byte order of their UTF-8 encodings.
pub open spec fn lex_lt(a: Seq<char>, b: Seq<char>) -> bool
    decreases a.len(),
{
    if a.len() == 0 {
        b.len() > 0
    } else if b.len() == 0 {
        false
    } else if a[0] != b[0] {
        a[0] < b[0]
    } else {
        lex_lt(a.drop_first(), b.drop_first())
    }
}

pub proof fn lex_lt_irreflexive(a: Seq<char>)
    ensures
        !lex_lt(a, a),
    decreases a.len(),
{
    if a.len() > 0 {
        lex_lt_irreflexive(a.drop_first());
    }
}

pub proof fn lex_lt_transitive(a: Seq<char>, b: Seq<char>, c: Seq<char>)
    requires
        lex_lt(a, b),
        lex_lt(b, c),
    ensures
        lex_lt(a, c),
    decreases a.len(),
{
    if a.len() > 0 && b.len() > 0 && c.len() > 0 {
        if a[0] == b[0] && b[0] == c[0] {
            lex_lt_transitive(a.drop_first(), b.drop_first(), c.drop_first());
        }
    }
}

pub proof fn lex_lt_total(a: Seq<char>, b: Seq<char>)
    ensures
        a =~= b || lex_lt(a, b) || lex_lt(b, a),
    decreases a.len(),
{
    if a.len() > 0 && b.len() > 0 {
        if a[0] == b[0] {
            lex_lt_total(a.drop_first(), b.drop_first());
            if a.drop_first() =~= b.drop_first() {
                assert(a =~= seq![a[0]] + a.drop_first());
                assert(b =~= seq![b[0]] + b.drop_first());
            }
        } else {
        }
    }
}

/// `a` sorts strictly before `b`.
fn chars_less(a: &str, b: &str) -> (r: bool)
    ensures
        r == lex_lt(a@, b@),
{
    let n = a.unicode_len();
    let m = b.unicode_len();
    let mut i: usize = 0;
    assert(a@.skip(0) =~= a@);
    assert(b@.skip(0) =~= b@);
    while i < n && i < m
        invariant
            n == a@.len(),
            m == b@.len(),
            0 <= i <= n,
            i <= m,
            lex_lt(a@, b@) == lex_lt(a@.skip(i as int), b@.skip(i as int)),
        decreases n - i,
    {
        let x = a.get_char(i);
        let y = b.get_char(i);
        assert(a@.skip(i as int)[0] == x);
        assert(b@.skip(i as int)[0] == y);
        if x != y {
            return x < y;
        }
        assert(a@.skip(i as int).drop_first() == a@.skip(i + 1));
        assert(b@.skip(i as int).drop_first() == b@.skip(i + 1));
        i = i + 1;
    }
    i < m && i == n
}

/// The extension of a file name as `Path::extension` finds it: the text after
/// the last '.', unless there is no '.' or the only one starts the name.
pub open spec fn extension_of(name: Seq<char>) -> Option<Seq<char>> {
    if exists|p: int| 0 < p < name.len() && name[p] == '.' {
        let p = choose|p: int| 0 < p < name.len() && name[p] == '.' && forall|q: int| p < q < name.len() ==> name[q] != '.';
        Some(name.subrange(p + 1, name.len() as int))
    } else {
        None
    }
}

/// Extensions of the audio formats the browser lists.
pub open spec fn audio_extensions() -> Seq<Seq<char>> {
    seq![
        seq!['w', 'a', 'v'],
        seq!['a', 'i', 'f'],
        seq!['a', 'i', 'f', 'f'],
        seq!['f', 'l', 'a', 'c'],
        seq!['m', 'p', '3'],
        seq!['m', '4', 'a'],
        seq!['a', 'a', 'c'],
        seq!['o', 'p', 'u', 's'],
        seq!['o', 'g', 'g'],
        seq!['r', 'x', '2'],
        seq!['r', 'e', 'x'],
        seq!['r', 'c', 'y'],
    ]
}

/// Extensions of the REX loop formats.
pub open spec fn rex_extensions() -> Seq<Seq<char>> {
    seq![seq!['r', 'x', '2'], seq!['r', 'e', 'x'], seq!['r', 'c', 'y']]
}

/// The lower-cased extension of a name (empty when it has none).
pub open spec fn lower_extension(name: Seq<char>) -> Seq<char> {
    lowercase(
        match extension_of(name) {
            Some(e) => e,
            None => Seq::empty(),
        },
    )
}

pub open spec fn is_audio_name(name: Seq<char>) -> bool {
    audio_extensions().contains(lower_extension(name))
}

pub open spec fn is_rex_name(name: Seq<char>) -> bool {
    rex_extensions().contains(lower_extension(name))
}

fn same_chars(s: &str, t: &[char]) -> (r: bool)
    ensures
        r == (s@ == t@),
{
    let n = s.unicode_len();
    if n != t.len() {
        return false;
    }
    let mut i: usize = 0;
    while i < n
        invariant
            n == s@.len(),
            n == t@.len(),
            0 <= i <= n,
            s@.take(i as int) == t@.take(i as int),
        decreases n - i,
    {
        if s.get_char(i) != t[i] {
            return false;
        }
        assert(s@.take(i + 1) =~= t@.take(i + 1));
        i = i + 1;
    }
    assert(s@ =~= s@.take(n as int));
    assert(t@ =~= t@.take(n as int));
    true
}

/// The lower-cased extension of `name` (empty when it has none).
pub fn lower_extension_of(name: &str) -> (r: String)
    ensures
        r@ == lower_extension(name@),
{
    let n = name.unicode_len();
    let mut p: usize = n;
    while p > 0 && name.get_char(p - 1) != '.'
        invariant
            n == name@.len(),
            0 <= p <= n,
            forall|q: int| p <= q < n ==> name@[q] != '.',
        decreases p,
    {
        p = p - 1;
    }
    if p >= 2 {
        let dot = p - 1;
        assert(name@[dot as int] == '.');
        let ghost w = choose|p: int| 0 < p < name@.len() && name@[p] == '.' && forall|q: int| p < q < name@.len() ==> name@[q] != '.';
        assert(w == dot as int) by {
            if w < dot {
                assert(name@[dot as int] != '.');
            } else if w > dot {
                assert(name@[w] != '.');
            }
        }
        let ext = name.substring_char(p, n);
        to_lowercase(ext)
    } else {
        assert(!exists|q: int| 0 < q < name@.len() && name@[q] == '.') by {
            if exists|q: int| 0 < q < name@.len() && name@[q] == '.' {
                let q = choose|q: int| 0 < q < name@.len() && name@[q] == '.';
                assert(q >= p);
            }
        }
        proof {
            reveal_strlit("");
        }
        assert(""@ =~= Seq::<char>::empty());
        to_lowercase("")
    }
}

/// The name has an audio extension (see `audio_extensions`).
pub fn is_audio_file_name(name: &str) -> (r: bool)
    ensures
        r == is_audio_name(name@),
{
    let e = lower_extension_of(name);
    let s = e.as_str();
    let r = same_chars(s, &['w', 'a', 'v']) || same_chars(s, &['a', 'i', 'f']) || same_chars(s, &['a', 'i', 'f', 'f'])
        || same_chars(s, &['f', 'l', 'a', 'c']) || same_chars(s, &['m', 'p', '3']) || same_chars(s, &['m', '4', 'a'])
        || same_chars(s, &['a', 'a', 'c']) || same_chars(s, &['o', 'p', 'u', 's']) || same_chars(s, &['o', 'g', 'g'])
        || same_chars(s, &['r', 'x', '2']) || same_chars(s, &['r', 'e', 'x']) || same_chars(s, &['r', 'c', 'y']);
    proof {
        let l = audio_extensions();
        if r {
            assert(exists|k: int| 0 <= k < l.len() && l[k] == s@);
        } else {
            assert forall|k: int| 0 <= k < l.len() implies l[k] != s@ by {}
        }
    }
    r
}

/// The name has a REX loop extension (see `rex_extensions`).
pub fn is_rex_file_name(name: &str) -> (r: bool)
    ensures
        r == is_rex_name(name@),
{
    let e = lower_extension_of(name);
    let s = e.as_str();
    let r = same_chars(s, &['r', 'x', '2']) || same_chars(s, &['r', 'e', 'x']) || same_chars(s, &['r', 'c', 'y']);
    proof {
        let l = rex_extensions();
        if r {
            assert(exists|k: int| 0 <= k < l.len() && l[k] == s@);
        } else {
            assert forall|k: int| 0 <= k < l.len() implies l[k] != s@ by {}
        }
    }
    r
}


pub open spec fn views(s: Seq<FileEntry>) -> Seq<EntryView> {
    s.map_values(|e: FileEntry| e@)
}

/// Sort key of a listed entry: its lower-cased name.
pub open spec fn entry_key(e: EntryView) -> Seq<char> {
    lowercase(e.name)
}

/// Entries are in non-decreasing key order.
pub open spec fn sorted_by_name(s: Seq<EntryView>) -> bool {
    forall|i: int, j: int| 0 <= i < j < s.len() ==> !lex_lt(entry_key(#[trigger] s[j]), entry_key(#[trigger] s[i]))
}

/// The entries with key `k`, in order.
pub open spec fn with_key(s: Seq<EntryView>, k: Seq<char>) -> Seq<EntryView>
    decreases s.len(),
{
    if s.len() == 0 {
        s
    } else if entry_key(s.last()) == k {
        with_key(s.drop_last(), k).push(s.last())
    } else {
        with_key(s.drop_last(), k)
    }
}

/// `r` is `s` sorted by key, entries with equal keys in the order they came in.
pub open spec fn stably_sorted(r: Seq<EntryView>, s: Seq<EntryView>) -> bool {
    &&& sorted_by_name(r)
    &&& r.len() == s.len()
    &&& forall|k: Seq<char>| #[trigger] with_key(r, k) == with_key(s, k)
}

proof fn lemma_with_key_add(a: Seq<EntryView>, b: Seq<EntryView>, k: Seq<char>)
    ensures
        with_key(a + b, k) == with_key(a, k) + with_key(b, k),
    decreases b.len(),
{
    if b.len() == 0 {
        assert(a + b =~= a);
        assert(with_key(a, k) + with_key(b, k) =~= with_key(a, k));
    } else {
        lemma_with_key_add(a, b.drop_last(), k);
        assert((a + b).drop_last() =~= a + b.drop_last());
        assert((a + b).last() == b.last());
        if entry_key(b.last()) == k {
            assert(with_key(a, k) + with_key(b, k) =~= (with_key(a, k) + with_key(b.drop_last(), k)).push(b.last()));
        }
    }
}

proof fn lemma_with_key_none(s: Seq<EntryView>, k: Seq<char>)
    requires
        forall|j: int| 0 <= j < s.len() ==> entry_key(#[trigger] s[j]) != k,
    ensures
        with_key(s, k) == Seq::<EntryView>::empty(),
    decreases s.len(),
{
    if s.len() > 0 {
        lemma_with_key_none(s.drop_last(), k);
        assert(entry_key(s[s.len() - 1]) != k);
    }
}

proof fn lemma_with_key_insert(s: Seq<EntryView>, pos: int, x: EntryView, k: Seq<char>)
    requires
        0 <= pos <= s.len(),
        forall|j: int| pos <= j < s.len() ==> lex_lt(entry_key(x), entry_key(#[trigger] s[j])),
    ensures
        with_key(s.insert(pos, x), k) == if entry_key(x) == k {
            with_key(s, k).push(x)
        } else {
            with_key(s, k)
        },
{
    let a = s.subrange(0, pos);
    let b = s.subrange(pos, s.len() as int);
    assert(s =~= a + b);
    assert(s.insert(pos, x) =~= a + (seq![x] + b));
    lemma_with_key_add(a, b, k);
    lemma_with_key_add(a, seq![x] + b, k);
    lemma_with_key_add(seq![x], b, k);
    let one = seq![x];
    assert(one.drop_last() =~= Seq::<EntryView>::empty());
    assert(one.last() == x);
    let e = Seq::<EntryView>::empty();
    assert(with_key(e, k) == e);
    if entry_key(x) == k {
        assert(with_key(one, k) == with_key(e, k).push(x));
        assert(with_key(one, k) =~= seq![x]);
    } else {
        assert(with_key(one, k) == with_key(e, k));
    }
    if entry_key(x) == k {
        assert forall|j: int| 0 <= j < b.len() implies entry_key(#[trigger] b[j]) != k by {
            assert(b[j] == s[pos + j]);
            lex_lt_irreflexive(entry_key(x));
        }
        lemma_with_key_none(b, k);
        assert(with_key(s.insert(pos, x), k) =~= with_key(s, k).push(x));
    } else {
        assert(with_key(s.insert(pos, x), k) =~= with_key(s, k));
    }
}

/// Sort entries by lower-cased name, keeping the order of entries whose
/// lower-cased names are equal.
pub fn sort_by_lower_name(xs: Vec<FileEntry>) -> (r: Vec<FileEntry>)
    ensures
        stably_sorted(views(r@), views(xs@)),
{
    let ghost orig = views(xs@);
    let mut rest = xs;
    let mut r: Vec<FileEntry> = Vec::new();
    let mut keys: Vec<String> = Vec::new();
    let n = rest.len();
    let mut i: usize = 0;
    while i < n
        invariant
            0 <= i <= n,
            n == orig.len(),
            views(rest@) == orig.skip(i as int),
            r@.len() == i,
            keys@.len() == i,
            forall|j: int| 0 <= j < i ==> #[trigger] keys@[j]@ == entry_key(r@[j]@),
            sorted_by_name(views(r@)),
            forall|k: Seq<char>| #[trigger] with_key(views(r@), k) == with_key(orig.take(i as int), k),
        decreases n - i,
    {
        let ghost old_rest = rest@;
        assert(views(old_rest).len() == old_rest.len());
        let x = rest.remove(0);
        assert(x@ == orig[i as int]) by {
            assert(views(old_rest)[0] == old_rest[0]@);
        }
        assert(views(rest@) =~= orig.skip(i + 1)) by {
            assert(rest@ =~= old_rest.drop_first());
            assert forall|j: int| 0 <= j < rest@.len() implies #[trigger] views(rest@)[j] == orig.skip(i + 1)[j] by {
                assert(views(old_rest)[j + 1] == old_rest[j + 1]@);
            }
        }
        let key = to_lowercase(x.name.as_str());
        let mut pos: usize = r.len();
        while pos > 0 && chars_less(key.as_str(), keys[pos - 1].as_str())
            invariant
                0 <= pos <= r@.len(),
                keys@.len() == r@.len(),
                forall|j: int| 0 <= j < r@.len() ==> #[trigger] keys@[j]@ == entry_key(r@[j]@),
                forall|j: int| pos <= j < r@.len() ==> lex_lt(key@, entry_key(#[trigger] r@[j]@)),
            decreases pos,
        {
            pos = pos - 1;
        }
        let ghost before = views(r@);
        let ghost xv = x@;
        proof {
            assert forall|j: int| pos <= j < before.len() implies lex_lt(entry_key(xv), entry_key(#[trigger] before[j])) by {
                assert(before[j] == r@[j]@);
            }
            assert forall|k: Seq<char>| #[trigger] with_key(before.insert(pos as int, xv), k) == with_key(orig.take(i + 1), k) by {
                lemma_with_key_insert(before, pos as int, xv, k);
                assert(orig.take(i + 1).drop_last() =~= orig.take(i as int));
                assert(orig.take(i + 1).last() == xv);
            }
        }
        r.insert(pos, x);
        keys.insert(pos, key);
        proof {
            assert(views(r@) =~= before.insert(pos as int, xv));
            assert forall|j: int| 0 <= j < i + 1 implies #[trigger] keys@[j]@ == entry_key(r@[j]@) by {
                if j < pos {
                } else if j > pos {
                    assert(keys@[j] == old_keys_at(keys@, j));
                }
            }
            assert forall|a: int, b: int| 0 <= a < b < views(r@).len() implies !lex_lt(
                entry_key(#[trigger] views(r@)[b]),
                entry_key(#[trigger] views(r@)[a]),
            ) by {
                let v = views(r@);
                if b < pos {
                    assert(v[a] == before[a] && v[b] == before[b]);
                } else if b == pos {
                    if a < pos {
                        assert(v[a] == before[a]);
                        if pos > 0 {
                            assert(!lex_lt(entry_key(xv), entry_key(before[pos - 1])));
                            if a < pos - 1 {
                                assert(!lex_lt(entry_key(before[pos - 1]), entry_key(before[a])));
                            }
                            lex_lt_total(entry_key(xv), entry_key(before[pos - 1]));
                            if lex_lt(entry_key(xv), entry_key(before[a])) {
                                if a < pos - 1 {
                                    lex_lt_total(entry_key(before[pos - 1]), entry_key(before[a]));
                                    if lex_lt(entry_key(before[a]), entry_key(before[pos - 1])) {
                                        lex_lt_transitive(entry_key(xv), entry_key(before[a]), entry_key(before[pos - 1]));
                                    }
                                }
                            }
                        }
                    }
                } else if a == pos {
                    assert(v[b] == before[b - 1]);
                    assert(lex_lt(entry_key(xv), entry_key(before[b - 1])));
                    lex_lt_irreflexive(entry_key(xv));
                    if lex_lt(entry_key(before[b - 1]), entry_key(xv)) {
                        lex_lt_transitive(entry_key(xv), entry_key(before[b - 1]), entry_key(xv));
                    }
                } else if a < pos {
                    assert(v[a] == before[a] && v[b] == before[b - 1]);
                } else {
                    assert(v[a] == before[a - 1] && v[b] == before[b - 1]);
                }
            }
        }
        i = i + 1;
    }
    assert(orig.take(n as int) =~= orig);
    r
}

spec fn old_keys_at(keys: Seq<String>, j: int) -> String {
    keys[j]
}


pub open spec fn item_views(s: Seq<DirItem>) -> Seq<ItemView> {
    s.map_values(|d: DirItem| d@)
}

/// The listed form of a directory item.
pub open spec fn entry_of(it: ItemView) -> EntryView {
    EntryView { name: it.name, path: it.path, is_dir: it.is_dir, is_audio: !it.is_dir }
}

/// The sub-directories among the items, in listing order.
pub open spec fn listed_dirs(items: Seq<ItemView>) -> Seq<EntryView>
    decreases items.len(),
{
    if items.len() == 0 {
        Seq::empty()
    } else if items.last().is_dir {
        listed_dirs(items.drop_last()).push(entry_of(items.last()))
    } else {
        listed_dirs(items.drop_last())
    }
}

/// The audio files among the items, in listing order.
pub open spec fn listed_files(items: Seq<ItemView>) -> Seq<EntryView>
    decreases items.len(),
{
    if items.len() == 0 {
        Seq::empty()
    } else if !items.last().is_dir && is_audio_name(items.last().name) {
        listed_files(items.drop_last()).push(entry_of(items.last()))
    } else {
        listed_files(items.drop_last())
    }
}

/// The browser lists the sub-directories first and then the audio files,
/// each group sorted by lower-cased name (entries with equal lower-cased
/// names in listing order); other files are left out.
pub open spec fn lists(entries: Seq<EntryView>, items: Seq<ItemView>) -> bool {
    let nd = listed_dirs(items).len() as int;
    &&& entries.len() == nd + listed_files(items).len()
    &&& stably_sorted(entries.take(nd), listed_dirs(items))
    &&& stably_sorted(entries.skip(nd), listed_files(items))
}

proof fn lemma_with_key_members(s: Seq<EntryView>, k: Seq<char>, x: EntryView)
    ensures
        with_key(s, k).contains(x) ==> s.contains(x),
        s.contains(x) && entry_key(x) == k ==> with_key(s, k).contains(x),
    decreases s.len(),
{
    if s.len() > 0 {
        let d = s.drop_last();
        lemma_with_key_members(d, k, x);
        if with_key(s, k).contains(x) {
            let w = with_key(d, k);
            if entry_key(s.last()) == k && x == s.last() {
                assert(s[s.len() - 1] == x);
            } else {
                if entry_key(s.last()) == k {
                    let j = choose|j: int| 0 <= j < w.push(s.last()).len() && w.push(s.last())[j] == x;
                    assert(w[j] == x);
                }
                let j = choose|j: int| 0 <= j < d.len() && d[j] == x;
                assert(s[j] == x);
            }
        }
        if s.contains(x) && entry_key(x) == k {
            let j = choose|j: int| 0 <= j < s.len() && s[j] == x;
            if j < d.len() {
                assert(d[j] == x);
                let w = with_key(d, k);
                let i = choose|i: int| 0 <= i < w.len() && w[i] == x;
                assert(with_key(s, k) == w || with_key(s, k) == w.push(s.last()));
                assert(with_key(s, k)[i] == x);
            } else {
                assert(with_key(s, k).last() == x);
            }
        }
    }
}

proof fn lemma_stably_sorted_members(r: Seq<EntryView>, s: Seq<EntryView>)
    requires
        stably_sorted(r, s),
    ensures
        forall|i: int| 0 <= i < r.len() ==> s.contains(#[trigger] r[i]),
{
    assert forall|i: int| 0 <= i < r.len() implies s.contains(#[trigger] r[i]) by {
        let k = entry_key(r[i]);
        assert(r.contains(r[i]));
        lemma_with_key_members(r, k, r[i]);
        assert(with_key(r, k) == with_key(s, k));
        lemma_with_key_members(s, k, r[i]);
    }
}

/// What a listed entry is, whichever group it is in.
spec fn listed_kind(e: EntryView, items: Seq<ItemView>, dir: bool) -> bool {
    &&& e.is_dir == dir
    &&& e.is_audio == !dir
    &&& dir || is_audio_name(e.name)
    &&& exists|j: int|
        0 <= j < items.len() && #[trigger] items[j].name == e.name && items[j].path == e.path && items[j].is_dir
            == dir
}

proof fn lemma_listed_kinds(items: Seq<ItemView>)
    ensures
        forall|i: int| 0 <= i < listed_dirs(items).len() ==> listed_kind(#[trigger] listed_dirs(items)[i], items, true),
        forall|i: int|
            0 <= i < listed_files(items).len() ==> listed_kind(#[trigger] listed_files(items)[i], items, false),
    decreases items.len(),
{
    if items.len() > 0 {
        let d = items.drop_last();
        lemma_listed_kinds(d);
        let n = items.len() - 1;
        assert(items[n] == items.last());
        assert forall|i: int| 0 <= i < listed_dirs(items).len() implies listed_kind(
            #[trigger] listed_dirs(items)[i],
            items,
            true,
        ) by {
            let e = listed_dirs(items)[i];
            if i < listed_dirs(d).len() {
                assert(e == listed_dirs(d)[i]);
                let j = choose|j: int|
                    0 <= j < d.len() && #[trigger] d[j].name == e.name && d[j].path == e.path && d[j].is_dir == true;
                assert(items[j] == d[j]);
            } else {
                assert(e == entry_of(items[n]));
            }
        }
        assert forall|i: int| 0 <= i < listed_files(items).len() implies listed_kind(
            #[trigger] listed_files(items)[i],
            items,
            false,
        ) by {
            let e = listed_files(items)[i];
            if i < listed_files(d).len() {
                assert(e == listed_files(d)[i]);
                let j = choose|j: int|
                    0 <= j < d.len() && #[trigger] d[j].name == e.name && d[j].path == e.path && d[j].is_dir == false;
                assert(items[j] == d[j]);
            } else {
                assert(e == entry_of(items[n]));
            }
        }
    }
}

/// Every entry the browser lists is an item of the directory listing with
/// the same name and path: the sub-directories come first, none of them an
/// audio entry, and every entry after them is a file with an audio or REX
/// extension that counts as audio, so it can be auditioned and loaded.
pub proof fn listed_files_are_audio(entries: Seq<EntryView>, items: Seq<ItemView>)
    requires
        lists(entries, items),
    ensures
        forall|k: int| 0 <= k < entries.len() ==> #[trigger] entries[k].is_audio == !entries[k].is_dir,
        forall|k: int|
            0 <= k < entries.len() ==> (#[trigger] entries[k].is_dir <==> k < listed_dirs(items).len()),
        forall|k: int|
            listed_dirs(items).len() <= k < entries.len() ==> #[trigger] entries[k].is_audio && is_audio_name(
                entries[k].name,
            ),
        forall|k: int|
            0 <= k < entries.len() ==> exists|j: int|
                0 <= j < items.len() && items[j].name == (#[trigger] entries[k]).name && items[j].path
                    == entries[k].path && items[j].is_dir == entries[k].is_dir,
{
    let nd = listed_dirs(items).len() as int;
    let a = entries.take(nd);
    let b = entries.skip(nd);
    lemma_listed_kinds(items);
    lemma_stably_sorted_members(a, listed_dirs(items));
    lemma_stably_sorted_members(b, listed_files(items));
    assert forall|k: int| 0 <= k < entries.len() implies listed_kind(entries[k], items, k < nd) by {
        if k < nd {
            assert(a[k] == entries[k]);
            assert(listed_dirs(items).contains(a[k]));
        } else {
            assert(b[k - nd] == entries[k]);
            assert(listed_files(items).contains(b[k - nd]));
        }
    }
}

fn entry_from(it: &DirItem) -> (e: FileEntry)
    ensures
        e@ == entry_of(it@),
{
    FileEntry { name: it.name.clone(), path: it.path.clone(), is_dir: it.is_dir, is_audio: !it.is_dir }
}

/// The entries the browser shows for a directory listing (see `lists`).
pub fn list_entries(listing: &Vec<DirItem>) -> (r: Vec<FileEntry>)
    ensures
        lists(views(r@), item_views(listing@)),
{
    let ghost items = item_views(listing@);
    let mut dirs: Vec<FileEntry> = Vec::new();
    let mut files: Vec<FileEntry> = Vec::new();
    let mut i: usize = 0;
    while i < listing.len()
        invariant
            0 <= i <= listing.len(),
            items == item_views(listing@),
            views(dirs@) == listed_dirs(items.take(i as int)),
            views(files@) == listed_files(items.take(i as int)),
        decreases listing.len() - i,
    {
        let it = &listing[i];
        assert(items.take(i + 1).drop_last() =~= items.take(i as int));
        assert(items.take(i + 1).last() == it@);
        if it.is_dir {
            let ghost before = dirs@;
            dirs.push(entry_from(it));
            assert(views(dirs@) =~= views(before).push(entry_of(it@)));
        } else if is_audio_file_name(it.name.as_str()) {
            let ghost before = files@;
            files.push(entry_from(it));
            assert(views(files@) =~= views(before).push(entry_of(it@)));
        }
        i = i + 1;
    }
    assert(items.take(listing.len() as int) =~= items);
    let mut sorted_dirs = sort_by_lower_name(dirs);
    let mut sorted_files = sort_by_lower_name(files);
    let ghost d = views(sorted_dirs@);
    let ghost f = views(sorted_files@);
    sorted_dirs.append(&mut sorted_files);
    assert(views(sorted_dirs@) =~= d + f);
    assert((d + f).take(d.len() as int) =~= d);
    assert((d + f).skip(d.len() as int) =~= f);
    sorted_dirs
}

impl FileBrowserState {
    /// A browser showing `initial_dir`, whose directory listing is `listing`.
    pub fn new(initial_dir: String, listing: &Vec<DirItem>) -> (s: Self)
        ensures
            s.current_dir@ == initial_dir@,
            lists(views(s.entries@), item_views(listing@)),
            s.selected_file is None,
            s.auto_play,
            s.visible,
    {
        FileBrowserState {
            current_dir: initial_dir,
            entries: list_entries(listing),
            selected_file: None,
            auto_play: true,
            visible: true,
        }
    }

    /// Show the directory's entries anew from its listing.
    pub fn refresh(&mut self, listing: &Vec<DirItem>)
        ensures
            lists(views(final(self).entries@), item_views(listing@)),
            final(self).current_dir == old(self).current_dir,
            final(self).selected_file == old(self).selected_file,
            final(self).auto_play == old(self).auto_play,
            final(self).visible == old(self).visible,
    {
        self.entries = list_entries(listing);
    }

    /// Move to `dir`, whose directory listing is `listing`.
    pub fn set_dir(&mut self, dir: String, listing: &Vec<DirItem>)
        ensures
            final(self).current_dir@ == dir@,
            lists(views(final(self).entries@), item_views(listing@)),
            final(self).selected_file == old(self).selected_file,
            final(self).auto_play == old(self).auto_play,
            final(self).visible == old(self).visible,
    {
        self.current_dir = dir;
        self.refresh(listing);
    }
}

} // verus!
