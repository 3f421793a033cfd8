//! Which files are read, and in what order.

use vstd::prelude::*;

use crate::order;
use crate::order::is_sorting_of;
use crate::order::Ranked;
use crate::text;
use crate::text::blank;
use crate::text::name_start;
use crate::text::stands_at;
use crate::text::text_lt;

verus! {

/// A source file of logs.
#[derive(Debug)]
pub struct SourceFile {
    pub path: String,
    pub archived: bool,
    pub size: u64,
    pub mtime_unix: Option<i64>,
}

/// What a [`SourceFile`] says.
pub struct FileView {
    pub path: Seq<char>,
    pub archived: bool,
    pub size: u64,
    pub mtime_unix: Option<i64>,
}

impl View for SourceFile {
    type V = FileView;

    open spec fn view(&self) -> FileView {
        FileView {
            path: self.path@,
            archived: self.archived,
            size: self.size,
            mtime_unix: self.mtime_unix,
        }
    }
}

impl DeepView for SourceFile {
    type V = FileView;

    open spec fn deep_view(&self) -> FileView {
        self.view()
    }
}

impl Clone for SourceFile {
    fn clone(&self) -> (r: Self)
        ensures
            r@ == self@,
    {
        SourceFile {
            path: self.path.clone(),
            archived: self.archived,
            size: self.size,
            mtime_unix: self.mtime_unix,
        }
    }
}

/// A path whose letters order as its parts do: the slash ranks lowest.
pub open spec fn path_key(path: Seq<char>) -> Seq<char> {
    path.map_values(
        |c: char|
            if c == '/' {
                '\0'
            } else {
                c
            },
    )
}

/// The order of paths, part by part.
pub open spec fn path_lt(a: Seq<char>, b: Seq<char>) -> bool {
    text_lt(path_key(a), path_key(b))
}

fn key_of(path: &str) -> (r: Vec<char>)
    ensures
        r@ == path_key(path@),
{
    let all = text::letters(path);
    let mut r: Vec<char> = Vec::new();
    let mut i: usize = 0;
    while i < all.len()
        invariant
            all@ == path@,
            i <= all@.len(),
            r@ == path_key(path@).take(i as int),
        decreases all@.len() - i,
    {
        let c = if all[i] == '/' {
            '\0'
        } else {
            all[i]
        };
        r.push(c);
        assert(r@ =~= path_key(path@).take(i + 1));
        i += 1;
    }
    assert(r@ =~= path_key(path@));
    r
}

impl Ranked for SourceFile {
    open spec fn before(a: FileView, b: FileView) -> bool {
        path_lt(a.path, b.path)
    }

    fn is_before(&self, other: &Self) -> (r: bool) {
        let a = key_of(self.path.as_str());
        let b = key_of(other.path.as_str());
        text::letters_before(&a, &b)
    }

    proof fn lemma_asymmetric(a: FileView, b: FileView) {
        if Self::before(b, a) {
            text::lemma_text_lt_transitive(path_key(a.path), path_key(b.path), path_key(a.path));
            text::lemma_text_lt_irreflexive(path_key(a.path));
        }
    }

    proof fn lemma_transitive(a: FileView, b: FileView, c: FileView) {
        if Self::before(c, a) {
            let (ka, kb, kc) = (path_key(a.path), path_key(b.path), path_key(c.path));
            text::lemma_text_lt_total(ka, kb);
            if text_lt(ka, kb) {
                text::lemma_text_lt_transitive(kc, ka, kb);
            }
        }
    }
}

/// The path of a log file: its name has the extension `jsonl`.
pub open spec fn is_log_path(path: Seq<char>) -> bool {
    let dot = path.len() - ".jsonl"@.len();
    &&& stands_at(path, ".jsonl"@, dot)
    &&& name_start(path) < dot
}

/// Tells whether a path names a log file.
pub fn is_log(path: &str) -> (r: bool)
    ensures
        r == is_log_path(path@),
{
    let all = text::letters(path);
    assert(all@.take(all@.len() as int) =~= all@);
    let start: usize = text::find_name_start(&all, all.len());
    proof {
        reveal_strlit(".jsonl");
    }
    text::ends_with(path, ".jsonl") && start < all.len() - 6
}

/// The log files among those that were found, all active or all archived.
pub open spec fn logs_among(found: Seq<FileView>, archived: bool) -> Seq<FileView>
    decreases found.len(),
{
    if found.len() == 0 {
        Seq::empty()
    } else {
        let init = logs_among(found.drop_last(), archived);
        if is_log_path(found.last().path) {
            init.push(FileView { archived, ..found.last() })
        } else {
            init
        }
    }
}

fn keep_logs(found: Vec<SourceFile>, archived: bool) -> (r: Vec<SourceFile>)
    ensures
        r.deep_view() == logs_among(found.deep_view(), archived),
{
    let ghost all = found.deep_view();
    let mut r: Vec<SourceFile> = Vec::new();
    assert(r.deep_view() =~= Seq::empty());
    let mut i: usize = 0;
    while i < found.len()
        invariant
            i <= found@.len(),
            all == found.deep_view(),
            r.deep_view() == logs_among(all.take(i as int), archived),
        decreases found@.len() - i,
    {
        assert(all.take(i + 1).drop_last() =~= all.take(i as int));
        let ghost before = r.deep_view();
        let f = &found[i];
        assert(all[i as int] == f@);
        if is_log(f.path.as_str()) {
            let mut kept = f.clone();
            kept.archived = archived;
            let ghost v = kept@;
            r.push(kept);
            assert(r.deep_view() =~= before.push(v));
        }
        i += 1;
    }
    assert(all.take(all.len() as int) =~= all);
    r
}

/// The order in which files are read: the active ones, then the archived ones, each by path.
pub open spec fn is_reading_order(
    files: Seq<FileView>,
    active: Seq<FileView>,
    archived: Seq<FileView>,
) -> bool {
    let n = logs_among(active, false).len() as int;
    &&& files.len() >= n
    &&& is_sorting_of::<SourceFile>(files.take(n), logs_among(active, false))
    &&& is_sorting_of::<SourceFile>(files.skip(n), logs_among(archived, true))
}

/// Puts the log files among those that were found below `sessions/` and below
/// `archived_sessions/` in the order in which they are read.
pub fn discover(active: Vec<SourceFile>, archived: Vec<SourceFile>) -> (r: Vec<SourceFile>)
    ensures
        is_reading_order(r.deep_view(), active.deep_view(), archived.deep_view()),
{
    let kept = keep_logs(active, false);
    let ghost n = kept@.len() as int;
    let mut r = order::sort(kept);
    let mut rest = order::sort(keep_logs(archived, true));
    let ghost a = r.deep_view();
    let ghost b = rest.deep_view();
    proof {
        kept_len::<SourceFile>(a, logs_among(active.deep_view(), false));
    }
    r.append(&mut rest);
    assert(r.deep_view() =~= a + b);
    assert((a + b).take(n) =~= a);
    assert((a + b).skip(n) =~= b);
    r
}

proof fn kept_len<T: Ranked>(sorted: Seq<T::V>, s: Seq<T::V>)
    requires
        is_sorting_of::<T>(sorted, s),
    ensures
        sorted.len() == s.len(),
{
    broadcast use vstd::seq_lib::group_to_multiset_ensures;

    assert(sorted.to_multiset().len() == s.to_multiset().len());
}

/// A path below a directory.
pub open spec fn joined(dir: Seq<char>, name: Seq<char>) -> Seq<char> {
    if dir.len() == 0 || dir.last() == '/' {
        dir + name
    } else {
        dir + "/"@ + name
    }
}

pub fn join_path(dir: &str, name: &str) -> (r: String)
    ensures
        r@ == joined(dir@, name@),
{
    let all = text::letters(dir);
    if all.len() == 0 || all[all.len() - 1] == '/' {
        text::join(dir, name)
    } else {
        text::join(text::join(dir, "/").as_str(), name)
    }
}

/// The home of the logs: what is asked for, else what the environment names, else a directory
/// below the home of the user.
pub open spec fn home_of(
    explicit: Option<Seq<char>>,
    environment: Option<Seq<char>>,
    user_home: Option<Seq<char>>,
) -> Seq<char> {
    if explicit is Some {
        explicit->0
    } else if environment is Some && !blank(environment->0) {
        environment->0
    } else if user_home is Some {
        joined(user_home->0, ".codex"@)
    } else {
        ".codex"@
    }
}

/// Finds the home of the logs.
pub fn codex_home(
    explicit: &Option<String>,
    environment: &Option<String>,
    user_home: &Option<String>,
) -> (r: String)
    ensures
        r@ == home_of(explicit.deep_view(), environment.deep_view(), user_home.deep_view()),
{
    if let Some(p) = explicit {
        return p.clone();
    }
    if let Some(home) = environment {
        if !text::is_blank(home.as_str()) {
            return home.clone();
        }
    }
    match user_home {
        Some(home) => join_path(home.as_str(), ".codex"),
        None => ".codex".to_owned(),
    }
}

/// A path as seen from the home; the path itself where it does not lie below.
pub open spec fn relative_to(path: Seq<char>, home: Seq<char>) -> Seq<char> {
    let stem = joined(home, Seq::empty());
    if stands_at(path, stem, 0) {
        path.skip(stem.len() as int)
    } else {
        path
    }
}

/// The name of a file in the store: its path as seen from the home.
pub fn relative_path(path: &str, home: &str) -> (r: String)
    ensures
        r@ == relative_to(path@, home@),
{
    let stem = join_path(home, "");
    proof {
        reveal_strlit("");
        assert(""@ =~= Seq::<char>::empty());
    }
    if text::starts_with(path, stem.as_str()) {
        let from = text::letters(stem.as_str());
        let all = text::letters(path);
        let r = text::part_of(path, from.len(), all.len());
        assert(r@ =~= path@.skip(stem@.len() as int));
        r
    } else {
        path.to_owned()
    }
}

} // verus!
