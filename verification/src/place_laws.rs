//! Which files are read, in which order, and under which names.

use vstd::prelude::*;

use crate::discovery::home_of;
use crate::discovery::is_log_path;
use crate::discovery::is_reading_order;
use crate::discovery::joined;
use crate::discovery::logs_among;
use crate::discovery::path_lt;
use crate::discovery::relative_to;
use crate::discovery::FileView;
use crate::discovery::SourceFile;
use crate::order::is_sorting_of;
use crate::text::blank;
use crate::text::text_lt;

verus! {

/// A file in some directory is a log where its name ends in the extension of logs and is more than
/// that extension; a path with another end is none.
pub proof fn law_logs_have_their_extension(dir: Seq<char>, stem: Seq<char>, other: Seq<char>)
    requires
        !stem.contains('/'),
        other.len() < 6 || other.skip(other.len() - 6) != ".jsonl"@,
    ensures
        is_log_path(dir.push('/') + stem + ".jsonl"@) <==> stem.len() > 0,
        !is_log_path(other),
{
    reveal_strlit(".jsonl");
    let name = stem + ".jsonl"@;
    let path = dir.push('/') + stem + ".jsonl"@;
    assert(path =~= dir.push('/') + name);
    assert(!name.contains('/')) by {
        if name.contains('/') {
            let i = choose|i: int| 0 <= i < name.len() && name[i] == '/';
            if i < stem.len() {
                assert(stem[i] == '/');
            } else {
                assert(name[i] == ".jsonl"@[i - stem.len()]);
            }
        }
    }
    crate::breakdown_laws::lemma_name_start(dir, name);
    let dot = path.len() - 6;
    assert(path.subrange(dot, dot + 6) =~= ".jsonl"@);
    if is_log_path(other) {
        let at = other.len() - 6;
        assert(other.subrange(at, at + 6) =~= other.skip(at));
    }
}

/// One more file that was found is taken if and only if it is a log, with its path, its size and its
/// time, as archived or not.
pub proof fn law_logs_are_taken(found: Seq<FileView>, f: FileView, archived: bool)
    ensures
        ({
            let (a, b) = (logs_among(found, archived), logs_among(found.push(f), archived));
            &&& logs_among(Seq::<FileView>::empty(), archived).len() == 0
            &&& !is_log_path(f.path) ==> b == a
            &&& is_log_path(f.path) ==> {
                &&& b.len() == a.len() + 1
                &&& b.drop_last() == a
                &&& b.last().path == f.path
                &&& b.last().size == f.size
                &&& b.last().mtime_unix == f.mtime_unix
                &&& b.last().archived == archived
            }
        }),
{
    assert(found.push(f).drop_last() =~= found);
    let (a, b) = (logs_among(found, archived), logs_among(found.push(f), archived));
    if is_log_path(f.path) {
        assert(b.drop_last() =~= a);
    }
}

proof fn lemma_all_so(found: Seq<FileView>, archived: bool)
    ensures
        forall|i: int|
            0 <= i < logs_among(found, archived).len() ==> (#[trigger] logs_among(
                found,
                archived,
            )[i]).archived == archived,
    decreases found.len(),
{
    if found.len() > 0 {
        lemma_all_so(found.drop_last(), archived);
    }
}

proof fn lemma_sorting_members(sorted: Seq<FileView>, s: Seq<FileView>)
    requires
        is_sorting_of::<SourceFile>(sorted, s),
    ensures
        sorted.len() == s.len(),
        forall|f: FileView| sorted.contains(f) <==> #[trigger] s.contains(f),
{
    sorted.to_multiset_ensures();
    s.to_multiset_ensures();
    assert(sorted.to_multiset().len() == s.to_multiset().len());
    assert forall|f: FileView| sorted.contains(f) <==> #[trigger] s.contains(f) by {
        assert(sorted.contains(f) <==> sorted.to_multiset().count(f) > 0);
        assert(s.contains(f) <==> s.to_multiset().count(f) > 0);
    }
}

/// Files are read in this order: all active ones before all archived ones, and each kind by path. No
/// log is left out and none is made up.
pub proof fn law_active_files_come_first(
    files: Seq<FileView>,
    active: Seq<FileView>,
    archived: Seq<FileView>,
    i: int,
    j: int,
)
    requires
        is_reading_order(files, active, archived),
        0 <= i < j < files.len(),
    ensures
        files[i].archived ==> files[j].archived,
        files[i].archived == files[j].archived ==> !path_lt(files[j].path, files[i].path),
        files.len() == logs_among(active, false).len() + logs_among(archived, true).len(),
        !files[i].archived ==> logs_among(active, false).contains(files[i]),
        files[i].archived ==> logs_among(archived, true).contains(files[i]),
{
    let (x, y) = (logs_among(active, false), logs_among(archived, true));
    let n = x.len() as int;
    let (a, b) = (files.take(n), files.skip(n));
    lemma_all_so(active, false);
    lemma_all_so(archived, true);
    lemma_sorting_members(a, x);
    lemma_sorting_members(b, y);
    lemma_kind(a, x, false);
    lemma_kind(b, y, true);
    if i < n {
        assert(a[i] == files[i] && a.contains(files[i]));
        assert(x.contains(files[i]));
    } else {
        assert(b[i - n] == files[i] && b.contains(files[i]));
        assert(y.contains(files[i]));
    }
    if j < n {
        assert(a[j] == files[j]);
    } else {
        assert(b[j - n] == files[j]);
    }
}

proof fn lemma_kind(sorted: Seq<FileView>, s: Seq<FileView>, archived: bool)
    requires
        forall|f: FileView| sorted.contains(f) <==> #[trigger] s.contains(f),
        forall|i: int| 0 <= i < s.len() ==> (#[trigger] s[i]).archived == archived,
    ensures
        forall|i: int| 0 <= i < sorted.len() ==> (#[trigger] sorted[i]).archived == archived,
{
    assert forall|i: int| 0 <= i < sorted.len() implies (#[trigger] sorted[i]).archived
        == archived by {
        let f = sorted[i];
        assert(sorted.contains(f));
        assert(s.contains(f));
        let k = choose|k: int| 0 <= k < s.len() && s[k] == f;
        assert(s[k].archived == archived);
    }
}

/// Paths are ordered part by part: what lies below a directory stands before a longer name that
/// starts like that directory.
pub proof fn law_paths_are_ordered_by_their_parts(
    dir: Seq<char>,
    below: Seq<char>,
    letter: char,
    rest: Seq<char>,
)
    requires
        letter != '/',
        letter as int > 0,
    ensures
        path_lt(dir.push('/') + below, dir.push(letter) + rest),
{
    let (x, y) = (dir.push('/') + below, dir.push(letter) + rest);
    let (kx, ky) = (crate::discovery::path_key(x), crate::discovery::path_key(y));
    let n = dir.len() as int;
    let start = kx.take(n);
    assert(start =~= ky.take(n));
    assert(kx =~= start + kx.skip(n));
    assert(ky =~= start + ky.skip(n));
    assert(kx[n] == '\0' && ky[n] == letter);
    crate::store_laws::law_texts_differ_at_their_first_difference(start, kx.skip(n), ky.skip(n));
    assert(text_lt(kx, ky));
}

/// A name below a home is told without the home, whether or not the home ends in a slash; a path
/// that does not start with the home is told as it is.
pub proof fn law_names_are_told_from_the_home(home: Seq<char>, name: Seq<char>, other: Seq<char>)
    requires
        other.len() < home.len() || other.take(home.len() as int) != home,
    ensures
        relative_to(joined(home, name), home) == name,
        relative_to(other, home) == other,
{
    reveal_strlit("/");
    let stem = joined(home, Seq::empty());
    let path = joined(home, name);
    assert(path =~= stem + name);
    assert(path.subrange(0, stem.len() as int) =~= stem);
    assert(path.skip(stem.len() as int) =~= name);
    if crate::text::stands_at(other, stem, 0) {
        assert(other.subrange(0, stem.len() as int) == stem);
        assert(other.take(home.len() as int) =~= stem.take(home.len() as int));
        assert(stem.take(home.len() as int) =~= home);
    }
}

/// A path below a directory has one slash between them.
pub proof fn law_paths_are_joined_by_one_slash(dir: Seq<char>, name: Seq<char>)
    ensures
        dir.len() > 0 && dir.last() != '/' ==> joined(dir, name) == dir.push('/') + name,
        dir.len() > 0 && dir.last() == '/' ==> joined(dir, name) == dir + name,
        joined(Seq::empty(), name) == name,
{
    reveal_strlit("/");
    assert(Seq::<char>::empty() + name =~= name);
    assert(dir + "/"@ + name =~= dir.push('/') + name);
}

/// The home that is asked for comes first, then the one that the environment names unless it is
/// blank, then the usual place below the home of the user.
pub proof fn law_home_that_is_asked_for_comes_first(
    asked: Seq<char>,
    environment: Option<Seq<char>>,
    user: Option<Seq<char>>,
    named: Seq<char>,
)
    ensures
        home_of(Some(asked), environment, user) == asked,
        !blank(named) ==> home_of(None, Some(named), user) == named,
        blank(named) ==> home_of(None, Some(named), user) == home_of(None, None, user),
        user is Some ==> home_of(None, None, user) == joined(user->0, ".codex"@),
        home_of(None, None, None) == ".codex"@,
{
}

} // verus!
