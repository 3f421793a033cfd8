//! What the state database of the application knows of the threads. It is only ever read.

use vstd::prelude::*;

use crate::call_table::count_where;
use crate::call_table::edited;
use crate::call_table::CallEdit;
use crate::json;
use crate::json::any_member;
use crate::json::string_member;
use crate::model::copy_text;
use crate::model::CallView;
use crate::model::InferenceCall;
use crate::model::ModelConfidence;
use crate::model::SourceFormat;
use crate::outside;
use crate::outside::json_fault;
use crate::parser::first_of;
use crate::store::Store;
use crate::store::StoreView;
use crate::text;
use crate::text::blank;
use crate::text::has_part;
use crate::text::last_part;
use crate::text_map::TextMap;

verus! {

/// A thread with its title, model, project, activity and parent.
#[derive(Debug)]
pub struct StateThread {
    pub id: String,
    pub title: Option<String>,
    pub model: Option<String>,
    pub cwd: Option<String>,
    pub project_name: Option<String>,
    pub thread_source: Option<String>,
    pub activity: String,
    pub parent_thread_id: Option<String>,
    pub created_at_ms: Option<i64>,
    pub updated_at_ms: Option<i64>,
    /// Tokens over the life of the thread: an indication, never a source of totals.
    pub state_tokens_used: Option<i64>,
    pub rollout_path: Option<String>,
}

/// What a [`StateThread`] says.
pub struct ThreadView {
    pub id: Seq<char>,
    pub title: Option<Seq<char>>,
    pub model: Option<Seq<char>>,
    pub cwd: Option<Seq<char>>,
    pub project_name: Option<Seq<char>>,
    pub thread_source: Option<Seq<char>>,
    pub activity: Seq<char>,
    pub parent_thread_id: Option<Seq<char>>,
    pub created_at_ms: Option<i64>,
    pub updated_at_ms: Option<i64>,
    pub state_tokens_used: Option<i64>,
    pub rollout_path: Option<Seq<char>>,
}

impl View for StateThread {
    type V = ThreadView;

    open spec fn view(&self) -> ThreadView {
        ThreadView {
            id: self.id@,
            title: self.title.deep_view(),
            model: self.model.deep_view(),
            cwd: self.cwd.deep_view(),
            project_name: self.project_name.deep_view(),
            thread_source: self.thread_source.deep_view(),
            activity: self.activity@,
            parent_thread_id: self.parent_thread_id.deep_view(),
            created_at_ms: self.created_at_ms,
            updated_at_ms: self.updated_at_ms,
            state_tokens_used: self.state_tokens_used,
            rollout_path: self.rollout_path.deep_view(),
        }
    }
}

impl DeepView for StateThread {
    type V = ThreadView;

    open spec fn deep_view(&self) -> ThreadView {
        self.view()
    }
}

impl Clone for StateThread {
    fn clone(&self) -> (r: Self)
        ensures
            r@ == self@,
    {
        StateThread {
            id: self.id.clone(),
            title: copy_text(&self.title),
            model: copy_text(&self.model),
            cwd: copy_text(&self.cwd),
            project_name: copy_text(&self.project_name),
            thread_source: copy_text(&self.thread_source),
            activity: self.activity.clone(),
            parent_thread_id: copy_text(&self.parent_thread_id),
            created_at_ms: self.created_at_ms,
            updated_at_ms: self.updated_at_ms,
            state_tokens_used: self.state_tokens_used,
            rollout_path: copy_text(&self.rollout_path),
        }
    }
}

/// A row of the table of threads, as it is stored.
#[derive(Debug)]
pub struct StateRow {
    pub id: String,
    pub title: String,
    pub name: Option<String>,
    pub model: Option<String>,
    pub cwd: Option<String>,
    pub project_id: Option<String>,
    pub thread_source: Option<String>,
    pub source: Option<String>,
    pub created_at_ms: Option<i64>,
    pub updated_at_ms: Option<i64>,
    pub tokens_used: Option<i64>,
    pub rollout_path: Option<String>,
}

/// What a [`StateRow`] says.
pub struct RowView {
    pub id: Seq<char>,
    pub title: Seq<char>,
    pub name: Option<Seq<char>>,
    pub model: Option<Seq<char>>,
    pub cwd: Option<Seq<char>>,
    pub project_id: Option<Seq<char>>,
    pub thread_source: Option<Seq<char>>,
    pub source: Option<Seq<char>>,
    pub created_at_ms: Option<i64>,
    pub updated_at_ms: Option<i64>,
    pub tokens_used: Option<i64>,
    pub rollout_path: Option<Seq<char>>,
}

impl DeepView for StateRow {
    type V = RowView;

    open spec fn deep_view(&self) -> RowView {
        RowView {
            id: self.id@,
            title: self.title@,
            name: self.name.deep_view(),
            model: self.model.deep_view(),
            cwd: self.cwd.deep_view(),
            project_id: self.project_id.deep_view(),
            thread_source: self.thread_source.deep_view(),
            source: self.source.deep_view(),
            created_at_ms: self.created_at_ms,
            updated_at_ms: self.updated_at_ms,
            tokens_used: self.tokens_used,
            rollout_path: self.rollout_path.deep_view(),
        }
    }
}

/// The activity of a thread: exactly one, from its source and its model.
pub open spec fn activity_of(
    thread_source: Option<Seq<char>>,
    source: Seq<char>,
    model: Option<Seq<char>>,
) -> Seq<char> {
    if thread_source == Some("guardian_review"@) || has_part(source, "guardian"@) {
        "auto_review"@
    } else if thread_source == Some("subagent"@) || thread_source == Some(
        "agent_created_thread"@,
    ) {
        "subagent"@
    } else if thread_source == Some("user"@) {
        "main"@
    } else if thread_source == Some("voice_chat"@) || thread_source == Some("realtime_voice"@) {
        "voice"@
    } else if model == Some("codex-auto-review"@) {
        "auto_review"@
    } else {
        "other"@
    }
}

fn is_str(t: Option<&str>, s: &str) -> (r: bool)
    ensures
        r == (t is Some && t->0@ == s@),
{
    match t {
        Some(x) => text::same(x, s),
        None => false,
    }
}

/// An optional text told as a mathematical value.
pub open spec fn said(t: Option<&str>) -> Option<Seq<char>> {
    match t {
        Some(s) => Some(s@),
        None => None,
    }
}

/// Finds the activity of a thread.
pub fn classify(thread_source: Option<&str>, source: &str, model: Option<&str>) -> (r: &'static str)
    ensures
        r@ == activity_of(said(thread_source), source@, said(model)),
{
    let all = text::letters(source);
    if is_str(thread_source, "guardian_review") || text::contains(&all, "guardian") {
        "auto_review"
    } else if is_str(thread_source, "subagent") || is_str(thread_source, "agent_created_thread") {
        "subagent"
    } else if is_str(thread_source, "user") {
        "main"
    } else if is_str(thread_source, "voice_chat") || is_str(thread_source, "realtime_voice") {
        "voice"
    } else if is_str(model, "codex-auto-review") {
        "auto_review"
    } else {
        "other"
    }
}

/// The parent that the source of a thread names, written as JSON.
pub open spec fn parent_in(source: Seq<char>) -> Option<Seq<char>> {
    if json_fault(source) is Some {
        None
    } else {
        match any_member(source, "subagent"@) {
            Some(agent) => match any_member(agent, "thread_spawn"@) {
                Some(spawn) => string_member(spawn, "parent_thread_id"@),
                None => None,
            },
            None => None,
        }
    }
}

fn extract_parent_from_source(source: &str) -> (r: Option<String>)
    ensures
        r.deep_view() == parent_in(source@),
{
    if outside::check_json(source).is_some() {
        return None;
    }
    match json::read_any_member(source, "subagent") {
        Some(agent) => match json::read_any_member(agent.as_str(), "thread_spawn") {
            Some(spawn) => json::read_string_member(spawn.as_str(), "parent_thread_id"),
            None => None,
        },
        None => None,
    }
}

/// A text that is there and not blank.
pub open spec fn unless_blank(t: Option<Seq<char>>) -> Option<Seq<char>> {
    if t is Some && !blank(t->0) {
        t
    } else {
        None
    }
}

/// The title of a thread, else its name.
pub open spec fn title_of(title: Seq<char>, name: Option<Seq<char>>) -> Option<Seq<char>> {
    if !blank(title) {
        Some(title)
    } else {
        unless_blank(name)
    }
}

/// The map that pairs write down, a later pair in place of an earlier one.
pub open spec fn pairs_map(pairs: Seq<(Seq<char>, Seq<char>)>) -> Map<Seq<char>, Seq<char>>
    decreases pairs.len(),
{
    if pairs.len() == 0 {
        Map::empty()
    } else {
        pairs_map(pairs.drop_last()).insert(pairs.last().0, pairs.last().1)
    }
}

/// What is found under a key that may be missing.
pub open spec fn found(m: Map<Seq<char>, Seq<char>>, k: Option<Seq<char>>) -> Option<Seq<char>> {
    if k is Some && m.contains_key(k->0) {
        Some(m[k->0])
    } else {
        None
    }
}

/// The thread of a row: `parents` tells the parent of a child, `projects` the name of a project.
pub open spec fn thread_of(
    r: RowView,
    parents: Map<Seq<char>, Seq<char>>,
    projects: Map<Seq<char>, Seq<char>>,
) -> ThreadView {
    let source = match r.source {
        Some(s) => s,
        None => Seq::empty(),
    };
    ThreadView {
        id: r.id,
        title: title_of(r.title, r.name),
        model: r.model,
        cwd: r.cwd,
        project_name: match found(projects, r.project_id) {
            Some(name) => Some(name),
            None => match r.cwd {
                Some(c) => Some(last_part(c)),
                None => None,
            },
        },
        thread_source: r.thread_source,
        activity: activity_of(r.thread_source, source, r.model),
        parent_thread_id: match found(parents, Some(r.id)) {
            Some(p) => Some(p),
            None => match r.source {
                Some(s) => parent_in(s),
                None => None,
            },
        },
        created_at_ms: r.created_at_ms,
        updated_at_ms: r.updated_at_ms,
        state_tokens_used: r.tokens_used,
        rollout_path: r.rollout_path,
    }
}

fn table_of(pairs: &Vec<(String, String)>) -> (r: TextMap<String>)
    ensures
        r@ == pairs_map(pairs.deep_view()),
{
    let ghost all = pairs.deep_view();
    let n: usize = pairs.len();
    let mut r: TextMap<String> = TextMap::new();
    let mut i: usize = 0;
    while i < n
        invariant
            n == pairs@.len(),
            i <= n,
            all == pairs.deep_view(),
            r@ == pairs_map(all.take(i as int)),
        decreases n - i,
    {
        let p = &pairs[i];
        assert(all[i as int] == (p.0@, p.1@));
        assert(all.take(i + 1).drop_last() =~= all.take(i as int));
        r.insert(p.0.clone(), p.1.clone());
        i += 1;
    }
    assert(all.take(n as int) =~= all);
    r
}

fn opt_str(t: &Option<String>) -> (r: Option<&str>)
    ensures
        said(r) == t.deep_view(),
{
    match t {
        Some(s) => Some(s.as_str()),
        None => None,
    }
}

fn read_thread(row: &StateRow, parents: &TextMap<String>, projects: &TextMap<String>) -> (r:
    StateThread)
    ensures
        r@ == thread_of(row.deep_view(), parents@, projects@),
{
    let title = if !text::is_blank(row.title.as_str()) {
        Some(row.title.clone())
    } else {
        match &row.name {
            Some(n) => if !text::is_blank(n.as_str()) {
                Some(n.clone())
            } else {
                None
            },
            None => None,
        }
    };
    let named = match &row.project_id {
        Some(id) => match projects.get(id.as_str()) {
            Some(name) => Some(name.clone()),
            None => None,
        },
        None => None,
    };
    let project_name = match named {
        Some(name) => Some(name),
        None => match &row.cwd {
            Some(c) => Some(text::find_last_part(c.as_str())),
            None => None,
        },
    };
    let source = match &row.source {
        Some(s) => s.as_str(),
        None => "",
    };
    proof {
        reveal_strlit("");
        assert(""@ =~= Seq::<char>::empty());
    }
    let activity = classify(opt_str(&row.thread_source), source, opt_str(&row.model)).to_owned();
    let parent_thread_id = match parents.get(row.id.as_str()) {
        Some(p) => Some(p.clone()),
        None => match &row.source {
            Some(s) => extract_parent_from_source(s.as_str()),
            None => None,
        },
    };
    StateThread {
        id: row.id.clone(),
        title,
        model: copy_text(&row.model),
        cwd: copy_text(&row.cwd),
        project_name,
        thread_source: copy_text(&row.thread_source),
        activity,
        parent_thread_id,
        created_at_ms: row.created_at_ms,
        updated_at_ms: row.updated_at_ms,
        state_tokens_used: row.tokens_used,
        rollout_path: copy_text(&row.rollout_path),
    }
}

/// Makes the threads of the rows. `edges` lists pairs of a child and its parent, `projects` pairs
/// of an id and a name.
pub fn read_threads(
    rows: &Vec<StateRow>,
    edges: &Vec<(String, String)>,
    projects: &Vec<(String, String)>,
) -> (r: Vec<StateThread>)
    ensures
        r@.len() == rows@.len(),
        forall|i: int|
            0 <= i < rows@.len() ==> (#[trigger] r@[i])@ == thread_of(
                rows@[i].deep_view(),
                pairs_map(edges.deep_view()),
                pairs_map(projects.deep_view()),
            ),
{
    let parents = table_of(edges);
    let names = table_of(projects);
    let n: usize = rows.len();
    let mut r: Vec<StateThread> = Vec::new();
    let mut i: usize = 0;
    while i < n
        invariant
            n == rows@.len(),
            i <= n,
            r@.len() == i,
            forall|j: int|
                0 <= j < i ==> (#[trigger] r@[j])@ == thread_of(
                    rows@[j].deep_view(),
                    parents@,
                    names@,
                ),
        decreases n - i,
    {
        r.push(read_thread(&rows[i], &parents, &names));
        i += 1;
    }
    r
}

/// How many threads have an activity.
pub open spec fn threads_with(threads: Seq<ThreadView>, activity: Seq<char>) -> nat
    decreases threads.len(),
{
    if threads.len() == 0 {
        0
    } else {
        threads_with(threads.drop_last(), activity) + if threads.last().activity == activity {
            1nat
        } else {
            0
        }
    }
}

/// The number of threads of each activity that occurs.
pub open spec fn activity_counts(threads: Seq<ThreadView>) -> Map<Seq<char>, u64> {
    Map::new(
        |k: Seq<char>| threads_with(threads, k) > 0,
        |k: Seq<char>| threads_with(threads, k) as u64,
    )
}

proof fn lemma_threads_with(threads: Seq<ThreadView>, k: Seq<char>)
    ensures
        threads_with(threads, k) <= threads.len(),
    decreases threads.len(),
{
    if threads.len() > 0 {
        lemma_threads_with(threads.drop_last(), k);
    }
}

/// Counts the threads of each activity.
pub fn thread_activity_counts(threads: &Vec<StateThread>) -> (r: TextMap<u64>)
    ensures
        r@ == activity_counts(threads.deep_view()),
{
    let ghost all = threads.deep_view();
    let n: usize = threads.len();
    let mut counts: TextMap<u64> = TextMap::new();
    let mut i: usize = 0;
    assert(counts@ =~= activity_counts(all.take(0)));
    while i < n
        invariant
            n == threads@.len(),
            i <= n,
            all == threads.deep_view(),
            counts@ == activity_counts(all.take(i as int)),
        decreases n - i,
    {
        let t = &threads[i];
        let ghost before = all.take(i as int);
        let ghost next = all.take(i + 1);
        assert(all[i as int] == t@);
        assert(next.drop_last() =~= before);
        assert(next.last() == t@);
        let ghost old_counts = counts@;
        let count: u64 = match counts.get(t.activity.as_str()) {
            Some(c) => *c,
            None => 0,
        };
        proof {
            let k = t.activity@;
            lemma_threads_with(before, k);
            assert(old_counts.contains_key(k) == (threads_with(before, k) > 0));
            assert(count == threads_with(before, k));
        }
        counts.insert(t.activity.clone(), count + 1);
        proof {
            assert forall|k: Seq<char>| #[trigger] counts@.contains_key(k) == (threads_with(next, k)
                > 0) by {
                assert(old_counts.contains_key(k) == (threads_with(before, k) > 0));
            }
            assert forall|k: Seq<char>| #[trigger] counts@.contains_key(k) implies counts@[k]
                == threads_with(next, k) as u64 by {
                if k != t.activity@ {
                    assert(old_counts.contains_key(k));
                }
            }
            assert(counts@ =~= activity_counts(next));
        }
        i += 1;
    }
    assert(all.take(n as int) =~= all);
    counts
}

/// The table of threads once these are put in, each in place of the one with its id.
pub open spec fn with_threads(table: Map<Seq<char>, ThreadView>, threads: Seq<ThreadView>) -> Map<
    Seq<char>,
    ThreadView,
>
    decreases threads.len(),
{
    if threads.len() == 0 {
        table
    } else {
        with_threads(table, threads.drop_last()).insert(threads.last().id, threads.last())
    }
}

/// The thread of a call is known.
pub open spec fn has_thread(threads: Map<Seq<char>, ThreadView>, c: CallView) -> bool {
    c.thread_id is Some && threads.contains_key(c.thread_id->0)
}

/// A call with the activity, the parent and the title of its thread.
pub open spec fn with_activity(threads: Map<Seq<char>, ThreadView>, c: CallView) -> CallView {
    let t = threads[c.thread_id->0];
    CallView {
        activity: Some(t.activity),
        parent_thread_id: first_of(t.parent_thread_id, c.parent_thread_id),
        thread_title: t.title,
        ..c
    }
}

/// The thread of a call, by its thread or else by its session.
pub open spec fn thread_key(c: CallView) -> Option<Seq<char>> {
    first_of(c.thread_id, c.session_id)
}

/// A legacy call without a model whose thread has one. Usage records are never given a model.
pub open spec fn lacks_model(threads: Map<Seq<char>, ThreadView>, c: CallView) -> bool {
    &&& thread_key(c) is Some && threads.contains_key(thread_key(c)->0)
    &&& c.model_slug is None
    &&& c.source_format == SourceFormat::LegacyTokenCount
    &&& threads[thread_key(c)->0].model is Some
}

/// A call with the model of its thread, inferred.
pub open spec fn with_model(threads: Map<Seq<char>, ThreadView>, c: CallView) -> CallView {
    CallView {
        model_slug: threads[thread_key(c)->0].model,
        model_confidence: ModelConfidence::Inferred,
        ..c
    }
}

/// A call without a project whose thread has a directory.
pub open spec fn lacks_project(threads: Map<Seq<char>, ThreadView>, c: CallView) -> bool {
    &&& thread_key(c) is Some && threads.contains_key(thread_key(c)->0)
    &&& c.project_path is None
    &&& threads[thread_key(c)->0].cwd is Some
}

/// A call with the directory of its thread.
pub open spec fn with_project(threads: Map<Seq<char>, ThreadView>, c: CallView) -> CallView {
    CallView { project_path: threads[thread_key(c)->0].cwd, ..c }
}

/// There is something to tell a call about its thread.
pub open spec fn is_told(threads: Map<Seq<char>, ThreadView>, c: CallView) -> bool {
    has_thread(threads, c) || lacks_model(threads, c) || lacks_project(threads, c)
}

/// A call with what is known of its thread.
pub open spec fn told(threads: Map<Seq<char>, ThreadView>, c: CallView) -> CallView {
    let a = if has_thread(threads, c) {
        with_activity(threads, c)
    } else {
        c
    };
    let b = if lacks_model(threads, a) {
        with_model(threads, a)
    } else {
        a
    };
    if lacks_project(threads, b) {
        with_project(threads, b)
    } else {
        b
    }
}

/// The calls with what is known of their threads.
pub open spec fn told_calls(
    calls: Map<Seq<char>, CallView>,
    threads: Map<Seq<char>, ThreadView>,
) -> Map<Seq<char>, CallView> {
    edited(calls, |c: CallView| is_told(threads, c), |c: CallView| told(threads, c))
}

/// The store once the threads are put in and told to the calls.
pub open spec fn enriched_store(s: StoreView, threads: Seq<ThreadView>) -> StoreView {
    let table = with_threads(s.threads, threads);
    StoreView { threads: table, calls: told_calls(s.calls, table), ..s }
}

/// How many calls are told something.
pub open spec fn enriched_count(s: StoreView, threads: Seq<ThreadView>) -> nat {
    let table = with_threads(s.threads, threads);
    count_where(s.calls, |c: CallView| is_told(table, c))
}

fn thread_behind<'a>(threads: &'a TextMap<StateThread>, c: &InferenceCall) -> (r: Option<
    &'a StateThread,
>)
    ensures
        match r {
            Some(t) => thread_key(c@) is Some && threads@.contains_key(thread_key(c@)->0) && t@
                == threads@[thread_key(c@)->0],
            None => !(thread_key(c@) is Some && threads@.contains_key(thread_key(c@)->0)),
        },
{
    let id = if c.thread_id.is_some() {
        &c.thread_id
    } else {
        &c.session_id
    };
    match id {
        Some(id) => threads.get(id.as_str()),
        None => None,
    }
}

struct TellThreads<'a> {
    threads: &'a TextMap<StateThread>,
}

impl<'a> CallEdit for TellThreads<'a> {
    closed spec fn applies(&self, c: CallView) -> bool {
        is_told(self.threads@, c)
    }

    closed spec fn result(&self, c: CallView) -> CallView {
        told(self.threads@, c)
    }

    proof fn lemma_keeps_keys(&self, c: CallView) {
    }

    fn edit(&self, c: &InferenceCall) -> (r: Option<InferenceCall>) {
        let t = match thread_behind(self.threads, c) {
            Some(t) => t,
            None => return None,
        };
        let by_thread = c.thread_id.is_some();
        let model = t.model.is_some() && c.model_slug.is_none() && c.source_format
            == SourceFormat::LegacyTokenCount;
        let project = t.cwd.is_some() && c.project_path.is_none();
        if !by_thread && !model && !project {
            return None;
        }
        let mut d = c.clone();
        if by_thread {
            d.activity = Some(t.activity.clone());
            if t.parent_thread_id.is_some() {
                d.parent_thread_id = copy_text(&t.parent_thread_id);
            }
            d.thread_title = copy_text(&t.title);
        }
        if model {
            d.model_slug = copy_text(&t.model);
            d.model_confidence = ModelConfidence::Inferred;
        }
        if project {
            d.project_path = copy_text(&t.cwd);
        }
        Some(d)
    }
}

fn put_threads(table: &mut TextMap<StateThread>, threads: &Vec<StateThread>)
    ensures
        final(table)@ == with_threads(old(table)@, threads.deep_view()),
{
    let ghost before = table@;
    let ghost all = threads.deep_view();
    let n: usize = threads.len();
    let mut i: usize = 0;
    while i < n
        invariant
            n == threads@.len(),
            all == threads.deep_view(),
            i <= n,
            table@ == with_threads(before, all.take(i as int)),
        decreases n - i,
    {
        let t = &threads[i];
        assert(all[i as int] == t@);
        assert(all.take(i + 1).drop_last() =~= all.take(i as int));
        table.insert(t.id.clone(), t.clone());
        i += 1;
    }
    assert(all.take(n as int) =~= all);
}

/// Puts the threads into the store and tells the calls what is known of them: activity, parent
/// and title; a model for legacy calls without one; a project for calls without one. Without
/// threads nothing changes. Tells how many threads there are, and how many calls were told
/// something.
pub fn enrich_calls(store: &mut Store, threads: &Option<Vec<StateThread>>) -> (r: (usize, u64))
    ensures
        match threads {
            Some(t) => {
                &&& final(store)@ == enriched_store(old(store)@, t.deep_view())
                &&& r.0 == t@.len()
                &&& r.1 == enriched_count(old(store)@, t.deep_view())
            },
            None => final(store)@ == old(store)@ && r == (0usize, 0u64),
        },
{
    let threads = match threads {
        Some(t) => t,
        None => return (0, 0),
    };
    let ghost before = store@;
    put_threads(&mut store.threads, threads);
    let ghost table = store.threads@;
    let e = TellThreads { threads: &store.threads };
    proof {
        assert((|c: CallView| e.applies(c)) =~= (|c: CallView| is_told(table, c)));
        assert((|c: CallView| e.result(c)) =~= (|c: CallView| told(table, c)));
    }
    let count: u64 = store.calls.edit_where(&e);
    assert(store@ =~= enriched_store(before, threads.deep_view()));
    (threads.len(), count)
}

} // verus!
