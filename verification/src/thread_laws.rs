//! What is told of a thread, and what a thread tells its calls.

use vstd::prelude::*;

use crate::model::CallView;
use crate::model::ModelConfidence;
use crate::model::SourceFormat;
use crate::state::activity_counts;
use crate::state::activity_of;
use crate::state::enriched_count;
use crate::state::enriched_store;
use crate::state::is_told;
use crate::state::pairs_map;
use crate::state::thread_of;
use crate::state::threads_with;
use crate::state::told;
use crate::state::told_calls;
use crate::state::with_threads;
use crate::state::RowView;
use crate::state::ThreadView;
use crate::store::StoreView;
use crate::text::blank;
use crate::text::has_part;

verus! {

proof fn lemma_sources_differ()
    ensures
        "guardian_review"@.len() == 15,
        "agent_created_thread"@.len() == 20,
        "subagent"@.len() == 8,
        "user"@.len() == 4,
        "voice_chat"@.len() == 10,
        "realtime_voice"@.len() == 14,
{
    reveal_strlit("guardian_review");
    reveal_strlit("agent_created_thread");
    reveal_strlit("subagent");
    reveal_strlit("user");
    reveal_strlit("voice_chat");
    reveal_strlit("realtime_voice");
}

/// A thread of a guardian is auto review, whatever else is told of it.
pub proof fn law_guardian_threads_are_auto_review(
    thread_source: Option<Seq<char>>,
    before: Seq<char>,
    behind: Seq<char>,
    source: Seq<char>,
    model: Option<Seq<char>>,
)
    ensures
        activity_of(thread_source, before + "guardian"@ + behind, model) == "auto_review"@,
        activity_of(Some("guardian_review"@), source, model) == "auto_review"@,
{
    let whole = before + "guardian"@ + behind;
    let n = before.len() as int;
    assert(whole.subrange(n, n + "guardian"@.len()) =~= "guardian"@);
    assert(crate::text::stands_at(whole, "guardian"@, n));
}

/// Where no guardian is named, the source of a thread tells its activity, whatever its model; only
/// where the source is none of those known does the model of auto review count.
pub proof fn law_source_tells_the_activity(
    thread_source: Option<Seq<char>>,
    source: Seq<char>,
    model: Option<Seq<char>>,
)
    requires
        !has_part(source, "guardian"@),
    ensures
        thread_source == Some("user"@) ==> activity_of(thread_source, source, model) == "main"@,
        thread_source == Some("subagent"@) || thread_source == Some("agent_created_thread"@)
            ==> activity_of(thread_source, source, model) == "subagent"@,
        thread_source == Some("voice_chat"@) || thread_source == Some("realtime_voice"@)
            ==> activity_of(thread_source, source, model) == "voice"@,
        ({
            let known = thread_source == Some("user"@) || thread_source == Some("subagent"@)
                || thread_source == Some("agent_created_thread"@) || thread_source == Some(
                "voice_chat"@,
            ) || thread_source == Some("realtime_voice"@) || thread_source == Some(
                "guardian_review"@,
            );
            &&& !known && model == Some("codex-auto-review"@) ==> activity_of(
                thread_source,
                source,
                model,
            ) == "auto_review"@
            &&& !known && model != Some("codex-auto-review"@) ==> activity_of(
                thread_source,
                source,
                model,
            ) == "other"@
        }),
{
    lemma_sources_differ();
}

/// A thread keeps what its row says. Its title is the first of title and name that is not blank; its
/// project is the one that its id names, else the last part of its directory; its parent is the one
/// that is recorded, else the one that its source names.
pub proof fn law_thread_is_its_row(
    r: RowView,
    parents: Map<Seq<char>, Seq<char>>,
    projects: Map<Seq<char>, Seq<char>>,
    dir: Seq<char>,
    name: Seq<char>,
)
    requires
        name.len() > 0,
        !name.contains('/'),
    ensures
        ({
            let t = thread_of(r, parents, projects);
            let named = r.project_id is Some && projects.contains_key(r.project_id->0);
            &&& t.id == r.id
            &&& t.model == r.model
            &&& t.cwd == r.cwd
            &&& t.thread_source == r.thread_source
            &&& t.created_at_ms == r.created_at_ms
            &&& t.updated_at_ms == r.updated_at_ms
            &&& t.state_tokens_used == r.tokens_used
            &&& t.rollout_path == r.rollout_path
            &&& !blank(r.title) ==> t.title == Some(r.title)
            &&& blank(r.title) && r.name is Some && !blank(r.name->0) ==> t.title == r.name
            &&& blank(r.title) && (r.name is None || blank(r.name->0)) ==> t.title is None
            &&& named ==> t.project_name == Some(projects[r.project_id->0])
            &&& !named && r.cwd == Some(dir.push('/') + name) ==> t.project_name == Some(name)
            &&& !named && r.cwd is None ==> t.project_name is None
            &&& parents.contains_key(r.id) ==> t.parent_thread_id == Some(parents[r.id])
            &&& !parents.contains_key(r.id) && r.source is None ==> t.parent_thread_id is None
            &&& r.source is None ==> t.activity == activity_of(
                r.thread_source,
                Seq::empty(),
                r.model,
            )
            &&& r.source is Some ==> t.activity == activity_of(
                r.thread_source,
                r.source->0,
                r.model,
            )
        }),
{
    crate::breakdown_laws::law_project_is_the_last_part(dir, name);
}

/// What is told to a call about its thread changes neither its identity, nor its usage, nor its
/// tier, nor where it comes from; a usage record keeps its model, and a model or a project that is
/// there stays.
pub proof fn law_told_call_stays_itself(threads: Map<Seq<char>, ThreadView>, c: CallView)
    ensures
        ({
            let d = told(threads, c);
            &&& d.event_uid == c.event_uid
            &&& d.response_id == c.response_id
            &&& d.timestamp_utc == c.timestamp_utc
            &&& d.session_id == c.session_id
            &&& d.thread_id == c.thread_id
            &&& d.turn_id == c.turn_id
            &&& d.root_turn_id == c.root_turn_id
            &&& d.usage == c.usage
            &&& d.service_tier == c.service_tier
            &&& d.source_format == c.source_format
            &&& d.source_file == c.source_file
            &&& d.source_ordinal == c.source_ordinal
            &&& d.archived == c.archived
            &&& c.source_format == SourceFormat::TokenUsageRecord || c.model_slug is Some
                ==> d.model_slug == c.model_slug && d.model_confidence == c.model_confidence
            &&& c.project_path is Some ==> d.project_path == c.project_path
        }),
{
}

/// A call of a known thread has the activity and the title of that thread, and its parent where it
/// has one. One of another thread keeps its own.
pub proof fn law_thread_tells_its_calls(threads: Map<Seq<char>, ThreadView>, c: CallView)
    ensures
        ({
            let d = told(threads, c);
            let known = c.thread_id is Some && threads.contains_key(c.thread_id->0);
            let t = threads[c.thread_id->0];
            &&& known ==> d.activity == Some(t.activity) && d.thread_title == t.title
            &&& known && t.parent_thread_id is Some ==> d.parent_thread_id == t.parent_thread_id
            &&& known && t.parent_thread_id is None ==> d.parent_thread_id == c.parent_thread_id
            &&& !known ==> d.activity == c.activity && d.thread_title == c.thread_title
                && d.parent_thread_id == c.parent_thread_id
        }),
{
}

/// A legacy call without a model has that of its thread, which its session names where it has no
/// thread, and the model counts as inferred; a call without a project has the directory of that
/// thread. Where the thread tells none, the call has none.
pub proof fn law_thread_tells_model_and_project(threads: Map<Seq<char>, ThreadView>, c: CallView)
    ensures
        ({
            let d = told(threads, c);
            let key = if c.thread_id is Some {
                c.thread_id
            } else {
                c.session_id
            };
            let known = key is Some && threads.contains_key(key->0);
            let t = threads[key->0];
            let legacy = c.source_format == SourceFormat::LegacyTokenCount && c.model_slug is None;
            &&& legacy && known && t.model is Some ==> d.model_slug == t.model && d.model_confidence
                == ModelConfidence::Inferred
            &&& legacy && !(known && t.model is Some) ==> d.model_slug is None
                && d.model_confidence == c.model_confidence
            &&& c.project_path is None && known ==> d.project_path == t.cwd
            &&& c.project_path is None && !known ==> d.project_path is None
        }),
{
}

/// Telling the threads to the calls keeps each call under its identity and makes up none.
pub proof fn law_told_calls_are_the_same_calls(
    calls: Map<Seq<char>, CallView>,
    threads: Map<Seq<char>, ThreadView>,
    u: Seq<char>,
)
    ensures
        told_calls(calls, threads).contains_key(u) <==> calls.contains_key(u),
        calls.contains_key(u) ==> told_calls(calls, threads)[u] == told(threads, calls[u]),
{
}

/// One more thread stands under its id, in place of the one that stood there, and changes no other.
pub proof fn law_later_thread_replaces(
    table: Map<Seq<char>, ThreadView>,
    threads: Seq<ThreadView>,
    t: ThreadView,
    other: Seq<char>,
)
    ensures
        ({
            let (a, b) = (with_threads(table, threads), with_threads(table, threads.push(t)));
            &&& with_threads(table, Seq::<ThreadView>::empty()) == table
            &&& b.contains_key(t.id) && b[t.id] == t
            &&& other != t.id ==> (b.contains_key(other) <==> a.contains_key(other))
            &&& other != t.id && a.contains_key(other) ==> b[other] == a[other]
        }),
{
    assert(threads.push(t).drop_last() =~= threads);
}

/// Putting threads into a store changes its threads and what its calls say of them, and nothing
/// else.
pub proof fn law_threads_change_only_threads_and_calls(s: StoreView, threads: Seq<ThreadView>)
    ensures
        ({
            let t = enriched_store(s, threads);
            &&& t.threads == with_threads(s.threads, threads)
            &&& t.calls == told_calls(s.calls, t.threads)
            &&& t.primary_sessions == s.primary_sessions
            &&& t.thread_settings == s.thread_settings
            &&& t.checkpoints == s.checkpoints
            &&& t.meta == s.meta
            &&& t.pricing == s.pricing
            &&& t.import_errors == s.import_errors
        }),
{
}

/// One more thread is counted under its activity and under no other.
pub proof fn law_each_thread_counts_under_its_activity(
    threads: Seq<ThreadView>,
    t: ThreadView,
    k: Seq<char>,
)
    requires
        threads.len() < u64::MAX,
    ensures
        ({
            let (a, b) = (activity_counts(threads), activity_counts(threads.push(t)));
            &&& t.activity == k ==> b.contains_key(k) && b[k] == (if a.contains_key(k) {
                a[k] + 1
            } else {
                1
            })
            &&& t.activity != k ==> (b.contains_key(k) <==> a.contains_key(k))
            &&& t.activity != k && a.contains_key(k) ==> b[k] == a[k]
        }),
{
    assert(threads.push(t).drop_last() =~= threads);
    lemma_threads_within(threads, k);
}

proof fn lemma_threads_within(threads: Seq<ThreadView>, k: Seq<char>)
    ensures
        threads_with(threads, k) <= threads.len(),
    decreases threads.len(),
{
    if threads.len() > 0 {
        lemma_threads_within(threads.drop_last(), k);
    }
}

/// Of pairs with the same first text the last one counts; each other pair stays.
pub proof fn law_later_pair_counts(
    pairs: Seq<(Seq<char>, Seq<char>)>,
    k: Seq<char>,
    v: Seq<char>,
    other: Seq<char>,
)
    ensures
        ({
            let (a, b) = (pairs_map(pairs), pairs_map(pairs.push((k, v))));
            &&& b.contains_key(k) && b[k] == v
            &&& other != k ==> (b.contains_key(other) <==> a.contains_key(other))
            &&& other != k && a.contains_key(other) ==> b[other] == a[other]
            &&& !pairs_map(Seq::empty()).contains_key(k)
        }),
{
    assert(pairs.push((k, v)).drop_last() =~= pairs);
}

/// The calls that are told something are those of a known thread, the legacy calls without a model
/// whose thread has one, and the calls without a project whose thread has a directory.
pub proof fn law_which_calls_are_told(threads: Map<Seq<char>, ThreadView>, c: CallView)
    ensures
        ({
            let key = if c.thread_id is Some {
                c.thread_id
            } else {
                c.session_id
            };
            let known = key is Some && threads.contains_key(key->0);
            let t = threads[key->0];
            is_told(threads, c) <==> (c.thread_id is Some && threads.contains_key(c.thread_id->0))
                || (known && c.model_slug is None && c.source_format
                == SourceFormat::LegacyTokenCount && t.model is Some) || (known
                && c.project_path is None && t.cwd is Some)
        }),
{
}

/// The calls that are told something are counted.
pub proof fn law_told_calls_are_counted(s: StoreView, threads: Seq<ThreadView>)
    ensures
        enriched_count(s, threads) == s.calls.dom().filter(
            |u: Seq<char>| is_told(with_threads(s.threads, threads), s.calls[u]),
        ).len(),
{
    let table = with_threads(s.threads, threads);
    let test = |c: CallView| is_told(table, c);
    assert(s.calls.dom().filter(|u: Seq<char>| test(s.calls[u])) =~= s.calls.dom().filter(
        |u: Seq<char>| is_told(table, s.calls[u]),
    ));
}

} // verus!
