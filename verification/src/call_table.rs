//! The table of calls: each call once by its identity, and each response id at most once.

use vstd::prelude::*;

use crate::model::copy_text;
use crate::model::CallView;
use crate::model::InferenceCall;
use crate::text_map::lemma_next_row;
use crate::text_map::lemma_ordered_take;
use crate::text_map::lemma_rows_count;
use crate::text_map::lemma_rows_map_at;
use crate::text_map::ordered;
use crate::text_map::rows_map;
use crate::text_map::TextMap;

verus! {

/// Some call has this response id.
pub open spec fn is_taken(m: Map<Seq<char>, CallView>, rid: Seq<char>) -> bool {
    exists|u: Seq<char>| #[trigger] m.contains_key(u) && m[u].response_id == Some(rid)
}

/// Each call stands under its own identity, and no two share a response id.
pub open spec fn is_call_table(m: Map<Seq<char>, CallView>) -> bool {
    &&& forall|u: Seq<char>| #[trigger] m.contains_key(u) ==> m[u].event_uid == u
    &&& forall|u: Seq<char>, v: Seq<char>|
        #![trigger m.contains_key(u), m.contains_key(v)]
        m.contains_key(u) && m.contains_key(v) && m[u].response_id is Some && m[u].response_id
            == m[v].response_id ==> u == v
}

/// The calls of a table that a test does not drop.
pub open spec fn kept(
    m: Map<Seq<char>, CallView>,
    drop: spec_fn(CallView) -> bool,
) -> Map<Seq<char>, CallView> {
    Map::new(|u: Seq<char>| m.contains_key(u) && !drop(m[u]), |u: Seq<char>| m[u])
}

/// How many calls of a table meet a test.
pub open spec fn count_where(
    m: Map<Seq<char>, CallView>,
    test: spec_fn(CallView) -> bool,
) -> nat {
    m.dom().filter(|u: Seq<char>| test(m[u])).len()
}

/// The calls of a table, those that meet a test being edited.
pub open spec fn edited(
    m: Map<Seq<char>, CallView>,
    test: spec_fn(CallView) -> bool,
    edit: spec_fn(CallView) -> CallView,
) -> Map<Seq<char>, CallView> {
    Map::new(
        |u: Seq<char>| m.contains_key(u),
        |u: Seq<char>|
            if test(m[u]) {
                edit(m[u])
            } else {
                m[u]
            },
    )
}

/// A test on calls.
pub trait CallTest {
    spec fn holds(&self, c: CallView) -> bool;

    fn test(&self, c: &InferenceCall) -> (r: bool)
        ensures
            r == self.holds(c@),
    ;
}

/// An edit of the calls that meet a test. It keeps the identity and the response id.
pub trait CallEdit {
    spec fn applies(&self, c: CallView) -> bool;

    spec fn result(&self, c: CallView) -> CallView;

    proof fn lemma_keeps_keys(&self, c: CallView)
        ensures
            self.result(c).event_uid == c.event_uid,
            self.result(c).response_id == c.response_id,
    ;

    /// The edited call, where the test is met.
    fn edit(&self, c: &InferenceCall) -> (r: Option<InferenceCall>)
        ensures
            match r {
                Some(d) => self.applies(c@) && d@ == self.result(c@),
                None => !self.applies(c@),
            },
    ;
}

/// A table of calls.
pub struct CallTable {
    calls: TextMap<InferenceCall>,
    response_ids: TextMap<()>,
}

impl View for CallTable {
    type V = Map<Seq<char>, CallView>;

    closed spec fn view(&self) -> Map<Seq<char>, CallView> {
        self.calls@
    }
}

/// The response ids are those of the calls.
spec fn ids_of(m: Map<Seq<char>, CallView>, ids: Map<Seq<char>, ()>) -> bool {
    forall|rid: Seq<char>| #[trigger] ids.contains_key(rid) <==> is_taken(m, rid)
}

proof fn lemma_insert_call(m: Map<Seq<char>, CallView>, ids: Map<Seq<char>, ()>, c: CallView)
    requires
        is_call_table(m),
        ids_of(m, ids),
        !m.contains_key(c.event_uid),
        c.response_id is Some ==> !is_taken(m, c.response_id->0),
    ensures
        is_call_table(m.insert(c.event_uid, c)),
        c.response_id is None ==> ids_of(m.insert(c.event_uid, c), ids),
        c.response_id is Some ==> ids_of(
            m.insert(c.event_uid, c),
            ids.insert(c.response_id->0, ()),
        ),
{
    let n = m.insert(c.event_uid, c);
    assert forall|u: Seq<char>, v: Seq<char>|
        #![trigger n.contains_key(u), n.contains_key(v)]
        n.contains_key(u) && n.contains_key(v) && n[u].response_id is Some && n[u].response_id
            == n[v].response_id implies u == v by {
        if u == c.event_uid && v != u {
            assert(m.contains_key(v));
        } else if v == c.event_uid && u != v {
            assert(m.contains_key(u));
        } else if u != v {
            assert(m.contains_key(u) && m.contains_key(v));
        }
    }
    assert forall|rid: Seq<char>|
        is_taken(n, rid) <==> is_taken(m, rid) || c.response_id == Some(rid) by {
        if is_taken(m, rid) {
            let u = choose|u: Seq<char>|
                #[trigger] m.contains_key(u) && m[u].response_id == Some(rid);
            assert(n.contains_key(u));
        }
        if c.response_id == Some(rid) {
            assert(n.contains_key(c.event_uid));
        }
        if is_taken(n, rid) && c.response_id != Some(rid) {
            let u = choose|u: Seq<char>|
                #[trigger] n.contains_key(u) && n[u].response_id == Some(rid);
            assert(m.contains_key(u));
        }
    }
}

impl CallTable {
    #[verifier::type_invariant]
    spec fn inv(&self) -> bool {
        is_call_table(self.calls@) && ids_of(self.calls@, self.response_ids@)
    }

    pub closed spec fn rows(&self) -> Seq<(Seq<char>, CallView)> {
        self.calls.rows()
    }

    pub fn new() -> (r: Self)
        ensures
            r@ == Map::<Seq<char>, CallView>::empty(),
    {
        CallTable { calls: TextMap::new(), response_ids: TextMap::new() }
    }

    /// What walking the table gives: its rows in the order of their identities.
    pub fn len(&self) -> (n: usize)
        ensures
            n == self.rows().len(),
            ordered(self.rows()),
            self@ == rows_map(self.rows()),
            is_call_table(self@),
    {
        proof {
            use_type_invariant(self);
        }
        self.calls.len()
    }

    pub fn call_at(&self, i: usize) -> (c: &InferenceCall)
        requires
            i < self.rows().len(),
        ensures
            c@ == self.rows()[i as int].1,
    {
        self.calls.value_at(i)
    }

    /// The call with this identity.
    pub fn get(&self, uid: &str) -> (r: Option<&InferenceCall>)
        ensures
            match r {
                Some(c) => self@.contains_key(uid@) && c@ == self@[uid@] && c@.event_uid == uid@,
                None => !self@.contains_key(uid@),
            },
    {
        proof {
            use_type_invariant(self);
        }
        self.calls.get(uid)
    }

    /// Tells whether some call has this response id.
    pub fn has_response_id(&self, rid: &str) -> (r: bool)
        ensures
            r == is_taken(self@, rid@),
    {
        proof {
            use_type_invariant(self);
        }
        self.response_ids.contains_key(rid)
    }

    /// Adds a call whose keys are free.
    pub fn insert(&mut self, call: InferenceCall)
        requires
            !old(self)@.contains_key(call@.event_uid),
            call@.response_id is Some ==> !is_taken(old(self)@, call@.response_id->0),
        ensures
            final(self)@ == old(self)@.insert(call@.event_uid, call@),
    {
        proof {
            use_type_invariant(&*self);
        }
        let mut table = CallTable::new();
        std::mem::swap(&mut table, self);
        let CallTable { mut calls, mut response_ids } = table;
        proof {
            lemma_insert_call(calls@, response_ids@, call@);
        }
        if let Some(rid) = copy_text(&call.response_id) {
            response_ids.insert(rid, ());
        }
        let uid = call.event_uid.clone();
        calls.insert(uid, call);
        let next = CallTable { calls, response_ids };
        *self = next;
    }

    /// Puts a call in the place of the one with the same identity and response id.
    pub fn replace(&mut self, call: InferenceCall)
        requires
            old(self)@.contains_key(call@.event_uid),
            old(self)@[call@.event_uid].response_id == call@.response_id,
        ensures
            final(self)@ == old(self)@.insert(call@.event_uid, call@),
    {
        proof {
            use_type_invariant(&*self);
        }
        let mut table = CallTable::new();
        std::mem::swap(&mut table, self);
        let CallTable { mut calls, response_ids } = table;
        let ghost m = calls@;
        let ghost c = call@;
        let uid = call.event_uid.clone();
        calls.insert(uid, call);
        proof {
            lemma_same_keys(m, calls@);
        }
        let next = CallTable { calls, response_ids };
        *self = next;
    }

    /// Tells whether some call meets a test.
    fn has_any<T: CallTest>(&self, t: &T) -> (r: bool)
        ensures
            r == exists|u: Seq<char>| #[trigger] self@.contains_key(u) && t.holds(self@[u]),
    {
        let n: usize = self.calls.len();
        let ghost rows = self.calls.rows();
        let mut i: usize = 0;
        while i < n
            invariant
                n == rows.len(),
                rows == self.calls.rows(),
                self@ == rows_map(rows),
                ordered(rows),
                i <= n,
                forall|j: int| 0 <= j < i ==> !t.holds((#[trigger] rows[j]).1),
            decreases n - i,
        {
            let c = self.calls.value_at(i);
            if t.test(c) {
                proof {
                    lemma_rows_map_at(rows, i as int);
                }
                return true;
            }
            i += 1;
        }
        proof {
            assert forall|u: Seq<char>| #[trigger] self@.contains_key(u) implies !t.holds(
                self@[u],
            ) by {
                let j = choose|j: int| 0 <= j < rows.len() && #[trigger] rows[j].0 == u;
                lemma_rows_map_at(rows, j);
            }
        }
        false
    }

    /// Drops the calls that meet a test, and tells which.
    pub fn remove_where<T: CallTest>(&mut self, t: &T) -> (removed: Vec<String>)
        ensures
            final(self)@ == kept(old(self)@, |c: CallView| t.holds(c)),
            removed@.len() == count_where(old(self)@, |c: CallView| t.holds(c)),
            forall|u: Seq<char>|
                #[trigger] removed.deep_view().contains(u) <==> old(self)@.contains_key(u)
                    && t.holds(old(self)@[u]),
    {
        proof {
            use_type_invariant(&*self);
        }
        let ghost m = self@;
        let ghost drop = |c: CallView| t.holds(c);
        if !self.has_any(t) {
            let none: Vec<String> = Vec::new();
            proof {
                assert(m =~= kept(m, drop));
                assert(m.dom().filter(|u: Seq<char>| drop(m[u])) =~= Set::empty());
            }
            return none;
        }
        let n: usize = self.calls.len();
        let ghost rows = self.calls.rows();
        let mut next = CallTable::new();
        let mut removed: Vec<String> = Vec::new();
        let mut i: usize = 0;
        proof {
            let none = rows_map(rows.take(0));
            assert(none.dom() =~= Set::empty());
            assert(none.dom().filter(|u: Seq<char>| drop(none[u])) =~= Set::empty());
            assert(next@ =~= kept(none, drop));
        }
        while i < n
            invariant
                n == rows.len(),
                rows == self.calls.rows(),
                m == rows_map(rows),
                is_call_table(m),
                ordered(rows),
                i <= n,
                drop == (|c: CallView| t.holds(c)),
                next@ == kept(rows_map(rows.take(i as int)), drop),
                removed@.len() == count_where(rows_map(rows.take(i as int)), drop),
                forall|u: Seq<char>|
                    #[trigger] removed.deep_view().contains(u) <==> rows_map(
                        rows.take(i as int),
                    ).contains_key(u) && drop(rows_map(rows.take(i as int))[u]),
            decreases n - i,
        {
            let c = self.calls.value_at(i);
            let ghost before = rows_map(rows.take(i as int));
            let ghost after = rows_map(rows.take(i + 1));
            let ghost k = rows[i as int].0;
            let ghost had = removed.deep_view();
            proof {
                lemma_next_row(rows, i as int);
                lemma_part_of_rows(rows, i as int);
                lemma_part_of_rows(rows, i + 1);
                assert(after.contains_key(k));
                assert(m.contains_key(k) && m[k] == c@);
                assert(c@.event_uid == k);
                lemma_ordered_take(rows, i as int);
                lemma_rows_count(rows.take(i as int));
                lemma_count_step(before, k, c@, drop);
            }
            if t.test(c) {
                removed.push(c.event_uid.clone());
                proof {
                    assert(removed.deep_view() =~= had.push(k));
                    assert forall|u: Seq<char>|
                        #[trigger] removed.deep_view().contains(u) <==> after.contains_key(u)
                            && drop(after[u]) by {
                        if had.contains(u) {
                            let j = choose|j: int| 0 <= j < had.len() && had[j] == u;
                            assert(had.push(k)[j] == u);
                        }
                        assert(had.push(k)[had.len() as int] == k);
                        if had.push(k).contains(u) && u != k {
                            let j = choose|j: int|
                                0 <= j < had.push(k).len() && had.push(k)[j] == u;
                            assert(had[j] == u);
                        }
                    }
                }
            } else {
                proof {
                    if c@.response_id is Some {
                        let rid = c@.response_id->0;
                        if is_taken(next@, rid) {
                            let u = choose|u: Seq<char>|
                                #[trigger] next@.contains_key(u) && next@[u].response_id == Some(
                                    rid,
                                );
                            assert(before.contains_key(u));
                            assert(m.contains_key(u));
                        }
                    }
                }
                next.insert(c.clone());
            }
            assert(next@ =~= kept(after, drop));
            i += 1;
        }
        assert(rows.take(n as int) =~= rows);
        *self = next;
        removed
    }

    /// Edits the calls that meet a test, and tells how many.
    pub fn edit_where<E: CallEdit>(&mut self, e: &E) -> (count: u64)
        ensures
            final(self)@ == edited(
                old(self)@,
                |c: CallView| e.applies(c),
                |c: CallView| e.result(c),
            ),
            count == count_where(old(self)@, |c: CallView| e.applies(c)),
    {
        proof {
            use_type_invariant(&*self);
        }
        let ghost m = self@;
        let ghost test = |c: CallView| e.applies(c);
        let ghost edit = |c: CallView| e.result(c);
        let mut table = CallTable::new();
        std::mem::swap(&mut table, self);
        let CallTable { calls, response_ids } = table;
        let n: usize = calls.len();
        let ghost rows = calls.rows();
        let mut next: TextMap<InferenceCall> = TextMap::new();
        let mut count: u64 = 0;
        let mut i: usize = 0;
        proof {
            let none = rows_map(rows.take(0));
            assert(none.dom() =~= Set::empty());
            assert(none.dom().filter(|u: Seq<char>| test(none[u])) =~= Set::empty());
            assert(next@ =~= edited(none, test, edit));
        }
        while i < n
            invariant
                n == rows.len(),
                rows == calls.rows(),
                m == rows_map(rows),
                is_call_table(m),
                ordered(rows),
                i <= n,
                count <= i,
                test == (|c: CallView| e.applies(c)),
                edit == (|c: CallView| e.result(c)),
                next@ == edited(rows_map(rows.take(i as int)), test, edit),
                count == count_where(rows_map(rows.take(i as int)), test),
            decreases n - i,
        {
            let c = calls.value_at(i);
            let ghost before = rows_map(rows.take(i as int));
            let ghost after = rows_map(rows.take(i + 1));
            let ghost k = rows[i as int].0;
            proof {
                lemma_next_row(rows, i as int);
                lemma_part_of_rows(rows, i as int);
                lemma_part_of_rows(rows, i + 1);
                assert(after.contains_key(k));
                assert(m.contains_key(k) && m[k] == c@);
                assert(c@.event_uid == k);
                lemma_ordered_take(rows, i as int);
                lemma_rows_count(rows.take(i as int));
                lemma_count_step(before, k, c@, test);
            }
            match e.edit(c) {
                Some(d) => {
                    next.insert(c.event_uid.clone(), d);
                    count += 1;
                },
                None => {
                    next.insert(c.event_uid.clone(), c.clone());
                },
            }
            assert(next@ =~= edited(after, test, edit));
            i += 1;
        }
        proof {
            assert(rows.take(n as int) =~= rows);
            assert forall|u: Seq<char>| #[trigger] m.contains_key(u) implies next@[u].event_uid
                == m[u].event_uid && next@[u].response_id == m[u].response_id by {
                e.lemma_keeps_keys(m[u]);
            }
            lemma_same_keys(m, next@);
        }
        let done = CallTable { calls: next, response_ids };
        *self = done;
        count
    }
}

/// Two tables with the same identities and response ids.
proof fn lemma_same_keys(m: Map<Seq<char>, CallView>, n: Map<Seq<char>, CallView>)
    requires
        is_call_table(m),
        forall|u: Seq<char>| #[trigger] m.contains_key(u) <==> n.contains_key(u),
        forall|u: Seq<char>|
            #[trigger] m.contains_key(u) ==> n[u].event_uid == m[u].event_uid && n[u].response_id
                == m[u].response_id,
    ensures
        is_call_table(n),
        forall|rid: Seq<char>| #[trigger] is_taken(m, rid) <==> is_taken(n, rid),
{
    assert forall|u: Seq<char>| #[trigger] n.contains_key(u) implies n[u].event_uid == u by {
        assert(m.contains_key(u));
    }
    assert forall|u: Seq<char>, v: Seq<char>|
        #![trigger n.contains_key(u), n.contains_key(v)]
        n.contains_key(u) && n.contains_key(v) && n[u].response_id is Some && n[u].response_id
            == n[v].response_id implies u == v by {
        assert(m.contains_key(u) && m.contains_key(v));
    }
    assert forall|rid: Seq<char>| #[trigger] is_taken(m, rid) <==> is_taken(n, rid) by {
        if is_taken(m, rid) {
            let u = choose|u: Seq<char>|
                #[trigger] m.contains_key(u) && m[u].response_id == Some(rid);
            assert(n.contains_key(u));
        }
        if is_taken(n, rid) {
            let u = choose|u: Seq<char>|
                #[trigger] n.contains_key(u) && n[u].response_id == Some(rid);
            assert(m.contains_key(u));
        }
    }
}

/// The first rows are part of all rows.
proof fn lemma_part_of_rows<T>(rows: Seq<(Seq<char>, T)>, i: int)
    requires
        ordered(rows),
        0 <= i <= rows.len(),
    ensures
        forall|u: Seq<char>|
            #[trigger] rows_map(rows.take(i)).contains_key(u) ==> rows_map(rows).contains_key(u)
                && rows_map(rows)[u] == rows_map(rows.take(i))[u],
    decreases rows.len() - i,
{
    if i == rows.len() {
        assert(rows.take(i) =~= rows);
    } else {
        lemma_part_of_rows(rows, i + 1);
        lemma_next_row(rows, i);
        assert forall|u: Seq<char>| #[trigger] rows_map(rows.take(i)).contains_key(
            u,
        ) implies rows_map(rows).contains_key(u) && rows_map(rows)[u] == rows_map(
            rows.take(i),
        )[u] by {
            assert(rows_map(rows.take(i + 1)).contains_key(u));
        }
    }
}

/// One more row adds one to the count, or nothing.
pub proof fn lemma_count_step(
    m: Map<Seq<char>, CallView>,
    k: Seq<char>,
    c: CallView,
    test: spec_fn(CallView) -> bool,
)
    requires
        !m.contains_key(k),
        m.dom().finite(),
    ensures
        count_where(m.insert(k, c), test) == count_where(m, test) + if test(c) {
            1nat
        } else {
            0
        },
{
    let n = m.insert(k, c);
    let a = m.dom().filter(|u: Seq<char>| test(m[u]));
    let b = n.dom().filter(|u: Seq<char>| test(n[u]));
    if test(c) {
        assert(b =~= a.insert(k));
    } else {
        assert(b =~= a);
    }
}

} // verus!
