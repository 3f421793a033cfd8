use vstd::prelude::*;

use crate::text;
use crate::text::text_lt;

verus! {

/// The rows stand in the order of their keys, and no key occurs twice.
pub open spec fn ordered<T>(rows: Seq<(Seq<char>, T)>) -> bool {
    forall|i: int, j: int| 0 <= i < j < rows.len() ==> #[trigger] text_lt(rows[i].0, rows[j].0)
}

/// Some row has the key `k`.
pub open spec fn has_key<T>(rows: Seq<(Seq<char>, T)>, k: Seq<char>) -> bool {
    exists|i: int| 0 <= i < rows.len() && #[trigger] rows[i].0 == k
}

/// The map that the rows write down.
pub open spec fn rows_map<T>(rows: Seq<(Seq<char>, T)>) -> Map<Seq<char>, T> {
    Map::new(
        |k: Seq<char>| has_key(rows, k),
        |k: Seq<char>| rows[choose|i: int| 0 <= i < rows.len() && #[trigger] rows[i].0 == k].1,
    )
}

/// In ordered rows the map gives each key the value of its row.
pub proof fn lemma_rows_map_at<T>(rows: Seq<(Seq<char>, T)>, i: int)
    requires
        ordered(rows),
        0 <= i < rows.len(),
    ensures
        rows_map(rows).contains_key(rows[i].0),
        rows_map(rows)[rows[i].0] == rows[i].1,
{
    let k = rows[i].0;
    assert(has_key(rows, k));
    let c = choose|c: int| 0 <= c < rows.len() && #[trigger] rows[c].0 == k;
    text::lemma_text_lt_irreflexive(k);
    if c < i {
        assert(text_lt(rows[c].0, rows[i].0));
    } else if i < c {
        assert(text_lt(rows[i].0, rows[c].0));
    }
}

proof fn lemma_update<T>(rows: Seq<(Seq<char>, T)>, i: int, k: Seq<char>, v: T)
    requires
        ordered(rows),
        0 <= i < rows.len(),
        rows[i].0 == k,
    ensures
        ordered(rows.update(i, (k, v))),
        rows_map(rows.update(i, (k, v))) == rows_map(rows).insert(k, v),
{
    let new = rows.update(i, (k, v));
    assert forall|a: int, b: int| 0 <= a < b < new.len() implies #[trigger] text_lt(
        new[a].0,
        new[b].0,
    ) by {
        assert(text_lt(rows[a].0, rows[b].0));
    }
    assert forall|q: Seq<char>| has_key(new, q) <==> has_key(rows, q) by {
        if has_key(new, q) {
            let a = choose|a: int| 0 <= a < new.len() && #[trigger] new[a].0 == q;
            assert(rows[a].0 == q);
        }
        if has_key(rows, q) {
            let a = choose|a: int| 0 <= a < rows.len() && #[trigger] rows[a].0 == q;
            assert(new[a].0 == q);
        }
    }
    lemma_rows_map_at(new, i);
    assert(new[i] == (k, v));
    lemma_rows_map_at(rows, i);
    assert forall|q: Seq<char>| #[trigger] rows_map(new).contains_key(q) implies rows_map(new)[q]
        == rows_map(rows).insert(k, v)[q] by {
        let a = choose|a: int| 0 <= a < new.len() && #[trigger] new[a].0 == q;
        lemma_rows_map_at(new, a);
        lemma_rows_map_at(rows, a);
    }
    assert(rows_map(new) =~= rows_map(rows).insert(k, v));
}

proof fn lemma_insert<T>(rows: Seq<(Seq<char>, T)>, i: int, k: Seq<char>, v: T)
    requires
        ordered(rows),
        0 <= i <= rows.len(),
        forall|a: int| 0 <= a < i ==> #[trigger] text_lt(rows[a].0, k),
        forall|a: int| i <= a < rows.len() ==> #[trigger] text_lt(k, rows[a].0),
    ensures
        ordered(rows.insert(i, (k, v))),
        rows_map(rows.insert(i, (k, v))) == rows_map(rows).insert(k, v),
        !rows_map(rows).contains_key(k),
{
    let new = rows.insert(i, (k, v));
    let at = |a: int| if a < i { a } else { a + 1 };
    assert(new[i] == (k, v));
    assert forall|a: int| 0 <= a < rows.len() implies new[at(a)] == #[trigger] rows[a] by {}
    assert forall|a: int, b: int| 0 <= a < b < new.len() implies #[trigger] text_lt(
        new[a].0,
        new[b].0,
    ) by {
        if a < i && b < i {
            assert(text_lt(rows[a].0, rows[b].0));
        } else if a < i && b == i {
            assert(text_lt(rows[a].0, k));
        } else if a < i {
            assert(text_lt(rows[a].0, rows[b - 1].0));
        } else if a == i {
            assert(text_lt(k, rows[b - 1].0));
        } else {
            assert(text_lt(rows[a - 1].0, rows[b - 1].0));
        }
    }
    assert(!has_key(rows, k)) by {
        text::lemma_text_lt_irreflexive(k);
        if has_key(rows, k) {
            let a = choose|a: int| 0 <= a < rows.len() && #[trigger] rows[a].0 == k;
            if a < i {
                assert(text_lt(rows[a].0, k));
            } else {
                assert(text_lt(k, rows[a].0));
            }
        }
    }
    assert forall|q: Seq<char>| has_key(new, q) <==> (q == k || has_key(rows, q)) by {
        if has_key(new, q) && q != k {
            let a = choose|a: int| 0 <= a < new.len() && #[trigger] new[a].0 == q;
            let b = if a < i { a } else { a - 1 };
            assert(rows[b].0 == q);
        }
        if q == k {
            assert(new[i].0 == q);
        }
        if has_key(rows, q) {
            let a = choose|a: int| 0 <= a < rows.len() && #[trigger] rows[a].0 == q;
            assert(new[at(a)].0 == q);
        }
    }
    lemma_rows_map_at(new, i);
    assert forall|q: Seq<char>| #[trigger] rows_map(rows).contains_key(q) implies rows_map(new)[q]
        == rows_map(rows)[q] by {
        let a = choose|a: int| 0 <= a < rows.len() && #[trigger] rows[a].0 == q;
        lemma_rows_map_at(rows, a);
        assert(new[at(a)] == rows[a]);
        lemma_rows_map_at(new, at(a));
    }
    assert(rows_map(new) =~= rows_map(rows).insert(k, v));
}

proof fn lemma_remove<T>(rows: Seq<(Seq<char>, T)>, i: int)
    requires
        ordered(rows),
        0 <= i < rows.len(),
    ensures
        ordered(rows.remove(i)),
        rows_map(rows.remove(i)) == rows_map(rows).remove(rows[i].0),
{
    let new = rows.remove(i);
    let k = rows[i].0;
    let at = |a: int| if a < i { a } else { a + 1 };
    assert forall|a: int| 0 <= a < new.len() implies #[trigger] new[a] == rows[at(a)] by {}
    assert forall|a: int, b: int| 0 <= a < b < new.len() implies #[trigger] text_lt(
        new[a].0,
        new[b].0,
    ) by {
        assert(text_lt(rows[at(a)].0, rows[at(b)].0));
    }
    text::lemma_text_lt_irreflexive(k);
    assert forall|q: Seq<char>| has_key(new, q) <==> (q != k && has_key(rows, q)) by {
        if has_key(new, q) {
            let a = choose|a: int| 0 <= a < new.len() && #[trigger] new[a].0 == q;
            assert(rows[at(a)].0 == q);
            if at(a) < i {
                assert(text_lt(rows[at(a)].0, rows[i].0));
            } else {
                assert(text_lt(rows[i].0, rows[at(a)].0));
            }
        }
        if has_key(rows, q) && q != k {
            let a = choose|a: int| 0 <= a < rows.len() && #[trigger] rows[a].0 == q;
            let b = if a < i { a } else { a - 1 };
            assert(new[b].0 == q);
        }
    }
    assert forall|q: Seq<char>| #[trigger] rows_map(new).contains_key(q) implies rows_map(new)[q]
        == rows_map(rows)[q] by {
        let a = choose|a: int| 0 <= a < new.len() && #[trigger] new[a].0 == q;
        lemma_rows_map_at(new, a);
        assert(new[a] == rows[at(a)]);
        lemma_rows_map_at(rows, at(a));
    }
    assert(rows_map(new) =~= rows_map(rows).remove(k));
}

/// The first rows of an ordered table, and the next row, as maps.
pub proof fn lemma_next_row<T>(rows: Seq<(Seq<char>, T)>, i: int)
    requires
        ordered(rows),
        0 <= i < rows.len(),
    ensures
        ordered(rows.take(i + 1)),
        rows_map(rows.take(i + 1)) == rows_map(rows.take(i)).insert(rows[i].0, rows[i].1),
        !rows_map(rows.take(i)).contains_key(rows[i].0),
{
    let a = rows.take(i);
    lemma_ordered_take(rows, i);
    assert forall|x: int| 0 <= x < i implies #[trigger] text_lt(a[x].0, rows[i].0) by {
        assert(text_lt(rows[x].0, rows[i].0));
    }
    assert(rows.take(i + 1) =~= a.insert(i, (rows[i].0, rows[i].1)));
    lemma_insert(a, i, rows[i].0, rows[i].1);
}

/// Ordered rows have as many keys as rows.
pub proof fn lemma_rows_count<T>(rows: Seq<(Seq<char>, T)>)
    requires
        ordered(rows),
    ensures
        rows_map(rows).dom().finite(),
        rows_map(rows).dom().len() == rows.len(),
    decreases rows.len(),
{
    if rows.len() == 0 {
        assert(rows_map(rows).dom() =~= Set::empty());
    } else {
        let n = rows.len() - 1;
        lemma_next_row(rows, n);
        assert(rows.take(n + 1) =~= rows);
        let a = rows.take(n);
        lemma_ordered_take(rows, n);
        lemma_rows_count(a);
        assert(rows_map(rows).dom() =~= rows_map(a).dom().insert(rows[n].0));
    }
}

/// A map has one list of ordered rows.
pub proof fn lemma_rows_unique<T>(a: Seq<(Seq<char>, T)>, b: Seq<(Seq<char>, T)>)
    requires
        ordered(a),
        ordered(b),
        rows_map(a) == rows_map(b),
    ensures
        a == b,
    decreases a.len(),
{
    lemma_rows_count(a);
    lemma_rows_count(b);
    if a.len() > 0 {
        let n = a.len() - 1;
        lemma_last_key(a, b);
        lemma_last_key(b, a);
        let (x, y) = (a[n].0, b[n].0);
        text::lemma_text_lt_total(x, y);
        if text_lt(x, y) {
            text::lemma_text_lt_irreflexive(y);
        }
        assert(x == y);
        lemma_rows_map_at(a, n);
        lemma_rows_map_at(b, n);
        lemma_next_row(a, n);
        lemma_next_row(b, n);
        assert(a.take(n + 1) =~= a && b.take(n + 1) =~= b);
        let (p, q) = (a.take(n), b.take(n));
        lemma_ordered_take(a, n);
        lemma_ordered_take(b, n);
        assert(rows_map(p) =~= rows_map(a).remove(x));
        assert(rows_map(q) =~= rows_map(b).remove(x));
        lemma_rows_unique(p, q);
        assert(a =~= p.push(a[n]) && b =~= q.push(b[n]));
    }
}

/// The first rows of ordered rows are ordered.
pub proof fn lemma_ordered_take<T>(rows: Seq<(Seq<char>, T)>, n: int)
    requires
        ordered(rows),
        0 <= n <= rows.len(),
    ensures
        ordered(rows.take(n)),
{
    let a = rows.take(n);
    assert forall|x: int, y: int| 0 <= x < y < a.len() implies #[trigger] text_lt(
        a[x].0,
        a[y].0,
    ) by {
        assert(text_lt(rows[x].0, rows[y].0));
    }
}

/// The last key of `b` is not before that of `a`, where all keys of `a` are among those of `b`.
proof fn lemma_last_key<T>(a: Seq<(Seq<char>, T)>, b: Seq<(Seq<char>, T)>)
    requires
        ordered(b),
        a.len() > 0,
        a.len() == b.len(),
        rows_map(a) == rows_map(b),
    ensures
        !text_lt(b[b.len() - 1].0, a[a.len() - 1].0),
{
    let n = a.len() - 1;
    let k = a[n].0;
    assert(has_key(a, k));
    assert(rows_map(a).contains_key(k));
    assert(rows_map(b).contains_key(k));
    let i = choose|i: int| 0 <= i < b.len() && #[trigger] b[i].0 == k;
    text::lemma_text_lt_irreflexive(k);
    if i < n {
        assert(text_lt(b[i].0, b[n].0));
        if text_lt(b[n].0, k) {
            text::lemma_text_lt_transitive(k, b[n].0, k);
        }
    }
}

/// The ordered rows of a map.
pub open spec fn rows_of<T>(m: Map<Seq<char>, T>) -> Seq<(Seq<char>, T)> {
    choose|rows: Seq<(Seq<char>, T)>| ordered(rows) && #[trigger] rows_map(rows) == m
}

/// Ordered rows are the rows of their map.
pub proof fn lemma_rows_of<T>(rows: Seq<(Seq<char>, T)>)
    requires
        ordered(rows),
    ensures
        rows_of(rows_map(rows)) == rows,
{
    let m = rows_map(rows);
    lemma_rows_unique(rows_of(m), rows);
}

/// A map with texts as keys, walked in the order of the keys.
pub struct TextMap<V: DeepView> {
    entries: Vec<(String, V)>,
}

impl<V: DeepView> View for TextMap<V> {
    type V = Map<Seq<char>, V::V>;

    closed spec fn view(&self) -> Map<Seq<char>, V::V> {
        rows_map(self.rows())
    }
}

impl<V: DeepView> DeepView for TextMap<V> {
    type V = Map<Seq<char>, V::V>;

    open spec fn deep_view(&self) -> Map<Seq<char>, V::V> {
        self.view()
    }
}

impl<V: DeepView> TextMap<V> {
    /// The keys with their values, in the order in which the map is walked.
    pub closed spec fn rows(&self) -> Seq<(Seq<char>, V::V)> {
        self.entries.deep_view()
    }

    #[verifier::type_invariant]
    spec fn inv(&self) -> bool {
        ordered(self.rows())
    }

    pub fn new() -> (r: Self)
        ensures
            r@ == Map::<Seq<char>, V::V>::empty(),
            r.rows() == Seq::<(Seq<char>, V::V)>::empty(),
    {
        let r = TextMap { entries: Vec::new() };
        proof {
            assert(r.rows() =~= Seq::<(Seq<char>, V::V)>::empty());
            assert(r@ =~= Map::<Seq<char>, V::V>::empty());
        }
        r
    }

    /// What walking the map in order gives: its rows are ordered, and they are the map.
    pub fn len(&self) -> (n: usize)
        ensures
            n == self.rows().len(),
            ordered(self.rows()),
            self@ == rows_map(self.rows()),
    {
        proof {
            use_type_invariant(self);
        }
        self.entries.len()
    }

    pub fn key_at(&self, i: usize) -> (k: &String)
        requires
            i < self.rows().len(),
        ensures
            k@ == self.rows()[i as int].0,
    {
        &self.entries[i].0
    }

    pub fn value_at(&self, i: usize) -> (v: &V)
        requires
            i < self.rows().len(),
        ensures
            v.deep_view() == self.rows()[i as int].1,
    {
        &self.entries[i].1
    }

    /// The row of `key`, or else the place where it belongs.
    fn find(&self, key: &str) -> (r: Result<usize, usize>)
        ensures
            match r {
                Ok(i) => i < self.rows().len() && self.rows()[i as int].0 == key@,
                Err(i) => {
                    &&& i <= self.rows().len()
                    &&& forall|a: int|
                        0 <= a < i ==> #[trigger] text_lt(self.rows()[a].0, key@)
                    &&& forall|a: int|
                        i <= a < self.rows().len() ==> #[trigger] text_lt(key@, self.rows()[a].0)
                },
            },
    {
        proof {
            use_type_invariant(self);
        }
        let mut low: usize = 0;
        let mut high: usize = self.entries.len();
        while low < high
            invariant
                ordered(self.rows()),
                self.rows() == self.entries.deep_view(),
                low <= high <= self.rows().len(),
                forall|a: int| 0 <= a < low ==> #[trigger] text_lt(self.rows()[a].0, key@),
                forall|a: int|
                    high <= a < self.rows().len() ==> #[trigger] text_lt(key@, self.rows()[a].0),
            decreases high - low,
        {
            let mid: usize = low + (high - low) / 2;
            let ghost rows = self.rows();
            let entry = &self.entries[mid];
            assert(rows[mid as int].0 == entry.0@);
            if text::is_before(entry.0.as_str(), key) {
                assert forall|a: int| 0 <= a < mid + 1 implies #[trigger] text_lt(
                    rows[a].0,
                    key@,
                ) by {
                    if a < mid {
                        assert(text_lt(rows[a].0, rows[mid as int].0));
                        text::lemma_text_lt_transitive(rows[a].0, rows[mid as int].0, key@);
                    }
                }
                low = mid + 1;
            } else if text::is_before(key, entry.0.as_str()) {
                assert forall|a: int| mid <= a < rows.len() implies #[trigger] text_lt(
                    key@,
                    rows[a].0,
                ) by {
                    if mid < a {
                        assert(text_lt(rows[mid as int].0, rows[a].0));
                        text::lemma_text_lt_transitive(key@, rows[mid as int].0, rows[a].0);
                    }
                }
                high = mid;
            } else {
                proof {
                    text::lemma_text_lt_total(rows[mid as int].0, key@);
                }
                return Ok(mid);
            }
        }
        Err(low)
    }

    pub fn get(&self, key: &str) -> (r: Option<&V>)
        ensures
            match r {
                Some(v) => self@.contains_key(key@) && v.deep_view() == self@[key@],
                None => !self@.contains_key(key@),
            },
    {
        proof {
            use_type_invariant(self);
        }
        match self.find(key) {
            Ok(i) => {
                proof {
                    lemma_rows_map_at(self.rows(), i as int);
                }
                Some(&self.entries[i].1)
            },
            Err(i) => {
                proof {
                    if has_key(self.rows(), key@) {
                        let a = choose|a: int|
                            0 <= a < self.rows().len() && #[trigger] self.rows()[a].0 == key@;
                        text::lemma_text_lt_irreflexive(key@);
                        if a < i {
                            assert(text_lt(self.rows()[a].0, key@));
                        } else {
                            assert(text_lt(key@, self.rows()[a].0));
                        }
                    }
                }
                None
            },
        }
    }

    pub fn contains_key(&self, key: &str) -> (r: bool)
        ensures
            r == self@.contains_key(key@),
    {
        self.get(key).is_some()
    }

    /// Gives `key` the value `value`, in place of the one that it had.
    pub fn insert(&mut self, key: String, value: V)
        ensures
            final(self)@ == old(self)@.insert(key@, value.deep_view()),
    {
        proof {
            use_type_invariant(&*self);
        }
        let ghost before = self.rows();
        let ghost k = key@;
        let ghost v = value.deep_view();
        let place = self.find(key.as_str());
        let mut entries: Vec<(String, V)> = Vec::new();
        std::mem::swap(&mut entries, &mut self.entries);
        match place {
            Ok(i) => {
                proof {
                    lemma_update(before, i as int, k, v);
                }
                entries[i] = (key, value);
                assert(entries.deep_view() =~= before.update(i as int, (k, v)));
            },
            Err(i) => {
                proof {
                    lemma_insert(before, i as int, k, v);
                }
                entries.insert(i, (key, value));
                assert(entries.deep_view() =~= before.insert(i as int, (k, v)));
            },
        }
        self.entries = entries;
    }

    /// Takes `key` out of the map.
    pub fn remove(&mut self, key: &str)
        ensures
            final(self)@ == old(self)@.remove(key@),
    {
        proof {
            use_type_invariant(&*self);
        }
        let ghost before = self.rows();
        if !self.contains_key(key) {
            assert(self@ =~= self@.remove(key@));
            return;
        }
        let place = self.find(key);
        let mut entries: Vec<(String, V)> = Vec::new();
        std::mem::swap(&mut entries, &mut self.entries);
        match place {
            Ok(i) => {
                proof {
                    lemma_remove(before, i as int);
                }
                entries.remove(i);
                assert(entries.deep_view() =~= before.remove(i as int));
            },
            Err(i) => {
                proof {
                    let a = choose|a: int|
                        0 <= a < before.len() && #[trigger] before[a].0 == key@;
                    text::lemma_text_lt_irreflexive(key@);
                    if a < i {
                        assert(text_lt(before[a].0, key@));
                    } else {
                        assert(text_lt(key@, before[a].0));
                    }
                }
            },
        }
        self.entries = entries;
    }
}

} // verus!
