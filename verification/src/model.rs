//! The intermediate model that one parse pass accumulates: a `Library` per
//! configured framework, each owning `File`s keyed by header stem, each file
//! an ordered run of `Statement`s. Maps are association vectors with unique
//! keys, viewed as mathematical `Map`s from key characters to value views.

use vstd::prelude::*;

verus! {

/// One translated unit derived from an AST declaration entity. Its `content`
/// is what cross-target comparison looks at; `origin` is diagnostic-only
/// context (where the unit came from) and is excluded from the view and from
/// structural equality.
#[derive(Debug)]
pub struct Statement {
    pub content: String,
    pub origin: String,
}

impl View for Statement {
    type V = Seq<char>;

    open spec fn view(&self) -> Seq<char> {
        self.content@
    }
}

impl Statement {
    pub fn new(content: String, origin: String) -> (r: Statement)
        ensures
            r@ == content@,
            r.origin@ == origin@,
    {
        Statement { content, origin }
    }

    /// Structural equality: content alone, never the diagnostic origin.
    pub fn same_content(&self, other: &Statement) -> (r: bool)
        ensures
            r == (self@ == other@),
    {
        crate::strutil::str_eq(self.content.as_str(), other.content.as_str())
    }
}

/// The view of a sequence of statements: their contents, in order.
pub open spec fn stmt_views(stmts: Seq<Statement>) -> Seq<Seq<char>> {
    stmts.map_values(|s: Statement| s@)
}

/// An ordered run of statements belonging to one header file.
#[derive(Debug)]
pub struct File {
    pub statements: Vec<Statement>,
}

impl View for File {
    type V = Seq<Seq<char>>;

    open spec fn view(&self) -> Seq<Seq<char>> {
        stmt_views(self.statements@)
    }
}

impl File {
    pub fn new() -> (r: File)
        ensures
            r@ == Seq::<Seq<char>>::empty(),
    {
        let r = File { statements: Vec::new() };
        proof {
            assert(r@ =~= Seq::<Seq<char>>::empty());
        }
        r
    }

    pub fn push_statement(&mut self, s: Statement)
        ensures
            final(self)@ == old(self)@.push(s@),
    {
        self.statements.push(s);
        proof {
            assert(self@ =~= old(self)@.push(s@));
        }
    }
}

/// The abstraction of an association vector: the map sending each key's
/// characters to the view of the value stored under it. A later entry with
/// the same key would shadow an earlier one; well-formed maps have no
/// duplicate keys at all.
pub open spec fn entries_map<V: View>(es: Seq<(String, V)>) -> Map<Seq<char>, V::V>
    decreases es.len(),
{
    if es.len() == 0 {
        Map::empty()
    } else {
        entries_map(es.drop_last()).insert(es.last().0@, es.last().1@)
    }
}

/// No two entries share a key.
pub open spec fn unique_keys<V>(es: Seq<(String, V)>) -> bool {
    forall|i: int, j: int| 0 <= i < j < es.len() ==> es[i].0@ != es[j].0@
}

/// `v` is one of the values stored in `es`.
pub open spec fn value_among<V>(es: Seq<(String, V)>, v: V) -> bool {
    exists|j: int| 0 <= j < es.len() && es[j].1 == v
}

/// A key occurs in `entries_map(es)` exactly when some entry holds it.
pub proof fn lemma_entries_map_contains<V: View>(es: Seq<(String, V)>, k: Seq<char>)
    ensures
        entries_map(es).contains_key(k) <==> exists|i: int| 0 <= i < es.len() && es[i].0@ == k,
    decreases es.len(),
{
    if es.len() > 0 {
        let t = es.drop_last();
        lemma_entries_map_contains(t, k);
        if es.last().0@ == k {
            assert(es[es.len() - 1].0@ == k);
        } else if entries_map(t).contains_key(k) {
            let i = choose|i: int| 0 <= i < t.len() && t[i].0@ == k;
            assert(es[i].0@ == k);
        } else if exists|i: int| 0 <= i < es.len() && es[i].0@ == k {
            let i = choose|i: int| 0 <= i < es.len() && es[i].0@ == k;
            assert(t[i].0@ == k);
        }
    }
}

/// Under unique keys, the map stores exactly the value of the matching entry.
pub proof fn lemma_entries_map_value<V: View>(es: Seq<(String, V)>, i: int)
    requires
        unique_keys(es),
        0 <= i < es.len(),
    ensures
        entries_map(es).contains_key(es[i].0@),
        entries_map(es)[es[i].0@] == es[i].1@,
    decreases es.len(),
{
    lemma_entries_map_contains(es, es[i].0@);
    if i < es.len() - 1 {
        let t = es.drop_last();
        assert(t[i] == es[i]);
        lemma_entries_map_value(t, i);
        assert(es.last().0@ != es[i].0@);
    }
}

/// Removing the entry that holds `k` removes `k` from the map.
pub proof fn lemma_entries_map_remove<V: View>(es: Seq<(String, V)>, i: int)
    requires
        unique_keys(es),
        0 <= i < es.len(),
    ensures
        entries_map(es.remove(i)) == entries_map(es).remove(es[i].0@),
        unique_keys(es.remove(i)),
    decreases es.len(),
{
    let k = es[i].0@;
    let n = es.len() - 1;
    assert forall|p: int, q: int| 0 <= p < q < es.remove(i).len() implies es.remove(i)[p].0@
        != es.remove(i)[q].0@ by {
        let p0 = if p < i { p } else { p + 1 };
        let q0 = if q < i { q } else { q + 1 };
        assert(es.remove(i)[p] == es[p0]);
        assert(es.remove(i)[q] == es[q0]);
    }
    if i == n {
        assert(es.remove(i) =~= es.drop_last());
        lemma_entries_map_contains(es.drop_last(), k);
        assert(!entries_map(es.drop_last()).contains_key(k)) by {
            if exists|j: int| 0 <= j < es.drop_last().len() && es.drop_last()[j].0@ == k {
                let j = choose|j: int| 0 <= j < es.drop_last().len() && es.drop_last()[j].0@ == k;
                assert(es[j].0@ == es[i].0@);
            }
        }
        assert(entries_map(es).remove(k) =~= entries_map(es.drop_last()));
    } else {
        let t = es.drop_last();
        assert(t[i] == es[i]);
        lemma_entries_map_remove(t, i);
        assert(es.remove(i).drop_last() =~= t.remove(i));
        assert(es.remove(i).last() == es.last());
        assert(es.remove(i).len() == n);
        assert(entries_map(es.remove(i)) == entries_map(t.remove(i)).insert(
            es.last().0@,
            es.last().1@,
        ));
        assert(es.last().0@ != k);
        assert(entries_map(t).remove(k).insert(es.last().0@, es.last().1@) =~= entries_map(
            t,
        ).insert(es.last().0@, es.last().1@).remove(k));
    }
}

/// Appending a fresh entry inserts its key.
pub proof fn lemma_entries_map_push<V: View>(es: Seq<(String, V)>, k: String, v: V)
    ensures
        entries_map(es.push((k, v))) == entries_map(es).insert(k@, v@),
{
    assert(es.push((k, v)).drop_last() =~= es);
}

/// A finite string-keyed map, stored as a vector of entries with unique
/// keys. Its view is the corresponding mathematical map over key characters.
/// Callers that reach into `entries` directly must preserve `wf`.
#[derive(Debug)]
pub struct StrMap<V> {
    pub entries: Vec<(String, V)>,
}

impl<V: View> View for StrMap<V> {
    type V = Map<Seq<char>, V::V>;

    open spec fn view(&self) -> Map<Seq<char>, V::V> {
        entries_map(self.entries@)
    }
}

impl<V: View> StrMap<V> {
    /// Key uniqueness: the representation invariant of every map in use.
    pub open spec fn wf(&self) -> bool {
        unique_keys(self.entries@)
    }

    pub fn new() -> (r: StrMap<V>)
        ensures
            r@ == Map::<Seq<char>, V::V>::empty(),
            r.wf(),
            r.entries@.len() == 0,
    {
        StrMap { entries: Vec::new() }
    }

    pub fn len(&self) -> (r: usize)
        ensures
            r == self.entries@.len(),
    {
        self.entries.len()
    }

    /// The position of the entry holding `k`, if any.
    fn position(&self, k: &str) -> (r: Option<usize>)
        ensures
            match r {
                Some(i) => i < self.entries@.len() && self.entries@[i as int].0@ == k@,
                None => forall|i: int| 0 <= i < self.entries@.len() ==> self.entries@[i].0@ != k@,
            },
    {
        let n = self.entries.len();
        let mut i: usize = 0;
        while i < n
            invariant
                n == self.entries@.len(),
                i <= n,
                forall|j: int| 0 <= j < i ==> self.entries@[j].0@ != k@,
            decreases n - i,
        {
            if crate::strutil::str_eq(self.entries[i].0.as_str(), k) {
                return Some(i);
            }
            i = i + 1;
        }
        None
    }

    pub fn contains_key(&self, k: &str) -> (r: bool)
        ensures
            r == self@.contains_key(k@),
    {
        proof {
            lemma_entries_map_contains(self.entries@, k@);
        }
        self.position(k).is_some()
    }

    /// Borrow the value stored under `k`.
    pub fn get(&self, k: &str) -> (r: Option<&V>)
        requires
            self.wf(),
        ensures
            match r {
                Some(v) => self@.contains_key(k@) && v@ == self@[k@] && value_among(
                    self.entries@,
                    *v,
                ),
                None => !self@.contains_key(k@),
            },
    {
        proof {
            lemma_entries_map_contains(self.entries@, k@);
        }
        match self.position(k) {
            Some(i) => {
                proof {
                    lemma_entries_map_value(self.entries@, i as int);
                    assert(value_among(self.entries@, self.entries@[i as int].1));
                }
                Some(&self.entries[i].1)
            },
            None => None,
        }
    }

    /// Remove and return the value stored under `k`. The returned value is
    /// one of the stored entries' values, so any invariant that held of every
    /// stored value holds of it.
    pub fn take(&mut self, k: &str) -> (r: Option<V>)
        requires
            old(self).wf(),
        ensures
            final(self).wf(),
            match r {
                Some(v) => {
                    &&& old(self)@.contains_key(k@)
                    &&& v@ == old(self)@[k@]
                    &&& final(self)@ == old(self)@.remove(k@)
                    &&& value_among(old(self).entries@, v)
                    &&& forall|i: int|
                        0 <= i < final(self).entries@.len() ==> value_among(
                            old(self).entries@,
                            #[trigger] final(self).entries@[i].1,
                        )
                },
                None => {
                    &&& !old(self)@.contains_key(k@)
                    &&& *final(self) == *old(self)
                },
            },
    {
        proof {
            lemma_entries_map_contains(self.entries@, k@);
        }
        match self.position(k) {
            Some(i) => {
                proof {
                    lemma_entries_map_value(self.entries@, i as int);
                    lemma_entries_map_remove(self.entries@, i as int);
                }
                let (_key, v) = self.entries.remove(i);
                proof {
                    assert(old(self).entries@[i as int].1 == v);
                    assert forall|p: int| 0 <= p < self.entries@.len() implies value_among(
                        old(self).entries@,
                        #[trigger] self.entries@[p].1,
                    ) by {
                        let j = if p < i as int {
                            p
                        } else {
                            p + 1
                        };
                        assert(self.entries@[p] == old(self).entries@[j]);
                        assert(old(self).entries@[j].1 == self.entries@[p].1);
                    }
                }
                Some(v)
            },
            None => None,
        }
    }

    /// Insert `v` under `k`, replacing any value already stored there.
    pub fn insert(&mut self, k: String, v: V)
        requires
            old(self).wf(),
        ensures
            final(self).wf(),
            final(self)@ == old(self)@.insert(k@, v@),
            forall|i: int|
                0 <= i < final(self).entries@.len() ==> #[trigger] final(self).entries@[i].1 == v
                    || value_among(old(self).entries@, final(self).entries@[i].1),
    {
        proof {
            lemma_entries_map_contains(self.entries@, k@);
        }
        match self.position(&k) {
            Some(i) => {
                proof {
                    lemma_entries_map_remove(self.entries@, i as int);
                }
                let ghost before = self.entries@;
                let (_old_key, _old_v) = self.entries.remove(i);
                self.entries.insert(i, (k, v));
                proof {
                    assert(self.entries@ =~= before.update(i as int, (k, v)));
                    assert(self.entries@.remove(i as int) =~= before.remove(i as int));
                    assert forall|p: int, q: int|
                        0 <= p < q < self.entries@.len() implies self.entries@[p].0@
                        != self.entries@[q].0@ by {
                        if p != i && q != i {
                            assert(self.entries@[p] == before[p]);
                            assert(self.entries@[q] == before[q]);
                        }
                    }
                    lemma_entries_map_remove(self.entries@, i as int);
                    assert(entries_map(self.entries@).remove(k@) == entries_map(before).remove(
                        k@,
                    ));
                    lemma_entries_map_value(self.entries@, i as int);
                    assert(entries_map(self.entries@) =~= entries_map(self.entries@).remove(
                        k@,
                    ).insert(k@, v@));
                    assert(entries_map(before).insert(k@, v@) =~= entries_map(before).remove(
                        k@,
                    ).insert(k@, v@));
                    assert(entries_map(self.entries@) =~= entries_map(before).insert(k@, v@));
                    assert forall|p: int| 0 <= p < self.entries@.len() implies #[trigger] self.entries@[p].1 == v
                        || value_among(before, self.entries@[p].1) by {
                        if p != i {
                            assert(self.entries@[p] == before[p]);
                            assert(before[p].1 == self.entries@[p].1);
                        }
                    }
                }
            },
            None => {
                proof {
                    lemma_entries_map_push(self.entries@, k, v);
                }
                let ghost before = self.entries@;
                self.entries.push((k, v));
                proof {
                    assert forall|p: int| 0 <= p < self.entries@.len() implies #[trigger] self.entries@[p].1 == v
                        || value_among(before, self.entries@[p].1) by {
                        if p < before.len() {
                            assert(self.entries@[p] == before[p]);
                            assert(before[p].1 == self.entries@[p].1);
                        }
                    }
                }
            },
        }
    }
}

/// One framework's accumulated content: a file per member header, keyed by
/// the header's stem, created lazily on first inclusion sighting.
#[derive(Debug)]
pub struct Library {
    pub files: StrMap<File>,
}

impl View for Library {
    type V = Map<Seq<char>, Seq<Seq<char>>>;

    open spec fn view(&self) -> Map<Seq<char>, Seq<Seq<char>>> {
        self.files@
    }
}

/// Create the file `name` empty if it is not yet present; never touch an
/// existing one. Repeated inclusions are idempotent no-ops.
pub open spec fn spec_ensure_file(
    lib: Map<Seq<char>, Seq<Seq<char>>>,
    name: Seq<char>,
) -> Map<Seq<char>, Seq<Seq<char>>> {
    if lib.contains_key(name) {
        lib
    } else {
        lib.insert(name, Seq::empty())
    }
}

/// Append `rows` to the file `name`, preserving the order already there.
pub open spec fn spec_append_statements(
    lib: Map<Seq<char>, Seq<Seq<char>>>,
    name: Seq<char>,
    rows: Seq<Seq<char>>,
) -> Map<Seq<char>, Seq<Seq<char>>> {
    lib.insert(name, lib[name] + rows)
}

impl Library {
    pub open spec fn wf(&self) -> bool {
        self.files.wf()
    }

    pub fn new() -> (r: Library)
        ensures
            r@ == Map::<Seq<char>, Seq<Seq<char>>>::empty(),
            r.wf(),
    {
        Library { files: StrMap::new() }
    }

    pub fn contains_file(&self, name: &str) -> (r: bool)
        ensures
            r == self@.contains_key(name@),
    {
        self.files.contains_key(name)
    }

    pub fn ensure_file(&mut self, name: &str)
        requires
            old(self).wf(),
        ensures
            final(self).wf(),
            final(self)@ == spec_ensure_file(old(self)@, name@),
    {
        if !self.files.contains_key(name) {
            self.files.insert(name.to_owned(), File::new());
        }
    }

    pub fn append_statements(&mut self, name: &str, stmts: Vec<Statement>)
        requires
            old(self).wf(),
            old(self)@.contains_key(name@),
        ensures
            final(self).wf(),
            final(self)@ == spec_append_statements(old(self)@, name@, stmt_views(stmts@)),
    {
        let mut file = self.files.take(name).unwrap();
        let ghost file0 = file@;
        let mut rest = stmts;
        let ghost all = stmt_views(rest@);
        let ghost total = all.len() as int;
        while rest.len() > 0
            invariant
                all.len() == total,
                rest@.len() <= total,
                file@ == file0 + all.take(total - rest@.len()),
                stmt_views(rest@) == all.skip(total - rest@.len()),
            decreases rest@.len(),
        {
            let ghost done = total - rest@.len();
            let ghost rest0 = rest@;
            let s = rest.remove(0);
            proof {
                assert(s@ == stmt_views(rest0)[0]);
                assert(s@ == all[done]);
                rest0.remove_ensures(0);
                assert forall|m: int| 0 <= m < rest@.len() implies stmt_views(rest@)[m]
                    == all.skip(done + 1)[m] by {
                    assert(rest@[m] == rest0[m + 1]);
                    assert(stmt_views(rest0)[m + 1] == all.skip(done)[m + 1]);
                }
                assert(stmt_views(rest@) =~= all.skip(done + 1));
            }
            file.push_statement(s);
            proof {
                assert(file@ =~= file0 + all.take(done + 1));
            }
        }
        proof {
            assert(file@ == file0 + all.take(total));
            assert(file@ =~= file0 + all);
        }
        self.files.insert(name.to_owned(), file);
        proof {
            assert(self@ =~= spec_append_statements(old(self)@, name@, all));
        }
    }
}

} // verus!
