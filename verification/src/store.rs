//! Durable table of name-to-target mappings: the source of truth.
//!
//! A [`Store`] is a table of [`Mapping`] rows keyed by their unique names.
//! Its view is the map from each name to what the table knows about it
//! ([`RowV`]): the target and the activity flag.

use vstd::prelude::*;

verus! {

/// One row of redirection data: a name, the target it redirects to, and
/// whether the row is active. Only active rows are eligible for resolution.
pub struct Mapping {
    pub name: String,
    pub target: String,
    pub active: bool,
}

/// Spec-level image of a [`Mapping`].
#[verifier::ext_equal]
pub ghost struct MappingView {
    pub name: Seq<char>,
    pub target: Seq<char>,
    pub active: bool,
}

impl View for Mapping {
    type V = MappingView;

    open spec fn view(&self) -> MappingView {
        MappingView { name: self.name@, target: self.target@, active: self.active }
    }
}

/// What the store knows about one name: its target and its activity flag.
#[verifier::ext_equal]
pub ghost struct RowV {
    pub target: Seq<char>,
    pub active: bool,
}

/// The part of a row that the table stores under the row's name.
pub open spec fn row_v(m: MappingView) -> RowV {
    RowV { target: m.target, active: m.active }
}

/// No two rows of the sequence carry the same name.
pub open spec fn distinct_names(rows: Seq<Mapping>) -> bool {
    forall|i: int, j: int|
        0 <= i < j < rows.len() ==> (#[trigger] rows[i])@.name != (#[trigger] rows[j])@.name
}

/// The sequence of rows lists exactly the contents of the map: every row is
/// in the map, every key of the map appears as a row, and no name repeats.
pub open spec fn faithful_listing(store: Map<Seq<char>, RowV>, rows: Seq<Mapping>) -> bool {
    &&& forall|i: int|
        0 <= i < rows.len() ==> store.contains_key((#[trigger] rows[i])@.name)
            && store[rows[i]@.name] == row_v(rows[i]@)
    &&& forall|k: Seq<char>| #[trigger]
        store.contains_key(k) ==> exists|i: int| 0 <= i < rows.len() && (#[trigger] rows[i])@.name == k
    &&& distinct_names(rows)
}

/// The map described by a sequence of rows; a later row wins over an
/// earlier one of the same name (the table never holds such a pair).
spec fn table_map(rows: Seq<Mapping>) -> Map<Seq<char>, RowV>
    decreases rows.len(),
{
    if rows.len() == 0 {
        Map::empty()
    } else {
        table_map(rows.drop_last()).insert(rows.last()@.name, row_v(rows.last()@))
    }
}

proof fn lemma_table_map_contains(rows: Seq<Mapping>, k: Seq<char>)
    ensures
        table_map(rows).contains_key(k) <==> exists|i: int|
            0 <= i < rows.len() && (#[trigger] rows[i])@.name == k,
    decreases rows.len(),
{
    if rows.len() > 0 {
        lemma_table_map_contains(rows.drop_last(), k);
        if rows.last()@.name == k {
            assert(rows[rows.len() - 1]@.name == k);
        } else if table_map(rows.drop_last()).contains_key(k) {
            let i = choose|i: int|
                0 <= i < rows.drop_last().len() && (#[trigger] rows.drop_last()[i])@.name == k;
            assert(rows[i]@.name == k);
        } else {
            assert forall|i: int| 0 <= i < rows.len() implies (#[trigger] rows[i])@.name != k by {
                if i < rows.len() - 1 {
                    assert(rows.drop_last()[i] == rows[i]);
                }
            }
        }
    }
}

proof fn lemma_table_map_index(rows: Seq<Mapping>, i: int)
    requires
        0 <= i < rows.len(),
        distinct_names(rows),
    ensures
        table_map(rows).contains_key(rows[i]@.name),
        table_map(rows)[rows[i]@.name] == row_v(rows[i]@),
    decreases rows.len(),
{
    if i < rows.len() - 1 {
        assert(rows[i]@.name != rows[rows.len() - 1]@.name);
        assert(rows.drop_last()[i] == rows[i]);
        assert(distinct_names(rows.drop_last())) by {
            assert forall|a: int, b: int|
                0 <= a < b < rows.drop_last().len() implies (#[trigger] rows.drop_last()[a])@.name
                != (#[trigger] rows.drop_last()[b])@.name by {
                assert(rows.drop_last()[a] == rows[a]);
                assert(rows.drop_last()[b] == rows[b]);
            }
        }
        lemma_table_map_index(rows.drop_last(), i);
    }
}

proof fn lemma_table_map_update(rows: Seq<Mapping>, i: int, m: Mapping)
    requires
        0 <= i < rows.len(),
        distinct_names(rows),
        rows[i]@.name == m@.name,
    ensures
        table_map(rows.update(i, m)) == table_map(rows).insert(m@.name, row_v(m@)),
    decreases rows.len(),
{
    let u = rows.update(i, m);
    if i == rows.len() - 1 {
        assert(u.drop_last() =~= rows.drop_last());
        assert(u.last() == m);
        assert(table_map(u) =~= table_map(rows).insert(m@.name, row_v(m@)));
    } else {
        assert(rows[i]@.name != rows[rows.len() - 1]@.name);
        assert(u.drop_last() =~= rows.drop_last().update(i, m));
        assert(u.last() == rows.last());
        assert(distinct_names(rows.drop_last())) by {
            assert forall|a: int, b: int|
                0 <= a < b < rows.drop_last().len() implies (#[trigger] rows.drop_last()[a])@.name
                != (#[trigger] rows.drop_last()[b])@.name by {
                assert(rows.drop_last()[a] == rows[a]);
                assert(rows.drop_last()[b] == rows[b]);
            }
        }
        assert(rows.drop_last()[i] == rows[i]);
        lemma_table_map_update(rows.drop_last(), i, m);
        assert(table_map(u) =~= table_map(rows).insert(m@.name, row_v(m@)));
    }
}

proof fn lemma_table_map_push(rows: Seq<Mapping>, m: Mapping)
    ensures
        table_map(rows.push(m)) == table_map(rows).insert(m@.name, row_v(m@)),
{
    assert(rows.push(m).drop_last() =~= rows);
    assert(rows.push(m).last() == m);
}

proof fn lemma_listing(rows: Seq<Mapping>)
    requires
        distinct_names(rows),
    ensures
        faithful_listing(table_map(rows), rows),
{
    assert forall|i: int|
        0 <= i < rows.len() implies table_map(rows).contains_key((#[trigger] rows[i])@.name)
        && table_map(rows)[rows[i]@.name] == row_v(rows[i]@) by {
        lemma_table_map_index(rows, i);
    }
    assert forall|k: Seq<char>| #[trigger]
        table_map(rows).contains_key(k) implies exists|i: int|
        0 <= i < rows.len() && (#[trigger] rows[i])@.name == k by {
        lemma_table_map_contains(rows, k);
    }
}

/// The index of the row carrying `name`, if any.
fn find_index(rows: &Vec<Mapping>, name: &String) -> (r: Option<usize>)
    ensures
        match r {
            Some(i) => i < rows@.len() && rows@[i as int]@.name == name@,
            None => forall|i: int| 0 <= i < rows@.len() ==> (#[trigger] rows@[i])@.name != name@,
        },
{
    let mut i: usize = 0;
    while i < rows.len()
        invariant
            i <= rows@.len(),
            forall|j: int| 0 <= j < i ==> (#[trigger] rows@[j])@.name != name@,
        decreases rows@.len() - i,
    {
        if rows[i].name == *name {
            return Some(i);
        }
        i = i + 1;
    }
    None
}

/// Durable table of mappings, keyed by unique names.
pub struct Store {
    rows: Vec<Mapping>,
}

impl View for Store {
    type V = Map<Seq<char>, RowV>;

    closed spec fn view(&self) -> Map<Seq<char>, RowV> {
        table_map(self.rows@)
    }
}

impl Store {
    #[verifier::type_invariant]
    spec fn names_unique(self) -> bool {
        distinct_names(self.rows@)
    }

    /// An empty table.
    pub fn new() -> (s: Store)
        ensures
            s@ == Map::<Seq<char>, RowV>::empty(),
    {
        Store { rows: Vec::new() }
    }

    /// Stores the given row, replacing any row of the same name; `active`
    /// is stored exactly as given. This is the out-of-band administrative
    /// path (and the way a starting state is seeded): the write path goes
    /// through [`Store::upsert`].
    pub fn put_row(&mut self, m: Mapping)
        ensures
            final(self)@ == old(self)@.insert(m@.name, row_v(m@)),
    {
        proof {
            use_type_invariant(&*self);
        }
        let ghost gm = m;
        let ghost old_rows = self.rows@;
        let mut rows: Vec<Mapping> = Vec::new();
        std::mem::swap(&mut rows, &mut self.rows);
        match find_index(&rows, &m.name) {
            Some(i) => {
                rows.set(i, m);
                proof {
                    assert forall|a: int, b: int|
                        0 <= a < b < rows@.len() implies (#[trigger] rows@[a])@.name
                        != (#[trigger] rows@[b])@.name by {
                        assert(old_rows[a]@.name != old_rows[b]@.name);
                    }
                    lemma_table_map_update(old_rows, i as int, gm);
                }
            },
            None => {
                rows.push(m);
                proof {
                    assert forall|a: int, b: int|
                        0 <= a < b < rows@.len() implies (#[trigger] rows@[a])@.name
                        != (#[trigger] rows@[b])@.name by {
                        if b < rows@.len() - 1 {
                            assert(old_rows[a]@.name != old_rows[b]@.name);
                        } else {
                            assert(old_rows[a]@.name != gm@.name);
                        }
                    }
                    lemma_table_map_push(old_rows, gm);
                }
            },
        }
        self.rows = rows;
    }

    /// Insert-or-replace as the write path uses it. The stored row becomes
    /// active: a name whose row had been deactivated out of band becomes
    /// resolvable again when it is written through this path, so that the
    /// cache, which will hold the name after the write, never disagrees
    /// with the table.
    pub fn upsert(&mut self, name: &String, target: &String)
        ensures
            final(self)@ == old(self)@.insert(name@, RowV { target: target@, active: true }),
    {
        self.put_row(Mapping { name: name.clone(), target: target.clone(), active: true });
    }

    /// Every row of the table, active or not.
    pub fn fetch_all(&self) -> (rows: &Vec<Mapping>)
        ensures
            faithful_listing(self@, rows@),
    {
        proof {
            use_type_invariant(self);
            lemma_listing(self.rows@);
        }
        &self.rows
    }
}

} // verus!
