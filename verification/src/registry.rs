//! Ordered collections of entities, each found by its identifier.
//!
//! A [`Registry`] keeps its entities strictly ascending by identifier, so
//! that walking it visits them in one fixed order on every node. Its view is
//! the map from identifier to entity; [`Registry::rows`] is the same content
//! as the ordered sequence that a walk yields.

use vstd::prelude::*;
use crate::text::Order;

verus! {

/// An identifier with a strict total order on its view.
pub trait Key: View + Sized {
    /// `a` comes before `b`.
    spec fn key_lt(a: Self::V, b: Self::V) -> bool;

    proof fn lemma_key_lt_irreflexive(a: Self::V)
        ensures
            !Self::key_lt(a, a),
    ;

    proof fn lemma_key_lt_transitive(a: Self::V, b: Self::V, c: Self::V)
        requires
            Self::key_lt(a, b),
            Self::key_lt(b, c),
        ensures
            Self::key_lt(a, c),
    ;

    proof fn lemma_key_lt_total(a: Self::V, b: Self::V)
        ensures
            a == b || Self::key_lt(a, b) || Self::key_lt(b, a),
    ;

    /// Three-way comparison in the order of [`Key::key_lt`].
    fn compare(&self, other: &Self) -> (o: Order)
        ensures
            o == Order::Less <==> Self::key_lt(self@, other@),
            o == Order::Equal <==> self@ == other@,
            o == Order::Greater <==> Self::key_lt(other@, self@),
    ;

    /// A copy with the same view.
    fn duplicate(&self) -> (r: Self)
        ensures
            r@ == self@,
    ;
}

/// A value that carries its own identifier.
pub trait Entity: View + Sized {
    type Id: Key;

    /// The identifier of an entity, read from its view.
    spec fn id_of(v: Self::V) -> <Self::Id as View>::V;

    fn id(&self) -> (r: &Self::Id)
        ensures
            r@ == Self::id_of(self@),
    ;

    /// A copy with the same view.
    fn duplicate(&self) -> (r: Self)
        ensures
            r@ == self@,
    ;
}

/// The rows are strictly ascending by identifier.
pub open spec fn ascending<E: Entity>(rows: Seq<E::V>) -> bool {
    forall|i: int, j: int|
        0 <= i < j < rows.len() ==> E::Id::key_lt(
            E::id_of(#[trigger] rows[i]),
            E::id_of(#[trigger] rows[j]),
        )
}

/// Some row carries the identifier `id`.
pub open spec fn holds<E: Entity>(rows: Seq<E::V>, id: <E::Id as View>::V) -> bool {
    exists|i: int| 0 <= i < rows.len() && E::id_of(#[trigger] rows[i]) == id
}

/// The position of a row that carries `id`, when there is one.
pub open spec fn index_of<E: Entity>(rows: Seq<E::V>, id: <E::Id as View>::V) -> int {
    choose|i: int| 0 <= i < rows.len() && E::id_of(#[trigger] rows[i]) == id
}

/// The rows as a map from identifier to entity.
pub open spec fn as_map<E: Entity>(rows: Seq<E::V>) -> Map<<E::Id as View>::V, E::V> {
    Map::new(|id: <E::Id as View>::V| holds::<E>(rows, id), |id: <E::Id as View>::V| rows[index_of::<E>(rows, id)])
}

/// `after` is `before` with the new row `e` placed somewhere.
pub open spec fn row_inserted<E: Entity>(before: Seq<E::V>, after: Seq<E::V>, e: E::V) -> bool {
    exists|p: int| 0 <= p <= before.len() && after == #[trigger] before.insert(p, e)
}

/// `after` is `before` with the row of the same identifier as `e` replaced by `e`.
pub open spec fn row_replaced<E: Entity>(before: Seq<E::V>, after: Seq<E::V>, e: E::V) -> bool {
    exists|i: int|
        0 <= i < before.len() && E::id_of(before[i]) == E::id_of(e) && after
            == #[trigger] before.update(i, e)
}

/// `after` is `before` without its row `gone`.
pub open spec fn row_removed<E: Entity>(before: Seq<E::V>, after: Seq<E::V>, gone: E::V) -> bool {
    exists|i: int|
        0 <= i < before.len() && before[i] == gone && after == #[trigger] before.remove(i)
}

/// In ascending rows an identifier occurs at one position only.
pub proof fn lemma_unique_row<E: Entity>(rows: Seq<E::V>, i: int, j: int)
    requires
        ascending::<E>(rows),
        0 <= i < rows.len(),
        0 <= j < rows.len(),
        E::id_of(rows[i]) == E::id_of(rows[j]),
    ensures
        i == j,
{
    E::Id::lemma_key_lt_irreflexive(E::id_of(rows[i]));
}

/// The map of ascending rows sends each row's identifier to that row.
pub proof fn lemma_row_in_map<E: Entity>(rows: Seq<E::V>, i: int)
    requires
        ascending::<E>(rows),
        0 <= i < rows.len(),
    ensures
        as_map::<E>(rows).contains_key(E::id_of(rows[i])),
        as_map::<E>(rows)[E::id_of(rows[i])] == rows[i],
{
    let id = E::id_of(rows[i]);
    assert(holds::<E>(rows, id));
    lemma_unique_row::<E>(rows, i, index_of::<E>(rows, id));
}

/// Every identifier in the map of ascending rows is the identifier of the
/// entity it maps to, and that entity is one of the rows.
pub proof fn lemma_map_in_rows<E: Entity>(rows: Seq<E::V>, id: <E::Id as View>::V)
    requires
        ascending::<E>(rows),
        as_map::<E>(rows).contains_key(id),
    ensures
        0 <= index_of::<E>(rows, id) < rows.len(),
        rows[index_of::<E>(rows, id)] == as_map::<E>(rows)[id],
        E::id_of(as_map::<E>(rows)[id]) == id,
{
}

/// Placing a row between the rows that come before and after its identifier
/// keeps the order and adds its entry to the map.
pub proof fn lemma_insert_row<E: Entity>(rows: Seq<E::V>, p: int, e: E::V)
    requires
        ascending::<E>(rows),
        0 <= p <= rows.len(),
        forall|j: int| 0 <= j < p ==> E::Id::key_lt(E::id_of(#[trigger] rows[j]), E::id_of(e)),
        forall|j: int|
            p <= j < rows.len() ==> E::Id::key_lt(E::id_of(e), E::id_of(#[trigger] rows[j])),
    ensures
        ascending::<E>(rows.insert(p, e)),
        !holds::<E>(rows, E::id_of(e)),
        as_map::<E>(rows.insert(p, e)) == as_map::<E>(rows).insert(E::id_of(e), e),
{
    let after = rows.insert(p, e);
    let id = E::id_of(e);
    E::Id::lemma_key_lt_irreflexive(id);
    assert forall|i: int, j: int| 0 <= i < j < after.len() implies E::Id::key_lt(
        E::id_of(#[trigger] after[i]),
        E::id_of(#[trigger] after[j]),
    ) by {
        if j < p {
            assert(after[i] == rows[i] && after[j] == rows[j]);
        } else if j == p {
            assert(after[i] == rows[i]);
        } else if i < p {
            assert(after[i] == rows[i] && after[j] == rows[j - 1]);
        } else if i == p {
            assert(after[j] == rows[j - 1]);
        } else {
            assert(after[i] == rows[i - 1] && after[j] == rows[j - 1]);
        }
    }
    assert(!holds::<E>(rows, id));
    assert forall|k: <E::Id as View>::V| holds::<E>(after, k) <==> (k == id || holds::<E>(
        rows,
        k,
    )) by {
        if holds::<E>(after, k) {
            let i = index_of::<E>(after, k);
            if i < p {
                assert(after[i] == rows[i]);
            } else if i > p {
                assert(after[i] == rows[i - 1]);
            }
        }
        if k == id {
            assert(after[p] == e);
        } else if holds::<E>(rows, k) {
            let i = index_of::<E>(rows, k);
            if i < p {
                assert(after[i] == rows[i]);
            } else {
                assert(after[i + 1] == rows[i]);
            }
        }
    }
    assert forall|k: <E::Id as View>::V| holds::<E>(after, k) implies as_map::<E>(after)[k]
        == as_map::<E>(rows).insert(id, e)[k] by {
        if k == id {
            assert(after[p] == e);
            lemma_row_in_map::<E>(after, p);
        } else {
            let i = index_of::<E>(rows, k);
            let i2 = if i < p { i } else { i + 1 };
            assert(after[i2] == rows[i]);
            lemma_row_in_map::<E>(after, i2);
        }
    }
    assert(as_map::<E>(after) =~= as_map::<E>(rows).insert(id, e));
}

/// Replacing a row by one of the same identifier keeps the order and
/// overwrites its entry in the map.
pub proof fn lemma_update_row<E: Entity>(rows: Seq<E::V>, i: int, e: E::V)
    requires
        ascending::<E>(rows),
        0 <= i < rows.len(),
        E::id_of(rows[i]) == E::id_of(e),
    ensures
        ascending::<E>(rows.update(i, e)),
        as_map::<E>(rows.update(i, e)) == as_map::<E>(rows).insert(E::id_of(e), e),
{
    let after = rows.update(i, e);
    let id = E::id_of(e);
    assert forall|a: int, b: int| 0 <= a < b < after.len() implies E::Id::key_lt(
        E::id_of(#[trigger] after[a]),
        E::id_of(#[trigger] after[b]),
    ) by {
        assert(E::id_of(after[a]) == E::id_of(rows[a]));
        assert(E::id_of(after[b]) == E::id_of(rows[b]));
    }
    assert forall|k: <E::Id as View>::V| holds::<E>(after, k) <==> (k == id || holds::<E>(
        rows,
        k,
    )) by {
        if holds::<E>(after, k) {
            let j = index_of::<E>(after, k);
            assert(E::id_of(after[j]) == E::id_of(rows[j]));
        }
        if k == id {
            assert(after[i] == e);
        } else if holds::<E>(rows, k) {
            let j = index_of::<E>(rows, k);
            assert(after[j] == rows[j]);
        }
    }
    assert forall|k: <E::Id as View>::V| holds::<E>(after, k) implies as_map::<E>(after)[k]
        == as_map::<E>(rows).insert(id, e)[k] by {
        if k == id {
            assert(after[i] == e);
            lemma_row_in_map::<E>(after, i);
        } else {
            let j = index_of::<E>(rows, k);
            assert(after[j] == rows[j]);
            lemma_row_in_map::<E>(after, j);
        }
    }
    assert(as_map::<E>(after) =~= as_map::<E>(rows).insert(id, e));
}

/// Taking a row out keeps the order and removes its entry from the map.
pub proof fn lemma_remove_row<E: Entity>(rows: Seq<E::V>, i: int)
    requires
        ascending::<E>(rows),
        0 <= i < rows.len(),
    ensures
        ascending::<E>(rows.remove(i)),
        as_map::<E>(rows.remove(i)) == as_map::<E>(rows).remove(E::id_of(rows[i])),
{
    let after = rows.remove(i);
    let id = E::id_of(rows[i]);
    assert forall|a: int, b: int| 0 <= a < b < after.len() implies E::Id::key_lt(
        E::id_of(#[trigger] after[a]),
        E::id_of(#[trigger] after[b]),
    ) by {
        let a0 = if a < i { a } else { a + 1 };
        let b0 = if b < i { b } else { b + 1 };
        assert(after[a] == rows[a0] && after[b] == rows[b0]);
    }
    assert forall|k: <E::Id as View>::V| holds::<E>(after, k) <==> (k != id && holds::<E>(
        rows,
        k,
    )) by {
        if holds::<E>(after, k) {
            let j = index_of::<E>(after, k);
            let j0 = if j < i { j } else { j + 1 };
            assert(after[j] == rows[j0]);
            if k == id {
                lemma_unique_row::<E>(rows, i, j0);
            }
        }
        if k != id && holds::<E>(rows, k) {
            let j = index_of::<E>(rows, k);
            let j1 = if j < i { j } else { j - 1 };
            assert(after[j1] == rows[j]);
        }
    }
    assert forall|k: <E::Id as View>::V| holds::<E>(after, k) implies as_map::<E>(after)[k]
        == as_map::<E>(rows)[k] by {
        let j = index_of::<E>(rows, k);
        let j1 = if j < i { j } else { j - 1 };
        assert(after[j1] == rows[j]);
        lemma_row_in_map::<E>(after, j1);
    }
    assert(as_map::<E>(after) =~= as_map::<E>(rows).remove(id));
}

/// Ascending rows are determined by the map that they make: whoever holds
/// the same entities walks them in the same order.
pub proof fn lemma_rows_determined<E: Entity>(a: Seq<E::V>, b: Seq<E::V>)
    requires
        ascending::<E>(a),
        ascending::<E>(b),
        as_map::<E>(a) == as_map::<E>(b),
    ensures
        a == b,
    decreases a.len(),
{
    if a.len() == 0 {
        if b.len() > 0 {
            lemma_row_in_map::<E>(b, 0);
            lemma_map_in_rows::<E>(a, E::id_of(b[0]));
        }
        assert(a =~= b);
    } else {
        lemma_row_in_map::<E>(a, 0);
        let ka = E::id_of(a[0]);
        lemma_map_in_rows::<E>(b, ka);
        let j = index_of::<E>(b, ka);
        lemma_row_in_map::<E>(b, 0);
        let kb = E::id_of(b[0]);
        lemma_map_in_rows::<E>(a, kb);
        let i = index_of::<E>(a, kb);
        E::Id::lemma_key_lt_irreflexive(ka);
        if j > 0 && i > 0 {
            E::Id::lemma_key_lt_transitive(ka, kb, ka);
        }
        assert(i == 0 && j == 0);
        assert(a[0] == b[0]);
        lemma_remove_row::<E>(a, 0);
        lemma_remove_row::<E>(b, 0);
        lemma_rows_determined::<E>(a.remove(0), b.remove(0));
        assert(a =~= seq![a[0]] + a.remove(0));
        assert(b =~= seq![b[0]] + b.remove(0));
    }
}

/// Entities kept strictly ascending by identifier.
#[derive(Debug, PartialEq, Eq)]
pub struct Registry<E: Entity> {
    entries: Vec<E>,
}

impl<E: Entity> View for Registry<E> {
    type V = Map<<E::Id as View>::V, E::V>;

    /// The entities by identifier.
    open spec fn view(&self) -> Self::V {
        as_map::<E>(self.rows())
    }
}

impl<E: Entity> Registry<E> {
    /// The entities in the order a walk visits them.
    pub closed spec fn rows(&self) -> Seq<E::V> {
        Seq::new(self.entries@.len(), |i: int| self.entries@[i]@)
    }

    /// The rows are strictly ascending by identifier.
    pub open spec fn wf(&self) -> bool {
        ascending::<E>(self.rows())
    }

    pub fn new() -> (r: Self)
        ensures
            r.wf(),
            r.rows() == Seq::<E::V>::empty(),
            r@ == Map::<<E::Id as View>::V, E::V>::empty(),
    {
        let r = Registry { entries: Vec::new() };
        proof {
            assert(r.rows() =~= Seq::<E::V>::empty());
            assert(r@ =~= Map::<<E::Id as View>::V, E::V>::empty());
        }
        r
    }

    pub fn len(&self) -> (n: usize)
        ensures
            n == self.rows().len(),
    {
        self.entries.len()
    }

    /// The position of `id`, or the position at which a row with that
    /// identifier would have to be placed.
    pub fn find(&self, id: &E::Id) -> (r: Result<usize, usize>)
        requires
            self.wf(),
        ensures
            match r {
                Ok(i) => i < self.rows().len() && E::id_of(self.rows()[i as int]) == id@
                    && self@.contains_key(id@),
                Err(p) => p <= self.rows().len() && !self@.contains_key(id@) && (forall|j: int|
                    0 <= j < p ==> E::Id::key_lt(E::id_of(#[trigger] self.rows()[j]), id@))
                    && (forall|j: int|
                    p <= j < self.rows().len() ==> E::Id::key_lt(
                        id@,
                        E::id_of(#[trigger] self.rows()[j]),
                    )),
            },
    {
        let mut i: usize = 0;
        while i < self.entries.len()
            invariant
                self.wf(),
                i <= self.entries.len(),
                forall|j: int| 0 <= j < i ==> E::Id::key_lt(E::id_of(#[trigger] self.rows()[j]), id@),
            decreases self.entries.len() - i,
        {
            match self.entries[i].id().compare(id) {
                Order::Less => {},
                Order::Equal => {
                    proof {
                        lemma_row_in_map::<E>(self.rows(), i as int);
                    }
                    return Ok(i);
                },
                Order::Greater => {
                    proof {
                        let rows = self.rows();
                        assert forall|j: int| i <= j < rows.len() implies E::Id::key_lt(
                            id@,
                            E::id_of(#[trigger] rows[j]),
                        ) by {
                            if j > i {
                                E::Id::lemma_key_lt_transitive(
                                    id@,
                                    E::id_of(rows[i as int]),
                                    E::id_of(rows[j]),
                                );
                            }
                        }
                        E::Id::lemma_key_lt_irreflexive(id@);
                        assert(!holds::<E>(rows, id@));
                    }
                    return Err(i);
                },
            }
            i = i + 1;
        }
        proof {
            E::Id::lemma_key_lt_irreflexive(id@);
            assert(!holds::<E>(self.rows(), id@));
        }
        Err(i)
    }

    /// The entity with identifier `id`, if there is one.
    pub fn get(&self, id: &E::Id) -> (r: Option<&E>)
        requires
            self.wf(),
        ensures
            match r {
                Some(e) => self@.contains_key(id@) && e@ == self@[id@],
                None => !self@.contains_key(id@),
            },
    {
        match self.find(id) {
            Ok(i) => {
                proof {
                    lemma_row_in_map::<E>(self.rows(), i as int);
                }
                Some(&self.entries[i])
            },
            Err(_) => None,
        }
    }

    pub fn contains(&self, id: &E::Id) -> (r: bool)
        requires
            self.wf(),
        ensures
            r == self@.contains_key(id@),
    {
        self.find(id).is_ok()
    }

    /// The entity at position `i` of the walk.
    pub fn row(&self, i: usize) -> (r: &E)
        requires
            i < self.rows().len(),
        ensures
            r@ == self.rows()[i as int],
    {
        &self.entries[i]
    }

    /// Puts `e` in the registry, in place of the entity with the same
    /// identifier if there is one, which is returned.
    pub fn insert(&mut self, e: E) -> (r: Option<E>)
        requires
            old(self).wf(),
        ensures
            final(self).wf(),
            final(self)@ == old(self)@.insert(E::id_of(e@), e@),
            match r {
                Some(prev) => old(self)@.contains_key(E::id_of(e@)) && prev@ == old(self)@[E::id_of(
                    e@,
                )] && row_replaced::<E>(old(self).rows(), final(self).rows(), e@),
                None => !old(self)@.contains_key(E::id_of(e@)) && row_inserted::<E>(
                    old(self).rows(),
                    final(self).rows(),
                    e@,
                ),
            },
    {
        let ghost before = self.rows();
        match self.find(e.id()) {
            Ok(i) => {
                let prev = self.entries.remove(i);
                self.entries.insert(i, e);
                proof {
                    lemma_row_in_map::<E>(before, i as int);
                    lemma_update_row::<E>(before, i as int, e@);
                    assert(self.rows() =~= before.update(i as int, e@));
                }
                Some(prev)
            },
            Err(p) => {
                self.entries.insert(p, e);
                proof {
                    lemma_insert_row::<E>(before, p as int, e@);
                    assert(self.rows() =~= before.insert(p as int, e@));
                }
                None
            },
        }
    }

    /// Takes the entity with identifier `id` out of the registry.
    pub fn remove(&mut self, id: &E::Id) -> (r: Option<E>)
        requires
            old(self).wf(),
        ensures
            final(self).wf(),
            final(self)@ == old(self)@.remove(id@),
            match r {
                Some(gone) => old(self)@.contains_key(id@) && gone@ == old(self)@[id@]
                    && row_removed::<E>(old(self).rows(), final(self).rows(), gone@),
                None => !old(self)@.contains_key(id@) && *final(self) == *old(self),
            },
    {
        let ghost before = self.rows();
        match self.find(id) {
            Ok(i) => {
                let gone = self.entries.remove(i);
                proof {
                    lemma_row_in_map::<E>(before, i as int);
                    lemma_remove_row::<E>(before, i as int);
                    assert(self.rows() =~= before.remove(i as int));
                }
                Some(gone)
            },
            Err(_) => {
                proof {
                    assert(self@ =~= old(self)@.remove(id@));
                }
                None
            },
        }
    }

    /// Takes the entity at position `i` of the walk out of the registry.
    pub fn remove_row(&mut self, i: usize) -> (gone: E)
        requires
            old(self).wf(),
            i < old(self).rows().len(),
        ensures
            final(self).wf(),
            gone@ == old(self).rows()[i as int],
            final(self).rows() == old(self).rows().remove(i as int),
            final(self)@ == old(self)@.remove(E::id_of(gone@)),
    {
        let ghost before = self.rows();
        let gone = self.entries.remove(i);
        proof {
            lemma_remove_row::<E>(before, i as int);
            assert(self.rows() =~= before.remove(i as int));
        }
        gone
    }

    /// A copy with the same rows.
    pub fn duplicate(&self) -> (r: Self)
        ensures
            r.rows() == self.rows(),
            r@ == self@,
    {
        let mut entries: Vec<E> = Vec::new();
        let mut i: usize = 0;
        while i < self.entries.len()
            invariant
                i <= self.entries.len(),
                entries@.len() == i,
                forall|j: int| 0 <= j < i ==> (#[trigger] entries@[j])@ == self.entries@[j]@,
            decreases self.entries.len() - i,
        {
            entries.push(self.entries[i].duplicate());
            i = i + 1;
        }
        let r = Registry { entries };
        proof {
            assert(r.rows() =~= self.rows());
        }
        r
    }
}

} // verus!
