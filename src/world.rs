use vstd::prelude::*;

use crate::column::ColumnHandle;

verus! {

/// The storage behind one registered component kind.
struct ColumnEntry<C> {
    kind: u64,
    /// Set while the slots are held by a [`crate::ColumnHandle`].
    lent: bool,
    slots: Vec<Option<C>>,
}

/// The registry: the number of entities created so far, and one column per
/// component kind that has been used at least once.
///
/// Components are values of the caller's type `C`, often an enum with one
/// variant per component type. Each is filed under a `kind`: a number that
/// names its component type and selects its column. Columns are found by kind
/// alone; the order in which they were created plays no part.
pub struct World<C> {
    entities_count: usize,
    component_vecs: Vec<ColumnEntry<C>>,
}

/// Why the registry refused an access.
#[derive(Debug, PartialEq, Eq, Structural)]
pub enum AccessError {
    /// The entity id was never handed out by `new_entity`.
    UnknownEntity,
    /// The column of that kind is lent out to a handle that was not handed back.
    ColumnBorrowed,
    /// The handle does not stand for a column lent out by this registry.
    NotLent,
}

/// The column entries `es` have pairwise distinct kinds.
spec fn kinds_distinct<C>(es: Seq<ColumnEntry<C>>) -> bool {
    forall|i: int, j: int|
        0 <= i < es.len() && 0 <= j < es.len() && i != j ==> #[trigger] es[i].kind != #[trigger] es[j].kind
}

/// Every column of `es` that is not lent out has exactly `n` slots.
spec fn aligned<C>(es: Seq<ColumnEntry<C>>, n: nat) -> bool {
    forall|i: int| 0 <= i < es.len() && !(#[trigger] es[i]).lent ==> es[i].slots@.len() == n
}

/// A column of `kind` stands in `es`.
spec fn registered_in<C>(es: Seq<ColumnEntry<C>>, kind: u64) -> bool {
    exists|i: int| 0 <= i < es.len() && #[trigger] es[i].kind == kind
}

/// The position of the column of `kind` in `es`, where it is registered.
spec fn position_in<C>(es: Seq<ColumnEntry<C>>, kind: u64) -> int {
    choose|i: int| 0 <= i < es.len() && #[trigger] es[i].kind == kind
}

/// With distinct kinds, the entry at `i` is the one found for its kind.
proof fn lemma_position<C>(es: Seq<ColumnEntry<C>>, i: int)
    requires
        kinds_distinct(es),
        0 <= i < es.len(),
    ensures
        registered_in(es, es[i].kind),
        position_in(es, es[i].kind) == i,
{
    assert(es[i].kind == es[i].kind);
    let p = position_in(es, es[i].kind);
    assert(0 <= p < es.len() && es[p].kind == es[i].kind);
}

/// Two entry sequences with the same kinds, position by position, register
/// the same kinds at the same positions.
proof fn lemma_same_layout<C>(a: Seq<ColumnEntry<C>>, b: Seq<ColumnEntry<C>>)
    requires
        kinds_distinct(a),
        a.len() == b.len(),
        forall|i: int| 0 <= i < a.len() ==> #[trigger] a[i].kind == b[i].kind,
    ensures
        kinds_distinct(b),
        forall|k: u64| #[trigger] registered_in(b, k) == registered_in(a, k),
        forall|k: u64| registered_in(a, k) ==> #[trigger] position_in(b, k) == position_in(a, k),
{
    assert forall|i: int, j: int| 0 <= i < b.len() && 0 <= j < b.len() && i != j implies #[trigger] b[i].kind != #[trigger] b[j].kind by {
        assert(a[i].kind == b[i].kind && a[j].kind == b[j].kind);
    }
    assert forall|k: u64| #[trigger] registered_in(b, k) == registered_in(a, k) by {
        if registered_in(a, k) {
            let i = choose|i: int| 0 <= i < a.len() && #[trigger] a[i].kind == k;
            assert(b[i].kind == k);
        }
        if registered_in(b, k) {
            let i = choose|i: int| 0 <= i < b.len() && #[trigger] b[i].kind == k;
            assert(a[i].kind == k);
        }
    }
    assert forall|k: u64| registered_in(a, k) implies #[trigger] position_in(b, k) == position_in(a, k) by {
        let p = position_in(a, k);
        assert(a[p].kind == k);
        lemma_position(a, p);
        assert(b[p].kind == k);
        lemma_position(b, p);
    }
}

/// Replacing the entry at `i` by one of the same kind replaces (or, for a
/// lent entry, withdraws) that kind's column and nothing else.
proof fn lemma_replace_entry<C>(a: Seq<ColumnEntry<C>>, i: int, e: ColumnEntry<C>)
    requires
        kinds_distinct(a),
        0 <= i < a.len(),
        e.kind == a[i].kind,
    ensures
        kinds_distinct(a.update(i, e)),
        columns_of(a.update(i, e)) == (if e.lent {
            columns_of(a).remove(e.kind)
        } else {
            columns_of(a).insert(e.kind, e.slots@)
        }),
        lent_of(a.update(i, e)) == (if e.lent {
            lent_of(a).insert(e.kind)
        } else {
            lent_of(a).remove(e.kind)
        }),
{
    let b = a.update(i, e);
    assert forall|j: int| 0 <= j < a.len() implies #[trigger] a[j].kind == b[j].kind by {}
    lemma_same_layout(a, b);
    lemma_position(a, i);
    let expect_cols = if e.lent {
        columns_of(a).remove(e.kind)
    } else {
        columns_of(a).insert(e.kind, e.slots@)
    };
    let expect_lent = if e.lent {
        lent_of(a).insert(e.kind)
    } else {
        lent_of(a).remove(e.kind)
    };
    assert forall|k: u64| #[trigger] columns_of(b).contains_key(k) == expect_cols.contains_key(k) by {
        if registered_in(a, k) && k != e.kind {
            assert(position_in(a, k) != i);
        }
    }
    assert forall|k: u64| columns_of(b).contains_key(k) implies #[trigger] columns_of(b)[k] == expect_cols[k] by {
        if k != e.kind {
            assert(position_in(a, k) != i);
        }
    }
    assert(columns_of(b) =~= expect_cols);
    assert forall|k: u64| #[trigger] lent_of(b).contains(k) == expect_lent.contains(k) by {
        if registered_in(a, k) && k != e.kind {
            assert(position_in(a, k) != i);
        }
    }
    assert(lent_of(b) =~= expect_lent);
}

/// Appending a held entry of a new kind adds that kind's column.
proof fn lemma_push_entry<C>(a: Seq<ColumnEntry<C>>, e: ColumnEntry<C>)
    requires
        kinds_distinct(a),
        !registered_in(a, e.kind),
        !e.lent,
    ensures
        kinds_distinct(a.push(e)),
        columns_of(a.push(e)) == columns_of(a).insert(e.kind, e.slots@),
        lent_of(a.push(e)) == lent_of(a),
{
    let b = a.push(e);
    assert forall|i: int, j: int| 0 <= i < b.len() && 0 <= j < b.len() && i != j implies #[trigger] b[i].kind != #[trigger] b[j].kind by {
        if i == a.len() {
            assert(a[j].kind == b[j].kind);
        } else if j == a.len() {
            assert(a[i].kind == b[i].kind);
        } else {
            assert(a[i] == b[i] && a[j] == b[j]);
        }
    }
    lemma_position(b, a.len() as int);
    assert forall|k: u64| k != e.kind implies #[trigger] registered_in(b, k) == registered_in(a, k)
        && (registered_in(a, k) ==> position_in(b, k) == position_in(a, k)) by {
        if registered_in(a, k) {
            let p = position_in(a, k);
            assert(a[p].kind == k && b[p] == a[p]);
            lemma_position(b, p);
        }
        if registered_in(b, k) {
            let p = choose|p: int| 0 <= p < b.len() && #[trigger] b[p].kind == k;
            assert(p < a.len());
            assert(a[p].kind == k);
        }
    }
    let expect = columns_of(a).insert(e.kind, e.slots@);
    assert forall|k: u64| #[trigger] columns_of(b).contains_key(k) == expect.contains_key(k)
        && (expect.contains_key(k) ==> columns_of(b)[k] == expect[k]) by {
        if k != e.kind && registered_in(a, k) {
            assert(b[position_in(a, k)] == a[position_in(a, k)]);
        }
    }
    assert forall|k: u64| #[trigger] lent_of(b).contains(k) == lent_of(a).contains(k) by {
        if k != e.kind && registered_in(a, k) {
            assert(b[position_in(a, k)] == a[position_in(a, k)]);
        }
    }
    assert(columns_of(b) =~= columns_of(a).insert(e.kind, e.slots@));
    assert(lent_of(b) =~= lent_of(a));
}

/// The held columns of `es`, by kind.
spec fn columns_of<C>(es: Seq<ColumnEntry<C>>) -> Map<u64, Seq<Option<C>>> {
    Map::new(
        |k: u64| registered_in(es, k) && !es[position_in(es, k)].lent,
        |k: u64| es[position_in(es, k)].slots@,
    )
}

/// The kinds of the lent columns of `es`.
spec fn lent_of<C>(es: Seq<ColumnEntry<C>>) -> Set<u64> {
    Set::new(|k: u64| registered_in(es, k) && es[position_in(es, k)].lent)
}

/// Looks up the column of `kind`: the registry's checked cast from a kind to
/// its storage. `None` exactly when no column of that kind exists.
fn find_column<C>(es: &Vec<ColumnEntry<C>>, kind: u64) -> (r: Option<usize>)
    requires
        kinds_distinct(es@),
    ensures
        match r {
            Some(i) => i < es@.len() && es@[i as int].kind == kind && position_in(es@, kind) == i,
            None => !registered_in(es@, kind),
        },
{
    let mut i: usize = 0;
    while i < es.len()
        invariant
            i <= es@.len(),
            kinds_distinct(es@),
            forall|j: int| 0 <= j < i ==> (#[trigger] es@[j]).kind != kind,
        decreases es@.len() - i,
    {
        if es[i].kind == kind {
            proof { lemma_position(es@, i as int); }
            return Some(i);
        }
        i += 1;
    }
    None
}

/// The effect of `new_entity`: one more entity, and one more empty slot at
/// the end of every held column.
pub open spec fn entity_created<C>(pre: World<C>, post: World<C>) -> bool {
    &&& post.entities() == pre.entities() + 1
    &&& post.columns() == pre.columns().map_values(|s: Seq<Option<C>>| s.push(None))
    &&& post.lent() == pre.lent()
}

/// The effect of adding `component` of `kind` to `entity`: the column of
/// `kind` (created empty if need be) holds it in that entity's slot.
pub open spec fn component_added<C>(pre: World<C>, post: World<C>, entity: int, kind: u64, component: C) -> bool {
    &&& post.entities() == pre.entities()
    &&& post.columns() == pre.columns().insert(kind, pre.column_or_empty(kind).update(entity, Some(component)))
    &&& post.lent() == pre.lent()
}

/// The effect of lending out the column of `kind`.
pub open spec fn column_lent<C>(pre: World<C>, post: World<C>, kind: u64) -> bool {
    &&& post.entities() == pre.entities()
    &&& post.columns() == pre.columns().remove(kind)
    &&& post.lent() == pre.lent().insert(kind)
}

/// The effect of taking back the column of `kind` with contents `slots`,
/// padded with empty slots for the entities created while it was out.
pub open spec fn column_returned<C>(pre: World<C>, post: World<C>, kind: u64, slots: Seq<Option<C>>) -> bool {
    &&& post.entities() == pre.entities()
    &&& post.columns() == pre.columns().insert(
        kind,
        slots + Seq::new((pre.entities() - slots.len()) as nat, |i: int| None),
    )
    &&& post.lent() == pre.lent().remove(kind)
}

impl<C> World<C> {
    #[verifier::type_invariant]
    spec fn well_formed(self) -> bool {
        &&& kinds_distinct(self.component_vecs@)
        &&& aligned(self.component_vecs@, self.entities_count as nat)
    }

    /// The number of entities created so far; the live ids are `0 .. entities()`.
    pub closed spec fn entities(&self) -> nat {
        self.entities_count as nat
    }

    /// The columns held by the registry, by component kind (lent columns excluded).
    pub closed spec fn columns(&self) -> Map<u64, Seq<Option<C>>> {
        columns_of(self.component_vecs@)
    }

    /// The kinds whose columns are lent out to a handle.
    pub closed spec fn lent(&self) -> Set<u64> {
        lent_of(self.component_vecs@)
    }

    /// Every held column has exactly one slot per entity.
    pub open spec fn is_aligned(&self) -> bool {
        forall|k: u64| #[trigger] self.columns().contains_key(k) ==> self.columns()[k].len() == self.entities()
    }

    /// The column that `kind` has, or would have once created: `entities()`
    /// empty slots.
    pub open spec fn column_or_empty(&self, kind: u64) -> Seq<Option<C>> {
        if self.columns().contains_key(kind) {
            self.columns()[kind]
        } else {
            Seq::new(self.entities(), |i: int| None)
        }
    }

    /// The number of entities created so far.
    pub fn entities_count(&self) -> (r: usize)
        ensures
            r == self.entities(),
    {
        self.entities_count
    }

    /// A registry with no entities and no columns.
    pub fn new() -> (w: Self)
        ensures
            w.entities() == 0,
            w.columns() == Map::<u64, Seq<Option<C>>>::empty(),
            w.is_aligned(),
            w.lent() == Set::<u64>::empty(),
    {
        let w = World { entities_count: 0, component_vecs: Vec::new() };
        assert(w.columns() =~= Map::<u64, Seq<Option<C>>>::empty());
        assert(w.lent() =~= Set::<u64>::empty());
        w
    }

    /// Creates an entity: every held column gets one empty slot, and the new
    /// id is the previous entity count.
    pub fn new_entity(&mut self) -> (id: usize)
        requires
            old(self).entities() < usize::MAX,
        ensures
            id == old(self).entities(),
            entity_created(*old(self), *final(self)),
    {
        proof { use_type_invariant(&*self); }
        let entity_id = self.entities_count;
        let mut es: Vec<ColumnEntry<C>> = Vec::new();
        std::mem::swap(&mut es, &mut self.component_vecs);
        let ghost before = es@;
        let mut i: usize = 0;
        while i < es.len()
            invariant
                i <= es@.len(),
                es@.len() == before.len(),
                forall|j: int| 0 <= j < es@.len() ==> (#[trigger] es@[j]).kind == before[j].kind && es@[j].lent == before[j].lent,
                forall|j: int| 0 <= j < i && !before[j].lent ==> #[trigger] es@[j].slots@ == before[j].slots@.push(None),
                forall|j: int| 0 <= j < es@.len() && (i <= j || before[j].lent) ==> #[trigger] es@[j].slots@ == before[j].slots@,
                kinds_distinct(before),
                aligned(before, entity_id as nat),
            decreases es@.len() - i,
        {
            if !es[i].lent {
                es[i].slots.push(None);
            }
            i += 1;
        }
        proof {
            lemma_same_layout(before, es@);
            assert(aligned(es@, (entity_id + 1) as nat));
        }
        *self = World { entities_count: entity_id + 1, component_vecs: es };
        proof {
            assert(self.columns() =~= old(self).columns().map_values(|s: Seq<Option<C>>| s.push(None)));
            assert(self.lent() =~= old(self).lent());
        }
        entity_id
    }

    /// Gives `entity` the component `component` of kind `kind`, replacing any
    /// earlier component of that kind. The column of `kind` is created on first
    /// use, with an empty slot for every entity.
    pub fn add_component_to_entity(&mut self, entity: usize, kind: u64, component: C) -> (r: Result<(), AccessError>)
        ensures
            entity >= old(self).entities() ==> r == Err::<(), AccessError>(AccessError::UnknownEntity),
            entity < old(self).entities() && old(self).lent().contains(kind) ==> r == Err::<(), AccessError>(
                AccessError::ColumnBorrowed,
            ),
            r is Err ==> *final(self) == *old(self),
            entity < old(self).entities() && !old(self).lent().contains(kind) ==> r is Ok && component_added(
                *old(self),
                *final(self),
                entity as int,
                kind,
                component,
            ),
    {
        proof { use_type_invariant(&*self); }
        if entity >= self.entities_count {
            return Err(AccessError::UnknownEntity);
        }
        let count = self.entities_count;
        match find_column(&self.component_vecs, kind) {
            Some(i) => {
                if self.component_vecs[i].lent {
                    return Err(AccessError::ColumnBorrowed);
                }
                let mut es: Vec<ColumnEntry<C>> = Vec::new();
                std::mem::swap(&mut es, &mut self.component_vecs);
                let ghost before = es@;
                let mut entry = ColumnEntry { kind, lent: true, slots: Vec::new() };
                std::mem::swap(&mut entry, &mut es[i]);
                entry.slots.set(entity, Some(component));
                es.set(i, entry);
                proof {
                    lemma_position(before, i as int);
                    assert(old(self).columns().contains_key(kind));
                    assert(old(self).column_or_empty(kind) == before[i as int].slots@);
                    lemma_replace_entry(before, i as int, es@[i as int]);
                    assert(es@ == before.update(i as int, es@[i as int]));
                }
                self.component_vecs = es;
                proof {
                    assert(self.entities() == old(self).entities());
                    assert(self.lent() == old(self).lent());
                    assert(self.columns() == columns_of(before).insert(
                        kind,
                        before[i as int].slots@.update(entity as int, Some(component)),
                    ));
                    assert(component_added(*old(self), *self, entity as int, kind, component));
                }
            },
            None => {
                let mut slots: Vec<Option<C>> = Vec::new();
                let mut n: usize = 0;
                while n < count
                    invariant
                        n <= count,
                        slots@.len() == n,
                        forall|j: int| 0 <= j < n ==> #[trigger] slots@[j] is None,
                    decreases count - n,
                {
                    slots.push(None);
                    n += 1;
                }
                proof {
                    assert(!old(self).columns().contains_key(kind));
                    assert(slots@ =~= old(self).column_or_empty(kind));
                }
                slots.set(entity, Some(component));
                let mut es: Vec<ColumnEntry<C>> = Vec::new();
                std::mem::swap(&mut es, &mut self.component_vecs);
                let ghost before = es@;
                let entry = ColumnEntry { kind, lent: false, slots };
                proof { lemma_push_entry(before, entry); }
                es.push(entry);
                self.component_vecs = es;
                proof {
                    assert(self.columns() == columns_of(before).insert(kind, entry.slots@));
                    assert(component_added(*old(self), *self, entity as int, kind, component));
                }
            },
        }
        Ok(())
    }

    /// Lends out the column of `kind`. `Ok(None)` when no column of that kind
    /// was ever created; an error when it is already lent out. Until the handle
    /// is handed back, the registry no longer holds that column.
    pub fn borrow_component_vec(&mut self, kind: u64) -> (r: Result<Option<ColumnHandle<C>>, AccessError>)
        ensures
            old(self).lent().contains(kind) ==> r == Err::<Option<ColumnHandle<C>>, AccessError>(
                AccessError::ColumnBorrowed,
            ),
            !old(self).lent().contains(kind) && !old(self).columns().contains_key(kind) ==> r == Ok::<
                Option<ColumnHandle<C>>,
                AccessError,
            >(None),
            !old(self).columns().contains_key(kind) ==> *final(self) == *old(self),
            old(self).columns().contains_key(kind) ==> column_lent(*old(self), *final(self), kind) && (r matches Ok(
                Some(h),
            ) && h.spec_kind() == kind && h.spec_slots() == old(self).columns()[kind]),
    {
        proof { use_type_invariant(&*self); }
        match find_column(&self.component_vecs, kind) {
            None => {
                Ok(None)
            },
            Some(i) => {
                if self.component_vecs[i].lent {
                    return Err(AccessError::ColumnBorrowed);
                }
                let mut es: Vec<ColumnEntry<C>> = Vec::new();
                std::mem::swap(&mut es, &mut self.component_vecs);
                let ghost before = es@;
                let mut entry = ColumnEntry { kind, lent: true, slots: Vec::new() };
                std::mem::swap(&mut entry, &mut es[i]);
                proof {
                    lemma_position(before, i as int);
                    lemma_replace_entry(before, i as int, es@[i as int]);
                    assert(es@ == before.update(i as int, es@[i as int]));
                }
                self.component_vecs = es;
                Ok(Some(ColumnHandle { kind, slots: entry.slots }))
            },
        }
    }

    /// Takes back a column lent out by `borrow_component_vec`, with the
    /// changes made through the handle. Entities created meanwhile get empty
    /// slots. Refused when no column of the handle's kind is lent out, or the
    /// handle has more slots than there are entities.
    pub fn release_component_vec(&mut self, handle: ColumnHandle<C>) -> (r: Result<(), AccessError>)
        ensures
            !old(self).lent().contains(handle.spec_kind()) || handle.spec_slots().len() > old(self).entities()
                ==> r == Err::<(), AccessError>(AccessError::NotLent),
            r is Err ==> *final(self) == *old(self),
            old(self).lent().contains(handle.spec_kind()) && handle.spec_slots().len() <= old(self).entities() ==> r is Ok
                && column_returned(*old(self), *final(self), handle.spec_kind(), handle.spec_slots()),
    {
        proof { use_type_invariant(&*self); }
        let kind = handle.kind;
        let mut slots = handle.slots;
        let count = self.entities_count;
        if slots.len() > count {
            return Err(AccessError::NotLent);
        }
        match find_column(&self.component_vecs, kind) {
            None => {
                Err(AccessError::NotLent)
            },
            Some(i) => {
                if !self.component_vecs[i].lent {
                    return Err(AccessError::NotLent);
                }
                let ghost given = slots@;
                while slots.len() < count
                    invariant
                        given.len() <= slots@.len() <= count,
                        slots@ =~= given + Seq::new((slots@.len() - given.len()) as nat, |j: int| None),
                    decreases count - slots@.len(),
                {
                    slots.push(None);
                }
                let mut es: Vec<ColumnEntry<C>> = Vec::new();
                std::mem::swap(&mut es, &mut self.component_vecs);
                let ghost before = es@;
                let entry = ColumnEntry { kind, lent: false, slots };
                proof {
                    lemma_position(before, i as int);
                    lemma_replace_entry(before, i as int, entry);
                }
                es.set(i, entry);
                self.component_vecs = es;
                Ok(())
            },
        }
    }
}

} // verus!
