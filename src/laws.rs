use vstd::prelude::*;

use crate::world::{column_lent, column_returned, component_added, entity_created, World};

verus! {

/// Creating an entity keeps every held column at one slot per entity.
pub proof fn lemma_entity_created_aligned<C>(pre: World<C>, post: World<C>)
    requires
        pre.is_aligned(),
        entity_created(pre, post),
    ensures
        post.is_aligned(),
{
    assert forall|k: u64| #[trigger] post.columns().contains_key(k) implies post.columns()[k].len() == post.entities() by {
        assert(pre.columns().contains_key(k));
    }
}

/// Adding a component keeps every held column at one slot per entity.
pub proof fn lemma_component_added_aligned<C>(pre: World<C>, post: World<C>, entity: int, kind: u64, component: C)
    requires
        pre.is_aligned(),
        0 <= entity < pre.entities(),
        component_added(pre, post, entity, kind, component),
    ensures
        post.is_aligned(),
{
    assert forall|k: u64| #[trigger] post.columns().contains_key(k) implies post.columns()[k].len() == post.entities() by {
        if k != kind {
            assert(pre.columns().contains_key(k));
        }
    }
}

/// Overwrite: adding a component of one kind to one entity twice leaves the
/// registry as if only the second had been added.
pub proof fn lemma_overwrite<C>(
    w0: World<C>,
    w1: World<C>,
    w2: World<C>,
    entity: int,
    kind: u64,
    first: C,
    second: C,
)
    requires
        w0.is_aligned(),
        0 <= entity < w0.entities(),
        component_added(w0, w1, entity, kind, first),
        component_added(w1, w2, entity, kind, second),
    ensures
        component_added(w0, w2, entity, kind, second),
        w2.columns()[kind][entity] == Some(second),
{
    let base = w0.column_or_empty(kind);
    assert(w1.columns().contains_key(kind));
    assert(w1.column_or_empty(kind) == base.update(entity, Some(first)));
    assert(base.update(entity, Some(first)).update(entity, Some(second)) =~= base.update(entity, Some(second)));
    assert(w2.columns() =~= w0.columns().insert(kind, base.update(entity, Some(second))));
}

/// Absence: adding a component touches the slot of that entity in that
/// kind's column and no other; a slot that was empty stays empty.
pub proof fn lemma_other_slots_untouched<C>(
    pre: World<C>,
    post: World<C>,
    entity: int,
    kind: u64,
    component: C,
    other_entity: int,
    other_kind: u64,
)
    requires
        pre.is_aligned(),
        0 <= entity < pre.entities(),
        0 <= other_entity < pre.entities(),
        other_entity != entity || other_kind != kind,
        component_added(pre, post, entity, kind, component),
    ensures
        post.column_or_empty(other_kind)[other_entity] == pre.column_or_empty(other_kind)[other_entity],
{
}

/// Absence: a new entity has an empty slot in every column, and the slots of
/// the older entities keep their values.
pub proof fn lemma_new_entity_slots_empty<C>(pre: World<C>, post: World<C>, kind: u64)
    requires
        pre.is_aligned(),
        entity_created(pre, post),
    ensures
        post.column_or_empty(kind)[pre.entities() as int] is None,
        post.column_or_empty(kind).subrange(0, pre.entities() as int) == pre.column_or_empty(kind),
{
    if pre.columns().contains_key(kind) {
        assert(post.columns()[kind] == pre.columns()[kind].push(None));
        assert(post.columns()[kind].subrange(0, pre.entities() as int) =~= pre.columns()[kind]);
    } else {
        assert(post.column_or_empty(kind).subrange(0, pre.entities() as int) =~= pre.column_or_empty(kind));
    }
}

/// A change made through a lent column is what the registry holds once the
/// column is handed back, and so what the next borrow of it sees.
pub proof fn lemma_change_through_handle_visible<C>(
    w0: World<C>,
    w1: World<C>,
    w2: World<C>,
    kind: u64,
    entity: int,
    value: Option<C>,
)
    requires
        w0.is_aligned(),
        w0.columns().contains_key(kind),
        !w0.lent().contains(kind),
        0 <= entity < w0.entities(),
        column_lent(w0, w1, kind),
        column_returned(w1, w2, kind, w0.columns()[kind].update(entity, value)),
    ensures
        w2.entities() == w0.entities(),
        w2.columns() == w0.columns().insert(kind, w0.columns()[kind].update(entity, value)),
        w2.columns()[kind][entity] == value,
        w2.lent() == w0.lent(),
{
    let changed = w0.columns()[kind].update(entity, value);
    assert(changed + Seq::new(0, |i: int| None) =~= changed);
    assert(w2.columns() =~= w0.columns().insert(kind, changed));
    assert(w2.lent() =~= w0.lent());
}

/// Growth: on a registry without columns, creating entities creates no
/// column.
pub proof fn lemma_growth_without_columns<C>(pre: World<C>, post: World<C>)
    requires
        pre.columns() == Map::<u64, Seq<Option<C>>>::empty(),
        entity_created(pre, post),
    ensures
        post.columns() == Map::<u64, Seq<Option<C>>>::empty(),
        post.entities() == pre.entities() + 1,
{
    assert(post.columns() =~= Map::<u64, Seq<Option<C>>>::empty());
}

/// Growth: the first column created after `n` entities has `n` slots, all
/// empty but the one that received the component.
pub proof fn lemma_first_column_size<C>(pre: World<C>, post: World<C>, entity: int, kind: u64, component: C)
    requires
        pre.columns() == Map::<u64, Seq<Option<C>>>::empty(),
        0 <= entity < pre.entities(),
        component_added(pre, post, entity, kind, component),
    ensures
        post.columns().dom() == set![kind],
        post.columns()[kind].len() == pre.entities(),
        post.columns()[kind][entity] == Some(component),
        forall|i: int| 0 <= i < pre.entities() && i != entity ==> post.columns()[kind][i] is None,
{
    assert(post.columns().dom() =~= set![kind]);
}

} // verus!
