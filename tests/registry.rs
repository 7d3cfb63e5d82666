use ecs::{join_rows, AccessError, ColumnHandle, World};

const HEALTH: u64 = 0;
const NAME: u64 = 1;

#[derive(Debug, Clone, PartialEq)]
enum Component {
    Health(i32),
    Name(&'static str),
}

fn lend(world: &mut World<Component>, kind: u64) -> ColumnHandle<Component> {
    match world.borrow_component_vec(kind) {
        Ok(Some(handle)) => handle,
        other => panic!("column {} not lent: {:?}", kind, other.err()),
    }
}

/// Entities 0, 1 and 2 with {Name, Health}, {Name, Health} and {Name}.
fn three_entities() -> World<Component> {
    let mut world = World::new();
    let e0 = world.new_entity();
    world.add_component_to_entity(e0, NAME, Component::Name("Dylan")).unwrap();
    world.add_component_to_entity(e0, HEALTH, Component::Health(10)).unwrap();
    let e1 = world.new_entity();
    world.add_component_to_entity(e1, NAME, Component::Name("Vicky")).unwrap();
    world.add_component_to_entity(e1, HEALTH, Component::Health(10)).unwrap();
    let e2 = world.new_entity();
    world.add_component_to_entity(e2, NAME, Component::Name("Bruce")).unwrap();
    world
}

#[test]
fn new_registry_is_empty() {
    let mut world: World<Component> = World::new();
    assert_eq!(world.entities_count(), 0);
    assert!(matches!(world.borrow_component_vec(HEALTH), Ok(None)));
}

#[test]
fn entity_ids_are_dense() {
    let mut world: World<Component> = World::new();
    assert_eq!(world.new_entity(), 0);
    assert_eq!(world.new_entity(), 1);
    assert_eq!(world.new_entity(), 2);
    assert_eq!(world.entities_count(), 3);
}

#[test]
fn columns_stay_aligned() {
    let mut world = World::new();
    let e0 = world.new_entity();
    world.add_component_to_entity(e0, HEALTH, Component::Health(1)).unwrap();
    for _ in 0..4 {
        world.new_entity();
    }
    world.add_component_to_entity(3, NAME, Component::Name("Ann")).unwrap();
    let health = lend(&mut world, HEALTH);
    let name = lend(&mut world, NAME);
    assert_eq!(health.len(), 5);
    assert_eq!(name.len(), 5);
    assert_eq!(health.slots().len(), world.entities_count());
}

#[test]
fn second_add_overwrites_first() {
    let mut world = World::new();
    let e = world.new_entity();
    world.add_component_to_entity(e, HEALTH, Component::Health(10)).unwrap();
    world.add_component_to_entity(e, HEALTH, Component::Health(30)).unwrap();
    let health = lend(&mut world, HEALTH);
    assert_eq!(health.slots(), &vec![Some(Component::Health(30))]);
}

#[test]
fn missing_component_reads_empty() {
    let mut world = three_entities();
    let health = lend(&mut world, HEALTH);
    assert_eq!(health.get(2), &None);
    assert_eq!(health.get(0), &Some(Component::Health(10)));
}

#[test]
fn never_created_column_is_absent() {
    let mut world = three_entities();
    assert!(matches!(world.borrow_component_vec(7), Ok(None)));
}

#[test]
fn join_keeps_rows_present_in_both() {
    let mut world = three_entities();
    let health = lend(&mut world, HEALTH);
    let name = lend(&mut world, NAME);
    assert_eq!(join_rows(health.slots(), name.slots()), vec![0, 1]);
}

#[test]
fn join_of_uneven_and_empty_columns() {
    let left: Vec<Option<i32>> = vec![Some(1), None, Some(3), Some(4)];
    let right: Vec<Option<&str>> = vec![Some("a"), Some("b"), Some("c")];
    assert_eq!(join_rows(&left, &right), vec![0, 2]);
    let empty: Vec<Option<i32>> = Vec::new();
    assert_eq!(join_rows(&empty, &right), Vec::<usize>::new());
    let all_none: Vec<Option<i32>> = vec![None, None, None];
    assert_eq!(join_rows(&all_none, &right), Vec::<usize>::new());
}

#[test]
fn change_through_handle_is_visible_after_release() {
    let mut world = three_entities();
    let mut health = lend(&mut world, HEALTH);
    health.set(1, Some(Component::Health(20)));
    world.release_component_vec(health).unwrap();
    let health = lend(&mut world, HEALTH);
    assert_eq!(health.get(1), &Some(Component::Health(20)));
    assert_eq!(health.get(0), &Some(Component::Health(10)));
}

#[test]
fn growth_before_first_column() {
    let mut world = World::new();
    for _ in 0..5 {
        world.new_entity();
    }
    world.add_component_to_entity(2, HEALTH, Component::Health(7)).unwrap();
    let health = lend(&mut world, HEALTH);
    assert_eq!(
        health.slots(),
        &vec![None, None, Some(Component::Health(7)), None, None]
    );
}

#[test]
fn health_name_scenario() {
    let mut world = three_entities();
    let mut health = lend(&mut world, HEALTH);
    let name = lend(&mut world, NAME);
    let mut pairs = Vec::new();
    for row in join_rows(health.slots(), name.slots()) {
        if name.get(row) == &Some(Component::Name("Vicky")) {
            health.set(row, Some(Component::Health(20)));
        }
        pairs.push((health.get(row).clone().unwrap(), name.get(row).clone().unwrap()));
    }
    assert_eq!(
        pairs,
        vec![
            (Component::Health(10), Component::Name("Dylan")),
            (Component::Health(20), Component::Name("Vicky")),
        ]
    );
}

#[test]
fn unknown_entity_is_refused() {
    let mut world = three_entities();
    assert_eq!(
        world.add_component_to_entity(3, HEALTH, Component::Health(1)),
        Err(AccessError::UnknownEntity)
    );
    let health = lend(&mut world, HEALTH);
    assert_eq!(health.len(), 3);
}

#[test]
fn second_borrow_is_refused() {
    let mut world = three_entities();
    let _health = lend(&mut world, HEALTH);
    assert!(matches!(
        world.borrow_component_vec(HEALTH),
        Err(AccessError::ColumnBorrowed)
    ));
    assert_eq!(
        world.add_component_to_entity(0, HEALTH, Component::Health(5)),
        Err(AccessError::ColumnBorrowed)
    );
}

#[test]
fn foreign_handle_is_refused() {
    let mut world = three_entities();
    let mut other = three_entities();
    let handle = lend(&mut other, HEALTH);
    assert_eq!(world.release_component_vec(handle), Err(AccessError::NotLent));
    let health = lend(&mut world, HEALTH);
    assert_eq!(health.kind(), HEALTH);
}

#[test]
fn entities_created_while_lent_get_empty_slots() {
    let mut world = three_entities();
    let health = lend(&mut world, HEALTH);
    let e3 = world.new_entity();
    assert_eq!(e3, 3);
    world.add_component_to_entity(e3, NAME, Component::Name("Eve")).unwrap();
    world.release_component_vec(health).unwrap();
    let health = lend(&mut world, HEALTH);
    assert_eq!(health.len(), 4);
    assert_eq!(health.get(3), &None);
    let name = lend(&mut world, NAME);
    assert_eq!(name.get(3), &Some(Component::Name("Eve")));
}
