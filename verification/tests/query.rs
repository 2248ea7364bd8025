use ecs::entities::query::Query;
use ecs::entities::Entities;
use ecs::errors::EcsError;

/// The component kinds these tests attach, as one closed value type.
#[derive(Clone, Copy, Debug, PartialEq)]
enum Component {
    Location(f32, f32),
    Size(f32),
}

const LOCATION: u64 = 100;
const SIZE: u64 = 200;

#[test]
fn query_mask_updating_with_component() {
    let mut entities: Entities<Component> = Entities::new();
    entities.register_component(LOCATION).unwrap();
    entities.register_component(SIZE).unwrap();
    let mut query = Query::new(&entities);
    query.with_component(LOCATION).unwrap();
    query.with_component(SIZE).unwrap();
    assert_eq!(query.map, 3);
}

#[test]
fn entities_create_entity() {
    let mut world: Entities<Component> = Entities::new();
    world.register_component(LOCATION).unwrap();
    world.register_component(SIZE).unwrap();

    world.create_entity();
    world
        .with_component(LOCATION, Component::Location(42.0, 24.0))
        .unwrap();
    world.with_component(SIZE, Component::Size(10.0)).unwrap();
}

#[test]
fn query_for_entities() {
    let mut world: Entities<Component> = Entities::new();
    world.register_component(LOCATION).unwrap();
    world.register_component(SIZE).unwrap();

    world.create_entity();
    world
        .with_component(LOCATION, Component::Location(42.0, 24.0))
        .unwrap();
    world.with_component(SIZE, Component::Size(10.0)).unwrap();

    world.create_entity();
    world.with_component(SIZE, Component::Size(11.0)).unwrap();

    world.create_entity();
    world
        .with_component(LOCATION, Component::Location(43.0, 25.0))
        .unwrap();

    world.create_entity();
    world
        .with_component(LOCATION, Component::Location(44.0, 26.0))
        .unwrap();
    world.with_component(SIZE, Component::Size(12.0)).unwrap();

    let mut query = world.query();
    query.with_component(LOCATION).unwrap();
    query.with_component(SIZE).unwrap();
    let groups = query.run();

    let locations = &groups[0];
    let sizes = &groups[1];

    assert_eq!(locations.len(), sizes.len());
    assert_eq!(locations.len(), 2);
    assert_eq!(locations[0], Component::Location(42.0, 24.0));
    assert_eq!(sizes[0], Component::Size(10.0));
    assert_eq!(locations[1], Component::Location(44.0, 26.0));
    assert_eq!(sizes[1], Component::Size(12.0));
}

#[test]
fn query_requires_only_registered_types() {
    let mut entities: Entities<Component> = Entities::new();
    entities.register_component(LOCATION).unwrap();
    let mut query = Query::new(&entities);
    let r = query.with_component(SIZE);
    assert_eq!(r, Err(EcsError::TypeNotRegistered));
    assert_eq!(query.map, 0);
    assert_eq!(query.required.len(), 0);
}

#[test]
fn entity_missing_one_required_type_never_matches() {
    let mut world: Entities<Component> = Entities::new();
    world.register_component(LOCATION).unwrap();
    world.register_component(SIZE).unwrap();

    world.create_entity();
    world
        .with_component(LOCATION, Component::Location(1.0, 2.0))
        .unwrap();

    let mut query = world.query();
    query.with_component(LOCATION).unwrap();
    query.with_component(SIZE).unwrap();
    let groups = query.run();
    assert_eq!(groups.len(), 2);
    assert_eq!(groups[0].len(), 0);
    assert_eq!(groups[1].len(), 0);
}

#[test]
fn query_with_no_required_types_yields_no_groups() {
    let mut world: Entities<Component> = Entities::new();
    world.register_component(LOCATION).unwrap();
    world.create_entity();
    world
        .with_component(LOCATION, Component::Location(5.0, 6.0))
        .unwrap();

    let query = world.query();
    let groups = query.run();
    assert_eq!(groups.len(), 0);
}

#[test]
fn group_order_follows_require_call_order() {
    let mut world: Entities<Component> = Entities::new();
    world.register_component(LOCATION).unwrap();
    world.register_component(SIZE).unwrap();

    world.create_entity();
    world
        .with_component(LOCATION, Component::Location(7.0, 8.0))
        .unwrap();
    world.with_component(SIZE, Component::Size(9.0)).unwrap();

    let mut query = world.query();
    query.with_component(SIZE).unwrap();
    query.with_component(LOCATION).unwrap();
    let groups = query.run();
    assert_eq!(groups[0][0], Component::Size(9.0));
    assert_eq!(groups[1][0], Component::Location(7.0, 8.0));
}
