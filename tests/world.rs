use melevo::component::{Component, ComponentType};
use melevo::component_pool::{ComponentError, ComponentPool, MAX_ENTITIES};
use melevo::entity::Entity;
use melevo::query::Query;
use melevo::query_param::{QueryParam, QueryParamList};
use melevo::schedule::{Schedule, System};
use melevo::sparse_set::InvalidKeyErrorKind;
use melevo::world::World;

const POSITION: ComponentType = 1;
const VELOCITY: ComponentType = 2;
const HEALTH: ComponentType = 3;

#[derive(Debug, Clone, PartialEq)]
enum Comp {
    Position(i32, i32),
    Velocity(i32),
    Health(u32),
}

impl Component for Comp {
    fn component_type(&self) -> ComponentType {
        match self {
            Comp::Position(_, _) => POSITION,
            Comp::Velocity(_) => VELOCITY,
            Comp::Health(_) => HEALTH,
        }
    }
}

fn collect(world: &World<Comp>, params: QueryParamList) -> Vec<(u64, Vec<Comp>)> {
    let query = Query::new(world, params);
    let mut it = query.iter();
    let mut out = Vec::new();
    while let Some(item) = it.next() {
        out.push((item.entity.id(), item.components.iter().map(|c| (*c).clone()).collect()));
    }
    out
}

#[test]
fn create_entity_gives_increasing_ids_with_version_zero() {
    let mut world: World<Comp> = World::new();
    let mut ids = Vec::new();
    for _ in 0..5 {
        let e = world.create_entity();
        assert_eq!(e.version(), 0);
        ids.push(e.id());
    }
    assert_eq!(ids, vec![0, 1, 2, 3, 4]);
    assert_eq!(world.entities().len(), 5);
    assert_eq!(world.entities()[3], Entity::new(3, 0));
}

#[test]
fn add_component_creates_one_pool_per_type() {
    let mut world: World<Comp> = World::new();
    let a = world.create_entity();
    let b = world.create_entity();
    assert!(world.component_pool(POSITION).is_none());
    assert_eq!(world.add_component(a, Comp::Position(1, 2)).unwrap(), None);
    assert_eq!(world.add_component(b, Comp::Position(3, 4)).unwrap(), None);
    assert_eq!(world.add_component(b, Comp::Velocity(7)).unwrap(), None);
    let pos = world.component_pool(POSITION).unwrap();
    assert_eq!(pos.len(), 2);
    assert_eq!(pos.component_type(), POSITION);
    assert_eq!(pos.entities(), &vec![a, b]);
    assert_eq!(pos.get(&b), Some(&Comp::Position(3, 4)));
    assert_eq!(world.component_pool(VELOCITY).unwrap().len(), 1);
    assert!(world.component_pool(HEALTH).is_none());
}

#[test]
fn add_component_again_replaces_and_returns_the_old_value() {
    let mut world: World<Comp> = World::new();
    let a = world.create_entity();
    world.add_component(a, Comp::Health(10)).unwrap();
    assert_eq!(world.add_component(a, Comp::Health(9)).unwrap(), Some(Comp::Health(10)));
    let pool = world.component_pool(HEALTH).unwrap();
    assert_eq!(pool.len(), 1);
    assert_eq!(pool.components(), &vec![Comp::Health(9)]);
}

#[test]
fn entity_beyond_the_pool_range_is_refused() {
    let mut world: World<Comp> = World::new();
    let far = Entity::new(MAX_ENTITIES as u64, 0);
    let err = world.add_component(far, Comp::Health(1)).unwrap_err();
    assert!(matches!(
        err,
        ComponentError::InvalidKey(InvalidKeyErrorKind::KeyBiggerThanCapacity { capacity: 1024, .. })
    ));
    assert!(world.component_pool(HEALTH).is_none());
    let last = Entity::new(MAX_ENTITIES as u64 - 1, 0);
    assert_eq!(world.insert_component(last, HEALTH, Comp::Health(2)).unwrap(), None);
}

#[test]
fn pool_refuses_a_value_of_another_type() {
    let mut pool: ComponentPool<Comp> = ComponentPool::new(POSITION);
    let e = Entity::new(0, 0);
    let err = pool.add_component(e, VELOCITY, Comp::Velocity(1)).unwrap_err();
    assert!(matches!(
        err,
        ComponentError::ComponentTypeMismatch { expected: POSITION, found: VELOCITY }
    ));
    assert_eq!(pool.len(), 0);
    assert!(!pool.contains(&e));
    pool.add_component(e, POSITION, Comp::Position(0, 0)).unwrap();
    assert!(pool.contains(&e));
    if let Some(c) = pool.get_mut(&e) {
        *c = Comp::Position(5, 5);
    }
    assert_eq!(pool.get(&e), Some(&Comp::Position(5, 5)));
}

#[test]
fn single_read_query_yields_exactly_the_entities_with_the_component() {
    let mut world: World<Comp> = World::new();
    let es: Vec<Entity> = (0..6).map(|_| world.create_entity()).collect();
    for (n, e) in es.iter().enumerate() {
        if n % 2 == 0 {
            world.add_component(*e, Comp::Health(n as u32)).unwrap();
        }
    }
    let got = collect(&world, QueryParamList::new().with(QueryParam::read(HEALTH)));
    assert_eq!(
        got,
        vec![
            (0, vec![Comp::Health(0)]),
            (2, vec![Comp::Health(2)]),
            (4, vec![Comp::Health(4)]),
        ]
    );
}

fn two_pool_world(small_is_velocity: bool) -> World<Comp> {
    let mut world: World<Comp> = World::new();
    let es: Vec<Entity> = (0..8).map(|_| world.create_entity()).collect();
    for (n, e) in es.iter().enumerate() {
        let in_big = n != 3;
        let in_small = n % 3 == 0;
        let (p, v) = if small_is_velocity { (in_big, in_small) } else { (in_small, in_big) };
        if p {
            world.add_component(*e, Comp::Position(n as i32, 0)).unwrap();
        }
        if v {
            world.add_component(*e, Comp::Velocity(n as i32)).unwrap();
        }
    }
    world
}

#[test]
fn read_write_query_yields_the_intersection_whichever_pool_is_smaller() {
    for small_is_velocity in [true, false] {
        let world = two_pool_world(small_is_velocity);
        let params = QueryParamList::new()
            .with(QueryParam::read(POSITION))
            .with(QueryParam::write(VELOCITY));
        let mut got = collect(&world, params);
        got.sort_by_key(|x| x.0);
        assert_eq!(
            got,
            vec![
                (0, vec![Comp::Position(0, 0), Comp::Velocity(0)]),
                (6, vec![Comp::Position(6, 0), Comp::Velocity(6)]),
            ]
        );
    }
}

#[test]
fn query_with_a_missing_pool_yields_nothing() {
    let world = two_pool_world(true);
    let params = QueryParamList::new()
        .with(QueryParam::read(POSITION))
        .with(QueryParam::read(HEALTH));
    assert!(collect(&world, params).is_empty());
    assert!(collect(&world, QueryParamList::new()).is_empty());
}

#[test]
fn iterator_stays_exhausted() {
    let mut world: World<Comp> = World::new();
    let e = world.create_entity();
    world.add_component(e, Comp::Velocity(1)).unwrap();
    let query = Query::new(&world, QueryParamList::new().with(QueryParam::read(VELOCITY)));
    let mut it = query.iter();
    assert_eq!(it.next().map(|i| i.entity), Some(e));
    assert!(it.next().is_none());
    assert!(it.next().is_none());
}

#[test]
fn query_types_split_reads_and_writes() {
    let params = QueryParamList::new()
        .with(QueryParam::read(POSITION))
        .with(QueryParam::write(VELOCITY))
        .with(QueryParam::read(POSITION));
    let (reads, writes) = params.query_types();
    assert_eq!(reads, vec![POSITION]);
    assert_eq!(writes, vec![VELOCITY]);
    assert_eq!(params.len(), 3);
}

struct Mover;

impl System<Comp> for Mover {
    fn run(&self, world: &mut World<Comp>) {
        let moved: Vec<(Entity, i32, i32)> = {
            let params = QueryParamList::new()
                .with(QueryParam::write(POSITION))
                .with(QueryParam::read(VELOCITY));
            let query = Query::new(&*world, params);
            let mut it = query.iter();
            let mut out = Vec::new();
            while let Some(item) = it.next() {
                if let (Comp::Position(x, y), Comp::Velocity(v)) =
                    (item.components[0], item.components[1])
                {
                    out.push((item.entity, *x + *v, *y));
                }
            }
            out
        };
        for (e, x, y) in moved {
            world.insert_component(e, POSITION, Comp::Position(x, y)).unwrap();
        }
    }
}

struct Healer;

impl System<Comp> for Healer {
    fn run(&self, world: &mut World<Comp>) {
        let e = world.entities()[0];
        world.add_component(e, Comp::Health(100)).unwrap();
    }
}

#[test]
fn scheduler_reports_access_sets_and_conflicts() {
    let mut schedule: Schedule<Healer> = Schedule::new();
    let read_a_write_b = QueryParamList::new()
        .with(QueryParam::read(POSITION))
        .with(QueryParam::write(VELOCITY));
    schedule.add_system(&read_a_write_b, Healer);
    assert_eq!(schedule.reads(0), &vec![POSITION]);
    assert_eq!(schedule.writes(0), &vec![VELOCITY]);

    let write_b = QueryParamList::new().with(QueryParam::write(VELOCITY));
    let write_a = QueryParamList::new().with(QueryParam::write(POSITION));
    schedule.add_system(&write_b, Healer);
    schedule.add_system(&write_a, Healer);
    assert_eq!(schedule.len(), 3);
    // both write VELOCITY
    assert!(schedule.conflicts(0, 1));
    assert!(schedule.conflicts(1, 0));
    // one writes only POSITION, the other only VELOCITY
    assert!(!schedule.conflicts(1, 2));
    // a reader of POSITION against a writer of POSITION
    assert!(schedule.conflicts(0, 2));
    assert_eq!(schedule.waves(), vec![0, 1, 1]);
}

#[test]
fn waves_put_independent_systems_together() {
    let mut schedule: Schedule<Healer> = Schedule::new();
    let w = |t| QueryParamList::new().with(QueryParam::write(t));
    schedule.add_system(&w(VELOCITY), Healer);
    schedule.add_system(&w(VELOCITY), Healer);
    schedule.add_system(&w(POSITION), Healer);
    schedule.add_system(&QueryParamList::new().with(QueryParam::read(HEALTH)), Healer);
    schedule.add_system(&w(HEALTH), Healer);
    assert_eq!(schedule.waves(), vec![0, 1, 0, 0, 1]);
}

#[test]
fn run_once_runs_every_system() {
    let mut world: World<Comp> = World::new();
    let e = world.create_entity();
    let f = world.create_entity();
    world.add_component(e, Comp::Position(1, 1)).unwrap();
    world.add_component(e, Comp::Velocity(2)).unwrap();
    world.add_component(f, Comp::Position(0, 0)).unwrap();
    let mut schedule: Schedule<Mover> = Schedule::new();
    let access = QueryParamList::new()
        .with(QueryParam::write(POSITION))
        .with(QueryParam::read(VELOCITY));
    schedule.add_system(&access, Mover);
    schedule.add_system(&access, Mover);
    schedule.run_once(&mut world);
    let pos = world.component_pool(POSITION).unwrap();
    assert_eq!(pos.get(&e), Some(&Comp::Position(5, 1)));
    assert_eq!(pos.get(&f), Some(&Comp::Position(0, 0)));

    let mut healers: Schedule<Healer> = Schedule::new();
    healers.add_system(&QueryParamList::new().with(QueryParam::write(HEALTH)), Healer);
    healers.run_once(&mut world);
    assert_eq!(world.component_pool(HEALTH).unwrap().get(&e), Some(&Comp::Health(100)));
}

#[test]
fn execution_order_runs_conflicting_systems_in_registration_order() {
    let mut schedule: Schedule<Healer> = Schedule::new();
    let w = |t| QueryParamList::new().with(QueryParam::write(t));
    schedule.add_system(&w(VELOCITY), Healer);
    schedule.add_system(&w(VELOCITY), Healer);
    schedule.add_system(&w(POSITION), Healer);
    schedule.add_system(&QueryParamList::new().with(QueryParam::read(HEALTH)), Healer);
    schedule.add_system(&w(HEALTH), Healer);
    assert_eq!(schedule.execution_order(), vec![0, 2, 3, 1, 4]);
    let empty: Schedule<Healer> = Schedule::new();
    assert!(empty.execution_order().is_empty());
}

#[test]
fn component_mut_writes_into_the_pool() {
    let mut world: World<Comp> = World::new();
    let e = world.create_entity();
    let f = world.create_entity();
    world.add_component(e, Comp::Velocity(1)).unwrap();
    if let Some(c) = world.component_mut(&e, VELOCITY) {
        *c = Comp::Velocity(9);
    }
    assert!(world.component_mut(&f, VELOCITY).is_none());
    assert!(world.component_mut(&e, HEALTH).is_none());
    assert!(world.component_pool(HEALTH).is_none());
    assert_eq!(world.component_pool(VELOCITY).unwrap().get(&e), Some(&Comp::Velocity(9)));
}

#[test]
fn component_at_mut_visits_every_component() {
    let mut pool: ComponentPool<Comp> = ComponentPool::new(HEALTH);
    for id in [4u64, 1, 7] {
        pool.add_component(Entity::new(id, 0), HEALTH, Comp::Health(id as u32)).unwrap();
    }
    for i in 0..pool.len() {
        let c = pool.component_at_mut(i);
        if let Comp::Health(h) = c {
            *h += 100;
        }
    }
    assert_eq!(pool.entities(), &vec![Entity::new(4, 0), Entity::new(1, 0), Entity::new(7, 0)]);
    assert_eq!(pool.get(&Entity::new(1, 0)), Some(&Comp::Health(101)));
    assert_eq!(
        pool.components(),
        &vec![Comp::Health(104), Comp::Health(101), Comp::Health(107)]
    );
}
