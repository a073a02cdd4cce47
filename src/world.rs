//! The world: the entity registry and one component pool per component type.
use vstd::prelude::*;

use std::collections::HashMap;

use crate::component::{Component, ComponentType};
use crate::component_pool::{ComponentError, ComponentPool, MAX_ENTITIES};
use crate::entity::Entity;
use crate::sparse_set::key_error;

verus! {

broadcast use vstd::std_specs::hash::group_hash_axioms;

/// Owns the entities and, for each component type that some entity has, the
/// pool of that type.
#[derive(Debug)]
pub struct World<V> {
    entities: Vec<Entity>,
    component_pools: HashMap<ComponentType, ComponentPool<V>>,
}

/// The outcome of storing `c`, of component type `t`, for entity `e`: the
/// result `r` and how the world `new` relates to the world `old`.
pub open spec fn component_stored<V>(
    old: World<V>,
    new: World<V>,
    e: Entity,
    t: ComponentType,
    c: V,
    r: Result<Option<V>, ComponentError>,
) -> bool {
    let id = e.spec_id() as int;
    &&& new.wf()
    &&& new.spec_entities() == old.spec_entities()
    &&& r is Ok <==> e.spec_id() < MAX_ENTITIES
    &&& match r {
        Ok(prev) => {
            &&& new.spec_pools().dom() == old.spec_pools().dom().insert(t)
            &&& new.spec_pools().remove(t) == old.spec_pools().remove(t)
            &&& new.pool_view(t) == old.pool_view(t).insert(id, c)
            &&& prev == (if old.pool_view(t).contains_key(id) {
                Some(old.pool_view(t)[id])
            } else {
                None
            })
            &&& new.pool_entities(t) == (if old.pool_view(t).contains_key(id) {
                old.pool_entities(t)
            } else {
                old.pool_entities(t).push(e)
            })
        },
        Err(err) => {
            &&& err == ComponentError::InvalidKey(key_error(e, MAX_ENTITIES as nat))
            &&& new.spec_pools() == old.spec_pools()
        },
    }
}

impl<V> World<V> {
    /// Entity `i` of the registry has id `i` and version 0; each pool is
    /// consistent and stored under its own component type.
    pub closed spec fn wf(&self) -> bool {
        &&& self.entities@.len() <= u64::MAX
        &&& forall|i: int|
            0 <= i < self.entities@.len() ==> {
                &&& (#[trigger] self.entities@[i]).spec_id() == i
                &&& self.entities@[i].spec_version() == 0
            }
        &&& forall|t: ComponentType| #[trigger]
            self.component_pools@.contains_key(t) ==> {
                &&& self.component_pools@[t].wf()
                &&& self.component_pools@[t].spec_component_type() == t
            }
    }

    /// The entities in creation order.
    pub closed spec fn spec_entities(&self) -> Seq<Entity> {
        self.entities@
    }

    /// The pools by component type.
    pub closed spec fn spec_pools(&self) -> Map<ComponentType, ComponentPool<V>> {
        self.component_pools@
    }

    /// The components of type `t` by entity id; empty where no pool exists.
    pub open spec fn pool_view(&self, t: ComponentType) -> Map<int, V> {
        if self.spec_pools().contains_key(t) {
            self.spec_pools()[t]@
        } else {
            Map::empty()
        }
    }

    /// The entities with a component of type `t`, in the pool's order.
    pub open spec fn pool_entities(&self, t: ComponentType) -> Seq<Entity> {
        if self.spec_pools().contains_key(t) {
            self.spec_pools()[t].spec_entities()
        } else {
            Seq::empty()
        }
    }

    /// The entities of a world carry strictly increasing ids, all with
    /// version 0: no two entities share an id.
    pub proof fn lemma_entity_ids(&self)
        requires
            self.wf(),
        ensures
            forall|i: int, j: int|
                0 <= i < j < self.spec_entities().len() ==> #[trigger] self.spec_entities()[i].spec_id()
                    < #[trigger] self.spec_entities()[j].spec_id(),
            forall|i: int|
                0 <= i < self.spec_entities().len() ==> (#[trigger] self.spec_entities()[i]).spec_version()
                    == 0,
    {
    }

    /// Each pool of a consistent world is consistent and has its own type.
    pub proof fn lemma_pools_wf(&self, t: ComponentType)
        requires
            self.wf(),
            self.spec_pools().contains_key(t),
        ensures
            self.spec_pools()[t].wf(),
            self.spec_pools()[t].spec_component_type() == t,
    {
    }

    /// A world with no entities and no pools.
    pub fn new() -> (r: Self)
        ensures
            r.wf(),
            r.spec_entities().len() == 0,
            r.spec_pools() == Map::<ComponentType, ComponentPool<V>>::empty(),
    {
        let r = World { entities: Vec::new(), component_pools: HashMap::new() };
        assert(r.component_pools@ =~= Map::empty());
        r
    }

    /// Appends a new entity. Its id is the number of entities created before
    /// it and its version is 0.
    pub fn create_entity(&mut self) -> (r: Entity)
        requires
            old(self).wf(),
            old(self).spec_entities().len() < u64::MAX,
        ensures
            final(self).wf(),
            r.spec_id() == old(self).spec_entities().len(),
            r.spec_version() == 0,
            final(self).spec_entities() == old(self).spec_entities().push(r),
            final(self).spec_pools() == old(self).spec_pools(),
    {
        let entity_id = self.entities.len() as u64;
        let new_entity = Entity::new(entity_id, 0);
        self.entities.push(new_entity);
        new_entity
    }

    /// The entities in creation order.
    pub fn entities(&self) -> (r: &Vec<Entity>)
        ensures
            r@ == self.spec_entities(),
    {
        &self.entities
    }

    /// Stores `component`, of component type `component_type`, for `entity`,
    /// creating the pool of that type on first use, and returns the component
    /// it replaced. An entity whose id is out of the pools' range is refused
    /// and the world is left as it was.
    pub fn insert_component(
        &mut self,
        entity: Entity,
        component_type: ComponentType,
        component: V,
    ) -> (r: Result<Option<V>, ComponentError>)
        requires
            old(self).wf(),
        ensures
            component_stored(*old(self), *final(self), entity, component_type, component, r),
    {
        let t = component_type;
        let existed = self.component_pools.contains_key(&t);
        let mut pool = match self.component_pools.remove(&t) {
            Some(p) => p,
            None => ComponentPool::new(t),
        };
        assert(pool.wf() && pool.spec_component_type() == t);
        assert(pool@ == old(self).pool_view(t));
        assert(pool.spec_entities() == old(self).pool_entities(t));
        let r = pool.add_component(entity, t, component);
        if r.is_ok() || existed {
            self.component_pools.insert(t, pool);
        }
        proof {
            assert(self.entities@ == old(self).entities@);
            assert forall|u: ComponentType| #[trigger]
                self.component_pools@.contains_key(u) implies {
                &&& self.component_pools@[u].wf()
                &&& self.component_pools@[u].spec_component_type() == u
            } by {
                if u != t {
                    assert(old(self).component_pools@.contains_key(u));
                }
            }
            assert(self.wf());
            if r is Ok {
                assert(self.component_pools@.remove(t) =~= old(self).component_pools@.remove(t));
                assert(self.component_pools@.dom() =~= old(self).component_pools@.dom().insert(t));
            } else {
                assert(self.component_pools@ =~= old(self).component_pools@);
            }
        }
        r
    }

    /// Exclusive access to the component of type `component_type` of `entity`,
    /// if it has one. Whatever is written through it becomes that component.
    pub fn component_mut(&mut self, entity: &Entity, component_type: ComponentType) -> (r: Option<
        &mut V,
    >)
        requires
            old(self).wf(),
        ensures
            match r {
                Some(v) => {
                    &&& old(self).pool_view(component_type).contains_key(entity.spec_id() as int)
                    &&& *v == old(self).pool_view(component_type)[entity.spec_id() as int]
                },
                None => {
                    &&& !old(self).pool_view(component_type).contains_key(entity.spec_id() as int)
                    &&& final(self).spec_pools() == old(self).spec_pools()
                },
            },
            final(self).spec_entities() == old(self).spec_entities(),
            r is Some ==> {
                &&& final(self).wf()
                &&& final(self).spec_pools().dom() == old(self).spec_pools().dom()
                &&& final(self).spec_pools().remove(component_type) == old(self).spec_pools().remove(
                    component_type,
                )
                &&& final(self).pool_view(component_type) == old(self).pool_view(
                    component_type,
                ).insert(entity.spec_id() as int, *final(r.unwrap()))
                &&& final(self).pool_entities(component_type) == old(self).pool_entities(
                    component_type,
                )
            },
    {
        match self.component_pools.entry(component_type) {
            std::collections::hash_map::Entry::Occupied(o) => {
                let pool = o.into_mut();
                pool.get_mut(entity)
            },
            std::collections::hash_map::Entry::Vacant(_) => None,
        }
    }

    /// The pool of component type `component_type`, if any entity ever got a
    /// component of that type.
    pub fn component_pool(&self, component_type: ComponentType) -> (r: Option<
        &ComponentPool<V>,
    >)
        ensures
            match r {
                Some(p) => self.spec_pools().contains_key(component_type) && *p
                    == self.spec_pools()[component_type],
                None => !self.spec_pools().contains_key(component_type),
            },
    {
        self.component_pools.get(&component_type)
    }
}

impl<V: Component> World<V> {
    /// Stores `component` for `entity` in the pool of the component type that
    /// the value reports, creating that pool on first use. Returns the
    /// component it replaced; an entity whose id is out of the pools' range is
    /// refused and the world is left as it was.
    pub fn add_component(&mut self, entity: Entity, component: V) -> (r: Result<
        Option<V>,
        ComponentError,
    >)
        requires
            old(self).wf(),
        ensures
            exists|t: ComponentType|
                component_stored(*old(self), *final(self), entity, t, component, r),
    {
        let t = component.component_type();
        self.insert_component(entity, t, component)
    }
}

} // verus!
