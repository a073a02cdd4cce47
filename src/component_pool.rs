//! The pool that stores all components of one component type.
use vstd::prelude::*;

use crate::component::ComponentType;
use crate::entity::Entity;
use crate::sparse_set::{key_error, InvalidKeyErrorKind, Key, SparseSet};

verus! {

/// The number of entity slots of every pool.
pub const MAX_ENTITIES: usize = 1024;

/// Why a component could not be stored.
#[derive(Clone, Copy, Debug)]
pub enum ComponentError {
    /// The entity's id does not address a slot of the pool.
    InvalidKey(InvalidKeyErrorKind<Entity>),
    /// The value belongs to another component type than the pool.
    ComponentTypeMismatch { expected: ComponentType, found: ComponentType },
}

/// The components of one component type, by entity.
#[derive(Debug)]
pub struct ComponentPool<V> {
    component_type: ComponentType,
    components: SparseSet<V, Entity>,
}

impl<V> View for ComponentPool<V> {
    type V = Map<int, V>;

    /// The components by entity id.
    closed spec fn view(&self) -> Map<int, V> {
        self.components@
    }
}

impl<V> ComponentPool<V> {
    pub closed spec fn wf(&self) -> bool {
        &&& self.components.wf()
        &&& self.components.spec_capacity() == MAX_ENTITIES
    }

    pub closed spec fn spec_component_type(&self) -> ComponentType {
        self.component_type
    }

    /// The entities in storage order.
    pub closed spec fn spec_entities(&self) -> Seq<Entity> {
        self.components.spec_keys()
    }

    /// The components in storage order, aligned with `spec_entities`.
    pub closed spec fn spec_components(&self) -> Seq<V> {
        self.components.spec_dense()
    }

    /// Whether the pool holds a component for the entity's id.
    pub open spec fn has(&self, e: Entity) -> bool {
        self@.contains_key(e.spec_id() as int)
    }

    /// The entity list and the map view agree: each listed entity has its
    /// component at the same position, and each id in the view is listed once.
    pub proof fn lemma_entities_agree(&self)
        requires
            self.wf(),
        ensures
            self.spec_entities().len() == self.spec_components().len(),
            forall|i: int|
                0 <= i < self.spec_entities().len() ==> {
                    let e = #[trigger] self.spec_entities()[i];
                    &&& self.has(e)
                    &&& self@[e.spec_id() as int] == self.spec_components()[i]
                },
            forall|i: int, j: int|
                0 <= i < self.spec_entities().len() && 0 <= j < self.spec_entities().len() && i
                    != j ==> #[trigger] self.spec_entities()[i].spec_id()
                    != #[trigger] self.spec_entities()[j].spec_id(),
            forall|k: int|
                #[trigger] self@.contains_key(k) ==> exists|i: int|
                    0 <= i < self.spec_entities().len() && #[trigger] self.spec_entities()[i].spec_id()
                        == k,
    {
        self.components.lemma_dense_agrees();
        assert forall|i: int| 0 <= i < self.spec_entities().len() implies {
            let e = #[trigger] self.spec_entities()[i];
            &&& self.has(e)
            &&& self@[e.spec_id() as int] == self.spec_components()[i]
        } by {
            assert(self.spec_entities()[i].key_index() == self.spec_entities()[i].spec_id());
        }
        assert forall|i: int, j: int|
            0 <= i < self.spec_entities().len() && 0 <= j < self.spec_entities().len() && i
                != j implies #[trigger] self.spec_entities()[i].spec_id()
                != #[trigger] self.spec_entities()[j].spec_id() by {
            assert(self.spec_entities()[i].key_index() == self.spec_entities()[i].spec_id());
            assert(self.spec_entities()[j].key_index() == self.spec_entities()[j].spec_id());
        }
        assert forall|k: int| #[trigger] self@.contains_key(k) implies exists|i: int|
            0 <= i < self.spec_entities().len() && #[trigger] self.spec_entities()[i].spec_id()
                == k by {
            let i = self.components.position(k);
            assert(self.spec_entities()[i].spec_id() == k);
        }
    }

    /// An empty pool for `component_type`.
    pub fn new(component_type: ComponentType) -> (r: Self)
        ensures
            r.wf(),
            r@ == Map::<int, V>::empty(),
            r.spec_component_type() == component_type,
            r.spec_entities().len() == 0,
    {
        ComponentPool { component_type, components: SparseSet::new(MAX_ENTITIES) }
    }

    pub fn component_type(&self) -> (r: ComponentType)
        ensures
            r == self.spec_component_type(),
    {
        self.component_type
    }

    /// Stores `component`, a value of `component_type`, for `entity`, and
    /// returns the component it replaced. A value of another type than the
    /// pool's, or an entity whose id is out of the pool's range, is refused
    /// and leaves the pool as it was.
    pub fn add_component(
        &mut self,
        entity: Entity,
        component_type: ComponentType,
        component: V,
    ) -> (r: Result<Option<V>, ComponentError>)
        requires
            old(self).wf(),
        ensures
            final(self).wf(),
            final(self).spec_component_type() == old(self).spec_component_type(),
            r is Ok <==> (component_type == old(self).spec_component_type() && entity.spec_id()
                < MAX_ENTITIES),
            match r {
                Ok(prev) => {
                    &&& final(self)@ == old(self)@.insert(entity.spec_id() as int, component)
                    &&& prev == (if old(self).has(entity) {
                        Some(old(self)@[entity.spec_id() as int])
                    } else {
                        None
                    })
                    &&& !old(self).has(entity) ==> final(self).spec_entities() == old(
                        self,
                    ).spec_entities().push(entity)
                    &&& old(self).has(entity) ==> final(self).spec_entities() == old(
                        self,
                    ).spec_entities()
                },
                Err(ComponentError::ComponentTypeMismatch { expected, found }) => {
                    &&& expected == old(self).spec_component_type()
                    &&& found == component_type
                    &&& found != expected
                    &&& *final(self) == *old(self)
                },
                Err(ComponentError::InvalidKey(kind)) => {
                    &&& component_type == old(self).spec_component_type()
                    &&& kind == key_error(entity, MAX_ENTITIES as nat)
                    &&& *final(self) == *old(self)
                },
            },
    {
        if component_type != self.component_type {
            return Err(
                ComponentError::ComponentTypeMismatch {
                    expected: self.component_type,
                    found: component_type,
                },
            );
        }
        match self.components.insert(entity, component) {
            Ok(prev) => Ok(prev),
            Err(e) => Err(ComponentError::InvalidKey(e.kind)),
        }
    }

    /// The entities that have a component here, in storage order.
    pub fn entities(&self) -> (r: &Vec<Entity>)
        ensures
            r@ == self.spec_entities(),
    {
        self.components.keys()
    }

    /// The components, in storage order, aligned with `entities()`.
    pub fn components(&self) -> (r: &Vec<V>)
        ensures
            r@ == self.spec_components(),
    {
        self.components.dense()
    }

    /// Whether `entity` has a component here.
    pub fn contains(&self, entity: &Entity) -> (r: bool)
        requires
            self.wf(),
        ensures
            r == self.has(*entity),
    {
        proof {
            self.components.lemma_dense_agrees();
        }
        match self.components.contains(*entity) {
            Ok(b) => b,
            Err(_) => false,
        }
    }

    /// The component of `entity`, if it has one.
    pub fn get(&self, entity: &Entity) -> (r: Option<&V>)
        requires
            self.wf(),
        ensures
            match r {
                Some(v) => self.has(*entity) && *v == self@[entity.spec_id() as int],
                None => !self.has(*entity),
            },
    {
        proof {
            self.components.lemma_dense_agrees();
        }
        match self.components.get(*entity) {
            Ok(Some(v)) => Some(v),
            _ => None,
        }
    }

    /// Exclusive access to the component of `entity`, if it has one. While the
    /// reference lives, nothing else can read or write the pool.
    pub fn get_mut(&mut self, entity: &Entity) -> (r: Option<&mut V>)
        requires
            old(self).wf(),
        ensures
            match r {
                Some(v) => old(self).has(*entity) && *v == old(self)@[entity.spec_id() as int],
                None => !old(self).has(*entity) && *final(self) == *old(self),
            },
            r is Some ==> {
                &&& final(self).wf()
                &&& final(self).spec_component_type() == old(self).spec_component_type()
                &&& final(self)@ == old(self)@.insert(
                    entity.spec_id() as int,
                    *final(r.unwrap()),
                )
                &&& final(self).spec_entities() == old(self).spec_entities()
            },
    {
        proof {
            self.components.lemma_dense_agrees();
        }
        match self.components.get_mut(*entity) {
            Ok(Some(v)) => Some(v),
            _ => None,
        }
    }

    /// Exclusive access to the component at storage position `i`, which
    /// belongs to `entities()[i]`. Going through `0..len()` visits every
    /// component once.
    pub fn component_at_mut(&mut self, i: usize) -> (r: &mut V)
        requires
            old(self).wf(),
            i < old(self).spec_components().len(),
        ensures
            *r == old(self).spec_components()[i as int],
            final(self).wf(),
            final(self).spec_component_type() == old(self).spec_component_type(),
            final(self).spec_entities() == old(self).spec_entities(),
            final(self).spec_components() == old(self).spec_components().update(
                i as int,
                *final(r),
            ),
            final(self)@ == old(self)@.insert(
                old(self).spec_entities()[i as int].spec_id() as int,
                *final(r),
            ),
    {
        self.components.dense_at_mut(i)
    }

    /// The number of components here.
    pub fn len(&self) -> (r: usize)
        requires
            self.wf(),
        ensures
            r == self.spec_entities().len(),
    {
        self.components.len()
    }
}

} // verus!
