//! Queries: the entities that have a component in every requested pool,
//! found by walking the smallest pool and probing the others.
use vstd::prelude::*;

use crate::component::ComponentType;
use crate::component_pool::ComponentPool;
use crate::entity::Entity;
use crate::query_param::{QueryParam, QueryParamList};
use crate::world::World;

verus! {

/// The pools of the world for the descriptors, in descriptor order, leaving
/// out descriptors whose component type has no pool.
pub open spec fn resolved_pools<V>(w: World<V>, ps: Seq<QueryParam>) -> Seq<ComponentPool<V>>
    decreases ps.len(),
{
    if ps.len() == 0 {
        Seq::empty()
    } else {
        let rest = resolved_pools(w, ps.drop_last());
        let t = ps.last().component_type;
        if w.spec_pools().contains_key(t) {
            rest.push(w.spec_pools()[t])
        } else {
            rest
        }
    }
}

/// The first position of a pool with the fewest entities.
pub open spec fn smallest_pool<V>(pools: Seq<ComponentPool<V>>) -> int
    decreases pools.len(),
{
    if pools.len() <= 1 {
        0
    } else {
        let m = smallest_pool(pools.drop_last());
        if pools.last().spec_entities().len() < pools[m].spec_entities().len() {
            pools.len() - 1
        } else {
            m
        }
    }
}

/// Whether every pool has a component for `e`.
pub open spec fn in_all<V>(pools: Seq<ComponentPool<V>>, e: Entity) -> bool {
    forall|i: int| 0 <= i < pools.len() ==> (#[trigger] pools[i]).has(e)
}

/// The entities of `keys` from position `pos` on that are in every pool.
pub open spec fn joined_from<V>(pools: Seq<ComponentPool<V>>, keys: Seq<Entity>, pos: int) -> Seq<
    Entity,
>
    decreases keys.len() - pos,
{
    if !(0 <= pos < keys.len()) {
        Seq::empty()
    } else if in_all(pools, keys[pos]) {
        seq![keys[pos]] + joined_from(pools, keys, pos + 1)
    } else {
        joined_from(pools, keys, pos + 1)
    }
}

/// What a join of `pools` yields, where `count` pools were asked for: nothing
/// when a pool is missing, else the entities of the smallest pool, in its
/// order, that every pool has.
pub open spec fn join<V>(pools: Seq<ComponentPool<V>>, count: nat) -> Seq<Entity> {
    if pools.len() < count || pools.len() == 0 {
        Seq::empty()
    } else {
        joined_from(pools, pools[smallest_pool(pools)].spec_entities(), 0)
    }
}

/// What a query of shape `ps` over `w` yields.
pub open spec fn query_result<V>(w: World<V>, ps: Seq<QueryParam>) -> Seq<Entity> {
    join(resolved_pools(w, ps), ps.len())
}

/// The ids of a sequence of entities.
pub open spec fn ids(s: Seq<Entity>) -> Seq<int> {
    s.map_values(|e: Entity| e.spec_id() as int)
}

/// A query: a world and the shape of the access it requests.
pub struct Query<'a, V> {
    world: &'a World<V>,
    params: QueryParamList,
}

/// One match of a query: the entity and, for each descriptor in order, its
/// component of that type.
pub struct QueryItem<'a, V> {
    pub entity: Entity,
    pub components: Vec<&'a V>,
}

/// A single pass over the matches of a query. It borrows the pools, so they
/// cannot change while it is alive.
pub struct QueryIter<'a, V> {
    pools: Vec<&'a ComponentPool<V>>,
    pool_count: usize,
    driver: usize,
    pos: usize,
}

/// The pool that `smallest_pool` picks exists and has no more entities than
/// any other.
pub proof fn lemma_smallest_pool<V>(pools: Seq<ComponentPool<V>>)
    requires
        pools.len() > 0,
    ensures
        0 <= smallest_pool(pools) < pools.len(),
        forall|i: int|
            0 <= i < pools.len() ==> pools[smallest_pool(pools)].spec_entities().len()
                <= #[trigger] pools[i].spec_entities().len(),
    decreases pools.len(),
{
    if pools.len() > 1 {
        let d = pools.drop_last();
        lemma_smallest_pool(d);
        assert forall|i: int| 0 <= i < pools.len() - 1 implies d[i] == pools[i] by {}
    }
}

impl<'a, V> QueryIter<'a, V> {
    /// The pools, in descriptor order.
    pub closed spec fn spec_pools(&self) -> Seq<ComponentPool<V>> {
        self.pools@.map_values(|p: &ComponentPool<V>| *p)
    }

    pub closed spec fn spec_pool_count(&self) -> nat {
        self.pool_count as nat
    }

    pub closed spec fn wf(&self) -> bool {
        &&& forall|i: int| 0 <= i < self.pools@.len() ==> (#[trigger] self.pools@[i]).wf()
        &&& self.pools@.len() > 0 ==> {
            &&& self.driver == smallest_pool(self.spec_pools())
            &&& self.driver < self.pools@.len()
            &&& self.pos <= self.pools@[self.driver as int].spec_entities().len()
        }
    }

    /// The matches not yet yielded, in the order they will come.
    pub closed spec fn remaining(&self) -> Seq<Entity> {
        if self.pools@.len() < self.pool_count || self.pools@.len() == 0 {
            Seq::empty()
        } else {
            joined_from(
                self.spec_pools(),
                self.spec_pools()[self.driver as int].spec_entities(),
                self.pos as int,
            )
        }
    }

    /// An iterator over the join of `pools`, where `pool_count` pools were
    /// asked for. It walks the first pool with the fewest entities.
    pub fn new(pools: Vec<&'a ComponentPool<V>>, pool_count: usize) -> (r: Self)
        requires
            forall|i: int| 0 <= i < pools@.len() ==> (#[trigger] pools@[i]).wf(),
        ensures
            r.wf(),
            r.spec_pools() == pools@.map_values(|p: &ComponentPool<V>| *p),
            r.spec_pool_count() == pool_count,
            r.remaining() == join(r.spec_pools(), pool_count as nat),
    {
        let ghost ps = pools@.map_values(|p: &ComponentPool<V>| *p);
        let mut driver: usize = 0;
        let mut i: usize = 1;
        while i < pools.len()
            invariant
                pools@.len() > 0 ==> 1 <= i <= pools@.len(),
                ps == pools@.map_values(|p: &ComponentPool<V>| *p),
                forall|j: int| 0 <= j < pools@.len() ==> (#[trigger] pools@[j]).wf(),
                pools@.len() > 0 ==> driver == smallest_pool(ps.subrange(0, i as int)),
            decreases pools@.len() - i,
        {
            proof {
                assert(ps.subrange(0, i + 1).drop_last() =~= ps.subrange(0, i as int));
                lemma_smallest_pool(ps.subrange(0, i as int));
            }
            if pools[i].len() < pools[driver].len() {
                driver = i;
            }
            i = i + 1;
        }
        proof {
            if pools@.len() > 0 {
                assert(ps.subrange(0, pools@.len() as int) =~= ps);
                lemma_smallest_pool(ps);
            }
        }
        QueryIter { pools, pool_count, driver, pos: 0 }
    }

    /// The next match: the entity and its component in each pool, in
    /// descriptor order.
    pub fn next(&mut self) -> (r: Option<QueryItem<'a, V>>)
        requires
            old(self).wf(),
        ensures
            final(self).wf(),
            final(self).spec_pools() == old(self).spec_pools(),
            final(self).spec_pool_count() == old(self).spec_pool_count(),
            match r {
                None => {
                    &&& old(self).remaining().len() == 0
                    &&& final(self).remaining().len() == 0
                },
                Some(item) => {
                    &&& old(self).remaining().len() > 0
                    &&& item.entity == old(self).remaining()[0]
                    &&& final(self).remaining() == old(self).remaining().drop_first()
                    &&& item.components@.len() == old(self).spec_pools().len()
                    &&& forall|i: int|
                        0 <= i < item.components@.len() ==> {
                            &&& old(self).spec_pools()[i].has(item.entity)
                            &&& *item.components@[i] == old(self).spec_pools()[i]@[
                                item.entity.spec_id() as int
                            ]
                        }
                },
            },
    {
        if self.pools.len() < self.pool_count || self.pools.len() == 0 {
            return None;
        }
        let ghost ps = self.spec_pools();
        assert(ps[self.driver as int] == *self.pools@[self.driver as int]);
        let driver: &'a ComponentPool<V> = self.pools[self.driver];
        let keys = driver.entities();
        while self.pos < keys.len()
            invariant
                self.wf(),
                self.spec_pools() == ps,
                self.pools@.len() == ps.len(),
                self.pools@.len() >= self.pool_count,
                self.pools@.len() > 0,
                keys@ == ps[self.driver as int].spec_entities(),
                old(self).remaining() == joined_from(ps, keys@, old(self).pos as int),
                joined_from(ps, keys@, old(self).pos as int) == joined_from(
                    ps,
                    keys@,
                    self.pos as int,
                ),
                self.driver == old(self).driver,
                self.pool_count == old(self).pool_count,
                self.pools == old(self).pools,
            decreases keys@.len() - self.pos,
        {
            let e = keys[self.pos];
            self.pos = self.pos + 1;
            let mut components: Vec<&'a V> = Vec::new();
            let mut all = true;
            let mut i: usize = 0;
            while i < self.pools.len() && all
                invariant
                    i <= self.pools@.len(),
                    self.pools@.len() == ps.len(),
                    self.spec_pools() == ps,
                    forall|j: int| 0 <= j < self.pools@.len() ==> (#[trigger] self.pools@[j]).wf(),
                    all ==> components@.len() == i,
                    all ==> forall|j: int|
                        0 <= j < i ==> {
                            &&& (#[trigger] ps[j]).has(e)
                            &&& *components@[j] == ps[j]@[e.spec_id() as int]
                        },
                    !all ==> !in_all(ps, e),
                decreases self.pools@.len() - i,
            {
                let pool: &'a ComponentPool<V> = self.pools[i];
                assert(ps[i as int] == *self.pools@[i as int]);
                match pool.get(&e) {
                    Some(c) => components.push(c),
                    None => {
                        all = false;
                    },
                }
                i = i + 1;
            }
            if all {
                return Some(QueryItem { entity: e, components });
            }
        }
        None
    }
}

impl<'a, V> Query<'a, V> {
    pub closed spec fn spec_world(&self) -> World<V> {
        *self.world
    }

    /// The descriptors of the query.
    pub closed spec fn spec_params(&self) -> Seq<QueryParam> {
        self.params@
    }

    pub fn new(world: &'a World<V>, params: QueryParamList) -> (r: Self)
        ensures
            r.spec_world() == *world,
            r.spec_params() == params@,
    {
        Query { world, params }
    }

    /// A pass over the entities that have a component of every requested
    /// type, driven by the smallest of the pools.
    pub fn iter(&self) -> (r: QueryIter<'a, V>)
        requires
            self.spec_world().wf(),
        ensures
            r.wf(),
            r.spec_pools() == resolved_pools(self.spec_world(), self.spec_params()),
            r.spec_pool_count() == self.spec_params().len(),
            r.remaining() == query_result(self.spec_world(), self.spec_params()),
    {
        let world: &'a World<V> = self.world;
        let params = self.params.params();
        let ghost ps = params@;
        let mut pools: Vec<&'a ComponentPool<V>> = Vec::new();
        let mut i: usize = 0;
        while i < params.len()
            invariant
                i <= ps.len(),
                ps == params@,
                world.wf(),
                pools@.map_values(|p: &ComponentPool<V>| *p) == resolved_pools(
                    *world,
                    ps.subrange(0, i as int),
                ),
                forall|j: int| 0 <= j < pools@.len() ==> (#[trigger] pools@[j]).wf(),
            decreases ps.len() - i,
        {
            let ghost before = pools@;
            assert(ps.subrange(0, i + 1).drop_last() =~= ps.subrange(0, i as int));
            match world.component_pool(params[i].component_type) {
                Some(pool) => {
                    proof {
                        world.lemma_pools_wf(params[i as int].component_type);
                    }
                    pools.push(pool);
                    assert(pools@.map_values(|p: &ComponentPool<V>| *p) =~= before.map_values(
                        |p: &ComponentPool<V>| *p,
                    ).push(*pool));
                },
                None => {},
            }
            i = i + 1;
        }
        assert(ps.subrange(0, ps.len() as int) =~= ps);
        QueryIter::new(pools, params.len())
    }
}

/// Each descriptor whose type has a pool contributes that pool, in order; the
/// list is as long as the descriptors exactly when every type has a pool.
pub proof fn lemma_resolved_pools<V>(w: World<V>, ps: Seq<QueryParam>)
    requires
        w.wf(),
    ensures
        resolved_pools(w, ps).len() <= ps.len(),
        forall|i: int|
            0 <= i < resolved_pools(w, ps).len() ==> (#[trigger] resolved_pools(w, ps)[i]).wf(),
        resolved_pools(w, ps).len() == ps.len() <==> forall|i: int|
            0 <= i < ps.len() ==> w.spec_pools().contains_key((#[trigger] ps[i]).component_type),
        resolved_pools(w, ps).len() == ps.len() ==> forall|i: int|
            0 <= i < ps.len() ==> #[trigger] resolved_pools(w, ps)[i] == w.spec_pools()[ps[
                i
            ].component_type],
    decreases ps.len(),
{
    if ps.len() > 0 {
        let d = ps.drop_last();
        lemma_resolved_pools(w, d);
        let t = ps.last().component_type;
        assert forall|i: int| 0 <= i < ps.len() - 1 implies d[i] == ps[i] by {}
        if w.spec_pools().contains_key(t) {
            w.lemma_pools_wf(t);
        }
        if !(forall|i: int|
            0 <= i < d.len() ==> w.spec_pools().contains_key((#[trigger] d[i]).component_type)) {
            let j = choose|j: int|
                0 <= j < d.len() && !w.spec_pools().contains_key(
                    (#[trigger] d[j]).component_type,
                );
            assert(!w.spec_pools().contains_key(ps[j].component_type));
        }
    }
}

/// The ids that `joined_from` yields: those of the keys from `pos` on that are
/// in every pool, each once where the keys' ids are distinct.
pub proof fn lemma_joined_from<V>(pools: Seq<ComponentPool<V>>, keys: Seq<Entity>, pos: int)
    requires
        0 <= pos,
        forall|i: int, j: int|
            0 <= i < keys.len() && 0 <= j < keys.len() && i != j ==> #[trigger] keys[i].spec_id()
                != #[trigger] keys[j].spec_id(),
    ensures
        ids(joined_from(pools, keys, pos)).no_duplicates(),
        forall|k: int|
            #[trigger] ids(joined_from(pools, keys, pos)).contains(k) <==> exists|j: int|
                pos <= j < keys.len() && keys[j].spec_id() == k && in_all(
                    pools,
                    #[trigger] keys[j],
                ),
        forall|e: Entity|
            #[trigger] joined_from(pools, keys, pos).contains(e) ==> keys.contains(e) && in_all(
                pools,
                e,
            ),
    decreases keys.len() - pos,
{
    let r = joined_from(pools, keys, pos);
    if pos < keys.len() {
        lemma_joined_from(pools, keys, pos + 1);
        let rest = joined_from(pools, keys, pos + 1);
        if in_all(pools, keys[pos]) {
            assert(r == seq![keys[pos]] + rest);
            assert(ids(r) =~= seq![keys[pos].spec_id() as int] + ids(rest));
            assert forall|k: int| #[trigger] ids(r).contains(k) <==> exists|j: int|
                pos <= j < keys.len() && keys[j].spec_id() == k && in_all(
                    pools,
                    #[trigger] keys[j],
                ) by {
                if ids(r).contains(k) {
                    if k == keys[pos].spec_id() {
                        assert(in_all(pools, keys[pos]));
                    } else {
                        let m = choose|m: int| 0 <= m < ids(r).len() && ids(r)[m] == k;
                        assert(m != 0);
                        assert(ids(rest)[m - 1] == k);
                        assert(ids(rest).contains(k));
                    }
                }
                if exists|j: int|
                    pos <= j < keys.len() && keys[j].spec_id() == k && in_all(
                        pools,
                        #[trigger] keys[j],
                    ) {
                    let j = choose|j: int|
                        pos <= j < keys.len() && keys[j].spec_id() == k && in_all(
                            pools,
                            #[trigger] keys[j],
                        );
                    if j == pos {
                        assert(ids(r)[0] == k);
                    } else {
                        assert(ids(rest).contains(k));
                        let m = choose|m: int| 0 <= m < ids(rest).len() && ids(rest)[m] == k;
                        assert(ids(r)[m + 1] == k);
                    }
                }
            }
            assert forall|a: int, b: int|
                0 <= a < ids(r).len() && 0 <= b < ids(r).len() && a != b implies ids(r)[a]
                != ids(r)[b] by {
                if a == 0 {
                    assert(ids(rest).contains(ids(r)[b]));
                } else if b == 0 {
                    assert(ids(rest).contains(ids(r)[a]));
                } else {
                    assert(ids(r)[a] == ids(rest)[a - 1]);
                    assert(ids(r)[b] == ids(rest)[b - 1]);
                }
            }
            assert forall|e: Entity| #[trigger] r.contains(e) implies keys.contains(e) && in_all(
                pools,
                e,
            ) by {
                let m = choose|m: int| 0 <= m < r.len() && r[m] == e;
                if m > 0 {
                    assert(rest[m - 1] == e);
                    assert(rest.contains(e));
                } else {
                    assert(keys[pos] == e);
                }
            }
        } else {
            assert forall|k: int| #[trigger] ids(r).contains(k) <==> exists|j: int|
                pos <= j < keys.len() && keys[j].spec_id() == k && in_all(
                    pools,
                    #[trigger] keys[j],
                ) by {
                if exists|j: int|
                    pos <= j < keys.len() && keys[j].spec_id() == k && in_all(
                        pools,
                        #[trigger] keys[j],
                    ) {
                    let j = choose|j: int|
                        pos <= j < keys.len() && keys[j].spec_id() == k && in_all(
                            pools,
                            #[trigger] keys[j],
                        );
                    assert(j != pos);
                }
            }
        }
    } else {
        assert(ids(r) =~= Seq::<int>::empty());
    }
}

/// A query yields each entity id at most once, and exactly the ids that have
/// a component in the pool of every requested type, whichever pool drives.
pub proof fn lemma_query_ids<V>(w: World<V>, ps: Seq<QueryParam>)
    requires
        w.wf(),
        ps.len() > 0,
    ensures
        ids(query_result(w, ps)).no_duplicates(),
        ids(query_result(w, ps)).to_set() == Set::new(
            |k: int|
                forall|i: int|
                    0 <= i < ps.len() ==> #[trigger] w.pool_view(ps[i].component_type).contains_key(
                        k,
                    ),
        ),
{
    let pools = resolved_pools(w, ps);
    let want = Set::new(
        |k: int|
            forall|i: int|
                0 <= i < ps.len() ==> #[trigger] w.pool_view(ps[i].component_type).contains_key(k),
    );
    lemma_resolved_pools(w, ps);
    if pools.len() < ps.len() {
        let j = choose|j: int|
            0 <= j < ps.len() && !w.spec_pools().contains_key((#[trigger] ps[j]).component_type);
        assert(ids(query_result(w, ps)) =~= Seq::<int>::empty());
        assert forall|k: int| !want.contains(k) by {
            assert(!w.pool_view(ps[j].component_type).contains_key(k));
        }
        assert(ids(query_result(w, ps)).to_set() =~= want);
    } else {
        lemma_smallest_pool(pools);
        let m = smallest_pool(pools);
        let driver = pools[m];
        let keys = driver.spec_entities();
        driver.lemma_entities_agree();
        lemma_joined_from(pools, keys, 0);
        let r = ids(query_result(w, ps));
        assert forall|k: int| r.contains(k) <==> want.contains(k) by {
            if r.contains(k) {
                let j = choose|j: int|
                    0 <= j < keys.len() && keys[j].spec_id() == k && in_all(
                        pools,
                        #[trigger] keys[j],
                    );
                assert forall|i: int| 0 <= i < ps.len() implies #[trigger] w.pool_view(
                    ps[i].component_type,
                ).contains_key(k) by {
                    assert(pools[i].has(keys[j]));
                }
            }
            if want.contains(k) {
                assert(w.pool_view(ps[m].component_type).contains_key(k));
                assert(driver@.contains_key(k));
                let j = choose|j: int| 0 <= j < keys.len() && #[trigger] keys[j].spec_id() == k;
                assert forall|i: int| 0 <= i < pools.len() implies (#[trigger] pools[i]).has(
                    keys[j],
                ) by {
                    assert(w.pool_view(ps[i].component_type).contains_key(k));
                }
                assert(in_all(pools, keys[j]));
            }
        }
        assert(r.to_set() =~= want);
    }
}

/// A query that reads one component type yields exactly the entities of that
/// type's pool, in the pool's order.
pub proof fn lemma_single_read_query<V>(w: World<V>, t: ComponentType)
    requires
        w.wf(),
    ensures
        query_result(w, seq![QueryParam::read_spec(t)]) == w.pool_entities(t),
{
    let ps = seq![QueryParam::read_spec(t)];
    let pools = resolved_pools(w, ps);
    assert(ps.drop_last() =~= Seq::<QueryParam>::empty());
    assert(resolved_pools(w, Seq::<QueryParam>::empty()) == Seq::<ComponentPool<V>>::empty());
    assert(ps.last() == QueryParam::read_spec(t));
    if w.spec_pools().contains_key(t) {
        w.lemma_pools_wf(t);
        let pool = w.spec_pools()[t];
        pool.lemma_entities_agree();
        assert(pools =~= seq![pool]);
        lemma_all_joined(pools, pool.spec_entities(), 0);
        assert(pool.spec_entities().subrange(0, pool.spec_entities().len() as int)
            =~= pool.spec_entities());
    } else {
        assert(pools.len() == 0);
    }
}

/// Where every key is in every pool, `joined_from` keeps them all.
proof fn lemma_all_joined<V>(pools: Seq<ComponentPool<V>>, keys: Seq<Entity>, pos: int)
    requires
        0 <= pos <= keys.len(),
        forall|j: int| 0 <= j < keys.len() ==> in_all(pools, #[trigger] keys[j]),
    ensures
        joined_from(pools, keys, pos) == keys.subrange(pos, keys.len() as int),
    decreases keys.len() - pos,
{
    if pos < keys.len() {
        lemma_all_joined(pools, keys, pos + 1);
        assert(keys.subrange(pos, keys.len() as int) =~= seq![keys[pos]] + keys.subrange(
            pos + 1,
            keys.len() as int,
        ));
    } else {
        assert(keys.subrange(pos, keys.len() as int) =~= Seq::<Entity>::empty());
    }
}

/// A query that reads `a` and writes `b` yields the ids that have both a
/// component of type `a` and one of type `b`, each once, whichever of the two
/// pools is smaller; the same holds with the descriptors the other way round.
pub proof fn lemma_read_write_query<V>(w: World<V>, a: ComponentType, b: ComponentType)
    requires
        w.wf(),
    ensures
        ids(query_result(w, seq![QueryParam::read_spec(a), QueryParam::write_spec(b)])).no_duplicates(),
        ids(query_result(w, seq![QueryParam::read_spec(a), QueryParam::write_spec(b)])).to_set()
            == w.pool_view(a).dom().intersect(w.pool_view(b).dom()),
        ids(query_result(w, seq![QueryParam::write_spec(b), QueryParam::read_spec(a)])).to_set()
            == w.pool_view(a).dom().intersect(w.pool_view(b).dom()),
{
    let p = seq![QueryParam::read_spec(a), QueryParam::write_spec(b)];
    let q = seq![QueryParam::write_spec(b), QueryParam::read_spec(a)];
    lemma_query_ids(w, p);
    lemma_query_ids(w, q);
    let both = w.pool_view(a).dom().intersect(w.pool_view(b).dom());
    assert(ids(query_result(w, p)).to_set() =~= both) by {
        assert forall|k: int|
            (forall|i: int|
                0 <= i < p.len() ==> #[trigger] w.pool_view(p[i].component_type).contains_key(
                    k,
                )) implies both.contains(k) by {
            assert(w.pool_view(p[0].component_type).contains_key(k));
            assert(w.pool_view(p[1].component_type).contains_key(k));
        }
    }
    assert(ids(query_result(w, q)).to_set() =~= both) by {
        assert forall|k: int|
            (forall|i: int|
                0 <= i < q.len() ==> #[trigger] w.pool_view(q[i].component_type).contains_key(
                    k,
                )) implies both.contains(k) by {
            assert(w.pool_view(q[0].component_type).contains_key(k));
            assert(w.pool_view(q[1].component_type).contains_key(k));
        }
    }
}

} // verus!
