//! The scheduler: systems with the component types they read and write, the
//! conflict rule between them, and an order of execution that respects it.
use vstd::prelude::*;

use crate::component::ComponentType;
use crate::query_param::{read_set, write_set, QueryParam, QueryParamList};
use crate::world::World;

verus! {

/// Whether two systems, each given by the sets it reads and writes, must not
/// run at the same time: one writes a type that the other reads or writes.
pub open spec fn access_conflict(
    reads_a: Set<ComponentType>,
    writes_a: Set<ComponentType>,
    reads_b: Set<ComponentType>,
    writes_b: Set<ComponentType>,
) -> bool {
    exists|t: ComponentType|
        #![trigger writes_a.contains(t)]
        #![trigger writes_b.contains(t)]
        (writes_a.contains(t) && (reads_b.contains(t) || writes_b.contains(t))) || (
        writes_b.contains(t) && (reads_a.contains(t) || writes_a.contains(t)))
}

/// A unit of logic that the scheduler runs against a world.
pub trait System<V> {
    fn run(&self, world: &mut World<V>);
}

/// A registered system and the component types it reads and writes.
struct SystemNode<S> {
    system: S,
    reads: Vec<ComponentType>,
    writes: Vec<ComponentType>,
}

/// The registered systems, in registration order.
pub struct Schedule<S> {
    system_nodes: Vec<SystemNode<S>>,
}

/// Whether the two lists share an element.
fn overlaps(a: &Vec<ComponentType>, b: &Vec<ComponentType>) -> (r: bool)
    ensures
        r == exists|t: ComponentType| #[trigger] a@.contains(t) && b@.contains(t),
{
    let mut i: usize = 0;
    while i < a.len()
        invariant
            i <= a@.len(),
            forall|m: int| 0 <= m < i ==> !b@.contains(#[trigger] a@[m]),
        decreases a@.len() - i,
    {
        let mut j: usize = 0;
        while j < b.len()
            invariant
                i < a@.len(),
                j <= b@.len(),
                forall|n: int| 0 <= n < j ==> b@[n] != a@[i as int],
            decreases b@.len() - j,
        {
            if b[j] == a[i] {
                assert(a@.contains(a@[i as int]) && b@.contains(a@[i as int]));
                return true;
            }
            j = j + 1;
        }
        i = i + 1;
    }
    proof {
        assert forall|t: ComponentType| !(#[trigger] a@.contains(t) && b@.contains(t)) by {
            if a@.contains(t) {
                let m = choose|m: int| 0 <= m < a@.len() && a@[m] == t;
                assert(!b@.contains(a@[m]));
            }
        }
    }
    false
}

impl<S> Schedule<S> {
    /// The number of registered systems.
    pub closed spec fn spec_len(&self) -> nat {
        self.system_nodes@.len()
    }

    /// The component types that system `i` reads.
    pub closed spec fn spec_reads(&self, i: int) -> Set<ComponentType> {
        self.system_nodes@[i].reads@.to_set()
    }

    /// The component types that system `i` writes.
    pub closed spec fn spec_writes(&self, i: int) -> Set<ComponentType> {
        self.system_nodes@[i].writes@.to_set()
    }

    /// Whether systems `i` and `j` must not run at the same time.
    pub open spec fn spec_conflict(&self, i: int, j: int) -> bool {
        access_conflict(self.spec_reads(i), self.spec_writes(i), self.spec_reads(j), self.spec_writes(j))
    }

    pub fn new() -> (r: Self)
        ensures
            r.spec_len() == 0,
    {
        Schedule { system_nodes: Vec::new() }
    }

    pub fn len(&self) -> (r: usize)
        ensures
            r == self.spec_len(),
    {
        self.system_nodes.len()
    }

    /// Registers `system`, whose access is declared by `params`. Its record
    /// reads the types that `params` reads and writes those it writes.
    pub fn add_system(&mut self, params: &QueryParamList, system: S)
        ensures
            final(self).spec_len() == old(self).spec_len() + 1,
            forall|i: int|
                0 <= i < old(self).spec_len() ==> #[trigger] final(self).spec_reads(i) == old(
                    self,
                ).spec_reads(i) && final(self).spec_writes(i) == old(self).spec_writes(i),
            final(self).spec_reads(old(self).spec_len() as int) == read_set(params@),
            final(self).spec_writes(old(self).spec_len() as int) == write_set(params@),
    {
        let (reads, writes) = params.query_types();
        self.system_nodes.push(SystemNode { system, reads, writes });
        proof {
            assert forall|i: int| 0 <= i < old(self).spec_len() implies #[trigger] self.spec_reads(i)
                == old(self).spec_reads(i) && self.spec_writes(i) == old(self).spec_writes(i) by {
                assert(self.system_nodes@[i] == old(self).system_nodes@[i]);
            }
        }
    }

    /// The component types that system `i` reads, each once.
    pub fn reads(&self, i: usize) -> (r: &Vec<ComponentType>)
        requires
            i < self.spec_len(),
        ensures
            r@.to_set() == self.spec_reads(i as int),
    {
        &self.system_nodes[i].reads
    }

    /// The component types that system `i` writes, each once.
    pub fn writes(&self, i: usize) -> (r: &Vec<ComponentType>)
        requires
            i < self.spec_len(),
        ensures
            r@.to_set() == self.spec_writes(i as int),
    {
        &self.system_nodes[i].writes
    }

    /// Whether systems `i` and `j` must not run at the same time.
    pub fn conflicts(&self, i: usize, j: usize) -> (r: bool)
        requires
            i < self.spec_len(),
            j < self.spec_len(),
        ensures
            r == self.spec_conflict(i as int, j as int),
    {
        let a = &self.system_nodes[i];
        let b = &self.system_nodes[j];
        let r = overlaps(&a.writes, &b.reads) || overlaps(&a.writes, &b.writes) || overlaps(
            &b.writes,
            &a.reads,
        );
        proof {
            let ra = a.reads@.to_set();
            let wa = a.writes@.to_set();
            let rb = b.reads@.to_set();
            let wb = b.writes@.to_set();
            assert(ra == self.spec_reads(i as int) && wa == self.spec_writes(i as int));
            assert(rb == self.spec_reads(j as int) && wb == self.spec_writes(j as int));
            if access_conflict(ra, wa, rb, wb) {
                let t = choose|t: ComponentType|
                    #![trigger wa.contains(t)]
                    #![trigger wb.contains(t)]
                    (wa.contains(t) && (rb.contains(t) || wb.contains(t))) || (wb.contains(t) && (
                    ra.contains(t) || wa.contains(t)));
                if wa.contains(t) && rb.contains(t) {
                    assert(a.writes@.contains(t) && b.reads@.contains(t));
                } else if wa.contains(t) && wb.contains(t) {
                    assert(a.writes@.contains(t) && b.writes@.contains(t));
                } else if wb.contains(t) && ra.contains(t) {
                    assert(b.writes@.contains(t) && a.reads@.contains(t));
                } else {
                    assert(b.writes@.contains(t) && a.writes@.contains(t));
                }
            }
            if r {
                if exists|t: ComponentType| #[trigger] a.writes@.contains(t) && b.reads@.contains(t) {
                    let t = choose|t: ComponentType| #[trigger] a.writes@.contains(t) && b.reads@.contains(t);
                    assert(wa.contains(t) && rb.contains(t));
                } else if exists|t: ComponentType| #[trigger] a.writes@.contains(t) && b.writes@.contains(t) {
                    let t = choose|t: ComponentType| #[trigger] a.writes@.contains(t) && b.writes@.contains(t);
                    assert(wa.contains(t) && wb.contains(t));
                } else {
                    let t = choose|t: ComponentType| #[trigger] b.writes@.contains(t) && a.reads@.contains(t);
                    assert(wb.contains(t) && ra.contains(t));
                }
            }
        }
        r
    }

    /// The wave of each system: 0 when no earlier system conflicts with it,
    /// else one more than the latest wave of an earlier conflicting system.
    /// Systems of one wave do not conflict with each other, and of two
    /// conflicting systems the one registered first is in an earlier wave.
    pub fn waves(&self) -> (r: Vec<usize>)
        ensures
            r@.len() == self.spec_len(),
            forall|i: int| 0 <= i < r@.len() ==> #[trigger] r@[i] <= i,
            forall|i: int, j: int|
                0 <= j < i < r@.len() && self.spec_conflict(j, i) ==> #[trigger] r@[j]
                    < #[trigger] r@[i],
            forall|i: int|
                0 <= i < r@.len() ==> #[trigger] r@[i] == 0 || exists|j: int|
                    0 <= j < i && self.spec_conflict(j, i) && r@[j] + 1 == r@[i],
    {
        let n = self.system_nodes.len();
        let mut r: Vec<usize> = Vec::new();
        let mut i: usize = 0;
        while i < n
            invariant
                n == self.spec_len(),
                i <= n,
                r@.len() == i,
                forall|a: int| 0 <= a < i ==> #[trigger] r@[a] <= a,
                forall|a: int, b: int|
                    0 <= b < a < i && self.spec_conflict(b, a) ==> #[trigger] r@[b]
                        < #[trigger] r@[a],
                forall|a: int|
                    0 <= a < i ==> #[trigger] r@[a] == 0 || exists|b: int|
                        0 <= b < a && self.spec_conflict(b, a) && r@[b] + 1 == r@[a],
            decreases n - i,
        {
            let mut w: usize = 0;
            let mut j: usize = 0;
            while j < i
                invariant
                    n == self.spec_len(),
                    i < n,
                    j <= i,
                    r@.len() == i,
                    w <= j,
                    forall|a: int| 0 <= a < i ==> #[trigger] r@[a] <= a,
                    forall|b: int| 0 <= b < j && self.spec_conflict(b, i as int) ==> #[trigger] r@[b] < w,
                    w == 0 || exists|b: int|
                        0 <= b < j && self.spec_conflict(b, i as int) && r@[b] + 1 == w,
                decreases i - j,
            {
                if self.conflicts(j, i) && r[j] + 1 > w {
                    w = r[j] + 1;
                }
                j = j + 1;
            }
            r.push(w);
            i = i + 1;
        }
        r
    }

    /// The order in which `run_once` runs the systems: wave by wave, and
    /// within a wave in registration order. Every system comes exactly once,
    /// and of two conflicting systems the one registered first comes first.
    pub fn execution_order(&self) -> (r: Vec<usize>)
        ensures
            r@.no_duplicates(),
            forall|p: int| 0 <= p < r@.len() ==> #[trigger] r@[p] < self.spec_len(),
            forall|k: usize| k < self.spec_len() ==> #[trigger] r@.contains(k),
            forall|p: int, q: int|
                0 <= p < q < r@.len() && self.spec_conflict(r@[p] as int, r@[q] as int) ==> #[trigger] r@[p]
                    < #[trigger] r@[q],
    {
        let waves = self.waves();
        let n = waves.len();
        let mut last: usize = 0;
        let mut i: usize = 0;
        while i < n
            invariant
                n == waves@.len(),
                i <= n,
                forall|a: int| 0 <= a < n ==> #[trigger] waves@[a] <= a,
                forall|a: int| 0 <= a < i ==> #[trigger] waves@[a] <= last,
                last == 0 || last < i,
            decreases n - i,
        {
            if waves[i] > last {
                last = waves[i];
            }
            i = i + 1;
        }
        let mut order: Vec<usize> = Vec::new();
        let mut wave: usize = 0;
        while wave <= last && n > 0
            invariant
                n == waves@.len(),
                n == self.spec_len(),
                last == 0 || last < n,
                wave <= last + 1,
                forall|a: int| 0 <= a < n ==> #[trigger] waves@[a] <= last,
                order@.no_duplicates(),
                forall|p: int| 0 <= p < order@.len() ==> #[trigger] order@[p] < n,
                forall|p: int| 0 <= p < order@.len() ==> waves@[#[trigger] order@[p] as int] < wave,
                forall|a: usize| a < n && waves@[a as int] < wave ==> #[trigger] order@.contains(a),
                forall|p: int, q: int|
                    0 <= p < q < order@.len() ==> waves@[#[trigger] order@[p] as int]
                        <= waves@[#[trigger] order@[q] as int],
            decreases last + 1 - wave,
        {
            let mut k: usize = 0;
            let ghost start = order@.len();
            while k < n
                invariant
                    n == waves@.len(),
                    n == self.spec_len(),
                    k <= n,
                    wave <= last,
                    start <= order@.len(),
                    order@.no_duplicates(),
                    forall|p: int| 0 <= p < order@.len() ==> #[trigger] order@[p] < n,
                    forall|p: int| 0 <= p < start ==> waves@[#[trigger] order@[p] as int] < wave,
                    forall|p: int|
                        start <= p < order@.len() ==> waves@[#[trigger] order@[p] as int] == wave
                            && order@[p] < k,
                    forall|a: usize| a < n && waves@[a as int] < wave ==> #[trigger] order@.contains(a),
                    forall|a: usize| a < k && waves@[a as int] == wave ==> #[trigger] order@.contains(a),
                    forall|p: int, q: int|
                        0 <= p < q < order@.len() ==> waves@[#[trigger] order@[p] as int]
                            <= waves@[#[trigger] order@[q] as int],
                decreases n - k,
            {
                if waves[k] == wave {
                    let ghost before = order@;
                    order.push(k);
                    proof {
                        assert forall|a: int, b: int|
                            0 <= a < order@.len() && 0 <= b < order@.len() && a != b implies order@[a]
                            != order@[b] by {
                            if a == order@.len() - 1 && b < start {
                                assert(waves@[order@[b] as int] < wave);
                            } else if a == order@.len() - 1 {
                                assert(order@[b] < k);
                            } else if b == order@.len() - 1 && a < start {
                                assert(waves@[order@[a] as int] < wave);
                            } else if b == order@.len() - 1 {
                                assert(order@[a] < k);
                            } else {
                                assert(before[a] == order@[a] && before[b] == order@[b]);
                            }
                        }
                        assert forall|a: usize| a < n && waves@[a as int] < wave implies #[trigger] order@.contains(
                            a,
                        ) by {
                            assert(before.contains(a));
                            let m = choose|m: int| 0 <= m < before.len() && before[m] == a;
                            assert(order@[m] == a);
                        }
                        assert forall|a: usize|
                            a < k + 1 && waves@[a as int] == wave implies #[trigger] order@.contains(a) by {
                            if a == k {
                                assert(order@[order@.len() - 1] == k);
                            } else {
                                assert(before.contains(a));
                                let m = choose|m: int| 0 <= m < before.len() && before[m] == a;
                                assert(order@[m] == a);
                            }
                        }
                    }
                }
                k = k + 1;
            }
            wave = wave + 1;
        }
        proof {
            assert forall|p: int, q: int|
                0 <= p < q < order@.len() && self.spec_conflict(
                    order@[p] as int,
                    order@[q] as int,
                ) implies #[trigger] order@[p] < #[trigger] order@[q] by {
                let (x, y) = (order@[p] as int, order@[q] as int);
                if y < x {
                    assert(self.spec_conflict(y, x));
                    assert(waves@[y] < waves@[x]);
                }
            }
        }
        order
    }

    /// Runs every system once, in `execution_order()`: no system runs before
    /// a conflicting system registered earlier.
    pub fn run_once<V>(&self, world: &mut World<V>) where S: System<V> {
        let order = self.execution_order();
        let mut p: usize = 0;
        while p < order.len()
            invariant
                p <= order@.len(),
                forall|a: int| 0 <= a < order@.len() ==> #[trigger] order@[a] < self.spec_len(),
            decreases order@.len() - p,
        {
            self.system_nodes[order[p]].system.run(world);
            p = p + 1;
        }
    }
}

/// Declaring a read of `a` and a write of `b` gives the read set `{a}` and
/// the write set `{b}`.
pub proof fn lemma_read_write_access(a: ComponentType, b: ComponentType)
    ensures
        read_set(seq![QueryParam::read_spec(a), QueryParam::write_spec(b)]) == set![a],
        write_set(seq![QueryParam::read_spec(a), QueryParam::write_spec(b)]) == set![b],
{
    let ps = seq![QueryParam::read_spec(a), QueryParam::write_spec(b)];
    assert(ps[0].component_type == a && ps[1].component_type == b);
    assert(read_set(ps) =~= set![a]);
    assert(write_set(ps) =~= set![b]);
}

/// Two systems that both write the same component type conflict.
pub proof fn lemma_shared_write_conflicts(p: Seq<QueryParam>, q: Seq<QueryParam>, t: ComponentType)
    requires
        write_set(p).contains(t),
        write_set(q).contains(t),
    ensures
        access_conflict(read_set(p), write_set(p), read_set(q), write_set(q)),
{
}

/// A system that only writes `a` and one that only writes another type `b`
/// do not conflict, so they may run at the same time.
pub proof fn lemma_separate_writers_independent(a: ComponentType, b: ComponentType)
    requires
        a != b,
    ensures
        !access_conflict(
            read_set(seq![QueryParam::write_spec(a)]),
            write_set(seq![QueryParam::write_spec(a)]),
            read_set(seq![QueryParam::write_spec(b)]),
            write_set(seq![QueryParam::write_spec(b)]),
        ),
{
    let p = seq![QueryParam::write_spec(a)];
    let q = seq![QueryParam::write_spec(b)];
    assert(p[0].component_type == a && q[0].component_type == b);
    assert(read_set(p) =~= Set::empty());
    assert(read_set(q) =~= Set::empty());
    assert(write_set(p) =~= set![a]);
    assert(write_set(q) =~= set![b]);
}

} // verus!
