//! Access descriptors: which component types a query reads and writes.
use vstd::prelude::*;

use crate::component::ComponentType;

verus! {

/// How a query uses a component type.
#[derive(Clone, Copy, Debug, PartialEq, Eq, Structural)]
pub enum Access {
    /// Shared access.
    Read,
    /// Exclusive access.
    Write,
}

/// One access request: a component type and how it is used.
#[derive(Clone, Copy, Debug, PartialEq, Eq, Structural)]
pub struct QueryParam {
    pub component_type: ComponentType,
    pub access: Access,
}

impl QueryParam {
    pub open spec fn read_spec(component_type: ComponentType) -> Self {
        QueryParam { component_type, access: Access::Read }
    }

    pub open spec fn write_spec(component_type: ComponentType) -> Self {
        QueryParam { component_type, access: Access::Write }
    }

    pub fn read(component_type: ComponentType) -> (r: Self)
        ensures
            r == Self::read_spec(component_type),
    {
        QueryParam { component_type, access: Access::Read }
    }

    pub fn write(component_type: ComponentType) -> (r: Self)
        ensures
            r == Self::write_spec(component_type),
    {
        QueryParam { component_type, access: Access::Write }
    }
}

/// The component types that the descriptors read.
pub open spec fn read_set(ps: Seq<QueryParam>) -> Set<ComponentType> {
    Set::new(
        |t: ComponentType|
            exists|i: int|
                0 <= i < ps.len() && (#[trigger] ps[i]).component_type == t && ps[i].access
                    == Access::Read,
    )
}

/// The component types that the descriptors write.
pub open spec fn write_set(ps: Seq<QueryParam>) -> Set<ComponentType> {
    Set::new(
        |t: ComponentType|
            exists|i: int|
                0 <= i < ps.len() && (#[trigger] ps[i]).component_type == t && ps[i].access
                    == Access::Write,
    )
}

/// An ordered list of access descriptors: the shape of a query.
#[derive(Clone, Debug)]
pub struct QueryParamList {
    params: Vec<QueryParam>,
}

impl View for QueryParamList {
    type V = Seq<QueryParam>;

    closed spec fn view(&self) -> Seq<QueryParam> {
        self.params@
    }
}

/// The types of `ps` that have the given access, each once, in order of first
/// appearance.
fn types_with(ps: &Vec<QueryParam>, access: Access) -> (r: Vec<ComponentType>)
    ensures
        r@.no_duplicates(),
        r@.to_set() == Set::new(
            |t: ComponentType|
                exists|i: int|
                    0 <= i < ps@.len() && (#[trigger] ps@[i]).component_type == t && ps@[i].access
                        == access,
        ),
{
    let mut out: Vec<ComponentType> = Vec::new();
    let mut i: usize = 0;
    while i < ps.len()
        invariant
            i <= ps@.len(),
            out@.no_duplicates(),
            forall|t: ComponentType|
                out@.contains(t) <==> exists|j: int|
                    0 <= j < i && (#[trigger] ps@[j]).component_type == t && ps@[j].access
                        == access,
        decreases ps@.len() - i,
    {
        let p = ps[i];
        let ghost prev = out@;
        if p.access == access {
            let mut found = false;
            let mut j: usize = 0;
            while j < out.len()
                invariant
                    j <= out@.len(),
                    found <==> exists|m: int| 0 <= m < j && out@[m] == p.component_type,
                decreases out@.len() - j,
            {
                if out[j] == p.component_type {
                    found = true;
                }
                j = j + 1;
            }
            if !found {
                out.push(p.component_type);
                proof {
                    assert forall|a: int, b: int|
                        0 <= a < out@.len() && 0 <= b < out@.len() && a != b implies out@[a]
                        != out@[b] by {
                        if b == out@.len() - 1 {
                            assert(prev[a] == out@[a]);
                        } else if a == out@.len() - 1 {
                            assert(prev[b] == out@[b]);
                        }
                    }
                }
            }
            proof {
                if found {
                    let m = choose|m: int| 0 <= m < j && out@[m] == p.component_type;
                    assert(out@[m] == p.component_type);
                } else {
                    assert(out@[out@.len() - 1] == p.component_type);
                }
                assert forall|x: ComponentType| prev.contains(x) implies out@.contains(x) by {
                    let m = choose|m: int| 0 <= m < prev.len() && prev[m] == x;
                    assert(out@[m] == x);
                }
            }
        }
        proof {
            assert forall|t: ComponentType|
                out@.contains(t) <==> exists|j: int|
                    0 <= j < i + 1 && (#[trigger] ps@[j]).component_type == t && ps@[j].access
                        == access by {
                if out@.contains(t) && t != p.component_type {
                    let m = choose|m: int| 0 <= m < out@.len() && out@[m] == t;
                    assert(prev[m] == t);
                }
                if exists|j: int|
                    0 <= j < i + 1 && (#[trigger] ps@[j]).component_type == t && ps@[j].access
                        == access {
                    let j = choose|j: int|
                        0 <= j < i + 1 && (#[trigger] ps@[j]).component_type == t
                            && ps@[j].access == access;
                    if j != i {
                        assert(prev.contains(t));
                    }
                }
            }
        }
        i = i + 1;
    }
    assert(out@.to_set() =~= Set::new(
        |t: ComponentType|
            exists|i: int|
                0 <= i < ps@.len() && (#[trigger] ps@[i]).component_type == t && ps@[i].access
                    == access,
    ));
    out
}

impl QueryParamList {
    pub fn new() -> (r: Self)
        ensures
            r@ == Seq::<QueryParam>::empty(),
    {
        QueryParamList { params: Vec::new() }
    }

    /// The list with `param` appended.
    pub fn with(self, param: QueryParam) -> (r: Self)
        ensures
            r@ == self@.push(param),
    {
        let mut params = self.params;
        params.push(param);
        QueryParamList { params }
    }

    /// The descriptors in order.
    pub fn params(&self) -> (r: &Vec<QueryParam>)
        ensures
            r@ == self@,
    {
        &self.params
    }

    /// The number of descriptors, which is the number of pools the query joins.
    pub fn len(&self) -> (r: usize)
        ensures
            r == self@.len(),
    {
        self.params.len()
    }

    /// The component types read and the component types written, each as a
    /// list without repetition.
    pub fn query_types(&self) -> (r: (Vec<ComponentType>, Vec<ComponentType>))
        ensures
            r.0@.no_duplicates(),
            r.1@.no_duplicates(),
            r.0@.to_set() == read_set(self@),
            r.1@.to_set() == write_set(self@),
    {
        let reads = types_with(&self.params, Access::Read);
        let writes = types_with(&self.params, Access::Write);
        (reads, writes)
    }
}

} // verus!
