//! A container keyed by small integers: a sparse array of slots pointing into
//! a dense array of values, with O(1) insert, lookup and swap-based removal.
use vstd::prelude::*;

verus! {

/// What went wrong when a key was turned into a slot of a container.
#[derive(Clone, Copy, Debug)]
pub enum InvalidKeyErrorKind<K> {
    /// The key's index is not below the container's capacity.
    KeyBiggerThanCapacity { key: K, capacity: usize },
    /// The key's index does not fit in a `usize`.
    KeyCantBeCastToUsize,
}

/// The error of every key-taking operation of [`SparseSet`].
#[derive(Clone, Copy, Debug)]
pub struct InvalidKeyError<K: Key = u64> {
    pub kind: InvalidKeyErrorKind<K>,
}

impl<K: Key> InvalidKeyError<K> {
    pub fn kind(&self) -> (r: InvalidKeyErrorKind<K>)
        ensures
            r == self.kind,
    {
        self.kind
    }
}

/// A value that addresses a slot of a [`SparseSet`] through its index.
pub trait Key: Sized + Copy {
    /// The index of the slot that this key addresses.
    spec fn key_index(self) -> nat;

    /// The index as a `usize`, or an error when it does not fit in one.
    fn into_usize(self) -> (r: Result<usize, InvalidKeyError<Self>>)
        ensures
            match r {
                Ok(i) => i as nat == self.key_index(),
                Err(e) => self.key_index() > usize::MAX && e.kind
                    == InvalidKeyErrorKind::<Self>::KeyCantBeCastToUsize,
            },
    ;
}

impl Key for u8 {
    open spec fn key_index(self) -> nat {
        self as nat
    }

    fn into_usize(self) -> (r: Result<usize, InvalidKeyError<Self>>) {
        Ok(self as usize)
    }
}

impl Key for u16 {
    open spec fn key_index(self) -> nat {
        self as nat
    }

    fn into_usize(self) -> (r: Result<usize, InvalidKeyError<Self>>) {
        Ok(self as usize)
    }
}

impl Key for u32 {
    open spec fn key_index(self) -> nat {
        self as nat
    }

    fn into_usize(self) -> (r: Result<usize, InvalidKeyError<Self>>) {
        if self as u128 <= usize::MAX as u128 {
            Ok(self as usize)
        } else {
            Err(InvalidKeyError { kind: InvalidKeyErrorKind::KeyCantBeCastToUsize })
        }
    }
}

impl Key for u64 {
    open spec fn key_index(self) -> nat {
        self as nat
    }

    fn into_usize(self) -> (r: Result<usize, InvalidKeyError<Self>>) {
        if self as u128 <= usize::MAX as u128 {
            Ok(self as usize)
        } else {
            Err(InvalidKeyError { kind: InvalidKeyErrorKind::KeyCantBeCastToUsize })
        }
    }
}

impl Key for u128 {
    open spec fn key_index(self) -> nat {
        self as nat
    }

    fn into_usize(self) -> (r: Result<usize, InvalidKeyError<Self>>) {
        if self <= usize::MAX as u128 {
            Ok(self as usize)
        } else {
            Err(InvalidKeyError { kind: InvalidKeyErrorKind::KeyCantBeCastToUsize })
        }
    }
}

impl Key for usize {
    open spec fn key_index(self) -> nat {
        self as nat
    }

    fn into_usize(self) -> (r: Result<usize, InvalidKeyError<Self>>) {
        Ok(self)
    }
}


/// Whether a key is accepted by a container of the given capacity.
pub open spec fn key_in_range<K: Key>(key: K, capacity: nat) -> bool {
    key.key_index() < capacity
}

/// The error that a container of the given capacity reports for a key that
/// it does not accept.
pub open spec fn key_error<K: Key>(key: K, capacity: nat) -> InvalidKeyErrorKind<K> {
    if key.key_index() > usize::MAX {
        InvalidKeyErrorKind::KeyCantBeCastToUsize
    } else {
        InvalidKeyErrorKind::KeyBiggerThanCapacity { key, capacity: capacity as usize }
    }
}

/// The map after a successful `insert(key, value)`: the value is stored under
/// the key's index and every other index keeps its value.
pub open spec fn inserted<T, K: Key>(m: Map<int, T>, key: K, value: T) -> Map<int, T> {
    m.insert(key.key_index() as int, value)
}

/// What `get(key)` returns on a container whose view is `m`, in range.
pub open spec fn lookup<T, K: Key>(m: Map<int, T>, key: K) -> Option<T> {
    if m.contains_key(key.key_index() as int) {
        Some(m[key.key_index() as int])
    } else {
        None
    }
}

/// Replaces element `i` with the last element and drops the last position.
pub open spec fn swap_remove_seq<A>(s: Seq<A>, i: int) -> Seq<A> {
    s.update(i, s.last()).drop_last()
}

/// A container of values of `T` keyed by `K`, with a fixed capacity of slots.
///
/// Removal moves the last value into the freed position, so the order of
/// `dense()` and `keys()` changes on removal.
#[derive(Debug)]
pub struct SparseSet<T, K = u64> {
    capacity: usize,
    sparse: Vec<Option<usize>>,
    dense: Vec<T>,
    keys: Vec<K>,
}

impl<T, K: Key> View for SparseSet<T, K> {
    type V = Map<int, T>;

    /// The values by the index of their key.
    closed spec fn view(&self) -> Map<int, T> {
        Map::new(
            |k: int| 0 <= k < self.sparse@.len() && self.sparse@[k] is Some,
            |k: int| self.dense@[self.sparse@[k].unwrap() as int],
        )
    }
}

impl<T, K: Key> SparseSet<T, K> {
    /// The internal consistency of the sparse, dense and key arrays.
    pub closed spec fn wf(&self) -> bool {
        &&& self.sparse@.len() == self.capacity
        &&& self.dense@.len() == self.keys@.len()
        &&& forall|i: int|
            0 <= i < self.keys@.len() ==> {
                let k = #[trigger] self.keys@[i].key_index();
                &&& k < self.capacity
                &&& self.sparse@[k as int] is Some
                &&& self.sparse@[k as int].unwrap() as int == i
            }
        &&& forall|k: int|
            0 <= k < self.capacity && #[trigger] self.sparse@[k] is Some ==> {
                let i = self.sparse@[k].unwrap() as int;
                &&& i < self.keys@.len()
                &&& self.keys@[i].key_index() == k
            }
    }

    pub closed spec fn spec_capacity(&self) -> nat {
        self.capacity as nat
    }

    /// The keys in dense order.
    pub closed spec fn spec_keys(&self) -> Seq<K> {
        self.keys@
    }

    /// The values in dense order.
    pub closed spec fn spec_dense(&self) -> Seq<T> {
        self.dense@
    }

    /// The dense position of the value stored under index `k`.
    pub closed spec fn position(&self, k: int) -> int {
        self.sparse@[k].unwrap() as int
    }

    /// The dense arrays agree with the map view: position `i` holds the value
    /// of the key stored there, and each stored index has one position.
    pub proof fn lemma_dense_agrees(&self)
        requires
            self.wf(),
        ensures
            self.spec_keys().len() == self.spec_dense().len(),
            forall|i: int|
                0 <= i < self.spec_keys().len() ==> {
                    let k = #[trigger] self.spec_keys()[i].key_index() as int;
                    &&& k < self.spec_capacity()
                    &&& self@.contains_key(k)
                    &&& self@[k] == self.spec_dense()[i]
                    &&& self.position(k) == i
                },
            forall|k: int|
                #[trigger] self@.contains_key(k) ==> {
                    let i = self.position(k);
                    &&& 0 <= k < self.spec_capacity()
                    &&& 0 <= i < self.spec_keys().len()
                    &&& self.spec_keys()[i].key_index() == k
                },
    {
        assert forall|i: int| 0 <= i < self.spec_keys().len() implies {
            let k = #[trigger] self.spec_keys()[i].key_index() as int;
            &&& k < self.spec_capacity()
            &&& self@.contains_key(k)
            &&& self@[k] == self.spec_dense()[i]
            &&& self.position(k) == i
        } by {
            let k = self.keys@[i].key_index() as int;
            assert(self.sparse@[k] is Some);
            assert(self@.contains_key(k));
        }
    }

    /// A container with `capacity` empty slots.
    pub fn new(capacity: usize) -> (r: Self)
        ensures
            r.wf(),
            r@ == Map::<int, T>::empty(),
            r.spec_capacity() == capacity,
            r.spec_keys().len() == 0,
            r.spec_dense().len() == 0,
    {
        let mut sparse: Vec<Option<usize>> = Vec::new();
        let mut n: usize = 0;
        while n < capacity
            invariant
                n <= capacity,
                sparse@.len() == n,
                forall|k: int| 0 <= k < n ==> #[trigger] sparse@[k] is None,
            decreases capacity - n,
        {
            sparse.push(None);
            n = n + 1;
        }
        let r = SparseSet { capacity, sparse, dense: Vec::new(), keys: Vec::new() };
        assert(r@ =~= Map::<int, T>::empty());
        r
    }

    /// The slot that `key` addresses, or the error for a key out of range.
    fn validate_key(&self, key: K) -> (r: Result<usize, InvalidKeyError<K>>)
        ensures
            key_in_range(key, self.spec_capacity()) <==> r is Ok,
            match r {
                Ok(i) => i as nat == key.key_index(),
                Err(e) => e.kind == key_error(key, self.spec_capacity()),
            },
    {
        let key_usize = match key.into_usize() {
            Ok(i) => i,
            Err(e) => return Err(e),
        };
        if key_usize >= self.capacity {
            Err(
                InvalidKeyError {
                    kind: InvalidKeyErrorKind::KeyBiggerThanCapacity { key, capacity: self.capacity },
                },
            )
        } else {
            Ok(key_usize)
        }
    }

    /// Stores `value` under `key`. A key already present keeps its position
    /// and gets the new value; the previous value is returned. A new key is
    /// appended at the end of the dense arrays.
    pub fn insert(&mut self, key: K, value: T) -> (r: Result<Option<T>, InvalidKeyError<K>>)
        requires
            old(self).wf(),
        ensures
            final(self).wf(),
            final(self).spec_capacity() == old(self).spec_capacity(),
            key_in_range(key, old(self).spec_capacity()) <==> r is Ok,
            ({
                let k = key.key_index() as int;
                match r {
                    Ok(prev) => {
                        &&& final(self)@ == inserted(old(self)@, key, value)
                        &&& prev == lookup(old(self)@, key)
                        &&& old(self)@.contains_key(k) ==> {
                            &&& 0 <= old(self).position(k) < old(self).spec_dense().len()
                            &&& final(self).spec_keys() == old(self).spec_keys()
                            &&& final(self).spec_dense() == old(self).spec_dense().update(
                                old(self).position(k),
                                value,
                            )
                        }
                        &&& !old(self)@.contains_key(k) ==> {
                            &&& final(self).spec_keys() == old(self).spec_keys().push(key)
                            &&& final(self).spec_dense() == old(self).spec_dense().push(value)
                        }
                    },
                    Err(e) => {
                        &&& e.kind == key_error(key, old(self).spec_capacity())
                        &&& *final(self) == *old(self)
                    },
                }
            }),
    {
        let valid_key = match self.validate_key(key) {
            Ok(i) => i,
            Err(e) => return Err(e),
        };
        let ghost k = valid_key as int;
        match self.sparse[valid_key] {
            Some(index) => {
                let mut last_value = value;
                std::mem::swap(&mut self.dense[index], &mut last_value);
                proof {
                    assert(self@ =~= old(self)@.insert(k, value));
                }
                Ok(Some(last_value))
            },
            None => {
                let index = self.dense.len();
                proof {
                    assert forall|i: int| 0 <= i < self.keys@.len() implies #[trigger] self.keys@[
                        i
                    ].key_index() != k by {}
                }
                self.sparse.set(valid_key, Some(index));
                self.dense.push(value);
                self.keys.push(key);
                proof {
                    assert(self.keys@[index as int] == key);
                    assert forall|j: int|
                        0 <= j < self.capacity && #[trigger] self.sparse@[j] is Some implies {
                        let i = self.sparse@[j].unwrap() as int;
                        &&& i < self.keys@.len()
                        &&& self.keys@[i].key_index() == j
                    } by {
                        if j != k {
                            assert(old(self).sparse@[j] is Some);
                        }
                    }
                    assert(self@ =~= old(self)@.insert(k, value));
                }
                Ok(None)
            },
        }
    }

    /// The value stored under `key`, if any.
    pub fn get(&self, key: K) -> (r: Result<Option<&T>, InvalidKeyError<K>>)
        requires
            self.wf(),
        ensures
            key_in_range(key, self.spec_capacity()) <==> r is Ok,
            ({
                let k = key.key_index() as int;
                match r {
                    Ok(Some(v)) => lookup(self@, key) == Some(*v),
                    Ok(None) => lookup(self@, key) is None,
                    Err(e) => e.kind == key_error(key, self.spec_capacity()),
                }
            }),
    {
        let valid_key = match self.validate_key(key) {
            Ok(i) => i,
            Err(e) => return Err(e),
        };
        match self.sparse[valid_key] {
            Some(index) => Ok(Some(&self.dense[index])),
            None => Ok(None),
        }
    }

    /// Exclusive access to the value stored under `key`, if any. Whatever is
    /// written through it becomes the value under that key.
    pub fn get_mut(&mut self, key: K) -> (r: Result<Option<&mut T>, InvalidKeyError<K>>)
        requires
            old(self).wf(),
        ensures
            key_in_range(key, old(self).spec_capacity()) <==> r is Ok,
            ({
                let k = key.key_index() as int;
                match r {
                    Ok(Some(v)) => {
                        &&& old(self)@.contains_key(k)
                        &&& *v == old(self)@[k]
                        &&& 0 <= old(self).position(k) < old(self).spec_dense().len()
                    },
                    Ok(None) => !old(self)@.contains_key(k) && *final(self) == *old(self),
                    Err(e) => {
                        &&& e.kind == key_error(key, old(self).spec_capacity())
                        &&& *final(self) == *old(self)
                    },
                }
            }),
            r is Ok && (r->Ok_0) is Some ==> {
                let k = key.key_index() as int;
                &&& final(self).wf()
                &&& final(self).spec_capacity() == old(self).spec_capacity()
                &&& final(self)@ == old(self)@.insert(k, *final((r->Ok_0).unwrap()))
                &&& final(self).spec_keys() == old(self).spec_keys()
                &&& final(self).spec_dense() == old(self).spec_dense().update(
                    old(self).position(k),
                    *final((r->Ok_0).unwrap()),
                )
            },
    {
        let valid_key = match self.validate_key(key) {
            Ok(i) => i,
            Err(e) => return Err(e),
        };
        match self.sparse[valid_key] {
            Some(index) => Ok(Some(&mut self.dense[index])),
            None => Ok(None),
        }
    }

    /// Whether a value is stored under `key`.
    pub fn contains(&self, key: K) -> (r: Result<bool, InvalidKeyError<K>>)
        requires
            self.wf(),
        ensures
            key_in_range(key, self.spec_capacity()) <==> r is Ok,
            match r {
                Ok(b) => b == self@.contains_key(key.key_index() as int),
                Err(e) => e.kind == key_error(key, self.spec_capacity()),
            },
    {
        let valid_key = match self.validate_key(key) {
            Ok(i) => i,
            Err(e) => return Err(e),
        };
        Ok(self.sparse[valid_key].is_some())
    }

    /// Takes the value stored under `key` out of the container. The last value
    /// of the dense arrays moves into the freed position.
    pub fn remove(&mut self, key: K) -> (r: Result<Option<T>, InvalidKeyError<K>>)
        requires
            old(self).wf(),
        ensures
            final(self).wf(),
            final(self).spec_capacity() == old(self).spec_capacity(),
            key_in_range(key, old(self).spec_capacity()) <==> r is Ok,
            ({
                let k = key.key_index() as int;
                match r {
                    Ok(Some(v)) => {
                        &&& lookup(old(self)@, key) == Some(v)
                        &&& 0 <= old(self).position(k) < old(self).spec_dense().len()
                        &&& final(self).spec_dense().len() + 1 == old(self).spec_dense().len()
                        &&& final(self)@ == old(self)@.remove(k)
                        &&& final(self).spec_keys() == swap_remove_seq(
                            old(self).spec_keys(),
                            old(self).position(k),
                        )
                        &&& final(self).spec_dense() == swap_remove_seq(
                            old(self).spec_dense(),
                            old(self).position(k),
                        )
                    },
                    Ok(None) => lookup(old(self)@, key) is None && *final(self) == *old(self),
                    Err(e) => {
                        &&& e.kind == key_error(key, old(self).spec_capacity())
                        &&& *final(self) == *old(self)
                    },
                }
            }),
    {
        let valid_key = match self.validate_key(key) {
            Ok(i) => i,
            Err(e) => return Err(e),
        };
        let ghost k = valid_key as int;
        match self.sparse[valid_key] {
            Some(index) => {
                let last_index = self.dense.len() - 1;
                let moved_key = self.keys[last_index];
                let ghost moved = moved_key.key_index() as int;
                let value = self.dense.swap_remove(index);
                let _ = self.keys.swap_remove(index);
                self.sparse.set(valid_key, None);
                if index < last_index {
                    if let Ok(m) = moved_key.into_usize() {
                        self.sparse.set(m, Some(index));
                    }
                }
                proof {
                    let ok = old(self).keys@;
                    assert(self.keys@ =~= swap_remove_seq(ok, index as int));
                    assert(moved != k ==> index < last_index);
                    assert forall|i: int| 0 <= i < self.keys@.len() implies {
                        let j = #[trigger] self.keys@[i].key_index();
                        &&& j < self.capacity
                        &&& self.sparse@[j as int] is Some
                        &&& self.sparse@[j as int].unwrap() as int == i
                    } by {
                        if i == index {
                            assert(self.keys@[i] == ok[last_index as int]);
                        } else {
                            assert(self.keys@[i] == ok[i]);
                            assert(ok[i].key_index() != k);
                        }
                    }
                    assert forall|j: int|
                        0 <= j < self.capacity && #[trigger] self.sparse@[j] is Some implies {
                        let i = self.sparse@[j].unwrap() as int;
                        &&& i < self.keys@.len()
                        &&& self.keys@[i].key_index() == j
                    } by {
                        if j != moved {
                            assert(old(self).sparse@[j] is Some);
                            let i = old(self).sparse@[j].unwrap() as int;
                            assert(ok[i].key_index() == j);
                            assert(i != last_index);
                        }
                    }
                    assert(self@ =~= old(self)@.remove(k));
                }
                Ok(Some(value))
            },
            None => Ok(None),
        }
    }

    /// The number of stored values.
    pub fn len(&self) -> (r: usize)
        requires
            self.wf(),
        ensures
            r == self.spec_dense().len(),
            r == self.spec_keys().len(),
    {
        self.dense.len()
    }

    /// The stored values in dense order.
    pub fn dense(&self) -> (r: &Vec<T>)
        ensures
            r@ == self.spec_dense(),
    {
        &self.dense
    }

    /// Exclusive access to the value at dense position `i`: the value of key
    /// `keys()[i]`. Whatever is written through it becomes that key's value.
    pub fn dense_at_mut(&mut self, i: usize) -> (r: &mut T)
        requires
            old(self).wf(),
            i < old(self).spec_dense().len(),
        ensures
            *r == old(self).spec_dense()[i as int],
            final(self).wf(),
            final(self).spec_capacity() == old(self).spec_capacity(),
            final(self).spec_keys() == old(self).spec_keys(),
            final(self).spec_dense() == old(self).spec_dense().update(i as int, *final(r)),
            final(self)@ == old(self)@.insert(
                old(self).spec_keys()[i as int].key_index() as int,
                *final(r),
            ),
    {
        proof {
            self.lemma_dense_agrees();
        }
        &mut self.dense[i]
    }

    /// The stored keys in dense order, aligned with `dense()`.
    pub fn keys(&self) -> (r: &Vec<K>)
        ensures
            r@ == self.spec_keys(),
    {
        &self.keys
    }
}

/// After `insert(k, v)`, `get(k)` returns `v` and every key of another index
/// reads as before; in a new container, no key is present.
pub proof fn lemma_insert_then_get<T, K: Key>(m: Map<int, T>, k: K, v: T, other: K)
    ensures
        lookup(inserted(m, k, v), k) == Some(v),
        other.key_index() != k.key_index() ==> lookup(inserted(m, k, v), other) == lookup(
            m,
            other,
        ),
        lookup(Map::<int, T>::empty(), other) is None,
{
}

/// Inserting `v1` and then `v2` under the same key: the second insert finds
/// `v1` as the prior value, and `get` then returns `v2` only.
pub proof fn lemma_insert_twice<T, K: Key>(m: Map<int, T>, k: K, v1: T, v2: T)
    ensures
        lookup(inserted(m, k, v1), k) == Some(v1),
        inserted(inserted(m, k, v1), k, v2) == inserted(m, k, v2),
        lookup(inserted(inserted(m, k, v1), k, v2), k) == Some(v2),
{
    assert(inserted(inserted(m, k, v1), k, v2) =~= inserted(m, k, v2));
}

} // verus!
