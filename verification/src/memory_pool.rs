//! Pools of emptied strings and vectors, kept for reuse.

use vstd::prelude::*;

verus! {

/// `String::with_capacity`: an empty string. Nothing is said of what was
/// allocated.
#[verifier::external_body]
fn empty_string_with_capacity(capacity: usize) -> (text: String)
    ensures
        text@.len() == 0,
{
    String::with_capacity(capacity)
}

/// `String::clear`: removes all contents of the string.
#[verifier::external_body]
fn clear_string(text: &mut String)
    ensures
        final(text)@.len() == 0,
{
    text.clear();
}

/// A pool of at most `capacity` emptied strings.
pub struct StringPool {
    pool: Vec<String>,
    capacity: usize,
}

impl StringPool {
    /// The number of strings the pool holds.
    pub closed spec fn pooled(&self) -> nat {
        self.pool@.len()
    }

    /// The number of strings the pool can hold.
    pub closed spec fn limit(&self) -> nat {
        self.capacity as nat
    }

    /// The pool never holds more than its limit, nor a string that is not
    /// empty.
    pub closed spec fn wf(&self) -> bool {
        &&& self.pool@.len() <= self.capacity
        &&& forall|i: int| 0 <= i < self.pool@.len() ==> (#[trigger] self.pool@[i])@.len() == 0
    }

    /// A pool never holds more than its limit.
    pub proof fn lemma_within_limit(&self)
        requires
            self.wf(),
        ensures
            self.pooled() <= self.limit(),
    {
    }

    /// An empty pool that keeps up to `capacity` strings.
    pub fn new(capacity: usize) -> (pool: StringPool)
        ensures
            pool.wf(),
            pool.pooled() == 0,
            pool.limit() == capacity,
            pool.pooled() <= pool.limit(),
    {
        StringPool { pool: Vec::with_capacity(capacity), capacity }
    }

    /// Hands out an empty string: a pooled one if there is any, else a new
    /// one.
    pub fn acquire(&mut self) -> (text: String)
        requires
            old(self).wf(),
        ensures
            final(self).wf(),
            text@.len() == 0,
            final(self).limit() == old(self).limit(),
            final(self).pooled() <= final(self).limit(),
            final(self).pooled() == if old(self).pooled() > 0 {
                old(self).pooled() - 1
            } else {
                0
            },
    {
        match self.pool.pop() {
            Some(text) => text,
            None => empty_string_with_capacity(32),
        }
    }

    /// Takes a string back: it is emptied, and kept unless the pool is full.
    pub fn release(&mut self, s: String)
        requires
            old(self).wf(),
        ensures
            final(self).wf(),
            final(self).limit() == old(self).limit(),
            final(self).pooled() <= final(self).limit(),
            final(self).pooled() == if old(self).pooled() < old(self).limit() {
                old(self).pooled() + 1
            } else {
                old(self).pooled()
            },
    {
        let mut s = s;
        clear_string(&mut s);
        if self.pool.len() < self.capacity {
            self.pool.push(s);
        }
    }
}

/// A pool of at most `capacity` emptied vectors.
pub struct VecPool<T> {
    pool: Vec<Vec<T>>,
    capacity: usize,
}

impl<T> VecPool<T> {
    /// The number of vectors the pool holds.
    pub closed spec fn pooled(&self) -> nat {
        self.pool@.len()
    }

    /// The number of vectors the pool can hold.
    pub closed spec fn limit(&self) -> nat {
        self.capacity as nat
    }

    /// The pool never holds more than its limit, nor a vector that is not
    /// empty.
    pub closed spec fn wf(&self) -> bool {
        &&& self.pool@.len() <= self.capacity
        &&& forall|i: int| 0 <= i < self.pool@.len() ==> (#[trigger] self.pool@[i])@.len() == 0
    }

    /// A pool never holds more than its limit.
    pub proof fn lemma_within_limit(&self)
        requires
            self.wf(),
        ensures
            self.pooled() <= self.limit(),
    {
    }

    /// An empty pool that keeps up to `capacity` vectors.
    pub fn new(capacity: usize) -> (pool: VecPool<T>)
        ensures
            pool.wf(),
            pool.pooled() == 0,
            pool.limit() == capacity,
            pool.pooled() <= pool.limit(),
    {
        VecPool { pool: Vec::with_capacity(capacity), capacity }
    }

    /// Hands out an empty vector: a pooled one if there is any, else a new
    /// one.
    pub fn acquire(&mut self) -> (items: Vec<T>)
        requires
            old(self).wf(),
        ensures
            final(self).wf(),
            items@.len() == 0,
            final(self).limit() == old(self).limit(),
            final(self).pooled() <= final(self).limit(),
            final(self).pooled() == if old(self).pooled() > 0 {
                old(self).pooled() - 1
            } else {
                0
            },
    {
        match self.pool.pop() {
            Some(items) => items,
            None => Vec::with_capacity(64),
        }
    }

    /// Takes a vector back: it is emptied, and kept unless the pool is full.
    pub fn release(&mut self, v: Vec<T>)
        requires
            old(self).wf(),
        ensures
            final(self).wf(),
            final(self).limit() == old(self).limit(),
            final(self).pooled() <= final(self).limit(),
            final(self).pooled() == if old(self).pooled() < old(self).limit() {
                old(self).pooled() + 1
            } else {
                old(self).pooled()
            },
    {
        let mut v = v;
        v.clear();
        if self.pool.len() < self.capacity {
            self.pool.push(v);
        }
    }
}

} // verus!
