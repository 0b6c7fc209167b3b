//! Pools of reusable entities (identified by their 64-bit entity bits):
//! last returned, first handed out.

use vstd::prelude::*;

verus! {

/// Object pool for reusing entities.
pub struct ObjectPool {
    available: Vec<u64>,
}

impl ObjectPool {
    /// The entities ready for reuse, oldest first.
    pub closed spec fn view_pool(&self) -> Seq<u64> {
        self.available@
    }

    /// An empty pool.
    pub fn new() -> (p: Self)
        ensures
            p.view_pool() == Seq::<u64>::empty(),
    {
        ObjectPool { available: Vec::new() }
    }

    /// Return an entity to the pool for reuse.
    pub fn return_entity(&mut self, entity: u64)
        ensures
            final(self).view_pool() == old(self).view_pool().push(entity),
    {
        self.available.push(entity);
    }

    /// Get the most recently returned entity from the pool, or None if empty.
    pub fn get_entity(&mut self) -> (e: Option<u64>)
        ensures
            old(self).view_pool().len() == 0 ==> e.is_none() && final(self).view_pool()
                == old(self).view_pool(),
            old(self).view_pool().len() > 0 ==> e == Some(old(self).view_pool().last())
                && final(self).view_pool() == old(self).view_pool().drop_last(),
    {
        self.available.pop()
    }

    /// Check how many entities are available.
    pub fn available_count(&self) -> (n: usize)
        ensures
            n == self.view_pool().len(),
    {
        self.available.len()
    }
}

/// Pool for projectiles.
pub struct ProjectilePool {
    pub available: Vec<u64>,
}

impl ProjectilePool {
    /// The entities ready for reuse, oldest first.
    pub closed spec fn view_pool(&self) -> Seq<u64> {
        self.available@
    }

    /// An empty pool.
    pub fn new() -> (p: Self)
        ensures
            p.view_pool() == Seq::<u64>::empty(),
    {
        ProjectilePool { available: Vec::new() }
    }

    /// Return an entity to the pool for reuse.
    pub fn return_entity(&mut self, entity: u64)
        ensures
            final(self).view_pool() == old(self).view_pool().push(entity),
    {
        self.available.push(entity);
    }

    /// Get the most recently returned entity from the pool, or None if empty.
    pub fn get_entity(&mut self) -> (e: Option<u64>)
        ensures
            old(self).view_pool().len() == 0 ==> e.is_none() && final(self).view_pool()
                == old(self).view_pool(),
            old(self).view_pool().len() > 0 ==> e == Some(old(self).view_pool().last())
                && final(self).view_pool() == old(self).view_pool().drop_last(),
    {
        self.available.pop()
    }
}

/// Pool for damage number text entities.
pub struct DamageNumberPool {
    pub available: Vec<u64>,
}

impl DamageNumberPool {
    /// The entities ready for reuse, oldest first.
    pub closed spec fn view_pool(&self) -> Seq<u64> {
        self.available@
    }

    /// An empty pool.
    pub fn new() -> (p: Self)
        ensures
            p.view_pool() == Seq::<u64>::empty(),
    {
        DamageNumberPool { available: Vec::new() }
    }

    /// Return an entity to the pool for reuse.
    pub fn return_entity(&mut self, entity: u64)
        ensures
            final(self).view_pool() == old(self).view_pool().push(entity),
    {
        self.available.push(entity);
    }

    /// Get the most recently returned entity from the pool, or None if empty.
    pub fn get_entity(&mut self) -> (e: Option<u64>)
        ensures
            old(self).view_pool().len() == 0 ==> e.is_none() && final(self).view_pool()
                == old(self).view_pool(),
            old(self).view_pool().len() > 0 ==> e == Some(old(self).view_pool().last())
                && final(self).view_pool() == old(self).view_pool().drop_last(),
    {
        self.available.pop()
    }
}

/// Pool for visual effects (muzzle flash, death effect, splash).
pub struct EffectPool {
    pub available: Vec<u64>,
}

impl EffectPool {
    /// The entities ready for reuse, oldest first.
    pub closed spec fn view_pool(&self) -> Seq<u64> {
        self.available@
    }

    /// An empty pool.
    pub fn new() -> (p: Self)
        ensures
            p.view_pool() == Seq::<u64>::empty(),
    {
        EffectPool { available: Vec::new() }
    }

    /// Return an entity to the pool for reuse.
    pub fn return_entity(&mut self, entity: u64)
        ensures
            final(self).view_pool() == old(self).view_pool().push(entity),
    {
        self.available.push(entity);
    }

    /// Get the most recently returned entity from the pool, or None if empty.
    pub fn get_entity(&mut self) -> (e: Option<u64>)
        ensures
            old(self).view_pool().len() == 0 ==> e.is_none() && final(self).view_pool()
                == old(self).view_pool(),
            old(self).view_pool().len() > 0 ==> e == Some(old(self).view_pool().last())
                && final(self).view_pool() == old(self).view_pool().drop_last(),
    {
        self.available.pop()
    }
}

/// A pool hands back the entity returned last, and taking it leaves the
/// pool as it was before the return.
pub proof fn lemma_pool_last_in_first_out(pool: Seq<u64>, entity: u64)
    ensures
        pool.push(entity).len() > 0,
        pool.push(entity).last() == entity,
        pool.push(entity).drop_last() == pool,
{
    assert(pool.push(entity).drop_last() =~= pool);
}

} // verus!
