use vstd::prelude::*;
use id_pool::IdPool;

use crate::types::PortID;

verus! {

#[verifier::external_type_specification]
#[verifier::external_body]
pub struct ExIdPool(IdPool);

/// The ids that a pool has free.
pub uninterp spec fn pool_free(p: IdPool) -> Set<u16>;

/// The ids that a pool was made with: the range given to `new_ranged`.
pub uninterp spec fn pool_span(p: IdPool) -> Set<u16>;

/// The ids `x` with `start <= x < end`.
pub open spec fn id_range(start: u16, end: u16) -> Set<u16> {
    Set::new(|x: u16| start <= x < end)
}

/// Whether `x` is the smallest member of `s`.
pub open spec fn is_least(x: u16, s: Set<u16>) -> bool {
    s.contains(x) && forall|y: u16| s.contains(y) ==> x <= y
}

/// Relies on id_pool::IdPool::new_ranged: every id of `start..end` is free.
#[verifier::external_body]
fn pool_new(start: u16, end: u16) -> (r: IdPool)
    requires
        start < end,
    ensures
        pool_span(r) == id_range(start, end),
        pool_free(r) == id_range(start, end),
{
    IdPool::new_ranged(start..end)
}

/// Relies on id_pool::IdPool::request_id: the lowest free id, which stops
/// being free, or `None` when no id is free.
#[verifier::external_body]
fn pool_request(p: &mut IdPool) -> (r: Option<u16>)
    ensures
        pool_span(*final(p)) == pool_span(*old(p)),
        r is None <==> pool_free(*old(p)).is_empty(),
        r is None ==> pool_free(*final(p)) == pool_free(*old(p)),
        r matches Some(x) ==> is_least(x, pool_free(*old(p))) && pool_free(*final(p))
            == pool_free(*old(p)).remove(x),
{
    p.request_id()
}

/// Relies on id_pool::IdPool::return_id: an id of the pool's range that is in
/// use becomes free again.
#[verifier::external_body]
fn pool_return(p: &mut IdPool, id: u16)
    requires
        pool_span(*old(p)).contains(id),
        !pool_free(*old(p)).contains(id),
    ensures
        pool_span(*final(p)) == pool_span(*old(p)),
        pool_free(*final(p)) == pool_free(*old(p)).insert(id),
{
    let _ = p.return_id(id);
}

/// Ports handed to children, drawn from a configured `start..end` range.
pub struct PortPool {
    pool: Option<IdPool>,
    start: u16,
    end: u16,
}

impl PortPool {
    /// The ports the pool covers.
    pub closed spec fn span(&self) -> Set<u16> {
        id_range(self.start, self.end)
    }

    /// The ports available for the next `acquire`.
    pub closed spec fn free(&self) -> Set<u16> {
        match self.pool {
            Some(p) => pool_free(p),
            None => Set::empty(),
        }
    }

    pub closed spec fn wf(&self) -> bool {
        match self.pool {
            Some(p) => self.start < self.end && pool_span(p) == id_range(self.start, self.end)
                && pool_free(p).subset_of(pool_span(p)),
            None => self.start >= self.end,
        }
    }

    /// A pool where every port of `start..end` is available.
    pub fn new(start: PortID, end: PortID) -> (r: PortPool)
        ensures
            r.wf(),
            r.span() == id_range(start, end),
            r.free() == id_range(start, end),
    {
        if start < end {
            PortPool { pool: Some(pool_new(start, end)), start, end }
        } else {
            proof {
                assert(id_range(start, end) =~= Set::empty());
            }
            PortPool { pool: None, start, end }
        }
    }

    /// Take the smallest available port, or `None` when all are in use.
    pub fn acquire(&mut self) -> (r: Option<PortID>)
        requires
            old(self).wf(),
        ensures
            final(self).wf(),
            final(self).span() == old(self).span(),
            r is None <==> old(self).free().is_empty(),
            r is None ==> final(self).free() == old(self).free(),
            r matches Some(x) ==> is_least(x, old(self).free()) && final(self).free()
                == old(self).free().remove(x) && old(self).span().contains(x),
    {
        match &mut self.pool {
            Some(p) => pool_request(p),
            None => None,
        }
    }

    /// Make a port that is in use available again.
    pub fn release(&mut self, port: PortID)
        requires
            old(self).wf(),
            old(self).span().contains(port),
            !old(self).free().contains(port),
        ensures
            final(self).wf(),
            final(self).span() == old(self).span(),
            final(self).free() == old(self).free().insert(port),
    {
        match &mut self.pool {
            Some(p) => pool_return(p, port),
            None => {},
        }
    }
}

} // verus!
