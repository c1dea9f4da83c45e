use vstd::prelude::*;
use heapless::HistoryBuffer;

use crate::message::Message;
use crate::types::{Cache, Header};

verus! {

#[verifier::external_type_specification]
#[verifier::external_body]
#[verifier::reject_recursive_types(T)]
pub struct ExHistoryBuffer<T, const N: usize>(HistoryBuffer<T, N>);

/// What a one-slot history buffer holds, oldest first.
pub uninterp spec fn held_single(h: HistoryBuffer<Message, 1>) -> Seq<Message>;

/// What an eight-slot history buffer holds, oldest first.
pub uninterp spec fn held_tiny(h: HistoryBuffer<Message, 8>) -> Seq<Message>;

/// What a sixty-four-slot history buffer holds, oldest first.
pub uninterp spec fn held_small(h: HistoryBuffer<Message, 64>) -> Seq<Message>;

/// The last `n` items of `s` (all of them when there are fewer).
pub open spec fn keep_last(s: Seq<Message>, n: nat) -> Seq<Message> {
    if s.len() <= n {
        s
    } else {
        s.subrange(s.len() - n, s.len() as int)
    }
}

/// Relies on heapless::HistoryBuffer::new: a new buffer is empty.
#[verifier::external_body]
fn single_new() -> (r: HistoryBuffer<Message, 1>)
    ensures
        held_single(r) == Seq::<Message>::empty(),
{
    HistoryBuffer::new()
}

/// Relies on heapless::HistoryBuffer::new: a new buffer is empty.
#[verifier::external_body]
fn tiny_new() -> (r: HistoryBuffer<Message, 8>)
    ensures
        held_tiny(r) == Seq::<Message>::empty(),
{
    HistoryBuffer::new()
}

/// Relies on heapless::HistoryBuffer::new: a new buffer is empty.
#[verifier::external_body]
fn small_new() -> (r: HistoryBuffer<Message, 64>)
    ensures
        held_small(r) == Seq::<Message>::empty(),
{
    HistoryBuffer::new()
}

/// Relies on heapless::HistoryBuffer::write: the item becomes the newest and,
/// once the buffer is full, the oldest is overwritten.
#[verifier::external_body]
fn single_write(h: &mut HistoryBuffer<Message, 1>, m: Message)
    ensures
        held_single(*final(h)) == keep_last(held_single(*old(h)).push(m), 1),
{
    h.write(m)
}

/// Relies on heapless::HistoryBuffer::write: the item becomes the newest and,
/// once the buffer is full, the oldest is overwritten.
#[verifier::external_body]
fn tiny_write(h: &mut HistoryBuffer<Message, 8>, m: Message)
    ensures
        held_tiny(*final(h)) == keep_last(held_tiny(*old(h)).push(m), 8),
{
    h.write(m)
}

/// Relies on heapless::HistoryBuffer::write: the item becomes the newest and,
/// once the buffer is full, the oldest is overwritten.
#[verifier::external_body]
fn small_write(h: &mut HistoryBuffer<Message, 64>, m: Message)
    ensures
        held_small(*final(h)) == keep_last(held_small(*old(h)).push(m), 64),
{
    h.write(m)
}

/// Relies on heapless::HistoryBuffer::oldest_ordered: every held item, from
/// the oldest to the newest.
#[verifier::external_body]
fn single_items(h: &HistoryBuffer<Message, 1>) -> (r: Vec<Message>)
    ensures
        r@ == held_single(*h),
{
    h.oldest_ordered().cloned().collect()
}

/// Relies on heapless::HistoryBuffer::oldest_ordered: every held item, from
/// the oldest to the newest.
#[verifier::external_body]
fn tiny_items(h: &HistoryBuffer<Message, 8>) -> (r: Vec<Message>)
    ensures
        r@ == held_tiny(*h),
{
    h.oldest_ordered().cloned().collect()
}

/// Relies on heapless::HistoryBuffer::oldest_ordered: every held item, from
/// the oldest to the newest.
#[verifier::external_body]
fn small_items(h: &HistoryBuffer<Message, 64>) -> (r: Vec<Message>)
    ensures
        r@ == held_small(*h),
{
    h.oldest_ordered().cloned().collect()
}

/// Whether `n` is one of the ring sizes on offer: 1, 8 or 64.
pub open spec fn valid_cache_size(n: int) -> bool {
    n == 1 || n == 8 || n == 64
}

/// Ring of the most recent messages of a room, replayed to new clients.
pub enum CacheBuffer {
    Single(HistoryBuffer<Message, 1>),
    Tiny(HistoryBuffer<Message, 8>),
    Small(Box<HistoryBuffer<Message, 64>>),
}

impl View for CacheBuffer {
    type V = Seq<Message>;

    /// The cached messages, oldest first.
    open spec fn view(&self) -> Seq<Message> {
        match self {
            CacheBuffer::Single(h) => held_single(*h),
            CacheBuffer::Tiny(h) => held_tiny(*h),
            CacheBuffer::Small(h) => held_small(**h),
        }
    }
}

impl CacheBuffer {
    /// Number of messages the ring keeps.
    pub open spec fn spec_capacity(&self) -> nat {
        match self {
            CacheBuffer::Single(_) => 1,
            CacheBuffer::Tiny(_) => 8,
            CacheBuffer::Small(_) => 64,
        }
    }

    /// An empty ring of the size the option names.
    pub fn new(cache: &Cache) -> (r: CacheBuffer)
        requires
            valid_cache_size(cache.spec_size() as int),
        ensures
            r@ == Seq::<Message>::empty(),
            r.spec_capacity() == cache.spec_size(),
    {
        let n = cache.size();
        if n == 1 {
            CacheBuffer::Single(single_new())
        } else if n == 8 {
            CacheBuffer::Tiny(tiny_new())
        } else {
            CacheBuffer::Small(Box::new(small_new()))
        }
    }

    /// Number of messages the ring keeps.
    pub fn capacity(&self) -> (r: usize)
        ensures
            r == self.spec_capacity(),
    {
        match self {
            CacheBuffer::Single(_) => 1,
            CacheBuffer::Tiny(_) => 8,
            CacheBuffer::Small(_) => 64,
        }
    }

    /// Append a message, dropping the oldest once the ring is full.
    pub fn write(&mut self, msg: Message)
        ensures
            final(self).spec_capacity() == old(self).spec_capacity(),
            final(self)@ == keep_last(old(self)@.push(msg), old(self).spec_capacity()),
    {
        match self {
            CacheBuffer::Single(h) => single_write(h, msg),
            CacheBuffer::Tiny(h) => tiny_write(h, msg),
            CacheBuffer::Small(h) => small_write(h, msg),
        }
    }

    /// A copy of the cached messages in FIFO order, each with a broadcast
    /// header.
    pub fn to_vec(&self) -> (r: Vec<(Header, Message)>)
        ensures
            r@.len() == self@.len(),
            forall|i: int|
                0 <= i < r@.len() ==> #[trigger] r@[i] == (
                Header { to: None, is_meta: false, is_cache: false },
                self@[i],
            ),
    {
        let items = match self {
            CacheBuffer::Single(h) => single_items(h),
            CacheBuffer::Tiny(h) => tiny_items(h),
            CacheBuffer::Small(h) => small_items(h),
        };
        let mut rest = items;
        let ghost all = rest@;
        let mut out: Vec<(Header, Message)> = Vec::new();
        while rest.len() > 0
            invariant
                out@.len() + rest@.len() == all.len(),
                rest@ == all.subrange(out@.len() as int, all.len() as int),
                forall|i: int|
                    0 <= i < out@.len() ==> #[trigger] out@[i] == (
                    Header { to: None, is_meta: false, is_cache: false },
                    all[i],
                ),
            decreases rest@.len(),
        {
            let m = rest.remove(0);
            out.push((Header::broadcast(), m));
        }
        out
    }
}

} // verus!
