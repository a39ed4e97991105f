//! Storage for the links of the timer's entries.
//!
//! Entries are chained into doubly linked lists by token. The links live in a
//! slab of fixed size, which also hands out the tokens.
use slab::Slab;
use vstd::prelude::*;

verus! {

/// A point in time, counted in ticks since the timer's start.
pub type Tick = u64;

/// Names an entry of a timer while the entry is pending.
pub type Token = usize;

/// Stands where a list has no further entry.
pub const EMPTY: Token = usize::MAX;

/// The largest tick there is.
pub const TICK_MAX: Tick = u64::MAX;

/// Bytes that one slot of the slab takes at most.
pub const SLOT_BYTES: usize = 32;

/// As many slots as a wheel can have: the largest power of two.
pub const MAX_SLOTS: usize = usize::MAX / 2 + 1;

/// As many timeouts as a timer can hold: the slab that keeps them must not be too large.
pub const MAX_CAPACITY: usize = usize::MAX / 64;

/// The tick of an entry and its neighbours in the list of its slot.
#[derive(Copy, Clone, Debug)]
pub struct EntryLinks {
    pub tick: Tick,
    pub prev: Token,
    pub next: Token,
}

impl EntryLinks {
    /// The links of an entry that goes in front of `next`.
    pub fn new(tick: Tick, next: Token) -> (links: EntryLinks)
        ensures
            links == (EntryLinks { tick, prev: EMPTY, next }),
    {
        EntryLinks { tick, prev: EMPTY, next }
    }
}

/// A `slab::Slab` of entry links, indexed by token.
#[verifier::external_body]
pub struct LinkSlab {
    slab: Slab<EntryLinks, usize>,
}

/// What the occupied slots of the slab hold, by token.
pub uninterp spec fn slab_contents(slab: LinkSlab) -> Map<Token, EntryLinks>;

/// The vacant slots of the slab, in the order in which it will fill them.
pub uninterp spec fn slab_vacant(slab: LinkSlab) -> Seq<Token>;

impl LinkSlab {
    /// The number of slots, occupied or vacant.
    pub open spec fn size(self) -> nat {
        slab_contents(self).len() + slab_vacant(self).len()
    }

    /// `slab::Slab::new`. The new slab is empty and will fill its slots in
    /// ascending order. The call allocates all slots at once; the bound keeps
    /// the allocation within what a `Vec` can hold.
    #[verifier::external_body]
    pub(crate) fn new(capacity: usize) -> (r: LinkSlab)
        requires
            capacity * SLOT_BYTES <= isize::MAX,
        ensures
            slab_contents(r).is_empty(),
            slab_contents(r).dom().finite(),
            slab_vacant(r) == Seq::new(capacity as nat, |i: int| i as usize),
    {
        LinkSlab { slab: Slab::new(capacity) }
    }

    /// `slab::Slab::count`: the number of occupied slots.
    #[verifier::external_body]
    pub(crate) fn count(&self) -> (r: usize)
        ensures
            r == slab_contents(*self).len(),
    {
        self.slab.count()
    }

    /// `slab::Slab::get`: what the slot holds, or nothing if it is vacant.
    /// Beyond its last slot the slab may panic, so the token lies below the size.
    #[verifier::external_body]
    pub(crate) fn get(&self, token: Token) -> (r: Option<&EntryLinks>)
        requires
            token < self.size(),
        ensures
            r == (if slab_contents(*self).contains_key(token) {
                Some(&slab_contents(*self)[token])
            } else {
                None
            }),
    {
        self.slab.get(token)
    }

    /// Indexing of a `slab::Slab`: what an occupied slot holds.
    #[verifier::external_body]
    pub(crate) fn at(&self, token: Token) -> (r: EntryLinks)
        requires
            slab_contents(*self).contains_key(token),
        ensures
            r == slab_contents(*self)[token],
    {
        self.slab[token]
    }

    /// Mutable indexing of a `slab::Slab`: overwrites what an occupied slot holds.
    #[verifier::external_body]
    pub(crate) fn set(&mut self, token: Token, links: EntryLinks)
        requires
            slab_contents(*old(self)).contains_key(token),
        ensures
            slab_contents(*final(self)) == slab_contents(*old(self)).insert(token, links),
            slab_vacant(*final(self)) == slab_vacant(*old(self)),
    {
        self.slab[token] = links;
    }

    /// `slab::Slab::insert`: fills the first vacant slot and returns its token,
    /// or hands the links back if no slot is vacant.
    #[verifier::external_body]
    pub(crate) fn insert(&mut self, links: EntryLinks) -> (r: Result<Token, EntryLinks>)
        ensures
            match r {
                Ok(token) => {
                    &&& slab_vacant(*old(self)).len() > 0
                    &&& token == slab_vacant(*old(self))[0]
                    &&& slab_contents(*final(self)) == slab_contents(*old(self)).insert(
                        token,
                        links,
                    )
                    &&& slab_vacant(*final(self)) == slab_vacant(*old(self)).skip(1)
                },
                Err(back) => {
                    &&& slab_vacant(*old(self)).len() == 0
                    &&& back == links
                    &&& slab_contents(*final(self)) == slab_contents(*old(self))
                    &&& slab_vacant(*final(self)) == slab_vacant(*old(self))
                },
            },
    {
        self.slab.insert(links)
    }

    /// `slab::Slab::remove`: vacates an occupied slot and returns what it held.
    /// The slot is the first to be filled again.
    #[verifier::external_body]
    pub(crate) fn remove(&mut self, token: Token) -> (r: Option<EntryLinks>)
        requires
            slab_contents(*old(self)).contains_key(token),
        ensures
            r == Some(slab_contents(*old(self))[token]),
            slab_contents(*final(self)) == slab_contents(*old(self)).remove(token),
            slab_vacant(*final(self)) == seq![token] + slab_vacant(*old(self)),
    {
        self.slab.remove(token)
    }
}

/// No tick is later than the last one. The most slots are the largest power of two that a
/// `usize` can hold, and the most entries those that fill what memory can be addressed at
/// once. The end of a list is not the token of any entry.
pub proof fn law_links_limits(tick: Tick, token: Token)
    ensures
        tick <= TICK_MAX,
        TICK_MAX == u64::MAX,
        token <= EMPTY,
        2 * MAX_SLOTS == usize::MAX + 1,
        MAX_CAPACITY < EMPTY,
        MAX_CAPACITY * SLOT_BYTES <= isize::MAX < (MAX_CAPACITY + 1) * SLOT_BYTES,
{
}

} // verus!
