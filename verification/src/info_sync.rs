//! The value kept by a background updater: the latest value that its worker delivered.
//!
//! The worker thread and the channel stand outside the library; each time the holder looks,
//! it hands over the values that arrived since the last look.
use vstd::prelude::*;

verus! {

/// The latest delivered value, if any was delivered.
#[derive(Debug)]
pub struct InfoState<T> {
    data: Option<T>,
}

impl<T> InfoState<T> {
    /// The value held.
    pub closed spec fn value(&self) -> Option<T> {
        self.data
    }

    /// A holder with no value yet.
    pub fn new() -> (r: InfoState<T>)
        ensures
            r.value() is None,
    {
        InfoState { data: None }
    }

    /// Takes in the values delivered since the last look, oldest first: the newest one
    /// replaces the value held; with none, the value held stays.
    pub fn absorb(&mut self, delivered: Vec<T>)
        ensures
            final(self).value() == absorbed(old(self).value(), delivered@),
    {
        let mut delivered = delivered;
        if let Some(last) = delivered.pop() {
            self.data = Some(last);
        }
    }

    /// Takes in what a blocking wait for the next value gave (`None` when the worker has
    /// gone), when no value is held yet; a value held stays.
    pub fn fill_if_empty(&mut self, waited: Option<T>)
        ensures
            final(self).value() == filled(old(self).value(), waited),
    {
        if self.data.is_none() {
            self.data = waited;
        }
    }

    /// The value held.
    pub fn latest(&self) -> (r: &Option<T>)
        ensures
            *r == self.value(),
    {
        &self.data
    }
}

/// The value held after a blocking wait gave `waited` while holding `held`.
pub open spec fn filled<T>(held: Option<T>, waited: Option<T>) -> Option<T> {
    if held is Some {
        held
    } else {
        waited
    }
}

/// Once a value is held, a value stays held: neither taking in delivered values nor a
/// blocking wait takes it away.
pub proof fn lemma_held_stays<T>(held: Option<T>, delivered: Seq<T>, waited: Option<T>)
    requires
        held is Some,
    ensures
        absorbed(held, delivered) is Some,
        filled(held, waited) is Some,
        filled(held, waited) == held,
{
}

/// Absorbing delivered values in two batches leaves the value that absorbing them in one
/// batch leaves.
pub proof fn lemma_absorb_batches<T>(held: Option<T>, first: Seq<T>, second: Seq<T>)
    ensures
        absorbed(absorbed(held, first), second) == absorbed(held, first + second),
{
    if second.len() > 0 {
        assert((first + second).last() == second.last());
    } else {
        assert(first + second =~= first);
    }
}

/// The value held after absorbing `delivered` while holding `held`.
pub open spec fn absorbed<T>(held: Option<T>, delivered: Seq<T>) -> Option<T> {
    if delivered.len() == 0 {
        held
    } else {
        Some(delivered.last())
    }
}

} // verus!
