use vstd::prelude::*;

verus! {

/// The absolute deadline of an entry created or renewed at `now` with the
/// given time-to-live.  The sum saturates: an entry whose deadline would lie
/// beyond the largest representable instant never expires.
pub open spec fn deadline(now: u64, duration: u64) -> u64 {
    if now + duration > u64::MAX {
        u64::MAX
    } else {
        (now + duration) as u64
    }
}

/// A stored value together with its absolute expiration deadline and the
/// time-to-live it was created with.  The original time-to-live is kept so
/// that renewal can recompute the deadline without the caller supplying the
/// duration again.
pub struct InternalEntry<V> {
    pub value: V,
    pub expiration: u64,
    pub duration: u64,
}

impl<V> InternalEntry<V> {
    /// An entry is expired strictly after its deadline: it is still live
    /// exactly at the deadline instant.
    pub open spec fn spec_expired(self, now: u64) -> bool {
        now > self.expiration
    }

    pub fn new(value: V, duration: u64, now: u64) -> (r: Self)
        ensures
            r.value == value,
            r.duration == duration,
            r.expiration == deadline(now, duration),
    {
        InternalEntry { value, expiration: now.saturating_add(duration), duration }
    }

    pub fn is_expired(&self, now: u64) -> (r: bool)
        ensures
            r == self.spec_expired(now),
    {
        now > self.expiration
    }

    /// Renews the entry: the deadline becomes `now` plus the original
    /// time-to-live; the value and the time-to-live itself are untouched.
    pub fn reset_duration(&mut self, now: u64)
        ensures
            final(self).value == old(self).value,
            final(self).duration == old(self).duration,
            final(self).expiration == deadline(now, old(self).duration),
    {
        self.expiration = now.saturating_add(self.duration);
    }
}

} // verus!
