//! One reported or computed value together with its timestamp.

use vstd::prelude::*;

use crate::Moment;
use crate::ValueType;

verus! {

/// A value reported by a source or published by an oracle, with the moment
/// at which it was last set. Both fields are absent until the first update.
#[derive(Clone, Copy, PartialEq, Eq, Debug)]
pub struct ExternalValue {
    pub value: Option<ValueType>,
    pub last_changed: Option<Moment>,
}

/// Order on optional values: absent before present, present by the value.
pub open spec fn opt_value_lt(a: Option<ValueType>, b: Option<ValueType>) -> bool {
    match (a, b) {
        (Option::None, Option::None) => false,
        (Option::None, Option::Some(_)) => true,
        (Option::Some(_), Option::None) => false,
        (Option::Some(x), Option::Some(y)) => x < y,
    }
}

/// Order on optional moments: absent before present, present by the moment.
pub open spec fn opt_moment_le(a: Option<Moment>, b: Option<Moment>) -> bool {
    match (a, b) {
        (Option::None, _) => true,
        (Option::Some(_), Option::None) => false,
        (Option::Some(x), Option::Some(y)) => x <= y,
    }
}

impl ExternalValue {
    /// The value and its timestamp are present or absent together.
    pub open spec fn wf(self) -> bool {
        self.value is Some <==> self.last_changed is Some
    }

    /// Total order: compare on `value` first (absent before present), ties
    /// broken by `last_changed`.
    pub open spec fn spec_le(self, other: Self) -> bool {
        opt_value_lt(self.value, other.value) || (self.value == other.value
            && opt_moment_le(self.last_changed, other.last_changed))
    }

    /// An empty external value: nothing reported yet.
    pub fn new() -> (r: ExternalValue)
        ensures
            r.value is None,
            r.last_changed is None,
            r.wf(),
    {
        ExternalValue { value: None, last_changed: None }
    }

    /// A value first reported at `now`.
    pub fn with_value(value: ValueType, now: Moment) -> (r: ExternalValue)
        ensures
            r.value == Some(value),
            r.last_changed == Some(now),
            r.wf(),
    {
        ExternalValue { value: Some(value), last_changed: Some(now) }
    }

    /// Resets both fields to absent.
    pub fn clean(&mut self)
        ensures
            final(self).value is None,
            final(self).last_changed is None,
            final(self).wf(),
    {
        self.value = None;
        self.last_changed = None;
    }

    /// Records that the value was touched at `now`. Time is monotonic: `now`
    /// must not precede the recorded timestamp.
    pub fn update_time(&mut self, now: Moment)
        requires
            old(self).last_changed matches Some(t) ==> t <= now,
        ensures
            final(self).value == old(self).value,
            final(self).last_changed == Some(now),
    {
        self.last_changed = Some(now);
    }

    /// Sets the value and stamps it with `now`.
    pub fn update(&mut self, value: ValueType, now: Moment)
        requires
            old(self).last_changed matches Some(t) ==> t <= now,
        ensures
            final(self).value == Some(value),
            final(self).last_changed == Some(now),
            final(self).wf(),
    {
        self.value = Some(value);
        self.update_time(now);
    }

    /// Executable form of the total order [`ExternalValue::spec_le`].
    pub fn le(&self, other: &ExternalValue) -> (r: bool)
        ensures
            r == self.spec_le(*other),
    {
        match (self.value, other.value) {
            (None, None) => Self::moment_le(self.last_changed, other.last_changed),
            (None, Some(_)) => true,
            (Some(_), None) => false,
            (Some(x), Some(y)) => {
                if x < y {
                    true
                } else if x == y {
                    Self::moment_le(self.last_changed, other.last_changed)
                } else {
                    false
                }
            },
        }
    }

    fn moment_le(a: Option<Moment>, b: Option<Moment>) -> (r: bool)
        ensures
            r == opt_moment_le(a, b),
    {
        match (a, b) {
            (None, _) => true,
            (Some(_), None) => false,
            (Some(x), Some(y)) => x <= y,
        }
    }
}

impl Default for ExternalValue {
    /// The default is the empty external value.
    fn default() -> (r: ExternalValue)
        ensures
            r.value is None,
            r.last_changed is None,
            r.wf(),
    {
        ExternalValue { value: None, last_changed: None }
    }
}

} // verus!
