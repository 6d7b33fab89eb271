//! Capture-side decisions the device layer acts on: which input device a
//! preference list selects, and the session epoch that keeps stale device
//! callbacks from writing into a newer session's buffer. Opening streams
//! and receiving callbacks is platform I/O outside the library.
use crate::chars::str_eq;
use vstd::prelude::*;

verus! {

/// The first index whose name equals the wanted one, or -1.
pub open spec fn name_position(names: Seq<String>, want: Seq<char>) -> int
    decreases names.len(),
{
    if names.len() == 0 {
        -1
    } else if names[0]@ == want {
        0
    } else {
        let t = name_position(names.skip(1), want);
        if t == -1 {
            -1
        } else {
            t + 1
        }
    }
}

proof fn lemma_name_position_first(names: Seq<String>, want: Seq<char>, i: int)
    requires
        0 <= i < names.len(),
        names[i]@ == want,
        forall|k: int| 0 <= k < i ==> (#[trigger] names[k])@ != want,
    ensures
        name_position(names, want) == i,
    decreases i,
{
    if i > 0 {
        lemma_name_position_first(names.skip(1), want, i - 1);
    }
}

proof fn lemma_name_position_none(names: Seq<String>, want: Seq<char>)
    requires
        forall|k: int| 0 <= k < names.len() ==> (#[trigger] names[k])@ != want,
    ensures
        name_position(names, want) == -1,
    decreases names.len(),
{
    if names.len() > 0 {
        lemma_name_position_none(names.skip(1), want);
    }
}

/// The device the preferences select from the enumerated names, first
/// match wins: an in-range explicit index, else the first device with the
/// preferred name, else none (the caller falls back to the system
/// default).
pub open spec fn selected_device(
    names: Seq<String>,
    preferred_index: Option<usize>,
    preferred_name: Option<Seq<char>>,
) -> Option<int> {
    match preferred_index {
        Some(i) if i < names.len() => Some(i as int),
        _ => match preferred_name {
            Some(want) => if name_position(names, want) >= 0 {
                Some(name_position(names, want))
            } else {
                None
            },
            None => None,
        },
    }
}

/// Pick the input device: explicit index first, then name match, then
/// none, which means the system default.
pub fn select_input_device(
    names: &Vec<String>,
    preferred_index: Option<usize>,
    preferred_name: Option<&str>,
) -> (r: Option<usize>)
    ensures
        match r {
            Some(i) => selected_device(
                names@,
                preferred_index,
                match preferred_name {
                    Some(n) => Some(n@),
                    None => None,
                },
            ) == Some(i as int),
            None => selected_device(
                names@,
                preferred_index,
                match preferred_name {
                    Some(n) => Some(n@),
                    None => None,
                },
            ) is None,
        },
{
    if let Some(i) = preferred_index {
        if i < names.len() {
            return Some(i);
        }
    }
    match preferred_name {
        Some(want) => {
            let mut j: usize = 0;
            while j < names.len()
                invariant
                    j <= names@.len(),
                    forall|k: int| 0 <= k < j ==> (#[trigger] names@[k])@ != want@,
                decreases names@.len() - j,
            {
                if str_eq(names[j].as_str(), want) {
                    proof {
                        lemma_name_position_first(names@, want@, j as int);
                    }
                    return Some(j);
                }
                j = j + 1;
            }
            proof {
                lemma_name_position_none(names@, want@);
            }
            None
        },
        None => None,
    }
}

/// The session epoch: incremented whenever capture starts or stops, so a
/// device callback started under an earlier epoch can see that it is
/// stale and must not write into the shared buffer.
pub struct SessionEpoch {
    pub current: u64,
}

impl SessionEpoch {
    /// A fresh epoch counter.
    pub fn new() -> (r: Self)
        ensures
            r.current == 0,
    {
        SessionEpoch { current: 0 }
    }

    /// Starting a capture bumps the epoch; the returned value is the
    /// session id the new stream's callbacks carry.
    pub fn start_capture(&mut self) -> (id: u64)
        requires
            old(self).current < u64::MAX,
        ensures
            final(self).current == old(self).current + 1,
            id == final(self).current,
    {
        self.current = self.current + 1;
        self.current
    }

    /// Stopping a capture bumps the epoch again, invalidating callbacks
    /// still in flight for the stopped stream.
    pub fn stop_capture(&mut self)
        requires
            old(self).current < u64::MAX,
        ensures
            final(self).current == old(self).current + 1,
    {
        self.current = self.current + 1;
    }

    /// A callback may write exactly when the epoch it captured is still
    /// the live one.
    pub fn callback_is_live(&self, callback_epoch: u64) -> (r: bool)
        ensures
            r == (callback_epoch == self.current),
    {
        callback_epoch == self.current
    }
}

} // verus!
