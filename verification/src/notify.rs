//! Single-slot broadcast of the current display state.
//!
//! The notifier keeps only the latest published state together with a
//! version counter.  A subscriber that polls after several publications
//! observes just the newest state; publishing never blocks and is never
//! lost on the publisher's side.  The I/O shell bridges this slot to
//! whatever push mechanism its clients use.

use vstd::prelude::*;

use crate::config::DisplayState;

verus! {

pub struct ChangeNotifier {
    pub latest: Option<DisplayState>,
    pub version: u64,
}

impl ChangeNotifier {
    /// A fresh notifier: nothing published yet.
    pub fn new() -> (n: ChangeNotifier)
        ensures
            n.latest is None,
            n.version == 0,
    {
        ChangeNotifier { latest: None, version: 0 }
    }

    /// Publish a state: it replaces whatever was in the slot.
    pub fn notify(&mut self, s: DisplayState)
        ensures
            final(self).latest is Some,
            final(self).latest->Some_0@ == s@,
            final(self).version == if old(self).version == u64::MAX {
                0u64
            } else {
                (old(self).version + 1) as u64
            },
    {
        self.latest = Some(s);
        self.version = if self.version == u64::MAX {
            0
        } else {
            self.version + 1
        };
    }

    /// The newest published state, if `seen` is stale; `None` while the
    /// subscriber already saw the current version (or nothing was published).
    pub fn poll(&self, seen: u64) -> (r: Option<&DisplayState>)
        ensures
            match r {
                Some(s) => self.latest is Some && s@ == self.latest->Some_0@ && seen != self.version,
                None => self.latest is None || seen == self.version,
            },
    {
        if seen == self.version {
            None
        } else {
            match &self.latest {
                Some(s) => Some(s),
                None => None,
            }
        }
    }

    pub fn version(&self) -> (v: u64)
        ensures
            v == self.version,
    {
        self.version
    }
}

} // verus!
