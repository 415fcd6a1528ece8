//! The most recent scan outcome together with the time it was observed.

use vstd::prelude::*;
use crate::scan::{PlayerData, ScanError};

verus! {

/// A scan outcome and the time (milliseconds since the Unix epoch) at which
/// it was observed; the two are only ever replaced together.
#[derive(Debug, PartialEq, Eq)]
pub struct Snapshot {
    pub result: Result<Vec<PlayerData>, ScanError>,
    pub observed_at: i64,
}

/// Holds the current snapshot. A failed scan never displaces a successful
/// one: the players' data stay on show until a later successful scan
/// replaces them. A failure replaces only an earlier failure.
pub struct ResultStore {
    current: Snapshot,
}

impl ResultStore {
    /// The snapshot on show.
    pub closed spec fn held(&self) -> Snapshot {
        self.current
    }

    /// A store that shows the outcome of the first scan.
    pub fn new(result: Result<Vec<PlayerData>, ScanError>, observed_at: i64) -> (r: ResultStore)
        ensures
            r.held() == (Snapshot { result, observed_at }),
    {
        ResultStore { current: Snapshot { result, observed_at } }
    }

    /// Publishes the outcome of a scan observed at `observed_at`: it replaces
    /// the snapshot, result and time together, unless it is a failure and the
    /// snapshot on show is a success, which then stays as it was.
    pub fn publish(&mut self, result: Result<Vec<PlayerData>, ScanError>, observed_at: i64)
        ensures
            (result is Err && old(self).held().result is Ok) ==> final(self).held() == old(
                self,
            ).held(),
            !(result is Err && old(self).held().result is Ok) ==> final(self).held() == (Snapshot {
                result,
                observed_at,
            }),
    {
        let keep = result.is_err() && self.current.result.is_ok();
        if !keep {
            self.current = Snapshot { result, observed_at };
        }
    }

    /// The snapshot on show.
    pub fn read(&self) -> (r: &Snapshot)
        ensures
            *r == self.held(),
    {
        &self.current
    }
}

} // verus!
