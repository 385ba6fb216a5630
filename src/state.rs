use vstd::prelude::*;
use crate::catalog::Catalog;

verus! {

/// Shared connection state: the generation number of the published
/// connection, if any, and the catalog, which never changes after start-up.
pub struct MavConnState {
    pub connection: Option<u64>,
    pub parameters: Catalog,
}

impl MavConnState {
    /// State with no connection yet.
    pub fn new(parameters: Catalog) -> (r: MavConnState)
        ensures
            r.connection is None,
            r.parameters@ == parameters@,
    {
        MavConnState { connection: None, parameters }
    }

    /// Publishes a newly opened connection, replacing any earlier one, and
    /// returns its generation number.
    pub fn publish_connection(&mut self) -> (r: u64)
        ensures
            final(self).connection == Some(r),
            final(self).parameters@ == old(self).parameters@,
            r == match old(self).connection {
                Some(g) => if g < u64::MAX { (g + 1) as u64 } else { 0u64 },
                None => 0u64,
            },
    {
        let g: u64 = match self.connection {
            Some(g) => if g < u64::MAX { g + 1 } else { 0 },
            None => 0,
        };
        self.connection = Some(g);
        g
    }

    /// Whether connection `generation` is the one published now; tasks bound
    /// to an older connection use this to stop.
    pub fn is_current(&self, generation: u64) -> (r: bool)
        ensures
            r == (self.connection == Some(generation)),
    {
        match self.connection {
            Some(g) => g == generation,
            None => false,
        }
    }
}

} // verus!
