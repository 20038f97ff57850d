//! The fixed answers that the nodes give to requests that succeed.

use vstd::prelude::*;

verus! {

/// A successful answer whose text is fixed by the protocol.
#[derive(Clone, Copy, Debug, PartialEq, Eq, Structural)]
pub enum Reply {
    /// A master took a write, at once or into a transaction.
    Accepted,
    /// A slave took a write forwarded by its master.
    Synced,
    /// A master opened a transaction.
    EnteredTransaction,
    /// A master recorded a watched key.
    WatchSet,
    /// A transaction was carried out.
    ExecSucceeded,
}

impl Reply {
    /// The text sent back for this answer.
    pub open spec fn spec_text(self) -> Seq<char> {
        match self {
            Reply::Accepted => "Ok"@,
            Reply::Synced => "OK"@,
            Reply::EnteredTransaction => "Get into transaction!"@,
            Reply::WatchSet => "Watch has been set"@,
            Reply::ExecSucceeded => "EXEC successfully"@,
        }
    }

    /// The text sent back for this answer.
    pub fn text(&self) -> (s: String)
        ensures
            s@ == self.spec_text(),
    {
        match self {
            Reply::Accepted => "Ok".to_owned(),
            Reply::Synced => "OK".to_owned(),
            Reply::EnteredTransaction => "Get into transaction!".to_owned(),
            Reply::WatchSet => "Watch has been set".to_owned(),
            Reply::ExecSucceeded => "EXEC successfully".to_owned(),
        }
    }
}

} // verus!
