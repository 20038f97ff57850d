//! The layer that lets a write through only when the service it is
//! addressed to names the master's address; other requests always pass.

use crate::text::{contains, lowercase, str_contains, to_lowercase};
use vstd::prelude::*;

verus! {

/// The address that a call must be addressed to, to be let through.
pub open spec fn master_address() -> Seq<char> {
    "127.0.0.1:8080"@
}

/// Why a call was refused.
#[derive(Clone, Copy, Debug, PartialEq, Eq, Structural)]
pub enum CallRejected {
    /// The callee is not the master.
    NotMasterCall,
}

impl CallRejected {
    /// The text of the error.
    pub open spec fn spec_text(self) -> Seq<char> {
        match self {
            CallRejected::NotMasterCall => "Not master call"@,
        }
    }

    /// The text of the error.
    pub fn message(&self) -> (s: String)
        ensures
            s@ == self.spec_text(),
    {
        match self {
            CallRejected::NotMasterCall => "Not master call".to_owned(),
        }
    }
}

/// A service behind the master check.
#[derive(Clone)]
pub struct ContextService<S>(pub S);

/// Whether a request, given by the lower-cased text of its debug form, is a
/// write: the text contains `set`.
pub open spec fn is_write(lowered_request: Seq<char>) -> bool {
    contains(lowered_request, "set"@)
}

impl<S> ContextService<S> {
    /// Decides a call addressed to the service named `callee`, whose request
    /// has the lower-cased text `lowered_request`: a write goes on to the
    /// inner service only when the callee's name contains the master's
    /// address; any other request always goes on.
    pub fn decide(&self, callee: &str, lowered_request: &str) -> (r: Result<&S, CallRejected>)
        ensures
            r is Err <==> (is_write(lowered_request@) && !contains(callee@, master_address())),
            match r {
                Ok(inner) => *inner == self.0,
                Err(e) => e == CallRejected::NotMasterCall,
            },
    {
        if str_contains(lowered_request, "set") && !str_contains(callee, "127.0.0.1:8080") {
            Err(CallRejected::NotMasterCall)
        } else {
            Ok(&self.0)
        }
    }

    /// Decides a call addressed to the service named `callee` whose request
    /// has the text `request`: the text is lower-cased, and a write goes on
    /// only when addressed to the master, any other request always.
    pub fn call(&self, callee: &str, request: &str) -> (r: Result<&S, CallRejected>)
        ensures
            r is Err <==> (is_write(lowercase(request@)) && !contains(callee@, master_address())),
            match r {
                Ok(inner) => *inner == self.0,
                Err(e) => e == CallRejected::NotMasterCall,
            },
    {
        let lowered = to_lowercase(request);
        self.decide(callee, lowered.as_str())
    }
}

/// The layer that puts a service behind the master check.
#[derive(Clone, Copy)]
pub struct ContextLayer;

impl ContextLayer {
    /// Puts `inner` behind the master check.
    pub fn layer<S>(self, inner: S) -> (s: ContextService<S>)
        ensures
            s.0 == inner,
    {
        ContextService(inner)
    }
}

} // verus!
