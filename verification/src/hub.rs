//! Data model of the remote proving service's responses. The HTTP client
//! that talks to the service lives outside this crate; these types hold, as
//! plain values, what its replies carry.

use vstd::prelude::*;

verus! {

/// Stores users organizations
#[derive(Clone, Debug, PartialEq, Eq)]
pub struct Organization {
    /// The organization id
    pub id: String,
    /// The users username
    pub name: String,
}

/// Stores Organization
#[derive(Clone, Debug, PartialEq, Eq)]
pub struct Organizations {
    /// An Array of Organizations
    pub organizations: Vec<Organization>,
}

/// Stores the Artifacts
#[derive(Clone, Debug, PartialEq, Eq)]
pub struct Artifact {
    /// stores the artifact id
    pub id: Option<String>,
    /// stores the name of the artifact
    pub name: Option<String>,
}

/// Stores the Proof Response
#[derive(Clone, Debug, PartialEq, Eq)]
pub struct Proof {
    /// stores the artifact
    pub artifact: Option<Artifact>,
    /// stores the Proof Id
    pub id: String,
    /// stores the instances
    pub instances: Option<Vec<String>>,
    /// stores the proofs
    pub proof: Option<String>,
    /// stores the status
    pub status: Option<String>,
    /// stores the strategy
    pub strategy: Option<String>,
    /// stores the transcript type
    pub transcript_type: Option<String>,
}

impl Proof {
    /// Whether the reply already carries proof bytes.
    pub fn has_proof(&self) -> (r: bool)
        ensures
            r == (self.proof is Some),
    {
        self.proof.is_some()
    }
}

} // verus!
