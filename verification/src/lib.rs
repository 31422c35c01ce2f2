//! Digital Product Passports for small edge nodes.
//!
//! - [`DppSchemaProfile`] shapes the receipt of an agent's step into a JSON-LD
//!   passport, and reads it back.
//! - [`DppLifecycleTrigger`] fires lifecycle events that are appended to a feed of
//!   JSON lines.
//! - [`DppPolicyRouter`] decides where a receipt goes: sensitive ones to a private
//!   sink, public ones to a public sink, and every one to the anchor.
//! - [`DppSelectiveDisclosure`] puts claims into SD-JWT envelopes, so that a
//!   verifier learns only what is disclosed.
//!
//! What each of them does is stated in the contracts of its functions. The
//! proof functions named `law_*` state what holds of several of them together.
//! What other crates contribute is gathered in [`outside`], with what is
//! believed of it.

use vstd::prelude::*;
use crate::text::concat2;

pub mod config;
pub mod digest;
pub mod disclosure;
pub mod envelope;
pub mod json;
pub mod order;
pub mod outside;
pub mod policy;
pub mod receipt;
pub mod schema;
pub mod text;
pub mod time;
pub mod trigger;

pub use crate::disclosure::DppSelectiveDisclosure;
pub use crate::policy::DppPolicyRouter;
pub use crate::schema::DppSchemaProfile;
pub use crate::trigger::DppLifecycleTrigger;

verus! {

/// What can go wrong on an edge node, for callers that want one error type.
#[derive(Clone, Debug, PartialEq, Eq)]
pub enum PrvnzEdgeError {
    /// A receipt could not be shaped into a passport.
    Schema(String),
    /// The lifecycle trigger failed.
    Trigger(String),
    /// A claim could not be classified or routed.
    Policy(String),
    /// Selective disclosure failed.
    Disclosure(String),
    /// Minima failed.
    Minima(String),
    /// Tenzro failed.
    Tenzro(String),
}

/// The message of a [`PrvnzEdgeError`].
pub open spec fn edge_message(e: PrvnzEdgeError) -> Seq<char> {
    match e {
        PrvnzEdgeError::Schema(what) => "schema: "@ + what@,
        PrvnzEdgeError::Trigger(what) => "trigger: "@ + what@,
        PrvnzEdgeError::Policy(what) => "policy: "@ + what@,
        PrvnzEdgeError::Disclosure(what) => "disclosure: "@ + what@,
        PrvnzEdgeError::Minima(what) => "minima: "@ + what@,
        PrvnzEdgeError::Tenzro(what) => "tenzro: "@ + what@,
    }
}

impl PrvnzEdgeError {
    /// Where it went wrong, and what.
    pub fn message(&self) -> (r: String)
        ensures
            r@ == edge_message(*self),
            self matches PrvnzEdgeError::Schema(what) ==> r@ == "schema: "@ + what@,
            self matches PrvnzEdgeError::Trigger(what) ==> r@ == "trigger: "@ + what@,
            self matches PrvnzEdgeError::Policy(what) ==> r@ == "policy: "@ + what@,
            self matches PrvnzEdgeError::Disclosure(what) ==> r@ == "disclosure: "@ + what@,
            self matches PrvnzEdgeError::Minima(what) ==> r@ == "minima: "@ + what@,
            self matches PrvnzEdgeError::Tenzro(what) ==> r@ == "tenzro: "@ + what@,
    {
        match self {
            PrvnzEdgeError::Schema(what) => concat2("schema: ", what.as_str()),
            PrvnzEdgeError::Trigger(what) => concat2("trigger: ", what.as_str()),
            PrvnzEdgeError::Policy(what) => concat2("policy: ", what.as_str()),
            PrvnzEdgeError::Disclosure(what) => concat2("disclosure: ", what.as_str()),
            PrvnzEdgeError::Minima(what) => concat2("minima: ", what.as_str()),
            PrvnzEdgeError::Tenzro(what) => concat2("tenzro: ", what.as_str()),
        }
    }
}

} // verus!
