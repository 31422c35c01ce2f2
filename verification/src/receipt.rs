//! What the agent loop hands over and takes back: receipts, events, routing
//! decisions, disclosures, and the errors that go with them.

use vstd::prelude::*;
use crate::digest::ReceiptDigest;
use crate::json::{Json, JsonMap, JsonTree};
use crate::text::texts;
use crate::time::Timestamp;

verus! {

/// Names a schema profile.
#[derive(Clone, Debug, PartialEq, Eq)]
pub struct SchemaProfileId(pub String);

/// Names a sink of receipts.
#[derive(Clone, Debug, PartialEq, Eq)]
pub struct SinkId(pub String);

/// Names an attester.
#[derive(Clone, Debug, PartialEq, Eq)]
pub struct AttesterId(pub String);

/// Names a selective-disclosure scheme.
#[derive(Clone, Debug, PartialEq, Eq)]
pub struct DisclosureId(pub String);

/// Names a trigger source.
#[derive(Clone, Debug, PartialEq, Eq)]
pub struct TriggerId(pub String);

/// The model that ran in a step.
#[derive(Clone, Debug, PartialEq, Eq)]
pub struct ArtefactSnapshot {
    pub name: String,
    pub digest: ReceiptDigest,
    pub engine_kind: String,
}

/// What an [`ArtefactSnapshot`] says.
pub struct ArtefactView {
    pub name: Seq<char>,
    pub digest: Seq<u8>,
    pub engine_kind: Seq<char>,
}

impl View for ArtefactSnapshot {
    type V = ArtefactView;

    open spec fn view(&self) -> ArtefactView {
        ArtefactView {
            name: self.name@,
            digest: self.digest@,
            engine_kind: self.engine_kind@,
        }
    }
}

/// The receipt of one step of an agent.
#[derive(Clone, Debug, PartialEq, Eq)]
pub struct StepReceipt {
    pub step_id: String,
    pub started_at: Timestamp,
    pub finished_at: Timestamp,
    pub model: Option<ArtefactSnapshot>,
    pub input_digest: ReceiptDigest,
    pub output_digest: ReceiptDigest,
    pub tags: Vec<String>,
    pub meta: JsonMap,
}

/// What a [`StepReceipt`] says.
pub struct ReceiptView {
    pub step_id: Seq<char>,
    pub started_at: (i64, u32),
    pub finished_at: (i64, u32),
    pub model: Option<ArtefactView>,
    pub input_digest: Seq<u8>,
    pub output_digest: Seq<u8>,
    pub tags: Seq<Seq<char>>,
    pub meta: Map<Seq<char>, JsonTree>,
}

impl View for StepReceipt {
    type V = ReceiptView;

    open spec fn view(&self) -> ReceiptView {
        ReceiptView {
            step_id: self.step_id@,
            started_at: self.started_at@,
            finished_at: self.finished_at@,
            model: match self.model {
                Some(m) => Some(m@),
                None => None,
            },
            input_digest: self.input_digest@,
            output_digest: self.output_digest@,
            tags: texts(self.tags@),
            meta: self.meta@,
        }
    }
}

/// Why a receipt could not be encoded or decoded.
#[derive(Clone, Debug, PartialEq, Eq)]
pub enum SchemaError {
    /// The JSON could not be written or read.
    Encode(String),
    /// The JSON does not say what a receipt has to say.
    Validation(String),
}

/// What a [`SchemaError`] says.
pub enum SchemaFault {
    Encode(Seq<char>),
    Validation(Seq<char>),
}

impl View for SchemaError {
    type V = SchemaFault;

    open spec fn view(&self) -> SchemaFault {
        match self {
            SchemaError::Encode(s) => SchemaFault::Encode(s@),
            SchemaError::Validation(s) => SchemaFault::Validation(s@),
        }
    }
}

/// Where a receipt goes: the sinks that get it, and the attesters to call.
#[derive(Clone, Debug, PartialEq, Eq)]
pub struct RoutingDecision {
    pub sinks: Vec<SinkId>,
    pub attesters: Vec<AttesterId>,
}

/// What a [`RoutingDecision`] says.
pub struct RoutingView {
    pub sinks: Seq<Seq<char>>,
    pub attesters: Seq<Seq<char>>,
}

impl View for RoutingDecision {
    type V = RoutingView;

    open spec fn view(&self) -> RoutingView {
        RoutingView {
            sinks: self.sinks@.map_values(|s: SinkId| s.0@),
            attesters: self.attesters@.map_values(|a: AttesterId| a.0@),
        }
    }
}

/// Which claims of a payload a verifier gets to see: JSON Pointers to them.
#[derive(Clone, Debug, PartialEq, Eq)]
pub struct DisclosurePolicy {
    pub visible: Vec<String>,
}

/// A payload under selective disclosure, and the scheme it is in.
#[derive(Clone, Debug, PartialEq, Eq)]
pub struct DisclosedEnvelope {
    pub scheme: String,
    pub bytes: Vec<u8>,
}

/// Why a payload could not be disclosed or an envelope not be verified.
#[derive(Clone, Debug, PartialEq, Eq)]
pub enum DisclosureError {
    /// A pointer leads to no claim.
    UnknownPath(String),
    /// Something is asked for that is not supported.
    Unsupported(String),
    /// The envelope is malformed, or does not hold together.
    Crypto(String),
}

/// What a [`DisclosureError`] says.
pub enum DisclosureFault {
    UnknownPath(Seq<char>),
    Unsupported(Seq<char>),
    Crypto(Seq<char>),
}

impl View for DisclosureError {
    type V = DisclosureFault;

    open spec fn view(&self) -> DisclosureFault {
        match self {
            DisclosureError::UnknownPath(s) => DisclosureFault::UnknownPath(s@),
            DisclosureError::Unsupported(s) => DisclosureFault::Unsupported(s@),
            DisclosureError::Crypto(s) => DisclosureFault::Crypto(s@),
        }
    }
}

/// An event that runs an agent step.
#[derive(Clone, Debug, PartialEq, Eq)]
pub struct TriggerEvent {
    pub source: TriggerId,
    pub tags: Vec<String>,
    pub payload: Json,
}

/// What a [`TriggerEvent`] says.
pub struct EventView {
    pub source: Seq<char>,
    pub tags: Seq<Seq<char>>,
    pub payload: JsonTree,
}

impl View for TriggerEvent {
    type V = EventView;

    open spec fn view(&self) -> EventView {
        EventView { source: self.source.0@, tags: texts(self.tags@), payload: self.payload@ }
    }
}

/// Why a trigger source could not start, or stopped.
#[derive(Clone, Debug, PartialEq, Eq)]
pub enum TriggerError {
    /// The source could not start.
    Setup(String),
    /// The source stopped.
    Terminated(String),
}

/// What a [`TriggerError`] says.
pub enum TriggerFault {
    Setup(Seq<char>),
    Terminated(Seq<char>),
}

impl View for TriggerError {
    type V = TriggerFault;

    open spec fn view(&self) -> TriggerFault {
        match self {
            TriggerError::Setup(s) => TriggerFault::Setup(s@),
            TriggerError::Terminated(s) => TriggerFault::Terminated(s@),
        }
    }
}

/// What a receipt says is what its fields hold, each of them.
pub proof fn law_receipt_says_its_fields(r: StepReceipt)
    ensures
        r@.step_id == r.step_id@,
        r@.started_at == r.started_at@,
        r@.finished_at == r.finished_at@,
        r@.input_digest == r.input_digest@,
        r@.output_digest == r.output_digest@,
        r@.meta == r.meta@,
        r@.tags.len() == r.tags@.len(),
        forall|i: int| 0 <= i < r.tags@.len() ==> r@.tags[i] == (#[trigger] r.tags@[i])@,
        r@.model is Some <==> r.model is Some,
        r.model matches Some(m) ==> {
            &&& r@.model->Some_0.name == m.name@
            &&& r@.model->Some_0.digest == m.digest@
            &&& r@.model->Some_0.engine_kind == m.engine_kind@
        },
{
}

/// What a routing decision says is what its lists hold, in their order.
pub proof fn law_decision_says_its_lists(r: RoutingDecision)
    ensures
        r@.sinks.len() == r.sinks@.len(),
        forall|i: int| 0 <= i < r.sinks@.len() ==> r@.sinks[i] == (#[trigger] r.sinks@[i]).0@,
        r@.attesters.len() == r.attesters@.len(),
        forall|i: int|
            0 <= i < r.attesters@.len() ==> r@.attesters[i] == (#[trigger] r.attesters@[i]).0@,
{
}

/// What an event says is what its fields hold, each of them.
pub proof fn law_event_says_its_fields(e: TriggerEvent)
    ensures
        e@.source == e.source.0@,
        e@.payload == e.payload@,
        e@.tags.len() == e.tags@.len(),
        forall|i: int| 0 <= i < e.tags@.len() ==> e@.tags[i] == (#[trigger] e.tags@[i])@,
{
}

/// What an error says is its kind and its message, to the last character.
pub proof fn law_errors_say_their_messages(s: String)
    ensures
        SchemaError::Encode(s)@ == SchemaFault::Encode(s@),
        SchemaError::Validation(s)@ == SchemaFault::Validation(s@),
        DisclosureError::UnknownPath(s)@ == DisclosureFault::UnknownPath(s@),
        DisclosureError::Unsupported(s)@ == DisclosureFault::Unsupported(s@),
        DisclosureError::Crypto(s)@ == DisclosureFault::Crypto(s@),
        TriggerError::Setup(s)@ == TriggerFault::Setup(s@),
        TriggerError::Terminated(s)@ == TriggerFault::Terminated(s@),
{
}

} // verus!
