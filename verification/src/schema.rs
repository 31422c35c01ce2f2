//! [`DppSchemaProfile`]: receipts as JSON-LD passports, aligned with CEN/CLC JTC 24
//! and GS1 EPCIS 2.0.

use vstd::prelude::*;
use vstd::string::*;
use crate::config::DppConfig;
use crate::digest::{
    digest_read, digest_text, hex, hex_digest, law_digest_reads_back, parse_hex_digest,
    ReceiptDigest,
};
use crate::json::{
    lemma_text_items, member, text_items, text_list, text_member, text_trees, texts_of,
    texts_to_json, Json, JsonMap, JsonTree,
};
use crate::outside::{
    blake3, blake3_of, four_digit_year, json_read, json_text, leap_in_place, reads_back,
    rfc3339_read, rfc3339_text, NESTING_LIMIT,
};
use crate::receipt::{
    ArtefactSnapshot, ArtefactView, ReceiptView, SchemaError, SchemaFault, SchemaProfileId,
    StepReceipt,
};
use crate::text::{concat2, concat3, same_text, texts};
use crate::time::Timestamp;

verus! {

broadcast use vstd::string::group_string_axioms;

// ------------------------------------------------------------ writing

/// The JSON of a model.
pub open spec fn model_tree(m: ArtefactView) -> JsonTree {
    JsonTree::Object(
        Map::<Seq<char>, JsonTree>::empty().insert("name"@, JsonTree::Text(m.name)).insert(
            "digest"@,
            JsonTree::Text(digest_text(m.digest)),
        ).insert("engineKind"@, JsonTree::Text(m.engine_kind)),
    )
}

/// The members that every passport has.
pub open spec fn event_members(
    context_url: Seq<char>,
    event_id: Seq<char>,
    event_time: Seq<char>,
    record_time: Seq<char>,
    receipt: ReceiptView,
) -> Map<Seq<char>, JsonTree> {
    Map::<Seq<char>, JsonTree>::empty().insert("@context"@, JsonTree::Text(context_url)).insert(
        "type"@,
        JsonTree::Text("ObjectEvent"@),
    ).insert("eventID"@, JsonTree::Text(event_id)).insert(
        "eventTime"@,
        JsonTree::Text(event_time),
    ).insert("recordTime"@, JsonTree::Text(record_time)).insert(
        "stepId"@,
        JsonTree::Text(receipt.step_id),
    ).insert("inputDigest"@, JsonTree::Text(digest_text(receipt.input_digest))).insert(
        "outputDigest"@,
        JsonTree::Text(digest_text(receipt.output_digest)),
    ).insert("bizStep"@, JsonTree::Array(text_trees(receipt.tags)))
}

/// The passport of a receipt with the given name and times of the event: the
/// members that every passport has, the model if there is one, and the claims if
/// there are any.
pub open spec fn event_passport(
    context_url: Seq<char>,
    event_id: Seq<char>,
    event_time: Seq<char>,
    record_time: Seq<char>,
    receipt: ReceiptView,
) -> JsonTree {
    let event = event_members(context_url, event_id, event_time, record_time, receipt);
    let with_model = match receipt.model {
        Some(m) => event.insert("model"@, model_tree(m)),
        None => event,
    };
    JsonTree::Object(
        if receipt.meta == Map::<Seq<char>, JsonTree>::empty() {
            with_model
        } else {
            with_model.insert("passportClaims"@, JsonTree::Object(receipt.meta))
        },
    )
}

/// The passport of a receipt whose canonical form is `canon`. The digest of the
/// canonical form names the event; it happened when the step finished, and is on
/// record since the step started.
pub open spec fn passport(
    context_url: Seq<char>,
    receipt: ReceiptView,
    canon: Seq<u8>,
) -> JsonTree {
    event_passport(
        context_url,
        digest_text(blake3(canon)),
        rfc3339_text(receipt.finished_at.0, receipt.finished_at.1),
        rfc3339_text(receipt.started_at.0, receipt.started_at.1),
        receipt,
    )
}

/// The JSON of a model.
pub fn artefact_to_json(snap: &ArtefactSnapshot) -> (r: Json)
    ensures
        r@ == model_tree(snap@),
{
    let mut m: JsonMap = JsonMap::new();
    m.insert("name".to_owned(), Json::Text(snap.name.clone()));
    m.insert("digest".to_owned(), Json::Text(hex_digest(&snap.digest)));
    m.insert("engineKind".to_owned(), Json::Text(snap.engine_kind.clone()));
    Json::Object(m)
}

/// The passport of a receipt with the given name and times of the event.
pub fn event_document(
    context_url: &str,
    event_id: &str,
    event_time: &str,
    record_time: &str,
    receipt: &StepReceipt,
) -> (r: Json)
    ensures
        r@ == event_passport(context_url@, event_id@, event_time@, record_time@, receipt@),
{
    let mut doc: JsonMap = JsonMap::new();
    doc.insert("@context".to_owned(), Json::text(context_url));
    doc.insert("type".to_owned(), Json::text("ObjectEvent"));
    doc.insert("eventID".to_owned(), Json::text(event_id));
    doc.insert("eventTime".to_owned(), Json::text(event_time));
    doc.insert("recordTime".to_owned(), Json::text(record_time));
    doc.insert("stepId".to_owned(), Json::Text(receipt.step_id.clone()));
    doc.insert("inputDigest".to_owned(), Json::Text(hex_digest(&receipt.input_digest)));
    doc.insert("outputDigest".to_owned(), Json::Text(hex_digest(&receipt.output_digest)));
    doc.insert("bizStep".to_owned(), texts_to_json(&receipt.tags));
    match &receipt.model {
        Some(model) => {
            doc.insert("model".to_owned(), artefact_to_json(model));
        },
        None => {},
    }
    if !receipt.meta.is_empty() {
        doc.insert("passportClaims".to_owned(), Json::Object(receipt.meta.clone()));
    }
    Json::Object(doc)
}

/// The passport of a receipt whose canonical form is `canon`.
fn document(context_url: &str, receipt: &StepReceipt, canon: &[u8]) -> (r: Json)
    ensures
        r@ == passport(context_url@, receipt@, canon@),
        writable(receipt@.started_at) ==> time_reads_back(receipt@.started_at),
        writable(receipt@.finished_at) ==> time_reads_back(receipt@.finished_at),
{
    let event_id: String = hex_digest(&blake3_of(canon));
    let event_time: String = receipt.finished_at.to_rfc3339();
    let record_time: String = receipt.started_at.to_rfc3339();
    event_document(
        context_url,
        event_id.as_str(),
        event_time.as_str(),
        record_time.as_str(),
        receipt,
    )
}

// ------------------------------------------------------------ reading

/// The text of the member `name`; where it is missing or no text, `label` is
/// reported as missing.
pub open spec fn required_text(
    doc: JsonTree,
    name: Seq<char>,
    label: Seq<char>,
) -> Result<Seq<char>, SchemaFault> {
    match text_member(doc, name) {
        Some(s) => Ok(s),
        None => Err(SchemaFault::Validation(label + " missing"@)),
    }
}

/// The moment that the member `name` writes in RFC 3339.
pub open spec fn required_time(doc: JsonTree, name: Seq<char>) -> Result<(i64, u32), SchemaFault> {
    match required_text(doc, name, name) {
        Err(f) => Err(f),
        Ok(s) => match rfc3339_read(s) {
            Ok(t) => Ok(t),
            Err(e) => Err(SchemaFault::Validation(name + ": not RFC3339: "@ + e)),
        },
    }
}

/// The digest whose text is the member `name`.
pub open spec fn required_digest(
    doc: JsonTree,
    name: Seq<char>,
    label: Seq<char>,
) -> Result<Seq<u8>, SchemaFault> {
    match required_text(doc, name, label) {
        Err(f) => Err(f),
        Ok(s) => digest_read(s),
    }
}

/// The model that `v` describes, or what is wrong with it.
pub open spec fn model_read(v: JsonTree) -> Result<ArtefactView, SchemaFault> {
    if !(v is Object) {
        Err(SchemaFault::Validation("model: not an object"@))
    } else {
        match required_text(v, "name"@, "model.name"@) {
            Err(f) => Err(f),
            Ok(name) => match required_digest(v, "digest"@, "model.digest"@) {
                Err(f) => Err(f),
                Ok(digest) => match required_text(v, "engineKind"@, "model.engineKind"@) {
                    Err(f) => Err(f),
                    Ok(engine_kind) => Ok(ArtefactView { name, digest, engine_kind }),
                },
            },
        }
    }
}

/// The model in a passport, if it has one.
pub open spec fn optional_model(doc: JsonTree) -> Result<Option<ArtefactView>, SchemaFault> {
    match member(doc, "model"@) {
        None => Ok(None),
        Some(v) => match model_read(v) {
            Ok(m) => Ok(Some(m)),
            Err(f) => Err(f),
        },
    }
}

/// The claims in a passport; none where they are missing or no object.
pub open spec fn claims(doc: JsonTree) -> Map<Seq<char>, JsonTree> {
    match member(doc, "passportClaims"@) {
        Some(JsonTree::Object(m)) => m,
        _ => Map::<Seq<char>, JsonTree>::empty(),
    }
}

/// What stands before the digests in a passport: the event class, the step and
/// the two moments.
pub open spec fn event_head(doc: JsonTree) -> Result<
    (Seq<char>, (i64, u32), (i64, u32)),
    SchemaFault,
> {
    if !(doc is Object) {
        Err(SchemaFault::Validation("top-level not an object"@))
    } else {
        match text_member(doc, "type"@) {
            None => Err(SchemaFault::Validation("missing 'type' field"@)),
            Some(class) => if class != "ObjectEvent"@ {
                Err(SchemaFault::Validation("unexpected EPCIS event class: "@ + class))
            } else {
                match required_text(doc, "stepId"@, "stepId"@) {
                    Err(f) => Err(f),
                    Ok(step_id) => match required_time(doc, "recordTime"@) {
                        Err(f) => Err(f),
                        Ok(started_at) => match required_time(doc, "eventTime"@) {
                            Err(f) => Err(f),
                            Ok(finished_at) => Ok((step_id, started_at, finished_at)),
                        },
                    },
                }
            },
        }
    }
}

/// The receipt of a step and two moments with what else a passport says, or the
/// first thing that is wrong there.
pub open spec fn body_read(
    doc: JsonTree,
    step_id: Seq<char>,
    started_at: (i64, u32),
    finished_at: (i64, u32),
) -> Result<ReceiptView, SchemaFault> {
    match required_digest(doc, "inputDigest"@, "inputDigest"@) {
        Err(f) => Err(f),
        Ok(input_digest) => match required_digest(doc, "outputDigest"@, "outputDigest"@) {
            Err(f) => Err(f),
            Ok(output_digest) => match optional_model(doc) {
                Err(f) => Err(f),
                Ok(model) => Ok(
                    ReceiptView {
                        step_id,
                        started_at,
                        finished_at,
                        model,
                        input_digest,
                        output_digest,
                        tags: text_list(doc, "bizStep"@),
                        meta: claims(doc),
                    },
                ),
            },
        },
    }
}

/// The receipt that a passport says, or the first thing that is wrong with it.
pub open spec fn receipt_read(doc: JsonTree) -> Result<ReceiptView, SchemaFault> {
    match event_head(doc) {
        Err(f) => Err(f),
        Ok((step_id, started_at, finished_at)) => body_read(
            doc,
            step_id,
            started_at,
            finished_at,
        ),
    }
}

/// The receipt that the JSON text `bytes` says, or what is wrong with it.
pub open spec fn decoded(bytes: Seq<u8>) -> Result<ReceiptView, SchemaFault> {
    match json_read(bytes) {
        Ok(doc) => receipt_read(doc),
        Err(e) => Err(SchemaFault::Encode("parse JSON-LD: "@ + e)),
    }
}

/// The text of the member `name`, or that `label` is missing.
fn require_text<'a>(obj: &'a JsonMap, name: &str, label: &str) -> (r: Result<&'a str, SchemaError>)
    ensures
        match r {
            Ok(s) => required_text(JsonTree::Object(obj@), name@, label@) == Ok::<
                Seq<char>,
                SchemaFault,
            >(s@),
            Err(e) => required_text(JsonTree::Object(obj@), name@, label@) == Err::<
                Seq<char>,
                SchemaFault,
            >(e@),
        },
{
    match obj.get_str(name) {
        Some(s) => Ok(s),
        None => Err(SchemaError::Validation(concat2(label, " missing"))),
    }
}

/// The moment that `s` writes in RFC 3339; `field` is where `s` was found.
pub fn parse_rfc3339(s: &str, field: &str) -> (r: Result<Timestamp, SchemaError>)
    ensures
        match r {
            Ok(t) => rfc3339_read(s@) == Ok::<(i64, u32), Seq<char>>(t@),
            Err(e) => rfc3339_read(s@) is Err && e@ == SchemaFault::Validation(
                field@ + ": not RFC3339: "@ + rfc3339_read(s@)->Err_0,
            ),
        },
{
    match Timestamp::from_rfc3339(s) {
        Ok(t) => Ok(t),
        Err(e) => Err(SchemaError::Validation(concat3(field, ": not RFC3339: ", e.as_str()))),
    }
}

fn require_time(obj: &JsonMap, name: &str) -> (r: Result<Timestamp, SchemaError>)
    ensures
        match r {
            Ok(t) => required_time(JsonTree::Object(obj@), name@) == Ok::<(i64, u32), SchemaFault>(
                t@,
            ),
            Err(e) => required_time(JsonTree::Object(obj@), name@) == Err::<
                (i64, u32),
                SchemaFault,
            >(e@),
        },
{
    match require_text(obj, name, name) {
        Err(e) => Err(e),
        Ok(s) => parse_rfc3339(s, name),
    }
}

fn require_digest(obj: &JsonMap, name: &str, label: &str) -> (r: Result<ReceiptDigest, SchemaError>)
    ensures
        match r {
            Ok(d) => required_digest(JsonTree::Object(obj@), name@, label@) == Ok::<
                Seq<u8>,
                SchemaFault,
            >(d@),
            Err(e) => required_digest(JsonTree::Object(obj@), name@, label@) == Err::<
                Seq<u8>,
                SchemaFault,
            >(e@),
        },
{
    match require_text(obj, name, label) {
        Err(e) => Err(e),
        Ok(s) => parse_hex_digest(s),
    }
}

/// The model that `v` describes, or what is wrong with it.
pub fn artefact_from_json(v: &Json) -> (r: Result<ArtefactSnapshot, SchemaError>)
    ensures
        match r {
            Ok(m) => model_read(v@) == Ok::<ArtefactView, SchemaFault>(m@),
            Err(e) => model_read(v@) == Err::<ArtefactView, SchemaFault>(e@),
        },
{
    let obj = match v.as_object() {
        Some(obj) => obj,
        None => {
            return Err(SchemaError::Validation("model: not an object".to_owned()));
        },
    };
    let name: String = match require_text(obj, "name", "model.name") {
        Ok(s) => s.to_owned(),
        Err(e) => {
            return Err(e);
        },
    };
    let digest: ReceiptDigest = match require_digest(obj, "digest", "model.digest") {
        Ok(d) => d,
        Err(e) => {
            return Err(e);
        },
    };
    let engine_kind: String = match require_text(obj, "engineKind", "model.engineKind") {
        Ok(s) => s.to_owned(),
        Err(e) => {
            return Err(e);
        },
    };
    Ok(ArtefactSnapshot { name, digest, engine_kind })
}

/// The step and the two moments of the event that `v` says.
pub fn head_of(v: &Json) -> (r: Result<(String, Timestamp, Timestamp), SchemaError>)
    ensures
        match r {
            Ok(h) => event_head(v@) == Ok::<(Seq<char>, (i64, u32), (i64, u32)), SchemaFault>(
                (h.0@, h.1@, h.2@),
            ),
            Err(e) => event_head(v@) == Err::<
                (Seq<char>, (i64, u32), (i64, u32)),
                SchemaFault,
            >(e@),
        },
{
    let obj = match v.as_object() {
        Some(obj) => obj,
        None => {
            return Err(SchemaError::Validation("top-level not an object".to_owned()));
        },
    };
    // Only object events are emitted, so only they are accepted.
    match obj.get_str("type") {
        Some(class) => if !same_text(class, "ObjectEvent") {
            return Err(
                SchemaError::Validation(concat2("unexpected EPCIS event class: ", class)),
            );
        },
        None => {
            return Err(SchemaError::Validation("missing 'type' field".to_owned()));
        },
    }
    let step_id: String = match require_text(obj, "stepId", "stepId") {
        Ok(s) => s.to_owned(),
        Err(e) => {
            return Err(e);
        },
    };
    let started_at: Timestamp = match require_time(obj, "recordTime") {
        Ok(t) => t,
        Err(e) => {
            return Err(e);
        },
    };
    let finished_at: Timestamp = match require_time(obj, "eventTime") {
        Ok(t) => t,
        Err(e) => {
            return Err(e);
        },
    };
    Ok((step_id, started_at, finished_at))
}

/// The receipt of a step and two moments with what else a passport says.
pub fn receipt_of(
    obj: &JsonMap,
    step_id: String,
    started_at: Timestamp,
    finished_at: Timestamp,
) -> (r: Result<StepReceipt, SchemaError>)
    ensures
        ({
            let said = body_read(JsonTree::Object(obj@), step_id@, started_at@, finished_at@);
            match r {
                Ok(receipt) => said == Ok::<ReceiptView, SchemaFault>(receipt@),
                Err(e) => said == Err::<ReceiptView, SchemaFault>(e@),
            }
        }),
{
    let input_digest: ReceiptDigest = match require_digest(obj, "inputDigest", "inputDigest") {
        Ok(d) => d,
        Err(e) => {
            return Err(e);
        },
    };
    let output_digest: ReceiptDigest = match require_digest(obj, "outputDigest", "outputDigest") {
        Ok(d) => d,
        Err(e) => {
            return Err(e);
        },
    };
    let tags: Vec<String> = match obj.get("bizStep") {
        Some(Json::Array(items)) => texts_of(items),
        _ => Vec::new(),
    };
    let model: Option<ArtefactSnapshot> = match obj.get("model") {
        Some(m) => match artefact_from_json(m) {
            Ok(m) => Some(m),
            Err(e) => {
                return Err(e);
            },
        },
        None => None,
    };
    let meta: JsonMap = match obj.get("passportClaims") {
        Some(Json::Object(m)) => m.clone(),
        _ => JsonMap::new(),
    };
    assert(texts(tags@) =~= text_list(JsonTree::Object(obj@), "bizStep"@));
    Ok(
        StepReceipt {
            step_id,
            started_at,
            finished_at,
            model,
            input_digest,
            output_digest,
            tags,
            meta,
        },
    )
}

/// The receipt that the passport `v` says, or the first thing that is wrong with
/// it.
pub fn decode_document(v: &Json) -> (r: Result<StepReceipt, SchemaError>)
    ensures
        match r {
            Ok(receipt) => receipt_read(v@) == Ok::<ReceiptView, SchemaFault>(receipt@),
            Err(e) => receipt_read(v@) == Err::<ReceiptView, SchemaFault>(e@),
        },
{
    let (step_id, started_at, finished_at) = match head_of(v) {
        Ok(head) => head,
        Err(e) => {
            return Err(e);
        },
    };
    match v.as_object() {
        Some(obj) => receipt_of(obj, step_id, started_at, finished_at),
        None => Err(SchemaError::Validation("top-level not an object".to_owned())),
    }
}

// --------------------------------------------------------- round trip

/// Whether RFC 3339 can write the moment `t`: in a year of four digits, with a leap
/// second, if it lies in one, at the end of a minute.
pub open spec fn writable(t: (i64, u32)) -> bool {
    four_digit_year(t.0 as int) && leap_in_place(t.0 as int, t.1 as int)
}

/// Whether reading the text of the moment `t` gives it back.
pub open spec fn time_reads_back(t: (i64, u32)) -> bool {
    rfc3339_read(rfc3339_text(t.0, t.1)) == Ok::<(i64, u32), Seq<char>>(t)
}

proof fn lemma_member_names()
    ensures
        "@context"@.len() == 8,
        "type"@.len() == 4,
        "eventID"@.len() == 7,
        "eventTime"@.len() == 9,
        "recordTime"@.len() == 10,
        "stepId"@.len() == 6,
        "inputDigest"@.len() == 11,
        "outputDigest"@.len() == 12,
        "bizStep"@.len() == 7,
        "eventID"@ != "bizStep"@,
        "model"@.len() == 5,
        "passportClaims"@.len() == 14,
        "name"@.len() == 4,
        "digest"@.len() == 6,
        "engineKind"@.len() == 10,
{
    reveal_strlit("@context");
    reveal_strlit("type");
    reveal_strlit("eventID");
    reveal_strlit("eventTime");
    reveal_strlit("recordTime");
    reveal_strlit("stepId");
    reveal_strlit("inputDigest");
    reveal_strlit("outputDigest");
    reveal_strlit("bizStep");
    reveal_strlit("model");
    reveal_strlit("passportClaims");
    reveal_strlit("name");
    reveal_strlit("digest");
    reveal_strlit("engineKind");
    assert("eventID"@[0] != "bizStep"@[0]);
}

/// Reading the JSON of a model gives the model back; the JSON has the members
/// `name`, `digest` and `engineKind`, and no other.
pub proof fn law_model_reads_back(m: ArtefactView)
    requires
        m.digest.len() == 32,
    ensures
        model_read(model_tree(m)) == Ok::<ArtefactView, SchemaFault>(m),
        model_tree(m)->Object_0.dom() == set!["name"@, "digest"@, "engineKind"@],
{
    lemma_member_names();
    law_digest_reads_back(m.digest);
}

/// Reading a passport gives back the receipt that it was made of: every field,
/// whatever context and canonical form went into it.
pub proof fn law_passport_reads_back(context_url: Seq<char>, receipt: ReceiptView, canon: Seq<u8>)
    requires
        receipt.input_digest.len() == 32,
        receipt.output_digest.len() == 32,
        receipt.model matches Some(m) ==> m.digest.len() == 32,
        time_reads_back(receipt.started_at),
        time_reads_back(receipt.finished_at),
    ensures
        receipt_read(passport(context_url, receipt, canon)) == Ok::<ReceiptView, SchemaFault>(
            receipt,
        ),
{
    lemma_member_names();
    let doc = passport(context_url, receipt, canon);
    law_digest_reads_back(receipt.input_digest);
    law_digest_reads_back(receipt.output_digest);
    lemma_text_items(receipt.tags);
    match receipt.model {
        Some(m) => {
            law_model_reads_back(m);
        },
        None => {},
    }
    assert(text_member(doc, "type"@) == Some("ObjectEvent"@));
    assert(text_member(doc, "stepId"@) == Some(receipt.step_id));
    assert(text_list(doc, "bizStep"@) == receipt.tags);
    assert(claims(doc) =~= receipt.meta);
    assert(receipt_read(doc) is Ok);
}

/// The members of a passport that a receipt is read from.
pub open spec fn read_from(name: Seq<char>) -> bool {
    ||| name == "type"@
    ||| name == "stepId"@
    ||| name == "recordTime"@
    ||| name == "eventTime"@
    ||| name == "inputDigest"@
    ||| name == "outputDigest"@
    ||| name == "bizStep"@
    ||| name == "model"@
    ||| name == "passportClaims"@
}

/// All other members are ignored: objects that agree on those that a receipt is
/// read from say the same receipt, or have the same fault.
pub proof fn law_other_members_ignored(
    one: Map<Seq<char>, JsonTree>,
    other: Map<Seq<char>, JsonTree>,
)
    requires
        forall|name: Seq<char>| #[trigger]
            read_from(name) ==> member(JsonTree::Object(one), name) == member(
                JsonTree::Object(other),
                name,
            ),
    ensures
        receipt_read(JsonTree::Object(one)) == receipt_read(JsonTree::Object(other)),
{
    let a = JsonTree::Object(one);
    let b = JsonTree::Object(other);
    assert(read_from("type"@) && read_from("stepId"@) && read_from("recordTime"@) && read_from(
        "eventTime"@,
    ));
    assert(event_head(a) == event_head(b));
    assert(read_from("inputDigest"@) && read_from("outputDigest"@) && read_from("bizStep"@)
        && read_from("model"@) && read_from("passportClaims"@));
}

/// The text of a passport reads back as JSON where its claims do.
proof fn lemma_passport_text(context_url: Seq<char>, receipt: ReceiptView, canon: Seq<u8>)
    requires
        reads_back(JsonTree::Object(receipt.meta), (NESTING_LIMIT - 1) as nat),
    ensures
        reads_back(passport(context_url, receipt, canon), NESTING_LIMIT as nat),
{
    let levels = (NESTING_LIMIT - 1) as nat;
    let doc = passport(context_url, receipt, canon)->Object_0;
    assert forall|name: Seq<char>| #[trigger] doc.dom().contains(name) implies reads_back(
        doc[name],
        levels,
    ) by {
        match doc[name] {
            JsonTree::Object(m) => {
                if m != receipt.meta {
                    assert forall|k: Seq<char>| #[trigger] m.dom().contains(k) implies reads_back(
                        m[k],
                        (levels - 1) as nat,
                    ) by {
                        assert(m[k] is Text);
                    }
                }
            },
            JsonTree::Array(items) => {
                assert forall|i: int| 0 <= i < items.len() implies reads_back(
                    #[trigger] items[i],
                    (levels - 1) as nat,
                ) by {
                    assert(items[i] is Text);
                }
            },
            _ => {},
        }
    }
}

/// Whether a receipt comes back from its passport: RFC 3339 can write its moments,
/// and its claims read back as JSON.
pub open spec fn comes_back(receipt: ReceiptView) -> bool {
    &&& writable(receipt.started_at)
    &&& writable(receipt.finished_at)
    &&& reads_back(JsonTree::Object(receipt.meta), (NESTING_LIMIT - 1) as nat)
}

// ------------------------------------------------------------- profile

/// Shapes receipts into passports and back.
#[derive(Clone, Debug)]
pub struct DppSchemaProfile {
    id: SchemaProfileId,
    context_url: String,
}

impl DppSchemaProfile {
    /// The name of this profile.
    pub closed spec fn spec_id(&self) -> Seq<char> {
        self.id.0@
    }

    /// The JSON-LD context that the passports of this profile name.
    pub closed spec fn spec_context_url(&self) -> Seq<char> {
        self.context_url@
    }

    /// The profile that `cfg` describes.
    pub fn new(cfg: &DppConfig) -> (r: Self)
        ensures
            r.spec_id() == cfg.schema_profile_id@,
            r.spec_context_url() == cfg.schema_context_url@,
    {
        DppSchemaProfile {
            id: SchemaProfileId(cfg.schema_profile_id.clone()),
            context_url: cfg.schema_context_url.clone(),
        }
    }

    /// The profile with the given name and context.
    pub fn with_parts(id: &str, context_url: &str) -> (r: Self)
        ensures
            r.spec_id() == id@,
            r.spec_context_url() == context_url@,
    {
        DppSchemaProfile {
            id: SchemaProfileId(id.to_owned()),
            context_url: context_url.to_owned(),
        }
    }

    /// The name of this profile.
    pub fn id(&self) -> (r: SchemaProfileId)
        ensures
            r.0@ == self.spec_id(),
    {
        SchemaProfileId(self.id.0.clone())
    }

    /// The passport of `receipt`, as JSON text. `canon` is the canonical form of
    /// the receipt, the one that attesters sign; its digest names the event.
    ///
    /// Decoding gives the receipt back, as far as [`comes_back`] says.
    pub fn encode(&self, receipt: &StepReceipt, canon: &[u8]) -> (r: Result<Vec<u8>, SchemaError>)
        ensures
            r is Ok,
            r->Ok_0@ == json_text(passport(self.spec_context_url(), receipt@, canon@)),
            exists|doc: JsonTree|
                {
                    &&& r->Ok_0@ == #[trigger] json_text(doc)
                    &&& member(doc, "eventID"@) == Some(
                        JsonTree::Text("blake3:"@ + hex(blake3(canon@))),
                    )
                    &&& member(doc, "@context"@) == Some(JsonTree::Text(self.spec_context_url()))
                },
            comes_back(receipt@) ==> decoded(r->Ok_0@) == Ok::<ReceiptView, SchemaFault>(receipt@),
    {
        let doc: Json = document(self.context_url.as_str(), receipt, canon);
        proof {
            law_passport_names_its_event(self.context_url@, receipt@, canon@);
            if comes_back(receipt@) {
                law_passport_reads_back(self.context_url@, receipt@, canon@);
                lemma_passport_text(self.context_url@, receipt@, canon@);
            }
        }
        match doc.write() {
            Ok(bytes) => Ok(bytes),
            Err(e) => Err(SchemaError::Encode(concat2("serialise JSON-LD: ", e.as_str()))),
        }
    }

    /// The receipt that the passport `bytes` says. Members that a receipt has no
    /// field for are ignored.
    pub fn decode(&self, bytes: &[u8]) -> (r: Result<StepReceipt, SchemaError>)
        ensures
            match r {
                Ok(receipt) => decoded(bytes@) == Ok::<ReceiptView, SchemaFault>(receipt@),
                Err(e) => decoded(bytes@) == Err::<ReceiptView, SchemaFault>(e@),
            },
    {
        match Json::read(bytes) {
            Ok(doc) => decode_document(&doc),
            Err(e) => Err(SchemaError::Encode(concat2("parse JSON-LD: ", e.as_str()))),
        }
    }
}

// --------------------------------------------------------------- laws

/// The document of an event has, under the names of the wire format, the context, the
/// name and the two times of the event, and the step, the two digests and the tags of
/// the receipt.
pub proof fn law_document_says_the_receipt(
    context_url: Seq<char>,
    event_id: Seq<char>,
    event_time: Seq<char>,
    record_time: Seq<char>,
    receipt: ReceiptView,
)
    ensures
        event_passport(context_url, event_id, event_time, record_time, receipt) is Object,
        ({
            let doc = event_passport(
                context_url,
                event_id,
                event_time,
                record_time,
                receipt,
            )->Object_0;
            &&& doc.dom().contains("@context"@)
            &&& doc["@context"@] == JsonTree::Text(context_url)
            &&& doc.dom().contains("type"@)
            &&& doc["type"@] == JsonTree::Text("ObjectEvent"@)
            &&& doc.dom().contains("eventID"@)
            &&& doc["eventID"@] == JsonTree::Text(event_id)
            &&& doc.dom().contains("eventTime"@)
            &&& doc["eventTime"@] == JsonTree::Text(event_time)
            &&& doc.dom().contains("recordTime"@)
            &&& doc["recordTime"@] == JsonTree::Text(record_time)
            &&& doc.dom().contains("stepId"@)
            &&& doc["stepId"@] == JsonTree::Text(receipt.step_id)
            &&& doc.dom().contains("inputDigest"@)
            &&& doc["inputDigest"@] == JsonTree::Text("blake3:"@ + hex(receipt.input_digest))
            &&& doc.dom().contains("outputDigest"@)
            &&& doc["outputDigest"@] == JsonTree::Text("blake3:"@ + hex(receipt.output_digest))
            &&& doc.dom().contains("bizStep"@)
            &&& doc["bizStep"@] is Array
            &&& doc["bizStep"@]->Array_0.len() == receipt.tags.len()
            &&& forall|i: int|
                0 <= i < receipt.tags.len() ==> doc["bizStep"@]->Array_0[i] == JsonTree::Text(
                    #[trigger] receipt.tags[i],
                )
        }),
{
    lemma_member_names();
}

/// The document of an event has a model exactly if the receipt has one, and claims
/// exactly if the receipt has some; both are those of the receipt. It has no other
/// members.
pub proof fn law_document_says_model_and_claims(
    context_url: Seq<char>,
    event_id: Seq<char>,
    event_time: Seq<char>,
    record_time: Seq<char>,
    receipt: ReceiptView,
    name: Seq<char>,
)
    ensures
        ({
            let doc = event_passport(
                context_url,
                event_id,
                event_time,
                record_time,
                receipt,
            )->Object_0;
            &&& doc.dom().contains("model"@) <==> receipt.model is Some
            &&& receipt.model matches Some(m) ==> {
                let said = doc["model"@];
                &&& said is Object
                &&& said->Object_0.dom() == set!["name"@, "digest"@, "engineKind"@]
                &&& said->Object_0["name"@] == JsonTree::Text(m.name)
                &&& said->Object_0["digest"@] == JsonTree::Text("blake3:"@ + hex(m.digest))
                &&& said->Object_0["engineKind"@] == JsonTree::Text(m.engine_kind)
            }
            &&& doc.dom().contains("passportClaims"@) <==> exists|claim: Seq<char>| #[trigger]
                receipt.meta.dom().contains(claim)
            &&& doc.dom().contains("passportClaims"@) ==> doc["passportClaims"@]
                == JsonTree::Object(receipt.meta)
            &&& doc.dom().contains(name) ==> {
                ||| name == "@context"@
                ||| name == "eventID"@
                ||| name == "type"@
                ||| name == "stepId"@
                ||| name == "recordTime"@
                ||| name == "eventTime"@
                ||| name == "inputDigest"@
                ||| name == "outputDigest"@
                ||| name == "bizStep"@
                ||| name == "model"@
                ||| name == "passportClaims"@
            }
        }),
{
    lemma_member_names();
    if let Some(m) = receipt.model {
        assert(model_tree(m)->Object_0.dom() =~= set!["name"@, "digest"@, "engineKind"@]);
    }
    if !(exists|claim: Seq<char>| #[trigger] receipt.meta.dom().contains(claim)) {
        assert(receipt.meta =~= Map::<Seq<char>, JsonTree>::empty());
    }
}

/// A passport names its event by the BLAKE3 digest of all of the canonical form. The
/// event happened when the step finished, and is on record since the step started;
/// the context is that of the profile, and all else is what the document of that
/// event says.
pub proof fn law_passport_names_its_event(
    context_url: Seq<char>,
    receipt: ReceiptView,
    canon: Seq<u8>,
)
    ensures
        ({
            let doc = passport(context_url, receipt, canon);
            &&& member(doc, "eventID"@) == Some(
                JsonTree::Text("blake3:"@ + hex(blake3(canon))),
            )
            &&& member(doc, "@context"@) == Some(JsonTree::Text(context_url))
            &&& member(doc, "eventTime"@) == Some(
                JsonTree::Text(rfc3339_text(receipt.finished_at.0, receipt.finished_at.1)),
            )
            &&& member(doc, "recordTime"@) == Some(
                JsonTree::Text(rfc3339_text(receipt.started_at.0, receipt.started_at.1)),
            )
            &&& doc == event_passport(
                context_url,
                "blake3:"@ + hex(blake3(canon)),
                rfc3339_text(receipt.finished_at.0, receipt.finished_at.1),
                rfc3339_text(receipt.started_at.0, receipt.started_at.1),
                receipt,
            )
        }),
{
    lemma_member_names();
}

/// The head of a passport is read exactly if the event class is the one that is
/// emitted, and the step and the two moments stand there under their names. Then the
/// receipt is what the rest of the passport adds to it.
pub proof fn law_head_is_read_from_its_members(
    doc: Map<Seq<char>, JsonTree>,
    step_id: Seq<char>,
    started_at: (i64, u32),
    finished_at: (i64, u32),
)
    ensures
        event_head(JsonTree::Object(doc)) == Ok::<
            (Seq<char>, (i64, u32), (i64, u32)),
            SchemaFault,
        >((step_id, started_at, finished_at)) <==> {
            &&& doc.dom().contains("type"@)
            &&& doc["type"@] == JsonTree::Text("ObjectEvent"@)
            &&& doc.dom().contains("stepId"@)
            &&& doc["stepId"@] == JsonTree::Text(step_id)
            &&& doc.dom().contains("recordTime"@)
            &&& doc["recordTime"@] is Text
            &&& rfc3339_read(doc["recordTime"@]->Text_0) == Ok::<(i64, u32), Seq<char>>(
                started_at,
            )
            &&& doc.dom().contains("eventTime"@)
            &&& doc["eventTime"@] is Text
            &&& rfc3339_read(doc["eventTime"@]->Text_0) == Ok::<(i64, u32), Seq<char>>(
                finished_at,
            )
        },
        match event_head(JsonTree::Object(doc)) {
            Ok((s, t, u)) => receipt_read(JsonTree::Object(doc)) == body_read(
                JsonTree::Object(doc),
                s,
                t,
                u,
            ),
            Err(f) => receipt_read(JsonTree::Object(doc)) == Err::<ReceiptView, SchemaFault>(f),
        },
{
    let t = JsonTree::Object(doc);
    if event_head(t) is Ok {
        assert(text_member(t, "type"@) == Some("ObjectEvent"@));
        assert(text_member(t, "stepId"@) is Some);
        assert(text_member(t, "recordTime"@) is Some);
        assert(text_member(t, "eventTime"@) is Some);
    }
}

/// What else a passport says is read exactly if the two digests stand there, and the
/// model, where there is one, can be read. The step and the moments are those given.
pub proof fn law_body_is_read_from_its_members(
    doc: Map<Seq<char>, JsonTree>,
    step_id: Seq<char>,
    started_at: (i64, u32),
    finished_at: (i64, u32),
    r: ReceiptView,
)
    ensures
        body_read(JsonTree::Object(doc), step_id, started_at, finished_at) == Ok::<
            ReceiptView,
            SchemaFault,
        >(r) <==> {
            &&& r.step_id == step_id
            &&& r.started_at == started_at
            &&& r.finished_at == finished_at
            &&& doc.dom().contains("inputDigest"@)
            &&& doc["inputDigest"@] is Text
            &&& digest_read(doc["inputDigest"@]->Text_0) == Ok::<Seq<u8>, SchemaFault>(
                r.input_digest,
            )
            &&& doc.dom().contains("outputDigest"@)
            &&& doc["outputDigest"@] is Text
            &&& digest_read(doc["outputDigest"@]->Text_0) == Ok::<Seq<u8>, SchemaFault>(
                r.output_digest,
            )
            &&& r.tags == if doc.dom().contains("bizStep"@) && doc["bizStep"@] is Array {
                text_items(doc["bizStep"@]->Array_0)
            } else {
                Seq::<Seq<char>>::empty()
            }
            &&& match r.model {
                None => !doc.dom().contains("model"@),
                Some(m) => doc.dom().contains("model"@) && model_read(doc["model"@]) == Ok::<
                    ArtefactView,
                    SchemaFault,
                >(m),
            }
            &&& r.meta == if doc.dom().contains("passportClaims"@) && doc["passportClaims"@]
                is Object {
                doc["passportClaims"@]->Object_0
            } else {
                Map::<Seq<char>, JsonTree>::empty()
            }
        },
{
    let t = JsonTree::Object(doc);
    let read = body_read(t, step_id, started_at, finished_at);
    if read is Ok {
        assert(text_member(t, "inputDigest"@) is Some);
        assert(text_member(t, "outputDigest"@) is Some);
        let got = read->Ok_0;
        assert(got.tags =~= text_list(t, "bizStep"@));
        assert(got.meta =~= claims(t));
    }
}

/// A model is read from an object exactly if its name, the text of its digest and
/// its engine kind stand there.
pub proof fn law_model_is_read_from_its_members(
    members: Map<Seq<char>, JsonTree>,
    m: ArtefactView,
)
    ensures
        model_read(JsonTree::Object(members)) == Ok::<ArtefactView, SchemaFault>(m) <==> {
            &&& members.dom().contains("name"@)
            &&& members["name"@] == JsonTree::Text(m.name)
            &&& members.dom().contains("digest"@)
            &&& members["digest"@] is Text
            &&& digest_read(members["digest"@]->Text_0) == Ok::<Seq<u8>, SchemaFault>(m.digest)
            &&& members.dom().contains("engineKind"@)
            &&& members["engineKind"@] == JsonTree::Text(m.engine_kind)
        },
{
    let t = JsonTree::Object(members);
    if model_read(t) == Ok::<ArtefactView, SchemaFault>(m) {
        assert(text_member(t, "name"@) == Some(m.name));
        assert(text_member(t, "engineKind"@) == Some(m.engine_kind));
        assert(text_member(t, "digest"@) is Some);
    }
}

/// Whether a text stands under `name`.
pub open spec fn has_text(doc: Map<Seq<char>, JsonTree>, name: Seq<char>) -> bool {
    doc.dom().contains(name) && doc[name] is Text
}

/// What is wrong with the head of a passport is reported, the first thing first: the
/// event class, the step, when the step started, when it finished.
pub proof fn law_first_fault_in_the_head_is_reported(
    doc: Map<Seq<char>, JsonTree>,
    other: JsonTree,
)
    requires
        !(other is Object),
    ensures
        receipt_read(other) == Err::<ReceiptView, SchemaFault>(
            SchemaFault::Validation("top-level not an object"@),
        ),
        event_head(other) == Err::<(Seq<char>, (i64, u32), (i64, u32)), SchemaFault>(
            SchemaFault::Validation("top-level not an object"@),
        ),
        ({
            let read = event_head(JsonTree::Object(doc));
            let invalid = |message: Seq<char>|
                Err::<(Seq<char>, (i64, u32), (i64, u32)), SchemaFault>(
                    SchemaFault::Validation(message),
                );
            if !has_text(doc, "type"@) {
                read == invalid("missing 'type' field"@)
            } else if doc["type"@]->Text_0 != "ObjectEvent"@ {
                read == invalid("unexpected EPCIS event class: "@ + doc["type"@]->Text_0)
            } else if !has_text(doc, "stepId"@) {
                read == invalid("stepId"@ + " missing"@)
            } else if !has_text(doc, "recordTime"@) {
                read == invalid("recordTime"@ + " missing"@)
            } else if rfc3339_read(doc["recordTime"@]->Text_0) is Err {
                read == invalid(
                    "recordTime"@ + ": not RFC3339: "@ + rfc3339_read(
                        doc["recordTime"@]->Text_0,
                    )->Err_0,
                )
            } else if !has_text(doc, "eventTime"@) {
                read == invalid("eventTime"@ + " missing"@)
            } else if rfc3339_read(doc["eventTime"@]->Text_0) is Err {
                read == invalid(
                    "eventTime"@ + ": not RFC3339: "@ + rfc3339_read(
                        doc["eventTime"@]->Text_0,
                    )->Err_0,
                )
            } else {
                read is Ok
            }
        }),
{
}

/// Where the head of a passport is in order, what is wrong after it is reported, the
/// first thing first: the two digests, then the model.
pub proof fn law_first_fault_in_the_body_is_reported(
    doc: Map<Seq<char>, JsonTree>,
    step_id: Seq<char>,
    started_at: (i64, u32),
    finished_at: (i64, u32),
)
    ensures
        ({
            let read = body_read(JsonTree::Object(doc), step_id, started_at, finished_at);
            let invalid = |message: Seq<char>|
                Err::<ReceiptView, SchemaFault>(SchemaFault::Validation(message));
            if !has_text(doc, "inputDigest"@) {
                read == invalid("inputDigest"@ + " missing"@)
            } else if digest_read(doc["inputDigest"@]->Text_0) is Err {
                read == Err::<ReceiptView, SchemaFault>(
                    digest_read(doc["inputDigest"@]->Text_0)->Err_0,
                )
            } else if !has_text(doc, "outputDigest"@) {
                read == invalid("outputDigest"@ + " missing"@)
            } else if digest_read(doc["outputDigest"@]->Text_0) is Err {
                read == Err::<ReceiptView, SchemaFault>(
                    digest_read(doc["outputDigest"@]->Text_0)->Err_0,
                )
            } else if doc.dom().contains("model"@) && model_read(doc["model"@]) is Err {
                read == Err::<ReceiptView, SchemaFault>(model_read(doc["model"@])->Err_0)
            } else {
                read is Ok
            }
        }),
{
}

/// What is wrong with a model is reported, the first thing first: its name, its
/// digest, its engine kind.
pub proof fn law_first_fault_in_a_model_is_reported(
    members: Map<Seq<char>, JsonTree>,
    other: JsonTree,
)
    requires
        !(other is Object),
    ensures
        model_read(other) == Err::<ArtefactView, SchemaFault>(
            SchemaFault::Validation("model: not an object"@),
        ),
        ({
            let read = model_read(JsonTree::Object(members));
            let invalid = |message: Seq<char>|
                Err::<ArtefactView, SchemaFault>(SchemaFault::Validation(message));
            if !has_text(members, "name"@) {
                read == invalid("model.name"@ + " missing"@)
            } else if !has_text(members, "digest"@) {
                read == invalid("model.digest"@ + " missing"@)
            } else if digest_read(members["digest"@]->Text_0) is Err {
                read == Err::<ArtefactView, SchemaFault>(
                    digest_read(members["digest"@]->Text_0)->Err_0,
                )
            } else if !has_text(members, "engineKind"@) {
                read == invalid("model.engineKind"@ + " missing"@)
            } else {
                read is Ok
            }
        }),
{
}

/// A passport is read from its bytes as JSON; what is no JSON is reported as such.
pub proof fn law_passport_is_read_as_json(bytes: Seq<u8>)
    ensures
        json_read(bytes) is Ok ==> decoded(bytes) == receipt_read(json_read(bytes)->Ok_0),
        json_read(bytes) is Err ==> decoded(bytes) == Err::<ReceiptView, SchemaFault>(
            SchemaFault::Encode("parse JSON-LD: "@ + json_read(bytes)->Err_0),
        ),
{
}

} // verus!
