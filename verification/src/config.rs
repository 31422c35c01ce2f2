//! Configuration of the passport components.

use vstd::prelude::*;
use vstd::string::*;
use crate::receipt::{AttesterId, SinkId};
use crate::text::texts;

verus! {

broadcast use vstd::string::group_string_axioms;

/// The JSON-LD context that passports name unless configured otherwise.
pub const DEFAULT_PRVNZ_CONTEXT_URL: &'static str = "https://furcate.xyz/prvnz/context/v1.jsonld";

/// Configuration shared by the passport components.
#[derive(Clone, Debug, PartialEq, Eq)]
pub struct DppConfig {
    /// The JSON-LD `@context` that passports name.
    pub schema_context_url: String,
    /// The name of the schema profile.
    pub schema_profile_id: String,
    /// Tags that make a receipt sensitive.
    pub sensitive_tags: Vec<String>,
    /// Names of claims whose presence makes a receipt sensitive.
    pub sensitive_meta_keys: Vec<String>,
    /// The sink that anchors every receipt.
    pub minima_anchor_sink: SinkId,
    /// The sink for the bodies of public receipts.
    pub tenzro_public_sink: SinkId,
    /// The sink for the bodies of sensitive receipts.
    pub tenzro_private_sink: SinkId,
    /// The attester to call alongside, if any.
    pub default_attester: Option<AttesterId>,
    /// The hash algorithm of disclosures: `sha-256`, `sha-384` or `sha-512`.
    pub sd_jwt_hash_alg: String,
    /// The signature algorithm that envelopes name in their header.
    pub sd_jwt_jws_alg: String,
}

impl Default for DppConfig {
    fn default() -> (r: Self)
        ensures
            r.schema_context_url@ == "https://furcate.xyz/prvnz/context/v1.jsonld"@,
            r.schema_profile_id@ == "prvnz-dpp:v1"@,
            texts(r.sensitive_tags@) == seq!["sensitive"@, "private"@, "b2b"@],
            texts(r.sensitive_meta_keys@) == Seq::<Seq<char>>::empty(),
            r.minima_anchor_sink.0@ == "minima:anchor"@,
            r.tenzro_public_sink.0@ == "tenzro:public"@,
            r.tenzro_private_sink.0@ == "tenzro:private"@,
            r.default_attester is Some,
            r.default_attester->Some_0.0@ == "minima:local"@,
            r.sd_jwt_hash_alg@ == "sha-256"@,
            r.sd_jwt_jws_alg@ == "none"@,
    {
        let mut sensitive_tags: Vec<String> = Vec::new();
        sensitive_tags.push("sensitive".to_owned());
        sensitive_tags.push("private".to_owned());
        sensitive_tags.push("b2b".to_owned());
        assert(texts(sensitive_tags@) =~= seq!["sensitive"@, "private"@, "b2b"@]);
        let sensitive_meta_keys: Vec<String> = Vec::new();
        assert(texts(sensitive_meta_keys@) =~= Seq::<Seq<char>>::empty());
        DppConfig {
            schema_context_url: DEFAULT_PRVNZ_CONTEXT_URL.to_owned(),
            schema_profile_id: "prvnz-dpp:v1".to_owned(),
            sensitive_tags,
            sensitive_meta_keys,
            minima_anchor_sink: SinkId("minima:anchor".to_owned()),
            tenzro_public_sink: SinkId("tenzro:public".to_owned()),
            tenzro_private_sink: SinkId("tenzro:private".to_owned()),
            default_attester: Some(AttesterId("minima:local".to_owned())),
            sd_jwt_hash_alg: "sha-256".to_owned(),
            sd_jwt_jws_alg: "none".to_owned(),
        }
    }
}

} // verus!
