//! Where receipts go.

use prvnz_edge_core::config::DppConfig;
use prvnz_edge_core::json::{Json, JsonMap};
use prvnz_edge_core::receipt::{AttesterId, SinkId, StepReceipt};
use prvnz_edge_core::time::Timestamp;
use prvnz_edge_core::DppPolicyRouter;

fn receipt_with(tags: Vec<&str>, meta_keys: Vec<&str>) -> StepReceipt {
    let now = chrono::Utc::now();
    let at = Timestamp::new(now.timestamp(), now.timestamp_subsec_nanos()).unwrap();
    let mut meta = JsonMap::new();
    for k in meta_keys {
        meta.insert(k.to_string(), Json::text("v"));
    }
    StepReceipt {
        step_id: "s".into(),
        started_at: at,
        finished_at: at,
        model: None,
        input_digest: [0u8; 32],
        output_digest: [0u8; 32],
        tags: tags.into_iter().map(String::from).collect(),
        meta,
    }
}

#[test]
fn public_receipt_routes_to_public_sink() {
    let router = DppPolicyRouter::new(&DppConfig::default());
    let r = receipt_with(vec!["public"], vec![]);
    let d = router.route(&r);
    assert!(d.sinks.iter().any(|s| s.0 == "minima:anchor"));
    assert!(d.sinks.iter().any(|s| s.0 == "tenzro:public"));
    assert!(!d.sinks.iter().any(|s| s.0 == "tenzro:private"));
}

#[test]
fn sensitive_tag_routes_to_private_sink() {
    let router = DppPolicyRouter::new(&DppConfig::default());
    let r = receipt_with(vec!["sensitive", "compliance:DPP"], vec![]);
    let d = router.route(&r);
    assert!(d.sinks.iter().any(|s| s.0 == "tenzro:private"));
    assert!(!d.sinks.iter().any(|s| s.0 == "tenzro:public"));
}

#[test]
fn sensitive_meta_key_overrides_public_tag() {
    let cfg = DppConfig {
        sensitive_meta_keys: vec!["customer_id".into()],
        ..DppConfig::default()
    };
    let router = DppPolicyRouter::new(&cfg);
    let r = receipt_with(vec!["public"], vec!["customer_id"]);
    let d = router.route(&r);
    assert!(d.sinks.iter().any(|s| s.0 == "tenzro:private"));
}

#[test]
fn decision_is_exact() {
    let router = DppPolicyRouter::new(&DppConfig::default());
    let d = router.route(&receipt_with(vec!["x", "b2b"], vec![]));
    assert_eq!(
        d.sinks,
        vec![
            SinkId("minima:anchor".to_string()),
            SinkId("tenzro:private".to_string())
        ]
    );
    assert_eq!(d.attesters, vec![AttesterId("minima:local".to_string())]);
}

#[test]
fn no_attester_is_called_where_none_is_configured() {
    let cfg = DppConfig {
        default_attester: None,
        ..DppConfig::default()
    };
    let d = DppPolicyRouter::new(&cfg).route(&receipt_with(vec![], vec![]));
    assert!(d.attesters.is_empty());
    assert_eq!(d.sinks[1], SinkId("tenzro:public".to_string()));
}

#[test]
fn tags_and_claim_names_do_not_stand_in_for_each_other() {
    let cfg = DppConfig {
        sensitive_meta_keys: vec!["customer_id".into()],
        ..DppConfig::default()
    };
    let router = DppPolicyRouter::new(&cfg);
    assert!(!router.is_sensitive(&receipt_with(vec!["customer_id"], vec!["sensitive"])));
    assert!(!router.is_sensitive(&receipt_with(vec!["Sensitive", "private "], vec![])));
    assert!(router.is_sensitive(&receipt_with(vec!["private"], vec![])));
    assert!(router.is_sensitive(&receipt_with(vec![], vec!["a", "customer_id", "z"])));
}

#[test]
fn more_tags_and_claims_keep_a_receipt_sensitive() {
    let router = DppPolicyRouter::new(&DppConfig::default());
    assert!(router.is_sensitive(&receipt_with(vec!["private"], vec![])));
    assert!(router.is_sensitive(&receipt_with(vec!["public", "private"], vec!["k"])));
}

#[test]
fn routing_goes_by_tags_and_claim_names_only() {
    let router = DppPolicyRouter::new(&DppConfig::default());
    let one = receipt_with(vec!["public"], vec!["k"]);
    let mut other = receipt_with(vec!["public"], vec!["k"]);
    other.step_id = "sensitive".to_string();
    other.input_digest = [9u8; 32];
    other.meta.insert("k".to_string(), Json::text("sensitive"));
    assert_eq!(router.route(&one), router.route(&other));
}

#[test]
fn default_configuration_is_exact() {
    let cfg = DppConfig::default();
    assert_eq!(cfg.schema_context_url, "https://furcate.xyz/prvnz/context/v1.jsonld");
    assert_eq!(
        cfg.schema_context_url,
        prvnz_edge_core::config::DEFAULT_PRVNZ_CONTEXT_URL
    );
    assert_eq!(cfg.schema_profile_id, "prvnz-dpp:v1");
    assert_eq!(cfg.sensitive_tags, vec!["sensitive", "private", "b2b"]);
    assert!(cfg.sensitive_meta_keys.is_empty());
    assert_eq!(cfg.minima_anchor_sink, SinkId("minima:anchor".to_string()));
    assert_eq!(cfg.tenzro_public_sink, SinkId("tenzro:public".to_string()));
    assert_eq!(cfg.tenzro_private_sink, SinkId("tenzro:private".to_string()));
    assert_eq!(
        cfg.default_attester,
        Some(AttesterId("minima:local".to_string()))
    );
    assert_eq!(cfg.sd_jwt_hash_alg, "sha-256");
    assert_eq!(cfg.sd_jwt_jws_alg, "none");
}

#[test]
fn more_rules_keep_a_receipt_sensitive() {
    let r = receipt_with(vec!["private"], vec!["k"]);
    let cfg = DppConfig::default();
    assert!(DppPolicyRouter::new(&cfg).is_sensitive(&r));
    let more = DppConfig {
        sensitive_tags: vec!["x".into(), "private".into(), "y".into()],
        sensitive_meta_keys: vec!["z".into()],
        ..DppConfig::default()
    };
    assert!(DppPolicyRouter::new(&more).is_sensitive(&r));
}
