//! Envelopes: what is disclosed, what is shown again, and what is refused.

use base64::engine::general_purpose::URL_SAFE_NO_PAD;
use base64::Engine;
use prvnz_edge_core::config::DppConfig;
use prvnz_edge_core::disclosure::{frame, make_disclosure, payload_with, pointer_to_claim};
use prvnz_edge_core::envelope::{
    b64, b64d, check_committed, claim_of, hash_disclosure, hash_disclosure_sha256,
    parse_unsigned_jwt, show, verify_text,
};
use prvnz_edge_core::json::{Json, JsonMap};
use prvnz_edge_core::receipt::{
    DisclosedEnvelope, DisclosureError, DisclosureId, DisclosurePolicy,
};
use prvnz_edge_core::DppSelectiveDisclosure;
use sha2::{Digest, Sha256};

fn object(members: Vec<(&str, Json)>) -> Json {
    let mut m = JsonMap::new();
    for (name, value) in members {
        m.insert(name.to_string(), value);
    }
    Json::Object(m)
}

fn number(n: u64) -> Json {
    Json::Number(serde_json::Number::from(n))
}

fn payload() -> Json {
    object(vec![
        ("product_id", Json::text("SKU-42")),
        ("batch", Json::text("B-2026-05")),
        ("customer_id", Json::text("ACME-Corp")),
        (
            "internal_cost",
            Json::Number(serde_json::Number::from_f64(12.34).unwrap()),
        ),
    ])
}

fn scheme() -> DppSelectiveDisclosure {
    DppSelectiveDisclosure::with_algs("test", "sha-256", "none")
}

fn showing(paths: &[&str]) -> DisclosurePolicy {
    DisclosurePolicy {
        visible: paths.iter().map(|p| p.to_string()).collect(),
    }
}

fn envelope(text: &str) -> DisclosedEnvelope {
    DisclosedEnvelope {
        scheme: "sd-jwt".to_string(),
        bytes: text.as_bytes().to_vec(),
    }
}

fn crypto(text: &str) -> Result<Json, DisclosureError> {
    Err(DisclosureError::Crypto(text.to_string()))
}

const HEADER: &str = "eyJhbGciOiJub25lIiwidHlwIjoidmMrc2Qtand0In0";

const WHOLE: &str = "eyJhbGciOiJub25lIiwidHlwIjoidmMrc2Qtand0In0.eyJfc2QiOlsiczRnemdFRDAxbld1Y1llRTZFcVBWTHdoZ1BJS1FBZ0lENnhUVGxFWFhjRSJdLCJfc2RfYWxnIjoic2hhLTI1NiIsImEiOjF9.~WyJCd2NIQndjSEJ3Y0hCd2NIQndjSEJ3IiwiYiIsIngiXQ~";

#[test]
fn roundtrip_recovers_disclosed_claims() {
    let sd = DppSelectiveDisclosure::with_algs("test", "sha-256", "none");
    let p = payload();
    let policy = DisclosurePolicy {
        visible: vec!["/product_id".into(), "/batch".into()],
    };
    let env = sd.disclose(&p, &policy).unwrap();
    let recovered = sd.verify(&env).unwrap();
    assert_eq!(recovered.get("product_id"), Some(&Json::text("SKU-42")));
    assert_eq!(recovered.get("customer_id"), Some(&Json::text("ACME-Corp")));
}

#[test]
fn unknown_visible_path_is_rejected() {
    let sd = DppSelectiveDisclosure::with_algs("test", "sha-256", "none");
    let p = payload();
    let policy = DisclosurePolicy {
        visible: vec!["/does_not_exist".into()],
    };
    match sd.disclose(&p, &policy) {
        Err(DisclosureError::UnknownPath(_)) => {}
        other => panic!("expected UnknownPath, got {other:?}"),
    }
}

#[test]
fn nested_pointer_is_rejected_in_v01() {
    let sd = DppSelectiveDisclosure::with_algs("test", "sha-256", "none");
    let p = object(vec![("outer", object(vec![("inner", number(1))]))]);
    let policy = DisclosurePolicy {
        visible: vec!["/outer/inner".into()],
    };
    match sd.disclose(&p, &policy) {
        Err(DisclosureError::Unsupported(_)) => {}
        other => panic!("expected Unsupported, got {other:?}"),
    }
}

#[test]
fn whole_payload_comes_back() {
    let p = payload();
    for paths in [
        vec![],
        vec!["/batch"],
        vec!["/batch", "/batch", "/product_id"],
        vec!["/batch", "/product_id", "/customer_id", "/internal_cost"],
    ] {
        let env = scheme().disclose(&p, &showing(&paths)).unwrap();
        assert_eq!(env.scheme, "sd-jwt");
        assert_eq!(scheme().verify(&env), Ok(p.clone()));
    }
}

#[test]
fn envelope_text_is_exact() {
    let p = object(vec![("b", Json::text("x")), ("a", number(1))]);
    let env = scheme()
        .disclose_with_salts(&p, &showing(&["/a"]), &vec![[7u8; 16]])
        .unwrap();
    assert_eq!(env, envelope(WHOLE));
    assert_eq!(scheme().hidden_claims(&p, &showing(&["/a"])), 1);
}

#[test]
fn names_outside_ascii_are_disclosed() {
    let p = object(vec![("größe", number(42)), ("名", Json::text("桃")), ("a", Json::Null)]);
    let env = scheme().disclose(&p, &showing(&["/名"])).unwrap();
    assert_eq!(scheme().verify(&env), Ok(p));
}

#[test]
fn salts_are_drawn_anew() {
    let p = payload();
    let one = scheme().disclose(&p, &showing(&[])).unwrap();
    let two = scheme().disclose(&p, &showing(&[])).unwrap();
    assert_ne!(one, two);
    assert_eq!(scheme().verify(&one), scheme().verify(&two));
}

#[test]
fn nothing_is_hidden_behind_no_commitment() {
    let p = object(vec![("a", number(1))]);
    let env = scheme().disclose(&p, &showing(&["/a"])).unwrap();
    assert_eq!(env, envelope(&format!("{HEADER}.eyJhIjoxfQ.~")));
    assert_eq!(scheme().hidden_claims(&p, &showing(&["/a"])), 0);
}

#[test]
fn only_presented_claims_are_shown() {
    let p = payload();
    let salts = vec![[1u8; 16], [2u8; 16], [3u8; 16]];
    let env = scheme()
        .disclose_with_salts(&p, &showing(&["/batch"]), &salts)
        .unwrap();
    let text = String::from_utf8(env.bytes).unwrap();
    let parts: Vec<&str> = text.split('~').collect();
    // The JWT, the disclosures of customer_id, internal_cost and product_id, and
    // nothing after the last `~`.
    assert_eq!(parts.len(), 5);
    let all = payload();
    let of = |names: &[&str]| {
        object(names.iter().map(|n| (*n, all.get(n).unwrap().clone())).collect())
    };
    let some = envelope(&format!("{}~{}~", parts[0], parts[2]));
    assert_eq!(scheme().verify(&some), Ok(of(&["batch", "internal_cost"])));
    let none = envelope(&format!("{}~", parts[0]));
    assert_eq!(scheme().verify(&none), Ok(of(&["batch"])));
    let swapped = envelope(&format!("{}~{}~~{}", parts[0], parts[3], parts[1]));
    assert_eq!(
        scheme().verify(&swapped),
        Ok(of(&["batch", "customer_id", "product_id"]))
    );
}

#[test]
fn hidden_values_do_not_stand_in_the_jwt() {
    let env = scheme().disclose(&payload(), &showing(&["/batch"])).unwrap();
    let text = String::from_utf8(env.bytes).unwrap();
    let jwt = text.split('~').next().unwrap();
    let shown = scheme().verify(&envelope(jwt)).unwrap();
    assert_eq!(shown, object(vec![("batch", Json::text("B-2026-05"))]));
}

#[test]
fn reserved_names_are_the_envelopes_own() {
    // A visible claim with a reserved name gives way to the envelope's.
    let p = object(vec![("_sd", number(1)), ("b", Json::text("x"))]);
    let env = scheme().disclose(&p, &showing(&["/_sd"])).unwrap();
    assert_eq!(
        scheme().verify(&env),
        Ok(object(vec![("b", Json::text("x"))]))
    );
    // A hidden one comes back.
    let env = scheme().disclose(&p, &showing(&["/b"])).unwrap();
    assert_eq!(scheme().verify(&env), Ok(p));
}

#[test]
fn uncommitted_disclosure_is_refused() {
    let d = "WyJzIiwiYSIsMV0";
    let text = format!("{HEADER}.eyJhIjoxfQ.~{d}~");
    assert_eq!(
        scheme().verify(&envelope(&text)),
        crypto("disclosure not committed in _sd: WyJzIiwiYSIsMV0")
    );
    let tampered = WHOLE.replace("IngiXQ", "InkiXQ");
    assert_ne!(tampered, WHOLE);
    assert_eq!(
        scheme().verify(&envelope(&tampered)),
        crypto(
            "disclosure not committed in _sd: WyJCd2NIQndjSEJ3Y0hCd2NIQndjSEJ3IiwiYiIsInkiXQ"
        )
    );
}

/// A JWT that commits to the disclosure `d`.
fn committing_to(d: &str) -> String {
    let digest = Sha256::digest(d.as_bytes());
    let sd = URL_SAFE_NO_PAD.encode(digest);
    let body = URL_SAFE_NO_PAD.encode(format!("{{\"_sd\":[5,\"{sd}\"]}}"));
    format!("{HEADER}.{body}.~{d}~")
}

#[test]
fn malformed_disclosures_are_refused() {
    for (d, message) in [
        ("!", "base64url decode: Invalid symbol 33, offset 0."),
        ("e30", "disclosure not an array"),
        ("W10", "disclosure length 0 (want 3)"),
        ("WzEsMiwzLDRd", "disclosure length 4 (want 3)"),
        ("WyJzIiwxLDJd", "disclosure[1] not string"),
        (
            "ew",
            "disclosure not JSON: EOF while parsing an object at line 1 column 1",
        ),
    ] {
        assert_eq!(
            scheme().verify(&envelope(&committing_to(d))),
            crypto(message)
        );
    }
    // WyJzIiwiYSIsMV0 is ["s","a",1].
    assert_eq!(
        scheme().verify(&envelope(&committing_to("WyJzIiwiYSIsMV0"))),
        Ok(object(vec![("a", number(1))]))
    );
}

#[test]
fn malformed_envelopes_are_refused() {
    assert_eq!(scheme().verify(&envelope("")), crypto("JWT missing payload"));
    assert_eq!(scheme().verify(&envelope("~")), crypto("JWT missing payload"));
    assert_eq!(
        scheme().verify(&envelope("a.b.c.d")),
        crypto("JWT has too many segments")
    );
    assert_eq!(
        scheme().verify(&envelope("a.!.c")),
        crypto("base64url decode: Invalid symbol 33, offset 0.")
    );
    assert_eq!(
        scheme().verify(&envelope("a.W10.c")),
        crypto("JWT payload not an object")
    );
    assert_eq!(
        scheme().verify(&envelope("a..")),
        crypto("decode JWT payload: EOF while parsing a value at line 1 column 0")
    );
    assert_eq!(
        scheme().verify(&envelope("a.eyJfc2RfYWxnIjoibWQ1In0")),
        Err(DisclosureError::Unsupported(
            "hash alg md5 (only 'sha-256' supported in v0.1)".to_string()
        ))
    );
    let other = DisclosedEnvelope {
        scheme: "bbs+".to_string(),
        bytes: Vec::new(),
    };
    assert_eq!(
        scheme().verify(&other),
        Err(DisclosureError::Unsupported("bbs+".to_string()))
    );
    let broken = DisclosedEnvelope {
        scheme: "sd-jwt".to_string(),
        bytes: vec![b'a', 0xff],
    };
    assert_eq!(
        scheme().verify(&broken),
        crypto("envelope utf-8: invalid utf-8 sequence of 1 bytes from index 1")
    );
}

#[test]
fn two_segments_and_no_tilde_are_enough() {
    assert_eq!(
        scheme().verify(&envelope("a.eyJhIjoxfQ")),
        Ok(object(vec![("a", number(1))]))
    );
}

#[test]
fn policies_are_refused_with_what_is_wrong() {
    let p = payload();
    let refused = |path: &str| scheme().disclose(&p, &showing(&["/batch", path]));
    assert_eq!(
        refused("batch"),
        Err(DisclosureError::UnknownPath(
            "batch: must start with '/'".to_string()
        ))
    );
    assert_eq!(
        refused(""),
        Err(DisclosureError::UnknownPath(
            ": must start with '/'".to_string()
        ))
    );
    assert_eq!(
        refused("/"),
        Err(DisclosureError::Unsupported(
            "/: only top-level JSON Pointers supported in v0.1".to_string()
        ))
    );
    assert_eq!(
        refused("/nope"),
        Err(DisclosureError::UnknownPath("/nope".to_string()))
    );
    assert_eq!(
        scheme().disclose(&Json::text("p"), &showing(&[])),
        Err(DisclosureError::Unsupported(
            "payload must be a JSON object".to_string()
        ))
    );
}

#[test]
fn other_hash_algorithms_are_refused_where_something_is_hidden() {
    let sd = DppSelectiveDisclosure::with_algs("test", "md5", "none");
    let p = object(vec![("a", number(1))]);
    assert_eq!(
        sd.disclose(&p, &showing(&[])),
        Err(DisclosureError::Unsupported(
            "hash alg md5 (only 'sha-256' supported in v0.1)".to_string()
        ))
    );
    assert!(sd.disclose(&p, &showing(&["/a"])).is_ok());
}

#[test]
fn hash_algorithm_is_chosen_by_name() {
    for (alg, sd) in [
        ("sha-256", "s4gzgED01nWucYeE6EqPVLwhgPIKQAgID6xTTlEXXcE"),
        (
            "sha-384",
            "9me3rCsul97OlBtCf86Ukocw92l06iSQGr_nN5a-7jO9FNihtm7lyeLThvKYZ7zk",
        ),
        (
            "sha-512",
            "mB-vpZcLfQPnsJHQGAXB5j7bfMzjMCeTRPMAvM8j10ORLFSje_irUF-3Wp4IfpRT5Y9Vvp14ELWaUvV5iIg0ug",
        ),
    ] {
        let cfg = DppConfig {
            sd_jwt_hash_alg: alg.to_string(),
            ..DppConfig::default()
        };
        let scheme = DppSelectiveDisclosure::new(&cfg);
        let p = object(vec![("b", Json::text("x")), ("a", number(1))]);
        let env = scheme
            .disclose_with_salts(&p, &showing(&["/a"]), &vec![[7u8; 16]])
            .unwrap();
        let text = String::from_utf8(env.bytes.clone()).unwrap();
        let jwt = parse_unsigned_jwt(text.split('~').next().unwrap()).unwrap();
        assert_eq!(jwt.get("_sd_alg"), Some(&Json::text(alg)));
        assert_eq!(jwt.get("_sd"), Some(&Json::Array(vec![Json::text(sd)])));
        assert_eq!(scheme.verify(&env), Ok(p));
    }
}

#[test]
fn pointers_are_unescaped() {
    let p = object(vec![("a/b", number(1))]);
    let env = scheme().disclose(&p, &showing(&["/a~1b"])).unwrap();
    assert_eq!(env, envelope(&format!("{HEADER}.eyJhL2IiOjF9.~")));
    for (path, name) in [
        ("/a~1b", "a/b"),
        ("/a~0b", "a~b"),
        ("/~01", "~1"),
        ("/~~1~", "~/~"),
        ("/~2", "~2"),
    ] {
        assert_eq!(pointer_to_claim(path), Ok(name.to_string()));
    }
}

#[test]
fn an_envelope_has_one_tilde_more_than_disclosures() {
    for (paths, hidden) in [(vec![], 4), (vec!["/batch"], 3)] {
        let env = scheme().disclose(&payload(), &showing(&paths)).unwrap();
        let text = String::from_utf8(env.bytes).unwrap();
        assert_eq!(text.matches('~').count(), hidden + 1);
        assert!(text.ends_with('~'));
        let jwt = text.split('~').next().unwrap();
        assert_eq!(jwt.split('.').count(), 3);
        assert!(jwt.ends_with('.'));
    }
}

#[test]
fn disclosures_read_back_salt_first() {
    let d = make_disclosure(&[7u8; 16], "b", &Json::text("x")).unwrap();
    assert_eq!(d, "WyJCd2NIQndjSEJ3Y0hCd2NIQndjSEJ3IiwiYiIsIngiXQ");
    let said = Json::read(&b64d(&d).unwrap()).unwrap();
    assert_eq!(
        said,
        Json::Array(vec![
            Json::text("BwcHBwcHBwcHBwcHBwcHBw"),
            Json::text("b"),
            Json::text("x")
        ])
    );
    let other = make_disclosure(&[8u8; 16], "b", &Json::text("x")).unwrap();
    assert_ne!(d, other);
}

#[test]
fn base64url_has_one_spelling() {
    for bytes in [vec![], vec![0xffu8], vec![0xff, 0xfe], vec![1, 2, 3]] {
        let text = b64(&bytes);
        assert_eq!(text.len(), (4 * bytes.len() + 2) / 3);
        assert_eq!(b64d(&text), Ok(bytes));
    }
    assert_eq!(b64(&[0xff]), "_w");
    for text in ["_w==", "_x", "/w", "_", " _w"] {
        assert!(matches!(b64d(text), Err(DisclosureError::Crypto(_))));
    }
}

#[test]
fn order_and_repetition_of_disclosures_do_not_matter() {
    let env = scheme().disclose(&payload(), &showing(&["/batch"])).unwrap();
    let text = String::from_utf8(env.bytes).unwrap();
    let p: Vec<&str> = text.split('~').collect();
    let shuffled = format!("{}~{}~{}~{}~{}~", p[0], p[3], p[1], p[3], p[2]);
    assert_eq!(scheme().verify(&envelope(&shuffled)), Ok(payload()));
}

#[test]
fn scheme_is_named_after_its_hash() {
    let cfg = DppConfig::default();
    assert_eq!(
        DppSelectiveDisclosure::new(&cfg).id(),
        DisclosureId("prvnz-sd-jwt:sha-256".to_string())
    );
    assert_eq!(scheme().id(), DisclosureId("test".to_string()));
}

#[test]
fn header_names_the_signature_algorithm() {
    let sd = DppSelectiveDisclosure::with_algs("test", "sha-256", "EdDSA");
    let env = sd
        .disclose(&object(vec![("a", number(1))]), &showing(&["/a"]))
        .unwrap();
    // eyJhbGciOiJFZERTQSIsInR5cCI6InZjK3NkLWp3dCJ9 is
    // {"alg":"EdDSA","typ":"vc+sd-jwt"}.
    assert_eq!(
        env,
        envelope("eyJhbGciOiJFZERTQSIsInR5cCI6InZjK3NkLWp3dCJ9.eyJhIjoxfQ.~")
    );
}

#[test]
fn commitments_are_exact() {
    assert_eq!(
        hash_disclosure_sha256("WyJCd2NIQndjSEJ3Y0hCd2NIQndjSEJ3IiwiYiIsIngiXQ"),
        "s4gzgED01nWucYeE6EqPVLwhgPIKQAgID6xTTlEXXcE"
    );
    assert_eq!(hash_disclosure("sha-256", "d"), hash_disclosure_sha256("d"));
    assert_eq!(hash_disclosure("sha-384", "d").len(), 64);
    assert_eq!(hash_disclosure("sha-512", "d").len(), 86);
}

#[test]
fn commitments_are_looked_up() {
    let committed = vec!["a".to_string(), "b".to_string()];
    assert_eq!(check_committed(&committed, "b", "d"), Ok(()));
    assert_eq!(
        check_committed(&committed, "c", "d"),
        Err(DisclosureError::Crypto(
            "disclosure not committed in _sd: d".to_string()
        ))
    );
}

#[test]
fn payload_lists_commitments_only_where_there_are_some() {
    let claims = payload();
    let visible = vec!["batch".to_string()];
    let claims = claims.as_object().unwrap();
    let bare = payload_with(claims, &visible, "sha-256", &Vec::new());
    assert_eq!(
        Json::Object(bare),
        object(vec![("batch", Json::text("B-2026-05"))])
    );
    let sd = vec!["x".to_string(), "y".to_string()];
    let full = payload_with(claims, &visible, "sha-256", &sd);
    assert_eq!(
        Json::Object(full),
        object(vec![
            ("batch", Json::text("B-2026-05")),
            ("_sd", Json::Array(vec![Json::text("x"), Json::text("y")])),
            ("_sd_alg", Json::text("sha-256")),
        ])
    );
}

#[test]
fn envelopes_are_framed_by_tildes() {
    assert_eq!(frame("j".to_string(), &Vec::new()), "j~");
    assert_eq!(
        frame("j".to_string(), &vec!["d".to_string(), "e".to_string()]),
        "j~d~e~"
    );
}

#[test]
fn what_a_jwt_shows_is_without_its_own_members() {
    let claims = parse_unsigned_jwt("a.eyJhIjoxfQ.").unwrap();
    assert_eq!(Json::Object(claims.clone()), object(vec![("a", number(1))]));
    let mut signed = claims.clone();
    signed.insert("_sd".to_string(), Json::Null);
    signed.insert("_sd_alg".to_string(), number(5));
    let parts = vec!["jwt".to_string(), String::new()];
    assert_eq!(show(signed, &parts), Ok(claims.clone()));
    assert_eq!(verify_text("a.eyJhIjoxfQ.~"), Ok(claims));
}

#[test]
fn claims_are_taken_from_disclosures() {
    let t = Json::Array(vec![Json::Null, Json::text("n"), number(1)]);
    assert_eq!(claim_of(&t), Ok(("n".to_string(), number(1))));
}

#[test]
fn pointers_lead_to_top_level_claims() {
    assert_eq!(pointer_to_claim("/a b"), Ok("a b".to_string()));
    assert_eq!(pointer_to_claim("/名"), Ok("名".to_string()));
    assert!(pointer_to_claim("//").is_err());
}

#[test]
fn order_and_repetition_of_paths_do_not_matter() {
    let salts = vec![[1u8; 16], [2u8; 16]];
    let one = showing(&["/batch", "/product_id"]);
    let other = showing(&["/product_id", "/batch", "/product_id"]);
    assert_eq!(
        scheme().disclose_with_salts(&payload(), &one, &salts),
        scheme().disclose_with_salts(&payload(), &other, &salts)
    );
}
