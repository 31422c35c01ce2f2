//! Passports: receipts written as JSON-LD and read back.

use chrono::{TimeZone, Timelike, Utc};
use prvnz_edge_core::config::DppConfig;
use prvnz_edge_core::digest::{hex_digest, parse_hex_digest};
use prvnz_edge_core::json::{Json, JsonMap};
use prvnz_edge_core::receipt::{ArtefactSnapshot, SchemaError, SchemaProfileId, StepReceipt};
use prvnz_edge_core::schema::{
    artefact_from_json, artefact_to_json, event_document, head_of, receipt_of,
};
use prvnz_edge_core::time::Timestamp;
use prvnz_edge_core::DppSchemaProfile;

fn at(t: chrono::DateTime<Utc>) -> Timestamp {
    Timestamp::new(t.timestamp(), t.timestamp_subsec_nanos()).unwrap()
}

fn sample_receipt() -> StepReceipt {
    let mut meta = JsonMap::new();
    meta.insert("product_id".into(), Json::text("SKU-42"));
    meta.insert("batch".into(), Json::text("B-2026-05"));
    StepReceipt {
        step_id: "agent:assemble:run-1".into(),
        started_at: at(Utc.with_ymd_and_hms(2026, 5, 23, 10, 0, 0).unwrap()),
        finished_at: at(Utc.with_ymd_and_hms(2026, 5, 23, 10, 0, 5).unwrap()),
        model: Some(ArtefactSnapshot {
            name: "llama-3-8b-q4".into(),
            digest: [7u8; 32],
            engine_kind: "llama".into(),
        }),
        input_digest: [1u8; 32],
        output_digest: [2u8; 32],
        tags: vec!["public".into(), "compliance:DPP-CEN-JTC24".into()],
        meta,
    }
}

fn profile() -> DppSchemaProfile {
    DppSchemaProfile::with_parts("prvnz-dpp:v1", "https://example/ctx.jsonld")
}

fn digest_of(pair: &str) -> String {
    format!("blake3:{}", pair.repeat(32))
}

/// The passport of a bare receipt, in parts that tests replace.
fn document(parts: &[(&str, &str)]) -> String {
    let d = format!("\"{}\"", digest_of("00"));
    let mut members: Vec<(&str, String)> = vec![
        ("type", "\"ObjectEvent\"".to_string()),
        ("stepId", "\"s\"".to_string()),
        ("recordTime", "\"2026-05-23T10:00:00Z\"".to_string()),
        ("eventTime", "\"2026-05-23T12:00:05+02:00\"".to_string()),
        ("inputDigest", d.clone()),
        ("outputDigest", d),
    ];
    for (name, value) in parts {
        members.retain(|(n, _)| n != name);
        if !value.is_empty() {
            members.push((*name, value.to_string()));
        }
    }
    let said: Vec<String> = members
        .iter()
        .map(|(n, v)| format!("\"{n}\":{v}"))
        .collect();
    format!("{{{}}}", said.join(","))
}

fn decoded(parts: &[(&str, &str)]) -> Result<StepReceipt, SchemaError> {
    profile().decode(document(parts).as_bytes())
}

fn invalid(parts: &[(&str, &str)], message: &str) {
    assert_eq!(
        decoded(parts),
        Err(SchemaError::Validation(message.to_string()))
    );
}

#[test]
fn roundtrip_preserves_required_fields() {
    let profile = DppSchemaProfile::with_parts("prvnz-dpp:v1", "https://example/ctx.jsonld");
    let r = sample_receipt();
    let bytes = profile.encode(&r, b"canonical receipt").unwrap();
    let r2 = profile.decode(&bytes).unwrap();
    assert_eq!(r.step_id, r2.step_id);
    assert_eq!(r.started_at, r2.started_at);
    assert_eq!(r.finished_at, r2.finished_at);
    assert_eq!(r.input_digest, r2.input_digest);
    assert_eq!(r.output_digest, r2.output_digest);
    assert_eq!(r.tags, r2.tags);
    assert_eq!(r.meta, r2.meta);
    assert_eq!(
        r.model.as_ref().map(|m| &m.name),
        r2.model.as_ref().map(|m| &m.name),
    );
    assert_eq!(r, r2);
}

#[test]
fn decode_rejects_unknown_event_class() {
    let profile = DppSchemaProfile::with_parts("prvnz-dpp:v1", "https://example/ctx.jsonld");
    let bad = "{\"stepId\":\"x\",\"type\":\"TransformationEvent\"}".to_string();
    assert!(profile.decode(bad.as_bytes()).is_err());
    assert_eq!(
        profile.decode(bad.as_bytes()),
        Err(SchemaError::Validation(
            "unexpected EPCIS event class: TransformationEvent".to_string()
        ))
    );
}

#[test]
fn passport_text_is_exact() {
    let mut r = sample_receipt();
    r.input_digest = [0u8; 32];
    r.output_digest = [0xabu8; 32];
    let bytes = profile().encode(&r, b"").unwrap();
    let expected = format!(
        "{{\"@context\":\"https://example/ctx.jsonld\",\
         \"bizStep\":[\"public\",\"compliance:DPP-CEN-JTC24\"],\
         \"eventID\":\"blake3:af1349b9f5f9a1a6a0404dea36dcc9499bcb25c9adc112b7cc9a93cae41f3262\",\
         \"eventTime\":\"2026-05-23T10:00:05+00:00\",\
         \"inputDigest\":\"{}\",\
         \"model\":{{\"digest\":\"{}\",\"engineKind\":\"llama\",\"name\":\"llama-3-8b-q4\"}},\
         \"outputDigest\":\"{}\",\
         \"passportClaims\":{{\"batch\":\"B-2026-05\",\"product_id\":\"SKU-42\"}},\
         \"recordTime\":\"2026-05-23T10:00:00+00:00\",\
         \"stepId\":\"agent:assemble:run-1\",\
         \"type\":\"ObjectEvent\"}}",
        digest_of("00"),
        digest_of("07"),
        digest_of("ab"),
    );
    assert_eq!(String::from_utf8(bytes).unwrap(), expected);
}

#[test]
fn event_is_named_by_the_digest_of_the_canonical_form() {
    let bytes = profile().encode(&sample_receipt(), b"canon").unwrap();
    let doc = Json::read(&bytes).unwrap();
    let expected = format!("blake3:{}", blake3::hash(b"canon").to_hex());
    assert_eq!(doc.get("eventID"), Some(&Json::text(&expected)));
}

#[test]
fn no_model_and_no_claims_leave_no_members() {
    let mut r = sample_receipt();
    r.model = None;
    r.meta = JsonMap::new();
    r.tags = Vec::new();
    let bytes = profile().encode(&r, b"").unwrap();
    let doc = Json::read(&bytes).unwrap();
    assert_eq!(doc.get("model"), None);
    assert_eq!(doc.get("passportClaims"), None);
    assert_eq!(doc.get("bizStep"), Some(&Json::Array(Vec::new())));
    assert_eq!(profile().decode(&bytes), Ok(r));
}

#[test]
fn nested_claims_come_back() {
    let mut r = sample_receipt();
    let text = "{\"q\":[null,true,{\"n\":-7,\"m\":18446744073709551615}],\"s\":\"a\\\"\\u0000é\"}";
    let claim = Json::read(text.as_bytes()).unwrap();
    r.meta.insert("quality".to_string(), claim);
    let bytes = profile().encode(&r, b"").unwrap();
    assert_eq!(profile().decode(&bytes), Ok(r));
}

#[test]
fn offsets_are_resolved_to_utc() {
    let r = decoded(&[]).unwrap();
    assert_eq!(
        r.started_at,
        at(Utc.with_ymd_and_hms(2026, 5, 23, 10, 0, 0).unwrap())
    );
    assert_eq!(
        r.finished_at,
        at(Utc.with_ymd_and_hms(2026, 5, 23, 10, 0, 5).unwrap())
    );
    assert_eq!(r.started_at.secs(), 1779530400);
    assert_eq!(r.model, None);
    assert!(r.tags.is_empty());
    assert!(r.meta.is_empty());
}

#[test]
fn unknown_members_are_ignored() {
    let plain = decoded(&[]).unwrap();
    let extra = decoded(&[
        ("ilmd", "{\"x\":[1]}"),
        ("eventID", "7"),
        ("@context", "null"),
    ])
    .unwrap();
    assert_eq!(plain, extra);
}

#[test]
fn lists_and_claims_of_another_kind_count_as_none() {
    let r = decoded(&[("bizStep", "\"public\""), ("passportClaims", "[1]")]).unwrap();
    assert!(r.tags.is_empty());
    assert!(r.meta.is_empty());
    let r = decoded(&[("bizStep", "[\"a\",1,null,\"b\"]")]).unwrap();
    assert_eq!(r.tags, vec!["a", "b"]);
}

#[test]
fn missing_members_are_named() {
    invalid(&[("type", "")], "missing 'type' field");
    invalid(&[("type", "5")], "missing 'type' field");
    invalid(&[("stepId", "")], "stepId missing");
    invalid(&[("recordTime", "1")], "recordTime missing");
    invalid(&[("eventTime", "")], "eventTime missing");
    invalid(&[("inputDigest", "")], "inputDigest missing");
    invalid(&[("outputDigest", "[]")], "outputDigest missing");
    invalid(&[("model", "null")], "model: not an object");
    invalid(&[("model", "{}")], "model.name missing");
    invalid(&[("model", "{\"name\":\"n\"}")], "model.digest missing");
    let d = digest_of("0f");
    let model = format!("{{\"name\":\"n\",\"digest\":\"{d}\"}}");
    invalid(&[("model", &model)], "model.engineKind missing");
    let model = format!("{{\"name\":\"n\",\"digest\":\"{d}\",\"engineKind\":\"e\"}}");
    assert_eq!(
        decoded(&[("model", &model)]).unwrap().model,
        Some(ArtefactSnapshot {
            name: "n".to_string(),
            digest: [15u8; 32],
            engine_kind: "e".to_string(),
        })
    );
}

#[test]
fn the_first_fault_is_reported() {
    invalid(
        &[("type", "\"X\""), ("stepId", "")],
        "unexpected EPCIS event class: X",
    );
    invalid(&[("recordTime", ""), ("eventTime", "")], "recordTime missing");
    invalid(&[("eventTime", ""), ("inputDigest", "")], "eventTime missing");
}

#[test]
fn times_that_are_none_are_refused() {
    invalid(
        &[("recordTime", "\"2026-05-23x10:00:00Z\"")],
        "recordTime: not RFC3339: input contains invalid characters",
    );
    invalid(
        &[("eventTime", "\"\"")],
        "eventTime: not RFC3339: premature end of input",
    );
}

#[test]
fn digests_that_are_none_are_refused() {
    invalid(
        &[("inputDigest", "\"sha256:00\"")],
        "digest missing 'blake3:' prefix: sha256:00",
    );
    invalid(
        &[("outputDigest", "\"blake3:00\"")],
        "digest hex length 2 (want 64)",
    );
    let bad = format!("\"{}\"", digest_of("0g"));
    invalid(
        &[("inputDigest", &bad)],
        "digest hex parse: invalid digit found in string",
    );
}

#[test]
fn what_is_no_json_or_no_object_is_refused() {
    assert_eq!(
        profile().decode(b""),
        Err(SchemaError::Encode(
            "parse JSON-LD: EOF while parsing a value at line 1 column 0".to_string()
        ))
    );
    assert_eq!(
        profile().decode(b"[]"),
        Err(SchemaError::Validation("top-level not an object".to_string()))
    );
}

#[test]
fn digest_text_reads_back() {
    let mut d = [0u8; 32];
    for (i, b) in d.iter_mut().enumerate() {
        *b = (i * 8 + 7) as u8;
    }
    let text = hex_digest(&d);
    assert_eq!(
        text,
        "blake3:070f171f272f373f474f575f676f777f878f979fa7afb7bfc7cfd7dfe7eff7ff"
    );
    assert_eq!(parse_hex_digest(&text), Ok(d));
    assert_eq!(parse_hex_digest(&digest_of("Ff")), Ok([255u8; 32]));
    let upper = format!("blake3:{}", text["blake3:".len()..].to_uppercase());
    assert_eq!(parse_hex_digest(&upper), Ok(d));
}

fn no_digest(text: &str) {
    assert_eq!(
        parse_hex_digest(text),
        Err(SchemaError::Validation(
            "digest hex parse: invalid digit found in string".to_string()
        ))
    );
}

#[test]
fn only_hexadecimal_digits_make_a_digest() {
    for pair in ["+1", "+f", "f+", "-f", " 0", "0g"] {
        no_digest(&digest_of(pair));
    }
}

#[test]
fn characters_of_many_bytes_make_no_digest() {
    // Each of these is 64 bytes long after the prefix.
    no_digest(&format!("blake3:{}é", "0".repeat(62)));
    no_digest(&format!("blake3:{}é0", "0".repeat(61)));
    let euro = format!("blake3:\u{20ac}{}", "a".repeat(61));
    no_digest(&euro);
    let quoted = format!("\"{euro}\"");
    let message = "digest hex parse: invalid digit found in string";
    invalid(&[("inputDigest", &quoted)], message);
    invalid(&[("outputDigest", &quoted)], message);
    let model = format!("{{\"name\":\"n\",\"digest\":{quoted}}}");
    invalid(&[("model", &model)], message);
}

#[test]
fn models_read_back() {
    let m = ArtefactSnapshot {
        name: "n".to_string(),
        digest: [0xc3u8; 32],
        engine_kind: "e".to_string(),
    };
    let v = artefact_to_json(&m);
    assert_eq!(v.as_object().unwrap().len(), 3);
    assert_eq!(artefact_from_json(&v), Ok(m));
}

#[test]
fn moments_are_written_and_read_back() {
    let cases = [
        (0i64, 0u32, "1970-01-01T00:00:00+00:00"),
        (-62167219200, 0, "0000-01-01T00:00:00+00:00"),
        (253402300799, 999_999_999, "9999-12-31T23:59:59.999999999+00:00"),
        (1779530405, 120_000_000, "2026-05-23T10:00:05.120+00:00"),
        (1483228799, 1_500_000_000, "2016-12-31T23:59:60.500+00:00"),
        (-1, 1_000_000_000, "1969-12-31T23:59:60+00:00"),
    ];
    for (secs, nanos, text) in cases {
        let t = Timestamp::new(secs, nanos).unwrap();
        assert_eq!(t.to_rfc3339(), text);
        assert_eq!(Timestamp::from_rfc3339(text), Ok(t));
        assert_eq!((t.secs(), t.nanos()), (secs, nanos));
    }
}

#[test]
fn moments_out_of_range_are_none() {
    let ends = [
        (-8334601228800i64, 8210266876799i64),
        (
            chrono::DateTime::<Utc>::MIN_UTC.timestamp(),
            chrono::DateTime::<Utc>::MAX_UTC.timestamp(),
        ),
    ];
    for (first, last) in ends {
        assert!(Timestamp::new(first, 0).is_some());
        assert!(Timestamp::new(first - 1, 0).is_none());
        assert!(Timestamp::new(last, 0).is_some());
        assert!(Timestamp::new(last + 1, 0).is_none());
    }
    assert!(Timestamp::new(59, 1_999_999_999).is_some());
    assert!(Timestamp::new(59, 2_000_000_000).is_none());
}

#[test]
fn moments_are_written_as_chrono_writes_them() {
    for secs in [0i64, 30, 59, -1, -2, -8334601228800, 8210266876799] {
        for nanos in [0u32, 1_000, 999_999_999, 1_000_000_000, 1_999_999_999] {
            let second = chrono::DateTime::<Utc>::from_timestamp(secs, 0).unwrap();
            let known = second.naive_utc().with_nanosecond(nanos).unwrap().and_utc();
            assert_eq!(at(known), Timestamp::new(secs, nanos).unwrap());
            assert_eq!(at(known).to_rfc3339(), known.to_rfc3339());
        }
    }
}

#[test]
fn a_leap_second_may_follow_any_second() {
    let t = Timestamp::new(1779530400, 1_250_000_000).unwrap();
    assert_eq!(t.to_rfc3339(), "2026-05-23T10:00:01.250+00:00");
    // It reads as the second after.
    let read = Timestamp::from_rfc3339(&t.to_rfc3339()).unwrap();
    assert_eq!((read.secs(), read.nanos()), (1779530401, 250_000_000));
    let mut r = sample_receipt();
    r.finished_at = t;
    let doc = Json::read(&profile().encode(&r, b"").unwrap()).unwrap();
    assert_eq!(
        doc.get("eventTime"),
        Some(&Json::text("2026-05-23T10:00:01.250+00:00"))
    );
}

#[test]
fn moments_beyond_four_digits_do_not_come_back() {
    let t = Timestamp::new(253402300800, 0).unwrap();
    assert_eq!(t.to_rfc3339(), "+10000-01-01T00:00:00+00:00");
    assert!(Timestamp::from_rfc3339(&t.to_rfc3339()).is_err());
}

#[test]
fn profile_goes_by_its_configuration() {
    let p = DppSchemaProfile::new(&DppConfig::default());
    assert_eq!(p.id(), SchemaProfileId("prvnz-dpp:v1".to_string()));
    let doc = Json::read(&p.encode(&sample_receipt(), b"").unwrap()).unwrap();
    assert_eq!(
        doc.get("@context"),
        Some(&Json::text("https://furcate.xyz/prvnz/context/v1.jsonld"))
    );
}

#[test]
fn events_are_named_and_dated_as_given() {
    let mut r = sample_receipt();
    r.model = None;
    r.meta = JsonMap::new();
    let doc = event_document("c", "i", "e", "r", &r);
    assert_eq!(doc.get("@context"), Some(&Json::text("c")));
    assert_eq!(doc.get("eventID"), Some(&Json::text("i")));
    assert_eq!(doc.get("eventTime"), Some(&Json::text("e")));
    assert_eq!(doc.get("recordTime"), Some(&Json::text("r")));
    assert_eq!(doc.as_object().unwrap().len(), 9);
}

#[test]
fn head_and_body_make_the_receipt() {
    let doc = Json::read(document(&[]).as_bytes()).unwrap();
    let (step_id, started_at, finished_at) = head_of(&doc).unwrap();
    assert_eq!(step_id, "s");
    let r = receipt_of(doc.as_object().unwrap(), step_id, started_at, finished_at);
    assert_eq!(r, decoded(&[]));
}
