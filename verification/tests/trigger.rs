//! Lifecycle events from a feed of JSON lines.

use prvnz_edge_core::json::Json;
use prvnz_edge_core::receipt::{TriggerError, TriggerEvent, TriggerId};
use prvnz_edge_core::trigger::{
    event_of, parse_line, setup_error, FeedAction, FeedInput, FeedNotice,
    LineFault, SetupStep,
};
use prvnz_edge_core::{DppLifecycleTrigger, PrvnzEdgeError};
use std::path::PathBuf;

const LINE: &str = "{\"lifecycle\":\"onProductionComplete\",\"tags\":[\"public\"],\"payload\":{\"sku\":\"X\"}}\n";

fn source() -> TriggerId {
    TriggerId("prvnz:lifecycle".to_string())
}

fn trigger() -> DppLifecycleTrigger {
    DppLifecycleTrigger::new("prvnz:lifecycle", PathBuf::from("events.jsonl"))
}

fn read(line: &str) -> FeedInput {
    FeedInput::LineRead(line.as_bytes().to_vec())
}

#[test]
fn trigger_emits_appended_lines() {
    let trigger = DppLifecycleTrigger::new("prvnz:lifecycle", PathBuf::from("events.jsonl"));
    let mut tail = trigger.tail(0);
    assert_eq!(
        tail.step(FeedInput::Noticed(FeedNotice::Modified)),
        FeedAction::Seek(0)
    );
    assert_eq!(tail.step(FeedInput::Sought), FeedAction::ReadLine);
    let event = match tail.step(read(LINE)) {
        FeedAction::Emit(event) => event,
        other => panic!("expected an event, got {other:?}"),
    };
    assert_eq!(
        event.tags.first().map(String::as_str),
        Some("onProductionComplete")
    );
    assert!(event.tags.iter().any(|t| t == "public"));
    assert_eq!(
        tail.step(FeedInput::LineRead(Vec::new())),
        FeedAction::Wait
    );
    assert_eq!(tail.position(), LINE.len() as u64);
}

#[test]
fn event_is_exact() {
    let line = "{\"lifecycle\":\"onRepairDetected\",\"tags\":[\"a\",1,\"b\"],\"payload\":[1]}";
    assert_eq!(
        parse_line(&source(), line),
        Some(TriggerEvent {
            source: source(),
            tags: vec![
                "onRepairDetected".to_string(),
                "a".to_string(),
                "b".to_string()
            ],
            payload: Json::Array(vec![Json::Number(serde_json::Number::from(1u64))]),
        })
    );
}

#[test]
fn tags_and_payload_are_optional() {
    for line in [
        "{\"lifecycle\":\"l\"}",
        "{\"lifecycle\":\"l\",\"tags\":\"a\",\"payload\":null}",
        "{\"lifecycle\":\"l\",\"tags\":[],\"more\":1}",
    ] {
        assert_eq!(
            parse_line(&source(), line),
            Some(TriggerEvent {
                source: source(),
                tags: vec!["l".to_string()],
                payload: Json::Null,
            })
        );
    }
}

#[test]
fn lines_that_say_no_event() {
    for line in ["", "{", "[]", "{}", "{\"lifecycle\":1}", "{\"tags\":[\"a\"]}", "{} {}"] {
        assert_eq!(parse_line(&source(), line), None);
    }
}

#[test]
fn bad_lines_are_skipped_and_the_feed_goes_on() {
    let mut tail = trigger().tail(10);
    let mut events = Vec::new();
    let mut faults = Vec::new();
    let lines = [
        LINE,
        "not json\n",
        "\n",
        "\u{3000} \t\r\n",
        "{\"tags\":[]}\n",
        "  {\"lifecycle\":\"second\"}\u{a0}\n",
    ];
    let mut read_so_far: u64 = 10;
    for line in lines {
        read_so_far += line.len() as u64;
        match tail.step(read(line)) {
            FeedAction::Emit(event) => events.push(event.tags[0].clone()),
            FeedAction::Skip(fault) => faults.push(fault),
            other => assert_eq!(other, FeedAction::ReadLine),
        }
        assert_eq!(tail.position(), read_so_far);
    }
    assert_eq!(events, vec!["onProductionComplete", "second"]);
    assert_eq!(
        faults,
        vec![
            LineFault::NotJson("expected ident at line 1 column 2".to_string()),
            LineFault::NoLifecycle
        ]
    );
    assert_eq!(
        tail.step(FeedInput::Noticed(FeedNotice::Created)),
        FeedAction::Seek(read_so_far)
    );
}

#[test]
fn other_notices_are_waited_out() {
    let mut tail = trigger().tail(7);
    for notice in [FeedNotice::Other, FeedNotice::Failed] {
        assert_eq!(tail.step(FeedInput::Noticed(notice)), FeedAction::Wait);
    }
    assert_eq!(tail.position(), 7);
}

#[test]
fn failures_stop_the_feed() {
    let mut tail = trigger().tail(1234567890);
    assert_eq!(
        tail.step(FeedInput::SeekFailed("gone".to_string())),
        FeedAction::Stop(TriggerError::Terminated(
            "seek to 1234567890: gone".to_string()
        ))
    );
    assert_eq!(
        tail.step(FeedInput::ReadFailed("gone".to_string())),
        FeedAction::Stop(TriggerError::Terminated("read line: gone".to_string()))
    );
}

#[test]
fn setup_failures_say_what_failed() {
    for (step, message) in [
        (SetupStep::OpenFeed, "open feed p: e"),
        (SetupStep::SeekEnd, "seek end: e"),
        (SetupStep::MakeWatcher, "watcher init: e"),
        (SetupStep::Watch, "watch p: e"),
    ] {
        assert_eq!(
            setup_error(step, "p", "e"),
            TriggerError::Setup(message.to_string())
        );
    }
}

#[test]
fn trigger_keeps_its_name_and_path() {
    let t = trigger().clone();
    assert_eq!(t.id(), source());
    assert_eq!(t.feed_path(), &PathBuf::from("events.jsonl"));
}

#[test]
fn edge_errors_say_where_it_went_wrong() {
    let what = || "w".to_string();
    for (error, message) in [
        (PrvnzEdgeError::Schema(what()), "schema: w"),
        (PrvnzEdgeError::Trigger(what()), "trigger: w"),
        (PrvnzEdgeError::Policy(what()), "policy: w"),
        (PrvnzEdgeError::Disclosure(what()), "disclosure: w"),
        (PrvnzEdgeError::Minima(what()), "minima: w"),
        (PrvnzEdgeError::Tenzro(what()), "tenzro: w"),
    ] {
        assert_eq!(error.message(), message);
    }
}

#[test]
fn events_are_taken_from_json() {
    let v = Json::read(b"{\"lifecycle\":\"l\",\"payload\":0}").unwrap();
    let event = event_of(&source(), &v).unwrap();
    assert_eq!(event.tags, vec!["l"]);
    assert_eq!(&event.payload, v.get("payload").unwrap());
    assert_eq!(event_of(&source(), &Json::Null), None);
}

#[test]
fn a_line_that_is_no_text_is_skipped() {
    let mut tail = trigger().tail(0);
    assert_eq!(
        tail.step(FeedInput::LineRead(b"\xff\n".to_vec())),
        FeedAction::Skip(LineFault::NotUtf8(
            "invalid utf-8 sequence of 1 bytes from index 0".to_string()
        ))
    );
    assert_eq!(tail.position(), 2);
    match tail.step(read("{\"lifecycle\":\"onRepairDetected\"}\n")) {
        FeedAction::Emit(event) => assert_eq!(event.tags, vec!["onRepairDetected"]),
        other => panic!("expected an event, got {other:?}"),
    }
}

#[test]
fn a_line_counts_once_its_newline_is_there() {
    let mut tail = trigger().tail(5);
    let piece = "{\"lifecycle\":\"onRepair";
    assert_eq!(tail.step(read(piece)), FeedAction::Wait);
    assert_eq!(tail.position(), 5);
    assert_eq!(
        tail.step(FeedInput::Noticed(FeedNotice::Modified)),
        FeedAction::Seek(5)
    );
    assert_eq!(tail.step(FeedInput::Sought), FeedAction::ReadLine);
    let line = format!("{piece}Detected\"}}\n");
    match tail.step(read(&line)) {
        FeedAction::Emit(event) => assert_eq!(event.tags, vec!["onRepairDetected"]),
        other => panic!("expected an event, got {other:?}"),
    }
    assert_eq!(tail.position(), 5 + line.len() as u64);
}

#[test]
fn a_line_that_says_an_event_does_not_wait_for_its_newline() {
    let mut tail = trigger().tail(0);
    let line = "{\"lifecycle\":\"l\"}";
    match tail.step(read(line)) {
        FeedAction::Emit(event) => assert_eq!(event.tags, vec!["l"]),
        other => panic!("expected an event, got {other:?}"),
    }
    assert_eq!(tail.position(), line.len() as u64);
    // The newline adds nothing when it comes.
    assert_eq!(tail.step(read("")), FeedAction::Wait);
    assert_eq!(tail.step(read("\n")), FeedAction::ReadLine);
    assert_eq!(tail.position(), line.len() as u64 + 1);
    // What says no event yet waits: nothing, a word, an object without lifecycle.
    for piece in [" ", "onRepair", "{}", "{\"lifecycle\":\"\u{e9}"] {
        assert_eq!(tail.step(read(piece)), FeedAction::Wait);
    }
    assert_eq!(
        tail.step(FeedInput::LineRead(b"{\"lifecycle\":\"\xc3".to_vec())),
        FeedAction::Wait
    );
    assert_eq!(tail.position(), line.len() as u64 + 1);
}
