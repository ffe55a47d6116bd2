use camera_report::event::{parse_annotation, strip_fences, analyze_events, CombinedEventData, Event, InferredData};
use camera_report::json::JsonValue;
use camera_report::report::{analyze_batch, assemble_report, ReportDate};
use camera_report::score::parse_score;
use camera_report::stats::{compute_statistics, select_critical};
use camera_report::summary::{combine_descriptions, extract_summary, summarization_prompt};
use camera_report::text::{remove_occurrences, same_text, text_after_last};

fn event_with(id: &str, data: JsonValue) -> Event {
    Event {
        id: id.to_string(),
        label: Some("person".to_string()),
        sub_label: None,
        camera: "front".to_string(),
        start_time_ms: Some(1_700_000_000_000),
        end_time_ms: None,
        false_positive: None,
        zones: Some(vec!["porch".to_string()]),
        thumbnail: None,
        has_clip: Some(true),
        has_snapshot: Some(false),
        retain_indefinitely: None,
        plus_id: None,
        model_hash: None,
        detector_type: None,
        model_type: None,
        data,
    }
}

fn annotated(id: &str, text: &str) -> Event {
    event_with(
        id,
        JsonValue::Object(vec![
            ("type".to_string(), JsonValue::Str("object".to_string())),
            ("description".to_string(), JsonValue::Str(text.to_string())),
        ]),
    )
}

fn annotation_json(threat: &str, susp: &str, interest: &str, description: &str) -> String {
    format!(
        "{{\"threat_level\": {}, \"suspiciousness\": {}, \"interest\": {}, \"description\": \"{}\"}}",
        threat, susp, interest, description
    )
}

fn combined(id: &str, threat: u64, susp: u64, interest: u64, description: &str) -> CombinedEventData {
    CombinedEventData {
        event: event_with(id, JsonValue::Null),
        inferreddata: InferredData {
            threat_level: threat,
            suspiciousness: susp,
            interest,
            description: description.to_string(),
        },
    }
}

#[test]
fn payload_not_an_object_is_skipped() {
    assert!(event_with("a", JsonValue::Null).extract_inferred_data().is_none());
    assert!(event_with("b", JsonValue::Str(annotation_json("1", "1", "1", "x"))).extract_inferred_data().is_none());
    assert!(event_with("c", JsonValue::Array(vec![JsonValue::Bool(true)])).extract_inferred_data().is_none());
    assert!(event_with("d", JsonValue::Number("3".to_string())).extract_inferred_data().is_none());
}

#[test]
fn payload_without_annotation_field_is_skipped() {
    let data = JsonValue::Object(vec![("score".to_string(), JsonValue::Number("0.8".to_string()))]);
    assert!(event_with("a", data).extract_inferred_data().is_none());
}

#[test]
fn annotation_that_is_not_a_string_is_skipped() {
    let data = JsonValue::Object(vec![(
        "description".to_string(),
        JsonValue::Object(vec![("threat_level".to_string(), JsonValue::Number("1".to_string()))]),
    )]);
    assert!(event_with("a", data).extract_inferred_data().is_none());
}

#[test]
fn malformed_annotation_is_skipped() {
    assert!(annotated("a", "not json at all").extract_inferred_data().is_none());
    assert!(annotated("b", "{\"threat_level\": 1, \"suspiciousness\": 2}").extract_inferred_data().is_none());
    assert!(annotated("c", &annotation_json("\"high\"", "1", "1", "x")).extract_inferred_data().is_none());
    assert!(annotated("d", &annotation_json("-1", "1", "1", "x")).extract_inferred_data().is_none());
}

#[test]
fn well_formed_annotation_is_extracted() {
    let c = annotated("ev1", &annotation_json("7.5", "2", "0.25", "A person at the door"))
        .extract_inferred_data()
        .unwrap();
    assert_eq!(c.event.id, "ev1");
    assert_eq!(c.inferreddata.threat_level, 7500);
    assert_eq!(c.inferreddata.suspiciousness, 2000);
    assert_eq!(c.inferreddata.interest, 250);
    assert_eq!(c.inferreddata.description, "A person at the door");
}

#[test]
fn fenced_and_plain_annotation_agree() {
    let plain = annotation_json("3", "4.5", "6", "Car in driveway");
    let fenced = format!("```json\n{}\n```", plain);
    let a = parse_annotation(&plain).unwrap();
    let b = parse_annotation(&fenced).unwrap();
    assert_eq!(a.threat_level, b.threat_level);
    assert_eq!(a.suspiciousness, b.suspiciousness);
    assert_eq!(a.interest, b.interest);
    assert_eq!(a.description, b.description);
    assert_eq!(b.suspiciousness, 4500);
    let bare = format!("```{}```", plain);
    assert_eq!(parse_annotation(&bare).unwrap().interest, 6000);
}

#[test]
fn fences_are_removed() {
    assert_eq!(strip_fences("```json\n{}\n```"), "\n{}\n");
    assert_eq!(strip_fences("{\"a\": 1}"), "{\"a\": 1}");
    assert_eq!(strip_fences("``` x ```json y"), " x  y");
    assert_eq!(remove_occurrences("aaaa", "aa"), "");
    assert_eq!(remove_occurrences("abcabd", "ab"), "cd");
}

#[test]
fn texts_compare_by_characters() {
    assert!(same_text("description", "description"));
    assert!(!same_text("description", "descriptio"));
    assert!(!same_text("abc", "abd"));
}

#[test]
fn scores_read_as_thousandths() {
    assert_eq!(parse_score("10"), Some(10_000));
    assert_eq!(parse_score("7.5"), Some(7_500));
    assert_eq!(parse_score("0.25"), Some(250));
    assert_eq!(parse_score("0.1239"), Some(123));
    assert_eq!(parse_score("0"), Some(0));
    assert_eq!(parse_score("1000000000000"), Some(1_000_000_000_000_000));
    assert_eq!(parse_score("1000000000000.001"), None);
    assert_eq!(parse_score("99999999999999999999999"), None);
    assert_eq!(parse_score("-1"), None);
    assert_eq!(parse_score("1e5"), None);
    assert_eq!(parse_score(".5"), None);
    assert_eq!(parse_score("5."), None);
    assert_eq!(parse_score("1.2.3"), None);
    assert_eq!(parse_score(""), None);
}

#[test]
fn threat_outlier_is_critical() {
    let events = vec![
        combined("a", 1000, 1000, 1000, "one"),
        combined("b", 2000, 1000, 1000, "two"),
        combined("c", 3000, 1000, 1000, "three"),
        combined("d", 10000, 1000, 1000, "ten"),
    ];
    let stats = compute_statistics(&events).ok().unwrap();
    assert_eq!(stats.average_threat(), 4000);
    assert_eq!(stats.average_suspiciousness(), 1000);
    assert_eq!(stats.average_interest(), 1000);
    assert_eq!(stats.count, 4);
    let critical = select_critical(events, &stats);
    assert_eq!(critical.len(), 1);
    assert_eq!(critical[0].event.id, "d");
}

#[test]
fn score_equal_to_twice_the_mean_is_not_critical() {
    let events = vec![combined("a", 0, 0, 0, ""), combined("b", 2000, 0, 0, "")];
    let stats = compute_statistics(&events).ok().unwrap();
    assert!(!stats.is_critical(&events[1].inferreddata));
    assert!(select_critical(events, &stats).is_empty());
}

#[test]
fn any_axis_makes_an_event_critical() {
    let events = vec![
        combined("a", 1000, 1000, 1000, ""),
        combined("b", 1000, 1000, 9000, ""),
        combined("c", 1000, 1000, 1000, ""),
        combined("d", 1000, 9000, 1000, ""),
    ];
    let stats = compute_statistics(&events).ok().unwrap();
    let critical = select_critical(events, &stats);
    let ids: Vec<&str> = critical.iter().map(|c| c.event.id.as_str()).collect();
    assert_eq!(ids, vec!["b", "d"]);
}

#[test]
fn empty_batch_signals_empty_dataset() {
    assert!(compute_statistics(&Vec::new()).is_err());
    assert!(analyze_batch(Vec::new()).is_err());
    assert!(analyze_batch(vec![annotated("x", "garbage")]).is_err());
}

#[test]
fn summary_follows_reasoning_marker() {
    assert_eq!(extract_summary("<think>...internal...</think>FINAL SUMMARY"), "FINAL SUMMARY");
    assert_eq!(extract_summary("a</think>b</think>c"), "c");
    assert_eq!(extract_summary("trailing</think>"), "");
}

#[test]
fn summary_without_marker_is_whole_response() {
    assert_eq!(extract_summary("Nothing happened today."), "Nothing happened today.");
    assert_eq!(extract_summary(""), "");
    assert_eq!(text_after_last("x<y", "<y<"), "x<y");
}

#[test]
fn critical_events_keep_batch_order() {
    let events = vec![
        combined("first", 9000, 0, 0, ""),
        combined("calm1", 0, 0, 0, ""),
        combined("second", 0, 0, 9000, ""),
        combined("calm2", 0, 0, 0, ""),
        combined("third", 0, 9000, 0, ""),
        combined("calm3", 0, 0, 0, ""),
    ];
    let stats = compute_statistics(&events).ok().unwrap();
    let critical = select_critical(events, &stats);
    let ids: Vec<&str> = critical.iter().map(|c| c.event.id.as_str()).collect();
    assert_eq!(ids, vec!["first", "second", "third"]);
}

#[test]
fn batch_extraction_keeps_order_and_drops_failures() {
    let events = vec![
        annotated("a", &annotation_json("1", "1", "1", "A. ")),
        event_with("skip", JsonValue::Null),
        annotated("bad", "{oops"),
        annotated("b", &format!("```json{}```", annotation_json("2", "2", "2", "B."))),
    ];
    let out = analyze_events(events);
    let ids: Vec<&str> = out.iter().map(|c| c.event.id.as_str()).collect();
    assert_eq!(ids, vec!["a", "b"]);
    assert_eq!(combine_descriptions(&out), "A. B.");
    assert_eq!(
        summarization_prompt(&out),
        "Summarize the data contained in these events gathered from a security camera system. A. B."
    );
}

#[test]
fn batch_analysis_and_report_context() {
    let events = vec![
        annotated("a", &annotation_json("1", "1", "1", "x")),
        annotated("b", &annotation_json("2", "3", "1", "y")),
        annotated("c", &annotation_json("3", "2", "1", "z")),
        annotated("d", &annotation_json("10", "2", "1", "w")),
    ];
    let analysis = analyze_batch(events).ok().unwrap();
    assert_eq!(analysis.statistics.total_threat, 16000);
    assert_eq!(analysis.statistics.total_suspiciousness, 8000);
    assert_eq!(analysis.statistics.total_interest, 4000);
    assert_eq!(analysis.prompt, "Summarize the data contained in these events gathered from a security camera system. xyzw");
    assert_eq!(analysis.critical_events.len(), 1);
    assert_eq!(analysis.critical_events[0].event.id, "d");
    let date = ReportDate { year: 2024, month: 5, day: 17 };
    let ctx = assemble_report(date, analysis, "<think>hmm</think>Quiet day.");
    assert_eq!(ctx.summary, "Quiet day.");
    assert_eq!(ctx.date.day, 17);
    assert_eq!(ctx.statistics.average_threat(), 4000);
    assert_eq!(ctx.critical_events[0].inferreddata.threat_level, 10000);
}
