//! Tests for the JUnit XML parser and its pieces.

use kare_core::model::Status;
use kare_core::parser::junit::{escalate, parse_events, parse_reports, parse_time_us, JunitParser};
use kare_core::parser::xml::{XmlEvent, XmlTag};
use kare_core::parser::{ParseError, ReportParser};

fn parse(xml: &str) -> Result<kare_core::model::TestRun, ParseError> {
    JunitParser.parse(xml.as_bytes())
}

#[test]
fn time_attribute_is_read_in_microseconds() {
    assert_eq!(parse_time_us("1.5"), 1_500_000);
    assert_eq!(parse_time_us("0.001234"), 1_234);
    assert_eq!(parse_time_us("+2"), 2_000_000);
    assert_eq!(parse_time_us(".5"), 500_000);
    assert_eq!(parse_time_us("3."), 3_000_000);
    assert_eq!(parse_time_us("1.2345678"), 1_234_567);
    assert_eq!(parse_time_us("0"), 0);
}

#[test]
fn time_attribute_that_is_not_a_decimal_counts_as_zero() {
    assert_eq!(parse_time_us(""), 0);
    assert_eq!(parse_time_us("."), 0);
    assert_eq!(parse_time_us("abc"), 0);
    assert_eq!(parse_time_us("-1"), 0);
    assert_eq!(parse_time_us("1.2.3"), 0);
    assert_eq!(parse_time_us(" 1"), 0);
}

#[test]
fn huge_time_attribute_saturates() {
    assert_eq!(parse_time_us("99999999999999999999"), u64::MAX);
    assert_eq!(parse_time_us("18446744073709.551615"), u64::MAX);
    assert_eq!(parse_time_us("18446744073709.551614"), u64::MAX - 1);
}

#[test]
fn phpunit_report_yields_results_with_class_suites_and_outcomes() {
    let xml = r#"<?xml version="1.0" encoding="UTF-8"?>
<testsuites>
  <testsuite name="/ci/phpunit.xml" tests="3">
    <testsuite name="App\Tests\CalcTest" tests="3">
      <testcase name="testAdd" class="App\Tests\CalcTest" time="0.001234"/>
      <testcase name="testDivide with data set &quot;zero&quot;" class="App\Tests\CalcTest" time="0.1">
        <error type="DivisionByZeroError">Division by zero</error>
      </testcase>
      <testcase name="testSkip" class="App\Tests\CalcTest" time="0">
        <skipped/>
      </testcase>
    </testsuite>
  </testsuite>
</testsuites>"#;
    let run = parse(xml).expect("parses");
    assert_eq!(run.results.len(), 3);
    assert_eq!(run.results[0].suite, "App\\Tests\\CalcTest");
    assert_eq!(run.results[0].name, "testAdd");
    assert_eq!(run.results[0].time_us, 1_234);
    assert_eq!(run.results[0].status, Status::Passed);
    assert_eq!(run.results[1].name, "testDivide with data set \"zero\"");
    assert_eq!(run.results[1].status, Status::Error);
    assert_eq!(run.results[1].time_us, 100_000);
    assert_eq!(run.results[2].status, Status::Skipped);
    assert_eq!(run.timestamp, None);
}

#[test]
fn testcase_without_class_belongs_to_innermost_suite() {
    let xml = r#"<testsuites><testsuite name="outer"><testsuite name="inner">
      <testcase name="a"/></testsuite><testcase name="b"/></testsuite></testsuites>"#;
    let run = parse(xml).expect("parses");
    assert_eq!(run.results[0].suite, "inner");
    assert_eq!(run.results[1].suite, "outer");
}

#[test]
fn most_severe_marker_wins_in_any_order() {
    let xml = r#"<testsuite name="s">
      <testcase name="a"><error/><failure/><skipped/></testcase>
      <testcase name="b"><skipped/><failure/></testcase>
      <testcase name="c"><failure/><error/></testcase>
    </testsuite>"#;
    let run = parse(xml).expect("parses");
    let statuses: Vec<Status> = run.results.iter().map(|r| r.status).collect();
    assert_eq!(statuses, vec![Status::Error, Status::Failed, Status::Error]);
}

#[test]
fn first_suite_timestamp_is_kept() {
    let xml = r#"<testsuites><testsuite name="a"><testsuite name="b" timestamp="2026-07-01T09:00:00"/>
      </testsuite><testsuite name="c" timestamp="2026-07-02T09:00:00"><testsuite name="d" timestamp="2026-07-03T09:00:00"></testsuite></testsuite></testsuites>"#;
    let run = parse(xml).expect("parses");
    assert_eq!(run.timestamp.as_deref(), Some("2026-07-02T09:00:00"));
    assert!(run.results.is_empty());
}

#[test]
fn testcase_without_name_is_invalid() {
    match parse(r#"<testsuite name="s"><testcase class="C"/></testsuite>"#) {
        Err(ParseError::InvalidStructure(m)) => assert_eq!(m, "<testcase> without name"),
        other => panic!("unexpected {:?}", other.map(|r| r.results.len())),
    }
}

#[test]
fn testcase_outside_suite_without_class_is_invalid() {
    match parse(r#"<testcase name="a"/>"#) {
        Err(ParseError::InvalidStructure(m)) => assert_eq!(m, "<testcase> outside <testsuite>"),
        other => panic!("unexpected {:?}", other.map(|r| r.results.len())),
    }
    // With a class it needs no surrounding suite.
    let run = parse(r#"<testcase name="a" class="C"/>"#).expect("parses");
    assert_eq!(run.results[0].suite, "C");
}

#[test]
fn malformed_xml_is_an_xml_error() {
    assert!(matches!(parse("<testsuite name=\"s\"><testcase name=\"a\"></testsuite>"), Err(ParseError::Xml(_))));
}

#[test]
fn malformed_attribute_is_invalid_structure() {
    assert!(matches!(parse("<testsuite name=\"s\"><testcase name/></testsuite>"), Err(ParseError::InvalidStructure(_))));
}

#[test]
fn empty_input_is_an_empty_run() {
    let run = parse("").expect("parses");
    assert!(run.results.is_empty());
    assert!(run.timestamp.is_none());
}

fn tag(name: &str, attrs: &[(&str, &str)]) -> XmlTag {
    XmlTag {
        name: name.to_string(),
        attrs: attrs.iter().map(|(k, v)| Ok((k.to_string(), v.to_string()))).collect(),
    }
}

#[test]
fn events_are_folded_with_end_of_sequence_as_end_of_input() {
    let events = vec![
        XmlEvent::Tag { empty: false, tag: tag("testsuite", &[("name", "S")]) },
        XmlEvent::Tag { empty: false, tag: tag("testcase", &[("name", "t"), ("time", "2.5")]) },
        XmlEvent::Tag { empty: true, tag: tag("failure", &[]) },
        XmlEvent::End("testcase".to_string()),
        XmlEvent::Other,
    ];
    let run = parse_events(events).expect("folds");
    assert_eq!(run.results.len(), 1);
    assert_eq!(run.results[0].suite, "S");
    assert_eq!(run.results[0].time_us, 2_500_000);
    assert_eq!(run.results[0].status, Status::Failed);
}

#[test]
fn open_testcase_is_dropped_at_end_of_input() {
    let events = vec![
        XmlEvent::Tag { empty: false, tag: tag("testsuite", &[("name", "S")]) },
        XmlEvent::Tag { empty: false, tag: tag("testcase", &[("name", "t")]) },
        XmlEvent::Eof,
        XmlEvent::End("testcase".to_string()),
    ];
    let run = parse_events(events).expect("folds");
    assert!(run.results.is_empty());
}

#[test]
fn malformed_attribute_event_reports_its_message() {
    let events = vec![XmlEvent::Tag {
        empty: false,
        tag: XmlTag { name: "testsuite".to_string(), attrs: vec![Err("bad attribute".to_string())] },
    }];
    match parse_events(events) {
        Err(ParseError::InvalidStructure(m)) => assert_eq!(m, "bad attribute"),
        _ => panic!("expected an invalid structure"),
    }
}

#[test]
fn shard_reports_merge_in_order_and_the_first_bad_one_is_named() {
    let a = b"<testsuite name=\"S\" timestamp=\"2026-07-01T00:00:00\"><testcase name=\"a\" time=\"1\"/></testsuite>".to_vec();
    let b = b"<testsuite name=\"T\" timestamp=\"2026-07-02T00:00:00\"><testcase name=\"b\"/></testsuite>".to_vec();
    let run = parse_reports(&vec![a.clone(), b.clone()]).expect("both parse");
    let names: Vec<&str> = run.results.iter().map(|r| r.name.as_str()).collect();
    assert_eq!(names, vec!["a", "b"]);
    assert_eq!(run.results[1].suite, "T");
    assert_eq!(run.timestamp.as_deref(), Some("2026-07-01T00:00:00"));
    let bad = b"<testsuite><testcase/></testsuite>".to_vec();
    match parse_reports(&vec![a, bad, b]) {
        Err((1, ParseError::InvalidStructure(m))) => assert_eq!(m, "<testcase> without name"),
        _ => panic!("expected the second report to fail"),
    }
    assert!(parse_reports(&Vec::new()).expect("no reports").results.is_empty());
}

#[test]
fn escalation_keeps_the_most_severe_marker() {
    let open = kare_core::model::TestResult {
        suite: "S".to_string(),
        name: "t".to_string(),
        time_us: 5,
        status: Status::Passed,
    };
    let mut a = Some(open.clone());
    escalate(&mut a, Status::Error);
    escalate(&mut a, Status::Skipped);
    let mut b = Some(open.clone());
    escalate(&mut b, Status::Skipped);
    escalate(&mut b, Status::Error);
    assert_eq!(a, b);
    assert_eq!(a.as_ref().map(|r| r.status), Some(Status::Error));
    assert_eq!(a.as_ref().map(|r| r.time_us), Some(5));
    let mut none: Option<kare_core::model::TestResult> = None;
    escalate(&mut none, Status::Failed);
    assert!(none.is_none());
}
