use snmidi::error::SessionError;
use snmidi::json_lines::{
    after_read, after_send, frame, LineReader, ReadStart, Received, TaskStep,
};
use snmidi::protocol::{ErrorResponse, Report};
use snmidi::text::number_text;

fn report(messages: &[&str]) -> Report {
    Report {
        messages: messages.iter().map(|message| message.to_string()).collect(),
        rendered: "rendered".to_string(),
    }
}

#[test]
fn a_report_is_told_with_its_context() {
    let response = ErrorResponse::of_report(&report(&["outer", "middle", "root"]));
    assert_eq!(response.error, "outer");
    assert_eq!(response.context, vec!["middle".to_string(), "root".to_string()]);
    assert_eq!(response.ansi, "rendered");
}

#[test]
fn a_report_without_causes_has_no_context() {
    let response = ErrorResponse::of_report(&report(&["only"]));
    assert_eq!(response.error, "only");
    assert!(response.context.is_empty());
}

#[test]
fn only_a_failure_is_told() {
    assert!(ErrorResponse::of_outcome(&Ok(())).is_none());
    let response = ErrorResponse::of_outcome(&Err(report(&["lost"]))).unwrap();
    assert_eq!(response.error, "lost");
}

#[test]
fn errors_in_words() {
    let version = SessionError::UnsupportedVersion {
        version: 10,
        client_name: "my \"client\"\n".to_string(),
    };
    assert_eq!(version.message(), "Unsupported version 10 (client=\"my \\\"client\\\"\\n\")");
    assert_eq!(SessionError::PortNotFound.message(), "port id not found");
    let seqnum = SessionError::UnexpectedSeqnum { seqnum: 4_294_967_295, expected: 7 };
    assert_eq!(seqnum.message(), "Unexpected seqnum 4294967295; expected 7");
}

#[test]
fn numbers_in_decimal() {
    for number in [0, 1, 9, 10, 99, 100, 12_345, 1_000_000, u32::MAX] {
        assert_eq!(number_text(number), format!("{}", number));
    }
}

#[test]
fn a_line_ends_with_a_newline() {
    assert_eq!(frame("{\"ack\":0}".to_string()), "{\"ack\":0}\n");
    assert_eq!(frame(String::new()), "\n");
}

#[test]
fn the_reading_task_runs_until_the_end() {
    assert!(matches!(after_read::<&str>(Ok(5)), TaskStep::Send));
    assert!(matches!(after_read::<&str>(Ok(0)), TaskStep::Stop(None)));
    assert!(matches!(after_read(Err("broken")), TaskStep::Stop(Some("broken"))));
    assert!(matches!(after_send::<&str>(true), TaskStep::Read));
    assert!(matches!(after_send::<&str>(false), TaskStep::Stop(None)));
}

#[test]
fn a_read_error_is_given_once() {
    let mut reader = LineReader::new();
    assert!(matches!(reader.start_read(), ReadStart::Receive));
    match reader.received(Some(vec![1, 2])) {
        Received::Line(line) => assert_eq!(line, vec![1, 2]),
        Received::Join => panic!("the channel is open"),
    }
    assert!(matches!(reader.start_read(), ReadStart::Receive));
    assert!(matches!(reader.received(None), Received::Join));
    assert!(reader.can_join());
    assert_eq!(reader.joined(Some("broken")), Err("broken"));
    assert!(reader.can_join());
    assert!(matches!(reader.start_read(), ReadStart::NoLine));
    assert!(matches!(reader.start_read(), ReadStart::NoLine));
}

#[test]
fn a_closed_stream_gives_no_line() {
    let mut reader = LineReader::new();
    assert!(reader.can_join());
    assert!(matches!(reader.received(None), Received::Join));
    assert_eq!(reader.joined::<&str>(None), Ok(None));
    assert!(matches!(reader.start_read(), ReadStart::NoLine));
}

#[test]
fn a_read_can_be_given_up_while_it_joins() {
    let mut reader = LineReader::new();
    assert!(matches!(reader.start_read(), ReadStart::Receive));
    assert!(matches!(reader.start_read(), ReadStart::Receive));
    assert!(matches!(reader.received(None), Received::Join));
    assert!(reader.can_join());
    for _ in 0..3 {
        assert!(matches!(reader.start_read(), ReadStart::Join));
        assert!(reader.can_join());
    }
    assert_eq!(reader.joined(Some("broken")), Err("broken"));
    assert!(matches!(reader.start_read(), ReadStart::NoLine));
}

#[test]
fn a_task_that_panicked_cannot_be_joined() {
    let mut reader = LineReader::new();
    assert!(matches!(reader.received(None), Received::Join));
    reader.panicked();
    assert!(!reader.can_join());
    assert!(matches!(reader.start_read(), ReadStart::NoLine));
}

#[test]
fn a_join_tells_what_no_read_has_told() {
    let mut reader = LineReader::new();
    assert_eq!(reader.join(Some("broken")), Some("broken"));
    assert_eq!(reader.join::<&str>(None), None);
    assert!(matches!(reader.received(None), Received::Join));
    assert_eq!(reader.join(Some("broken")), Some("broken"));
    assert_eq!(reader.joined(Some("broken")), Err("broken"));
    assert_eq!(reader.join(Some("broken")), None);
}
