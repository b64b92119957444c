use snmidi::client::{Action, Client, Event};
use snmidi::connection::exit_messages;
use snmidi::error::SessionError;
use snmidi::ports::{get_ports, FoundPort, PortInfoError};
use snmidi::protocol::{ConnectRequest, EstablishedCommand, InitializeRequest, PortId};

fn greeting(version: u8) -> Event<'static> {
    Event::Initialize(Some(InitializeRequest { version, client_name: "test".to_string() }))
}

fn choice() -> Event<'static> {
    Event::Connect(Some(ConnectRequest { id: PortId("a".to_string()) }))
}

fn established() -> Client {
    let mut client = Client::new();
    match client.step(greeting(0)) {
        Action::OpenOutput { client_name } => assert_eq!(client_name, "test"),
        _ => panic!("the output is not opened"),
    }
    let found = FoundPort { id: "a".to_string(), name: Ok("Synth".to_string()) };
    match client.step(Event::Ports(vec![found])) {
        Action::SendPorts(response) => {
            assert_eq!(response.ports.len(), 1);
            assert_eq!(response.ports[0].id, PortId("a".to_string()));
            assert_eq!(response.ports[0].name.as_deref(), Some("Synth"));
        }
        _ => panic!("the ports are not sent"),
    }
    match client.step(choice()) {
        Action::FindPort(id) => assert_eq!(id, PortId("a".to_string())),
        _ => panic!("the port is not looked for"),
    }
    assert!(matches!(client.step(Event::Lookup(true)), Action::OpenPort));
    match client.step(Event::Socket(60099)) {
        Action::SendConnected(response) => assert_eq!(response.udp_port, 60099),
        _ => panic!("the socket is not told"),
    }
    client
}

#[test]
fn a_session_from_start_to_end() {
    let mut client = established();
    match client.step(Event::Tick(0)) {
        Action::Play(due) => assert!(due.messages.is_empty() && due.wake.is_none()),
        _ => panic!("nothing to play"),
    }
    let contents = b"SNMi\x00\x00\x00\x00\x90\x3c\x7f";
    assert!(client.has_room(contents));
    match client.step(Event::Datagram(contents, 1)) {
        Action::Accept(accepted) => {
            assert_eq!(accepted.ack.ack, 0);
            assert_eq!(accepted.messages, vec![vec![0x90, 0x3C, 0x7F]]);
        }
        _ => panic!("the datagram is not taken"),
    }
    assert!(matches!(client.step(Event::Tick(1)), Action::Play(_)));
    assert!(matches!(client.step(Event::Datagram(b"hello", 2)), Action::Skip));
    assert!(matches!(client.step(Event::Tick(2)), Action::Play(_)));
    assert!(matches!(
        client.step(Event::Command(None)),
        Action::Close { stop_all_on_exit: true }
    ));
}

#[test]
fn queued_messages_are_played_at_their_time() {
    let mut client = established();
    assert!(matches!(client.step(Event::Tick(0)), Action::Play(_)));
    let contents = b"SNMq\xDE\xAD\xBE\xEF\x00\x02\x00\x03\x90\x3C\x7F";
    assert!(matches!(client.step(Event::Datagram(contents, 5_000_000)), Action::Accept(_)));
    match client.step(Event::Tick(6_000_000)) {
        Action::Play(due) => {
            assert!(due.messages.is_empty());
            assert_eq!(due.wake, Some(7_000_000));
        }
        _ => panic!("nothing to play"),
    }
    match client.step(Event::Tick(7_000_000)) {
        Action::Play(due) => {
            assert_eq!(due.messages, vec![vec![0x90, 0x3C, 0x7F]]);
            assert_eq!(due.wake, None);
        }
        _ => panic!("nothing to play"),
    }
}

#[test]
fn shutdown_without_stop_leaves_notes_alone() {
    let mut client = established();
    assert!(matches!(client.step(Event::Tick(0)), Action::Play(_)));
    let command = Some(EstablishedCommand::ShutdownWithoutStop);
    assert!(matches!(
        client.step(Event::Command(command)),
        Action::Close { stop_all_on_exit: false }
    ));
}

#[test]
fn a_client_can_close_at_once() {
    let mut client = Client::new();
    assert!(matches!(
        client.step(Event::Initialize(None)),
        Action::Close { stop_all_on_exit: true }
    ));
}

#[test]
fn a_client_can_close_after_the_ports() {
    let mut client = Client::new();
    client.step(greeting(0));
    client.step(Event::Ports(vec![]));
    assert!(matches!(
        client.step(Event::Connect(None)),
        Action::Close { stop_all_on_exit: true }
    ));
}

#[test]
fn another_version_is_refused() {
    for version in [1, 255] {
        let mut client = Client::new();
        match client.step(greeting(version)) {
            Action::Fail(SessionError::UnsupportedVersion { version: got, client_name }) => {
                assert_eq!(got, version);
                assert_eq!(client_name, "test");
            }
            _ => panic!("the version is taken"),
        }
    }
}

#[test]
fn an_unknown_port_is_refused() {
    let mut client = Client::new();
    client.step(greeting(0));
    client.step(Event::Ports(vec![]));
    client.step(choice());
    assert!(matches!(
        client.step(Event::Lookup(false)),
        Action::Fail(SessionError::PortNotFound)
    ));
}

#[test]
fn a_lost_datagram_ends_the_session() {
    let mut client = established();
    assert!(matches!(client.step(Event::Tick(0)), Action::Play(_)));
    let contents = b"SNMi\x00\x00\x00\x01\x90\x3c\x7f";
    assert!(matches!(
        client.step(Event::Datagram(contents, 0)),
        Action::Fail(SessionError::UnexpectedSeqnum { seqnum: 1, expected: 0 })
    ));
}

#[test]
fn ports_that_are_gone_are_not_listed() {
    let found = vec![
        FoundPort { id: "a".to_string(), name: Err(PortInfoError::InvalidPort) },
        FoundPort { id: "b".to_string(), name: Ok("B".to_string()) },
        FoundPort { id: "c".to_string(), name: Err(PortInfoError::CannotRetrievePortName) },
        FoundPort { id: "d".to_string(), name: Err(PortInfoError::PortNumberOutOfRange) },
        FoundPort { id: "e".to_string(), name: Ok("E".to_string()) },
    ];
    let listed: Vec<(String, Option<String>)> =
        get_ports(&found).into_iter().map(|port| (port.id.0, port.name)).collect();
    assert_eq!(
        listed,
        vec![
            ("b".to_string(), Some("B".to_string())),
            ("c".to_string(), None),
            ("e".to_string(), Some("E".to_string())),
        ]
    );
}

#[test]
fn every_channel_is_silenced() {
    let expected: Vec<Vec<u8>> = (0..16).map(|channel| vec![0xB0 + channel, 123, 0]).collect();
    assert_eq!(snmidi::connection::panic(), expected);
    assert_eq!(exit_messages(true), expected);
    assert!(exit_messages(false).is_empty());
}

#[test]
fn only_the_command_leaves_notes_alone() {
    assert!(!Action::Close { stop_all_on_exit: false }.stop_all_on_exit());
    assert!(Action::Close { stop_all_on_exit: true }.stop_all_on_exit());
    assert!(Action::Fail(SessionError::PortNotFound).stop_all_on_exit());
    assert!(Action::Skip.stop_all_on_exit());
}

#[test]
fn a_failure_ends_the_session_and_its_notes() {
    let action = Client::new().failed();
    assert!(matches!(action, Action::Abort));
    assert!(action.stop_all_on_exit());

    let mut client = established();
    assert!(matches!(client.step(Event::Tick(0)), Action::Play(_)));
    let action = client.step(Event::Failed);
    assert!(matches!(action, Action::Abort));
    assert!(action.stop_all_on_exit());
}
