use bytes::Bytes;
use my_redis::connection::Connection;
use my_redis::connection::Input;
use my_redis::connection::Step;
use my_redis::frame::Frame;
use my_redis::server::Action;
use my_redis::server::Server;
use my_redis::Error;

fn request(words: &[&str]) -> Frame {
    Frame::Array(words.iter().map(|word| Frame::Bulk(Bytes::copy_from_slice(word.as_bytes()))).collect())
}

fn deliver(connection: &mut Connection, chunks: &[&[u8]]) -> Step {
    let mut step = connection.read_frame(Input::Start);
    for chunk in chunks {
        match step {
            Step::Read => step = connection.read_frame(Input::Read(chunk)),
            _ => break,
        }
    }
    step
}

fn frame_of(step: Step) -> Frame {
    match step {
        Step::Frame(frame) => frame,
        other => panic!("{:?}", other),
    }
}

fn reply_of(action: Action) -> Vec<u8> {
    match action {
        Action::Reply(bytes) => bytes,
        other => panic!("{:?}", other),
    }
}

fn run(server: &mut Server, words: &[&str]) -> Frame {
    server.execute(request(words)).unwrap()
}

#[test]
fn a_new_connection_asks_for_a_read() {
    let mut connection = Connection::new();
    assert!(matches!(connection.read_frame(Input::Start), Step::Read));
    assert!(matches!(connection.parse_frame(), Step::Read));
}

#[test]
fn a_frame_read_at_once_is_delivered() {
    let mut connection = Connection::new();
    let step = connection.read_frame(Input::Read(b"*2\r\n$3\r\nGET\r\n$1\r\nk\r\n"));
    assert_eq!(request(&["GET", "k"]), frame_of(step));
    assert!(matches!(connection.read_frame(Input::Start), Step::Read));
}

#[test]
fn a_frame_read_in_chunks_is_the_frame_read_at_once() {
    let frame = Frame::Array(vec![
        Frame::Bulk(Bytes::from_static(b"SET")),
        Frame::Simple("k\u{e9}y".to_string()),
        Frame::Bulk(Bytes::from_static(b"\r\n$5\r\n")),
        Frame::Integer(12345),
        Frame::Null,
        Frame::Array(vec![Frame::SimpleError("e".to_string())]),
    ]);
    let bytes = frame.encode();
    let mut whole = Connection::new();
    assert_eq!(frame, frame_of(deliver(&mut whole, &[&bytes])));
    for first in 1..bytes.len() {
        let mut connection = Connection::new();
        let step = deliver(&mut connection, &[&bytes[..first], &bytes[first..]]);
        assert_eq!(frame, frame_of(step), "{}", first);
        assert!(matches!(connection.read_frame(Input::Read(b"")), Step::Closed));
    }
    for first in 1..bytes.len() - 1 {
        let second = first + (bytes.len() - first) / 2;
        if second == first {
            continue;
        }
        let mut connection = Connection::new();
        let step =
            deliver(&mut connection, &[&bytes[..first], &bytes[first..second], &bytes[second..]]);
        assert_eq!(frame, frame_of(step), "{}", first);
    }
}

#[test]
fn a_frame_read_byte_by_byte_is_delivered_with_the_last_byte() {
    let frame = request(&["MGET", "a", "b"]);
    let bytes = frame.encode();
    let mut connection = Connection::new();
    assert!(matches!(connection.read_frame(Input::Start), Step::Read));
    for k in 0..bytes.len() - 1 {
        assert!(matches!(connection.read_frame(Input::Read(&bytes[k..k + 1])), Step::Read));
    }
    let step = connection.read_frame(Input::Read(&bytes[bytes.len() - 1..]));
    assert_eq!(frame, frame_of(step));
}

#[test]
fn frames_read_together_are_delivered_one_by_one() {
    let mut connection = Connection::new();
    let step = connection.read_frame(Input::Read(b"+one\r\n:2\r\n$5\r\nth"));
    assert_eq!(Frame::Simple("one".to_string()), frame_of(step));
    let step = connection.read_frame(Input::Start);
    assert_eq!(Frame::Integer(2), frame_of(step));
    assert!(matches!(connection.read_frame(Input::Start), Step::Read));
    let step = connection.read_frame(Input::Read(b"ree\r\n"));
    assert_eq!(Frame::Bulk(Bytes::from("three")), frame_of(step));
    assert!(matches!(connection.read_frame(Input::Read(b"")), Step::Closed));
}

#[test]
fn the_end_of_the_stream_between_frames_is_clean() {
    let mut connection = Connection::new();
    assert!(matches!(connection.read_frame(Input::Read(b"")), Step::Closed));
    frame_of(connection.read_frame(Input::Read(b"+OK\r\n")));
    assert!(matches!(connection.read_frame(Input::Read(b"")), Step::Closed));
}

#[test]
fn the_end_of_the_stream_within_a_frame_is_a_reset() {
    let mut connection = Connection::new();
    assert!(matches!(connection.read_frame(Input::Read(b"$5\r\nhel")), Step::Read));
    assert!(matches!(
        connection.read_frame(Input::Read(b"")),
        Step::Failed(Error::ConnectionReset)
    ));
}

#[test]
fn bytes_that_start_no_frame_are_a_protocol_error() {
    let mut connection = Connection::new();
    match connection.read_frame(Input::Read(b"hello\r\n")) {
        Step::Failed(Error::Protocol(message)) => {
            assert_eq!("unknown frame leading byte 104", message)
        }
        other => panic!("{:?}", other),
    }
    match connection.parse_frame() {
        Step::Failed(Error::Protocol(message)) => {
            assert_eq!("unknown frame leading byte 104", message)
        }
        other => panic!("{:?}", other),
    }
}

#[test]
fn write_frame_gives_the_encoding() {
    let connection = Connection::new();
    assert_eq!(b"$-1\r\n".to_vec(), connection.write_frame(Frame::Null));
    assert_eq!(
        b"*2\r\n$3\r\nGET\r\n$1\r\nk\r\n".to_vec(),
        connection.write_frame(request(&["GET", "k"]))
    );
}

#[test]
fn a_server_starts_with_an_empty_store() {
    let mut server = Server::default();
    assert_eq!(None, server.db.get("k"));
    assert_eq!(Frame::Null, run(&mut server, &["GET", "k"]));
}

#[test]
fn get_set_and_mget_run_through_the_server() {
    let mut server = Server::default();
    assert_eq!(Frame::Null, run(&mut server, &["GET", "k1"]));
    assert_eq!(Frame::Simple("OK".to_string()), run(&mut server, &["SET", "k1", "v1"]));
    assert_eq!(Frame::Bulk(Bytes::from("v1")), run(&mut server, &["GET", "k1"]));
    assert_eq!(Frame::Simple("OK".to_string()), run(&mut server, &["SET", "k3", "v3"]));
    assert_eq!(
        Frame::Array(vec![
            Frame::Bulk(Bytes::from("v1")),
            Frame::Null,
            Frame::Bulk(Bytes::from("v3")),
        ]),
        run(&mut server, &["MGET", "k1", "k2", "k3"])
    );
    assert_eq!(Frame::Array(vec![]), run(&mut server, &["MGET"]));
}

#[test]
fn nx_and_xx_run_through_the_server() {
    let mut server = Server::default();
    assert_eq!(Frame::Simple("OK".to_string()), run(&mut server, &["SET", "k", "v1", "XX"]));
    assert_eq!(None, server.db.get("k"));
    assert_eq!(Frame::Simple("OK".to_string()), run(&mut server, &["SET", "k", "v1", "NX"]));
    assert_eq!(Frame::Simple("OK".to_string()), run(&mut server, &["SET", "k", "v2", "NX"]));
    assert_eq!(Some(Bytes::from("v1")), server.db.get("k"));
    assert_eq!(Frame::Bulk(Bytes::from("v1")), run(&mut server, &["SET", "k", "v2", "XX", "GET"]));
    assert_eq!(Some(Bytes::from("v2")), server.db.get("k"));
}

#[test]
fn an_unknown_command_gets_an_error_line_and_changes_nothing() {
    let mut server = Server::default();
    run(&mut server, &["SET", "bar", "v"]);
    let reply = run(&mut server, &["FOO", "bar"]);
    assert_eq!(Frame::SimpleError("Command \"FOO\" not implemented".to_string()), reply);
    assert_eq!(b"-Command \"FOO\" not implemented\r\n".to_vec(), reply.encode());
    assert_eq!(Some(Bytes::from("v")), server.db.get("bar"));
}

#[test]
fn a_frame_that_is_no_array_is_a_protocol_error() {
    let mut server = Server::default();
    run(&mut server, &["SET", "k", "v"]);
    for frame in [
        Frame::Integer(7),
        Frame::Simple("GET".to_string()),
        Frame::Bulk(Bytes::from("GET")),
        Frame::Null,
        Frame::SimpleError("e".to_string()),
    ] {
        match server.execute(frame) {
            Err(Error::Protocol(message)) => assert_eq!("protocol error; expected array", message),
            other => panic!("{:?}", other),
        }
    }
    assert_eq!(Some(Bytes::from("v")), server.db.get("k"));
}

#[test]
fn an_array_that_holds_no_request_is_a_protocol_error() {
    let mut server = Server::default();
    assert!(matches!(
        server.execute(Frame::Array(vec![])),
        Err(Error::Protocol(message)) if message == "Lack of command name"
    ));
    assert!(matches!(
        server.execute(request(&["GET"])),
        Err(Error::Protocol(message)) if message == "protocol error; unexpected end of request"
    ));
}

#[test]
fn execute_at_does_what_execute_does() {
    let mut server = Server::default();
    let now = my_redis::clock::TimeSpan::from_secs(5);
    assert_eq!(
        Frame::Simple("OK".to_string()),
        server.execute_at(request(&["SET", "k", "v"]), now).unwrap()
    );
    assert_eq!(Frame::Bulk(Bytes::from("v")), server.execute_at(request(&["GET", "k"]), now).unwrap());
}

#[test]
fn a_connection_is_served_request_by_request() {
    let mut server = Server::default();
    let mut connection = Connection::new();
    assert!(matches!(server.process(&mut connection, Input::Start), Action::Read));
    let action = server.process(
        &mut connection,
        Input::Read(b"*3\r\n$3\r\nSET\r\n$1\r\nk\r\n$1\r\nv\r\n*2\r\n$3\r\nGET\r\n$1\r\nk\r\n*2\r\n$3\r\nGET"),
    );
    assert_eq!(b"+OK\r\n".to_vec(), reply_of(action));
    let action = server.process(&mut connection, Input::Start);
    assert_eq!(b"$1\r\nv\r\n".to_vec(), reply_of(action));
    assert!(matches!(server.process(&mut connection, Input::Start), Action::Read));
    let action = server.process(&mut connection, Input::Read(b"\r\n$1\r\nx\r\n"));
    assert_eq!(b"$-1\r\n".to_vec(), reply_of(action));
    assert!(matches!(server.process(&mut connection, Input::Start), Action::Read));
    assert!(matches!(server.process(&mut connection, Input::Read(b"")), Action::Close));
}

#[test]
fn a_bare_integer_ends_the_connection_without_a_reply() {
    let mut server = Server::default();
    let mut connection = Connection::new();
    match server.process(&mut connection, Input::Read(b":7\r\n")) {
        Action::Abort(Error::Protocol(message)) => {
            assert_eq!("protocol error; expected array", message)
        }
        other => panic!("{:?}", other),
    }
}

#[test]
fn a_malformed_frame_ends_the_connection() {
    let mut server = Server::default();
    let mut connection = Connection::new();
    assert!(matches!(
        server.process(&mut connection, Input::Read(b"*1\r\n$x\r\n")),
        Action::Abort(Error::Protocol(_))
    ));
}

#[test]
fn a_stream_cut_within_a_request_ends_the_connection() {
    let mut server = Server::default();
    let mut connection = Connection::new();
    assert!(matches!(server.process(&mut connection, Input::Read(b"*2\r\n$3\r\nGET")), Action::Read));
    assert!(matches!(
        server.process(&mut connection, Input::Read(b"")),
        Action::Abort(Error::ConnectionReset)
    ));
}

#[test]
fn an_unknown_command_is_answered_and_the_connection_goes_on() {
    let mut server = Server::default();
    let mut connection = Connection::new();
    let action = server.process(&mut connection, Input::Read(b"*2\r\n$3\r\nFOO\r\n$3\r\nbar\r\n"));
    assert_eq!(b"-Command \"FOO\" not implemented\r\n".to_vec(), reply_of(action));
    assert!(matches!(server.process(&mut connection, Input::Start), Action::Read));
    assert_eq!(None, server.db.get("bar"));
}
