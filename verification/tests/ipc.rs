use std::path::PathBuf;

use nca::ipc::{
    broadcast_line, frame_line, server_reads, server_writes, windows_tcp_endpoint, AcceptAction,
    IpcClient, IpcError, IpcServer, OneLine, ReadAction, ReadEvent, SendStep, StartStep, Transport,
    WriteAction, WriteEvent,
};
use nca::path::Platform;

fn line(text: &str) -> OneLine {
    OneLine::new(text.to_string()).unwrap()
}

fn unix_server(session_id: &str, runtime_dir: Option<&str>, temp_dir: &str) -> IpcServer {
    IpcServer::new(
        Platform::current(),
        session_id,
        runtime_dir.map(PathBuf::from),
        PathBuf::from(temp_dir),
    )
}

#[test]
fn windows_endpoint_is_stable_loopback_tcp() {
    let first = windows_tcp_endpoint("session-123");
    let second = windows_tcp_endpoint("session-123");
    assert_eq!(first, second);
    assert!(first.to_string_lossy().starts_with("127.0.0.1:"));
}

#[test]
fn endpoints_are_picked_by_the_hash_of_the_name() {
    assert_eq!(windows_tcp_endpoint("session-123"), PathBuf::from("127.0.0.1:50010"));
    assert_eq!(windows_tcp_endpoint(""), PathBuf::from("127.0.0.1:36261"));
    assert_eq!(windows_tcp_endpoint("a"), PathBuf::from("127.0.0.1:22220"));
    assert_eq!(windows_tcp_endpoint("\u{e9}"), PathBuf::from("127.0.0.1:45217"));
    assert_eq!(IpcServer::on_loopback("a").socket_path(), PathBuf::from("127.0.0.1:22220"));
}

#[test]
fn sockets_are_in_the_runtime_directory() {
    assert_eq!(
        unix_server("s1", Some("/run/user/1000"), "/tmp").socket_path(),
        PathBuf::from("/run/user/1000/nca/s1.sock")
    );
    assert_eq!(
        unix_server("s1", None, "/tmp/").socket_path(),
        PathBuf::from("/tmp/nca/s1.sock")
    );
    assert_eq!(
        unix_server("s1", Some(""), "/tmp").socket_path(),
        PathBuf::from("nca/s1.sock")
    );
    assert_eq!(unix_server("/s1", None, "/tmp").socket_path(), PathBuf::from("/s1.sock"));
}

#[test]
fn a_start_removes_the_old_socket() {
    let server = unix_server("s", None, "/tmp");
    let step = server.first_step(Platform::current(), Transport::UnixSocket);
    assert!(matches!(&step, StartStep::CreateDir(dir) if *dir == PathBuf::from("/tmp/nca")));
    let step = server.start(step, Ok(()));
    assert!(matches!(step, StartStep::FindSocket));
    let step = server.start(step, Ok(()));
    assert!(matches!(step, StartStep::RemoveSocket));
    let step = server.start(step, Err("busy".to_string()));
    assert!(matches!(step, StartStep::Bind));
    let step = server.start(step, Ok(()));
    assert!(matches!(step, StartStep::Listening));
    assert!(matches!(server.start(step, Ok(())), StartStep::Listening));
}

#[test]
fn a_start_without_an_old_socket_binds_at_once() {
    let server = unix_server("s", None, "/tmp");
    let step = server.start(StartStep::FindSocket, Err("none".to_string()));
    assert!(matches!(step, StartStep::Bind));
    let loopback = IpcServer::on_loopback("s");
    assert!(matches!(loopback.first_step(Platform::current(), Transport::LoopbackTcp), StartStep::Bind));
}

#[test]
fn the_directory_is_that_of_the_socket() {
    let dir_of = |session_id: &str, temp_dir: &str| {
        let server = unix_server(session_id, None, temp_dir);
        match server.first_step(Platform::current(), Transport::UnixSocket) {
            StartStep::CreateDir(dir) => dir,
            other => panic!("{other:?}"),
        }
    };
    assert_eq!(dir_of("a/b", "/tmp"), PathBuf::from("/tmp/nca/a"));
    assert_eq!(dir_of("/s", "/tmp"), PathBuf::from("/"));
    assert_eq!(dir_of("s", ""), PathBuf::from("nca"));
}

#[test]
fn a_sent_command_is_read_once() {
    let step = IpcClient::send_command(SendStep::Serialize, Ok(line("{\"a\":\"x\"}")));
    match step {
        SendStep::Write(bytes) => {
            let text = String::from_utf8(bytes).unwrap();
            assert_eq!(text.lines().collect::<Vec<&str>>(), vec!["{\"a\":\"x\"}"]);
        }
        other => panic!("{other:?}"),
    }
}

#[test]
fn a_start_fails_without_its_directory() {
    let server = unix_server("s", None, "/tmp");
    match server.start(server.first_step(Platform::current(), Transport::UnixSocket), Err("denied".to_string())) {
        StartStep::Failed(err) => assert_eq!(err.message(), "Connection failed: denied"),
        other => panic!("{other:?}"),
    }
}

#[test]
fn a_failed_bind_only_disables_ipc() {
    let server = unix_server("s", None, "/tmp");
    match server.start(StartStep::Bind, Err("no sockets".to_string())) {
        StartStep::Disabled { warning } => assert_eq!(
            warning,
            "IPC disabled: socket bind failed: Connection failed: no sockets"
        ),
        other => panic!("{other:?}"),
    }
}

#[test]
fn clients_are_served_until_none_comes() {
    assert_eq!(IpcServer::accept(true), AcceptAction::Serve);
    assert_eq!(IpcServer::accept(false), AcceptAction::CleanUp);
}

#[test]
fn only_one_line_goes_over_the_wire() {
    assert_eq!(line("a \u{2028}\rb").as_str(), "a \u{2028}\rb");
    assert_eq!(OneLine::empty().as_str(), "");
    assert_eq!(line("x").clone().as_str(), "x");
    assert!(OneLine::new("a\nb".to_string()).is_none());
    assert!(OneLine::new("\n".to_string()).is_none());
    assert!(OneLine::new("a\r".to_string()).is_none());
}

#[test]
fn compact_json_is_one_line() {
    let value: serde_json::Value =
        serde_json::from_str("{\"text\": \"one\\ntwo\\r\",\n \"list\": [1, null]}").unwrap();
    let text = serde_json::to_string(&value).unwrap();
    assert!(OneLine::new(text).is_some());
}

#[test]
fn lines_end_with_a_newline() {
    assert_eq!(frame_line(&line("{\"k\":\"\u{e9}\"}")), "{\"k\":\"\u{e9}\"}\n".as_bytes().to_vec());
    assert_eq!(frame_line(&OneLine::empty()), vec![b'\n']);
}

#[test]
fn lines_are_read_as_they_were_written() {
    let lines = ["one", "", "tw\u{f6}"];
    let mut wire: Vec<u8> = Vec::new();
    for text in lines {
        wire.extend(frame_line(&line(text)));
    }
    let text = String::from_utf8(wire).unwrap();
    let read: Vec<&str> = text.lines().collect();
    assert_eq!(read, lines);
}

#[test]
fn an_event_without_text_is_an_error() {
    assert_eq!(broadcast_line(Ok(line("{}"))).unwrap().as_str(), "{}");
    let err = broadcast_line(Err("bad key".to_string())).unwrap_err();
    assert!(matches!(&err, IpcError::ConnectionFailed(why) if why == "bad key"));
    assert_eq!(err.message(), "Connection failed: bad key");
}

#[test]
fn the_server_reads_until_the_lines_end() {
    assert_eq!(server_reads(ReadEvent::Line { parsed: true }), ReadAction::HandOn);
    assert_eq!(server_reads(ReadEvent::Line { parsed: false }), ReadAction::ReadLine);
    assert_eq!(server_reads(ReadEvent::HandedOn { taken: true }), ReadAction::ReadLine);
    assert_eq!(server_reads(ReadEvent::HandedOn { taken: false }), ReadAction::ReadLine);
    assert_eq!(server_reads(ReadEvent::Closed), ReadAction::Stop);
}

#[test]
fn the_client_stops_when_nobody_listens() {
    assert_eq!(IpcClient::connect(ReadEvent::Line { parsed: true }), ReadAction::HandOn);
    assert_eq!(IpcClient::connect(ReadEvent::Line { parsed: false }), ReadAction::ReadLine);
    assert_eq!(IpcClient::connect(ReadEvent::HandedOn { taken: true }), ReadAction::ReadLine);
    assert_eq!(IpcClient::connect(ReadEvent::HandedOn { taken: false }), ReadAction::Stop);
    assert_eq!(IpcClient::connect(ReadEvent::Closed), ReadAction::Stop);
}

#[test]
fn the_server_writes_until_that_fails() {
    match server_writes(WriteEvent::Line(line("x"))) {
        WriteAction::Write(bytes) => assert_eq!(bytes, b"x\n"),
        other => panic!("{other:?}"),
    }
    assert!(matches!(server_writes(WriteEvent::Written { worked: true }), WriteAction::Await));
    assert!(matches!(server_writes(WriteEvent::Written { worked: false }), WriteAction::Stop));
    assert!(matches!(server_writes(WriteEvent::Closed), WriteAction::Stop));
}

#[test]
fn a_command_is_sent_where_every_step_works() {
    let step = IpcClient::send_command(SendStep::Connect, Ok(OneLine::empty()));
    assert!(matches!(step, SendStep::Serialize));
    let step = IpcClient::send_command(step, Ok(line("{}")));
    assert!(matches!(&step, SendStep::Write(bytes) if bytes == b"{}\n"));
    let step = IpcClient::send_command(step, Ok(OneLine::empty()));
    assert!(matches!(step, SendStep::Done(Ok(()))));
    assert!(matches!(
        IpcClient::send_command(step, Err("late".to_string())),
        SendStep::Done(Ok(()))
    ));
}

#[test]
fn a_command_is_not_sent_where_a_step_fails() {
    for step in [SendStep::Connect, SendStep::Serialize, SendStep::Write(vec![1])] {
        match IpcClient::send_command(step, Err("gone".to_string())) {
            SendStep::Done(Err(err)) => assert_eq!(err.message(), "Connection failed: gone"),
            other => panic!("{other:?}"),
        }
    }
}

#[test]
fn a_client_keeps_its_endpoint() {
    let path = PathBuf::from("/tmp/nca/s.sock");
    assert_eq!(IpcClient::new(path.clone()).socket_path(), path);
}
