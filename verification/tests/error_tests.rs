use slipstream::error::{map_io, ClientError, ErrorKind};

#[test]
fn io_errors_map_to_transport() {
    let io = std::io::Error::new(std::io::ErrorKind::ConnectionRefused, "connection refused");
    let e = map_io(io);
    assert_eq!(e.kind, ErrorKind::Transport);
    assert!(e.message.contains("connection refused"));
}

#[test]
fn new_keeps_kind_and_message() {
    let e = ClientError::new(ErrorKind::Forwarding, "stream relay broke");
    assert_eq!(e.kind, ErrorKind::Forwarding);
    assert_eq!(e.message, "stream relay broke");
}
