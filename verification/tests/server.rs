use mini_http::socket::{Socket, SocketStatus};
use mini_http::sockets::Sockets;
use mini_http::{ErrorKind, HttpStreamReader, Server};

#[test]
fn settings_by_default() {
    let server = Server::with_cpus("127.0.0.1:3000", 3).unwrap();
    assert_eq!(server.addr(), "127.0.0.1:3000");
    assert!(!server.is_nodelay());
    assert_eq!(server.handlers(), 24);
    assert_eq!(server.keepalive_secs(), 5);
}

#[test]
fn the_pool_follows_the_machine() {
    let server = Server::new("[0:0::1]:80").unwrap();
    assert_eq!(server.addr(), "[::1]:80");
    assert_eq!(server.handlers(), num_cpus::get() * 8);
    assert_eq!(server.keepalive_secs(), 5);
}

#[test]
fn settings_are_made_one_by_one() {
    let mut server = Server::with_cpus("127.0.0.1:80", 1).unwrap();
    server.tcp_nodelay(true);
    assert!(server.is_nodelay());
    assert_eq!(server.handlers(), 8);
    server.pool_size(2).set_keepalive_secs(60);
    assert!(server.is_nodelay());
    assert_eq!(server.handlers(), 2);
    assert_eq!(server.keepalive_secs(), 60);
    assert_eq!(server.addr(), "127.0.0.1:80");
}

#[test]
fn an_address_is_no_name() {
    for text in ["localhost:3000", "127.0.0.1", "127.0.0.1:", "127.0.0.1:65536", ":80", ""] {
        match Server::new(text).err() {
            Some(ErrorKind::AddrParse(refused)) => assert_eq!(refused, text),
            other => panic!("{:?}", other),
        }
    }
    let error = Server::with_cpus("localhost:3000", 1).err().unwrap();
    let cause = "localhost:3000".parse::<core::net::SocketAddr>().unwrap_err();
    assert_eq!(error.display(), cause.to_string());
    assert_eq!(error.description(), "invalid socket address syntax");
}

#[test]
fn an_address_that_was_read_is_taken() {
    let server = Server::with_addr("text", Some("addr".to_string()), 2).unwrap();
    assert_eq!(server.addr(), "addr");
    assert_eq!(server.handlers(), 16);
    let error = Server::with_addr("text", None, 2).err().unwrap();
    assert!(matches!(error, ErrorKind::AddrParse(text) if text == "text"));
}

#[test]
fn tokens_tell_sockets_apart() {
    let mut sockets = Sockets::new();
    let listener = sockets.next_token();
    assert!(!sockets.contains(listener));
    assert_eq!(sockets.add(Socket::new_listener()), listener);
    let stream = sockets.next_token();
    assert_ne!(stream, listener);
    let socket = Socket::new_stream(HttpStreamReader::new(), SocketStatus::New);
    assert_eq!(sockets.add(socket), stream);
    assert!(sockets.contains(listener));
    assert!(sockets.contains(stream));
    assert!(matches!(sockets.take(listener), Socket::Listener));
    assert!(!sockets.contains(listener));
    assert!(sockets.contains(stream));
    assert_eq!(sockets.next_token(), listener);
    assert!(matches!(sockets.take(stream), Socket::Stream(_)));
    assert!(!sockets.contains(stream));
}
