use std::io;
use std::rc::Rc;
use std::time::Duration;

use evented_tcp::{
    make_listener_handle, Error, Interest, OsError, OsErrorKind, Reactor, RegistrationFault,
    TcpListener, TcpStream, Token,
};
use mio::net;
use mio::{Events, Poll, PollOpt, Ready};

fn os_error(e: io::Error) -> OsError {
    let kind = match e.kind() {
        io::ErrorKind::WouldBlock => OsErrorKind::WouldBlock,
        io::ErrorKind::AddrInUse => OsErrorKind::AddrInUse,
        io::ErrorKind::AddrNotAvailable => OsErrorKind::AddrNotAvailable,
        io::ErrorKind::PermissionDenied => OsErrorKind::PermissionDenied,
        io::ErrorKind::ConnectionRefused => OsErrorKind::ConnectionRefused,
        io::ErrorKind::AlreadyExists => OsErrorKind::AlreadyExists,
        _ => OsErrorKind::Other,
    };
    OsError { kind, code: e.raw_os_error().unwrap_or(0) }
}

fn ready(interest: Interest) -> Ready {
    match interest {
        Interest::Readable => Ready::readable(),
        Interest::Writable => Ready::writable(),
        Interest::Both => Ready::readable() | Ready::writable(),
    }
}

fn wait_for(poll: &Poll, token: Token) -> bool {
    let mut events = Events::with_capacity(16);
    for _ in 0..50 {
        poll.poll(&mut events, Some(Duration::from_millis(100))).unwrap();
        if events.iter().any(|event| event.token() == mio::Token(token.0)) {
            return true;
        }
    }
    false
}

#[test]
fn loopback_bind_connect_accept() {
    let poll = Poll::new().unwrap();
    let mut reactor = Reactor::new(16);
    let open = |address: &_| net::TcpListener::bind(address).map_err(os_error);
    let dial = |address: &_| net::TcpStream::connect(address).map_err(os_error);
    let listen_on = |socket: &net::TcpListener, token: Token, interest: Interest| {
        poll.register(socket, mio::Token(token.0), ready(interest), PollOpt::level())
            .map_err(os_error)
    };
    let watch = |socket: &net::TcpStream, token: Token, interest: Interest| {
        poll.register(socket, mio::Token(token.0), ready(interest), PollOpt::edge())
            .map_err(os_error)
    };
    let accept_raw = |socket: &net::TcpListener| socket.accept().map_err(os_error);

    let any_port = vec!["127.0.0.1:0".parse().unwrap()];
    let listener = TcpListener::bind(&mut reactor, Ok(any_port), &open, &listen_on).unwrap();
    assert_eq!(listener.as_evented().interest(), Interest::Readable);
    assert_eq!(reactor.interest_of(listener.as_evented().token()), Some(Interest::Readable));

    let nobody_yet = listener.accept(&mut reactor, &accept_raw, &watch);
    assert_eq!(nobody_yet.err(), Some(Error::WouldBlock));

    let address = listener.as_evented().get_inner().local_addr().unwrap();
    let client = match TcpStream::connect(&mut reactor, Ok(vec![address]), &dial, &watch) {
        Ok(client) => client,
        // A host whose loopback interface is down cannot reach itself: there
        // is no connection to accept then, and nothing was registered.
        Err(e) => {
            assert!(matches!(e, Error::Connection(_)));
            assert_eq!(reactor.registered_count(), 1);
            return;
        }
    };
    assert_eq!(client.as_evented().interest(), Interest::Both);

    assert!(wait_for(&poll, listener.as_evented().token()));
    let (server, peer) = listener.accept(&mut reactor, &accept_raw, &watch).unwrap();
    assert_eq!(server.as_evented().interest(), Interest::Both);
    assert_eq!(reactor.interest_of(server.as_evented().token()), Some(Interest::Both));
    assert_eq!(peer, client.as_evented().get_inner().local_addr().unwrap());
    assert_eq!(reactor.registered_count(), 3);
}

#[test]
fn loopback_bind_skips_an_address_in_use() {
    let poll = Poll::new().unwrap();
    let mut reactor = Reactor::new(16);
    let open = |address: &_| net::TcpListener::bind(address).map_err(os_error);
    let attach = |socket: &net::TcpListener, token: Token, interest: Interest| {
        poll.register(socket, mio::Token(token.0), ready(interest), PollOpt::edge())
            .map_err(os_error)
    };
    let any_port = vec!["127.0.0.1:0".parse().unwrap()];
    let first = TcpListener::bind(&mut reactor, Ok(any_port), &open, &attach).unwrap();
    let taken = first.as_evented().get_inner().local_addr().unwrap();

    let candidates = vec![taken, "127.0.0.1:0".parse().unwrap()];
    let second = TcpListener::bind(&mut reactor, Ok(candidates), &open, &attach).unwrap();
    let bound = second.as_evented().get_inner().local_addr().unwrap();
    assert_ne!(bound, taken);
    assert_ne!(second.as_evented().token(), first.as_evented().token());
    assert_eq!(reactor.registered_count(), 2);
}

#[test]
fn loopback_bind_with_both_addresses_in_use_returns_the_second_error() {
    let poll = Poll::new().unwrap();
    let mut reactor = Reactor::new(16);
    let open = |address: &_| net::TcpListener::bind(address).map_err(os_error);
    let attach = |socket: &net::TcpListener, token: Token, interest: Interest| {
        poll.register(socket, mio::Token(token.0), ready(interest), PollOpt::edge())
            .map_err(os_error)
    };
    let one = TcpListener::bind(&mut reactor, Ok(vec!["127.0.0.1:0".parse().unwrap()]), &open, &attach)
        .unwrap();
    let two = TcpListener::bind(&mut reactor, Ok(vec!["127.0.0.1:0".parse().unwrap()]), &open, &attach)
        .unwrap();
    let first = one.as_evented().get_inner().local_addr().unwrap();
    let second = two.as_evented().get_inner().local_addr().unwrap();

    // The error says which port was asked for, to tell the two failures apart.
    let open_telling_port = |candidate: &(u16, _)| {
        net::TcpListener::bind(&candidate.1)
            .map_err(|e| OsError { kind: os_error(e).kind, code: i32::from(candidate.0) })
    };
    let first = (first.port(), first);
    let second = (second.port(), second);
    let made = TcpListener::bind(&mut reactor, Ok(vec![first, second]), &open_telling_port, &attach);
    assert_eq!(
        made.err(),
        Some(Error::Connection(OsError {
            kind: OsErrorKind::AddrInUse,
            code: i32::from(second.0)
        }))
    );
    let made = TcpListener::bind(&mut reactor, Ok(vec![second, first]), &open_telling_port, &attach);
    assert_eq!(
        made.err(),
        Some(Error::Connection(OsError {
            kind: OsErrorKind::AddrInUse,
            code: i32::from(first.0)
        }))
    );
    assert_eq!(reactor.registered_count(), 2);
}

#[test]
fn loopback_a_socket_that_is_already_registered_is_refused() {
    let poll = Poll::new().unwrap();
    let mut reactor = Reactor::new(16);
    let attach = |socket: &Rc<net::TcpListener>, token: Token, interest: Interest| {
        poll.register(&**socket, mio::Token(token.0), ready(interest), PollOpt::edge())
            .map_err(os_error)
    };
    let socket = Rc::new(net::TcpListener::bind(&"127.0.0.1:0".parse().unwrap()).unwrap());
    let first = make_listener_handle(&mut reactor, socket.clone(), &attach).unwrap();
    let again = make_listener_handle(&mut reactor, socket.clone(), &attach);
    match again.err() {
        Some(Error::Registration(RegistrationFault::Refused(os))) => {
            assert_eq!(os.kind, OsErrorKind::AlreadyExists)
        }
        other => panic!("expected a refused registration, got {:?}", other),
    }
    assert_eq!(reactor.registered_count(), 1);
    assert!(reactor.is_registered(first.as_evented().token()));
    assert_eq!(reactor.vacant(), Some(Token(1)));
}

#[test]
fn loopback_closing_a_clone_leaves_the_first_usable() {
    let poll = Poll::new().unwrap();
    let mut reactor = Reactor::new(16);
    let open = |address: &_| net::TcpListener::bind(address).map_err(os_error);
    let listen_on = |socket: &net::TcpListener, token: Token, interest: Interest| {
        poll.register(socket, mio::Token(token.0), ready(interest), PollOpt::level())
            .map_err(os_error)
    };
    let watch = |socket: &net::TcpStream, token: Token, interest: Interest| {
        poll.register(socket, mio::Token(token.0), ready(interest), PollOpt::edge())
            .map_err(os_error)
    };
    let stop = |socket: &net::TcpListener, _: Token| poll.deregister(socket).map_err(os_error);
    let duplicate = |socket: &net::TcpListener| socket.try_clone().map_err(os_error);
    let accept_raw = |socket: &net::TcpListener| socket.accept().map_err(os_error);

    let any_port = vec!["127.0.0.1:0".parse().unwrap()];
    let listener = TcpListener::bind(&mut reactor, Ok(any_port), &open, &listen_on).unwrap();
    let address = listener.as_evented().get_inner().local_addr().unwrap();
    let copy = listener.try_clone(&mut reactor, &duplicate, &listen_on).unwrap();
    assert_ne!(copy.as_evented().token(), listener.as_evented().token());
    assert_eq!(copy.as_evented().interest(), Interest::Readable);
    assert_eq!(copy.as_evented().get_inner().local_addr().unwrap(), address);
    assert_eq!(reactor.registered_count(), 2);

    assert_eq!(copy.close(&mut reactor, &stop), Ok(()));
    assert!(reactor.is_registered(listener.as_evented().token()));
    assert_eq!(listener.as_evented().get_inner().local_addr().unwrap(), address);
    let nobody_yet = listener.accept(&mut reactor, &accept_raw, &watch);
    assert_eq!(nobody_yet.err(), Some(Error::WouldBlock));
    assert_eq!(listener.close(&mut reactor, &stop), Ok(()));
    assert_eq!(reactor.registered_count(), 0);
}
