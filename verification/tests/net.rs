//! Sockets, their queues and their books.

use rskynet::net::buffer::{Chunk, ReadSizer, WriteQueue};
use rskynet::net::command::{Answer, Command};
use rskynet::net::config::NetConfig;
use rskynet::net::event::{SocketEvent, SocketId};
use rskynet::net::output::NetOutput;
use rskynet::net::request::{Purpose, Task};
use rskynet::net::service::{
    udp_address, wildcard_for_peer, Farewell, FlushStep, NetCore, Next, ReadResult, UdpResult,
    WriteResult,
};
use rskynet::net::socket::{Interest, Kind, Pending, Registration, Sockets, State};
use rskynet::text::service_name;

fn chunk(len: usize) -> Chunk {
    Chunk::tcp(vec![0u8; len])
}

#[test]
fn high_priority_drains_first() {
    let mut queue = WriteQueue::default();
    queue.push(Chunk::tcp(b"low".to_vec()), false, usize::MAX);
    queue.push(Chunk::tcp(b"high".to_vec()), true, usize::MAX);
    assert_eq!(queue.size(), 7);

    assert_eq!(queue.next().unwrap().rest(), b"high");
    queue.consume(4);
    assert_eq!(queue.next().unwrap().rest(), b"low");
    queue.consume(3);
    assert!(queue.is_empty());
    assert_eq!(queue.size(), 0);
}

#[test]
fn a_partial_write_resumes_where_it_stopped() {
    let mut queue = WriteQueue::default();
    queue.push(Chunk::tcp(b"hello".to_vec()), true, usize::MAX);
    assert_eq!(queue.next().unwrap().rest(), b"hello");
    queue.consume(2);
    assert_eq!(queue.next().unwrap().rest(), b"llo");
    assert_eq!(queue.size(), 3);
    queue.consume(3);
    assert!(queue.is_empty());
}

#[test]
fn warnings_double_the_threshold() {
    let mut queue = WriteQueue::default();
    assert_eq!(queue.push(chunk(600), true, 1024), None);
    assert_eq!(queue.push(chunk(600), true, 1024), Some(1));
    assert_eq!(queue.push(chunk(600), true, 1024), None);
    assert_eq!(queue.push(chunk(1000), true, 1024), Some(2));

    // Once everything is written the next pile is worth a word again.
    queue.consume(600);
    queue.consume(600);
    queue.consume(600);
    queue.consume(1000);
    assert!(queue.is_empty());
    assert_eq!(queue.push(chunk(2000), true, 1024), Some(1));
}

#[test]
fn read_buffer_follows_the_traffic() {
    let mut sizer = ReadSizer::new(64);
    sizer.observe(64);
    assert_eq!(sizer.size(), 128);
    sizer.observe(128);
    assert_eq!(sizer.size(), 256);

    // Less than half of it was read: half of it will do.
    sizer.observe(10);
    assert_eq!(sizer.size(), 128);
    // Just half of it was read: it stays.
    sizer.observe(64);
    assert_eq!(sizer.size(), 128);

    for _ in 0..10 {
        sizer.observe(0);
    }
    assert_eq!(sizer.size(), 64);
}

#[test]
fn defaults_match_the_c_constants() {
    let config = NetConfig::default();
    assert_eq!(config.max_socket, 65536);
    assert_eq!(config.min_read_buffer, 64);
    assert_eq!(config.warn_size, 1024 * 1024);
    assert!(config.validate().is_ok());
}

#[test]
fn zero_values_are_rejected() {
    for broken in [
        NetConfig {
            events: 0,
            ..Default::default()
        },
        NetConfig {
            max_socket: 0,
            ..Default::default()
        },
        NetConfig {
            min_read_buffer: 0,
            ..Default::default()
        },
    ] {
        assert!(broken.validate().is_err());
    }
}

#[test]
fn ids_hash_into_slots() {
    let mut sockets = Sockets::new(4, 64);
    let first = sockets
        .insert(1, Kind::Listener, State::PreListen)
        .expect("a free slot");
    assert_eq!(first, SocketId(1));
    assert_eq!(sockets.get(first).map(|s| s.token()), Some(1));

    let ids: Vec<SocketId> = (0..3)
        .map(|_| {
            sockets
                .insert(1, Kind::Listener, State::PreListen)
                .expect("a free slot")
        })
        .collect();
    assert_eq!(ids, vec![SocketId(2), SocketId(3), SocketId(4)]);
    assert_eq!(sockets.get(SocketId(4)).unwrap().token(), 0);

    assert!(sockets.insert(1, Kind::Listener, State::PreListen).is_none());
}

#[test]
fn a_recycled_slot_rejects_the_old_id() {
    let mut sockets = Sockets::new(4, 64);
    for _ in 0..4 {
        sockets.insert(1, Kind::Listener, State::PreListen);
    }
    let stale = SocketId(1);
    sockets.remove(stale).expect("it was there");
    let fresh = sockets
        .insert(1, Kind::Listener, State::PreListen)
        .expect("a slot is free again");

    assert_eq!(stale.0 as usize % 4, fresh.0 as usize % 4);
    assert!(sockets.get(stale).is_none());
    assert!(sockets.get(fresh).is_some());
}

#[test]
fn a_free_slot_is_found_where_the_numbers_start_over() {
    let mut sockets = Sockets::new(4, 64);
    for id in 1..4 {
        assert_eq!(sockets.insert(1, Kind::Listener, State::PreListen), Some(SocketId(id)));
    }
    sockets.next = u32::MAX - 1;
    assert_eq!(sockets.insert(1, Kind::Listener, State::PreListen), Some(SocketId(4)));
    assert!(sockets.insert(1, Kind::Listener, State::PreListen).is_none());
}

#[test]
fn sockets_start_with_the_smallest_read_buffer() {
    let config = NetConfig::default();
    let core = NetCore::new(config);
    assert_eq!(core.sockets.floor, NetConfig::default().min_read_buffer);
    assert_eq!(core.sockets.next, 1);
}

#[test]
fn interest_follows_the_state() {
    let mut sockets = Sockets::new(4, 64);
    let id = sockets.insert(1, Kind::Listener, State::PreListen).unwrap();
    let mut socket = sockets.remove(id).unwrap();
    assert_eq!(socket.desired(), None);

    socket.state = State::Listen;
    assert_eq!(socket.desired(), Some(Interest::Readable));

    socket.state = State::Connected;
    assert_eq!(socket.desired(), Some(Interest::Readable));

    // A pause leaves the registration as it is.
    socket.paused = true;
    assert_eq!(socket.desired(), Some(Interest::Readable));
    socket.paused = false;

    socket.wb.push(Chunk::tcp(vec![1]), true, usize::MAX);
    assert_eq!(socket.desired(), Some(Interest::Both));

    socket.state = State::HalfCloseWrite;
    assert_eq!(socket.desired(), Some(Interest::Writable));
}

#[test]
fn infos_include_transitional_states_and_are_sorted() {
    let mut sockets = Sockets::new(4, 64);
    // Number 3 stands in slot 3, number 4 in slot 0.
    sockets.next = 3;
    let low = sockets
        .insert(3, Kind::Listener, State::PreListen)
        .expect("a free slot");
    let high = sockets
        .insert(2, Kind::Listener, State::Listen)
        .expect("a free slot");

    let infos = sockets.infos();
    assert_eq!(
        infos.iter().map(|info| info.id).collect::<Vec<_>>(),
        vec![low, high]
    );
    assert_eq!(infos[0].state, "prelisten");
    assert_eq!(infos[1].state, "listen");

    sockets.remove(high);
    assert_eq!(sockets.infos().len(), 1);
}

#[test]
fn a_socket_that_is_put_back_is_the_same() {
    let mut sockets = Sockets::new(4, 64);
    let id = sockets.insert(9, Kind::Stream, State::Connected).unwrap();
    let socket = sockets.remove(id).unwrap();
    assert!(sockets.get(id).is_none());
    sockets.restore(socket);
    assert_eq!(sockets.get(id).unwrap().owner, 9);
    assert_eq!(sockets.by_token(1).unwrap().id, id);
    assert_eq!(id.raw(), 1);
    assert_eq!(id.text(), "#1");
}

fn ask(session: u64) -> Pending {
    Pending { source: 5, session }
}

fn books() -> (NetCore, NetOutput) {
    let config = NetConfig {
        max_socket: 4,
        warn_size: 8,
        ..Default::default()
    };
    (NetCore::new(config), NetOutput::default())
}

#[test]
fn requests_with_addresses_wait_for_them() {
    let (mut books, mut out) = books();
    let listen = Command::Listen {
        addr: "127.0.0.1:1".into(),
    };
    assert_eq!(books.perform(ask(1), listen, 0, &mut out), Task::Address(Purpose::Listen));
    let connect = Command::ConnectWithTimeout {
        addr: "host:1".into(),
        timeout_ms: 50,
    };
    assert_eq!(
        books.perform(ask(2), connect, 100, &mut out),
        Task::Address(Purpose::Connect {
            deadline_ms: Some(150)
        })
    );
    assert!(out.replies.is_empty());
}

#[test]
fn an_accepted_connection_is_announced_and_read() {
    let (mut books, mut out) = books();
    let listener = books
        .sockets
        .insert(7, Kind::Listener, State::Listen)
        .unwrap();
    assert!(books.accept_step(listener));
    let id = books
        .accept_result(listener, "10.0.0.1:5".into(), &mut out)
        .unwrap();
    assert_eq!(out.events.len(), 1);
    assert_eq!(out.events[0].owner, 7);
    match &out.events[0].event {
        SocketEvent::Accept { id: got, listen, peer } => {
            assert_eq!((*got, *listen), (id, listener));
            assert_eq!(peer, "10.0.0.1:5");
        }
        other => panic!("{other:?}"),
    }
    assert_eq!(books.registration(id), Registration::Keep);

    let task = books.perform(ask(3), Command::Start(id), 0, &mut out);
    assert_eq!(
        task,
        Task::Start {
            id,
            kind: Kind::Stream,
            resumed: false
        }
    );
    assert_eq!(books.registration(id), Registration::Register(Interest::Readable));
    books.registered(id);
    assert_eq!(books.registration(id), Registration::Keep);
    assert_eq!(books.read_step(id), Some(64));
    let next = books.read_result(id, ReadResult::Data(vec![1, 2, 3]), 9, &mut out);
    assert_eq!(next, Next::Again);
    match &out.events[1].event {
        SocketEvent::Data { id: got, data } => {
            assert_eq!(*got, id);
            assert_eq!(data, &[1, 2, 3]);
        }
        other => panic!("{other:?}"),
    }
    assert_eq!(out.events[1].owner, 5);
}

#[test]
fn bytes_are_written_in_pieces_and_waiters_released() {
    let (mut books, mut out) = books();
    let id = books.sockets.insert(5, Kind::Stream, State::Connected).unwrap();
    let send = Command::SendWait {
        id,
        data: b"0123456789".to_vec(),
        high: true,
    };
    assert_eq!(
        books.perform(ask(4), send, 0, &mut out),
        Task::Flush { id, wait: true }
    );
    assert_eq!(books.flush_step(id), FlushStep::Write);
    assert_eq!(books.front(id).unwrap().0, b"0123456789");
    assert_eq!(books.flush_result(id, WriteResult::Wrote(4), 1, &mut out), Next::Again);
    assert_eq!(books.front(id).unwrap().0, b"456789");
    assert_eq!(books.flush_result(id, WriteResult::Wrote(6), 1, &mut out), Next::Again);
    assert_eq!(books.flush_step(id), FlushStep::Drained);
}

#[test]
fn requests_on_missing_sockets_are_refused() {
    let (mut books, mut out) = books();
    let id = SocketId(77);
    let send = Command::Send {
        id,
        data: vec![1],
        high: true,
    };
    assert_eq!(books.perform(ask(1), send, 0, &mut out), Task::Nothing);
    assert_eq!(books.perform(ask(2), Command::Info(id), 0, &mut out), Task::Nothing);
    for reply in &out.replies {
        match &reply.answer {
            Answer::Failed(reason) => assert_eq!(reason, "#77 不存在，可能已经关了"),
            other => panic!("{other:?}"),
        }
    }
    assert_eq!(out.replies.len(), 2);
}

#[test]
fn only_streams_have_nodelay_and_only_udp_has_peers() {
    let (mut books, mut out) = books();
    let id = books.sockets.insert(5, Kind::Udp, State::Connected).unwrap();
    let task = books.perform(ask(1), Command::NoDelay { id, on: true }, 0, &mut out);
    assert_eq!(task, Task::Nothing);
    match &out.replies[0].answer {
        Answer::Failed(reason) => assert_eq!(reason, "#1 不是 TCP 连接"),
        other => panic!("{other:?}"),
    }
    books.do_udp_connect(ask(2), id, "1.2.3.4:5".into(), &mut out);
    assert_eq!(books.sockets.get(id).unwrap().udp_peer.as_deref(), Some("1.2.3.4:5"));
    let stream = books.sockets.insert(5, Kind::Stream, State::Connected).unwrap();
    books.do_udp_connect(ask(3), stream, "1.2.3.4:5".into(), &mut out);
    match &out.replies[2].answer {
        Answer::Failed(reason) => assert_eq!(reason, "#2 不是 UDP 端口"),
        other => panic!("{other:?}"),
    }
}

#[test]
fn a_closed_socket_says_so_and_is_gone() {
    let (mut books, mut out) = books();
    let id = books.sockets.insert(6, Kind::Stream, State::Connected).unwrap();
    books.close(id, Farewell::Closed, &mut out);
    assert!(books.sockets.get(id).is_none());
    assert!(out.events[0].event.is_gone());
    assert_eq!(out.events[0].event.id(), id);
    let failed = books.sockets.insert(6, Kind::Stream, State::Connected).unwrap();
    books.read_result(failed, ReadResult::Failed("boom".into()), 0, &mut out);
    match &out.events[1].event {
        SocketEvent::Error { reason, .. } => assert_eq!(reason, "读出错：boom"),
        other => panic!("{other:?}"),
    }
    let silent = books.sockets.insert(6, Kind::Stream, State::Connected).unwrap();
    books.close(silent, Farewell::Silent, &mut out);
    assert_eq!(out.events.len(), 2);
}

#[test]
fn a_connection_that_takes_too_long_is_given_up() {
    let (mut books, mut out) = books();
    let id = books.sockets.insert(5, Kind::Stream, State::Connecting).unwrap();
    let mut socket = books.sockets.remove(id).unwrap();
    socket.connect_deadline_ms = Some(100);
    socket.pending = Some(ask(8));
    books.sockets.restore(socket);
    books.perform(ask(0), Command::ConnectTimeoutElapsed(id), 99, &mut out);
    assert!(books.sockets.get(id).is_some());
    books.perform(ask(0), Command::ConnectTimeoutElapsed(id), 100, &mut out);
    assert!(books.sockets.get(id).is_none());
    assert_eq!(out.replies.len(), 1);
    assert_eq!(out.replies[0].pending.session, 8);
    match &out.replies[0].answer {
        Answer::Failed(reason) => assert_eq!(reason, "连接超时"),
        other => panic!("{other:?}"),
    }
}

#[test]
fn datagrams_go_to_the_owner() {
    let (mut books, mut out) = books();
    let id = books.sockets.insert(5, Kind::Udp, State::Connected).unwrap();
    assert!(books.udp_step(id));
    let datagram = UdpResult::Datagram {
        from: "9.9.9.9:9".into(),
        data: vec![7],
    };
    assert_eq!(books.udp_result(id, datagram, 3, &mut out), Next::Again);
    match &out.events[0].event {
        SocketEvent::Udp { from, data, .. } => {
            assert_eq!(from, "9.9.9.9:9");
            assert_eq!(data, &[7]);
        }
        other => panic!("{other:?}"),
    }
    assert_eq!(books.udp_result(id, UdpResult::WouldBlock, 3, &mut out), Next::Stop);
}

#[test]
fn datagram_sockets_are_bound_somewhere() {
    assert_eq!(udp_address(None), "0.0.0.0:0");
    assert_eq!(udp_address(Some("1.1.1.1:2".into())), "1.1.1.1:2");
    assert_eq!(wildcard_for_peer(false), "0.0.0.0:0");
    assert_eq!(wildcard_for_peer(true), "[::]:0");
}

#[test]
fn answers_are_taken_for_what_was_asked() {
    assert!(Answer::Done.done().is_ok());
    assert_eq!(Answer::Id(SocketId(3)).id().unwrap(), SocketId(3));
    assert!(Answer::Failed("no".into()).done().is_err());
    assert!(Answer::Done.id().is_err());
}

#[test]
fn a_service_takes_the_name_it_is_given() {
    assert_eq!(service_name("", "net"), "net");
    assert_eq!(service_name(" \t\n", "net"), "net");
    assert_eq!(service_name("  inner net ", "net"), "inner net");
}
