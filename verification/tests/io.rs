use runtime_from_scratch::join::JoinCells;
use runtime_from_scratch::reactor::{main_for_reactor, EpollCtl, EpollEvent, Reactor, MAX_EVENTS};
use runtime_from_scratch::sleep_timer::TimerFutureState;
use runtime_from_scratch::sys::{make_nonblocking, with_flag, would_block};
use runtime_from_scratch::tcp::{
    ip_from_octets, port_from_octets, port_to_octets, AcceptFuture, AcceptStep, ReadStep,
    TcpListener, TcpStream, WriteStep, BACKLOG,
};
use runtime_from_scratch::text::{format_address, push_decimal};
use runtime_from_scratch::timer_fd::{TimerCall, TimerFuture, TimerRead};
use runtime_from_scratch::work_stealing::{Action, Executor};
use std::sync::Arc;

const EPOLL: i32 = 3;

fn request(op: i32, fd: i32, events: i32) -> EpollCtl {
    EpollCtl {
        epoll_fd: EPOLL,
        op,
        fd,
        event: Some(EpollEvent { events: events as u32, data: fd as u64 }),
    }
}

#[test]
fn waiting_errors_are_those_of_the_c_library() {
    assert!(would_block(libc::EAGAIN));
    assert!(would_block(libc::EWOULDBLOCK));
    assert!(!would_block(libc::EINTR));
    assert!(!would_block(0));
}

#[test]
fn nonblocking_flag_is_added() {
    assert_eq!(make_nonblocking(libc::O_RDWR), libc::O_RDWR | libc::O_NONBLOCK);
    assert_eq!(make_nonblocking(libc::O_NONBLOCK), libc::O_NONBLOCK);
    assert_eq!(with_flag(0b100, 0b001), 0b101);
    assert_eq!(with_flag(-1, 8), -1);
}

#[test]
fn first_registration_adds_and_the_next_modifies() {
    let mut reactor: Reactor<char> = Reactor::new(EPOLL);
    assert_eq!(reactor.get_epoll_fd(), EPOLL);
    let ctl = reactor.register_read(8, 'a');
    assert_eq!(ctl, request(libc::EPOLL_CTL_ADD, 8, libc::EPOLLIN));
    let ctl = reactor.register_write(8, 'b');
    assert_eq!(ctl, request(libc::EPOLL_CTL_MOD, 8, libc::EPOLLOUT));
    let ctl = reactor.register_write(9, 'c');
    assert_eq!(ctl, request(libc::EPOLL_CTL_ADD, 9, libc::EPOLLOUT));
    let ctl = reactor.register_read(9, 'd');
    assert_eq!(ctl, request(libc::EPOLL_CTL_MOD, 9, libc::EPOLLIN));
    assert_eq!(main_for_reactor(&mut reactor, &[9, 8], 2), vec!['d', 'b']);
    // Nobody waits for it any more.
    let ctl = reactor.register_read(8, 'e');
    assert_eq!(ctl, request(libc::EPOLL_CTL_ADD, 8, libc::EPOLLIN));
}

#[test]
fn deregistering_leaves_the_waker() {
    let mut reactor: Reactor<char> = Reactor::new(EPOLL);
    reactor.register_read(8, 'a');
    let ctl = reactor.deregister(8);
    assert_eq!(
        ctl,
        EpollCtl { epoll_fd: EPOLL, op: libc::EPOLL_CTL_DEL, fd: 8, event: None }
    );
    assert_eq!(main_for_reactor(&mut reactor, &[8], 1), vec!['a']);
}

#[test]
fn each_waker_is_woken_once() {
    let mut reactor: Reactor<char> = Reactor::new(EPOLL);
    reactor.register_read(5, 'a');
    reactor.register_read(6, 'b');
    reactor.register_read(7, 'c');
    let mut events = vec![0u64; MAX_EVENTS];
    events[0] = 7;
    events[1] = 40;
    events[2] = 5;
    events[3] = 7;
    events[4] = 6;
    // Only the first four are reported.
    assert_eq!(main_for_reactor(&mut reactor, &events, 4), vec!['c', 'a']);
    assert_eq!(main_for_reactor(&mut reactor, &events, 4), vec![]);
    assert_eq!(main_for_reactor(&mut reactor, &events, 5), vec!['b']);
    assert_eq!(main_for_reactor(&mut reactor, &events, 0), vec![]);
}

#[test]
fn event_word_names_its_file_descriptor() {
    let mut reactor: Reactor<char> = Reactor::new(EPOLL);
    let ctl = reactor.register_read(-2, 'a');
    assert_eq!(ctl.event.unwrap().data, 0xffff_ffff_ffff_fffe);
    assert_eq!(main_for_reactor(&mut reactor, &[ctl.event.unwrap().data], 1), vec!['a']);
}

#[test]
fn listener_is_set_up_for_any_local_address() {
    let (listener, plan) = TcpListener::bind(4, 9000);
    assert_eq!(listener.server_fd, 4);
    assert_eq!(plan.reuse_address, 1);
    assert_eq!(plan.ip, [0, 0, 0, 0]);
    assert_eq!(plan.port, 9000u16.to_be_bytes());
    assert_eq!(plan.port, [0x23, 0x28]);
    assert_eq!(plan.backlog, 128);
    assert_eq!(BACKLOG, 128);
    assert_eq!(listener.accept(), AcceptFuture { server_fd: 4 });
}

#[test]
fn connection_is_accepted_with_the_address_of_its_peer() {
    let mut reactor: Reactor<char> = Reactor::new(EPOLL);
    let future = AcceptFuture { server_fd: 4 };
    let step = future.poll(&mut reactor, 'a', 11, 0, [192, 168, 0, 17], [0xc0, 0x01]);
    let stream = match step {
        AcceptStep::Ready(stream) => stream,
        other => panic!("{:?}", other),
    };
    assert_eq!(stream.fd, 11);
    assert_eq!(stream.peer_ip, u32::from_be_bytes([192, 168, 0, 17]));
    assert_eq!(stream.peer_port, 49153);
    assert_eq!(stream.peer_addr(), "192.168.0.17:49153");
    assert_eq!(main_for_reactor(&mut reactor, &[4], 1), vec![]);
}

#[test]
fn accept_waits_or_fails() {
    let mut reactor: Reactor<char> = Reactor::new(EPOLL);
    let future = AcceptFuture { server_fd: 4 };
    let step = future.poll(&mut reactor, 'a', -1, libc::EAGAIN, [0; 4], [0; 2]);
    assert_eq!(
        step,
        AcceptStep::Pending(request(libc::EPOLL_CTL_ADD, 4, libc::EPOLLIN))
    );
    assert_eq!(main_for_reactor(&mut reactor, &[4], 1), vec!['a']);
    let step = future.poll(&mut reactor, 'a', -1, libc::EMFILE, [0; 4], [0; 2]);
    assert_eq!(step, AcceptStep::Failed(libc::EMFILE));
    assert_eq!(main_for_reactor(&mut reactor, &[4], 1), vec![]);
}

#[test]
fn addresses_are_written_in_full() {
    let stream = TcpStream { fd: 1, peer_ip: 0x7f00_0001, peer_port: 80 };
    assert_eq!(stream.peer_addr(), "127.0.0.1:80");
    let stream = TcpStream { fd: 1, peer_ip: u32::MAX, peer_port: u16::MAX };
    assert_eq!(stream.peer_addr(), "255.255.255.255:65535");
    let stream = TcpStream { fd: 1, peer_ip: 0, peer_port: 0 };
    assert_eq!(stream.peer_addr(), "0.0.0.0:0");
    assert_eq!(format_address(1, 20, 0, 100, 9000), "1.20.0.100:9000");
    let mut text = "n=".to_string();
    push_decimal(&mut text, 4_294_967_295);
    assert_eq!(text, "n=4294967295");
}

#[test]
fn peers_are_told_apart_by_their_address() {
    let peers = [(1, 234), (12, 34), (0x0100_0000, 234), (1, 235), (0x0101_0101, 1)];
    let show = |(peer_ip, peer_port)| TcpStream { fd: 1, peer_ip, peer_port }.peer_addr();
    for a in peers {
        for b in peers {
            assert_eq!(show(a) == show(b), a == b);
        }
    }
    assert_eq!(show((1, 234)), "0.0.0.1:234");
    assert_eq!(show((12, 34)), "0.0.0.12:34");
}

#[test]
fn octets_are_in_network_order() {
    assert_eq!(port_from_octets([0x12, 0x34]), 0x1234);
    assert_eq!(port_to_octets(0x1234), [0x12, 0x34]);
    assert_eq!(port_from_octets(port_to_octets(65535)), 65535);
    assert_eq!(ip_from_octets([1, 2, 3, 4]), 0x0102_0304);
    assert_eq!(ip_from_octets([255, 255, 255, 255]), u32::MAX);
}

#[test]
fn read_counts_waits_or_ends() {
    let mut reactor: Reactor<char> = Reactor::new(EPOLL);
    let stream = TcpStream { fd: 6, peer_ip: 0, peer_port: 0 };
    let future = stream.read(64);
    assert_eq!((future.fd, future.len), (6, 64));
    assert_eq!(future.poll(&mut reactor, 'a', 17, 0), ReadStep::Ready(17));
    assert_eq!(future.poll(&mut reactor, 'a', 64, 0), ReadStep::Ready(64));
    assert_eq!(future.poll(&mut reactor, 'a', 0, libc::EAGAIN), ReadStep::Ready(0));
    assert_eq!(
        future.poll(&mut reactor, 'a', -1, libc::EAGAIN),
        ReadStep::Pending(request(libc::EPOLL_CTL_ADD, 6, libc::EPOLLIN))
    );
    assert_eq!(main_for_reactor(&mut reactor, &[6], 1), vec!['a']);
    assert_eq!(future.poll(&mut reactor, 'a', -1, libc::ECONNRESET), ReadStep::Ready(0));
    assert_eq!(main_for_reactor(&mut reactor, &[6], 1), vec![]);
}

#[test]
fn write_sends_everything_in_order() {
    let mut reactor: Reactor<char> = Reactor::new(EPOLL);
    let stream = TcpStream { fd: 6, peer_ip: 0, peer_port: 0 };
    let mut future = stream.write_all(b"hello");
    assert_eq!(future.remaining(), Some(&b"hello"[..]));
    assert_eq!(future.poll(&mut reactor, 'a', 2, 0), WriteStep::Again);
    assert_eq!(future.remaining(), Some(&b"llo"[..]));
    assert_eq!(
        future.poll(&mut reactor, 'a', -1, libc::EAGAIN),
        WriteStep::Pending(request(libc::EPOLL_CTL_ADD, 6, libc::EPOLLOUT))
    );
    assert_eq!(main_for_reactor(&mut reactor, &[6], 1), vec!['a']);
    assert_eq!(future.poll(&mut reactor, 'a', 0, 0), WriteStep::Again);
    assert_eq!(future.remaining(), Some(&b"llo"[..]));
    assert_eq!(future.poll(&mut reactor, 'a', 3, 0), WriteStep::Again);
    assert_eq!(future.remaining(), None);
    assert_eq!(stream.write_all(b"").remaining(), None);
}

#[test]
fn failed_write_gives_up() {
    let mut reactor: Reactor<char> = Reactor::new(EPOLL);
    let stream = TcpStream { fd: 6, peer_ip: 0, peer_port: 0 };
    let mut future = stream.write_all(b"hello");
    assert_eq!(future.poll(&mut reactor, 'a', -1, libc::EPIPE), WriteStep::Ready);
    assert_eq!(future.remaining(), Some(&b"hello"[..]));
    assert_eq!(main_for_reactor(&mut reactor, &[6], 1), vec![]);
}

#[test]
fn timer_is_made_read_and_closed() {
    let mut reactor: Reactor<char> = Reactor::new(EPOLL);
    let mut timer = TimerFuture::new(2, 100_000_000);
    assert_eq!(timer.poll(), TimerCall::Create { secs: 2, nanos: 100_000_000 });
    assert_eq!(timer.state, TimerFutureState::Unresumed);
    let ctl = timer.created(&mut reactor, 'a', 12);
    assert_eq!(ctl, request(libc::EPOLL_CTL_ADD, 12, libc::EPOLLIN));
    assert_eq!(timer.poll(), TimerCall::Read { fd: 12 });
    assert_eq!(timer.read_returned(&reactor, -1, libc::EAGAIN), TimerRead::Pending);
    assert_eq!(timer.state, TimerFutureState::Started);
    assert_eq!(
        timer.read_returned(&reactor, -1, libc::EBADF),
        TimerRead::Failed(libc::EBADF)
    );
    let read = timer.read_returned(&reactor, 8, 0);
    assert_eq!(
        read,
        TimerRead::Ready {
            value: "thanks for waiting".to_string(),
            ctl: reactor.deregister(12),
        }
    );
    assert_eq!(timer.poll(), TimerCall::Ready("thanks for waiting".to_string()));
    assert_eq!(main_for_reactor(&mut reactor, &[12], 1), vec!['a']);
}

#[test]
fn time_beyond_the_range_wraps() {
    let timer = TimerFuture::new(u64::MAX, 0);
    assert_eq!(timer.poll(), TimerCall::Create { secs: -1, nanos: 0 });
}

#[test]
fn ready_file_descriptor_gives_its_task_a_turn() {
    let mut executor: Executor<()> = Executor::new();
    let mut cells: JoinCells<(), u64> = JoinCells::new();
    let mut reactor: Reactor<u64> = Reactor::new(EPOLL);
    for _ in 0..4 {
        executor.register_worker();
    }
    executor.set_threads();
    executor.spawn(&mut cells, 2, Arc::new(()));
    let turn = Action::Poll { task: 0, stolen_from: None };
    assert_eq!(executor.run(2), turn);
    executor.waker_clone(0);
    reactor.register_read(7, 0);
    assert!(executor.poll_returned(2, false).is_none());
    assert_eq!(executor.run(2), Action::Park);
    for task in main_for_reactor(&mut reactor, &[7], 1) {
        executor.wake(task);
    }
    assert!(executor.park_returned(2));
    assert_eq!(executor.run(2), turn);
}
