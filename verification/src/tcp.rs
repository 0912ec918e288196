//! TCP sockets: what the futures that accept, read and write make of the answers of the operating
//! system.
//!
//! The sockets do not block. Where an operation would have to wait, the future registers with the
//! reactor and is polled again when the socket is ready.
use vstd::prelude::*;
use vstd::slice::slice_subrange;

use crate::reactor::{EpollCtl, Reactor};
use crate::sys;
use crate::text;

verus! {

/// How many connections may wait to be accepted.
pub const BACKLOG: i32 = 128;

/// The number that two octets in network order stand for.
pub open spec fn number_of_2(octets: Seq<u8>) -> int {
    octets[0] * 0x100 + octets[1]
}

/// The number that four octets in network order stand for.
pub open spec fn number_of_4(octets: Seq<u8>) -> int {
    octets[0] * 0x100_0000 + octets[1] * 0x1_0000 + octets[2] * 0x100 + octets[3]
}

/// The octets of a port in network order.
pub fn port_to_octets(port: u16) -> (octets: [u8; 2])
    ensures
        number_of_2(octets@) == port,
        octets[0] == port / 0x100,
        octets[1] == port % 0x100,
{
    let high = (port / 0x100) as u8;
    let low = (port % 0x100) as u8;
    [high, low]
}

/// The port that two octets in network order stand for.
pub fn port_from_octets(octets: [u8; 2]) -> (port: u16)
    ensures
        port == number_of_2(octets@),
        port == octets[0] * 0x100 + octets[1],
{
    octets[0] as u16 * 0x100 + octets[1] as u16
}

/// The address that four octets in network order stand for.
pub fn ip_from_octets(octets: [u8; 4]) -> (ip: u32)
    ensures
        ip == number_of_4(octets@),
        ip == octets[0] * 0x100_0000 + octets[1] * 0x1_0000 + octets[2] * 0x100 + octets[3],
{
    octets[0] as u32 * 0x100_0000 + octets[1] as u32 * 0x1_0000 + octets[2] as u32 * 0x100
        + octets[3] as u32
}

/// How a new socket is made to listen.
#[derive(Debug, PartialEq, Eq)]
pub struct ListenPlan {
    /// The value of the option that lets the address be used again at once.
    pub reuse_address: i32,
    /// The local address in network order: any.
    pub ip: [u8; 4],
    /// The local port in network order.
    pub port: [u8; 2],
    /// How many connections may wait to be accepted.
    pub backlog: i32,
}

/// A socket that listens.
#[derive(Debug, PartialEq, Eq)]
pub struct TcpListener {
    pub server_fd: i32,
}

impl TcpListener {
    /// The listener on the new socket `server_fd`, and how the socket is to be set up to listen on
    /// `port` of any local address.
    pub fn bind(server_fd: i32, port: u16) -> (r: (Self, ListenPlan))
        requires
            server_fd >= 0,
        ensures
            r.0.server_fd == server_fd,
            r.1.reuse_address == 1,
            number_of_4(r.1.ip@) == 0,
            forall|i: int| 0 <= i < 4 ==> r.1.ip[i] == 0,
            number_of_2(r.1.port@) == port,
            r.1.port[0] == port / 0x100,
            r.1.port[1] == port % 0x100,
            r.1.backlog == BACKLOG,
            r.1.backlog == 128,
    {
        let plan = ListenPlan {
            reuse_address: 1,
            ip: [0, 0, 0, 0],
            port: port_to_octets(port),
            backlog: BACKLOG,
        };
        (TcpListener { server_fd }, plan)
    }

    /// The future of the next connection.
    pub fn accept(&self) -> (future: AcceptFuture)
        ensures
            future.server_fd == self.server_fd,
    {
        AcceptFuture { server_fd: self.server_fd }
    }
}

/// The future of a connection that is to be accepted.
#[derive(Debug, PartialEq, Eq)]
pub struct AcceptFuture {
    pub server_fd: i32,
}

/// What comes of an attempt to accept a connection.
#[derive(Debug, PartialEq, Eq)]
pub enum AcceptStep {
    /// There is none yet. The request is to be made, and the future waits.
    Pending(EpollCtl),
    /// A connection. Its socket is to be made non-blocking.
    Ready(TcpStream),
    /// The attempt failed with this error.
    Failed(i32),
}

impl AcceptFuture {
    /// Deals with the answer to an attempt to accept a connection: `client_fd` is what the call
    /// returned, `err` the error code that it left, `ip` and `port` the address of the peer in
    /// network order.
    pub fn poll<W>(
        &self,
        reactor: &mut Reactor<W>,
        waker: W,
        client_fd: i32,
        err: i32,
        ip: [u8; 4],
        port: [u8; 2],
    ) -> (step: AcceptStep)
        ensures
            final(reactor).epoll_fd() == old(reactor).epoll_fd(),
            client_fd == -1 && err == sys::AGAIN ==> {
                &&& step == AcceptStep::Pending(
                    old(reactor).registration(self.server_fd, sys::READABLE),
                )
                &&& final(reactor)@ == old(reactor)@.insert(self.server_fd, waker)
            },
            client_fd == -1 && err != sys::AGAIN ==> step == AcceptStep::Failed(err)
                && final(reactor)@ == old(reactor)@,
            client_fd != -1 ==> {
                &&& step matches AcceptStep::Ready(stream)
                &&& stream.fd == client_fd
                &&& stream.peer_ip == number_of_4(ip@)
                &&& stream.peer_ip == ip[0] * 0x100_0000 + ip[1] * 0x1_0000 + ip[2] * 0x100 + ip[3]
                &&& stream.peer_port == number_of_2(port@)
                &&& stream.peer_port == port[0] * 0x100 + port[1]
                &&& final(reactor)@ == old(reactor)@
            },
    {
        if client_fd == -1 {
            if sys::would_block(err) {
                return AcceptStep::Pending(reactor.register_read(self.server_fd, waker));
            }
            return AcceptStep::Failed(err);
        }
        let peer_ip = ip_from_octets(ip);
        let peer_port = port_from_octets(port);
        AcceptStep::Ready(TcpStream { fd: client_fd, peer_ip, peer_port })
    }
}

/// A connection.
#[derive(Debug, PartialEq, Eq)]
pub struct TcpStream {
    pub fd: i32,
    pub peer_ip: u32,
    pub peer_port: u16,
}

/// The address of the peer of a connection, as it is written: the octets from the highest to the
/// lowest, and the port.
pub open spec fn peer_text(ip: nat, port: nat) -> Seq<char> {
    text::address(
        ip / 0x100_0000 % 0x100,
        ip / 0x1_0000 % 0x100,
        ip / 0x100 % 0x100,
        ip % 0x100,
        port,
    )
}

impl TcpStream {
    /// The address of the peer as text.
    pub fn peer_addr(&self) -> (text: String)
        ensures
            text@ == peer_text(self.peer_ip as nat, self.peer_port as nat),
    {
        let ip = self.peer_ip;
        assert((ip >> 24) & 0xff == ip / 0x100_0000 % 0x100) by (bit_vector);
        assert((ip >> 16) & 0xff == ip / 0x1_0000 % 0x100) by (bit_vector);
        assert((ip >> 8) & 0xff == ip / 0x100 % 0x100) by (bit_vector);
        assert(ip & 0xff == ip % 0x100) by (bit_vector);
        text::format_address(
            (ip >> 24) & 0xff,
            (ip >> 16) & 0xff,
            (ip >> 8) & 0xff,
            ip & 0xff,
            self.peer_port,
        )
    }

    /// The future of what the peer sends next, at most `len` bytes of it.
    pub fn read(&self, len: usize) -> (future: ReadFuture)
        ensures
            future.fd == self.fd,
            future.len == len,
    {
        ReadFuture { fd: self.fd, len }
    }

    /// The future that sends all of `data` to the peer.
    pub fn write_all<'a>(&self, data: &'a [u8]) -> (future: WriteFuture<'a>)
        ensures
            future.wf(),
            future.fd == self.fd,
            future.data@ == data@,
            future.written == 0,
    {
        WriteFuture { fd: self.fd, data, written: 0 }
    }
}

/// The future of what the peer of a connection sends next; there is room for `len` bytes.
#[derive(Debug, PartialEq, Eq)]
pub struct ReadFuture {
    pub fd: i32,
    pub len: usize,
}

/// What comes of an attempt to read.
#[derive(Debug, PartialEq, Eq)]
pub enum ReadStep {
    /// There is nothing yet. The request is to be made, and the future waits.
    Pending(EpollCtl),
    /// So many bytes were read; none if the connection is at its end or has failed.
    Ready(usize),
}

impl ReadFuture {
    /// Deals with the answer to an attempt to read: `ret` is what the call returned, which is no
    /// more than there is room for, and `err` the error code that it left.
    pub fn poll<W>(&self, reactor: &mut Reactor<W>, waker: W, ret: isize, err: i32) -> (step:
        ReadStep)
        requires
            ret <= self.len,
        ensures
            step matches ReadStep::Ready(n) ==> n <= self.len,
            final(reactor).epoll_fd() == old(reactor).epoll_fd(),
            ret >= 0 ==> step == ReadStep::Ready(ret as usize) && final(reactor)@ == old(reactor)@,
            ret < 0 && err == sys::AGAIN ==> {
                &&& step == ReadStep::Pending(old(reactor).registration(self.fd, sys::READABLE))
                &&& final(reactor)@ == old(reactor)@.insert(self.fd, waker)
            },
            ret < 0 && err != sys::AGAIN ==> step == ReadStep::Ready(0) && final(reactor)@ == old(
                reactor,
            )@,
    {
        if ret >= 0 {
            return ReadStep::Ready(ret as usize);
        }
        if sys::would_block(err) {
            return ReadStep::Pending(reactor.register_read(self.fd, waker));
        }
        ReadStep::Ready(0)
    }
}

/// The future that sends all of `data`, of which `written` bytes have been sent.
#[derive(Debug, PartialEq, Eq)]
pub struct WriteFuture<'a> {
    pub fd: i32,
    pub data: &'a [u8],
    pub written: usize,
}

/// What comes of an attempt to write.
#[derive(Debug, PartialEq, Eq)]
pub enum WriteStep {
    /// Some was written, and what is left is to be looked at again.
    Again,
    /// The socket takes nothing yet. The request is to be made, and the future waits.
    Pending(EpollCtl),
    /// The connection has failed; nothing more is sent.
    Ready,
}

impl<'a> WriteFuture<'a> {
    /// No more is written than there is.
    pub open spec fn wf(&self) -> bool {
        self.written <= self.data@.len()
    }

    /// The bytes that have been sent.
    pub open spec fn sent(&self) -> Seq<u8> {
        self.data@.take(self.written as int)
    }

    /// The bytes that have not been sent.
    pub open spec fn rest(&self) -> Seq<u8> {
        self.data@.skip(self.written as int)
    }

    /// The bytes that are to be written next, or none if all are sent: the future is ready then.
    pub fn remaining(&self) -> (rest: Option<&'a [u8]>)
        requires
            self.wf(),
        ensures
            rest is None <==> self.rest().len() == 0,
            rest matches Some(rest) ==> rest@ == self.rest(),
            rest is None <==> self.written == self.data@.len(),
            rest matches Some(rest) ==> rest@.len() == self.data@.len() - self.written && forall|
                i: int,
            |
                0 <= i < rest@.len() ==> #[trigger] rest@[i] == self.data@[self.written + i],
    {
        if self.written == self.data.len() {
            None
        } else {
            let rest = slice_subrange(self.data, self.written, self.data.len());
            assert(rest@ =~= self.rest());
            Some(rest)
        }
    }

    /// Deals with the answer to an attempt to write what remains: `ret` is what the call returned,
    /// `err` the error code that it left.
    pub fn poll<W>(&mut self, reactor: &mut Reactor<W>, waker: W, ret: isize, err: i32) -> (step:
        WriteStep)
        requires
            old(self).wf(),
            ret <= old(self).rest().len(),
        ensures
            final(self).wf(),
            final(self).fd == old(self).fd,
            final(self).data@ == old(self).data@,
            final(reactor).epoll_fd() == old(reactor).epoll_fd(),
            ret >= 0 ==> {
                &&& step is Again
                &&& final(self).written == old(self).written + ret
                &&& final(reactor)@ == old(reactor)@
            },
            ret < 0 ==> final(self).written == old(self).written,
            ret < 0 && err == sys::AGAIN ==> {
                &&& step == WriteStep::Pending(
                    old(reactor).registration(old(self).fd, sys::WRITABLE),
                )
                &&& final(reactor)@ == old(reactor)@.insert(old(self).fd, waker)
            },
            ret < 0 && err != sys::AGAIN ==> step is Ready && final(reactor)@ == old(reactor)@,
    {
        if ret >= 0 {
            assert(self.data@.len() == self.data.len());
            self.written += ret as usize;
            return WriteStep::Again;
        }
        if sys::would_block(err) {
            return WriteStep::Pending(reactor.register_write(self.fd, waker));
        }
        WriteStep::Ready
    }
}

/// A number is made of its four octets.
proof fn lemma_octets_of(ip: u32)
    ensures
        ip == ip / 0x100_0000 % 0x100 * 0x100_0000 + ip / 0x1_0000 % 0x100 * 0x1_0000 + ip / 0x100
            % 0x100 * 0x100 + ip % 0x100,
        ip / 0x100_0000 % 0x100 == ip / 0x100_0000,
{
    assert(ip == ip / 0x100_0000 % 0x100 * 0x100_0000 + ip / 0x1_0000 % 0x100 * 0x1_0000 + ip
        / 0x100 % 0x100 * 0x100 + ip % 0x100) by (bit_vector);
    assert(ip / 0x100_0000 % 0x100 == ip / 0x100_0000) by (bit_vector);
}

/// The octets of a number that is made of four octets are these.
proof fn lemma_made_of_octets(a: u8, b: u8, c: u8, d: u8)
    ensures
        ({
            let ip = a * 0x100_0000 + b * 0x1_0000 + c * 0x100 + d;
            &&& 0 <= ip <= u32::MAX
            &&& ip / 0x100_0000 % 0x100 == a
            &&& ip / 0x1_0000 % 0x100 == b
            &&& ip / 0x100 % 0x100 == c
            &&& ip % 0x100 == d
        }),
{
    let ip = a * 0x100_0000 + b * 0x1_0000 + c * 0x100 + d;
    assert(ip / 0x100_0000 == a);
    assert(ip / 0x1_0000 == a * 0x100 + b);
    assert(ip / 0x100 == a * 0x1_0000 + b * 0x100 + c);
}

/// The address that a connection shows for its peer is that which came with the connection: the
/// four octets in their order, and the port.
pub proof fn law_peer_address_is_that_of_the_peer(ip: Seq<u8>, port: Seq<u8>)
    requires
        ip.len() == 4,
        port.len() == 2,
    ensures
        peer_text(number_of_4(ip) as nat, number_of_2(port) as nat) == text::address(
            ip[0] as nat,
            ip[1] as nat,
            ip[2] as nat,
            ip[3] as nat,
            (port[0] * 0x100 + port[1]) as nat,
        ),
{
    lemma_made_of_octets(ip[0], ip[1], ip[2], ip[3]);
}

/// The address that a connection shows tells its peer: two connections show the same address
/// exactly if the peers have the same address and the same port.
pub proof fn law_peer_address_tells_the_peer(ip: u32, port: u16, other_ip: u32, other_port: u16)
    ensures
        peer_text(ip as nat, port as nat) == peer_text(other_ip as nat, other_port as nat) <==> ip
            == other_ip && port == other_port,
{
    if peer_text(ip as nat, port as nat) == peer_text(other_ip as nat, other_port as nat) {
        let a = ip as nat;
        let b = other_ip as nat;
        text::law_address_determines_its_parts(
            (
                a / 0x100_0000 % 0x100,
                a / 0x1_0000 % 0x100,
                a / 0x100 % 0x100,
                a % 0x100,
                port as nat,
            ),
            (
                b / 0x100_0000 % 0x100,
                b / 0x1_0000 % 0x100,
                b / 0x100 % 0x100,
                b % 0x100,
                other_port as nat,
            ),
        );
        lemma_octets_of(ip);
        lemma_octets_of(other_ip);
    }
}

/// What was sent together with what is left is the data; a write that takes `n` bytes sends exactly
/// the first `n` bytes of what was left, after all that was sent before.
pub proof fn law_write_sends_in_order(before: WriteFuture<'_>, after: WriteFuture<'_>, n: nat)
    requires
        before.wf(),
        n <= before.rest().len(),
        after.data@ == before.data@,
        after.written == before.written + n,
    ensures
        before.sent() + before.rest() == before.data@,
        after.sent() == before.sent() + before.rest().take(n as int),
        after.rest() == before.rest().skip(n as int),
        after.rest().len() == 0 ==> after.sent() == before.data@,
{
    assert(before.sent() + before.rest() =~= before.data@);
    assert(after.sent() =~= before.sent() + before.rest().take(n as int));
    assert(after.rest() =~= before.rest().skip(n as int));
    if after.rest().len() == 0 {
        assert(after.sent() =~= before.data@);
    }
}

/// Network order puts the higher octet first: two octets are those of a number exactly if the first
/// is how often it holds 256 and the second what is left then, and four octets exactly if that goes
/// on.
pub proof fn law_network_order_is_highest_first(two: Seq<u8>, port: u16, four: Seq<u8>, ip: u32)
    requires
        two.len() == 2,
        four.len() == 4,
    ensures
        number_of_2(two) == port <==> two[0] == port / 0x100 && two[1] == port % 0x100,
        number_of_4(four) == ip <==> {
            &&& four[0] == ip / 0x100_0000
            &&& four[1] == ip / 0x1_0000 % 0x100
            &&& four[2] == ip / 0x100 % 0x100
            &&& four[3] == ip % 0x100
        },
{
    lemma_octets_of(ip);
    lemma_made_of_octets(four[0], four[1], four[2], four[3]);
}

/// The address of a peer shows the octets of its address, from the highest to the lowest with a dot
/// between them, and behind a colon its port.
pub proof fn law_peer_text_shows_octets_and_port(a: u8, b: u8, c: u8, d: u8, port: u16)
    ensures
        ({
            let ip = a * 0x100_0000 + b * 0x1_0000 + c * 0x100 + d;
            peer_text(ip as nat, port as nat) == text::decimal(a as nat) + seq!['.']
                + text::decimal(b as nat) + seq!['.'] + text::decimal(c as nat) + seq!['.']
                + text::decimal(d as nat) + seq![':'] + text::decimal(port as nat)
        }),
{
    lemma_made_of_octets(a, b, c, d);
}

/// What is left to send are the bytes behind those that were sent, in their order, and what was
/// sent are the bytes before them.
pub proof fn law_write_goes_on_where_it_stopped(future: WriteFuture<'_>, i: int)
    requires
        future.written <= future.data@.len(),
    ensures
        future.wf(),
        future.sent().len() == future.written,
        future.rest().len() == future.data@.len() - future.written,
        0 <= i < future.written ==> future.sent()[i] == future.data@[i],
        0 <= i < future.rest().len() ==> future.rest()[i] == future.data@[future.written + i],
{
}

} // verus!
