//! ICMP echo: building requests, reading replies, and judging what was heard.
use vstd::prelude::*;
use vstd::string::StringSliceAdditionalSpecFns;

verus! {

/// An IP address, as the number that its octets spell.
#[derive(Clone, Copy, PartialEq, Eq, Structural, Debug)]
pub enum Ip {
    V4(u32),
    V6(u128),
}

/// A time as the kernel gives it: seconds and microseconds.
#[derive(Clone, Copy, PartialEq, Eq, Structural, Debug)]
pub struct TimeVal {
    pub sec: i64,
    pub usec: i64,
}

// ---- identifiers -----------------------------------------------------------

/// The identifier of the `count`-th echo socket of the process `pid`.
pub open spec fn ident_view(pid: u32, count: u16) -> int {
    (pid + count) % 0x1_0000
}

/// The identifier of the `count`-th echo socket of the process `pid`. Replies are delivered by
/// identifier, so no two sockets may share one.
pub fn next_ident(pid: u32, count: u16) -> (r: u16)
    ensures
        r == ident_view(pid, count),
{
    let low: u32 = pid % 0x1_0000;
    ((low + count as u32) % 0x1_0000) as u16
}

/// Two sockets of one process have the same identifier only if they are the same in the count.
pub proof fn idents_are_distinct(pid: u32, a: u16, b: u16)
    ensures
        ident_view(pid, a) == ident_view(pid, b) <==> a == b,
{
}

// ---- the checksum ----------------------------------------------------------

/// The sum of the big-endian 16-bit words of `data`, an odd last byte being a high byte.
pub open spec fn word_sum(data: Seq<u8>) -> nat
    decreases data.len(),
{
    if data.len() == 0 {
        0
    } else if data.len() == 1 {
        data[0] as nat * 256
    } else {
        data[0] as nat * 256 + data[1] as nat + word_sum(data.skip(2))
    }
}

/// The ones'-complement form of a sum: its residue modulo 65535, written 65535 and not 0 for a
/// sum that is not zero.
pub open spec fn folded(sum: nat) -> nat {
    if sum == 0 {
        0
    } else {
        ((sum - 1) % 65535 + 1) as nat
    }
}

/// The internet checksum: the complement of the ones'-complement sum of the words.
pub open spec fn checksum_view(data: Seq<u8>) -> nat {
    (65535 - folded(word_sum(data))) as nat
}

/// The internet checksum of a packet.
pub fn checksum(data: &[u8]) -> (r: u16)
    requires
        word_sum(data@) <= u32::MAX,
    ensures
        r == checksum_view(data@),
{
    let mut sum: u32 = 0;
    let mut i: usize = 0;
    assert(data@.skip(0) =~= data@);
    while data.len() - i > 1
        invariant
            i <= data@.len(),
            word_sum(data@) <= u32::MAX,
            sum + word_sum(data@.skip(i as int)) == word_sum(data@),
        decreases data@.len() - i,
    {
        proof {
            let rest = data@.skip(i as int);
            assert(rest[0] == data@[i as int]);
            assert(rest[1] == data@[i + 1]);
            assert(rest.skip(2) =~= data@.skip(i + 2));
        }
        sum = sum + (data[i] as u32 * 256 + data[i + 1] as u32);
        i = i + 2;
    }
    if i < data.len() {
        assert(data@.skip(i as int)[0] == data@[i as int]);
        sum = sum + data[i] as u32 * 256;
    }
    while sum >= 0x1_0000
        invariant
            folded(sum as nat) == folded(word_sum(data@)),
        decreases sum,
    {
        proof {
            let low = sum % 0x1_0000;
            let high = sum / 0x1_0000;
            assert(sum == high * 0x1_0000 + low);
            assert((high * 0x1_0000 + low - 1) % 65535 == (low + high - 1) % 65535);
        }
        sum = sum % 0x1_0000 + sum / 0x1_0000;
    }
    proof {
        if sum > 0 {
            assert((sum - 1) % 65535 + 1 == sum);
        }
    }
    (65535 - sum) as u16
}

// ---- requests and replies --------------------------------------------------

/// What every request carries.
pub open spec fn payload() -> Seq<u8> {
    Seq::new("speed-daemon-probe"@.len(), |i: int| "speed-daemon-probe"@[i] as u8)
}

/// An echo packet of this type with this checksum.
pub open spec fn echo_packet(typ: u8, sum: nat, ident: u16, seq: u16) -> Seq<u8> {
    seq![
        typ,
        0u8,
        (sum / 256) as u8,
        (sum % 256) as u8,
        (ident / 256) as u8,
        (ident % 256) as u8,
        (seq / 256) as u8,
        (seq % 256) as u8,
    ] + payload()
}

/// An echo request. An ICMPv4 one (type 8) carries its checksum, computed with the checksum field
/// zero; for an ICMPv6 one (type 128) the kernel fills it in.
pub open spec fn echo_view(v6: bool, ident: u16, seq: u16) -> Seq<u8> {
    if v6 {
        echo_packet(128, 0, ident, seq)
    } else {
        echo_packet(8, checksum_view(echo_packet(8, 0, ident, seq)), ident, seq)
    }
}

proof fn lemma_payload()
    ensures
        payload().len() == 18,
        payload() == "speed-daemon-probe".spec_bytes(),
{
    reveal_strlit("speed-daemon-probe");
    let s = "speed-daemon-probe";
    assert(vstd::utf8::is_ascii_chars(s@));
    assert(vstd::string::is_ascii(s));
    vstd::string::is_ascii_spec_bytes(s);
    assert(s.spec_bytes() =~= payload());
}

proof fn lemma_word_sum_bound(data: Seq<u8>)
    ensures
        word_sum(data) <= 65535 * ((data.len() + 1) / 2),
    decreases data.len(),
{
    if data.len() >= 2 {
        lemma_word_sum_bound(data.skip(2));
    }
}

/// An echo request.
pub fn build_echo(v6: bool, ident: u16, seq: u16) -> (r: Vec<u8>)
    ensures
        r@ == echo_view(v6, ident, seq),
{
    let typ: u8 = if v6 {
        128
    } else {
        8
    };
    let mut pkt: Vec<u8> = vec![
        typ,
        0,
        0,
        0,
        (ident / 256) as u8,
        (ident % 256) as u8,
        (seq / 256) as u8,
        (seq % 256) as u8,
    ];
    proof {
        lemma_payload();
    }
    let body = "speed-daemon-probe".as_bytes();
    for i in 0..body.len()
        invariant
            body@ == payload(),
            i <= body@.len(),
            pkt@ == echo_packet(typ, 0, ident, seq).take(8 + i),
            payload().len() == 18,
    {
        pkt.push(body[i]);
        assert(echo_packet(typ, 0, ident, seq).take(8 + i + 1) =~= echo_packet(
            typ,
            0,
            ident,
            seq,
        ).take(8 + i).push(body@[i as int]));
    }
    assert(pkt@ =~= echo_packet(typ, 0, ident, seq));
    if !v6 {
        proof {
            lemma_word_sum_bound(pkt@);
        }
        let c = checksum(pkt.as_slice());
        pkt.set(2, (c / 256) as u8);
        pkt.set(3, (c % 256) as u8);
        assert(pkt@ =~= echo_view(v6, ident, seq));
    }
    pkt
}

/// Where the ICMP message starts: behind an IPv4 header where the packet begins with one.
pub open spec fn message_offset(buf: Seq<u8>) -> int {
    if buf.len() > 0 && buf[0] / 16 == 4 {
        (buf[0] % 16) * 4
    } else {
        0
    }
}

/// The sequence number of an echo reply (ICMPv4 type 0, ICMPv6 type 129), whether or not an IPv4
/// header stands before it.
pub open spec fn reply_seq_view(buf: Seq<u8>) -> Option<u16> {
    let off = message_offset(buf);
    if off + 8 <= buf.len() && (buf[off] == 0 || buf[off] == 129) {
        Some((buf[off + 6] * 256 + buf[off + 7]) as u16)
    } else {
        None
    }
}

/// The sequence number of an echo reply.
pub fn reply_seq(buf: &[u8]) -> (r: Option<u16>)
    ensures
        r == reply_seq_view(buf@),
{
    let mut off: usize = 0;
    if buf.len() > 0 && buf[0] / 16 == 4 {
        off = (buf[0] % 16) as usize * 4;
    }
    if buf.len() < off || buf.len() - off < 8 {
        return None;
    }
    if buf[off] == 0 || buf[off] == 129 {
        Some(buf[off + 6] as u16 * 256 + buf[off + 7] as u16)
    } else {
        None
    }
}

proof fn lemma_word_sum_fields(a: Seq<u8>, b: Seq<u8>)
    requires
        a.len() == b.len() >= 4,
        a[0] == b[0],
        a[1] == b[1],
        b[2] == 0,
        b[3] == 0,
        a.skip(4) == b.skip(4),
    ensures
        word_sum(a) == word_sum(b) + a[2] as nat * 256 + a[3] as nat,
{
    assert(a.skip(2).skip(2) =~= a.skip(4));
    assert(b.skip(2).skip(2) =~= b.skip(4));
    assert(a.skip(2)[0] == a[2] && a.skip(2)[1] == a[3]);
    assert(b.skip(2)[0] == b[2] && b.skip(2)[1] == b[3]);
    assert(word_sum(a) == a[0] as nat * 256 + a[1] as nat + word_sum(a.skip(2)));
    assert(word_sum(a.skip(2)) == a[2] as nat * 256 + a[3] as nat + word_sum(a.skip(4)));
    assert(word_sum(b) == b[0] as nat * 256 + b[1] as nat + word_sum(b.skip(2)));
    assert(word_sum(b.skip(2)) == word_sum(b.skip(4)));
}

/// A receiver that checks an ICMPv4 request finds its checksum right: over the whole packet it
/// comes out as zero.
pub proof fn request_checksum_verifies(ident: u16, seq: u16)
    ensures
        checksum_view(echo_view(false, ident, seq)) == 0,
{
    let bare = echo_packet(8, 0, ident, seq);
    let full = echo_view(false, ident, seq);
    let c = checksum_view(bare);
    lemma_payload();
    assert(full.skip(4) =~= bare.skip(4));
    lemma_word_sum_fields(full, bare);
    assert(full[2] as nat * 256 + full[3] as nat == c);
    let w = word_sum(bare);
    assert(w > 0) by {
        assert(bare[0] == 8);
    }
    assert((w + (65535 - ((w - 1) % 65535 + 1)) - 1) % 65535 == 65534);
}

/// What a host answers to an echo request: the same message with the type of a reply, and some
/// checksum.
pub open spec fn reply_to(v6: bool, ident: u16, seq: u16, sum: nat) -> Seq<u8> {
    echo_packet(
        if v6 {
            129
        } else {
            0
        },
        sum,
        ident,
        seq,
    )
}

/// The sequence number of a request is read back from the reply to it, with or without the IPv4
/// header that some systems deliver before it; a request is never taken for a reply.
pub proof fn reply_carries_the_sequence(
    v6: bool,
    ident: u16,
    seq: u16,
    sum: nat,
    header: Seq<u8>,
)
    requires
        header.len() > 0 ==> header[0] / 16 == 4 && header.len() == (header[0] % 16) * 4,
    ensures
        reply_seq_view(header + reply_to(v6, ident, seq, sum)) == Some(seq),
        reply_seq_view(header + echo_view(v6, ident, seq)) is None,
{
    lemma_payload();
    let r = header + reply_to(v6, ident, seq, sum);
    let q = header + echo_view(v6, ident, seq);
    let n = header.len() as int;
    assert(r[n] == reply_to(v6, ident, seq, sum)[0]);
    assert(r[n + 6] == reply_to(v6, ident, seq, sum)[6]);
    assert(r[n + 7] == reply_to(v6, ident, seq, sum)[7]);
    assert(q[n] == echo_view(v6, ident, seq)[0]);
    if n > 0 {
        assert(r[0] == header[0]);
        assert(q[0] == header[0]);
    }
    assert(message_offset(r) == n);
    assert(message_offset(q) == n);
}

// ---- hearing a reply -------------------------------------------------------

/// An echo reply as it was received.
#[derive(Clone, Copy, PartialEq, Eq, Structural, Debug)]
pub struct Reply {
    pub seq: u16,
    /// When it arrived.
    pub at: TimeVal,
    /// Whether the kernel took that time.
    pub from_kernel: bool,
    pub src: Ip,
}

/// What a received packet is: an echo reply, with the kernel's arrival time where there is one
/// and `now` otherwise, from `0.0.0.0` where the sender is not known; or nothing of interest.
pub fn received(buf: &[u8], stamp: Option<TimeVal>, now: TimeVal, src: Option<Ip>) -> (r: Option<
    Reply,
>)
    ensures
        r == (match reply_seq_view(buf@) {
            Some(seq) => Some(
                Reply {
                    seq,
                    at: match stamp {
                        Some(t) => t,
                        None => now,
                    },
                    from_kernel: stamp is Some,
                    src: match src {
                        Some(ip) => ip,
                        None => Ip::V4(0),
                    },
                },
            ),
            None => None,
        }),
        r matches Some(reply) ==> {
            &&& reply_seq_view(buf@) == Some(reply.seq)
            &&& stamp matches Some(t) ==> reply.at == t && reply.from_kernel
            &&& stamp is None ==> reply.at == now && !reply.from_kernel
            &&& src matches Some(ip) ==> reply.src == ip
        },
{
    let src = match src {
        Some(ip) => ip,
        None => Ip::V4(0),
    };
    match reply_seq(buf) {
        Some(seq) => match stamp {
            Some(at) => Some(Reply { seq, at, from_kernel: true, src }),
            None => Some(Reply { seq, at: now, from_kernel: false, src }),
        },
        None => None,
    }
}

/// The microseconds from `send` to `recv`, and none where the clock went back between them.
pub open spec fn delta_view(send: TimeVal, recv: TimeVal) -> int {
    let us = (recv.sec - send.sec) * 1_000_000 + (recv.usec - send.usec);
    if us > 0 {
        us
    } else {
        0
    }
}

/// The microseconds from `send` to `recv`, and none where the clock went back between them.
pub fn delta_us(send: TimeVal, recv: TimeVal) -> (r: u128)
    ensures
        r == delta_view(send, recv),
{
    let us: i128 = (recv.sec as i128 - send.sec as i128) * 1_000_000 + (recv.usec as i128
        - send.usec as i128);
    if us > 0 {
        us as u128
    } else {
        0
    }
}

/// What can happen while a ping waits for its reply.
#[derive(Clone, Copy, PartialEq, Eq, Structural, Debug)]
pub enum PingEvent {
    /// The request could not be sent.
    SendFailed,
    /// No time is left.
    TimeUp,
    /// The remaining time could not be set on the socket.
    TimerFailed,
    /// Receiving failed, or timed out.
    ReceiveFailed,
    /// Nothing was there after all.
    NothingYet,
    /// A packet came in: an echo reply, or another.
    Packet(Option<Reply>),
}

/// What a ping does next.
#[derive(Clone, Copy, PartialEq, Eq, Structural, Debug)]
pub enum Verdict {
    /// Go on waiting.
    Wait,
    /// Give up: the probe counts as lost.
    Lost,
    /// The reply is here, after so many microseconds.
    Rtt(u128),
}

/// A ping that has been sent.
#[derive(Clone, Copy, PartialEq, Eq, Structural, Debug)]
pub struct Ping {
    pub seq: u16,
    pub send: TimeVal,
    /// The address that the reply must come from, where that is checked.
    pub from: Option<Ip>,
}

/// What a ping does upon an event. Only a reply with its sequence number ends the wait well. A
/// ping that knows where its reply must come from takes it from there only, and takes none that
/// arrived no later than it was sent: an unconnected socket also hears the replies that are meant
/// for other targets.
pub open spec fn verdict(p: Ping, e: PingEvent) -> Verdict {
    match e {
        PingEvent::Packet(Some(r)) => if r.seq != p.seq {
            Verdict::Wait
        } else {
            let us = delta_view(p.send, r.at);
            match p.from {
                Some(ip) => if r.src == ip && us > 0 {
                    Verdict::Rtt(us as u128)
                } else {
                    Verdict::Wait
                },
                None => Verdict::Rtt(us as u128),
            }
        },
        PingEvent::Packet(None) => Verdict::Wait,
        PingEvent::NothingYet => Verdict::Wait,
        _ => Verdict::Lost,
    }
}

impl Ping {
    /// What to do upon an event.
    pub fn hear(&self, e: PingEvent) -> (r: Verdict)
        ensures
            r == verdict(*self, e),
    {
        match e {
            PingEvent::Packet(Some(r)) => {
                if r.seq != self.seq {
                    return Verdict::Wait;
                }
                let us = delta_us(self.send, r.at);
                match self.from {
                    Some(ip) => if r.src == ip && us > 0 {
                        Verdict::Rtt(us)
                    } else {
                        Verdict::Wait
                    },
                    None => Verdict::Rtt(us),
                }
            },
            PingEvent::Packet(None) => Verdict::Wait,
            PingEvent::NothingYet => Verdict::Wait,
            _ => Verdict::Lost,
        }
    }
}

/// A ping that knows where its reply must come from reports only a reply from there, with its
/// own sequence number, after more than no time.
pub proof fn only_the_own_reply_counts(p: Ping, ip: Ip, e: PingEvent, us: u128)
    requires
        p.from == Some(ip),
        verdict(p, e) == Verdict::Rtt(us),
    ensures
        us > 0,
        e matches PingEvent::Packet(Some(r)) && r.seq == p.seq && r.src == ip && us == delta_view(
            p.send,
            r.at,
        ),
{
    if let PingEvent::Packet(Some(r)) = e {
        assert(delta_view(p.send, r.at) <= u128::MAX);
    }
}

/// The own reply always counts: one with the ping's sequence number, from the address that the ping
/// expects or from any where none is expected, that arrived later than the ping was sent, ends the
/// wait with exactly the microseconds between the two times.
pub proof fn own_reply_always_counts(p: Ping, r: Reply)
    requires
        r.seq == p.seq,
        p.from matches Some(ip) ==> ip == r.src,
        r.at.sec * 1_000_000 + r.at.usec > p.send.sec * 1_000_000 + p.send.usec,
    ensures
        verdict(p, PingEvent::Packet(Some(r))) matches Verdict::Rtt(us) && us == (r.at.sec
            * 1_000_000 + r.at.usec) - (p.send.sec * 1_000_000 + p.send.usec),
{
}

/// Every other packet is passed over, and a ping without an address to expect takes a reply that
/// arrived no later than it was sent for one that took no time.
pub proof fn other_packets_are_passed_over(p: Ping, r: Reply)
    ensures
        verdict(p, PingEvent::Packet(None)) is Wait,
        verdict(p, PingEvent::NothingYet) is Wait,
        r.seq != p.seq ==> verdict(p, PingEvent::Packet(Some(r))) is Wait,
        p.from matches Some(ip) && ip != r.src ==> verdict(p, PingEvent::Packet(Some(r))) is Wait,
        r.at.sec * 1_000_000 + r.at.usec <= p.send.sec * 1_000_000 + p.send.usec && r.seq == p.seq
            ==> verdict(p, PingEvent::Packet(Some(r))) == if p.from is Some {
            Verdict::Wait
        } else {
            Verdict::Rtt(0)
        },
{
}

/// A ping is lost when it cannot be sent, when its time is up, and when its socket fails, whatever
/// it waits for.
pub proof fn failures_are_losses(p: Ping)
    ensures
        verdict(p, PingEvent::SendFailed) is Lost,
        verdict(p, PingEvent::TimeUp) is Lost,
        verdict(p, PingEvent::TimerFailed) is Lost,
        verdict(p, PingEvent::ReceiveFailed) is Lost,
{
}

/// The next socket of a process has the next identifier, and the first has the low half of the
/// process id.
pub proof fn idents_count_up_from_the_process(pid: u32, count: u16)
    ensures
        ident_view(pid, 0) == pid % 0x1_0000,
        count < 0xffff ==> ident_view(pid, (count + 1) as u16) == (ident_view(pid, count) + 1)
            % 0x1_0000,
{
}

/// Data of even length with its own checksum behind it, high byte first, sums up to nothing.
pub proof fn checksummed_data_verifies(data: Seq<u8>, high: u8, low: u8)
    requires
        data.len() % 2 == 0,
        high as nat * 256 + low as nat == checksum_view(data),
    ensures
        checksum_view(data + seq![high, low]) == 0,
{
    lemma_word_sum_append(data, high, low);
    let w = word_sum(data);
    if w > 0 {
        assert((w + (65535 - ((w - 1) % 65535 + 1)) - 1) % 65535 == 65534);
    }
}

/// A word behind data of even length is added to its sum.
proof fn lemma_word_sum_append(data: Seq<u8>, high: u8, low: u8)
    requires
        data.len() % 2 == 0,
    ensures
        word_sum(data + seq![high, low]) == word_sum(data) + high as nat * 256 + low as nat,
    decreases data.len(),
{
    let all = data + seq![high, low];
    if data.len() == 0 {
        assert(all =~= seq![high, low]);
        assert(word_sum(all.skip(2)) == 0);
    } else {
        lemma_word_sum_append(data.skip(2), high, low);
        assert(all.skip(2) =~= data.skip(2) + seq![high, low]);
        assert(all[0] == data[0] && all[1] == data[1]);
    }
}

/// A padding byte of zero behind data of odd length leaves its checksum as it is.
pub proof fn odd_data_is_padded(data: Seq<u8>)
    requires
        data.len() % 2 == 1,
    ensures
        checksum_view(data.push(0)) == checksum_view(data),
{
    lemma_padded(data);
}

/// A padding byte of zero adds nothing.
proof fn lemma_padded(data: Seq<u8>)
    requires
        data.len() % 2 == 1,
    ensures
        word_sum(data.push(0)) == word_sum(data),
    decreases data.len(),
{
    let all = data.push(0);
    assert(all[0] == data[0]);
    if data.len() == 1 {
        assert(word_sum(all.skip(2)) == 0);
    } else {
        lemma_padded(data.skip(2));
        assert(all.skip(2) =~= data.skip(2).push(0));
        assert(all[1] == data[1]);
    }
}

/// A request is 26 bytes: the type of its family, code zero, the identifier and the sequence number
/// with their high bytes first, and the text that every request carries.
pub proof fn requests_are_laid_out(v6: bool, ident: u16, seq: u16)
    ensures
        ({
            let p = echo_view(v6, ident, seq);
            &&& p.len() == 26
            &&& p[0] == if v6 {
                128u8
            } else {
                8u8
            }
            &&& p[1] == 0
            &&& p[4] as int * 256 + p[5] as int == ident
            &&& p[6] as int * 256 + p[7] as int == seq
            &&& p.skip(8) == "speed-daemon-probe".spec_bytes()
            &&& v6 ==> p[2] == 0 && p[3] == 0
        }),
{
    lemma_payload();
    let p = echo_view(v6, ident, seq);
    assert(p.skip(8) =~= payload());
}

/// A packet is an echo reply exactly where an ICMP message of at least eight bytes, of one of the
/// two reply types, stands at its front or behind an IPv4 header; the sequence number is its last
/// two header bytes, high byte first.
pub proof fn replies_are_recognised(header: Seq<u8>, message: Seq<u8>)
    requires
        header.len() > 0 ==> header[0] / 16 == 4 && header.len() == (header[0] % 16) * 4,
        header.len() == 0 && message.len() > 0 ==> message[0] / 16 != 4,
    ensures
        reply_seq_view(header + message) is Some <==> message.len() >= 8 && (message[0] == 0
            || message[0] == 129),
        reply_seq_view(header + message) matches Some(seq) ==> seq == message[6] as int * 256
            + message[7] as int,
{
    let all = header + message;
    let n = header.len() as int;
    if n > 0 {
        assert(all[0] == header[0]);
    } else if message.len() > 0 {
        assert(all[0] == message[0]);
    }
    if message.len() > 0 {
        assert(all[n] == message[0]);
    }
    if message.len() >= 8 {
        assert(all[n + 6] == message[6] && all[n + 7] == message[7]);
    }
}

/// A packet that ends before its ICMP message has its eight header bytes is no echo reply, and
/// neither is one whose IPv4 header claims to be empty.
pub proof fn cut_packets_are_no_replies(buf: Seq<u8>)
    ensures
        buf.len() < 8 ==> reply_seq_view(buf) is None,
        buf.len() > 0 && buf[0] / 16 == 4 && buf.len() < (buf[0] % 16) * 4 + 8 ==> reply_seq_view(
            buf,
        ) is None,
        buf.len() > 0 && buf[0] / 16 == 4 && buf[0] % 16 == 0 ==> reply_seq_view(buf) is None,
{
}

} // verus!
