//! Two programs that talk to the gateway: one looks for the answer again and again, the
//! other parks until a frame comes.

use vstd::prelude::*;
use crate::programs::frames;

verus! {

/// The exit code of a run in which everything was as it should be.
pub const OK_CODE: i32 = 0x42;

/// How often the strand that watches is resumed.
pub const WITNESS_STEPS: u32 = 4;

/// How often the receiver parks before it gives up.
pub const MAX_PARKS: u64 = 8;

/// How long the last wait takes.
pub const IDLE_TIMEOUT_NS: u64 = 20_000_000;

/// How often the program that does not park looks.
pub const RX_RETRIES: u32 = 200_000;

/// Where a program is.
#[derive(Copy, Clone)]
pub enum NetAt {
    Start,
    /// The card's address has been asked for.
    AskedMac,
    /// What has come before is being thrown away.
    Draining { mac: [u8; 6] },
    /// The request for the gateway's address is being sent.
    SendingArp { mac: [u8; 6] },
    /// The answer is awaited, for the `parks + 1`st time.
    AwaitingArp { mac: [u8; 6], parks: u64 },
    /// The first segment is being sent.
    SendingSyn { parks: u64 },
    /// The answer is awaited, up to a limit.
    AwaitingSyn { parks: u64, budget: u64 },
    /// Nothing is awaited, up to a deadline.
    Idling { parks: u64 },
    Over,
}

/// What a program is told.
pub enum NetEvent {
    Begin,
    /// The card's address, if it has one.
    Mac(Option<[u8; 6]>),
    /// How many bytes were thrown away, if looking went well.
    Drained(Option<usize>),
    Sent(bool),
    /// What has come, if receiving went well: a frame, or nothing. And how often the
    /// receiver was woken, and the strand that watches resumed.
    Received { frame: Option<Vec<u8>>, wakeups: u64, witness: u32 },
}

/// What a program wants done.
pub enum NetAction {
    AskMac,
    /// Take what has come, and look again.
    Drain,
    /// Start the strand that watches, and send.
    WatchAndSend(Vec<u8>),
    Send(Vec<u8>),
    Receive,
    ReceiveUntil(u64),
    Exit(i32),
}

impl NetAt {
    pub open spec fn wf(self) -> bool {
        match self {
            NetAt::AwaitingArp { parks, .. } => parks < MAX_PARKS,
            NetAt::SendingSyn { parks } => parks <= MAX_PARKS,
            NetAt::AwaitingSyn { parks, budget } => parks < budget <= 2 * MAX_PARKS,
            NetAt::Idling { parks } => parks <= 2 * MAX_PARKS,
            _ => true,
        }
    }
}

/// The program ends with a code.
pub open spec fn ends(after: NetAt, a: NetAction, code: i32) -> bool {
    after == NetAt::Over && a == NetAction::Exit(code)
}

/// How the program that parks answers an event.
pub open spec fn net_answers(before: NetAt, e: NetEvent, after: NetAt, a: NetAction) -> bool {
    match before {
        NetAt::Start => a == NetAction::AskMac && after == NetAt::AskedMac,
        NetAt::AskedMac => match e {
            NetEvent::Mac(Some(mac)) => {
                &&& a == NetAction::Drain
                &&& after == (NetAt::Draining { mac })
            },
            _ => ends(after, a, 10),
        },
        NetAt::Draining { mac } => match e {
            NetEvent::Drained(Some(n)) => if n == 0 {
                &&& a is WatchAndSend
                &&& a->WatchAndSend_0@ == frames::arp_request(mac@)
                &&& after == (NetAt::SendingArp { mac })
            } else {
                a == NetAction::Drain && after == before
            },
            _ => ends(after, a, 11),
        },
        NetAt::SendingArp { mac } => if e == NetEvent::Sent(true) {
            &&& a == NetAction::Receive
            &&& after == (NetAt::AwaitingArp { mac, parks: 0 })
        } else {
            ends(after, a, 12)
        },
        NetAt::AwaitingArp { mac, parks } => match e {
            NetEvent::Received { frame: Some(f), wakeups, witness } => {
                if wakeups != parks + 1 {
                    ends(after, a, 14)
                } else if f@.len() == 0 {
                    ends(after, a, 15)
                } else if !frames::arp_reply(f@) {
                    if parks + 1 < MAX_PARKS {
                        &&& a == NetAction::Receive
                        &&& after == (NetAt::AwaitingArp { mac, parks: (parks + 1) as u64 })
                    } else {
                        ends(after, a, 17)
                    }
                } else if witness != WITNESS_STEPS {
                    ends(after, a, 16)
                } else {
                    &&& a is Send
                    &&& a->Send_0@ == frames::tcp_syn(mac@, f@.subrange(6, 12))
                    &&& after == (NetAt::SendingSyn { parks: (parks + 1) as u64 })
                }
            },
            _ => ends(after, a, 13),
        },
        NetAt::SendingSyn { parks } => if e == NetEvent::Sent(true) {
            &&& a == NetAction::Receive
            &&& after == (NetAt::AwaitingSyn { parks, budget: (parks + MAX_PARKS) as u64 })
        } else {
            ends(after, a, 18)
        },
        NetAt::AwaitingSyn { parks, budget } => match e {
            NetEvent::Received { frame: Some(f), wakeups, witness } => {
                if wakeups != parks + 1 {
                    ends(after, a, 20)
                } else if f@.len() == 0 {
                    ends(after, a, 21)
                } else if frames::tcp_answer(f@) {
                    &&& a == NetAction::ReceiveUntil(IDLE_TIMEOUT_NS)
                    &&& after == (NetAt::Idling { parks: (parks + 1) as u64 })
                } else if parks + 1 < budget {
                    &&& a == NetAction::Receive
                    &&& after == (NetAt::AwaitingSyn { parks: (parks + 1) as u64, budget })
                } else {
                    ends(after, a, 22)
                }
            },
            _ => ends(after, a, 19),
        },
        NetAt::Idling { parks } => match e {
            NetEvent::Received { frame: Some(f), wakeups, witness } => {
                if wakeups != parks + 1 {
                    ends(after, a, 24)
                } else if f@.len() != 0 {
                    ends(after, a, 25)
                } else {
                    ends(after, a, OK_CODE)
                }
            },
            _ => ends(after, a, 23),
        },
        NetAt::Over => ends(after, a, OK_CODE),
    }
}

fn exit(at: &mut NetAt, code: i32) -> (a: NetAction)
    ensures
        ends(*final(at), a, code),
{
    *at = NetAt::Over;
    NetAction::Exit(code)
}

fn sender_of(f: &Vec<u8>) -> (mac: [u8; 6])
    requires
        f@.len() >= 12,
    ensures
        mac@ == f@.subrange(6, 12),
{
    let mac: [u8; 6] = [f[6], f[7], f[8], f[9], f[10], f[11]];
    assert(mac@ =~= f@.subrange(6, 12));
    mac
}

/// One step of the program that parks.
pub fn run(at: &mut NetAt, e: NetEvent) -> (a: NetAction)
    requires
        old(at).wf(),
    ensures
        final(at).wf(),
        net_answers(*old(at), e, *final(at), a),
{
    match *at {
        NetAt::Start => {
            *at = NetAt::AskedMac;
            NetAction::AskMac
        },
        NetAt::AskedMac => match e {
            NetEvent::Mac(Some(mac)) => {
                *at = NetAt::Draining { mac };
                NetAction::Drain
            },
            _ => exit(at, 10),
        },
        NetAt::Draining { mac } => match e {
            NetEvent::Drained(Some(n)) => {
                if n == 0 {
                    *at = NetAt::SendingArp { mac };
                    NetAction::WatchAndSend(frames::build_arp_request(&mac))
                } else {
                    NetAction::Drain
                }
            },
            _ => exit(at, 11),
        },
        NetAt::SendingArp { mac } => match e {
            NetEvent::Sent(true) => {
                *at = NetAt::AwaitingArp { mac, parks: 0 };
                NetAction::Receive
            },
            _ => exit(at, 12),
        },
        NetAt::AwaitingArp { mac, parks } => match e {
            NetEvent::Received { frame: Some(f), wakeups, witness } => {
                if wakeups != parks + 1 {
                    return exit(at, 14);
                }
                if f.len() == 0 {
                    return exit(at, 15);
                }
                if !frames::is_gateway_arp_reply(f.as_slice()) {
                    if parks + 1 < MAX_PARKS {
                        *at = NetAt::AwaitingArp { mac, parks: parks + 1 };
                        return NetAction::Receive;
                    }
                    return exit(at, 17);
                }
                if witness != WITNESS_STEPS {
                    return exit(at, 16);
                }
                let gw_mac: [u8; 6] = sender_of(&f);
                *at = NetAt::SendingSyn { parks: parks + 1 };
                NetAction::Send(frames::build_tcp_syn(&mac, &gw_mac))
            },
            _ => exit(at, 13),
        },
        NetAt::SendingSyn { parks } => match e {
            NetEvent::Sent(true) => {
                *at = NetAt::AwaitingSyn { parks, budget: parks + MAX_PARKS };
                NetAction::Receive
            },
            _ => exit(at, 18),
        },
        NetAt::AwaitingSyn { parks, budget } => match e {
            NetEvent::Received { frame: Some(f), wakeups, witness } => {
                if wakeups != parks + 1 {
                    return exit(at, 20);
                }
                if f.len() == 0 {
                    return exit(at, 21);
                }
                if frames::is_gateway_tcp_answer(f.as_slice()) {
                    *at = NetAt::Idling { parks: parks + 1 };
                    return NetAction::ReceiveUntil(IDLE_TIMEOUT_NS);
                }
                if parks + 1 < budget {
                    *at = NetAt::AwaitingSyn { parks: parks + 1, budget };
                    return NetAction::Receive;
                }
                exit(at, 22)
            },
            _ => exit(at, 19),
        },
        NetAt::Idling { parks } => match e {
            NetEvent::Received { frame: Some(f), wakeups, witness } => {
                if wakeups != parks + 1 {
                    return exit(at, 24);
                }
                if f.len() != 0 {
                    return exit(at, 25);
                }
                exit(at, OK_CODE)
            },
            _ => exit(at, 23),
        },
        NetAt::Over => exit(at, OK_CODE),
    }
}

/// Where the program that does not park is.
#[derive(Copy, Clone)]
pub enum PollAt {
    Start,
    AskedMac,
    Sending,
    /// It has looked so many times.
    Looking { tries: u32 },
    Over,
}

/// How the program that does not park answers an event.
pub open spec fn poll_answers(before: PollAt, e: NetEvent, after: PollAt, a: NetAction) -> bool {
    match before {
        PollAt::Start => a == NetAction::AskMac && after == PollAt::AskedMac,
        PollAt::AskedMac => match e {
            NetEvent::Mac(Some(mac)) => {
                &&& a is Send
                &&& a->Send_0@ == frames::arp_request(mac@)
                &&& after == PollAt::Sending
            },
            _ => after == PollAt::Over && a == NetAction::Exit(10),
        },
        PollAt::Sending => if e == NetEvent::Sent(true) {
            a == NetAction::Receive && after == (PollAt::Looking { tries: 0 })
        } else {
            after == PollAt::Over && a == NetAction::Exit(11)
        },
        PollAt::Looking { tries } => match e {
            NetEvent::Received { frame: Some(f), wakeups, witness } => {
                if frames::arp_reply(f@) {
                    after == PollAt::Over && a == NetAction::Exit(OK_CODE)
                } else if tries + 1 < RX_RETRIES {
                    a == NetAction::Receive && after == (PollAt::Looking {
                        tries: (tries + 1) as u32,
                    })
                } else {
                    after == PollAt::Over && a == NetAction::Exit(13)
                }
            },
            _ => after == PollAt::Over && a == NetAction::Exit(12),
        },
        PollAt::Over => after == PollAt::Over && a == NetAction::Exit(OK_CODE),
    }
}

/// One step of the program that does not park.
pub fn poll_run(at: &mut PollAt, e: NetEvent) -> (a: NetAction)
    requires
        *old(at) matches PollAt::Looking { tries } ==> tries < RX_RETRIES,
    ensures
        *final(at) matches PollAt::Looking { tries } ==> tries < RX_RETRIES,
        poll_answers(*old(at), e, *final(at), a),
{
    match *at {
        PollAt::Start => {
            *at = PollAt::AskedMac;
            NetAction::AskMac
        },
        PollAt::AskedMac => match e {
            NetEvent::Mac(Some(mac)) => {
                *at = PollAt::Sending;
                NetAction::Send(frames::build_arp_request(&mac))
            },
            _ => {
                *at = PollAt::Over;
                NetAction::Exit(10)
            },
        },
        PollAt::Sending => match e {
            NetEvent::Sent(true) => {
                *at = PollAt::Looking { tries: 0 };
                NetAction::Receive
            },
            _ => {
                *at = PollAt::Over;
                NetAction::Exit(11)
            },
        },
        PollAt::Looking { tries } => match e {
            NetEvent::Received { frame: Some(f), wakeups, witness } => {
                if frames::is_gateway_arp_reply(f.as_slice()) {
                    *at = PollAt::Over;
                    NetAction::Exit(OK_CODE)
                } else if tries + 1 < RX_RETRIES {
                    *at = PollAt::Looking { tries: tries + 1 };
                    NetAction::Receive
                } else {
                    *at = PollAt::Over;
                    NetAction::Exit(13)
                }
            },
            _ => {
                *at = PollAt::Over;
                NetAction::Exit(12)
            },
        },
        PollAt::Over => NetAction::Exit(OK_CODE),
    }
}

/// The program that parks ends well only after it has been woken exactly once for every
/// frame that it waited for, the gateway has answered both times, the strand that watches
/// has run meanwhile, and the last wait has run out: each of its phases is reached only by
/// such an event.
pub proof fn law_success_needs_the_answers(before: NetAt, e: NetEvent, after: NetAt, a: NetAction)
    requires
        net_answers(before, e, after, a),
    ensures
        after is SendingSyn ==> before is AwaitingArp && e is Received && frames::arp_reply(
            e->frame->0@,
        ) && e->witness == WITNESS_STEPS && e->wakeups == after->SendingSyn_parks,
        after is Idling && !(before is Over) ==> before is AwaitingSyn && e is Received
            && frames::tcp_answer(e->frame->0@) && e->wakeups == after->Idling_parks,
        a == NetAction::Exit(OK_CODE) && !(before is Over) ==> before is Idling && e is Received
            && e->frame->0@.len() == 0 && e->wakeups == before->Idling_parks + 1,
{
}

/// Polling ends well only on the gateway's answer, and ends: each frame that is none is one
/// try more, and the tries run out.
pub proof fn law_polling_needs_the_answer(tries: u32, e: NetEvent, after: PollAt, a: NetAction)
    requires
        tries < RX_RETRIES,
        poll_answers(PollAt::Looking { tries }, e, after, a),
    ensures
        a == NetAction::Exit(OK_CODE) ==> e is Received && e->frame is Some && frames::arp_reply(
            (e->frame->0)@,
        ),
        e is Received && e->frame is Some && frames::arp_reply((e->frame->0)@) ==> a == NetAction::Exit(OK_CODE),
        after == (PollAt::Looking { tries: (tries + 1) as u32 }) || after == PollAt::Over,
        tries == RX_RETRIES - 1 ==> after == PollAt::Over,
{
}

} // verus!
