//! The scout receiver's decisions: classifying received frames, gathering
//! the batch of responding addresses, the sanity-probe logic that detects
//! upstream rate limiting, and the quiet-period shutdown.

use vstd::prelude::*;
use crate::ip::{spec_ip_from_octets, spec_parse_ip};
use vstd::utf8::encode_utf8;
use crate::scout_frame::{spec_classify, validate_response, validate_sanity_reply};

verus! {

/// Timeouts the receiver waits through for a sanity reply before sending a
/// fresh probe.
pub const SANITY_RETRIES: u32 = 5;

/// What the receiver saw in one read.
pub enum ReceiverEvent {
    /// A frame arrived.
    Packet(Vec<u8>),
    /// The read timed out.
    Timeout,
}

/// What the surrounding thread must do after one step.
#[derive(Clone, Copy, PartialEq, Eq, Structural, Debug)]
pub enum ReceiverAction {
    /// Read the next frame.
    Continue,
    /// Send a SYN to the known-responsive address's web port, then read on.
    SendSanityProbe,
    /// Sleep the sanity backoff, then read on.
    SleepBackoff,
    /// The quiet period after the stop signal has elapsed: terminate.
    Stop,
    /// Stopping: this many seconds of quiet remain before termination.
    WaitRemaining(u64),
}

/// The receiver's state between reads.
pub struct ReceiverState {
    /// A sanity probe is out and its reply has not arrived yet.
    pub awaiting_sanity: bool,
    /// Timeouts waited through since the sanity probe went out.
    pub sanity_count: u32,
    /// When the last classifiable frame arrived.
    pub last_packet_time: u64,
    /// Frames that answered with SYN/ACK.
    pub valid_count: u64,
    /// Frames from the right port that answered otherwise.
    pub invalid_count: u64,
    /// The responding addresses of the current batch.
    pub batch: Vec<u32>,
}

/// A saturating counter step.
pub open spec fn spec_inc_sat(v: u64) -> u64 {
    if v == u64::MAX {
        v
    } else {
        (v + 1) as u64
    }
}

impl ReceiverState {
    /// A fresh receiver, started at time `now`.
    pub fn new(now: u64) -> (r: Self)
        ensures
            r.awaiting_sanity == false,
            r.sanity_count == 0,
            r.last_packet_time == now,
            r.valid_count == 0,
            r.invalid_count == 0,
            r.batch@ == Seq::<u32>::empty(),
    {
        ReceiverState {
            awaiting_sanity: false,
            sanity_count: 0,
            last_packet_time: now,
            valid_count: 0,
            invalid_count: 0,
            batch: Vec::new(),
        }
    }

    /// Hands the gathered batch to the uploader and clears it.
    pub fn take_batch(&mut self) -> (r: Vec<u32>)
        ensures
            r@ == old(self).batch@,
            final(self).batch@ == Seq::<u32>::empty(),
            final(self).awaiting_sanity == old(self).awaiting_sanity,
            final(self).sanity_count == old(self).sanity_count,
            final(self).last_packet_time == old(self).last_packet_time,
            final(self).valid_count == old(self).valid_count,
            final(self).invalid_count == old(self).invalid_count,
    {
        let mut out: Vec<u32> = Vec::new();
        core::mem::swap(&mut out, &mut self.batch);
        out
    }

    /// One receiver step. An awaited sanity reply is consumed without being
    /// counted. A SYN/ACK from the probed port joins the batch and both it
    /// and any other answer from that port refresh the quiet timer. On a
    /// timeout before the stop signal, the receiver backs off while a
    /// sanity probe is pending and sends one otherwise; after the stop
    /// signal it terminates once the quiet period has fully elapsed.
    pub fn step(
        &mut self,
        event: ReceiverEvent,
        stop_signal: bool,
        now: u64,
        port: u16,
        receive_timeout: u64,
    ) -> (r: ReceiverAction)
        requires
            old(self).last_packet_time + receive_timeout <= u64::MAX,
        ensures
            match event {
                ReceiverEvent::Packet(p) => {
                    &&& r == ReceiverAction::Continue
                    &&& (if old(self).awaiting_sanity && spec_classify(p@, 80) == Some(
                        (spec_ip_from_octets(1, 1, 1, 1), true),
                    ) {
                        *final(self) == (ReceiverState { awaiting_sanity: false, ..*old(self) })
                    } else {
                        match spec_classify(p@, port) {
                            Some((ip, true)) => *final(self) == (ReceiverState {
                                batch: final(self).batch,
                                valid_count: spec_inc_sat(old(self).valid_count),
                                last_packet_time: now,
                                ..*old(self)
                            }) && final(self).batch@ == old(self).batch@.push(ip),
                            Some((ip, false)) => *final(self) == (ReceiverState {
                                invalid_count: spec_inc_sat(old(self).invalid_count),
                                last_packet_time: now,
                                ..*old(self)
                            }),
                            None => *final(self) == *old(self),
                        }
                    })
                },
                ReceiverEvent::Timeout => {
                    if !stop_signal {
                        if old(self).awaiting_sanity && old(self).sanity_count < SANITY_RETRIES {
                            &&& r == ReceiverAction::SleepBackoff
                            &&& *final(self) == (ReceiverState {
                                sanity_count: (old(self).sanity_count + 1) as u32,
                                ..*old(self)
                            })
                        } else {
                            &&& r == ReceiverAction::SendSanityProbe
                            &&& *final(self) == (ReceiverState {
                                awaiting_sanity: true,
                                sanity_count: 0,
                                ..*old(self)
                            })
                        }
                    } else {
                        &&& *final(self) == *old(self)
                        &&& (if now > old(self).last_packet_time + receive_timeout {
                            r == ReceiverAction::Stop
                        } else {
                            r == ReceiverAction::WaitRemaining(
                                (old(self).last_packet_time + receive_timeout - now) as u64,
                            )
                        })
                    }
                },
            },
    {
        match event {
            ReceiverEvent::Packet(p) => {
                if self.awaiting_sanity && validate_sanity_reply(p.as_slice()) {
                    self.awaiting_sanity = false;
                    return ReceiverAction::Continue;
                }
                match validate_response(p.as_slice(), port) {
                    Some((ip, syn_ack)) => {
                        self.last_packet_time = now;
                        if syn_ack {
                            self.batch.push(ip);
                            if self.valid_count < u64::MAX {
                                self.valid_count = self.valid_count + 1;
                            }
                        } else {
                            if self.invalid_count < u64::MAX {
                                self.invalid_count = self.invalid_count + 1;
                            }
                        }
                    },
                    None => {},
                }
                ReceiverAction::Continue
            },
            ReceiverEvent::Timeout => {
                if !stop_signal {
                    if self.awaiting_sanity && self.sanity_count < SANITY_RETRIES {
                        self.sanity_count = self.sanity_count + 1;
                        ReceiverAction::SleepBackoff
                    } else {
                        self.sanity_count = 0;
                        self.awaiting_sanity = true;
                        ReceiverAction::SendSanityProbe
                    }
                } else {
                    let deadline = self.last_packet_time + receive_timeout;
                    if now > deadline {
                        ReceiverAction::Stop
                    } else {
                        ReceiverAction::WaitRemaining(deadline - now)
                    }
                }
            },
        }
    }
}

/// Reads the fields of a fetched scout job: the job id is truncated to 32
/// bits as issued, and every address must be a dotted quad. Succeeds
/// exactly when both fields are present and every address parses.
pub fn parse_scout_job(id: Option<u64>, ips: Option<Vec<String>>) -> (r: Option<(u32, Vec<u32>)>)
    ensures
        match r {
            Some((job_id, parsed)) => {
                &&& id matches Some(raw) && job_id == raw as u32
                &&& ips matches Some(texts) && (parsed@.len() == texts@.len() && (forall|j: int|
                    0 <= j < texts@.len() ==> spec_parse_ip(
                        encode_utf8(#[trigger] texts@[j]@),
                    ) == Some(parsed@[j])))
            },
            None => id is None || ips is None || (exists|j: int|
                0 <= j < ips.unwrap()@.len() && spec_parse_ip(
                    encode_utf8(#[trigger] ips.unwrap()@[j]@),
                ) is None),
        },
{
    let raw = match id {
        Some(v) => v,
        None => {
            return None;
        },
    };
    let texts = match ips {
        Some(v) => v,
        None => {
            return None;
        },
    };
    let mut parsed: Vec<u32> = Vec::new();
    let mut i: usize = 0;
    while i < texts.len()
        invariant
            ips == Some(texts),
            parsed@.len() == i,
            i <= texts@.len(),
            forall|j: int|
                0 <= j < i ==> spec_parse_ip(encode_utf8(#[trigger] texts@[j]@)) == Some(
                    parsed@[j],
                ),
        decreases texts@.len() - i,
    {
        match crate::ip::parse_ipv4((&texts[i]).as_str()) {
            Some(ip) => {
                parsed.push(ip);
            },
            None => {
                proof {
                    assert(spec_parse_ip(encode_utf8(ips.unwrap()@[i as int]@)) is None);
                }
                return None;
            },
        }
        i = i + 1;
    }
    Some((#[verifier::truncate] (raw as u32), parsed))
}

} // verus!
