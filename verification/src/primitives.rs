//! The values that cross the boundary between guests and shared modules.

use crate::error::Error;
use crate::scale::compact_bytes;
use crate::wire::{all_fit, concat_wire, Wire};
use vstd::prelude::*;

verus! {

/// Names the shared module's counterpart on another guest.
pub type ParaId = u32;

/// A reading of a runtime's logical clock.
pub type Timestamp = u64;

/// A payload with the clock reading at which it was enqueued.
#[derive(Clone, Debug, PartialEq, Eq)]
pub struct TimestampedMsg {
    pub at: Timestamp,
    pub payload: Vec<u8>,
}

/// What a `TimestampedMsg` holds.
pub struct TimestampedMsgView {
    pub at: Timestamp,
    pub payload: Seq<u8>,
}

/// A timestamped message on its way to `recipient`.
#[derive(Clone, Debug, PartialEq, Eq)]
pub struct TargetedMsg {
    pub recipient: ParaId,
    pub msg: TimestampedMsg,
}

/// What a `TargetedMsg` holds.
pub struct TargetedMsgView {
    pub recipient: ParaId,
    pub msg: TimestampedMsgView,
}

/// What a guest asks of the logical clock.
#[derive(Clone, Debug, PartialEq, Eq)]
pub enum Req {
    /// Enqueue a message.
    Enqueue { recipient: ParaId, payload: Vec<u8> },
    /// Receive all timestamped messages.
    Poll,
    /// Send all enqueued messages.
    FanOut,
}

/// What a `Req` holds.
pub enum ReqView {
    Enqueue { recipient: ParaId, payload: Seq<u8> },
    Poll,
    FanOut,
}

/// The answer to `Req::Poll`: each sender with the messages that came from
/// it.
#[derive(Clone, Debug, PartialEq, Eq)]
pub struct Resp {
    pub inbound: Vec<(ParaId, Vec<TimestampedMsg>)>,
}

impl DeepView for TimestampedMsg {
    type V = TimestampedMsgView;

    open spec fn deep_view(&self) -> TimestampedMsgView {
        TimestampedMsgView { at: self.at, payload: self.payload@ }
    }
}

impl DeepView for TargetedMsg {
    type V = TargetedMsgView;

    open spec fn deep_view(&self) -> TargetedMsgView {
        TargetedMsgView { recipient: self.recipient, msg: self.msg.deep_view() }
    }
}

impl DeepView for Req {
    type V = ReqView;

    open spec fn deep_view(&self) -> ReqView {
        match *self {
            Req::Enqueue { recipient, payload } => ReqView::Enqueue {
                recipient,
                payload: payload@,
            },
            Req::Poll => ReqView::Poll,
            Req::FanOut => ReqView::FanOut,
        }
    }
}

/// A byte string as the encoding writes it: its length, then the bytes.
pub open spec fn bytes_wire(bytes: Seq<u8>) -> Seq<u8> {
    compact_bytes(bytes.len() as u32) + bytes
}

/// The deep view of a byte vector is its view.
pub proof fn lemma_bytes_deep_view(bytes: Vec<u8>)
    ensures
        bytes.deep_view() == bytes@,
{
}

/// Bytes are written as themselves.
pub proof fn lemma_concat_bytes(bytes: Seq<u8>)
    ensures
        concat_wire::<u8>(bytes) == bytes,
        all_fit::<u8>(bytes),
    decreases bytes.len(),
{
    if bytes.len() > 0 {
        lemma_concat_bytes(bytes.drop_first());
    }
}

/// A byte vector is written as its length, then its bytes.
pub proof fn lemma_bytes_wire(bytes: Seq<u8>)
    ensures
        Vec::<u8>::wire(bytes) == bytes_wire(bytes),
        Vec::<u8>::fits(bytes) <==> bytes.len() <= u32::MAX,
{
    lemma_concat_bytes(bytes);
}

impl Wire for TimestampedMsg {
    open spec fn wire(v: TimestampedMsgView) -> Seq<u8> {
        u64::wire(v.at) + bytes_wire(v.payload)
    }

    open spec fn fits(v: TimestampedMsgView) -> bool {
        v.payload.len() <= u32::MAX
    }

    proof fn lemma_prefix_free(a: TimestampedMsgView, b: TimestampedMsgView, s: Seq<u8>) {
        lemma_bytes_wire(a.payload);
        lemma_bytes_wire(b.payload);
        <(u64, Vec<u8>)>::lemma_prefix_free((a.at, a.payload), (b.at, b.payload), s);
    }

    fn encodable(&self) -> (yes: bool) {
        self.payload.len() <= u32::MAX as usize
    }

    fn encode_to(&self, out: &mut Vec<u8>) {
        proof {
            lemma_bytes_deep_view(self.payload);
            lemma_bytes_wire(self.payload@);
        }
        self.at.encode_to(out);
        self.payload.encode_to(out);
    }

    fn decode(input: &[u8]) -> (r: Result<(Self, usize), Error>) {
        match <(u64, Vec<u8>)>::decode(input) {
            Ok(((at, payload), n)) => {
                proof {
                    lemma_bytes_deep_view(payload);
                    lemma_bytes_wire(payload@);
                }
                Ok((TimestampedMsg { at, payload }, n))
            },
            Err(_) => {
                assert forall|m: Self::V| Self::fits(m) implies !(#[trigger] Self::wire(
                    m,
                )).is_prefix_of(input@) by {
                    lemma_bytes_wire(m.payload);
                    assert(Self::wire(m) == <(u64, Vec<u8>)>::wire((m.at, m.payload)));
                }
                Err(Error::Decode)
            },
        }
    }
}

impl Wire for TargetedMsg {
    open spec fn wire(v: TargetedMsgView) -> Seq<u8> {
        u32::wire(v.recipient) + TimestampedMsg::wire(v.msg)
    }

    open spec fn fits(v: TargetedMsgView) -> bool {
        TimestampedMsg::fits(v.msg)
    }

    proof fn lemma_prefix_free(a: TargetedMsgView, b: TargetedMsgView, s: Seq<u8>) {
        <(u32, TimestampedMsg)>::lemma_prefix_free((a.recipient, a.msg), (b.recipient, b.msg), s);
    }

    fn encodable(&self) -> (yes: bool) {
        self.msg.encodable()
    }

    fn encode_to(&self, out: &mut Vec<u8>) {
        self.recipient.encode_to(out);
        self.msg.encode_to(out);
    }

    fn decode(input: &[u8]) -> (r: Result<(Self, usize), Error>) {
        match <(u32, TimestampedMsg)>::decode(input) {
            Ok(((recipient, msg), n)) => Ok((TargetedMsg { recipient, msg }, n)),
            Err(_) => {
                assert forall|m: Self::V| Self::fits(m) implies !(#[trigger] Self::wire(
                    m,
                )).is_prefix_of(input@) by {
                    assert(Self::wire(m) == <(u32, TimestampedMsg)>::wire((m.recipient, m.msg)));
                }
                Err(Error::Decode)
            },
        }
    }
}

impl Wire for Req {
    open spec fn wire(v: ReqView) -> Seq<u8> {
        match v {
            ReqView::Enqueue { recipient, payload } => seq![0u8] + (u32::wire(recipient)
                + bytes_wire(payload)),
            ReqView::Poll => seq![1u8],
            ReqView::FanOut => seq![2u8],
        }
    }

    open spec fn fits(v: ReqView) -> bool {
        v matches ReqView::Enqueue { payload, .. } ==> payload.len() <= u32::MAX
    }

    proof fn lemma_prefix_free(a: ReqView, b: ReqView, s: Seq<u8>) {
        assert(Self::wire(a)[0] == s[0]);
        match (a, b) {
            (
                ReqView::Enqueue { recipient: ra, payload: pa },
                ReqView::Enqueue { recipient: rb, payload: pb },
            ) => {
                lemma_bytes_wire(pa);
                lemma_bytes_wire(pb);
                crate::wire::lemma_prefix_split(seq![0u8], u32::wire(ra) + bytes_wire(pa), s);
                crate::wire::lemma_prefix_split(seq![0u8], u32::wire(rb) + bytes_wire(pb), s);
                <(u32, Vec<u8>)>::lemma_prefix_free((ra, pa), (rb, pb), s.skip(1));
            },
            _ => {},
        }
    }

    fn encodable(&self) -> (yes: bool) {
        match self {
            Req::Enqueue { payload, .. } => payload.len() <= u32::MAX as usize,
            _ => true,
        }
    }

    fn encode_to(&self, out: &mut Vec<u8>) {
        match self {
            Req::Enqueue { recipient, payload } => {
                proof {
                    lemma_bytes_deep_view(*payload);
                    lemma_bytes_wire(payload@);
                }
                out.push(0u8);
                recipient.encode_to(out);
                payload.encode_to(out);
            },
            Req::Poll => {
                out.push(1u8);
            },
            Req::FanOut => {
                out.push(2u8);
            },
        }
    }

    fn decode(input: &[u8]) -> (r: Result<(Self, usize), Error>) {
        if input.len() == 0 {
            return Err(Error::Decode);
        }
        let tag = input[0];
        if tag == 0 {
            let rest = vstd::slice::slice_subrange(input, 1, input.len());
            match <(u32, Vec<u8>)>::decode(rest) {
                Ok(((recipient, payload), n)) => {
                    proof {
                        lemma_bytes_deep_view(payload);
                        lemma_bytes_wire(payload@);
                        crate::wire::lemma_prefix_join(
                            seq![0u8],
                            u32::wire(recipient) + bytes_wire(payload@),
                            input@,
                        );
                    }
                    Ok((Req::Enqueue { recipient, payload }, 1 + n))
                },
                Err(_) => {
                    assert forall|m: Self::V| Self::fits(m) implies !(#[trigger] Self::wire(
                        m,
                    )).is_prefix_of(input@) by {
                        if Self::wire(m).is_prefix_of(input@) {
                            if let ReqView::Enqueue { recipient, payload } = m {
                                lemma_bytes_wire(payload);
                                crate::wire::lemma_prefix_split(
                                    seq![0u8],
                                    u32::wire(recipient) + bytes_wire(payload),
                                    input@,
                                );
                                assert(<(u32, Vec<u8>)>::wire((recipient, payload)).is_prefix_of(
                                    input@.skip(1),
                                ));
                            }
                        }
                    }
                    Err(Error::Decode)
                },
            }
        } else if tag == 1 {
            Ok((Req::Poll, 1))
        } else if tag == 2 {
            Ok((Req::FanOut, 1))
        } else {
            Err(Error::Decode)
        }
    }
}

} // verus!
