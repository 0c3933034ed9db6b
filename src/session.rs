use std::sync::Arc;
use vstd::prelude::*;

use crate::decimal::{decimal_digits, usize_to_decimal};
use crate::message::Message;
use crate::protocol::{Action, ActionView, Command, CommandView, CR, LF};

verus! {

/// The ASCII code of `:`, which opens a frame header.
pub const FRAME_MARK: u8 = 58;

/// Why a connection stops.
#[derive(Clone, Copy, Debug, PartialEq, Eq, Structural)]
pub enum SessionError {
    /// The bytes received are not a command.
    Protocol,
    /// The peer closed the stream, or it failed.
    Connection,
    /// The command names a topic that does not exist.
    TopicRange,
}

/// What a connection does after decoding a command.
pub enum Step {
    Close(SessionError),
    /// Register on the topic and forward raw payloads until the queue or the socket closes.
    SubscribeRaw(usize),
    /// Register on the topic and forward framed payloads until the queue or the socket closes.
    SubscribeFramed(usize),
    /// Broadcast every chunk read from the socket on the topic until end of stream.
    PublishStream(usize),
    /// Broadcast one message on the topic, then decode the next command.
    PublishFrame(usize, Arc<Message>),
}

pub enum StepView {
    Close(SessionError),
    SubscribeRaw(nat),
    SubscribeFramed(nat),
    PublishStream(nat),
    PublishFrame(nat, Seq<u8>),
}

impl View for Step {
    type V = StepView;

    open spec fn view(&self) -> StepView {
        match self {
            Step::Close(e) => StepView::Close(*e),
            Step::SubscribeRaw(t) => StepView::SubscribeRaw(*t as nat),
            Step::SubscribeFramed(t) => StepView::SubscribeFramed(*t as nat),
            Step::PublishStream(t) => StepView::PublishStream(*t as nat),
            Step::PublishFrame(t, m) => StepView::PublishFrame(*t as nat, m.data@),
        }
    }
}

pub open spec fn decoded_view(decoded: Result<Command, SessionError>) -> Result<
    CommandView,
    SessionError,
> {
    match decoded {
        Ok(c) => Ok(c@),
        Err(e) => Err(e),
    }
}

/// The step for a decode result on a server with `topics` topics: any
/// error closes the connection, and so does a topic number out of range.
pub open spec fn step_spec(decoded: Result<CommandView, SessionError>, topics: nat) -> StepView {
    match decoded {
        Err(e) => StepView::Close(e),
        Ok(c) => if c.channel >= topics {
            StepView::Close(SessionError::TopicRange)
        } else {
            match c.action {
                ActionView::SubStream => StepView::SubscribeRaw(c.channel),
                ActionView::SubPacket => StepView::SubscribeFramed(c.channel),
                ActionView::PubStream => StepView::PublishStream(c.channel),
                ActionView::PubPacket(p) => StepView::PublishFrame(c.channel, p),
            }
        },
    }
}

/// Decides what a connection does with the result of decoding one command.
pub fn next_step(decoded: Result<Command, SessionError>, topics: usize) -> (r: Step)
    ensures
        r@ == step_spec(decoded_view(decoded), topics as nat),
{
    match decoded {
        Err(e) => Step::Close(e),
        Ok(cmd) => {
            let topic = cmd.channel();
            if topic >= topics {
                Step::Close(SessionError::TopicRange)
            } else {
                match cmd.into_action() {
                    Action::SubStream => Step::SubscribeRaw(topic),
                    Action::SubPacket => Step::SubscribeFramed(topic),
                    Action::PubStream => Step::PublishStream(topic),
                    Action::PubPacket(m) => Step::PublishFrame(topic, m),
                }
            }
        },
    }
}

/// Whether the connection decodes another command after this step: only
/// after a framed publish.
pub fn keeps_reading(step: &Step) -> (r: bool)
    ensures
        r == (step is PublishFrame),
{
    match step {
        Step::PublishFrame(_, _) => true,
        _ => false,
    }
}

/// The header written before each payload to a framed subscriber: `:`, the
/// payload length in decimal, CR LF.
pub open spec fn frame_header_spec(len: nat) -> Seq<u8> {
    seq![FRAME_MARK] + decimal_digits(len) + seq![CR, LF]
}

pub fn frame_header(len: usize) -> (r: Vec<u8>)
    ensures
        r@ == frame_header_spec(len as nat),
{
    let mut r: Vec<u8> = Vec::new();
    r.push(FRAME_MARK);
    let mut digits = usize_to_decimal(len);
    r.append(&mut digits);
    r.push(CR);
    r.push(LF);
    assert(r@ =~= frame_header_spec(len as nat));
    r
}

} // verus!
