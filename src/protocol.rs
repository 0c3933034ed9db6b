use std::sync::Arc;
use vstd::prelude::*;

use crate::decimal::{all_digits, bytes_to_usize, decimal_value, is_digit};
use crate::message::Message;

verus! {

pub const CR: u8 = 13;

pub const LF: u8 = 10;

/// `w` and `W`: publish a raw stream.
pub const VERB_PUB_STREAM: u8 = 119;

pub const VERB_PUB_STREAM_UPPER: u8 = 87;

/// `r` and `R`: subscribe to the raw stream.
pub const VERB_SUB_STREAM: u8 = 114;

pub const VERB_SUB_STREAM_UPPER: u8 = 82;

/// `s` and `S`: subscribe to length-framed messages.
pub const VERB_SUB_PACKET: u8 = 115;

pub const VERB_SUB_PACKET_UPPER: u8 = 83;

/// `p` and `P`: publish one length-framed message.
pub const VERB_PUB_PACKET: u8 = 112;

pub const VERB_PUB_PACKET_UPPER: u8 = 80;

/// What a connection asks for.
#[derive(Clone)]
pub enum Action {
    SubStream,
    SubPacket,
    PubStream,
    PubPacket(Arc<Message>),
}

/// An action, with a framed publish reduced to its payload bytes.
pub enum ActionView {
    SubStream,
    SubPacket,
    PubStream,
    PubPacket(Seq<u8>),
}

impl View for Action {
    type V = ActionView;

    open spec fn view(&self) -> ActionView {
        match self {
            Action::SubStream => ActionView::SubStream,
            Action::SubPacket => ActionView::SubPacket,
            Action::PubStream => ActionView::PubStream,
            Action::PubPacket(m) => ActionView::PubPacket(m.data@),
        }
    }
}

/// A decoded command: an action on a topic.
pub struct Command {
    act: Action,
    channel: usize,
}

pub struct CommandView {
    pub action: ActionView,
    pub channel: nat,
}

impl View for Command {
    type V = CommandView;

    closed spec fn view(&self) -> CommandView {
        CommandView { action: self.act@, channel: self.channel as nat }
    }
}

impl Command {
    pub fn action(&self) -> (r: &Action)
        ensures
            r@ == self@.action,
    {
        &self.act
    }

    pub fn channel(&self) -> (r: usize)
        ensures
            r == self@.channel,
    {
        self.channel
    }

    /// The action, taken out of the command.
    pub fn into_action(self) -> (r: Action)
        ensures
            r@ == self@.action,
    {
        self.act
    }
}

/// The number of fields a command needs.
const COMMAND_PARAM_NUM: usize = 2;

/// Collects the fields of a command as the decoder meets them.
struct CommandBuilder {
    act: Option<Action>,
    channel: Option<usize>,
    cnt: usize,
}

impl CommandBuilder {
    /// `cnt` counts the fields that are set.
    spec fn wf(&self) -> bool {
        self.cnt == (if self.act is Some { 1nat } else { 0 }) + (if self.channel is Some {
            1nat
        } else {
            0
        })
    }

    fn new() -> (r: CommandBuilder)
        ensures
            r.wf(),
            r.act is None,
            r.channel is None,
    {
        CommandBuilder { act: None, channel: None, cnt: 0 }
    }

    fn set_act(&mut self, act: Action)
        requires
            old(self).wf(),
        ensures
            final(self).wf(),
            final(self).act == Some(act),
            final(self).channel == old(self).channel,
    {
        if let None = self.act {
            self.cnt += 1;
        }
        self.act = Some(act);
    }

    fn set_channel(&mut self, chan: usize)
        requires
            old(self).wf(),
        ensures
            final(self).wf(),
            final(self).channel == Some(chan),
            final(self).act == old(self).act,
    {
        if let None = self.channel {
            self.cnt += 1;
        }
        self.channel = Some(chan);
    }

    /// The command, once both fields are set; the builder is then empty again.
    fn try_build(&mut self) -> (r: Option<Command>)
        requires
            old(self).wf(),
        ensures
            final(self).wf(),
            match r {
                Some(c) => old(self).act == Some(c.act) && old(self).channel == Some(c.channel)
                    && final(self).act is None && final(self).channel is None,
                None => !(old(self).act is Some && old(self).channel is Some) && *final(self)
                    == *old(self),
            },
    {
        if self.cnt < COMMAND_PARAM_NUM {
            None
        } else {
            let act = self.act.take().unwrap();
            let channel = self.channel.take().unwrap();
            self.cnt = 0;
            Some(Command { act, channel })
        }
    }
}

/// A command with the given action and topic, put together by the builder.
fn build_command(act: Action, channel: usize) -> (r: Command)
    ensures
        r.act == act,
        r.channel == channel,
        r@ == (CommandView { action: act@, channel: channel as nat }),
{
    let mut builder = CommandBuilder::new();
    builder.set_act(act);
    builder.set_channel(channel);
    builder.try_build().unwrap()
}

// ---------------------------------------------------------------------------
// The grammar
/// The verbs followed by one decimal line: `w`, `r`, `s`, either case.
pub open spec fn is_line_verb(b: u8) -> bool {
    b == VERB_PUB_STREAM || b == VERB_PUB_STREAM_UPPER || b == VERB_SUB_STREAM || b
        == VERB_SUB_STREAM_UPPER || b == VERB_SUB_PACKET || b == VERB_SUB_PACKET_UPPER
}

/// The verb of a framed publish: `p`, either case.
pub open spec fn is_frame_verb(b: u8) -> bool {
    b == VERB_PUB_PACKET || b == VERB_PUB_PACKET_UPPER
}

/// The action of a line verb.
pub open spec fn line_verb_action(b: u8) -> ActionView {
    if b == VERB_SUB_STREAM || b == VERB_SUB_STREAM_UPPER {
        ActionView::SubStream
    } else if b == VERB_SUB_PACKET || b == VERB_SUB_PACKET_UPPER {
        ActionView::SubPacket
    } else {
        ActionView::PubStream
    }
}

/// The position of the first LF at or after `from`, or the length if there is none.
pub open spec fn lf_pos(s: Seq<u8>, from: int) -> int
    decreases s.len() - from,
{
    if from < 0 || from >= s.len() {
        s.len() as int
    } else if s[from] == LF {
        from
    } else {
        lf_pos(s, from + 1)
    }
}

/// The number on a line without its LF: one or more digits, then CR, fitting in `usize`.
pub open spec fn line_value(line: Seq<u8>) -> Option<nat> {
    if line.len() >= 2 && line.last() == CR && all_digits(line.drop_last()) && decimal_value(
        line.drop_last(),
    ) <= usize::MAX {
        Some(decimal_value(line.drop_last()))
    } else {
        None
    }
}

/// Reading a decimal line that starts at a given position.
pub enum LineRead {
    /// No LF yet.
    Pending,
    Malformed,
    /// The number, and the position just after the LF.
    Value(nat, int),
}

pub open spec fn line_at(s: Seq<u8>, from: int) -> LineRead {
    let e = lf_pos(s, from);
    if e >= s.len() {
        LineRead::Pending
    } else {
        match line_value(s.subrange(from, e)) {
            Some(v) => LineRead::Value(v, e + 1),
            None => LineRead::Malformed,
        }
    }
}

/// What the bytes received so far on a connection say.
pub enum Decoded {
    /// A prefix of a command: more bytes are needed.
    Pending,
    /// No command starts this way.
    Malformed,
    /// A complete command, and the number of bytes it takes.
    Command(CommandView, nat),
}

/// The command grammar. A verb byte; a decimal topic line; for a framed
/// publish, a decimal length line and that many payload bytes.
pub open spec fn decode(s: Seq<u8>) -> Decoded {
    if s.len() == 0 {
        Decoded::Pending
    } else if !is_line_verb(s[0]) && !is_frame_verb(s[0]) {
        Decoded::Malformed
    } else {
        match line_at(s, 1) {
            LineRead::Pending => Decoded::Pending,
            LineRead::Malformed => Decoded::Malformed,
            LineRead::Value(topic, next) => if is_line_verb(s[0]) {
                Decoded::Command(
                    CommandView { action: line_verb_action(s[0]), channel: topic },
                    next as nat,
                )
            } else {
                match line_at(s, next) {
                    LineRead::Pending => Decoded::Pending,
                    LineRead::Malformed => Decoded::Malformed,
                    LineRead::Value(len, start) => if s.len() < start + len {
                        Decoded::Pending
                    } else {
                        Decoded::Command(
                            CommandView {
                                action: ActionView::PubPacket(s.subrange(start, start + len)),
                                channel: topic,
                            },
                            (start + len) as nat,
                        )
                    },
                }
            },
        }
    }
}

proof fn lemma_lf_pos_bounds(s: Seq<u8>, from: int)
    requires
        0 <= from <= s.len(),
    ensures
        from <= lf_pos(s, from) <= s.len(),
        lf_pos(s, from) < s.len() ==> s[lf_pos(s, from)] == LF,
    decreases s.len() - from,
{
    if from < s.len() && s[from] != LF {
        lemma_lf_pos_bounds(s, from + 1);
    }
}

proof fn lemma_lf_pos_push(s: Seq<u8>, b: u8, from: int)
    requires
        0 <= from <= s.len(),
    ensures
        lf_pos(s.push(b), from) == if lf_pos(s, from) < s.len() {
            lf_pos(s, from)
        } else if b == LF {
            s.len() as int
        } else {
            s.len() + 1 as int
        },
    decreases s.len() - from,
{
    let t = s.push(b);
    if from < s.len() {
        assert(t[from] == s[from]);
        if s[from] != LF {
            lemma_lf_pos_push(s, b, from + 1);
        }
    } else {
        assert(t[from] == b);
        assert(lf_pos(t, from + 1) == t.len());
    }
}

/// A line that was complete reads the same after one more byte.
proof fn lemma_line_at_push(s: Seq<u8>, b: u8, from: int)
    requires
        0 <= from <= s.len(),
        !(line_at(s, from) is Pending),
    ensures
        line_at(s.push(b), from) == line_at(s, from),
{
    lemma_lf_pos_push(s, b, from);
    lemma_lf_pos_bounds(s, from);
    let e = lf_pos(s, from);
    assert(s.push(b).subrange(from, e) =~= s.subrange(from, e));
}

/// A line that ends with the byte just received.
proof fn lemma_line_at_end(s: Seq<u8>, from: int)
    requires
        0 <= from <= s.len(),
        lf_pos(s, from) == s.len(),
    ensures
        line_at(s.push(LF), from) == match line_value(s.subrange(from, s.len() as int)) {
            Some(v) => LineRead::Value(v, s.len() + 1 as int),
            None => LineRead::Malformed,
        },
{
    lemma_lf_pos_push(s, LF, from);
    assert(s.push(LF).subrange(from, s.len() as int) =~= s.subrange(from, s.len() as int));
}

/// A line verb followed by a topic line.
pub open spec fn command_line(verb: u8, topic: Seq<u8>) -> Seq<u8> {
    seq![verb] + topic + seq![CR, LF]
}

/// A framed publish: verb, topic line, length line, payload.
pub open spec fn frame_line(verb: u8, topic: Seq<u8>, len: Seq<u8>, payload: Seq<u8>) -> Seq<u8> {
    seq![verb] + topic + seq![CR, LF] + len + seq![CR, LF] + payload
}

/// A number that a decimal line can carry.
pub open spec fn valid_number(digits: Seq<u8>) -> bool {
    digits.len() > 0 && all_digits(digits) && decimal_value(digits) <= usize::MAX
}

proof fn lemma_lf_pos_at(s: Seq<u8>, from: int, e: int)
    requires
        0 <= from <= e < s.len(),
        s[e] == LF,
        forall|j: int| from <= j < e ==> s[j] != LF,
    ensures
        lf_pos(s, from) == e,
    decreases e - from,
{
    if from < e {
        lemma_lf_pos_at(s, from + 1, e);
    }
}

/// A decimal line written at `from` reads back as its number.
proof fn lemma_line_at_digits(s: Seq<u8>, from: int, digits: Seq<u8>)
    requires
        0 <= from,
        from + digits.len() + 2 <= s.len(),
        s.subrange(from, from + digits.len() + 2) == digits + seq![CR, LF],
        valid_number(digits),
    ensures
        line_at(s, from) == LineRead::Value(decimal_value(digits), from + digits.len() + 2),
{
    let e: int = from + digits.len() + 1;
    assert forall|j: int| from <= j < e implies s[j] != LF by {
        assert(s[j] == s.subrange(from, from + digits.len() + 2)[j - from]);
        if j < e - 1 {
            assert(is_digit(digits[j - from]));
        }
    }
    assert(s[e] == s.subrange(from, from + digits.len() + 2)[e - from]);
    lemma_lf_pos_at(s, from, e);
    assert(s.subrange(from, e).drop_last() =~= digits);
    assert(s.subrange(from, e).last() == s.subrange(from, from + digits.len() + 2)[e - 1 - from]);
}

/// Every well-formed command line with a line verb decodes to the action
/// and the topic it spells, and takes exactly its own bytes.
pub proof fn lemma_round_trip_line(verb: u8, topic: Seq<u8>)
    requires
        is_line_verb(verb),
        valid_number(topic),
    ensures
        decode(command_line(verb, topic)) == Decoded::Command(
            CommandView { action: line_verb_action(verb), channel: decimal_value(topic) },
            command_line(verb, topic).len(),
        ),
{
    let s = command_line(verb, topic);
    assert(s.subrange(1, (topic.len() + 3) as int) =~= topic + seq![CR, LF]);
    lemma_line_at_digits(s, 1, topic);
}

/// Every well-formed framed publish decodes to its topic and its payload,
/// and takes exactly its own bytes.
pub proof fn lemma_round_trip_frame(verb: u8, topic: Seq<u8>, len: Seq<u8>, payload: Seq<u8>)
    requires
        is_frame_verb(verb),
        valid_number(topic),
        valid_number(len),
        decimal_value(len) == payload.len(),
    ensures
        decode(frame_line(verb, topic, len, payload)) == Decoded::Command(
            CommandView { action: ActionView::PubPacket(payload), channel: decimal_value(topic) },
            frame_line(verb, topic, len, payload).len(),
        ),
{
    let s = frame_line(verb, topic, len, payload);
    let k1: int = (topic.len() + 3) as int;
    let k2: int = k1 + len.len() + 2;
    assert(s.subrange(1, k1) =~= topic + seq![CR, LF]);
    lemma_line_at_digits(s, 1, topic);
    assert(s.subrange(k1, k2) =~= len + seq![CR, LF]);
    lemma_line_at_digits(s, k1, len);
    assert(s.subrange(k2, k2 + payload.len()) =~= payload);
}

proof fn lemma_lf_pos_none(s: Seq<u8>, from: int)
    requires
        0 <= from <= s.len(),
        forall|j: int| from <= j < s.len() ==> s[j] != LF,
    ensures
        lf_pos(s, from) == s.len(),
    decreases s.len() - from,
{
    if from < s.len() {
        lemma_lf_pos_none(s, from + 1);
    }
}

/// Every proper prefix of a well-formed command line with a line verb is
/// still pending: the decoder reports the command at its last byte, not before.
pub proof fn lemma_line_prefix_pending(verb: u8, topic: Seq<u8>, n: int)
    requires
        is_line_verb(verb),
        valid_number(topic),
        0 <= n < command_line(verb, topic).len(),
    ensures
        decode(command_line(verb, topic).take(n)) is Pending,
{
    let s = command_line(verb, topic);
    let p = s.take(n);
    if n > 0 {
        assert forall|j: int| 1 <= j < p.len() implies p[j] != LF by {
            if j < topic.len() + 1 {
                assert(p[j] == topic[j - 1]);
                assert(is_digit(topic[j - 1]));
            }
        }
        lemma_lf_pos_none(p, 1);
    }
}

/// Every proper prefix of a well-formed framed publish is still pending.
pub proof fn lemma_frame_prefix_pending(
    verb: u8,
    topic: Seq<u8>,
    len: Seq<u8>,
    payload: Seq<u8>,
    n: int,
)
    requires
        is_frame_verb(verb),
        valid_number(topic),
        valid_number(len),
        decimal_value(len) == payload.len(),
        0 <= n < frame_line(verb, topic, len, payload).len(),
    ensures
        decode(frame_line(verb, topic, len, payload).take(n)) is Pending,
{
    let s = frame_line(verb, topic, len, payload);
    let p = s.take(n);
    let k1: int = (topic.len() + 3) as int;
    let k2: int = k1 + len.len() + 2;
    if n == 0 {
    } else if n < k1 {
        assert forall|j: int| 1 <= j < p.len() implies p[j] != LF by {
            if j < k1 - 2 {
                assert(p[j] == topic[j - 1]);
                assert(is_digit(topic[j - 1]));
            }
        }
        lemma_lf_pos_none(p, 1);
    } else {
        assert(p.subrange(1, k1) =~= topic + seq![CR, LF]);
        lemma_line_at_digits(p, 1, topic);
        if n < k2 {
            assert forall|j: int| k1 <= j < p.len() implies p[j] != LF by {
                if j < k2 - 2 {
                    assert(p[j] == len[j - k1]);
                    assert(is_digit(len[j - k1]));
                }
            }
            lemma_lf_pos_none(p, k1);
        } else {
            assert(p.subrange(k1, k2) =~= len + seq![CR, LF]);
            lemma_line_at_digits(p, k1, len);
        }
    }
}

// ---------------------------------------------------------------------------
// The streaming decoder
/// Reads the number of a line whose LF has been taken off: digits, then CR.
fn line_number(line: &[u8]) -> (r: Option<usize>)
    ensures
        match r {
            Some(v) => line_value(line@) == Some(v as nat),
            None => line_value(line@) is None,
        },
{
    let n = line.len();
    if n < 2 {
        return None;
    }
    if line[n - 1] != CR {
        return None;
    }
    let digits = vstd::slice::slice_subrange(line, 0, n - 1);
    assert(digits@ =~= line@.drop_last());
    match bytes_to_usize(digits) {
        Ok(v) => Some(v),
        Err(_) => None,
    }
}

/// Where the decoder stands inside a command.
enum Stage {
    /// Nothing received yet.
    Verb,
    /// After a verb, inside the topic line.
    Topic { verb: u8, line: Vec<u8> },
    /// After the topic line of a framed publish, inside the length line.
    Length { topic: usize, line: Vec<u8> },
    /// Inside the payload of a framed publish.
    Payload { topic: usize, need: usize, data: Vec<u8> },
}

/// The result of handing one byte to the decoder.
pub enum Feed {
    NeedMore,
    Done(Command),
    Malformed,
}

/// Decodes one command from a byte stream, a byte at a time.
pub struct CommandDecoder {
    stage: Stage,
    seen: Ghost<Seq<u8>>,
}

impl CommandDecoder {
    /// The bytes received so far.
    pub closed spec fn input(&self) -> Seq<u8> {
        self.seen@
    }

    pub closed spec fn consistent(&self) -> bool {
        let s = self.seen@;
        match self.stage {
            Stage::Verb => s.len() == 0,
            Stage::Topic { verb, line } => {
                &&& s.len() >= 1
                &&& s[0] == verb
                &&& (is_line_verb(verb) || is_frame_verb(verb))
                &&& line@ == s.subrange(1, s.len() as int)
                &&& lf_pos(s, 1) == s.len()
            },
            Stage::Length { topic, line } => {
                let k = s.len() - line.len();
                &&& s.len() >= 1
                &&& is_frame_verb(s[0])
                &&& line_at(s, 1) == LineRead::Value(topic as nat, k)
                &&& line@ == s.subrange(k, s.len() as int)
                &&& lf_pos(s, k) == s.len()
            },
            Stage::Payload { topic, need, data } => {
                let k2 = s.len() - data.len();
                &&& s.len() >= 1
                &&& is_frame_verb(s[0])
                &&& line_at(s, 1) == LineRead::Value(topic as nat, lf_pos(s, 1) + 1)
                &&& line_at(s, lf_pos(s, 1) + 1) == LineRead::Value(need as nat, k2)
                &&& data@ == s.subrange(k2, s.len() as int)
                &&& data.len() < need
            },
        }
    }

    /// Ready for the next byte: the bytes so far begin a command and end none.
    pub open spec fn ready(&self) -> bool {
        &&& self.consistent()
        &&& decode(self.input()) is Pending
    }

    pub fn new() -> (r: CommandDecoder)
        ensures
            r.ready(),
            r.input() == Seq::<u8>::empty(),
    {
        CommandDecoder { stage: Stage::Verb, seen: Ghost(Seq::empty()) }
    }

    /// Takes the next byte of the stream. The result is what `decode` says of
    /// all the bytes received so far.
    pub fn feed(&mut self, b: u8) -> (r: Feed)
        requires
            old(self).ready(),
        ensures
            final(self).input() == old(self).input().push(b),
            match r {
                Feed::NeedMore => final(self).ready(),
                Feed::Done(c) => decode(final(self).input()) == Decoded::Command(
                    c@,
                    final(self).input().len(),
                ),
                Feed::Malformed => decode(final(self).input()) is Malformed,
            },
    {
        let ghost s = self.seen@;
        let ghost t = s.push(b);
        self.seen = Ghost(t);
        let mut stage = Stage::Verb;
        std::mem::swap(&mut self.stage, &mut stage);
        match stage {
            Stage::Verb => {
                if b == VERB_PUB_STREAM || b == VERB_PUB_STREAM_UPPER || b == VERB_SUB_STREAM || b
                    == VERB_SUB_STREAM_UPPER || b == VERB_SUB_PACKET || b == VERB_SUB_PACKET_UPPER
                    || b == VERB_PUB_PACKET || b == VERB_PUB_PACKET_UPPER {
                    self.stage = Stage::Topic { verb: b, line: Vec::new() };
                    assert(t.subrange(1, 1) =~= Seq::<u8>::empty());
                    Feed::NeedMore
                } else {
                    Feed::Malformed
                }
            },
            Stage::Topic { verb, mut line } => {
                if b != LF {
                    proof {
                        lemma_lf_pos_push(s, b, 1);
                    }
                    line.push(b);
                    assert(line@ =~= t.subrange(1, t.len() as int));
                    self.stage = Stage::Topic { verb, line };
                    Feed::NeedMore
                } else {
                    proof {
                        lemma_line_at_end(s, 1);
                    }
                    match line_number(line.as_slice()) {
                        None => Feed::Malformed,
                        Some(topic) => {
                            if verb == VERB_PUB_PACKET || verb == VERB_PUB_PACKET_UPPER {
                                self.stage = Stage::Length { topic, line: Vec::new() };
                                assert(t.subrange(t.len() as int, t.len() as int)
                                    =~= Seq::<u8>::empty());
                                Feed::NeedMore
                            } else {
                                let act = if verb == VERB_SUB_STREAM || verb
                                    == VERB_SUB_STREAM_UPPER {
                                    Action::SubStream
                                } else if verb == VERB_SUB_PACKET || verb
                                    == VERB_SUB_PACKET_UPPER {
                                    Action::SubPacket
                                } else {
                                    Action::PubStream
                                };
                                Feed::Done(build_command(act, topic))
                            }
                        },
                    }
                }
            },
            Stage::Length { topic, mut line } => {
                let ghost k = s.len() - line.len();
                proof {
                    lemma_lf_pos_bounds(s, 1);
                    lemma_line_at_push(s, b, 1);
                }
                if b != LF {
                    proof {
                        lemma_lf_pos_push(s, b, k);
                    }
                    line.push(b);
                    assert(line@ =~= t.subrange(k, t.len() as int));
                    self.stage = Stage::Length { topic, line };
                    Feed::NeedMore
                } else {
                    proof {
                        lemma_line_at_end(s, k);
                    }
                    match line_number(line.as_slice()) {
                        None => Feed::Malformed,
                        Some(need) => {
                            if need == 0 {
                                assert(t.subrange(t.len() as int, t.len() as int)
                                    =~= Seq::<u8>::empty());
                                let msg = Message::from_vec(Vec::new());
                                Feed::Done(build_command(Action::PubPacket(Arc::new(msg)), topic))
                            } else {
                                self.stage = Stage::Payload { topic, need, data: Vec::new() };
                                assert(t.subrange(t.len() as int, t.len() as int)
                                    =~= Seq::<u8>::empty());
                                assert(line_at(t, 1) == LineRead::Value(topic as nat, k));
                                Feed::NeedMore
                            }
                        },
                    }
                }
            },
            Stage::Payload { topic, need, mut data } => {
                let ghost k2 = s.len() - data.len();
                let ghost k1 = lf_pos(s, 1) + 1;
                proof {
                    lemma_lf_pos_bounds(s, 1);
                    lemma_lf_pos_bounds(s, k1);
                    lemma_lf_pos_push(s, b, 1);
                }
                proof {
                    lemma_line_at_push(s, b, 1);
                    lemma_line_at_push(s, b, k1);
                }
                data.push(b);
                assert(data@ =~= t.subrange(k2, t.len() as int));
                if data.len() == need {
                    let msg = Message::from_vec(data);
                    Feed::Done(build_command(Action::PubPacket(Arc::new(msg)), topic))
                } else {
                    self.stage = Stage::Payload { topic, need, data };
                    assert(line_at(t, 1) == LineRead::Value(topic as nat, k1));
                    Feed::NeedMore
                }
            },
        }
    }
}

} // verus!
