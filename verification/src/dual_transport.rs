//! Run one protocol on two links at once.
//!
//! This listens on both and routes each response back to whichever side
//! asked. The client owns exactly one buffer, and both sides need one to
//! listen on, so this holds a spare; the two circulate freely.
//!
//! # Only one conversation at a time
//!
//! The client is a single state machine with a single buffer, so two hosts
//! talking at once would corrupt it. A message arriving while another is being
//! handled is therefore dropped, and that side goes back to listening. "Being
//! handled" starts when a message is delivered upwards and ends when the
//! client asks for the next one: a response in several parts counts as still
//! busy throughout.

use vstd::prelude::*;

use crate::actions::held;
use crate::error::ErrorCode;

verus! {

/// The two sides.
#[derive(Copy, Clone, PartialEq, Eq, Structural)]
pub enum Port {
    A,
    B,
}

/// What to do about a message that arrived.
pub enum Arrival<B> {
    /// Hand it to the client.
    Deliver { buffer: B, len: usize, result: Result<(), ErrorCode> },
    /// Drop it, and have `port` listen again.
    Listen { port: Port, buffer: B },
}

/// A side to start listening with a buffer.
pub struct Listening<B> {
    pub port: Port,
    pub buffer: B,
}

impl View for Arrival<Vec<u8>> {
    type V = Arrival<Seq<u8>>;

    open spec fn view(&self) -> Arrival<Seq<u8>> {
        match *self {
            Arrival::Deliver { buffer, len, result } => Arrival::Deliver {
                buffer: buffer@,
                len,
                result,
            },
            Arrival::Listen { port, buffer } => Arrival::Listen { port, buffer: buffer@ },
        }
    }
}

/// What an optional request holds.
pub open spec fn listening_view(request: Option<Listening<Vec<u8>>>) -> Option<
    Listening<Seq<u8>>,
> {
    match request {
        Some(Listening { port, buffer }) => Some(Listening { port, buffer: buffer@ }),
        None => None,
    }
}

/// The state of the pair.
#[verifier::ext_equal]
pub struct DualModel {
    /// Side that delivered the message currently being handled.
    pub active: Port,
    /// A message has been delivered upwards and not yet finished with.
    pub busy: bool,
    /// Buffer not currently with either side or the client, if any.
    pub spare: Option<Seq<u8>>,
    pub a_listening: bool,
    pub b_listening: bool,
    /// The spare is still to be looked at, once the side asked to listen has
    /// answered.
    pub settling: bool,
}

impl DualModel {
    pub open spec fn init(spare: Seq<u8>) -> DualModel {
        DualModel {
            active: Port::A,
            busy: false,
            spare: Some(spare),
            a_listening: false,
            b_listening: false,
            settling: false,
        }
    }

    /// Is this side listening?
    pub open spec fn listening(self, port: Port) -> bool {
        match port {
            Port::A => self.a_listening,
            Port::B => self.b_listening,
        }
    }

    pub open spec fn with_listening(self, port: Port, listening: bool) -> DualModel {
        match port {
            Port::A => DualModel { a_listening: listening, ..self },
            Port::B => DualModel { b_listening: listening, ..self },
        }
    }

    /// Park `buffer` with a side that is not listening, A first, else keep it
    /// spare.
    pub open spec fn arm(self, buffer: Seq<u8>) -> (DualModel, Option<Listening<Seq<u8>>>) {
        if !self.a_listening {
            (self.with_listening(Port::A, true), Some(Listening { port: Port::A, buffer }))
        } else if !self.b_listening {
            (self.with_listening(Port::B, true), Some(Listening { port: Port::B, buffer }))
        } else {
            (DualModel { spare: Some(buffer), ..self }, None)
        }
    }

    /// A spare lets a side that is not listening start listening too.
    pub open spec fn settle(self) -> (DualModel, Option<Listening<Seq<u8>>>) {
        let settled = DualModel { settling: false, ..self };
        match self.spare {
            Some(spare) => if !self.a_listening || !self.b_listening {
                DualModel { spare: None, ..settled }.arm(spare)
            } else {
                (settled, None)
            },
            None => (settled, None),
        }
    }

    /// The client asks for the next message, which ends the conversation.
    pub open spec fn receive_message(self, buffer: Seq<u8>) -> (
        DualModel,
        Option<Listening<Seq<u8>>>,
    ) {
        let (armed, request) = DualModel { busy: false, ..self }.arm(buffer);
        match request {
            Some(_) => (DualModel { settling: true, ..armed }, request),
            None => armed.settle(),
        }
    }

    /// A side asked to listen does.
    pub open spec fn listen_accepted(self) -> (DualModel, Option<Listening<Seq<u8>>>) {
        if self.settling {
            self.settle()
        } else {
            (self, None)
        }
    }

    /// A side asked to listen does not, and gave the buffer back.
    pub open spec fn listen_refused(self, port: Port, buffer: Seq<u8>) -> (
        DualModel,
        Option<Listening<Seq<u8>>>,
    ) {
        DualModel { spare: Some(buffer), ..self.with_listening(port, false) }.listen_accepted()
    }

    /// A message arrived on one side.
    pub open spec fn on_received(
        self,
        port: Port,
        buffer: Seq<u8>,
        len: usize,
        result: Result<(), ErrorCode>,
    ) -> (DualModel, Arrival<Seq<u8>>) {
        if self.busy {
            (self.with_listening(port, true), Arrival::Listen { port, buffer })
        } else {
            (
                DualModel { busy: true, active: port, ..self.with_listening(port, false) },
                Arrival::Deliver { buffer, len, result },
            )
        }
    }
}

/// Two links as one.
pub struct DualTransport {
    active: Port,
    busy: bool,
    spare: Option<Vec<u8>>,
    a_listening: bool,
    b_listening: bool,
    settling: bool,
}

impl View for DualTransport {
    type V = DualModel;

    closed spec fn view(&self) -> DualModel {
        DualModel {
            active: self.active,
            busy: self.busy,
            spare: held(self.spare),
            a_listening: self.a_listening,
            b_listening: self.b_listening,
            settling: self.settling,
        }
    }
}

impl DualTransport {
    pub fn new(spare: Vec<u8>) -> (dual: DualTransport)
        ensures
            dual@ == DualModel::init(spare@),
    {
        DualTransport {
            active: Port::A,
            busy: false,
            spare: Some(spare),
            a_listening: false,
            b_listening: false,
            settling: false,
        }
    }

    fn set_listening(&mut self, port: Port, listening: bool)
        ensures
            final(self)@ == old(self)@.with_listening(port, listening),
    {
        match port {
            Port::A => {
                self.a_listening = listening;
            },
            Port::B => {
                self.b_listening = listening;
            },
        }
    }

    /// Park `buffer` with whichever side is not listening, else keep it spare.
    fn arm(&mut self, buffer: Vec<u8>) -> (request: Option<Listening<Vec<u8>>>)
        ensures
            (final(self)@, listening_view(request)) == old(self)@.arm(buffer@),
    {
        if !self.a_listening {
            self.a_listening = true;
            Some(Listening { port: Port::A, buffer })
        } else if !self.b_listening {
            self.b_listening = true;
            Some(Listening { port: Port::B, buffer })
        } else {
            self.spare = Some(buffer);
            None
        }
    }

    /// Let a side that is not listening have the spare.
    fn settle(&mut self) -> (request: Option<Listening<Vec<u8>>>)
        ensures
            (final(self)@, listening_view(request)) == old(self)@.settle(),
    {
        self.settling = false;
        match self.spare.take() {
            Some(spare) => {
                if !self.a_listening || !self.b_listening {
                    self.arm(spare)
                } else {
                    self.spare = Some(spare);
                    None
                }
            },
            None => None,
        }
    }

    /// The result of bringing both sides up. One side failing must not disable
    /// the other; the first error is reported so that a board can notice.
    pub fn configure(a: Result<(), ErrorCode>, b: Result<(), ErrorCode>) -> (result: Result<
        (),
        ErrorCode,
    >)
        ensures
            result == if a is Err {
                a
            } else {
                b
            },
    {
        match a {
            Err(error) => Err(error),
            Ok(_) => b,
        }
    }

    /// The client asks for the next message.
    pub fn receive_message(&mut self, buffer: Vec<u8>) -> (request: Option<Listening<Vec<u8>>>)
        ensures
            (final(self)@, listening_view(request)) == old(self)@.receive_message(buffer@),
    {
        self.busy = false;
        match self.arm(buffer) {
            Some(request) => {
                self.settling = true;
                Some(request)
            },
            None => self.settle(),
        }
    }

    /// A side asked to listen does.
    pub fn listen_accepted(&mut self) -> (request: Option<Listening<Vec<u8>>>)
        ensures
            (final(self)@, listening_view(request)) == old(self)@.listen_accepted(),
    {
        if self.settling {
            self.settle()
        } else {
            None
        }
    }

    /// A side asked to listen does not.
    pub fn listen_refused(&mut self, port: Port, buffer: Vec<u8>) -> (request: Option<
        Listening<Vec<u8>>,
    >)
        ensures
            (final(self)@, listening_view(request)) == old(self)@.listen_refused(port, buffer@),
    {
        self.set_listening(port, false);
        self.spare = Some(buffer);
        self.listen_accepted()
    }

    /// The side a response goes out on: the one that asked.
    pub fn transmit_message(&self) -> (port: Port)
        ensures
            port == self@.active,
    {
        self.active
    }

    fn on_received(
        &mut self,
        port: Port,
        buffer: Vec<u8>,
        len: usize,
        result: Result<(), ErrorCode>,
    ) -> (arrival: Arrival<Vec<u8>>)
        ensures
            (final(self)@, arrival@) == old(self)@.on_received(port, buffer@, len, result),
    {
        if self.busy {
            // Another conversation is in progress; the host will retry.
            self.set_listening(port, true);
            return Arrival::Listen { port, buffer };
        }
        self.set_listening(port, false);
        self.busy = true;
        self.active = port;
        Arrival::Deliver { buffer, len, result }
    }
}

/// One side of a [`DualTransport`].
pub struct DualPort {
    port: Port,
}

impl DualPort {
    pub closed spec fn side(self) -> Port {
        self.port
    }

    pub fn new(port: Port) -> (dual_port: DualPort)
        ensures
            dual_port.side() == port,
    {
        DualPort { port }
    }

    /// A message arrived on this side.
    pub fn message_received(
        &self,
        dual: &mut DualTransport,
        buffer: Vec<u8>,
        len: usize,
        result: Result<(), ErrorCode>,
    ) -> (arrival: Arrival<Vec<u8>>)
        ensures
            (final(dual)@, arrival@) == old(dual)@.on_received(self.side(), buffer@, len, result),
    {
        dual.on_received(self.port, buffer, len, result)
    }
}

/// One conversation at a time: while a message is being handled, another is
/// not delivered, the side it came from listens again, and responses still go
/// to the side that asked first.
pub proof fn law_one_conversation_at_a_time(
    model: DualModel,
    port: Port,
    buffer: Seq<u8>,
    len: usize,
    result: Result<(), ErrorCode>,
)
    requires
        model.busy,
    ensures
        ({
            let (next, arrival) = model.on_received(port, buffer, len, result);
            &&& arrival == (Arrival::Listen::<Seq<u8>> { port, buffer })
            &&& next.listening(port)
            &&& next.busy && next.active == model.active
        }),
{
}

/// The response to a message goes to the side it came from, whatever arrives
/// on the other side before the client asks for the next message.
pub proof fn law_response_goes_to_the_asker(
    model: DualModel,
    port: Port,
    buffer: Seq<u8>,
    len: usize,
    result: Result<(), ErrorCode>,
    intruder: Seq<u8>,
    intruder_len: usize,
    other: Port,
)
    requires
        !model.busy,
    ensures
        ({
            let asked = model.on_received(port, buffer, len, result).0;
            let after = asked.on_received(other, intruder, intruder_len, result).0;
            &&& asked.active == port
            &&& after.active == port
        }),
{
}

/// Nothing is lost between conversations: when the client asks for the next
/// message and both sides agree to listen, both listen, if there is a spare to
/// listen with.
pub proof fn law_both_sides_listen(model: DualModel, buffer: Seq<u8>)
    requires
        model.spare is Some,
        !(model.a_listening && model.b_listening),
    ensures
        ({
            let (first, _) = model.receive_message(buffer);
            let (second, _) = first.listen_accepted();
            &&& !second.busy
            &&& second.a_listening && second.b_listening
        }),
{
}

/// A pair starts with both sides quiet, nobody being served, and its spare at
/// hand.
pub proof fn law_new_pair(spare: Seq<u8>)
    ensures
        ({
            let pair = DualModel::init(spare);
            &&& !pair.busy && !pair.settling
            &&& !pair.listening(Port::A) && !pair.listening(Port::B)
            &&& pair.spare == Some(spare)
        }),
{
}

/// A message that arrives while nobody is served is delivered as it is, and
/// its side stops listening; the other side goes on as it was.
pub proof fn law_message_is_delivered_as_it_is(
    model: DualModel,
    port: Port,
    other: Port,
    buffer: Seq<u8>,
    len: usize,
    result: Result<(), ErrorCode>,
)
    requires
        !model.busy,
        other != port,
    ensures
        ({
            let (next, arrival) = model.on_received(port, buffer, len, result);
            &&& arrival == (Arrival::Deliver { buffer, len, result })
            &&& next.busy && next.active == port
            &&& !next.listening(port)
            &&& next.listening(other) == model.listening(other)
            &&& next.spare == model.spare
        }),
{
}

/// The client's buffer goes to a side that is not listening, A before B, and
/// is kept as the spare if both are. The conversation is over, and where the
/// next response goes is for the next message to say.
pub proof fn law_next_message_is_asked_for(model: DualModel, buffer: Seq<u8>)
    ensures
        ({
            let (next, request) = model.receive_message(buffer);
            &&& !next.busy && next.active == model.active
            &&& !model.a_listening ==> {
                &&& request == Some(Listening { port: Port::A, buffer })
                &&& next.a_listening && next.b_listening == model.b_listening
                &&& next.spare == model.spare
            }
            &&& model.a_listening && !model.b_listening ==> {
                &&& request == Some(Listening { port: Port::B, buffer })
                &&& next.a_listening && next.b_listening
                &&& next.spare == model.spare
            }
            &&& model.a_listening && model.b_listening ==> {
                &&& request is None
                &&& next.a_listening && next.b_listening
                &&& next.spare == Some(buffer)
            }
        }),
{
}

/// A buffer that a side would not listen with is not lost: it is the spare, or
/// on its way to a side that is not listening.
pub proof fn law_refused_buffer_is_not_lost(model: DualModel, port: Port, buffer: Seq<u8>)
    ensures
        ({
            let (next, request) = model.listen_refused(port, buffer);
            &&& next.busy == model.busy && next.active == model.active && !next.settling
            &&& !model.settling ==> {
                &&& request is None
                &&& next.spare == Some(buffer)
                &&& !next.listening(port)
            }
            &&& model.settling ==> {
                let side = if port == Port::A || !model.a_listening {
                    Port::A
                } else {
                    Port::B
                };
                &&& request == Some(Listening { port: side, buffer })
                &&& next.spare is None
                &&& next.listening(side)
            }
        }),
{
}

/// Once a side has agreed to listen, the spare lets the other one listen too.
/// Without a spare, or with both listening, nothing more is asked for.
pub proof fn law_spare_goes_to_the_other_side(model: DualModel)
    ensures
        ({
            let (next, request) = model.listen_accepted();
            let free = !model.a_listening || !model.b_listening;
            &&& !model.settling ==> next == model && request is None
            &&& model.settling && model.spare is Some && free ==> {
                let side = if !model.a_listening {
                    Port::A
                } else {
                    Port::B
                };
                &&& request == Some(Listening { port: side, buffer: model.spare->0 })
                &&& next.listening(side) && next.spare is None && !next.settling
            }
            &&& model.settling && !(model.spare is Some && free) ==> {
                &&& request is None
                &&& next == (DualModel { settling: false, ..model })
            }
        }),
{
}

/// A message that is dropped leaves no trace but that its side listens again.
pub proof fn law_dropped_message_leaves_no_trace(
    model: DualModel,
    port: Port,
    other: Port,
    buffer: Seq<u8>,
    len: usize,
    result: Result<(), ErrorCode>,
)
    requires
        model.busy,
        other != port,
    ensures
        ({
            let next = model.on_received(port, buffer, len, result).0;
            &&& next.listening(other) == model.listening(other)
            &&& next.spare == model.spare && next.settling == model.settling
        }),
{
}

} // verus!
