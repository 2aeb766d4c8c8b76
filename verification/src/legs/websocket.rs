//! The WebSocket leg: what its events mean for the connection. The caller owns the socket
//! and its queues, reports each event, and does what the answer says.

use crate::errors::CoreError;
use crate::text::{decimal, push_decimal};
use vstd::prelude::*;

verus! {

/// How many messages wait for the socket at most.
pub const SEND_QUEUE_CAPACITY: usize = 256;

/// What to tell the task that waits for the connection to open.
#[derive(Debug)]
pub enum OpenSignal {
    /// Nothing: it has been told already.
    Silent,
    /// The connection is open.
    Opened,
    /// The connection failed.
    Failed(CoreError),
}

/// What to do with a message from the socket or for it.
#[derive(Debug)]
pub enum Handling {
    /// Pass it on.
    Pass(Vec<u8>),
    /// Drop it.
    Drop,
    /// Drop it, stop, and close the socket.
    Stop,
}

/// The connection of a WebSocket leg.
#[derive(Debug, Clone, Copy, PartialEq, Eq, Structural)]
pub struct WebSocketLeg {
    /// Whether the waiting task was told how opening went.
    pub signalled: bool,
    /// Whether either side closed the connection, or it failed.
    pub closed: bool,
}

impl WebSocketLeg {
    /// A connection that is being opened.
    pub fn connecting() -> (leg: Self)
        ensures
            leg == (WebSocketLeg { signalled: false, closed: false }),
    {
        WebSocketLeg { signalled: false, closed: false }
    }

    /// The socket opened. Only the first of opening, failing and closing is signalled.
    pub fn on_open(&mut self) -> (s: OpenSignal)
        ensures
            *final(self) == (WebSocketLeg { signalled: true, ..*old(self) }),
            old(self).signalled ==> s is Silent,
            !old(self).signalled ==> s is Opened,
    {
        if self.signalled {
            return OpenSignal::Silent;
        }
        self.signalled = true;
        OpenSignal::Opened
    }

    /// A message came. Text messages are dropped, and so is everything after closing.
    pub fn on_message(&self, binary: Option<Vec<u8>>) -> (h: Handling)
        ensures
            match binary {
                Some(bytes) => if self.closed {
                    h is Drop
                } else {
                    h == Handling::Pass(bytes)
                },
                None => h is Drop,
            },
    {
        match binary {
            Some(bytes) => if self.closed {
                Handling::Drop
            } else {
                Handling::Pass(bytes)
            },
            None => Handling::Drop,
        }
    }

    /// The socket failed with a message.
    pub fn on_error(&mut self, message: &str) -> (s: OpenSignal)
        ensures
            *final(self) == (WebSocketLeg { signalled: true, closed: true }),
            old(self).signalled ==> s is Silent,
            !old(self).signalled ==> (s matches OpenSignal::Failed(e) && e.says(
                "WebSocket error: "@ + message@,
            )),
    {
        self.closed = true;
        if self.signalled {
            return OpenSignal::Silent;
        }
        self.signalled = true;
        let mut text: String = "WebSocket error: ".to_owned();
        text.append(message);
        OpenSignal::Failed(CoreError::NetworkError(text))
    }

    /// The socket closed with a code and a reason.
    pub fn on_close(&mut self, code: u16, reason: &str) -> (s: OpenSignal)
        ensures
            *final(self) == (WebSocketLeg { signalled: true, closed: true }),
            old(self).signalled ==> s is Silent,
            !old(self).signalled ==> (s matches OpenSignal::Failed(e) && e.says(
                "WebSocket close: code="@ + decimal(code as nat) + " reason="@ + reason@,
            )),
    {
        self.closed = true;
        if self.signalled {
            return OpenSignal::Silent;
        }
        self.signalled = true;
        let mut text: String = "WebSocket close: code=".to_owned();
        push_decimal(&mut text, code as u64);
        text.append(" reason=");
        text.append(reason);
        OpenSignal::Failed(CoreError::NetworkError(text))
    }

    /// The outcome of opening, where the signal may have been lost.
    pub fn opened(signal: Option<OpenSignal>) -> (r: Result<(), CoreError>)
        ensures
            match signal {
                Some(OpenSignal::Opened) => r is Ok,
                Some(OpenSignal::Failed(e)) => r == Err::<(), CoreError>(e),
                _ => r matches Err(e) && e.says("WebSocket open signal lost"@),
            },
    {
        match signal {
            Some(OpenSignal::Opened) => Ok(()),
            Some(OpenSignal::Failed(e)) => Err(e),
            _ => Err(crate::errors::network_error("WebSocket open signal lost")),
        }
    }

    /// What the task that owns the socket does with a queued message.
    pub fn to_socket(&self, bytes: Vec<u8>) -> (h: Handling)
        ensures
            self.closed ==> h is Stop,
            !self.closed ==> h == Handling::Pass(bytes),
    {
        if self.closed {
            Handling::Stop
        } else {
            Handling::Pass(bytes)
        }
    }

    /// The socket refused a message: the connection is over.
    pub fn on_send_failed(&mut self) -> (h: Handling)
        ensures
            *final(self) == (WebSocketLeg { closed: true, ..*old(self) }),
            h is Stop,
    {
        self.closed = true;
        Handling::Stop
    }

    /// What a sender gets back, given whether the queue took its message; a closed leg
    /// takes none and answers with a network error.
    pub fn send_bytes(&self, queued: bool) -> (r: Result<(), CoreError>)
        ensures
            self.closed ==> (r matches Err(e) && e.says("WebSocket closed"@)),
            !self.closed && queued ==> r is Ok,
            !self.closed && !queued ==> (r matches Err(e) && e.says(
                "WebSocket send queue closed"@,
            )),
    {
        if self.closed {
            return Err(crate::errors::network_error("WebSocket closed"));
        }
        if queued {
            Ok(())
        } else {
            Err(crate::errors::network_error("WebSocket send queue closed"))
        }
    }

    /// What a receiver gets back, given the next message of the queue. Once the leg is closed,
    /// or the queue has ended, that is a network error.
    pub fn recv_bytes(&self, next: Option<Vec<u8>>) -> (r: Result<Vec<u8>, CoreError>)
        ensures
            match next {
                Some(bytes) if !self.closed => r == Ok::<Vec<u8>, CoreError>(bytes),
                _ => r matches Err(e) && e.says("WebSocket closed"@),
            },
    {
        match next {
            Some(bytes) if !self.closed => Ok(bytes),
            _ => Err(crate::errors::network_error("WebSocket closed")),
        }
    }

    /// Close the leg: nothing more is accepted for sending.
    pub fn close(&mut self)
        ensures
            *final(self) == (WebSocketLeg { closed: true, ..*old(self) }),
    {
        self.closed = true;
    }

    /// Whether the connection is closed.
    pub fn is_closed(&self) -> (b: bool)
        ensures
            b == self.closed,
    {
        self.closed
    }
}

} // verus!
