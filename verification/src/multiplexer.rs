//! Stream demultiplexing: which channel a decrypted payload, an acknowledgement or a
//! closure belongs to, by the stream id of its packet. Stream id 0 is the session's
//! control channel, and 1 is left to the session's raw application channel.

use crate::tables::{
    no_numbers, number_table, table_contains, table_get, table_insert, table_len, table_new,
    table_remove,
};
use crate::types::SequenceNumber;
use dashmap::DashMap;
use vstd::prelude::*;

verus! {

/// The stream id of the control channel.
pub const CONTROL_STREAM: u32 = 0;

/// The first id that is given to a new stream.
pub const FIRST_STREAM: u32 = 2;

/// A message for a stream.
#[derive(Debug, Clone, PartialEq, Eq)]
pub enum StreamMessage {
    /// A payload.
    Data(Vec<u8>),
    /// The acknowledgement of a sequence number.
    Ack(SequenceNumber),
    /// The stream is closed.
    Close,
}

/// Where a message goes.
#[derive(Debug, Clone, PartialEq, Eq)]
pub enum Route {
    /// To the control channel.
    Control(Vec<u8>),
    /// To the channel of a stream.
    Stream { channel: u64, message: StreamMessage },
    /// Nowhere: there is no such stream.
    Dropped,
}

/// A registered stream: its id and the number of its channel.
#[derive(Debug, Clone, Copy, PartialEq, Eq, Structural)]
pub struct StreamHandle {
    pub stream_id: u32,
    pub channel: u64,
}

/// The registered streams and the next id.
#[verifier::ext_equal]
pub struct DemuxState {
    /// The channel of each stream.
    pub streams: Map<u32, u64>,
    pub next_stream_id: u32,
}

impl DemuxState {
    /// The state after a stream with the next id was opened. Ids start over after the largest.
    pub open spec fn opened(self, channel: u64) -> DemuxState {
        DemuxState {
            streams: self.streams.insert(self.next_stream_id, channel),
            next_stream_id: self.next_stream_id.wrapping_add(1),
        }
    }

    /// The state after a stream with a given id was registered: later streams get larger ids.
    pub open spec fn registered(self, id: u32, channel: u64) -> DemuxState {
        DemuxState {
            streams: self.streams.insert(id, channel),
            next_stream_id: if self.next_stream_id < id.wrapping_add(1) {
                id.wrapping_add(1)
            } else {
                self.next_stream_id
            },
        }
    }

    /// The state after a stream was closed.
    pub open spec fn closed(self, id: u32) -> DemuxState {
        DemuxState { streams: self.streams.remove(id), ..self }
    }

    /// The channel that messages of a stream go to.
    pub open spec fn channel_of(self, id: u32) -> Option<u64> {
        if id != CONTROL_STREAM && self.streams.contains_key(id) {
            Some(self.streams[id])
        } else {
            None
        }
    }

    /// Whether all ids in use are below the next one.
    pub open spec fn ids_below_next(self) -> bool {
        forall|id: u32| #[trigger] self.streams.contains_key(id) ==> id < self.next_stream_id
    }
}

/// Routes messages to the channels of streams.
pub struct StreamDemultiplexer {
    streams: DashMap<u32, u64>,
    next_stream_id: u32,
}

impl View for StreamDemultiplexer {
    type V = DemuxState;

    closed spec fn view(&self) -> DemuxState {
        DemuxState { streams: number_table(self.streams), next_stream_id: self.next_stream_id }
    }
}

impl StreamDemultiplexer {
    /// A demultiplexer without streams.
    pub fn new() -> (d: Self)
        ensures
            d@ == (DemuxState { streams: no_numbers(), next_stream_id: FIRST_STREAM }),
    {
        StreamDemultiplexer { streams: table_new(), next_stream_id: FIRST_STREAM }
    }

    /// Open a stream whose messages go to `channel`. It gets the next id.
    pub fn open_stream(&mut self, channel: u64) -> (h: StreamHandle)
        ensures
            final(self)@ == old(self)@.opened(channel),
            h == (StreamHandle { stream_id: old(self)@.next_stream_id, channel }),
    {
        let stream_id: u32 = self.next_stream_id;
        self.next_stream_id = self.next_stream_id.wrapping_add(1);
        table_insert(&mut self.streams, stream_id, channel);
        StreamHandle { stream_id, channel }
    }

    /// Register a stream under an id that the peer chose.
    pub fn register_stream(&mut self, stream_id: u32, channel: u64) -> (h: StreamHandle)
        ensures
            final(self)@ == old(self)@.registered(stream_id, channel),
            h == (StreamHandle { stream_id, channel }),
    {
        table_insert(&mut self.streams, stream_id, channel);
        let after: u32 = stream_id.wrapping_add(1);
        if self.next_stream_id < after {
            self.next_stream_id = after;
        }
        StreamHandle { stream_id, channel }
    }

    /// Forget a stream.
    pub fn close_stream(&mut self, stream_id: u32)
        ensures
            final(self)@ == old(self)@.closed(stream_id),
    {
        table_remove(&mut self.streams, stream_id);
    }

    /// Where a payload goes: to the control channel or to the channel of its stream.
    pub fn route_data(&self, stream_id: u32, payload: Vec<u8>) -> (r: Route)
        ensures
            stream_id == CONTROL_STREAM ==> r == Route::Control(payload),
            stream_id != CONTROL_STREAM ==> (match self@.channel_of(stream_id) {
                Some(channel) => r == (Route::Stream {
                    channel,
                    message: StreamMessage::Data(payload),
                }),
                None => r == Route::Dropped,
            }),
    {
        if stream_id == CONTROL_STREAM {
            return Route::Control(payload);
        }
        match table_get(&self.streams, stream_id) {
            Some(channel) => Route::Stream { channel, message: StreamMessage::Data(payload) },
            None => Route::Dropped,
        }
    }

    /// Where an acknowledgement goes. The control channel takes none.
    pub fn route_ack(&self, stream_id: u32, seq: SequenceNumber) -> (r: Route)
        ensures
            match self@.channel_of(stream_id) {
                Some(channel) => r == (Route::Stream { channel, message: StreamMessage::Ack(seq) }),
                None => r == Route::Dropped,
            },
    {
        if stream_id == CONTROL_STREAM {
            return Route::Dropped;
        }
        match table_get(&self.streams, stream_id) {
            Some(channel) => Route::Stream { channel, message: StreamMessage::Ack(seq) },
            None => Route::Dropped,
        }
    }

    /// Where the closure of a stream goes. The control channel takes none.
    pub fn route_close(&self, stream_id: u32) -> (r: Route)
        ensures
            match self@.channel_of(stream_id) {
                Some(channel) => r == (Route::Stream { channel, message: StreamMessage::Close }),
                None => r == Route::Dropped,
            },
    {
        if stream_id == CONTROL_STREAM {
            return Route::Dropped;
        }
        match table_get(&self.streams, stream_id) {
            Some(channel) => Route::Stream { channel, message: StreamMessage::Close },
            None => Route::Dropped,
        }
    }

    /// How many streams are registered.
    pub fn active_stream_count(&self) -> (n: usize)
        ensures
            n == self@.streams.dom().len(),
    {
        table_len(&self.streams)
    }

    /// Whether a stream is registered.
    pub fn has_stream(&self, stream_id: u32) -> (b: bool)
        ensures
            b == self@.streams.contains_key(stream_id),
    {
        table_contains(&self.streams, stream_id)
    }
}

/// Until the ids run out, a stream that is opened gets an id that no stream has, and
/// registering and closing streams keeps it so.
pub proof fn law_opened_ids_are_fresh(s: DemuxState, id: u32, channel: u64)
    requires
        s.ids_below_next(),
        FIRST_STREAM <= s.next_stream_id < u32::MAX,
        id < u32::MAX,
    ensures
        !s.streams.contains_key(s.next_stream_id),
        s.opened(channel).ids_below_next(),
        s.opened(channel).channel_of(s.next_stream_id) == Some(channel),
        s.opened(channel).next_stream_id > s.next_stream_id,
        s.registered(id, channel).ids_below_next(),
        s.registered(id, channel).next_stream_id > id,
        s.closed(id).ids_below_next(),
{
}

/// A stream gets no messages once it is closed, and closing it leaves the others alone.
pub proof fn law_closed_stream_gets_nothing(s: DemuxState, id: u32, other: u32)
    requires
        other != id,
    ensures
        s.closed(id).channel_of(id) is None,
        s.closed(id).channel_of(other) == s.channel_of(other),
{
}

/// Which streams get messages: those that are registered, on the channel that they were registered with,
/// and never the control stream 0. Ids are given from 2 on, one after another.
pub proof fn law_messages_reach_their_stream(s: DemuxState, id: u32, other: u32, channel: u64)
    requires
        other != id,
    ensures
        s.channel_of(0) is None,
        id != 0 ==> (s.channel_of(id) is Some <==> s.streams.contains_key(id)),
        id != 0 && s.streams.contains_key(id) ==> s.channel_of(id) == Some(s.streams[id]),
        id != 0 ==> s.registered(id, channel).channel_of(id) == Some(channel),
        s.registered(id, channel).channel_of(other) == s.channel_of(other),
        s.next_stream_id != 0 ==> s.opened(channel).channel_of(s.next_stream_id) == Some(channel),
        other != s.next_stream_id ==> s.opened(channel).channel_of(other) == s.channel_of(other),
        s.next_stream_id < u32::MAX ==> s.opened(channel).next_stream_id == s.next_stream_id + 1,
        id < u32::MAX && id >= s.next_stream_id ==> s.registered(id, channel).next_stream_id == id
            + 1,
        id < s.next_stream_id ==> s.registered(id, channel).next_stream_id == s.next_stream_id,
        s.closed(id).next_stream_id == s.next_stream_id,
        FIRST_STREAM == 2,
{
}

/// After the last number comes zero: the ids that are opened start over there, and to register the last number moves
/// nothing.
pub proof fn law_ids_start_over(s: DemuxState, id: u32, channel: u64)
    ensures
        s.next_stream_id == u32::MAX ==> s.opened(channel).next_stream_id == 0,
        id == u32::MAX ==> s.registered(id, channel).next_stream_id == s.next_stream_id,
{
}

} // verus!
