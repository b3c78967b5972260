//! Per-stream state for one direction: the received bytes seen across body
//! callbacks, and the whole body read once the end of the stream is known.
use vstd::prelude::*;

use crate::body::{collect_chunk_data, read_whole_body};
use crate::store::{BodyBuffers, BodyView, Direction};

verus! {

/// The body state of one direction of one stream. It collects the received
/// bytes of each callback until the end of the stream, when it reads the whole
/// body from the store and keeps it; after that it no longer changes.
pub struct StreamBodyState {
    direction: Direction,
    received: Vec<u8>,
    whole_body: Option<Vec<u8>>,
}

impl StreamBodyState {
    pub closed spec fn direction_model(&self) -> Direction {
        self.direction
    }

    /// The received bytes collected so far, in the order of the callbacks.
    pub closed spec fn received_model(&self) -> Seq<u8> {
        self.received@
    }

    /// The whole body, once the end of the stream has been seen.
    pub closed spec fn final_model(&self) -> Option<Seq<u8>> {
        match self.whole_body {
            Some(b) => Some(b@),
            None => None,
        }
    }

    pub open spec fn finalized(&self) -> bool {
        self.final_model() is Some
    }

    /// A state that has seen no callback.
    pub fn new(direction: Direction) -> (r: StreamBodyState)
        ensures
            r.direction_model() == direction,
            r.received_model().len() == 0,
            r.final_model() is None,
    {
        StreamBodyState { direction, received: Vec::new(), whole_body: None }
    }

    pub fn direction(&self) -> (r: Direction)
        ensures
            r == self.direction_model(),
    {
        self.direction
    }

    /// A body callback. Before the end of the stream it adds the received view's
    /// bytes to what was collected; where `end_of_stream` is set it then reads
    /// the whole body and keeps it. Once that is done, callbacks change nothing.
    pub fn on_body(&mut self, store: &BodyBuffers, end_of_stream: bool)
        requires
            store.wf(),
        ensures
            final(self).direction_model() == old(self).direction_model(),
            old(self).finalized() ==> final(self).received_model() == old(self).received_model()
                && final(self).final_model() == old(self).final_model(),
            !old(self).finalized() ==> final(self).received_model() == old(self).received_model()
                + store.bytes_of(old(self).direction_model(), BodyView::Received),
            !old(self).finalized() ==> final(self).final_model() == (if end_of_stream {
                Some(store.whole_body(old(self).direction_model()))
            } else {
                None::<Seq<u8>>
            }),
    {
        if self.whole_body.is_some() {
            return;
        }
        let mut fragment = collect_chunk_data(store, self.direction, BodyView::Received);
        self.received.append(&mut fragment);
        if end_of_stream {
            self.whole_body = Some(read_whole_body(store, self.direction));
        }
    }

    /// The trailers callback: the end of the stream is known, so the whole body
    /// is read and kept, unless it already was.
    pub fn on_trailers(&mut self, store: &BodyBuffers)
        requires
            store.wf(),
        ensures
            final(self).direction_model() == old(self).direction_model(),
            final(self).received_model() == old(self).received_model(),
            old(self).finalized() ==> final(self).final_model() == old(self).final_model(),
            !old(self).finalized() ==> final(self).final_model() == Some(
                store.whole_body(old(self).direction_model()),
            ),
    {
        if self.whole_body.is_none() {
            self.whole_body = Some(read_whole_body(store, self.direction));
        }
    }

    pub fn is_finalized(&self) -> (r: bool)
        ensures
            r == self.finalized(),
    {
        self.whole_body.is_some()
    }

    /// The received bytes collected so far.
    pub fn received_bytes(&self) -> (r: &Vec<u8>)
        ensures
            r@ == self.received_model(),
    {
        &self.received
    }

    /// The whole body, once the end of the stream has been seen.
    pub fn whole_body(&self) -> (r: Option<&Vec<u8>>)
        ensures
            r is Some <==> self.final_model() is Some,
            r is Some ==> self.final_model() == Some(r->0@),
    {
        self.whole_body.as_ref()
    }
}

} // verus!
