//! Reading the whole body of a direction from its two possibly aliased views,
//! and writing a replacement body back into both.
use vstd::prelude::*;

use crate::store::{
    all_held, concat_blocks, lemma_concat_push, BodyBuffers, BodyView, ChunkId, Direction,
};

verus! {

/// Whether two chunk sequences name the same storage, chunk by chunk and in
/// the same order.
pub fn same_chunks(a: &[ChunkId], b: &[ChunkId]) -> (r: bool)
    ensures
        r == (a@ == b@),
{
    if a.len() != b.len() {
        return false;
    }
    let mut i: usize = 0;
    while i < a.len()
        invariant
            i <= a@.len(),
            a@.len() == b@.len(),
            forall|j: int| 0 <= j < i ==> a@[j] == b@[j],
        decreases a@.len() - i,
    {
        if a[i] != b[i] {
            return false;
        }
        i = i + 1;
    }
    assert(a@ =~= b@);
    true
}

/// The identities of a view's chunks, without copying their bytes; none for an
/// absent view.
fn collect_chunk_ptrs(store: &BodyBuffers, direction: Direction, view: BodyView) -> (r: Vec<ChunkId>)
    ensures
        r@ == store.ids_of(direction, view),
{
    match store.get_view(direction, view) {
        Some(ids) => ids,
        None => Vec::new(),
    }
}

/// The bytes of a view's chunks, concatenated in order; none for an absent view.
pub(crate) fn collect_chunk_data(store: &BodyBuffers, direction: Direction, view: BodyView) -> (r: Vec<u8>)
    requires
        store.wf(),
    ensures
        r@ == store.bytes_of(direction, view),
{
    let ids = collect_chunk_ptrs(store, direction, view);
    let ghost blocks = store.blocks_model();
    assert(all_held(blocks, ids@));
    let mut data: Vec<u8> = Vec::new();
    let mut i: usize = 0;
    while i < ids.len()
        invariant
            i <= ids@.len(),
            blocks == store.blocks_model(),
            all_held(blocks, ids@),
            data@ == concat_blocks(blocks, ids@.take(i as int)),
        decreases ids@.len() - i,
    {
        let id = ids[i];
        assert(id.index() < blocks.len());
        let chunk = store.chunk_bytes(id);
        let ghost before = data@;
        let mut j: usize = 0;
        while j < chunk.len()
            invariant
                j <= chunk@.len(),
                data@ == before + chunk@.take(j as int),
            decreases chunk@.len() - j,
        {
            data.push(chunk[j]);
            j = j + 1;
            assert(data@ =~= before + chunk@.take(j as int));
        }
        proof {
            assert(chunk@.take(j as int) =~= chunk@);
            lemma_concat_push(blocks, ids@.take(i as int), id);
            assert(ids@.take(i as int).push(id) =~= ids@.take(i + 1));
        }
        i = i + 1;
    }
    assert(ids@.take(i as int) =~= ids@);
    data
}

/// The whole body of a direction. The identities of both views are compared
/// first; where they are the same, the views are one storage and the buffered
/// bytes are copied once. Otherwise the buffered bytes come first, then the
/// received ones. An absent view gives no bytes.
fn get_body_content(store: &BodyBuffers, direction: Direction) -> (r: Vec<u8>)
    requires
        store.wf(),
    ensures
        r@ == store.whole_body(direction),
{
    let received_ptrs = collect_chunk_ptrs(store, direction, BodyView::Received);
    let buffered_ptrs = collect_chunk_ptrs(store, direction, BodyView::Buffered);
    if same_chunks(received_ptrs.as_slice(), buffered_ptrs.as_slice()) {
        collect_chunk_data(store, direction, BodyView::Buffered)
    } else {
        let mut result = collect_chunk_data(store, direction, BodyView::Buffered);
        let mut received = collect_chunk_data(store, direction, BodyView::Received);
        result.append(&mut received);
        result
    }
}

/// Reads the whole request body by combining the buffered body and the latest
/// received body.
///
/// Meant to be called once the end of the request has been seen; earlier it
/// gives only the bytes delivered so far.
pub fn read_whole_request_body(store: &BodyBuffers) -> (r: Vec<u8>)
    requires
        store.wf(),
    ensures
        r@ == store.whole_body(Direction::Request),
{
    get_body_content(store, Direction::Request)
}

/// Reads the whole response body by combining the buffered body and the latest
/// received body.
///
/// Meant to be called once the end of the response has been seen; earlier it
/// gives only the bytes delivered so far.
pub fn read_whole_response_body(store: &BodyBuffers) -> (r: Vec<u8>)
    requires
        store.wf(),
    ensures
        r@ == store.whole_body(Direction::Response),
{
    get_body_content(store, Direction::Response)
}

/// Reads the whole body of either direction.
pub fn read_whole_body(store: &BodyBuffers, direction: Direction) -> (r: Vec<u8>)
    requires
        store.wf(),
    ensures
        r@ == store.whole_body(direction),
{
    get_body_content(store, direction)
}

/// Replaces the body of a direction: drains both views, then appends `body`
/// to the received view and to the buffered view. The second chunk shares the
/// storage of the first, so the views are aliased afterwards and the next read
/// gives `body` exactly once. Fails where `body` is longer than the store's
/// limit; both views are then left drained, and so still consistent.
pub fn replace_whole_body(store: &mut BodyBuffers, direction: Direction, body: &[u8]) -> (r: bool)
    requires
        old(store).wf(),
    ensures
        final(store).wf(),
        final(store).limit() == old(store).limit(),
        r == (body@.len() <= old(store).limit()),
        r ==> final(store).bytes_of(direction, BodyView::Received) == body@,
        r ==> final(store).bytes_of(direction, BodyView::Buffered) == body@,
        r ==> final(store).aliased(direction),
        r ==> final(store).whole_body(direction) == body@,
        !r ==> final(store).ids_of(direction, BodyView::Received).len() == 0,
        !r ==> final(store).ids_of(direction, BodyView::Buffered).len() == 0,
        !r ==> final(store).whole_body(direction).len() == 0,
        forall|d: Direction, v: BodyView|
            d != direction ==> {
                &&& #[trigger] final(store).view_model(d, v) == old(store).view_model(d, v)
                &&& final(store).bytes_of(d, v) == old(store).bytes_of(d, v)
            },
{
    let ghost start = *store;
    store.drain_view(direction, BodyView::Received);
    store.drain_view(direction, BodyView::Buffered);
    let ghost drained = *store;
    assert(drained.bytes_of(direction, BodyView::Received) =~= Seq::<u8>::empty());
    assert(drained.bytes_of(direction, BodyView::Buffered) =~= Seq::<u8>::empty());
    assert forall|d: Direction, v: BodyView| d != direction implies
        #[trigger] drained.view_model(d, v) == start.view_model(d, v) && drained.bytes_of(d, v) == start.bytes_of(d, v) by {
        assert(drained.ids_of(d, v) == start.ids_of(d, v));
    }
    if !store.append_view(direction, BodyView::Received, body) {
        assert(store.whole_body(direction) =~= Seq::<u8>::empty());
        return false;
    }
    let ghost first = *store;
    assert(!drained.shares_at(direction, BodyView::Received, body@));
    assert(first.ids_of(direction, BodyView::Received).len() == 1);
    assert(first.bytes_of(direction, BodyView::Received) =~= body@);
    let ghost id = first.ids_of(direction, BodyView::Received).last();
    assert(first.block(id) == body@);
    assert(first.ids_of(direction, BodyView::Received)[0] == id);
    assert(first.shares_at(direction, BodyView::Buffered, body@));
    let ok = store.append_view(direction, BodyView::Buffered, body);
    assert(ok);
    assert(store.ids_of(direction, BodyView::Buffered) =~= seq![id]);
    assert(store.ids_of(direction, BodyView::Received) =~= seq![id]);
    assert(store.bytes_of(direction, BodyView::Buffered) =~= body@);
    ok
}

/// Where the views of a direction are aliased, a read gives the buffered bytes
/// once: one copy of the content, never two.
pub proof fn lemma_aliased_read_once(store: BodyBuffers, d: Direction)
    requires
        store.wf(),
        store.ids_of(d, BodyView::Received) == store.ids_of(d, BodyView::Buffered),
    ensures
        store.whole_body(d) == store.bytes_of(d, BodyView::Buffered),
        store.whole_body(d).len() == store.bytes_of(d, BodyView::Received).len(),
{
}

/// Where the views of a direction are not aliased, a read gives the buffered
/// bytes followed by the received bytes.
pub proof fn lemma_disjoint_read_concatenates(store: BodyBuffers, d: Direction)
    requires
        store.wf(),
        store.ids_of(d, BodyView::Received) != store.ids_of(d, BodyView::Buffered),
    ensures
        store.whole_body(d) == store.bytes_of(d, BodyView::Buffered) + store.bytes_of(d, BodyView::Received),
{
}

/// An absent view counts as no bytes: with the buffered view absent a read
/// gives the received bytes, with the received view absent the buffered bytes,
/// and with both absent nothing.
pub proof fn lemma_absent_views(store: BodyBuffers, d: Direction)
    requires
        store.wf(),
    ensures
        store.view_model(d, BodyView::Buffered) is None ==> store.whole_body(d) == store.bytes_of(d, BodyView::Received),
        store.view_model(d, BodyView::Received) is None ==> store.whole_body(d) == store.bytes_of(d, BodyView::Buffered),
        store.view_model(d, BodyView::Buffered) is None && store.view_model(d, BodyView::Received) is None
            ==> store.whole_body(d).len() == 0,
{
    if store.view_model(d, BodyView::Buffered) is None {
        assert(store.bytes_of(d, BodyView::Buffered) =~= Seq::<u8>::empty());
        assert(store.whole_body(d) =~= store.bytes_of(d, BodyView::Received));
    }
    if store.view_model(d, BodyView::Received) is None {
        assert(store.bytes_of(d, BodyView::Received) =~= Seq::<u8>::empty());
        assert(store.whole_body(d) =~= store.bytes_of(d, BodyView::Buffered));
    }
}

} // verus!
