//! An in-memory chunk store: a table of storage blocks, and for each direction
//! of a stream the two views (received and buffered) as sequences of block
//! identities.
use vstd::prelude::*;

verus! {

/// The direction of a body.
#[derive(Clone, Copy, Debug, PartialEq, Eq, Structural)]
pub enum Direction {
    Request,
    Response,
}

/// One of the two views that the store keeps of a direction's body.
#[derive(Clone, Copy, Debug, PartialEq, Eq, Structural)]
pub enum BodyView {
    /// The newest fragments delivered to this stage.
    Received,
    /// The fragments that the store retains.
    Buffered,
}

impl BodyView {
    pub open spec fn other(self) -> BodyView {
        match self {
            BodyView::Received => BodyView::Buffered,
            BodyView::Buffered => BodyView::Received,
        }
    }

    pub fn other_view(self) -> (r: BodyView)
        ensures
            r == self.other(),
    {
        match self {
            BodyView::Received => BodyView::Buffered,
            BodyView::Buffered => BodyView::Received,
        }
    }
}

/// The identity of a chunk's storage: a token that is only ever compared.
#[derive(Clone, Copy, Debug, PartialEq, Eq, Structural)]
pub struct ChunkId(usize);

impl ChunkId {
    /// The position of the storage block in the store's table.
    pub closed spec fn index(self) -> nat {
        self.0 as nat
    }
}

/// The bytes of the blocks named by `ids`, in order.
pub open spec fn concat_blocks(blocks: Seq<Seq<u8>>, ids: Seq<ChunkId>) -> Seq<u8>
    decreases ids.len(),
{
    if ids.len() == 0 {
        Seq::empty()
    } else {
        concat_blocks(blocks, ids.drop_last()) + blocks[ids.last().index() as int]
    }
}

/// Blocks of `ext` agree with those of `blocks` wherever `blocks` has one.
pub open spec fn extends(ext: Seq<Seq<u8>>, blocks: Seq<Seq<u8>>) -> bool {
    &&& blocks.len() <= ext.len()
    &&& forall|j: int| 0 <= j < blocks.len() ==> #[trigger] ext[j] == blocks[j]
}

/// Every identity in `ids` names a block of `blocks`.
pub open spec fn all_held(blocks: Seq<Seq<u8>>, ids: Seq<ChunkId>) -> bool {
    forall|i: int| 0 <= i < ids.len() ==> #[trigger] ids[i].index() < blocks.len()
}

/// Concatenation only reads the blocks that it names, so it is unchanged when
/// the table grows.
pub proof fn lemma_concat_extends(blocks: Seq<Seq<u8>>, ext: Seq<Seq<u8>>, ids: Seq<ChunkId>)
    requires
        extends(ext, blocks),
        all_held(blocks, ids),
    ensures
        concat_blocks(ext, ids) == concat_blocks(blocks, ids),
    decreases ids.len(),
{
    if ids.len() > 0 {
        assert(ids[ids.len() - 1] == ids.last());
        lemma_concat_extends(blocks, ext, ids.drop_last());
    }
}

/// The concatenation of one more block.
pub proof fn lemma_concat_push(blocks: Seq<Seq<u8>>, ids: Seq<ChunkId>, id: ChunkId)
    ensures
        concat_blocks(blocks, ids.push(id)) == concat_blocks(blocks, ids) + blocks[id.index() as int],
{
    assert(ids.push(id).drop_last() =~= ids);
}

/// A prefix of the identities gives a prefix of the bytes, so no more bytes.
pub proof fn lemma_concat_prefix_len(blocks: Seq<Seq<u8>>, ids: Seq<ChunkId>, k: int)
    requires
        0 <= k <= ids.len(),
    ensures
        concat_blocks(blocks, ids.take(k)).len() <= concat_blocks(blocks, ids).len(),
    decreases ids.len(),
{
    if k < ids.len() {
        assert(ids.drop_last().take(k) =~= ids.take(k));
        lemma_concat_prefix_len(blocks, ids.drop_last(), k);
    } else {
        assert(ids.take(k) =~= ids);
    }
}

/// Whether two byte strings are equal.
pub fn bytes_equal(a: &[u8], b: &[u8]) -> (r: bool)
    ensures
        r == (a@ == b@),
{
    if a.len() != b.len() {
        return false;
    }
    let mut i: usize = 0;
    while i < a.len()
        invariant
            i <= a@.len(),
            a@.len() == b@.len(),
            forall|j: int| 0 <= j < i ==> a@[j] == b@[j],
        decreases a@.len() - i,
    {
        if a[i] != b[i] {
            return false;
        }
        i = i + 1;
    }
    assert(a@ =~= b@);
    true
}

fn copy_bytes(data: &[u8]) -> (r: Vec<u8>)
    ensures
        r@ == data@,
{
    let mut out: Vec<u8> = Vec::new();
    let mut i: usize = 0;
    while i < data.len()
        invariant
            i <= data@.len(),
            out@ == data@.take(i as int),
        decreases data@.len() - i,
    {
        out.push(data[i]);
        i = i + 1;
        assert(out@ =~= data@.take(i as int));
    }
    assert(data@.take(i as int) =~= data@);
    out
}

pub open spec fn opt_view(o: Option<Vec<ChunkId>>) -> Option<Seq<ChunkId>> {
    match o {
        Some(v) => Some(v@),
        None => None,
    }
}

/// A chunk store: storage blocks, and the received and buffered views of each
/// direction as sequences of block identities. A view may be absent.
pub struct BodyBuffers {
    blocks: Vec<Vec<u8>>,
    request_received: Option<Vec<ChunkId>>,
    request_buffered: Option<Vec<ChunkId>>,
    response_received: Option<Vec<ChunkId>>,
    response_buffered: Option<Vec<ChunkId>>,
    buffer_limit: u64,
}

impl BodyBuffers {
    /// The contents of the storage blocks, by position.
    pub closed spec fn blocks_model(&self) -> Seq<Seq<u8>> {
        self.blocks@.map_values(|b: Vec<u8>| b@)
    }

    /// The identities in view `v` of direction `d`, or `None` where the view is absent.
    pub closed spec fn view_model(&self, d: Direction, v: BodyView) -> Option<Seq<ChunkId>> {
        match (d, v) {
            (Direction::Request, BodyView::Received) => opt_view(self.request_received),
            (Direction::Request, BodyView::Buffered) => opt_view(self.request_buffered),
            (Direction::Response, BodyView::Received) => opt_view(self.response_received),
            (Direction::Response, BodyView::Buffered) => opt_view(self.response_buffered),
        }
    }

    /// The most bytes that one view may hold.
    pub closed spec fn limit(&self) -> u64 {
        self.buffer_limit
    }

    /// The identities in a view; an absent view has none.
    pub open spec fn ids_of(&self, d: Direction, v: BodyView) -> Seq<ChunkId> {
        match self.view_model(d, v) {
            Some(ids) => ids,
            None => Seq::empty(),
        }
    }

    pub open spec fn holds(&self, id: ChunkId) -> bool {
        id.index() < self.blocks_model().len()
    }

    pub open spec fn block(&self, id: ChunkId) -> Seq<u8> {
        self.blocks_model()[id.index() as int]
    }

    /// Every view names only blocks that the store holds.
    pub open spec fn wf(&self) -> bool {
        forall|d: Direction, v: BodyView| all_held(self.blocks_model(), #[trigger] self.ids_of(d, v))
    }

    /// The bytes of a view, its chunks concatenated in order.
    pub open spec fn bytes_of(&self, d: Direction, v: BodyView) -> Seq<u8> {
        concat_blocks(self.blocks_model(), self.ids_of(d, v))
    }

    /// The two views of `d` are aliased: the same identities, in the same order.
    pub open spec fn aliased(&self, d: Direction) -> bool {
        self.ids_of(d, BodyView::Received) == self.ids_of(d, BodyView::Buffered)
    }

    /// The whole body of a direction: the buffered bytes once where the views
    /// are aliased, else the buffered bytes followed by the received ones.
    pub open spec fn whole_body(&self, d: Direction) -> Seq<u8> {
        if self.aliased(d) {
            self.bytes_of(d, BodyView::Buffered)
        } else {
            self.bytes_of(d, BodyView::Buffered) + self.bytes_of(d, BodyView::Received)
        }
    }

    /// The other view of `d` holds, at the position where a chunk appended to
    /// `v` would stand, a block with exactly the bytes `data`.
    pub open spec fn shares_at(&self, d: Direction, v: BodyView, data: Seq<u8>) -> bool {
        let pos = self.ids_of(d, v).len();
        let other = self.ids_of(d, v.other());
        pos < other.len() && self.block(other[pos as int]) == data
    }

    /// The views other than `v` of `d` are the same in `self` and `other`.
    pub open spec fn same_views_except(&self, other: &BodyBuffers, d: Direction, v: BodyView) -> bool {
        forall|d2: Direction, v2: BodyView|
            !(d2 == d && v2 == v) ==> #[trigger] other.view_model(d2, v2) == self.view_model(d2, v2)
    }

    /// An empty store: no blocks, every view absent.
    pub fn new(buffer_limit: u64) -> (r: BodyBuffers)
        ensures
            r.wf(),
            r.blocks_model().len() == 0,
            forall|d: Direction, v: BodyView| #[trigger] r.view_model(d, v) is None,
            r.limit() == buffer_limit,
    {
        BodyBuffers {
            blocks: Vec::new(),
            request_received: None,
            request_buffered: None,
            response_received: None,
            response_buffered: None,
            buffer_limit,
        }
    }

    pub fn buffer_limit(&self) -> (r: u64)
        ensures
            r == self.limit(),
    {
        self.buffer_limit
    }

    pub fn set_buffer_limit(&mut self, limit: u64)
        ensures
            final(self).limit() == limit,
            final(self).blocks_model() == old(self).blocks_model(),
            forall|d: Direction, v: BodyView|
                #[trigger] final(self).view_model(d, v) == old(self).view_model(d, v),
    {
        self.buffer_limit = limit;
    }

    fn view_ref(&self, d: Direction, v: BodyView) -> (r: &Option<Vec<ChunkId>>)
        ensures
            opt_view(*r) == self.view_model(d, v),
    {
        match (d, v) {
            (Direction::Request, BodyView::Received) => &self.request_received,
            (Direction::Request, BodyView::Buffered) => &self.request_buffered,
            (Direction::Response, BodyView::Received) => &self.response_received,
            (Direction::Response, BodyView::Buffered) => &self.response_buffered,
        }
    }

    fn put_view(&mut self, d: Direction, v: BodyView, ids: Option<Vec<ChunkId>>)
        ensures
            final(self).view_model(d, v) == opt_view(ids),
            old(self).same_views_except(final(self), d, v),
            final(self).blocks_model() == old(self).blocks_model(),
            final(self).limit() == old(self).limit(),
    {
        match (d, v) {
            (Direction::Request, BodyView::Received) => self.request_received = ids,
            (Direction::Request, BodyView::Buffered) => self.request_buffered = ids,
            (Direction::Response, BodyView::Received) => self.response_received = ids,
            (Direction::Response, BodyView::Buffered) => self.response_buffered = ids,
        }
    }

    /// Stores a block of bytes and returns its identity. No view names it yet.
    pub fn add_block(&mut self, data: Vec<u8>) -> (r: ChunkId)
        requires
            old(self).wf(),
        ensures
            final(self).wf(),
            r.index() == old(self).blocks_model().len(),
            final(self).blocks_model() == old(self).blocks_model().push(data@),
            final(self).limit() == old(self).limit(),
            forall|d: Direction, v: BodyView|
                #[trigger] final(self).view_model(d, v) == old(self).view_model(d, v),
    {
        let r = ChunkId(self.blocks.len());
        let ghost prev = *self;
        self.blocks.push(data);
        assert(self.blocks_model() =~= prev.blocks_model().push(data@));
        assert forall|d: Direction, v: BodyView| all_held(self.blocks_model(), #[trigger] self.ids_of(d, v)) by {
            assert(all_held(prev.blocks_model(), prev.ids_of(d, v)));
        }
        r
    }

    /// The bytes of a block.
    pub fn chunk_bytes(&self, id: ChunkId) -> (r: &Vec<u8>)
        requires
            self.holds(id),
        ensures
            r@ == self.block(id),
    {
        &self.blocks[id.0]
    }

    /// The identities of a view, or `None` where the view is absent.
    pub fn get_view(&self, d: Direction, v: BodyView) -> (r: Option<Vec<ChunkId>>)
        ensures
            opt_view(r) == self.view_model(d, v),
    {
        match self.view_ref(d, v) {
            Some(ids) => {
                let mut out: Vec<ChunkId> = Vec::new();
                let mut i: usize = 0;
                while i < ids.len()
                    invariant
                        i <= ids@.len(),
                        out@ == ids@.subrange(0, i as int),
                    decreases ids@.len() - i,
                {
                    out.push(ids[i]);
                    i = i + 1;
                    assert(out@ =~= ids@.subrange(0, i as int));
                }
                assert(out@ =~= ids@);
                Some(out)
            },
            None => None,
        }
    }

    /// Makes view `v` of `d` the given chunks (or absent). Refused, and nothing
    /// changed, where an identity names no block of the store.
    pub fn set_view(&mut self, d: Direction, v: BodyView, ids: Option<Vec<ChunkId>>) -> (r: bool)
        requires
            old(self).wf(),
        ensures
            final(self).wf(),
            r == (match ids {
                Some(ids) => all_held(old(self).blocks_model(), ids@),
                None => true,
            }),
            r ==> final(self).view_model(d, v) == opt_view(ids),
            r ==> old(self).same_views_except(final(self), d, v),
            !r ==> *final(self) == *old(self),
            final(self).blocks_model() == old(self).blocks_model(),
            final(self).limit() == old(self).limit(),
    {
        if let Some(list) = &ids {
            let mut i: usize = 0;
            while i < list.len()
                invariant
                    i <= list@.len(),
                    ids == Some(*list),
                    self.wf(),
                    self.blocks_model().len() == self.blocks@.len(),
                    forall|j: int| 0 <= j < i ==> #[trigger] list@[j].index() < self.blocks_model().len(),
                decreases list@.len() - i,
            {
                if list[i].0 >= self.blocks.len() {
                    assert(!(list@[i as int].index() < self.blocks_model().len()));
                    return false;
                }
                i = i + 1;
            }
        }
        let ghost prev = *self;
        self.put_view(d, v, ids);
        assert forall|d2: Direction, v2: BodyView| all_held(self.blocks_model(), #[trigger] self.ids_of(d2, v2)) by {
            if !(d2 == d && v2 == v) {
                assert(all_held(prev.blocks_model(), prev.ids_of(d2, v2)));
            }
        }
        true
    }

    /// Whether view `v` of `d` can take `extra` more bytes within the limit.
    fn view_fits(&self, d: Direction, v: BodyView, extra: usize) -> (r: bool)
        requires
            self.wf(),
        ensures
            r == (self.bytes_of(d, v).len() + extra <= self.limit()),
    {
        let limit = self.buffer_limit;
        if extra as u64 > limit {
            return false;
        }
        let mut total: u64 = extra as u64;
        match self.view_ref(d, v) {
            None => true,
            Some(ids) => {
                let ghost blocks = self.blocks_model();
                assert(all_held(blocks, self.ids_of(d, v)));
                let mut i: usize = 0;
                while i < ids.len()
                    invariant
                        i <= ids@.len(),
                        ids@ == self.ids_of(d, v),
                        blocks == self.blocks_model(),
                        blocks.len() == self.blocks@.len(),
                        all_held(blocks, ids@),
                        limit == self.limit(),
                        total <= limit,
                        total == concat_blocks(blocks, ids@.take(i as int)).len() + extra,
                    decreases ids@.len() - i,
                {
                    let id = ids[i];
                    assert(id.index() < blocks.len());
                    let len = self.blocks[id.0].len() as u64;
                    proof {
                        lemma_concat_push(blocks, ids@.take(i as int), id);
                        assert(ids@.take(i as int).push(id) =~= ids@.take(i + 1));
                        assert(blocks[id.index() as int] == self.blocks@[id.0 as int]@);
                    }
                    if len > limit - total {
                        proof {
                            lemma_concat_prefix_len(blocks, ids@, i + 1);
                        }
                        return false;
                    }
                    total = total + len;
                    i = i + 1;
                }
                assert(ids@.take(i as int) =~= ids@);
                true
            },
        }
    }

    /// Removes every chunk of a view. An absent view stays absent. Returns
    /// whether there was a chunk to remove.
    pub fn drain_view(&mut self, d: Direction, v: BodyView) -> (r: bool)
        requires
            old(self).wf(),
        ensures
            final(self).wf(),
            r == (old(self).ids_of(d, v).len() > 0),
            final(self).view_model(d, v) == (match old(self).view_model(d, v) {
                Some(_) => Some(Seq::<ChunkId>::empty()),
                None => None,
            }),
            final(self).ids_of(d, v).len() == 0,
            old(self).same_views_except(final(self), d, v),
            final(self).blocks_model() == old(self).blocks_model(),
            final(self).limit() == old(self).limit(),
    {
        let ghost prev = *self;
        let (present, nonempty) = match self.view_ref(d, v) {
            Some(ids) => (true, ids.len() > 0),
            None => (false, false),
        };
        if present {
            self.put_view(d, v, Some(Vec::new()));
        }
        assert forall|d2: Direction, v2: BodyView| all_held(self.blocks_model(), #[trigger] self.ids_of(d2, v2)) by {
            if !(d2 == d && v2 == v) {
                assert(all_held(prev.blocks_model(), prev.ids_of(d2, v2)));
            }
        }
        nonempty
    }

    /// Appends one chunk holding `data` to a view, creating the view where it
    /// is absent. Refused, and nothing changed, where the view would then hold
    /// more bytes than the limit. Where the other view of `d` holds the same
    /// bytes at that position, the new chunk shares its block (the store keeps
    /// one copy of what both views hold); else a new block is stored.
    pub fn append_view(&mut self, d: Direction, v: BodyView, data: &[u8]) -> (r: bool)
        requires
            old(self).wf(),
        ensures
            final(self).wf(),
            final(self).limit() == old(self).limit(),
            r == (old(self).bytes_of(d, v).len() + data@.len() <= old(self).limit()),
            !r ==> *final(self) == *old(self),
            r ==> old(self).same_views_except(final(self), d, v),
            r ==> final(self).view_model(d, v) is Some,
            r ==> final(self).bytes_of(d, v) == old(self).bytes_of(d, v) + data@,
            r ==> final(self).ids_of(d, v).drop_last() == old(self).ids_of(d, v),
            r ==> final(self).ids_of(d, v).len() == old(self).ids_of(d, v).len() + 1,
            r && old(self).shares_at(d, v, data@) ==> {
                &&& final(self).blocks_model() == old(self).blocks_model()
                &&& final(self).ids_of(d, v).last() == old(self).ids_of(d, v.other())[old(self).ids_of(d, v).len() as int]
            },
            r && !old(self).shares_at(d, v, data@) ==> {
                &&& final(self).blocks_model() == old(self).blocks_model().push(data@)
                &&& final(self).ids_of(d, v).last().index() == old(self).blocks_model().len()
            },
            r ==> forall|d2: Direction, v2: BodyView|
                !(d2 == d && v2 == v) ==> #[trigger] final(self).bytes_of(d2, v2) == old(self).bytes_of(d2, v2),
    {
        if !self.view_fits(d, v, data.len()) {
            return false;
        }
        let ghost prev = *self;
        let mut ids: Vec<ChunkId> = match self.get_view(d, v) {
            Some(ids) => ids,
            None => Vec::new(),
        };
        assert(ids@ == prev.ids_of(d, v));
        let pos = ids.len();
        let mut shared: Option<ChunkId> = None;
        match self.view_ref(d, v.other_view()) {
            Some(other) => {
                if pos < other.len() {
                    let cand = other[pos];
                    assert(all_held(prev.blocks_model(), prev.ids_of(d, v.other())));
                    assert(cand.index() < prev.blocks_model().len());
                    if bytes_equal(self.blocks[cand.0].as_slice(), data) {
                        shared = Some(cand);
                    }
                }
            },
            None => {},
        }
        let id = match shared {
            Some(id) => id,
            None => {
                let id = ChunkId(self.blocks.len());
                self.blocks.push(copy_bytes(data));
                assert(self.blocks_model() =~= prev.blocks_model().push(data@));
                id
            },
        };
        assert(extends(self.blocks_model(), prev.blocks_model()));
        assert(self.block(id) == data@);
        let ghost mid = *self;
        ids.push(id);
        self.put_view(d, v, Some(ids));
        proof {
            assert(all_held(prev.blocks_model(), prev.ids_of(d, v)));
            lemma_concat_extends(prev.blocks_model(), self.blocks_model(), prev.ids_of(d, v));
            lemma_concat_push(self.blocks_model(), prev.ids_of(d, v), id);
            assert(self.ids_of(d, v).drop_last() =~= prev.ids_of(d, v));
            assert forall|d2: Direction, v2: BodyView| all_held(self.blocks_model(), #[trigger] self.ids_of(d2, v2)) by {
                assert(all_held(prev.blocks_model(), prev.ids_of(d2, v2)));
                if d2 == d && v2 == v {
                    assert forall|i: int| 0 <= i < self.ids_of(d2, v2).len() implies
                        #[trigger] self.ids_of(d2, v2)[i].index() < self.blocks_model().len() by {
                        if i < prev.ids_of(d, v).len() {
                            assert(self.ids_of(d2, v2)[i] == prev.ids_of(d, v)[i]);
                        }
                    }
                }
            }
            assert forall|d2: Direction, v2: BodyView|
                !(d2 == d && v2 == v) implies #[trigger] self.bytes_of(d2, v2) == prev.bytes_of(d2, v2) by {
                assert(all_held(prev.blocks_model(), prev.ids_of(d2, v2)));
                lemma_concat_extends(prev.blocks_model(), self.blocks_model(), prev.ids_of(d2, v2));
            }
        }
        true
    }
}

} // verus!
