//! Optimistic header and body syncing.
//!
//! The algorithm consists in sending requests for blocks to a certain list of sources,
//! aggregating the answers, and verifying them. It is said to be *optimistic* because it is
//! assumed that all sources will provide correct blocks. In the case where the verification of
//! a block fails, the state machine jumps back to the latest known finalized block and resumes
//! syncing from there, possibly using different sources this time.
//!
//! The [`OptimisticSync`] holds the sources and the requests. The queue of the blocks that
//! were downloaded and the chain of the blocks that were verified are kept by its user, who
//! tells the [`OptimisticSync`] which ranges of blocks are missing and how each verification
//! went.

use vstd::prelude::*;

verus! {

/// Configuration for the [`OptimisticSync`].
#[derive(Debug)]
pub struct Config {
    /// Number of bytes used when encoding/decoding the block number. Influences how various data
    /// structures should be parsed.
    pub block_number_bytes: usize,
    /// Pre-allocated capacity for the number of block sources.
    pub sources_capacity: usize,
    /// Pre-allocated capacity for the number of blocks between the finalized block and the head
    /// of the chain.
    pub blocks_capacity: usize,
    /// Number of blocks to download ahead of the best block. At least one.
    pub download_ahead_blocks: u32,
    /// If `true`, the block bodies and storage are also synchronized and the block bodies are
    /// verified.
    pub full_mode: bool,
}

/// Identifier for an ongoing request in the [`OptimisticSync`].
#[derive(Debug, Copy, Clone, Ord, PartialOrd, Eq, PartialEq, Hash)]
pub struct RequestId(pub u64);

impl RequestId {
    /// Returns a value that compares inferior or equal to any other [`RequestId`].
    pub fn min_value() -> (id: Self)
        ensures
            id.0 == 0,
            forall|other: RequestId| id.0 <= other.0,
    {
        RequestId(0)
    }

    /// Returns a value that compares superior or equal to any other [`RequestId`].
    pub fn max_value() -> (id: Self)
        ensures
            id.0 == u64::MAX,
            forall|other: RequestId| other.0 <= id.0,
    {
        RequestId(u64::MAX)
    }
}

/// Identifier for a source in the [`OptimisticSync`].
#[derive(Debug, Copy, Clone, Ord, PartialOrd, Eq, PartialEq, Hash)]
pub struct SourceId(pub u64);

/// A source of blocks.
pub struct Source<TSrc> {
    /// Identifier of the source.
    pub id: SourceId,
    /// Opaque value passed to [`OptimisticSync::add_source`].
    pub user_data: TSrc,
    /// Best block that the source has reported having.
    pub best_block_number: u64,
    /// If `true`, this source is banned and shouldn't use be used to request blocks.
    /// Note that the ban is lifted if the source is removed. This ban isn't meant to be a line of
    /// defense against malicious peers but rather an optimization.
    pub banned: bool,
}

/// A request that was started and whose response has yet to come.
pub struct Request<TRq> {
    /// Identifier of the request.
    pub id: RequestId,
    /// Source that the request was made to.
    pub source_id: SourceId,
    /// Opaque value passed to [`OptimisticSync::insert_request`].
    pub user_data: TRq,
}

/// Request that should be emitted towards a certain source.
#[derive(Debug, Copy, Clone, PartialEq, Eq)]
pub struct RequestDetail {
    /// Source where to request blocks from.
    pub source_id: SourceId,
    /// Height of the block to request. At least one.
    pub block_height: u64,
    /// Number of blocks to request, at least one. This might be equal to `u32::MAX` in case
    /// no upper bound is required. The API user is responsible for clamping this value to a
    /// reasonable limit.
    pub num_blocks: u32,
}

/// A block of the response to a request.
pub struct RequestSuccessBlock<TBl> {
    pub scale_encoded_header: Vec<u8>,
    pub scale_encoded_justifications: Vec<([u8; 4], Vec<u8>)>,
    pub scale_encoded_extrinsics: Vec<Vec<u8>>,
    pub user_data: TBl,
}

/// A block that was verified.
pub struct Block<TBl> {
    /// SCALE-encoded header of the block.
    pub scale_encoded_header: Vec<u8>,
    /// SCALE-encoded justification of this block, if any.
    pub justifications: Vec<([u8; 4], Vec<u8>)>,
    /// User data associated to the block.
    pub user_data: TBl,
    /// Extra fields for full block verifications.
    pub full: Option<BlockFull>,
}

/// Extra fields of a [`Block`] for full block verifications.
pub struct BlockFull {
    /// List of SCALE-encoded extrinsics that form the block's body.
    pub body: Vec<Vec<u8>>,
}

/// What became of a request whose response came.
#[derive(Debug, Copy, Clone, PartialEq, Eq)]
pub enum FinishRequestOutcome {
    /// The response is no longer wanted.
    Obsolete,
    /// The response was wanted and its blocks are waiting to be verified.
    Queued,
}

/// Problem that happened and caused the reset.
#[derive(Debug, Copy, Clone, PartialEq, Eq)]
pub enum ResetCause {
    /// Error while decoding a header.
    InvalidHeader,
    /// Error while verifying a header.
    HeaderError,
    /// Error while verifying a header and body.
    HeaderBodyError,
    /// Received block isn't a child of the current best block.
    NonCanonical,
}

/// Output of [`OptimisticSync::disassemble`].
pub struct Disassemble<TRq, TSrc> {
    /// List of sources that were within the state machine.
    pub sources: Vec<DisassembleSource<TSrc>>,
    /// List of the requests that were active.
    pub requests: Vec<(RequestId, TRq)>,
}

/// See [`Disassemble::sources`].
pub struct DisassembleSource<TSrc> {
    /// Identifier that the source had.
    pub id: SourceId,
    /// Opaque value passed to [`OptimisticSync::add_source`].
    pub user_data: TSrc,
    /// Best block that the source has reported having.
    pub best_block_number: u64,
}

/// Whether `id` is the identifier of one of `sources`.
pub open spec fn has_source<TSrc>(sources: Seq<Source<TSrc>>, id: SourceId) -> bool {
    exists|i: int| 0 <= i < sources.len() && (#[trigger] sources[i]).id == id
}

/// A source stays a source when another one is added.
pub proof fn lemma_has_source_push<TSrc>(
    sources: Seq<Source<TSrc>>,
    added: Source<TSrc>,
    id: SourceId,
)
    requires
        has_source(sources, id),
    ensures
        has_source(sources.push(added), id),
{
    let k = choose|k: int| 0 <= k < sources.len() && (#[trigger] sources[k]).id == id;
    assert(sources.push(added)[k].id == id);
}

/// A source stays a source when another one is removed.
pub proof fn lemma_has_source_remove<TSrc>(sources: Seq<Source<TSrc>>, at: int, id: SourceId)
    requires
        0 <= at < sources.len(),
        has_source(sources, id),
        sources[at].id != id,
    ensures
        has_source(sources.remove(at), id),
{
    let k = choose|k: int| 0 <= k < sources.len() && (#[trigger] sources[k]).id == id;
    if k < at {
        assert(sources.remove(at)[k].id == id);
    } else {
        assert(sources.remove(at)[k - 1].id == id);
    }
}


/// Whether all of `sources` are banned.
pub open spec fn all_banned<TSrc>(sources: Seq<Source<TSrc>>) -> bool {
    forall|i: int| 0 <= i < sources.len() ==> (#[trigger] sources[i]).banned
}

/// The source `source` with the ban `banned`.
pub open spec fn with_ban<TSrc>(source: Source<TSrc>, banned: bool) -> Source<TSrc> {
    Source { banned, ..source }
}

/// The sources once the source `id` has misbehaved: it is banned, unless every source would
/// then be banned, in which case none is banned any longer. Nothing changes if `id` is none of
/// the sources and some source is not banned.
pub open spec fn after_ban<TSrc>(sources: Seq<Source<TSrc>>, id: SourceId) -> Seq<Source<TSrc>> {
    let banned = Seq::new(
        sources.len(),
        |i: int| with_ban(sources[i], sources[i].banned || sources[i].id == id),
    );
    if all_banned(banned) {
        Seq::new(sources.len(), |i: int| with_ban(sources[i], false))
    } else {
        banned
    }
}

/// The sources once `id` has reported `best_block_number` as its best block: the best block
/// of a source is only ever raised.
pub open spec fn raised<TSrc>(sources: Seq<Source<TSrc>>, id: SourceId, best_block_number: u64) -> Seq<
    Source<TSrc>,
> {
    Seq::new(
        sources.len(),
        |i: int|
            if sources[i].id == id && sources[i].best_block_number < best_block_number {
                Source { best_block_number, ..sources[i] }
            } else {
                sources[i]
            },
    )
}

/// Whether two lists of sources hold the same identifiers at the same places.
pub open spec fn same_ids<TSrc>(a: Seq<Source<TSrc>>, b: Seq<Source<TSrc>>) -> bool {
    &&& a.len() == b.len()
    &&& forall|i: int| 0 <= i < a.len() ==> (#[trigger] a[i]).id == b[i].id
}

/// Two lists that hold the same identifiers hold the same sources.
pub proof fn lemma_same_ids<TSrc>(a: Seq<Source<TSrc>>, b: Seq<Source<TSrc>>, id: SourceId)
    requires
        same_ids(a, b),
        has_source(a, id),
    ensures
        has_source(b, id),
{
    let k = choose|k: int| 0 <= k < a.len() && (#[trigger] a[k]).id == id;
    assert(b[k].id == id);
}


/// Whether one of `requests` has the identifier `id`.
pub open spec fn has_request<TRq>(requests: Seq<Request<TRq>>, id: RequestId) -> bool {
    exists|i: int| 0 <= i < requests.len() && (#[trigger] requests[i]).id == id
}

/// Whether the request at `i` is the first of `requests` with the identifier `id`.
pub open spec fn is_first<TRq>(requests: Seq<Request<TRq>>, id: RequestId, i: int) -> bool {
    &&& 0 <= i < requests.len()
    &&& requests[i].id == id
    &&& forall|k: int| 0 <= k < i ==> (#[trigger] requests[k]).id != id
}

/// The sum of two numbers, or the largest number where the sum is beyond it.
pub open spec fn capped_sum(a: nat, b: nat) -> nat {
    if a + b > usize::MAX {
        usize::MAX as nat
    } else {
        a + b
    }
}


/// Whether each of `requests` has an identifier below `next` and was made to one of
/// `sources`.
pub open spec fn requests_ok<TRq, TSrc>(
    requests: Seq<Request<TRq>>,
    sources: Seq<Source<TSrc>>,
    next: u64,
) -> bool {
    forall|i: int|
        0 <= i < requests.len() ==> {
            &&& (#[trigger] requests[i]).id.0 < next
            &&& has_source(sources, requests[i].source_id)
        }
}

/// No request has the identifier that the next request gets.
pub proof fn lemma_next_is_free<TRq, TSrc>(
    requests: Seq<Request<TRq>>,
    sources: Seq<Source<TSrc>>,
    next: u64,
)
    requires
        requests_ok(requests, sources, next),
    ensures
        !has_request(requests, RequestId(next)),
{
    if has_request(requests, RequestId(next)) {
        let i = choose|i: int| 0 <= i < requests.len() && (#[trigger] requests[i]).id == RequestId(
            next,
        );
        assert(requests[i].id.0 < next);
    }
}

/// Requests stay as they should be when one is added, removed, or when the requests of another
/// list join them.
pub proof fn lemma_requests_ok<TRq, TSrc>(
    requests: Seq<Request<TRq>>,
    sources: Seq<Source<TSrc>>,
    next: u64,
)
    requires
        requests_ok(requests, sources, next),
    ensures
        forall|later: u64| next <= later ==> #[trigger] requests_ok(requests, sources, later),
        forall|added: Request<TRq>|
            added.id.0 < next && has_source(sources, added.source_id) ==> #[trigger] requests_ok(
                requests.push(added),
                sources,
                next,
            ),
        forall|i: int|
            0 <= i < requests.len() ==> #[trigger] requests_ok(requests.remove(i), sources, next),
        forall|others: Seq<Request<TRq>>|
            requests_ok(others, sources, next) ==> #[trigger] requests_ok(
                requests.add(others),
                sources,
                next,
            ),
{
    assert forall|later: u64| next <= later implies #[trigger] requests_ok(
        requests,
        sources,
        later,
    ) by {
        assert forall|k: int| 0 <= k < requests.len() implies (#[trigger] requests[k]).id.0
            < later && has_source(sources, requests[k].source_id) by {}
    }
    assert forall|added: Request<TRq>|
        added.id.0 < next && has_source(sources, added.source_id) implies #[trigger] requests_ok(
        requests.push(added),
        sources,
        next,
    ) by {
        let all = requests.push(added);
        assert forall|k: int| 0 <= k < all.len() implies (#[trigger] all[k]).id.0 < next
            && has_source(sources, all[k].source_id) by {
            if k < requests.len() {
                assert(all[k] == requests[k]);
            }
        }
    }
    assert forall|i: int| 0 <= i < requests.len() implies #[trigger] requests_ok(
        requests.remove(i),
        sources,
        next,
    ) by {
        let all = requests.remove(i);
        assert forall|k: int| 0 <= k < all.len() implies (#[trigger] all[k]).id.0 < next
            && has_source(sources, all[k].source_id) by {
            if k < i {
                assert(all[k] == requests[k]);
            } else {
                assert(all[k] == requests[k + 1]);
            }
        }
    }
    assert forall|others: Seq<Request<TRq>>|
        requests_ok(others, sources, next) implies #[trigger] requests_ok(
        requests.add(others),
        sources,
        next,
    ) by {
        let all = requests.add(others);
        assert forall|k: int| 0 <= k < all.len() implies (#[trigger] all[k]).id.0 < next
            && has_source(sources, all[k].source_id) by {
            if k < requests.len() {
                assert(all[k] == requests[k]);
            } else {
                assert(all[k] == others[k - requests.len()]);
            }
        }
    }
}


/// Identifier and user data of the requests among `requests` that were made to `source`, in
/// the same order.
pub open spec fn pairs_of<TRq>(requests: Seq<Request<TRq>>, source: SourceId) -> Seq<
    (RequestId, TRq),
>
    decreases requests.len(),
{
    if requests.len() == 0 {
        Seq::empty()
    } else {
        let before = pairs_of(requests.drop_last(), source);
        let last = requests.last();
        if last.source_id == source {
            before.push((last.id, last.user_data))
        } else {
            before
        }
    }
}

/// The requests among `requests` that were made to another source than `source`, in the same
/// order.
pub open spec fn others_than<TRq>(requests: Seq<Request<TRq>>, source: SourceId) -> Seq<
    Request<TRq>,
>
    decreases requests.len(),
{
    if requests.len() == 0 {
        Seq::empty()
    } else {
        let before = others_than(requests.drop_last(), source);
        let last = requests.last();
        if last.source_id == source {
            before
        } else {
            before.push(last)
        }
    }
}

/// Every request that was made to another source than `source` is kept, and no other.
pub proof fn lemma_others_than<TRq>(requests: Seq<Request<TRq>>, source: SourceId)
    ensures
        others_than(requests, source).len() <= requests.len(),
        forall|i: int|
            0 <= i < others_than(requests, source).len() ==> {
                let kept = #[trigger] others_than(requests, source)[i];
                &&& kept.source_id != source
                &&& exists|j: int| 0 <= j < requests.len() && requests[j] == kept
            },
    decreases requests.len(),
{
    if requests.len() > 0 {
        lemma_others_than(requests.drop_last(), source);
        let before = others_than(requests.drop_last(), source);
        assert forall|i: int| 0 <= i < others_than(requests, source).len() implies {
            let kept = #[trigger] others_than(requests, source)[i];
            &&& kept.source_id != source
            &&& exists|j: int| 0 <= j < requests.len() && requests[j] == kept
        } by {
            let kept = others_than(requests, source)[i];
            if i < before.len() {
                assert(kept == before[i]);
                let j = choose|j: int|
                    0 <= j < requests.drop_last().len() && requests.drop_last()[j] == kept;
                assert(requests[j] == kept);
            } else {
                assert(requests[requests.len() - 1] == kept);
            }
        }
    }
}

/// What the request asked of `source` is, for a range of `num_blocks` missing blocks that
/// starts at `block_height`: nothing if the best block of the source is below the range, else
/// as many blocks of the range as the source has.
pub open spec fn desired_of<TSrc>(block_height: u64, num_blocks: u32, source: Source<TSrc>) -> Option<
    RequestDetail,
> {
    if source.best_block_number < block_height {
        None
    } else {
        let available = source.best_block_number - block_height + 1;
        Some(
            RequestDetail {
                source_id: source.id,
                block_height,
                num_blocks: if available < num_blocks {
                    available as u32
                } else {
                    num_blocks
                },
            },
        )
    }
}

/// What is asked of the first `count` sources for one missing range, in the order of the
/// sources.
pub open spec fn desired_of_sources<TSrc>(
    block_height: u64,
    num_blocks: u32,
    sources: Seq<Source<TSrc>>,
    count: nat,
) -> Seq<RequestDetail>
    decreases count,
{
    if count == 0 {
        Seq::empty()
    } else {
        let before = desired_of_sources(block_height, num_blocks, sources, (count - 1) as nat);
        match desired_of(block_height, num_blocks, sources[count - 1]) {
            Some(detail) => before.push(detail),
            None => before,
        }
    }
}

/// What is asked of the sources for the first `count` missing ranges: for each range in turn,
/// what is asked of each source in turn.
pub open spec fn desired_of_ranges<TSrc>(
    ranges: Seq<(u64, u32)>,
    sources: Seq<Source<TSrc>>,
    count: nat,
) -> Seq<RequestDetail>
    decreases count,
{
    if count == 0 {
        Seq::empty()
    } else {
        desired_of_ranges(ranges, sources, (count - 1) as nat).add(
            desired_of_sources(ranges[count - 1].0, ranges[count - 1].1, sources, sources.len()),
        )
    }
}

/// Optimistic headers-only syncing.
pub struct OptimisticSync<TRq, TSrc> {
    /// See [`Config::block_number_bytes`].
    block_number_bytes: usize,
    /// See [`Config::full_mode`].
    full_mode: bool,
    /// See [`Config::download_ahead_blocks`].
    download_ahead_blocks: u32,
    /// List of sources of blocks, in the order of their identifiers.
    sources: Vec<Source<TSrc>>,
    /// Next [`SourceId`] to allocate. Identifiers are never used twice, so that a block that
    /// waits to be verified is never taken for the block of a newer source.
    next_source_id: u64,
    /// Requests that were started and whose answers are wanted.
    requests: Vec<Request<TRq>>,
    /// Requests that have been started but whose answers are no longer desired.
    obsolete_requests: Vec<Request<TRq>>,
    /// Identifier to assign to the next request.
    next_request_id: u64,
    /// Justifications, if any, of the block that has just been verified, each with the source
    /// of the block. The first `pending_justifications_done` were verified.
    pending_encoded_justifications: Vec<([u8; 4], Vec<u8>, SourceId)>,
    /// See `pending_encoded_justifications`.
    pending_justifications_done: usize,
}

impl<TRq, TSrc> OptimisticSync<TRq, TSrc> {
    /// The sources, in the order in which they were added.
    pub closed spec fn sources_view(&self) -> Seq<Source<TSrc>> {
        self.sources@
    }

    /// The requests that were started and whose answers are wanted, oldest first.
    pub closed spec fn requests_view(&self) -> Seq<Request<TRq>> {
        self.requests@
    }

    /// The requests that were started and whose answers are no longer wanted.
    pub closed spec fn obsolete_view(&self) -> Seq<Request<TRq>> {
        self.obsolete_requests@
    }

    /// Identifier of the next source.
    pub closed spec fn next_source(&self) -> u64 {
        self.next_source_id
    }

    /// Identifier of the next request.
    pub closed spec fn next_request(&self) -> u64 {
        self.next_request_id
    }

    /// The justifications that wait to be verified, each with the source of its block.
    pub closed spec fn pending_justifications(&self) -> Seq<([u8; 4], Vec<u8>, SourceId)> {
        self.pending_encoded_justifications@.skip(self.pending_justifications_done as int)
    }

    /// See [`Config::full_mode`].
    pub closed spec fn full(&self) -> bool {
        self.full_mode
    }

    /// See [`Config::download_ahead_blocks`].
    pub closed spec fn download_ahead(&self) -> u32 {
        self.download_ahead_blocks
    }

    /// See [`Config::block_number_bytes`].
    pub closed spec fn number_bytes(&self) -> usize {
        self.block_number_bytes
    }

    /// Whether the settings are those of `other`.
    pub open spec fn same_settings(&self, other: &Self) -> bool {
        &&& self.full() == other.full()
        &&& self.download_ahead() == other.download_ahead()
        &&& self.number_bytes() == other.number_bytes()
    }

    /// What always holds of the state machine: the identifiers of the sources grow along
    /// their list and are below the next one, every request has an identifier below the next
    /// one, and was made to one of the sources.
    pub open spec fn wf(&self) -> bool {
        &&& forall|i: int, j: int|
            0 <= i < j < self.sources_view().len() ==> (#[trigger] self.sources_view()[i]).id.0 < (
            #[trigger] self.sources_view()[j]).id.0
        &&& forall|i: int|
            0 <= i < self.sources_view().len() ==> (#[trigger] self.sources_view()[i]).id.0
                < self.next_source()
        &&& requests_ok(self.requests_view(), self.sources_view(), self.next_request())
        &&& requests_ok(self.obsolete_view(), self.sources_view(), self.next_request())
        &&& self.pending_justifications_inv()
    }

    /// The justifications that were verified are among those of the block.
    pub closed spec fn pending_justifications_inv(&self) -> bool {
        self.pending_justifications_done <= self.pending_encoded_justifications@.len()
    }

    /// Builds a new [`OptimisticSync`].
    pub fn new(config: Config) -> (sync: Self)
        ensures
            sync.wf(),
            sync.sources_view().len() == 0,
            sync.requests_view().len() == 0,
            sync.obsolete_view().len() == 0,
            sync.pending_justifications().len() == 0,
            sync.next_source() == 0,
            sync.next_request() == 0,
            sync.full() == config.full_mode,
            sync.download_ahead() == config.download_ahead_blocks,
            sync.number_bytes() == config.block_number_bytes,
    {
        OptimisticSync {
            block_number_bytes: config.block_number_bytes,
            full_mode: config.full_mode,
            download_ahead_blocks: config.download_ahead_blocks,
            sources: Vec::new(),
            next_source_id: 0,
            requests: Vec::new(),
            obsolete_requests: Vec::new(),
            next_request_id: 0,
            pending_encoded_justifications: Vec::new(),
            pending_justifications_done: 0,
        }
    }

    /// Returns the value that was initially passed in [`Config::block_number_bytes`].
    pub fn block_number_bytes(&self) -> (n: usize)
        ensures
            n == self.number_bytes(),
    {
        self.block_number_bytes
    }

    /// Returns the value that was initially passed in [`Config::download_ahead_blocks`].
    pub fn download_ahead_blocks(&self) -> (n: u32)
        ensures
            n == self.download_ahead(),
    {
        self.download_ahead_blocks
    }

    /// Returns the position of the source `id` in the list of sources.
    fn find_source(&self, id: SourceId) -> (position: Option<usize>)
        ensures
            match position {
                Some(i) => i < self.sources_view().len() && self.sources_view()[i as int].id == id,
                None => !has_source(self.sources_view(), id),
            },
    {
        let mut i: usize = 0;
        while i < self.sources.len()
            invariant
                i <= self.sources@.len(),
                forall|k: int| 0 <= k < i ==> self.sources@[k].id != id,
            decreases self.sources.len() - i,
        {
            if self.sources[i].id.0 == id.0 {
                return Some(i);
            }
            i = i + 1;
        }
        None
    }

    /// Whether `source_id` is the identifier of a source of this state machine.
    pub fn contains_source(&self, source_id: SourceId) -> (found: bool)
        ensures
            found == has_source(self.sources_view(), source_id),
    {
        self.find_source(source_id).is_some()
    }

    /// Inform the [`OptimisticSync`] of a new potential source of blocks.
    pub fn add_source(&mut self, source: TSrc, best_block_number: u64) -> (id: SourceId)
        requires
            old(self).wf(),
            old(self).next_source() < u64::MAX,
        ensures
            final(self).wf(),
            id.0 == old(self).next_source(),
            !has_source(old(self).sources_view(), id),
            has_source(final(self).sources_view(), id),
            final(self).next_source() == old(self).next_source() + 1,
            final(self).sources_view() == old(self).sources_view().push(
                Source { id, user_data: source, best_block_number, banned: false },
            ),
            final(self).requests_view() == old(self).requests_view(),
            final(self).obsolete_view() == old(self).obsolete_view(),
            final(self).next_request() == old(self).next_request(),
            final(self).pending_justifications() == old(self).pending_justifications(),
            final(self).same_settings(old(self)),
    {
        let id = SourceId(self.next_source_id);
        self.next_source_id = self.next_source_id + 1;
        self.sources.push(Source { id, user_data: source, best_block_number, banned: false });
        proof {
            assert(self.sources_view()[self.sources_view().len() - 1].id == id);
            if has_source(old(self).sources_view(), id) {
                let k = choose|k: int|
                    0 <= k < old(self).sources_view().len() && (#[trigger] old(
                        self,
                    ).sources_view()[k]).id == id;
                assert(old(self).sources_view()[k].id.0 < old(self).next_source());
            }
            let before = old(self).sources_view();
            let added = Source { id, user_data: source, best_block_number, banned: false };
            assert forall|i: int| 0 <= i < self.requests_view().len() implies has_source(
                self.sources_view(),
                (#[trigger] self.requests_view()[i]).source_id,
            ) by {
                assert(old(self).requests_view()[i].id.0 < old(self).next_request());
                lemma_has_source_push(before, added, self.requests_view()[i].source_id);
            }
            assert forall|i: int| 0 <= i < self.obsolete_view().len() implies has_source(
                self.sources_view(),
                (#[trigger] self.obsolete_view()[i]).source_id,
            ) by {
                assert(old(self).obsolete_view()[i].id.0 < old(self).next_request());
                lemma_has_source_push(before, added, self.obsolete_view()[i].source_id);
            }
        }
        id
    }

    /// Returns the current best block of the given source, which must be a source of this
    /// state machine.
    ///
    /// This corresponds either the latest call to [`OptimisticSync::raise_source_best_block`],
    /// or to the parameter passed to [`OptimisticSync::add_source`].
    pub fn source_best_block(&self, source_id: SourceId) -> (best: u64)
        requires
            has_source(self.sources_view(), source_id),
        ensures
            exists|i: int|
                0 <= i < self.sources_view().len() && (#[trigger] self.sources_view()[i]).id
                    == source_id && self.sources_view()[i].best_block_number == best,
    {
        match self.find_source(source_id) {
            Some(i) => self.sources[i].best_block_number,
            None => vstd::pervasive::unreached(),
        }
    }

    /// Returns the user data of the given source, which must be a source of this state
    /// machine.
    pub fn source_user_data(&self, source_id: SourceId) -> (user_data: &TSrc)
        requires
            has_source(self.sources_view(), source_id),
        ensures
            exists|i: int|
                0 <= i < self.sources_view().len() && (#[trigger] self.sources_view()[i]).id
                    == source_id && self.sources_view()[i].user_data == *user_data,
    {
        match self.find_source(source_id) {
            Some(i) => &self.sources[i].user_data,
            None => vstd::pervasive::unreached(),
        }
    }

    /// Returns whether the given source, which must be a source of this state machine, is
    /// banned for having misbehaved.
    pub fn source_is_banned(&self, source_id: SourceId) -> (banned: bool)
        requires
            has_source(self.sources_view(), source_id),
        ensures
            exists|i: int|
                0 <= i < self.sources_view().len() && (#[trigger] self.sources_view()[i]).id
                    == source_id && self.sources_view()[i].banned == banned,
    {
        match self.find_source(source_id) {
            Some(i) => self.sources[i].banned,
            None => vstd::pervasive::unreached(),
        }
    }

    /// Returns the list of sources in this state machine.
    pub fn sources(&self) -> (ids: Vec<SourceId>)
        ensures
            ids@.len() == self.sources_view().len(),
            forall|i: int| 0 <= i < ids@.len() ==> ids@[i] == self.sources_view()[i].id,
    {
        let mut ids: Vec<SourceId> = Vec::new();
        let mut i: usize = 0;
        while i < self.sources.len()
            invariant
                i <= self.sources@.len(),
                ids@.len() == i,
                forall|k: int| 0 <= k < i ==> ids@[k] == self.sources@[k].id,
            decreases self.sources.len() - i,
        {
            ids.push(self.sources[i].id);
            i = i + 1;
        }
        ids
    }
}

impl<TRq, TSrc> OptimisticSync<TRq, TSrc> {
    /// Whether `self` is `before` with the sources `sources`, which have the identifiers that
    /// the sources of `before` have.
    pub open spec fn with_sources(&self, before: &Self, sources: Seq<Source<TSrc>>) -> bool {
        &&& self.sources_view() == sources
        &&& self.requests_view() == before.requests_view()
        &&& self.obsolete_view() == before.obsolete_view()
        &&& self.next_source() == before.next_source()
        &&& self.next_request() == before.next_request()
        &&& self.pending_justifications() == before.pending_justifications()
        &&& self.same_settings(before)
    }

    /// The state machine stays as it should be when its sources are replaced by others with
    /// the same identifiers.
    proof fn lemma_wf_same_ids(&self, before: &Self)
        requires
            before.wf(),
            same_ids(before.sources_view(), self.sources_view()),
            self.requests_view() == before.requests_view(),
            self.obsolete_view() == before.obsolete_view(),
            self.next_source() == before.next_source(),
            self.next_request() == before.next_request(),
            self.pending_justifications_inv(),
        ensures
            self.wf(),
    {
        let a = before.sources_view();
        let b = self.sources_view();
        assert forall|i: int, j: int| 0 <= i < j < b.len() implies (#[trigger] b[i]).id.0 < (
        #[trigger] b[j]).id.0 by {
            assert(a[i].id == b[i].id);
            assert(a[j].id == b[j].id);
        }
        assert forall|i: int| 0 <= i < b.len() implies (#[trigger] b[i]).id.0
            < self.next_source() by {
            assert(a[i].id == b[i].id);
        }
        assert forall|i: int| 0 <= i < self.requests_view().len() implies has_source(
            b,
            (#[trigger] self.requests_view()[i]).source_id,
        ) by {
            assert(before.requests_view()[i].id.0 < before.next_request());
            lemma_same_ids(a, b, self.requests_view()[i].source_id);
        }
        assert forall|i: int| 0 <= i < self.obsolete_view().len() implies has_source(
            b,
            (#[trigger] self.obsolete_view()[i]).source_id,
        ) by {
            assert(before.obsolete_view()[i].id.0 < before.next_request());
            lemma_same_ids(a, b, self.obsolete_view()[i].source_id);
        }
    }

    /// Updates the best known block of the source, which must be a source of this state
    /// machine.
    ///
    /// Has no effect if the previously-known best block is lower than the new one.
    pub fn raise_source_best_block(&mut self, id: SourceId, best_block_number: u64)
        requires
            old(self).wf(),
            has_source(old(self).sources_view(), id),
        ensures
            final(self).wf(),
            final(self).with_sources(
                old(self),
                raised(old(self).sources_view(), id, best_block_number),
            ),
    {
        match self.find_source(id) {
            Some(i) => {
                if self.sources[i].best_block_number < best_block_number {
                    let mut source = self.sources.remove(i);
                    source.best_block_number = best_block_number;
                    self.sources.insert(i, source);
                }
            },
            None => {},
        }
        proof {
            let wanted = raised(old(self).sources_view(), id, best_block_number);
            assert(self.sources_view() =~= wanted) by {
                assert forall|k: int| 0 <= k < wanted.len() implies self.sources_view()[k]
                    == wanted[k] by {
                    let found = choose|f: int|
                        0 <= f < old(self).sources_view().len() && (#[trigger] old(
                            self,
                        ).sources_view()[f]).id == id;
                    if old(self).sources_view()[k].id == id {
                        if k < found {
                            assert(old(self).sources_view()[k].id.0 < old(
                                self,
                            ).sources_view()[found].id.0);
                        }
                        if found < k {
                            assert(old(self).sources_view()[found].id.0 < old(
                                self,
                            ).sources_view()[k].id.0);
                        }
                    }
                }
            }
            self.lemma_wf_same_ids(old(self));
        }
    }

    /// Bans the source `id`, and lifts every ban if every source is banned then.
    fn ban(&mut self, id: SourceId)
        requires
            old(self).wf(),
        ensures
            final(self).wf(),
            final(self).with_sources(old(self), after_ban(old(self).sources_view(), id)),
    {
        let ghost before = self.sources@;
        let ghost marked = Seq::new(
            before.len(),
            |i: int| with_ban(before[i], before[i].banned || before[i].id == id),
        );
        let mut all: bool = true;
        let mut i: usize = 0;
        while i < self.sources.len()
            invariant
                i <= self.sources@.len(),
                self.sources@.len() == before.len(),
                forall|k: int| 0 <= k < i ==> self.sources@[k] == marked[k],
                forall|k: int| i <= k < before.len() ==> self.sources@[k] == before[k],
                all == (forall|k: int| 0 <= k < i ==> (#[trigger] marked[k]).banned),
                self.requests@ == old(self).requests@,
                self.obsolete_requests@ == old(self).obsolete_requests@,
                self.next_source_id == old(self).next_source_id,
                self.next_request_id == old(self).next_request_id,
                self.pending_encoded_justifications == old(self).pending_encoded_justifications,
                self.pending_justifications_done == old(self).pending_justifications_done,
                self.full_mode == old(self).full_mode,
                self.download_ahead_blocks == old(self).download_ahead_blocks,
                self.block_number_bytes == old(self).block_number_bytes,
                marked.len() == before.len(),
                forall|k: int|
                    0 <= k < before.len() ==> #[trigger] marked[k] == with_ban(
                        before[k],
                        before[k].banned || before[k].id == id,
                    ),
            decreases self.sources.len() - i,
        {
            if self.sources[i].id.0 == id.0 && !self.sources[i].banned {
                let mut source = self.sources.remove(i);
                source.banned = true;
                self.sources.insert(i, source);
            }
            assert(self.sources@[i as int] == marked[i as int]);
            if !self.sources[i].banned {
                all = false;
            }
            i = i + 1;
        }
        proof {
            assert(self.sources@ =~= marked);
            assert(all == all_banned(marked));
        }
        if all {
            let mut j: usize = 0;
            while j < self.sources.len()
                invariant
                    j <= self.sources@.len(),
                    self.sources@.len() == before.len(),
                    forall|k: int| 0 <= k < j ==> self.sources@[k] == with_ban(before[k], false),
                    forall|k: int| j <= k < before.len() ==> self.sources@[k] == marked[k],
                    marked.len() == before.len(),
                    forall|k: int|
                        0 <= k < before.len() ==> #[trigger] marked[k] == with_ban(
                            before[k],
                            before[k].banned || before[k].id == id,
                        ),
                    self.requests@ == old(self).requests@,
                    self.obsolete_requests@ == old(self).obsolete_requests@,
                    self.next_source_id == old(self).next_source_id,
                    self.next_request_id == old(self).next_request_id,
                    self.pending_encoded_justifications == old(
                        self,
                    ).pending_encoded_justifications,
                    self.pending_justifications_done == old(self).pending_justifications_done,
                    self.full_mode == old(self).full_mode,
                    self.download_ahead_blocks == old(self).download_ahead_blocks,
                    self.block_number_bytes == old(self).block_number_bytes,
                decreases self.sources.len() - j,
            {
                assert(self.sources@[j as int] == marked[j as int]);
                if self.sources[j].banned {
                    let mut source = self.sources.remove(j);
                    source.banned = false;
                    self.sources.insert(j, source);
                }
                assert(self.sources@[j as int] == with_ban(before[j as int], false));
                j = j + 1;
            }
            proof {
                assert(self.sources@ =~= Seq::new(
                    before.len(),
                    |i: int| with_ban(before[i], false),
                ));
            }
        }
        proof {
            assert(self.sources_view() == after_ban(old(self).sources_view(), id));
            self.lemma_wf_same_ids(old(self));
        }
    }
}

/// Returns the position of the first of `requests` with the identifier `id`.
fn find_request<TRq>(requests: &Vec<Request<TRq>>, id: RequestId) -> (position: Option<usize>)
    ensures
        match position {
            Some(i) => is_first(requests@, id, i as int),
            None => !has_request(requests@, id),
        },
{
    let mut i: usize = 0;
    while i < requests.len()
        invariant
            i <= requests@.len(),
            forall|k: int| 0 <= k < i ==> (#[trigger] requests@[k]).id != id,
        decreases requests.len() - i,
    {
        if requests[i].id.0 == id.0 {
            return Some(i);
        }
        i = i + 1;
    }
    None
}

/// Moves the requests made to `source` out of `requests` and to the end of `out`.
fn drain_source<TRq>(
    requests: &mut Vec<Request<TRq>>,
    source: SourceId,
    out: &mut Vec<(RequestId, TRq)>,
)
    ensures
        final(requests)@ == others_than(old(requests)@, source),
        final(out)@ == old(out)@.add(pairs_of(old(requests)@, source)),
{
    let ghost all = requests@;
    let ghost mut done: int = 0;
    let mut kept: Vec<Request<TRq>> = Vec::new();
    while requests.len() > 0
        invariant
            0 <= done <= all.len(),
            requests@ == all.skip(done),
            kept@ == others_than(all.take(done), source),
            out@ == old(out)@.add(pairs_of(all.take(done), source)),
        decreases requests.len(),
    {
        let request = requests.remove(0);
        proof {
            assert(request == all[done]);
            assert(all.take(done + 1).drop_last() =~= all.take(done));
            assert(all.take(done + 1).last() == all[done]);
            assert(requests@ =~= all.skip(done + 1));
        }
        if request.source_id.0 == source.0 {
            proof {
                assert(old(out)@.add(pairs_of(all.take(done), source)).push(
                    (request.id, request.user_data),
                ) =~= old(out)@.add(pairs_of(all.take(done + 1), source)));
            }
            out.push((request.id, request.user_data));
        } else {
            kept.push(request);
        }
        proof {
            done = done + 1;
        }
    }
    proof {
        assert(all.take(done) =~= all);
    }
    *requests = kept;
}

/// Returns the number of `requests` that were made to `source`.
fn count_of<TRq>(requests: &Vec<Request<TRq>>, source: SourceId) -> (n: usize)
    ensures
        n == pairs_of(requests@, source).len(),
{
    let mut n: usize = 0;
    let mut i: usize = 0;
    while i < requests.len()
        invariant
            i <= requests@.len(),
            n == pairs_of(requests@.take(i as int), source).len(),
            n <= i,
        decreases requests.len() - i,
    {
        proof {
            assert(requests@.take(i + 1).drop_last() =~= requests@.take(i as int));
        }
        if requests[i].source_id.0 == source.0 {
            n = n + 1;
        }
        i = i + 1;
    }
    proof {
        assert(requests@.take(i as int) =~= requests@);
    }
    n
}

impl<TRq, TSrc> OptimisticSync<TRq, TSrc> {
    /// Whether `self` is `before` but for the justifications that wait to be verified.
    pub open spec fn same_but_justifications(&self, before: &Self) -> bool {
        &&& self.sources_view() == before.sources_view()
        &&& self.requests_view() == before.requests_view()
        &&& self.obsolete_view() == before.obsolete_view()
        &&& self.next_source() == before.next_source()
        &&& self.next_request() == before.next_request()
        &&& self.same_settings(before)
    }

    /// Whether `self` is `before` with the requests `requests` and the unwanted requests
    /// `obsolete`.
    pub open spec fn with_requests(
        &self,
        before: &Self,
        requests: Seq<Request<TRq>>,
        obsolete: Seq<Request<TRq>>,
    ) -> bool {
        &&& self.sources_view() == before.sources_view()
        &&& self.requests_view() == requests
        &&& self.obsolete_view() == obsolete
        &&& self.next_source() == before.next_source()
        &&& self.pending_justifications() == before.pending_justifications()
        &&& self.same_settings(before)
    }

    /// Updates the [`OptimisticSync`] with the fact that a request has been started.
    ///
    /// `queued` says whether the request is for blocks that are still missing. If it is not,
    /// its answer is unwanted from the start.
    ///
    /// Returns the identifier for the request that must later be passed back to
    /// [`OptimisticSync::finish_request_success`] or [`OptimisticSync::finish_request_failed`].
    /// The source of the request must be a source of this state machine.
    pub fn insert_request(&mut self, detail: RequestDetail, user_data: TRq, queued: bool) -> (id:
        RequestId)
        requires
            old(self).wf(),
            has_source(old(self).sources_view(), detail.source_id),
            old(self).next_request() < u64::MAX,
        ensures
            final(self).wf(),
            id.0 == old(self).next_request(),
            !has_request(old(self).requests_view(), id),
            !has_request(old(self).obsolete_view(), id),
            has_request(
                if queued {
                    final(self).requests_view()
                } else {
                    final(self).obsolete_view()
                },
                id,
            ),
            final(self).next_request() == old(self).next_request() + 1,
            queued ==> final(self).with_requests(
                old(self),
                old(self).requests_view().push(
                    Request { id, source_id: detail.source_id, user_data },
                ),
                old(self).obsolete_view(),
            ),
            !queued ==> final(self).with_requests(
                old(self),
                old(self).requests_view(),
                old(self).obsolete_view().push(
                    Request { id, source_id: detail.source_id, user_data },
                ),
            ),
    {
        let id = RequestId(self.next_request_id);
        proof {
            lemma_next_is_free(self.requests_view(), self.sources_view(), self.next_request());
            lemma_next_is_free(self.obsolete_view(), self.sources_view(), self.next_request());
            lemma_requests_ok(self.requests_view(), self.sources_view(), self.next_request());
            lemma_requests_ok(self.obsolete_view(), self.sources_view(), self.next_request());
            let next = (self.next_request() + 1) as u64;
            assert(requests_ok(self.requests_view(), self.sources_view(), next));
            assert(requests_ok(self.obsolete_view(), self.sources_view(), next));
            lemma_requests_ok(self.requests_view(), self.sources_view(), next);
            lemma_requests_ok(self.obsolete_view(), self.sources_view(), next);
        }
        self.next_request_id = self.next_request_id + 1;
        let request = Request { id, source_id: detail.source_id, user_data };
        if queued {
            self.requests.push(request);
            assert(self.requests_view()[self.requests_view().len() - 1].id == id);
        } else {
            self.obsolete_requests.push(request);
            assert(self.obsolete_view()[self.obsolete_view().len() - 1].id == id);
        }
        id
    }

    /// Update the [`OptimisticSync`] with the successful outcome of a request, which must be a
    /// request that was started and has not finished.
    ///
    /// Returns the user data that was associated to that request, and whether its answer was
    /// still wanted.
    pub fn finish_request_success(&mut self, request_id: RequestId) -> (finished: (
        TRq,
        FinishRequestOutcome,
    ))
        requires
            old(self).wf(),
            has_request(old(self).obsolete_view(), request_id) || has_request(
                old(self).requests_view(),
                request_id,
            ),
        ensures
            final(self).wf(),
            final(self).next_request() == old(self).next_request(),
            has_request(old(self).obsolete_view(), request_id) ==> finished.1
                == FinishRequestOutcome::Obsolete && exists|i: int|
                {
                    &&& is_first(old(self).obsolete_view(), request_id, i)
                    &&& finished.0 == old(self).obsolete_view()[i].user_data
                    &&& final(self).with_requests(
                        old(self),
                        old(self).requests_view(),
                        old(self).obsolete_view().remove(i),
                    )
                },
            !has_request(old(self).obsolete_view(), request_id) ==> finished.1
                == FinishRequestOutcome::Queued && exists|i: int|
                {
                    &&& is_first(old(self).requests_view(), request_id, i)
                    &&& finished.0 == old(self).requests_view()[i].user_data
                    &&& final(self).with_requests(
                        old(self),
                        old(self).requests_view().remove(i),
                        old(self).obsolete_view(),
                    )
                },
    {
        proof {
            lemma_requests_ok(self.requests_view(), self.sources_view(), self.next_request());
            lemma_requests_ok(self.obsolete_view(), self.sources_view(), self.next_request());
        }
        match find_request(&self.obsolete_requests, request_id) {
            Some(i) => {
                let request = self.obsolete_requests.remove(i);
                (request.user_data, FinishRequestOutcome::Obsolete)
            },
            None => {
                match find_request(&self.requests, request_id) {
                    Some(i) => {
                        let request = self.requests.remove(i);
                        (request.user_data, FinishRequestOutcome::Queued)
                    },
                    None => vstd::pervasive::unreached(),
                }
            },
        }
    }

    /// Update the [`OptimisticSync`] with the information that the given request has failed.
    /// It must be a request that was started and has not finished.
    ///
    /// If the answer was still wanted, the source of the request is banned, unless every source
    /// would then be banned: in that case no source is banned any longer.
    ///
    /// Returns the user data that was associated to that request.
    pub fn finish_request_failed(&mut self, request_id: RequestId) -> (user_data: TRq)
        requires
            old(self).wf(),
            has_request(old(self).obsolete_view(), request_id) || has_request(
                old(self).requests_view(),
                request_id,
            ),
        ensures
            final(self).wf(),
            final(self).next_request() == old(self).next_request(),
            final(self).next_source() == old(self).next_source(),
            final(self).pending_justifications() == old(self).pending_justifications(),
            final(self).same_settings(old(self)),
            has_request(old(self).obsolete_view(), request_id) ==> exists|i: int|
                {
                    &&& is_first(old(self).obsolete_view(), request_id, i)
                    &&& user_data == old(self).obsolete_view()[i].user_data
                    &&& final(self).obsolete_view() == old(self).obsolete_view().remove(i)
                    &&& final(self).requests_view() == old(self).requests_view()
                    &&& final(self).sources_view() == old(self).sources_view()
                },
            !has_request(old(self).obsolete_view(), request_id) ==> exists|i: int|
                {
                    &&& is_first(old(self).requests_view(), request_id, i)
                    &&& user_data == old(self).requests_view()[i].user_data
                    &&& final(self).requests_view() == old(self).requests_view().remove(i)
                    &&& final(self).obsolete_view() == old(self).obsolete_view()
                    &&& final(self).sources_view() == after_ban(
                        old(self).sources_view(),
                        old(self).requests_view()[i].source_id,
                    )
                },
    {
        proof {
            lemma_requests_ok(self.requests_view(), self.sources_view(), self.next_request());
            lemma_requests_ok(self.obsolete_view(), self.sources_view(), self.next_request());
        }
        match find_request(&self.obsolete_requests, request_id) {
            Some(i) => {
                let request = self.obsolete_requests.remove(i);
                request.user_data
            },
            None => {
                match find_request(&self.requests, request_id) {
                    Some(i) => {
                        let request = self.requests.remove(i);
                        self.ban(request.source_id);
                        request.user_data
                    },
                    None => vstd::pervasive::unreached(),
                }
            },
        }
    }

    /// Marks every request whose answer is wanted as one whose answer is not wanted any
    /// longer.
    pub fn make_requests_obsolete(&mut self)
        requires
            old(self).wf(),
        ensures
            final(self).wf(),
            final(self).next_request() == old(self).next_request(),
            final(self).with_requests(
                old(self),
                Seq::empty(),
                old(self).obsolete_view().add(old(self).requests_view()),
            ),
    {
        proof {
            lemma_requests_ok(self.obsolete_view(), self.sources_view(), self.next_request());
        }
        self.obsolete_requests.append(&mut self.requests);
        proof {
            assert(self.requests_view() =~= Seq::<Request<TRq>>::empty());
        }
    }

    /// Inform the [`OptimisticSync`] that a source of blocks is no longer available. It must
    /// be a source of this state machine.
    ///
    /// This automatically cancels all the requests that have been emitted for this source.
    /// This list of requests is returned as part of this function: those whose answer was
    /// wanted, then the others.
    pub fn remove_source(&mut self, source_id: SourceId) -> (removed: (TSrc, Vec<(RequestId, TRq)>))
        requires
            old(self).wf(),
            has_source(old(self).sources_view(), source_id),
        ensures
            final(self).wf(),
            !has_source(final(self).sources_view(), source_id),
            exists|i: int|
                {
                    &&& 0 <= i < old(self).sources_view().len()
                    &&& (#[trigger] old(self).sources_view()[i]).id == source_id
                    &&& removed.0 == old(self).sources_view()[i].user_data
                    &&& final(self).sources_view() == old(self).sources_view().remove(i)
                },
            removed.1@ == pairs_of(old(self).requests_view(), source_id).add(
                pairs_of(old(self).obsolete_view(), source_id),
            ),
            final(self).requests_view() == others_than(old(self).requests_view(), source_id),
            final(self).obsolete_view() == others_than(old(self).obsolete_view(), source_id),
            final(self).next_source() == old(self).next_source(),
            final(self).next_request() == old(self).next_request(),
            final(self).pending_justifications() == old(self).pending_justifications(),
            final(self).same_settings(old(self)),
    {
        let position: usize = match self.find_source(source_id) {
            Some(i) => i,
            None => vstd::pervasive::unreached(),
        };
        let mut requests: Vec<(RequestId, TRq)> = Vec::new();
        drain_source(&mut self.requests, source_id, &mut requests);
        drain_source(&mut self.obsolete_requests, source_id, &mut requests);
        let source = self.sources.remove(position);
        proof {
            let before = old(self).sources_view();
            let after = self.sources_view();
            assert(Seq::<(RequestId, TRq)>::empty().add(
                pairs_of(old(self).requests_view(), source_id),
            ) =~= pairs_of(old(self).requests_view(), source_id));
            assert forall|k: int| 0 <= k < after.len() implies (#[trigger] after[k]).id
                != source_id by {
                if k < position {
                    assert(before[k].id.0 < before[position as int].id.0);
                } else {
                    assert(before[position as int].id.0 < before[k + 1].id.0);
                }
            }
            lemma_others_than(old(self).requests_view(), source_id);
            lemma_others_than(old(self).obsolete_view(), source_id);
            assert forall|i: int| 0 <= i < self.requests_view().len() implies {
                &&& (#[trigger] self.requests_view()[i]).id.0 < self.next_request()
                &&& has_source(after, self.requests_view()[i].source_id)
            } by {
                let kept = self.requests_view()[i];
                let j = choose|j: int|
                    0 <= j < old(self).requests_view().len() && old(self).requests_view()[j]
                        == kept;
                assert(old(self).requests_view()[j].id.0 < old(self).next_request());
                lemma_has_source_remove(before, position as int, kept.source_id);
            }
            assert forall|i: int| 0 <= i < self.obsolete_view().len() implies {
                &&& (#[trigger] self.obsolete_view()[i]).id.0 < self.next_request()
                &&& has_source(after, self.obsolete_view()[i].source_id)
            } by {
                let kept = self.obsolete_view()[i];
                let j = choose|j: int|
                    0 <= j < old(self).obsolete_view().len() && old(self).obsolete_view()[j]
                        == kept;
                assert(old(self).obsolete_view()[j].id.0 < old(self).next_request());
                lemma_has_source_remove(before, position as int, kept.source_id);
            }
        }
        (source.user_data, requests)
    }

    /// Returns the number of ongoing requests that concern this source, wanted or not. If
    /// the number is beyond what a `usize` holds, the largest `usize` is returned.
    pub fn source_num_ongoing_requests(&self, source_id: SourceId) -> (n: usize)
        ensures
            n == capped_sum(
                pairs_of(self.obsolete_view(), source_id).len(),
                pairs_of(self.requests_view(), source_id).len(),
            ),
    {
        let num_obsolete: usize = count_of(&self.obsolete_requests, source_id);
        let num_regular: usize = count_of(&self.requests, source_id);
        if num_obsolete > usize::MAX - num_regular {
            usize::MAX
        } else {
            num_obsolete + num_regular
        }
    }

    /// Returns the identifiers of all the requests whose outcome is no longer desired.
    pub fn obsolete_requests(&self) -> (ids: Vec<RequestId>)
        ensures
            ids@.len() == self.obsolete_view().len(),
            forall|i: int| 0 <= i < ids@.len() ==> ids@[i] == self.obsolete_view()[i].id,
    {
        let mut ids: Vec<RequestId> = Vec::new();
        let mut i: usize = 0;
        while i < self.obsolete_requests.len()
            invariant
                i <= self.obsolete_requests@.len(),
                ids@.len() == i,
                forall|k: int| 0 <= k < i ==> ids@[k] == self.obsolete_requests@[k].id,
            decreases self.obsolete_requests.len() - i,
        {
            ids.push(self.obsolete_requests[i].id);
            i = i + 1;
        }
        ids
    }

    /// Returns all the requests that could be started, given the ranges of blocks that are
    /// missing: each is the height of its first block and its number of blocks.
    ///
    /// For each range in turn, each source whose best block is not below the range is asked
    /// for the blocks of the range that it has.
    pub fn desired_requests(&self, missing: &Vec<(u64, u32)>) -> (desired: Vec<RequestDetail>)
        ensures
            desired@ == desired_of_ranges(missing@, self.sources_view(), missing@.len()),
    {
        let mut desired: Vec<RequestDetail> = Vec::new();
        let mut r: usize = 0;
        while r < missing.len()
            invariant
                r <= missing@.len(),
                desired@ == desired_of_ranges(missing@, self.sources@, r as nat),
            decreases missing.len() - r,
        {
            let block_height: u64 = missing[r].0;
            let num_blocks: u32 = missing[r].1;
            let ghost start = desired@;
            let mut i: usize = 0;
            while i < self.sources.len()
                invariant
                    i <= self.sources@.len(),
                    desired@ == start.add(
                        desired_of_sources(block_height, num_blocks, self.sources@, i as nat),
                    ),
                decreases self.sources.len() - i,
            {
                let best: u64 = self.sources[i].best_block_number;
                proof {
                    let before = desired_of_sources(
                        block_height,
                        num_blocks,
                        self.sources@,
                        i as nat,
                    );
                    match desired_of(block_height, num_blocks, self.sources@[i as int]) {
                        Some(detail) => {
                            assert(start.add(before).push(detail) =~= start.add(
                                before.push(detail),
                            ));
                        },
                        None => {},
                    }
                }
                if best >= block_height {
                    let ahead: u64 = best - block_height;
                    let num: u32 = if ahead < num_blocks as u64 {
                        (ahead + 1) as u32
                    } else {
                        num_blocks
                    };
                    desired.push(
                        RequestDetail { source_id: self.sources[i].id, block_height, num_blocks: num },
                    );
                }
                i = i + 1;
            }
            r = r + 1;
        }
        desired
    }

    /// Disassembles the state machine into its raw components.
    pub fn disassemble(self) -> (parts: Disassemble<TRq, TSrc>)
        ensures
            parts.sources@.len() == self.sources_view().len(),
            forall|i: int|
                0 <= i < parts.sources@.len() ==> {
                    &&& (#[trigger] parts.sources@[i]).id == self.sources_view()[i].id
                    &&& parts.sources@[i].user_data == self.sources_view()[i].user_data
                    &&& parts.sources@[i].best_block_number
                        == self.sources_view()[i].best_block_number
                },
            parts.requests@.len() == self.requests_view().len(),
            forall|i: int|
                0 <= i < parts.requests@.len() ==> #[trigger] parts.requests@[i] == (
                    self.requests_view()[i].id,
                    self.requests_view()[i].user_data,
                ),
    {
        let mut remaining_sources = self.sources;
        let mut remaining_requests = self.requests;
        let ghost all_sources = remaining_sources@;
        let ghost all_requests = remaining_requests@;
        let mut sources: Vec<DisassembleSource<TSrc>> = Vec::new();
        while remaining_sources.len() > 0
            invariant
                sources@.len() + remaining_sources@.len() == all_sources.len(),
                remaining_sources@ == all_sources.skip(sources@.len() as int),
                forall|i: int|
                    0 <= i < sources@.len() ==> {
                        &&& (#[trigger] sources@[i]).id == all_sources[i].id
                        &&& sources@[i].user_data == all_sources[i].user_data
                        &&& sources@[i].best_block_number == all_sources[i].best_block_number
                    },
            decreases remaining_sources.len(),
        {
            let ghost at = sources@.len() as int;
            let source = remaining_sources.remove(0);
            proof {
                assert(source == all_sources[at]);
                assert(remaining_sources@ =~= all_sources.skip(at + 1));
            }
            sources.push(
                DisassembleSource {
                    id: source.id,
                    user_data: source.user_data,
                    best_block_number: source.best_block_number,
                },
            );
        }
        let mut requests: Vec<(RequestId, TRq)> = Vec::new();
        while remaining_requests.len() > 0
            invariant
                requests@.len() + remaining_requests@.len() == all_requests.len(),
                remaining_requests@ == all_requests.skip(requests@.len() as int),
                forall|i: int|
                    0 <= i < requests@.len() ==> #[trigger] requests@[i] == (
                        all_requests[i].id,
                        all_requests[i].user_data,
                    ),
            decreases remaining_requests.len(),
        {
            let ghost at = requests@.len() as int;
            let request = remaining_requests.remove(0);
            proof {
                assert(request == all_requests[at]);
                assert(remaining_requests@ =~= all_requests.skip(at + 1));
            }
            requests.push((request.id, request.user_data));
        }
        Disassemble { sources, requests }
    }
}

/// State of the processing of blocks.
pub enum ProcessOne<TRq, TSrc> {
    /// No processing is necessary.
    ///
    /// Calling [`OptimisticSync::process_one`] again is unnecessary.
    Idle {
        /// The state machine.
        /// The [`OptimisticSync::process_one`] method takes ownership of the
        /// [`OptimisticSync`]. This field yields it back.
        sync: OptimisticSync<TRq, TSrc>,
    },
    /// The first of the blocks that were downloaded is to be verified.
    VerifyBlock(BlockVerify<TRq, TSrc>),
    /// A justification of the block that was verified last is to be verified.
    VerifyJustification(JustificationVerify<TRq, TSrc>),
}

/// Start the processing of a block verification.
pub struct BlockVerify<TRq, TSrc> {
    inner: OptimisticSync<TRq, TSrc>,
}

/// What is kept during the verification of a block.
pub struct BlockVerificationShared<TRq, TSrc> {
    /// The state machine.
    inner: OptimisticSync<TRq, TSrc>,
    /// Source the block has been downloaded from. Might be obsolete.
    source_id: SourceId,
}

/// How far the verification of a block has come.
#[derive(Debug, Copy, Clone, PartialEq, Eq)]
pub enum VerifyStep {
    /// The block is verified and is the new best block.
    Finished { new_best_number: u64, new_best_hash: [u8; 32] },
    /// A storage value of the parent block is needed.
    StorageGet,
    /// The Merkle value of a trie node of the parent block storage is needed.
    StorageClosestDescendantMerkleValue,
    /// The key of the parent block storage that follows a given one is needed.
    StorageNextKey,
    /// A runtime has to be compiled.
    RuntimeCompilation,
    /// The block is bad. `previous_best_height` is the height of the best block before.
    Failed { reason: ResetCause, previous_best_height: u64 },
}

/// State of the processing of blocks.
pub enum BlockVerification<TRq, TSrc> {
    /// An issue happened when verifying the block or its justification, resulting in resetting
    /// the chain to the latest finalized block.
    Reset {
        /// The state machine.
        sync: OptimisticSync<TRq, TSrc>,
        /// Height of the best block before the reset.
        previous_best_height: u64,
        /// Problem that happened and caused the reset.
        reason: ResetCause,
    },
    /// Processing of the block is over.
    ///
    /// There might be more blocks remaining. Call [`OptimisticSync::process_one`] again.
    NewBest {
        /// The state machine.
        sync: OptimisticSync<TRq, TSrc>,
        new_best_number: u64,
        new_best_hash: [u8; 32],
    },
    /// Loading a storage value of the parent block is required in order to continue.
    ParentStorageGet(StorageGet<TRq, TSrc>),
    /// Obtaining the Merkle value of a trie node of the parent block storage is required in order
    /// to continue.
    ParentStorageMerkleValue(StorageClosestDescendantMerkleValue<TRq, TSrc>),
    /// Fetching the key of the parent block storage that follows a given one is required in
    /// order to continue.
    ParentStorageNextKey(StorageNextKey<TRq, TSrc>),
    /// Compiling a runtime is required in order to continue.
    RuntimeCompilation(RuntimeCompilation<TRq, TSrc>),
}

/// Loading a storage value is required in order to continue.
pub struct StorageGet<TRq, TSrc> {
    shared: BlockVerificationShared<TRq, TSrc>,
}

/// Obtaining the Merkle value of the closest descendant of a trie node is required in order to
/// continue.
pub struct StorageClosestDescendantMerkleValue<TRq, TSrc> {
    shared: BlockVerificationShared<TRq, TSrc>,
}

/// Fetching the key that follows a given one is required in order to continue.
pub struct StorageNextKey<TRq, TSrc> {
    shared: BlockVerificationShared<TRq, TSrc>,
}

/// Compiling a new runtime is necessary as part of the verification.
pub struct RuntimeCompilation<TRq, TSrc> {
    shared: BlockVerificationShared<TRq, TSrc>,
}

/// Start the processing of a justification verification.
pub struct JustificationVerify<TRq, TSrc> {
    inner: OptimisticSync<TRq, TSrc>,
}

/// How the verification of a justification went.
#[derive(Debug, Copy, Clone, PartialEq, Eq)]
pub enum JustificationOutcome {
    /// The justification is good, and the best block is finalized.
    Finalized,
    /// The justification is bad. `previous_best_height` is the height of the best block before.
    Failed { previous_best_height: u64 },
}

/// Outcome of the verification of a justification.
pub enum JustificationVerification {
    /// An issue happened when verifying the justification, resulting in resetting the chain to
    /// the latest finalized block.
    Reset {
        /// Height of the best block before the reset.
        previous_best_height: u64,
    },
    /// Processing of the justification is over. The best block has now been finalized.
    ///
    /// There might be more blocks remaining. Call [`OptimisticSync::process_one`] again.
    Finalized {
        /// Engine of the justification that finalized the block.
        consensus_engine_id: [u8; 4],
        /// The justification that finalized the block.
        justification: Vec<u8>,
    },
}

/// The justifications `justifications`, each with the source `source`.
pub open spec fn tagged(justifications: Seq<([u8; 4], Vec<u8>)>, source: SourceId) -> Seq<
    ([u8; 4], Vec<u8>, SourceId),
> {
    Seq::new(
        justifications.len(),
        |i: int| (justifications[i].0, justifications[i].1, source),
    )
}

impl<TRq, TSrc> BlockVerificationShared<TRq, TSrc> {
    /// The state machine.
    pub closed spec fn sync(&self) -> OptimisticSync<TRq, TSrc> {
        self.inner
    }

    /// Source that the block was downloaded from.
    pub closed spec fn source(&self) -> SourceId {
        self.source_id
    }
}

impl<TRq, TSrc> OptimisticSync<TRq, TSrc> {
    /// Whether `self` is `before` after a source misbehaved: the source `source` is banned
    /// unless every source would then be banned, in which case none is banned any longer, and
    /// the answer of no request is wanted any longer.
    pub open spec fn is_reset_of(&self, before: &Self, source: SourceId) -> bool {
        &&& self.sources_view() == after_ban(before.sources_view(), source)
        &&& self.requests_view().len() == 0
        &&& self.obsolete_view() == before.obsolete_view().add(before.requests_view())
        &&& self.next_source() == before.next_source()
        &&& self.next_request() == before.next_request()
        &&& self.same_settings(before)
    }

    /// Bans `source` and marks the answer of every request as unwanted.
    fn reset(&mut self, source: SourceId)
        requires
            old(self).wf(),
        ensures
            final(self).wf(),
            final(self).is_reset_of(old(self), source),
            final(self).pending_justifications() == old(self).pending_justifications(),
    {
        self.ban(source);
        self.make_requests_obsolete();
    }

    /// Process the next block in the queue of verification.
    ///
    /// `blocks_ready` says whether a block was downloaded that can be verified. The
    /// justifications of the block that was verified last come first.
    ///
    /// This method takes ownership of the [`OptimisticSync`]. The [`OptimisticSync`] is yielded
    /// back in the returned value.
    pub fn process_one(self, blocks_ready: bool) -> (next: ProcessOne<TRq, TSrc>)
        requires
            self.wf(),
        ensures
            match next {
                ProcessOne::VerifyJustification(verify) => self.pending_justifications().len()
                    > 0 && verify.sync() == self,
                ProcessOne::VerifyBlock(verify) => self.pending_justifications().len() == 0
                    && blocks_ready && verify.sync() == self,
                ProcessOne::Idle { sync } => self.pending_justifications().len() == 0
                    && !blocks_ready && sync == self,
            },
    {
        if self.pending_justifications_done < self.pending_encoded_justifications.len() {
            return ProcessOne::VerifyJustification(JustificationVerify { inner: self });
        }
        if blocks_ready {
            ProcessOne::VerifyBlock(BlockVerify { inner: self })
        } else {
            ProcessOne::Idle { sync: self }
        }
    }
}

impl<TRq, TSrc> BlockVerification<TRq, TSrc> {
    /// Whether `self` is where the verification `shared` stands after `step`.
    ///
    /// The state machine is handed back once the block is verified, or has failed to: then
    /// its source has misbehaved (see [`OptimisticSync::is_reset_of`]). Else it is kept until
    /// what the verification needs was provided.
    pub open spec fn follows(self, shared: BlockVerificationShared<TRq, TSrc>, step: VerifyStep) -> bool {
        match step {
            VerifyStep::Finished { new_best_number, new_best_hash } => self
                == (BlockVerification::NewBest {
                sync: shared.sync(),
                new_best_number,
                new_best_hash,
            }),
            VerifyStep::Failed { reason, previous_best_height } => {
                &&& self matches BlockVerification::Reset {
                    sync,
                    previous_best_height: height,
                    reason: cause,
                }
                &&& height == previous_best_height
                &&& cause == reason
                &&& sync.wf()
                &&& sync.is_reset_of(&shared.sync(), shared.source())
                &&& sync.pending_justifications() == shared.sync().pending_justifications()
            },
            VerifyStep::StorageGet => self matches BlockVerification::ParentStorageGet(get)
                && get.shared() == shared,
            VerifyStep::StorageClosestDescendantMerkleValue => self
                matches BlockVerification::ParentStorageMerkleValue(get) && get.shared()
                == shared,
            VerifyStep::StorageNextKey => self matches BlockVerification::ParentStorageNextKey(
                get,
            ) && get.shared() == shared,
            VerifyStep::RuntimeCompilation => self matches BlockVerification::RuntimeCompilation(
                get,
            ) && get.shared() == shared,
        }
    }

    /// Goes on with the verification of a block, which has come to `step`.
    pub fn from(step: VerifyStep, shared: BlockVerificationShared<TRq, TSrc>) -> (next: Self)
        requires
            shared.sync().wf(),
        ensures
            next.follows(shared, step),
    {
        match step {
            VerifyStep::Finished { new_best_number, new_best_hash } => BlockVerification::NewBest {
                sync: shared.inner,
                new_best_number,
                new_best_hash,
            },
            VerifyStep::Failed { reason, previous_best_height } => {
                let mut sync = shared.inner;
                sync.reset(shared.source_id);
                BlockVerification::Reset { sync, previous_best_height, reason }
            },
            VerifyStep::StorageGet => BlockVerification::ParentStorageGet(StorageGet { shared }),
            VerifyStep::StorageClosestDescendantMerkleValue => {
                BlockVerification::ParentStorageMerkleValue(
                    StorageClosestDescendantMerkleValue { shared },
                )
            },
            VerifyStep::StorageNextKey => BlockVerification::ParentStorageNextKey(
                StorageNextKey { shared },
            ),
            VerifyStep::RuntimeCompilation => BlockVerification::RuntimeCompilation(
                RuntimeCompilation { shared },
            ),
        }
    }
}

impl<TRq, TSrc> BlockVerify<TRq, TSrc> {
    /// The state machine.
    pub closed spec fn sync(&self) -> OptimisticSync<TRq, TSrc> {
        self.inner
    }

    /// Returns true if [`Config::full_mode`] was `true` at initialization.
    pub fn is_full_verification(&self) -> (full: bool)
        ensures
            full == self.sync().full(),
    {
        self.inner.full_mode
    }

    /// Start the verification of the block, which was downloaded from `source_id` with the
    /// justifications `justifications`, and whose verification has come to `step`.
    ///
    /// The justifications are those to verify next, once the block is verified.
    pub fn start(
        self,
        justifications: Vec<([u8; 4], Vec<u8>)>,
        source_id: SourceId,
        step: VerifyStep,
    ) -> (next: BlockVerification<TRq, TSrc>)
        requires
            self.sync().wf(),
        ensures
            exists|shared: BlockVerificationShared<TRq, TSrc>|
                {
                    &&& #[trigger] next.follows(shared, step)
                    &&& shared.source() == source_id
                    &&& shared.sync().wf()
                    &&& shared.sync().same_but_justifications(&self.sync())
                    &&& shared.sync().pending_justifications() == tagged(justifications@, source_id)
                },
    {
        let mut inner = self.inner;
        let mut remaining = justifications;
        let ghost all = remaining@;
        let mut pending: Vec<([u8; 4], Vec<u8>, SourceId)> = Vec::new();
        while remaining.len() > 0
            invariant
                pending@.len() + remaining@.len() == all.len(),
                remaining@ == all.skip(pending@.len() as int),
                forall|i: int|
                    0 <= i < pending@.len() ==> #[trigger] pending@[i] == (
                        all[i].0,
                        all[i].1,
                        source_id,
                    ),
            decreases remaining.len(),
        {
            let ghost at = pending@.len() as int;
            let justification = remaining.remove(0);
            proof {
                assert(justification == all[at]);
                assert(remaining@ =~= all.skip(at + 1));
            }
            pending.push((justification.0, justification.1, source_id));
        }
        inner.pending_encoded_justifications = pending;
        inner.pending_justifications_done = 0;
        proof {
            assert(inner.pending_justifications() =~= tagged(all, source_id));
        }
        let shared = BlockVerificationShared { inner, source_id };
        let ghost with_pending = shared;
        let next = BlockVerification::from(step, shared);
        proof {
            assert(next.follows(with_pending, step));
        }
        next
    }
}

impl<TRq, TSrc> StorageGet<TRq, TSrc> {
    /// What is kept during the verification.
    pub closed spec fn shared(&self) -> BlockVerificationShared<TRq, TSrc> {
        self.shared
    }

    /// Goes on with the verification once the storage value was injected, which has brought
    /// it to `step`.
    pub fn inject_value(self, step: VerifyStep) -> (next: BlockVerification<TRq, TSrc>)
        requires
            self.shared().sync().wf(),
        ensures
            next.follows(self.shared(), step),
    {
        BlockVerification::from(step, self.shared)
    }
}

impl<TRq, TSrc> StorageClosestDescendantMerkleValue<TRq, TSrc> {
    /// What is kept during the verification.
    pub closed spec fn shared(&self) -> BlockVerificationShared<TRq, TSrc> {
        self.shared
    }

    /// Goes on with the verification once told that the Merkle value is unknown, which has
    /// brought it to `step`.
    pub fn resume_unknown(self, step: VerifyStep) -> (next: BlockVerification<TRq, TSrc>)
        requires
            self.shared().sync().wf(),
        ensures
            next.follows(self.shared(), step),
    {
        BlockVerification::from(step, self.shared)
    }

    /// Goes on with the verification once the Merkle value was injected, which has brought it
    /// to `step`.
    pub fn inject_merkle_value(self, step: VerifyStep) -> (next: BlockVerification<TRq, TSrc>)
        requires
            self.shared().sync().wf(),
        ensures
            next.follows(self.shared(), step),
    {
        BlockVerification::from(step, self.shared)
    }
}

impl<TRq, TSrc> StorageNextKey<TRq, TSrc> {
    /// What is kept during the verification.
    pub closed spec fn shared(&self) -> BlockVerificationShared<TRq, TSrc> {
        self.shared
    }

    /// Goes on with the verification once the key was injected, which has brought it to
    /// `step`.
    pub fn inject_key(self, step: VerifyStep) -> (next: BlockVerification<TRq, TSrc>)
        requires
            self.shared().sync().wf(),
        ensures
            next.follows(self.shared(), step),
    {
        BlockVerification::from(step, self.shared)
    }
}

impl<TRq, TSrc> RuntimeCompilation<TRq, TSrc> {
    /// What is kept during the verification.
    pub closed spec fn shared(&self) -> BlockVerificationShared<TRq, TSrc> {
        self.shared
    }

    /// Goes on with the verification once the runtime was built, which has brought it to
    /// `step`.
    pub fn build(self, step: VerifyStep) -> (next: BlockVerification<TRq, TSrc>)
        requires
            self.shared().sync().wf(),
        ensures
            next.follows(self.shared(), step),
    {
        BlockVerification::from(step, self.shared)
    }
}

impl<TRq, TSrc> JustificationVerify<TRq, TSrc> {
    /// The state machine.
    pub closed spec fn sync(&self) -> OptimisticSync<TRq, TSrc> {
        self.inner
    }

    /// Returns the engine and the bytes of the justification to verify.
    pub fn justification(&self) -> (justification: (&[u8; 4], &Vec<u8>))
        requires
            self.sync().wf(),
            self.sync().pending_justifications().len() > 0,
        ensures
            *justification.0 == self.sync().pending_justifications()[0].0,
            *justification.1 == self.sync().pending_justifications()[0].1,
    {
        let next = &self.inner.pending_encoded_justifications[self.inner.pending_justifications_done];
        (&next.0, &next.1)
    }

    /// Takes note of how the verification of the justification went.
    ///
    /// If it failed, the source of the block that it came with has misbehaved (see
    /// [`OptimisticSync::is_reset_of`]). In any case the justification is not to be verified
    /// again.
    pub fn perform(self, outcome: JustificationOutcome) -> (performed: (
        OptimisticSync<TRq, TSrc>,
        JustificationVerification,
    ))
        requires
            self.sync().wf(),
            self.sync().pending_justifications().len() > 0,
        ensures
            performed.0.wf(),
            performed.0.pending_justifications() == self.sync().pending_justifications().skip(1),
            match outcome {
                JustificationOutcome::Finalized => {
                    &&& performed.0.same_but_justifications(&self.sync())
                    &&& performed.1 matches JustificationVerification::Finalized {
                        consensus_engine_id,
                        justification,
                    }
                    &&& consensus_engine_id == self.sync().pending_justifications()[0].0
                    &&& justification@ == self.sync().pending_justifications()[0].1@
                },
                JustificationOutcome::Failed { previous_best_height } => {
                    &&& performed.0.is_reset_of(
                        &self.sync(),
                        self.sync().pending_justifications()[0].2,
                    )
                    &&& performed.1 == (JustificationVerification::Reset { previous_best_height })
                },
            },
    {
        let mut inner = self.inner;
        let at: usize = inner.pending_justifications_done;
        let ghost before = inner.pending_justifications();
        let total: usize = inner.pending_encoded_justifications.len();
        assert(at < total);
        let source_id: SourceId = inner.pending_encoded_justifications[at].2;
        inner.pending_justifications_done = at + 1;
        proof {
            assert(inner.pending_justifications() =~= before.skip(1));
        }
        match outcome {
            JustificationOutcome::Finalized => {
                let consensus_engine_id: [u8; 4] = inner.pending_encoded_justifications[at].0;
                let justification: Vec<u8> = inner.pending_encoded_justifications[at].1.clone();
                proof {
                    assert(justification@ == before[0].1@);
                }
                (inner, JustificationVerification::Finalized { consensus_engine_id, justification })
            },
            JustificationOutcome::Failed { previous_best_height } => {
                inner.reset(source_id);
                (inner, JustificationVerification::Reset { previous_best_height })
            },
        }
    }
}

} // verus!
