//! All syncing strategies (optimistic, warp sync, all forks) grouped together.
//!
//! The [`AllSync`] acts as the container of the sources and of the requests of whichever
//! strategy is syncing the chain, and gives each of them an identifier that stays the same
//! when one strategy takes over from another.
//!
//! A *request* represents a query for information from a source. Once the request has
//! finished, call one of the methods of the [`AllSync`] in order to notify the state machine of
//! the outcome.
//!
//! The strategies themselves are state machines that the user of the [`AllSync`] owns. The
//! [`AllSync`] decides which of them a source or a request goes to, and what becomes of their
//! answers. Each strategy knows its sources and requests by identifiers of its own, which the
//! [`AllSync`] is told, and is given the identifier of the [`AllSync`] to keep with each.

use crate::sync::optimistic;
use vstd::prelude::*;

verus! {

/// Configuration for the [`AllSync`].
#[derive(Debug)]
pub struct Config {
    /// Number of bytes used when encoding/decoding the block number. Influences how various data
    /// structures should be parsed.
    pub block_number_bytes: usize,
    /// If `false`, blocks containing digest items with an unknown consensus engine will fail to
    /// verify.
    pub allow_unknown_consensus_engines: bool,
    /// Pre-allocated capacity for the number of block sources.
    pub sources_capacity: usize,
    /// Pre-allocated capacity for the number of blocks between the finalized block and the head
    /// of the chain.
    pub blocks_capacity: usize,
    /// Maximum number of blocks of unknown ancestry to keep in memory.
    pub max_disjoint_headers: usize,
    /// Maximum number of simultaneous pending requests made towards the same block. At least
    /// one.
    pub max_requests_per_block: u32,
    /// Number of blocks to download ahead of the best verified block. At least one.
    pub download_ahead_blocks: u32,
    /// If `true`, the block bodies and storage are also synchronized and the block bodies are
    /// verified.
    pub full_mode: bool,
}

/// Identifier for a source in the [`AllSync`].
#[derive(Debug, Copy, Clone, Ord, PartialOrd, Eq, PartialEq, Hash)]
pub struct SourceId(pub usize);

/// Identifier for a request in the [`AllSync`].
#[derive(Debug, Copy, Clone, Ord, PartialOrd, Eq, PartialEq, Hash)]
pub struct RequestId(pub usize);

/// Status of the synchronization.
#[derive(Debug)]
#[allow(inconsistent_fields)]
pub enum Status<'a, TSrc> {
    /// Regular syncing mode.
    Sync,
    /// Warp syncing algorithm is downloading Grandpa warp sync fragments containing a finality
    /// proof.
    WarpSyncFragments {
        /// Source from which the fragments are currently being downloaded, if any.
        source: Option<(SourceId, &'a TSrc)>,
        /// Hash of the highest block that is proven to be finalized.
        finalized_block_hash: [u8; 32],
        /// Height of the block indicated by [`Status::WarpSyncFragments::finalized_block_hash`].
        finalized_block_number: u64,
    },
    /// Warp syncing algorithm has reached the head of the finalized chain and is downloading and
    /// building the chain information.
    WarpSyncChainInformation {
        /// Source from which the chain information is being downloaded.
        source: (SourceId, &'a TSrc),
        /// Hash of the highest block that is proven to be finalized.
        finalized_block_hash: [u8; 32],
        /// Height of the block indicated by
        /// [`Status::WarpSyncChainInformation::finalized_block_hash`].
        finalized_block_number: u64,
    },
}

/// See [`AllSync::desired_requests`].
#[derive(Debug, Clone, PartialEq, Eq)]
pub enum DesiredRequest {
    /// Requesting blocks from the source is requested.
    BlocksRequest {
        /// Height of the first block to request.
        first_block_height: u64,
        /// Hash of the first block to request. `None` if not known.
        first_block_hash: Option<[u8; 32]>,
        /// `True` if the `first_block_hash` is the response should contain blocks in an
        /// increasing number, starting from `first_block_hash` with the lowest number. If `false`,
        /// the blocks should be in decreasing number, with `first_block_hash` as the highest
        /// number.
        ascending: bool,
        /// Number of blocks the request should return, at least one.
        ///
        /// Note that this is only an indication, and the source is free to give fewer blocks
        /// than requested.
        ///
        /// This might be equal to `u64::MAX` in case no upper bound is required. The API
        /// user is responsible for clamping this value to a reasonable limit.
        num_blocks: u64,
        /// `True` if headers should be included in the response.
        request_headers: bool,
        /// `True` if bodies should be included in the response.
        request_bodies: bool,
        /// `True` if the justification should be included in the response, if any.
        request_justification: bool,
    },
    /// Sending a Grandpa warp sync request is requested.
    GrandpaWarpSync {
        /// Hash of the known finalized block. Starting point of the request.
        sync_start_block_hash: [u8; 32],
    },
    /// Sending a storage query is requested.
    StorageGetMerkleProof {
        /// Hash of the block whose storage is requested.
        block_hash: [u8; 32],
        /// Merkle value of the root of the storage trie of the block.
        state_trie_root: [u8; 32],
        /// Keys whose values is requested.
        keys: Vec<Vec<u8>>,
    },
    /// Sending a call proof query is requested.
    RuntimeCallMerkleProof {
        /// Hash of the block whose call is made against.
        block_hash: [u8; 32],
        /// Name of the function to be called.
        function_name: String,
        /// Concatenated SCALE-encoded parameters to provide to the call.
        parameter_vectored: Vec<u8>,
    },
}

/// The smaller of two numbers.
pub open spec fn smaller(a: u64, b: u64) -> u64 {
    if a < b {
        a
    } else {
        b
    }
}

impl DesiredRequest {
    /// Caps the number of blocks to request to `max`, which is at least one.
    pub fn num_blocks_clamp(&mut self, max: u64)
        requires
            max >= 1,
        ensures
            match *old(self) {
                DesiredRequest::BlocksRequest {
                    first_block_height,
                    first_block_hash,
                    ascending,
                    num_blocks,
                    request_headers,
                    request_bodies,
                    request_justification,
                } => *final(self) == (DesiredRequest::BlocksRequest {
                    first_block_height,
                    first_block_hash,
                    ascending,
                    num_blocks: smaller(num_blocks, max),
                    request_headers,
                    request_bodies,
                    request_justification,
                }),
                _ => *final(self) == *old(self),
            },
    {
        match self {
            DesiredRequest::BlocksRequest { num_blocks, .. } => {
                if max < *num_blocks {
                    *num_blocks = max;
                }
            },
            _ => {},
        }
    }

    /// Caps the number of blocks to request to `max`, which is at least one.
    pub fn with_num_blocks_clamp(self, max: u64) -> (clamped: Self)
        requires
            max >= 1,
        ensures
            match self {
                DesiredRequest::BlocksRequest {
                    first_block_height,
                    first_block_hash,
                    ascending,
                    num_blocks,
                    request_headers,
                    request_bodies,
                    request_justification,
                } => clamped == (DesiredRequest::BlocksRequest {
                    first_block_height,
                    first_block_hash,
                    ascending,
                    num_blocks: smaller(num_blocks, max),
                    request_headers,
                    request_bodies,
                    request_justification,
                }),
                _ => clamped == self,
            },
    {
        let mut clamped = self;
        clamped.num_blocks_clamp(max);
        clamped
    }
}

/// See [`AllSync::add_request`].
#[derive(Debug, Clone, PartialEq, Eq)]
pub enum RequestDetail {
    /// Requesting blocks from the source is requested.
    BlocksRequest {
        /// Height of the first block to request.
        first_block_height: u64,
        /// Hash of the first block to request. `None` if not known.
        first_block_hash: Option<[u8; 32]>,
        /// `True` if the `first_block_hash` is the response should contain blocks in an
        /// increasing number, starting from `first_block_hash` with the lowest number. If `false`,
        /// the blocks should be in decreasing number, with `first_block_hash` as the highest
        /// number.
        ascending: bool,
        /// Number of blocks the request should return, at least one.
        ///
        /// Note that this is only an indication, and the source is free to give fewer blocks
        /// than requested.
        num_blocks: u64,
        /// `True` if headers should be included in the response.
        request_headers: bool,
        /// `True` if bodies should be included in the response.
        request_bodies: bool,
        /// `True` if the justification should be included in the response, if any.
        request_justification: bool,
    },
    /// Sending a Grandpa warp sync request is requested.
    GrandpaWarpSync {
        /// Hash of the known finalized block. Starting point of the request.
        sync_start_block_hash: [u8; 32],
    },
    /// Sending a storage query is requested.
    StorageGet {
        /// Hash of the block whose storage is requested.
        block_hash: [u8; 32],
        /// Keys whose values is requested.
        keys: Vec<Vec<u8>>,
    },
    /// Sending a call proof query is requested.
    RuntimeCallMerkleProof {
        /// Hash of the block whose call is made against.
        block_hash: [u8; 32],
        /// Name of the function to be called.
        function_name: String,
        /// Concatenated SCALE-encoded parameters to provide to the call.
        parameter_vectored: Vec<u8>,
    },
}

impl RequestDetail {
    /// Caps the number of blocks to request to `max`, which is at least one.
    pub fn num_blocks_clamp(&mut self, max: u64)
        requires
            max >= 1,
        ensures
            match *old(self) {
                RequestDetail::BlocksRequest {
                    first_block_height,
                    first_block_hash,
                    ascending,
                    num_blocks,
                    request_headers,
                    request_bodies,
                    request_justification,
                } => *final(self) == (RequestDetail::BlocksRequest {
                    first_block_height,
                    first_block_hash,
                    ascending,
                    num_blocks: smaller(num_blocks, max),
                    request_headers,
                    request_bodies,
                    request_justification,
                }),
                _ => *final(self) == *old(self),
            },
    {
        match self {
            RequestDetail::BlocksRequest { num_blocks, .. } => {
                if max < *num_blocks {
                    *num_blocks = max;
                }
            },
            _ => {},
        }
    }

    /// Caps the number of blocks to request to `max`, which is at least one.
    pub fn with_num_blocks_clamp(self, max: u64) -> (clamped: Self)
        requires
            max >= 1,
        ensures
            match self {
                RequestDetail::BlocksRequest {
                    first_block_height,
                    first_block_hash,
                    ascending,
                    num_blocks,
                    request_headers,
                    request_bodies,
                    request_justification,
                } => clamped == (RequestDetail::BlocksRequest {
                    first_block_height,
                    first_block_hash,
                    ascending,
                    num_blocks: smaller(num_blocks, max),
                    request_headers,
                    request_bodies,
                    request_justification,
                }),
                _ => clamped == self,
            },
    {
        let mut clamped = self;
        clamped.num_blocks_clamp(max);
        clamped
    }

    /// The request to make for what `desired` asks for.
    pub open spec fn of_desired(desired: DesiredRequest) -> RequestDetail {
        match desired {
            DesiredRequest::BlocksRequest {
                first_block_height,
                first_block_hash,
                ascending,
                num_blocks,
                request_headers,
                request_bodies,
                request_justification,
            } => RequestDetail::BlocksRequest {
                first_block_height,
                first_block_hash,
                ascending,
                num_blocks,
                request_headers,
                request_bodies,
                request_justification,
            },
            DesiredRequest::GrandpaWarpSync { sync_start_block_hash } => RequestDetail::GrandpaWarpSync {
                sync_start_block_hash,
            },
            DesiredRequest::StorageGetMerkleProof {
                block_hash,
                state_trie_root,
                keys,
            } => RequestDetail::StorageGet { block_hash, keys },
            DesiredRequest::RuntimeCallMerkleProof {
                block_hash,
                function_name,
                parameter_vectored,
            } => RequestDetail::RuntimeCallMerkleProof {
                block_hash,
                function_name,
                parameter_vectored,
            },
        }
    }

    /// Returns the request to make for what `desired` asks for.
    pub fn from_desired(desired: DesiredRequest) -> (detail: Self)
        ensures
            detail == Self::of_desired(desired),
    {
        match desired {
            DesiredRequest::BlocksRequest {
                first_block_height,
                first_block_hash,
                ascending,
                num_blocks,
                request_headers,
                request_bodies,
                request_justification,
            } => RequestDetail::BlocksRequest {
                first_block_height,
                first_block_hash,
                ascending,
                num_blocks,
                request_headers,
                request_bodies,
                request_justification,
            },
            DesiredRequest::GrandpaWarpSync { sync_start_block_hash } => RequestDetail::GrandpaWarpSync {
                sync_start_block_hash,
            },
            DesiredRequest::StorageGetMerkleProof {
                block_hash,
                state_trie_root,
                keys,
            } => RequestDetail::StorageGet { block_hash, keys },
            DesiredRequest::RuntimeCallMerkleProof {
                block_hash,
                function_name,
                parameter_vectored,
            } => RequestDetail::RuntimeCallMerkleProof {
                block_hash,
                function_name,
                parameter_vectored,
            },
        }
    }
}

/// A block of the response to a request for blocks.
pub struct BlockRequestSuccessBlock<TBl> {
    pub scale_encoded_header: Vec<u8>,
    pub scale_encoded_justifications: Vec<Justification>,
    pub scale_encoded_extrinsics: Vec<Vec<u8>>,
    pub user_data: TBl,
}

/// See [`BlockRequestSuccessBlock::scale_encoded_justifications`].
#[derive(Debug, Clone, PartialEq, Eq)]
pub struct Justification {
    /// Short identifier of the consensus engine associated with that justification.
    pub engine_id: [u8; 4],
    /// Body of the justification.
    pub justification: Vec<u8>,
}

/// Outcome of calling [`AllSync::block_announce`].
#[derive(Debug, Copy, Clone, PartialEq, Eq)]
pub enum BlockAnnounceOutcome {
    /// Header is ready to be verified. Calling [`AllSync::process_one`] might yield that block.
    HeaderVerify,
    /// Announced block is too old to be part of the finalized chain.
    ///
    /// It is assumed that all sources will eventually agree on the same finalized chain. Blocks
    /// whose height is inferior to the height of the latest known finalized block should simply
    /// be ignored. Whether or not this old block is indeed part of the finalized block isn't
    /// verified, and it is assumed that the source is simply late.
    TooOld {
        /// Height of the announced block.
        announce_block_height: u64,
        /// Height of the currently finalized block.
        finalized_block_height: u64,
    },
    /// Announced block has already been successfully verified and is part of the non-finalized
    /// chain.
    AlreadyInChain,
    /// Announced block is known to not be a descendant of the finalized block.
    NotFinalizedChain,
    /// Header cannot be verified now because its parent hasn't been verified yet. The block has
    /// been stored for later. See [`Config::max_disjoint_headers`].
    StoredForLater,
    /// Failed to decode announce header.
    InvalidHeader,
    /// Header cannot be verified now and has been silently discarded.
    Discarded,
}

/// Response to a GrandPa warp sync request.
#[derive(Debug)]
pub struct GrandpaWarpSyncResponseFragment<'a> {
    /// Header of a block in the chain.
    pub scale_encoded_header: &'a [u8],
    /// Justification that proves the finality of
    /// [`GrandpaWarpSyncResponseFragment::scale_encoded_header`].
    pub scale_encoded_justification: &'a [u8],
}

/// Outcome of injecting a response in the [`AllSync`].
#[derive(Debug, PartialEq, Eq)]
pub enum ResponseOutcome {
    /// Request was no longer interesting for the state machine.
    Outdated,
    /// Content of the response has been queued and will be processed later.
    Queued,
    /// Source has given blocks that aren't part of the finalized chain.
    ///
    /// This doesn't necessarily mean that the source is malicious or uses a different chain. It
    /// is possible for this to legitimately happen, for example if the finalized chain has been
    /// updated while the ancestry search was in progress.
    NotFinalizedChain {
        /// List of block headers that were pending verification and that have now been discarded
        /// since it has been found out that they don't belong to the finalized chain.
        discarded_unverified_block_headers: Vec<Vec<u8>>,
    },
    /// All blocks in the ancestry search response were already in the list of verified blocks.
    ///
    /// This can happen if a block announce or different ancestry search response has been
    /// processed in between the request and response.
    AllAlreadyInChain,
}

/// See [`AllSync::grandpa_commit_message`].
#[derive(Debug, Copy, Clone, PartialEq, Eq)]
pub enum GrandpaCommitMessageOutcome {
    /// Message has been silently discarded.
    Discarded,
    /// Message has been queued for later verification.
    Queued,
}

/// A block that was finalized.
#[derive(Debug, Clone)]
pub struct Block<TBl> {
    /// SCALE-encoded header of the block.
    pub scale_encoded_header: Vec<u8>,
    /// SCALE-encoded justifications of this block, if any.
    pub justifications: Vec<([u8; 4], Vec<u8>)>,
    /// User data associated to the block.
    pub user_data: TBl,
    /// Extra fields for full block verifications.
    pub full: Option<BlockFull>,
}

/// Extra fields of a [`Block`] for full block verifications.
#[derive(Debug, Clone)]
pub struct BlockFull {
    /// List of SCALE-encoded extrinsics that form the block's body.
    pub body: Vec<Vec<u8>>,
}

/// Error that can happen when verifying a block header.
#[derive(Debug, Copy, Clone, PartialEq, Eq)]
pub enum HeaderVerifyError {
    /// Block can't be verified as it uses an unknown consensus engine.
    UnknownConsensusEngine,
    /// Block uses a different consensus than the rest of the chain.
    ConsensusMismatch,
    /// The block verification has failed. The block is invalid and should be thrown away.
    VerificationFailed,
}

/// Information about the outcome of verifying a finality proof.
#[derive(Debug)]
pub enum FinalityProofVerifyOutcome<TBl> {
    /// Proof verification successful. The block and all its ancestors is now finalized.
    NewFinalized {
        /// List of finalized blocks, in decreasing block number.
        finalized_blocks: Vec<Block<TBl>>,
        /// If `true`, this operation modifies the best block of the non-finalized chain.
        /// This can happen if the previous best block isn't a descendant of the now finalized
        /// block.
        updates_best_block: bool,
    },
    /// Finality proof concerns block that was already finalized.
    AlreadyFinalized,
    /// GrandPa commit cannot be verified yet and has been stored for later.
    GrandpaCommitPending,
    /// Problem while verifying justification.
    JustificationError,
    /// Problem while verifying GrandPa commit.
    GrandpaCommitError,
}

/// What the all-forks strategy asks a source for: the block `first_block_hash` at the height
/// `first_block_height` and its ancestors, `num_blocks` blocks in all.
#[derive(Debug, Copy, Clone, PartialEq, Eq)]
pub struct AllForksRequestParams {
    /// Hash of the first block to request.
    pub first_block_hash: [u8; 32],
    /// Height of the first block to request.
    pub first_block_height: u64,
    /// Number of blocks the request should return, at least one.
    pub num_blocks: u64,
}

/// The request that stands for what the all-forks strategy asks for: blocks in decreasing
/// number, with their headers and justifications, and with their bodies on a full node.
pub fn all_forks_request_convert(rq_params: AllForksRequestParams, full_node: bool) -> (desired:
    DesiredRequest)
    ensures
        desired == (DesiredRequest::BlocksRequest {
            ascending: false,
            first_block_hash: Some(rq_params.first_block_hash),
            first_block_height: rq_params.first_block_height,
            num_blocks: rq_params.num_blocks,
            request_bodies: full_node,
            request_headers: true,
            request_justification: true,
        }),
{
    DesiredRequest::BlocksRequest {
        // Hardcoded based on the logic of the all-forks syncing.
        ascending: false,
        first_block_hash: Some(rq_params.first_block_hash),
        first_block_height: rq_params.first_block_height,
        num_blocks: rq_params.num_blocks,
        request_bodies: full_node,
        request_headers: true,
        request_justification: true,
    }
}

/// The request that stands for what the optimistic strategy asks for: blocks in increasing
/// number from a height on, with their headers and justifications, and with their bodies on a
/// full node.
pub fn optimistic_request_convert(rq_params: optimistic::RequestDetail, full_node: bool) -> (desired:
    DesiredRequest)
    ensures
        desired == (DesiredRequest::BlocksRequest {
            ascending: true,
            first_block_hash: None,
            first_block_height: rq_params.block_height,
            num_blocks: rq_params.num_blocks as u64,
            request_bodies: full_node,
            request_headers: true,
            request_justification: true,
        }),
{
    DesiredRequest::BlocksRequest {
        // Hardcoded based on the logic of the optimistic syncing.
        ascending: true,
        first_block_hash: None,
        first_block_height: rq_params.block_height,
        num_blocks: rq_params.num_blocks as u64,
        request_bodies: full_node,
        request_headers: true,
        request_justification: true,
    }
}

/// Where a source or a request of the [`AllSync`] is kept: by the identifier that one of the
/// strategies gave it, or, for a request that no strategy took, by the [`AllSync`] alone.
#[derive(Debug, Copy, Clone, PartialEq, Eq, Structural)]
pub enum Mapping {
    /// Request that no strategy looks after. Its answer is of no use.
    Inline,
    /// Source or request of the warp syncing.
    GrandpaWarpSync(u64),
    /// Source or request of the all-forks syncing.
    AllForks(u64),
    /// Source or request of the optimistic syncing.
    Optimistic(u64),
}

/// The strategy that is syncing the chain.
#[derive(Debug, Copy, Clone, PartialEq, Eq, Structural)]
pub enum Strategy {
    /// Warp syncing. Once `finished`, it has reached the head of the finalized chain, and the
    /// all-forks syncing takes over the next time that something is processed.
    GrandpaWarpSync { finished: bool },
    /// Optimistic syncing.
    Optimistic,
    /// All-forks syncing.
    AllForks,
}

/// Whether `mapping` is an identifier of the strategy `strategy`.
pub open spec fn fits(strategy: Strategy, mapping: Mapping) -> bool {
    match strategy {
        Strategy::GrandpaWarpSync { finished } => mapping is GrandpaWarpSync,
        Strategy::Optimistic => mapping is Optimistic,
        Strategy::AllForks => mapping is AllForks,
    }
}

/// The identifier `inner` of the strategy `strategy`.
pub open spec fn mapped(strategy: Strategy, inner: u64) -> Mapping {
    match strategy {
        Strategy::GrandpaWarpSync { finished } => Mapping::GrandpaWarpSync(inner),
        Strategy::Optimistic => Mapping::Optimistic(inner),
        Strategy::AllForks => Mapping::AllForks(inner),
    }
}

/// What the [`AllSync`] knows of a source.
pub struct SourceInfo<TSrc> {
    /// Opaque value passed to [`AllSync::add_source`].
    pub user_data: TSrc,
    /// Height of the best block that the source has reported.
    pub best_block_number: u64,
    /// Hash of the best block that the source has reported.
    pub best_block_hash: [u8; 32],
    /// Height of the latest block that the source has reported as finalized, if any.
    pub finalized_block_height: Option<u64>,
}

/// What the [`AllSync`] knows of a request.
pub struct RequestInfo<TRq> {
    /// Source that the request was made to.
    pub source_id: SourceId,
    /// What was requested.
    pub detail: RequestDetail,
    /// Opaque value passed to [`AllSync::add_request`].
    pub user_data: TRq,
}

/// `slab::Slab`, of which nothing is known but what the functions below say.
#[verifier::external_type_specification]
#[verifier::external_body]
#[verifier::reject_recursive_types(T)]
pub struct ExSlab<T>(slab::Slab<T>);

/// The keys of a slab that are in use, each with its value.
pub uninterp spec fn slab_entries(slab: slab::Slab<Mapping>) -> Map<usize, Mapping>;

/// `slab::Slab::with_capacity`: a slab without values.
#[verifier::external_body]
fn slab_with_capacity(capacity: usize) -> (slab: slab::Slab<Mapping>)
    ensures
        forall|key: usize| !slab_entries(slab).contains_key(key),
{
    slab::Slab::with_capacity(capacity)
}

/// `slab::Slab::insert`: the value gets a key that was not in use.
#[verifier::external_body]
fn slab_insert(slab: &mut slab::Slab<Mapping>, value: Mapping) -> (key: usize)
    ensures
        !slab_entries(*old(slab)).contains_key(key),
        slab_entries(*final(slab)) == slab_entries(*old(slab)).insert(key, value),
{
    slab.insert(value)
}

/// `slab::Slab::remove`, for a key in use: the key is not in use afterwards, and its value is
/// returned.
#[verifier::external_body]
fn slab_remove(slab: &mut slab::Slab<Mapping>, key: usize) -> (value: Mapping)
    requires
        slab_entries(*old(slab)).contains_key(key),
    ensures
        value == slab_entries(*old(slab))[key],
        slab_entries(*final(slab)) == slab_entries(*old(slab)).remove(key),
{
    slab.remove(key)
}

/// `slab::Slab::get`: the value of a key, if the key is in use.
#[verifier::external_body]
fn slab_get(slab: &slab::Slab<Mapping>, key: usize) -> (value: Option<Mapping>)
    ensures
        value == (if slab_entries(*slab).contains_key(key) {
            Some(slab_entries(*slab)[key])
        } else {
            None
        }),
{
    slab.get(key).copied()
}

/// `slab::Slab::index_mut`, for a key in use: replaces the value of the key.
#[verifier::external_body]
fn slab_set(slab: &mut slab::Slab<Mapping>, key: usize, value: Mapping)
    requires
        slab_entries(*old(slab)).contains_key(key),
    ensures
        slab_entries(*final(slab)) == slab_entries(*old(slab)).insert(key, value),
{
    slab[key] = value;
}

/// What the slot `key` of `slots` holds: nothing if there is no such slot.
pub open spec fn slot<T>(slots: Seq<Option<T>>, key: int) -> Option<T> {
    if 0 <= key < slots.len() {
        slots[key]
    } else {
        None
    }
}

/// Puts `value` in the slot `key`, which must be empty.
fn slot_put<T>(slots: &mut Vec<Option<T>>, key: usize, value: T)
    requires
        slot(old(slots)@, key as int) is None,
    ensures
        forall|k: int|
            #[trigger] slot(final(slots)@, k) == (if k == key {
                Some(value)
            } else {
                slot(old(slots)@, k)
            }),
{
    while slots.len() < key
        invariant
            forall|k: int| #[trigger] slot(slots@, k) == slot(old(slots)@, k),
        decreases key - slots.len(),
    {
        let ghost before = slots@;
        slots.push(None);
        proof {
            assert forall|k: int| #[trigger] slot(slots@, k) == slot(old(slots)@, k) by {
                assert(slot(before, k) == slot(old(slots)@, k));
            }
        }
    }
    let ghost before = slots@;
    if slots.len() == key {
        slots.push(Some(value));
    } else {
        slots.set(key, Some(value));
    }
    proof {
        assert forall|k: int|
            #[trigger] slot(slots@, k) == (if k == key {
                Some(value)
            } else {
                slot(old(slots)@, k)
            }) by {
            assert(slot(before, k) == slot(old(slots)@, k));
        }
    }
}

/// Empties the slot `key`, which must hold something, and returns what it held.
fn slot_take<T>(slots: &mut Vec<Option<T>>, key: usize) -> (value: T)
    requires
        slot(old(slots)@, key as int) is Some,
    ensures
        Some(value) == slot(old(slots)@, key as int),
        final(slots)@.len() == old(slots)@.len(),
        forall|k: int|
            #[trigger] slot(final(slots)@, k) == (if k == key {
                None
            } else {
                slot(old(slots)@, k)
            }),
{
    slots.push(None);
    match slots.swap_remove(key) {
        Some(value) => value,
        None => vstd::pervasive::unreached(),
    }
}

/// The syncing of a chain by one strategy after another.
pub struct AllSync<TRq, TSrc> {
    /// The strategy that is syncing the chain.
    strategy: Strategy,
    /// For each source, the identifier that the strategy gave it.
    sources: slab::Slab<Mapping>,
    /// What is known of the source of each key of `sources`.
    source_info: Vec<Option<SourceInfo<TSrc>>>,
    /// For each request, the identifier that the strategy gave it, if a strategy took it.
    requests: slab::Slab<Mapping>,
    /// What is known of the request of each key of `requests`.
    request_info: Vec<Option<RequestInfo<TRq>>>,
    /// See [`Config::full_mode`].
    full_mode: bool,
    /// Value passed through [`Config::sources_capacity`].
    sources_capacity: usize,
    /// Value passed through [`Config::blocks_capacity`].
    blocks_capacity: usize,
    /// Value passed through [`Config::max_disjoint_headers`].
    max_disjoint_headers: usize,
    /// Value passed through [`Config::max_requests_per_block`].
    max_requests_per_block: u32,
    /// Value passed through [`Config::download_ahead_blocks`].
    download_ahead_blocks: u32,
    /// Value passed through [`Config::block_number_bytes`].
    block_number_bytes: usize,
    /// Value passed through [`Config::allow_unknown_consensus_engines`].
    allow_unknown_consensus_engines: bool,
}

/// Why warp syncing cannot start.
#[derive(Debug, Copy, Clone, PartialEq, Eq)]
pub enum WarpSyncInitError {
    /// Chain doesn't use the Grandpa finality algorithm.
    NotGrandpa,
    /// Chain uses an unrecognized consensus mechanism.
    UnknownConsensus,
}

impl<TRq, TSrc> AllSync<TRq, TSrc> {
    /// The strategy that is syncing the chain.
    pub closed spec fn active(&self) -> Strategy {
        self.strategy
    }

    /// The identifiers of the sources, each with the identifier that the strategy gave the
    /// source.
    pub closed spec fn source_map(&self) -> Map<usize, Mapping> {
        slab_entries(self.sources)
    }

    /// What is known of the source `id`, if there is such a source.
    pub closed spec fn source_info_of(&self, id: int) -> Option<SourceInfo<TSrc>> {
        slot(self.source_info@, id)
    }

    /// The identifiers of the requests, each with the identifier that the strategy gave the
    /// request, if a strategy took it.
    pub closed spec fn request_map(&self) -> Map<usize, Mapping> {
        slab_entries(self.requests)
    }

    /// What is known of the request `id`, if there is such a request.
    pub closed spec fn request_info_of(&self, id: int) -> Option<RequestInfo<TRq>> {
        slot(self.request_info@, id)
    }

    /// The settings that the state machine was made with.
    pub closed spec fn settings(&self) -> Config {
        Config {
            block_number_bytes: self.block_number_bytes,
            allow_unknown_consensus_engines: self.allow_unknown_consensus_engines,
            sources_capacity: self.sources_capacity,
            blocks_capacity: self.blocks_capacity,
            max_disjoint_headers: self.max_disjoint_headers,
            max_requests_per_block: self.max_requests_per_block,
            download_ahead_blocks: self.download_ahead_blocks,
            full_mode: self.full_mode,
        }
    }

    /// What always holds of the state machine.
    ///
    /// Every source is a source of the active strategy, and no two sources are the same source
    /// of that strategy. Every request is a request of the active strategy, or of none. Of
    /// every source and of every request, and of nothing else, it is known what was said of
    /// it.
    pub open spec fn wf(&self) -> bool {
        &&& forall|k: usize| #[trigger]
            self.source_map().contains_key(k) <==> self.source_info_of(k as int) is Some
        &&& forall|k: usize| #[trigger]
            self.source_map().contains_key(k) ==> fits(self.active(), self.source_map()[k])
        &&& forall|k: usize, l: usize|
            #![trigger self.source_map()[k], self.source_map()[l]]
            self.source_map().contains_key(k) && self.source_map().contains_key(l) && k != l
                ==> self.source_map()[k] != self.source_map()[l]
        &&& forall|k: usize| #[trigger]
            self.request_map().contains_key(k) <==> self.request_info_of(k as int) is Some
        &&& forall|k: usize| #[trigger]
            self.request_map().contains_key(k) ==> self.request_map()[k] is Inline || fits(
                self.active(),
                self.request_map()[k],
            )
    }

    /// Whether the requests and the settings of `self` are those of `before`.
    pub open spec fn same_requests(&self, before: &Self) -> bool {
        &&& self.request_map() == before.request_map()
        &&& forall|k: int| self.request_info_of(k) == before.request_info_of(k)
        &&& self.settings() == before.settings()
    }

    /// Whether the sources and the settings of `self` are those of `before`.
    pub open spec fn same_sources(&self, before: &Self) -> bool {
        &&& self.source_map() == before.source_map()
        &&& forall|k: int| self.source_info_of(k) == before.source_info_of(k)
        &&& self.settings() == before.settings()
    }

    /// Initializes a new state machine.
    ///
    /// On a full node the optimistic syncing starts. Else `warp_sync` says whether the warp
    /// syncing could start: if it could not, the optimistic syncing starts instead.
    pub fn new(config: Config, warp_sync: Result<(), WarpSyncInitError>) -> (sync: Self)
        ensures
            sync.wf(),
            sync.active() == (if config.full_mode || warp_sync is Err {
                Strategy::Optimistic
            } else {
                Strategy::GrandpaWarpSync { finished: false }
            }),
            forall|k: usize| !sync.source_map().contains_key(k),
            forall|k: usize| !sync.request_map().contains_key(k),
            sync.settings() == config,
    {
        let strategy = if config.full_mode {
            Strategy::Optimistic
        } else {
            match warp_sync {
                Ok(()) => Strategy::GrandpaWarpSync { finished: false },
                Err(_) => Strategy::Optimistic,
            }
        };
        AllSync {
            strategy,
            sources: slab_with_capacity(config.sources_capacity),
            source_info: Vec::new(),
            requests: slab_with_capacity(config.sources_capacity),
            request_info: Vec::new(),
            full_mode: config.full_mode,
            sources_capacity: config.sources_capacity,
            blocks_capacity: config.blocks_capacity,
            max_disjoint_headers: config.max_disjoint_headers,
            max_requests_per_block: config.max_requests_per_block,
            download_ahead_blocks: config.download_ahead_blocks,
            block_number_bytes: config.block_number_bytes,
            allow_unknown_consensus_engines: config.allow_unknown_consensus_engines,
        }
    }

    /// Returns the value that was initially passed in [`Config::block_number_bytes`].
    pub fn block_number_bytes(&self) -> (n: usize)
        ensures
            n == self.settings().block_number_bytes,
    {
        self.block_number_bytes
    }

    /// Returns the strategy that is syncing the chain.
    pub fn strategy(&self) -> (strategy: Strategy)
        ensures
            strategy == self.active(),
    {
        self.strategy
    }

    /// Returns the settings that the state machine was made with.
    pub fn config(&self) -> (config: Config)
        ensures
            config == self.settings(),
    {
        Config {
            block_number_bytes: self.block_number_bytes,
            allow_unknown_consensus_engines: self.allow_unknown_consensus_engines,
            sources_capacity: self.sources_capacity,
            blocks_capacity: self.blocks_capacity,
            max_disjoint_headers: self.max_disjoint_headers,
            max_requests_per_block: self.max_requests_per_block,
            download_ahead_blocks: self.download_ahead_blocks,
            full_mode: self.full_mode,
        }
    }

    /// Returns true if it is believed that we are near the head of the chain.
    ///
    /// The way this method is implemented is opaque and cannot be relied on. The return value
    /// should only ever be shown to the user and not used for any meaningful logic.
    pub fn is_near_head_of_chain_heuristic(&self) -> (near: bool)
        ensures
            near == (self.active() == Strategy::AllForks),
    {
        match self.strategy {
            Strategy::AllForks => true,
            Strategy::Optimistic => false,
            Strategy::GrandpaWarpSync { .. } => false,
        }
    }
}

impl<TRq, TSrc> AllSync<TRq, TSrc> {
    /// Whether the strategy numbers the sources itself. Once the warp syncing is finished, the
    /// [`AllSync`] numbers the sources that are added until the all-forks syncing takes over.
    pub open spec fn strategy_numbers_sources(&self) -> bool {
        self.active() != (Strategy::GrandpaWarpSync { finished: true })
    }

    /// Whether `inner` is the number of one of the sources, for the active strategy.
    pub open spec fn inner_in_use(&self, inner: u64) -> bool {
        exists|k: usize| #[trigger]
            self.source_map().contains_key(k) && self.source_map()[k] == mapped(
                self.active(),
                inner,
            )
    }

    /// Whether the number `inner` is the next that the [`AllSync`] gives to a source: one more
    /// than the greatest in use, or zero.
    pub open spec fn is_next_inner(&self, inner: u64) -> bool {
        &&& !self.inner_in_use(inner)
        &&& inner == 0 || self.inner_in_use((inner - 1) as u64)
        &&& forall|other: u64| self.inner_in_use(other) ==> other < inner
    }

    /// Returns the greatest of the numbers that the active strategy knows the sources by, if
    /// there is any source.
    fn greatest_inner(&self) -> (greatest: Option<u64>)
        requires
            self.wf(),
        ensures
            match greatest {
                Some(g) => self.inner_in_use(g) && forall|other: u64|
                    self.inner_in_use(other) ==> other <= g,
                None => forall|other: u64| !self.inner_in_use(other),
            },
    {
        let mut greatest: Option<u64> = None;
        let mut k: usize = 0;
        while k < self.source_info.len()
            invariant
                self.wf(),
                k <= self.source_info@.len(),
                greatest matches Some(g) ==> self.inner_in_use(g),
                forall|l: usize|
                    l < k && #[trigger] self.source_map().contains_key(l) ==> (match greatest {
                        Some(g) => self.source_map()[l] == mapped(self.active(), g) || exists|
                            below: u64,
                        |
                            below < g && self.source_map()[l] == mapped(self.active(), below),
                        None => false,
                    }),
            decreases self.source_info.len() - k,
        {
            match slab_get(&self.sources, k) {
                Some(mapping) => {
                    let inner: u64 = match mapping {
                        Mapping::GrandpaWarpSync(inner) => inner,
                        Mapping::AllForks(inner) => inner,
                        Mapping::Optimistic(inner) => inner,
                        Mapping::Inline => {
                            proof {
                                assert(fits(self.active(), self.source_map()[k]));
                            }
                            vstd::pervasive::unreached()
                        },
                    };
                    proof {
                        assert(fits(self.active(), self.source_map()[k]));
                        assert(mapping == mapped(self.active(), inner));
                    }
                    let ghost before = greatest;
                    let raise: bool = match greatest {
                        Some(g) => g < inner,
                        None => true,
                    };
                    if raise {
                        greatest = Some(inner);
                    }
                    proof {
                        assert forall|l: usize|
                            l < k + 1 && #[trigger] self.source_map().contains_key(
                                l,
                            ) implies (match greatest {
                            Some(g) => self.source_map()[l] == mapped(self.active(), g) || exists|
                                below: u64,
                            |
                                below < g && self.source_map()[l] == mapped(self.active(), below),
                            None => false,
                        }) by {
                            if l < k {
                                match before {
                                    Some(b) => {
                                        if self.source_map()[l] != mapped(self.active(), b) {
                                            let below = choose|below: u64|
                                                below < b && self.source_map()[l] == mapped(
                                                    self.active(),
                                                    below,
                                                );
                                            assert(self.source_map()[l] == mapped(
                                                self.active(),
                                                below,
                                            ));
                                        }
                                    },
                                    None => {},
                                }
                            }
                        }
                    }
                },
                None => {},
            }
            k = k + 1;
        }
        proof {
            assert forall|other: u64| self.inner_in_use(other) implies (match greatest {
                Some(g) => other <= g,
                None => false,
            }) by {
                let l = choose|l: usize| #[trigger]
                    self.source_map().contains_key(l) && self.source_map()[l] == mapped(
                        self.active(),
                        other,
                    );
                assert(self.source_info_of(l as int) is Some);
                assert(l < self.source_info@.len());
            }
        }
        greatest
    }

    /// Returns the number that a source added now must be known by to the strategy: `Some` if
    /// the [`AllSync`] numbers the sources itself, with the next number if there is one, and
    /// `None` if the strategy does.
    pub fn next_inner_source_id(&self) -> (next: Option<Option<u64>>)
        requires
            self.wf(),
        ensures
            self.strategy_numbers_sources() <==> next is None,
            next matches Some(Some(inner)) ==> self.is_next_inner(inner),
            next matches Some(None) ==> self.inner_in_use(u64::MAX),
    {
        match self.strategy {
            Strategy::GrandpaWarpSync { finished } => {
                if finished {
                    match self.greatest_inner() {
                        Some(g) => {
                            if g == u64::MAX {
                                Some(None)
                            } else {
                                Some(Some(g + 1))
                            }
                        },
                        None => Some(Some(0)),
                    }
                } else {
                    None
                }
            },
            _ => None,
        }
    }

    /// Returns the source that the active strategy knows by the number `inner`.
    pub fn source_of_inner(&self, inner: u64) -> (source: Option<SourceId>)
        requires
            self.wf(),
        ensures
            match source {
                Some(id) => self.source_map().contains_key(id.0) && self.source_map()[id.0]
                    == mapped(self.active(), inner),
                None => !self.inner_in_use(inner),
            },
    {
        let wanted: Mapping = match self.strategy {
            Strategy::GrandpaWarpSync { .. } => Mapping::GrandpaWarpSync(inner),
            Strategy::Optimistic => Mapping::Optimistic(inner),
            Strategy::AllForks => Mapping::AllForks(inner),
        };
        let mut k: usize = 0;
        while k < self.source_info.len()
            invariant
                self.wf(),
                k <= self.source_info@.len(),
                wanted == mapped(self.active(), inner),
                forall|l: usize|
                    l < k && #[trigger] self.source_map().contains_key(l) ==> self.source_map()[l]
                        != wanted,
            decreases self.source_info.len() - k,
        {
            match slab_get(&self.sources, k) {
                Some(mapping) => {
                    if mapping == wanted {
                        return Some(SourceId(k));
                    }
                },
                None => {},
            }
            k = k + 1;
        }
        proof {
            if self.inner_in_use(inner) {
                let l = choose|l: usize| #[trigger]
                    self.source_map().contains_key(l) && self.source_map()[l] == mapped(
                        self.active(),
                        inner,
                    );
                assert(self.source_info_of(l as int) is Some);
            }
        }
        None
    }

    /// Adds a new source to the sync state machine.
    ///
    /// Must be passed the best block number and hash of the source, as usually reported by the
    /// source itself, and the number `inner` that the active strategy knows the source by,
    /// which no other source may have. Where the [`AllSync`] numbers the sources itself (see
    /// [`AllSync::next_inner_source_id`]), `inner` must be the next number.
    ///
    /// Returns an identifier for this new source, which no other source has.
    pub fn add_source(
        &mut self,
        user_data: TSrc,
        best_block_number: u64,
        best_block_hash: [u8; 32],
        inner: u64,
    ) -> (id: SourceId)
        requires
            old(self).wf(),
            !old(self).inner_in_use(inner),
            !old(self).strategy_numbers_sources() ==> old(self).is_next_inner(inner),
        ensures
            final(self).wf(),
            !old(self).source_map().contains_key(id.0),
            final(self).source_map() == old(self).source_map().insert(
                id.0,
                mapped(old(self).active(), inner),
            ),
            forall|k: int|
                #[trigger] final(self).source_info_of(k) == (if k == id.0 {
                    Some(
                        SourceInfo {
                            user_data,
                            best_block_number,
                            best_block_hash,
                            finalized_block_height: None,
                        },
                    )
                } else {
                    old(self).source_info_of(k)
                }),
            final(self).active() == old(self).active(),
            final(self).same_requests(old(self)),
    {
        let mapping: Mapping = match self.strategy {
            Strategy::GrandpaWarpSync { .. } => Mapping::GrandpaWarpSync(inner),
            Strategy::Optimistic => Mapping::Optimistic(inner),
            Strategy::AllForks => Mapping::AllForks(inner),
        };
        let key: usize = slab_insert(&mut self.sources, mapping);
        proof {
            assert(old(self).source_info_of(key as int) is None);
        }
        slot_put(
            &mut self.source_info,
            key,
            SourceInfo { user_data, best_block_number, best_block_hash, finalized_block_height: None },
        );
        proof {
            assert forall|k: usize| #[trigger]
                self.source_map().contains_key(k) <==> self.source_info_of(k as int) is Some by {
                assert(self.source_info_of(k as int) == slot(self.source_info@, k as int));
                if k != key {
                    assert(old(self).source_map().contains_key(k) <==> old(self).source_info_of(
                        k as int,
                    ) is Some);
                }
            }
            assert forall|k: usize, l: usize|
                #![trigger self.source_map()[k], self.source_map()[l]]
                self.source_map().contains_key(k) && self.source_map().contains_key(l) && k
                    != l implies self.source_map()[k] != self.source_map()[l] by {
                if k == key {
                    assert(old(self).source_map().contains_key(l));
                } else if l == key {
                    assert(old(self).source_map().contains_key(k));
                }
            }
        }
        SourceId(key)
    }

    /// Returns the list of sources in this state machine, in the order of their identifiers.
    pub fn sources(&self) -> (ids: Vec<SourceId>)
        requires
            self.wf(),
        ensures
            forall|i: int| 0 <= i < ids@.len() ==> self.source_map().contains_key(ids@[i].0),
            forall|i: int, j: int| 0 <= i < j < ids@.len() ==> ids@[i].0 < ids@[j].0,
            forall|k: usize|
                self.source_map().contains_key(k) ==> exists|i: int|
                    0 <= i < ids@.len() && (#[trigger] ids@[i]).0 == k,
    {
        let mut ids: Vec<SourceId> = Vec::new();
        let mut k: usize = 0;
        while k < self.source_info.len()
            invariant
                self.wf(),
                k <= self.source_info@.len(),
                forall|i: int|
                    0 <= i < ids@.len() ==> self.source_map().contains_key(ids@[i].0) && ids@[i].0
                        < k,
                forall|i: int, j: int| 0 <= i < j < ids@.len() ==> ids@[i].0 < ids@[j].0,
                forall|l: usize|
                    l < k && self.source_map().contains_key(l) ==> exists|i: int|
                        0 <= i < ids@.len() && (#[trigger] ids@[i]).0 == l,
            decreases self.source_info.len() - k,
        {
            if slab_get(&self.sources, k).is_some() {
                let ghost before = ids@;
                ids.push(SourceId(k));
                proof {
                    assert forall|l: usize|
                        l < k + 1 && self.source_map().contains_key(l) implies exists|i: int|
                        0 <= i < ids@.len() && (#[trigger] ids@[i]).0 == l by {
                        if l < k {
                            let i = choose|i: int|
                                0 <= i < before.len() && (#[trigger] before[i]).0 == l;
                            assert(ids@[i].0 == l);
                        } else {
                            assert(ids@[before.len() as int].0 == l);
                        }
                    }
                }
            }
            k = k + 1;
        }
        proof {
            assert forall|l: usize| self.source_map().contains_key(l) implies exists|i: int|
                0 <= i < ids@.len() && (#[trigger] ids@[i]).0 == l by {
                assert(self.source_info_of(l as int) is Some);
            }
        }
        ids
    }

    /// Returns the user data of the source `source_id`, which must be the identifier of a
    /// source.
    pub fn source_user_data(&self, source_id: SourceId) -> (user_data: &TSrc)
        requires
            self.wf(),
            self.source_map().contains_key(source_id.0),
        ensures
            self.source_info_of(source_id.0 as int) matches Some(info) && info.user_data
                == *user_data,
    {
        proof {
            assert(self.source_info_of(source_id.0 as int) is Some);
        }
        match &self.source_info[source_id.0] {
            Some(info) => &info.user_data,
            None => vstd::pervasive::unreached(),
        }
    }

    /// Returns the number that the active strategy knows the source `source_id` by, which
    /// must be the identifier of a source.
    pub fn inner_source_id(&self, source_id: SourceId) -> (inner: u64)
        requires
            self.wf(),
            self.source_map().contains_key(source_id.0),
        ensures
            self.source_map()[source_id.0] == mapped(self.active(), inner),
    {
        match slab_get(&self.sources, source_id.0) {
            Some(Mapping::GrandpaWarpSync(inner)) => inner,
            Some(Mapping::AllForks(inner)) => inner,
            Some(Mapping::Optimistic(inner)) => inner,
            _ => vstd::pervasive::unreached(),
        }
    }

    /// Whether `source_id` is the identifier of a source.
    pub fn contains_source(&self, source_id: SourceId) -> (found: bool)
        ensures
            found == self.source_map().contains_key(source_id.0),
    {
        slab_get(&self.sources, source_id.0).is_some()
    }
}

/// What becomes of a request that is added: which strategy takes it, if any.
#[derive(Debug, Copy, Clone, PartialEq, Eq)]
pub enum Routing {
    /// No strategy takes the request. Its answer is of no use.
    Inline,
    /// The all-forks syncing takes the request, made to the source that it knows as
    /// `inner_source`.
    AllForks { inner_source: u64, params: AllForksRequestParams },
    /// The optimistic syncing takes the request.
    Optimistic { detail: optimistic::RequestDetail },
    /// The warp syncing takes the request, made to the source that it knows as `inner_source`.
    WarpSync { inner_source: u64 },
    /// The warp syncing is finished: the request is kept until the all-forks syncing takes
    /// over, and its answer is of no use.
    WarpSyncFinished,
}

/// Whether the strategy `strategy` has a use for the request `detail`.
///
/// The all-forks syncing takes the requests for blocks in decreasing number of which the first
/// is known by its hash, the optimistic syncing those for blocks in increasing number, and the
/// warp syncing those for warp sync fragments, storage proofs and call proofs.
pub open spec fn absorbs(strategy: Strategy, detail: RequestDetail) -> bool {
    match strategy {
        Strategy::AllForks => detail matches RequestDetail::BlocksRequest {
            ascending,
            first_block_hash,
            ..
        } && !ascending && first_block_hash is Some,
        Strategy::Optimistic => detail matches RequestDetail::BlocksRequest { ascending, .. }
            && ascending,
        Strategy::GrandpaWarpSync { finished } => !(detail is BlocksRequest),
    }
}

/// Whether a request `detail` that the optimistic syncing takes is one that it can hold: the
/// first block is not the block zero, and the number of blocks is one that 32 bits hold.
pub open spec fn fits_optimistic(detail: RequestDetail) -> bool {
    detail matches RequestDetail::BlocksRequest { first_block_height, num_blocks, .. }
        && first_block_height >= 1 && 1 <= num_blocks <= u32::MAX
}

/// What a strategy is to be told when the response to a request for blocks came.
#[derive(Debug, Copy, Clone, PartialEq, Eq)]
pub enum BlocksForward {
    /// The ancestry search that the all-forks syncing knows as the request given here is
    /// finished. Its blocks are to be added one by one: see [`ancestry_search_step`].
    AllForksAncestrySearch(u64),
    /// The ancestry search that the all-forks syncing knows as the request given here has
    /// failed.
    AllForksAncestrySearchFailed(u64),
    /// The request that the optimistic syncing knows by the number given here has succeeded:
    /// see [`optimistic_response_outcome`].
    OptimisticSuccess(u64),
    /// The request that the optimistic syncing knows by the number given here has failed.
    OptimisticFailed(u64),
}

/// What [`AllSync::blocks_request_response`] returns.
pub struct BlocksResponse<TRq> {
    /// User data of the request.
    pub user_data: TRq,
    /// What the strategy of the request is to be told, if a strategy took the request.
    pub forward: Option<BlocksForward>,
    /// What became of the response. `None` if that depends on what the strategy makes of the
    /// blocks.
    pub outcome: Option<ResponseOutcome>,
}

/// What the all-forks syncing says of a block of an ancestry search that it is given.
#[derive(Debug, PartialEq, Eq)]
pub enum AncestrySearchBlock {
    /// The block is not known yet.
    UnknownBlock,
    /// The block is known and waits to be verified.
    AlreadyPending,
    /// The block is in the chain already.
    AlreadyInChain,
    /// The block does not descend from the finalized block. The headers given here were
    /// waiting to be verified and are discarded.
    NotFinalizedChain { discarded_unverified_block_headers: Vec<Vec<u8>> },
    /// The block is bad in another way.
    Invalid,
}

/// What to do with a block of an ancestry search.
#[derive(Debug, PartialEq, Eq)]
pub enum AncestrySearchStep {
    /// The block is to be inserted with its user data, and the next block added.
    Insert,
    /// The user data of the block is to be replaced, and the next block added.
    Replace,
    /// The search is to be cancelled, with the outcome given here.
    Cancel(ResponseOutcome),
    /// The search is over, with the outcome given here.
    Finished(ResponseOutcome),
}

/// What to do with the block number `block_index` of the response to an ancestry search, of
/// which the all-forks syncing says `block`, or once there is no such block.
///
/// Blocks are added until one is in the chain already or is bad. If the first block is in the
/// chain already, all of them are. A response of which every block was added has the outcome
/// [`ResponseOutcome::Queued`].
pub fn ancestry_search_step(block_index: usize, block: Option<AncestrySearchBlock>) -> (step:
    AncestrySearchStep)
    ensures
        step == (match block {
            Some(AncestrySearchBlock::UnknownBlock) => AncestrySearchStep::Insert,
            Some(AncestrySearchBlock::AlreadyPending) => AncestrySearchStep::Replace,
            Some(AncestrySearchBlock::AlreadyInChain) => AncestrySearchStep::Cancel(
                if block_index == 0 {
                    ResponseOutcome::AllAlreadyInChain
                } else {
                    ResponseOutcome::Queued
                },
            ),
            Some(
                AncestrySearchBlock::NotFinalizedChain { discarded_unverified_block_headers },
            ) => AncestrySearchStep::Finished(
                ResponseOutcome::NotFinalizedChain { discarded_unverified_block_headers },
            ),
            Some(AncestrySearchBlock::Invalid) => AncestrySearchStep::Finished(
                ResponseOutcome::Queued,
            ),
            None => AncestrySearchStep::Finished(ResponseOutcome::Queued),
        }),
{
    match block {
        Some(AncestrySearchBlock::UnknownBlock) => AncestrySearchStep::Insert,
        Some(AncestrySearchBlock::AlreadyPending) => AncestrySearchStep::Replace,
        Some(AncestrySearchBlock::AlreadyInChain) => {
            if block_index == 0 {
                AncestrySearchStep::Cancel(ResponseOutcome::AllAlreadyInChain)
            } else {
                AncestrySearchStep::Cancel(ResponseOutcome::Queued)
            }
        },
        Some(
            AncestrySearchBlock::NotFinalizedChain { discarded_unverified_block_headers },
        ) => AncestrySearchStep::Finished(
            ResponseOutcome::NotFinalizedChain { discarded_unverified_block_headers },
        ),
        Some(AncestrySearchBlock::Invalid) => AncestrySearchStep::Finished(ResponseOutcome::Queued),
        None => AncestrySearchStep::Finished(ResponseOutcome::Queued),
    }
}

/// What became of the response to a request of which the optimistic syncing says `outcome`.
pub fn optimistic_response_outcome(outcome: optimistic::FinishRequestOutcome) -> (response:
    ResponseOutcome)
    ensures
        response == (match outcome {
            optimistic::FinishRequestOutcome::Obsolete => ResponseOutcome::Outdated,
            optimistic::FinishRequestOutcome::Queued => ResponseOutcome::Queued,
        }),
{
    match outcome {
        optimistic::FinishRequestOutcome::Obsolete => ResponseOutcome::Outdated,
        optimistic::FinishRequestOutcome::Queued => ResponseOutcome::Queued,
    }
}

/// What [`AllSync::storage_get_response`] and the like return.
pub struct WarpResponse<TRq> {
    /// User data of the request.
    pub user_data: TRq,
    /// The number by which the warp syncing knows the request, if the warp syncing is to be
    /// told of the response.
    pub forward: Option<u64>,
    /// What became of the response.
    pub outcome: ResponseOutcome,
}

impl<TRq, TSrc> AllSync<TRq, TSrc> {
    /// Whether a strategy is to be told of a request `detail` that is added now.
    pub open spec fn strategy_takes(&self, detail: RequestDetail) -> bool {
        absorbs(self.active(), detail) && self.strategy_numbers_sources()
    }

    /// Whether `self` is `before` with one more request, `id`.
    pub open spec fn with_request(
        &self,
        before: &Self,
        id: usize,
        mapping: Mapping,
        info: RequestInfo<TRq>,
    ) -> bool {
        &&& !before.request_map().contains_key(id)
        &&& self.request_map() == before.request_map().insert(id, mapping)
        &&& forall|k: int|
            #[trigger] self.request_info_of(k) == (if k == id {
                Some(info)
            } else {
                before.request_info_of(k)
            })
        &&& self.active() == before.active()
        &&& self.same_sources(before)
    }

    /// Whether `self` is `before` without the request `id`.
    pub open spec fn without_request(&self, before: &Self, id: usize) -> bool {
        &&& self.request_map() == before.request_map().remove(id)
        &&& forall|k: int|
            #[trigger] self.request_info_of(k) == (if k == id {
                None
            } else {
                before.request_info_of(k)
            })
        &&& self.active() == before.active()
        &&& self.same_sources(before)
    }

    /// Says what becomes of a request `detail` made to the source `source_id`, if it is added
    /// now.
    ///
    /// If a strategy takes the request, the source must be one of the sources, and a request
    /// that the optimistic syncing takes one that it can hold.
    pub fn route_request(&self, source_id: SourceId, detail: &RequestDetail) -> (routing: Routing)
        requires
            self.wf(),
            absorbs(self.active(), *detail) ==> self.source_map().contains_key(source_id.0),
            absorbs(self.active(), *detail) && self.active() == Strategy::Optimistic
                ==> fits_optimistic(*detail),
        ensures
            routing is Inline <==> !absorbs(self.active(), *detail),
            routing is WarpSyncFinished <==> absorbs(self.active(), *detail)
                && !self.strategy_numbers_sources(),
            match routing {
                Routing::AllForks { inner_source, params } => {
                    &&& self.active() == Strategy::AllForks
                    &&& self.source_map()[source_id.0] == Mapping::AllForks(inner_source)
                    &&& *detail matches RequestDetail::BlocksRequest {
                        first_block_height,
                        first_block_hash,
                        num_blocks,
                        ..
                    }
                    &&& first_block_hash == Some(params.first_block_hash)
                    &&& first_block_height == params.first_block_height
                    &&& num_blocks == params.num_blocks
                },
                Routing::Optimistic { detail: taken } => {
                    &&& self.active() == Strategy::Optimistic
                    &&& self.source_map()[source_id.0] == Mapping::Optimistic(taken.source_id.0)
                    &&& *detail matches RequestDetail::BlocksRequest {
                        first_block_height,
                        num_blocks,
                        ..
                    }
                    &&& first_block_height == taken.block_height
                    &&& num_blocks == taken.num_blocks
                },
                Routing::WarpSync { inner_source } => {
                    &&& self.active() == (Strategy::GrandpaWarpSync { finished: false })
                    &&& self.source_map()[source_id.0] == Mapping::GrandpaWarpSync(inner_source)
                },
                _ => true,
            },
    {
        match self.strategy {
            Strategy::AllForks => {
                match detail {
                    RequestDetail::BlocksRequest {
                        ascending,
                        first_block_hash,
                        first_block_height,
                        num_blocks,
                        ..
                    } => {
                        match first_block_hash {
                            Some(hash) => {
                                if !*ascending {
                                    return Routing::AllForks {
                                        inner_source: self.inner_source_id(source_id),
                                        params: AllForksRequestParams {
                                            first_block_hash: *hash,
                                            first_block_height: *first_block_height,
                                            num_blocks: *num_blocks,
                                        },
                                    };
                                }
                            },
                            None => {},
                        }
                    },
                    _ => {},
                }
                Routing::Inline
            },
            Strategy::Optimistic => {
                match detail {
                    RequestDetail::BlocksRequest {
                        ascending,
                        first_block_height,
                        num_blocks,
                        ..
                    } => {
                        if *ascending {
                            return Routing::Optimistic {
                                detail: optimistic::RequestDetail {
                                    source_id: optimistic::SourceId(
                                        self.inner_source_id(source_id),
                                    ),
                                    block_height: *first_block_height,
                                    num_blocks: *num_blocks as u32,
                                },
                            };
                        }
                    },
                    _ => {},
                }
                Routing::Inline
            },
            Strategy::GrandpaWarpSync { finished } => {
                match detail {
                    RequestDetail::BlocksRequest { .. } => Routing::Inline,
                    _ => {
                        if finished {
                            Routing::WarpSyncFinished
                        } else {
                            Routing::WarpSync { inner_source: self.inner_source_id(source_id) }
                        }
                    },
                }
            },
        }
    }

    /// Inserts a new request in the data structure.
    ///
    /// `inner` is the number that the strategy knows the request by, if a strategy was told of
    /// it, as it must be if and only if [`AllSync::route_request`] names one. A request that
    /// no strategy takes is kept nevertheless, and so is one added after the warp syncing is
    /// finished, until the all-forks syncing takes over.
    ///
    /// The source must be one of the sources, and a request that the optimistic syncing takes
    /// one that it can hold: what the strategy is told of is what [`AllSync::route_request`]
    /// names for the same request.
    ///
    /// Returns an identifier for the request, which no other request has.
    ///
    /// > **Note**: The request doesn't necessarily have to match a request returned by
    /// >           [`AllSync::desired_requests`].
    pub fn add_request(
        &mut self,
        source_id: SourceId,
        detail: RequestDetail,
        user_data: TRq,
        inner: Option<u64>,
    ) -> (id: RequestId)
        requires
            old(self).wf(),
            old(self).source_map().contains_key(source_id.0),
            absorbs(old(self).active(), detail) && old(self).active() == Strategy::Optimistic
                ==> fits_optimistic(detail),
            inner is Some <==> old(self).strategy_takes(detail),
        ensures
            final(self).wf(),
            final(self).with_request(
                old(self),
                id.0,
                if inner is Some {
                    mapped(old(self).active(), inner.unwrap())
                } else if absorbs(old(self).active(), detail) {
                    Mapping::GrandpaWarpSync(id.0 as u64)
                } else {
                    Mapping::Inline
                },
                RequestInfo { source_id, detail, user_data },
            ),
    {
        let absorbed_when_finished: bool = match self.strategy {
            Strategy::GrandpaWarpSync { finished } => {
                finished && match &detail {
                    RequestDetail::BlocksRequest { .. } => false,
                    _ => true,
                }
            },
            _ => false,
        };
        let key: usize = match inner {
            Some(inner) => {
                let mapping: Mapping = match self.strategy {
                    Strategy::GrandpaWarpSync { .. } => Mapping::GrandpaWarpSync(inner),
                    Strategy::Optimistic => Mapping::Optimistic(inner),
                    Strategy::AllForks => Mapping::AllForks(inner),
                };
                slab_insert(&mut self.requests, mapping)
            },
            None => {
                let key: usize = slab_insert(&mut self.requests, Mapping::Inline);
                if absorbed_when_finished {
                    // The request is numbered after its own identifier.
                    slab_set(&mut self.requests, key, Mapping::GrandpaWarpSync(key as u64));
                    proof {
                        assert(self.request_map() =~= old(self).request_map().insert(
                            key,
                            Mapping::GrandpaWarpSync(key as u64),
                        ));
                    }
                }
                key
            },
        };
        proof {
            assert(old(self).request_info_of(key as int) is None);
        }
        slot_put(&mut self.request_info, key, RequestInfo { source_id, detail, user_data });
        proof {
            assert(self.source_map() == old(self).source_map());
            assert(self.active() == old(self).active());
            assert forall|k: usize| #[trigger] self.source_map().contains_key(k) implies fits(
                self.active(),
                self.source_map()[k],
            ) by {
                assert(old(self).source_map().contains_key(k));
            }
            assert forall|k: usize| #[trigger]
                self.request_map().contains_key(k) <==> self.request_info_of(k as int) is Some by {
                assert(self.request_info_of(k as int) == slot(self.request_info@, k as int));
                if k != key {
                    assert(old(self).request_map().contains_key(k) <==> old(
                        self,
                    ).request_info_of(k as int) is Some);
                }
            }
        }
        RequestId(key)
    }

    /// Takes the request `id` out, which must be a request, and returns what was known of it.
    fn take_request(&mut self, id: usize) -> (taken: (Mapping, RequestInfo<TRq>))
        requires
            old(self).wf(),
            old(self).request_map().contains_key(id),
        ensures
            final(self).wf(),
            final(self).without_request(old(self), id),
            taken.0 == old(self).request_map()[id],
            Some(taken.1) == old(self).request_info_of(id as int),
    {
        proof {
            assert(old(self).request_info_of(id as int) is Some);
        }
        let mapping = slab_remove(&mut self.requests, id);
        let info = slot_take(&mut self.request_info, id);
        proof {
            assert(self.source_map() == old(self).source_map());
            assert(self.active() == old(self).active());
            assert forall|k: usize| #[trigger] self.source_map().contains_key(k) implies fits(
                self.active(),
                self.source_map()[k],
            ) by {
                assert(old(self).source_map().contains_key(k));
            }
            assert forall|k: usize| #[trigger]
                self.request_map().contains_key(k) <==> self.request_info_of(k as int) is Some by {
                assert(self.request_info_of(k as int) == slot(self.request_info@, k as int));
                if k != id {
                    assert(old(self).request_map().contains_key(k) <==> old(
                        self,
                    ).request_info_of(k as int) is Some);
                }
            }
        }
        (mapping, info)
    }

    /// Inject a response to a previously-emitted blocks request, which has succeeded or not.
    ///
    /// The request must be a request that has not been answered. It must be one that no
    /// strategy took, or one of the all-forks or of the optimistic syncing: the warp syncing
    /// never takes a request for blocks.
    ///
    /// The response to a request that no strategy took is outdated. Else the strategy is to be
    /// told of the response. What became of the response then depends on what the strategy
    /// makes of it, unless the request has failed.
    pub fn blocks_request_response(&mut self, request_id: RequestId, successful: bool) -> (response:
        BlocksResponse<TRq>)
        requires
            old(self).wf(),
            old(self).request_map().contains_key(request_id.0),
            !(old(self).request_map()[request_id.0] is GrandpaWarpSync),
        ensures
            final(self).wf(),
            final(self).without_request(old(self), request_id.0),
            Some(response.user_data) == (match old(self).request_info_of(request_id.0 as int) {
                Some(info) => Some(info.user_data),
                None => None,
            }),
            match old(self).request_map()[request_id.0] {
                Mapping::Inline => response.forward is None && response.outcome == Some(
                    ResponseOutcome::Outdated,
                ),
                Mapping::AllForks(inner) => if successful {
                    response.forward == Some(BlocksForward::AllForksAncestrySearch(inner))
                        && response.outcome is None
                } else {
                    response.forward == Some(BlocksForward::AllForksAncestrySearchFailed(inner))
                        && response.outcome == Some(ResponseOutcome::Queued)
                },
                Mapping::Optimistic(inner) => if successful {
                    response.forward == Some(BlocksForward::OptimisticSuccess(inner))
                        && response.outcome is None
                } else {
                    response.forward == Some(BlocksForward::OptimisticFailed(inner))
                        && response.outcome == Some(ResponseOutcome::Queued)
                },
                Mapping::GrandpaWarpSync(inner) => true,
            },
    {
        let (mapping, info) = self.take_request(request_id.0);
        let (forward, outcome) = match mapping {
            Mapping::Inline => (None, Some(ResponseOutcome::Outdated)),
            Mapping::AllForks(inner) => {
                if successful {
                    (Some(BlocksForward::AllForksAncestrySearch(inner)), None)
                } else {
                    (
                        Some(BlocksForward::AllForksAncestrySearchFailed(inner)),
                        Some(ResponseOutcome::Queued),
                    )
                }
            },
            Mapping::Optimistic(inner) => {
                if successful {
                    (Some(BlocksForward::OptimisticSuccess(inner)), None)
                } else {
                    (Some(BlocksForward::OptimisticFailed(inner)), Some(ResponseOutcome::Queued))
                }
            },
            Mapping::GrandpaWarpSync(_) => (None, None),
        };
        BlocksResponse { user_data: info.user_data, forward, outcome }
    }

    /// Takes out a request whose response came and of which only the warp syncing can make
    /// anything.
    fn warp_response(&mut self, request_id: RequestId) -> (response: WarpResponse<TRq>)
        requires
            old(self).wf(),
            old(self).request_map().contains_key(request_id.0),
            old(self).request_map()[request_id.0] is Inline || old(self).request_map()[request_id.0] is GrandpaWarpSync,
        ensures
            final(self).wf(),
            final(self).without_request(old(self), request_id.0),
            Some(response.user_data) == (match old(self).request_info_of(request_id.0 as int) {
                Some(info) => Some(info.user_data),
                None => None,
            }),
            match old(self).request_map()[request_id.0] {
                Mapping::GrandpaWarpSync(inner) => if old(self).strategy_numbers_sources() {
                    response.forward == Some(inner) && response.outcome == ResponseOutcome::Queued
                } else {
                    response.forward is None && response.outcome == ResponseOutcome::Outdated
                },
                _ => response.forward is None && response.outcome == ResponseOutcome::Queued,
            },
    {
        let (mapping, info) = self.take_request(request_id.0);
        let in_progress: bool = match self.strategy {
            Strategy::GrandpaWarpSync { finished } => !finished,
            _ => true,
        };
        let (forward, outcome) = match mapping {
            Mapping::GrandpaWarpSync(inner) => {
                if in_progress {
                    (Some(inner), ResponseOutcome::Queued)
                } else {
                    (None, ResponseOutcome::Outdated)
                }
            },
            _ => (None, ResponseOutcome::Queued),
        };
        WarpResponse { user_data: info.user_data, forward, outcome }
    }

    /// Inject a successful response to a previously-emitted GrandPa warp sync request.
    ///
    /// The request must be a request that has not been answered, and one that no strategy
    /// took or one of the warp syncing. While the warp syncing is in progress, it is to be
    /// given the fragments of the response. Once it is finished, the response is outdated.
    pub fn grandpa_warp_sync_response_ok(&mut self, request_id: RequestId) -> (response:
        WarpResponse<TRq>)
        requires
            old(self).wf(),
            old(self).request_map().contains_key(request_id.0),
            old(self).request_map()[request_id.0] is Inline || old(self).request_map()[request_id.0] is GrandpaWarpSync,
        ensures
            final(self).wf(),
            final(self).without_request(old(self), request_id.0),
            Some(response.user_data) == (match old(self).request_info_of(request_id.0 as int) {
                Some(info) => Some(info.user_data),
                None => None,
            }),
            match old(self).request_map()[request_id.0] {
                Mapping::GrandpaWarpSync(inner) => if old(self).strategy_numbers_sources() {
                    response.forward == Some(inner) && response.outcome == ResponseOutcome::Queued
                } else {
                    response.forward is None && response.outcome == ResponseOutcome::Outdated
                },
                _ => response.forward is None && response.outcome == ResponseOutcome::Queued,
            },
    {
        self.warp_response(request_id)
    }

    /// Inject a failure to a previously-emitted GrandPa warp sync request.
    ///
    /// The request must be a request that has not been answered, and one that no strategy
    /// took or one of the warp syncing. While the warp syncing is in progress, it is to be
    /// told that the request has failed. Once it is finished, the response is outdated.
    pub fn grandpa_warp_sync_response_err(&mut self, request_id: RequestId) -> (response:
        WarpResponse<TRq>)
        requires
            old(self).wf(),
            old(self).request_map().contains_key(request_id.0),
            old(self).request_map()[request_id.0] is Inline || old(self).request_map()[request_id.0] is GrandpaWarpSync,
        ensures
            final(self).wf(),
            final(self).without_request(old(self), request_id.0),
            Some(response.user_data) == (match old(self).request_info_of(request_id.0 as int) {
                Some(info) => Some(info.user_data),
                None => None,
            }),
            match old(self).request_map()[request_id.0] {
                Mapping::GrandpaWarpSync(inner) => if old(self).strategy_numbers_sources() {
                    response.forward == Some(inner) && response.outcome == ResponseOutcome::Queued
                } else {
                    response.forward is None && response.outcome == ResponseOutcome::Outdated
                },
                _ => response.forward is None && response.outcome == ResponseOutcome::Queued,
            },
    {
        self.warp_response(request_id)
    }

    /// Inject a response to a previously-emitted storage proof request.
    ///
    /// The request must be a request that has not been answered, and one that no strategy
    /// took or one of the warp syncing. While the warp syncing is in progress, it is to be
    /// given the response. Once it is finished, the response is outdated.
    pub fn storage_get_response(&mut self, request_id: RequestId) -> (response: WarpResponse<TRq>)
        requires
            old(self).wf(),
            old(self).request_map().contains_key(request_id.0),
            old(self).request_map()[request_id.0] is Inline || old(self).request_map()[request_id.0] is GrandpaWarpSync,
        ensures
            final(self).wf(),
            final(self).without_request(old(self), request_id.0),
            Some(response.user_data) == (match old(self).request_info_of(request_id.0 as int) {
                Some(info) => Some(info.user_data),
                None => None,
            }),
            match old(self).request_map()[request_id.0] {
                Mapping::GrandpaWarpSync(inner) => if old(self).strategy_numbers_sources() {
                    response.forward == Some(inner) && response.outcome == ResponseOutcome::Queued
                } else {
                    response.forward is None && response.outcome == ResponseOutcome::Outdated
                },
                _ => response.forward is None && response.outcome == ResponseOutcome::Queued,
            },
    {
        self.warp_response(request_id)
    }

    /// Inject a response to a previously-emitted call proof request.
    ///
    /// The request must be a request that has not been answered, and one that no strategy
    /// took or one of the warp syncing. While the warp syncing is in progress, it is to be
    /// given the response. Once it is finished, the response is outdated.
    pub fn call_proof_response(&mut self, request_id: RequestId) -> (response: WarpResponse<TRq>)
        requires
            old(self).wf(),
            old(self).request_map().contains_key(request_id.0),
            old(self).request_map()[request_id.0] is Inline || old(self).request_map()[request_id.0] is GrandpaWarpSync,
        ensures
            final(self).wf(),
            final(self).without_request(old(self), request_id.0),
            Some(response.user_data) == (match old(self).request_info_of(request_id.0 as int) {
                Some(info) => Some(info.user_data),
                None => None,
            }),
            match old(self).request_map()[request_id.0] {
                Mapping::GrandpaWarpSync(inner) => if old(self).strategy_numbers_sources() {
                    response.forward == Some(inner) && response.outcome == ResponseOutcome::Queued
                } else {
                    response.forward is None && response.outcome == ResponseOutcome::Outdated
                },
                _ => response.forward is None && response.outcome == ResponseOutcome::Queued,
            },
    {
        self.warp_response(request_id)
    }

    /// Returns what is known of the request `request_id`: the number that its strategy knows
    /// it by, if a strategy took it.
    pub fn request_mapping(&self, request_id: RequestId) -> (mapping: Option<Mapping>)
        ensures
            mapping == (if self.request_map().contains_key(request_id.0) {
                Some(self.request_map()[request_id.0])
            } else {
                None
            }),
    {
        slab_get(&self.requests, request_id.0)
    }
}

/// What a source announces: a block by its header, as far as it was looked at.
#[derive(Debug, Copy, Clone, PartialEq, Eq)]
pub enum Announced {
    /// The header was decoded: the block has the height `number` and the hash `hash`.
    Header { number: u64, hash: [u8; 32] },
    /// The header could not be decoded.
    InvalidHeader,
    /// The all-forks syncing was given the header and says this of it.
    AllForks(AllForksAnnounce),
}

/// What the all-forks syncing says of a block that was announced.
#[derive(Debug, Copy, Clone, PartialEq, Eq)]
pub enum AllForksAnnounce {
    /// The block is below the finalized block.
    TooOld { announce_block_height: u64, finalized_block_height: u64 },
    /// The block is in the chain already.
    AlreadyInChain,
    /// The block is known and waits to be verified.
    Known,
    /// The block is not known yet.
    Unknown,
    /// The header could not be decoded.
    InvalidHeader,
}

/// What the strategy is to do after a block was announced.
#[derive(Debug, Copy, Clone, PartialEq, Eq)]
pub enum AnnounceFollowUp {
    /// The all-forks syncing is to insert the block and update the source.
    InsertAndUpdateSource,
    /// The all-forks syncing is to update the source and the block.
    UpdateSourceAndBlock,
    /// The optimistic syncing is to raise the best block of the source that it knows as
    /// `inner_source` to `best_block_number`.
    RaiseSourceBestBlock { inner_source: u64, best_block_number: u64 },
}

/// What [`AllSync::block_announce`] returns.
#[derive(Debug, Copy, Clone, PartialEq, Eq)]
pub struct BlockAnnounced {
    /// What became of the announcement.
    pub outcome: BlockAnnounceOutcome,
    /// What the strategy is to do, if anything.
    pub follow_up: Option<AnnounceFollowUp>,
}

/// What the all-forks syncing makes of a Grandpa commit message.
#[derive(Debug, Copy, Clone, PartialEq, Eq)]
pub enum AllForksCommitMessage {
    /// The message could not be decoded.
    ParseError,
    /// The message is to be verified later.
    Queued,
}

/// The greater of two numbers.
pub open spec fn greater(a: u64, b: u64) -> u64 {
    if a < b {
        b
    } else {
        a
    }
}

/// What is known of a source once it has announced `announced` as its best block, while
/// `strategy` was syncing.
///
/// The warp syncing takes the block that is announced for the best block. The optimistic
/// syncing takes its hash, and its height if it is above the height known so far. The
/// all-forks syncing keeps track of the best block itself.
pub open spec fn announced_info<TSrc>(
    strategy: Strategy,
    info: SourceInfo<TSrc>,
    number: u64,
    hash: [u8; 32],
) -> SourceInfo<TSrc> {
    match strategy {
        Strategy::GrandpaWarpSync { finished } => SourceInfo {
            best_block_number: number,
            best_block_hash: hash,
            ..info
        },
        Strategy::Optimistic => SourceInfo {
            best_block_number: greater(info.best_block_number, number),
            best_block_hash: hash,
            ..info
        },
        Strategy::AllForks => info,
    }
}

impl<TRq, TSrc> AllSync<TRq, TSrc> {
    /// Whether the request `k` is one that a strategy took and that was made to `source`.
    pub open spec fn goes_with(&self, k: usize, source: usize) -> bool {
        &&& self.request_map().contains_key(k)
        &&& !(self.request_map()[k] is Inline)
        &&& self.request_info_of(k as int) matches Some(info) && info.source_id.0 == source
    }

    /// Whether `self` is `before` with `info` for what is known of the source `id`.
    pub open spec fn with_source_info(&self, before: &Self, id: usize, info: SourceInfo<TSrc>) -> bool {
        &&& self.source_map() == before.source_map()
        &&& forall|k: int|
            #[trigger] self.source_info_of(k) == (if k == id {
                Some(info)
            } else {
                before.source_info_of(k)
            })
        &&& self.active() == before.active()
        &&& self.same_requests(before)
    }

    /// Replaces what is known of the source `id`, which must be a source.
    fn set_source_info(&mut self, id: usize, info: SourceInfo<TSrc>)
        requires
            old(self).wf(),
            old(self).source_map().contains_key(id),
        ensures
            final(self).wf(),
            final(self).with_source_info(old(self), id, info),
    {
        proof {
            assert(old(self).source_info_of(id as int) is Some);
        }
        self.source_info.set(id, Some(info));
        proof {
            assert forall|k: int|
                #[trigger] self.source_info_of(k) == (if k == id {
                    Some(info)
                } else {
                    old(self).source_info_of(k)
                }) by {
                assert(self.source_info_of(k) == slot(self.source_info@, k));
                assert(old(self).source_info_of(k) == slot(old(self).source_info@, k));
            }
            assert forall|k: usize| #[trigger]
                self.source_map().contains_key(k) <==> self.source_info_of(k as int) is Some by {
                assert(old(self).source_map().contains_key(k) <==> old(self).source_info_of(
                    k as int,
                ) is Some);
            }
            assert forall|k: usize| #[trigger]
                self.request_map().contains_key(k) <==> self.request_info_of(k as int) is Some by {
                assert(old(self).request_map().contains_key(k) <==> old(self).request_info_of(
                    k as int,
                ) is Some);
            }
        }
    }

    /// Takes what is known of the source `id` out, which must be a source, and leaves no
    /// source behind.
    fn take_source(&mut self, id: usize) -> (taken: SourceInfo<TSrc>)
        requires
            old(self).wf(),
            old(self).source_map().contains_key(id),
        ensures
            final(self).wf(),
            Some(taken) == old(self).source_info_of(id as int),
            final(self).source_map() == old(self).source_map().remove(id),
            forall|k: int|
                #[trigger] final(self).source_info_of(k) == (if k == id {
                    None
                } else {
                    old(self).source_info_of(k)
                }),
            final(self).active() == old(self).active(),
            final(self).same_requests(old(self)),
    {
        proof {
            assert(old(self).source_info_of(id as int) is Some);
        }
        let _mapping = slab_remove(&mut self.sources, id);
        let info = slot_take(&mut self.source_info, id);
        proof {
            assert forall|k: usize| #[trigger]
                self.source_map().contains_key(k) <==> self.source_info_of(k as int) is Some by {
                assert(self.source_info_of(k as int) == slot(self.source_info@, k as int));
                if k != id {
                    assert(old(self).source_map().contains_key(k) <==> old(self).source_info_of(
                        k as int,
                    ) is Some);
                }
            }
            assert forall|k: usize| #[trigger] self.source_map().contains_key(k) implies fits(
                self.active(),
                self.source_map()[k],
            ) by {
                assert(old(self).source_map().contains_key(k));
            }
            assert forall|k: usize, l: usize|
                #![trigger self.source_map()[k], self.source_map()[l]]
                self.source_map().contains_key(k) && self.source_map().contains_key(l) && k
                    != l implies self.source_map()[k] != self.source_map()[l] by {
                assert(old(self).source_map().contains_key(k));
                assert(old(self).source_map().contains_key(l));
            }
            assert(self.request_map() == old(self).request_map());
            assert forall|k: usize| #[trigger]
                self.request_map().contains_key(k) <==> self.request_info_of(k as int) is Some by {
                assert(old(self).request_map().contains_key(k) <==> old(self).request_info_of(
                    k as int,
                ) is Some);
            }
            assert forall|k: usize| #[trigger]
                self.request_map().contains_key(k) implies self.request_map()[k] is Inline
                || fits(self.active(), self.request_map()[k]) by {
                assert(old(self).request_map().contains_key(k));
            }
        }
        info
    }

    /// Removes a source from the state machine. Returns the user data of this source, and all
    /// the requests that this source were expected to perform, in the order of their
    /// identifiers. These requests are no more.
    ///
    /// The requests made to the source that no strategy took stay, however.
    ///
    /// The [`SourceId`] must be the identifier of a source.
    pub fn remove_source(&mut self, source_id: SourceId) -> (removed: (TSrc, Vec<(RequestId, TRq)>))
        requires
            old(self).wf(),
            old(self).source_map().contains_key(source_id.0),
        ensures
            final(self).wf(),
            final(self).active() == old(self).active(),
            final(self).settings() == old(self).settings(),
            Some(removed.0) == (match old(self).source_info_of(source_id.0 as int) {
                Some(info) => Some(info.user_data),
                None => None,
            }),
            final(self).source_map() == old(self).source_map().remove(source_id.0),
            forall|k: int|
                #[trigger] final(self).source_info_of(k) == (if k == source_id.0 {
                    None
                } else {
                    old(self).source_info_of(k)
                }),
            forall|k: usize| #[trigger]
                final(self).request_map().contains_key(k) <==> old(self).request_map().contains_key(
                    k,
                ) && !old(self).goes_with(k, source_id.0),
            forall|k: usize| #[trigger]
                final(self).request_map().contains_key(k) ==> final(self).request_map()[k] == old(
                    self,
                ).request_map()[k] && final(self).request_info_of(k as int) == old(
                    self,
                ).request_info_of(k as int),
            forall|i: int|
                0 <= i < removed.1@.len() ==> old(self).goes_with(
                    (#[trigger] removed.1@[i]).0.0,
                    source_id.0,
                ) && old(self).request_info_of(removed.1@[i].0.0 as int).unwrap().user_data
                    == removed.1@[i].1,
            forall|i: int, j: int|
                0 <= i < j < removed.1@.len() ==> removed.1@[i].0.0 < removed.1@[j].0.0,
            forall|k: usize|
                old(self).goes_with(k, source_id.0) ==> exists|i: int|
                    0 <= i < removed.1@.len() && (#[trigger] removed.1@[i]).0.0 == k,
    {
        let info = self.take_source(source_id.0);
        let ghost start = *self;
        let total: usize = self.request_info.len();
        let mut requests: Vec<(RequestId, TRq)> = Vec::new();
        let mut k: usize = 0;
        while k < total
            invariant
                self.wf(),
                k <= total,
                start.wf(),
                total == start.request_info@.len(),
                self.active() == start.active(),
                self.same_sources(&start),
                self.settings() == start.settings(),
                forall|l: usize| #[trigger]
                    self.request_map().contains_key(l) <==> start.request_map().contains_key(l)
                        && !(l < k && start.goes_with(l, source_id.0)),
                forall|l: usize| #[trigger]
                    self.request_map().contains_key(l) ==> self.request_map()[l]
                        == start.request_map()[l] && self.request_info_of(l as int)
                        == start.request_info_of(l as int),
                forall|i: int|
                    0 <= i < requests@.len() ==> {
                        &&& start.goes_with((#[trigger] requests@[i]).0.0, source_id.0)
                        &&& start.request_info_of(requests@[i].0.0 as int).unwrap().user_data
                            == requests@[i].1
                        &&& requests@[i].0.0 < k
                    },
                forall|i: int, j: int|
                    0 <= i < j < requests@.len() ==> requests@[i].0.0 < requests@[j].0.0,
                forall|l: usize|
                    l < k && start.goes_with(l, source_id.0) ==> exists|i: int|
                        0 <= i < requests@.len() && (#[trigger] requests@[i]).0.0 == l,
            decreases total - k,
        {
            let goes: bool = match slab_get(&self.requests, k) {
                Some(mapping) => {
                    proof {
                        assert(self.request_info_of(k as int) is Some);
                    }
                    mapping != Mapping::Inline && match &self.request_info[k] {
                        Some(request) => request.source_id.0 == source_id.0,
                        None => false,
                    }
                },
                None => false,
            };
            proof {
                assert(goes == start.goes_with(k, source_id.0));
            }
            if goes {
                let ghost before = requests@;
                let ghost previous = *self;
                let (_mapping, request) = self.take_request(k);
                requests.push((RequestId(k), request.user_data));
                proof {
                    assert forall|l: usize|
                        l < k + 1 && start.goes_with(l, source_id.0) implies exists|i: int|
                        0 <= i < requests@.len() && (#[trigger] requests@[i]).0.0 == l by {
                        if l < k {
                            let i = choose|i: int|
                                0 <= i < before.len() && (#[trigger] before[i]).0.0 == l;
                            assert(requests@[i].0.0 == l);
                        } else {
                            assert(requests@[before.len() as int].0.0 == l);
                        }
                    }
                    assert forall|l: usize| #[trigger]
                        self.request_map().contains_key(l) implies self.request_map()[l]
                        == start.request_map()[l] && self.request_info_of(l as int)
                        == start.request_info_of(l as int) by {
                        assert(previous.request_map().contains_key(l));
                    }
                }
            }
            k = k + 1;
        }
        proof {
            assert forall|l: usize| #[trigger]
                self.request_map().contains_key(l) <==> old(self).request_map().contains_key(l)
                    && !old(self).goes_with(l, source_id.0) by {
                assert(start.goes_with(l, source_id.0) == old(self).goes_with(l, source_id.0));
                if start.goes_with(l, source_id.0) {
                    assert(start.request_info_of(l as int) is Some);
                }
            }
            assert forall|l: usize|
                old(self).goes_with(l, source_id.0) implies exists|i: int|
                0 <= i < requests@.len() && (#[trigger] requests@[i]).0.0 == l by {
                assert(start.goes_with(l, source_id.0));
                assert(start.request_info_of(l as int) is Some);
            }
            assert forall|i: int| 0 <= i < requests@.len() implies old(self).goes_with(
                (#[trigger] requests@[i]).0.0,
                source_id.0,
            ) && old(self).request_info_of(requests@[i].0.0 as int).unwrap().user_data
                == requests@[i].1 by {
                assert(start.goes_with(requests@[i].0.0, source_id.0));
            }
        }
        (info.user_data, requests)
    }

    /// Number of the requests with an identifier below `below` that count as ongoing requests
    /// of `source`.
    pub open spec fn ongoing(&self, source: usize, below: nat) -> nat
        decreases below,
    {
        if below == 0 {
            0
        } else {
            self.ongoing(source, (below - 1) as nat) + if self.counts_for(
                (below - 1) as usize,
                source,
            ) {
                1nat
            } else {
                0nat
            }
        }
    }

    /// A number that is above the identifier of every request.
    pub closed spec fn request_bound(&self) -> nat {
        self.request_info@.len()
    }

    /// Every request has an identifier below [`AllSync::request_bound`], which is a number that
    /// an identifier can be.
    pub proof fn lemma_request_bound(&self)
        requires
            self.wf(),
        ensures
            self.request_bound() <= usize::MAX,
            forall|k: usize| #[trigger]
                self.request_map().contains_key(k) ==> k < self.request_bound(),
    {
        assert(self.request_info.len() == self.request_info@.len());
        assert forall|k: usize| #[trigger] self.request_map().contains_key(k) implies k
            < self.request_bound() by {
            assert(self.request_info_of(k as int) is Some);
        }
    }

    /// Counting further than [`AllSync::request_bound`] finds no more ongoing requests.
    proof fn lemma_ongoing_beyond(&self, source: usize, below: nat)
        requires
            self.wf(),
            self.request_bound() <= below <= usize::MAX + 1,
        ensures
            self.ongoing(source, below) == self.ongoing(source, self.request_bound()),
        decreases below,
    {
        self.lemma_request_bound();
        if below > self.request_bound() {
            self.lemma_ongoing_beyond(source, (below - 1) as nat);
            assert(!self.request_map().contains_key((below - 1) as usize));
        }
    }

    /// Two states that hold the same requests but for the request `id` count the same number
    /// of ongoing requests of `source` below `below`, but for `id` itself.
    proof fn lemma_ongoing_but_one(&self, before: &Self, id: usize, source: usize, below: nat)
        requires
            self.active() == before.active(),
            forall|k: usize|
                k != id ==> (#[trigger] self.request_map().contains_key(k)
                    <==> before.request_map().contains_key(k)),
            forall|k: usize|
                k != id && #[trigger] self.request_map().contains_key(k) ==> self.request_map()[k]
                    == before.request_map()[k],
            forall|k: int| k != id ==> #[trigger] self.request_info_of(k) == before.request_info_of(k),
            below <= usize::MAX + 1,
        ensures
            self.ongoing(source, below) + (if id < below && before.counts_for(id, source) {
                1nat
            } else {
                0nat
            }) == before.ongoing(source, below) + (if id < below && self.counts_for(id, source) {
                1nat
            } else {
                0nat
            }),
        decreases below,
    {
        if below > 0 {
            self.lemma_ongoing_but_one(before, id, source, (below - 1) as nat);
            let k = (below - 1) as usize;
            if k != id {
                assert(self.request_map().contains_key(k) <==> before.request_map().contains_key(k));
                assert(self.request_info_of(k as int) == before.request_info_of(k as int));
                assert(self.counts_for(k, source) == before.counts_for(k, source));
            }
        }
    }

    /// A request that is added raises the number of ongoing requests of its source by one if no
    /// strategy took it or if the strategy is not the warp syncing, and changes no other
    /// number.
    pub proof fn lemma_ongoing_with_request(
        &self,
        before: &Self,
        id: usize,
        mapping: Mapping,
        info: RequestInfo<TRq>,
        source: usize,
    )
        requires
            before.wf(),
            self.wf(),
            self.with_request(before, id, mapping, info),
        ensures
            self.ongoing(source, self.request_bound()) == before.ongoing(
                source,
                before.request_bound(),
            ) + (if info.source_id.0 == source && (mapping is Inline
                || !(before.active() is GrandpaWarpSync)) {
                1nat
            } else {
                0nat
            }),
    {
        let top: nat = (usize::MAX + 1) as nat;
        self.lemma_request_bound();
        before.lemma_request_bound();
        self.lemma_ongoing_beyond(source, top);
        before.lemma_ongoing_beyond(source, top);
        assert(self.request_map().contains_key(id));
        assert(self.request_info_of(id as int) == Some(info));
        self.lemma_ongoing_but_one(before, id, source, top);
    }

    /// A request that is taken out lowers the number of ongoing requests of its source by one
    /// if it counted, and changes no other number.
    pub proof fn lemma_ongoing_without_request(&self, before: &Self, id: usize, source: usize)
        requires
            before.wf(),
            self.wf(),
            self.without_request(before, id),
        ensures
            before.ongoing(source, before.request_bound()) == self.ongoing(
                source,
                self.request_bound(),
            ) + (if before.counts_for(id, source) {
                1nat
            } else {
                0nat
            }),
    {
        let top: nat = (usize::MAX + 1) as nat;
        self.lemma_request_bound();
        before.lemma_request_bound();
        self.lemma_ongoing_beyond(source, top);
        before.lemma_ongoing_beyond(source, top);
        assert(!self.request_map().contains_key(id));
        self.lemma_ongoing_but_one(before, id, source, top);
    }

    /// Returns the number of ongoing requests that concern this source, which must be a
    /// source.
    ///
    /// These are the requests made to the source that no strategy took, and, unless the warp
    /// syncing is the strategy, those that the strategy took.
    pub fn source_num_ongoing_requests(&self, source_id: SourceId) -> (n: usize)
        requires
            self.wf(),
            self.source_map().contains_key(source_id.0),
        ensures
            n == self.ongoing(source_id.0, self.request_bound()),
    {
        let counts_strategy: bool = match self.strategy {
            Strategy::GrandpaWarpSync { .. } => false,
            _ => true,
        };
        let mut n: usize = 0;
        let mut k: usize = 0;
        while k < self.request_info.len()
            invariant
                self.wf(),
                k <= self.request_info@.len(),
                counts_strategy == !(self.active() is GrandpaWarpSync),
                n == self.ongoing(source_id.0, k as nat),
                n <= k,
            decreases self.request_info.len() - k,
        {
            let counts: bool = match slab_get(&self.requests, k) {
                Some(mapping) => {
                    proof {
                        assert(self.request_info_of(k as int) is Some);
                    }
                    (counts_strategy || mapping == Mapping::Inline) && match &self.request_info[k] {
                        Some(request) => request.source_id.0 == source_id.0,
                        None => false,
                    }
                },
                None => false,
            };
            proof {
                assert(counts == self.counts_for(k, source_id.0));
            }
            if counts {
                n = n + 1;
            }
            k = k + 1;
        }
        n
    }

    /// Whether the request `k` counts as an ongoing request of `source`.
    pub open spec fn counts_for(&self, k: usize, source: usize) -> bool {
        &&& self.request_map().contains_key(k)
        &&& self.request_map()[k] is Inline || !(self.active() is GrandpaWarpSync)
        &&& self.request_info_of(k as int) matches Some(info) && info.source_id.0 == source
    }

    /// Returns the current best block of the given source, which must be a source, or `None`
    /// if the all-forks syncing is the strategy, which keeps track of it.
    ///
    /// This corresponds either the latest call to [`AllSync::block_announce`] where `is_best` was
    /// `true`, or to the parameter passed to [`AllSync::add_source`].
    pub fn source_best_block(&self, source_id: SourceId) -> (best: Option<(u64, [u8; 32])>)
        requires
            self.wf(),
            self.source_map().contains_key(source_id.0),
        ensures
            best == (if self.active() == Strategy::AllForks {
                None
            } else {
                Some(
                    (
                        self.source_info_of(source_id.0 as int).unwrap().best_block_number,
                        self.source_info_of(source_id.0 as int).unwrap().best_block_hash,
                    ),
                )
            }),
    {
        proof {
            assert(self.source_info_of(source_id.0 as int) is Some);
        }
        match self.strategy {
            Strategy::AllForks => None,
            _ => match &self.source_info[source_id.0] {
                Some(info) => Some((info.best_block_number, info.best_block_hash)),
                None => vstd::pervasive::unreached(),
            },
        }
    }

    /// Whether a source of which `info` is known knows the block `hash` of the height
    /// `height`, as far as can be told while `strategy` is syncing: the warp syncing goes by
    /// the best block of the source, and the optimistic syncing by its height.
    pub open spec fn knows(strategy: Strategy, info: SourceInfo<TSrc>, height: u64, hash: [u8; 32]) -> bool {
        match strategy {
            Strategy::Optimistic => info.best_block_number >= height,
            _ => info.best_block_hash == hash && info.best_block_number == height,
        }
    }

    /// Returns true if the source has earlier announced the block passed as parameter or one of
    /// its descendants, or `None` if the all-forks syncing is the strategy, which keeps track
    /// of it.
    ///
    /// The [`SourceId`] must be the identifier of a source, and `height` above the height of
    /// the finalized block. Finalized blocks are intentionally not tracked by this data
    /// structure.
    pub fn source_knows_non_finalized_block(
        &self,
        source_id: SourceId,
        height: u64,
        hash: &[u8; 32],
    ) -> (known: Option<bool>)
        requires
            self.wf(),
            self.source_map().contains_key(source_id.0),
        ensures
            known == (if self.active() == Strategy::AllForks {
                None
            } else {
                Some(
                    Self::knows(
                        self.active(),
                        self.source_info_of(source_id.0 as int).unwrap(),
                        height,
                        *hash,
                    ),
                )
            }),
    {
        proof {
            assert(self.source_info_of(source_id.0 as int) is Some);
        }
        match &self.source_info[source_id.0] {
            Some(info) => match self.strategy {
                Strategy::AllForks => None,
                Strategy::Optimistic => Some(info.best_block_number >= height),
                Strategy::GrandpaWarpSync { .. } => Some(
                    same_hash(&info.best_block_hash, hash) && info.best_block_number == height,
                ),
            },
            None => vstd::pervasive::unreached(),
        }
    }

    /// Update the finalized block height of the given source, which must be a source.
    ///
    /// While the warp syncing is the strategy, the greatest height that the source has reported
    /// is kept for the all-forks syncing. The all-forks syncing is to be told of the height
    /// itself: the number that it knows the source by is returned then.
    pub fn update_source_finality_state(&mut self, source_id: SourceId, finalized_block_height: u64) -> (forward:
        Option<u64>)
        requires
            old(self).wf(),
            old(self).source_map().contains_key(source_id.0),
        ensures
            final(self).wf(),
            match old(self).active() {
                Strategy::AllForks => *final(self) == *old(self) && old(
                    self,
                ).source_map()[source_id.0] == Mapping::AllForks(forward.unwrap()) && forward is Some,
                Strategy::Optimistic => *final(self) == *old(self) && forward is None,
                Strategy::GrandpaWarpSync { finished } => {
                    let info = old(self).source_info_of(source_id.0 as int).unwrap();
                    &&& forward is None
                    &&& final(self).with_source_info(
                        old(self),
                        source_id.0,
                        SourceInfo {
                            finalized_block_height: Some(
                                match info.finalized_block_height {
                                    Some(known) => greater(known, finalized_block_height),
                                    None => finalized_block_height,
                                },
                            ),
                            ..info
                        },
                    )
                },
            },
    {
        match self.strategy {
            Strategy::AllForks => Some(self.inner_source_id(source_id)),
            Strategy::Optimistic => None,
            Strategy::GrandpaWarpSync { .. } => {
                proof {
                    assert(self.source_info_of(source_id.0 as int) is Some);
                }
                self.source_info.push(None);
                let taken = self.source_info.swap_remove(source_id.0);
                let mut info = match taken {
                    Some(info) => info,
                    None => vstd::pervasive::unreached(),
                };
                let highest: u64 = match info.finalized_block_height {
                    Some(known) => if known < finalized_block_height {
                        finalized_block_height
                    } else {
                        known
                    },
                    None => finalized_block_height,
                };
                info.finalized_block_height = Some(highest);
                let ghost updated = info;
                self.source_info.set(source_id.0, Some(info));
                proof {
                    assert(self.source_info@ =~= old(self).source_info@.update(
                        source_id.0 as int,
                        Some(updated),
                    ));
                    assert forall|k: usize| #[trigger]
                        self.source_map().contains_key(k) <==> self.source_info_of(
                            k as int,
                        ) is Some by {
                        assert(old(self).source_map().contains_key(k) <==> old(
                            self,
                        ).source_info_of(k as int) is Some);
                    }
                    assert forall|k: usize| #[trigger]
                        self.request_map().contains_key(k) <==> self.request_info_of(
                            k as int,
                        ) is Some by {
                        assert(old(self).request_map().contains_key(k) <==> old(
                            self,
                        ).request_info_of(k as int) is Some);
                    }
                }
                None
            },
        }
    }

    /// Injects a block announcement made by a source into the state machine. The source must
    /// be a source.
    ///
    /// While the all-forks syncing is the strategy, it is given the header, and `announced`
    /// must be what it says of the block. Else `announced` must be the header as far as it
    /// could be decoded. See [`announced_info`] for what is known of the source afterwards.
    pub fn block_announce(&mut self, source_id: SourceId, announced: Announced, is_best: bool) -> (result:
        BlockAnnounced)
        requires
            old(self).wf(),
            old(self).source_map().contains_key(source_id.0),
            announced is AllForks <==> old(self).active() == Strategy::AllForks,
        ensures
            final(self).wf(),
            match announced {
                Announced::AllForks(said) => {
                    &&& *final(self) == *old(self)
                    &&& result == (match said {
                        AllForksAnnounce::TooOld {
                            announce_block_height,
                            finalized_block_height,
                        } => BlockAnnounced {
                            outcome: BlockAnnounceOutcome::TooOld {
                                announce_block_height,
                                finalized_block_height,
                            },
                            follow_up: None,
                        },
                        AllForksAnnounce::Unknown => BlockAnnounced {
                            outcome: BlockAnnounceOutcome::StoredForLater,
                            follow_up: Some(AnnounceFollowUp::InsertAndUpdateSource),
                        },
                        AllForksAnnounce::AlreadyInChain | AllForksAnnounce::Known => BlockAnnounced {
                            outcome: BlockAnnounceOutcome::StoredForLater,
                            follow_up: Some(AnnounceFollowUp::UpdateSourceAndBlock),
                        },
                        AllForksAnnounce::InvalidHeader => BlockAnnounced {
                            outcome: BlockAnnounceOutcome::InvalidHeader,
                            follow_up: None,
                        },
                    })
                },
                Announced::InvalidHeader => *final(self) == *old(self) && result == (BlockAnnounced {
                    outcome: BlockAnnounceOutcome::InvalidHeader,
                    follow_up: None,
                }),
                Announced::Header { number, hash } => {
                    &&& result.outcome == BlockAnnounceOutcome::Discarded
                    &&& if is_best {
                        &&& final(self).with_source_info(
                            old(self),
                            source_id.0,
                            announced_info(
                                old(self).active(),
                                old(self).source_info_of(source_id.0 as int).unwrap(),
                                number,
                                hash,
                            ),
                        )
                        &&& result.follow_up == (match old(self).source_map()[source_id.0] {
                            Mapping::Optimistic(inner_source) => Some(
                                AnnounceFollowUp::RaiseSourceBestBlock {
                                    inner_source,
                                    best_block_number: number,
                                },
                            ),
                            _ => None,
                        })
                    } else {
                        *final(self) == *old(self) && result.follow_up is None
                    }
                },
            },
    {
        match announced {
            Announced::AllForks(said) => match said {
                AllForksAnnounce::TooOld {
                    announce_block_height,
                    finalized_block_height,
                } => BlockAnnounced {
                    outcome: BlockAnnounceOutcome::TooOld {
                        announce_block_height,
                        finalized_block_height,
                    },
                    follow_up: None,
                },
                AllForksAnnounce::Unknown => BlockAnnounced {
                    outcome: BlockAnnounceOutcome::StoredForLater,
                    follow_up: Some(AnnounceFollowUp::InsertAndUpdateSource),
                },
                AllForksAnnounce::AlreadyInChain | AllForksAnnounce::Known => BlockAnnounced {
                    outcome: BlockAnnounceOutcome::StoredForLater,
                    follow_up: Some(AnnounceFollowUp::UpdateSourceAndBlock),
                },
                AllForksAnnounce::InvalidHeader => BlockAnnounced {
                    outcome: BlockAnnounceOutcome::InvalidHeader,
                    follow_up: None,
                },
            },
            Announced::InvalidHeader => BlockAnnounced {
                outcome: BlockAnnounceOutcome::InvalidHeader,
                follow_up: None,
            },
            Announced::Header { number, hash } => {
                if !is_best {
                    return BlockAnnounced {
                        outcome: BlockAnnounceOutcome::Discarded,
                        follow_up: None,
                    };
                }
                proof {
                    assert(self.source_info_of(source_id.0 as int) is Some);
                    assert(fits(self.active(), self.source_map()[source_id.0]));
                }
                let inner: u64 = self.inner_source_id(source_id);
                self.source_info.push(None);
                let taken = self.source_info.swap_remove(source_id.0);
                let mut info = match taken {
                    Some(info) => info,
                    None => vstd::pervasive::unreached(),
                };
                let follow_up = match self.strategy {
                    Strategy::Optimistic => {
                        if info.best_block_number < number {
                            info.best_block_number = number;
                        }
                        info.best_block_hash = hash;
                        Some(
                            AnnounceFollowUp::RaiseSourceBestBlock {
                                inner_source: inner,
                                best_block_number: number,
                            },
                        )
                    },
                    _ => {
                        info.best_block_number = number;
                        info.best_block_hash = hash;
                        None
                    },
                };
                let ghost updated = info;
                self.source_info.set(source_id.0, Some(info));
                proof {
                    assert(self.source_info@ =~= old(self).source_info@.update(
                        source_id.0 as int,
                        Some(updated),
                    ));
                    assert forall|k: usize| #[trigger]
                        self.source_map().contains_key(k) <==> self.source_info_of(
                            k as int,
                        ) is Some by {
                        assert(old(self).source_map().contains_key(k) <==> old(
                            self,
                        ).source_info_of(k as int) is Some);
                    }
                    assert forall|k: usize| #[trigger]
                        self.request_map().contains_key(k) <==> self.request_info_of(
                            k as int,
                        ) is Some by {
                        assert(old(self).request_map().contains_key(k) <==> old(
                            self,
                        ).request_info_of(k as int) is Some);
                    }
                }
                BlockAnnounced { outcome: BlockAnnounceOutcome::Discarded, follow_up }
            },
        }
    }

    /// Update the state machine with a Grandpa commit message received from the network, from
    /// a source that must be a source.
    ///
    /// Only the all-forks syncing has a use for such a message: `all_forks` is what it made of
    /// the message, if it is the strategy. The message is discarded else.
    pub fn grandpa_commit_message(&self, source_id: SourceId, all_forks: Option<AllForksCommitMessage>) -> (outcome:
        GrandpaCommitMessageOutcome)
        requires
            self.wf(),
            self.source_map().contains_key(source_id.0),
            all_forks is Some <==> self.active() == Strategy::AllForks,
        ensures
            outcome == (match all_forks {
                Some(AllForksCommitMessage::Queued) => GrandpaCommitMessageOutcome::Queued,
                _ => GrandpaCommitMessageOutcome::Discarded,
            }),
    {
        match all_forks {
            Some(AllForksCommitMessage::Queued) => GrandpaCommitMessageOutcome::Queued,
            Some(AllForksCommitMessage::ParseError) => GrandpaCommitMessageOutcome::Discarded,
            None => GrandpaCommitMessageOutcome::Discarded,
        }
    }
}

/// Whether two hashes are the same.
fn same_hash(a: &[u8; 32], b: &[u8; 32]) -> (same: bool)
    ensures
        same == (*a == *b),
{
    let mut i: usize = 0;
    while i < 32
        invariant
            i <= 32,
            forall|k: int| 0 <= k < i ==> a@[k] == b@[k],
        decreases 32 - i,
    {
        if a[i] != b[i] {
            return false;
        }
        i = i + 1;
    }
    proof {
        assert(*a =~= *b);
    }
    true
}

/// What a strategy would like to request.
#[derive(Debug, Clone, PartialEq, Eq)]
pub enum StrategyDesiredRequest {
    /// What the all-forks syncing would like to request.
    AllForks(AllForksRequestParams),
    /// What the optimistic syncing would like to request.
    Optimistic(optimistic::RequestDetail),
    /// What the warp syncing would like to request.
    WarpSync(DesiredRequest),
}

/// The request that stands for what a strategy would like to request.
pub open spec fn converted(desired: StrategyDesiredRequest, full_node: bool) -> DesiredRequest {
    match desired {
        StrategyDesiredRequest::AllForks(params) => DesiredRequest::BlocksRequest {
            ascending: false,
            first_block_hash: Some(params.first_block_hash),
            first_block_height: params.first_block_height,
            num_blocks: params.num_blocks,
            request_bodies: full_node,
            request_headers: true,
            request_justification: true,
        },
        StrategyDesiredRequest::Optimistic(detail) => DesiredRequest::BlocksRequest {
            ascending: true,
            first_block_hash: None,
            first_block_height: detail.block_height,
            num_blocks: detail.num_blocks as u64,
            request_bodies: full_node,
            request_headers: true,
            request_justification: true,
        },
        StrategyDesiredRequest::WarpSync(desired) => desired,
    }
}

/// Where the warp syncing stands.
#[derive(Debug, Copy, Clone, PartialEq, Eq)]
#[allow(inconsistent_fields)]
pub enum WarpSyncStatus {
    /// It is downloading warp sync fragments, from the source that it knows as `source` if
    /// any.
    Fragments { source: Option<u64>, finalized_block_hash: [u8; 32], finalized_block_number: u64 },
    /// It is downloading the chain information from the source that it knows as `source`.
    ChainInformation { source: u64, finalized_block_hash: [u8; 32], finalized_block_number: u64 },
}

/// What a source is known as and what is known of it when the all-forks syncing takes over.
#[derive(Debug, Copy, Clone, PartialEq, Eq)]
pub struct TransitionSource {
    /// Identifier of the source.
    pub source_id: SourceId,
    /// Height of the best block that the source has reported.
    pub best_block_number: u64,
    /// Hash of the best block that the source has reported.
    pub best_block_hash: [u8; 32],
    /// Height of the latest block that the source has reported as finalized, if any.
    pub finalized_block_height: Option<u64>,
}

/// What the all-forks syncing says of the best block of a source that is to be added.
#[derive(Debug, Copy, Clone, PartialEq, Eq)]
pub enum AllForksAddSource {
    /// The best block of the source is verified already.
    BestBlockAlreadyVerified,
    /// The best block of the source waits to be verified.
    BestBlockPendingVerification,
    /// The best block of the source is below the finalized block.
    OldBestBlock,
    /// The best block of the source is not known.
    UnknownBestBlock,
}

/// How a source is to be added to the all-forks syncing.
#[derive(Debug, Copy, Clone, PartialEq, Eq)]
pub enum AllForksAddSourceStep {
    /// The source is to be added.
    AddSource,
    /// The source is to be added and its best block inserted, without user data.
    AddSourceAndInsertBlock,
}

/// How a source is to be added to the all-forks syncing, which says `prepared` of its best
/// block: a best block that is not known is inserted with the source.
pub fn all_forks_add_source(prepared: AllForksAddSource) -> (step: AllForksAddSourceStep)
    ensures
        step == (if prepared == AllForksAddSource::UnknownBestBlock {
            AllForksAddSourceStep::AddSourceAndInsertBlock
        } else {
            AllForksAddSourceStep::AddSource
        }),
{
    match prepared {
        AllForksAddSource::UnknownBestBlock => AllForksAddSourceStep::AddSourceAndInsertBlock,
        _ => AllForksAddSourceStep::AddSource,
    }
}

impl<TRq, TSrc> AllSync<TRq, TSrc> {
    /// Returns the list of sources for which [`AllSync::source_knows_non_finalized_block`]
    /// would return `true`, in the order of their identifiers, or `None` if the all-forks
    /// syncing is the strategy, which keeps track of it.
    ///
    /// `height` must be above the height of the finalized block.
    pub fn knows_non_finalized_block(&self, height: u64, hash: &[u8; 32]) -> (known: Option<
        Vec<SourceId>,
    >)
        requires
            self.wf(),
        ensures
            known is None <==> self.active() == Strategy::AllForks,
            known matches Some(ids) ==> {
                &&& forall|i: int|
                    0 <= i < ids@.len() ==> self.source_map().contains_key(
                        (#[trigger] ids@[i]).0,
                    ) && Self::knows(
                        self.active(),
                        self.source_info_of(ids@[i].0 as int).unwrap(),
                        height,
                        *hash,
                    )
                &&& forall|i: int, j: int| 0 <= i < j < ids@.len() ==> ids@[i].0 < ids@[j].0
                &&& forall|k: usize|
                    self.source_map().contains_key(k) && Self::knows(
                        self.active(),
                        self.source_info_of(k as int).unwrap(),
                        height,
                        *hash,
                    ) ==> exists|i: int| 0 <= i < ids@.len() && (#[trigger] ids@[i]).0 == k
            },
    {
        let by_height: bool = match self.strategy {
            Strategy::AllForks => {
                return None;
            },
            Strategy::Optimistic => true,
            Strategy::GrandpaWarpSync { .. } => false,
        };
        let mut ids: Vec<SourceId> = Vec::new();
        let mut k: usize = 0;
        while k < self.source_info.len()
            invariant
                self.wf(),
                k <= self.source_info@.len(),
                by_height == (self.active() == Strategy::Optimistic),
                self.active() != Strategy::AllForks,
                forall|i: int|
                    0 <= i < ids@.len() ==> self.source_map().contains_key(
                        (#[trigger] ids@[i]).0,
                    ) && ids@[i].0 < k && Self::knows(
                        self.active(),
                        self.source_info_of(ids@[i].0 as int).unwrap(),
                        height,
                        *hash,
                    ),
                forall|i: int, j: int| 0 <= i < j < ids@.len() ==> ids@[i].0 < ids@[j].0,
                forall|l: usize|
                    l < k && self.source_map().contains_key(l) && Self::knows(
                        self.active(),
                        self.source_info_of(l as int).unwrap(),
                        height,
                        *hash,
                    ) ==> exists|i: int| 0 <= i < ids@.len() && (#[trigger] ids@[i]).0 == l,
            decreases self.source_info.len() - k,
        {
            let knows: bool = match &self.source_info[k] {
                Some(info) => if by_height {
                    info.best_block_number >= height
                } else {
                    same_hash(&info.best_block_hash, hash) && info.best_block_number == height
                },
                None => false,
            };
            proof {
                assert(self.source_info_of(k as int) == self.source_info@[k as int]);
                assert(self.source_map().contains_key(k) <==> self.source_info_of(k as int) is Some);
            }
            if knows {
                let ghost before = ids@;
                ids.push(SourceId(k));
                proof {
                    assert forall|l: usize|
                        l < k + 1 && self.source_map().contains_key(l) && Self::knows(
                            self.active(),
                            self.source_info_of(l as int).unwrap(),
                            height,
                            *hash,
                        ) implies exists|i: int|
                        0 <= i < ids@.len() && (#[trigger] ids@[i]).0 == l by {
                        if l < k {
                            let i = choose|i: int|
                                0 <= i < before.len() && (#[trigger] before[i]).0 == l;
                            assert(ids@[i].0 == l);
                        } else {
                            assert(ids@[before.len() as int].0 == l);
                        }
                    }
                }
            }
            k = k + 1;
        }
        proof {
            assert forall|l: usize| self.source_map().contains_key(l) implies l
                < self.source_info@.len() by {
                assert(self.source_info_of(l as int) is Some);
            }
        }
        Some(ids)
    }

    /// Returns the details of the requests to start towards the sources, given what the
    /// strategy would like to request of each, with the user data of the source.
    ///
    /// Nothing is to be requested once the warp syncing is finished and until the all-forks
    /// syncing takes over. Else each request stands for what the strategy asks for, and asks
    /// for the bodies of the blocks on a full node only. What the strategy names are sources.
    ///
    /// This method doesn't modify the state machine in any way. [`AllSync::add_request`] must be
    /// called in order for the request to actually be marked as started.
    pub fn desired_requests(&self, strategy: Vec<(SourceId, StrategyDesiredRequest)>) -> (desired:
        Vec<(SourceId, &TSrc, DesiredRequest)>)
        requires
            self.wf(),
            self.strategy_numbers_sources() ==> forall|i: int|
                0 <= i < strategy@.len() ==> self.source_map().contains_key(
                    (#[trigger] strategy@[i]).0.0,
                ),
        ensures
            !self.strategy_numbers_sources() ==> desired@.len() == 0,
            self.strategy_numbers_sources() ==> desired@.len() == strategy@.len() && forall|
                i: int,
            |
                0 <= i < desired@.len() ==> {
                    &&& (#[trigger] desired@[i]).0 == strategy@[i].0
                    &&& self.source_info_of(strategy@[i].0.0 as int) matches Some(info)
                        && info.user_data == *desired@[i].1
                    &&& desired@[i].2 == converted(strategy@[i].1, self.settings().full_mode)
                },
    {
        let mut desired: Vec<(SourceId, &TSrc, DesiredRequest)> = Vec::new();
        match self.strategy {
            Strategy::GrandpaWarpSync { finished } => {
                if finished {
                    return desired;
                }
            },
            _ => {},
        }
        let mut remaining = strategy;
        let ghost all = remaining@;
        while remaining.len() > 0
            invariant
                self.wf(),
                forall|i: int|
                    0 <= i < all.len() ==> self.source_map().contains_key((#[trigger] all[i]).0.0),
                desired@.len() + remaining@.len() == all.len(),
                remaining@ == all.skip(desired@.len() as int),
                forall|i: int|
                    0 <= i < desired@.len() ==> {
                        &&& (#[trigger] desired@[i]).0 == all[i].0
                        &&& self.source_info_of(all[i].0.0 as int) matches Some(info)
                            && info.user_data == *desired@[i].1
                        &&& desired@[i].2 == converted(all[i].1, self.settings().full_mode)
                    },
            decreases remaining.len(),
        {
            let ghost at = desired@.len() as int;
            let (source_id, wanted) = remaining.remove(0);
            proof {
                assert((source_id, wanted) == all[at]);
                assert(remaining@ =~= all.skip(at + 1));
            }
            let request = match wanted {
                StrategyDesiredRequest::AllForks(params) => all_forks_request_convert(
                    params,
                    self.full_mode,
                ),
                StrategyDesiredRequest::Optimistic(detail) => optimistic_request_convert(
                    detail,
                    self.full_mode,
                ),
                StrategyDesiredRequest::WarpSync(request) => request,
            };
            let user_data: &TSrc = self.source_user_data(source_id);
            desired.push((source_id, user_data, request));
        }
        desired
    }

    /// Returns a list of requests that are considered obsolete and can be removed using
    /// [`AllSync::blocks_request_response`] or similar: those that the strategy considers
    /// obsolete, given as `strategy`, then those that no strategy took, in the order of their
    /// identifiers. While the warp syncing is the strategy, none is returned.
    ///
    /// A request becomes obsolete if the state of the request blocks changes in such a way that
    /// they don't need to be requested anymore. The response to the request will be useless.
    ///
    /// > **Note**: It is in no way mandatory to actually call this function and cancel the
    /// >           requests that are returned.
    pub fn obsolete_requests(&self, strategy: Vec<RequestId>) -> (obsolete: Vec<RequestId>)
        requires
            self.wf(),
        ensures
            self.active() is GrandpaWarpSync ==> obsolete@.len() == 0,
            !(self.active() is GrandpaWarpSync) ==> {
                &&& obsolete@.len() >= strategy@.len()
                &&& forall|i: int| 0 <= i < strategy@.len() ==> obsolete@[i] == strategy@[i]
                &&& forall|i: int|
                    strategy@.len() <= i < obsolete@.len() ==> self.request_map().contains_key(
                        (#[trigger] obsolete@[i]).0,
                    ) && self.request_map()[obsolete@[i].0] is Inline
                &&& forall|i: int, j: int|
                    strategy@.len() <= i < j < obsolete@.len() ==> obsolete@[i].0 < obsolete@[j].0
                &&& forall|k: usize|
                    self.request_map().contains_key(k) && self.request_map()[k] is Inline
                        ==> exists|i: int|
                        strategy@.len() <= i < obsolete@.len() && (#[trigger] obsolete@[i]).0 == k
            },
    {
        match self.strategy {
            Strategy::GrandpaWarpSync { .. } => {
                return Vec::new();
            },
            _ => {},
        }
        let mut obsolete = strategy;
        let ghost first = obsolete@;
        let mut k: usize = 0;
        while k < self.request_info.len()
            invariant
                self.wf(),
                k <= self.request_info@.len(),
                obsolete@.len() >= first.len(),
                forall|i: int| 0 <= i < first.len() ==> obsolete@[i] == first[i],
                forall|i: int|
                    first.len() <= i < obsolete@.len() ==> self.request_map().contains_key(
                        (#[trigger] obsolete@[i]).0,
                    ) && self.request_map()[obsolete@[i].0] is Inline && obsolete@[i].0 < k,
                forall|i: int, j: int|
                    first.len() <= i < j < obsolete@.len() ==> obsolete@[i].0 < obsolete@[j].0,
                forall|l: usize|
                    l < k && self.request_map().contains_key(l) && self.request_map()[l] is Inline
                        ==> exists|i: int|
                        first.len() <= i < obsolete@.len() && (#[trigger] obsolete@[i]).0 == l,
            decreases self.request_info.len() - k,
        {
            match slab_get(&self.requests, k) {
                Some(Mapping::Inline) => {
                    let ghost before = obsolete@;
                    obsolete.push(RequestId(k));
                    proof {
                        assert forall|l: usize|
                            l < k + 1 && self.request_map().contains_key(l)
                                && self.request_map()[l] is Inline implies exists|i: int|
                            first.len() <= i < obsolete@.len() && (#[trigger] obsolete@[i]).0
                                == l by {
                            if l < k {
                                let i = choose|i: int|
                                    first.len() <= i < before.len() && (#[trigger] before[i]).0
                                        == l;
                                assert(obsolete@[i].0 == l);
                            } else {
                                assert(obsolete@[before.len() as int].0 == l);
                            }
                        }
                    }
                },
                _ => {},
            }
            k = k + 1;
        }
        proof {
            assert forall|l: usize| self.request_map().contains_key(l) implies l
                < self.request_info@.len() by {
                assert(self.request_info_of(l as int) is Some);
            }
        }
        obsolete
    }

    /// Returns the current status of the syncing, given where the warp syncing stands if it
    /// is in progress. The sources that it names must be sources.
    pub fn status(&self, warp_sync: Option<WarpSyncStatus>) -> (status: Status<'_, TSrc>)
        requires
            self.wf(),
            warp_sync is Some <==> self.active() == (Strategy::GrandpaWarpSync { finished: false }),
            warp_sync matches Some(WarpSyncStatus::Fragments { source: Some(inner), .. })
                ==> self.inner_in_use(inner),
            warp_sync matches Some(WarpSyncStatus::ChainInformation { source, .. })
                ==> self.inner_in_use(source),
        ensures
            match warp_sync {
                None => status is Sync,
                Some(
                    WarpSyncStatus::Fragments {
                        source,
                        finalized_block_hash: hash,
                        finalized_block_number: number,
                    },
                ) => {
                    &&& status matches Status::WarpSyncFragments {
                        source: from,
                        finalized_block_hash,
                        finalized_block_number,
                    }
                    &&& finalized_block_hash == hash
                    &&& finalized_block_number == number
                    &&& match from {
                        Some((id, user_data)) => {
                            &&& source matches Some(inner)
                            &&& self.source_map().contains_key(id.0)
                            &&& self.source_map()[id.0] == Mapping::GrandpaWarpSync(inner)
                            &&& self.source_info_of(id.0 as int).unwrap().user_data == *user_data
                        },
                        None => source is None,
                    }
                },
                Some(
                    WarpSyncStatus::ChainInformation {
                        source,
                        finalized_block_hash: hash,
                        finalized_block_number: number,
                    },
                ) => {
                    &&& status matches Status::WarpSyncChainInformation {
                        source: from,
                        finalized_block_hash,
                        finalized_block_number,
                    }
                    &&& finalized_block_hash == hash
                    &&& finalized_block_number == number
                    &&& self.source_map().contains_key(from.0.0)
                    &&& self.source_map()[from.0.0] == Mapping::GrandpaWarpSync(source)
                    &&& self.source_info_of(from.0.0 as int).unwrap().user_data == *from.1
                },
            },
    {
        match warp_sync {
            None => Status::Sync,
            Some(
                WarpSyncStatus::Fragments { source, finalized_block_hash, finalized_block_number },
            ) => {
                let source = match source {
                    Some(inner) => match self.source_of_inner(inner) {
                        Some(id) => Some((id, self.source_user_data(id))),
                        None => vstd::pervasive::unreached(),
                    },
                    None => None,
                };
                Status::WarpSyncFragments { source, finalized_block_hash, finalized_block_number }
            },
            Some(
                WarpSyncStatus::ChainInformation {
                    source,
                    finalized_block_hash,
                    finalized_block_number,
                },
            ) => {
                let id = match self.source_of_inner(source) {
                    Some(id) => id,
                    None => vstd::pervasive::unreached(),
                };
                Status::WarpSyncChainInformation {
                    source: (id, self.source_user_data(id)),
                    finalized_block_hash,
                    finalized_block_number,
                }
            },
        }
    }

    /// Returns the sources, in the order of their identifiers, with what the all-forks syncing
    /// needs to know of each when it takes over from the warp syncing.
    pub fn transition_sources(&self) -> (sources: Vec<TransitionSource>)
        requires
            self.wf(),
        ensures
            forall|i: int|
                0 <= i < sources@.len() ==> {
                    let id = (#[trigger] sources@[i]).source_id.0;
                    &&& self.source_map().contains_key(id)
                    &&& self.source_info_of(id as int) matches Some(info)
                    &&& sources@[i].best_block_number == info.best_block_number
                    &&& sources@[i].best_block_hash == info.best_block_hash
                    &&& sources@[i].finalized_block_height == info.finalized_block_height
                },
            forall|i: int, j: int|
                0 <= i < j < sources@.len() ==> sources@[i].source_id.0 < sources@[j].source_id.0,
            forall|k: usize|
                self.source_map().contains_key(k) ==> exists|i: int|
                    0 <= i < sources@.len() && (#[trigger] sources@[i]).source_id.0 == k,
    {
        let mut sources: Vec<TransitionSource> = Vec::new();
        let mut k: usize = 0;
        while k < self.source_info.len()
            invariant
                self.wf(),
                k <= self.source_info@.len(),
                forall|i: int|
                    0 <= i < sources@.len() ==> {
                        let id = (#[trigger] sources@[i]).source_id.0;
                        &&& id < k
                        &&& self.source_map().contains_key(id)
                        &&& self.source_info_of(id as int) matches Some(info)
                        &&& sources@[i].best_block_number == info.best_block_number
                        &&& sources@[i].best_block_hash == info.best_block_hash
                        &&& sources@[i].finalized_block_height == info.finalized_block_height
                    },
                forall|i: int, j: int|
                    0 <= i < j < sources@.len() ==> sources@[i].source_id.0
                        < sources@[j].source_id.0,
                forall|l: usize|
                    l < k && self.source_map().contains_key(l) ==> exists|i: int|
                        0 <= i < sources@.len() && (#[trigger] sources@[i]).source_id.0 == l,
            decreases self.source_info.len() - k,
        {
            proof {
                assert(self.source_info_of(k as int) == self.source_info@[k as int]);
                assert(self.source_map().contains_key(k) <==> self.source_info_of(k as int) is Some);
            }
            match &self.source_info[k] {
                Some(info) => {
                    let ghost before = sources@;
                    sources.push(
                        TransitionSource {
                            source_id: SourceId(k),
                            best_block_number: info.best_block_number,
                            best_block_hash: info.best_block_hash,
                            finalized_block_height: info.finalized_block_height,
                        },
                    );
                    proof {
                        assert forall|l: usize|
                            l < k + 1 && self.source_map().contains_key(l) implies exists|i: int|
                            0 <= i < sources@.len() && (#[trigger] sources@[i]).source_id.0
                                == l by {
                            if l < k {
                                let i = choose|i: int|
                                    0 <= i < before.len() && (#[trigger] before[i]).source_id.0
                                        == l;
                                assert(sources@[i].source_id.0 == l);
                            } else {
                                assert(sources@[before.len() as int].source_id.0 == l);
                            }
                        }
                    }
                },
                None => {},
            }
            k = k + 1;
        }
        proof {
            assert forall|l: usize| self.source_map().contains_key(l) implies l
                < self.source_info@.len() by {
                assert(self.source_info_of(l as int) is Some);
            }
        }
        sources
    }
}

/// Whether `plan` names every source of `sources` once, in the order of the identifiers, each
/// with a number of its own.
pub open spec fn is_plan(sources: Map<usize, Mapping>, plan: Seq<(SourceId, u64)>) -> bool {
    &&& forall|i: int| 0 <= i < plan.len() ==> sources.contains_key((#[trigger] plan[i]).0.0)
    &&& forall|i: int, j: int| 0 <= i < j < plan.len() ==> plan[i].0.0 < plan[j].0.0
    &&& forall|i: int, j: int| 0 <= i < j < plan.len() ==> plan[i].1 != plan[j].1
    &&& forall|k: usize|
        sources.contains_key(k) ==> exists|i: int|
            0 <= i < plan.len() && (#[trigger] plan[i]).0.0 == k
}

impl<TRq, TSrc> AllSync<TRq, TSrc> {
    /// Whether `self` is `before` once the all-forks syncing has taken over from the warp
    /// syncing, and knows each source by the number that `plan` gives.
    ///
    /// Every source and every request stays, under the identifier that it had, and what was
    /// said of it stays. Every source is a source of the all-forks syncing, and no request is
    /// the request of a strategy any longer.
    pub open spec fn is_transition_of(&self, before: &Self, plan: Seq<(SourceId, u64)>) -> bool {
        &&& self.active() == Strategy::AllForks
        &&& self.settings() == before.settings()
        &&& forall|k: usize|
            self.source_map().contains_key(k) <==> before.source_map().contains_key(k)
        &&& forall|i: int|
            0 <= i < plan.len() ==> self.source_map()[(#[trigger] plan[i]).0.0]
                == Mapping::AllForks(plan[i].1)
        &&& forall|k: int| self.source_info_of(k) == before.source_info_of(k)
        &&& forall|k: usize|
            self.request_map().contains_key(k) <==> before.request_map().contains_key(k)
        &&& forall|k: usize| #[trigger]
            self.request_map().contains_key(k) ==> self.request_map()[k] == Mapping::Inline
        &&& forall|k: int| self.request_info_of(k) == before.request_info_of(k)
    }

    /// Transitions the sync state machine from the grandpa warp strategy to the "all-forks"
    /// strategy, which knows each source by the number that `plan` gives.
    ///
    /// The warp syncing must be finished, and `plan` must name every source once, in the
    /// order of the identifiers, each with a number of its own.
    pub fn transition_grandpa_warp_sync_all_forks(&mut self, plan: &Vec<(SourceId, u64)>)
        requires
            old(self).wf(),
            old(self).active() == (Strategy::GrandpaWarpSync { finished: true }),
            is_plan(old(self).source_map(), plan@),
        ensures
            final(self).wf(),
            final(self).is_transition_of(old(self), plan@),
    {
        let mut i: usize = 0;
        while i < plan.len()
            invariant
                i <= plan@.len(),
                is_plan(old(self).source_map(), plan@),
                forall|k: usize|
                    self.source_map().contains_key(k) <==> old(self).source_map().contains_key(k),
                forall|j: int|
                    0 <= j < i ==> self.source_map()[(#[trigger] plan@[j]).0.0]
                        == Mapping::AllForks(plan@[j].1),
                self.source_info == old(self).source_info,
                self.requests == old(self).requests,
                self.request_info == old(self).request_info,
                self.strategy == old(self).strategy,
                self.settings() == old(self).settings(),
            decreases plan.len() - i,
        {
            let key: usize = plan[i].0.0;
            let ghost before = self.source_map();
            slab_set(&mut self.sources, key, Mapping::AllForks(plan[i].1));
            proof {
                assert forall|j: int| 0 <= j < i + 1 implies self.source_map()[(
                #[trigger] plan@[j]).0.0] == Mapping::AllForks(plan@[j].1) by {
                    if j < i {
                        assert(plan@[j].0.0 < plan@[i as int].0.0);
                        assert(before[plan@[j].0.0] == Mapping::AllForks(plan@[j].1));
                    }
                }
            }
            i = i + 1;
        }
        let ghost sources_done = self.source_map();
        let mut k: usize = 0;
        while k < self.request_info.len()
            invariant
                k <= self.request_info@.len(),
                old(self).wf(),
                old(self).active() == (Strategy::GrandpaWarpSync { finished: true }),
                self.source_map() == sources_done,
                self.source_info == old(self).source_info,
                self.request_info == old(self).request_info,
                self.strategy == old(self).strategy,
                self.settings() == old(self).settings(),
                forall|l: usize|
                    self.request_map().contains_key(l) <==> old(self).request_map().contains_key(
                        l,
                    ),
                forall|l: usize|
                    l < k && #[trigger] self.request_map().contains_key(l)
                        ==> self.request_map()[l] == Mapping::Inline,
                forall|l: usize|
                    k <= l && #[trigger] self.request_map().contains_key(l)
                        ==> self.request_map()[l] == old(self).request_map()[l],
            decreases self.request_info.len() - k,
        {
            let ghost before = self.request_map();
            match slab_get(&self.requests, k) {
                Some(Mapping::Inline) => {},
                Some(_) => {
                    slab_set(&mut self.requests, k, Mapping::Inline);
                },
                None => {},
            }
            proof {
                assert forall|l: usize|
                    l < k + 1 && #[trigger] self.request_map().contains_key(
                        l,
                    ) implies self.request_map()[l] == Mapping::Inline by {
                    if l < k {
                        assert(before.contains_key(l));
                    }
                }
                assert forall|l: usize|
                    k + 1 <= l && #[trigger] self.request_map().contains_key(
                        l,
                    ) implies self.request_map()[l] == old(self).request_map()[l] by {
                    assert(before.contains_key(l));
                }
            }
            k = k + 1;
        }
        self.strategy = Strategy::AllForks;
        proof {
            assert forall|l: usize| #[trigger]
                self.request_map().contains_key(l) implies self.request_map()[l]
                == Mapping::Inline by {
                assert(old(self).request_map().contains_key(l));
                assert(old(self).request_info_of(l as int) is Some);
                assert(l < self.request_info@.len());
            }
            assert forall|l: usize| #[trigger]
                self.source_map().contains_key(l) <==> self.source_info_of(l as int) is Some by {
                assert(old(self).source_map().contains_key(l) <==> old(self).source_info_of(
                    l as int,
                ) is Some);
            }
            assert forall|l: usize| #[trigger]
                self.request_map().contains_key(l) <==> self.request_info_of(l as int) is Some by {
                assert(old(self).request_map().contains_key(l) <==> old(self).request_info_of(
                    l as int,
                ) is Some);
            }
            assert forall|l: usize| #[trigger] self.source_map().contains_key(l) implies fits(
                self.active(),
                self.source_map()[l],
            ) by {
                let at = choose|at: int| 0 <= at < plan@.len() && (#[trigger] plan@[at]).0.0 == l;
                assert(self.source_map()[plan@[at].0.0] == Mapping::AllForks(plan@[at].1));
            }
            assert forall|a: usize, b: usize|
                #![trigger self.source_map()[a], self.source_map()[b]]
                self.source_map().contains_key(a) && self.source_map().contains_key(b) && a
                    != b implies self.source_map()[a] != self.source_map()[b] by {
                let x = choose|x: int| 0 <= x < plan@.len() && (#[trigger] plan@[x]).0.0 == a;
                let y = choose|y: int| 0 <= y < plan@.len() && (#[trigger] plan@[y]).0.0 == b;
                assert(self.source_map()[plan@[x].0.0] == Mapping::AllForks(plan@[x].1));
                assert(self.source_map()[plan@[y].0.0] == Mapping::AllForks(plan@[y].1));
                if x < y {
                    assert(plan@[x].1 != plan@[y].1);
                } else {
                    assert(plan@[y].1 != plan@[x].1);
                }
            }
        }
    }
}

/// What the strategy that is syncing has to do next.
#[derive(Debug, PartialEq, Eq)]
pub enum StrategyStep {
    /// Nothing.
    Idle,
    /// The warp syncing has a warp sync fragment to verify.
    VerifyWarpSyncFragment,
    /// The warp syncing has the runtime to build.
    BuildRuntime,
    /// The warp syncing has the chain information to build.
    BuildChainInformation,
    /// The all-forks or the optimistic syncing has a block to verify.
    BlockVerify,
    /// The all-forks or the optimistic syncing has a proof of finality to verify.
    FinalityProofVerify,
    /// The warp syncing is finished, and the all-forks syncing was started with the sources
    /// (see [`AllSync::transition_sources`]).
    AllForksStarted {
        /// Each source with the number by which the all-forks syncing knows it.
        plan: Vec<(SourceId, u64)>,
        /// Storage value at the `:code` key of the finalized block.
        finalized_storage_code: Option<Vec<u8>>,
        /// Storage value at the `:heappages` key of the finalized block.
        finalized_storage_heap_pages: Option<Vec<u8>>,
    },
}

/// Whether `step` is something that the strategy `strategy` can have to do.
pub open spec fn step_fits(strategy: Strategy, step: StrategyStep) -> bool {
    match step {
        StrategyStep::Idle => strategy != (Strategy::GrandpaWarpSync { finished: true }),
        StrategyStep::VerifyWarpSyncFragment
        | StrategyStep::BuildRuntime
        | StrategyStep::BuildChainInformation => strategy == (Strategy::GrandpaWarpSync {
            finished: false,
        }),
        StrategyStep::BlockVerify | StrategyStep::FinalityProofVerify => strategy
            == Strategy::AllForks || strategy == Strategy::Optimistic,
        StrategyStep::AllForksStarted { .. } => strategy == (Strategy::GrandpaWarpSync {
            finished: true,
        }),
    }
}

/// Outcome of calling [`AllSync::process_one`].
pub enum ProcessOne<TRq, TSrc> {
    /// No block ready to be processed.
    AllSync(AllSync<TRq, TSrc>),
    /// Building the runtime is necessary in order for the warp syncing to continue.
    WarpSyncBuildRuntime(WarpSyncBuildRuntime<TRq, TSrc>),
    /// Building the chain information is necessary in order for the warp syncing to continue.
    WarpSyncBuildChainInformation(WarpSyncBuildChainInformation<TRq, TSrc>),
    /// Response has made it possible to finish warp syncing.
    WarpSyncFinished {
        sync: AllSync<TRq, TSrc>,
        /// Storage value at the `:code` key of the finalized block.
        finalized_storage_code: Option<Vec<u8>>,
        /// Storage value at the `:heappages` key of the finalized block.
        finalized_storage_heap_pages: Option<Vec<u8>>,
    },
    /// Ready to start verifying a block.
    VerifyBlock(BlockVerify<TRq, TSrc>),
    /// Ready to start verifying a proof of finality.
    VerifyFinalityProof(FinalityProofVerify<TRq, TSrc>),
    /// Ready to start verifying a warp sync fragment.
    VerifyWarpSyncFragment(WarpSyncFragmentVerify<TRq, TSrc>),
}

/// A block is to be verified.
pub struct BlockVerify<TRq, TSrc> {
    shared: AllSync<TRq, TSrc>,
}

/// The header of a block was verified.
pub struct HeaderVerifySuccess<TRq, TSrc> {
    shared: AllSync<TRq, TSrc>,
}

/// A proof of finality is to be verified.
pub struct FinalityProofVerify<TRq, TSrc> {
    shared: AllSync<TRq, TSrc>,
}

/// A warp sync fragment is to be verified.
pub struct WarpSyncFragmentVerify<TRq, TSrc> {
    shared: AllSync<TRq, TSrc>,
}

/// Compiling a new runtime is necessary for the warp sync process.
pub struct WarpSyncBuildRuntime<TRq, TSrc> {
    shared: AllSync<TRq, TSrc>,
}

/// Building the chain information is necessary for the warp sync process.
pub struct WarpSyncBuildChainInformation<TRq, TSrc> {
    shared: AllSync<TRq, TSrc>,
}

/// How the verification of a header went.
#[derive(Debug, Copy, Clone, PartialEq, Eq)]
pub enum HeaderVerification {
    /// The all-forks syncing has verified the header.
    AllForksSuccess { is_new_best: bool },
    /// The all-forks syncing has found the header bad.
    AllForksError(HeaderVerifyError),
    /// The optimistic syncing has verified the header, and the block is the new best block.
    OptimisticNewBest,
    /// The optimistic syncing has found the block bad and is back at the finalized block.
    OptimisticReset,
}

/// Outcome of calling [`BlockVerify::verify_header`].
pub enum HeaderVerifyOutcome<TRq, TSrc> {
    /// Header has been successfully verified.
    Success {
        /// True if the newly-verified block is considered the new best block.
        is_new_best: bool,
        success: HeaderVerifySuccess<TRq, TSrc>,
    },
    /// Header verification failed.
    Error {
        /// State machine yielded back. Use to continue the processing.
        sync: AllSync<TRq, TSrc>,
        /// Error that happened.
        error: HeaderVerifyError,
    },
}

/// How the verification of a proof of finality went.
#[allow(inconsistent_fields)]
pub enum FinalityProofVerification<TBl> {
    /// The all-forks syncing has finalized the blocks given here by their SCALE-encoded
    /// header and their user data, in decreasing block number.
    AllForksNewFinalized { finalized_blocks: Vec<(Vec<u8>, Option<TBl>)>, updates_best_block: bool },
    /// The all-forks syncing had finalized the block already.
    AllForksAlreadyFinalized,
    /// The all-forks syncing has kept the GrandPa commit for later.
    AllForksGrandpaCommitPending,
    /// The all-forks syncing has found the justification bad.
    AllForksJustificationError,
    /// The all-forks syncing has found the GrandPa commit bad.
    AllForksGrandpaCommitError,
    /// The optimistic syncing has finalized the blocks given here.
    OptimisticFinalized { finalized_blocks: Vec<Block<TBl>> },
    /// The optimistic syncing has found the justification bad and is back at the finalized
    /// block.
    OptimisticReset,
}

/// The blocks that the all-forks syncing has finalized, as they are reported: without
/// justifications and without body.
pub open spec fn reported_blocks<TBl>(
    finalized: Seq<(Vec<u8>, Option<TBl>)>,
    blocks: Seq<Block<TBl>>,
) -> bool {
    &&& blocks.len() == finalized.len()
    &&& forall|i: int|
        0 <= i < blocks.len() ==> {
            &&& (#[trigger] blocks[i]).scale_encoded_header == finalized[i].0
            &&& blocks[i].justifications@.len() == 0
            &&& Some(blocks[i].user_data) == finalized[i].1
            &&& blocks[i].full is None
        }
}

impl<TRq, TSrc> AllSync<TRq, TSrc> {
    /// Process the next block in the queue of verification, given what the strategy has to do
    /// next.
    ///
    /// If the warp syncing is finished, the all-forks syncing takes over: see
    /// [`AllSync::is_transition_of`]. Else the state machine is kept until what is to be done
    /// is done.
    ///
    /// This method takes ownership of the [`AllSync`] and starts a verification process. The
    /// [`AllSync`] is yielded back at the end of this process.
    pub fn process_one(self, step: StrategyStep) -> (next: ProcessOne<TRq, TSrc>)
        requires
            self.wf(),
            step_fits(self.active(), step),
            step matches StrategyStep::AllForksStarted { plan, .. } ==> is_plan(
                self.source_map(),
                plan@,
            ),
        ensures
            match step {
                StrategyStep::Idle => next matches ProcessOne::AllSync(sync) && sync == self,
                StrategyStep::VerifyWarpSyncFragment => next matches ProcessOne::VerifyWarpSyncFragment(
                    verify,
                ) && verify.sync() == self,
                StrategyStep::BuildRuntime => next matches ProcessOne::WarpSyncBuildRuntime(build)
                    && build.sync() == self,
                StrategyStep::BuildChainInformation => next matches ProcessOne::WarpSyncBuildChainInformation(
                    build,
                ) && build.sync() == self,
                StrategyStep::BlockVerify => next matches ProcessOne::VerifyBlock(verify)
                    && verify.sync() == self,
                StrategyStep::FinalityProofVerify => next matches ProcessOne::VerifyFinalityProof(
                    verify,
                ) && verify.sync() == self,
                StrategyStep::AllForksStarted {
                    plan,
                    finalized_storage_code: code,
                    finalized_storage_heap_pages: heap_pages,
                } => next matches ProcessOne::WarpSyncFinished {
                    sync,
                    finalized_storage_code,
                    finalized_storage_heap_pages,
                } && sync.wf() && sync.is_transition_of(&self, plan@) && finalized_storage_code
                    == code && finalized_storage_heap_pages == heap_pages,
            },
    {
        match step {
            StrategyStep::Idle => ProcessOne::AllSync(self),
            StrategyStep::VerifyWarpSyncFragment => ProcessOne::VerifyWarpSyncFragment(
                WarpSyncFragmentVerify { shared: self },
            ),
            StrategyStep::BuildRuntime => ProcessOne::WarpSyncBuildRuntime(
                WarpSyncBuildRuntime { shared: self },
            ),
            StrategyStep::BuildChainInformation => ProcessOne::WarpSyncBuildChainInformation(
                WarpSyncBuildChainInformation { shared: self },
            ),
            StrategyStep::BlockVerify => ProcessOne::VerifyBlock(BlockVerify { shared: self }),
            StrategyStep::FinalityProofVerify => ProcessOne::VerifyFinalityProof(
                FinalityProofVerify { shared: self },
            ),
            StrategyStep::AllForksStarted {
                plan,
                finalized_storage_code,
                finalized_storage_heap_pages,
            } => {
                let mut sync = self;
                sync.transition_grandpa_warp_sync_all_forks(&plan);
                ProcessOne::WarpSyncFinished {
                    sync,
                    finalized_storage_code,
                    finalized_storage_heap_pages,
                }
            },
        }
    }
}

impl<TRq, TSrc> BlockVerify<TRq, TSrc> {
    /// The state machine.
    pub closed spec fn sync(&self) -> AllSync<TRq, TSrc> {
        self.shared
    }

    /// Takes note of how the verification of the header went.
    ///
    /// A block that the optimistic syncing has verified is the new best block. What it finds
    /// wrong with a block is reported as a mismatch of consensus.
    pub fn verify_header(self, verification: HeaderVerification) -> (outcome: HeaderVerifyOutcome<
        TRq,
        TSrc,
    >)
        ensures
            match verification {
                HeaderVerification::AllForksSuccess {
                    is_new_best: best,
                } => outcome matches HeaderVerifyOutcome::Success { is_new_best, success }
                    && is_new_best == best && success.sync() == self.sync(),
                HeaderVerification::OptimisticNewBest => outcome matches HeaderVerifyOutcome::Success {
                    is_new_best,
                    success,
                } && is_new_best && success.sync() == self.sync(),
                HeaderVerification::AllForksError(
                    wrong,
                ) => outcome matches HeaderVerifyOutcome::Error { sync, error } && sync
                    == self.sync() && error == wrong,
                HeaderVerification::OptimisticReset => outcome matches HeaderVerifyOutcome::Error {
                    sync,
                    error,
                } && sync == self.sync() && error == HeaderVerifyError::ConsensusMismatch,
            },
    {
        match verification {
            HeaderVerification::AllForksSuccess { is_new_best } => HeaderVerifyOutcome::Success {
                is_new_best,
                success: HeaderVerifySuccess { shared: self.shared },
            },
            HeaderVerification::OptimisticNewBest => HeaderVerifyOutcome::Success {
                is_new_best: true,
                success: HeaderVerifySuccess { shared: self.shared },
            },
            HeaderVerification::AllForksError(error) => HeaderVerifyOutcome::Error {
                sync: self.shared,
                error,
            },
            HeaderVerification::OptimisticReset => HeaderVerifyOutcome::Error {
                sync: self.shared,
                error: HeaderVerifyError::ConsensusMismatch,
            },
        }
    }
}

impl<TRq, TSrc> HeaderVerifySuccess<TRq, TSrc> {
    /// The state machine.
    pub closed spec fn sync(&self) -> AllSync<TRq, TSrc> {
        self.shared
    }

    /// Reject the block and mark it as bad.
    pub fn reject_bad_block(self) -> (sync: AllSync<TRq, TSrc>)
        ensures
            sync == self.sync(),
    {
        self.shared
    }

    /// Finish inserting the block header.
    pub fn finish(self) -> (sync: AllSync<TRq, TSrc>)
        ensures
            sync == self.sync(),
    {
        self.shared
    }
}

impl<TRq, TSrc> FinalityProofVerify<TRq, TSrc> {
    /// The state machine.
    pub closed spec fn sync(&self) -> AllSync<TRq, TSrc> {
        self.shared
    }

    /// Takes note of how the verification went.
    ///
    /// The blocks that the all-forks syncing has finalized must all have user data. They are
    /// reported without justifications and without body. What the optimistic syncing has
    /// finalized never moves the best block, and what it finds wrong is an error of the
    /// justification.
    pub fn perform<TBl>(self, verification: FinalityProofVerification<TBl>) -> (performed: (
        AllSync<TRq, TSrc>,
        FinalityProofVerifyOutcome<TBl>,
    ))
        requires
            verification matches FinalityProofVerification::AllForksNewFinalized {
                finalized_blocks,
                ..
            } ==> forall|i: int|
                0 <= i < finalized_blocks@.len() ==> (#[trigger] finalized_blocks@[i]).1 is Some,
        ensures
            performed.0 == self.sync(),
            match verification {
                FinalityProofVerification::AllForksNewFinalized {
                    finalized_blocks: finalized,
                    updates_best_block: updates,
                } => performed.1 matches FinalityProofVerifyOutcome::NewFinalized {
                    finalized_blocks,
                    updates_best_block,
                } && updates_best_block == updates && reported_blocks(
                    finalized@,
                    finalized_blocks@,
                ),
                FinalityProofVerification::AllForksAlreadyFinalized => performed.1 is AlreadyFinalized,
                FinalityProofVerification::AllForksGrandpaCommitPending => performed.1 is GrandpaCommitPending,
                FinalityProofVerification::AllForksJustificationError => performed.1 is JustificationError,
                FinalityProofVerification::AllForksGrandpaCommitError => performed.1 is GrandpaCommitError,
                FinalityProofVerification::OptimisticFinalized {
                    finalized_blocks: finalized,
                } => performed.1 matches FinalityProofVerifyOutcome::NewFinalized {
                    finalized_blocks,
                    updates_best_block,
                } && !updates_best_block && finalized_blocks == finalized,
                FinalityProofVerification::OptimisticReset => performed.1 is JustificationError,
            },
    {
        let outcome = match verification {
            FinalityProofVerification::AllForksNewFinalized {
                finalized_blocks,
                updates_best_block,
            } => {
                let mut remaining = finalized_blocks;
                let ghost all = remaining@;
                let mut blocks: Vec<Block<TBl>> = Vec::new();
                while remaining.len() > 0
                    invariant
                        blocks@.len() + remaining@.len() == all.len(),
                        remaining@ == all.skip(blocks@.len() as int),
                        forall|i: int| 0 <= i < all.len() ==> (#[trigger] all[i]).1 is Some,
                        forall|i: int|
                            0 <= i < blocks@.len() ==> {
                                &&& (#[trigger] blocks@[i]).scale_encoded_header == all[i].0
                                &&& blocks@[i].justifications@.len() == 0
                                &&& Some(blocks@[i].user_data) == all[i].1
                                &&& blocks@[i].full is None
                            },
                    decreases remaining.len(),
                {
                    let ghost at = blocks@.len() as int;
                    let (scale_encoded_header, user_data) = remaining.remove(0);
                    proof {
                        assert((scale_encoded_header, user_data) == all[at]);
                        assert(remaining@ =~= all.skip(at + 1));
                    }
                    let user_data = match user_data {
                        Some(user_data) => user_data,
                        None => vstd::pervasive::unreached(),
                    };
                    blocks.push(
                        Block {
                            scale_encoded_header,
                            justifications: Vec::new(),
                            user_data,
                            full: None,
                        },
                    );
                }
                FinalityProofVerifyOutcome::NewFinalized {
                    finalized_blocks: blocks,
                    updates_best_block,
                }
            },
            FinalityProofVerification::AllForksAlreadyFinalized => FinalityProofVerifyOutcome::AlreadyFinalized,
            FinalityProofVerification::AllForksGrandpaCommitPending => FinalityProofVerifyOutcome::GrandpaCommitPending,
            FinalityProofVerification::AllForksJustificationError => FinalityProofVerifyOutcome::JustificationError,
            FinalityProofVerification::AllForksGrandpaCommitError => FinalityProofVerifyOutcome::GrandpaCommitError,
            FinalityProofVerification::OptimisticFinalized {
                finalized_blocks,
            } => FinalityProofVerifyOutcome::NewFinalized {
                finalized_blocks,
                updates_best_block: false,
            },
            FinalityProofVerification::OptimisticReset => FinalityProofVerifyOutcome::JustificationError,
        };
        (self.shared, outcome)
    }
}

impl<TRq, TSrc> WarpSyncFragmentVerify<TRq, TSrc> {
    /// The state machine.
    pub closed spec fn sync(&self) -> AllSync<TRq, TSrc> {
        self.shared
    }

    /// Returns the identifier and user data of the source that has sent the fragment to be
    /// verified, which the warp syncing knows as `inner_source`.
    pub fn proof_sender(&self, inner_source: u64) -> (sender: (SourceId, &TSrc))
        requires
            self.sync().wf(),
            self.sync().inner_in_use(inner_source),
        ensures
            self.sync().source_map().contains_key(sender.0.0),
            self.sync().source_map()[sender.0.0] == mapped(self.sync().active(), inner_source),
            self.sync().source_info_of(sender.0.0 as int).unwrap().user_data == *sender.1,
    {
        match self.shared.source_of_inner(inner_source) {
            Some(id) => (id, self.shared.source_user_data(id)),
            None => vstd::pervasive::unreached(),
        }
    }

    /// Takes note of what the verification has found wrong, if anything, and hands the state
    /// machine back.
    pub fn perform<TErr>(self, error: Option<TErr>) -> (performed: (
        AllSync<TRq, TSrc>,
        Result<(), TErr>,
    ))
        ensures
            performed.0 == self.sync(),
            performed.1 == (match error {
                Some(error) => Err::<(), TErr>(error),
                None => Ok::<(), TErr>(()),
            }),
    {
        let result = match error {
            Some(error) => Err(error),
            None => Ok(()),
        };
        (self.shared, result)
    }
}

impl<TRq, TSrc> AllSync<TRq, TSrc> {
    /// Whether `self` is `before`, with the warp syncing finished if `finished`.
    pub open spec fn is_built_of(&self, before: &Self, finished: bool) -> bool {
        &&& self.active() == (Strategy::GrandpaWarpSync { finished })
        &&& self.same_sources(before)
        &&& self.same_requests(before)
    }

    /// Takes note of whether the warp syncing is finished.
    fn built(self, finished: bool) -> (sync: Self)
        requires
            self.wf(),
            self.active() is GrandpaWarpSync,
        ensures
            sync.wf(),
            sync.is_built_of(&self, finished),
    {
        let mut sync = self;
        sync.strategy = Strategy::GrandpaWarpSync { finished };
        proof {
            assert(sync.source_map() == self.source_map());
            assert(sync.request_map() == self.request_map());
            assert forall|k: usize| #[trigger]
                sync.source_map().contains_key(k) <==> sync.source_info_of(k as int) is Some by {
                assert(self.source_map().contains_key(k) <==> self.source_info_of(k as int) is Some);
            }
            assert forall|k: usize| #[trigger]
                sync.request_map().contains_key(k) <==> sync.request_info_of(
                    k as int,
                ) is Some by {
                assert(self.request_map().contains_key(k) <==> self.request_info_of(
                    k as int,
                ) is Some);
            }
            assert forall|k: usize, l: usize|
                #![trigger sync.source_map()[k], sync.source_map()[l]]
                sync.source_map().contains_key(k) && sync.source_map().contains_key(l) && k
                    != l implies sync.source_map()[k] != sync.source_map()[l] by {
                assert(self.source_map().contains_key(k));
                assert(self.source_map().contains_key(l));
            }
            assert forall|k: usize| #[trigger] sync.source_map().contains_key(k) implies fits(
                sync.active(),
                sync.source_map()[k],
            ) by {
                assert(self.source_map().contains_key(k));
            }
            assert forall|k: usize| #[trigger]
                sync.request_map().contains_key(k) implies sync.request_map()[k] is Inline
                || fits(sync.active(), sync.request_map()[k]) by {
                assert(self.request_map().contains_key(k));
            }
        }
        sync
    }
}

impl<TRq, TSrc> WarpSyncBuildRuntime<TRq, TSrc> {
    /// The state machine.
    pub closed spec fn sync(&self) -> AllSync<TRq, TSrc> {
        self.shared
    }

    /// Takes note of how building the runtime went: whether the warp syncing is finished,
    /// and what went wrong, if anything.
    pub fn build<TErr>(self, finished: bool, error: Option<TErr>) -> (built: (
        AllSync<TRq, TSrc>,
        Result<(), TErr>,
    ))
        requires
            self.sync().wf(),
            self.sync().active() is GrandpaWarpSync,
        ensures
            built.0.wf(),
            built.0.is_built_of(&self.sync(), finished),
            built.1 == (match error {
                Some(error) => Err::<(), TErr>(error),
                None => Ok::<(), TErr>(()),
            }),
    {
        let result = match error {
            Some(error) => Err(error),
            None => Ok(()),
        };
        (self.shared.built(finished), result)
    }
}

impl<TRq, TSrc> WarpSyncBuildChainInformation<TRq, TSrc> {
    /// The state machine.
    pub closed spec fn sync(&self) -> AllSync<TRq, TSrc> {
        self.shared
    }

    /// Takes note of how building the chain information went: whether the warp syncing is
    /// finished, and what went wrong, if anything.
    pub fn build<TErr>(self, finished: bool, error: Option<TErr>) -> (built: (
        AllSync<TRq, TSrc>,
        Result<(), TErr>,
    ))
        requires
            self.sync().wf(),
            self.sync().active() is GrandpaWarpSync,
        ensures
            built.0.wf(),
            built.0.is_built_of(&self.sync(), finished),
            built.1 == (match error {
                Some(error) => Err::<(), TErr>(error),
                None => Ok::<(), TErr>(()),
            }),
    {
        let result = match error {
            Some(error) => Err(error),
            None => Ok(()),
        };
        (self.shared.built(finished), result)
    }
}

} // verus!
