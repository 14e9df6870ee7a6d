use smoldot_core::sync::all::{
    all_forks_add_source, all_forks_request_convert, ancestry_search_step,
    optimistic_request_convert, optimistic_response_outcome, AllForksAddSource,
    AllForksAddSourceStep, AllForksAnnounce, AllForksCommitMessage, AllForksRequestParams,
    AllSync, AncestrySearchBlock, AncestrySearchStep, AnnounceFollowUp, Announced, Block,
    BlockAnnounceOutcome, BlockAnnounced, BlocksForward, Config, DesiredRequest,
    FinalityProofVerification, FinalityProofVerifyOutcome, GrandpaCommitMessageOutcome,
    HeaderVerification, HeaderVerifyError, HeaderVerifyOutcome, Mapping, ProcessOne,
    RequestDetail, RequestId, ResponseOutcome, Routing, SourceId, Status, Strategy,
    StrategyDesiredRequest, StrategyStep, TransitionSource, WarpSyncInitError, WarpSyncStatus,
};
use smoldot_core::sync::optimistic;

type Sync = AllSync<&'static str, &'static str>;

fn config(full_mode: bool) -> Config {
    Config {
        block_number_bytes: 4,
        allow_unknown_consensus_engines: true,
        sources_capacity: 4,
        blocks_capacity: 16,
        max_disjoint_headers: 32,
        max_requests_per_block: 2,
        download_ahead_blocks: 64,
        full_mode,
    }
}

fn warp() -> Sync {
    Sync::new(config(false), Ok(()))
}

fn optimistic() -> Sync {
    Sync::new(config(true), Ok(()))
}

fn blocks(ascending: bool, first_block_hash: Option<[u8; 32]>) -> RequestDetail {
    RequestDetail::BlocksRequest {
        first_block_height: 100,
        first_block_hash,
        ascending,
        num_blocks: 8,
        request_headers: true,
        request_bodies: false,
        request_justification: true,
    }
}

fn warp_request() -> RequestDetail {
    RequestDetail::GrandpaWarpSync { sync_start_block_hash: [5; 32] }
}

fn storage_get() -> RequestDetail {
    RequestDetail::StorageGet { block_hash: [5; 32], keys: vec![b":code".to_vec()] }
}

fn call_proof() -> RequestDetail {
    RequestDetail::RuntimeCallMerkleProof {
        block_hash: [5; 32],
        function_name: String::from("Core_version"),
        parameter_vectored: Vec::new(),
    }
}

/// Warp syncing with three sources that is finished.
fn finished_warp() -> Sync {
    let mut sync = warp();
    for (inner, name) in [(10u64, "a"), (11, "b"), (12, "c")] {
        sync.add_source(name, 100, [inner as u8; 32], inner);
    }
    let build = match sync.process_one(StrategyStep::BuildChainInformation) {
        ProcessOne::WarpSyncBuildChainInformation(build) => build,
        _ => panic!(),
    };
    let (sync, result) = build.build::<u8>(true, None);
    assert_eq!(result, Ok(()));
    assert_eq!(sync.strategy(), Strategy::GrandpaWarpSync { finished: true });
    sync
}

/// All-forks syncing that has taken over from warp syncing with three sources.
fn all_forks() -> Sync {
    let sync = finished_warp();
    let plan = vec![(SourceId(0), 70), (SourceId(1), 71), (SourceId(2), 72)];
    let step = StrategyStep::AllForksStarted {
        plan,
        finalized_storage_code: None,
        finalized_storage_heap_pages: None,
    };
    match sync.process_one(step) {
        ProcessOne::WarpSyncFinished { sync, .. } => sync,
        _ => panic!(),
    }
}

#[test]
fn strategy_at_start() {
    assert_eq!(warp().strategy(), Strategy::GrandpaWarpSync { finished: false });
    assert_eq!(optimistic().strategy(), Strategy::Optimistic);
    assert_eq!(Sync::new(config(true), Err(WarpSyncInitError::NotGrandpa)).strategy(), Strategy::Optimistic);
    for error in [WarpSyncInitError::NotGrandpa, WarpSyncInitError::UnknownConsensus] {
        assert_eq!(Sync::new(config(false), Err(error)).strategy(), Strategy::Optimistic);
    }
    let sync = warp();
    assert_eq!(sync.block_number_bytes(), 4);
    assert_eq!(sync.config().max_disjoint_headers, 32);
    assert!(!sync.config().full_mode);
    assert!(sync.sources().is_empty());
}

#[test]
fn near_head_of_chain_only_with_all_forks() {
    assert!(!warp().is_near_head_of_chain_heuristic());
    assert!(!finished_warp().is_near_head_of_chain_heuristic());
    assert!(!optimistic().is_near_head_of_chain_heuristic());
    assert!(all_forks().is_near_head_of_chain_heuristic());
}

#[test]
fn sources_get_the_lowest_free_identifier() {
    let mut sync = optimistic();
    let a = sync.add_source("a", 10, [1; 32], 50);
    let b = sync.add_source("b", 20, [2; 32], 51);
    let c = sync.add_source("c", 30, [3; 32], 52);
    assert_eq!((a, b, c), (SourceId(0), SourceId(1), SourceId(2)));
    assert_eq!(sync.sources(), vec![a, b, c]);
    assert_eq!(sync.inner_source_id(b), 51);
    assert_eq!(sync.source_of_inner(52), Some(c));
    assert_eq!(sync.source_of_inner(53), None);
    assert_eq!(*sync.source_user_data(c), "c");
    assert_eq!(sync.next_inner_source_id(), None);

    let (user_data, requests) = sync.remove_source(b);
    assert_eq!(user_data, "b");
    assert!(requests.is_empty());
    assert!(!sync.contains_source(b));
    assert!(sync.contains_source(a));
    assert_eq!(sync.sources(), vec![a, c]);
    assert_eq!(sync.source_of_inner(51), None);

    // No two sources have the same identifier at the same time.
    let d = sync.add_source("d", 40, [4; 32], 53);
    assert_eq!(d, SourceId(1));
    assert_eq!(sync.sources(), vec![a, d, c]);
    assert_eq!(*sync.source_user_data(d), "d");
    assert_eq!(*sync.source_user_data(c), "c");
    let e = sync.add_source("e", 50, [5; 32], 54);
    assert_eq!(e, SourceId(3));
}

#[test]
fn requests_are_routed_by_strategy() {
    // Warp syncing.
    let mut sync = warp();
    let source = sync.add_source("a", 100, [1; 32], 10);
    assert_eq!(sync.route_request(source, &blocks(true, None)), Routing::Inline);
    assert_eq!(sync.route_request(source, &blocks(false, Some([1; 32]))), Routing::Inline);
    for detail in [warp_request(), storage_get(), call_proof()] {
        assert_eq!(sync.route_request(source, &detail), Routing::WarpSync { inner_source: 10 });
    }

    // Warp syncing that is finished.
    let sync = finished_warp();
    assert_eq!(sync.route_request(SourceId(0), &blocks(true, None)), Routing::Inline);
    for detail in [warp_request(), storage_get(), call_proof()] {
        assert_eq!(sync.route_request(SourceId(0), &detail), Routing::WarpSyncFinished);
    }

    // Optimistic syncing.
    let mut sync = optimistic();
    let source = sync.add_source("a", 100, [1; 32], 10);
    assert_eq!(
        sync.route_request(source, &blocks(true, None)),
        Routing::Optimistic {
            detail: optimistic::RequestDetail {
                source_id: optimistic::SourceId(10),
                block_height: 100,
                num_blocks: 8
            }
        }
    );
    assert_eq!(sync.route_request(source, &blocks(false, Some([1; 32]))), Routing::Inline);
    for detail in [warp_request(), storage_get(), call_proof()] {
        assert_eq!(sync.route_request(source, &detail), Routing::Inline);
    }

    // All-forks syncing.
    let sync = all_forks();
    assert_eq!(
        sync.route_request(SourceId(1), &blocks(false, Some([1; 32]))),
        Routing::AllForks {
            inner_source: 71,
            params: AllForksRequestParams {
                first_block_hash: [1; 32],
                first_block_height: 100,
                num_blocks: 8
            }
        }
    );
    assert_eq!(sync.route_request(SourceId(1), &blocks(false, None)), Routing::Inline);
    assert_eq!(sync.route_request(SourceId(1), &blocks(true, Some([1; 32]))), Routing::Inline);
    for detail in [warp_request(), storage_get(), call_proof()] {
        assert_eq!(sync.route_request(SourceId(1), &detail), Routing::Inline);
    }
}

#[test]
fn inline_outdated_response() {
    let mut sync = warp();
    let source = sync.add_source("a", 100, [1; 32], 10);
    let request = sync.add_request(source, blocks(true, None), "rq", None);
    assert_eq!(request, RequestId(0));
    assert_eq!(sync.request_mapping(request), Some(Mapping::Inline));
    assert_eq!(sync.source_num_ongoing_requests(source), 1);
    let response = sync.blocks_request_response(request, true);
    assert_eq!(response.user_data, "rq");
    assert_eq!(response.forward, None);
    assert_eq!(response.outcome, Some(ResponseOutcome::Outdated));
    assert_eq!(sync.request_mapping(request), None);
    assert_eq!(sync.source_num_ongoing_requests(source), 0);
}

#[test]
fn warp_requests_are_answered_by_warp_syncing() {
    let mut sync = warp();
    let source = sync.add_source("a", 100, [1; 32], 10);
    let first = sync.add_request(source, warp_request(), "first", Some(40));
    let second = sync.add_request(source, storage_get(), "second", Some(41));
    let third = sync.add_request(source, call_proof(), "third", Some(42));
    let fourth = sync.add_request(source, warp_request(), "fourth", Some(43));
    let inline = sync.add_request(source, blocks(true, None), "inline", None);
    assert_eq!(sync.request_mapping(second), Some(Mapping::GrandpaWarpSync(41)));
    // Warp syncing lets nobody know of its requests.
    assert_eq!(sync.source_num_ongoing_requests(source), 1);
    assert!(sync.obsolete_requests(Vec::new()).is_empty());

    let response = sync.grandpa_warp_sync_response_ok(first);
    assert_eq!((response.user_data, response.forward), ("first", Some(40)));
    assert_eq!(response.outcome, ResponseOutcome::Queued);
    let response = sync.storage_get_response(second);
    assert_eq!((response.user_data, response.forward), ("second", Some(41)));
    assert_eq!(response.outcome, ResponseOutcome::Queued);
    let response = sync.call_proof_response(third);
    assert_eq!((response.user_data, response.forward), ("third", Some(42)));
    let response = sync.grandpa_warp_sync_response_err(fourth);
    assert_eq!((response.user_data, response.forward), ("fourth", Some(43)));
    assert_eq!(response.outcome, ResponseOutcome::Queued);
    let response = sync.storage_get_response(inline);
    assert_eq!((response.user_data, response.forward), ("inline", None));
    assert_eq!(response.outcome, ResponseOutcome::Queued);
    assert_eq!(sync.request_mapping(first), None);
}

#[test]
fn responses_after_warp_syncing_is_finished_are_outdated() {
    let mut sync = warp();
    let source = sync.add_source("a", 100, [1; 32], 10);
    let before = sync.add_request(source, warp_request(), "before", Some(40));
    let build = match sync.process_one(StrategyStep::BuildRuntime) {
        ProcessOne::WarpSyncBuildRuntime(build) => build,
        _ => panic!(),
    };
    let (mut sync, result) = build.build(true, Some("slow"));
    assert_eq!(result, Err("slow"));
    let after = sync.add_request(source, storage_get(), "after", None);
    assert_eq!(sync.request_mapping(after), Some(Mapping::GrandpaWarpSync(1)));
    for (request, user_data) in [(before, "before"), (after, "after")] {
        let response = sync.storage_get_response(request);
        assert_eq!((response.user_data, response.forward), (user_data, None));
        assert_eq!(response.outcome, ResponseOutcome::Outdated);
    }
}

#[test]
fn sources_added_after_warp_syncing_is_finished_are_numbered_on() {
    let mut sync = finished_warp();
    assert_eq!(sync.next_inner_source_id(), Some(Some(13)));
    let d = sync.add_source("d", 100, [4; 32], 13);
    assert_eq!(d, SourceId(3));
    assert_eq!(sync.inner_source_id(d), 13);
    assert_eq!(sync.next_inner_source_id(), Some(Some(14)));
    sync.remove_source(d);
    sync.remove_source(SourceId(2));
    assert_eq!(sync.next_inner_source_id(), Some(Some(12)));
    sync.remove_source(SourceId(0));
    sync.remove_source(SourceId(1));
    assert_eq!(sync.next_inner_source_id(), Some(Some(0)));
}

#[test]
fn warp_to_all_forks_transition() {
    let mut sync = finished_warp();
    sync.update_source_finality_state(SourceId(1), 90);
    let in_flight = sync.add_request(SourceId(2), warp_request(), "in flight", None);
    let inline = sync.add_request(SourceId(0), blocks(true, None), "inline", None);
    assert_eq!(
        sync.transition_sources(),
        vec![
            TransitionSource {
                source_id: SourceId(0),
                best_block_number: 100,
                best_block_hash: [10; 32],
                finalized_block_height: None
            },
            TransitionSource {
                source_id: SourceId(1),
                best_block_number: 100,
                best_block_hash: [11; 32],
                finalized_block_height: Some(90)
            },
            TransitionSource {
                source_id: SourceId(2),
                best_block_number: 100,
                best_block_hash: [12; 32],
                finalized_block_height: None
            },
        ]
    );
    let plan = vec![(SourceId(0), 70), (SourceId(1), 71), (SourceId(2), 72)];
    let step = StrategyStep::AllForksStarted {
        plan,
        finalized_storage_code: Some(vec![0, 0x61, 0x73, 0x6d]),
        finalized_storage_heap_pages: Some(vec![8, 0, 0, 0, 0, 0, 0, 0]),
    };
    let mut sync = match sync.process_one(step) {
        ProcessOne::WarpSyncFinished {
            sync,
            finalized_storage_code,
            finalized_storage_heap_pages,
        } => {
            assert_eq!(finalized_storage_code, Some(vec![0, 0x61, 0x73, 0x6d]));
            assert_eq!(finalized_storage_heap_pages, Some(vec![8, 0, 0, 0, 0, 0, 0, 0]));
            sync
        },
        _ => panic!(),
    };
    assert_eq!(sync.strategy(), Strategy::AllForks);
    assert_eq!(sync.sources(), vec![SourceId(0), SourceId(1), SourceId(2)]);
    assert_eq!(*sync.source_user_data(SourceId(0)), "a");
    assert_eq!(*sync.source_user_data(SourceId(1)), "b");
    assert_eq!(*sync.source_user_data(SourceId(2)), "c");
    assert_eq!(sync.inner_source_id(SourceId(1)), 71);
    assert_eq!(sync.source_of_inner(72), Some(SourceId(2)));
    assert_eq!(sync.source_of_inner(12), None);
    assert_eq!(sync.request_mapping(in_flight), Some(Mapping::Inline));
    assert_eq!(sync.request_mapping(inline), Some(Mapping::Inline));
    assert_eq!(sync.obsolete_requests(vec![RequestId(9)]), vec![RequestId(9), in_flight, inline]);

    // What the all-forks syncing asks for are blocks in decreasing number.
    let wanted = StrategyDesiredRequest::AllForks(AllForksRequestParams {
        first_block_hash: [11; 32],
        first_block_height: 100,
        num_blocks: 32,
    });
    assert_eq!(
        sync.desired_requests(vec![(SourceId(1), wanted)]),
        vec![(
            SourceId(1),
            &"b",
            DesiredRequest::BlocksRequest {
                first_block_height: 100,
                first_block_hash: Some([11; 32]),
                ascending: false,
                num_blocks: 32,
                request_headers: true,
                request_bodies: false,
                request_justification: true,
            }
        )]
    );

    // The response to what warp syncing had asked for is of no use.
    let response = sync.grandpa_warp_sync_response_ok(in_flight);
    assert_eq!((response.user_data, response.forward), ("in flight", None));
    let response = sync.blocks_request_response(inline, true);
    assert_eq!(response.outcome, Some(ResponseOutcome::Outdated));
    assert_eq!(sync.update_source_finality_state(SourceId(1), 95), Some(71));
}

#[test]
fn remove_source_hands_back_the_requests_of_its_strategy() {
    let mut sync = all_forks();
    let wanted = blocks(false, Some([1; 32]));
    let a = sync.add_request(SourceId(1), wanted.clone(), "a", Some(500));
    let inline = sync.add_request(SourceId(1), blocks(true, None), "inline", None);
    let other = sync.add_request(SourceId(2), wanted.clone(), "other", Some(501));
    let b = sync.add_request(SourceId(1), wanted, "b", Some(502));
    assert_eq!(sync.source_num_ongoing_requests(SourceId(1)), 3);
    assert_eq!(sync.source_num_ongoing_requests(SourceId(2)), 1);
    assert_eq!(sync.source_num_ongoing_requests(SourceId(0)), 0);

    let (user_data, requests) = sync.remove_source(SourceId(1));
    assert_eq!(user_data, "b");
    assert_eq!(requests, vec![(a, "a"), (b, "b")]);
    assert_eq!(sync.sources(), vec![SourceId(0), SourceId(2)]);
    assert_eq!(sync.request_mapping(a), None);
    assert_eq!(sync.request_mapping(b), None);
    assert_eq!(sync.request_mapping(inline), Some(Mapping::Inline));
    assert_eq!(sync.request_mapping(other), Some(Mapping::AllForks(501)));
    assert_eq!(sync.obsolete_requests(Vec::new()), vec![inline]);
}

#[test]
fn blocks_response_goes_to_the_strategy_of_the_request() {
    let mut sync = all_forks();
    let wanted = blocks(false, Some([1; 32]));
    let first = sync.add_request(SourceId(0), wanted.clone(), "first", Some(500));
    let second = sync.add_request(SourceId(0), wanted, "second", Some(501));
    let response = sync.blocks_request_response(first, true);
    assert_eq!(response.user_data, "first");
    assert_eq!(response.forward, Some(BlocksForward::AllForksAncestrySearch(500)));
    assert_eq!(response.outcome, None);
    let response = sync.blocks_request_response(second, false);
    assert_eq!(response.forward, Some(BlocksForward::AllForksAncestrySearchFailed(501)));
    assert_eq!(response.outcome, Some(ResponseOutcome::Queued));

    let mut sync = optimistic();
    let source = sync.add_source("a", 100, [1; 32], 10);
    let first = sync.add_request(source, blocks(true, None), "first", Some(600));
    let second = sync.add_request(source, blocks(true, None), "second", Some(601));
    assert_eq!(first, RequestId(0));
    let response = sync.blocks_request_response(first, true);
    assert_eq!(response.forward, Some(BlocksForward::OptimisticSuccess(600)));
    assert_eq!(response.outcome, None);
    // The identifier of a request that is answered is free again.
    let third = sync.add_request(source, blocks(true, None), "third", Some(602));
    assert_eq!(third, RequestId(0));
    assert_eq!(sync.request_mapping(third), Some(Mapping::Optimistic(602)));
    let response = sync.blocks_request_response(second, false);
    assert_eq!(response.user_data, "second");
    assert_eq!(response.forward, Some(BlocksForward::OptimisticFailed(601)));
    assert_eq!(response.outcome, Some(ResponseOutcome::Queued));
}

#[test]
fn ancestry_search_goes_block_by_block() {
    assert_eq!(ancestry_search_step(0, Some(AncestrySearchBlock::UnknownBlock)), AncestrySearchStep::Insert);
    assert_eq!(ancestry_search_step(3, Some(AncestrySearchBlock::AlreadyPending)), AncestrySearchStep::Replace);
    assert_eq!(
        ancestry_search_step(0, Some(AncestrySearchBlock::AlreadyInChain)),
        AncestrySearchStep::Cancel(ResponseOutcome::AllAlreadyInChain)
    );
    assert_eq!(
        ancestry_search_step(1, Some(AncestrySearchBlock::AlreadyInChain)),
        AncestrySearchStep::Cancel(ResponseOutcome::Queued)
    );
    assert_eq!(
        ancestry_search_step(
            2,
            Some(AncestrySearchBlock::NotFinalizedChain {
                discarded_unverified_block_headers: vec![vec![1], vec![2]]
            })
        ),
        AncestrySearchStep::Finished(ResponseOutcome::NotFinalizedChain {
            discarded_unverified_block_headers: vec![vec![1], vec![2]]
        })
    );
    assert_eq!(
        ancestry_search_step(0, Some(AncestrySearchBlock::Invalid)),
        AncestrySearchStep::Finished(ResponseOutcome::Queued)
    );
    assert_eq!(
        ancestry_search_step(4, None),
        AncestrySearchStep::Finished(ResponseOutcome::Queued)
    );
    assert_eq!(
        optimistic_response_outcome(optimistic::FinishRequestOutcome::Obsolete),
        ResponseOutcome::Outdated
    );
    assert_eq!(
        optimistic_response_outcome(optimistic::FinishRequestOutcome::Queued),
        ResponseOutcome::Queued
    );
}

#[test]
fn block_announce_during_warp_syncing_sets_the_best_block() {
    let mut sync = warp();
    let source = sync.add_source("a", 100, [1; 32], 10);
    assert_eq!(sync.source_best_block(source), Some((100, [1; 32])));
    let announced = Announced::Header { number: 90, hash: [2; 32] };
    assert_eq!(
        sync.block_announce(source, announced, false),
        BlockAnnounced { outcome: BlockAnnounceOutcome::Discarded, follow_up: None }
    );
    assert_eq!(sync.source_best_block(source), Some((100, [1; 32])));
    assert_eq!(
        sync.block_announce(source, announced, true),
        BlockAnnounced { outcome: BlockAnnounceOutcome::Discarded, follow_up: None }
    );
    assert_eq!(sync.source_best_block(source), Some((90, [2; 32])));
    assert_eq!(
        sync.block_announce(source, Announced::InvalidHeader, true),
        BlockAnnounced { outcome: BlockAnnounceOutcome::InvalidHeader, follow_up: None }
    );
    assert_eq!(sync.source_best_block(source), Some((90, [2; 32])));
    assert_eq!(sync.source_knows_non_finalized_block(source, 90, &[2; 32]), Some(true));
    assert_eq!(sync.source_knows_non_finalized_block(source, 90, &[3; 32]), Some(false));
    assert_eq!(sync.source_knows_non_finalized_block(source, 89, &[2; 32]), Some(false));
}

#[test]
fn block_announce_during_optimistic_syncing_raises_the_best_block() {
    let mut sync = optimistic();
    let source = sync.add_source("a", 100, [1; 32], 10);
    let result = sync.block_announce(source, Announced::Header { number: 90, hash: [2; 32] }, true);
    assert_eq!(result.outcome, BlockAnnounceOutcome::Discarded);
    assert_eq!(
        result.follow_up,
        Some(AnnounceFollowUp::RaiseSourceBestBlock { inner_source: 10, best_block_number: 90 })
    );
    assert_eq!(sync.source_best_block(source), Some((100, [2; 32])));
    sync.block_announce(source, Announced::Header { number: 110, hash: [3; 32] }, true);
    assert_eq!(sync.source_best_block(source), Some((110, [3; 32])));
    assert_eq!(sync.source_knows_non_finalized_block(source, 110, &[9; 32]), Some(true));
    assert_eq!(sync.source_knows_non_finalized_block(source, 111, &[3; 32]), Some(false));
    assert_eq!(sync.update_source_finality_state(source, 5), None);
}

#[test]
fn block_announce_during_all_forks_syncing_follows_the_strategy() {
    let mut sync = all_forks();
    let source = SourceId(0);
    let too_old = AllForksAnnounce::TooOld { announce_block_height: 3, finalized_block_height: 9 };
    assert_eq!(
        sync.block_announce(source, Announced::AllForks(too_old), true),
        BlockAnnounced {
            outcome: BlockAnnounceOutcome::TooOld {
                announce_block_height: 3,
                finalized_block_height: 9
            },
            follow_up: None
        }
    );
    assert_eq!(
        sync.block_announce(source, Announced::AllForks(AllForksAnnounce::Unknown), false),
        BlockAnnounced {
            outcome: BlockAnnounceOutcome::StoredForLater,
            follow_up: Some(AnnounceFollowUp::InsertAndUpdateSource)
        }
    );
    for said in [AllForksAnnounce::AlreadyInChain, AllForksAnnounce::Known] {
        assert_eq!(
            sync.block_announce(source, Announced::AllForks(said), true),
            BlockAnnounced {
                outcome: BlockAnnounceOutcome::StoredForLater,
                follow_up: Some(AnnounceFollowUp::UpdateSourceAndBlock)
            }
        );
    }
    assert_eq!(
        sync.block_announce(source, Announced::AllForks(AllForksAnnounce::InvalidHeader), true),
        BlockAnnounced { outcome: BlockAnnounceOutcome::InvalidHeader, follow_up: None }
    );
    assert_eq!(sync.source_best_block(source), None);
    assert_eq!(sync.source_knows_non_finalized_block(source, 100, &[10; 32]), None);
    assert_eq!(sync.knows_non_finalized_block(100, &[10; 32]), None);
}

#[test]
fn knows_non_finalized_block_lists_sources_in_order() {
    let mut sync = warp();
    let a = sync.add_source("a", 100, [1; 32], 10);
    let _b = sync.add_source("b", 100, [2; 32], 11);
    let c = sync.add_source("c", 100, [1; 32], 12);
    let _d = sync.add_source("d", 101, [1; 32], 13);
    assert_eq!(sync.knows_non_finalized_block(100, &[1; 32]), Some(vec![a, c]));
    assert_eq!(sync.knows_non_finalized_block(102, &[1; 32]), Some(Vec::new()));

    let mut sync = optimistic();
    let a = sync.add_source("a", 100, [1; 32], 10);
    let _b = sync.add_source("b", 50, [2; 32], 11);
    let c = sync.add_source("c", 70, [3; 32], 12);
    assert_eq!(sync.knows_non_finalized_block(70, &[0; 32]), Some(vec![a, c]));
}

#[test]
fn finality_state_keeps_the_greatest_height() {
    let mut sync = finished_warp();
    assert_eq!(sync.update_source_finality_state(SourceId(0), 40), None);
    assert_eq!(sync.update_source_finality_state(SourceId(0), 30), None);
    assert_eq!(sync.update_source_finality_state(SourceId(2), 7), None);
    let heights: Vec<_> =
        sync.transition_sources().iter().map(|s| s.finalized_block_height).collect();
    assert_eq!(heights, vec![Some(40), None, Some(7)]);
    sync.update_source_finality_state(SourceId(0), 41);
    assert_eq!(sync.transition_sources()[0].finalized_block_height, Some(41));
}

#[test]
fn commit_messages_are_for_all_forks_only() {
    let mut sync = warp();
    let source = sync.add_source("a", 100, [1; 32], 10);
    assert_eq!(sync.grandpa_commit_message(source, None), GrandpaCommitMessageOutcome::Discarded);
    let sync = all_forks();
    assert_eq!(
        sync.grandpa_commit_message(SourceId(0), Some(AllForksCommitMessage::Queued)),
        GrandpaCommitMessageOutcome::Queued
    );
    assert_eq!(
        sync.grandpa_commit_message(SourceId(0), Some(AllForksCommitMessage::ParseError)),
        GrandpaCommitMessageOutcome::Discarded
    );
}

#[test]
fn desired_requests_stand_for_what_the_strategy_asks() {
    let mut sync = optimistic();
    let source = sync.add_source("a", 100, [1; 32], 10);
    let wanted = StrategyDesiredRequest::Optimistic(optimistic::RequestDetail {
        source_id: optimistic::SourceId(10),
        block_height: 7,
        num_blocks: 3,
    });
    assert_eq!(
        sync.desired_requests(vec![(source, wanted)]),
        vec![(
            source,
            &"a",
            DesiredRequest::BlocksRequest {
                first_block_height: 7,
                first_block_hash: None,
                ascending: true,
                num_blocks: 3,
                request_headers: true,
                request_bodies: true,
                request_justification: true,
            }
        )]
    );
    let mut sync = warp();
    let source = sync.add_source("a", 100, [1; 32], 10);
    let wanted = DesiredRequest::GrandpaWarpSync { sync_start_block_hash: [8; 32] };
    assert_eq!(
        sync.desired_requests(vec![(source, StrategyDesiredRequest::WarpSync(wanted.clone()))]),
        vec![(source, &"a", wanted.clone())]
    );
    let sync = finished_warp();
    assert!(sync
        .desired_requests(vec![(SourceId(0), StrategyDesiredRequest::WarpSync(wanted))])
        .is_empty());
}

#[test]
fn request_conversions() {
    let params = AllForksRequestParams {
        first_block_hash: [3; 32],
        first_block_height: 55,
        num_blocks: 4,
    };
    assert_eq!(
        all_forks_request_convert(params, true),
        DesiredRequest::BlocksRequest {
            first_block_height: 55,
            first_block_hash: Some([3; 32]),
            ascending: false,
            num_blocks: 4,
            request_headers: true,
            request_bodies: true,
            request_justification: true,
        }
    );
    let detail = optimistic::RequestDetail {
        source_id: optimistic::SourceId(1),
        block_height: 9,
        num_blocks: u32::MAX,
    };
    assert_eq!(
        optimistic_request_convert(detail, false),
        DesiredRequest::BlocksRequest {
            first_block_height: 9,
            first_block_hash: None,
            ascending: true,
            num_blocks: u32::MAX as u64,
            request_headers: true,
            request_bodies: false,
            request_justification: true,
        }
    );
}

#[test]
fn num_blocks_clamp() {
    let desired = all_forks_request_convert(
        AllForksRequestParams { first_block_hash: [3; 32], first_block_height: 55, num_blocks: 400 },
        false,
    );
    let clamped = desired.clone().with_num_blocks_clamp(128);
    assert!(matches!(clamped, DesiredRequest::BlocksRequest { num_blocks: 128, .. }));
    let unchanged = desired.clone().with_num_blocks_clamp(400);
    assert_eq!(unchanged, desired);
    let unchanged = desired.clone().with_num_blocks_clamp(u64::MAX);
    assert_eq!(unchanged, desired);
    let mut other = DesiredRequest::GrandpaWarpSync { sync_start_block_hash: [1; 32] };
    other.num_blocks_clamp(1);
    assert_eq!(other, DesiredRequest::GrandpaWarpSync { sync_start_block_hash: [1; 32] });

    let mut detail = blocks(true, None);
    detail.num_blocks_clamp(3);
    assert!(matches!(detail, RequestDetail::BlocksRequest { num_blocks: 3, .. }));
    let detail = blocks(true, None).with_num_blocks_clamp(9);
    assert_eq!(detail, blocks(true, None));
    assert_eq!(storage_get().with_num_blocks_clamp(1), storage_get());
}

#[test]
fn request_detail_of_desired_request() {
    assert_eq!(
        RequestDetail::from_desired(DesiredRequest::StorageGetMerkleProof {
            block_hash: [5; 32],
            state_trie_root: [6; 32],
            keys: vec![b":code".to_vec()],
        }),
        storage_get()
    );
    assert_eq!(
        RequestDetail::from_desired(DesiredRequest::GrandpaWarpSync {
            sync_start_block_hash: [5; 32]
        }),
        warp_request()
    );
    assert_eq!(
        RequestDetail::from_desired(DesiredRequest::RuntimeCallMerkleProof {
            block_hash: [5; 32],
            function_name: String::from("Core_version"),
            parameter_vectored: Vec::new(),
        }),
        call_proof()
    );
    let desired = optimistic_request_convert(
        optimistic::RequestDetail {
            source_id: optimistic::SourceId(1),
            block_height: 100,
            num_blocks: 8,
        },
        false,
    );
    assert_eq!(RequestDetail::from_desired(desired), blocks(true, None));
}

#[test]
fn status_names_the_source_of_warp_syncing() {
    let mut sync = warp();
    let _a = sync.add_source("a", 100, [1; 32], 10);
    let b = sync.add_source("b", 100, [2; 32], 11);
    let fragments = WarpSyncStatus::Fragments {
        source: Some(11),
        finalized_block_hash: [7; 32],
        finalized_block_number: 3,
    };
    match sync.status(Some(fragments)) {
        Status::WarpSyncFragments { source, finalized_block_hash, finalized_block_number } => {
            assert_eq!(source, Some((b, &"b")));
            assert_eq!((finalized_block_hash, finalized_block_number), ([7; 32], 3));
        }
        _ => panic!(),
    }
    let fragments = WarpSyncStatus::Fragments {
        source: None,
        finalized_block_hash: [7; 32],
        finalized_block_number: 3,
    };
    assert!(matches!(
        sync.status(Some(fragments)),
        Status::WarpSyncFragments { source: None, .. }
    ));
    let chain_information = WarpSyncStatus::ChainInformation {
        source: 10,
        finalized_block_hash: [8; 32],
        finalized_block_number: 4,
    };
    match sync.status(Some(chain_information)) {
        Status::WarpSyncChainInformation { source, finalized_block_number, .. } => {
            assert_eq!(source, (SourceId(0), &"a"));
            assert_eq!(finalized_block_number, 4);
        }
        _ => panic!(),
    }
    assert!(matches!(all_forks().status(None), Status::Sync));
    assert!(matches!(finished_warp().status(None), Status::Sync));
    assert!(matches!(optimistic().status(None), Status::Sync));
}

#[test]
fn process_one_hands_the_state_machine_over_and_back() {
    let sync = match warp().process_one(StrategyStep::Idle) {
        ProcessOne::AllSync(sync) => sync,
        _ => panic!(),
    };
    let mut sync = sync;
    sync.add_source("a", 100, [1; 32], 10);
    let verify = match sync.process_one(StrategyStep::VerifyWarpSyncFragment) {
        ProcessOne::VerifyWarpSyncFragment(verify) => verify,
        _ => panic!(),
    };
    assert_eq!(verify.proof_sender(10), (SourceId(0), &"a"));
    let (sync, result) = verify.perform(Some("bad fragment"));
    assert_eq!(result, Err("bad fragment"));
    assert_eq!(sync.sources(), vec![SourceId(0)]);
    let build = match sync.process_one(StrategyStep::BuildRuntime) {
        ProcessOne::WarpSyncBuildRuntime(build) => build,
        _ => panic!(),
    };
    let (sync, result) = build.build::<u8>(false, None);
    assert_eq!(result, Ok(()));
    assert_eq!(sync.strategy(), Strategy::GrandpaWarpSync { finished: false });
    let verify = match sync.process_one(StrategyStep::VerifyWarpSyncFragment) {
        ProcessOne::VerifyWarpSyncFragment(verify) => verify,
        _ => panic!(),
    };
    let (sync, result) = verify.perform::<u8>(None);
    assert_eq!(result, Ok(()));
    assert_eq!(sync.strategy(), Strategy::GrandpaWarpSync { finished: false });
}

#[test]
fn header_verification_outcomes() {
    let verify = |verification| {
        let verify = match all_forks().process_one(StrategyStep::BlockVerify) {
            ProcessOne::VerifyBlock(verify) => verify,
            _ => panic!(),
        };
        verify.verify_header(verification)
    };
    match verify(HeaderVerification::AllForksSuccess { is_new_best: false }) {
        HeaderVerifyOutcome::Success { is_new_best, success } => {
            assert!(!is_new_best);
            assert_eq!(success.finish().sources().len(), 3);
        }
        _ => panic!(),
    }
    match verify(HeaderVerification::OptimisticNewBest) {
        HeaderVerifyOutcome::Success { is_new_best, success } => {
            assert!(is_new_best);
            assert_eq!(success.reject_bad_block().sources().len(), 3);
        }
        _ => panic!(),
    }
    match verify(HeaderVerification::AllForksError(HeaderVerifyError::UnknownConsensusEngine)) {
        HeaderVerifyOutcome::Error { sync, error } => {
            assert_eq!(error, HeaderVerifyError::UnknownConsensusEngine);
            assert_eq!(sync.sources().len(), 3);
        }
        _ => panic!(),
    }
    match verify(HeaderVerification::OptimisticReset) {
        HeaderVerifyOutcome::Error { error, .. } => {
            assert_eq!(error, HeaderVerifyError::ConsensusMismatch)
        }
        _ => panic!(),
    }
}

#[test]
fn finality_proof_outcomes() {
    let perform = |verification: FinalityProofVerification<&'static str>| {
        let verify = match all_forks().process_one(StrategyStep::FinalityProofVerify) {
            ProcessOne::VerifyFinalityProof(verify) => verify,
            _ => panic!(),
        };
        let (sync, outcome) = verify.perform(verification);
        assert_eq!(sync.sources().len(), 3);
        outcome
    };
    let finalized = FinalityProofVerification::AllForksNewFinalized {
        finalized_blocks: vec![(vec![2u8], Some("two")), (vec![1u8], Some("one"))],
        updates_best_block: true,
    };
    match perform(finalized) {
        FinalityProofVerifyOutcome::NewFinalized { finalized_blocks, updates_best_block } => {
            assert!(updates_best_block);
            let seen: Vec<_> = finalized_blocks
                .iter()
                .map(|b| {
                    (b.scale_encoded_header.clone(), b.user_data, b.justifications.len(), b.full.is_none())
                })
                .collect();
            assert_eq!(seen, vec![(vec![2u8], "two", 0, true), (vec![1u8], "one", 0, true)]);
        }
        _ => panic!(),
    }
    let block = Block {
        scale_encoded_header: vec![3u8],
        justifications: vec![(*b"FRNK", vec![1u8])],
        user_data: "three",
        full: None,
    };
    match perform(FinalityProofVerification::OptimisticFinalized { finalized_blocks: vec![block] }) {
        FinalityProofVerifyOutcome::NewFinalized { finalized_blocks, updates_best_block } => {
            assert!(!updates_best_block);
            assert_eq!(finalized_blocks.len(), 1);
            assert_eq!(finalized_blocks[0].justifications, vec![(*b"FRNK", vec![1u8])]);
        }
        _ => panic!(),
    }
    assert!(matches!(
        perform(FinalityProofVerification::AllForksAlreadyFinalized),
        FinalityProofVerifyOutcome::AlreadyFinalized
    ));
    assert!(matches!(
        perform(FinalityProofVerification::AllForksGrandpaCommitPending),
        FinalityProofVerifyOutcome::GrandpaCommitPending
    ));
    assert!(matches!(
        perform(FinalityProofVerification::AllForksJustificationError),
        FinalityProofVerifyOutcome::JustificationError
    ));
    assert!(matches!(
        perform(FinalityProofVerification::AllForksGrandpaCommitError),
        FinalityProofVerifyOutcome::GrandpaCommitError
    ));
    assert!(matches!(
        perform(FinalityProofVerification::OptimisticReset),
        FinalityProofVerifyOutcome::JustificationError
    ));
}

#[test]
fn unknown_best_block_is_inserted_with_its_source() {
    assert_eq!(
        all_forks_add_source(AllForksAddSource::UnknownBestBlock),
        AllForksAddSourceStep::AddSourceAndInsertBlock
    );
    for prepared in [
        AllForksAddSource::BestBlockAlreadyVerified,
        AllForksAddSource::BestBlockPendingVerification,
        AllForksAddSource::OldBestBlock,
    ] {
        assert_eq!(all_forks_add_source(prepared), AllForksAddSourceStep::AddSource);
    }
}

#[test]
fn request_that_no_strategy_takes_counts_for_its_source_alone() {
    let mut sync = warp();
    let a = sync.add_source("a", 100, [1; 32], 10);
    let b = sync.add_source("b", 100, [2; 32], 11);
    sync.add_request(a, warp_request(), "taken", Some(40));
    for descending in [false, true] {
        let before = (sync.source_num_ongoing_requests(a), sync.source_num_ongoing_requests(b));
        let request = sync.add_request(a, blocks(!descending, None), "inline", None);
        assert_eq!(sync.request_mapping(request), Some(Mapping::Inline));
        assert_eq!(sync.source_num_ongoing_requests(a), before.0 + 1);
        assert_eq!(sync.source_num_ongoing_requests(b), before.1);
        assert_eq!(sync.sources(), vec![a, b]);
    }
    assert_eq!(sync.source_num_ongoing_requests(a), 2);

    // The same once the warp syncing is finished.
    let mut sync = finished_warp();
    let before = sync.source_num_ongoing_requests(SourceId(1));
    let request = sync.add_request(SourceId(1), blocks(true, None), "inline", None);
    assert_eq!(sync.source_num_ongoing_requests(SourceId(1)), before + 1);
    sync.blocks_request_response(request, false);
    assert_eq!(sync.source_num_ongoing_requests(SourceId(1)), before);
}

#[test]
fn request_that_the_strategy_takes_counts_unless_it_is_warp_syncing() {
    let mut sync = optimistic();
    let source = sync.add_source("a", 100, [1; 32], 10);
    let detail = blocks(true, None);
    let routing = sync.route_request(source, &detail);
    assert_eq!(
        routing,
        Routing::Optimistic {
            detail: optimistic::RequestDetail {
                source_id: optimistic::SourceId(10),
                block_height: 100,
                num_blocks: 8,
            }
        }
    );
    let request = sync.add_request(source, detail, "rq", Some(600));
    assert_eq!(sync.request_mapping(request), Some(Mapping::Optimistic(600)));
    assert_eq!(sync.source_num_ongoing_requests(source), 1);
    sync.blocks_request_response(request, true);
    assert_eq!(sync.source_num_ongoing_requests(source), 0);
}
