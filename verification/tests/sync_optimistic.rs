use smoldot_core::sync::optimistic::{
    BlockVerification, Config, FinishRequestOutcome, JustificationOutcome,
    JustificationVerification, OptimisticSync, ProcessOne, RequestDetail, RequestId, ResetCause,
    SourceId, VerifyStep,
};

type Sync = OptimisticSync<&'static str, &'static str>;

fn new_sync(full_mode: bool) -> Sync {
    Sync::new(Config {
        block_number_bytes: 4,
        sources_capacity: 4,
        blocks_capacity: 16,
        download_ahead_blocks: 64,
        full_mode,
    })
}

fn detail(source: SourceId) -> RequestDetail {
    RequestDetail { source_id: source, block_height: 1, num_blocks: 10 }
}

fn bans(sync: &Sync) -> Vec<bool> {
    sync.sources().into_iter().map(|source| sync.source_is_banned(source)).collect()
}

#[test]
fn request_id_bounds() {
    assert_eq!(RequestId::min_value(), RequestId(0));
    assert_eq!(RequestId::max_value(), RequestId(u64::MAX));
    assert!(RequestId::min_value() <= RequestId(5));
    assert!(RequestId(5) <= RequestId::max_value());
}

#[test]
fn settings_are_kept() {
    let sync = new_sync(true);
    assert_eq!(sync.block_number_bytes(), 4);
    assert_eq!(sync.download_ahead_blocks(), 64);
    assert!(sync.sources().is_empty());
    assert!(sync.obsolete_requests().is_empty());
}

#[test]
fn sources_are_numbered_in_turn_and_never_again() {
    let mut sync = new_sync(false);
    let a = sync.add_source("a", 10);
    let b = sync.add_source("b", 20);
    assert_eq!((a, b), (SourceId(0), SourceId(1)));
    assert_eq!(sync.sources(), vec![a, b]);
    let (user_data, requests) = sync.remove_source(a);
    assert_eq!(user_data, "a");
    assert!(requests.is_empty());
    assert!(!sync.contains_source(a));
    let c = sync.add_source("c", 30);
    assert_eq!(c, SourceId(2));
    assert_eq!(sync.sources(), vec![b, c]);
    assert_eq!(*sync.source_user_data(c), "c");
}

#[test]
fn best_block_is_only_raised() {
    let mut sync = new_sync(false);
    let a = sync.add_source("a", 10);
    let b = sync.add_source("b", 20);
    assert_eq!(sync.source_best_block(a), 10);
    sync.raise_source_best_block(a, 15);
    assert_eq!(sync.source_best_block(a), 15);
    sync.raise_source_best_block(a, 12);
    assert_eq!(sync.source_best_block(a), 15);
    sync.raise_source_best_block(a, 15);
    assert_eq!(sync.source_best_block(a), 15);
    assert_eq!(sync.source_best_block(b), 20);
}

#[test]
fn desired_requests_ask_each_source_for_what_it_has() {
    let mut sync = new_sync(false);
    let a = sync.add_source("a", 10);
    let b = sync.add_source("b", 120);
    let c = sync.add_source("c", 4);
    // The best block of `c` is below both ranges.
    let desired = sync.desired_requests(&vec![(5, 100), (121, 7)]);
    assert_eq!(
        desired,
        vec![
            RequestDetail { source_id: a, block_height: 5, num_blocks: 6 },
            RequestDetail { source_id: b, block_height: 5, num_blocks: 100 },
        ]
    );
    let desired = sync.desired_requests(&vec![(4, 1), (120, 3)]);
    assert_eq!(
        desired,
        vec![
            RequestDetail { source_id: a, block_height: 4, num_blocks: 1 },
            RequestDetail { source_id: b, block_height: 4, num_blocks: 1 },
            RequestDetail { source_id: c, block_height: 4, num_blocks: 1 },
            RequestDetail { source_id: b, block_height: 120, num_blocks: 1 },
        ]
    );
    assert!(sync.desired_requests(&Vec::new()).is_empty());
}

#[test]
fn desired_requests_never_ask_for_more_than_the_range() {
    let mut sync = new_sync(false);
    let a = sync.add_source("a", u64::MAX);
    assert_eq!(
        sync.desired_requests(&vec![(1, u32::MAX)]),
        vec![RequestDetail { source_id: a, block_height: 1, num_blocks: u32::MAX }]
    );
    assert_eq!(
        sync.desired_requests(&vec![(u64::MAX, 9)]),
        vec![RequestDetail { source_id: a, block_height: u64::MAX, num_blocks: 1 }]
    );
}

#[test]
fn requests_are_numbered_in_turn() {
    let mut sync = new_sync(false);
    let a = sync.add_source("a", 10);
    let first = sync.insert_request(detail(a), "first", true);
    let second = sync.insert_request(detail(a), "second", false);
    let third = sync.insert_request(detail(a), "third", true);
    assert_eq!((first, second, third), (RequestId(0), RequestId(1), RequestId(2)));
    assert_eq!(sync.obsolete_requests(), vec![second]);
    assert_eq!(sync.source_num_ongoing_requests(a), 3);
    assert_eq!(sync.finish_request_success(second), ("second", FinishRequestOutcome::Obsolete));
    assert_eq!(sync.finish_request_success(first), ("first", FinishRequestOutcome::Queued));
    assert_eq!(sync.source_num_ongoing_requests(a), 1);
    assert!(sync.obsolete_requests().is_empty());
    let fourth = sync.insert_request(detail(a), "fourth", true);
    assert_eq!(fourth, RequestId(3));
}

#[test]
fn removing_a_source_hands_its_requests_back() {
    let mut sync = new_sync(false);
    let a = sync.add_source("a", 10);
    let b = sync.add_source("b", 10);
    let first_a = sync.insert_request(detail(a), "first_a", true);
    let first_b = sync.insert_request(detail(b), "first_b", true);
    let unwanted_a = sync.insert_request(detail(a), "unwanted_a", false);
    let second_a = sync.insert_request(detail(a), "second_a", true);
    let unwanted_b = sync.insert_request(detail(b), "unwanted_b", false);
    assert_eq!(sync.source_num_ongoing_requests(a), 3);
    assert_eq!(sync.source_num_ongoing_requests(b), 2);
    let (user_data, requests) = sync.remove_source(a);
    assert_eq!(user_data, "a");
    assert_eq!(requests, vec![(first_a, "first_a"), (second_a, "second_a"), (unwanted_a, "unwanted_a")]);
    assert_eq!(sync.sources(), vec![b]);
    assert_eq!(sync.obsolete_requests(), vec![unwanted_b]);
    assert_eq!(sync.source_num_ongoing_requests(b), 2);
    assert_eq!(sync.finish_request_success(first_b), ("first_b", FinishRequestOutcome::Queued));
}

#[test]
fn failed_request_whose_answer_is_unwanted_bans_nobody() {
    let mut sync = new_sync(false);
    let a = sync.add_source("a", 10);
    let _b = sync.add_source("b", 10);
    let request = sync.insert_request(detail(a), "rq", false);
    assert_eq!(sync.finish_request_failed(request), "rq");
    assert!(sync.obsolete_requests().is_empty());
    assert_eq!(bans(&sync), vec![false, false]);
}

#[test]
fn failed_request_bans_its_source_unless_all_would_be_banned() {
    let mut sync = new_sync(false);
    let a = sync.add_source("a", 10);
    let b = sync.add_source("b", 10);
    let c = sync.add_source("c", 10);
    let of_a = sync.insert_request(detail(a), "a", true);
    let of_b = sync.insert_request(detail(b), "b", true);
    let of_c = sync.insert_request(detail(c), "c", true);
    let again = sync.insert_request(detail(a), "again", true);
    assert_eq!(bans(&sync), vec![false, false, false]);
    assert_eq!(sync.finish_request_failed(of_a), "a");
    assert_eq!(bans(&sync), vec![true, false, false]);
    assert_eq!(sync.finish_request_failed(again), "again");
    assert_eq!(bans(&sync), vec![true, false, false]);
    assert_eq!(sync.finish_request_failed(of_c), "c");
    assert_eq!(bans(&sync), vec![true, false, true]);
    // The last source would be banned too: every ban is lifted.
    assert_eq!(sync.finish_request_failed(of_b), "b");
    assert_eq!(bans(&sync), vec![false, false, false]);
    assert_eq!(sync.source_num_ongoing_requests(a), 0);
}

#[test]
fn only_source_is_never_banned() {
    let mut sync = new_sync(false);
    let a = sync.add_source("a", 10);
    let request = sync.insert_request(detail(a), "rq", true);
    assert_eq!(sync.finish_request_failed(request), "rq");
    assert_eq!(bans(&sync), vec![false]);
}

#[test]
fn bad_justification_bans_the_source_of_the_block() {
    let mut sync = new_sync(false);
    let a = sync.add_source("a", 10);
    let _b = sync.add_source("b", 10);
    let verify = match sync.process_one(true) {
        ProcessOne::VerifyBlock(verify) => verify,
        _ => panic!(),
    };
    let step = VerifyStep::Finished { new_best_number: 1, new_best_hash: [9; 32] };
    let sync = match verify.start(vec![(*b"FRNK", vec![1u8])], a, step) {
        BlockVerification::NewBest { sync, .. } => sync,
        _ => panic!(),
    };
    assert_eq!(bans(&sync), vec![false, false]);
    let verify = match sync.process_one(false) {
        ProcessOne::VerifyJustification(verify) => verify,
        _ => panic!(),
    };
    let (sync, _) = verify.perform(JustificationOutcome::Failed { previous_best_height: 1 });
    assert_eq!(bans(&sync), vec![true, false]);
}

#[test]
fn make_requests_obsolete_keeps_every_request() {
    let mut sync = new_sync(false);
    let a = sync.add_source("a", 10);
    let first = sync.insert_request(detail(a), "first", false);
    let second = sync.insert_request(detail(a), "second", true);
    let third = sync.insert_request(detail(a), "third", true);
    sync.make_requests_obsolete();
    assert_eq!(sync.obsolete_requests(), vec![first, second, third]);
    assert_eq!(sync.source_num_ongoing_requests(a), 3);
    assert_eq!(sync.finish_request_success(third), ("third", FinishRequestOutcome::Obsolete));
    let parts = sync.disassemble();
    assert!(parts.requests.is_empty());
    assert_eq!(parts.sources.len(), 1);
}

#[test]
fn disassemble_hands_sources_and_wanted_requests_back() {
    let mut sync = new_sync(false);
    let a = sync.add_source("a", 10);
    let b = sync.add_source("b", 20);
    let first = sync.insert_request(detail(a), "first", true);
    sync.insert_request(detail(b), "second", false);
    let third = sync.insert_request(detail(b), "third", true);
    let parts = sync.disassemble();
    let sources: Vec<_> =
        parts.sources.iter().map(|s| (s.id, s.user_data, s.best_block_number)).collect();
    assert_eq!(sources, vec![(a, "a", 10), (b, "b", 20)]);
    assert_eq!(parts.requests, vec![(first, "first"), (third, "third")]);
}

#[test]
fn process_one_goes_by_what_is_ready() {
    let sync = new_sync(false);
    let sync = match sync.process_one(false) {
        ProcessOne::Idle { sync } => sync,
        _ => panic!(),
    };
    match sync.process_one(true) {
        ProcessOne::VerifyBlock(verify) => assert!(!verify.is_full_verification()),
        _ => panic!(),
    }
    match new_sync(true).process_one(true) {
        ProcessOne::VerifyBlock(verify) => assert!(verify.is_full_verification()),
        _ => panic!(),
    }
}

#[test]
fn verified_block_hands_its_justifications_over() {
    let mut sync = new_sync(false);
    let a = sync.add_source("a", 10);
    let request = sync.insert_request(detail(a), "rq", true);
    let verify = match sync.process_one(true) {
        ProcessOne::VerifyBlock(verify) => verify,
        _ => panic!(),
    };
    let justifications = vec![(*b"FRNK", vec![1u8, 2]), (*b"BEEF", vec![3u8])];
    let step = VerifyStep::Finished { new_best_number: 1, new_best_hash: [9; 32] };
    let sync = match verify.start(justifications, a, step) {
        BlockVerification::NewBest { sync, new_best_number, new_best_hash } => {
            assert_eq!((new_best_number, new_best_hash), (1, [9; 32]));
            sync
        }
        _ => panic!(),
    };
    // Justifications come before blocks.
    let verify = match sync.process_one(true) {
        ProcessOne::VerifyJustification(verify) => verify,
        _ => panic!(),
    };
    assert_eq!(verify.justification(), (b"FRNK", &vec![1u8, 2]));
    let (sync, done) = verify.perform(JustificationOutcome::Finalized);
    match done {
        JustificationVerification::Finalized { consensus_engine_id, justification } => {
            assert_eq!((consensus_engine_id, justification), (*b"FRNK", vec![1u8, 2]));
        }
        _ => panic!(),
    }
    assert!(sync.obsolete_requests().is_empty());
    let verify = match sync.process_one(false) {
        ProcessOne::VerifyJustification(verify) => verify,
        _ => panic!(),
    };
    assert_eq!(verify.justification(), (b"BEEF", &vec![3u8]));
    // A bad justification makes every answer unwanted.
    let (mut sync, done) = verify.perform(JustificationOutcome::Failed { previous_best_height: 1 });
    assert!(matches!(done, JustificationVerification::Reset { previous_best_height: 1 }));
    assert_eq!(sync.obsolete_requests(), vec![request]);
    assert_eq!(sync.finish_request_success(request), ("rq", FinishRequestOutcome::Obsolete));
    assert!(matches!(sync.process_one(false), ProcessOne::Idle { .. }));
}

#[test]
fn bad_block_resets() {
    let mut sync = new_sync(false);
    let a = sync.add_source("a", 10);
    let b = sync.add_source("b", 10);
    let first = sync.insert_request(detail(a), "first", true);
    let second = sync.insert_request(detail(b), "second", true);
    let verify = match sync.process_one(true) {
        ProcessOne::VerifyBlock(verify) => verify,
        _ => panic!(),
    };
    let step = VerifyStep::Failed { reason: ResetCause::NonCanonical, previous_best_height: 7 };
    let mut sync = match verify.start(Vec::new(), a, step) {
        BlockVerification::Reset { sync, previous_best_height, reason } => {
            assert_eq!((previous_best_height, reason), (7, ResetCause::NonCanonical));
            sync
        }
        _ => panic!(),
    };
    assert_eq!(sync.obsolete_requests(), vec![first, second]);
    // Requests that are unwanted ban nobody when they fail.
    assert_eq!(sync.finish_request_failed(first), "first");
    assert_eq!(sync.obsolete_requests(), vec![second]);
    assert_eq!(bans(&sync), vec![true, false]);
}

#[test]
fn full_verification_goes_step_by_step() {
    let mut sync = new_sync(true);
    let a = sync.add_source("a", 10);
    let verify = match sync.process_one(true) {
        ProcessOne::VerifyBlock(verify) => verify,
        _ => panic!(),
    };
    let get = match verify.start(Vec::new(), a, VerifyStep::StorageGet) {
        BlockVerification::ParentStorageGet(get) => get,
        _ => panic!(),
    };
    let merkle = match get.inject_value(VerifyStep::StorageClosestDescendantMerkleValue) {
        BlockVerification::ParentStorageMerkleValue(merkle) => merkle,
        _ => panic!(),
    };
    let merkle = match merkle.resume_unknown(VerifyStep::StorageClosestDescendantMerkleValue) {
        BlockVerification::ParentStorageMerkleValue(merkle) => merkle,
        _ => panic!(),
    };
    let next_key = match merkle.inject_merkle_value(VerifyStep::StorageNextKey) {
        BlockVerification::ParentStorageNextKey(next_key) => next_key,
        _ => panic!(),
    };
    let compilation = match next_key.inject_key(VerifyStep::RuntimeCompilation) {
        BlockVerification::RuntimeCompilation(compilation) => compilation,
        _ => panic!(),
    };
    let step = VerifyStep::Finished { new_best_number: 3, new_best_hash: [1; 32] };
    match compilation.build(step) {
        BlockVerification::NewBest { sync, new_best_number, .. } => {
            assert_eq!(new_best_number, 3);
            assert_eq!(sync.sources(), vec![a]);
        }
        _ => panic!(),
    }
}

#[test]
fn failure_during_full_verification_resets() {
    let mut sync = new_sync(true);
    let a = sync.add_source("a", 10);
    let request = sync.insert_request(detail(a), "rq", true);
    let verify = match sync.process_one(true) {
        ProcessOne::VerifyBlock(verify) => verify,
        _ => panic!(),
    };
    let get = match verify.start(Vec::new(), a, VerifyStep::StorageGet) {
        BlockVerification::ParentStorageGet(get) => get,
        _ => panic!(),
    };
    let step = VerifyStep::Failed { reason: ResetCause::HeaderBodyError, previous_best_height: 2 };
    match get.inject_value(step) {
        BlockVerification::Reset { sync, previous_best_height, reason } => {
            assert_eq!((previous_best_height, reason), (2, ResetCause::HeaderBodyError));
            assert_eq!(sync.obsolete_requests(), vec![request]);
        }
        _ => panic!(),
    }
}
