use std::cell::RefCell;
use riverbed::collider_sync::{
    apply_cook_result, apply_cook_results, dispatch_cook_jobs, CookResult, forget_chunk_collider, record_cook_dispatch, ChunkColliderEntityRegistry,
    ChunkColliderRebuildRequest, ColliderCookQueue, ColliderCookingInProgress, ColliderVersionTracker,
    CookResultAction, SendOutcome, MAX_COOK_JOBS_PER_TICK,
};
use riverbed::keyed::KeySet;
use riverbed::players::{InputVerdict, PlayerRegistry, ServerPlayer};
use riverbed::pos::{chunks_in_col, ChunkPos, ColPos, Realm};
use riverbed::streaming::{process_chunk_changes, select_chunks_to_stream, ChunkDeliveryTracker, MAX_CHUNKS_PER_CLIENT_PER_TICK};

const OVERWORLD: Realm = Realm(0);

fn chunk(x: i32, y: i32, z: i32) -> ChunkPos {
    ChunkPos { x, y, z, realm: OVERWORLD }
}

// ---------------------------------------------------------------------------
// Players
// ---------------------------------------------------------------------------

#[test]
fn new_player_has_default_name() {
    let p = ServerPlayer::new(42);
    assert_eq!(p.id, 42);
    assert_eq!(p.name, "Player-42");
    assert_eq!(p.last_input_processed, 0);
    assert!(!p.is_authenticated);
    assert_eq!(ServerPlayer::new(0).name, "Player-0");
    assert_eq!(ServerPlayer::new(u64::MAX).name, "Player-18446744073709551615");
}

#[test]
fn registry_add_get_remove() {
    let mut reg = PlayerRegistry::default();
    reg.add_player(7);
    reg.add_player(9);
    assert_eq!(reg.get_player(7).unwrap().name, "Player-7");
    assert!(reg.get_player(8).is_none());
    assert!(!reg.is_authenticated(7));
    reg.get_player_mut(7).unwrap().is_authenticated = true;
    assert!(reg.is_authenticated(7));
    assert!(!reg.is_authenticated(9));
    assert_eq!(reg.authenticated_players(), vec![7]);
    reg.remove_player(7);
    assert!(reg.get_player(7).is_none());
    assert!(!reg.is_authenticated(7));
    assert!(reg.get_player_mut(7).is_none());
    assert_eq!(reg.authenticated_players(), Vec::<u64>::new());
}

#[test]
fn re_adding_a_player_resets_the_record() {
    let mut reg = PlayerRegistry::default();
    reg.add_player(5);
    reg.get_player_mut(5).unwrap().is_authenticated = true;
    reg.add_player(5);
    assert!(!reg.is_authenticated(5));
}

#[test]
fn input_verdicts() {
    let mut reg = PlayerRegistry::default();
    assert_eq!(reg.accept_input(1, 10, true), InputVerdict::UnknownPlayer);
    reg.add_player(1);
    assert_eq!(reg.accept_input(1, 10, true), InputVerdict::Unauthenticated);
    reg.get_player_mut(1).unwrap().is_authenticated = true;
    assert_eq!(reg.accept_input(1, 10, false), InputVerdict::NoEntity);
    assert_eq!(reg.accept_input(1, 10, true), InputVerdict::Applied);
    assert_eq!(reg.get_player(1).unwrap().last_input_processed, 10);
    // An input is applied once; older and equal timestamps are stale.
    assert_eq!(reg.accept_input(1, 10, true), InputVerdict::Stale);
    assert_eq!(reg.accept_input(1, 3, true), InputVerdict::Stale);
    assert_eq!(reg.get_player(1).unwrap().last_input_processed, 10);
    assert_eq!(reg.accept_input(1, 11, true), InputVerdict::Applied);
    assert_eq!(reg.get_player(1).unwrap().last_input_processed, 11);
}

#[test]
fn refused_inputs_change_nothing() {
    let mut reg = PlayerRegistry::default();
    reg.add_player(2);
    assert_eq!(reg.accept_input(2, 100, true), InputVerdict::Unauthenticated);
    assert_eq!(reg.get_player(2).unwrap().last_input_processed, 0);
}

// ---------------------------------------------------------------------------
// Chunk streaming
// ---------------------------------------------------------------------------

#[test]
fn delivery_tracking() {
    let mut t = ChunkDeliveryTracker::default();
    assert!(!t.was_delivered(1, &chunk(0, 0, 0)));
    t.mark_delivered(1, chunk(0, 0, 0));
    t.mark_delivered(1, chunk(0, 1, 0));
    t.mark_delivered(2, chunk(0, 0, 0));
    assert!(t.was_delivered(1, &chunk(0, 0, 0)));
    assert!(t.was_delivered(2, &chunk(0, 0, 0)));
    assert!(!t.was_delivered(2, &chunk(0, 1, 0)));
    t.invalidate_chunk(&chunk(0, 0, 0));
    assert!(!t.was_delivered(1, &chunk(0, 0, 0)));
    assert!(!t.was_delivered(2, &chunk(0, 0, 0)));
    assert!(t.was_delivered(1, &chunk(0, 1, 0)));
    t.remove_client(1);
    assert!(!t.was_delivered(1, &chunk(0, 1, 0)));
}

#[test]
fn chunk_changes_invalidate_and_request_colliders() {
    let mut t = ChunkDeliveryTracker::default();
    t.mark_delivered(3, chunk(1, 2, 3));
    t.mark_delivered(3, chunk(4, 5, 6));
    let reqs = process_chunk_changes(&mut t, &vec![chunk(1, 2, 3), chunk(7, 7, 7)]);
    assert_eq!(reqs, vec![ChunkColliderRebuildRequest::new(chunk(1, 2, 3)), ChunkColliderRebuildRequest::new(chunk(7, 7, 7))]);
    assert_eq!(reqs[0].lod, 1);
    assert!(!t.was_delivered(3, &chunk(1, 2, 3)));
    assert!(t.was_delivered(3, &chunk(4, 5, 6)));
}

#[test]
fn chunks_of_a_column() {
    let col = ColPos { x: 3, z: -2, realm: Realm(1) };
    let chunks = chunks_in_col(&col, 4);
    assert_eq!(chunks.len(), 4);
    for (y, c) in chunks.iter().enumerate() {
        assert_eq!(*c, ChunkPos { x: 3, y: y as i32, z: -2, realm: Realm(1) });
        assert_eq!(c.col(), col);
    }
    assert!(chunks_in_col(&col, 0).is_empty());
}

fn loaded_around(center: ColPos, rd: i32, y_chunks: i32) -> KeySet<ChunkPos> {
    let mut loaded = KeySet::new();
    for dx in -rd..=rd {
        for dz in -rd..=rd {
            let col = ColPos { x: center.x + dx, z: center.z + dz, realm: center.realm };
            for c in chunks_in_col(&col, y_chunks) {
                loaded.insert(c);
            }
        }
    }
    loaded
}

#[test]
fn streaming_sends_at_most_the_tick_budget_in_order() {
    let center = ColPos { x: 0, z: 0, realm: OVERWORLD };
    let loaded = loaded_around(center, 1, 4);
    let mut t = ChunkDeliveryTracker::default();
    let first = select_chunks_to_stream(&mut t, 9, center, 1, 4, &loaded);
    assert_eq!(first.len(), MAX_CHUNKS_PER_CLIENT_PER_TICK);
    // Columns from (-1, -1) in x-major order, chunks bottom to top.
    assert_eq!(first[0], chunk(-1, 0, -1));
    assert_eq!(first[3], chunk(-1, 3, -1));
    assert_eq!(first[4], chunk(-1, 0, 0));
    for c in &first {
        assert!(t.was_delivered(9, c));
    }
    // The rest comes on later ticks, never repeating a chunk.
    let second = select_chunks_to_stream(&mut t, 9, center, 1, 4, &loaded);
    assert_eq!(second.len(), MAX_CHUNKS_PER_CLIENT_PER_TICK);
    let third = select_chunks_to_stream(&mut t, 9, center, 1, 4, &loaded);
    assert_eq!(third.len(), 9 * 4 - 2 * MAX_CHUNKS_PER_CLIENT_PER_TICK);
    for c in &second {
        assert!(!first.contains(c));
    }
    let fourth = select_chunks_to_stream(&mut t, 9, center, 1, 4, &loaded);
    assert!(fourth.is_empty());
}

#[test]
fn streaming_skips_unloaded_and_resends_invalidated() {
    let center = ColPos { x: 10, z: 10, realm: OVERWORLD };
    let mut loaded = KeySet::new();
    loaded.insert(chunk(10, 0, 10));
    loaded.insert(chunk(11, 1, 9));
    loaded.insert(chunk(50, 0, 50));
    let mut t = ChunkDeliveryTracker::default();
    let sent = select_chunks_to_stream(&mut t, 1, center, 1, 2, &loaded);
    assert_eq!(sent, vec![chunk(10, 0, 10), chunk(11, 1, 9)]);
    assert!(select_chunks_to_stream(&mut t, 1, center, 1, 2, &loaded).is_empty());
    // Another client gets its own copy.
    assert_eq!(select_chunks_to_stream(&mut t, 2, center, 1, 2, &loaded).len(), 2);
    t.invalidate_chunk(&chunk(11, 1, 9));
    assert_eq!(select_chunks_to_stream(&mut t, 1, center, 1, 2, &loaded), vec![chunk(11, 1, 9)]);
    // A negative render distance streams nothing.
    t.invalidate_chunk(&chunk(10, 0, 10));
    assert!(select_chunks_to_stream(&mut t, 1, center, -1, 2, &loaded).is_empty());
}

// ---------------------------------------------------------------------------
// Collider synchronisation
// ---------------------------------------------------------------------------

#[test]
fn coalescing_keeps_the_most_detailed_request() {
    let mut q = ColliderCookQueue::default();
    q.coalesce_requests(&vec![
        ChunkColliderRebuildRequest::with_lod(chunk(0, 0, 0), 4),
        ChunkColliderRebuildRequest::with_lod(chunk(1, 0, 0), 2),
        ChunkColliderRebuildRequest::new(chunk(0, 0, 0)),
        ChunkColliderRebuildRequest::with_lod(chunk(1, 0, 0), 3),
    ]);
    let cooking = ColliderCookingInProgress::default();
    assert_eq!(q.select_cook_candidates(&cooking), vec![(chunk(0, 0, 0), 1), (chunk(1, 0, 0), 2)]);
}

#[test]
fn cook_candidates_skip_cooking_chunks_and_respect_the_budget() {
    let mut q = ColliderCookQueue::default();
    let mut reqs = Vec::new();
    for x in 0..12 {
        reqs.push(ChunkColliderRebuildRequest::new(chunk(x, 0, 0)));
    }
    q.coalesce_requests(&reqs);
    let mut cooking = ColliderCookingInProgress::default();
    cooking.chunks.insert(chunk(0, 0, 0));
    cooking.chunks.insert(chunk(2, 0, 0));
    let c = q.select_cook_candidates(&cooking);
    assert_eq!(c.len(), MAX_COOK_JOBS_PER_TICK);
    let xs: Vec<i32> = c.iter().map(|(p, _)| p.x).collect();
    assert_eq!(xs, vec![1, 3, 4, 5, 6, 7, 8, 9]);
}

#[test]
fn dispatch_moves_jobs_from_pending_to_cooking() {
    let mut q = ColliderCookQueue::default();
    q.coalesce_requests(&vec![ChunkColliderRebuildRequest::new(chunk(0, 0, 0)), ChunkColliderRebuildRequest::new(chunk(1, 0, 0))]);
    let mut cooking = ColliderCookingInProgress::default();
    assert!(record_cook_dispatch(&mut q, &mut cooking, chunk(0, 0, 0), SendOutcome::Sent));
    assert!(cooking.chunks.contains(&chunk(0, 0, 0)));
    assert!(!record_cook_dispatch(&mut q, &mut cooking, chunk(1, 0, 0), SendOutcome::Full));
    assert!(!record_cook_dispatch(&mut q, &mut cooking, chunk(1, 0, 0), SendOutcome::Disconnected));
    assert!(!cooking.chunks.contains(&chunk(1, 0, 0)));
    assert_eq!(q.select_cook_candidates(&cooking), vec![(chunk(1, 0, 0), 1)]);
}

#[test]
fn only_the_latest_cook_result_is_applied() {
    let mut versions = ColliderVersionTracker::default();
    let mut cooking = ColliderCookingInProgress::default();
    let mut registry = ChunkColliderEntityRegistry::default();
    let p = chunk(2, 2, 2);
    assert_eq!(versions.current(&p), 0);
    let v1 = versions.next_version(p);
    let v2 = versions.next_version(p);
    assert_eq!((v1, v2), (1, 2));
    assert_eq!(versions.current(&p), 2);
    registry.register(p, 77);
    cooking.chunks.insert(p);
    assert_eq!(apply_cook_result(&mut cooking, &versions, &mut registry, p, v1, true), CookResultAction::Stale);
    assert!(!cooking.chunks.contains(&p));
    assert_eq!(
        apply_cook_result(&mut cooking, &versions, &mut registry, p, v2, true),
        CookResultAction::Apply { despawn: Some(77), spawn: true }
    );
    assert_eq!(
        apply_cook_result(&mut cooking, &versions, &mut registry, p, v2, false),
        CookResultAction::Apply { despawn: None, spawn: false }
    );
}

#[test]
fn forgetting_a_chunk_clears_every_record() {
    let mut q = ColliderCookQueue::default();
    let mut cooking = ColliderCookingInProgress::default();
    let mut versions = ColliderVersionTracker::default();
    let mut registry = ChunkColliderEntityRegistry::default();
    let p = chunk(0, 1, 0);
    q.coalesce_requests(&vec![ChunkColliderRebuildRequest::new(p)]);
    cooking.chunks.insert(p);
    versions.next_version(p);
    registry.register(p, 5);
    assert_eq!(forget_chunk_collider(&mut q, &mut cooking, &mut versions, &mut registry, p), Some(5));
    assert!(q.select_cook_candidates(&cooking).is_empty());
    assert!(!cooking.chunks.contains(&p));
    // The version moves on instead of starting over.
    assert_eq!(versions.current(&p), 2);
    assert_eq!(forget_chunk_collider(&mut q, &mut cooking, &mut versions, &mut registry, p), None);
    assert_eq!(versions.current(&p), 3);
    // A chunk that never had a job keeps no version.
    let other = chunk(9, 9, 9);
    assert_eq!(forget_chunk_collider(&mut q, &mut cooking, &mut versions, &mut registry, other), None);
    assert_eq!(versions.current(&other), 0);
}

#[test]
fn a_result_from_before_an_unload_is_stale() {
    let mut q = ColliderCookQueue::default();
    let mut cooking = ColliderCookingInProgress::default();
    let mut versions = ColliderVersionTracker::default();
    let mut registry = ChunkColliderEntityRegistry::default();
    let p = chunk(4, 0, 4);
    let v1 = versions.next_version(p);
    cooking.chunks.insert(p);
    // The column is unloaded while the job cooks, then the chunk comes back.
    forget_chunk_collider(&mut q, &mut cooking, &mut versions, &mut registry, p);
    let v2 = versions.next_version(p);
    assert!(v2 > v1);
    assert_eq!(apply_cook_result(&mut cooking, &versions, &mut registry, p, v1, true), CookResultAction::Stale);
    assert_eq!(
        apply_cook_result(&mut cooking, &versions, &mut registry, p, v2, true),
        CookResultAction::Apply { despawn: None, spawn: true }
    );
}

#[test]
fn dispatch_starts_available_jobs_in_queue_order() {
    let mut q = ColliderCookQueue::default();
    let mut cooking = ColliderCookingInProgress::default();
    let mut versions = ColliderVersionTracker::default();
    cooking.chunks.insert(chunk(1, 0, 0));
    versions.next_version(chunk(2, 0, 0));
    let requests = vec![
        ChunkColliderRebuildRequest::new(chunk(0, 0, 0)),
        ChunkColliderRebuildRequest::new(chunk(1, 0, 0)),
        ChunkColliderRebuildRequest::with_lod(chunk(2, 0, 0), 2),
        ChunkColliderRebuildRequest::new(chunk(3, 0, 0)),
    ];
    // Chunk 3 is not available yet.
    let attempts = dispatch_cook_jobs(&mut q, &mut cooking, &mut versions, &requests, |p: ChunkPos, _lod: usize, _v: u64| {
        if p.x == 3 { None } else { Some(SendOutcome::Sent) }
    });
    assert_eq!(
        attempts,
        vec![
            (chunk(0, 0, 0), 1, 1, Some(SendOutcome::Sent)),
            (chunk(2, 0, 0), 2, 2, Some(SendOutcome::Sent)),
            (chunk(3, 0, 0), 1, 1, None),
        ]
    );
    assert!(cooking.chunks.contains(&chunk(0, 0, 0)) && cooking.chunks.contains(&chunk(2, 0, 0)));
    assert_eq!(versions.current(&chunk(2, 0, 0)), 2);
    assert_eq!(versions.current(&chunk(3, 0, 0)), 0);
    // Chunk 1 (cooking) and chunk 3 (missing) stay pending.
    let none_cooking = ColliderCookingInProgress::default();
    assert_eq!(q.select_cook_candidates(&none_cooking), vec![(chunk(1, 0, 0), 1), (chunk(3, 0, 0), 1)]);
}

#[test]
fn dispatch_stops_when_the_workers_are_full() {
    let mut q = ColliderCookQueue::default();
    let mut cooking = ColliderCookingInProgress::default();
    let mut versions = ColliderVersionTracker::default();
    let mut requests = Vec::new();
    for x in 0..12 {
        requests.push(ChunkColliderRebuildRequest::new(chunk(x, 0, 0)));
    }
    let attempts = dispatch_cook_jobs(&mut q, &mut cooking, &mut versions, &requests, |p: ChunkPos, _lod: usize, _v: u64| {
        Some(if p.x < 2 { SendOutcome::Sent } else { SendOutcome::Full })
    });
    assert_eq!(attempts.len(), 3);
    assert_eq!(attempts[2].3, Some(SendOutcome::Full));
    // The refused job keeps its chunk pending, with its version moved on.
    assert!(!cooking.chunks.contains(&chunk(2, 0, 0)));
    assert_eq!(versions.current(&chunk(2, 0, 0)), 1);
    let all = q.select_cook_candidates(&cooking);
    assert_eq!(all[0], (chunk(2, 0, 0), 1));
    // Never more than the frame budget of attempts.
    let attempts = dispatch_cook_jobs(&mut q, &mut cooking, &mut versions, &vec![], |_p: ChunkPos, _lod: usize, _v: u64| {
        Some(SendOutcome::Sent)
    });
    assert_eq!(attempts.len(), MAX_COOK_JOBS_PER_TICK);
}

#[test]
fn cook_results_are_applied_up_to_the_frame_budget() {
    let mut cooking = ColliderCookingInProgress::default();
    let mut versions = ColliderVersionTracker::default();
    let mut registry = ChunkColliderEntityRegistry::default();
    let mut results = Vec::new();
    for x in 0..20 {
        let p = chunk(x, 0, 0);
        let v = versions.next_version(p);
        cooking.chunks.insert(p);
        // Chunk 0 got a newer job since; its first result is stale.
        results.push(CookResult { chunk_pos: p, version: v, collider: if x % 2 == 0 { Some(x) } else { None } });
    }
    versions.next_version(chunk(0, 0, 0));
    registry.register(chunk(2, 0, 0), 500);
    let despawned = RefCell::new(Vec::new());
    let spawned = RefCell::new(Vec::new());
    let (applied, rest) = apply_cook_results(
        &mut cooking,
        &versions,
        &mut registry,
        results,
        |e: u64| despawned.borrow_mut().push(e),
        |p: ChunkPos, t: i32| {
            spawned.borrow_mut().push((p, t));
            1000 + t as u64
        },
    );
    // One stale result plus sixteen applied ones; three wait.
    assert_eq!(applied.len(), 17);
    assert_eq!(rest.len(), 3);
    assert_eq!(rest[0].chunk_pos, chunk(17, 0, 0));
    assert_eq!(applied[0], (chunk(0, 0, 0), 1, CookResultAction::Stale, None));
    assert_eq!(applied[2], (chunk(2, 0, 0), 1, CookResultAction::Apply { despawn: Some(500), spawn: true }, Some(1002)));
    assert_eq!(applied[1], (chunk(1, 0, 0), 1, CookResultAction::Apply { despawn: None, spawn: false }, None));
    assert_eq!(*despawned.borrow(), vec![500]);
    assert_eq!(spawned.borrow().len(), 8);
    assert_eq!(registry.entities.get(&chunk(2, 0, 0)), Some(&1002));
    assert!(registry.entities.get(&chunk(0, 0, 0)).is_none());
    assert!(!cooking.chunks.contains(&chunk(0, 0, 0)));
    assert!(cooking.chunks.contains(&chunk(17, 0, 0)));
}
