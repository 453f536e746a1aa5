use segment_manager::holder::SegmentHolder;
use segment_manager::search::SimpleSegmentSearcher;
use segment_manager::segment::{PointData, Segment};
use segment_manager::topk::peek_top_scores;
use segment_manager::types::{
    CollectionUpdateOperations, Distance, PayloadOperation, PayloadValue, PointOperation,
    ScoredPoint, UpdateError,
};
use segment_manager::update::SimpleSegmentUpdater;

fn seg(version: u64, points: Vec<(u64, Vec<i32>)>) -> Segment {
    Segment {
        version,
        points: points
            .into_iter()
            .map(|(id, vector)| (id, PointData { vector, payload: Vec::new() }))
            .collect(),
    }
}

fn build_test_holder() -> SegmentHolder {
    let mut holder = SegmentHolder::new();
    holder.add_segment(seg(
        1,
        vec![
            (1, vec![1, 0, 0, 0]),
            (2, vec![0, 1, 0, 0]),
            (3, vec![1, 1, 1, 1]),
            (4, vec![0, 0, 1, 0]),
            (5, vec![0, 0, 0, 1]),
        ],
    ));
    holder.add_segment(seg(
        2,
        vec![(11, vec![1, 1, 1, 1]), (12, vec![1, 0, 0, 0]), (13, vec![0, 1, 0, 0])],
    ));
    holder
}

#[test]
fn test_segments_search() {
    let segment_holder = build_test_holder();
    let searcher = SimpleSegmentSearcher::new(Distance::Dot);
    let query = vec![1, 1, 1, 1];
    let result = searcher.search(&segment_holder, &query, None, 5, None);

    assert_eq!(result.len(), 5);
    assert!(result[0].idx == 3 || result[0].idx == 11);
    assert!(result[1].idx == 3 || result[1].idx == 11);
}

#[test]
fn test_retrieve() {
    let segment_holder = build_test_holder();
    let searcher = SimpleSegmentSearcher::new(Distance::Dot);
    let records = searcher.retrieve(&segment_holder, &vec![1, 2, 3], true, true);
    assert_eq!(records.len(), 3);
}

#[test]
fn test_insert_points() {
    let mut holder = build_test_holder();
    let updater = SimpleSegmentUpdater {};

    let mut payload: Vec<(String, PayloadValue)> = Vec::new();
    payload.push(("color".to_string(), PayloadValue::Keyword("red".to_string())));
    let points = vec![1, 2, 3];

    let _ = updater.process_payload_operation(
        &mut holder,
        100,
        &PayloadOperation::SetPayload { payload, points },
    );
}

#[test]
fn two_segment_search_tie() {
    // Both 3 and 11 score 4 against [1,1,1,1] under dot product.
    let holder = build_test_holder();
    let searcher = SimpleSegmentSearcher::new(Distance::Dot);
    let result = searcher.search(&holder, &vec![1, 1, 1, 1], None, 5, None);
    assert_eq!(result.len(), 5);
    assert_eq!(result[0].score, 4);
    assert_eq!(result[1].score, 4);
    let firsts = [result[0].idx, result[1].idx];
    assert!(firsts.contains(&3) && firsts.contains(&11));
}

#[test]
fn dedup_across_segments() {
    // Point 7 exists in both segments with score 9; one entry comes back.
    let mut holder = SegmentHolder::new();
    holder.add_segment(seg(1, vec![(7, vec![3, 3, 3, 0]), (8, vec![1, 0, 0, 0])]));
    holder.add_segment(seg(2, vec![(7, vec![3, 3, 3, 0]), (9, vec![0, 1, 0, 0])]));
    let searcher = SimpleSegmentSearcher::new(Distance::Dot);
    let result = searcher.search(&holder, &vec![1, 1, 1, 1], None, 3, None);
    assert_eq!(result.len(), 3);
    assert_eq!(result[0].idx, 7);
    assert_eq!(result[0].score, 9);
    assert_eq!(result.iter().filter(|p| p.idx == 7).count(), 1);
}

#[test]
fn version_reconciled_retrieve() {
    // Point 2 has v1 in a version-10 segment and v2 in a version-20 one.
    let mut holder = SegmentHolder::new();
    holder.add_segment(seg(10, vec![(2, vec![1, 2, 3, 4])]));
    holder.add_segment(seg(20, vec![(2, vec![5, 6, 7, 8])]));
    let searcher = SimpleSegmentSearcher::new(Distance::Dot);
    let records = searcher.retrieve(&holder, &vec![2], false, true);
    assert_eq!(records.len(), 1);
    assert_eq!(records[0].id, 2);
    assert!(records[0].payload.is_none());
    assert_eq!(records[0].vector.as_ref().unwrap(), &vec![5, 6, 7, 8]);
}

#[test]
fn upsert_routing() {
    let mut holder = SegmentHolder::new();
    holder.add_segment(seg(0, vec![]));
    let updater = SimpleSegmentUpdater {};
    let searcher = SimpleSegmentSearcher::new(Distance::Dot);

    let op = CollectionUpdateOperations::PointOperation(PointOperation::Upsert {
        ids: vec![99],
        vectors: vec![vec![4, 4, 4, 4]],
    });
    let r = updater.update(&mut holder, 100, &op);
    assert!(r.is_ok());
    let records = searcher.retrieve(&holder, &vec![99], false, true);
    assert_eq!(records.len(), 1);
    assert_eq!(records[0].vector.as_ref().unwrap(), &vec![4, 4, 4, 4]);

    // The same sequence number is not strictly greater: a no-op.
    let op2 = CollectionUpdateOperations::PointOperation(PointOperation::Upsert {
        ids: vec![99],
        vectors: vec![vec![9, 9, 9, 9]],
    });
    let r2 = updater.update(&mut holder, 100, &op2);
    assert!(r2.is_ok());
    let records = searcher.retrieve(&holder, &vec![99], false, true);
    assert_eq!(records.len(), 1);
    assert_eq!(records[0].vector.as_ref().unwrap(), &vec![4, 4, 4, 4]);
}

#[test]
fn not_found_on_payload_set() {
    let mut holder = build_test_holder();
    let updater = SimpleSegmentUpdater {};
    let payload = vec![("color".to_string(), PayloadValue::Keyword("red".to_string()))];
    let r = updater.process_payload_operation(
        &mut holder,
        50,
        &PayloadOperation::SetPayload { payload, points: vec![1, 2, 3, 4711] },
    );
    match r {
        Err(UpdateError::NotFound { missed_point_id }) => assert_eq!(missed_point_id, 4711),
        other => panic!("expected NotFound, got {:?}", other),
    }
    // Partial success is visible: the found ids carry the payload.
    let searcher = SimpleSegmentSearcher::new(Distance::Dot);
    let records = searcher.retrieve(&holder, &vec![1, 2, 3], true, false);
    assert_eq!(records.len(), 3);
    for rec in &records {
        let payload = rec.payload.as_ref().unwrap();
        assert_eq!(payload.len(), 1);
        assert_eq!(payload[0].0, "color");
        assert!(payload[0].1.matches(&PayloadValue::Keyword("red".to_string())));
    }
}

#[test]
fn delete_on_absent_id_is_silent() {
    let mut holder = build_test_holder();
    let updater = SimpleSegmentUpdater {};
    let op = CollectionUpdateOperations::PointOperation(PointOperation::Delete {
        ids: vec![9999],
    });
    let r = updater.update(&mut holder, 60, &op);
    assert_eq!(r.unwrap(), 0);
}

#[test]
fn delete_removes_everywhere() {
    let mut holder = SegmentHolder::new();
    holder.add_segment(seg(1, vec![(5, vec![1, 1, 1, 1])]));
    holder.add_segment(seg(2, vec![(5, vec![2, 2, 2, 2])]));
    let updater = SimpleSegmentUpdater {};
    let r = updater.delete_points(&mut holder, 10, &vec![5]);
    assert_eq!(r.unwrap(), 2);
    let searcher = SimpleSegmentSearcher::new(Distance::Dot);
    assert_eq!(searcher.retrieve(&holder, &vec![5], false, true).len(), 0);
}

#[test]
fn upsert_without_segments_is_a_service_error() {
    let mut holder = SegmentHolder::new();
    let updater = SimpleSegmentUpdater {};
    let r = updater.upsert_points(&mut holder, 7, &vec![1], &vec![vec![1, 2]]);
    assert!(matches!(r, Err(UpdateError::ServiceError { .. })));
}

#[test]
fn random_routing_targets_the_only_segment() {
    // With one segment the drawn index can only be zero.
    let mut holder = SegmentHolder::new();
    holder.add_segment(seg(0, vec![]));
    let updater = SimpleSegmentUpdater {};
    let r = updater.upsert_points(&mut holder, 3, &vec![42], &vec![vec![1]]);
    assert!(r.is_ok());
    let searcher = SimpleSegmentSearcher::new(Distance::Dot);
    assert_eq!(searcher.retrieve(&holder, &vec![42], false, false).len(), 1);
}

#[test]
fn replay_is_idempotent_for_payload_ops() {
    let mut holder = build_test_holder();
    let updater = SimpleSegmentUpdater {};
    let op = CollectionUpdateOperations::PayloadOperation(PayloadOperation::SetPayload {
        payload: vec![("color".to_string(), PayloadValue::Keyword("red".to_string()))],
        points: vec![1, 2],
    });
    let _ = updater.update(&mut holder, 30, &op);
    let op2 = CollectionUpdateOperations::PayloadOperation(PayloadOperation::SetPayload {
        payload: vec![("color".to_string(), PayloadValue::Keyword("blue".to_string()))],
        points: vec![1, 2],
    });
    // Same sequence number: absorbed as a no-op, red stays.
    let _ = updater.update(&mut holder, 30, &op2);
    let searcher = SimpleSegmentSearcher::new(Distance::Dot);
    let records = searcher.retrieve(&holder, &vec![1], true, false);
    let payload = records[0].payload.as_ref().unwrap();
    assert!(payload[0].1.matches(&PayloadValue::Keyword("red".to_string())));
}

#[test]
fn wipe_payload_clears_every_point() {
    let mut holder = build_test_holder();
    let updater = SimpleSegmentUpdater {};
    let set = CollectionUpdateOperations::PayloadOperation(PayloadOperation::SetPayload {
        payload: vec![("color".to_string(), PayloadValue::Keyword("red".to_string()))],
        points: vec![1, 11],
    });
    updater.update(&mut holder, 5, &set).unwrap();
    let wipe = CollectionUpdateOperations::PayloadOperation(PayloadOperation::WipePayload);
    let r = updater.update(&mut holder, 6, &wipe);
    assert_eq!(r.unwrap(), 2);
    let searcher = SimpleSegmentSearcher::new(Distance::Dot);
    for rec in searcher.retrieve(&holder, &vec![1, 11], true, false) {
        assert_eq!(rec.payload.as_ref().unwrap().len(), 0);
    }
}

#[test]
fn delete_and_clear_payload() {
    let mut holder = build_test_holder();
    let updater = SimpleSegmentUpdater {};
    let payload = vec![
        ("color".to_string(), PayloadValue::Keyword("red".to_string())),
        ("rank".to_string(), PayloadValue::Integer(4)),
    ];
    updater.set_payload(&mut holder, 5, &payload, &vec![1, 2]).unwrap();
    updater.delete_payload(&mut holder, 6, &vec![1], &vec!["color".to_string()]).unwrap();
    let searcher = SimpleSegmentSearcher::new(Distance::Dot);
    let recs = searcher.retrieve(&holder, &vec![1], true, false);
    let pl = recs[0].payload.as_ref().unwrap();
    assert_eq!(pl.len(), 1);
    assert_eq!(pl[0].0, "rank");
    updater.clear_payload(&mut holder, 7, &vec![2]).unwrap();
    let recs = searcher.retrieve(&holder, &vec![2], true, false);
    assert_eq!(recs[0].payload.as_ref().unwrap().len(), 0);
}

#[test]
fn filtered_search_matches_payload() {
    let mut holder = build_test_holder();
    let updater = SimpleSegmentUpdater {};
    let payload = vec![("color".to_string(), PayloadValue::Keyword("red".to_string()))];
    updater.set_payload(&mut holder, 5, &payload, &vec![3]).unwrap();
    let searcher = SimpleSegmentSearcher::new(Distance::Dot);
    let filter = segment_manager::types::Filter {
        key: "color".to_string(),
        value: PayloadValue::Keyword("red".to_string()),
    };
    let result = searcher.search(&holder, &vec![1, 1, 1, 1], Some(&filter), 10, None);
    assert_eq!(result.len(), 1);
    assert_eq!(result[0].idx, 3);
}

#[test]
fn top_k_keeps_the_best_dot_scores() {
    let items = vec![
        ScoredPoint { idx: 1, score: 5 },
        ScoredPoint { idx: 2, score: 9 },
        ScoredPoint { idx: 3, score: 1 },
        ScoredPoint { idx: 4, score: 7 },
    ];
    let r = peek_top_scores(&items, 2, Distance::Dot);
    assert_eq!(
        r,
        vec![ScoredPoint { idx: 2, score: 9 }, ScoredPoint { idx: 4, score: 7 }]
    );
}

#[test]
fn top_k_keeps_the_smallest_euclid_scores() {
    let items = vec![
        ScoredPoint { idx: 1, score: 5 },
        ScoredPoint { idx: 2, score: 9 },
        ScoredPoint { idx: 3, score: 1 },
        ScoredPoint { idx: 4, score: 7 },
    ];
    let r = peek_top_scores(&items, 2, Distance::Euclid);
    assert_eq!(
        r,
        vec![ScoredPoint { idx: 3, score: 1 }, ScoredPoint { idx: 1, score: 5 }]
    );
}

#[test]
fn exact_scores() {
    assert_eq!(
        segment_manager::search::score(Distance::Dot, &vec![1, 2, 3], &vec![4, 5, 6]),
        32
    );
    assert_eq!(
        segment_manager::search::score(Distance::Euclid, &vec![0, 0], &vec![3, 4]),
        25
    );
}

#[test]
fn euclid_search_prefers_the_nearest() {
    let mut holder = SegmentHolder::new();
    holder.add_segment(seg(1, vec![(1, vec![0, 0]), (2, vec![3, 4]), (3, vec![1, 1])]));
    let searcher = SimpleSegmentSearcher::new(Distance::Euclid);
    let result = searcher.search(&holder, &vec![0, 0], None, 2, None);
    assert_eq!(result.len(), 2);
    assert_eq!(result[0].idx, 1);
    assert_eq!(result[0].score, 0);
    assert_eq!(result[1].idx, 3);
    assert_eq!(result[1].score, 2);
}

#[test]
fn check_unprocessed_points_names_the_first_miss() {
    let r = SimpleSegmentUpdater::check_unprocessed_points(&vec![1, 2, 3], &vec![1, 3]);
    match r {
        Err(UpdateError::NotFound { missed_point_id }) => assert_eq!(missed_point_id, 2),
        other => panic!("expected NotFound, got {:?}", other),
    }
    let ok = SimpleSegmentUpdater::check_unprocessed_points(&vec![1, 3], &vec![1, 3]);
    assert_eq!(ok.unwrap(), 2);
}
