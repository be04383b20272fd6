use parachuter::control::RequestedRange;
use parachuter::sender::queue::{PacketQueue, WorkItem};

fn r(start: u32, count: u32) -> RequestedRange {
    RequestedRange { start, count }
}

#[test]
fn snapshot_groups_by_file() {
    let mut q = PacketQueue::new();
    q.push_back(WorkItem::Data { file_id: 1, range: r(0, 10) });
    q.push_back(WorkItem::Manifest { file_id: 1, file_name: "/tmp/a".into() });
    q.push_back(WorkItem::Retransmit { file_id: 2, range: r(5, 3) });
    let snap = q.snapshot();
    assert_eq!(snap.len(), 2);
    let f1 = snap.iter().find(|s| s.file_id == 1).unwrap();
    assert!(f1.manifest_pending);
    assert_eq!(f1.ranges, vec![r(0, 10)]);
    let f2 = snap.iter().find(|s| s.file_id == 2).unwrap();
    assert!(!f2.manifest_pending);
    assert_eq!(f2.ranges, vec![r(5, 3)]);
}

#[test]
fn contains_chunk() {
    let mut q = PacketQueue::new();
    q.push_back(WorkItem::Data { file_id: 7, range: r(10, 5) });
    assert!(q.contains_chunk(7, 12));
    assert!(!q.contains_chunk(7, 16));
    assert!(!q.contains_chunk(8, 12));
}

#[test]
fn every_mutation_raises_the_revision() {
    let mut q = PacketQueue::default();
    assert_eq!(q.revision(), 0);
    q.clear();
    assert!(q.pop_front().is_none());
    assert_eq!(q.revision(), 0, "nothing was there to change");
    q.push_back(WorkItem::Data { file_id: 1, range: r(0, 2) });
    assert_eq!(q.revision(), 1);
    q.push_front(WorkItem::Manifest { file_id: 1, file_name: "n".into() });
    assert_eq!(q.revision(), 2);
    assert_eq!(q.front().unwrap().packet_count(), 1);
    assert_eq!(q.depth(), 3);
    assert!(matches!(q.pop_front(), Some(WorkItem::Manifest { .. })));
    assert_eq!(q.revision(), 3);
    q.clear();
    assert_eq!(q.revision(), 4);
    assert_eq!(q.depth(), 0);
    q.clear();
    assert!(q.pop_front().is_none());
    assert_eq!(q.revision(), 4, "a second time changes nothing");
}

#[test]
fn first_in_is_first_out() {
    let mut q = PacketQueue::new();
    for id in 1..=5 {
        q.push_back(WorkItem::Data { file_id: id, range: r(0, 1) });
    }
    assert_eq!(q.revision(), 5);
    for id in 1..=5 {
        assert_eq!(q.pop_front().unwrap().file_id(), id);
        assert_eq!(q.revision(), 5 + id as u64);
    }
    for _ in 0..3 {
        assert!(q.pop_front().is_none());
        assert_eq!(q.revision(), 10);
    }
}

#[test]
fn looking_does_not_raise_the_revision() {
    let mut q = PacketQueue::new();
    q.push_front(WorkItem::Data { file_id: 1, range: r(0, 2) });
    let before = q.revision();
    q.front();
    q.depth();
    q.snapshot();
    q.contains_chunk(1, 0);
    assert_eq!(q.revision(), before);
}

#[test]
fn depth_that_does_not_fit_is_told() {
    let mut q = PacketQueue::new();
    q.push_back(WorkItem::Data { file_id: 1, range: r(0, u32::MAX) });
    assert_eq!(q.checked_depth(), Some(u32::MAX));
    q.push_back(WorkItem::Manifest { file_id: 1, file_name: "n".into() });
    assert_eq!(q.checked_depth(), None);
}

#[test]
fn snapshot_is_ordered_by_file_and_keeps_range_order() {
    let mut q = PacketQueue::new();
    q.push_back(WorkItem::Data { file_id: 9, range: r(4, 1) });
    q.push_back(WorkItem::Data { file_id: -1, range: r(0, 1) });
    q.push_back(WorkItem::Retransmit { file_id: 9, range: r(1, 2) });
    let snap = q.snapshot();
    let ids: Vec<i64> = snap.iter().map(|s| s.file_id).collect();
    assert_eq!(ids, vec![-1, 9]);
    assert_eq!(snap[1].ranges, vec![r(4, 1), r(1, 2)]);
}

#[test]
fn ranges_know_their_chunks() {
    assert_eq!(r(3, 4).end(), 7);
    assert!(r(3, 4).contains(3) && r(3, 4).contains(6));
    assert!(!r(3, 4).contains(2) && !r(3, 4).contains(7));
    assert!(r(u32::MAX, 5).contains(u32::MAX));
}
