use streamlog::consumer_group::ConsumerGroup;
use streamlog::error::Error;

fn assignments(g: &ConsumerGroup) -> Vec<(u32, Vec<u32>)> {
    g.members.iter().map(|m| (m.client_id, m.partitions.clone())).collect()
}

#[test]
fn group_rebalances_on_join_and_leave() {
    let mut g = ConsumerGroup::new(1, 1, 3);
    g.join(10);
    assert_eq!(assignments(&g), vec![(10, vec![1, 2, 3])]);
    g.join(20);
    assert_eq!(assignments(&g), vec![(10, vec![1, 2]), (20, vec![3])]);
    assert_eq!(g.leave(10), Ok(()));
    assert_eq!(assignments(&g), vec![(20, vec![1, 2, 3])]);
    assert_eq!(g.leave(10), Err(Error::ConsumerGroupMemberNotFound(10, 1, 1)));
    assert_eq!(g.leave(20), Ok(()));
    assert!(g.members.is_empty());
}

#[test]
fn group_shares_differ_by_at_most_one() {
    let mut g = ConsumerGroup::new(1, 1, 10);
    for client in 1..=4 {
        g.join(client);
    }
    let sizes: Vec<usize> = g.members.iter().map(|m| m.partitions.len()).collect();
    assert_eq!(sizes, vec![3, 3, 2, 2]);
    let mut all: Vec<u32> = g.members.iter().flat_map(|m| m.partitions.clone()).collect();
    all.sort();
    assert_eq!(all, (1..=10).collect::<Vec<u32>>());
    g.join(2);
    assert_eq!(g.members.len(), 4);
}

#[test]
fn more_members_than_partitions_leaves_some_idle() {
    let mut g = ConsumerGroup::new(1, 1, 1);
    g.join(1);
    g.join(2);
    assert_eq!(assignments(&g), vec![(1, vec![1]), (2, vec![])]);
    assert_eq!(g.next_partition(2), Ok(None));
    assert_eq!(g.next_partition(1), Ok(Some(1)));
    assert_eq!(g.next_partition(3), Err(Error::ConsumerGroupMemberNotFound(3, 1, 1)));
}

#[test]
fn member_cursor_cycles_over_its_partitions() {
    let mut g = ConsumerGroup::new(1, 1, 2);
    g.join(5);
    let order: Vec<Option<u32>> = (0..5).map(|_| g.next_partition(5).unwrap()).collect();
    assert_eq!(order, vec![Some(1), Some(2), Some(1), Some(2), Some(1)]);
}
