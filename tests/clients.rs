use streamlog::clients::ClientRegistry;
use streamlog::error::Error;
use streamlog::system::System;

#[test]
fn client_ids_increase_from_one() {
    let mut registry = ClientRegistry::new();
    assert_eq!(registry.connect("127.0.0.1:1".to_string()), Ok(1));
    assert_eq!(registry.connect("127.0.0.1:2".to_string()), Ok(2));
    assert!(registry.disconnect(1).is_ok());
    assert_eq!(registry.connect("127.0.0.1:3".to_string()), Ok(3));
    assert!(registry.get_client(1).is_none());
    assert_eq!(registry.get_client(3).unwrap().address, "127.0.0.1:3");
    assert!(matches!(registry.disconnect(9), Err(Error::ClientNotFound(9))));
}

#[test]
fn client_ids_run_out_at_the_largest() {
    let mut registry = ClientRegistry { next_id: u32::MAX - 1, clients: Vec::new() };
    assert_eq!(registry.connect("a".to_string()), Ok(u32::MAX - 1));
    assert_eq!(registry.connect("b".to_string()), Err(Error::InvalidClientId));
}

#[test]
fn disconnect_leaves_joined_groups() {
    let mut system = System::new(1_000_000);
    system.create_stream(1, "s".to_string()).unwrap();
    system.create_topic(1, 1, "t".to_string(), 2).unwrap();
    assert_eq!(system.create_consumer_group(1, 1, 3), Ok(()));
    assert_eq!(system.create_consumer_group(1, 1, 3), Err(Error::ConsumerGroupAlreadyExists(3, 1)));
    assert_eq!(system.create_consumer_group(2, 1, 3), Err(Error::StreamNotFound(2)));
    let a = system.connect("a".to_string()).unwrap();
    let b = system.connect("b".to_string()).unwrap();
    assert_eq!(system.join_consumer_group(1, 1, 3, 99), Err(Error::ClientNotFound(99)));
    assert_eq!(system.join_consumer_group(1, 1, 4, a), Err(Error::ConsumerGroupNotFound(4, 1)));
    assert_eq!(system.join_consumer_group(1, 2, 3, a), Err(Error::TopicNotFound(2, 1)));
    assert_eq!(system.join_consumer_group(1, 1, 3, a), Ok(()));
    assert_eq!(system.join_consumer_group(1, 1, 3, b), Ok(()));
    let group = &system.streams[0].topics[0].consumer_groups[0];
    assert_eq!(group.members.len(), 2);
    assert_eq!(system.disconnect(a), Ok(()));
    let group = &system.streams[0].topics[0].consumer_groups[0];
    assert_eq!(group.members.len(), 1);
    assert_eq!(group.members[0].client_id, b);
    assert_eq!(group.members[0].partitions, vec![1, 2]);
    assert_eq!(system.disconnect(a), Err(Error::ClientNotFound(a)));
    assert_eq!(
        system.leave_consumer_group(1, 1, 3, b),
        Ok(())
    );
    assert_eq!(
        system.leave_consumer_group(1, 1, 3, b),
        Err(Error::ConsumerGroupMemberNotFound(b, 3, 1))
    );
}
