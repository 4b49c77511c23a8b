use lagoon::bloom::BloomCollection;
use lagoon::handler::{create, delete, has_collection, has_key, protocol_version, set_key};
use lagoon::replication::{frame, Message, ReplicationController};

#[test]
fn default_message_is_the_heartbeat() {
    assert!(matches!(Message::default(), Message::Heartbeat));
}

#[test]
fn each_mutation_becomes_its_remote_call() {
    let set = Message::SetKey("c".to_owned(), "v".to_owned()).request().unwrap();
    assert_eq!(set.method, "setKey");
    assert_eq!(set.params, vec!["c".to_owned(), "v".to_owned()]);
    let create = Message::Create("c".to_owned()).request().unwrap();
    assert_eq!(create.method, "createCollection");
    assert_eq!(create.params, vec!["c".to_owned()]);
    let delete = Message::Delete("c".to_owned()).request().unwrap();
    assert_eq!(delete.method, "deleteCollection");
    assert_eq!(delete.params, vec!["c".to_owned()]);
    assert!(Message::Heartbeat.request().is_none());
}

#[test]
fn fan_out_reaches_every_peer_once() {
    let peers = vec!["10.0.0.1:3030".to_owned(), "10.0.0.2:3030".to_owned()];
    let controller = ReplicationController::new(Some(peers));
    assert_eq!(controller.peer_count(), 2);
    assert_eq!(controller.peer(1), "10.0.0.2:3030");
    let deliveries = controller.fan_out(&Message::Create("c".to_owned()));
    assert_eq!(deliveries.len(), 2);
    assert_eq!(deliveries[0].peer, 0);
    assert_eq!(deliveries[1].peer, 1);
    for d in &deliveries {
        assert_eq!(d.request.method, "createCollection");
        assert_eq!(d.request.params, vec!["c".to_owned()]);
    }
    assert!(controller.fan_out(&Message::Heartbeat).is_empty());
}

#[test]
fn without_peers_nothing_is_delivered() {
    let controller = ReplicationController::new(None);
    assert_eq!(controller.peer_count(), 0);
    assert!(controller
        .fan_out(&Message::Delete("c".to_owned()))
        .is_empty());
}

#[test]
fn protocol_version_is_v1() {
    assert_eq!(protocol_version(), "v1");
}

#[test]
fn a_successful_set_key_is_replicated_once_per_peer() {
    let controller = ReplicationController::new(Some(vec![
        "10.0.0.1:3030".to_owned(),
        "10.0.0.2:3030".to_owned(),
    ]));
    let mut store = BloomCollection::new();
    let created = create(&mut store, "c".to_owned());
    assert_eq!(created.reply, Ok(true));

    let first = set_key(&mut store, "c".to_owned(), "v".to_owned());
    assert_eq!(first.reply, Ok(true));
    let event = first.event.unwrap();
    assert!(matches!(&event, Message::SetKey(c, v) if c == "c" && v == "v"));
    let deliveries = controller.fan_out(&event);
    assert_eq!(deliveries.len(), 2);
    for (i, d) in deliveries.iter().enumerate() {
        assert_eq!(d.peer, i);
        assert_eq!(d.request.method, "setKey");
        assert_eq!(d.request.params, vec!["c".to_owned(), "v".to_owned()]);
    }

    let second = set_key(&mut store, "c".to_owned(), "v".to_owned());
    assert_eq!(second.reply, Err(101));
    assert!(second.event.is_none());
}

#[test]
fn handler_replies_and_events_follow_the_registry() {
    let mut store = BloomCollection::new();
    let absent = has_collection(&mut store, "hello".to_owned());
    assert_eq!(absent.reply, Ok(false));
    assert!(absent.event.is_none());

    let created = create(&mut store, "hello".to_owned());
    assert_eq!(created.reply, Ok(true));
    assert!(matches!(created.event, Some(Message::Create(ref c)) if c == "hello"));

    let again = create(&mut store, "hello".to_owned());
    assert_eq!(again.reply, Err(101));
    assert!(again.event.is_none());

    let present = has_collection(&mut store, "hello".to_owned());
    assert_eq!(present.reply, Ok(true));
    assert!(present.event.is_none());

    let missing = has_key(&store, "hello".to_owned(), "v".to_owned());
    assert_eq!(missing.reply, Ok(false));
    assert!(missing.event.is_none());

    let nowhere = has_key(&store, "elsewhere".to_owned(), "v".to_owned());
    assert_eq!(nowhere.reply, Err(100));
    assert!(nowhere.event.is_none());

    let lost = set_key(&mut store, "elsewhere".to_owned(), "v".to_owned());
    assert_eq!(lost.reply, Err(100));
    assert!(lost.event.is_none());

    let inserted = set_key(&mut store, "hello".to_owned(), "v".to_owned());
    assert_eq!(inserted.reply, Ok(true));
    assert!(inserted.event.is_some());

    let found = has_key(&store, "hello".to_owned(), "v".to_owned());
    assert_eq!(found.reply, Ok(true));

    let deleted = delete(&mut store, "hello".to_owned());
    assert_eq!(deleted.reply, Ok(true));
    assert!(matches!(deleted.event, Some(Message::Delete(ref c)) if c == "hello"));

    let gone = delete(&mut store, "hello".to_owned());
    assert_eq!(gone.reply, Err(100));
    assert!(gone.event.is_none());

    let after = has_collection(&mut store, "hello".to_owned());
    assert_eq!(after.reply, Ok(false));
}

#[test]
fn set_key_reports_a_full_filter() {
    let mut store = BloomCollection::new();
    assert!(store.create("tiny".to_owned(), 300, 100).is_ok());
    assert_eq!(set_key(&mut store, "tiny".to_owned(), "a".to_owned()).reply, Ok(true));
    assert_eq!(set_key(&mut store, "tiny".to_owned(), "b".to_owned()).reply, Ok(true));
    let full = set_key(&mut store, "tiny".to_owned(), "c".to_owned());
    assert_eq!(full.reply, Err(102));
    assert!(full.event.is_none());
}

#[test]
fn frame_ends_the_request_with_a_newline() {
    assert_eq!(frame("{\"method\":\"setKey\"}".to_owned()), "{\"method\":\"setKey\"}\n");
    assert_eq!(frame(String::new()), "\n");
}
