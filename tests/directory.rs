use server_tan::channel::ChannelInterface;
use server_tan::error::DirError;
use server_tan::listing::{show_channel, show_subscribe};
use server_tan::user::UserInterface;

fn setup() -> (UserInterface, ChannelInterface) {
    let mut users = UserInterface::new();
    let chans = ChannelInterface::new();
    assert_eq!(users.add_user("alice", "Alice"), Ok(true));
    assert_eq!(users.add_user("bob", "Bob"), Ok(true));
    (users, chans)
}

fn is_lower_hex(c: char) -> bool {
    c.is_ascii_digit() || ('a'..='f').contains(&c)
}

fn is_simple_uuid(s: &str) -> bool {
    s.len() == 32 && s.chars().all(is_lower_hex)
}

fn is_hyphenated_uuid(s: &str) -> bool {
    s.len() == 36
        && s.chars().enumerate().all(|(i, c)| if [8, 13, 18, 23].contains(&i) { c == '-' } else { is_lower_hex(c) })
}

#[test]
fn news_channel_scenario() {
    let (mut users, mut chans) = setup();
    let id = chans.add_channel(&mut users, "News", "alice").unwrap();
    assert_eq!(chans.subscribe(&mut users, &id, "bob"), Ok(true));
    let subs = chans.get_subscribers(&users, &id).unwrap();
    let ids: Vec<String> = subs.iter().map(|u| u.id.clone()).collect();
    assert_eq!(ids, vec!["bob".to_string()]);
    assert_eq!(chans.delete_channel(&mut users, &id, "alice"), Ok(true));
    assert!(matches!(chans.get_channel_by_id(&id), Err(DirError::NotFound)));
    let bob = users.get_user("bob").unwrap();
    assert!(!bob.subscribes.contains(&id));
    let alice = users.get_user("alice").unwrap();
    assert!(!alice.owns.contains(&id));
}

#[test]
fn subscriptions_mirror_on_both_sides() {
    let (mut users, mut chans) = setup();
    assert_eq!(users.add_user("carol", "Carol"), Ok(true));
    let a = chans.add_channel_with_keys(&mut users, "A", "alice", "ca".to_string(), "ka".to_string()).unwrap();
    let b = chans.add_channel_with_keys(&mut users, "B", "bob", "cb".to_string(), "kb".to_string()).unwrap();
    assert_eq!(chans.subscribe(&mut users, &a, "bob"), Ok(true));
    assert_eq!(chans.subscribe(&mut users, &a, "carol"), Ok(true));
    assert_eq!(chans.subscribe(&mut users, &b, "carol"), Ok(true));
    assert_eq!(chans.unsubscribe(&mut users, &a, "carol"), Ok(true));
    for cid in [&a, &b] {
        let c = chans.get_channel_by_id(cid).unwrap();
        for uid in ["alice", "bob", "carol"] {
            let u = users.get_user(uid).unwrap();
            assert_eq!(c.subscribers.contains(&uid.to_string()), u.subscribes.contains(cid));
        }
    }
    assert_eq!(chans.get_channel_by_id(&a).unwrap().subscribers, vec!["bob".to_string()]);
    assert_eq!(users.get_user("carol").unwrap().subscribes, vec!["cb".to_string()]);
}

#[test]
fn unsubscribe_when_not_subscribed_changes_nothing() {
    let (mut users, mut chans) = setup();
    let id = chans.add_channel_with_keys(&mut users, "News", "alice", "c1".to_string(), "k1".to_string()).unwrap();
    assert_eq!(chans.subscribe(&mut users, &id, "alice"), Ok(true));
    let before_c = chans.get_channel_by_id(&id).unwrap();
    let before_u = users.get_user("bob").unwrap();
    assert_eq!(chans.unsubscribe(&mut users, &id, "bob"), Ok(true));
    let after_c = chans.get_channel_by_id(&id).unwrap();
    let after_u = users.get_user("bob").unwrap();
    assert_eq!(before_c.subscribers, after_c.subscribers);
    assert_eq!(before_u.subscribes, after_u.subscribes);
    assert_eq!(after_c.subscribers, vec!["alice".to_string()]);
}

#[test]
fn publish_keys_are_distinct_over_many_channels() {
    let (mut users, mut chans) = setup();
    let mut keys = std::collections::HashSet::new();
    for i in 0..1000 {
        let id = chans.add_channel(&mut users, &format!("ch{}", i), "alice").unwrap();
        let c = chans.get_channel_by_id(&id).unwrap();
        assert!(is_hyphenated_uuid(&c.sendkey));
        assert!(is_simple_uuid(&id));
        assert_ne!(c.sendkey, id);
        keys.insert(c.sendkey.clone());
    }
    assert_eq!(keys.len(), 1000);
    assert_eq!(users.get_user("alice").unwrap().owns.len(), 1000);
}

#[test]
fn taken_id_or_key_is_refused() {
    let (mut users, mut chans) = setup();
    chans.add_channel_with_keys(&mut users, "A", "alice", "c1".to_string(), "k1".to_string()).unwrap();
    assert_eq!(
        chans.add_channel_with_keys(&mut users, "B", "alice", "c2".to_string(), "k1".to_string()),
        Err(DirError::AlreadyExists)
    );
    assert_eq!(
        chans.add_channel_with_keys(&mut users, "B", "alice", "c1".to_string(), "k2".to_string()),
        Err(DirError::AlreadyExists)
    );
    assert!(matches!(chans.get_channel_by_id("c2"), Err(DirError::NotFound)));
    assert_eq!(users.get_user("alice").unwrap().owns, vec!["c1".to_string()]);
}

#[test]
fn channel_of_unknown_owner_stays_stored() {
    let (mut users, mut chans) = setup();
    let r = chans.add_channel_with_keys(&mut users, "A", "nobody", "c1".to_string(), "k1".to_string());
    assert_eq!(r, Err(DirError::NotFound));
    let c = chans.get_channel_by_id("c1").unwrap();
    assert_eq!(c.owner, "nobody");
    assert_eq!(c.name, "A");
}

#[test]
fn subscribe_errors() {
    let (mut users, mut chans) = setup();
    let id = chans.add_channel_with_keys(&mut users, "News", "alice", "c1".to_string(), "k1".to_string()).unwrap();
    assert_eq!(chans.subscribe(&mut users, "nochannel", "bob"), Err(DirError::NotFound));
    assert_eq!(chans.subscribe(&mut users, &id, "nobody"), Err(DirError::NotFound));
    assert_eq!(chans.subscribe(&mut users, &id, "bob"), Ok(true));
    assert_eq!(chans.subscribe(&mut users, &id, "bob"), Err(DirError::AlreadyExists));
    assert_eq!(chans.get_channel_by_id(&id).unwrap().subscribers, vec!["bob".to_string()]);
    assert_eq!(chans.unsubscribe(&mut users, "nochannel", "bob"), Err(DirError::NotFound));
    assert_eq!(chans.unsubscribe(&mut users, &id, "nobody"), Err(DirError::NotFound));
}

#[test]
fn add_user_twice_is_refused() {
    let (mut users, _) = setup();
    assert_eq!(users.add_user("alice", "Other"), Err(DirError::AlreadyExists));
    let a = users.get_user("alice").unwrap();
    assert_eq!(a.name, "Alice");
    assert!(a.owns.is_empty() && a.subscribes.is_empty());
    assert!(matches!(users.get_user("zed"), Err(DirError::NotFound)));
}

#[test]
fn user_lists_follow_their_operations() {
    let (mut users, _) = setup();
    assert_eq!(users.user_subscribe("bob", "x"), Ok(true));
    assert_eq!(users.user_subscribe("bob", "y"), Ok(true));
    assert_eq!(users.user_subscribe("bob", "x"), Err(DirError::AlreadyExists));
    assert_eq!(users.user_unsubscribe("bob", "x"), Ok(true));
    assert_eq!(users.user_unsubscribe("bob", "x"), Ok(true));
    assert_eq!(users.get_user("bob").unwrap().subscribes, vec!["y".to_string()]);
    assert_eq!(users.user_new_channel("bob", "o1"), Ok(true));
    assert_eq!(users.user_new_channel("bob", "o2"), Ok(true));
    assert_eq!(users.user_del_channel("bob", "o1"), Ok(true));
    assert_eq!(users.get_user("bob").unwrap().owns, vec!["o2".to_string()]);
    assert_eq!(users.user_subscribe("zed", "x"), Err(DirError::NotFound));
    assert_eq!(users.user_unsubscribe("zed", "x"), Err(DirError::NotFound));
    assert_eq!(users.user_new_channel("zed", "x"), Err(DirError::NotFound));
    assert_eq!(users.user_del_channel("zed", "x"), Err(DirError::NotFound));
}

#[test]
fn lookups_by_owner_and_key() {
    let (mut users, mut chans) = setup();
    chans.add_channel_with_keys(&mut users, "A", "alice", "c1".to_string(), "k1".to_string()).unwrap();
    chans.add_channel_with_keys(&mut users, "B", "bob", "c2".to_string(), "k2".to_string()).unwrap();
    chans.add_channel_with_keys(&mut users, "C", "alice", "c3".to_string(), "k3".to_string()).unwrap();
    let mine: Vec<String> = chans.get_channel_by_owner("alice").unwrap().iter().map(|c| c.id.clone()).collect();
    assert_eq!(mine, vec!["c1".to_string(), "c3".to_string()]);
    assert!(chans.get_channel_by_owner("carol").unwrap().is_empty());
    assert_eq!(chans.get_channel_by_sendkey("k2").unwrap().id, "c2");
    assert!(matches!(chans.get_channel_by_sendkey("nokey"), Err(DirError::NotFound)));
}

#[test]
fn missing_subscriber_fails_lookup_and_delete() {
    let (mut users, mut chans) = setup();
    let id = chans.add_channel_with_keys(&mut users, "News", "alice", "c1".to_string(), "k1".to_string()).unwrap();
    assert_eq!(chans.subscribe(&mut users, &id, "bob"), Ok(true));
    assert!(matches!(chans.get_subscribers(&users, "nochannel"), Err(DirError::NotFound)));
    assert_eq!(chans.delete_channel(&mut users, "nochannel", "alice"), Err(DirError::NotFound));
    assert_eq!(chans.delete_channel(&mut users, &id, "nobody"), Err(DirError::NotFound));
    // the subscribers were released before the owner step failed
    assert!(chans.get_channel_by_id(&id).unwrap().subscribers.is_empty());
    assert!(users.get_user("bob").unwrap().subscribes.is_empty());
}

#[test]
fn listings_of_owned_and_followed_channels() {
    let (mut users, mut chans) = setup();
    assert_eq!(show_channel(&users, &chans, "alice"), "没有创建的频道");
    assert_eq!(show_subscribe(&users, &chans, "bob"), Ok("没有订阅的频道".to_string()));
    assert_eq!(show_subscribe(&users, &chans, "zed"), Err(DirError::NotFound));
    chans.add_channel_with_keys(&mut users, "News", "alice", "c1".to_string(), "k1".to_string()).unwrap();
    chans.add_channel_with_keys(&mut users, "Ops", "alice", "c2".to_string(), "k2".to_string()).unwrap();
    assert_eq!(chans.subscribe(&mut users, "c1", "bob"), Ok(true));
    assert_eq!(chans.subscribe(&mut users, "c1", "alice"), Ok(true));
    assert_eq!(
        show_channel(&users, &chans, "alice"),
        "频道名:News\n频道ID:c1\nSendKey:k1\n订阅者:Bob(bob) Alice(alice) \n频道名:Ops\n频道ID:c2\nSendKey:k2\n订阅者:\n"
    );
    assert_eq!(show_subscribe(&users, &chans, "bob"), Ok("频道名:News\n频道ID:c1\n".to_string()));
    // a followed id with no channel behind it is left out
    assert_eq!(users.user_subscribe("bob", "gone"), Ok(true));
    assert_eq!(show_subscribe(&users, &chans, "bob"), Ok("频道名:News\n频道ID:c1\n".to_string()));
}

#[test]
fn owner_listing_follows_key_order() {
    let (mut users, mut chans) = setup();
    for id in ["m", "b", "z", "a", "ab"] {
        chans.add_channel_with_keys(&mut users, id, "alice", id.to_string(), format!("k{}", id)).unwrap();
    }
    let ids: Vec<String> = chans.get_channel_by_owner("alice").unwrap().iter().map(|c| c.id.clone()).collect();
    assert_eq!(ids, vec!["a", "ab", "b", "m", "z"]);
    assert_eq!(chans.delete_channel(&mut users, "b", "alice"), Ok(true));
    let ids: Vec<String> = chans.get_channel_by_owner("alice").unwrap().iter().map(|c| c.id.clone()).collect();
    assert_eq!(ids, vec!["a", "ab", "m", "z"]);
}

#[test]
fn checked_delete_is_for_the_owner_only() {
    let (mut users, mut chans) = setup();
    chans.add_channel_with_keys(&mut users, "News", "alice", "c1".to_string(), "k1".to_string()).unwrap();
    assert_eq!(chans.subscribe(&mut users, "c1", "bob"), Ok(true));
    assert_eq!(chans.delete_channel_checked(&mut users, "c1", "bob"), Err(DirError::NotFound));
    assert_eq!(chans.get_channel_by_id("c1").unwrap().subscribers, vec!["bob".to_string()]);
    assert_eq!(chans.delete_channel_checked(&mut users, "c1", "alice"), Ok(true));
    assert!(chans.get_channel_by_id("c1").is_err());
    assert!(users.get_user("bob").unwrap().subscribes.is_empty());
}

#[test]
fn key_equal_to_id_is_refused() {
    let (mut users, mut chans) = setup();
    assert_eq!(
        chans.add_channel_with_keys(&mut users, "A", "alice", "same".to_string(), "same".to_string()),
        Err(DirError::AlreadyExists)
    );
    assert!(chans.get_channel_by_id("same").is_err());
    assert!(users.get_user("alice").unwrap().owns.is_empty());
}

#[test]
fn random_channel_of_unknown_owner_stays_stored() {
    let (mut users, mut chans) = setup();
    assert_eq!(chans.add_channel(&mut users, "Orphan", "nobody"), Err(DirError::NotFound));
    let stored = chans.get_channel_by_owner("nobody").unwrap();
    assert_eq!(stored.len(), 1);
    assert_eq!(stored[0].name, "Orphan");
    assert!(is_simple_uuid(&stored[0].id));
    assert!(is_hyphenated_uuid(&stored[0].sendkey));
    assert!(stored[0].subscribers.is_empty());
}
