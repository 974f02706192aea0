use slate::clock::Clock;
use slate::control_plane::{
    apply_updates, endpoint, read_keys, ControlCommand, Gossip, Node, PeerInfo,
    ReplicationError, Response, Step, Sweep, SweepAction, SweepEvent, ANTI_ENTROPY_TIMEOUT_MS,
    MAX_PER_ROUND, PEER_TIMEOUT_MS, PORT, QUEUE_CAPACITY, TTL,
};
use slate::daemon::{copy_command, parse_command, request, transmit_request, Command};
use slate::db::{ClipboardEntry, DBCommand, Database, SerializableImage};
use slate::http_server::{
    accept, accept_unkeyed, clock, gossip, health_check, neighbors, recent_clipboard,
    MAX_BODY_BYTES, RECENT_LIMIT, STATUS_BAD_REQUEST, STATUS_INTERNAL_SERVER_ERROR, STATUS_OK,
};
use slate::key::RANDOM_SPAN;

fn text(words: &str) -> ClipboardEntry {
    ClipboardEntry::Text(words.to_string())
}

fn host(name: &str) -> (Database, Node) {
    let mut db = Database::new();
    let node = Node::new(name.to_string());
    assert!(db.handle(node.init_command()).is_ok());
    (db, node)
}

fn peer(name: &str, address: &str, online: bool) -> PeerInfo {
    PeerInfo::new(name.to_string(), vec![address.to_string(), "10.9.9.9".to_string()], online)
}

fn clock_of(pairs: &[(&str, u64)]) -> Clock {
    Clock::from_pairs(pairs.iter().map(|(host, time)| (host.to_string(), *time)).collect())
}

/// Copies a text on a host as the command surface does, and returns the
/// request that the replicator gets.
fn copy(db: &mut Database, words: &str) -> ControlCommand {
    assert_eq!(parse_command("copy\n"), Command::Copy);
    let entry = text(words);
    let answer = db.handle(copy_command(entry.clone())).unwrap();
    transmit_request(entry, &answer).unwrap()
}

#[test]
fn constants_are_as_documented() {
    assert_eq!(PORT, 3000);
    assert_eq!(ANTI_ENTROPY_TIMEOUT_MS, 180_000);
    assert_eq!(TTL, 1);
    assert_eq!(MAX_PER_ROUND, 5);
    assert_eq!(RECENT_LIMIT, 100);
    assert_eq!(PEER_TIMEOUT_MS, 5_000);
    assert_eq!(QUEUE_CAPACITY, 100);
    assert_eq!(MAX_BODY_BYTES, 16 << 20);
    assert_eq!((STATUS_OK, STATUS_BAD_REQUEST, STATUS_INTERNAL_SERVER_ERROR), (200, 400, 500));
    assert_eq!(health_check(), "hai");
}

#[test]
fn endpoint_is_built_from_address_port_and_path() {
    assert_eq!(endpoint("100.64.0.7", "/gossip"), "http://100.64.0.7:3000/gossip");
    assert_eq!(endpoint("h", "/clock"), "http://h:3000/clock");
}

#[test]
fn local_copy_paste() {
    let (mut db, _node) = host("H1");
    let transmit = copy(&mut db, "hello");
    assert!(matches!(&transmit, ControlCommand::Transmit { ttl: None, clock: None, .. }));
    let command = parse_command("paste 0\n");
    assert_eq!(command, Command::Paste { offset: 0 });
    match db.handle(request(&command).unwrap()) {
        Ok(slate::db::Response::Entry { entry }) => assert_eq!(entry, text("hello")),
        other => panic!("unexpected answer {:?}", other),
    }
    assert_eq!(db.self_counter(), Some(1));
}

#[test]
fn two_host_gossip() {
    let (mut db1, mut node1) = host("H1");
    let (mut db2, _node2) = host("H2");
    let transmit = copy(&mut db1, "x");
    let step = node1.handle(transmit, vec![peer("H2", "10.0.0.2", true)], &mut db1);
    let messages = match step {
        Step::Send { messages, response } => {
            assert!(matches!(response, Response::OK));
            messages
        }
        other => panic!("unexpected step {:?}", other),
    };
    assert_eq!(messages.len(), 1);
    assert_eq!(messages[0].endpoint, "http://10.0.0.2:3000/gossip");
    assert_eq!(messages[0].body.ttl, 1);
    assert_eq!(messages[0].body.entry, text("x"));
    assert_eq!(messages[0].body.clock.get("H1"), Some(1));
    for message in messages {
        let reply = gossip(&mut db2, message.body);
        assert_eq!(reply.status, STATUS_OK);
    }
    assert_eq!(clock(&db2).get("H1"), Some(1));
    assert_eq!(db2.read_clipboard(0), Ok(text("x")));
    assert_eq!(db2.self_counter(), Some(0));
    assert_eq!(db1.recent_rows(1)[0].1, db2.recent_rows(1)[0].1);
}

#[test]
fn gossip_is_passed_on_once_with_one_hop_less() {
    let (mut db1, mut node1) = host("H1");
    let (mut db2, mut node2) = host("H2");
    let (mut db3, _node3) = host("H3");
    let transmit = copy(&mut db1, "x");
    let first = match node1.handle(transmit, vec![peer("H2", "10.0.0.2", true)], &mut db1) {
        Step::Send { mut messages, .. } => messages.remove(0),
        other => panic!("unexpected step {:?}", other),
    };
    let reply = gossip(&mut db2, first.body);
    let forward = reply.forward.unwrap();
    assert!(matches!(&forward, ControlCommand::Transmit { ttl: Some(0), clock: Some(_), .. }));
    let second = match node2.handle(forward, vec![peer("H3", "10.0.0.3", true)], &mut db2) {
        Step::Send { mut messages, .. } => messages.remove(0),
        other => panic!("unexpected step {:?}", other),
    };
    assert_eq!(second.endpoint, "http://10.0.0.3:3000/gossip");
    assert_eq!(second.body.ttl, 0);
    assert_eq!(second.body.clock.get("H1"), Some(1));
    assert_eq!(second.body.clock.get("H2"), Some(0));
    let reply = gossip(&mut db3, second.body);
    assert_eq!(reply.status, STATUS_OK);
    assert!(reply.forward.is_none());
    assert_eq!(db3.read_clipboard(0), Ok(text("x")));
    assert_eq!(db3.recent_rows(1)[0].1, db1.recent_rows(1)[0].1);
}

#[test]
fn offline_then_anti_entropy_heal() {
    let (mut db1, mut node1) = host("H1");
    let (mut db2, mut node2) = host("H2");
    let transmit = copy(&mut db1, "a");
    match node1.handle(transmit, vec![peer("H2", "10.0.0.2", false)], &mut db1) {
        Step::Send { messages, .. } => assert!(messages.is_empty()),
        other => panic!("unexpected step {:?}", other),
    }
    assert_eq!(db2.len(), 0);
    let peers = vec![peer("H3", "10.0.0.3", false), peer("H1", "10.0.0.1", true)];
    let (sweep, action) = match node2.handle(ControlCommand::AntiEntropy, peers, &mut db2) {
        Step::Sweep { sweep, action } => (sweep, action),
        other => panic!("unexpected step {:?}", other),
    };
    match action {
        SweepAction::FetchClock { endpoint } => assert_eq!(endpoint, "http://10.0.0.1:3000/clock"),
        other => panic!("unexpected action {:?}", other),
    }
    let (sweep, action) = sweep.step(SweepEvent::Clock { clock: clock(&db1) }, &mut db2);
    match action {
        SweepAction::FetchRecent { endpoint } => {
            assert_eq!(endpoint, "http://10.0.0.1:3000/recent_clipboard")
        }
        other => panic!("unexpected action {:?}", other),
    }
    assert_eq!(db2.len(), 0);
    let (sweep, action) = sweep.step(SweepEvent::Recent { values: recent_clipboard(&db1) }, &mut db2);
    assert!(matches!(action, SweepAction::Done));
    assert!(sweep.finished());
    assert_eq!(db2.read_clipboard(0), Ok(text("a")));
    assert_eq!(clock(&db2).get("H1"), Some(1));
    assert_eq!(db2.self_counter(), Some(0));
}

#[test]
fn ttl_bounds_re_gossip() {
    let (mut db1, _node1) = host("H1");
    let (mut db2, _node2) = host("H2");
    db1.write_local_at(77, text("x")).unwrap();
    let message = Gossip {
        clock: clock(&db1),
        entry: text("x"),
        ttl: 0,
        key: Some("0000000000000000000000002D".to_string()),
    };
    let reply = gossip(&mut db2, message);
    assert_eq!(reply.status, STATUS_OK);
    assert!(reply.forward.is_none());
    assert_eq!(db2.recent_rows(10), vec![(text("x"), 77)]);
    assert_eq!(clock(&db2).get("H1"), Some(1));
}

#[test]
fn duplicate_gossip_is_idempotent() {
    let (mut db1, _node1) = host("H1");
    let (mut db2, _node2) = host("H2");
    db1.write_local_at(77, text("x")).unwrap();
    let message = Gossip {
        clock: clock(&db1),
        entry: text("x"),
        ttl: 1,
        key: Some("0000000000000000000000002D".to_string()),
    };
    let first = gossip(&mut db2, message.clone());
    assert_eq!(first.status, STATUS_OK);
    assert!(first.forward.is_some());
    let mut clock_once = clock(&db2).to_pairs();
    let second = gossip(&mut db2, message);
    assert_eq!(second.status, STATUS_OK);
    assert!(second.forward.is_none());
    assert_eq!(db2.len(), 1);
    assert_eq!(db2.recent_rows(10), vec![(text("x"), 77)]);
    let mut clock_twice = clock(&db2).to_pairs();
    clock_once.sort();
    clock_twice.sort();
    assert_eq!(clock_once, clock_twice);
}

#[test]
fn gossip_with_a_malformed_key_is_refused() {
    let (mut db, _node) = host("H2");
    for key in ["", "not a key", "0000000000000000000000002", "0000000000000000000000002DD",
        "0000000000000000000000002U", "0000000000000000000000002I"]
    {
        let message = Gossip {
            clock: clock_of(&[("H1", 5)]),
            entry: text("x"),
            ttl: 1,
            key: Some(key.to_string()),
        };
        let reply = gossip(&mut db, message);
        assert_eq!(reply.status, STATUS_BAD_REQUEST);
        assert!(reply.forward.is_none());
    }
    assert_eq!(db.len(), 0);
    assert_eq!(clock(&db).get("H1"), None);
}

#[test]
fn gossip_key_may_be_lower_case() {
    let (mut db, _node) = host("H2");
    let message = Gossip {
        clock: Clock::new(),
        entry: text("x"),
        ttl: 0,
        key: Some("01d39zy06fgsctvn4t2v9pkhfz".to_string()),
    };
    assert_eq!(gossip(&mut db, message).status, STATUS_OK);
    assert_eq!(db.newest_key(), Some(1873526660931231682191479120471901695));
}

#[test]
fn gossip_without_a_key_gets_a_fresh_one() {
    let (mut db, _node) = host("H2");
    db.write_replicated(5, text("old"));
    let message = Gossip { clock: clock_of(&[("H1", 1)]), entry: text("x"), ttl: 1, key: None };
    let reply = gossip(&mut db, message);
    assert_eq!(reply.status, STATUS_OK);
    assert_eq!(db.len(), 2);
    assert_eq!(db.read_clipboard(0), Ok(text("x")));
    let key = db.recent_rows(1)[0].1;
    let spelled = db.get_recent(1)[0].1.clone();
    match reply.forward {
        Some(ControlCommand::Transmit { key: carried, ttl, .. }) => {
            assert_eq!(carried, spelled);
            assert_eq!(ttl, Some(0));
        }
        other => panic!("unexpected request {:?}", other),
    }
    assert!(key > 5);
}

#[test]
fn accept_unkeyed_uses_the_candidate_or_the_successor() {
    let (mut db, _node) = host("H2");
    db.write_replicated(50, text("old"));
    let reply = accept_unkeyed(&mut db, Clock::new(), text("a"), 0, 7);
    assert_eq!(reply.status, STATUS_OK);
    assert_eq!(db.newest_key(), Some(51));
    let reply = accept_unkeyed(&mut db, Clock::new(), text("b"), 0, 700);
    assert_eq!(reply.status, STATUS_OK);
    assert_eq!(db.newest_key(), Some(700));
    db.write_replicated(2 * RANDOM_SPAN - 1, text("edge"));
    let reply = accept_unkeyed(&mut db, clock_of(&[("H1", 1)]), text("c"), 3, 7);
    assert_eq!(reply.status, STATUS_INTERNAL_SERVER_ERROR);
    assert!(reply.forward.is_none());
    assert_eq!(db.len(), 4);
    assert_eq!(clock(&db).get("H1"), None);
}

#[test]
fn accept_passes_on_only_when_outdated_and_hops_are_left() {
    let (mut db, _node) = host("H2");
    let remote = clock_of(&[("H1", 2)]);
    let forward = accept(&mut db, remote.clone(), text("a"), 3, 10, "KEY-A".to_string());
    match forward {
        Some(ControlCommand::Transmit { data, key, ttl, clock }) => {
            assert_eq!(data, text("a"));
            assert_eq!(key, "KEY-A");
            assert_eq!(ttl, Some(2));
            assert_eq!(clock.unwrap().get("H1"), Some(2));
        }
        other => panic!("unexpected request {:?}", other),
    }
    assert!(accept(&mut db, remote.clone(), text("b"), 3, 11, "KEY-B".to_string()).is_none());
    assert_eq!(db.len(), 2);
    let newer = clock_of(&[("H1", 3)]);
    assert!(accept(&mut db, newer, text("c"), 0, 12, "KEY-C".to_string()).is_none());
    assert_eq!(db.len(), 3);
    assert_eq!(clock(&db).get("H1"), Some(3));
}

#[test]
fn gossip_goes_to_the_first_five_peers_that_can_be_contacted() {
    let (mut db, mut node) = host("H1");
    let mut peers = vec![peer("off", "10.0.1.1", false)];
    peers.push(PeerInfo::new("bare".to_string(), vec![], true));
    for i in 0..8 {
        peers.push(peer(&format!("p{}", i), &format!("10.0.0.{}", i), true));
    }
    let transmit = copy(&mut db, "x");
    let messages = match node.handle(transmit, peers, &mut db) {
        Step::Send { messages, .. } => messages,
        other => panic!("unexpected step {:?}", other),
    };
    let endpoints: Vec<String> = messages.iter().map(|m| m.endpoint.clone()).collect();
    assert_eq!(
        endpoints,
        vec![
            "http://10.0.0.0:3000/gossip",
            "http://10.0.0.1:3000/gossip",
            "http://10.0.0.2:3000/gossip",
            "http://10.0.0.3:3000/gossip",
            "http://10.0.0.4:3000/gossip",
        ]
    );
    let key = db.get_recent(1)[0].1.clone();
    for message in &messages {
        assert_eq!(message.body.key, Some(key.clone()));
        assert_eq!(message.body.ttl, TTL);
    }
    assert_eq!(node.neighbors().len(), 10);
}

#[test]
fn plain_gossip_plan_respects_the_count() {
    let mut node = Node::new("H1".to_string());
    node.reload_neighbors(vec![
        peer("a", "1.1.1.1", true),
        peer("b", "2.2.2.2", false),
        peer("c", "3.3.3.3", true),
    ]);
    let clock = clock_of(&[("H1", 4)]);
    assert_eq!(node.gossip(&text("x"), "K", 0, 1, &clock).len(), 0);
    let one = node.gossip(&text("x"), "K", 1, 1, &clock);
    assert_eq!(one.len(), 1);
    assert_eq!(one[0].endpoint, "http://1.1.1.1:3000/gossip");
    let all = node.gossip(&text("x"), "K", 9, 6, &clock);
    assert_eq!(all.len(), 2);
    assert_eq!(all[1].endpoint, "http://3.3.3.3:3000/gossip");
    assert_eq!(all[1].body.ttl, 6);
    assert_eq!(all[1].body.key, Some("K".to_string()));
    assert_eq!(all[1].body.clock.get("H1"), Some(4));
    assert_eq!(node.host_name(), "H1");
}

#[test]
fn transmit_with_a_clock_merges_it_first() {
    let (mut db, mut node) = host("H2");
    let request = ControlCommand::Transmit {
        data: text("x"),
        key: "K".to_string(),
        ttl: Some(0),
        clock: Some(clock_of(&[("H1", 3), ("H2", 9)])),
    };
    let messages = match node.handle(request, vec![peer("H3", "10.0.0.3", true)], &mut db) {
        Step::Send { messages, .. } => messages,
        other => panic!("unexpected step {:?}", other),
    };
    assert_eq!(messages.len(), 1);
    assert_eq!(messages[0].body.ttl, 0);
    assert_eq!(messages[0].body.clock.get("H1"), Some(3));
    assert_eq!(messages[0].body.clock.get("H2"), Some(0));
    assert_eq!(clock(&db).get("H1"), Some(3));
    assert_eq!(db.len(), 0);
}

#[test]
fn control_requests_for_clock_and_neighbors() {
    let (mut db, mut node) = host("H1");
    assert!(Node::needs_peers(&ControlCommand::AntiEntropy));
    assert!(Node::needs_peers(&ControlCommand::GetNeighbors));
    assert!(!Node::needs_peers(&ControlCommand::GetClock));
    match node.handle(ControlCommand::GetNeighbors, vec![peer("H2", "10.0.0.2", true)], &mut db) {
        Step::Reply { response: Response::Neighbors { info } } => {
            assert_eq!(info.len(), 1);
            assert_eq!(info[0].host_name(), "H2");
            assert!(info[0].online());
            assert_eq!(info[0].contact(), Some(&"10.0.0.2".to_string()));
        }
        other => panic!("unexpected step {:?}", other),
    }
    match node.handle(ControlCommand::GetClock, vec![], &mut db) {
        Step::Reply { response: Response::Clock { data } } => assert_eq!(data.get("H1"), Some(0)),
        other => panic!("unexpected step {:?}", other),
    }
    assert_eq!(node.neighbors().len(), 1);
    let listed = neighbors(&mut node, vec![]);
    assert!(listed.is_empty());
    assert!(node.neighbors().is_empty());
}

#[test]
fn sweep_skips_peers_that_cannot_be_contacted_or_are_current() {
    let (mut db, _node) = host("H1");
    db.sync_clock(&clock_of(&[("H2", 4)]));
    let peers = vec![
        peer("off", "10.0.0.9", false),
        peer("H2", "10.0.0.2", true),
        PeerInfo::new("bare".to_string(), vec![], true),
        peer("H3", "10.0.0.3", true),
        peer("H4", "10.0.0.4", true),
    ];
    let (sweep, action) = Sweep::begin(peers);
    assert!(matches!(&action, SweepAction::FetchClock { endpoint } if endpoint == "http://10.0.0.2:3000/clock"));
    let (sweep, action) = sweep.step(SweepEvent::Clock { clock: clock_of(&[("H2", 4)]) }, &mut db);
    assert!(matches!(&action, SweepAction::FetchClock { endpoint } if endpoint == "http://10.0.0.3:3000/clock"));
    let (sweep, action) = sweep.step(SweepEvent::Failed, &mut db);
    assert!(matches!(&action, SweepAction::FetchClock { endpoint } if endpoint == "http://10.0.0.4:3000/clock"));
    let (sweep, action) = sweep.step(SweepEvent::Clock { clock: clock_of(&[("H4", 1)]) }, &mut db);
    assert!(matches!(&action, SweepAction::FetchRecent { endpoint } if endpoint == "http://10.0.0.4:3000/recent_clipboard"));
    let (sweep, action) = sweep.step(SweepEvent::Failed, &mut db);
    assert!(matches!(action, SweepAction::Done));
    assert!(sweep.finished());
    assert_eq!(clock(&db).get("H4"), None);
    let (sweep, action) = sweep.step(SweepEvent::Failed, &mut db);
    assert!(matches!(action, SweepAction::Done));
    assert!(sweep.finished());
}

#[test]
fn sweep_over_no_peers_is_done_at_once() {
    let (sweep, action) = Sweep::begin(vec![peer("off", "10.0.0.9", false)]);
    assert!(matches!(action, SweepAction::Done));
    assert!(sweep.finished());
    assert!(matches!(sweep.action(), SweepAction::Done));
}

#[test]
fn sweep_takes_an_unexpected_answer_as_a_failure() {
    let (mut db, _node) = host("H1");
    let (sweep, _) = Sweep::begin(vec![peer("H2", "10.0.0.2", true)]);
    let listing = vec![(text("x"), "0000000000000000000000002D".to_string())];
    let (sweep, action) = sweep.step(SweepEvent::Recent { values: listing }, &mut db);
    assert!(matches!(action, SweepAction::Done));
    assert!(sweep.finished());
    assert_eq!(db.len(), 0);
}

#[test]
fn update_values_rejects_before_commit() {
    let (mut db, node) = host("H2");
    let remote = clock_of(&[("H1", 2)]);
    let bad = vec![
        (text("a"), "0000000000000000000000002D".to_string()),
        (text("b"), "oops".to_string()),
        (text("c"), "also bad".to_string()),
    ];
    assert_eq!(
        node.update_values(&bad, &remote, &mut db),
        Err(ReplicationError::MalformedKey { index: 1 })
    );
    assert_eq!(db.len(), 0);
    assert_eq!(clock(&db).get("H1"), None);
    let good = vec![
        (text("a"), "0000000000000000000000002D".to_string()),
        (text("b"), "0000000000000000000000002C".to_string()),
    ];
    assert_eq!(node.update_values(&good, &remote, &mut db), Ok(()));
    assert_eq!(db.recent_rows(10), vec![(text("a"), 77), (text("b"), 76)]);
    assert_eq!(clock(&db).get("H1"), Some(2));
    assert!(!node.is_outdated(&remote, &db));
    assert!(node.is_outdated(&clock_of(&[("H1", 3)]), &db));
}

#[test]
fn read_keys_and_apply_updates() {
    let rows = vec![
        (text("a"), "7ZZZZZZZZZZZZZZZZZZZZZZZZZ".to_string()),
        (text("b"), "01D39ZY06FGSCTVN4T2V9PKHFZ".to_string()),
    ];
    let keyed = read_keys(&rows).unwrap();
    assert_eq!(
        keyed,
        vec![(text("a"), u128::MAX), (text("b"), 1873526660931231682191479120471901695)]
    );
    assert_eq!(
        read_keys(&vec![(text("a"), "x".to_string())]),
        Err(ReplicationError::MalformedKey { index: 0 })
    );
    let mut db = Database::new();
    db.write_replicated(u128::MAX, text("mine"));
    apply_updates(&mut db, &keyed, &clock_of(&[("H1", 1)]));
    assert_eq!(db.len(), 2);
    assert_eq!(db.read_clipboard(0), Ok(text("mine")));
    assert_eq!(db.read_clipboard(1), Ok(text("b")));
    assert_eq!(clock(&db).get("H1"), Some(1));
}

#[test]
fn recent_listing_round_trips_through_a_pull() {
    let (mut db1, _n1) = host("H1");
    let (mut db2, node2) = host("H2");
    let image = SerializableImage::new(1, 2, vec![9; 8]).unwrap();
    db1.write_local(text("one")).unwrap();
    db1.write_local(ClipboardEntry::Image(image)).unwrap();
    db1.write_local(text("three")).unwrap();
    db2.write_local(text("own")).unwrap();
    let listing = recent_clipboard(&db1);
    assert_eq!(listing.len(), 3);
    assert_eq!(node2.update_values(&listing, &clock(&db1), &mut db2), Ok(()));
    assert_eq!(db2.len(), 4);
    for (entry, key) in db1.recent_rows(u64::MAX) {
        assert!(db2.recent_rows(u64::MAX).contains(&(entry, key)));
    }
    assert_eq!(clock(&db2).get("H1"), Some(3));
    assert_eq!(clock(&db2).get("H2"), Some(1));
    assert_eq!(node2.update_values(&listing, &clock(&db1), &mut db2), Ok(()));
    assert_eq!(db2.len(), 4);
}

#[test]
fn recent_clipboard_lists_at_most_a_hundred() {
    let mut db = Database::new();
    for key in 0..150u128 {
        db.write_replicated(key, text("x"));
    }
    let listing = recent_clipboard(&db);
    assert_eq!(listing.len(), 100);
    assert_eq!(listing[0].1, "0000000000000000000000004N");
    assert!(matches!(
        db.handle(DBCommand::Recent { length: 100 }),
        Ok(slate::db::Response::Recent { values }) if values == listing
    ));
}

#[test]
fn a_sweep_ends_within_two_steps_for_each_peer() {
    let (mut db, _node) = host("H1");
    let peers: Vec<PeerInfo> =
        (0..6).map(|i| peer(&format!("p{}", i), &format!("10.0.0.{}", i), i % 3 != 0)).collect();
    let (mut sweep, mut action) = Sweep::begin(peers);
    let mut steps = 0;
    while !sweep.finished() {
        let event = match action {
            SweepAction::FetchClock { .. } => {
                SweepEvent::Clock { clock: clock_of(&[("else", 1 + steps as u64)]) }
            }
            SweepAction::FetchRecent { .. } => SweepEvent::Recent { values: vec![] },
            SweepAction::Done => panic!("a sweep that is not over asks for something"),
        };
        let next = sweep.step(event, &mut db);
        sweep = next.0;
        action = next.1;
        steps += 1;
    }
    assert_eq!(steps, 8);
    assert_eq!(clock(&db).get("else"), Some(7));
}
