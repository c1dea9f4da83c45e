use scalesocket::bridge::Bridge;
use scalesocket::cache::CacheBuffer;
use scalesocket::cli::Config;
use scalesocket::envvars::Env;
use scalesocket::events::{Action, Event, State};
use scalesocket::message::Message;
use scalesocket::ports::PortPool;
use scalesocket::types::{Cache, Header, Log};

fn create_config(cmd: &str) -> Config {
    Config {
        addr: "0.0.0.0:9000".to_string(),
        binary: false,
        cache: None,
        cache_persist: false,
        delay: None,
        joinmsg: None,
        json: false,
        leavemsg: None,
        log: Log::Text,
        metrics: false,
        oneshot: false,
        passenv: vec!["PATH".to_string(), "DYLD_LIBRARY_PATH".to_string()],
        frame: None,
        client_frame: None,
        server_frame: None,
        staticdir: None,
        api: false,
        tcp: false,
        tcpports: 9001..9999,
        verbosity: 0,
        cmd: cmd.to_string(),
        args: vec![],
    }
}

fn connect(state: &mut State, room: &str) -> Vec<Action> {
    state.handle(Event::Connect { room: room.to_string(), env: Env::default() })
}

fn attached(actions: &[Action]) -> Option<u32> {
    actions.iter().find_map(|a| match a {
        Action::Attach { conn, .. } => Some(*conn),
        _ => None,
    })
}

fn sent(actions: &[Action]) -> Vec<String> {
    actions
        .iter()
        .filter_map(|a| match a {
            Action::Send { text, .. } => Some(text.clone()),
            _ => None,
        })
        .collect()
}

fn spawned(actions: &[Action]) -> Option<(u64, Option<u16>)> {
    actions.iter().find_map(|a| match a {
        Action::Spawn { child, port, .. } => Some((*child, *port)),
        _ => None,
    })
}

fn killed(actions: &[Action]) -> Vec<String> {
    actions
        .iter()
        .filter_map(|a| match a {
            Action::Kill { room } => Some(room.clone()),
            _ => None,
        })
        .collect()
}

#[test]
fn test_attach() {
    let mut cfg = create_config("cat");
    cfg.joinmsg = Some("foo".to_string());
    let mut state = State::new(&cfg);
    connect(&mut state, "room1");

    let actions = connect(&mut state, "room1");

    assert!(actions.iter().any(|a| matches!(a, Action::Attach { cold: false, .. })));
    assert!(spawned(&actions).is_none());
}

#[test]
fn test_attach_sends_joinmsg() {
    let mut cfg = create_config("cat");
    cfg.joinmsg = Some("foo".to_string());
    let mut state = State::new(&cfg);

    let actions = connect(&mut state, "room1");

    assert_eq!(sent(&actions), vec!["foo".to_string()]);
}

#[test]
fn test_attach_sends_cache() {
    let mut cache = CacheBuffer::new(&Cache::All(8));
    cache.write(Message::text("foo".to_string()));
    cache.write(Message::text("bar".to_string()));

    let (_, replay) = Bridge::attach(1, cache.to_vec());

    assert_eq!(replay[0], Message::text("foo".to_string()));
    assert_eq!(replay[1], Message::text("bar".to_string()));
}

#[test]
fn test_disconnect() {
    let mut state = State::new(&create_config("cat"));
    connect(&mut state, "room1");
    connect(&mut state, "room2");

    state.handle(Event::Disconnect { room: "room1".to_string(), conn: 1, env: Env::default() });

    assert!(state.connections(&"room1".to_string()).unwrap().is_empty());
    assert!(!state.connections(&"room2".to_string()).unwrap().is_empty());
}

#[test]
fn one_child_per_room() {
    let mut state = State::new(&create_config("cat"));
    let first = connect(&mut state, "r");
    let second = connect(&mut state, "r");
    assert!(spawned(&first).is_some());
    assert!(spawned(&second).is_none());
    let other = connect(&mut state, "s");
    assert!(spawned(&other).is_some());
    assert!(state.has_process(&"r".to_string()));
    assert!(state.has_process(&"s".to_string()));
}

#[test]
fn connection_ids_are_fresh() {
    let mut state = State::new(&create_config("cat"));
    let a = attached(&connect(&mut state, "r")).unwrap();
    let b = attached(&connect(&mut state, "r")).unwrap();
    state.handle(Event::Disconnect { room: "r".to_string(), conn: a, env: Env::default() });
    state.handle(Event::Disconnect { room: "r".to_string(), conn: b, env: Env::default() });
    let c = attached(&connect(&mut state, "r")).unwrap();
    assert_eq!((a, b, c), (1, 2, 3));
}

#[test]
fn oneshot_rejects_second_client() {
    let mut cfg = create_config("echo");
    cfg.oneshot = true;
    let mut state = State::new(&cfg);
    connect(&mut state, "room1");
    let actions = connect(&mut state, "room1");
    assert_eq!(actions.len(), 1);
    assert!(matches!(actions[0], Action::Reject { .. }));
}

#[test]
fn last_disconnect_kills_child() {
    let mut state = State::new(&create_config("cat"));
    connect(&mut state, "r");
    connect(&mut state, "r");
    let actions = state.handle(Event::Disconnect { room: "r".to_string(), conn: 1, env: Env::default() });
    assert!(killed(&actions).is_empty());
    let actions = state.handle(Event::Disconnect { room: "r".to_string(), conn: 2, env: Env::default() });
    assert_eq!(killed(&actions), vec!["r".to_string()]);
    assert!(!state.has_process(&"r".to_string()));
}

#[test]
fn join_and_leave_messages() {
    let mut cfg = create_config("cat");
    cfg.joinmsg = Some("hi #ID".to_string());
    cfg.leavemsg = Some("bye #ID".to_string());
    let mut state = State::new(&cfg);
    let join = connect(&mut state, "r");
    assert_eq!(sent(&join), vec!["hi 1".to_string()]);
    let leave = state.handle(Event::Disconnect { room: "r".to_string(), conn: 1, env: Env::default() });
    assert_eq!(sent(&leave), vec!["bye 1".to_string()]);
}

#[test]
fn crashed_child_releases_port() {
    let mut cfg = create_config("sh");
    cfg.tcp = true;
    cfg.tcpports = 10000..10002;
    let mut state = State::new(&cfg);
    let (child, port) = spawned(&connect(&mut state, "r")).unwrap();
    assert_eq!(port, Some(10000));
    let (_, other_port) = spawned(&connect(&mut state, "s")).unwrap();
    assert_eq!(other_port, Some(10001));
    let full = connect(&mut state, "t");
    assert!(matches!(full[..], [Action::Reject { .. }]));

    state.handle(Event::ProcessExit { room: "r".to_string(), child, code: Some(1) });
    assert!(!state.has_process(&"r".to_string()));
    let (_, port) = spawned(&connect(&mut state, "r")).unwrap();
    assert_eq!(port, Some(10000));
}

#[test]
fn exit_is_handled_once() {
    let mut cfg = create_config("sh");
    cfg.tcp = true;
    cfg.tcpports = 10000..10001;
    let mut state = State::new(&cfg);
    let (child, _) = spawned(&connect(&mut state, "r")).unwrap();
    state.handle(Event::ProcessExit { room: "r".to_string(), child, code: Some(1) });
    state.handle(Event::ProcessExit { room: "r".to_string(), child, code: Some(1) });
    assert_eq!(spawned(&connect(&mut state, "r")).unwrap().1, Some(10000));
    assert!(matches!(connect(&mut state, "s")[..], [Action::Reject { .. }]));
}

#[test]
fn shutdown_is_idempotent() {
    let mut state = State::new(&create_config("cat"));
    connect(&mut state, "a");
    connect(&mut state, "b");
    let first = state.handle(Event::Shutdown);
    let mut rooms = killed(&first);
    rooms.sort();
    assert_eq!(rooms, vec!["a".to_string(), "b".to_string()]);
    assert!(!state.running());
    let second = state.handle(Event::Shutdown);
    assert!(second.is_empty());
    assert!(connect(&mut state, "a").is_empty());
}

#[test]
fn oneshot_stops_after_exit() {
    let mut cfg = create_config("echo");
    cfg.oneshot = true;
    let mut state = State::new(&cfg);
    let (child, _) = spawned(&connect(&mut state, "room1")).unwrap();
    let actions = state.handle(Event::ProcessExit { room: "room1".to_string(), child, code: Some(0) });
    assert!(actions.iter().any(|a| matches!(a, Action::ClearMetrics { .. })));
    assert!(!state.running());
}

#[test]
fn cache_created_once_and_dropped_on_exit() {
    let mut cfg = create_config("cat");
    cfg.cache = Some(Cache::All(8));
    let mut state = State::new(&cfg);
    let actions = connect(&mut state, "r");
    assert!(actions.iter().any(|a| matches!(a, Action::CreateCache { cache: Cache::All(8), .. })));
    let (child, _) = spawned(&actions).unwrap();
    assert!(state.has_cache(&"r".to_string()));
    let actions = state.handle(Event::ProcessExit { room: "r".to_string(), child, code: None });
    assert!(actions.iter().any(|a| matches!(a, Action::DropCache { .. })));
    assert!(!state.has_cache(&"r".to_string()));
}

#[test]
fn persisted_cache_outlives_child() {
    let mut cfg = create_config("cat");
    cfg.cache = Some(Cache::Tagged(1));
    cfg.cache_persist = true;
    let mut state = State::new(&cfg);
    let (child, _) = spawned(&connect(&mut state, "r")).unwrap();
    state.handle(Event::ProcessExit { room: "r".to_string(), child, code: None });
    assert!(state.has_cache(&"r".to_string()));
    let again = connect(&mut state, "r");
    assert!(!again.iter().any(|a| matches!(a, Action::CreateCache { .. })));
}

#[test]
fn cache_replay_precedes_live() {
    let mut cache = CacheBuffer::new(&Cache::All(8));
    cache.write(Message::text("foo".to_string()));
    cache.write(Message::text("bar".to_string()));
    let (mut bridge, replay) = Bridge::attach(2, cache.to_vec());
    assert_eq!(replay, vec![Message::text("foo".to_string()), Message::text("bar".to_string())]);
    let live = bridge.forward(&Header::broadcast(), Message::text("baz".to_string()));
    assert_eq!(live, Some(Message::text("baz".to_string())));
}

#[test]
fn cache_keeps_most_recent() {
    let mut single = CacheBuffer::new(&Cache::Tagged(1));
    single.write(Message::text("a".to_string()));
    single.write(Message::text("b".to_string()));
    assert_eq!(single.to_vec(), vec![(Header::broadcast(), Message::text("b".to_string()))]);
    assert_eq!(single.capacity(), 1);

    let mut tiny = CacheBuffer::new(&Cache::All(8));
    for i in 0..10 {
        tiny.write(Message::text(i.to_string()));
    }
    let kept: Vec<Message> = tiny.to_vec().into_iter().map(|(_, m)| m).collect();
    let expected: Vec<Message> = (2..10).map(|i| Message::text(i.to_string())).collect();
    assert_eq!(kept, expected);

    let mut small = CacheBuffer::new(&Cache::All(64));
    assert!(small.to_vec().is_empty());
    small.write(Message::binary(vec![1]));
    assert_eq!(small.to_vec(), vec![(Header::broadcast(), Message::binary(vec![1]))]);
    assert_eq!(small.capacity(), 64);
}

#[test]
fn port_pool_hands_out_smallest() {
    let mut pool = PortPool::new(10000, 10003);
    assert_eq!(pool.acquire(), Some(10000));
    assert_eq!(pool.acquire(), Some(10001));
    pool.release(10000);
    assert_eq!(pool.acquire(), Some(10000));
    assert_eq!(pool.acquire(), Some(10002));
    assert_eq!(pool.acquire(), None);
    let mut empty = PortPool::new(5, 5);
    assert_eq!(empty.acquire(), None);
}

#[test]
fn metadata_event_is_stored() {
    let mut state = State::new(&create_config("cat"));
    let value: serde_json::Value = serde_json::from_str("{\"foo\":\"bar\"}").unwrap();
    let actions = state.handle(Event::ProcessMeta { room: "r".to_string(), value });
    assert!(matches!(actions[..], [Action::SetMetadata { .. }]));
}

#[test]
fn connection_ids_count_up() {
    let mut state = State::new(&create_config("cat"));
    assert_eq!(state.new_conn_id(), Some(1));
    assert_eq!(state.new_conn_id(), Some(2));
    let actions = connect(&mut state, "r");
    assert_eq!(attached(&actions), Some(3));
}

#[test]
fn warm_connect_keeps_child_and_port() {
    let mut cfg = create_config("sh");
    cfg.tcp = true;
    cfg.tcpports = 10000..10002;
    let mut state = State::new(&cfg);
    let first = connect(&mut state, "r");
    assert_eq!(spawned(&first).map(|(_, p)| p), Some(Some(10000)));
    let second = connect(&mut state, "r");
    assert!(spawned(&second).is_none());
    assert!(second.iter().any(|a| matches!(a, Action::Attach { conn: 2, cold: false, .. })));
    let (_, port) = spawned(&connect(&mut state, "s")).unwrap();
    assert_eq!(port, Some(10001));
}

#[test]
fn bridge_forwards_only_its_messages_in_order() {
    let (mut bridge, replay) = Bridge::attach(2, vec![(Header::broadcast(), Message::text("old".to_string()))]);
    assert_eq!(replay, vec![Message::text("old".to_string())]);
    let live = vec![
        (Header::to(1), "a"),
        (Header::broadcast(), "b"),
        (Header::to(2), "c"),
        (Header::to(3), "d"),
        (Header::broadcast(), "e"),
    ];
    let out: Vec<Message> = live
        .into_iter()
        .filter_map(|(h, t)| bridge.forward(&h, Message::text(t.to_string())))
        .collect();
    let expected: Vec<Message> = ["b", "c", "e"].iter().map(|t| Message::text(t.to_string())).collect();
    assert_eq!(out, expected);
}
