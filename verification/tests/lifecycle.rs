use qxevent::config::Config;
use qxevent::datetime::QxDateTime;
use qxevent::error::Error;
use qxevent::method::{metamethod_from_rpcvalue, AccessLevel, MetaMethod};
use qxevent::proxy::{join_path, map_call_error, CallError, EventRpcProxy, ProxyDecision};
use qxevent::router::{
    event_info, event_mount_point, list_events, route, NodeType, RootMethod, Routed,
};
use qxevent::rpcvalue::RpcValue;
use qxevent::state::{CloseOutcome, EventStore, OpenPlan, State};

fn now() -> QxDateTime {
    QxDateTime::new(2025, 6, 1, 12, 0, 0, 0, 0).unwrap()
}

fn fresh_state() -> State {
    State::new(EventStore::new())
}

fn open_committed(state: &mut State, id: i64) -> bool {
    let plan = state.open_event(id, "/tmp/qx-test").expect("open plan");
    match plan {
        OpenPlan::AlreadyOpen => false,
        OpenPlan::Remote(data) => state.open_event_commit(id, data, false),
        OpenPlan::Local { data, .. } => state.open_event_commit(id, data, true),
    }
}

#[test]
fn test_load_row_accepts_and_refuses() {
    let mut store = EventStore::new();
    let data = qxevent::codec::EventData {
        name: String::new(),
        date: now(),
        owner: "alice".to_string(),
        api_token: "kotuwexiba".to_string(),
        is_local: true,
    };
    let blob = qxevent::codec::encode_event_data(&data);
    // A valid persisted row is taken over under its own id.
    store.load_row(5, "kotuwexiba".to_string(), blob.clone()).unwrap();
    assert_eq!(store.next_id, 6);
    assert!(store.row_by_id(5).is_some());
    // A duplicate id, a duplicate token, an out-of-range id, and a blob the
    // encoding did not write are each refused, changing nothing.
    assert!(store.load_row(5, "other".to_string(), blob.clone()).is_err());
    assert!(store.load_row(7, "kotuwexiba".to_string(), blob.clone()).is_err());
    assert!(store.load_row(0, "t0".to_string(), blob.clone()).is_err());
    assert!(store.load_row(7, "t7".to_string(), "not a blob".to_string()).is_err());
    assert_eq!(store.rows.len(), 1);
    // A create after the load still gets a strictly greater id.
    let mut s = State::new(store);
    let (id, _) = s.create_event("bob".to_string()).unwrap();
    assert!(id > 5);
}

#[test]
fn test_create_gives_fresh_ids_and_tokens() {
    let mut s = fresh_state();
    let (id1, tok1) = s.create_event("alice".to_string()).unwrap();
    let (id2, tok2) = s.create_event("bob".to_string()).unwrap();
    assert_eq!(id1, 1);
    assert_eq!(id2, 2);
    assert!(id2 > id1);
    assert_ne!(tok1, tok2);
    assert_eq!(tok1.chars().count(), 10);
}

#[test]
fn test_create_empty_owner_fails_without_mutation() {
    let mut s = fresh_state();
    let r = s.create_event(String::new());
    assert!(matches!(r, Err(Error::EmptyOwner)));
    assert_eq!(s.store.rows.len(), 0);
    assert_eq!(s.store.next_id, 1);
}

#[test]
fn test_duplicate_token_is_refused() {
    let mut s = fresh_state();
    s.create_event_with("alice".to_string(), "tok1".to_string(), now()).unwrap();
    let r = s.create_event_with("bob".to_string(), "tok1".to_string(), now());
    assert!(matches!(r, Err(Error::TokenExists)));
    assert_eq!(s.store.rows.len(), 1);
}

#[test]
fn test_token_to_id_resolves_each_created_event() {
    let mut s = fresh_state();
    let (id1, _) = s.create_event_with("a".to_string(), "t-one".to_string(), now()).unwrap();
    let (id2, _) = s.create_event_with("b".to_string(), "t-two".to_string(), now()).unwrap();
    assert_eq!(s.api_token_to_event_id("t-one").unwrap(), id1);
    assert_eq!(s.api_token_to_event_id("t-two").unwrap(), id2);
    assert!(matches!(
        s.api_token_to_event_id("never-issued"),
        Err(Error::TokenNotFound)
    ));
}

#[test]
fn test_open_is_idempotent() {
    let mut s = fresh_state();
    let (id, _) = s.create_event("alice".to_string()).unwrap();
    assert!(open_committed(&mut s, id));
    let before = s.open_events.len();
    // A second open finds the entry and plans no work at all.
    match s.open_event(id, "/tmp/qx-test").unwrap() {
        OpenPlan::AlreadyOpen => {}
        _ => panic!("second open must be a no-op"),
    }
    assert_eq!(s.open_events.len(), before);
    assert_eq!(s.open_events.iter().filter(|e| e.0 == id).count(), 1);
}

#[test]
fn test_two_racing_opens_leave_one_entry() {
    let mut s = fresh_state();
    let (id, _) = s.create_event_with("x".to_string(), "tk".to_string(), now()).unwrap();
    // Both tasks resolved their plan; the commits are serialized by the
    // writer lock, and the second one inserts nothing.
    let plan1 = match s.open_event(id, "/d").unwrap() {
        OpenPlan::Local { data, .. } => data,
        _ => panic!("expected a local plan"),
    };
    let plan2 = match s.open_event(id, "/d").unwrap() {
        OpenPlan::Local { data, .. } => data,
        _ => panic!("expected a local plan"),
    };
    assert!(s.open_event_commit(id, plan1, true));
    assert!(!s.open_event_commit(id, plan2, true));
    assert_eq!(s.open_events.iter().filter(|e| e.0 == id).count(), 1);
}

#[test]
fn test_close_non_open_is_noop_success() {
    let mut s = fresh_state();
    assert_eq!(s.close_event(42), CloseOutcome::NotOpen);
}

#[test]
fn test_close_open_local_event_hands_back_its_process() {
    let mut s = fresh_state();
    let (id, _) = s.create_event("alice".to_string()).unwrap();
    assert!(open_committed(&mut s, id));
    match s.close_event(id) {
        CloseOutcome::Closed { had_process } => assert!(had_process),
        CloseOutcome::NotOpen => panic!("the event was open"),
    }
    assert_eq!(s.open_events.len(), 0);
}

#[test]
fn test_info_masks_api_token() {
    let mut s = fresh_state();
    let (id, tok) = s.create_event_with("alice".to_string(), "secretoken".to_string(), now())
        .unwrap();
    assert!(open_committed(&mut s, id));
    let v = event_info(&s, id).unwrap();
    match v {
        RpcValue::StrMap(entries) => {
            let token_field = entries
                .iter()
                .find(|e| e.0 == "api_token")
                .expect("token field present");
            match &token_field.1 {
                RpcValue::Str(t) => assert_eq!(t, ""),
                _ => panic!("token field must be a string"),
            }
            // The in-memory record still holds the real token.
            let (data, _) = s.event_data_from_sql(id).unwrap();
            assert_eq!(data.api_token, tok);
        }
        _ => panic!("info must be a map"),
    }
}

#[test]
fn test_delete_requires_close_first() {
    let mut s = fresh_state();
    let (id, _) = s.create_event("alice".to_string()).unwrap();
    assert!(open_committed(&mut s, id));
    assert!(matches!(s.delete_event(id), Err(Error::EventStillOpen(_))));
    s.close_event(id);
    assert_eq!(s.delete_event(id).unwrap(), true);
    assert_eq!(s.delete_event(id).unwrap(), false);
}

#[test]
fn test_full_event_scenario() {
    let mut s = fresh_state();
    let cfg = Config::default();
    let (id, token) = s
        .create_event_with("alice".to_string(), "abc123xy99".to_string(), now())
        .unwrap();
    assert_eq!(id, 1);
    assert_eq!(token, "abc123xy99");
    let resolved = s.api_token_to_event_id("abc123xy99").unwrap();
    assert_eq!(resolved, 1);
    assert!(open_committed(&mut s, resolved));
    assert_eq!(event_mount_point(&cfg, resolved), "test/qx/event/1");
    let info = event_info(&s, 1).unwrap();
    match info {
        RpcValue::StrMap(entries) => {
            match &entries.iter().find(|e| e.0 == "owner").unwrap().1 {
                RpcValue::Str(o) => assert_eq!(o, "alice"),
                _ => panic!("owner must be a string"),
            }
            match &entries.iter().find(|e| e.0 == "api_token").unwrap().1 {
                RpcValue::Str(t) => assert_eq!(t, ""),
                _ => panic!("token must be a string"),
            }
        }
        _ => panic!("info must be a map"),
    }
    assert_eq!(s.close_event(1), CloseOutcome::Closed { had_process: true });
    assert!(event_info(&s, 1).is_err());
}

#[test]
fn test_open_unknown_event_reports_not_found() {
    let s = fresh_state();
    assert!(matches!(
        s.open_event(9, "/d"),
        Err(Error::EventNotFound(9))
    ));
}

#[test]
fn test_list_events_sorts_numerically() {
    let mut s = fresh_state();
    for owner in ["a", "b", "c", "d", "e", "f", "g", "h", "i", "j", "k"] {
        s.create_event(owner.to_string()).unwrap();
    }
    for id in [10, 2, 1, 11] {
        assert!(open_committed(&mut s, id));
    }
    let listed = list_events(&s);
    assert_eq!(listed, vec!["1", "2", "10", "11"]);
}

#[test]
fn test_from_path_classification() {
    assert!(matches!(NodeType::from_path(""), Some(NodeType::Root)));
    assert!(matches!(NodeType::from_path("7"), Some(NodeType::Event(7))));
    assert!(matches!(NodeType::from_path("-3"), Some(NodeType::Event(-3))));
    match NodeType::from_path("7/db") {
        Some(NodeType::EventSubtree(7, rest)) => assert_eq!(rest, ""),
        _ => panic!("7/db must be a subtree"),
    }
    match NodeType::from_path("7/db/table/x") {
        Some(NodeType::EventSubtree(7, rest)) => assert_eq!(rest, "table/x"),
        _ => panic!("7/db/... must be a subtree"),
    }
    assert!(NodeType::from_path("abc").is_none());
    assert!(NodeType::from_path("7/nope").is_none());
    assert!(NodeType::from_path("7x/db").is_none());
}

#[test]
fn test_route_dispatch() {
    let owner = RpcValue::Str("alice".to_string());
    match route("", "createEvent", &owner) {
        Routed::Root(RootMethod::CreateEvent(o)) => assert_eq!(o, "alice"),
        _ => panic!("createEvent must resolve at the root"),
    }
    match route("", "openEvent", &RpcValue::Int(5)) {
        Routed::Root(RootMethod::OpenEvent(5)) => {}
        _ => panic!("openEvent must carry the id"),
    }
    match route("", "openEventApiKey", &RpcValue::Str("tok".to_string())) {
        Routed::Root(RootMethod::OpenEventApiKey(t)) => assert_eq!(t, "tok"),
        _ => panic!("openEventApiKey must carry the token"),
    }
    assert!(matches!(route("", "unknown", &RpcValue::Null), Routed::Unresolved));
    assert!(matches!(
        route("4", "info", &RpcValue::Null),
        Routed::Event(4, qxevent::router::EventMethod::Info)
    ));
    assert!(matches!(route("4", "frobnicate", &RpcValue::Null), Routed::Unresolved));
    match route("4/db/runs", "get", &RpcValue::Null) {
        Routed::Subtree(4, rest) => assert_eq!(rest, "runs"),
        _ => panic!("a db remainder must be forwarded"),
    }
    assert!(matches!(route("oops", "dir", &RpcValue::Null), Routed::Unresolved));
}

#[test]
fn test_join_path_trims_like_the_transport() {
    assert_eq!(join_path("a", "b"), "a/b");
    assert_eq!(join_path("/a/", "/b/"), "a/b");
    assert_eq!(join_path("", "x/y"), "x/y");
    assert_eq!(join_path("x/y", ""), "x/y");
    assert_eq!(join_path("", ""), "");
    assert_eq!(join_path("///", "b"), "/b");
}

#[test]
fn test_proxy_rejects_methods_the_remote_lacks() {
    let cfg = Config::default();
    let p = EventRpcProxy::new(&cfg, 7);
    assert_eq!(p.event_mount_point, "test/qx/event/7");
    assert_eq!(p.target_path("runs/1"), "test/qx/event/7/runs/1");
    let remote = vec![MetaMethod::new_static("get", 0, AccessLevel::Read, "", "")];
    assert_eq!(p.request_handler("dir", &remote), ProxyDecision::Dir);
    assert_eq!(p.request_handler("ls", &remote), ProxyDecision::Ls);
    assert_eq!(p.request_handler("get", &remote), ProxyDecision::Forward);
    assert_eq!(p.request_handler("set", &remote), ProxyDecision::Unresolved);
}

#[test]
fn test_metamethod_decode_from_dir_entry() {
    let entry = RpcValue::IntMap(vec![
        (1, RpcValue::Str("get".to_string())),
        (2, RpcValue::Int(2)),
        (3, RpcValue::Str("i".to_string())),
        (4, RpcValue::Str("s".to_string())),
        (5, RpcValue::Int(8)),
        (
            6,
            RpcValue::StrMap(vec![
                ("chng".to_string(), RpcValue::Str("s".to_string())),
                ("mod".to_string(), RpcValue::Null),
            ]),
        ),
    ]);
    let m = metamethod_from_rpcvalue(&entry);
    assert_eq!(m.name, "get");
    assert_eq!(m.flags, 2);
    assert_eq!(m.access, AccessLevel::Read);
    assert_eq!(m.param, "i");
    assert_eq!(m.result, "s");
    assert_eq!(m.signals.len(), 2);
    assert_eq!(m.signals[0], ("chng".to_string(), Some("s".to_string())));
    assert_eq!(m.signals[1], ("mod".to_string(), None));
    // An unknown access number falls back to Browse, a missing name to "".
    let bare = RpcValue::IntMap(vec![(5, RpcValue::Int(99))]);
    let m = metamethod_from_rpcvalue(&bare);
    assert_eq!(m.name, "");
    assert_eq!(m.access, AccessLevel::Browse);
}

#[test]
fn test_call_error_mapping_preserves_remote_errors() {
    let r = map_call_error(&CallError::ConnectionClosed);
    assert_eq!(r.code.code_num(), 7);
    assert_eq!(r.message, "ConnectionClosed");
    let r = map_call_error(&CallError::InvalidMessage("bad frame".to_string()));
    assert_eq!(r.code.code_num(), 7);
    assert_eq!(r.message, "bad frame");
    let remote = qxevent::error::RpcError::new(
        qxevent::error::RpcErrorCode::MethodCallException,
        "row missing".to_string(),
    );
    let r = map_call_error(&CallError::Remote(remote));
    assert_eq!(r.code.code_num(), 8);
    assert_eq!(r.message, "row missing");
}

#[test]
fn test_error_messages() {
    assert_eq!(Error::EmptyOwner.message(), "Owner cannot be empty");
    assert_eq!(Error::TokenNotFound.message(), "API token not found");
    assert_eq!(Error::EventNotFound(12).message(), "Event id: 12 not found");
    let rpc = qxevent::error::RpcError::from_error(&Error::EmptyOwner);
    assert_eq!(rpc.message, "Error: Owner cannot be empty");
    assert_eq!(rpc.code.code_num(), 8);
}
