use bkg_beam::protocol::{parse_request, Reply};
use bkg_beam::registry::TunnelRegistry;
use bkg_beam::server::{handle_request, Outcome};

fn queues(r: &TunnelRegistry, id: &str) -> Option<(u64, Vec<u64>, Vec<u64>)> {
    r.tunnel(&id.to_string()).map(|e| (e.control, e.pending.clone(), e.workers.clone()))
}

#[test]
fn register_once_per_id() {
    let mut r = TunnelRegistry::new();
    let id = "22-me_up-22".to_string();
    assert!(!r.contains(&id));
    assert!(r.register(id.clone(), 1));
    assert!(r.contains(&id));
    assert!(!r.register(id.clone(), 2));
    assert_eq!(queues(&r, &id), Some((1, vec![], vec![])));
    assert!(r.register("other".to_string(), 3));
    assert_eq!(queues(&r, "other"), Some((3, vec![], vec![])));
}

#[test]
fn unknown_tunnel_changes_nothing() {
    let mut r = TunnelRegistry::new();
    r.register("a".to_string(), 1);
    assert!(r.enqueue_pending(&"b".to_string(), 10).is_none());
    assert!(r.enqueue_worker(&"b".to_string(), 11).is_none());
    assert!(r.pair_ready_streams(&"b".to_string()).is_empty());
    assert!(r.remove_tunnel(&"b".to_string()).is_none());
    assert_eq!(queues(&r, "a"), Some((1, vec![], vec![])));
    assert_eq!(queues(&r, "b"), None);
}

#[test]
fn connection_waits_then_meets_worker() {
    let mut r = TunnelRegistry::new();
    let id = "t".to_string();
    r.register(id.clone(), 1);
    let (control, pairs) = r.enqueue_pending(&id, 10).unwrap();
    assert_eq!(control, 1);
    assert!(pairs.is_empty());
    assert_eq!(queues(&r, "t"), Some((1, vec![10], vec![])));
    let pairs = r.enqueue_worker(&id, 20).unwrap();
    assert_eq!(pairs, vec![(10, 20)]);
    assert_eq!(queues(&r, "t"), Some((1, vec![], vec![])));
}

#[test]
fn worker_waits_then_meets_connection() {
    let mut r = TunnelRegistry::new();
    let id = "t".to_string();
    r.register(id.clone(), 1);
    assert!(r.enqueue_worker(&id, 20).unwrap().is_empty());
    assert!(r.enqueue_worker(&id, 21).unwrap().is_empty());
    assert_eq!(queues(&r, "t"), Some((1, vec![], vec![20, 21])));
    let (_, pairs) = r.enqueue_pending(&id, 10).unwrap();
    assert_eq!(pairs, vec![(10, 20)]);
    let (_, pairs) = r.enqueue_pending(&id, 11).unwrap();
    assert_eq!(pairs, vec![(11, 21)]);
    let (_, pairs) = r.enqueue_pending(&id, 12).unwrap();
    assert!(pairs.is_empty());
    assert_eq!(queues(&r, "t"), Some((1, vec![12], vec![])));
}

#[test]
fn pending_connections_are_served_first_in_first_out() {
    let mut r = TunnelRegistry::new();
    let id = "t".to_string();
    r.register(id.clone(), 1);
    for s in [10, 11, 12] {
        r.enqueue_pending(&id, s).unwrap();
    }
    assert_eq!(r.enqueue_worker(&id, 20).unwrap(), vec![(10, 20)]);
    assert_eq!(r.enqueue_worker(&id, 21).unwrap(), vec![(11, 21)]);
    assert_eq!(queues(&r, "t"), Some((1, vec![12], vec![])));
    assert!(r.pair_ready_streams(&id).is_empty());
}

#[test]
fn remove_hands_back_waiting_connections() {
    let mut r = TunnelRegistry::new();
    let id = "t".to_string();
    r.register(id.clone(), 1);
    r.enqueue_pending(&id, 10).unwrap();
    r.enqueue_pending(&id, 11).unwrap();
    let e = r.remove_tunnel(&id).unwrap();
    assert_eq!((e.control, e.pending.clone(), e.workers.clone()), (1, vec![10, 11], vec![]));
    assert!(!r.contains(&id));
    assert!(r.register(id.clone(), 2));
    assert_eq!(queues(&r, "t"), Some((2, vec![], vec![])));
}

#[test]
fn server_handles_first_lines() {
    let mut r = TunnelRegistry::new();
    assert!(matches!(handle_request(&mut r, parse_request("REGISTER t\n"), 1), Outcome::Registered));
    assert!(matches!(
        handle_request(&mut r, parse_request("REGISTER t\n"), 2),
        Outcome::Refused(Reply::TunnelExists)
    ));
    assert!(matches!(
        handle_request(&mut r, parse_request("CONNECT nope\n"), 3),
        Outcome::Refused(Reply::UnknownTunnel)
    ));
    assert!(matches!(
        handle_request(&mut r, parse_request("WORKER nope\n"), 4),
        Outcome::Refused(Reply::UnknownTunnel)
    ));
    assert!(matches!(
        handle_request(&mut r, parse_request("\n"), 5),
        Outcome::Refused(Reply::MissingTunnelId)
    ));
    assert!(matches!(
        handle_request(&mut r, parse_request("HELLO t\n"), 6),
        Outcome::Refused(Reply::UnknownCommand(c)) if c == "HELLO"
    ));
    match handle_request(&mut r, parse_request("CONNECT t\n"), 7) {
        Outcome::PendingQueued { control, pairs } => {
            assert_eq!(control, 1);
            assert!(pairs.is_empty());
        }
        _ => panic!("connection not queued"),
    }
    match handle_request(&mut r, parse_request("WORKER t\n"), 8) {
        Outcome::WorkerQueued { pairs } => assert_eq!(pairs, vec![(7, 8)]),
        _ => panic!("worker not queued"),
    }
    assert_eq!(queues(&r, "t"), Some((1, vec![], vec![])));
}

#[test]
fn register_then_remove_restores_the_registry() {
    let mut r = TunnelRegistry::new();
    r.register("a".to_string(), 1);
    r.enqueue_worker(&"a".to_string(), 5).unwrap();
    r.register("b".to_string(), 2);
    let e = r.remove_tunnel(&"b".to_string()).unwrap();
    assert_eq!((e.control, e.pending.len(), e.workers.len()), (2, 0, 0));
    assert!(!r.contains(&"b".to_string()));
    assert_eq!(queues(&r, "a"), Some((1, vec![], vec![5])));
}
