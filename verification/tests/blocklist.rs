use serverare::db::Db;
use serverare::models::{IpAddress, Relay};

fn relay(a: u8) -> Relay {
    Relay { ipv4: IpAddress::V4([1, 1, 1, a]) }
}

#[test]
fn block_then_lookup_returns_the_addresses() {
    let mut db = Db::new();
    assert!(!db.is_blocked("Sweden"));
    assert_eq!(db.get_ips("Sweden"), None);
    db.block_server("Sweden", &[relay(1), relay(2)]);
    assert!(db.is_blocked("Sweden"));
    assert_eq!(db.get_ips("Sweden"), Some(vec![IpAddress::V4([1, 1, 1, 1]), IpAddress::V4([1, 1, 1, 2])]));
    assert!(!db.is_blocked("sweden"));
}

#[test]
fn blocking_again_replaces_the_addresses() {
    let mut db = Db::new();
    db.block_server("A", &[relay(1)]);
    db.block_server("B", &[relay(9)]);
    db.block_server("A", &[relay(3)]);
    assert_eq!(db.get_ips("A"), Some(vec![IpAddress::V4([1, 1, 1, 3])]));
    assert_eq!(db.get_ips("B"), Some(vec![IpAddress::V4([1, 1, 1, 9])]));
}

#[test]
fn unblock_forgets_only_that_server() {
    let mut db = Db::new();
    db.block_server("A", &[relay(1)]);
    db.block_server("B", &[relay(2)]);
    db.unblock_server("A");
    assert!(!db.is_blocked("A"));
    assert!(db.is_blocked("B"));
    db.unblock_server("never blocked");
    assert!(db.is_blocked("B"));
}

#[test]
fn batches_block_and_unblock_each_server() {
    let mut db = Db::new();
    db.block_servers(&[
        ("A".to_string(), vec![relay(1)]),
        ("B".to_string(), vec![]),
        ("A".to_string(), vec![relay(2)]),
    ]);
    assert_eq!(db.get_ips("A"), Some(vec![IpAddress::V4([1, 1, 1, 2])]));
    assert_eq!(db.get_ips("B"), Some(vec![]));
    db.block_server("C", &[relay(3)]);
    db.unblock_servers(&["A".to_string(), "B".to_string(), "Z".to_string()]);
    assert!(!db.is_blocked("A"));
    assert!(!db.is_blocked("B"));
    assert!(db.is_blocked("C"));
}

#[test]
fn unblocking_a_fresh_block_restores_the_list() {
    let mut db = Db::new();
    db.block_server("A", &[relay(1)]);
    db.block_server("B", &[relay(2)]);
    db.unblock_server("B");
    assert!(!db.is_blocked("B"));
    assert_eq!(db.get_ips("A"), Some(vec![IpAddress::V4([1, 1, 1, 1])]));
}

#[test]
fn blocked_follows_the_last_call_naming_it() {
    let mut db = Db::new();
    db.block_server("A", &[relay(1)]);
    db.unblock_servers(&["A".to_string()]);
    db.block_server("B", &[]);
    assert!(!db.is_blocked("A"));
    db.block_servers(&[("A".to_string(), vec![relay(2)])]);
    db.unblock_server("B");
    assert!(db.is_blocked("A"));
    assert!(!db.is_blocked("B"));
    assert!(!db.is_blocked("C"));
}
