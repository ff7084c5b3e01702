use serverare::models::{IpAddress, Relay, Server};
use serverare::pinger::{handle_offline, record_probes, select_relay, PROBE_COUNT};

fn relay(a: u8) -> Relay {
    Relay { ipv4: IpAddress::V4([2, 2, 2, a]) }
}

fn server() -> Server {
    Server {
        id: "fra".to_string(),
        description: "Frankfurt".to_string(),
        relays: vec![relay(1), relay(2), relay(3)],
        ping: None,
        status_text: "Checking...".to_string(),
        blocked: true,
        packet_loss: None,
    }
}

#[test]
fn fastest_relay_is_chosen_first_on_ties() {
    let relays = [relay(1), relay(2), relay(3)];
    assert_eq!(select_relay(&relays, &[Some(40), Some(20), Some(20)]), Some(relay(2).ipv4));
    assert_eq!(select_relay(&relays, &[None, None, Some(90)]), Some(relay(3).ipv4));
    assert_eq!(select_relay(&relays, &[None, None, None]), None);
    assert_eq!(select_relay(&[], &[]), None);
}

#[test]
fn round_trips_wrap_to_u32() {
    let relays = [relay(1), relay(2)];
    // 2^32 + 5 ms wraps to 5 ms, as the cast of the milliseconds does.
    assert_eq!(select_relay(&relays, &[Some(30), Some(4294967301)]), Some(relay(2).ipv4));
    // A round trip of exactly u32::MAX ms is never better than the start value.
    assert_eq!(select_relay(&relays, &[Some(4294967295), None]), None);
}

#[test]
fn probes_give_ping_and_loss() {
    let mut s = server();
    record_probes(&mut s, Some(relay(1).ipv4), &[Some(35), None, Some(31), Some(33)]);
    assert_eq!(PROBE_COUNT, 4);
    assert_eq!(s.ping, Some(31));
    assert_eq!(s.packet_loss, Some(25));
    assert_eq!(s.status_text, "31ms");
    assert!(s.blocked);
    assert_eq!(s.description, "Frankfurt");

    let mut s = server();
    record_probes(&mut s, Some(relay(1).ipv4), &[Some(7), Some(7), Some(8), Some(9)]);
    assert_eq!(s.packet_loss, Some(0));
    assert_eq!(s.status_text, "7ms");

    let mut s = server();
    record_probes(&mut s, Some(relay(1).ipv4), &[None, None, None, Some(150)]);
    assert_eq!(s.packet_loss, Some(75));
    assert_eq!(s.ping, Some(150));
}

#[test]
fn unanswered_probes_mean_offline() {
    let mut s = server();
    record_probes(&mut s, Some(relay(1).ipv4), &[None, None, None, None]);
    assert_eq!(s.ping, None);
    assert_eq!(s.packet_loss, Some(100));
    assert_eq!(s.status_text, "Offline");

    let mut s = server();
    s.ping = Some(12);
    record_probes(&mut s, None, &[Some(1), Some(1), Some(1), Some(1)]);
    assert_eq!(s.ping, None);
    assert_eq!(s.status_text, "Offline");

    let mut s = server();
    handle_offline(&mut s);
    assert_eq!(s.packet_loss, Some(100));
    assert_eq!(s.relays.len(), 3);
}
