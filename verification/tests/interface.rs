use serverare::app_state::{ActivePane, AppAction, AppEvent, AppState, FirewallRequest, Key};
use serverare::db::Db;
use serverare::display::{block_label, block_tone, header_text, header_tone, latency_tone, pane_highlighted, servers_title, HeaderTone, Tone};
use serverare::models::{GameDefinition, IpAddress, Relay, Server};

fn game(name: &str) -> GameDefinition {
    GameDefinition {
        game_mode: name.to_string(),
        id: name.to_lowercase(),
        display_name: name.to_string(),
        app_id: 1,
        keyword_filter_mode: "none".to_string(),
        keywords: vec![],
        cluster_keywords: vec![],
    }
}

fn server(desc: &str, blocked: bool) -> Server {
    Server {
        id: "x".to_string(),
        description: desc.to_string(),
        relays: vec![Relay { ipv4: IpAddress::V4([9, 9, 9, 9]) }],
        ping: None,
        status_text: String::new(),
        blocked,
        packet_loss: None,
    }
}

fn loaded_state() -> AppState {
    let mut st = AppState::new(vec![game("CS2"), game("Deadlock")]);
    let a = st.change_game();
    assert!(matches!(a, AppAction::FetchServers(0)));
    let a = st.handle_event(AppEvent::FetchSuccess { servers: vec![server("A", false), server("B", true)] });
    assert!(matches!(a, AppAction::PingServers));
    st
}

#[test]
fn new_state_starts_on_first_game() {
    let st = AppState::new(vec![game("CS2")]);
    assert_eq!(st.selected_game_idx, 0);
    assert_eq!(st.active_pane, ActivePane::Games);
    assert!(st.servers.is_empty());
    assert!(!st.loading);
    assert_eq!(st.status_message, "");
    assert_eq!(st.error_message, None);
    assert_eq!(st.games_list_selected, Some(0));
    assert_eq!(st.servers_table_selected, Some(0));
}

#[test]
fn changing_game_asks_for_its_servers() {
    let mut st = AppState::new(vec![game("CS2")]);
    st.error_message = Some("old".to_string());
    let a = st.change_game();
    assert!(matches!(a, AppAction::FetchServers(0)));
    assert!(st.loading);
    assert_eq!(st.status_message, "Fetching servers from Steam SDR...");
    assert_eq!(st.error_message, None);
    let mut empty = AppState::new(vec![]);
    assert!(matches!(empty.change_game(), AppAction::Nothing));
    assert!(!empty.loading);
}

#[test]
fn fetched_servers_are_pinged() {
    let st = loaded_state();
    assert!(!st.loading);
    assert_eq!(st.status_message, "Pinging servers...");
    assert!(st.servers.iter().all(|s| s.status_text == "Checking..."));
    let mut st2 = AppState::new(vec![game("CS2")]);
    let a = st2.handle_event(AppEvent::FetchSuccess { servers: vec![] });
    assert!(matches!(a, AppAction::Nothing));
    assert_eq!(st2.status_message, "Servers loaded. Press R to refresh pings or Up/Down to navigate.");
}

#[test]
fn ping_updates_finish_the_round() {
    let mut st = loaded_state();
    st.handle_event(AppEvent::PingUpdate { index: 0, ping: Some(20), status_text: "20ms".to_string() });
    assert_eq!(st.servers[0].ping, Some(20));
    assert_eq!(st.status_message, "Pinging servers...");
    st.handle_event(AppEvent::PingUpdate { index: 7, ping: Some(1), status_text: "1ms".to_string() });
    assert_eq!(st.status_message, "Pinging servers...");
    st.handle_event(AppEvent::PingUpdate { index: 1, ping: None, status_text: "Offline".to_string() });
    assert_eq!(st.servers[1].status_text, "Offline");
    assert_eq!(st.status_message, "Pings updated.");
}

#[test]
fn errors_are_shown() {
    let mut st = loaded_state();
    st.loading = true;
    st.handle_event(AppEvent::FetchError("timeout".to_string()));
    assert!(!st.loading);
    assert_eq!(st.error_message, Some("timeout".to_string()));
    assert_eq!(header_text(&st), "ERROR: timeout");
    assert_eq!(header_tone(&st), HeaderTone::Error);
    st.loading = true;
    st.handle_event(AppEvent::FirewallError("denied".to_string()));
    assert_eq!(st.error_message, Some("denied".to_string()));
    let a = st.handle_event(AppEvent::FirewallSuccess);
    assert!(matches!(a, AppAction::RefreshBlocked));
    assert_eq!(st.error_message, None);
    assert_eq!(st.status_message, "Firewall updated successfully.");
    assert_eq!(header_tone(&st), HeaderTone::Idle);
}

#[test]
fn keys_move_and_switch() {
    let mut st = loaded_state();
    assert!(matches!(st.handle_key(Key::Char('q')), AppAction::Quit));
    assert!(matches!(st.handle_key(Key::Esc), AppAction::Quit));
    assert!(matches!(st.handle_key(Key::Up), AppAction::Nothing));
    assert!(matches!(st.handle_key(Key::Down), AppAction::FetchServers(1)));
    assert_eq!(st.selected_game_idx, 1);
    assert_eq!(st.games_list_selected, Some(1));
    assert!(st.servers.is_empty());
    assert!(matches!(st.handle_key(Key::Down), AppAction::Nothing));
    assert!(matches!(st.handle_key(Key::Up), AppAction::FetchServers(0)));
    st.handle_event(AppEvent::FetchSuccess { servers: vec![server("A", false), server("B", true)] });
    assert!(matches!(st.handle_key(Key::Right), AppAction::Nothing));
    assert_eq!(st.active_pane, ActivePane::Servers);
    st.handle_key(Key::Down);
    assert_eq!(st.selected_server_idx, 1);
    assert_eq!(st.servers_table_selected, Some(1));
    st.handle_key(Key::Down);
    assert_eq!(st.selected_server_idx, 1);
    st.handle_key(Key::Up);
    assert_eq!(st.selected_server_idx, 0);
    st.handle_key(Key::Left);
    assert_eq!(st.active_pane, ActivePane::Games);
    assert!(matches!(st.handle_key(Key::Other), AppAction::Nothing));
    assert!(matches!(st.handle_key(Key::Char('x')), AppAction::Nothing));
}

#[test]
fn space_toggles_the_selected_server() {
    let mut st = loaded_state();
    assert!(matches!(st.handle_key(Key::Char(' ')), AppAction::Nothing));
    st.handle_key(Key::Right);
    match st.handle_key(Key::Char(' ')) {
        AppAction::Firewall(FirewallRequest::Block { name, relays, description }) => {
            assert_eq!(name, "A");
            assert_eq!(relays.len(), 1);
            assert_eq!(description, "serverare: Block A");
        }
        other => panic!("unexpected {:?}", other),
    }
    assert!(st.loading);
    assert_eq!(st.status_message, "Updating firewall rules...");
    assert!(matches!(st.handle_key(Key::Char(' ')), AppAction::Nothing));
    st.loading = false;
    st.handle_key(Key::Down);
    match st.handle_key(Key::Char(' ')) {
        AppAction::Firewall(FirewallRequest::Unblock { name }) => assert_eq!(name, "B"),
        other => panic!("unexpected {:?}", other),
    }
}

#[test]
fn block_and_unblock_all() {
    let mut st = loaded_state();
    match st.handle_key(Key::Char('d')) {
        AppAction::Firewall(FirewallRequest::BlockAll(batch)) => {
            assert_eq!(batch.len(), 2);
            assert_eq!(batch[1].0, "B");
            assert_eq!(batch[1].2, "serverare: Block B");
        }
        other => panic!("unexpected {:?}", other),
    }
    assert_eq!(st.status_message, "Blocking all servers...");
    assert!(matches!(st.handle_key(Key::Char('e')), AppAction::Nothing));
    assert!(matches!(st.handle_key(Key::Char('r')), AppAction::Nothing));
    st.loading = false;
    match st.handle_key(Key::Char('e')) {
        AppAction::Firewall(FirewallRequest::UnblockAll(names)) => assert_eq!(names, vec!["A", "B"]),
        other => panic!("unexpected {:?}", other),
    }
    assert_eq!(st.status_message, "Unblocking all servers...");
    st.loading = false;
    assert!(matches!(st.handle_key(Key::Char('r')), AppAction::PingServers));
}

#[test]
fn blocked_flags_follow_the_blocklist() {
    let mut st = loaded_state();
    let mut db = Db::new();
    db.block_server("A", &[]);
    st.refresh_blocked(&db);
    assert!(st.servers[0].blocked);
    assert!(!st.servers[1].blocked);
}

#[test]
fn display_choices() {
    let mut s = server("A", true);
    assert_eq!(block_label(&s), "[X] Blocked");
    assert_eq!(block_tone(&s), Tone::Red);
    s.blocked = false;
    assert_eq!(block_label(&s), "[-] Allowed");
    assert_eq!(block_tone(&s), Tone::Green);
    assert_eq!(latency_tone(&s), Tone::DarkGray);
    s.status_text = "Checking...".to_string();
    assert_eq!(latency_tone(&s), Tone::Cyan);
    s.ping = Some(79);
    assert_eq!(latency_tone(&s), Tone::Green);
    s.ping = Some(80);
    assert_eq!(latency_tone(&s), Tone::Yellow);
    s.ping = Some(150);
    assert_eq!(latency_tone(&s), Tone::Red);
    let mut st = loaded_state();
    assert_eq!(servers_title(&st), " Servers (CS2) ");
    st.selected_game_idx = 5;
    assert_eq!(servers_title(&st), " Servers () ");
    assert!(pane_highlighted(&st, ActivePane::Games));
    assert!(!pane_highlighted(&st, ActivePane::Servers));
    st.loading = true;
    assert_eq!(header_tone(&st), HeaderTone::Loading);
    assert_eq!(header_text(&st), "Pinging servers...");
}
