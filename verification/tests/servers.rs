use serverare::cache::{ServerCache, CACHE_TTL_NANOS};
use serverare::fetch::{check_status, servers_from_config, FetchError};
use serverare::models::{keyword_filter, GameDefinition, IpAddress, PopDefinition, Relay, SdrConfig, Server};

fn game(mode: &str, keywords: &[&str], clusters: &[&str]) -> GameDefinition {
    GameDefinition {
        game_mode: "Counter Strike 2".to_string(),
        id: "cs2".to_string(),
        display_name: "CS2".to_string(),
        app_id: 730,
        keyword_filter_mode: mode.to_string(),
        keywords: keywords.iter().map(|s| s.to_string()).collect(),
        cluster_keywords: clusters.iter().map(|s| s.to_string()).collect(),
    }
}

fn relay(last: u8) -> Relay {
    Relay { ipv4: IpAddress::V4([10, 0, 0, last]) }
}

fn server(desc: &str) -> Server {
    Server {
        id: "x".to_string(),
        description: desc.to_string(),
        relays: vec![],
        ping: None,
        status_text: String::new(),
        blocked: false,
        packet_loss: None,
    }
}

fn pop(id: &str, desc: &str, relays: Option<Vec<Relay>>) -> (String, PopDefinition) {
    (id.to_string(), PopDefinition { desc: desc.to_string(), relays })
}

#[test]
fn exclude_mode_drops_keyword_matches_in_any_case() {
    let def = game("exclude", &["China"], &[]);
    assert!(!server("Shanghai, china mainland").is_accepted(&def));
    assert!(!server("CHINA Telecom").is_accepted(&def));
    assert!(server("Stockholm").is_accepted(&def));
}

#[test]
fn include_mode_keeps_only_keyword_matches() {
    let def = game("Include", &["china", "Tencent"], &[]);
    assert!(server("Guangzhou (China)").is_accepted(&def));
    assert!(server("TENCENT Shanghai").is_accepted(&def));
    assert!(!server("Frankfurt").is_accepted(&def));
    let none = game("include", &[], &[]);
    assert!(!server("Frankfurt").is_accepted(&none));
}

#[test]
fn filter_lowers_beyond_ascii() {
    let def = game("INCLUDE", &["ÖSTERREICH"], &[]);
    assert!(server("Wien, Österreich").is_accepted(&def));
    assert!(!server("Wien").is_accepted(&def));
}

#[test]
fn keyword_filter_on_lowered_texts() {
    let kw = vec!["china".to_string()];
    assert!(!keyword_filter("exclude", "beijing china", &kw));
    assert!(keyword_filter("exclude", "beijing CHINA", &kw));
    assert!(keyword_filter("include", "beijing china", &kw));
    assert!(keyword_filter("Include", "beijing", &kw));
    assert!(keyword_filter("none", "x", &kw));
}

#[test]
fn other_modes_keep_everything() {
    let def = game("none", &["China"], &[]);
    assert!(server("China").is_accepted(&def));
    let def = game("", &["China"], &[]);
    assert!(server("Anything").is_accepted(&def));
}

#[test]
fn servers_are_grouped_filtered_and_sorted() {
    let def = game("exclude", &["China"], &["Hong Kong", "Sweden"]);
    let config = SdrConfig {
        pops: vec![
            pop("sto", "Stockholm - Sweden", Some(vec![relay(1), relay(2)])),
            pop("fra", "Frankfurt", Some(vec![relay(3)])),
            pop("hkg", "Hong Kong", Some(vec![relay(4)])),
            pop("sto2", "Sweden (Kista)", Some(vec![relay(5)])),
            pop("pek", "Beijing (China)", Some(vec![relay(6)])),
            pop("ams", "Amsterdam", Some(vec![])),
            pop("lhr", "London", None),
            pop("atl", "Atlanta", Some(vec![relay(7)])),
        ],
    };
    let servers = servers_from_config(&def, &config);
    let descs: Vec<&str> = servers.iter().map(|s| s.description.as_str()).collect();
    assert_eq!(descs, vec!["Atlanta", "Frankfurt", "Hong Kong", "Sweden"]);
    let ids: Vec<&str> = servers.iter().map(|s| s.id.as_str()).collect();
    assert_eq!(ids, vec!["atl", "fra", "cluster", "cluster"]);
    assert_eq!(servers[3].relays, vec![relay(1), relay(2), relay(5)]);
    assert_eq!(servers[2].relays, vec![relay(4)]);
    for s in &servers {
        assert_eq!(s.ping, None);
        assert_eq!(s.packet_loss, None);
        assert_eq!(s.status_text, "");
        assert!(!s.blocked);
    }
}

#[test]
fn first_matching_cluster_keyword_wins() {
    let def = game("none", &[], &["Kong", "Hong"]);
    let config = SdrConfig { pops: vec![pop("hkg", "Hong Kong", Some(vec![relay(1)]))] };
    let servers = servers_from_config(&def, &config);
    assert_eq!(servers.len(), 1);
    assert_eq!(servers[0].description, "Kong");
}

#[test]
fn clusters_are_filtered_too() {
    let def = game("exclude", &["china"], &["China", "India"]);
    let config = SdrConfig {
        pops: vec![
            pop("a", "China North", Some(vec![relay(1)])),
            pop("b", "India West", Some(vec![relay(2)])),
        ],
    };
    let servers = servers_from_config(&def, &config);
    assert_eq!(servers.len(), 1);
    assert_eq!(servers[0].description, "India");
}

#[test]
fn equal_descriptions_keep_their_order() {
    let def = game("none", &[], &[]);
    let config = SdrConfig {
        pops: vec![
            pop("b2", "Same", Some(vec![relay(2)])),
            pop("a", "Alpha", Some(vec![relay(1)])),
            pop("b1", "Same", Some(vec![relay(3)])),
        ],
    };
    let servers = servers_from_config(&def, &config);
    let ids: Vec<&str> = servers.iter().map(|s| s.id.as_str()).collect();
    assert_eq!(ids, vec!["a", "b2", "b1"]);
}

#[test]
fn empty_configuration_gives_no_servers() {
    let def = game("none", &[], &["Sweden"]);
    assert!(servers_from_config(&def, &SdrConfig { pops: vec![] }).is_empty());
}

#[test]
fn only_status_200_is_accepted() {
    assert_eq!(check_status(200), Ok(()));
    assert_eq!(check_status(404), Err(FetchError::Status(404)));
    assert_eq!(check_status(500), Err(FetchError::Status(500)));
}

#[test]
fn cache_lives_five_minutes() {
    assert_eq!(CACHE_TTL_NANOS, 300_000_000_000);
    let mut cache = ServerCache::new();
    assert_eq!(cache.get(730, 0), None);
    cache.put(730, 1_000, vec![server("Sweden")]);
    assert_eq!(cache.get(730, 1_000), Some(vec![server("Sweden")]));
    assert_eq!(cache.get(730, 1_000 + CACHE_TTL_NANOS - 1), Some(vec![server("Sweden")]));
    assert_eq!(cache.get(730, 1_000 + CACHE_TTL_NANOS), None);
    assert_eq!(cache.get(730, 500), Some(vec![server("Sweden")]));
    assert_eq!(cache.get(1422450, 1_000), None);
    cache.put(730, 2 * CACHE_TTL_NANOS, vec![]);
    assert_eq!(cache.get(730, 2 * CACHE_TTL_NANOS + 5), Some(vec![]));
    cache.put(1422450, 7, vec![server("Atlanta")]);
    assert_eq!(cache.get(730, 2 * CACHE_TTL_NANOS + 5), Some(vec![]));
    assert_eq!(cache.get(1422450, 8), Some(vec![server("Atlanta")]));
}
