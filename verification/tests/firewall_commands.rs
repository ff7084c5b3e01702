use serverare::firewall::{block_updates, next_batch_step, BatchStep, FirewallError, LinuxFirewallManager, WindowsFirewallManager, RULE_PREFIX};
use serverare::models::{IpAddress, Relay};

fn relays() -> Vec<Relay> {
    vec![Relay { ipv4: IpAddress::V4([1, 2, 3, 4]) }, Relay { ipv4: IpAddress::V4([5, 6, 7, 8]) }]
}

#[test]
fn iptables_arguments() {
    assert_eq!(LinuxFirewallManager::block_args(&relays()), vec!["-A", "INPUT", "-s", "1.2.3.4,5.6.7.8", "-j", "DROP"]);
    assert_eq!(LinuxFirewallManager::delete_args("1.2.3.4"), vec!["-D", "INPUT", "-s", "1.2.3.4", "-j", "DROP"]);
}

#[test]
fn iptables_failures_are_reported() {
    assert_eq!(LinuxFirewallManager::add_result(true, "Sweden", "1.2.3.4", "", ""), Ok(()));
    assert_eq!(
        LinuxFirewallManager::add_result(false, "Sweden", "1.2.3.4", "out", "err"),
        Err(FirewallError::Command(
            "iptables -A failed for Sweden (ips: 1.2.3.4, stdout: out, stderr: err)".to_string()
        ))
    );
    assert_eq!(LinuxFirewallManager::delete_result(true, "1.2.3.4", "", ""), Ok(()));
    assert_eq!(
        LinuxFirewallManager::delete_result(false, "1.2.3.4", "", "no rule"),
        Err(FirewallError::Command("iptables -D failed for 1.2.3.4 (stdout: , stderr: no rule)".to_string()))
    );
}

#[test]
fn netsh_arguments() {
    assert_eq!(RULE_PREFIX, "serverare_");
    assert_eq!(
        WindowsFirewallManager::add_rule_args("Hong Kong", &relays(), "serverare: Block Hong Kong"),
        vec![
            "advfirewall",
            "firewall",
            "add",
            "rule",
            "name=serverare_HongKong",
            "dir=out",
            "action=block",
            "remoteip=1.2.3.4,5.6.7.8",
            "enable=yes",
            "description=serverare: Block Hong Kong",
        ]
    );
    assert_eq!(
        WindowsFirewallManager::delete_rule_args("Hong Kong"),
        vec!["advfirewall", "firewall", "delete", "rule", "name=serverare_HongKong"]
    );
}

#[test]
fn netsh_failures_count_only_without_rights() {
    assert_eq!(WindowsFirewallManager::netsh_ok(true, "The requested operation requires elevation", "", "r", "delete rule"), Ok(()));
    assert_eq!(WindowsFirewallManager::netsh_ok(false, "No rules match the specified criteria.", "", "r", "delete rule"), Ok(()));
    assert_eq!(
        WindowsFirewallManager::netsh_ok(false, "The requested operation requires elevation (Run as administrator).", "", "serverare_X", "delete rule"),
        Err(FirewallError::Command(
            "netsh delete rule 'serverare_X' failed (stdout: The requested operation requires elevation (Run as administrator)., stderr: )".to_string()
        ))
    );
    assert!(WindowsFirewallManager::netsh_ok(false, "", "Access is denied.", "r", "op").is_err());
    assert!(WindowsFirewallManager::netsh_ok(false, "", "missing privilege", "r", "op").is_err());
    assert!(WindowsFirewallManager::netsh_ok(false, "access is denied", "", "r", "op").is_ok());
}

#[test]
fn netsh_add_failures_are_reported() {
    assert_eq!(WindowsFirewallManager::add_result(true, "r", "1.2.3.4", "", ""), Ok(()));
    assert_eq!(
        WindowsFirewallManager::add_result(false, "serverare_X", "1.2.3.4", "o", "e"),
        Err(FirewallError::Command("netsh add rule 'serverare_X' failed (ips: 1.2.3.4, stdout: o, stderr: e)".to_string()))
    );
}

#[test]
fn batches_stop_at_the_first_failure() {
    assert_eq!(next_batch_step(2, 0, None), BatchStep::Run(0));
    assert_eq!(next_batch_step(2, 1, Some(Ok(()))), BatchStep::Run(1));
    assert_eq!(next_batch_step(2, 2, Some(Ok(()))), BatchStep::Commit);
    assert_eq!(next_batch_step(0, 0, None), BatchStep::Commit);
    let e = FirewallError::Command("x".to_string());
    assert_eq!(next_batch_step(2, 1, Some(Err(e.clone()))), BatchStep::Fail(e.clone()));
    assert_eq!(next_batch_step(2, 2, Some(Err(e.clone()))), BatchStep::Fail(e));
}

#[test]
fn batch_updates_keep_names_and_relays() {
    let servers = vec![
        ("A".to_string(), relays(), "serverare: Block A".to_string()),
        ("B".to_string(), vec![], "serverare: Block B".to_string()),
    ];
    assert_eq!(block_updates(&servers), vec![("A".to_string(), relays()), ("B".to_string(), vec![])]);
    assert!(block_updates(&[]).is_empty());
}
