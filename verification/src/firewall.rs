use vstd::prelude::*;
use vstd::string::StringExecFns;

use crate::address::{format_ip, ip_list_text};
use crate::db::relay_ips;
use crate::models::{copy_relays, Relay};
use crate::text::{concat, contains_seq, is_whitespace, push_char, str_contains, strings, strip_white_space, texts};

verus! {

/// Every firewall rule this program makes has a name that starts so.
pub const RULE_PREFIX: &'static str = "serverare_";

/// Why a firewall change failed.
#[derive(Clone, Debug, PartialEq, Eq)]
pub enum FirewallError {
    /// A firewall command failed; the text says which and what it printed.
    Command(String),
    /// The blocklist file could not be read or written.
    Io(String),
}

/// What to do next in a run of firewall commands that must all succeed
/// before the blocklist is changed.
#[derive(Clone, Debug, PartialEq, Eq)]
pub enum BatchStep {
    /// Run the command with this index.
    Run(usize),
    /// Stop with this error; the blocklist stays as it is.
    Fail(FirewallError),
    /// Every command succeeded: change the blocklist.
    Commit,
}

/// The next step after `done` of `total` commands have run, `last` being
/// the outcome of the last one run (none before the first): a failed
/// command stops the run with its error; otherwise the next command runs,
/// and once all have run the blocklist change is committed.
pub fn next_batch_step(total: usize, done: usize, last: Option<Result<(), FirewallError>>) -> (r: BatchStep)
    requires
        done <= total,
    ensures
        r == match last {
            Some(Err(e)) => BatchStep::Fail(e),
            _ => if done < total {
                BatchStep::Run(done)
            } else {
                BatchStep::Commit
            },
        },
{
    match last {
        Some(Err(e)) => BatchStep::Fail(e),
        _ => if done < total {
            BatchStep::Run(done)
        } else {
            BatchStep::Commit
        },
    }
}

/// The blocklist updates of a batch of servers to block: each server's
/// name with its relays, in order.
pub fn block_updates(servers: &[(String, Vec<Relay>, String)]) -> (r: Vec<(String, Vec<Relay>)>)
    ensures
        r@.len() == servers@.len(),
        forall|k: int|
            0 <= k < servers@.len() ==> (#[trigger] r@[k]).0@ == servers@[k].0@ && r@[k].1@
                == servers@[k].1@,
{
    let mut r: Vec<(String, Vec<Relay>)> = Vec::new();
    let mut i: usize = 0;
    while i < servers.len()
        invariant
            i <= servers.len(),
            r@.len() == i,
            forall|k: int|
                0 <= k < i ==> (#[trigger] r@[k]).0@ == servers@[k].0@ && r@[k].1@ == servers@[k].1@,
        decreases servers.len() - i,
    {
        r.push((servers[i].0.clone(), copy_relays(&servers[i].1)));
        i = i + 1;
    }
    r
}

/// The name of the firewall rule for a server: the prefix, then the
/// server's name without its white space.
pub open spec fn rule_name(name: Seq<char>) -> Seq<char> {
    RULE_PREFIX@ + strip_white_space(name)
}

/// Removing white space twice removes no more than once.
proof fn lemma_strip_idempotent(s: Seq<char>)
    ensures
        strip_white_space(strip_white_space(s)) == strip_white_space(s),
    decreases s.len(),
{
    if s.len() > 0 {
        let t = s.drop_last();
        let p = |c: char| !crate::text::is_white_space(c);
        lemma_strip_idempotent(t);
        assert(s =~= t.push(s.last()));
        t.lemma_filter_push(s.last(), p);
        t.filter(p).lemma_filter_push(s.last(), p);
    }
}

/// A rule name starts with the rule prefix and holds no white space after
/// it, and names that differ only in white space share their rule.
pub proof fn lemma_rule_name_shape(name: Seq<char>)
    ensures
        rule_name(name).subrange(0, RULE_PREFIX@.len() as int) == RULE_PREFIX@,
        forall|i: int|
            RULE_PREFIX@.len() <= i < rule_name(name).len() ==> !crate::text::is_white_space(
                #[trigger] rule_name(name)[i],
            ),
        rule_name(strip_white_space(name)) == rule_name(name),
{
    let p = |c: char| !crate::text::is_white_space(c);
    let f = name.filter(p);
    assert(rule_name(name).subrange(0, RULE_PREFIX@.len() as int) =~= RULE_PREFIX@);
    assert forall|i: int| RULE_PREFIX@.len() <= i < rule_name(name).len() implies !crate::text::is_white_space(
        #[trigger] rule_name(name)[i],
    ) by {
        assert(rule_name(name)[i] == f[i - RULE_PREFIX@.len()]);
        name.lemma_filter_pred(p, i - RULE_PREFIX@.len());
    }
    lemma_strip_idempotent(name);
}

/// The name of the firewall rule for a server.
pub fn get_rule_name(name: &str) -> (r: String)
    ensures
        r@ == rule_name(name@),
{
    let mut s = String::from_str(RULE_PREFIX);
    let ghost start = s@;
    let mut i: usize = 0;
    let cs = crate::text::chars_of(name);
    while i < cs.len()
        invariant
            i <= cs.len(),
            cs@ == name@,
            s@ == start + strip_white_space(cs@.take(i as int)),
        decreases cs.len() - i,
    {
        let c = cs[i];
        proof {
            assert(cs@.take(i + 1) =~= cs@.take(i as int).push(c));
            cs@.take(i as int).lemma_filter_push(c, |c: char| !crate::text::is_white_space(c));
        }
        if !is_whitespace(c) {
            push_char(&mut s, c);
        }
        i = i + 1;
    }
    assert(cs@.take(i as int) =~= name@);
    s
}

/// The relay addresses as a comma-separated list, as both firewalls take them.
pub fn ip_list(ips: &[Relay]) -> (r: String)
    ensures
        r@ == ip_list_text(relay_ips(ips@)),
{
    let mut s = String::new();
    let mut i: usize = 0;
    while i < ips.len()
        invariant
            i <= ips.len(),
            s@ == ip_list_text(relay_ips(ips@).take(i as int)),
        decreases ips.len() - i,
    {
        let ghost before = relay_ips(ips@).take(i as int);
        let ghost after = relay_ips(ips@).take(i + 1);
        assert(after.drop_last() =~= before);
        if i > 0 {
            push_char(&mut s, ',');
        }
        let t = format_ip(&ips[i].ipv4);
        s.append(t.as_str());
        proof {
            if i == 0 {
                assert(before.len() == 0);
                assert(s@ =~= ip_list_text(after));
            } else {
                assert(s@ =~= ip_list_text(after));
            }
        }
        i = i + 1;
    }
    assert(relay_ips(ips@).take(i as int) =~= relay_ips(ips@));
    s
}

/// The `iptables` arguments that drop all input from the relays.
pub open spec fn iptables_add_args(ip_list: Seq<char>) -> Seq<Seq<char>> {
    seq!["-A"@, "INPUT"@, "-s"@, ip_list, "-j"@, "DROP"@]
}

/// The `iptables` arguments that delete the rule dropping input from one address.
pub open spec fn iptables_delete_args(ip: Seq<char>) -> Seq<Seq<char>> {
    seq!["-D"@, "INPUT"@, "-s"@, ip, "-j"@, "DROP"@]
}

/// The firewall of Linux, driven with `iptables`.
pub struct LinuxFirewallManager;

impl LinuxFirewallManager {
    /// Arguments of the `iptables` call that blocks a server's relays.
    pub fn block_args(ips: &[Relay]) -> (r: Vec<String>)
        ensures
            texts(r@) == iptables_add_args(ip_list_text(relay_ips(ips@))),
    {
        let list = ip_list(ips);
        let r = strings(&["-A", "INPUT", "-s", list.as_str(), "-j", "DROP"]);
        assert(texts(r@) =~= iptables_add_args(list@));
        r
    }

    /// Arguments of the `iptables` call that removes the rule for one address.
    pub fn delete_args(ip: &str) -> (r: Vec<String>)
        ensures
            texts(r@) == iptables_delete_args(ip@),
    {
        let r = strings(&["-D", "INPUT", "-s", ip, "-j", "DROP"]);
        assert(texts(r@) =~= iptables_delete_args(ip@));
        r
    }

    /// The outcome of adding the rule for a server: failure when `iptables`
    /// failed, with a text naming the server, its addresses and what the
    /// command printed.
    pub fn add_result(success: bool, name: &str, ip_list: &str, stdout: &str, stderr: &str) -> (r: Result<(), FirewallError>)
        ensures
            success ==> r is Ok,
            !success ==> (r matches Err(FirewallError::Command(m)) && m@ == "iptables -A failed for "@
                + name@ + " (ips: "@ + ip_list@ + ", stdout: "@ + stdout@ + ", stderr: "@ + stderr@
                + ")"@),
    {
        if !success {
            let m = concat(&["iptables -A failed for ", name, " (ips: ", ip_list, ", stdout: ", stdout, ", stderr: ", stderr, ")"]);
            proof {
                reveal_with_fuel(Seq::fold_left, 10);
            }
            assert(m@ =~= "iptables -A failed for "@ + name@ + " (ips: "@ + ip_list@ + ", stdout: "@ + stdout@
                + ", stderr: "@ + stderr@ + ")"@);
            return Err(FirewallError::Command(m));
        }
        Ok(())
    }

    /// The outcome of deleting the rule for one address: failure when
    /// `iptables` failed, with a text naming the address and what the
    /// command printed.
    pub fn delete_result(success: bool, ip: &str, stdout: &str, stderr: &str) -> (r: Result<(), FirewallError>)
        ensures
            success ==> r is Ok,
            !success ==> (r matches Err(FirewallError::Command(m)) && m@ == "iptables -D failed for "@
                + ip@ + " (stdout: "@ + stdout@ + ", stderr: "@ + stderr@ + ")"@),
    {
        if !success {
            let m = concat(&["iptables -D failed for ", ip, " (stdout: ", stdout, ", stderr: ", stderr, ")"]);
            proof {
                reveal_with_fuel(Seq::fold_left, 8);
            }
            assert(m@ =~= "iptables -D failed for "@ + ip@ + " (stdout: "@ + stdout@ + ", stderr: "@ + stderr@
                + ")"@);
            return Err(FirewallError::Command(m));
        }
        Ok(())
    }
}

/// The `netsh` arguments that add a rule blocking outgoing traffic to the
/// relays.
pub open spec fn netsh_add_args(rule: Seq<char>, ip_list: Seq<char>, description: Seq<char>) -> Seq<Seq<char>> {
    seq![
        "advfirewall"@,
        "firewall"@,
        "add"@,
        "rule"@,
        "name="@ + rule,
        "dir=out"@,
        "action=block"@,
        "remoteip="@ + ip_list,
        "enable=yes"@,
        "description="@ + description,
    ]
}

/// The `netsh` arguments that delete a rule by name.
pub open spec fn netsh_delete_args(rule: Seq<char>) -> Seq<Seq<char>> {
    seq!["advfirewall"@, "firewall"@, "delete"@, "rule"@, "name="@ + rule]
}

/// Whether a command's output says that it lacked the rights to act.
pub open spec fn mentions_permission(t: Seq<char>) -> bool {
    ||| contains_seq(t, "elevation"@)
    ||| contains_seq(t, "administrator"@)
    ||| contains_seq(t, "privilege"@)
    ||| contains_seq(t, "Access is denied"@)
}

/// The firewall of Windows, driven with `netsh advfirewall`.
pub struct WindowsFirewallManager;

impl WindowsFirewallManager {
    /// Arguments of the `netsh` call that adds the blocking rule of a server.
    pub fn add_rule_args(name: &str, ips: &[Relay], description: &str) -> (r: Vec<String>)
        ensures
            texts(r@) == netsh_add_args(rule_name(name@), ip_list_text(relay_ips(ips@)), description@),
    {
        let rule = get_rule_name(name);
        let list = ip_list(ips);
        let a = concat(&["name=", rule.as_str()]);
        let b = concat(&["remoteip=", list.as_str()]);
        let c = concat(&["description=", description]);
        proof {
            reveal_with_fuel(Seq::fold_left, 3);
        }
        assert(a@ =~= "name="@ + rule@);
        assert(b@ =~= "remoteip="@ + list@);
        assert(c@ =~= "description="@ + description@);
        let r = strings(
            &[
                "advfirewall",
                "firewall",
                "add",
                "rule",
                a.as_str(),
                "dir=out",
                "action=block",
                b.as_str(),
                "enable=yes",
                c.as_str(),
            ],
        );
        assert(texts(r@) =~= netsh_add_args(rule@, list@, description@));
        r
    }

    /// Arguments of the `netsh` call that deletes the rule of a server.
    pub fn delete_rule_args(name: &str) -> (r: Vec<String>)
        ensures
            texts(r@) == netsh_delete_args(rule_name(name@)),
    {
        let rule = get_rule_name(name);
        let a = concat(&["name=", rule.as_str()]);
        proof {
            reveal_with_fuel(Seq::fold_left, 3);
        }
        assert(a@ =~= "name="@ + rule@);
        let r = strings(&["advfirewall", "firewall", "delete", "rule", a.as_str()]);
        assert(texts(r@) =~= netsh_delete_args(rule@));
        r
    }

    /// Judges a finished `netsh` call: it failed only when it exited with an
    /// error and its output speaks of missing rights; other errors are let
    /// pass.
    pub fn netsh_ok(success: bool, stdout: &str, stderr: &str, rule_name: &str, op: &str) -> (r: Result<(), FirewallError>)
        ensures
            r is Err <==> !success && (mentions_permission(stdout@) || mentions_permission(stderr@)),
            r matches Err(e) ==> (e matches FirewallError::Command(m) && m@ == "netsh "@ + op@ + " '"@
                + rule_name@ + "' failed (stdout: "@ + stdout@ + ", stderr: "@ + stderr@ + ")"@),
    {
        if !success {
            let is_permission_error = str_contains(stdout, "elevation") || str_contains(stderr, "elevation")
                || str_contains(stdout, "administrator") || str_contains(stderr, "administrator")
                || str_contains(stdout, "privilege") || str_contains(stderr, "privilege")
                || str_contains(stdout, "Access is denied") || str_contains(stderr, "Access is denied");
            if is_permission_error {
                let m = concat(
                    &["netsh ", op, " '", rule_name, "' failed (stdout: ", stdout, ", stderr: ", stderr, ")"],
                );
                proof {
                    reveal_with_fuel(Seq::fold_left, 10);
                }
                assert(m@ =~= "netsh "@ + op@ + " '"@ + rule_name@ + "' failed (stdout: "@ + stdout@
                    + ", stderr: "@ + stderr@ + ")"@);
                return Err(FirewallError::Command(m));
            }
        }
        Ok(())
    }

    /// The outcome of adding the blocking rule of a server: failure when
    /// `netsh` failed, with a text naming the rule, the addresses and what
    /// the command printed.
    pub fn add_result(success: bool, rule_name: &str, ip_list: &str, stdout: &str, stderr: &str) -> (r: Result<(), FirewallError>)
        ensures
            success ==> r is Ok,
            !success ==> (r matches Err(FirewallError::Command(m)) && m@ == "netsh add rule '"@
                + rule_name@ + "' failed (ips: "@ + ip_list@ + ", stdout: "@ + stdout@ + ", stderr: "@
                + stderr@ + ")"@),
    {
        if !success {
            let m = concat(
                &["netsh add rule '", rule_name, "' failed (ips: ", ip_list, ", stdout: ", stdout, ", stderr: ", stderr, ")"],
            );
            proof {
                reveal_with_fuel(Seq::fold_left, 10);
            }
            assert(m@ =~= "netsh add rule '"@ + rule_name@ + "' failed (ips: "@ + ip_list@ + ", stdout: "@
                + stdout@ + ", stderr: "@ + stderr@ + ")"@);
            return Err(FirewallError::Command(m));
        }
        Ok(())
    }
}

} // verus!
