use vstd::prelude::*;
use vstd::string::StringExecFns;

use crate::models::{IpAddress, Relay, Server};
use crate::text::{decimal, push_radix};

verus! {

/// How long the first ping of each relay may wait for its reply, in ms.
pub const PING_TIMEOUT_MS: u64 = 800;

/// How long each probe of the chosen relay may wait, in ms.
pub const PROBE_TIMEOUT_MS: u64 = 2000;

/// How many probes are sent to the chosen relay.
pub const PROBE_COUNT: usize = 4;

/// Time to live of the echo requests.
pub const TTL: u32 = 64;

/// A round trip in whole milliseconds, as `u32` (the value wraps, as a
/// cast of `Duration::as_millis` does).
pub open spec fn rtt_ms(ms: u128) -> u32 {
    ms as u32
}

/// The relay to probe and its round trip: scanning in order, a reply
/// replaces the choice when strictly faster than the best so far, which
/// starts at `u32::MAX`.
pub open spec fn best_relay(relays: Seq<Relay>, replies: Seq<Option<u128>>) -> (Option<IpAddress>, u32)
    decreases relays.len(),
{
    if relays.len() == 0 || replies.len() == 0 {
        (None, u32::MAX)
    } else {
        let prev = best_relay(relays.drop_last(), replies.drop_last());
        match replies.last() {
            Some(ms) => if rtt_ms(ms) < prev.1 {
                (Some(relays.last().ipv4), rtt_ms(ms))
            } else {
                prev
            },
            None => prev,
        }
    }
}

/// Number of probes that were answered.
pub open spec fn answered(probes: Seq<Option<u128>>) -> nat
    decreases probes.len(),
{
    if probes.len() == 0 {
        0
    } else {
        answered(probes.drop_last()) + if probes.last() is Some {
            1nat
        } else {
            0nat
        }
    }
}

/// The smallest round trip among the answered probes, `u32::MAX` if none.
pub open spec fn fastest(probes: Seq<Option<u128>>) -> u32
    decreases probes.len(),
{
    if probes.len() == 0 {
        u32::MAX
    } else {
        let prev = fastest(probes.drop_last());
        match probes.last() {
            Some(ms) => if rtt_ms(ms) < prev {
                rtt_ms(ms)
            } else {
                prev
            },
            None => prev,
        }
    }
}

/// The recorded ping is no slower than any answered probe, at most as
/// many probes are answered as were sent, and the packet loss is a whole
/// quarter of the probes in percent.
pub proof fn lemma_probe_summary(probes: Seq<Option<u128>>)
    ensures
        forall|i: int|
            0 <= i < probes.len() && (#[trigger] probes[i]) is Some ==> fastest(probes) <= rtt_ms(
                probes[i]->0,
            ),
        answered(probes) <= probes.len(),
        probes.len() == PROBE_COUNT ==> {
            let loss = ((PROBE_COUNT as int) - answered(probes)) * 100 / (PROBE_COUNT as int);
            loss == 0 || loss == 25 || loss == 50 || loss == 75 || loss == 100
        },
    decreases probes.len(),
{
    if probes.len() > 0 {
        let t = probes.drop_last();
        lemma_probe_summary(t);
        assert forall|i: int|
            0 <= i < probes.len() && (#[trigger] probes[i]) is Some implies fastest(probes) <= rtt_ms(
            probes[i]->0,
        ) by {
            if i < t.len() {
                assert(t[i] == probes[i]);
            }
        }
    }
}

/// Whether relay `i` answered with a round trip of `t` ms.
pub open spec fn answered_in(replies: Seq<Option<u128>>, i: int, t: u32) -> bool {
    &&& 0 <= i < replies.len()
    &&& replies[i] is Some
    &&& rtt_ms(replies[i]->0) == t
}

/// The relay to probe is chosen exactly when some relay answered with a
/// round trip below `u32::MAX`; the chosen relay is the first of those
/// with the smallest round trip, and no relay answered faster.
pub proof fn lemma_best_relay(relays: Seq<Relay>, replies: Seq<Option<u128>>)
    requires
        relays.len() == replies.len(),
    ensures
        forall|i: int|
            0 <= i < replies.len() && (#[trigger] replies[i]) is Some ==> best_relay(relays, replies).1
                <= rtt_ms(replies[i]->0),
        best_relay(relays, replies).0 is Some <==> exists|i: int|
            0 <= i < replies.len() && (#[trigger] replies[i]) is Some && rtt_ms(replies[i]->0)
                < u32::MAX,
        best_relay(relays, replies).0 is None ==> best_relay(relays, replies).1 == u32::MAX,
        best_relay(relays, replies).0 is Some ==> exists|i: int|
            #[trigger] answered_in(replies, i, best_relay(relays, replies).1) && relays[i].ipv4
                == best_relay(relays, replies).0->0 && forall|j: int|
                0 <= j < i && (#[trigger] replies[j]) is Some ==> rtt_ms(replies[j]->0) > best_relay(
                    relays,
                    replies,
                ).1,
    decreases relays.len(),
{
    if relays.len() > 0 {
        let rt = relays.drop_last();
        let pt = replies.drop_last();
        let b = best_relay(relays, replies);
        let pb = best_relay(rt, pt);
        let n = relays.len() - 1;
        lemma_best_relay(rt, pt);
        assert forall|i: int| 0 <= i < pt.len() implies #[trigger] pt[i] == replies[i] && rt[i] == relays[i] by {}
        assert forall|i: int|
            0 <= i < replies.len() && (#[trigger] replies[i]) is Some implies b.1 <= rtt_ms(replies[i]->0) by {
            if i < pt.len() {
                assert(pt[i] == replies[i]);
            }
        }
        if exists|i: int| 0 <= i < replies.len() && (#[trigger] replies[i]) is Some && rtt_ms(replies[i]->0) < u32::MAX {
            let i = choose|i: int| 0 <= i < replies.len() && (#[trigger] replies[i]) is Some && rtt_ms(replies[i]->0) < u32::MAX;
            if i < pt.len() {
                assert(pt[i] is Some && rtt_ms(pt[i]->0) < u32::MAX);
            }
        }
        if b.0 is Some {
            assert(replies[n] is Some ==> rtt_ms(replies[n]->0) >= b.1);
            if b != pb {
                assert(answered_in(replies, n, b.1));
                assert forall|j: int| 0 <= j < n && (#[trigger] replies[j]) is Some implies rtt_ms(replies[j]->0) > b.1 by {
                    assert(pt[j] == replies[j]);
                }
            } else {
                let i = choose|i: int|
                    #[trigger] answered_in(pt, i, pb.1) && rt[i].ipv4 == pb.0->0 && forall|j: int|
                        0 <= j < i && (#[trigger] pt[j]) is Some ==> rtt_ms(pt[j]->0) > pb.1;
                assert(answered_in(replies, i, b.1));
                assert forall|j: int| 0 <= j < i && (#[trigger] replies[j]) is Some implies rtt_ms(replies[j]->0) > b.1 by {
                    assert(pt[j] == replies[j]);
                }
            }
        }
    }
}

/// Picks the relay to probe from the replies to one ping of each relay
/// (`None` where the ping failed).
pub fn select_relay(relays: &[Relay], replies: &[Option<u128>]) -> (r: Option<IpAddress>)
    requires
        relays.len() == replies.len(),
    ensures
        r == best_relay(relays@, replies@).0,
        r is Some <==> exists|i: int|
            0 <= i < replies@.len() && (#[trigger] replies@[i]) is Some && rtt_ms(replies@[i]->0)
                < u32::MAX,
        r matches Some(ip) ==> exists|i: int|
            0 <= i < replies@.len() && replies@[i] is Some && relays@[i].ipv4 == ip && forall|j: int|
                0 <= j < replies@.len() && (#[trigger] replies@[j]) is Some ==> rtt_ms(replies@[i]->0)
                    <= rtt_ms(replies@[j]->0),
{
    proof {
        lemma_best_relay(relays@, replies@);
    }
    let mut best: Option<IpAddress> = None;
    let mut best_rtt: u32 = u32::MAX;
    let mut i: usize = 0;
    while i < relays.len()
        invariant
            i <= relays.len(),
            relays.len() == replies.len(),
            (best, best_rtt) == best_relay(relays@.take(i as int), replies@.take(i as int)),
        decreases relays.len() - i,
    {
        assert(relays@.take(i + 1).drop_last() =~= relays@.take(i as int));
        assert(replies@.take(i + 1).drop_last() =~= replies@.take(i as int));
        match replies[i] {
            Some(ms) => {
                let rtt = ms as u32;
                if rtt < best_rtt {
                    best_rtt = rtt;
                    best = Some(relays[i].ipv4);
                }
            },
            None => {},
        }
        i = i + 1;
    }
    assert(relays@.take(i as int) =~= relays@);
    assert(replies@.take(i as int) =~= replies@);
    best
}

/// Marks a server as unreachable.
pub fn handle_offline(server: &mut Server)
    ensures
        final(server).ping is None,
        final(server).packet_loss == Some(100u32),
        final(server).status_text@ == "Offline"@,
        final(server).id == old(server).id,
        final(server).description == old(server).description,
        final(server).relays == old(server).relays,
        final(server).blocked == old(server).blocked,
{
    server.ping = None;
    server.packet_loss = Some(100);
    server.status_text = String::from_str("Offline");
}

/// Records the outcome of pinging a server: with no relay answering, or
/// none of the probes of the chosen relay answered, the server is offline;
/// otherwise its ping is the fastest probe, its packet loss the share of
/// unanswered probes in percent, and its status that ping in `ms`.
pub fn record_probes(server: &mut Server, chosen: Option<IpAddress>, probes: &[Option<u128>])
    requires
        probes.len() == PROBE_COUNT,
    ensures
        final(server).id == old(server).id,
        final(server).description == old(server).description,
        final(server).relays == old(server).relays,
        final(server).blocked == old(server).blocked,
        (chosen is None || answered(probes@) == 0) ==> {
            &&& final(server).ping is None
            &&& final(server).packet_loss == Some(100u32)
            &&& final(server).status_text@ == "Offline"@
        },
        (chosen is Some && answered(probes@) > 0) ==> {
            &&& final(server).ping == Some(fastest(probes@))
            &&& final(server).packet_loss == Some((((PROBE_COUNT as int) - answered(probes@)) * 100 / (PROBE_COUNT as int)) as u32)
            &&& final(server).status_text@ == decimal(fastest(probes@) as nat) + "ms"@
        },
{
    if chosen.is_none() {
        handle_offline(server);
        return;
    }
    let mut success_count: u32 = 0;
    let mut final_best_rtt: u32 = u32::MAX;
    let mut i: usize = 0;
    while i < probes.len()
        invariant
            i <= probes.len(),
            probes.len() == PROBE_COUNT,
            success_count as nat == answered(probes@.take(i as int)),
            success_count <= i,
            final_best_rtt == fastest(probes@.take(i as int)),
        decreases probes.len() - i,
    {
        assert(probes@.take(i + 1).drop_last() =~= probes@.take(i as int));
        match probes[i] {
            Some(ms) => {
                success_count = success_count + 1;
                let rtt = ms as u32;
                if rtt < final_best_rtt {
                    final_best_rtt = rtt;
                }
            },
            None => {},
        }
        i = i + 1;
    }
    assert(probes@.take(i as int) =~= probes@);
    if success_count > 0 {
        server.ping = Some(final_best_rtt);
        server.packet_loss = Some(((PROBE_COUNT - success_count as usize) * 100 / PROBE_COUNT) as u32);
        let mut text = String::new();
        push_radix(&mut text, final_best_rtt as u64, 10);
        text.append("ms");
        server.status_text = text;
    } else {
        handle_offline(server);
    }
}

} // verus!
