use vstd::prelude::*;
use vstd::string::StringExecFns;

use crate::models::{
    accepts, copy_relays, GameDefinition, PopDefinition, Relay, SdrConfig, Server, ServerView, server_views,
};
use crate::order::{lemma_sort_by_description, sort_by_description, sort_servers, sorted_by_description};
use crate::text::{contains_seq, str_contains};

verus! {

/// Why fetching the server list failed.
#[derive(Clone, Debug, PartialEq, Eq)]
pub enum FetchError {
    /// The configuration service answered with a status other than 200.
    Status(u16),
    /// Reading or writing a local file failed.
    Io(String),
    /// A document could not be parsed.
    Parse(String),
    /// The request could not be made or its answer not read.
    Http(String),
}

/// The relays of a point of presence, when it lists at least one.
pub open spec fn usable_relays(p: PopDefinition) -> Option<Seq<Relay>> {
    match p.relays {
        Some(v) => if v@.len() > 0 {
            Some(v@)
        } else {
            None
        },
        None => None,
    }
}

/// Index of the first keyword, from `i` on, that occurs in `desc`.
pub open spec fn first_keyword_from(keywords: Seq<String>, desc: Seq<char>, i: int) -> Option<int>
    decreases keywords.len() - i,
{
    if i < 0 || i >= keywords.len() {
        None
    } else if contains_seq(desc, keywords[i]@) {
        Some(i)
    } else {
        first_keyword_from(keywords, desc, i + 1)
    }
}

/// Index of the first cluster keyword that occurs (case matters) in `desc`.
pub open spec fn first_keyword(keywords: Seq<String>, desc: Seq<char>) -> Option<int> {
    first_keyword_from(keywords, desc, 0)
}

/// Clusters as names with the relays gathered under each.
pub open spec fn cluster_views(c: Seq<(String, Vec<Relay>)>) -> Seq<(Seq<char>, Seq<Relay>)> {
    c.map_values(|e: (String, Vec<Relay>)| (e.0@, e.1@))
}

/// Index of the cluster named `name`, searching from `j` on.
pub open spec fn cluster_index_from(cs: Seq<(Seq<char>, Seq<Relay>)>, name: Seq<char>, j: int) -> Option<
    int,
>
    decreases cs.len() - j,
{
    if j < 0 || j >= cs.len() {
        None
    } else if cs[j].0 == name {
        Some(j)
    } else {
        cluster_index_from(cs, name, j + 1)
    }
}

/// Adds relays to the cluster `name`, creating it at the end if it is new.
pub open spec fn add_to_cluster(cs: Seq<(Seq<char>, Seq<Relay>)>, name: Seq<char>, rs: Seq<Relay>) -> Seq<
    (Seq<char>, Seq<Relay>),
> {
    match cluster_index_from(cs, name, 0) {
        Some(j) => cs.update(j, (name, cs[j].1 + rs)),
        None => cs.push((name, rs)),
    }
}

/// The clusters that the points of presence form, in order of first use:
/// each point of presence with relays whose description mentions a cluster
/// keyword gives its relays to the first such keyword's cluster.
pub open spec fn clusters_of(definition: GameDefinition, pops: Seq<(String, PopDefinition)>) -> Seq<
    (Seq<char>, Seq<Relay>),
>
    decreases pops.len(),
{
    if pops.len() == 0 {
        Seq::empty()
    } else {
        let prev = clusters_of(definition, pops.drop_last());
        let p = pops.last().1;
        match usable_relays(p) {
            Some(rs) => match first_keyword(definition.cluster_keywords@, p.desc@) {
                Some(k) => add_to_cluster(prev, definition.cluster_keywords@[k]@, rs),
                None => prev,
            },
            None => prev,
        }
    }
}

/// A server as first listed: not yet pinged, not blocked.
pub open spec fn fresh_server(id: Seq<char>, description: Seq<char>, relays: Seq<Relay>) -> ServerView {
    ServerView {
        id,
        description,
        relays,
        ping: None,
        status_text: Seq::empty(),
        blocked: false,
        packet_loss: None,
    }
}

/// The points of presence with relays that join no cluster and pass the
/// keyword filter, each as a server of its own, in order.
pub open spec fn standalone_servers(definition: GameDefinition, pops: Seq<(String, PopDefinition)>) -> Seq<
    ServerView,
>
    decreases pops.len(),
{
    if pops.len() == 0 {
        Seq::empty()
    } else {
        let prev = standalone_servers(definition, pops.drop_last());
        let (id, p) = pops.last();
        match usable_relays(p) {
            Some(rs) => if first_keyword(definition.cluster_keywords@, p.desc@) is None && accepts(
                definition,
                p.desc@,
            ) {
                prev.push(fresh_server(id@, p.desc@, rs))
            } else {
                prev
            },
            None => prev,
        }
    }
}

/// The clusters that pass the keyword filter, each as a server with the
/// identifier `cluster` and the cluster's name as description.
pub open spec fn cluster_servers(definition: GameDefinition, cs: Seq<(Seq<char>, Seq<Relay>)>) -> Seq<
    ServerView,
>
    decreases cs.len(),
{
    if cs.len() == 0 {
        Seq::empty()
    } else {
        let prev = cluster_servers(definition, cs.drop_last());
        let (name, rs) = cs.last();
        if accepts(definition, name) {
            prev.push(fresh_server("cluster"@, name, rs))
        } else {
            prev
        }
    }
}

/// The server list of a game: the standalone servers, then the cluster
/// servers, ordered stably by description.
pub open spec fn server_list(definition: GameDefinition, pops: Seq<(String, PopDefinition)>) -> Seq<
    ServerView,
> {
    sort_by_description(
        standalone_servers(definition, pops) + cluster_servers(
            definition,
            clusters_of(definition, pops),
        ),
    )
}

/// Every standalone server passes the keyword filter.
proof fn lemma_standalone_accepted(definition: GameDefinition, pops: Seq<(String, PopDefinition)>)
    ensures
        forall|i: int|
            0 <= i < standalone_servers(definition, pops).len() ==> accepts(
                definition,
                #[trigger] standalone_servers(definition, pops)[i].description,
            ),
    decreases pops.len(),
{
    if pops.len() > 0 {
        lemma_standalone_accepted(definition, pops.drop_last());
    }
}

/// Every cluster server passes the keyword filter.
proof fn lemma_cluster_servers_accepted(definition: GameDefinition, cs: Seq<(Seq<char>, Seq<Relay>)>)
    ensures
        forall|i: int|
            0 <= i < cluster_servers(definition, cs).len() ==> accepts(
                definition,
                #[trigger] cluster_servers(definition, cs)[i].description,
            ),
    decreases cs.len(),
{
    if cs.len() > 0 {
        lemma_cluster_servers_accepted(definition, cs.drop_last());
    }
}

/// The server list of a game is ordered by description, every server on it
/// passes the game's keyword filter, and it holds exactly the standalone
/// servers and the cluster servers, none lost and none added.
pub proof fn lemma_server_list_laws(definition: GameDefinition, pops: Seq<(String, PopDefinition)>)
    ensures
        sorted_by_description(server_list(definition, pops)),
        forall|i: int|
            0 <= i < server_list(definition, pops).len() ==> accepts(
                definition,
                #[trigger] server_list(definition, pops)[i].description,
            ),
        server_list(definition, pops).to_multiset() == (standalone_servers(definition, pops)
            + cluster_servers(definition, clusters_of(definition, pops))).to_multiset(),
{
    broadcast use vstd::seq_lib::group_to_multiset_ensures;

    let a = standalone_servers(definition, pops);
    let b = cluster_servers(definition, clusters_of(definition, pops));
    let all = a + b;
    lemma_sort_by_description(all);
    lemma_standalone_accepted(definition, pops);
    lemma_cluster_servers_accepted(definition, clusters_of(definition, pops));
    let r = server_list(definition, pops);
    assert forall|i: int| 0 <= i < r.len() implies accepts(definition, #[trigger] r[i].description) by {
        assert(r.to_multiset().count(r[i]) > 0);
        assert(all.contains(r[i]));
        let k = choose|k: int| 0 <= k < all.len() && all[k] == r[i];
        if k < a.len() {
            assert(all[k] == a[k]);
        } else {
            assert(all[k] == b[k - a.len()]);
        }
    }
}

/// Every standalone server is a point of presence with relays that
/// mentions no cluster keyword and passes the filter, carrying its
/// identifier, its description and all of its relays in order, nothing
/// measured yet; and every such point of presence gives a standalone server.
pub proof fn lemma_standalone_servers_complete(definition: GameDefinition, pops: Seq<(String, PopDefinition)>)
    ensures
        forall|k: int|
            #![trigger standalone_servers(definition, pops)[k]]
            0 <= k < standalone_servers(definition, pops).len() ==> exists|p: int|
                0 <= p < pops.len() && #[trigger] pops[p].1.relays is Some && {
                    let s = standalone_servers(definition, pops)[k];
                    &&& s.id == pops[p].0@
                    &&& s.description == pops[p].1.desc@
                    &&& s.relays == pops[p].1.relays->0@
                    &&& s.relays.len() > 0
                    &&& first_keyword(definition.cluster_keywords@, pops[p].1.desc@) is None
                    &&& accepts(definition, pops[p].1.desc@)
                    &&& s.ping is None && s.packet_loss is None && !s.blocked && s.status_text.len() == 0
                },
        forall|p: int|
            0 <= p < pops.len() && (#[trigger] pops[p]).1.relays is Some && pops[p].1.relays->0@.len() > 0
                && first_keyword(definition.cluster_keywords@, pops[p].1.desc@) is None && accepts(
                definition,
                pops[p].1.desc@,
            ) ==> exists|k: int|
                0 <= k < standalone_servers(definition, pops).len() && {
                    let s = #[trigger] standalone_servers(definition, pops)[k];
                    &&& s.id == pops[p].0@
                    &&& s.description == pops[p].1.desc@
                    &&& s.relays == pops[p].1.relays->0@
                },
    decreases pops.len(),
{
    if pops.len() > 0 {
        let t = pops.drop_last();
        let n = pops.len() - 1;
        lemma_standalone_servers_complete(definition, t);
        let prev = standalone_servers(definition, t);
        let cur = standalone_servers(definition, pops);
        assert forall|i: int| 0 <= i < t.len() implies #[trigger] t[i] == pops[i] by {}
        assert forall|k: int| #![trigger cur[k]] 0 <= k < cur.len() implies exists|p: int|
            0 <= p < pops.len() && #[trigger] pops[p].1.relays is Some && {
                let s = cur[k];
                &&& s.id == pops[p].0@
                &&& s.description == pops[p].1.desc@
                &&& s.relays == pops[p].1.relays->0@
                &&& s.relays.len() > 0
                &&& first_keyword(definition.cluster_keywords@, pops[p].1.desc@) is None
                &&& accepts(definition, pops[p].1.desc@)
                &&& s.ping is None && s.packet_loss is None && !s.blocked && s.status_text.len() == 0
            } by {
            if k < prev.len() {
                assert(cur[k] == prev[k]);
                let p = choose|p: int|
                    0 <= p < t.len() && #[trigger] t[p].1.relays is Some && {
                        let s = prev[k];
                        &&& s.id == t[p].0@
                        &&& s.description == t[p].1.desc@
                        &&& s.relays == t[p].1.relays->0@
                        &&& s.relays.len() > 0
                        &&& first_keyword(definition.cluster_keywords@, t[p].1.desc@) is None
                        &&& accepts(definition, t[p].1.desc@)
                        &&& s.ping is None && s.packet_loss is None && !s.blocked && s.status_text.len() == 0
                    };
                assert(pops[p] == t[p]);
            } else {
                assert(pops[n].1.relays is Some);
            }
        }
        assert forall|p: int|
            0 <= p < pops.len() && (#[trigger] pops[p]).1.relays is Some && pops[p].1.relays->0@.len() > 0
                && first_keyword(definition.cluster_keywords@, pops[p].1.desc@) is None && accepts(
                definition,
                pops[p].1.desc@,
            ) implies exists|k: int|
                0 <= k < cur.len() && {
                    let s = #[trigger] cur[k];
                    &&& s.id == pops[p].0@
                    &&& s.description == pops[p].1.desc@
                    &&& s.relays == pops[p].1.relays->0@
                } by {
            if p < n {
                assert(t[p] == pops[p]);
                let k = choose|k: int|
                    0 <= k < prev.len() && {
                        let s = #[trigger] prev[k];
                        &&& s.id == t[p].0@
                        &&& s.description == t[p].1.desc@
                        &&& s.relays == t[p].1.relays->0@
                    };
                assert(cur[k] == prev[k]);
            } else {
                assert(cur[prev.len() as int].id == pops[p].0@);
            }
        }
    }
}

/// Every cluster server is a cluster that passes the filter, named
/// `cluster`, described by the cluster's name and carrying all of the
/// cluster's relays; and every cluster that passes gives one.
pub proof fn lemma_cluster_servers_complete(definition: GameDefinition, cs: Seq<(Seq<char>, Seq<Relay>)>)
    ensures
        forall|k: int|
            #![trigger cluster_servers(definition, cs)[k]]
            0 <= k < cluster_servers(definition, cs).len() ==> exists|j: int|
                0 <= j < cs.len() && accepts(definition, #[trigger] cs[j].0) && cluster_servers(
                    definition,
                    cs,
                )[k].id == "cluster"@ && cluster_servers(definition, cs)[k].description == cs[j].0
                    && cluster_servers(definition, cs)[k].relays == cs[j].1,
        forall|j: int|
            0 <= j < cs.len() && accepts(definition, #[trigger] cs[j].0) ==> exists|k: int|
                0 <= k < cluster_servers(definition, cs).len() && (#[trigger] cluster_servers(
                    definition,
                    cs,
                )[k]).description == cs[j].0 && cluster_servers(definition, cs)[k].relays == cs[j].1,
    decreases cs.len(),
{
    if cs.len() > 0 {
        let t = cs.drop_last();
        let n = cs.len() - 1;
        lemma_cluster_servers_complete(definition, t);
        let prev = cluster_servers(definition, t);
        let cur = cluster_servers(definition, cs);
        assert forall|i: int| 0 <= i < t.len() implies #[trigger] t[i] == cs[i] by {}
        assert forall|k: int| #![trigger cur[k]] 0 <= k < cur.len() implies exists|j: int|
            0 <= j < cs.len() && accepts(definition, #[trigger] cs[j].0) && cur[k].id == "cluster"@
                && cur[k].description == cs[j].0 && cur[k].relays == cs[j].1 by {
            if k < prev.len() {
                assert(cur[k] == prev[k]);
                let j = choose|j: int|
                    0 <= j < t.len() && accepts(definition, #[trigger] t[j].0) && prev[k].id == "cluster"@
                        && prev[k].description == t[j].0 && prev[k].relays == t[j].1;
                assert(cs[j] == t[j]);
            } else {
                assert(accepts(definition, cs[n].0));
            }
        }
        assert forall|j: int| 0 <= j < cs.len() && accepts(definition, #[trigger] cs[j].0) implies exists|k: int|
            0 <= k < cur.len() && (#[trigger] cur[k]).description == cs[j].0 && cur[k].relays == cs[j].1 by {
            if j < n {
                assert(t[j] == cs[j]);
                let k = choose|k: int|
                    0 <= k < prev.len() && (#[trigger] prev[k]).description == t[j].0 && prev[k].relays
                        == t[j].1;
                assert(cur[k] == prev[k]);
            } else {
                assert(cur[prev.len() as int].description == cs[j].0);
            }
        }
    }
}

/// `small` occurs in `big` as a contiguous piece.
pub open spec fn piece_of(big: Seq<Relay>, small: Seq<Relay>) -> bool {
    exists|off: int| 0 <= off && off + small.len() <= big.len() && #[trigger] big.subrange(off, off + small.len()) == small
}

/// A found cluster index is in range and names that cluster.
proof fn lemma_cluster_index(cs: Seq<(Seq<char>, Seq<Relay>)>, name: Seq<char>, j: int)
    ensures
        cluster_index_from(cs, name, j) matches Some(i) ==> 0 <= i < cs.len() && cs[i].0 == name,
    decreases cs.len() - j,
{
    if 0 <= j < cs.len() && cs[j].0 != name {
        lemma_cluster_index(cs, name, j + 1);
    }
}

/// Adding to a cluster keeps every cluster where it was, under its name,
/// with its relays in front; and the added relays end the named cluster.
proof fn lemma_add_to_cluster(cs: Seq<(Seq<char>, Seq<Relay>)>, name: Seq<char>, rs: Seq<Relay>)
    ensures
        add_to_cluster(cs, name, rs).len() >= cs.len(),
        forall|j: int|
            0 <= j < cs.len() ==> (#[trigger] add_to_cluster(cs, name, rs)[j]).0 == cs[j].0 && piece_of(
                add_to_cluster(cs, name, rs)[j].1,
                cs[j].1,
            ) && add_to_cluster(cs, name, rs)[j].1.subrange(0, cs[j].1.len() as int) == cs[j].1,
        exists|j: int|
            0 <= j < add_to_cluster(cs, name, rs).len() && (#[trigger] add_to_cluster(cs, name, rs)[j]).0
                == name && piece_of(add_to_cluster(cs, name, rs)[j].1, rs),
{
    lemma_cluster_index(cs, name, 0);
    let r = add_to_cluster(cs, name, rs);
    assert forall|j: int| 0 <= j < cs.len() implies (#[trigger] r[j]).0 == cs[j].0 && piece_of(
        r[j].1,
        cs[j].1,
    ) && r[j].1.subrange(0, cs[j].1.len() as int) == cs[j].1 by {
        assert(r[j].1.subrange(0, cs[j].1.len() as int) =~= cs[j].1);
        assert(r[j].1.subrange(0int, 0int + cs[j].1.len()) == cs[j].1);
    }
    match cluster_index_from(cs, name, 0) {
        Some(i) => {
            let big = r[i].1;
            let off = cs[i].1.len() as int;
            assert(big.subrange(off, off + rs.len()) =~= rs);
            assert(r[i].0 == name);
        },
        None => {
            let n = cs.len() as int;
            assert(r[n].1.subrange(0int, 0int + rs.len()) =~= rs);
            assert(r[n].0 == name);
        },
    }
}

/// A contiguous piece of the front part is a piece of the whole.
proof fn lemma_piece_of_front(big: Seq<Relay>, front: Seq<Relay>, small: Seq<Relay>)
    requires
        front.len() <= big.len(),
        big.subrange(0, front.len() as int) == front,
        piece_of(front, small),
    ensures
        piece_of(big, small),
{
    let off = choose|off: int| 0 <= off && off + small.len() <= front.len() && #[trigger] front.subrange(off, off + small.len()) == small;
    assert(big.subrange(off, off + small.len()) =~= front.subrange(off, off + small.len()));
}

/// No relay is lost to clustering: the relays of every point of presence
/// that joins a cluster lie, in order and together, in the cluster named
/// by its first matching keyword.
pub proof fn lemma_clusters_keep_relays(definition: GameDefinition, pops: Seq<(String, PopDefinition)>, p: int)
    requires
        0 <= p < pops.len(),
        usable_relays(pops[p].1) is Some,
        first_keyword(definition.cluster_keywords@, pops[p].1.desc@) is Some,
    ensures
        exists|j: int|
            0 <= j < clusters_of(definition, pops).len() && (#[trigger] clusters_of(definition, pops)[j]).0
                == definition.cluster_keywords@[first_keyword(definition.cluster_keywords@, pops[p].1.desc@)->0]@
                && piece_of(clusters_of(definition, pops)[j].1, usable_relays(pops[p].1)->0),
    decreases pops.len(),
{
    let t = pops.drop_last();
    let prev = clusters_of(definition, t);
    let cur = clusters_of(definition, pops);
    let name = definition.cluster_keywords@[first_keyword(definition.cluster_keywords@, pops[p].1.desc@)->0]@;
    let rs = usable_relays(pops[p].1)->0;
    if p == pops.len() - 1 {
        let k = first_keyword(definition.cluster_keywords@, pops[p].1.desc@)->0;
        lemma_add_to_cluster(prev, definition.cluster_keywords@[k]@, rs);
    } else {
        assert(t[p] == pops[p]);
        lemma_clusters_keep_relays(definition, t, p);
        let j = choose|j: int|
            0 <= j < prev.len() && (#[trigger] prev[j]).0 == name && piece_of(prev[j].1, rs);
        let last = pops.last().1;
        if usable_relays(last) is Some && first_keyword(definition.cluster_keywords@, last.desc@) is Some {
            let k = first_keyword(definition.cluster_keywords@, last.desc@)->0;
            lemma_add_to_cluster(prev, definition.cluster_keywords@[k]@, usable_relays(last)->0);
            assert(cur[j].0 == prev[j].0);
            lemma_piece_of_front(cur[j].1, prev[j].1, rs);
        } else {
            assert(cur == prev);
        }
    }
}

/// Accepts only the status 200 of the configuration service.
pub fn check_status(status: u16) -> (r: Result<(), FetchError>)
    ensures
        r == (if status == 200 {
            Ok::<(), FetchError>(())
        } else {
            Err(FetchError::Status(status))
        }),
{
    if status != 200 {
        return Err(FetchError::Status(status));
    }
    Ok(())
}

/// Index of the first cluster keyword that occurs in `desc`.
fn find_cluster_keyword(keywords: &Vec<String>, desc: &str) -> (r: Option<usize>)
    ensures
        r matches Some(k) ==> first_keyword(keywords@, desc@) == Some(k as int) && k < keywords.len(),
        r is None ==> first_keyword(keywords@, desc@) is None,
{
    let mut i: usize = 0;
    while i < keywords.len()
        invariant
            i <= keywords.len(),
            first_keyword_from(keywords@, desc@, 0) == first_keyword_from(keywords@, desc@, i as int),
        decreases keywords.len() - i,
    {
        if str_contains(desc, keywords[i].as_str()) {
            return Some(i);
        }
        i = i + 1;
    }
    None
}

/// Adds relays to the named cluster, creating it at the end if it is new.
fn add_relays_to_cluster(clusters: &mut Vec<(String, Vec<Relay>)>, name: &String, relays: Vec<Relay>)
    ensures
        cluster_views(final(clusters)@) == add_to_cluster(
            cluster_views(old(clusters)@),
            name@,
            relays@,
        ),
{
    let ghost cs = cluster_views(clusters@);
    let ghost rs = relays@;
    let mut j: usize = 0;
    while j < clusters.len()
        invariant
            j <= clusters.len(),
            cs == cluster_views(clusters@),
            cs == cluster_views(old(clusters)@),
            rs == relays@,
            cluster_index_from(cs, name@, 0) == cluster_index_from(cs, name@, j as int),
        decreases clusters.len() - j,
    {
        if clusters[j].0 == *name {
            assert(cs[j as int].0 == name@);
            let mut relays = relays;
            let ghost old_cl = clusters@;
            let mut entry = clusters.remove(j);
            entry.1.append(&mut relays);
            let ghost new_entry = entry;
            clusters.insert(j, entry);
            proof {
                assert(clusters@ =~= old_cl.update(j as int, new_entry));
                assert(new_entry.1@ == cs[j as int].1 + rs);
                assert(cluster_views(clusters@) =~= cs.update(j as int, (name@, cs[j as int].1 + rs)));
            }
            return;
        }
        assert(cs[j as int].0 != name@);
        j = j + 1;
    }
    clusters.push((name.clone(), relays));
    assert(cluster_views(clusters@) =~= cs.push((name@, rs)));
}

/// The server list of a game from the relay network configuration:
/// points of presence without relays are left out, those whose
/// description mentions a cluster keyword are merged into that cluster,
/// the rest and the clusters are kept when the keyword filter accepts
/// them, and the list is ordered by description.
pub fn servers_from_config(definition: &GameDefinition, config: &SdrConfig) -> (r: Vec<Server>)
    ensures
        server_views(r@) == server_list(*definition, config.pops@),
{
    let pops = &config.pops;
    let mut servers: Vec<Server> = Vec::new();
    let mut clusters: Vec<(String, Vec<Relay>)> = Vec::new();
    let mut i: usize = 0;
    assert(server_views(servers@) =~= standalone_servers(*definition, pops@.take(0)));
    assert(cluster_views(clusters@) =~= clusters_of(*definition, pops@.take(0)));
    while i < pops.len()
        invariant
            i <= pops.len(),
            server_views(servers@) == standalone_servers(*definition, pops@.take(i as int)),
            cluster_views(clusters@) == clusters_of(*definition, pops@.take(i as int)),
        decreases pops.len() - i,
    {
        let ghost before = pops@.take(i as int);
        let ghost after = pops@.take(i + 1);
        assert(after.drop_last() =~= before);
        assert(after.last() == pops@[i as int]);
        let pop_id = &pops[i].0;
        let pop_def = &pops[i].1;
        match &pop_def.relays {
            None => {},
            Some(relay_defs) => {
                if relay_defs.len() > 0 {
                    let relays = copy_relays(relay_defs);
                    match find_cluster_keyword(&definition.cluster_keywords, pop_def.desc.as_str()) {
                        Some(k) => {
                            add_relays_to_cluster(&mut clusters, &definition.cluster_keywords[k], relays);
                        },
                        None => {
                            let s = Server {
                                id: pop_id.clone(),
                                description: pop_def.desc.clone(),
                                relays,
                                ping: None,
                                status_text: String::new(),
                                blocked: false,
                                packet_loss: None,
                            };
                            if s.is_accepted(definition) {
                                let ghost sv = s@;
                                servers.push(s);
                                assert(server_views(servers@) =~= standalone_servers(*definition, before).push(sv));
                            }
                        },
                    }
                }
            },
        }
        i = i + 1;
    }
    assert(pops@.take(i as int) =~= pops@);
    let ghost cs = cluster_views(clusters@);
    let ghost standalone = server_views(servers@);
    let mut j: usize = 0;
    assert(server_views(servers@) =~= standalone + cluster_servers(*definition, cs.take(0)));
    while j < clusters.len()
        invariant
            j <= clusters.len(),
            cs == cluster_views(clusters@),
            server_views(servers@) == standalone + cluster_servers(*definition, cs.take(j as int)),
        decreases clusters.len() - j,
    {
        assert(cs.take(j + 1).drop_last() =~= cs.take(j as int));
        let s = Server {
            id: String::from_str("cluster"),
            description: clusters[j].0.clone(),
            relays: copy_relays(&clusters[j].1),
            ping: None,
            status_text: String::new(),
            blocked: false,
            packet_loss: None,
        };
        if s.is_accepted(definition) {
            let ghost sv = s@;
            servers.push(s);
            assert(server_views(servers@) =~= (standalone + cluster_servers(
                *definition,
                cs.take(j as int),
            )).push(sv));
        }
        j = j + 1;
    }
    assert(cs.take(j as int) =~= cs);
    sort_servers(servers)
}

} // verus!
