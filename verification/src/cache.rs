use vstd::prelude::*;

use std::collections::HashMap;

use crate::models::{copy_servers, Server, ServerView, server_views};

verus! {

/// How long a fetched server list may be served again, in nanoseconds
/// (five minutes).
pub const CACHE_TTL_NANOS: u64 = 300_000_000_000;

/// A server list as fetched, with the time at which it was stored.
pub struct CacheEntry {
    pub servers: Vec<Server>,
    pub stamp: u64,
}

/// Fetched server lists by application id. Times are nanoseconds on a
/// clock that does not go back.
pub struct ServerCache {
    entries: HashMap<u32, CacheEntry>,
}

/// Whether a list stored at `stamp` may still be served at `now`: less
/// than the time to live has passed (no time has passed if the clock
/// reads earlier).
pub open spec fn is_fresh(stamp: u64, now: u64) -> bool {
    now < stamp + CACHE_TTL_NANOS
}

/// What a put stores is what a get at a time within the time to live
/// returns, and a later get returns nothing; other ids are untouched.
pub proof fn lemma_put_then_get(
    m: Map<u32, (u64, Seq<ServerView>)>,
    app_id: u32,
    now: u64,
    servers: Seq<ServerView>,
    later: u64,
    other: u32,
)
    requires
        other != app_id,
    ensures
        m.insert(app_id, (now, servers)).contains_key(app_id),
        m.insert(app_id, (now, servers))[app_id] == (now, servers),
        now <= later ==> (is_fresh(now, later) <==> later - now < CACHE_TTL_NANOS),
        m.insert(app_id, (now, servers)).contains_key(other) == m.contains_key(other),
        m.contains_key(other) ==> m.insert(app_id, (now, servers))[other] == m[other],
{
}

impl ServerCache {
    /// For each application id, when its list was stored and the list.
    pub closed spec fn view(&self) -> Map<u32, (u64, Seq<ServerView>)> {
        self.entries@.map_values(|e: CacheEntry| (e.stamp, server_views(e.servers@)))
    }

    /// An empty cache.
    pub fn new() -> (r: ServerCache)
        ensures
            r.view() == Map::<u32, (u64, Seq<ServerView>)>::empty(),
    {
        let r = ServerCache { entries: HashMap::new() };
        assert(r.view() =~= Map::<u32, (u64, Seq<ServerView>)>::empty());
        r
    }

    /// The list stored for `app_id`, if one was stored less than the time
    /// to live before `now`.
    pub fn get(&self, app_id: u32, now: u64) -> (r: Option<Vec<Server>>)
        ensures
            r is Some <==> self.view().contains_key(app_id) && is_fresh(self.view()[app_id].0, now),
            r matches Some(v) ==> server_views(v@) == self.view()[app_id].1,
    {
        match self.entries.get(&app_id) {
            Some(entry) => {
                if now < entry.stamp || now - entry.stamp < CACHE_TTL_NANOS {
                    Some(copy_servers(&entry.servers))
                } else {
                    None
                }
            },
            None => None,
        }
    }

    /// Stores the list fetched for `app_id` at `now`, replacing any
    /// earlier one.
    pub fn put(&mut self, app_id: u32, now: u64, servers: Vec<Server>)
        ensures
            final(self).view() == old(self).view().insert(app_id, (now, server_views(servers@))),
    {
        let ghost sv = server_views(servers@);
        self.entries.insert(app_id, CacheEntry { servers, stamp: now });
        assert(self.view() =~= old(self).view().insert(app_id, (now, sv)));
    }
}

} // verus!
