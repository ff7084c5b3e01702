use vstd::prelude::*;
use vstd::string::StringExecFns;

use crate::models::{IpAddress, Relay};
use crate::text::{str_eq};

verus! {

/// The addresses blocked for one server, under the server's name.
#[derive(Clone, Debug, PartialEq, Eq)]
pub struct BlockEntry {
    pub name: String,
    pub ips: Vec<IpAddress>,
}

/// The blocklist: for each blocked server, by name, the relay addresses
/// that were blocked for it. No name occurs twice.
pub struct Db {
    entries: Vec<BlockEntry>,
}

/// The map that a list of entries stands for; a later entry of a name
/// replaces an earlier one.
pub open spec fn entries_map(s: Seq<BlockEntry>) -> Map<Seq<char>, Seq<IpAddress>>
    decreases s.len(),
{
    if s.len() == 0 {
        Map::empty()
    } else {
        entries_map(s.drop_last()).insert(s.last().name@, s.last().ips@)
    }
}

/// No two entries share a name.
pub open spec fn distinct_names(s: Seq<BlockEntry>) -> bool {
    forall|i: int, j: int| 0 <= i < j < s.len() ==> #[trigger] s[i].name@ != #[trigger] s[j].name@
}

/// The addresses of a list of relays, in order.
pub open spec fn relay_ips(rs: Seq<Relay>) -> Seq<IpAddress> {
    rs.map_values(|r: Relay| r.ipv4)
}

/// The blocklist after blocking each server of `updates` in turn.
pub open spec fn apply_blocks(m: Map<Seq<char>, Seq<IpAddress>>, updates: Seq<(String, Vec<Relay>)>) -> Map<
    Seq<char>,
    Seq<IpAddress>,
>
    decreases updates.len(),
{
    if updates.len() == 0 {
        m
    } else {
        apply_blocks(m, updates.drop_last()).insert(
            updates.last().0@,
            relay_ips(updates.last().1@),
        )
    }
}

/// The names of a list of strings.
pub open spec fn name_set(names: Seq<String>) -> Set<Seq<char>> {
    names.map_values(|s: String| s@).to_set()
}

/// With distinct names, the map holds exactly the entries' names, each
/// with its entry's addresses.
proof fn lemma_entries_map(s: Seq<BlockEntry>)
    requires
        distinct_names(s),
    ensures
        forall|k: Seq<char>|
            #[trigger] entries_map(s).contains_key(k) <==> exists|i: int|
                0 <= i < s.len() && s[i].name@ == k,
        forall|i: int| 0 <= i < s.len() ==> entries_map(s)[#[trigger] s[i].name@] == s[i].ips@,
    decreases s.len(),
{
    if s.len() > 0 {
        let t = s.drop_last();
        let last = s.last();
        lemma_entries_map(t);
        assert forall|i: int| 0 <= i < t.len() implies #[trigger] t[i].name@ != last.name@ by {
            assert(s[i] == t[i]);
            assert(s[i].name@ != s[s.len() - 1].name@);
        }
        assert forall|k: Seq<char>| #[trigger] entries_map(s).contains_key(k) <==> exists|i: int|
            0 <= i < s.len() && s[i].name@ == k by {
            if entries_map(s).contains_key(k) {
                if k == last.name@ {
                    assert(s[s.len() - 1].name@ == k);
                } else {
                    assert(entries_map(t).contains_key(k));
                    let i = choose|i: int| 0 <= i < t.len() && t[i].name@ == k;
                    assert(s[i] == t[i]);
                }
            }
            if exists|i: int| 0 <= i < s.len() && s[i].name@ == k {
                let i = choose|i: int| 0 <= i < s.len() && s[i].name@ == k;
                if i < t.len() {
                    assert(t[i] == s[i]);
                    assert(entries_map(t).contains_key(k));
                }
            }
        }
        assert forall|i: int| 0 <= i < s.len() implies entries_map(s)[#[trigger] s[i].name@]
            == s[i].ips@ by {
            if i < t.len() {
                assert(t[i] == s[i]);
                assert(entries_map(t)[t[i].name@] == t[i].ips@);
            }
        }
    }
}

/// What blocking records is what a lookup returns: after blocking `name`
/// with `ips`, the name is blocked with exactly those addresses, and every
/// other name keeps what it had.
pub proof fn lemma_block_then_lookup(
    m: Map<Seq<char>, Seq<IpAddress>>,
    name: Seq<char>,
    ips: Seq<IpAddress>,
    other: Seq<char>,
)
    requires
        other != name,
    ensures
        m.insert(name, ips).contains_key(name),
        m.insert(name, ips)[name] == ips,
        m.insert(name, ips).contains_key(other) == m.contains_key(other),
        m.contains_key(other) ==> m.insert(name, ips)[other] == m[other],
{
}

/// After unblocking `name` it is no longer blocked, and every other name
/// keeps what it had.
pub proof fn lemma_unblock_then_lookup(m: Map<Seq<char>, Seq<IpAddress>>, name: Seq<char>, other: Seq<char>)
    requires
        other != name,
    ensures
        !m.remove(name).contains_key(name),
        m.remove(name).contains_key(other) == m.contains_key(other),
        m.contains_key(other) ==> m.remove(name)[other] == m[other],
{
}

/// Unblocking a server that was just blocked, and was not blocked before,
/// gives back the blocklist as it was.
pub proof fn lemma_unblock_undoes_block(
    m: Map<Seq<char>, Seq<IpAddress>>,
    name: Seq<char>,
    ips: Seq<IpAddress>,
)
    requires
        !m.contains_key(name),
    ensures
        m.insert(name, ips).remove(name) == m,
{
    assert(m.insert(name, ips).remove(name) =~= m);
}

/// Index of the last update for the name `k`.
pub open spec fn last_listing(updates: Seq<(String, Vec<Relay>)>, k: Seq<char>) -> Option<int>
    decreases updates.len(),
{
    if updates.len() == 0 {
        None
    } else if updates.last().0@ == k {
        Some(updates.len() - 1)
    } else {
        last_listing(updates.drop_last(), k)
    }
}

/// Blocking a batch leaves every listed name blocked with the addresses of
/// its last listing, and every unlisted name as it was.
pub proof fn lemma_block_servers_effect(
    m: Map<Seq<char>, Seq<IpAddress>>,
    updates: Seq<(String, Vec<Relay>)>,
    k: Seq<char>,
)
    ensures
        last_listing(updates, k) matches Some(i) ==> {
            &&& 0 <= i < updates.len()
            &&& updates[i].0@ == k
            &&& apply_blocks(m, updates).contains_key(k)
            &&& apply_blocks(m, updates)[k] == relay_ips(updates[i].1@)
        },
        last_listing(updates, k) is None ==> {
            &&& forall|i: int| 0 <= i < updates.len() ==> (#[trigger] updates[i]).0@ != k
            &&& apply_blocks(m, updates).contains_key(k) == m.contains_key(k)
            &&& m.contains_key(k) ==> apply_blocks(m, updates)[k] == m[k]
        },
    decreases updates.len(),
{
    if updates.len() > 0 {
        let t = updates.drop_last();
        lemma_block_servers_effect(m, t, k);
        if last_listing(updates, k) is None {
            assert forall|i: int| 0 <= i < updates.len() implies (#[trigger] updates[i]).0@ != k by {
                if i < t.len() {
                    assert(t[i] == updates[i]);
                }
            }
        }
    }
}

/// Unblocking a batch leaves none of the listed names blocked and every
/// other name as it was.
pub proof fn lemma_unblock_servers_effect(m: Map<Seq<char>, Seq<IpAddress>>, names: Seq<String>, k: Seq<char>)
    ensures
        name_set(names).contains(k) ==> !m.remove_keys(name_set(names)).contains_key(k),
        !name_set(names).contains(k) ==> m.remove_keys(name_set(names)).contains_key(k) == m.contains_key(k),
        !name_set(names).contains(k) && m.contains_key(k) ==> m.remove_keys(name_set(names))[k] == m[k],
{
}

/// A call that changes the blocklist, with its arguments as values.
pub enum BlockOp {
    /// `block_server(name, relays)`.
    Block(Seq<char>, Seq<Relay>),
    /// `unblock_server(name)`.
    Unblock(Seq<char>),
    /// `block_servers(updates)`.
    BlockAll(Seq<(String, Vec<Relay>)>),
    /// `unblock_servers(names)`.
    UnblockAll(Seq<String>),
}

/// The blocklist after one call, as the call's contract states it.
pub open spec fn op_step(m: Map<Seq<char>, Seq<IpAddress>>, op: BlockOp) -> Map<Seq<char>, Seq<IpAddress>> {
    match op {
        BlockOp::Block(name, relays) => m.insert(name, relay_ips(relays)),
        BlockOp::Unblock(name) => m.remove(name),
        BlockOp::BlockAll(updates) => apply_blocks(m, updates),
        BlockOp::UnblockAll(names) => m.remove_keys(name_set(names)),
    }
}

/// The blocklist after a sequence of calls.
pub open spec fn apply_ops(m: Map<Seq<char>, Seq<IpAddress>>, ops: Seq<BlockOp>) -> Map<Seq<char>, Seq<IpAddress>>
    decreases ops.len(),
{
    if ops.len() == 0 {
        m
    } else {
        op_step(apply_ops(m, ops.drop_last()), ops.last())
    }
}

/// Whether a call names `name`, and if so whether it blocks it.
pub open spec fn op_verdict(op: BlockOp, name: Seq<char>) -> Option<bool> {
    match op {
        BlockOp::Block(n, _) => if n == name {
            Some(true)
        } else {
            None
        },
        BlockOp::Unblock(n) => if n == name {
            Some(false)
        } else {
            None
        },
        BlockOp::BlockAll(updates) => if exists|i: int| 0 <= i < updates.len() && (#[trigger] updates[i]).0@ == name {
            Some(true)
        } else {
            None
        },
        BlockOp::UnblockAll(names) => if name_set(names).contains(name) {
            Some(false)
        } else {
            None
        },
    }
}

/// Whether the last call naming `name` blocks it, if any call names it.
pub open spec fn last_verdict(ops: Seq<BlockOp>, name: Seq<char>) -> Option<bool>
    decreases ops.len(),
{
    if ops.len() == 0 {
        None
    } else {
        match op_verdict(ops.last(), name) {
            Some(b) => Some(b),
            None => last_verdict(ops.drop_last(), name),
        }
    }
}

/// Over any sequence of calls, a name is blocked exactly when the last call
/// naming it blocked it; when no call names it, exactly when it was
/// blocked before.
pub proof fn lemma_blocked_follows_last_call(m: Map<Seq<char>, Seq<IpAddress>>, ops: Seq<BlockOp>, name: Seq<char>)
    ensures
        apply_ops(m, ops).contains_key(name) == match last_verdict(ops, name) {
            Some(b) => b,
            None => m.contains_key(name),
        },
    decreases ops.len(),
{
    if ops.len() > 0 {
        let prev = apply_ops(m, ops.drop_last());
        lemma_blocked_follows_last_call(m, ops.drop_last(), name);
        match ops.last() {
            BlockOp::BlockAll(updates) => {
                lemma_block_servers_effect(prev, updates, name);
                if last_listing(updates, name) is Some {
                    let i = last_listing(updates, name)->0;
                    assert(updates[i].0@ == name);
                }
            },
            _ => {},
        }
    }
}

impl Db {
    /// No name occurs twice.
    #[verifier::type_invariant]
    spec fn wf(self) -> bool {
        distinct_names(self.entries@)
    }

    /// The blocklist as a map from server names to blocked addresses.
    pub closed spec fn view(&self) -> Map<Seq<char>, Seq<IpAddress>> {
        entries_map(self.entries@)
    }

    /// An empty blocklist.
    pub fn new() -> (db: Db)
        ensures
            db.view() == Map::<Seq<char>, Seq<IpAddress>>::empty(),
    {
        Db { entries: Vec::new() }
    }

    /// The entries, each name once, standing for the blocklist.
    pub fn entries(&self) -> (r: &[BlockEntry])
        ensures
            entries_map(r@) == self.view(),
            distinct_names(r@),
    {
        proof {
            use_type_invariant(self);
        }
        self.entries.as_slice()
    }

    /// Index of the entry for `name`.
    fn find(entries: &Vec<BlockEntry>, name: &str) -> (r: Option<usize>)
        ensures
            r matches Some(i) ==> i < entries.len() && entries@[i as int].name@ == name@,
            r is None ==> forall|i: int| 0 <= i < entries.len() ==> #[trigger] entries@[i].name@ != name@,
    {
        let mut i: usize = 0;
        while i < entries.len()
            invariant
                i <= entries.len(),
                forall|k: int| 0 <= k < i ==> #[trigger] entries@[k].name@ != name@,
            decreases entries.len() - i,
        {
            if str_eq(entries[i].name.as_str(), name) {
                return Some(i);
            }
            i = i + 1;
        }
        None
    }

    /// Sets the addresses of `name` in a list of entries with distinct names.
    fn put(entries: &mut Vec<BlockEntry>, name: &str, ips: Vec<IpAddress>)
        requires
            distinct_names(old(entries)@),
        ensures
            distinct_names(final(entries)@),
            entries_map(final(entries)@) == entries_map(old(entries)@).insert(name@, ips@),
    {
        let ghost old_s = entries@;
        let ghost ipv = ips@;
        proof {
            lemma_entries_map(old_s);
        }
        match Self::find(entries, name) {
            Some(i) => {
                let e = BlockEntry { name: entries[i].name.clone(), ips };
                entries.set(i, e);
                proof {
                    let s = entries@;
                    assert(distinct_names(s)) by {
                        assert forall|a: int, b: int| 0 <= a < b < s.len() implies #[trigger] s[a].name@
                            != #[trigger] s[b].name@ by {
                            assert(old_s[a].name@ != old_s[b].name@);
                        }
                    }
                    lemma_entries_map(s);
                    let m = entries_map(old_s).insert(name@, ipv);
                    assert forall|k: Seq<char>| #[trigger] entries_map(s).contains_key(k)
                        <==> m.contains_key(k) by {
                        if m.contains_key(k) {
                            if k == name@ {
                                assert(s[i as int].name@ == k);
                            } else {
                                assert(entries_map(old_s).contains_key(k));
                                let j = choose|j: int| 0 <= j < old_s.len() && old_s[j].name@ == k;
                                assert(s[j].name@ == k);
                            }
                        }
                        if entries_map(s).contains_key(k) {
                            let j = choose|j: int| 0 <= j < s.len() && s[j].name@ == k;
                            assert(old_s[j].name@ == k);
                        }
                    }
                    assert forall|k: Seq<char>| #[trigger] entries_map(s).contains_key(k) implies entries_map(
                        s,
                    )[k] == m[k] by {
                        let j = choose|j: int| 0 <= j < s.len() && s[j].name@ == k;
                        assert(old_s[j].name@ == k);
                    }
                    assert(entries_map(s) =~= m);
                }
            },
            None => {
                let e = BlockEntry { name: String::from_str(name), ips };
                entries.push(e);
                proof {
                    let s = entries@;
                    assert(s.drop_last() =~= old_s);
                    assert(distinct_names(s)) by {
                        assert forall|a: int, b: int| 0 <= a < b < s.len() implies #[trigger] s[a].name@
                            != #[trigger] s[b].name@ by {
                            if b < old_s.len() {
                                assert(old_s[a].name@ != old_s[b].name@);
                            } else {
                                assert(old_s[a].name@ != name@);
                            }
                        }
                    }
                }
            },
        }
    }

    /// Removes the entry of `name` from a list of entries with distinct names.
    fn drop_name(entries: &mut Vec<BlockEntry>, name: &str)
        requires
            distinct_names(old(entries)@),
        ensures
            distinct_names(final(entries)@),
            entries_map(final(entries)@) == entries_map(old(entries)@).remove(name@),
    {
        let ghost old_s = entries@;
        proof {
            lemma_entries_map(old_s);
        }
        match Self::find(entries, name) {
            Some(i) => {
                entries.remove(i);
                proof {
                    let s = entries@;
                    assert(s =~= old_s.remove(i as int));
                    assert(distinct_names(s)) by {
                        assert forall|a: int, b: int| 0 <= a < b < s.len() implies #[trigger] s[a].name@
                            != #[trigger] s[b].name@ by {
                            let a2 = if a < i { a } else { a + 1 };
                            let b2 = if b < i { b } else { b + 1 };
                            assert(s[a] == old_s[a2]);
                            assert(s[b] == old_s[b2]);
                            assert(old_s[a2].name@ != old_s[b2].name@);
                        }
                    }
                    lemma_entries_map(s);
                    let m = entries_map(old_s).remove(name@);
                    assert forall|k: Seq<char>| #[trigger] entries_map(s).contains_key(k)
                        <==> m.contains_key(k) by {
                        if m.contains_key(k) {
                            let j = choose|j: int| 0 <= j < old_s.len() && old_s[j].name@ == k;
                            assert(j != i);
                            let j2 = if j < i { j } else { j - 1 };
                            assert(s[j2] == old_s[j]);
                        }
                        if entries_map(s).contains_key(k) {
                            let j = choose|j: int| 0 <= j < s.len() && s[j].name@ == k;
                            let j2 = if j < i { j } else { j + 1 };
                            assert(s[j] == old_s[j2]);
                            assert(old_s[j2].name@ != old_s[i as int].name@);
                        }
                    }
                    assert forall|k: Seq<char>| #[trigger] entries_map(s).contains_key(k) implies entries_map(
                        s,
                    )[k] == m[k] by {
                        let j = choose|j: int| 0 <= j < s.len() && s[j].name@ == k;
                        let j2 = if j < i { j } else { j + 1 };
                        assert(s[j] == old_s[j2]);
                    }
                    assert(entries_map(s) =~= m);
                }
            },
            None => {
                proof {
                    assert(!entries_map(old_s).contains_key(name@));
                    assert(entries_map(old_s).remove(name@) =~= entries_map(old_s));
                }
            },
        }
    }

    /// Records the relay addresses of a server as blocked, replacing what was
    /// recorded for that name before.
    pub fn block_server(&mut self, name: &str, ips: &[Relay])
        ensures
            final(self).view() == old(self).view().insert(name@, relay_ips(ips@)),
    {
        proof {
            use_type_invariant(&*self);
        }
        let addrs = Self::addresses(ips);
        let mut entries: Vec<BlockEntry> = Vec::new();
        std::mem::swap(&mut entries, &mut self.entries);
        Self::put(&mut entries, name, addrs);
        self.entries = entries;
    }

    /// The addresses of the relays, in order.
    fn addresses(ips: &[Relay]) -> (r: Vec<IpAddress>)
        ensures
            r@ == relay_ips(ips@),
    {
        let mut r: Vec<IpAddress> = Vec::new();
        let mut i: usize = 0;
        while i < ips.len()
            invariant
                i <= ips.len(),
                r@ == relay_ips(ips@).take(i as int),
            decreases ips.len() - i,
        {
            r.push(ips[i].ipv4);
            i = i + 1;
            assert(r@ =~= relay_ips(ips@).take(i as int));
        }
        assert(relay_ips(ips@).take(i as int) =~= relay_ips(ips@));
        r
    }

    /// Forgets a server: its name is no longer blocked.
    pub fn unblock_server(&mut self, name: &str)
        ensures
            final(self).view() == old(self).view().remove(name@),
    {
        proof {
            use_type_invariant(&*self);
        }
        let mut entries: Vec<BlockEntry> = Vec::new();
        std::mem::swap(&mut entries, &mut self.entries);
        Self::drop_name(&mut entries, name);
        self.entries = entries;
    }

    /// Whether a server of that name is blocked.
    pub fn is_blocked(&self, name: &str) -> (r: bool)
        ensures
            r == self.view().contains_key(name@),
    {
        proof {
            use_type_invariant(self);
            lemma_entries_map(self.entries@);
        }
        Self::find(&self.entries, name).is_some()
    }

    /// The addresses blocked for a server, if it is blocked.
    pub fn get_ips(&self, name: &str) -> (r: Option<Vec<IpAddress>>)
        ensures
            r is Some <==> self.view().contains_key(name@),
            r matches Some(v) ==> v@ == self.view()[name@],
    {
        proof {
            use_type_invariant(self);
            lemma_entries_map(self.entries@);
        }
        match Self::find(&self.entries, name) {
            Some(i) => {
                let src = &self.entries[i].ips;
                let mut v: Vec<IpAddress> = Vec::new();
                let mut j: usize = 0;
                while j < src.len()
                    invariant
                        j <= src.len(),
                        v@ == src@.take(j as int),
                    decreases src.len() - j,
                {
                    v.push(src[j]);
                    j = j + 1;
                    assert(v@ =~= src@.take(j as int));
                }
                assert(src@.take(j as int) =~= src@);
                Some(v)
            },
            None => None,
        }
    }

    /// Blocks each listed server in turn, with its relay addresses.
    pub fn block_servers(&mut self, updates: &[(String, Vec<Relay>)])
        ensures
            final(self).view() == apply_blocks(old(self).view(), updates@),
    {
        proof {
            use_type_invariant(&*self);
        }
        let ghost start = self.view();
        let mut entries: Vec<BlockEntry> = Vec::new();
        std::mem::swap(&mut entries, &mut self.entries);
        let mut i: usize = 0;
        assert(updates@.take(0) =~= Seq::<(String, Vec<Relay>)>::empty());
        while i < updates.len()
            invariant
                i <= updates.len(),
                distinct_names(entries@),
                entries_map(entries@) == apply_blocks(start, updates@.take(i as int)),
            decreases updates.len() - i,
        {
            let addrs = Self::addresses(updates[i].1.as_slice());
            Self::put(&mut entries, updates[i].0.as_str(), addrs);
            assert(updates@.take(i + 1).drop_last() =~= updates@.take(i as int));
            i = i + 1;
        }
        assert(updates@.take(i as int) =~= updates@);
        self.entries = entries;
    }

    /// Unblocks each listed server.
    pub fn unblock_servers(&mut self, names: &[String])
        ensures
            final(self).view() == old(self).view().remove_keys(name_set(names@)),
    {
        proof {
            use_type_invariant(&*self);
        }
        let ghost start = self.view();
        let mut entries: Vec<BlockEntry> = Vec::new();
        std::mem::swap(&mut entries, &mut self.entries);
        let mut i: usize = 0;
        assert(start.remove_keys(name_set(names@.take(0))) =~= start);
        while i < names.len()
            invariant
                i <= names.len(),
                distinct_names(entries@),
                entries_map(entries@) == start.remove_keys(name_set(names@.take(i as int))),
            decreases names.len() - i,
        {
            Self::drop_name(&mut entries, names[i].as_str());
            proof {
                let before = names@.take(i as int);
                let after = names@.take(i + 1);
                assert(after =~= before.push(names@[i as int]));
                assert(name_set(after) =~= name_set(before).insert(names@[i as int]@)) by {
                    let bv = before.map_values(|s: String| s@);
                    assert(after.map_values(|s: String| s@) =~= bv.push(names@[i as int]@));
                    bv.lemma_push_to_set_commute(names@[i as int]@);
                }
                assert(start.remove_keys(name_set(before)).remove(names@[i as int]@) =~= start.remove_keys(
                    name_set(after),
                ));
            }
            i = i + 1;
        }
        assert(names@.take(i as int) =~= names@);
        self.entries = entries;
    }
}

} // verus!
