use vstd::prelude::*;

use crate::models::{Server, ServerView, server_views};
use crate::text::{lemma_lex_le_total, lemma_lex_le_transitive, lex_le, str_le};

verus! {

broadcast use vstd::seq_lib::group_to_multiset_ensures;

/// Inserts `x` into `s` after the last element whose description comes no
/// later than that of `x`: the step of a stable insertion sort.
pub open spec fn insert_by_description(s: Seq<ServerView>, x: ServerView) -> Seq<ServerView>
    decreases s.len(),
{
    if s.len() == 0 {
        seq![x]
    } else if lex_le(s.last().description, x.description) {
        s.push(x)
    } else {
        insert_by_description(s.drop_last(), x).push(s.last())
    }
}

/// The servers ordered by description; servers with equal descriptions keep
/// their relative order (a stable sort, as `slice::sort_by` is).
pub open spec fn sort_by_description(s: Seq<ServerView>) -> Seq<ServerView>
    decreases s.len(),
{
    if s.len() == 0 {
        s
    } else {
        insert_by_description(sort_by_description(s.drop_last()), s.last())
    }
}

/// Descriptions never decrease along the sequence.
pub open spec fn sorted_by_description(s: Seq<ServerView>) -> bool {
    forall|i: int, j: int|
        0 <= i <= j < s.len() ==> lex_le(#[trigger] s[i].description, #[trigger] s[j].description)
}

/// Inserting at the position after the last element no later than `x` is
/// the insertion step.
proof fn lemma_insert_at(s: Seq<ServerView>, x: ServerView, p: int)
    requires
        0 <= p <= s.len(),
        forall|k: int| p <= k < s.len() ==> !lex_le(#[trigger] s[k].description, x.description),
        p > 0 ==> lex_le(s[p - 1].description, x.description),
    ensures
        insert_by_description(s, x) == s.insert(p, x),
    decreases s.len(),
{
    if s.len() == 0 {
        assert(s.insert(p, x) =~= seq![x]);
    } else if p == s.len() {
        assert(s.insert(p, x) =~= s.push(x));
    } else {
        assert(!lex_le(s[s.len() - 1].description, x.description));
        lemma_insert_at(s.drop_last(), x, p);
        assert(s.drop_last().insert(p, x).push(s.last()) =~= s.insert(p, x));
    }
}

/// The insertion step keeps every element, adds `x`, and keeps a sorted
/// sequence sorted.
proof fn lemma_insert_sorted(s: Seq<ServerView>, x: ServerView)
    requires
        sorted_by_description(s),
    ensures
        sorted_by_description(insert_by_description(s, x)),
        insert_by_description(s, x).to_multiset() == s.to_multiset().insert(x),
        insert_by_description(s, x).len() == s.len() + 1,
    decreases s.len(),
{
    let r = insert_by_description(s, x);
    if s.len() == 0 {
        assert(seq![x] =~= s.push(x));
        lemma_lex_le_total(x.description, x.description);
    } else if lex_le(s.last().description, x.description) {
        assert forall|i: int, j: int| 0 <= i <= j < r.len() implies lex_le(
            #[trigger] r[i].description,
            #[trigger] r[j].description,
        ) by {
            if j == s.len() {
                if i < j {
                    lemma_lex_le_transitive(s[i].description, s.last().description, x.description);
                } else {
                    lemma_lex_le_total(x.description, x.description);
                }
            }
        }
    } else {
        let t = s.drop_last();
        let last = s.last();
        lemma_insert_sorted(t, x);
        let rt = insert_by_description(t, x);
        lemma_lex_le_total(last.description, x.description);
        assert(s =~= t.push(last));
        assert forall|k: int| 0 <= k < rt.len() implies lex_le(
            #[trigger] rt[k].description,
            last.description,
        ) by {
            assert(rt.to_multiset().count(rt[k]) > 0);
            if rt[k] != x {
                assert(t.to_multiset().count(rt[k]) > 0);
                assert(t.contains(rt[k]));
                let m = choose|m: int| 0 <= m < t.len() && t[m] == rt[k];
                assert(s[m] == t[m]);
            }
        }
        assert forall|i: int, j: int| 0 <= i <= j < r.len() implies lex_le(
            #[trigger] r[i].description,
            #[trigger] r[j].description,
        ) by {
            if j == rt.len() {
                if i < j {
                    assert(r[i] == rt[i]);
                } else {
                    lemma_lex_le_total(last.description, last.description);
                }
            } else {
                assert(r[i] == rt[i]);
                assert(r[j] == rt[j]);
            }
        }
        assert(r.to_multiset() =~= s.to_multiset().insert(x));
    }
}

/// The sort returns a sorted rearrangement of its input.
pub proof fn lemma_sort_by_description(s: Seq<ServerView>)
    ensures
        sorted_by_description(sort_by_description(s)),
        sort_by_description(s).to_multiset() == s.to_multiset(),
        sort_by_description(s).len() == s.len(),
    decreases s.len(),
{
    if s.len() > 0 {
        lemma_sort_by_description(s.drop_last());
        lemma_insert_sorted(sort_by_description(s.drop_last()), s.last());
        assert(s =~= s.drop_last().push(s.last()));
    }
}

/// Whether a server has the description `d`.
pub open spec fn described_as(d: Seq<char>) -> spec_fn(ServerView) -> bool {
    |x: ServerView| x.description == d
}

/// Insertion keeps the servers of each description in their order, the
/// inserted one coming after those already there.
proof fn lemma_insert_stable(t: Seq<ServerView>, x: ServerView, d: Seq<char>)
    ensures
        insert_by_description(t, x).filter(described_as(d)) == if described_as(d)(x) {
            t.filter(described_as(d)).push(x)
        } else {
            t.filter(described_as(d))
        },
    decreases t.len(),
{
    let p = described_as(d);
    if t.len() == 0 {
        assert(seq![x] =~= t.push(x));
        t.lemma_filter_push(x, p);
    } else if lex_le(t.last().description, x.description) {
        t.lemma_filter_push(x, p);
    } else {
        let u = t.drop_last();
        let last = t.last();
        lemma_insert_stable(u, x, d);
        insert_by_description(u, x).lemma_filter_push(last, p);
        u.lemma_filter_push(last, p);
        assert(t =~= u.push(last));
        lemma_lex_le_total(x.description, x.description);
        if p(x) {
            assert(last.description != x.description);
            u.filter(p).lemma_filter_push(x, p);
        }
    }
}

/// The sort is stable: the servers of any one description come out in the
/// order in which they went in.
pub proof fn lemma_sort_stable(s: Seq<ServerView>, d: Seq<char>)
    ensures
        sort_by_description(s).filter(described_as(d)) == s.filter(described_as(d)),
    decreases s.len(),
{
    if s.len() > 0 {
        let t = s.drop_last();
        lemma_sort_stable(t, d);
        lemma_insert_stable(sort_by_description(t), s.last(), d);
        t.lemma_filter_push(s.last(), described_as(d));
        assert(s =~= t.push(s.last()));
    }
}

/// Orders servers by description, stably.
pub fn sort_servers(v: Vec<Server>) -> (r: Vec<Server>)
    ensures
        server_views(r@) == sort_by_description(server_views(v@)),
{
    let mut out: Vec<Server> = Vec::new();
    let mut rest = v;
    let ghost src = server_views(rest@);
    let mut i: usize = 0;
    assert(server_views(out@) =~= sort_by_description(src.take(0)));
    assert(server_views(rest@) =~= src.skip(0));
    assert(src.len() == rest.len());
    while rest.len() > 0
        invariant
            server_views(out@) == sort_by_description(src.take(i as int)),
            i + rest.len() == src.len(),
            src.len() <= usize::MAX,
            server_views(rest@) == src.skip(i as int),
        decreases rest.len(),
    {
        let ghost old_rest = rest@;
        let x = rest.remove(0);
        let ghost xv = x@;
        proof {
            assert(server_views(old_rest)[0] == old_rest[0]@);
            assert(src.skip(i as int)[0] == src[i as int]);
            assert forall|k: int| 0 <= k < rest.len() implies #[trigger] server_views(rest@)[k]
                == src.skip(i + 1)[k] by {
                assert(rest@[k] == old_rest[k + 1]);
                assert(server_views(old_rest)[k + 1] == src.skip(i as int)[k + 1]);
            }
            assert(server_views(rest@) =~= src.skip(i + 1));
        }
        let mut p: usize = out.len();
        while p > 0 && !str_le(out[p - 1].description.as_str(), x.description.as_str())
            invariant
                p <= out.len(),
                forall|k: int|
                    p <= k < out.len() ==> !lex_le(
                        #[trigger] out@[k]@.description,
                        x.description@,
                    ),
            decreases p,
        {
            p = p - 1;
        }
        proof {
            let ov = server_views(out@);
            assert forall|k: int| p <= k < ov.len() implies !lex_le(
                #[trigger] ov[k].description,
                xv.description,
            ) by {
                assert(ov[k] == out@[k]@);
            }
            if p > 0 {
                assert(ov[p - 1] == out@[p - 1]@);
            }
            lemma_insert_at(ov, xv, p as int);
        }
        let ghost old_out = out@;
        out.insert(p, x);
        proof {
            assert(server_views(out@) =~= server_views(old_out).insert(p as int, xv));
            assert(src.take(i + 1).drop_last() =~= src.take(i as int));
        }
        i = i + 1;
    }
    assert(src.take(i as int) =~= src);
    out
}

} // verus!
