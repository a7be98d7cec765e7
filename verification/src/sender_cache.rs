//! A short-lived cache of the group members who sent channel messages, so
//! that a burst of messages asks KOOK about each sender once a minute.
use vstd::prelude::*;
use crate::json::JsonV;
use crate::kook_api::{GroupMemberInfo, member_info_json};
use std::collections::VecDeque;

verus! {

broadcast use vstd::std_specs::vecdeque::group_vec_dequeue_axioms;

/// A cached member of a group, with the time (in seconds) it was fetched.
pub struct CachedSender {
    pub group_id: u64,
    pub user_id: u64,
    pub info: GroupMemberInfo,
    pub time: u64,
}

/// A cache entry as a value: group, user, the member as OneBot writes it,
/// and the time it was fetched.
pub type SenderEntry = (u64, u64, JsonV, u64);

pub open spec fn entry_view(c: CachedSender) -> SenderEntry {
    (c.group_id, c.user_id, member_info_json(c.info), c.time)
}

pub open spec fn entries_view(s: Seq<CachedSender>) -> Seq<SenderEntry> {
    s.map_values(|c: CachedSender| entry_view(c))
}

/// An entry fetched at `t` is stale at `now` when more than 60 seconds lie
/// between them, the difference taken modulo 2^64.
pub open spec fn is_stale(t: u64, now: u64) -> bool {
    now.wrapping_sub(t) > 60
}

/// The entries of `s` that are not stale at `now`, in their order.
pub open spec fn fresh_entries(s: Seq<SenderEntry>, now: u64) -> Seq<SenderEntry>
    decreases s.len(),
{
    if s.len() == 0 {
        s
    } else {
        let rest = fresh_entries(s.drop_last(), now);
        if is_stale(s.last().3, now) {
            rest
        } else {
            rest.push(s.last())
        }
    }
}

/// The cache after its stale entries are dropped: every stale entry goes
/// but the newest, which always stays.
pub open spec fn evicted(s: Seq<SenderEntry>, now: u64) -> Seq<SenderEntry> {
    if s.len() == 0 {
        s
    } else {
        fresh_entries(s.drop_last(), now).push(s.last())
    }
}

/// Whether entry `e` is for member `user_id` of group `group_id`.
pub open spec fn entry_is(e: SenderEntry, group_id: u64, user_id: u64) -> bool {
    e.0 == group_id && e.1 == user_id
}

/// The members fetched lately, oldest first.
pub struct SenderCache {
    entries: VecDeque<CachedSender>,
}

impl View for SenderCache {
    type V = Seq<SenderEntry>;

    open spec fn view(&self) -> Seq<SenderEntry> {
        entries_view(self.items())
    }
}

impl SenderCache {
    pub closed spec fn items(&self) -> Seq<CachedSender> {
        self.entries@
    }

    /// An empty cache.
    pub fn new() -> (r: SenderCache)
        ensures
            r@ == Seq::<SenderEntry>::empty(),
    {
        let r = SenderCache { entries: VecDeque::new() };
        assert(r@ =~= Seq::<SenderEntry>::empty());
        r
    }

    /// How many members the cache holds.
    pub fn len(&self) -> (r: usize)
        ensures
            r == self@.len(),
    {
        self.entries.len()
    }

    /// Drops the entries that are stale at `now`, but the newest.
    pub fn evict(&mut self, now: u64)
        ensures
            final(self)@ == evicted(old(self)@, now),
    {
        let ghost orig = self@;
        let mut rest: VecDeque<CachedSender> = VecDeque::new();
        std::mem::swap(&mut rest, &mut self.entries);
        assert(entries_view(rest@) == orig);
        if rest.len() == 0 {
            assert(self@ =~= orig);
            return;
        }
        let n = rest.len();
        let mut kept: VecDeque<CachedSender> = VecDeque::new();
        let mut k: usize = 0;
        assert(orig.skip(0) =~= orig);
        assert(entries_view(kept@) =~= fresh_entries(orig.take(0), now));
        while rest.len() > 1
            invariant
                n == orig.len(),
                n >= 1,
                k < n,
                rest@.len() == n - k,
                entries_view(rest@) == orig.skip(k as int),
                entries_view(kept@) == fresh_entries(orig.take(k as int), now),
            decreases rest@.len(),
        {
            let ghost before = rest@;
            let e = match rest.pop_front() {
                Some(e) => e,
                None => {
                    proof {
                        assert(false);
                    }
                    return;
                },
            };
            proof {
                assert(entries_view(before)[0] == entry_view(before[0]));
                assert(orig.skip(k as int)[0] == orig[k as int]);
                assert(entry_view(e) == orig[k as int]);
                assert(orig.take(k as int + 1).drop_last() =~= orig.take(k as int));
                assert(orig.take(k as int + 1).last() == orig[k as int]);
                assert(entries_view(rest@) =~= entries_view(before).skip(1));
                assert(orig.skip(k as int).skip(1) =~= orig.skip(k as int + 1));
            }
            if !(now.wrapping_sub(e.time) > 60) {
                let ghost kv = kept@;
                kept.push_back(e);
                assert(entries_view(kept@) =~= entries_view(kv).push(entry_view(e)));
            }
            k = k + 1;
        }
        let ghost before = rest@;
        let last = match rest.pop_front() {
            Some(e) => e,
            None => {
                proof {
                    assert(false);
                }
                return;
            },
        };
        proof {
            assert(k == n - 1);
            assert(entries_view(before)[0] == entry_view(before[0]));
            assert(orig.skip(k as int)[0] == orig[k as int]);
            assert(entry_view(last) == orig.last());
            assert(orig.drop_last() =~= orig.take(k as int));
        }
        let ghost kv = kept@;
        kept.push_back(last);
        assert(entries_view(kept@) =~= entries_view(kv).push(entry_view(last)));
        self.entries = kept;
    }

    /// The member `user_id` of group `group_id` as first cached, if any.
    pub fn find(&self, group_id: u64, user_id: u64) -> (r: Option<GroupMemberInfo>)
        ensures
            match r {
                Some(m) => exists|i: int|
                    0 <= i < self@.len() && entry_is(self@[i], group_id, user_id) && self@[i].2
                        == member_info_json(m) && forall|j: int|
                        0 <= j < i ==> !entry_is(#[trigger] self@[j], group_id, user_id),
                None => forall|j: int|
                    0 <= j < self@.len() ==> !entry_is(#[trigger] self@[j], group_id, user_id),
            },
    {
        let mut i: usize = 0;
        while i < self.entries.len()
            invariant
                i <= self@.len(),
                self@.len() == self.entries@.len(),
                self@ == entries_view(self.entries@),
                forall|j: int| 0 <= j < i ==> !entry_is(#[trigger] self@[j], group_id, user_id),
            decreases self.entries@.len() - i,
        {
            let e = &self.entries[i];
            if e.group_id == group_id && e.user_id == user_id {
                let m = e.info.copy();
                assert(entry_is(self@[i as int], group_id, user_id));
                return Some(m);
            }
            i = i + 1;
        }
        None
    }

    /// The member `user_id` of group `group_id` if the cache still holds
    /// it: the stale entries are dropped first, as `evict` does.
    pub fn lookup(&mut self, group_id: u64, user_id: u64, now: u64) -> (r: Option<GroupMemberInfo>)
        ensures
            final(self)@ == evicted(old(self)@, now),
            match r {
                Some(m) => exists|i: int|
                    0 <= i < final(self)@.len() && entry_is(final(self)@[i], group_id, user_id)
                        && final(self)@[i].2 == member_info_json(m) && forall|j: int|
                        0 <= j < i ==> !entry_is(#[trigger] final(self)@[j], group_id, user_id),
                None => forall|j: int|
                    0 <= j < final(self)@.len() ==> !entry_is(
                        #[trigger] final(self)@[j],
                        group_id,
                        user_id,
                    ),
            },
    {
        self.evict(now);
        self.find(group_id, user_id)
    }

    /// Caches member `info` of group `group_id`, user `user_id`, fetched at
    /// `now`, as the newest entry.
    pub fn insert(&mut self, group_id: u64, user_id: u64, info: GroupMemberInfo, now: u64)
        ensures
            final(self)@ == old(self)@.push((group_id, user_id, member_info_json(info), now)),
    {
        let ghost before = self.entries@;
        let ghost iv = member_info_json(info);
        self.entries.push_back(CachedSender { group_id, user_id, info, time: now });
        assert(self@ =~= old(self)@.push((group_id, user_id, iv, now)));
    }
}

proof fn lemma_fresh_entries(s: Seq<SenderEntry>, now: u64)
    ensures
        forall|i: int|
            0 <= i < fresh_entries(s, now).len() ==> !is_stale(
                #[trigger] fresh_entries(s, now)[i].3,
                now,
            ) && s.contains(fresh_entries(s, now)[i]),
        forall|e: SenderEntry| #[trigger]
            s.contains(e) && !is_stale(e.3, now) ==> fresh_entries(s, now).contains(e),
    decreases s.len(),
{
    if s.len() > 0 {
        let p = s.drop_last();
        lemma_fresh_entries(p, now);
        let f = fresh_entries(s, now);
        let fp = fresh_entries(p, now);
        assert forall|i: int| 0 <= i < f.len() implies !is_stale(#[trigger] f[i].3, now) && s.contains(
            f[i],
        ) by {
            if i < fp.len() {
                assert(fp[i] == f[i]);
                assert(!is_stale(fp[i].3, now));
                assert(p.contains(fp[i]));
                let j = choose|j: int| 0 <= j < p.len() && p[j] == fp[i];
                assert(s[j] == p[j]);
            } else {
                assert(f[i] == s.last());
                assert(s[s.len() - 1] == s.last());
            }
        }
        assert forall|e: SenderEntry| s.contains(e) && !is_stale(e.3, now) implies f.contains(e) by {
            let j = choose|j: int| 0 <= j < s.len() && s[j] == e;
            if j < s.len() - 1 {
                assert(p[j] == e);
                assert(p.contains(e));
                let k = choose|k: int| 0 <= k < fp.len() && fp[k] == e;
                assert(f[k] == e);
            } else {
                assert(f[f.len() - 1] == e);
            }
        }
    }
}

/// Eviction drops exactly the stale entries but the newest: every entry
/// it keeps was there before, every one but the newest is fresh, the
/// newest is kept, and every fresh entry is kept.
pub proof fn law_evict_keeps_fresh(s: Seq<SenderEntry>, now: u64)
    ensures
        forall|i: int| 0 <= i < evicted(s, now).len() ==> s.contains(#[trigger] evicted(s, now)[i]),
        forall|i: int|
            0 <= i < evicted(s, now).len() - 1 ==> !is_stale(#[trigger] evicted(s, now)[i].3, now),
        s.len() > 0 ==> evicted(s, now).last() == s.last(),
        forall|e: SenderEntry| #[trigger]
            s.contains(e) && !is_stale(e.3, now) ==> evicted(s, now).contains(e),
{
    if s.len() > 0 {
        let p = s.drop_last();
        lemma_fresh_entries(p, now);
        let v = evicted(s, now);
        let fp = fresh_entries(p, now);
        assert forall|i: int| 0 <= i < v.len() implies s.contains(#[trigger] v[i]) by {
            if i < fp.len() {
                assert(v[i] == fp[i]);
                assert(!is_stale(fp[i].3, now));
                assert(p.contains(fp[i]));
                let j = choose|j: int| 0 <= j < p.len() && p[j] == fp[i];
                assert(s[j] == p[j]);
            } else {
                assert(s[s.len() - 1] == v[i]);
            }
        }
        assert forall|i: int| 0 <= i < v.len() - 1 implies !is_stale(#[trigger] v[i].3, now) by {
            assert(v[i] == fp[i]);
        }
        assert forall|e: SenderEntry| s.contains(e) && !is_stale(e.3, now) implies v.contains(e) by {
            let j = choose|j: int| 0 <= j < s.len() && s[j] == e;
            if j < s.len() - 1 {
                assert(p[j] == e);
                assert(p.contains(e));
                let k = choose|k: int| 0 <= k < fp.len() && fp[k] == e;
                assert(v[k] == e);
            } else {
                assert(v[v.len() - 1] == e);
            }
        }
    }
}

/// A member just cached is found by the next lookup, whatever the time:
/// the newest entry is never evicted.
pub proof fn law_cached_member_found(
    s: Seq<SenderEntry>,
    group_id: u64,
    user_id: u64,
    info: JsonV,
    t: u64,
    now: u64,
)
    ensures
        exists|i: int|
            0 <= i < evicted(s.push((group_id, user_id, info, t)), now).len() && entry_is(
                #[trigger] evicted(s.push((group_id, user_id, info, t)), now)[i],
                group_id,
                user_id,
            ),
{
    let v = evicted(s.push((group_id, user_id, info, t)), now);
    assert(s.push((group_id, user_id, info, t)).drop_last() =~= s);
    assert(entry_is(v[v.len() - 1], group_id, user_id));
}

} // verus!
