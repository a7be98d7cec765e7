//! The connected OneBot WebSocket clients: each is known by a key (its
//! connection id or the URL the bridge dialled) and owned by the connection
//! that registered it, so that a connection that ends removes its own entry
//! and never a newer one under the same key.
use vstd::prelude::*;
use crate::text::str_eq;

verus! {

/// A registered client: its key, the connection that owns it, and the
/// sender that reaches it.
pub type ClientEntry<T> = (String, String, T);

/// The clients as a map from key to owner and sender; later entries win.
pub open spec fn clients_map<T>(s: Seq<ClientEntry<T>>) -> Map<Seq<char>, (Seq<char>, T)>
    decreases s.len(),
{
    if s.len() == 0 {
        Map::empty()
    } else {
        clients_map(s.drop_last()).insert(s.last().0@, (s.last().1@, s.last().2))
    }
}

/// No key occurs twice.
pub open spec fn keys_unique<T>(s: Seq<ClientEntry<T>>) -> bool {
    forall|i: int, j: int| 0 <= i < j < s.len() ==> (#[trigger] s[i]).0@ != (#[trigger] s[j]).0@
}

/// What `remove_if_owner` leaves: the entry for `key` goes only when
/// `owner` owns it.
pub open spec fn removed_if_owner<T>(m: Map<Seq<char>, (Seq<char>, T)>, key: Seq<char>, owner: Seq<char>) -> Map<
    Seq<char>,
    (Seq<char>, T),
> {
    if m.contains_key(key) && m[key].0 == owner {
        m.remove(key)
    } else {
        m
    }
}

proof fn lemma_clients_map<T>(s: Seq<ClientEntry<T>>)
    requires
        keys_unique(s),
    ensures
        forall|k: Seq<char>|
            #[trigger] clients_map(s).contains_key(k) <==> exists|i: int|
                0 <= i < s.len() && (#[trigger] s[i]).0@ == k,
        forall|i: int|
            0 <= i < s.len() ==> #[trigger] clients_map(s)[s[i].0@] == (s[i].1@, s[i].2),
        clients_map(s).dom().finite(),
        clients_map(s).len() == s.len(),
    decreases s.len(),
{
    if s.len() > 0 {
        let p = s.drop_last();
        assert(keys_unique(p)) by {
            assert forall|i: int, j: int| 0 <= i < j < p.len() implies (#[trigger] p[i]).0@ != (
            #[trigger] p[j]).0@ by {
                assert(p[i] == s[i] && p[j] == s[j]);
            }
        }
        lemma_clients_map(p);
        let x = s.last();
        let m = clients_map(s);
        assert(!clients_map(p).contains_key(x.0@)) by {
            if clients_map(p).contains_key(x.0@) {
                let i = choose|i: int| 0 <= i < p.len() && (#[trigger] p[i]).0@ == x.0@;
                assert(s[i] == p[i]);
                assert(s[s.len() - 1] == x);
            }
        }
        assert forall|k: Seq<char>| #[trigger]
            m.contains_key(k) <==> exists|i: int| 0 <= i < s.len() && (#[trigger] s[i]).0@ == k by {
            if m.contains_key(k) {
                if k == x.0@ {
                    assert(s[s.len() - 1].0@ == k);
                } else {
                    let i = choose|i: int| 0 <= i < p.len() && (#[trigger] p[i]).0@ == k;
                    assert(s[i] == p[i]);
                }
            }
            if exists|i: int| 0 <= i < s.len() && (#[trigger] s[i]).0@ == k {
                let i = choose|i: int| 0 <= i < s.len() && (#[trigger] s[i]).0@ == k;
                if i < s.len() - 1 {
                    assert(p[i] == s[i]);
                }
            }
        }
        assert forall|i: int| 0 <= i < s.len() implies #[trigger] m[s[i].0@] == (s[i].1@, s[i].2) by {
            if i < s.len() - 1 {
                assert(p[i] == s[i]);
                assert(s[i].0@ != x.0@);
            }
        }
    }
}

proof fn lemma_clients_map_remove<T>(s: Seq<ClientEntry<T>>, i: int)
    requires
        keys_unique(s),
        0 <= i < s.len(),
    ensures
        keys_unique(s.remove(i)),
        clients_map(s.remove(i)) == clients_map(s).remove(s[i].0@),
{
    let r = s.remove(i);
    assert(keys_unique(r)) by {
        assert forall|a: int, b: int| 0 <= a < b < r.len() implies (#[trigger] r[a]).0@ != (
        #[trigger] r[b]).0@ by {
            let a2 = if a < i { a } else { a + 1 };
            let b2 = if b < i { b } else { b + 1 };
            assert(r[a] == s[a2] && r[b] == s[b2]);
        }
    }
    lemma_clients_map(s);
    lemma_clients_map(r);
    let k0 = s[i].0@;
    assert forall|k: Seq<char>| clients_map(r).contains_key(k) <==> clients_map(s).remove(
        k0,
    ).contains_key(k) by {
        if clients_map(r).contains_key(k) {
            let a = choose|a: int| 0 <= a < r.len() && (#[trigger] r[a]).0@ == k;
            let a2 = if a < i { a } else { a + 1 };
            assert(r[a] == s[a2]);
        }
        if clients_map(s).remove(k0).contains_key(k) {
            let a = choose|a: int| 0 <= a < s.len() && (#[trigger] s[a]).0@ == k;
            assert(a != i);
            let a2 = if a < i { a } else { a - 1 };
            assert(r[a2] == s[a]);
        }
    }
    assert forall|k: Seq<char>| #[trigger]
        clients_map(r).contains_key(k) implies clients_map(r)[k] == clients_map(s).remove(k0)[k] by {
        let a = choose|a: int| 0 <= a < r.len() && (#[trigger] r[a]).0@ == k;
        let a2 = if a < i { a } else { a + 1 };
        assert(r[a] == s[a2]);
        assert(clients_map(r)[r[a].0@] == (r[a].1@, r[a].2));
        assert(clients_map(s)[s[a2].0@] == (s[a2].1@, s[a2].2));
    }
    assert(clients_map(r) =~= clients_map(s).remove(k0));
}

/// The OneBot clients connected now.
pub struct ClientRegistry<T> {
    items: Vec<ClientEntry<T>>,
}

impl<T> View for ClientRegistry<T> {
    type V = Map<Seq<char>, (Seq<char>, T)>;

    open spec fn view(&self) -> Map<Seq<char>, (Seq<char>, T)> {
        clients_map(self.entries())
    }
}

impl<T> ClientRegistry<T> {
    pub closed spec fn entries(&self) -> Seq<ClientEntry<T>> {
        self.items@
    }

    #[verifier::type_invariant]
    closed spec fn wf(self) -> bool {
        keys_unique(self.items@)
    }

    /// No clients.
    pub fn new() -> (r: ClientRegistry<T>)
        ensures
            r@ == Map::<Seq<char>, (Seq<char>, T)>::empty(),
    {
        ClientRegistry { items: Vec::new() }
    }

    fn position(&self, key: &str) -> (r: Option<usize>)
        ensures
            match r {
                Some(i) => i < self.items@.len() && self.items@[i as int].0@ == key@,
                None => !self@.contains_key(key@),
            },
    {
        proof {
            use_type_invariant(self);
            lemma_clients_map(self.items@);
        }
        let mut i: usize = 0;
        while i < self.items.len()
            invariant
                i <= self.items@.len(),
                forall|j: int| 0 <= j < i ==> (#[trigger] self.items@[j]).0@ != key@,
            decreases self.items@.len() - i,
        {
            if str_eq(self.items[i].0.as_str(), key) {
                return Some(i);
            }
            i = i + 1;
        }
        None
    }

    /// How many clients are connected.
    pub fn len(&self) -> (r: usize)
        ensures
            r == self@.len(),
    {
        proof {
            use_type_invariant(self);
            lemma_clients_map(self.items@);
        }
        self.items.len()
    }

    /// Whether connection `owner` still owns the entry under `key`.
    pub fn is_owner(&self, key: &str, owner: &str) -> (r: bool)
        ensures
            r == (self@.contains_key(key@) && self@[key@].0 == owner@),
    {
        proof {
            use_type_invariant(self);
            lemma_clients_map(self.items@);
        }
        match self.position(key) {
            Some(i) => str_eq(self.items[i].1.as_str(), owner),
            None => false,
        }
    }

    /// Registers the client `key`, owned by connection `owner` and reached
    /// through `sender`; an older entry under the same key is replaced.
    pub fn register(&mut self, key: String, owner: String, sender: T)
        ensures
            final(self)@ == old(self)@.insert(key@, (owner@, sender)),
    {
        proof {
            use_type_invariant(&*self);
        }
        let pos = self.position(key.as_str());
        let mut items: Vec<ClientEntry<T>> = Vec::new();
        std::mem::swap(&mut items, &mut self.items);
        let ghost s0 = items@;
        let ghost m0 = clients_map(s0);
        proof {
            lemma_clients_map(s0);
        }
        match pos {
            Some(i) => {
                proof {
                    lemma_clients_map_remove(s0, i as int);
                }
                items.remove(i);
            },
            None => {
                assert(m0.remove(key@) =~= m0);
            },
        }
        let ghost s1 = items@;
        assert(keys_unique(s1));
        assert(clients_map(s1) == m0.remove(key@));
        proof {
            lemma_clients_map(s1);
        }
        let ghost k = key@;
        let ghost o = owner@;
        items.push((key, owner, sender));
        assert(items@.drop_last() =~= s1);
        assert(keys_unique(items@)) by {
            assert forall|a: int, b: int| 0 <= a < b < items@.len() implies (
            #[trigger] items@[a]).0@ != (#[trigger] items@[b]).0@ by {
                if b == items@.len() - 1 {
                    assert(items@[a] == s1[a]);
                    assert(clients_map(s1).contains_key(s1[a].0@));
                } else {
                    assert(items@[a] == s1[a] && items@[b] == s1[b]);
                }
            }
        }
        assert(clients_map(items@) =~= m0.insert(k, (o, sender)));
        self.items = items;
    }

    /// Removes the client `key`, whoever owns it.
    pub fn unregister(&mut self, key: &str)
        ensures
            final(self)@ == old(self)@.remove(key@),
    {
        proof {
            use_type_invariant(&*self);
        }
        match self.position(key) {
            Some(i) => {
                let mut items: Vec<ClientEntry<T>> = Vec::new();
                std::mem::swap(&mut items, &mut self.items);
                proof {
                    lemma_clients_map_remove(items@, i as int);
                }
                items.remove(i);
                self.items = items;
            },
            None => {
                assert(old(self)@.remove(key@) =~= old(self)@);
            },
        }
    }

    /// Removes the client `key` if connection `owner` still owns it.
    pub fn remove_if_owner(&mut self, key: &str, owner: &str)
        ensures
            final(self)@ == removed_if_owner(old(self)@, key@, owner@),
    {
        if self.is_owner(key, owner) {
            self.unregister(key);
        }
    }

    /// The senders of all connected clients, one for each.
    pub fn senders(&self) -> (r: Vec<&T>)
        ensures
            r@.len() == self@.len(),
            forall|k: Seq<char>|
                #[trigger] self@.contains_key(k) ==> exists|i: int|
                    0 <= i < r@.len() && r@[i] == self@[k].1,
            forall|i: int|
                #![trigger r@[i]]
                0 <= i < r@.len() ==> exists|k: Seq<char>|
                    #[trigger] self@.contains_key(k) && self@[k].1 == r@[i],
    {
        proof {
            use_type_invariant(self);
            lemma_clients_map(self.items@);
        }
        let mut out: Vec<&T> = Vec::new();
        let mut i: usize = 0;
        while i < self.items.len()
            invariant
                i <= self.items@.len(),
                out@.len() == i,
                forall|j: int| 0 <= j < i ==> out@[j] == (#[trigger] self.items@[j]).2,
            decreases self.items@.len() - i,
        {
            out.push(&self.items[i].2);
            i = i + 1;
        }
        proof {
            let s = self.items@;
            assert forall|k: Seq<char>| #[trigger] self@.contains_key(k) implies exists|i: int|
                0 <= i < out@.len() && out@[i] == self@[k].1 by {
                let j = choose|j: int| 0 <= j < s.len() && (#[trigger] s[j]).0@ == k;
                assert(out@[j] == s[j].2);
                assert(self@[s[j].0@] == (s[j].1@, s[j].2));
            }
            assert forall|j: int| #![trigger out@[j]] 0 <= j < out@.len() implies exists|k: Seq<char>|
                #[trigger] self@.contains_key(k) && self@[k].1 == out@[j] by {
                assert(self@[s[j].0@] == (s[j].1@, s[j].2));
                assert(self@.contains_key(s[j].0@));
            }
        }
        out
    }
}

/// A connection that ends removes the entry it registered: registering
/// `key` for `owner` and then removing it if `owner` owns it leaves the
/// clients without `key`.
pub proof fn law_owner_removes_own<T>(
    m: Map<Seq<char>, (Seq<char>, T)>,
    key: Seq<char>,
    owner: Seq<char>,
    sender: T,
)
    ensures
        removed_if_owner(m.insert(key, (owner, sender)), key, owner) == m.remove(key),
{
    assert(m.insert(key, (owner, sender)).remove(key) =~= m.remove(key));
}

/// A connection that ends never removes a newer connection under the same
/// key: after `newer` registers `key` over `older`, the older one's
/// cleanup leaves the clients as they are.
pub proof fn law_newer_connection_survives<T>(
    m: Map<Seq<char>, (Seq<char>, T)>,
    key: Seq<char>,
    older: Seq<char>,
    older_sender: T,
    newer: Seq<char>,
    newer_sender: T,
)
    requires
        older != newer,
    ensures
        removed_if_owner(
            m.insert(key, (older, older_sender)).insert(key, (newer, newer_sender)),
            key,
            older,
        ) == m.insert(key, (older, older_sender)).insert(key, (newer, newer_sender)),
{
}

/// Cleaning up one key leaves every other client as it was.
pub proof fn law_cleanup_keeps_others<T>(
    m: Map<Seq<char>, (Seq<char>, T)>,
    key: Seq<char>,
    owner: Seq<char>,
    other: Seq<char>,
)
    requires
        other != key,
    ensures
        removed_if_owner(m, key, owner).contains_key(other) == m.contains_key(other),
        m.contains_key(other) ==> removed_if_owner(m, key, owner)[other] == m[other],
{
}

} // verus!
