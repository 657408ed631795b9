//! The event-dispatch registry: a mapping from event-name strings to
//! handlers, with dynamic registration and lookup-by-name.
//!
//! The registry is generic in the handler value it stores, so any
//! handler shape — in particular a boxed asynchronous callback taking a
//! byte payload — can be held in one uniform map. Registering a name
//! twice silently replaces the earlier handler (last registration
//! wins). Looking up a name nobody registered is not an error: it
//! yields nothing, and the caller treats the dispatch as a logged
//! no-op.

use vstd::prelude::*;

verus! {

/// Whether some entry of `s` carries the key `k`.
pub open spec fn has_key<H>(s: Seq<(String, H)>, k: Seq<char>) -> bool {
    exists|i: int| 0 <= i < s.len() && s[i].0@ == k
}

/// The index of the entry carrying `k`; meaningful only when
/// [`has_key`] holds, and unique under [`distinct_keys`].
pub open spec fn index_of_key<H>(s: Seq<(String, H)>, k: Seq<char>) -> int {
    choose|i: int| 0 <= i < s.len() && s[i].0@ == k
}

/// No two entries of `s` carry the same key.
pub open spec fn distinct_keys<H>(s: Seq<(String, H)>) -> bool {
    forall|i: int, j: int| 0 <= i < j < s.len() ==> s[i].0@ != s[j].0@
}

/// The mapping an entry sequence stands for: each held key to the
/// handler stored beside it.
pub open spec fn map_of<H>(s: Seq<(String, H)>) -> Map<Seq<char>, H> {
    Map::new(|k: Seq<char>| has_key(s, k), |k: Seq<char>| s[index_of_key(s, k)].1)
}

/// Under [`distinct_keys`], an index holding `k` is the index
/// [`index_of_key`] names, so the mapping reads the handler at that
/// index.
proof fn lemma_index_of_key_unique<H>(s: Seq<(String, H)>, k: Seq<char>, i: int)
    requires
        distinct_keys(s),
        0 <= i < s.len(),
        s[i].0@ == k,
    ensures
        has_key(s, k),
        index_of_key(s, k) == i,
        map_of(s).contains_key(k),
        map_of(s)[k] == s[i].1,
{
    assert(has_key(s, k));
    let j = index_of_key(s, k);
    assert(0 <= j < s.len() && s[j].0@ == k);
    if i < j {
        assert(s[i].0@ != s[j].0@);
    } else if j < i {
        assert(s[j].0@ != s[i].0@);
    }
}

/// The registry mapping event names to handlers.
pub struct MessageDispatcher<H> {
    handlers: Vec<(String, H)>,
}

impl<H> View for MessageDispatcher<H> {
    type V = Map<Seq<char>, H>;

    closed spec fn view(&self) -> Map<Seq<char>, H> {
        map_of(self.handlers@)
    }
}

impl<H> MessageDispatcher<H> {
    /// The registry's invariant: entry keys are pairwise distinct, so
    /// each event name owns at most one handler.
    pub closed spec fn wf(&self) -> bool {
        distinct_keys(self.handlers@)
    }

    /// An empty registry.
    pub fn new() -> (d: Self)
        ensures
            d.wf(),
            d@ == Map::<Seq<char>, H>::empty(),
    {
        let d = MessageDispatcher { handlers: Vec::new() };
        proof {
            assert(d@ =~= Map::<Seq<char>, H>::empty());
        }
        d
    }

    /// Associates `event_name` with `handler`. A handler already held
    /// under that name is silently replaced: the latest registration
    /// wins. Registration never fails.
    pub fn register(&mut self, event_name: &str, handler: H)
        requires
            old(self).wf(),
        ensures
            final(self).wf(),
            final(self)@ == old(self)@.insert(event_name@, handler),
    {
        let owned_name: String = event_name.to_owned();
        let ghost s0 = self.handlers@;
        let n: usize = self.handlers.len();
        let mut i: usize = 0;
        while i < n
            invariant
                self.wf(),
                self.handlers@ == s0,
                old(self).handlers@ == s0,
                owned_name@ == event_name@,
                n == s0.len(),
                i <= n,
                forall|j: int| 0 <= j < i ==> s0[j].0@ != event_name@,
            decreases n - i,
        {
            if self.handlers[i].0 == owned_name {
                let entry = &mut self.handlers[i];
                entry.1 = handler;
                proof {
                    let s1 = self.handlers@;
                    assert(s1 == s0.update(i as int, (s0[i as int].0, handler)));
                    assert forall|p: int, q: int| 0 <= p < q < s1.len() implies s1[p].0@
                        != s1[q].0@ by {
                        assert(s0[p].0@ != s0[q].0@);
                    }
                    assert forall|k: Seq<char>| true implies #[trigger] has_key(s1, k)
                        == has_key(s0, k) by {
                        if has_key(s0, k) {
                            let w = index_of_key(s0, k);
                            assert(s1[w].0@ == k);
                        }
                        if has_key(s1, k) {
                            let w = index_of_key(s1, k);
                            assert(s0[w].0@ == k);
                        }
                    }
                    lemma_index_of_key_unique(s0, event_name@, i as int);
                    assert forall|k: Seq<char>| has_key(s1, k) implies map_of(s1)[k]
                        == old(self)@.insert(event_name@, handler)[k] by {
                        if k == event_name@ {
                            lemma_index_of_key_unique(s1, k, i as int);
                        } else {
                            let w = index_of_key(s1, k);
                            lemma_index_of_key_unique(s1, k, w);
                            assert(w != i as int);
                            assert(s0[w].0@ == k);
                            lemma_index_of_key_unique(s0, k, w);
                        }
                    }
                    assert(self@ =~= old(self)@.insert(event_name@, handler));
                }
                return;
            }
            i += 1;
        }
        self.handlers.push((owned_name, handler));
        proof {
            let s1 = self.handlers@;
            assert(s1 == s0.push((owned_name, handler)));
            assert(s1[s0.len() as int].0@ == event_name@);
            assert forall|p: int, q: int| 0 <= p < q < s1.len() implies s1[p].0@
                != s1[q].0@ by {
                if q < s1.len() - 1 {
                    assert(s0[p].0@ != s0[q].0@);
                } else {
                    assert(s0[p].0@ != event_name@);
                }
            }
            assert forall|k: Seq<char>| has_key(s1, k) implies map_of(s1)[k]
                == old(self)@.insert(event_name@, handler)[k] && (has_key(s0, k) || k
                == event_name@) by {
                let w = index_of_key(s1, k);
                lemma_index_of_key_unique(s1, k, w);
                if k == event_name@ {
                    lemma_index_of_key_unique(s1, k, s0.len() as int);
                } else {
                    assert(w != s0.len() as int);
                    assert(s0[w].0@ == k);
                    lemma_index_of_key_unique(s0, k, w);
                }
            }
            assert forall|k: Seq<char>| has_key(s0, k) implies has_key(s1, k) by {
                let w = index_of_key(s0, k);
                assert(s1[w].0@ == k);
            }
            assert(self@ =~= old(self)@.insert(event_name@, handler));
        }
    }

    /// The handler registered for `event_name`, if any: the decision
    /// half of dispatch. `None` — no handler was ever registered for
    /// that name — is a deliberate no-op signal, never an error.
    pub fn handler_for(&self, event_name: &str) -> (r: Option<&H>)
        requires
            self.wf(),
        ensures
            r is Some <==> self@.contains_key(event_name@),
            r matches Some(h) ==> *h == self@[event_name@],
    {
        let owned_name: String = event_name.to_owned();
        let n: usize = self.handlers.len();
        let mut i: usize = 0;
        while i < n
            invariant
                self.wf(),
                owned_name@ == event_name@,
                n == self.handlers@.len(),
                i <= n,
                forall|j: int| 0 <= j < i ==> self.handlers@[j].0@ != event_name@,
            decreases n - i,
        {
            if self.handlers[i].0 == owned_name {
                proof {
                    lemma_index_of_key_unique(self.handlers@, event_name@, i as int);
                }
                return Some(&self.handlers[i].1);
            }
            i += 1;
        }
        proof {
            assert(!has_key(self.handlers@, event_name@));
        }
        None
    }
}

/// Last registration wins: however a registry mapping was built,
/// registering `h1` and then `h2` for the same name leaves the name
/// mapped to `h2`, and dispatch consults nothing but that mapping.
pub proof fn lemma_register_last_wins<H>(m: Map<Seq<char>, H>, k: Seq<char>, h1: H, h2: H)
    ensures
        m.insert(k, h1).insert(k, h2).contains_key(k),
        m.insert(k, h1).insert(k, h2)[k] == h2,
{
}

} // verus!
