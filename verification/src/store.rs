//! The shared resource store: an in-memory, insertion-ordered
//! collection of channels with create/read/update/delete operations.
//!
//! The store's invariant is that every held channel has a well-formed
//! name and that no two channels share an id. Lookup is by id alone; a
//! read hands out an independent snapshot of the entity, never a
//! reference into the store.

use vstd::prelude::*;
use crate::channel::{Channel, ChannelId, ChannelName, random_id_value};
use crate::channel::{valid_name, name_len_ok, length_error_text, whitespace_error_text};

verus! {

/// Whether some channel in `s` carries `id`.
pub open spec fn has_id(s: Seq<Channel>, id: ChannelId) -> bool {
    exists|i: int| 0 <= i < s.len() && s[i].spec_id() == id
}

/// The index of the channel carrying `id`; meaningful only when
/// [`has_id`] holds, and unique under [`distinct_ids`].
pub open spec fn index_of_id(s: Seq<Channel>, id: ChannelId) -> int {
    choose|i: int| 0 <= i < s.len() && s[i].spec_id() == id
}

/// No two channels in `s` share an id.
pub open spec fn distinct_ids(s: Seq<Channel>) -> bool {
    forall|i: int, j: int|
        0 <= i < j < s.len() ==> s[i].spec_id() != s[j].spec_id()
}

/// Every channel in `s` is well formed.
pub open spec fn all_wf(s: Seq<Channel>) -> bool {
    forall|i: int| 0 <= i < s.len() ==> s[i].wf()
}

/// Under [`distinct_ids`], an index holding `id` is the index
/// [`index_of_id`] names.
pub proof fn lemma_index_of_id_unique(s: Seq<Channel>, id: ChannelId, i: int)
    requires
        distinct_ids(s),
        0 <= i < s.len(),
        s[i].spec_id() == id,
    ensures
        has_id(s, id),
        index_of_id(s, id) == i,
{
    assert(has_id(s, id));
    let j = index_of_id(s, id);
    assert(0 <= j < s.len() && s[j].spec_id() == id);
    if i < j {
        assert(s[i].spec_id() != s[j].spec_id());
    } else if j < i {
        assert(s[j].spec_id() != s[i].spec_id());
    }
}

/// Create→GetById round trip: a channel appended under an id no
/// existing channel carries is afterwards found by that id, and the
/// entity found is exactly the one whose snapshot creation returned.
pub proof fn lemma_create_then_get(s: Seq<Channel>, c: Channel)
    requires
        distinct_ids(s),
        !has_id(s, c.spec_id()),
    ensures
        has_id(s.push(c), c.spec_id()),
        s.push(c)[index_of_id(s.push(c), c.spec_id())] == c,
{
    let t = s.push(c);
    assert forall|i: int, j: int| 0 <= i < j < t.len() implies t[i].spec_id()
        != t[j].spec_id() by {
        if j < t.len() - 1 {
            assert(s[i].spec_id() != s[j].spec_id());
        } else {
            assert(!has_id(s, c.spec_id()));
        }
    }
    assert(t[s.len() as int] == c);
    lemma_index_of_id_unique(t, c.spec_id(), s.len() as int);
}

/// Idempotence of delete in outcome: removing the channel that carries
/// an id leaves a collection in which no channel carries it, so a
/// second delete of the same id must report absence.
pub proof fn lemma_delete_twice(s: Seq<Channel>, id: ChannelId)
    requires
        distinct_ids(s),
        has_id(s, id),
    ensures
        !has_id(s.remove(index_of_id(s, id)), id),
{
    let i = index_of_id(s, id);
    assert(0 <= i < s.len() && s[i].spec_id() == id);
    let t = s.remove(i);
    assert forall|p: int| 0 <= p < t.len() implies t[p].spec_id() != id by {
        let p0 = if p < i { p } else { p + 1 };
        assert(t[p] == s[p0]);
        if p0 < i {
            assert(s[p0].spec_id() != s[i].spec_id());
        } else {
            assert(s[i].spec_id() != s[p0].spec_id());
        }
    }
}

/// One create at a time: appending a channel whose id no existing
/// channel carries grows the collection by exactly one and keeps all
/// ids pairwise distinct, so any number of creates, serialized by the
/// store's exclusive access, yields as many channels as creates and no
/// two with the same id.
pub proof fn lemma_create_keeps_ids_distinct(s: Seq<Channel>, c: Channel)
    requires
        distinct_ids(s),
        !has_id(s, c.spec_id()),
    ensures
        distinct_ids(s.push(c)),
        s.push(c).len() == s.len() + 1,
{
    let t = s.push(c);
    assert forall|i: int, j: int| 0 <= i < j < t.len() implies t[i].spec_id()
        != t[j].spec_id() by {
        if j < t.len() - 1 {
            assert(s[i].spec_id() != s[j].spec_id());
        } else {
            assert(!has_id(s, c.spec_id()));
        }
    }
}

/// The outcomes on which a store operation can decline to act: the
/// supplied name broke the value-object rule, or no channel carries the
/// addressed id.
#[derive(Debug)]
pub enum ChannelError {
    Validation(&'static str),
    NotFound,
}

/// The boundary-facing snapshot of a channel: its id, name and active
/// flag as plain values, independent of the stored entity.
#[derive(Debug)]
pub struct ChannelShared {
    pub id: ChannelId,
    pub name: String,
    pub is_active: bool,
}

/// `r` shows exactly the observable state of `c`.
pub open spec fn rep_matches(r: ChannelShared, c: Channel) -> bool {
    &&& r.id == c.spec_id()
    &&& r.name@ == c.spec_name()
    &&& r.is_active == c.spec_active()
}

impl ChannelShared {
    /// Snapshots `channel` into its external representation.
    pub fn from(channel: &Channel) -> (r: Self)
        ensures
            rep_matches(r, *channel),
    {
        ChannelShared {
            id: channel.id(),
            name: channel.name().as_str().to_owned(),
            is_active: channel.is_active(),
        }
    }
}

impl Clone for ChannelShared {
    fn clone(&self) -> (r: Self)
        ensures
            r == *self,
    {
        ChannelShared { id: self.id, name: self.name.clone(), is_active: self.is_active }
    }
}

/// The in-memory channel collection, in insertion order.
pub struct ChannelStore {
    channels: Vec<Channel>,
}

impl View for ChannelStore {
    type V = Seq<Channel>;

    closed spec fn view(&self) -> Seq<Channel> {
        self.channels@
    }
}

impl ChannelStore {
    /// The store's invariant: pairwise-distinct ids, well-formed
    /// entities.
    pub open spec fn wf(&self) -> bool {
        distinct_ids(self@) && all_wf(self@)
    }

    /// An empty store.
    pub fn new() -> (s: Self)
        ensures
            s@ == Seq::<Channel>::empty(),
            s.wf(),
    {
        ChannelStore { channels: Vec::new() }
    }

    /// The number of stored channels.
    pub fn len(&self) -> (n: usize)
        ensures
            n == self@.len(),
    {
        self.channels.len()
    }

    /// Whether some stored channel carries `id`.
    fn contains_id(&self, id: ChannelId) -> (r: bool)
        ensures
            r == has_id(self@, id),
    {
        let n: usize = self.channels.len();
        let mut i: usize = 0;
        while i < n
            invariant
                n == self@.len(),
                i <= n,
                forall|j: int| 0 <= j < i ==> self@[j].spec_id() != id,
            decreases n - i,
        {
            if self.channels[i].id() == id {
                return true;
            }
            i += 1;
        }
        false
    }

    /// Some id in `0 ..= s.len()` is carried by no channel: there are
    /// more candidates than channels.
    proof fn lemma_some_id_is_free(s: Seq<Channel>)
        requires
            s.len() <= u128::MAX,
        ensures
            exists|k: u128| k <= s.len() && !(#[trigger] has_id(s, ChannelId(k))),
    {
        if !(exists|k: u128| k <= s.len() && !(#[trigger] has_id(s, ChannelId(k)))) {
            let ints = s.map_values(|c: Channel| c.spec_id().0 as int);
            let range = vstd::set_lib::set_int_range(0, s.len() + 1 as int);
            assert forall|k: int| range.contains(k) implies ints.to_set().contains(k) by {
                assert(has_id(s, ChannelId(k as u128)));
                let i = choose|i: int| 0 <= i < s.len() && s[i].spec_id() == ChannelId(
                    k as u128,
                );
                assert(ints[i] == k);
                assert(ints.contains(k));
            }
            assert(range.subset_of(ints.to_set()));
            ints.lemma_cardinality_of_set();
            vstd::seq_lib::seq_to_set_is_finite(ints);
            vstd::set_lib::lemma_int_range(0, s.len() + 1 as int);
            vstd::set_lib::lemma_len_subset(range, ints.to_set());
            assert(s.len() + 1 <= s.len());
        }
    }

    /// An id no stored channel carries: the smallest unused candidate.
    fn first_free_id(&self) -> (r: ChannelId)
        ensures
            !has_id(self@, r),
    {
        let n: usize = self.channels.len();
        let mut k: u128 = 0;
        loop
            invariant
                n == self@.len(),
                k as int <= n as int,
                forall|j: u128| j < k ==> #[trigger] has_id(self@, ChannelId(j)),
            ensures
                !has_id(self@, ChannelId(k)),
            decreases n as int + 1 - k as int,
        {
            if !self.contains_id(ChannelId(k)) {
                break;
            }
            proof {
                Self::lemma_some_id_is_free(self@);
                let f = choose|f: u128| f <= self@.len() && !(#[trigger] has_id(self@, ChannelId(f)));
                if f <= k {
                    assert(has_id(self@, ChannelId(f)));
                }
            }
            k = k + 1;
        }
        ChannelId(k)
    }

    /// Validates `raw_name` and, on success, appends a new active
    /// channel under a freshly chosen id that no stored channel
    /// carries, returning its snapshot; on failure the store is left
    /// unchanged and the violated rule is reported.
    pub fn create(&mut self, raw_name: String) -> (r: Result<ChannelShared, ChannelError>)
        requires
            old(self).wf(),
        ensures
            final(self).wf(),
            r is Ok <==> valid_name(raw_name@),
            r matches Err(e) ==> final(self)@ == old(self)@ && (e matches
                ChannelError::Validation(m) && m@ == (if !name_len_ok(raw_name@) {
                length_error_text()
            } else {
                whitespace_error_text()
            })),
            r matches Ok(rep) ==> {
                &&& rep.name@ == raw_name@
                &&& rep.is_active
                &&& !has_id(old(self)@, rep.id)
                &&& final(self)@ == old(self)@.push(final(self)@.last())
                &&& final(self)@.len() == old(self)@.len() + 1
                &&& rep_matches(rep, final(self)@.last())
            },
    {
        let name = match ChannelName::new(raw_name) {
            Ok(n) => n,
            Err(m) => {
                return Err(ChannelError::Validation(m));
            },
        };
        let cand = ChannelId(random_id_value());
        let id = if self.contains_id(cand) {
            self.first_free_id()
        } else {
            cand
        };
        let channel = Channel::with_id(id, name);
        let rep = ChannelShared::from(&channel);
        self.channels.push(channel);
        proof {
            assert(self@.last() == channel);
            assert(self@ =~= old(self)@.push(channel));
            assert forall|i: int, j: int|
                0 <= i < j < self@.len() implies self@[i].spec_id() != self@[j].spec_id() by {
                if j < self@.len() - 1 {
                    assert(old(self)@[i].spec_id() != old(self)@[j].spec_id());
                } else {
                    assert(!has_id(old(self)@, channel.spec_id()));
                }
            }
        }
        Ok(rep)
    }

    /// Snapshots the channel carrying `id`, or reports that no channel
    /// does.
    pub fn get_by_id(&self, id: ChannelId) -> (r: Result<ChannelShared, ChannelError>)
        requires
            self.wf(),
        ensures
            r is Ok <==> has_id(self@, id),
            r matches Ok(rep) ==> rep.id == id && rep_matches(
                rep,
                self@[index_of_id(self@, id)],
            ),
            r matches Err(e) ==> e is NotFound,
    {
        let n: usize = self.channels.len();
        let mut i: usize = 0;
        while i < n
            invariant
                self.wf(),
                n == self@.len(),
                i <= n,
                forall|j: int| 0 <= j < i ==> self@[j].spec_id() != id,
            decreases n - i,
        {
            if self.channels[i].id() == id {
                proof {
                    lemma_index_of_id_unique(self@, id, i as int);
                }
                return Ok(ChannelShared::from(&self.channels[i]));
            }
            i += 1;
        }
        Err(ChannelError::NotFound)
    }

    /// Locates the channel carrying `id` (absence is reported first),
    /// validates `raw_name`, and on success renames the channel in
    /// place, returning its updated snapshot; on failure the store is
    /// left unchanged.
    pub fn update_by_id(&mut self, id: ChannelId, raw_name: String) -> (r: Result<
        ChannelShared,
        ChannelError,
    >)
        requires
            old(self).wf(),
        ensures
            final(self).wf(),
            r is Ok <==> has_id(old(self)@, id) && valid_name(raw_name@),
            !has_id(old(self)@, id) ==> (r matches Err(e) && e is NotFound && final(self)@
                == old(self)@),
            has_id(old(self)@, id) && !valid_name(raw_name@) ==> (r matches Err(e) && (e matches
                ChannelError::Validation(m) && m@ == (if !name_len_ok(raw_name@) {
                length_error_text()
            } else {
                whitespace_error_text()
            })) && final(self)@ == old(self)@),
            r matches Ok(rep) ==> ({
                let i = index_of_id(old(self)@, id);
                &&& final(self)@ == old(self)@.update(i, final(self)@[i])
                &&& final(self)@[i].spec_id() == id
                &&& final(self)@[i].spec_name() == raw_name@
                &&& final(self)@[i].spec_active() == old(self)@[i].spec_active()
                &&& rep_matches(rep, final(self)@[i])
            }),
    {
        let n: usize = self.channels.len();
        let mut i: usize = 0;
        while i < n
            invariant
                self.wf(),
                self@ == old(self)@,
                n == self@.len(),
                i <= n,
                forall|j: int| 0 <= j < i ==> self@[j].spec_id() != id,
            decreases n - i,
        {
            if self.channels[i].id() == id {
                proof {
                    lemma_index_of_id_unique(self@, id, i as int);
                }
                let name = match ChannelName::new(raw_name) {
                    Ok(nm) => nm,
                    Err(m) => {
                        return Err(ChannelError::Validation(m));
                    },
                };
                let channel = &mut self.channels[i];
                channel.rename(name);
                let rep = ChannelShared::from(&self.channels[i]);
                proof {
                    assert forall|p: int, q: int|
                        0 <= p < q < self@.len() implies self@[p].spec_id()
                        != self@[q].spec_id() by {
                        assert(old(self)@[p].spec_id() != old(self)@[q].spec_id());
                    }
                }
                return Ok(rep);
            }
            i += 1;
        }
        Err(ChannelError::NotFound)
    }

    /// Removes the channel carrying `id`, reporting whether a removal
    /// occurred; afterwards no stored channel carries `id`.
    pub fn delete_by_id(&mut self, id: ChannelId) -> (r: Result<(), ChannelError>)
        requires
            old(self).wf(),
        ensures
            final(self).wf(),
            r is Ok <==> has_id(old(self)@, id),
            r matches Err(e) ==> e is NotFound && final(self)@ == old(self)@,
            r is Ok ==> final(self)@ == old(self)@.remove(index_of_id(old(self)@, id)),
            !has_id(final(self)@, id),
    {
        let n: usize = self.channels.len();
        let mut i: usize = 0;
        while i < n
            invariant
                self.wf(),
                self@ == old(self)@,
                n == self@.len(),
                i <= n,
                forall|j: int| 0 <= j < i ==> self@[j].spec_id() != id,
            decreases n - i,
        {
            if self.channels[i].id() == id {
                proof {
                    lemma_index_of_id_unique(self@, id, i as int);
                }
                self.channels.remove(i);
                proof {
                    assert forall|p: int, q: int|
                        0 <= p < q < self@.len() implies self@[p].spec_id()
                        != self@[q].spec_id() by {
                        let p0 = if p < i as int { p } else { p + 1 };
                        let q0 = if q < i as int { q } else { q + 1 };
                        assert(old(self)@[p0].spec_id() != old(self)@[q0].spec_id());
                    }
                    assert forall|p: int| 0 <= p < self@.len() implies self@[p].spec_id()
                        != id by {
                        let p0 = if p < i as int { p } else { p + 1 };
                        if p0 != i as int {
                            if p0 < i as int {
                                assert(old(self)@[p0].spec_id() != old(self)@[i as int].spec_id());
                            } else {
                                assert(old(self)@[i as int].spec_id() != old(self)@[p0].spec_id());
                            }
                        }
                    }
                }
                return Ok(());
            }
            i += 1;
        }
        Err(ChannelError::NotFound)
    }

    /// Snapshots every stored channel, in storage order.
    pub fn list_all(&self) -> (r: Vec<ChannelShared>)
        ensures
            r@.len() == self@.len(),
            forall|i: int| 0 <= i < self@.len() ==> rep_matches(r@[i], self@[i]),
    {
        let n: usize = self.channels.len();
        let mut out: Vec<ChannelShared> = Vec::new();
        let mut i: usize = 0;
        while i < n
            invariant
                n == self@.len(),
                i <= n,
                out@.len() == i,
                forall|j: int| 0 <= j < i ==> rep_matches(out@[j], self@[j]),
            decreases n - i,
        {
            out.push(ChannelShared::from(&self.channels[i]));
            i += 1;
        }
        out
    }
}

} // verus!
