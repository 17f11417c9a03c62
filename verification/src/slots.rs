//! Per-client counts of open connections, bounded by each client's
//! `max_conn` when the server enforces connection limits.
use vstd::prelude::*;
use crate::text::{chars_of, eq, owned};

verus! {

/// Open connections per client key.
pub struct ConnSlots {
    entries: Vec<(String, usize)>,
}

/// The counts as key/count pairs, keys distinct.
pub type SlotsView = Seq<(Seq<char>, usize)>;

pub open spec fn slots_view(e: Seq<(String, usize)>) -> SlotsView {
    Seq::new(e.len(), |i: int| (e[i].0@, e[i].1))
}

/// The open connections of a client.
pub open spec fn spec_count(v: SlotsView, key: Seq<char>) -> nat
    decreases v.len(),
{
    if v.len() == 0 {
        0
    } else if v.last().0 == key {
        v.last().1 as nat
    } else {
        spec_count(v.drop_last(), key)
    }
}

/// No key occurs twice.
pub open spec fn slot_keys_distinct(v: SlotsView) -> bool {
    forall|i: int, j: int| 0 <= i < j < v.len() ==> v[i].0 != v[j].0
}

impl View for ConnSlots {
    type V = SlotsView;

    closed spec fn view(&self) -> SlotsView {
        slots_view(self.entries@)
    }
}

/// A connection beyond the client's `max_conn`.
#[derive(PartialEq, Eq, Structural, Clone, Copy, Debug)]
pub enum SlotError {
    LimitReached,
}

proof fn lemma_count_at(v: SlotsView, key: Seq<char>, i: int)
    requires
        slot_keys_distinct(v),
        0 <= i < v.len(),
        v[i].0 == key,
    ensures
        spec_count(v, key) == v[i].1 as nat,
    decreases v.len(),
{
    if i < v.len() - 1 {
        assert(v.last().0 != key);
        let w = v.drop_last();
        assert(w[i] == v[i]);
        lemma_count_at(w, key, i);
    }
}

proof fn lemma_count_absent(v: SlotsView, key: Seq<char>)
    requires
        forall|i: int| 0 <= i < v.len() ==> v[i].0 != key,
    ensures
        spec_count(v, key) == 0,
    decreases v.len(),
{
    if v.len() > 0 {
        let w = v.drop_last();
        assert forall|i: int| 0 <= i < w.len() implies w[i].0 != key by {
            assert(w[i] == v[i]);
        }
        lemma_count_absent(w, key);
    }
}

proof fn lemma_count_update(v: SlotsView, key: Seq<char>, i: int, c: usize, other: Seq<char>)
    requires
        slot_keys_distinct(v),
        0 <= i < v.len(),
        v[i].0 == key,
    ensures
        slot_keys_distinct(v.update(i, (key, c))),
        spec_count(v.update(i, (key, c)), other) == if other == key {
            c as nat
        } else {
            spec_count(v, other)
        },
    decreases v.len(),
{
    let u = v.update(i, (key, c));
    assert forall|a: int, b: int| 0 <= a < b < u.len() implies u[a].0 != u[b].0 by {
        assert(u[a].0 == v[a].0);
        assert(u[b].0 == v[b].0);
    }
    if other == key {
        lemma_count_at(u, key, i);
    } else if v.len() > 0 {
        if i == v.len() - 1 {
            assert(u.drop_last() =~= v.drop_last());
        } else {
            assert(u.drop_last() =~= v.drop_last().update(i, (key, c)));
            assert(v.drop_last()[i] == v[i]);
            assert forall|a: int, b: int| 0 <= a < b < v.drop_last().len() implies v.drop_last()[a].0 != v.drop_last()[b].0 by {
                assert(v.drop_last()[a] == v[a]);
                assert(v.drop_last()[b] == v[b]);
            }
            lemma_count_update(v.drop_last(), key, i, c, other);
        }
    }
}

impl ConnSlots {
    #[verifier::type_invariant]
    spec fn well_formed(self) -> bool {
        slot_keys_distinct(slots_view(self.entries@))
    }

    /// No open connections.
    pub fn new() -> (r: Self)
        ensures
            r@ == Seq::<(Seq<char>, usize)>::empty(),
    {
        let r = ConnSlots { entries: Vec::new() };
        assert(r@ =~= Seq::<(Seq<char>, usize)>::empty());
        r
    }

    fn index_of(&self, key: &str) -> (r: Option<usize>)
        ensures
            match r {
                Some(i) => i < self@.len() && self@[i as int].0 == key@,
                None => forall|i: int| 0 <= i < self@.len() ==> self@[i].0 != key@,
            },
    {
        let kc = chars_of(key);
        let mut i: usize = 0;
        while i < self.entries.len()
            invariant
                i <= self.entries.len(),
                kc@ == key@,
                self@ == slots_view(self.entries@),
                forall|j: int| 0 <= j < i ==> self@[j].0 != key@,
            decreases self.entries.len() - i,
        {
            if eq(&chars_of(self.entries[i].0.as_str()), &kc) {
                return Some(i);
            }
            i += 1;
        }
        None
    }

    /// Open connections of a client.
    pub fn count(&self, key: &str) -> (r: usize)
        ensures
            r == spec_count(self@, key@),
    {
        proof {
            use_type_invariant(self);
        }
        match self.index_of(key) {
            Some(i) => {
                proof {
                    lemma_count_at(self@, key@, i as int);
                }
                self.entries[i].1
            },
            None => {
                proof {
                    lemma_count_absent(self@, key@);
                }
                0
            },
        }
    }

    fn set_count(&mut self, key: &str, c: usize)
        ensures
            forall|k: Seq<char>| spec_count(final(self)@, k) == if k == key@ {
                c as nat
            } else {
                spec_count(old(self)@, k)
            },
    {
        proof {
            use_type_invariant(&*self);
        }
        let ghost v = self@;
        let found = self.index_of(key);
        let mut entries: Vec<(String, usize)> = Vec::new();
        std::mem::swap(&mut entries, &mut self.entries);
        assert(slots_view(entries@) == v);
        match found {
            Some(i) => {
                entries.set(i, (owned(key), c));
                assert(slots_view(entries@) =~= v.update(i as int, (key@, c)));
                proof {
                    assert forall|k: Seq<char>| spec_count(slots_view(entries@), k) == if k == key@ {
                        c as nat
                    } else {
                        spec_count(v, k)
                    } by {
                        lemma_count_update(v, key@, i as int, c, k);
                    }
                    lemma_count_update(v, key@, i as int, c, key@);
                }
            },
            None => {
                entries.push((owned(key), c));
                assert(slots_view(entries@) =~= v.push((key@, c)));
                proof {
                    let u = v.push((key@, c));
                    assert forall|a: int, b: int| 0 <= a < b < u.len() implies u[a].0 != u[b].0 by {
                        assert(u[a] == v[a]);
                        if b < v.len() {
                            assert(u[b] == v[b]);
                        }
                    }
                    assert(u.drop_last() =~= v);
                }
            },
        }
        self.entries = entries;
    }

    /// Takes a connection slot of a client: nothing to count when the
    /// server sets no connection limits or the client has none (`false`),
    /// refused at the client's limit, else counted (`true`).
    pub fn acquire(&mut self, key: &str, allow_connection_num_limit: bool, max_conn: usize) -> (r: Result<bool, SlotError>)
        ensures
            !allow_connection_num_limit || max_conn == 0 ==> r == Ok::<bool, SlotError>(false) && final(self)@ == old(self)@,
            allow_connection_num_limit && max_conn != 0 && spec_count(old(self)@, key@) >= max_conn ==> r
                == Err::<bool, SlotError>(SlotError::LimitReached) && final(self)@ == old(self)@,
            allow_connection_num_limit && max_conn != 0 && spec_count(old(self)@, key@) < max_conn ==> r
                == Ok::<bool, SlotError>(true),
            forall|k: Seq<char>| spec_count(final(self)@, k) == if k == key@ {
                count_after_acquire(spec_count(old(self)@, key@), allow_connection_num_limit, max_conn as nat)
            } else {
                spec_count(old(self)@, k)
            },
    {
        if !allow_connection_num_limit || max_conn == 0 {
            return Ok(false);
        }
        let current = self.count(key);
        if current >= max_conn {
            return Err(SlotError::LimitReached);
        }
        self.set_count(key, current + 1);
        Ok(true)
    }

    /// Gives a connection slot back.
    pub fn release(&mut self, key: &str)
        ensures
            forall|k: Seq<char>| spec_count(final(self)@, k) == if k == key@ {
                count_after_release(spec_count(old(self)@, key@))
            } else {
                spec_count(old(self)@, k)
            },
    {
        let current = self.count(key);
        if current > 0 {
            self.set_count(key, current - 1);
        }
    }
}

/// A client's count after an acquisition: counted only where the server
/// and the client set a limit and the count is below it.
pub open spec fn count_after_acquire(count: nat, allow_connection_num_limit: bool, max_conn: nat) -> nat {
    if allow_connection_num_limit && max_conn != 0 && count < max_conn {
        count + 1
    } else {
        count
    }
}

/// A client's count after a release: one less, never below zero.
pub open spec fn count_after_release(count: nat) -> nat {
    if count > 0 {
        (count - 1) as nat
    } else {
        0
    }
}

/// One call on a client's slots: `acquire` or `release`.
pub enum SlotStep {
    Acquire,
    Release,
}

/// A client's count after the calls `steps`, in order, under one limit.
pub open spec fn count_after(count: nat, steps: Seq<SlotStep>, allow_connection_num_limit: bool, max_conn: nat) -> nat
    decreases steps.len(),
{
    if steps.len() == 0 {
        count
    } else {
        let c = count_after(count, steps.drop_last(), allow_connection_num_limit, max_conn);
        match steps.last() {
            SlotStep::Acquire => count_after_acquire(c, allow_connection_num_limit, max_conn),
            SlotStep::Release => count_after_release(c),
        }
    }
}

/// Where the server enforces a client's non-zero `max_conn`, no run of
/// acquisitions and releases takes the client's open connections past it.
pub proof fn lemma_count_within_limit(count: nat, steps: Seq<SlotStep>, max_conn: nat)
    requires
        count <= max_conn,
        max_conn > 0,
    ensures
        count_after(count, steps, true, max_conn) <= max_conn,
    decreases steps.len(),
{
    if steps.len() > 0 {
        lemma_count_within_limit(count, steps.drop_last(), max_conn);
    }
}

} // verus!
