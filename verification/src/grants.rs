//! Temporary admission of client IPs: an IP registered by a client, or by a
//! successful web login, is let in until its grant ends. Time is a count of
//! seconds handed in by the caller.
use vstd::prelude::*;
use crate::text::{chars_of, eq_str, owned};

verus! {

broadcast use vstd::string::group_string_axioms;

// ---------------------------------------------------------------------------
// Specifications
// ---------------------------------------------------------------------------

/// The second at which a grant of `hours` (at least one) made at `now`
/// ends, held at `u64::MAX`.
pub open spec fn grant_end(now: u64, hours: u32) -> u64 {
    let h: int = if hours == 0 {
        1
    } else {
        hours as int
    };
    if now + h * 3600 > u64::MAX {
        u64::MAX
    } else {
        (now + h * 3600) as u64
    }
}

/// The grants that have not ended at `now`.
pub open spec fn drop_expired(m: Map<Seq<char>, u64>, now: u64) -> Map<Seq<char>, u64> {
    Map::new(|k: Seq<char>| m.contains_key(k) && m[k] > now, |k: Seq<char>| m[k])
}

/// The IP holds a grant that has not ended at `now`.
pub open spec fn spec_granted(m: Map<Seq<char>, u64>, ip: Seq<char>, now: u64) -> bool {
    m.contains_key(ip) && m[ip] > now
}

/// The grants a list holds: each IP with the end of its grant.
pub open spec fn grants_map(s: Seq<(String, u64)>) -> Map<Seq<char>, u64>
    decreases s.len(),
{
    if s.len() == 0 {
        Map::empty()
    } else {
        grants_map(s.drop_last()).insert(s.last().0@, s.last().1)
    }
}

/// No IP occurs twice in the list.
pub open spec fn ips_distinct(s: Seq<(String, u64)>) -> bool {
    forall|i: int, j: int| 0 <= i < j < s.len() ==> s[i].0@ != s[j].0@
}

/// The entries of the list whose grant has not ended at `now`, in order.
pub open spec fn keep_live(s: Seq<(String, u64)>, now: u64) -> Seq<(String, u64)>
    decreases s.len(),
{
    if s.len() == 0 {
        s
    } else if s.last().1 > now {
        keep_live(s.drop_last(), now).push(s.last())
    } else {
        keep_live(s.drop_last(), now)
    }
}

proof fn lemma_grants_map(s: Seq<(String, u64)>)
    requires
        ips_distinct(s),
    ensures
        forall|i: int| 0 <= i < s.len() ==> grants_map(s).contains_key(#[trigger] s[i].0@) && grants_map(s)[s[i].0@] == s[i].1,
        forall|k: Seq<char>| grants_map(s).contains_key(k) ==> exists|i: int| 0 <= i < s.len() && #[trigger] s[i].0@ == k,
    decreases s.len(),
{
    if s.len() > 0 {
        let t = s.drop_last();
        assert(ips_distinct(t)) by {
            assert forall|i: int, j: int| 0 <= i < j < t.len() implies t[i].0@ != t[j].0@ by {
                assert(t[i] == s[i] && t[j] == s[j]);
            }
        }
        lemma_grants_map(t);
        assert forall|i: int| 0 <= i < s.len() implies grants_map(s).contains_key(#[trigger] s[i].0@) && grants_map(s)[s[i].0@]
            == s[i].1 by {
            if i < s.len() - 1 {
                assert(t[i] == s[i]);
                assert(s[i].0@ != s.last().0@);
            }
        }
        assert forall|k: Seq<char>| grants_map(s).contains_key(k) implies exists|i: int| 0 <= i < s.len() && #[trigger] s[i].0@ == k by {
            assert(grants_map(s) == grants_map(t).insert(s.last().0@, s.last().1));
            if k != s.last().0@ {
                assert(grants_map(t).contains_key(k));
                let i = choose|i: int| 0 <= i < t.len() && #[trigger] t[i].0@ == k;
                assert(s[i] == t[i]);
            } else {
                assert(s[s.len() - 1].0@ == k);
            }
        }
    }
}

proof fn lemma_keep_live(s: Seq<(String, u64)>, now: u64)
    requires
        ips_distinct(s),
    ensures
        ips_distinct(keep_live(s, now)),
        forall|i: int| #![trigger keep_live(s, now)[i]] 0 <= i < keep_live(s, now).len() ==> exists|j: int| 0 <= j < s.len() && #[trigger] s[j] == keep_live(s, now)[i],
        grants_map(keep_live(s, now)) == drop_expired(grants_map(s), now),
    decreases s.len(),
{
    if s.len() > 0 {
        let t = s.drop_last();
        assert(ips_distinct(t)) by {
            assert forall|i: int, j: int| 0 <= i < j < t.len() implies t[i].0@ != t[j].0@ by {
                assert(t[i] == s[i] && t[j] == s[j]);
            }
        }
        lemma_keep_live(t, now);
        lemma_grants_map(t);
        let kt = keep_live(t, now);
        let x = s.last();
        assert(!grants_map(t).contains_key(x.0@)) by {
            if grants_map(t).contains_key(x.0@) {
                let i = choose|i: int| 0 <= i < t.len() && #[trigger] t[i].0@ == x.0@;
                assert(s[i] == t[i]);
            }
        }
        assert forall|i: int| #![trigger kt[i]] 0 <= i < kt.len() implies exists|j: int| 0 <= j < s.len() && #[trigger] s[j] == kt[i] by {
            let j = choose|j: int| 0 <= j < t.len() && #[trigger] t[j] == kt[i];
            assert(s[j] == t[j]);
        }
        if x.1 > now {
            let r = kt.push(x);
            assert forall|i: int, j: int| 0 <= i < j < r.len() implies r[i].0@ != r[j].0@ by {
                if j == r.len() - 1 {
                    let a = choose|a: int| 0 <= a < t.len() && #[trigger] t[a] == kt[i];
                    assert(s[a] == t[a]);
                } else {
                    assert(r[i] == kt[i] && r[j] == kt[j]);
                }
            }
            assert forall|i: int| #![trigger r[i]] 0 <= i < r.len() implies exists|j: int| 0 <= j < s.len() && #[trigger] s[j] == r[i] by {
                if i == r.len() - 1 {
                    assert(s[s.len() - 1] == r[i]);
                } else {
                    assert(r[i] == kt[i]);
                }
            }
            assert(r.drop_last() == kt);
            assert(grants_map(r) =~= drop_expired(grants_map(s), now));
        } else {
            assert(grants_map(kt) =~= drop_expired(grants_map(s), now));
        }
    }
}

// ---------------------------------------------------------------------------
// The grant table
// ---------------------------------------------------------------------------

/// The IPs let in for a while, each with the second its grant ends.
pub struct IpGrants {
    entries: Vec<(String, u64)>,
}

impl View for IpGrants {
    type V = Map<Seq<char>, u64>;

    closed spec fn view(&self) -> Map<Seq<char>, u64> {
        grants_map(self.entries@)
    }
}

impl IpGrants {
    #[verifier::type_invariant]
    spec fn well_formed(self) -> bool {
        ips_distinct(self.entries@)
    }

    /// No grants.
    pub fn new() -> (r: Self)
        ensures
            r@ == Map::<Seq<char>, u64>::empty(),
    {
        IpGrants { entries: Vec::new() }
    }

    /// Lets `ip` in for `hours` (at least one) from `now_secs`, replacing an
    /// earlier grant of the same IP; an empty IP is ignored.
    pub fn grant_ip(&mut self, ip: &str, hours: u32, now_secs: u64)
        ensures
            ip@.len() == 0 ==> final(self)@ == old(self)@,
            ip@.len() > 0 ==> final(self)@ == old(self)@.insert(ip@, grant_end(now_secs, hours)),
    {
        proof {
            use_type_invariant(&*self);
        }
        if ip.is_empty() {
            return;
        }
        let h: u64 = if hours == 0 {
            1
        } else {
            hours as u64
        };
        let add: u64 = h * 3600;
        let end: u64 = if now_secs > u64::MAX - add {
            u64::MAX
        } else {
            now_secs + add
        };
        let mut entries: Vec<(String, u64)> = Vec::new();
        std::mem::swap(&mut entries, &mut self.entries);
        let ghost s = entries@;
        let key = chars_of(ip);
        let mut i: usize = 0;
        while i < entries.len()
            invariant
                entries@ == s,
                key@ == ip@,
                i <= s.len(),
                forall|j: int| 0 <= j < i ==> s[j].0@ != ip@,
            ensures
                entries@ == s,
                i <= s.len(),
                forall|j: int| 0 <= j < i ==> s[j].0@ != ip@,
                i < s.len() ==> s[i as int].0@ == ip@,
            decreases s.len() - i,
        {
            if eq_str(&key, entries[i].0.as_str()) {
                break;
            }
            i += 1;
        }
        proof {
            lemma_grants_map(s);
        }
        if i < entries.len() {
            entries.set(i, (owned(ip), end));
            let ghost u = entries@;
            assert(ips_distinct(u)) by {
                assert forall|a: int, b: int| 0 <= a < b < u.len() implies u[a].0@ != u[b].0@ by {
                    if a != i && b != i {
                        assert(u[a] == s[a] && u[b] == s[b]);
                    }
                }
            }
            proof {
                lemma_grants_map(u);
                assert forall|k: Seq<char>| #[trigger] grants_map(u).contains_key(k) == grants_map(s).insert(ip@, end).contains_key(k) by {
                    if grants_map(u).contains_key(k) {
                        let a = choose|a: int| 0 <= a < u.len() && #[trigger] u[a].0@ == k;
                        if a != i {
                            assert(u[a] == s[a]);
                        }
                    }
                    if grants_map(s).contains_key(k) {
                        let a = choose|a: int| 0 <= a < s.len() && #[trigger] s[a].0@ == k;
                        if a != i {
                            assert(u[a] == s[a]);
                        }
                        assert(u[a].0@ == k);
                    }
                    assert(u[i as int].0@ == ip@);
                }
                assert forall|k: Seq<char>| #[trigger] grants_map(u).contains_key(k) implies grants_map(u)[k] == grants_map(s).insert(ip@, end)[k] by {
                    let a = choose|a: int| 0 <= a < u.len() && #[trigger] u[a].0@ == k;
                    if a != i {
                        assert(u[a] == s[a]);
                    }
                }
                assert(grants_map(u) =~= grants_map(s).insert(ip@, end));
            }
        } else {
            entries.push((owned(ip), end));
            let ghost u = entries@;
            assert(u.drop_last() == s);
            assert(ips_distinct(u)) by {
                assert forall|a: int, b: int| 0 <= a < b < u.len() implies u[a].0@ != u[b].0@ by {
                    if b < s.len() {
                        assert(u[a] == s[a] && u[b] == s[b]);
                    } else {
                        assert(u[a] == s[a]);
                    }
                }
            }
        }
        self.entries = entries;
    }

    /// Whether `ip` holds a grant that has not ended at `now_secs`; ended
    /// grants are dropped.
    pub fn ip_granted(&mut self, ip: &str, now_secs: u64) -> (r: bool)
        ensures
            r == spec_granted(old(self)@, ip@, now_secs),
            final(self)@ == drop_expired(old(self)@, now_secs),
    {
        proof {
            use_type_invariant(&*self);
        }
        let ghost s = self.entries@;
        let key = chars_of(ip);
        let mut live: Vec<(String, u64)> = Vec::new();
        let mut found = false;
        let mut i: usize = 0;
        while i < self.entries.len()
            invariant
                self.entries@ == s,
                key@ == ip@,
                i <= s.len(),
                live@ == keep_live(s.take(i as int), now_secs),
                found == exists|j: int| 0 <= j < i && #[trigger] s[j].0@ == ip@ && s[j].1 > now_secs,
            decreases s.len() - i,
        {
            assert(s.take(i + 1).drop_last() == s.take(i as int));
            assert(s.take(i + 1).last() == s[i as int]);
            let entry = &self.entries[i];
            let ghost found_before = found;
            if entry.1 > now_secs {
                live.push((entry.0.clone(), entry.1));
                if eq_str(&key, entry.0.as_str()) {
                    found = true;
                }
            }
            proof {
                if found && !found_before {
                    assert(s[i as int].0@ == ip@ && s[i as int].1 > now_secs);
                }
                if !found {
                    assert(!(s[i as int].0@ == ip@ && s[i as int].1 > now_secs));
                }
            }
            i += 1;
        }
        assert(s.take(s.len() as int) == s);
        proof {
            lemma_keep_live(s, now_secs);
            lemma_grants_map(s);
            if found {
                let j = choose|j: int| 0 <= j < s.len() && #[trigger] s[j].0@ == ip@ && s[j].1 > now_secs;
                assert(grants_map(s).contains_key(s[j].0@));
            }
            if grants_map(s).contains_key(ip@) {
                let j = choose|j: int| 0 <= j < s.len() && #[trigger] s[j].0@ == ip@;
                assert(grants_map(s)[s[j].0@] == s[j].1);
            }
        }
        self.entries = live;
        found
    }
}

// ---------------------------------------------------------------------------
// Laws
// ---------------------------------------------------------------------------

/// A grant of `hours` made at `now` lets the IP in at every later second
/// before `now + max(hours, 1) * 3600` and at none from then on, whatever
/// checks (which drop ended grants) came in between at earlier seconds.
pub proof fn lemma_grant_lasts(m: Map<Seq<char>, u64>, ip: Seq<char>, hours: u32, now: u64, checks: Seq<u64>, t: u64)
    requires
        forall|i: int| 0 <= i < checks.len() ==> #[trigger] checks[i] <= t,
    ensures
        spec_granted(drop_all(m.insert(ip, grant_end(now, hours)), checks), ip, t) == (t < grant_end(now, hours)),
    decreases checks.len(),
{
    if checks.len() > 0 {
        lemma_grant_lasts(m, ip, hours, now, checks.drop_last(), t);
        assert(checks.drop_last().len() < checks.len());
        assert(checks.last() == checks[checks.len() - 1]);
    }
}

/// The grants after checks at each second of `checks`, in order.
pub open spec fn drop_all(m: Map<Seq<char>, u64>, checks: Seq<u64>) -> Map<Seq<char>, u64>
    decreases checks.len(),
{
    if checks.len() == 0 {
        m
    } else {
        drop_expired(drop_all(m, checks.drop_last()), checks.last())
    }
}

} // verus!
