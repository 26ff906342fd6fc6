//! The service registry and the daemon's decision logic: port cursor,
//! binding table, liveness sweep, snapshot persistence, the control
//! request handler, and the startup pid-file check.

use vstd::prelude::*;

use crate::codec::{jsnapshot, render_snapshot, parse_snapshot, services_view, spec_parse_snapshot};
use crate::strutil::{digit_val, digits_val, is_digit, str_eq, string_to_chars};
use crate::types::{
    port_in_range, Service, ServiceView, Request, RequestView, Response, ResponseView,
    PORT_RANGE_END, PORT_RANGE_START,
};

verus! {

// ---------------------------------------------------------------------
// Spec model of the binding table
// ---------------------------------------------------------------------

/// Some binding in `s` has domain `d`.
pub open spec fn contains_domain(s: Seq<ServiceView>, d: Seq<char>) -> bool {
    exists|i: int| 0 <= i < s.len() && s[i].domain == d
}

/// The first binding in `s` with domain `d`, if any.
pub open spec fn lookup_domain(s: Seq<ServiceView>, d: Seq<char>) -> Option<ServiceView>
    decreases s.len(),
{
    if s.len() == 0 {
        None
    } else if s[0].domain == d {
        Some(s[0])
    } else {
        lookup_domain(s.skip(1), d)
    }
}

/// Remove the first binding with domain `d`: the removed binding, if
/// any, and the remaining table in order.
pub open spec fn remove_domain(s: Seq<ServiceView>, d: Seq<char>) -> (
    Option<ServiceView>,
    Seq<ServiceView>,
)
    decreases s.len(),
{
    if s.len() == 0 {
        (None, s)
    } else if s[0].domain == d {
        (Some(s[0]), s.skip(1))
    } else {
        let (r, t) = remove_domain(s.skip(1), d);
        (r, seq![s[0]] + t)
    }
}

/// The bindings whose flag is set, in order.
pub open spec fn sweep_flags(s: Seq<ServiceView>, alive: Seq<bool>) -> Seq<ServiceView>
    decreases s.len(),
{
    if s.len() == 0 || alive.len() == 0 {
        Seq::empty()
    } else if alive[0] {
        seq![s[0]] + sweep_flags(s.skip(1), alive.skip(1))
    } else {
        sweep_flags(s.skip(1), alive.skip(1))
    }
}

/// The bindings whose pid satisfies the liveness predicate, in order.
pub open spec fn sweep_pred(s: Seq<ServiceView>, live: spec_fn(u32) -> bool) -> Seq<ServiceView>
    decreases s.len(),
{
    if s.len() == 0 {
        Seq::empty()
    } else if live(s[0].pid) {
        seq![s[0]] + sweep_pred(s.skip(1), live)
    } else {
        sweep_pred(s.skip(1), live)
    }
}

/// The largest port of any binding, or `None` for an empty table.
pub open spec fn max_port(s: Seq<ServiceView>) -> Option<u16>
    decreases s.len(),
{
    if s.len() == 0 {
        None
    } else {
        match max_port(s.skip(1)) {
            None => Some(s[0].port),
            Some(m) => if s[0].port >= m {
                Some(s[0].port)
            } else {
                Some(m)
            },
        }
    }
}

/// The cursor a freshly loaded registry starts at: one past the
/// largest persisted port, wrapped into the window.
pub open spec fn derived_cursor(s: Seq<ServiceView>) -> u16 {
    match max_port(s) {
        None => PORT_RANGE_START,
        Some(m) => if m >= PORT_RANGE_END || m + 1 < PORT_RANGE_START {
            PORT_RANGE_START
        } else {
            (m + 1) as u16
        },
    }
}

// ---------------------------------------------------------------------
// The registry
// ---------------------------------------------------------------------

/// Errors of the registry operations.
#[derive(Debug)]
pub enum RegistryError {
    /// The domain is already bound.
    DomainTaken,
}

/// Registry of services: the binding table and the port cursor.
#[derive(Debug)]
pub struct Registry {
    pub services: Vec<Service>,
    pub next_port: u16,
}

impl Registry {
    /// The mathematical image of the binding table.
    pub open spec fn table(&self) -> Seq<ServiceView> {
        services_view(self.services@)
    }

    /// Well-formed: each domain occurs at most once, and the cursor
    /// lies in the port window.
    pub open spec fn wf(&self) -> bool {
        &&& port_in_range(self.next_port)
        &&& forall|i: int, j: int|
            0 <= i < j < self.table().len() ==> self.table()[i].domain != self.table()[j].domain
    }

    /// An empty registry with the cursor at the start of the window.
    pub fn new() -> (r: Registry)
        ensures
            r.wf(),
            r.table().len() == 0,
            r.next_port == PORT_RANGE_START,
    {
        Registry { services: Vec::new(), next_port: PORT_RANGE_START }
    }

    /// Hand out the cursor and advance it, wrapping past the end of
    /// the window back to its start.
    pub fn get_port(&mut self) -> (r: u16)
        requires
            old(self).wf(),
        ensures
            final(self).wf(),
            r == old(self).next_port,
            port_in_range(r),
            final(self).services == old(self).services,
            final(self).next_port == if old(self).next_port >= PORT_RANGE_END {
                PORT_RANGE_START
            } else {
                (old(self).next_port + 1) as u16
            },
    {
        let port = self.next_port;
        if self.next_port >= PORT_RANGE_END {
            self.next_port = PORT_RANGE_START;
        } else {
            self.next_port = self.next_port + 1;
        }
        proof {
            assert(self.table() == old(self).table());
        }
        port
    }

    /// One step of the port-allocation probe. `available` reports
    /// whether the port at the cursor could be bound; `start` is the
    /// cursor the probe began at. The cursor always advances (with
    /// wrap); the probed port is handed out when it was available,
    /// or as the best-effort fallback once the cursor has come back
    /// to `start` after a full cycle.
    pub fn allocate_step(&mut self, start: u16, available: bool) -> (r: Option<u16>)
        requires
            old(self).wf(),
        ensures
            final(self).wf(),
            final(self).services == old(self).services,
            final(self).next_port == if old(self).next_port >= PORT_RANGE_END {
                PORT_RANGE_START
            } else {
                (old(self).next_port + 1) as u16
            },
            match r {
                Some(p) => p == old(self).next_port && port_in_range(p) && (available
                    || final(self).next_port == start),
                None => !available && final(self).next_port != start,
            },
    {
        let port = self.get_port();
        if available {
            Some(port)
        } else if self.next_port == start {
            Some(port)
        } else {
            None
        }
    }

    /// Insert a binding. A domain that is already bound is refused,
    /// and the table is left untouched; bindings are never mutated in
    /// place.
    pub fn register(&mut self, service: Service) -> (r: Result<(), RegistryError>)
        requires
            old(self).wf(),
        ensures
            final(self).wf(),
            final(self).next_port == old(self).next_port,
            match r {
                Ok(()) => !contains_domain(old(self).table(), service@.domain)
                    && final(self).table() == old(self).table().push(service@)
                    && lookup_domain(final(self).table(), service@.domain) == Some(service@),
                Err(e) => e is DomainTaken && contains_domain(old(self).table(), service@.domain)
                    && final(self).table() == old(self).table(),
            },
    {
        let ghost oldtab = self.table();
        match self.find_domain(service.domain.as_str()) {
            Some(i) => {
                proof {
                    assert(contains_domain(oldtab, service@.domain)) by {
                        assert(oldtab[i as int].domain == service@.domain);
                    }
                }
                Err(RegistryError::DomainTaken)
            },
            None => {
                self.services.push(service);
                proof {
                    assert(self.table() =~= oldtab.push(service@));
                    let n = oldtab.len() as int;
                    assert(self.table()[n].domain == service@.domain);
                    assert forall|k: int| 0 <= k < n implies self.table()[k].domain
                        != service@.domain by {
                        assert(self.table()[k] == oldtab[k]);
                    }
                    lemma_lookup_at_unique_domain(self.table(), n, service@.domain);
                }
                Ok(())
            },
        }
    }

    /// The index of the first binding with domain `domain`, if any.
    fn find_domain(&self, domain: &str) -> (r: Option<usize>)
        ensures
            match r {
                Some(i) => i < self.services@.len() && self.table()[i as int].domain == domain@
                    && forall|k: int| 0 <= k < i ==> self.table()[k].domain != domain@,
                None => !contains_domain(self.table(), domain@),
            },
    {
        let mut i: usize = 0;
        while i < self.services.len()
            invariant
                0 <= i <= self.services.len(),
                forall|k: int| 0 <= k < i ==> self.table()[k].domain != domain@,
            decreases self.services.len() - i,
        {
            if str_eq(self.services[i].domain.as_str(), domain) {
                return Some(i);
            }
            i += 1;
        }
        proof {
            assert(!contains_domain(self.table(), domain@));
        }
        None
    }

    /// Remove the binding for `domain`, returning it if it existed.
    pub fn unregister(&mut self, domain: &str) -> (r: Option<Service>)
        requires
            old(self).wf(),
        ensures
            final(self).wf(),
            final(self).next_port == old(self).next_port,
            match r {
                Some(s) => Some(s@) == remove_domain(old(self).table(), domain@).0
                    && final(self).table() == remove_domain(old(self).table(), domain@).1
                    && s@.domain == domain@,
                None => !contains_domain(old(self).table(), domain@)
                    && final(self).table() == old(self).table(),
            },
    {
        let ghost oldtab = self.table();
        match self.find_domain(domain) {
            Some(i) => {
                let ghost idx = i as int;
                let s = self.services.remove(i);
                proof {
                    assert(s@ == oldtab[idx]);
                    assert(self.table() =~= oldtab.remove(idx));
                    lemma_remove_domain_at(oldtab, domain@, idx);
                    assert forall|a: int, b: int|
                        0 <= a < b < self.table().len() implies self.table()[a].domain
                        != self.table()[b].domain by {
                        let a0 = if a < idx { a } else { a + 1 };
                        let b0 = if b < idx { b } else { b + 1 };
                        assert(self.table()[a] == oldtab[a0]);
                        assert(self.table()[b] == oldtab[b0]);
                        assert(oldtab[a0].domain != oldtab[b0].domain);
                    }
                }
                Some(s)
            },
            None => {
                proof {
                    lemma_remove_domain_absent(oldtab, domain@);
                }
                None
            },
        }
    }

    /// The binding for `domain`, if any.
    pub fn get(&self, domain: &str) -> (r: Option<&Service>)
        ensures
            match r {
                Some(s) => lookup_domain(self.table(), domain@) == Some(s@),
                None => lookup_domain(self.table(), domain@) is None,
            },
    {
        match self.find_domain(domain) {
            Some(i) => {
                proof {
                    lemma_lookup_at_unique_domain(self.table(), i as int, domain@);
                }
                Some(&self.services[i])
            },
            None => {
                proof {
                    lemma_lookup_absent(self.table(), domain@);
                }
                None
            },
        }
    }

    /// A copy of all bindings, in table order.
    pub fn list(&self) -> (r: Vec<Service>)
        ensures
            services_view(r@) == self.table(),
    {
        let mut out: Vec<Service> = Vec::new();
        let mut i: usize = 0;
        while i < self.services.len()
            invariant
                0 <= i <= self.services.len(),
                out@.len() == i,
                forall|k: int| 0 <= k < i ==> out@[k]@ == self.table()[k],
            decreases self.services.len() - i,
        {
            out.push(self.services[i].clone());
            i += 1;
        }
        proof {
            assert(services_view(out@) =~= self.table());
        }
        out
    }

    /// Remove every binding whose flag is cleared; `alive[i]` reports
    /// the liveness of the process of the `i`-th binding.
    pub fn cleanup_dead(&mut self, alive: &Vec<bool>)
        requires
            old(self).wf(),
            alive@.len() == old(self).services@.len(),
        ensures
            final(self).wf(),
            final(self).next_port == old(self).next_port,
            final(self).table() == sweep_flags(old(self).table(), alive@),
    {
        let ghost oldtab = self.table();
        let mut out: Vec<Service> = Vec::new();
        let mut i: usize = 0;
        while i < self.services.len()
            invariant
                0 <= i <= self.services.len(),
                alive@.len() == self.services@.len(),
                self.table() == oldtab,
                oldtab == services_view(self.services@),
                services_view(out@) == sweep_flags_upto(oldtab, alive@, i as int),
            decreases self.services.len() - i,
        {
            proof {
                lemma_sweep_flags_upto_step(oldtab, alive@, i as int);
            }
            if alive[i] {
                out.push(self.services[i].clone());
                proof {
                    assert(services_view(out@) =~= sweep_flags_upto(oldtab, alive@, i + 1));
                }
            } else {
                proof {
                    assert(services_view(out@) =~= sweep_flags_upto(oldtab, alive@, i + 1));
                }
            }
            i += 1;
        }
        proof {
            lemma_sweep_flags_upto_end(oldtab, alive@);
            lemma_sweep_flags_sub(oldtab, alive@);
        }
        self.services = out;
    }

    /// The JSON snapshot of the binding table, as persisted on disk.
    pub fn snapshot_json(&self) -> (r: String)
        ensures
            r@ == jsnapshot(self.table()),
    {
        render_snapshot(&self.services)
    }

    /// Rebuild a registry from the persisted snapshot. An absent or
    /// unparsable document, or one with a repeated domain, yields an
    /// empty registry; otherwise the table is the parsed one and the
    /// cursor is one past the largest port, wrapped into the window.
    pub fn load(content: Option<&str>) -> (r: Registry)
        ensures
            r.wf(),
            match content {
                None => r.table().len() == 0 && r.next_port == PORT_RANGE_START,
                Some(doc) => match spec_parse_snapshot(doc@) {
                    Some(l) => if forall|i: int, j: int|
                        0 <= i < j < l.len() ==> l[i].domain != l[j].domain {
                        r.table() == l && r.next_port == derived_cursor(l)
                    } else {
                        r.table().len() == 0 && r.next_port == PORT_RANGE_START
                    },
                    None => r.table().len() == 0 && r.next_port == PORT_RANGE_START,
                },
            },
    {
        let doc = match content {
            None => { return Registry::new(); },
            Some(d) => d,
        };
        let list = match parse_snapshot(doc) {
            None => { return Registry::new(); },
            Some(l) => l,
        };
        // Reject a corrupt snapshot in which one domain occurs twice.
        let ghost tab0 = services_view(list@);
        let mut i: usize = 0;
        while i < list.len()
            invariant
                0 <= i <= list.len(),
                tab0 == services_view(list@),
                content == Some(doc),
                spec_parse_snapshot(doc@) == Some(tab0),
                forall|a: int, b: int|
                    0 <= a < b < list@.len() && a < i ==> list@[a]@.domain != list@[b]@.domain,
            decreases list.len() - i,
        {
            let mut j: usize = i + 1;
            while j < list.len()
                invariant
                    0 <= i < j <= list.len(),
                    tab0 == services_view(list@),
                    content == Some(doc),
                    spec_parse_snapshot(doc@) == Some(tab0),
                    forall|b: int| i < b < j ==> list@[i as int]@.domain != list@[b]@.domain,
                decreases list.len() - j,
            {
                if str_eq(list[i].domain.as_str(), list[j].domain.as_str()) {
                    proof {
                        assert(tab0[i as int].domain == tab0[j as int].domain);
                        assert(!(forall|a: int, b: int|
                            0 <= a < b < tab0.len() ==> tab0[a].domain != tab0[b].domain));
                    }
                    return Registry::new();
                }
                j += 1;
            }
            i += 1;
        }
        // Derive the cursor from the largest persisted port.
        let ghost tab = services_view(list@);
        let mut cursor: u16 = PORT_RANGE_START;
        let mut have_max: bool = false;
        let mut m: u16 = 0;
        let mut k: usize = list.len();
        while k > 0
            invariant
                0 <= k <= list.len(),
                tab == services_view(list@),
                if have_max {
                    max_port(tab.skip(k as int)) == Some(m)
                } else {
                    max_port(tab.skip(k as int)) is None
                },
            decreases k,
        {
            k -= 1;
            proof {
                assert(tab.skip(k as int)[0] == tab[k as int]);
                assert(tab.skip(k as int).skip(1) =~= tab.skip(k + 1));
            }
            let p = list[k].port;
            if !have_max || p >= m {
                m = p;
                have_max = true;
            }
        }
        proof {
            assert(tab.skip(0) =~= tab);
        }
        if have_max {
            if m >= PORT_RANGE_END || m + 1 < PORT_RANGE_START {
                cursor = PORT_RANGE_START;
            } else {
                cursor = m + 1;
            }
        }
        proof {
            assert(forall|a: int, b: int|
                0 <= a < b < tab.len() ==> tab[a].domain != tab[b].domain);
        }
        Registry { services: list, next_port: cursor }
    }
}

// ---------------------------------------------------------------------
// Lemmas about the table model
// ---------------------------------------------------------------------

/// Lookup of a domain found first at `idx` yields that binding.
proof fn lemma_lookup_at_unique_domain(s: Seq<ServiceView>, idx: int, d: Seq<char>)
    requires
        0 <= idx < s.len(),
        s[idx].domain == d,
        forall|k: int| 0 <= k < idx ==> s[k].domain != d,
    ensures
        lookup_domain(s, d) == Some(s[idx]),
    decreases idx,
{
    if idx == 0 {
    } else {
        assert(s.skip(1)[idx - 1] == s[idx]);
        assert forall|k: int| 0 <= k < idx - 1 implies s.skip(1)[k].domain != d by {
            assert(s.skip(1)[k] == s[k + 1]);
        }
        lemma_lookup_at_unique_domain(s.skip(1), idx - 1, d);
    }
}

/// Lookup of an absent domain yields nothing.
proof fn lemma_lookup_absent(s: Seq<ServiceView>, d: Seq<char>)
    requires
        !contains_domain(s, d),
    ensures
        lookup_domain(s, d) is None,
    decreases s.len(),
{
    if s.len() > 0 {
        assert(s[0].domain != d);
        assert(!contains_domain(s.skip(1), d)) by {
            if contains_domain(s.skip(1), d) {
                let i = choose|i: int| 0 <= i < s.skip(1).len() && s.skip(1)[i].domain == d;
                assert(s[i + 1].domain == d);
            }
        }
        lemma_lookup_absent(s.skip(1), d);
    }
}

/// Removing the domain found first at `idx` removes exactly that
/// entry.
proof fn lemma_remove_domain_at(s: Seq<ServiceView>, d: Seq<char>, idx: int)
    requires
        0 <= idx < s.len(),
        s[idx].domain == d,
        forall|k: int| 0 <= k < idx ==> s[k].domain != d,
    ensures
        remove_domain(s, d) == (Some(s[idx]), s.remove(idx)),
    decreases idx,
{
    if idx == 0 {
        assert(s.remove(0) =~= s.skip(1));
    } else {
        assert(s.skip(1)[idx - 1] == s[idx]);
        lemma_remove_domain_at(s.skip(1), d, idx - 1);
        assert(seq![s[0]] + s.skip(1).remove(idx - 1) =~= s.remove(idx));
    }
}

/// Removing an absent domain removes nothing.
proof fn lemma_remove_domain_absent(s: Seq<ServiceView>, d: Seq<char>)
    requires
        !contains_domain(s, d),
    ensures
        remove_domain(s, d) == (None::<ServiceView>, s),
    decreases s.len(),
{
    if s.len() > 0 {
        assert(s[0].domain != d);
        assert(!contains_domain(s.skip(1), d)) by {
            if contains_domain(s.skip(1), d) {
                let i = choose|i: int| 0 <= i < s.skip(1).len() && s.skip(1)[i].domain == d;
                assert(s[i + 1].domain == d);
            }
        }
        lemma_remove_domain_absent(s.skip(1), d);
        assert(seq![s[0]] + s.skip(1) =~= s);
    }
}

/// The sweep of the first `i` bindings.
pub open spec fn sweep_flags_upto(s: Seq<ServiceView>, alive: Seq<bool>, i: int) -> Seq<
    ServiceView,
> {
    sweep_flags(s.take(i), alive.take(i))
}

/// Extending the prefix by one binding appends it when its flag is
/// set and drops it otherwise.
proof fn lemma_sweep_flags_upto_step(s: Seq<ServiceView>, alive: Seq<bool>, i: int)
    requires
        0 <= i < s.len(),
        s.len() == alive.len(),
    ensures
        sweep_flags_upto(s, alive, i + 1) == if alive[i] {
            sweep_flags_upto(s, alive, i).push(s[i])
        } else {
            sweep_flags_upto(s, alive, i)
        },
{
    lemma_sweep_flags_push(s.take(i), alive.take(i), s[i], alive[i]);
    assert(s.take(i + 1) =~= s.take(i).push(s[i]));
    assert(alive.take(i + 1) =~= alive.take(i).push(alive[i]));
}

/// Sweeping after appending one binding.
proof fn lemma_sweep_flags_push(s: Seq<ServiceView>, alive: Seq<bool>, v: ServiceView, f: bool)
    requires
        s.len() == alive.len(),
    ensures
        sweep_flags(s.push(v), alive.push(f)) == if f {
            sweep_flags(s, alive).push(v)
        } else {
            sweep_flags(s, alive)
        },
    decreases s.len(),
{
    if s.len() == 0 {
        assert(s.push(v)[0] == v);
        assert(alive.push(f)[0] == f);
        assert(s.push(v).skip(1) =~= Seq::<ServiceView>::empty());
        assert(alive.push(f).skip(1) =~= Seq::<bool>::empty());
        assert(sweep_flags(Seq::<ServiceView>::empty(), Seq::<bool>::empty())
            == Seq::<ServiceView>::empty());
        assert(sweep_flags(s, alive) == Seq::<ServiceView>::empty());
        if f {
            assert(sweep_flags(s.push(v), alive.push(f)) == seq![v]
                + Seq::<ServiceView>::empty());
            assert(seq![v] + Seq::<ServiceView>::empty() =~= sweep_flags(s, alive).push(v));
        } else {
            assert(sweep_flags(s.push(v), alive.push(f)) == Seq::<ServiceView>::empty());
        }
    } else {
        assert(s.push(v)[0] == s[0]);
        assert(alive.push(f)[0] == alive[0]);
        assert(s.push(v).skip(1) =~= s.skip(1).push(v));
        assert(alive.push(f).skip(1) =~= alive.skip(1).push(f));
        lemma_sweep_flags_push(s.skip(1), alive.skip(1), v, f);
        if alive[0] {
            assert(sweep_flags(s.push(v), alive.push(f)) == seq![s[0]] + sweep_flags(
                s.skip(1).push(v),
                alive.skip(1).push(f),
            ));
            assert(sweep_flags(s, alive) == seq![s[0]] + sweep_flags(s.skip(1), alive.skip(1)));
            if f {
                assert(seq![s[0]] + sweep_flags(s.skip(1), alive.skip(1)).push(v) =~= (seq![s[0]]
                    + sweep_flags(s.skip(1), alive.skip(1))).push(v));
            }
        } else {
            assert(sweep_flags(s.push(v), alive.push(f)) == sweep_flags(
                s.skip(1).push(v),
                alive.skip(1).push(f),
            ));
            assert(sweep_flags(s, alive) == sweep_flags(s.skip(1), alive.skip(1)));
        }
    }
}

/// The full prefix is the whole table.
proof fn lemma_sweep_flags_upto_end(s: Seq<ServiceView>, alive: Seq<bool>)
    requires
        s.len() == alive.len(),
    ensures
        sweep_flags_upto(s, alive, s.len() as int) == sweep_flags(s, alive),
{
    assert(s.take(s.len() as int) =~= s);
    assert(alive.take(alive.len() as int) =~= alive);
}

/// Every binding the sweep keeps was in the table, in order; so a
/// unique-domain table stays unique.
proof fn lemma_sweep_flags_sub(s: Seq<ServiceView>, alive: Seq<bool>)
    requires
        s.len() == alive.len(),
        forall|i: int, j: int| 0 <= i < j < s.len() ==> s[i].domain != s[j].domain,
    ensures
        forall|i: int, j: int|
            0 <= i < j < sweep_flags(s, alive).len() ==> sweep_flags(s, alive)[i].domain
                != sweep_flags(s, alive)[j].domain,
        sweep_flags(s, alive).len() <= s.len(),
        forall|i: int|
            0 <= i < sweep_flags(s, alive).len() ==> contains_view(s, sweep_flags(s, alive)[i]),
    decreases s.len(),
{
    if s.len() > 0 {
        lemma_sweep_flags_sub(s.skip(1), alive.skip(1));
        let t = sweep_flags(s, alive);
        let t1 = sweep_flags(s.skip(1), alive.skip(1));
        assert forall|i: int| 0 <= i < t1.len() implies contains_view(s, t1[i]) by {
            let k = choose|k: int| 0 <= k < s.skip(1).len() && s.skip(1)[k] == t1[i];
            assert(s[k + 1] == t1[i]);
        }
        if alive[0] {
            assert(t == seq![s[0]] + t1);
            assert forall|i: int, j: int| 0 <= i < j < t.len() implies t[i].domain
                != t[j].domain by {
                if i == 0 {
                    let w = t[j];
                    assert(t1[j - 1] == w);
                    let k = choose|k: int| 0 <= k < s.skip(1).len() && s.skip(1)[k] == w;
                    assert(s[k + 1] == w);
                    assert(s[0].domain != s[k + 1].domain);
                } else {
                    assert(t[i] == t1[i - 1] && t[j] == t1[j - 1]);
                }
            }
        }
    }
}

/// `v` occurs in `s`.
pub open spec fn contains_view(s: Seq<ServiceView>, v: ServiceView) -> bool {
    exists|i: int| 0 <= i < s.len() && s[i] == v
}

// ---------------------------------------------------------------------
// The control request handler
// ---------------------------------------------------------------------

/// What the daemon must do beside replying: nothing, deliver a
/// termination signal to a process, or shut itself down.
#[derive(Debug)]
pub enum Action {
    NoEffect,
    SendSigterm(u32),
    Shutdown,
}

/// Decide one control request: mutate the registry and name the reply
/// and the side effect. The caller performs the side effect and
/// persists the snapshot after a mutation.
pub fn handle_request(registry: &mut Registry, req: Request, https: bool) -> (r: (
    Response,
    Action,
))
    requires
        old(registry).wf(),
    ensures
        final(registry).wf(),
        match req@ {
            RequestView::Register { domain, port, pid, directory } => {
                &&& final(registry).next_port == old(registry).next_port
                &&& r.1 is NoEffect
                &&& if contains_domain(old(registry).table(), domain) {
                    &&& r.0@ == ResponseView::Error(
                        "Domain '"@ + domain + "' already registered"@,
                    )
                    &&& final(registry).table() == old(registry).table()
                } else {
                    &&& r.0@ == ResponseView::Okay(Some("Registered "@ + domain))
                    &&& final(registry).table() == old(registry).table().push(
                        ServiceView { domain, port, pid, directory },
                    )
                }
            },
            RequestView::Unregister { domain } => {
                &&& final(registry).next_port == old(registry).next_port
                &&& r.1 is NoEffect
                &&& if contains_domain(old(registry).table(), domain) {
                    &&& r.0@ == ResponseView::Okay(Some("Unregistered "@ + domain))
                    &&& final(registry).table() == remove_domain(
                        old(registry).table(),
                        domain,
                    ).1
                } else {
                    &&& r.0@ == ResponseView::Error("Domain '"@ + domain + "' not found"@)
                    &&& final(registry).table() == old(registry).table()
                }
            },
            RequestView::GetPort => {
                &&& r.0@ == ResponseView::Port(old(registry).next_port)
                &&& port_in_range(old(registry).next_port)
                &&& final(registry).table() == old(registry).table()
                &&& final(registry).next_port == if old(registry).next_port >= PORT_RANGE_END {
                    PORT_RANGE_START
                } else {
                    (old(registry).next_port + 1) as u16
                }
                &&& r.1 is NoEffect
            },
            RequestView::List => {
                &&& r.0@ == ResponseView::Services(old(registry).table())
                &&& final(registry).table() == old(registry).table()
                &&& final(registry).next_port == old(registry).next_port
                &&& r.1 is NoEffect
            },
            RequestView::Stop { domain } => {
                &&& final(registry).next_port == old(registry).next_port
                &&& if contains_domain(old(registry).table(), domain) {
                    &&& r.0@ == ResponseView::Okay(Some("Stopped "@ + domain))
                    &&& final(registry).table() == remove_domain(
                        old(registry).table(),
                        domain,
                    ).1
                    &&& r.1 == Action::SendSigterm(
                        remove_domain(old(registry).table(), domain).0.unwrap().pid,
                    )
                } else {
                    &&& r.0@ == ResponseView::Error("Domain '"@ + domain + "' not found"@)
                    &&& final(registry).table() == old(registry).table()
                    &&& r.1 is NoEffect
                }
            },
            RequestView::Shutdown => {
                &&& r.0@ == ResponseView::Okay(None)
                &&& final(registry).table() == old(registry).table()
                &&& final(registry).next_port == old(registry).next_port
                &&& r.1 is Shutdown
            },
            RequestView::HttpsStatus => {
                &&& r.0@ == ResponseView::HttpsEnabled(https)
                &&& final(registry).table() == old(registry).table()
                &&& final(registry).next_port == old(registry).next_port
                &&& r.1 is NoEffect
            },
        },
{
    match req {
        Request::Register { domain, port, pid, directory } => {
            let service = Service { domain: domain.clone(), port, pid, directory };
            match registry.register(service) {
                Ok(()) => {
                    let mut m = "Registered ".to_owned();
                    m.append(domain.as_str());
                    (Response::Okay(Some(m)), Action::NoEffect)
                },
                Err(RegistryError::DomainTaken) => {
                    let mut m = "Domain '".to_owned();
                    m.append(domain.as_str());
                    m.append("' already registered");
                    (Response::Error(m), Action::NoEffect)
                },
            }
        },
        Request::Unregister { domain } => {
            match registry.unregister(domain.as_str()) {
                Some(_) => {
                    proof {
                        lemma_remove_some_contains(old(registry).table(), domain@);
                    }
                    let mut m = "Unregistered ".to_owned();
                    m.append(domain.as_str());
                    (Response::Okay(Some(m)), Action::NoEffect)
                },
                None => {
                    let mut m = "Domain '".to_owned();
                    m.append(domain.as_str());
                    m.append("' not found");
                    (Response::Error(m), Action::NoEffect)
                },
            }
        },
        Request::GetPort => {
            let port = registry.get_port();
            (Response::Port(port), Action::NoEffect)
        },
        Request::List => {
            let list = registry.list();
            proof {
                assert(services_view(list@) =~= registry.table());
            }
            let resp = Response::Services(list);
            proof {
                assert(resp@ == ResponseView::Services(registry.table()));
            }
            (resp, Action::NoEffect)
        },
        Request::Stop { domain } => {
            match registry.unregister(domain.as_str()) {
                Some(service) => {
                    proof {
                        lemma_remove_some_contains(old(registry).table(), domain@);
                    }
                    let mut m = "Stopped ".to_owned();
                    m.append(domain.as_str());
                    (Response::Okay(Some(m)), Action::SendSigterm(service.pid))
                },
                None => {
                    let mut m = "Domain '".to_owned();
                    m.append(domain.as_str());
                    m.append("' not found");
                    (Response::Error(m), Action::NoEffect)
                },
            }
        },
        Request::Shutdown => (Response::Okay(None), Action::Shutdown),
        Request::HttpsStatus => (Response::HttpsEnabled(https), Action::NoEffect),
    }
}

/// A successful removal witnesses the domain.
proof fn lemma_remove_some_contains(s: Seq<ServiceView>, d: Seq<char>)
    requires
        remove_domain(s, d).0 is Some,
    ensures
        contains_domain(s, d),
    decreases s.len(),
{
    if s.len() > 0 {
        if s[0].domain == d {
        } else {
            lemma_remove_some_contains(s.skip(1), d);
            let i = choose|i: int| 0 <= i < s.skip(1).len() && s.skip(1)[i].domain == d;
            assert(s[i + 1].domain == d);
        }
    }
}

// ---------------------------------------------------------------------
// Startup: the pid-file check
// ---------------------------------------------------------------------

/// What a starting daemon does about an existing pid file.
#[derive(Debug)]
pub enum StartupDecision {
    /// The pid file names a live process: refuse to start.
    AlreadyRunning(u32),
    /// The pid file is stale or unreadable: remove it and start.
    RemoveStaleAndStart,
}

/// Trailing whitespace removed.
pub open spec fn trim_back(s: Seq<char>) -> Seq<char>
    decreases s.len(),
{
    if s.len() > 0 && crate::codec::is_ws(s.last()) {
        trim_back(s.drop_last())
    } else {
        s
    }
}

/// The pid a pid-file document names: its content with surrounding
/// whitespace removed must be all digits and fit a `u32`.
pub open spec fn spec_pid_of(s: Seq<char>) -> Option<u32> {
    let t = trim_back(crate::codec::sp_ws(s));
    if t.len() > 0 && (forall|i: int| 0 <= i < t.len() ==> is_digit(t[i])) && digits_val(t)
        <= u32::MAX {
        Some(digits_val(t) as u32)
    } else {
        None
    }
}

/// Read the pid out of a pid-file document.
pub fn pid_file_pid(content: &str) -> (r: Option<u32>)
    ensures
        r == spec_pid_of(content@),
{
    let v = string_to_chars(content);
    proof {
        assert(v@.skip(0) =~= v@);
    }
    let mut a: usize = 0;
    while a < v.len() && (v[a] == ' ' || v[a] == '\t' || v[a] == '\n' || v[a] == '\r')
        invariant
            0 <= a <= v.len(),
            crate::codec::sp_ws(v@) == crate::codec::sp_ws(v@.skip(a as int)),
        decreases v.len() - a,
    {
        proof {
            assert(v@.skip(a as int).skip(1) =~= v@.skip(a + 1));
        }
        a += 1;
    }
    proof {
        assert(crate::codec::sp_ws(v@.skip(a as int)) == v@.skip(a as int));
    }
    let mut b: usize = v.len();
    while b > a && (v[b - 1] == ' ' || v[b - 1] == '\t' || v[b - 1] == '\n' || v[b - 1] == '\r')
        invariant
            a <= b <= v.len(),
            trim_back(v@.skip(a as int)) == trim_back(v@.subrange(a as int, b as int)),
        decreases b,
    {
        proof {
            let cur = v@.subrange(a as int, b as int);
            assert(cur.last() == v@[b - 1]);
            assert(cur.drop_last() =~= v@.subrange(a as int, b - 1));
        }
        b -= 1;
    }
    let ghost t = trim_back(v@.skip(a as int));
    proof {
        let cur = v@.subrange(a as int, b as int);
        if cur.len() > 0 {
            assert(cur.last() == v@[b - 1]);
        }
        assert(trim_back(cur) == cur);
        assert(t == cur);
    }
    if b == a {
        return None;
    }
    let mut acc: u32 = 0;
    let mut i = a;
    while i < b
        invariant
            a <= i <= b <= v.len(),
            b > a,
            v@ == content@,
            t == trim_back(crate::codec::sp_ws(v@)),
            t == v@.subrange(a as int, b as int),
            forall|k: int| a <= k < i ==> is_digit(v@[k]),
            acc as nat == digits_val(v@.subrange(a as int, i as int)),
        decreases b - i,
    {
        let c = v[i];
        if (c as u32) < 48 || (c as u32) > 57 {
            proof {
                assert(t[i - a] == v@[i as int]);
                assert(!is_digit(t[i - a]));
            }
            return None;
        }
        let d: u32 = (c as u32) - 48;
        proof {
            let pre = v@.subrange(a as int, i as int);
            let pre1 = v@.subrange(a as int, i + 1);
            assert(pre1.drop_last() =~= pre);
            assert(pre1.last() == v@[i as int]);
            assert(digit_val(c) == d as nat);
        }
        if acc > (u32::MAX - d) / 10 {
            proof {
                let pre1 = v@.subrange(a as int, i + 1);
                assert((acc as nat) * 10 + (d as nat) > u32::MAX as nat) by (nonlinear_arith)
                    requires
                        acc > (u32::MAX - d) / 10,
                        d < 10,
                {
                    vstd::arithmetic::div_mod::lemma_fundamental_div_mod(
                        (u32::MAX - d) as int,
                        10,
                    );
                }
                assert(pre1 =~= t.subrange(0, i + 1 - a));
                crate::strutil::lemma_digits_val_monotone(pre1, t);
                assert(digits_val(t) > u32::MAX as nat);
            }
            return None;
        }
        proof {
            assert((acc as nat) * 10 + (d as nat) <= u32::MAX as nat) by (nonlinear_arith)
                requires
                    acc <= (u32::MAX - d) / 10,
                    d < 10,
            {
                vstd::arithmetic::div_mod::lemma_fundamental_div_mod((u32::MAX - d) as int, 10);
            }
        }
        acc = acc * 10 + d;
        i += 1;
    }
    proof {
        assert(v@.subrange(a as int, b as int) == t);
        assert forall|k: int| 0 <= k < t.len() implies is_digit(t[k]) by {
            assert(t[k] == v@[a + k]);
        }
    }
    Some(acc)
}

/// Decide what a starting daemon does when a pid file exists: `pid`
/// is what the file named, if it could be read as a number, and
/// `alive` reports whether that process exists.
pub fn startup_decision(pid: Option<u32>, alive: bool) -> (r: StartupDecision)
    ensures
        match pid {
            Some(p) => r == if alive {
                StartupDecision::AlreadyRunning(p)
            } else {
                StartupDecision::RemoveStaleAndStart
            },
            None => r == StartupDecision::RemoveStaleAndStart,
        },
{
    match pid {
        Some(p) => if alive {
            StartupDecision::AlreadyRunning(p)
        } else {
            StartupDecision::RemoveStaleAndStart
        },
        None => StartupDecision::RemoveStaleAndStart,
    }
}

impl PartialEq for StartupDecision {
    fn eq(&self, other: &StartupDecision) -> (r: bool) {
        match (self, other) {
            (StartupDecision::AlreadyRunning(a), StartupDecision::AlreadyRunning(b)) => a == b,
            (StartupDecision::RemoveStaleAndStart, StartupDecision::RemoveStaleAndStart) => true,
            _ => false,
        }
    }
}

impl vstd::std_specs::cmp::PartialEqSpecImpl for StartupDecision {
    open spec fn obeys_eq_spec() -> bool {
        true
    }

    open spec fn eq_spec(&self, other: &StartupDecision) -> bool {
        *self == *other
    }
}

// ---------------------------------------------------------------------
// Laws relating the registry operations
// ---------------------------------------------------------------------

/// Registering a fresh domain and then looking it up, with no
/// intervening mutation of that domain, yields exactly the registered
/// binding, its port included.
pub proof fn lemma_register_then_lookup(s: Seq<ServiceView>, v: ServiceView)
    requires
        !contains_domain(s, v.domain),
    ensures
        lookup_domain(s.push(v), v.domain) == Some(v),
{
    let n = s.len() as int;
    assert(s.push(v)[n] == v);
    assert forall|k: int| 0 <= k < n implies s.push(v)[k].domain != v.domain by {
        assert(s.push(v)[k] == s[k]);
    }
    lemma_lookup_at_unique_domain(s.push(v), n, v.domain);
}

/// Registering a fresh domain and then unregistering it returns the
/// binding table, and with it the rendered snapshot, to its prior
/// state.
pub proof fn lemma_register_unregister(s: Seq<ServiceView>, v: ServiceView)
    requires
        !contains_domain(s, v.domain),
    ensures
        remove_domain(s.push(v), v.domain) == (Some(v), s),
        jsnapshot(remove_domain(s.push(v), v.domain).1) == jsnapshot(s),
    decreases s.len(),
{
    if s.len() == 0 {
        assert(s.push(v)[0] == v);
        assert(s.push(v).skip(1) =~= s);
    } else {
        assert(s.push(v)[0] == s[0]);
        assert(s[0].domain != v.domain);
        assert(s.push(v).skip(1) =~= s.skip(1).push(v));
        assert(!contains_domain(s.skip(1), v.domain)) by {
            if contains_domain(s.skip(1), v.domain) {
                let i = choose|i: int|
                    0 <= i < s.skip(1).len() && s.skip(1)[i].domain == v.domain;
                assert(s[i + 1].domain == v.domain);
            }
        }
        lemma_register_unregister(s.skip(1), v);
        assert(seq![s[0]] + s.skip(1) =~= s);
    }
}

/// Sweeping by liveness flags that agree with a liveness predicate is
/// sweeping by the predicate.
pub proof fn lemma_sweep_flags_pred(s: Seq<ServiceView>, alive: Seq<bool>, live: spec_fn(u32) -> bool)
    requires
        s.len() == alive.len(),
        forall|i: int| 0 <= i < s.len() ==> alive[i] == live(s[i].pid),
    ensures
        sweep_flags(s, alive) == sweep_pred(s, live),
    decreases s.len(),
{
    if s.len() > 0 {
        assert forall|i: int| 0 <= i < s.skip(1).len() implies alive.skip(1)[i] == live(
            s.skip(1)[i].pid,
        ) by {
            assert(s.skip(1)[i] == s[i + 1]);
            assert(alive.skip(1)[i] == alive[i + 1]);
        }
        lemma_sweep_flags_pred(s.skip(1), alive.skip(1), live);
        assert(alive[0] == live(s[0].pid));
    }
}

/// The liveness sweep is idempotent: sweeping a table that was just
/// swept with the same liveness verdicts removes nothing more.
pub proof fn lemma_sweep_idempotent(s: Seq<ServiceView>, live: spec_fn(u32) -> bool)
    ensures
        sweep_pred(sweep_pred(s, live), live) == sweep_pred(s, live),
    decreases s.len(),
{
    if s.len() > 0 {
        lemma_sweep_idempotent(s.skip(1), live);
        if live(s[0].pid) {
            let t = seq![s[0]] + sweep_pred(s.skip(1), live);
            assert(t[0] == s[0]);
            assert(t.skip(1) =~= sweep_pred(s.skip(1), live));
            assert(sweep_pred(t, live) == seq![s[0]] + sweep_pred(sweep_pred(s.skip(1), live), live));
        }
    }
}

/// The snapshot a registry writes parses back to exactly its binding
/// table.
pub proof fn lemma_registry_snapshot_round_trip(r: &Registry)
    ensures
        spec_parse_snapshot(jsnapshot(r.table())) == Some(r.table()),
{
    crate::codec::lemma_snapshot_round_trip(r.table());
}

} // verus!
