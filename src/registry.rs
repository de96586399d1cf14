use vstd::prelude::*;

verus! {

/// The map that a list of `(port, proxy)` entries stands for: a later
/// entry for a port replaces an earlier one.
pub open spec fn entries_map<P>(entries: Seq<(u16, P)>) -> Map<u16, P>
    decreases entries.len(),
{
    if entries.len() == 0 {
        Map::empty()
    } else {
        entries_map(entries.drop_last()).insert(entries.last().0, entries.last().1)
    }
}

/// The ports of an application after a snapshot that configures `ports`,
/// where `fresh[i]` is the proxy freshly started on `ports[i]`, or `None`
/// where binding that port failed.
pub open spec fn reconciled<P>(ports: Seq<u16>, fresh: Seq<Option<P>>) -> Map<u16, P>
    decreases ports.len(),
{
    if ports.len() == 0 || fresh.len() == 0 {
        Map::empty()
    } else {
        let m = reconciled(ports.drop_last(), fresh.drop_last());
        match fresh.last() {
            Some(p) => m.insert(ports.last(), p),
            None => m,
        }
    }
}

/// The `(ports[i], p)` pairs, in order, for which `fresh[i] == Some(p)`.
pub open spec fn bound_pairs<P>(ports: Seq<u16>, fresh: Seq<Option<P>>) -> Seq<(u16, P)>
    decreases ports.len(),
{
    if ports.len() == 0 || fresh.len() == 0 {
        Seq::empty()
    } else {
        let e = bound_pairs(ports.drop_last(), fresh.drop_last());
        match fresh.last() {
            Some(p) => e.push((ports.last(), p)),
            None => e,
        }
    }
}

/// No two entries share a port.
pub open spec fn ports_unique<P>(entries: Seq<(u16, P)>) -> bool {
    forall|i: int, j: int|
        0 <= i < j < entries.len() ==> #[trigger] entries[i].0 != #[trigger] entries[j].0
}

/// The ports of `s` in the order of their first occurrence.
pub open spec fn first_occurrences(s: Seq<u16>) -> Seq<u16>
    decreases s.len(),
{
    if s.len() == 0 {
        Seq::empty()
    } else {
        let d = first_occurrences(s.drop_last());
        if d.contains(s.last()) {
            d
        } else {
            d.push(s.last())
        }
    }
}

/// The live proxies of one application, keyed by port. The table owns every
/// proxy in it; a proxy leaves it only by being handed back to the caller,
/// who shuts it down.
pub struct PortTable<P> {
    entries: Vec<(u16, P)>,
}

impl<P> View for PortTable<P> {
    type V = Map<u16, P>;

    open spec fn view(&self) -> Map<u16, P> {
        entries_map(self.entries())
    }
}

impl<P> PortTable<P> {
    /// Every proxy the table owns, with its port, in insertion order.
    pub closed spec fn entries(&self) -> Seq<(u16, P)> {
        self.entries@
    }

    /// An empty table.
    pub fn new() -> (r: Self)
        ensures
            r@ == Map::<u16, P>::empty(),
            r.entries() == Seq::<(u16, P)>::empty(),
    {
        PortTable { entries: Vec::new() }
    }

    /// Number of proxies the table owns.
    pub fn len(&self) -> (r: usize)
        ensures
            r == self.entries().len(),
    {
        self.entries.len()
    }

    /// The ports of the table, in insertion order.
    pub fn ports(&self) -> (r: Vec<u16>)
        ensures
            r@ == self.entries().map_values(|e: (u16, P)| e.0),
    {
        let mut r: Vec<u16> = Vec::new();
        let mut i: usize = 0;
        while i < self.entries.len()
            invariant
                i <= self.entries@.len(),
                r@ == self.entries@.take(i as int).map_values(|e: (u16, P)| e.0),
            decreases self.entries@.len() - i,
        {
            r.push(self.entries[i].0);
            assert(self.entries@.take(i + 1).map_values(|e: (u16, P)| e.0) =~= self.entries@.take(
                i as int,
            ).map_values(|e: (u16, P)| e.0).push(self.entries@[i as int].0));
            i = i + 1;
        }
        assert(self.entries@.take(i as int) =~= self.entries@);
        r
    }

    /// The proxy on `port`, if any.
    pub fn get(&self, port: u16) -> (r: Option<&P>)
        ensures
            r matches Some(p) ==> self@.contains_key(port) && self@[port] == *p,
            r is None ==> !self@.contains_key(port),
    {
        let ghost s = self.entries@;
        let mut i: usize = self.entries.len();
        assert(s.take(i as int) =~= s);
        while i > 0
            invariant
                i <= s.len(),
                s == self.entries@,
                entries_map(s.take(i as int)).contains_key(port) == entries_map(s).contains_key(port),
                entries_map(s.take(i as int)).contains_key(port) ==> entries_map(s.take(i as int))[port]
                    == entries_map(s)[port],
            decreases i,
        {
            assert(s.take(i as int).drop_last() =~= s.take(i - 1));
            if self.entries[i - 1].0 == port {
                return Some(&self.entries[i - 1].1);
            }
            i = i - 1;
        }
        None
    }

    /// Apply a configuration snapshot to this application's ports.
    ///
    /// `ports` are the configured ports, each once; `fresh[i]` is the proxy
    /// just started on `ports[i]`, or `None` where binding that port failed.
    /// Every configured port is recreated on every snapshot, so every
    /// previous occupant is retired: those on ports that are no longer
    /// configured, and those replaced by a fresh instance. The retired
    /// proxies are returned for the caller to shut down; the table then holds
    /// exactly the fresh proxies, one per port.
    pub fn reconcile(&mut self, ports: &Vec<u16>, fresh: Vec<Option<P>>) -> (retired: Vec<(u16, P)>)
        requires
            fresh@.len() == ports@.len(),
            ports@.no_duplicates(),
        ensures
            final(self).entries() == bound_pairs(ports@, fresh@),
            ports_unique(final(self).entries()),
            final(self)@ == reconciled(ports@, fresh@),
            retired@ == old(self).entries(),
    {
        let ghost fresh0 = fresh@;
        let mut fresh = fresh;
        let mut entries: Vec<(u16, P)> = Vec::new();
        let n: usize = ports.len();
        let mut i: usize = 0;
        while i < n
            invariant
                n == ports@.len(),
                fresh0.len() == n,
                i <= n,
                fresh@ == fresh0.skip(i as int),
                ports@.no_duplicates(),
                entries@ == bound_pairs(ports@.take(i as int), fresh0.take(i as int)),
                entries_map(entries@) == reconciled(ports@.take(i as int), fresh0.take(i as int)),
                ports_unique(entries@),
                forall|j: int|
                    0 <= j < entries@.len() ==> ports@.take(i as int).contains(#[trigger] entries@[j].0),
            decreases n - i,
        {
            let f = fresh.remove(0);
            proof {
                assert(ports@.take(i + 1).drop_last() =~= ports@.take(i as int));
                assert(fresh0.take(i + 1).drop_last() =~= fresh0.take(i as int));
                assert(fresh@ =~= fresh0.skip(i + 1));
            }
            match f {
                Some(p) => {
                    let ghost before = entries@;
                    entries.push((ports[i], p));
                    proof {
                        assert(entries@.drop_last() =~= before);
                        assert forall|j: int| 0 <= j < before.len() implies before[j].0 != ports@[i as int] by {
                            let m = choose|m: int| 0 <= m < i && ports@.take(i as int)[m] == before[j].0;
                            assert(ports@[m] == before[j].0);
                        }
                        assert forall|j: int|
                            0 <= j < entries@.len() implies ports@.take(i + 1).contains(#[trigger] entries@[j].0) by {
                            if j < before.len() {
                                let m = choose|m: int| 0 <= m < i && ports@.take(i as int)[m] == before[j].0;
                                assert(ports@.take(i + 1)[m] == before[j].0);
                            } else {
                                assert(ports@.take(i + 1)[i as int] == ports@[i as int]);
                            }
                        }
                    }
                },
                None => {
                    assert forall|j: int|
                        0 <= j < entries@.len() implies ports@.take(i + 1).contains(#[trigger] entries@[j].0) by {
                        let m = choose|m: int| 0 <= m < i && ports@.take(i as int)[m] == entries@[j].0;
                        assert(ports@.take(i + 1)[m] == entries@[j].0);
                    }
                },
            }
            i = i + 1;
        }
        proof {
            assert(ports@.take(n as int) =~= ports@);
            assert(fresh0.take(n as int) =~= fresh0);
        }
        std::mem::swap(&mut self.entries, &mut entries);
        entries
    }
}

/// The configured ports, each once, in the order of their first occurrence.
pub fn unique_ports(ports: &Vec<u16>) -> (r: Vec<u16>)
    ensures
        r@ == first_occurrences(ports@),
        r@.no_duplicates(),
        r@.to_set() == ports@.to_set(),
{
    let mut r: Vec<u16> = Vec::new();
    let mut i: usize = 0;
    while i < ports.len()
        invariant
            i <= ports@.len(),
            r@ == first_occurrences(ports@.take(i as int)),
            r@.no_duplicates(),
            r@.to_set() == ports@.take(i as int).to_set(),
        decreases ports@.len() - i,
    {
        let x = ports[i];
        let mut seen = false;
        let mut j: usize = 0;
        while j < r.len()
            invariant
                j <= r@.len(),
                seen <==> exists|k: int| 0 <= k < j && r@[k] == x,
            decreases r@.len() - j,
        {
            if r[j] == x {
                seen = true;
            }
            j = j + 1;
        }
        assert(seen <==> r@.contains(x));
        let ghost before = r@;
        assert(ports@.take(i + 1).drop_last() =~= ports@.take(i as int));
        assert(ports@.take(i + 1) =~= ports@.take(i as int).push(x));
        if !seen {
            r.push(x);
            proof {
                before.lemma_push_to_set_commute(x);
            }
        }
        proof {
            ports@.take(i as int).lemma_push_to_set_commute(x);
            if seen {
                assert(before.to_set().contains(x));
                assert(before.to_set().insert(x) =~= before.to_set());
            }
        }
        i = i + 1;
    }
    assert(ports@.take(i as int) =~= ports@);
    r
}

/// Every proxy that a table maps a port to is one of its entries, and every
/// entry's port is mapped. With `reconcile` handing back every old entry,
/// the proxy that held a removed or replaced port is among the retired ones.
pub proof fn lemma_entries_map<P>(e: Seq<(u16, P)>)
    ensures
        forall|k: u16|
            #[trigger] entries_map(e).contains_key(k) ==> exists|i: int|
                0 <= i < e.len() && e[i] == (k, entries_map(e)[k]),
        forall|i: int| 0 <= i < e.len() ==> entries_map(e).contains_key(#[trigger] e[i].0),
    decreases e.len(),
{
    if e.len() > 0 {
        let d = e.drop_last();
        lemma_entries_map(d);
        let n = e.len() - 1;
        assert(forall|i: int| 0 <= i < n ==> d[i] == e[i]);
        assert forall|k: u16| #[trigger] entries_map(e).contains_key(k) implies exists|i: int|
            0 <= i < e.len() && e[i] == (k, entries_map(e)[k]) by {
            if k == e[n].0 {
                assert(e[n] == (k, entries_map(e)[k]));
            } else {
                assert(entries_map(d).contains_key(k));
                let i = choose|i: int| 0 <= i < d.len() && d[i] == (k, entries_map(d)[k]);
                assert(e[i] == (k, entries_map(e)[k]));
            }
        }
        assert forall|i: int| 0 <= i < e.len() implies entries_map(e).contains_key(#[trigger] e[i].0) by {
            if i < n {
                assert(entries_map(d).contains_key(d[i].0));
            }
        }
    }
}

/// Membership in the reconciled table: a port has an entry exactly when it
/// is configured and a fresh proxy was bound for it, and that entry is the
/// fresh proxy of its last occurrence in the configuration.
pub proof fn lemma_reconciled<P>(ports: Seq<u16>, fresh: Seq<Option<P>>)
    requires
        fresh.len() == ports.len(),
    ensures
        forall|k: u16|
            #[trigger] reconciled(ports, fresh).contains_key(k) <==> exists|i: int|
                0 <= i < ports.len() && ports[i] == k && fresh[i] is Some,
        forall|i: int|
            0 <= i < ports.len() && fresh[i] is Some && (forall|j: int|
                i < j < ports.len() ==> ports[j] != ports[i]) ==> reconciled(ports, fresh)[ports[i]]
                == fresh[i].unwrap(),
    decreases ports.len(),
{
    if ports.len() > 0 {
        let ps = ports.drop_last();
        let fs = fresh.drop_last();
        lemma_reconciled(ps, fs);
        let n = ports.len() - 1;
        assert(fs.len() == ps.len());
        assert(forall|i: int| 0 <= i < n ==> ps[i] == ports[i] && fs[i] == fresh[i]);
        assert(fresh.last() == fresh[n] && ports.last() == ports[n]);
        assert forall|k: u16|
            #[trigger] reconciled(ports, fresh).contains_key(k) <==> exists|i: int|
                0 <= i < ports.len() && ports[i] == k && fresh[i] is Some by {
            if reconciled(ports, fresh).contains_key(k) {
                if !(reconciled(ps, fs).contains_key(k)) {
                    assert(ports[n] == k && fresh[n] is Some);
                } else {
                    let i = choose|i: int| 0 <= i < ps.len() && ps[i] == k && fs[i] is Some;
                    assert(ports[i] == k && fresh[i] is Some);
                }
            }
            if exists|i: int| 0 <= i < ports.len() && ports[i] == k && fresh[i] is Some {
                let i = choose|i: int| 0 <= i < ports.len() && ports[i] == k && fresh[i] is Some;
                if i < n {
                    assert(ps[i] == k && fs[i] is Some);
                    assert(reconciled(ps, fs).contains_key(k));
                }
            }
        }
        assert forall|i: int|
            0 <= i < ports.len() && fresh[i] is Some && (forall|j: int|
                i < j < ports.len() ==> ports[j] != ports[i]) implies reconciled(ports, fresh)[ports[i]]
            == fresh[i].unwrap() by {
            if i < n {
                assert(ps[i] == ports[i] && fs[i] == fresh[i]);
                assert(forall|j: int| i < j < ps.len() ==> ps[j] == ports[j]);
            }
        }
    }
}

/// Reconciliation key set: when every configured port was bound, the
/// application's ports after a snapshot are exactly the configured ones, each
/// held by the proxy freshly started for it; whatever the table held before
/// plays no part.
pub proof fn reconciliation_key_set<P>(ports: Seq<u16>, fresh: Seq<Option<P>>)
    requires
        fresh.len() == ports.len(),
        ports.no_duplicates(),
        forall|i: int| 0 <= i < fresh.len() ==> #[trigger] fresh[i] is Some,
    ensures
        reconciled(ports, fresh).dom() == ports.to_set(),
        forall|i: int|
            0 <= i < ports.len() ==> reconciled(ports, fresh)[#[trigger] ports[i]]
                == fresh[i].unwrap(),
{
    lemma_reconciled(ports, fresh);
    assert forall|k: u16| reconciled(ports, fresh).dom().contains(k) <==> ports.to_set().contains(
        k,
    ) by {
        if ports.to_set().contains(k) {
            let i = choose|i: int| 0 <= i < ports.len() && ports[i] == k;
            assert(fresh[i] is Some);
        }
    }
    assert(reconciled(ports, fresh).dom() =~= ports.to_set());
}

} // verus!
