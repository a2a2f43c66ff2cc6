//! The per-channel metrics sidecar: one slot per handle creation site,
//! holding the site's label, the handle kind, and a cumulative count.  A
//! snapshot maps each call site to the total recorded over all slots of
//! one kind at that site.

use vstd::prelude::*;

verus! {

/// Which side of the channel a metrics slot belongs to.
#[derive(Clone, Copy, Debug)]
pub enum HolderType {
    Sender,
    Receiver,
}

/// The total recorded over all slots of one kind whose label reads `site`.
pub open spec fn site_total(
    locs: Seq<String>,
    kinds: Seq<HolderType>,
    counts: Seq<usize>,
    sender: bool,
    site: Seq<char>,
) -> int
    decreases locs.len(),
{
    if locs.len() == 0 || locs.len() != kinds.len() || locs.len() != counts.len() {
        0
    } else {
        site_total(locs.drop_last(), kinds.drop_last(), counts.drop_last(), sender, site) + (
        if (kinds.last() is Sender) == sender && locs.last()@ == site {
            counts.last() as int
        } else {
            0
        })
    }
}

/// The sum of every slot's count.
pub open spec fn counts_total(counts: Seq<usize>) -> int
    decreases counts.len(),
{
    if counts.len() == 0 {
        0
    } else {
        counts_total(counts.drop_last()) + counts.last() as int
    }
}

/// Some slot of the kind carries the label `site`.
pub open spec fn site_present(
    locs: Seq<String>,
    kinds: Seq<HolderType>,
    sender: bool,
    site: Seq<char>,
) -> bool {
    exists|i: int|
        0 <= i < locs.len() && i < kinds.len() && ((#[trigger] kinds[i]) is Sender) == sender && (
        #[trigger] locs[i])@ == site
}

proof fn lemma_counts_total_nonneg(counts: Seq<usize>)
    ensures
        0 <= counts_total(counts),
    decreases counts.len(),
{
    if counts.len() > 0 {
        lemma_counts_total_nonneg(counts.drop_last());
    }
}

proof fn lemma_site_total_le_counts(
    locs: Seq<String>,
    kinds: Seq<HolderType>,
    counts: Seq<usize>,
    sender: bool,
    site: Seq<char>,
)
    requires
        locs.len() == kinds.len(),
        locs.len() == counts.len(),
    ensures
        0 <= site_total(locs, kinds, counts, sender, site),
        site_total(locs, kinds, counts, sender, site) <= counts_total(counts),
    decreases locs.len(),
{
    if locs.len() > 0 {
        lemma_site_total_le_counts(
            locs.drop_last(),
            kinds.drop_last(),
            counts.drop_last(),
            sender,
            site,
        );
    }
}

proof fn lemma_counts_total_take_le(counts: Seq<usize>, m: int)
    requires
        0 <= m <= counts.len(),
    ensures
        counts_total(counts.take(m)) <= counts_total(counts),
    decreases counts.len(),
{
    if m == counts.len() {
        assert(counts.take(m) =~= counts);
    } else {
        assert(counts.take(m) =~= counts.drop_last().take(m));
        lemma_counts_total_take_le(counts.drop_last(), m);
    }
}

proof fn lemma_site_absent_zero(
    locs: Seq<String>,
    kinds: Seq<HolderType>,
    counts: Seq<usize>,
    sender: bool,
    site: Seq<char>,
)
    requires
        locs.len() == kinds.len(),
        locs.len() == counts.len(),
        !site_present(locs, kinds, sender, site),
    ensures
        site_total(locs, kinds, counts, sender, site) == 0,
    decreases locs.len(),
{
    if locs.len() > 0 {
        assert(locs.last() == locs[locs.len() - 1]);
        assert(kinds.last() == kinds[kinds.len() - 1]);
        assert(!site_present(locs.drop_last(), kinds.drop_last(), sender, site)) by {
            assert(forall|i: int|
                0 <= i < locs.len() - 1 ==> #[trigger] locs.drop_last()[i] == locs[i]);
            assert(forall|i: int|
                0 <= i < kinds.len() - 1 ==> #[trigger] kinds.drop_last()[i] == kinds[i]);
        }
        lemma_site_absent_zero(locs.drop_last(), kinds.drop_last(), counts.drop_last(), sender, site);
    }
}

/// A snapshot of the sidecar: the total recorded per creation site, split
/// by handle kind; each site appears once per kind.
pub struct MetricsResult {
    pub sender_counts: Vec<(String, usize)>,
    pub receiver_counts: Vec<(String, usize)>,
}

/// One side of a snapshot is correct for its kind: sites are pairwise
/// distinct, every entry carries its site's total, every slot of the kind
/// has an entry, and no entry names a site without a slot.
pub open spec fn snapshot_ok(
    out: Seq<(String, usize)>,
    locs: Seq<String>,
    kinds: Seq<HolderType>,
    counts: Seq<usize>,
    sender: bool,
) -> bool {
    &&& forall|a: int, b: int|
        0 <= a < b < out.len() ==> (#[trigger] out[a]).0@ != (#[trigger] out[b]).0@
    &&& forall|j: int|
        0 <= j < out.len() ==> (#[trigger] out[j]).1 as int == site_total(
            locs,
            kinds,
            counts,
            sender,
            out[j].0@,
        ) && site_present(locs, kinds, sender, out[j].0@)
    &&& forall|i: int|
        0 <= i < locs.len() && i < kinds.len() && ((#[trigger] kinds[i]) is Sender) == sender
            ==> exists|j: int| 0 <= j < out.len() && (#[trigger] out[j]).0@ == locs[i]@
}

/// The metrics sidecar.  Each handle creation registers a slot; each
/// operation adds to its slot; a snapshot totals the slots by site and
/// kind and optionally clears them.
pub struct MetricsManager {
    caller_locs: Vec<String>,
    caller_holder_types: Vec<HolderType>,
    index_metrics: Vec<usize>,
}

/// Add `value` under `label` in `out`: bump the matching entry, or append
/// a new one when the label is absent.
fn accumulate(out: &mut Vec<(String, usize)>, label: String, value: usize)
    requires
        forall|a: int, b: int|
            0 <= a < b < old(out)@.len() ==> (#[trigger] old(out)@[a]).0@ != (
            #[trigger] old(out)@[b]).0@,
        forall|j: int|
            0 <= j < old(out)@.len() && (#[trigger] old(out)@[j]).0@ == label@ ==> old(out)@[j].1 + value <= usize::MAX,
    ensures
        forall|a: int, b: int|
            0 <= a < b < final(out)@.len() ==> (#[trigger] final(out)@[a]).0@ != (
            #[trigger] final(out)@[b]).0@,
        final(out)@.len() >= old(out)@.len(),
        forall|j: int|
            0 <= j < old(out)@.len() ==> (#[trigger] final(out)@[j]).0@ == old(out)@[j].0@ && final(out)@[j].1 as int == old(out)@[j].1 + (if old(out)@[j].0@ == label@ {
                value as int
            } else {
                0int
            }),
        (final(out)@.len() == old(out)@.len() + 1) <==> (forall|j: int|
            0 <= j < old(out)@.len() ==> (#[trigger] old(out)@[j]).0@ != label@),
        final(out)@.len() == old(out)@.len() || final(out)@.len() == old(out)@.len() + 1,
        final(out)@.len() == old(out)@.len() + 1 ==> final(out)@.last().0@ == label@ && final(out)@.last().1 == value,
        exists|j: int|
            0 <= j < final(out)@.len() && (#[trigger] final(out)@[j]).0@ == label@,
{
    let n = out.len();
    let mut i: usize = 0;
    while i < n
        invariant
            n == out@.len(),
            out@ == old(out)@,
            i <= n,
            forall|j: int| 0 <= j < i ==> (#[trigger] out@[j]).0@ != label@,
            forall|a: int, b: int|
                0 <= a < b < out@.len() ==> (#[trigger] out@[a]).0@ != (#[trigger] out@[b]).0@,
            forall|j: int|
                0 <= j < out@.len() && (#[trigger] out@[j]).0@ == label@ ==> out@[j].1 + value
                    <= usize::MAX,
        decreases n - i,
    {
        if out[i].0 == label {
            let current = out[i].1;
            let entry = (label, current + value);
            out.set(i, entry);
            proof {
                assert(forall|j: int|
                    0 <= j < out@.len() && j != i ==> #[trigger] out@[j] == old(out)@[j]);
                assert(old(out)@[i as int].0@ == label@);
                assert(out@[i as int].0@ == label@);
                assert forall|j: int|
                    0 <= j < old(out)@.len() && j != i implies (#[trigger] old(out)@[j]).0@
                    != label@ by {
                    if j < i {
                    } else {
                        assert(old(out)@[i as int].0@ == label@);
                    }
                }
            }
            return ;
        }
        i = i + 1;
    }
    out.push((label, value));
    proof {
        assert(forall|j: int|
            0 <= j < old(out)@.len() ==> #[trigger] out@[j] == old(out)@[j]);
        assert(out@.last().0@ == label@);
    }
}

impl MetricsManager {
    /// The slot labels, in slot order.
    pub closed spec fn locs(&self) -> Seq<String> {
        self.caller_locs@
    }

    /// The slot kinds, in slot order.
    pub closed spec fn kinds(&self) -> Seq<HolderType> {
        self.caller_holder_types@
    }

    /// The cumulative counts, in slot order.
    pub closed spec fn counts(&self) -> Seq<usize> {
        self.index_metrics@
    }

    pub open spec fn wf(&self) -> bool {
        self.locs().len() == self.kinds().len() && self.locs().len() == self.counts().len()
    }

    pub fn new() -> (r: Self)
        ensures
            r.wf(),
            r.locs() == Seq::<String>::empty(),
            r.kinds() == Seq::<HolderType>::empty(),
            r.counts() == Seq::<usize>::empty(),
    {
        MetricsManager {
            caller_locs: Vec::new(),
            caller_holder_types: Vec::new(),
            index_metrics: Vec::new(),
        }
    }

    /// Register a slot for a handle created at `caller`, starting at 0,
    /// and return its index.
    pub fn new_metrics_index(&mut self, caller: String, holder_type: HolderType) -> (index: usize)
        requires
            old(self).wf(),
        ensures
            final(self).wf(),
            index == old(self).locs().len(),
            final(self).locs() == old(self).locs().push(caller),
            final(self).kinds() == old(self).kinds().push(holder_type),
            final(self).counts() == old(self).counts().push(0usize),
    {
        let index = self.caller_locs.len();
        self.caller_locs.push(caller);
        self.caller_holder_types.push(holder_type);
        self.index_metrics.push(0);
        index
    }

    /// Add `count` operations to slot `index`.
    pub fn record(&mut self, index: usize, count: usize)
        requires
            old(self).wf(),
            index < old(self).counts().len(),
            old(self).counts()[index as int] + count <= usize::MAX,
        ensures
            final(self).wf(),
            final(self).locs() == old(self).locs(),
            final(self).kinds() == old(self).kinds(),
            final(self).counts() == old(self).counts().update(
                index as int,
                (old(self).counts()[index as int] + count) as usize,
            ),
    {
        let cur = self.index_metrics[index];
        self.index_metrics.set(index, cur + count);
    }

    /// Snapshot the totals by call site, one list per handle kind; with
    /// `clear`, every slot is reset to 0 afterwards.
    pub fn get_result(&mut self, clear: bool) -> (r: MetricsResult)
        requires
            old(self).wf(),
            counts_total(old(self).counts()) <= usize::MAX,
        ensures
            final(self).wf(),
            final(self).locs() == old(self).locs(),
            final(self).kinds() == old(self).kinds(),
            snapshot_ok(
                r.sender_counts@,
                old(self).locs(),
                old(self).kinds(),
                old(self).counts(),
                true,
            ),
            snapshot_ok(
                r.receiver_counts@,
                old(self).locs(),
                old(self).kinds(),
                old(self).counts(),
                false,
            ),
            !clear ==> final(self).counts() == old(self).counts(),
            clear ==> final(self).counts().len() == old(self).counts().len() && forall|i: int|
                0 <= i < final(self).counts().len() ==> final(self).counts()[i] == 0,
    {
        let n = self.caller_locs.len();
        let mut sender_counts: Vec<(String, usize)> = Vec::new();
        let mut receiver_counts: Vec<(String, usize)> = Vec::new();
        let mut i: usize = 0;
        while i < n
            invariant
                self.wf(),
                self.caller_locs@ == old(self).locs(),
                self.caller_holder_types@ == old(self).kinds(),
                self.index_metrics@ == old(self).counts(),
                counts_total(old(self).counts()) <= usize::MAX,
                n == self.locs().len(),
                i <= n,
                snapshot_ok(
                    sender_counts@,
                    self.locs().take(i as int),
                    self.kinds().take(i as int),
                    self.counts().take(i as int),
                    true,
                ),
                snapshot_ok(
                    receiver_counts@,
                    self.locs().take(i as int),
                    self.kinds().take(i as int),
                    self.counts().take(i as int),
                    false,
                ),
            decreases n - i,
        {
            let ghost pl = self.locs().take(i as int);
            let ghost pk = self.kinds().take(i as int);
            let ghost pc = self.counts().take(i as int);
            let ghost nl = self.locs().take(i + 1);
            let ghost nk = self.kinds().take(i + 1);
            let ghost nc = self.counts().take(i + 1);
            proof {
                assert(nl.drop_last() =~= pl);
                assert(nk.drop_last() =~= pk);
                assert(nc.drop_last() =~= pc);
                assert(nl.last() == self.locs()[i as int]);
                assert(nk.last() == self.kinds()[i as int]);
                assert(nc.last() == self.counts()[i as int]);
            }
            let caller_str = self.caller_locs[i].clone();
            let value = self.index_metrics[i];
            let is_sender = match self.caller_holder_types[i] {
                HolderType::Sender => true,
                HolderType::Receiver => false,
            };
            proof {
                let site = caller_str@;
                let snd = is_sender;
                let out = if snd {
                    sender_counts@
                } else {
                    receiver_counts@
                };
                assert forall|j: int|
                    0 <= j < out.len() && (#[trigger] out[j]).0@ == site implies out[j].1 + value
                    <= usize::MAX by {
                    assert(out[j].1 as int == site_total(pl, pk, pc, snd, site));
                    assert(site_total(nl, nk, nc, snd, site) == site_total(pl, pk, pc, snd, site)
                        + value);
                    lemma_site_total_le_counts(nl, nk, nc, snd, site);
                    lemma_counts_total_take_le(old(self).counts(), i + 1);
                }
            }
            if is_sender {
                self.step_snapshot(
                    Ghost(i as int),
                    Ghost(true),
                    &mut sender_counts,
                    caller_str,
                    value,
                );
                proof {
                    lemma_snapshot_other_kind(receiver_counts@, pl, pk, pc, nl, nk, nc, false);
                }
            } else {
                self.step_snapshot(
                    Ghost(i as int),
                    Ghost(false),
                    &mut receiver_counts,
                    caller_str,
                    value,
                );
                proof {
                    lemma_snapshot_other_kind(sender_counts@, pl, pk, pc, nl, nk, nc, true);
                }
            }
            i = i + 1;
        }
        proof {
            assert(self.locs().take(n as int) =~= self.locs());
            assert(self.kinds().take(n as int) =~= self.kinds());
            assert(self.counts().take(n as int) =~= self.counts());
        }
        if clear {
            let mut j: usize = 0;
            while j < n
                invariant
                    self.caller_locs@ == old(self).locs(),
                    self.caller_holder_types@ == old(self).kinds(),
                    n == self.locs().len(),
                    n == self.counts().len(),
                    j <= n,
                    forall|q: int| 0 <= q < j ==> self.counts()[q] == 0,
                decreases n - j,
            {
                self.index_metrics.set(j, 0);
                j = j + 1;
            }
        }
        MetricsResult { sender_counts, receiver_counts }
    }

    /// Fold slot `i`, known to be of the snapshot's kind, into `out`.
    fn step_snapshot(
        &self,
        Ghost(i): Ghost<int>,
        Ghost(snd): Ghost<bool>,
        out: &mut Vec<(String, usize)>,
        label: String,
        value: usize,
    )
        requires
            self.wf(),
            0 <= i < self.locs().len(),
            label@ == self.locs()[i]@,
            value == self.counts()[i],
            (self.kinds()[i] is Sender) == snd,
            snapshot_ok(
                old(out)@,
                self.locs().take(i),
                self.kinds().take(i),
                self.counts().take(i),
                snd,
            ),
            forall|j: int|
                0 <= j < old(out)@.len() && (#[trigger] old(out)@[j]).0@ == label@ ==> old(out)@[j].1 + value <= usize::MAX,
        ensures
            snapshot_ok(
                final(out)@,
                self.locs().take(i + 1),
                self.kinds().take(i + 1),
                self.counts().take(i + 1),
                snd,
            ),
    {
        let ghost pl = self.locs().take(i);
        let ghost pk = self.kinds().take(i);
        let ghost pc = self.counts().take(i);
        let ghost nl = self.locs().take(i + 1);
        let ghost nk = self.kinds().take(i + 1);
        let ghost nc = self.counts().take(i + 1);
        let ghost site = label@;
        proof {
            assert(nl.drop_last() =~= pl);
            assert(nk.drop_last() =~= pk);
            assert(nc.drop_last() =~= pc);
        }
        accumulate(out, label, value);
        proof {
            let o0 = old(out)@;
            let o1 = out@;
            if o1.len() == o0.len() + 1 {
                // The label was absent, so no earlier slot of this kind
                // carries it, and its prior total is 0.
                assert(!site_present(pl, pk, snd, site)) by {
                    if site_present(pl, pk, snd, site) {
                        let q = choose|q: int|
                            0 <= q < pl.len() && q < pk.len() && ((#[trigger] pk[q]) is Sender)
                                == snd && (#[trigger] pl[q])@ == site;
                        let w = choose|j: int| 0 <= j < o0.len() && (#[trigger] o0[j]).0@ == pl[q]@;
                        assert(o0[w].0@ == site);
                        assert(false);
                    }
                }
                lemma_site_absent_zero(pl, pk, pc, snd, site);
            }
            assert forall|j: int|
                0 <= j < o1.len() implies (#[trigger] o1[j]).1 as int == site_total(
                nl,
                nk,
                nc,
                snd,
                o1[j].0@,
            ) && site_present(nl, nk, snd, o1[j].0@) by {
                assert(nl[i] == self.locs()[i]);
                assert(nk[i] == self.kinds()[i]);
                if j < o0.len() {
                    assert(site_total(nl, nk, nc, snd, o1[j].0@) == site_total(
                        pl,
                        pk,
                        pc,
                        snd,
                        o1[j].0@,
                    ) + (if o1[j].0@ == site {
                        value as int
                    } else {
                        0int
                    }));
                    let q = choose|q: int|
                        0 <= q < pl.len() && q < pk.len() && ((#[trigger] pk[q]) is Sender) == snd
                            && (#[trigger] pl[q])@ == o0[j].0@;
                    assert(nl[q]@ == o1[j].0@ && (nk[q] is Sender) == snd);
                } else {
                    assert(o1[j].0@ == site);
                    assert(site_total(nl, nk, nc, snd, site) == 0 + value as int);
                    assert(nl[i]@ == site && (nk[i] is Sender) == snd);
                }
            }
            assert forall|q: int|
                0 <= q < nl.len() && q < nk.len() && ((#[trigger] nk[q]) is Sender) == snd implies
                exists|j: int| 0 <= j < o1.len() && (#[trigger] o1[j]).0@ == nl[q]@ by {
                if q < i {
                    assert(pl[q]@ == nl[q]@ && pk[q] == nk[q]);
                    let w = choose|j: int| 0 <= j < o0.len() && (#[trigger] o0[j]).0@ == pl[q]@;
                    assert(o1[w].0@ == nl[q]@);
                } else {
                    assert(nl[q]@ == site);
                    let w = choose|j: int| 0 <= j < o1.len() && (#[trigger] o1[j]).0@ == site;
                    assert(o1[w].0@ == nl[q]@);
                }
            }
        }
    }
}

/// A slot of the other kind leaves that kind's snapshot facts intact.
proof fn lemma_snapshot_other_kind(
    out: Seq<(String, usize)>,
    pl: Seq<String>,
    pk: Seq<HolderType>,
    pc: Seq<usize>,
    nl: Seq<String>,
    nk: Seq<HolderType>,
    nc: Seq<usize>,
    sender: bool,
)
    requires
        nl.len() == nk.len(),
        nl.len() == nc.len(),
        nl.len() > 0,
        nl.drop_last() == pl,
        nk.drop_last() == pk,
        nc.drop_last() == pc,
        (nk.last() is Sender) != sender,
        snapshot_ok(out, pl, pk, pc, sender),
    ensures
        snapshot_ok(out, nl, nk, nc, sender),
{
    assert(forall|q: int| 0 <= q < pl.len() ==> #[trigger] nl[q] == pl[q]);
    assert(forall|q: int| 0 <= q < pk.len() ==> #[trigger] nk[q] == pk[q]);
    assert forall|j: int|
        0 <= j < out.len() implies (#[trigger] out[j]).1 as int == site_total(
        nl,
        nk,
        nc,
        sender,
        out[j].0@,
    ) && site_present(nl, nk, sender, out[j].0@) by {
        assert(site_total(nl, nk, nc, sender, out[j].0@) == site_total(
            pl,
            pk,
            pc,
            sender,
            out[j].0@,
        ));
        let q = choose|q: int|
            0 <= q < pl.len() && q < pk.len() && ((#[trigger] pk[q]) is Sender) == sender && (
            #[trigger] pl[q])@ == out[j].0@;
        assert(nl[q]@ == out[j].0@ && (nk[q] is Sender) == sender);
    }
    assert forall|q: int|
        0 <= q < nl.len() && q < nk.len() && ((#[trigger] nk[q]) is Sender) == sender implies
        exists|j: int| 0 <= j < out.len() && (#[trigger] out[j]).0@ == nl[q]@ by {
        assert(q < pl.len());
        assert(pl[q] == nl[q] && pk[q] == nk[q]);
    }
}

} // verus!
