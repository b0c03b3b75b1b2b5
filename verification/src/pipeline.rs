//! The pack pipeline's verified parts: grouping records into numbered
//! packs, processing a pack into its surviving records and counters, and
//! reassembling processed packs in id order.

use vstd::prelude::*;
use crate::config::Cli;
use crate::filter::{pass_delta, rec_passes, trim_pair_spec, trim_record_spec, Filter};
use crate::record::{FastqRecord, RecV};
use crate::report::{RepV, Report};

verus! {

/// A batch of records with its order number.  Paired-end entries carry a
/// second record.
pub struct Pack {
    pub id: u64,
    pub data: Vec<(FastqRecord, Option<FastqRecord>)>,
}

/// A processed batch: the same id, the surviving records in their pack
/// order, and the counters gathered while processing it.
pub struct ProcessedPack {
    pub id: u64,
    pub data: Vec<(FastqRecord, Option<FastqRecord>)>,
    pub report: Report,
}

/// Ghost view of one pack entry.
pub open spec fn pair_view(p: (FastqRecord, Option<FastqRecord>)) -> (RecV, Option<RecV>) {
    (
        p.0@,
        match p.1 {
            Option::Some(r) => Option::Some(r@),
            Option::None => Option::None,
        },
    )
}

/// Ghost view of a pack's entries.
pub open spec fn pairs_view(s: Seq<(FastqRecord, Option<FastqRecord>)>) -> Seq<(RecV, Option<RecV>)> {
    Seq::new(s.len(), |i: int| pair_view(s[i]))
}

/// Every entry is well formed and short enough for the transforms.
pub open spec fn entries_wf(s: Seq<(RecV, Option<RecV>)>) -> bool {
    forall|i: int|
        0 <= i < s.len() ==> (#[trigger] s[i]).0.wf() && s[i].0.seq.len() <= 0x7fffffff && match s[i].1 {
            Option::Some(r) => r.wf() && r.seq.len() <= 0x7fffffff,
            Option::None => true,
        }
}

/// The records one entry contributes to the processed pack: itself,
/// trimmed, when it clears the filters; nothing otherwise.
#[verifier::opaque]
pub open spec fn step_out(cfg: Cli, p: (RecV, Option<RecV>)) -> Seq<(RecV, Option<RecV>)> {
    match p.1 {
        Option::Some(rv2) => {
            let t = trim_pair_spec(cfg, p.0, rv2);
            if rec_passes(cfg, t.0) && rec_passes(cfg, t.1) {
                seq![(t.0, Option::Some(t.1))]
            } else {
                Seq::empty()
            }
        },
        Option::None => {
            let t = trim_record_spec(cfg, p.0, false);
            if rec_passes(cfg, t.0) {
                seq![(t.0, Option::None)]
            } else {
                Seq::empty()
            }
        },
    }
}

/// The counter change one entry causes: one total read, the trimming
/// counters, the first failing predicate of each record checked, and one
/// passed read when everything clears.
#[verifier::opaque]
pub open spec fn step_delta(cfg: Cli, p: (RecV, Option<RecV>)) -> RepV {
    let one = RepV { total_reads: 1, ..RepV::zero() };
    match p.1 {
        Option::Some(rv2) => {
            let t = trim_pair_spec(cfg, p.0, rv2);
            let d1 = pass_delta(cfg, t.0);
            let d2 = if rec_passes(cfg, t.0) {
                pass_delta(cfg, t.1)
            } else {
                RepV::zero()
            };
            let dp = if rec_passes(cfg, t.0) && rec_passes(cfg, t.1) {
                RepV { passed_reads: 1, ..RepV::zero() }
            } else {
                RepV::zero()
            };
            one.add(t.2).add(d1).add(d2).add(dp)
        },
        Option::None => {
            let t = trim_record_spec(cfg, p.0, false);
            let d1 = pass_delta(cfg, t.0);
            let dp = if rec_passes(cfg, t.0) {
                RepV { passed_reads: 1, ..RepV::zero() }
            } else {
                RepV::zero()
            };
            one.add(t.1).add(d1).add(dp)
        },
    }
}

/// Processing a stream of entries: surviving records in order, and the
/// summed counters.
pub open spec fn process_records(cfg: Cli, s: Seq<(RecV, Option<RecV>)>) -> (
    Seq<(RecV, Option<RecV>)>,
    RepV,
)
    decreases s.len(),
{
    if s.len() == 0 {
        (Seq::empty(), RepV::zero())
    } else {
        let prev = process_records(cfg, s.drop_last());
        (prev.0 + step_out(cfg, s.last()), prev.1.add(step_delta(cfg, s.last())))
    }
}

/// Counters only grow along the stream: any prefix counts no more than
/// the whole.
pub proof fn lemma_process_prefix_le(cfg: Cli, s: Seq<(RecV, Option<RecV>)>, i: int)
    requires
        0 <= i <= s.len(),
    ensures
        process_records(cfg, s.take(i)).1.le(process_records(cfg, s).1),
    decreases s.len(),
{
    if i == s.len() {
        assert(s.take(i) =~= s);
    } else {
        lemma_process_prefix_le(cfg, s.drop_last(), i);
        assert(s.drop_last().take(i) =~= s.take(i));
    }
}

/// Process one pack: apply the filter to every entry, keep the survivors
/// in order, and gather this pack's counters.
/// Process one entry: count it, trim it, check the predicates, and
/// append it to the survivors when everything clears.
#[verifier::rlimit(100)]
fn process_entry(
    filter: &Filter,
    pair: (FastqRecord, Option<FastqRecord>),
    report: &mut Report,
    out: &mut Vec<(FastqRecord, Option<FastqRecord>)>,
)
    requires
        filter.cfg().wf(),
        pair.0.wf(),
        pair.0@.seq.len() <= 0x7fffffff,
        (match pair.1 {
            Option::Some(r) => r.wf() && r@.seq.len() <= 0x7fffffff,
            Option::None => true,
        }),
        old(report)@.add(step_delta(filter.cfg(), pair_view(pair))).fits(),
    ensures
        final(report)@ == old(report)@.add(step_delta(filter.cfg(), pair_view(pair))),
        pairs_view(final(out)@) == pairs_view(old(out)@) + step_out(filter.cfg(), pair_view(pair)),
{
    proof {
        reveal(step_out);
        reveal(step_delta);
    }
    let ghost cfg = filter.cfg();
    let ghost pv = pair_view(pair);
    let (r1, r2_opt) = pair;
    report.total_reads = report.total_reads + 1;
    match r2_opt {
        Option::Some(r2) => {
            let (rec1, rec2) = filter.trim_pair(r1, r2, &mut *report);
            let pass1 = filter.pass_filters(&rec1, &mut *report);
            if pass1 {
                let pass2 = filter.pass_filters(&rec2, &mut *report);
                if pass2 {
                    report.passed_reads = report.passed_reads + 1;
                    out.push((rec1, Option::Some(rec2)));
                    assert(pairs_view(out@) =~= pairs_view(old(out)@) + step_out(cfg, pv));
                } else {
                    assert(pairs_view(out@) =~= pairs_view(old(out)@) + step_out(cfg, pv));
                }
            } else {
                assert(pairs_view(out@) =~= pairs_view(old(out)@) + step_out(cfg, pv));
            }
        },
        Option::None => {
            let rec1 = filter.trim_record(r1, false, &mut *report);
            let pass1 = filter.pass_filters(&rec1, &mut *report);
            if pass1 {
                report.passed_reads = report.passed_reads + 1;
                out.push((rec1, Option::None));
                assert(pairs_view(out@) =~= pairs_view(old(out)@) + step_out(cfg, pv));
            } else {
                assert(pairs_view(out@) =~= pairs_view(old(out)@) + step_out(cfg, pv));
            }
        },
    }
}

/// Process one pack: apply the filter to every entry, keep the survivors
/// in order, and gather this pack's counters.
pub fn process_pack(filter: &Filter, pack: Pack) -> (r: ProcessedPack)
    requires
        filter.cfg().wf(),
        entries_wf(pairs_view(pack.data@)),
        process_records(filter.cfg(), pairs_view(pack.data@)).1.fits(),
    ensures
        r.id == pack.id,
        pairs_view(r.data@) == process_records(filter.cfg(), pairs_view(pack.data@)).0,
        r.report@ == process_records(filter.cfg(), pairs_view(pack.data@)).1,
{
    let ghost cfg = filter.cfg();
    let ghost sv = pairs_view(pack.data@);
    let mut data = pack.data;
    let mut out: Vec<(FastqRecord, Option<FastqRecord>)> = Vec::new();
    let mut report = Report::default();
    let ghost mut i: int = 0;

    while data.len() > 0
        invariant
            0 <= i <= sv.len(),
            data@ =~= pack.data@.skip(i),
            sv == pairs_view(pack.data@),
            entries_wf(sv),
            filter.cfg() == cfg,
            cfg.wf(),
            process_records(cfg, sv).1.fits(),
            pairs_view(out@) == process_records(cfg, sv.take(i)).0,
            report@ == process_records(cfg, sv.take(i)).1,
        decreases data@.len(),
    {
        let pair = data.remove(0);
        proof {
            assert(pack.data@.skip(i)[0] == pack.data@[i]);
            assert(pair == pack.data@[i]);
            assert(data@ =~= pack.data@.skip(i + 1));
            assert(pair_view(pair) == sv[i]);
            assert(sv.take(i + 1).drop_last() =~= sv.take(i));
            assert(sv.take(i + 1).last() == sv[i]);
            lemma_process_prefix_le(cfg, sv, i + 1);
            assert(process_records(cfg, sv.take(i + 1)).1 == process_records(
                cfg,
                sv.take(i),
            ).1.add(step_delta(cfg, sv[i])));
        }
        process_entry(filter, pair, &mut report, &mut out);
        proof {
            assert(pairs_view(out@) == process_records(cfg, sv.take(i)).0 + step_out(cfg, sv[i]));
            i = i + 1;
        }
    }
    assert(sv.take(i) =~= sv);
    ProcessedPack { id: pack.id, data: out, report }
}

/// Groups incoming records into packs of a fixed size with strictly
/// increasing ids starting at zero.
pub struct PackBuilder {
    pub next_id: u64,
    pub pack_size: usize,
    pub buf: Vec<(FastqRecord, Option<FastqRecord>)>,
}

impl PackBuilder {
    /// The buffer never reaches a full pack between calls.
    pub open spec fn wf(self) -> bool {
        self.pack_size >= 1 && self.buf@.len() < self.pack_size
    }

    pub fn new(pack_size: usize) -> (r: Self)
        requires
            pack_size >= 1,
        ensures
            r.wf(),
            r.next_id == 0,
            r.pack_size == pack_size,
            r.buf@.len() == 0,
    {
        PackBuilder { next_id: 0, pack_size, buf: Vec::new() }
    }

    /// Add one entry; emits a full pack once `pack_size` entries are
    /// gathered.
    pub fn push(&mut self, item: (FastqRecord, Option<FastqRecord>)) -> (r: Option<Pack>)
        requires
            old(self).wf(),
            old(self).next_id < u64::MAX,
        ensures
            final(self).wf(),
            final(self).pack_size == old(self).pack_size,
            ({
                if old(self).buf@.len() + 1 == old(self).pack_size {
                    &&& r is Some
                    &&& r->0.id == old(self).next_id
                    &&& r->0.data@ == old(self).buf@.push(item)
                    &&& final(self).buf@.len() == 0
                    &&& final(self).next_id == old(self).next_id + 1
                } else {
                    &&& r is None
                    &&& final(self).buf@ == old(self).buf@.push(item)
                    &&& final(self).next_id == old(self).next_id
                }
            }),
    {
        self.buf.push(item);
        if self.buf.len() >= self.pack_size {
            let data = self.buf.split_off(0);
            assert(data@ =~= old(self).buf@.push(item));
            assert(self.buf@ =~= Seq::<(FastqRecord, Option<FastqRecord>)>::empty());
            let id = self.next_id;
            self.next_id = self.next_id + 1;
            Option::Some(Pack { id, data })
        } else {
            Option::None
        }
    }

    /// Emit the final partial pack, if any entries are waiting.
    pub fn finish(&mut self) -> (r: Option<Pack>)
        requires
            old(self).wf(),
            old(self).next_id < u64::MAX,
        ensures
            final(self).wf(),
            ({
                if old(self).buf@.len() > 0 {
                    &&& r is Some
                    &&& r->0.id == old(self).next_id
                    &&& r->0.data@ == old(self).buf@
                    &&& final(self).buf@.len() == 0
                    &&& final(self).next_id == old(self).next_id + 1
                } else {
                    r is None && final(self).buf@ == old(self).buf@ && final(self).next_id == old(
                        self,
                    ).next_id && final(self).pack_size == old(self).pack_size
                }
            }),
    {
        if self.buf.len() > 0 {
            let data = self.buf.split_off(0);
            assert(data@ =~= old(self).buf@);
            assert(self.buf@ =~= Seq::<(FastqRecord, Option<FastqRecord>)>::empty());
            let id = self.next_id;
            self.next_id = self.next_id + 1;
            Option::Some(Pack { id, data })
        } else {
            Option::None
        }
    }
}

/// The set of ids buffered in a joiner.
pub open spec fn buffered_ids(buffer: Seq<ProcessedPack>) -> Set<u64> {
    Set::new(|x: u64| exists|i: int| 0 <= i < buffer.len() && (#[trigger] buffer[i]).id == x)
}

/// Reassembles processed packs in id order: packs may arrive in any
/// order, but leave strictly by id, starting at zero.
pub struct OrderedJoiner {
    buffer: Vec<ProcessedPack>,
    next_id: u64,
    seen: Ghost<Map<u64, ProcessedPack>>,
}

impl OrderedJoiner {
    /// The id the writer still waits for.
    pub closed spec fn next(self) -> u64 {
        self.next_id
    }

    /// Which packs were pushed so far, by id.
    pub closed spec fn seen_map(self) -> Map<u64, ProcessedPack> {
        self.seen@
    }

    /// How many packs are parked out of order.
    pub closed spec fn buffered(self) -> Seq<ProcessedPack> {
        self.buffer@
    }

    pub closed spec fn wf(self) -> bool {
        &&& forall|i: int|
            0 <= i < self.buffer@.len() ==> (#[trigger] self.buffer@[i]).id > self.next_id
                && self.buffer@[i].id < u64::MAX
        &&& forall|i: int, j: int|
            0 <= i < j < self.buffer@.len() ==> (#[trigger] self.buffer@[i]).id != (
            #[trigger] self.buffer@[j]).id
        &&& forall|i: int|
            0 <= i < self.buffer@.len() ==> self.seen@.contains_key(
                (#[trigger] self.buffer@[i]).id,
            ) && self.seen@[self.buffer@[i].id] == self.buffer@[i]
        &&& self.seen@.dom() =~= Set::new(|x: u64| x < self.next_id).union(
            buffered_ids(self.buffer@),
        )
    }

    pub fn new() -> (r: Self)
        ensures
            r.wf(),
            r.next() == 0,
            r.seen_map() == Map::<u64, ProcessedPack>::empty(),
            r.buffered().len() == 0,
    {
        let r = OrderedJoiner { buffer: Vec::new(), next_id: 0, seen: Ghost(Map::empty()) };
        proof {
            assert(r.seen@.dom() =~= Set::new(|x: u64| x < 0u64).union(buffered_ids(r.buffer@)));
        }
        r
    }

    /// Accept one processed pack and hand back every pack that is now in
    /// order: a run of consecutive ids starting at the id the writer
    /// waited for.
    pub fn push(&mut self, pack: ProcessedPack) -> (out: Vec<ProcessedPack>)
        requires
            old(self).wf(),
            !old(self).seen_map().contains_key(pack.id),
            pack.id >= old(self).next(),
            pack.id < u64::MAX,
        ensures
            final(self).wf(),
            final(self).seen_map() == old(self).seen_map().insert(pack.id, pack),
            final(self).next() == old(self).next() + out@.len(),
            forall|k: int|
                0 <= k < out@.len() ==> (#[trigger] out@[k]).id == old(self).next() + k && out@[k]
                    == final(self).seen_map()[out@[k].id],
    {
        let ghost start = self.next_id;
        let ghost bufb0 = self.buffer@;
        self.buffer.push(pack);
        proof {
            self.seen@ = self.seen@.insert(pack.id, pack);
            assert forall|x: u64|
                buffered_ids(self.buffer@).contains(x) implies buffered_ids(bufb0).contains(x) || x
                == pack.id by {
                let i = choose|i: int|
                    0 <= i < self.buffer@.len() && (#[trigger] self.buffer@[i]).id == x;
                if i < bufb0.len() {
                    assert(bufb0[i].id == x);
                }
            };
            assert forall|x: u64|
                buffered_ids(bufb0).contains(x) implies buffered_ids(self.buffer@).contains(x) by {
                let i = choose|i: int| 0 <= i < bufb0.len() && (#[trigger] bufb0[i]).id == x;
                assert(self.buffer@[i].id == x);
            };
            assert(self.buffer@[self.buffer@.len() - 1].id == pack.id);
            assert(buffered_ids(self.buffer@).contains(pack.id));
            assert(self.seen@.dom() =~= Set::new(|x: u64| x < self.next_id).union(
                buffered_ids(self.buffer@),
            ));
        }
        let mut out: Vec<ProcessedPack> = Vec::new();
        loop
            invariant
                start <= self.next_id,
                self.next_id as int == start + out@.len(),
                forall|i: int|
                    0 <= i < self.buffer@.len() ==> (#[trigger] self.buffer@[i]).id >= self.next_id
                        && self.buffer@[i].id < u64::MAX,
                forall|i: int, j: int|
                    0 <= i < j < self.buffer@.len() ==> (#[trigger] self.buffer@[i]).id != (
                    #[trigger] self.buffer@[j]).id,
                forall|i: int|
                    0 <= i < self.buffer@.len() ==> self.seen@.contains_key(
                        (#[trigger] self.buffer@[i]).id,
                    ) && self.seen@[self.buffer@[i].id] == self.buffer@[i],
                self.seen@.dom() =~= Set::new(|x: u64| x < self.next_id).union(
                    buffered_ids(self.buffer@),
                ),
                self.seen@ == old(self).seen_map().insert(pack.id, pack),
                forall|k: int|
                    0 <= k < out@.len() ==> (#[trigger] out@[k]).id == start + k && out@[k]
                        == self.seen@[out@[k].id],
            ensures
                forall|i: int|
                    0 <= i < self.buffer@.len() ==> (#[trigger] self.buffer@[i]).id > self.next_id,
            decreases self.buffer@.len(),
        {
            let n = self.buffer.len();
            let mut idx: usize = 0;
            let mut found = false;
            while idx < n && !found
                invariant
                    idx <= n,
                    n == self.buffer@.len(),
                    found ==> idx < n && self.buffer@[idx as int].id == self.next_id,
                    !found ==> forall|i: int|
                        0 <= i < idx ==> (#[trigger] self.buffer@[i]).id != self.next_id,
                decreases n - idx + if found {
                    0int
                } else {
                    1int
                },
            {
                if self.buffer[idx].id == self.next_id {
                    found = true;
                } else {
                    idx = idx + 1;
                }
            }
            if !found {
                proof {
                    assert(forall|i: int|
                        0 <= i < self.buffer@.len() ==> (#[trigger] self.buffer@[i]).id
                            != self.next_id);
                }
                break ;
            }
            let ghost bufb = self.buffer@;
            let ghost nid = self.next_id;
            assert(self.seen@[self.buffer@[idx as int].id] == self.buffer@[idx as int]);
            let p = self.buffer.remove(idx);
            proof {
                assert(p == bufb[idx as int]);
                assert(p.id == nid);
                assert(self.seen@[p.id] == p);
                assert(self.buffer@ =~= bufb.remove(idx as int));
                assert forall|x: u64| buffered_ids(self.buffer@).contains(x) implies buffered_ids(
                    bufb,
                ).contains(x) by {
                    let i = choose|i: int|
                        0 <= i < self.buffer@.len() && (#[trigger] self.buffer@[i]).id == x;
                    if i < idx {
                        assert(bufb[i].id == x);
                    } else {
                        assert(bufb[i + 1].id == x);
                    }
                };
                assert forall|x: u64|
                    buffered_ids(bufb).contains(x) && x != p.id implies buffered_ids(
                    self.buffer@,
                ).contains(x) by {
                    let i = choose|i: int| 0 <= i < bufb.len() && (#[trigger] bufb[i]).id == x;
                    assert(i != idx);
                    if i < idx {
                        assert(self.buffer@[i].id == x);
                    } else {
                        assert(self.buffer@[i - 1].id == x);
                    }
                };
                assert forall|i: int|
                    0 <= i < self.buffer@.len() implies (#[trigger] self.buffer@[i]).id >= nid
                        + 1 by {
                    if i < idx {
                        assert(self.buffer@[i] == bufb[i]);
                        assert(bufb[i].id != bufb[idx as int].id);
                    } else {
                        assert(self.buffer@[i] == bufb[i + 1]);
                        assert(bufb[i + 1].id != bufb[idx as int].id);
                    }
                };
            }
            out.push(p);
            self.next_id = self.next_id + 1;
            proof {
                assert forall|x: u64|
                    self.seen@.dom().contains(x) implies Set::new(
                    |y: u64| y < self.next_id,
                ).union(buffered_ids(self.buffer@)).contains(x) by {
                    if x < nid {
                    } else if buffered_ids(bufb).contains(x) {
                        if x != p.id {
                            assert(buffered_ids(self.buffer@).contains(x));
                        }
                    }
                };
                assert forall|x: u64|
                    Set::new(|y: u64| y < self.next_id).union(buffered_ids(self.buffer@)).contains(
                        x,
                    ) implies self.seen@.dom().contains(x) by {
                    if x < self.next_id {
                        if x < nid {
                        } else {
                            assert(x == p.id);
                        }
                    } else {
                        assert(buffered_ids(self.buffer@).contains(x));
                        assert(buffered_ids(bufb).contains(x));
                    }
                };
                assert(self.seen@.dom() =~= Set::new(|y: u64| y < self.next_id).union(
                    buffered_ids(self.buffer@),
                ));
            }
        }
        out
    }

    /// Once every id below `n` has been pushed, everything has left in
    /// order: nothing stays buffered and the writer expects exactly `n`.
    pub proof fn lemma_drained(&self, n: u64)
        requires
            self.wf(),
            self.seen_map().dom() =~= Set::new(|x: u64| x < n),
        ensures
            self.next() == n,
            self.buffered().len() == 0,
    {
        if self.buffer@.len() > 0 {
            let m = self.buffer@[0].id;
            assert(buffered_ids(self.buffer@).contains(m));
            assert(self.seen_map().dom().contains(m));
            assert(m < n);
            assert(self.next() < n);
            assert(self.seen_map().dom().contains(self.next()));
            assert(false);
        }
        if self.next() < n {
            assert(self.seen_map().dom().contains(self.next()));
            assert(false);
        }
        if self.next() > n {
            assert(Set::new(|x: u64| x < self.next()).contains(n));
            assert(self.seen_map().dom().contains(n));
            assert(false);
        }
    }
}

} // verus!
