//! Reconciles the local and the remote inventory: where each snapshot
//! resides, and which transfers bring the remote side up to date.

use crate::inventory::{ascending, lemma_ascending_index, FileList, TimeStamp};
use vstd::prelude::*;

verus! {

/// Where a snapshot resides.
#[derive(Clone, Copy, Debug, PartialEq, Eq, Structural)]
pub enum Presence {
    Local,
    Remote,
    LocalAndRemote,
}

/// How a snapshot is sent: whole, or as the difference from a parent that
/// the destination already holds.
#[derive(Clone, Copy, Debug, PartialEq, Eq, Structural)]
pub enum TransferKind {
    Full,
    DeltaFrom(TimeStamp),
}

pub struct Plan {
    /// The most recent snapshot that both sides hold before the first
    /// planned transfer.
    pub last_common: Option<TimeStamp>,
    /// The planned transfers, in the order in which they must run.
    pub transfers: Vec<(TimeStamp, TransferKind)>,
}

/// The instants of a list of tagged instants.
pub open spec fn stamps<K>(s: Seq<(TimeStamp, K)>) -> Seq<TimeStamp> {
    Seq::new(s.len(), |i: int| s[i].0)
}

/// The tag of a snapshot that is held locally, remotely, or on both sides.
pub open spec fn classify(in_local: bool, in_remote: bool) -> Presence {
    if in_local && in_remote {
        Presence::LocalAndRemote
    } else if in_local {
        Presence::Local
    } else {
        Presence::Remote
    }
}

/// Where the trailing run of `local` that `remote` lacks begins: every
/// instant from this index on is absent from `remote`, and the one before
/// it, if any, is present there.
pub open spec fn tip_start(local: Seq<TimeStamp>, remote: Seq<TimeStamp>) -> int
    decreases local.len(),
{
    if local.len() == 0 || remote.contains(local.last()) {
        local.len() as int
    } else {
        tip_start(local.drop_last(), remote)
    }
}

/// The condition that `remote` lacks an instant.
pub open spec fn absent_from(remote: Seq<TimeStamp>) -> spec_fn(TimeStamp) -> bool {
    |t: TimeStamp| !remote.contains(t)
}

/// The instants to upload, earliest first: all of `local` that `remote`
/// lacks, or only the trailing run of them.
pub open spec fn pending(local: Seq<TimeStamp>, remote: Seq<TimeStamp>, include_all: bool) -> Seq<
    TimeStamp,
> {
    if include_all {
        local.filter(absent_from(remote))
    } else {
        local.subrange(tip_start(local, remote), local.len() as int)
    }
}

/// The local instant that stands directly before the first pending one.
pub open spec fn last_common_of(local: Seq<TimeStamp>, pend: Seq<TimeStamp>) -> Option<TimeStamp> {
    if pend.len() > 0 && local.index_of(pend[0]) > 0 {
        Some(local[local.index_of(pend[0]) - 1])
    } else {
        None
    }
}

/// The kind of the `i`-th transfer of a chain: the first leans on the last
/// common snapshot, each later one on the transfer before it.
pub open spec fn kind_at(pend: Seq<TimeStamp>, last_common: Option<TimeStamp>, i: int)
    -> TransferKind {
    if i == 0 {
        match last_common {
            Some(c) => TransferKind::DeltaFrom(c),
            None => TransferKind::Full,
        }
    } else {
        TransferKind::DeltaFrom(pend[i - 1])
    }
}

/// The chain of transfers that uploads `pend` in order.
pub open spec fn chain(pend: Seq<TimeStamp>, last_common: Option<TimeStamp>) -> Seq<
    (TimeStamp, TransferKind),
> {
    Seq::new(pend.len(), |i: int| (pend[i], kind_at(pend, last_common, i)))
}

/// `tip_start` marks a trailing run that `remote` lacks, and the run cannot
/// be extended downwards.
pub proof fn lemma_tip_start(local: Seq<TimeStamp>, remote: Seq<TimeStamp>)
    ensures
        0 <= tip_start(local, remote) <= local.len(),
        forall|i: int|
            tip_start(local, remote) <= i < local.len() ==> !remote.contains(#[trigger] local[i]),
        tip_start(local, remote) > 0 ==> remote.contains(local[tip_start(local, remote) - 1]),
    decreases local.len(),
{
    if local.len() == 0 || remote.contains(local.last()) {
    } else {
        let shorter = local.drop_last();
        lemma_tip_start(shorter, remote);
        assert forall|i: int| tip_start(local, remote) <= i < local.len() implies !remote.contains(
            #[trigger] local[i],
        ) by {
            if i < shorter.len() {
                assert(shorter[i] == local[i]);
            }
        }
        if tip_start(local, remote) > 0 {
            assert(shorter[tip_start(local, remote) - 1] == local[tip_start(local, remote) - 1]);
        }
    }
}

/// The instants that a filter keeps are those of the sequence that meet the
/// condition, in the order they had.
proof fn lemma_filter_absent(local: Seq<TimeStamp>, remote: Seq<TimeStamp>)
    requires
        ascending(local),
    ensures
        ascending(local.filter(absent_from(remote))),
        forall|t: TimeStamp|
            local.filter(absent_from(remote)).contains(t) <==> (local.contains(t)
                && !remote.contains(t)),
    decreases local.len(),
{
    reveal(Seq::filter);
    let absent = absent_from(remote);
    let kept = local.filter(absent);
    if local.len() > 0 {
        let shorter = local.drop_last();
        let sk = shorter.filter(absent);
        assert(ascending(shorter)) by {
            assert forall|i: int, j: int| 0 <= i < j < shorter.len() implies (
            #[trigger] shorter[i]).before(#[trigger] shorter[j]) by {
                assert(local[i].before(local[j]));
            }
        }
        lemma_filter_absent(shorter, remote);
        assert forall|t: TimeStamp| shorter.contains(t) implies t.before(local.last()) by {
            let k = shorter.index_of(t);
            assert(local[k].before(local[local.len() - 1]));
        }
        assert forall|t: TimeStamp| sk.contains(t) implies t.before(local.last()) by {
            assert(shorter.contains(t));
        }
        assert forall|t: TimeStamp| local.contains(t) <==> (shorter.contains(t) || t
            == local.last()) by {
            if local.contains(t) {
                let k = local.index_of(t);
                if k < shorter.len() {
                    assert(shorter[k] == t);
                }
            }
            if shorter.contains(t) {
                let k = shorter.index_of(t);
                assert(local[k] == t);
            }
            if t == local.last() {
                assert(local[local.len() - 1] == t);
            }
        }
        if absent(local.last()) {
            assert(kept == sk.push(local.last()));
            assert forall|i: int, j: int| 0 <= i < j < kept.len() implies (#[trigger] kept[i]).before(
                #[trigger] kept[j],
            ) by {
                assert(sk.contains(sk[i]));
                if j < sk.len() {
                    assert(sk[i].before(sk[j]));
                }
            }
            assert forall|t: TimeStamp| kept.contains(t) <==> (local.contains(t) && !remote.contains(
                t,
            )) by {
                if kept.contains(t) {
                    let k = kept.index_of(t);
                    if k < sk.len() {
                        assert(sk[k] == t);
                        assert(sk.contains(t));
                    }
                }
                if local.contains(t) && !remote.contains(t) {
                    if t == local.last() {
                        assert(kept[kept.len() - 1] == t);
                    } else {
                        assert(sk.contains(t));
                        let k = sk.index_of(t);
                        assert(kept[k] == t);
                    }
                }
            }
        } else {
            assert(kept == sk);
        }
    }
}

/// With `include_all`, the pending instants are exactly the local instants
/// that the remote side lacks, each once and in ascending order.
pub proof fn lemma_pending_all(local: Seq<TimeStamp>, remote: Seq<TimeStamp>)
    requires
        ascending(local),
    ensures
        ascending(pending(local, remote, true)),
        forall|t: TimeStamp|
            pending(local, remote, true).contains(t) <==> (local.contains(t) && !remote.contains(
                t,
            )),
{
    lemma_filter_absent(local, remote);
}

/// Without `include_all`, the pending instants are the longest run at the
/// end of `local` that the remote side lacks; earlier gaps are left alone.
pub proof fn lemma_pending_tip(local: Seq<TimeStamp>, remote: Seq<TimeStamp>)
    requires
        ascending(local),
    ensures
        ascending(pending(local, remote, false)),
        pending(local, remote, false) == local.subrange(
            local.len() - pending(local, remote, false).len(),
            local.len() as int,
        ),
        forall|t: TimeStamp|
            pending(local, remote, false).contains(t) ==> local.contains(t) && !remote.contains(t),
        pending(local, remote, false).len() < local.len() ==> remote.contains(
            local[local.len() - pending(local, remote, false).len() - 1],
        ),
{
    lemma_tip_start(local, remote);
    let k = tip_start(local, remote);
    let pend = pending(local, remote, false);
    assert forall|i: int, j: int| 0 <= i < j < pend.len() implies (#[trigger] pend[i]).before(
        #[trigger] pend[j],
    ) by {
        assert(local[k + i].before(local[k + j]));
    }
    assert forall|t: TimeStamp| pend.contains(t) implies local.contains(t) && !remote.contains(
        t,
    ) by {
        let i = pend.index_of(t);
        assert(local[k + i] == t);
    }
}

/// Every pending instant is a local one, and the pending instants ascend.
pub proof fn lemma_pending_local(local: Seq<TimeStamp>, remote: Seq<TimeStamp>, include_all: bool)
    requires
        ascending(local),
    ensures
        ascending(pending(local, remote, include_all)),
        forall|t: TimeStamp|
            pending(local, remote, include_all).contains(t) ==> local.contains(t)
                && !remote.contains(t),
{
    if include_all {
        lemma_pending_all(local, remote);
    } else {
        lemma_pending_tip(local, remote);
    }
}

/// The head of a chain leans on the nearest earlier local snapshot. That
/// snapshot is not pending, the remote side holds it, and no local snapshot
/// lies between it and the head.
pub proof fn lemma_last_common(local: Seq<TimeStamp>, remote: Seq<TimeStamp>, include_all: bool)
    requires
        ascending(local),
    ensures
        last_common_of(local, pending(local, remote, include_all)) matches Some(c) ==> {
            &&& local.contains(c)
            &&& remote.contains(c)
            &&& !pending(local, remote, include_all).contains(c)
            &&& c.before(pending(local, remote, include_all)[0])
            &&& forall|t: TimeStamp|
                local.contains(t) && t.before(pending(local, remote, include_all)[0]) ==> t == c
                    || t.before(c)
        },
        last_common_of(local, pending(local, remote, include_all)) is None && pending(
            local,
            remote,
            include_all,
        ).len() > 0 ==> forall|t: TimeStamp|
            local.contains(t) ==> !t.before(pending(local, remote, include_all)[0]),
{
    let pend = pending(local, remote, include_all);
    lemma_pending_local(local, remote, include_all);
    if pend.len() > 0 {
        let head = pend[0];
        assert(pend.contains(head));
        assert(local.contains(head) && !remote.contains(head));
        let h = local.index_of(head);
        assert(0 <= h < local.len() && local[h] == head);
        assert forall|t: TimeStamp| local.contains(t) && t.before(head) implies local.index_of(t)
            < h by {
            let k = local.index_of(t);
            if k > h {
                assert(local[h].before(local[k]));
            }
        }
        if h > 0 {
            let c = local[h - 1];
            assert(local.contains(c));
            assert(c.before(local[h]));
            assert(!pend.contains(c)) by {
                if pend.contains(c) {
                    let k = pend.index_of(c);
                    if k > 0 {
                        assert(pend[0].before(pend[k]));
                    }
                }
            }
            if include_all {
                lemma_pending_all(local, remote);
            } else {
                lemma_tip_start(local, remote);
                let k = tip_start(local, remote);
                assert(pend[0] == local[k]);
                lemma_ascending_index(local, k);
            }
            assert forall|t: TimeStamp| local.contains(t) && t.before(head) implies t == c
                || t.before(c) by {
                let k = local.index_of(t);
                if k < h - 1 {
                    assert(local[k].before(local[h - 1]));
                }
            }
        } else {
            assert forall|t: TimeStamp| local.contains(t) implies !t.before(head) by {
                if t.before(head) {
                    assert(local.index_of(t) < h);
                }
            }
        }
    }
}

/// A chain respects its dependencies: the transfers ascend, the first is
/// full or leans on the last common snapshot, and each later one leans on
/// the transfer directly before it.
pub proof fn lemma_chain_dependencies(pend: Seq<TimeStamp>, last_common: Option<TimeStamp>)
    requires
        ascending(pend),
    ensures
        chain(pend, last_common).len() == pend.len(),
        stamps(chain(pend, last_common)) == pend,
        pend.len() > 0 ==> chain(pend, last_common)[0].1 == (match last_common {
            Some(c) => TransferKind::DeltaFrom(c),
            None => TransferKind::Full,
        }),
        forall|i: int|
            0 < i < pend.len() ==> (#[trigger] chain(pend, last_common)[i]).1
                == TransferKind::DeltaFrom(chain(pend, last_common)[i - 1].0)
                && chain(pend, last_common)[i - 1].0.before(chain(pend, last_common)[i].0),
{
    assert(stamps(chain(pend, last_common)) =~= pend);
    assert forall|i: int| 0 < i < pend.len() implies chain(pend, last_common)[i - 1].0.before(
        (#[trigger] chain(pend, last_common)[i]).0,
    ) by {
        assert(pend[i - 1].before(pend[i]));
    }
}

/// Once the pending snapshots have reached the remote side, nothing is
/// pending: planning again on the same local inventory gives no transfer.
pub proof fn lemma_plan_idempotent(
    local: Seq<TimeStamp>,
    remote: Seq<TimeStamp>,
    remote_after: Seq<TimeStamp>,
    include_all: bool,
)
    requires
        ascending(local),
        forall|t: TimeStamp|
            remote_after.contains(t) <==> (remote.contains(t) || pending(
                local,
                remote,
                include_all,
            ).contains(t)),
    ensures
        pending(local, remote_after, include_all).len() == 0,
        chain(
            pending(local, remote_after, include_all),
            last_common_of(local, pending(local, remote_after, include_all)),
        ).len() == 0,
{
    let after = pending(local, remote_after, include_all);
    if include_all {
        lemma_pending_all(local, remote);
        lemma_pending_all(local, remote_after);
        if after.len() > 0 {
            assert(after.contains(after[0]));
        }
    } else {
        lemma_tip_start(local, remote);
        lemma_tip_start(local, remote_after);
        let k = tip_start(local, remote);
        let pend = pending(local, remote, false);
        if local.len() > 0 {
            if k < local.len() {
                assert(pend[pend.len() - 1] == local.last());
                assert(pend.contains(local.last()));
            } else {
                assert(remote.contains(local[k - 1]));
            }
            assert(remote_after.contains(local.last()));
        }
    }
}

proof fn lemma_stamps_push<K>(s: Seq<(TimeStamp, K)>, e: (TimeStamp, K))
    ensures
        stamps(s.push(e)) == stamps(s).push(e.0),
        forall|t: TimeStamp| stamps(s.push(e)).contains(t) <==> (stamps(s).contains(t) || t == e.0),
{
    let a = stamps(s.push(e));
    let b = stamps(s).push(e.0);
    assert(a =~= b);
    assert forall|t: TimeStamp| b.contains(t) <==> (stamps(s).contains(t) || t == e.0) by {
        if b.contains(t) {
            let k = b.index_of(t);
            if k < s.len() {
                assert(stamps(s)[k] == t);
            }
        }
        if stamps(s).contains(t) {
            let k = stamps(s).index_of(t);
            assert(b[k] == t);
        }
        if t == e.0 {
            assert(b[s.len() as int] == t);
        }
    }
}

/// Tells for every snapshot of either inventory where it resides. The
/// result holds each instant of either side once, in ascending order.
pub fn presence(local: &FileList, remote: &FileList) -> (r: Vec<(TimeStamp, Presence)>)
    requires
        local.wf(),
        remote.wf(),
    ensures
        ascending(stamps(r@)),
        forall|t: TimeStamp| stamps(r@).contains(t) <==> (local.has(t) || remote.has(t)),
        forall|i: int|
            0 <= i < r.len() ==> (#[trigger] r[i]).1 == classify(
                local.has(r[i].0),
                remote.has(r[i].0),
            ),
        forall|i: int, j: int| 0 <= i < r.len() && 0 <= j < r.len() && i != j ==> r[i].0 != r[j].0,
{
    let ln = local.len();
    let rn = remote.len();
    let mut out: Vec<(TimeStamp, Presence)> = Vec::new();
    let mut i: usize = 0;
    let mut j: usize = 0;
    while i < ln || j < rn
        invariant
            local.wf(),
            remote.wf(),
            ln == local.keys().len(),
            rn == remote.keys().len(),
            i <= ln,
            j <= rn,
            ascending(stamps(out@)),
            forall|k: int| 0 <= k < i ==> stamps(out@).contains(#[trigger] local.keys()[k]),
            forall|k: int| 0 <= k < j ==> stamps(out@).contains(#[trigger] remote.keys()[k]),
            forall|t: TimeStamp| #[trigger]
                stamps(out@).contains(t) ==> local.has(t) || remote.has(t),
            forall|t: TimeStamp|
                i < ln && #[trigger] stamps(out@).contains(t) ==> t.before(local.keys()[i as int]),
            forall|t: TimeStamp|
                j < rn && #[trigger] stamps(out@).contains(t) ==> t.before(remote.keys()[j as int]),
            forall|m: int|
                0 <= m < out.len() ==> (#[trigger] out[m]).1 == classify(
                    local.has(out[m].0),
                    remote.has(out[m].0),
                ),
        decreases (ln - i) + (rn - j),
    {
        let ghost lk = local.keys();
        let ghost rk = remote.keys();
        let ghost before = out@;
        let take_local = i < ln && (j >= rn || local.key_at(i).is_before(&remote.key_at(j)));
        let take_remote = j < rn && (i >= ln || remote.key_at(j).is_before(&local.key_at(i)));
        let entry = if take_local {
            (local.key_at(i), Presence::Local)
        } else if take_remote {
            (remote.key_at(j), Presence::Remote)
        } else {
            (local.key_at(i), Presence::LocalAndRemote)
        };
        proof {
            let t = entry.0;
            lemma_stamps_push(before, entry);
            if !take_local && !take_remote {
                assert(lk[i as int] == rk[j as int]);
            }
            if !take_remote {
                assert(lk[i as int] == t);
                assert(lk.contains(t));
            }
            if !take_local {
                assert(rk[j as int] == t);
                assert(rk.contains(t));
            }
            if take_local {
                assert(!rk.contains(t)) by {
                    if rk.contains(t) {
                        let k = rk.index_of(t);
                        if k < j {
                            assert(stamps(before).contains(rk[k]));
                        } else if k > j {
                            assert(rk[j as int].before(rk[k]));
                        }
                    }
                }
            }
            if take_remote {
                assert(!lk.contains(t)) by {
                    if lk.contains(t) {
                        let k = lk.index_of(t);
                        if k < i {
                            assert(stamps(before).contains(lk[k]));
                        } else if k > i {
                            assert(lk[i as int].before(lk[k]));
                        }
                    }
                }
            }
        }
        out.push(entry);
        if !take_remote {
            i += 1;
        }
        if !take_local {
            j += 1;
        }
        proof {
            let t = entry.0;
            let prev = stamps(before);
            let after = stamps(out@);
            assert(out@ == before.push(entry));
            assert(after == prev.push(t));
            assert forall|a: int, b: int| 0 <= a < b < after.len() implies (#[trigger] after[a]).before(
                #[trigger] after[b],
            ) by {
                if b < before.len() {
                    assert(prev[a].before(prev[b]));
                } else {
                    assert(prev.contains(prev[a]));
                }
            }
            assert(after[prev.len() as int] == t);
            assert forall|u: TimeStamp| prev.contains(u) implies after.contains(u) by {
                assert(after[prev.index_of(u)] == u);
            }
            assert forall|k: int| 0 <= k < i implies after.contains(#[trigger] lk[k]) by {
                if k < i - 1 || take_remote {
                    assert(prev.contains(lk[k]));
                } else {
                    assert(lk[k] == t);
                }
            }
            assert forall|k: int| 0 <= k < j implies after.contains(#[trigger] rk[k]) by {
                if k < j - 1 || take_local {
                    assert(prev.contains(rk[k]));
                } else {
                    assert(rk[k] == t);
                }
            }
            assert forall|u: TimeStamp| #[trigger] after.contains(u) implies local.has(u)
                || remote.has(u) by {
                if u != t {
                    assert(prev.contains(u));
                }
            }
            assert forall|u: TimeStamp| i < ln && #[trigger] after.contains(u) implies u.before(
                lk[i as int],
            ) by {
                if !take_remote {
                    assert(lk[i - 1].before(lk[i as int]));
                    if u != t {
                        assert(prev.contains(u));
                    }
                } else {
                    if u != t {
                        assert(prev.contains(u));
                    }
                }
            }
            assert forall|u: TimeStamp| j < rn && #[trigger] after.contains(u) implies u.before(
                rk[j as int],
            ) by {
                if !take_local {
                    assert(rk[j - 1].before(rk[j as int]));
                    if u != t {
                        assert(prev.contains(u));
                    }
                } else {
                    if u != t {
                        assert(prev.contains(u));
                    }
                }
            }
        }
    }
    proof {
        let ks = stamps(out@);
        assert forall|t: TimeStamp| local.has(t) || remote.has(t) implies ks.contains(t) by {
            if local.has(t) {
                let k = local.keys().index_of(t);
                assert(ks.contains(local.keys()[k]));
            } else {
                let k = remote.keys().index_of(t);
                assert(ks.contains(remote.keys()[k]));
            }
        }
        assert forall|a: int, b: int| 0 <= a < out.len() && 0 <= b < out.len() && a != b implies out[a].0
            != out[b].0 by {
            if a < b {
                assert(ks[a].before(ks[b]));
            } else {
                assert(ks[b].before(ks[a]));
            }
        }
    }
    out
}

/// Collects every local instant that `remote` lacks, with the index in
/// `local` of the first of them.
fn collect_all(local: &FileList, remote: &FileList) -> (r: (Vec<TimeStamp>, usize))
    requires
        local.wf(),
        remote.wf(),
    ensures
        r.0@ == pending(local.keys(), remote.keys(), true),
        r.0.len() > 0 ==> r.1 < local.keys().len() && local.keys()[r.1 as int] == r.0[0],
{
    let ghost lk = local.keys();
    let ghost rk = remote.keys();
    let n = local.len();
    let mut pend: Vec<TimeStamp> = Vec::new();
    let mut first: usize = 0;
    let mut i: usize = 0;
    while i < n
        invariant
            local.wf(),
            remote.wf(),
            lk == local.keys(),
            rk == remote.keys(),
            n == lk.len(),
            i <= n,
            pend@ == lk.subrange(0, i as int).filter(absent_from(rk)),
            pend.len() > 0 ==> first < i && lk[first as int] == pend[0],
        decreases n - i,
    {
        let t = local.key_at(i);
        let absent = !remote.contains_key(t);
        proof {
            let longer = lk.subrange(0, i + 1);
            assert(longer.drop_last() =~= lk.subrange(0, i as int));
            assert(longer.last() == t);
            assert(longer.filter(absent_from(rk)) == if absent {
                lk.subrange(0, i as int).filter(absent_from(rk)).push(t)
            } else {
                lk.subrange(0, i as int).filter(absent_from(rk))
            }) by {
                reveal(Seq::filter);
            }
        }
        if absent {
            if pend.len() == 0 {
                first = i;
            }
            pend.push(t);
        }
        i += 1;
    }
    assert(lk.subrange(0, n as int) =~= lk);
    (pend, first)
}

/// One step of the scan for the trailing run, over the first `k` instants.
proof fn lemma_tip_step(local: Seq<TimeStamp>, remote: Seq<TimeStamp>, k: int)
    requires
        0 <= k <= local.len(),
    ensures
        tip_start(local.subrange(0, k), remote) == (if k == 0 || remote.contains(local[k - 1]) {
            k
        } else {
            tip_start(local.subrange(0, k - 1), remote)
        }),
{
    if k > 0 {
        assert(local.subrange(0, k).drop_last() =~= local.subrange(0, k - 1));
        assert(local.subrange(0, k).last() == local[k - 1]);
    }
}

/// Collects the trailing run of local instants that `remote` lacks, with
/// the index in `local` at which the run begins.
fn collect_tip(local: &FileList, remote: &FileList) -> (r: (Vec<TimeStamp>, usize))
    requires
        local.wf(),
        remote.wf(),
    ensures
        r.0@ == pending(local.keys(), remote.keys(), false),
        r.0.len() > 0 ==> r.1 < local.keys().len() && local.keys()[r.1 as int] == r.0[0],
{
    let ghost lk = local.keys();
    let ghost rk = remote.keys();
    let n = local.len();
    let mut k: usize = n;
    assert(lk.subrange(0, n as int) =~= lk);
    while k > 0 && !remote.contains_key(local.key_at(k - 1))
        invariant
            local.wf(),
            remote.wf(),
            lk == local.keys(),
            rk == remote.keys(),
            n == lk.len(),
            k <= n,
            tip_start(lk, rk) == tip_start(lk.subrange(0, k as int), rk),
        decreases k,
    {
        proof {
            lemma_tip_step(lk, rk, k as int);
        }
        k -= 1;
    }
    proof {
        lemma_tip_step(lk, rk, k as int);
    }
    let mut pend: Vec<TimeStamp> = Vec::new();
    let mut i: usize = k;
    while i < n
        invariant
            local.wf(),
            lk == local.keys(),
            n == lk.len(),
            k <= i <= n,
            pend@ == lk.subrange(k as int, i as int),
        decreases n - i,
    {
        pend.push(local.key_at(i));
        assert(pend@ =~= lk.subrange(k as int, i + 1));
        i += 1;
    }
    (pend, k)
}

/// Chains the pending instants: the first on `last_common`, each later one
/// on the instant before it.
fn build_chain(pend: &Vec<TimeStamp>, last_common: Option<TimeStamp>) -> (transfers: Vec<
    (TimeStamp, TransferKind),
>)
    ensures
        transfers@ == chain(pend@, last_common),
{
    let mut transfers: Vec<(TimeStamp, TransferKind)> = Vec::new();
    let mut i: usize = 0;
    while i < pend.len()
        invariant
            i <= pend.len(),
            transfers.len() == i,
            forall|m: int|
                0 <= m < i ==> #[trigger] transfers[m] == (pend[m], kind_at(pend@, last_common, m)),
        decreases pend.len() - i,
    {
        let kind = if i == 0 {
            match last_common {
                Some(c) => TransferKind::DeltaFrom(c),
                None => TransferKind::Full,
            }
        } else {
            TransferKind::DeltaFrom(pend[i - 1])
        };
        transfers.push((pend[i], kind));
        i += 1;
    }
    assert(transfers@ =~= chain(pend@, last_common));
    transfers
}

/// Plans the transfers that bring the remote side up to date, earliest
/// first. Without `include_all` only the snapshots after the most recent one
/// that the remote side holds are planned; with it, every local snapshot
/// that the remote side lacks. The first transfer leans on the local
/// snapshot directly before it, and is full where there is none; each later
/// transfer leans on the one before it.
pub fn plan(local: &FileList, remote: &FileList, include_all: bool) -> (p: Plan)
    requires
        local.wf(),
        remote.wf(),
    ensures
        stamps(p.transfers@) == pending(local.keys(), remote.keys(), include_all),
        p.last_common == last_common_of(
            local.keys(),
            pending(local.keys(), remote.keys(), include_all),
        ),
        p.transfers@ == chain(pending(local.keys(), remote.keys(), include_all), p.last_common),
{
    let (pend, first) = if include_all {
        collect_all(local, remote)
    } else {
        collect_tip(local, remote)
    };
    let last_common = if pend.len() > 0 && first > 0 {
        Some(local.key_at(first - 1))
    } else {
        None
    };
    proof {
        if pend.len() > 0 {
            lemma_ascending_index(local.keys(), first as int);
        }
    }
    let transfers = build_chain(&pend, last_common);
    assert(stamps(transfers@) =~= pend@);
    Plan { last_common, transfers }
}

} // verus!
