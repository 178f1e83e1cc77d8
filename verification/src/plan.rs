//! Relocation plans: mapping source files to destination paths and
//! partitioning them into a safe-to-execute set and a conflict set.

use vstd::multiset::Multiset;
use vstd::prelude::*;

use crate::paths::{ext_of, extension_of};
use crate::text::{lemma_lex_le_total, lemma_lex_le_trans, lex_le, seq_views, str_eq, str_lex_le};
use crate::timestamp::{destination_chars, destination_for, ExifTime};

verus! {

/// One planned relocation: a source file and the destination path computed
/// for it.
pub struct MoveInfo {
    pub source: String,
    pub dest: String,
}

/// The mathematical value of a [`MoveInfo`]: both paths as character
/// sequences.
pub struct MoveInfoV {
    pub source: Seq<char>,
    pub dest: Seq<char>,
}

impl View for MoveInfo {
    type V = MoveInfoV;

    open spec fn view(&self) -> MoveInfoV {
        MoveInfoV { source: self.source@, dest: self.dest@ }
    }
}

impl MoveInfo {
    /// An owned copy of the entry.
    pub fn duplicate(&self) -> (r: MoveInfo)
        ensures
            r@ == self@,
    {
        MoveInfo { source: self.source.clone(), dest: self.dest.clone() }
    }
}

/// The views of a sequence of plan entries.
pub open spec fn entry_views(v: Seq<MoveInfo>) -> Seq<MoveInfoV> {
    v.map_values(|e: MoveInfo| e@)
}

/// The destinations of a sequence of plan entries.
pub open spec fn dests_of(v: Seq<MoveInfoV>) -> Seq<Seq<char>> {
    v.map_values(|e: MoveInfoV| e.dest)
}

/// A source file with its resolved capture timestamp, ready for naming.
pub struct ResolvedFile {
    pub source: String,
    pub time: ExifTime,
}

/// The mathematical value of a [`ResolvedFile`].
pub struct ResolvedFileV {
    pub source: Seq<char>,
    pub time: ExifTime,
}

impl View for ResolvedFile {
    type V = ResolvedFileV;

    open spec fn view(&self) -> ResolvedFileV {
        ResolvedFileV { source: self.source@, time: self.time }
    }
}

/// The views of a sequence of resolved files.
pub open spec fn file_views(v: Seq<ResolvedFile>) -> Seq<ResolvedFileV> {
    v.map_values(|f: ResolvedFile| f@)
}

/// A relocation plan: the entries safe to execute, in input order, and the
/// entries needing manual review, in input order. Execution consumes `ready`
/// only; `conflicts` is surfaced to the operator and never acted on.
pub struct RelocationPlan {
    pub ready: Vec<MoveInfo>,
    pub conflicts: Vec<MoveInfo>,
}

/// How one pass over the entries splits them, given which destinations
/// already exist on disk and which were claimed earlier in the pass: an entry
/// conflicts when its destination exists on disk or an earlier `ready` entry
/// already claimed it; otherwise it is ready and claims its destination.
pub open spec fn partition_rec(
    entries: Seq<MoveInfoV>,
    on_disk: Seq<bool>,
    claimed: Seq<Seq<char>>,
) -> (Seq<MoveInfoV>, Seq<MoveInfoV>)
    decreases entries.len(),
{
    if entries.len() == 0 {
        (Seq::<MoveInfoV>::empty(), Seq::<MoveInfoV>::empty())
    } else {
        let e = entries[0];
        if on_disk[0] || claimed.contains(e.dest) {
            let p = partition_rec(entries.drop_first(), on_disk.drop_first(), claimed);
            (p.0, seq![e] + p.1)
        } else {
            let p = partition_rec(
                entries.drop_first(),
                on_disk.drop_first(),
                claimed.push(e.dest),
            );
            (seq![e] + p.0, p.1)
        }
    }
}

/// The partition of a fresh pass: nothing claimed yet.
pub open spec fn plan_spec(entries: Seq<MoveInfoV>, on_disk: Seq<bool>) -> (
    Seq<MoveInfoV>,
    Seq<MoveInfoV>,
) {
    partition_rec(entries, on_disk, Seq::<Seq<char>>::empty())
}

/// Whether `dest` is the destination of some entry already in `ready`.
fn dest_claimed(ready: &Vec<MoveInfo>, dest: &str) -> (r: bool)
    ensures
        r == dests_of(entry_views(ready@)).contains(dest@),
{
    let n: usize = ready.len();
    let mut i: usize = 0;
    while i < n
        invariant
            n == ready@.len(),
            0 <= i <= n,
            forall|k: int| 0 <= k < i ==> dests_of(entry_views(ready@))[k] != dest@,
        decreases n - i,
    {
        if str_eq(ready[i].dest.as_str(), dest) {
            proof {
                assert(dests_of(entry_views(ready@))[i as int] == dest@);
            }
            return true;
        }
        i = i + 1;
    }
    proof {
        assert(forall|k: int|
            0 <= k < dests_of(entry_views(ready@)).len()
                ==> dests_of(entry_views(ready@))[k] != dest@);
    }
    false
}

/// Splits the computed entries into the executable set and the conflict set.
/// An entry lands in `conflicts` exactly when its destination already exists
/// on disk (`on_disk` reports that check, index for index) or an earlier
/// entry already claimed the same destination; both lists keep input order.
pub fn partition(entries: &Vec<MoveInfo>, on_disk: &Vec<bool>) -> (plan: RelocationPlan)
    requires
        entries@.len() == on_disk@.len(),
    ensures
        entry_views(plan.ready@) == plan_spec(entry_views(entries@), on_disk@).0,
        entry_views(plan.conflicts@) == plan_spec(entry_views(entries@), on_disk@).1,
{
    let ghost ev = entry_views(entries@);
    let n: usize = entries.len();
    let mut ready: Vec<MoveInfo> = Vec::new();
    let mut conflicts: Vec<MoveInfo> = Vec::new();
    let mut i: usize = 0;
    proof {
        assert(ev.skip(0) =~= ev);
        assert(on_disk@.skip(0) =~= on_disk@);
        assert(entry_views(ready@) =~= Seq::<MoveInfoV>::empty());
        assert(entry_views(conflicts@) =~= Seq::<MoveInfoV>::empty());
        assert(dests_of(entry_views(ready@)) =~= Seq::<Seq<char>>::empty());
    }
    while i < n
        invariant
            n == entries@.len() && n == on_disk@.len(),
            ev == entry_views(entries@),
            0 <= i <= n,
            entry_views(ready@) + partition_rec(
                ev.skip(i as int),
                on_disk@.skip(i as int),
                dests_of(entry_views(ready@)),
            ).0 == plan_spec(ev, on_disk@).0,
            entry_views(conflicts@) + partition_rec(
                ev.skip(i as int),
                on_disk@.skip(i as int),
                dests_of(entry_views(ready@)),
            ).1 == plan_spec(ev, on_disk@).1,
        decreases n - i,
    {
        let ghost tail = ev.skip(i as int);
        let ghost dtail = on_disk@.skip(i as int);
        let ghost claimed = dests_of(entry_views(ready@));
        proof {
            assert(tail.len() > 0);
            assert(tail[0] == ev[i as int]);
            assert(ev[i as int] == entries@[i as int]@);
            assert(dtail[0] == on_disk@[i as int]);
            assert(tail.drop_first() =~= ev.skip(i + 1));
            assert(dtail.drop_first() =~= on_disk@.skip(i + 1));
        }
        let entry = entries[i].duplicate();
        let on = on_disk[i];
        if on || dest_claimed(&ready, entry.dest.as_str()) {
            proof {
                let p = partition_rec(ev.skip(i + 1), on_disk@.skip(i + 1), claimed);
                assert(partition_rec(tail, dtail, claimed).0 == p.0);
                assert(partition_rec(tail, dtail, claimed).1 == seq![ev[i as int]] + p.1);
                assert(entry_views(conflicts@.push(entry)) =~= entry_views(conflicts@).push(
                    ev[i as int],
                ));
                assert(entry_views(conflicts@) + (seq![ev[i as int]] + p.1)
                    =~= entry_views(conflicts@.push(entry)) + p.1);
                assert(dests_of(entry_views(ready@)) == claimed);
            }
            conflicts.push(entry);
        } else {
            proof {
                let p = partition_rec(
                    ev.skip(i + 1),
                    on_disk@.skip(i + 1),
                    claimed.push(ev[i as int].dest),
                );
                assert(partition_rec(tail, dtail, claimed).0 == seq![ev[i as int]] + p.0);
                assert(partition_rec(tail, dtail, claimed).1 == p.1);
                assert(entry_views(ready@.push(entry)) =~= entry_views(ready@).push(
                    ev[i as int],
                ));
                assert(entry_views(ready@) + (seq![ev[i as int]] + p.0)
                    =~= entry_views(ready@.push(entry)) + p.0);
                assert(dests_of(entry_views(ready@.push(entry))) =~= claimed.push(
                    ev[i as int].dest,
                ));
            }
            ready.push(entry);
        }
        i = i + 1;
    }
    proof {
        assert(ev.skip(n as int).len() == 0);
        assert(entry_views(ready@) + Seq::<MoveInfoV>::empty() =~= entry_views(ready@));
        assert(entry_views(conflicts@) + Seq::<MoveInfoV>::empty() =~= entry_views(conflicts@));
    }
    RelocationPlan { ready, conflicts }
}

/// The plan entry a resolved file maps to: its destination is a function of
/// the destination root, the capture timestamp and the source file's
/// extension alone.
pub open spec fn entry_for(root: Seq<char>, f: ResolvedFileV) -> MoveInfoV {
    MoveInfoV {
        source: f.source,
        dest: destination_chars(root, f.time, ext_of(f.source).unwrap()),
    }
}

/// The plan entries for a batch of resolved files, in input order.
pub open spec fn entries_for(root: Seq<char>, files: Seq<ResolvedFileV>) -> Seq<MoveInfoV> {
    files.map_values(|f: ResolvedFileV| entry_for(root, f))
}

/// Computes the destination path of every resolved file. Sources must carry
/// an extension; resolution never hands over one without, since the fallback
/// chain is keyed on it.
pub fn destinations(root: &str, files: &Vec<ResolvedFile>) -> (r: Vec<MoveInfo>)
    requires
        forall|k: int| 0 <= k < files@.len() ==> ext_of(#[trigger] files@[k]@.source) is Some,
    ensures
        entry_views(r@) == entries_for(root@, file_views(files@)),
{
    let n: usize = files.len();
    let mut out: Vec<MoveInfo> = Vec::new();
    let mut i: usize = 0;
    while i < n
        invariant
            n == files@.len(),
            0 <= i <= n,
            forall|k: int| 0 <= k < n ==> ext_of(#[trigger] files@[k]@.source) is Some,
            entry_views(out@) =~= entries_for(root@, file_views(files@)).take(i as int),
        decreases n - i,
    {
        let f = &files[i];
        let ext = match extension_of(f.source.as_str()) {
            Some(e) => e,
            None => {
                proof {
                    assert(ext_of(files@[i as int]@.source) is Some);
                }
                unreached()
            },
        };
        let dest = destination_for(root, &f.time, ext.as_str());
        let entry = MoveInfo { source: f.source.clone(), dest };
        proof {
            assert(entry@ == entry_for(root@, file_views(files@)[i as int]));
            assert(entry_views(out@.push(entry)) =~= entry_views(out@).push(entry@));
            assert(entries_for(root@, file_views(files@)).take(i + 1)
                =~= entries_for(root@, file_views(files@)).take(i as int).push(
                entry_for(root@, file_views(files@)[i as int]),
            ));
        }
        out.push(entry);
        i = i + 1;
    }
    proof {
        assert(entries_for(root@, file_views(files@)).take(n as int)
            =~= entries_for(root@, file_views(files@)));
    }
    out
}

/// A batch of paths in lexicographic order.
pub open spec fn sorted_lex(v: Seq<Seq<char>>) -> bool {
    forall|a: int, b: int| 0 <= a < b < v.len() ==> lex_le(#[trigger] v[a], #[trigger] v[b])
}

/// Inserting an element anywhere in a sequence adds exactly that element to
/// its multiset.
proof fn lemma_insert_to_multiset(s: Seq<String>, i: int, x: String)
    requires
        0 <= i <= s.len(),
    ensures
        s.insert(i, x).to_multiset() == s.to_multiset().insert(x),
{
    broadcast use vstd::seq_lib::group_to_multiset_ensures;
    broadcast use vstd::multiset::group_multiset_axioms;

    let head = s.take(i);
    let tail = s.skip(i);
    assert(s.insert(i, x) =~= head + (seq![x] + tail));
    assert(s =~= head + tail);
    vstd::seq_lib::lemma_multiset_commutative(head, seq![x] + tail);
    vstd::seq_lib::lemma_multiset_commutative(seq![x], tail);
    vstd::seq_lib::lemma_multiset_commutative(head, tail);
    assert(Seq::<String>::empty().push(x) =~= seq![x]);
    assert(seq![x].to_multiset() =~= Multiset::<String>::empty().insert(x)) by {
        assert(Seq::<String>::empty().to_multiset() =~= Multiset::<String>::empty()) by {
            assert(forall|a: String| !Seq::<String>::empty().contains(a));
        }
    }
    assert(s.insert(i, x).to_multiset() =~= s.to_multiset().insert(x));
}

/// Sorts a batch of source paths lexicographically, so plan construction is
/// deterministic and reproducible over an unchanged filesystem. The result is
/// a permutation of the input.
pub fn sort_paths(v: &Vec<String>) -> (r: Vec<String>)
    ensures
        sorted_lex(seq_views(r@)),
        r@.to_multiset() == v@.to_multiset(),
{
    broadcast use vstd::seq_lib::group_to_multiset_ensures;

    let n: usize = v.len();
    let mut out: Vec<String> = Vec::new();
    let mut i: usize = 0;
    proof {
        assert(v@.take(0) =~= Seq::<String>::empty());
        assert(out@.to_multiset() =~= v@.take(0).to_multiset());
    }
    while i < n
        invariant
            n == v@.len(),
            0 <= i <= n,
            out@.len() == i,
            sorted_lex(seq_views(out@)),
            out@.to_multiset() == v@.take(i as int).to_multiset(),
        decreases n - i,
    {
        let x = v[i].clone();
        let m: usize = out.len();
        let mut j: usize = 0;
        while j < m
            invariant
                m == out@.len(),
                0 <= j <= m,
                forall|k: int| 0 <= k < j ==> lex_le(#[trigger] seq_views(out@)[k], x@),
            ensures
                j == m || !lex_le(seq_views(out@)[j as int], x@),
            decreases m - j,
        {
            if !str_lex_le(out[j].as_str(), x.as_str()) {
                break;
            }
            j = j + 1;
        }
        proof {
            // everything at or after the insertion point is at least `x`
            if j < out@.len() {
                lemma_lex_le_total(seq_views(out@)[j as int], x@);
            }
            assert forall|k: int| j <= k < out@.len() implies lex_le(
                x@,
                #[trigger] seq_views(out@)[k],
            ) by {
                if k > j {
                    lemma_lex_le_trans(x@, seq_views(out@)[j as int], seq_views(out@)[k]);
                }
            }
            out@.insert_ensures(j as int, x);
            assert(seq_views(out@.insert(j as int, x)) =~= seq_views(out@).insert(j as int, x@))
                by {
                seq_views(out@).insert_ensures(j as int, x@);
            }
            seq_views(out@).insert_ensures(j as int, x@);
            lemma_insert_to_multiset(out@, j as int, x);
            assert(v@.take(i + 1) =~= v@.take(i as int).push(v@[i as int]));
            v@.take(i as int).to_multiset_ensures();
            assert(v@.take(i as int).push(v@[i as int]).to_multiset() == v@.take(
                i as int,
            ).to_multiset().insert(v@[i as int]));
            assert(out@.insert(j as int, x).to_multiset() == v@.take(i + 1).to_multiset());
        }
        out.insert(j, x);
        proof {
            assert(sorted_lex(seq_views(out@)));
        }
        i = i + 1;
    }
    proof {
        assert(v@.take(n as int) =~= v@);
    }
    out
}

/// Plan construction is idempotent: on unchanged inputs — the same entries
/// and the same on-disk answers — a second pass produces the identical
/// partition.
pub proof fn lemma_plan_idempotent(
    entries: Seq<MoveInfoV>,
    on_disk: Seq<bool>,
    first: (Seq<MoveInfoV>, Seq<MoveInfoV>),
    second: (Seq<MoveInfoV>, Seq<MoveInfoV>),
)
    requires
        first == plan_spec(entries, on_disk),
        second == plan_spec(entries, on_disk),
    ensures
        first == second,
{
}

/// In the ready list every destination is fresh: none was claimed before the
/// pass began, and no two ready entries claim the same one.
proof fn lemma_partition_ready_fresh(
    entries: Seq<MoveInfoV>,
    on_disk: Seq<bool>,
    claimed: Seq<Seq<char>>,
)
    ensures
        ({
            let r = partition_rec(entries, on_disk, claimed).0;
            &&& forall|k: int| 0 <= k < r.len() ==> !claimed.contains(#[trigger] r[k].dest)
            &&& forall|a: int, b: int|
                0 <= a < b < r.len() ==> r[a].dest != r[b].dest
        }),
    decreases entries.len(),
{
    if entries.len() > 0 {
        let e = entries[0];
        let rest_e = entries.drop_first();
        let rest_d = on_disk.drop_first();
        if on_disk[0] || claimed.contains(e.dest) {
            lemma_partition_ready_fresh(rest_e, rest_d, claimed);
            assert(partition_rec(entries, on_disk, claimed).0 == partition_rec(
                rest_e,
                rest_d,
                claimed,
            ).0);
        } else {
            lemma_partition_ready_fresh(rest_e, rest_d, claimed.push(e.dest));
            let r = partition_rec(entries, on_disk, claimed).0;
            let rr = partition_rec(rest_e, rest_d, claimed.push(e.dest)).0;
            assert(r == seq![e] + rr);
            assert(claimed.push(e.dest)[claimed.len() as int] == e.dest);
            assert(claimed.push(e.dest).contains(e.dest));
            assert(forall|k: int|
                0 <= k < rr.len() ==> !claimed.push(e.dest).contains(#[trigger] rr[k].dest));
            assert(forall|x: Seq<char>|
                claimed.contains(x) ==> claimed.push(e.dest).contains(x)) by {
                assert(forall|j: int|
                    0 <= j < claimed.len() ==> claimed.push(e.dest)[j] == #[trigger] claimed[j]);
            }
            assert(forall|k: int| 0 <= k < r.len() ==> !claimed.contains(#[trigger] r[k].dest))
                by {
                assert(forall|k: int| 1 <= k < r.len() ==> r[k] == rr[k - 1]);
            }
            assert(forall|a: int, b: int| 0 <= a < b < r.len() ==> r[a].dest != r[b].dest) by {
                assert(forall|k: int| 1 <= k < r.len() ==> r[k] == rr[k - 1]);
                assert(forall|k: int|
                    1 <= k < r.len() ==> #[trigger] r[k].dest != e.dest) by {
                    assert(forall|k: int|
                        0 <= k < rr.len()
                            ==> !claimed.push(e.dest).contains(#[trigger] rr[k].dest));
                }
            }
        }
    }
}

/// No two entries of a plan's ready list target the same destination.
pub proof fn lemma_ready_destinations_distinct(entries: Seq<MoveInfoV>, on_disk: Seq<bool>)
    ensures
        ({
            let r = plan_spec(entries, on_disk).0;
            forall|a: int, b: int| 0 <= a < b < r.len() ==> r[a].dest != r[b].dest
        }),
{
    lemma_partition_ready_fresh(entries, on_disk, Seq::<Seq<char>>::empty());
}

/// The partition neither drops nor duplicates entries, whatever was claimed
/// before it started.
proof fn lemma_partition_rec_complete(
    entries: Seq<MoveInfoV>,
    on_disk: Seq<bool>,
    claimed: Seq<Seq<char>>,
)
    ensures
        ({
            let p = partition_rec(entries, on_disk, claimed);
            p.0.to_multiset().add(p.1.to_multiset()) == entries.to_multiset()
        }),
    decreases entries.len(),
{
    broadcast use vstd::seq_lib::group_to_multiset_ensures;
    broadcast use vstd::multiset::group_multiset_axioms;

    let p = partition_rec(entries, on_disk, claimed);
    if entries.len() == 0 {
        assert(p.0.to_multiset().add(p.1.to_multiset()) =~= entries.to_multiset()) by {
            assert(forall|a: MoveInfoV| !Seq::<MoveInfoV>::empty().contains(a));
        }
    } else {
        let e = entries[0];
        let rest_e = entries.drop_first();
        let rest_d = on_disk.drop_first();
        assert(entries =~= seq![e] + rest_e);
        vstd::seq_lib::lemma_multiset_commutative(seq![e], rest_e);
        assert(seq![e].to_multiset() =~= Multiset::<MoveInfoV>::empty().insert(e)) by {
            assert(Seq::<MoveInfoV>::empty().push(e) =~= seq![e]);
            assert(Seq::<MoveInfoV>::empty().to_multiset() =~= Multiset::<MoveInfoV>::empty())
                by {
                assert(forall|a: MoveInfoV| !Seq::<MoveInfoV>::empty().contains(a));
            }
        }
        if on_disk[0] || claimed.contains(e.dest) {
            lemma_partition_rec_complete(rest_e, rest_d, claimed);
            let q = partition_rec(rest_e, rest_d, claimed);
            vstd::seq_lib::lemma_multiset_commutative(seq![e], q.1);
            assert(p.0.to_multiset().add(p.1.to_multiset()) =~= entries.to_multiset());
        } else {
            lemma_partition_rec_complete(rest_e, rest_d, claimed.push(e.dest));
            let q = partition_rec(rest_e, rest_d, claimed.push(e.dest));
            vstd::seq_lib::lemma_multiset_commutative(seq![e], q.0);
            assert(p.0.to_multiset().add(p.1.to_multiset()) =~= entries.to_multiset());
        }
    }
}

/// Every computed entry lands in exactly one of the two lists: `ready` and
/// `conflicts` together are a permutation of the input entries.
pub proof fn lemma_partition_complete(entries: Seq<MoveInfoV>, on_disk: Seq<bool>)
    ensures
        ({
            let p = plan_spec(entries, on_disk);
            p.0.to_multiset().add(p.1.to_multiset()) == entries.to_multiset()
        }),
{
    lemma_partition_rec_complete(entries, on_disk, Seq::<Seq<char>>::empty());
}

/// Whether `e` occurs among the input entries at a position whose destination
/// the disk check cleared.
spec fn from_clear_input(e: MoveInfoV, entries: Seq<MoveInfoV>, on_disk: Seq<bool>) -> bool {
    exists|j: int| 0 <= j < entries.len() && e == #[trigger] entries[j] && !on_disk[j]
}

/// Every ready entry comes from an input position whose disk check was clear.
proof fn lemma_partition_ready_from_clear_input(
    entries: Seq<MoveInfoV>,
    on_disk: Seq<bool>,
    claimed: Seq<Seq<char>>,
)
    requires
        on_disk.len() == entries.len(),
    ensures
        ({
            let r = partition_rec(entries, on_disk, claimed).0;
            forall|k: int|
                0 <= k < r.len() ==> from_clear_input(#[trigger] r[k], entries, on_disk)
        }),
    decreases entries.len(),
{
    if entries.len() > 0 {
        let e = entries[0];
        let rest_e = entries.drop_first();
        let rest_d = on_disk.drop_first();
        let r = partition_rec(entries, on_disk, claimed).0;
        if on_disk[0] || claimed.contains(e.dest) {
            lemma_partition_ready_from_clear_input(rest_e, rest_d, claimed);
            let rr = partition_rec(rest_e, rest_d, claimed).0;
            assert(r == rr);
            assert forall|k: int| 0 <= k < r.len() implies from_clear_input(
                #[trigger] r[k],
                entries,
                on_disk,
            ) by {
                let j = choose|j: int|
                    0 <= j < rest_e.len() && r[k] == #[trigger] rest_e[j] && !rest_d[j];
                assert(entries[j + 1] == rest_e[j] && !on_disk[j + 1]);
            }
        } else {
            lemma_partition_ready_from_clear_input(rest_e, rest_d, claimed.push(e.dest));
            let rr = partition_rec(rest_e, rest_d, claimed.push(e.dest)).0;
            assert(r == seq![e] + rr);
            assert forall|k: int| 0 <= k < r.len() implies from_clear_input(
                #[trigger] r[k],
                entries,
                on_disk,
            ) by {
                if k == 0 {
                    assert(r[0] == entries[0] && !on_disk[0]);
                } else {
                    assert(r[k] == rr[k - 1]);
                    let j = choose|j: int|
                        0 <= j < rest_e.len() && rr[k - 1] == #[trigger] rest_e[j] && !rest_d[j];
                    assert(entries[j + 1] == rest_e[j] && !on_disk[j + 1]);
                }
            }
        }
    }
}

/// One filesystem answers the existence check consistently: entries with the
/// same destination get the same answer.
pub open spec fn disk_consistent(entries: Seq<MoveInfoV>, on_disk: Seq<bool>) -> bool {
    forall|i: int, j: int|
        0 <= i < entries.len() && 0 <= j < entries.len() && (#[trigger] entries[i].dest)
            == (#[trigger] entries[j].dest) ==> on_disk[i] == on_disk[j]
}

/// The plan's safety invariant: no ready entry targets a destination the disk
/// check found occupied, so executing `ready` overwrites nothing that existed
/// when the plan was built.
pub proof fn lemma_ready_destination_not_on_disk(
    entries: Seq<MoveInfoV>,
    on_disk: Seq<bool>,
    k: int,
    i: int,
)
    requires
        on_disk.len() == entries.len(),
        disk_consistent(entries, on_disk),
        0 <= k < plan_spec(entries, on_disk).0.len(),
        0 <= i < entries.len(),
        on_disk[i],
    ensures
        plan_spec(entries, on_disk).0[k].dest != entries[i].dest,
{
    lemma_partition_ready_from_clear_input(entries, on_disk, Seq::<Seq<char>>::empty());
    let r = plan_spec(entries, on_disk).0;
    let j = choose|j: int| 0 <= j < entries.len() && r[k] == #[trigger] entries[j] && !on_disk[j];
    if r[k].dest == entries[i].dest {
        assert(entries[j].dest == entries[i].dest);
        assert(on_disk[j] == on_disk[i]);
    }
}

/// Each computed entry is placed: it appears in the ready list or in the
/// conflict list (and, by [`lemma_partition_complete`], in exactly one).
pub proof fn lemma_every_entry_placed(entries: Seq<MoveInfoV>, on_disk: Seq<bool>, i: int)
    requires
        0 <= i < entries.len(),
    ensures
        plan_spec(entries, on_disk).0.contains(entries[i]) || plan_spec(
            entries,
            on_disk,
        ).1.contains(entries[i]),
{
    broadcast use vstd::seq_lib::group_to_multiset_ensures;
    broadcast use vstd::multiset::group_multiset_axioms;

    lemma_partition_complete(entries, on_disk);
    let p = plan_spec(entries, on_disk);
    assert(entries.contains(entries[i]));
    assert(entries.to_multiset().count(entries[i]) > 0);
    assert(p.0.to_multiset().count(entries[i]) > 0 || p.1.to_multiset().count(entries[i]) > 0);
}

/// Of two distinct source files whose capture timestamps agree to the second
/// and whose extensions agree, at most one becomes ready; the other is routed
/// to the conflict list or dropped, never silently relocated over the first.
pub proof fn lemma_equal_stamps_not_both_ready(
    root: Seq<char>,
    files: Seq<ResolvedFileV>,
    on_disk: Seq<bool>,
    i: int,
    j: int,
)
    requires
        0 <= i < files.len(),
        0 <= j < files.len(),
        i != j,
        files[i].time == files[j].time,
        ext_of(files[i].source) == ext_of(files[j].source),
        files[i].source != files[j].source,
    ensures
        ({
            let entries = entries_for(root, files);
            let r = plan_spec(entries, on_disk).0;
            !(r.contains(entries[i]) && r.contains(entries[j]))
        }),
{
    let entries = entries_for(root, files);
    let r = plan_spec(entries, on_disk).0;
    lemma_ready_destinations_distinct(entries, on_disk);
    assert(entries[i].dest == entries[j].dest);
    assert(entries[i] != entries[j]);
    if r.contains(entries[i]) && r.contains(entries[j]) {
        let a = choose|a: int| 0 <= a < r.len() && r[a] == entries[i];
        let b = choose|b: int| 0 <= b < r.len() && r[b] == entries[j];
        assert(a != b);
        assert(r[a].dest == r[b].dest);
        assert(false);
    }
}

} // verus!
