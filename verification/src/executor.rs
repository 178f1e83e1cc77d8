//! Executing a relocation plan: expanding each entry into its sidecar group,
//! applying one verb to every pair, and isolating per-pair failures.
//!
//! The filesystem calls themselves stay with the caller; this module decides
//! which pairs to touch and records what failed, and it carries a model of
//! the three verbs against which their effect is stated.

use vstd::prelude::*;

use crate::paths::{ext_of, with_ext_chars, with_extension};
use crate::plan::{entry_views, MoveInfo, MoveInfoV};
use crate::session::Mode;
use crate::sidecar::companions_spec;
use crate::text::seq_views;

verus! {

/// The verb applied to one source/destination pair.
#[derive(Clone, Copy, Debug, PartialEq, Eq, Structural)]
pub enum PhotoOp {
    Copy,
    Move,
    Remove,
}

impl PhotoOp {
    /// The operator-facing name of the verb.
    pub fn name(&self) -> (r: &'static str)
        ensures
            r@ == op_name(*self),
    {
        proof {
            reveal_strlit("copy");
            reveal_strlit("move");
            reveal_strlit("remove");
        }
        match self {
            PhotoOp::Copy => "copy",
            PhotoOp::Move => "move",
            PhotoOp::Remove => "remove",
        }
    }
}

/// The verb a committed mode stands for.
pub open spec fn op_of_mode(m: Mode) -> PhotoOp {
    match m {
        Mode::Copy => PhotoOp::Copy,
        Mode::Move => PhotoOp::Move,
    }
}

/// The verb to run when a plan is committed in the given mode.
pub fn op_for_mode(m: Mode) -> (op: PhotoOp)
    ensures
        op == op_of_mode(m),
{
    match m {
        Mode::Copy => PhotoOp::Copy,
        Mode::Move => PhotoOp::Move,
    }
}

/// The name of each verb.
pub open spec fn op_name(op: PhotoOp) -> Seq<char> {
    match op {
        PhotoOp::Copy => "copy"@,
        PhotoOp::Move => "move"@,
        PhotoOp::Remove => "remove"@,
    }
}

/// The pairs an entry expands to: the primary pair first, then, for each
/// companion that exists on disk, the companion and the primary's destination
/// re-extended with the companion's extension. A companion that does not
/// exist contributes nothing — its absence is no error.
pub open spec fn group_spec(
    entry: MoveInfoV,
    companions: Seq<Seq<char>>,
    present: Seq<bool>,
) -> Seq<MoveInfoV>
    decreases companions.len(),
{
    if companions.len() == 0 {
        seq![entry]
    } else {
        let head = group_spec(entry, companions.drop_last(), present.drop_last());
        if present[companions.len() - 1] {
            head.push(
                MoveInfoV {
                    source: companions.last(),
                    dest: with_ext_chars(entry.dest, ext_of(companions.last()).unwrap()),
                },
            )
        } else {
            head
        }
    }
}

/// Expands a plan entry into its sidecar group. `companions` must be the
/// entry's companion paths as the sidecar policy enumerates them, and
/// `present` reports, index for index, whether each exists on disk.
/// [`crate::sidecar::lemma_companions_have_extension`] discharges the
/// extension premise for any list the policy produced.
pub fn expand_group(entry: &MoveInfo, companions: &Vec<String>, present: &Vec<bool>) -> (r: Vec<
    MoveInfo,
>)
    requires
        seq_views(companions@) == companions_spec(entry@.source),
        companions@.len() == present@.len(),
        forall|k: int|
            0 <= k < companions@.len() ==> ext_of(#[trigger] companions@[k]@) is Some,
    ensures
        entry_views(r@) == group_spec(entry@, seq_views(companions@), present@),
{
    let n: usize = companions.len();
    let mut r: Vec<MoveInfo> = Vec::new();
    r.push(entry.duplicate());
    proof {
        assert(seq_views(companions@).take(0) =~= Seq::<Seq<char>>::empty());
        assert(present@.take(0) =~= Seq::<bool>::empty());
        assert(entry_views(r@) =~= group_spec(
            entry@,
            seq_views(companions@).take(0),
            present@.take(0),
        ));
    }
    let mut i: usize = 0;
    while i < n
        invariant
            n == companions@.len() && n == present@.len(),
            0 <= i <= n,
            forall|k: int|
                0 <= k < companions@.len() ==> ext_of(#[trigger] companions@[k]@) is Some,
            entry_views(r@) == group_spec(
                entry@,
                seq_views(companions@).take(i as int),
                present@.take(i as int),
            ),
        decreases n - i,
    {
        proof {
            assert(seq_views(companions@).take(i + 1).drop_last() =~= seq_views(
                companions@,
            ).take(i as int));
            assert(present@.take(i + 1).drop_last() =~= present@.take(i as int));
            assert(seq_views(companions@).take(i + 1).last() == companions@[i as int]@);
        }
        if present[i] {
            let companion = &companions[i];
            let ext = match crate::paths::extension_of(companion.as_str()) {
                Some(e) => e,
                None => {
                    proof {
                        assert(ext_of(companions@[i as int]@) is Some);
                    }
                    unreached()
                },
            };
            let pair = MoveInfo {
                source: companion.clone(),
                dest: with_extension(entry.dest.as_str(), ext.as_str()),
            };
            proof {
                assert(entry_views(r@.push(pair)) =~= entry_views(r@).push(pair@));
                assert(entry_views(r@).push(pair@) =~= group_spec(
                    entry@,
                    seq_views(companions@).take(i + 1),
                    present@.take(i + 1),
                ));
            }
            r.push(pair);
        } else {
            proof {
                assert(entry_views(r@) =~= group_spec(
                    entry@,
                    seq_views(companions@).take(i + 1),
                    present@.take(i + 1),
                ));
            }
        }
        i = i + 1;
    }
    proof {
        assert(seq_views(companions@).take(n as int) =~= seq_views(companions@));
        assert(present@.take(n as int) =~= present@);
    }
    r
}

/// One recorded failure: the verb, and the pair it failed on. Enough context
/// to locate the offending file; the underlying cause is reported by the
/// caller that saw it.
pub struct OpFailure {
    pub op: PhotoOp,
    pub source: String,
    pub dest: String,
}

/// The mathematical value of an [`OpFailure`].
pub struct OpFailureV {
    pub op: PhotoOp,
    pub source: Seq<char>,
    pub dest: Seq<char>,
}

impl View for OpFailure {
    type V = OpFailureV;

    open spec fn view(&self) -> OpFailureV {
        OpFailureV { op: self.op, source: self.source@, dest: self.dest@ }
    }
}

/// The views of a sequence of failures.
pub open spec fn failure_views(v: Seq<OpFailure>) -> Seq<OpFailureV> {
    v.map_values(|f: OpFailure| f@)
}

/// The failure record of a batch: one entry for each pair whose operation
/// did not succeed, in batch order.
pub open spec fn failures_spec(op: PhotoOp, pairs: Seq<MoveInfoV>, ok: Seq<bool>) -> Seq<
    OpFailureV,
>
    decreases pairs.len(),
{
    if pairs.len() == 0 {
        Seq::<OpFailureV>::empty()
    } else {
        let head = failures_spec(op, pairs.drop_last(), ok.drop_last());
        if ok[pairs.len() - 1] {
            head
        } else {
            head.push(
                OpFailureV {
                    op,
                    source: pairs.last().source,
                    dest: pairs.last().dest,
                },
            )
        }
    }
}

/// Collects the failure record of a batch of pairs, given which operations
/// succeeded (`ok`, index for index). Every pair is examined: a failure is
/// recorded and the batch goes on, so one bad pair never blocks the rest.
pub fn collect_failures(op: PhotoOp, pairs: &Vec<MoveInfo>, ok: &Vec<bool>) -> (r: Vec<OpFailure>)
    requires
        pairs@.len() == ok@.len(),
    ensures
        failure_views(r@) == failures_spec(op, entry_views(pairs@), ok@),
{
    let n: usize = pairs.len();
    let mut r: Vec<OpFailure> = Vec::new();
    proof {
        assert(entry_views(pairs@).take(0) =~= Seq::<MoveInfoV>::empty());
        assert(ok@.take(0) =~= Seq::<bool>::empty());
        assert(failure_views(r@) =~= failures_spec(op, entry_views(pairs@).take(0), ok@.take(0)));
    }
    let mut i: usize = 0;
    while i < n
        invariant
            n == pairs@.len() && n == ok@.len(),
            0 <= i <= n,
            failure_views(r@) == failures_spec(
                op,
                entry_views(pairs@).take(i as int),
                ok@.take(i as int),
            ),
        decreases n - i,
    {
        proof {
            assert(entry_views(pairs@).take(i + 1).drop_last() =~= entry_views(pairs@).take(
                i as int,
            ));
            assert(ok@.take(i + 1).drop_last() =~= ok@.take(i as int));
            assert(entry_views(pairs@).take(i + 1).last() == pairs@[i as int]@);
        }
        if !ok[i] {
            let f = OpFailure {
                op,
                source: pairs[i].source.clone(),
                dest: pairs[i].dest.clone(),
            };
            proof {
                assert(failure_views(r@.push(f)) =~= failure_views(r@).push(f@));
                assert(failure_views(r@).push(f@) =~= failures_spec(
                    op,
                    entry_views(pairs@).take(i + 1),
                    ok@.take(i + 1),
                ));
            }
            r.push(f);
        } else {
            proof {
                assert(failure_views(r@) =~= failures_spec(
                    op,
                    entry_views(pairs@).take(i + 1),
                    ok@.take(i + 1),
                ));
            }
        }
        i = i + 1;
    }
    proof {
        assert(entry_views(pairs@).take(n as int) =~= entry_views(pairs@));
        assert(ok@.take(n as int) =~= ok@);
    }
    r
}

/// Whether pair `j` contributes a failure record depends on its own outcome
/// alone, and every pair contributes its verdict to the record: processing
/// never stops at a failed pair, so one bad file cannot block the rest of the
/// batch.
pub proof fn lemma_failure_isolation(op: PhotoOp, pairs: Seq<MoveInfoV>, ok: Seq<bool>, j: int)
    requires
        ok.len() == pairs.len(),
        0 <= j < pairs.len(),
    ensures
        ({
            let before = failures_spec(op, pairs.take(j), ok.take(j));
            let after = failures_spec(op, pairs.take(j + 1), ok.take(j + 1));
            after == if ok[j] {
                before
            } else {
                before.push(OpFailureV { op, source: pairs[j].source, dest: pairs[j].dest })
            }
        }),
{
    assert(pairs.take(j + 1).drop_last() =~= pairs.take(j));
    assert(ok.take(j + 1).drop_last() =~= ok.take(j));
    assert(pairs.take(j + 1).last() == pairs[j]);
}

/// A model of the slice of the filesystem the executor touches: each existing
/// file's path mapped to its content.
pub type FsModel = Map<Seq<char>, Seq<u8>>;

/// What one verb does to one pair: `Copy` duplicates the content under the
/// destination, `Move` renames, `Remove` deletes the source. A verb whose
/// source is missing changes nothing (the caller records the failure
/// instead).
pub open spec fn apply_op(fs: FsModel, op: PhotoOp, source: Seq<char>, dest: Seq<char>) -> FsModel {
    match op {
        PhotoOp::Copy => if fs.contains_key(source) {
            fs.insert(dest, fs[source])
        } else {
            fs
        },
        PhotoOp::Move => if fs.contains_key(source) {
            fs.remove(source).insert(dest, fs[source])
        } else {
            fs
        },
        PhotoOp::Remove => fs.remove(source),
    }
}

/// One verb applied to every pair of a group, in order.
pub open spec fn apply_group(fs: FsModel, op: PhotoOp, pairs: Seq<MoveInfoV>) -> FsModel
    decreases pairs.len(),
{
    if pairs.len() == 0 {
        fs
    } else {
        apply_op(
            apply_group(fs, op, pairs.drop_last()),
            op,
            pairs.last().source,
            pairs.last().dest,
        )
    }
}

/// After a `Move` of one pair the source is gone and the destination holds
/// the source's exact content; after a `Copy`, both exist with that content.
pub proof fn lemma_move_copy_effect(fs: FsModel, source: Seq<char>, dest: Seq<char>)
    requires
        fs.contains_key(source),
        source != dest,
    ensures
        ({
            let moved = apply_op(fs, PhotoOp::Move, source, dest);
            &&& !moved.contains_key(source)
            &&& moved.contains_key(dest)
            &&& moved[dest] == fs[source]
        }),
        ({
            let copied = apply_op(fs, PhotoOp::Copy, source, dest);
            &&& copied.contains_key(source)
            &&& copied.contains_key(dest)
            &&& copied[source] == fs[source]
            &&& copied[dest] == fs[source]
        }),
{
}

/// The sidecar group of a primary whose one companion exists expands to
/// exactly the primary pair and the mirrored companion pair; with the
/// companion missing, to the primary pair alone.
pub proof fn lemma_group_shape(entry: MoveInfoV, companion: Seq<char>)
    ensures
        group_spec(entry, seq![companion], seq![true]) == seq![
            entry,
            MoveInfoV {
                source: companion,
                dest: with_ext_chars(entry.dest, ext_of(companion).unwrap()),
            },
        ],
        group_spec(entry, seq![companion], seq![false]) == seq![entry],
{
    assert(seq![companion].drop_last() =~= Seq::<Seq<char>>::empty());
    assert(seq![true].drop_last() =~= Seq::<bool>::empty());
    assert(seq![false].drop_last() =~= Seq::<bool>::empty());
    assert(group_spec(entry, Seq::<Seq<char>>::empty(), Seq::<bool>::empty()) == seq![entry]);
    assert(seq![companion].last() == companion);
    assert(group_spec(entry, seq![companion], seq![true]) == seq![entry].push(
        MoveInfoV {
            source: companion,
            dest: with_ext_chars(entry.dest, ext_of(companion).unwrap()),
        },
    ));
    assert(seq![entry].push(
        MoveInfoV {
            source: companion,
            dest: with_ext_chars(entry.dest, ext_of(companion).unwrap()),
        },
    ) =~= seq![
        entry,
        MoveInfoV {
            source: companion,
            dest: with_ext_chars(entry.dest, ext_of(companion).unwrap()),
        },
    ]);
    assert(group_spec(entry, seq![companion], seq![false]) == seq![entry]);
}

/// Executing a plan entry on its whole sidecar group relocates, duplicates or
/// deletes the companion together with the primary: after `Move` both sources
/// are gone and both destinations hold the old contents; after `Copy` all
/// four paths exist, the destinations holding the sources' contents; after
/// `Remove` both sources are gone. A missing companion contributes no pair,
/// so the group then acts on the primary alone.
/// A one-pair group applies the verb once.
proof fn lemma_apply_group_one(fs: FsModel, op: PhotoOp, a: MoveInfoV)
    ensures
        apply_group(fs, op, seq![a]) == apply_op(fs, op, a.source, a.dest),
{
    assert(seq![a].drop_last() =~= Seq::<MoveInfoV>::empty());
    assert(apply_group(fs, op, Seq::<MoveInfoV>::empty()) == fs);
}

/// A two-pair group applies the verb to the first pair, then to the second.
proof fn lemma_apply_group_two(fs: FsModel, op: PhotoOp, a: MoveInfoV, b: MoveInfoV)
    ensures
        apply_group(fs, op, seq![a, b]) == apply_op(
            apply_op(fs, op, a.source, a.dest),
            op,
            b.source,
            b.dest,
        ),
{
    let two = seq![a, b];
    assert(two.drop_last() =~= seq![a]);
    assert(two.last() == b);
    lemma_apply_group_one(fs, op, a);
}

pub proof fn lemma_group_effect(fs: FsModel, entry: MoveInfoV, companion: Seq<char>)
    requires
        ext_of(companion) is Some,
        fs.contains_key(entry.source),
        fs.contains_key(companion),
        entry.source != companion,
        entry.source != entry.dest,
        companion != entry.dest,
        ({
            let cdest = with_ext_chars(entry.dest, ext_of(companion).unwrap());
            entry.source != cdest && companion != cdest && entry.dest != cdest
        }),
    ensures
        ({
            let pairs = group_spec(entry, seq![companion], seq![true]);
            let cdest = with_ext_chars(entry.dest, ext_of(companion).unwrap());
            let moved = apply_group(fs, PhotoOp::Move, pairs);
            let copied = apply_group(fs, PhotoOp::Copy, pairs);
            let removed = apply_group(fs, PhotoOp::Remove, pairs);
            &&& !moved.contains_key(entry.source) && !moved.contains_key(companion)
            &&& moved.contains_key(entry.dest) && moved[entry.dest] == fs[entry.source]
            &&& moved.contains_key(cdest) && moved[cdest] == fs[companion]
            &&& copied.contains_key(entry.source) && copied.contains_key(companion)
            &&& copied.contains_key(entry.dest) && copied[entry.dest] == fs[entry.source]
            &&& copied.contains_key(cdest) && copied[cdest] == fs[companion]
            &&& !removed.contains_key(entry.source) && !removed.contains_key(companion)
        }),
        apply_group(fs, PhotoOp::Move, group_spec(entry, seq![companion], seq![false]))
            == apply_op(fs, PhotoOp::Move, entry.source, entry.dest),
{
    let cdest = with_ext_chars(entry.dest, ext_of(companion).unwrap());
    let cpair = MoveInfoV { source: companion, dest: cdest };
    lemma_group_shape(entry, companion);
    lemma_apply_group_two(fs, PhotoOp::Move, entry, cpair);
    lemma_apply_group_two(fs, PhotoOp::Copy, entry, cpair);
    lemma_apply_group_two(fs, PhotoOp::Remove, entry, cpair);
    lemma_apply_group_one(fs, PhotoOp::Move, entry);
}

} // verus!
