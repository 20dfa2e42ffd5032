//! The file-system side of a transaction, as a model: a working tree maps
//! paths to contents. Applying a batch writes the staged content of every
//! edited or created file; rolling back deletes the created files and then
//! copies the backups back, each phase in reverse order of recording.

use vstd::prelude::*;

verus! {

/// A working tree: the content of every file, by path.
pub type WorkTree = Map<Seq<u8>, Seq<u8>>;

/// One write: a path and the content written to it.
pub type FileWrite = (Seq<u8>, Seq<u8>);

/// The tree after the writes `ws[..k]`, in order.
pub open spec fn apply_writes(t: WorkTree, ws: Seq<FileWrite>, k: int) -> WorkTree
    decreases k,
{
    if k <= 0 {
        t
    } else {
        apply_writes(t, ws, k - 1).insert(ws[k - 1].0, ws[k - 1].1)
    }
}

/// The backups taken before writing the edits `ws`: each edited path with
/// its content in `t`.
pub open spec fn backups_of(t: WorkTree, ws: Seq<FileWrite>) -> Seq<FileWrite> {
    Seq::new(ws.len(), |i: int| (ws[i].0, t[ws[i].0]))
}

/// The tree after deleting the created files `cs[..k]`, last first.
pub open spec fn delete_created(t: WorkTree, cs: Seq<Seq<u8>>, k: int) -> WorkTree
    decreases k,
{
    if k <= 0 {
        t
    } else {
        delete_created(t.remove(cs[k - 1]), cs, k - 1)
    }
}

/// The tree after copying the backups `bs[..k]` back, last first.
pub open spec fn restore_backups(t: WorkTree, bs: Seq<FileWrite>, k: int) -> WorkTree
    decreases k,
{
    if k <= 0 {
        t
    } else {
        restore_backups(t.insert(bs[k - 1].0, bs[k - 1].1), bs, k - 1)
    }
}

/// Rolling back: created files deleted, then backups restored.
pub open spec fn rolled_back(t: WorkTree, bs: Seq<FileWrite>, cs: Seq<Seq<u8>>) -> WorkTree {
    restore_backups(delete_created(t, cs, cs.len() as int), bs, bs.len() as int)
}

/// The paths of `ws` are pairwise distinct.
pub open spec fn distinct_paths(ws: Seq<FileWrite>) -> bool {
    forall|i: int, j: int| 0 <= i < ws.len() && 0 <= j < ws.len() && i != j ==> #[trigger] ws[i].0 != #[trigger] ws[j].0
}

/// The request of a batch, as the model sees it: edits of existing files and
/// creations of new ones, no path twice.
pub open spec fn valid_batch(t: WorkTree, edits: Seq<FileWrite>, creates: Seq<FileWrite>) -> bool {
    &&& distinct_paths(edits + creates)
    &&& forall|i: int| 0 <= i < edits.len() ==> t.contains_key(#[trigger] edits[i].0)
    &&& forall|i: int| 0 <= i < creates.len() ==> !t.contains_key(#[trigger] creates[i].0)
}

pub open spec fn paths_of(ws: Seq<FileWrite>) -> Seq<Seq<u8>> {
    Seq::new(ws.len(), |i: int| ws[i].0)
}

proof fn lemma_writes_other(t: WorkTree, ws: Seq<FileWrite>, k: int, p: Seq<u8>)
    requires
        0 <= k <= ws.len(),
        forall|i: int| 0 <= i < k ==> #[trigger] ws[i].0 != p,
    ensures
        apply_writes(t, ws, k).contains_key(p) == t.contains_key(p),
        t.contains_key(p) ==> apply_writes(t, ws, k)[p] == t[p],
    decreases k,
{
    if k > 0 {
        assert(ws[k - 1].0 != p);
        lemma_writes_other(t, ws, k - 1, p);
    }
}

proof fn lemma_writes_hit(t: WorkTree, ws: Seq<FileWrite>, k: int, i: int)
    requires
        0 <= i < k <= ws.len(),
        distinct_paths(ws),
    ensures
        apply_writes(t, ws, k).contains_key(ws[i].0),
        apply_writes(t, ws, k)[ws[i].0] == ws[i].1,
    decreases k,
{
    if i < k - 1 {
        assert(ws[k - 1].0 != ws[i].0);
        lemma_writes_hit(t, ws, k - 1, i);
    }
}

/// After a batch commits, every edited or created file holds exactly the
/// content that was staged for it.
pub proof fn lemma_commit_content(t: WorkTree, edits: Seq<FileWrite>, creates: Seq<FileWrite>, i: int)
    requires
        valid_batch(t, edits, creates),
        0 <= i < edits.len() + creates.len(),
    ensures
        apply_writes(t, edits + creates, (edits.len() + creates.len()) as int).contains_key((edits + creates)[i].0),
        apply_writes(t, edits + creates, (edits.len() + creates.len()) as int)[(edits + creates)[i].0] == (edits + creates)[i].1,
{
    lemma_writes_hit(t, edits + creates, (edits.len() + creates.len()) as int, i);
}

proof fn lemma_delete_other(t: WorkTree, cs: Seq<Seq<u8>>, k: int, p: Seq<u8>)
    requires
        0 <= k <= cs.len(),
        forall|i: int| 0 <= i < k ==> #[trigger] cs[i] != p,
    ensures
        delete_created(t, cs, k).contains_key(p) == t.contains_key(p),
        t.contains_key(p) ==> delete_created(t, cs, k)[p] == t[p],
    decreases k,
{
    if k > 0 {
        assert(cs[k - 1] != p);
        lemma_delete_other(t.remove(cs[k - 1]), cs, k - 1, p);
    }
}

proof fn lemma_delete_hit(t: WorkTree, cs: Seq<Seq<u8>>, k: int, i: int)
    requires
        0 <= i < k <= cs.len(),
    ensures
        !delete_created(t, cs, k).contains_key(cs[i]),
    decreases k,
{
    let t1 = t.remove(cs[k - 1]);
    if i == k - 1 {
        if exists|j: int| 0 <= j < k - 1 && #[trigger] cs[j] == cs[i] {
            let j = choose|j: int| 0 <= j < k - 1 && #[trigger] cs[j] == cs[i];
            lemma_delete_hit(t1, cs, k - 1, j);
        } else {
            lemma_delete_other(t1, cs, k - 1, cs[i]);
        }
    } else {
        lemma_delete_hit(t1, cs, k - 1, i);
    }
}

proof fn lemma_restore_other(t: WorkTree, bs: Seq<FileWrite>, k: int, p: Seq<u8>)
    requires
        0 <= k <= bs.len(),
        forall|i: int| 0 <= i < k ==> #[trigger] bs[i].0 != p,
    ensures
        restore_backups(t, bs, k).contains_key(p) == t.contains_key(p),
        t.contains_key(p) ==> restore_backups(t, bs, k)[p] == t[p],
    decreases k,
{
    if k > 0 {
        assert(bs[k - 1].0 != p);
        lemma_restore_other(t.insert(bs[k - 1].0, bs[k - 1].1), bs, k - 1, p);
    }
}

proof fn lemma_restore_hit(t: WorkTree, bs: Seq<FileWrite>, k: int, i: int)
    requires
        0 <= i < k <= bs.len(),
        distinct_paths(bs),
    ensures
        restore_backups(t, bs, k).contains_key(bs[i].0),
        restore_backups(t, bs, k)[bs[i].0] == bs[i].1,
    decreases k,
{
    let t1 = t.insert(bs[k - 1].0, bs[k - 1].1);
    if i == k - 1 {
        assert forall|j: int| 0 <= j < k - 1 implies #[trigger] bs[j].0 != bs[i].0 by {}
        lemma_restore_other(t1, bs, k - 1, bs[i].0);
    } else {
        lemma_restore_hit(t1, bs, k - 1, i);
    }
}

/// Rolling back a batch gives back the tree it started from: every file
/// that existed holds its old content, and no created file remains.
pub proof fn lemma_rollback_restores(t: WorkTree, edits: Seq<FileWrite>, creates: Seq<FileWrite>)
    requires
        valid_batch(t, edits, creates),
    ensures
        rolled_back(
            apply_writes(t, edits + creates, (edits.len() + creates.len()) as int),
            backups_of(t, edits),
            paths_of(creates),
        ) == t,
{
    let ws = edits + creates;
    let ne = edits.len() as int;
    let n = ws.len() as int;
    let applied = apply_writes(t, ws, n);
    let bs = backups_of(t, edits);
    let cs = paths_of(creates);
    let deleted = delete_created(applied, cs, cs.len() as int);
    let result = restore_backups(deleted, bs, bs.len() as int);
    assert(distinct_paths(bs)) by {
        assert forall|i: int, j: int| 0 <= i < bs.len() && 0 <= j < bs.len() && i != j implies #[trigger] bs[i].0 != #[trigger] bs[j].0 by {
            assert(ws[i] == edits[i] && ws[j] == edits[j]);
        }
    }
    assert forall|p: Seq<u8>| #[trigger] result.contains_key(p) == t.contains_key(p) && (t.contains_key(p) ==> result[p] == t[p]) by {
        if exists|i: int| 0 <= i < ne && edits[i].0 == p {
            let i = choose|i: int| 0 <= i < ne && edits[i].0 == p;
            assert(bs[i].0 == p);
            lemma_restore_hit(deleted, bs, bs.len() as int, i);
        } else if exists|i: int| 0 <= i < creates.len() && creates[i].0 == p {
            let i = choose|i: int| 0 <= i < creates.len() && creates[i].0 == p;
            assert(cs[i] == p);
            lemma_delete_hit(applied, cs, cs.len() as int, i);
            assert forall|j: int| 0 <= j < bs.len() implies #[trigger] bs[j].0 != p by {
                assert(ws[j] == edits[j]);
                assert(ws[ne + i] == creates[i]);
            }
            lemma_restore_other(deleted, bs, bs.len() as int, p);
        } else {
            assert forall|j: int| 0 <= j < n implies #[trigger] ws[j].0 != p by {
                if j < ne {
                    assert(ws[j] == edits[j]);
                } else {
                    assert(ws[j] == creates[j - ne]);
                }
            }
            lemma_writes_other(t, ws, n, p);
            assert forall|j: int| 0 <= j < cs.len() implies #[trigger] cs[j] != p by {
                assert(cs[j] == creates[j].0);
            }
            lemma_delete_other(applied, cs, cs.len() as int, p);
            assert forall|j: int| 0 <= j < bs.len() implies #[trigger] bs[j].0 != p by {
                assert(bs[j].0 == edits[j].0);
            }
            lemma_restore_other(deleted, bs, bs.len() as int, p);
        }
    }
    assert(result =~= t);
}

/// One step of a rollback.
#[derive(Debug, Clone)]
pub enum RollbackStep {
    /// Delete a file the batch created.
    Delete(String),
    /// Copy a backup back over the file it was taken from.
    Restore { original: String, backup: String },
}

/// A backup taken before a file was written: the file and its copy.
#[derive(Debug, Clone)]
pub struct FileBackup {
    pub original_path: String,
    pub backup_path: String,
}

pub open spec fn is_delete_of(s: RollbackStep, p: String) -> bool {
    s matches RollbackStep::Delete(q) && q == p
}

pub open spec fn is_restore_of(s: RollbackStep, b: FileBackup) -> bool {
    s matches RollbackStep::Restore { original, backup } && original == b.original_path && backup == b.backup_path
}

/// `steps` deletes the created files, last first, then restores the backups, last first.
pub open spec fn rollback_order(backups: Seq<FileBackup>, created: Seq<String>, steps: Seq<RollbackStep>) -> bool {
    let nc = created.len() as int;
    &&& steps.len() == nc + backups.len()
    &&& forall|i: int| 0 <= i < nc ==> is_delete_of(#[trigger] steps[i], created[nc - 1 - i])
    &&& forall|i: int| 0 <= i < backups.len() ==> is_restore_of(#[trigger] steps[nc + i], backups[backups.len() - 1 - i])
}

/// The steps that undo a batch: created files deleted before backups are
/// restored, each phase in reverse order of recording.
pub fn rollback_steps(backups: &Vec<FileBackup>, created: &Vec<String>) -> (r: Vec<RollbackStep>)
    ensures
        rollback_order(backups@, created@, r@),
{
    let mut steps: Vec<RollbackStep> = Vec::new();
    let nc = created.len();
    let mut i: usize = 0;
    while i < nc
        invariant
            nc == created@.len(),
            i <= nc,
            steps@.len() == i,
            forall|j: int| 0 <= j < i ==> is_delete_of(#[trigger] steps@[j], created@[nc - 1 - j]),
        decreases nc - i,
    {
        steps.push(RollbackStep::Delete(created[nc - 1 - i].clone()));
        i += 1;
    }
    let nb = backups.len();
    let mut k: usize = 0;
    while k < nb
        invariant
            nc == created@.len(),
            nb == backups@.len(),
            k <= nb,
            steps@.len() == nc + k,
            forall|j: int| 0 <= j < nc ==> is_delete_of(#[trigger] steps@[j], created@[nc - 1 - j]),
            forall|j: int| 0 <= j < k ==> is_restore_of(#[trigger] steps@[nc + j], backups@[nb - 1 - j]),
        decreases nb - k,
    {
        let b = &backups[nb - 1 - k];
        steps.push(RollbackStep::Restore { original: b.original_path.clone(), backup: b.backup_path.clone() });
        k += 1;
    }
    steps
}

} // verus!
