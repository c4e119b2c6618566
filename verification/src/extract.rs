//! The extraction plan: what writing an archive below a target directory does.
//!
//! A plan is a sequence of write operations, one per extractable entry, in
//! archive order. Per entry: an undecodable record or an unsafe name skips
//! the entry; a path already present below the target aborts the whole run
//! with a conflict unless overwriting is forced; a directory entry becomes a
//! directory operation and a file entry a file operation carrying its
//! decompressed content. A performed operation makes the written path and all
//! its ancestors present for the entries after it, mirroring a host that
//! creates missing ancestor directories as it writes.

use vstd::prelude::*;

use crate::archive::EntryModel;
use crate::paths::{path_is_safe, sanitize_spec};

verus! {

/// One operation of a write plan, on a path given as safe relative
/// components below the target directory.
#[derive(Debug, PartialEq, Eq)]
pub enum WriteOp {
    /// Create the directory and its missing ancestors.
    MakeDir { path: Vec<String> },
    /// Create the missing ancestors, then create or truncate the file and
    /// write `content` to it.
    WriteFile { path: Vec<String>, content: Vec<u8> },
}

/// Why extraction aborted.
#[derive(Debug, PartialEq, Eq)]
pub enum UnzipError {
    /// The resolved path already exists and overwriting was not forced; the
    /// run stops here, and operations before this one stand.
    AlreadyExists { path: Vec<String> },
    /// The decompressed stream of the entry named `name` could not be read;
    /// `detail` is the underlying cause.
    ReadEntry { name: String, detail: String },
}

/// The model of one write operation.
pub struct OpModel {
    pub is_dir_op: bool,
    pub path: Seq<Seq<char>>,
    pub content: Seq<u8>,
}

/// The model of an extraction error.
pub enum ErrModel {
    AlreadyExists { path: Seq<Seq<char>> },
    ReadEntry { name: Seq<char> },
}

/// The model of a write operation value.
pub open spec fn op_model(op: WriteOp) -> OpModel {
    match op {
        WriteOp::MakeDir { path } => OpModel {
            is_dir_op: true,
            path: path.deep_view(),
            content: Seq::empty(),
        },
        WriteOp::WriteFile { path, content } => OpModel {
            is_dir_op: false,
            path: path.deep_view(),
            content: content@,
        },
    }
}

/// The model of an error value.
pub open spec fn err_model(e: UnzipError) -> ErrModel {
    match e {
        UnzipError::AlreadyExists { path } => ErrModel::AlreadyExists { path: path.deep_view() },
        UnzipError::ReadEntry { name, detail: _ } => ErrModel::ReadEntry { name: name@ },
    }
}

/// All the nonempty prefixes of a path: the paths that exist once the path
/// has been written, its ancestors included.
pub open spec fn path_prefixes(p: Seq<Seq<char>>) -> Seq<Seq<Seq<char>>> {
    Seq::new(p.len(), |j: int| p.take(j + 1))
}

/// The plan for the entries from index `i` on, with the paths in `present`
/// already existing below the target directory.
pub open spec fn extract_plan_spec(
    entries: Seq<EntryModel>,
    i: int,
    force: bool,
    present: Seq<Seq<Seq<char>>>,
) -> Result<Seq<OpModel>, ErrModel>
    decreases entries.len() - i,
{
    if i < 0 || i >= entries.len() {
        Ok(Seq::empty())
    } else {
        let e = entries[i];
        if !e.decodable {
            extract_plan_spec(entries, i + 1, force, present)
        } else {
            match sanitize_spec(e.name) {
                None => extract_plan_spec(entries, i + 1, force, present),
                Some(comps) => {
                    if present.contains(comps) && !force {
                        Err(ErrModel::AlreadyExists { path: comps })
                    } else if e.is_dir {
                        match extract_plan_spec(entries, i + 1, force, present + path_prefixes(comps)) {
                            Ok(rest) => Ok(
                                seq![OpModel { is_dir_op: true, path: comps, content: Seq::empty() }]
                                    + rest,
                            ),
                            Err(err) => Err(err),
                        }
                    } else {
                        match e.content {
                            None => Err(ErrModel::ReadEntry { name: e.name }),
                            Some(c) => match extract_plan_spec(
                                entries,
                                i + 1,
                                force,
                                present + path_prefixes(comps),
                            ) {
                                Ok(rest) => Ok(
                                    seq![OpModel { is_dir_op: false, path: comps, content: c }]
                                        + rest,
                                ),
                                Err(err) => Err(err),
                            },
                        }
                    }
                },
            }
        }
    }
}

/// What a host does with one entry: abort on a conflict, otherwise create a
/// directory or write a file.
#[derive(Clone, Copy, Debug, PartialEq, Eq)]
pub enum EntryAction {
    Conflict,
    MakeDir,
    WriteFile,
}

/// The decision for one resolved entry, given whether its path already
/// exists: an existing path without force is a conflict that aborts the run;
/// otherwise a directory entry is created and a file entry written.
pub fn entry_action(is_dir: bool, exists: bool, force: bool) -> (a: EntryAction)
    ensures
        a is Conflict <==> (exists && !force),
        a is MakeDir <==> (!(exists && !force) && is_dir),
        a is WriteFile <==> (!(exists && !force) && !is_dir),
{
    if exists && !force {
        EntryAction::Conflict
    } else if is_dir {
        EntryAction::MakeDir
    } else {
        EntryAction::WriteFile
    }
}

/// The models of a sequence of write operations.
pub open spec fn ops_model(ops: Seq<WriteOp>) -> Seq<OpModel> {
    ops.map_values(|op: WriteOp| op_model(op))
}

/// The shape of the plan builder's loop invariant: the plan of the whole run
/// equals the operations already emitted followed by the plan of the
/// remaining entries, and an abort among the remaining entries is the abort
/// of the whole run.
pub open spec fn plan_composes(
    entries: Seq<EntryModel>,
    force: bool,
    initial: Seq<Seq<Seq<char>>>,
    done: Seq<OpModel>,
    i: int,
    present: Seq<Seq<Seq<char>>>,
) -> bool {
    match extract_plan_spec(entries, i, force, present) {
        Ok(rest) => extract_plan_spec(entries, 0, force, initial) == Ok::<
            Seq<OpModel>,
            ErrModel,
        >(done + rest),
        Err(e) => extract_plan_spec(entries, 0, force, initial) == Err::<
            Seq<OpModel>,
            ErrModel,
        >(e),
    }
}

/// Whether two paths hold the same components.
pub(crate) fn path_eq(a: &Vec<String>, b: &Vec<String>) -> (r: bool)
    ensures
        r == (a.deep_view() == b.deep_view()),
{
    if a.len() != b.len() {
        assert(a.deep_view().len() != b.deep_view().len());
        return false;
    }
    let mut i: usize = 0;
    while i < a.len()
        invariant
            a@.len() == b@.len(),
            i <= a@.len(),
            forall|k: int| 0 <= k < i ==> a.deep_view()[k] == b.deep_view()[k],
        decreases a@.len() - i,
    {
        if !a[i].eq(&b[i]) {
            assert(a.deep_view()[i as int] != b.deep_view()[i as int]);
            return false;
        }
        assert(a.deep_view()[i as int] == b.deep_view()[i as int]);
        i += 1;
    }
    assert(a.deep_view() =~= b.deep_view());
    true
}

/// Whether `v` holds a path with the same components as `p`.
pub(crate) fn contains_path(v: &Vec<Vec<String>>, p: &Vec<String>) -> (r: bool)
    ensures
        r == v.deep_view().contains(p.deep_view()),
{
    let mut i: usize = 0;
    while i < v.len()
        invariant
            i <= v@.len(),
            forall|k: int| 0 <= k < i ==> v.deep_view()[k] != p.deep_view(),
        decreases v@.len() - i,
    {
        if path_eq(&v[i], p) {
            assert(v.deep_view()[i as int] == p.deep_view());
            return true;
        }
        i += 1;
    }
    assert(!v.deep_view().contains(p.deep_view()));
    false
}

/// Copy the first `k` components of `p`.
fn clone_prefix(p: &Vec<String>, k: usize) -> (r: Vec<String>)
    requires
        k <= p@.len(),
    ensures
        r.deep_view() == p.deep_view().take(k as int),
{
    let mut r: Vec<String> = Vec::new();
    assert(r.deep_view() =~= p.deep_view().take(0));
    let mut j: usize = 0;
    while j < k
        invariant
            k <= p@.len(),
            j <= k,
            r.deep_view() == p.deep_view().take(j as int),
        decreases k - j,
    {
        let ghost prevd = r.deep_view();
        assert(p.deep_view().len() == p@.len());
        assert(r.deep_view().len() == r@.len());
        assert(p.deep_view().take(j as int).len() == j);
        assert(r@.len() == j);
        let x = p[j].clone();
        assert(x@ == p.deep_view()[j as int]);
        let ghost xd = x@;
        r.push(x);
        assert(forall|t: int| 0 <= t < prevd.len() ==> r.deep_view()[t] == prevd[t]);
        assert(r.deep_view()[j as int] == xd);
        assert(r.deep_view() =~~= p.deep_view().take(j as int + 1));
        j += 1;
    }
    r
}

/// Record that the path `p` and all its ancestors now exist below the target.
pub(crate) fn push_prefixes(created: &mut Vec<Vec<String>>, p: &Vec<String>)
    ensures
        final(created).deep_view() == old(created).deep_view() + path_prefixes(p.deep_view()),
{
    let n = p.len();
    assert(created.deep_view() =~= old(created).deep_view() + path_prefixes(
        p.deep_view(),
    ).take(0));
    let mut k: usize = 0;
    while k < n
        invariant
            n == p@.len(),
            k <= n,
            created.deep_view() == old(created).deep_view() + path_prefixes(p.deep_view()).take(
                k as int,
            ),
        decreases n - k,
    {
        let ghost prevd = created.deep_view();
        assert(path_prefixes(p.deep_view()).take(k as int).len() == k);
        assert(created.deep_view().len() == created@.len());
        assert(old(created).deep_view().len() == old(created)@.len());
        assert(created@.len() == old(created)@.len() + k);
        let pref = clone_prefix(p, k + 1);
        let ghost prefd = pref.deep_view();
        created.push(pref);
        assert(forall|t: int| 0 <= t < prevd.len() ==> created.deep_view()[t] == prevd[t]);
        assert(created.deep_view()[prevd.len() as int] == prefd);
        assert(prefd == path_prefixes(p.deep_view())[k as int]);
        proof {
            let ghost target = old(created).deep_view() + path_prefixes(p.deep_view()).take(
                k as int + 1,
            );
            assert(created.deep_view().len() == target.len());
            assert forall|t: int| 0 <= t < target.len() implies created.deep_view()[t]
                == target[t] by {
                let on = old(created).deep_view().len() as int;
                if t < prevd.len() {
                    assert(created.deep_view()[t] == prevd[t]);
                    if t < on {
                        assert(prevd[t] == old(created).deep_view()[t]);
                    } else {
                        assert(prevd[t] == path_prefixes(p.deep_view()).take(k as int)[t - on]);
                        assert(path_prefixes(p.deep_view()).take(k as int)[t - on]
                            == path_prefixes(p.deep_view())[t - on]);
                        assert(target[t] == path_prefixes(p.deep_view()).take(k as int + 1)[t
                            - on]);
                    }
                } else {
                    assert(t == on + k);
                    assert(target[t] == path_prefixes(p.deep_view()).take(k as int + 1)[k as int]);
                }
            }
            assert(created.deep_view() =~~= target);
        }
        k += 1;
    }
    assert(path_prefixes(p.deep_view()).take(n as int) =~= path_prefixes(p.deep_view()));
}

/// Membership in a concatenation is membership in either part.
pub proof fn lemma_concat_contains<T>(a: Seq<T>, b: Seq<T>, x: T)
    ensures
        (a + b).contains(x) <==> (a.contains(x) || b.contains(x)),
{
    if a.contains(x) {
        let j = choose|j: int| 0 <= j < a.len() && a[j] == x;
        assert((a + b)[j] == x);
    }
    if b.contains(x) {
        let j = choose|j: int| 0 <= j < b.len() && b[j] == x;
        assert((a + b)[a.len() + j] == x);
    }
    if (a + b).contains(x) {
        let j = choose|j: int| 0 <= j < (a + b).len() && (a + b)[j] == x;
        if j < a.len() {
            assert(a[j] == x);
        } else {
            assert(b[j - a.len()] == x);
        }
    }
}

/// Every path of a computed plan is a nonempty safe relative path: no parent
/// traversal, no absolute component, nothing that could name anything outside
/// the target directory.
pub proof fn lemma_plan_paths_safe(
    entries: Seq<EntryModel>,
    i: int,
    force: bool,
    present: Seq<Seq<Seq<char>>>,
)
    ensures
        extract_plan_spec(entries, i, force, present) matches Ok(ops) ==> forall|k: int|
            0 <= k < ops.len() ==> (#[trigger] ops[k].path).len() > 0 && path_is_safe(ops[k].path),
    decreases entries.len() - i,
{
    if i < 0 || i >= entries.len() {
    } else {
        let e = entries[i];
        crate::paths::lemma_sanitize_safe(e.name);
        if !e.decodable {
            lemma_plan_paths_safe(entries, i + 1, force, present);
        } else {
            match sanitize_spec(e.name) {
                None => {
                    lemma_plan_paths_safe(entries, i + 1, force, present);
                },
                Some(comps) => {
                    lemma_plan_paths_safe(entries, i + 1, force, present + path_prefixes(comps));
                    if extract_plan_spec(entries, i, force, present) is Ok {
                        let ops = extract_plan_spec(entries, i, force, present)->Ok_0;
                        let rest = extract_plan_spec(
                            entries,
                            i + 1,
                            force,
                            present + path_prefixes(comps),
                        )->Ok_0;
                        assert(forall|k: int|
                            1 <= k < ops.len() ==> ops[k] == #[trigger] rest[k - 1]);
                    }
                },
            }
        }
    }
}

/// With overwriting forced, a run never aborts with a conflict.
pub proof fn lemma_force_never_conflicts(
    entries: Seq<EntryModel>,
    i: int,
    present: Seq<Seq<Seq<char>>>,
)
    ensures
        extract_plan_spec(entries, i, true, present) matches Err(e) ==> !(e is AlreadyExists),
    decreases entries.len() - i,
{
    if i < 0 || i >= entries.len() {
    } else {
        let e = entries[i];
        if !e.decodable {
            lemma_force_never_conflicts(entries, i + 1, present);
        } else {
            match sanitize_spec(e.name) {
                None => {
                    lemma_force_never_conflicts(entries, i + 1, present);
                },
                Some(comps) => {
                    lemma_force_never_conflicts(entries, i + 1, present + path_prefixes(comps));
                },
            }
        }
    }
}

/// Without force, a run whose plan wrote at least one operation aborts with a
/// conflict on that operation's path when the same run is repeated with the
/// path already present.
pub proof fn lemma_rerun_conflicts(
    entries: Seq<EntryModel>,
    i: int,
    present: Seq<Seq<Seq<char>>>,
)
    ensures
        extract_plan_spec(entries, i, false, present) matches Ok(ops) ==> ops.len() > 0
            ==> extract_plan_spec(entries, i, false, present + seq![ops[0].path])
                == Err::<Seq<OpModel>, ErrModel>(ErrModel::AlreadyExists { path: ops[0].path }),
    decreases entries.len() - i,
{
    if i < 0 || i >= entries.len() {
    } else {
        let e = entries[i];
        if !e.decodable {
            lemma_rerun_conflicts(entries, i + 1, present);
        } else {
            match sanitize_spec(e.name) {
                None => {
                    lemma_rerun_conflicts(entries, i + 1, present);
                },
                Some(comps) => {
                    if extract_plan_spec(entries, i, false, present) is Ok
                        && extract_plan_spec(entries, i, false, present)->Ok_0.len() > 0 {
                        let ops = extract_plan_spec(entries, i, false, present)->Ok_0;
                        assert(!present.contains(comps));
                        let rest = extract_plan_spec(
                            entries,
                            i + 1,
                            false,
                            present + path_prefixes(comps),
                        )->Ok_0;
                        assert(ops == seq![ops[0]] + rest);
                        assert(ops[0].path == comps);
                        assert((present + seq![comps]).contains(comps)) by {
                            assert((present + seq![comps])[present.len() as int] == comps);
                        }
                    }
                },
            }
        }
    }
}

} // verus!


