//! A verified core for a zip extraction and listing tool.
//!
//! The library opens no files itself: it works on a zip container held in
//! memory and hands every filesystem effect to its host as plain values. It
//! lists the container's entries (name, uncompressed size, resolved
//! modification time) and computes the write plan that materializes the
//! entries below a target directory: entry names are sanitized so that no
//! entry can escape the target tree, a path that already exists aborts the
//! run unless overwriting is forced, and entries whose record cannot be
//! decoded are skipped.

use vstd::prelude::*;

pub mod archive;
pub mod extract;
pub mod listing;
pub mod mtime;
pub mod paths;

use crate::archive::{archive_entries, archive_len, entry_content, entry_meta, EntryModel, MemArchive};
use crate::extract::{
    entry_action, err_model, extract_plan_spec, lemma_concat_contains, op_model, ops_model,
    path_prefixes, plan_composes, contains_path, push_prefixes, EntryAction, ErrModel, OpModel,
    UnzipError, WriteOp,
};
use crate::listing::{lemma_listing_step, listing_spec, row_model, ListingRow, RowModel};
use crate::mtime::{entry_mtime, first_extended_mod_time, resolve_mtime};

verus! {

/// The models of a sequence of listing rows.
pub open spec fn rows_model(rows: Seq<ListingRow>) -> Seq<RowModel> {
    rows.map_values(|r: ListingRow| row_model(r))
}

/// The engine behind the `unzip` command: listing and extraction planning.
pub struct UnzipCommand;

impl UnzipCommand {
    /// List the archive: one row per decodable entry, in archive order, with
    /// the entry's name, declared uncompressed size, and modification time
    /// resolved by the two-tier fallback. Undecodable entries are skipped;
    /// listing never fails.
    pub fn list_files(&self, archive: &mut MemArchive) -> (rows: Vec<ListingRow>)
        ensures
            archive_entries(*final(archive)) == archive_entries(*old(archive)),
            rows_model(rows@) == listing_spec(archive_entries(*old(archive))),
    {
        let ghost entries = archive_entries(*old(archive));
        let n = archive_len(archive);
        let mut rows: Vec<ListingRow> = Vec::new();
        let mut i: usize = 0;
        proof {
            assert(entries.skip(0) =~= entries);
            assert(rows_model(rows@) =~= Seq::<RowModel>::empty());
        }
        while i < n
            invariant
                n == entries.len(),
                archive_entries(*archive) == entries,
                i <= n,
                listing_spec(entries) == rows_model(rows@) + listing_spec(
                    entries.skip(i as int),
                ),
            decreases n - i,
        {
            proof {
                lemma_listing_step(entries, i as int);
            }
            let ghost prev = rows@;
            match entry_meta(archive, i) {
                Some(m) => {
                    let ext = first_extended_mod_time(&m.extra);
                    let modified = resolve_mtime(ext, m.dos_time);
                    let row = ListingRow { name: m.name, size: m.size, modified };
                    proof {
                        assert(row_model(row) == RowModel {
                            name: entries[i as int].name,
                            size: entries[i as int].size,
                            modified: entry_mtime(entries[i as int].extra, entries[i as int].dos_time),
                        });
                    }
                    rows.push(row);
                    proof {
                        assert(rows_model(rows@) =~= rows_model(prev).push(row_model(rows@.last())));
                        assert(rows_model(prev).push(row_model(rows@.last())) + listing_spec(
                            entries.skip(i as int + 1),
                        ) =~= rows_model(prev) + (seq![row_model(rows@.last())] + listing_spec(
                            entries.skip(i as int + 1),
                        )));
                    }
                },
                None => {},
            }
            i += 1;
        }
        proof {
            assert(entries.skip(n as int) =~= Seq::<EntryModel>::empty());
            assert(rows_model(rows@) + Seq::<RowModel>::empty() =~= rows_model(rows@));
        }
        rows
    }

    /// Compute the write plan that extracts the archive below a target
    /// directory whose pre-existing paths (relative, as components) are
    /// `existing`. Per entry, in archive order: an undecodable record or an
    /// unsafe name skips the entry; a path already present aborts the whole
    /// run with `AlreadyExists` unless `force` is on (the operations planned
    /// before the conflict stand, so a host that performs them as they are
    /// planned keeps them on disk, with no rollback); a directory entry
    /// becomes `MakeDir` and a file entry `WriteFile` with its decompressed
    /// content; a file whose stream cannot be read aborts with `ReadEntry`.
    /// A planned path and its ancestors count as present for later entries.
    pub fn unzip_file(
        &self,
        archive: &mut MemArchive,
        force: bool,
        existing: &Vec<Vec<String>>,
    ) -> (r: Result<Vec<WriteOp>, UnzipError>)
        ensures
            archive_entries(*final(archive)) == archive_entries(*old(archive)),
            r matches Ok(ops) ==> extract_plan_spec(
                archive_entries(*old(archive)),
                0,
                force,
                existing.deep_view(),
            ) == Ok::<Seq<OpModel>, ErrModel>(ops_model(ops@)),
            r matches Err(e) ==> extract_plan_spec(
                archive_entries(*old(archive)),
                0,
                force,
                existing.deep_view(),
            ) == Err::<Seq<OpModel>, ErrModel>(err_model(e)),
    {
        let ghost entries = archive_entries(*old(archive));
        let ghost initial = existing.deep_view();
        let n = archive_len(archive);
        let mut ops: Vec<WriteOp> = Vec::new();
        let mut created: Vec<Vec<String>> = Vec::new();
        let mut i: usize = 0;
        proof {
            assert(created.deep_view() =~= Seq::<Seq<Seq<char>>>::empty());
            assert(initial + created.deep_view() =~= initial);
            assert(ops_model(ops@) =~= Seq::<OpModel>::empty());
            if extract_plan_spec(entries, 0, force, initial) is Ok {
                let rest = extract_plan_spec(entries, 0, force, initial)->Ok_0;
                assert(ops_model(ops@) + rest =~= rest);
            }
        }
        while i < n
            invariant
                n == entries.len(),
                entries == archive_entries(*old(archive)),
                archive_entries(*archive) == entries,
                i <= n,
                initial == existing.deep_view(),
                plan_composes(
                    entries,
                    force,
                    initial,
                    ops_model(ops@),
                    i as int,
                    initial + created.deep_view(),
                ),
            decreases n - i,
        {
            let ghost present = initial + created.deep_view();
            match entry_meta(archive, i) {
                None => {},
                Some(m) => {
                    match crate::paths::sanitize(m.name.as_str()) {
                        None => {},
                        Some(comps) => {
                            let exists_already = contains_path(existing, &comps) || contains_path(
                                &created,
                                &comps,
                            );
                            proof {
                                lemma_concat_contains(
                                    initial,
                                    created.deep_view(),
                                    comps.deep_view(),
                                );
                                assert(exists_already == present.contains(comps.deep_view()));
                            }
                            match entry_action(m.is_dir, exists_already, force) {
                                EntryAction::Conflict => {
                                    return Err(UnzipError::AlreadyExists { path: comps });
                                },
                                EntryAction::MakeDir => {
                                    let ghost compsd = comps.deep_view();
                                    push_prefixes(&mut created, &comps);
                                    let ghost prev = ops@;
                                    ops.push(WriteOp::MakeDir { path: comps });
                                    proof {
                                        assert(op_model(ops@.last()).path == compsd);
                                        assert(initial + created.deep_view() =~= present
                                            + path_prefixes(compsd));
                                        Self::lemma_plan_step(
                                            entries,
                                            force,
                                            initial,
                                            prev,
                                            ops@,
                                            i as int,
                                            present,
                                            created.deep_view(),
                                        );
                                    }
                                },
                                EntryAction::WriteFile => {
                                    match entry_content(archive, i) {
                                        None => {
                                            // entry_meta decoded this entry, so a
                                            // content read is answered for it
                                            proof {
                                                assert(false);
                                            }
                                        },
                                        Some(Err(detail)) => {
                                            return Err(UnzipError::ReadEntry {
                                                name: m.name,
                                                detail,
                                            });
                                        },
                                        Some(Ok(content)) => {
                                            let ghost compsd = comps.deep_view();
                                            push_prefixes(&mut created, &comps);
                                            let ghost prev = ops@;
                                            ops.push(WriteOp::WriteFile { path: comps, content });
                                            proof {
                                                assert(op_model(ops@.last()).path == compsd);
                                                assert(initial + created.deep_view() =~= present
                                                    + path_prefixes(compsd));
                                                Self::lemma_plan_step(
                                                    entries,
                                                    force,
                                                    initial,
                                                    prev,
                                                    ops@,
                                                    i as int,
                                                    present,
                                                    created.deep_view(),
                                                );
                                            }
                                        },
                                    }
                                },
                            }
                        },
                    }
                },
            }
            i += 1;
        }
        proof {
            if extract_plan_spec(entries, n as int, force, initial + created.deep_view()) is Ok {
                assert(ops_model(ops@) + Seq::<OpModel>::empty() =~= ops_model(ops@));
            }
        }
        Ok(ops)
    }

    /// One emitted operation extends the plan built so far: stepping the
    /// composition invariant over an entry that plans `post.last()`.
    proof fn lemma_plan_step(
        entries: Seq<EntryModel>,
        force: bool,
        initial: Seq<Seq<Seq<char>>>,
        prev: Seq<WriteOp>,
        post: Seq<WriteOp>,
        i: int,
        present: Seq<Seq<Seq<char>>>,
        created_after: Seq<Seq<Seq<char>>>,
    )
        requires
            0 <= i < entries.len(),
            post == prev.push(post.last()),
            plan_composes(entries, force, initial, ops_model(prev), i, present),
            initial + created_after == present + path_prefixes(op_model(post.last()).path),
            extract_plan_spec(entries, i, force, present) == (match extract_plan_spec(
                entries,
                i + 1,
                force,
                present + path_prefixes(op_model(post.last()).path),
            ) {
                Ok(rest) => Ok::<Seq<OpModel>, ErrModel>(seq![op_model(post.last())] + rest),
                Err(err) => Err::<Seq<OpModel>, ErrModel>(err),
            }),
        ensures
            plan_composes(
                entries,
                force,
                initial,
                ops_model(post),
                i + 1,
                initial + created_after,
            ),
    {
        let opm = op_model(post.last());
        assert(ops_model(post) =~= ops_model(prev).push(opm));
        match extract_plan_spec(entries, i + 1, force, present + path_prefixes(opm.path)) {
            Ok(rest) => {
                assert(ops_model(prev) + (seq![opm] + rest) =~= ops_model(prev).push(opm) + rest);
            },
            Err(err) => {},
        }
    }
}

/// An archive without entries lists nothing, and its extraction plan writes
/// nothing, whatever the target directory already holds.
pub proof fn lemma_empty_archive(
    entries: Seq<EntryModel>,
    force: bool,
    present: Seq<Seq<Seq<char>>>,
)
    requires
        entries.len() == 0,
    ensures
        listing_spec(entries) == Seq::<RowModel>::empty(),
        extract_plan_spec(entries, 0, force, present) == Ok::<Seq<OpModel>, ErrModel>(
            Seq::<OpModel>::empty(),
        ),
{
}

} // verus!
