//! The archive reader: a thin trusted boundary around the `zip` crate.
//!
//! An opened archive is a `zip::ZipArchive` over an in-memory byte buffer.
//! Its entries are modelled by the uninterpreted sequence `archive_entries`;
//! the wrappers below relate what the `zip` calls return to that model, and
//! everything built on top of them is verified against it.

use vstd::prelude::*;

use crate::mtime::{DosStamp, ExtraStamp};

verus! {

#[verifier::external_type_specification]
#[verifier::external_body]
#[verifier::reject_recursive_types(T)]
pub struct ExCursor<T>(std::io::Cursor<T>);

#[verifier::external_type_specification]
#[verifier::external_body]
#[verifier::reject_recursive_types(R)]
pub struct ExZipArchive<R>(zip::ZipArchive<R>);

/// An archive opened over an in-memory byte buffer.
pub type MemArchive = zip::ZipArchive<std::io::Cursor<Vec<u8>>>;

/// What one archive entry holds, as the contracts see it. `decodable` is
/// whether the entry's record can be decoded at all; `content` is its
/// decompressed byte stream, or `None` when reading that stream fails.
pub struct EntryModel {
    pub decodable: bool,
    pub name: Seq<char>,
    pub size: u64,
    pub is_dir: bool,
    pub extra: Seq<ExtraStamp>,
    pub dos_time: Option<DosStamp>,
    pub content: Option<Seq<u8>>,
}

/// The entries of an opened archive, in archive order.
pub uninterp spec fn archive_entries(ar: MemArchive) -> Seq<EntryModel>;

/// The metadata of one decodable entry, as plain values.
pub struct EntryMeta {
    pub name: String,
    pub size: u64,
    pub is_dir: bool,
    pub extra: Vec<ExtraStamp>,
    pub dos_time: Option<DosStamp>,
}

/// Whether the plain metadata `m` is the metadata of the model entry `e`.
pub open spec fn meta_matches(m: EntryMeta, e: EntryModel) -> bool {
    &&& e.decodable
    &&& m.name@ == e.name
    &&& m.size == e.size
    &&& m.is_dir == e.is_dir
    &&& m.extra@ == e.extra
    &&& m.dos_time == e.dos_time
}

/// Relies on `zip::ZipArchive::len`: the number of entries in the archive's
/// central directory.
#[verifier::external_body]
pub(crate) fn archive_len(ar: &MemArchive) -> (n: usize)
    ensures
        n == archive_entries(*ar).len(),
{
    ar.len()
}

/// Relies on `zip::ZipArchive::by_index` and the entry accessors `name`,
/// `size`, `is_dir`, `extra_data_fields` (with `ExtendedTimestamp::mod_time`)
/// and `last_modified` (with the `zip::DateTime` field accessors): the
/// metadata of entry `i`, or `None` when the entry cannot be decoded.
/// Reading entry metadata never changes what the archive holds.
#[verifier::external_body]
pub(crate) fn entry_meta(ar: &mut MemArchive, i: usize) -> (r: Option<EntryMeta>)
    requires
        i < archive_entries(*old(ar)).len(),
    ensures
        archive_entries(*final(ar)) == archive_entries(*old(ar)),
        r is Some <==> archive_entries(*old(ar))[i as int].decodable,
        r matches Some(m) ==> meta_matches(m, archive_entries(*old(ar))[i as int]),
{
    let f = match ar.by_index(i) {
        Ok(f) => f,
        Err(_) => return None,
    };
    let extra = f.extra_data_fields().map(|e| match e {
        zip::ExtraField::ExtendedTimestamp(t) => ExtraStamp::ExtendedTs { mod_time: t.mod_time() },
        _ => ExtraStamp::Other,
    }).collect();
    let dos_time = f.last_modified().map(|d| DosStamp {
        year: d.year(), month: d.month(), day: d.day(),
        hour: d.hour(), minute: d.minute(), second: d.second(),
    });
    Some(EntryMeta { name: f.name().to_string(), size: f.size(), is_dir: f.is_dir(), extra, dos_time })
}

/// Relies on `zip::ZipArchive::by_index` and `std::io::Read::read_to_end` on
/// the returned entry: the decompressed content of entry `i`; `None` when the
/// entry cannot be decoded, `Err` when its stream cannot be read. Reading
/// never changes what the archive holds.
#[verifier::external_body]
pub(crate) fn entry_content(ar: &mut MemArchive, i: usize) -> (r: Option<Result<Vec<u8>, String>>)
    requires
        i < archive_entries(*old(ar)).len(),
    ensures
        archive_entries(*final(ar)) == archive_entries(*old(ar)),
        r is Some <==> archive_entries(*old(ar))[i as int].decodable,
        r matches Some(Ok(c)) ==> archive_entries(*old(ar))[i as int].content == Some(c@),
        r matches Some(Err(_)) ==> archive_entries(*old(ar))[i as int].content is None,
{
    let mut f = match ar.by_index(i) {
        Ok(f) => f,
        Err(_) => return None,
    };
    let mut buf = Vec::new();
    match std::io::Read::read_to_end(&mut f, &mut buf) {
        Ok(_) => Some(Ok(buf)),
        Err(e) => Some(Err(e.to_string())),
    }
}

} // verus!
