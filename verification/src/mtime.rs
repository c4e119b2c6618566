//! Resolution of an entry's modification time.
//!
//! An entry may carry an optional extended-timestamp extra field with a
//! high-fidelity Unix timestamp, and a native DOS-style stamp with two-second
//! resolution and no timezone. The resolved time prefers the first
//! extended-timestamp field; otherwise it falls back to the native stamp, and
//! when even that is missing, to the fixed 1980-01-01 00:00:00 default, so a
//! listing row never fails over missing precision.

use vstd::prelude::*;

verus! {

/// A native, DOS-style last-modified stamp: naive civil time, no timezone.
#[derive(Clone, Copy, Debug, PartialEq, Eq)]
pub struct DosStamp {
    pub year: u16,
    pub month: u8,
    pub day: u8,
    pub hour: u8,
    pub minute: u8,
    pub second: u8,
}

/// One extra-data field of an entry, reduced to what timestamp resolution
/// reads: an extended-timestamp field carries an optional modification time
/// in Unix epoch seconds; every other field is opaque.
#[derive(Clone, Copy, Debug, PartialEq, Eq)]
pub enum ExtraStamp {
    ExtendedTs { mod_time: Option<u32> },
    Other,
}

/// The resolved modification time of an entry.
#[derive(Clone, Copy, Debug, PartialEq, Eq)]
pub enum ModTime {
    /// From an extended-timestamp field: Unix epoch seconds.
    Unix { secs: u32 },
    /// From the native field, or from its fixed default: naive civil time.
    Civil { stamp: DosStamp },
}

/// The stamp used when an entry has no parseable native field.
pub open spec fn default_dos_spec() -> DosStamp {
    DosStamp { year: 1980, month: 1, day: 1, hour: 0, minute: 0, second: 0 }
}

/// The modification time of the first extended-timestamp field, if any field
/// of that kind is present. A present field whose own time is missing still
/// wins the search and yields `None`.
pub open spec fn first_extended_spec(fields: Seq<ExtraStamp>) -> Option<u32>
    decreases fields.len(),
{
    if fields.len() == 0 {
        None
    } else {
        match fields[0] {
            ExtraStamp::ExtendedTs { mod_time } => mod_time,
            ExtraStamp::Other => first_extended_spec(fields.drop_first()),
        }
    }
}

/// The two-tier fallback: an extended timestamp wins; otherwise the native
/// stamp, or its fixed default when absent.
pub open spec fn resolve_mtime_spec(ext: Option<u32>, dos: Option<DosStamp>) -> ModTime {
    match ext {
        Some(secs) => ModTime::Unix { secs },
        None => ModTime::Civil {
            stamp: match dos {
                Some(d) => d,
                None => default_dos_spec(),
            },
        },
    }
}

/// The resolved modification time of an entry with extra fields `extra` and
/// native stamp `dos`.
pub open spec fn entry_mtime(extra: Seq<ExtraStamp>, dos: Option<DosStamp>) -> ModTime {
    resolve_mtime_spec(first_extended_spec(extra), dos)
}

/// Search the extra fields for the first extended-timestamp field and return
/// its modification time.
pub fn first_extended_mod_time(fields: &Vec<ExtraStamp>) -> (r: Option<u32>)
    ensures
        r == first_extended_spec(fields@),
{
    let mut i: usize = 0;
    assert(fields@.skip(0) =~= fields@);
    while i < fields.len()
        invariant
            i <= fields.len(),
            first_extended_spec(fields@) == first_extended_spec(fields@.skip(i as int)),
        decreases fields.len() - i,
    {
        assert(fields@.skip(i as int)[0] == fields@[i as int]);
        match fields[i] {
            ExtraStamp::ExtendedTs { mod_time } => {
                return mod_time;
            },
            ExtraStamp::Other => {},
        }
        assert(fields@.skip(i as int).drop_first() =~= fields@.skip(i as int + 1));
        i += 1;
    }
    assert(fields@.skip(i as int) =~= Seq::<ExtraStamp>::empty());
    None
}

/// Resolve the modification time from an optional extended timestamp and an
/// optional native stamp, preferring the extended one.
pub fn resolve_mtime(ext: Option<u32>, dos: Option<DosStamp>) -> (m: ModTime)
    ensures
        m == resolve_mtime_spec(ext, dos),
{
    match ext {
        Some(secs) => ModTime::Unix { secs },
        None => match dos {
            Some(d) => ModTime::Civil { stamp: d },
            None => ModTime::Civil {
                stamp: DosStamp { year: 1980, month: 1, day: 1, hour: 0, minute: 0, second: 0 },
            },
        },
    }
}

} // verus!
