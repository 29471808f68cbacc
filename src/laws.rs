//! Properties that relate several calls, or hold of every archive.
use vstd::prelude::*;

use crate::archive::{entry_names, entry_offsets, lemma_last_index_named, open_error, LSZR};
use crate::bytes::le16;
use crate::zip::{eocd_error, eocd_position, ParseEOCDError};

verus! {

/// Every name in an archive's listing resolves, on its own, to a range.
pub proof fn lemma_listed_names_resolve(a: &LSZR, k: int)
    requires
        0 <= k < a.entry_list().len(),
    ensures
        a.entry_index(a.entry_list()[k].file_name@) is Some,
        a.range_of(a.entry_list()[k].file_name@) is Some,
{
    let names = entry_names(a.entry_list());
    lemma_last_index_named(names, names[k], names.len() as int);
}

/// Parsing the same Central Directory bytes twice gives the same names in the
/// same order, and every name the same range.
pub proof fn lemma_parse_cd_idempotent(a: &LSZR, b: &LSZR, data: Seq<u8>)
    requires
        a.eocd_record() == b.eocd_record(),
        a.cd_loaded_from(data),
        b.cd_loaded_from(data),
    ensures
        entry_names(a.entry_list()) == entry_names(b.entry_list()),
        forall|name: Seq<char>| a.range_of(name) == b.range_of(name),
{
    let (ea, eb) = (a.entry_list(), b.entry_list());
    assert forall|k: int| 0 <= k < ea.len() implies ea[k].file_name@ == eb[k].file_name@
        && ea[k].relative_offset_of_local_header == eb[k].relative_offset_of_local_header by {
        assert(Some(ea[k].file_name@) == Some(eb[k].file_name@));
    }
    assert(entry_names(ea) =~= entry_names(eb));
    assert(entry_offsets(ea) =~= entry_offsets(eb));
}

/// Where several entries share a name, the name designates the last of them
/// in Central Directory order: an earlier one is never reached by name.
pub proof fn lemma_duplicate_names_resolve_to_last(a: &LSZR, i: int, j: int)
    requires
        0 <= i < j < a.entry_list().len(),
        a.entry_list()[i].file_name@ == a.entry_list()[j].file_name@,
    ensures
        match a.entry_index(a.entry_list()[i].file_name@) {
            Some(m) => {
                &&& j <= m < a.entry_list().len()
                &&& a.entry_list()[m].file_name@ == a.entry_list()[i].file_name@
                &&& forall|k: int|
                    m < k < a.entry_list().len() ==> a.entry_list()[k].file_name@
                        != a.entry_list()[i].file_name@
            },
            None => false,
        },
{
    let names = entry_names(a.entry_list());
    lemma_last_index_named(names, names[i], names.len() as int);
    assert(names[j] == names[i]);
    assert forall|k: int| 0 <= k < names.len() implies #[trigger] a.entry_list()[k].file_name@
        == names[k] by {}
}

/// An archive whose EOCD record names a disk other than the first (or the
/// ZIP64 marker `0xFFFF`) is refused when opened.
pub proof fn lemma_multi_disk_archive_refused(b: Seq<u8>)
    requires
        eocd_error(b) is None,
        le16(b, eocd_position(b) + 4) != 0 || le16(b, eocd_position(b) + 6) != 0,
    ensures
        open_error(b) == Some(ParseEOCDError::Zip64NotSupported) || open_error(b) == Some(
            ParseEOCDError::DiskSplitNotSupported,
        ),
{
}

} // verus!
