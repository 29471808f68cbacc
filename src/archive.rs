//! An archive being read lazily: the EOCD record, then the Central Directory
//! with its indexes, then single entries on demand.
use vstd::hash_map::StringHashMap;
use vstd::prelude::*;

use crate::bytes::le16;
use crate::zip::{
    eocd_error, eocd_position, eocd_read_from, load_file, load_outcome, parse_cd as parse_headers,
    parse_eocd, cd_error, cd_header_read_at, cd_header_start, CDHeader, EOCD, LoadFileError,
    ParseCDError, ParseEOCDError,
};

verus! {

broadcast use vstd::seq_lib::group_to_multiset_ensures;

/// A byte extent of the archive, in absolute offsets from its start.
#[derive(Debug, Clone, Copy, PartialEq, Eq, Structural)]
pub struct Range {
    pub offset: u32,
    pub size: u32,
}

/// The failure of a lookup by name.
#[derive(Debug, Clone, Copy, PartialEq, Eq, Structural)]
pub enum LookupError {
    NotFound,
}

/// The names of `entries`, in their order.
pub open spec fn entry_names(entries: Seq<CDHeader>) -> Seq<Seq<char>> {
    entries.map_values(|h: CDHeader| h.file_name@)
}

/// The local-header offsets of `entries`, in their order.
pub open spec fn entry_offsets(entries: Seq<CDHeader>) -> Seq<u32> {
    entries.map_values(|h: CDHeader| h.relative_offset_of_local_header)
}

/// The last index below `n` at which `names` holds `name`, or -1.
pub open spec fn last_index_named(names: Seq<Seq<char>>, name: Seq<char>, n: int) -> int
    decreases n,
{
    if n <= 0 {
        -1
    } else if names[n - 1] == name {
        n - 1
    } else {
        last_index_named(names, name, n - 1)
    }
}

/// The entry that `name` designates: the last one of that name.
pub open spec fn lookup(names: Seq<Seq<char>>, name: Seq<char>) -> Option<int> {
    let i = last_index_named(names, name, names.len() as int);
    if i >= 0 {
        Some(i)
    } else {
        None
    }
}

/// `end` is where the entry stored at `start` ends: the next local-header
/// offset above `start`, or the Central Directory where there is none.
pub open spec fn is_storage_end(offsets: Seq<u32>, start: u32, cd_offset: u32, end: u32) -> bool {
    ||| {
        &&& end > start
        &&& exists|j: int| 0 <= j < offsets.len() && offsets[j] == end
        &&& forall|k: int| 0 <= k < offsets.len() && offsets[k] > start ==> offsets[k] >= end
    }
    ||| {
        &&& forall|k: int| 0 <= k < offsets.len() ==> offsets[k] <= start
        &&& end == cd_offset
    }
}

/// Where the entry stored at `start` ends.
pub open spec fn storage_end(offsets: Seq<u32>, start: u32, cd_offset: u32) -> u32 {
    if exists|e: u32| is_storage_end(offsets, start, cd_offset, e) {
        choose|e: u32| is_storage_end(offsets, start, cd_offset, e)
    } else {
        cd_offset
    }
}

/// `end - start - 1`, taken modulo 2^32. The extent reported for an entry is
/// one byte short of its local header and data: a caller that fetches it
/// widens it by that byte.
pub open spec fn range_size(start: u32, end: u32) -> u32 {
    if end > start {
        (end - start - 1) as u32
    } else {
        (end - start - 1 + 0x1_0000_0000) as u32
    }
}

/// The range that `name` resolves to, or `None` where no entry has that name.
pub open spec fn resolved_range(
    names: Seq<Seq<char>>,
    offsets: Seq<u32>,
    cd_offset: u32,
    name: Seq<char>,
) -> Option<Range> {
    match lookup(names, name) {
        Some(i) => {
            let start = offsets[i];
            Some(Range { offset: start, size: range_size(start, storage_end(offsets, start, cd_offset)) })
        },
        None => None,
    }
}

/// Why an archive whose tail is `b` cannot be opened, or `None`.
pub open spec fn open_error(b: Seq<u8>) -> Option<ParseEOCDError> {
    let pos = eocd_position(b);
    let this_disk = le16(b, pos + 4);
    let cd_disk = le16(b, pos + 6);
    if eocd_error(b) is Some {
        eocd_error(b)
    } else if this_disk == 0xFFFF || cd_disk == 0xFFFF {
        Some(ParseEOCDError::Zip64NotSupported)
    } else if this_disk != 0 || cd_disk != 0 {
        Some(ParseEOCDError::DiskSplitNotSupported)
    } else {
        None
    }
}

/// Some pair of `s` points at index `i`.
pub open spec fn lists_index(s: Seq<(u32, usize)>, i: int) -> bool {
    exists|k: int| 0 <= k < s.len() && s[k].1 == i
}

/// What `last_index_named` finds: an index holding `name`, after which no
/// index below `n` holds it; -1 where none does.
pub proof fn lemma_last_index_named(names: Seq<Seq<char>>, name: Seq<char>, n: int)
    requires
        0 <= n <= names.len(),
    ensures
        -1 <= last_index_named(names, name, n) < n,
        last_index_named(names, name, n) >= 0 ==> names[last_index_named(names, name, n)]
            == name,
        forall|k: int|
            last_index_named(names, name, n) < k < n ==> #[trigger] names[k] != name,
    decreases n,
{
    if n > 0 {
        lemma_last_index_named(names, name, n - 1);
    }
}

/// The end of an entry's storage is unique.
proof fn lemma_storage_end_unique(offsets: Seq<u32>, start: u32, cd_offset: u32, end: u32)
    requires
        is_storage_end(offsets, start, cd_offset, end),
    ensures
        storage_end(offsets, start, cd_offset) == end,
{
    let e = storage_end(offsets, start, cd_offset);
    assert(is_storage_end(offsets, start, cd_offset, e));
    if e > start && exists|j: int| 0 <= j < offsets.len() && offsets[j] == e {
        let j = choose|j: int| 0 <= j < offsets.len() && offsets[j] == e;
        if end > start && exists|i: int| 0 <= i < offsets.len() && offsets[i] == end {
            let i = choose|i: int| 0 <= i < offsets.len() && offsets[i] == end;
            assert(offsets[i] >= e);
        }
    }
}

/// Relies on `slice::sort` on `(u32, usize)` pairs: the same pairs, ascending
/// (tuples compare by their first component first).
#[verifier::external_body]
fn sort_pairs(v: &mut Vec<(u32, usize)>)
    ensures
        final(v)@.len() == old(v)@.len(),
        final(v)@.to_multiset() == old(v)@.to_multiset(),
        forall|i: int, j: int| 0 <= i < j < final(v)@.len() ==> final(v)@[i].0 <= final(v)@[j].0,
{
    v.sort();
}

/// A ZIP archive read through byte ranges that the caller fetches.
pub struct LSZR {
    eocd: EOCD,
    entries: Vec<CDHeader>,
    /// File name to index in `entries`; a later duplicate name wins.
    entry_map: StringHashMap<usize>,
    /// `(local-header offset, index in entries)`, ascending by offset.
    sorted_offsets: Vec<(u32, usize)>,
}

impl LSZR {
    /// The EOCD record the archive was opened with.
    pub closed spec fn eocd_record(&self) -> EOCD {
        self.eocd
    }

    /// The Central Directory headers, in Central Directory order.
    pub closed spec fn entry_list(&self) -> Seq<CDHeader> {
        self.entries@
    }

    /// The index of the entry that `name` designates.
    pub open spec fn entry_index(&self, name: Seq<char>) -> Option<int> {
        lookup(entry_names(self.entry_list()), name)
    }

    /// The range that `name` resolves to.
    pub open spec fn range_of(&self, name: Seq<char>) -> Option<Range> {
        resolved_range(
            entry_names(self.entry_list()),
            entry_offsets(self.entry_list()),
            self.eocd_record().cd_offset,
            name,
        )
    }

    /// The entries are the Central Directory `data` read as the EOCD record says.
    pub open spec fn cd_loaded_from(&self, data: Seq<u8>) -> bool {
        let count = self.eocd_record().total_number_of_entries_in_cd as nat;
        &&& self.entry_list().len() == count
        &&& forall|k: int|
            0 <= k < count ==> cd_header_read_at(
                #[trigger] self.entry_list()[k],
                data,
                cd_header_start(data, k as nat),
            )
    }

    /// Opens an archive from its tail bytes, which must include its true end:
    /// reads the EOCD record and refuses ZIP64 and multi-disk archives. No
    /// entry is known until the Central Directory is parsed.
    pub fn new(data: Vec<u8>) -> (r: Result<LSZR, ParseEOCDError>)
        ensures
            match r {
                Ok(a) => {
                    &&& open_error(data@) is None
                    &&& a.wf()
                    &&& eocd_read_from(a.eocd_record(), data@)
                    &&& a.entry_list().len() == 0
                },
                Err(e) => open_error(data@) == Some(e),
            },
    {
        let eocd = match parse_eocd(&data) {
            Ok(e) => e,
            Err(e) => {
                return Err(e);
            },
        };
        if eocd.number_of_this_disk == 0xFFFF || eocd.number_of_disk_start_eocd == 0xFFFF {
            return Err(ParseEOCDError::Zip64NotSupported);
        }
        if eocd.number_of_this_disk != 0 || eocd.number_of_disk_start_eocd != 0 {
            return Err(ParseEOCDError::DiskSplitNotSupported);
        }
        let result = LSZR {
            eocd,
            entries: Vec::new(),
            entry_map: StringHashMap::new(),
            sorted_offsets: Vec::new(),
        };
        proof {
            assert forall|name: Seq<char>| lookup(entry_names(result.entries@), name) is None by {
                assert(last_index_named(entry_names(result.entries@), name, 0) == -1);
            }
        }
        Ok(result)
    }

    /// Parses the Central Directory `data`, which must be exactly the extent
    /// that `cd_range` reports, and rebuilds the indexes from it. Returns the
    /// entry names in Central Directory order. On failure nothing changes.
    pub fn parse_cd(&mut self, data: Vec<u8>) -> (r: Result<Vec<String>, ParseCDError>)
        requires
            old(self).wf(),
        ensures
            final(self).wf(),
            final(self).eocd_record() == old(self).eocd_record(),
            match r {
                Ok(names) => {
                    &&& cd_error(data@, old(self).eocd_record().total_number_of_entries_in_cd as nat)
                        is None
                    &&& final(self).cd_loaded_from(data@)
                    &&& names@.len() == final(self).entry_list().len()
                    &&& forall|k: int|
                        0 <= k < names@.len() ==> (#[trigger] names@[k])@
                            == final(self).entry_list()[k].file_name@
                },
                Err(e) => {
                    &&& cd_error(data@, old(self).eocd_record().total_number_of_entries_in_cd as nat)
                        == Some(e)
                    &&& *final(self) == *old(self)
                },
            },
    {
        let entries = match parse_headers(&data, self.eocd.total_number_of_entries_in_cd as usize) {
            Ok(v) => v,
            Err(e) => {
                return Err(e);
            },
        };
        let count = entries.len();
        let ghost enames = entry_names(entries@);
        let mut entry_map: StringHashMap<usize> = StringHashMap::with_capacity(count);
        let mut sorted_offsets: Vec<(u32, usize)> = Vec::with_capacity(count);
        let mut names: Vec<String> = Vec::with_capacity(count);
        let mut idx: usize = 0;
        while idx < count
            invariant
                count == entries.len(),
                idx <= count,
                enames == entry_names(entries@),
                sorted_offsets@.len() == idx,
                forall|k: int|
                    0 <= k < idx ==> #[trigger] sorted_offsets@[k] == (
                        entries@[k].relative_offset_of_local_header,
                        k as usize,
                    ),
                names@.len() == idx,
                forall|k: int| 0 <= k < idx ==> (#[trigger] names@[k])@ == entries@[k].file_name@,
                forall|name: Seq<char>|
                    #[trigger] entry_map@.contains_key(name) <==> last_index_named(
                        enames,
                        name,
                        idx as int,
                    ) >= 0,
                forall|name: Seq<char>|
                    #[trigger] entry_map@.contains_key(name) ==> entry_map@[name] as int
                        == last_index_named(enames, name, idx as int),
            decreases count - idx,
        {
            entry_map.insert(entries[idx].file_name.clone(), idx);
            sorted_offsets.push((entries[idx].relative_offset_of_local_header, idx));
            names.push(entries[idx].file_name.clone());
            idx = idx + 1;
            assert(enames[idx - 1] == entries@[idx - 1].file_name@);
        }
        let mut needs_sort = false;
        let mut w: usize = 1;
        while w < count
            invariant
                sorted_offsets@.len() == count,
                1 <= w,
                !needs_sort ==> forall|i: int, j: int|
                    0 <= i < j < w && j < count ==> sorted_offsets@[i].0 <= sorted_offsets@[j].0,
            decreases count - w,
        {
            if sorted_offsets[w - 1].0 > sorted_offsets[w].0 {
                needs_sort = true;
            }
            w = w + 1;
        }
        let ghost unsorted = sorted_offsets@;
        if needs_sort {
            sort_pairs(&mut sorted_offsets);
        }
        proof {
            let s = sorted_offsets@;
            assert forall|k: int| 0 <= k < count implies (#[trigger] s[k]).1 < count && s[k].0
                == entries@[s[k].1 as int].relative_offset_of_local_header by {
                if needs_sort {
                    assert(s.to_multiset().count(s[k]) > 0);
                    assert(unsorted.contains(s[k]));
                }
            }
            assert forall|i: int| 0 <= i < count implies #[trigger] lists_index(s, i) by {
                if needs_sort {
                    assert(unsorted[i] == (entries@[i].relative_offset_of_local_header, i as usize));
                    assert(unsorted.to_multiset().count(unsorted[i]) > 0);
                    assert(s.contains(unsorted[i]));
                    let k = choose|k: int| 0 <= k < s.len() && s[k] == unsorted[i];
                    assert(s[k].1 == i);
                } else {
                    assert(s[i].1 == i);
                }
            }
        }
        self.entries = entries;
        self.entry_map = entry_map;
        self.sorted_offsets = sorted_offsets;
        Ok(names)
    }

    /// The index of the entry that `name` designates.
    fn find_entry(&self, name: &String) -> (r: Option<usize>)
        requires
            self.wf(),
        ensures
            match r {
                Some(i) => self.entry_index(name@) == Some(i as int) && i < self.entries@.len(),
                None => self.entry_index(name@) is None,
            },
    {
        proof {
            lemma_last_index_named(entry_names(self.entries@), name@, self.entries@.len() as int);
        }
        match self.entry_map.get(name.as_str()) {
            Some(i) => Some(*i),
            None => None,
        }
    }

    /// The position in the offset order just after the entries stored at
    /// `start`, found by binary search; `None` where no entry is stored there.
    fn position_after(&self, start: u32) -> (r: Option<usize>)
        requires
            self.wf(),
        ensures
            match r {
                Some(u) => {
                    &&& u <= self.sorted_offsets@.len()
                    &&& forall|k: int| 0 <= k < u ==> self.sorted_offsets@[k].0 <= start
                    &&& forall|k: int|
                        u <= k < self.sorted_offsets@.len() ==> self.sorted_offsets@[k].0 > start
                },
                None => forall|k: int|
                    0 <= k < self.sorted_offsets@.len() ==> self.sorted_offsets@[k].0 != start,
            },
    {
        let n = self.sorted_offsets.len();
        let mut lo: usize = 0;
        let mut hi: usize = n;
        while lo < hi
            invariant
                self.wf(),
                n == self.sorted_offsets@.len(),
                lo <= hi <= n,
                forall|k: int| 0 <= k < lo ==> self.sorted_offsets@[k].0 <= start,
                forall|k: int| hi <= k < n ==> self.sorted_offsets@[k].0 > start,
            decreases hi - lo,
        {
            let mid = lo + (hi - lo) / 2;
            if self.sorted_offsets[mid].0 <= start {
                lo = mid + 1;
            } else {
                hi = mid;
            }
        }
        if lo > 0 && self.sorted_offsets[lo - 1].0 == start {
            Some(lo)
        } else {
            None
        }
    }

    /// Resolves the byte range of the entry that `name` designates: from its
    /// local header to the next local header in storage order, or to the
    /// Central Directory after the last one, minus one byte (see
    /// `range_size`).
    pub fn get_range(&mut self, name: String) -> (r: Result<Range, LookupError>)
        requires
            old(self).wf(),
        ensures
            *final(self) == *old(self),
            match r {
                Ok(range) => old(self).range_of(name@) == Some(range),
                Err(e) => e == LookupError::NotFound && old(self).range_of(name@) is None,
            },
    {
        let idx = match self.find_entry(&name) {
            Some(i) => i,
            None => {
                return Err(LookupError::NotFound);
            },
        };
        let start = self.entries[idx].relative_offset_of_local_header;
        let n = self.sorted_offsets.len();
        let after = self.position_after(start);
        let ghost s = self.sorted_offsets@;
        let ghost offsets = entry_offsets(self.entries@);
        proof {
            assert(lists_index(s, idx as int));
            let k = choose|k: int| 0 <= k < s.len() && s[k].1 == idx;
            assert(s[k].0 == start);
        }
        // The fallback to the Central Directory on a miss is never taken: the
        // offset list holds every entry's offset.
        let end = match after {
            Some(u) => if u < n {
                self.sorted_offsets[u].0
            } else {
                self.eocd.cd_offset
            },
            None => self.eocd.cd_offset,
        };
        proof {
            let u = after->Some_0 as int;
            assert forall|k: int| 0 <= k < offsets.len() implies (offsets[k] > start ==> offsets[k]
                >= end) && (u == n ==> offsets[k] <= start) by {
                assert(lists_index(s, k));
                let m = choose|m: int| 0 <= m < s.len() && s[m].1 == k;
                assert(s[m].0 == offsets[k]);
                if u < n && m > u {
                    assert(s[u].0 <= s[m].0);
                }
            }
            if u < n {
                assert(offsets[s[u].1 as int] == end);
            }
            assert(is_storage_end(offsets, start, self.eocd.cd_offset, end));
            lemma_storage_end_unique(offsets, start, self.eocd.cd_offset, end);
        }
        let size = if end > start {
            end - start - 1
        } else {
            (end as u64 + 0x1_0000_0000 - start as u64 - 1) as u32
        };
        Ok(Range { offset: start, size })
    }

    /// Extracts the entry that `name` designates from `data`, which must be the
    /// extent that `get_range` reports for it, widened by the one byte it
    /// lacks: the Local File Header is checked against the Central Directory,
    /// then the data is decompressed.
    pub fn get_data(&mut self, name: String, data: Vec<u8>) -> (r: Result<Vec<u8>, LoadFileError>)
        requires
            old(self).wf(),
        ensures
            *final(self) == *old(self),
            match old(self).entry_index(name@) {
                None => r == Err::<Vec<u8>, LoadFileError>(LoadFileError::NotFound),
                Some(i) => match r {
                    Ok(v) => load_outcome(data@, old(self).entry_list()[i]) == Ok::<
                        Seq<u8>,
                        LoadFileError,
                    >(v@),
                    Err(e) => load_outcome(data@, old(self).entry_list()[i]) == Err::<
                        Seq<u8>,
                        LoadFileError,
                    >(e),
                },
            },
    {
        let idx = match self.find_entry(&name) {
            Some(i) => i,
            None => {
                return Err(LoadFileError::NotFound);
            },
        };
        load_file(&data, &self.entries[idx])
    }

    /// The extent of the Central Directory, for the caller to fetch next.
    pub fn cd_range(&self) -> (r: Range)
        ensures
            r == (Range { offset: self.eocd_record().cd_offset, size: self.eocd_record().cd_size }),
    {
        Range { offset: self.eocd.cd_offset, size: self.eocd.cd_size }
    }

    /// The extent of the EOCD record, comment included.
    pub fn eocd_range(&self) -> (r: Range)
        ensures
            r == (Range {
                offset: self.eocd_record().eocd_offset,
                size: self.eocd_record().eocd_size,
            }),
    {
        Range { offset: self.eocd.eocd_offset, size: self.eocd.eocd_size }
    }

    /// The indexes agree with the entries: the name map sends each name to the
    /// last entry of that name, and the offset list is a permutation of the
    /// entries' `(offset, index)` pairs, ascending by offset.
    pub closed spec fn wf(&self) -> bool {
        let n = self.entries@.len();
        let s = self.sorted_offsets@;
        let names = entry_names(self.entries@);
        &&& s.len() == n
        &&& forall|i: int, j: int| 0 <= i < j < n ==> s[i].0 <= s[j].0
        &&& forall|k: int|
            0 <= k < n ==> (#[trigger] s[k]).1 < n && s[k].0
                == self.entries@[s[k].1 as int].relative_offset_of_local_header
        &&& forall|i: int| 0 <= i < n ==> #[trigger] lists_index(s, i)
        &&& forall|name: Seq<char>|
            #[trigger] self.entry_map@.contains_key(name) <==> lookup(names, name) is Some
        &&& forall|name: Seq<char>|
            #[trigger] self.entry_map@.contains_key(name) ==> self.entry_map@[name] as int
                == lookup(names, name)->Some_0
    }
}

} // verus!
