//! The entry lister: the file-level contents of one cache category, each
//! with its size and last-modified time, ordered largest first.

use vstd::multiset::Multiset;
use vstd::prelude::*;
use vstd::string::StringExecFns;

use crate::paths::pair_views;
use crate::paths::spec_find_path;

verus! {

/// One top-level file of a cache category, as presented to the caller.
#[derive(Clone, Debug)]
pub struct CacheEntry {
    pub name: String,
    pub size: u64,
    pub modified: String,
}

/// One directory entry as the caller read it: its name, whether it is a
/// regular file, its byte size, and its modification time as seconds and
/// nanoseconds since the Unix epoch, when the filesystem reported one.
#[derive(Clone, Debug)]
pub struct RawEntry {
    pub name: String,
    pub is_file: bool,
    pub size: u64,
    pub modified: Option<(i64, u32)>,
}

/// The RFC 3339 rendering, in UTC, of a timestamp given as seconds and
/// nanoseconds since the Unix epoch; empty for timestamps out of the
/// supported range.
pub uninterp spec fn rfc3339_utc_of(secs: int, nanos: int) -> Seq<char>;

/// Relies on chrono's DateTime::from_timestamp and DateTime::to_rfc3339:
/// the rendered text is a function of the timestamp alone; chrono reports
/// timestamps outside its supported range as invalid, for which this hands
/// back the empty string.
#[verifier::external_body]
fn rfc3339_utc(secs: i64, nanos: u32) -> (r: String)
    ensures
        r@ == rfc3339_utc_of(secs as int, nanos as int),
{
    chrono::DateTime::<chrono::Utc>::from_timestamp(secs, nanos).map(
        |dt| dt.to_rfc3339(),
    ).unwrap_or_default()
}

/// The observable content of one listed entry.
pub open spec fn entry_model(e: CacheEntry) -> (Seq<char>, u64, Seq<char>) {
    (e.name@, e.size, e.modified@)
}

pub open spec fn entry_models(s: Seq<CacheEntry>) -> Seq<(Seq<char>, u64, Seq<char>)> {
    s.map_values(|e: CacheEntry| entry_model(e))
}

/// What one raw entry must become: the name and size as read, and the
/// modification time rendered as RFC 3339, or empty when none was reported.
pub open spec fn raw_model(r: RawEntry) -> (Seq<char>, u64, Seq<char>) {
    (
        r.name@,
        r.size,
        match r.modified {
            Some(t) => rfc3339_utc_of(t.0 as int, t.1 as int),
            None => Seq::empty(),
        },
    )
}

/// The models of the regular files among the raw entries, in reading order.
pub open spec fn file_models(rs: Seq<RawEntry>) -> Seq<(Seq<char>, u64, Seq<char>)>
    decreases rs.len(),
{
    if rs.len() == 0 {
        Seq::empty()
    } else {
        let rest = file_models(rs.drop_last());
        if rs.last().is_file {
            rest.push(raw_model(rs.last()))
        } else {
            rest
        }
    }
}

/// Entries in descending size order.
pub open spec fn sorted_size_desc(s: Seq<CacheEntry>) -> bool {
    forall|i: int, j: int| 0 <= i < j < s.len() ==> s[i].size >= s[j].size
}

/// Builds the presentation of one directory entry.
pub fn make_cache_entry(name: String, size: u64, modified: Option<(i64, u32)>) -> (e: CacheEntry)
    ensures
        entry_model(e) == raw_model(RawEntry { name, is_file: true, size, modified }),
{
    let modified_text = match modified {
        Some((s, n)) => rfc3339_utc(s, n),
        None => String::new(),
    };
    CacheEntry { name, size, modified: modified_text }
}

/// Reorders entries by size, largest first.
pub fn sort_entries_by_size_desc(v: Vec<CacheEntry>) -> (r: Vec<CacheEntry>)
    ensures
        sorted_size_desc(r@),
        entry_models(r@).to_multiset() == entry_models(v@).to_multiset(),
{
    let ghost all = entry_models(v@).to_multiset();
    let mut rem = v;
    let mut out: Vec<CacheEntry> = Vec::new();
    proof {
        broadcast use vstd::seq_lib::group_to_multiset_ensures;
        broadcast use vstd::multiset::group_multiset_axioms;
        broadcast use vstd::multiset::lemma_multiset_empty_len;

        assert(entry_models(out@).to_multiset().len() == 0);
        assert(entry_models(out@).to_multiset().add(entry_models(rem@).to_multiset()) =~= all);
    }
    while rem.len() > 0
        invariant
            entry_models(out@).to_multiset().add(entry_models(rem@).to_multiset()) == all,
            sorted_size_desc(out@),
            forall|p: int, q: int|
                0 <= p < out@.len() && 0 <= q < rem@.len() ==> out@[p].size >= rem@[q].size,
        decreases rem@.len(),
    {
        let mut mi: usize = 0;
        let mut k: usize = 1;
        while k < rem.len()
            invariant
                rem@.len() > 0,
                mi < k,
                k <= rem@.len(),
                forall|j: int| 0 <= j < k ==> rem@[mi as int].size >= rem@[j].size,
            decreases rem@.len() - k,
        {
            if rem[k].size > rem[mi].size {
                mi = k;
            }
            k = k + 1;
        }
        let ghost rem_before = rem@;
        let x = rem.remove(mi);
        proof {
            broadcast use vstd::seq_lib::group_to_multiset_ensures;
            broadcast use vstd::multiset::group_multiset_axioms;

            assert(entry_models(rem@) =~= entry_models(rem_before).remove(mi as int));
            assert(entry_models(rem_before)[mi as int] == entry_model(x));
            assert(entry_models(rem_before).remove(mi as int).to_multiset() == entry_models(
                rem_before,
            ).to_multiset().remove(entry_model(x)));
            assert(entry_models(rem_before).contains(entry_model(x)));
            assert(entry_models(rem_before).to_multiset().count(entry_model(x)) >= 1);
        }
        let ghost out_before = out@;
        out.push(x);
        proof {
            broadcast use vstd::seq_lib::group_to_multiset_ensures;
            broadcast use vstd::multiset::group_multiset_axioms;

            assert(entry_models(out@) =~= entry_models(out_before).push(entry_model(x)));
            assert(entry_models(out@).to_multiset() == entry_models(
                out_before,
            ).to_multiset().insert(entry_model(x)));
            assert(entry_models(out@).to_multiset().add(entry_models(rem@).to_multiset())
                =~= entry_models(out_before).to_multiset().add(entry_models(
                rem_before,
            ).to_multiset()));
            assert(forall|q: int|
                0 <= q < rem@.len() ==> x.size >= #[trigger] rem@[q].size) by {
                assert(forall|q: int|
                    0 <= q < rem_before.len() ==> rem_before[mi as int].size
                        >= #[trigger] rem_before[q].size);
            }
        }
    }
    proof {
        broadcast use vstd::seq_lib::group_to_multiset_ensures;
        broadcast use vstd::multiset::group_multiset_axioms;
        broadcast use vstd::multiset::lemma_multiset_empty_len;

        assert(entry_models(rem@).to_multiset().len() == 0);
        assert(entry_models(rem@).to_multiset() =~= Multiset::empty());
        assert(entry_models(out@).to_multiset() =~= all);
    }
    out
}

/// Lists the file-level entries of one cache category, sorted largest
/// first.  The category name is resolved against the given category set;
/// an unrecognised name is a caller error and yields no partial results.
/// The raw entries are whatever the caller read from the category's
/// directory; entries that are not regular files are left out.
pub fn list_cache_entries(
    cache_type: &str,
    categories: &Vec<(String, String)>,
    raw: &Vec<RawEntry>,
) -> (r: Result<Vec<CacheEntry>, String>)
    ensures
        r is Err <==> spec_find_path(pair_views(categories@), cache_type@) is None,
        r matches Err(m) ==> m@ == "Unknown cache type: "@ + cache_type@,
        r matches Ok(v) ==> sorted_size_desc(v@) && entry_models(v@).to_multiset() == file_models(
            raw@,
        ).to_multiset(),
{
    match crate::paths::find_category_path(cache_type, categories) {
        None => Err(String::from_str("Unknown cache type: ").concat(cache_type)),
        Some(_path) => {
            let mut built: Vec<CacheEntry> = Vec::new();
            let mut i: usize = 0;
            while i < raw.len()
                invariant
                    i <= raw@.len(),
                    entry_models(built@) == file_models(raw@.take(i as int)),
                decreases raw@.len() - i,
            {
                proof {
                    assert(raw@.take(i as int + 1).drop_last() =~= raw@.take(i as int));
                    assert(raw@.take(i as int + 1).last() == raw@[i as int]);
                }
                let re = &raw[i];
                if re.is_file {
                    let ghost built_before = built@;
                    let e = make_cache_entry(re.name.clone(), re.size, re.modified);
                    built.push(e);
                    proof {
                        assert(entry_models(built@) =~= entry_models(built_before).push(
                            entry_model(e),
                        ));
                        assert(raw_model(raw@[i as int]) == entry_model(e));
                        assert(entry_models(built@) =~= file_models(raw@.take(i as int + 1)));
                    }
                }
                i = i + 1;
            }
            proof {
                assert(raw@.take(raw@.len() as int) =~= raw@);
            }
            Ok(sort_entries_by_size_desc(built))
        },
    }
}

} // verus!
