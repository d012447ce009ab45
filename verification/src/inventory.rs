//! Cache inventory: per-category breakdown with grand totals, and the
//! aggregation behind recursive directory measurement.  The caller reports
//! what it observed at each resolved path; everything computed from those
//! observations is verified.

use vstd::prelude::*;
use vstd::string::StringExecFns;

verus! {

/// One named cache directory with its measured size and file count.
#[derive(Clone, Debug)]
pub struct CacheCategory {
    pub name: String,
    pub path: String,
    pub size: u64,
    pub file_count: u64,
    pub exists: bool,
}

/// The full breakdown for one browser profile.
#[derive(Clone, Debug)]
pub struct CacheInfo {
    pub profile: String,
    pub categories: Vec<CacheCategory>,
    pub total_size: u64,
    pub total_files: u64,
}

/// What the caller observed at one resolved category path: the directory is
/// absent, or it is present with a measured byte total and file count.
#[derive(Clone, Copy, Debug)]
pub enum Measurement {
    Absent,
    Present { size: u64, files: u64 },
}

pub open spec fn m_size(m: Measurement) -> u64 {
    match m {
        Measurement::Absent => 0,
        Measurement::Present { size, .. } => size,
    }
}

pub open spec fn m_files(m: Measurement) -> u64 {
    match m {
        Measurement::Absent => 0,
        Measurement::Present { files, .. } => files,
    }
}

/// The byte total over a sequence of observations.
pub open spec fn total_size_of(ms: Seq<Measurement>) -> int
    decreases ms.len(),
{
    if ms.len() == 0 {
        0
    } else {
        total_size_of(ms.drop_last()) + m_size(ms.last())
    }
}

/// The file-count total over a sequence of observations.
pub open spec fn total_files_of(ms: Seq<Measurement>) -> int
    decreases ms.len(),
{
    if ms.len() == 0 {
        0
    } else {
        total_files_of(ms.drop_last()) + m_files(ms.last())
    }
}

proof fn lemma_total_size_take_le(ms: Seq<Measurement>, i: int)
    requires
        0 <= i <= ms.len(),
    ensures
        0 <= total_size_of(ms.take(i)) <= total_size_of(ms),
    decreases ms.len(), i,
{
    if i == ms.len() {
        assert(ms.take(i) =~= ms);
        if ms.len() > 0 {
            lemma_total_size_take_le(ms, i - 1);
            assert(ms.take(i).drop_last() =~= ms.take(i - 1));
        }
    } else {
        assert(ms.drop_last().take(i) =~= ms.take(i));
        lemma_total_size_take_le(ms.drop_last(), i);
    }
}

proof fn lemma_total_files_take_le(ms: Seq<Measurement>, i: int)
    requires
        0 <= i <= ms.len(),
    ensures
        0 <= total_files_of(ms.take(i)) <= total_files_of(ms),
    decreases ms.len(), i,
{
    if i == ms.len() {
        assert(ms.take(i) =~= ms);
        if ms.len() > 0 {
            lemma_total_files_take_le(ms, i - 1);
            assert(ms.take(i).drop_last() =~= ms.take(i - 1));
        }
    } else {
        assert(ms.drop_last().take(i) =~= ms.take(i));
        lemma_total_files_take_le(ms.drop_last(), i);
    }
}

/// One output category agrees with the resolved pair and the observation it
/// was built from.
pub open spec fn category_matches(c: CacheCategory, np: (String, String), m: Measurement) -> bool {
    &&& c.name@ == np.0@
    &&& c.path@ == np.1@
    &&& c.exists == (m is Present)
    &&& c.size == m_size(m)
    &&& c.file_count == m_files(m)
}

/// The whole inventory agrees with the resolved categories and observations
/// it was built from: category order is definition order, and the totals are
/// the sums over the observations.
pub open spec fn cache_info_matches(
    r: CacheInfo,
    profile: Seq<char>,
    cats: Seq<(String, String)>,
    ms: Seq<Measurement>,
) -> bool {
    &&& ms.len() == cats.len()
    &&& r.profile@ == profile
    &&& r.categories@.len() == cats.len()
    &&& forall|i: int|
        0 <= i < cats.len() ==> category_matches(#[trigger] r.categories@[i], cats[i], ms[i])
    &&& r.total_size == total_size_of(ms)
    &&& r.total_files == total_files_of(ms)
}

pub open spec fn category_sizes(cs: Seq<CacheCategory>) -> Seq<Measurement> {
    cs.map_values(
        |c: CacheCategory|
            if c.exists {
                Measurement::Present { size: c.size, files: c.file_count }
            } else {
                Measurement::Absent
            },
    )
}

/// Builds the inventory for one profile from the resolved categories and
/// the observation the caller made at each of their paths, in order.
pub fn get_cache_info(
    profile: &str,
    categories: &Vec<(String, String)>,
    measurements: &Vec<Measurement>,
) -> (r: CacheInfo)
    requires
        categories@.len() == measurements@.len(),
        total_size_of(measurements@) <= u64::MAX,
        total_files_of(measurements@) <= u64::MAX,
    ensures
        cache_info_matches(r, profile@, categories@, measurements@),
        forall|i: int|
            0 <= i < r.categories@.len() && !(#[trigger] r.categories@[i]).exists ==> r.categories@[i].size
                == 0 && r.categories@[i].file_count == 0,
{
    let mut cats: Vec<CacheCategory> = Vec::new();
    let mut total_size: u64 = 0;
    let mut total_files: u64 = 0;
    let mut i: usize = 0;
    while i < categories.len()
        invariant
            categories@.len() == measurements@.len(),
            i <= categories@.len(),
            total_size_of(measurements@) <= u64::MAX,
            total_files_of(measurements@) <= u64::MAX,
            cats@.len() == i,
            forall|j: int|
                0 <= j < i ==> category_matches(
                    #[trigger] cats@[j],
                    categories@[j],
                    measurements@[j],
                ),
            total_size == total_size_of(measurements@.take(i as int)),
            total_files == total_files_of(measurements@.take(i as int)),
        decreases categories@.len() - i,
    {
        proof {
            assert(measurements@.take(i as int + 1).drop_last() =~= measurements@.take(i as int));
            assert(measurements@.take(i as int + 1).last() == measurements@[i as int]);
            lemma_total_size_take_le(measurements@, i as int + 1);
            lemma_total_files_take_le(measurements@, i as int + 1);
            lemma_total_size_take_le(measurements@, i as int);
            lemma_total_files_take_le(measurements@, i as int);
        }
        let m = measurements[i];
        let (exists, size, files) = match m {
            Measurement::Absent => (false, 0u64, 0u64),
            Measurement::Present { size, files } => (true, size, files),
        };
        total_size = total_size + size;
        total_files = total_files + files;
        cats.push(
            CacheCategory {
                name: categories[i].0.clone(),
                path: categories[i].1.clone(),
                size,
                file_count: files,
                exists,
            },
        );
        i = i + 1;
    }
    proof {
        assert(measurements@.take(measurements@.len() as int) =~= measurements@);
    }
    CacheInfo { profile: String::from_str(profile), categories: cats, total_size, total_files }
}

/// Law: the grand totals of an inventory are exactly the sums of its
/// per-category sizes and file counts.
pub proof fn lemma_totals_are_sums(
    r: CacheInfo,
    profile: Seq<char>,
    cats: Seq<(String, String)>,
    ms: Seq<Measurement>,
)
    requires
        cache_info_matches(r, profile, cats, ms),
    ensures
        r.total_size == total_size_of(category_sizes(r.categories@)),
        r.total_files == total_files_of(category_sizes(r.categories@)),
{
    assert(category_sizes(r.categories@) =~= ms);
}

/// Law: an inventory is a function of the resolved categories and the
/// observations alone, so two computations over the same unchanged
/// filesystem snapshot agree in every field.
pub proof fn lemma_cache_info_deterministic(
    r1: CacheInfo,
    r2: CacheInfo,
    profile: Seq<char>,
    cats: Seq<(String, String)>,
    ms: Seq<Measurement>,
)
    requires
        cache_info_matches(r1, profile, cats, ms),
        cache_info_matches(r2, profile, cats, ms),
    ensures
        r1.profile@ == r2.profile@,
        r1.total_size == r2.total_size,
        r1.total_files == r2.total_files,
        r1.categories@.len() == r2.categories@.len(),
        forall|i: int|
            0 <= i < r1.categories@.len() ==> {
                &&& (#[trigger] r1.categories@[i]).name@ == r2.categories@[i].name@
                &&& r1.categories@[i].path@ == r2.categories@[i].path@
                &&& r1.categories@[i].size == r2.categories@[i].size
                &&& r1.categories@[i].file_count == r2.categories@[i].file_count
                &&& r1.categories@[i].exists == r2.categories@[i].exists
            },
{
}

/// One entry met during a recursive walk below a category path.
#[derive(Clone, Copy, Debug)]
pub struct WalkedEntry {
    pub is_file: bool,
    pub size: u64,
}

/// The byte total of the regular files among the walked entries.
pub open spec fn dir_size_of(s: Seq<WalkedEntry>) -> int
    decreases s.len(),
{
    if s.len() == 0 {
        0
    } else {
        dir_size_of(s.drop_last()) + if s.last().is_file {
            s.last().size as int
        } else {
            0
        }
    }
}

/// How many of the walked entries are regular files.
pub open spec fn dir_count_of(s: Seq<WalkedEntry>) -> int
    decreases s.len(),
{
    if s.len() == 0 {
        0
    } else {
        dir_count_of(s.drop_last()) + if s.last().is_file {
            1int
        } else {
            0
        }
    }
}

proof fn lemma_dir_size_take_le(s: Seq<WalkedEntry>, i: int)
    requires
        0 <= i <= s.len(),
    ensures
        0 <= dir_size_of(s.take(i)) <= dir_size_of(s),
    decreases s.len(), i,
{
    if i == s.len() {
        assert(s.take(i) =~= s);
        if s.len() > 0 {
            lemma_dir_size_take_le(s, i - 1);
            assert(s.take(i).drop_last() =~= s.take(i - 1));
        }
    } else {
        assert(s.drop_last().take(i) =~= s.take(i));
        lemma_dir_size_take_le(s.drop_last(), i);
    }
}

/// Sums the sizes of the regular files among the entries met during a walk,
/// and counts them; directories and other entries contribute nothing.
pub fn calculate_dir_size(entries: &Vec<WalkedEntry>) -> (r: (u64, u64))
    requires
        dir_size_of(entries@) <= u64::MAX,
    ensures
        r.0 == dir_size_of(entries@),
        r.1 == dir_count_of(entries@),
{
    let mut size: u64 = 0;
    let mut count: u64 = 0;
    let mut i: usize = 0;
    while i < entries.len()
        invariant
            i <= entries@.len(),
            dir_size_of(entries@) <= u64::MAX,
            size == dir_size_of(entries@.take(i as int)),
            count == dir_count_of(entries@.take(i as int)),
            count <= i,
        decreases entries@.len() - i,
    {
        proof {
            assert(entries@.take(i as int + 1).drop_last() =~= entries@.take(i as int));
            assert(entries@.take(i as int + 1).last() == entries@[i as int]);
            lemma_dir_size_take_le(entries@, i as int + 1);
            lemma_dir_size_take_le(entries@, i as int);
        }
        let e = entries[i];
        if e.is_file {
            size = size + e.size;
            count = count + 1;
        }
        i = i + 1;
    }
    proof {
        assert(entries@.take(entries@.len() as int) =~= entries@);
    }
    (size, count)
}

} // verus!
