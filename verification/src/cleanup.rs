//! The cleanup engine's accounting: which categories a request selects, and
//! the aggregation of per-entry outcomes into one report.  The caller
//! attempts the actual removals and reports what happened to each entry; a
//! single entry's failure never stops the accounting.

use vstd::prelude::*;

use crate::paths::pair_views;
use crate::paths::spec_find_path;
use crate::text::string_views;

verus! {

/// What happened to one top-level entry: it was measured and removed, or
/// the attempt failed with a message.  A category directory that could not
/// be opened at all is reported the same way, as one failure.
#[derive(Clone, Debug)]
pub enum CleanOutcome {
    Removed { size: u64 },
    Failed { message: String },
}

/// The aggregate report of one cleanup run.
#[derive(Clone, Debug)]
pub struct CleanResult {
    pub deleted_files: u64,
    pub freed_bytes: u64,
    pub errors: Vec<String>,
}

/// How many of the outcomes are removals.
pub open spec fn spec_deleted(s: Seq<CleanOutcome>) -> int
    decreases s.len(),
{
    if s.len() == 0 {
        0
    } else {
        spec_deleted(s.drop_last()) + if s.last() is Removed {
            1int
        } else {
            0
        }
    }
}

/// The measured bytes of the removed entries, together.
pub open spec fn spec_freed(s: Seq<CleanOutcome>) -> int
    decreases s.len(),
{
    if s.len() == 0 {
        0
    } else {
        spec_freed(s.drop_last()) + if s.last() is Removed {
            s.last()->Removed_size as int
        } else {
            0
        }
    }
}

/// The messages of the failed outcomes, in the order they were seen.
pub open spec fn spec_errors(s: Seq<CleanOutcome>) -> Seq<Seq<char>>
    decreases s.len(),
{
    if s.len() == 0 {
        Seq::empty()
    } else {
        let rest = spec_errors(s.drop_last());
        if s.last() is Failed {
            rest.push(s.last()->Failed_message@)
        } else {
            rest
        }
    }
}

proof fn lemma_freed_take_le(s: Seq<CleanOutcome>, i: int)
    requires
        0 <= i <= s.len(),
    ensures
        0 <= spec_freed(s.take(i)) <= spec_freed(s),
    decreases s.len(), i,
{
    if i == s.len() {
        assert(s.take(i) =~= s);
        if s.len() > 0 {
            lemma_freed_take_le(s, i - 1);
            assert(s.take(i).drop_last() =~= s.take(i - 1));
        }
    } else {
        assert(s.drop_last().take(i) =~= s.take(i));
        lemma_freed_take_le(s.drop_last(), i);
    }
}

/// Folds the reported outcomes of one run into the aggregate report:
/// one removal counted and its bytes credited per removed entry, one
/// message kept, in order, per failure.
pub fn clean_cache(outcomes: &Vec<CleanOutcome>) -> (r: CleanResult)
    requires
        spec_freed(outcomes@) <= u64::MAX,
    ensures
        r.deleted_files == spec_deleted(outcomes@),
        r.freed_bytes == spec_freed(outcomes@),
        string_views(r.errors@) == spec_errors(outcomes@),
{
    let mut deleted: u64 = 0;
    let mut freed: u64 = 0;
    let mut errors: Vec<String> = Vec::new();
    let mut i: usize = 0;
    while i < outcomes.len()
        invariant
            i <= outcomes@.len(),
            spec_freed(outcomes@) <= u64::MAX,
            deleted == spec_deleted(outcomes@.take(i as int)),
            deleted <= i,
            freed == spec_freed(outcomes@.take(i as int)),
            string_views(errors@) == spec_errors(outcomes@.take(i as int)),
        decreases outcomes@.len() - i,
    {
        proof {
            assert(outcomes@.take(i as int + 1).drop_last() =~= outcomes@.take(i as int));
            assert(outcomes@.take(i as int + 1).last() == outcomes@[i as int]);
            lemma_freed_take_le(outcomes@, i as int + 1);
            lemma_freed_take_le(outcomes@, i as int);
        }
        let o = &outcomes[i];
        match o {
            CleanOutcome::Removed { size } => {
                deleted = deleted + 1;
                freed = freed + *size;
            },
            CleanOutcome::Failed { message } => {
                errors.push(message.clone());
                proof {
                    assert(string_views(errors@) =~= spec_errors(outcomes@.take(i as int + 1)));
                }
            },
        }
        i = i + 1;
    }
    proof {
        assert(outcomes@.take(outcomes@.len() as int) =~= outcomes@);
    }
    CleanResult { deleted_files: deleted, freed_bytes: freed, errors }
}

/// The paths of the requested categories that the resolver knows, in
/// request order; unrecognised names are passed over in silence.
pub open spec fn spec_clean_targets(
    requested: Seq<Seq<char>>,
    cats: Seq<(Seq<char>, Seq<char>)>,
) -> Seq<Seq<char>>
    decreases requested.len(),
{
    if requested.len() == 0 {
        Seq::empty()
    } else {
        let rest = spec_clean_targets(requested.drop_last(), cats);
        match spec_find_path(cats, requested.last()) {
            Some(p) => rest.push(p),
            None => rest,
        }
    }
}

/// Selects, in request order, the resolved path of every requested category
/// name that the resolver recognises for this browser; unknown names are
/// silently skipped: an unknown name is no error here, unlike in the
/// entry lister.
pub fn clean_targets(cache_types: &Vec<String>, categories: &Vec<(String, String)>) -> (r: Vec<
    String,
>)
    ensures
        string_views(r@) == spec_clean_targets(string_views(cache_types@), pair_views(categories@)),
{
    let mut r: Vec<String> = Vec::new();
    let mut i: usize = 0;
    while i < cache_types.len()
        invariant
            i <= cache_types@.len(),
            string_views(r@) == spec_clean_targets(
                string_views(cache_types@.take(i as int)),
                pair_views(categories@),
            ),
        decreases cache_types@.len() - i,
    {
        proof {
            assert(string_views(cache_types@.take(i as int + 1)).drop_last() =~= string_views(
                cache_types@.take(i as int),
            ));
            assert(string_views(cache_types@.take(i as int + 1)).last() == cache_types@[
                i as int
            ]@);
        }
        match crate::paths::find_category_path(cache_types[i].as_str(), categories) {
            Some(p) => {
                r.push(p);
                proof {
                    assert(string_views(r@) =~= spec_clean_targets(
                        string_views(cache_types@.take(i as int + 1)),
                        pair_views(categories@),
                    ));
                }
            },
            None => {
                proof {
                    assert(string_views(r@) =~= spec_clean_targets(
                        string_views(cache_types@.take(i as int + 1)),
                        pair_views(categories@),
                    ));
                }
            },
        }
        i = i + 1;
    }
    proof {
        assert(cache_types@.take(cache_types@.len() as int) =~= cache_types@);
    }
    r
}

/// Law: every outcome is counted once, as a deletion or as one recorded
/// error, so the two tallies together equal the number of entries whose
/// removal was attempted and never exceed the number of entries present
/// when the run began.
pub proof fn lemma_deleted_plus_errors(s: Seq<CleanOutcome>)
    ensures
        spec_deleted(s) + spec_errors(s).len() == s.len(),
    decreases s.len(),
{
    if s.len() > 0 {
        lemma_deleted_plus_errors(s.drop_last());
    }
}

proof fn lemma_outcomes_remove(s: Seq<CleanOutcome>, i: int)
    requires
        0 <= i < s.len(),
    ensures
        spec_deleted(s.remove(i)) == spec_deleted(s) - if s[i] is Removed {
            1int
        } else {
            0
        },
        spec_freed(s.remove(i)) == spec_freed(s) - if s[i] is Removed {
            s[i]->Removed_size as int
        } else {
            0
        },
        spec_errors(s.remove(i)).to_multiset() == if s[i] is Failed {
            spec_errors(s).to_multiset().remove(s[i]->Failed_message@)
        } else {
            spec_errors(s).to_multiset()
        },
    decreases s.len(),
{
    broadcast use vstd::seq_lib::group_to_multiset_ensures;
    broadcast use vstd::multiset::group_multiset_axioms;

    if i == s.len() - 1 {
        assert(s.remove(i) =~= s.drop_last());
        if s[i] is Failed {
            assert(spec_errors(s) == spec_errors(s.drop_last()).push(s[i]->Failed_message@));
            assert(spec_errors(s).to_multiset() == spec_errors(s.drop_last()).to_multiset().insert(
                s[i]->Failed_message@,
            ));
            assert(spec_errors(s).to_multiset().remove(s[i]->Failed_message@) =~= spec_errors(
                s.drop_last(),
            ).to_multiset());
        }
    } else {
        let dl = s.drop_last();
        assert(s.remove(i).drop_last() =~= dl.remove(i));
        assert(s.remove(i).last() == s.last());
        lemma_outcomes_remove(dl, i);
        assert(dl[i] == s[i]);
        if s.last() is Failed {
            let lm = s.last()->Failed_message@;
            assert(spec_errors(s.remove(i)) == spec_errors(dl.remove(i)).push(lm));
            assert(spec_errors(s) == spec_errors(dl).push(lm));
            assert(spec_errors(s.remove(i)).to_multiset() == spec_errors(
                dl.remove(i),
            ).to_multiset().insert(lm));
            assert(spec_errors(s).to_multiset() == spec_errors(dl).to_multiset().insert(lm));
            if s[i] is Failed {
                let m = s[i]->Failed_message@;
                lemma_errors_contains(dl, i);
                assert(spec_errors(dl).to_multiset().remove(m).insert(lm) =~= spec_errors(
                    dl,
                ).to_multiset().insert(lm).remove(m));
            }
        } else {
            assert(spec_errors(s.remove(i)) == spec_errors(dl.remove(i)));
            assert(spec_errors(s) == spec_errors(dl));
        }
    }
}

proof fn lemma_errors_contains(s: Seq<CleanOutcome>, i: int)
    requires
        0 <= i < s.len(),
        s[i] is Failed,
    ensures
        spec_errors(s).to_multiset().count(s[i]->Failed_message@) >= 1,
    decreases s.len(),
{
    broadcast use vstd::seq_lib::group_to_multiset_ensures;
    broadcast use vstd::multiset::group_multiset_axioms;

    if i == s.len() - 1 {
        assert(spec_errors(s).last() == s[i]->Failed_message@);
        assert(spec_errors(s).contains(s[i]->Failed_message@));
    } else {
        lemma_errors_contains(s.drop_last(), i);
        let m = s[i]->Failed_message@;
        if s.last() is Failed {
            assert(spec_errors(s).to_multiset() == spec_errors(
                s.drop_last(),
            ).to_multiset().insert(s.last()->Failed_message@));
        } else {
            assert(spec_errors(s) == spec_errors(s.drop_last()));
        }
    }
}

/// Law: the aggregate outcome of a cleanup run does not depend on the order
/// in which the entries were processed.  Any reordering of the per-entry
/// outcomes yields the same number of deletions, the same freed byte total,
/// and the same collection of error messages.
pub proof fn lemma_clean_order_independent(a: Seq<CleanOutcome>, b: Seq<CleanOutcome>)
    requires
        a.to_multiset() == b.to_multiset(),
    ensures
        spec_deleted(a) == spec_deleted(b),
        spec_freed(a) == spec_freed(b),
        spec_errors(a).to_multiset() == spec_errors(b).to_multiset(),
    decreases a.len(),
{
    broadcast use vstd::seq_lib::group_to_multiset_ensures;
    broadcast use vstd::multiset::group_multiset_axioms;

    if a.len() == 0 {
        assert(b.to_multiset().len() == 0);
    } else {
        let x = a.last();
        let a1 = a.drop_last();
        assert(a.remove(a.len() - 1) =~= a1);
        assert(a.to_multiset().contains(x));
        assert(b.contains(x));
        let j = choose|j: int| 0 <= j < b.len() && b[j] == x;
        let b1 = b.remove(j);
        assert(a1.to_multiset() == a.to_multiset().remove(x));
        assert(b1.to_multiset() == b.to_multiset().remove(x));
        lemma_clean_order_independent(a1, b1);
        lemma_outcomes_remove(b, j);
        if x is Failed {
            lemma_errors_contains(b, j);
            let m = x->Failed_message@;
            assert(spec_errors(a).to_multiset() == spec_errors(a1).to_multiset().insert(m));
            assert(spec_errors(b1).to_multiset() == spec_errors(b).to_multiset().remove(m));
            assert(spec_errors(b).to_multiset().remove(m).insert(m) =~= spec_errors(
                b,
            ).to_multiset());
        } else {
            assert(spec_errors(a).to_multiset() == spec_errors(a1).to_multiset());
        }
    }
}

} // verus!
