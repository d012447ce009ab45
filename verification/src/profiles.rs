//! The profile enumerator: keeps the child directory names that denote
//! browser profiles and presents them in lexicographic order.

use vstd::multiset::Multiset;
use vstd::prelude::*;

use crate::text::lemma_lex_le_total;
use crate::text::lemma_lex_le_trans;
use crate::text::lex_le;
use crate::text::str_eq;
use crate::text::str_le;
use crate::text::str_starts_with;
use crate::text::string_views;

verus! {

/// A directory name denotes a profile when it is exactly "Default" or
/// begins with "Profile ".
pub open spec fn is_profile_name(n: Seq<char>) -> bool {
    n == "Default"@ || (n.len() >= "Profile "@.len() && n.subrange(0, "Profile "@.len() as int)
        == "Profile "@)
}

/// The profile names among the read directory names, in reading order.
pub open spec fn profile_names_of(names: Seq<Seq<char>>) -> Seq<Seq<char>>
    decreases names.len(),
{
    if names.len() == 0 {
        Seq::empty()
    } else {
        let rest = profile_names_of(names.drop_last());
        if is_profile_name(names.last()) {
            rest.push(names.last())
        } else {
            rest
        }
    }
}

/// Names in lexicographic order.
pub open spec fn sorted_lex(s: Seq<Seq<char>>) -> bool {
    forall|i: int, j: int| 0 <= i < j < s.len() ==> lex_le(s[i], s[j])
}

/// Decides whether one directory name denotes a profile.
pub fn is_profile_dir_name(name: &str) -> (r: bool)
    ensures
        r == is_profile_name(name@),
{
    str_eq(name, "Default") || str_starts_with(name, "Profile ")
}

/// Reorders names lexicographically.
pub fn sort_profile_names(v: Vec<String>) -> (r: Vec<String>)
    ensures
        sorted_lex(string_views(r@)),
        string_views(r@).to_multiset() == string_views(v@).to_multiset(),
{
    let ghost all = string_views(v@).to_multiset();
    let mut rem = v;
    let mut out: Vec<String> = Vec::new();
    proof {
        broadcast use vstd::seq_lib::group_to_multiset_ensures;
        broadcast use vstd::multiset::group_multiset_axioms;
        broadcast use vstd::multiset::lemma_multiset_empty_len;

        assert(string_views(out@).to_multiset().len() == 0);
        assert(string_views(out@).to_multiset().add(string_views(rem@).to_multiset()) =~= all);
    }
    while rem.len() > 0
        invariant
            string_views(out@).to_multiset().add(string_views(rem@).to_multiset()) == all,
            sorted_lex(string_views(out@)),
            forall|p: int, q: int|
                0 <= p < out@.len() && 0 <= q < rem@.len() ==> lex_le(out@[p]@, rem@[q]@),
        decreases rem@.len(),
    {
        let mut mi: usize = 0;
        let mut k: usize = 1;
        proof {
            lemma_lex_le_total(rem@[0]@, rem@[0]@);
        }
        while k < rem.len()
            invariant
                rem@.len() > 0,
                mi < k,
                k <= rem@.len(),
                forall|j: int| 0 <= j < k ==> lex_le(rem@[mi as int]@, #[trigger] rem@[j]@),
            decreases rem@.len() - k,
        {
            if !str_le(rem[mi].as_str(), rem[k].as_str()) {
                proof {
                    lemma_lex_le_total(rem@[mi as int]@, rem@[k as int]@);
                    assert forall|j: int| 0 <= j < k + 1 implies lex_le(
                        rem@[k as int]@,
                        #[trigger] rem@[j]@,
                    ) by {
                        if j < k {
                            lemma_lex_le_trans(rem@[k as int]@, rem@[mi as int]@, rem@[j]@);
                        } else {
                            lemma_lex_le_total(rem@[k as int]@, rem@[k as int]@);
                        }
                    }
                }
                mi = k;
            } else {
                proof {
                    lemma_lex_le_total(rem@[k as int]@, rem@[k as int]@);
                }
            }
            k = k + 1;
        }
        let ghost rem_before = rem@;
        let x = rem.remove(mi);
        proof {
            broadcast use vstd::seq_lib::group_to_multiset_ensures;
            broadcast use vstd::multiset::group_multiset_axioms;

            assert(string_views(rem@) =~= string_views(rem_before).remove(mi as int));
            assert(string_views(rem_before)[mi as int] == x@);
            assert(string_views(rem_before).remove(mi as int).to_multiset() == string_views(
                rem_before,
            ).to_multiset().remove(x@));
            assert(string_views(rem_before).contains(x@));
            assert(string_views(rem_before).to_multiset().count(x@) >= 1);
        }
        let ghost out_before = out@;
        out.push(x);
        proof {
            broadcast use vstd::seq_lib::group_to_multiset_ensures;
            broadcast use vstd::multiset::group_multiset_axioms;

            assert(string_views(out@) =~= string_views(out_before).push(out@[out@.len() - 1]@));
            assert(string_views(out@).to_multiset() == string_views(out_before).to_multiset().insert(
                out@[out@.len() - 1]@,
            ));
            assert(string_views(out@).to_multiset().add(string_views(rem@).to_multiset())
                =~= string_views(out_before).to_multiset().add(string_views(
                rem_before,
            ).to_multiset()));
            assert(forall|q: int|
                0 <= q < rem@.len() ==> lex_le(out@[out@.len() - 1]@, #[trigger] rem@[q]@)) by {
                assert(forall|j: int|
                    0 <= j < rem_before.len() ==> lex_le(
                        rem_before[mi as int]@,
                        #[trigger] rem_before[j]@,
                    ));
            }
        }
    }
    proof {
        broadcast use vstd::seq_lib::group_to_multiset_ensures;
        broadcast use vstd::multiset::group_multiset_axioms;
        broadcast use vstd::multiset::lemma_multiset_empty_len;

        assert(string_views(rem@).to_multiset().len() == 0);
        assert(string_views(rem@).to_multiset() =~= Multiset::empty());
        assert(string_views(out@).to_multiset() =~= all);
    }
    out
}

/// Keeps the child directory names that denote profiles and hands them back
/// lexicographically sorted; a missing or unreadable base directory shows
/// up here as an empty input and yields an empty result.
pub fn get_chrome_profiles(names: &Vec<String>) -> (r: Vec<String>)
    ensures
        sorted_lex(string_views(r@)),
        string_views(r@).to_multiset() == profile_names_of(string_views(names@)).to_multiset(),
{
    let mut kept: Vec<String> = Vec::new();
    let mut i: usize = 0;
    while i < names.len()
        invariant
            i <= names@.len(),
            string_views(kept@) == profile_names_of(string_views(names@.take(i as int))),
        decreases names@.len() - i,
    {
        proof {
            assert(string_views(names@.take(i as int + 1)).drop_last() =~= string_views(
                names@.take(i as int),
            ));
            assert(string_views(names@.take(i as int + 1)).last() == names@[i as int]@);
        }
        if is_profile_dir_name(names[i].as_str()) {
            let ghost kept_before = kept@;
            kept.push(names[i].clone());
            proof {
                assert(string_views(kept@) =~= string_views(kept_before).push(names@[i as int]@));
                assert(string_views(kept@) =~= profile_names_of(
                    string_views(names@.take(i as int + 1)),
                ));
            }
        } else {
            proof {
                assert(string_views(kept@) =~= profile_names_of(
                    string_views(names@.take(i as int + 1)),
                ));
            }
        }
        i = i + 1;
    }
    proof {
        assert(names@.take(names@.len() as int) =~= names@);
    }
    sort_profile_names(kept)
}

} // verus!
