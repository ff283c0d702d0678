use vstd::prelude::*;

verus! {

broadcast use vstd::std_specs::vec::group_vec_axioms;

/// The character sequences held by a list of strings, in order.
pub open spec fn string_views(items: Seq<String>) -> Seq<Seq<char>> {
    items.map_values(|s: String| s@)
}

/// The elements of `candidates` that do not occur in `known`, in their
/// original order and multiplicity.
pub open spec fn missing_from(candidates: Seq<Seq<char>>, known: Seq<Seq<char>>) -> Seq<Seq<char>>
    decreases candidates.len(),
{
    if candidates.len() == 0 {
        Seq::empty()
    } else if !known.contains(candidates[0]) {
        seq![candidates[0]] + missing_from(candidates.drop_first(), known)
    } else {
        missing_from(candidates.drop_first(), known)
    }
}

/// How one more candidate extends the missing list: it is kept exactly
/// when it is unknown.
proof fn lemma_missing_from_push(candidates: Seq<Seq<char>>, known: Seq<Seq<char>>, c: Seq<char>)
    ensures
        missing_from(candidates.push(c), known) == if !known.contains(c) {
            missing_from(candidates, known).push(c)
        } else {
            missing_from(candidates, known)
        },
    decreases candidates.len(),
{
    if candidates.len() == 0 {
        assert(candidates.push(c)[0] == c);
        assert(candidates.push(c).drop_first() =~= Seq::<Seq<char>>::empty());
        assert(missing_from(Seq::<Seq<char>>::empty(), known) =~= Seq::<Seq<char>>::empty());
        if !known.contains(c) {
            assert(missing_from(candidates.push(c), known) =~= missing_from(
                candidates,
                known,
            ).push(c));
        } else {
            assert(missing_from(candidates.push(c), known) =~= missing_from(candidates, known));
        }
    } else {
        assert(candidates.push(c)[0] == candidates[0]);
        assert(candidates.push(c).drop_first() =~= candidates.drop_first().push(c));
        lemma_missing_from_push(candidates.drop_first(), known, c);
        if !known.contains(candidates[0]) {
            if !known.contains(c) {
                assert(missing_from(candidates.push(c), known) =~= missing_from(
                    candidates,
                    known,
                ).push(c));
            } else {
                assert(missing_from(candidates.push(c), known) =~= missing_from(
                    candidates,
                    known,
                ));
            }
        }
    }
}

/// True exactly when some string in `items` holds the same characters as
/// `needle`.
fn contains_string(items: &Vec<String>, needle: &String) -> (r: bool)
    ensures
        r == string_views(items@).contains(needle@),
{
    let mut i: usize = 0;
    while i < items.len()
        invariant
            i <= items@.len(),
            forall|j: int| 0 <= j < i ==> string_views(items@)[j] != needle@,
        decreases items@.len() - i,
    {
        if items[i].eq(needle) {
            proof {
                assert(string_views(items@)[i as int] == needle@);
            }
            return true;
        }
        i += 1;
    }
    proof {
        assert forall|j: int| 0 <= j < items@.len() implies string_views(items@)[j]
            != needle@ by {}
    }
    false
}

/// The strings of `candidates` whose content does not occur in `known`,
/// in their original order.
fn difference(candidates: &Vec<String>, known: &Vec<String>) -> (r: Vec<String>)
    ensures
        string_views(r@) == missing_from(string_views(candidates@), string_views(known@)),
{
    let mut r: Vec<String> = Vec::new();
    let mut i: usize = 0;
    proof {
        assert(string_views(candidates@).take(0) =~= Seq::<Seq<char>>::empty());
        assert(missing_from(Seq::<Seq<char>>::empty(), string_views(known@))
            =~= Seq::<Seq<char>>::empty());
        assert(string_views(r@) =~= Seq::<Seq<char>>::empty());
    }
    while i < candidates.len()
        invariant
            i <= candidates@.len(),
            string_views(r@) == missing_from(
                string_views(candidates@).take(i as int),
                string_views(known@),
            ),
        decreases candidates@.len() - i,
    {
        let ghost pre = string_views(candidates@).take(i as int);
        let keep = !contains_string(known, &candidates[i]);
        if keep {
            r.push(candidates[i].clone());
        }
        proof {
            assert(string_views(candidates@).take(i + 1) =~= pre.push(
                string_views(candidates@)[i as int],
            ));
            lemma_missing_from_push(pre, string_views(known@), string_views(candidates@)[i as int]);
            if keep {
                assert(string_views(r@) =~= missing_from(pre, string_views(known@)).push(
                    string_views(candidates@)[i as int],
                ));
            }
        }
        i += 1;
    }
    proof {
        assert(string_views(candidates@).take(candidates@.len() as int)
            =~= string_views(candidates@));
    }
    r
}

/// Compares the set of user ids a remote device knows against the ones
/// stored locally.  Returns, in order: the remote ids missing locally and
/// the local ids missing remotely, each list in its original order.
pub fn exchange_users(remote_known_user_ids: Vec<String>, known_users_local: Vec<String>) -> (r: (
    Vec<String>,
    Vec<String>,
))
    ensures
        string_views(r.0@) == missing_from(
            string_views(remote_known_user_ids@),
            string_views(known_users_local@),
        ),
        string_views(r.1@) == missing_from(
            string_views(known_users_local@),
            string_views(remote_known_user_ids@),
        ),
{
    let users_not_known_to_local = difference(&remote_known_user_ids, &known_users_local);
    let users_not_known_to_remote = difference(&known_users_local, &remote_known_user_ids);
    (users_not_known_to_local, users_not_known_to_remote)
}

/// Compares the set of post ids a remote device knows against the ones
/// stored locally for the exchanged time range.  Returns, in order: the
/// remote ids missing locally and the local ids missing remotely, each
/// list in its original order.
pub fn exchange_posts(remote_known_post_ids: Vec<String>, known_posts_local: Vec<String>) -> (r: (
    Vec<String>,
    Vec<String>,
))
    ensures
        string_views(r.0@) == missing_from(
            string_views(remote_known_post_ids@),
            string_views(known_posts_local@),
        ),
        string_views(r.1@) == missing_from(
            string_views(known_posts_local@),
            string_views(remote_known_post_ids@),
        ),
{
    let posts_not_known_to_local = difference(&remote_known_post_ids, &known_posts_local);
    let posts_not_known_to_remote = difference(&known_posts_local, &remote_known_post_ids);
    (posts_not_known_to_local, posts_not_known_to_remote)
}

} // verus!
