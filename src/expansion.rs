//! Neighbourhood expansion for sparse seed songs, and the recommendation that
//! chooses between direct ranking and expansion.
use vstd::prelude::*;
use crate::event::{listened, listeners_of, songs_by_user, MSD};
use crate::index::{remove_song, songs_to_users, users_to_songs};
use crate::names::{names, NameSet};
use crate::ranking::{candidate, most_popular, most_popular_song, ranked_view};
use crate::{EXPANSION_BREADTH, SPARSE_THRESHOLD};

verus! {

/// Up to `rounds` songs taken from `pool` in turn: each is the most popular
/// song other than `seed`, and is then removed from every user's set.
pub open spec fn top_songs(pool: Map<Seq<char>, Set<Seq<char>>>, seed: Seq<char>, rounds: nat) -> Seq<
    Seq<char>,
>
    decreases rounds,
{
    if rounds == 0 {
        seq![]
    } else {
        match most_popular(pool, seed) {
            None => seq![],
            Some(p) => seq![p.0] + top_songs(remove_song(pool, p.0), seed, (rounds - 1) as nat),
        }
    }
}

/// The users who listened to at least one of `titles`.
pub open spec fn listeners_of_any(data: Seq<MSD>, titles: Seq<Seq<char>>) -> Set<Seq<char>> {
    Set::new(
        |u: Seq<char>| exists|k: int| 0 <= k < titles.len() && listened(data, u, #[trigger] titles[k]),
    )
}

/// What expansion recommends for `seed`: nothing when the seed already has
/// enough listeners or its listeners have no other songs; else the most popular
/// song among everyone who listened to one of the seed's top co-listened songs,
/// where only the empty title is excluded (it stands for no exclusion).
pub open spec fn expansion_result(data: Seq<MSD>, seed: Seq<char>) -> Option<(Seq<char>, nat)> {
    let listeners = listeners_of(data, seed);
    if listeners.len() >= SPARSE_THRESHOLD {
        None
    } else {
        let tops = top_songs(songs_by_user(listeners, data), seed, EXPANSION_BREADTH as nat);
        if tops.len() == 0 {
            None
        } else {
            most_popular(songs_by_user(listeners_of_any(data, tops), data), Seq::empty())
        }
    }
}

/// The recommendation for `seed`: ranked directly among the seed's listeners
/// when they are at least `SPARSE_THRESHOLD`, found by expansion otherwise.
pub open spec fn recommendation(data: Seq<MSD>, seed: Seq<char>) -> Option<(Seq<char>, nat)> {
    let listeners = listeners_of(data, seed);
    if listeners.len() >= SPARSE_THRESHOLD {
        most_popular(songs_by_user(listeners, data), seed)
    } else {
        expansion_result(data, seed)
    }
}

/// For a seed song with few listeners: takes the seed's listeners' three most
/// popular other songs one by one, pools everyone who listened to any of them,
/// and returns the most popular song of that pool. `None` when the seed has
/// `SPARSE_THRESHOLD` listeners or more, or when its listeners have no other
/// song.
pub fn find_more_songs(input_song: &str, data: &[MSD]) -> (r: Option<(String, usize)>)
    ensures
        ranked_view(r) == expansion_result(data@, input_song@),
{
    let users = songs_to_users(input_song, data);
    if users.len() >= SPARSE_THRESHOLD {
        return None;
    }
    let mut pool = users_to_songs(&users, data);
    let ghost start = pool@;
    let mut top: Vec<String> = Vec::new();
    let mut round: usize = 0;
    let mut done = false;
    while round < EXPANSION_BREADTH && !done
        invariant
            round <= EXPANSION_BREADTH,
            pool.wf(),
            names(top@) + top_songs(pool@, input_song@, (EXPANSION_BREADTH - round) as nat)
                == top_songs(start, input_song@, EXPANSION_BREADTH as nat),
            done ==> top_songs(pool@, input_song@, (EXPANSION_BREADTH - round) as nat) == Seq::<
                Seq<char>,
            >::empty(),
        decreases EXPANSION_BREADTH - round, if done {
            0int
        } else {
            1int
        },
    {
        let ghost rest = top_songs(pool@, input_song@, (EXPANSION_BREADTH - round) as nat);
        match most_popular_song(&pool, input_song) {
            Some((song, _)) => {
                let next = pool.without_song(song.as_str());
                proof {
                    assert(rest == seq![song@] + top_songs(
                        next@,
                        input_song@,
                        (EXPANSION_BREADTH - round - 1) as nat,
                    ));
                    assert(names(top@.push(song)) =~= names(top@) + seq![song@]);
                    assert(names(top@) + rest =~= names(top@.push(song)) + top_songs(
                        next@,
                        input_song@,
                        (EXPANSION_BREADTH - round - 1) as nat,
                    ));
                }
                pool = next;
                top.push(song);
                round = round + 1;
            },
            None => {
                done = true;
            },
        }
    }
    proof {
        assert(top_songs(pool@, input_song@, (EXPANSION_BREADTH - round) as nat) =~= Seq::<
            Seq<char>,
        >::empty());
        assert(names(top@) =~= top_songs(start, input_song@, EXPANSION_BREADTH as nat));
    }
    if top.len() == 0 {
        return None;
    }
    let mut widened = NameSet::new();
    let mut i: usize = 0;
    while i < top.len()
        invariant
            i <= top@.len(),
            widened.wf(),
            widened@ == listeners_of_any(data@, names(top@.subrange(0, i as int))),
        decreases top@.len() - i,
    {
        let found = songs_to_users(top[i].as_str(), data);
        widened.union_with(&found);
        proof {
            let a = names(top@.subrange(0, i as int));
            let b = names(top@.subrange(0, i + 1));
            assert(b =~= a.push(top@[i as int]@));
            assert forall|u: Seq<char>|
                listeners_of_any(data@, b).contains(u) <==> #[trigger] widened@.contains(u) by {
                if listeners_of_any(data@, b).contains(u) {
                    let k = choose|k: int| 0 <= k < b.len() && listened(data@, u, #[trigger] b[k]);
                    if k < a.len() {
                        assert(a[k] == b[k]);
                    }
                }
                if widened@.contains(u) && !found@.contains(u) {
                    let k = choose|k: int| 0 <= k < a.len() && listened(data@, u, #[trigger] a[k]);
                    assert(a[k] == b[k]);
                }
                if found@.contains(u) {
                    assert(b[i as int] == top@[i as int]@);
                }
            }
            assert(widened@ =~= listeners_of_any(data@, b));
        }
        i = i + 1;
    }
    assert(top@.subrange(0, i as int) =~= top@);
    let widened_pool = users_to_songs(&widened, data);
    proof {
        reveal_strlit("");
        assert(""@ =~= Seq::<char>::empty());
    }
    // The empty title stands for "exclude nothing".
    most_popular_song(&widened_pool, "")
}

/// Recommends a song for `seed_song`: ranks the seed's listeners' other songs
/// directly when there are at least `SPARSE_THRESHOLD` listeners, and widens
/// the neighbourhood otherwise. `None` when nothing qualifies.
pub fn recommend(seed_song: &str, data: &[MSD]) -> (r: Option<(String, usize)>)
    ensures
        ranked_view(r) == recommendation(data@, seed_song@),
{
    let users = songs_to_users(seed_song, data);
    if users.len() >= SPARSE_THRESHOLD {
        let pool = users_to_songs(&users, data);
        most_popular_song(&pool, seed_song)
    } else {
        find_more_songs(seed_song, data)
    }
}

/// Recommending is repeatable: two runs on the same events and seed give the
/// same result.
pub proof fn lemma_recommend_repeatable(
    data: Seq<MSD>,
    seed: Seq<char>,
    first: Option<(String, usize)>,
    second: Option<(String, usize)>,
)
    requires
        ranked_view(first) == recommendation(data, seed),
        ranked_view(second) == recommendation(data, seed),
    ensures
        ranked_view(first) == ranked_view(second),
{
}

/// A seed with exactly `SPARSE_THRESHOLD` listeners is ranked directly, and
/// expansion declines it.
pub proof fn lemma_threshold_ranks_directly(data: Seq<MSD>, seed: Seq<char>)
    requires
        listeners_of(data, seed).len() == SPARSE_THRESHOLD,
    ensures
        recommendation(data, seed) == most_popular(songs_by_user(listeners_of(data, seed), data), seed),
        expansion_result(data, seed) is None,
{
}

/// A seed that no event names has no listeners, an empty pool, and no
/// recommendation.
pub proof fn lemma_absent_seed(data: Seq<MSD>, seed: Seq<char>)
    requires
        forall|j: int| 0 <= j < data.len() ==> (#[trigger] data[j]).title@ != seed,
    ensures
        listeners_of(data, seed) == Set::<Seq<char>>::empty(),
        songs_by_user(listeners_of(data, seed), data) == Map::<Seq<char>, Set<Seq<char>>>::empty(),
        recommendation(data, seed) is None,
{
    let l = listeners_of(data, seed);
    assert(l =~= Set::<Seq<char>>::empty());
    let pool = songs_by_user(l, data);
    assert(pool =~= Map::<Seq<char>, Set<Seq<char>>>::empty());
    assert forall|t: Seq<char>| !candidate(pool, seed, t) by {}
    assert(most_popular(pool, seed) is None);
    assert(top_songs(pool, seed, EXPANSION_BREADTH as nat) =~= Seq::<Seq<char>>::empty());
}

} // verus!
