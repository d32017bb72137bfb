//! The popularity ranker: the song held by the most users, ties broken by the
//! smallest title.
use vstd::prelude::*;
use core::cmp::Ordering;
use crate::index::{entries_map, entry_users, lemma_entries_map, UserSongMap};
use crate::names::names;
use crate::title::{
    compare_titles,
    lemma_title_before_asymmetric,
    lemma_title_before_transitive,
    same_title,
    title_before,
};

verus! {

/// The number of users whose song set holds `song`.
pub open spec fn tally(m: Map<Seq<char>, Set<Seq<char>>>, song: Seq<char>) -> nat {
    m.dom().filter(|u: Seq<char>| m[u].contains(song)).len()
}

/// `song` is not excluded and some user's song set holds it.
pub open spec fn candidate(m: Map<Seq<char>, Set<Seq<char>>>, exclude: Seq<char>, song: Seq<char>) -> bool {
    &&& song != exclude
    &&& exists|u: Seq<char>| #[trigger] m.dom().contains(u) && m[u].contains(song)
}

/// `(s, c)` ranks above `(t, d)`: a higher count, or the same count and a
/// smaller title.
pub open spec fn outranks(s: Seq<char>, c: nat, t: Seq<char>, d: nat) -> bool {
    c > d || (c == d && title_before(s, t))
}

/// `song`, held by `count` users, ranks above every other candidate.
pub open spec fn is_most_popular(
    m: Map<Seq<char>, Set<Seq<char>>>,
    exclude: Seq<char>,
    song: Seq<char>,
    count: nat,
) -> bool {
    &&& candidate(m, exclude, song)
    &&& count == tally(m, song)
    &&& forall|t: Seq<char>|
        #![trigger candidate(m, exclude, t)]
        candidate(m, exclude, t) && t != song ==> outranks(song, count, t, tally(m, t))
}

/// The most popular song of `m` other than `exclude`, with its count; `None`
/// when no song other than `exclude` occurs.
pub open spec fn most_popular(m: Map<Seq<char>, Set<Seq<char>>>, exclude: Seq<char>) -> Option<
    (Seq<char>, nat),
> {
    if exists|p: (Seq<char>, nat)| is_most_popular(m, exclude, p.0, p.1) {
        Some(choose|p: (Seq<char>, nat)| is_most_popular(m, exclude, p.0, p.1))
    } else {
        None
    }
}

/// The view of a ranking result.
pub open spec fn ranked_view(r: Option<(String, usize)>) -> Option<(Seq<char>, nat)> {
    match r {
        Some(p) => Some((p.0@, p.1 as nat)),
        None => None,
    }
}

pub proof fn lemma_outranks_transitive(s: Seq<char>, c: nat, t: Seq<char>, d: nat, w: Seq<char>, e: nat)
    requires
        outranks(s, c, t, d),
        outranks(t, d, w, e),
    ensures
        outranks(s, c, w, e),
{
    if c == d && d == e {
        lemma_title_before_transitive(s, t, w);
    }
}

/// The ranking is a function of the tally alone: two songs that both rank above
/// every other candidate are the same song, with the same count. So however the
/// users and their songs are enumerated, the result is the same, and ties go to
/// the smallest title.
pub proof fn lemma_most_popular_unique(
    m: Map<Seq<char>, Set<Seq<char>>>,
    exclude: Seq<char>,
    s1: Seq<char>,
    c1: nat,
    s2: Seq<char>,
    c2: nat,
)
    requires
        is_most_popular(m, exclude, s1, c1),
        is_most_popular(m, exclude, s2, c2),
    ensures
        s1 == s2,
        c1 == c2,
{
    if s1 != s2 {
        assert(candidate(m, exclude, s2));
        assert(candidate(m, exclude, s1));
        lemma_title_before_asymmetric(s1, s2);
    }
}

/// A song that ranks above every other candidate is what `most_popular` names.
pub proof fn lemma_most_popular_is(
    m: Map<Seq<char>, Set<Seq<char>>>,
    exclude: Seq<char>,
    song: Seq<char>,
    count: nat,
)
    requires
        is_most_popular(m, exclude, song, count),
    ensures
        most_popular(m, exclude) == Some((song, count)),
{
    let w = (song, count);
    assert(is_most_popular(m, exclude, w.0, w.1));
    let p = choose|p: (Seq<char>, nat)| is_most_popular(m, exclude, p.0, p.1);
    lemma_most_popular_unique(m, exclude, p.0, p.1, song, count);
}

/// The most popular song never is the excluded one.
pub proof fn lemma_most_popular_not_excluded(m: Map<Seq<char>, Set<Seq<char>>>, exclude: Seq<char>)
    ensures
        most_popular(m, exclude) matches Some(p) ==> p.0 != exclude,
{
}

proof fn lemma_tally_insert(
    m: Map<Seq<char>, Set<Seq<char>>>,
    u: Seq<char>,
    v: Set<Seq<char>>,
    song: Seq<char>,
)
    requires
        m.dom().finite(),
        !m.dom().contains(u),
    ensures
        tally(m.insert(u, v), song) == tally(m, song) + if v.contains(song) {
            1nat
        } else {
            0nat
        },
{
    let n = m.insert(u, v);
    let a = m.dom().filter(|w: Seq<char>| m[w].contains(song));
    let b = n.dom().filter(|w: Seq<char>| n[w].contains(song));
    m.dom().lemma_len_filter(|w: Seq<char>| m[w].contains(song));
    if v.contains(song) {
        assert(b =~= a.insert(u));
    } else {
        assert(b =~= a);
    }
}

/// The number of users of `map` whose song set holds `song`.
pub fn count_listeners(map: &UserSongMap, song: &str) -> (r: usize)
    requires
        map.wf(),
    ensures
        r == tally(map@, song@),
{
    let mut count: usize = 0;
    let mut i: usize = 0;
    proof {
        let z = entries_map(map.entries@.subrange(0, 0));
        assert(z == Map::<Seq<char>, Set<Seq<char>>>::empty());
        assert(z.dom().filter(|u: Seq<char>| z[u].contains(song@)) =~= Set::<Seq<char>>::empty());
    }
    while i < map.entries.len()
        invariant
            map.wf(),
            i <= map.entries@.len(),
            count <= i,
            count == tally(entries_map(map.entries@.subrange(0, i as int)), song@),
        decreases map.entries@.len() - i,
    {
        let ghost e = map.entries@;
        proof {
            let p = e.subrange(0, i as int);
            let q = e.subrange(0, i + 1);
            assert(q.drop_last() =~= p);
            assert(entry_users(p) =~= entry_users(e).subrange(0, i as int));
            lemma_entries_map(p);
            assert forall|k: int| 0 <= k < p.len() implies p[k].user@ != e[i as int].user@ by {
                assert(entry_users(e)[k] == p[k].user@);
                assert(entry_users(e)[i as int] == e[i as int].user@);
            }
            lemma_tally_insert(entries_map(p), e[i as int].user@, e[i as int].songs@, song@);
        }
        if map.entries[i].songs.contains(song) {
            count = count + 1;
        }
        i = i + 1;
    }
    assert(map.entries@.subrange(0, i as int) =~= map.entries@);
    count
}

/// Every title met so far is the excluded one or ranks no higher than `best`.
pub open spec fn settled(
    m: Map<Seq<char>, Set<Seq<char>>>,
    exclude: Seq<char>,
    best: Option<(Seq<char>, nat)>,
    t: Seq<char>,
) -> bool {
    t == exclude || match best {
        None => false,
        Some(b) => t == b.0 || outranks(b.0, b.1, t, tally(m, t)),
    }
}

/// The most popular song among the users' song sets, leaving out
/// `exclude_input`; `None` when no other song occurs.
pub fn most_popular_song(user_songs_hm: &UserSongMap, exclude_input: &str) -> (r: Option<(String, usize)>)
    requires
        user_songs_hm.wf(),
    ensures
        ranked_view(r) == most_popular(user_songs_hm@, exclude_input@),
        r.is_none() <==> forall|t: Seq<char>| !candidate(user_songs_hm@, exclude_input@, t),
        r matches Some(p) ==> p.0@ != exclude_input@ && is_most_popular(
            user_songs_hm@,
            exclude_input@,
            p.0@,
            p.1 as nat,
        ),
{
    let ghost m = user_songs_hm@;
    let ghost ex = exclude_input@;
    let ghost e = user_songs_hm.entries@;
    proof {
        lemma_entries_map(e);
    }
    let mut best: Option<(String, usize)> = None;
    let mut i: usize = 0;
    while i < user_songs_hm.entries.len()
        invariant
            user_songs_hm.wf(),
            m == user_songs_hm@,
            ex == exclude_input@,
            e == user_songs_hm.entries@,
            i <= e.len(),
            forall|k: int| 0 <= k < e.len() ==> #[trigger] m[e[k].user@] == e[k].songs@,
            forall|k: int| 0 <= k < e.len() ==> m.dom().contains(#[trigger] e[k].user@),
            best matches Some(b) ==> candidate(m, ex, b.0@) && b.1 == tally(m, b.0@),
            forall|k: int, l: int|
                0 <= k < i && 0 <= l < e[k].songs.items@.len() ==> settled(
                    m,
                    ex,
                    ranked_view(best),
                    #[trigger] e[k].songs.items@[l]@,
                ),
        decreases e.len() - i,
    {
        let songs = &user_songs_hm.entries[i].songs;
        let mut j: usize = 0;
        while j < songs.items.len()
            invariant
                user_songs_hm.wf(),
                m == user_songs_hm@,
                ex == exclude_input@,
                e == user_songs_hm.entries@,
                i < e.len(),
                songs == e[i as int].songs,
                j <= songs.items@.len(),
                forall|k: int| 0 <= k < e.len() ==> #[trigger] m[e[k].user@] == e[k].songs@,
                forall|k: int| 0 <= k < e.len() ==> m.dom().contains(#[trigger] e[k].user@),
                best matches Some(b) ==> candidate(m, ex, b.0@) && b.1 == tally(m, b.0@),
                forall|k: int, l: int|
                    (0 <= k < i && 0 <= l < e[k].songs.items@.len()) || (k == i && 0 <= l < j)
                        ==> settled(m, ex, ranked_view(best), #[trigger] e[k].songs.items@[l]@),
            decreases songs.items@.len() - j,
        {
            let t = &songs.items[j];
            let ghost tv = t@;
            if !same_title(t.as_str(), exclude_input) {
                let c = count_listeners(user_songs_hm, t.as_str());
                proof {
                    assert(names(songs.items@)[j as int] == tv);
                    assert(m[e[i as int].user@].contains(tv));
                    assert(candidate(m, ex, tv));
                }
                let replace = match &best {
                    None => true,
                    Some(b) => {
                        if c > b.1 {
                            true
                        } else if c == b.1 {
                            let o = compare_titles(t.as_str(), b.0.as_str());
                            matches!(o, Ordering::Less)
                        } else {
                            false
                        }
                    },
                };
                let ghost old_best = ranked_view(best);
                if replace {
                    best = Some((t.clone(), c));
                    proof {
                        assert forall|k: int, l: int|
                            (0 <= k < i && 0 <= l < e[k].songs.items@.len()) || (k == i && 0 <= l
                                < j + 1) implies settled(
                            m,
                            ex,
                            ranked_view(best),
                            #[trigger] e[k].songs.items@[l]@,
                        ) by {
                            let w = e[k].songs.items@[l]@;
                            if !(k == i && l == j) && w != ex {
                                let ob = old_best.unwrap();
                                if w != ob.0 {
                                    lemma_outranks_transitive(tv, c as nat, ob.0, ob.1, w, tally(m, w));
                                }
                            }
                        }
                    }
                }
            }
            j = j + 1;
        }
        i = i + 1;
    }
    proof {
        if best is None {
            assert forall|t: Seq<char>| !candidate(m, ex, t) by {
                if candidate(m, ex, t) {
                    let u = choose|u: Seq<char>| #[trigger] m.dom().contains(u) && m[u].contains(t);
                    let k = choose|k: int| 0 <= k < e.len() && #[trigger] e[k].user@ == u;
                    let l = choose|l: int|
                        0 <= l < names(e[k].songs.items@).len() && names(e[k].songs.items@)[l] == t;
                    assert(e[k].songs.items@[l]@ == t);
                    assert(settled(m, ex, ranked_view(best), e[k].songs.items@[l]@));
                }
            }
        } else {
            let b = ranked_view(best).unwrap();
            assert forall|t: Seq<char>|
                #![trigger candidate(m, ex, t)]
                candidate(m, ex, t) && t != b.0 implies outranks(b.0, b.1, t, tally(m, t)) by {
                let u = choose|u: Seq<char>| #[trigger] m.dom().contains(u) && m[u].contains(t);
                let k = choose|k: int| 0 <= k < e.len() && #[trigger] e[k].user@ == u;
                let l = choose|l: int|
                    0 <= l < names(e[k].songs.items@).len() && names(e[k].songs.items@)[l] == t;
                assert(e[k].songs.items@[l]@ == t);
                assert(settled(m, ex, ranked_view(best), e[k].songs.items@[l]@));
            }
            assert(is_most_popular(m, ex, b.0, b.1));
            lemma_most_popular_is(m, ex, b.0, b.1);
        }
    }
    best
}

} // verus!
