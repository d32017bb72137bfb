//! The co-occurrence index: listeners of a song, and the songs of each listener.
use vstd::prelude::*;
use crate::event::{has_events, listened_within, listeners_of, songs_by_user, songs_of, MSD};
use crate::names::names;
use crate::names::NameSet;
use crate::title::same_title;

verus! {

/// One user and the titles in their song set.
pub struct UserSongs {
    pub user: String,
    pub songs: NameSet,
}

/// A mapping from users to song sets, one entry per user.
pub struct UserSongMap {
    pub entries: Vec<UserSongs>,
}

/// The users of a sequence of entries, in order.
pub open spec fn entry_users(e: Seq<UserSongs>) -> Seq<Seq<char>> {
    e.map_values(|x: UserSongs| x.user@)
}

/// The mapping that a sequence of entries stands for.
pub open spec fn entries_map(e: Seq<UserSongs>) -> Map<Seq<char>, Set<Seq<char>>>
    decreases e.len(),
{
    if e.len() == 0 {
        Map::empty()
    } else {
        entries_map(e.drop_last()).insert(e.last().user@, e.last().songs@)
    }
}

/// Under distinct users, the keys of the mapping are the entries' users and each
/// maps to its entry's song set.
pub proof fn lemma_entries_map(e: Seq<UserSongs>)
    requires
        entry_users(e).no_duplicates(),
    ensures
        entries_map(e).dom().finite(),
        forall|u: Seq<char>|
            entries_map(e).dom().contains(u) <==> exists|i: int|
                0 <= i < e.len() && #[trigger] e[i].user@ == u,
        forall|i: int| 0 <= i < e.len() ==> #[trigger] entries_map(e)[e[i].user@] == e[i].songs@,
    decreases e.len(),
{
    if e.len() > 0 {
        let p = e.drop_last();
        assert(entry_users(p) =~= entry_users(e).drop_last());
        lemma_entries_map(p);
        assert forall|i: int| 0 <= i < p.len() implies p[i].user@ != e.last().user@ by {
            assert(entry_users(e)[i] == p[i].user@);
            assert(entry_users(e)[e.len() - 1] == e.last().user@);
        }
        assert forall|u: Seq<char>|
            entries_map(e).dom().contains(u) implies exists|i: int|
                0 <= i < e.len() && #[trigger] e[i].user@ == u by {
            if u != e.last().user@ {
                let i = choose|i: int| 0 <= i < p.len() && #[trigger] p[i].user@ == u;
                assert(e[i].user@ == u);
            } else {
                assert(e[e.len() - 1].user@ == u);
            }
        }
        assert forall|u: Seq<char>|
            (exists|i: int| 0 <= i < e.len() && #[trigger] e[i].user@ == u) implies entries_map(
            e,
        ).dom().contains(u) by {
            let i = choose|i: int| 0 <= i < e.len() && #[trigger] e[i].user@ == u;
            if i < p.len() {
                assert(p[i].user@ == u);
            }
        }
        assert forall|i: int| 0 <= i < e.len() implies #[trigger] entries_map(e)[e[i].user@]
            == e[i].songs@ by {
            if i < p.len() {
                assert(p[i] == e[i]);
            }
        }
    }
}

impl View for UserSongMap {
    type V = Map<Seq<char>, Set<Seq<char>>>;

    open spec fn view(&self) -> Map<Seq<char>, Set<Seq<char>>> {
        entries_map(self.entries@)
    }
}

/// `m` with `song` taken out of every user's song set; the users stay.
pub open spec fn remove_song(m: Map<Seq<char>, Set<Seq<char>>>, song: Seq<char>) -> Map<
    Seq<char>,
    Set<Seq<char>>,
> {
    Map::new(|u: Seq<char>| m.dom().contains(u), |u: Seq<char>| m[u].remove(song))
}

impl UserSongMap {
    /// A new mapping with `title` taken out of every user's song set.
    pub fn without_song(&self, title: &str) -> (r: UserSongMap)
        requires
            self.wf(),
        ensures
            r.wf(),
            r@ == remove_song(self@, title@),
    {
        let ghost e = self.entries@;
        let mut out: Vec<UserSongs> = Vec::new();
        let mut i: usize = 0;
        while i < self.entries.len()
            invariant
                self.wf(),
                e == self.entries@,
                i <= e.len(),
                out@.len() == i,
                forall|k: int|
                    0 <= k < i ==> (#[trigger] out@[k]).user@ == e[k].user@ && out@[k].songs.wf()
                        && out@[k].songs@ == e[k].songs@.remove(title@),
            decreases e.len() - i,
        {
            assert(self.entries@[i as int].songs.wf());
            let songs = self.entries[i].songs.without(title);
            out.push(UserSongs { user: self.entries[i].user.clone(), songs });
            i = i + 1;
        }
        let r = UserSongMap { entries: out };
        proof {
            assert(entry_users(out@) =~= entry_users(e));
            lemma_entries_map(e);
            lemma_entries_map(out@);
            assert forall|u: Seq<char>| #[trigger] r@.dom().contains(u) <==> self@.dom().contains(u) by {
                if r@.dom().contains(u) {
                    let k = choose|k: int| 0 <= k < out@.len() && #[trigger] out@[k].user@ == u;
                    assert(e[k].user@ == u);
                }
                if self@.dom().contains(u) {
                    let k = choose|k: int| 0 <= k < e.len() && #[trigger] e[k].user@ == u;
                    assert(out@[k].user@ == u);
                }
            }
            assert forall|u: Seq<char>| #[trigger] r@.dom().contains(u) implies r@[u] == self@[u].remove(
                title@,
            ) by {
                let k = choose|k: int| 0 <= k < out@.len() && #[trigger] out@[k].user@ == u;
                assert(e[k].user@ == u);
            }
            assert(r@ =~= remove_song(self@, title@));
        }
        r
    }

    /// No user has two entries, and no song set holds a title twice.
    pub open spec fn wf(&self) -> bool {
        &&& entry_users(self.entries@).no_duplicates()
        &&& forall|i: int| 0 <= i < self.entries@.len() ==> (#[trigger] self.entries@[i]).songs.wf()
    }

    /// The number of users in the mapping.
    pub fn len(&self) -> (r: usize)
        requires
            self.wf(),
        ensures
            r == self@.len(),
    {
        proof {
            lemma_entries_map(self.entries@);
            assert(self@.dom() =~= entry_users(self.entries@).to_set()) by {
                assert forall|u: Seq<char>| self@.dom().contains(u) implies entry_users(
                    self.entries@,
                ).contains(u) by {
                    let i = choose|i: int|
                        0 <= i < self.entries@.len() && #[trigger] self.entries@[i].user@ == u;
                    assert(entry_users(self.entries@)[i] == u);
                }
                assert forall|u: Seq<char>| entry_users(self.entries@).contains(u) implies self@.dom().contains(
                    u,
                ) by {
                    let i = choose|i: int|
                        0 <= i < entry_users(self.entries@).len() && entry_users(self.entries@)[i]
                            == u;
                    assert(self.entries@[i].user@ == u);
                }
            }
            entry_users(self.entries@).unique_seq_to_set();
        }
        self.entries.len()
    }

    /// The song set of `user`, if the mapping holds the user.
    pub fn get(&self, user: &str) -> (r: Option<&NameSet>)
        requires
            self.wf(),
        ensures
            r.is_some() == self@.dom().contains(user@),
            r.is_some() ==> r.unwrap().wf() && r.unwrap()@ == self@[user@],
    {
        proof {
            lemma_entries_map(self.entries@);
        }
        let mut i: usize = 0;
        while i < self.entries.len()
            invariant
                self.wf(),
                i <= self.entries@.len(),
                forall|j: int| 0 <= j < i ==> self.entries@[j].user@ != user@,
                forall|u: Seq<char>|
                    self@.dom().contains(u) <==> exists|j: int|
                        0 <= j < self.entries@.len() && #[trigger] self.entries@[j].user@ == u,
                forall|j: int|
                    0 <= j < self.entries@.len() ==> #[trigger] self@[self.entries@[j].user@]
                        == self.entries@[j].songs@,
            decreases self.entries@.len() - i,
        {
            if same_title(self.entries[i].user.as_str(), user) {
                return Some(&self.entries[i].songs);
            }
            i = i + 1;
        }
        None
    }
}

/// The distinct users with at least one event for `song_title` (exact,
/// case-sensitive match).
pub fn songs_to_users(song_title: &str, data: &[MSD]) -> (r: NameSet)
    ensures
        r.wf(),
        r@ == listeners_of(data@, song_title@),
        forall|u: Seq<char>|
            #![trigger r@.contains(u)]
            r@.contains(u) ==> exists|j: int|
                0 <= j < data@.len() && data@[j].user_id@ == u && data@[j].title@ == song_title@,
{
    let mut r = NameSet::new();
    let mut i: usize = 0;
    while i < data.len()
        invariant
            i <= data@.len(),
            r.wf(),
            r@ == Set::new(|u: Seq<char>| listened_within(data@, u, song_title@, i as int)),
        decreases data@.len() - i,
    {
        let ghost before = r@;
        if same_title(data[i].title.as_str(), song_title) {
            r.insert(data[i].user_id.clone());
        }
        assert(r@ =~= Set::new(|u: Seq<char>| listened_within(data@, u, song_title@, i + 1)));
        i = i + 1;
    }
    assert(r@ =~= listeners_of(data@, song_title@));
    r
}

/// The distinct titles that `user` has events for.
fn songs_of_user(user: &str, data: &[MSD]) -> (r: NameSet)
    ensures
        r.wf(),
        r@ == songs_of(data@, user@),
{
    let mut r = NameSet::new();
    let mut i: usize = 0;
    while i < data.len()
        invariant
            i <= data@.len(),
            r.wf(),
            r@ == Set::new(|t: Seq<char>| listened_within(data@, user@, t, i as int)),
        decreases data@.len() - i,
    {
        if same_title(data[i].user_id.as_str(), user) {
            r.insert(data[i].title.clone());
        }
        assert(r@ =~= Set::new(|t: Seq<char>| listened_within(data@, user@, t, i + 1)));
        i = i + 1;
    }
    assert(r@ =~= songs_of(data@, user@));
    r
}

/// For each user of `users` who has events, the distinct titles they listened
/// to. Users without events are left out.
pub fn users_to_songs(users: &NameSet, data: &[MSD]) -> (r: UserSongMap)
    requires
        users.wf(),
    ensures
        r.wf(),
        r@ == songs_by_user(users@, data@),
        forall|u: Seq<char>|
            #![trigger r@.dom().contains(u)]
            r@.dom().contains(u) ==> users@.contains(u) && r@[u] != Set::<Seq<char>>::empty(),
{
    let mut r = UserSongMap { entries: Vec::new() };
    let mut i: usize = 0;
    while i < users.items.len()
        invariant
            users.wf(),
            i <= users.items@.len(),
            r.wf(),
            forall|j: int|
                0 <= j < r.entries@.len() ==> exists|k: int|
                    0 <= k < i && #[trigger] users.items@[k]@ == (#[trigger] r.entries@[j]).user@,
            r@ == songs_by_user(
                Set::new(|u: Seq<char>| exists|k: int| 0 <= k < i && #[trigger] users.items@[k]@ == u),
                data@,
            ),
        decreases users.items@.len() - i,
    {
        let ghost u = users.items@[i as int]@;
        let ghost prev = Set::new(
            |w: Seq<char>| exists|k: int| 0 <= k < i && #[trigger] users.items@[k]@ == w,
        );
        let ghost next = Set::new(
            |w: Seq<char>| exists|k: int| 0 <= k < i + 1 && #[trigger] users.items@[k]@ == w,
        );
        assert(next =~= prev.insert(u));
        let songs = songs_of_user(users.items[i].as_str(), data);
        proof {
            assert forall|k: int| 0 <= k < i implies users.items@[k]@ != u by {
                assert(names(users.items@)[k] == users.items@[k]@);
                assert(names(users.items@)[i as int] == u);
            }
        }
        if songs.items.len() > 0 {
            proof {
                assert(songs@.contains(songs.items@[0]@)) by {
                    assert(names(songs.items@)[0] == songs.items@[0]@);
                }
                assert(has_events(data@, u));
            }
            let ghost old_entries = r.entries@;
            r.entries.push(UserSongs { user: users.items[i].clone(), songs });
            proof {
                assert(r.entries@.drop_last() =~= old_entries);
                assert forall|a: int, b: int|
                    0 <= a < b < r.entries@.len() implies entry_users(r.entries@)[a] != entry_users(
                    r.entries@,
                )[b] by {
                    assert(entry_users(old_entries)[a] == entry_users(r.entries@)[a]);
                    if b < old_entries.len() {
                        assert(entry_users(old_entries)[b] == entry_users(r.entries@)[b]);
                    } else {
                        assert(r.entries@[a] == old_entries[a]);
                    }
                }
                assert forall|j: int| 0 <= j < r.entries@.len() implies exists|k: int|
                    0 <= k < i + 1 && #[trigger] users.items@[k]@ == (
                    #[trigger] r.entries@[j]).user@ by {
                    if j < old_entries.len() {
                        assert(r.entries@[j] == old_entries[j]);
                    } else {
                        assert(users.items@[i as int]@ == r.entries@[j].user@);
                    }
                }
                assert(r@ =~= songs_by_user(next, data@));
            }
        } else {
            proof {
                if has_events(data@, u) {
                    let j = choose|j: int|
                        #![trigger data@[j]]
                        0 <= j < data@.len() && data@[j].user_id@ == u;
                    assert(songs@.contains(data@[j].title@));
                    assert(names(songs.items@).to_set().contains(data@[j].title@));
                }
                assert(r@ =~= songs_by_user(next, data@));
            }
        }
        i = i + 1;
    }
    proof {
        let all = Set::new(
            |w: Seq<char>| exists|k: int| 0 <= k < i && #[trigger] users.items@[k]@ == w,
        );
        assert forall|w: Seq<char>| all.contains(w) <==> users@.contains(w) by {
            if users@.contains(w) {
                let k = choose|k: int| 0 <= k < names(users.items@).len() && names(users.items@)[k] == w;
                assert(users.items@[k]@ == w);
            }
            if all.contains(w) {
                let k = choose|k: int| 0 <= k < i && #[trigger] users.items@[k]@ == w;
                assert(names(users.items@)[k] == w);
            }
        }
        assert(all =~= users@);
        assert forall|u: Seq<char>| #[trigger] r@.dom().contains(u) implies users@.contains(u) && r@[u]
            != Set::<Seq<char>>::empty() by {
            let j = choose|j: int| #![trigger data@[j]] 0 <= j < data@.len() && data@[j].user_id@ == u;
            assert(r@[u].contains(data@[j].title@));
        }
    }
    r
}

} // verus!
