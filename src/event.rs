//! Listening-event records and what a collection of them says.
use vstd::prelude::*;

verus! {

/// One row of the listening log. The recommender reads `user_id` and `title`
/// only; the other columns are carried as they were read.
#[derive(Debug)]
pub struct MSD {
    /// Row number in the log.
    pub unknown: String,
    /// The listening user.
    pub user_id: String,
    pub song_id: String,
    /// How many times the user played the song.
    pub listen_count: String,
    pub track_id: String,
    pub artist_id: String,
    pub artist_name: String,
    /// The song's title.
    pub title: String,
}

/// Among the first `n` events, `user` has one for `title`.
pub open spec fn listened_within(data: Seq<MSD>, user: Seq<char>, title: Seq<char>, n: int) -> bool {
    exists|j: int|
        #![trigger data[j]]
        0 <= j < n && j < data.len() && data[j].user_id@ == user && data[j].title@ == title
}

/// `user` has at least one event for `title`.
pub open spec fn listened(data: Seq<MSD>, user: Seq<char>, title: Seq<char>) -> bool {
    listened_within(data, user, title, data.len() as int)
}

/// The users with at least one event for `title`.
pub open spec fn listeners_of(data: Seq<MSD>, title: Seq<char>) -> Set<Seq<char>> {
    Set::new(|u: Seq<char>| listened(data, u, title))
}

/// The distinct titles that `user` has events for.
pub open spec fn songs_of(data: Seq<MSD>, user: Seq<char>) -> Set<Seq<char>> {
    Set::new(|t: Seq<char>| listened(data, user, t))
}

/// `user` has at least one event.
pub open spec fn has_events(data: Seq<MSD>, user: Seq<char>) -> bool {
    exists|j: int| #![trigger data[j]] 0 <= j < data.len() && data[j].user_id@ == user
}

/// Each user of `users` who has events, mapped to the titles they listened to.
pub open spec fn songs_by_user(users: Set<Seq<char>>, data: Seq<MSD>) -> Map<
    Seq<char>,
    Set<Seq<char>>,
> {
    Map::new(|u: Seq<char>| users.contains(u) && has_events(data, u), |u: Seq<char>| songs_of(data, u))
}

} // verus!
