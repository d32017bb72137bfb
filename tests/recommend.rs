use std::collections::HashSet;
use std::cmp::Ordering;

use msd_recommend::event::MSD;
use msd_recommend::expansion::{find_more_songs, recommend};
use msd_recommend::index::{songs_to_users, users_to_songs};
use msd_recommend::names::NameSet;
use msd_recommend::ranking::{count_listeners, most_popular_song};
use msd_recommend::title::{compare_titles, same_title};
use msd_recommend::{EXPANSION_BREADTH, MAX_ROWS, SPARSE_THRESHOLD};

fn event(user: &str, title: &str) -> MSD {
    MSD {
        unknown: "0".to_string(),
        user_id: user.to_string(),
        song_id: "0".to_string(),
        listen_count: "0".to_string(),
        track_id: "0".to_string(),
        artist_id: "0".to_string(),
        artist_name: "0".to_string(),
        title: title.to_string(),
    }
}

fn fake_data() -> Vec<MSD> {
    vec![
        event("user1", "Song A"),
        event("user2", "Song A"),
        event("user1", "Song B"),
        event("user3", "Song C"),
    ]
}

fn name_set(items: &[&str]) -> NameSet {
    let mut s = NameSet::new();
    for i in items {
        s.insert(i.to_string());
    }
    s
}

fn as_hash_set(s: &NameSet) -> HashSet<String> {
    s.items.iter().cloned().collect()
}

#[test]
fn test_songs_to_users() {
    let data = fake_data();
    let users = songs_to_users("Song A", &data);
    assert_eq!(users.len(), 2);
    assert!(users.contains("user1"));
    assert!(users.contains("user2"));
}

#[test]
fn test_users_to_songs() {
    let data = fake_data();
    let users = name_set(&["user1", "user2"]);
    let user_songs = users_to_songs(&users, &data);

    let expected_user1: HashSet<String> =
        ["Song A".to_string(), "Song B".to_string()].into_iter().collect();
    let expected_user2: HashSet<String> = ["Song A".to_string()].into_iter().collect();

    assert_eq!(user_songs.get("user1").map(as_hash_set), Some(expected_user1));
    assert_eq!(user_songs.get("user2").map(as_hash_set), Some(expected_user2));
    assert_eq!(user_songs.len(), 2);
}

#[test]
fn test_most_popular_song() {
    let data = fake_data();
    let users = name_set(&["user1", "user2"]);
    let user_songs_hm = users_to_songs(&users, &data);
    let most_popular = most_popular_song(&user_songs_hm, "Song A");
    assert_eq!(most_popular, Some(("Song B".to_string(), 1)));
}

#[test]
fn test_find_more_songs() {
    let data = fake_data();
    let actual = find_more_songs("Song B", &data);
    assert_eq!(actual, Some(("Song A".to_string(), 2)));
}

#[test]
fn listeners_have_no_duplicates_and_match_title() {
    let data = vec![
        event("u1", "Tune"),
        event("u1", "Tune"),
        event("u2", "Tune"),
        event("u3", "tune"),
        event("u1", "Other"),
    ];
    let users = songs_to_users("Tune", &data);
    assert_eq!(users.len(), 2);
    assert_eq!(users.items.len(), 2);
    assert!(users.contains("u1"));
    assert!(users.contains("u2"));
    assert!(!users.contains("u3"));
    for u in &users.items {
        assert!(data.iter().any(|e| &e.user_id == u && e.title == "Tune"));
    }
}

#[test]
fn songs_by_user_keys_stay_in_listener_set_and_are_nonempty() {
    let data = vec![
        event("u1", "A"),
        event("u1", "A"),
        event("u1", "B"),
        event("u2", "C"),
        event("u3", "D"),
    ];
    let users = name_set(&["u1", "u2", "nobody"]);
    let map = users_to_songs(&users, &data);
    assert_eq!(map.len(), 2);
    assert!(map.get("nobody").is_none());
    assert!(map.get("u3").is_none());
    for entry in &map.entries {
        assert!(users.contains(&entry.user));
        assert!(!entry.songs.items.is_empty());
    }
    assert_eq!(map.get("u1").map(|s| s.items.len()), Some(2));
}

#[test]
fn scenario_a_direct_ranking() {
    let data = fake_data();
    let users = songs_to_users("Song A", &data);
    assert_eq!(as_hash_set(&users), ["user1".to_string(), "user2".to_string()].into_iter().collect());
    let pool = users_to_songs(&users, &data);
    assert_eq!(most_popular_song(&pool, "Song A"), Some(("Song B".to_string(), 1)));
}

#[test]
fn scenario_b_recommend_expands() {
    let data = fake_data();
    assert_eq!(songs_to_users("Song B", &data).len(), 1);
    assert_eq!(recommend("Song B", &data), Some(("Song A".to_string(), 2)));
}

#[test]
fn ties_go_to_smallest_title() {
    let data = vec![
        event("u1", "Zeta"),
        event("u2", "Alpha"),
        event("u3", "Mid"),
        event("u1", "Seed"),
    ];
    let users = name_set(&["u3", "u2", "u1"]);
    let pool = users_to_songs(&users, &data);
    assert_eq!(most_popular_song(&pool, "Seed"), Some(("Alpha".to_string(), 1)));
    let reordered = name_set(&["u1", "u3", "u2"]);
    let pool2 = users_to_songs(&reordered, &data);
    assert_eq!(most_popular_song(&pool2, "Seed"), Some(("Alpha".to_string(), 1)));
}

#[test]
fn higher_count_beats_smaller_title() {
    let data = vec![
        event("u1", "B"),
        event("u2", "B"),
        event("u3", "A"),
    ];
    let users = name_set(&["u1", "u2", "u3"]);
    let pool = users_to_songs(&users, &data);
    assert_eq!(most_popular_song(&pool, ""), Some(("B".to_string(), 2)));
    assert_eq!(count_listeners(&pool, "B"), 2);
    assert_eq!(count_listeners(&pool, "A"), 1);
    assert_eq!(count_listeners(&pool, "Z"), 0);
}

#[test]
fn excluded_title_is_never_returned() {
    let data = vec![event("u1", "Only"), event("u2", "Only")];
    let users = name_set(&["u1", "u2"]);
    let pool = users_to_songs(&users, &data);
    assert_eq!(most_popular_song(&pool, "Only"), None);
    assert_eq!(most_popular_song(&pool, "Else"), Some(("Only".to_string(), 2)));
}

#[test]
fn empty_pool_has_no_most_popular() {
    let data: Vec<MSD> = Vec::new();
    let pool = users_to_songs(&NameSet::new(), &data);
    assert_eq!(pool.len(), 0);
    assert_eq!(most_popular_song(&pool, ""), None);
}

#[test]
fn recommend_is_repeatable() {
    let data = fake_data();
    let first = recommend("Song B", &data);
    let second = recommend("Song B", &data);
    assert_eq!(first, second);
    assert_eq!(recommend("Song A", &data), recommend("Song A", &data));
}

fn five_listener_data() -> Vec<MSD> {
    vec![
        event("u1", "Seed"),
        event("u2", "Seed"),
        event("u3", "Seed"),
        event("u4", "Seed"),
        event("u5", "Seed"),
        event("u1", "X"),
        event("u2", "X"),
        event("u3", "Y"),
    ]
}

#[test]
fn exactly_five_listeners_rank_directly() {
    let data = five_listener_data();
    assert_eq!(songs_to_users("Seed", &data).len(), SPARSE_THRESHOLD);
    assert_eq!(recommend("Seed", &data), Some(("X".to_string(), 2)));
    assert_eq!(find_more_songs("Seed", &data), None);
}

#[test]
fn four_listeners_expand() {
    let mut data = five_listener_data();
    data.remove(4);
    assert_eq!(songs_to_users("Seed", &data).len(), 4);
    // Top songs X and Y; their listeners u1, u2, u3 all listened to Seed.
    assert_eq!(recommend("Seed", &data), Some(("Seed".to_string(), 3)));
    assert_eq!(find_more_songs("Seed", &data), Some(("Seed".to_string(), 3)));
}

#[test]
fn expansion_takes_at_most_three_songs() {
    let data = vec![
        event("u1", "Seed"),
        event("u1", "A"),
        event("u1", "B"),
        event("u1", "C"),
        event("u1", "D"),
        event("v1", "D"),
        event("v2", "D"),
        event("v3", "D"),
        event("w1", "A"),
    ];
    assert_eq!(EXPANSION_BREADTH, 3);
    // Top songs A, B, C (D is fourth by title); widened users u1, w1.
    assert_eq!(recommend("Seed", &data), Some(("A".to_string(), 2)));
}

#[test]
fn seed_whose_listeners_have_no_other_song() {
    let data = vec![event("u1", "Lonely"), event("u2", "Other")];
    assert_eq!(find_more_songs("Lonely", &data), None);
    assert_eq!(recommend("Lonely", &data), None);
}

#[test]
fn absent_seed_gives_nothing() {
    let data = fake_data();
    let users = songs_to_users("Missing", &data);
    assert_eq!(users.len(), 0);
    let pool = users_to_songs(&users, &data);
    assert_eq!(pool.len(), 0);
    assert_eq!(recommend("Missing", &data), None);
    assert_eq!(find_more_songs("Missing", &data), None);
}

#[test]
fn pool_without_song_keeps_users() {
    let data = fake_data();
    let users = name_set(&["user1", "user2"]);
    let pool = users_to_songs(&users, &data);
    let stripped = pool.without_song("Song A");
    assert_eq!(stripped.len(), 2);
    assert_eq!(stripped.get("user2").map(|s| s.items.len()), Some(0));
    assert_eq!(
        stripped.get("user1").map(as_hash_set),
        Some(["Song B".to_string()].into_iter().collect())
    );
}

#[test]
fn name_set_operations() {
    let mut a = name_set(&["x", "y", "x"]);
    assert_eq!(a.len(), 2);
    let b = name_set(&["y", "z"]);
    a.union_with(&b);
    assert_eq!(a.len(), 3);
    let c = a.without("y");
    assert_eq!(c.len(), 2);
    assert!(!c.contains("y"));
    assert!(c.contains("z"));
}

#[test]
fn titles_compare_by_bytes() {
    assert_eq!(compare_titles("Song A", "Song B"), Ordering::Less);
    assert_eq!(compare_titles("Song B", "Song A"), Ordering::Greater);
    assert_eq!(compare_titles("Song", "Song A"), Ordering::Less);
    assert_eq!(compare_titles("Z", "a"), Ordering::Less);
    assert_eq!(compare_titles("é", "z"), Ordering::Greater);
    assert_eq!(compare_titles("abc", "abc"), Ordering::Equal);
    assert!(same_title("Imagine", "Imagine"));
    assert!(!same_title("Imagine", "imagine"));
}

#[test]
fn policy_constants() {
    assert_eq!(SPARSE_THRESHOLD, 5);
    assert_eq!(MAX_ROWS, 200000);
}
