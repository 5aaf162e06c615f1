//! Which items are found, and whose watching and whose favorites count.

use media_purger::ancestry::build_ancestor_map;
use media_purger::ancestry::ItemIndex;
use media_purger::audience::choose_audience;
use media_purger::audience::find_unknown_user;
use media_purger::audience::find_user_named;
use media_purger::audience::find_user_with_id;
use media_purger::audience::resolve_names;
use media_purger::audience::Audience;
use media_purger::display::count_items;
use media_purger::grouping::group_items;
use media_purger::history::FavoriteItems;
use media_purger::history::PlayedItems;
use media_purger::model::JellyfinUser;
use media_purger::model::MediaItem;
use media_purger::model::MediaSourceInfo;
use media_purger::model::UserData;
use media_purger::selection::find_deletable_items;
use media_purger::selection::Deletable;
use media_purger::selection::Selection;
use media_purger::time::parse_date;
use media_purger::time::Instant;

fn user(id: &str, name: &str) -> JellyfinUser {
    JellyfinUser { id: id.to_string(), name: name.to_string() }
}

fn item(id: &str, kind: &str, parent: Option<&str>) -> MediaItem {
    MediaItem {
        id: id.to_string(),
        name: format!("{} name", id),
        item_type: kind.to_string(),
        path: Some(format!("/media/{}", id)),
        parent_id: parent.map(|p| p.to_string()),
        index_number: None,
        parent_index_number: None,
        last_played_date: None,
        user_data: None,
        media_sources: None,
    }
}

fn sized(id: &str, size: u64) -> MediaItem {
    MediaItem {
        media_sources: Some(vec![
            MediaSourceInfo { size: None },
            MediaSourceInfo { size: Some(size) },
            MediaSourceInfo { size: Some(7) },
        ]),
        ..item(id, "Movie", None)
    }
}

fn played(id: &str, date: Option<&str>) -> MediaItem {
    MediaItem {
        user_data: Some(UserData { last_played_date: date.map(|d| d.to_string()) }),
        ..item(id, "Movie", None)
    }
}

fn names(list: &[&str]) -> Vec<String> {
    list.iter().map(|n| n.to_string()).collect()
}

fn now() -> Instant {
    parse_date("2024-03-31T12:00:00Z").unwrap()
}

fn alice_and_bob() -> Vec<JellyfinUser> {
    vec![user("a", "alice"), user("b", "bob")]
}

struct World {
    users: Vec<JellyfinUser>,
    items: Vec<MediaItem>,
    watched_by: Vec<String>,
    protected_by: Vec<String>,
    ignore_favorites: bool,
    plays: Vec<(String, Vec<MediaItem>)>,
    favorites: Vec<(String, Vec<MediaItem>)>,
    min_days: Option<u32>,
    now: Instant,
}

impl World {
    fn new(items: Vec<MediaItem>) -> World {
        World {
            users: alice_and_bob(),
            items,
            watched_by: Vec::new(),
            protected_by: Vec::new(),
            ignore_favorites: false,
            plays: Vec::new(),
            favorites: Vec::new(),
            min_days: None,
            now: now(),
        }
    }

    fn audience(&self) -> Audience {
        choose_audience(&self.users, &self.watched_by, &self.protected_by, self.ignore_favorites)
            .unwrap()
    }

    fn find(&self) -> Deletable {
        let audience = self.audience();
        let mut history = PlayedItems::new();
        for (id, items) in &self.plays {
            history.record(id.clone(), items);
        }
        let mut favorites = FavoriteItems::new();
        for (id, items) in &self.favorites {
            favorites.record(id.clone(), items);
        }
        find_deletable_items(&Selection {
            users: &self.users,
            items: &self.items,
            audience: &audience,
            played: &history,
            favorites: &favorites,
            min_days_watched_ago: self.min_days,
            now: self.now,
        })
    }

    fn found_ids(&self) -> Vec<String> {
        self.find().items.iter().map(|m| m.id.clone()).collect()
    }
}

#[test]
fn items_watched_by_everyone_are_found() {
    let mut world = World::new(vec![sized("m1", 10), sized("m2", 30), sized("m3", 20)]);
    world.plays = vec![
        ("a".to_string(), vec![played("m1", None), played("m2", None), played("m3", None)]),
        ("b".to_string(), vec![played("m3", None), played("m2", None)]),
    ];
    world.favorites = vec![("a".to_string(), vec![]), ("b".to_string(), vec![])];
    assert_eq!(world.found_ids(), names(&["m2", "m3"]));
}

#[test]
fn a_user_without_history_has_watched_nothing() {
    let mut world = World::new(vec![sized("m1", 10)]);
    world.plays = vec![("a".to_string(), vec![played("m1", None)])];
    assert_eq!(world.found_ids(), names(&[]));
}

#[test]
fn without_users_everything_counts_as_watched() {
    let mut world = World::new(vec![sized("m1", 10), sized("m2", 20)]);
    world.users = Vec::new();
    assert_eq!(world.found_ids(), names(&["m2", "m1"]));
    world.min_days = Some(0);
    assert_eq!(world.found_ids(), names(&[]));
}

#[test]
fn items_of_equal_size_keep_their_order() {
    let mut world =
        World::new(vec![sized("m1", 5), sized("m2", 9), sized("m3", 5), sized("m4", 9), sized("m5", 5)]);
    world.users = Vec::new();
    assert_eq!(world.found_ids(), names(&["m2", "m4", "m1", "m3", "m5"]));
}

#[test]
fn a_described_item_has_all_details() {
    let mut episode = MediaItem {
        index_number: Some(4),
        parent_index_number: Some(2),
        ..item("e", "Episode", Some("season"))
    };
    episode.path = None;
    episode.media_sources = Some(vec![MediaSourceInfo { size: Some(42) }]);
    let mut world = World::new(vec![
        item("show", "Series", Some("folder")),
        item("season", "Season", Some("show")),
        episode,
        item("folder", "Folder", None),
    ]);
    world.watched_by = names(&["bob", "alice"]);
    world.plays = vec![
        ("a".to_string(), vec![played("e", Some("2024-01-02T00:00:00Z"))]),
        ("b".to_string(), vec![played("e", Some("2023-12-31T23:59:59Z"))]),
    ];
    let found = world.find();
    assert_eq!(found.items.len(), 1);
    assert!(found.warnings.is_empty());
    let e = &found.items[0];
    assert_eq!(e.id, "e");
    assert_eq!(e.name, "e name");
    assert_eq!(e.item_type, "Episode");
    assert_eq!(e.path, "");
    assert_eq!(e.last_played_date, Some("2024-01-02T00:00:00Z".to_string()));
    assert_eq!(e.played_by, names(&["bob", "alice"]));
    assert!(e.protected_by.is_empty());
    assert_eq!(e.size, 42);
    assert_eq!(e.series_name, Some("show name".to_string()));
    assert_eq!(e.season_number, Some(2));
    assert_eq!(e.episode_number, Some(4));
    assert_eq!(e.series_id, Some("show".to_string()));
    assert_eq!(e.season_id, Some("season".to_string()));
}

#[test]
fn a_series_behind_a_folder_names_an_episode_only() {
    let mut world = World::new(vec![
        item("show", "Series", None),
        item("folder", "Folder", Some("show")),
        item("season", "Season", Some("folder")),
        item("e", "Episode", Some("season")),
        item("m", "Movie", Some("season")),
    ]);
    world.watched_by = names(&["alice"]);
    world.plays = vec![("a".to_string(), vec![played("e", None), played("m", None)])];
    let found = world.find();
    let e = &found.items[0];
    assert_eq!(e.series_name, Some("show name".to_string()));
    assert_eq!(e.series_id, None);
    assert_eq!(e.season_id, Some("season".to_string()));
    let m = &found.items[1];
    assert_eq!((&m.series_name, &m.series_id, &m.season_id), (&None, &None, &None));
}

#[test]
fn the_topmost_of_nested_seasons_counts() {
    let mut world = World::new(vec![
        item("show", "Series", None),
        item("outer", "Season", Some("show")),
        item("inner", "Season", Some("outer")),
        item("e", "Episode", Some("inner")),
    ]);
    world.watched_by = names(&["alice"]);
    world.plays = vec![("a".to_string(), vec![played("e", None)])];
    let found = world.find();
    assert_eq!(found.items[0].season_id, Some("outer".to_string()));
    assert_eq!(found.items[0].series_id, Some("show".to_string()));
}

#[test]
fn parents_that_go_round_in_circles_end() {
    let items = vec![
        item("s1", "Season", Some("s2")),
        item("s2", "Season", Some("s1")),
        item("e", "Episode", Some("s1")),
    ];
    let map = build_ancestor_map(&items);
    assert_eq!(map.get("e"), Some(&names(&["s1", "s2"])));
    assert_eq!(map.get("s1"), Some(&names(&["s2", "s1"])));
    let mut world = World::new(items);
    world.watched_by = names(&["alice"]);
    world.plays = vec![("a".to_string(), vec![played("e", None)])];
    let found = world.find();
    assert_eq!(found.items[0].season_id, Some("s2".to_string()));
    assert_eq!(found.items[0].series_id, None);
    assert_eq!(found.items[0].series_name, None);
}

#[test]
fn ancestors_go_up_to_the_top() {
    let items = vec![
        item("e", "Episode", Some("season")),
        item("season", "Season", Some("show")),
        item("show", "Series", Some("gone")),
        item("m", "Movie", None),
    ];
    let map = build_ancestor_map(&items);
    assert_eq!(map.get("e"), Some(&names(&["season", "show", "gone"])));
    assert_eq!(map.get("season"), Some(&names(&["show", "gone"])));
    assert_eq!(map.get("show"), Some(&names(&["gone"])));
    assert_eq!(map.get("m"), None);
    assert_eq!(map.get("gone"), None);
    assert_eq!(map.len(), 3);
}

#[test]
fn where_an_id_occurs_twice_the_last_counts() {
    let items = vec![
        item("x", "Movie", Some("p")),
        item("x", "Movie", Some("q")),
        item("x", "Movie", None),
        item("q", "Folder", Some("r")),
    ];
    let map = build_ancestor_map(&items);
    assert_eq!(map.get("x"), Some(&names(&["q", "r"])));
    let index = ItemIndex::new(&items);
    assert_eq!(index.get("x").unwrap().parent_id, None);
    assert!(index.get("r").is_none());
    assert_eq!(index.lineage(&Some("x".to_string())), names(&["x"]));
    assert_eq!(index.lineage(&None), names(&[]));
}

#[test]
fn a_favorite_is_kept() {
    let mut world = World::new(vec![sized("m1", 10), sized("m2", 20)]);
    world.watched_by = names(&["alice"]);
    world.plays = vec![("a".to_string(), vec![played("m1", None), played("m2", None)])];
    world.favorites = vec![("b".to_string(), vec![played("m2", None)])];
    assert_eq!(world.found_ids(), names(&["m1"]));
}

#[test]
fn what_lies_below_a_favorite_is_kept() {
    let mut world = World::new(vec![
        item("show", "Series", None),
        item("season", "Season", Some("show")),
        item("e", "Episode", Some("season")),
        item("other", "Episode", None),
    ]);
    world.watched_by = names(&["alice"]);
    world.plays = vec![("a".to_string(), vec![played("e", None), played("other", None)])];
    world.favorites = vec![("b".to_string(), vec![item("show", "Series", None)])];
    assert_eq!(world.found_ids(), names(&["other"]));
}

#[test]
fn favorites_of_others_do_not_count() {
    let mut world = World::new(vec![sized("m1", 10)]);
    world.watched_by = names(&["alice"]);
    world.protected_by = names(&["alice"]);
    world.plays = vec![("a".to_string(), vec![played("m1", None)])];
    world.favorites = vec![("b".to_string(), vec![played("m1", None)])];
    assert_eq!(world.found_ids(), names(&["m1"]));
    world.protected_by = names(&["alice", "bob"]);
    assert_eq!(world.found_ids(), names(&[]));
}

#[test]
fn ignored_favorites_protect_nothing() {
    let mut world = World::new(vec![sized("m1", 10)]);
    world.watched_by = names(&["alice"]);
    world.plays = vec![("a".to_string(), vec![played("m1", None)])];
    world.favorites = vec![("a".to_string(), vec![played("m1", None)])];
    assert_eq!(world.found_ids(), names(&[]));
    world.ignore_favorites = true;
    assert_eq!(world.found_ids(), names(&["m1"]));
}

#[test]
fn what_was_watched_lately_is_left_out() {
    let mut world = World::new(vec![sized("m1", 10), sized("m2", 20), sized("m3", 30)]);
    world.watched_by = names(&["alice"]);
    world.plays = vec![(
        "a".to_string(),
        vec![
            played("m1", Some("2024-03-01T12:00:00Z")),
            played("m2", Some("2024-03-01T12:00:01Z")),
            played("m3", None),
        ],
    )];
    world.min_days = Some(30);
    assert_eq!(world.found_ids(), names(&["m1"]));
    world.min_days = Some(31);
    assert_eq!(world.found_ids(), names(&[]));
    world.min_days = Some(29);
    assert_eq!(world.found_ids(), names(&["m2", "m1"]));
    world.min_days = None;
    assert_eq!(world.found_ids(), names(&["m3", "m2", "m1"]));
}

#[test]
fn the_latest_play_of_all_watchers_counts() {
    let mut world = World::new(vec![sized("m1", 10)]);
    world.plays = vec![
        ("a".to_string(), vec![played("m1", Some("2024-03-30T00:00:00Z"))]),
        ("b".to_string(), vec![played("m1", Some("2023-01-01T00:00:00Z"))]),
    ];
    world.min_days = Some(2);
    assert_eq!(world.found_ids(), names(&[]));
    world.watched_by = names(&["bob"]);
    assert_eq!(world.found_ids(), names(&["m1"]));
}

#[test]
fn a_recent_play_counts_beside_an_unreadable_date() {
    let mut world = World::new(vec![sized("m1", 10)]);
    world.plays = vec![
        ("a".to_string(), vec![played("m1", Some("last week"))]),
        ("b".to_string(), vec![played("m1", Some("2024-03-30T00:00:00Z"))]),
    ];
    world.min_days = Some(5);
    let found = world.find();
    assert!(found.items.is_empty());
    assert!(found.warnings.is_empty());
    world.min_days = Some(1);
    let found = world.find();
    assert_eq!(found.items.len(), 1);
    assert_eq!(found.items[0].last_played_date, Some("last week".to_string()));
    assert_eq!(found.warnings.len(), 1);
}

#[test]
fn a_recent_play_counts_whatever_its_offset() {
    let mut world = World::new(vec![sized("m1", 10)]);
    world.plays = vec![
        ("a".to_string(), vec![played("m1", Some("2024-03-30T01:00:00+14:00"))]),
        ("b".to_string(), vec![played("m1", Some("2024-03-29T20:00:00Z"))]),
    ];
    world.now = parse_date("2024-03-31T12:00:00Z").unwrap();
    world.min_days = Some(2);
    assert_eq!(world.found_ids(), names(&[]));
    world.min_days = Some(1);
    assert_eq!(world.found_ids(), names(&["m1"]));
}

#[test]
fn an_unreadable_date_is_warned_of() {
    let mut world = World::new(vec![sized("m1", 10), sized("m2", 20)]);
    world.watched_by = names(&["alice"]);
    world.plays = vec![(
        "a".to_string(),
        vec![played("m1", Some("last week")), played("m2", Some("2024-01-01T00:00:00Z"))],
    )];
    world.min_days = Some(5);
    let found = world.find();
    assert_eq!(found.items.len(), 2);
    assert_eq!(
        found.warnings,
        names(&["Warning: Could not parse date 'last week' for item 'm1 name', including anyway"])
    );
    world.favorites = vec![("a".to_string(), vec![played("m1", None)])];
    let found = world.find();
    assert_eq!(found.items.len(), 1);
    assert_eq!(found.warnings.len(), 1);
    world.min_days = None;
    assert!(world.find().warnings.is_empty());
}

#[test]
fn the_date_comes_from_the_user_first() {
    let mut both = played("m", Some("2024-02-02T00:00:00Z"));
    both.last_played_date = Some("2020-01-01T00:00:00Z".to_string());
    assert_eq!(both.last_played(), Some("2024-02-02T00:00:00Z".to_string()));
    let mut own = played("m", None);
    own.last_played_date = Some("2020-01-01T00:00:00Z".to_string());
    assert_eq!(own.last_played(), Some("2020-01-01T00:00:00Z".to_string()));
    assert_eq!(item("m", "Movie", None).last_played(), None);
}

#[test]
fn the_first_given_size_counts() {
    assert_eq!(sized("m", 12).size(), 12);
    assert_eq!(item("m", "Movie", None).size(), 0);
    let nothing = MediaItem {
        media_sources: Some(vec![MediaSourceInfo { size: None }]),
        ..item("m", "Movie", None)
    };
    assert_eq!(nothing.size(), 0);
}

#[test]
fn history_is_read_back() {
    let mut history = PlayedItems::new();
    history.record(
        "a".to_string(),
        &[played("m", Some("2020")), played("n", None), played("m", Some("2021"))],
    );
    assert_eq!(history.play("a", "m"), Some(&Some("2021".to_string())));
    assert_eq!(history.play("a", "n"), Some(&None));
    assert_eq!(history.play("a", "o"), None);
    assert_eq!(history.play("b", "m"), None);
    assert_eq!(history.count("a"), 2);
    assert_eq!(history.count("b"), 0);
    history.record("a".to_string(), &[]);
    assert_eq!(history.play("a", "m"), None);
    let mut favorites = FavoriteItems::new();
    favorites.record("a".to_string(), &[played("m", None)]);
    assert!(favorites.is_favorite("a", "m"));
    assert!(!favorites.is_favorite("a", "n"));
    assert!(!favorites.is_favorite("b", "m"));
}

#[test]
fn names_stand_for_users() {
    let users = vec![user("1", "alice"), user("2", "bob"), user("3", "alice")];
    assert_eq!(find_user_named(&users, &"alice".to_string()).unwrap().id, "3");
    assert!(find_user_named(&users, &"carol".to_string()).is_none());
    assert_eq!(find_user_with_id(&users, &"2".to_string()).unwrap().name, "bob");
    assert!(find_user_with_id(&users, &"4".to_string()).is_none());
    assert_eq!(resolve_names(&users, &[]), names(&["1", "2", "3"]));
    assert_eq!(resolve_names(&users, &names(&["bob", "carol", "alice"])), names(&["2", "3"]));
}

#[test]
fn the_audience_is_everyone_by_default() {
    let users = alice_and_bob();
    let audience = choose_audience(&users, &[], &[], false).unwrap();
    assert_eq!(audience.watched_ids, names(&["a", "b"]));
    assert_eq!(audience.protected_ids, names(&["a", "b"]));
    assert!(!audience.protection_missing);
}

#[test]
fn watchers_nobody_knows_leave_no_audience() {
    let users = alice_and_bob();
    assert!(choose_audience(&users, &names(&["carol"]), &[], false).is_none());
    let audience = choose_audience(&users, &names(&["carol", "bob"]), &[], false).unwrap();
    assert_eq!(audience.watched_ids, names(&["b"]));
}

#[test]
fn protectors_nobody_knows_are_noticed() {
    let users = alice_and_bob();
    let audience = choose_audience(&users, &[], &names(&["carol"]), false).unwrap();
    assert!(audience.protected_ids.is_empty());
    assert!(audience.protection_missing);
    let audience = choose_audience(&users, &[], &names(&["bob"]), false).unwrap();
    assert_eq!(audience.protected_ids, names(&["b"]));
    assert!(!audience.protection_missing);
    let audience = choose_audience(&users, &[], &names(&["bob"]), true).unwrap();
    assert!(audience.protected_ids.is_empty());
    assert!(audience.protection_missing);
}

#[test]
fn the_first_unknown_name_is_found() {
    let users = alice_and_bob();
    assert_eq!(find_unknown_user(&users, &names(&["bob", "dave", "carol"])), Some("dave".to_string()));
    assert_eq!(find_unknown_user(&users, &names(&["bob", "alice"])), None);
    assert_eq!(find_unknown_user(&users, &[]), None);
}

#[test]
fn what_is_deletable_stays_so() {
    let mut world = World::new(vec![sized("m1", 10)]);
    world.watched_by = names(&["alice"]);
    world.plays = vec![("a".to_string(), vec![played("m1", Some("2024-03-01T12:00:00Z"))])];
    world.min_days = Some(31);
    for (date, found) in [
        ("2024-03-31T12:00:00Z", 0),
        ("2024-04-01T11:59:59Z", 0),
        ("2024-04-01T12:00:00Z", 1),
        ("2024-04-02T00:00:00Z", 1),
        ("2034-04-02T00:00:00Z", 1),
    ] {
        world.now = parse_date(date).unwrap();
        assert_eq!(world.found_ids().len(), found);
    }
}

#[test]
fn everything_found_is_grouped() {
    let mut items = vec![
        item("show", "Series", None),
        item("s1", "Season", Some("show")),
        item("s2", "Season", Some("show")),
        sized("film", 3),
    ];
    for (id, season) in [("a", "s1"), ("b", "s1"), ("c", "s2"), ("d", "s2")] {
        items.push(MediaItem { item_type: "Episode".to_string(), parent_id: Some(season.to_string()), ..sized(id, 1) });
    }
    let mut world = World::new(items);
    world.watched_by = names(&["alice"]);
    world.plays = vec![(
        "a".to_string(),
        ["a", "b", "c", "d", "film"].iter().map(|id| played(id, None)).collect(),
    )];
    let groups = group_items(&world.items, world.find().items);
    let called: Vec<String> = groups.iter().map(|g| g.display_name()).collect();
    assert_eq!(
        called,
        vec![
            "show name (0 seasons, 4 episodes, 4 B)",
            "film name",
        ]
    );
    assert_eq!(count_items(&groups), 5);
}
