//! How deletable items are grouped, and what groups are called.

use media_purger::display::count_items;
use media_purger::display::format_display_name;
use media_purger::grouping::group_items;
use media_purger::model::GroupedItem;
use media_purger::model::MatchedItem;
use media_purger::model::MediaItem;

fn media(id: &str, kind: &str, parent: Option<&str>) -> MediaItem {
    MediaItem {
        id: id.to_string(),
        name: id.to_string(),
        item_type: kind.to_string(),
        path: None,
        parent_id: parent.map(|p| p.to_string()),
        index_number: None,
        parent_index_number: None,
        last_played_date: None,
        user_data: None,
        media_sources: None,
    }
}

fn matched(id: &str, size: u64) -> MatchedItem {
    MatchedItem {
        id: id.to_string(),
        name: format!("{} name", id),
        item_type: "Movie".to_string(),
        path: String::new(),
        last_played_date: None,
        played_by: Vec::new(),
        protected_by: Vec::new(),
        size,
        series_name: None,
        season_number: None,
        episode_number: None,
        series_id: None,
        season_id: None,
    }
}

fn episode(id: &str, series: Option<&str>, season: Option<&str>, number: u32, size: u64) -> MatchedItem {
    MatchedItem {
        item_type: "Episode".to_string(),
        series_name: series.map(|s| format!("{} show", s)),
        season_number: Some(number),
        episode_number: Some(1),
        series_id: series.map(|s| s.to_string()),
        season_id: season.map(|s| s.to_string()),
        ..matched(id, size)
    }
}

fn ids(group: &GroupedItem) -> Vec<String> {
    group.items().iter().map(|i| i.id.clone()).collect()
}

fn shape(groups: &[GroupedItem]) -> Vec<String> {
    groups
        .iter()
        .map(|g| {
            let kind = match g {
                GroupedItem::Individual(_) => "item",
                GroupedItem::Season { .. } => "season",
                GroupedItem::Series { .. } => "series",
            };
            format!("{}:{}", kind, ids(g).join(","))
        })
        .collect()
}

#[test]
fn films_stand_alone_largest_first() {
    let groups = group_items(&[], vec![matched("a", 1), matched("b", 3), matched("c", 2), matched("d", 3)]);
    assert_eq!(shape(&groups), vec!["item:b", "item:d", "item:c", "item:a"]);
}

#[test]
fn nothing_makes_no_groups() {
    assert!(group_items(&[media("e", "Episode", Some("s"))], Vec::new()).is_empty());
}

#[test]
fn a_whole_season_is_a_group() {
    let all = vec![media("e1", "Episode", Some("s1")), media("e2", "Episode", Some("s1"))];
    let groups = group_items(
        &all,
        vec![episode("e1", Some("x"), Some("s1"), 1, 5), episode("e2", Some("x"), Some("s1"), 1, 6)],
    );
    assert_eq!(shape(&groups), vec!["season:e1,e2"]);
    match &groups[0] {
        GroupedItem::Season { series_name, season_number, .. } => {
            assert_eq!(series_name, "x show");
            assert_eq!(*season_number, 1);
        }
        _ => panic!("not a season"),
    }
}

#[test]
fn a_season_with_an_episode_that_stays_is_no_group() {
    let all = vec![
        media("e1", "Episode", Some("s1")),
        media("e2", "Episode", Some("s1")),
        media("e3", "Episode", Some("s1")),
    ];
    let groups = group_items(
        &all,
        vec![episode("e1", Some("x"), Some("s1"), 1, 5), episode("e2", Some("x"), Some("s1"), 1, 6)],
    );
    assert_eq!(shape(&groups), vec!["item:e2", "item:e1"]);
}

#[test]
fn only_episodes_right_under_a_season_count() {
    let all = vec![
        media("e1", "Episode", Some("s1")),
        media("m", "Movie", Some("s1")),
        media("e9", "Episode", None),
    ];
    let groups = group_items(
        &all,
        vec![episode("e1", Some("x"), Some("s1"), 1, 5), episode("e2", Some("x"), Some("s1"), 1, 6)],
    );
    assert_eq!(shape(&groups), vec!["season:e1,e2"]);
}

#[test]
fn a_single_episode_makes_no_season() {
    let all = vec![media("e1", "Episode", Some("s1"))];
    let groups = group_items(&all, vec![episode("e1", Some("x"), Some("s1"), 1, 5)]);
    assert_eq!(shape(&groups), vec!["item:e1"]);
}

#[test]
fn whole_seasons_make_a_series() {
    let all: Vec<MediaItem> = vec![
        media("e1", "Episode", Some("s1")),
        media("e2", "Episode", Some("s1")),
        media("f1", "Episode", Some("s2")),
        media("f2", "Episode", Some("s2")),
    ];
    let groups = group_items(
        &all,
        vec![
            episode("f1", Some("x"), Some("s2"), 2, 30),
            episode("e1", Some("x"), Some("s1"), 1, 20),
            episode("e2", Some("x"), Some("s1"), 1, 10),
            episode("f2", Some("x"), Some("s2"), 2, 5),
            matched("m", 40),
        ],
    );
    assert_eq!(shape(&groups), vec!["series:f1,f2,e1,e2", "item:m"]);
    match &groups[0] {
        GroupedItem::Series { series_name, total_episodes, seasons, .. } => {
            assert_eq!(series_name, "x show");
            assert_eq!(*total_episodes, 4);
            assert_eq!(seasons, &vec![2, 1]);
        }
        _ => panic!("not a series"),
    }
    assert_eq!(count_items(&groups), 5);
}

#[test]
fn one_broken_season_breaks_the_series() {
    let all: Vec<MediaItem> = vec![
        media("e1", "Episode", Some("s1")),
        media("e2", "Episode", Some("s1")),
        media("f1", "Episode", Some("s2")),
        media("f2", "Episode", Some("s2")),
    ];
    let groups = group_items(
        &all,
        vec![
            episode("e1", Some("x"), Some("s1"), 1, 20),
            episode("e2", Some("x"), Some("s1"), 1, 10),
            episode("f1", Some("x"), Some("s2"), 2, 50),
        ],
    );
    assert_eq!(shape(&groups), vec!["item:f1", "season:e1,e2"]);
}

#[test]
fn an_episode_that_stays_breaks_the_series() {
    let all: Vec<MediaItem> = vec![
        media("x", "Series", None),
        media("s1", "Season", Some("x")),
        media("s2", "Season", Some("x")),
        media("s3", "Season", Some("x")),
        media("e1", "Episode", Some("s1")),
        media("e2", "Episode", Some("s1")),
        media("f1", "Episode", Some("s2")),
        media("f2", "Episode", Some("s2")),
        media("g1", "Episode", Some("s3")),
    ];
    let episodes = || {
        vec![
            episode("e1", Some("x"), Some("s1"), 1, 8),
            episode("e2", Some("x"), Some("s1"), 1, 4),
            episode("f1", Some("x"), Some("s2"), 2, 2),
            episode("f2", Some("x"), Some("s2"), 2, 1),
        ]
    };
    assert_eq!(shape(&group_items(&all, episodes())), vec!["season:e1,e2", "season:f1,f2"]);
    assert_eq!(shape(&group_items(&all[..8], episodes())), vec!["series:e1,e2,f1,f2"]);
    let mut special = all;
    special[8] = media("g1", "Episode", Some("x"));
    assert_eq!(shape(&group_items(&special, episodes())), vec!["season:e1,e2", "season:f1,f2"]);
}

#[test]
fn an_episode_without_series_stands_alone() {
    let groups = group_items(
        &[],
        vec![
            episode("e1", Some("x"), Some("s1"), 1, 20),
            episode("e2", Some("x"), Some("s1"), 1, 10),
            episode("e3", None, Some("s1"), 1, 7),
            episode("e4", None, Some("s2"), 1, 6),
            episode("e5", None, None, 1, 5),
        ],
    );
    assert_eq!(shape(&groups), vec!["season:e1,e2", "item:e3", "item:e4", "item:e5"]);
}

#[test]
fn an_episode_without_season_stands_alone() {
    let groups = group_items(
        &[],
        vec![
            episode("e1", Some("x"), Some("s1"), 1, 1),
            episode("e2", Some("x"), Some("s1"), 1, 1),
            episode("f1", Some("x"), Some("s2"), 2, 1),
            episode("f2", Some("x"), Some("s2"), 2, 1),
            episode("special", Some("x"), None, 0, 100),
        ],
    );
    assert_eq!(shape(&groups), vec!["item:special", "series:e1,e2,f1,f2"]);
}

#[test]
fn a_season_counts_for_every_series_that_its_episodes_name() {
    let groups = group_items(
        &[],
        vec![
            episode("x", Some("B"), Some("q"), 1, 1),
            episode("y", Some("A"), Some("q"), 1, 1),
            episode("z", Some("A"), Some("r"), 2, 1),
            episode("w", Some("A"), Some("r"), 2, 1),
        ],
    );
    assert_eq!(shape(&groups), vec!["series:x,y,z,w"]);
    assert_eq!(groups[0].display_name(), "A show (2 seasons, 4 episodes, 4 B)");
}

#[test]
fn a_shared_season_goes_to_the_first_series() {
    let groups = group_items(
        &[],
        vec![
            episode("e1", Some("x"), Some("s1"), 1, 1),
            episode("e2", Some("y"), Some("s1"), 1, 1),
            episode("f1", Some("x"), Some("s2"), 2, 1),
            episode("f2", Some("x"), Some("s2"), 2, 1),
            episode("g1", Some("y"), Some("s3"), 3, 1),
            episode("g2", Some("y"), Some("s3"), 3, 1),
        ],
    );
    assert_eq!(shape(&groups), vec!["series:e1,e2,f1,f2", "series:g1,g2"]);
}

#[test]
fn a_series_that_is_left_no_season_is_no_group() {
    let groups = group_items(
        &[],
        vec![
            episode("e1", Some("x"), Some("s1"), 1, 1),
            episode("e2", Some("y"), Some("s1"), 1, 1),
            episode("f1", Some("x"), Some("s2"), 2, 1),
            episode("f2", Some("y"), Some("s2"), 2, 1),
        ],
    );
    assert_eq!(shape(&groups), vec!["series:e1,e2,f1,f2"]);
}

#[test]
fn every_item_is_in_one_group() {
    let mut deletable = Vec::new();
    let mut all = Vec::new();
    for n in 0..60u64 {
        let id = format!("i{}", n);
        let season = format!("s{}", n % 9);
        let series = format!("x{}", n % 9 % 3);
        all.push(media(&id, "Episode", Some(season.as_str())));
        deletable.push(match n % 7 {
            0 => matched(&id, n),
            1 => episode(&id, Some(series.as_str()), None, 1, n),
            2 => episode(&id, None, Some(season.as_str()), 1, n),
            _ => episode(&id, Some(series.as_str()), Some(season.as_str()), 1, n),
        });
    }
    all.push(media("stays", "Episode", Some("s4")));
    let mut expected: Vec<String> = deletable.iter().map(|i| i.id.clone()).collect();
    let groups = group_items(&all, deletable);
    assert_eq!(count_items(&groups), 60);
    let mut found: Vec<String> = groups.iter().flat_map(ids).collect();
    expected.sort();
    found.sort();
    assert_eq!(found, expected);
    let kinds = |kind: &str| shape(&groups).iter().filter(|s| s.starts_with(kind)).count();
    assert_eq!(kinds("series"), 2);
    assert_eq!(kinds("season"), 2);
}

#[test]
fn a_group_is_called_after_the_first_name() {
    let mut first = episode("e1", Some("x"), Some("s1"), 1, 1);
    first.series_name = None;
    first.season_number = None;
    let second = episode("e2", Some("x"), Some("s1"), 3, 1);
    let third = episode("f1", Some("x"), Some("s2"), 3, 1);
    let fourth = episode("f2", Some("x"), Some("s2"), 4, 1);
    let groups = group_items(&[], vec![first, second, third, fourth]);
    let names: Vec<String> = groups.iter().map(|g| g.display_name()).collect();
    assert_eq!(
        names,
        vec![
            "x show (2 seasons, 4 episodes, 4 B)",
        ]
    );
}

#[test]
fn a_season_without_names_is_nameless() {
    let nameless = |id: &str| MatchedItem {
        series_name: None,
        season_number: None,
        ..episode(id, Some("x"), Some("s1"), 1, 1)
    };
    let groups = group_items(&[], vec![nameless("e1"), nameless("e2")]);
    assert_eq!(groups.len(), 1);
    assert_eq!(groups[0].display_name(), " - Season 0 (2 episodes, 2 B)");
}

#[test]
fn sizes_of_groups_may_exceed_a_word() {
    let groups = group_items(
        &[],
        vec![
            episode("e1", Some("x"), Some("s1"), 1, u64::MAX),
            episode("e2", Some("x"), Some("s1"), 1, u64::MAX),
        ],
    );
    assert_eq!(shape(&groups), vec!["season:e1,e2"]);
    assert_eq!(groups[0].total_size(), 2 * (u64::MAX as u128));
}

#[test]
fn display_names_have_series_season_and_episode() {
    let mut e = episode("e", Some("x"), Some("s"), 3, 1);
    e.episode_number = Some(12);
    assert_eq!(format_display_name(&e), "x show - S03E12 - e name");
    e.season_number = Some(123);
    e.episode_number = Some(0);
    assert_eq!(format_display_name(&e), "x show - S123E00 - e name");
    e.episode_number = None;
    assert_eq!(format_display_name(&e), "e name");
    assert_eq!(format_display_name(&matched("m", 1)), "m name");
}

#[test]
fn groups_are_called_by_what_they_hold() {
    let item = GroupedItem::Individual(matched("m", 1));
    assert_eq!(item.display_name(), "m name");
    let season = GroupedItem::Season {
        series_name: "Show".to_string(),
        season_number: 2,
        items: vec![matched("a", 1024), matched("b", 1024)],
    };
    assert_eq!(season.display_name(), "Show - Season 2 (2 episodes, 2.00 KB)");
    let series = GroupedItem::Series {
        series_name: "Show".to_string(),
        total_episodes: 7,
        seasons: vec![1, 2, 3],
        items: vec![matched("a", 500), matched("b", 13)],
    };
    assert_eq!(series.display_name(), "Show (3 seasons, 7 episodes, 513 B)");
    assert_eq!(series.total_size(), 513);
    let copy = series.clone();
    assert_eq!(copy.display_name(), series.display_name());
    assert_eq!(ids(&copy), vec!["a", "b"]);
}
