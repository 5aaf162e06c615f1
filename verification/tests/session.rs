//! Arguments, requests, picking, asking and deleting.

use media_purger::api::authorization;
use media_purger::api::check_response;
use media_purger::api::deletion_context;
use media_purger::api::describe_failure;
use media_purger::api::handle_api_error;
use media_purger::api::item_url;
use media_purger::api::items_url;
use media_purger::api::users_url;
use media_purger::config::resolve_config;
use media_purger::config::Arguments;
use media_purger::config::ConfigError;
use media_purger::config::Mode;
use media_purger::confirm::confirmation_lines;
use media_purger::confirm::confirmation_question;
use media_purger::confirm::is_yes;
use media_purger::deletion::Action;
use media_purger::deletion::DeletionRun;
use media_purger::display::count_items;
use media_purger::model::GroupedItem;
use media_purger::model::MatchedItem;
use media_purger::model::MediaItem;
use media_purger::paging::Fetch;
use media_purger::paging::Listing;
use media_purger::picker::make_row;
use media_purger::picker::KeyPress;
use media_purger::picker::Outcome;
use media_purger::picker::Picker;
use media_purger::time::parse_date;

fn arguments() -> Arguments {
    Arguments {
        jellyfin_url: "http://server".to_string(),
        jellyfin_api_key: "key".to_string(),
        watched_by: Vec::new(),
        protected_by: Vec::new(),
        interactive: false,
        delete: false,
        ignore_favorites: false,
        min_days_watched_ago: None,
    }
}

fn thing(id: &str, kind: &str) -> MatchedItem {
    MatchedItem {
        id: id.to_string(),
        name: format!("{} name", id),
        item_type: kind.to_string(),
        path: String::new(),
        last_played_date: None,
        played_by: Vec::new(),
        protected_by: Vec::new(),
        size: 1024,
        series_name: None,
        season_number: None,
        episode_number: None,
        series_id: None,
        season_id: None,
    }
}

fn part(id: &str, season: Option<u32>, episode: u32) -> MatchedItem {
    MatchedItem {
        series_name: Some("Show".to_string()),
        season_number: season,
        episode_number: Some(episode),
        ..thing(id, "Episode")
    }
}

fn some_groups() -> Vec<GroupedItem> {
    vec![
        GroupedItem::Individual(thing("m", "Movie")),
        GroupedItem::Season {
            series_name: "Show".to_string(),
            season_number: 1,
            items: vec![part("e1", Some(1), 1), part("e2", Some(1), 2)],
        },
        GroupedItem::Series {
            series_name: "Show".to_string(),
            total_episodes: 2,
            seasons: vec![2, 1],
            items: vec![part("f1", Some(2), 1), part("f2", Some(1), 3)],
        },
    ]
}

fn page(count: usize) -> Vec<MediaItem> {
    (0..count)
        .map(|n| MediaItem {
            id: n.to_string(),
            name: String::new(),
            item_type: "Movie".to_string(),
            path: None,
            parent_id: None,
            index_number: None,
            parent_index_number: None,
            last_played_date: None,
            user_data: None,
            media_sources: None,
        })
        .collect()
}

#[test]
fn the_command_line_comes_before_the_environment() {
    let config = resolve_config(
        Arguments {
            watched_by: vec!["alice".to_string()],
            min_days_watched_ago: Some(30),
            ignore_favorites: true,
            ..arguments()
        },
        Some("http://other".to_string()),
        None,
    )
    .unwrap();
    assert_eq!(config.base_url, "http://server");
    assert_eq!(config.api_key, "key");
    assert_eq!(config.watched_by, vec!["alice"]);
    assert!(config.protected_by.is_empty());
    assert_eq!(config.min_days_watched_ago, Some(30));
    assert!(config.ignore_favorites && !config.delete && !config.interactive);
}

#[test]
fn the_environment_fills_in() {
    let bare = Arguments { jellyfin_url: String::new(), jellyfin_api_key: String::new(), ..arguments() };
    let config =
        resolve_config(bare, Some("http://other".to_string()), Some("secret".to_string())).unwrap();
    assert_eq!(config.base_url, "http://other");
    assert_eq!(config.api_key, "secret");
}

#[test]
fn a_url_is_needed() {
    let bare = Arguments { jellyfin_url: String::new(), jellyfin_api_key: String::new(), ..arguments() };
    let error = resolve_config(bare, None, None).unwrap_err();
    assert_eq!(error, ConfigError::NoUrl);
    assert_eq!(
        error.message(),
        "Error: No Jellyfin URL provided. Use --jellyfin-url or JELLYFIN_URL"
    );
}

#[test]
fn a_key_is_needed() {
    let bare = Arguments { jellyfin_api_key: String::new(), ..arguments() };
    let error = resolve_config(bare, None, None).unwrap_err();
    assert_eq!(error, ConfigError::NoApiKey);
    assert_eq!(
        error.message(),
        "Error: No API key provided. Use --jellyfin-api-key or JELLYFIN_API_KEY"
    );
}

#[test]
fn deleting_and_picking_exclude_each_other() {
    let both = Arguments {
        delete: true,
        interactive: true,
        ignore_favorites: true,
        protected_by: vec!["bob".to_string()],
        ..arguments()
    };
    let error = resolve_config(both, None, None).unwrap_err();
    assert_eq!(error, ConfigError::DeleteInteractively);
    assert_eq!(
        error.message(),
        "Error: --delete-watched-but-not-favourited-yes-i-am-really-sure cannot be used with --interactive"
    );
}

#[test]
fn ignoring_and_protecting_exclude_each_other() {
    let both = Arguments {
        ignore_favorites: true,
        protected_by: vec!["bob".to_string()],
        ..arguments()
    };
    let error = resolve_config(both, None, None).unwrap_err();
    assert_eq!(error, ConfigError::ProtectorsIgnored);
    assert_eq!(error.message(), "Error: --ignore-favorites cannot be used with --protected-by");
}

#[test]
fn nothing_is_deleted_by_default() {
    let mut config = resolve_config(arguments(), None, None).unwrap();
    assert_eq!(config.mode(), Mode::Report);
    config.interactive = true;
    assert_eq!(config.mode(), Mode::Pick);
    config.interactive = false;
    config.delete = true;
    assert_eq!(config.mode(), Mode::Delete);
}

#[test]
fn who_counts_is_put_in_words() {
    let mut config = resolve_config(arguments(), None, None).unwrap();
    assert_eq!(config.watchers(), "all users");
    assert_eq!(config.protectors(), "anyone");
    config.watched_by = vec!["alice".to_string(), "bob".to_string()];
    config.protected_by = vec!["carol".to_string()];
    assert_eq!(config.watchers(), "alice, bob");
    assert_eq!(config.protectors(), "carol");
    config.ignore_favorites = true;
    assert_eq!(config.protectors(), "none (ignoring favorites)");
}

#[test]
fn the_key_stands_in_a_header() {
    assert_eq!(authorization("abc"), Some("MediaBrowser Token=\"abc\"".to_string()));
    assert_eq!(authorization("a\tü"), Some("MediaBrowser Token=\"a\tü\"".to_string()));
    assert_eq!(authorization(""), Some("MediaBrowser Token=\"\"".to_string()));
    assert_eq!(authorization("a\nb"), None);
    assert_eq!(authorization("\u{7f}"), None);
    assert_eq!(authorization("\0"), None);
}

#[test]
fn failures_are_told_apart() {
    assert_eq!(
        handle_api_error(401, "Failed"),
        "Failed: Authentication failed (401). Check your API key."
    );
    assert_eq!(
        handle_api_error(403, "Failed"),
        "Failed: Permission denied (403). User may not have delete permission."
    );
    assert_eq!(handle_api_error(404, "Failed"), "Failed: Item not found (404).");
    assert_eq!(handle_api_error(500, "Failed"), "Failed: Server error (500 Internal Server Error)");
    assert_eq!(handle_api_error(418, "Failed"), "Failed: Client error (418 I'm a teapot)");
    assert_eq!(handle_api_error(302, "Failed"), "Failed: Unknown error (302 Found)");
    assert_eq!(handle_api_error(599, "Failed"), "Failed: Server error (599 <unknown status code>)");
    assert_eq!(handle_api_error(600, "Failed"), "Failed: Unknown error (600 <unknown status code>)");
    assert_eq!(describe_failure(503, "busy", "Failed"), "Failed: Server error (busy)");
    assert_eq!(describe_failure(400, "bad", "Failed"), "Failed: Client error (bad)");
}

#[test]
fn replies_with_success_are_accepted() {
    assert_eq!(check_response(200, "x"), Ok(()));
    assert_eq!(check_response(299, "x"), Ok(()));
    assert_eq!(check_response(300, "x"), Err("x: Unknown error (300 Multiple Choices)".to_string()));
    assert_eq!(check_response(199, "x"), Err("x: Unknown error (199 <unknown status code>)".to_string()));
    assert_eq!(check_response(404, "x"), Err("x: Item not found (404).".to_string()));
}

#[test]
fn requests_go_where_they_should() {
    assert_eq!(users_url("http://s"), "http://s/Users");
    assert_eq!(
        items_url("http://s"),
        "http://s/Items?Recursive=true&Fields=Path,UserData,MediaSources,Size,ParentId,SeasonName,IndexNumber,ParentIndexNumber"
    );
    assert_eq!(item_url("http://s", "42"), "http://s/Items/42");
    assert_eq!(deletion_context("42"), "Failed to delete item 42");
}

#[test]
fn pages_are_fetched_until_one_is_not_full() {
    let mut fetch = Fetch::new(Listing::Played, "http://s", "u");
    assert_eq!(
        fetch.url(),
        "http://s/Items?userId=u&IsPlayed=true&Recursive=true&Fields=Path,MediaSources,UserData,Size&startIndex=0&limit=500"
    );
    assert_eq!(fetch.context(), "Failed to fetch played items");
    assert!(!fetch.is_complete());
    fetch.receive(page(500));
    assert!(!fetch.is_complete());
    fetch.receive(page(500));
    assert!(!fetch.is_complete());
    assert!(fetch.url().ends_with("&startIndex=1000&limit=500"));
    fetch.receive(page(3));
    assert!(fetch.is_complete());
    let items = fetch.into_items();
    assert_eq!(items.len(), 1003);
    assert_eq!(items[499].id, "499");
    assert_eq!(items[500].id, "0");
}

#[test]
fn favorites_are_fetched_alike() {
    let mut fetch = Fetch::new(Listing::Favorites, "http://s", "u");
    assert_eq!(
        fetch.url(),
        "http://s/Items?userId=u&IsFavorite=true&Recursive=true&startIndex=0&limit=500"
    );
    assert_eq!(fetch.context(), "Failed to fetch favorite items");
    fetch.receive(page(0));
    assert!(fetch.is_complete());
    assert!(fetch.into_items().is_empty());
}

#[test]
fn rows_are_marked_and_unmarked() {
    let mut picker = Picker::new(3);
    assert_eq!(picker.handle_key(KeyPress::Char(' ')), Outcome::Continue);
    picker.handle_key(KeyPress::Down);
    picker.handle_key(KeyPress::Char('j'));
    picker.handle_key(KeyPress::Char(' '));
    assert!(picker.is_marked(0) && !picker.is_marked(1) && picker.is_marked(2));
    assert_eq!(picker.count_marked(), 2);
    picker.handle_key(KeyPress::Char(' '));
    assert!(!picker.is_marked(2));
    picker.handle_key(KeyPress::Char(' '));
    let chosen = picker.pick(&some_groups());
    assert_eq!(chosen.len(), 2);
    assert_eq!(chosen[0].items()[0].id, "m");
    assert_eq!(chosen[1].items()[0].id, "f1");
}

#[test]
fn the_cursor_stops_at_the_ends() {
    let mut picker = Picker::new(45);
    picker.handle_key(KeyPress::Up);
    assert_eq!(picker.cursor(), 0);
    picker.handle_key(KeyPress::Char('f'));
    assert_eq!(picker.cursor(), 20);
    picker.handle_key(KeyPress::PageDown);
    assert_eq!(picker.cursor(), 40);
    picker.handle_key(KeyPress::PageDown);
    assert_eq!(picker.cursor(), 44);
    picker.handle_key(KeyPress::Down);
    assert_eq!(picker.cursor(), 44);
    picker.handle_key(KeyPress::Char('k'));
    assert_eq!(picker.cursor(), 43);
    picker.handle_key(KeyPress::Char('b'));
    assert_eq!(picker.cursor(), 23);
    picker.handle_key(KeyPress::PageUp);
    assert_eq!(picker.cursor(), 3);
    picker.handle_key(KeyPress::PageUp);
    assert_eq!(picker.cursor(), 0);
    picker.handle_key(KeyPress::Char('G'));
    assert_eq!(picker.cursor(), 44);
    picker.handle_key(KeyPress::Char('g'));
    assert_eq!(picker.cursor(), 0);
    picker.handle_key(KeyPress::End);
    assert_eq!(picker.cursor(), 44);
    picker.handle_key(KeyPress::Home);
    assert_eq!(picker.cursor(), 0);
    picker.handle_key(KeyPress::Other);
    picker.handle_key(KeyPress::Char('x'));
    assert_eq!(picker.cursor(), 0);
    assert_eq!(picker.count_marked(), 0);
}

#[test]
fn picking_ends_with_enter_or_quits() {
    let mut picker = Picker::new(1);
    assert_eq!(picker.handle_key(KeyPress::Enter), Outcome::Confirmed);
    assert_eq!(picker.handle_key(KeyPress::Esc), Outcome::Cancelled);
    assert_eq!(picker.handle_key(KeyPress::Char('q')), Outcome::Cancelled);
    assert!(picker.pick(&some_groups()[..1]).is_empty());
}

#[test]
fn any_key_closes_the_help() {
    let mut picker = Picker::new(2);
    assert_eq!(picker.status_line(), " Selected: 0 | 1/2 | ? for help ");
    picker.handle_key(KeyPress::Char('?'));
    assert!(picker.is_help_shown());
    assert_eq!(picker.status_line(), " Selected: 0 | 1/2 (press any key) ");
    assert_eq!(picker.handle_key(KeyPress::Char('q')), Outcome::Continue);
    assert!(!picker.is_help_shown());
    picker.handle_key(KeyPress::Char('?'));
    picker.handle_key(KeyPress::Char(' '));
    assert_eq!(picker.count_marked(), 0);
    assert_eq!(picker.cursor(), 0);
}

#[test]
fn without_rows_some_keys_make_no_sense() {
    let mut picker = Picker::new(0);
    assert_eq!(picker.status_line(), " Selected: 0 | 1/0 | ? for help ");
    for key in [KeyPress::Char(' '), KeyPress::Down, KeyPress::Char('f'), KeyPress::PageDown] {
        assert!(!picker.takes(key));
    }
    for key in [KeyPress::Up, KeyPress::End, KeyPress::Home, KeyPress::PageUp, KeyPress::Enter] {
        assert!(picker.takes(key));
        picker.handle_key(key);
        assert_eq!(picker.cursor(), 0);
    }
    picker.handle_key(KeyPress::Char('?'));
    assert!(picker.takes(KeyPress::Down));
    assert!(Picker::new(1).takes(KeyPress::Down));
}

#[test]
fn rows_show_the_groups() {
    let now = parse_date("2024-03-10T12:00:00Z").unwrap();
    let mut film = thing("m", "Movie");
    film.last_played_date = Some("2024-03-09T00:00:00Z".to_string());
    let row = make_row(&GroupedItem::Individual(film), true, now);
    assert_eq!(row.checkbox, "[x]");
    assert_eq!(row.name, "m name");
    assert_eq!(row.kind, "Movie");
    assert_eq!(row.size, "1.00 KB");
    assert_eq!(row.last_played, "Yesterday");
    let groups = some_groups();
    let row = make_row(&groups[1], false, now);
    assert_eq!(row.checkbox, "[ ]");
    assert_eq!(row.name, "Show - Season 1 (2 episodes, 2.00 KB)");
    assert_eq!(row.kind, "Season");
    assert_eq!(row.size, "2.00 KB");
    assert_eq!(row.last_played, "Never");
    assert_eq!(make_row(&groups[2], false, now).kind, "Series");
    let empty = GroupedItem::Season { series_name: String::new(), season_number: 0, items: Vec::new() };
    assert_eq!(make_row(&empty, false, now).last_played, "Never");
}

#[test]
fn the_items_are_listed_before_the_question() {
    let lines = confirmation_lines(&some_groups());
    assert_eq!(
        lines,
        vec![
            "[Episode] Show - S01E01 - e1 name",
            "[Episode] Show - S01E02 - e2 name",
            "[Episode] Show - S01E03 - f2 name",
            "[Episode] Show - S02E01 - f1 name",
            "[Movie] m name",
        ]
    );
    assert_eq!(lines.len() as u128, count_items(&some_groups()));
    assert_eq!(confirmation_question(5, 3), "\nDelete 5 items (3 groups)? (y/N) ");
}

#[test]
fn episodes_of_a_series_without_number_are_not_listed() {
    let series = GroupedItem::Series {
        series_name: "Show".to_string(),
        total_episodes: 2,
        seasons: vec![1],
        items: vec![part("a", Some(1), 1), part("b", None, 2)],
    };
    assert_eq!(confirmation_lines(&[series]), vec!["[Episode] Show - S01E01 - a name"]);
}

#[test]
fn only_a_y_means_yes() {
    for yes in ["y", "Y", " y\n", "\ty \r\n", "\u{3000}Y\u{a0}"] {
        assert!(is_yes(yes));
    }
    for no in ["", "\n", "n", "yes", "y y", "yn", "ÿ", "\u{200b}y", " "] {
        assert!(!is_yes(no));
    }
    for code in 0..0x3100u32 {
        if let Some(c) = char::from_u32(code) {
            let answer = format!("{}y{}", c, c);
            assert_eq!(is_yes(&answer), answer.trim().eq_ignore_ascii_case("y"));
        }
    }
}

#[test]
fn a_run_deletes_item_by_item() {
    let mut run = DeletionRun::new(&some_groups());
    let mut log: Vec<String> = Vec::new();
    let mut requested: Vec<String> = Vec::new();
    let total = loop {
        match run.next_action() {
            Action::Say(line) => log.push(line),
            Action::Delete { id, notice } => {
                let failure = if id == "e2" { Some("gone".to_string()) } else { None };
                requested.push(id);
                let outcome = run.settle(failure);
                log.push(format!("{}{}", notice, outcome));
            }
            Action::Finish { deleted, summary } => {
                log.push(summary);
                break deleted;
            }
        }
    };
    assert_eq!(total, 4);
    assert_eq!(requested, vec!["m", "e1", "e2", "f1", "f2"]);
    assert_eq!(
        log,
        vec![
            "[1/5] Deleting [Movie] m name...\x1b[32m done\x1b[0m",
            "  Show - Season 1 (2 episodes)",
            "    [2/5] Deleting Show - S01E01 - e1 name...\x1b[32m done\x1b[0m",
            "    [3/5] Deleting Show - S01E02 - e2 name...\x1b[31m failed: gone\x1b[0m",
            "  Show (2 seasons, 2 episodes)",
            "    Season 2",
            "    Season 1",
            "      [4/5] Deleting Show - S02E01 - f1 name...\x1b[32m done\x1b[0m",
            "      [5/5] Deleting Show - S01E03 - f2 name...\x1b[32m done\x1b[0m",
            "\nDeleted 4 items",
        ]
    );
}

#[test]
fn a_run_without_groups_ends_at_once() {
    let mut run = DeletionRun::new(&[]);
    match run.next_action() {
        Action::Finish { deleted, summary } => {
            assert_eq!(deleted, 0);
            assert_eq!(summary, "\nDeleted 0 items");
        }
        _ => panic!("not over"),
    }
}

#[test]
fn without_failures_all_items_are_deleted() {
    let groups = some_groups();
    let mut run = DeletionRun::new(&groups);
    let total = loop {
        match run.next_action() {
            Action::Say(_) => {}
            Action::Delete { .. } => {
                assert_eq!(run.settle(None), "\x1b[32m done\x1b[0m");
            }
            Action::Finish { deleted, .. } => break deleted,
        }
    };
    assert_eq!(total as u128, count_items(&groups));
}
