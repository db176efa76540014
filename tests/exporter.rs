use mc_stats_exporter::args::{check_path, handle_args, ArgsError, LogLevel};
use mc_stats_exporter::cache::{next_update, SeriesKind, StatCache, Update};
use mc_stats_exporter::error::ExportError;
use mc_stats_exporter::json::{find_member, parse_json, JsonPlain};
use mc_stats_exporter::names::NameCache;
use mc_stats_exporter::player::Player;
use mc_stats_exporter::project::{project, Observation};
use mc_stats_exporter::series::{Metric, ScalarField, SeriesKey};
use mc_stats_exporter::stats::{
    get_category_metadata, remove_prefix, stat_categories, NbtStats, StatCategory, StatValue, Stats,
};
use mc_stats_exporter::track::{track_for_player, track_players};

fn nbt() -> NbtStats {
    NbtStats { xp_total: 100, xp_level: 101, score: 102, health: 10, food_level: 10 }
}

fn mock_player(id: u32) -> Player {
    let stats = Stats::from(String::from("{\"stats\": {\"minecraft:testo\": 42}}")).unwrap();
    Player::new(format!("{}", id), format!("name-{}", id), stats, nbt())
}

fn player_with(id: &str, name: &str, json: &str, nbt_stats: NbtStats) -> Player {
    Player::from_sources(String::from(id), String::from(name), String::from(json), nbt_stats).unwrap()
}

fn stat_key(player: &Player, category: StatCategory, type_key: &str) -> SeriesKey {
    SeriesKey { player_id: player.uuid.clone(), metric: Metric::Stat(category, String::from(type_key)) }
}

fn scalar_key(player: &Player, field: ScalarField) -> SeriesKey {
    SeriesKey { player_id: player.uuid.clone(), metric: Metric::Scalar(field) }
}

fn find_obs<'a>(obs: &'a [Observation], name: &str, type_label: Option<&str>) -> Option<&'a Observation> {
    obs.iter().find(|o| {
        o.key.metadata().0 == name && o.key.type_label().as_deref() == type_label
    })
}

#[test]
fn should_remove_prefix() {
    let category = StatCategory::Broken;

    let (actual, _) = get_category_metadata(&category);
    let expected = String::from("mc_broken");

    assert_eq!(actual, expected);
}

#[test]
fn category_metadata_help_text() {
    let (name, help) = get_category_metadata(&StatCategory::PickedUp);
    assert_eq!(name, "mc_picked_up");
    assert_eq!(help, "collected stats for category `picked_up`");
}

#[test]
fn category_identifiers() {
    assert_eq!(StatCategory::KilledBy.to_string(), "minecraft:killed_by");
    let all = stat_categories();
    assert_eq!(all.len(), 9);
    assert_eq!(all[0], StatCategory::Mined);
    assert_eq!(all[8], StatCategory::Killed);
}

#[test]
fn remove_prefix_strips_ten_characters() {
    assert_eq!(remove_prefix(&String::from("minecraft:stone")), "stone");
    assert_eq!(remove_prefix(&String::from("short")), "");
}

#[test]
fn gauge_should_update_existing_stat() {
    let player = mock_player(1);
    let mut cache = StatCache::new();
    cache.set_gauge(&player, ScalarField::XpLevel, 2);

    let applied = cache.set_gauge(&player, ScalarField::XpLevel, 5);

    assert!(!applied.created);
    assert_eq!(applied.update, Update::Assign(5));
    assert_eq!(cache.last_value(&scalar_key(&player, ScalarField::XpLevel)), Some(5));
}

#[test]
fn gauge_should_insert_new_stat() {
    let player = mock_player(1);
    let mut cache = StatCache::new();
    cache.set_gauge(&mock_player(999999), ScalarField::XpLevel, 1337);

    let applied = cache.set_gauge(&player, ScalarField::XpLevel, 2);

    assert!(applied.created);
    assert_eq!(applied.handle, 1);
    assert_eq!(cache.last_value(&scalar_key(&player, ScalarField::XpLevel)), Some(2));
}

#[test]
fn stat_cache_should_update_existing_stat() {
    let player = mock_player(1);
    let category = StatCategory::Crafted;
    let category_type = String::from("minecraft:test1");
    let mut cache = StatCache::new();
    cache.set_counter(&player, &category, &category_type, 2);

    cache.set_counter(&player, &category, &category_type, 5);

    let key = stat_key(&player, category, "minecraft:test1");
    assert_eq!(cache.last_value(&key), Some(5));
}

#[test]
fn stat_cache_should_insert_new_stat() {
    let mut cache = StatCache::new();
    cache.set_counter(&mock_player(999999), &StatCategory::KilledBy, &String::from("some_type"), 10);

    let player = mock_player(1);
    let category = StatCategory::Crafted;
    let category_type = String::from("minecraft:test2");
    let applied = cache.set_counter(&player, &category, &category_type, 2);

    assert!(applied.created);
    assert_eq!(applied.update, Update::Add(2));
    let key = stat_key(&player, category, "minecraft:test2");
    assert_eq!(cache.last_value(&key), Some(2));
}

#[test]
fn equal_keys_share_one_series() {
    let player = mock_player(7);
    let mut cache = StatCache::new();
    let key = stat_key(&player, StatCategory::Mined, "minecraft:stone");
    let first = cache.apply(&key, 3);
    let second = cache.apply(&key.duplicate(), 4);
    assert!(first.created);
    assert!(!second.created);
    assert_eq!(first.handle, second.handle);
    assert_eq!(cache.len(), 1);
    assert_eq!(cache.find(&key), Some(0));
}

#[test]
fn renamed_player_keeps_its_series() {
    let mut cache = StatCache::new();
    let before = player_with("abc", "Alice", "{\"stats\": {}}", nbt());
    let after = player_with("abc", "Alicia", "{\"stats\": {}}", nbt());
    track_for_player(&mut cache, &before).unwrap();
    let outcome = track_for_player(&mut cache, &after).unwrap();
    assert_eq!(cache.len(), 5);
    assert!(outcome.applied.iter().all(|a| !a.created));
    assert!(outcome.observations.iter().all(|o| o.player_name == "Alicia"));
}

#[test]
fn counter_delta_follows_absolute_values() {
    let player = mock_player(1);
    let mut cache = StatCache::new();
    let key = stat_key(&player, StatCategory::Used, "minecraft:bow");
    assert_eq!(cache.apply(&key, 10).update, Update::Add(10));
    assert_eq!(cache.apply(&key, 15).update, Update::Add(5));
    assert_eq!(cache.last_value(&key), Some(15));
}

#[test]
fn counter_decrease_is_rejected() {
    let player = mock_player(1);
    let mut cache = StatCache::new();
    let key = stat_key(&player, StatCategory::Used, "minecraft:bow");
    cache.apply(&key, 15);
    let rejected = cache.apply(&key, 9);
    assert_eq!(rejected.update, Update::Rejected { last: 15, value: 9 });
    assert_eq!(cache.last_value(&key), Some(15));
    assert_eq!(cache.apply(&key, 20).update, Update::Add(5));
    assert_eq!(cache.last_value(&key), Some(20));
}

#[test]
fn gauge_may_go_down() {
    assert_eq!(next_update(SeriesKind::Gauge, 20, 7), (Update::Assign(7), 7));
    assert_eq!(next_update(SeriesKind::Counter, 20, 7), (Update::Rejected { last: 20, value: 7 }, 20));
    assert_eq!(next_update(SeriesKind::Counter, 7, 20), (Update::Add(13), 20));
}

#[test]
fn missing_category_yields_nothing() {
    let player = player_with(
        "p",
        "Bob",
        "{\"stats\": {\"minecraft:mined\": {\"minecraft:dirt\": 3}}}",
        nbt(),
    );
    assert!(player.stats.get_stat(&StatCategory::Broken).is_none());
    let obs = project(&player).unwrap();
    assert!(obs.iter().all(|o| !matches!(o.key.metric, Metric::Stat(StatCategory::Broken, _))));
    assert_eq!(obs.len(), 6);
}

#[test]
fn empty_category_is_present() {
    let player = player_with("p", "Bob", "{\"stats\": {\"minecraft:broken\": {}}}", nbt());
    assert_eq!(player.stats.get_stat(&StatCategory::Broken).map(|v| v.len()), Some(0));
}

#[test]
fn five_scalars_regardless_of_stats() {
    let empty = player_with("p", "Bob", "{\"stats\": {}}", nbt());
    let full = player_with(
        "q",
        "Eve",
        "{\"stats\": {\"minecraft:mined\": {\"minecraft:dirt\": 3, \"minecraft:stone\": 4}, \"minecraft:killed\": {\"minecraft:zombie\": 1}}}",
        nbt(),
    );
    for player in [&empty, &full] {
        let obs = project(player).unwrap();
        let scalars = obs.iter().filter(|o| matches!(o.key.metric, Metric::Scalar(_))).count();
        assert_eq!(scalars, 5);
    }
    assert_eq!(project(&full).unwrap().len(), 8);
}

#[test]
fn non_numeric_leaf_fails_projection() {
    let player = player_with(
        "p",
        "Bob",
        "{\"stats\": {\"minecraft:used\": {\"minecraft:bow\": \"many\"}}}",
        nbt(),
    );
    assert!(matches!(project(&player), Err(ExportError::NonNumericValue)));
    let mut cache = StatCache::new();
    assert!(matches!(track_for_player(&mut cache, &player), Err(ExportError::NonNumericValue)));
    assert_eq!(cache.len(), 0);
}

#[test]
fn malformed_stats_file_is_a_parse_failure() {
    let bad = Player::from_sources(String::from("p"), String::from("Bob"), String::from("{not json"), nbt());
    assert!(matches!(bad, Err(ExportError::ParseFailure)));
    let no_stats = Stats::from(String::from("{\"other\": 1}"));
    assert!(matches!(no_stats, Err(ExportError::ParseFailure)));
}

#[test]
fn stats_tree_reads_counts() {
    let stats = Stats::from(String::from(
        "{\"stats\": {\"minecraft:crafted\": {\"minecraft:torch\": 64, \"minecraft:bad\": -1}}}",
    ))
    .unwrap();
    let crafted = stats.get_stat(&StatCategory::Crafted).unwrap();
    assert_eq!(crafted.len(), 2);
    let torch = crafted.iter().find(|e| e.type_key == "minecraft:torch").unwrap();
    assert_eq!(torch.value, StatValue::Count(64));
    let bad = crafted.iter().find(|e| e.type_key == "minecraft:bad").unwrap();
    assert_eq!(bad.value, StatValue::NotANumber);
}

#[test]
fn set_stat_replaces_equal_keys() {
    let mut stats = Stats::new();
    stats.set_stat(StatCategory::Dropped, String::from("minecraft:egg"), StatValue::Count(1));
    stats.set_stat(StatCategory::Dropped, String::from("minecraft:egg"), StatValue::Count(2));
    let dropped = stats.get_stat(&StatCategory::Dropped).unwrap();
    assert_eq!(dropped.len(), 1);
    assert_eq!(dropped[0].value, StatValue::Count(2));
}

#[test]
fn name_cache_hit_needs_no_lookup() {
    let mut names = NameCache::new();
    let id = String::from("abc");
    assert_eq!(names.lookup(&id), None);
    assert_eq!(names.finish_lookup(id.clone(), Some(String::from("Alice"))), Ok(String::from("Alice")));
    assert_eq!(names.lookup(&id), Some(String::from("Alice")));
}

#[test]
fn failed_lookup_is_not_cached() {
    let mut names = NameCache::new();
    let id = String::from("abc");
    assert_eq!(names.finish_lookup(id.clone(), None), Err(ExportError::NameNotFound));
    assert_eq!(names.lookup(&id), None);
    names.store(id.clone(), String::from("Old"));
    names.store(id.clone(), String::from("New"));
    assert_eq!(names.lookup(&id), Some(String::from("New")));
}

#[test]
fn malformed_player_does_not_stop_batch() {
    let first = Player::from_sources(String::from("one"), String::from("A"), String::from("{\"stats\": {}}"), nbt());
    let broken = Player::from_sources(String::from("two"), String::from("B"), String::from("{\"stats\": "), nbt());
    let third = Player::from_sources(String::from("three"), String::from("C"), String::from("{\"stats\": {}}"), nbt());
    let batch = vec![first, broken, third];
    let mut cache = StatCache::new();
    let outcomes = track_players(&mut cache, &batch);
    assert_eq!(outcomes.len(), 3);
    assert_eq!(outcomes[0].as_ref().map(|t| t.applied.len()).ok(), Some(5));
    assert!(matches!(outcomes[1], Err(ExportError::ParseFailure)));
    assert_eq!(outcomes[2].as_ref().map(|t| t.applied.len()).ok(), Some(5));
    assert_eq!(cache.len(), 10);
    let one = batch[0].as_ref().unwrap();
    let three = batch[2].as_ref().unwrap();
    assert_eq!(cache.last_value(&scalar_key(one, ScalarField::Score)), Some(102));
    assert_eq!(cache.last_value(&scalar_key(three, ScalarField::Score)), Some(102));
}

#[test]
fn rescrape_applies_nothing() {
    let player = player_with(
        "abc",
        "Alice",
        "{\"stats\": {\"minecraft:mined\": {\"minecraft:stone\": 42}}}",
        nbt(),
    );
    let mut cache = StatCache::new();
    track_for_player(&mut cache, &player).unwrap();
    let second = track_for_player(&mut cache, &player).unwrap();
    assert_eq!(second.applied.len(), 6);
    for a in &second.applied {
        assert!(!a.created);
        assert!(matches!(a.update, Update::Add(0) | Update::Assign(_)));
    }
    let key = stat_key(&player, StatCategory::Mined, "minecraft:stone");
    assert_eq!(cache.last_value(&key), Some(42));
}

#[test]
fn end_to_end_example() {
    let scalars = NbtStats { xp_total: 1, xp_level: 2, score: 100, health: 20, food_level: 18 };
    let first = player_with(
        "abc",
        "Alice",
        "{\"stats\": {\"minecraft:mined\": {\"minecraft:stone\": 42}}}",
        scalars,
    );
    let obs = project(&first).unwrap();
    let mined = find_obs(&obs, "mc_mined", Some("stone")).unwrap();
    assert_eq!(mined.player_name, "Alice");
    assert_eq!(mined.value, 42);
    let score = find_obs(&obs, "mc_score", None).unwrap();
    assert_eq!(score.player_name, "Alice");
    assert_eq!(score.value, 100);

    let mut cache = StatCache::new();
    track_for_player(&mut cache, &first).unwrap();
    let second = player_with(
        "abc",
        "Alice",
        "{\"stats\": {\"minecraft:mined\": {\"minecraft:stone\": 50}}}",
        scalars,
    );
    let outcome = track_for_player(&mut cache, &second).unwrap();
    assert_eq!(outcome.observations[0].value, 50);
    assert_eq!(outcome.applied[0].update, Update::Add(8));
    let key = stat_key(&second, StatCategory::Mined, "minecraft:stone");
    assert_eq!(cache.last_value(&key), Some(50));
}

#[test]
fn arguments_are_read() {
    assert_eq!(handle_args(vec![], true), Err(ArgsError::NoArguments));
    assert_eq!(handle_args(vec![String::from("/srv/world")], false), Err(ArgsError::NotADirectory));
    assert_eq!(
        handle_args(vec![String::from("/srv/world")], true),
        Ok((String::from("/srv/world"), LogLevel::Info))
    );
    assert_eq!(
        handle_args(vec![String::from("/srv/world"), String::from("DEBUG")], true),
        Ok((String::from("/srv/world"), LogLevel::Debug))
    );
    assert_eq!(
        handle_args(vec![String::from("/srv/world"), String::from("tRaCe"), String::from("x")], true),
        Ok((String::from("/srv/world"), LogLevel::Trace))
    );
    assert_eq!(
        handle_args(vec![String::from("/srv/world"), String::from("off")], true),
        Err(ArgsError::BadLogLevel)
    );
    assert_eq!(check_path(String::from("/tmp"), true), Ok(String::from("/tmp")));
}

fn object(members: Vec<(&str, JsonPlain)>) -> JsonPlain {
    JsonPlain::Object(members.into_iter().map(|(k, v)| (String::from(k), v)).collect())
}

#[test]
fn stats_from_parsed_document() {
    let doc = object(vec![(
        "stats",
        object(vec![
            ("minecraft:mined", object(vec![("minecraft:stone", JsonPlain::Number(Some(7)))])),
            ("minecraft:used", JsonPlain::Number(Some(3))),
            ("minecraft:killed", object(vec![("minecraft:cow", JsonPlain::Number(None))])),
        ]),
    )]);
    let stats = Stats::from_json(&doc).unwrap();
    let mined = stats.get_stat(&StatCategory::Mined).unwrap();
    assert_eq!(mined.len(), 1);
    assert_eq!(mined[0].type_key, "minecraft:stone");
    assert_eq!(mined[0].value, StatValue::Count(7));
    assert!(stats.get_stat(&StatCategory::Used).is_none());
    assert_eq!(stats.get_stat(&StatCategory::Killed).unwrap()[0].value, StatValue::NotANumber);
    assert_eq!(
        stats.absent_categories(),
        vec![
            StatCategory::Crafted,
            StatCategory::Broken,
            StatCategory::Custom,
            StatCategory::PickedUp,
            StatCategory::KilledBy,
            StatCategory::Used,
            StatCategory::Dropped,
        ]
    );
}

#[test]
fn document_without_stats_member_fails() {
    assert!(matches!(Stats::from_json(&object(vec![("other", JsonPlain::Null)])), Err(ExportError::ParseFailure)));
    assert!(matches!(Stats::from_json(&JsonPlain::Bool(true)), Err(ExportError::ParseFailure)));
    let null_stats = Stats::from_json(&object(vec![("stats", JsonPlain::Null)])).unwrap();
    assert_eq!(null_stats.absent_categories().len(), 9);
}

#[test]
fn plain_text_is_no_stats_file() {
    assert!(parse_json("not json").is_none());
    assert!(matches!(Stats::from(String::from("not json")), Err(ExportError::ParseFailure)));
    let bad = Player::from_sources(String::from("p"), String::from("Bob"), String::from("not json"), nbt());
    assert!(matches!(bad, Err(ExportError::ParseFailure)));
}

#[test]
fn empty_stats_object_parses() {
    let stats = Stats::from(String::from("{\"stats\": {}}")).unwrap();
    assert_eq!(stats.absent_categories().len(), 9);
}

#[test]
fn parsed_numbers_keep_whole_values() {
    let doc = parse_json("{\"a\": 42, \"b\": 1.5, \"c\": -1, \"d\": \"x\"}").unwrap();
    let JsonPlain::Object(ms) = &doc else { panic!("not an object") };
    assert!(matches!(find_member(ms, "a"), Some(JsonPlain::Number(Some(42)))));
    assert!(matches!(find_member(ms, "b"), Some(JsonPlain::Number(None))));
    assert!(matches!(find_member(ms, "c"), Some(JsonPlain::Number(None))));
    assert!(matches!(find_member(ms, "d"), Some(JsonPlain::Str(_))));
    assert!(find_member(ms, "e").is_none());
}

#[test]
fn later_member_wins() {
    let ms = vec![
        (String::from("k"), JsonPlain::Number(Some(1))),
        (String::from("k"), JsonPlain::Number(Some(2))),
    ];
    assert!(matches!(find_member(&ms, "k"), Some(JsonPlain::Number(Some(2)))));
}
