use poe_watcher::store::{
    GoldSplit, NewRun, NewSnapshot, NewSplit, PersonalBest, ReferenceRunData, ReferenceSplitData,
    Run, RunFilters, Snapshot, Split, Store,
};

fn new_run(name: &str, class: &str, started_at: &str) -> NewRun {
    NewRun {
        character_name: name.to_string(),
        account_name: "acct".to_string(),
        class: class.to_string(),
        ascendancy: None,
        league: "Standard".to_string(),
        category: "Campaign".to_string(),
        started_at: started_at.to_string(),
        breakpoint_preset: None,
        enabled_breakpoints: None,
    }
}

fn new_split(run_id: i64, name: &str, split_time_ms: i64) -> NewSplit {
    NewSplit {
        run_id,
        breakpoint_type: "zone".to_string(),
        breakpoint_name: name.to_string(),
        split_time_ms,
        delta_ms: None,
        segment_time_ms: split_time_ms,
        town_time_ms: 0,
        hideout_time_ms: 0,
    }
}

#[test]
fn insert_and_get_by_id() {
    let mut store = Store::new();
    let id = Run::insert(&mut store, &new_run("Foo", "Witch", "2024-01-15T12:00:00Z"));
    assert_eq!(id, 1);
    let run = Run::get_by_id(&store, id).expect("inserted run must be found");
    assert_eq!(run.character_name, "Foo");
    assert_eq!(run.class, "Witch");
    assert!(!run.is_completed);
    assert_eq!(run.total_time_ms, None);
    assert_eq!(Run::get_by_id(&store, 99), None);
}

#[test]
fn get_all_lists_newest_first() {
    let mut store = Store::new();
    Run::insert(&mut store, &new_run("A", "Witch", "2024-01-01T00:00:00Z"));
    Run::insert(&mut store, &new_run("B", "Ranger", "2024-03-01T00:00:00Z"));
    Run::insert(&mut store, &new_run("C", "Marauder", "2024-02-01T00:00:00Z"));
    let all = Run::get_all(&store);
    let names: Vec<&str> = all.iter().map(|r| r.character_name.as_str()).collect();
    assert_eq!(names, vec!["B", "C", "A"]);
}

#[test]
fn complete_marks_the_run_and_stats_count_it() {
    let mut store = Store::new();
    let a = Run::insert(&mut store, &new_run("A", "Witch", "2024-01-01T00:00:00Z"));
    let b = Run::insert(&mut store, &new_run("B", "Witch", "2024-01-02T00:00:00Z"));
    Run::insert(&mut store, &new_run("C", "Witch", "2024-01-03T00:00:00Z"));
    Run::complete(&mut store, a, 3_600_000, "2024-01-01T01:00:00Z".to_string());
    Run::complete(&mut store, b, 1_800_000, "2024-01-02T00:30:00Z".to_string());
    let run = Run::get_by_id(&store, a).unwrap();
    assert!(run.is_completed);
    assert_eq!(run.total_time_ms, Some(3_600_000));
    assert_eq!(run.ended_at.as_deref(), Some("2024-01-01T01:00:00Z"));
    let stats = Run::get_stats(&store, &RunFilters::default());
    assert_eq!(stats.total_runs, 3);
    assert_eq!(stats.completed_runs, 2);
    assert_eq!(stats.average_time_ms, Some(2_700_000));
    assert_eq!(stats.best_time_ms, Some(1_800_000));
}

#[test]
fn stats_of_no_completed_runs_have_no_averages() {
    let mut store = Store::new();
    Run::insert(&mut store, &new_run("A", "Witch", "2024-01-01T00:00:00Z"));
    let stats = Run::get_stats(&store, &RunFilters::default());
    assert_eq!(stats.total_runs, 1);
    assert_eq!(stats.completed_runs, 0);
    assert_eq!(stats.average_time_ms, None);
    assert_eq!(stats.best_time_ms, None);
}

#[test]
fn filters_select_by_class_and_exclude_references_by_default() {
    let mut store = Store::new();
    Run::insert(&mut store, &new_run("A", "Witch", "2024-01-01T00:00:00Z"));
    Run::insert(&mut store, &new_run("B", "Ranger", "2024-01-02T00:00:00Z"));
    let reference = ReferenceRunData {
        source_name: "speedrun.com".to_string(),
        character_name: None,
        class: "Witch".to_string(),
        ascendancy: None,
        category: "Campaign".to_string(),
        league: None,
        breakpoint_preset: None,
        enabled_breakpoints: None,
        total_time_ms: 5_000_000,
        splits: vec![],
    };
    Run::insert_reference(&mut store, &reference, "2024-01-03T00:00:00Z".to_string());
    let witches = Run::get_filtered(
        &store,
        &RunFilters { class: Some("Witch".to_string()), ..RunFilters::default() },
    );
    assert_eq!(witches.len(), 1);
    assert_eq!(witches[0].character_name, "A");
    let with_refs = Run::get_filtered(
        &store,
        &RunFilters {
            class: Some("Witch".to_string()),
            include_reference: Some(true),
            ..RunFilters::default()
        },
    );
    assert_eq!(with_refs.len(), 2);
}

#[test]
fn update_class_info_fills_only_missing_fields() {
    let mut store = Store::new();
    let id = Run::insert(&mut store, &new_run("A", "Unknown", "2024-01-01T00:00:00Z"));
    Run::update_class_info(
        &mut store,
        id,
        "Witch".to_string(),
        Some("Necromancer".to_string()),
        Some("Settlers".to_string()),
    );
    let run = Run::get_by_id(&store, id).unwrap();
    assert_eq!(run.class, "Witch");
    assert_eq!(run.ascendancy.as_deref(), Some("Necromancer"));
    // the league was already set, so it stays
    assert_eq!(run.league, "Standard");
    // a second update does not overwrite what is now set
    Run::update_class_info(&mut store, id, "Ranger".to_string(), Some("Deadeye".to_string()), None);
    let run = Run::get_by_id(&store, id).unwrap();
    assert_eq!(run.class, "Witch");
    assert_eq!(run.ascendancy.as_deref(), Some("Necromancer"));
}

#[test]
fn update_character_overwrites_name_and_class() {
    let mut store = Store::new();
    let id = Run::insert(&mut store, &new_run("Old", "Unknown", "2024-01-01T00:00:00Z"));
    Run::update_character(&mut store, id, "New".to_string(), "Witch".to_string());
    let run = Run::get_by_id(&store, id).unwrap();
    assert_eq!(run.character_name, "New");
    assert_eq!(run.class, "Witch");
}

#[test]
fn delete_removes_the_run_with_its_splits_and_snapshots() {
    let mut store = Store::new();
    let a = Run::insert(&mut store, &new_run("A", "Witch", "2024-01-01T00:00:00Z"));
    let b = Run::insert(&mut store, &new_run("B", "Witch", "2024-01-02T00:00:00Z"));
    Split::insert(&mut store, &new_split(a, "The Coast", 60_000));
    let kept_split = Split::insert(&mut store, &new_split(b, "The Coast", 70_000));
    Snapshot::insert(
        &mut store,
        &NewSnapshot {
            run_id: a,
            split_id: 1,
            timestamp: "t".to_string(),
            elapsed_time_ms: 60_000,
            character_level: 5,
            items_json: "[]".to_string(),
            skills_json: "[]".to_string(),
            passive_tree_json: "{}".to_string(),
            stats_json: "{}".to_string(),
            pob_code: None,
        },
    );
    Run::delete(&mut store, a);
    assert_eq!(Run::get_by_id(&store, a), None);
    assert!(Run::get_by_id(&store, b).is_some());
    assert!(Split::get_by_run(&store, a).is_empty());
    assert_eq!(Split::get_by_run(&store, b)[0].id, kept_split);
    assert!(Snapshot::get_by_run(&store, a).is_empty());
}

#[test]
fn splits_come_back_ordered_by_split_time() {
    let mut store = Store::new();
    let id = Run::insert(&mut store, &new_run("A", "Witch", "2024-01-01T00:00:00Z"));
    Split::insert(&mut store, &new_split(id, "Third", 300_000));
    Split::insert(&mut store, &new_split(id, "First", 100_000));
    Split::insert(&mut store, &new_split(id, "Second", 200_000));
    let splits = Split::get_by_run(&store, id);
    let names: Vec<&str> = splits.iter().map(|s| s.breakpoint_name.as_str()).collect();
    assert_eq!(names, vec!["First", "Second", "Third"]);
}

#[test]
fn snapshots_by_run_and_by_split() {
    let mut store = Store::new();
    let run = Run::insert(&mut store, &new_run("A", "Witch", "2024-01-01T00:00:00Z"));
    let make = |split_id: i64, elapsed: i64| NewSnapshot {
        run_id: run,
        split_id,
        timestamp: "t".to_string(),
        elapsed_time_ms: elapsed,
        character_level: 10,
        items_json: "[]".to_string(),
        skills_json: "[]".to_string(),
        passive_tree_json: "{}".to_string(),
        stats_json: "{}".to_string(),
        pob_code: None,
    };
    let s2 = Snapshot::insert(&mut store, &make(2, 200_000));
    let s1 = Snapshot::insert(&mut store, &make(1, 100_000));
    let listed = Snapshot::get_by_run(&store, run);
    assert_eq!(listed.len(), 2);
    assert_eq!(listed[0].id, s1);
    assert_eq!(listed[1].id, s2);
    assert_eq!(Snapshot::get_by_id(&store, s2).unwrap().split_id, 2);
    assert_eq!(Snapshot::get_by_split(&store, 1).unwrap().id, s1);
    assert!(Snapshot::get_by_split(&store, 9).is_none());
}

#[test]
fn personal_best_is_created_then_only_beaten() {
    let mut store = Store::new();
    assert!(PersonalBest::get_or_create(
        &mut store,
        "Campaign".to_string(),
        "Witch".to_string(),
        1,
        3_600_000,
    ));
    // a slower time is not a new best
    assert!(!PersonalBest::get_or_create(
        &mut store,
        "Campaign".to_string(),
        "Witch".to_string(),
        2,
        3_700_000,
    ));
    // a faster time supersedes the record
    assert!(PersonalBest::get_or_create(
        &mut store,
        "Campaign".to_string(),
        "Witch".to_string(),
        3,
        3_000_000,
    ));
    let bests = PersonalBest::get_all(&store);
    assert_eq!(bests.len(), 1);
    assert_eq!(bests[0].run_id, 3);
    assert_eq!(bests[0].total_time_ms, 3_000_000);
}

#[test]
fn gold_split_keeps_the_best_segment() {
    let mut store = Store::new();
    assert!(GoldSplit::update_if_better(
        &mut store,
        "Campaign".to_string(),
        "The Coast".to_string(),
        90_000,
    ));
    assert!(!GoldSplit::update_if_better(
        &mut store,
        "Campaign".to_string(),
        "The Coast".to_string(),
        95_000,
    ));
    assert!(GoldSplit::update_if_better(
        &mut store,
        "Campaign".to_string(),
        "The Coast".to_string(),
        85_000,
    ));
    let golds = GoldSplit::get_all(&store);
    assert_eq!(golds.len(), 1);
    assert_eq!(golds[0].best_segment_ms, 85_000);
}

#[test]
fn reference_run_import_computes_segments() {
    let mut store = Store::new();
    let data = ReferenceRunData {
        source_name: "speedrun.com".to_string(),
        character_name: Some("Pro".to_string()),
        class: "Ranger".to_string(),
        ascendancy: Some("Deadeye".to_string()),
        category: "Campaign".to_string(),
        league: None,
        breakpoint_preset: None,
        enabled_breakpoints: None,
        total_time_ms: 25_000,
        splits: vec![
            ReferenceSplitData {
                breakpoint_name: "The Coast".to_string(),
                breakpoint_type: "zone".to_string(),
                split_time_ms: 10_000,
            },
            ReferenceSplitData {
                breakpoint_name: "The Mud Flats".to_string(),
                breakpoint_type: "zone".to_string(),
                split_time_ms: 25_000,
            },
        ],
    };
    let id = poe_watcher::store::create_reference_run(
        &mut store,
        &data,
        "2024-01-01T00:00:00Z".to_string(),
    );
    let run = Run::get_by_id(&store, id).unwrap();
    assert!(run.is_reference);
    assert!(run.is_completed);
    assert_eq!(run.league, "Standard");
    assert_eq!(run.source_name.as_deref(), Some("speedrun.com"));
    let splits = Split::get_by_run(&store, id);
    assert_eq!(splits.len(), 2);
    assert_eq!(splits[0].segment_time_ms, 10_000);
    assert_eq!(splits[1].segment_time_ms, 15_000);
}

#[test]
fn split_stats_group_and_order_by_average() {
    let mut store = Store::new();
    let a = Run::insert(&mut store, &new_run("A", "Witch", "2024-01-01T00:00:00Z"));
    let b = Run::insert(&mut store, &new_run("B", "Witch", "2024-01-02T00:00:00Z"));
    Split::insert(&mut store, &new_split(a, "The Coast", 100_000));
    Split::insert(&mut store, &new_split(b, "The Coast", 120_000));
    Split::insert(&mut store, &new_split(a, "The Mud Flats", 50_000));
    Split::insert(&mut store, &new_split(b, "The Mud Flats", 70_000));
    let stats = Split::get_stats(&store, &RunFilters::default());
    assert_eq!(stats.len(), 2);
    // ordered by mean split time: Mud Flats (60 000) before Coast (110 000)
    assert_eq!(stats[0].breakpoint_name, "The Mud Flats");
    assert_eq!(stats[0].average_time_ms, 60_000);
    assert_eq!(stats[0].best_time_ms, 50_000);
    assert_eq!(stats[0].run_count, 2);
    assert_eq!(stats[1].breakpoint_name, "The Coast");
    assert_eq!(stats[1].average_time_ms, 110_000);
    assert_eq!(stats[1].best_time_ms, 100_000);
    assert_eq!(stats[1].run_count, 2);
}

#[test]
fn split_stats_follow_the_run_filter() {
    let mut store = Store::new();
    let witch = Run::insert(&mut store, &new_run("A", "Witch", "2024-01-01T00:00:00Z"));
    let ranger = Run::insert(&mut store, &new_run("B", "Ranger", "2024-01-02T00:00:00Z"));
    Split::insert(&mut store, &new_split(witch, "The Coast", 100_000));
    Split::insert(&mut store, &new_split(ranger, "The Coast", 200_000));
    let stats = Split::get_stats(
        &store,
        &RunFilters { class: Some("Witch".to_string()), ..RunFilters::default() },
    );
    assert_eq!(stats.len(), 1);
    assert_eq!(stats[0].average_time_ms, 100_000);
    assert_eq!(stats[0].run_count, 1);
}
