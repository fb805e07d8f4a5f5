use matrix::errors::MongoErr;
use matrix::health::ConnectionManager;
use matrix::mappings::{migrations_from_records, Instance, Mappings, MigrationInstance, MigrationRecord, ReadTarget};

fn instance(id: u128, url: &str, from: &str) -> Instance {
    Instance { id, url: url.to_string(), from: from.to_string() }
}

fn overlay(id: u128, url: &str, from: &str, to: &str) -> MigrationInstance {
    MigrationInstance { id, url: url.to_string(), from: from.to_string(), to: to.to_string() }
}

fn directory(instances: Vec<Instance>, migrations: Vec<MigrationInstance>) -> Mappings<u32> {
    let mut dir: Mappings<u32> = Mappings::new();
    let urls = dir.urls_to_open(&instances, &migrations);
    let opened: Vec<ConnectionManager<u32>> =
        urls.into_iter().enumerate().map(|(i, u)| ConnectionManager::new(u, Some(i as u32))).collect();
    dir.apply_refresh(instances, migrations, opened);
    dir
}

fn write_url(dir: &Mappings<u32>, ns: &str) -> String {
    dir.resolve_for_write(ns).unwrap().url().to_string()
}

#[test]
fn write_routing_picks_greatest_from() {
    let dir = directory(vec![instance(1, "url-a", "a"), instance(2, "url-m", "m"), instance(3, "url-t", "t")], vec![]);
    assert_eq!(write_url(&dir, "c"), "url-a");
    assert_eq!(write_url(&dir, "m"), "url-m");
    assert_eq!(write_url(&dir, "z"), "url-t");
    assert_eq!(write_url(&dir, "a"), "url-a");
    assert_eq!(write_url(&dir, "sz"), "url-m");
}

#[test]
fn write_routing_ignores_list_order() {
    let dir = directory(vec![instance(3, "url-t", "t"), instance(1, "url-a", "a"), instance(2, "url-m", "m")], vec![]);
    assert_eq!(write_url(&dir, "c"), "url-a");
    assert_eq!(write_url(&dir, "n"), "url-m");
    assert_eq!(write_url(&dir, "zz"), "url-t");
}

#[test]
fn no_shard_below_first_from_or_when_empty() {
    let dir = directory(vec![instance(1, "url-b", "b")], vec![]);
    assert_eq!(dir.resolve_for_write("a").err(), Some(MongoErr::NoShardAvailable("a".to_string())));
    let empty: Mappings<u32> = Mappings::new();
    assert_eq!(empty.resolve_for_write("x").err(), Some(MongoErr::NoShardAvailable("x".to_string())));
    assert!(matches!(empty.resolve_for_read("x"), Err(MongoErr::NoShardAvailable(s)) if s == "x"));
}

#[test]
fn overlay_wins_writes_and_doubles_reads() {
    let dir = directory(vec![instance(1, "url-y", "a")], vec![overlay(9, "url-x", "m", "p")]);
    assert_eq!(write_url(&dir, "n"), "url-x");
    assert_eq!(write_url(&dir, "m"), "url-x");
    assert_eq!(write_url(&dir, "p"), "url-x");
    assert_eq!(write_url(&dir, "q"), "url-y");
    match dir.resolve_for_read("n").unwrap() {
        ReadTarget::Dual(regular, migration) => {
            assert_eq!(regular.url(), "url-y");
            assert_eq!(migration.url(), "url-x");
        }
        ReadTarget::Single(_) => panic!("expected both shards"),
    }
    match dir.resolve_for_read("c").unwrap() {
        ReadTarget::Single(m) => assert_eq!(m.url(), "url-y"),
        ReadTarget::Dual(_, _) => panic!("expected one shard"),
    }
}

#[test]
fn first_overlay_wins() {
    let dir = directory(vec![instance(1, "url-y", "a")], vec![overlay(1, "url-x1", "m", "p"), overlay(2, "url-x2", "a", "z")]);
    assert_eq!(write_url(&dir, "n"), "url-x1");
    assert_eq!(write_url(&dir, "b"), "url-x2");
}

#[test]
fn refresh_keeps_health_and_drops_retired_urls() {
    let mut dir = directory(vec![instance(1, "url-a", "a"), instance(2, "url-m", "m")], vec![]);
    let (err, started) = dir.report_failure("url-a").unwrap();
    assert_eq!(err, MongoErr::Unreachable("url-a".to_string()));
    assert!(started);
    let new_instances = vec![instance(1, "url-a", "a"), instance(3, "url-n", "n")];
    let urls = dir.urls_to_open(&new_instances, &vec![]);
    assert_eq!(urls, vec!["url-n".to_string()]);
    dir.apply_refresh(new_instances, vec![], vec![]);
    assert_eq!(dir.managers().len(), 2);
    assert!(dir.find_manager("url-m").is_none());
    let a = &dir.managers()[dir.find_manager("url-a").unwrap()];
    assert!(!a.is_healthy());
    let n = &dir.managers()[dir.find_manager("url-n").unwrap()];
    assert_eq!(n.acquire().err(), Some(MongoErr::InvalidUrl("url-n".to_string())));
    assert!(dir.report_failure("url-m").is_none());
    assert!(dir.mark_recovered("url-a"));
    assert!(dir.managers()[dir.find_manager("url-a").unwrap()].is_healthy());
}

#[test]
fn refresh_shares_one_manager_per_url() {
    let dir = directory(
        vec![instance(1, "url-a", "a"), instance(2, "url-a", "k")],
        vec![overlay(3, "url-a", "b", "c"), overlay(4, "url-x", "d", "e")],
    );
    assert_eq!(dir.managers().len(), 2);
    let mut urls: Vec<&str> = dir.managers().iter().map(|m| m.url()).collect();
    urls.sort();
    assert_eq!(urls, vec!["url-a", "url-x"]);
}

#[test]
fn records_without_end_are_not_overlays() {
    let records = vec![
        MigrationRecord { id: 1, url: "u1".to_string(), from: "a".to_string(), to: Some("c".to_string()) },
        MigrationRecord { id: 2, url: "u2".to_string(), from: "d".to_string(), to: None },
        MigrationRecord { id: 3, url: "u3".to_string(), from: "e".to_string(), to: Some("f".to_string()) },
    ];
    let overlays = migrations_from_records(records);
    assert_eq!(overlays.len(), 2);
    assert_eq!(overlays[0].url, "u1");
    assert_eq!(overlays[0].to, "c");
    assert_eq!(overlays[1].id, 3);
    assert_eq!(overlays[1].from, "e");
}
