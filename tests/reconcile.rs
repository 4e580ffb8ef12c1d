use maimap::reconcile::{geocode_queue, reconcile, ReconcilePlan};
use maimap::record::{Arcade, Location};
use maimap::snapshot::Snapshot;

fn arcade(id: i32, name: &str, address: &str, dead: bool) -> Arcade {
    Arcade {
        arcade_id: id,
        arcade_name: name.to_string(),
        arcade_address: address.to_string(),
        arcade_dead: dead,
        arcade_cost: Some("3.5".to_string()),
        arcade_count: Some(4),
        arcade_lat: "31.0".to_string(),
        arcade_lng: "121.0".to_string(),
        created_at: 1_000,
    }
}

fn entries(list: &[(&str, &str)]) -> Vec<(String, String)> {
    list.iter().map(|(n, a)| (n.to_string(), a.to_string())).collect()
}

fn loc(lat: &str, lng: &str) -> Location {
    Location { lat: lat.to_string(), lng: lng.to_string() }
}

/// Resolves every queued address to a location derived from its position.
fn resolve_all(queue: &[String]) -> Vec<Location> {
    (0..queue.len()).map(|i| loc(&format!("30.{}", i), &format!("120.{}", i))).collect()
}

/// What the store holds after a plan is applied: replacements by id, then
/// insertions.
fn apply(store: &[Arcade], plan: &ReconcilePlan) -> Vec<Arcade> {
    let mut out: Vec<Arcade> = store.to_vec();
    for r in plan.to_update.iter().chain(plan.to_close.iter()) {
        for s in out.iter_mut() {
            if s.arcade_id == r.arcade_id {
                *s = r.clone();
            }
        }
    }
    out.extend(plan.to_create.iter().cloned());
    out
}

#[test]
fn new_name_is_created_with_next_id() {
    let (snap, skipped) = Snapshot::build(vec![arcade(1, "ArcadeA", "X", false)]);
    assert!(skipped.is_empty());
    let scraped = entries(&[("ArcadeA", "X"), ("ArcadeB", "Y")]);
    let queue = geocode_queue(&snap, &scraped);
    assert_eq!(queue, vec!["Y".to_string()]);
    let plan = reconcile(&snap, &scraped, 1, 5_000, &vec![loc("30.1", "120.1")]);
    assert!(plan.to_update.is_empty());
    assert!(plan.to_close.is_empty());
    assert_eq!(plan.to_create.len(), 1);
    let c = &plan.to_create[0];
    assert_eq!(c.arcade_id, 2);
    assert_eq!(c.arcade_name, "ArcadeB");
    assert_eq!(c.arcade_address, "Y");
    assert!(!c.arcade_dead);
    assert_eq!(c.arcade_cost, None);
    assert_eq!(c.arcade_count, None);
    assert_eq!(c.arcade_lat, "30.1");
    assert_eq!(c.arcade_lng, "120.1");
    assert_eq!(c.created_at, 5_000);
}

#[test]
fn unlisted_name_is_closed_and_new_one_created() {
    let (snap, _) = Snapshot::build(vec![arcade(1, "ArcadeA", "X", false)]);
    let scraped = entries(&[("ArcadeC", "Z")]);
    let queue = geocode_queue(&snap, &scraped);
    assert_eq!(queue, vec!["Z".to_string()]);
    let plan = reconcile(&snap, &scraped, 1, 5_000, &resolve_all(&queue));
    assert_eq!(plan.to_create.len(), 1);
    assert_eq!(plan.to_create[0].arcade_id, 2);
    assert_eq!(plan.to_create[0].arcade_name, "ArcadeC");
    assert!(plan.to_update.is_empty());
    assert_eq!(plan.to_close.len(), 1);
    let mut expected = arcade(1, "ArcadeA", "X", true);
    expected.created_at = 1_000;
    assert_eq!(plan.to_close[0], expected);
}

#[test]
fn changed_address_is_updated_keeping_metadata() {
    let (snap, _) = Snapshot::build(vec![arcade(7, "ArcadeA", "X", false)]);
    let scraped = entries(&[("ArcadeA", "X2")]);
    let queue = geocode_queue(&snap, &scraped);
    assert_eq!(queue, vec!["X2".to_string()]);
    let plan = reconcile(&snap, &scraped, 7, 9_999, &vec![loc("1.5", "2.5")]);
    assert!(plan.to_create.is_empty());
    assert!(plan.to_close.is_empty());
    assert_eq!(plan.to_update.len(), 1);
    let u = &plan.to_update[0];
    assert_eq!(u.arcade_id, 7);
    assert_eq!(u.arcade_address, "X2");
    assert_eq!(u.arcade_lat, "1.5");
    assert_eq!(u.arcade_lng, "2.5");
    assert_eq!(u.arcade_cost, Some("3.5".to_string()));
    assert_eq!(u.arcade_count, Some(4));
    assert_eq!(u.created_at, 1_000);
    assert!(!u.arcade_dead);
}

#[test]
fn unchanged_scrape_needs_no_geocoding() {
    let (snap, _) = Snapshot::build(vec![
        arcade(1, "A", "X", false),
        arcade(2, "B", "Y", true),
        arcade(3, "C", "Z", false),
    ]);
    let scraped = entries(&[("C", "Z"), ("A", "X"), ("B", "Y")]);
    assert!(geocode_queue(&snap, &scraped).is_empty());
    let plan = reconcile(&snap, &scraped, 3, 0, &vec![]);
    assert!(plan.is_empty());
}

#[test]
fn dead_records_are_not_closed_again() {
    let (snap, _) = Snapshot::build(vec![arcade(1, "A", "X", true), arcade(2, "B", "Y", false)]);
    let scraped = entries(&[]);
    let plan = reconcile(&snap, &scraped, 2, 0, &vec![]);
    assert_eq!(plan.to_close.len(), 1);
    assert_eq!(plan.to_close[0].arcade_id, 2);
    assert!(plan.to_close[0].arcade_dead);
}

#[test]
fn closures_cover_each_unlisted_live_record_once() {
    let (snap, _) = Snapshot::build(vec![
        arcade(1, "A", "X", false),
        arcade(2, "B", "Y", false),
        arcade(3, "C", "Z", false),
        arcade(4, "D", "W", true),
    ]);
    let scraped = entries(&[("B", "Y"), ("B", "Y")]);
    let plan = reconcile(&snap, &scraped, 4, 0, &vec![]);
    let ids: Vec<i32> = plan.to_close.iter().map(|a| a.arcade_id).collect();
    assert_eq!(ids, vec![1, 3]);
}

#[test]
fn created_ids_follow_max_id_and_increase() {
    let (snap, _) = Snapshot::build(vec![arcade(1, "A", "X", true)]);
    let scraped = entries(&[("P", "1"), ("A", "X"), ("Q", "2"), ("R", "3")]);
    let queue = geocode_queue(&snap, &scraped);
    assert_eq!(queue.len(), 3);
    // the store has issued ids up to 40, dead and deleted records included
    let plan = reconcile(&snap, &scraped, 40, 0, &resolve_all(&queue));
    let ids: Vec<i32> = plan.to_create.iter().map(|a| a.arcade_id).collect();
    assert_eq!(ids, vec![41, 42, 43]);
}

#[test]
fn ids_keep_increasing_across_runs() {
    let store = vec![arcade(1, "A", "X", false)];
    let (snap, _) = Snapshot::build(store.clone());
    let first = entries(&[("B", "Y")]);
    let plan1 = reconcile(&snap, &first, 1, 0, &resolve_all(&geocode_queue(&snap, &first)));
    assert_eq!(plan1.to_create[0].arcade_id, 2);
    assert_eq!(plan1.to_close.len(), 1);
    let store = apply(&store, &plan1);
    // B is closed in turn, C appears; every earlier id stays taken
    let (snap2, _) = Snapshot::build(store.clone());
    let second = entries(&[("C", "Z")]);
    let plan2 = reconcile(&snap2, &second, 2, 0, &resolve_all(&geocode_queue(&snap2, &second)));
    assert_eq!(plan2.to_close.len(), 1);
    assert_eq!(plan2.to_close[0].arcade_id, 2);
    let store = apply(&store, &plan2);
    assert!(store.iter().filter(|a| a.arcade_id <= 2).all(|a| a.arcade_dead));
    assert_eq!(plan2.to_create[0].arcade_id, 3);
}

#[test]
fn created_names_are_not_in_snapshot() {
    let (snap, _) = Snapshot::build(vec![arcade(1, "A", "X", false), arcade(2, "B", "Y", true)]);
    let scraped = entries(&[("A", "X9"), ("B", "Y"), ("N", "1"), ("M", "2")]);
    let queue = geocode_queue(&snap, &scraped);
    let plan = reconcile(&snap, &scraped, 2, 0, &resolve_all(&queue));
    let names: Vec<&str> = plan.to_create.iter().map(|a| a.arcade_name.as_str()).collect();
    assert_eq!(names, vec!["N", "M"]);
    assert_eq!(plan.to_update.len(), 1);
    assert_eq!(plan.to_update[0].arcade_id, 1);
}

#[test]
fn second_run_after_persisting_changes_nothing() {
    let store = vec![
        arcade(1, "A", "X", false),
        arcade(2, "B", "Y", false),
        arcade(3, "C", "Z", true),
    ];
    let (snap, _) = Snapshot::build(store.clone());
    let scraped = entries(&[("A", "X2"), ("D", "W"), ("C", "Z"), ("D", "W")]);
    let plan = reconcile(&snap, &scraped, 3, 0, &resolve_all(&geocode_queue(&snap, &scraped)));
    assert!(!plan.is_empty());
    let (snap2, _) = Snapshot::build(apply(&store, &plan));
    assert!(geocode_queue(&snap2, &scraped).is_empty());
    let plan2 = reconcile(&snap2, &scraped, 5, 0, &vec![]);
    assert!(plan2.is_empty());
}

#[test]
fn snapshot_keeps_first_of_duplicate_names() {
    let (snap, skipped) = Snapshot::build(vec![
        arcade(1, " Arcade  A", "X", false),
        arcade(2, "Arcade A", "Y", false),
        arcade(3, "Arcade\u{200B} B", "Z", false),
    ]);
    assert_eq!(snap.len(), 2);
    let names: Vec<&str> = snap.records().iter().map(|a| a.arcade_name.as_str()).collect();
    assert_eq!(names, vec!["Arcade A", "Arcade B"]);
    assert_eq!(snap.records()[0].arcade_id, 1);
    assert_eq!(skipped.len(), 1);
    assert_eq!(skipped[0].arcade_id, 2);
    assert_eq!(skipped[0].arcade_name, "Arcade A");
    assert_eq!(snap.find(&"Arcade B".to_string()), Some(1));
    assert_eq!(snap.find(&"Arcade C".to_string()), None);
}
