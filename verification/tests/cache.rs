use tagcache::invalidate::BATCH_SIZE;
use tagcache::store::CacheStore;

fn s(x: &str) -> String {
    x.to_owned()
}

fn tags(xs: &[&str]) -> Vec<String> {
    xs.iter().map(|x| x.to_string()).collect()
}

#[test]
fn put_then_get_returns_entry() {
    let mut c = CacheStore::new();
    c.put(s("k"), s("v"), tags(&["a", "b"]));
    let e = c.get(&s("k")).expect("entry must be present");
    assert_eq!(e.value, "v");
    assert_eq!(e.tags, tags(&["a", "b"]));
}

#[test]
fn replace_semantics_last_put_wins() {
    let mut c = CacheStore::new();
    c.put(s("k"), s("v1"), tags(&["t1", "t2"]));
    c.put(s("k"), s("v2"), tags(&["t3"]));
    let e = c.get(&s("k")).expect("entry must be present");
    assert_eq!(e.value, "v2");
    assert_eq!(e.tags, tags(&["t3"]));
    assert_eq!(c.len(), 1);
}

#[test]
fn get_missing_key_is_not_found() {
    let mut c = CacheStore::new();
    assert!(c.get(&s("never")).is_none());
    c.put(s("k"), s("v"), tags(&["a"]));
    assert!(c.get(&s("other")).is_none());
}

#[test]
fn get_after_invalidation_is_not_found() {
    let mut c = CacheStore::new();
    c.put(s("k"), s("v"), tags(&["a"]));
    let n = c.invalidate_by_tags(&tags(&["a"]));
    assert_eq!(n, 1);
    assert!(c.get(&s("k")).is_none());
}

#[test]
fn remove_deletes_and_tolerates_absent() {
    let mut c = CacheStore::new();
    c.put(s("k"), s("v"), tags(&[]));
    assert!(c.remove(&s("k")));
    assert!(!c.remove(&s("k")));
    assert!(c.get(&s("k")).is_none());
    assert_eq!(c.len(), 0);
}

#[test]
fn tag_intersection_removes_exactly_matching() {
    let mut c = CacheStore::new();
    c.put(s("k1"), s("v1"), tags(&["a", "b"]));
    c.put(s("k2"), s("v2"), tags(&["b", "c"]));
    c.put(s("k3"), s("v3"), tags(&["d"]));
    let n = c.invalidate_by_tags(&tags(&["b"]));
    assert_eq!(n, 2);
    assert!(c.get(&s("k1")).is_none());
    assert!(c.get(&s("k2")).is_none());
    let e = c.get(&s("k3")).expect("k3 must survive");
    assert_eq!(e.value, "v3");
    assert_eq!(e.tags, tags(&["d"]));
}

#[test]
fn empty_tag_list_removes_nothing() {
    let mut c = CacheStore::new();
    c.put(s("k1"), s("v1"), tags(&["a"]));
    c.put(s("k2"), s("v2"), tags(&[]));
    let n = c.invalidate_by_tags(&tags(&[]));
    assert_eq!(n, 0);
    assert_eq!(c.get(&s("k1")).expect("k1 stays").value, "v1");
    assert_eq!(c.get(&s("k2")).expect("k2 stays").value, "v2");
    assert_eq!(c.len(), 2);
}

#[test]
fn invalidation_is_idempotent() {
    let mut c = CacheStore::new();
    c.put(s("k1"), s("v1"), tags(&["x"]));
    c.put(s("k2"), s("v2"), tags(&["x", "y"]));
    c.put(s("k3"), s("v3"), tags(&["z"]));
    let first = c.invalidate_by_tags(&tags(&["x"]));
    assert_eq!(first, 2);
    let second = c.invalidate_by_tags(&tags(&["x"]));
    assert_eq!(second, 0);
    assert_eq!(c.len(), 1);
    assert!(c.get(&s("k3")).is_some());
}

#[test]
fn entry_with_no_tags_survives_every_invalidation() {
    let mut c = CacheStore::new();
    c.put(s("k"), s("v"), tags(&[]));
    let n = c.invalidate_by_tags(&tags(&["a", "b", "c"]));
    assert_eq!(n, 0);
    assert!(c.get(&s("k")).is_some());
}

#[test]
fn duplicate_tags_mean_nothing_extra() {
    let mut c = CacheStore::new();
    c.put(s("k"), s("v"), tags(&["a", "a", "a"]));
    let n = c.invalidate_by_tags(&tags(&["a"]));
    assert_eq!(n, 1);
    assert!(c.get(&s("k")).is_none());
}

#[test]
fn matching_is_case_sensitive_whole_tag_equality() {
    let mut c = CacheStore::new();
    c.put(s("k1"), s("v1"), tags(&["Team"]));
    c.put(s("k2"), s("v2"), tags(&["team-a"]));
    let n = c.invalidate_by_tags(&tags(&["team"]));
    assert_eq!(n, 0);
    assert!(c.get(&s("k1")).is_some());
    assert!(c.get(&s("k2")).is_some());
}

#[test]
fn snapshot_lists_every_entry_once() {
    let mut c = CacheStore::new();
    c.put(s("k1"), s("v1"), tags(&["a"]));
    c.put(s("k2"), s("v2"), tags(&["b", "c"]));
    let mut snap = c.snapshot();
    snap.sort_by(|x, y| x.0.cmp(&y.0));
    assert_eq!(snap.len(), 2);
    assert_eq!(snap[0].0, "k1");
    assert_eq!(snap[0].1, tags(&["a"]));
    assert_eq!(snap[1].0, "k2");
    assert_eq!(snap[1].1, tags(&["b", "c"]));
}

#[test]
fn stepwise_invalidation_yields_between_batches() {
    let mut c = CacheStore::new();
    let total = 2 * BATCH_SIZE + 50;
    for i in 0..total {
        c.put(format!("k{}", i), format!("v{}", i), tags(&["bulk"]));
    }
    c.put(s("other"), s("kept"), tags(&["unrelated"]));

    let mut plan = c.plan_invalidation(&tags(&["bulk"]));
    let mut batches = 0;
    loop {
        let done = c.run_batch(&mut plan);
        batches += 1;
        // Between batches the store stays fully usable: point reads and
        // writes on unrelated keys complete with correct results.
        assert_eq!(c.get(&s("other")).expect("unrelated key stays").value, "kept");
        c.put(format!("fresh{}", batches), s("new"), tags(&["unrelated"]));
        assert!(c.get(&format!("fresh{}", batches)).is_some());
        if done {
            break;
        }
    }
    assert_eq!(batches, 3);
    assert_eq!(plan.removed_count(), total);
    assert!(plan.is_done());
    assert!(c.get(&s("k0")).is_none());
    assert!(c.get(&format!("k{}", total - 1)).is_none());
    assert!(c.get(&s("other")).is_some());
}

#[test]
fn batch_boundary_exact_multiple() {
    let mut c = CacheStore::new();
    for i in 0..BATCH_SIZE {
        c.put(format!("k{}", i), s("v"), tags(&["t"]));
    }
    let mut plan = c.plan_invalidation(&tags(&["t"]));
    let done = c.run_batch(&mut plan);
    assert!(done);
    assert_eq!(plan.removed_count(), BATCH_SIZE);
    assert_eq!(c.len(), 0);
}

#[test]
fn run_batch_on_empty_plan_is_done_at_once() {
    let mut c = CacheStore::new();
    c.put(s("k"), s("v"), tags(&["a"]));
    let mut plan = c.plan_invalidation(&tags(&["nomatch"]));
    assert!(plan.is_done());
    let done = c.run_batch(&mut plan);
    assert!(done);
    assert_eq!(plan.removed_count(), 0);
    assert!(c.get(&s("k")).is_some());
}

#[test]
fn plan_tolerates_keys_removed_meanwhile() {
    let mut c = CacheStore::new();
    c.put(s("k1"), s("v1"), tags(&["t"]));
    c.put(s("k2"), s("v2"), tags(&["t"]));
    let mut plan = c.plan_invalidation(&tags(&["t"]));
    // Someone else removes one of the planned keys before the batch runs.
    assert!(c.remove(&s("k1")));
    let done = c.run_batch(&mut plan);
    assert!(done);
    assert_eq!(plan.removed_count(), 1);
    assert!(c.get(&s("k2")).is_none());
}

#[test]
fn three_records_scenario() {
    let mut c = CacheStore::new();
    c.put(s("u1"), s("Alice"), tags(&["team-a"]));
    c.put(s("u2"), s("Bob"), tags(&["team-a", "vip"]));
    c.put(s("u3"), s("Carol"), tags(&["team-b"]));

    let e = c.get(&s("u2")).expect("u2 must be present");
    assert_eq!(e.value, "Bob");
    assert_eq!(e.tags, tags(&["team-a", "vip"]));

    let n = c.invalidate_by_tags(&tags(&["vip"]));
    assert_eq!(n, 1);
    assert_eq!(c.get(&s("u1")).expect("u1 stays").value, "Alice");
    assert_eq!(c.get(&s("u3")).expect("u3 stays").value, "Carol");
    assert!(c.get(&s("u2")).is_none());
}

#[test]
fn tag_helpers_match_literally() {
    assert!(tagcache::tags::tag_list_contains(&tags(&["a", "b"]), &s("b")));
    assert!(!tagcache::tags::tag_list_contains(&tags(&["a", "b"]), &s("c")));
    assert!(tagcache::tags::tags_intersect_exec(&tags(&["a", "b"]), &tags(&["b", "z"])));
    assert!(!tagcache::tags::tags_intersect_exec(&tags(&["a"]), &tags(&["z"])));
    assert!(!tagcache::tags::tags_intersect_exec(&tags(&[]), &tags(&["z"])));
    assert!(!tagcache::tags::tags_intersect_exec(&tags(&["a"]), &tags(&[])));
}

#[test]
fn multi_tag_request_removes_union_of_matches() {
    let mut c = CacheStore::new();
    c.put(s("k1"), s("v1"), tags(&["a"]));
    c.put(s("k2"), s("v2"), tags(&["d"]));
    c.put(s("k3"), s("v3"), tags(&["z"]));
    let n = c.invalidate_by_tags(&tags(&["a", "d"]));
    assert_eq!(n, 2);
    assert!(c.get(&s("k1")).is_none());
    assert!(c.get(&s("k2")).is_none());
    assert!(c.get(&s("k3")).is_some());
}

#[test]
fn empty_strings_are_ordinary_keys_and_tags() {
    let mut c = CacheStore::new();
    c.put(s(""), s("empty-key"), tags(&[""]));
    let e = c.get(&s("")).expect("empty key must be stored");
    assert_eq!(e.value, "empty-key");
    let n = c.invalidate_by_tags(&tags(&[""]));
    assert_eq!(n, 1);
    assert!(c.get(&s("")).is_none());
}
