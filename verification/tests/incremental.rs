use inscribe::incremental::cache::DiskCacheEntry;
use inscribe::incremental::{
    Cache, DepGraph, DepNode, DiskCache, Fingerprint, FingerprintBuilder, QueryEngine, QueryError,
};

fn fingerprint_of_u64(value: u64) -> Fingerprint {
    let mut builder = FingerprintBuilder::new();
    builder.update_u64(value);
    builder.finish()
}

#[test]
fn respects_fingerprint_freshness() {
    let mut cache = Cache::default();
    let key = "value";
    let fingerprint = Fingerprint::of("v1");
    cache.insert(key, fingerprint, 42);

    assert_eq!(cache.get_if_fresh(key, fingerprint), Some(&42));
    assert_eq!(cache.get_if_fresh(key, Fingerprint::of("v2")), None);
}

#[test]
fn records_dependencies() {
    let mut graph = DepGraph::default();
    let root = DepNode::new("root", fingerprint_of_u64(1));
    let leaf = DepNode::new("leaf", fingerprint_of_u64(2));
    graph.add_dependency(root, leaf);

    let deps = graph.dependencies_of(root);
    assert_eq!(deps, vec![leaf]);
    let dependents = graph.dependents_of(leaf);
    assert_eq!(dependents, vec![root]);
}

#[test]
fn fingerprints_match_for_same_data() {
    let direct = Fingerprint::of("inscribe");
    let mut builder = FingerprintBuilder::new();
    builder.update_str("inscribe");
    assert_eq!(direct, builder.finish());
}

#[test]
fn caches_query_results() -> Result<(), QueryError> {
    let mut engine = QueryEngine::new();
    let mut cache = Cache::default();

    let key = "input";
    let fingerprint = Fingerprint::of("v1");
    let mut runs = 0;

    let first = engine.execute(&mut cache, "test", key, fingerprint, |engine| {
        let _ = engine;
        runs += 1;
        Ok(10)
    })?;
    let second = engine.execute(&mut cache, "test", key, fingerprint, |engine| {
        let _ = engine;
        runs += 1;
        Ok(20)
    })?;

    assert_eq!(first, 10);
    assert_eq!(second, 10);
    assert_eq!(runs, 1);
    Ok(())
}

#[test]
fn fnv_values_are_exact() {
    assert_eq!(Fingerprint::of("").as_u64(), 0xcbf29ce484222325);
    assert_eq!(Fingerprint::of("a").as_u64(), 0xaf63dc4c8601ec8c);
    let mut builder = FingerprintBuilder::new();
    builder.update_bytes(b"a");
    assert_eq!(builder.finish(), Fingerprint::of("a"));
    let mut pieces = FingerprintBuilder::new();
    pieces.update_str("ins");
    pieces.update_str("cribe");
    assert_eq!(pieces.finish(), Fingerprint::of("inscribe"));
}

#[test]
fn combine_hashes_both_fingerprints() {
    let a = Fingerprint::of("a");
    let b = Fingerprint::of("b");
    let mut builder = FingerprintBuilder::new();
    builder.update_fingerprint(a);
    builder.update_fingerprint(b);
    assert_eq!(a.combine(b), builder.finish());
    assert_ne!(a.combine(b), b.combine(a));
    let mut flags = FingerprintBuilder::new();
    flags.update_bool(true);
    let mut byte = FingerprintBuilder::new();
    byte.update_bytes(&[1]);
    assert_eq!(flags.finish(), byte.finish());
}

#[test]
fn cache_insert_replaces_and_invalidates() {
    let mut cache = Cache::default();
    let f1 = Fingerprint::of("1");
    let f2 = Fingerprint::of("2");
    cache.insert("k", f1, 1);
    cache.insert("k", f2, 2);
    assert_eq!(cache.len(), 1);
    assert_eq!(cache.get("k"), Some(&2));
    assert_eq!(cache.fingerprint("k"), Some(f2));
    assert_eq!(cache.get_if_fresh("k", f1), None);
    assert!(cache.invalidate("k"));
    assert!(!cache.invalidate("k"));
    assert!(cache.is_empty());
    cache.insert("a", f1, 3);
    cache.insert("b", f1, 4);
    cache.clear();
    assert_eq!(cache.len(), 0);
    assert_eq!(cache.get("a"), None);
}

#[test]
fn disk_cache_paths_and_freshness() {
    let disk = DiskCache::new("cache/", "hir");
    let path = disk.entry_path("main");
    let expected = format!("cache/hir/{:016x}.bin", Fingerprint::of("main").as_u64());
    assert_eq!(path, expected);
    let f = Fingerprint::of("src");
    let entry = DiskCacheEntry {
        fingerprint: f,
        value: 5,
    };
    assert_eq!(DiskCache::fresh_value(Some(entry.clone()), f), Some(5));
    assert_eq!(DiskCache::fresh_value(Some(entry), Fingerprint::of("other")), None);
    assert_eq!(DiskCache::fresh_value::<i32>(None, f), None);
}

#[test]
fn graph_edges_are_a_set() {
    let mut graph = DepGraph::default();
    let a = DepNode::new("a", fingerprint_of_u64(1));
    let b = DepNode::new("b", fingerprint_of_u64(2));
    let c = DepNode::new("c", fingerprint_of_u64(3));
    graph.add_dependency(a, b);
    graph.add_dependency(a, b);
    graph.add_dependency(b, c);
    assert_eq!(graph.dependencies_of(a), vec![b]);
    let mut affected = graph.transitive_dependents(c);
    affected.sort_by_key(|node| node.query);
    assert_eq!(affected, vec![a, b]);
    graph.clear_dependencies(a);
    assert!(graph.dependencies_of(a).is_empty());
    assert_eq!(graph.transitive_dependents(c), vec![b]);
    graph.remove_node(b);
    assert!(graph.dependents_of(c).is_empty());
    assert!(graph.transitive_dependents(c).is_empty());
}

#[test]
fn nested_queries_record_edges_and_detect_cycles() {
    let mut engine = QueryEngine::new();
    let mut outer_cache: Cache<u32> = Cache::default();
    let mut inner_cache: Cache<u32> = Cache::default();
    let result = engine.execute(&mut outer_cache, "outer", "x", Fingerprint::of("1"), |engine| {
        engine.execute(&mut inner_cache, "inner", "y", Fingerprint::of("2"), |_| Ok(7))
    });
    assert_eq!(result.expect("nested queries should succeed"), 7);
    let outer = DepNode::new("outer", Fingerprint::of("x"));
    let inner = DepNode::new("inner", Fingerprint::of("y"));
    assert_eq!(engine.dep_graph().dependencies_of(outer), vec![inner]);

    let mut cycle_cache: Cache<u32> = Cache::default();
    let mut again_cache: Cache<u32> = Cache::default();
    let error = engine
        .execute(&mut cycle_cache, "loop", "k", Fingerprint::of("1"), |engine| {
            engine.execute(&mut again_cache, "loop", "k", Fingerprint::of("1"), |_| Ok(1))
        })
        .expect_err("a query that asks for itself is a cycle");
    assert_eq!(error.message, "cycle detected while evaluating `loop`");
    assert_eq!(cycle_cache.len(), 0);
}

#[test]
fn cache_length_counts_distinct_keys() {
    let mut cache: Cache<u32> = Cache::default();
    cache.insert("a", fingerprint_of_u64(1), 1);
    cache.insert("b", fingerprint_of_u64(2), 2);
    cache.insert("a", fingerprint_of_u64(3), 3);
    assert_eq!(cache.len(), 2);
    assert_eq!(cache.get("a"), Some(&3));
    assert!(cache.invalidate("a"));
    assert_eq!(cache.len(), 1);
    assert!(!cache.invalidate("a"));
    assert_eq!(cache.len(), 1);
}
