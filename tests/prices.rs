use dropcamp_exporter::prices::PriceCache;

fn ids(v: &[&str]) -> Vec<String> {
    v.iter().map(|s| s.to_string()).collect()
}

#[test]
fn missing_price_fails_with_its_id() {
    let mut cache = PriceCache::new();
    let wanted = ids(&["a", "b"]);
    let query = cache.plan_request(&wanted);
    assert_eq!(
        query.as_deref(),
        Some("/api/v3/simple/price?ids=a,b&vs_currencies=usd&precision=full")
    );
    let result = cache.resolve(&wanted, vec![("a".to_string(), 1_500_000_000)]);
    match result {
        Err(missing) => assert_eq!(missing.0, "b"),
        Ok(found) => panic!("expected a missing price, got {:?}", found),
    }
}

#[test]
fn batched_prices_are_requested_once() {
    let mut cache = PriceCache::new();
    let wanted = ids(&["x", "y", "z"]);
    let mut requests = 0;
    for _holder in 0..2 {
        let fetched = match cache.plan_request(&wanted) {
            Some(q) => {
                requests += 1;
                assert_eq!(q, "/api/v3/simple/price?ids=x,y,z&vs_currencies=usd&precision=full");
                vec![("x".to_string(), 1), ("y".to_string(), 2), ("z".to_string(), 3)]
            }
            None => Vec::new(),
        };
        let found = cache.resolve(&wanted, fetched).unwrap();
        assert_eq!(found, vec![("x".to_string(), 1), ("y".to_string(), 2), ("z".to_string(), 3)]);
    }
    assert_eq!(requests, 1);
}

#[test]
fn only_uncached_ids_are_requested() {
    let mut cache = PriceCache::new();
    cache.merge(vec![("a".to_string(), 10)]);
    assert_eq!(cache.missing(&ids(&["a", "b", "c"])), ids(&["b", "c"]));
    assert_eq!(
        cache.plan_request(&ids(&["a", "c"])).as_deref(),
        Some("/api/v3/simple/price?ids=c&vs_currencies=usd&precision=full")
    );
}

#[test]
fn no_ids_need_no_request() {
    let mut cache = PriceCache::new();
    assert!(cache.plan_request(&Vec::new()).is_none());
    assert_eq!(cache.resolve(&Vec::new(), Vec::new()).unwrap(), Vec::new());
}

#[test]
fn later_price_replaces_earlier() {
    let mut cache = PriceCache::new();
    cache.merge(vec![("a".to_string(), 1)]);
    cache.merge(vec![("a".to_string(), 2)]);
    assert_eq!(cache.get(&"a".to_string()), Some(2));
    assert_eq!(cache.get(&"b".to_string()), None);
}

#[test]
fn same_ids_in_another_order_need_no_request() {
    let mut cache = PriceCache::new();
    let first = ids(&["x", "y", "z"]);
    let q = cache.plan_request(&first).unwrap();
    assert_eq!(q, "/api/v3/simple/price?ids=x,y,z&vs_currencies=usd&precision=full");
    cache.resolve(&first, vec![("x".to_string(), 1), ("y".to_string(), 2), ("z".to_string(), 3)]).unwrap();
    let second = ids(&["z", "x", "z"]);
    assert!(cache.plan_request(&second).is_none());
    assert_eq!(
        cache.resolve(&second, Vec::new()).unwrap(),
        vec![("z".to_string(), 3), ("x".to_string(), 1), ("z".to_string(), 3)]
    );
}
