use airline::server::{RequestType, Route, RouteStorage};

fn lookup(storage: &RouteStorage<u32>, method: RequestType, path: &str) -> Option<u32> {
    storage.handler(&method, &path.to_string()).map(|r| *r.handler())
}

#[test]
fn create_normalizes_the_path() {
    assert_eq!(Route::create("", RequestType::Get, 1u32).path(), "/");
    assert_eq!(Route::create("x", RequestType::Get, 1u32).path(), "/x");
    assert_eq!(Route::create("/x", RequestType::Get, 1u32).path(), "/x");
    assert_eq!(Route::create("//x", RequestType::Get, 1u32).path(), "//x");
    assert_eq!(Route::create("x/", RequestType::Get, 1u32).path(), "/x/");
    assert_eq!(Route::create("é", RequestType::Any, 1u32).path(), "/é");
    let r = Route::create("a", RequestType::Put, 7u32);
    assert_eq!(r.request_type(), RequestType::Put);
    assert_eq!(*r.handler(), 7);
}

#[test]
fn empty_storage_finds_nothing() {
    let mut storage: RouteStorage<u32> = RouteStorage::new();
    assert!(storage.is_prepared());
    storage.prep();
    for method in [
        RequestType::Get,
        RequestType::Post,
        RequestType::Put,
        RequestType::Delete,
        RequestType::Any,
    ] {
        assert_eq!(lookup(&storage, method, "/"), None);
    }
}

#[test]
fn lookup_finds_each_registered_route() {
    let mut storage: RouteStorage<u32> = RouteStorage::new();
    let paths = ["/m", "/b", "/z", "/a", "/", "/ab", "/a/b", "/y", "/c", "/é", "/B"];
    for (i, p) in paths.iter().enumerate() {
        storage.add(Route::create(p, RequestType::Get, i as u32));
        storage.add(Route::create(p, RequestType::Delete, 100 + i as u32));
    }
    assert!(!storage.is_prepared());
    storage.prep();
    assert!(storage.is_prepared());
    for (i, p) in paths.iter().enumerate() {
        assert_eq!(lookup(&storage, RequestType::Get, p), Some(i as u32));
        assert_eq!(lookup(&storage, RequestType::Delete, p), Some(100 + i as u32));
        assert_eq!(lookup(&storage, RequestType::Post, p), None);
        assert_eq!(lookup(&storage, RequestType::Any, p), None);
    }
    assert_eq!(lookup(&storage, RequestType::Get, "/missing"), None);
    assert_eq!(lookup(&storage, RequestType::Get, "/a/"), None);
    assert_eq!(lookup(&storage, RequestType::Get, "m"), None);
    assert_eq!(lookup(&storage, RequestType::Get, ""), None);
}

#[test]
fn wildcard_answers_when_the_method_has_no_route() {
    let mut storage: RouteStorage<u32> = RouteStorage::new();
    storage.add(Route::create("/both", RequestType::Any, 1));
    storage.add(Route::create("/both", RequestType::Post, 2));
    storage.add(Route::create("/any", RequestType::Any, 3));
    storage.add(Route::create("/post", RequestType::Post, 4));
    storage.prep();
    assert_eq!(lookup(&storage, RequestType::Post, "/both"), Some(2));
    assert_eq!(lookup(&storage, RequestType::Get, "/both"), Some(1));
    assert_eq!(lookup(&storage, RequestType::Any, "/both"), Some(1));
    assert_eq!(lookup(&storage, RequestType::Put, "/any"), Some(3));
    assert_eq!(lookup(&storage, RequestType::Any, "/any"), Some(3));
    assert_eq!(lookup(&storage, RequestType::Post, "/post"), Some(4));
    assert_eq!(lookup(&storage, RequestType::Get, "/post"), None);
    assert_eq!(lookup(&storage, RequestType::Any, "/post"), None);
    assert_eq!(lookup(&storage, RequestType::Delete, "/none"), None);
}

#[test]
fn prep_sorts_by_the_bytes_of_the_path() {
    let mut storage: RouteStorage<u32> = RouteStorage::new();
    let paths = ["/b", "/a", "/B", "/é", "/ab", "/", "/a/b", "/~"];
    for (i, p) in paths.iter().enumerate() {
        storage.add(Route::create(p, RequestType::Put, i as u32));
    }
    storage.prep();
    let mut sorted: Vec<&str> = paths.to_vec();
    sorted.sort();
    for p in sorted {
        let found = storage.handler(&RequestType::Put, &p.to_string()).unwrap();
        assert_eq!(found.path(), p);
    }
    storage.prep();
    assert!(storage.is_prepared());
    assert_eq!(lookup(&storage, RequestType::Put, "/é"), Some(3));
}

#[test]
fn is_prepared_tells_unsorted_tables() {
    let mut storage: RouteStorage<u32> = RouteStorage::new();
    storage.add(Route::create("/a", RequestType::Get, 1));
    assert!(storage.is_prepared());
    storage.add(Route::create("/b", RequestType::Get, 2));
    assert!(storage.is_prepared());
    storage.add(Route::create("/a", RequestType::Any, 3));
    storage.add(Route::create("/0", RequestType::Any, 4));
    assert!(!storage.is_prepared());
    storage.prep();
    assert!(storage.is_prepared());
}
