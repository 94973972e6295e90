use mod_registry::catalog::{Mod, VersionCatalog};
use mod_registry::config::Config;
use mod_registry::layout::{artifact_path, valid_identifier};
use mod_registry::errors::{BadRequest, InternalServerError, NotFound, Unauthorized};
use mod_registry::registry::{one, Publish, RegistryService, Resolved};
use mod_registry::store::ArtifactStore;
use mod_registry::version::{Requirement, Version};

fn req(text: &str) -> Requirement {
    Requirement::parse(text).unwrap()
}

fn record(id: &str, major: u64, minor: u64, patch: u64) -> Mod {
    Mod { id: id.to_owned(), version: Version::new(major, minor, patch) }
}

#[test]
fn test() {
    let mut registry = RegistryService::new();

    let v100 = Version::parse("1.0.0").unwrap();
    let v120 = Version::parse("1.2.0").unwrap();
    let v234 = Version::parse("2.3.4").unwrap();
    assert_eq!(registry.publish("bshook", v100, b"bshook-1.0.0".to_vec()), Publish::Created);
    assert_eq!(registry.publish("bshook", v120, b"bshook-1.2.0".to_vec()), Publish::Created);
    assert_eq!(registry.publish("hsv", v234, b"hsv-2.3.4".to_vec()), Publish::Created);

    assert_eq!(registry.publish("bshook", v100, b"bshook-1.0.0 number two".to_vec()), Publish::Conflict);

    assert_eq!(registry.fetch_artifact("bshook", v100), Ok(b"bshook-1.0.0".to_vec()));

    let v300 = Version::parse("3.0.0").unwrap();
    assert_eq!(registry.fetch_artifact("bshook", v300), Err(NotFound));

    assert_eq!(
        registry.resolve_query("bshook", &req("^1"), one()),
        Ok(Resolved::One(record("bshook", 1, 2, 0)))
    );

    assert_eq!(
        registry.resolve_query("bshook", &req("^1"), 0),
        Ok(Resolved::Many(vec![record("bshook", 1, 2, 0), record("bshook", 1, 0, 0)]))
    );

    assert_eq!(registry.resolve_query("hsv", &req("~3"), one()), Err(NotFound));
}

#[test]
fn caret_and_tilde_resolution() {
    let mut catalog = VersionCatalog::new();
    for v in [Version::new(1, 0, 0), Version::new(1, 2, 0), Version::new(2, 3, 4)] {
        assert!(catalog.register("lib", v));
    }
    assert_eq!(catalog.resolve("lib", &req("^1"), 1), vec![record("lib", 1, 2, 0)]);
    assert_eq!(catalog.resolve("lib", &req("^1"), 0), vec![record("lib", 1, 2, 0), record("lib", 1, 0, 0)]);
    assert_eq!(catalog.resolve("lib", &req("~3"), 0), Vec::<Mod>::new());
    assert_eq!(catalog.resolve("lib", &req("~1.2.0"), 0), vec![record("lib", 1, 2, 0)]);
}

#[test]
fn register_returns_true_once() {
    let mut catalog = VersionCatalog::new();
    let v = Version::new(0, 1, 0);
    let mut wins = 0;
    for _ in 0..5 {
        if catalog.register("pkg", v) {
            wins += 1;
        }
    }
    assert_eq!(wins, 1);
    assert!(catalog.contains("pkg", v));
    assert!(catalog.register("pkg", Version::new(0, 1, 1)));
    assert!(catalog.register("other", v));
    assert!(!catalog.register("other", v));
}

#[test]
fn mod_functions_use_the_catalog() {
    let mut catalog = VersionCatalog::new();
    assert!(Mod::insert("a", &Version::new(1, 0, 0), &mut catalog));
    assert!(!Mod::insert("a", &Version::new(1, 0, 0), &mut catalog));
    assert!(Mod::insert("a", &Version::new(1, 1, 0), &mut catalog));
    assert!(Mod::insert("b", &Version::new(0, 0, 1), &mut catalog));
    assert!(Mod::insert("a", &Version::new(0, 9, 0), &mut catalog));

    let mut ids = Mod::list(&catalog);
    ids.sort();
    assert_eq!(ids, vec!["a".to_owned(), "b".to_owned()]);

    assert_eq!(Mod::resolve_one("a", &req("*"), &catalog), Some(record("a", 1, 1, 0)));
    assert_eq!(Mod::resolve_one("c", &req("*"), &catalog), None);
    assert_eq!(
        Mod::resolve_all("a", &req(">=0.9.0, <1.1.0"), &catalog),
        vec![record("a", 1, 0, 0), record("a", 0, 9, 0)]
    );
    assert_eq!(Mod::resolve_n("a", &req("*"), &catalog, 2), vec![record("a", 1, 1, 0), record("a", 1, 0, 0)]);
    assert_eq!(Mod::resolve_n("a", &req("*"), &catalog, 0).len(), 3);
}

#[test]
fn ordering_is_numeric() {
    let mut catalog = VersionCatalog::new();
    assert!(catalog.register("n", Version::new(9, 0, 0)));
    assert!(catalog.register("n", Version::new(10, 0, 0)));
    assert_eq!(catalog.resolve("n", &req("*"), 0), vec![record("n", 10, 0, 0), record("n", 9, 0, 0)]);
    assert!(Version::new(9, 0, 0).lt(&Version::new(10, 0, 0)));
    assert!(!Version::new(10, 0, 0).lt(&Version::new(9, 0, 0)));
    assert!(Version::new(1, 2, 3).lt(&Version::new(1, 2, 10)));
    assert!(!Version::new(1, 2, 3).lt(&Version::new(1, 2, 3)));
}

#[test]
fn unknown_identifier_resolves_empty() {
    let mut registry = RegistryService::new();
    assert_eq!(registry.publish("known", Version::new(1, 0, 0), vec![1, 2, 3]), Publish::Created);
    assert_eq!(registry.resolve_all("unknown", &req("*")), Vec::<Mod>::new());
    assert_eq!(registry.resolve_top_n("unknown", &req("*"), 3), Vec::<Mod>::new());
    assert_eq!(registry.resolve_query("unknown", &req("*"), 0), Ok(Resolved::Many(Vec::new())));
    assert_eq!(registry.resolve_query("unknown", &req("*"), 1), Err(NotFound));
}

#[test]
fn republish_keeps_first_bytes() {
    let mut registry = RegistryService::new();
    let v = Version::new(2, 0, 0);
    assert_eq!(registry.publish("x", v, vec![7, 7]), Publish::Created);
    assert_eq!(registry.publish("x", v, vec![9]), Publish::Conflict);
    assert_eq!(registry.fetch_artifact("x", v), Ok(vec![7, 7]));
    assert_eq!(registry.fetch_artifact("y", v), Err(NotFound));
    assert_eq!(registry.fetch_artifact("x", Version::new(2, 0, 1)), Err(NotFound));
    assert!(registry.catalog().contains("x", v));
}

#[test]
fn empty_blob_round_trips() {
    let mut registry = RegistryService::new();
    let v = Version::new(0, 0, 0);
    assert_eq!(registry.publish("e", v, Vec::new()), Publish::Created);
    assert_eq!(registry.fetch_artifact("e", v), Ok(Vec::new()));
}

#[test]
fn resolve_top_n_limits() {
    let mut registry = RegistryService::new();
    for (i, v) in [(0, 1, 0), (0, 2, 0), (0, 3, 0), (1, 0, 0)].iter().enumerate() {
        assert_eq!(registry.publish("t", Version::new(v.0, v.1, v.2), vec![i as u8]), Publish::Created);
    }
    assert_eq!(registry.resolve_top_n("t", &req("<1.0.0"), 2), vec![record("t", 0, 3, 0), record("t", 0, 2, 0)]);
    assert_eq!(
        registry.resolve_query("t", &req("*"), 3),
        Ok(Resolved::Many(vec![record("t", 1, 0, 0), record("t", 0, 3, 0), record("t", 0, 2, 0)]))
    );
    assert_eq!(registry.resolve_top_n("t", &req("*"), 10).len(), 4);
    assert_eq!(registry.resolve_one("t", &req("=0.2.0")), Ok(record("t", 0, 2, 0)));
    assert_eq!(registry.resolve_one("t", &req(">1.0.0")), Err(NotFound));
}

#[test]
fn version_parsing() {
    assert_eq!(Version::parse("1.2.3"), Ok(Version::new(1, 2, 3)));
    assert_eq!(Version::parse("10.0.0"), Ok(Version::new(10, 0, 0)));
    assert_eq!(Version::parse("1.0.0-alpha+build"), Ok(Version::new(1, 0, 0)));
    assert_eq!(Version::parse("1.0"), Err(BadRequest));
    assert_eq!(Version::parse("1.0.01"), Err(BadRequest));
    assert_eq!(Version::parse(""), Err(BadRequest));
    assert_eq!(Version::parse("a.b.c"), Err(BadRequest));
}

#[test]
fn requirement_parsing_and_matching() {
    assert_eq!(Requirement::parse("@1.0.0").err(), Some(BadRequest));
    assert!(Requirement::parse(">=1.0 <2.0").is_err());
    assert!(Requirement::parse("^1.0.0, ").is_err());
    let r = req("^1.2.3");
    assert_eq!(r.as_str(), "^1.2.3");
    assert!(r.matches(&Version::new(1, 2, 3)));
    assert!(r.matches(&Version::new(1, 9, 0)));
    assert!(!r.matches(&Version::new(1, 2, 2)));
    assert!(!r.matches(&Version::new(2, 0, 0)));
    let zero = req("^0.2.3");
    assert!(zero.matches(&Version::new(0, 2, 9)));
    assert!(!zero.matches(&Version::new(0, 3, 0)));
    let t = req("~1.2.3");
    assert!(t.matches(&Version::new(1, 2, 7)));
    assert!(!t.matches(&Version::new(1, 3, 0)));
    let both = req(">1.0.0, <=1.5.0");
    assert!(both.matches(&Version::new(1, 5, 0)));
    assert!(!both.matches(&Version::new(1, 0, 0)));
    assert!(req("*").matches(&Version::new(123, 4, 5)));
}

#[test]
fn store_put_and_get() {
    let mut store = ArtifactStore::new();
    let v = Version::new(1, 0, 0);
    assert_eq!(store.get("a", v), None);
    store.put("a", v, vec![1]);
    store.put("b", v, vec![2]);
    assert_eq!(store.get("a", v), Some(vec![1]));
    store.put("a", v, vec![3, 4]);
    assert_eq!(store.get("a", v), Some(vec![3, 4]));
    assert_eq!(store.get("b", v), Some(vec![2]));
    assert_eq!(store.get("a", Version::new(1, 0, 1)), None);
}

#[test]
fn failure_reports() {
    assert_eq!(NotFound.status_code(), 404);
    assert_eq!(NotFound.message(), "Not Found");
    assert_eq!(InternalServerError.status_code(), 500);
    assert_eq!(InternalServerError.message(), "Internal Server Error");
    assert_eq!(BadRequest.status_code(), 400);
    assert_eq!(BadRequest.message(), "Bad Request");
    assert_eq!(Unauthorized.status_code(), 401);
    assert_eq!(Unauthorized.message(), "Unauthorized");
}

#[test]
fn publishing_keys() {
    let config = Config { port: 0, downloads_path: "blobs".to_owned(), log_level: None, keys: vec!["k1".to_owned(), "k2".to_owned()] };
    assert_eq!(config.authorize(Some("k2")), Ok(()));
    assert_eq!(config.authorize(Some("k1")), Ok(()));
    assert_eq!(config.authorize(Some("k3")), Err(Unauthorized));
    assert_eq!(config.authorize(None), Err(Unauthorized));
    let closed = Config { port: 0, downloads_path: "blobs".to_owned(), log_level: None, keys: Vec::new() };
    assert_eq!(closed.authorize(Some("k2")), Err(Unauthorized));
}

#[test]
fn default_limit_is_one() {
    assert_eq!(one(), 1);
}

#[test]
fn blob_paths() {
    assert_eq!(artifact_path("bshook", Version::new(1, 0, 0)), "bshook/1/0/0");
    assert_eq!(artifact_path("hsv", Version::new(10, 20, 305)), "hsv/10/20/305");
    assert_eq!(
        artifact_path("max", Version::new(u64::MAX, 0, 9)),
        "max/18446744073709551615/0/9"
    );
    assert_ne!(artifact_path("a", Version::new(1, 11, 1)), artifact_path("a", Version::new(11, 1, 1)));
}

#[test]
fn identifiers() {
    assert!(valid_identifier("bshook"));
    assert!(valid_identifier("..."));
    assert!(valid_identifier(".hidden"));
    assert!(!valid_identifier(""));
    assert!(!valid_identifier("a/b"));
    assert!(!valid_identifier("/"));
    assert!(!valid_identifier("."));
    assert!(!valid_identifier(".."));
}
