use chrono::{TimeZone, Utc};
use rapstat::registry::{Registry, RegistryEntry, RegistryError};
use rapstat::timestamp::Timestamp;

fn at(d: u32) -> Timestamp {
    let t = Utc.with_ymd_and_hms(2026, 4, d, 12, 0, 0).unwrap();
    Timestamp::from_parts(t.timestamp(), t.timestamp_subsec_nanos()).unwrap()
}

fn names(r: &Registry) -> Vec<String> {
    r.projects.iter().map(|e| e.name.clone()).collect()
}

#[test]
fn add_appends_entries_in_order() {
    let mut r = Registry::new();
    assert_eq!(r.add("alpha".to_string(), "/srv/alpha".to_string(), at(1)), Ok(()));
    assert_eq!(r.add("beta".to_string(), "/srv/beta".to_string(), at(2)), Ok(()));
    assert_eq!(
        r.projects,
        vec![
            RegistryEntry { name: "alpha".to_string(), path: "/srv/alpha".to_string(), added_at: at(1) },
            RegistryEntry { name: "beta".to_string(), path: "/srv/beta".to_string(), added_at: at(2) },
        ]
    );
}

#[test]
fn add_refuses_a_registered_name() {
    let mut r = Registry::new();
    r.add("alpha".to_string(), "/srv/alpha".to_string(), at(1)).unwrap();
    let e = r.add("alpha".to_string(), "/srv/other".to_string(), at(2));
    assert_eq!(
        e,
        Err(RegistryError::AlreadyRegistered { name: "alpha".to_string(), path: "/srv/alpha".to_string() })
    );
    assert_eq!(names(&r), vec!["alpha"]);
}

#[test]
fn add_refuses_a_registered_path() {
    let mut r = Registry::new();
    r.add("alpha".to_string(), "/srv/alpha".to_string(), at(1)).unwrap();
    r.add("beta".to_string(), "/srv/beta".to_string(), at(1)).unwrap();
    let e = r.add("gamma".to_string(), "/srv/beta".to_string(), at(2));
    assert_eq!(
        e,
        Err(RegistryError::AlreadyRegistered { name: "beta".to_string(), path: "/srv/beta".to_string() })
    );
    // Paths compare by their components, so a trailing slash names the same path.
    let e2 = r.add("delta".to_string(), "/srv/alpha/".to_string(), at(2));
    assert_eq!(
        e2,
        Err(RegistryError::AlreadyRegistered { name: "alpha".to_string(), path: "/srv/alpha".to_string() })
    );
    assert_eq!(names(&r), vec!["alpha", "beta"]);
}

#[test]
fn remove_reports_whether_the_name_was_registered() {
    let mut r = Registry::new();
    r.add("alpha".to_string(), "/srv/alpha".to_string(), at(1)).unwrap();
    r.add("beta".to_string(), "/srv/beta".to_string(), at(1)).unwrap();
    assert!(r.remove("alpha"));
    assert_eq!(names(&r), vec!["beta"]);
    assert!(!r.remove("alpha"));
    assert_eq!(names(&r), vec!["beta"]);
}

#[test]
fn remove_after_add_restores_the_registry() {
    let mut r = Registry::new();
    r.add("alpha".to_string(), "/srv/alpha".to_string(), at(1)).unwrap();
    r.add("beta".to_string(), "/srv/beta".to_string(), at(2)).unwrap();
    let before = r.projects.clone();
    r.add("gamma".to_string(), "/srv/gamma".to_string(), at(3)).unwrap();
    assert!(r.remove("gamma"));
    assert_eq!(r.projects, before);
}

#[test]
fn names_stay_distinct_under_additions() {
    let mut r = Registry::new();
    for (n, p) in [("a", "/p/a"), ("b", "/p/b"), ("a", "/p/c"), ("c", "/p/a"), ("c", "/p/c")] {
        let _ = r.add(n.to_string(), p.to_string(), at(1));
    }
    assert_eq!(names(&r), vec!["a", "b", "c"]);
}

#[test]
fn registry_error_message() {
    let e = RegistryError::AlreadyRegistered { name: "alpha".to_string(), path: "/srv/alpha".to_string() };
    assert_eq!(e.message(), "project 'alpha' at /srv/alpha is already registered");
}
