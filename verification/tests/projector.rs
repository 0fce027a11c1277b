use std::collections::HashMap;

use projector_rust::config::{Config, Operation};
use projector_rust::key_values::KeyValueMap;
use projector_rust::projector::{default_data, Effect, Loaded, Projector};
use projector_rust::store::Store;

fn get_data() -> Store {
    let mut data = Store::new();
    data.set("/".into(), "foo".into(), "bar1".into());
    data.set("/".into(), "fem".into(), "is great".into());
    data.set("/foo".into(), "foo".into(), "baz".into());
    data.set("/foo".into(), "bar".into(), "baz".into());
    data.set("/foo/bar".into(), "foo".into(), "bar3".into());
    data
}

fn get_config(pwd: &str, operation: Operation) -> Config {
    Config {
        pwd: String::from(pwd),
        config: String::from(""),
        operation,
    }
}

fn get_projector(pwd: String) -> Projector {
    Projector::from_config(get_config(&pwd, Operation::Print(None)), Loaded::Store(get_data()))
}

fn as_hash_map(values: &KeyValueMap) -> HashMap<String, String> {
    let entries = values.entries();
    let count = entries.len();
    let map: HashMap<String, String> = entries.into_iter().collect();
    assert_eq!(map.len(), count);
    map
}

fn expect(pairs: &[(&str, &str)]) -> HashMap<String, String> {
    pairs
        .iter()
        .map(|(k, v)| (k.to_string(), v.to_string()))
        .collect()
}

#[test]
fn get_value() {
    let proj = get_projector(String::from("/foo/bar"));

    assert_eq!(proj.get_value("foo"), Some(&String::from("bar3")));
    assert_eq!(proj.get_value("fem"), Some(&String::from("is great")));
}

#[test]
fn get_values() {
    let proj = get_projector(String::from("/foo/bar"));

    let mut expected: HashMap<String, String> = HashMap::new();

    expected.insert("foo".to_string(), "bar3".to_string());
    expected.insert("bar".to_string(), "baz".to_string());
    expected.insert("fem".to_string(), "is great".to_string());

    for (k, v) in proj.get_values().entries().into_iter() {
        assert_eq!(expected.get(&k), Some(&v));
    }
}

#[test]
fn set_value() {
    let mut proj = get_projector(String::from("/foo/bar"));

    proj.set_value(String::from("foo"), String::from("bar4"));

    assert_eq!(proj.get_value("foo"), Some(&String::from("bar4")));
}

#[test]
fn remove_value() {
    let mut proj = get_projector(String::from("/foo/bar"));

    proj.remove_value("foo");
    proj.remove_value("fem");

    assert_eq!(proj.get_value("foo"), Some(&String::from("baz")));
    assert_eq!(proj.get_value("fem"), Some(&String::from("is great")));
}

#[test]
fn get_values_holds_exactly_the_visible_keys() {
    let proj = get_projector(String::from("/foo/bar"));
    assert_eq!(
        as_hash_map(&proj.get_values()),
        expect(&[("foo", "bar3"), ("bar", "baz"), ("fem", "is great")])
    );

    let proj = get_projector(String::from("/foo"));
    assert_eq!(
        as_hash_map(&proj.get_values()),
        expect(&[("foo", "baz"), ("bar", "baz"), ("fem", "is great")])
    );
}

#[test]
fn get_value_is_the_nearest_definition() {
    assert_eq!(
        get_projector(String::from("/foo/bar")).get_value("bar"),
        Some(&String::from("baz"))
    );
    assert_eq!(
        get_projector(String::from("/foo")).get_value("foo"),
        Some(&String::from("baz"))
    );
    assert_eq!(
        get_projector(String::from("/")).get_value("foo"),
        Some(&String::from("bar1"))
    );
    assert_eq!(get_projector(String::from("/")).get_value("bar"), None);
    assert_eq!(get_projector(String::from("/foo/bar")).get_value("nope"), None);
}

#[test]
fn directory_without_entry_sees_its_ancestors() {
    let proj = get_projector(String::from("/foo/bar/baz/qux"));
    assert_eq!(proj.get_value("foo"), Some(&String::from("bar3")));
    assert_eq!(
        as_hash_map(&proj.get_values()),
        expect(&[("foo", "bar3"), ("bar", "baz"), ("fem", "is great")])
    );

    let proj = get_projector(String::from("/other"));
    assert_eq!(
        as_hash_map(&proj.get_values()),
        expect(&[("foo", "bar1"), ("fem", "is great")])
    );
}

#[test]
fn get_value_agrees_with_get_values() {
    let dirs = ["/", "/foo", "/foo/bar", "/foo/bar/baz", "/elsewhere", "foo", ""];
    let keys = ["foo", "bar", "fem", "missing", ""];
    for dir in dirs {
        let proj = get_projector(String::from(dir));
        let all = as_hash_map(&proj.get_values());
        for key in keys {
            assert_eq!(proj.get_value(key), all.get(key));
        }
    }
}

#[test]
fn set_value_then_get_value_returns_it() {
    for dir in ["/", "/foo", "/foo/bar", "/new/place"] {
        let mut proj = get_projector(String::from(dir));
        proj.set_value(String::from("fresh"), String::from("value"));
        assert_eq!(proj.get_value("fresh"), Some(&String::from("value")));
        proj.set_value(String::from("foo"), String::from("mine"));
        assert_eq!(proj.get_value("foo"), Some(&String::from("mine")));
        assert_eq!(as_hash_map(&proj.get_values()).get("foo"), Some(&String::from("mine")));
    }
}

#[test]
fn set_value_touches_the_current_directory_only() {
    let mut proj = get_projector(String::from("/foo"));
    proj.set_value(String::from("foo"), String::from("changed"));
    proj.set_value(String::from("extra"), String::from("here"));

    let data = proj.data();
    assert_eq!(data.value_at("/foo", "foo"), Some(&String::from("changed")));
    assert_eq!(data.value_at("/foo", "extra"), Some(&String::from("here")));
    assert_eq!(data.value_at("/foo", "bar"), Some(&String::from("baz")));
    assert_eq!(data.value_at("/", "foo"), Some(&String::from("bar1")));
    assert_eq!(data.value_at("/", "extra"), None);
    assert_eq!(data.value_at("/foo/bar", "foo"), Some(&String::from("bar3")));
    assert_eq!(data.value_at("/foo/bar", "extra"), None);
}

#[test]
fn set_value_creates_the_entry_of_a_new_directory() {
    let mut proj = get_projector(String::from("/foo/bar/deeper"));
    assert!(proj.data().get("/foo/bar/deeper").is_none());
    proj.set_value(String::from("k"), String::from("v"));
    let own = proj.data().get("/foo/bar/deeper").expect("entry");
    assert_eq!(own.entries(), vec![(String::from("k"), String::from("v"))]);
}

#[test]
fn set_value_twice_is_set_value_once() {
    let mut once = get_projector(String::from("/foo"));
    once.set_value(String::from("foo"), String::from("v"));
    let mut twice = get_projector(String::from("/foo"));
    twice.set_value(String::from("foo"), String::from("v"));
    twice.set_value(String::from("foo"), String::from("v"));

    assert_eq!(as_hash_map(&once.get_values()), as_hash_map(&twice.get_values()));
    for dir in ["/", "/foo", "/foo/bar"] {
        assert_eq!(
            as_hash_map(once.data().get(dir).expect("entry")),
            as_hash_map(twice.data().get(dir).expect("entry"))
        );
    }
    let mut dirs = twice.data().directories();
    dirs.sort();
    assert_eq!(dirs, vec!["/", "/foo", "/foo/bar"]);
}

#[test]
fn remove_value_falls_through_to_the_nearest_ancestor() {
    let mut proj = get_projector(String::from("/foo/bar"));
    proj.remove_value("foo");
    assert_eq!(proj.get_value("foo"), Some(&String::from("baz")));
    assert_eq!(proj.data().value_at("/foo/bar", "foo"), None);
    assert_eq!(proj.data().value_at("/foo", "foo"), Some(&String::from("baz")));

    let mut proj = get_projector(String::from("/foo"));
    proj.remove_value("bar");
    assert_eq!(proj.get_value("bar"), None);
    proj.remove_value("foo");
    assert_eq!(proj.get_value("foo"), Some(&String::from("bar1")));

    let mut proj = get_projector(String::from("/"));
    proj.remove_value("foo");
    assert_eq!(proj.get_value("foo"), None);
}

#[test]
fn remove_value_of_an_absent_key_or_directory_changes_nothing() {
    let mut proj = get_projector(String::from("/foo/bar"));
    proj.remove_value("fem");
    proj.remove_value("never set");
    assert_eq!(
        as_hash_map(&proj.get_values()),
        expect(&[("foo", "bar3"), ("bar", "baz"), ("fem", "is great")])
    );

    let mut proj = get_projector(String::from("/nowhere"));
    proj.remove_value("foo");
    assert!(proj.data().get("/nowhere").is_none());
    assert_eq!(proj.get_value("foo"), Some(&String::from("bar1")));
    let mut dirs = proj.data().directories();
    dirs.sort();
    assert_eq!(dirs, vec!["/", "/foo", "/foo/bar"]);
}

#[test]
fn remove_value_keeps_the_emptied_entry() {
    let mut proj = get_projector(String::from("/foo/bar"));
    proj.remove_value("foo");
    let own = proj.data().get("/foo/bar").expect("entry");
    assert!(own.entries().is_empty());
}

#[test]
fn root_entry_is_seen_and_ends_the_walk() {
    let proj = get_projector(String::from("/"));
    assert_eq!(
        as_hash_map(&proj.get_values()),
        expect(&[("foo", "bar1"), ("fem", "is great")])
    );
    assert_eq!(proj.get_value("fem"), Some(&String::from("is great")));
    assert_eq!(proj.get_value("bar"), None);

    let proj = get_projector(String::from("/a/b/c/d/e"));
    assert_eq!(proj.get_value("fem"), Some(&String::from("is great")));
    assert_eq!(proj.get_value("absent"), None);
}

#[test]
fn relative_directory_walks_to_the_empty_path() {
    let mut data = Store::new();
    data.set("".into(), "k".into(), "from empty".into());
    data.set("a".into(), "k".into(), "from a".into());
    data.set("/".into(), "k".into(), "from root".into());
    let proj = Projector::from_config(get_config("a/b", Operation::Print(None)), Loaded::Store(data));
    assert_eq!(proj.get_value("k"), Some(&String::from("from a")));

    let mut data = Store::new();
    data.set("".into(), "k".into(), "from empty".into());
    data.set("/".into(), "k".into(), "from root".into());
    let proj = Projector::from_config(get_config("a/b", Operation::Print(None)), Loaded::Store(data));
    assert_eq!(proj.get_value("k"), Some(&String::from("from empty")));
}

#[test]
fn from_config_without_a_loaded_store_starts_empty() {
    for loaded in [Loaded::Absent, Loaded::Unreadable, Loaded::Malformed] {
        let config = get_config("/foo/bar", Operation::Print(None));
        let proj = Projector::from_config(config.clone(), loaded);
        assert_eq!(proj.config(), &config);
        assert!(proj.data().directories().is_empty());
        assert!(proj.get_values().entries().is_empty());
        assert_eq!(proj.get_value("foo"), None);
    }
}

#[test]
fn from_config_after_a_failed_load_can_be_written_to() {
    let config = get_config("/foo/bar", Operation::Print(None));
    let mut proj = Projector::from_config(config, Loaded::Malformed);
    proj.set_value(String::from("k"), String::from("v"));
    assert_eq!(proj.get_value("k"), Some(&String::from("v")));
    assert_eq!(proj.data().directories(), vec!["/foo/bar"]);
}

#[test]
fn from_config_keeps_the_loaded_store() {
    let config = get_config("/foo", Operation::Remove(String::from("x")));
    let proj = Projector::from_config(config.clone(), Loaded::Store(get_data()));
    assert_eq!(proj.config(), &config);
    let mut dirs = proj.data().directories();
    dirs.sort();
    assert_eq!(dirs, vec!["/", "/foo", "/foo/bar"]);
    assert_eq!(proj.data().value_at("/foo", "bar"), Some(&String::from("baz")));
}

#[test]
fn default_data_is_empty() {
    let data = default_data();
    assert!(data.directories().is_empty());
    assert!(data.get("/").is_none());
}

#[test]
fn execute_print_all_shows_and_does_not_ask_to_write() {
    let mut proj = Projector::from_config(
        get_config("/foo/bar", Operation::Print(None)),
        Loaded::Store(get_data()),
    );
    match proj.execute() {
        Effect::Values(values) => assert_eq!(
            as_hash_map(&values),
            expect(&[("foo", "bar3"), ("bar", "baz"), ("fem", "is great")])
        ),
        other => panic!("unexpected effect {:?}", other),
    }
    assert_eq!(proj.data().value_at("/foo/bar", "foo"), Some(&String::from("bar3")));
}

#[test]
fn execute_print_one_shows_the_value_or_nothing() {
    let mut proj = Projector::from_config(
        get_config("/foo/bar", Operation::Print(Some(String::from("fem")))),
        Loaded::Store(get_data()),
    );
    assert!(matches!(proj.execute(), Effect::Value(Some(v)) if v == "is great"));

    let mut proj = Projector::from_config(
        get_config("/foo/bar", Operation::Print(Some(String::from("unknown")))),
        Loaded::Store(get_data()),
    );
    assert!(matches!(proj.execute(), Effect::Value(None)));
}

#[test]
fn execute_add_sets_and_asks_to_write() {
    let mut proj = Projector::from_config(
        get_config(
            "/foo/bar",
            Operation::Add(String::from("foo"), String::from("bar4")),
        ),
        Loaded::Store(get_data()),
    );
    assert!(matches!(proj.execute(), Effect::Persist));
    assert_eq!(proj.get_value("foo"), Some(&String::from("bar4")));
    assert_eq!(proj.data().value_at("/foo", "foo"), Some(&String::from("baz")));
}

#[test]
fn execute_remove_removes_and_asks_to_write() {
    let mut proj = Projector::from_config(
        get_config("/foo/bar", Operation::Remove(String::from("foo"))),
        Loaded::Store(get_data()),
    );
    assert!(matches!(proj.execute(), Effect::Persist));
    assert_eq!(proj.get_value("foo"), Some(&String::from("baz")));

    let mut proj = Projector::from_config(
        get_config("/foo/bar", Operation::Remove(String::from("absent"))),
        Loaded::Store(get_data()),
    );
    assert!(matches!(proj.execute(), Effect::Persist));
    assert_eq!(proj.get_value("foo"), Some(&String::from("bar3")));
}
