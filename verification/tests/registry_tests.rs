use pfm::registry::{AppConfig, DbConnection, Registry};

fn conn(uuid: &str, name: &str, is_default: bool) -> DbConnection {
    DbConnection {
        uuid: uuid.to_string(),
        display_name: name.to_string(),
        db_type: "local".to_string(),
        path: format!("/data/{}.db", uuid),
        is_default,
    }
}

fn registry_with(conns: Vec<DbConnection>) -> Registry {
    Registry::from_loaded(
        Some(AppConfig { default_db_path: "/data/main.db".to_string(), connections: conns }),
        "/cfg/config.json".to_string(),
    )
}

#[test]
fn unreadable_config_gives_empty_registry() {
    let r = Registry::from_loaded(None, "/cfg/config.json".to_string());
    assert_eq!(r.default_db_path(), "");
    assert!(r.connections().is_empty());
    assert_eq!(r.config_path(), "/cfg/config.json");
}

#[test]
fn add_then_get_finds_the_connection() {
    let mut r = registry_with(vec![]);
    assert_eq!(r.add_connection(conn("a", "A", true)), Ok(()));
    assert_eq!(r.add_connection(conn("b", "B", false)), Ok(()));
    let got = r.get_connection("b").expect("added connection is found");
    assert_eq!(got.display_name, "B");
    assert_eq!(r.connections().len(), 2);
}

#[test]
fn add_refuses_known_uuid() {
    let mut r = registry_with(vec![conn("a", "A", false)]);
    assert_eq!(r.add_connection(conn("a", "other", false)), Err("数据库已存在".to_string()));
    assert_eq!(r.connections().len(), 1);
    assert_eq!(r.connections()[0].display_name, "A");
}

#[test]
fn remove_refuses_default_and_keeps_it() {
    let mut r = registry_with(vec![conn("a", "A", true), conn("b", "B", false)]);
    assert_eq!(r.remove_connection("a"), Err("默认数据库不可移除".to_string()));
    assert_eq!(r.connections().len(), 2);
    assert_eq!(r.remove_connection("b"), Ok(()));
    assert!(r.get_connection("b").is_none());
    assert_eq!(r.connections().len(), 1);
}

#[test]
fn remove_of_unknown_uuid_changes_nothing() {
    let mut r = registry_with(vec![conn("a", "A", false)]);
    assert_eq!(r.remove_connection("zzz"), Ok(()));
    assert_eq!(r.connections().len(), 1);
}

#[test]
fn rename_and_move_touch_one_connection() {
    let mut r = registry_with(vec![conn("a", "A", false), conn("b", "B", false)]);
    assert_eq!(r.update_display_name("b", "Bee".to_string()), Ok(()));
    assert_eq!(r.update_path("a", "/elsewhere/a.db".to_string()), Ok(()));
    assert_eq!(r.get_connection("b").unwrap().display_name, "Bee");
    assert_eq!(r.get_connection("b").unwrap().path, "/data/b.db");
    assert_eq!(r.get_connection("a").unwrap().path, "/elsewhere/a.db");
    assert_eq!(r.get_connection("a").unwrap().display_name, "A");
}

#[test]
fn updates_of_unknown_uuid_fail() {
    let mut r = registry_with(vec![conn("a", "A", false)]);
    assert_eq!(r.update_display_name("x", "X".to_string()), Err("数据库未找到".to_string()));
    assert_eq!(r.update_path("x", "/x".to_string()), Err("数据库未找到".to_string()));
}

#[test]
fn default_connection_is_the_first_marked() {
    let r = registry_with(vec![conn("a", "A", false), conn("b", "B", true), conn("c", "C", true)]);
    assert_eq!(r.get_default_connection().unwrap().uuid, "b");
    let none = registry_with(vec![conn("a", "A", false)]);
    assert!(none.get_default_connection().is_none());
}

#[test]
fn set_default_path_keeps_connections() {
    let mut r = registry_with(vec![conn("a", "A", false)]);
    r.set_default_db_path("/new/main.db".to_string());
    assert_eq!(r.default_db_path(), "/new/main.db");
    assert_eq!(r.connections().len(), 1);
}
