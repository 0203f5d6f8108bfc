use fmus_core::collections::{CollectionStore, Folder, Request};
use fmus_core::environments::{EnvVariable, EnvironmentStore};
use fmus_core::{client, version, FmusClient};

fn variable(key: &str, value: &str) -> EnvVariable {
    EnvVariable {
        key: key.to_string(),
        value: value.to_string(),
        enabled: true,
        is_secret: false,
    }
}

#[test]
fn environments_create_get_update_delete() {
    let mut store = EnvironmentStore::new();
    let e = store.create_environment("dev".to_string(), Some("local".to_string()));
    assert_eq!(e.name, "dev");
    assert_eq!(e.id.len(), 36);
    assert!(!e.is_active);

    let got = store.get_environment(&e.id).unwrap();
    assert_eq!(got.name, "dev");
    assert!(store.get_environment("nope").is_none());

    let updated = store
        .update_environment(&e.id, Some("dev2".to_string()), None, None)
        .unwrap();
    assert_eq!(updated.name, "dev2");
    assert_eq!(updated.description.as_deref(), Some("local"));

    assert!(store.delete_environment(&e.id));
    assert!(!store.delete_environment(&e.id));
    assert_eq!(store.list_environments().len(), 0);
}

#[test]
fn environment_variables_upsert_and_remove() {
    let mut store = EnvironmentStore::new();
    let e = store.create_environment("dev".to_string(), None);
    store.add_variable(&e.id, variable("host", "a")).unwrap();
    let after = store.add_variable(&e.id, variable("host", "b")).unwrap();
    assert_eq!(after.variables.len(), 1);
    assert_eq!(after.variables[0].value, "b");
    store.add_variable(&e.id, variable("port", "1")).unwrap();
    let removed = store.remove_variable(&e.id, "host").unwrap();
    assert_eq!(removed.variables.len(), 1);
    assert_eq!(removed.variables[0].key, "port");
    assert!(store.add_variable("missing", variable("x", "y")).is_none());
}

#[test]
fn only_one_environment_is_active_at_a_time() {
    let mut store = EnvironmentStore::new();
    let a = store.create_environment("a".to_string(), None);
    let b = store.create_environment("b".to_string(), None);

    let a_active = store.set_active_environment(&a.id).unwrap();
    assert!(a_active.is_active);
    let b_active = store.set_active_environment(&b.id).unwrap();
    assert!(b_active.is_active);
    assert!(!store.get_environment(&a.id).unwrap().is_active);
    assert_eq!(store.get_active_environment().unwrap().id, b.id);

    // Deactivating through update clears the active mark.
    store
        .update_environment(&b.id, None, None, Some(false))
        .unwrap();
    assert!(store.get_active_environment().is_none());
}

fn request(name: &str) -> Request {
    Request {
        id: format!("req-{name}"),
        name: name.to_string(),
        description: None,
        method: "GET".to_string(),
        url: "http://x".to_string(),
        headers: vec![],
        params: vec![],
        body: None,
        auth: None,
    }
}

#[test]
fn collections_create_get_update_list() {
    let mut store = CollectionStore::new();
    let c = store.create_collection("api".to_string(), None);
    assert_eq!(c.id.len(), 36);
    assert_eq!(store.list_collections().len(), 1);
    let renamed = store
        .update_collection(&c.id, Some("api2".to_string()), Some("d".to_string()))
        .unwrap();
    assert_eq!(renamed.name, "api2");
    assert_eq!(renamed.description.as_deref(), Some("d"));
    assert_eq!(store.get_collection(&c.id).unwrap().name, "api2");
    assert!(store.update_collection("missing", None, None).is_none());
}

#[test]
fn requests_join_and_leave_their_collection() {
    let mut store = CollectionStore::new();
    let c = store.create_collection("api".to_string(), None);
    let rid = store.add_request(&c.id, request("list-users")).unwrap();
    assert_eq!(rid, "req-list-users");
    assert_eq!(store.get_collection(&c.id).unwrap().requests, vec![rid.clone()]);
    assert_eq!(store.requests.len(), 1);

    assert!(store.remove_request(&c.id, &rid));
    assert!(store.get_collection(&c.id).unwrap().requests.is_empty());
    assert!(store.requests.is_empty());
    assert!(store.add_request("missing", request("x")).is_none());
}

#[test]
fn deleting_a_collection_takes_its_contents_recursively() {
    let mut store = CollectionStore::new();
    let mut c = store.create_collection("api".to_string(), None);
    let rid = store.add_request(&c.id, request("direct")).unwrap();

    // A folder holding one request and one sub-folder, wired up by hand.
    store.requests.push(request("nested"));
    store.folders.push(Folder {
        id: "folder-inner".to_string(),
        name: "inner".to_string(),
        description: None,
        requests: vec!["req-nested".to_string()],
        folders: vec![],
    });
    store.folders.push(Folder {
        id: "folder-outer".to_string(),
        name: "outer".to_string(),
        description: None,
        requests: vec![],
        folders: vec!["folder-inner".to_string()],
    });
    c = store.get_collection(&c.id).unwrap().clone();
    let idx = store
        .collections
        .iter()
        .position(|x| x.id == c.id)
        .unwrap();
    store.collections[idx].folders.push("folder-outer".to_string());

    assert!(store.delete_collection(&c.id));
    assert!(store.get_collection(&c.id).is_none());
    assert!(store.requests.is_empty(), "both requests are gone: {rid}");
    assert!(store.folders.is_empty());
    assert!(!store.delete_collection(&c.id));
}

#[test]
fn fmus_client_holds_config_and_environment() {
    let mut c = FmusClient::new(None, None);
    assert!(c.env().is_empty());
    c.set_env("host", "a");
    c.set_env("host", "b");
    c.set_env("port", "80");
    assert_eq!(
        c.env(),
        &vec![
            ("host".to_string(), "b".to_string()),
            ("port".to_string(), "80".to_string())
        ]
    );
    assert_eq!(c.http().config.timeout, Some(30));

    let c2 = client(None, Some(vec![("k".to_string(), "v".to_string())]));
    assert_eq!(c2.env().len(), 1);
    assert_eq!(version(), "0.0.1");
}
