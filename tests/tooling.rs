use chiron::cloud_config::CloudConfig;
use chiron::store::{
    get_registry_config_store_users, get_registry_map_store, list_repositories, list_response,
    objects_or_blank, property_at_error, registry_store_path, RegistryMapStore, Repository,
    StoredObject,
};
use chiron::tooling::{Design, Install, MakeElm};
use std::collections::BTreeMap;

#[test]
fn labs_keeps_runmd_files() {
    let files = vec![
        "demo/.runmd".to_string(),
        "demo/readme.md".to_string(),
        ".runmd".to_string(),
        "other/.runmd".to_string(),
    ];
    assert_eq!(Design::labs(&files), vec!["demo/.runmd".to_string(), "other/.runmd".to_string()]);
    assert!(Design::labs(&vec![]).is_empty());
}

#[test]
fn install_file_src_formats_path() {
    assert_eq!(
        Install::file_src("lib", "cloud_init", None, "azcli", "yml"),
        "lib/cloud_init/install-azcli.yml"
    );
    assert_eq!(Install::file_src("lib", "elm", Some("setup"), "b", "sh"), "lib/elm/setup-b.sh");
}

#[test]
fn lib_file_name_trims_shell_dir() {
    assert_eq!(Install::lib_file_name("lib/sh/run.sh"), Some("run.sh".to_string()));
    assert_eq!(Install::lib_file_name("lib/sh/lib/sh/x.sh"), Some("x.sh".to_string()));
    assert_eq!(Install::lib_file_name("lib/shell.sh"), Some("lib/shell.sh".to_string()));
    assert_eq!(Install::lib_file_name("src/run.sh"), None);
}

#[test]
fn elm_command_line() {
    assert_eq!(MakeElm::command("Main.elm", "main.js"), "elm make Main.elm --output main.js\n");
}

#[test]
fn unreadable_records_become_blank_objects() {
    let rec = RegistryMapStore {
        children: vec!["c".to_string()],
        connected_registry_id: "id".to_string(),
        parent_registry_id: "p".to_string(),
        connected_registry_name: "n".to_string(),
    };
    let out = get_registry_map_store(Some(vec![Some(rec), None])).unwrap();
    assert_eq!(out.len(), 2);
    assert_eq!(out[0].connected_registry_id, "id");
    assert_eq!(out[0].children, vec!["c".to_string()]);
    assert!(out[1].children.is_empty());
    assert_eq!(out[1].connected_registry_name, "");
    assert!(get_registry_map_store(None).is_none());
    assert!(list_repositories(Some(vec![])).unwrap().is_empty());
    let repos = list_repositories(Some(vec![None])).unwrap();
    assert!(!repos[0].locked);
    assert_eq!(repos[0].repository_name, "");
    let users = get_registry_config_store_users(Some(vec![None, Some(BTreeMap::new())])).unwrap();
    assert!(users[0].is_empty());
    let blank = Repository::blank();
    assert_eq!(blank.repository_id, "");
    let objs: Option<Vec<Repository>> = objects_or_blank(None);
    assert!(objs.is_none());
}

#[test]
fn store_path_joins_root_and_id() {
    assert_eq!(registry_store_path("/var/db", "reg1"), "/var/db/reg1");
}

#[test]
fn list_response_found_and_missing() {
    let (status, body) = list_response(Some(vec![1, 2, 3]));
    assert_eq!(status, 200);
    assert_eq!(body, vec![1, 2, 3]);
    let (status, body) = list_response::<u8>(None);
    assert_eq!(status, 404);
    assert!(body.is_empty());
}

#[test]
fn property_at_error_takes_second_to_last_piece() {
    let raw = r#"{"Children": [], "ConnectedRegistryId": 5}"#;
    let column = raw.find('5').unwrap() + 1;
    assert_eq!(property_at_error(raw, column), Some("ConnectedRegistryId".to_string()));
    assert_eq!(property_at_error("abc\"def", 100), Some("abc".to_string()));
    assert_eq!(property_at_error("no quotes", 5), None);
    assert_eq!(property_at_error("", 0), None);
}

#[test]
fn cloud_config_renders_present_modules() {
    let c = CloudConfig {
        package_update: Some(true),
        package_upgrade: None,
        packages: Some(vec!["curl".to_string(), "jq".to_string()]),
        runcmd: Some(vec![]),
    };
    assert_eq!(c.to_string(), "package_update: true\npackages:\n - curl\n - jq\nruncmd:\n");
    let empty = CloudConfig { package_update: None, package_upgrade: Some(false), packages: None, runcmd: None };
    assert_eq!(empty.to_string(), "package_upgrade: false\n");
}
