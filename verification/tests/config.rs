use dotfig::config::{Config, PathKey};
use dotfig::error::Error;

fn config(save_path: Option<&str>) -> Config {
    Config {
        paths: Vec::new(),
        save_path: save_path.map(str::to_owned),
    }
}

fn key(raw: &str) -> PathKey {
    PathKey::from_str(raw).unwrap()
}

#[test]
fn backups_default_to_sitting_beside_the_config() {
    assert_eq!(
        config(None).backups_dir("/home/bob/dotfiles/dotfig.json", None).unwrap(),
        "/home/bob/dotfiles/backups"
    );
}

#[test]
fn a_bare_config_name_keeps_backups_in_the_working_directory() {
    assert_eq!(config(None).backups_dir("dotfig.json", None).unwrap(), "backups");
}

#[test]
fn a_relative_save_path_is_resolved_against_the_config() {
    assert_eq!(
        config(Some("saved/here"))
            .backups_dir("/home/bob/dotfiles/dotfig.json", None)
            .unwrap(),
        "/home/bob/dotfiles/saved/here"
    );
}

#[test]
fn an_absolute_save_path_is_used_as_is() {
    assert_eq!(
        config(Some("/mnt/backups"))
            .backups_dir("/home/bob/dotfiles/dotfig.json", None)
            .unwrap(),
        "/mnt/backups"
    );
}

#[test]
fn a_save_path_can_start_at_home() {
    assert_eq!(
        config(Some("~/Dropbox/dotfiles"))
            .backups_dir("/anywhere/dotfig.json", Some("/home/bob"))
            .unwrap(),
        "/home/bob/Dropbox/dotfiles"
    );
}

#[test]
fn an_empty_save_path_is_rejected() {
    assert!(config(Some("   ")).backups_dir("dotfig.json", None).is_err());
}

#[test]
fn a_blank_save_path_gives_the_empty_save_path_error() {
    assert_eq!(
        config(Some("\t \u{3000}")).backups_dir("/x/dotfig.json", Some("/home/bob")),
        Err(Error::EmptySavePath)
    );
}

#[test]
fn a_save_path_at_home_without_a_home_is_an_error() {
    assert_eq!(
        config(Some("~/Dropbox")).backups_dir("/x/dotfig.json", None),
        Err(Error::NoHomeDir)
    );
}

#[test]
fn parsing_splits_at_the_first_colon_and_trims() {
    let parsed = key("  Zsh : Config  ");
    assert_eq!(parsed.group, "Zsh");
    assert_eq!(parsed.title, "Config");

    let parsed = key("A:b:c");
    assert_eq!(parsed.group, "A");
    assert_eq!(parsed.title, "b:c");

    let parsed = key("\u{3000}Zed\t:\u{A0}Key Map\n");
    assert_eq!(parsed.group, "Zed");
    assert_eq!(parsed.title, "Key Map");
}

#[test]
fn parsing_rejects_what_is_not_group_colon_title() {
    for raw in ["NoColon", ":Title", "Group:", "  :  ", "", ":"] {
        assert_eq!(
            PathKey::from_str(raw),
            Err(Error::InvalidKey(raw.to_owned())),
            "{raw:?} should be rejected"
        );
    }
}

#[test]
fn parse_through_from_str_trait() {
    let parsed: PathKey = "Git:Config".parse().unwrap();
    assert_eq!(parsed, key("Git:Config"));
}

#[test]
fn a_key_survives_being_written_and_parsed_again() {
    for raw in ["Zed:Settings", "Git : Config", "Zed:Key Map", "A:b:c"] {
        let parsed = key(raw);
        assert_eq!(key(&parsed.to_string()), parsed);
    }
    assert_eq!(key("Zed : Key Map").to_string(), "Zed:Key Map");
}

#[test]
fn matching_ignores_ascii_case_only() {
    assert!(key("Zed:Settings").matches(&key("zED:SETTINGS")));
    assert!(key("Zed:Settings").matches(&key("Zed:Settings")));
    assert!(!key("Zed:Settings").matches(&key("Zed:Setting")));
    assert!(!key("Zed:Settings").matches(&key("Zsh:Settings")));
    assert!(!key("Café:x").matches(&key("CAFÉ:x")));
    assert!(key("café:x").matches(&key("CAFé:x")));
}

#[test]
fn adding_a_key_twice_adds_it_once() {
    let mut cfg = config(None);
    assert!(cfg.add(key("Zed:Settings")));
    assert!(cfg.add(key("Git:Config")));
    assert!(!cfg.add(key("zed:settings")));
    assert!(!cfg.add(key("Zed:Settings")));
    assert_eq!(cfg.paths, vec![key("Zed:Settings"), key("Git:Config")]);
}

#[test]
fn removing_takes_every_matching_key_and_keeps_the_order() {
    let mut cfg = Config {
        paths: vec![key("A:1"), key("Zed:Settings"), key("B:2"), key("ZED:settings"), key("C:3")],
        save_path: Some("/keep".to_owned()),
    };
    assert!(cfg.remove(&key("zed:SETTINGS")));
    assert_eq!(cfg.paths, vec![key("A:1"), key("B:2"), key("C:3")]);
    assert!(!cfg.remove(&key("Zed:Settings")));
    assert_eq!(cfg.paths, vec![key("A:1"), key("B:2"), key("C:3")]);
    assert_eq!(cfg.save_path.as_deref(), Some("/keep"));
}

#[test]
fn removing_a_key_just_added_restores_the_config() {
    let mut cfg = Config { paths: vec![key("A:1"), key("B:2")], save_path: None };
    assert!(cfg.add(key("C:3")));
    assert!(cfg.remove(&key("c:3")));
    assert_eq!(cfg.paths, vec![key("A:1"), key("B:2")]);
}
