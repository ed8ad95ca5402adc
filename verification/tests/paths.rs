use dotfig::config::PathKey;
use dotfig::paths::{KnownPath, Registry};

fn known(group: &str, title: &str, path: &str) -> KnownPath {
    KnownPath {
        group: group.to_owned(),
        title: title.to_owned(),
        path: path.to_owned(),
    }
}

fn registry() -> Registry {
    Registry {
        paths: vec![
            known("Zed", "Settings", "~/.config/zed/settings.json"),
            known("Zed", "Key Map", "~/.config/zed/keymap.json"),
            known("Ghostty", "Config", "~/.config/ghostty/config"),
            known("Zsh", "Config", "~/.zshrc"),
            known("Git", "Config", "~/.gitconfig"),
            known("Hosts", "File", "/etc/hosts"),
        ],
    }
}

fn key(raw: &str) -> PathKey {
    raw.parse().unwrap()
}

#[test]
fn entries_are_addressable() {
    for entry in &registry().paths {
        let name = entry.key().to_string();

        assert!(!entry.group.contains(':'), "{name} group contains a `:`");
        assert!(!entry.title.contains(':'), "{name} title contains a `:`");

        let found = registry().get(&key(&name)).map(|found| found.path.clone());

        assert_eq!(found.as_deref(), Some(entry.path.as_str()), "{name} does not resolve to itself");
    }
}

#[test]
fn get_finds_a_known_path() {
    assert_eq!(
        registry().get(&key("Zed:Settings")).map(|known| known.path.as_str()),
        Some("~/.config/zed/settings.json")
    );
}

#[test]
fn get_ignores_case() {
    let registry = registry();
    let expected = registry.get(&key("Ghostty:Config")).map(|known| known.path.as_str());

    assert!(expected.is_some());
    assert_eq!(registry.get(&key("ghostty:config")).map(|known| known.path.as_str()), expected);
    assert_eq!(registry.get(&key("GHOSTTY:CONFIG")).map(|known| known.path.as_str()), expected);
}

#[test]
fn get_ignores_surrounding_whitespace() {
    let registry = registry();

    assert_eq!(
        registry.get(&key("  Zsh : Config  ")).map(|known| known.path.as_str()),
        registry.get(&key("Zsh:Config")).map(|known| known.path.as_str())
    );
    assert!(registry.get(&key("Zsh:Config")).is_some());
}

#[test]
fn get_returns_none_for_an_unknown_key() {
    let registry = registry();

    assert!(registry.get(&key("Nope:Missing")).is_none());
    assert!(
        registry.get(&key("Zed:Nothing")).is_none(),
        "a known group with an unknown title should not match"
    );
    assert!(
        registry.get(&key("Nothing:Settings")).is_none(),
        "an unknown group with a known title should not match"
    );
}

#[test]
fn get_gives_the_first_of_matching_entries() {
    let registry = Registry {
        paths: vec![known("A", "x", "/first"), known("a", "X", "/second")],
    };
    assert_eq!(registry.get(&key("A:X")).map(|k| k.path.as_str()), Some("/first"));
}

#[test]
fn resolving_keeps_the_order_of_the_keys() {
    let registry = registry();
    let keys = vec![key("Git:Config"), key("Nope:Missing"), key("zed:settings")];
    let resolved: Vec<Option<&str>> = registry
        .resolve(&keys)
        .into_iter()
        .map(|found| found.map(|k| k.path.as_str()))
        .collect();
    assert_eq!(resolved, vec![Some("~/.gitconfig"), None, Some("~/.config/zed/settings.json")]);
}

#[test]
fn a_known_path_names_itself() {
    let entry = known("Zed", "Key Map", "~/.config/zed/keymap.json");
    assert_eq!(entry.key(), key("Zed:Key Map"));
    assert!(entry.matches(&key("ZED:key map")));
    assert!(!entry.matches(&key("Zed:Keymap")));
}
