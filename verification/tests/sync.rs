use std::path::Path;

use dotfig::error::Error;
use dotfig::paths::KnownPath;
use dotfig::sync::{backup, backup_path, copy_plan, restore, CopyPlan, Outcome, Transfer};
use dotfig::utils::expand_home;

fn known(group: &str, title: &str, path: &str) -> KnownPath {
    KnownPath {
        group: group.to_owned(),
        title: title.to_owned(),
        path: path.to_owned(),
    }
}

#[test]
fn backups_are_grouped_by_group_then_title() {
    assert_eq!(
        backup_path("/tmp/backups", &known("Zed", "Key Map", "~/.config/zed/keymap.json")),
        "/tmp/backups/Zed/Key Map"
    );
}

#[test]
fn sync_absolute_paths_are_left_alone() {
    assert_eq!(expand_home("/etc/hosts", None).unwrap(), "/etc/hosts");
}

#[test]
fn sync_a_leading_tilde_becomes_the_home_directory() {
    assert_eq!(expand_home("~/.zshrc", Some("/home/bob")).unwrap(), "/home/bob/.zshrc");
}

#[test]
fn sync_a_tilde_elsewhere_is_not_expanded() {
    assert_eq!(expand_home("/tmp/~/file", None).unwrap(), "/tmp/~/file");
}

#[test]
fn copying_reports_a_missing_source() {
    let from = "/nonexistent/dotfig/source";
    let to = "/nonexistent/dotfig/dest";

    let outcome = copy_plan(from, to, Path::new(from).exists(), Path::new(from).is_file()).unwrap();

    assert!(matches!(&outcome, CopyPlan::Skip(Outcome::Missing(path)) if path == from), "{outcome:?}");
    assert!(!Path::new(to).exists(), "a missing source should not create a destination");
}

#[test]
fn copying_something_other_than_a_file_is_an_error() {
    assert_eq!(copy_plan("/etc", "/tmp/x", true, false), Err(Error::NotAFile("/etc".to_owned())));
}

#[test]
fn copying_a_file_creates_the_destination_directory_first() {
    assert_eq!(
        copy_plan("/home/bob/.zshrc", "/tmp/backups/Zsh/Config", true, true),
        Ok(CopyPlan::Copy {
            dir: Some("/tmp/backups/Zsh".to_owned()),
            done: Outcome::Copied("/tmp/backups/Zsh/Config".to_owned()),
        })
    );
}

#[test]
fn a_backup_copies_the_live_file_into_the_backups() {
    let entry = known("Zsh", "Config", "~/.zshrc");
    assert_eq!(
        backup("/tmp/backups", &entry, Some("/home/bob")),
        Ok(Transfer { from: "/home/bob/.zshrc".to_owned(), to: "/tmp/backups/Zsh/Config".to_owned() })
    );
    assert_eq!(backup("/tmp/backups", &entry, None), Err(Error::NoHomeDir));
}

#[test]
fn a_restore_is_a_backup_the_other_way_round() {
    for entry in [known("Zsh", "Config", "~/.zshrc"), known("Hosts", "File", "/etc/hosts")] {
        let there = backup("/srv/b", &entry, Some("/home/bob")).unwrap();
        let back = restore("/srv/b", &entry, Some("/home/bob")).unwrap();
        assert_eq!(back, Transfer { from: there.to, to: there.from });
    }
    assert_eq!(restore("/srv/b", &known("Zsh", "Config", "~/.zshrc"), None), Err(Error::NoHomeDir));
}
