use dotfig::error::Error;
use dotfig::pathname::{is_absolute, join, parent_dir};
use dotfig::utils::{does_file_exist, expand_home};

#[test]
fn utils_absolute_paths_are_left_alone() {
    assert_eq!(expand_home("/etc/hosts", None).unwrap(), "/etc/hosts");
}

#[test]
fn utils_a_leading_tilde_becomes_the_home_directory() {
    assert_eq!(expand_home("~/.zshrc", Some("/home/bob")).unwrap(), "/home/bob/.zshrc");
}

#[test]
fn utils_a_tilde_elsewhere_is_not_expanded() {
    assert_eq!(expand_home("/tmp/~/file", None).unwrap(), "/tmp/~/file");
}

#[test]
fn a_leading_tilde_without_a_home_is_an_error() {
    assert_eq!(expand_home("~/.zshrc", None), Err(Error::NoHomeDir));
    assert_eq!(expand_home("~", None).unwrap(), "~");
    assert_eq!(expand_home("~user/x", None).unwrap(), "~user/x");
}

#[test]
fn an_existing_file_is_given_by_its_resolved_path() {
    assert_eq!(
        does_file_exist("dotfig.json", Ok("/home/bob/dotfig.json".to_owned()), true),
        Ok("/home/bob/dotfig.json".to_owned())
    );
}

#[test]
fn a_directory_is_not_a_file() {
    assert_eq!(
        does_file_exist("dir", Ok("/home/bob/dir".to_owned()), false),
        Err(Error::NotAFile("/home/bob/dir".to_owned()))
    );
}

#[test]
fn an_unresolvable_path_keeps_the_reason() {
    assert_eq!(
        does_file_exist("nope.json", Err("No such file or directory".to_owned()), false),
        Err(Error::CouldNotResolve {
            path: "nope.json".to_owned(),
            reason: "No such file or directory".to_owned(),
        })
    );
}

#[test]
fn the_parent_directory_drops_the_last_component() {
    assert_eq!(parent_dir("/home/bob/dotfig.json"), "/home/bob");
    assert_eq!(parent_dir("dotfig.json"), "");
    assert_eq!(parent_dir("/"), "");
}

#[test]
fn errors_read_as_before() {
    assert_eq!(
        Error::InvalidKey("Nope".to_owned()).message(),
        "`Nope` is not a valid path, expected `Group:Title`"
    );
    assert_eq!(
        Error::EmptySavePath.message(),
        "`save_path` is empty, remove it to use the default"
    );
    assert_eq!(Error::NoHomeDir.message(), "Could not find your home directory");
    assert_eq!(Error::NotAFile("/etc".to_owned()).message(), "/etc is not a file");
    assert_eq!(
        Error::CouldNotResolve { path: "x".to_owned(), reason: "gone".to_owned() }.message(),
        "Could not resolve x: gone"
    );
}

#[test]
fn joining_is_what_std_path_join_does() {
    let samples = ["", "/", "/tmp", "/tmp/", "a", "a/b", "a/b/", "Key Map", "/etc/hosts", "é"];
    for base in samples {
        for path in samples {
            let expected = std::path::Path::new(base).join(path).to_string_lossy().into_owned();
            assert_eq!(join(base, path), expected, "{base:?} joined with {path:?}");
        }
    }
    assert_eq!(join("/tmp/backups", "Zed"), "/tmp/backups/Zed");
    assert_eq!(join("/home/bob/", ".zshrc"), "/home/bob/.zshrc");
    assert_eq!(join("", "backups"), "backups");
    assert_eq!(join("/home/bob", "/etc/hosts"), "/etc/hosts");
}

#[test]
fn absoluteness_is_what_std_decides() {
    for path in ["", "/", "/x", "x", "./x", "~/x", "é/x"] {
        assert_eq!(is_absolute(path), std::path::Path::new(path).is_absolute(), "{path:?}");
    }
}

#[test]
fn a_plain_path_loses_its_last_component() {
    for path in ["/home/bob/dotfig.json", "/foo", "foo", "foo/bar", "a/../b", "..", "/x/y/z"] {
        let expected = std::path::Path::new(path)
            .parent()
            .map(|p| p.to_string_lossy().into_owned())
            .unwrap_or_default();
        assert_eq!(parent_dir(path), expected, "{path:?}");
    }
    assert_eq!(parent_dir("/foo"), "/");
    assert_eq!(parent_dir(""), "");
}
