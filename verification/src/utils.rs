//! Resolving the config file and expanding `~/`.
use vstd::prelude::*;

use crate::error::{text_result, Error};
use crate::pathname::{ends_with, is_absolute_path, join, lemma_join_keeps_both_parts, path_join};

verus! {

/// Whether `path` starts with `~/`, the spelling of the home directory.
pub open spec fn starts_at_home(path: Seq<char>) -> bool {
    path.len() >= 2 && path[0] == '~' && path[1] == '/'
}

/// `path` with a leading `~/` replaced by `home`; an error where `path`
/// starts with `~/` and no home directory is known.
pub open spec fn expanded(path: Seq<char>, home: Option<Seq<char>>) -> Result<Seq<char>, Error> {
    if starts_at_home(path) {
        match home {
            Some(h) => Ok(path_join(h, path.skip(2))),
            None => Err(Error::NoHomeDir),
        }
    } else {
        Ok(path)
    }
}

/// Expansion touches only a leading `~/`: any other path is kept as it is;
/// one under `~/` needs a home directory, and then is everything after the
/// `~/`, kept whole, joined onto the home directory.
pub proof fn lemma_expansion_keeps_the_rest(path: Seq<char>, home: Option<Seq<char>>)
    ensures
        !starts_at_home(path) ==> expanded(path, home) == Ok::<Seq<char>, Error>(path),
        starts_at_home(path) && home is None ==> expanded(path, home) == Err::<Seq<char>, Error>(
            Error::NoHomeDir,
        ),
        starts_at_home(path) && home is Some ==> {
            let rest = path.subrange(2, path.len() as int);
            &&& expanded(path, home) == Ok::<Seq<char>, Error>(path_join(home.unwrap(), rest))
            &&& ends_with(path_join(home.unwrap(), rest), rest)
        },
{
    if starts_at_home(path) && home is Some {
        assert(path.skip(2) =~= path.subrange(2, path.len() as int));
        lemma_join_keeps_both_parts(home.unwrap(), path.subrange(2, path.len() as int));
    }
}

/// A path under `~/` expanded into an absolute home directory is absolute.
pub proof fn lemma_expanded_home_is_absolute(path: Seq<char>, home: Seq<char>)
    requires
        starts_at_home(path),
        is_absolute_path(home),
    ensures
        expanded(path, Some(home)) matches Ok(full) && is_absolute_path(full),
{
    let rest = path.skip(2);
    if !is_absolute_path(rest) {
        if home.last() == '/' {
            assert((home + rest)[0] == home[0]);
        } else {
            assert((home + seq!['/'] + rest)[0] == home[0]);
        }
    }
}

/// Expand a leading `~/` into the home directory `home`, the user's home
/// directory where one was found.
///
/// A path that does not start with `~/` comes back unchanged, whatever
/// `home` is; one that does is `home` joined with the rest of it, and
/// `Error::NoHomeDir` where `home` is `None`.
pub fn expand_home(path: &str, home: Option<&str>) -> (r: Result<String, Error>)
    ensures
        text_result(r) == expanded(path@, match home {
            Some(h) => Some(h@),
            None => None,
        }),
{
    let n: usize = path.unicode_len();
    if n >= 2 && path.get_char(0) == '~' && path.get_char(1) == '/' {
        match home {
            Some(h) => {
                let rest = path.substring_char(2, n);
                Ok(join(h, rest))
            },
            None => Err(Error::NoHomeDir),
        }
    } else {
        Ok(path.to_owned())
    }
}

/// Check that a path names an existing file, and give its absolute form.
///
/// `resolved` is what resolving `path` on disk gave: the canonical absolute
/// path, or the reason it could not be resolved. `is_file` tells whether
/// the resolved path is a file. The result is the resolved path where it is
/// a file, `Error::CouldNotResolve` where it could not be resolved, and
/// `Error::NotAFile` where it is something else.
pub fn does_file_exist(path: &str, resolved: Result<String, String>, is_file: bool) -> (r: Result<
    String,
    Error,
>)
    ensures
        match resolved {
            Err(reason) => r matches Err(Error::CouldNotResolve { path: p, reason: why }) && p@
                == path@ && why == reason,
            Ok(full) => if is_file {
                r == Ok::<String, Error>(full)
            } else {
                r == Err::<String, Error>(Error::NotAFile(full))
            },
        },
{
    match resolved {
        Err(reason) => Err(Error::CouldNotResolve { path: path.to_owned(), reason }),
        Ok(full) => {
            if !is_file {
                return Err(Error::NotAFile(full));
            }
            Ok(full)
        },
    }
}

} // verus!
