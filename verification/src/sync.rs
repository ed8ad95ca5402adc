//! Where each known path is backed up to, and what copying one file involves.
use vstd::prelude::*;

use crate::config::opt_view;
use crate::error::Error;
use crate::pathname::{is_plain_path, join, parent, path_join, path_parent, plain_parent};
use crate::paths::{entry_key, KnownPath};
use crate::utils::{expand_home, expanded};

verus! {

/// What happened to a single path.
#[derive(Debug, PartialEq, Eq)]
pub enum Outcome {
    /// The file was copied to this destination.
    Copied(String),
    /// There was nothing to copy at this source.
    Missing(String),
}

/// A copy to make: from one path to another.
#[derive(Debug, PartialEq, Eq)]
pub struct Transfer {
    pub from: String,
    pub to: String,
}

impl View for Transfer {
    type V = (Seq<char>, Seq<char>);

    open spec fn view(&self) -> (Seq<char>, Seq<char>) {
        (self.from@, self.to@)
    }
}

/// What copying a file involves, once it is known whether the source exists.
#[derive(Debug, PartialEq, Eq)]
pub enum CopyPlan {
    /// Nothing to copy; report this outcome.
    Skip(Outcome),
    /// Create the directory `dir` where one is given, copy the file, and
    /// report `done`.
    Copy { dir: Option<String>, done: Outcome },
}

/// Where the entry named `key` lives inside the backup directory `root`:
/// `root/group/title`.
pub open spec fn backup_location(root: Seq<char>, key: (Seq<char>, Seq<char>)) -> Seq<char> {
    path_join(path_join(root, key.0), key.1)
}

/// The copy that backs `known` up into `root`: from the live file, its
/// leading `~/` expanded into `home`, to its place in the backup directory.
pub open spec fn backup_transfer(root: Seq<char>, known: KnownPath, home: Option<Seq<char>>) -> Result<
    (Seq<char>, Seq<char>),
    Error,
> {
    match expanded(known.path@, home) {
        Err(e) => Err(e),
        Ok(live) => Ok((live, backup_location(root, entry_key(known)))),
    }
}

/// A backup always copies from the live file, its `~/` expanded, to
/// `root/group/title`, whatever form the live path has; it fails exactly
/// where expanding the live path fails.
pub proof fn lemma_backup_goes_from_live_file_to_backup(
    root: Seq<char>,
    known: KnownPath,
    home: Option<Seq<char>>,
)
    ensures
        backup_transfer(root, known, home) is Err <==> expanded(known.path@, home) is Err,
        backup_transfer(root, known, home) matches Ok(t) ==> {
            &&& expanded(known.path@, home) == Ok::<Seq<char>, Error>(t.0)
            &&& t.1 == path_join(path_join(root, known.group@), known.title@)
        },
{
}

/// Where `known` lives inside the backup directory `root`.
pub fn backup_path(root: &str, known: &KnownPath) -> (r: String)
    ensures
        r@ == backup_location(root@, entry_key(*known)),
{
    let dir = join(root, known.group.as_str());
    join(dir.as_str(), known.title.as_str())
}

/// The copy that backs `known` up: from the live file to the backup.
///
/// Fails with `Error::NoHomeDir` where the live path starts with `~/` and
/// `home` is `None`.
pub fn backup(root: &str, known: &KnownPath, home: Option<&str>) -> (r: Result<Transfer, Error>)
    ensures
        match backup_transfer(root@, *known, opt_view(home)) {
            Err(e) => r == Err::<Transfer, Error>(e),
            Ok(t) => r matches Ok(x) && x@ == t,
        },
{
    let live = expand_home(known.path.as_str(), home)?;
    Ok(Transfer { from: live, to: backup_path(root, known) })
}

/// The copy that restores `known`: the backup copied back over the live
/// file, the very copy that `backup` makes, the other way round.
pub fn restore(root: &str, known: &KnownPath, home: Option<&str>) -> (r: Result<Transfer, Error>)
    ensures
        match backup_transfer(root@, *known, opt_view(home)) {
            Err(e) => r == Err::<Transfer, Error>(e),
            Ok(t) => r matches Ok(x) && x@ == (t.1, t.0),
        },
{
    let saved = backup_path(root, known);
    let live = expand_home(known.path.as_str(), home)?;
    Ok(Transfer { from: saved, to: live })
}

/// What copying `from` to `to` involves: nothing where `from` does not
/// exist (reported as `Outcome::Missing(from)`), `Error::NotAFile(from)`
/// where it exists but is not a file, and otherwise creating the directory
/// that holds `to`, if `to` has one, then copying, reported as
/// `Outcome::Copied(to)`.
pub fn copy_plan(from: &str, to: &str, from_exists: bool, from_is_file: bool) -> (r: Result<
    CopyPlan,
    Error,
>)
    ensures
        !from_exists ==> (r matches Ok(CopyPlan::Skip(Outcome::Missing(p))) && p@ == from@),
        from_exists && !from_is_file ==> (r matches Err(Error::NotAFile(p)) && p@ == from@),
        from_exists && from_is_file ==> (r matches Ok(
            CopyPlan::Copy { dir, done: Outcome::Copied(p) },
        ) && p@ == to@ && match dir {
            Some(d) => path_parent(to@) == Some(d@) && (is_plain_path(to@) ==> d@ == plain_parent(
                to@,
            )),
            None => path_parent(to@) is None && !is_plain_path(to@),
        }),
{
    if !from_exists {
        return Ok(CopyPlan::Skip(Outcome::Missing(from.to_owned())));
    }
    if !from_is_file {
        return Err(Error::NotAFile(from.to_owned()));
    }
    Ok(CopyPlan::Copy { dir: parent(to), done: Outcome::Copied(to.to_owned()) })
}

} // verus!
