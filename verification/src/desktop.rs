//! What the file browser needs to know from outside its sandbox.

use crate::long_properties::{name_or_id, name_or_number};
use crate::text::decimal;
use vstd::prelude::*;

verus! {

/// What `ls -l` shows beyond size and date.
#[derive(Debug, Clone, Default, PartialEq, Eq)]
pub struct Stat {
    /// Type and permission bits (`st_mode`).
    pub mode: Option<u32>,
    pub links: Option<u64>,
    pub owner: Option<String>,
    pub group: Option<String>,
    /// The user's UTC offset at the modification time, seconds east.
    pub utc_offset: i32,
}

/// An installed application: what the user reads, and what `open_with` takes.
#[derive(Debug, Clone, PartialEq, Eq)]
pub struct App {
    pub name: String,
    pub id: String,
}

/// What the system keeps of an entry itself (a link is not followed), and of
/// the users and the clock that it refers to.
#[derive(Debug)]
pub struct LinkDetails {
    pub mode: u32,
    pub links: u64,
    pub uid: u32,
    pub gid: u32,
    /// The name of the user `uid`, if there is such a user.
    pub user: Option<String>,
    /// The name of the group `gid`, if there is such a group.
    pub group: Option<String>,
    /// The user's UTC offset at the modification time, if it is known.
    pub utc_offset: Option<i64>,
}

/// An entry as `ls -l` sees it: nothing where the system keeps no details, a
/// number where an owner has no name, and UTC where the offset is not known.
pub fn stat(found: Option<LinkDetails>) -> (r: Option<Stat>)
    ensures
        r is Some <==> found is Some,
        match (found, r) {
            (Some(details), Some(stat)) => {
                &&& stat.mode == Some(details.mode)
                &&& stat.links == Some(details.links)
                &&& stat.owner is Some && stat.owner->0@ == name_or_number(
                    details.user,
                    details.uid,
                )
                &&& stat.group is Some && stat.group->0@ == name_or_number(
                    details.group,
                    details.gid,
                )
                &&& stat.utc_offset == match details.utc_offset {
                    Some(seconds) => seconds as i32,
                    None => 0,
                }
            },
            _ => true,
        },
        match (found, r) {
            (Some(details), Some(stat)) => {
                &&& details.user is Some ==> stat.owner->0@ == details.user->0@
                &&& details.user is None ==> stat.owner->0@ == decimal(details.uid as nat)
                &&& details.group is Some ==> stat.group->0@ == details.group->0@
                &&& details.group is None ==> stat.group->0@ == decimal(details.gid as nat)
            },
            _ => true,
        },
{
    match found {
        None => None,
        Some(details) => Some(
            Stat {
                mode: Some(details.mode),
                links: Some(details.links),
                owner: Some(name_or_id(&details.user, details.uid)),
                group: Some(name_or_id(&details.group, details.gid)),
                utc_offset: match details.utc_offset {
                    Some(seconds) => #[verifier::truncate]
                    (seconds as i32),
                    None => 0,
                },
            },
        ),
    }
}

/// The desktop of the application that runs the file browser. Outside the
/// sandbox there is none, and it touches nothing.
#[derive(Debug)]
pub struct HostDesktop;

impl HostDesktop {
    /// Move `path` to the trash.
    pub fn trash(&self, path: &str) -> (r: Result<(), String>)
        ensures
            r is Err && r->Err_0@ == "no OS trash outside the sandbox"@,
    {
        Err("no OS trash outside the sandbox".to_owned())
    }

    /// Restore the most recently trashed item that was at `path`.
    pub fn restore(&self, path: &str) -> (r: Result<(), String>)
        ensures
            r is Err && r->Err_0@ == "no OS trash outside the sandbox"@,
    {
        Err("no OS trash outside the sandbox".to_owned())
    }

    /// The user's installed applications.
    pub fn applications(&self) -> (r: Vec<App>)
        ensures
            r@ == Seq::<App>::empty(),
    {
        Vec::new()
    }

    /// Open `path` with the application `id`.
    pub fn open_with(&self, id: &str, path: &str) -> (r: Result<(), String>)
        ensures
            r is Err && r->Err_0@ == "no applications outside the sandbox"@,
    {
        Err("no applications outside the sandbox".to_owned())
    }
}

}
