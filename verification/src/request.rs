//! What is checked, and announced, before the package databases are opened.

use crate::command::{source_name, Source};
use crate::style::{note, notice, paint, painted, Colour};
use vstd::prelude::*;

verus! {

/// Announces a search; every source can be searched.
pub fn search_request(query: &str, _source: Source) -> (r: Result<String, String>)
    ensures
        r matches Ok(line) && line@ == notice(
            Colour::Green,
            "Searching for "@ + painted(Colour::Yellow, query@),
        ),
{
    let message = String::from_str("Searching for ").concat(
        paint(Colour::Yellow, query).as_str(),
    );
    Ok(note(Colour::Green, message.as_str()))
}

/// Whether a search has to know the repositories: one in the AUR does not.
pub fn search_needs_repositories(source: Source) -> (r: bool)
    ensures
        r == (source != Source::Aur),
{
    source != Source::Aur
}

/// Decides whether packages of a source can be shown, and announces it.
pub fn info_request(package: &str, source: Source) -> (r: Result<String, String>)
    ensures
        match r {
            Ok(line) => source != Source::Aur && line@ == notice(
                Colour::Green,
                "Showing info for "@ + painted(Colour::Yellow, package@),
            ),
            Err(message) => source == Source::Aur && message@
                == "AUR info is not available through libalpm sync databases"@,
        },
{
    if source == Source::Aur {
        return Err(String::from_str("AUR info is not available through libalpm sync databases"));
    }
    let message = String::from_str("Showing info for ").concat(
        paint(Colour::Yellow, package).as_str(),
    );
    Ok(note(Colour::Green, message.as_str()))
}

/// Decides whether packages of a source can be listed, and announces it.
pub fn list_request(source: Source) -> (r: Result<String, String>)
    ensures
        match r {
            Ok(line) => source != Source::Aur && line@ == notice(
                Colour::Green,
                "Listing installed packages"@,
            ),
            Err(message) => source == Source::Aur && message@
                == "AUR listing is not available through libalpm local database"@,
        },
{
    if source == Source::Aur {
        return Err(
            String::from_str("AUR listing is not available through libalpm local database"),
        );
    }
    Ok(note(Colour::Green, "Listing installed packages"))
}

/// Decides whether the databases of a source can be refreshed, and announces it.
pub fn update_request(source: Source) -> (r: Result<String, String>)
    ensures
        match r {
            Ok(line) => source != Source::Aur && line@ == notice(
                Colour::Green,
                "Updating sync databases ("@ + source_name(source) + ")"@,
            ),
            Err(message) => source == Source::Aur && message@
                == "AUR is not available through libalpm sync databases"@,
        },
{
    if source == Source::Aur {
        return Err(String::from_str("AUR is not available through libalpm sync databases"));
    }
    let message = String::from_str("Updating sync databases (").concat(source.as_str()).concat(")");
    Ok(note(Colour::Green, message.as_str()))
}

/// Decides whether packages of a source can be upgraded, and announces it.
pub fn upgrade_request(source: Source) -> (r: Result<String, String>)
    ensures
        match r {
            Ok(line) => source != Source::Aur && line@ == notice(
                Colour::Green,
                "Upgrading packages"@,
            ),
            Err(message) => source == Source::Aur && message@
                == "AUR is not available through libalpm sync databases"@,
        },
{
    if source == Source::Aur {
        return Err(String::from_str("AUR is not available through libalpm sync databases"));
    }
    Ok(note(Colour::Green, "Upgrading packages"))
}

/// Decides whether packages can be removed, and announces it. That none is named is told first.
pub fn uninstall_request(packages: &Vec<String>, source: Source) -> (r: Result<String, String>)
    ensures
        match r {
            Ok(line) => packages@.len() > 0 && source != Source::Aur && line@ == notice(
                Colour::Green,
                "Removing packages"@,
            ),
            Err(message) => if packages@.len() == 0 {
                message@ == "no package names provided"@
            } else {
                source == Source::Aur && message@
                    == "AUR uninstall is not available through libalpm local database"@
            },
        },
{
    if packages.is_empty() {
        return Err(String::from_str("no package names provided"));
    }
    if source == Source::Aur {
        return Err(
            String::from_str("AUR uninstall is not available through libalpm local database"),
        );
    }
    Ok(note(Colour::Green, "Removing packages"))
}

} // verus!
