//! Removing the build cache.

use crate::paths::{cache_root, cache_root_for_user, relative_part_stays_below, user_cache};
use crate::style::{note, notice, painted, Colour};
use vstd::prelude::*;

verus! {

/// Where removing the cache of a user stands.
#[derive(Debug)]
pub enum CleanStep {
    /// It has to be known whether there is anything at this path.
    Look(String),
    /// The directory at this path has to be removed, with all that it holds.
    Remove(String),
    /// The cache is gone; this line says so.
    Clean(String),
    /// The cache could not be removed, with this message.
    Failed(String),
}

/// The step, with its texts.
pub enum CleanModel {
    Look(Seq<char>),
    Remove(Seq<char>),
    Clean(Seq<char>),
    Failed(Seq<char>),
}

impl View for CleanStep {
    type V = CleanModel;

    open spec fn view(&self) -> CleanModel {
        match self {
            CleanStep::Look(path) => CleanModel::Look(path@),
            CleanStep::Remove(path) => CleanModel::Remove(path@),
            CleanStep::Clean(line) => CleanModel::Clean(line@),
            CleanStep::Failed(message) => CleanModel::Failed(message@),
        }
    }
}

/// Where removing the cache of `user` stands, by what is known of what is at its path and of how
/// the removal ended.
pub open spec fn cleaning(
    user: Seq<char>,
    exists: Option<bool>,
    removal: Option<Result<(), String>>,
) -> CleanModel {
    let path = user_cache(user);
    match (exists, removal) {
        (None, _) => CleanModel::Look(path),
        (Some(false), _) => CleanModel::Clean(
            notice(Colour::Green, "ArchBrew cache is already clean"@),
        ),
        (Some(true), None) => CleanModel::Remove(path),
        (Some(true), Some(Ok(()))) => CleanModel::Clean(
            notice(Colour::Green, "Removed ArchBrew cache: "@ + path),
        ),
        (Some(true), Some(Err(reason))) => CleanModel::Failed(
            "failed to remove cache '"@ + path + "': "@ + reason@,
        ),
    }
}

/// Removes the cache of `user`, by what is known so far of what is at its path and of how the
/// removal ended.
pub fn clean_cache(
    user: &str,
    exists: Option<bool>,
    removal: &Option<Result<(), String>>,
) -> (r: CleanStep)
    ensures
        r@ == cleaning(user@, exists, *removal),
{
    let path = cache_root_for_user(user);
    match exists {
        None => CleanStep::Look(path),
        Some(there) => {
            if !there {
                return CleanStep::Clean(note(Colour::Green, "ArchBrew cache is already clean"));
            }
            match removal {
                None => CleanStep::Remove(path),
                Some(Ok(())) => {
                    let message = String::from_str("Removed ArchBrew cache: ").concat(
                        path.as_str(),
                    );
                    CleanStep::Clean(note(Colour::Green, message.as_str()))
                },
                Some(Err(reason)) => CleanStep::Failed(
                    String::from_str("failed to remove cache '").concat(path.as_str()).concat(
                        "': ",
                    ).concat(reason.as_str()),
                ),
            }
        },
    }
}

/// Nothing but the cache of the user is ever removed, and only where there is one. It lies below the
/// directory of all caches, unless the name of the user is an absolute path.
pub proof fn only_the_cache_is_removed(
    user: Seq<char>,
    exists: Option<bool>,
    removal: Option<Result<(), String>>,
)
    requires
        cleaning(user, exists, removal) is Remove,
    ensures
        cleaning(user, exists, removal) == CleanModel::Remove(user_cache(user)),
        exists == Some(true),
        !"/"@.is_prefix_of(user) ==> cache_root().is_prefix_of(user_cache(user)),
{
    if !"/"@.is_prefix_of(user) {
        relative_part_stays_below(cache_root(), user);
    }
}

/// The steps come in turn: the cache is looked for, removed if it is there, and what came of it is
/// told with its path.
pub proof fn cleaning_steps_come_in_turn(
    user: Seq<char>,
    reason: String,
    removal: Option<Result<(), String>>,
)
    ensures
        cleaning(user, None, removal) == CleanModel::Look(user_cache(user)),
        cleaning(user, Some(true), None) == CleanModel::Remove(user_cache(user)),
        cleaning(user, Some(false), removal) == CleanModel::Clean(
            painted(Colour::Green, "==>"@) + " "@ + "ArchBrew cache is already clean"@,
        ),
        cleaning(user, Some(true), Some(Ok(()))) == CleanModel::Clean(
            painted(Colour::Green, "==>"@) + " "@ + ("Removed ArchBrew cache: "@ + user_cache(user)),
        ),
        cleaning(user, Some(true), Some(Err(reason))) == CleanModel::Failed(
            "failed to remove cache '"@ + user_cache(user) + "': "@ + reason@,
        ),
{
}

/// The texts of a step are those of the step.
pub proof fn clean_step_texts_are_those_of_the_step(step: CleanStep)
    ensures
        step is Look <==> step@ is Look,
        step is Remove <==> step@ is Remove,
        step is Clean <==> step@ is Clean,
        step is Failed <==> step@ is Failed,
        step is Look ==> step@->Look_0 == step->Look_0@,
        step is Remove ==> step@->Remove_0 == step->Remove_0@,
        step is Clean ==> step@->Clean_0 == step->Clean_0@,
        step is Failed ==> step@->Failed_0 == step->Failed_0@,
{
}

} // verus!
