//! Bumps read off the host's history itself: a commit with one parent whose
//! difference to that parent, taken at the submodule's path alone, is one
//! change of the pointer.

use vstd::prelude::*;
use crate::bump::{BumpView, SubmoduleBump};

verus! {

/// The only item of a list: the item of a list of one, and nothing of a list
/// that is empty or longer.
pub fn single<T>(items: Vec<T>) -> (only: Option<T>)
    ensures
        match only {
            Some(item) => items@ == seq![item],
            None => items@.len() != 1,
        },
{
    let mut items = items;
    if items.len() == 1 {
        let only = items.pop();
        assert(seq![only.unwrap()] =~= items@.push(only.unwrap()));
        only
    } else {
        None
    }
}

/// One change of the submodule pointer: the ids on the two sides of the
/// difference.
#[derive(Debug, PartialEq, Eq)]
pub struct PointerChange {
    pub old_id: String,
    pub new_id: String,
}

/// The bump that a commit stands for, given its parents and the changes at
/// the submodule's path between the commit and its first parent: a bump from
/// the old side to the new one where there is one parent and one change, and
/// none otherwise.
pub fn bump_of_commit(commit_id: String, parents: Vec<String>, changes: Vec<PointerChange>) -> (bump:
    Option<SubmoduleBump>)
    ensures
        match bump {
            Some(b) => parents@.len() == 1 && changes@.len() == 1 && b@ == (BumpView {
                host_commit_id: commit_id@,
                start_id: changes@[0].old_id@,
                end_id: changes@[0].new_id@,
            }),
            None => parents@.len() != 1 || changes@.len() != 1,
        },
{
    match single(parents) {
        None => None,
        Some(_) => match single(changes) {
            None => None,
            Some(change) => Some(
                SubmoduleBump {
                    host_commit_id: commit_id,
                    start_id: change.old_id,
                    end_id: change.new_id,
                },
            ),
        },
    }
}

} // verus!
