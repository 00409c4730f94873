//! The concurrent map that holds a session's shells.
//!
//! The map is a `dashmap::DashMap`. Verus does not look inside it: what it
//! holds goes by the name [`shell_entries`], and each function below states
//! over that name what the method it calls does. None of these statements is
//! proved; they are read off the map's source. The functions that change the
//! map take it by `&mut`, so that no change can pass unseen by a contract.

use crate::shell::{peek, ShellPeek, ShellState, ShellView};
use dashmap::DashMap;
use vstd::prelude::*;

verus! {

#[verifier::external_type_specification]
#[verifier::external_body]
#[verifier::reject_recursive_types(K)]
#[verifier::reject_recursive_types(V)]
#[verifier::reject_recursive_types(S)]
pub struct ExDashMap<K, V, S>(DashMap<K, V, S>);

/// The shells that the map holds, each by its id.
pub uninterp spec fn shell_entries(shells: DashMap<u32, ShellState>) -> Map<u32, ShellView>;

/// Calls `DashMap::new`, which makes a map without entries.
#[verifier::external_body]
pub(crate) fn shells_new() -> (created: DashMap<u32, ShellState>)
    ensures
        (shell_entries(created) == Map::<u32, ShellView>::empty()),
{
    DashMap::new()
}

/// Calls `DashMap::contains_key`, which says whether the map has an entry
/// under the key.
#[verifier::external_body]
pub(crate) fn shells_contains(shells: &DashMap<u32, ShellState>, id: u32) -> (present: bool)
    ensures
        present == shell_entries(*shells).contains_key(id),
{
    shells.contains_key(&id)
}

/// Calls `DashMap::view`, which runs the closure on the entry under the key
/// if there is one and hands back what the closure gave. The closure takes a
/// look at the shell.
#[verifier::external_body]
pub(crate) fn shells_peek(shells: &DashMap<u32, ShellState>, id: u32, from: u64) -> (seen: Option<
    ShellPeek,
>)
    ensures
        match seen {
            Some(seen) => shell_entries(*shells).contains_key(id) && seen@ == peek(
                shell_entries(*shells)[id],
                from,
            ),
            None => !shell_entries(*shells).contains_key(id),
        },
{
    shells.view(&id, |_, shell| shell.peek(from))
}

/// Calls `DashMap::insert`, which puts the value under the key in place of
/// whatever was there.
#[verifier::external_body]
pub(crate) fn shells_insert(shells: &mut DashMap<u32, ShellState>, id: u32, shell: ShellState)
    ensures
        shell_entries(*final(shells)) == shell_entries(*old(shells)).insert(id, shell@),
{
    shells.insert(id, shell);
}

/// Calls `DashMap::remove`, which takes the entry under the key out of the
/// map and hands its value back, or leaves the map alone if there is none.
#[verifier::external_body]
pub(crate) fn shells_remove(shells: &mut DashMap<u32, ShellState>, id: u32) -> (taken: Option<
    ShellState,
>)
    ensures
        match taken {
            Some(shell) => {
                &&& shell_entries(*old(shells)).contains_key(id)
                &&& shell@ == shell_entries(*old(shells))[id]
                &&& shell_entries(*final(shells)) == shell_entries(*old(shells)).remove(id)
            },
            None => {
                &&& !shell_entries(*old(shells)).contains_key(id)
                &&& shell_entries(*final(shells)) == shell_entries(*old(shells))
            },
        },
{
    shells.remove(&id).map(|entry| entry.1)
}

/// Calls `DashMap::iter`, which visits every entry once, in an order that
/// nothing fixes, and collects the keys.
#[verifier::external_body]
pub(crate) fn shells_ids(shells: &DashMap<u32, ShellState>) -> (ids: Vec<u32>)
    ensures
        ids@.no_duplicates(),
        ids@.to_set() == shell_entries(*shells).dom(),
{
    shells.iter().map(|entry| *entry.key()).collect()
}

} // verus!
