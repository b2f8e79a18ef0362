//! The host store: named entries that the user keeps, each with the
//! attributes of one connection.

use vstd::prelude::*;
use crate::text::views;
use crate::text::opt_view;
use crate::text::clone_opt;
use crate::text::clone_strings;
use crate::store::names;
use crate::store::without;
use crate::store::has_name;
use crate::store::remove_named;

verus! {

/// The attributes that the store keeps for one host.
#[derive(Debug, Clone)]
pub struct HostEntry {
    pub hostname: String,
    pub user: Option<String>,
    pub port: Option<u16>,
    pub identity_file: Option<String>,
    pub tags: Vec<String>,
}

/// What a `HostEntry` holds.
pub struct HostEntryView {
    pub hostname: Seq<char>,
    pub user: Option<Seq<char>>,
    pub port: Option<u16>,
    pub identity_file: Option<Seq<char>>,
    pub tags: Seq<Seq<char>>,
}

impl View for HostEntry {
    type V = HostEntryView;

    open spec fn view(&self) -> HostEntryView {
        HostEntryView {
            hostname: self.hostname@,
            user: opt_view(self.user),
            port: self.port,
            identity_file: opt_view(self.identity_file),
            tags: views(self.tags@),
        }
    }
}

impl HostEntry {
    /// A copy of this entry.
    pub fn duplicate(&self) -> (r: HostEntry)
        ensures
            r@ == self@,
    {
        HostEntry {
            hostname: self.hostname.clone(),
            user: clone_opt(&self.user),
            port: self.port,
            identity_file: clone_opt(&self.identity_file),
            tags: clone_strings(self.tags.as_slice()),
        }
    }
}

/// Why a change to a store was refused.
#[derive(Debug, Clone, Copy, PartialEq, Eq, Structural)]
pub enum StoreError {
    /// An entry of that name is there already.
    AlreadyExists,
    /// No entry has that name.
    NotFound,
}

/// The entry that a store holds under `name`: the last one of that name.
pub open spec fn lookup(store: Seq<(String, HostEntry)>, name: Seq<char>) -> Option<HostEntryView>
    decreases store.len(),
{
    if store.len() == 0 {
        None
    } else if store.last().0@ == name {
        Some(store.last().1@)
    } else {
        lookup(store.drop_last(), name)
    }
}

/// Adds `entry` under `name`. A store that holds the name already is left
/// as it is, and the name is reported.
pub fn add_host(store: &mut Vec<(String, HostEntry)>, name: &str, entry: HostEntry) -> (r: Result<
    (),
    StoreError,
>)
    ensures
        names(old(store)@).contains(name@) ==> r == Err::<(), StoreError>(StoreError::AlreadyExists)
            && *final(store) == *old(store),
        !names(old(store)@).contains(name@) ==> r is Ok && final(store)@.len() == old(store)@.len()
            + 1 && final(store)@.drop_last() == old(store)@ && final(store)@.last().0@ == name@
            && final(store)@.last().1 == entry,
{
    if has_name(store, name) {
        return Err(StoreError::AlreadyExists);
    }
    store.push((name.to_owned(), entry));
    assert(store@.drop_last() =~= old(store)@);
    Ok(())
}

/// Removes what the store holds under `name`. A store without that name is
/// left as it is, and the lack is reported.
pub fn remove_host(store: &mut Vec<(String, HostEntry)>, name: &str) -> (r: Result<(), StoreError>)
    ensures
        !names(old(store)@).contains(name@) ==> r == Err::<(), StoreError>(StoreError::NotFound)
            && *final(store) == *old(store),
        names(old(store)@).contains(name@) ==> r is Ok && final(store)@ == without(
            old(store)@,
            name@,
        ),
        r is Ok ==> !names(final(store)@).contains(name@),
{
    if !has_name(store, name) {
        return Err(StoreError::NotFound);
    }
    remove_named(store, name);
    Ok(())
}

} // verus!
