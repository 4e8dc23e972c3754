//! The registry's contents.
use std::collections::HashMap;
use vstd::prelude::*;

verus! {

/// Where a tunnel leads, and how fast it may be, in MiB per second.
#[derive(Debug, Clone)]
pub struct TunnelEntry {
    pub host: String,
    pub port: u16,
    pub rate_limit_upload_m: Option<u16>,
    pub rate_limit_download_m: Option<u16>,
}

/// The mathematical content of a [`TunnelEntry`].
pub ghost struct TunnelEntryView {
    pub host: Seq<char>,
    pub port: u16,
    pub rate_limit_upload_m: Option<u16>,
    pub rate_limit_download_m: Option<u16>,
}

impl View for TunnelEntry {
    type V = TunnelEntryView;

    open spec fn view(&self) -> TunnelEntryView {
        TunnelEntryView {
            host: self.host@,
            port: self.port,
            rate_limit_upload_m: self.rate_limit_upload_m,
            rate_limit_download_m: self.rate_limit_download_m,
        }
    }
}

/// An entry stands for its host, its port and its limits.
pub proof fn law_entry_stands_for_itself(e: TunnelEntry)
    ensures
        e@.host == e.host@,
        e@.port == e.port,
        e@.rate_limit_upload_m == e.rate_limit_upload_m,
        e@.rate_limit_download_m == e.rate_limit_download_m,
{
}

/// The tunnels that are up, by id.
#[derive(Debug)]
pub struct AppState {
    map: HashMap<u128, TunnelEntry>,
}

impl View for AppState {
    type V = Map<u128, TunnelEntryView>;

    closed spec fn view(&self) -> Map<u128, TunnelEntryView> {
        self.map@.map_values(|e: TunnelEntry| e@)
    }
}

impl AppState {
    /// A registry without tunnels.
    pub fn new() -> (r: AppState)
        ensures
            r@ == Map::<u128, TunnelEntryView>::empty(),
    {
        let r = AppState { map: HashMap::new() };
        assert(r@ =~= Map::empty());
        r
    }

    /// The entry of a tunnel that is up.
    pub fn get(&self, id: u128) -> (r: Option<&TunnelEntry>)
        ensures
            match r {
                Some(e) => self@.contains_key(id) && self@[id] == e@,
                None => !self@.contains_key(id),
            },
    {
        broadcast use vstd::std_specs::hash::group_hash_axioms;

        self.map.get(&id)
    }

    /// Puts a tunnel up, in place of an earlier entry for it.
    pub fn insert(&mut self, id: u128, entry: TunnelEntry)
        ensures
            final(self)@ == old(self)@.insert(id, entry@),
    {
        broadcast use vstd::std_specs::hash::group_hash_axioms;

        self.map.insert(id, entry);
        assert(self@ =~= old(self)@.insert(id, entry@));
    }

    /// Takes a tunnel down, and says whether it was up.
    pub fn remove(&mut self, id: u128) -> (r: bool)
        ensures
            r == old(self)@.contains_key(id),
            final(self)@ == old(self)@.remove(id),
    {
        broadcast use vstd::std_specs::hash::group_hash_axioms;

        let was_up = self.map.contains_key(&id);
        self.map.remove(&id);
        assert(self@ =~= old(self)@.remove(id));
        was_up
    }
}

} // verus!
