//! Connections: the saved profiles and which one is active.

pub mod profile;

use vstd::prelude::*;
use crate::strings::concat3;
use profile::{copy_opt, engine_name, ConnectionProfile};

verus! {

/// The state of the connection manager apart from the live driver: the saved
/// profiles, the profile of the active connection and the database in use.
pub struct ConnectionManager {
    pub profiles: Vec<ConnectionProfile>,
    pub active_profile: Option<ConnectionProfile>,
    pub active_database: Option<String>,
}

/// The status-bar text of the active connection: its engine and host.
pub open spec fn connection_label(p: ConnectionProfile) -> Seq<char> {
    engine_name(p.engine) + " • "@ + p.host@
}

impl ConnectionManager {
    /// No active connection, with the given saved profiles.
    pub fn new(profiles: Vec<ConnectionProfile>) -> (r: ConnectionManager)
        ensures
            r.profiles@ == profiles@,
            r.active_profile is None,
            r.active_database is None,
    {
        ConnectionManager { profiles, active_profile: None, active_database: None }
    }

    /// Makes `profile` the active connection; its default database becomes the
    /// database in use.
    pub fn set_active(&mut self, profile: ConnectionProfile)
        ensures
            final(self).profiles@ == old(self).profiles@,
            final(self).active_database == profile.default_database,
            final(self).active_profile == Some(profile),
    {
        self.active_database = copy_opt(&profile.default_database);
        self.active_profile = Some(profile);
    }

    /// Forgets the active connection.
    pub fn clear(&mut self)
        ensures
            final(self).profiles@ == old(self).profiles@,
            final(self).active_profile is None,
            final(self).active_database is None,
    {
        self.active_profile = None;
        self.active_database = None;
    }

    /// The name of the active profile and "`engine` • `host`", when a connection is active.
    pub fn active_info(&self) -> (r: Option<(String, String)>)
        ensures
            match self.active_profile {
                Some(p) => r matches Some(x) && x.0@ == p.name@ && x.1@ == connection_label(p),
                None => r is None,
            },
    {
        match &self.active_profile {
            Some(p) => {
                let engine = p.engine.to_display_string();
                Some((p.name.clone(), concat3(engine.as_str(), " • ", p.host.as_str())))
            },
            None => None,
        }
    }
}

// ── the saved profile list ────────────────────────────────────────────────────

/// The first position of a profile with this id, if any.
pub open spec fn first_with_id(ps: Seq<ConnectionProfile>, id: Seq<char>) -> Option<int> {
    if exists|i: int| 0 <= i < ps.len() && (#[trigger] ps[i]).id@ == id {
        Some(choose|i: int| 0 <= i < ps.len() && (#[trigger] ps[i]).id@ == id
            && forall|j: int| 0 <= j < i ==> (#[trigger] ps[j]).id@ != id)
    } else {
        None
    }
}

/// The list after saving `p`: it replaces the first profile with its id, or is
/// appended when none has it.
pub open spec fn profiles_after_save(ps: Seq<ConnectionProfile>, p: ConnectionProfile) -> Seq<ConnectionProfile> {
    match first_with_id(ps, p.id@) {
        Some(i) => ps.update(i, p),
        None => ps.push(p),
    }
}

/// The list after deleting id: every profile with another id, in order.
pub open spec fn profiles_after_delete(ps: Seq<ConnectionProfile>, id: Seq<char>) -> Seq<ConnectionProfile> {
    ps.filter(other_id(id))
}

/// Whether a profile's id differs from `id`.
pub open spec fn other_id(id: Seq<char>) -> spec_fn(ConnectionProfile) -> bool {
    |q: ConnectionProfile| q.id@ != id
}

/// Saves a profile into the list: replaces the first profile with the same id,
/// or appends it.
pub fn save_profile(profiles: &mut Vec<ConnectionProfile>, p: ConnectionProfile)
    ensures
        final(profiles)@ == profiles_after_save(old(profiles)@, p),
{
    let n = profiles.len();
    let mut i: usize = 0;
    while i < n
        invariant
            i <= n == profiles@.len(),
            profiles@ == old(profiles)@,
            forall|j: int| 0 <= j < i ==> (#[trigger] profiles@[j]).id@ != p.id@,
        decreases n - i,
    {
        if profiles[i].id == p.id {
            proof {
                let ps = old(profiles)@;
                assert(ps[i as int].id@ == p.id@);
                let k = choose|k: int| 0 <= k < ps.len() && (#[trigger] ps[k]).id@ == p.id@
                    && forall|j: int| 0 <= j < k ==> (#[trigger] ps[j]).id@ != p.id@;
                assert(0 <= k < ps.len() && ps[k].id@ == p.id@);
                assert(k == i as int) by {
                    if k < i as int {
                        assert(ps[k].id@ != p.id@);
                    }
                    if k > i as int {
                        assert(ps[i as int].id@ != p.id@);
                    }
                }
            }
            profiles.set(i, p);
            return;
        }
        i = i + 1;
    }
    proof {
        let ps = old(profiles)@;
        assert(!exists|k: int| 0 <= k < ps.len() && (#[trigger] ps[k]).id@ == p.id@);
    }
    profiles.push(p);
}

/// Deletes every profile with this id from the list.
pub fn delete_profile(profiles: &mut Vec<ConnectionProfile>, id: &String)
    ensures
        final(profiles)@ == profiles_after_delete(old(profiles)@, id@),
{
    let ghost ps = profiles@;
    let ghost keep = other_id(id@);
    let mut kept: Vec<ConnectionProfile> = Vec::new();
    let n = profiles.len();
    let mut i: usize = 0;
    while i < n
        invariant
            i <= n == ps.len(),
            profiles@ == ps,
            kept@ == ps.take(i as int).filter(keep),
            keep == other_id(id@),
        decreases n - i,
    {
        proof {
            let t = ps.take(i as int + 1);
            assert(t.drop_last() =~= ps.take(i as int));
            assert(t.last() == ps[i as int]);
            reveal_with_fuel(Seq::filter, 1);
            assert(t.filter(keep) == if keep(ps[i as int]) {
                ps.take(i as int).filter(keep).push(ps[i as int])
            } else {
                ps.take(i as int).filter(keep)
            });
        }
        let same: bool = profiles[i].id == *id;
        assert(same == (ps[i as int].id@ == id@));
        if !same {
            let q = profiles[i].duplicate();
            kept.push(q);
        }
        i = i + 1;
    }
    proof {
        assert(ps.take(n as int) =~= ps);
    }
    *profiles = kept;
}

} // verus!
