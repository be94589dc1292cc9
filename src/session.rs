use vstd::prelude::*;

use crate::attribute::Attribute;
use crate::zone::{MemberInfo, Zone};

verus! {

/// A command or its arguments do not have the expected shape, or name no
/// known zone.
#[derive(Debug, Clone, Copy, PartialEq, Eq, Structural)]
pub enum UsageError {
    UnknownUsage,
}

/// What the interactive loop does after a command.
#[derive(Debug, Clone, Copy, PartialEq, Eq, Structural)]
pub enum Outcome {
    /// Go on and show the state again.
    Continue,
    /// Go on without showing the state again.
    ContinueQuiet,
    /// Leave the loop.
    Terminate,
}

/// The members and zones that a session edits.
#[derive(Debug, Clone)]
pub struct State {
    pub members: Vec<MemberInfo>,
    pub zones: Vec<Zone>,
}

/// The members whose name is not `name`.
pub open spec fn members_without(members: Seq<MemberInfo>, name: Seq<char>) -> Seq<MemberInfo> {
    members.filter(|m: MemberInfo| m.name@ != name)
}

/// The zones whose name is not `name`.
pub open spec fn zones_without(zones: Seq<Zone>, name: Seq<char>) -> Seq<Zone> {
    zones.filter(|z: Zone| z.name@ != name)
}

/// Index of the first zone named `name`.
pub open spec fn first_zone_named(zones: Seq<Zone>, name: Seq<char>, k: int) -> bool {
    &&& 0 <= k < zones.len()
    &&& zones[k].name@ == name
    &&& forall|j: int| 0 <= j < k ==> (#[trigger] zones[j]).name@ != name
}

/// No zone is named `name`.
pub open spec fn no_zone_named(zones: Seq<Zone>, name: Seq<char>) -> bool {
    forall|j: int| 0 <= j < zones.len() ==> (#[trigger] zones[j]).name@ != name
}

impl State {
    pub fn new() -> (r: Self)
        ensures
            r.members@.len() == 0,
            r.zones@.len() == 0,
    {
        State { members: Vec::new(), zones: Vec::new() }
    }

    /// Removes every member and every zone.
    pub fn clear(&mut self)
        ensures
            final(self).members@.len() == 0,
            final(self).zones@.len() == 0,
    {
        self.members = Vec::new();
        self.zones = Vec::new();
    }

    /// Adds a member, replacing any member of the same name.
    pub fn add_member(&mut self, name: String, attr: Attribute)
        ensures
            final(self).members@ == members_without(old(self).members@, name@).push(
                MemberInfo { name, attr },
            ),
            final(self).zones@ == old(self).zones@,
    {
        self.del_member(&name);
        self.members.push(MemberInfo::new(name, attr));
    }

    /// Removes every member named `name`.
    pub fn del_member(&mut self, name: &String)
        ensures
            final(self).members@ == members_without(old(self).members@, name@),
            final(self).zones@ == old(self).zones@,
    {
        let ghost before = self.members@;
        let mut kept: Vec<MemberInfo> = Vec::new();
        let mut i: usize = 0;
        while i < self.members.len()
            invariant
                self.members@ == before,
                i <= before.len(),
                kept@ == members_without(before.take(i as int), name@),
            decreases before.len() - i,
        {
            proof {
                reveal(Seq::filter);
                assert(before.take(i + 1).drop_last() =~= before.take(i as int));
            }
            if self.members[i].name != *name {
                kept.push(MemberInfo::new(self.members[i].name.clone(), self.members[i].attr));
            }
            i = i + 1;
        }
        assert(before.take(i as int) =~= before);
        self.members = kept;
    }

    /// Adds a zone at full base scale, replacing any zone of the same name.
    pub fn add_zone(&mut self, name: String, base: Attribute, sub_level: Attribute, require: Attribute)
        ensures
            final(self).zones@ == zones_without(old(self).zones@, name@).push(
                Zone { name, base, sub_level, require, base_scaler: 100 },
            ),
            final(self).members@ == old(self).members@,
    {
        self.del_zone(&name);
        self.zones.push(Zone::new(name, base, sub_level, require, 100));
    }

    /// Removes every zone named `name`.
    pub fn del_zone(&mut self, name: &String)
        ensures
            final(self).zones@ == zones_without(old(self).zones@, name@),
            final(self).members@ == old(self).members@,
    {
        let ghost before = self.zones@;
        let mut kept: Vec<Zone> = Vec::new();
        let mut i: usize = 0;
        while i < self.zones.len()
            invariant
                self.zones@ == before,
                i <= before.len(),
                kept@ == zones_without(before.take(i as int), name@),
            decreases before.len() - i,
        {
            proof {
                reveal(Seq::filter);
                assert(before.take(i + 1).drop_last() =~= before.take(i as int));
            }
            let z = &self.zones[i];
            if z.name != *name {
                kept.push(
                    Zone::new(z.name.clone(), z.base, z.sub_level, z.require, z.base_scaler),
                );
            }
            i = i + 1;
        }
        assert(before.take(i as int) =~= before);
        self.zones = kept;
    }

    /// Index of the first zone named `name`.
    pub fn find_zone(&self, name: &String) -> (r: Option<usize>)
        ensures
            r matches Some(k) ==> first_zone_named(self.zones@, name@, k as int),
            r is None ==> no_zone_named(self.zones@, name@),
    {
        let mut i: usize = 0;
        while i < self.zones.len()
            invariant
                i <= self.zones@.len(),
                forall|j: int| 0 <= j < i ==> (#[trigger] self.zones@[j]).name@ != name@,
            decreases self.zones@.len() - i,
        {
            if self.zones[i].name == *name {
                return Some(i);
            }
            i = i + 1;
        }
        None
    }

    /// Sets the level bonus of the first zone named `name`; fails, changing
    /// nothing, when there is none.
    pub fn update_zone_level(&mut self, name: &String, sub_level: Attribute) -> (r: Result<
        (),
        UsageError,
    >)
        ensures
            final(self).members@ == old(self).members@,
            r is Ok <==> !no_zone_named(old(self).zones@, name@),
            r is Err ==> final(self).zones@ == old(self).zones@,
            r is Ok ==> exists|k: int|
                first_zone_named(old(self).zones@, name@, k) && final(self).zones@ == old(
                    self,
                ).zones@.update(k, Zone { sub_level, ..old(self).zones@[k] }),
    {
        match self.find_zone(name) {
            Some(k) => {
                let z = &self.zones[k];
                let updated = Zone::new(z.name.clone(), z.base, sub_level, z.require, z.base_scaler);
                self.zones.set(k, updated);
                Ok(())
            },
            None => Err(UsageError::UnknownUsage),
        }
    }

    /// Sets the requirement of the first zone named `name`; fails, changing
    /// nothing, when there is none.
    pub fn update_zone_require(&mut self, name: &String, require: Attribute) -> (r: Result<
        (),
        UsageError,
    >)
        ensures
            final(self).members@ == old(self).members@,
            r is Ok <==> !no_zone_named(old(self).zones@, name@),
            r is Err ==> final(self).zones@ == old(self).zones@,
            r is Ok ==> exists|k: int|
                first_zone_named(old(self).zones@, name@, k) && final(self).zones@ == old(
                    self,
                ).zones@.update(k, Zone { require, ..old(self).zones@[k] }),
    {
        match self.find_zone(name) {
            Some(k) => {
                let z = &self.zones[k];
                let updated = Zone::new(z.name.clone(), z.base, z.sub_level, require, z.base_scaler);
                self.zones.set(k, updated);
                Ok(())
            },
            None => Err(UsageError::UnknownUsage),
        }
    }

    /// Sets the base scaling percentage of the first zone named `name`;
    /// fails, changing nothing, when there is none.
    pub fn update_zone_scaler(&mut self, name: &String, scaler: u64) -> (r: Result<
        (),
        UsageError,
    >)
        ensures
            final(self).members@ == old(self).members@,
            r is Ok <==> !no_zone_named(old(self).zones@, name@),
            r is Err ==> final(self).zones@ == old(self).zones@,
            r is Ok ==> exists|k: int|
                first_zone_named(old(self).zones@, name@, k) && final(self).zones@ == old(
                    self,
                ).zones@.update(k, Zone { base_scaler: scaler, ..old(self).zones@[k] }),
    {
        match self.find_zone(name) {
            Some(k) => {
                let z = &self.zones[k];
                let updated = Zone::new(z.name.clone(), z.base, z.sub_level, z.require, scaler);
                self.zones.set(k, updated);
                Ok(())
            },
            None => Err(UsageError::UnknownUsage),
        }
    }
}

} // verus!
