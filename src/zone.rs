use vstd::prelude::*;
use std::collections::HashMap;
use crate::geometry::{WorldPoint, in_box, box_contains};

verus! {

broadcast use vstd::std_specs::hash::group_hash_axioms;

/// A fixed rectangular region. `height` sets its extent along x and `width`
/// its extent along y, both in fixed-point steps.
#[derive(Clone, Debug)]
pub struct Zone {
    pub name: String,
    pub height: i64,
    pub width: i64,
}

impl Zone {
    pub fn new(name: String, height: i64, width: i64) -> (r: Zone)
        ensures
            r.name == name,
            r.height == height,
            r.width == width,
    {
        Zone { name, height, width }
    }
}

/// A zone standing at `zone_pos` counts an agent standing at `agent_pos` as
/// inside when the zone's own position lies in the box centred on the agent,
/// `height` wide along x and `width` tall along y (edges included).
pub open spec fn holds(zone: Zone, zone_pos: WorldPoint, agent_pos: WorldPoint) -> bool {
    in_box(agent_pos, zone.height as int, zone.width as int, zone_pos)
}

/// Whether the zone at `zone_pos` counts the agent at `agent_pos` as inside.
pub fn zone_holds(zone: &Zone, zone_pos: WorldPoint, agent_pos: WorldPoint) -> (r: bool)
    ensures
        r == holds(*zone, zone_pos, agent_pos),
{
    box_contains(agent_pos, zone.height, zone.width, zone_pos)
}

/// The identities of the agents that the zone holds, in the order of `agents`.
pub open spec fn members(zone: Zone, zone_pos: WorldPoint, agents: Seq<(u64, WorldPoint)>) -> Seq<u64>
    decreases agents.len(),
{
    if agents.len() == 0 {
        Seq::empty()
    } else {
        let before = members(zone, zone_pos, agents.drop_last());
        if holds(zone, zone_pos, agents.last().1) {
            before.push(agents.last().0)
        } else {
            before
        }
    }
}

/// The mapping built from the live zones and agents of one tick: one key per
/// zone, whose list holds the agents it counts as inside.
pub open spec fn mapping_of(
    zones: Seq<(u64, Zone, WorldPoint)>,
    agents: Seq<(u64, WorldPoint)>,
) -> Map<u64, Seq<u64>>
    decreases zones.len(),
{
    if zones.len() == 0 {
        Map::empty()
    } else {
        let z = zones.last();
        mapping_of(zones.drop_last(), agents).insert(z.0, members(z.1, z.2, agents))
    }
}

/// The identities of the zones, as a set.
pub open spec fn zone_ids(zones: Seq<(u64, Zone, WorldPoint)>) -> Set<u64> {
    Set::new(|k: u64| exists|i: int| 0 <= i < zones.len() && #[trigger] zones[i].0 == k)
}

/// No zone identity appears twice.
pub open spec fn distinct_ids(zones: Seq<(u64, Zone, WorldPoint)>) -> bool {
    forall|i: int, j: int|
        0 <= i < zones.len() && 0 <= j < zones.len() && i != j ==> #[trigger] zones[i].0
            != #[trigger] zones[j].0
}

proof fn lemma_members_exactly(zone: Zone, zone_pos: WorldPoint, agents: Seq<(u64, WorldPoint)>)
    ensures
        forall|a: u64|
            members(zone, zone_pos, agents).contains(a) <==> exists|j: int|
                0 <= j < agents.len() && #[trigger] agents[j].0 == a && holds(
                    zone,
                    zone_pos,
                    agents[j].1,
                ),
    decreases agents.len(),
{
    if agents.len() > 0 {
        let rest = agents.drop_last();
        lemma_members_exactly(zone, zone_pos, rest);
        let before = members(zone, zone_pos, rest);
        let last = agents.last();
        assert forall|a: u64|
            members(zone, zone_pos, agents).contains(a) <==> exists|j: int|
                0 <= j < agents.len() && #[trigger] agents[j].0 == a && holds(
                    zone,
                    zone_pos,
                    agents[j].1,
                ) by {
            if members(zone, zone_pos, agents).contains(a) {
                if before.contains(a) {
                    let j = choose|j: int|
                        0 <= j < rest.len() && #[trigger] rest[j].0 == a && holds(
                            zone,
                            zone_pos,
                            rest[j].1,
                        );
                    assert(agents[j] == rest[j]);
                } else {
                    let k = choose|k: int| 0 <= k < before.push(last.0).len() && before.push(last.0)[k] == a;
                    assert(k == before.len());
                    assert(agents[agents.len() - 1].0 == a);
                }
            }
            if exists|j: int|
                0 <= j < agents.len() && #[trigger] agents[j].0 == a && holds(
                    zone,
                    zone_pos,
                    agents[j].1,
                ) {
                let j = choose|j: int|
                    0 <= j < agents.len() && #[trigger] agents[j].0 == a && holds(
                        zone,
                        zone_pos,
                        agents[j].1,
                    );
                if j < agents.len() - 1 {
                    assert(rest[j] == agents[j]);
                    assert(before.contains(a));
                    if holds(zone, zone_pos, last.1) {
                        let k = choose|k: int| 0 <= k < before.len() && before[k] == a;
                        assert(before.push(last.0)[k] == a);
                    }
                } else {
                    assert(before.push(last.0)[before.len() as int] == a);
                }
            }
        }
    }
}

/// After an update the mapping's keys are exactly the live zones: every zone
/// created since is a key, and no zone destroyed since is one.
pub proof fn lemma_keys_are_live_zones(
    zones: Seq<(u64, Zone, WorldPoint)>,
    agents: Seq<(u64, WorldPoint)>,
)
    ensures
        mapping_of(zones, agents).dom() == zone_ids(zones),
    decreases zones.len(),
{
    if zones.len() > 0 {
        let rest = zones.drop_last();
        lemma_keys_are_live_zones(rest, agents);
        assert forall|k: u64| #[trigger] zone_ids(zones).contains(k) <==> zone_ids(rest).insert(
            zones.last().0,
        ).contains(k) by {
            if zone_ids(zones).contains(k) {
                let i = choose|i: int| 0 <= i < zones.len() && #[trigger] zones[i].0 == k;
                if i < zones.len() - 1 {
                    assert(rest[i] == zones[i]);
                }
            }
            if zone_ids(rest).contains(k) {
                let i = choose|i: int| 0 <= i < rest.len() && #[trigger] rest[i].0 == k;
                assert(rest[i] == zones[i]);
            }
            if k == zones.last().0 {
                assert(zones[zones.len() - 1].0 == k);
            }
        }
        assert(mapping_of(zones, agents).dom() =~= zone_ids(zones));
    } else {
        assert(mapping_of(zones, agents).dom() =~= zone_ids(zones));
    }
}

proof fn lemma_entry_of_zone(
    zones: Seq<(u64, Zone, WorldPoint)>,
    agents: Seq<(u64, WorldPoint)>,
    i: int,
)
    requires
        distinct_ids(zones),
        0 <= i < zones.len(),
    ensures
        mapping_of(zones, agents).contains_key(zones[i].0),
        mapping_of(zones, agents)[zones[i].0] == members(zones[i].1, zones[i].2, agents),
    decreases zones.len(),
{
    let rest = zones.drop_last();
    if i < zones.len() - 1 {
        assert forall|a: int, b: int|
            0 <= a < rest.len() && 0 <= b < rest.len() && a != b implies #[trigger] rest[a].0
            != #[trigger] rest[b].0 by {
            assert(rest[a] == zones[a] && rest[b] == zones[b]);
        }
        lemma_entry_of_zone(rest, agents, i);
        assert(rest[i] == zones[i]);
        assert(zones[i].0 != zones[zones.len() - 1].0);
    }
}

/// An update keeps nothing of the earlier ticks: with the live zones distinct,
/// an agent is in a zone's list exactly when, at its position of this tick,
/// the zone counts it as inside. An agent moved out of a zone is gone from its
/// list after the next update.
pub proof fn lemma_lists_follow_current_positions(
    zones: Seq<(u64, Zone, WorldPoint)>,
    agents: Seq<(u64, WorldPoint)>,
)
    requires
        distinct_ids(zones),
    ensures
        forall|i: int, a: u64|
            0 <= i < zones.len() ==> (#[trigger] mapping_of(zones, agents)[zones[i].0].contains(a)
                <==> exists|j: int|
                0 <= j < agents.len() && #[trigger] agents[j].0 == a && holds(
                    zones[i].1,
                    zones[i].2,
                    agents[j].1,
                )),
{
    assert forall|i: int, a: u64| 0 <= i < zones.len() implies (#[trigger] mapping_of(
        zones,
        agents,
    )[zones[i].0].contains(a) <==> exists|j: int|
        0 <= j < agents.len() && #[trigger] agents[j].0 == a && holds(
            zones[i].1,
            zones[i].2,
            agents[j].1,
        )) by {
        lemma_entry_of_zone(zones, agents, i);
        lemma_members_exactly(zones[i].1, zones[i].2, agents);
    }
}

/// The agents the zone at `zone_pos` holds, in the order of `agents`.
pub fn zone_members(zone: &Zone, zone_pos: WorldPoint, agents: &Vec<(u64, WorldPoint)>) -> (r: Vec<u64>)
    ensures
        r@ == members(*zone, zone_pos, agents@),
{
    let mut list: Vec<u64> = Vec::new();
    let mut i: usize = 0;
    while i < agents.len()
        invariant
            0 <= i <= agents@.len(),
            list@ == members(*zone, zone_pos, agents@.subrange(0, i as int)),
        decreases agents@.len() - i,
    {
        let (id, pos) = agents[i];
        proof {
            assert(agents@.subrange(0, i + 1).drop_last() =~= agents@.subrange(0, i as int));
        }
        if zone_holds(zone, zone_pos, pos) {
            list.push(id);
        }
        i = i + 1;
    }
    proof {
        assert(agents@.subrange(0, agents@.len() as int) =~= agents@);
    }
    list
}

/// For each live zone, the agents it held at the last update.
#[derive(Clone, Debug)]
pub struct AgentZoneMapping {
    map: HashMap<u64, Vec<u64>>,
}

impl View for AgentZoneMapping {
    type V = Map<u64, Seq<u64>>;

    closed spec fn view(&self) -> Map<u64, Seq<u64>> {
        self.map@.map_values(|v: Vec<u64>| v@)
    }
}

impl Default for AgentZoneMapping {
    fn default() -> (r: AgentZoneMapping)
        ensures
            r@ == Map::<u64, Seq<u64>>::empty(),
    {
        AgentZoneMapping::new()
    }
}

impl AgentZoneMapping {
    pub fn new() -> (r: AgentZoneMapping)
        ensures
            r@ == Map::<u64, Seq<u64>>::empty(),
    {
        let r = AgentZoneMapping { map: HashMap::new() };
        proof {
            assert(r@ =~= Map::<u64, Seq<u64>>::empty());
        }
        r
    }

    /// The number of zones in the mapping.
    pub fn len(&self) -> (r: usize)
        ensures
            r == self@.len(),
    {
        proof {
            assert(self@.dom() =~= self.map@.dom());
        }
        self.map.len()
    }

    pub fn contains_zone(&self, zone: u64) -> (r: bool)
        ensures
            r == self@.contains_key(zone),
    {
        self.map.contains_key(&zone)
    }

    /// The agents that `zone` held at the last update, or `None` when it is no key.
    pub fn agents_in(&self, zone: u64) -> (r: Option<&Vec<u64>>)
        ensures
            match r {
                Some(v) => self@.contains_key(zone) && v@ == self@[zone],
                None => !self@.contains_key(zone),
            },
    {
        self.map.get(&zone)
    }

    /// Makes `zone` a key with an empty list, as when the zone is first placed.
    pub fn register_zone(&mut self, zone: u64)
        ensures
            final(self)@ == old(self)@.insert(zone, Seq::<u64>::empty()),
    {
        let ghost before = self.map@;
        self.map.insert(zone, Vec::new());
        proof {
            assert(self@ =~= before.map_values(|v: Vec<u64>| v@).insert(zone, Seq::<u64>::empty()));
        }
    }

    /// Brings the mapping up to date with one tick: afterwards its keys are
    /// exactly the live zones, and each zone's list holds the agents it counts
    /// as inside now, in the order of `agents`; nothing of the earlier state
    /// is kept.
    pub fn update(&mut self, zones: &Vec<(u64, Zone, WorldPoint)>, agents: &Vec<(u64, WorldPoint)>)
        ensures
            final(self)@ == mapping_of(zones@, agents@),
    {
        let mut fresh: HashMap<u64, Vec<u64>> = HashMap::new();
        let mut i: usize = 0;
        while i < zones.len()
            invariant
                0 <= i <= zones@.len(),
                fresh@.map_values(|v: Vec<u64>| v@) == mapping_of(zones@.subrange(0, i as int), agents@),
            decreases zones@.len() - i,
        {
            let (id, zone, pos) = &zones[i];
            let list = zone_members(zone, *pos, agents);
            proof {
                assert(zones@.subrange(0, i + 1).drop_last() =~= zones@.subrange(0, i as int));
            }
            let ghost before = fresh@;
            fresh.insert(*id, list);
            proof {
                assert(fresh@.map_values(|v: Vec<u64>| v@) =~= before.map_values(
                    |v: Vec<u64>| v@,
                ).insert(*id, list@));
            }
            i = i + 1;
        }
        proof {
            assert(zones@.subrange(0, zones@.len() as int) =~= zones@);
        }
        self.map = fresh;
    }
}

} // verus!
