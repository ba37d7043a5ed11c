//! What the physics reports to the host: eight channels of events.
use crate::number::F32;
use vstd::prelude::*;

verus! {

/// The substance of a cell has changed. The elements are filled in by the reader.
#[derive(Clone, Copy, Debug)]
pub struct SubstanceChangeInfo {
    pub cell_idx: i32,
    pub old_element_idx: u16,
    pub new_element_idx: u16,
}

/// A droplet leaves the grid.
#[derive(Clone, Copy, Debug)]
pub struct SpawnFallingLiquidInfo {
    pub cell_idx: i32,
    pub element_idx: u16,
    pub disease_idx: u8,
    pub mass: F32,
    pub temperature: F32,
    pub disease_count: i32,
}

/// A lump of ore leaves the grid.
#[derive(Clone, Copy, Debug)]
pub struct SpawnOreInfo {
    pub cell_idx: i32,
    pub element_idx: u16,
    pub disease_idx: u8,
    pub mass: F32,
    pub temperature: F32,
    pub disease_count: i32,
}

/// An unstable block starts to fall.
#[derive(Clone, Copy, Debug)]
pub struct UnstableCellInfo {
    pub cell_idx: i32,
    pub elem_idx: u16,
    pub falling_info: u8,
    pub disease_idx: u8,
    pub mass: F32,
    pub temperature: F32,
    pub disease_count: i32,
}

/// A cell has melted.
#[derive(Clone, Copy, Debug)]
pub struct CellMeltedInfo {
    pub cell_idx: i32,
}

/// A visual effect is due.
#[derive(Clone, Copy, Debug)]
pub struct SpawnFXInfo {
    pub cell_idx: i32,
    pub fx_id: i32,
    pub rotation: F32,
}

/// A wall is damaged by the pressure of another cell.
#[derive(Clone, Copy, Debug)]
pub struct WorldDamageInfo {
    pub cell_idx: i32,
    pub damage_source_cell_idx: i32,
}

/// The wall behind a cell is due to change.
#[derive(Clone, Copy, Debug)]
pub struct BackwallShouldTransitionInfo {
    pub cell_idx: i32,
}

/// One event of any channel.
#[derive(Clone, Copy, Debug)]
pub enum Event {
    SubstanceChange(SubstanceChangeInfo),
    SpawnLiquid(SpawnFallingLiquidInfo),
    SpawnOre(SpawnOreInfo),
    UnstableCell(UnstableCellInfo),
    CellMelted(CellMeltedInfo),
    SpawnFX(SpawnFXInfo),
    WorldDamage(WorldDamageInfo),
    BackwallShouldTransition(BackwallShouldTransitionInfo),
}

/// The contents of the eight channels.
#[verifier::ext_equal]
pub ghost struct EventLog {
    pub substance_change_info: Seq<SubstanceChangeInfo>,
    pub spawn_liquid_info: Seq<SpawnFallingLiquidInfo>,
    pub spawn_ore_info: Seq<SpawnOreInfo>,
    pub unstable_cell_info: Seq<UnstableCellInfo>,
    pub cell_melted_info: Seq<CellMeltedInfo>,
    pub spawn_fx_info: Seq<SpawnFXInfo>,
    pub world_damage_info: Seq<WorldDamageInfo>,
    pub backwall_should_transition_info: Seq<BackwallShouldTransitionInfo>,
}

impl EventLog {
    /// The log begins with what is in `older`, channel by channel.
    pub open spec fn extends(self, older: EventLog) -> bool {
        &&& older.substance_change_info.is_prefix_of(self.substance_change_info)
        &&& older.spawn_liquid_info.is_prefix_of(self.spawn_liquid_info)
        &&& older.spawn_ore_info.is_prefix_of(self.spawn_ore_info)
        &&& older.unstable_cell_info.is_prefix_of(self.unstable_cell_info)
        &&& older.cell_melted_info.is_prefix_of(self.cell_melted_info)
        &&& older.spawn_fx_info.is_prefix_of(self.spawn_fx_info)
        &&& older.world_damage_info.is_prefix_of(self.world_damage_info)
        &&& older.backwall_should_transition_info.is_prefix_of(
            self.backwall_should_transition_info,
        )
    }

    /// The log with no events.
    pub open spec fn empty() -> EventLog {
        EventLog {
            substance_change_info: Seq::empty(),
            spawn_liquid_info: Seq::empty(),
            spawn_ore_info: Seq::empty(),
            unstable_cell_info: Seq::empty(),
            cell_melted_info: Seq::empty(),
            spawn_fx_info: Seq::empty(),
            world_damage_info: Seq::empty(),
            backwall_should_transition_info: Seq::empty(),
        }
    }

    /// The log with one event more, at the end of its channel.
    pub open spec fn record(self, e: Event) -> EventLog {
        match e {
            Event::SubstanceChange(v) => EventLog {
                substance_change_info: self.substance_change_info.push(v),
                ..self
            },
            Event::SpawnLiquid(v) => EventLog {
                spawn_liquid_info: self.spawn_liquid_info.push(v),
                ..self
            },
            Event::SpawnOre(v) => EventLog { spawn_ore_info: self.spawn_ore_info.push(v), ..self },
            Event::UnstableCell(v) => EventLog {
                unstable_cell_info: self.unstable_cell_info.push(v),
                ..self
            },
            Event::CellMelted(v) => EventLog {
                cell_melted_info: self.cell_melted_info.push(v),
                ..self
            },
            Event::SpawnFX(v) => EventLog { spawn_fx_info: self.spawn_fx_info.push(v), ..self },
            Event::WorldDamage(v) => EventLog {
                world_damage_info: self.world_damage_info.push(v),
                ..self
            },
            Event::BackwallShouldTransition(v) => EventLog {
                backwall_should_transition_info: self.backwall_should_transition_info.push(v),
                ..self
            },
        }
    }

    /// The log with the events of another behind its own, channel by channel.
    pub open spec fn joined(self, other: EventLog) -> EventLog {
        EventLog {
            substance_change_info: self.substance_change_info + other.substance_change_info,
            spawn_liquid_info: self.spawn_liquid_info + other.spawn_liquid_info,
            spawn_ore_info: self.spawn_ore_info + other.spawn_ore_info,
            unstable_cell_info: self.unstable_cell_info + other.unstable_cell_info,
            cell_melted_info: self.cell_melted_info + other.cell_melted_info,
            spawn_fx_info: self.spawn_fx_info + other.spawn_fx_info,
            world_damage_info: self.world_damage_info + other.world_damage_info,
            backwall_should_transition_info: self.backwall_should_transition_info
                + other.backwall_should_transition_info,
        }
    }
}

/// A buffer of events: that of one region, or that of the whole world.
#[derive(Debug)]
pub struct RegionEvents {
    pub substance_change_info: Vec<SubstanceChangeInfo>,
    pub spawn_liquid_info: Vec<SpawnFallingLiquidInfo>,
    pub spawn_ore_info: Vec<SpawnOreInfo>,
    pub unstable_cell_info: Vec<UnstableCellInfo>,
    pub cell_melted_info: Vec<CellMeltedInfo>,
    pub spawn_fx_info: Vec<SpawnFXInfo>,
    pub world_damage_info: Vec<WorldDamageInfo>,
    pub backwall_should_transition_info: Vec<BackwallShouldTransitionInfo>,
}

impl View for RegionEvents {
    type V = EventLog;

    open spec fn view(&self) -> EventLog {
        EventLog {
            substance_change_info: self.substance_change_info@,
            spawn_liquid_info: self.spawn_liquid_info@,
            spawn_ore_info: self.spawn_ore_info@,
            unstable_cell_info: self.unstable_cell_info@,
            cell_melted_info: self.cell_melted_info@,
            spawn_fx_info: self.spawn_fx_info@,
            world_damage_info: self.world_damage_info@,
            backwall_should_transition_info: self.backwall_should_transition_info@,
        }
    }
}

impl Default for RegionEvents {
    /// A buffer with no events.
    fn default() -> (r: Self)
        ensures
            r@ == EventLog::empty(),
    {
        RegionEvents {
            substance_change_info: Vec::new(),
            spawn_liquid_info: Vec::new(),
            spawn_ore_info: Vec::new(),
            unstable_cell_info: Vec::new(),
            cell_melted_info: Vec::new(),
            spawn_fx_info: Vec::new(),
            world_damage_info: Vec::new(),
            backwall_should_transition_info: Vec::new(),
        }
    }
}

impl RegionEvents {
    /// Puts an event at the end of its channel.
    pub fn record(&mut self, e: Event)
        ensures
            final(self)@ == old(self)@.record(e),
    {
        match e {
            Event::SubstanceChange(v) => self.substance_change_info.push(v),
            Event::SpawnLiquid(v) => self.spawn_liquid_info.push(v),
            Event::SpawnOre(v) => self.spawn_ore_info.push(v),
            Event::UnstableCell(v) => self.unstable_cell_info.push(v),
            Event::CellMelted(v) => self.cell_melted_info.push(v),
            Event::SpawnFX(v) => self.spawn_fx_info.push(v),
            Event::WorldDamage(v) => self.world_damage_info.push(v),
            Event::BackwallShouldTransition(v) => self.backwall_should_transition_info.push(v),
        }
    }

    /// Moves all events to the end of another buffer, channel by channel.
    pub fn move_into(&mut self, target: &mut RegionEvents)
        ensures
            final(target)@ == old(target)@.joined(old(self)@),
            final(self)@ == EventLog::empty(),
    {
        target.substance_change_info.append(&mut self.substance_change_info);
        target.spawn_liquid_info.append(&mut self.spawn_liquid_info);
        target.spawn_ore_info.append(&mut self.spawn_ore_info);
        target.unstable_cell_info.append(&mut self.unstable_cell_info);
        target.cell_melted_info.append(&mut self.cell_melted_info);
        target.spawn_fx_info.append(&mut self.spawn_fx_info);
        target.world_damage_info.append(&mut self.world_damage_info);
        target.backwall_should_transition_info.append(&mut self.backwall_should_transition_info);
    }
}

/// The events in `b`, where there are any, begin with those in `a`.
#[verifier::opaque]
pub open spec fn only_added(a: Option<EventLog>, b: Option<EventLog>) -> bool {
    match (a, b) {
        (Some(x), Some(y)) => y.extends(x),
        (None, None) => true,
        _ => false,
    }
}

/// Events that are as they were have only been added.
pub broadcast proof fn lemma_none_added(a: Option<EventLog>)
    ensures
        #[trigger] only_added(a, a),
{
    reveal(only_added);
}

/// What was only added to twice was only added to.
pub broadcast proof fn lemma_added_twice(
    a: Option<EventLog>,
    b: Option<EventLog>,
    c: Option<EventLog>,
)
    requires
        #[trigger] only_added(a, b),
        #[trigger] only_added(b, c),
    ensures
        only_added(a, c),
{
    reveal(only_added);
}

pub broadcast group group_events {
    lemma_none_added,
    lemma_added_twice,
}

} // verus!
