use vstd::prelude::*;

verus! {

/// A point in game time, in milliseconds since the game started.
#[derive(Debug, Clone, Copy, PartialEq, Eq, Structural)]
pub struct ElapsedTime {
    pub millis: u64,
}

impl ElapsedTime {
    /// This time moved `seconds` later, held at the largest representable time.
    pub fn add_seconds(&self, seconds: u32) -> (r: ElapsedTime)
        ensures
            r.millis as int == if self.millis as int + seconds as int * 1000 <= u64::MAX {
                self.millis as int + seconds as int * 1000
            } else {
                u64::MAX as int
            },
    {
        ElapsedTime { millis: self.millis.saturating_add(seconds as u64 * 1000) }
    }

    /// Whether this time is at or before `now`.
    pub fn has_passed(&self, now: ElapsedTime) -> (r: bool)
        ensures
            r == (self.millis <= now.millis),
    {
        self.millis <= now.millis
    }
}

/// A signed percentage.
#[derive(Debug, Clone, Copy, PartialEq, Eq, Structural)]
pub struct Percentage {
    pub value: i32,
}

/// What becomes of a status after an update.
#[derive(Debug, Clone, Copy, PartialEq, Eq, Structural)]
pub enum StatusUpdateResult {
    KeepIt,
    RemoveIt,
}

/// How a skill picks its target.
#[derive(Debug, Clone, Copy, PartialEq, Eq, Structural)]
pub enum SkillTargetType {
    Area,
    Directional,
}

/// Seconds that an armor modifier lasts.
pub const ARMOR_MODIFIER_SECONDS: u32 = 10;

/// A status that changes the armor of its target by a percentage for a while.
#[derive(Debug, Clone, Copy, PartialEq, Eq, Structural)]
pub struct ArmorModifierStatus {
    pub started: ElapsedTime,
    pub until: ElapsedTime,
    pub modifier: Percentage,
}

impl ArmorModifierStatus {
    /// A modifier that starts at `now` and lasts ten seconds.
    pub fn new(now: ElapsedTime, modifier: Percentage) -> (r: ArmorModifierStatus)
        ensures
            r.started == now,
            r.modifier == modifier,
            r.until.millis as int == if now.millis as int + 10_000 <= u64::MAX {
                now.millis as int + 10_000
            } else {
                u64::MAX as int
            },
    {
        ArmorModifierStatus {
            started: now,
            until: now.add_seconds(ARMOR_MODIFIER_SECONDS),
            modifier,
        }
    }

    /// The status is removed once its end time has passed at `now`, and kept before.
    pub fn update(&self, now: ElapsedTime) -> (r: StatusUpdateResult)
        ensures
            r == (if self.until.millis <= now.millis {
                StatusUpdateResult::RemoveIt
            } else {
                StatusUpdateResult::KeepIt
            }),
    {
        if self.until.has_passed(now) {
            StatusUpdateResult::RemoveIt
        } else {
            StatusUpdateResult::KeepIt
        }
    }
}

/// The blade dash skill: a dash in a chosen direction.
pub struct AssaBladeDashSkill;

impl AssaBladeDashSkill {
    pub fn get_skill_target_type(&self) -> (r: SkillTargetType)
        ensures
            r == SkillTargetType::Directional,
    {
        SkillTargetType::Directional
    }
}

/// The lightning skill: strikes an area.
pub struct LightningSkill;

impl LightningSkill {
    pub fn get_skill_target_type(&self) -> (r: SkillTargetType)
        ensures
            r == SkillTargetType::Area,
    {
        SkillTargetType::Area
    }
}

} // verus!
