//! Values used when OpenStreetMap data does not tag lanes, speed limits, building
//! heights or signal timing. The speed, height and timing tables are generic over
//! the number type that holds their values.
use vstd::prelude::*;
use crate::types::{HighwayClass, BuildingType};

verus! {

/// Lanes per direction by road class.
#[derive(Debug, Clone, Copy, PartialEq, Eq, Structural)]
pub struct LaneCountFallbacks {
    pub motorway: u8,
    pub primary: u8,
    pub secondary: u8,
    pub tertiary: u8,
    pub residential: u8,
}

/// Speed limits (km/h) by road class.
#[derive(Debug, Clone, Copy)]
pub struct SpeedLimitFallbacks<S> {
    pub motorway: S,
    pub primary: S,
    pub secondary: S,
    pub tertiary: S,
    pub residential: S,
}

/// Building heights (m) by building use.
#[derive(Debug, Clone, Copy)]
pub struct BuildingHeightFallbacks<S> {
    pub commercial: S,
    pub residential: S,
    pub industrial: S,
    pub default: S,
}

/// Signal cycle times (s) by intersection kind.
#[derive(Debug, Clone, Copy)]
pub struct SignalTimingFallbacks<S> {
    pub two_way: S,
    pub four_way: S,
    pub complex: S,
}

/// All fallback tables.
#[derive(Debug, Clone, Copy)]
pub struct Fallbacks<S> {
    pub lane_count: LaneCountFallbacks,
    pub speed_limit: SpeedLimitFallbacks<S>,
    pub building_height: BuildingHeightFallbacks<S>,
    pub signal_timing: SignalTimingFallbacks<S>,
}

/// The road-class group whose fallback entry a class uses: motorways and their links
/// use the motorway entry, trunk and primary roads (with links) the primary entry,
/// secondary and tertiary roads (with links) their own entries, and every other
/// class the residential entry.
pub enum ClassGroup {
    Motorway,
    Primary,
    Secondary,
    Tertiary,
    Residential,
}

pub open spec fn class_group(c: HighwayClass) -> ClassGroup {
    match c {
        HighwayClass::Motorway | HighwayClass::MotorwayLink => ClassGroup::Motorway,
        HighwayClass::Trunk | HighwayClass::TrunkLink => ClassGroup::Primary,
        HighwayClass::Primary | HighwayClass::PrimaryLink => ClassGroup::Primary,
        HighwayClass::Secondary | HighwayClass::SecondaryLink => ClassGroup::Secondary,
        HighwayClass::Tertiary | HighwayClass::TertiaryLink => ClassGroup::Tertiary,
        _ => ClassGroup::Residential,
    }
}

impl LaneCountFallbacks {
    /// The entry of this table for a road class.
    pub open spec fn lanes_of(self, c: HighwayClass) -> u8 {
        match class_group(c) {
            ClassGroup::Motorway => self.motorway,
            ClassGroup::Primary => self.primary,
            ClassGroup::Secondary => self.secondary,
            ClassGroup::Tertiary => self.tertiary,
            ClassGroup::Residential => self.residential,
        }
    }

    /// The standard table: 4 motorway lanes, 3 primary, 2 secondary, 1 tertiary and 1 residential.
    pub fn standard() -> (res: Self)
        ensures
            res.motorway == 4 && res.primary == 3 && res.secondary == 2 && res.tertiary == 1
                && res.residential == 1,
    {
        LaneCountFallbacks { motorway: 4, primary: 3, secondary: 2, tertiary: 1, residential: 1 }
    }
}

impl<S> SpeedLimitFallbacks<S> {
    /// The entry of this table for a road class.
    pub open spec fn speed_of(self, c: HighwayClass) -> S {
        match class_group(c) {
            ClassGroup::Motorway => self.motorway,
            ClassGroup::Primary => self.primary,
            ClassGroup::Secondary => self.secondary,
            ClassGroup::Tertiary => self.tertiary,
            ClassGroup::Residential => self.residential,
        }
    }
}

impl<S> BuildingHeightFallbacks<S> {
    /// The entry of this table for a building use.
    pub open spec fn height_of(self, b: BuildingType) -> S {
        match b {
            BuildingType::Commercial => self.commercial,
            BuildingType::Residential => self.residential,
            BuildingType::Industrial => self.industrial,
            BuildingType::Other => self.default,
        }
    }
}

impl<S: Copy> Fallbacks<S> {
    /// Lanes per direction assumed for a road of class `class`.
    pub fn lane_count_for(&self, class: &HighwayClass) -> (res: u8)
        ensures
            res == self.lane_count.lanes_of(*class),
    {
        match class {
            HighwayClass::Motorway | HighwayClass::MotorwayLink => self.lane_count.motorway,
            HighwayClass::Trunk | HighwayClass::TrunkLink => self.lane_count.primary,
            HighwayClass::Primary | HighwayClass::PrimaryLink => self.lane_count.primary,
            HighwayClass::Secondary | HighwayClass::SecondaryLink => self.lane_count.secondary,
            HighwayClass::Tertiary | HighwayClass::TertiaryLink => self.lane_count.tertiary,
            _ => self.lane_count.residential,
        }
    }

    /// Speed limit assumed for a road of class `class`.
    pub fn speed_limit_for(&self, class: &HighwayClass) -> (res: S)
        ensures
            res == self.speed_limit.speed_of(*class),
    {
        match class {
            HighwayClass::Motorway | HighwayClass::MotorwayLink => self.speed_limit.motorway,
            HighwayClass::Trunk | HighwayClass::TrunkLink => self.speed_limit.primary,
            HighwayClass::Primary | HighwayClass::PrimaryLink => self.speed_limit.primary,
            HighwayClass::Secondary | HighwayClass::SecondaryLink => self.speed_limit.secondary,
            HighwayClass::Tertiary | HighwayClass::TertiaryLink => self.speed_limit.tertiary,
            _ => self.speed_limit.residential,
        }
    }

    /// Height assumed for a building of use `btype`.
    pub fn building_height_for(&self, btype: &BuildingType) -> (res: S)
        ensures
            res == self.building_height.height_of(*btype),
    {
        match btype {
            BuildingType::Commercial => self.building_height.commercial,
            BuildingType::Residential => self.building_height.residential,
            BuildingType::Industrial => self.building_height.industrial,
            BuildingType::Other => self.building_height.default,
        }
    }
}


/// The lane and speed tables are read class by class: motorways and their links use
/// the motorway entry; trunk roads, primary roads and their links the primary entry;
/// secondary and tertiary roads and their links their own entries; residential,
/// service and unclassified roads the residential entry. A link road always gets
/// the entry of the road it links.
pub proof fn lemma_class_entries<S>(l: LaneCountFallbacks, v: SpeedLimitFallbacks<S>)
    ensures
        l.lanes_of(HighwayClass::Motorway) == l.motorway,
        l.lanes_of(HighwayClass::MotorwayLink) == l.motorway,
        l.lanes_of(HighwayClass::Trunk) == l.primary,
        l.lanes_of(HighwayClass::TrunkLink) == l.primary,
        l.lanes_of(HighwayClass::Primary) == l.primary,
        l.lanes_of(HighwayClass::PrimaryLink) == l.primary,
        l.lanes_of(HighwayClass::Secondary) == l.secondary,
        l.lanes_of(HighwayClass::SecondaryLink) == l.secondary,
        l.lanes_of(HighwayClass::Tertiary) == l.tertiary,
        l.lanes_of(HighwayClass::TertiaryLink) == l.tertiary,
        l.lanes_of(HighwayClass::Residential) == l.residential,
        l.lanes_of(HighwayClass::Service) == l.residential,
        l.lanes_of(HighwayClass::Unclassified) == l.residential,
        v.speed_of(HighwayClass::Motorway) == v.motorway,
        v.speed_of(HighwayClass::MotorwayLink) == v.motorway,
        v.speed_of(HighwayClass::Trunk) == v.primary,
        v.speed_of(HighwayClass::TrunkLink) == v.primary,
        v.speed_of(HighwayClass::Primary) == v.primary,
        v.speed_of(HighwayClass::PrimaryLink) == v.primary,
        v.speed_of(HighwayClass::Secondary) == v.secondary,
        v.speed_of(HighwayClass::SecondaryLink) == v.secondary,
        v.speed_of(HighwayClass::Tertiary) == v.tertiary,
        v.speed_of(HighwayClass::TertiaryLink) == v.tertiary,
        v.speed_of(HighwayClass::Residential) == v.residential,
        v.speed_of(HighwayClass::Service) == v.residential,
        v.speed_of(HighwayClass::Unclassified) == v.residential,
{
}

/// The height table is read use by use: commercial, residential and industrial
/// buildings take their own entries, every other building the default entry.
pub proof fn lemma_height_entries<S>(h: BuildingHeightFallbacks<S>)
    ensures
        h.height_of(BuildingType::Commercial) == h.commercial,
        h.height_of(BuildingType::Residential) == h.residential,
        h.height_of(BuildingType::Industrial) == h.industrial,
        h.height_of(BuildingType::Other) == h.default,
{
}

} // verus!
