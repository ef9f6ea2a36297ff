use vstd::prelude::*;

verus! {

/// Which blueprint a map cell was made from; it decides how the cell looks and
/// which atmosphere it starts with.
#[derive(Clone, Copy, Debug, PartialEq, Eq, Structural, Hash)]
pub enum TileKind {
    /// A see-through section of the hull.
    GlassHull,
    /// A solid section of the hull.
    Hull,
    /// Open space holding breathable air.
    BreathableAtmosphere,
    /// Open space holding no gas.
    Vacuum,
    /// The stand-in cell used when no blueprint is registered: open, breathable.
    EmptySpace,
    /// An open cell holding no gas, made without a blueprint.
    EmptyVacuum,
    /// A white wall of the test plain.
    WhiteWall,
    /// A green wall of the test room on the plain.
    GreenWall,
    /// A see-through wall of the test room on the plain.
    GlassWall,
    /// An orange pillar of the test plain.
    OrangePillar,
    /// Open space of the system test map.
    OpenSpace,
    /// A glass window of the system test map.
    GlassWindow,
}

/// A map cell as the game logic reads it: whether it can be walked through and
/// whether it blocks sight, and the blueprint it came from.
#[derive(Clone, Copy, Debug, PartialEq, Eq, Structural, Hash)]
pub struct Tile {
    pub passable: bool,
    pub opaque: bool,
    pub kind: TileKind,
}

impl Tile {
    /// A tile with the given walkability, opacity and look.
    pub fn new(passable: bool, opaque: bool, kind: TileKind) -> (t: Tile)
        ensures
            t.passable == passable,
            t.opaque == opaque,
            t.kind == kind,
    {
        Tile { passable, opaque, kind }
    }

    pub open spec fn new_empty_stp_spec() -> Tile {
        Tile { passable: true, opaque: false, kind: TileKind::EmptySpace }
    }

    pub open spec fn new_vacuume_spec() -> Tile {
        Tile { passable: true, opaque: false, kind: TileKind::EmptyVacuum }
    }

    /// An open, see-through cell holding breathable air.
    pub fn new_empty_stp() -> (t: Tile)
        ensures
            t == (Tile { passable: true, opaque: false, kind: TileKind::EmptySpace }),
    {
        Tile { passable: true, opaque: false, kind: TileKind::EmptySpace }
    }

    /// The name a cell of this kind is shown with.
    pub open spec fn name_spec(self) -> Seq<char> {
        match self.kind {
            TileKind::GlassHull => "Glass hull section"@,
            TileKind::Hull => "Hull section"@,
            TileKind::BreathableAtmosphere => "Empty space"@,
            TileKind::EmptySpace => "Empty space"@,
            TileKind::Vacuum => "Vacuume"@,
            TileKind::EmptyVacuum => "Vacuume"@,
            TileKind::WhiteWall => "White wall"@,
            TileKind::GreenWall => "Green wall"@,
            TileKind::GlassWall => "Glass wall"@,
            TileKind::OrangePillar => "Orange pillar"@,
            TileKind::OpenSpace => "Open space"@,
            TileKind::GlassWindow => "Glass window"@,
        }
    }

    /// The name the cell is shown with, decided by the blueprint it came from.
    pub fn name(&self) -> (s: String)
        ensures
            s@ == self.name_spec(),
    {
        match self.kind {
            TileKind::GlassHull => "Glass hull section".to_owned(),
            TileKind::Hull => "Hull section".to_owned(),
            TileKind::BreathableAtmosphere => "Empty space".to_owned(),
            TileKind::EmptySpace => "Empty space".to_owned(),
            TileKind::Vacuum => "Vacuume".to_owned(),
            TileKind::EmptyVacuum => "Vacuume".to_owned(),
            TileKind::WhiteWall => "White wall".to_owned(),
            TileKind::GreenWall => "Green wall".to_owned(),
            TileKind::GlassWall => "Glass wall".to_owned(),
            TileKind::OrangePillar => "Orange pillar".to_owned(),
            TileKind::OpenSpace => "Open space".to_owned(),
            TileKind::GlassWindow => "Glass window".to_owned(),
        }
    }

    /// An open, see-through cell holding no gas.
    pub fn new_vacuume() -> (t: Tile)
        ensures
            t == (Tile { passable: true, opaque: false, kind: TileKind::EmptyVacuum }),
    {
        Tile { passable: true, opaque: false, kind: TileKind::EmptyVacuum }
    }
}

} // verus!
