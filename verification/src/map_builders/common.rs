use std::collections::HashSet;

use rltk::RandomNumberGenerator;
use vstd::prelude::*;

use crate::vectors::Vector3i;

verus! {

/// What an area of the ship is used for.
#[derive(Clone, Copy, Debug, PartialEq, Eq, Structural)]
pub enum AreaType {
    Corridor,
    GenericRoom,
    GeneratorRoom,
    Cockpit,
}

/// The common view of rooms and corridors.
pub trait Area {
    fn get_area_id(&self) -> usize;

    fn get_area_name(&self) -> &String;

    fn get_area_position(&self) -> &Vector3i;

    fn get_nodes(&mut self) -> &mut Vec<Vector3i>;

    fn get_breaker_pos(&self) -> &Option<Vector3i>;

    fn set_breaker_pos(&mut self, breaker_position: Vector3i);

    fn get_power_connections(&self) -> &Vec<Vector3i>;

    fn update_power_connections(&mut self) -> &mut Vec<Vector3i>;

    fn get_size(&self) -> &Vector3i;

    fn get_area_type(&self) -> AreaType;

    fn set_area_type(&mut self, area_type: AreaType);
}

/// A room or a corridor of the ship.
pub enum ShipArea {
    Room(Room),
    Corridor(Corridor),
}

impl ShipArea {
    /// Where the area stands: a room's centre, a corridor's start.
    pub open spec fn position_spec(self) -> Vector3i {
        match self {
            ShipArea::Room(r) => r.centre,
            ShipArea::Corridor(c) => c.start,
        }
    }

    pub open spec fn size_spec(self) -> Vector3i {
        match self {
            ShipArea::Room(r) => r.size,
            ShipArea::Corridor(c) => c.size,
        }
    }

    pub open spec fn kind_spec(self) -> AreaType {
        match self {
            ShipArea::Room(r) => r.area_type,
            ShipArea::Corridor(c) => c.area_type,
        }
    }

    pub open spec fn nodes_spec(self) -> Seq<Vector3i> {
        match self {
            ShipArea::Room(r) => r.nodes@,
            ShipArea::Corridor(c) => c.nodes@,
        }
    }

    pub open spec fn breaker_spec(self) -> Option<Vector3i> {
        match self {
            ShipArea::Room(r) => r.breaker_position,
            ShipArea::Corridor(c) => c.breaker_position,
        }
    }

    pub open spec fn connections_spec(self) -> Seq<Vector3i> {
        match self {
            ShipArea::Room(r) => r.power_connections@,
            ShipArea::Corridor(c) => c.power_connections@,
        }
    }

    /// `self` and `other` are the same area but for its breaker and its power
    /// connections.
    pub open spec fn same_but_power(self, other: ShipArea) -> bool {
        match (self, other) {
            (ShipArea::Room(a), ShipArea::Room(b)) => {
                &&& a.centre == b.centre
                &&& a.size == b.size
                &&& a.area_id == b.area_id
                &&& a.area_name == b.area_name
                &&& a.area_type == b.area_type
                &&& a.nodes == b.nodes
            },
            (ShipArea::Corridor(a), ShipArea::Corridor(b)) => {
                &&& a.start == b.start
                &&& a.end == b.end
                &&& a.area_id == b.area_id
                &&& a.area_name == b.area_name
                &&& a.area_type == b.area_type
                &&& a.width == b.width
                &&& a.connected_areas == b.connected_areas
                &&& a.nodes == b.nodes
                &&& a.size == b.size
            },
            _ => false,
        }
    }

    /// Where the area stands: a room's centre, a corridor's start.
    pub fn position(&self) -> (p: Vector3i)
        ensures
            p == self.position_spec(),
    {
        match self {
            ShipArea::Room(r) => r.centre,
            ShipArea::Corridor(c) => c.start,
        }
    }

    /// The area's size.
    pub fn size(&self) -> (s: Vector3i)
        ensures
            s == self.size_spec(),
    {
        match self {
            ShipArea::Room(r) => r.size,
            ShipArea::Corridor(c) => c.size,
        }
    }

    /// What the area is used for.
    pub fn kind(&self) -> (k: AreaType)
        ensures
            k == self.kind_spec(),
    {
        match self {
            ShipArea::Room(r) => r.area_type,
            ShipArea::Corridor(c) => c.area_type,
        }
    }

    /// The area's doorways, in order.
    pub fn nodes(&self) -> (n: &Vec<Vector3i>)
        ensures
            n@ == self.nodes_spec(),
    {
        match self {
            ShipArea::Room(r) => &r.nodes,
            ShipArea::Corridor(c) => &c.nodes,
        }
    }

    /// The area's breaker, if it has one.
    pub fn breaker(&self) -> (b: Option<Vector3i>)
        ensures
            b == self.breaker_spec(),
    {
        match self {
            ShipArea::Room(r) => r.breaker_position,
            ShipArea::Corridor(c) => c.breaker_position,
        }
    }

    /// The area's power connections, in order.
    pub fn connections(&self) -> (c: &Vec<Vector3i>)
        ensures
            c@ == self.connections_spec(),
    {
        match self {
            ShipArea::Room(r) => &r.power_connections,
            ShipArea::Corridor(c) => &c.power_connections,
        }
    }

    /// Places the area's breaker at `breaker_position`.
    pub fn set_breaker(&mut self, breaker_position: Vector3i)
        ensures
            final(self).breaker_spec() == Some(breaker_position),
            final(self).connections_spec() == old(self).connections_spec(),
            old(self).same_but_power(*final(self)),
    {
        match self {
            ShipArea::Room(r) => {
                r.breaker_position = Some(breaker_position);
            },
            ShipArea::Corridor(c) => {
                c.breaker_position = Some(breaker_position);
            },
        }
    }

    /// Adds `connections` at the end of the area's power connections.
    pub fn add_power_connections(&mut self, connections: &Vec<Vector3i>)
        ensures
            final(self).connections_spec() == old(self).connections_spec() + connections@,
            final(self).breaker_spec() == old(self).breaker_spec(),
            old(self).same_but_power(*final(self)),
    {
        match self {
            ShipArea::Room(r) => {
                crate::map::pathfinding::append_all(&mut r.power_connections, connections);
            },
            ShipArea::Corridor(c) => {
                crate::map::pathfinding::append_all(&mut c.power_connections, connections);
            },
        }
    }
}

/// A rectangular room around `centre`.
#[derive(Clone)]
pub struct Room {
    pub centre: Vector3i,
    pub size: Vector3i,
    pub area_id: usize,
    pub area_name: String,
    pub area_type: AreaType,
    pub nodes: Vec<Vector3i>,
    pub breaker_position: Option<Vector3i>,
    pub power_connections: Vec<Vector3i>,
}

impl Room {
    /// A room with no doors or power connections yet and a random id; with
    /// `power_connection` it gets a breaker position, at the origin until placed.
    pub fn new(
        centre: Vector3i,
        size: Vector3i,
        area_name: String,
        area_type: AreaType,
        power_connection: bool,
        rng: &mut RandomNumberGenerator,
    ) -> (r: Room)
        ensures
            r.centre == centre,
            r.size == size,
            r.area_name@ == area_name@,
            r.area_type == area_type,
            r.nodes@ == Seq::<Vector3i>::empty(),
            r.breaker_position == (if power_connection {
                Some(Vector3i::of(0, 0, 0))
            } else {
                None
            }),
            r.power_connections@ == Seq::<Vector3i>::empty(),
    {
        let area_id = crate::rng::random_int(rng) as usize;
        Room {
            centre,
            size,
            area_id,
            area_name,
            area_type,
            nodes: Vec::new(),
            breaker_position: if power_connection {
                Some(Vector3i::new_equi(0))
            } else {
                None
            },
            power_connections: Vec::new(),
        }
    }
}

impl Area for Room {
    fn get_area_id(&self) -> (r: usize)
        ensures
            r == self.area_id,
    {
        self.area_id
    }

    fn get_area_name(&self) -> (r: &String)
        ensures
            r == &self.area_name,
    {
        &self.area_name
    }

    fn get_area_position(&self) -> (r: &Vector3i)
        ensures
            *r == self.centre,
    {
        &self.centre
    }

    fn get_nodes(&mut self) -> (r: &mut Vec<Vector3i>)
        ensures
            *r == old(self).nodes,
            final(self).nodes == *final(r),
            final(self).centre == old(self).centre,
            final(self).size == old(self).size,
            final(self).area_id == old(self).area_id,
            final(self).area_type == old(self).area_type,
            final(self).breaker_position == old(self).breaker_position,
            final(self).power_connections == old(self).power_connections,
            final(self).area_name == old(self).area_name,
    {
        &mut self.nodes
    }

    fn get_breaker_pos(&self) -> (r: &Option<Vector3i>)
        ensures
            *r == self.breaker_position,
    {
        &self.breaker_position
    }

    fn set_breaker_pos(&mut self, breaker_position: Vector3i)
        ensures
            final(self).breaker_position == Some(breaker_position),
            final(self).centre == old(self).centre,
            final(self).size == old(self).size,
            final(self).area_id == old(self).area_id,
            final(self).area_type == old(self).area_type,
            final(self).nodes == old(self).nodes,
            final(self).power_connections == old(self).power_connections,
            final(self).area_name == old(self).area_name,
    {
        self.breaker_position = Some(breaker_position);
    }

    fn get_power_connections(&self) -> (r: &Vec<Vector3i>)
        ensures
            *r == self.power_connections,
    {
        &self.power_connections
    }

    fn update_power_connections(&mut self) -> (r: &mut Vec<Vector3i>)
        ensures
            *r == old(self).power_connections,
            final(self).power_connections == *final(r),
            final(self).centre == old(self).centre,
            final(self).size == old(self).size,
            final(self).area_id == old(self).area_id,
            final(self).area_type == old(self).area_type,
            final(self).breaker_position == old(self).breaker_position,
            final(self).nodes == old(self).nodes,
            final(self).area_name == old(self).area_name,
    {
        &mut self.power_connections
    }

    fn get_size(&self) -> (r: &Vector3i)
        ensures
            *r == self.size,
    {
        &self.size
    }

    fn get_area_type(&self) -> (r: AreaType)
        ensures
            r == self.area_type,
    {
        self.area_type
    }

    fn set_area_type(&mut self, area_type: AreaType)
        ensures
            final(self).area_type == area_type,
            final(self).centre == old(self).centre,
            final(self).size == old(self).size,
            final(self).area_id == old(self).area_id,
            final(self).breaker_position == old(self).breaker_position,
            final(self).nodes == old(self).nodes,
            final(self).power_connections == old(self).power_connections,
            final(self).area_name == old(self).area_name,
    {
        self.area_type = area_type;
    }
}

/// A corridor from `start` to `end`, `width` cells wide.
pub struct Corridor {
    pub start: Vector3i,
    pub end: Vector3i,
    pub area_id: usize,
    pub area_name: String,
    pub area_type: AreaType,
    pub width: usize,
    pub connected_areas: HashSet<usize>,
    pub nodes: Vec<Vector3i>,
    pub breaker_position: Option<Vector3i>,
    pub power_connections: Vec<Vector3i>,
    pub size: Vector3i,
}

impl Corridor {
    /// A corridor connecting nothing yet, with a random id and a size of
    /// `width` on every axis; with `power_connection` it gets a breaker position,
    /// at the origin until placed.
    pub fn new(
        start: Vector3i,
        end: Vector3i,
        width: usize,
        area_name: String,
        area_type: AreaType,
        power_connection: bool,
        rng: &mut RandomNumberGenerator,
    ) -> (r: Corridor)
        ensures
            r.start == start,
            r.end == end,
            r.width == width,
            r.area_name@ == area_name@,
            r.area_type == area_type,
            r.connected_areas@ == Set::<usize>::empty(),
            r.nodes@ == Seq::<Vector3i>::empty(),
            r.breaker_position == (if power_connection {
                Some(Vector3i::of(0, 0, 0))
            } else {
                None
            }),
            r.power_connections@ == Seq::<Vector3i>::empty(),
            r.size.x == width as i32,
            r.size.y == width as i32,
            r.size.z == width as i32,
    {
        let area_id = crate::rng::random_int(rng) as usize;
        Corridor {
            start,
            end,
            area_id,
            area_name,
            area_type,
            width,
            connected_areas: HashSet::new(),
            nodes: Vec::new(),
            breaker_position: if power_connection {
                Some(Vector3i::new_equi(0))
            } else {
                None
            },
            power_connections: Vec::new(),
            size: Vector3i::new_equi(width as i32),
        }
    }
}

impl Area for Corridor {
    fn get_area_id(&self) -> (r: usize)
        ensures
            r == self.area_id,
    {
        self.area_id
    }

    fn get_area_name(&self) -> (r: &String)
        ensures
            r == &self.area_name,
    {
        &self.area_name
    }

    fn get_area_position(&self) -> (r: &Vector3i)
        ensures
            *r == self.start,
    {
        &self.start
    }

    fn get_nodes(&mut self) -> (r: &mut Vec<Vector3i>)
        ensures
            *r == old(self).nodes,
            final(self).nodes == *final(r),
            final(self).start == old(self).start,
            final(self).size == old(self).size,
            final(self).area_type == old(self).area_type,
            final(self).breaker_position == old(self).breaker_position,
            final(self).power_connections == old(self).power_connections,
    {
        &mut self.nodes
    }

    fn get_breaker_pos(&self) -> (r: &Option<Vector3i>)
        ensures
            *r == self.breaker_position,
    {
        &self.breaker_position
    }

    fn set_breaker_pos(&mut self, breaker_position: Vector3i)
        ensures
            final(self).breaker_position == Some(breaker_position),
            final(self).start == old(self).start,
            final(self).size == old(self).size,
            final(self).area_type == old(self).area_type,
            final(self).nodes == old(self).nodes,
            final(self).power_connections == old(self).power_connections,
    {
        self.breaker_position = Some(breaker_position);
    }

    fn get_power_connections(&self) -> (r: &Vec<Vector3i>)
        ensures
            *r == self.power_connections,
    {
        &self.power_connections
    }

    fn update_power_connections(&mut self) -> (r: &mut Vec<Vector3i>)
        ensures
            *r == old(self).power_connections,
            final(self).power_connections == *final(r),
            final(self).start == old(self).start,
            final(self).size == old(self).size,
            final(self).area_type == old(self).area_type,
            final(self).breaker_position == old(self).breaker_position,
            final(self).nodes == old(self).nodes,
    {
        &mut self.power_connections
    }

    fn get_size(&self) -> (r: &Vector3i)
        ensures
            *r == self.size,
    {
        &self.size
    }

    fn get_area_type(&self) -> (r: AreaType)
        ensures
            r == self.area_type,
    {
        self.area_type
    }

    fn set_area_type(&mut self, area_type: AreaType)
        ensures
            final(self).area_type == area_type,
            final(self).start == old(self).start,
            final(self).size == old(self).size,
            final(self).breaker_position == old(self).breaker_position,
            final(self).nodes == old(self).nodes,
            final(self).power_connections == old(self).power_connections,
    {
        self.area_type = area_type;
    }
}

} // verus!
