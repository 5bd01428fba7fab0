//! The authored spatial surface: board slots, footprints, placements and the
//! sides each node's endpoints face.

use vstd::prelude::*;

use super::container::Container;
use super::flow::RootSurfaceNodeKind;
use super::program::{ContainerId, NodeId};
use super::relations::{EndpointView, InputEndpoint, OutputEndpoint, RootRelation};
use crate::collections::SortedMap;

verus! {

/// A program as authored on the board.
#[derive(Debug, Clone, PartialEq, Eq)]
pub struct AuthoredTesseraProgram {
    pub root_surface: RootSurface,
    pub containers: SortedMap<ContainerId, Container>,
}

impl AuthoredTesseraProgram {
    /// A program with nothing placed.
    pub fn empty() -> (r: Self)
        ensures
            r.root_surface.nodes.as_map().is_empty(),
            r.root_surface.placements.as_map().is_empty(),
            r.root_surface.bindings.as_map().is_empty(),
            r.root_surface.explicit_relations@.len() == 0,
            r.containers.as_map().is_empty(),
    {
        AuthoredTesseraProgram { root_surface: RootSurface::default(), containers: SortedMap::new() }
    }
}

/// The nodes on the board with their placements, endpoint sides and explicit relations.
#[derive(Debug, Clone, PartialEq, Eq)]
pub struct RootSurface {
    pub nodes: SortedMap<NodeId, RootSurfaceNodeKind>,
    pub placements: SortedMap<NodeId, RootPlacement>,
    pub bindings: SortedMap<NodeId, NodeSpatialBindings>,
    pub explicit_relations: Vec<RootRelation>,
}

impl Default for RootSurface {
    fn default() -> (r: Self)
        ensures
            r.nodes.as_map().is_empty(),
            r.placements.as_map().is_empty(),
            r.bindings.as_map().is_empty(),
            r.explicit_relations@.len() == 0,
    {
        let r = RootSurface {
            nodes: SortedMap::new(),
            placements: SortedMap::new(),
            bindings: SortedMap::new(),
            explicit_relations: Vec::new(),
        };
        proof {
            assert(r.nodes.as_map().dom() =~= Set::empty());
            assert(r.placements.as_map().dom() =~= Set::empty());
            assert(r.bindings.as_map().dom() =~= Set::empty());
        }
        r
    }
}

/// A board cell.
#[derive(Debug, Clone, Copy, PartialEq, Eq, PartialOrd, Ord, Hash, Structural)]
pub struct BoardSlot {
    pub x: i32,
    pub y: i32,
}

impl BoardSlot {
    pub fn new(x: i32, y: i32) -> (r: Self)
        ensures
            r == (BoardSlot { x, y }),
    {
        BoardSlot { x, y }
    }

    /// The slot moved by `(dx, dy)`.
    pub fn offset(self, dx: i32, dy: i32) -> (r: Self)
        requires
            i32::MIN <= self.x + dx <= i32::MAX,
            i32::MIN <= self.y + dy <= i32::MAX,
        ensures
            r.x == self.x + dx,
            r.y == self.y + dy,
    {
        BoardSlot { x: self.x + dx, y: self.y + dy }
    }
}

/// How many cells a tile covers.
#[derive(Debug, Clone, Copy, PartialEq, Eq, PartialOrd, Ord, Hash, Structural)]
pub struct TileFootprint {
    pub width: u32,
    pub height: u32,
}

impl TileFootprint {
    pub fn new(width: u32, height: u32) -> (r: Self)
        ensures
            r == (TileFootprint { width, height }),
    {
        TileFootprint { width, height }
    }

    /// One cell.
    pub fn unit() -> (r: Self)
        ensures
            r == (TileFootprint { width: 1, height: 1 }),
    {
        TileFootprint { width: 1, height: 1 }
    }
}

/// Where a node sits and how much room it takes.
#[derive(Debug, Clone, Copy, PartialEq, Eq, PartialOrd, Ord, Hash, Structural)]
pub struct RootPlacement {
    pub slot: BoardSlot,
    pub footprint: TileFootprint,
}

impl RootPlacement {
    pub fn new(slot: BoardSlot, footprint: TileFootprint) -> (r: Self)
        ensures
            r == (RootPlacement { slot, footprint }),
    {
        RootPlacement { slot, footprint }
    }

    /// A one-cell placement at `(x, y)`.
    pub fn unit(x: i32, y: i32) -> (r: Self)
        ensures
            r == (RootPlacement {
                slot: BoardSlot { x, y },
                footprint: TileFootprint { width: 1, height: 1 },
            }),
    {
        RootPlacement { slot: BoardSlot::new(x, y), footprint: TileFootprint::unit() }
    }
}

/// The compass side an endpoint faces, or `Off`.
#[derive(Debug, Clone, Copy, PartialEq, Eq, PartialOrd, Ord, Hash, Structural)]
pub enum SpatialSide {
    Off,
    North,
    South,
    West,
    East,
}

pub open spec fn spec_side_offset(s: SpatialSide) -> Option<(i32, i32)> {
    match s {
        SpatialSide::Off => None,
        SpatialSide::North => Some((0i32, -1i32)),
        SpatialSide::South => Some((0i32, 1i32)),
        SpatialSide::West => Some((-1i32, 0i32)),
        SpatialSide::East => Some((1i32, 0i32)),
    }
}

pub open spec fn spec_side_opposite(s: SpatialSide) -> SpatialSide {
    match s {
        SpatialSide::Off => SpatialSide::Off,
        SpatialSide::North => SpatialSide::South,
        SpatialSide::South => SpatialSide::North,
        SpatialSide::West => SpatialSide::East,
        SpatialSide::East => SpatialSide::West,
    }
}

pub open spec fn spec_rotate_cw(s: SpatialSide) -> SpatialSide {
    match s {
        SpatialSide::Off => SpatialSide::Off,
        SpatialSide::North => SpatialSide::East,
        SpatialSide::East => SpatialSide::South,
        SpatialSide::South => SpatialSide::West,
        SpatialSide::West => SpatialSide::North,
    }
}

pub open spec fn spec_rotate_ccw(s: SpatialSide) -> SpatialSide {
    match s {
        SpatialSide::Off => SpatialSide::Off,
        SpatialSide::North => SpatialSide::West,
        SpatialSide::West => SpatialSide::South,
        SpatialSide::South => SpatialSide::East,
        SpatialSide::East => SpatialSide::North,
    }
}

pub open spec fn spec_mirror_vertical(s: SpatialSide) -> SpatialSide {
    match s {
        SpatialSide::North => SpatialSide::South,
        SpatialSide::South => SpatialSide::North,
        other => other,
    }
}

pub open spec fn spec_mirror_horizontal(s: SpatialSide) -> SpatialSide {
    match s {
        SpatialSide::West => SpatialSide::East,
        SpatialSide::East => SpatialSide::West,
        other => other,
    }
}

impl SpatialSide {
    pub fn is_enabled(self) -> (r: bool)
        ensures
            r == (self != SpatialSide::Off),
    {
        match self {
            SpatialSide::Off => false,
            _ => true,
        }
    }

    /// The board step towards this side (`y` grows southwards).
    pub fn offset(self) -> (r: Option<(i32, i32)>)
        ensures
            r == spec_side_offset(self),
    {
        match self {
            SpatialSide::Off => None,
            SpatialSide::North => Some((0, -1)),
            SpatialSide::South => Some((0, 1)),
            SpatialSide::West => Some((-1, 0)),
            SpatialSide::East => Some((1, 0)),
        }
    }

    pub fn opposite(self) -> (r: Self)
        ensures
            r == spec_side_opposite(self),
    {
        match self {
            SpatialSide::Off => SpatialSide::Off,
            SpatialSide::North => SpatialSide::South,
            SpatialSide::South => SpatialSide::North,
            SpatialSide::West => SpatialSide::East,
            SpatialSide::East => SpatialSide::West,
        }
    }

    /// A quarter turn clockwise.
    pub fn rotate_cw(self) -> (r: Self)
        ensures
            r == spec_rotate_cw(self),
    {
        match self {
            SpatialSide::Off => SpatialSide::Off,
            SpatialSide::North => SpatialSide::East,
            SpatialSide::East => SpatialSide::South,
            SpatialSide::South => SpatialSide::West,
            SpatialSide::West => SpatialSide::North,
        }
    }

    /// A quarter turn counter-clockwise.
    pub fn rotate_ccw(self) -> (r: Self)
        ensures
            r == spec_rotate_ccw(self),
    {
        match self {
            SpatialSide::Off => SpatialSide::Off,
            SpatialSide::North => SpatialSide::West,
            SpatialSide::West => SpatialSide::South,
            SpatialSide::South => SpatialSide::East,
            SpatialSide::East => SpatialSide::North,
        }
    }

    /// North and south swapped.
    pub fn mirror_vertical(self) -> (r: Self)
        ensures
            r == spec_mirror_vertical(self),
    {
        match self {
            SpatialSide::North => SpatialSide::South,
            SpatialSide::South => SpatialSide::North,
            other => other,
        }
    }

    /// West and east swapped.
    pub fn mirror_horizontal(self) -> (r: Self)
        ensures
            r == spec_mirror_horizontal(self),
    {
        match self {
            SpatialSide::West => SpatialSide::East,
            SpatialSide::East => SpatialSide::West,
            other => other,
        }
    }
}

/// Turning a side one way undoes turning it the other way; four quarter
/// turns, two mirrors or two opposites give the side back; a half turn is the
/// opposite side; and the opposite side's step is the negated step.
pub proof fn lemma_spatial_side_symmetries(s: SpatialSide)
    ensures
        spec_rotate_ccw(spec_rotate_cw(s)) == s,
        spec_rotate_cw(spec_rotate_ccw(s)) == s,
        spec_rotate_cw(spec_rotate_cw(spec_rotate_cw(spec_rotate_cw(s)))) == s,
        spec_rotate_cw(spec_rotate_cw(s)) == spec_side_opposite(s),
        spec_side_opposite(spec_side_opposite(s)) == s,
        spec_mirror_vertical(spec_mirror_vertical(s)) == s,
        spec_mirror_horizontal(spec_mirror_horizontal(s)) == s,
        spec_mirror_vertical(spec_mirror_horizontal(s)) == spec_side_opposite(s),
        match (spec_side_offset(s), spec_side_offset(spec_side_opposite(s))) {
            (Some((dx, dy)), Some((ex, ey))) => ex == -dx && ey == -dy,
            (None, None) => true,
            _ => false,
        },
{
}

/// The side each input and output endpoint of a node faces.
#[derive(Debug, Clone, PartialEq, Eq)]
pub struct NodeSpatialBindings {
    pub inputs: SortedMap<InputEndpoint, SpatialSide>,
    pub outputs: SortedMap<OutputEndpoint, SpatialSide>,
}

impl Default for NodeSpatialBindings {
    fn default() -> (r: Self)
        ensures
            r.inputs.as_map().is_empty(),
            r.outputs.as_map().is_empty(),
    {
        let r = NodeSpatialBindings { inputs: SortedMap::new(), outputs: SortedMap::new() };
        proof {
            assert(r.inputs.as_map().dom() =~= Set::empty());
            assert(r.outputs.as_map().dom() =~= Set::empty());
        }
        r
    }
}

/// Every side of `m` passed through `f`.
pub open spec fn map_sides(m: Map<EndpointView, SpatialSide>, f: spec_fn(SpatialSide) -> SpatialSide) -> Map<
    EndpointView,
    SpatialSide,
> {
    m.map_values(f)
}

/// Which quarter turn or mirror to apply to every side.
enum SideTurn {
    Cw,
    Ccw,
    Vertical,
    Horizontal,
}

spec fn spec_turn(t: SideTurn) -> spec_fn(SpatialSide) -> SpatialSide {
    match t {
        SideTurn::Cw => |s: SpatialSide| spec_rotate_cw(s),
        SideTurn::Ccw => |s: SpatialSide| spec_rotate_ccw(s),
        SideTurn::Vertical => |s: SpatialSide| spec_mirror_vertical(s),
        SideTurn::Horizontal => |s: SpatialSide| spec_mirror_horizontal(s),
    }
}

fn turn_side(t: &SideTurn, s: SpatialSide) -> (r: SpatialSide)
    ensures
        r == (spec_turn(*t))(s),
{
    match t {
        SideTurn::Cw => s.rotate_cw(),
        SideTurn::Ccw => s.rotate_ccw(),
        SideTurn::Vertical => s.mirror_vertical(),
        SideTurn::Horizontal => s.mirror_horizontal(),
    }
}

fn turn_inputs(m: &mut SortedMap<InputEndpoint, SpatialSide>, t: &SideTurn)
    ensures
        final(m).as_map() == old(m).as_map().map_values(spec_turn(*t)),
{
    let ghost om = m.as_map();
    let ghost ov = m.value_seq();
    let ghost ok = m.key_seq();
    let n = m.len();
    let mut i: usize = 0;
    while i < n
        invariant
            n == ok.len(),
            ok.len() == ov.len(),
            m.key_seq() == ok,
            m.value_seq().len() == n,
            forall|j: int| 0 <= j < i ==> #[trigger] m.value_seq()[j] == (spec_turn(*t))(ov[j]),
            forall|j: int| i <= j < n ==> #[trigger] m.value_seq()[j] == ov[j],
            forall|j: int| #![trigger ok[j]] 0 <= j < n ==> om.contains_key(ok[j]) && om[ok[j]] == ov[j],
            forall|k: EndpointView| #[trigger] om.contains_key(k) ==> exists|j: int| 0 <= j < n && ok[j] == k,
            i <= n,
        decreases n - i,
    {
        let s = *m.value_at(i);
        m.set_value_at(i, turn_side(t, s));
        i = i + 1;
    }
    let _ = m.len();
    proof {
        assert forall|k: EndpointView| #[trigger] m.as_map().contains_key(k) == om.map_values(spec_turn(*t)).contains_key(k) by {
            if om.contains_key(k) {
                let j = choose|j: int| 0 <= j < n && ok[j] == k;
                assert(m.key_seq()[j] == k);
            }
            if m.as_map().contains_key(k) {
                let j = choose|j: int| 0 <= j < m.key_seq().len() && m.key_seq()[j] == k;
                assert(ok[j] == k);
            }
        }
        assert forall|k: EndpointView| #[trigger] m.as_map().contains_key(k) implies m.as_map()[k]
            == om.map_values(spec_turn(*t))[k] by {
            let j = choose|j: int| 0 <= j < m.key_seq().len() && m.key_seq()[j] == k;
            assert(m.key_seq()[j] == ok[j]);
        }
        assert(m.as_map() =~= om.map_values(spec_turn(*t)));
    }
}

fn turn_outputs(m: &mut SortedMap<OutputEndpoint, SpatialSide>, t: &SideTurn)
    ensures
        final(m).as_map() == old(m).as_map().map_values(spec_turn(*t)),
{
    let ghost om = m.as_map();
    let ghost ov = m.value_seq();
    let ghost ok = m.key_seq();
    let n = m.len();
    let mut i: usize = 0;
    while i < n
        invariant
            n == ok.len(),
            ok.len() == ov.len(),
            m.key_seq() == ok,
            m.value_seq().len() == n,
            forall|j: int| 0 <= j < i ==> #[trigger] m.value_seq()[j] == (spec_turn(*t))(ov[j]),
            forall|j: int| i <= j < n ==> #[trigger] m.value_seq()[j] == ov[j],
            forall|j: int| #![trigger ok[j]] 0 <= j < n ==> om.contains_key(ok[j]) && om[ok[j]] == ov[j],
            forall|k: EndpointView| #[trigger] om.contains_key(k) ==> exists|j: int| 0 <= j < n && ok[j] == k,
            i <= n,
        decreases n - i,
    {
        let s = *m.value_at(i);
        m.set_value_at(i, turn_side(t, s));
        i = i + 1;
    }
    let _ = m.len();
    proof {
        assert forall|k: EndpointView| #[trigger] m.as_map().contains_key(k) == om.map_values(spec_turn(*t)).contains_key(k) by {
            if om.contains_key(k) {
                let j = choose|j: int| 0 <= j < n && ok[j] == k;
                assert(m.key_seq()[j] == k);
            }
            if m.as_map().contains_key(k) {
                let j = choose|j: int| 0 <= j < m.key_seq().len() && m.key_seq()[j] == k;
                assert(ok[j] == k);
            }
        }
        assert forall|k: EndpointView| #[trigger] m.as_map().contains_key(k) implies m.as_map()[k]
            == om.map_values(spec_turn(*t))[k] by {
            let j = choose|j: int| 0 <= j < m.key_seq().len() && m.key_seq()[j] == k;
            assert(m.key_seq()[j] == ok[j]);
        }
        assert(m.as_map() =~= om.map_values(spec_turn(*t)));
    }
}

impl NodeSpatialBindings {
    /// The bindings with `endpoint` facing `side`.
    pub fn bind_input(self, endpoint: InputEndpoint, side: SpatialSide) -> (r: Self)
        ensures
            r.inputs.as_map() == self.inputs.as_map().insert(endpoint@, side),
            r.outputs.as_map() == self.outputs.as_map(),
    {
        let mut b = self;
        b.inputs.insert(endpoint, side);
        b
    }

    /// The bindings with `endpoint` facing `side`.
    pub fn bind_output(self, endpoint: OutputEndpoint, side: SpatialSide) -> (r: Self)
        ensures
            r.inputs.as_map() == self.inputs.as_map(),
            r.outputs.as_map() == self.outputs.as_map().insert(endpoint@, side),
    {
        let mut b = self;
        b.outputs.insert(endpoint, side);
        b
    }

    /// Every side turned a quarter clockwise.
    pub fn rotate_cw(&mut self)
        ensures
            final(self).inputs.as_map() == old(self).inputs.as_map().map_values(
                |s: SpatialSide| spec_rotate_cw(s),
            ),
            final(self).outputs.as_map() == old(self).outputs.as_map().map_values(
                |s: SpatialSide| spec_rotate_cw(s),
            ),
    {
        let t = SideTurn::Cw;
        turn_inputs(&mut self.inputs, &t);
        turn_outputs(&mut self.outputs, &t);
    }

    /// Every side turned a quarter counter-clockwise.
    pub fn rotate_ccw(&mut self)
        ensures
            final(self).inputs.as_map() == old(self).inputs.as_map().map_values(
                |s: SpatialSide| spec_rotate_ccw(s),
            ),
            final(self).outputs.as_map() == old(self).outputs.as_map().map_values(
                |s: SpatialSide| spec_rotate_ccw(s),
            ),
    {
        let t = SideTurn::Ccw;
        turn_inputs(&mut self.inputs, &t);
        turn_outputs(&mut self.outputs, &t);
    }

    /// North and south swapped on every side.
    pub fn mirror_vertical(&mut self)
        ensures
            final(self).inputs.as_map() == old(self).inputs.as_map().map_values(
                |s: SpatialSide| spec_mirror_vertical(s),
            ),
            final(self).outputs.as_map() == old(self).outputs.as_map().map_values(
                |s: SpatialSide| spec_mirror_vertical(s),
            ),
    {
        let t = SideTurn::Vertical;
        turn_inputs(&mut self.inputs, &t);
        turn_outputs(&mut self.outputs, &t);
    }

    /// West and east swapped on every side.
    pub fn mirror_horizontal(&mut self)
        ensures
            final(self).inputs.as_map() == old(self).inputs.as_map().map_values(
                |s: SpatialSide| spec_mirror_horizontal(s),
            ),
            final(self).outputs.as_map() == old(self).outputs.as_map().map_values(
                |s: SpatialSide| spec_mirror_horizontal(s),
            ),
    {
        let t = SideTurn::Horizontal;
        turn_inputs(&mut self.inputs, &t);
        turn_outputs(&mut self.outputs, &t);
    }
}

/// Rotating all of a node's sides clockwise and then counter-clockwise (or the
/// other way round) leaves every binding as it was.
pub proof fn lemma_rotation_round_trip(m: Map<EndpointView, SpatialSide>)
    ensures
        m.map_values(|s: SpatialSide| spec_rotate_cw(s)).map_values(
            |s: SpatialSide| spec_rotate_ccw(s),
        ) == m,
        m.map_values(|s: SpatialSide| spec_rotate_ccw(s)).map_values(
            |s: SpatialSide| spec_rotate_cw(s),
        ) == m,
        m.map_values(|s: SpatialSide| spec_mirror_vertical(s)).map_values(
            |s: SpatialSide| spec_mirror_vertical(s),
        ) == m,
        m.map_values(|s: SpatialSide| spec_mirror_horizontal(s)).map_values(
            |s: SpatialSide| spec_mirror_horizontal(s),
        ) == m,
{
    assert(m.map_values(|s: SpatialSide| spec_rotate_cw(s)).map_values(
        |s: SpatialSide| spec_rotate_ccw(s),
    ) =~= m);
    assert(m.map_values(|s: SpatialSide| spec_rotate_ccw(s)).map_values(
        |s: SpatialSide| spec_rotate_cw(s),
    ) =~= m);
    assert(m.map_values(|s: SpatialSide| spec_mirror_vertical(s)).map_values(
        |s: SpatialSide| spec_mirror_vertical(s),
    ) =~= m);
    assert(m.map_values(|s: SpatialSide| spec_mirror_horizontal(s)).map_values(
        |s: SpatialSide| spec_mirror_horizontal(s),
    ) =~= m);
}

} // verus!
