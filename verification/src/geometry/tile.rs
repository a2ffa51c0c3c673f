//! The tiles, and the rotations and displacements that act on them.
//!
//! A tile is a set of points with integer coordinates. Rotating or displacing
//! a tile never enumerates its points: a wrapper records the angle or the
//! offset, and a membership test takes the queried point back into the
//! coordinates of the wrapped tile.

use vstd::pervasive::cloned;
use vstd::prelude::*;

verus! {

#[derive(Debug, PartialEq, Eq, Structural)]
pub enum Angle {
    /// 0° in counter-clockwise order
    Zero,
    /// 90° in counter-clockwise order
    Ninety,
    /// 180° in counter-clockwise order
    OneEighty,
    /// 270° in counter-clockwise order
    TwoSeventy,
}

#[derive(Debug, PartialEq, Eq, Structural)]
pub enum BasicTile {
    /// 1x1 square
    Square,
    /// 2x2 diagonal line
    Diagonal,
    /// 2x1 vertical line
    Line,
}

/// A tile, turned about its origin.
#[derive(Debug)]
pub struct RotatedTile<T> {
    /// The tile that is turned.
    pub t: T,
    /// The angle by which it is turned.
    pub a: Angle,
}

/// A tile, moved away from where it was.
#[derive(Debug)]
pub struct DisplacedTile<T> {
    /// The tile that is moved.
    pub t: T,
    /// How far it is moved along the first axis, to the right.
    pub displ_x: i32,
    /// How far it is moved along the second axis, upwards.
    pub displ_y: i32,
}

impl Clone for Angle {
    fn clone(&self) -> (angle: Self)
        ensures
            angle == *self,
    {
        match self {
            Angle::Zero => Angle::Zero,
            Angle::Ninety => Angle::Ninety,
            Angle::OneEighty => Angle::OneEighty,
            Angle::TwoSeventy => Angle::TwoSeventy,
        }
    }
}

impl Clone for BasicTile {
    fn clone(&self) -> (tile: Self)
        ensures
            tile == *self,
    {
        match self {
            BasicTile::Square => BasicTile::Square,
            BasicTile::Diagonal => BasicTile::Diagonal,
            BasicTile::Line => BasicTile::Line,
        }
    }
}

impl<T: Clone> Clone for RotatedTile<T> {
    fn clone(&self) -> (tile: Self)
        ensures
            cloned(self.t, tile.t),
            tile.a == self.a,
    {
        RotatedTile { t: self.t.clone(), a: self.a.clone() }
    }
}

impl<T: Clone> Clone for DisplacedTile<T> {
    fn clone(&self) -> (tile: Self)
        ensures
            cloned(self.t, tile.t),
            tile.displ_x == self.displ_x,
            tile.displ_y == self.displ_y,
    {
        DisplacedTile { t: self.t.clone(), displ_x: self.displ_x, displ_y: self.displ_y }
    }
}

impl<T> RotatedTile<T> {
    pub fn new(t: T) -> (tile: Self)
        ensures
            tile == (RotatedTile { t, a: Angle::Zero }),
    {
        Self { t, a: Angle::Zero }
    }
}

impl<T> DisplacedTile<T> {
    pub fn new(t: T) -> (tile: Self)
        ensures
            tile == (DisplacedTile { t, displ_x: 0, displ_y: 0 }),
    {
        Self { t, displ_x: 0, displ_y: 0 }
    }

    pub fn displ_x(&self) -> (x: &i32)
        ensures
            *x == self.displ_x,
    {
        &self.displ_x
    }

    pub fn displ_y(&self) -> (y: &i32)
        ensures
            *y == self.displ_y,
    {
        &self.displ_y
    }
}

/// Whether `v` is a value of `i32`.
pub open spec fn fits(v: int) -> bool {
    i32::MIN <= v <= i32::MAX
}

/// A set of points with integer coordinates.
pub trait Discrete2DSet {
    /// Whether the point `(x, y)` belongs to the set.
    spec fn occupies(&self, x: int, y: int) -> bool;

    /// Whether `contains` can test the point `(x, y)` within the machine's
    /// integers: the coordinates it computes on the way all fit `i32`.
    spec fn within_reach(&self, x: int, y: int) -> bool;

    fn contains(&self, x: i32, y: i32) -> (b: bool)
        requires
            self.within_reach(x as int, y as int),
        ensures
            b == self.occupies(x as int, y as int),
    ;

    fn is_empty(&self) -> (b: bool)
        ensures
            b == (forall|x: int, y: int| !self.occupies(x, y)),
    ;
}

/// Whether the set has no point at all.
pub open spec fn vacant<T: Discrete2DSet + ?Sized>(set: &T) -> bool {
    forall|x: int, y: int| !set.occupies(x, y)
}

impl Discrete2DSet for BasicTile {
    open spec fn occupies(&self, x: int, y: int) -> bool {
        match self {
            BasicTile::Square => x == 0 && y == 0,
            BasicTile::Diagonal => (x == 0 && y == 0) || (x == 1 && y == 1),
            BasicTile::Line => x == 0 && (y == 0 || y == 1),
        }
    }

    open spec fn within_reach(&self, x: int, y: int) -> bool {
        true
    }

    fn contains(&self, x: i32, y: i32) -> (b: bool) {
        match self {
            BasicTile::Square => x == 0 && y == 0,
            BasicTile::Diagonal => (x == 0 && y == 0) || (x == 1 && y == 1),
            BasicTile::Line => x == 0 && (y == 0 || y == 1),
        }
    }

    fn is_empty(&self) -> (b: bool) {
        assert(self.occupies(0, 0));
        false
    }
}

impl<T> Discrete2DSet for RotatedTile<T> where T: Discrete2DSet {
    /// A point belongs to the rotated tile when the point that the inverse
    /// rotation takes it to belongs to the wrapped tile.
    open spec fn occupies(&self, x: int, y: int) -> bool {
        match self.a {
            Angle::Zero => self.t.occupies(x, y),
            Angle::Ninety => self.t.occupies(y, -x),
            Angle::OneEighty => self.t.occupies(-x, -y),
            Angle::TwoSeventy => self.t.occupies(-y, x),
        }
    }

    open spec fn within_reach(&self, x: int, y: int) -> bool {
        match self.a {
            Angle::Zero => self.t.within_reach(x, y),
            Angle::Ninety => fits(-x) && self.t.within_reach(y, -x),
            Angle::OneEighty => fits(-x) && fits(-y) && self.t.within_reach(-x, -y),
            Angle::TwoSeventy => fits(-y) && self.t.within_reach(-y, x),
        }
    }

    fn contains(&self, x: i32, y: i32) -> (b: bool) {
        // The tile is expected to be rotated counter-clockwise (since the
        // `Rotatee` trait defines rotations to be counter-clockwise).
        // When calling `contains` on the contained tile below, the specified
        // coordinates are interpreted by the tile in its local system of coordinates.
        // Hence, we have to use the clockwise rotation matrix to map the vector
        // (x, y) into the tile-local system of coordinates.
        match self.a {
            Angle::Zero => self.t.contains(x, y),
            Angle::Ninety => self.t.contains(y, -x),
            Angle::OneEighty => self.t.contains(-x, -y),
            Angle::TwoSeventy => self.t.contains(-y, x),
        }
    }

    fn is_empty(&self) -> (b: bool) {
        proof {
            if !vacant(&self.t) {
                let (x, y) = choose|x: int, y: int| self.t.occupies(x, y);
                assert(self.occupies(x, y) || self.occupies(-y, x) || self.occupies(-x, -y)
                    || self.occupies(y, -x));
            }
        }
        self.t.is_empty()
    }
}

impl<T> Discrete2DSet for DisplacedTile<T> where T: Discrete2DSet {
    /// A point belongs to the displaced tile when the point that lies the
    /// offset before it belongs to the wrapped tile.
    open spec fn occupies(&self, x: int, y: int) -> bool {
        self.t.occupies(x - self.displ_x, y - self.displ_y)
    }

    open spec fn within_reach(&self, x: int, y: int) -> bool {
        &&& fits(x - self.displ_x)
        &&& fits(y - self.displ_y)
        &&& self.t.within_reach(x - self.displ_x, y - self.displ_y)
    }

    fn contains(&self, x: i32, y: i32) -> (b: bool) {
        self.t.contains(x - self.displ_x, y - self.displ_y)
    }

    fn is_empty(&self) -> (b: bool) {
        proof {
            if !vacant(&self.t) {
                let (x, y) = choose|x: int, y: int| self.t.occupies(x, y);
                assert(self.occupies(x + self.displ_x, y + self.displ_y));
            }
        }
        self.t.is_empty()
    }
}

pub trait Rotatee: Sized {
    type Rotated;

    /// The value, turned by 90 degrees in counter-clockwise order.
    spec fn rotated_ccw(self) -> Self::Rotated;

    /// Rotate by 90 degrees in counter-clockwise order
    fn rotate_ccw(self) -> (rotated: Self::Rotated)
        ensures
            rotated == self.rotated_ccw(),
    ;
}

impl Rotatee for Angle {
    type Rotated = Self;

    open spec fn rotated_ccw(self) -> Self {
        match self {
            Angle::Zero => Angle::Ninety,
            Angle::Ninety => Angle::OneEighty,
            Angle::OneEighty => Angle::TwoSeventy,
            Angle::TwoSeventy => Angle::Zero,
        }
    }

    fn rotate_ccw(self) -> (rotated: Self) {
        match self {
            Angle::Zero => Angle::Ninety,
            Angle::Ninety => Angle::OneEighty,
            Angle::OneEighty => Angle::TwoSeventy,
            Angle::TwoSeventy => Angle::Zero,
        }
    }
}

impl Rotatee for BasicTile {
    type Rotated = RotatedTile<BasicTile>;

    open spec fn rotated_ccw(self) -> RotatedTile<BasicTile> {
        RotatedTile { t: self, a: Angle::Ninety }
    }

    fn rotate_ccw(self) -> (rotated: RotatedTile<BasicTile>) {
        RotatedTile::new(self).rotate_ccw()
    }
}

impl<T> Rotatee for RotatedTile<T> {
    type Rotated = Self;

    open spec fn rotated_ccw(self) -> Self {
        RotatedTile { t: self.t, a: self.a.rotated_ccw() }
    }

    fn rotate_ccw(self) -> (rotated: Self) {
        Self { t: self.t, a: self.a.rotate_ccw() }
    }
}

impl<T> Rotatee for DisplacedTile<T> where T: Rotatee {
    type Rotated = DisplacedTile<T::Rotated>;

    /// The wrapped tile turns about its own origin; the offset stays.
    open spec fn rotated_ccw(self) -> DisplacedTile<T::Rotated> {
        DisplacedTile { t: self.t.rotated_ccw(), displ_x: self.displ_x, displ_y: self.displ_y }
    }

    fn rotate_ccw(self) -> (rotated: DisplacedTile<T::Rotated>) {
        DisplacedTile { t: self.t.rotate_ccw(), displ_x: self.displ_x, displ_y: self.displ_y }
    }
}

pub trait Displacee: Sized {
    type Displaced;

    /// Whether the offsets of the value displaced by `(x, y)` fit `i32`.
    spec fn displaceable_by(&self, x: int, y: int) -> bool;

    /// The value, moved by `x` along the first axis and by `y` along the second.
    spec fn displaced_by(self, x: int, y: int) -> Self::Displaced;

    fn displace_by(self, x: i32, y: i32) -> (displaced: Self::Displaced)
        requires
            self.displaceable_by(x as int, y as int),
        ensures
            displaced == self.displaced_by(x as int, y as int),
    ;
}

impl Displacee for BasicTile {
    type Displaced = DisplacedTile<Self>;

    open spec fn displaceable_by(&self, x: int, y: int) -> bool {
        fits(x) && fits(y)
    }

    open spec fn displaced_by(self, x: int, y: int) -> DisplacedTile<Self> {
        DisplacedTile { t: self, displ_x: x as i32, displ_y: y as i32 }
    }

    fn displace_by(self, x: i32, y: i32) -> (displaced: DisplacedTile<Self>) {
        DisplacedTile::new(self).displace_by(x, y)
    }
}

impl<T> Displacee for RotatedTile<T> {
    type Displaced = DisplacedTile<Self>;

    open spec fn displaceable_by(&self, x: int, y: int) -> bool {
        fits(x) && fits(y)
    }

    open spec fn displaced_by(self, x: int, y: int) -> DisplacedTile<Self> {
        DisplacedTile { t: self, displ_x: x as i32, displ_y: y as i32 }
    }

    fn displace_by(self, x: i32, y: i32) -> (displaced: DisplacedTile<Self>) {
        DisplacedTile::new(self).displace_by(x, y)
    }
}

impl<T> Displacee for DisplacedTile<T> {
    type Displaced = Self;

    open spec fn displaceable_by(&self, x: int, y: int) -> bool {
        fits(self.displ_x + x) && fits(self.displ_y + y)
    }

    /// The offsets add up; the wrapped tile stays.
    open spec fn displaced_by(self, x: int, y: int) -> Self {
        DisplacedTile {
            t: self.t,
            displ_x: (self.displ_x + x) as i32,
            displ_y: (self.displ_y + y) as i32,
        }
    }

    fn displace_by(self, x: i32, y: i32) -> (displaced: Self) {
        Self { t: self.t, displ_x: self.displ_x + x, displ_y: self.displ_y + y }
    }
}

pub trait Dimensionee {
    /// Width and height of the smallest box, with a corner at the origin, that
    /// holds the shape.
    spec fn extent(&self) -> (int, int);

    /// (width, height)
    fn dimensions(&self) -> (dimensions: (usize, usize))
        ensures
            dimensions.0 == self.extent().0,
            dimensions.1 == self.extent().1,
    ;
}

impl Dimensionee for BasicTile {
    open spec fn extent(&self) -> (int, int) {
        match self {
            BasicTile::Square => (1, 1),
            BasicTile::Line => (1, 2),
            BasicTile::Diagonal => (2, 2),
        }
    }

    fn dimensions(&self) -> (dimensions: (usize, usize)) {
        match self {
            BasicTile::Square => (1, 1),
            BasicTile::Line => (1, 2),
            BasicTile::Diagonal => (2, 2),
        }
    }
}

/// The points of a basic tile lie in the box that its dimensions span, and the
/// box is no larger than needed: a point lies on its last column, and one on
/// its last row.
pub proof fn lemma_basic_tile_extent(tile: BasicTile)
    ensures
        forall|x: int, y: int|
            tile.occupies(x, y) ==> 0 <= x < tile.extent().0 && 0 <= y < tile.extent().1,
        exists|x: int, y: int| #[trigger] tile.occupies(x, y) && x == tile.extent().0 - 1,
        exists|x: int, y: int| #[trigger] tile.occupies(x, y) && y == tile.extent().1 - 1,
{
    match tile {
        BasicTile::Square => {
            assert(tile.occupies(0, 0));
        },
        BasicTile::Line => {
            assert(tile.occupies(0, 1));
        },
        BasicTile::Diagonal => {
            assert(tile.occupies(1, 1));
        },
    }
}

/// Four quarter turns bring an angle back to where it started.
pub proof fn lemma_angle_full_turn(angle: Angle)
    ensures
        angle.rotated_ccw().rotated_ccw().rotated_ccw().rotated_ccw() == angle,
{
}

/// A quarter turn takes the point `(x, y)` of a tile to `(-y, x)`: the turned
/// tile holds a point exactly when the tile holds the point that the turn
/// brought there.
pub proof fn lemma_quarter_turn<T: Discrete2DSet>(tile: RotatedTile<T>, x: int, y: int)
    ensures
        tile.rotated_ccw().occupies(x, y) == tile.occupies(y, -x),
{
}

/// Rotation closure: whatever the wrapped shape and the starting angle, four
/// quarter turns give the tile back, and so a tile with the same points.
pub proof fn lemma_rotated_full_turn<T: Discrete2DSet>(tile: RotatedTile<T>)
    ensures
        tile.rotated_ccw().rotated_ccw().rotated_ccw().rotated_ccw() == tile,
        forall|x: int, y: int|
            tile.rotated_ccw().rotated_ccw().rotated_ccw().rotated_ccw().occupies(x, y)
                == tile.occupies(x, y),
{
}

/// Rotation closure for a basic tile: after four quarter turns it holds the
/// points that it held before.
pub proof fn lemma_basic_full_turn(tile: BasicTile)
    ensures
        forall|x: int, y: int|
            tile.rotated_ccw().rotated_ccw().rotated_ccw().rotated_ccw().occupies(x, y)
                == tile.occupies(x, y),
{
}

/// Rotation closure for a displaced tile: four quarter turns give the tile
/// back, at the place where it was.
pub proof fn lemma_displaced_full_turn<T: Discrete2DSet>(tile: DisplacedTile<RotatedTile<T>>)
    ensures
        tile.rotated_ccw().rotated_ccw().rotated_ccw().rotated_ccw() == tile,
        forall|x: int, y: int|
            tile.rotated_ccw().rotated_ccw().rotated_ccw().rotated_ccw().occupies(x, y)
                == tile.occupies(x, y),
{
}

/// A displaced tile holds a point exactly when the tile holds the point that
/// lies the offset before it.
pub proof fn lemma_displaced_points<T: Discrete2DSet>(
    tile: DisplacedTile<T>,
    a: int,
    b: int,
    x: int,
    y: int,
)
    requires
        tile.displaceable_by(a, b),
    ensures
        tile.displaced_by(a, b).occupies(x, y) == tile.occupies(x - a, y - b),
{
}

/// Displacement associativity: displacing by `(a, b)` and then by `(c, d)` is
/// displacing by `(a + c, b + d)`, as long as the offsets fit `i32`.
pub proof fn lemma_displace_twice<T: Discrete2DSet>(
    tile: DisplacedTile<T>,
    a: int,
    b: int,
    c: int,
    d: int,
)
    requires
        tile.displaceable_by(a, b),
        tile.displaced_by(a, b).displaceable_by(c, d),
    ensures
        tile.displaceable_by(a + c, b + d),
        tile.displaced_by(a, b).displaced_by(c, d) == tile.displaced_by(a + c, b + d),
        forall|x: int, y: int|
            tile.displaced_by(a, b).displaced_by(c, d).occupies(x, y) == tile.displaced_by(
                a + c,
                b + d,
            ).occupies(x, y),
{
}

/// Displacement associativity for a basic tile.
pub proof fn lemma_displace_basic_twice(tile: BasicTile, a: int, b: int, c: int, d: int)
    requires
        tile.displaceable_by(a, b),
        tile.displaced_by(a, b).displaceable_by(c, d),
    ensures
        tile.displaceable_by(a + c, b + d),
        tile.displaced_by(a, b).displaced_by(c, d) == tile.displaced_by(a + c, b + d),
        forall|x: int, y: int|
            tile.displaced_by(a, b).displaced_by(c, d).occupies(x, y) == tile.occupies(
                x - (a + c),
                y - (b + d),
            ),
{
}

/// Displacement associativity for a rotated tile.
pub proof fn lemma_displace_rotated_twice<T: Discrete2DSet>(
    tile: RotatedTile<T>,
    a: int,
    b: int,
    c: int,
    d: int,
)
    requires
        tile.displaceable_by(a, b),
        tile.displaced_by(a, b).displaceable_by(c, d),
    ensures
        tile.displaceable_by(a + c, b + d),
        tile.displaced_by(a, b).displaced_by(c, d) == tile.displaced_by(a + c, b + d),
        forall|x: int, y: int|
            tile.displaced_by(a, b).displaced_by(c, d).occupies(x, y) == tile.occupies(
                x - (a + c),
                y - (b + d),
            ),
{
}

} // verus!
