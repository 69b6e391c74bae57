//! Directions, offsets, positions and rectangles on the grid.
//!
//! Coordinates are `i32` values and every sum, difference and product of
//! coordinates wraps around, so the grid is a torus and the operators below
//! are total.

use vstd::prelude::*;
use vstd::std_specs::convert::FromSpecImpl;
use vstd::std_specs::ops::{AddSpecImpl, MulSpecImpl, ShrSpecImpl};
use crate::vector::{vec_max, vec_min, Vector2, greater, lesser};

verus! {

/// One of the four ways a bot can face.
#[derive(Copy, Clone, PartialEq, Eq, Structural, Debug)]
pub enum Direction {
    North,
    East,
    South,
    West,
}

/// A displacement on the grid. Positive `x` is east, positive `y` is south.
#[derive(Copy, Clone, PartialEq, Eq, Structural, Debug)]
pub struct Offset(pub Vector2<i32>);

/// A cell of the grid.
#[derive(Copy, Clone, PartialEq, Eq, Structural, Debug)]
pub struct Position(pub Vector2<i32>);

impl Direction {
    /// The unit displacement of one step in this direction.
    pub open spec fn offset(self) -> Offset {
        match self {
            Direction::North => Offset(Vector2 { x: 0i32, y: -1i32 }),
            Direction::East => Offset(Vector2 { x: 1i32, y: 0i32 }),
            Direction::South => Offset(Vector2 { x: 0i32, y: 1i32 }),
            Direction::West => Offset(Vector2 { x: -1i32, y: 0i32 }),
        }
    }

    /// The four directions, clockwise from north.
    pub fn all() -> (r: [Direction; 4])
        ensures
            r@ == seq![Direction::North, Direction::East, Direction::South, Direction::West],
    {
        let r = [Direction::North, Direction::East, Direction::South, Direction::West];
        assert(r@ =~= seq![Direction::North, Direction::East, Direction::South, Direction::West]);
        r
    }
}

impl Offset {
    /// The displacement by `x` cells to the east and `y` cells to the south.
    pub open spec fn at(x: i32, y: i32) -> Offset {
        Offset(Vector2 { x: x, y: y })
    }

    /// The displacement by `x` cells to the east and `y` cells to the south.
    #[verifier::when_used_as_spec(at)]
    pub fn new(x: i32, y: i32) -> (o: Offset)
        ensures
            o == Offset::at(x, y),
    {
        Offset(Vector2 { x: x, y: y })
    }

    /// The sum of two displacements.
    pub open spec fn plus(self, other: Offset) -> Offset {
        Offset(self.0.plus(other.0))
    }

    /// This displacement repeated `factor` times.
    pub open spec fn times(self, factor: i32) -> Offset {
        Offset(self.0.times(factor))
    }
}

impl Default for Offset {
    fn default() -> (o: Offset)
        ensures
            o == Offset(Vector2 { x: 0i32, y: 0i32 }),
    {
        Offset(Vector2 { x: 0, y: 0 })
    }
}

impl From<Direction> for Offset {
    fn from(other: Direction) -> (o: Offset) {
        match other {
            Direction::North => Offset::new(0, -1),
            Direction::East => Offset::new(1, 0),
            Direction::South => Offset::new(0, 1),
            Direction::West => Offset::new(-1, 0),
        }
    }
}

impl FromSpecImpl<Direction> for Offset {
    open spec fn obeys_from_spec() -> bool {
        true
    }

    open spec fn from_spec(other: Direction) -> Offset {
        other.offset()
    }
}

impl Position {
    /// The cell in column `x` and row `y`.
    pub open spec fn at(x: i32, y: i32) -> Position {
        Position(Vector2 { x: x, y: y })
    }

    /// The cell in column `x` and row `y`.
    #[verifier::when_used_as_spec(at)]
    pub fn new(x: i32, y: i32) -> (p: Position)
        ensures
            p == Position::at(x, y),
    {
        Position(Vector2 { x: x, y: y })
    }

    /// The origin of the grid.
    pub fn zero() -> (p: Position)
        ensures
            p == Position(Vector2 { x: 0i32, y: 0i32 }),
    {
        Position(Vector2 { x: 0, y: 0 })
    }

    /// The cell reached from this one by `offset`.
    pub open spec fn plus(self, offset: Offset) -> Position {
        Position(self.0.plus(offset.0))
    }

    /// The neighbouring cell in `direction`.
    pub open spec fn step(self, direction: Direction) -> Position {
        self.plus(direction.offset())
    }

    /// The displacement that leads from this cell to `other`.
    pub open spec fn to(self, other: Position) -> Offset {
        Offset(other.0.minus(self.0))
    }
}

impl Default for Position {
    fn default() -> (p: Position)
        ensures
            p == Position(Vector2 { x: 0i32, y: 0i32 }),
    {
        Position(Vector2 { x: 0, y: 0 })
    }
}

impl core::ops::Mul<i32> for Offset {
    type Output = Offset;

    fn mul(self, other: i32) -> (r: Offset) {
        Offset(self.0 * other)
    }
}

impl MulSpecImpl<i32> for Offset {
    open spec fn obeys_mul_spec() -> bool {
        true
    }

    open spec fn mul_req(self, other: i32) -> bool {
        true
    }

    open spec fn mul_spec(self, other: i32) -> Offset {
        self.times(other)
    }
}

impl core::ops::Mul<i32> for Direction {
    type Output = Offset;

    fn mul(self, other: i32) -> (r: Offset) {
        let offset = Offset::from(self);
        offset * other
    }
}

impl MulSpecImpl<i32> for Direction {
    open spec fn obeys_mul_spec() -> bool {
        true
    }

    open spec fn mul_req(self, other: i32) -> bool {
        true
    }

    open spec fn mul_spec(self, other: i32) -> Offset {
        self.offset().times(other)
    }
}

impl core::ops::Mul<Direction> for i32 {
    type Output = Offset;

    fn mul(self, other: Direction) -> (r: Offset) {
        other * self
    }
}

impl MulSpecImpl<Direction> for i32 {
    open spec fn obeys_mul_spec() -> bool {
        true
    }

    open spec fn mul_req(self, other: Direction) -> bool {
        true
    }

    open spec fn mul_spec(self, other: Direction) -> Offset {
        other.offset().times(self)
    }
}

impl core::ops::Add<Position> for Offset {
    type Output = Position;

    fn add(self, other: Position) -> (r: Position) {
        Position(self.0 + other.0)
    }
}

impl AddSpecImpl<Position> for Offset {
    open spec fn obeys_add_spec() -> bool {
        true
    }

    open spec fn add_req(self, other: Position) -> bool {
        true
    }

    open spec fn add_spec(self, other: Position) -> Position {
        other.plus(self)
    }
}

impl core::ops::Add<Offset> for Offset {
    type Output = Offset;

    fn add(self, other: Offset) -> (r: Offset) {
        Offset(self.0 + other.0)
    }
}

impl AddSpecImpl<Offset> for Offset {
    open spec fn obeys_add_spec() -> bool {
        true
    }

    open spec fn add_req(self, other: Offset) -> bool {
        true
    }

    open spec fn add_spec(self, other: Offset) -> Offset {
        self.plus(other)
    }
}

impl core::ops::Add<Direction> for Offset {
    type Output = Offset;

    fn add(self, other: Direction) -> (r: Offset) {
        self + Offset::from(other)
    }
}

impl AddSpecImpl<Direction> for Offset {
    open spec fn obeys_add_spec() -> bool {
        true
    }

    open spec fn add_req(self, other: Direction) -> bool {
        true
    }

    open spec fn add_spec(self, other: Direction) -> Offset {
        self.plus(other.offset())
    }
}

impl core::ops::Add<Offset> for Direction {
    type Output = Offset;

    fn add(self, other: Offset) -> (r: Offset) {
        Offset::from(self) + other
    }
}

impl AddSpecImpl<Offset> for Direction {
    open spec fn obeys_add_spec() -> bool {
        true
    }

    open spec fn add_req(self, other: Offset) -> bool {
        true
    }

    open spec fn add_spec(self, other: Offset) -> Offset {
        self.offset().plus(other)
    }
}

impl core::ops::Add<Direction> for Direction {
    type Output = Offset;

    fn add(self, other: Direction) -> (r: Offset) {
        Offset::from(self) + Offset::from(other)
    }
}

impl AddSpecImpl<Direction> for Direction {
    open spec fn obeys_add_spec() -> bool {
        true
    }

    open spec fn add_req(self, other: Direction) -> bool {
        true
    }

    open spec fn add_spec(self, other: Direction) -> Offset {
        self.offset().plus(other.offset())
    }
}

impl core::ops::Add<Offset> for Position {
    type Output = Position;

    fn add(self, other: Offset) -> (r: Position) {
        Position(self.0 + other.0)
    }
}

impl AddSpecImpl<Offset> for Position {
    open spec fn obeys_add_spec() -> bool {
        true
    }

    open spec fn add_req(self, other: Offset) -> bool {
        true
    }

    open spec fn add_spec(self, other: Offset) -> Position {
        self.plus(other)
    }
}

impl core::ops::Add<Direction> for Position {
    type Output = Position;

    fn add(self, other: Direction) -> (r: Position) {
        self + Offset::from(other)
    }
}

impl AddSpecImpl<Direction> for Position {
    open spec fn obeys_add_spec() -> bool {
        true
    }

    open spec fn add_req(self, other: Direction) -> bool {
        true
    }

    open spec fn add_spec(self, other: Direction) -> Position {
        self.step(other)
    }
}

impl core::ops::Shr<Position> for Position {
    type Output = Offset;

    fn shr(self, other: Position) -> (r: Offset) {
        Offset(self.0 >> other.0)
    }
}

impl ShrSpecImpl<Position> for Position {
    open spec fn obeys_shr_spec() -> bool {
        true
    }

    open spec fn shr_req(self, other: Position) -> bool {
        true
    }

    open spec fn shr_spec(self, other: Position) -> Offset {
        self.to(other)
    }
}

/// Stepping is one-to-one: two cells with the same neighbour in one direction
/// are the same cell, and no cell is its own neighbour.
pub proof fn lemma_step_injective(p: Position, q: Position, direction: Direction)
    ensures
        p.step(direction) == q.step(direction) ==> p == q,
        p.step(direction) != p,
{
}

/// Going from a cell by the displacement that leads to another cell arrives
/// there.
pub proof fn lemma_plus_to(p: Position, q: Position)
    ensures
        p.plus(p.to(q)) == q,
{
}

/// Multiplying by 0, 1 and -1 on the grid does what it does on the integers,
/// for factors that the negation leaves on the grid.
pub proof fn lemma_unit_times(factor: i32)
    requires
        factor > i32::MIN,
    ensures
        0i32.wrapping_mul(factor) == 0,
        1i32.wrapping_mul(factor) == factor,
        (-1i32).wrapping_mul(factor) == -factor,
{
    assert(1 * factor == factor) by (nonlinear_arith);
    assert(-1 * factor == -factor) by (nonlinear_arith);
    assert(0 * factor == 0) by (nonlinear_arith);
    assert(factor >= 0 ==> (factor as int) % 0x1_0000_0000 == factor) by (nonlinear_arith);
    assert(factor < 0 ==> (factor as int) % 0x1_0000_0000 == factor + 0x1_0000_0000)
        by (nonlinear_arith)
        requires
            factor >= -0x8000_0000,
    ;
    assert(-factor >= 0 ==> (-factor as int) % 0x1_0000_0000 == -factor) by (nonlinear_arith)
        requires
            -factor <= 0x7fff_ffff,
    ;
    assert(-factor < 0 ==> (-factor as int) % 0x1_0000_0000 == -factor + 0x1_0000_0000)
        by (nonlinear_arith)
        requires
            -factor >= -0x8000_0000,
    ;
}

/// The absolute value of a coordinate.
pub open spec fn magnitude(v: i32) -> int {
    if v < 0 {
        -(v as int)
    } else {
        v as int
    }
}

/// The sign of a coordinate: -1, 0 or 1.
pub open spec fn sign(v: i32) -> int {
    if v < 0 {
        -1
    } else if v > 0 {
        1
    } else {
        0
    }
}

/// The length `n` carried in the direction of the sign of `v`.
pub open spec fn directed(v: i32, n: int) -> int {
    if v < 0 {
        -n
    } else if v > 0 {
        n
    } else {
        0
    }
}

/// Whether `v` lies among the `|extent|` coordinates that start at `origin`
/// and run upwards for a positive extent, downwards for a negative one.
pub open spec fn within(origin: i32, extent: i32, v: i32) -> bool {
    if extent >= 0 {
        origin <= v < origin + extent
    } else {
        origin + extent < v <= origin
    }
}

/// A rectangle of cells: a corner and a size, either of whose components may
/// be negative, in which case the rectangle extends west or north of its
/// corner.
#[derive(Copy, Clone, PartialEq, Eq, Structural, Debug)]
pub struct Rectangle {
    pub topleft: Position,
    pub size: Offset,
}

impl Default for Rectangle {
    fn default() -> (r: Rectangle)
        ensures
            r.topleft == Position(Vector2 { x: 0i32, y: 0i32 }),
            r.size == Offset(Vector2 { x: 0i32, y: 0i32 }),
    {
        Rectangle { topleft: Position::zero(), size: Offset::new(0, 0) }
    }
}

fn span_holds(origin: i32, extent: i32, v: i32) -> (r: bool)
    ensures
        r == within(origin, extent, v),
{
    let far: i64 = origin as i64 + extent as i64;
    if extent >= 0 {
        origin <= v && (v as i64) < far
    } else {
        far < v as i64 && v <= origin
    }
}

fn length_of(v: i32) -> (r: i64)
    ensures
        r == magnitude(v),
{
    if v < 0 {
        -(v as i64)
    } else {
        v as i64
    }
}

fn sign_of(v: i32) -> (r: i32)
    ensures
        r == sign(v),
{
    if v < 0 {
        -1
    } else if v > 0 {
        1
    } else {
        0
    }
}

impl Rectangle {
    /// The rectangle with the given corner and size.
    pub fn xywh(topleft: Position, size: Offset) -> (r: Rectangle)
        ensures
            r.topleft == topleft,
            r.size == size,
    {
        Rectangle { topleft: topleft, size: size }
    }

    /// The rectangle of the given size whose corner is the origin.
    pub fn wh(size: Offset) -> (r: Rectangle)
        ensures
            r.topleft == Position(Vector2 { x: 0i32, y: 0i32 }),
            r.size == size,
    {
        Rectangle { topleft: Position::zero(), size: size }
    }

    /// The smallest rectangle of positive size that holds both cells.
    pub fn corners(a: Position, b: Position) -> (r: Rectangle)
        ensures
            r.topleft == Position(
                Vector2 { x: lesser(a.0.x, b.0.x), y: lesser(a.0.y, b.0.y) },
            ),
            r.size == r.topleft.to(
                Position(Vector2 { x: greater(a.0.x, b.0.x), y: greater(a.0.y, b.0.y) }).step(
                    Direction::South,
                ).step(Direction::East),
            ),
    {
        let topleft = Position(vec_min(a.0, b.0));
        let bottomright = Position(vec_max(a.0, b.0));
        Rectangle::xywh(topleft, topleft >> bottomright + Direction::South + Direction::East)
    }

    /// The smallest rectangle of positive size that holds the cells at both
    /// displacements from the origin.
    pub fn corner_offsets(a: Offset, b: Offset) -> (r: Rectangle)
        ensures
            r.topleft == Position(
                Vector2 { x: lesser(a.0.x, b.0.x), y: lesser(a.0.y, b.0.y) },
            ),
            r.size == r.topleft.to(
                Position(Vector2 { x: greater(a.0.x, b.0.x), y: greater(a.0.y, b.0.y) }).step(
                    Direction::South,
                ).step(Direction::East),
            ),
    {
        Rectangle::corners(a + Position::zero(), b + Position::zero())
    }

    /// Whether the cell lies in the rectangle, whose far edges are exclusive.
    pub open spec fn contains_spec(self, position: Position) -> bool {
        &&& within(self.topleft.0.x, self.size.0.x, position.0.x)
        &&& within(self.topleft.0.y, self.size.0.y, position.0.y)
    }

    /// Whether the cell lies in the rectangle.
    pub fn contains(self, position: Position) -> (r: bool)
        ensures
            r == self.contains_spec(position),
    {
        span_holds(self.topleft.0.x, self.size.0.x, position.0.x) && span_holds(
            self.topleft.0.y,
            self.size.0.y,
            position.0.y,
        )
    }

    /// The number of cells in the rectangle.
    pub open spec fn area_spec(self) -> int {
        magnitude(self.size.0.x) * magnitude(self.size.0.y)
    }

    /// The number of cells in the rectangle.
    pub fn area(self) -> (r: i32)
        requires
            self.area_spec() <= i32::MAX,
        ensures
            r == self.area_spec(),
    {
        let w = length_of(self.size.0.x);
        let h = length_of(self.size.0.y);
        assert(w * h == self.area_spec());
        (w * h) as i32
    }

    /// The number of cells that one row of the enumeration holds: the width,
    /// but 1 where the width is 0.
    pub open spec fn row(self) -> int {
        if self.size.0.x == 0 {
            1
        } else {
            magnitude(self.size.0.x)
        }
    }

    /// The number of cells that the enumeration yields.
    pub open spec fn count(self) -> int {
        self.row() * magnitude(self.size.0.y)
    }

    /// The cell in column `column` of row `line` of the enumeration, both
    /// counted from the corner in the direction of the size's signs.
    pub open spec fn cell_at(self, column: int, line: int) -> Position {
        self.topleft.plus(
            Offset(
                Vector2 {
                    x: directed(self.size.0.x, column) as i32,
                    y: directed(self.size.0.y, line) as i32,
                },
            ),
        )
    }

    /// The `index`-th cell of the enumeration, which goes row by row.
    pub open spec fn cell(self, index: int) -> Position {
        self.cell_at(index % self.row(), index / self.row())
    }

    /// The cells of the rectangle in the order of the enumeration.
    pub open spec fn cells(self) -> Seq<Position> {
        Seq::new(self.count() as nat, |i: int| self.cell(i))
    }

    /// An enumeration of the rectangle's cells that stands before the first.
    pub fn into_iter(self) -> (r: RectangleContents)
        ensures
            r.subject() == self,
            r.index() == 0,
    {
        RectangleContents { subject: self, cursor: Vector2 { x: 0, y: 0 } }
    }

    /// The cells of the rectangle, row by row from the corner.
    pub fn positions(self) -> (v: Vec<Position>)
        ensures
            v@ == self.cells(),
    {
        let mut contents = self.into_iter();
        let mut v: Vec<Position> = Vec::new();
        loop
            invariant
                contents.subject() == self,
                v@.len() == contents.index(),
                forall|j: int| 0 <= j < v@.len() ==> v@[j] == self.cell(j),
            ensures
                v@.len() == self.count(),
                forall|j: int| 0 <= j < v@.len() ==> v@[j] == self.cell(j),
            decreases self.count() - contents.index(),
        {
            match contents.next() {
                None => {
                    break ;
                },
                Some(position) => {
                    v.push(position);
                },
            }
        }
        assert(v@ =~= self.cells());
        v
    }
}

/// An enumeration of a rectangle's cells in progress.
pub struct RectangleContents {
    subject: Rectangle,
    cursor: Vector2<i32>,
}

impl RectangleContents {
    #[verifier::type_invariant]
    closed spec fn well_formed(self) -> bool {
        let sx = self.subject.size.0.x;
        let sy = self.subject.size.0.y;
        &&& self.cursor.x == directed(sx, magnitude(self.cursor.x))
        &&& self.cursor.y == directed(sy, magnitude(self.cursor.y))
        &&& magnitude(self.cursor.x) < self.subject.row()
        &&& magnitude(self.cursor.y) <= magnitude(sy)
        &&& magnitude(self.cursor.y) == magnitude(sy) ==> self.cursor.x == 0
    }

    /// The rectangle whose cells are enumerated.
    pub closed spec fn subject(self) -> Rectangle {
        self.subject
    }

    /// The number of cells handed out so far.
    pub closed spec fn index(self) -> int {
        magnitude(self.cursor.y) * self.subject.row() + magnitude(self.cursor.x)
    }

    proof fn lemma_index_bounds(self)
        requires
            self.well_formed(),
        ensures
            0 <= self.index() <= self.subject().count(),
    {
        let row = self.subject.row();
        let line = magnitude(self.cursor.y);
        let height = magnitude(self.subject.size.0.y);
        assert(0 <= line * row) by (nonlinear_arith)
            requires
                0 <= line,
                0 < row,
        ;
        assert(height * row == row * height) by (nonlinear_arith);
        if line < height {
            assert((line + 1) * row <= height * row) by (nonlinear_arith)
                requires
                    line + 1 <= height,
                    0 < row,
            ;
            assert((line + 1) * row == line * row + row) by (nonlinear_arith);
        }
    }

    /// The next cell of the enumeration, or `None` once every cell has been
    /// handed out.
    pub fn next(&mut self) -> (r: Option<Position>)
        ensures
            final(self).subject() == old(self).subject(),
            match r {
                None => {
                    &&& old(self).index() == old(self).subject().count()
                    &&& final(self).index() == old(self).index()
                },
                Some(position) => {
                    &&& old(self).index() < old(self).subject().count()
                    &&& position == old(self).subject().cell(old(self).index())
                    &&& final(self).index() == old(self).index() + 1
                },
            },
    {
        proof {
            use_type_invariant(&*self);
            self.lemma_index_bounds();
        }
        let sx = self.subject.size.0.x;
        let sy = self.subject.size.0.y;
        let ghost row = self.subject.row();
        let ghost column = magnitude(self.cursor.x);
        let ghost line = magnitude(self.cursor.y);
        let ghost height = magnitude(sy);
        if length_of(self.cursor.y) >= length_of(sy) {
            assert(line == height);
            assert(column == 0);
            assert(line * row == height * row);
            assert(height * row == row * height) by (nonlinear_arith);
            return None;
        }
        proof {
            assert((line + 1) * row <= height * row) by (nonlinear_arith)
                requires
                    line + 1 <= height,
                    0 < row,
            ;
            assert((line + 1) * row == line * row + row) by (nonlinear_arith);
            assert(height * row == row * height) by (nonlinear_arith);
            vstd::arithmetic::div_mod::lemma_fundamental_div_mod_converse(
                self.index(),
                row,
                line,
                column,
            );
        }
        let result = self.subject.topleft + Offset(self.cursor);
        let mut x = self.cursor.x + sign_of(sx);
        let mut y = self.cursor.y;
        if length_of(x) >= length_of(sx) {
            y = y + sign_of(sy);
            x = 0;
        }
        self.cursor = Vector2 { x: x, y: y };
        proof {
            assert(magnitude(y) * row + magnitude(x) == line * row + column + 1)
                by (nonlinear_arith)
                requires
                    (magnitude(y) == line && magnitude(x) == column + 1) || (magnitude(y) == line
                        + 1 && magnitude(x) == 0 && column + 1 == row),
            ;
        }
        Some(result)
    }
}

/// Every cell that the enumeration of a rectangle yields lies in the
/// rectangle, provided the rectangle has a width and its far corner is on the
/// grid.
pub proof fn lemma_cells_contained(rectangle: Rectangle, index: int)
    requires
        rectangle.size.0.x != 0,
        i32::MIN <= rectangle.topleft.0.x + rectangle.size.0.x <= i32::MAX,
        i32::MIN <= rectangle.topleft.0.y + rectangle.size.0.y <= i32::MAX,
        0 <= index < rectangle.count(),
    ensures
        rectangle.contains_spec(rectangle.cell(index)),
{
    let row = rectangle.row();
    let height = magnitude(rectangle.size.0.y);
    vstd::arithmetic::div_mod::lemma_fundamental_div_mod(index, row);
    vstd::arithmetic::div_mod::lemma_mod_bound(index, row);
    let column = index % row;
    let line = index / row;
    assert(0 <= line < height) by (nonlinear_arith)
        requires
            0 <= index < row * height,
            index == row * line + column,
            0 <= column < row,
            0 < row,
    ;
}

/// The enumeration of a rectangle with a width yields as many cells as the
/// rectangle's area.
pub proof fn lemma_cells_count(rectangle: Rectangle)
    requires
        rectangle.size.0.x != 0,
    ensures
        rectangle.cells().len() == rectangle.area_spec(),
{
    assert(0 <= magnitude(rectangle.size.0.x) * magnitude(rectangle.size.0.y))
        by (nonlinear_arith)
        requires
            0 <= magnitude(rectangle.size.0.x),
            0 <= magnitude(rectangle.size.0.y),
    ;
}

/// The enumeration of a rectangle with a width whose far corner is on the
/// grid yields no cell twice.
pub proof fn lemma_cells_distinct(rectangle: Rectangle)
    requires
        rectangle.size.0.x != 0,
        i32::MIN <= rectangle.topleft.0.x + rectangle.size.0.x <= i32::MAX,
        i32::MIN <= rectangle.topleft.0.y + rectangle.size.0.y <= i32::MAX,
    ensures
        rectangle.cells().no_duplicates(),
{
    let row = rectangle.row();
    let height = magnitude(rectangle.size.0.y);
    assert forall|i: int, j: int|
        0 <= i < rectangle.cells().len() && 0 <= j < rectangle.cells().len() && i
            != j implies rectangle.cells()[i] != rectangle.cells()[j] by {
        vstd::arithmetic::div_mod::lemma_fundamental_div_mod(i, row);
        vstd::arithmetic::div_mod::lemma_fundamental_div_mod(j, row);
        vstd::arithmetic::div_mod::lemma_mod_bound(i, row);
        vstd::arithmetic::div_mod::lemma_mod_bound(j, row);
        assert(0 <= i / row < height) by (nonlinear_arith)
            requires
                0 <= i < row * height,
                i == row * (i / row) + (i % row),
                0 <= i % row < row,
                0 < row,
        ;
        assert(0 <= j / row < height) by (nonlinear_arith)
            requires
                0 <= j < row * height,
                j == row * (j / row) + (j % row),
                0 <= j % row < row,
                0 < row,
        ;
        if i % row == j % row && i / row == j / row {
            assert(i == j);
        }
    }
}

/// The enumeration of a rectangle whose far corner is on the grid yields
/// every cell that lies in the rectangle.
pub proof fn lemma_contained_is_cell(rectangle: Rectangle, position: Position)
    requires
        i32::MIN <= rectangle.topleft.0.x + rectangle.size.0.x <= i32::MAX,
        i32::MIN <= rectangle.topleft.0.y + rectangle.size.0.y <= i32::MAX,
        rectangle.contains_spec(position),
    ensures
        rectangle.cells().contains(position),
{
    let row = rectangle.row();
    let height = magnitude(rectangle.size.0.y);
    let column = if rectangle.size.0.x >= 0 {
        position.0.x - rectangle.topleft.0.x
    } else {
        rectangle.topleft.0.x - position.0.x
    };
    let line = if rectangle.size.0.y >= 0 {
        position.0.y - rectangle.topleft.0.y
    } else {
        rectangle.topleft.0.y - position.0.y
    };
    let index = line * row + column;
    assert(0 <= line * row) by (nonlinear_arith)
        requires
            0 <= line,
            0 < row,
    ;
    assert((line + 1) * row <= height * row) by (nonlinear_arith)
        requires
            line + 1 <= height,
            0 < row,
    ;
    assert((line + 1) * row == line * row + row) by (nonlinear_arith);
    assert(height * row == row * height) by (nonlinear_arith);
    vstd::arithmetic::div_mod::lemma_fundamental_div_mod_converse(index, row, line, column);
    assert(rectangle.cells()[index] == position);
}

} // verus!
