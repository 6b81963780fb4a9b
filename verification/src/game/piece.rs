//! A live piece: an immutable definition rotated into the current
//! orientation, anchored on the grid by the location of its origin cell, with
//! one level of rollback for moves and rotations.
use vstd::prelude::*;

use crate::game::piece_types::DefinitionBlock;
use crate::game::piece_types::PieceDefinition;
use crate::game::piece_types::PieceFreezeProperty;
use crate::game::tootris::rows_view;
use crate::game::tootris::BlockColor;
use crate::game::tootris::GameBlock;
use crate::game::tootris::Orientation;
use crate::game::tootris::Point;
use crate::game::tootris::Rotation;
use vstd::string::StringExecFns;

verus! {

/// A non-empty rectangular grid: every row as long as the first.
pub open spec fn mat_rect<T>(m: Seq<Seq<T>>) -> bool {
    &&& m.len() > 0
    &&& m[0].len() > 0
    &&& forall|r: int| 0 <= r < m.len() ==> #[trigger] m[r].len() == m[0].len()
}

/// The definition grid turned into the given orientation. A cell at (row r,
/// col c) of the result comes from the definition cell that lands there:
/// - Normal: the identity.
/// - Forward (a quarter turn clockwise): result[r][c] = def[h-1-c][r], on a
///   transposed grid.
/// - UpsideDown (a half turn): result[r][c] = def[h-1-r][w-1-c].
/// - Backwards (a quarter turn counter-clockwise): result[r][c] = def[c][w-1-r],
///   on a transposed grid.
pub open spec fn spec_rotated(def: Seq<Seq<DefinitionBlock>>, o: Orientation) -> Seq<
    Seq<DefinitionBlock>,
> {
    let h = def.len() as int;
    let w = def[0].len() as int;
    match o {
        Orientation::Normal => def,
        Orientation::Forward => Seq::new(
            w as nat,
            |r: int| Seq::new(h as nat, |c: int| def[h - 1 - c][r]),
        ),
        Orientation::UpsideDown => Seq::new(
            h as nat,
            |r: int| Seq::new(w as nat, |c: int| def[h - 1 - r][w - 1 - c]),
        ),
        Orientation::Backwards => Seq::new(
            w as nat,
            |r: int| Seq::new(h as nat, |c: int| def[c][w - 1 - r]),
        ),
    }
}

/// The column of the first Origin cell of `row` at index `i` or later.
pub open spec fn row_first_origin(row: Seq<DefinitionBlock>, i: int) -> Option<int>
    decreases row.len() - i,
    when 0 <= i <= row.len()
{
    if i >= row.len() {
        None
    } else if row[i] is Origin {
        Some(i)
    } else {
        row_first_origin(row, i + 1)
    }
}

/// The (row, column) of the first Origin cell of `m` in row-major order,
/// starting the scan at row `r`.
pub open spec fn mat_first_origin(m: Seq<Seq<DefinitionBlock>>, r: int) -> Option<(int, int)>
    decreases m.len() - r,
    when 0 <= r <= m.len()
{
    if r >= m.len() {
        None
    } else {
        match row_first_origin(m[r], 0) {
            Some(c) => Some((r, c)),
            None => mat_first_origin(m, r + 1),
        }
    }
}

/// Whether the piece matrix `m`, anchored at (ax, ay), occupies the absolute
/// grid point (px, py): the matrix holds a non-Blank cell at that offset.
pub open spec fn covers(
    m: Seq<Seq<DefinitionBlock>>,
    ax: int,
    ay: int,
    px: int,
    py: int,
) -> bool {
    let r = py - ay;
    let c = px - ax;
    &&& 0 <= r < m.len()
    &&& 0 <= c < m[r].len()
    &&& !(m[r][c] is Blank)
}

/// Whether the absolute point (px, py) lies within the bounding footprint of
/// the matrix `m` anchored at (ax, ay), non-Blank or not.
pub open spec fn in_footprint(
    m: Seq<Seq<DefinitionBlock>>,
    ax: int,
    ay: int,
    px: int,
    py: int,
) -> bool {
    let r = py - ay;
    let c = px - ax;
    &&& 0 <= r < m.len()
    &&& 0 <= c < m[r].len()
}

/// How a definition cell is written into the playfield for a piece of the
/// given colour: filled and origin cells become filled cells of that colour,
/// text cells keep their text, and blank cells would become empty.
pub open spec fn colorized(b: DefinitionBlock, color: BlockColor, g: GameBlock) -> bool {
    match b {
        DefinitionBlock::Filled => g == GameBlock::Filled(color),
        DefinitionBlock::Origin => g == GameBlock::Filled(color),
        DefinitionBlock::Text(s) => g matches GameBlock::Text(t, c2) && t@ == s@ && c2 == color,
        DefinitionBlock::Blank => g is Empty,
    }
}

/// How placing a piece changes a playfield: dimensions are kept, every
/// occupied point takes the piece's coloured cell, every other cell is
/// untouched.
pub open spec fn place_rel(
    before: Seq<Seq<GameBlock>>,
    after: Seq<Seq<GameBlock>>,
    m: Seq<Seq<DefinitionBlock>>,
    ax: int,
    ay: int,
    color: BlockColor,
) -> bool {
    &&& after.len() == before.len()
    &&& forall|y: int| 0 <= y < before.len() ==> #[trigger] after[y].len() == before[y].len()
    &&& forall|y: int, x: int|
        0 <= y < before.len() && 0 <= x < before[y].len() ==> if covers(m, ax, ay, x, y) {
            colorized(m[y - ay][x - ax], color, #[trigger] after[y][x])
        } else {
            after[y][x] == before[y][x]
        }
}

/// How removing a piece changes a playfield: dimensions are kept, every cell
/// under the piece's bounding footprint is reset to Empty, every other cell
/// is untouched.
pub open spec fn remove_rel(
    before: Seq<Seq<GameBlock>>,
    after: Seq<Seq<GameBlock>>,
    m: Seq<Seq<DefinitionBlock>>,
    ax: int,
    ay: int,
) -> bool {
    &&& after.len() == before.len()
    &&& forall|y: int| 0 <= y < before.len() ==> #[trigger] after[y].len() == before[y].len()
    &&& forall|y: int, x: int|
        0 <= y < before.len() && 0 <= x < before[y].len() ==> if in_footprint(m, ax, ay, x, y) {
            (#[trigger] after[y][x]) is Empty
        } else {
            after[y][x] == before[y][x]
        }
}

/// Placing a piece into a playfield whose cells are all Empty and then
/// removing it restores every cell to Empty, whatever the piece, anchor and
/// colour: removal clears the whole bounding footprint, which includes every
/// cell that placement wrote, and cells outside the footprint are untouched
/// by both.
pub proof fn lemma_place_then_remove_restores_empty(
    level0: Seq<Seq<GameBlock>>,
    level1: Seq<Seq<GameBlock>>,
    level2: Seq<Seq<GameBlock>>,
    m: Seq<Seq<DefinitionBlock>>,
    ax: int,
    ay: int,
    color: BlockColor,
)
    requires
        forall|y: int, x: int|
            0 <= y < level0.len() && 0 <= x < level0[y].len() ==> (#[trigger] level0[y][x])
                is Empty,
        place_rel(level0, level1, m, ax, ay, color),
        remove_rel(level1, level2, m, ax, ay),
    ensures
        forall|y: int, x: int|
            0 <= y < level2.len() && 0 <= x < level2[y].len() ==> (#[trigger] level2[y][x])
                is Empty,
        level2.len() == level0.len(),
        forall|y: int| 0 <= y < level0.len() ==> #[trigger] level2[y].len() == level0[y].len(),
{
    assert forall|y: int, x: int|
        0 <= y < level2.len() && 0 <= x < level2[y].len() implies (#[trigger] level2[y][x])
        is Empty by {
        assert(0 <= y < level1.len() && 0 <= x < level1[y].len());
        assert(0 <= y < level0.len() && 0 <= x < level0[y].len());
        if !in_footprint(m, ax, ay, x, y) {
            assert(level2[y][x] == level1[y][x]);
            assert(!covers(m, ax, ay, x, y));
            assert(level1[y][x] == level0[y][x]);
        }
    }
}

/// A live piece in play.
#[derive(Clone)]
pub struct Piece {
    pub definition: Vec<Vec<DefinitionBlock>>,
    pub freeze_property: PieceFreezeProperty,
    pub current_matrix: Vec<Vec<DefinitionBlock>>,
    pub color: BlockColor,
    pub location: Point,
    pub rollback_location: Point,
    pub orientation: Orientation,
    pub rollback_orientation: Orientation,
}

impl Piece {
    /// The definition is a proper rectangle and the current matrix is exactly
    /// the definition rotated into the current orientation.
    pub open spec fn wf(self) -> bool {
        &&& mat_rect(rows_view(self.definition))
        &&& rows_view(self.current_matrix) == spec_rotated(
            rows_view(self.definition),
            self.orientation,
        )
    }

    /// The view of the current matrix.
    pub open spec fn matrix_view(self) -> Seq<Seq<DefinitionBlock>> {
        rows_view(self.current_matrix)
    }

    /// The location an operation works from: the override when one is given,
    /// the piece's own location otherwise.
    pub open spec fn eff_loc(self, point_override: Option<&Point>) -> Point {
        match point_override {
            Some(p) => *p,
            None => self.location,
        }
    }

    /// The anchor's x coordinate for the given override: the x of the matrix
    /// cell (0,0) when the origin cell sits at the effective location. With
    /// no origin cell the anchor degenerates to the piece's own tracked
    /// location, and the override is not applied. May be negative when the
    /// origin cell sits close to the left edge.
    pub open spec fn anchor_x(self, point_override: Option<&Point>) -> int {
        match mat_first_origin(self.matrix_view(), 0) {
            Some(rc) => self.eff_loc(point_override).x - rc.1,
            None => self.location.x as int,
        }
    }

    /// The anchor's y coordinate for the given override; with no origin cell
    /// it degenerates to the piece's own tracked location.
    pub open spec fn anchor_y(self, point_override: Option<&Point>) -> int {
        match mat_first_origin(self.matrix_view(), 0) {
            Some(rc) => self.eff_loc(point_override).y - rc.0,
            None => self.location.y as int,
        }
    }

    pub fn new(
        definition: Vec<Vec<DefinitionBlock>>,
        freeze_property: PieceFreezeProperty,
        color: BlockColor,
        location: Point,
    ) -> (r: Self)
        requires
            mat_rect(rows_view(definition)),
        ensures
            r.wf(),
            r.definition == definition,
            r.freeze_property == freeze_property,
            r.color == color,
            r.location == location,
            r.rollback_location == location,
            r.orientation == Orientation::Normal,
            r.rollback_orientation == Orientation::Normal,
    {
        let mut fresh_self = Piece {
            definition,
            freeze_property,
            current_matrix: Vec::new(),
            color,
            location,
            rollback_location: location,
            orientation: Orientation::Normal,
            rollback_orientation: Orientation::Normal,
        };
        fresh_self.update_current_matrix();
        fresh_self
    }

    pub fn of_type(t: &PieceDefinition, color: BlockColor, location: Point) -> (r: Self)
        requires
            mat_rect(rows_view(t.def)),
        ensures
            r.wf(),
            rows_view(r.definition) == rows_view(t.def),
            r.freeze_property == t.prop,
            r.color == color,
            r.location == location,
            r.rollback_location == location,
            r.orientation == Orientation::Normal,
            r.rollback_orientation == Orientation::Normal,
    {
        Self::new(copy_definition(&t.def), t.prop, color, location)
    }

    pub fn rotate(&mut self, rot: &Rotation)
        requires
            old(self).wf(),
        ensures
            final(self).wf(),
            final(self).orientation == rot.spec_perform(old(self).orientation),
            final(self).rollback_orientation == old(self).orientation,
            final(self).definition == old(self).definition,
            final(self).freeze_property == old(self).freeze_property,
            final(self).color == old(self).color,
            final(self).location == old(self).location,
            final(self).rollback_location == old(self).rollback_location,
    {
        self.rollback_orientation = self.orientation;
        self.orientation = rot.perform(&self.rollback_orientation);
        self.update_current_matrix();
    }

    pub fn rollback_rotation(&mut self)
        requires
            old(self).wf(),
        ensures
            final(self).wf(),
            final(self).orientation == old(self).rollback_orientation,
            final(self).rollback_orientation == old(self).rollback_orientation,
            final(self).definition == old(self).definition,
            final(self).freeze_property == old(self).freeze_property,
            final(self).color == old(self).color,
            final(self).location == old(self).location,
            final(self).rollback_location == old(self).rollback_location,
    {
        self.orientation = self.rollback_orientation;
        self.update_current_matrix();
    }

    pub fn move_to(&mut self, new_location: Point)
        ensures
            final(self).location == new_location,
            final(self).rollback_location == old(self).location,
            final(self).definition == old(self).definition,
            final(self).freeze_property == old(self).freeze_property,
            final(self).current_matrix == old(self).current_matrix,
            final(self).color == old(self).color,
            final(self).orientation == old(self).orientation,
            final(self).rollback_orientation == old(self).rollback_orientation,
            old(self).wf() ==> final(self).wf(),
    {
        self.rollback_location = self.location;
        self.location = new_location;
    }

    pub fn rollback_move(&mut self)
        ensures
            final(self).location == old(self).rollback_location,
            final(self).rollback_location == old(self).rollback_location,
            final(self).definition == old(self).definition,
            final(self).freeze_property == old(self).freeze_property,
            final(self).current_matrix == old(self).current_matrix,
            final(self).color == old(self).color,
            final(self).orientation == old(self).orientation,
            final(self).rollback_orientation == old(self).rollback_orientation,
            old(self).wf() ==> final(self).wf(),
    {
        self.location = self.rollback_location;
    }

    /// Recomputes the current matrix from the definition and the current
    /// orientation; the rotation is recomputed in full, never patched.
    pub fn update_current_matrix(&mut self)
        requires
            mat_rect(rows_view(old(self).definition)),
        ensures
            rows_view(final(self).current_matrix) == spec_rotated(
                rows_view(final(self).definition),
                final(self).orientation,
            ),
            final(self).definition == old(self).definition,
            final(self).freeze_property == old(self).freeze_property,
            final(self).color == old(self).color,
            final(self).location == old(self).location,
            final(self).rollback_location == old(self).rollback_location,
            final(self).orientation == old(self).orientation,
            final(self).rollback_orientation == old(self).rollback_orientation,
            final(self).wf(),
    {
        Self::update_matrix_for(self)
    }

    fn update_matrix_for(that: &mut Self)
        requires
            mat_rect(rows_view(old(that).definition)),
        ensures
            rows_view(final(that).current_matrix) == spec_rotated(
                rows_view(final(that).definition),
                final(that).orientation,
            ),
            final(that).definition == old(that).definition,
            final(that).freeze_property == old(that).freeze_property,
            final(that).color == old(that).color,
            final(that).location == old(that).location,
            final(that).rollback_location == old(that).rollback_location,
            final(that).orientation == old(that).orientation,
            final(that).rollback_orientation == old(that).rollback_orientation,
            final(that).wf(),
    {
        match that.orientation {
            Orientation::Normal => that.set_matrix_normal(),
            Orientation::Forward => that.set_matrix_forwards(),
            Orientation::UpsideDown => that.set_matrix_upside_down(),
            Orientation::Backwards => that.set_matrix_backwards(),
        }
    }

    #[verifier::loop_isolation(false)]
    fn set_matrix_normal(&mut self)
        requires
            mat_rect(rows_view(old(self).definition)),
        ensures
            rows_view(final(self).current_matrix) == rows_view(final(self).definition),
            final(self).definition == old(self).definition,
            final(self).freeze_property == old(self).freeze_property,
            final(self).color == old(self).color,
            final(self).location == old(self).location,
            final(self).rollback_location == old(self).rollback_location,
            final(self).orientation == old(self).orientation,
            final(self).rollback_orientation == old(self).rollback_orientation,
    {
        let matrix = copy_definition(&self.definition);
        self.current_matrix = matrix;
    }

    #[verifier::loop_isolation(false)]
    fn set_matrix_backwards(&mut self)
        requires
            mat_rect(rows_view(old(self).definition)),
        ensures
            rows_view(final(self).current_matrix) == spec_rotated(
                rows_view(final(self).definition),
                Orientation::Backwards,
            ),
            final(self).definition == old(self).definition,
            final(self).freeze_property == old(self).freeze_property,
            final(self).color == old(self).color,
            final(self).location == old(self).location,
            final(self).rollback_location == old(self).rollback_location,
            final(self).orientation == old(self).orientation,
            final(self).rollback_orientation == old(self).rollback_orientation,
    {
        let ghost dv = rows_view(self.definition);
        let h = self.definition.len();
        let w = self.definition[0].len();
        let mut rotated_matrix: Vec<Vec<DefinitionBlock>> = Vec::new();
        let mut r: usize = 0;
        while r < w
            invariant
                0 <= r <= w,
                rotated_matrix@.len() == r,
                forall|i: int|
                    0 <= i < r ==> (#[trigger] rotated_matrix@[i])@.len() == h && (forall|j: int|
                        0 <= j < h ==> rotated_matrix@[i]@[j] == dv[j][w as int - 1 - i]),
            decreases w - r,
        {
            let mut row: Vec<DefinitionBlock> = Vec::new();
            let mut c: usize = 0;
            while c < h
                invariant
                    0 <= c <= h,
                    row@.len() == c,
                    forall|j: int| 0 <= j < c ==> row@[j] == dv[j][w as int - 1 - r as int],
                decreases h - c,
            {
                proof {
                    assert(dv[c as int].len() == dv[0].len());
                }
                row.push(self.definition[c][w - 1 - r]);
                c = c + 1;
            }
            rotated_matrix.push(row);
            r = r + 1;
        }
        proof {
            assert(rows_view(rotated_matrix) =~~= spec_rotated(dv, Orientation::Backwards));
        }
        self.current_matrix = rotated_matrix;
    }

    #[verifier::loop_isolation(false)]
    fn set_matrix_forwards(&mut self)
        requires
            mat_rect(rows_view(old(self).definition)),
        ensures
            rows_view(final(self).current_matrix) == spec_rotated(
                rows_view(final(self).definition),
                Orientation::Forward,
            ),
            final(self).definition == old(self).definition,
            final(self).freeze_property == old(self).freeze_property,
            final(self).color == old(self).color,
            final(self).location == old(self).location,
            final(self).rollback_location == old(self).rollback_location,
            final(self).orientation == old(self).orientation,
            final(self).rollback_orientation == old(self).rollback_orientation,
    {
        let ghost dv = rows_view(self.definition);
        let h = self.definition.len();
        let w = self.definition[0].len();
        let mut rotated_matrix: Vec<Vec<DefinitionBlock>> = Vec::new();
        let mut r: usize = 0;
        while r < w
            invariant
                0 <= r <= w,
                rotated_matrix@.len() == r,
                forall|i: int|
                    0 <= i < r ==> (#[trigger] rotated_matrix@[i])@.len() == h && (forall|j: int|
                        0 <= j < h ==> rotated_matrix@[i]@[j] == dv[h as int - 1 - j][i]),
            decreases w - r,
        {
            let mut row: Vec<DefinitionBlock> = Vec::new();
            let mut c: usize = 0;
            while c < h
                invariant
                    0 <= c <= h,
                    row@.len() == c,
                    forall|j: int| 0 <= j < c ==> row@[j] == dv[h as int - 1 - j][r as int],
                decreases h - c,
            {
                proof {
                    assert(dv[h as int - 1 - c as int].len() == dv[0].len());
                }
                row.push(self.definition[h - 1 - c][r]);
                c = c + 1;
            }
            rotated_matrix.push(row);
            r = r + 1;
        }
        proof {
            assert(rows_view(rotated_matrix) =~~= spec_rotated(dv, Orientation::Forward));
        }
        self.current_matrix = rotated_matrix;
    }

    #[verifier::loop_isolation(false)]
    fn set_matrix_upside_down(&mut self)
        requires
            mat_rect(rows_view(old(self).definition)),
        ensures
            rows_view(final(self).current_matrix) == spec_rotated(
                rows_view(final(self).definition),
                Orientation::UpsideDown,
            ),
            final(self).definition == old(self).definition,
            final(self).freeze_property == old(self).freeze_property,
            final(self).color == old(self).color,
            final(self).location == old(self).location,
            final(self).rollback_location == old(self).rollback_location,
            final(self).orientation == old(self).orientation,
            final(self).rollback_orientation == old(self).rollback_orientation,
    {
        let ghost dv = rows_view(self.definition);
        let h = self.definition.len();
        let w = self.definition[0].len();
        let mut rotated_matrix: Vec<Vec<DefinitionBlock>> = Vec::new();
        let mut r: usize = 0;
        while r < h
            invariant
                0 <= r <= h,
                rotated_matrix@.len() == r,
                forall|i: int|
                    0 <= i < r ==> (#[trigger] rotated_matrix@[i])@.len() == w && (forall|j: int|
                        0 <= j < w ==> rotated_matrix@[i]@[j] == dv[h as int - 1 - i][w as int - 1 - j]),
            decreases h - r,
        {
            let mut row: Vec<DefinitionBlock> = Vec::new();
            let mut c: usize = 0;
            while c < w
                invariant
                    0 <= c <= w,
                    row@.len() == c,
                    forall|j: int| 0 <= j < c ==> row@[j] == dv[h as int - 1 - r as int][w as int - 1 - j],
                decreases w - c,
            {
                proof {
                    assert(dv[h as int - 1 - r as int].len() == dv[0].len());
                }
                row.push(self.definition[h - 1 - r][w - 1 - c]);
                c = c + 1;
            }
            rotated_matrix.push(row);
            r = r + 1;
        }
        proof {
            assert(rows_view(rotated_matrix) =~~= spec_rotated(dv, Orientation::UpsideDown));
        }
        self.current_matrix = rotated_matrix;
    }
}

/// A fresh deep copy of a definition grid, row by row and cell by cell.
#[verifier::loop_isolation(false)]
pub fn copy_definition(def: &Vec<Vec<DefinitionBlock>>) -> (r: Vec<Vec<DefinitionBlock>>)
    ensures
        rows_view(r) == rows_view(*def),
{
    let mut out: Vec<Vec<DefinitionBlock>> = Vec::new();
    let mut y: usize = 0;
    while y < def.len()
        invariant
            0 <= y <= def@.len(),
            out@.len() == y,
            forall|i: int| 0 <= i < y ==> (#[trigger] out@[i])@ == def@[i]@,
        decreases def@.len() - y,
    {
        let mut row: Vec<DefinitionBlock> = Vec::new();
        let mut x: usize = 0;
        while x < def[y].len()
            invariant
                0 <= x <= def@[y as int]@.len(),
                row@.len() == x,
                forall|j: int| 0 <= j < x ==> row@[j] == def@[y as int]@[j],
            decreases def@[y as int]@.len() - x,
        {
            row.push(def[y][x]);
            x = x + 1;
        }
        proof {
            assert(row@ =~= def@[y as int]@);
        }
        out.push(row);
        y = y + 1;
    }
    proof {
        assert(rows_view(out) =~~= rows_view(*def));
    }
    out
}


/// The column of the first non-Blank cell of `row` at index `i` or later.
pub open spec fn row_first_nonblank(row: Seq<DefinitionBlock>, i: int) -> Option<int>
    decreases row.len() - i,
    when 0 <= i <= row.len()
{
    if i >= row.len() {
        None
    } else if !(row[i] is Blank) {
        Some(i)
    } else {
        row_first_nonblank(row, i + 1)
    }
}

/// The column of the last non-Blank cell of `row` at index `i` or earlier.
pub open spec fn row_last_nonblank(row: Seq<DefinitionBlock>, i: int) -> Option<int>
    decreases i + 1,
    when -1 <= i < row.len()
{
    if i < 0 {
        None
    } else if !(row[i] is Blank) {
        Some(i)
    } else {
        row_last_nonblank(row, i - 1)
    }
}

/// The row of the lowest non-Blank cell of column `c` at row `i` or above.
pub open spec fn col_lowest_nonblank(m: Seq<Seq<DefinitionBlock>>, c: int, i: int) -> Option<int>
    decreases i + 1,
    when -1 <= i < m.len() && mat_rect(m) && 0 <= c < m[0].len()
{
    if i < 0 {
        None
    } else if !(m[i][c] is Blank) {
        Some(i)
    } else {
        col_lowest_nonblank(m, c, i - 1)
    }
}

/// Whether (px, py) is an x-boundary point of the matrix `m` anchored at
/// (ax, ay): the leftmost or rightmost occupied cell of some row.
pub open spec fn is_xboundary(
    m: Seq<Seq<DefinitionBlock>>,
    ax: int,
    ay: int,
    px: int,
    py: int,
) -> bool {
    exists|r: int|
        0 <= r < m.len() && py == ay + r && (((#[trigger] row_first_nonblank(m[r], 0)) matches Some(
            c,
        ) && px == ax + c) || (row_last_nonblank(m[r], m[r].len() - 1) matches Some(c) && px == ax
            + c))
}

/// Whether (px, py) is a y-boundary point of the matrix `m` anchored at
/// (ax, ay): the lowest occupied cell of some column.
pub open spec fn is_yboundary(
    m: Seq<Seq<DefinitionBlock>>,
    ax: int,
    ay: int,
    px: int,
    py: int,
) -> bool {
    exists|c: int|
        0 <= c < m[0].len() && px == ax + c && ((#[trigger] col_lowest_nonblank(
            m,
            c,
            m.len() - 1,
        )) matches Some(r) && py == ay + r)
}

/// The (row, column) of the first Origin cell of the grid, in row-major scan
/// order, if any.
#[verifier::loop_isolation(false)]
pub fn find_first_origin(m: &Vec<Vec<DefinitionBlock>>) -> (r: Option<(usize, usize)>)
    ensures
        r matches Some(rc) ==> rc.0 < rows_view(*m).len() && mat_first_origin(rows_view(*m), 0)
            == Some((rc.0 as int, rc.1 as int)),
        r is None ==> mat_first_origin(rows_view(*m), 0) is None,
{
    let ghost mv = rows_view(*m);
    let mut y: usize = 0;
    while y < m.len()
        invariant
            0 <= y <= mv.len(),
            mat_first_origin(mv, 0) == mat_first_origin(mv, y as int),
        decreases mv.len() - y,
    {
        let mut x: usize = 0;
        while x < m[y].len()
            invariant
                0 <= x <= mv[y as int].len(),
                y < mv.len(),
                row_first_origin(mv[y as int], 0) == row_first_origin(mv[y as int], x as int),
            decreases mv[y as int].len() - x,
        {
            if m[y][x].is_origin() {
                proof {
                    assert(row_first_origin(mv[y as int], x as int) == Some(x as int));
                    assert(mat_first_origin(mv, y as int) == Some((y as int, x as int)));
                }
                return Some((y, x));
            }
            x = x + 1;
        }
        proof {
            assert(row_first_origin(mv[y as int], x as int) is None);
            assert(mat_first_origin(mv, y as int) == mat_first_origin(mv, y as int + 1));
        }
        y = y + 1;
    }
    proof {
        assert(mat_first_origin(mv, y as int) is None);
    }
    None
}

impl Piece {
    /// Scans the current matrix for its origin cell and resolves the absolute
    /// grid point of the matrix cell (0,0): the tracked location (or the
    /// override) minus the origin cell's offset. When no origin cell exists
    /// the anchor degenerates to the tracked location itself and the override
    /// is not applied. Returns nothing when the resolved point would leave
    /// the grid on the negative side.
    pub fn find_origin_for_zero_block(&self, point_override: Option<&Point>) -> (r: Option<Point>)
        ensures
            (r is Some) == (self.anchor_x(point_override) >= 0 && self.anchor_y(point_override)
                >= 0),
            r matches Some(p) ==> p.x == self.anchor_x(point_override) && p.y == self.anchor_y(
                point_override,
            ),
    {
        let base: Point = match point_override {
            Some(p) => *p,
            None => self.location,
        };
        proof {
            assert(base == self.eff_loc(point_override));
        }
        match find_first_origin(&self.current_matrix) {
            Some((y, x)) => {
                if base.x >= x && base.y >= y {
                    Some(Point { x: base.x - x, y: base.y - y })
                } else {
                    None
                }
            }
            None => Some(self.location),
        }
    }

    /// Every absolute grid point occupied by the piece, in scan order: one
    /// point for each non-Blank cell of the current matrix, at the anchor
    /// plus the cell's offset.
    #[verifier::loop_isolation(false)]
    pub fn points(&self, point_override: Option<&Point>) -> (r: Vec<Point>)
        requires
            mat_rect(rows_view(self.current_matrix)),
            self.anchor_x(point_override) >= 0,
            self.anchor_y(point_override) >= 0,
            self.anchor_x(point_override) + rows_view(self.current_matrix)[0].len()
                <= usize::MAX,
            self.anchor_y(point_override) + rows_view(self.current_matrix).len() <= usize::MAX,
        ensures
            forall|i: int|
                0 <= i < r@.len() ==> covers(
                    rows_view(self.current_matrix),
                    self.anchor_x(point_override),
                    self.anchor_y(point_override),
                    (#[trigger] r@[i]).x as int,
                    r@[i].y as int,
                ),
            forall|rr: int, cc: int|
                0 <= rr < rows_view(self.current_matrix).len() && 0 <= cc < rows_view(
                    self.current_matrix,
                )[rr].len() && !((#[trigger] rows_view(self.current_matrix)[rr][cc]) is Blank)
                    ==> r@.contains(
                    (Point {
                        x: (self.anchor_x(point_override) + cc) as usize,
                        y: (self.anchor_y(point_override) + rr) as usize,
                    }),
                ),
            r@.len() == mat_nonblank_count(
                rows_view(self.current_matrix),
                rows_view(self.current_matrix).len() as int,
            ),
            forall|i: int, j: int|
                0 <= i < j < r@.len() ==> ((#[trigger] r@[i]).y < (#[trigger] r@[j]).y || (r@[i].y
                    == r@[j].y && r@[i].x < r@[j].x)),
    {
        let ghost mv = rows_view(self.current_matrix);
        let ghost ax = self.anchor_x(point_override);
        let ghost ay = self.anchor_y(point_override);
        let origin: Point = self.find_origin_for_zero_block(point_override).unwrap();
        let m = &self.current_matrix;
        let mut boundaries: Vec<Point> = Vec::new();
        let mut y: usize = 0;
        while y < m.len()
            invariant
                0 <= y <= mv.len(),
                boundaries@.len() == mat_nonblank_count(mv, y as int),
                forall|i: int|
                    0 <= i < boundaries@.len() ==> covers(
                        mv,
                        ax,
                        ay,
                        (#[trigger] boundaries@[i]).x as int,
                        boundaries@[i].y as int,
                    ),
                forall|rr: int, cc: int|
                    0 <= rr < y && 0 <= cc < mv[rr].len() && !((#[trigger] mv[rr][cc]) is Blank)
                        ==> boundaries@.contains(
                        (Point { x: (ax + cc) as usize, y: (ay + rr) as usize }),
                    ),
                forall|i: int|
                    0 <= i < boundaries@.len() ==> ((#[trigger] boundaries@[i]).y as int) < ay
                        + y as int,
                forall|i: int, j: int|
                    0 <= i < j < boundaries@.len() ==> ((#[trigger] boundaries@[i]).y < (
                    #[trigger] boundaries@[j]).y || (boundaries@[i].y == boundaries@[j].y
                        && boundaries@[i].x < boundaries@[j].x)),
            decreases mv.len() - y,
        {
            let mut x: usize = 0;
            while x < m[y].len()
                invariant
                    0 <= x <= mv[y as int].len(),
                    y < mv.len(),
                    boundaries@.len() == mat_nonblank_count(mv, y as int) + row_nonblank_count(
                        mv[y as int],
                        x as int,
                    ),
                    forall|i: int|
                        0 <= i < boundaries@.len() ==> covers(
                            mv,
                            ax,
                            ay,
                            (#[trigger] boundaries@[i]).x as int,
                            boundaries@[i].y as int,
                        ),
                    forall|rr: int, cc: int|
                        0 <= rr < y && 0 <= cc < mv[rr].len() && !((#[trigger] mv[rr][cc])
                            is Blank) ==> boundaries@.contains(
                            (Point { x: (ax + cc) as usize, y: (ay + rr) as usize }),
                        ),
                    forall|cc: int|
                        0 <= cc < x && !((#[trigger] mv[y as int][cc]) is Blank)
                            ==> boundaries@.contains(
                            (Point { x: (ax + cc) as usize, y: (ay + y as int) as usize }),
                        ),
                    forall|i: int|
                        0 <= i < boundaries@.len() ==> (((#[trigger] boundaries@[i]).y as int) < ay
                            + y as int || ((boundaries@[i].y as int) == ay + y as int && (
                        boundaries@[i].x as int) < ax + x as int)),
                    forall|i: int, j: int|
                        0 <= i < j < boundaries@.len() ==> ((#[trigger] boundaries@[i]).y < (
                        #[trigger] boundaries@[j]).y || (boundaries@[i].y == boundaries@[j].y
                            && boundaries@[i].x < boundaries@[j].x)),
                decreases mv[y as int].len() - x,
            {
                proof {
                    assert(mv[y as int].len() == mv[0].len());
                }
                if !m[y][x].is_blank() {
                    let ghost before = boundaries@;
                    boundaries.push(Point { x: origin.x + x, y: origin.y + y });
                    proof {
                        assert(boundaries@ == before.push(
                            (Point { x: (ax + x as int) as usize, y: (ay + y as int) as usize }),
                        ));
                        assert(forall|i: int|
                            0 <= i < before.len() ==> boundaries@[i] == before[i]);
                        assert(forall|p: Point| before.contains(p) ==> boundaries@.contains(p));
                        assert(boundaries@[boundaries@.len() - 1] == (Point {
                            x: (ax + x as int) as usize,
                            y: (ay + y as int) as usize,
                        }));
                    }
                }
                x = x + 1;
            }
            y = y + 1;
        }
        boundaries
    }
}


/// The first non-Blank column of a row, scanning left to right.
#[verifier::loop_isolation(false)]
fn row_first_nb(row: &Vec<DefinitionBlock>) -> (r: Option<usize>)
    ensures
        r matches Some(c) ==> c < row@.len() && row_first_nonblank(row@, 0) == Some(c as int),
        r is None ==> row_first_nonblank(row@, 0) is None,
{
    let mut i: usize = 0;
    while i < row.len()
        invariant
            0 <= i <= row@.len(),
            row_first_nonblank(row@, 0) == row_first_nonblank(row@, i as int),
        decreases row@.len() - i,
    {
        if !row[i].is_blank() {
            return Some(i);
        }
        i = i + 1;
    }
    None
}

/// The last non-Blank column of a row, scanning right to left.
#[verifier::loop_isolation(false)]
fn row_last_nb(row: &Vec<DefinitionBlock>) -> (r: Option<usize>)
    ensures
        r matches Some(c) ==> c < row@.len() && row_last_nonblank(row@, row@.len() - 1) == Some(
            c as int,
        ),
        r is None ==> row_last_nonblank(row@, row@.len() - 1) is None,
{
    let mut i: usize = row.len();
    while i > 0
        invariant
            0 <= i <= row@.len(),
            row_last_nonblank(row@, row@.len() - 1) == row_last_nonblank(row@, i as int - 1),
        decreases i,
    {
        i = i - 1;
        if !row[i].is_blank() {
            return Some(i);
        }
    }
    None
}

/// The lowest non-Blank row of column `c`, scanning bottom to top.
#[verifier::loop_isolation(false)]
fn col_lowest_nb(m: &Vec<Vec<DefinitionBlock>>, c: usize) -> (r: Option<usize>)
    requires
        mat_rect(rows_view(*m)),
        c < rows_view(*m)[0].len(),
    ensures
        r matches Some(yy) ==> yy < rows_view(*m).len() && col_lowest_nonblank(
            rows_view(*m),
            c as int,
            rows_view(*m).len() - 1,
        ) == Some(yy as int),
        r is None ==> col_lowest_nonblank(rows_view(*m), c as int, rows_view(*m).len() - 1)
            is None,
{
    let ghost mv = rows_view(*m);
    let mut i: usize = m.len();
    while i > 0
        invariant
            0 <= i <= mv.len(),
            col_lowest_nonblank(mv, c as int, mv.len() - 1) == col_lowest_nonblank(
                mv,
                c as int,
                i as int - 1,
            ),
        decreases i,
    {
        i = i - 1;
        proof {
            assert(mv[i as int].len() == mv[0].len());
        }
        if !m[i][c].is_blank() {
            return Some(i);
        }
    }
    None
}

impl Piece {
    /// The leftmost and rightmost occupied point of every occupied row of the
    /// current matrix, as absolute grid points: the candidate set for
    /// horizontal collision checks.
    #[verifier::loop_isolation(false)]
    pub fn find_xboundaries(&self, point_override: Option<&Point>) -> (r: Vec<Point>)
        requires
            mat_rect(rows_view(self.current_matrix)),
            self.anchor_x(point_override) >= 0,
            self.anchor_y(point_override) >= 0,
            self.anchor_x(point_override) + rows_view(self.current_matrix)[0].len()
                <= usize::MAX,
            self.anchor_y(point_override) + rows_view(self.current_matrix).len() <= usize::MAX,
        ensures
            forall|i: int|
                0 <= i < r@.len() ==> is_xboundary(
                    rows_view(self.current_matrix),
                    self.anchor_x(point_override),
                    self.anchor_y(point_override),
                    (#[trigger] r@[i]).x as int,
                    r@[i].y as int,
                ),
            forall|rr: int|
                0 <= rr < rows_view(self.current_matrix).len() && (#[trigger] row_first_nonblank(
                    rows_view(self.current_matrix)[rr],
                    0,
                )) is Some ==> r@.contains(
                    (Point {
                        x: (self.anchor_x(point_override) + row_first_nonblank(
                            rows_view(self.current_matrix)[rr],
                            0,
                        )->Some_0) as usize,
                        y: (self.anchor_y(point_override) + rr) as usize,
                    }),
                ),
            forall|rr: int|
                0 <= rr < rows_view(self.current_matrix).len() && (#[trigger] row_last_nonblank(
                    rows_view(self.current_matrix)[rr],
                    rows_view(self.current_matrix)[rr].len() - 1,
                )) is Some ==> r@.contains(
                    (Point {
                        x: (self.anchor_x(point_override) + row_last_nonblank(
                            rows_view(self.current_matrix)[rr],
                            rows_view(self.current_matrix)[rr].len() - 1,
                        )->Some_0) as usize,
                        y: (self.anchor_y(point_override) + rr) as usize,
                    }),
                ),
            r@.len() == 2 * occupied_row_count(
                rows_view(self.current_matrix),
                rows_view(self.current_matrix).len() as int,
            ),
            forall|i: int, j: int|
                0 <= i < j < r@.len() ==> ((#[trigger] r@[i]).y < (#[trigger] r@[j]).y || (r@[i].y
                    == r@[j].y && r@[i].x <= r@[j].x)),
    {
        let ghost mv = rows_view(self.current_matrix);
        let ghost ax = self.anchor_x(point_override);
        let ghost ay = self.anchor_y(point_override);
        let origin: Point = self.find_origin_for_zero_block(point_override).unwrap();
        let m = &self.current_matrix;
        let mut boundaries: Vec<Point> = Vec::new();
        let mut y: usize = 0;
        while y < m.len()
            invariant
                0 <= y <= mv.len(),
                boundaries@.len() == 2 * occupied_row_count(mv, y as int),
                forall|i: int|
                    0 <= i < boundaries@.len() ==> is_xboundary(
                        mv,
                        ax,
                        ay,
                        (#[trigger] boundaries@[i]).x as int,
                        boundaries@[i].y as int,
                    ),
                forall|rr: int|
                    0 <= rr < y && (#[trigger] row_first_nonblank(mv[rr], 0)) is Some
                        ==> boundaries@.contains(
                        (Point {
                            x: (ax + row_first_nonblank(mv[rr], 0)->Some_0) as usize,
                            y: (ay + rr) as usize,
                        }),
                    ),
                forall|rr: int|
                    0 <= rr < y && (#[trigger] row_last_nonblank(mv[rr], mv[rr].len() - 1))
                        is Some ==> boundaries@.contains(
                        (Point {
                            x: (ax + row_last_nonblank(mv[rr], mv[rr].len() - 1)->Some_0) as usize,
                            y: (ay + rr) as usize,
                        }),
                    ),
                forall|i: int|
                    0 <= i < boundaries@.len() ==> ((#[trigger] boundaries@[i]).y as int) < ay
                        + y as int,
                forall|i: int, j: int|
                    0 <= i < j < boundaries@.len() ==> ((#[trigger] boundaries@[i]).y < (
                    #[trigger] boundaries@[j]).y || (boundaries@[i].y == boundaries@[j].y
                        && boundaries@[i].x <= boundaries@[j].x)),
            decreases mv.len() - y,
        {
            proof {
                assert(mv[y as int].len() == mv[0].len());
                lemma_row_occupied_iff(mv[y as int]);
                lemma_row_first_nonblank_bounds(mv[y as int], 0);
                lemma_row_last_nonblank_bounds(mv[y as int], mv[y as int].len() - 1);
                // The leftmost occupied column never lies right of the
                // rightmost one.
                if row_first_nonblank(mv[y as int], 0) is Some {
                    let c1 = row_first_nonblank(mv[y as int], 0)->Some_0;
                    let c2 = row_last_nonblank(mv[y as int], mv[y as int].len() - 1)->Some_0;
                    if c2 < c1 {
                        assert(mv[y as int][c2] is Blank);
                        assert(false);
                    }
                }
            }
            let row = &m[y];
            let first = row_first_nb(row);
            let last = row_last_nb(row);
            if let Some(c) = first {
                let ghost before = boundaries@;
                boundaries.push(Point { x: origin.x + c, y: origin.y + y });
                proof {
                    assert(forall|i: int| 0 <= i < before.len() ==> boundaries@[i] == before[i]);
                    assert(forall|p: Point| before.contains(p) ==> boundaries@.contains(p));
                    assert(boundaries@[boundaries@.len() - 1] == (Point {
                        x: (ax + c as int) as usize,
                        y: (ay + y as int) as usize,
                    }));
                }
            }
            if let Some(c) = last {
                let ghost before = boundaries@;
                boundaries.push(Point { x: origin.x + c, y: origin.y + y });
                proof {
                    assert(forall|i: int| 0 <= i < before.len() ==> boundaries@[i] == before[i]);
                    assert(forall|p: Point| before.contains(p) ==> boundaries@.contains(p));
                    assert(boundaries@[boundaries@.len() - 1] == (Point {
                        x: (ax + c as int) as usize,
                        y: (ay + y as int) as usize,
                    }));
                }
            }
            y = y + 1;
        }
        boundaries
    }

    /// The lowest occupied point of every occupied column of the current
    /// matrix, as absolute grid points: the candidate set for downward
    /// collision checks. This is a corrected behaviour: each column is
    /// scanned from the bottom row upward and its first occupied cell taken,
    /// where a naive descending range (high..=0) would never run and yield
    /// nothing.
    #[verifier::loop_isolation(false)]
    pub fn find_yboundaries(&self, point_override: Option<&Point>) -> (r: Vec<Point>)
        requires
            mat_rect(rows_view(self.current_matrix)),
            self.anchor_x(point_override) >= 0,
            self.anchor_y(point_override) >= 0,
            self.anchor_x(point_override) + rows_view(self.current_matrix)[0].len()
                <= usize::MAX,
            self.anchor_y(point_override) + rows_view(self.current_matrix).len() <= usize::MAX,
        ensures
            forall|i: int|
                0 <= i < r@.len() ==> is_yboundary(
                    rows_view(self.current_matrix),
                    self.anchor_x(point_override),
                    self.anchor_y(point_override),
                    (#[trigger] r@[i]).x as int,
                    r@[i].y as int,
                ),
            forall|cc: int|
                0 <= cc < rows_view(self.current_matrix)[0].len() && (
                #[trigger] col_lowest_nonblank(
                    rows_view(self.current_matrix),
                    cc,
                    rows_view(self.current_matrix).len() - 1,
                )) is Some ==> r@.contains(
                    (Point {
                        x: (self.anchor_x(point_override) + cc) as usize,
                        y: (self.anchor_y(point_override) + col_lowest_nonblank(
                            rows_view(self.current_matrix),
                            cc,
                            rows_view(self.current_matrix).len() - 1,
                        )->Some_0) as usize,
                    }),
                ),
            r@.len() == occupied_col_count(
                rows_view(self.current_matrix),
                rows_view(self.current_matrix)[0].len() as int,
            ),
            forall|i: int, j: int| 0 <= i < j < r@.len() ==> (#[trigger] r@[i]).x < (#[trigger] r@[j]).x,
    {
        let ghost mv = rows_view(self.current_matrix);
        let ghost ax = self.anchor_x(point_override);
        let ghost ay = self.anchor_y(point_override);
        let origin: Point = self.find_origin_for_zero_block(point_override).unwrap();
        let m = &self.current_matrix;
        let mut boundaries: Vec<Point> = Vec::new();
        let width = m[0].len();
        let mut x: usize = 0;
        while x < width
            invariant
                0 <= x <= mv[0].len(),
                boundaries@.len() == occupied_col_count(mv, x as int),
                forall|i: int|
                    0 <= i < boundaries@.len() ==> is_yboundary(
                        mv,
                        ax,
                        ay,
                        (#[trigger] boundaries@[i]).x as int,
                        boundaries@[i].y as int,
                    ),
                forall|cc: int|
                    0 <= cc < x && (#[trigger] col_lowest_nonblank(mv, cc, mv.len() - 1)) is Some
                        ==> boundaries@.contains(
                        (Point {
                            x: (ax + cc) as usize,
                            y: (ay + col_lowest_nonblank(mv, cc, mv.len() - 1)->Some_0) as usize,
                        }),
                    ),
                forall|i: int|
                    0 <= i < boundaries@.len() ==> ((#[trigger] boundaries@[i]).x as int) < ax
                        + x as int,
                forall|i: int, j: int|
                    0 <= i < j < boundaries@.len() ==> (#[trigger] boundaries@[i]).x < (
                    #[trigger] boundaries@[j]).x,
            decreases mv[0].len() - x,
        {
            let lowest = col_lowest_nb(m, x);
            let ghost before = boundaries@;
            if let Some(yy) = lowest {
                boundaries.push(Point { x: origin.x + x, y: origin.y + yy });
                proof {
                    assert(forall|i: int| 0 <= i < before.len() ==> boundaries@[i] == before[i]);
                    assert(forall|p: Point| before.contains(p) ==> boundaries@.contains(p));
                    assert(boundaries@[boundaries@.len() - 1] == (Point {
                        x: (ax + x as int) as usize,
                        y: (ay + col_lowest_nonblank(mv, x as int, mv.len() - 1)->Some_0) as usize,
                    }));
                }
            }
            x = x + 1;
        }
        boundaries
    }
}


/// The partly-done state of placing a piece: rows before `r_done`, and the
/// first `c_done` columns of row `r_done` of the piece matrix, have been
/// written; every other cell is untouched.
spec fn place_upto(
    before: Seq<Seq<GameBlock>>,
    after: Seq<Seq<GameBlock>>,
    m: Seq<Seq<DefinitionBlock>>,
    ax: int,
    ay: int,
    color: BlockColor,
    r_done: int,
    c_done: int,
) -> bool {
    &&& after.len() == before.len()
    &&& forall|y: int| 0 <= y < before.len() ==> #[trigger] after[y].len() == before[y].len()
    &&& forall|y: int, x: int|
        0 <= y < before.len() && 0 <= x < before[y].len() ==> if covers(m, ax, ay, x, y) && (y - ay
            < r_done || (y - ay == r_done && x - ax < c_done)) {
            colorized(m[y - ay][x - ax], color, #[trigger] after[y][x])
        } else {
            after[y][x] == before[y][x]
        }
}

/// The partly-done state of removing a piece: footprint cells of rows before
/// `r_done`, and of the first `c_done` columns of row `r_done`, are Empty;
/// every other cell is untouched.
spec fn remove_upto(
    before: Seq<Seq<GameBlock>>,
    after: Seq<Seq<GameBlock>>,
    m: Seq<Seq<DefinitionBlock>>,
    ax: int,
    ay: int,
    r_done: int,
    c_done: int,
) -> bool {
    &&& after.len() == before.len()
    &&& forall|y: int| 0 <= y < before.len() ==> #[trigger] after[y].len() == before[y].len()
    &&& forall|y: int, x: int|
        0 <= y < before.len() && 0 <= x < before[y].len() ==> if in_footprint(m, ax, ay, x, y) && (
        y - ay < r_done || (y - ay == r_done && x - ax < c_done)) {
            (#[trigger] after[y][x]) is Empty
        } else {
            after[y][x] == before[y][x]
        }
}

impl Piece {
    /// Turns a definition cell into the playfield cell this piece writes:
    /// filled and origin cells take the piece's colour, text keeps its text.
    pub fn colorize_block_erase_origin(&self, block: DefinitionBlock) -> (g: GameBlock)
        ensures
            colorized(block, self.color, g),
    {
        match block {
            DefinitionBlock::Filled => GameBlock::Filled(self.color),
            DefinitionBlock::Origin => GameBlock::Filled(self.color),
            DefinitionBlock::Text(val) => GameBlock::Text(val.to_owned(), self.color),
            _ => GameBlock::Empty,
        }
    }

    /// Writes this piece into the playfield: every non-Blank cell of the
    /// current matrix overwrites the cell at anchor plus offset; Blank cells
    /// leave the playfield untouched.
    #[verifier::loop_isolation(false)]
    pub fn place_in_matrix(&self, matrix: &mut Vec<Vec<GameBlock>>)
        requires
            self.anchor_x(None) >= 0,
            self.anchor_y(None) >= 0,
            forall|rr: int, cc: int|
                0 <= rr < rows_view(self.current_matrix).len() && 0 <= cc < rows_view(
                    self.current_matrix,
                )[rr].len() && !((#[trigger] rows_view(self.current_matrix)[rr][cc]) is Blank) ==> {
                    &&& self.anchor_y(None) + rr < rows_view(*old(matrix)).len()
                    &&& self.anchor_x(None) + cc < rows_view(*old(matrix))[self.anchor_y(None)
                        + rr].len()
                },
        ensures
            place_rel(
                rows_view(*old(matrix)),
                rows_view(*final(matrix)),
                rows_view(self.current_matrix),
                self.anchor_x(None),
                self.anchor_y(None),
                self.color,
            ),
    {
        let ghost mv = rows_view(self.current_matrix);
        let ghost ax = self.anchor_x(None);
        let ghost ay = self.anchor_y(None);
        let ghost before = rows_view(*matrix);
        let origin: Point = self.find_origin_for_zero_block(None).unwrap();
        let total_rows = matrix.len();
        let mut y: usize = 0;
        while y < self.current_matrix.len()
            invariant
                0 <= y <= mv.len(),
                before.len() == total_rows,
                place_upto(before, rows_view(*matrix), mv, ax, ay, self.color, y as int, 0),
            decreases mv.len() - y,
        {
            let mut x: usize = 0;
            while x < self.current_matrix[y].len()
                invariant
                    0 <= x <= mv[y as int].len(),
                    y < mv.len(),
                    place_upto(
                        before,
                        rows_view(*matrix),
                        mv,
                        ax,
                        ay,
                        self.color,
                        y as int,
                        x as int,
                    ),
                decreases mv[y as int].len() - x,
            {
                if !self.current_matrix[y][x].is_blank() {
                    let block = self.colorize_block_erase_origin(self.current_matrix[y][x]);
                    let ghost mid = rows_view(*matrix);
                    proof {
                        assert(!(mv[y as int][x as int] is Blank));
                        assert((ay + y as int) < before.len());
                        assert(mid.len() == before.len());
                        assert(mid[ay + y as int].len() == before[ay + y as int].len());
                    }
                    let row_len = matrix[origin.y + y].len();
                    proof {
                        assert((ax + x as int) < before[ay + y as int].len());
                        assert(row_len == before[ay + y as int].len());
                    }
                    matrix[origin.y + y][origin.x + x] = block;
                    proof {
                        assert(rows_view(*matrix) =~~= mid.update(
                            ay + y as int,
                            mid[ay + y as int].update(ax + x as int, block),
                        ));
                    }
                }
                x = x + 1;
            }
            y = y + 1;
        }
        proof {
            assert(place_upto(before, rows_view(*matrix), mv, ax, ay, self.color, mv.len() as int, 0));
        }
    }

    /// Resets every cell within the piece's bounding footprint to Empty,
    /// whether or not the piece drew there: this restores whatever a Blank
    /// cell left untouched as well as what the piece wrote.
    #[verifier::loop_isolation(false)]
    pub fn remove_from_matrix(&self, matrix: &mut Vec<Vec<GameBlock>>)
        requires
            self.anchor_x(None) >= 0,
            self.anchor_y(None) >= 0,
            mat_rect(rows_view(self.current_matrix)),
            self.anchor_y(None) + rows_view(self.current_matrix).len() <= rows_view(
                *old(matrix),
            ).len(),
            forall|rr: int|
                0 <= rr < rows_view(self.current_matrix).len() ==> self.anchor_x(None) + rows_view(
                    self.current_matrix,
                )[0].len() <= (#[trigger] rows_view(*old(matrix))[self.anchor_y(None) + rr]).len(),
        ensures
            remove_rel(
                rows_view(*old(matrix)),
                rows_view(*final(matrix)),
                rows_view(self.current_matrix),
                self.anchor_x(None),
                self.anchor_y(None),
            ),
    {
        let ghost mv = rows_view(self.current_matrix);
        let ghost ax = self.anchor_x(None);
        let ghost ay = self.anchor_y(None);
        let ghost before = rows_view(*matrix);
        let origin: Point = self.find_origin_for_zero_block(None).unwrap();
        let total_rows = matrix.len();
        let mut y: usize = 0;
        while y < self.current_matrix.len()
            invariant
                0 <= y <= mv.len(),
                before.len() == total_rows,
                remove_upto(before, rows_view(*matrix), mv, ax, ay, y as int, 0),
            decreases mv.len() - y,
        {
            let mut x: usize = 0;
            while x < self.current_matrix[y].len()
                invariant
                    0 <= x <= mv[y as int].len(),
                    y < mv.len(),
                    remove_upto(before, rows_view(*matrix), mv, ax, ay, y as int, x as int),
                decreases mv[y as int].len() - x,
            {
                let ghost mid = rows_view(*matrix);
                proof {
                    assert(mv[y as int].len() == mv[0].len());
                    assert((ay + y as int) < before.len());
                    assert(mid.len() == before.len());
                    assert(mid[ay + y as int].len() == before[ay + y as int].len());
                }
                let row_len = matrix[origin.y + y].len();
                proof {
                    assert((ax + x as int) < before[ay + y as int].len());
                    assert(row_len == before[ay + y as int].len());
                }
                matrix[origin.y + y][origin.x + x] = GameBlock::Empty;
                proof {
                    assert(rows_view(*matrix) =~~= mid.update(
                        ay + y as int,
                        mid[ay + y as int].update(ax + x as int, GameBlock::Empty),
                    ));
                }
                x = x + 1;
            }
            y = y + 1;
        }
        proof {
            assert(remove_upto(before, rows_view(*matrix), mv, ax, ay, mv.len() as int, 0));
        }
    }
}


/// The character a definition cell shows as: '#' for an occupied cell, a
/// space for anything else.
pub open spec fn repr_cell(b: DefinitionBlock) -> char {
    match b {
        DefinitionBlock::Origin => '#',
        DefinitionBlock::Filled => '#',
        _ => ' ',
    }
}

/// One row of a piece drawing: the row's cells, then a newline.
pub open spec fn row_repr(row: Seq<DefinitionBlock>) -> Seq<char> {
    Seq::new(row.len(), |i: int| repr_cell(row[i])).push('\n')
}

/// The drawing of rows `r` onward of a piece matrix.
pub open spec fn rows_repr(m: Seq<Seq<DefinitionBlock>>, r: int) -> Seq<char>
    decreases m.len() - r,
    when 0 <= r <= m.len()
{
    if r >= m.len() {
        Seq::empty()
    } else {
        row_repr(m[r]) + rows_repr(m, r + 1)
    }
}

impl Piece {
    /// Draws the current matrix, one text line per row: '#' for occupied
    /// cells, spaces elsewhere.
    #[verifier::loop_isolation(false)]
    pub fn generate_string_representation(s: &Self) -> (r: String)
        ensures
            r@ == rows_repr(rows_view(s.current_matrix), 0),
    {
        let ghost mv = rows_view(s.current_matrix);
        let mut output: String = String::new();
        let mut y: usize = 0;
        while y < s.current_matrix.len()
            invariant
                0 <= y <= mv.len(),
                output@ + rows_repr(mv, y as int) == rows_repr(mv, 0),
            decreases mv.len() - y,
        {
            let ghost base = output@;
            let mut x: usize = 0;
            while x < s.current_matrix[y].len()
                invariant
                    0 <= x <= mv[y as int].len(),
                    y < mv.len(),
                    output@ == base + Seq::new(x as nat, |i: int| repr_cell(mv[y as int][i])),
                decreases mv[y as int].len() - x,
            {
                let cell = s.current_matrix[y][x];
                match cell {
                    DefinitionBlock::Origin => output.append("#"),
                    DefinitionBlock::Filled => output.append("#"),
                    _ => output.append(" "),
                }
                proof {
                    reveal_strlit("#");
                    reveal_strlit(" ");
                    assert(output@ =~= base + Seq::new(
                        (x + 1) as nat,
                        |i: int| repr_cell(mv[y as int][i]),
                    ));
                }
                x = x + 1;
            }
            output.append("\n");
            proof {
                reveal_strlit("\n");
                assert(output@ =~= base + row_repr(mv[y as int]));
                assert(rows_repr(mv, y as int) == row_repr(mv[y as int]) + rows_repr(
                    mv,
                    y as int + 1,
                ));
                assert(output@ + rows_repr(mv, y as int + 1) =~= base + rows_repr(mv, y as int));
            }
            y = y + 1;
        }
        proof {
            assert(output@ =~= output@ + rows_repr(mv, y as int));
        }
        output
    }
}


/// A found first-non-Blank column lies within the scanned range and is the
/// least occupied column: everything before it is Blank.
pub proof fn lemma_row_first_nonblank_bounds(row: Seq<DefinitionBlock>, i: int)
    requires
        0 <= i <= row.len(),
    ensures
        row_first_nonblank(row, i) matches Some(c) ==> i <= c < row.len() && !(row[c] is Blank),
        row_first_nonblank(row, i) matches Some(c) ==> forall|k: int|
            i <= k < c ==> (#[trigger] row[k]) is Blank,
    decreases row.len() - i,
{
    if i < row.len() && row[i] is Blank {
        lemma_row_first_nonblank_bounds(row, i + 1);
    }
}

/// A found last-non-Blank column lies within the scanned range and is the
/// greatest occupied column: everything after it is Blank.
pub proof fn lemma_row_last_nonblank_bounds(row: Seq<DefinitionBlock>, i: int)
    requires
        -1 <= i < row.len(),
    ensures
        row_last_nonblank(row, i) matches Some(c) ==> 0 <= c <= i && !(row[c] is Blank),
        row_last_nonblank(row, i) matches Some(c) ==> forall|k: int|
            c < k <= i ==> (#[trigger] row[k]) is Blank,
    decreases i + 1,
{
    if i >= 0 && row[i] is Blank {
        lemma_row_last_nonblank_bounds(row, i - 1);
    }
}

/// A found lowest-non-Blank row lies within the scanned range.
pub proof fn lemma_col_lowest_nonblank_bounds(m: Seq<Seq<DefinitionBlock>>, c: int, i: int)
    requires
        mat_rect(m),
        0 <= c < m[0].len(),
        -1 <= i < m.len(),
    ensures
        col_lowest_nonblank(m, c, i) matches Some(r) ==> 0 <= r <= i && !(m[r][c] is Blank),
    decreases i + 1,
{
    if i >= 0 && m[i][c] is Blank {
        lemma_col_lowest_nonblank_bounds(m, c, i - 1);
    }
}

/// Non-Blank cells among the first `i` cells of a row.
pub open spec fn row_nonblank_count(row: Seq<DefinitionBlock>, i: int) -> int
    decreases i,
    when 0 <= i <= row.len()
{
    if i <= 0 {
        0
    } else {
        row_nonblank_count(row, i - 1) + if row[i - 1] is Blank {
            0int
        } else {
            1int
        }
    }
}

/// Non-Blank cells among the first `r` rows of a matrix.
pub open spec fn mat_nonblank_count(m: Seq<Seq<DefinitionBlock>>, r: int) -> int
    decreases r,
    when 0 <= r <= m.len()
{
    if r <= 0 {
        0
    } else {
        mat_nonblank_count(m, r - 1) + row_nonblank_count(m[r - 1], m[r - 1].len() as int)
    }
}

/// Rows among the first `r` of a matrix holding at least one occupied cell.
pub open spec fn occupied_row_count(m: Seq<Seq<DefinitionBlock>>, r: int) -> int
    decreases r,
    when 0 <= r <= m.len()
{
    if r <= 0 {
        0
    } else {
        occupied_row_count(m, r - 1) + if row_first_nonblank(m[r - 1], 0) is Some {
            1int
        } else {
            0int
        }
    }
}

/// Columns among the first `c` of a matrix holding at least one occupied cell.
pub open spec fn occupied_col_count(m: Seq<Seq<DefinitionBlock>>, c: int) -> int
    decreases c,
    when mat_rect(m) && 0 <= c <= m[0].len()
{
    if c <= 0 {
        0
    } else {
        occupied_col_count(m, c - 1) + if col_lowest_nonblank(m, c - 1, m.len() - 1) is Some {
            1int
        } else {
            0int
        }
    }
}

proof fn lemma_row_first_none_iff(row: Seq<DefinitionBlock>, i: int)
    requires
        0 <= i <= row.len(),
    ensures
        (row_first_nonblank(row, i) is None) <==> (forall|k: int|
            i <= k < row.len() ==> (#[trigger] row[k]) is Blank),
    decreases row.len() - i,
{
    if i < row.len() && row[i] is Blank {
        lemma_row_first_none_iff(row, i + 1);
    }
}

proof fn lemma_row_last_none_iff(row: Seq<DefinitionBlock>, i: int)
    requires
        -1 <= i < row.len(),
    ensures
        (row_last_nonblank(row, i) is None) <==> (forall|k: int|
            0 <= k <= i ==> (#[trigger] row[k]) is Blank),
    decreases i + 1,
{
    if i >= 0 && row[i] is Blank {
        lemma_row_last_none_iff(row, i - 1);
    }
}

/// A row has a leftmost occupied cell exactly when it has a rightmost one:
/// each row contributes either both x-boundary points or none.
pub proof fn lemma_row_occupied_iff(row: Seq<DefinitionBlock>)
    ensures
        (row_first_nonblank(row, 0) is Some) <==> (row_last_nonblank(row, row.len() - 1) is Some),
{
    lemma_row_first_none_iff(row, 0);
    lemma_row_last_none_iff(row, row.len() - 1);
}

} // verus!
