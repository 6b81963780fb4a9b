//! The game master: owns the playfield, the active piece, the score and the
//! piece supply, and advances the game-state machine one step at a time.
use vstd::prelude::*;

use crate::game::piece::covers;
use crate::game::piece::mat_first_origin;
use crate::game::piece::mat_rect;
use crate::game::piece::place_rel;
use crate::game::piece::spec_rotated;
use crate::game::piece::Piece;
use crate::game::piece_types::is_piece_name;
use crate::game::piece_types::spec_game_over;
use crate::game::piece_types::spec_jpiece;
use crate::game::piece_types::spec_line;
use crate::game::piece_types::spec_lpiece;
use crate::game::piece_types::spec_podium;
use crate::game::piece_types::spec_spiece;
use crate::game::piece_types::spec_square;
use crate::game::piece_types::spec_zpiece;
use crate::game::piece_types::DefinitionBlock;
use crate::game::piece_types::PieceDefinitions;
use crate::game::tootris::rows_view;
use crate::game::tootris::BlockColor;
use crate::game::tootris::Communique;
use crate::game::tootris::ControllerCommand;
use crate::game::tootris::GameBlock;
use crate::game::tootris::GameBroadcaster;
use crate::game::tootris::GameMatrix;
use crate::game::tootris::GameState;
use crate::game::tootris::GameUpdateReceiver;
use crate::game::tootris::Master2RenderCommunique;
use crate::game::tootris::Master2UICommunique;
use crate::game::tootris::Orientation;
use crate::game::tootris::PlayerMove;
use crate::game::tootris::Point;
use crate::game::tootris::Rotation;
use crate::game::tootris::UI2MasterCommunique;
use crate::game::tootris::UiCommand;
use crate::outside::channel_send;
use crate::outside::channel_try_recv;
use crate::outside::stopwatch_elapsed_ms;
use crate::outside::stopwatch_is_running;
use crate::outside::stopwatch_new;
use crate::outside::stopwatch_reset;
use crate::outside::stopwatch_restart;
use crate::outside::stopwatch_start;
use crate::outside::stopwatch_stop;
use crate::rng::RandomSource;
use crate::settings::OPTION_BUCKET_MAX_SIZE;
use crate::settings::OPTION_BUCKET_MINIMUM_SIZE;
use crate::settings::OPTION_TICK_BASE_MS;

verus! {

/// The length of one gravity tick at a speed level, in milliseconds.
pub open spec fn spec_tick_interval(speed: int) -> int {
    (100 - speed) * OPTION_TICK_BASE_MS
}

/// The speed law: the tick interval strictly shrinks as the speed level
/// rises, so the game only speeds up; and the speed level changes only during
/// row clearing, where it rises by the number of cleared rows, capped at 99.
pub proof fn lemma_tick_interval_strictly_decreases(s1: int, s2: int)
    requires
        1 <= s1 < s2 <= 99,
    ensures
        spec_tick_interval(s1) > spec_tick_interval(s2),
        spec_tick_interval(s2) > 0,
{
}

/// A well-formed playfield: a non-empty rectangle at least three cells wide,
/// whose leftmost column, rightmost column, and bottom row are indestructible
/// border cells.
pub open spec fn level_wf(lv: Seq<Seq<GameBlock>>) -> bool {
    &&& lv.len() >= 2
    &&& lv[0].len() >= 2
    &&& forall|r: int| 0 <= r < lv.len() ==> #[trigger] lv[r].len() == lv[0].len()
    &&& forall|r: int|
        0 <= r < lv.len() ==> ((#[trigger] lv[r][0]) is Indestructible && lv[r][lv[0].len()
            - 1] is Indestructible)
    &&& forall|c: int|
        0 <= c < lv[0].len() ==> (#[trigger] lv[lv.len() - 1][c]) is Indestructible
}

/// A fresh playfield row: border cells at both ends, empty cells between.
pub open spec fn spec_empty_row(w: int) -> Seq<GameBlock> {
    Seq::new(
        w as nat,
        |i: int|
            if i == 0 || i == w - 1 {
                GameBlock::Indestructible
            } else {
                GameBlock::Empty
            },
    )
}

/// A row made of border cells only: the playfield floor.
pub open spec fn spec_border_row(w: int) -> Seq<GameBlock> {
    Seq::new(w as nat, |i: int| GameBlock::Indestructible)
}

/// A fresh bordered playfield: empty rows with side borders, closed by an
/// all-border bottom row.
pub open spec fn spec_fresh_level(w: int, h: int) -> Seq<Seq<GameBlock>> {
    Seq::new(
        h as nat,
        |r: int|
            if r == h - 1 {
                spec_border_row(w)
            } else {
                spec_empty_row(w)
            },
    )
}

/// A complete row: one border cell, a non-empty run of filled cells, one
/// border cell, and nothing else.
pub open spec fn spec_row_complete(row: Seq<GameBlock>) -> bool {
    &&& row.len() >= 3
    &&& row[0] is Indestructible
    &&& row[row.len() - 1] is Indestructible
    &&& forall|k: int| 0 < k < row.len() - 1 ==> (#[trigger] row[k]) is Filled
}

/// How many border cells stand strictly before index `i` of the row.
pub open spec fn count_borders(row: Seq<GameBlock>, i: int) -> int
    decreases i,
    when 0 <= i <= row.len()
{
    if i <= 0 {
        0
    } else {
        count_borders(row, i - 1) + if row[i - 1] is Indestructible {
            1int
        } else {
            0int
        }
    }
}

/// A malformed row: a filled cell standing before the first border cell or
/// after the second one. Such a row is reported and never credited.
pub open spec fn spec_row_malformed(row: Seq<GameBlock>) -> bool {
    exists|k: int|
        0 <= k < row.len() && (#[trigger] row[k]) is Filled && (count_borders(row, k) == 0
            || count_borders(row, k) >= 2)
}

/// How a row scan classifies one playfield row.
pub enum RowScan {
    Complete,
    Malformed,
    Incomplete,
}

/// Classifies one row: complete rows are credited for clearance, malformed
/// rows are reported, anything else is left alone.
#[verifier::loop_isolation(false)]
pub fn row_completion(row: &Vec<GameBlock>) -> (r: RowScan)
    ensures
        (r is Complete) == spec_row_complete(row@),
        (r is Malformed) == (!spec_row_complete(row@) && spec_row_malformed(row@)),
{
    let mut malformed = false;
    let mut borders: usize = 0;
    let mut k: usize = 0;
    while k < row.len()
        invariant
            0 <= k <= row@.len(),
            borders == count_borders(row@, k as int),
            borders <= k,
            malformed == exists|j: int|
                0 <= j < k && (#[trigger] row@[j]) is Filled && (count_borders(row@, j) == 0
                    || count_borders(row@, j) >= 2),
        decreases row@.len() - k,
    {
        match &row[k] {
            GameBlock::Indestructible => {
                borders = borders + 1;
            }
            GameBlock::Filled(_) => {
                if borders == 0 || borders >= 2 {
                    malformed = true;
                    proof {
                        assert((#[trigger] row@[k as int]) is Filled && (count_borders(
                            row@,
                            k as int,
                        ) == 0 || count_borders(row@, k as int) >= 2));
                    }
                }
            }
            _ => {}
        }
        k = k + 1;
    }
    if malformed {
        proof {
            // A row with a stray filled cell cannot have the complete shape:
            // there every inner cell is Filled with exactly one border before it.
            if spec_row_complete(row@) {
                let j = choose|j: int|
                    0 <= j < row@.len() && (#[trigger] row@[j]) is Filled && (count_borders(
                        row@,
                        j,
                    ) == 0 || count_borders(row@, j) >= 2);
                assert(j != 0 && j != row@.len() - 1);
                lemma_count_borders_complete(row@, j);
                assert(false);
            }
        }
        return RowScan::Malformed;
    }
    if row.len() < 3 {
        return RowScan::Incomplete;
    }
    let last = row.len() - 1;
    let first_ok = match &row[0] {
        GameBlock::Indestructible => true,
        _ => false,
    };
    let last_ok = match &row[last] {
        GameBlock::Indestructible => true,
        _ => false,
    };
    if !first_ok || !last_ok {
        return RowScan::Incomplete;
    }
    let mut i: usize = 1;
    while i < last
        invariant
            1 <= i <= last,
            forall|k2: int| 0 < k2 < i ==> (#[trigger] row@[k2]) is Filled,
        decreases last - i,
    {
        match &row[i] {
            GameBlock::Filled(_) => {}
            _ => {
                return RowScan::Incomplete;
            }
        }
        i = i + 1;
    }
    RowScan::Complete
}

/// In a complete row, every inner cell has exactly one border cell before it.
proof fn lemma_count_borders_complete(row: Seq<GameBlock>, j: int)
    requires
        spec_row_complete(row),
        0 < j < row.len() - 1,
    ensures
        count_borders(row, j) == 1,
    decreases j,
{
    if j == 1 {
        assert(count_borders(row, 1) == count_borders(row, 0) + 1);
    } else {
        lemma_count_borders_complete(row, j - 1);
        assert(!(row[j - 1] is Indestructible));
    }
}

/// The indices of the complete rows of `lv`, from row `i` down, in order.
pub open spec fn complete_rows_from(lv: Seq<Seq<GameBlock>>, i: int) -> Seq<int>
    decreases lv.len() - i,
    when 0 <= i <= lv.len()
{
    if i >= lv.len() {
        Seq::empty()
    } else if spec_row_complete(lv[i]) {
        seq![i] + complete_rows_from(lv, i + 1)
    } else {
        complete_rows_from(lv, i + 1)
    }
}

/// The integer view of a sequence of row indices.
pub open spec fn idx_view(v: Seq<usize>) -> Seq<int> {
    v.map_values(|u: usize| u as int)
}

/// What `complete_rows_from` yields: indices within range, strictly
/// increasing, complete, and covering every complete row.
pub proof fn lemma_complete_rows_from(lv: Seq<Seq<GameBlock>>, i: int)
    requires
        0 <= i <= lv.len(),
    ensures
        forall|k: int|
            0 <= k < complete_rows_from(lv, i).len() ==> i <= #[trigger] complete_rows_from(
                lv,
                i,
            )[k] < lv.len() && spec_row_complete(lv[complete_rows_from(lv, i)[k]]),
        forall|a: int, b: int|
            0 <= a < b < complete_rows_from(lv, i).len() ==> complete_rows_from(lv, i)[a]
                < complete_rows_from(lv, i)[b],
        forall|j: int|
            i <= j < lv.len() && spec_row_complete(lv[j]) ==> complete_rows_from(lv, i).contains(
                j,
            ),
    decreases lv.len() - i,
{
    if i < lv.len() {
        lemma_complete_rows_from(lv, i + 1);
        let rest = complete_rows_from(lv, i + 1);
        if spec_row_complete(lv[i]) {
            let whole = complete_rows_from(lv, i);
            assert(whole == seq![i] + rest);
            assert forall|j: int|
                i <= j < lv.len() && spec_row_complete(lv[j]) implies whole.contains(j) by {
                if j == i {
                    assert(whole[0] == i);
                } else {
                    assert(rest.contains(j));
                    let k = choose|k: int| 0 <= k < rest.len() && rest[k] == j;
                    assert(whole[k + 1] == j);
                }
            }
        } else {
            assert forall|j: int|
                i <= j < lv.len() && spec_row_complete(lv[j]) implies complete_rows_from(
                lv,
                i,
            ).contains(j) by {
                assert(j != i);
                assert(rest.contains(j));
            }
        }
    }
}


/// Whether the absolute grid point (px, py) collides: it lies outside the
/// playfield's bounds or on a cell that is not Empty.
pub open spec fn point_bad(lv: Seq<Seq<GameBlock>>, px: int, py: int) -> bool {
    ||| py < 0
    ||| py >= lv.len()
    ||| px < 0
    ||| px >= lv[0].len()
    ||| !(lv[py][px] is Empty)
}

/// The anchor's x coordinate when the matrix's origin cell sits at grid
/// column `lx`; `lx` itself when there is no origin cell.
pub open spec fn anchor_x_of(m: Seq<Seq<DefinitionBlock>>, lx: int) -> int {
    match mat_first_origin(m, 0) {
        Some(rc) => lx - rc.1,
        None => lx,
    }
}

/// The anchor's y coordinate when the matrix's origin cell sits at grid row
/// `ly`; `ly` itself when there is no origin cell.
pub open spec fn anchor_y_of(m: Seq<Seq<DefinitionBlock>>, ly: int) -> int {
    match mat_first_origin(m, 0) {
        Some(rc) => ly - rc.0,
        None => ly,
    }
}

/// Whether any occupied point of the matrix `m`, anchored at (ax, ay),
/// collides with the playfield.
pub open spec fn spec_colliding(
    lv: Seq<Seq<GameBlock>>,
    m: Seq<Seq<DefinitionBlock>>,
    ax: int,
    ay: int,
) -> bool {
    exists|rr: int, cc: int|
        0 <= rr < m.len() && 0 <= cc < m[rr].len() && !((#[trigger] m[rr][cc]) is Blank)
            && point_bad(lv, ax + cc, ay + rr)
}

/// Whether any x-boundary point of the matrix collides.
pub open spec fn spec_xcolliding(
    lv: Seq<Seq<GameBlock>>,
    m: Seq<Seq<DefinitionBlock>>,
    ax: int,
    ay: int,
) -> bool {
    exists|px: int, py: int| #[trigger]
        crate::game::piece::is_xboundary(m, ax, ay, px, py) && point_bad(lv, px, py)
}

/// Whether any y-boundary point of the matrix collides.
pub open spec fn spec_ycolliding(
    lv: Seq<Seq<GameBlock>>,
    m: Seq<Seq<DefinitionBlock>>,
    ax: int,
    ay: int,
) -> bool {
    exists|px: int, py: int| #[trigger]
        crate::game::piece::is_yboundary(m, ax, ay, px, py) && point_bad(lv, px, py)
}

/// Whether every occupied point of the matrix, anchored at (ax, ay), lands
/// inside the playfield's cell grid (occupied or not).
pub open spec fn spec_fits(
    lv: Seq<Seq<GameBlock>>,
    m: Seq<Seq<DefinitionBlock>>,
    ax: int,
    ay: int,
) -> bool {
    &&& ax >= 0
    &&& ay >= 0
    &&& forall|rr: int, cc: int|
        0 <= rr < m.len() && 0 <= cc < m[rr].len() && !((#[trigger] m[rr][cc]) is Blank) ==> ay
            + rr < lv.len() && ax + cc < lv[ay + rr].len()
}

/// Tests whether the matrix `m`, whose origin cell sits at grid point
/// (lx, ly), holds any occupied point that is out of bounds or on a non-Empty
/// cell. The coordinates are taken as plain integers, so a position partly
/// above or left of the grid is judged correctly rather than wrapping.
#[verifier::loop_isolation(false)]
fn collides_at(
    level: &Vec<Vec<GameBlock>>,
    m: &Vec<Vec<DefinitionBlock>>,
    lx: i128,
    ly: i128,
) -> (r: bool)
    requires
        mat_rect(rows_view(*level)),
        -0x4_0000_0000_0000_0000i128 <= lx <= 0x4_0000_0000_0000_0000i128,
        -0x4_0000_0000_0000_0000i128 <= ly <= 0x4_0000_0000_0000_0000i128,
    ensures
        r == spec_colliding(
            rows_view(*level),
            rows_view(*m),
            anchor_x_of(rows_view(*m), lx as int),
            anchor_y_of(rows_view(*m), ly as int),
        ),
{
    let ghost lvv = rows_view(*level);
    let ghost mv = rows_view(*m);
    let axy: (i128, i128) = match crate::game::piece::find_first_origin(m) {
        Some((oy, ox)) => (lx - ox as i128, ly - oy as i128),
        None => (lx, ly),
    };
    let ax = axy.0;
    let ay = axy.1;
    let ghost axg = anchor_x_of(mv, lx as int);
    let ghost ayg = anchor_y_of(mv, ly as int);
    proof {
        assert(ax as int == axg && ay as int == ayg);
    }
    let h = level.len();
    let w = level[0].len();
    let mut rr: usize = 0;
    while rr < m.len()
        invariant
            0 <= rr <= mv.len(),
            forall|r2: int, c2: int|
                0 <= r2 < rr && 0 <= c2 < mv[r2].len() && !((#[trigger] mv[r2][c2]) is Blank)
                    ==> !point_bad(lvv, axg + c2, ayg + r2),
        decreases mv.len() - rr,
    {
        let mut cc: usize = 0;
        while cc < m[rr].len()
            invariant
                0 <= cc <= mv[rr as int].len(),
                rr < mv.len(),
                forall|r2: int, c2: int|
                    0 <= r2 < rr && 0 <= c2 < mv[r2].len() && !((#[trigger] mv[r2][c2]) is Blank)
                        ==> !point_bad(lvv, axg + c2, ayg + r2),
                forall|c2: int|
                    0 <= c2 < cc && !((#[trigger] mv[rr as int][c2]) is Blank) ==> !point_bad(
                        lvv,
                        axg + c2,
                        ayg + rr as int,
                    ),
            decreases mv[rr as int].len() - cc,
        {
            if !m[rr][cc].is_blank() {
                let px: i128 = ax + cc as i128;
                let py: i128 = ay + rr as i128;
                if py < 0 || py >= h as i128 || px < 0 || px >= w as i128 {
                    proof {
                        assert(!(mv[rr as int][cc as int] is Blank) && point_bad(
                            lvv,
                            axg + cc as int,
                            ayg + rr as int,
                        ));
                    }
                    return true;
                }
                proof {
                    assert(lvv[py as int].len() == lvv[0].len());
                }
                let bad = match &level[py as usize][px as usize] {
                    GameBlock::Empty => false,
                    _ => true,
                };
                if bad {
                    proof {
                        assert(!(mv[rr as int][cc as int] is Blank) && point_bad(
                            lvv,
                            axg + cc as int,
                            ayg + rr as int,
                        ));
                    }
                    return true;
                }
            }
            cc = cc + 1;
        }
        rr = rr + 1;
    }
    false
}

/// Tests whether every occupied point of the matrix, with its origin cell at
/// `loc`, lands inside the playfield's cell grid.
#[verifier::loop_isolation(false)]
fn fits_in(level: &Vec<Vec<GameBlock>>, m: &Vec<Vec<DefinitionBlock>>, loc: Point) -> (r: bool)
    ensures
        r == spec_fits(
            rows_view(*level),
            rows_view(*m),
            anchor_x_of(rows_view(*m), loc.x as int),
            anchor_y_of(rows_view(*m), loc.y as int),
        ),
{
    let ghost lvv = rows_view(*level);
    let ghost mv = rows_view(*m);
    let ghost axg = anchor_x_of(mv, loc.x as int);
    let ghost ayg = anchor_y_of(mv, loc.y as int);
    let axy: (usize, usize) = match crate::game::piece::find_first_origin(m) {
        Some((oy, ox)) => {
            if loc.x >= ox && loc.y >= oy {
                (loc.x - ox, loc.y - oy)
            } else {
                // The anchor would sit left of or above the grid.
                return false;
            }
        }
        None => (loc.x, loc.y),
    };
    let ax = axy.0;
    let ay = axy.1;
    proof {
        assert(ax as int == axg && ay as int == ayg);
    }
    let mut rr: usize = 0;
    while rr < m.len()
        invariant
            0 <= rr <= mv.len(),
            forall|r2: int, c2: int|
                0 <= r2 < rr && 0 <= c2 < mv[r2].len() && !((#[trigger] mv[r2][c2]) is Blank)
                    ==> ayg + r2 < lvv.len() && axg + c2 < lvv[ayg + r2].len(),
        decreases mv.len() - rr,
    {
        let mut cc: usize = 0;
        while cc < m[rr].len()
            invariant
                0 <= cc <= mv[rr as int].len(),
                rr < mv.len(),
                forall|r2: int, c2: int|
                    0 <= r2 < rr && 0 <= c2 < mv[r2].len() && !((#[trigger] mv[r2][c2]) is Blank)
                        ==> ayg + r2 < lvv.len() && axg + c2 < lvv[ayg + r2].len(),
                forall|c2: int|
                    0 <= c2 < cc && !((#[trigger] mv[rr as int][c2]) is Blank) ==> (ayg
                        + rr as int) < lvv.len() && axg + c2 < lvv[ayg + rr as int].len(),
            decreases mv[rr as int].len() - cc,
        {
            if !m[rr][cc].is_blank() {
                let row_ok = ay < level.len() && rr < level.len() - ay;
                if !row_ok {
                    return false;
                }
                let row_len = level[ay + rr].len();
                let col_ok = ax < row_len && cc < row_len - ax;
                if !col_ok {
                    return false;
                }
            }
            cc = cc + 1;
        }
        rr = rr + 1;
    }
    true
}


/// The spawn point of new pieces: the middle of the top of the playfield.
pub open spec fn spec_spawn_point(w: int) -> Point {
    Point { x: (w / 2) as usize, y: 1 }
}

/// The definitions the piece supply draws from: the seven playable shapes.
pub open spec fn spawn_def(d: Seq<Seq<DefinitionBlock>>) -> bool {
    ||| d == spec_line()
    ||| d == spec_square()
    ||| d == spec_podium()
    ||| d == spec_lpiece()
    ||| d == spec_jpiece()
    ||| d == spec_spiece()
    ||| d == spec_zpiece()
}

/// A piece as the supply hands it out: a playable shape in its normal
/// orientation, sitting at the spawn point.
pub open spec fn bucket_piece_ok(p: Piece, w: int) -> bool {
    &&& p.wf()
    &&& spawn_def(rows_view(p.definition))
    &&& p.orientation == Orientation::Normal
    &&& p.location == spec_spawn_point(w)
}

/// Every playable shape is a small rectangle whose origin cell sits within
/// the top-left two-by-two corner, so a piece spawned at the top of the board
/// resolves to a non-negative anchor.
pub proof fn lemma_spawn_defs(d: Seq<Seq<DefinitionBlock>>)
    requires
        spawn_def(d),
    ensures
        mat_rect(d),
        1 <= d.len() <= 3,
        1 <= d[0].len() <= 4,
        mat_first_origin(d, 0) matches Some(rc) && 0 <= rc.0 <= 1 && 0 <= rc.1 <= 1,
{
    if d == spec_line() {
        let r0 = spec_line()[0];
        assert(mat_rect(d)) by {
            assert(forall|r: int| 0 <= r < d.len() ==> #[trigger] d[r].len() == d[0].len());
        }
        assert(crate::game::piece::row_first_origin(r0, 1) == Some(1int));
        assert(crate::game::piece::row_first_origin(r0, 0) == Some(1int));
        assert(mat_first_origin(d, 0) == Some((0int, 1int)));
    } else if d == spec_square() {
        assert(mat_rect(d)) by {
            assert(forall|r: int| 0 <= r < d.len() ==> #[trigger] d[r].len() == d[0].len());
        }
        let r0 = spec_square()[0];
        assert(crate::game::piece::row_first_origin(r0, 0) == Some(0int));
        assert(mat_first_origin(d, 0) == Some((0int, 0int)));
    } else if d == spec_podium() {
        assert(mat_rect(d)) by {
            assert(forall|r: int| 0 <= r < d.len() ==> #[trigger] d[r].len() == d[0].len());
        }
        let r0 = spec_podium()[0];
        let r1 = spec_podium()[1];
        assert(crate::game::piece::row_first_origin(r0, 3) is None);
        assert(crate::game::piece::row_first_origin(r0, 2) is None);
        assert(crate::game::piece::row_first_origin(r0, 1) is None);
        assert(crate::game::piece::row_first_origin(r0, 0) is None);
        assert(crate::game::piece::row_first_origin(r1, 1) == Some(1int));
        assert(crate::game::piece::row_first_origin(r1, 0) == Some(1int));
        assert(mat_first_origin(d, 1) == Some((1int, 1int)));
        assert(mat_first_origin(d, 0) == Some((1int, 1int)));
    } else if d == spec_lpiece() {
        assert(mat_rect(d)) by {
            assert(forall|r: int| 0 <= r < d.len() ==> #[trigger] d[r].len() == d[0].len());
        }
        let r0 = spec_lpiece()[0];
        let r1 = spec_lpiece()[1];
        assert(crate::game::piece::row_first_origin(r0, 2) is None);
        assert(crate::game::piece::row_first_origin(r0, 1) is None);
        assert(crate::game::piece::row_first_origin(r0, 0) is None);
        assert(crate::game::piece::row_first_origin(r1, 0) == Some(0int));
        assert(mat_first_origin(d, 1) == Some((1int, 0int)));
        assert(mat_first_origin(d, 0) == Some((1int, 0int)));
    } else if d == spec_jpiece() {
        assert(mat_rect(d)) by {
            assert(forall|r: int| 0 <= r < d.len() ==> #[trigger] d[r].len() == d[0].len());
        }
        let r0 = spec_jpiece()[0];
        let r1 = spec_jpiece()[1];
        assert(crate::game::piece::row_first_origin(r0, 2) is None);
        assert(crate::game::piece::row_first_origin(r0, 1) is None);
        assert(crate::game::piece::row_first_origin(r0, 0) is None);
        assert(crate::game::piece::row_first_origin(r1, 1) == Some(1int));
        assert(crate::game::piece::row_first_origin(r1, 0) == Some(1int));
        assert(mat_first_origin(d, 1) == Some((1int, 1int)));
        assert(mat_first_origin(d, 0) == Some((1int, 1int)));
    } else if d == spec_spiece() {
        assert(mat_rect(d)) by {
            assert(forall|r: int| 0 <= r < d.len() ==> #[trigger] d[r].len() == d[0].len());
        }
        let r0 = spec_spiece()[0];
        let r1 = spec_spiece()[1];
        assert(crate::game::piece::row_first_origin(r0, 3) is None);
        assert(crate::game::piece::row_first_origin(r0, 2) is None);
        assert(crate::game::piece::row_first_origin(r0, 1) is None);
        assert(crate::game::piece::row_first_origin(r0, 0) is None);
        assert(crate::game::piece::row_first_origin(r1, 1) == Some(1int));
        assert(crate::game::piece::row_first_origin(r1, 0) == Some(1int));
        assert(mat_first_origin(d, 1) == Some((1int, 1int)));
        assert(mat_first_origin(d, 0) == Some((1int, 1int)));
    } else {
        assert(mat_rect(d)) by {
            assert(forall|r: int| 0 <= r < d.len() ==> #[trigger] d[r].len() == d[0].len());
        }
        let r0 = spec_zpiece()[0];
        assert(crate::game::piece::row_first_origin(r0, 1) == Some(1int));
        assert(crate::game::piece::row_first_origin(r0, 0) == Some(1int));
        assert(mat_first_origin(d, 0) == Some((0int, 1int)));
    }
}

/// The banner definition is a proper rectangle too.
pub proof fn lemma_game_over_def()
    ensures
        mat_rect(spec_game_over()),
{
    let d = spec_game_over();
    assert(forall|r: int| 0 <= r < d.len() ==> #[trigger] d[r].len() == d[0].len());
}

/// A fresh bordered playfield is well formed.
pub proof fn lemma_fresh_level_wf(w: int, h: int)
    requires
        w >= 2,
        h >= 2,
    ensures
        level_wf(spec_fresh_level(w, h)),
{
    let lv = spec_fresh_level(w, h);
    assert(forall|r: int| 0 <= r < lv.len() ==> #[trigger] lv[r].len() == lv[0].len());
    assert(forall|r: int|
        0 <= r < lv.len() ==> ((#[trigger] lv[r][0]) is Indestructible && lv[r][lv[0].len()
            - 1] is Indestructible));
    assert(forall|c: int|
        0 <= c < lv[0].len() ==> (#[trigger] lv[lv.len() - 1][c]) is Indestructible);
}

impl<R: RandomSource> crate::game::tootris::Controller for EvilGameMaster<R> {
    /// The master's invariant: a well-formed game with rows pending only
    /// while clearing.
    open spec fn inv(&self) -> bool {
        self.wf() && self.rows_pending_ok()
    }

    fn process(&mut self) {
        self.process_game();
    }

    fn give_ui_broadcaster(&mut self, broadcaster: GameBroadcaster<Master2UICommunique>) {
        self.ui_slave = Some(broadcaster);
    }

    fn give_render_broadcaster(&mut self, broadcaster: GameBroadcaster<Master2RenderCommunique>) {
        self.render_slave = Some(broadcaster);
    }

    fn give_ui_receiver(&mut self, receiver: GameUpdateReceiver<UI2MasterCommunique>) {
        self.ui_listener = Some(receiver);
    }
}

/// The game master: the single owner of all game state, driven by repeated
/// calls of `process_game` and fed commands through its inbound channel.
pub struct EvilGameMaster<R> {
    pub level: GameMatrix,
    pub completed_rows: Vec<usize>,
    pub active_piece: Option<Piece>,
    pub speed: usize,
    pub score: usize,
    pub num_pieces: usize,
    pub piece_map: PieceDefinitions,
    pub piece_bucket: Vec<Piece>,
    pub sw: stopwatch::Stopwatch,
    pub state: GameState,
    pub render_slave: Option<GameBroadcaster<Master2RenderCommunique>>,
    pub ui_slave: Option<GameBroadcaster<Master2UICommunique>>,
    pub ui_listener: Option<GameUpdateReceiver<UI2MasterCommunique>>,
    pub rng: R,
}

impl<R: RandomSource> EvilGameMaster<R> {
    /// The game master's invariant: a well-formed bordered playfield, a speed
    /// level within its bounds, a registry holding the catalogue, a supply of
    /// spawn-ready pieces, a well-formed active piece, and a pending-rows
    /// list that is strictly increasing, in range, made of complete rows, and
    /// empty outside the row-clearing state.
    pub open spec fn wf(self) -> bool {
        &&& level_wf(rows_view(self.level))
        &&& 1 <= self.speed <= 99
        &&& self.piece_map.wf()
        &&& forall|i: int|
            0 <= i < self.piece_bucket@.len() ==> bucket_piece_ok(
                #[trigger] self.piece_bucket@[i],
                rows_view(self.level)[0].len() as int,
            )
        &&& self.active_piece matches Some(p) ==> p.wf()
        &&& forall|i: int, j: int|
            0 <= i < j < self.completed_rows@.len() ==> #[trigger] self.completed_rows@[i]
                < #[trigger] self.completed_rows@[j]
        &&& forall|i: int|
            0 <= i < self.completed_rows@.len() ==> ((#[trigger] self.completed_rows@[i]) as int)
                < rows_view(self.level).len() && spec_row_complete(
                rows_view(self.level)[self.completed_rows@[i] as int],
            )
    }

    /// Rows pend clearance only while the machine is in the row-clearing
    /// state.
    pub open spec fn rows_pending_ok(self) -> bool {
        self.state != GameState::Tootris ==> self.completed_rows@.len() == 0
    }

    /// A fresh bordered row of width `x`.
    #[verifier::loop_isolation(false)]
    pub fn create_empty_row(x: usize) -> (r: Vec<GameBlock>)
        requires
            x >= 2,
        ensures
            r@ == spec_empty_row(x as int),
    {
        let mut row: Vec<GameBlock> = Vec::new();
        row.push(GameBlock::Indestructible);
        let mut i: usize = 1;
        while i < x - 1
            invariant
                1 <= i <= x - 1,
                row@.len() == i,
                row@[0] is Indestructible,
                forall|j: int| 0 < j < i ==> (#[trigger] row@[j]) is Empty,
            decreases x - 1 - i,
        {
            row.push(GameBlock::Empty);
            i = i + 1;
        }
        row.push(GameBlock::Indestructible);
        proof {
            assert(row@ =~= spec_empty_row(x as int));
        }
        row
    }

    /// A row of border cells only: the playfield floor.
    #[verifier::loop_isolation(false)]
    fn create_border_row(x: usize) -> (r: Vec<GameBlock>)
        ensures
            r@ == spec_border_row(x as int),
    {
        let mut row: Vec<GameBlock> = Vec::new();
        let mut i: usize = 0;
        while i < x
            invariant
                0 <= i <= x,
                row@.len() == i,
                forall|j: int| 0 <= j < i ==> (#[trigger] row@[j]) is Indestructible,
            decreases x - i,
        {
            row.push(GameBlock::Indestructible);
            i = i + 1;
        }
        proof {
            assert(row@ =~= spec_border_row(x as int));
        }
        row
    }

    /// A stack of `y` fresh bordered rows of width `x`; the floor is laid by
    /// `create_level_boundaries`.
    #[verifier::loop_isolation(false)]
    pub fn create_level(x: usize, y: usize) -> (r: Vec<Vec<GameBlock>>)
        requires
            x >= 2,
        ensures
            rows_view(r).len() == y,
            forall|i: int| 0 <= i < y ==> rows_view(r)[i] == spec_empty_row(x as int),
    {
        let mut level: Vec<Vec<GameBlock>> = Vec::new();
        let mut rows: usize = 0;
        while rows < y
            invariant
                0 <= rows <= y,
                level@.len() == rows,
                forall|i: int| 0 <= i < rows ==> (#[trigger] level@[i])@ == spec_empty_row(
                    x as int,
                ),
            decreases y - rows,
        {
            level.push(Self::create_empty_row(x));
            rows = rows + 1;
        }
        level
    }

    /// Lays the playfield frame: border cells down both sides of every row
    /// and across the bottom row, every other cell empty.
    #[verifier::loop_isolation(false)]
    fn create_level_boundaries(&mut self)
        requires
            rows_view(old(self).level).len() >= 1,
            rows_view(old(self).level)[0].len() >= 2,
        ensures
            rows_view(final(self).level) == spec_fresh_level(
                rows_view(old(self).level)[0].len() as int,
                rows_view(old(self).level).len() as int,
            ),
            final(self).completed_rows == old(self).completed_rows,
            final(self).active_piece == old(self).active_piece,
            final(self).speed == old(self).speed,
            final(self).score == old(self).score,
            final(self).num_pieces == old(self).num_pieces,
            final(self).piece_map == old(self).piece_map,
            final(self).piece_bucket == old(self).piece_bucket,
            final(self).sw == old(self).sw,
            final(self).state == old(self).state,
            final(self).render_slave == old(self).render_slave,
            final(self).ui_slave == old(self).ui_slave,
            final(self).ui_listener == old(self).ui_listener,
            final(self).rng == old(self).rng,
    {
        let ghost w = rows_view(old(self).level)[0].len() as int;
        let ghost h = rows_view(old(self).level).len() as int;
        let height = self.level.len();
        let width = self.level[0].len();
        let mut fresh: Vec<Vec<GameBlock>> = Vec::new();
        let mut y: usize = 0;
        while y < height
            invariant
                0 <= y <= h,
                fresh@.len() == y,
                forall|i: int|
                    0 <= i < y ==> (#[trigger] fresh@[i])@ == (if i == h - 1 {
                        spec_border_row(w)
                    } else {
                        spec_empty_row(w)
                    }),
            decreases h - y,
        {
            if y == height - 1 {
                fresh.push(Self::create_border_row(width));
            } else {
                fresh.push(Self::create_empty_row(width));
            }
            y = y + 1;
        }
        self.level = fresh;
        proof {
            assert(rows_view(self.level) =~~= spec_fresh_level(w, h));
        }
    }

    /// Builds a master for a fresh game: a blank bordered playfield of the
    /// given size, the optional starting piece, an empty supply, score zero,
    /// the lowest speed, and the Start state. The randomness capability for
    /// the piece supply is injected so a game can be driven by the
    /// thread-local generator and a test by a seeded one.
    pub fn new(
        height: usize,
        width: usize,
        initial_piece: Option<Piece>,
        render_slave: Option<GameBroadcaster<Master2RenderCommunique>>,
        ui_slave: Option<GameBroadcaster<Master2UICommunique>>,
        ui_listener: Option<GameUpdateReceiver<UI2MasterCommunique>>,
        rng: R,
    ) -> (s: Self)
        requires
            width >= 2,
            height >= 2,
            initial_piece matches Some(p) ==> p.wf(),
        ensures
            s.wf(),
            rows_view(s.level) == spec_fresh_level(width as int, height as int),
            s.completed_rows@.len() == 0,
            s.active_piece == initial_piece,
            s.speed == 1,
            s.score == 0,
            s.num_pieces == 0,
            s.piece_bucket@.len() == 0,
            s.state == GameState::Start,
            s.render_slave == render_slave,
            s.ui_slave == ui_slave,
            s.ui_listener == ui_listener,
    {
        let mut s = EvilGameMaster {
            level: Self::create_level(width, height),
            completed_rows: Vec::new(),
            active_piece: initial_piece,
            speed: 1,
            score: 0,
            num_pieces: 0,
            piece_map: PieceDefinitions::new(),
            piece_bucket: Vec::new(),
            sw: stopwatch_new(),
            state: GameState::Start,
            render_slave,
            ui_slave,
            ui_listener,
            rng,
        };
        s.create_level_boundaries();
        proof {
            lemma_fresh_level_wf(width as int, height as int);
        }
        s
    }
}


/// A piece after a committed move to `nl`: the old location is kept for one
/// level of rollback.
pub open spec fn moved_piece(p: Piece, nl: Point) -> Piece {
    Piece { location: nl, rollback_location: p.location, ..p }
}

/// A piece after a blocked move: the position is unchanged and the rollback
/// slot holds it.
pub open spec fn blocked_piece(p: Piece) -> Piece {
    Piece { rollback_location: p.location, ..p }
}

impl<R: RandomSource> EvilGameMaster<R> {
    /// Everything but the active piece is unchanged.
    pub open spec fn eq_except_active(a: Self, b: Self) -> bool {
        &&& b.level == a.level
        &&& b.completed_rows == a.completed_rows
        &&& b.speed == a.speed
        &&& b.score == a.score
        &&& b.num_pieces == a.num_pieces
        &&& b.piece_map == a.piece_map
        &&& b.piece_bucket == a.piece_bucket
        &&& b.sw == a.sw
        &&& b.state == a.state
        &&& b.render_slave == a.render_slave
        &&& b.ui_slave == a.ui_slave
        &&& b.ui_listener == a.ui_listener
        &&& b.rng == a.rng
    }

    /// The outcome of trying to move the active piece by (dx, dy): the move
    /// commits exactly when the target position collides with nothing and
    /// stays within the coordinate range; a blocked move leaves the position
    /// unchanged, with the rollback slot refreshed.
    pub open spec fn shift_rel(pre: Self, post: Self, dx: int, dy: int, r: bool) -> bool {
        &&& Self::eq_except_active(pre, post)
        &&& (pre.active_piece is None ==> r == true && post.active_piece is None)
        &&& (pre.active_piece matches Some(p) ==> {
            let lx = p.location.x + dx;
            let ly = p.location.y + dy;
            let coll = spec_colliding(
                rows_view(pre.level),
                p.matrix_view(),
                anchor_x_of(p.matrix_view(), lx),
                anchor_y_of(p.matrix_view(), ly),
            );
            &&& r == (!coll && 0 <= lx <= usize::MAX && 0 <= ly <= usize::MAX)
            &&& (r ==> post.active_piece == Some(
                moved_piece(p, (Point { x: lx as usize, y: ly as usize })),
            ))
            &&& (!r ==> post.active_piece == Some(blocked_piece(p)))
        })
    }

    /// The outcome of trying to rotate the active piece: the rotation commits
    /// exactly when the piece, rebuilt in the new orientation, collides with
    /// nothing at its current location; otherwise the one-level rollback
    /// restores the previous orientation and matrix.
    pub open spec fn rotate_rel(pre: Self, post: Self, rot: Rotation, r: bool) -> bool {
        &&& Self::eq_except_active(pre, post)
        &&& (pre.active_piece is None ==> r == true && post.active_piece is None)
        &&& (pre.active_piece matches Some(p) ==> {
            let o2 = rot.spec_perform(p.orientation);
            let m2 = spec_rotated(rows_view(p.definition), o2);
            let coll = spec_colliding(
                rows_view(pre.level),
                m2,
                anchor_x_of(m2, p.location.x as int),
                anchor_y_of(m2, p.location.y as int),
            );
            &&& r == !coll
            &&& post.active_piece matches Some(q)
            &&& (post.active_piece matches Some(q) ==> {
                &&& q.wf()
                &&& q.definition == p.definition
                &&& q.freeze_property == p.freeze_property
                &&& q.color == p.color
                &&& q.location == p.location
                &&& q.rollback_location == p.rollback_location
                &&& q.rollback_orientation == p.orientation
                &&& q.orientation == (if r {
                    o2
                } else {
                    p.orientation
                })
            })
        })
    }

    /// One attempted player move, dispatched to the collision engine.
    pub open spec fn move_outcome(pre: Self, post: Self, mv: PlayerMove, r: bool) -> bool {
        match mv {
            PlayerMove::StepDown => Self::shift_rel(pre, post, 0, 1, r),
            PlayerMove::StepLeft => Self::shift_rel(pre, post, -1, 0, r),
            PlayerMove::StepRight => Self::shift_rel(pre, post, 1, 0, r),
            PlayerMove::RotateForward => Self::rotate_rel(pre, post, Rotation::Forward, r),
            _ => r == false && post == pre,
        }
    }

    /// Tries to move the active piece down by `amount` rows. A blocked move
    /// is rolled back and reported as failure.
    fn vertical_move(&mut self, amount: usize) -> (r: bool)
        requires
            old(self).wf(),
        ensures
            final(self).wf(),
            Self::shift_rel(*old(self), *final(self), 0, amount as int, r),
    {
        let opt = self.active_piece.take();
        match opt {
            None => true,
            Some(mut piece) => {
                let fits = piece.location.y <= usize::MAX - amount;
                let coll = collides_at(
                    &self.level,
                    &piece.current_matrix,
                    piece.location.x as i128,
                    piece.location.y as i128 + amount as i128,
                );
                if coll || !fits {
                    let cur = piece.location;
                    piece.move_to(cur);
                    self.active_piece = Some(piece);
                    false
                } else {
                    let new_location = Point { x: piece.location.x, y: piece.location.y + amount };
                    piece.move_to(new_location);
                    self.active_piece = Some(piece);
                    true
                }
            }
        }
    }

    /// Tries to move the active piece sideways by `amount` columns, left when
    /// `reverse` is set. A blocked move is rolled back and reported as
    /// failure.
    fn horizontal_move(&mut self, amount: usize, reverse: bool) -> (r: bool)
        requires
            old(self).wf(),
        ensures
            final(self).wf(),
            Self::shift_rel(
                *old(self),
                *final(self),
                if reverse {
                    -(amount as int)
                } else {
                    amount as int
                },
                0,
                r,
            ),
    {
        let opt = self.active_piece.take();
        match opt {
            None => true,
            Some(mut piece) => {
                let fits = if reverse {
                    piece.location.x >= amount
                } else {
                    piece.location.x <= usize::MAX - amount
                };
                let lx: i128 = if reverse {
                    piece.location.x as i128 - amount as i128
                } else {
                    piece.location.x as i128 + amount as i128
                };
                let coll = collides_at(
                    &self.level,
                    &piece.current_matrix,
                    lx,
                    piece.location.y as i128,
                );
                if coll || !fits {
                    let cur = piece.location;
                    piece.move_to(cur);
                    self.active_piece = Some(piece);
                    false
                } else {
                    let new_location = Point {
                        x: if reverse {
                            piece.location.x - amount
                        } else {
                            piece.location.x + amount
                        },
                        y: piece.location.y,
                    };
                    piece.move_to(new_location);
                    self.active_piece = Some(piece);
                    true
                }
            }
        }
    }

    /// Tries to rotate the active piece; a rotation into a collision is
    /// rolled back through the one-level orientation rollback and reported as
    /// failure.
    fn rotate_active_piece(&mut self, rot: &Rotation) -> (r: bool)
        requires
            old(self).wf(),
        ensures
            final(self).wf(),
            Self::rotate_rel(*old(self), *final(self), *rot, r),
    {
        let opt = self.active_piece.take();
        match opt {
            None => true,
            Some(mut piece) => {
                piece.rotate(rot);
                let coll = collides_at(
                    &self.level,
                    &piece.current_matrix,
                    piece.location.x as i128,
                    piece.location.y as i128,
                );
                if coll {
                    piece.rollback_rotation();
                    self.active_piece = Some(piece);
                    false
                } else {
                    self.active_piece = Some(piece);
                    true
                }
            }
        }
    }

    /// Advances the active piece one row down; failure means the piece could
    /// not fall and is about to freeze.
    fn advance_active_piece(&mut self) -> (r: bool)
        requires
            old(self).wf(),
        ensures
            final(self).wf(),
            old(self).active_piece is Some ==> Self::shift_rel(*old(self), *final(self), 0, 1, r),
            old(self).active_piece is None ==> r == false && *final(self) == *old(self),
    {
        if self.active_piece.is_some() {
            self.vertical_move(1)
        } else {
            false
        }
    }

    /// Applies one player move. A blocked move is absorbed: the piece stays,
    /// the rollback slot is refreshed, and failure is reported.
    pub fn process_move(&mut self, mov: &PlayerMove) -> (r: bool)
        requires
            old(self).wf(),
        ensures
            final(self).wf(),
            Self::move_outcome(*old(self), *final(self), *mov, r),
    {
        match mov {
            PlayerMove::RotateForward => self.rotate_active_piece(&Rotation::Forward),
            PlayerMove::StepLeft => self.horizontal_move(1, true),
            PlayerMove::StepRight => self.horizontal_move(1, false),
            PlayerMove::StepDown => self.vertical_move(1),
            _ => false,
        }
    }
}


impl<R: RandomSource> EvilGameMaster<R> {
    /// Reports a playfield integrity warning on the status channel; gameplay
    /// goes on. With no listener attached the warning is dropped.
    fn ui_warn(&self, msg: &'static str) {
        if let Some(slave) = &self.ui_slave {
            let failed = channel_send(
                &slave.channel_out,
                Master2UICommunique {
                    comm_type: Communique::Info(msg),
                    state: None,
                    score: None,
                },
            );
            let _ = failed;
        }
    }

    /// Scans the playfield and appends the index of every complete row to the
    /// pending-rows list, in increasing order; malformed rows are reported on
    /// the status channel and never credited.
    #[verifier::loop_isolation(false)]
    pub fn find_completed_rows(&mut self)
        ensures
            idx_view(final(self).completed_rows@) == idx_view(old(self).completed_rows@)
                + complete_rows_from(rows_view(old(self).level), 0),
            final(self).level == old(self).level,
            final(self).active_piece == old(self).active_piece,
            final(self).speed == old(self).speed,
            final(self).score == old(self).score,
            final(self).num_pieces == old(self).num_pieces,
            final(self).piece_map == old(self).piece_map,
            final(self).piece_bucket == old(self).piece_bucket,
            final(self).sw == old(self).sw,
            final(self).state == old(self).state,
            final(self).render_slave == old(self).render_slave,
            final(self).ui_slave == old(self).ui_slave,
            final(self).ui_listener == old(self).ui_listener,
            final(self).rng == old(self).rng,
    {
        let ghost lvv = rows_view(self.level);
        let ghost base = idx_view(self.completed_rows@);
        let mut row: usize = 0;
        while row < self.level.len()
            invariant
                0 <= row <= lvv.len(),
                idx_view(self.completed_rows@) + complete_rows_from(lvv, row as int) == base
                    + complete_rows_from(lvv, 0),
                self.level == old(self).level,
                self.active_piece == old(self).active_piece,
                self.speed == old(self).speed,
                self.score == old(self).score,
                self.num_pieces == old(self).num_pieces,
                self.piece_map == old(self).piece_map,
                self.piece_bucket == old(self).piece_bucket,
                self.sw == old(self).sw,
                self.state == old(self).state,
                self.render_slave == old(self).render_slave,
                self.ui_slave == old(self).ui_slave,
                self.ui_listener == old(self).ui_listener,
                self.rng == old(self).rng,
            decreases lvv.len() - row,
        {
            let ghost pre = idx_view(self.completed_rows@);
            match row_completion(&self.level[row]) {
                RowScan::Complete => {
                    self.completed_rows.push(row);
                    proof {
                        assert(idx_view(self.completed_rows@) =~= pre + seq![row as int]);
                        assert(complete_rows_from(lvv, row as int) == seq![row as int]
                            + complete_rows_from(lvv, row as int + 1));
                        assert(idx_view(self.completed_rows@) + complete_rows_from(
                            lvv,
                            row as int + 1,
                        ) =~= pre + complete_rows_from(lvv, row as int));
                    }
                }
                RowScan::Malformed => {
                    self.ui_warn("Invalid state: piece block outside row borders");
                    proof {
                        assert(complete_rows_from(lvv, row as int) == complete_rows_from(
                            lvv,
                            row as int + 1,
                        ));
                    }
                }
                RowScan::Incomplete => {
                    proof {
                        assert(complete_rows_from(lvv, row as int) == complete_rows_from(
                            lvv,
                            row as int + 1,
                        ));
                    }
                }
            }
            row = row + 1;
        }
        proof {
            assert(complete_rows_from(lvv, row as int) == Seq::<int>::empty());
            assert(idx_view(self.completed_rows@) =~= idx_view(self.completed_rows@)
                + complete_rows_from(lvv, row as int));
        }
    }

    /// Whether any of the given absolute points collides: out of the
    /// playfield's bounds, or on a cell that is not Empty.
    #[verifier::loop_isolation(false)]
    pub fn is_point_colliding(&self, bounds: Vec<Point>) -> (r: bool)
        requires
            mat_rect(rows_view(self.level)),
        ensures
            r == exists|i: int|
                0 <= i < bounds@.len() && point_bad(
                    rows_view(self.level),
                    (#[trigger] bounds@[i]).x as int,
                    bounds@[i].y as int,
                ),
    {
        let ghost lvv = rows_view(self.level);
        let mut i: usize = 0;
        while i < bounds.len()
            invariant
                0 <= i <= bounds@.len(),
                forall|j: int|
                    0 <= j < i ==> !point_bad(
                        lvv,
                        (#[trigger] bounds@[j]).x as int,
                        bounds@[j].y as int,
                    ),
            decreases bounds@.len() - i,
        {
            let point = bounds[i];
            if point.y >= self.level.len() {
                return true;
            }
            if point.x >= self.level[0].len() {
                return true;
            }
            proof {
                assert(lvv[point.y as int].len() == lvv[0].len());
            }
            let occupied = match &self.level[point.y][point.x] {
                GameBlock::Empty => false,
                _ => true,
            };
            if occupied {
                return true;
            }
            i = i + 1;
        }
        false
    }
}


impl<R: RandomSource> EvilGameMaster<R> {
    /// Whether the piece's x-boundary points collide with the playfield.
    pub(crate) fn is_xcolliding(&self, piece: &Piece, point_override: Option<&Point>) -> (r: bool)
        requires
            mat_rect(rows_view(self.level)),
            mat_rect(piece.matrix_view()),
            piece.anchor_x(point_override) >= 0,
            piece.anchor_y(point_override) >= 0,
            piece.anchor_x(point_override) + piece.matrix_view()[0].len() <= usize::MAX,
            piece.anchor_y(point_override) + piece.matrix_view().len() <= usize::MAX,
        ensures
            r == spec_xcolliding(
                rows_view(self.level),
                piece.matrix_view(),
                piece.anchor_x(point_override),
                piece.anchor_y(point_override),
            ),
    {
        let ghost lvv = rows_view(self.level);
        let ghost mv = piece.matrix_view();
        let ghost ax = piece.anchor_x(point_override);
        let ghost ay = piece.anchor_y(point_override);
        let bounds = piece.find_xboundaries(point_override);
        let ghost bs = bounds@;
        let r = self.is_point_colliding(bounds);
        proof {
            if r {
                let i = choose|i: int|
                    0 <= i < bs.len() && point_bad(lvv, (#[trigger] bs[i]).x as int, bs[i].y as int);
                assert(crate::game::piece::is_xboundary(mv, ax, ay, bs[i].x as int, bs[i].y as int));
                assert(spec_xcolliding(lvv, mv, ax, ay));
            }
            if spec_xcolliding(lvv, mv, ax, ay) {
                let (px, py) = choose|px: int, py: int| #[trigger]
                    crate::game::piece::is_xboundary(mv, ax, ay, px, py) && point_bad(lvv, px, py);
                let r2 = choose|r2: int|
                    0 <= r2 < mv.len() && py == ay + r2 && (((
                    #[trigger] crate::game::piece::row_first_nonblank(mv[r2], 0)) matches Some(c)
                        && px == ax + c) || (crate::game::piece::row_last_nonblank(
                        mv[r2],
                        mv[r2].len() - 1,
                    ) matches Some(c) && px == ax + c));
                crate::game::piece::lemma_row_first_nonblank_bounds(mv[r2], 0);
                crate::game::piece::lemma_row_last_nonblank_bounds(mv[r2], mv[r2].len() - 1);
                assert(mv[r2].len() == mv[0].len());
                let pt = Point { x: px as usize, y: py as usize };
                if crate::game::piece::row_first_nonblank(mv[r2], 0) is Some && px == ax
                    + crate::game::piece::row_first_nonblank(mv[r2], 0)->Some_0 {
                    assert(bs.contains(pt));
                } else {
                    assert(crate::game::piece::row_last_nonblank(mv[r2], mv[r2].len() - 1) is Some
                        && px == ax + crate::game::piece::row_last_nonblank(
                        mv[r2],
                        mv[r2].len() - 1,
                    )->Some_0);
                    assert(bs.contains(pt));
                }
                let i = choose|i: int| 0 <= i < bs.len() && bs[i] == pt;
                assert(point_bad(lvv, (bs[i]).x as int, bs[i].y as int));
                assert(r);
            }
        }
        r
    }

    /// Whether the piece's y-boundary points collide with the playfield.
    pub(crate) fn ycolliding(&self, piece: &Piece, point_override: Option<&Point>) -> (r: bool)
        requires
            mat_rect(rows_view(self.level)),
            mat_rect(piece.matrix_view()),
            piece.anchor_x(point_override) >= 0,
            piece.anchor_y(point_override) >= 0,
            piece.anchor_x(point_override) + piece.matrix_view()[0].len() <= usize::MAX,
            piece.anchor_y(point_override) + piece.matrix_view().len() <= usize::MAX,
        ensures
            r == spec_ycolliding(
                rows_view(self.level),
                piece.matrix_view(),
                piece.anchor_x(point_override),
                piece.anchor_y(point_override),
            ),
    {
        let ghost lvv = rows_view(self.level);
        let ghost mv = piece.matrix_view();
        let ghost ax = piece.anchor_x(point_override);
        let ghost ay = piece.anchor_y(point_override);
        let bounds = piece.find_yboundaries(point_override);
        let ghost bs = bounds@;
        let r = self.is_point_colliding(bounds);
        proof {
            if r {
                let i = choose|i: int|
                    0 <= i < bs.len() && point_bad(lvv, (#[trigger] bs[i]).x as int, bs[i].y as int);
                assert(crate::game::piece::is_yboundary(mv, ax, ay, bs[i].x as int, bs[i].y as int));
                assert(spec_ycolliding(lvv, mv, ax, ay));
            }
            if spec_ycolliding(lvv, mv, ax, ay) {
                let (px, py) = choose|px: int, py: int| #[trigger]
                    crate::game::piece::is_yboundary(mv, ax, ay, px, py) && point_bad(lvv, px, py);
                let c2 = choose|c2: int|
                    0 <= c2 < mv[0].len() && px == ax + c2 && ((
                    #[trigger] crate::game::piece::col_lowest_nonblank(
                        mv,
                        c2,
                        mv.len() - 1,
                    )) matches Some(rr) && py == ay + rr);
                crate::game::piece::lemma_col_lowest_nonblank_bounds(mv, c2, mv.len() - 1);
                let pt = Point { x: px as usize, y: py as usize };
                assert(bs.contains(pt));
                let i = choose|i: int| 0 <= i < bs.len() && bs[i] == pt;
                assert(point_bad(lvv, (bs[i]).x as int, bs[i].y as int));
                assert(r);
            }
        }
        r
    }
}


/// b to the power e.
pub open spec fn pow_nat(b: nat, e: nat) -> nat
    decreases e,
{
    if e == 0 {
        1
    } else {
        b * pow_nat(b, (e - 1) as nat)
    }
}

/// A value clamped to what a usize can hold.
pub open spec fn cap_usize(v: int) -> int {
    if v > usize::MAX as int {
        usize::MAX as int
    } else {
        v
    }
}

/// The score a clearance earns: clearing n rows on an interior width w adds
/// (n * w) to the power n, a superlinear bonus for multi-row clears; clearing
/// nothing earns nothing.
pub open spec fn spec_score_gain(n: int, w_interior: int) -> int {
    if n <= 0 {
        0
    } else {
        pow_nat((n * w_interior) as nat, n as nat) as int
    }
}

proof fn lemma_pow_pos(b: nat, e: nat)
    requires
        b >= 1,
    ensures
        pow_nat(b, e) >= 1,
    decreases e,
{
    if e > 0 {
        lemma_pow_pos(b, (e - 1) as nat);
        assert(b * pow_nat(b, (e - 1) as nat) >= 1 * 1) by (nonlinear_arith)
            requires
                b >= 1,
                pow_nat(b, (e - 1) as nat) >= 1,
        ;
    }
}

proof fn lemma_pow_one(e: nat)
    ensures
        pow_nat(1, e) == 1,
    decreases e,
{
    if e > 0 {
        lemma_pow_one((e - 1) as nat);
    }
}

proof fn lemma_pow_zero(e: nat)
    requires
        e >= 1,
    ensures
        pow_nat(0, e) == 0,
    decreases e,
{
    if e > 1 {
        lemma_pow_zero((e - 1) as nat);
    }
}

/// Multiplication that stops at the largest usize.
fn sat_mul(a: usize, b: usize) -> (r: usize)
    ensures
        r as int == cap_usize(a as int * b as int),
{
    if b == 0 {
        0
    } else {
        let q = usize::MAX / b;
        if a <= q {
            proof {
                assert(a as int * b as int <= usize::MAX as int) by (nonlinear_arith)
                    requires
                        0 < b as int,
                        a as int <= usize::MAX as int / b as int,
                ;
            }
            a * b
        } else {
            proof {
                assert(a as int * b as int > usize::MAX as int) by (nonlinear_arith)
                    requires
                        0 < b as int,
                        a as int > usize::MAX as int / b as int,
                ;
            }
            usize::MAX
        }
    }
}

/// Addition that stops at the largest usize.
fn sat_add(a: usize, b: usize) -> (r: usize)
    ensures
        r as int == cap_usize(a as int + b as int),
{
    if a <= usize::MAX - b {
        a + b
    } else {
        usize::MAX
    }
}

/// Exponentiation that stops at the largest usize.
#[verifier::loop_isolation(false)]
fn sat_pow(b: usize, e: usize) -> (r: usize)
    ensures
        r as int == cap_usize(pow_nat(b as nat, e as nat) as int),
{
    let mut acc: usize = 1;
    let mut i: usize = 0;
    while i < e
        invariant
            0 <= i <= e,
            acc as int == cap_usize(pow_nat(b as nat, i as nat) as int),
        decreases e - i,
    {
        let ghost p = pow_nat(b as nat, i as nat);
        acc = sat_mul(b, acc);
        proof {
            assert(pow_nat(b as nat, (i + 1) as nat) == b as nat * p);
            if p > usize::MAX as nat {
                if b == 0 {
                    assert(p == pow_nat(0, i as nat));
                    assert(i > 0);
                    lemma_pow_zero(i as nat);
                    assert(false);
                } else if b == 1 {
                    lemma_pow_one(i as nat);
                    assert(false);
                } else {
                    assert(b as int * p as int > usize::MAX as int) by (nonlinear_arith)
                        requires
                            b as int >= 1,
                            p as int > usize::MAX as int,
                    ;
                    assert(b as int * usize::MAX as int >= usize::MAX as int) by (nonlinear_arith)
                        requires
                            b as int >= 1,
                    ;
                }
            } else {
                assert(acc as int == cap_usize(b as int * p as int));
            }
        }
        i = i + 1;
    }
    acc
}

/// The rows of `lv` from index `i` down whose index is not in `cr`, in their
/// original order.
pub open spec fn remaining_rows(lv: Seq<Seq<GameBlock>>, cr: Seq<int>, i: int) -> Seq<
    Seq<GameBlock>,
>
    decreases lv.len() - i,
    when 0 <= i <= lv.len()
{
    if i >= lv.len() {
        Seq::empty()
    } else if cr.contains(i) {
        remaining_rows(lv, cr, i + 1)
    } else {
        seq![lv[i]] + remaining_rows(lv, cr, i + 1)
    }
}

/// When the bottom row is not cleared, the remaining rows end with it.
proof fn lemma_remaining_last(lv: Seq<Seq<GameBlock>>, cr: Seq<int>, i: int)
    requires
        0 <= i <= lv.len() - 1,
        !cr.contains(lv.len() - 1),
    ensures
        remaining_rows(lv, cr, i).len() >= 1,
        remaining_rows(lv, cr, i).last() == lv[lv.len() - 1],
    decreases lv.len() - i,
{
    if i == lv.len() - 1 {
        assert(remaining_rows(lv, cr, i) == seq![lv[i]] + remaining_rows(lv, cr, i + 1));
        assert(remaining_rows(lv, cr, i + 1) == Seq::<Seq<GameBlock>>::empty());
        assert(remaining_rows(lv, cr, i) =~= seq![lv[i]]);
    } else {
        lemma_remaining_last(lv, cr, i + 1);
        if cr.contains(i) {
        } else {
            let rest = remaining_rows(lv, cr, i + 1);
            assert((seq![lv[i]] + rest).last() == rest.last());
        }
    }
}


impl<R: RandomSource> EvilGameMaster<R> {
    /// Publishes the current state and score on the status channel; reports
    /// whether the send failed. The master itself is untouched.
    fn send_state_to_ui(&mut self) -> (r: bool)
        ensures
            *final(self) == *old(self),
            old(self).ui_slave is None ==> r == false,
    {
        if let Some(slave) = &self.ui_slave {
            channel_send(
                &slave.channel_out,
                Master2UICommunique {
                    comm_type: Communique::Update,
                    state: Some(self.state),
                    score: Some(self.score),
                },
            )
        } else {
            false
        }
    }

    /// One row-clearing tick: pays out the clearance score, raises the speed
    /// level capped at 99, rebuilds the playfield with one fresh empty row on
    /// top per cleared row and every remaining row kept in order, empties the
    /// pending-rows list, and returns to Playing.
    #[verifier::loop_isolation(false)]
    pub fn apply_row_clear(&mut self)
        requires
            old(self).wf(),
            old(self).state == GameState::Tootris,
        ensures
            final(self).wf(),
            final(self).state == GameState::Playing,
            final(self).completed_rows@.len() == 0,
            final(self).score as int == cap_usize(
                old(self).score + spec_score_gain(
                    old(self).completed_rows@.len() as int,
                    rows_view(old(self).level)[0].len() - 2,
                ),
            ),
            final(self).speed as int == if old(self).speed + old(self).completed_rows@.len() >= 99 {
                99int
            } else {
                old(self).speed + old(self).completed_rows@.len()
            },
            rows_view(final(self).level).len() == rows_view(old(self).level).len(),
            rows_view(final(self).level) == Seq::new(
                old(self).completed_rows@.len() as nat,
                |q: int| spec_empty_row(rows_view(old(self).level)[0].len() as int),
            ) + remaining_rows(
                rows_view(old(self).level),
                idx_view(old(self).completed_rows@),
                0,
            ),
            final(self).active_piece == old(self).active_piece,
            final(self).num_pieces == old(self).num_pieces,
            final(self).piece_map == old(self).piece_map,
            final(self).piece_bucket == old(self).piece_bucket,
            final(self).sw == old(self).sw,
            final(self).render_slave == old(self).render_slave,
            final(self).ui_slave == old(self).ui_slave,
            final(self).ui_listener == old(self).ui_listener,
            final(self).rng == old(self).rng,
    {
        let ghost lvv = rows_view(old(self).level);
        let ghost cr = idx_view(old(self).completed_rows@);
        self.send_state_to_ui();
        let n = self.completed_rows.len();
        let h = self.level.len();
        let w = self.level[0].len();
        // Score: clearing n rows on interior width w - 2 earns (n*(w-2))^n.
        if n > 0 {
            let base = sat_mul(n, w - 2);
            let gain = sat_pow(base, n);
            let ghost pw = pow_nat((n as int * (w as int - 2)) as nat, n as nat);
            proof {
                if n as int * (w as int - 2) > usize::MAX as int {
                    // The base already overflows; the power is at least the base.
                    assert(base as int == usize::MAX as int);
                    lemma_pow_base_bound((n as int * (w as int - 2)) as nat, n as nat);
                    assert(pw > usize::MAX as nat);
                    lemma_pow_base_bound(usize::MAX as nat, n as nat);
                }
            }
            self.score = sat_add(self.score, gain);
            proof {
                assert(self.score as int == cap_usize(
                    old(self).score + spec_score_gain(n as int, w as int - 2),
                ));
            }
        }
        // Speed: raised by the number of cleared rows, capped at 99.
        if n >= 99 {
            self.speed = 99;
        } else if self.speed + n >= 99 {
            self.speed = 99;
        } else {
            self.speed = self.speed + n;
        }
        // Rebuild: n fresh empty rows on top, every non-cleared row after
        // them in its original order.
        let mut new_matrix: Vec<Vec<GameBlock>> = Vec::new();
        let mut i: usize = 0;
        while i < n
            invariant
                0 <= i <= n,
                new_matrix@.len() == i,
                forall|j: int| 0 <= j < i ==> (#[trigger] new_matrix@[j])@ == spec_empty_row(
                    w as int,
                ),
            decreases n - i,
        {
            new_matrix.push(Self::create_empty_row(w));
            i = i + 1;
        }
        proof {
            assert(rows_view(new_matrix) =~~= Seq::new(
                n as nat,
                |q: int| spec_empty_row(w as int),
            ));
        }
        let mut k: usize = 0;
        let mut y: usize = 0;
        while y < h
            invariant
                0 <= y <= h,
                0 <= k <= n,
                forall|j: int| 0 <= j < k ==> cr[j] < y,
                forall|j: int| k <= j < n ==> cr[j] >= y,
                new_matrix@.len() == n + y - k,
                rows_view(new_matrix) + remaining_rows(lvv, cr, y as int) == Seq::new(
                    n as nat,
                    |q: int| spec_empty_row(w as int),
                ) + remaining_rows(lvv, cr, 0),
                forall|j: int|
                    0 <= j < new_matrix@.len() ==> (#[trigger] rows_view(new_matrix)[j]).len()
                        == w && rows_view(new_matrix)[j][0] is Indestructible && rows_view(
                        new_matrix,
                    )[j][w - 1] is Indestructible,
            decreases h - y,
        {
            let skip = k < n && self.completed_rows[k] == y;
            proof {
                if skip {
                    assert(cr[k as int] == y as int);
                    assert(cr.contains(y as int));
                }
                if !skip && cr.contains(y as int) {
                    let j = choose|j: int| 0 <= j < cr.len() && cr[j] == y as int;
                    assert(j >= k);
                    assert(k < n);
                    if j > k {
                        assert(cr[k as int] < cr[j]);
                    }
                    assert(false);
                }
            }
            if skip {
                k = k + 1;
                proof {
                    assert(remaining_rows(lvv, cr, y as int) == remaining_rows(
                        lvv,
                        cr,
                        y as int + 1,
                    ));
                }
            } else {
                let ghost before = rows_view(new_matrix);
                new_matrix.push(crate::game::tootris::copy_row(&self.level[y]));
                proof {
                    assert(rows_view(new_matrix) =~~= before + seq![lvv[y as int]]);
                    assert(remaining_rows(lvv, cr, y as int) == seq![lvv[y as int]]
                        + remaining_rows(lvv, cr, y as int + 1));
                    assert(rows_view(new_matrix) + remaining_rows(lvv, cr, y as int + 1) =~~= before
                        + remaining_rows(lvv, cr, y as int));
                    assert(lvv[y as int].len() == lvv[0].len());
                }
            }
            y = y + 1;
        }
        proof {
            if k < n {
                assert(cr[k as int] >= h);
                assert((old(self).completed_rows@[k as int] as int) < lvv.len());
                assert(false);
            }
            assert(remaining_rows(lvv, cr, y as int) == Seq::<Seq<GameBlock>>::empty());
            assert(rows_view(new_matrix) =~~= Seq::new(
                n as nat,
                |q: int| spec_empty_row(w as int),
            ) + remaining_rows(lvv, cr, 0));
        }
        self.level = new_matrix;
        self.completed_rows = Vec::new();
        self.state = GameState::Playing;
        self.send_state_to_ui();
        proof {
            // The rebuilt playfield is well formed: the fresh rows carry the
            // side borders, the kept rows carried them already, and the
            // bottom border row is never complete, so it stays at the bottom.
            let nv = rows_view(self.level);
            assert(!spec_row_complete(lvv[lvv.len() - 1])) by {
                assert(lvv[lvv.len() - 1][1] is Indestructible);
            }
            assert(!cr.contains(lvv.len() - 1)) by {
                if cr.contains(lvv.len() - 1) {
                    let j = choose|j: int| 0 <= j < cr.len() && cr[j] == lvv.len() - 1;
                    assert(spec_row_complete(lvv[old(self).completed_rows@[j] as int]));
                }
            }
            lemma_remaining_last(lvv, cr, 0);
            assert(nv[nv.len() - 1] == remaining_rows(lvv, cr, 0).last());
            assert(forall|c: int|
                0 <= c < nv[0].len() ==> (#[trigger] nv[nv.len() - 1][c]) is Indestructible);
        }
    }
}

/// The power of a base of at least one is at least the base.
proof fn lemma_pow_base_bound(b: nat, e: nat)
    requires
        e >= 1,
        b >= 1,
    ensures
        pow_nat(b, e) >= b,
    decreases e,
{
    if e == 1 {
        assert(pow_nat(b, 1) == b * pow_nat(b, 0));
    } else {
        lemma_pow_base_bound(b, (e - 1) as nat);
        assert(b * pow_nat(b, (e - 1) as nat) >= 1 * pow_nat(b, (e - 1) as nat))
            by (nonlinear_arith)
            requires
                b >= 1,
        ;
    }
}


impl<R: RandomSource> EvilGameMaster<R> {
    /// Everything but the piece supply, the active piece and the randomness
    /// state is unchanged.
    pub open spec fn eq_except_supply(a: Self, b: Self) -> bool {
        &&& b.level == a.level
        &&& b.completed_rows == a.completed_rows
        &&& b.speed == a.speed
        &&& b.score == a.score
        &&& b.num_pieces == a.num_pieces
        &&& b.piece_map == a.piece_map
        &&& b.sw == a.sw
        &&& b.state == a.state
        &&& b.render_slave == a.render_slave
        &&& b.ui_slave == a.ui_slave
        &&& b.ui_listener == a.ui_listener
    }

    /// Draws one of the six piece colours.
    fn random_color(&mut self) -> (c: BlockColor)
        ensures
            Self::eq_except_supply(*old(self), *final(self)),
            final(self).active_piece == old(self).active_piece,
            final(self).piece_bucket == old(self).piece_bucket,
    {
        let rand_num = self.rng.next_below(6);
        match rand_num {
            0 => BlockColor::Blue,
            1 => BlockColor::Green,
            2 => BlockColor::Cyan,
            3 => BlockColor::White,
            4 => BlockColor::Magenta,
            _ => BlockColor::Yellow,
        }
    }

    /// Draws the registry name of one of the seven playable shapes.
    fn random_piece_type(&mut self) -> (name: &'static str)
        ensures
            Self::eq_except_supply(*old(self), *final(self)),
            final(self).active_piece == old(self).active_piece,
            final(self).piece_bucket == old(self).piece_bucket,
            is_piece_name(name@),
            name@ == "line"@ || name@ == "square"@ || name@ == "podium"@ || name@ == "lpiece"@
                || name@ == "jpiece"@ || name@ == "spiece"@ || name@ == "zpiece"@,
    {
        let rand_num = self.rng.next_below(7);
        match rand_num {
            0 => "line",
            1 => "square",
            2 => "podium",
            3 => "lpiece",
            4 => "jpiece",
            5 => "spiece",
            _ => "zpiece",
        }
    }

    /// Tops the supply up to its full size with freshly drawn pieces, each a
    /// random playable shape in a random colour at the spawn point.
    #[verifier::loop_isolation(false)]
    fn fill_piece_bucket(&mut self)
        requires
            old(self).wf(),
        ensures
            final(self).wf(),
            Self::eq_except_supply(*old(self), *final(self)),
            final(self).active_piece == old(self).active_piece,
            final(self).piece_bucket@.len() == if old(self).piece_bucket@.len()
                < OPTION_BUCKET_MAX_SIZE as int {
                OPTION_BUCKET_MAX_SIZE as int
            } else {
                old(self).piece_bucket@.len() as int
            },
            forall|i: int|
                0 <= i < old(self).piece_bucket@.len() ==> #[trigger] final(self).piece_bucket@[i]
                    == old(self).piece_bucket@[i],
    {
        let ghost w = rows_view(self.level)[0].len() as int;
        while self.piece_bucket.len() < OPTION_BUCKET_MAX_SIZE
            invariant
                self.wf(),
                Self::eq_except_supply(*old(self), *self),
                self.active_piece == old(self).active_piece,
                old(self).piece_bucket@.len() <= self.piece_bucket@.len(),
                self.piece_bucket@.len() <= OPTION_BUCKET_MAX_SIZE as int
                    || self.piece_bucket@.len() == old(self).piece_bucket@.len(),
                forall|i: int|
                    0 <= i < old(self).piece_bucket@.len() ==> #[trigger] self.piece_bucket@[i]
                        == old(self).piece_bucket@[i],
            decreases OPTION_BUCKET_MAX_SIZE - self.piece_bucket@.len(),
        {
            let color = self.random_color();
            let name = self.random_piece_type();
            let spawn = Point { x: self.level[0].len() / 2, y: 1 };
            let def = self.piece_map.get_piece_def(name);
            proof {
                lemma_spawn_defs(rows_view(def.def));
            }
            let piece = Piece::of_type(def, color, spawn);
            proof {
                assert(bucket_piece_ok(piece, rows_view(self.level)[0].len() as int));
            }
            self.piece_bucket.push(piece);
        }
    }

    /// Takes the next piece from the supply, refilling it when it runs low,
    /// and installs it as the active piece. Reports whether the fresh piece's
    /// boundary points sit free of collision at the spawn point; a collision
    /// here is the game's normal end.
    fn next_piece(&mut self) -> (r: bool)
        requires
            old(self).wf(),
        ensures
            final(self).wf(),
            Self::eq_except_supply(*old(self), *final(self)),
            final(self).piece_bucket@.len() as int == (if old(self).piece_bucket@.len()
                < OPTION_BUCKET_MINIMUM_SIZE as int {
                OPTION_BUCKET_MAX_SIZE as int
            } else {
                old(self).piece_bucket@.len() as int
            }) - 1,
            final(self).active_piece matches Some(p) && bucket_piece_ok(
                p,
                rows_view(final(self).level)[0].len() as int,
            ),
            final(self).active_piece matches Some(p) ==> r == !(spec_xcolliding(
                rows_view(final(self).level),
                p.matrix_view(),
                p.anchor_x(None),
                p.anchor_y(None),
            ) || spec_ycolliding(
                rows_view(final(self).level),
                p.matrix_view(),
                p.anchor_x(None),
                p.anchor_y(None),
            )),
    {
        if self.piece_bucket.len() < OPTION_BUCKET_MINIMUM_SIZE {
            self.fill_piece_bucket();
        }
        let popped = self.piece_bucket.pop();
        let piece = match popped {
            Some(p) => p,
            None => {
                proof {
                    assert(false);
                }
                // Unreachable: the supply was just refilled.
                return false;
            }
        };
        proof {
            let ghost w = rows_view(self.level)[0].len() as int;
            assert(bucket_piece_ok(piece, w));
            lemma_spawn_defs(rows_view(piece.definition));
            assert(piece.matrix_view() == rows_view(piece.definition));
            assert(rows_view(self.level)[0] == self.level@[0]@);
            assert(self.level@[0].len() <= usize::MAX);
            assert(rows_view(self.level)[0].len() as int / 2 <= usize::MAX as int / 2);
        }
        let xcol = self.is_xcolliding(&piece, None);
        let ycol = self.ycolliding(&piece, None);
        self.active_piece = Some(piece);
        !(xcol || ycol)
    }
}


impl<R: RandomSource> EvilGameMaster<R> {
    /// Everything but the clock is unchanged.
    pub open spec fn same_but_sw(a: Self, b: Self) -> bool {
        &&& b.level == a.level
        &&& b.completed_rows == a.completed_rows
        &&& b.active_piece == a.active_piece
        &&& b.speed == a.speed
        &&& b.score == a.score
        &&& b.num_pieces == a.num_pieces
        &&& b.piece_map == a.piece_map
        &&& b.piece_bucket == a.piece_bucket
        &&& b.state == a.state
        &&& b.render_slave == a.render_slave
        &&& b.ui_slave == a.ui_slave
        &&& b.ui_listener == a.ui_listener
        &&& b.rng == a.rng
    }

    /// The state changed to `st`; everything else, the clock aside, is
    /// unchanged.
    pub open spec fn with_state_but_sw(a: Self, b: Self, st: GameState) -> bool {
        &&& b.state == st
        &&& b.level == a.level
        &&& b.completed_rows == a.completed_rows
        &&& b.active_piece == a.active_piece
        &&& b.speed == a.speed
        &&& b.score == a.score
        &&& b.num_pieces == a.num_pieces
        &&& b.piece_map == a.piece_map
        &&& b.piece_bucket == a.piece_bucket
        &&& b.render_slave == a.render_slave
        &&& b.ui_slave == a.ui_slave
        &&& b.ui_listener == a.ui_listener
        &&& b.rng == a.rng
    }

    /// The state changed to `st`; everything else, the clock included, is
    /// unchanged.
    pub open spec fn with_state(a: Self, b: Self, st: GameState) -> bool {
        Self::with_state_but_sw(a, b, st) && b.sw == a.sw
    }

    /// What a reinitialisation leaves behind: score cleared, no active piece,
    /// a fresh blank bordered playfield of the same size, no pending rows,
    /// and the Start state; the speed level and the piece supply carry over.
    pub open spec fn new_game_rel(a: Self, b: Self) -> bool {
        &&& b.score == 0
        &&& b.active_piece is None
        &&& rows_view(b.level) == spec_fresh_level(
            rows_view(a.level)[0].len() as int,
            rows_view(a.level).len() as int,
        )
        &&& b.completed_rows@.len() == 0
        &&& b.state == GameState::Start
        &&& b.speed == a.speed
        &&& b.num_pieces == a.num_pieces
        &&& b.piece_map == a.piece_map
        &&& b.piece_bucket == a.piece_bucket
        &&& b.render_slave == a.render_slave
        &&& b.ui_slave == a.ui_slave
        &&& b.ui_listener == a.ui_listener
        &&& b.rng == a.rng
    }

    /// Whether a gravity tick is due: the tick interval has elapsed on the
    /// clock. On a tick the clock restarts. When the tick falls depends on
    /// the real clock, so nothing is promised of the result.
    fn next_tick(&mut self) -> (r: bool)
        requires
            1 <= old(self).speed <= 99,
        ensures
            Self::same_but_sw(*old(self), *final(self)),
    {
        let tick_ms = ((100 - self.speed) * OPTION_TICK_BASE_MS) as i64;
        proof {
            assert(tick_ms == spec_tick_interval(self.speed as int));
        }
        if tick_ms <= stopwatch_elapsed_ms(&self.sw) {
            stopwatch_restart(&mut self.sw);
            true
        } else {
            false
        }
    }

    /// Stops the clock and moves to the terminal Exit state.
    pub fn exit(&mut self)
        ensures
            Self::with_state_but_sw(*old(self), *final(self), GameState::Exit),
            old(self).wf() ==> final(self).wf(),
    {
        if stopwatch_is_running(&self.sw) {
            stopwatch_stop(&mut self.sw);
        }
        self.state = GameState::Exit;
    }

    /// Reinitialises for a new game: the clock is reset, the score cleared,
    /// the active piece dropped, the playfield rebuilt blank, and the machine
    /// returned to Start; the new status is published.
    pub fn new_game(&mut self)
        requires
            old(self).wf(),
        ensures
            final(self).wf(),
            final(self).rows_pending_ok(),
            Self::new_game_rel(*old(self), *final(self)),
    {
        if stopwatch_is_running(&self.sw) {
            stopwatch_stop(&mut self.sw);
        }
        stopwatch_reset(&mut self.sw);
        self.score = 0;
        self.active_piece = None;
        self.completed_rows = Vec::new();
        let width = self.level[0].len();
        let height = self.level.len();
        self.level = Self::create_level(width, height);
        self.create_level_boundaries();
        self.state = GameState::Start;
        self.send_state_to_ui();
        proof {
            lemma_fresh_level_wf(
                rows_view(old(self).level)[0].len() as int,
                rows_view(old(self).level).len() as int,
            );
        }
    }

    /// Starts (or continues) the clock and moves to Playing; the new status
    /// is published.
    pub fn resume_game(&mut self)
        ensures
            Self::with_state_but_sw(*old(self), *final(self), GameState::Playing),
            old(self).wf() ==> final(self).wf(),
    {
        if !stopwatch_is_running(&self.sw) {
            stopwatch_start(&mut self.sw);
        }
        self.state = GameState::Playing;
        self.send_state_to_ui();
    }

    /// Stops the clock and moves to Paused; the new status is published.
    pub fn pause_game(&mut self)
        ensures
            Self::with_state_but_sw(*old(self), *final(self), GameState::Paused),
            old(self).wf() ==> final(self).wf(),
    {
        if stopwatch_is_running(&self.sw) {
            stopwatch_stop(&mut self.sw);
        }
        self.state = GameState::Paused;
        self.send_state_to_ui();
    }

    pub fn give_render_slave(&mut self, broadcaster: GameBroadcaster<Master2RenderCommunique>)
        ensures
            final(self).render_slave is Some,
            *final(self) == (Self { render_slave: final(self).render_slave, ..*old(self) }),
            old(self).wf() ==> final(self).wf(),
    {
        self.render_slave = Some(broadcaster);
    }

    pub fn give_ui_slave(&mut self, broadcaster: GameBroadcaster<Master2UICommunique>)
        ensures
            final(self).ui_slave is Some,
            *final(self) == (Self { ui_slave: final(self).ui_slave, ..*old(self) }),
            old(self).wf() ==> final(self).wf(),
    {
        self.ui_slave = Some(broadcaster);
    }

    pub fn give_ui_receiver(&mut self, receiver: GameUpdateReceiver<UI2MasterCommunique>)
        ensures
            final(self).ui_listener is Some,
            *final(self) == (Self { ui_listener: final(self).ui_listener, ..*old(self) }),
            old(self).wf() ==> final(self).wf(),
    {
        self.ui_listener = Some(receiver);
    }

    /// Sends the renderer a snapshot: the playfield with the active piece
    /// composited in, the state, the score, and an optional control signal.
    /// The master itself is untouched; a disconnected renderer is ignored.
    fn send_render_update(&mut self, command: Option<ControllerCommand>) -> (r: bool)
        ensures
            *final(self) == *old(self),
    {
        if self.render_slave.is_some() {
            let mut level_update = crate::game::tootris::copy_level(&self.level);
            if let Some(piece) = &self.active_piece {
                // A piece that would not fit the snapshot grid (a banner
                // wider than a tiny board) is left out rather than drawn.
                if fits_in(&level_update, &piece.current_matrix, piece.location) {
                    piece.place_in_matrix(&mut level_update);
                }
            }
            if let Some(slave) = &self.render_slave {
                channel_send(
                    &slave.channel_out,
                    Master2RenderCommunique {
                        comm_type: Communique::Update,
                        level: Some(level_update),
                        state: Some(self.state),
                        score: Some(self.score),
                        command,
                    },
                )
            } else {
                false
            }
        } else {
            false
        }
    }
}


impl<R: RandomSource> EvilGameMaster<R> {
    /// What taking a fresh piece from the supply leaves behind: an active
    /// piece at the spawn point; `ok` says its boundary points were free of
    /// collision there.
    pub open spec fn spawn_attempt(a: Self, b: Self, ok: bool) -> bool {
        &&& Self::eq_except_supply(a, b)
        &&& b.active_piece matches Some(p) && bucket_piece_ok(
            p,
            rows_view(b.level)[0].len() as int,
        )
        &&& (b.active_piece matches Some(p) ==> ok == !(spec_xcolliding(
            rows_view(b.level),
            p.matrix_view(),
            p.anchor_x(None),
            p.anchor_y(None),
        ) || spec_ycolliding(
            rows_view(b.level),
            p.matrix_view(),
            p.anchor_x(None),
            p.anchor_y(None),
        )))
    }

    /// What freezing the active piece leaves behind: the piece written into
    /// the playfield (when it sits wholly on free cells of the grid), no
    /// active piece, and the pending-rows list holding exactly the complete
    /// rows of the resulting playfield.
    pub open spec fn freeze_effect(a: Self, b: Self) -> bool {
        &&& b.active_piece is None
        &&& (a.active_piece matches Some(p) ==> {
            let lvv = rows_view(a.level);
            let m = p.matrix_view();
            let ax = p.anchor_x(None);
            let ay = p.anchor_y(None);
            if spec_fits(lvv, m, ax, ay) && !spec_colliding(lvv, m, ax, ay) {
                place_rel(lvv, rows_view(b.level), m, ax, ay, p.color)
            } else {
                rows_view(b.level) == lvv
            }
        })
        &&& idx_view(b.completed_rows@) == complete_rows_from(rows_view(b.level), 0)
        &&& b.speed == a.speed
        &&& b.score == a.score
        &&& b.num_pieces == a.num_pieces
        &&& b.piece_map == a.piece_map
        &&& b.piece_bucket == a.piece_bucket
        &&& b.sw == a.sw
        &&& b.state == a.state
        &&& b.render_slave == a.render_slave
        &&& b.ui_slave == a.ui_slave
        &&& b.ui_listener == a.ui_listener
        &&& b.rng == a.rng
    }

    /// What applying one received message does, by its content: New, Pause,
    /// Resume and Exit act on the machine and report true, the other
    /// lifecycle commands are accepted and ignored, a player move is
    /// dispatched to the collision engine, and a message carrying neither is
    /// ignored and reports false.
    pub open spec fn communique_outcome(
        a: Self,
        b: Self,
        com: UI2MasterCommunique,
        r: bool,
    ) -> bool {
        if com.command is Some {
            &&& r == true
            &&& match com.command->Some_0 {
                UiCommand::New => Self::new_game_rel(a, b),
                UiCommand::Pause => Self::with_state_but_sw(a, b, GameState::Paused),
                UiCommand::Resume => Self::with_state_but_sw(a, b, GameState::Playing),
                UiCommand::Exit => Self::with_state(a, b, GameState::Exit),
                _ => b == a,
            }
        } else if com.player_move is Some {
            Self::move_outcome(a, b, com.player_move->Some_0, r)
        } else {
            r == false && b == a
        }
    }

    /// What consuming at most one queued command does: nothing when no
    /// listener is attached or the queue is empty; otherwise the exact effect
    /// of whichever message arrived.
    pub open spec fn command_effect(a: Self, b: Self, r: bool) -> bool {
        ||| (b == a && r == false)
        ||| exists|com: UI2MasterCommunique| #[trigger] Self::communique_outcome(a, b, com, r)
    }

    /// Locks the active piece into the playfield and scans for complete rows.
    /// A piece that does not sit wholly on free cells inside the grid is
    /// dropped without being written, so the border frame is never harmed.
    fn freeze_active_piece(&mut self)
        requires
            old(self).wf(),
            old(self).active_piece is Some,
            old(self).completed_rows@.len() == 0,
        ensures
            final(self).wf(),
            Self::freeze_effect(*old(self), *final(self)),
    {
        let ghost lvv = rows_view(self.level);
        let opt = self.active_piece.take();
        match opt {
            Some(piece) => {
                let ghost m = piece.matrix_view();
                let ghost ax = piece.anchor_x(None);
                let ghost ay = piece.anchor_y(None);
                let fits = fits_in(&self.level, &piece.current_matrix, piece.location);
                let coll = collides_at(
                    &self.level,
                    &piece.current_matrix,
                    piece.location.x as i128,
                    piece.location.y as i128,
                );
                if fits && !coll {
                    piece.place_in_matrix(&mut self.level);
                    proof {
                        // The written cells were all Empty, so the border
                        // frame and the row shape are untouched.
                        let nv = rows_view(self.level);
                        assert forall|y: int, x: int|
                            0 <= y < lvv.len() && 0 <= x < lvv[y].len() && covers(
                                m,
                                ax,
                                ay,
                                x,
                                y,
                            ) implies lvv[y][x] is Empty by {
                            if !(lvv[y][x] is Empty) {
                                assert(!(m[y - ay][x - ax] is Blank) && point_bad(lvv, x, y));
                                assert(spec_colliding(lvv, m, ax, ay));
                            }
                        }
                        assert(level_wf(nv)) by {
                            assert(nv.len() == lvv.len());
                            assert(forall|y2: int|
                                0 <= y2 < nv.len() ==> #[trigger] nv[y2].len() == lvv[y2].len());
                            assert forall|y2: int|
                                0 <= y2 < nv.len() implies (#[trigger] nv[y2][0])
                                is Indestructible && nv[y2][nv[0].len() - 1]
                                is Indestructible by {
                                assert(!covers(m, ax, ay, 0, y2));
                                assert(!covers(m, ax, ay, lvv[0].len() - 1, y2));
                            }
                            assert forall|c: int|
                                0 <= c < nv[0].len() implies (#[trigger] nv[nv.len() - 1][c])
                                is Indestructible by {
                                assert(!covers(m, ax, ay, c, lvv.len() - 1));
                            }
                        }
                    }
                }
                self.find_completed_rows();
                proof {
                    assert(idx_view(self.completed_rows@) =~= Seq::<int>::empty()
                        + complete_rows_from(rows_view(self.level), 0));
                    lemma_complete_rows_from(rows_view(self.level), 0);
                    let cs = complete_rows_from(rows_view(self.level), 0);
                    assert forall|i: int, j: int|
                        0 <= i < j < self.completed_rows@.len() implies #[trigger] self
                            .completed_rows@[i] < #[trigger] self.completed_rows@[j] by {
                        assert(idx_view(self.completed_rows@)[i] == cs[i]);
                        assert(idx_view(self.completed_rows@)[j] == cs[j]);
                    }
                    assert forall|i: int|
                        0 <= i < self.completed_rows@.len() implies ((
                        #[trigger] self.completed_rows@[i]) as int) < rows_view(self.level).len()
                            && spec_row_complete(
                            rows_view(self.level)[self.completed_rows@[i] as int],
                        ) by {
                        assert(idx_view(self.completed_rows@)[i] == cs[i]);
                    }
                }
            }
            None => {
                proof {
                    assert(false);
                }
            }
        }
    }

    /// Applies one received message: New, Pause, Resume and Exit act on the
    /// machine, the other lifecycle commands are accepted and ignored, and a
    /// player move is dispatched to the collision engine; a blocked move is
    /// silently absorbed.
    pub fn apply_communique(&mut self, com: UI2MasterCommunique) -> (r: bool)
        requires
            old(self).wf(),
        ensures
            final(self).wf(),
            Self::communique_outcome(*old(self), *final(self), com, r),
    {
        if com.is_command() {
            match &com.command {
                Some(UiCommand::New) => {
                    self.new_game();
                }
                Some(UiCommand::Pause) => {
                    self.pause_game();
                }
                Some(UiCommand::Resume) => {
                    self.resume_game();
                }
                Some(UiCommand::Exit) => {
                    self.state = GameState::Exit;
                    self.send_render_update(None);
                }
                _ => {}
            }
            return true;
        }
        if com.is_player_move() {
            let r = match &com.player_move {
                Some(mv) => {
                    let mv_copy = *mv;
                    self.process_move(&mv_copy)
                }
                None => false,
            };
            return r;
        }
        false
    }

    /// Polls the inbound queue and applies at most one message; an empty
    /// queue, or no listener at all, is not an error and changes nothing.
    /// Reports whether anything was consumed and acted on.
    fn process_input_commands(&mut self) -> (r: bool)
        requires
            old(self).wf(),
        ensures
            final(self).wf(),
            old(self).ui_listener is None ==> *final(self) == *old(self) && r == false,
            Self::command_effect(*old(self), *final(self), r),
    {
        if self.ui_listener.is_none() {
            return false;
        }
        let message = if let Some(listener) = &self.ui_listener {
            channel_try_recv(&listener.receiver)
        } else {
            None
        };
        match message {
            Some(com) => {
                let ghost received = com;
                let r = self.apply_communique(com);
                proof {
                    assert(Self::communique_outcome(*old(self), *self, received, r));
                }
                r
            }
            None => false,
        }
    }
}


impl<R: RandomSource> EvilGameMaster<R> {
    /// One consumed command, whatever it was.
    pub open spec fn command_phase(a: Self, b: Self) -> bool {
        exists|r: bool| #[trigger] Self::command_effect(a, b, r)
    }

    /// What one row-clearing tick leaves behind.
    pub open spec fn row_clear_rel(a: Self, b: Self) -> bool {
        &&& b.state == GameState::Playing
        &&& b.completed_rows@.len() == 0
        &&& b.score as int == cap_usize(
            a.score + spec_score_gain(
                a.completed_rows@.len() as int,
                rows_view(a.level)[0].len() - 2,
            ),
        )
        &&& b.speed as int == if a.speed + a.completed_rows@.len() >= 99 {
            99int
        } else {
            a.speed + a.completed_rows@.len()
        }
        &&& rows_view(b.level).len() == rows_view(a.level).len()
        &&& rows_view(b.level) == Seq::new(
            a.completed_rows@.len() as nat,
            |q: int| spec_empty_row(rows_view(a.level)[0].len() as int),
        ) + remaining_rows(rows_view(a.level), idx_view(a.completed_rows@), 0)
        &&& b.active_piece == a.active_piece
        &&& b.num_pieces == a.num_pieces
        &&& b.piece_map == a.piece_map
        &&& b.piece_bucket == a.piece_bucket
        &&& b.sw == a.sw
        &&& b.render_slave == a.render_slave
        &&& b.ui_slave == a.ui_slave
        &&& b.ui_listener == a.ui_listener
        &&& b.rng == a.rng
    }

    /// Freezing, then moving to the row-clearing state exactly when the
    /// freeze produced pending rows.
    pub open spec fn freeze_then_maybe_tootris(a: Self, b: Self) -> bool {
        exists|mid: Self|
            #[trigger] Self::freeze_effect(a, mid) && ((mid.completed_rows@.len() > 0
                && Self::with_state(mid, b, GameState::Tootris)) || (mid.completed_rows@.len() == 0
                && b == mid))
    }

    /// One Playing step with a piece in play: the clock may or may not tick;
    /// on a tick the piece falls one row or, blocked, freezes; unless it
    /// froze, one queued command is consumed.
    pub open spec fn playing_with_piece(a: Self, b: Self) -> bool {
        exists|mid: Self|
            #[trigger] Self::same_but_sw(a, mid) && (Self::command_phase(mid, b) || (exists|
                mid2: Self,
            |
                #[trigger] Self::shift_rel(mid, mid2, 0, 1, true) && Self::command_phase(mid2, b))
                || (exists|mid2: Self|
                #[trigger] Self::shift_rel(mid, mid2, 0, 1, false)
                    && Self::freeze_then_maybe_tootris(mid2, b)))
    }

    /// One Playing step: a piece is taken from the supply when none is in
    /// play, and a blocked spawn ends the game.
    pub open spec fn playing_step(a: Self, b: Self) -> bool {
        if a.active_piece is None {
            exists|mid: Self, ok: bool|
                #[trigger] Self::spawn_attempt(a, mid, ok) && ((!ok && b == (Self {
                    state: GameState::End,
                    active_piece: None,
                    ..mid
                })) || (ok && Self::playing_with_piece(mid, b)))
        } else {
            Self::playing_with_piece(a, b)
        }
    }

    /// One row-clearing step: the clearance happens on the tick.
    pub open spec fn tootris_step(a: Self, b: Self) -> bool {
        exists|mid: Self|
            #[trigger] Self::same_but_sw(a, mid) && (b == mid || Self::row_clear_rel(mid, b))
    }

    /// On the End tick, the banner piece appears if nothing is displayed.
    pub open spec fn banner_rel(a: Self, b: Self) -> bool {
        ||| b == a
        ||| (a.active_piece is None && Self::eq_except_active(a, b) && (b.active_piece matches Some(
            p,
        ) && p.wf() && rows_view(p.definition) == spec_game_over() && p.color
            == BlockColor::Magenta && p.location == (Point {
            x: 5,
            y: (rows_view(a.level).len() - 1) as usize,
        }) && p.orientation == Orientation::Normal))
    }

    /// One End step: the clock runs on, the banner is installed on a tick,
    /// and one queued command is still consumed.
    pub open spec fn end_step(a: Self, b: Self) -> bool {
        exists|mid: Self, mid2: Self|
            #![trigger Self::same_but_sw(a, mid), Self::banner_rel(mid, mid2)]
            Self::same_but_sw(a, mid) && Self::banner_rel(mid, mid2) && Self::command_phase(
                mid2,
                b,
            )
    }

    /// What one call of `process_game` may do, by the state it starts in.
    pub open spec fn step_rel(a: Self, b: Self) -> bool {
        match a.state {
            GameState::Exit => b == a,
            GameState::Paused => Self::command_phase(a, b),
            GameState::Start => Self::command_phase(a, b),
            GameState::Tootris => Self::tootris_step(a, b),
            GameState::End => Self::end_step(a, b),
            GameState::Playing => Self::playing_step(a, b),
        }
    }
}

/// The rollback half of the collision law: a blocked move or rotation leaves
/// the playfield, the piece's location and its orientation unchanged; only
/// the one-level rollback slot is refreshed.
pub proof fn lemma_blocked_action_rolls_back<R: RandomSource>(
    pre: EvilGameMaster<R>,
    post: EvilGameMaster<R>,
    mv: PlayerMove,
    r: bool,
)
    requires
        EvilGameMaster::<R>::move_outcome(pre, post, mv, r),
        !r,
        pre.active_piece is Some,
    ensures
        post.level == pre.level,
        post.active_piece matches Some(q) && q.location == pre.active_piece->Some_0.location
            && q.orientation == pre.active_piece->Some_0.orientation,
{
    match mv {
        PlayerMove::StepDown => {}
        PlayerMove::StepLeft => {}
        PlayerMove::StepRight => {}
        PlayerMove::RotateForward => {}
        _ => {}
    }
}

/// The commit half of the collision law: a move that succeeds leaves the
/// piece free of collision at its new position — every occupied point lies
/// inside the playfield on an Empty cell.
pub proof fn lemma_committed_move_is_free<R: RandomSource>(
    pre: EvilGameMaster<R>,
    post: EvilGameMaster<R>,
    dx: int,
    dy: int,
)
    requires
        EvilGameMaster::<R>::shift_rel(pre, post, dx, dy, true),
        pre.active_piece is Some,
    ensures
        post.level == pre.level,
        post.active_piece matches Some(q) && !spec_colliding(
            rows_view(post.level),
            q.matrix_view(),
            anchor_x_of(q.matrix_view(), q.location.x as int),
            anchor_y_of(q.matrix_view(), q.location.y as int),
        ),
{
}

/// A consumed command never leaves rows pending: it keeps the pending list,
/// or a reinitialisation empties it.
proof fn lemma_command_keeps_pending<R: RandomSource>(
    a: EvilGameMaster<R>,
    b: EvilGameMaster<R>,
    r: bool,
)
    requires
        EvilGameMaster::<R>::command_effect(a, b, r),
        a.completed_rows@.len() == 0,
    ensures
        b.completed_rows@.len() == 0,
{
    if b == a {
    } else {
        let com = choose|com: UI2MasterCommunique| #[trigger] EvilGameMaster::<
            R,
        >::communique_outcome(a, b, com, r);
        if com.command is Some {
            match com.command->Some_0 {
                UiCommand::New => {}
                UiCommand::Pause => {}
                UiCommand::Resume => {}
                UiCommand::Exit => {}
                _ => {}
            }
        } else if com.player_move is Some {
            match com.player_move->Some_0 {
                PlayerMove::StepDown => {}
                PlayerMove::StepLeft => {}
                PlayerMove::StepRight => {}
                PlayerMove::RotateForward => {}
                _ => {}
            }
        }
    }
}


impl<R: RandomSource> EvilGameMaster<R> {
    /// One step of the game-state machine. In Playing it spawns a piece when
    /// none is in play (a blocked spawn ends the game), lets gravity act on
    /// the tick, freezes a piece that cannot fall and records its complete
    /// rows, and consumes at most one queued command; in Tootris the tick
    /// pays out the clearance and rebuilds the playfield; Paused, Start and
    /// End keep consuming commands; Exit tells the host to stop stepping.
    pub fn process_game(&mut self) -> (r: bool)
        requires
            old(self).wf(),
            old(self).rows_pending_ok(),
        ensures
            final(self).wf(),
            final(self).rows_pending_ok(),
            r == (old(self).state != GameState::Exit),
            Self::step_rel(*old(self), *final(self)),
    {
        let ghost pre = *old(self);
        let mut should_update_render = false;
        match self.state {
            GameState::Playing => {
                let ghost had_piece = self.active_piece is Some;
                if self.active_piece.is_none() {
                    let ok = self.next_piece();
                    let ghost mid_spawn = *self;
                    proof {
                        assert(Self::spawn_attempt(pre, mid_spawn, ok));
                    }
                    if !ok {
                        self.state = GameState::End;
                        self.active_piece = None;
                        proof {
                            assert(*self == (Self {
                                state: GameState::End,
                                active_piece: None,
                                ..mid_spawn
                            }));
                            assert(Self::playing_step(pre, *self));
                        }
                        return true;
                    }
                }
                let ghost base = *self;
                proof {
                    assert(base.active_piece is Some);
                    if had_piece {
                        assert(base == pre);
                    }
                }
                if self.next_tick() {
                    should_update_render = true;
                    let ghost mid = *self;
                    proof {
                        assert(Self::same_but_sw(base, mid));
                    }
                    let advanced = self.advance_active_piece();
                    if !advanced {
                        let ghost mid2 = *self;
                        self.freeze_active_piece();
                        let ghost mid3 = *self;
                        if !self.completed_rows.is_empty() {
                            self.state = GameState::Tootris;
                        }
                        proof {
                            assert(Self::shift_rel(mid, mid2, 0, 1, false));
                            assert(Self::freeze_effect(mid2, mid3));
                            if mid3.completed_rows@.len() > 0 {
                                assert(Self::with_state(mid3, *self, GameState::Tootris));
                            } else {
                                assert(*self == mid3);
                            }
                            assert(Self::freeze_then_maybe_tootris(mid2, *self));
                            assert(Self::playing_with_piece(base, *self));
                            assert(Self::playing_step(pre, *self));
                        }
                        return true;
                    }
                    let ghost mid2 = *self;
                    let handled = self.process_input_commands();
                    if handled {
                        should_update_render = true;
                    }
                    proof {
                        assert(Self::shift_rel(mid, mid2, 0, 1, true));
                        assert(Self::command_effect(mid2, *self, handled));
                        assert(Self::command_phase(mid2, *self));
                        assert(Self::playing_with_piece(base, *self));
                        assert(Self::playing_step(pre, *self));
                        lemma_command_keeps_pending(mid2, *self, handled);
                    }
                } else {
                    let ghost mid = *self;
                    proof {
                        assert(Self::same_but_sw(base, mid));
                    }
                    let handled = self.process_input_commands();
                    if handled {
                        should_update_render = true;
                    }
                    proof {
                        assert(Self::command_effect(mid, *self, handled));
                        assert(Self::command_phase(mid, *self));
                        assert(Self::playing_with_piece(base, *self));
                        assert(Self::playing_step(pre, *self));
                        lemma_command_keeps_pending(mid, *self, handled);
                    }
                }
            }
            GameState::Tootris => {
                if self.next_tick() {
                    let ghost mid = *self;
                    proof {
                        assert(Self::same_but_sw(pre, mid));
                    }
                    self.apply_row_clear();
                    should_update_render = true;
                    proof {
                        assert(Self::row_clear_rel(mid, *self));
                        assert(Self::tootris_step(pre, *self));
                    }
                } else {
                    proof {
                        assert(Self::same_but_sw(pre, *self));
                        assert(Self::tootris_step(pre, *self));
                    }
                }
            }
            GameState::Paused => {
                let handled = self.process_input_commands();
                proof {
                    assert(Self::command_phase(pre, *self));
                    lemma_command_keeps_pending(pre, *self, handled);
                }
            }
            GameState::Start => {
                let handled = self.process_input_commands();
                proof {
                    assert(Self::command_phase(pre, *self));
                    lemma_command_keeps_pending(pre, *self, handled);
                }
            }
            GameState::End => {
                if !stopwatch_is_running(&self.sw) {
                    stopwatch_start(&mut self.sw);
                }
                let ticked = self.next_tick();
                let ghost mid = *self;
                proof {
                    assert(Self::same_but_sw(pre, mid));
                }
                if ticked {
                    if self.active_piece.is_none() {
                        let def = self.piece_map.get_piece_def("gameoverpiece");
                        proof {
                            lemma_game_over_def();
                        }
                        let banner_location = Point { x: 5, y: self.level.len() - 1 };
                        let banner = Piece::of_type(def, BlockColor::Magenta, banner_location);
                        self.active_piece = Some(banner);
                    }
                    self.send_render_update(Some(ControllerCommand::FullRefresh));
                }
                let ghost mid2 = *self;
                proof {
                    assert(Self::banner_rel(mid, mid2));
                }
                let handled = self.process_input_commands();
                proof {
                    assert(Self::command_phase(mid2, *self));
                    assert(Self::end_step(pre, *self));
                    lemma_command_keeps_pending(mid2, *self, handled);
                }
            }
            GameState::Exit => {
                return false;
            }
        }
        if should_update_render {
            self.send_render_update(None);
        }
        true
    }
}


/// The row-completion laws: a bordered row whose interior is all filled is
/// complete; a row with any empty interior cell is never complete; a
/// malformed row — one with a filled cell outside its borders — is never
/// complete, it is only reported.
pub proof fn lemma_row_completion_laws(row: Seq<GameBlock>)
    ensures
        (row.len() >= 3 && row[0] is Indestructible && row[row.len() - 1] is Indestructible && (
        forall|k: int| 0 < k < row.len() - 1 ==> (#[trigger] row[k]) is Filled))
            ==> spec_row_complete(row),
        (exists|k: int| 0 < k < row.len() - 1 && (#[trigger] row[k]) is Empty)
            ==> !spec_row_complete(row),
        spec_row_malformed(row) ==> !spec_row_complete(row),
{
    if exists|k: int| 0 < k < row.len() - 1 && (#[trigger] row[k]) is Empty {
        let k = choose|k: int| 0 < k < row.len() - 1 && (#[trigger] row[k]) is Empty;
        assert(!(row[k] is Filled));
    }
    if spec_row_malformed(row) && spec_row_complete(row) {
        let j = choose|j: int|
            0 <= j < row.len() && (#[trigger] row[j]) is Filled && (count_borders(row, j) == 0
                || count_borders(row, j) >= 2);
        assert(j != 0 && j != row.len() - 1);
        lemma_count_borders_complete(row, j);
        assert(false);
    }
}

} // verus!
