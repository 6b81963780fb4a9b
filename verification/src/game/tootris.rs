//! Core vocabulary of the game engine: playfield cells, orientations,
//! rotations, machine states, player moves, and the message types exchanged
//! with the rendering and input collaborators.
use vstd::prelude::*;

use std::sync::mpsc::Receiver;
use std::sync::mpsc::Sender;

verus! {

/// A full playfield: an ordered sequence of rows of cells.
pub type GameMatrix = Vec<Vec<GameBlock>>;

/// The mathematical view of a matrix of cells: a sequence of rows, each a
/// sequence of cells.
pub open spec fn rows_view<T>(m: Vec<Vec<T>>) -> Seq<Seq<T>> {
    m@.map_values(|r: Vec<T>| r@)
}

#[derive(Copy, Clone, PartialEq, Eq, Structural, Debug)]
pub enum BlockColor {
    Blue,
    Magenta,
    Yellow,
    Green,
    Cyan,
    White,
    Undefined,
}

/// One cell of the playfield. Occupancy comparisons look at the variant kind
/// only; the colour and text carried by a cell are presentation data.
#[derive(Clone, Debug)]
pub enum GameBlock {
    Filled(BlockColor),
    Origin(BlockColor),
    Empty,
    Indestructible,
    Text(String, BlockColor),
}

impl GameBlock {
    /// Occupancy equality: two cells are the same when they are the same
    /// variant, whatever colour or text they carry.
    pub open spec fn same_kind(self, other: Self) -> bool {
        match (self, other) {
            (GameBlock::Filled(_), GameBlock::Filled(_)) => true,
            (GameBlock::Origin(_), GameBlock::Origin(_)) => true,
            (GameBlock::Empty, GameBlock::Empty) => true,
            (GameBlock::Indestructible, GameBlock::Indestructible) => true,
            (GameBlock::Text(_, _), GameBlock::Text(_, _)) => true,
            _ => false,
        }
    }

    pub fn get_color(&self) -> (r: Option<&BlockColor>)
        ensures
            r is Some <==> self is Filled,
            self matches GameBlock::Filled(c) ==> r matches Some(rc) && *rc == c,
    {
        match self {
            GameBlock::Filled(val) => Some(val),
            _ => None,
        }
    }

    /// Whether this cell has the same kind as any of the given cells.
    pub fn is_any(&self, of: &[Self]) -> (r: bool)
        ensures
            r == exists|i: int| 0 <= i < of@.len() && self.same_kind(#[trigger] of@[i]),
    {
        let mut k: usize = 0;
        while k < of.len()
            invariant
                0 <= k <= of@.len(),
                forall|i: int| 0 <= i < k ==> !self.same_kind(#[trigger] of@[i]),
            decreases of@.len() - k,
        {
            if of[k].eq(self) {
                return true;
            }
            k = k + 1;
        }
        false
    }

    pub fn get_string_visual(&self) -> (r: &str)
        ensures
            self is Filled || self is Origin ==> r@ == "#"@,
            self is Empty ==> r@ == "-"@,
            self is Indestructible ==> r@ == "X"@,
            self is Text ==> r@ == " "@,
    {
        match self {
            GameBlock::Filled(_) => "#",
            GameBlock::Origin(_) => "#",
            GameBlock::Empty => "-",
            GameBlock::Indestructible => "X",
            _ => " ",
        }
    }
}

impl PartialEq for GameBlock {
    fn eq(&self, other: &Self) -> (r: bool) {
        match (self, other) {
            (GameBlock::Filled(_), GameBlock::Filled(_)) => true,
            (GameBlock::Origin(_), GameBlock::Origin(_)) => true,
            (GameBlock::Empty, GameBlock::Empty) => true,
            (GameBlock::Indestructible, GameBlock::Indestructible) => true,
            (GameBlock::Text(_, _), GameBlock::Text(_, _)) => true,
            _ => false,
        }
    }
}

impl vstd::std_specs::cmp::PartialEqSpecImpl for GameBlock {
    open spec fn obeys_eq_spec() -> bool {
        true
    }

    open spec fn eq_spec(&self, other: &Self) -> bool {
        self.same_kind(*other)
    }
}

/// The four orientations a piece can be in, a quarter turn apart.
#[derive(Clone, Copy, PartialEq, Eq, Structural, Debug)]
pub enum Orientation {
    Normal,
    Forward,
    Backwards,
    UpsideDown,
}

/// A rotation applied to an orientation: a relative quarter turn or an
/// absolute reorientation.
#[derive(Clone, Copy, PartialEq, Eq, Structural, Debug)]
pub enum Rotation {
    Forward,
    Backward,
    OrientLeft,
    OrientRight,
    OrientUp,
    OrientDown,
}

impl Rotation {
    pub open spec fn spec_perform(self, orientation: Orientation) -> Orientation {
        match self {
            Rotation::Backward => match orientation {
                Orientation::Normal => Orientation::Backwards,
                Orientation::Backwards => Orientation::UpsideDown,
                Orientation::UpsideDown => Orientation::Forward,
                Orientation::Forward => Orientation::Normal,
            },
            Rotation::Forward => match orientation {
                Orientation::Normal => Orientation::Forward,
                Orientation::Backwards => Orientation::Normal,
                Orientation::UpsideDown => Orientation::Backwards,
                Orientation::Forward => Orientation::UpsideDown,
            },
            Rotation::OrientLeft => Orientation::Backwards,
            Rotation::OrientRight => Orientation::Forward,
            Rotation::OrientUp => Orientation::Normal,
            Rotation::OrientDown => Orientation::UpsideDown,
        }
    }

    /// The orientation reached by applying this rotation to `orientation`.
    pub fn perform(&self, orientation: &Orientation) -> (r: Orientation)
        ensures
            r == self.spec_perform(*orientation),
    {
        match self {
            Rotation::Backward => {
                match orientation {
                    Orientation::Normal => Orientation::Backwards,
                    Orientation::Backwards => Orientation::UpsideDown,
                    Orientation::UpsideDown => Orientation::Forward,
                    Orientation::Forward => Orientation::Normal,
                }
            }
            Rotation::Forward => {
                match orientation {
                    Orientation::Normal => Orientation::Forward,
                    Orientation::Backwards => Orientation::Normal,
                    Orientation::UpsideDown => Orientation::Backwards,
                    Orientation::Forward => Orientation::UpsideDown,
                }
            }
            Rotation::OrientLeft => Orientation::Backwards,
            Rotation::OrientRight => Orientation::Forward,
            Rotation::OrientUp => Orientation::Normal,
            Rotation::OrientDown => Orientation::UpsideDown,
        }
    }
}

/// Four forward quarter turns bring any orientation back to itself, so a
/// cycle of four forward rotations is the identity on a piece's orientation.
pub proof fn lemma_four_forward_turns_identity(o: Orientation)
    ensures
        Rotation::Forward.spec_perform(
            Rotation::Forward.spec_perform(
                Rotation::Forward.spec_perform(Rotation::Forward.spec_perform(o)),
            ),
        ) == o,
{
}

/// A lifecycle command from the user interface to the game master.
#[derive(Clone, PartialEq, Debug)]
pub enum UiCommand {
    New,
    Pause,
    Resume,
    Exit,
    RenderOffset(Point),
    RefreshUi,
    Write(String, Point),
}

/// A one-shot control signal from the game master to the renderer.
#[derive(Clone, Copy, PartialEq, Eq, Structural, Debug)]
pub enum ControllerCommand {
    FullRefresh,
}

#[derive(Copy, Clone, PartialEq, Eq, Structural, Debug)]
pub enum GameState {
    Paused,
    Playing,
    Start,
    Tootris,
    End,
    Exit,
}

/// A grid coordinate; `y` grows downward.
#[derive(Clone, Copy, PartialEq, Eq, Structural, Debug)]
pub struct Point {
    pub x: usize,
    pub y: usize,
}

#[derive(Clone, Copy, PartialEq, Eq, Structural, Debug)]
pub enum PlayerMove {
    StepRight,
    StepLeft,
    StepDown,
    RotateForward,
    Drop,
    StopDrop,
    OrientLeft,
    OrientRight,
    OrientUp,
    OrientDown,
}

/// The sending end of a one-way message channel between two components.
#[verifier::reject_recursive_types(T)]
pub struct GameBroadcaster<T> {
    pub channel_out: Sender<T>,
}

/// The receiving end of a one-way message channel between two components.
#[verifier::reject_recursive_types(T)]
pub struct GameUpdateReceiver<T> {
    pub receiver: Receiver<T>,
}

/// A snapshot for the renderer: the playfield with the active piece already
/// composited in, plus the machine state and score.
pub struct Master2RenderCommunique {
    pub comm_type: Communique,
    pub level: Option<GameMatrix>,
    pub state: Option<GameState>,
    pub score: Option<usize>,
    pub command: Option<ControllerCommand>,
}

/// A status update for the user interface listener.
pub struct Master2UICommunique {
    pub comm_type: Communique,
    pub state: Option<GameState>,
    pub score: Option<usize>,
}

/// A command or player move queued from the user interface to the master.
pub struct UI2MasterCommunique {
    pub comm_type: Communique,
    pub command: Option<UiCommand>,
    pub player_move: Option<PlayerMove>,
}

impl UI2MasterCommunique {
    pub fn is_player_move(&self) -> (r: bool)
        ensures
            r == self.player_move is Some,
    {
        self.player_move.is_some()
    }

    pub fn is_command(&self) -> (r: bool)
        ensures
            r == self.command is Some,
    {
        self.command.is_some()
    }
}

/// A message from the user interface to the renderer.
pub struct UI2RenderCommunique {
    pub com_type: Communique,
    pub vector: Option<Vec<GameBlock>>,
    pub command: Option<UiCommand>,
}

#[derive(Clone, Debug, PartialEq)]
pub enum Communique {
    Update,
    Info(&'static str),
    Error(&'static str),
}

pub trait Controller {
    /// The invariant the controller keeps from one step to the next.
    spec fn inv(&self) -> bool;

    /// One step of the controller.
    fn process(&mut self)
        requires
            old(self).inv(),
        ensures
            final(self).inv(),
    ;

    fn give_ui_broadcaster(&mut self, broadcaster: GameBroadcaster<Master2UICommunique>);

    fn give_render_broadcaster(&mut self, broadcaster: GameBroadcaster<Master2RenderCommunique>);

    fn give_ui_receiver(&mut self, receiver: GameUpdateReceiver<UI2MasterCommunique>);
}

pub trait Renderer {
    fn render(&mut self) -> bool;

    fn give_master_receiver(&mut self, receiver: GameUpdateReceiver<Master2RenderCommunique>);

    fn give_ui_receiver(&mut self, receiver: GameUpdateReceiver<UI2RenderCommunique>);
}

pub trait UIHandler {
    fn handle_ui(&mut self) -> bool;

    fn give_master_receiver(&mut self, receiver: GameUpdateReceiver<Master2UICommunique>);

    fn give_master_broadcaster(&mut self, broadcaster: GameBroadcaster<UI2MasterCommunique>);

    fn give_render_broadcaster(&mut self, broadcaster: GameBroadcaster<UI2RenderCommunique>);
}


/// An exact copy of one cell, text and colour included.
pub fn copy_cell(b: &GameBlock) -> (r: GameBlock)
    ensures
        r == *b,
{
    match b {
        GameBlock::Filled(c) => GameBlock::Filled(*c),
        GameBlock::Origin(c) => GameBlock::Origin(*c),
        GameBlock::Empty => GameBlock::Empty,
        GameBlock::Indestructible => GameBlock::Indestructible,
        GameBlock::Text(s, c) => GameBlock::Text(s.clone(), *c),
    }
}

/// An exact copy of one playfield row.
#[verifier::loop_isolation(false)]
pub fn copy_row(row: &Vec<GameBlock>) -> (r: Vec<GameBlock>)
    ensures
        r@ == row@,
{
    let mut out: Vec<GameBlock> = Vec::new();
    let mut i: usize = 0;
    while i < row.len()
        invariant
            0 <= i <= row@.len(),
            out@.len() == i,
            forall|j: int| 0 <= j < i ==> out@[j] == row@[j],
        decreases row@.len() - i,
    {
        out.push(copy_cell(&row[i]));
        i = i + 1;
    }
    proof {
        assert(out@ =~= row@);
    }
    out
}

/// An exact copy of a whole playfield.
#[verifier::loop_isolation(false)]
pub fn copy_level(m: &Vec<Vec<GameBlock>>) -> (r: Vec<Vec<GameBlock>>)
    ensures
        rows_view(r) == rows_view(*m),
{
    let mut out: Vec<Vec<GameBlock>> = Vec::new();
    let mut i: usize = 0;
    while i < m.len()
        invariant
            0 <= i <= m@.len(),
            out@.len() == i,
            forall|j: int| 0 <= j < i ==> (#[trigger] out@[j])@ == m@[j]@,
        decreases m@.len() - i,
    {
        out.push(copy_row(&m[i]));
        i = i + 1;
    }
    proof {
        assert(rows_view(out) =~~= rows_view(*m));
    }
    out
}

} // verus!
