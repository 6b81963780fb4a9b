//! The piece catalog: immutable block layouts for the seven tetromino shapes
//! and the banner piece shown at game end, each with its freeze-timing
//! property, registered under a fixed name.
use vstd::prelude::*;

use crate::game::tootris::rows_view;
use crate::outside::str_eq;

verus! {

/// How quickly a piece locks once it cannot fall: normally, or with extra
/// grace for spinning.
#[derive(Copy, Clone, PartialEq, Eq, Structural, Debug)]
pub enum PieceFreezeProperty {
    Normal,
    FreeSpin,
}

/// One cell of a piece definition. Exactly one cell is conventionally the
/// Origin, the anchor for placement and rotation.
#[derive(Copy, Clone, Debug)]
pub enum DefinitionBlock {
    Origin,
    Filled,
    Blank,
    Text(&'static str),
}

impl DefinitionBlock {
    pub fn is_blank(&self) -> (r: bool)
        ensures
            r == (self is Blank),
    {
        match self {
            DefinitionBlock::Blank => true,
            _ => false,
        }
    }

    pub fn is_origin(&self) -> (r: bool)
        ensures
            r == (self is Origin),
    {
        match self {
            DefinitionBlock::Origin => true,
            _ => false,
        }
    }

    pub fn get_string_visual(&self) -> (r: char)
        ensures
            self is Origin || self is Filled ==> r == '#',
            self is Blank || self is Text ==> r == ' ',
    {
        match self {
            DefinitionBlock::Origin => '#',
            DefinitionBlock::Filled => '#',
            DefinitionBlock::Blank => ' ',
            _ => ' ',
        }
    }
}

/// An immutable piece layout together with its freeze-timing property.
#[derive(Clone)]
pub struct PieceDefinition {
    pub def: Vec<Vec<DefinitionBlock>>,
    pub prop: PieceFreezeProperty,
}

impl PieceDefinition {
    pub fn new(def: Vec<Vec<DefinitionBlock>>, prop: PieceFreezeProperty) -> (r: Self)
        ensures
            r.def == def,
            r.prop == prop,
    {
        PieceDefinition { def, prop }
    }
}

/// The registry holding each named piece definition.
pub type PieceMap = Vec<(&'static str, PieceDefinition)>;

pub open spec fn spec_line() -> Seq<Seq<DefinitionBlock>> {
    seq![
        seq![
            DefinitionBlock::Filled,
            DefinitionBlock::Origin,
            DefinitionBlock::Filled,
            DefinitionBlock::Filled,
        ],
    ]
}

pub open spec fn spec_square() -> Seq<Seq<DefinitionBlock>> {
    seq![
        seq![DefinitionBlock::Origin, DefinitionBlock::Origin],
        seq![DefinitionBlock::Origin, DefinitionBlock::Origin],
    ]
}

pub open spec fn spec_podium() -> Seq<Seq<DefinitionBlock>> {
    seq![
        seq![DefinitionBlock::Blank, DefinitionBlock::Filled, DefinitionBlock::Blank],
        seq![DefinitionBlock::Filled, DefinitionBlock::Origin, DefinitionBlock::Filled],
    ]
}

pub open spec fn spec_spiece() -> Seq<Seq<DefinitionBlock>> {
    seq![
        seq![DefinitionBlock::Blank, DefinitionBlock::Filled, DefinitionBlock::Filled],
        seq![DefinitionBlock::Filled, DefinitionBlock::Origin, DefinitionBlock::Blank],
    ]
}

pub open spec fn spec_zpiece() -> Seq<Seq<DefinitionBlock>> {
    seq![
        seq![DefinitionBlock::Filled, DefinitionBlock::Origin, DefinitionBlock::Blank],
        seq![DefinitionBlock::Blank, DefinitionBlock::Filled, DefinitionBlock::Filled],
    ]
}

pub open spec fn spec_lpiece() -> Seq<Seq<DefinitionBlock>> {
    seq![
        seq![DefinitionBlock::Filled, DefinitionBlock::Blank],
        seq![DefinitionBlock::Origin, DefinitionBlock::Blank],
        seq![DefinitionBlock::Filled, DefinitionBlock::Filled],
    ]
}

pub open spec fn spec_jpiece() -> Seq<Seq<DefinitionBlock>> {
    seq![
        seq![DefinitionBlock::Blank, DefinitionBlock::Filled],
        seq![DefinitionBlock::Blank, DefinitionBlock::Origin],
        seq![DefinitionBlock::Filled, DefinitionBlock::Filled],
    ]
}

pub open spec fn spec_game_over() -> Seq<Seq<DefinitionBlock>> {
    seq![
        seq![DefinitionBlock::Text("+---------------------+")],
        seq![DefinitionBlock::Text("|                     |")],
        seq![DefinitionBlock::Text("|      GAME OVER      |")],
        seq![DefinitionBlock::Text("|                     |")],
        seq![DefinitionBlock::Text("|  esc ends the game  |")],
        seq![DefinitionBlock::Text("|                     |")],
        seq![DefinitionBlock::Text("+---------------------+")],
        seq![DefinitionBlock::Origin],
    ]
}

/// What the registry holds at each slot: the fixed names, layouts, and
/// freeze properties of the eight catalogued pieces.
pub open spec fn catalog_wf(m: Seq<(&'static str, PieceDefinition)>) -> bool {
    &&& m.len() == 8
    &&& m[0].0@ == "line"@ && rows_view(m[0].1.def) == spec_line() && m[0].1.prop
        == PieceFreezeProperty::Normal
    &&& m[1].0@ == "square"@ && rows_view(m[1].1.def) == spec_square() && m[1].1.prop
        == PieceFreezeProperty::Normal
    &&& m[2].0@ == "podium"@ && rows_view(m[2].1.def) == spec_podium() && m[2].1.prop
        == PieceFreezeProperty::Normal
    &&& m[3].0@ == "lpiece"@ && rows_view(m[3].1.def) == spec_lpiece() && m[3].1.prop
        == PieceFreezeProperty::Normal
    &&& m[4].0@ == "jpiece"@ && rows_view(m[4].1.def) == spec_jpiece() && m[4].1.prop
        == PieceFreezeProperty::Normal
    &&& m[5].0@ == "spiece"@ && rows_view(m[5].1.def) == spec_spiece() && m[5].1.prop
        == PieceFreezeProperty::Normal
    &&& m[6].0@ == "zpiece"@ && rows_view(m[6].1.def) == spec_zpiece() && m[6].1.prop
        == PieceFreezeProperty::Normal
    &&& m[7].0@ == "gameoverpiece"@ && rows_view(m[7].1.def) == spec_game_over() && m[7].1.prop
        == PieceFreezeProperty::Normal
}

/// The names under which a piece is registered.
pub open spec fn is_piece_name(k: Seq<char>) -> bool {
    ||| k == "line"@
    ||| k == "square"@
    ||| k == "podium"@
    ||| k == "lpiece"@
    ||| k == "jpiece"@
    ||| k == "spiece"@
    ||| k == "zpiece"@
    ||| k == "gameoverpiece"@
}

/// The definition registered under each name.
pub open spec fn def_for(k: Seq<char>, d: PieceDefinition) -> bool {
    &&& k == "line"@ ==> rows_view(d.def) == spec_line() && d.prop == PieceFreezeProperty::Normal
    &&& k == "square"@ ==> rows_view(d.def) == spec_square() && d.prop
        == PieceFreezeProperty::Normal
    &&& k == "podium"@ ==> rows_view(d.def) == spec_podium() && d.prop
        == PieceFreezeProperty::Normal
    &&& k == "lpiece"@ ==> rows_view(d.def) == spec_lpiece() && d.prop
        == PieceFreezeProperty::Normal
    &&& k == "jpiece"@ ==> rows_view(d.def) == spec_jpiece() && d.prop
        == PieceFreezeProperty::Normal
    &&& k == "spiece"@ ==> rows_view(d.def) == spec_spiece() && d.prop
        == PieceFreezeProperty::Normal
    &&& k == "zpiece"@ ==> rows_view(d.def) == spec_zpiece() && d.prop
        == PieceFreezeProperty::Normal
    &&& k == "gameoverpiece"@ ==> rows_view(d.def) == spec_game_over() && d.prop
        == PieceFreezeProperty::Normal
}

fn line_def() -> (d: Vec<Vec<DefinitionBlock>>)
    ensures
        rows_view(d) == spec_line(),
{
    let mut row: Vec<DefinitionBlock> = Vec::new();
    row.push(DefinitionBlock::Filled);
    row.push(DefinitionBlock::Origin);
    row.push(DefinitionBlock::Filled);
    row.push(DefinitionBlock::Filled);
    let mut d: Vec<Vec<DefinitionBlock>> = Vec::new();
    d.push(row);
    proof {
        assert(rows_view(d) =~~= spec_line());
    }
    d
}

fn square_def() -> (d: Vec<Vec<DefinitionBlock>>)
    ensures
        rows_view(d) == spec_square(),
{
    let mut row0: Vec<DefinitionBlock> = Vec::new();
    row0.push(DefinitionBlock::Origin);
    row0.push(DefinitionBlock::Origin);
    let mut row1: Vec<DefinitionBlock> = Vec::new();
    row1.push(DefinitionBlock::Origin);
    row1.push(DefinitionBlock::Origin);
    let mut d: Vec<Vec<DefinitionBlock>> = Vec::new();
    d.push(row0);
    d.push(row1);
    proof {
        assert(rows_view(d) =~~= spec_square());
    }
    d
}

fn podium_def() -> (d: Vec<Vec<DefinitionBlock>>)
    ensures
        rows_view(d) == spec_podium(),
{
    let mut row0: Vec<DefinitionBlock> = Vec::new();
    row0.push(DefinitionBlock::Blank);
    row0.push(DefinitionBlock::Filled);
    row0.push(DefinitionBlock::Blank);
    let mut row1: Vec<DefinitionBlock> = Vec::new();
    row1.push(DefinitionBlock::Filled);
    row1.push(DefinitionBlock::Origin);
    row1.push(DefinitionBlock::Filled);
    let mut d: Vec<Vec<DefinitionBlock>> = Vec::new();
    d.push(row0);
    d.push(row1);
    proof {
        assert(rows_view(d) =~~= spec_podium());
    }
    d
}

fn spiece_def() -> (d: Vec<Vec<DefinitionBlock>>)
    ensures
        rows_view(d) == spec_spiece(),
{
    let mut row0: Vec<DefinitionBlock> = Vec::new();
    row0.push(DefinitionBlock::Blank);
    row0.push(DefinitionBlock::Filled);
    row0.push(DefinitionBlock::Filled);
    let mut row1: Vec<DefinitionBlock> = Vec::new();
    row1.push(DefinitionBlock::Filled);
    row1.push(DefinitionBlock::Origin);
    row1.push(DefinitionBlock::Blank);
    let mut d: Vec<Vec<DefinitionBlock>> = Vec::new();
    d.push(row0);
    d.push(row1);
    proof {
        assert(rows_view(d) =~~= spec_spiece());
    }
    d
}

fn zpiece_def() -> (d: Vec<Vec<DefinitionBlock>>)
    ensures
        rows_view(d) == spec_zpiece(),
{
    let mut row0: Vec<DefinitionBlock> = Vec::new();
    row0.push(DefinitionBlock::Filled);
    row0.push(DefinitionBlock::Origin);
    row0.push(DefinitionBlock::Blank);
    let mut row1: Vec<DefinitionBlock> = Vec::new();
    row1.push(DefinitionBlock::Blank);
    row1.push(DefinitionBlock::Filled);
    row1.push(DefinitionBlock::Filled);
    let mut d: Vec<Vec<DefinitionBlock>> = Vec::new();
    d.push(row0);
    d.push(row1);
    proof {
        assert(rows_view(d) =~~= spec_zpiece());
    }
    d
}

fn lpiece_def() -> (d: Vec<Vec<DefinitionBlock>>)
    ensures
        rows_view(d) == spec_lpiece(),
{
    let mut row0: Vec<DefinitionBlock> = Vec::new();
    row0.push(DefinitionBlock::Filled);
    row0.push(DefinitionBlock::Blank);
    let mut row1: Vec<DefinitionBlock> = Vec::new();
    row1.push(DefinitionBlock::Origin);
    row1.push(DefinitionBlock::Blank);
    let mut row2: Vec<DefinitionBlock> = Vec::new();
    row2.push(DefinitionBlock::Filled);
    row2.push(DefinitionBlock::Filled);
    let mut d: Vec<Vec<DefinitionBlock>> = Vec::new();
    d.push(row0);
    d.push(row1);
    d.push(row2);
    proof {
        assert(rows_view(d) =~~= spec_lpiece());
    }
    d
}

fn jpiece_def() -> (d: Vec<Vec<DefinitionBlock>>)
    ensures
        rows_view(d) == spec_jpiece(),
{
    let mut row0: Vec<DefinitionBlock> = Vec::new();
    row0.push(DefinitionBlock::Blank);
    row0.push(DefinitionBlock::Filled);
    let mut row1: Vec<DefinitionBlock> = Vec::new();
    row1.push(DefinitionBlock::Blank);
    row1.push(DefinitionBlock::Origin);
    let mut row2: Vec<DefinitionBlock> = Vec::new();
    row2.push(DefinitionBlock::Filled);
    row2.push(DefinitionBlock::Filled);
    let mut d: Vec<Vec<DefinitionBlock>> = Vec::new();
    d.push(row0);
    d.push(row1);
    d.push(row2);
    proof {
        assert(rows_view(d) =~~= spec_jpiece());
    }
    d
}

fn game_over_def() -> (d: Vec<Vec<DefinitionBlock>>)
    ensures
        rows_view(d) == spec_game_over(),
{
    let mut d: Vec<Vec<DefinitionBlock>> = Vec::new();
    let mut row0: Vec<DefinitionBlock> = Vec::new();
    row0.push(DefinitionBlock::Text("+---------------------+"));
    d.push(row0);
    let mut row1: Vec<DefinitionBlock> = Vec::new();
    row1.push(DefinitionBlock::Text("|                     |"));
    d.push(row1);
    let mut row2: Vec<DefinitionBlock> = Vec::new();
    row2.push(DefinitionBlock::Text("|      GAME OVER      |"));
    d.push(row2);
    let mut row3: Vec<DefinitionBlock> = Vec::new();
    row3.push(DefinitionBlock::Text("|                     |"));
    d.push(row3);
    let mut row4: Vec<DefinitionBlock> = Vec::new();
    row4.push(DefinitionBlock::Text("|  esc ends the game  |"));
    d.push(row4);
    let mut row5: Vec<DefinitionBlock> = Vec::new();
    row5.push(DefinitionBlock::Text("|                     |"));
    d.push(row5);
    let mut row6: Vec<DefinitionBlock> = Vec::new();
    row6.push(DefinitionBlock::Text("+---------------------+"));
    d.push(row6);
    let mut row7: Vec<DefinitionBlock> = Vec::new();
    row7.push(DefinitionBlock::Origin);
    d.push(row7);
    proof {
        assert(rows_view(d) =~~= spec_game_over());
    }
    d
}

/// The fixed registry of named piece definitions, built once at startup.
pub struct PieceDefinitions {
    piece_map: PieceMap,
}

impl PieceDefinitions {
    /// The registry holds exactly the catalogued pieces.
    pub closed spec fn wf(&self) -> bool {
        catalog_wf(self.piece_map@)
    }

    pub fn new() -> (s: Self)
        ensures
            s.wf(),
    {
        PieceDefinitions { piece_map: Self::get_piece_map() }
    }

    pub fn get_piece_map() -> (m: PieceMap)
        ensures
            catalog_wf(m@),
    {
        let mut map: PieceMap = Vec::new();
        map.push(("line", PieceDefinition::new(line_def(), PieceFreezeProperty::Normal)));
        map.push(("square", PieceDefinition::new(square_def(), PieceFreezeProperty::Normal)));
        map.push(("podium", PieceDefinition::new(podium_def(), PieceFreezeProperty::Normal)));
        map.push(("lpiece", PieceDefinition::new(lpiece_def(), PieceFreezeProperty::Normal)));
        map.push(("jpiece", PieceDefinition::new(jpiece_def(), PieceFreezeProperty::Normal)));
        map.push(("spiece", PieceDefinition::new(spiece_def(), PieceFreezeProperty::Normal)));
        map.push(("zpiece", PieceDefinition::new(zpiece_def(), PieceFreezeProperty::Normal)));
        map.push(
            ("gameoverpiece", PieceDefinition::new(game_over_def(), PieceFreezeProperty::Normal)),
        );
        map
    }

    /// Looks a piece definition up by its registered name. Unregistered names
    /// are a programming error and are ruled out by the precondition.
    pub fn get_piece_def(&self, key: &str) -> (r: &PieceDefinition)
        requires
            self.wf(),
            is_piece_name(key@),
        ensures
            def_for(key@, *r),
    {
        proof {
            reveal_strlit("line");
            reveal_strlit("square");
            reveal_strlit("podium");
            reveal_strlit("lpiece");
            reveal_strlit("jpiece");
            reveal_strlit("spiece");
            reveal_strlit("zpiece");
            reveal_strlit("gameoverpiece");
            assert("line"@.len() == 4);
            assert("square"@.len() == 6);
            assert("podium"@.len() == 6);
            assert("lpiece"@.len() == 6);
            assert("jpiece"@.len() == 6);
            assert("spiece"@.len() == 6);
            assert("zpiece"@.len() == 6);
            assert("gameoverpiece"@.len() == 13);
            assert("square"@[0] == 's');
            assert("podium"@[0] == 'p');
            assert("lpiece"@[0] == 'l');
            assert("jpiece"@[0] == 'j');
            assert("spiece"@[0] == 's');
            assert("zpiece"@[0] == 'z');
            assert("square"@[1] == 'q');
            assert("spiece"@[1] == 'p');
            assert("square"@ != "podium"@);
            assert("square"@ != "lpiece"@);
            assert("square"@ != "jpiece"@);
            assert("square"@ != "spiece"@);
            assert("square"@ != "zpiece"@);
            assert("podium"@ != "lpiece"@);
            assert("podium"@ != "jpiece"@);
            assert("podium"@ != "spiece"@);
            assert("podium"@ != "zpiece"@);
            assert("lpiece"@ != "jpiece"@);
            assert("lpiece"@ != "spiece"@);
            assert("lpiece"@ != "zpiece"@);
            assert("jpiece"@ != "spiece"@);
            assert("jpiece"@ != "zpiece"@);
            assert("spiece"@ != "zpiece"@);
        }
        if str_eq(key, "line") {
            &self.piece_map[0].1
        } else if str_eq(key, "square") {
            &self.piece_map[1].1
        } else if str_eq(key, "podium") {
            &self.piece_map[2].1
        } else if str_eq(key, "lpiece") {
            &self.piece_map[3].1
        } else if str_eq(key, "jpiece") {
            &self.piece_map[4].1
        } else if str_eq(key, "spiece") {
            &self.piece_map[5].1
        } else if str_eq(key, "zpiece") {
            &self.piece_map[6].1
        } else {
            &self.piece_map[7].1
        }
    }
}

} // verus!
