use std::sync::mpsc::channel;

use tootris::game::game_loop_controller::row_completion;
use tootris::game::game_loop_controller::EvilGameMaster;
use tootris::game::game_loop_controller::RowScan;
use tootris::game::piece::Piece;
use tootris::game::piece_types::DefinitionBlock;
use tootris::game::piece_types::PieceDefinitions;
use tootris::game::piece_types::PieceFreezeProperty;
use tootris::game::tootris::BlockColor;
use tootris::game::tootris::Communique;
use tootris::game::tootris::GameBlock;
use tootris::game::tootris::GameBroadcaster;
use tootris::game::tootris::GameState;
use tootris::game::tootris::GameUpdateReceiver;
use tootris::game::tootris::Orientation;
use tootris::game::tootris::PlayerMove;
use tootris::game::tootris::Point;
use tootris::game::tootris::Rotation;
use tootris::game::tootris::UI2MasterCommunique;
use tootris::game::tootris::UiCommand;
use tootris::rng::RandomSource;
use tootris::rng::SeededRandom;
use tootris::rng::ThreadRandom;
use tootris::ui::simple_command_ui::SimpleCommandUi;

fn cell_tag(b: &DefinitionBlock) -> u8 {
    match b {
        DefinitionBlock::Origin => 0,
        DefinitionBlock::Filled => 1,
        DefinitionBlock::Blank => 2,
        DefinitionBlock::Text(_) => 3,
    }
}

fn matrices_equal(a: &Vec<Vec<DefinitionBlock>>, b: &Vec<Vec<DefinitionBlock>>) -> bool {
    if a.len() != b.len() {
        return false;
    }
    for y in 0..a.len() {
        if a[y].len() != b[y].len() {
            return false;
        }
        for x in 0..a[y].len() {
            if cell_tag(&a[y][x]) != cell_tag(&b[y][x]) {
                return false;
            }
        }
    }
    true
}

fn filled_row(width: usize, gap: Option<usize>) -> Vec<GameBlock> {
    let mut row = vec![GameBlock::Filled(BlockColor::Green); width];
    row[0] = GameBlock::Indestructible;
    row[width - 1] = GameBlock::Indestructible;
    if let Some(g) = gap {
        row[g] = GameBlock::Empty;
    }
    row
}

#[test]
fn test_four_forward_rotations_restore_matrix() {
    let pieces = PieceDefinitions::new();
    for name in ["line", "square", "podium", "lpiece", "jpiece", "spiece", "zpiece"] {
        let mut piece = Piece::of_type(
            pieces.get_piece_def(name),
            BlockColor::Cyan,
            Point { x: 5, y: 8 },
        );
        let before = piece.current_matrix.clone();
        piece.rotate(&Rotation::Forward);
        piece.rotate(&Rotation::Forward);
        piece.rotate(&Rotation::Forward);
        piece.rotate(&Rotation::Forward);
        assert_eq!(piece.orientation, Orientation::Normal);
        assert!(matrices_equal(&before, &piece.current_matrix));
    }
}

#[test]
fn test_piece_visual_representation() {
    let pieces = PieceDefinitions::new();
    let piece = Piece::of_type(
        pieces.get_piece_def("podium"),
        BlockColor::Blue,
        Point { x: 5, y: 8 },
    );
    assert_eq!(Piece::generate_string_representation(&piece), " # \n###\n");
}

#[test]
fn test_row_completion_classification() {
    // Border, all-filled interior, border: complete.
    assert!(matches!(row_completion(&filled_row(10, None)), RowScan::Complete));
    // One empty interior cell disqualifies the row.
    assert!(matches!(row_completion(&filled_row(10, Some(4))), RowScan::Incomplete));
    // A filled cell before the first border is reported and excluded.
    let mut before_border = filled_row(10, None);
    before_border[0] = GameBlock::Filled(BlockColor::Blue);
    assert!(matches!(row_completion(&before_border), RowScan::Malformed));
    // A filled cell after the second border is reported and excluded.
    let mut after_border = vec![GameBlock::Empty; 10];
    after_border[0] = GameBlock::Indestructible;
    after_border[3] = GameBlock::Filled(BlockColor::Blue);
    after_border[5] = GameBlock::Indestructible;
    after_border[7] = GameBlock::Filled(BlockColor::Blue);
    assert!(matches!(row_completion(&after_border), RowScan::Malformed));
    // A border-only row (the floor) is never complete.
    let floor = vec![GameBlock::Indestructible; 10];
    assert!(matches!(row_completion(&floor), RowScan::Incomplete));
    // An empty bordered row is simply incomplete.
    let mut empty_row = vec![GameBlock::Empty; 10];
    empty_row[0] = GameBlock::Indestructible;
    empty_row[9] = GameBlock::Indestructible;
    assert!(matches!(row_completion(&empty_row), RowScan::Incomplete));
}

#[test]
fn test_clearing_one_row_scores_interior_width() {
    // Interior width is 8 on a 10-wide board: one row pays 8.
    let mut master = EvilGameMaster::new(6, 10, None, None, None, None, SeededRandom::new(1));
    master.level[3] = filled_row(10, None);
    master.find_completed_rows();
    assert_eq!(master.completed_rows, vec![3]);
    master.state = GameState::Tootris;
    master.apply_row_clear();
    assert_eq!(master.score, 8);
    assert_eq!(master.state, GameState::Playing);
    assert_eq!(master.level.len(), 6);
    assert!(master.completed_rows.is_empty());
    for x in 1..9 {
        assert_eq!(master.level[0][x], GameBlock::Empty);
    }
}

#[test]
fn test_clearing_two_rows_scores_superlinearly() {
    // Two rows on interior width 8 pay (2 * 8) squared: 256.
    let mut master = EvilGameMaster::new(6, 10, None, None, None, None, SeededRandom::new(1));
    master.level[2] = filled_row(10, None);
    master.level[4] = filled_row(10, None);
    master.level[3] = filled_row(10, Some(5));
    master.find_completed_rows();
    assert_eq!(master.completed_rows, vec![2, 4]);
    master.state = GameState::Tootris;
    let old_speed = 1;
    master.apply_row_clear();
    assert_eq!(master.score, 256);
    assert_eq!(master.speed, old_speed + 2);
    // Row count is preserved: two fresh rows on top; the kept rows follow in
    // order, so the gapped row (previously at index 3) now sits at index 4.
    assert_eq!(master.level.len(), 6);
    assert_eq!(master.level[4][5], GameBlock::Empty);
    assert_eq!(master.level[4][4], GameBlock::Filled(BlockColor::Green));
    assert_eq!(master.state, GameState::Playing);
}

#[test]
fn test_piece_rests_just_above_floor_and_next_spawns() {
    // An empty bordered 10-wide, 22-tall board; the podium piece dropped from
    // (5, 8) rests with its lowest cells on row 20, just above the floor.
    let pieces = PieceDefinitions::new();
    let piece = Piece::of_type(
        pieces.get_piece_def("podium"),
        BlockColor::Blue,
        Point { x: 5, y: 8 },
    );
    let mut master = EvilGameMaster::new(22, 10, Some(piece), None, None, None, SeededRandom::new(5));
    master.resume_game();
    while master.process_move(&PlayerMove::StepDown) {}
    assert_eq!(master.active_piece.as_ref().unwrap().location.y, 20);
    // The next gravity tick freezes it and a fresh piece spawns near the top.
    while master.active_piece.is_some() {
        master.process_game();
    }
    assert_eq!(master.level[20][5], GameBlock::Filled(BlockColor::Blue));
    while master.active_piece.is_none() {
        master.process_game();
    }
    assert_eq!(master.active_piece.as_ref().unwrap().location.y, 1);
}

#[test]
fn test_drop_into_gap_clears_row_and_scores() {
    // Row 20 is filled except one gap; a vertical line piece drops into the
    // gap, the row clears on the next row-clearing tick, and the score rises
    // by the interior width.
    let pieces = PieceDefinitions::new();
    let mut line = Piece::of_type(
        pieces.get_piece_def("line"),
        BlockColor::Cyan,
        Point { x: 5, y: 8 },
    );
    line.rotate(&Rotation::Forward);
    let mut master = EvilGameMaster::new(22, 10, Some(line), None, None, None, SeededRandom::new(9));
    master.level[20] = filled_row(10, Some(5));
    master.resume_game();
    while master.process_move(&PlayerMove::StepDown) {}
    // The line's lowest cell sits in the gap on row 20.
    while master.state == GameState::Playing && master.active_piece.is_some() {
        master.process_game();
    }
    assert_eq!(master.state, GameState::Tootris);
    assert_eq!(master.completed_rows, vec![20]);
    while master.state == GameState::Tootris {
        master.process_game();
    }
    assert_eq!(master.score, 8);
    assert_eq!(master.level.len(), 22);
    // The rest of the line shifted down one row with the clearance.
    assert_eq!(master.level[20][5], GameBlock::Filled(BlockColor::Cyan));
    assert!(master.completed_rows.is_empty());
}

#[test]
fn test_spawn_collision_ends_game() {
    // A board whose spawn area is pre-filled sends the machine straight to
    // End, with no piece displayed.
    let mut master = EvilGameMaster::new(6, 8, None, None, None, None, SeededRandom::new(11));
    for y in 0..4 {
        for x in 1..7 {
            master.level[y][x] = GameBlock::Filled(BlockColor::White);
        }
    }
    master.resume_game();
    assert_eq!(master.state, GameState::Playing);
    master.process_game();
    assert_eq!(master.state, GameState::End);
    assert!(master.active_piece.is_none());
}

#[test]
fn test_new_game_resets() {
    let mut master = EvilGameMaster::new(6, 10, None, None, None, None, SeededRandom::new(2));
    master.score = 1000;
    master.level[3] = filled_row(10, None);
    master.new_game();
    assert_eq!(master.score, 0);
    assert!(master.active_piece.is_none());
    assert_eq!(master.state, GameState::Start);
    for x in 1..9 {
        assert_eq!(master.level[3][x], GameBlock::Empty);
    }
}

#[test]
fn test_blocked_moves_roll_back() {
    // Against the left wall, a step left is refused and the location is
    // unchanged; the same holds at the floor.
    let pieces = PieceDefinitions::new();
    let piece = Piece::of_type(
        pieces.get_piece_def("square"),
        BlockColor::Blue,
        Point { x: 1, y: 8 },
    );
    let mut master = EvilGameMaster::new(22, 10, Some(piece), None, None, None, SeededRandom::new(4));
    master.resume_game();
    assert!(!master.process_move(&PlayerMove::StepLeft));
    let loc = master.active_piece.as_ref().unwrap().location;
    assert_eq!(loc, Point { x: 1, y: 8 });
    assert!(master.process_move(&PlayerMove::StepRight));
    assert_eq!(master.active_piece.as_ref().unwrap().location, Point { x: 2, y: 8 });
}

#[test]
fn test_rotation_against_wall_rolls_back() {
    // A vertical line piece hard against the left border cannot rotate back
    // to horizontal: the orientation is restored.
    let pieces = PieceDefinitions::new();
    let mut line = Piece::of_type(
        pieces.get_piece_def("line"),
        BlockColor::Cyan,
        Point { x: 1, y: 8 },
    );
    line.rotate(&Rotation::Forward);
    let mut master = EvilGameMaster::new(22, 10, Some(line), None, None, None, SeededRandom::new(8));
    master.resume_game();
    assert!(!master.process_move(&PlayerMove::RotateForward));
    let piece = master.active_piece.as_ref().unwrap();
    assert_eq!(piece.orientation, Orientation::Forward);
    assert_eq!(piece.location, Point { x: 1, y: 8 });
}

#[test]
fn test_piece_catalog_lookup() {
    let pieces = PieceDefinitions::new();
    assert_eq!(pieces.get_piece_def("line").def.len(), 1);
    assert_eq!(pieces.get_piece_def("line").def[0].len(), 4);
    assert_eq!(pieces.get_piece_def("square").def.len(), 2);
    assert_eq!(pieces.get_piece_def("podium").prop, PieceFreezeProperty::Normal);
    assert_eq!(pieces.get_piece_def("zpiece").prop, PieceFreezeProperty::Normal);
    assert_eq!(pieces.get_piece_def("gameoverpiece").def.len(), 8);
}

#[test]
fn test_block_equality_by_kind() {
    // Occupancy equality ignores colour and text.
    assert_eq!(
        GameBlock::Filled(BlockColor::Blue),
        GameBlock::Filled(BlockColor::Magenta)
    );
    assert_ne!(GameBlock::Filled(BlockColor::Blue), GameBlock::Empty);
    assert_ne!(GameBlock::Indestructible, GameBlock::Empty);
    assert!(GameBlock::Empty.is_any(&[
        GameBlock::Filled(BlockColor::Blue),
        GameBlock::Empty
    ]));
    assert!(!GameBlock::Indestructible.is_any(&[GameBlock::Empty]));
}

#[test]
fn test_rotation_cycle_of_orientations() {
    let mut o = Orientation::Normal;
    o = Rotation::Forward.perform(&o);
    assert_eq!(o, Orientation::Forward);
    o = Rotation::Forward.perform(&o);
    assert_eq!(o, Orientation::UpsideDown);
    o = Rotation::Forward.perform(&o);
    assert_eq!(o, Orientation::Backwards);
    o = Rotation::Forward.perform(&o);
    assert_eq!(o, Orientation::Normal);
}

#[test]
fn test_random_sources_stay_below_bound() {
    let mut thread_rng = ThreadRandom::new();
    assert_eq!(thread_rng.next_below(1), 0);
    for _ in 0..100 {
        assert!(thread_rng.next_below(6) < 6);
    }
    let mut seeded = SeededRandom::new(123);
    for _ in 0..100 {
        assert!(seeded.next_below(7) < 7);
    }
    // The same seed yields the same draws.
    let mut a = SeededRandom::new(5);
    let mut b = SeededRandom::new(5);
    for _ in 0..20 {
        assert_eq!(a.next_below(100), b.next_below(100));
    }
}

#[test]
fn test_command_words_reach_master() {
    let mut ui = SimpleCommandUi {
        master_receiver: None,
        master_broadcaster: None,
        command_queue: Vec::new(),
    };
    let (tx, rx) = channel();
    let mut master_side = GameUpdateReceiver { receiver: rx };
    ui.master_broadcaster = Some(GameBroadcaster { channel_out: tx });
    ui.submit_command("l");
    let msg = master_side.receiver.try_recv().unwrap();
    assert_eq!(msg.player_move, Some(PlayerMove::StepLeft));
    ui.submit_command("L,R");
    assert_eq!(
        master_side.receiver.try_recv().unwrap().player_move,
        Some(PlayerMove::OrientLeft)
    );
    assert_eq!(
        master_side.receiver.try_recv().unwrap().player_move,
        Some(PlayerMove::OrientRight)
    );
    ui.submit_command("gibberish");
    assert!(master_side.receiver.try_recv().is_err());
    ui.submit_command("frodo");
    assert_eq!(
        master_side.receiver.try_recv().unwrap().player_move,
        Some(PlayerMove::OrientDown)
    );
}

#[test]
fn test_command_word_translation() {
    assert_eq!(
        SimpleCommandUi::command_to_player_move("left"),
        Some(PlayerMove::StepLeft)
    );
    assert_eq!(
        SimpleCommandUi::command_to_player_move("r"),
        Some(PlayerMove::StepRight)
    );
    assert_eq!(
        SimpleCommandUi::command_to_player_move("rodo"),
        Some(PlayerMove::OrientDown)
    );
    assert_eq!(SimpleCommandUi::command_to_player_move("nope"), None);
    // Matching is word-for-word, not substring.
    assert!(SimpleCommandUi::command_matches_csv("rl", "L,rl,role"));
    assert!(!SimpleCommandUi::command_matches_csv("ro", "L,rl,role"));
    assert!(!SimpleCommandUi::command_matches_csv("", "L,rl,role"));
    assert!(SimpleCommandUi::command_matches_csv("U", "u,U,up"));
}

#[test]
fn test_apply_communique_dispatch() {
    let pieces = PieceDefinitions::new();
    let piece = Piece::of_type(
        pieces.get_piece_def("square"),
        BlockColor::Blue,
        Point { x: 5, y: 8 },
    );
    let mut master = EvilGameMaster::new(22, 10, Some(piece), None, None, None, SeededRandom::new(6));
    master.resume_game();
    // Pause pauses; Resume resumes.
    let command = |c: UiCommand| UI2MasterCommunique {
        comm_type: Communique::Update,
        command: Some(c),
        player_move: None,
    };
    assert!(master.apply_communique(command(UiCommand::Pause)));
    assert_eq!(master.state, GameState::Paused);
    assert!(master.apply_communique(command(UiCommand::Resume)));
    assert_eq!(master.state, GameState::Playing);
    // Other lifecycle commands are accepted and ignored.
    assert!(master.apply_communique(command(UiCommand::RefreshUi)));
    assert_eq!(master.state, GameState::Playing);
    // A player move acts on the piece.
    let mv = UI2MasterCommunique {
        comm_type: Communique::Update,
        command: None,
        player_move: Some(PlayerMove::StepRight),
    };
    assert!(master.apply_communique(mv));
    assert_eq!(master.active_piece.as_ref().unwrap().location, Point { x: 6, y: 8 });
    // A message carrying neither is ignored.
    let empty = UI2MasterCommunique {
        comm_type: Communique::Update,
        command: None,
        player_move: None,
    };
    assert!(!master.apply_communique(empty));
    assert_eq!(master.state, GameState::Playing);
    // New reinitialises; Exit is terminal.
    master.score = 77;
    assert!(master.apply_communique(command(UiCommand::New)));
    assert_eq!(master.state, GameState::Start);
    assert_eq!(master.score, 0);
    assert!(master.apply_communique(command(UiCommand::Exit)));
    assert_eq!(master.state, GameState::Exit);
}

#[test]
fn test_minimal_board_has_no_interior() {
    // A two-wide board is all border; the first spawn collides and the game
    // ends at once.
    let mut master = EvilGameMaster::new(4, 2, None, None, None, None, SeededRandom::new(13));
    for y in 0..4 {
        for x in 0..2 {
            if y == 3 || x == 0 || x == 1 {
                assert_eq!(master.level[y][x], GameBlock::Indestructible);
            }
        }
    }
    master.resume_game();
    master.process_game();
    assert_eq!(master.state, GameState::End);
    assert!(master.active_piece.is_none());
}
