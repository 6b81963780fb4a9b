use std::sync::mpsc::channel;

use tootris::game::game_loop_controller::EvilGameMaster;
use tootris::game::piece::Piece;
use tootris::game::piece_types::PieceDefinitions;
use tootris::game::tootris::BlockColor;
use tootris::game::tootris::Communique;
use tootris::game::tootris::GameBlock;
use tootris::game::tootris::GameBroadcaster;
use tootris::game::tootris::GameState;
use tootris::game::tootris::GameUpdateReceiver;
use tootris::game::tootris::Master2RenderCommunique;
use tootris::game::tootris::PlayerMove;
use tootris::game::tootris::Point;
use tootris::game::tootris::Renderer;
use tootris::game::tootris::Rotation;
use tootris::game::tootris::UI2MasterCommunique;
use tootris::game::tootris::UI2RenderCommunique;
use tootris::game::tootris::UIHandler;
use tootris::rng::SeededRandom;
use tootris::ui::simple_command_ui::SimpleCommandUi;

pub struct MockCommReceiver {
    master_to_render_receiver: Option<GameUpdateReceiver<Master2RenderCommunique>>,
    ui_to_render_receiver: Option<GameUpdateReceiver<UI2RenderCommunique>>,
}

impl MockCommReceiver {
    fn print_any_update(&mut self) {
        if self.master_to_render_receiver.is_some() {
            let result = self
                .master_to_render_receiver
                .as_mut()
                .unwrap()
                .receiver
                .try_recv();
            if result.is_ok() {
                let update = result.unwrap();
                if update.state.is_some() {
                    println!("[{:?}]", update.state.unwrap());
                }
            }
        }
    }

    fn new() -> Self {
        MockCommReceiver {
            master_to_render_receiver: None,
            ui_to_render_receiver: None,
        }
    }
}

impl Renderer for MockCommReceiver {
    fn render(&mut self) -> bool {
        true
    }
    fn give_master_receiver(&mut self, receiver: GameUpdateReceiver<Master2RenderCommunique>) {
        self.master_to_render_receiver = Some(receiver);
    }

    fn give_ui_receiver(&mut self, receiver: GameUpdateReceiver<UI2RenderCommunique>) {
        self.ui_to_render_receiver = Some(receiver);
    }
}

#[test]
fn test_piece() {
    let pieces: PieceDefinitions = PieceDefinitions::new();
    let mut my_piece: Piece = Piece::of_type(
        pieces.get_piece_def("podium"),
        BlockColor::Blue,
        Point { x: 5, y: 8 },
    );
    let mut my_level: Vec<Vec<GameBlock>> = vec![vec![GameBlock::Empty; 10]; 24];
    println!("{}", Piece::generate_string_representation(&my_piece));
    my_piece.place_in_matrix(&mut my_level);
    my_piece.remove_from_matrix(&mut my_level);
    my_piece.rotate(&Rotation::Forward);
    println!("{}", Piece::generate_string_representation(&my_piece));
    my_piece.place_in_matrix(&mut my_level);
    my_piece.remove_from_matrix(&mut my_level);
    my_piece.rotate(&Rotation::Forward);
    println!("{}", Piece::generate_string_representation(&my_piece));
    my_piece.place_in_matrix(&mut my_level);
    my_piece.remove_from_matrix(&mut my_level);
    my_piece.rotate(&Rotation::Forward);
    println!("{}", Piece::generate_string_representation(&my_piece));
    my_piece.place_in_matrix(&mut my_level);
    my_piece.remove_from_matrix(&mut my_level);
    my_piece.rotate(&Rotation::Forward);
    println!("{}", Piece::generate_string_representation(&my_piece));
    my_piece.place_in_matrix(&mut my_level);
    my_piece.remove_from_matrix(&mut my_level);
    for y in 0..my_level.len() {
        for x in 0..my_level[0].len() {
            assert_eq!(my_level[y][x], GameBlock::Empty);
        }
    }
}

#[test]
fn test_rotation_tootris_ending() {
    let mut ui = SimpleCommandUi {
        master_receiver: None,
        master_broadcaster: None,
        command_queue: Vec::new(),
    };

    let pieces: PieceDefinitions = PieceDefinitions::new();

    let my_point = Point { x: 5, y: 8 };
    let my_piece: Piece = Piece::of_type(
        pieces.get_piece_def("zpiece"),
        BlockColor::Blue,
        my_point.clone(),
    );

    let mut master = EvilGameMaster::new(
        22,
        10,
        Some(my_piece),
        None,
        None,
        None,
        SeededRandom::new(7),
    );
    let chan_master_render = channel();
    let chan_ui_master = channel();
    ui.give_master_broadcaster(GameBroadcaster {
        channel_out: chan_ui_master.0,
    });
    master.give_ui_receiver(GameUpdateReceiver {
        receiver: chan_ui_master.1,
    });
    master.give_render_slave(GameBroadcaster {
        channel_out: chan_master_render.0,
    });

    let mut mock_renderer = MockCommReceiver::new();
    mock_renderer.give_master_receiver(GameUpdateReceiver {
        receiver: chan_master_render.1,
    });

    master.resume_game();
    while master.active_piece.as_ref().unwrap().location.y < 10 {
        master.process_game();
        mock_renderer.print_any_update();
        ui.handle_ui();
        ui.submit_command("L");
    }
}

#[test]
fn test_collision_artificial() {
    let pieces: PieceDefinitions = PieceDefinitions::new();

    let my_point = Point { x: 4, y: 2 };
    let other_point = Point { x: 2, y: 4 };

    let mut my_piece: Piece = Piece::of_type(
        pieces.get_piece_def("jpiece"),
        BlockColor::Blue,
        my_point.clone(),
    );
    my_piece.rotate(&Rotation::OrientLeft);
    let other_piece: Piece = Piece::of_type(
        pieces.get_piece_def("line"),
        BlockColor::Magenta,
        other_point.clone(),
    );
    println!("{}", Piece::generate_string_representation(&my_piece));
    println!("{}", Piece::generate_string_representation(&other_piece));
    let mut master = EvilGameMaster::new(
        6,
        8,
        Some(my_piece.clone()),
        None,
        None,
        None,
        SeededRandom::new(3),
    );
    other_piece.place_in_matrix(&mut master.level);

    master.resume_game();
    while master.active_piece.is_some() {
        master.process_game();
        if master.active_piece.is_none() {
            break;
        }
        assert!(master.active_piece.as_ref().unwrap().location.y < 4);
    }

    let matrix = &mut master.level;
    assert_eq!(matrix[4][1], GameBlock::Filled(BlockColor::Magenta));
    assert_eq!(matrix[4][2], GameBlock::Filled(BlockColor::Magenta));
    assert_eq!(matrix[4][3], GameBlock::Filled(BlockColor::Magenta));
    assert_eq!(matrix[4][4], GameBlock::Filled(BlockColor::Magenta));
    assert_eq!(matrix[3][3], GameBlock::Filled(BlockColor::Blue));
    assert_eq!(matrix[3][4], GameBlock::Filled(BlockColor::Blue));
    assert_eq!(matrix[3][5], GameBlock::Filled(BlockColor::Blue));
    assert_eq!(matrix[4][5], GameBlock::Filled(BlockColor::Blue));

    master.process_game();

    assert!(master.active_piece.is_some());
    my_piece.location.x += 1;
    master.active_piece = Some(my_piece.clone());

    while master.active_piece.is_some() {
        master.process_game();
        if master.active_piece.is_none() {
            break;
        }
        assert!(master.active_piece.as_ref().unwrap().location.y < 3);
    }
    let matrix = &mut master.level;
    assert_eq!(matrix[4][1], GameBlock::Filled(BlockColor::Magenta));
    assert_eq!(matrix[4][2], GameBlock::Filled(BlockColor::Magenta));
    assert_eq!(matrix[4][3], GameBlock::Filled(BlockColor::Magenta));
    assert_eq!(matrix[4][4], GameBlock::Filled(BlockColor::Magenta));
    assert_eq!(matrix[3][3], GameBlock::Filled(BlockColor::Blue));
    assert_eq!(matrix[3][4], GameBlock::Filled(BlockColor::Blue));
    assert_eq!(matrix[3][5], GameBlock::Filled(BlockColor::Blue));
    assert_eq!(matrix[4][5], GameBlock::Filled(BlockColor::Blue));
    assert_eq!(matrix[2][4], GameBlock::Filled(BlockColor::Blue));
    assert_eq!(matrix[2][5], GameBlock::Filled(BlockColor::Blue));
    assert_eq!(matrix[2][6], GameBlock::Filled(BlockColor::Blue));
    assert_eq!(matrix[3][6], GameBlock::Filled(BlockColor::Blue));

    for y in 0..matrix.len() {
        let mut line = String::new();
        for x in 0..matrix[0].len() {
            if matrix[y][x] == GameBlock::Indestructible {
                line.push('B');
            } else if matrix[y][x] != GameBlock::Empty {
                line.push('#');
            } else {
                line.push('-');
            }
        }
        println!("{}", line);
    }
}

#[test]
fn test_game_master_init_ticks_movement_comm() {
    let pieces: PieceDefinitions = PieceDefinitions::new();

    let my_point = Point { x: 5, y: 8 };
    let my_piece: Piece = Piece::of_type(
        pieces.get_piece_def("podium"),
        BlockColor::Blue,
        my_point.clone(),
    );
    let mut master = EvilGameMaster::new(
        22,
        10,
        Some(my_piece),
        None,
        None,
        None,
        SeededRandom::new(42),
    );

    let ylen = master.level.len();
    assert_eq!(master.level[0][0], GameBlock::Indestructible);
    assert_eq!(master.level[1][0], GameBlock::Indestructible);
    assert_eq!(master.level[2][0], GameBlock::Indestructible);
    assert_eq!(master.level[3][0], GameBlock::Indestructible);
    assert_eq!(master.level[4][0], GameBlock::Indestructible);
    assert_eq!(master.level[5][0], GameBlock::Indestructible);
    assert_eq!(master.level[6][0], GameBlock::Indestructible);
    assert_eq!(master.level[7][0], GameBlock::Indestructible);
    assert_eq!(master.level[8][0], GameBlock::Indestructible);
    assert_eq!(master.level[9][0], GameBlock::Indestructible);
    assert_eq!(master.level[10][0], GameBlock::Indestructible);
    assert_eq!(master.level[11][0], GameBlock::Indestructible);
    assert_eq!(master.level[12][0], GameBlock::Indestructible);
    assert_eq!(master.level[13][0], GameBlock::Indestructible);
    assert_eq!(master.level[14][0], GameBlock::Indestructible);
    assert_eq!(master.level[15][0], GameBlock::Indestructible);
    assert_eq!(master.level[16][0], GameBlock::Indestructible);
    assert_eq!(master.level[17][0], GameBlock::Indestructible);
    assert_eq!(master.level[18][0], GameBlock::Indestructible);
    assert_eq!(master.level[19][0], GameBlock::Indestructible);
    assert_eq!(master.level[20][0], GameBlock::Indestructible);
    assert_eq!(master.level[21][0], GameBlock::Indestructible);
    assert_eq!(master.level[ylen - 1][0], GameBlock::Indestructible);
    assert_eq!(master.level[ylen - 1][1], GameBlock::Indestructible);
    assert_eq!(master.level[ylen - 1][2], GameBlock::Indestructible);
    assert_eq!(master.level[ylen - 1][3], GameBlock::Indestructible);
    assert_eq!(master.level[ylen - 1][4], GameBlock::Indestructible);
    assert_eq!(master.level[ylen - 1][5], GameBlock::Indestructible);
    assert_eq!(master.level[ylen - 1][6], GameBlock::Indestructible);
    assert_eq!(master.level[ylen - 1][7], GameBlock::Indestructible);
    assert_eq!(master.level[ylen - 1][8], GameBlock::Indestructible);
    assert_eq!(master.level[ylen - 1][9], GameBlock::Indestructible);

    let mut mock: MockCommReceiver = MockCommReceiver::new();
    let chan_master_render = channel();
    let chan_ui_master = channel();

    let master_2_render_receiver: GameUpdateReceiver<Master2RenderCommunique> =
        GameUpdateReceiver {
            receiver: chan_master_render.1,
        };
    mock.give_master_receiver(master_2_render_receiver);

    let master_2_render_sender: GameBroadcaster<Master2RenderCommunique> = GameBroadcaster {
        channel_out: chan_master_render.0,
    };
    master.give_render_slave(master_2_render_sender);
    let ui_2_master_sender: GameBroadcaster<UI2MasterCommunique> = GameBroadcaster {
        channel_out: chan_ui_master.0,
    };
    let ui_2_master_receiver: GameUpdateReceiver<UI2MasterCommunique> = GameUpdateReceiver {
        receiver: chan_ui_master.1,
    };
    master.give_ui_receiver(ui_2_master_receiver);
    master.resume_game();
    assert_eq!(master.state, GameState::Playing);
    master.process_game();
    assert_eq!(master.state, GameState::Playing);
    while master.active_piece.as_ref().unwrap().location.y < 9 {
        let move_command = UI2MasterCommunique {
            comm_type: Communique::Update,
            command: None,
            player_move: Some(PlayerMove::StepLeft),
        };
        let _ = ui_2_master_sender.channel_out.send(move_command);
        master.process_game();
        mock.print_any_update();
        assert!(master.sw.is_running());
    }
    println!("Score: {}", master.score);
    assert_eq!(master.active_piece.as_ref().unwrap().location.y, 9);
    while master.active_piece.is_none() || master.active_piece.as_ref().unwrap().location.y > 8 {
        master.process_game();
        mock.print_any_update();
        mock.print_any_update();
        assert!(master.sw.is_running());
    }
}
