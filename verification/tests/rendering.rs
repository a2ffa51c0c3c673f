use microtile_engine::gameplay::board::{Board, ProcessesRows};
use microtile_engine::gameplay::branch::Branch;
use microtile_engine::gameplay::game::{Game, NoopObserver, TileFloating, TileNeeded};
use microtile_engine::geometry::grid::{ExtGrid, Grid};
use microtile_engine::geometry::tile::BasicTile;
use microtile_engine::rendering::{Active, Passive, Rendering, RenderingExt};

#[test]
fn a_floating_tile_is_rendered_in_the_active_layer() {
    let game: Game<TileNeeded, NoopObserver> = Game::new();
    let Branch::Left(game) = game.place_tile(BasicTile::Diagonal) else {
        panic!("the game is over")
    };

    let active = <Game<TileFloating, NoopObserver> as RenderingExt<5, 5, Active>>::render(&game);
    assert_eq!(
        active,
        [
            [false; 5],
            [false; 5],
            [false; 5],
            [false, false, true, false, false],
            [false, false, false, true, false],
        ]
    );
    let passive = <Game<TileFloating, NoopObserver> as RenderingExt<5, 5, Passive>>::render(&game);
    assert_eq!(passive, [[false; 5]; 5]);
}

#[test]
fn the_rows_of_a_board_are_rendered_in_two_layers() {
    let playfield = [
        [true, false, true, false, false],
        [false, true, false, false, false],
        [false; 5],
        [false, false, false, false, true],
        [false; 5],
    ];
    let board = Board::<ProcessesRows>::from_grid(ExtGrid::from(Grid::from(playfield)));

    let mut active = [[true; 5]; 5];
    <Board<ProcessesRows> as Rendering<5, 5, Active>>::render_buf(&board, &mut active);
    assert_eq!(
        active,
        [[true, false, true, false, false], [false; 5], [false; 5], [false; 5], [false; 5]]
    );

    let mut passive = [[true; 5]; 5];
    <Board<ProcessesRows> as Rendering<5, 5, Passive>>::render_buf(&board, &mut passive);
    assert_eq!(
        passive,
        [
            [false; 5],
            [false, true, false, false, false],
            [false; 5],
            [false, false, false, false, true],
            [false; 5],
        ]
    );
}
