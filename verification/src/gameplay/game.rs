//! The game: a tile is placed, floats down while it is moved and turned,
//! freezes into the board, and the rows of the board are processed before the
//! next tile is placed. Every phase is a type of its own, and every transition
//! consumes the game and gives the game in its next phase.

use super::board::{Board, ProcessesRows as BoardProcesses, TakesTile, BOARD_COLS, BOARD_ROWS};
use super::branch::Branch;
use super::raster::{Active, Passive, Rasterization, RasterizationExt};
use super::sealed::Seal;
use crate::geometry::grid::{ExtGrid, Grid};
use crate::geometry::tile::{
    fits, Angle, BasicTile, Dimensionee, Discrete2DSet, DisplacedTile, Displacee, RotatedTile,
    Rotatee,
};
use vstd::prelude::*;

verus! {

/// What a game shows of its board: the active layer and the passive layer,
/// in this order, each as a set of cells of the playfield.
pub type Layers = (Set<(int, int)>, Set<(int, int)>);

pub trait State: Seal {
    /// The layers that a game shows in this phase.
    spec fn layers(&self) -> Layers;

    /// The layers that a game shows in this phase, drawn.
    fn snapshot(&self) -> (drawn: (Grid, Grid))
        ensures
            drawn.0@ == self.layers().0,
            drawn.1@ == self.layers().1,
    ;
}

#[derive(Debug)]
pub struct TileNeeded {
    board: Board<TakesTile>,
}

impl Seal for TileNeeded {

}

impl State for TileNeeded {
    /// Nothing is in motion; all that has settled is passive.
    open spec fn layers(&self) -> Layers {
        (Set::empty(), self.board().playfield())
    }

    fn snapshot(&self) -> (drawn: (Grid, Grid)) {
        (Grid::default(), self.board.rasterize())
    }
}

impl TileNeeded {
    pub closed spec fn board(&self) -> Board<TakesTile> {
        self.board
    }

    #[must_use]
    fn new(board: Board<TakesTile>) -> (state: Self)
        ensures
            state.board() == board,
    {
        Self { board }
    }
}

impl Default for TileNeeded {
    fn default() -> (state: Self)
        ensures
            state.board().cells() == ExtGrid::rim_cells(),
    {
        Self::new(Board::default())
    }
}

#[derive(Debug)]
pub struct TileFloating {
    tile: DisplacedTile<RotatedTile<BasicTile>>,
    board: Board<TakesTile>,
}

impl TileFloating {
    pub closed spec fn tile(&self) -> DisplacedTile<RotatedTile<BasicTile>> {
        self.tile
    }

    pub closed spec fn board(&self) -> Board<TakesTile> {
        self.board
    }

    /// A floating tile is where the board admits it.
    #[verifier::type_invariant]
    pub open spec fn tile_fits(&self) -> bool {
        self.board().admits(&self.tile())
    }

    fn new(tile: DisplacedTile<RotatedTile<BasicTile>>, board: Board<TakesTile>) -> (state: Self)
        requires
            board.admits(&tile),
        ensures
            state.tile() == tile,
            state.board() == board,
    {
        Self { tile, board }
    }
}

impl Seal for TileFloating {

}

impl State for TileFloating {
    /// The floating tile is active; all that has settled is passive.
    open spec fn layers(&self) -> Layers {
        (ExtGrid::center_of(ExtGrid::covered_by(&self.tile())), self.board().playfield())
    }

    fn snapshot(&self) -> (drawn: (Grid, Grid)) {
        proof {
            use_type_invariant(self);
            lemma_admitted_tile_in_playfield(self.board, self.tile);
            lemma_near_tile_reaches(self.tile);
        }
        let active = match ExtGrid::try_from_discrete_2d_set(&self.tile) {
            Ok(grid) => grid.center(),
            _ => Grid::default(),
        };
        (active, self.board.rasterize())
    }
}

#[derive(Debug)]
pub struct ProcessRows {
    board: Board<BoardProcesses>,
}

impl ProcessRows {
    pub closed spec fn board(&self) -> Board<BoardProcesses> {
        self.board
    }

    fn new(board: Board<BoardProcesses>) -> (state: Self)
        ensures
            state.board() == board,
    {
        Self { board }
    }
}

impl Seal for ProcessRows {

}

impl State for ProcessRows {
    /// The row under examination is active; the other rows are passive.
    open spec fn layers(&self) -> Layers {
        (
            self.board().playfield().intersect(Grid::row_cells(self.board().current() - 1)),
            self.board().playfield().difference(Grid::row_cells(self.board().current() - 1)),
        )
    }

    fn snapshot(&self) -> (drawn: (Grid, Grid)) {
        (
            <Board<BoardProcesses> as RasterizationExt<Active>>::rasterize(&self.board),
            <Board<BoardProcesses> as RasterizationExt<Passive>>::rasterize(&self.board),
        )
    }
}

#[derive(Debug)]
pub struct Over {
    board: Board<TakesTile>,
}

impl Over {
    pub closed spec fn board(&self) -> Board<TakesTile> {
        self.board
    }

    fn new(board: Board<TakesTile>) -> (state: Self)
        ensures
            state.board() == board,
    {
        Self { board }
    }
}

impl Seal for Over {

}

impl State for Over {
    /// Nothing is in motion; all that has settled is passive.
    open spec fn layers(&self) -> Layers {
        (Set::empty(), self.board().playfield())
    }

    fn snapshot(&self) -> (drawn: (Grid, Grid)) {
        (Grid::default(), self.board.rasterize())
    }
}

/// Whoever wants to hear that the board has changed. The game hands it the
/// active and the passive layer as they are after the change.
pub trait Observer {
    fn signal_board_changed(&self, active: Grid, passive: Grid);
}

pub struct NoopObserver;

impl Observer for NoopObserver {
    fn signal_board_changed(&self, _active: Grid, _passive: Grid) {
    }
}

#[derive(Debug)]
pub enum GameError {
    ObserverFull,
    ObserverEmpty,
    InvalidMove,
}

pub struct Game<S, O> {
    s: S,
    observer: Option<O>,
    /// What the transitions of the game have told its observers so far.
    signals: Ghost<Seq<Layers>>,
}

impl<S, O> Game<S, O> {
    /// The phase of the game, with what the phase holds.
    pub closed spec fn state(&self) -> S {
        self.s
    }

    /// The observer that is attached to the game, if one is.
    pub closed spec fn observer(&self) -> Option<O> {
        self.observer
    }

    /// The signals that the transitions of the game have given to an
    /// observer, from the first to the last: the layers that each signal
    /// carried. A transition that finds no observer attached gives none.
    pub closed spec fn signals(&self) -> Seq<Layers> {
        self.signals@
    }
}

/// What a transition signals when it has changed the board: the layers as
/// they are after the change, to the observer, if one is attached.
pub open spec fn signalled<O>(observer: Option<O>, layers: Layers) -> Seq<Layers> {
    if observer is Some {
        seq![layers]
    } else {
        Seq::empty()
    }
}

/// The tile that `place_tile` puts on the board: not rotated, its origin in
/// the middle column, its top in the top row of the playfield.
pub open spec fn spawned(tile: BasicTile) -> DisplacedTile<RotatedTile<BasicTile>> {
    DisplacedTile {
        t: RotatedTile { t: tile, a: Angle::Zero },
        displ_x: 3,
        displ_y: (6 - tile.extent().1) as i32,
    }
}

/// A floating tile spans its origin and at most one step from it in either
/// direction: its origin is one of its points, wherever it is and however it
/// is turned.
pub proof fn lemma_floating_tile_points(tile: DisplacedTile<RotatedTile<BasicTile>>)
    ensures
        tile.occupies(tile.displ_x as int, tile.displ_y as int),
        forall|x: int, y: int| #[trigger]
            tile.occupies(x, y) ==> -1 <= x - tile.displ_x <= 1 && -1 <= y - tile.displ_y <= 1,
{
}

/// What the rim is for: a tile that a board admits lies in the playfield with
/// every one of its points. Reaching out of the playfield and running into a
/// set cell are one and the same.
pub proof fn lemma_admitted_tile_in_playfield(
    board: Board<TakesTile>,
    tile: DisplacedTile<RotatedTile<BasicTile>>,
)
    requires
        board.admits(&tile),
    ensures
        1 <= tile.displ_x <= 5,
        1 <= tile.displ_y <= 5,
        forall|x: int, y: int| #[trigger] tile.occupies(x, y) ==> 1 <= x <= 5 && 1 <= y <= 5,
{
    lemma_floating_tile_points(tile);
    let covered = ExtGrid::covered_by(&tile);
    let dx = tile.displ_x as int;
    let dy = tile.displ_y as int;
    assert(covered != Set::<(int, int)>::empty());
    assert(exists|p: (int, int)| covered.contains(p)) by {
        if forall|p: (int, int)| !covered.contains(p) {
            assert(covered =~= Set::<(int, int)>::empty());
        }
    }
    let p = choose|p: (int, int)| covered.contains(p);
    assert(tile.occupies(p.1, p.0));
    assert(-1 <= dx <= 7 && -1 <= dy <= 7);
    assert forall|q: (int, int)| covered.contains(q) implies !ExtGrid::on_rim(q) by {
        assert(!ExtGrid::rim_cells().contains(q));
    }
    if !(1 <= dx <= 5 && 1 <= dy <= 5) {
        if ExtGrid::in_window((dy, dx)) {
            assert(covered.contains((dy, dx)));
        } else {
            assert(ExtGrid::on_rim(p));
        }
    }
    assert forall|x: int, y: int| #[trigger] tile.occupies(x, y) implies 1 <= x <= 5 && 1 <= y
        <= 5 by {
        assert(ExtGrid::in_window((y, x)));
        assert(covered.contains((y, x)));
    }
}

/// A tile that is no more than a board's width from the playfield can be
/// tested against every cell of the board.
pub proof fn lemma_near_tile_reaches(tile: DisplacedTile<RotatedTile<BasicTile>>)
    requires
        -8 <= tile.displ_x <= 8,
        -8 <= tile.displ_y <= 8,
    ensures
        ExtGrid::reaches(&tile),
{
}

impl<O> Game<TileNeeded, O> {
    /// The board that waits for a tile.
    pub open spec fn board(&self) -> Board<TakesTile> {
        self.state().board()
    }

    #[must_use]
    pub fn new() -> (game: Self)
        ensures
            game.board().cells() == ExtGrid::rim_cells(),
            game.observer() is None,
            game.signals() == Seq::<Layers>::empty(),
    {
        Self { s: TileNeeded::default(), observer: None, signals: Ghost(Seq::empty()) }
    }
}

impl<O> Default for Game<TileNeeded, O> {
    fn default() -> (game: Self)
        ensures
            game.board().cells() == ExtGrid::rim_cells(),
            game.observer() is None,
            game.signals() == Seq::<Layers>::empty(),
    {
        Self::new()
    }
}

impl<O> Game<TileFloating, O> {
    /// The tile that floats.
    pub open spec fn tile(&self) -> DisplacedTile<RotatedTile<BasicTile>> {
        self.state().tile()
    }

    /// The board that the tile floats over.
    pub open spec fn board(&self) -> Board<TakesTile> {
        self.state().board()
    }
}

impl<O> Game<ProcessRows, O> {
    /// The board whose rows are processed.
    pub open spec fn board(&self) -> Board<BoardProcesses> {
        self.state().board()
    }
}

impl<O> Game<Over, O> {
    /// The board as it was when the game ended.
    pub open spec fn board(&self) -> Board<TakesTile> {
        self.state().board()
    }
}

impl<O> Rasterization<Passive> for Game<TileNeeded, O> {
    /// All that has settled on the playfield.
    open spec fn layer(&self) -> Set<(int, int)> {
        self.state().layers().1
    }

    fn rasterize_buf(&self, out: &mut Grid) {
        self.s.board.rasterize_buf(out);
    }
}

impl<O> Rasterization<Passive> for Game<TileFloating, O> {
    /// All that has settled on the playfield.
    open spec fn layer(&self) -> Set<(int, int)> {
        self.state().layers().1
    }

    fn rasterize_buf(&self, out: &mut Grid) {
        self.s.board.rasterize_buf(out);
    }
}

impl<O> Rasterization<Active> for Game<TileFloating, O> {
    /// The cells of the playfield that the floating tile covers.
    open spec fn layer(&self) -> Set<(int, int)> {
        self.state().layers().0
    }

    fn rasterize_buf(&self, out: &mut Grid) {
        proof {
            use_type_invariant(&self.s);
            lemma_admitted_tile_in_playfield(self.s.board, self.s.tile);
            lemma_near_tile_reaches(self.s.tile);
        }
        *out = match ExtGrid::try_from_discrete_2d_set(&self.s.tile) {
            Ok(grid) => grid.center(),
            _ => Grid::default(),
        }
    }
}

impl<O> Rasterization<Passive> for Game<ProcessRows, O> {
    /// All that has settled on the playfield, but for the row under
    /// examination.
    open spec fn layer(&self) -> Set<(int, int)> {
        self.state().layers().1
    }

    fn rasterize_buf(&self, out: &mut Grid) {
        <Board<BoardProcesses> as Rasterization<Passive>>::rasterize_buf(&self.s.board, out);
    }
}

impl<O> Rasterization<Active> for Game<ProcessRows, O> {
    /// What has settled on the row under examination.
    open spec fn layer(&self) -> Set<(int, int)> {
        self.state().layers().0
    }

    fn rasterize_buf(&self, out: &mut Grid) {
        <Board<BoardProcesses> as Rasterization<Active>>::rasterize_buf(&self.s.board, out);
    }
}

impl<O> Rasterization<Passive> for Game<Over, O> {
    /// All that has settled on the playfield.
    open spec fn layer(&self) -> Set<(int, int)> {
        self.state().layers().1
    }

    fn rasterize_buf(&self, out: &mut Grid) {
        self.s.board.rasterize_buf(out);
    }
}

/// Games that tell their observer, if they have one, that the board changed.
pub trait SignalSource: Seal {
    fn signal_board_changed(&self);
}

impl<S, O> Seal for Game<S, O> where S: State, O: Observer {

}

impl<S, O> SignalSource for Game<S, O> where S: State, O: Observer {
    fn signal_board_changed(&self) {
        if let Some(o) = self.observer.as_ref() {
            let (active, passive) = self.s.snapshot();
            o.signal_board_changed(active, passive);
        }
    }
}

impl<S, O> Game<S, O> where S: State, O: Observer {
    /// Tells the observer, if one is attached, that the board has changed, and
    /// keeps the record of it: the signal is recorded where it is given, with
    /// the layers that are handed to the observer.
    fn emit(&mut self)
        ensures
            final(self).state() == old(self).state(),
            final(self).observer() == old(self).observer(),
            final(self).signals() == old(self).signals() + signalled(
                old(self).observer(),
                old(self).state().layers(),
            ),
    {
        if let Some(o) = self.observer.as_ref() {
            let (active, passive) = self.s.snapshot();
            let ghost layers = (active@, passive@);
            o.signal_board_changed(active, passive);
            self.signals = Ghost(self.signals@.push(layers));
        }
        assert(self.signals@ =~= old(self).signals@ + signalled(
            old(self).observer,
            old(self).s.layers(),
        ));
    }

    #[must_use]
    fn new_with_signal(s: S, o: Option<O>, Ghost(signals): Ghost<Seq<Layers>>) -> (game: Self)
        ensures
            game.state() == s,
            game.observer() == o,
            game.signals() == signals + signalled(o, s.layers()),
    {
        let mut game = Self { s, observer: o, signals: Ghost(signals) };
        game.emit();
        game
    }
}

impl<O> Game<TileNeeded, O> where O: Observer {
    /// Places a tile at the top of the playfield, in its middle column. The
    /// tile floats if the board admits it there; if not, the game is over.
    #[must_use]
    pub fn place_tile(self, tile: BasicTile) -> (next: Branch<Game<TileFloating, O>, Game<Over, O>>)
        ensures
            match next {
                Branch::Left(game) => {
                    &&& self.board().admits(&spawned(tile))
                    &&& game.tile() == spawned(tile)
                    &&& game.board() == self.board()
                    &&& game.board().admits(&game.tile())
                    &&& game.observer() == self.observer()
                    &&& game.signals() == self.signals() + signalled(
                        self.observer(),
                        game.state().layers(),
                    )
                },
                Branch::Right(game) => {
                    &&& !self.board().admits(&spawned(tile))
                    &&& game.board() == self.board()
                    &&& game.observer() == self.observer()
                    &&& game.signals() == self.signals()
                },
            },
    {
        let (_, height) = tile.dimensions();
        let tile = DisplacedTile::new(RotatedTile::new(tile)).displace_by(
            (BOARD_COLS / 2 + 1) as i32,
            (BOARD_ROWS - height + 1) as i32,
        );
        proof {
            lemma_near_tile_reaches(tile);
        }
        if self.s.board.is_position_valid(&tile) {
            Branch::Left(
                Game::new_with_signal(
                    TileFloating::new(tile, self.s.board),
                    self.observer,
                    self.signals,
                ),
            )
        } else {
            Branch::Right(
                Game { s: Over::new(self.s.board), observer: self.observer, signals: self.signals },
            )
        }
    }
}

impl<T, O> Game<T, O> {
    /// Attaches an observer to the game, which has room for one.
    pub fn set_observer(&mut self, observer: O) -> (set: Result<(), GameError>)
        ensures
            final(self).state() == old(self).state(),
            final(self).signals() == old(self).signals(),
            match set {
                Ok(_) => old(self).observer() is None && final(self).observer() == Some(observer),
                Err(e) => {
                    &&& e == GameError::ObserverFull
                    &&& old(self).observer() is Some
                    &&& final(self).observer() == old(self).observer()
                },
            },
    {
        if self.observer.is_some() {
            Err(GameError::ObserverFull)
        } else {
            self.observer = Some(observer);
            Ok(())
        }
    }

    /// Takes the observer off the game and hands it back.
    pub fn clear_observer(&mut self) -> (cleared: Result<O, GameError>)
        ensures
            final(self).state() == old(self).state(),
            final(self).signals() == old(self).signals(),
            final(self).observer() is None,
            match cleared {
                Ok(observer) => old(self).observer() == Some(observer),
                Err(e) => e == GameError::ObserverEmpty && old(self).observer() is None,
            },
    {
        match self.observer.take() {
            Some(observer) => Ok(observer),
            None => Err(GameError::ObserverEmpty),
        }
    }
}

/// The step that leads from column `from` towards column `to`: one column to
/// the right, one to the left, or none.
pub open spec fn step_towards(from: int, to: int) -> int {
    if from < to {
        1
    } else if to < from {
        -1
    } else {
        0
    }
}

/// Where a tile comes to rest when it is moved towards `column`, one column at
/// a time: it stops at the column, or in front of the first place at which the
/// board does not admit it.
pub open spec fn slid(
    board: Board<TakesTile>,
    tile: DisplacedTile<RotatedTile<BasicTile>>,
    column: int,
) -> DisplacedTile<RotatedTile<BasicTile>>
    decreases vstd::math::abs(column - tile.displ_x),
    when fits(column)
{
    let direction = step_towards(tile.displ_x as int, column);
    let candidate = tile.displaced_by(direction, 0);
    if direction != 0 && board.admits(&candidate) {
        slid(board, candidate, column)
    } else {
        tile
    }
}

/// A tile that was moved towards a column has come as far as it can: it is at
/// the column, or the board does not admit it one column further.
pub proof fn lemma_slid_rests(
    board: Board<TakesTile>,
    tile: DisplacedTile<RotatedTile<BasicTile>>,
    column: int,
)
    requires
        fits(column),
    ensures
        ({
            let rest = slid(board, tile, column);
            let direction = step_towards(rest.displ_x as int, column);
            direction == 0 || !board.admits(&rest.displaced_by(direction, 0))
        }),
    decreases vstd::math::abs(column - tile.displ_x),
{
    let direction = step_towards(tile.displ_x as int, column);
    let candidate = tile.displaced_by(direction, 0);
    if direction != 0 && board.admits(&candidate) {
        lemma_slid_rests(board, candidate, column);
    }
}

/// Move-to-column idempotence: moving a tile towards a column a second time
/// leaves it where the first move brought it.
pub proof fn lemma_slid_again(
    board: Board<TakesTile>,
    tile: DisplacedTile<RotatedTile<BasicTile>>,
    column: int,
)
    requires
        fits(column),
    ensures
        slid(board, slid(board, tile, column), column) == slid(board, tile, column),
{
    lemma_slid_rests(board, tile, column);
}

/// The column that a move to `column` aims at. Columns are counted from 1 at
/// the left of the playfield; a column beyond the integers of the tiles
/// stands for one far to the right of the playfield.
pub open spec fn target_of(column: u32) -> int {
    if column <= i32::MAX {
        column as int
    } else {
        i32::MAX as int
    }
}

fn direction_towards(from: i32, to: i32) -> (direction: i32)
    ensures
        direction == step_towards(from as int, to as int),
{
    if from < to {
        1
    } else if to < from {
        -1
    } else {
        0
    }
}

impl<O> Game<TileFloating, O> where O: Observer {
    /// Moves the tile down by one row if the board admits it there. If not,
    /// the tile freezes where it is, and the rows of the board are processed
    /// from the bottom row on.
    #[must_use]
    pub fn descend_tile(self) -> (next: Branch<Game<TileFloating, O>, Game<ProcessRows, O>>)
        ensures
            match next {
                Branch::Left(game) => {
                    &&& self.board().admits(&self.tile().displaced_by(0, -1))
                    &&& game.tile() == self.tile().displaced_by(0, -1)
                    &&& game.board() == self.board()
                    &&& game.board().admits(&game.tile())
                    &&& 1 <= game.tile().displ_y < self.tile().displ_y
                    &&& game.observer() == self.observer()
                    &&& game.signals() == self.signals() + signalled(
                        self.observer(),
                        game.state().layers(),
                    )
                },
                Branch::Right(game) => {
                    &&& !self.board().admits(&self.tile().displaced_by(0, -1))
                    &&& game.board().cells() == self.board().cells().union(
                        ExtGrid::covered_by(&self.tile()),
                    )
                    &&& game.board().current() == 1
                    &&& game.observer() == self.observer()
                    &&& game.signals() == self.signals() + signalled(
                        self.observer(),
                        game.state().layers(),
                    )
                },
            },
    {
        proof {
            use_type_invariant(&self.s);
            lemma_admitted_tile_in_playfield(self.s.board, self.s.tile);
        }
        let candidate = self.s.tile.clone().displace_by(0, -1);
        proof {
            lemma_near_tile_reaches(candidate);
            lemma_near_tile_reaches(self.s.tile);
        }

        if self.s.board.is_position_valid(&candidate) {
            proof {
                lemma_admitted_tile_in_playfield(self.s.board, candidate);
            }
            Branch::Left(
                Game::new_with_signal(
                    TileFloating::new(candidate, self.s.board),
                    self.observer,
                    self.signals,
                ),
            )
        } else {
            let board = self.s.board.freeze_tile(self.s.tile).unwrap();
            Branch::Right(
                Game::new_with_signal(ProcessRows::new(board), self.observer, self.signals),
            )
        }
    }

    /// The column of the tile's origin, counted from 0 at the left of the
    /// playfield.
    pub fn tile_column(&self) -> (column: u8)
        ensures
            column == self.tile().displ_x - 1,
            column <= 4,
    {
        proof {
            use_type_invariant(&self.s);
            lemma_admitted_tile_in_playfield(self.s.board, self.s.tile);
        }
        (*self.s.tile.displ_x() - 1) as u8
    }

    /// Tries to move the tile horizontally to `column`.
    ///
    /// If moving the tile to `column` is not valid, the tile is moved as far as possible.
    ///
    /// **Caution:** the column is counted 1-indexed here!
    pub fn move_tile_up_to(&mut self, column: u32)
        ensures
            final(self).tile() == slid(old(self).board(), old(self).tile(), target_of(column)),
            final(self).board() == old(self).board(),
            final(self).board().admits(&final(self).tile()),
            final(self).observer() == old(self).observer(),
            final(self).signals() == old(self).signals() + if final(self).tile() != old(
                self,
            ).tile() {
                signalled(old(self).observer(), final(self).state().layers())
            } else {
                Seq::empty()
            },
    {
        // a column that far to the right is never reached: any one beyond the
        // playfield does for it
        let column: i32 = if column > i32::MAX as u32 {
            i32::MAX
        } else {
            column as i32
        };
        proof {
            use_type_invariant(&self.s);
            lemma_admitted_tile_in_playfield(self.s.board, self.s.tile);
        }
        let mut direction = direction_towards(*self.s.tile.displ_x(), column);
        let mut candidate = self.s.tile.clone().displace_by(direction, 0);
        let mut changed = false;
        proof {
            lemma_near_tile_reaches(candidate);
        }

        while direction != 0 && self.s.board.is_position_valid(&candidate)
            invariant
                0 <= column,
                self.s.board == old(self).s.board,
                self.observer == old(self).observer,
                self.signals == old(self).signals,
                self.s.tile.t == old(self).s.tile.t,
                self.s.tile.displ_y == old(self).s.tile.displ_y,
                old(self).s.tile.displ_x <= self.s.tile.displ_x <= column || column
                    <= self.s.tile.displ_x <= old(self).s.tile.displ_x,
                changed == (self.s.tile.displ_x != old(self).s.tile.displ_x),
                direction == step_towards(self.s.tile.displ_x as int, column as int),
                candidate == self.s.tile.displaced_by(direction as int, 0),
                ExtGrid::reaches(&candidate),
                slid(self.s.board, self.s.tile, column as int) == slid(
                    old(self).s.board,
                    old(self).s.tile,
                    column as int,
                ),
            decreases vstd::math::abs(column - self.s.tile.displ_x),
        {
            proof {
                lemma_admitted_tile_in_playfield(self.s.board, candidate);
            }
            self.s.tile = candidate;
            changed = true;

            direction = direction_towards(*self.s.tile.displ_x(), column);
            candidate = self.s.tile.clone().displace_by(direction, 0);
            proof {
                lemma_near_tile_reaches(candidate);
            }
        }
        if changed {
            self.emit();
        }
        proof {
            use_type_invariant(&self.s);
        }
        assert(self.signals@ =~= old(self).signals@ + if self.s.tile != old(self).s.tile {
            signalled(old(self).observer, self.s.layers())
        } else {
            Seq::empty()
        });
    }

    /// Turns the tile by 90 degrees in counter-clockwise order about its
    /// origin, if the board admits the turned tile.
    ///
    /// # Errors
    ///
    /// Returns [`GameError::InvalidMove`] iff the turned tile would overlap
    /// with occupied cells or with the rim; the tile then stays as it is.
    pub fn rotate_tile(&mut self) -> (turned: Result<(), GameError>)
        ensures
            final(self).board() == old(self).board(),
            final(self).board().admits(&final(self).tile()),
            final(self).observer() == old(self).observer(),
            match turned {
                Ok(_) => {
                    &&& old(self).board().admits(&old(self).tile().rotated_ccw())
                    &&& final(self).tile() == old(self).tile().rotated_ccw()
                    &&& final(self).signals() == old(self).signals() + signalled(
                        old(self).observer(),
                        final(self).state().layers(),
                    )
                },
                Err(e) => {
                    &&& e == GameError::InvalidMove
                    &&& !old(self).board().admits(&old(self).tile().rotated_ccw())
                    &&& final(self).tile() == old(self).tile()
                    &&& final(self).signals() == old(self).signals()
                },
            },
    {
        proof {
            use_type_invariant(&self.s);
            lemma_admitted_tile_in_playfield(self.s.board, self.s.tile);
        }
        let candidate = self.s.tile.clone().rotate_ccw();
        proof {
            lemma_near_tile_reaches(candidate);
        }

        if self.s.board.is_position_valid(&candidate) {
            self.s.tile = candidate;
            self.emit();
            Ok(())
        } else {
            Err(GameError::InvalidMove)
        }
    }
}

impl<O> Game<ProcessRows, O> where O: Observer {
    /// One step of the scan for full rows: see [`Board::process_row`]. When
    /// the scan has ended, the game needs a tile.
    #[must_use]
    pub fn process_row(self) -> (next: Branch<Game<ProcessRows, O>, Game<TileNeeded, O>>)
        ensures
            match next {
                Branch::Left(game) => {
                    &&& self.board().row_after_step() == Some(game.board().current())
                    &&& game.board().cells() == self.board().cells_after_step()
                    &&& 1 <= game.board().steps_bound() < self.board().steps_bound()
                    &&& game.observer() == self.observer()
                    &&& game.signals() == self.signals() + signalled(
                        self.observer(),
                        game.state().layers(),
                    )
                },
                Branch::Right(game) => {
                    &&& self.board().row_after_step() is None
                    &&& game.board().cells() == self.board().cells_after_step()
                    &&& game.observer() == self.observer()
                    &&& game.signals() == self.signals() + signalled(
                        self.observer(),
                        game.state().layers(),
                    )
                },
            },
    {
        match self.s.board.process_row() {
            Branch::Left(board) => Branch::Left(
                Game::new_with_signal(ProcessRows::new(board), self.observer, self.signals),
            ),
            Branch::Right(board) => Branch::Right(
                Game::new_with_signal(TileNeeded::new(board), self.observer, self.signals),
            ),
        }
    }
}

} // verus!
