//! The classic 3-by-3 grid game: a board of nine cells, each empty or holding
//! a player's piece, with win detection over rows, columns and diagonals.

use vstd::prelude::*;

use vstd::std_specs::cmp::PartialEqSpec;

use crate::combinator::until_terminal_halts;
use crate::{Action, AsBytes, FiniteState, State, Status};

verus! {

/// A 3-by-3 board. Cells are numbered 0 through 8, row by row; each either
/// holds a piece of type `P` or is empty.
#[derive(Debug, PartialEq, Clone, Copy)]
pub struct Board<P> {
    pub c0: Option<P>,
    pub c1: Option<P>,
    pub c2: Option<P>,
    pub c3: Option<P>,
    pub c4: Option<P>,
    pub c5: Option<P>,
    pub c6: Option<P>,
    pub c7: Option<P>,
    pub c8: Option<P>,
}

/// The error raised when a piece is placed on a cell that already holds one.
#[derive(Debug, PartialEq, Eq, Structural)]
pub enum Error {
    SpotOccupied,
}

impl<P> Board<P> {
    /// The piece in cell `j`, if any.
    pub open spec fn spec_cell(self, j: int) -> Option<P> {
        if j == 0 {
            self.c0
        } else if j == 1 {
            self.c1
        } else if j == 2 {
            self.c2
        } else if j == 3 {
            self.c3
        } else if j == 4 {
            self.c4
        } else if j == 5 {
            self.c5
        } else if j == 6 {
            self.c6
        } else if j == 7 {
            self.c7
        } else {
            self.c8
        }
    }

    /// The board with cell `j` holding `piece` and every other cell as before.
    pub open spec fn spec_place(self, j: int, piece: P) -> Board<P> {
        if j == 0 {
            Board { c0: Some(piece), ..self }
        } else if j == 1 {
            Board { c1: Some(piece), ..self }
        } else if j == 2 {
            Board { c2: Some(piece), ..self }
        } else if j == 3 {
            Board { c3: Some(piece), ..self }
        } else if j == 4 {
            Board { c4: Some(piece), ..self }
        } else if j == 5 {
            Board { c5: Some(piece), ..self }
        } else if j == 6 {
            Board { c6: Some(piece), ..self }
        } else if j == 7 {
            Board { c7: Some(piece), ..self }
        } else {
            Board { c8: Some(piece), ..self }
        }
    }

    /// How many cells hold a piece.
    pub open spec fn num_pieces(self) -> int {
        (if self.c0 is Some {
            1int
        } else {
            0
        }) + (if self.c1 is Some {
            1int
        } else {
            0
        }) + (if self.c2 is Some {
            1int
        } else {
            0
        }) + (if self.c3 is Some {
            1int
        } else {
            0
        }) + (if self.c4 is Some {
            1int
        } else {
            0
        }) + (if self.c5 is Some {
            1int
        } else {
            0
        }) + (if self.c6 is Some {
            1int
        } else {
            0
        }) + (if self.c7 is Some {
            1int
        } else {
            0
        }) + (if self.c8 is Some {
            1int
        } else {
            0
        })
    }

    /// Whether some cell is still empty.
    pub open spec fn spec_has_empty(self) -> bool {
        self.c0 is None || self.c1 is None || self.c2 is None || self.c3 is None || self.c4 is None
            || self.c5 is None || self.c6 is None || self.c7 is None || self.c8 is None
    }

    /// The board with every cell empty.
    pub open spec fn spec_empty() -> Board<P> {
        Board {
            c0: None,
            c1: None,
            c2: None,
            c3: None,
            c4: None,
            c5: None,
            c6: None,
            c7: None,
            c8: None,
        }
    }

    pub fn new() -> (r: Self)
        ensures
            r == Self::spec_empty(),
            forall|j: int| 0 <= j < 9 ==> r.spec_cell(j) is None,
    {
        Board {
            c0: None,
            c1: None,
            c2: None,
            c3: None,
            c4: None,
            c5: None,
            c6: None,
            c7: None,
            c8: None,
        }
    }

    fn cell_ref(&self, j: usize) -> (r: &Option<P>)
        requires
            j < 9,
        ensures
            *r == self.spec_cell(j as int),
    {
        match j {
            0 => &self.c0,
            1 => &self.c1,
            2 => &self.c2,
            3 => &self.c3,
            4 => &self.c4,
            5 => &self.c5,
            6 => &self.c6,
            7 => &self.c7,
            _ => &self.c8,
        }
    }

    fn set_cell(&mut self, j: usize, piece: P)
        requires
            j < 9,
        ensures
            *final(self) == old(self).spec_place(j as int, piece),
    {
        match j {
            0 => self.c0 = Some(piece),
            1 => self.c1 = Some(piece),
            2 => self.c2 = Some(piece),
            3 => self.c3 = Some(piece),
            4 => self.c4 = Some(piece),
            5 => self.c5 = Some(piece),
            6 => self.c6 = Some(piece),
            7 => self.c7 = Some(piece),
            _ => self.c8 = Some(piece),
        }
    }

    fn count_pieces(&self) -> (r: usize)
        ensures
            r == self.num_pieces(),
    {
        let mut n: usize = 0;
        if self.c0.is_some() {
            n = n + 1;
        }
        if self.c1.is_some() {
            n = n + 1;
        }
        if self.c2.is_some() {
            n = n + 1;
        }
        if self.c3.is_some() {
            n = n + 1;
        }
        if self.c4.is_some() {
            n = n + 1;
        }
        if self.c5.is_some() {
            n = n + 1;
        }
        if self.c6.is_some() {
            n = n + 1;
        }
        if self.c7.is_some() {
            n = n + 1;
        }
        if self.c8.is_some() {
            n = n + 1;
        }
        n
    }

    /// Whether some cell is still empty.
    pub fn has_empty(&self) -> (r: bool)
        ensures
            r == self.spec_has_empty(),
    {
        self.count_pieces() < 9
    }

    /// Places `piece` on cell `index`; rejects a cell that already holds a
    /// piece, leaving the board unchanged.
    pub fn place_piece(&mut self, index: usize, piece: P) -> (r: Result<(), Error>)
        requires
            index < 9,
        ensures
            old(self).spec_cell(index as int) is Some ==> r == Err::<(), Error>(Error::SpotOccupied)
                && *final(self) == *old(self),
            old(self).spec_cell(index as int) is None ==> r is Ok && *final(self) == old(
                self,
            ).spec_place(index as int, piece),
    {
        let occupied = match self.cell_ref(index) {
            Some(_) => true,
            None => false,
        };
        if occupied {
            return Err(Error::SpotOccupied);
        }
        self.set_cell(index, piece);
        Ok(())
    }
}

impl<P: PartialEq> Board<P> {
    /// Whether the pieces in cells `a` and `b` are the same, two empty cells
    /// counting as the same.
    pub open spec fn cells_same(self, a: int, b: int) -> bool {
        match (self.spec_cell(a), self.spec_cell(b)) {
            (Some(p), Some(q)) => p.eq_spec(&q),
            (None, None) => true,
            _ => false,
        }
    }

    /// Whether cells `a`, `b` and `c` are all occupied by the same piece.
    pub open spec fn line_complete(self, a: int, b: int, c: int) -> bool {
        self.spec_cell(c) is Some && self.cells_same(a, b) && self.cells_same(b, c)
    }

    /// Whether some row, column or diagonal is complete.
    pub open spec fn spec_has_winner(self) -> bool {
        ||| self.line_complete(0, 1, 2)
        ||| self.line_complete(0, 3, 6)
        ||| self.line_complete(3, 4, 5)
        ||| self.line_complete(1, 4, 7)
        ||| self.line_complete(6, 7, 8)
        ||| self.line_complete(2, 5, 8)
        ||| self.line_complete(0, 4, 8)
        ||| self.line_complete(2, 4, 6)
    }

    /// What `is_winner` returns: `None` when fewer than three pieces are
    /// placed or no line is complete; otherwise whether the first complete
    /// line, in the fixed probe order, is owned by `piece`.
    pub open spec fn spec_is_winner(self, piece: P) -> Option<bool> {
        if self.num_pieces() < 3 {
            None
        } else if self.line_complete(0, 1, 2) {
            Some(self.spec_cell(2).unwrap().eq_spec(&piece))
        } else if self.line_complete(0, 3, 6) {
            Some(self.spec_cell(6).unwrap().eq_spec(&piece))
        } else if self.line_complete(3, 4, 5) {
            Some(self.spec_cell(5).unwrap().eq_spec(&piece))
        } else if self.line_complete(1, 4, 7) {
            Some(self.spec_cell(7).unwrap().eq_spec(&piece))
        } else if self.line_complete(6, 7, 8) {
            Some(self.spec_cell(8).unwrap().eq_spec(&piece))
        } else if self.line_complete(2, 5, 8) {
            Some(self.spec_cell(8).unwrap().eq_spec(&piece))
        } else if self.line_complete(0, 4, 8) {
            Some(self.spec_cell(8).unwrap().eq_spec(&piece))
        } else if self.line_complete(2, 4, 6) {
            Some(self.spec_cell(6).unwrap().eq_spec(&piece))
        } else {
            None
        }
    }

    fn cells_equal(&self, a: usize, b: usize) -> (r: bool)
        requires
            a < 9,
            b < 9,
            P::obeys_eq_spec(),
        ensures
            r == self.cells_same(a as int, b as int),
    {
        match (self.cell_ref(a), self.cell_ref(b)) {
            (Some(p), Some(q)) => p == q,
            (None, None) => true,
            _ => false,
        }
    }

    fn line_won(&self, a: usize, b: usize, c: usize) -> (r: bool)
        requires
            a < 9,
            b < 9,
            c < 9,
            P::obeys_eq_spec(),
        ensures
            r == self.line_complete(a as int, b as int, c as int),
    {
        let occupied = match self.cell_ref(c) {
            Some(_) => true,
            None => false,
        };
        occupied && self.cells_equal(a, b) && self.cells_equal(b, c)
    }

    fn winner_at(&self, c: usize, piece: P) -> (r: bool)
        requires
            c < 9,
            P::obeys_eq_spec(),
            self.spec_cell(c as int) is Some,
        ensures
            r == self.spec_cell(c as int).unwrap().eq_spec(&piece),
    {
        match self.cell_ref(c) {
            Some(p) => *p == piece,
            None => false,
        }
    }

    /// Whether `piece` owns the first complete line, probing rows and
    /// columns alternately and the diagonals last; `None` when fewer than
    /// three pieces are placed or no line is complete.
    pub fn is_winner(&self, piece: P) -> (r: Option<bool>)
        requires
            P::obeys_eq_spec(),
        ensures
            r == self.spec_is_winner(piece),
    {
        if self.count_pieces() < 3 {
            return None;
        }
        if self.line_won(0, 1, 2) {
            return Some(self.winner_at(2, piece));
        }
        if self.line_won(0, 3, 6) {
            return Some(self.winner_at(6, piece));
        }
        if self.line_won(3, 4, 5) {
            return Some(self.winner_at(5, piece));
        }
        if self.line_won(1, 4, 7) {
            return Some(self.winner_at(7, piece));
        }
        if self.line_won(6, 7, 8) {
            return Some(self.winner_at(8, piece));
        }
        if self.line_won(2, 5, 8) {
            return Some(self.winner_at(8, piece));
        }
        if self.line_won(0, 4, 8) {
            return Some(self.winner_at(8, piece));
        }
        if self.line_won(2, 4, 6) {
            return Some(self.winner_at(6, piece));
        }
        None
    }
}

impl<P: PartialEq> State<()> for Board<P> {
    open spec fn wf(&self) -> bool {
        P::obeys_eq_spec()
    }

    /// A board is terminal when some line is complete or no cell is empty;
    /// it is never in error.
    open spec fn spec_status(&self) -> Result<Status, ()> {
        if self.spec_has_winner() || !self.spec_has_empty() {
            Ok(Status::Terminal)
        } else {
            Ok(Status::Valid)
        }
    }

    fn status(&self) -> (r: Result<Status, ()>) {
        let won = self.line_won(0, 1, 2) || self.line_won(0, 3, 6) || self.line_won(3, 4, 5)
            || self.line_won(1, 4, 7) || self.line_won(6, 7, 8) || self.line_won(2, 5, 8)
            || self.line_won(0, 4, 8) || self.line_won(2, 4, 6);
        if won || !self.has_empty() {
            Ok(Status::Terminal)
        } else {
            Ok(Status::Valid)
        }
    }
}

/// The bytes of the separator `" | "` between two cells of a row.
pub open spec fn spec_sep() -> Seq<u8> {
    seq![32u8, 124u8, 32u8]
}

/// The bytes of the divider line `"---------\n"` between two rows.
pub open spec fn spec_dashes() -> Seq<u8> {
    seq![45u8, 45u8, 45u8, 45u8, 45u8, 45u8, 45u8, 45u8, 45u8, 10u8]
}

fn push_all(v: &mut Vec<u8>, w: &Vec<u8>)
    ensures
        final(v)@ == old(v)@ + w@,
{
    let mut i: usize = 0;
    while i < w.len()
        invariant
            i <= w.len(),
            v@ == old(v)@ + w@.take(i as int),
        decreases w.len() - i,
    {
        v.push(w[i]);
        i = i + 1;
    }
    proof {
        assert(w@.take(w@.len() as int) =~= w@);
    }
}

impl<P: AsBytes> Board<P> {
    /// The bytes a cell renders to: those of its piece, or nothing when it
    /// is empty.
    pub open spec fn spec_cell_bytes(self, j: int) -> Seq<u8> {
        match self.spec_cell(j) {
            Some(p) => p.spec_bytes(),
            None => Seq::empty(),
        }
    }

    /// The bytes of one rendered row: the three cells joined by `" | "` and
    /// ended by a newline.
    pub open spec fn spec_row(self, a: int, b: int, c: int) -> Seq<u8> {
        self.spec_cell_bytes(a) + spec_sep() + self.spec_cell_bytes(b) + spec_sep()
            + self.spec_cell_bytes(c) + seq![10u8]
    }

    fn push_cell(&self, v: &mut Vec<u8>, j: usize)
        requires
            j < 9,
            self.renderable(),
        ensures
            final(v)@ == old(v)@ + self.spec_cell_bytes(j as int),
    {
        match self.cell_ref(j) {
            Some(p) => {
                let b = p.as_bytes();
                push_all(v, &b);
            },
            None => {
                proof {
                    assert(v@ =~= v@ + Seq::<u8>::empty());
                }
            },
        }
    }

    fn push_sep(&self, v: &mut Vec<u8>)
        ensures
            final(v)@ == old(v)@ + spec_sep(),
    {
        v.push(32);
        v.push(124);
        v.push(32);
        proof {
            assert(v@ =~= old(v)@ + spec_sep());
        }
    }

    fn push_row(&self, v: &mut Vec<u8>, a: usize, b: usize, c: usize)
        requires
            a < 9,
            b < 9,
            c < 9,
            self.renderable(),
        ensures
            final(v)@ == old(v)@ + self.spec_row(a as int, b as int, c as int),
    {
        self.push_cell(v, a);
        self.push_sep(v);
        self.push_cell(v, b);
        self.push_sep(v);
        self.push_cell(v, c);
        v.push(10);
        proof {
            assert(v@ =~= old(v)@ + self.spec_row(a as int, b as int, c as int));
        }
    }

    fn push_dashes(&self, v: &mut Vec<u8>)
        ensures
            final(v)@ == old(v)@ + spec_dashes(),
    {
        let mut i: usize = 0;
        while i < 9
            invariant
                i <= 9,
                v@ == old(v)@ + spec_dashes().take(i as int),
            decreases 9 - i,
        {
            v.push(45);
            proof {
                assert(v@ =~= old(v)@ + spec_dashes().take(i + 1int));
            }
            i = i + 1;
        }
        v.push(10);
        proof {
            assert(v@ =~= old(v)@ + spec_dashes());
        }
    }
}

impl<P: AsBytes> AsBytes for Board<P> {
    /// Every placed piece must itself be renderable.
    open spec fn renderable(&self) -> bool {
        forall|j: int|
            0 <= j < 9 ==> match #[trigger] self.spec_cell(j) {
                Some(p) => p.renderable(),
                None => true,
            }
    }

    /// The three rows, each its cells joined by `" | "`, with a line of nine
    /// dashes between consecutive rows; an empty cell renders as nothing.
    open spec fn spec_bytes(&self) -> Seq<u8> {
        self.spec_row(0, 1, 2) + spec_dashes() + self.spec_row(3, 4, 5) + spec_dashes()
            + self.spec_row(6, 7, 8)
    }

    fn as_bytes(&self) -> (r: Vec<u8>) {
        let mut v: Vec<u8> = Vec::new();
        self.push_row(&mut v, 0, 1, 2);
        self.push_dashes(&mut v);
        self.push_row(&mut v, 3, 4, 5);
        self.push_dashes(&mut v);
        self.push_row(&mut v, 6, 7, 8);
        proof {
            assert(v@ =~= self.spec_bytes());
        }
        v
    }
}

/// Yields each of the nine cells of a board in order, then stops.
#[derive(Debug)]
pub struct Pieces<P> {
    pub board: Board<P>,
    pub idx: usize,
}

impl<P> Board<P> {
    /// Consumes the board, yielding each of its nine cells in order.
    pub fn into_iter(self) -> (r: Pieces<P>)
        ensures
            r.board == self,
            r.idx == 0,
    {
        Pieces { board: self, idx: 0 }
    }
}

impl<P: Copy> Pieces<P> {
    /// The next of the nine cells, or `None` after all nine were yielded.
    pub fn next(&mut self) -> (r: Option<Option<P>>)
        ensures
            old(self).idx >= 9 ==> r is None && *final(self) == *old(self),
            old(self).idx < 9 ==> {
                &&& r == Some(old(self).board.spec_cell(old(self).idx as int))
                &&& final(self).idx == old(self).idx + 1
                &&& final(self).board == old(self).board
            },
    {
        if self.idx >= 9 {
            return None;
        }
        let c = match self.board.cell_ref(self.idx) {
            Some(p) => Some(*p),
            None => None,
        };
        self.idx = self.idx + 1;
        Some(c)
    }
}

/// The board described by a list of cell-piece pairs: each pair places a
/// piece on a cell, later pairs overriding earlier ones, pairs naming a cell
/// beyond the nine being ignored.
pub open spec fn board_of_entries<P>(entries: Seq<(usize, P)>) -> Board<P>
    decreases entries.len(),
{
    if entries.len() == 0 {
        Board::spec_empty()
    } else {
        let prefix = board_of_entries(entries.drop_last());
        let entry = entries.last();
        if entry.0 < 9 {
            prefix.spec_place(entry.0 as int, entry.1)
        } else {
            prefix
        }
    }
}

impl<P: Copy> From<Vec<(usize, P)>> for Board<P> {
    fn from(pieces: Vec<(usize, P)>) -> (r: Board<P>) {
        let mut b = Board::new();
        proof {
            assert(pieces@.take(0int) =~= Seq::<(usize, P)>::empty());
            assert(b == board_of_entries(pieces@.take(0int)));
        }
        let mut i: usize = 0;
        while i < pieces.len()
            invariant
                i <= pieces.len(),
                b == board_of_entries(pieces@.take(i as int)),
            decreases pieces.len() - i,
        {
            let j = pieces[i].0;
            let p = pieces[i].1;
            if j < 9 {
                b.set_cell(j, p);
            }
            proof {
                assert(pieces@.take(i + 1int).drop_last() =~= pieces@.take(i as int));
                assert(pieces@.take(i + 1int).last() == pieces@[i as int]);
            }
            i = i + 1;
        }
        proof {
            assert(pieces@.take(pieces@.len() as int) =~= pieces@);
        }
        b
    }
}

impl<P: Copy> vstd::std_specs::convert::FromSpecImpl<Vec<(usize, P)>> for Board<P> {
    open spec fn obeys_from_spec() -> bool {
        true
    }

    open spec fn from_spec(v: Vec<(usize, P)>) -> Board<P> {
        board_of_entries(v@)
    }
}

/// A position of a two-player game on a 3-by-3 board: the board together
/// with the piece of the player to move and the piece of the waiting player.
#[derive(Debug, PartialEq, Clone, Copy)]
pub struct Game<P> {
    pub board: Board<P>,
    pub to_move: P,
    pub waiting: P,
}

impl<P: PartialEq + Copy> Game<P> {
    /// The position after the player to move places a piece on cell `j`.
    pub open spec fn succ_at(self, j: int) -> Game<P> {
        Game { board: self.board.spec_place(j, self.to_move), to_move: self.waiting, waiting: self.to_move }
    }

    /// The successor positions for each empty cell numbered `j` or higher,
    /// in ascending cell order.
    pub open spec fn successors_from(self, j: int) -> Seq<Game<P>>
        decreases 9 - j,
    {
        if j < 0 || j >= 9 {
            Seq::empty()
        } else {
            let rest = self.successors_from(j + 1);
            if self.board.spec_cell(j) is None {
                seq![self.succ_at(j)] + rest
            } else {
                rest
            }
        }
    }

    /// A non-terminal position has at least one successor.
    pub proof fn lemma_successors_nonempty(self)
        requires
            self.board.spec_has_empty(),
        ensures
            self.successors_from(0).len() > 0,
    {
        assert forall|j: int| 0 <= j < 9 && self.board.spec_cell(j) is None implies
            self.successors_from(0).len() > 0 by {
            self.lemma_successors_cover(0, j);
        }
        if self.board.c0 is None {
            assert(self.board.spec_cell(0) is None);
        } else if self.board.c1 is None {
            assert(self.board.spec_cell(1) is None);
        } else if self.board.c2 is None {
            assert(self.board.spec_cell(2) is None);
        } else if self.board.c3 is None {
            assert(self.board.spec_cell(3) is None);
        } else if self.board.c4 is None {
            assert(self.board.spec_cell(4) is None);
        } else if self.board.c5 is None {
            assert(self.board.spec_cell(5) is None);
        } else if self.board.c6 is None {
            assert(self.board.spec_cell(6) is None);
        } else if self.board.c7 is None {
            assert(self.board.spec_cell(7) is None);
        } else {
            assert(self.board.spec_cell(8) is None);
        }
    }

    /// The successors from cell `i` include one for every empty cell at `j`
    /// or beyond.
    proof fn lemma_successors_cover(self, i: int, j: int)
        requires
            0 <= i <= j < 9,
            self.board.spec_cell(j) is None,
        ensures
            self.successors_from(i).len() > 0,
        decreases j - i,
    {
        if i == j {
        } else {
            self.lemma_successors_cover(i + 1, j);
        }
    }
}

/// A pipeline whose every successful step places exactly one more piece on
/// the board always reaches a terminal position within the number of empty
/// cells, so at most nine plies on a 3-by-3 grid: repeating it until a
/// terminal position never runs longer than that.
pub proof fn lemma_full_board_pipeline_halts<AE, P, A>(a: A, g: Game<P>) where
    P: PartialEq + Copy,
    A: Action<AE, (), Game<P>, Game<P>>,

    requires
        forall|a1: A, g1: Game<P>, a2: A, g2: Game<P>|
            #[trigger] A::transition(a1, g1, a2, Ok(g2)) ==> g2.board.num_pieces()
                == g1.board.num_pieces() + 1,
    ensures
        until_terminal_halts::<AE, (), Game<P>, A>(a, g, (9 - g.board.num_pieces()) as nat),
    decreases 9 - g.board.num_pieces(),
{
    let fuel = (9 - g.board.num_pieces()) as nat;
    assert forall|mid: A, r1: Result<Game<P>, AE>| #[trigger] A::transition(a, g, mid, r1) implies
        match r1 {
            Ok(g1) => g1.spec_status() == Ok::<Status, ()>(Status::Terminal) || (fuel > 0
                && until_terminal_halts::<AE, (), Game<P>, A>(mid, g1, (fuel - 1) as nat)),
            Err(_) => true,
        } by {
        match r1 {
            Ok(g1) => {
                assert(g1.board.num_pieces() == g.board.num_pieces() + 1);
                if g1.spec_status() != Ok::<Status, ()>(Status::Terminal) {
                    assert(g1.board.spec_has_empty());
                    assert(g1.board.num_pieces() < 9);
                    lemma_full_board_pipeline_halts(mid, g1);
                    assert((9 - g1.board.num_pieces()) as nat == (fuel - 1) as nat);
                }
            },
            Err(_) => {},
        }
    }
}

impl<P: AsBytes + PartialEq + Copy> AsBytes for Game<P> {
    open spec fn renderable(&self) -> bool {
        self.board.renderable()
    }

    open spec fn spec_bytes(&self) -> Seq<u8> {
        self.board.spec_bytes()
    }

    fn as_bytes(&self) -> (r: Vec<u8>) {
        self.board.as_bytes()
    }
}

impl<P: PartialEq + Copy> State<()> for Game<P> {
    open spec fn wf(&self) -> bool {
        P::obeys_eq_spec()
    }

    open spec fn spec_status(&self) -> Result<Status, ()> {
        self.board.spec_status()
    }

    fn status(&self) -> (r: Result<Status, ()>) {
        self.board.status()
    }
}

impl<P: PartialEq + Copy> FiniteState<()> for Game<P> {
    open spec fn spec_next_possibilities(&self) -> Option<Seq<Game<P>>> {
        if self.spec_status() == Ok::<Status, ()>(Status::Terminal) {
            None
        } else {
            Some(self.successors_from(0))
        }
    }

    proof fn lemma_possibilities_wf(&self) {
    }

    fn next_possibilities(&self) -> (r: Option<Vec<Game<P>>>) {
        let st = self.status();
        let terminal = match st {
            Ok(Status::Terminal) => true,
            _ => false,
        };
        if terminal {
            return None;
        }
        let mut v: Vec<Game<P>> = Vec::new();
        let mut j: usize = 0;
        while j < 9
            invariant
                j <= 9,
                P::obeys_eq_spec(),
                v@ + self.successors_from(j as int) =~= self.successors_from(0),
            decreases 9 - j,
        {
            let occupied = match self.board.cell_ref(j) {
                Some(_) => true,
                None => false,
            };
            if !occupied {
                let mut nb = self.board;
                nb.set_cell(j, self.to_move);
                let g = Game { board: nb, to_move: self.waiting, waiting: self.to_move };
                proof {
                    assert(g == self.succ_at(j as int));
                }
                v.push(g);
            }
            proof {
                assert(self.successors_from(j as int) == if self.board.spec_cell(j as int)
                    is None {
                    seq![self.succ_at(j as int)] + self.successors_from(j + 1int)
                } else {
                    self.successors_from(j + 1int)
                });
            }
            j = j + 1;
        }
        proof {
            assert(self.successors_from(9int) =~= Seq::<Game<P>>::empty());
            assert(v@ =~= self.successors_from(0));
        }
        Some(v)
    }
}

} // verus!
