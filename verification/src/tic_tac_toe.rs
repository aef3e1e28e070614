//! A three-by-three alternating placement game.
//!
//! Players alternate claiming free cells; three in a row, column or
//! diagonal wins.  Payoffs to player one are plus one for a player-one
//! win, minus one for a player-two win, zero for a full board.  The full
//! board state is announced to the waiting player after every move, so
//! the game has perfect information.

use crate::common::clone_msg;
use crate::common::Driver;
use crate::common::Fault;
use crate::common::Game;
use crate::common::Serializable;
use crate::rat::Rat;
use crate::tree::NodeType;
use vstd::pervasive::VecAdditionalExecFns;
use vstd::prelude::*;
use vstd::string::StringExecFns;

verus! {

/// The board, row-major, and whose turn it is (`1` or `-1`).
#[derive(Clone, Debug, PartialEq, Eq)]
pub struct TicTacToe {
    /// Nine cells: `0` free, `1` player one, `-1` player two.
    pub board: Vec<i32>,
    /// The player to move.
    pub curr_player: i32,
}

/// One cell coordinate.
#[derive(Clone, Copy, Debug, PartialEq, Eq)]
pub struct Choice {
    /// The row.
    pub x: usize,
    /// The column.
    pub y: usize,
}

/// A cell of the flat board is free.
pub open spec fn cell_free(b: Seq<i32>, x: int, y: int) -> bool {
    b[3 * x + y] == 0
}

/// The row-major rank of a cell choice.
pub open spec fn choice_key(c: Choice) -> int {
    3 * (c.x as int) + (c.y as int)
}

/// The winner among three cells: their shared owner, if all three agree
/// and are taken.
pub open spec fn win3(a: i32, b: i32, c: i32) -> Option<i32> {
    if a != 0 && b == a && c == a {
        Some(a)
    } else {
        None
    }
}

/// The first of two optional winners.
pub open spec fn first_of(a: Option<i32>, b: Option<i32>) -> Option<i32> {
    if a is Some {
        a
    } else {
        b
    }
}

/// The winner, if any, among the lines through cell `(x, y)` plus both
/// diagonals, checked in that order.
pub open spec fn spec_win_after(b: Seq<i32>, x: int, y: int) -> Option<i32> {
    first_of(
        win3(b[3 * x + 0], b[3 * x + 1], b[3 * x + 2]),
        first_of(
            win3(b[0 + y], b[3 + y], b[6 + y]),
            first_of(win3(b[0], b[4], b[8]), win3(b[2], b[4], b[6])),
        ),
    )
}

/// What `is_win` reports of a line: the first cell's owner when the line
/// is non-empty, taken, and uniform.
pub open spec fn spec_is_win(s: Seq<i32>) -> Option<i32> {
    if s.len() > 0 && s[0] != 0 && (forall|i: int| 0 <= i < s.len() ==> #[trigger] s[i] == s[0]) {
        Some(s[0])
    } else {
        None
    }
}

/// A three-cell line as a vector.
fn line3(a: i32, b: i32, c: i32) -> (r: Vec<i32>)
    ensures
        r@ =~= seq![a, b, c],
{
    let mut r: Vec<i32> = Vec::new();
    r.push(a);
    r.push(b);
    r.push(c);
    r
}

/// On a three-cell line, the generic uniform-line check agrees with the
/// direct three-way comparison.
proof fn lemma_win3(a: i32, b: i32, c: i32)
    ensures
        spec_is_win(seq![a, b, c]) == win3(a, b, c),
{
    let s = seq![a, b, c];
    assert(s[0] == a && s[1] == b && s[2] == c);
    if a != 0 && b == a && c == a {
        assert forall|i: int| 0 <= i < s.len() implies #[trigger] s[i] == s[0] by {
            assert(i == 0 || i == 1 || i == 2);
        }
    }
}

impl TicTacToe {
    /// Nine free cells with player one to move.
    pub fn new() -> (g: TicTacToe)
        ensures
            g.wf(),
            g.curr_player == 1,
            forall|i: int| 0 <= i < 9 ==> g.board@[i] == 0,
    {
        TicTacToe { board: crate::common::vec_of_repeat(9, 0), curr_player: 1 }
    }

    /// Nine cells and a player to move of one or minus one.
    pub open spec fn wf(&self) -> bool {
        self.board@.len() == 9 && (self.curr_player == 1 || self.curr_player == -1)
    }

    /// The shared owner of a non-empty uniform taken line, if any.
    pub fn is_win(cells: &Vec<i32>) -> (r: Option<i32>)
        ensures
            r == spec_is_win(cells@),
    {
        if cells.len() == 0 {
            return None;
        }
        let player = cells[0];
        if player == 0 {
            return None;
        }
        let mut i: usize = 1;
        while i < cells.len()
            invariant
                1 <= i <= cells@.len(),
                cells@.len() > 0,
                player == cells@[0],
                player != 0,
                forall|j: int| 0 <= j < i ==> cells@[j] == player,
            decreases cells@.len() - i,
        {
            if cells[i] != player {
                assert(cells@[i as int] != cells@[0]);
                return None;
            }
            i = i + 1;
        }
        Some(player)
    }

    /// Claims a cell.  An occupied cell loses the game at once for the
    /// mover; a free cell is taken, the turn passes, and the lines
    /// through the cell plus the diagonals are checked for a win.
    pub fn play(&mut self, c: Choice) -> (r: Option<i32>)
        requires
            old(self).wf(),
            c.x < 3,
            c.y < 3,
        ensures
            final(self).wf(),
            old(self).board@[choice_key(c)] != 0 ==> {
                &&& r matches Some(w) && w == -old(self).curr_player
                &&& *final(self) == *old(self)
            },
            old(self).board@[choice_key(c)] == 0 ==> {
                &&& final(self).board@ == old(self).board@.update(
                    choice_key(c),
                    old(self).curr_player,
                )
                &&& final(self).curr_player == -old(self).curr_player
                &&& r == spec_win_after(final(self).board@, c.x as int, c.y as int)
            },
    {
        let k: usize = 3 * c.x + c.y;
        if self.board[k] != 0 {
            return Some(-self.curr_player);
        }
        let me = self.curr_player;
        self.board.set(k, me);
        self.curr_player = -me;
        let row = Self::is_win(&line3(self.board[3 * c.x], self.board[3 * c.x + 1], self.board[3
            * c.x + 2]));
        proof {
            lemma_win3(
                self.board@[3 * (c.x as int)] ,
                self.board@[3 * (c.x as int) + 1],
                self.board@[3 * (c.x as int) + 2],
            );
        }
        if let Some(w) = row {
            return Some(w);
        }
        let col = Self::is_win(&line3(self.board[c.y], self.board[3 + c.y], self.board[6 + c.y]));
        proof {
            lemma_win3(
                self.board@[c.y as int],
                self.board@[3 + c.y as int],
                self.board@[6 + c.y as int],
            );
        }
        if let Some(w) = col {
            return Some(w);
        }
        let diag = Self::is_win(&line3(self.board[0], self.board[4], self.board[8]));
        proof {
            lemma_win3(self.board@[0], self.board@[4], self.board@[8]);
        }
        if let Some(w) = diag {
            return Some(w);
        }
        let anti = Self::is_win(&line3(self.board[2], self.board[4], self.board[6]));
        proof {
            lemma_win3(self.board@[2], self.board@[4], self.board@[6]);
        }
        anti
    }

    /// The free cells, in row-major order, exactly.
    pub fn empty_cells(&self) -> (r: Vec<Choice>)
        requires
            self.wf(),
        ensures
            forall|k: int|
                0 <= k < r@.len() ==> ((#[trigger] r@[k]).x < 3 && r@[k].y < 3 && self.board@[3 * (
                r@[k].x as int) + (r@[k].y as int)] == 0),
            forall|k1: int, k2: int|
                0 <= k1 < k2 < r@.len() ==> choice_key(#[trigger] r@[k1]) < choice_key(
                    #[trigger] r@[k2],
                ),
            forall|x: int, y: int|
                0 <= x < 3 && 0 <= y < 3 && #[trigger] cell_free(self.board@, x, y) ==> exists|
                    k: int,
                |
                    0 <= k < r@.len() && (#[trigger] r@[k]).x == x && r@[k].y == y,
    {
        let mut r: Vec<Choice> = Vec::new();
        let mut x: usize = 0;
        while x < 3
            invariant
                x <= 3,
                self.wf(),
                forall|k: int|
                    0 <= k < r@.len() ==> ((#[trigger] r@[k]).x < 3 && r@[k].y < 3
                        && self.board@[3 * (r@[k].x as int) + (r@[k].y as int)] == 0),
                forall|k: int| 0 <= k < r@.len() ==> choice_key(#[trigger] r@[k]) < 3 * (x as int),
                forall|k1: int, k2: int|
                    0 <= k1 < k2 < r@.len() ==> choice_key(#[trigger] r@[k1]) < choice_key(
                        #[trigger] r@[k2],
                    ),
                forall|x0: int, y0: int|
                    0 <= x0 < 3 && 0 <= y0 < 3 && 3 * x0 + y0 < 3 * (x as int) && #[trigger] cell_free(
                        self.board@,
                        x0,
                        y0,
                    ) ==> exists|k: int|
                        0 <= k < r@.len() && (#[trigger] r@[k]).x == x0 && r@[k].y == y0,
            decreases 3 - x,
        {
            let mut y: usize = 0;
            while y < 3
                invariant
                    x < 3,
                    y <= 3,
                    self.wf(),
                    forall|k: int|
                        0 <= k < r@.len() ==> ((#[trigger] r@[k]).x < 3 && r@[k].y < 3
                            && self.board@[3 * (r@[k].x as int) + (r@[k].y as int)] == 0),
                    forall|k: int|
                        0 <= k < r@.len() ==> choice_key(#[trigger] r@[k]) < 3 * (x as int) + (
                        y as int),
                    forall|k1: int, k2: int|
                        0 <= k1 < k2 < r@.len() ==> choice_key(#[trigger] r@[k1]) < choice_key(
                            #[trigger] r@[k2],
                        ),
                    forall|x0: int, y0: int|
                        0 <= x0 < 3 && 0 <= y0 < 3 && 3 * x0 + y0 < 3 * (x as int) + (y as int)
                            && #[trigger] cell_free(self.board@, x0, y0) ==> exists|k: int|
                            0 <= k < r@.len() && (#[trigger] r@[k]).x == x0 && r@[k].y == y0,
                decreases 3 - y,
            {
                if self.board[3 * x + y] == 0 {
                    let ghost prev = r@;
                    r.push(Choice { x, y });
                    proof {
                        assert forall|x0: int, y0: int|
                            0 <= x0 < 3 && 0 <= y0 < 3 && 3 * x0 + y0 < 3 * (x as int) + (y as int)
                                + 1 && #[trigger] cell_free(self.board@, x0, y0) implies exists|
                            k: int,
                        |
                            0 <= k < r@.len() && (#[trigger] r@[k]).x == x0 && r@[k].y == y0 by {
                            if 3 * x0 + y0 == 3 * (x as int) + (y as int) {
                                assert(x0 == x as int && y0 == y as int);
                                assert(r@[prev.len() as int].x == x0 && r@[prev.len() as int].y
                                    == y0);
                            } else {
                                let k0 = choose|k: int|
                                    0 <= k < prev.len() && (#[trigger] prev[k]).x == x0
                                        && prev[k].y == y0;
                                assert(r@[k0].x == x0 && r@[k0].y == y0);
                            }
                        }
                    }
                }
                y = y + 1;
            }
            x = x + 1;
        }
        r
    }

    /// A printable board: three rows of cell marks separated by rules.
    /// `O` marks player two, a space a free cell, `X` player one.
    pub fn board_string(&self) -> (r: String)
        requires
            self.wf(),
        ensures
            r@.len() == 29,
            forall|x: int, y: int|
                0 <= x < 3 && 0 <= y < 3 ==> #[trigger] r@[12 * x + 2 * y] == cell_char(
                    self.board@[3 * x + y],
                ),
    {
        let mut out = String::from_str("");
        proof {
            reveal_strlit("");
            assert(out@.len() == 0);
        }
        let mut x: usize = 0;
        while x < 3
            invariant
                x <= 3,
                self.wf(),
                out@.len() == (if x == 0 { 0int } else { 12 * (x as int) - 7 }),
                forall|x0: int, y0: int|
                    0 <= x0 < (x as int) && 0 <= y0 < 3 ==> #[trigger] out@[12 * x0 + 2 * y0]
                        == cell_char(self.board@[3 * x0 + y0]),
            decreases 3 - x,
        {
            if x > 0 {
                out.append("\n-+-+-\n");
                proof {
                    reveal_strlit("\n-+-+-\n");
                }
            }
            let mut y: usize = 0;
            while y < 3
                invariant
                    x < 3,
                    y <= 3,
                    self.wf(),
                    out@.len() == (if y == 0 { 12 * (x as int) } else { 12 * (x as int) + 2 * (y as int) - 1 }),
                    forall|x0: int, y0: int|
                        0 <= x0 < (x as int) && 0 <= y0 < 3 ==> #[trigger] out@[12 * x0 + 2 * y0]
                            == cell_char(self.board@[3 * x0 + y0]),
                    forall|y0: int|
                        0 <= y0 < (y as int) ==> #[trigger] out@[12 * (x as int) + 2 * y0]
                            == cell_char(self.board@[3 * (x as int) + y0]),
            decreases 3 - y,
            {
                if y > 0 {
                    out.append("|");
                    proof {
                        reveal_strlit("|");
                    }
                }
                let v = self.board[3 * x + y];
                if v == -1 {
                    out.append("O");
                    proof {
                        reveal_strlit("O");
                    }
                } else if v == 0 {
                    out.append(" ");
                    proof {
                        reveal_strlit(" ");
                    }
                } else {
                    out.append("X");
                    proof {
                        reveal_strlit("X");
                    }
                }
                y = y + 1;
            }
            x = x + 1;
        }
        out
    }
}

/// The mark printed for a cell value.
pub open spec fn cell_char(v: i32) -> char {
    if v == -1 {
        'O'
    } else if v == 0 {
        ' '
    } else {
        'X'
    }
}

/// The option labels for a set of free cells, each encoded one-hot.
fn labels_of(cells: &Vec<Choice>) -> (r: Vec<Vec<i32>>)
    ensures
        r@.len() == cells@.len(),
{
    let mut r: Vec<Vec<i32>> = Vec::new();
    let mut i: usize = 0;
    while i < cells.len()
        invariant
            r@.len() == i,
            i <= cells@.len(),
        decreases cells@.len() - i,
    {
        let encoded = cells[i].serialize();
        r.push(encoded.1);
        i = i + 1;
    }
    r
}

impl Serializable for Choice {
    fn kind_sizes() -> Vec<usize> {
        let mut r: Vec<usize> = Vec::new();
        r.push(9);
        r
    }

    fn serialize(&self) -> (usize, Vec<i32>) {
        let mut out: Vec<i32> = crate::common::vec_of_repeat(9, 0);
        if self.x < 3 && self.y < 3 {
            out.set(self.x * 3 + self.y, 1);
        }
        (0, out)
    }
}

impl Serializable for TicTacToe {
    fn kind_sizes() -> Vec<usize> {
        let mut r: Vec<usize> = Vec::new();
        r.push(10);
        r
    }

    fn serialize(&self) -> (usize, Vec<i32>) {
        let mut out: Vec<i32> = Vec::new();
        let mut i: usize = 0;
        while i < self.board.len()
            invariant
                i <= self.board@.len(),
            decreases self.board@.len() - i,
        {
            out.push(self.board[i]);
            i = i + 1;
        }
        out.push(self.curr_player);
        (0, out)
    }
}

impl Game for TicTacToe {
    fn step(&mut self, driver: &mut Driver) -> (r: Result<bool, Fault>)
        ensures
            r == Ok::<bool, Fault>(true) ==> final(self).wf(),
            // suspended on the mover's choice: the request carries the
            // mover's options and nothing is committed
            (old(self).wf() && old(driver).used >= old(driver).answers@.len() && old(
                driver,
            ).pending is None) ==> {
                &&& r == Ok::<bool, Fault>(false)
                &&& *final(self) == *old(self)
                &&& (old(self).curr_player == 1 ==> final(driver).pending matches Some(
                    NodeType::Player1(_),
                ))
                &&& (old(self).curr_player == -1 ==> final(driver).pending matches Some(
                    NodeType::Player2(_),
                ))
            },
            // a committed step claims exactly one previously free cell for
            // the mover and passes the turn
            old(self).wf() && r == Ok::<bool, Fault>(true) ==> exists|x: int, y: int|
                {
                    &&& 0 <= x < 3 && 0 <= y < 3
                    &&& #[trigger] cell_free(old(self).board@, x, y)
                    &&& final(self).board@ == old(self).board@.update(
                        3 * x + y,
                        old(self).curr_player,
                    )
                    &&& final(self).curr_player == -old(self).curr_player
                },
    {
        if self.board.len() != 9 {
            return Err(Fault::Shape);
        }
        if self.curr_player != 1 && self.curr_player != -1 {
            return Err(Fault::Shape);
        }
        let cells = self.empty_cells();
        let labels = labels_of(&cells);
        if self.curr_player == 1 {
            let ans = match driver.request(NodeType::Player1(labels)) {
                Ok(a) => a,
                Err(f) => {
                    return Err(f);
                },
            };
            let i = match ans {
                None => {
                    return Ok(false);
                },
                Some(i) => i,
            };
            let c = cells[i];
            let w = self.play(c);
            match w {
                Some(winner) => {
                    if winner != 1 {
                        return Err(Fault::Shape);
                    }
                    return match driver.request(NodeType::End(Rat::from_int(1))) {
                        Ok(_) => Ok(false),
                        Err(f) => Err(f),
                    };
                },
                None => {},
            }
            proof {
                assert(cell_free(old(self).board@, c.x as int, c.y as int));
            }
            let msg = self.serialize();
            let ans2 = match driver.request(NodeType::Message2(msg.1)) {
                Ok(a) => a,
                Err(f) => {
                    return Err(f);
                },
            };
            match ans2 {
                None => {
                    return Ok(false);
                },
                Some(_) => {},
            }
        } else {
            let ans = match driver.request(NodeType::Player2(labels)) {
                Ok(a) => a,
                Err(f) => {
                    return Err(f);
                },
            };
            let i = match ans {
                None => {
                    return Ok(false);
                },
                Some(i) => i,
            };
            let c = cells[i];
            let w = self.play(c);
            match w {
                Some(winner) => {
                    if winner != -1 {
                        return Err(Fault::Shape);
                    }
                    return match driver.request(NodeType::End(Rat::from_int(-1))) {
                        Ok(_) => Ok(false),
                        Err(f) => Err(f),
                    };
                },
                None => {},
            }
            proof {
                assert(cell_free(old(self).board@, c.x as int, c.y as int));
            }
            let msg = self.serialize();
            let ans2 = match driver.request(NodeType::Message1(msg.1)) {
                Ok(a) => a,
                Err(f) => {
                    return Err(f);
                },
            };
            match ans2 {
                None => {
                    return Ok(false);
                },
                Some(_) => {},
            }
        }
        let remaining = self.empty_cells();
        if remaining.len() == 0 {
            return match driver.request(NodeType::End(Rat::zero())) {
                Ok(_) => Ok(false),
                Err(f) => Err(f),
            };
        }
        Ok(true)
    }

    fn dup(&self) -> (g: Self)
        ensures
            g.board@ == self.board@,
            g.curr_player == self.curr_player,
    {
        TicTacToe { board: clone_msg(&self.board), curr_player: self.curr_player }
    }
}

} // verus!
