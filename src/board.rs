use vstd::prelude::*;
use crate::game::{GameResult, Player};

verus! {

/*
Squares are numbered top to bottom, left to right, seen from White's side:

 0  1  2  3  4  5  6  7    Black's home row
 8  9 10 11 12 13 14 15
...
48 49 50 51 52 53 54 55
56 57 58 59 60 61 62 63    White's home row

White moves towards square 0, Black towards square 63.
*/

/// White's home row, which Black tries to reach.
pub const WHITE_FIRST_ROW: u64 = 0xff00_0000_0000_0000;
/// Black's home row, which White tries to reach.
pub const BLACK_FIRST_ROW: u64 = 0x0000_0000_0000_00ff;
/// White's two starting rows.
pub const WHITE_START: u64 = 0xffff_0000_0000_0000;
/// Black's two starting rows.
pub const BLACK_START: u64 = 0x0000_0000_0000_ffff;
/// The right-hand column.
pub const EDGE_RIGHT: u64 = 0x8080_8080_8080_8080;
/// The left-hand column.
pub const EDGE_LEFT: u64 = 0x0101_0101_0101_0101;

/// Whether square `i` is set in the bit-set `b`.
pub open spec fn is_set(b: u64, i: u64) -> bool {
    i < 64 && (b >> i) & 1u64 == 1u64
}

/// A move from the square in the first field to the square in the second.
#[derive(Clone, Copy, Debug, PartialEq, Eq, Structural, Hash)]
pub struct BreakthroughMove(pub u8, pub u8);

impl BreakthroughMove {
    /// Both squares lie on the board.
    pub open spec fn on_board(self) -> bool {
        self.0 < 64 && self.1 < 64
    }
}

/// A position: one bit-set of occupied squares per side, the side to move, and the
/// number of plies played since the start.
#[derive(Clone, Copy, Debug, PartialEq, Eq, Structural, Hash)]
pub struct BreakthroughNode {
    pub bitboard_black: u64,
    pub bitboard_white: u64,
    pub to_play: Player,
    pub ply: u32,
}

/// The move from `from` to `to`, as a value.
pub open spec fn mv(from: u64, to: u64) -> BreakthroughMove {
    BreakthroughMove(from as u8, to as u8)
}

/// The one-element sequence of the move when `cond` holds, else the empty sequence.
pub open spec fn move_if(cond: bool, from: u64, to: u64) -> Seq<BreakthroughMove> {
    if cond {
        seq![mv(from, to)]
    } else {
        Seq::empty()
    }
}

impl BreakthroughNode {
    /// The two sides never share a square.
    pub open spec fn wf(self) -> bool {
        self.bitboard_black & self.bitboard_white == 0
    }

    /// Square `i` holds a piece of either side.
    pub open spec fn occupied(self, i: u64) -> bool {
        is_set(self.bitboard_black, i) || is_set(self.bitboard_white, i)
    }

    /// White steps straight ahead from `d + 8` onto the empty square `d`.
    pub open spec fn white_straight(self, d: u64) -> bool {
        d + 8 < 64 && is_set(self.bitboard_white, (d + 8) as u64) && !self.occupied(d)
    }

    /// White steps up and right from `d + 7`, not from the right-hand column, onto a
    /// square it does not hold.
    pub open spec fn white_right(self, d: u64) -> bool {
        d + 7 < 64 && is_set(self.bitboard_white, (d + 7) as u64) && (d + 7) % 8 != 7 && !is_set(
            self.bitboard_white,
            d,
        )
    }

    /// White steps up and left from `d + 9`, not from the left-hand column, onto a
    /// square it does not hold.
    pub open spec fn white_left(self, d: u64) -> bool {
        d + 9 < 64 && is_set(self.bitboard_white, (d + 9) as u64) && (d + 9) % 8 != 0 && !is_set(
            self.bitboard_white,
            d,
        )
    }

    /// Black steps straight ahead from `d - 8` onto the empty square `d`.
    pub open spec fn black_straight(self, d: u64) -> bool {
        d >= 8 && is_set(self.bitboard_black, (d - 8) as u64) && !self.occupied(d)
    }

    /// Black steps down and right from `d - 9`, not from the right-hand column, onto a
    /// square it does not hold.
    pub open spec fn black_right(self, d: u64) -> bool {
        d >= 9 && is_set(self.bitboard_black, (d - 9) as u64) && (d - 9) % 8 != 7 && !is_set(
            self.bitboard_black,
            d,
        )
    }

    /// Black steps down and left from `d - 7`, not from the left-hand column, onto a
    /// square it does not hold.
    pub open spec fn black_left(self, d: u64) -> bool {
        d >= 7 && is_set(self.bitboard_black, (d - 7) as u64) && (d - 7) % 8 != 0 && !is_set(
            self.bitboard_black,
            d,
        )
    }

    /// White's moves onto square `d`: straight, then up-right, then up-left.
    pub open spec fn white_moves_at(self, d: u64) -> Seq<BreakthroughMove> {
        move_if(self.white_straight(d), (d + 8) as u64, d) + move_if(
            self.white_right(d),
            (d + 7) as u64,
            d,
        ) + move_if(self.white_left(d), (d + 9) as u64, d)
    }

    /// Black's moves onto square `d`: straight, then down-right, then down-left.
    pub open spec fn black_moves_at(self, d: u64) -> Seq<BreakthroughMove> {
        move_if(self.black_straight(d), (d - 8) as u64, d) + move_if(
            self.black_right(d),
            (d - 9) as u64,
            d,
        ) + move_if(self.black_left(d), (d - 7) as u64, d)
    }

    /// The moves of side `p` onto square `d`.
    pub open spec fn moves_at(self, p: Player, d: u64) -> Seq<BreakthroughMove> {
        match p {
            Player::White => self.white_moves_at(d),
            Player::Black => self.black_moves_at(d),
        }
    }

    /// The moves of side `p` onto the squares below `k`, by destination.
    pub open spec fn moves_below(self, p: Player, k: nat) -> Seq<BreakthroughMove>
        decreases k,
    {
        if k == 0 {
            Seq::empty()
        } else {
            self.moves_below(p, (k - 1) as nat) + self.moves_at(p, (k - 1) as u64)
        }
    }

    /// Every legal move of the side to play, ordered by destination square.
    pub open spec fn legal_moves(self) -> Seq<BreakthroughMove> {
        self.moves_below(self.to_play, 64)
    }

    /// The position after `m`: the mover leaves the source and takes the destination,
    /// the other side loses whatever stood there, the turn passes and the ply grows.
    pub open spec fn spec_take_action(self, m: BreakthroughMove) -> BreakthroughNode {
        let start = 1u64 << m.0;
        let end = 1u64 << m.1;
        match self.to_play {
            Player::Black => BreakthroughNode {
                bitboard_black: (self.bitboard_black & !start) | end,
                bitboard_white: self.bitboard_white & !end,
                to_play: Player::White,
                ply: (self.ply + 1) as u32,
            },
            Player::White => BreakthroughNode {
                bitboard_black: self.bitboard_black & !end,
                bitboard_white: (self.bitboard_white & !start) | end,
                to_play: Player::Black,
                ply: (self.ply + 1) as u32,
            },
        }
    }

    /// White has a piece on Black's home row.
    pub open spec fn white_arrived(self) -> bool {
        self.bitboard_white & BLACK_FIRST_ROW != 0
    }

    /// Black has a piece on White's home row.
    pub open spec fn black_arrived(self) -> bool {
        self.bitboard_black & WHITE_FIRST_ROW != 0
    }

    /// The game is over: a side stands on the other's home row.
    pub open spec fn spec_is_terminal(self) -> bool {
        self.white_arrived() || self.black_arrived()
    }

    /// Both sides on the other's home row: no game reaches this.
    pub open spec fn double_arrival(self) -> bool {
        self.white_arrived() && self.black_arrived()
    }

    /// The winner, if a side stands on the other's home row.
    pub open spec fn spec_result(self) -> GameResult {
        if self.white_arrived() {
            GameResult::Win(Player::White)
        } else if self.black_arrived() {
            GameResult::Win(Player::Black)
        } else {
            GameResult::Undecided
        }
    }
}

impl BreakthroughNode {
    fn get_moves_white(&self) -> (moves: Vec<BreakthroughMove>)
        ensures
            moves@ == self.moves_below(Player::White, 64),
    {
        let w = self.bitboard_white;
        let b = self.bitboard_black;
        let nonempty_squares = b | w;
        // Straight ahead: shift by 8 and keep the empty destinations
        let straight_line = (w >> 8u64) & !nonempty_squares;
        // Up and right: drop the right-hand column, shift by 7, keep non-friendly
        let diag_right = ((w & !EDGE_RIGHT) >> 7u64) & !w;
        // Up and left: drop the left-hand column, shift by 9, keep non-friendly
        let diag_left = ((w & !EDGE_LEFT) >> 9u64) & !w;
        let mut moves: Vec<BreakthroughMove> = Vec::new();
        let mut i: u8 = 0;
        while i < 64
            invariant
                i <= 64,
                w == self.bitboard_white,
                b == self.bitboard_black,
                straight_line == (w >> 8u64) & !(b | w),
                diag_right == ((w & !EDGE_RIGHT) >> 7u64) & !w,
                diag_left == ((w & !EDGE_LEFT) >> 9u64) & !w,
                moves@ == self.moves_below(Player::White, i as nat),
            decreases 64 - i,
        {
            proof {
                lemma_masks(w, b, i as u64);
            }
            let ghost before = moves@;
            if straight_line & (1u64 << i) > 0 {
                moves.push(BreakthroughMove(i + 8, i));
            }
            if diag_right & (1u64 << i) > 0 {
                moves.push(BreakthroughMove(i + 7, i));
            }
            if diag_left & (1u64 << i) > 0 {
                moves.push(BreakthroughMove(i + 9, i));
            }
            assert(moves@ =~= before + self.white_moves_at(i as u64));
            i = i + 1;
        }
        moves
    }

    fn get_moves_black(&self) -> (moves: Vec<BreakthroughMove>)
        ensures
            moves@ == self.moves_below(Player::Black, 64),
    {
        let w = self.bitboard_white;
        let b = self.bitboard_black;
        let nonempty_squares = b | w;
        // Straight ahead: shift by 8 and keep the empty destinations
        let straight_line = (b << 8u64) & !nonempty_squares;
        // Down and right: drop the right-hand column, shift by 9, keep non-friendly
        let diag_right = ((b & !EDGE_RIGHT) << 9u64) & !b;
        // Down and left: drop the left-hand column, shift by 7, keep non-friendly
        let diag_left = ((b & !EDGE_LEFT) << 7u64) & !b;
        let mut moves: Vec<BreakthroughMove> = Vec::new();
        let mut i: u8 = 0;
        while i < 64
            invariant
                i <= 64,
                w == self.bitboard_white,
                b == self.bitboard_black,
                straight_line == (b << 8u64) & !(b | w),
                diag_right == ((b & !EDGE_RIGHT) << 9u64) & !b,
                diag_left == ((b & !EDGE_LEFT) << 7u64) & !b,
                moves@ == self.moves_below(Player::Black, i as nat),
            decreases 64 - i,
        {
            proof {
                lemma_masks(w, b, i as u64);
            }
            let ghost before = moves@;
            if straight_line & (1u64 << i) > 0 {
                moves.push(BreakthroughMove(i - 8, i));
            }
            if diag_right & (1u64 << i) > 0 {
                moves.push(BreakthroughMove(i - 9, i));
            }
            if diag_left & (1u64 << i) > 0 {
                moves.push(BreakthroughMove(i - 7, i));
            }
            assert(moves@ =~= before + self.black_moves_at(i as u64));
            i = i + 1;
        }
        moves
    }

    /// Every legal move of the side to play, ordered by destination square, and for
    /// each destination straight, then right, then left.
    pub fn get_possible_actions(&self) -> (moves: Vec<BreakthroughMove>)
        ensures
            moves@ == self.legal_moves(),
    {
        match self.to_play {
            Player::White => self.get_moves_white(),
            Player::Black => self.get_moves_black(),
        }
    }

    /// Who has won. Requires that not both sides stand on the other's home row,
    /// which no game reaches.
    pub fn get_result(&self) -> (r: GameResult)
        requires
            !self.double_arrival(),
        ensures
            r == self.spec_result(),
    {
        let white_in = self.bitboard_white & BLACK_FIRST_ROW;
        let black_in = self.bitboard_black & WHITE_FIRST_ROW;
        if white_in != 0 {
            GameResult::Win(Player::White)
        } else if black_in != 0 {
            GameResult::Win(Player::Black)
        } else {
            GameResult::Undecided
        }
    }

    /// Whether a side stands on the other's home row.
    pub fn is_terminal(&self) -> (r: bool)
        ensures
            r == self.spec_is_terminal(),
    {
        (self.bitboard_white & BLACK_FIRST_ROW) != 0 || (self.bitboard_black & WHITE_FIRST_ROW)
            != 0
    }

    /// The position after the side to play makes `action`.
    pub fn take_action(&self, action: &BreakthroughMove) -> (r: BreakthroughNode)
        requires
            action.on_board(),
            self.ply < u32::MAX,
        ensures
            r == self.spec_take_action(*action),
    {
        let start = 1u64 << action.0;
        let end = 1u64 << action.1;
        match self.to_play {
            Player::Black => BreakthroughNode {
                bitboard_black: (self.bitboard_black & !start) | end,
                bitboard_white: self.bitboard_white & !end,
                to_play: Player::White,
                ply: self.ply + 1,
            },
            Player::White => BreakthroughNode {
                bitboard_black: self.bitboard_black & !end,
                bitboard_white: (self.bitboard_white & !start) | end,
                to_play: Player::Black,
                ply: self.ply + 1,
            },
        }
    }
}

impl Default for BreakthroughNode {
    /// The starting position: each side on its two home rows, White to move.
    fn default() -> (r: BreakthroughNode)
        ensures
            r.bitboard_black == BLACK_START,
            r.bitboard_white == WHITE_START,
            r.to_play == Player::White,
            r.ply == 0,
    {
        BreakthroughNode {
            bitboard_black: BLACK_START,
            bitboard_white: WHITE_START,
            to_play: Player::White,
            ply: 0,
        }
    }
}

/// Testing a bit with a one-bit mask reads square `i`.
pub proof fn lemma_bit_test(x: u64, i: u64)
    by (bit_vector)
    requires
        i < 64,
    ensures
        (x & (1u64 << i) > 0) == ((x >> i) & 1u64 == 1u64),
        ((1u64 << i) & x > 0) == ((x >> i) & 1u64 == 1u64),
{
}

/// How the shifted masks of move generation read square by square.
proof fn lemma_masks(w: u64, b: u64, i: u64)
    by (bit_vector)
    requires
        i < 64,
    ensures
        ((w >> 8u64) & !(b | w)) & (1u64 << i) > 0 <==> (i + 8 < 64 && (w >> (i + 8)) & 1u64
            == 1u64 && (w >> i) & 1u64 != 1u64 && (b >> i) & 1u64 != 1u64),
        ((w & !0x8080_8080_8080_8080u64) >> 7u64) & !w & (1u64 << i) > 0 <==> (i + 7 < 64 && (w
            >> (i + 7)) & 1u64 == 1u64 && (i + 7) % 8 != 7 && (w >> i) & 1u64 != 1u64),
        ((w & !0x0101_0101_0101_0101u64) >> 9u64) & !w & (1u64 << i) > 0 <==> (i + 9 < 64 && (w
            >> (i + 9)) & 1u64 == 1u64 && (i + 9) % 8 != 0 && (w >> i) & 1u64 != 1u64),
        ((b << 8u64) & !(b | w)) & (1u64 << i) > 0 <==> (i >= 8 && (b >> ((i - 8) as u64)) & 1u64 == 1u64
            && (w >> i) & 1u64 != 1u64 && (b >> i) & 1u64 != 1u64),
        ((b & !0x8080_8080_8080_8080u64) << 9u64) & !b & (1u64 << i) > 0 <==> (i >= 9 && (b >> ((i
            - 9) as u64)) & 1u64 == 1u64 && (i - 9) % 8 != 7 && (b >> i) & 1u64 != 1u64),
        ((b & !0x0101_0101_0101_0101u64) << 7u64) & !b & (1u64 << i) > 0 <==> (i >= 7 && (b >> ((i
            - 7) as u64)) & 1u64 == 1u64 && (i - 7) % 8 != 0 && (b >> i) & 1u64 != 1u64),
{
}

impl BreakthroughNode {
    /// Whether `moves`, played one after the other from this position, are each legal
    /// where they are played.
    pub open spec fn is_line(self, moves: Seq<BreakthroughMove>) -> bool
        decreases moves.len(),
    {
        moves.len() == 0 || (self.legal_moves().contains(moves[0]) && self.ply < u32::MAX
            && self.spec_take_action(moves[0]).is_line(moves.drop_first()))
    }

    /// The position after playing `moves` one after the other.
    pub open spec fn after(self, moves: Seq<BreakthroughMove>) -> BreakthroughNode
        decreases moves.len(),
    {
        if moves.len() == 0 {
            self
        } else {
            self.spec_take_action(moves[0]).after(moves.drop_first())
        }
    }

    /// The starting position.
    pub open spec fn start() -> BreakthroughNode {
        BreakthroughNode {
            bitboard_black: BLACK_START,
            bitboard_white: WHITE_START,
            to_play: Player::White,
            ply: 0,
        }
    }
}

proof fn lemma_moves_below_on_board(node: BreakthroughNode, p: Player, k: nat)
    requires
        k <= 64,
    ensures
        forall|j: int|
            0 <= j < node.moves_below(p, k).len() ==> (#[trigger] node.moves_below(p, k)[j]).on_board(),
    decreases k,
{
    if k > 0 {
        lemma_moves_below_on_board(node, p, (k - 1) as nat);
        let d = (k - 1) as u64;
        let prev = node.moves_below(p, (k - 1) as nat);
        let here = node.moves_at(p, d);
        assert(node.moves_below(p, k) == prev + here);
        assert forall|j: int| 0 <= j < here.len() implies (#[trigger] here[j]).on_board() by {
        }
        assert forall|j: int| 0 <= j < node.moves_below(p, k).len() implies (
        #[trigger] node.moves_below(p, k)[j]).on_board() by {
            if j >= prev.len() {
                assert(node.moves_below(p, k)[j] == here[j - prev.len()]);
            }
        }
    }
}

/// Every legal move has both its squares on the board.
pub proof fn lemma_legal_moves_on_board(node: BreakthroughNode, m: BreakthroughMove)
    requires
        node.legal_moves().contains(m),
    ensures
        m.on_board(),
{
    lemma_moves_below_on_board(node, node.to_play, 64);
}

/// A legal move never puts both sides on one square: applying it to a position whose
/// sides share no square gives such a position again.
pub proof fn lemma_take_action_keeps_sides_apart(node: BreakthroughNode, m: BreakthroughMove)
    requires
        node.wf(),
        node.legal_moves().contains(m),
    ensures
        m.on_board(),
        node.spec_take_action(m).wf(),
{
    lemma_legal_moves_on_board(node, m);
    let b = node.bitboard_black;
    let w = node.bitboard_white;
    let s = m.0 as u64;
    let e = m.1 as u64;
    assert(((b & !(1u64 << e)) & ((w & !(1u64 << s)) | (1u64 << e))) == 0) by (bit_vector)
        requires
            b & w == 0,
    ;
    assert((((b & !(1u64 << s)) | (1u64 << e)) & (w & !(1u64 << e))) == 0) by (bit_vector)
        requires
            b & w == 0,
    ;
}

/// Every position reached from the start by legal moves has sides that share no square.
pub proof fn lemma_reachable_sides_apart(moves: Seq<BreakthroughMove>)
    requires
        BreakthroughNode::start().is_line(moves),
    ensures
        BreakthroughNode::start().after(moves).wf(),
{
    assert(0x0000_0000_0000_ffffu64 & 0xffff_0000_0000_0000u64 == 0) by (bit_vector);
    lemma_line_keeps_sides_apart(BreakthroughNode::start(), moves);
}

proof fn lemma_line_keeps_sides_apart(node: BreakthroughNode, moves: Seq<BreakthroughMove>)
    requires
        node.wf(),
        node.is_line(moves),
    ensures
        node.after(moves).wf(),
    decreases moves.len(),
{
    if moves.len() > 0 {
        lemma_take_action_keeps_sides_apart(node, moves[0]);
        lemma_line_keeps_sides_apart(node.spec_take_action(moves[0]), moves.drop_first());
    }
}

/// Each move adds exactly one ply and hands the turn to the other side.
pub proof fn lemma_take_action_advances(node: BreakthroughNode, m: BreakthroughMove)
    requires
        node.ply < u32::MAX,
    ensures
        node.spec_take_action(m).ply == node.ply + 1,
        node.spec_take_action(m).to_play == node.to_play.spec_opponent(),
        node.spec_take_action(m).to_play != node.to_play,
{
}

/// A move from an unfinished position can bring only the mover to the other's home row.
pub proof fn lemma_no_double_arrival_after_move(node: BreakthroughNode, m: BreakthroughMove)
    requires
        !node.spec_is_terminal(),
        m.on_board(),
    ensures
        !node.spec_take_action(m).double_arrival(),
        node.spec_take_action(m).spec_is_terminal() ==> node.spec_take_action(m).spec_result()
            == GameResult::Win(node.to_play),
{
    let b = node.bitboard_black;
    let w = node.bitboard_white;
    let s = m.0 as u64;
    let e = m.1 as u64;
    assert((b & !(1u64 << e)) & 0xff00_0000_0000_0000u64 == 0) by (bit_vector)
        requires
            b & 0xff00_0000_0000_0000u64 == 0,
    ;
    assert((w & !(1u64 << e)) & 0x0000_0000_0000_00ffu64 == 0) by (bit_vector)
        requires
            w & 0x0000_0000_0000_00ffu64 == 0,
    ;
}

} // verus!
