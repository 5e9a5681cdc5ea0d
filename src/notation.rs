use vstd::prelude::*;
use vstd::string::StringExecFns;
use vstd::string::StringSliceAdditionalSpecFns;
use vstd::utf8::{encode_utf8, is_ascii_chars, is_ascii_chars_encode_utf8};
use crate::board::{is_set, lemma_bit_test, BreakthroughMove, BreakthroughNode};

verus! {

/// Why a move's text was refused.
#[derive(Clone, Copy, Debug, PartialEq, Eq, Structural)]
pub enum MoveParseError {
    /// The text is not four bytes long.
    WrongLength,
    /// The first two bytes do not name a square.
    BadFirstSquare,
    /// The last two bytes do not name a square.
    BadSecondSquare,
}

/// The letter of column `c`, from `a` on the left.
pub open spec fn file_char(c: int) -> char {
    if c == 0 {
        'a'
    } else if c == 1 {
        'b'
    } else if c == 2 {
        'c'
    } else if c == 3 {
        'd'
    } else if c == 4 {
        'e'
    } else if c == 5 {
        'f'
    } else if c == 6 {
        'g'
    } else {
        'h'
    }
}

/// The digit of rank `k`, counted from `1` at White's home row.
pub open spec fn rank_char(k: int) -> char {
    if k == 1 {
        '1'
    } else if k == 2 {
        '2'
    } else if k == 3 {
        '3'
    } else if k == 4 {
        '4'
    } else if k == 5 {
        '5'
    } else if k == 6 {
        '6'
    } else if k == 7 {
        '7'
    } else {
        '8'
    }
}

/// The name of a square: its column letter, then its rank.
pub open spec fn square_text(sq: u8) -> Seq<char> {
    seq![file_char((sq % 8) as int), rank_char(8 - (sq / 8) as int)]
}

/// The text of a move: the source square, then the destination square.
pub open spec fn move_text(m: BreakthroughMove) -> Seq<char> {
    square_text(m.0) + square_text(m.1)
}

/// The square named by a column byte `a`..`h` and a rank byte `1`..`8`, if they are such.
pub open spec fn parse_square(file: u8, rank: u8) -> Option<u8> {
    if 97 <= file <= 104 && 49 <= rank <= 56 {
        Some(((56 - rank) * 8 + (file - 97)) as u8)
    } else {
        None
    }
}

/// The move named by four bytes, or why there is none.
pub open spec fn parse_move(bytes: Seq<u8>) -> Result<BreakthroughMove, MoveParseError> {
    if bytes.len() != 4 {
        Err(MoveParseError::WrongLength)
    } else if parse_square(bytes[0], bytes[1]) is None {
        Err(MoveParseError::BadFirstSquare)
    } else if parse_square(bytes[2], bytes[3]) is None {
        Err(MoveParseError::BadSecondSquare)
    } else {
        Ok(
            BreakthroughMove(
                parse_square(bytes[0], bytes[1]).unwrap(),
                parse_square(bytes[2], bytes[3]).unwrap(),
            ),
        )
    }
}

fn file_letter(c: u8) -> (r: &'static str)
    requires
        c < 8,
    ensures
        r@ == seq![file_char(c as int)],
{
    proof {
        reveal_strlit("a");
        reveal_strlit("b");
        reveal_strlit("c");
        reveal_strlit("d");
        reveal_strlit("e");
        reveal_strlit("f");
        reveal_strlit("g");
        reveal_strlit("h");
    }
    if c == 0 {
        "a"
    } else if c == 1 {
        "b"
    } else if c == 2 {
        "c"
    } else if c == 3 {
        "d"
    } else if c == 4 {
        "e"
    } else if c == 5 {
        "f"
    } else if c == 6 {
        "g"
    } else {
        "h"
    }
}

fn rank_digit(k: u8) -> (r: &'static str)
    requires
        1 <= k <= 8,
    ensures
        r@ == seq![rank_char(k as int)],
{
    proof {
        reveal_strlit("1");
        reveal_strlit("2");
        reveal_strlit("3");
        reveal_strlit("4");
        reveal_strlit("5");
        reveal_strlit("6");
        reveal_strlit("7");
        reveal_strlit("8");
    }
    if k == 1 {
        "1"
    } else if k == 2 {
        "2"
    } else if k == 3 {
        "3"
    } else if k == 4 {
        "4"
    } else if k == 5 {
        "5"
    } else if k == 6 {
        "6"
    } else if k == 7 {
        "7"
    } else {
        "8"
    }
}

impl BreakthroughMove {
    /// The name of a square, such as `a2`.
    fn encode_square(square: u8) -> (r: String)
        requires
            square < 64,
        ensures
            r@ == square_text(square),
    {
        let mut text = String::new();
        text.append(file_letter(square % 8));
        text.append(rank_digit(8 - square / 8));
        assert(text@ =~= square_text(square));
        text
    }

    /// The move's four-character text, such as `a2a3`.
    pub fn to_string(&self) -> (r: String)
        requires
            self.on_board(),
        ensures
            r@ == move_text(*self),
    {
        let mut text = Self::encode_square(self.0);
        let second = Self::encode_square(self.1);
        text.append(second.as_str());
        text
    }

    /// Reads a move from its four-byte text: a column letter `a`..`h` and a rank digit
    /// `1`..`8` for the source, then the same for the destination.
    pub fn from_str(s: &str) -> (r: Result<BreakthroughMove, MoveParseError>)
        ensures
            r == parse_move(s.spec_bytes()),
            r matches Ok(m) ==> m.on_board(),
    {
        if s.len() != 4 {
            return Err(MoveParseError::WrongLength);
        }
        let bytes: &[u8] = s.as_bytes();
        let start: u8 = if 97 <= bytes[0] && bytes[0] <= 104 && 49 <= bytes[1] && bytes[1] <= 56 {
            (56 - bytes[1]) * 8 + (bytes[0] - 97)
        } else {
            return Err(MoveParseError::BadFirstSquare);
        };
        let end: u8 = if 97 <= bytes[2] && bytes[2] <= 104 && 49 <= bytes[3] && bytes[3] <= 56 {
            (56 - bytes[3]) * 8 + (bytes[2] - 97)
        } else {
            return Err(MoveParseError::BadSecondSquare);
        };
        Ok(BreakthroughMove(start, end))
    }
}

/// The character for square `i`: `B`, `W` or `.`.
pub open spec fn square_char(node: BreakthroughNode, i: u64) -> char {
    if is_set(node.bitboard_black, i) {
        'B'
    } else if is_set(node.bitboard_white, i) {
        'W'
    } else {
        '.'
    }
}

/// What follows square `i` in the diagram: a space inside a row, a line break after a
/// row, nothing after the last square.
pub open spec fn separator(i: u64) -> Seq<char> {
    if i % 8 < 7 {
        seq![' ']
    } else if i < 63 {
        seq!['\n']
    } else {
        Seq::empty()
    }
}

/// The diagram of the first `k` squares.
pub open spec fn board_text_upto(node: BreakthroughNode, k: nat) -> Seq<char>
    decreases k,
{
    if k == 0 {
        Seq::empty()
    } else {
        board_text_upto(node, (k - 1) as nat) + seq![square_char(node, (k - 1) as u64)]
            + separator((k - 1) as u64)
    }
}

/// The diagram of a position: eight rows of eight characters separated by spaces,
/// Black's home row first.
pub open spec fn board_text(node: BreakthroughNode) -> Seq<char> {
    board_text_upto(node, 64)
}

impl BreakthroughNode {
    /// The diagram of the position, as `board_text` describes it.
    pub fn to_string(&self) -> (r: String)
        ensures
            r@ == board_text(*self),
    {
        let mut result = String::new();
        let mut row: u64 = 0;
        while row < 8
            invariant
                row <= 8,
                result@ == board_text_upto(*self, (row * 8) as nat),
            decreases 8 - row,
        {
            let mut col: u64 = 0;
            while col < 8
                invariant
                    row < 8,
                    col <= 8,
                    result@ == board_text_upto(*self, (row * 8 + col) as nat),
                decreases 8 - col,
            {
                let idx = row * 8 + col;
                let ghost before = result@;
                assert(idx % 8 == col && (idx < 63 <==> (row < 7 || col < 7)) && idx < 64)
                    by (nonlinear_arith)
                    requires
                        idx == row * 8 + col,
                        row < 8,
                        col < 8,
                ;
                proof {
                    reveal_strlit("B");
                    reveal_strlit("W");
                    reveal_strlit(".");
                    reveal_strlit(" ");
                    reveal_strlit("\n");
                    lemma_bit_test(self.bitboard_black, idx);
                    lemma_bit_test(self.bitboard_white, idx);
                }
                if self.bitboard_black & (1u64 << idx) > 0 {
                    result.append("B");
                } else if self.bitboard_white & (1u64 << idx) > 0 {
                    result.append("W");
                } else {
                    result.append(".");
                }
                assert(result@ =~= before + seq![square_char(*self, idx)]);
                let ghost mid = result@;
                if col < 7 {
                    result.append(" ");
                } else if row < 7 {
                    result.append("\n");
                }
                assert(result@ =~= mid + separator(idx));
                col = col + 1;
            }
            row = row + 1;
        }
        result
    }
}

/// Reading back the text of a move on the board gives the move again.
pub proof fn lemma_move_text_round_trip(m: BreakthroughMove)
    requires
        m.on_board(),
    ensures
        parse_move(encode_utf8(move_text(m))) == Ok::<BreakthroughMove, MoveParseError>(m),
{
    let t = move_text(m);
    assert(is_ascii_chars(t));
    is_ascii_chars_encode_utf8(t);
    let b = encode_utf8(t);
    assert(b.len() == 4);
    assert(b[0] == t[0] as u8 && b[1] == t[1] as u8 && b[2] == t[2] as u8 && b[3] == t[3] as u8);
    assert(b[0] == 97 + m.0 % 8);
    assert(b[1] == 56 - m.0 / 8);
    assert(b[2] == 97 + m.1 % 8);
    assert(b[3] == 56 - m.1 / 8);
}

/// Why a player's move was refused.
#[derive(Clone, Copy, Debug, PartialEq, Eq, Structural)]
pub enum MoveInputError {
    /// The text does not name a move.
    Unreadable(MoveParseError),
    /// The move is not legal in the position.
    Illegal,
}

/// Reads a player's move for `node`: the move named by `text`, if it is legal there.
pub fn parse_legal_move(node: &BreakthroughNode, text: &str) -> (r: Result<
    BreakthroughMove,
    MoveInputError,
>)
    ensures
        r == match parse_move(text.spec_bytes()) {
            Err(e) => Err(MoveInputError::Unreadable(e)),
            Ok(m) => if node.legal_moves().contains(m) {
                Ok(m)
            } else {
                Err(MoveInputError::Illegal)
            },
        },
{
    match BreakthroughMove::from_str(text) {
        Err(e) => Err(MoveInputError::Unreadable(e)),
        Ok(m) => {
            let valid_moves = node.get_possible_actions();
            let mut i: usize = 0;
            while i < valid_moves.len()
                invariant
                    i <= valid_moves.len(),
                    valid_moves@ == node.legal_moves(),
                    parse_move(text.spec_bytes()) == Ok::<BreakthroughMove, MoveParseError>(m),
                    forall|j: int| 0 <= j < i ==> valid_moves@[j] != m,
                decreases valid_moves.len() - i,
            {
                if valid_moves[i] == m {
                    assert(valid_moves@[i as int] == m);
                    return Ok(m);
                }
                i = i + 1;
            }
            Err(MoveInputError::Illegal)
        },
    }
}

} // verus!
