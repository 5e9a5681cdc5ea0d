use vstd::prelude::*;
use std::cmp::Ordering;

verus! {

/// The two sides of the game. White starts at the bottom of the board and moves up.
#[derive(Clone, Copy, Debug, PartialEq, Eq, Structural, Hash)]
pub enum Player {
    White,
    Black,
}

impl Player {
    /// The side that moves after this one.
    pub open spec fn spec_opponent(self) -> Player {
        match self {
            Player::White => Player::Black,
            Player::Black => Player::White,
        }
    }
}

/// The outcome of a position. The game has no draws.
#[derive(Clone, Copy, Debug, PartialEq, Eq, Structural, Hash)]
pub enum GameResult {
    Win(Player),
    Undecided,
}

/// A scored outcome. `WhiteWinPly(n)` and `BlackWinPly(n)` are forced wins that end at
/// ply `n`; `Heuristic(x)` is a static estimate, positive when White stands better.
///
/// The order puts every black win below every heuristic score and every heuristic
/// score below every white win. A white win is better the earlier it comes; a black
/// win is worse for White the earlier it comes.
#[derive(Clone, Copy, Debug, PartialEq, Eq, Structural)]
pub enum Evaluation {
    BlackWinPly(u32),
    WhiteWinPly(u32),
    Heuristic(i64),
}

impl Evaluation {
    /// Which of the three bands of the order the value lies in.
    pub open spec fn band(self) -> int {
        match self {
            Evaluation::BlackWinPly(_) => 0,
            Evaluation::Heuristic(_) => 1,
            Evaluation::WhiteWinPly(_) => 2,
        }
    }

    /// The position of the value inside its band.
    pub open spec fn within_band(self) -> int {
        match self {
            Evaluation::BlackWinPly(n) => n as int,
            Evaluation::Heuristic(x) => x as int,
            Evaluation::WhiteWinPly(n) => -(n as int),
        }
    }

    /// The strict order on evaluations: by band, then by place inside the band.
    pub open spec fn spec_lt(self, other: Evaluation) -> bool {
        self.band() < other.band() || (self.band() == other.band() && self.within_band()
            < other.within_band())
    }

    /// How `self` compares with `other` in that order.
    pub open spec fn spec_compare(self, other: Evaluation) -> Ordering {
        if self.spec_lt(other) {
            Ordering::Less
        } else if other.spec_lt(self) {
            Ordering::Greater
        } else {
            Ordering::Equal
        }
    }

    /// The larger of two evaluations; the first on a tie.
    pub open spec fn spec_max(self, other: Evaluation) -> Evaluation {
        if self.spec_lt(other) {
            other
        } else {
            self
        }
    }

    /// Negation fails only on the heuristic score that has no negative in `i64`.
    pub open spec fn negatable(self) -> bool {
        !(self matches Evaluation::Heuristic(x) && x == i64::MIN)
    }

    /// The same outcome seen from the other side.
    pub open spec fn negated(self) -> Evaluation
        recommends
            self.negatable(),
    {
        match self {
            Evaluation::Heuristic(x) => Evaluation::Heuristic((-x) as i64),
            Evaluation::BlackWinPly(n) => Evaluation::WhiteWinPly(n),
            Evaluation::WhiteWinPly(n) => Evaluation::BlackWinPly(n),
        }
    }

    /// Compares two evaluations in the order described on the type.
    pub fn compare(&self, other: &Evaluation) -> (r: Ordering)
        ensures
            r == self.spec_compare(*other),
    {
        match (*self, *other) {
            (Evaluation::BlackWinPly(n), Evaluation::BlackWinPly(k)) => {
                if n < k {
                    Ordering::Less
                } else if n > k {
                    Ordering::Greater
                } else {
                    Ordering::Equal
                }
            },
            (Evaluation::WhiteWinPly(n), Evaluation::WhiteWinPly(k)) => {
                if k < n {
                    Ordering::Less
                } else if k > n {
                    Ordering::Greater
                } else {
                    Ordering::Equal
                }
            },
            (Evaluation::Heuristic(n), Evaluation::Heuristic(k)) => {
                if n < k {
                    Ordering::Less
                } else if n > k {
                    Ordering::Greater
                } else {
                    Ordering::Equal
                }
            },
            (Evaluation::BlackWinPly(_), _) => Ordering::Less,
            (Evaluation::WhiteWinPly(_), _) => Ordering::Greater,
            (Evaluation::Heuristic(_), Evaluation::BlackWinPly(_)) => Ordering::Greater,
            (Evaluation::Heuristic(_), Evaluation::WhiteWinPly(_)) => Ordering::Less,
        }
    }

    /// Whether `self` comes strictly before `other`.
    pub fn is_below(&self, other: &Evaluation) -> (r: bool)
        ensures
            r == self.spec_lt(*other),
    {
        match self.compare(other) {
            Ordering::Less => true,
            _ => false,
        }
    }

    /// The larger of two evaluations; the first on a tie.
    pub fn max_of(self, other: Evaluation) -> (r: Evaluation)
        ensures
            r == self.spec_max(other),
    {
        if self.is_below(&other) {
            other
        } else {
            self
        }
    }

    /// The same outcome seen from the other side: wins change hands at the same ply,
    /// heuristic scores change sign.
    pub fn negate(self) -> (r: Evaluation)
        requires
            self.negatable(),
        ensures
            r == self.negated(),
    {
        match self {
            Evaluation::Heuristic(x) => Evaluation::Heuristic(-x),
            Evaluation::BlackWinPly(n) => Evaluation::WhiteWinPly(n),
            Evaluation::WhiteWinPly(n) => Evaluation::BlackWinPly(n),
        }
    }
}

impl PartialOrd for Evaluation {
    fn partial_cmp(&self, other: &Evaluation) -> (r: Option<Ordering>) {
        Some(self.compare(other))
    }
}

impl vstd::std_specs::cmp::PartialOrdSpecImpl for Evaluation {
    open spec fn obeys_partial_cmp_spec() -> bool {
        true
    }

    open spec fn partial_cmp_spec(&self, other: &Evaluation) -> Option<Ordering> {
        Some(self.spec_compare(*other))
    }
}

impl std::ops::Neg for Evaluation {
    type Output = Evaluation;

    fn neg(self) -> (r: Evaluation) {
        self.negate()
    }
}

impl vstd::std_specs::ops::NegSpecImpl for Evaluation {
    open spec fn obeys_neg_spec() -> bool {
        true
    }

    open spec fn neg_req(self) -> bool {
        self.negatable()
    }

    open spec fn neg_spec(self) -> Evaluation {
        self.negated()
    }
}

impl std::ops::Not for Evaluation {
    type Output = Evaluation;

    fn not(self) -> (r: Evaluation) {
        self.negate()
    }
}

impl vstd::std_specs::ops::NotSpecImpl for Evaluation {
    open spec fn obeys_not_spec() -> bool {
        true
    }

    open spec fn not_req(self) -> bool {
        self.negatable()
    }

    open spec fn not_spec(self) -> Evaluation {
        self.negated()
    }
}

/// The order on evaluations is a strict total order, and `<` on the type follows it.
pub proof fn lemma_order_strict_total(a: Evaluation, b: Evaluation, c: Evaluation)
    ensures
        !a.spec_lt(a),
        a.spec_lt(b) ==> !b.spec_lt(a),
        a.spec_lt(b) && b.spec_lt(c) ==> a.spec_lt(c),
        a.spec_lt(b) || a == b || b.spec_lt(a),
        (a.spec_compare(b) == Ordering::Less) == a.spec_lt(b),
        (a.spec_compare(b) == Ordering::Equal) == (a == b),
{
}

/// Every black win lies below every heuristic score, which lies below every white win.
/// Among white wins the earlier ranks higher; among black wins the earlier ranks lower.
pub proof fn lemma_order_bands(n: u32, m: u32, x: i64)
    ensures
        Evaluation::BlackWinPly(n).spec_lt(Evaluation::Heuristic(x)),
        Evaluation::Heuristic(x).spec_lt(Evaluation::WhiteWinPly(m)),
        Evaluation::BlackWinPly(n).spec_lt(Evaluation::WhiteWinPly(m)),
        n < m ==> Evaluation::WhiteWinPly(m).spec_lt(Evaluation::WhiteWinPly(n)),
        n < m ==> Evaluation::BlackWinPly(n).spec_lt(Evaluation::BlackWinPly(m)),
{
}

/// Negating twice gives back the evaluation; negation swaps the winner at the same ply,
/// changes the sign of a heuristic score, and reverses the order.
pub proof fn lemma_negation_involution(a: Evaluation, b: Evaluation)
    requires
        a.negatable(),
        b.negatable(),
    ensures
        a.negated().negatable(),
        a.negated().negated() == a,
        a matches Evaluation::WhiteWinPly(n) ==> a.negated() == Evaluation::BlackWinPly(n),
        a matches Evaluation::BlackWinPly(n) ==> a.negated() == Evaluation::WhiteWinPly(n),
        a matches Evaluation::Heuristic(x) ==> a.negated() == Evaluation::Heuristic((-x) as i64),
        a.spec_lt(b) ==> b.negated().spec_lt(a.negated()),
{
}

} // verus!
