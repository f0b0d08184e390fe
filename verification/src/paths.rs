use vstd::prelude::*;

use crate::board::Board;
use crate::coords::Piece;
use crate::coords::Side;
use crate::moves::lemma_legal_move_members;
use crate::squares::Move;
use crate::squares::Square;

verus! {

/// A walk of one piece through the move graph: the moves taken in order.
#[derive(Debug, Clone, Hash)]
pub struct Path(pub Vec<Move>);

impl Path {
    /// The moves of the walk, in order.
    pub open spec fn moves(self) -> Seq<Move> {
        self.0@
    }

    pub fn new(moves: Vec<Move>) -> (p: Self)
        ensures
            p.moves() == moves@,
    {
        Path(moves)
    }

    pub fn empty() -> (p: Self)
        ensures
            p.moves() == Seq::<Move>::empty(),
    {
        let v: Vec<Move> = Vec::new();
        proof {
            assert(v@ =~= Seq::<Move>::empty());
        }
        Path(v)
    }

    pub fn len(&self) -> (n: usize)
        ensures
            n == self.moves().len(),
    {
        self.0.len()
    }

    pub fn get(&self, n: usize) -> (m: Move)
        requires
            n < self.moves().len(),
        ensures
            m == self.moves()[n as int],
    {
        self.0[n]
    }

    /// An owned copy of the walk.
    pub fn duplicate(&self) -> (p: Self)
        ensures
            p.moves() == self.moves(),
    {
        let mut v: Vec<Move> = Vec::new();
        let mut i: usize = 0;
        while i < self.0.len()
            invariant
                i <= self.0@.len(),
                v@ == self.0@.take(i as int),
            decreases self.0@.len() - i,
        {
            v.push(self.0[i]);
            proof {
                assert(v@ =~= self.0@.take(i + 1));
            }
            i = i + 1;
        }
        proof {
            assert(self.0@.take(self.0@.len() as int) =~= self.0@);
        }
        Path(v)
    }

    pub fn get_ending_square(&self) -> (r: Option<Square>)
        ensures
            self.moves().len() == 0 ==> r is None,
            self.moves().len() > 0 ==> r == Some(self.moves().last().1),
    {
        if self.0.len() == 0 {
            return None;
        }
        Some(self.0[self.0.len() - 1].1)
    }

    pub fn get_ending_square_or_default_if_empty(&self, default: Square) -> (r: Square)
        ensures
            self.moves().len() == 0 ==> r == default,
            self.moves().len() > 0 ==> r == self.moves().last().1,
    {
        match self.get_ending_square() {
            Some(s) => s,
            None => default,
        }
    }

    pub fn push(&mut self, m: Move)
        ensures
            final(self).moves() == old(self).moves().push(m),
    {
        self.0.push(m);
    }

    /// A copy of the walk with one more move at its end.
    pub fn to_postpended(&self, m: Move) -> (p: Self)
        ensures
            p.moves() == self.moves().push(m),
    {
        let mut q = self.duplicate();
        q.push(m);
        q
    }

    /// A copy of the walk with one more move before its start.
    pub fn to_prepended(&self, m: Move) -> (p: Self)
        ensures
            p.moves() == seq![m] + self.moves(),
    {
        let mut v: Vec<Move> = Vec::new();
        v.push(m);
        let mut i: usize = 0;
        while i < self.0.len()
            invariant
                i <= self.0@.len(),
                v@ == seq![m] + self.0@.take(i as int),
            decreases self.0@.len() - i,
        {
            v.push(self.0[i]);
            proof {
                assert(v@ =~= seq![m] + self.0@.take(i + 1));
            }
            i = i + 1;
        }
        proof {
            assert(self.0@.take(self.0@.len() as int) =~= self.0@);
        }
        Path(v)
    }
}

impl PartialEq for Path {
    fn eq(&self, other: &Self) -> (r: bool) {
        if self.0.len() != other.0.len() {
            return false;
        }
        let mut i: usize = 0;
        while i < self.0.len()
            invariant
                self.0@.len() == other.0@.len(),
                i <= self.0@.len(),
                forall|j: int| 0 <= j < i ==> self.0@[j] == other.0@[j],
            decreases self.0@.len() - i,
        {
            if self.0[i] != other.0[i] {
                return false;
            }
            i = i + 1;
        }
        proof {
            assert(self.0@ =~= other.0@);
        }
        true
    }
}

impl Eq for Path {}

impl vstd::std_specs::cmp::PartialEqSpecImpl for Path {
    open spec fn obeys_eq_spec() -> bool {
        true
    }

    open spec fn eq_spec(&self, other: &Path) -> bool {
        self.0@ == other.0@
    }
}

/// Each move starts where the walk stands: on the starting square first,
/// then on the previous move's destination.
pub open spec fn chained_from(start: Square, ms: Seq<Move>) -> bool
    decreases ms.len(),
{
    ms.len() == 0 || (ms[0].0 == start && chained_from(ms[0].1, ms.subrange(1, ms.len() as int)))
}

/// A chained walk stays chained when extended by a move leaving its end.
pub proof fn lemma_chained_push(start: Square, ms: Seq<Move>, m: Move)
    requires
        chained_from(start, ms),
        m.0 == walk_end(start, ms),
    ensures
        chained_from(start, ms.push(m)),
    decreases ms.len(),
{
    reveal_with_fuel(chained_from, 3);
    if ms.len() == 0 {
        assert(ms.push(m)[0] == m);
        assert(ms.push(m).subrange(1, 1) =~= Seq::<Move>::empty());
    } else {
        let tail = ms.subrange(1, ms.len() as int);
        assert(ms.push(m)[0] == ms[0]);
        assert(ms.push(m).subrange(1, ms.push(m).len() as int) =~= tail.push(m));
        assert(walk_end(ms[0].1, tail) == walk_end(start, ms)) by {
            if tail.len() == 0 {
                assert(walk_end(start, ms) == ms[0].1);
            } else {
                assert(walk_end(start, ms) == tail.last().1);
            }
        }
        lemma_chained_push(ms[0].1, tail, m);
    }
}

/// Where the walk stands after its moves.
pub open spec fn walk_end(start: Square, ms: Seq<Move>) -> Square {
    if ms.len() == 0 {
        start
    } else {
        ms.last().1
    }
}

/// A legal nonempty walk from `start` that finishes on `end`.
pub open spec fn path_reaches(b: Board, start: Square, end: Square, ms: Seq<Move>) -> bool {
    &&& b.spec_moves_ok(ms)
    &&& chained_from(start, ms)
    &&& ms.len() > 0
    &&& ms.last().1 == end
}

/// The tail of a chained walk is chained from the first move's landing
/// square, and finishes where the whole walk does.
proof fn lemma_chained_tail(start: Square, ms: Seq<Move>)
    requires
        ms.len() > 0,
        chained_from(start, ms),
    ensures
        chained_from(ms[0].1, ms.subrange(1, ms.len() as int)),
        walk_end(start, ms) == walk_end(ms[0].1, ms.subrange(1, ms.len() as int)),
{
    let tail = ms.subrange(1, ms.len() as int);
    if tail.len() == 0 {
        assert(walk_end(start, ms) == ms[0].1);
    } else {
        assert(walk_end(start, ms) == tail.last().1);
    }
}

/// A legal chained walk keeps a piece standing on the walk's end square.
#[verifier::rlimit(100)]
#[verifier::spinoff_prover]
pub proof fn lemma_walk_end_occupied(b: Board, start: Square, ms: Seq<Move>)
    requires
        b.wf(),
        b.spec_occupied(start),
        b.spec_moves_ok(ms),
        chained_from(start, ms),
    ensures
        b.spec_apply_moves(ms).wf(),
        b.spec_apply_moves(ms).spec_occupied(walk_end(start, ms)),
    decreases ms.len(),
{
    if ms.len() > 0 {
        let m = ms[0];
        let b2 = b.spec_force_make(m);
        lemma_force_make_props(b, m);
        let tail = ms.subrange(1, ms.len() as int);
        lemma_chained_tail(start, ms);
        lemma_walk_end_occupied(b2, m.1, tail);
        assert(b.spec_apply_moves(ms) == b2.spec_apply_moves(tail));
    }
}

/// Playing a legal move leaves the board sound with the mover standing on
/// the move's destination.
pub proof fn lemma_force_make_props(b: Board, m: Move)
    requires
        b.wf(),
        b.spec_occupied(m.0),
        b.spec_legal_moves(m.0).contains(m),
    ensures
        b.spec_force_make(m).wf(),
        b.spec_force_make(m).spec_occupied(m.1),
{
    reveal(Board::spec_force_make);
    lemma_legal_move_members(b, m.0);
    let side = b.spec_get(m.0)->Some_0.0;
    let piece = b.spec_get(m.0)->Some_0.1;
    crate::board::lemma_transform_props(b, m);
    let t = b.spec_transform(m);
    if piece == Piece::King && m == crate::squares::Castle::Kingside.spec_king_move(side) {
        let rm = crate::squares::Castle::Kingside.spec_rook_move(side);
        assert(!crate::vision::is_king_step(m.0, m.1));
        assert(b.spec_can_castle(side, crate::squares::Castle::Kingside));
        assert(rm.0 != m.0 && rm.0 != m.1 && m.1 != rm.1);
        assert(b.transform_get(m, rm.0) == b.spec_get(rm.0));
        assert(t.spec_get(rm.0) == b.spec_get(rm.0));
        assert(t.spec_occupied(rm.0)) by {
            assert(t.wf_at(rm.0));
        }
        crate::board::lemma_transform_props(t, rm);
        assert(t.transform_get(rm, m.1) == t.spec_get(m.1));
        assert(t.spec_transform(rm).spec_get(m.1) == t.spec_get(m.1));
        assert(b.transform_get(m, m.1) == b.spec_get(m.0));
        assert(b.spec_force_make(m).spec_get(m.1) is Some);
        assert(b.spec_force_make(m).wf_at(m.1));
    } else if piece == Piece::King && m == crate::squares::Castle::Queenside.spec_king_move(
        side,
    ) {
        let rm = crate::squares::Castle::Queenside.spec_rook_move(side);
        assert(!crate::vision::is_king_step(m.0, m.1));
        assert(b.spec_can_castle(side, crate::squares::Castle::Queenside));
        assert(rm.0 != m.0 && rm.0 != m.1 && m.1 != rm.1);
        assert(b.transform_get(m, rm.0) == b.spec_get(rm.0));
        assert(t.spec_get(rm.0) == b.spec_get(rm.0));
        assert(t.spec_occupied(rm.0)) by {
            assert(t.wf_at(rm.0));
        }
        crate::board::lemma_transform_props(t, rm);
        assert(t.transform_get(rm, m.1) == t.spec_get(m.1));
        assert(t.spec_transform(rm).spec_get(m.1) == t.spec_get(m.1));
        assert(b.transform_get(m, m.1) == b.spec_get(m.0));
        assert(b.spec_force_make(m).spec_get(m.1) is Some);
        assert(b.spec_force_make(m).wf_at(m.1));
    } else {
        assert(b.transform_get(m, m.1) == b.spec_get(m.0));
        assert(b.spec_force_make(m).spec_get(m.1) is Some);
        assert(b.spec_force_make(m).wf_at(m.1));
    }
}

/// Extending a legal walk by one legal move keeps it legal.
#[verifier::rlimit(60)]
pub proof fn lemma_moves_ok_push(b: Board, ms: Seq<Move>, m: Move)
    requires
        b.spec_moves_ok(ms),
        b.spec_apply_moves(ms).spec_occupied(m.0),
        b.spec_apply_moves(ms).spec_legal_moves(m.0).contains(m),
    ensures
        b.spec_moves_ok(ms.push(m)),
        b.spec_apply_moves(ms.push(m)) == b.spec_apply_moves(ms).spec_force_make(m),
    decreases ms.len(),
{
    reveal_with_fuel(Board::spec_apply_moves, 3);
    reveal_with_fuel(Board::spec_moves_ok, 3);
    if ms.len() == 0 {
        assert(ms.push(m)[0] == m);
        assert(ms.push(m).subrange(1, 1) =~= Seq::<Move>::empty());
        assert(b.spec_apply_moves(ms) == b);
        assert(b.spec_force_make(m).spec_moves_ok(Seq::<Move>::empty()));
        assert(b.spec_moves_ok(ms.push(m)));
        assert(b.spec_apply_moves(ms.push(m)) == b.spec_force_make(m));
    } else {
        let b2 = b.spec_force_make(ms[0]);
        let tail = ms.subrange(1, ms.len() as int);
        assert(ms.push(m)[0] == ms[0]);
        assert(ms.push(m).subrange(1, ms.push(m).len() as int) =~= tail.push(m));
        assert(b.spec_apply_moves(ms) == b2.spec_apply_moves(tail));
        lemma_moves_ok_push(b2, tail, m);
        assert(b.spec_moves_ok(ms.push(m)));
        assert(b.spec_apply_moves(ms.push(m)) == b2.spec_apply_moves(tail.push(m)));
    }
}

/// Each move of a legal walk is legal in the position its prefix leads to.
pub proof fn lemma_moves_ok_at(b: Board, ms: Seq<Move>, k: int)
    requires
        b.spec_moves_ok(ms),
        0 <= k < ms.len(),
    ensures
        b.spec_apply_moves(ms.take(k)).spec_occupied(ms[k].0),
        b.spec_apply_moves(ms.take(k)).spec_legal_moves(ms[k].0).contains(ms[k]),
    decreases k,
{
    if k == 0 {
        assert(ms.take(0) =~= Seq::<Move>::empty());
    } else {
        let b2 = b.spec_force_make(ms[0]);
        let tail = ms.subrange(1, ms.len() as int);
        lemma_moves_ok_at(b2, tail, k - 1);
        assert(tail[k - 1] == ms[k]);
        assert(tail.take(k - 1) =~= ms.take(k).subrange(1, k));
        assert(ms.take(k)[0] == ms[0]);
        assert(b.spec_apply_moves(ms.take(k)) == b2.spec_apply_moves(ms.take(k).subrange(1, k)));
    }
}

/// Each move of a chained walk leaves from where its prefix ends.
pub proof fn lemma_chained_at(start: Square, ms: Seq<Move>, k: int)
    requires
        chained_from(start, ms),
        0 <= k < ms.len(),
    ensures
        ms[k].0 == walk_end(start, ms.take(k)),
    decreases k,
{
    if k == 0 {
        assert(ms.take(0) =~= Seq::<Move>::empty());
    } else {
        let tail = ms.subrange(1, ms.len() as int);
        lemma_chained_at(ms[0].1, tail, k - 1);
        assert(tail[k - 1] == ms[k]);
        assert(tail.take(k - 1) =~= ms.take(k).subrange(1, k));
        assert(walk_end(ms[0].1, tail.take(k - 1)) == walk_end(start, ms.take(k))) by {
            if k == 1 {
                assert(tail.take(0) =~= Seq::<Move>::empty());
                assert(ms.take(1).last() == ms[0]);
            } else {
                assert(ms.take(k).last() == ms[k - 1]);
                assert(tail.take(k - 1).last() == ms[k - 1]);
            }
        }
    }
}

/// What the search invariants add up to: no recorded walk is longer than
/// any legal walk from the start that finishes on the target.
proof fn lemma_minimal_results(c: ShortestPathCalculator)
    requires
        c.lengths_ok(),
        c.results_le_at(c.head as int),
        c.covered_at(c.head as int),
    ensures
        forall|k: int, p: Seq<Move>|
            #![trigger c.results@[k], path_reaches(c.board, c.starting_position, c.ending_position, p)]
            0 <= k < c.results@.len() && path_reaches(
                c.board,
                c.starting_position,
                c.ending_position,
                p,
            ) ==> c.results@[k].moves().len() <= p.len(),
{
    assert forall|k: int, p: Seq<Move>|
        0 <= k < c.results@.len() && path_reaches(
            c.board,
            c.starting_position,
            c.ending_position,
            p,
        ) implies c.results@[k].moves().len() <= p.len() by {
        if ShortestPathCalculator::in_results(c.results@, p) {
            let j = choose|j: int|
                0 <= j < c.results@.len() && (#[trigger] c.results@[j]).moves() == p;
            assert(c.results@[k].moves().len() == c.shortest_so_far);
            assert(c.results@[j].moves().len() == c.shortest_so_far);
        } else {
            assert(ShortestPathCalculator::has_prefix_from(c.candidates@, c.head as int, p));
            let w = choose|w: int|
                c.head <= w < c.candidates@.len() && (
                #[trigger] c.candidates@[w]).moves().len() < p.len() && c.candidates@[w].moves()
                    == p.take(c.candidates@[w].moves().len() as int);
            assert(c.results@[k].moves().len() <= c.candidates@[w].moves().len() + 1);
        }
    }
}

/// A walk already recorded stays recorded when another result is added.
proof fn lemma_in_results_push(rs: Seq<Path>, x: Path, p: Seq<Move>)
    ensures
        ShortestPathCalculator::in_results(rs, p) ==> ShortestPathCalculator::in_results(
            rs.push(x),
            p,
        ),
{
    if ShortestPathCalculator::in_results(rs, p) {
        let k = choose|k: int| 0 <= k < rs.len() && (#[trigger] rs[k]).moves() == p;
        assert(rs.push(x)[k] == rs[k]);
    }
}

/// A waiting prefix keeps waiting when another walk is enqueued.
proof fn lemma_prefix_from_push(cs: Seq<Path>, x: Path, h: int, p: Seq<Move>)
    requires
        0 <= h,
    ensures
        ShortestPathCalculator::has_prefix_from(cs, h, p)
            ==> ShortestPathCalculator::has_prefix_from(cs.push(x), h, p),
{
    if ShortestPathCalculator::has_prefix_from(cs, h, p) {
        let w = choose|w: int|
            h <= w < cs.len() && (#[trigger] cs[w]).moves().len() < p.len() && cs[w].moves()
                == p.take(cs[w].moves().len() as int);
        assert(cs.push(x)[w] == cs[w]);
    }
}

/// The breadth-first search over one piece's move graph: a queue of walks
/// grown move by move, and the walks found to finish on the target square.
#[derive(Debug)]
pub struct ShortestPathCalculator {
    pub board: Board,
    pub starting_position: Square,
    pub ending_position: Square,
    pub candidates: Vec<Path>,
    pub head: usize,
    pub results: Vec<Path>,
    pub shortest_so_far: usize,
}

impl ShortestPathCalculator {
    pub fn new(board: Board, starting_position: Square, ending_position: Square) -> (c: Self)
        requires
            board.wf(),
            board.spec_occupied(starting_position),
        ensures
            c.board == board,
            c.starting_position == starting_position,
            c.ending_position == ending_position,
            c.candidates@.len() == 1,
            c.candidates@[0].moves() == Seq::<Move>::empty(),
            c.head == 0,
            c.results@.len() == 0,
            c.shortest_so_far == 99,
    {
        let mut candidates: Vec<Path> = Vec::new();
        candidates.push(Path::empty());
        Self {
            board,
            starting_position,
            ending_position,
            candidates,
            head: 0,
            results: Vec::new(),
            shortest_so_far: 99,
        }
    }

    /// The queue of walks still to be expanded: every entry from the head
    /// onward is a legal chained walk from the starting square.
    pub open spec fn queue_ok(self) -> bool {
        &&& self.head <= self.candidates@.len()
        &&& forall|i: int|
            self.head <= i < self.candidates@.len() ==> self.board.spec_moves_ok(
                (#[trigger] self.candidates@[i]).moves(),
            ) && chained_from(self.starting_position, self.candidates@[i].moves())
    }

    /// Every recorded result is a legal walk from start that finishes on
    /// the target, and no two results are the same walk.
    pub open spec fn results_ok(self) -> bool {
        &&& forall|i: int|
            0 <= i < self.results@.len() ==> path_reaches(
                self.board,
                self.starting_position,
                self.ending_position,
                (#[trigger] self.results@[i]).moves(),
            )
        &&& forall|i: int, j: int|
            0 <= i < j < self.results@.len() ==> (#[trigger] self.results@[i]).moves() != (
            #[trigger] self.results@[j]).moves()
    }

    /// The queue never shrinks in walk length: enqueue order is breadth
    /// first.
    pub open spec fn sorted_up(self) -> bool {
        forall|i: int, j: int|
            0 <= i < j < self.candidates@.len() ==> (#[trigger] self.candidates@[i]).moves().len()
                <= (#[trigger] self.candidates@[j]).moves().len()
    }

    /// The waiting walks span at most two consecutive lengths.
    pub open spec fn frontier_pairwise(self) -> bool {
        forall|i: int, j: int|
            self.head <= i < self.candidates@.len() && self.head <= j < self.candidates@.len()
                ==> (#[trigger] self.candidates@[j]).moves().len() <= (
            #[trigger] self.candidates@[i]).moves().len() + 1
    }

    /// The walk is already among the results.
    pub open spec fn in_results(rs: Seq<Path>, p: Seq<Move>) -> bool {
        exists|k: int| 0 <= k < rs.len() && (#[trigger] rs[k]).moves() == p
    }

    /// Some queue entry at position `h` or later is a strict prefix of the
    /// walk.
    pub open spec fn has_prefix_from(cs: Seq<Path>, h: int, p: Seq<Move>) -> bool {
        exists|w: int|
            h <= w < cs.len() && (#[trigger] cs[w]).moves().len() < p.len() && cs[w].moves()
                == p.take(cs[w].moves().len() as int)
    }

    /// Nothing is lost: every legal walk to the target that is not yet a
    /// result still has a strict prefix waiting in the queue.
    pub open spec fn covered_at(self, h: int) -> bool {
        forall|p: Seq<Move>|
            #![trigger path_reaches(self.board, self.starting_position, self.ending_position, p)]
            path_reaches(self.board, self.starting_position, self.ending_position, p)
                && !Self::in_results(self.results@, p) ==> Self::has_prefix_from(
                self.candidates@,
                h,
                p,
            )
    }

    /// Every enqueued walk that finishes on the target was recorded.
    pub open spec fn recorded(self) -> bool {
        forall|i: int|
            0 <= i < self.candidates@.len() && (#[trigger] self.candidates@[i]).moves().len() > 0
                && self.candidates@[i].moves().last().1 == self.ending_position
                ==> Self::in_results(self.results@, self.candidates@[i].moves())
    }

    /// No result is longer than one move past any walk waiting at `h` or
    /// later.
    pub open spec fn results_le_at(self, h: int) -> bool {
        forall|k: int, i: int|
            0 <= k < self.results@.len() && h <= i < self.candidates@.len() ==> (
            #[trigger] self.results@[k]).moves().len() <= (
            #[trigger] self.candidates@[i]).moves().len() + 1
    }

    /// The running bound stands at its starting value of 99 until the
    /// first find, and every result has exactly the bound's length.
    pub open spec fn lengths_ok(self) -> bool {
        &&& self.shortest_so_far <= 99
        &&& (self.results@.len() == 0 ==> self.shortest_so_far == 99)
        &&& (forall|k: int|
            0 <= k < self.results@.len() ==> (#[trigger] self.results@[k]).moves().len()
                == self.shortest_so_far)
    }

    /// How many walks from position `from` onward have at most `bound` moves.
    pub open spec fn count_at_most(cs: Seq<Path>, from: int, bound: int) -> int
        decreases cs.len() - from,
    {
        if from < 0 || from >= cs.len() {
            0
        } else {
            (if cs[from].moves().len() <= bound {
                1int
            } else {
                0int
            }) + Self::count_at_most(cs, from + 1, bound)
        }
    }

    /// The count is never negative.
    pub proof fn lemma_count_nonneg(cs: Seq<Path>, from: int, bound: int)
        ensures
            Self::count_at_most(cs, from, bound) >= 0,
        decreases cs.len() - from,
    {
        if 0 <= from < cs.len() {
            Self::lemma_count_nonneg(cs, from + 1, bound);
        }
    }

    /// Extending the list only with walks longer than the bound, and
    /// leaving the counted range unchanged, leaves the count unchanged.
    pub proof fn lemma_count_same(cs: Seq<Path>, cs2: Seq<Path>, from: int, bound: int)
        requires
            0 <= from,
            cs.len() <= cs2.len(),
            forall|i: int| from <= i < cs.len() ==> cs2[i] == cs[i],
            forall|i: int|
                cs.len() <= i < cs2.len() ==> (#[trigger] cs2[i]).moves().len() > bound,
        ensures
            Self::count_at_most(cs2, from, bound) == Self::count_at_most(cs, from, bound),
        decreases cs2.len() - from,
    {
        if from < cs2.len() {
            Self::lemma_count_same(cs, cs2, from + 1, bound);
        }
    }

    /// How far below the search's length bound the next walk to expand is.
    pub open spec fn depth_measure(self) -> int {
        if self.head < self.candidates@.len() {
            99 - self.candidates@[self.head as int].moves().len()
        } else {
            0
        }
    }

    /// How many walks of the current length still wait to be expanded.
    pub open spec fn level_measure(self) -> int {
        if self.head < self.candidates@.len() {
            Self::count_at_most(
                self.candidates@,
                self.head as int,
                self.candidates@[self.head as int].moves().len() as int,
            )
        } else {
            0
        }
    }

    /// When the next walk to expand has reached the running bound, every
    /// legal walk to the target below the search's length bound that is
    /// shortest among all such walks has already been recorded.
    proof fn lemma_complete_at_cut(c: ShortestPathCalculator)
        requires
            c.head < c.candidates@.len(),
            c.candidates@[c.head as int].moves().len() >= c.shortest_so_far,
            c.covered_at(c.head as int),
            c.lengths_ok(),
            c.results_ok(),
            c.sorted_up(),
        ensures
            forall|q: Seq<Move>|
                #![trigger path_reaches(c.board, c.starting_position, c.ending_position, q)]
                path_reaches(c.board, c.starting_position, c.ending_position, q) && q.len() < 99
                    && (forall|q2: Seq<Move>|
                    path_reaches(c.board, c.starting_position, c.ending_position, q2) ==> q.len()
                        <= q2.len()) ==> ShortestPathCalculator::in_results(c.results@, q),
    {
        assert forall|q: Seq<Move>|
            path_reaches(c.board, c.starting_position, c.ending_position, q) && q.len() < 99 && (
            forall|q2: Seq<Move>|
                path_reaches(c.board, c.starting_position, c.ending_position, q2) ==> q.len()
                    <= q2.len()) implies ShortestPathCalculator::in_results(c.results@, q) by {
            if !ShortestPathCalculator::in_results(c.results@, q) {
                assert(ShortestPathCalculator::has_prefix_from(c.candidates@, c.head as int, q));
                let w = choose|w: int|
                    c.head <= w < c.candidates@.len() && (
                    #[trigger] c.candidates@[w]).moves().len() < q.len() && c.candidates@[w].moves()
                        == q.take(c.candidates@[w].moves().len() as int);
                assert(c.candidates@[w].moves().len() >= c.candidates@[
                    c.head as int
                ].moves().len());
                assert(q.len() >= c.shortest_so_far + 1);
                if c.results@.len() == 0 {
                    assert(c.shortest_so_far == 99);
                    assert(false);
                } else {
                    let r0 = c.results@[0].moves();
                    assert(path_reaches(c.board, c.starting_position, c.ending_position, r0));
                    assert(r0.len() == c.shortest_so_far);
                    assert(q.len() <= r0.len());
                    assert(false);
                }
            }
        }
    }

    /// When the queue has been worked off entirely, every legal walk to
    /// the target has been recorded.
    proof fn lemma_complete_when_done(c: ShortestPathCalculator)
        requires
            c.head >= c.candidates@.len(),
            c.covered_at(c.head as int),
        ensures
            forall|q: Seq<Move>|
                #![trigger path_reaches(c.board, c.starting_position, c.ending_position, q)]
                path_reaches(c.board, c.starting_position, c.ending_position, q)
                    ==> ShortestPathCalculator::in_results(c.results@, q),
    {
        assert forall|q: Seq<Move>|
            path_reaches(c.board, c.starting_position, c.ending_position, q)
                implies ShortestPathCalculator::in_results(c.results@, q) by {
            if !ShortestPathCalculator::in_results(c.results@, q) {
                assert(ShortestPathCalculator::has_prefix_from(c.candidates@, c.head as int, q));
                let w = choose|w: int|
                    c.head <= w < c.candidates@.len() && (
                    #[trigger] c.candidates@[w]).moves().len() < q.len() && c.candidates@[w].moves()
                        == q.take(c.candidates@[w].moves().len() as int);
                assert(false);
            }
        }
    }

    /// Search the move graph outward from the starting square, breadth
    /// first, collecting walks that finish on the ending square. A start
    /// equal to the end yields one empty walk; a bishop asked to reach the
    /// other square shade yields nothing. Otherwise every walk returned is
    /// legal, finishes on the target, is no longer than any legal walk
    /// from the start that finishes there, and every shortest such walk
    /// below the search's length bound of 99 is returned; the returned
    /// list is the recorded results, walk for walk.
    #[verifier::rlimit(100)]
    pub fn calculate(&mut self) -> (r: Vec<Path>)
        requires
            old(self).board.wf(),
            old(self).board.spec_occupied(old(self).starting_position),
            old(self).board.spec_get(old(self).starting_position)->Some_0.1 != Piece::Pawn,
            old(self).candidates@.len() == 1,
            old(self).candidates@[0].moves() == Seq::<Move>::empty(),
            old(self).head == 0,
            old(self).results@.len() == 0,
            old(self).shortest_so_far == 99,
        ensures
            old(self).starting_position == old(self).ending_position && !(old(
                self,
            ).board.spec_get(old(self).starting_position)->Some_0.1 == Piece::Bishop && old(
                self,
            ).starting_position.spec_color() != old(self).ending_position.spec_color())
                ==> r@.len() == 1 && r@[0].moves() == Seq::<Move>::empty(),
            old(self).board.spec_get(old(self).starting_position)->Some_0.1 == Piece::Bishop
                && old(self).starting_position.spec_color() != old(
                self,
            ).ending_position.spec_color() ==> r@.len() == 0,
            forall|i: int|
                0 <= i < r@.len() && (#[trigger] r@[i]).moves().len() > 0 ==> path_reaches(
                    old(self).board,
                    old(self).starting_position,
                    old(self).ending_position,
                    r@[i].moves(),
                ),
            forall|i: int|
                0 <= i < r@.len() && (#[trigger] r@[i]).moves().len() == 0 ==> old(
                    self,
                ).starting_position == old(self).ending_position,
            forall|i: int, j: int|
                0 <= i < j < r@.len() ==> (#[trigger] r@[i]).moves() != (#[trigger] r@[j]).moves(),
            forall|i: int, p: Seq<Move>|
                #![trigger r@[i], path_reaches(old(self).board, old(self).starting_position, old(self).ending_position, p)]
                0 <= i < r@.len() && path_reaches(
                    old(self).board,
                    old(self).starting_position,
                    old(self).ending_position,
                    p,
                ) ==> r@[i].moves().len() <= p.len(),
            old(self).starting_position != old(self).ending_position && !(old(
                self,
            ).board.spec_get(old(self).starting_position)->Some_0.1 == Piece::Bishop && old(
                self,
            ).starting_position.spec_color() != old(self).ending_position.spec_color())
                ==> forall|q: Seq<Move>|
                #![trigger path_reaches(old(self).board, old(self).starting_position, old(self).ending_position, q)]
                path_reaches(old(self).board, old(self).starting_position, old(self).ending_position, q)
                    && q.len() < 99 && (forall|q2: Seq<Move>|
                    path_reaches(
                        old(self).board,
                        old(self).starting_position,
                        old(self).ending_position,
                        q2,
                    ) ==> q.len() <= q2.len()) ==> exists|i: int|
                    0 <= i < r@.len() && (#[trigger] r@[i]).moves() == q,
            r@.len() == final(self).results@.len(),
            forall|i: int|
                0 <= i < r@.len() ==> (#[trigger] r@[i]).moves() == final(self).results@[i].moves(),
    {
        proof {
            assert(self.board.wf_at(self.starting_position));
        }
        let piece = self.board.get(self.starting_position).unwrap().1;

        if piece == Piece::Bishop && !(self.starting_position.get_color()
            == self.ending_position.get_color()) {
            let r: Vec<Path> = Vec::new();
            return r;
        }

        if self.starting_position == self.ending_position {
            let mut r: Vec<Path> = Vec::new();
            r.push(Path::empty());
            self.results = r;
            let mut out: Vec<Path> = Vec::new();
            out.push(Path::empty());
            return out;
        }

        proof {
            assert forall|p: Seq<Move>|
                path_reaches(self.board, self.starting_position, self.ending_position, p)
                    && !Self::in_results(self.results@, p) implies Self::has_prefix_from(
                self.candidates@,
                0,
                p,
            ) by {
                assert(self.candidates@[0].moves().len() == 0);
                assert(self.candidates@[0].moves() =~= p.take(0));
            }
        }
        while self.head < self.candidates.len()
            invariant
                self.board == old(self).board,
                self.starting_position == old(self).starting_position,
                self.ending_position == old(self).ending_position,
                old(self).starting_position != old(self).ending_position,
                old(self).board.wf(),
                old(self).board.spec_occupied(old(self).starting_position),
                !(old(self).board.spec_get(old(self).starting_position)->Some_0.1
                    == Piece::Bishop && old(self).starting_position.spec_color() != old(
                    self,
                ).ending_position.spec_color()),
                self.queue_ok(),
                self.results_ok(),
                self.sorted_up(),
                self.frontier_pairwise(),
                self.covered_at(self.head as int),
                self.recorded(),
                self.results_le_at(self.head as int),
                self.lengths_ok(),
            decreases self.depth_measure(), self.level_measure(),
        {
            proof {
                lemma_minimal_results(*self);
            }
            let next_len = self.candidates[self.head].len();
            if next_len >= self.shortest_so_far {
                proof {
                    Self::lemma_complete_at_cut(*self);
                }
                let out = Self::copy_paths(&self.results);
                proof {
                    assert forall|q: Seq<Move>|
                        path_reaches(
                            old(self).board,
                            old(self).starting_position,
                            old(self).ending_position,
                            q,
                        ) && q.len() < 99 && (forall|q2: Seq<Move>|
                            path_reaches(
                                old(self).board,
                                old(self).starting_position,
                                old(self).ending_position,
                                q2,
                            ) ==> q.len() <= q2.len()) implies exists|i: int|
                        0 <= i < out@.len() && (#[trigger] out@[i]).moves() == q by {
                        assert(Self::in_results(self.results@, q));
                        let kk = choose|kk: int|
                            0 <= kk < self.results@.len() && (#[trigger] self.results@[kk]).moves()
                                == q;
                        assert(out@[kk].moves() == q);
                    }
                }
                return out;
            }

            let ghost pre = *self;
            let next_candidate = self.candidates[self.head].duplicate();
            self.head = self.head + 1;

            let mut resulting_board = self.board.clone();
            let move_vec = Self::moves_of(&next_candidate);
            resulting_board.make_moves(move_vec);
            let ending_square = next_candidate.get_ending_square_or_default_if_empty(
                self.starting_position,
            );
            proof {
                lemma_walk_end_occupied(
                    self.board,
                    self.starting_position,
                    next_candidate.moves(),
                );
            }
            self.check_layer(&next_candidate, &resulting_board, ending_square);
            proof {
                let ghost ll = next_candidate.moves().len() as int;
                Self::lemma_count_nonneg(
                    self.candidates@,
                    self.head as int,
                    self.candidates@[self.head as int].moves().len() as int,
                );
                if self.head < self.candidates@.len() {
                    assert(self.candidates@[self.head - 1].moves().len() == ll);
                    assert(self.candidates@[self.head as int].moves().len() >= ll);
                    assert(self.candidates@[self.head as int].moves().len() <= ll + 1);
                    if self.candidates@[self.head as int].moves().len() == ll {
                        assert(self.depth_measure() == pre.depth_measure());
                        Self::lemma_count_same(pre.candidates@, self.candidates@, pre.head as int, ll);
                        assert(Self::count_at_most(pre.candidates@, pre.head as int, ll) == (
                        if pre.candidates@[pre.head as int].moves().len() <= ll {
                            1int
                        } else {
                            0int
                        }) + Self::count_at_most(pre.candidates@, pre.head + 1, ll));
                        assert(Self::count_at_most(self.candidates@, pre.head as int, ll) == (
                        if self.candidates@[pre.head as int].moves().len() <= ll {
                            1int
                        } else {
                            0int
                        }) + Self::count_at_most(self.candidates@, pre.head + 1, ll));
                        assert(self.level_measure() < pre.level_measure());
                    } else {
                        assert(self.depth_measure() < pre.depth_measure());
                        assert(self.depth_measure() >= 0);
                    }
                } else {
                    assert(self.depth_measure() == 0);
                    assert(pre.depth_measure() >= 1);
                }
            }
        }
        proof {
            lemma_minimal_results(*self);
            Self::lemma_complete_when_done(*self);
        }
        let out = Self::copy_paths(&self.results);
        proof {
            assert forall|q: Seq<Move>|
                path_reaches(
                    old(self).board,
                    old(self).starting_position,
                    old(self).ending_position,
                    q,
                ) implies exists|i: int|
                0 <= i < out@.len() && (#[trigger] out@[i]).moves() == q by {
                assert(Self::in_results(self.results@, q));
                let kk = choose|kk: int|
                    0 <= kk < self.results@.len() && (#[trigger] self.results@[kk]).moves() == q;
                assert(out@[kk].moves() == q);
            }
        }
        out
    }

    /// Expand one dequeued walk: enqueue each one-move extension, and
    /// record those that land on the target square.
    #[verifier::rlimit(100)]
    fn check_layer(&mut self, head_path: &Path, board: &Board, square: Square)
        requires
            old(self).board.wf(),
            old(self).board.spec_occupied(old(self).starting_position),
            old(self).starting_position != old(self).ending_position,
            *board == old(self).board.spec_apply_moves(head_path.moves()),
            board.wf(),
            old(self).board.spec_moves_ok(head_path.moves()),
            chained_from(old(self).starting_position, head_path.moves()),
            square == walk_end(old(self).starting_position, head_path.moves()),
            board.spec_occupied(square),
            old(self).head >= 1,
            old(self).candidates@[old(self).head - 1].moves() == head_path.moves(),
            forall|i: int|
                old(self).head <= i < old(self).candidates@.len() ==> (
                #[trigger] old(self).candidates@[i]).moves().len() <= head_path.moves().len() + 1,
            head_path.moves().len() < old(self).shortest_so_far,
            old(self).queue_ok(),
            old(self).results_ok(),
            old(self).sorted_up(),
            old(self).covered_at(old(self).head - 1),
            old(self).recorded(),
            old(self).results_le_at(old(self).head - 1),
            old(self).lengths_ok(),
        ensures
            final(self).board == old(self).board,
            final(self).starting_position == old(self).starting_position,
            final(self).ending_position == old(self).ending_position,
            final(self).head == old(self).head,
            final(self).queue_ok(),
            final(self).results_ok(),
            final(self).sorted_up(),
            final(self).frontier_pairwise(),
            final(self).covered_at(final(self).head as int),
            final(self).recorded(),
            final(self).results_le_at(final(self).head as int),
            final(self).lengths_ok(),
            final(self).candidates@.len() >= old(self).candidates@.len(),
            forall|i: int|
                0 <= i < old(self).candidates@.len() ==> #[trigger] final(self).candidates@[i]
                    == old(self).candidates@[i],
            forall|i: int|
                old(self).candidates@.len() <= i < final(self).candidates@.len() ==> (
                #[trigger] final(self).candidates@[i]).moves().len() == head_path.moves().len()
                    + 1,
    {
        let new_candidates = board.get_legal_moves(square);
        let ghost b0 = old(self).board;
        let ghost start = old(self).starting_position;
        let ghost target = old(self).ending_position;
        let ghost q = head_path.moves();
        let ghost ll = head_path.moves().len() as int;
        let ghost base_len = old(self).candidates@.len() as int;
        proof {
            if self.results@.len() > 0 {
                assert(self.results@[0].moves().len() <= ll + 1) by {
                    assert(self.candidates@[self.head - 1].moves().len() == ll);
                }
                assert(self.results@[0].moves().len() == self.shortest_so_far);
                assert(self.shortest_so_far == ll + 1);
            }
        }
        let mut k: usize = 0;
        while k < new_candidates.len()
            invariant
                self.board == b0,
                self.starting_position == start,
                self.ending_position == target,
                self.head == old(self).head,
                self.head >= 1,
                start != target,
                b0.wf(),
                b0.spec_occupied(start),
                *board == b0.spec_apply_moves(q),
                board.wf(),
                b0.spec_moves_ok(q),
                chained_from(start, q),
                square == walk_end(start, q),
                head_path.moves() == q,
                q.len() == ll,
                ll < 99,
                new_candidates@ == board.spec_legal_moves(square),
                k <= new_candidates@.len(),
                self.head <= base_len,
                self.candidates@.len() == base_len + k,
                self.candidates@[self.head - 1].moves() == q,
                forall|i: int|
                    0 <= i < base_len ==> #[trigger] self.candidates@[i] == old(
                        self,
                    ).candidates@[i],
                forall|k2: int|
                    0 <= k2 < k ==> (#[trigger] self.candidates@[base_len + k2]).moves()
                        == q.push(new_candidates@[k2]),
                self.queue_ok(),
                self.results_ok(),
                self.sorted_up(),
                forall|i: int|
                    self.head <= i < self.candidates@.len() ==> (
                    #[trigger] self.candidates@[i]).moves().len() <= ll + 1,
                forall|i: int|
                    self.head - 1 <= i < self.candidates@.len() ==> ll <= (
                    #[trigger] self.candidates@[i]).moves().len(),
                self.covered_at(self.head - 1),
                self.recorded(),
                self.shortest_so_far <= 99,
                self.results@.len() == 0 ==> self.shortest_so_far == 99,
                self.results@.len() > 0 ==> self.shortest_so_far == ll + 1,
                forall|k2: int|
                    0 <= k2 < self.results@.len() ==> (#[trigger] self.results@[k2]).moves().len()
                        == ll + 1,
            decreases new_candidates@.len() - k,
        {
            let ghost cand_pre = self.candidates@;
            let candidate = new_candidates[k];
            proof {
                assert(board.spec_legal_moves(square).contains(candidate)) by {
                    assert(board.spec_legal_moves(square)[k as int] == candidate);
                }
                lemma_legal_move_members(*board, square);
                lemma_moves_ok_push(b0, q, candidate);
                lemma_chained_push(start, q, candidate);
            }
            let path = head_path.to_postpended(candidate);
            let ghost results_pre = self.results@;
            if candidate.1 == self.ending_position {
                if !Self::contains_path(&self.results, &path) {
                    let dup = path.duplicate();
                    self.results.push(dup);
                    proof {
                        assert(self.results@.last().moves() == path.moves());
                    }
                }
                proof {
                    assert(Self::in_results(self.results@, path.moves()));
                }
                let new_len = path.len();
                if new_len < self.shortest_so_far {
                    self.shortest_so_far = new_len;
                }
            }
            let ghost results_new = self.results@;
            proof {
                assert(self.candidates@ == cand_pre);
            }
            self.candidates.push(path);
            proof {
                assert(self.candidates@ == cand_pre.push(path));
                assert forall|i: int| 0 <= i < cand_pre.len() implies self.candidates@[i]
                    == cand_pre[i] by {
                    assert(cand_pre.push(path)[i] == cand_pre[i]);
                }
                assert(self.candidates@[base_len + k] == path);
                assert(path.moves() == q.push(new_candidates@[k as int]));
                assert(path.moves().last() == candidate);
                assert forall|k2: int|
                    0 <= k2 < k + 1 implies (#[trigger] self.candidates@[base_len + k2]).moves()
                        == q.push(new_candidates@[k2]) by {
                    if k2 < k {
                        assert(cand_pre.len() == base_len + k);
                        vstd::seq::axiom_seq_push_index_different(cand_pre, path, base_len + k2);
                        assert(self.candidates@[base_len + k2] == cand_pre[base_len + k2]);
                        assert(cand_pre[base_len + k2].moves() == q.push(new_candidates@[k2]));
                    }
                }
                assert forall|p: Seq<Move>|
                    path_reaches(b0, start, target, p) && !Self::in_results(results_new, p)
                        implies Self::has_prefix_from(self.candidates@, self.head - 1, p) by {
                    if results_pre == results_new {
                        assert(!Self::in_results(results_pre, p));
                    } else {
                        assert(results_new == results_pre.push(results_new.last()));
                        lemma_in_results_push(results_pre, results_new.last(), p);
                    }
                    assert(Self::has_prefix_from(cand_pre, self.head - 1, p));
                    lemma_prefix_from_push(cand_pre, path, self.head - 1, p);
                }
                assert forall|i: int|
                    0 <= i < self.candidates@.len() && (
                    #[trigger] self.candidates@[i]).moves().len() > 0
                        && self.candidates@[i].moves().last().1 == target implies Self::in_results(
                    results_new,
                    self.candidates@[i].moves(),
                ) by {
                    if i < cand_pre.len() {
                        assert(self.candidates@[i] == cand_pre[i]);
                        assert(Self::in_results(results_pre, cand_pre[i].moves()));
                        if results_pre != results_new {
                            lemma_in_results_push(
                                results_pre,
                                results_new.last(),
                                cand_pre[i].moves(),
                            );
                        }
                    } else {
                        assert(candidate.1 == target);
                    }
                }
            }
            k = k + 1;
        }
        proof {
            assert forall|i: int|
                base_len <= i < self.candidates@.len() implies (
                #[trigger] self.candidates@[i]).moves().len() == ll + 1 by {
                let k2 = i - base_len;
                assert(self.candidates@[base_len + k2].moves() == q.push(new_candidates@[k2]));
            }
            assert forall|p: Seq<Move>|
                path_reaches(b0, start, target, p) && !Self::in_results(self.results@, p)
                    implies Self::has_prefix_from(
                self.candidates@,
                self.head as int,
                p,
            ) by {
                assert(Self::has_prefix_from(self.candidates@, self.head - 1, p));
                let w = choose|w: int|
                    self.head - 1 <= w < self.candidates@.len() && (
                    #[trigger] self.candidates@[w]).moves().len() < p.len()
                        && self.candidates@[w].moves() == p.take(
                        self.candidates@[w].moves().len() as int,
                    );
                if w >= self.head {
                } else {
                    assert(self.candidates@[w].moves() == q);
                    assert(q == p.take(ll));
                    assert(ll < p.len());
                    lemma_moves_ok_at(b0, p, ll);
                    lemma_chained_at(start, p, ll);
                    let m = p[ll];
                    assert(b0.spec_apply_moves(p.take(ll)) == *board);
                    assert(m.0 == walk_end(start, p.take(ll)));
                    assert(board.spec_legal_moves(m.0).contains(m));
                    let ki = choose|ki: int|
                        0 <= ki < new_candidates@.len() && new_candidates@[ki] == m;
                    let ext = self.candidates@[base_len + ki].moves();
                    assert(ext == q.push(m));
                    assert(ext =~= p.take(ll + 1));
                    if ll + 1 < p.len() {
                        assert(self.candidates@[base_len + ki].moves().len() < p.len()
                            && self.candidates@[base_len + ki].moves() == p.take(
                            self.candidates@[base_len + ki].moves().len() as int,
                        ));
                    } else {
                        assert(p =~= ext);
                        assert(p.last() == m);
                        assert(self.candidates@[base_len + ki].moves().last().1 == target);
                        assert(Self::in_results(self.results@, p));
                        assert(false);
                    }
                }
            }
        }
    }

    fn moves_of(p: &Path) -> (v: Vec<Move>)
        ensures
            v@ == p.moves(),
    {
        let mut v: Vec<Move> = Vec::new();
        let mut i: usize = 0;
        while i < p.0.len()
            invariant
                i <= p.0@.len(),
                v@ == p.0@.take(i as int),
            decreases p.0@.len() - i,
        {
            v.push(p.0[i]);
            proof {
                assert(v@ =~= p.0@.take(i + 1));
            }
            i = i + 1;
        }
        proof {
            assert(p.0@.take(p.0@.len() as int) =~= p.0@);
        }
        v
    }

    fn contains_path(v: &Vec<Path>, p: &Path) -> (r: bool)
        ensures
            r == (exists|i: int| 0 <= i < v@.len() && (#[trigger] v@[i]).moves() == p.moves()),
    {
        let mut i: usize = 0;
        while i < v.len()
            invariant
                i <= v@.len(),
                forall|j: int| 0 <= j < i ==> (#[trigger] v@[j]).moves() != p.moves(),
            decreases v@.len() - i,
        {
            if Self::paths_equal(&v[i], p) {
                return true;
            }
            i = i + 1;
        }
        false
    }

    fn paths_equal(a: &Path, b: &Path) -> (r: bool)
        ensures
            r == (a.moves() == b.moves()),
    {
        if a.0.len() != b.0.len() {
            proof {
                assert(a.moves().len() != b.moves().len());
            }
            return false;
        }
        let mut i: usize = 0;
        while i < a.0.len()
            invariant
                a.0@.len() == b.0@.len(),
                i <= a.0@.len(),
                forall|j: int| 0 <= j < i ==> a.0@[j] == b.0@[j],
            decreases a.0@.len() - i,
        {
            if a.0[i] != b.0[i] {
                return false;
            }
            i = i + 1;
        }
        proof {
            assert(a.0@ =~= b.0@);
        }
        true
    }

    fn copy_paths(v: &Vec<Path>) -> (r: Vec<Path>)
        ensures
            r@.len() == v@.len(),
            forall|i: int| 0 <= i < v@.len() ==> (#[trigger] r@[i]).moves() == v@[i].moves(),
    {
        let mut r: Vec<Path> = Vec::new();
        let mut i: usize = 0;
        while i < v.len()
            invariant
                i <= v@.len(),
                r@.len() == i,
                forall|j: int| 0 <= j < i ==> (#[trigger] r@[j]).moves() == v@[j].moves(),
            decreases v@.len() - i,
        {
            r.push(v[i].duplicate());
            i = i + 1;
        }
        r
    }
}

impl Piece {
    /// The walks this piece, alone on the board, can take from `start` to
    /// finish on `end`, gathered breadth first: each returned walk is
    /// legal, distinct, and no longer than any legal walk between the two
    /// squares, and every shortest such walk below the search's length
    /// bound is returned.
    pub fn get_shortest_paths(&self, start: Square, end: Square) -> (r: Vec<Path>)
        requires
            *self != Piece::Pawn,
        ensures
            start == end && !(*self == Piece::Bishop && start.spec_color() != end.spec_color())
                ==> r@.len() == 1 && r@[0].moves() == Seq::<Move>::empty(),
            *self == Piece::Bishop && start.spec_color() != end.spec_color() ==> r@.len() == 0,
            forall|i: int|
                0 <= i < r@.len() && (#[trigger] r@[i]).moves().len() > 0 ==> path_reaches(
                    Board::singleton_spec(Side::White, *self, start),
                    start,
                    end,
                    r@[i].moves(),
                ),
            forall|i: int|
                0 <= i < r@.len() && (#[trigger] r@[i]).moves().len() == 0 ==> start == end,
            forall|i: int, j: int|
                0 <= i < j < r@.len() ==> (#[trigger] r@[i]).moves() != (#[trigger] r@[j]).moves(),
            forall|i: int, p: Seq<Move>|
                #![trigger r@[i], path_reaches(Board::singleton_spec(Side::White, *self, start), start, end, p)]
                0 <= i < r@.len() && path_reaches(
                    Board::singleton_spec(Side::White, *self, start),
                    start,
                    end,
                    p,
                ) ==> r@[i].moves().len() <= p.len(),
            start != end && !(*self == Piece::Bishop && start.spec_color() != end.spec_color())
                ==> forall|q: Seq<Move>|
                #![trigger path_reaches(Board::singleton_spec(Side::White, *self, start), start, end, q)]
                path_reaches(Board::singleton_spec(Side::White, *self, start), start, end, q)
                    && q.len() < 99 && (forall|q2: Seq<Move>|
                    path_reaches(
                        Board::singleton_spec(Side::White, *self, start),
                        start,
                        end,
                        q2,
                    ) ==> q.len() <= q2.len()) ==> exists|i: int|
                    0 <= i < r@.len() && (#[trigger] r@[i]).moves() == q,
    {
        let board = Board::singleton(Side::White, *self, start);
        proof {
            assert(board.wf_at(start));
        }
        let mut calculator = ShortestPathCalculator::new(board, start, end);
        calculator.calculate()
    }
}

} // verus!
