//! Depth-limited adversarial search: the Negamax algorithm, exploiting the
//! zero-sum symmetry of two-player games via sign-flipping recursion.

use vstd::prelude::*;

use core::marker::PhantomData;

use crate::{FiniteState, Player, Status};

verus! {

/// The evaluator a search engine uses at a terminal position or at the depth
/// cutoff: it scores a position for the searching player.
pub trait Heuristic<S>: Sized {
    /// The score that `score` returns, as a pure function of the position.
    spec fn spec_score(&self, s: S) -> i8;

    /// Scores stay strictly above `i8::MIN`, so that flipping a score's sign
    /// can never overflow.
    proof fn lemma_score_bound(&self, s: S)
        ensures
            self.spec_score(s) as int > i8::MIN as int,
    ;

    fn score(&self, s: &S) -> (r: i8)
        ensures
            r == self.spec_score(*s),
    ;
}

/// The length of a position's successor enumeration, or zero when there is
/// none; used as a termination measure for the search specifications.
pub open spec fn opts_len<E, S: FiniteState<E>>(node: S) -> nat {
    match node.spec_next_possibilities() {
        Some(succs) => succs.len(),
        None => 0,
    }
}

/// The precondition of a depth-`depth` search from `node`: every position
/// the search can reach has a computable status, and every non-terminal
/// position above the cutoff has a non-empty successor enumeration.
pub open spec fn search_ok<E, S: FiniteState<E>>(node: S, depth: nat) -> bool
    decreases depth,
{
    &&& node.spec_status() is Ok
    &&& (depth > 0 && node.spec_status() != Ok::<Status, E>(Status::Terminal)) ==> {
        &&& node.spec_next_possibilities() matches Some(succs)
        &&& node.spec_next_possibilities().unwrap().len() > 0
        &&& forall|i: int|
            0 <= i < node.spec_next_possibilities().unwrap().len() ==> search_ok::<E, S>(
                #[trigger] node.spec_next_possibilities().unwrap()[i],
                (depth - 1) as nat,
            )
    }
}

/// The score of a depth-limited Negamax search from `node` on behalf of the
/// player whose perspective is `color`: at depth zero or a terminal position
/// the heuristic score times `color`; otherwise the negation of the maximum
/// score of the successors, searched one ply deeper with the perspective
/// flipped.
pub open spec fn spec_negamax<E, S: FiniteState<E>, H: Heuristic<S>>(
    h: H,
    node: S,
    depth: nat,
    color: int,
) -> int
    decreases depth, opts_len::<E, S>(node) + 1,
{
    if depth == 0 || node.spec_status() == Ok::<Status, E>(Status::Terminal) {
        color * h.spec_score(node)
    } else {
        match node.spec_next_possibilities() {
            None => 0,
            Some(children) => if children.len() == 0 {
                0
            } else {
                -1 * spec_best_score::<E, S, H>(
                    h,
                    children,
                    children.len() as int,
                    (depth - 1) as nat,
                    -1 * color,
                )
            },
        }
    }
}

/// The maximum Negamax score among the first `i` of the given positions.
pub open spec fn spec_best_score<E, S: FiniteState<E>, H: Heuristic<S>>(
    h: H,
    children: Seq<S>,
    i: int,
    depth: nat,
    color: int,
) -> int
    decreases depth + 1, i,
{
    if i <= 1 {
        spec_negamax(h, children[0], depth, color)
    } else {
        let prev = spec_best_score(h, children, i - 1, depth, color);
        let cur = spec_negamax(h, children[i - 1], depth, color);
        if cur > prev {
            cur
        } else {
            prev
        }
    }
}

/// The index of the first of the given positions whose depth-`depth` Negamax
/// score, from the opponent's perspective, is maximal.
pub open spec fn best_index<E, S: FiniteState<E>, H: Heuristic<S>>(
    h: H,
    succs: Seq<S>,
    depth: nat,
) -> int
    decreases succs.len(),
{
    if succs.len() <= 1 {
        0
    } else {
        let j = best_index(h, succs.drop_last(), depth);
        if spec_negamax(h, succs.last(), depth, -1) > spec_negamax(h, succs[j], depth, -1) {
            succs.len() - 1
        } else {
            j
        }
    }
}

/// Under the search precondition, every Negamax score lies strictly inside
/// the `i8` range, so negating one cannot overflow.
pub proof fn lemma_negamax_bounds<E, S: FiniteState<E>, H: Heuristic<S>>(
    h: H,
    node: S,
    depth: nat,
    color: int,
)
    requires
        search_ok::<E, S>(node, depth),
        color == 1 || color == -1,
    ensures
        -127 <= spec_negamax(h, node, depth, color) <= 127,
    decreases depth, opts_len::<E, S>(node) + 1,
{
    if depth == 0 || node.spec_status() == Ok::<Status, E>(Status::Terminal) {
        h.lemma_score_bound(node);
    } else {
        let children = node.spec_next_possibilities().unwrap();
        if children.len() > 0 {
            lemma_best_score_bounds::<E, S, H>(
                h,
                children,
                children.len() as int,
                (depth - 1) as nat,
                -1 * color,
            );
        }
    }
}

/// Under the search precondition, the maximum of the first `i` successor
/// scores lies strictly inside the `i8` range.
pub proof fn lemma_best_score_bounds<E, S: FiniteState<E>, H: Heuristic<S>>(
    h: H,
    children: Seq<S>,
    i: int,
    depth: nat,
    color: int,
)
    requires
        1 <= i <= children.len(),
        forall|k: int| 0 <= k < children.len() ==> search_ok::<E, S>(#[trigger] children[k], depth),
        color == 1 || color == -1,
    ensures
        -127 <= spec_best_score(h, children, i, depth, color) <= 127,
    decreases depth + 1, i,
{
    if i <= 1 {
        lemma_negamax_bounds(h, children[0], depth, color);
    } else {
        lemma_best_score_bounds(h, children, i - 1, depth, color);
        lemma_negamax_bounds(h, children[i - 1], depth, color);
    }
}

/// This AI uses the Negamax algorithm to determine its moves. It plays as
/// `piece`, searches `max_depth` plies deep, and scores positions at the
/// cutoff with the heuristic `hue`.
#[derive(Debug)]
pub struct Negamax<P, E, S, F> {
    pub _e: PhantomData<E>,
    pub _d: PhantomData<S>,
    pub piece: P,
    pub max_depth: usize,
    pub hue: F,
}

impl<P, E, S, F> Negamax<P, E, S, F> where S: FiniteState<E>, F: Heuristic<S> {
    /// Provide a max depth and hueristic for Negamax to use when scoring
    /// possible moves.
    pub fn with_hueristic(piece: P, max_depth: usize, f: F) -> (r: Self)
        ensures
            r.piece == piece,
            r.max_depth == max_depth,
            r.hue == f,
    {
        Self { _e: PhantomData, _d: PhantomData, piece, max_depth, hue: f }
    }

    #[verifier::loop_isolation(false)]
    fn negamax(&self, node: &S, depth: usize, color: i8) -> (r: i8)
        requires
            node.wf(),
            search_ok::<E, S>(*node, depth as nat),
            color == 1 || color == -1,
        ensures
            r as int == spec_negamax(self.hue, *node, depth as nat, color as int),
        decreases depth,
    {
        let st = node.status();
        let terminal = match st {
            Ok(Status::Terminal) => true,
            _ => false,
        };
        if depth == 0 || terminal {
            let sc = self.hue.score(node);
            proof {
                self.hue.lemma_score_bound(*node);
            }
            return color * sc;
        }
        let children = match node.next_possibilities() {
            Some(v) => v,
            None => {
                proof {
                    assert(false);
                }
                Vec::new()
            },
        };
        proof {
            node.lemma_possibilities_wf();
        }
        let ghost spec_children = node.spec_next_possibilities().unwrap();
        let mut best = self.negamax(&children[0], depth - 1, -1 * color);
        let mut i: usize = 1;
        while i < children.len()
            invariant
                1 <= i <= children.len(),
                best as int == spec_best_score(
                    self.hue,
                    spec_children,
                    i as int,
                    (depth - 1) as nat,
                    -1 * color as int,
                ),
            decreases children.len() - i,
        {
            let sc = self.negamax(&children[i], depth - 1, -1 * color);
            if sc > best {
                best = sc;
            }
            i = i + 1;
        }
        proof {
            lemma_best_score_bounds::<E, S, F>(
                self.hue,
                spec_children,
                spec_children.len() as int,
                (depth - 1) as nat,
                -1 * color as int,
            );
        }
        -1 * best
    }
}

impl<P, E, S, F> Player<S> for Negamax<P, E, S, F> where S: FiniteState<E>, F: Heuristic<S> {
    /// The engine must never be invoked on a position that is terminal or
    /// otherwise without successors, and the whole search tree must satisfy
    /// the search precondition.
    open spec fn ready(&self, s: &S) -> bool {
        &&& s.wf()
        &&& s.spec_next_possibilities() matches Some(succs)
        &&& s.spec_next_possibilities().unwrap().len() > 0
        &&& forall|i: int|
            0 <= i < s.spec_next_possibilities().unwrap().len() ==> search_ok::<E, S>(
                #[trigger] s.spec_next_possibilities().unwrap()[i],
                self.max_depth as nat,
            )
    }

    /// The chosen move is the first successor, in enumeration order, whose
    /// search score is maximal; the engine itself is left unchanged.
    open spec fn turn(pre: Self, s: S, post: Self, r: S) -> bool {
        &&& post == pre
        &&& r == s.spec_next_possibilities().unwrap()[best_index(
            pre.hue,
            s.spec_next_possibilities().unwrap(),
            pre.max_depth as nat,
        )]
    }

    #[verifier::loop_isolation(false)]
    fn take_turn(&mut self, state: S) -> (r: S) {
        let mut succs = match state.next_possibilities() {
            Some(v) => v,
            None => {
                proof {
                    assert(false);
                }
                Vec::new()
            },
        };
        proof {
            state.lemma_possibilities_wf();
        }
        let ghost spec_succs = state.spec_next_possibilities().unwrap();
        let mut best_i: usize = 0;
        let mut best_sc = self.negamax(&succs[0], self.max_depth, -1);
        let mut i: usize = 1;
        proof {
            assert(spec_succs.take(1int) =~= seq![spec_succs[0]]);
        }
        while i < succs.len()
            invariant
                1 <= i <= succs.len(),
                best_i < i,
                best_i as int == best_index(self.hue, spec_succs.take(i as int), self.max_depth as nat),
                best_sc as int == spec_negamax(
                    self.hue,
                    spec_succs[best_i as int],
                    self.max_depth as nat,
                    -1,
                ),
            decreases succs.len() - i,
        {
            let sc = self.negamax(&succs[i], self.max_depth, -1);
            proof {
                assert(spec_succs.take(i + 1int).drop_last() =~= spec_succs.take(i as int));
                assert(spec_succs.take(i + 1int).last() == spec_succs[i as int]);
            }
            if sc > best_sc {
                best_sc = sc;
                best_i = i;
            }
            i = i + 1;
        }
        proof {
            assert(spec_succs.take(succs@.len() as int) =~= spec_succs);
        }
        succs.remove(best_i)
    }
}

/// Negamax is deterministic: from one engine value and one position, the
/// chosen move and the engine state after the move are uniquely determined.
pub proof fn lemma_negamax_deterministic<P, E, S, F>(
    pre: Negamax<P, E, S, F>,
    s: S,
    post1: Negamax<P, E, S, F>,
    r1: S,
    post2: Negamax<P, E, S, F>,
    r2: S,
) where S: FiniteState<E>, F: Heuristic<S>
    requires
        <Negamax<P, E, S, F> as Player<S>>::turn(pre, s, post1, r1),
        <Negamax<P, E, S, F> as Player<S>>::turn(pre, s, post2, r2),
    ensures
        r1 == r2,
        post1 == post2,
{
}

} // verus!
