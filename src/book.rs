use crate::rng::{entropy_i32_draw, seeded_i32_draw, std_rng_first_i32};
use vstd::prelude::*;

verus! {

/// A node of the book: the move that led to it, how strong or how often played
/// that continuation is, and the continuations after it, in order.
pub struct Node {
    pub mov: String,
    pub score: i32,
    pub children: Vec<Node>,
}

pub struct OpeningBook {
    pub root: Node,
    /// Seed of the weighted draw; without one the draw takes fresh entropy.
    pub seed: Option<u64>,
    /// Picks the best-scored child; otherwise the weighted-random policy.
    pub use_best_move: bool,
}

/// The tokens of `s`, as `str::split_whitespace` separates them.
pub uninterp spec fn whitespace_tokens(s: Seq<char>) -> Seq<Seq<char>>;

/// Relies on `str::split_whitespace`: the tokens depend on the text alone.
#[verifier::external_body]
fn split_tokens(s: &str) -> (r: Vec<String>)
    ensures
        r@.map_values(|t: String| t@) == whitespace_tokens(s@),
{
    s.split_whitespace().map(|t| t.to_string()).collect()
}

pub open spec fn opt_view(r: Option<String>) -> Option<Seq<char>> {
    match r {
        Some(s) => Some(s@),
        None => None,
    }
}

/// The first of `cs` whose move is `mov`.
pub open spec fn child_with_move(cs: Seq<Node>, mov: Seq<char>) -> Option<Node>
    decreases cs.len(),
{
    if cs.len() == 0 {
        None
    } else if cs[0].mov@ == mov {
        Some(cs[0])
    } else {
        child_with_move(cs.drop_first(), mov)
    }
}

/// The node reached from `node` by following the moves `toks` in order.
pub open spec fn follow(node: Node, toks: Seq<Seq<char>>) -> Option<Node>
    decreases toks.len(),
{
    if toks.len() == 0 {
        Some(node)
    } else {
        match child_with_move(node.children@, toks[0]) {
            Some(c) => follow(c, toks.drop_first()),
            None => None,
        }
    }
}

/// Child `k` has a non-negative score, no child scores higher, and every child
/// before it scores lower.
pub open spec fn is_best(cs: Seq<Node>, k: int) -> bool {
    &&& 0 <= k < cs.len()
    &&& cs[k].score >= 0
    &&& forall|j: int| 0 <= j < k ==> #[trigger] cs[j].score < cs[k].score
    &&& forall|j: int| 0 <= j < cs.len() ==> #[trigger] cs[j].score <= cs[k].score
}

/// The deterministic policy's answer: the move of the best child, or none
/// when no child has a non-negative score.
pub open spec fn best_outcome(cs: Seq<Node>, r: Option<Seq<char>>) -> bool {
    match r {
        None => forall|j: int| 0 <= j < cs.len() ==> #[trigger] cs[j].score < 0,
        Some(m) => exists|k: int| is_best(cs, k) && m == cs[k].mov@,
    }
}

/// Sum of the scores of the first `n` children.
pub open spec fn prefix_score(cs: Seq<Node>, n: int) -> int
    decreases n,
{
    if n <= 0 {
        0
    } else {
        prefix_score(cs, n - 1) + cs[n - 1].score
    }
}

/// Remainder of `a` by `m`, rounded as Rust's `%` rounds: it takes the sign of `a`.
pub open spec fn trunc_rem(a: int, m: int) -> int {
    let r: int = (vstd::math::abs(a) % vstd::math::abs(m)) as int;
    if a < 0 {
        -r
    } else {
        r
    }
}

/// Child `k` is the first whose running score sum reaches `target`.
pub open spec fn is_first_reaching(cs: Seq<Node>, target: int, k: int) -> bool {
    &&& 0 <= k < cs.len()
    &&& prefix_score(cs, k + 1) >= target
    &&& forall|j: int| 0 <= j < k ==> #[trigger] prefix_score(cs, j + 1) < target
}

/// The weighted policy's answer for a draw: the target is the draw modulo the
/// node's score plus one, and the answer the first child whose running score
/// sum reaches it. A node of score -1 gives no modulus and no answer.
pub open spec fn weighted_outcome(node: Node, draw: i32, r: Option<Seq<char>>) -> bool {
    let cs = node.children@;
    if node.score == -1 {
        r is None
    } else {
        let target = trunc_rem(draw as int, node.score + 1);
        match r {
            None => forall|j: int| 0 <= j < cs.len() ==> #[trigger] prefix_score(cs, j + 1) < target,
            Some(m) => exists|k: int| is_first_reaching(cs, target, k) && m == cs[k].mov@,
        }
    }
}

/// The deterministic policy over the children of `node`.
pub fn select_best(node: &Node) -> (r: Option<String>)
    ensures
        best_outcome(node.children@, opt_view(r)),
{
    let cs = &node.children;
    let mut best_score: i32 = -1;
    let mut best: Option<usize> = None;
    let mut i: usize = 0;
    while i < cs.len()
        invariant
            i <= cs@.len(),
            match best {
                None => best_score == -1 && forall|j: int| 0 <= j < i ==> #[trigger] cs@[j].score < 0,
                Some(b) => {
                    &&& b < i
                    &&& best_score == cs@[b as int].score
                    &&& is_best(cs@.subrange(0, i as int), b as int)
                },
            },
        decreases cs@.len() - i,
    {
        if cs[i].score > best_score {
            best_score = cs[i].score;
            best = Some(i);
        }
        i = i + 1;
        proof {
            match best {
                Some(b) => {
                    let sub = cs@.subrange(0, i as int);
                    assert forall|j: int| 0 <= j < sub.len() implies #[trigger] sub[j].score
                        <= sub[b as int].score by {
                        if j < i - 1 {
                            assert(cs@.subrange(0, i - 1)[j] == sub[j]);
                        }
                    }
                    assert forall|j: int| 0 <= j < b implies #[trigger] sub[j].score
                        < sub[b as int].score by {
                        if b < i - 1 {
                            assert(cs@.subrange(0, i - 1)[j] == sub[j]);
                        }
                    }
                },
                None => {},
            }
        }
    }
    match best {
        None => None,
        Some(b) => {
            assert(cs@.subrange(0, i as int) =~= cs@);
            let m = cs[b].mov.clone();
            proof {
                assert(is_best(cs@, b as int));
            }
            Some(m)
        },
    }
}

/// The weighted policy over the children of `node`, for a given draw.
pub fn select_weighted(node: &Node, draw: i32) -> (r: Option<String>)
    ensures
        weighted_outcome(*node, draw, opt_view(r)),
{
    if node.score == -1 {
        return None;
    }
    let m: i64 = node.score as i64 + 1;
    let a: i64 = draw as i64;
    let a_abs: i64 = if a < 0 {
        -a
    } else {
        a
    };
    let m_abs: i64 = if m < 0 {
        -m
    } else {
        m
    };
    let rem: i64 = a_abs % m_abs;
    let target: i64 = if a < 0 {
        -rem
    } else {
        rem
    };
    assert(target == trunc_rem(draw as int, node.score + 1));
    let cs = &node.children;
    let mut current: i128 = 0;
    let mut i: usize = 0;
    while i < cs.len()
        invariant
            i <= cs@.len(),
            node.score != -1,
            target == trunc_rem(draw as int, node.score + 1),
            cs == &node.children,
            current == prefix_score(cs@, i as int),
            -(i as int) * 0x8000_0000 <= current <= (i as int) * 0x8000_0000,
            forall|j: int| 0 <= j < i ==> #[trigger] prefix_score(cs@, j + 1) < target,
        decreases cs@.len() - i,
    {
        current = current + cs[i].score as i128;
        if current >= target as i128 {
            let mv = cs[i].mov.clone();
            assert(is_first_reaching(cs@, target as int, i as int) && mv@ == cs@[i as int].mov@);
            return Some(mv);
        }
        i = i + 1;
    }
    None
}

impl OpeningBook {
    /// A book over `root`, with the deterministic policy and no seed.
    pub fn new(root: Node) -> (r: OpeningBook)
        ensures
            r.root == root,
            r.seed is None,
            r.use_best_move,
    {
        OpeningBook { root, seed: None, use_best_move: true }
    }

    /// The answer for a node that `follow` reached, or for no node.
    pub open spec fn answer(&self, reached: Option<Node>, r: Option<Seq<char>>) -> bool {
        match reached {
            None => r is None,
            Some(n) => if n.children@.len() == 0 {
                r is None
            } else if self.use_best_move {
                best_outcome(n.children@, r)
            } else {
                match self.seed {
                    Some(s) => weighted_outcome(n, std_rng_first_i32(s), r),
                    None => exists|d: i32| weighted_outcome(n, d, r),
                }
            },
        }
    }

    /// Recommends a move after the moves `tokens`, played from the root.
    pub fn query_tokens(&self, tokens: &Vec<String>) -> (r: Option<String>)
        ensures
            self.answer(follow(self.root, tokens@.map_values(|t: String| t@)), opt_view(r)),
    {
        let ghost toks = tokens@.map_values(|t: String| t@);
        let mut current_node: &Node = &self.root;
        let mut i: usize = 0;
        assert(toks.subrange(0, toks.len() as int) =~= toks);
        while i < tokens.len()
            invariant
                i <= tokens@.len(),
                toks == tokens@.map_values(|t: String| t@),
                follow(self.root, toks) == follow(*current_node, toks.subrange(i as int, toks.len() as int)),
            decreases tokens@.len() - i,
        {
            let mov = &tokens[i];
            let ghost rest = toks.subrange(i as int, toks.len() as int);
            assert(rest[0] == mov@);
            assert(rest.drop_first() =~= toks.subrange(i + 1, toks.len() as int));
            let children = &current_node.children;
            let mut found: Option<usize> = None;
            let mut k: usize = 0;
            assert(children@.subrange(0, children@.len() as int) =~= children@);
            while k < children.len() && found.is_none()
                invariant
                    k <= children@.len(),
                    found is None ==> child_with_move(children@, mov@) == child_with_move(
                        children@.subrange(k as int, children@.len() as int),
                        mov@,
                    ),
                    found matches Some(f) ==> f < children@.len() && child_with_move(children@, mov@)
                        == Some(children@[f as int]),
                decreases children@.len() - k + (if found is None {
                    1int
                } else {
                    0int
                }),
            {
                let ghost tail = children@.subrange(k as int, children@.len() as int);
                assert(tail.drop_first() =~= children@.subrange(k + 1, children@.len() as int));
                if children[k].mov == *mov {
                    found = Some(k);
                } else {
                    k = k + 1;
                }
            }
            match found {
                Some(k) => {
                    current_node = &children[k];
                },
                None => {
                    assert(children@.subrange(k as int, children@.len() as int) =~= seq![]);
                    return None;
                },
            }
            i = i + 1;
        }
        assert(toks.subrange(i as int, toks.len() as int) =~= seq![]);
        if current_node.children.len() == 0 {
            return None;
        }
        if self.use_best_move {
            select_best(current_node)
        } else {
            match self.seed {
                Some(s) => select_weighted(current_node, seeded_i32_draw(s)),
                None => select_weighted(current_node, entropy_i32_draw()),
            }
        }
    }

    /// Recommends a move after `moves`, a whitespace-separated sequence of move
    /// tokens played from the root.
    pub fn query(&self, moves: &str) -> (r: Option<String>)
        ensures
            self.answer(follow(self.root, whitespace_tokens(moves@)), opt_view(r)),
    {
        let tokens = split_tokens(moves);
        self.query_tokens(&tokens)
    }
}

/// With a fixed seed the weighted policy is deterministic: the same seed and the
/// same node always select the same child.
pub proof fn lemma_seeded_weighted_deterministic(
    node: Node,
    seed: u64,
    r1: Option<Seq<char>>,
    r2: Option<Seq<char>>,
)
    requires
        weighted_outcome(node, std_rng_first_i32(seed), r1),
        weighted_outcome(node, std_rng_first_i32(seed), r2),
    ensures
        r1 == r2,
{
    let cs = node.children@;
    if node.score != -1 {
        let target = trunc_rem(std_rng_first_i32(seed) as int, node.score + 1);
        match (r1, r2) {
            (Some(m1), Some(m2)) => {
                let k1 = choose|k: int| is_first_reaching(cs, target, k) && m1 == cs[k].mov@;
                let k2 = choose|k: int| is_first_reaching(cs, target, k) && m2 == cs[k].mov@;
                if k1 < k2 {
                    assert(prefix_score(cs, k1 + 1) < target);
                } else if k2 < k1 {
                    assert(prefix_score(cs, k2 + 1) < target);
                }
            },
            (Some(m1), None) => {
                let k1 = choose|k: int| is_first_reaching(cs, target, k) && m1 == cs[k].mov@;
                assert(prefix_score(cs, k1 + 1) < target);
            },
            (None, Some(m2)) => {
                let k2 = choose|k: int| is_first_reaching(cs, target, k) && m2 == cs[k].mov@;
                assert(prefix_score(cs, k2 + 1) < target);
            },
            (None, None) => {},
        }
    }
}

} // verus!
