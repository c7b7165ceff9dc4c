//! The cyclic order of the vertices.

use crate::wrap::{lemma_wrap_unique, modulo, wrap};
use vstd::arithmetic::div_mod::{
    lemma_fundamental_div_mod, lemma_mod_bound, lemma_mod_equivalence,
};
use vstd::prelude::*;

verus! {

/// Fewest vertices that enclose an area.
pub const MIN_VERTICES: i32 = 3;

/// Why a vertex count was turned down.
#[derive(Clone, Copy, Debug, PartialEq, Eq, Structural)]
pub enum RingError {
    /// Fewer than [`MIN_VERTICES`] vertices were asked for.
    TooFewVertices,
    /// The buffer is too short to hold the vertices asked for.
    ExceedsCapacity,
}

/// The vertices whose positions shape the forces on one vertex.
///
/// The nearest vertex on each side pulls on it as a spring; the three on each
/// side together give the direction in which pressure pushes it outwards.
#[derive(Clone, Copy, Debug)]
pub struct Stencil {
    /// The vertices one, two and three places behind, nearest first.
    pub behind: [usize; 3],
    /// The vertices one, two and three places ahead, nearest first.
    pub ahead: [usize; 3],
}

/// A closed chain of vertices, known only by how many there are.
///
/// Vertex `i` is joined to vertices `i - 1` and `i + 1`, counted modulo the
/// length, and the last vertex is joined to the first.
#[derive(Clone, Copy, Debug)]
pub struct Ring {
    count: usize,
}

impl View for Ring {
    type V = nat;

    /// The number of vertices.
    closed spec fn view(&self) -> nat {
        self.count as nat
    }
}

/// Going `a` places round a ring of `n` vertices and then `b` places more
/// ends where going `a + b` places does. With `b == -a` the walk returns to
/// where it began, so two vertices are each other's neighbours in opposite
/// directions.
pub proof fn lemma_neighbor_compose(n: int, i: int, a: int, b: int)
    requires
        n > 0,
    ensures
        wrap(wrap(i + a, n) + b, n) == wrap(i + a + b, n),
{
    let q: int = (i + a) / n;
    lemma_fundamental_div_mod(i + a, n);
    lemma_fundamental_div_mod(i + a + b, n);
    lemma_mod_bound(i + a + b, n);
    let p: int = (i + a + b) / n;
    let r: int = (i + a + b) % n;
    assert(wrap(i + a, n) + b == (p - q) * n + r) by (nonlinear_arith)
        requires
            i + a == n * q + wrap(i + a, n),
            i + a + b == n * p + r,
    ;
    lemma_wrap_unique(wrap(i + a, n) + b, n, p - q, r);
}

/// Two offsets lead from a vertex to the same vertex only if they differ by
/// whole turns of the ring.
pub proof fn lemma_neighbor_distinct(n: int, i: int, a: int, b: int)
    requires
        n > 0,
    ensures
        wrap(i + a, n) == wrap(i + b, n) <==> wrap(a, n) == wrap(b, n),
{
    lemma_mod_equivalence(i + a, i + b, n);
    lemma_mod_equivalence(a, b, n);
    assert((i + a) - (i + b) == a - b);
}

impl Ring {
    #[verifier::type_invariant]
    spec fn well_formed(&self) -> bool {
        MIN_VERTICES <= self.count <= i32::MAX
    }

    /// A ring of the first `count` vertices of a buffer that holds `capacity`.
    ///
    /// A count below [`MIN_VERTICES`] is refused as too few, whatever the
    /// buffer; any other count is refused only if the buffer is shorter.
    pub fn new(count: i32, capacity: usize) -> (r: Result<Ring, RingError>)
        ensures
            match r {
                Ok(ring) => MIN_VERTICES <= count <= capacity && ring@ == count,
                Err(RingError::TooFewVertices) => count < MIN_VERTICES,
                Err(RingError::ExceedsCapacity) => MIN_VERTICES <= count && capacity < count,
            },
    {
        if count < MIN_VERTICES {
            Err(RingError::TooFewVertices)
        } else if count as usize > capacity {
            Err(RingError::ExceedsCapacity)
        } else {
            Ok(Ring { count: count as usize })
        }
    }

    /// The number of vertices.
    pub fn len(&self) -> (n: usize)
        ensures
            n == self@,
            MIN_VERTICES <= n <= i32::MAX,
    {
        proof {
            use_type_invariant(self);
        }
        self.count
    }

    /// The vertex `offset` places ahead of vertex `i`, or behind it where
    /// `offset` is negative. An `i` beyond the ring is itself counted round it.
    pub fn neighbor(&self, i: usize, offset: i32) -> (j: usize)
        ensures
            j == wrap(i + offset, self@ as int),
            j < self@,
    {
        proof {
            use_type_invariant(self);
        }
        let n: usize = self.count;
        let base: usize = i % n;
        let shift: usize = modulo(offset, n as i32);
        let sum: usize = base + shift;
        proof {
            let qi: int = (i as int) / (n as int);
            let qo: int = (offset as int) / (n as int);
            lemma_fundamental_div_mod(i as int, n as int);
            lemma_fundamental_div_mod(offset as int, n as int);
            if sum >= n {
                assert(i + offset == (qi + qo + 1) * n + (sum - n)) by (nonlinear_arith)
                    requires
                        i == n * qi + base,
                        offset == n * qo + shift,
                        sum == base + shift,
                ;
                lemma_wrap_unique(i + offset, n as int, qi + qo + 1, sum - n);
            } else {
                assert(i + offset == (qi + qo) * n + sum) by (nonlinear_arith)
                    requires
                        i == n * qi + base,
                        offset == n * qo + shift,
                        sum == base + shift,
                ;
                lemma_wrap_unique(i + offset, n as int, qi + qo, sum as int);
            }
        }
        if sum >= n {
            sum - n
        } else {
            sum
        }
    }

    /// The neighbours of vertex `i` that the forces on it are computed from.
    ///
    /// The two springs of a vertex end at two different vertices, neither of
    /// them the vertex itself: a ring has at least three vertices.
    pub fn stencil(&self, i: usize) -> (s: Stencil)
        ensures
            forall|k: int|
                0 <= k < 3 ==> #[trigger] s.behind[k] == wrap(i - (k + 1), self@ as int)
                    && s.behind[k] < self@,
            forall|k: int|
                0 <= k < 3 ==> #[trigger] s.ahead[k] == wrap(i + (k + 1), self@ as int)
                    && s.ahead[k] < self@,
            s.behind[0] != s.ahead[0],
            s.behind[0] != wrap(i as int, self@ as int),
            s.ahead[0] != wrap(i as int, self@ as int),
    {
        proof {
            use_type_invariant(self);
            lemma_neighbor_distinct(self@ as int, i as int, -1, 1);
            lemma_neighbor_distinct(self@ as int, i as int, -1, 0);
            lemma_neighbor_distinct(self@ as int, i as int, 1, 0);
            lemma_wrap_unique(-1, self@ as int, -1, self@ - 1);
            lemma_wrap_unique(1, self@ as int, 0, 1);
            lemma_wrap_unique(0, self@ as int, 0, 0);
        }
        Stencil {
            behind: [self.neighbor(i, -1), self.neighbor(i, -2), self.neighbor(i, -3)],
            ahead: [self.neighbor(i, 1), self.neighbor(i, 2), self.neighbor(i, 3)],
        }
    }
}

} // verus!
