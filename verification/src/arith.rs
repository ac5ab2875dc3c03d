use vstd::prelude::*;
use vstd::arithmetic::div_mod::{lemma_fundamental_div_mod, lemma_fundamental_div_mod_converse, lemma_mod_bound};

verus! {

/// Place `r` in line `q` of a table with lines of length `d` has the index `q * d + r`;
/// dividing that index by `d` gives the line and the place back.
pub proof fn lemma_line_of_index(q: int, r: int, d: int)
    requires
        0 <= r < d,
    ensures
        (q * d + r) / d == q,
        (q * d + r) % d == r,
{
    lemma_fundamental_div_mod_converse(q * d + r, d, q, r);
}

/// An index is its line times the line length plus its place in the line.
pub proof fn lemma_index_of_line(x: int, d: int)
    requires
        0 < d,
    ensures
        x == (x / d) * d + x % d,
        0 <= x % d < d,
{
    lemma_fundamental_div_mod(x, d);
    lemma_mod_bound(x, d);
    assert(d * (x / d) == (x / d) * d) by (nonlinear_arith);
}

/// A place inside a table of `n` lines of length `d` has an index below `n * d`.
pub proof fn lemma_index_in_table(q: int, r: int, n: int, d: int)
    requires
        0 <= q < n,
        0 <= r < d,
    ensures
        0 <= q * d + r < n * d,
{
    assert(q * d + r < n * d && 0 <= q * d) by (nonlinear_arith)
        requires
            0 <= q,
            q + 1 <= n,
            0 <= r < d,
    ;
}

/// An index below `n * d` lies in one of the first `n` lines.
pub proof fn lemma_line_in_table(x: int, n: int, d: int)
    requires
        0 < d,
        0 <= x < n * d,
    ensures
        0 <= x / d < n,
{
    lemma_index_of_line(x, d);
    let q = x / d;
    assert(0 <= q < n) by (nonlinear_arith)
        requires
            0 < d,
            0 <= x < n * d,
            x == q * d + x % d,
            0 <= x % d < d,
    ;
}

} // verus!
