use vstd::arithmetic::div_mod::lemma_add_mod_noop;
use vstd::arithmetic::div_mod::lemma_mod_add_multiples_vanish;
use vstd::arithmetic::div_mod::lemma_mod_self_0;
use vstd::arithmetic::div_mod::lemma_small_mod;
use vstd::prelude::*;

verus! {

/// Balancing strategy: picks the next item of a pool.
pub trait Strategy {
    type Item;

    /// Get the next item based on a balancing strategy.
    fn next(&mut self) -> Option<&Self::Item>;
}

/// Error returned when a strategy cannot be built.
#[derive(Debug, Clone, Copy, PartialEq, Eq, Structural)]
pub enum StrategyError {
    /// The pool of items is empty.
    EmptyPool,
}

/// Round robin strategy which continuously and sequentially cycles
/// through all items of a non-empty pool without ending.
///
/// The cursor is kept reduced modulo the pool length, so the cycle never
/// skips or repeats an item, however many calls are made.
pub struct RoundRobinStrategy<T> {
    haystack: Vec<T>,
    index: usize,
}

/// Position of the cursor after one pick from a pool of `n` items.
pub open spec fn next_cursor(n: nat, cursor: nat) -> nat {
    if cursor + 1 >= n {
        0
    } else {
        cursor + 1
    }
}

/// Position of the cursor after `k` consecutive picks.
pub open spec fn cursor_after(n: nat, cursor: nat, k: nat) -> nat
    decreases k,
{
    if k == 0 {
        cursor
    } else {
        next_cursor(n, cursor_after(n, cursor, (k - 1) as nat))
    }
}

impl<T> RoundRobinStrategy<T> {
    /// The pool, in the order it was given.
    pub closed spec fn pool(&self) -> Seq<T> {
        self.haystack@
    }

    /// Index in the pool of the item that the next call returns.
    pub closed spec fn cursor(&self) -> nat {
        self.index as nat
    }

    /// The pool is non-empty and the cursor points into it.
    #[verifier::type_invariant]
    spec fn inv(&self) -> bool {
        self.haystack@.len() > 0 && self.index < self.haystack@.len()
    }

    /// Build a strategy over `haystack`; an empty pool is refused.
    pub fn new(haystack: Vec<T>) -> (r: Result<Self, StrategyError>)
        ensures
            haystack@.len() == 0 <==> r is Err,
            r is Err ==> r == Err::<Self, StrategyError>(StrategyError::EmptyPool),
            r matches Ok(s) ==> s.pool() == haystack@ && s.cursor() == 0,
    {
        if haystack.len() == 0 {
            Err(StrategyError::EmptyPool)
        } else {
            Ok(RoundRobinStrategy { haystack, index: 0 })
        }
    }

    /// Number of items in the pool.
    pub fn len(&self) -> (r: usize)
        ensures
            r == self.pool().len(),
            r > 0,
            self.cursor() < r,
    {
        proof {
            use_type_invariant(self);
        }
        self.haystack.len()
    }
}

impl<T> Strategy for RoundRobinStrategy<T> {
    type Item = T;

    fn next(&mut self) -> (r: Option<&T>)
        ensures
            old(self).cursor() < old(self).pool().len(),
            final(self).pool() == old(self).pool(),
            final(self).cursor() == next_cursor(old(self).pool().len(), old(self).cursor()),
            r == Some(&old(self).pool()[old(self).cursor() as int]),
    {
        proof {
            use_type_invariant(&*self);
        }
        let i: usize = self.index;
        if i >= self.haystack.len() - 1 {
            self.index = 0;
        } else {
            self.index = i + 1;
        }
        Some(&self.haystack[i])
    }
}

/// From a cursor inside a pool of `n` items, the cursor after `k` picks is
/// `(cursor + k) mod n`.
pub proof fn lemma_cursor_after(n: nat, cursor: nat, k: nat)
    requires
        0 < n,
        cursor < n,
    ensures
        cursor_after(n, cursor, k) == (cursor + k) as int % (n as int),
    decreases k,
{
    if k == 0 {
        lemma_small_mod(cursor, n);
    } else {
        let k1 = (k - 1) as nat;
        lemma_cursor_after(n, cursor, k1);
        let x = (cursor + k1) as int % (n as int);
        lemma_add_mod_noop((cursor + k1) as int, 1, n as int);
        if n == 1 {
            assert((cursor + k) as int % 1 == 0);
        } else {
            lemma_small_mod(1, n);
            if x + 1 < n {
                lemma_small_mod((x + 1) as nat, n);
            } else {
                lemma_mod_self_0(n as int);
            }
        }
    }
}

/// Round-robin cycle: `n` consecutive picks from a fresh strategy over a
/// pool of `n` items return the pool in the order it was given; from any
/// cursor, `n` consecutive picks visit each position exactly once; and the
/// picks repeat identically every `n` calls. With a single item every pick
/// returns it.
pub proof fn round_robin_cycle<T>(pool: Seq<T>, cursor: nat, k: nat)
    requires
        pool.len() > 0,
        cursor < pool.len(),
    ensures
        Seq::new(pool.len(), |i: int| pool[cursor_after(pool.len(), 0, i as nat) as int]) == pool,
        forall|i: nat, j: nat|
            i < j < pool.len() ==> cursor_after(pool.len(), cursor, i) != cursor_after(
                pool.len(),
                cursor,
                j,
            ),
        cursor_after(pool.len(), cursor, k + pool.len()) == cursor_after(pool.len(), cursor, k),
        pool.len() == 1 ==> cursor_after(pool.len(), cursor, k) == 0,
{
    let n = pool.len();
    assert forall|i: nat| i < n implies cursor_after(n, 0, i) == i by {
        lemma_cursor_after(n, 0, i);
        lemma_small_mod(i, n);
    }
    assert(Seq::new(n, |i: int| pool[cursor_after(n, 0, i as nat) as int]) =~= pool);
    assert forall|i: nat, j: nat| i < j < n implies cursor_after(n, cursor, i) != cursor_after(
        n,
        cursor,
        j,
    ) by {
        lemma_cursor_after(n, cursor, i);
        lemma_cursor_after(n, cursor, j);
        if cursor + i < n {
            lemma_small_mod((cursor + i) as nat, n);
        } else {
            lemma_mod_add_multiples_vanish((cursor + i - n) as int, n as int);
            lemma_small_mod((cursor + i - n) as nat, n);
        }
        if cursor + j < n {
            lemma_small_mod((cursor + j) as nat, n);
        } else {
            lemma_mod_add_multiples_vanish((cursor + j - n) as int, n as int);
            lemma_small_mod((cursor + j - n) as nat, n);
        }
    }
    lemma_cursor_after(n, cursor, k);
    lemma_cursor_after(n, cursor, k + n);
    lemma_mod_add_multiples_vanish((cursor + k) as int, n as int);
    if n == 1 {
        assert((cursor + k) as int % 1 == 0);
    }
}

} // verus!
