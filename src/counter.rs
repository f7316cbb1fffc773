//! Caller-owned tallies of hashing work. Each counter wraps around on
//! overflow, as an atomic `fetch_add` does.
use vstd::prelude::*;

verus! {

/// `x` reduced into the range of `usize`, as wrapping addition leaves it.
pub open spec fn wrapped(x: int) -> usize {
    (x % (usize::MAX as int + 1)) as usize
}

/// Adding in two steps with wrap-around equals adding the sum once.
pub proof fn lemma_wrapped_add(a: usize, n: nat, m: nat)
    ensures
        wrapped(wrapped(a + n) + m) == wrapped(a + n + m),
{
    let md = usize::MAX as int + 1;
    vstd::arithmetic::div_mod::lemma_add_mod_noop(a + n, m as int, md);
    vstd::arithmetic::div_mod::lemma_mod_twice(a + n, md);
    vstd::arithmetic::div_mod::lemma_mod_pos_bound(a + n, md);
    vstd::arithmetic::div_mod::lemma_mod_pos_bound(m as int, md);
    vstd::arithmetic::div_mod::lemma_add_mod_noop((a + n) % md, m as int, md);
}

/// `a + n` with wrap-around, for `n` of any size that fits in `usize`.
fn wrapping_sum(a: usize, n: usize) -> (r: usize)
    ensures
        r == wrapped(a + n),
{
    if a <= usize::MAX - n {
        assert(wrapped(a + n) == a + n) by {
            vstd::arithmetic::div_mod::lemma_small_mod((a + n) as nat, (usize::MAX as int + 1) as nat);
        }
        a + n
    } else {
        let r = n - (usize::MAX - a) - 1;
        assert(wrapped(a + n) == r) by {
            let md = usize::MAX as int + 1;
            vstd::arithmetic::div_mod::lemma_mod_sub_multiples_vanish(a + n, md);
            vstd::arithmetic::div_mod::lemma_small_mod((a + n - md) as nat, md as nat);
        }
        r
    }
}

/// Number of hash invocations (leaf hashes and compressions) performed.
#[derive(Debug, Default)]
pub struct HashCounter {
    count: usize,
}

impl HashCounter {
    pub closed spec fn value(&self) -> usize {
        self.count
    }

    pub fn new() -> (r: HashCounter)
        ensures
            r.value() == 0,
    {
        HashCounter { count: 0 }
    }

    /// Records one hash invocation; returns the value held before.
    pub fn add(&mut self) -> (r: usize)
        ensures
            r == old(self).value(),
            final(self).value() == wrapped(old(self).value() + 1),
    {
        let prev = self.count;
        self.count = wrapping_sum(self.count, 1);
        prev
    }

    pub fn reset(&mut self)
        ensures
            final(self).value() == 0,
    {
        self.count = 0;
    }

    pub fn get(&self) -> (r: usize)
        ensures
            r == self.value(),
    {
        self.count
    }
}

/// Number of hash operations spent checking inclusion proofs.
#[derive(Debug, Default)]
pub struct QueryCounter {
    count: usize,
}

impl QueryCounter {
    pub closed spec fn value(&self) -> usize {
        self.count
    }

    pub fn new() -> (r: QueryCounter)
        ensures
            r.value() == 0,
    {
        QueryCounter { count: 0 }
    }

    /// Records `count` operations; returns the value held before.
    pub fn add(&mut self, count: usize) -> (r: usize)
        ensures
            r == old(self).value(),
            final(self).value() == wrapped(old(self).value() + count),
    {
        let prev = self.count;
        self.count = wrapping_sum(self.count, count);
        prev
    }

    pub fn reset(&mut self)
        ensures
            final(self).value() == 0,
    {
        self.count = 0;
    }

    pub fn get(&self) -> (r: usize)
        ensures
            r == self.value(),
    {
        self.count
    }
}

} // verus!
