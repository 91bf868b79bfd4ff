//! The lexicographic orders that version precedence is made of.
//!
//! An order is given as a function to integers: below zero where its first argument is the
//! lower, above zero where it is the higher, zero where neither is.
use vstd::prelude::*;

verus! {

/// Lexicographic order of rows of integers; a row is higher than what it starts with.
pub open spec fn compare_keys(a: Seq<int>, b: Seq<int>) -> int
    decreases a.len(),
{
    if a.len() == 0 || b.len() == 0 {
        if a.len() == b.len() {
            0
        } else if a.len() == 0 {
            -1
        } else {
            1
        }
    } else if a[0] != b[0] {
        if a[0] < b[0] {
            -1
        } else {
            1
        }
    } else {
        compare_keys(a.skip(1), b.skip(1))
    }
}

/// Lexicographic order of rows of rows of integers.
pub open spec fn compare_lists(a: Seq<Seq<int>>, b: Seq<Seq<int>>) -> int
    decreases a.len(),
{
    if a.len() == 0 || b.len() == 0 {
        if a.len() == b.len() {
            0
        } else if a.len() == 0 {
            -1
        } else {
            1
        }
    } else if compare_keys(a[0], b[0]) != 0 {
        compare_keys(a[0], b[0])
    } else {
        compare_lists(a.skip(1), b.skip(1))
    }
}

pub proof fn lemma_keys_same(a: Seq<int>, b: Seq<int>)
    ensures
        compare_keys(a, b) == 0 <==> a == b,
    decreases a.len(),
{
    if a.len() > 0 && b.len() > 0 {
        lemma_keys_same(a.skip(1), b.skip(1));
        if compare_keys(a, b) == 0 {
            assert(a =~= seq![a[0]] + a.skip(1));
            assert(b =~= seq![b[0]] + b.skip(1));
        }
    } else if a.len() == b.len() {
        assert(a =~= b);
    }
}

pub proof fn lemma_keys_swap(a: Seq<int>, b: Seq<int>)
    ensures
        compare_keys(a, b) == -compare_keys(b, a),
    decreases a.len(),
{
    if a.len() > 0 && b.len() > 0 {
        lemma_keys_swap(a.skip(1), b.skip(1));
    }
}

pub proof fn lemma_keys_transitive(a: Seq<int>, b: Seq<int>, c: Seq<int>)
    requires
        compare_keys(a, b) <= 0,
        compare_keys(b, c) <= 0,
    ensures
        compare_keys(a, c) <= 0,
        compare_keys(a, c) == 0 ==> compare_keys(a, b) == 0 && compare_keys(b, c) == 0,
    decreases a.len(),
{
    if a.len() > 0 && b.len() > 0 && c.len() > 0 {
        if a[0] == b[0] && b[0] == c[0] {
            lemma_keys_transitive(a.skip(1), b.skip(1), c.skip(1));
        }
    }
}

pub proof fn lemma_lists_same(a: Seq<Seq<int>>, b: Seq<Seq<int>>)
    ensures
        compare_lists(a, b) == 0 <==> a == b,
    decreases a.len(),
{
    if a.len() > 0 && b.len() > 0 {
        lemma_keys_same(a[0], b[0]);
        lemma_lists_same(a.skip(1), b.skip(1));
        if compare_lists(a, b) == 0 {
            assert(a =~= seq![a[0]] + a.skip(1));
            assert(b =~= seq![b[0]] + b.skip(1));
        }
    } else if a.len() == b.len() {
        assert(a =~= b);
    }
}

pub proof fn lemma_lists_swap(a: Seq<Seq<int>>, b: Seq<Seq<int>>)
    ensures
        compare_lists(a, b) == -compare_lists(b, a),
    decreases a.len(),
{
    if a.len() > 0 && b.len() > 0 {
        lemma_keys_swap(a[0], b[0]);
        lemma_lists_swap(a.skip(1), b.skip(1));
    }
}

pub proof fn lemma_lists_transitive(a: Seq<Seq<int>>, b: Seq<Seq<int>>, c: Seq<Seq<int>>)
    requires
        compare_lists(a, b) <= 0,
        compare_lists(b, c) <= 0,
    ensures
        compare_lists(a, c) <= 0,
        compare_lists(a, c) == 0 ==> compare_lists(a, b) == 0 && compare_lists(b, c) == 0,
    decreases a.len(),
{
    if a.len() > 0 && b.len() > 0 && c.len() > 0 {
        lemma_keys_transitive(a[0], b[0], c[0]);
        if compare_keys(a[0], b[0]) == 0 && compare_keys(b[0], c[0]) == 0 {
            lemma_keys_same(a[0], b[0]);
            lemma_keys_same(b[0], c[0]);
            lemma_lists_transitive(a.skip(1), b.skip(1), c.skip(1));
        }
    }
}

/// A list is lower than what continues it.
pub proof fn lemma_lists_longer(a: Seq<Seq<int>>, x: Seq<int>)
    ensures
        compare_lists(a, a.push(x)) < 0,
    decreases a.len(),
{
    if a.len() > 0 {
        let b = a.push(x);
        lemma_keys_same(a[0], b[0]);
        assert(b.skip(1) =~= a.skip(1).push(x));
        lemma_lists_longer(a.skip(1), x);
    }
}

/// Lists that differ in their last row alone are ordered by it.
pub proof fn lemma_lists_last(a: Seq<Seq<int>>, x: Seq<int>, y: Seq<int>)
    requires
        compare_keys(x, y) < 0,
    ensures
        compare_lists(a.push(x), a.push(y)) < 0,
    decreases a.len(),
{
    let (p, q) = (a.push(x), a.push(y));
    if a.len() > 0 {
        lemma_keys_same(p[0], q[0]);
        assert(p.skip(1) =~= a.skip(1).push(x));
        assert(q.skip(1) =~= a.skip(1).push(y));
        lemma_lists_last(a.skip(1), x, y);
    }
}

} // verus!
