//! Arithmetic on tensor shapes.

use vstd::prelude::*;

verus! {

/// The number of elements of a tensor with the given dimensions: their product.
pub open spec fn elem_count(dims: Seq<usize>) -> nat
    decreases dims.len(),
{
    if dims.len() == 0 {
        1
    } else {
        elem_count(dims.drop_last()) * (dims.last() as nat)
    }
}

/// Every dimension is at least one.
pub open spec fn all_positive(dims: Seq<usize>) -> bool {
    forall|i: int| 0 <= i < dims.len() ==> dims[i] >= 1
}

/// A shape that holds at least one element and whose element count fits the
/// machine word. Products over any part of such a shape fit as well.
pub open spec fn sized(dims: Seq<usize>) -> bool {
    all_positive(dims) && elem_count(dims) <= usize::MAX
}

/// Appending a dimension multiplies the element count by it.
pub proof fn lemma_elem_count_push(dims: Seq<usize>, d: usize)
    ensures
        elem_count(dims.push(d)) == elem_count(dims) * (d as nat),
{
    assert(dims.push(d).drop_last() =~= dims);
}

/// Four positive dimensions whose product fits the machine word.
pub open spec fn sized4(a: usize, b: usize, c: usize, d: usize) -> bool {
    a >= 1 && b >= 1 && c >= 1 && d >= 1 && a * b * c * d <= usize::MAX
}

/// Three positive dimensions whose product fits the machine word.
pub open spec fn sized3(a: usize, b: usize, c: usize) -> bool {
    a >= 1 && b >= 1 && c >= 1 && a * b * c <= usize::MAX
}

/// The element count of a shape with four axes is the product of the four.
pub proof fn lemma_elem_count4(a: usize, b: usize, c: usize, d: usize)
    ensures
        elem_count(seq![a, b, c, d]) == a * b * c * d,
        sized(seq![a, b, c, d]) <==> sized4(a, b, c, d),
{
    let s = seq![a, b, c, d];
    let none = Seq::<usize>::empty();
    lemma_elem_count_push(none, a);
    lemma_elem_count_push(none.push(a), b);
    lemma_elem_count_push(none.push(a).push(b), c);
    lemma_elem_count_push(none.push(a).push(b).push(c), d);
    assert(s =~= none.push(a).push(b).push(c).push(d));
    assert(elem_count(none) == 1);
    assert(elem_count(none) * (a as nat) == a) by (nonlinear_arith)
        requires
            elem_count(none) == 1,
    ;
    assert(elem_count(none.push(a).push(b)) == a * b);
    assert(elem_count(none.push(a).push(b).push(c)) == a * b * c);
    assert(elem_count(s) == a * b * c * d);
    if sized4(a, b, c, d) {
        assert forall|i: int| 0 <= i < s.len() implies s[i] >= 1 by {}
    }
    if sized(s) {
        assert(s[0] >= 1 && s[1] >= 1 && s[2] >= 1 && s[3] >= 1);
    }
}

/// The element count of a shape with three axes is the product of the three.
pub proof fn lemma_elem_count3(a: usize, b: usize, c: usize)
    ensures
        elem_count(seq![a, b, c]) == a * b * c,
        sized(seq![a, b, c]) <==> sized3(a, b, c),
{
    let s = seq![a, b, c];
    let none = Seq::<usize>::empty();
    lemma_elem_count_push(none, a);
    lemma_elem_count_push(none.push(a), b);
    lemma_elem_count_push(none.push(a).push(b), c);
    assert(s =~= none.push(a).push(b).push(c));
    assert(elem_count(none) == 1);
    assert(elem_count(none) * (a as nat) == a) by (nonlinear_arith)
        requires
            elem_count(none) == 1,
    ;
    assert(elem_count(none.push(a).push(b)) == a * b);
    assert(elem_count(s) == a * b * c);
    if sized3(a, b, c) {
        assert forall|i: int| 0 <= i < s.len() implies s[i] >= 1 by {}
    }
    if sized(s) {
        assert(s[0] >= 1 && s[1] >= 1 && s[2] >= 1);
    }
}

/// The element count of a shape with five axes is the product of the five.
pub proof fn lemma_elem_count5(a: usize, b: usize, c: usize, d: usize, e: usize)
    ensures
        elem_count(seq![a, b, c, d, e]) == a * b * c * d * e,
        sized(seq![a, b, c, d, e]) <==> (sized4(a, b, c, d) && e >= 1 && a * b * c * d * e
            <= usize::MAX),
{
    let s = seq![a, b, c, d, e];
    lemma_elem_count4(a, b, c, d);
    lemma_elem_count_push(seq![a, b, c, d], e);
    assert(s =~= seq![a, b, c, d].push(e));
    if sized(s) {
        assert(s[0] >= 1 && s[1] >= 1 && s[2] >= 1 && s[3] >= 1 && s[4] >= 1);
        assert(a * b * c * d <= a * b * c * d * e) by (nonlinear_arith)
            requires
                e >= 1,
                a >= 1,
                b >= 1,
                c >= 1,
                d >= 1,
        ;
    }
    if sized4(a, b, c, d) && e >= 1 && a * b * c * d * e <= usize::MAX {
        assert forall|i: int| 0 <= i < s.len() implies s[i] >= 1 by {}
    }
}

/// Making one dimension smaller, but not zero, keeps a shape sized.
pub proof fn lemma_sized4_shrink(a: usize, b: usize, c: usize, d: usize, smaller: usize)
    requires
        sized4(a, b, c, d),
        1 <= smaller <= c,
    ensures
        sized4(a, b, smaller, d),
{
    assert(a * b * smaller * d <= a * b * c * d) by (nonlinear_arith)
        requires
            smaller <= c,
    ;
}

/// Exchanging the two innermost dimensions keeps a shape sized.
pub proof fn lemma_sized4_swap(a: usize, b: usize, c: usize, d: usize)
    requires
        sized4(a, b, c, d),
    ensures
        sized4(a, b, d, c),
{
    assert(a * b * d * c == a * b * c * d) by (nonlinear_arith);
}

/// The product of the four dimensions, or `None` where they are not `sized4`.
pub fn checked_count4(a: usize, b: usize, c: usize, d: usize) -> (count: Option<usize>)
    ensures
        count is Some <==> sized4(a, b, c, d),
        count matches Some(n) ==> n == a * b * c * d,
{
    if a == 0 || b == 0 || c == 0 || d == 0 {
        return None;
    }
    let ab = match a.checked_mul(b) {
        Some(ab) => ab,
        None => {
            assert(a * b <= a * b * c * d) by (nonlinear_arith)
                requires
                    c >= 1,
                    d >= 1,
            ;
            return None;
        },
    };
    let abc = match ab.checked_mul(c) {
        Some(abc) => abc,
        None => {
            assert(a * b * c <= a * b * c * d) by (nonlinear_arith)
                requires
                    d >= 1,
            ;
            return None;
        },
    };
    abc.checked_mul(d)
}

} // verus!
