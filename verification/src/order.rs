//! The order of texts.
use crate::text;
use crate::text::chars_of;
use vstd::prelude::*;

verus! {

/// Whether a text comes before another in the order of its characters.
pub open spec fn precedes(a: Seq<char>, b: Seq<char>) -> bool
    decreases a.len(),
{
    if b.len() == 0 {
        false
    } else if a.len() == 0 {
        true
    } else if a[0] != b[0] {
        a[0] < b[0]
    } else {
        precedes(a.skip(1), b.skip(1))
    }
}

/// Of two different texts one comes before the other, and no text before itself.
pub proof fn texts_are_ordered(a: Seq<char>, b: Seq<char>)
    ensures
        a == b ==> !precedes(a, b),
        a != b ==> precedes(a, b) != precedes(b, a),
    decreases a.len(),
{
    if a.len() > 0 && b.len() > 0 && a[0] == b[0] {
        texts_are_ordered(a.skip(1), b.skip(1));
        assert(a =~= seq![a[0]] + a.skip(1));
        assert(b =~= seq![b[0]] + b.skip(1));
    } else if a.len() == 0 && b.len() == 0 {
        assert(a =~= b);
    }
}

/// What comes before a text comes before what follows it.
pub proof fn precedence_carries_over(a: Seq<char>, b: Seq<char>, c: Seq<char>)
    requires
        precedes(a, b),
        precedes(b, c),
    ensures
        precedes(a, c),
    decreases a.len(),
{
    if a.len() > 0 && a[0] == b[0] && b[0] == c[0] {
        precedence_carries_over(a.skip(1), b.skip(1), c.skip(1));
    }
}

/// Whether a text comes before another.
pub fn goes_first(a: &str, b: &str) -> (first: bool)
    ensures
        first == precedes(a@, b@),
{
    let x = chars_of(a);
    let y = chars_of(b);
    let mut i: usize = 0;
    assert(a@.skip(0) =~= a@);
    assert(b@.skip(0) =~= b@);
    while i < x.len() && i < y.len()
        invariant
            x@ == a@,
            y@ == b@,
            i <= x.len(),
            i <= y.len(),
            precedes(a@, b@) == precedes(a@.skip(i as int), b@.skip(i as int)),
        decreases x.len() - i,
    {
        if x[i] != y[i] {
            return x[i] < y[i];
        }
        assert(a@.skip(i as int).skip(1) =~= a@.skip(i + 1));
        assert(b@.skip(i as int).skip(1) =~= b@.skip(i + 1));
        i += 1;
    }
    i < y.len()
}

/// Behind fronts of one length the fronts decide.
pub proof fn fronts_decide(a: Seq<char>, x: Seq<char>, b: Seq<char>, y: Seq<char>)
    requires
        a.len() == b.len(),
        precedes(a, b),
    ensures
        precedes(a + x, b + y),
    decreases a.len(),
{
    if a[0] == b[0] {
        fronts_decide(a.skip(1), x, b.skip(1), y);
        assert((a + x).skip(1) =~= a.skip(1) + x);
        assert((b + y).skip(1) =~= b.skip(1) + y);
    }
}

/// Behind a common front what follows decides.
pub proof fn ends_decide(front: Seq<char>, x: Seq<char>, y: Seq<char>)
    ensures
        precedes(front + x, front + y) == precedes(x, y),
    decreases front.len(),
{
    if front.len() == 0 {
        assert(front + x =~= x);
        assert(front + y =~= y);
    } else {
        ends_decide(front.skip(1), x, y);
        assert((front + x).skip(1) =~= front.skip(1) + x);
        assert((front + y).skip(1) =~= front.skip(1) + y);
    }
}

/// Numerals of one length stand in the order of their numbers.
pub proof fn numerals_are_ordered(a: Seq<char>, b: Seq<char>)
    requires
        a.len() == b.len(),
        text::all_digits(a),
        text::all_digits(b),
    ensures
        text::digits_value(a) == text::digits_value(b) ==> a == b,
        text::digits_value(a) < text::digits_value(b) ==> precedes(a, b),
    decreases a.len(),
{
    if a.len() > 0 {
        let x = a.drop_last();
        let y = b.drop_last();
        let p = seq![a.last()];
        let q = seq![b.last()];
        assert(a =~= x + p);
        assert(b =~= y + q);
        assert(text::is_digit(a.last()) && text::is_digit(b.last()));
        assert forall|i: int| 0 <= i < x.len() implies text::is_digit(#[trigger] x[i]) by {
            assert(text::is_digit(a[i]));
        }
        assert forall|i: int| 0 <= i < y.len() implies text::is_digit(#[trigger] y[i]) by {
            assert(text::is_digit(b[i]));
        }
        numerals_are_ordered(x, y);
        if text::digits_value(x) < text::digits_value(y) {
            fronts_decide(x, p, y, q);
        } else if x == y {
            ends_decide(x, p, q);
        }
    } else {
        assert(a =~= b);
    }
}

/// A text comes before another exactly if it is its front, or has the lower
/// character where they first differ.
pub proof fn the_first_difference_decides(a: Seq<char>, b: Seq<char>, k: int)
    requires
        0 <= k <= a.len(),
        k <= b.len(),
        a.take(k) == b.take(k),
        k < a.len() && k < b.len() ==> a[k] != b[k],
    ensures
        precedes(a, b) <==> k < b.len() && (k == a.len() || a[k] < b[k]),
    decreases k,
{
    if k > 0 {
        assert(a.take(k)[0] == a[0] && b.take(k)[0] == b[0]);
        assert(a.skip(1).take(k - 1) =~= a.take(k).skip(1));
        assert(b.skip(1).take(k - 1) =~= b.take(k).skip(1));
        the_first_difference_decides(a.skip(1), b.skip(1), k - 1);
    }
}

} // verus!
