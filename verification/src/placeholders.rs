//! The two placeholders of a template are replaced independently of each
//! other: a name does not depend on which of them is replaced first.

use vstd::prelude::*;
use crate::decimal::decimal;
use crate::template::{index_placeholder, member_name, substituted, value_placeholder};

verus! {

/// Whether `c` is a decimal digit.
pub open spec fn is_digit(c: char) -> bool {
    c == '0' || c == '1' || c == '2' || c == '3' || c == '4' || c == '5' || c == '6' || c == '7'
        || c == '8' || c == '9'
}

/// Whether `text` holds digits only.
pub open spec fn all_digits(text: Seq<char>) -> bool {
    forall|k: int| 0 <= k < text.len() ==> is_digit(#[trigger] text[k])
}

/// `text` with the occurrences of two patterns replaced in one pass from the
/// left: those of `first` by `a`, those of `second` by `b`.
pub open spec fn substituted_both(
    text: Seq<char>,
    first: Seq<char>,
    a: Seq<char>,
    second: Seq<char>,
    b: Seq<char>,
) -> Seq<char>
    decreases text.len(),
{
    if text.len() == 0 {
        text
    } else if first.len() > 0 && first.is_prefix_of(text) {
        a + substituted_both(text.skip(first.len() as int), first, a, second, b)
    } else if second.len() > 0 && second.is_prefix_of(text) {
        b + substituted_both(text.skip(second.len() as int), first, a, second, b)
    } else {
        seq![text[0]] + substituted_both(text.skip(1), first, a, second, b)
    }
}

/// What makes two patterns placeholders that cannot be mistaken for each
/// other: they have one length and differ, each opens with a brace and holds
/// no second one, and neither holds a digit.
pub open spec fn distinct_placeholders(p: Seq<char>, q: Seq<char>) -> bool {
    &&& p.len() == q.len()
    &&& p.len() > 0
    &&& p != q
    &&& p[0] == '{'
    &&& q[0] == '{'
    &&& forall|k: int| 1 <= k < p.len() ==> #[trigger] p[k] != '{'
    &&& forall|k: int| 1 <= k < q.len() ==> #[trigger] q[k] != '{'
    &&& forall|k: int| 0 <= k < p.len() ==> !is_digit(#[trigger] p[k])
    &&& forall|k: int| 0 <= k < q.len() ==> !is_digit(#[trigger] q[k])
}

/// A numeral is not empty and holds digits only.
pub proof fn lemma_decimal_digits(n: nat)
    ensures
        decimal(n).len() > 0,
        all_digits(decimal(n)),
    decreases n,
{
    if n >= 10 {
        lemma_decimal_digits(n / 10);
    }
}

/// Digits in front of a text pass a search for a placeholder unchanged.
proof fn lemma_digits_pass(a: Seq<char>, rest: Seq<char>, q: Seq<char>, b: Seq<char>)
    requires
        all_digits(a),
        q.len() > 0,
        q[0] == '{',
    ensures
        substituted(a + rest, q, b) == a + substituted(rest, q, b),
    decreases a.len(),
{
    let text = a + rest;
    if a.len() == 0 {
        assert(text =~= rest);
        assert(a + substituted(rest, q, b) =~= substituted(rest, q, b));
    } else {
        assert(text[0] == a[0]);
        assert(is_digit(a[0]));
        if q.is_prefix_of(text) {
            assert(text.subrange(0, q.len() as int)[0] == q[0]);
        }
        lemma_digits_pass(a.skip(1), rest, q, b);
        assert(text.skip(1) =~= a.skip(1) + rest);
        if text.len() < q.len() {
            assert(substituted(rest, q, b) == rest);
        } else {
            assert(seq![text[0]] + (a.skip(1) + substituted(rest, q, b)) =~= a + substituted(
                rest,
                q,
                b,
            ));
        }
    }
}

/// A placeholder in front of a text passes a search for the other one
/// unchanged.
proof fn lemma_placeholder_passes(
    q: Seq<char>,
    rest: Seq<char>,
    p: Seq<char>,
    a: Seq<char>,
    k: int,
)
    requires
        distinct_placeholders(p, q),
        0 <= k <= q.len(),
    ensures
        substituted(q.skip(k) + rest, p, a) == q.skip(k) + substituted(rest, p, a),
    decreases q.len() - k,
{
    let text = q.skip(k) + rest;
    if k == q.len() {
        assert(text =~= rest);
        assert(q.skip(k) + substituted(rest, p, a) =~= substituted(rest, p, a));
    } else {
        assert(text[0] == q[k]);
        if p.is_prefix_of(text) {
            assert(text.subrange(0, p.len() as int)[0] == p[0]);
            if k == 0 {
                assert(text.subrange(0, p.len() as int) =~= q);
            }
        }
        lemma_placeholder_passes(q, rest, p, a, k + 1);
        assert(text.skip(1) =~= q.skip(k + 1) + rest);
        if text.len() < p.len() {
            assert(substituted(rest, p, a) == rest);
        } else {
            assert(seq![text[0]] + (q.skip(k + 1) + substituted(rest, p, a)) =~= q.skip(k)
                + substituted(rest, p, a));
        }
    }
}

/// Where the result of a replacement by digits begins without a digit, it
/// begins as the text did.
proof fn lemma_copied_start(text: Seq<char>, p: Seq<char>, a: Seq<char>, m: int)
    requires
        p.len() > 0,
        a.len() > 0,
        all_digits(a),
        0 <= m <= substituted(text, p, a).len(),
        forall|k: int| 0 <= k < m ==> !is_digit(#[trigger] substituted(text, p, a)[k]),
    ensures
        m <= text.len(),
        substituted(text, p, a).take(m) == text.take(m),
    decreases text.len(),
{
    let result = substituted(text, p, a);
    if m == 0 {
        assert(result.take(0) =~= text.take(0));
    } else if text.len() < p.len() {
    } else if p.is_prefix_of(text) {
        assert(result[0] == a[0]);
        assert(is_digit(a[0]));
    } else {
        let inner = substituted(text.skip(1), p, a);
        assert(result == seq![text[0]] + inner);
        assert forall|k: int| 0 <= k < m - 1 implies !is_digit(#[trigger] inner[k]) by {
            assert(inner[k] == result[k + 1]);
        }
        lemma_copied_start(text.skip(1), p, a, m - 1);
        assert(result.take(m) =~= seq![text[0]] + inner.take(m - 1));
        assert(text.take(m) =~= seq![text[0]] + text.skip(1).take(m - 1));
    }
}

/// Replacing one placeholder by digits and then the other gives what one pass
/// for both gives.
proof fn lemma_in_turn(text: Seq<char>, p: Seq<char>, a: Seq<char>, q: Seq<char>, b: Seq<char>)
    requires
        distinct_placeholders(p, q),
        a.len() > 0,
        all_digits(a),
    ensures
        substituted(substituted(text, p, a), q, b) == substituted_both(text, p, a, q, b),
    decreases text.len(),
{
    let once = substituted(text, p, a);
    if text.len() == 0 {
    } else if text.len() < p.len() {
        lemma_in_turn(text.skip(1), p, a, q, b);
        assert(seq![text[0]] + text.skip(1) =~= text);
    } else if p.is_prefix_of(text) {
        let rest = text.skip(p.len() as int);
        lemma_in_turn(rest, p, a, q, b);
        lemma_digits_pass(a, substituted(rest, p, a), q, b);
    } else if q.is_prefix_of(text) {
        let rest = text.skip(q.len() as int);
        lemma_in_turn(rest, p, a, q, b);
        assert(q.skip(0) =~= q);
        assert(text =~= q + rest);
        lemma_placeholder_passes(q, rest, p, a, 0);
        let inner = substituted(rest, p, a);
        assert(once == q + inner);
        assert(once.subrange(0, q.len() as int) =~= q);
        assert(once.skip(q.len() as int) =~= inner);
    } else {
        let tail = text.skip(1);
        let inner = substituted(tail, p, a);
        lemma_in_turn(tail, p, a, q, b);
        assert(once == seq![text[0]] + inner);
        if q.is_prefix_of(once) {
            let m = q.len() - 1;
            assert forall|k: int| 0 <= k < m implies !is_digit(#[trigger] inner[k]) by {
                assert(inner[k] == once.subrange(0, q.len() as int)[k + 1]);
                assert(inner[k] == q[k + 1]);
            }
            lemma_copied_start(tail, p, a, m);
            assert(text.subrange(0, q.len() as int) =~= q) by {
                assert forall|k: int| 0 <= k < q.len() implies text[k] == q[k] by {
                    if k == 0 {
                        assert(text[0] == once.subrange(0, q.len() as int)[0]);
                    } else {
                        assert(text[k] == tail.take(m)[k - 1]);
                        assert(inner.take(m)[k - 1] == once.subrange(0, q.len() as int)[k]);
                    }
                }
            }
            assert(false);
        }
        assert(once.skip(1) =~= inner);
        if once.len() < q.len() {
            assert(substituted(inner, q, b) == inner);
        }
    }
}

/// One pass for both placeholders does not depend on which is named first.
proof fn lemma_both_commute(text: Seq<char>, p: Seq<char>, a: Seq<char>, q: Seq<char>, b: Seq<char>)
    requires
        distinct_placeholders(p, q),
    ensures
        substituted_both(text, p, a, q, b) == substituted_both(text, q, b, p, a),
    decreases text.len(),
{
    if text.len() == 0 {
    } else if p.is_prefix_of(text) {
        if q.is_prefix_of(text) {
            assert(p =~= q);
        }
        lemma_both_commute(text.skip(p.len() as int), p, a, q, b);
    } else if q.is_prefix_of(text) {
        lemma_both_commute(text.skip(q.len() as int), p, a, q, b);
    } else {
        lemma_both_commute(text.skip(1), p, a, q, b);
    }
}

/// The index placeholder and the value placeholder cannot be mistaken for
/// each other.
pub proof fn lemma_placeholders_distinct()
    ensures
        distinct_placeholders(index_placeholder(), value_placeholder()),
        distinct_placeholders(value_placeholder(), index_placeholder()),
{
    let p = index_placeholder();
    let q = value_placeholder();
    assert(p[1] != q[1]);
}

/// The placeholders are replaced independently: a name is the same whether
/// the index or the value is put in first, and it is what one pass over the
/// template gives that replaces both.
pub proof fn lemma_placeholders_independent(template: Seq<char>, index: nat, value: nat)
    ensures
        member_name(template, index, value) == substituted(
            substituted(template, value_placeholder(), decimal(value)),
            index_placeholder(),
            decimal(index),
        ),
        member_name(template, index, value) == substituted_both(
            template,
            index_placeholder(),
            decimal(index),
            value_placeholder(),
            decimal(value),
        ),
{
    let p = index_placeholder();
    let q = value_placeholder();
    lemma_placeholders_distinct();
    lemma_decimal_digits(index);
    lemma_decimal_digits(value);
    lemma_in_turn(template, p, decimal(index), q, decimal(value));
    lemma_in_turn(template, q, decimal(value), p, decimal(index));
    lemma_both_commute(template, p, decimal(index), q, decimal(value));
}

} // verus!
