//! Names made from a template by textual substitution.

use vstd::prelude::*;
use vstd::string::*;
use crate::decimal::{decimal, to_decimal};
use crate::model::{RangeTag, RangeTagView};

verus! {

/// The placeholder that stands for a member's index within its range.
pub open spec fn index_placeholder() -> Seq<char> {
    seq!['{', 'i', 'n', 'd', 'e', 'x', '}']
}

/// The placeholder that stands for a member's number.
pub open spec fn value_placeholder() -> Seq<char> {
    seq!['{', 'v', 'a', 'l', 'u', 'e', '}']
}

/// `text` with every occurrence of `pattern` replaced by `replacement`.
/// Occurrences are found from the left and do not overlap; what is put in is
/// not searched again. An empty pattern occurs nowhere.
pub open spec fn substituted(text: Seq<char>, pattern: Seq<char>, replacement: Seq<char>) -> Seq<
    char,
>
    decreases text.len(),
{
    if pattern.len() == 0 || text.len() < pattern.len() {
        text
    } else if pattern.is_prefix_of(text) {
        replacement + substituted(text.skip(pattern.len() as int), pattern, replacement)
    } else {
        seq![text[0]] + substituted(text.skip(1), pattern, replacement)
    }
}

/// The name made from `template` for the member at `index` with number
/// `value`: the index placeholder becomes the numeral of `index`, then the
/// value placeholder becomes the numeral of `value`. Anything else in the
/// template stays as it is.
pub open spec fn member_name(template: Seq<char>, index: nat, value: nat) -> Seq<char> {
    substituted(
        substituted(template, index_placeholder(), decimal(index)),
        value_placeholder(),
        decimal(value),
    )
}

/// The template used where a range gives none: the given name, then the index.
pub open spec fn default_template(name: Seq<char>) -> Seq<char> {
    name + index_placeholder()
}

/// The template that the members of `range` are named from.
pub open spec fn template_of(range: RangeTagView) -> Seq<char> {
    match range.name_template {
        Some(template) => template,
        None => default_template(range.name),
    }
}

/// The characters of `text`, in order.
fn characters(text: &str) -> (r: Vec<char>)
    ensures
        r@ == text@,
{
    let mut r: Vec<char> = Vec::new();
    for c in it: text.chars()
        invariant
            it.seq() == text@,
            r@ == it.seq().take(it.index()),
    {
        r.push(c);
    }
    r
}

/// Whether `pattern` stands in `text` at position `at`.
fn occurs_at(text: &Vec<char>, at: usize, pattern: &Vec<char>) -> (r: bool)
    requires
        at + pattern.len() <= text.len(),
    ensures
        r == pattern@.is_prefix_of(text@.skip(at as int)),
{
    let mut k: usize = 0;
    while k < pattern.len()
        invariant
            k <= pattern.len(),
            at + pattern.len() <= text.len(),
            forall|j: int| 0 <= j < k ==> pattern@[j] == text@[at + j],
        decreases pattern.len() - k,
    {
        if pattern[k] != text[at + k] {
            assert(text@.skip(at as int).subrange(0, pattern@.len() as int)[k as int]
                != pattern@[k as int]);
            return false;
        }
        k += 1;
    }
    assert(pattern@ =~= text@.skip(at as int).subrange(0, pattern@.len() as int));
    true
}

/// Replaces every occurrence of `pattern` in `text` by `replacement`.
pub fn substitute(text: &str, pattern: &str, replacement: &str) -> (r: String)
    ensures
        r@ == substituted(text@, pattern@, replacement@),
{
    let chars = characters(text);
    let sought = characters(pattern);
    let n = chars.len();
    let m = sought.len();
    if m == 0 {
        return text.to_owned();
    }
    let ghost whole = substituted(text@, pattern@, replacement@);
    let mut out = String::new();
    // What lies between `kept` and `i` is to be copied as it is.
    let mut kept: usize = 0;
    let mut i: usize = 0;
    assert(text@.skip(0) =~= text@);
    assert(out@ + text@.subrange(0, 0) + whole =~= whole);
    while m <= n - i
        invariant
            kept <= i <= n,
            n == chars.len(),
            m == sought.len(),
            m > 0,
            chars@ == text@,
            sought@ == pattern@,
            whole == substituted(text@, pattern@, replacement@),
            out@ + text@.subrange(kept as int, i as int) + substituted(
                text@.skip(i as int),
                pattern@,
                replacement@,
            ) == whole,
        decreases n - i,
    {
        let ghost before = out@;
        let ghost pending = text@.subrange(kept as int, i as int);
        let ghost rest = text@.skip(i as int);
        if occurs_at(&chars, i, &sought) {
            let ghost tail = substituted(rest.skip(m as int), pattern@, replacement@);
            assert(substituted(rest, pattern@, replacement@) == replacement@ + tail);
            out.append(text.substring_char(kept, i));
            out.append(replacement);
            i += m;
            kept = i;
            assert(text@.skip(i as int) =~= rest.skip(m as int));
            assert(out@ + text@.subrange(kept as int, i as int) + tail =~= before + pending + (
            replacement@ + tail));
        } else {
            let ghost tail = substituted(rest.skip(1), pattern@, replacement@);
            assert(substituted(rest, pattern@, replacement@) == seq![rest[0]] + tail);
            i += 1;
            assert(text@.skip(i as int) =~= rest.skip(1));
            assert(out@ + text@.subrange(kept as int, i as int) + tail =~= before + pending + (
            seq![rest[0]] + tail));
        }
    }
    assert(substituted(text@.skip(i as int), pattern@, replacement@) == text@.skip(i as int));
    assert(out@ + text@.subrange(kept as int, n as int) =~= out@ + text@.subrange(
        kept as int,
        i as int,
    ) + text@.skip(i as int));
    out.append(text.substring_char(kept, n));
    out
}

/// The name of the member of `range` at `index`, whose number is `value`.
pub fn generate_variant_ident(range: &RangeTag, index: usize, value: usize) -> (r: String)
    ensures
        r@ == member_name(template_of(range@), index as nat, value as nat),
{
    proof {
        reveal_strlit("{index}");
        reveal_strlit("{value}");
    }
    assert("{index}"@ =~= index_placeholder());
    assert("{value}"@ =~= value_placeholder());
    let template = match &range.name_template {
        Some(given) => given.clone(),
        None => {
            let mut made = range.name.clone();
            made.append("{index}");
            made
        },
    };
    let index_text = to_decimal(index);
    let value_text = to_decimal(value);
    let with_index = substitute(template.as_str(), "{index}", index_text.as_str());
    substitute(with_index.as_str(), "{value}", value_text.as_str())
}

} // verus!
