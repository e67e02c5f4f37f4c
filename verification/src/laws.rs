//! What holds of every expansion.

use vstd::prelude::*;
use crate::expand::{
    check_of, checks, checks_of, expand_one, expand_range, expansion, lemma_step, literal_member,
    range_len,
};
use crate::model::{CheckView, DeclarationView, MemberView, RangeTagView};
use crate::template::{member_name, template_of};

verus! {

/// How many literal members a declaration holds.
pub open spec fn literal_count(declarations: Seq<DeclarationView>) -> nat
    decreases declarations.len(),
{
    if declarations.len() == 0 {
        0
    } else {
        literal_count(declarations.drop_last()) + if declarations.last() is Literal {
            1nat
        } else {
            0nat
        }
    }
}

/// How many members the ranges of a declaration stand for, all together.
pub open spec fn range_total(declarations: Seq<DeclarationView>) -> nat
    decreases declarations.len(),
{
    if declarations.len() == 0 {
        0
    } else {
        range_total(declarations.drop_last()) + match declarations.last() {
            DeclarationView::Literal(_) => 0nat,
            DeclarationView::RangeTag(range) => range_len(range),
        }
    }
}

/// Where, in the expansion, the members that come from position `p` begin:
/// after all that the earlier positions contribute.
pub open spec fn offset(declarations: Seq<DeclarationView>, p: int) -> nat {
    expansion(declarations.take(p)).len()
}

/// Where, among the checks, those that come from position `p` begin.
pub open spec fn check_offset(declarations: Seq<DeclarationView>, represented: bool, p: int) -> nat {
    checks(declarations.take(p), represented).len()
}

/// Whether a member came from a literal of the declaration.
pub open spec fn from_literal(declarations: Seq<DeclarationView>) -> spec_fn(MemberView) -> bool {
    |member: MemberView|
        member.origin < declarations.len() && declarations[member.origin as int] is Literal
}

/// The literal members of a declaration as they stand in it, in order.
pub open spec fn literal_members(declarations: Seq<DeclarationView>) -> Seq<MemberView>
    decreases declarations.len(),
{
    if declarations.len() == 0 {
        Seq::empty()
    } else {
        match declarations.last() {
            DeclarationView::Literal(literal) => literal_members(declarations.drop_last()).push(
                literal_member((declarations.len() - 1) as nat, literal),
            ),
            DeclarationView::RangeTag(_) => literal_members(declarations.drop_last()),
        }
    }
}

/// The expansion holds one member for each literal and, for each range, one
/// member per integer between its bounds.
pub proof fn lemma_expansion_len(declarations: Seq<DeclarationView>)
    ensures
        expansion(declarations).len() == literal_count(declarations) + range_total(declarations),
    decreases declarations.len(),
{
    if declarations.len() > 0 {
        lemma_expansion_len(declarations.drop_last());
    }
}

/// The expansion of the first `i` declarations is the beginning of the
/// expansion of all; so is the sequence of their checks.
pub proof fn lemma_prefix(declarations: Seq<DeclarationView>, represented: bool, i: int)
    requires
        0 <= i <= declarations.len(),
    ensures
        offset(declarations, i) <= expansion(declarations).len(),
        expansion(declarations.take(i)) == expansion(declarations).take(
            offset(declarations, i) as int,
        ),
        check_offset(declarations, represented, i) <= checks(declarations, represented).len(),
        checks(declarations.take(i), represented) == checks(declarations, represented).take(
            check_offset(declarations, represented, i) as int,
        ),
    decreases declarations.len(),
{
    if i == declarations.len() {
        assert(declarations.take(i) =~= declarations);
        assert(expansion(declarations) =~= expansion(declarations).take(
            expansion(declarations).len() as int,
        ));
        assert(checks(declarations, represented) =~= checks(declarations, represented).take(
            checks(declarations, represented).len() as int,
        ));
    } else {
        let shorter = declarations.drop_last();
        lemma_prefix(shorter, represented, i);
        assert(shorter.take(i) =~= declarations.take(i));
        assert(expansion(declarations.take(i)) =~= expansion(declarations).take(
            offset(declarations, i) as int,
        ));
        assert(checks(declarations.take(i), represented) =~= checks(
            declarations,
            represented,
        ).take(check_offset(declarations, represented, i) as int));
    }
}

/// Every position is replaced in place: what position `p` contributes stands
/// in the expansion as one block, right after the contributions of the
/// positions before it and right before those of the positions after it.
pub proof fn lemma_block(declarations: Seq<DeclarationView>, p: int)
    requires
        0 <= p < declarations.len(),
    ensures
        offset(declarations, p + 1) == offset(declarations, p) + expand_one(
            p as nat,
            declarations[p],
        ).len(),
        offset(declarations, p + 1) <= expansion(declarations).len(),
        expansion(declarations).subrange(
            offset(declarations, p) as int,
            offset(declarations, p + 1) as int,
        ) == expand_one(p as nat, declarations[p]),
{
    lemma_step(declarations, false, p);
    lemma_prefix(declarations, false, p);
    lemma_prefix(declarations, false, p + 1);
    let whole = expansion(declarations);
    let from = offset(declarations, p) as int;
    let to = offset(declarations, p + 1) as int;
    let added = expand_one(p as nat, declarations[p]);
    assert(whole.take(to) == whole.take(from) + added);
    assert(whole.subrange(from, to) =~= whole.take(to).subrange(from, to));
    assert((whole.take(from) + added).subrange(from, to) =~= added);
}

/// No member is made up or put elsewhere: each member of the expansion names
/// the position that it came from, and lies in the block of that position.
pub proof fn lemma_origin(declarations: Seq<DeclarationView>, j: int)
    requires
        0 <= j < expansion(declarations).len(),
    ensures
        expansion(declarations)[j].origin < declarations.len(),
        offset(declarations, expansion(declarations)[j].origin as int) <= j < offset(
            declarations,
            expansion(declarations)[j].origin as int + 1,
        ),
    decreases declarations.len(),
{
    let n = declarations.len() as int;
    let shorter = declarations.drop_last();
    assert(declarations.take(n - 1) =~= shorter);
    assert(declarations.take(n) =~= declarations);
    if j < expansion(shorter).len() {
        lemma_origin(shorter, j);
        let origin = expansion(shorter)[j].origin as int;
        assert(shorter.take(origin) =~= declarations.take(origin));
        assert(shorter.take(origin + 1) =~= declarations.take(origin + 1));
    }
}

/// The numbers of the members of a range whose `start` does not lie above its
/// `end` are the integers from `start` to `end`, each once, in ascending
/// order.
pub proof fn lemma_range_discriminants(
    declarations: Seq<DeclarationView>,
    p: int,
    range: RangeTagView,
)
    requires
        0 <= p < declarations.len(),
        declarations[p] == DeclarationView::RangeTag(range),
        range.start <= range.end,
    ensures
        offset(declarations, p + 1) - offset(declarations, p) == range.end - range.start + 1,
        offset(declarations, p + 1) <= expansion(declarations).len(),
        forall|i: int|
            0 <= i <= range.end - range.start ==> (#[trigger] expansion(declarations)[offset(
                declarations,
                p,
            ) + i]).discriminant == Some(range.start + i),
{
    lemma_block(declarations, p);
    let block = expansion(declarations).subrange(
        offset(declarations, p) as int,
        offset(declarations, p + 1) as int,
    );
    assert forall|i: int| 0 <= i <= range.end - range.start implies (#[trigger] expansion(
        declarations,
    )[offset(declarations, p) + i]).discriminant == Some(range.start + i) by {
        assert(block[i] == expand_range(p as nat, range)[i]);
    }
}

/// The member of a range at index `i` is named by the range's template, with
/// the index placeholder replaced by `i` and the value placeholder by
/// `start + i`.
pub proof fn lemma_range_names(declarations: Seq<DeclarationView>, p: int, range: RangeTagView)
    requires
        0 <= p < declarations.len(),
        declarations[p] == DeclarationView::RangeTag(range),
    ensures
        offset(declarations, p) + range_len(range) <= expansion(declarations).len(),
        forall|i: int|
            0 <= i < range_len(range) ==> (#[trigger] expansion(declarations)[offset(
                declarations,
                p,
            ) + i]).name == member_name(template_of(range), i as nat, (range.start + i) as nat),
{
    lemma_block(declarations, p);
    let block = expansion(declarations).subrange(
        offset(declarations, p) as int,
        offset(declarations, p + 1) as int,
    );
    assert forall|i: int| 0 <= i < range_len(range) implies (#[trigger] expansion(
        declarations,
    )[offset(declarations, p) + i]).name == member_name(
        template_of(range),
        i as nat,
        (range.start + i) as nat,
    ) by {
        assert(block[i] == expand_range(p as nat, range)[i]);
    }
}

proof fn lemma_filter_none(members: Seq<MemberView>, keep: spec_fn(MemberView) -> bool)
    requires
        forall|i: int| 0 <= i < members.len() ==> !keep(members[i]),
    ensures
        members.filter(keep) == Seq::<MemberView>::empty(),
    decreases members.len(),
{
    reveal(Seq::filter);
    if members.len() > 0 {
        lemma_filter_none(members.drop_last(), keep);
    }
}

proof fn lemma_filter_one(member: MemberView, keep: spec_fn(MemberView) -> bool)
    requires
        keep(member),
    ensures
        seq![member].filter(keep) == seq![member],
{
    reveal(Seq::filter);
    assert(seq![member].drop_last() =~= Seq::<MemberView>::empty());
    lemma_filter_none(Seq::<MemberView>::empty(), keep);
    assert(seq![member].filter(keep) =~= seq![member]);
}

proof fn lemma_literals_of_prefix(declarations: Seq<DeclarationView>, i: int)
    requires
        0 <= i <= declarations.len(),
    ensures
        expansion(declarations.take(i)).filter(from_literal(declarations)) == literal_members(
            declarations.take(i),
        ),
    decreases i,
{
    let keep = from_literal(declarations);
    if i == 0 {
        assert(declarations.take(0) =~= Seq::<DeclarationView>::empty());
        lemma_filter_none(Seq::<MemberView>::empty(), keep);
    } else {
        lemma_literals_of_prefix(declarations, i - 1);
        lemma_step(declarations, false, i - 1);
        let before = expansion(declarations.take(i - 1));
        let added = expand_one((i - 1) as nat, declarations[i - 1]);
        Seq::filter_distributes_over_add(before, added, keep);
        assert(declarations.take(i).drop_last() =~= declarations.take(i - 1));
        match declarations[i - 1] {
            DeclarationView::Literal(literal) => {
                lemma_filter_one(literal_member((i - 1) as nat, literal), keep);
                assert(before.filter(keep) + seq![literal_member((i - 1) as nat, literal)]
                    =~= before.filter(keep).push(literal_member((i - 1) as nat, literal)));
            },
            DeclarationView::RangeTag(range) => {
                lemma_filter_none(added, keep);
                assert(before.filter(keep) + Seq::<MemberView>::empty() =~= before.filter(keep));
            },
        }
    }
}

/// The order of the literals is kept: with the members that came from ranges
/// taken out, the expansion is the sequence of the declaration's literal
/// members.
pub proof fn lemma_order_preserved(declarations: Seq<DeclarationView>)
    ensures
        expansion(declarations).filter(from_literal(declarations)) == literal_members(
            declarations,
        ),
{
    lemma_literals_of_prefix(declarations, declarations.len() as int);
    assert(declarations.take(declarations.len() as int) =~= declarations);
}

/// A range gives rise to a check exactly where it names one and the
/// enumeration has a representation; the check then bears that name and the
/// range's bounds. Within the checks of the whole declaration it stands after
/// the checks of the earlier positions and before those of the later ones.
pub proof fn lemma_range_check(
    declarations: Seq<DeclarationView>,
    represented: bool,
    p: int,
    range: RangeTagView,
)
    requires
        0 <= p < declarations.len(),
        declarations[p] == DeclarationView::RangeTag(range),
    ensures
        check_of(range, represented) is Some <==> range.check_name is Some && represented,
        check_of(range, represented) matches Some(check) ==> check.function_name
            == range.check_name->0 && check.start == range.start && check.end == range.end,
        check_offset(declarations, represented, p + 1) <= checks(declarations, represented).len(),
        checks(declarations, represented).subrange(
            check_offset(declarations, represented, p) as int,
            check_offset(declarations, represented, p + 1) as int,
        ) == match check_of(range, represented) {
            Some(check) => seq![check],
            None => Seq::<CheckView>::empty(),
        },
{
    lemma_step(declarations, represented, p);
    lemma_prefix(declarations, represented, p);
    lemma_prefix(declarations, represented, p + 1);
    let whole = checks(declarations, represented);
    let from = check_offset(declarations, represented, p) as int;
    let to = check_offset(declarations, represented, p + 1) as int;
    let added = checks_of(declarations[p], represented);
    assert(whole.take(to) == whole.take(from) + added);
    assert(whole.subrange(from, to) =~= whole.take(to).subrange(from, to));
    assert((whole.take(from) + added).subrange(from, to) =~= added);
}

/// A range whose `start` lies above its `end` stands for no member, and the
/// check that it may still give rise to holds of no number.
pub proof fn lemma_inverted_range(origin: nat, range: RangeTagView, represented: bool)
    requires
        range.start > range.end,
    ensures
        expand_range(origin, range) == Seq::<MemberView>::empty(),
        check_of(range, represented) matches Some(check) ==> forall|value: int|
            !check.admits(value),
{
    assert(expand_range(origin, range) =~= Seq::<MemberView>::empty());
}

/// A declaration without ranges comes back as it is, and gives rise to no
/// check.
pub proof fn lemma_no_ranges(declarations: Seq<DeclarationView>, represented: bool)
    requires
        forall|i: int| 0 <= i < declarations.len() ==> declarations[i] is Literal,
    ensures
        expansion(declarations).len() == declarations.len(),
        forall|i: int|
            0 <= i < declarations.len() ==> (#[trigger] declarations[i] matches DeclarationView::Literal(
                literal,
            ) && expansion(declarations)[i] == literal_member(i as nat, literal)),
        checks(declarations, represented) == Seq::<CheckView>::empty(),
    decreases declarations.len(),
{
    if declarations.len() > 0 {
        let shorter = declarations.drop_last();
        lemma_no_ranges(shorter, represented);
        assert(checks(declarations, represented) =~= Seq::<CheckView>::empty());
        assert forall|i: int| 0 <= i < declarations.len() implies (
        #[trigger] declarations[i] matches DeclarationView::Literal(literal) && expansion(
            declarations,
        )[i] == literal_member(i as nat, literal)) by {
            if i < shorter.len() {
                assert(shorter[i] == declarations[i]);
            }
        }
    }
}

} // verus!
