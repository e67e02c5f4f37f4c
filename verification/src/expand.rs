//! The expansion itself: every range member of a declaration is replaced, in
//! place, by the members that it stands for, and the membership checks that
//! were asked for are gathered.

use vstd::prelude::*;
use crate::laws::{lemma_expansion_len, literal_count, range_total};
use crate::model::{
    views, CheckView, DeclarationView, ExpandedMember, Literal, LiteralView, MemberDeclaration,
    MemberView, RangeCheck, RangeTag, RangeTagView, Representation,
};
use crate::template::{generate_variant_ident, member_name, template_of};

verus! {

/// How many members a range stands for: one per integer from `start` to `end`,
/// none where `start` lies above `end`.
pub open spec fn range_len(range: RangeTagView) -> nat {
    if range.start <= range.end {
        (range.end - range.start + 1) as nat
    } else {
        0
    }
}

/// The member that a literal at position `origin` becomes: itself.
pub open spec fn literal_member(origin: nat, literal: LiteralView) -> MemberView {
    MemberView { name: literal.name, discriminant: literal.discriminant, origin }
}

/// The member of `range` at `index`: its number is `start + index`, its name
/// is made from the range's template.
pub open spec fn range_member(origin: nat, range: RangeTagView, index: nat) -> MemberView {
    MemberView {
        name: member_name(template_of(range), index, range.start + index),
        discriminant: Some((range.start + index) as int),
        origin,
    }
}

/// The members that `range`, declared at position `origin`, stands for, in
/// ascending order of their numbers.
pub open spec fn expand_range(origin: nat, range: RangeTagView) -> Seq<MemberView> {
    Seq::new(range_len(range), |index: int| range_member(origin, range, index as nat))
}

/// What the declaration at position `origin` contributes to the expansion.
pub open spec fn expand_one(origin: nat, declaration: DeclarationView) -> Seq<MemberView> {
    match declaration {
        DeclarationView::Literal(literal) => seq![literal_member(origin, literal)],
        DeclarationView::RangeTag(range) => expand_range(origin, range),
    }
}

/// The expansion of a whole declaration: the contributions of its positions,
/// in the order of the positions.
pub open spec fn expansion(declarations: Seq<DeclarationView>) -> Seq<MemberView>
    decreases declarations.len(),
{
    if declarations.len() == 0 {
        Seq::empty()
    } else {
        expansion(declarations.drop_last()) + expand_one(
            (declarations.len() - 1) as nat,
            declarations.last(),
        )
    }
}

/// The check that `range` gives rise to: one with the range's bounds where the
/// range names a check and the enumeration has a representation, none
/// otherwise.
pub open spec fn check_of(range: RangeTagView, represented: bool) -> Option<CheckView> {
    match range.check_name {
        Some(function_name) if represented => Some(
            CheckView { function_name, start: range.start, end: range.end },
        ),
        _ => None,
    }
}

/// The checks that one declaration gives rise to: at most one.
pub open spec fn checks_of(declaration: DeclarationView, represented: bool) -> Seq<CheckView> {
    match declaration {
        DeclarationView::Literal(_) => Seq::empty(),
        DeclarationView::RangeTag(range) => match check_of(range, represented) {
            Some(check) => seq![check],
            None => Seq::empty(),
        },
    }
}

/// The checks of a whole declaration, in the order of their ranges.
pub open spec fn checks(declarations: Seq<DeclarationView>, represented: bool) -> Seq<CheckView>
    decreases declarations.len(),
{
    if declarations.len() == 0 {
        Seq::empty()
    } else {
        checks(declarations.drop_last(), represented) + checks_of(
            declarations.last(),
            represented,
        )
    }
}

/// The positions at which a declaration holds a range, in ascending order.
pub open spec fn range_positions(declarations: Seq<DeclarationView>) -> Seq<nat>
    decreases declarations.len(),
{
    if declarations.len() == 0 {
        Seq::empty()
    } else if declarations.last() is RangeTag {
        range_positions(declarations.drop_last()).push((declarations.len() - 1) as nat)
    } else {
        range_positions(declarations.drop_last())
    }
}

/// Positions as natural numbers.
pub open spec fn positions(indices: Seq<usize>) -> Seq<nat> {
    indices.map_values(|index: usize| index as nat)
}

/// The view of a sequence with one more item is the view of the sequence with
/// the view of that item.
proof fn lemma_views_push<T: View>(items: Seq<T>, item: T)
    ensures
        views(items.push(item)) == views(items).push(item@),
{
    assert(views(items.push(item)) =~= views(items).push(item@));
}

/// Taking one more declaration adds that declaration's contribution: its
/// members, its checks and, where it is a range, its position.
pub proof fn lemma_step(declarations: Seq<DeclarationView>, represented: bool, i: int)
    requires
        0 <= i < declarations.len(),
    ensures
        expansion(declarations.take(i + 1)) == expansion(declarations.take(i)) + expand_one(
            i as nat,
            declarations[i],
        ),
        checks(declarations.take(i + 1), represented) == checks(declarations.take(i), represented)
            + checks_of(declarations[i], represented),
        range_positions(declarations.take(i + 1)) == if declarations[i] is RangeTag {
            range_positions(declarations.take(i)).push(i as nat)
        } else {
            range_positions(declarations.take(i))
        },
{
    assert(declarations.take(i + 1).drop_last() =~= declarations.take(i));
}

/// The ranges found among the first `i` declarations are the first ranges of
/// the whole; every later one lies at position `i` or beyond.
proof fn lemma_range_positions(declarations: Seq<DeclarationView>, i: int)
    requires
        0 <= i <= declarations.len(),
    ensures
        range_positions(declarations.take(i)).len() <= range_positions(declarations).len(),
        range_positions(declarations.take(i)) == range_positions(declarations).take(
            range_positions(declarations.take(i)).len() as int,
        ),
        forall|k: int|
            range_positions(declarations.take(i)).len() <= k < range_positions(declarations).len()
                ==> i <= #[trigger] range_positions(declarations)[k] < declarations.len()
                && declarations[range_positions(declarations)[k] as int] is RangeTag,
    decreases declarations.len(),
{
    if i == declarations.len() {
        assert(declarations.take(i) =~= declarations);
        assert(range_positions(declarations) =~= range_positions(declarations).take(
            range_positions(declarations).len() as int,
        ));
    } else {
        let shorter = declarations.drop_last();
        lemma_range_positions(shorter, i);
        assert(shorter.take(i) =~= declarations.take(i));
        let found = range_positions(declarations.take(i));
        assert(found =~= range_positions(declarations).take(found.len() as int));
    }
}

/// The check that goes with `range`, where one was asked for and the
/// enumeration has a representation.
pub fn generate_range_checker(repr: &Option<Representation>, range: &RangeTag) -> (r: Option<
    RangeCheck,
>)
    ensures
        r is Some <==> range.check_name is Some && repr is Some,
        r matches Some(check) ==> check.function_name@ == range.check_name->0@ && check.start
            == range.start && check.end == range.end,
        r is None <==> check_of(range@, repr is Some) is None,
        r matches Some(check) ==> Some(check@) == check_of(range@, repr is Some),
{
    if repr.is_none() {
        return None;
    }
    match &range.check_name {
        Some(function_name) => Some(
            RangeCheck { function_name: function_name.clone(), start: range.start, end: range.end },
        ),
        None => None,
    }
}

/// The positions of the range members of a declaration, in ascending order.
pub fn range_requests(members: &Vec<MemberDeclaration>) -> (r: Vec<usize>)
    ensures
        positions(r@) == range_positions(views(members@)),
{
    let ghost declarations = views(members@);
    let mut requests: Vec<usize> = Vec::new();
    let mut i: usize = 0;
    assert(declarations.take(0) =~= Seq::empty());
    assert(positions(requests@) =~= Seq::empty());
    while i < members.len()
        invariant
            i <= members.len(),
            declarations == views(members@),
            positions(requests@) == range_positions(declarations.take(i as int)),
        decreases members.len() - i,
    {
        proof {
            lemma_step(declarations, false, i as int);
        }
        match &members[i] {
            MemberDeclaration::RangeTag(_) => {
                let ghost before = requests@;
                requests.push(i);
                assert(positions(requests@) =~= positions(before).push(i as nat));
            },
            MemberDeclaration::Literal(_) => {},
        }
        i += 1;
    }
    assert(declarations.take(i as int) =~= declarations);
    requests
}

/// Appends to `out` the members that `range`, declared at position `origin`,
/// stands for: one per integer from `start` to `end`, in ascending order, and
/// none where `start` lies above `end`.
pub fn push_range_members(out: &mut Vec<ExpandedMember>, origin: usize, range: &RangeTag)
    ensures
        views(final(out)@) == views(old(out)@) + expand_range(origin as nat, range@),
{
    let ghost base = views(out@);
    let ghost block = expand_range(origin as nat, range@);
    if range.start > range.end {
        assert(base + block =~= base);
        return ;
    }
    let mut value = range.start;
    assert(base + block.take(0) =~= base);
    while value < range.end
        invariant
            range.start <= value <= range.end,
            block == expand_range(origin as nat, range@),
            views(out@) == base + block.take(value - range.start),
        decreases range.end - value,
    {
        let index = value - range.start;
        let member = ExpandedMember {
            name: generate_variant_ident(range, index, value),
            discriminant: Some(value as i128),
            origin,
        };
        proof {
            lemma_views_push(out@, member);
            assert(member@ == block[index as int]);
            assert(base + block.take(index + 1) =~= (base + block.take(index as int)).push(
                member@,
            ));
        }
        out.push(member);
        value += 1;
    }
    // The last member is made apart: past `end` there may be no number left.
    let index = value - range.start;
    let member = ExpandedMember {
        name: generate_variant_ident(range, index, value),
        discriminant: Some(value as i128),
        origin,
    };
    proof {
        lemma_views_push(out@, member);
        assert(member@ == block[index as int]);
        assert(base + block =~= (base + block.take(index as int)).push(member@));
    }
    out.push(member);
}

/// The range at position `i`, where there is one.
fn range_at(members: &Vec<MemberDeclaration>, i: usize) -> (r: &RangeTag)
    requires
        i < members.len(),
        members[i as int] is RangeTag,
    ensures
        members[i as int] == MemberDeclaration::RangeTag(*r),
{
    match &members[i] {
        MemberDeclaration::RangeTag(range) => range,
        MemberDeclaration::Literal(_) => unreached(),
    }
}

/// The literal at position `i`, where there is one.
fn literal_at(members: &Vec<MemberDeclaration>, i: usize) -> (r: &Literal)
    requires
        i < members.len(),
        members[i as int] is Literal,
    ensures
        members[i as int] == MemberDeclaration::Literal(*r),
{
    match &members[i] {
        MemberDeclaration::Literal(literal) => literal,
        MemberDeclaration::RangeTag(_) => unreached(),
    }
}

/// Expands a declaration. Every literal member is kept as it is. Every range
/// member is replaced, at its own place, by one member per integer from its
/// `start` to its `end`, in ascending order; a range whose `start` lies above
/// its `end` leaves no member. The checks are those of the ranges that name
/// one, in the order of the ranges, and only where `repr` is given.
///
/// The ranges are first noted with their positions; the declaration is then
/// walked once, with a cursor on the next range that is due. A position
/// before the range that is due holds a literal, and the walk comes to each
/// range at its own position: it passes none over. Both are proved here, so
/// the walk has no position at which it could fail.
pub fn generate_enum_ranges(members: &Vec<MemberDeclaration>, repr: &Option<Representation>) -> (r:
    (Vec<ExpandedMember>, Vec<RangeCheck>))
    ensures
        views(r.0@) == expansion(views(members@)),
        views(r.1@) == checks(views(members@), repr is Some),
        r.0@.len() == literal_count(views(members@)) + range_total(views(members@)),
{
    let ghost declarations = views(members@);
    let ghost represented = repr is Some;
    let requests = range_requests(members);
    let mut expanded: Vec<ExpandedMember> = Vec::new();
    let mut found: Vec<RangeCheck> = Vec::new();
    let mut cursor: usize = 0;
    let mut i: usize = 0;
    assert(declarations.take(0) =~= Seq::empty());
    assert(views(expanded@) =~= Seq::empty());
    assert(views(found@) =~= Seq::empty());
    while i < members.len()
        invariant
            i <= members.len(),
            declarations == views(members@),
            represented == (repr is Some),
            positions(requests@) == range_positions(declarations),
            cursor == range_positions(declarations.take(i as int)).len(),
            views(expanded@) == expansion(declarations.take(i as int)),
            views(found@) == checks(declarations.take(i as int), represented),
        decreases members.len() - i,
    {
        proof {
            lemma_step(declarations, represented, i as int);
            lemma_range_positions(declarations, i as int);
            lemma_range_positions(declarations, i + 1);
            assert(positions(requests@).len() == requests@.len());
            if cursor < requests.len() {
                assert(positions(requests@)[cursor as int] == requests[cursor as int]);
                assert(requests[cursor as int] >= i);
            }
            if declarations[i as int] is RangeTag {
                assert(range_positions(declarations.take(i + 1))[cursor as int] == i);
            }
        }
        if cursor < requests.len() && requests[cursor] == i {
            let range = range_at(members, i);
            push_range_members(&mut expanded, i, range);
            match generate_range_checker(repr, range) {
                Some(check) => {
                    proof {
                        lemma_views_push(found@, check);
                        assert(views(found@) + seq![check@] =~= views(found@).push(check@));
                    }
                    found.push(check);
                },
                None => {
                    assert(views(found@) + Seq::<CheckView>::empty() =~= views(found@));
                },
            }
            cursor += 1;
        } else {
            let literal = literal_at(members, i);
            let member = ExpandedMember {
                name: literal.name.clone(),
                discriminant: literal.discriminant,
                origin: i,
            };
            proof {
                lemma_views_push(expanded@, member);
                assert(views(expanded@) + seq![member@] =~= views(expanded@).push(member@));
                assert(views(found@) + Seq::<CheckView>::empty() =~= views(found@));
            }
            expanded.push(member);
        }
        i += 1;
    }
    assert(declarations.take(i as int) =~= declarations);
    proof {
        lemma_expansion_len(declarations);
    }
    (expanded, found)
}

} // verus!
