//! The declarations that go in, the members and checks that come out, and the
//! mathematical view of each.

use vstd::prelude::*;

verus! {

/// A member that is written out in full.
#[derive(Clone, Debug, PartialEq, Eq)]
pub struct Literal {
    pub name: String,
    /// The number given to the member, if the declaration gives one.
    pub discriminant: Option<i128>,
}

/// A placeholder member that stands for one member per integer from `start`
/// to `end`, both included.
#[derive(Clone, Debug, PartialEq, Eq)]
pub struct RangeTag {
    pub name: String,
    pub start: usize,
    pub end: usize,
    /// The text that the members' names are made from. Without one, the names
    /// are the placeholder's own name followed by the member's index.
    pub name_template: Option<String>,
    /// The name of the membership check asked for, if any.
    pub check_name: Option<String>,
}

/// One position of a declaration.
#[derive(Clone, Debug, PartialEq, Eq)]
pub enum MemberDeclaration {
    Literal(Literal),
    RangeTag(RangeTag),
}

/// The integer type that stores a member's number.
#[derive(Clone, Debug, PartialEq, Eq)]
pub struct Representation {
    pub name: String,
}

/// A member of the expanded declaration.
#[derive(Clone, Debug, PartialEq, Eq)]
pub struct ExpandedMember {
    pub name: String,
    pub discriminant: Option<i128>,
    /// The position, in the declaration, of the member that this one came from.
    pub origin: usize,
}

/// A membership check: it holds of the numbers from `start` to `end`, both
/// included.
#[derive(Clone, Debug, PartialEq, Eq)]
pub struct RangeCheck {
    pub function_name: String,
    pub start: usize,
    pub end: usize,
}

pub struct LiteralView {
    pub name: Seq<char>,
    pub discriminant: Option<int>,
}

pub struct RangeTagView {
    pub name: Seq<char>,
    pub start: nat,
    pub end: nat,
    pub name_template: Option<Seq<char>>,
    pub check_name: Option<Seq<char>>,
}

pub enum DeclarationView {
    Literal(LiteralView),
    RangeTag(RangeTagView),
}

pub struct MemberView {
    pub name: Seq<char>,
    pub discriminant: Option<int>,
    pub origin: nat,
}

pub struct CheckView {
    pub function_name: Seq<char>,
    pub start: nat,
    pub end: nat,
}

/// The characters of an optional text.
pub open spec fn text_view(text: Option<String>) -> Option<Seq<char>> {
    match text {
        Some(t) => Some(t@),
        None => None,
    }
}

/// The value of an optional number.
pub open spec fn number_view(number: Option<i128>) -> Option<int> {
    match number {
        Some(n) => Some(n as int),
        None => None,
    }
}

impl View for Literal {
    type V = LiteralView;

    open spec fn view(&self) -> LiteralView {
        LiteralView { name: self.name@, discriminant: number_view(self.discriminant) }
    }
}

impl View for RangeTag {
    type V = RangeTagView;

    open spec fn view(&self) -> RangeTagView {
        RangeTagView {
            name: self.name@,
            start: self.start as nat,
            end: self.end as nat,
            name_template: text_view(self.name_template),
            check_name: text_view(self.check_name),
        }
    }
}

impl View for MemberDeclaration {
    type V = DeclarationView;

    open spec fn view(&self) -> DeclarationView {
        match self {
            MemberDeclaration::Literal(literal) => DeclarationView::Literal(literal@),
            MemberDeclaration::RangeTag(range) => DeclarationView::RangeTag(range@),
        }
    }
}

impl View for Representation {
    type V = Seq<char>;

    open spec fn view(&self) -> Seq<char> {
        self.name@
    }
}

impl View for ExpandedMember {
    type V = MemberView;

    open spec fn view(&self) -> MemberView {
        MemberView {
            name: self.name@,
            discriminant: number_view(self.discriminant),
            origin: self.origin as nat,
        }
    }
}

impl View for RangeCheck {
    type V = CheckView;

    open spec fn view(&self) -> CheckView {
        CheckView {
            function_name: self.function_name@,
            start: self.start as nat,
            end: self.end as nat,
        }
    }
}

/// The views of the items of a sequence, in order.
pub open spec fn views<T: View>(items: Seq<T>) -> Seq<T::V> {
    items.map_values(|item: T| item@)
}

impl CheckView {
    /// Whether the check holds of `value`.
    pub open spec fn admits(self, value: int) -> bool {
        self.start <= value <= self.end
    }
}

impl RangeCheck {
    /// Whether the check holds of `value`: whether `value` lies between the
    /// bounds, both included.
    pub fn admits(&self, value: i128) -> (r: bool)
        ensures
            r == self@.admits(value as int),
    {
        self.start as i128 <= value && value <= self.end as i128
    }
}

} // verus!
