use enum_range::expand::{
    generate_enum_ranges, generate_range_checker, push_range_members, range_requests,
};
use enum_range::model::{
    ExpandedMember, Literal, MemberDeclaration, RangeCheck, RangeTag, Representation,
};

fn literal(name: &str, discriminant: Option<i128>) -> MemberDeclaration {
    MemberDeclaration::Literal(Literal { name: name.to_string(), discriminant })
}

fn range(
    name: &str,
    start: usize,
    end: usize,
    name_template: Option<&str>,
    check_name: Option<&str>,
) -> RangeTag {
    RangeTag {
        name: name.to_string(),
        start,
        end,
        name_template: name_template.map(|t| t.to_string()),
        check_name: check_name.map(|c| c.to_string()),
    }
}

fn member(name: &str, discriminant: Option<i128>, origin: usize) -> ExpandedMember {
    ExpandedMember { name: name.to_string(), discriminant, origin }
}

fn check(function_name: &str, start: usize, end: usize) -> RangeCheck {
    RangeCheck { function_name: function_name.to_string(), start, end }
}

fn repr(name: &str) -> Option<Representation> {
    Some(Representation { name: name.to_string() })
}

fn names(members: &[ExpandedMember]) -> Vec<String> {
    members.iter().map(|m| m.name.clone()).collect()
}

fn discriminants(members: &[ExpandedMember]) -> Vec<Option<i128>> {
    members.iter().map(|m| m.discriminant).collect()
}

#[test]
fn range_between_literals_is_replaced_in_place() {
    let members = vec![
        literal("Zero", Some(0)),
        literal("One", Some(1)),
        MemberDeclaration::RangeTag(range(
            "PrivateUse",
            10,
            12,
            Some("PU{index}_{value}"),
            Some("is_pu"),
        )),
        literal("Three", Some(3)),
    ];
    let (expanded, checks) = generate_enum_ranges(&members, &repr("u16"));
    assert_eq!(
        expanded,
        vec![
            member("Zero", Some(0), 0),
            member("One", Some(1), 1),
            member("PU0_10", Some(10), 2),
            member("PU1_11", Some(11), 2),
            member("PU2_12", Some(12), 2),
            member("Three", Some(3), 3),
        ]
    );
    assert_eq!(checks, vec![check("is_pu", 10, 12)]);
}

#[test]
fn range_of_one_number_gives_one_member() {
    let members = vec![MemberDeclaration::RangeTag(range("Only", 5, 5, None, None))];
    let (expanded, checks) = generate_enum_ranges(&members, &repr("u8"));
    assert_eq!(expanded, vec![member("Only0", Some(5), 0)]);
    assert!(checks.is_empty());
}

#[test]
fn inverted_range_gives_no_member_but_keeps_its_check() {
    let members = vec![
        literal("Before", Some(1)),
        MemberDeclaration::RangeTag(range("Gap", 6, 5, None, Some("is_gap"))),
        literal("After", None),
    ];
    let (expanded, checks) = generate_enum_ranges(&members, &repr("u8"));
    assert_eq!(expanded, vec![member("Before", Some(1), 0), member("After", None, 2)]);
    assert_eq!(checks, vec![check("is_gap", 6, 5)]);
    for value in [-1i128, 0, 4, 5, 6, 7, i128::MAX, i128::MIN] {
        assert!(!checks[0].admits(value));
    }
}

#[test]
fn declaration_without_ranges_comes_back_unchanged() {
    let members = vec![
        literal("A", Some(-3)),
        literal("B", None),
        literal("C", Some(170141183460469231731687303715884105727)),
    ];
    let (expanded, checks) = generate_enum_ranges(&members, &repr("i128"));
    assert_eq!(
        expanded,
        vec![
            member("A", Some(-3), 0),
            member("B", None, 1),
            member("C", Some(170141183460469231731687303715884105727), 2),
        ]
    );
    assert!(checks.is_empty());
    assert!(range_requests(&members).is_empty());
}

#[test]
fn empty_declaration_gives_nothing() {
    let (expanded, checks) = generate_enum_ranges(&Vec::new(), &repr("u8"));
    assert!(expanded.is_empty());
    assert!(checks.is_empty());
    let (expanded, checks) = generate_enum_ranges(&Vec::new(), &None);
    assert!(expanded.is_empty());
    assert!(checks.is_empty());
}

#[test]
fn length_is_literals_plus_range_sizes() {
    let members = vec![
        MemberDeclaration::RangeTag(range("A", 0, 9, None, None)),
        literal("L", None),
        MemberDeclaration::RangeTag(range("B", 7, 3, None, None)),
        literal("M", None),
        MemberDeclaration::RangeTag(range("C", 100, 100, None, None)),
        MemberDeclaration::RangeTag(range("D", 200, 204, None, None)),
    ];
    let (expanded, _) = generate_enum_ranges(&members, &None);
    assert_eq!(expanded.len(), 2 + 10 + 0 + 1 + 5);
}

#[test]
fn range_numbers_ascend_without_gaps() {
    let members = vec![
        literal("First", Some(400)),
        MemberDeclaration::RangeTag(range("Unassigned", 200, 205, Some("Unassigned{value}"), None)),
    ];
    let (expanded, _) = generate_enum_ranges(&members, &None);
    assert_eq!(
        discriminants(&expanded[1..]),
        vec![Some(200), Some(201), Some(202), Some(203), Some(204), Some(205)]
    );
    assert_eq!(
        names(&expanded[1..]),
        vec![
            "Unassigned200",
            "Unassigned201",
            "Unassigned202",
            "Unassigned203",
            "Unassigned204",
            "Unassigned205"
        ]
    );
    assert!(expanded[1..].iter().all(|m| m.origin == 1));
}

#[test]
fn range_at_the_top_of_the_number_line_ends() {
    let members =
        vec![MemberDeclaration::RangeTag(range("Top", usize::MAX - 1, usize::MAX, None, None))];
    let (expanded, _) = generate_enum_ranges(&members, &None);
    assert_eq!(
        discriminants(&expanded),
        vec![Some(usize::MAX as i128 - 1), Some(usize::MAX as i128)]
    );
    assert_eq!(names(&expanded), vec!["Top0", "Top1"]);
}

#[test]
fn literals_keep_their_order_around_ranges() {
    let members = vec![
        MemberDeclaration::RangeTag(range("R", 1, 2, None, None)),
        literal("A", Some(10)),
        MemberDeclaration::RangeTag(range("S", 3, 4, None, None)),
        literal("B", None),
        literal("C", Some(12)),
        MemberDeclaration::RangeTag(range("T", 5, 5, None, None)),
    ];
    let (expanded, _) = generate_enum_ranges(&members, &None);
    assert_eq!(names(&expanded), vec!["R0", "R1", "A", "S0", "S1", "B", "C", "T0"]);
    let kept: Vec<ExpandedMember> = expanded
        .iter()
        .filter(|m| matches!(members[m.origin], MemberDeclaration::Literal(_)))
        .cloned()
        .collect();
    assert_eq!(
        kept,
        vec![member("A", Some(10), 1), member("B", None, 3), member("C", Some(12), 4)]
    );
}

#[test]
fn adjacent_and_overlapping_ranges_are_expanded_independently() {
    let members = vec![
        MemberDeclaration::RangeTag(range("X", 3, 4, None, Some("is_x"))),
        MemberDeclaration::RangeTag(range("Y", 4, 5, Some("Y{value}"), Some("is_y"))),
    ];
    let (expanded, checks) = generate_enum_ranges(&members, &repr("u8"));
    assert_eq!(
        expanded,
        vec![
            member("X0", Some(3), 0),
            member("X1", Some(4), 0),
            member("Y4", Some(4), 1),
            member("Y5", Some(5), 1),
        ]
    );
    assert_eq!(checks, vec![check("is_x", 3, 4), check("is_y", 4, 5)]);
    assert_eq!(range_requests(&members), vec![0, 1]);
}

#[test]
fn checks_with_one_name_are_both_kept() {
    let members = vec![
        MemberDeclaration::RangeTag(range("X", 1, 1, None, Some("is_it"))),
        MemberDeclaration::RangeTag(range("Y", 2, 2, None, Some("is_it"))),
    ];
    let (_, checks) = generate_enum_ranges(&members, &repr("u32"));
    assert_eq!(checks, vec![check("is_it", 1, 1), check("is_it", 2, 2)]);
}

#[test]
fn no_check_without_a_name() {
    let tag = range("R", 1, 3, None, None);
    assert_eq!(generate_range_checker(&repr("u8"), &tag), None);
    assert_eq!(generate_range_checker(&None, &tag), None);
}

#[test]
fn no_check_without_a_representation() {
    let tag = range("R", 1, 3, None, Some("is_r"));
    assert_eq!(generate_range_checker(&None, &tag), None);
    let members = vec![literal("A", None), MemberDeclaration::RangeTag(tag)];
    let (expanded, checks) = generate_enum_ranges(&members, &None);
    assert_eq!(expanded.len(), 4);
    assert!(checks.is_empty());
}

#[test]
fn check_with_name_and_representation_has_the_bounds() {
    let tag = range("R", 206, 210, Some("WellKnown{index}"), Some("is_well_known"));
    assert_eq!(
        generate_range_checker(&repr("u16"), &tag),
        Some(check("is_well_known", 206, 210))
    );
}

#[test]
fn check_admits_the_bounds_and_what_lies_between() {
    let c = check("is_pu", 10, 12);
    assert!(!c.admits(9));
    assert!(c.admits(10));
    assert!(c.admits(11));
    assert!(c.admits(12));
    assert!(!c.admits(13));
    assert!(!c.admits(-10));
    let all = check("any", 0, usize::MAX);
    assert!(all.admits(0));
    assert!(all.admits(usize::MAX as i128));
    assert!(!all.admits(-1));
    assert!(!all.admits(usize::MAX as i128 + 1));
}

#[test]
fn requests_are_the_positions_of_the_ranges() {
    let members = vec![
        literal("A", None),
        MemberDeclaration::RangeTag(range("R", 1, 2, None, None)),
        literal("B", None),
        literal("C", None),
        MemberDeclaration::RangeTag(range("S", 9, 3, None, None)),
        MemberDeclaration::RangeTag(range("T", 5, 5, None, None)),
    ];
    assert_eq!(range_requests(&members), vec![1, 4, 5]);
    assert_eq!(range_requests(&Vec::new()), Vec::<usize>::new());
}

#[test]
fn several_ranges_with_checks_in_declaration_order() {
    let members = vec![
        literal("Zero", Some(0)),
        literal("One", Some(1)),
        MemberDeclaration::RangeTag(range(
            "PrivateUse",
            10,
            20,
            Some("PrivateUse{index}_{value}"),
            Some("is_private_use"),
        )),
        literal("Three", Some(3)),
        MemberDeclaration::RangeTag(range(
            "Unassigned",
            200,
            205,
            Some("Unassigned{value}"),
            Some("is_unassigned"),
        )),
        MemberDeclaration::RangeTag(range(
            "WellKnown",
            206,
            210,
            Some("WellKnown{index}"),
            Some("is_well_known"),
        )),
        literal("Mdr", Some(400)),
        literal("Lol", Some(401)),
        literal("Ptdr", Some(402)),
    ];
    let (expanded, checks) = generate_enum_ranges(&members, &repr("u16"));
    assert_eq!(expanded.len(), 6 + 11 + 6 + 5);
    assert_eq!(expanded[2], member("PrivateUse0_10", Some(10), 2));
    assert_eq!(expanded[12], member("PrivateUse10_20", Some(20), 2));
    assert_eq!(expanded[13], member("Three", Some(3), 3));
    assert_eq!(expanded[14], member("Unassigned200", Some(200), 4));
    assert_eq!(expanded[20], member("WellKnown0", Some(206), 5));
    assert_eq!(expanded[24], member("WellKnown4", Some(210), 5));
    assert_eq!(expanded[27], member("Ptdr", Some(402), 8));
    assert_eq!(
        checks,
        vec![
            check("is_private_use", 10, 20),
            check("is_unassigned", 200, 205),
            check("is_well_known", 206, 210),
        ]
    );
    assert!(!checks[2].admits(0));
    assert!(checks[0].admits(10));
    assert!(!checks[1].admits(10));
}

#[test]
fn range_members_are_appended_after_what_is_there() {
    let mut out = vec![member("Kept", None, 0)];
    push_range_members(&mut out, 4, &range("W", 206, 208, Some("WellKnown{index}"), None));
    assert_eq!(
        out,
        vec![
            member("Kept", None, 0),
            member("WellKnown0", Some(206), 4),
            member("WellKnown1", Some(207), 4),
            member("WellKnown2", Some(208), 4),
        ]
    );
    push_range_members(&mut out, 5, &range("Inverted", 3, 2, None, Some("is_inverted")));
    assert_eq!(out.len(), 4);
    push_range_members(&mut out, 6, &range("Zero", 0, 0, Some("Z{value}"), None));
    assert_eq!(out[4], member("Z0", Some(0), 6));
    assert_eq!(out.len(), 5);
}
