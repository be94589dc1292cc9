use museum_solver::{Attribute, CalcResult, MemberInfo, SolveState, Zone};

#[test]
fn attribute_arithmetic() {
    let a = Attribute::new(1, -2, 3);
    let b = Attribute::new(10, 20, 30);
    assert_eq!(a.add(b), Attribute::new(11, 18, 33));
    assert_eq!(a.sub(b), Attribute::new(-9, -22, -27));
    assert_eq!(a.mul_by(10), Attribute::new(10, -20, 30));
}

#[test]
fn calc_mixes_shortfall_and_overflow() {
    let z = Zone::new(
        "z".to_string(),
        Attribute::new(5, 5, 5),
        Attribute::new(1, 2, 0),
        Attribute::new(40, 20, 10),
        100,
    );
    let m = MemberInfo::new("m".to_string(), Attribute::new(10, 10, 10));
    // residual = (40-5-10-10, 20-5-20-10, 10-5-0-10) = (15, -15, -5)
    assert_eq!(z.calc(&[m.clone()]), CalcResult::new(15, 20));
    assert_eq!(z.calc_detail(&[m]), Attribute::new(25, 35, 15));
    assert_eq!(z.calc_detail(&[]), Attribute::new(15, 25, 5));
}

#[test]
fn one_short_in_two_dimensions_ties_two_short_in_one() {
    let z = Zone::new(
        "z".to_string(),
        Attribute::new(0, 0, 0),
        Attribute::new(0, 0, 0),
        Attribute::new(10, 10, 10),
        100,
    );
    let a = MemberInfo::new("a".to_string(), Attribute::new(9, 9, 10));
    let b = MemberInfo::new("b".to_string(), Attribute::new(8, 10, 10));
    assert_eq!(z.calc(&[a]), z.calc(&[b]));
}

#[test]
fn cost_order_is_lexicographic() {
    let a = CalcResult::new(1, 100);
    let b = CalcResult::new(2, 0);
    assert!(a.is_less_than(&b));
    assert!(!b.is_less_than(&a));
    assert!(CalcResult::new(1, 2).is_less_than(&CalcResult::new(1, 3)));
    assert!(!a.is_less_than(&a));
    assert_eq!(a.add(b), CalcResult::new(3, 100));
}

#[test]
fn state_combinations_cover_all_triples() {
    let s = SolveState::new(5, 2);
    let c = s.member_combinations();
    assert_eq!(c.len(), 10);
    for (i, j, k) in &c {
        assert!(i < j && j < k && *k < 5);
    }
    assert!(c.contains(&(0, 1, 2)));
    assert!(c.contains(&(2, 3, 4)));
    assert!(c.contains(&(0, 2, 4)));
}

#[test]
fn state_next_drops_members_and_zone() {
    let s = SolveState::new(7, 3);
    assert!(s.can_next());
    assert_eq!(s.current_zone(), 0);
    let n = s.next((1, 3, 5));
    assert_eq!(n.members, vec![0, 2, 4, 6]);
    assert_eq!(n.current_zone(), 1);
    assert!(!n.can_next());
    assert!(!n.same_as(&s));
    assert!(n.same_as(&s.next((1, 3, 5))));
    assert!(!SolveState::new(6, 1).can_next());
}

#[test]
fn calc_handles_values_beyond_the_solver_range() {
    let big = 1i64 << 50;
    let z = Zone::new(
        "z".to_string(),
        Attribute::new(0, 0, 0),
        Attribute::new(big, 0, 0),
        Attribute::new(big, 0, -big),
        100,
    );
    let m = MemberInfo::new("m".to_string(), Attribute::new(big, 1, 2));
    // residual = (big - 10 big - big, -1, -big - 2)
    assert_eq!(z.calc(&[m.clone()]), CalcResult::new(0, (10 * big as u64) + 1 + big as u64 + 2));
    assert_eq!(z.calc_detail(&[m]), Attribute::new(11 * big, 1, 2));
}

#[test]
fn combinations_come_in_lexicographic_order() {
    let s = SolveState::new(6, 2);
    let c = s.member_combinations();
    assert_eq!(c.len(), 20);
    assert_eq!(c[0], (0, 1, 2));
    assert_eq!(c[1], (0, 1, 3));
    assert_eq!(c[19], (3, 4, 5));
    for w in c.windows(2) {
        assert!(w[0] < w[1]);
    }
    let n = s.next((0, 2, 4));
    assert_eq!(n.member_combinations(), vec![(1, 3, 5)]);
    assert!(SolveState::new(2, 1).member_combinations().is_empty());
}
