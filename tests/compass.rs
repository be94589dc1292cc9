use museum_solver::{
    navigation_compass_solve, parse_linkage, parse_linkages, Action, Linkage, LinkageError,
    NavigationCompass, Ring,
};

#[test]
fn rings_turn_modulo_six() {
    let mut r = Ring::new(4, 1, -1);
    r.rotate();
    assert_eq!(r.current, 3);
    let mut r = Ring::new(0, 3, -1);
    r.rotate();
    assert_eq!(r.current, 3);
    let mut r = Ring::new(5, 3, 1);
    r.rotate();
    assert_eq!(r.current, 2);
    let mut r = Ring::new(-20, 2, 1);
    r.rotate();
    assert_eq!(r.current, 0);
}

#[test]
fn linkage_masks_round_trip() {
    let l = Linkage::new(5);
    assert!(l.inner && !l.middle && l.outer);
    assert_eq!(l.to_u8(), 5);
    let l = Linkage::new(0b1010);
    assert!(!l.inner && l.middle && !l.outer);
    assert_eq!(l.to_u8(), 2);
    for m in 0..8u8 {
        assert_eq!(Linkage::new(m).to_u8(), m);
    }
}

#[test]
fn linkage_text_is_three_binary_digits() {
    assert_eq!(parse_linkage(&"101".to_string()), Ok(Linkage::new(5)));
    assert_eq!(parse_linkage(&"010".to_string()), Ok(Linkage::new(2)));
    assert_eq!(parse_linkage(&"10".to_string()), Err(LinkageError::WrongLength));
    assert_eq!(parse_linkage(&"1001".to_string()), Err(LinkageError::WrongLength));
    assert_eq!(parse_linkage(&"102".to_string()), Err(LinkageError::UnknownCharacter));
    let raw = vec!["100".to_string(), "011".to_string()];
    assert_eq!(parse_linkages(&raw), Ok(vec![Linkage::new(4), Linkage::new(3)]));
    let bad = vec!["100".to_string(), "0x1".to_string()];
    assert_eq!(parse_linkages(&bad), Err(LinkageError::UnknownCharacter));
}

fn one_off() -> NavigationCompass {
    NavigationCompass::new(Ring::new(1, 1, 1), Ring::new(0, 1, 1), Ring::new(0, 1, 1))
}

#[test]
fn actions_apply_in_order() {
    let c = one_off();
    let done = c.do_actions(&vec![Action::Rotate(Linkage::new(4)); 5]);
    assert!(done.is_solved());
    let partial = c.do_actions(&vec![Action::Rotate(Linkage::new(6)), Action::Rotate(Linkage::new(1))]);
    assert_eq!(partial.inner.current, 2);
    assert_eq!(partial.middle.current, 1);
    assert_eq!(partial.outer.current, 1);
    assert!(!c.is_solved());
}

#[test]
fn fewest_actions_are_found() {
    let result = one_off().try_solve(vec![Linkage::new(6), Linkage::new(4)]).unwrap();
    assert_eq!(result.len(), 5);
    assert!(one_off().do_actions(&result).is_solved());
    for a in &result {
        assert_eq!(*a, Action::Rotate(Linkage::new(4)));
    }
}

#[test]
fn unreachable_position_gives_nothing() {
    let c = NavigationCompass::new(Ring::new(1, 2, 1), Ring::new(0, 1, 1), Ring::new(0, 1, 1));
    assert!(c.try_solve(vec![Linkage::new(4)]).is_none());
    assert!(one_off().try_solve(vec![]).is_none());
}

#[test]
fn plain_value_entry_point() {
    assert_eq!(navigation_compass_solve(1, 1, 1, 0, 1, 1, 0, 1, 1, vec![4]), Some(vec![4; 5]));
    assert_eq!(navigation_compass_solve(1, 2, 1, 0, 1, 1, 0, 1, 1, vec![4]), None);
    let r = navigation_compass_solve(4, 1, -1, 0, 3, -1, 0, 3, 1, vec![4, 2, 1, 7]).unwrap();
    let c = NavigationCompass::new(Ring::new(4, 1, -1), Ring::new(0, 3, -1), Ring::new(0, 3, 1));
    let acts: Vec<Action> = r.iter().map(|m| Action::Rotate(Linkage::new(*m))).collect();
    assert!(c.do_actions(&acts).is_solved());
    assert_eq!(r.len(), 4);
}

#[test]
fn returned_masks_are_low_bits_of_given_ones() {
    let r = navigation_compass_solve(1, 1, 1, 0, 1, 1, 0, 1, 1, vec![0b1100, 0b1010]).unwrap();
    assert_eq!(r, vec![4; 5]);
}
