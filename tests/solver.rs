use museum_solver::{solve, Attribute, CalcResult, MemberInfo, SolveState, Zone};

fn member(name: &str, t: i64, v: i64, p: i64) -> MemberInfo {
    MemberInfo::new(name.to_string(), Attribute::new(t, v, p))
}

fn zone(name: &str, base: (i64, i64, i64), lvl: (i64, i64, i64), req: (i64, i64, i64)) -> Zone {
    Zone::new(
        name.to_string(),
        Attribute::new(base.0, base.1, base.2),
        Attribute::new(lvl.0, lvl.1, lvl.2),
        Attribute::new(req.0, req.1, req.2),
        100,
    )
}

fn three_tens() -> Vec<MemberInfo> {
    vec![member("a", 10, 10, 10), member("b", 10, 10, 10), member("c", 10, 10, 10)]
}

fn default_members() -> Vec<MemberInfo> {
    vec![
        member("n1", 56, 15, 64),
        member("n2", 68, 57, 10),
        member("n3", 42, 22, 65),
        member("n4", 44, 54, 10),
        member("n5", 54, 54, 0),
        member("n6", 8, 58, 42),
        member("n7", 52, 20, 36),
        member("n8", 36, 40, 20),
        member("n9", 52, 14, 30),
        member("n10", 50, 29, 17),
        member("n11", 30, 30, 30),
        member("n12", 40, 8, 30),
        member("n13", 26, 26, 26),
        member("n14", 20, 44, 14),
    ]
}

fn default_zones() -> Vec<Zone> {
    vec![
        zone("outer", (30, 30, 30), (10, 10, 10), (256, 220, 255)),
        zone("inner", (80, 80, 80), (4, 8, 2), (205, 245, 150)),
    ]
}

fn key(c: &CalcResult) -> (u64, u64) {
    (c.require, c.overflow)
}

#[test]
fn exact_match_costs_nothing() {
    let zones = vec![zone("z", (0, 0, 0), (0, 0, 0), (30, 30, 30))];
    let (cost, map) = solve(three_tens(), zones).unwrap();
    assert_eq!(cost, CalcResult::new(0, 0));
    assert_eq!(map.len(), 1);
    assert_eq!(map[0].0.name, "z");
    let mut names: Vec<String> = map[0].1.iter().map(|m| m.name.clone()).collect();
    names.sort();
    assert_eq!(names, vec!["a".to_string(), "b".to_string(), "c".to_string()]);
}

#[test]
fn shortfall_is_summed_over_dimensions() {
    let zones = vec![zone("z", (0, 0, 0), (0, 0, 0), (40, 40, 40))];
    let (cost, _) = solve(three_tens(), zones).unwrap();
    assert_eq!(cost.require, 30);
    assert_eq!(cost.overflow, 0);
}

#[test]
fn overflow_is_summed_over_dimensions() {
    let zones = vec![zone("z", (0, 0, 0), (0, 0, 0), (20, 20, 20))];
    let (cost, _) = solve(three_tens(), zones).unwrap();
    assert_eq!(cost.require, 0);
    assert_eq!(cost.overflow, 30);
}

#[test]
fn three_members_one_zone_is_a_leaf() {
    let state = SolveState::new(3, 1);
    assert!(!state.can_next());
    let zones = vec![zone("z", (1, 2, 3), (1, 1, 1), (50, 20, 70))];
    let (cost, map) = solve(three_tens(), zones).unwrap();
    // residual = (50-1-10-30, 20-2-10-30, 70-3-10-30) = (9, -22, 27)
    assert_eq!(cost, CalcResult::new(36, 22));
    assert_eq!(map.len(), 1);
}

#[test]
fn nothing_without_three_members_or_a_zone() {
    let zones = vec![zone("z", (0, 0, 0), (0, 0, 0), (30, 30, 30))];
    assert!(solve(vec![member("a", 1, 1, 1), member("b", 1, 1, 1)], zones.clone()).is_none());
    assert!(solve(vec![], zones).is_none());
    assert!(solve(three_tens(), vec![]).is_none());
    assert!(solve(three_tens(), vec![zone("z", (0, 0, 0), (0, 0, 0), (1, 1, 1))]).is_some());
}

fn brute_force_two_zones(members: &[MemberInfo], zones: &[Zone]) -> (u64, u64) {
    let n = members.len();
    let mut best = (u64::MAX, u64::MAX);
    for a in 0..n {
        for b in a + 1..n {
            for c in b + 1..n {
                let first = zones[0].calc(&[members[a].clone(), members[b].clone(), members[c].clone()]);
                for d in 0..n {
                    for e in d + 1..n {
                        for f in e + 1..n {
                            if [d, e, f].iter().any(|x| *x == a || *x == b || *x == c) {
                                continue;
                            }
                            let second = zones[1].calc(&[
                                members[d].clone(),
                                members[e].clone(),
                                members[f].clone(),
                            ]);
                            let total = (
                                first.require + second.require,
                                first.overflow + second.overflow,
                            );
                            if total < best {
                                best = total;
                            }
                        }
                    }
                }
            }
        }
    }
    best
}

#[test]
fn default_dataset_is_consistent_and_optimal() {
    let members = default_members();
    let zones = default_zones();
    let (cost, map) = solve(members.clone(), zones.clone()).unwrap();
    assert_eq!(map.len(), 2);
    let mut seen: Vec<String> = Vec::new();
    let mut require = 0u64;
    let mut overflow = 0u64;
    for (i, (z, ms)) in map.iter().enumerate() {
        assert_eq!(z, &zones[i]);
        assert_eq!(ms.len(), 3);
        for m in ms {
            assert!(!seen.contains(&m.name));
            assert!(members.contains(m));
            seen.push(m.name.clone());
        }
        let c = z.calc(ms);
        require += c.require;
        overflow += c.overflow;
    }
    assert_eq!((require, overflow), key(&cost));
    assert_eq!(key(&cost), brute_force_two_zones(&members, &zones));
}

#[test]
fn repeated_calls_give_equal_cost() {
    let first = solve(default_members(), default_zones()).unwrap();
    let second = solve(default_members(), default_zones()).unwrap();
    assert_eq!(first.0, second.0);
}

#[test]
fn stronger_member_never_raises_shortfall() {
    let members = default_members();
    let before = solve(members.clone(), default_zones()).unwrap().0;
    for i in 0..members.len() {
        let mut stronger = members.clone();
        let a = stronger[i].attr;
        stronger[i].attr = Attribute::new(a.time + 7, a.value + 3, a.popularity);
        let after = solve(stronger, default_zones()).unwrap().0;
        assert!(after.require <= before.require);
    }
}

#[test]
fn stronger_member_may_raise_overflow() {
    let zones = vec![zone("z", (0, 0, 0), (0, 0, 0), (30, 30, 30))];
    let mut members = three_tens();
    members[0].attr = Attribute::new(11, 10, 10);
    let (cost, _) = solve(members, zones).unwrap();
    assert_eq!(cost, CalcResult::new(0, 1));
}

#[test]
fn three_zones_chain_uses_disjoint_members() {
    let members: Vec<MemberInfo> = (0..9).map(|i| member(&format!("m{i}"), i, 9 - i, i % 3)).collect();
    let zones = vec![
        zone("z0", (0, 0, 0), (0, 0, 0), (10, 10, 10)),
        zone("z1", (0, 0, 0), (0, 0, 0), (12, 12, 3)),
        zone("z2", (0, 0, 0), (0, 0, 0), (20, 5, 2)),
    ];
    let (cost, map) = solve(members, zones.clone()).unwrap();
    assert_eq!(map.len(), 3);
    let mut names: Vec<String> = map.iter().flat_map(|(_, ms)| ms.iter().map(|m| m.name.clone())).collect();
    names.sort();
    names.dedup();
    assert_eq!(names.len(), 9);
    let (mut r, mut o) = (0, 0);
    for (z, ms) in &map {
        let c = z.calc(ms);
        r += c.require;
        o += c.overflow;
    }
    assert_eq!((r, o), key(&cost));
}

#[test]
fn zones_beyond_the_members_stay_unassigned() {
    let members: Vec<MemberInfo> = (0..7).map(|i| member(&format!("m{i}"), i, i, i)).collect();
    let zones = vec![
        zone("z0", (0, 0, 0), (0, 0, 0), (3, 3, 3)),
        zone("z1", (0, 0, 0), (0, 0, 0), (9, 9, 9)),
        zone("z2", (0, 0, 0), (0, 0, 0), (9, 9, 9)),
    ];
    let (_, map) = solve(members, zones).unwrap();
    assert_eq!(map.len(), 2);
    assert_eq!(map[0].0.name, "z0");
    assert_eq!(map[1].0.name, "z1");
}

#[test]
fn large_attributes_within_range_are_solved() {
    let big = 1i64 << 40;
    let members = vec![
        member("a", big, -big, big),
        member("b", big, big, -big),
        member("c", -big, big, big),
        member("d", 0, 0, 0),
    ];
    let zones = vec![zone("z", (big, big, big), (0, 0, 0), (-big, -big, -big))];
    let (cost, map) = solve(members, zones).unwrap();
    assert_eq!(map.len(), 1);
    let c = map[0].0.calc(&map[0].1);
    assert_eq!(cost, c);
    assert_eq!(cost.require, 0);
}
