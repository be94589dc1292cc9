use museum_solver::{
    check_arg, parse_attr, parse_command, parse_i64, Attribute, Command, Outcome, State, UsageError,
};

fn s(x: &str) -> String {
    x.to_string()
}

#[test]
fn add_member_replaces_same_name() {
    let mut st = State::new();
    st.add_member(s("a"), Attribute::new(1, 2, 3));
    st.add_member(s("b"), Attribute::new(4, 5, 6));
    st.add_member(s("a"), Attribute::new(7, 8, 9));
    assert_eq!(st.members.len(), 2);
    assert_eq!(st.members[0].name, "b");
    assert_eq!(st.members[1].name, "a");
    assert_eq!(st.members[1].attr, Attribute::new(7, 8, 9));
    st.del_member(&s("b"));
    assert_eq!(st.members.len(), 1);
    st.del_member(&s("nobody"));
    assert_eq!(st.members.len(), 1);
    st.clear();
    assert!(st.members.is_empty() && st.zones.is_empty());
}

#[test]
fn zones_are_added_replaced_and_updated() {
    let mut st = State::new();
    let a = Attribute::new(1, 1, 1);
    st.add_zone(s("z"), a, a, a);
    st.add_zone(s("y"), a, a, a);
    st.add_zone(s("z"), a, a, Attribute::new(9, 9, 9));
    assert_eq!(st.zones.len(), 2);
    assert_eq!(st.zones[1].name, "z");
    assert_eq!(st.zones[1].base_scaler, 100);
    assert_eq!(st.update_zone_level(&s("y"), Attribute::new(2, 3, 4)), Ok(()));
    assert_eq!(st.zones[0].sub_level, Attribute::new(2, 3, 4));
    assert_eq!(st.update_zone_require(&s("z"), Attribute::new(5, 5, 5)), Ok(()));
    assert_eq!(st.zones[1].require, Attribute::new(5, 5, 5));
    assert_eq!(st.update_zone_scaler(&s("z"), 80), Ok(()));
    assert_eq!(st.zones[1].base_scaler, 80);
    assert_eq!(st.update_zone_scaler(&s("x"), 80), Err(UsageError::UnknownUsage));
    assert_eq!(st.update_zone_level(&s("x"), a), Err(UsageError::UnknownUsage));
    assert_eq!(st.update_zone_require(&s("x"), a), Err(UsageError::UnknownUsage));
    assert_eq!(st.find_zone(&s("z")), Some(1));
    st.del_zone(&s("y"));
    assert_eq!(st.zones.len(), 1);
    assert_eq!(st.find_zone(&s("y")), None);
}

#[test]
fn integers_parse_in_decimal() {
    assert_eq!(parse_i64("42"), Ok(42));
    assert_eq!(parse_i64("-17"), Ok(-17));
    assert_eq!(parse_i64("+5"), Ok(5));
    assert_eq!(parse_i64("9223372036854775807"), Ok(i64::MAX));
    assert_eq!(parse_i64("9223372036854775808"), Err(UsageError::UnknownUsage));
    assert_eq!(parse_i64(""), Err(UsageError::UnknownUsage));
    assert_eq!(parse_i64("-"), Err(UsageError::UnknownUsage));
    assert_eq!(parse_i64("1x"), Err(UsageError::UnknownUsage));
    assert_eq!(parse_i64(" 1"), Err(UsageError::UnknownUsage));
}

#[test]
fn attributes_parse_as_three_slashed_integers() {
    assert_eq!(parse_attr("80/-80/0"), Ok(Attribute::new(80, -80, 0)));
    assert_eq!(parse_attr("1/2"), Err(UsageError::UnknownUsage));
    assert_eq!(parse_attr("1/2/3/4"), Err(UsageError::UnknownUsage));
    assert_eq!(parse_attr("1/x/3"), Err(UsageError::UnknownUsage));
    assert_eq!(parse_attr("1//3"), Err(UsageError::UnknownUsage));
}

#[test]
fn argument_count_is_checked() {
    assert_eq!(check_arg(&vec![s("a"), s("b")], 2), Ok(()));
    assert_eq!(check_arg(&vec![s("a")], 2), Err(UsageError::UnknownUsage));
}

fn cmd(line: &str) -> Result<Command, UsageError> {
    let mut words = line.split(' ');
    let first = s(words.next().unwrap());
    let args: Vec<String> = words.map(s).collect();
    parse_command(&first, &args)
}

#[test]
fn commands_parse() {
    match cmd("addm ann 1/2/3") {
        Ok(Command::AddMember(n, a)) => {
            assert_eq!(n, "ann");
            assert_eq!(a, Attribute::new(1, 2, 3));
        },
        _ => panic!("addm"),
    }
    match cmd("addz hall base 80/80/80 lvl 3/6/2 req 205/245/150") {
        Ok(Command::AddZone(n, b, l, r)) => {
            assert_eq!(n, "hall");
            assert_eq!(b, Attribute::new(80, 80, 80));
            assert_eq!(l, Attribute::new(3, 6, 2));
            assert_eq!(r, Attribute::new(205, 245, 150));
        },
        _ => panic!("addz"),
    }
    assert!(cmd("addz hall bass 80/80/80 lvl 3/6/2 req 205/245/150").is_err());
    assert!(cmd("addm ann").is_err());
    assert!(cmd("addm ann 1/2").is_err());
    assert!(matches!(cmd("delm ann"), Ok(Command::DelMember(n)) if n == "ann"));
    assert!(matches!(cmd("delz hall"), Ok(Command::DelZone(n)) if n == "hall"));
    assert!(matches!(cmd("updz hall lvl 1/2/3"), Ok(Command::UpdateLevel(_, a)) if a == Attribute::new(1, 2, 3)));
    assert!(matches!(cmd("updz hall req 4/5/6"), Ok(Command::UpdateRequire(_, a)) if a == Attribute::new(4, 5, 6)));
    assert!(matches!(cmd("updz hall scaler 90"), Ok(Command::UpdateScaler(_, 90))));
    assert!(matches!(cmd("updz hall scaler -1"), Ok(Command::UpdateScaler(_, u64::MAX))));
    assert!(cmd("updz hall size 90").is_err());
    assert!(matches!(cmd("load"), Ok(Command::Load(None))));
    assert!(matches!(cmd("save out.json"), Ok(Command::Save(Some(p))) if p == "out.json"));
    assert!(matches!(cmd("clear"), Ok(Command::Clear)));
    assert!(matches!(cmd("solve"), Ok(Command::Solve)));
    assert!(matches!(cmd("help"), Ok(Command::Help)));
    assert!(matches!(cmd("exit"), Ok(Command::Exit)));
    assert!(matches!(cmd("dance"), Ok(Command::Unknown)));
}

#[test]
fn outcomes_follow_commands() {
    assert_eq!(Command::Exit.outcome(), Outcome::Terminate);
    assert_eq!(Command::Solve.outcome(), Outcome::ContinueQuiet);
    assert_eq!(Command::Save(None).outcome(), Outcome::ContinueQuiet);
    assert_eq!(Command::Help.outcome(), Outcome::ContinueQuiet);
    assert_eq!(Command::Unknown.outcome(), Outcome::ContinueQuiet);
    assert_eq!(Command::Clear.outcome(), Outcome::Continue);
    assert_eq!(Command::DelMember(s("a")).outcome(), Outcome::Continue);
}
