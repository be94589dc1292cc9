use vstd::prelude::*;

use crate::attribute::Attribute;
use crate::parse::{attr_text, check_arg, decimal_i64, parse_attr, parse_i64};
use crate::session::{Outcome, UsageError};

verus! {

/// A command of the interactive session.
#[derive(Debug, Clone)]
pub enum Command {
    /// `addm <name> <attr>`
    AddMember(String, Attribute),
    /// `delm <name>`
    DelMember(String),
    /// `addz <name> base <attr> lvl <attr> req <attr>`
    AddZone(String, Attribute, Attribute, Attribute),
    /// `delz <name>`
    DelZone(String),
    /// `updz <name> lvl <attr>`
    UpdateLevel(String, Attribute),
    /// `updz <name> req <attr>`
    UpdateRequire(String, Attribute),
    /// `updz <name> scaler <percent>`
    UpdateScaler(String, u64),
    /// `load [path]`
    Load(Option<String>),
    /// `save [path]`
    Save(Option<String>),
    Clear,
    Solve,
    Help,
    Exit,
    /// Any other first word.
    Unknown,
}

/// `s` is the word `w`.
fn word_is(s: &String, w: &str) -> (r: bool)
    ensures
        r == (s@ == w@),
{
    let a = s.as_str();
    let n = a.unicode_len();
    if n != w.unicode_len() {
        return false;
    }
    let mut i: usize = 0;
    while i < n
        invariant
            n == a@.len() == w@.len(),
            a@ == s@,
            i <= n,
            forall|j: int| 0 <= j < i ==> a@[j] == w@[j],
        decreases n - i,
    {
        if a.get_char(i) != w.get_char(i) {
            return false;
        }
        i = i + 1;
    }
    assert(a@ =~= w@);
    true
}

/// The optional first argument.
fn first_arg(args: &Vec<String>) -> (r: Option<String>)
    ensures
        r == (if args@.len() > 0 {
            Some(args@[0])
        } else {
            None::<String>
        }),
{
    if args.len() > 0 {
        Some(args[0].clone())
    } else {
        None
    }
}

/// `addm <name> <attr>`
pub open spec fn add_member_of(args: Seq<String>) -> Result<Command, UsageError> {
    if args.len() == 2 && attr_text(args[1]@) is Some {
        Ok(Command::AddMember(args[0], attr_text(args[1]@)->0))
    } else {
        Err(UsageError::UnknownUsage)
    }
}

/// `delm <name>`
pub open spec fn del_member_of(args: Seq<String>) -> Result<Command, UsageError> {
    if args.len() == 1 {
        Ok(Command::DelMember(args[0]))
    } else {
        Err(UsageError::UnknownUsage)
    }
}

/// `addz <name> base <attr> lvl <attr> req <attr>`
pub open spec fn add_zone_of(args: Seq<String>) -> Result<Command, UsageError> {
    if args.len() == 7 && args[1]@ == seq!['b', 'a', 's', 'e'] && args[3]@ == seq!['l', 'v', 'l']
        && args[5]@ == seq!['r', 'e', 'q'] && attr_text(args[2]@) is Some && attr_text(args[4]@) is Some
        && attr_text(args[6]@) is Some {
        Ok(
            Command::AddZone(
                args[0],
                attr_text(args[2]@)->0,
                attr_text(args[4]@)->0,
                attr_text(args[6]@)->0,
            ),
        )
    } else {
        Err(UsageError::UnknownUsage)
    }
}

/// `delz <name>`
pub open spec fn del_zone_of(args: Seq<String>) -> Result<Command, UsageError> {
    if args.len() == 1 {
        Ok(Command::DelZone(args[0]))
    } else {
        Err(UsageError::UnknownUsage)
    }
}

/// `updz <name> lvl|req <attr>` or `updz <name> scaler <percent>`; a
/// negative percentage wraps around as a cast to `u64` does.
pub open spec fn update_zone_of(args: Seq<String>) -> Result<Command, UsageError> {
    if args.len() != 3 {
        Err(UsageError::UnknownUsage)
    } else if args[1]@ == seq!['l', 'v', 'l'] && attr_text(args[2]@) is Some {
        Ok(Command::UpdateLevel(args[0], attr_text(args[2]@)->0))
    } else if args[1]@ == seq!['r', 'e', 'q'] && attr_text(args[2]@) is Some {
        Ok(Command::UpdateRequire(args[0], attr_text(args[2]@)->0))
    } else if args[1]@ == seq!['s', 'c', 'a', 'l', 'e', 'r'] && decimal_i64(args[2]@) is Some {
        Ok(Command::UpdateScaler(args[0], (decimal_i64(args[2]@)->0 as i64) as u64))
    } else {
        Err(UsageError::UnknownUsage)
    }
}

/// The optional first argument.
pub open spec fn first_of(args: Seq<String>) -> Option<String> {
    if args.len() > 0 {
        Some(args[0])
    } else {
        None
    }
}

/// The command that the first word `cmd` and the arguments `args` give.
pub open spec fn command_of(cmd: Seq<char>, args: Seq<String>) -> Result<Command, UsageError> {
    if cmd == seq!['a', 'd', 'd', 'm'] {
        add_member_of(args)
    } else if cmd == seq!['d', 'e', 'l', 'm'] {
        del_member_of(args)
    } else if cmd == seq!['a', 'd', 'd', 'z'] {
        add_zone_of(args)
    } else if cmd == seq!['d', 'e', 'l', 'z'] {
        del_zone_of(args)
    } else if cmd == seq!['u', 'p', 'd', 'z'] {
        update_zone_of(args)
    } else if cmd == seq!['l', 'o', 'a', 'd'] {
        Ok(Command::Load(first_of(args)))
    } else if cmd == seq!['s', 'a', 'v', 'e'] {
        Ok(Command::Save(first_of(args)))
    } else if cmd == seq!['c', 'l', 'e', 'a', 'r'] {
        Ok(Command::Clear)
    } else if cmd == seq!['s', 'o', 'l', 'v', 'e'] {
        Ok(Command::Solve)
    } else if cmd == seq!['h', 'e', 'l', 'p'] {
        Ok(Command::Help)
    } else if cmd == seq!['e', 'x', 'i', 't'] {
        Ok(Command::Exit)
    } else {
        Ok(Command::Unknown)
    }
}

/// Reads a command from its first word and its arguments.
pub fn parse_command(cmd: &String, args: &Vec<String>) -> (r: Result<Command, UsageError>)
    ensures
        r == command_of(cmd@, args@),
{
    proof {
        reveal_strlit("addm");
        assert("addm"@ =~= seq!['a', 'd', 'd', 'm']);
        reveal_strlit("delm");
        assert("delm"@ =~= seq!['d', 'e', 'l', 'm']);
        reveal_strlit("addz");
        assert("addz"@ =~= seq!['a', 'd', 'd', 'z']);
        reveal_strlit("delz");
        assert("delz"@ =~= seq!['d', 'e', 'l', 'z']);
        reveal_strlit("updz");
        assert("updz"@ =~= seq!['u', 'p', 'd', 'z']);
        reveal_strlit("base");
        assert("base"@ =~= seq!['b', 'a', 's', 'e']);
        reveal_strlit("lvl");
        assert("lvl"@ =~= seq!['l', 'v', 'l']);
        reveal_strlit("req");
        assert("req"@ =~= seq!['r', 'e', 'q']);
        reveal_strlit("scaler");
        assert("scaler"@ =~= seq!['s', 'c', 'a', 'l', 'e', 'r']);
        reveal_strlit("load");
        assert("load"@ =~= seq!['l', 'o', 'a', 'd']);
        reveal_strlit("save");
        assert("save"@ =~= seq!['s', 'a', 'v', 'e']);
        reveal_strlit("clear");
        assert("clear"@ =~= seq!['c', 'l', 'e', 'a', 'r']);
        reveal_strlit("solve");
        assert("solve"@ =~= seq!['s', 'o', 'l', 'v', 'e']);
        reveal_strlit("help");
        assert("help"@ =~= seq!['h', 'e', 'l', 'p']);
        reveal_strlit("exit");
        assert("exit"@ =~= seq!['e', 'x', 'i', 't']);
    }
    if word_is(cmd, "addm") {
        assert(command_of(cmd@, args@) == add_member_of(args@));
        if check_arg(args, 2).is_err() {
            return Err(UsageError::UnknownUsage);
        }
        let attr = parse_attr(args[1].as_str())?;
        Ok(Command::AddMember(args[0].clone(), attr))
    } else if word_is(cmd, "delm") {
        assert(command_of(cmd@, args@) == del_member_of(args@));
        if check_arg(args, 1).is_err() {
            return Err(UsageError::UnknownUsage);
        }
        Ok(Command::DelMember(args[0].clone()))
    } else if word_is(cmd, "addz") {
        assert(command_of(cmd@, args@) == add_zone_of(args@));
        if check_arg(args, 7).is_err() {
            return Err(UsageError::UnknownUsage);
        }
        let kb = word_is(&args[1], "base");
        let kl = word_is(&args[3], "lvl");
        let kr = word_is(&args[5], "req");
        assert(kb == (args@[1]@ == seq!['b', 'a', 's', 'e']));
        assert(kl == (args@[3]@ == seq!['l', 'v', 'l']));
        assert(kr == (args@[5]@ == seq!['r', 'e', 'q']));
        if !kb || !kl || !kr {
            return Err(UsageError::UnknownUsage);
        }
        let base = parse_attr(args[2].as_str())?;
        let sub_level = parse_attr(args[4].as_str())?;
        let require = parse_attr(args[6].as_str())?;
        Ok(Command::AddZone(args[0].clone(), base, sub_level, require))
    } else if word_is(cmd, "delz") {
        assert(command_of(cmd@, args@) == del_zone_of(args@));
        if check_arg(args, 1).is_err() {
            return Err(UsageError::UnknownUsage);
        }
        Ok(Command::DelZone(args[0].clone()))
    } else if word_is(cmd, "updz") {
        assert(command_of(cmd@, args@) == update_zone_of(args@));
        if check_arg(args, 3).is_err() {
            return Err(UsageError::UnknownUsage);
        }
        if word_is(&args[1], "lvl") {
            let a = parse_attr(args[2].as_str())?;
            Ok(Command::UpdateLevel(args[0].clone(), a))
        } else if word_is(&args[1], "req") {
            let a = parse_attr(args[2].as_str())?;
            Ok(Command::UpdateRequire(args[0].clone(), a))
        } else if word_is(&args[1], "scaler") {
            let v = parse_i64(args[2].as_str())?;
            Ok(Command::UpdateScaler(args[0].clone(), #[verifier::truncate] (v as u64)))
        } else {
            Err(UsageError::UnknownUsage)
        }
    } else if word_is(cmd, "load") {
        assert(command_of(cmd@, args@) == Ok::<Command, UsageError>(Command::Load(first_of(args@))));
        Ok(Command::Load(first_arg(args)))
    } else if word_is(cmd, "save") {
        assert(command_of(cmd@, args@) == Ok::<Command, UsageError>(Command::Save(first_of(args@))));
        Ok(Command::Save(first_arg(args)))
    } else if word_is(cmd, "clear") {
        assert(command_of(cmd@, args@) == Ok::<Command, UsageError>(Command::Clear));
        Ok(Command::Clear)
    } else if word_is(cmd, "solve") {
        assert(command_of(cmd@, args@) == Ok::<Command, UsageError>(Command::Solve));
        Ok(Command::Solve)
    } else if word_is(cmd, "help") {
        assert(command_of(cmd@, args@) == Ok::<Command, UsageError>(Command::Help));
        Ok(Command::Help)
    } else if word_is(cmd, "exit") {
        assert(command_of(cmd@, args@) == Ok::<Command, UsageError>(Command::Exit));
        Ok(Command::Exit)
    } else {
        assert(command_of(cmd@, args@) == Ok::<Command, UsageError>(Command::Unknown));
        Ok(Command::Unknown)
    }
}

impl Command {
    /// How the loop goes on once the command has succeeded: quietly after
    /// commands that print a report, out of the loop after `exit`, and
    /// quietly after an unknown command.
    pub fn outcome(&self) -> (r: Outcome)
        ensures
            r == (match *self {
                Command::Save(_) | Command::Solve | Command::Help | Command::Unknown => {
                    Outcome::ContinueQuiet
                },
                Command::Exit => Outcome::Terminate,
                _ => Outcome::Continue,
            }),
    {
        match self {
            Command::Save(_) | Command::Solve | Command::Help | Command::Unknown => {
                Outcome::ContinueQuiet
            },
            Command::Exit => Outcome::Terminate,
            _ => Outcome::Continue,
        }
    }
}

} // verus!
