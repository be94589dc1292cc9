//! Assignment of member triples to an ordered list of zones, minimising the
//! summed shortfall against each zone's requirement and then the summed
//! overflow beyond it, with the session state and command parsing around
//! it. Also: a solver for the three-ring navigation compass puzzle, and the
//! length-header framing that stores a byte payload as image pixels.

pub mod attribute;
pub mod command;
pub mod compass;
pub mod cost;
pub mod frame;
pub mod laws;
pub mod parse;
pub mod plan;
pub mod session;
pub mod solver;
pub mod state;
pub mod zone;

pub use attribute::{Attribute, ATTR_LIMIT};
pub use command::{parse_command, Command};
pub use compass::{
    navigation_compass_solve, parse_linkage, parse_linkages, Action, Linkage, LinkageError,
    NavigationCompass, Ring,
};
pub use cost::CalcResult;
pub use frame::{frame, unframe, HEADER_SIZE};
pub use parse::{check_arg, parse_attr, parse_i64};
pub use plan::POOL_LIMIT;
pub use session::{Outcome, State, UsageError};
pub use solver::solve;
pub use state::SolveState;
pub use zone::{MemberInfo, Zone};
