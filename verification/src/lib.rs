pub mod laws;
pub mod numbers;
pub mod parser;
pub mod resolver;
pub mod stops;
pub mod text;
pub mod trace;

pub use parser::parse;
pub use parser::parse_and_process_raptor_output;
pub use resolver::resolve_round_stops;
pub use stops::StopIndex;
pub use stops::StopRecord;
pub use trace::ParseError;
pub use trace::RaptorOutput;
pub use trace::Round;
pub use trace::RoundKind;
pub use trace::RouteExploration;
pub use trace::TransferExploration;

use vstd::prelude::*;

verus! {

/// Returns its input unchanged as an owned string.
pub fn echo(input: &str) -> (r: String)
    ensures
        r@ == input@,
{
    input.to_owned()
}

} // verus!
