use vstd::prelude::*;

verus! {

/// One scanned route inside a `Round::Route`: the route's identifier and the
/// stops explored along it, in the order the log listed them.
#[derive(Debug)]
pub struct RouteExploration {
    pub route_id: i64,
    pub explored_stops: Vec<i64>,
}

pub struct RouteExplorationV {
    pub route_id: i64,
    pub explored_stops: Seq<i64>,
}

impl View for RouteExploration {
    type V = RouteExplorationV;

    open spec fn view(&self) -> RouteExplorationV {
        RouteExplorationV { route_id: self.route_id, explored_stops: self.explored_stops@ }
    }
}

/// One transfer inside a `Round::Transfer`: the stop the transfer starts
/// from and the stops reached by it, in log order.
#[derive(Debug)]
pub struct TransferExploration {
    pub marked_stop: i64,
    pub reached_stops: Vec<i64>,
}

pub struct TransferExplorationV {
    pub marked_stop: i64,
    pub reached_stops: Seq<i64>,
}

impl View for TransferExploration {
    type V = TransferExplorationV;

    open spec fn view(&self) -> TransferExplorationV {
        TransferExplorationV { marked_stop: self.marked_stop, reached_stops: self.reached_stops@ }
    }
}

/// One round of the routing trace: the seed stops, a route-scan phase, or a
/// transfer-scan phase.
#[allow(inconsistent_fields)]
#[derive(Debug)]
pub enum Round {
    Init { marked_stops: Vec<i64> },
    Route { explorations: Vec<RouteExploration> },
    Transfer { explorations: Vec<TransferExploration> },
}

#[allow(inconsistent_fields)]
pub enum RoundV {
    Init { marked_stops: Seq<i64> },
    Route { explorations: Seq<RouteExplorationV> },
    Transfer { explorations: Seq<TransferExplorationV> },
}

impl View for Round {
    type V = RoundV;

    open spec fn view(&self) -> RoundV {
        match self {
            Round::Init { marked_stops } => RoundV::Init { marked_stops: marked_stops@ },
            Round::Route { explorations } => RoundV::Route {
                explorations: explorations@.map_values(|e: RouteExploration| e@),
            },
            Round::Transfer { explorations } => RoundV::Transfer {
                explorations: explorations@.map_values(|e: TransferExploration| e@),
            },
        }
    }
}

/// The three round kinds, used to report which kind of data line was
/// missing its mandatory field.
#[derive(Clone, Copy, Debug, PartialEq, Eq, Structural)]
pub enum RoundKind {
    Init,
    Route,
    Transfer,
}

pub open spec fn kind_of(r: RoundV) -> RoundKind {
    match r {
        RoundV::Init { .. } => RoundKind::Init,
        RoundV::Route { .. } => RoundKind::Route,
        RoundV::Transfer { .. } => RoundKind::Transfer,
    }
}

/// Why a trace failed to parse. `line` is the 1-based line number of the
/// offending input line.
///
/// `MalformedHeader` reports a header line without a usable round number, and
/// also a `round,0` header met while an earlier round was still open: round 0
/// must come first.
///
/// `MissingRequiredField` reports a route or transfer data line whose
/// mandatory identifier after the label token is absent or unreadable; one
/// such line aborts the whole parse, so no record is ever built with an
/// undefined identifier.
#[derive(Clone, Copy, Debug, PartialEq, Eq, Structural)]
pub enum ParseError {
    MalformedHeader { line: usize },
    MissingRequiredField { line: usize, kind: RoundKind },
}

/// The parsed trace: the rounds of one routing run, in order.
#[derive(Debug)]
pub struct RaptorOutput {
    pub rounds: Vec<Round>,
}

pub open spec fn rounds_view(rounds: Seq<Round>) -> Seq<RoundV> {
    rounds.map_values(|r: Round| r@)
}

impl View for RaptorOutput {
    type V = Seq<RoundV>;

    open spec fn view(&self) -> Seq<RoundV> {
        rounds_view(self.rounds@)
    }
}

impl RaptorOutput {
    /// How many rounds the trace holds.
    pub fn rounds_number(&self) -> (n: usize)
        ensures
            n == self@.len(),
    {
        self.rounds.len()
    }

    /// A fixed marker string for the surrounding application's liveness probe.
    #[allow(non_snake_case)]
    pub fn called_by_TS(&self) -> (r: String)
        ensures
            r@ == "TOTO"@,
    {
        "TOTO".to_owned()
    }
}

} // verus!
