use vstd::prelude::*;

use crate::stops::{StopIndex, StopRecord, matching_rows, stop_rows_view};
use crate::trace::{RaptorOutput, Round, RoundV, RouteExplorationV, TransferExplorationV};

verus! {

/// The stops a sequence of route explorations refers to: the concatenation
/// of their explored stops, in order, not deduplicated.
pub open spec fn route_stop_ids(es: Seq<RouteExplorationV>) -> Seq<i64>
    decreases es.len(),
{
    if es.len() == 0 {
        Seq::empty()
    } else {
        route_stop_ids(es.drop_last()) + es.last().explored_stops
    }
}

/// The stops a sequence of transfer explorations refers to: the
/// concatenation of their reached stops, in order, not deduplicated.
pub open spec fn transfer_stop_ids(es: Seq<TransferExplorationV>) -> Seq<i64>
    decreases es.len(),
{
    if es.len() == 0 {
        Seq::empty()
    } else {
        transfer_stop_ids(es.drop_last()) + es.last().reached_stops
    }
}

/// The stop identifiers a round refers to, by its kind.
pub open spec fn round_stop_ids(r: RoundV) -> Seq<i64> {
    match r {
        RoundV::Init { marked_stops } => marked_stops,
        RoundV::Route { explorations } => route_stop_ids(explorations),
        RoundV::Transfer { explorations } => transfer_stop_ids(explorations),
    }
}

/// Copies the stop identifiers referred to by `round` into one vector.
fn collect_round_ids(round: &Round) -> (r: Vec<i64>)
    ensures
        r@ == round_stop_ids(round@),
{
    match round {
        Round::Init { marked_stops } => {
            let mut ids: Vec<i64> = Vec::new();
            let mut i: usize = 0;
            while i < marked_stops.len()
                invariant
                    i <= marked_stops@.len(),
                    ids@ =~= marked_stops@.subrange(0, i as int),
                decreases marked_stops@.len() - i,
            {
                ids.push(marked_stops[i]);
                proof {
                    assert(ids@ =~= marked_stops@.subrange(0, i + 1 as int));
                }
                i += 1;
            }
            proof {
                assert(marked_stops@.subrange(0, marked_stops@.len() as int) =~= marked_stops@);
            }
            ids
        },
        Round::Route { explorations } => {
            let ghost esv = explorations@.map_values(|e: crate::trace::RouteExploration| e@);
            let mut ids: Vec<i64> = Vec::new();
            let mut i: usize = 0;
            proof {
                assert(esv.subrange(0, 0) =~~= Seq::<RouteExplorationV>::empty());
            }
            while i < explorations.len()
                invariant
                    i <= explorations@.len(),
                    esv == explorations@.map_values(|e: crate::trace::RouteExploration| e@),
                    esv.len() == explorations@.len(),
                    ids@ == route_stop_ids(esv.subrange(0, i as int)),
                decreases explorations@.len() - i,
            {
                let ghost pre = esv.subrange(0, i as int);
                let ghost post = esv.subrange(0, i + 1 as int);
                proof {
                    assert(post.drop_last() =~~= pre);
                    assert(post.last() == esv[i as int]);
                }
                let stops = &explorations[i].explored_stops;
                let mut j: usize = 0;
                while j < stops.len()
                    invariant
                        j <= stops@.len(),
                        stops@ == esv[i as int].explored_stops,
                        0 <= i < esv.len(),
                        pre == esv.subrange(0, i as int),
                        ids@ == route_stop_ids(pre) + stops@.subrange(0, j as int),
                    decreases stops@.len() - j,
                {
                    ids.push(stops[j]);
                    proof {
                        assert(route_stop_ids(pre) + stops@.subrange(0, j + 1 as int) =~= (
                        route_stop_ids(pre) + stops@.subrange(0, j as int)).push(
                            stops@[j as int],
                        ));
                    }
                    j += 1;
                }
                proof {
                    assert(stops@.subrange(0, stops@.len() as int) =~= stops@);
                    assert(ids@ =~= route_stop_ids(post));
                }
                i += 1;
            }
            proof {
                assert(esv.subrange(0, explorations@.len() as int) =~~= esv);
            }
            ids
        },
        Round::Transfer { explorations } => {
            let ghost esv = explorations@.map_values(
                |e: crate::trace::TransferExploration| e@,
            );
            let mut ids: Vec<i64> = Vec::new();
            let mut i: usize = 0;
            proof {
                assert(esv.subrange(0, 0) =~~= Seq::<TransferExplorationV>::empty());
            }
            while i < explorations.len()
                invariant
                    i <= explorations@.len(),
                    esv == explorations@.map_values(|e: crate::trace::TransferExploration| e@),
                    esv.len() == explorations@.len(),
                    ids@ == transfer_stop_ids(esv.subrange(0, i as int)),
                decreases explorations@.len() - i,
            {
                let ghost pre = esv.subrange(0, i as int);
                let ghost post = esv.subrange(0, i + 1 as int);
                proof {
                    assert(post.drop_last() =~~= pre);
                    assert(post.last() == esv[i as int]);
                }
                let stops = &explorations[i].reached_stops;
                let mut j: usize = 0;
                while j < stops.len()
                    invariant
                        j <= stops@.len(),
                        stops@ == esv[i as int].reached_stops,
                        0 <= i < esv.len(),
                        pre == esv.subrange(0, i as int),
                        ids@ == transfer_stop_ids(pre) + stops@.subrange(0, j as int),
                    decreases stops@.len() - j,
                {
                    ids.push(stops[j]);
                    proof {
                        assert(transfer_stop_ids(pre) + stops@.subrange(0, j + 1 as int) =~= (
                        transfer_stop_ids(pre) + stops@.subrange(0, j as int)).push(
                            stops@[j as int],
                        ));
                    }
                    j += 1;
                }
                proof {
                    assert(stops@.subrange(0, stops@.len() as int) =~= stops@);
                    assert(ids@ =~= transfer_stop_ids(post));
                }
                i += 1;
            }
            proof {
                assert(esv.subrange(0, explorations@.len() as int) =~~= esv);
            }
            ids
        },
    }
}

/// Resolves the stops a round refers to against the stop table.
///
/// An index at or past the end of the trace yields the empty sequence, not
/// an error. Otherwise the round's referenced identifiers are matched
/// against the table: the result holds, in the table's row order, exactly
/// the rows whose offset the round refers to, so unmatched identifiers are
/// silently absent and repeated references add nothing.
pub fn resolve_round_stops(output: &RaptorOutput, stop_index: &StopIndex, round_index: usize) -> (r:
    Vec<StopRecord>)
    ensures
        round_index < output@.len() ==> stop_rows_view(r@) == matching_rows(
            stop_index@,
            round_stop_ids(output@[round_index as int]),
        ),
        round_index >= output@.len() ==> r@ == Seq::<StopRecord>::empty(),
{
    if round_index >= output.rounds.len() {
        let r: Vec<StopRecord> = Vec::new();
        proof {
            assert(r@ =~= Seq::<StopRecord>::empty());
        }
        return r;
    }
    let round = &output.rounds[round_index];
    proof {
        assert(output@[round_index as int] == output.rounds@[round_index as int]@);
    }
    let ids = collect_round_ids(round);
    stop_index.lookup_many(&ids)
}

} // verus!
