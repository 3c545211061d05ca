use vstd::prelude::*;

use crate::numbers::{parse_i64_token, parse_u64_token, spec_parse_i64, spec_parse_u64};
use crate::text::{chars_of, lemma_split_on_nonempty, split_on, split_range, strip_cr};
use crate::trace::{
    ParseError, RaptorOutput, Round, RoundKind, RoundV, RouteExploration, RouteExplorationV,
    TransferExploration, TransferExplorationV, rounds_view,
};

verus! {

/// The literal first token that marks a header line.
pub open spec fn round_label() -> Seq<char> {
    seq!['r', 'o', 'u', 'n', 'd']
}

/// The comma tokens of a line, after the carriage-return strip.
pub open spec fn header_tokens(raw: Seq<char>) -> Seq<Seq<char>> {
    split_on(strip_cr(raw), ',')
}

/// A header line: non-blank, with the label `round` as its first token.
pub open spec fn is_header_line(raw: Seq<char>) -> bool {
    strip_cr(raw).len() > 0 && header_tokens(raw)[0] == round_label()
}

/// The round number of a header line: the last token that reads as a
/// non-negative integer; `None` when no token does.
pub open spec fn last_round_number(toks: Seq<Seq<char>>) -> Option<u64>
    decreases toks.len(),
{
    if toks.len() == 0 {
        None
    } else if spec_parse_u64(toks.last()) is Some {
        spec_parse_u64(toks.last())
    } else {
        last_round_number(toks.drop_last())
    }
}

/// The integers among a token sequence, in order; tokens that do not read as
/// integers are skipped individually.
pub open spec fn parsed_ints(toks: Seq<Seq<char>>) -> Seq<i64>
    decreases toks.len(),
{
    if toks.len() == 0 {
        Seq::empty()
    } else {
        let r = parsed_ints(toks.drop_last());
        match spec_parse_i64(toks.last()) {
            Some(v) => r.push(v),
            None => r,
        }
    }
}

/// The state of the fold that builds the trace: the round still open, and
/// the rounds already closed, in order.
pub struct ParseState {
    pub open_round: Option<RoundV>,
    pub closed: Seq<RoundV>,
}

pub open spec fn initial_state() -> ParseState {
    ParseState { open_round: None, closed: Seq::empty() }
}

/// Closing the open round appends it to the closed rounds; with no open
/// round there is nothing to close.
pub open spec fn close_open(st: ParseState) -> Seq<RoundV> {
    match st.open_round {
        Some(r) => st.closed.push(r),
        None => st.closed,
    }
}

/// The round a header with number `n > 0` opens: route scans on odd rounds,
/// transfer scans on even ones.
pub open spec fn fresh_round(n: u64) -> RoundV {
    if n % 2 == 1 {
        RoundV::Route { explorations: Seq::empty() }
    } else {
        RoundV::Transfer { explorations: Seq::empty() }
    }
}

/// One data line, dispatched on the kind of the open round. With no open
/// round the line is discarded. An `Init` line contributes every readable
/// integer. A route or transfer line loses its leading label token, must
/// then carry its mandatory identifier, and contributes the readable
/// integers of the remaining tokens.
pub open spec fn step_data(st: ParseState, toks: Seq<Seq<char>>, line_no: usize) -> Result<
    ParseState,
    ParseError,
> {
    match st.open_round {
        None => Ok(st),
        Some(RoundV::Init { marked_stops }) => Ok(
            ParseState {
                open_round: Some(RoundV::Init { marked_stops: marked_stops + parsed_ints(toks) }),
                closed: st.closed,
            },
        ),
        Some(RoundV::Route { explorations }) => {
            if toks.len() < 2 {
                Err(ParseError::MissingRequiredField { line: line_no, kind: RoundKind::Route })
            } else {
                match spec_parse_i64(toks[1]) {
                    None => Err(
                        ParseError::MissingRequiredField { line: line_no, kind: RoundKind::Route },
                    ),
                    Some(rid) => Ok(
                        ParseState {
                            open_round: Some(
                                RoundV::Route {
                                    explorations: explorations.push(
                                        RouteExplorationV {
                                            route_id: rid,
                                            explored_stops: parsed_ints(
                                                toks.subrange(2, toks.len() as int),
                                            ),
                                        },
                                    ),
                                },
                            ),
                            closed: st.closed,
                        },
                    ),
                }
            }
        },
        Some(RoundV::Transfer { explorations }) => {
            if toks.len() < 2 {
                Err(ParseError::MissingRequiredField { line: line_no, kind: RoundKind::Transfer })
            } else {
                match spec_parse_i64(toks[1]) {
                    None => Err(
                        ParseError::MissingRequiredField {
                            line: line_no,
                            kind: RoundKind::Transfer,
                        },
                    ),
                    Some(ms) => Ok(
                        ParseState {
                            open_round: Some(
                                RoundV::Transfer {
                                    explorations: explorations.push(
                                        TransferExplorationV {
                                            marked_stop: ms,
                                            reached_stops: parsed_ints(
                                                toks.subrange(2, toks.len() as int),
                                            ),
                                        },
                                    ),
                                },
                            ),
                            closed: st.closed,
                        },
                    ),
                }
            }
        },
    }
}

/// One raw input line. Blank lines (also a lone carriage return) are
/// skipped. A line whose first comma-separated token is `round` is a header:
/// without a readable round number it is malformed; number 0 opens the
/// `Init` round and is only legal while no round is open; any other number
/// closes the open round and opens a fresh one by parity. Every other line
/// is a data line.
pub open spec fn step_line(st: ParseState, raw: Seq<char>, line_no: usize) -> Result<
    ParseState,
    ParseError,
> {
    let l = strip_cr(raw);
    if l.len() == 0 {
        Ok(st)
    } else {
        let toks = split_on(l, ',');
        if toks[0] == round_label() {
            match last_round_number(toks) {
                None => Err(ParseError::MalformedHeader { line: line_no }),
                Some(n) => {
                    if n == 0 {
                        if st.open_round is Some {
                            Err(ParseError::MalformedHeader { line: line_no })
                        } else {
                            Ok(
                                ParseState {
                                    open_round: Some(
                                        RoundV::Init { marked_stops: Seq::empty() },
                                    ),
                                    closed: st.closed,
                                },
                            )
                        }
                    } else {
                        Ok(ParseState { open_round: Some(fresh_round(n)), closed: close_open(st) })
                    }
                },
            }
        } else {
            step_data(st, toks, line_no)
        }
    }
}

/// Folds the first `lines.len()` input lines, numbering them from 1.
pub open spec fn run_lines(lines: Seq<Seq<char>>) -> Result<ParseState, ParseError>
    decreases lines.len(),
{
    if lines.len() == 0 {
        Ok(initial_state())
    } else {
        match run_lines(lines.drop_last()) {
            Err(e) => Err(e),
            Ok(st) => step_line(st, lines.last(), lines.len() as usize),
        }
    }
}

/// What `parse` returns on a given input text: the closed rounds followed by
/// the round still open at end of input, or the first error met.
pub open spec fn spec_parse(text: Seq<char>) -> Result<Seq<RoundV>, ParseError> {
    match run_lines(split_on(text, '\n')) {
        Ok(st) => Ok(close_open(st)),
        Err(e) => Err(e),
    }
}

pub open spec fn opt_round_view(o: Option<Round>) -> Option<RoundV> {
    match o {
        Some(r) => Some(r@),
        None => None,
    }
}

/// The executable outcome agrees with the specified one: same trace on
/// success, same error otherwise.
pub open spec fn parse_matches(
    r: Result<RaptorOutput, ParseError>,
    s: Result<Seq<RoundV>, ParseError>,
) -> bool {
    match (r, s) {
        (Ok(o), Ok(t)) => o@ == t,
        (Err(a), Err(b)) => a == b,
        _ => false,
    }
}

/// Once a prefix of the lines fails, the whole run fails the same way.
pub proof fn lemma_run_err_prefix(lines: Seq<Seq<char>>, k: int)
    requires
        0 <= k <= lines.len(),
        run_lines(lines.subrange(0, k)) is Err,
    ensures
        run_lines(lines) == run_lines(lines.subrange(0, k)),
    decreases lines.len() - k,
{
    if k == lines.len() {
        assert(lines.subrange(0, k) =~~= lines);
    } else {
        let next = lines.subrange(0, k + 1);
        assert(next.drop_last() =~~= lines.subrange(0, k));
        lemma_run_err_prefix(lines, k + 1);
    }
}

pub proof fn lemma_deep_elem(v: &Vec<Vec<char>>, i: int)
    requires
        0 <= i < v@.len(),
    ensures
        v.deep_view()[i] == v@[i]@,
{
    assert(v.deep_view()[i] =~= v@[i]@);
}

/// Tests whether a token is the header label `round`.
fn is_round_label(t: &Vec<char>) -> (r: bool)
    ensures
        r == (t@ == round_label()),
{
    if t.len() != 5 {
        return false;
    }
    let r = t[0] == 'r' && t[1] == 'o' && t[2] == 'u' && t[3] == 'n' && t[4] == 'd';
    proof {
        if r {
            assert(t@ =~= round_label());
        }
    }
    r
}

/// Finds the round number of a header line's tokens.
fn find_round_number(toks: &Vec<Vec<char>>) -> (r: Option<u64>)
    ensures
        r == last_round_number(toks.deep_view()),
{
    let ghost all = toks.deep_view();
    let mut best: Option<u64> = None;
    let mut i: usize = 0;
    proof {
        assert(all.subrange(0, 0) =~~= Seq::<Seq<char>>::empty());
    }
    while i < toks.len()
        invariant
            i <= toks@.len(),
            all == toks.deep_view(),
            all.len() == toks@.len(),
            best == last_round_number(all.subrange(0, i as int)),
        decreases toks@.len() - i,
    {
        let ghost pre = all.subrange(0, i as int);
        let ghost post = all.subrange(0, i + 1 as int);
        proof {
            assert(post.drop_last() =~~= pre);
            assert(post.last() == all[i as int]);
            lemma_deep_elem(toks, i as int);
        }
        match parse_u64_token(&toks[i]) {
            Some(v) => {
                best = Some(v);
            },
            None => {},
        }
        i += 1;
    }
    proof {
        assert(all.subrange(0, toks@.len() as int) =~~= all);
    }
    best
}

/// Collects the readable integers of the tokens from `start` on.
fn collect_ints(toks: &Vec<Vec<char>>, start: usize) -> (r: Vec<i64>)
    requires
        start <= toks@.len(),
    ensures
        r@ == parsed_ints(toks.deep_view().subrange(start as int, toks@.len() as int)),
{
    let ghost all = toks.deep_view();
    let mut r: Vec<i64> = Vec::new();
    let mut i: usize = start;
    proof {
        assert(all.subrange(start as int, start as int) =~~= Seq::<Seq<char>>::empty());
    }
    while i < toks.len()
        invariant
            start <= i <= toks@.len(),
            all == toks.deep_view(),
            all.len() == toks@.len(),
            r@ == parsed_ints(all.subrange(start as int, i as int)),
        decreases toks@.len() - i,
    {
        let ghost pre = all.subrange(start as int, i as int);
        let ghost post = all.subrange(start as int, i + 1 as int);
        proof {
            assert(post.drop_last() =~~= pre);
            assert(post.last() == all[i as int]);
            lemma_deep_elem(toks, i as int);
        }
        match parse_i64_token(&toks[i]) {
            Some(v) => {
                r.push(v);
            },
            None => {},
        }
        i += 1;
    }
    proof {
        assert(all.subrange(start as int, toks@.len() as int) =~~= all.subrange(
            start as int,
            all.len() as int,
        ));
    }
    r
}

/// Parses a routing trace. The result holds exactly the rounds the input
/// opened, in order; the first malformed header or incomplete mandatory
/// field aborts the parse with its 1-based line number.
pub fn parse(input: &str) -> (r: Result<RaptorOutput, ParseError>)
    ensures
        parse_matches(r, spec_parse(input@)),
{
    let text = chars_of(input);
    proof {
        assert(text@.subrange(0, text@.len() as int) =~= text@);
    }
    let lines = split_range(&text, 0, text.len(), '\n');
    let ghost all = lines.deep_view();
    let mut open_round: Option<Round> = None;
    let mut closed: Vec<Round> = Vec::new();
    let mut i: usize = 0;
    proof {
        assert(all.subrange(0, 0) =~~= Seq::<Seq<char>>::empty());
        assert(rounds_view(closed@) =~~= Seq::<RoundV>::empty());
    }
    while i < lines.len()
        invariant
            i <= lines@.len(),
            all == lines.deep_view(),
            all == split_on(input@, '\n'),
            all.len() == lines@.len(),
            run_lines(all.subrange(0, i as int)) == Ok::<ParseState, ParseError>(
                ParseState {
                    open_round: opt_round_view(open_round),
                    closed: rounds_view(closed@),
                },
            ),
        decreases lines@.len() - i,
    {
        let ghost pre = all.subrange(0, i as int);
        let ghost post = all.subrange(0, i + 1 as int);
        let ghost st = ParseState {
            open_round: opt_round_view(open_round),
            closed: rounds_view(closed@),
        };
        let ghost line_no: usize = (i + 1) as usize;
        proof {
            assert(post.drop_last() =~~= pre);
            assert(post.last() == all[i as int]);
            lemma_deep_elem(&lines, i as int);
            assert(run_lines(post) == step_line(st, all[i as int], line_no));
        }
        let line = &lines[i];
        let end: usize = if line.len() > 0 && line[line.len() - 1] == '\r' {
            line.len() - 1
        } else {
            line.len()
        };
        proof {
            assert(line@.subrange(0, end as int) =~= strip_cr(all[i as int]));
        }
        if end == 0 {
            proof {
                assert(run_lines(post) == Ok::<ParseState, ParseError>(st));
            }
        } else {
            let toks = split_range(line, 0, end, ',');
            let ghost toksv = split_on(strip_cr(all[i as int]), ',');
            proof {
                assert(toks.deep_view() == toksv);
                lemma_split_on_nonempty(strip_cr(all[i as int]), ',');
                assert(toks@.len() == toksv.len());
                lemma_deep_elem(&toks, 0);
            }
            let header = is_round_label(&toks[0]);
            if header {
                match find_round_number(&toks) {
                    None => {
                        proof {
                            lemma_run_err_prefix(all, i + 1 as int);
                        }
                        return Err(ParseError::MalformedHeader { line: i + 1 });
                    },
                    Some(n) => {
                        if n == 0 {
                            if open_round.is_some() {
                                proof {
                                    lemma_run_err_prefix(all, i + 1 as int);
                                }
                                return Err(ParseError::MalformedHeader { line: i + 1 });
                            } else {
                                open_round = Some(Round::Init { marked_stops: Vec::new() });
                                proof {
                                    assert(opt_round_view(open_round) == Some(
                                        RoundV::Init { marked_stops: Seq::<i64>::empty() },
                                    ));
                                }
                            }
                        } else {
                            let prev = open_round;
                            let ghost closed_pre = rounds_view(closed@);
                            if let Some(r) = prev {
                                let ghost rv = r@;
                                closed.push(r);
                                proof {
                                    assert(rounds_view(closed@) =~~= closed_pre.push(rv));
                                }
                            }
                            proof {
                                assert(rounds_view(closed@) =~~= close_open(st));
                            }
                            if n % 2 == 1 {
                                open_round = Some(Round::Route { explorations: Vec::new() });
                                proof {
                                    assert(opt_round_view(open_round) == Some(
                                        RoundV::Route {
                                            explorations: Seq::<RouteExplorationV>::empty(),
                                        },
                                    )) by {
                                        assert(Seq::<RouteExploration>::empty().map_values(
                                            |e: RouteExploration| e@,
                                        ) =~= Seq::<RouteExplorationV>::empty());
                                    }
                                }
                            } else {
                                open_round = Some(Round::Transfer { explorations: Vec::new() });
                                proof {
                                    assert(opt_round_view(open_round) == Some(
                                        RoundV::Transfer {
                                            explorations: Seq::<TransferExplorationV>::empty(),
                                        },
                                    )) by {
                                        assert(Seq::<TransferExploration>::empty().map_values(
                                            |e: TransferExploration| e@,
                                        ) =~= Seq::<TransferExplorationV>::empty());
                                    }
                                }
                            }
                        }
                    },
                }
            } else {
                let cur = open_round;
                match cur {
                    None => {
                        open_round = None;
                    },
                    Some(Round::Init { marked_stops }) => {
                        let mut ms = marked_stops;
                        let ghost ms_pre = ms@;
                        let mut extra = collect_ints(&toks, 0);
                        proof {
                            assert(toksv.subrange(0, toksv.len() as int) =~~= toksv);
                        }
                        ms.append(&mut extra);
                        open_round = Some(Round::Init { marked_stops: ms });
                        proof {
                            assert(opt_round_view(open_round) == Some(
                                RoundV::Init { marked_stops: ms_pre + parsed_ints(toksv) },
                            ));
                        }
                    },
                    Some(Round::Route { explorations }) => {
                        if toks.len() < 2 {
                            proof {
                                lemma_run_err_prefix(all, i + 1 as int);
                            }
                            return Err(
                                ParseError::MissingRequiredField {
                                    line: i + 1,
                                    kind: RoundKind::Route,
                                },
                            );
                        }
                        proof {
                            lemma_deep_elem(&toks, 1);
                        }
                        match parse_i64_token(&toks[1]) {
                            None => {
                                proof {
                                    lemma_run_err_prefix(all, i + 1 as int);
                                }
                                return Err(
                                    ParseError::MissingRequiredField {
                                        line: i + 1,
                                        kind: RoundKind::Route,
                                    },
                                );
                            },
                            Some(rid) => {
                                let stops = collect_ints(&toks, 2);
                                let mut es = explorations;
                                let ghost es_pre = es@.map_values(|e: RouteExploration| e@);
                                es.push(RouteExploration { route_id: rid, explored_stops: stops });
                                open_round = Some(Round::Route { explorations: es });
                                proof {
                                    assert(es@.map_values(|e: RouteExploration| e@) =~~= es_pre.push(
                                        RouteExplorationV {
                                            route_id: rid,
                                            explored_stops: parsed_ints(
                                                toksv.subrange(2, toksv.len() as int),
                                            ),
                                        },
                                    ));
                                }
                            },
                        }
                    },
                    Some(Round::Transfer { explorations }) => {
                        if toks.len() < 2 {
                            proof {
                                lemma_run_err_prefix(all, i + 1 as int);
                            }
                            return Err(
                                ParseError::MissingRequiredField {
                                    line: i + 1,
                                    kind: RoundKind::Transfer,
                                },
                            );
                        }
                        proof {
                            lemma_deep_elem(&toks, 1);
                        }
                        match parse_i64_token(&toks[1]) {
                            None => {
                                proof {
                                    lemma_run_err_prefix(all, i + 1 as int);
                                }
                                return Err(
                                    ParseError::MissingRequiredField {
                                        line: i + 1,
                                        kind: RoundKind::Transfer,
                                    },
                                );
                            },
                            Some(ms) => {
                                let stops = collect_ints(&toks, 2);
                                let mut es = explorations;
                                let ghost es_pre = es@.map_values(|e: TransferExploration| e@);
                                es.push(
                                    TransferExploration { marked_stop: ms, reached_stops: stops },
                                );
                                open_round = Some(Round::Transfer { explorations: es });
                                proof {
                                    assert(es@.map_values(|e: TransferExploration| e@) =~~= es_pre.push(
                                        TransferExplorationV {
                                            marked_stop: ms,
                                            reached_stops: parsed_ints(
                                                toksv.subrange(2, toksv.len() as int),
                                            ),
                                        },
                                    ));
                                }
                            },
                        }
                    },
                }
            }
        }
        i += 1;
    }
    proof {
        assert(all.subrange(0, lines@.len() as int) =~~= all);
    }
    let mut rounds = closed;
    let last = open_round;
    let ghost closed_pre = rounds_view(rounds@);
    if let Some(r) = last {
        let ghost rv = r@;
        rounds.push(r);
        proof {
            assert(rounds_view(rounds@) =~~= closed_pre.push(rv));
        }
    }
    let out = RaptorOutput { rounds };
    Ok(out)
}

/// Parses a routing trace; same contract as `parse`.
pub fn parse_and_process_raptor_output(input: &str) -> (r: Result<RaptorOutput, ParseError>)
    ensures
        parse_matches(r, spec_parse(input@)),
{
    parse(input)
}

impl RaptorOutput {
    /// Builds the trace from its textual log; same contract as `parse`.
    pub fn new(raptor_output_str: &str) -> (r: Result<RaptorOutput, ParseError>)
        ensures
            parse_matches(r, spec_parse(raptor_output_str@)),
    {
        parse(raptor_output_str)
    }
}

} // verus!
