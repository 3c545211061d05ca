use vstd::prelude::*;

use crate::parser::{
    ParseState, close_open, fresh_round, header_tokens, initial_state, is_header_line,
    last_round_number, run_lines, spec_parse, step_line,
};
use crate::stops::{StopRecordV, matching_rows};
use crate::text::{split_on, strip_cr};
use crate::trace::{ParseError, RoundKind, RoundV, kind_of};

verus! {

/// The kind of round a header number opens: 0 seeds, odd numbers scan
/// routes, the other even numbers scan transfers.
pub open spec fn kind_for_number(n: u64) -> RoundKind {
    if n == 0 {
        RoundKind::Init
    } else if n % 2 == 1 {
        RoundKind::Route
    } else {
        RoundKind::Transfer
    }
}

/// The header numbers after one more line: a header line that carries a
/// round number appends it, every other line changes nothing.
pub open spec fn headers_after(raw: Seq<char>, hs: Seq<u64>) -> Seq<u64> {
    if is_header_line(raw) {
        match last_round_number(header_tokens(raw)) {
            Some(n) => hs.push(n),
            None => hs,
        }
    } else {
        hs
    }
}

/// The round numbers of the header lines that carry one, in line order.
pub open spec fn header_numbers(lines: Seq<Seq<char>>) -> Seq<u64>
    decreases lines.len(),
{
    if lines.len() == 0 {
        Seq::empty()
    } else {
        headers_after(lines.last(), header_numbers(lines.drop_last()))
    }
}

/// How many header lines the input holds.
pub open spec fn header_line_count(lines: Seq<Seq<char>>) -> nat
    decreases lines.len(),
{
    if lines.len() == 0 {
        0
    } else {
        header_line_count(lines.drop_last()) + if is_header_line(lines.last()) {
            1nat
        } else {
            0nat
        }
    }
}

/// The fold state agrees with the header numbers seen so far: one round per
/// header, in order, each of the kind its number dictates, the last one
/// still open.
pub open spec fn state_matches_headers(st: ParseState, hs: Seq<u64>) -> bool {
    match st.open_round {
        Some(r) => {
            &&& st.closed.len() + 1 == hs.len()
            &&& kind_of(r) == kind_for_number(hs.last())
            &&& forall|k: int|
                0 <= k < st.closed.len() ==> kind_of(#[trigger] st.closed[k]) == kind_for_number(
                    hs[k],
                )
        },
        None => st.closed.len() == 0 && hs.len() == 0,
    }
}

proof fn lemma_step_matches(st0: ParseState, raw: Seq<char>, line_no: usize, st1: ParseState, hs0: Seq<u64>)
    requires
        step_line(st0, raw, line_no) == Ok::<ParseState, ParseError>(st1),
        state_matches_headers(st0, hs0),
        forall|k: int| 1 <= k < hs0.len() ==> hs0[k] != 0,
    ensures
        state_matches_headers(st1, headers_after(raw, hs0)),
        forall|k: int| 1 <= k < headers_after(raw, hs0).len() ==> headers_after(raw, hs0)[k] != 0,
        headers_after(raw, hs0).len() == hs0.len() + if is_header_line(raw) {
            1nat
        } else {
            0nat
        },
{
    let l = strip_cr(raw);
    let hs1 = headers_after(raw, hs0);
    if l.len() == 0 {
        assert(st1 == st0);
        assert(!is_header_line(raw));
    } else {
        let toks = split_on(l, ',');
        if toks[0] == crate::parser::round_label() {
            assert(is_header_line(raw));
            match last_round_number(toks) {
                None => {
                    assert(false);
                },
                Some(n) => {
                    assert(hs1 == hs0.push(n));
                    if n == 0 {
                        assert(st0.open_round is None);
                        assert(hs0.len() == 0);
                        assert(st1.closed.len() == 0);
                        assert(hs1.last() == 0);
                    } else {
                        assert(st1.open_round == Some(fresh_round(n)));
                        assert(kind_of(fresh_round(n)) == kind_for_number(n));
                        assert(st1.closed == close_open(st0));
                        match st0.open_round {
                            None => {
                                assert(hs0.len() == 0);
                                assert(hs1.len() == 1);
                            },
                            Some(r0) => {
                                assert(st1.closed == st0.closed.push(r0));
                                assert(st1.closed.len() + 1 == hs1.len());
                                assert forall|k: int| 0 <= k < st1.closed.len() implies kind_of(
                                    #[trigger] st1.closed[k],
                                ) == kind_for_number(hs1[k]) by {
                                    if k < st0.closed.len() {
                                        assert(st1.closed[k] == st0.closed[k]);
                                        assert(hs1[k] == hs0[k]);
                                    } else {
                                        assert(st1.closed[k] == r0);
                                        assert(hs1[k] == hs0.last());
                                    }
                                }
                            },
                        }
                        assert forall|k: int| 1 <= k < hs1.len() implies hs1[k] != 0 by {
                            if k < hs0.len() {
                                assert(hs1[k] == hs0[k]);
                            } else {
                                assert(hs1[k] == n);
                            }
                        }
                    }
                },
            }
        } else {
            assert(!is_header_line(raw));
            assert(hs1 == hs0);
            match st0.open_round {
                None => {
                    assert(st1 == st0);
                },
                Some(r0) => {
                    assert(st1.closed == st0.closed);
                    match r0 {
                        RoundV::Init { .. } => {
                            assert(st1.open_round is Some && kind_of(st1.open_round->0)
                                == RoundKind::Init);
                        },
                        RoundV::Route { .. } => {
                            assert(st1.open_round is Some && kind_of(st1.open_round->0)
                                == RoundKind::Route);
                        },
                        RoundV::Transfer { .. } => {
                            assert(st1.open_round is Some && kind_of(st1.open_round->0)
                                == RoundKind::Transfer);
                        },
                    }
                    assert(kind_of(st1.open_round->0) == kind_of(r0));
                },
            }
        }
    }
}

proof fn lemma_run_matches(lines: Seq<Seq<char>>, st: ParseState)
    requires
        run_lines(lines) == Ok::<ParseState, ParseError>(st),
    ensures
        state_matches_headers(st, header_numbers(lines)),
        forall|k: int| 1 <= k < header_numbers(lines).len() ==> header_numbers(lines)[k] != 0,
        header_numbers(lines).len() == header_line_count(lines),
    decreases lines.len(),
{
    if lines.len() == 0 {
        assert(st == initial_state());
    } else {
        let prefix = lines.drop_last();
        match run_lines(prefix) {
            Err(_) => {
                assert(false);
            },
            Ok(st0) => {
                lemma_run_matches(prefix, st0);
                lemma_step_matches(st0, lines.last(), lines.len() as usize, st, header_numbers(prefix));
            },
        }
    }
}

/// The round count of a parsed trace equals the number of header lines of
/// its input: each header opens one round, and the round still open at end
/// of input is counted too.
pub proof fn lemma_round_count_counts_headers(text: Seq<char>, tr: Seq<RoundV>)
    requires
        spec_parse(text) == Ok::<Seq<RoundV>, ParseError>(tr),
    ensures
        tr.len() == header_line_count(split_on(text, '\n')),
{
    lemma_rounds_follow_headers(text, tr);
}

/// Each round of a parsed trace has the kind its header number dictates:
/// number 0 — possible only for the first header — opens `Init`, odd
/// numbers open `Route`, the other even numbers open `Transfer`.
pub proof fn lemma_rounds_follow_headers(text: Seq<char>, tr: Seq<RoundV>)
    requires
        spec_parse(text) == Ok::<Seq<RoundV>, ParseError>(tr),
    ensures
        tr.len() == header_numbers(split_on(text, '\n')).len(),
        tr.len() == header_line_count(split_on(text, '\n')),
        forall|k: int|
            0 <= k < tr.len() ==> kind_of(#[trigger] tr[k]) == kind_for_number(
                header_numbers(split_on(text, '\n'))[k],
            ),
        forall|k: int|
            1 <= k < tr.len() ==> header_numbers(split_on(text, '\n'))[k] != 0,
{
    let lines = split_on(text, '\n');
    let hs = header_numbers(lines);
    match run_lines(lines) {
        Err(_) => {
            assert(false);
        },
        Ok(st) => {
            lemma_run_matches(lines, st);
            assert(tr == close_open(st));
            match st.open_round {
                Some(r) => {
                    assert(tr == st.closed.push(r));
                    assert forall|k: int| 0 <= k < tr.len() implies kind_of(#[trigger] tr[k])
                        == kind_for_number(hs[k]) by {
                        if k < st.closed.len() {
                            assert(tr[k] == st.closed[k]);
                        } else {
                            assert(tr[k] == r);
                            assert(hs[k] == hs.last());
                        }
                    }
                },
                None => {},
            }
        },
    }
}

/// Parsing is deterministic and pure: the same input text always yields the
/// same outcome — the same rounds, kinds and contents, or the same error.
pub proof fn lemma_parse_deterministic(a: Seq<char>, b: Seq<char>)
    requires
        a == b,
    ensures
        spec_parse(a) == spec_parse(b),
{
}

proof fn lemma_matching_rows_equal_requests(rows: Seq<StopRecordV>, ids1: Seq<i64>, ids2: Seq<i64>)
    requires
        forall|x: i64| ids1.contains(x) <==> ids2.contains(x),
    ensures
        matching_rows(rows, ids1) == matching_rows(rows, ids2),
    decreases rows.len(),
{
    if rows.len() > 0 {
        lemma_matching_rows_equal_requests(rows.drop_last(), ids1, ids2);
    }
}

/// A duplicate reference collapses: requesting an offset that is already
/// requested leaves the resolved rows unchanged.
pub proof fn lemma_duplicate_request_collapses(rows: Seq<StopRecordV>, ids: Seq<i64>, dup: i64)
    requires
        ids.contains(dup),
    ensures
        matching_rows(rows, ids.push(dup)) == matching_rows(rows, ids),
{
    assert forall|x: i64| ids.push(dup).contains(x) implies ids.contains(x) by {
        let i = choose|i: int| 0 <= i < ids.push(dup).len() && ids.push(dup)[i] == x;
        if i < ids.len() {
            assert(ids[i] == x);
        } else {
            assert(x == dup);
        }
    }
    assert forall|x: i64| ids.contains(x) implies ids.push(dup).contains(x) by {
        let i = choose|i: int| 0 <= i < ids.len() && ids[i] == x;
        assert(ids.push(dup)[i] == x);
    }
    lemma_matching_rows_equal_requests(rows, ids.push(dup), ids);
}

/// A referenced offset with no row in the table is silently omitted:
/// requesting it leaves the resolved rows unchanged.
pub proof fn lemma_absent_request_omitted(rows: Seq<StopRecordV>, ids: Seq<i64>, extra: i64)
    requires
        forall|k: int| 0 <= k < rows.len() ==> (#[trigger] rows[k]).offset != extra,
    ensures
        matching_rows(rows, ids.push(extra)) == matching_rows(rows, ids),
    decreases rows.len(),
{
    if rows.len() > 0 {
        lemma_absent_request_omitted(rows.drop_last(), ids, extra);
        let last = rows.last();
        assert(last.offset != extra);
        if ids.push(extra).contains(last.offset) {
            let i = choose|i: int|
                0 <= i < ids.push(extra).len() && ids.push(extra)[i] == last.offset;
            assert(i < ids.len());
            assert(ids[i] == last.offset);
        }
        if ids.contains(last.offset) {
            let i = choose|i: int| 0 <= i < ids.len() && ids[i] == last.offset;
            assert(ids.push(extra)[i] == last.offset);
        }
    }
}

/// Every resolved row comes from the table and answers a requested offset.
pub proof fn lemma_resolved_rows_from_table(rows: Seq<StopRecordV>, ids: Seq<i64>)
    ensures
        forall|k: int|
            0 <= k < matching_rows(rows, ids).len() ==> rows.contains(
                #[trigger] matching_rows(rows, ids)[k],
            ) && ids.contains(matching_rows(rows, ids)[k].offset),
    decreases rows.len(),
{
    if rows.len() > 0 {
        lemma_resolved_rows_from_table(rows.drop_last(), ids);
        let r0 = matching_rows(rows.drop_last(), ids);
        let r1 = matching_rows(rows, ids);
        assert forall|k: int| 0 <= k < r1.len() implies rows.contains(#[trigger] r1[k])
            && ids.contains(r1[k].offset) by {
            if k < r0.len() {
                assert(r1[k] == r0[k]);
                assert(rows.drop_last().contains(r0[k]));
                let i = choose|i: int|
                    0 <= i < rows.drop_last().len() && rows.drop_last()[i] == r0[k];
                assert(rows[i] == r0[k]);
            } else {
                assert(r1[k] == rows.last());
                assert(rows[rows.len() - 1] == rows.last());
            }
        }
    }
}

/// Offsets pairwise distinct in the table stay pairwise distinct in the
/// resolved rows: at most one record comes back per matched offset.
pub open spec fn distinct_offsets(rows: Seq<StopRecordV>) -> bool {
    forall|a: int, b: int|
        0 <= a < b < rows.len() ==> (#[trigger] rows[a]).offset != (#[trigger] rows[b]).offset
}

/// With a table whose offsets are pairwise distinct, resolution returns at
/// most one record per matched offset.
pub proof fn lemma_one_record_per_offset(rows: Seq<StopRecordV>, ids: Seq<i64>)
    requires
        distinct_offsets(rows),
    ensures
        distinct_offsets(matching_rows(rows, ids)),
    decreases rows.len(),
{
    if rows.len() > 0 {
        assert(distinct_offsets(rows.drop_last()));
        lemma_one_record_per_offset(rows.drop_last(), ids);
        lemma_resolved_rows_from_table(rows.drop_last(), ids);
        let r0 = matching_rows(rows.drop_last(), ids);
        let r1 = matching_rows(rows, ids);
        if ids.contains(rows.last().offset) {
            assert forall|a: int, b: int| 0 <= a < b < r1.len() implies (#[trigger] r1[a]).offset
                != (#[trigger] r1[b]).offset by {
                if b < r0.len() {
                    assert(r1[a] == r0[a] && r1[b] == r0[b]);
                } else {
                    assert(r1[b] == rows.last());
                    assert(r1[a] == r0[a]);
                    assert(rows.drop_last().contains(r0[a]));
                    let i = choose|i: int|
                        0 <= i < rows.drop_last().len() && rows.drop_last()[i] == r0[a];
                    assert(rows[i] == r0[a]);
                    assert(rows[i].offset != rows[rows.len() - 1].offset);
                }
            }
        }
    }
}

} // verus!
