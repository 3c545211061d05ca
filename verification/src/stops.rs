use vstd::prelude::*;

verus! {

/// One row of the stop table. The coordinates are carried as the IEEE 754
/// bit patterns of the longitude and latitude, so that the table can be
/// queried here while the surrounding application keeps the floating-point
/// reading and writing to itself.
pub struct StopRecord {
    pub offset: i64,
    pub lon_bits: u64,
    pub lat_bits: u64,
    pub name: String,
}

pub struct StopRecordV {
    pub offset: i64,
    pub lon_bits: u64,
    pub lat_bits: u64,
    pub name: Seq<char>,
}

impl View for StopRecord {
    type V = StopRecordV;

    open spec fn view(&self) -> StopRecordV {
        StopRecordV {
            offset: self.offset,
            lon_bits: self.lon_bits,
            lat_bits: self.lat_bits,
            name: self.name@,
        }
    }
}

impl Clone for StopRecord {
    fn clone(&self) -> (r: Self)
        ensures
            r@ == self@,
    {
        StopRecord {
            offset: self.offset,
            lon_bits: self.lon_bits,
            lat_bits: self.lat_bits,
            name: self.name.clone(),
        }
    }
}

pub open spec fn stop_rows_view(rows: Seq<StopRecord>) -> Seq<StopRecordV> {
    rows.map_values(|r: StopRecord| r@)
}

/// The first row whose offset equals the requested one, if any.
pub open spec fn first_match(rows: Seq<StopRecordV>, offset: i64) -> Option<StopRecordV>
    decreases rows.len(),
{
    if rows.len() == 0 {
        None
    } else if rows[0].offset == offset {
        Some(rows[0])
    } else {
        first_match(rows.drop_first(), offset)
    }
}

/// The rows whose offset occurs among the requested identifiers, in row
/// order. Each row is kept or dropped on its own, so the result's order is
/// the table's storage order, not the request order, a repeated request
/// changes nothing, and a requested offset with no row is silently absent.
pub open spec fn matching_rows(rows: Seq<StopRecordV>, ids: Seq<i64>) -> Seq<StopRecordV>
    decreases rows.len(),
{
    if rows.len() == 0 {
        Seq::empty()
    } else {
        let r = matching_rows(rows.drop_last(), ids);
        if ids.contains(rows.last().offset) {
            r.push(rows.last())
        } else {
            r
        }
    }
}

/// Tests whether a value occurs in a vector.
fn contains_i64(v: &Vec<i64>, x: i64) -> (r: bool)
    ensures
        r == v@.contains(x),
{
    let mut i: usize = 0;
    while i < v.len()
        invariant
            i <= v@.len(),
            forall|j: int| 0 <= j < i ==> v@[j] != x,
        decreases v@.len() - i,
    {
        if v[i] == x {
            return true;
        }
        i += 1;
    }
    false
}

/// The immutable stop table: an ordered sequence of stop records, built once
/// from complete input and only read afterwards, through equality and
/// membership queries.
pub struct StopIndex {
    rows: Vec<StopRecord>,
}

impl View for StopIndex {
    type V = Seq<StopRecordV>;

    closed spec fn view(&self) -> Seq<StopRecordV> {
        stop_rows_view(self.rows@)
    }
}

impl StopIndex {
    /// Builds the table from its rows, kept verbatim and in order.
    pub fn new(rows: Vec<StopRecord>) -> (s: Self)
        ensures
            s@ == stop_rows_view(rows@),
    {
        StopIndex { rows }
    }

    /// How many rows the table holds.
    pub fn row_count(&self) -> (n: usize)
        ensures
            n == self@.len(),
    {
        self.rows.len()
    }

    /// Equality lookup: the first row with the requested offset, or `None`.
    pub fn lookup_one(&self, offset: i64) -> (r: Option<StopRecord>)
        ensures
            match r {
                Some(rec) => first_match(self@, offset) == Some(rec@),
                None => first_match(self@, offset) is None,
            },
    {
        let mut i: usize = 0;
        proof {
            assert(self@.subrange(0, self@.len() as int) =~~= self@);
        }
        while i < self.rows.len()
            invariant
                i <= self.rows@.len(),
                self@.len() == self.rows@.len(),
                first_match(self@, offset) == first_match(
                    self@.subrange(i as int, self@.len() as int),
                    offset,
                ),
            decreases self.rows@.len() - i,
        {
            let ghost tail = self@.subrange(i as int, self@.len() as int);
            proof {
                assert(tail[0] == self@[i as int]);
                assert(tail.drop_first() =~~= self@.subrange(i + 1 as int, self@.len() as int));
            }
            if self.rows[i].offset == offset {
                return Some(self.rows[i].clone());
            }
            i += 1;
        }
        proof {
            assert(self@.subrange(self@.len() as int, self@.len() as int)
                =~~= Seq::<StopRecordV>::empty());
        }
        None
    }

    /// Membership lookup: the rows whose offset is among the requested
    /// identifiers, in the table's row order.
    pub fn lookup_many(&self, offsets: &Vec<i64>) -> (r: Vec<StopRecord>)
        ensures
            stop_rows_view(r@) == matching_rows(self@, offsets@),
    {
        let mut r: Vec<StopRecord> = Vec::new();
        let mut i: usize = 0;
        proof {
            assert(self@.subrange(0, 0) =~~= Seq::<StopRecordV>::empty());
            assert(stop_rows_view(r@) =~~= Seq::<StopRecordV>::empty());
        }
        while i < self.rows.len()
            invariant
                i <= self.rows@.len(),
                self@.len() == self.rows@.len(),
                stop_rows_view(r@) == matching_rows(self@.subrange(0, i as int), offsets@),
            decreases self.rows@.len() - i,
        {
            let ghost pre = self@.subrange(0, i as int);
            let ghost post = self@.subrange(0, i + 1 as int);
            proof {
                assert(post.drop_last() =~~= pre);
                assert(post.last() == self@[i as int]);
            }
            if contains_i64(offsets, self.rows[i].offset) {
                let ghost r_pre = stop_rows_view(r@);
                let rec = self.rows[i].clone();
                let ghost recv = rec@;
                r.push(rec);
                proof {
                    assert(stop_rows_view(r@) =~~= r_pre.push(recv));
                }
            }
            i += 1;
        }
        proof {
            assert(self@.subrange(0, self.rows@.len() as int) =~~= self@);
        }
        r
    }
}

} // verus!
