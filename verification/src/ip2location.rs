//! The Sorted Range Store: a validated, strictly ordered, non-overlapping
//! list of (start, end, country) intervals, built once from delimited rows
//! and queried by binary search.

use vstd::prelude::*;
use vstd::string::*;

use crate::errors::BuildError;
use crate::text::{
    find_sep, find_sep_from, parse_u32, parse_u32_spec, trim_quotes, trim_quotes_spec,
    upper_seq, upper_string,
};

verus! {

/// The mathematical shape of one retained interval.
pub ghost struct RangeV {
    pub start: u32,
    pub end: u32,
    pub country: Seq<char>,
}

/// One retained interval: a closed numeric address range and its country.
#[derive(Debug)]
pub struct IpRange {
    start: u32,
    end: u32,
    country: String,
}

impl View for IpRange {
    type V = RangeV;

    closed spec fn view(&self) -> RangeV {
        RangeV { start: self.start, end: self.end, country: self.country@ }
    }
}

impl DeepView for IpRange {
    type V = RangeV;

    closed spec fn deep_view(&self) -> RangeV {
        self.view()
    }
}

/// The interval list invariant: every interval is a genuine closed range,
/// and each interval starts strictly after its predecessor ends, so the
/// list is strictly ordered and pairwise disjoint.
pub open spec fn ranges_wf(rs: Seq<RangeV>) -> bool {
    &&& forall|i: int| 0 <= i < rs.len() ==> (#[trigger] rs[i]).start <= rs[i].end
    &&& forall|i: int| 0 < i < rs.len() ==> (#[trigger] rs[i - 1]).end < rs[i].start
}

/// In a well-formed list every earlier interval ends strictly before a
/// later one starts, not only the adjacent pairs.
pub proof fn lemma_wf_ordered(rs: Seq<RangeV>, i: int, j: int)
    requires
        ranges_wf(rs),
        0 <= i < j < rs.len(),
    ensures
        rs[i].end < rs[j].start,
    decreases j - i,
{
    assert(rs[j - 1].end < rs[j].start);
    if j == i + 1 {
    } else {
        lemma_wf_ordered(rs, i, j - 1);
        assert(rs[j - 1].start <= rs[j - 1].end);
    }
}

/// Whether the interval contains the address value.
pub open spec fn range_covers(r: RangeV, ip: u32) -> bool {
    r.start <= ip && ip <= r.end
}

/// What a query on an interval list denotes: the country of the interval
/// that contains the value, if one does.
pub open spec fn lookup_spec(rs: Seq<RangeV>, ip: u32) -> Option<Seq<char>> {
    if exists|i: int| 0 <= i < rs.len() && range_covers(#[trigger] rs[i], ip) {
        let i = choose|i: int| 0 <= i < rs.len() && range_covers(#[trigger] rs[i], ip);
        Some(rs[i].country)
    } else {
        None
    }
}

/// In a well-formed list at most one interval contains any given value.
pub proof fn lemma_cover_unique(rs: Seq<RangeV>, ip: u32, i: int, j: int)
    requires
        ranges_wf(rs),
        0 <= i < rs.len(),
        0 <= j < rs.len(),
        range_covers(rs[i], ip),
        range_covers(rs[j], ip),
    ensures
        i == j,
{
    if i < j {
        lemma_wf_ordered(rs, i, j);
    }
    if j < i {
        lemma_wf_ordered(rs, j, i);
    }
}

/// If some interval of a well-formed list contains the value, the query
/// yields exactly that interval's country.
pub proof fn lemma_lookup_covered(rs: Seq<RangeV>, ip: u32, i: int)
    requires
        ranges_wf(rs),
        0 <= i < rs.len(),
        range_covers(rs[i], ip),
    ensures
        lookup_spec(rs, ip) == Some(rs[i].country),
{
    let w = choose|k: int| 0 <= k < rs.len() && range_covers(#[trigger] rs[k], ip);
    lemma_cover_unique(rs, ip, w, i);
}

/// Boundary law: both endpoints of a retained interval resolve to that
/// interval's country.
pub proof fn lemma_boundary(rs: Seq<RangeV>, i: int)
    requires
        ranges_wf(rs),
        0 <= i < rs.len(),
    ensures
        lookup_spec(rs, rs[i].start) == Some(rs[i].country),
        lookup_spec(rs, rs[i].end) == Some(rs[i].country),
{
    lemma_lookup_covered(rs, rs[i].start, i);
    lemma_lookup_covered(rs, rs[i].end, i);
}

/// Gap law: a value strictly between the end of one retained interval and
/// the start of the next resolves to nothing.
pub proof fn lemma_gap(rs: Seq<RangeV>, i: int, ip: u32)
    requires
        ranges_wf(rs),
        0 <= i,
        i + 1 < rs.len(),
        rs[i].end < ip,
        ip < rs[i + 1].start,
    ensures
        lookup_spec(rs, ip) == None::<Seq<char>>,
{
    assert forall|j: int| 0 <= j < rs.len() implies !range_covers(#[trigger] rs[j], ip) by {
        if j <= i {
            if j < i {
                lemma_wf_ordered(rs, j, i);
            }
        } else {
            if i + 1 < j {
                lemma_wf_ordered(rs, i + 1, j);
            }
        }
    }
}

/// Boundary law, outside the endpoints: the address one below an
/// interval's start resolves to the preceding interval's country exactly
/// when that interval reaches it, and the address one above an interval's
/// end resolves to the following interval's country exactly when that
/// interval starts there; otherwise both resolve to nothing.
pub proof fn lemma_adjacent_boundary(rs: Seq<RangeV>, i: int)
    requires
        ranges_wf(rs),
        0 <= i < rs.len(),
    ensures
        rs[i].start > 0 ==> ({
            let v = (rs[i].start - 1) as u32;
            if i > 0 && rs[i - 1].end == v {
                lookup_spec(rs, v) == Some(rs[i - 1].country)
            } else {
                lookup_spec(rs, v) is None
            }
        }),
        rs[i].end < u32::MAX ==> ({
            let v = (rs[i].end + 1) as u32;
            if i + 1 < rs.len() && rs[i + 1].start == v {
                lookup_spec(rs, v) == Some(rs[i + 1].country)
            } else {
                lookup_spec(rs, v) is None
            }
        }),
{
    if rs[i].start > 0 {
        let v = (rs[i].start - 1) as u32;
        if i > 0 && rs[i - 1].end == v {
            lemma_lookup_covered(rs, v, i - 1);
        } else {
            assert forall|j: int| 0 <= j < rs.len() implies !range_covers(
                #[trigger] rs[j],
                v,
            ) by {
                if j < i {
                    if j < i - 1 {
                        lemma_wf_ordered(rs, j, i - 1);
                    }
                    assert(rs[i - 1].end < rs[i].start);
                } else if i < j {
                    lemma_wf_ordered(rs, i, j);
                }
            }
            lemma_uncovered(rs, v);
        }
    }
    if rs[i].end < u32::MAX {
        let v = (rs[i].end + 1) as u32;
        if i + 1 < rs.len() && rs[i + 1].start == v {
            lemma_lookup_covered(rs, v, i + 1);
        } else {
            assert forall|j: int| 0 <= j < rs.len() implies !range_covers(
                #[trigger] rs[j],
                v,
            ) by {
                if j < i {
                    lemma_wf_ordered(rs, j, i);
                } else if i < j {
                    lemma_wf_ordered(rs, i, j);
                    if i + 1 < j {
                        lemma_wf_ordered(rs, i + 1, j);
                        lemma_wf_ordered(rs, i, i + 1);
                    }
                }
            }
            lemma_uncovered(rs, v);
        }
    }
}

/// Any value contained in no retained interval resolves to nothing.
pub proof fn lemma_uncovered(rs: Seq<RangeV>, ip: u32)
    requires
        forall|i: int| 0 <= i < rs.len() ==> !range_covers(#[trigger] rs[i], ip),
    ensures
        lookup_spec(rs, ip) == None::<Seq<char>>,
{
}

/// How one input row is read: a retained interval, the deliberate
/// "unassigned" drop, or a fatal error.
pub ghost enum RowParse {
    Fail(BuildError),
    Unassigned,
    Row(RangeV),
}

/// The first three quote-delimited fields of a row, split at each
/// quote-comma-quote separator; trailing fields are ignored. A row with
/// fewer than three fields has no reading.
pub open spec fn row_fields(s: Seq<char>) -> Option<(Seq<char>, Seq<char>, Seq<char>)> {
    let i1 = find_sep_from(s, 0);
    if i1 < 0 {
        None
    } else {
        let i2 = find_sep_from(s, i1 + 3);
        if i2 < 0 {
            None
        } else {
            let i3 = find_sep_from(s, i2 + 3);
            let e2 = if i3 < 0 { s.len() as int } else { i3 };
            Some((s.subrange(0, i1), s.subrange(i1 + 3, i2), s.subrange(i2 + 3, e2)))
        }
    }
}

/// What one row denotes. Fields are unquoted first; the two numeric
/// fields must be well-formed 32-bit decimals; a lone dash country field
/// is the "unassigned" sentinel and drops the row; any other country
/// field must be exactly two characters and is kept uppercase.
pub open spec fn parse_row_spec(s: Seq<char>) -> RowParse {
    match row_fields(s) {
        None => RowParse::Fail(BuildError::Parse),
        Some(f) => {
            let sv = parse_u32_spec(trim_quotes_spec(f.0));
            let ev = parse_u32_spec(trim_quotes_spec(f.1));
            let c = trim_quotes_spec(f.2);
            if sv is None || ev is None {
                RowParse::Fail(BuildError::Parse)
            } else if c.len() == 1 && c[0] == '-' {
                RowParse::Unassigned
            } else if c.len() != 2 {
                RowParse::Fail(BuildError::Validation)
            } else {
                RowParse::Row(
                    RangeV { start: sv.unwrap(), end: ev.unwrap(), country: upper_seq(c) },
                )
            }
        },
    }
}

/// Reads one row of the delimited source.
pub fn parse_row(line: &str) -> (r: Result<Option<IpRange>, BuildError>)
    ensures
        match r {
            Ok(Some(range)) => parse_row_spec(line@) == RowParse::Row(range@),
            Ok(None) => parse_row_spec(line@) is Unassigned,
            Err(e) => parse_row_spec(line@) == RowParse::Fail(e),
        },
{
    let n = line.unicode_len();
    let i1 = match find_sep(line, 0) {
        Some(i) => i,
        None => {
            return Err(BuildError::Parse);
        },
    };
    let i2 = match find_sep(line, i1 + 3) {
        Some(i) => i,
        None => {
            return Err(BuildError::Parse);
        },
    };
    let e2 = match find_sep(line, i2 + 3) {
        Some(i) => i,
        None => n,
    };
    let f0 = line.substring_char(0, i1);
    let f1 = line.substring_char(i1 + 3, i2);
    let f2 = line.substring_char(i2 + 3, e2);
    let start = match parse_u32(trim_quotes(f0)) {
        Some(v) => v,
        None => {
            return Err(BuildError::Parse);
        },
    };
    let end = match parse_u32(trim_quotes(f1)) {
        Some(v) => v,
        None => {
            return Err(BuildError::Parse);
        },
    };
    let c = trim_quotes(f2);
    let cn = c.unicode_len();
    if cn == 1 && c.get_char(0) == '-' {
        return Ok(None);
    }
    if cn != 2 {
        return Err(BuildError::Validation);
    }
    let country = upper_string(c);
    Ok(Some(IpRange { start, end, country }))
}

/// The fail-fast fold that builds the interval list: rows are read in
/// order; the sentinel drops a row; any malformed row aborts; a retained
/// row whose start does not lie strictly after the previous retained
/// interval's end, or whose start exceeds its own end, is an ordering
/// violation.
pub open spec fn build_ranges_from(lines: Seq<Seq<char>>, i: int, acc: Seq<RangeV>) -> Result<
    Seq<RangeV>,
    BuildError,
>
    decreases lines.len() - i,
{
    if i < 0 || i >= lines.len() {
        Ok(acc)
    } else {
        match parse_row_spec(lines[i]) {
            RowParse::Fail(e) => Err(e),
            RowParse::Unassigned => build_ranges_from(lines, i + 1, acc),
            RowParse::Row(r) => {
                if acc.len() > 0 && acc.last().end >= r.start {
                    Err(BuildError::Ordering)
                } else if r.start > r.end {
                    Err(BuildError::Ordering)
                } else {
                    build_ranges_from(lines, i + 1, acc.push(r))
                }
            },
        }
    }
}

/// What constructing from a row sequence denotes.
pub open spec fn build_ranges_spec(lines: Seq<Seq<char>>) -> Result<Seq<RangeV>, BuildError> {
    build_ranges_from(lines, 0, Seq::empty())
}

/// Ordering law: whatever interval list a successful build retains is
/// strictly ordered and disjoint, provided the accumulator it started
/// from was.
pub proof fn lemma_build_wf(lines: Seq<Seq<char>>, i: int, acc: Seq<RangeV>, rs: Seq<RangeV>)
    requires
        ranges_wf(acc),
        build_ranges_from(lines, i, acc) == Ok::<Seq<RangeV>, BuildError>(rs),
    ensures
        ranges_wf(rs),
    decreases lines.len() - i,
{
    if 0 <= i < lines.len() {
        match parse_row_spec(lines[i]) {
            RowParse::Fail(_) => {},
            RowParse::Unassigned => {
                lemma_build_wf(lines, i + 1, acc, rs);
            },
            RowParse::Row(r) => {
                if !(acc.len() > 0 && acc.last().end >= r.start) && r.start <= r.end {
                    assert(ranges_wf(acc.push(r)));
                    lemma_build_wf(lines, i + 1, acc.push(r), rs);
                }
            },
        }
    }
}

/// The Sorted Range Store.
#[derive(Debug)]
pub struct Ip2locationProvider {
    ip_ranges: Vec<IpRange>,
}

impl View for Ip2locationProvider {
    type V = Seq<RangeV>;

    closed spec fn view(&self) -> Seq<RangeV> {
        self.ip_ranges.deep_view()
    }
}

impl Ip2locationProvider {
    #[verifier::type_invariant]
    spec fn inv(self) -> bool {
        ranges_wf(self@)
    }

    /// Builds the store from the rows of the delimited source, in order,
    /// failing fast on the first malformed or misordered row. A
    /// successful build retains exactly the non-sentinel rows and is
    /// strictly ordered and disjoint.
    pub fn from_db(lines: &Vec<String>) -> (r: Result<Ip2locationProvider, BuildError>)
        ensures
            match r {
                Ok(p) => build_ranges_spec(lines.deep_view()) == Ok::<Seq<RangeV>, BuildError>(p@)
                    && ranges_wf(p@),
                Err(e) => build_ranges_spec(lines.deep_view()) == Err::<Seq<RangeV>, BuildError>(
                    e,
                ),
            },
    {
        let ghost lv = lines.deep_view();
        let mut ranges: Vec<IpRange> = Vec::new();
        let mut i: usize = 0;
        proof {
            assert(ranges.deep_view() =~= Seq::<RangeV>::empty());
        }
        while i < lines.len()
            invariant
                i <= lines.len(),
                lv == lines.deep_view(),
                lv.len() == lines.len(),
                ranges_wf(ranges.deep_view()),
                build_ranges_spec(lv) == build_ranges_from(lv, i as int, ranges.deep_view()),
            decreases lines.len() - i,
        {
            proof {
                assert(lv[i as int] == lines[i as int]@);
            }
            match parse_row(lines[i].as_str()) {
                Err(e) => {
                    return Err(e);
                },
                Ok(None) => {},
                Ok(Some(range)) => {
                    if ranges.len() > 0 {
                        let last = ranges.len() - 1;
                        proof {
                            assert(ranges.deep_view().last() == ranges[last as int]@);
                        }
                        if ranges[last].end >= range.start {
                            return Err(BuildError::Ordering);
                        }
                    }
                    if range.start > range.end {
                        return Err(BuildError::Ordering);
                    }
                    let ghost before = ranges.deep_view();
                    ranges.push(range);
                    proof {
                        assert(ranges.deep_view() =~= before.push(range@));
                    }
                },
            }
            i += 1;
        }
        let p = Ip2locationProvider { ip_ranges: ranges };
        Ok(p)
    }

    /// Answers a point query in logarithmic time: the country of the
    /// unique retained interval containing the value, if one does.
    pub fn get_ipv4_country(&self, ip_address: u32) -> (r: Option<String>)
        ensures
            r.deep_view() == lookup_spec(self@, ip_address),
            r is Some <==> exists|i: int|
                0 <= i < self@.len() && range_covers(#[trigger] self@[i], ip_address),
    {
        proof {
            use_type_invariant(self);
        }
        let n = self.ip_ranges.len();
        let mut lo: usize = 0;
        let mut hi: usize = n;
        while lo < hi
            invariant
                lo <= hi <= n == self@.len(),
                ranges_wf(self@),
                forall|k: int| 0 <= k < lo ==> (#[trigger] self@[k]).start <= ip_address,
                forall|k: int| hi <= k < n ==> (#[trigger] self@[k]).start > ip_address,
            decreases hi - lo,
        {
            let mid = lo + (hi - lo) / 2;
            proof {
                assert(self@[mid as int] == self.ip_ranges[mid as int]@);
            }
            if self.ip_ranges[mid].start <= ip_address {
                proof {
                    assert forall|k: int| 0 <= k <= mid implies (#[trigger] self@[k]).start
                        <= ip_address by {
                        if k < mid {
                            lemma_wf_ordered(self@, k, mid as int);
                        }
                    }
                }
                lo = mid + 1;
            } else {
                proof {
                    assert forall|k: int| mid <= k < n implies (#[trigger] self@[k]).start
                        > ip_address by {
                        if mid < k {
                            lemma_wf_ordered(self@, mid as int, k);
                        }
                    }
                }
                hi = mid;
            }
        }
        if lo == 0 {
            proof {
                lemma_uncovered(self@, ip_address);
            }
            return None;
        }
        let cand = lo - 1;
        proof {
            assert(self@[cand as int] == self.ip_ranges[cand as int]@);
        }
        if ip_address <= self.ip_ranges[cand].end {
            proof {
                lemma_lookup_covered(self@, ip_address, cand as int);
            }
            Some(self.ip_ranges[cand].country.clone())
        } else {
            proof {
                assert forall|j: int| 0 <= j < n implies !range_covers(
                    #[trigger] self@[j],
                    ip_address,
                ) by {
                    if j < cand {
                        lemma_wf_ordered(self@, j, cand as int);
                    }
                }
                lemma_uncovered(self@, ip_address);
            }
            None
        }
    }
}

/// Idempotence law: two constructions from identical input retain
/// identical interval lists, so every query resolves identically.
pub proof fn lemma_idempotent_queries(
    lines: Seq<Seq<char>>,
    rs1: Seq<RangeV>,
    rs2: Seq<RangeV>,
    ip: u32,
)
    requires
        build_ranges_spec(lines) == Ok::<Seq<RangeV>, BuildError>(rs1),
        build_ranges_spec(lines) == Ok::<Seq<RangeV>, BuildError>(rs2),
    ensures
        lookup_spec(rs1, ip) == lookup_spec(rs2, ip),
{
}

/// Construction-failure law: as soon as a candidate row is reached whose
/// start does not lie strictly after the last retained interval's end,
/// the whole build fails with an ordering error.
pub proof fn lemma_ordering_failure(lines: Seq<Seq<char>>, i: int, acc: Seq<RangeV>, r: RangeV)
    requires
        0 <= i < lines.len(),
        parse_row_spec(lines[i]) == RowParse::Row(r),
        acc.len() > 0,
        acc.last().end >= r.start,
    ensures
        build_ranges_from(lines, i, acc) == Err::<Seq<RangeV>, BuildError>(BuildError::Ordering),
{
}

} // verus!
