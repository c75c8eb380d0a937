use crate::util::{count_map, split_chunks, split_work, IterExt};
use std::collections::HashMap;
use vstd::prelude::*;
use vstd::string::*;

verus! {

/// Why a batch of requests was refused.
#[derive(Debug, PartialEq, Eq)]
pub enum FlurryError {
    SizeTooSmall,
    TooFewConnections,
}

impl FlurryError {
    /// The message shown to the user.
    pub fn message(&self) -> (res: String)
        ensures
            res@ == match self {
                FlurryError::SizeTooSmall => "Flurry size must be at least 1"@,
                FlurryError::TooFewConnections => "Connections must be at least 1"@,
            },
    {
        match self {
            FlurryError::SizeTooSmall => String::from_str("Flurry size must be at least 1"),
            FlurryError::TooFewConnections => String::from_str("Connections must be at least 1"),
        }
    }
}

/// `res` is the plan for `flurry_size` requests over `connections`
/// connections: an error for fewer than one of either, else the sizes of
/// `split_chunks`, in order.
pub open spec fn planned(flurry_size: i32, connections: i32, res: Result<Vec<i32>, FlurryError>) -> bool {
    &&& flurry_size < 1 ==> res == Err::<Vec<i32>, FlurryError>(FlurryError::SizeTooSmall)
    &&& flurry_size >= 1 && connections < 1 ==> res == Err::<Vec<i32>, FlurryError>(
        FlurryError::TooFewConnections,
    )
    &&& flurry_size >= 1 && connections >= 1 ==> (res matches Ok(sizes) && sizes@.len()
        == split_chunks(flurry_size as int, connections as int).len() && forall|i: int|
        0 <= i < sizes@.len() ==> sizes@[i] as int == #[trigger] split_chunks(
            flurry_size as int,
            connections as int,
        )[i])
}

/// The plan of `flurry_plan`, where sharing out does not overflow `i32`;
/// `None` where it would.
pub fn try_flurry_plan(flurry_size: i32, connections: i32) -> (res: Option<Result<Vec<i32>, FlurryError>>)
    ensures
        flurry_size + connections - 1 <= i32::MAX <==> res is Some,
        res matches Some(r) ==> planned(flurry_size, connections, r),
{
    if flurry_size > 0 && connections > i32::MAX - flurry_size + 1 {
        return None;
    }
    Some(flurry_plan(flurry_size, connections))
}

/// How `flurry_size` requests are shared out between `connections`
/// parallel connections: the number of requests each connection sends,
/// in order. At least one request and one connection are needed.
pub fn flurry_plan(flurry_size: i32, connections: i32) -> (res: Result<Vec<i32>, FlurryError>)
    requires
        flurry_size + connections - 1 <= i32::MAX,
    ensures
        planned(flurry_size, connections, res),
{
    if flurry_size < 1 {
        return Err(FlurryError::SizeTooSmall);
    }
    if connections < 1 {
        return Err(FlurryError::TooFewConnections);
    }
    Ok(split_work(flurry_size, connections).collect())
}

/// `a` comes before or equals `b` in the order of (status, time) pairs:
/// by status, then by time.
pub open spec fn pair_le(a: (u16, u64), b: (u16, u64)) -> bool {
    a.0 < b.0 || (a.0 == b.0 && a.1 <= b.1)
}

/// What a batch of requests gave: for each completed request its status
/// and its time in nanoseconds.
pub struct FlurrySummary {
    /// How many requests completed.
    pub completed: usize,
    /// How many requests gave each status.
    pub statuses: HashMap<u16, u32>,
    /// The greatest (status, time) pair.
    pub slowest: (u16, u64),
    /// The least (status, time) pair.
    pub fastest: (u16, u64),
    /// The sum of the times.
    pub total_nanos: u128,
}

pub open spec fn statuses_of(results: Seq<(u16, u64)>) -> Seq<u16> {
    results.map_values(|r: (u16, u64)| r.0)
}

pub open spec fn nanos_sum(results: Seq<(u16, u64)>) -> int
    decreases results.len(),
{
    if results.len() == 0 {
        0
    } else {
        nanos_sum(results.drop_last()) + results.last().1
    }
}

/// `res` sums up the batch `results` of (status, time) pairs: how many
/// completed, how many had each status, the slowest and the fastest in
/// the order of `pair_le`, and the sum of the times.
pub open spec fn summarizes(results: Seq<(u16, u64)>, res: FlurrySummary) -> bool {
    &&& res.completed == results.len()
    &&& res.statuses@ == count_map(statuses_of(results))
    &&& results.contains(res.slowest)
    &&& results.contains(res.fastest)
    &&& forall|i: int| 0 <= i < results.len() ==> pair_le(#[trigger] results[i], res.slowest)
    &&& forall|i: int| 0 <= i < results.len() ==> pair_le(res.fastest, #[trigger] results[i])
    &&& res.total_nanos == nanos_sum(results)
}

/// The summary of `flurry_summary`, for a batch of between one and
/// `u32::MAX` requests; `None` for another.
pub fn try_flurry_summary(results: &Vec<(u16, u64)>) -> (res: Option<FlurrySummary>)
    ensures
        (0 < results@.len() <= u32::MAX) <==> res is Some,
        res matches Some(r) ==> summarizes(results@, r),
{
    if results.len() == 0 || results.len() > 4294967295 {
        return None;
    }
    Some(flurry_summary(results))
}

/// Sums up a batch of completed requests. There is at least one: the
/// average and the extremes of an empty batch are undefined.
pub fn flurry_summary(results: &Vec<(u16, u64)>) -> (res: FlurrySummary)
    requires
        results@.len() > 0,
        results@.len() <= u32::MAX,
    ensures
        summarizes(results@, res),
{
    broadcast use vstd::std_specs::hash::axiom_u16_obeys_hash_table_key_model;

    let mut statuses: Vec<u16> = Vec::new();
    let mut slowest = results[0];
    let mut fastest = results[0];
    let mut total: u128 = 0;
    let mut i: usize = 0;
    while i < results.len()
        invariant
            0 < results@.len() <= u32::MAX,
            i <= results@.len(),
            statuses@ == statuses_of(results@.take(i as int)),
            results@.contains(slowest),
            results@.contains(fastest),
            forall|j: int| 0 <= j < i ==> pair_le(#[trigger] results@[j], slowest),
            forall|j: int| 0 <= j < i ==> pair_le(fastest, #[trigger] results@[j]),
            total == nanos_sum(results@.take(i as int)),
            total <= i * 0xffff_ffff_ffff_ffffu128,
        decreases results@.len() - i,
    {
        let r = results[i];
        proof {
            assert(results@.take(i + 1).drop_last() =~= results@.take(i as int));
            assert(results@.take(i + 1).last() == r);
            assert(statuses_of(results@.take(i + 1)) =~= statuses_of(results@.take(i as int)).push(
                r.0,
            ));
            assert(i * 0xffff_ffff_ffff_ffffu128 + 0xffff_ffff_ffff_ffffu128 <= (i + 1)
                * 0xffff_ffff_ffff_ffffu128) by (nonlinear_arith);
            assert((i + 1) * 0xffff_ffff_ffff_ffffu128 <= 0xffff_ffff * 0xffff_ffff_ffff_ffffu128)
                by (nonlinear_arith)
                requires
                    i + 1 <= 0xffff_ffff,
            ;
        }
        statuses.push(r.0);
        if pair_greater(r, slowest) {
            slowest = r;
        }
        if pair_greater(fastest, r) {
            fastest = r;
        }
        total = total + r.1 as u128;
        i = i + 1;
    }
    proof {
        assert(results@.take(i as int) =~= results@);
    }
    let completed = results.len();
    FlurrySummary { completed, statuses: statuses.counted(), slowest, fastest, total_nanos: total }
}

/// Whether `a` comes strictly after `b` in the order of (status, time)
/// pairs.
fn pair_greater(a: (u16, u64), b: (u16, u64)) -> (res: bool)
    ensures
        res == !pair_le(a, b),
{
    a.0 > b.0 || (a.0 == b.0 && a.1 > b.1)
}

} // verus!
