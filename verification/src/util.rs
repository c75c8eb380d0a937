use std::collections::HashMap;
use std::hash::Hash;
use vstd::prelude::*;
use vstd::std_specs::hash::*;
use vstd::string::*;

verus! {

/// Column at which long lines are cut by `truncate`.
pub const TRUNC_COLUMN: usize = 92;

/// A line longer than `TRUNC_COLUMN - 3` characters keeps its first
/// `TRUNC_COLUMN - 3` characters followed by an ellipsis.
pub open spec fn spec_truncate(s: Seq<char>) -> Seq<char> {
    if s.len() <= TRUNC_COLUMN - 3 {
        s
    } else {
        s.take(TRUNC_COLUMN - 3) + seq!['.', '.', '.']
    }
}

/// Shortens a line for display.
pub fn truncate(s: &str) -> (res: String)
    ensures
        res@ == spec_truncate(s@),
{
    let n = s.unicode_len();
    if n <= TRUNC_COLUMN - 3 {
        s.to_owned()
    } else {
        let head = s.substring_char(0, TRUNC_COLUMN - 3).to_owned();
        proof {
            reveal_strlit("...");
        }
        head.concat("...")
    }
}


/// Number of times `x` occurs in `s`.
pub open spec fn occurrences<T>(s: Seq<T>, x: T) -> nat
    decreases s.len(),
{
    if s.len() == 0 {
        0
    } else {
        (if s[0] == x { 1nat } else { 0nat }) + occurrences(s.drop_first(), x)
    }
}

/// The map from each item of `s` to the number of times it occurs there.
pub open spec fn count_map<T>(s: Seq<T>) -> Map<T, u32> {
    Map::new(|k: T| s.contains(k), |k: T| occurrences(s, k) as u32)
}

proof fn lemma_occurrences_bound<T>(s: Seq<T>, x: T)
    ensures
        occurrences(s, x) <= s.len(),
        occurrences(s, x) > 0 <==> s.contains(x),
    decreases s.len(),
{
    if s.len() > 0 {
        lemma_occurrences_bound(s.drop_first(), x);
        if s.drop_first().contains(x) {
            let j = choose|j: int| 0 <= j < s.drop_first().len() && s.drop_first()[j] == x;
            assert(s[j + 1] == x);
        }
        if s[0] != x && s.contains(x) {
            let j = choose|j: int| 0 <= j < s.len() && s[j] == x;
            assert(s.drop_first()[j - 1] == x);
        }
    }
}

/// Counting of the items an iterator yields.
pub trait IterExt: Sized {
    type Item: Hash + Eq;

    /// The items, in the order in which they are counted.
    spec fn items(&self) -> Seq<Self::Item>;

    /// Maps each distinct item to the number of times it occurs.
    fn counted(self) -> (res: HashMap<Self::Item, u32>)
        requires
            self.items().len() <= u32::MAX,
        ensures
            obeys_key_model::<Self::Item>() ==> res@ == count_map(self.items()),
    ;
}

impl<T: Hash + Eq> IterExt for Vec<T> {
    type Item = T;

    open spec fn items(&self) -> Seq<T> {
        self@
    }

    fn counted(self) -> (res: HashMap<T, u32>) {
        broadcast use axiom_random_state_builds_valid_hashers;

        let ghost all = self@;
        let mut rest = self;
        let mut map: HashMap<T, u32> = HashMap::new();
        proof {
            assert(all.skip(all.len() as int) =~= Seq::<T>::empty());
            assert(map@ =~= count_map(Seq::<T>::empty()));
        }
        while rest.len() > 0
            invariant
                all.len() <= u32::MAX,
                rest@ == all.take(rest@.len() as int),
                rest@.len() <= all.len(),
                obeys_key_model::<T>() ==> map@ == count_map(all.skip(rest@.len() as int)),
            decreases rest@.len(),
        {
            let ghost before = all.skip(rest@.len() as int);
            let item = rest.pop().unwrap();
            let ghost after = all.skip(rest@.len() as int);
            proof {
                assert(after.drop_first() =~= before);
                assert(after[0] == item);
            }
            let current: u32 = match map.get(&item) {
                Some(c) => *c,
                None => 0,
            };
            let next: u32 = if current < u32::MAX { current + 1 } else { current };
            proof {
                if obeys_key_model::<T>() {
                    lemma_occurrences_bound(before, item);
                    lemma_occurrences_bound(after, item);
                }
            }
            map.insert(item, next);
            proof {
                if obeys_key_model::<T>() {
                    assert forall|k: T| #[trigger] after.contains(k) == (before.contains(k) || k == after[0]) by {
                        lemma_occurrences_bound(after, k);
                        lemma_occurrences_bound(before, k);
                    }
                    assert forall|k: T| after.contains(k) implies (occurrences(after, k) as u32)
                        == #[trigger] map@[k] by {
                        lemma_occurrences_bound(after, k);
                    }
                    assert(map@ =~= count_map(after));
                }
            }
        }
        proof {
            assert(all.skip(0) =~= all);
        }
        map
    }
}

/// How a number of requests is shared out between parallel workers: each
/// step hands the next worker its rounded-up share of what is left.
pub open spec fn split_chunks(total: int, workers: int) -> Seq<int>
    decreases total,
{
    if total <= 0 || workers <= 0 {
        Seq::empty()
    } else {
        let c = (total + workers - 1) / workers;
        if 1 <= c <= total {
            seq![c] + split_chunks(total - c, workers - 1)
        } else {
            Seq::empty()
        }
    }
}

/// Sum of a sequence of integers.
pub open spec fn seq_sum(s: Seq<int>) -> int
    decreases s.len(),
{
    if s.len() == 0 {
        0
    } else {
        s[0] + seq_sum(s.drop_first())
    }
}

/// Yields the sizes of the batches into which `total_count` requests are
/// split for `workers` parallel workers.
pub struct SplitWork {
    total_count: i32,
    workers: i32,
}

impl SplitWork {
    /// The batch sizes that are still to come.
    pub closed spec fn chunks(&self) -> Seq<int> {
        split_chunks(self.total_count as int, self.workers as int)
    }

    /// The iterator can be driven to its end without a division by zero or
    /// an overflow.
    pub closed spec fn wf(&self) -> bool {
        self.total_count <= 0 || (self.workers >= 1 && self.total_count + self.workers - 1
            <= i32::MAX)
    }

    /// The next batch size, if any is left.
    pub fn next(&mut self) -> (res: Option<i32>)
        requires
            old(self).wf(),
        ensures
            final(self).wf(),
            old(self).chunks().len() == 0 ==> res is None
                && final(self).chunks() == old(self).chunks(),
            old(self).chunks().len() > 0 ==> res == Some(old(self).chunks()[0] as i32)
                && final(self).chunks() == old(self).chunks().drop_first(),
    {
        if self.total_count > 0 {
            let t = self.total_count;
            let w = self.workers;
            let c = (t + (w - 1)) / w;
            proof {
                lemma_first_chunk(t as int, w as int);
            }
            self.total_count = t - c;
            self.workers = w - 1;
            proof {
                assert(split_chunks(t as int, w as int) == seq![c as int] + split_chunks(
                    t - c,
                    w - 1,
                ));
                assert((seq![c as int] + split_chunks(t - c, w - 1)).drop_first() =~= split_chunks(
                    t - c,
                    w - 1,
                ));
            }
            Some(c)
        } else {
            None
        }
    }

    /// All remaining batch sizes, in order.
    pub fn collect(self) -> (res: Vec<i32>)
        requires
            self.wf(),
        ensures
            res@.len() == self.chunks().len(),
            forall|i: int| 0 <= i < res@.len() ==> res@[i] as int == #[trigger] self.chunks()[i],
    {
        let ghost all = self.chunks();
        proof {
            lemma_split_chunks_positive(self.total_count as int, self.workers as int);
            assert(all.skip(0) =~= all);
        }
        let mut it = self;
        let mut out: Vec<i32> = Vec::new();
        loop
            invariant
                it.wf(),
                all == self.chunks(),
                out@.len() <= all.len(),
                it.chunks() =~= all.skip(out@.len() as int),
                forall|i: int| 0 <= i < out@.len() ==> out@[i] as int == #[trigger] all[i],
                forall|i: int| 0 <= i < all.len() ==> 1 <= #[trigger] all[i] <= i32::MAX,
            decreases it.chunks().len(),
        {
            let ghost prev = it.chunks();
            match it.next() {
                Some(c) => {
                    proof {
                        assert(prev[0] == all[out@.len() as int]);
                    }
                    out.push(c);
                    proof {
                        assert(prev.drop_first() =~= all.skip(out@.len() as int));
                    }
                },
                None => {
                    proof {
                        assert(prev.len() == 0);
                        assert(all.skip(out@.len() as int).len() == all.len() - out@.len());
                    }
                    return out;
                },
            }
        }
    }
}

proof fn lemma_first_chunk(t: int, w: int)
    requires
        t >= 1,
        w >= 1,
    ensures
        1 <= (t + w - 1) / w <= t,
        w == 1 ==> (t + w - 1) / w == t,
{
    vstd::arithmetic::div_mod::lemma_fundamental_div_mod(t + w - 1, w);
    let q = (t + w - 1) / w;
    let r = (t + w - 1) % w;
    assert(t + w - 1 == w * q + r);
    assert(0 <= r < w);
    if q < 1 {
        assert(w * q <= 0) by (nonlinear_arith)
            requires
                q < 1,
                w >= 1,
        ;
    }
    if q > t {
        assert(w * q >= w * (t + 1)) by (nonlinear_arith)
            requires
                q >= t + 1,
                w >= 1,
        ;
        assert(w * (t + 1) == w * t + w) by (nonlinear_arith);
        assert(w * t >= t) by (nonlinear_arith)
            requires
                w >= 1,
                t >= 1,
        ;
    }
    if w == 1 {
        assert(q == t);
    }
}

proof fn lemma_split_chunks_positive(t: int, w: int)
    requires
        t <= i32::MAX,
    ensures
        forall|i: int|
            0 <= i < split_chunks(t, w).len() ==> 1 <= #[trigger] split_chunks(t, w)[i] <= i32::MAX,
    decreases t,
{
    if t > 0 && w > 0 {
        lemma_first_chunk(t, w);
        let c = (t + w - 1) / w;
        lemma_split_chunks_positive(t - c, w - 1);
        assert forall|i: int| 0 <= i < split_chunks(t, w).len() implies 1 <= #[trigger] split_chunks(
            t,
            w,
        )[i] <= i32::MAX by {
            if i > 0 {
                assert(split_chunks(t, w)[i] == split_chunks(t - c, w - 1)[i - 1]);
            }
        }
    }
}

/// Creates the batch sizes for `total_count` requests over `workers`
/// workers.
pub fn split_work(total_count: i32, workers: i32) -> (res: SplitWork)
    requires
        total_count <= 0 || (workers >= 1 && total_count + workers - 1 <= i32::MAX),
    ensures
        res.wf(),
        res.chunks() == split_chunks(total_count as int, workers as int),
{
    SplitWork { total_count, workers }
}

/// The batches that `split_work` yields add up to the number of requests.
pub proof fn lemma_split_work_sum(total_count: int, workers: int)
    requires
        total_count >= 0,
        workers >= 1,
    ensures
        seq_sum(split_chunks(total_count, workers)) == total_count,
    decreases total_count,
{
    if total_count > 0 {
        lemma_first_chunk(total_count, workers);
        let c = (total_count + workers - 1) / workers;
        if workers > 1 {
            lemma_split_work_sum(total_count - c, workers - 1);
        } else {
            assert(split_chunks(total_count - c, workers - 1) =~= Seq::<int>::empty());
        }
        let s = split_chunks(total_count, workers);
        let rest = split_chunks(total_count - c, workers - 1);
        assert(s == seq![c] + rest);
        assert(s.drop_first() =~= rest);
        assert(s.len() > 0);
        assert(s[0] == c);
        assert(seq_sum(rest) == total_count - c);
        assert(seq_sum(s) == s[0] + seq_sum(s.drop_first()));
    }
}

/// The batches that `split_work` yields are as even as possible: there are
/// as many as there are workers (or requests, if these are fewer), the first
/// `total_count % workers` of them hold one request more than the others,
/// and each holds `total_count / workers` requests otherwise.
pub proof fn lemma_split_work_balanced(total_count: int, workers: int)
    requires
        total_count >= 0,
        workers >= 1,
    ensures
        split_chunks(total_count, workers).len() == if total_count < workers {
            total_count
        } else {
            workers
        },
        forall|i: int|
            0 <= i < split_chunks(total_count, workers).len() ==> #[trigger] split_chunks(
                total_count,
                workers,
            )[i] == total_count / workers + if i < total_count % workers {
                1int
            } else {
                0int
            },
    decreases total_count,
{
    let t = total_count;
    let w = workers;
    if t > 0 {
        lemma_first_chunk(t, w);
        let c = (t + w - 1) / w;
        let q = t / w;
        let r = t % w;
        vstd::arithmetic::div_mod::lemma_fundamental_div_mod(t, w);
        assert(t == w * q + r);
        assert(0 <= r < w);
        assert(q >= 0) by (nonlinear_arith)
            requires
                t == w * q + r,
                r < w,
                t >= 1,
                w >= 1,
        ;
        if r >= 1 {
            assert(t + w - 1 == (q + 1) * w + (r - 1)) by (nonlinear_arith)
                requires
                    t == w * q + r,
            ;
            vstd::arithmetic::div_mod::lemma_fundamental_div_mod_converse(t + w - 1, w, q + 1, r - 1);
        } else {
            assert(t + w - 1 == q * w + (w - 1)) by (nonlinear_arith)
                requires
                    t == w * q + r,
                    r == 0,
            ;
            vstd::arithmetic::div_mod::lemma_fundamental_div_mod_converse(t + w - 1, w, q, w - 1);
        }
        let s = split_chunks(t, w);
        let rest = split_chunks(t - c, w - 1);
        assert(s == seq![c] + rest);
        if w == 1 {
            assert(q == t);
            assert(rest =~= Seq::<int>::empty());
        } else {
            let r2 = if r >= 1 { r - 1 } else { 0 };
            if r >= 1 {
                assert(t - (q + 1) == q * (w - 1) + (r - 1)) by (nonlinear_arith)
                    requires
                        t == w * q + r,
                ;
            } else {
                assert(t - q == q * (w - 1)) by (nonlinear_arith)
                    requires
                        t == w * q + r,
                        r == 0,
                ;
            }
            vstd::arithmetic::div_mod::lemma_fundamental_div_mod_converse(t - c, w - 1, q, r2);
            lemma_split_work_balanced(t - c, w - 1);
            if q >= 1 {
                assert(t >= w) by (nonlinear_arith)
                    requires
                        t == w * q + r,
                        q >= 1,
                        r >= 0,
                        w >= 1,
                ;
                assert(t - c >= w - 1) by (nonlinear_arith)
                    requires
                        t - c == q * (w - 1) + r2,
                        q >= 1,
                        r2 >= 0,
                        w >= 2,
                ;
            } else {
                assert(t == r) by (nonlinear_arith)
                    requires
                        t == w * q + r,
                        q == 0,
                ;
            }
            assert forall|i: int| 0 <= i < s.len() implies #[trigger] s[i] == q + if i < r {
                1int
            } else {
                0int
            } by {
                if i > 0 {
                    assert(s[i] == rest[i - 1]);
                }
            }
        }
    }
}

} // verus!
