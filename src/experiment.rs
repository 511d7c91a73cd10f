//! Experiment catalog entries and enrollment records.

use crate::matcher::Matcher;
use vstd::arithmetic::div_mod::{
    lemma_add_mod_noop, lemma_mod_add_multiples_vanish, lemma_mod_twice, lemma_small_mod,
};
use vstd::prelude::*;

verus! {

/// The slice `[start, start + count)` of the bucket space that an experiment
/// draws from, taken around the circle of `0..space_size`.
#[derive(Clone, Copy, Debug, PartialEq, Eq, Structural)]
pub struct Bucket {
    pub count: u32,
    pub start: u32,
}

/// How far `bucket_no` lies after `start`, walking up the circular bucket
/// space of `space_size` slots.
pub open spec fn circular_offset(start: u32, bucket_no: u32, space_size: u32) -> int
    recommends
        space_size > 0,
{
    let b = bucket_no as int % space_size as int;
    let s = start as int % space_size as int;
    if b >= s {
        b - s
    } else {
        b + space_size - s
    }
}

/// Whether the range holds `bucket_no`.
pub open spec fn range_contains(range: Bucket, bucket_no: u32, space_size: u32) -> bool {
    circular_offset(range.start, bucket_no, space_size) < range.count as int
}

/// A slot `k` steps up from `s` around a circle of `n` slots lies at offset
/// `k` from `s`.
proof fn lemma_offset_of_step(s: u32, k: int, n: u32)
    requires
        n > 0,
        s < n,
        0 <= k < n,
    ensures
        circular_offset(s, ((s + k) % (n as int)) as u32, n) == k,
{
    lemma_small_mod(s as nat, n as nat);
    if s + k < n {
        lemma_small_mod((s + k) as nat, n as nat);
    } else {
        lemma_mod_add_multiples_vanish(s + k - n, n as int);
        lemma_small_mod((s + k - n) as nat, n as nat);
    }
}

/// The same step taken from `start` itself, which may equal `n`.
proof fn lemma_step_from_start(start: u32, k: int, n: u32)
    requires
        n > 0,
        start <= n,
        0 <= k < n,
    ensures
        circular_offset(start, ((start + k) % (n as int)) as u32, n) == k,
{
    let s = (start as int % n as int) as u32;
    lemma_small_mod(k as nat, n as nat);
    lemma_add_mod_noop(start as int, k, n as int);
    lemma_mod_twice(start as int, n as int);
    lemma_offset_of_step(s, k, n);
}

/// The edges of a bucket range are exact, on both sides of the point where
/// the bucket space wraps around: of a non-empty range, the first slot
/// (`start`) and the last (`start + count - 1`) are inside; when the range
/// does not cover the whole space, the slot just after it and the slot just
/// before it are outside. Slots are taken modulo the space size.
pub proof fn lemma_range_boundaries(range: Bucket, space_size: u32)
    requires
        space_size > 0,
        range.start <= space_size,
        1 <= range.count <= space_size,
    ensures
        range_contains(range, (range.start % space_size) as u32, space_size),
        range_contains(
            range,
            ((range.start + range.count - 1) % (space_size as int)) as u32,
            space_size,
        ),
        range.count < space_size ==> !range_contains(
            range,
            ((range.start + range.count) % (space_size as int)) as u32,
            space_size,
        ),
        range.count < space_size ==> !range_contains(
            range,
            ((range.start + space_size - 1) % (space_size as int)) as u32,
            space_size,
        ),
{
    let n = space_size as int;
    let c = range.count as int;
    lemma_step_from_start(range.start, 0, space_size);
    lemma_step_from_start(range.start, c - 1, space_size);
    if c < n {
        lemma_step_from_start(range.start, c, space_size);
        lemma_step_from_start(range.start, n - 1, space_size);
    }
}

impl Bucket {
    /// Whether `bucket_no` falls in this range of a space of `space_size`
    /// slots: its distance up from `start`, around the circle, is under
    /// `count`.
    pub fn contains(&self, bucket_no: u32, space_size: u32) -> (r: bool)
        requires
            space_size > 0,
        ensures
            r == range_contains(*self, bucket_no, space_size),
    {
        let b = bucket_no % space_size;
        let s = self.start % space_size;
        let offset = if b >= s {
            b - s
        } else {
            (space_size - s) + b
        };
        offset < self.count
    }
}

/// One variant of an experiment. `ratio` is carried but does not weight the
/// choice: branches are drawn uniformly.
#[derive(Clone, Debug)]
pub struct Branch {
    pub name: String,
    pub ratio: u32,
}

/// A catalog entry.
#[derive(Clone, Debug)]
pub struct Experiment {
    pub id: String,
    pub description: String,
    pub last_modified: u64,
    pub schema_modified: Option<u64>,
    pub buckets: Bucket,
    pub branches: Vec<Branch>,
    pub matcher: Matcher,
}

/// The decision that the installation takes part in experiment `id` on
/// branch `branch`.
#[derive(Clone, Debug)]
pub struct EnrolledExperiment {
    id: String,
    branch: String,
}

impl View for EnrolledExperiment {
    type V = (Seq<char>, Seq<char>);

    closed spec fn view(&self) -> (Seq<char>, Seq<char>) {
        (self.id@, self.branch@)
    }
}

impl EnrolledExperiment {
    pub fn new(id: String, branch: String) -> (r: Self)
        ensures
            r@ == (id@, branch@),
    {
        EnrolledExperiment { id, branch }
    }

    pub fn get_id(&self) -> (r: &String)
        ensures
            r@ == self@.0,
    {
        &self.id
    }

    pub fn get_branch(&self) -> (r: &String)
        ensures
            r@ == self@.1,
    {
        &self.branch
    }
}

/// The (experiment id, branch name) pairs of a sequence of records.
pub open spec fn pairs(v: Seq<EnrolledExperiment>) -> Seq<(Seq<char>, Seq<char>)> {
    v.map_values(|e: EnrolledExperiment| e@)
}

} // verus!
