//! The enrollment engine: computes which experiments an installation takes
//! part in, on which branch, and keeps that decision stable.

use crate::bucketing::{
    branch_index, branch_index_of, bucket, bucket_of, new_identifier, Identifier,
    BUCKET_SPACE_SIZE,
};
use crate::error::Error;
use crate::experiment::{pairs, range_contains, EnrolledExperiment, Experiment};
use crate::matcher::{matches_rule, matches_spec, AppContext};
use vstd::prelude::*;

verus! {

/// Whether an installation in bucket `bucket_no` with context `ctx` can take
/// part in `e`: the experiment has a branch to give, its bucket range holds
/// the bucket, and its targeting rule accepts the context.
pub open spec fn eligible(ctx: AppContext, bucket_no: u32, e: Experiment) -> bool {
    &&& e.branches@.len() > 0
    &&& range_contains(e.buckets, bucket_no, BUCKET_SPACE_SIZE)
    &&& matches_spec(&ctx, &e.matcher)
}

/// The branch recorded for experiment `id` by the first record that names it.
pub open spec fn find_branch(list: Seq<(Seq<char>, Seq<char>)>, id: Seq<char>) -> Option<
    Seq<char>,
>
    decreases list.len(),
{
    if list.len() == 0 {
        None
    } else {
        let r = find_branch(list.drop_last(), id);
        if r is Some {
            r
        } else if list.last().0 == id {
            Some(list.last().1)
        } else {
            None
        }
    }
}

/// The branch that a fresh enrollment in `e` gives to bucket `bucket_no`.
pub open spec fn fresh_branch(bucket_no: u32, e: Experiment) -> Seq<char> {
    e.branches@[branch_index_of(bucket_no, e.branches@.len()) as int].name@
}

/// The enrollment over `catalog`, given the earlier enrollment `prior`: each
/// eligible experiment, once per id, in catalog order; one that `prior`
/// already holds keeps its branch, any other gets a fresh one.
pub open spec fn merged_enrollment(
    prior: Seq<(Seq<char>, Seq<char>)>,
    ctx: AppContext,
    bucket_no: u32,
    catalog: Seq<Experiment>,
) -> Seq<(Seq<char>, Seq<char>)>
    decreases catalog.len(),
{
    if catalog.len() == 0 {
        Seq::empty()
    } else {
        let prev = merged_enrollment(prior, ctx, bucket_no, catalog.drop_last());
        let e = catalog.last();
        if eligible(ctx, bucket_no, e) && find_branch(prev, e.id@) is None {
            let branch = match find_branch(prior, e.id@) {
                Some(b) => b,
                None => fresh_branch(bucket_no, e),
            };
            prev.push((e.id@, branch))
        } else {
            prev
        }
    }
}

/// No two records name the same experiment.
pub open spec fn ids_distinct(list: Seq<(Seq<char>, Seq<char>)>) -> bool {
    forall|i: int, j: int|
        0 <= i < j < list.len() ==> #[trigger] list[i].0 != #[trigger] list[j].0
}

/// A lookup finds nothing exactly when no record names `id`.
proof fn lemma_find_none(list: Seq<(Seq<char>, Seq<char>)>, id: Seq<char>)
    ensures
        find_branch(list, id) is None <==> forall|k: int|
            0 <= k < list.len() ==> #[trigger] list[k].0 != id,
    decreases list.len(),
{
    if list.len() > 0 {
        lemma_find_none(list.drop_last(), id);
        assert forall|k: int| 0 <= k < list.len() - 1 implies #[trigger] list[k] == list.drop_last()[k] by {}
    }
}

/// Where ids are distinct, looking up the id of a record gives its branch.
proof fn lemma_find_record(list: Seq<(Seq<char>, Seq<char>)>, i: int)
    requires
        ids_distinct(list),
        0 <= i < list.len(),
    ensures
        find_branch(list, list[i].0) == Some(list[i].1),
    decreases list.len(),
{
    let prefix = list.drop_last();
    assert(ids_distinct(prefix)) by {
        assert forall|a: int, b: int| 0 <= a < b < prefix.len() implies #[trigger] prefix[a].0
            != #[trigger] prefix[b].0 by {
            assert(prefix[a] == list[a] && prefix[b] == list[b]);
        }
    }
    if i < list.len() - 1 {
        assert(prefix[i] == list[i]);
        lemma_find_record(prefix, i);
    } else {
        lemma_find_none(prefix, list[i].0);
        assert forall|k: int| 0 <= k < prefix.len() implies #[trigger] prefix[k].0 != list[i].0 by {
            assert(prefix[k] == list[k]);
        }
    }
}

/// An enrollment names each experiment at most once.
pub proof fn lemma_enrollment_ids_distinct(
    prior: Seq<(Seq<char>, Seq<char>)>,
    ctx: AppContext,
    bucket_no: u32,
    catalog: Seq<Experiment>,
)
    ensures
        ids_distinct(merged_enrollment(prior, ctx, bucket_no, catalog)),
    decreases catalog.len(),
{
    if catalog.len() > 0 {
        let prev = merged_enrollment(prior, ctx, bucket_no, catalog.drop_last());
        lemma_enrollment_ids_distinct(prior, ctx, bucket_no, catalog.drop_last());
        let e = catalog.last();
        if eligible(ctx, bucket_no, e) && find_branch(prev, e.id@) is None {
            lemma_find_none(prev, e.id@);
            let next = merged_enrollment(prior, ctx, bucket_no, catalog);
            assert forall|a: int, b: int| 0 <= a < b < next.len() implies #[trigger] next[a].0
                != #[trigger] next[b].0 by {
                if b == prev.len() {
                    assert(next[a] == prev[a]);
                } else {
                    assert(next[a] == prev[a] && next[b] == prev[b]);
                }
            }
        }
    }
}

/// Looking an enrolled experiment up always gives back the one branch it was
/// enrolled on: an enrollment holds no second record for the same id that a
/// later lookup could find instead.
pub proof fn lemma_lookup_gives_enrolled_branch(
    prior: Seq<(Seq<char>, Seq<char>)>,
    ctx: AppContext,
    bucket_no: u32,
    catalog: Seq<Experiment>,
    i: int,
)
    requires
        0 <= i < merged_enrollment(prior, ctx, bucket_no, catalog).len(),
    ensures
        ({
            let list = merged_enrollment(prior, ctx, bucket_no, catalog);
            find_branch(list, list[i].0) == Some(list[i].1)
        }),
{
    lemma_enrollment_ids_distinct(prior, ctx, bucket_no, catalog);
    lemma_find_record(merged_enrollment(prior, ctx, bucket_no, catalog), i);
}

/// A refresh keeps branches and drops what left: each record of the new
/// enrollment names an experiment of the new catalog that is eligible, and
/// where the earlier enrollment held that experiment, the record keeps the
/// branch it had.
pub proof fn lemma_refresh_keeps_branches(
    prior: Seq<(Seq<char>, Seq<char>)>,
    ctx: AppContext,
    bucket_no: u32,
    catalog: Seq<Experiment>,
)
    ensures
        ({
            let list = merged_enrollment(prior, ctx, bucket_no, catalog);
            forall|k: int|
                0 <= k < list.len() ==> {
                    &&& (find_branch(prior, #[trigger] list[k].0) is Some ==> list[k].1
                        == find_branch(prior, list[k].0)->0)
                    &&& exists|j: int|
                        0 <= j < catalog.len() && catalog[j].id@ == list[k].0 && eligible(
                            ctx,
                            bucket_no,
                            #[trigger] catalog[j],
                        )
                }
        }),
    decreases catalog.len(),
{
    if catalog.len() > 0 {
        let rest = catalog.drop_last();
        lemma_refresh_keeps_branches(prior, ctx, bucket_no, rest);
        let prev = merged_enrollment(prior, ctx, bucket_no, rest);
        let list = merged_enrollment(prior, ctx, bucket_no, catalog);
        assert forall|k: int| 0 <= k < list.len() implies {
            &&& (find_branch(prior, #[trigger] list[k].0) is Some ==> list[k].1 == find_branch(
                prior,
                list[k].0,
            )->0)
            &&& exists|j: int|
                0 <= j < catalog.len() && catalog[j].id@ == list[k].0 && eligible(
                    ctx,
                    bucket_no,
                    #[trigger] catalog[j],
                )
        } by {
            if k < prev.len() {
                assert(list[k] == prev[k]);
                let j = choose|j: int|
                    0 <= j < rest.len() && rest[j].id@ == prev[k].0 && eligible(
                        ctx,
                        bucket_no,
                        #[trigger] rest[j],
                    );
                assert(catalog[j] == rest[j]);
            } else {
                assert(catalog[catalog.len() - 1] == catalog.last());
            }
        }
    }
}

/// The position of the first record for experiment `id`, if any.
pub fn find_enrolled(list: &Vec<EnrolledExperiment>, id: &String) -> (r: Option<usize>)
    ensures
        match r {
            Some(i) => i < list@.len() && list@[i as int]@.0 == id@ && find_branch(
                pairs(list@),
                id@,
            ) == Some(list@[i as int]@.1),
            None => find_branch(pairs(list@), id@) is None,
        },
{
    let mut i: usize = 0;
    while i < list.len()
        invariant
            i <= list@.len(),
            find_branch(pairs(list@).take(i as int), id@) is None,
        decreases list@.len() - i,
    {
        assert(pairs(list@).take(i + 1).drop_last() == pairs(list@).take(i as int));
        if list[i].get_id().eq(id) {
            assert(find_branch(pairs(list@).take(i + 1), id@) == Some(list@[i as int]@.1));
            proof {
                lemma_find_prefix(pairs(list@), id@, i + 1);
            }
            return Some(i);
        }
        i += 1;
    }
    assert(pairs(list@).take(list@.len() as int) == pairs(list@));
    None
}

/// A record found in a prefix is the one found in the whole sequence.
proof fn lemma_find_prefix(list: Seq<(Seq<char>, Seq<char>)>, id: Seq<char>, n: int)
    requires
        0 <= n <= list.len(),
        find_branch(list.take(n), id) is Some,
    ensures
        find_branch(list, id) == find_branch(list.take(n), id),
    decreases list.len() - n,
{
    if n < list.len() {
        assert(list.take(n + 1).drop_last() == list.take(n));
        lemma_find_prefix(list, id, n + 1);
    } else {
        assert(list.take(n) == list);
    }
}

/// Computes the enrollment over `catalog` for an installation in bucket
/// `bucket_no` with context `ctx`, keeping the branches of `prior`.
pub fn compute_enrollment(
    prior: &Vec<EnrolledExperiment>,
    ctx: &AppContext,
    bucket_no: u32,
    catalog: &Vec<Experiment>,
) -> (r: Vec<EnrolledExperiment>)
    ensures
        pairs(r@) == merged_enrollment(pairs(prior@), *ctx, bucket_no, catalog@),
{
    let mut out: Vec<EnrolledExperiment> = Vec::new();
    let mut i: usize = 0;
    assert(pairs(out@) == Seq::<(Seq<char>, Seq<char>)>::empty());
    assert(catalog@.take(0) == Seq::<Experiment>::empty());
    while i < catalog.len()
        invariant
            i <= catalog@.len(),
            pairs(out@) == merged_enrollment(
                pairs(prior@),
                *ctx,
                bucket_no,
                catalog@.take(i as int),
            ),
        decreases catalog@.len() - i,
    {
        let e = &catalog[i];
        assert(catalog@.take(i + 1).drop_last() == catalog@.take(i as int));
        assert(catalog@.take(i + 1).last() == *e);
        if e.branches.len() > 0 && e.buckets.contains(bucket_no, BUCKET_SPACE_SIZE) && matches_rule(
            ctx,
            &e.matcher,
        ) {
            if find_enrolled(&out, &e.id).is_none() {
                let branch = match find_enrolled(prior, &e.id) {
                    Some(j) => prior[j].get_branch().clone(),
                    None => {
                        let k = branch_index(bucket_no, e.branches.len());
                        e.branches[k].name.clone()
                    },
                };
                let rec = EnrolledExperiment::new(e.id.clone(), branch);
                let ghost before = out@;
                out.push(rec);
                assert(pairs(out@) == pairs(before).push(rec@));
            }
        }
        i += 1;
    }
    assert(catalog@.take(catalog@.len() as int) == catalog@);
    out
}

/// The durable record of a computed enrollment, kept under [`PERSISTED_KEY`].
pub struct PersistedData {
    pub app_ctx: AppContext,
    pub experiments: Vec<Experiment>,
    pub enrolled_experiments: Vec<EnrolledExperiment>,
    pub bucket_no: u32,
    pub uuid: Identifier,
}

/// The key of the record in the key-value store.
pub const PERSISTED_KEY: &'static str = "persisted";

/// The experiments state of one installation: its identity, the catalog
/// snapshot, and the enrollment decided over it.
pub struct Experiments {
    uuid: Identifier,
    app_ctx: AppContext,
    experiments: Vec<Experiment>,
    enrolled_experiments: Vec<EnrolledExperiment>,
    bucket_no: u32,
}

/// What construction does once the store has been read.
pub enum Startup {
    /// A record was stored: the engine adopts it as it is.
    Loaded(Experiments),
    /// Nothing was stored: the catalog must be fetched, then handed to
    /// [`Experiments::first_run`].
    FetchCatalog(AppContext),
}

impl Experiments {
    pub closed spec fn spec_identifier(&self) -> Identifier {
        self.uuid
    }

    pub closed spec fn spec_app_context(&self) -> AppContext {
        self.app_ctx
    }

    pub closed spec fn spec_experiments(&self) -> Seq<Experiment> {
        self.experiments@
    }

    pub closed spec fn spec_enrolled(&self) -> Seq<(Seq<char>, Seq<char>)> {
        pairs(self.enrolled_experiments@)
    }

    pub closed spec fn spec_bucket(&self) -> u32 {
        self.bucket_no
    }

    /// The first step of construction: adopt a stored record verbatim, with
    /// no re-matching, or ask for the catalog when there is none.
    pub fn begin(app_ctx: AppContext, stored: Option<PersistedData>) -> (r: Startup)
        ensures
            match stored {
                Some(data) => r is Loaded && r->Loaded_0.spec_identifier() == data.uuid
                    && r->Loaded_0.spec_bucket() == data.bucket_no
                    && r->Loaded_0.spec_experiments() == data.experiments@
                    && r->Loaded_0.spec_enrolled() == pairs(data.enrolled_experiments@)
                    && r->Loaded_0.spec_app_context() == app_ctx,
                None => r == Startup::FetchCatalog(app_ctx),
            },
    {
        match stored {
            Some(data) => Startup::Loaded(Experiments::from_persisted(app_ctx, data)),
            None => Startup::FetchCatalog(app_ctx),
        }
    }

    /// An engine that adopts a stored record as it is: identifier, bucket,
    /// catalog and branches are kept, nothing is recomputed.
    pub fn from_persisted(app_ctx: AppContext, data: PersistedData) -> (r: Self)
        ensures
            r.spec_identifier() == data.uuid,
            r.spec_bucket() == data.bucket_no,
            r.spec_experiments() == data.experiments@,
            r.spec_enrolled() == pairs(data.enrolled_experiments@),
            r.spec_app_context() == app_ctx,
    {
        Experiments {
            uuid: data.uuid,
            app_ctx,
            experiments: data.experiments,
            enrolled_experiments: data.enrolled_experiments,
            bucket_no: data.bucket_no,
        }
    }

    /// The first-run computation for a given identifier: bucket the
    /// identifier, then enroll in each eligible experiment of the catalog.
    pub fn enroll(app_ctx: AppContext, uuid: Identifier, catalog: Vec<Experiment>) -> (r: Self)
        ensures
            r.spec_identifier() == uuid,
            r.spec_bucket() == bucket_of(uuid.bytes@, BUCKET_SPACE_SIZE),
            r.spec_experiments() == catalog@,
            r.spec_enrolled() == merged_enrollment(
                Seq::empty(),
                app_ctx,
                r.spec_bucket(),
                catalog@,
            ),
            r.spec_app_context() == app_ctx,
    {
        let bucket_no = bucket(&uuid, BUCKET_SPACE_SIZE);
        let none: Vec<EnrolledExperiment> = Vec::new();
        assert(pairs(none@) == Seq::<(Seq<char>, Seq<char>)>::empty());
        let enrolled_experiments = compute_enrollment(&none, &app_ctx, bucket_no, &catalog);
        Experiments { uuid, app_ctx, experiments: catalog, enrolled_experiments, bucket_no }
    }

    /// The first-run computation once the catalog fetch has answered: a
    /// failed fetch fails construction (nothing is to be stored); else a new
    /// identifier is drawn and the installation enrolled.
    pub fn first_run(app_ctx: AppContext, fetched: Result<Vec<Experiment>, Error>) -> (r: Result<
        Self,
        Error,
    >)
        ensures
            match fetched {
                Err(e) => r == Err::<Self, Error>(e),
                Ok(catalog) => r is Ok && r->Ok_0.spec_bucket() == bucket_of(
                    r->Ok_0.spec_identifier().bytes@,
                    BUCKET_SPACE_SIZE,
                ) && r->Ok_0.spec_experiments() == catalog@ && r->Ok_0.spec_enrolled()
                    == merged_enrollment(
                    Seq::empty(),
                    app_ctx,
                    r->Ok_0.spec_bucket(),
                    catalog@,
                ) && r->Ok_0.spec_app_context() == app_ctx,
            },
    {
        match fetched {
            Err(e) => Err(e),
            Ok(catalog) => {
                let uuid = new_identifier();
                Ok(Experiments::enroll(app_ctx, uuid, catalog))
            },
        }
    }

    /// Replaces the catalog with a newly fetched one and recomputes the
    /// enrollment: experiments still eligible keep their branch, those gone
    /// or no longer eligible are dropped, newly eligible ones are enrolled
    /// fresh. Identity and bucket do not change.
    pub fn refresh(&mut self, catalog: Vec<Experiment>)
        ensures
            final(self).spec_identifier() == old(self).spec_identifier(),
            final(self).spec_bucket() == old(self).spec_bucket(),
            final(self).spec_app_context() == old(self).spec_app_context(),
            final(self).spec_experiments() == catalog@,
            final(self).spec_enrolled() == merged_enrollment(
                old(self).spec_enrolled(),
                old(self).spec_app_context(),
                old(self).spec_bucket(),
                catalog@,
            ),
    {
        let enrolled = compute_enrollment(
            &self.enrolled_experiments,
            &self.app_ctx,
            self.bucket_no,
            &catalog,
        );
        self.enrolled_experiments = enrolled;
        self.experiments = catalog;
    }

    /// The branch of experiment `exp_name`, or `None` when the installation
    /// is not enrolled in it.
    pub fn find_experiment_branch(&self, exp_name: &str) -> (r: Option<String>)
        ensures
            match r {
                Some(b) => find_branch(self.spec_enrolled(), exp_name@) == Some(b@),
                None => find_branch(self.spec_enrolled(), exp_name@) is None,
            },
    {
        let key = exp_name.to_owned();
        match find_enrolled(&self.enrolled_experiments, &key) {
            Some(i) => Some(self.enrolled_experiments[i].get_branch().clone()),
            None => None,
        }
    }

    /// The branch of experiment `exp_name`; an error when the installation is
    /// not enrolled in it.
    pub fn get_experiment_branch(&self, exp_name: &str) -> (r: Result<String, Error>)
        ensures
            match r {
                Ok(b) => find_branch(self.spec_enrolled(), exp_name@) == Some(b@),
                Err(e) => e == Error::NotEnrolled && find_branch(
                    self.spec_enrolled(),
                    exp_name@,
                ) is None,
            },
    {
        match self.find_experiment_branch(exp_name) {
            Some(b) => Ok(b),
            None => Err(Error::NotEnrolled),
        }
    }

    pub fn get_enrolled_experiments(&self) -> (r: &Vec<EnrolledExperiment>)
        ensures
            pairs(r@) == self.spec_enrolled(),
    {
        &self.enrolled_experiments
    }

    pub fn get_experiments(&self) -> (r: &Vec<Experiment>)
        ensures
            r@ == self.spec_experiments(),
    {
        &self.experiments
    }

    pub fn get_bucket(&self) -> (r: u32)
        ensures
            r == self.spec_bucket(),
    {
        self.bucket_no
    }

    pub fn get_identifier(&self) -> (r: Identifier)
        ensures
            r == self.spec_identifier(),
    {
        self.uuid
    }

    pub fn get_app_context(&self) -> (r: &AppContext)
        ensures
            *r == self.spec_app_context(),
    {
        &self.app_ctx
    }
}

} // verus!
