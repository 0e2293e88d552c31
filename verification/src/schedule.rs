//! The scheduler's plan: which jobs one pass fans out, from the discovered
//! container mapping, the subtitle mapping and the ledger snapshot taken once
//! at pass start. Running the planned jobs on a bounded worker pool is the
//! caller's concurrency; the plan fixes exactly what each worker is given.

use vstd::prelude::*;
use crate::discovery::StemMap;
use crate::job::{spec_outcome, outcome_ledgered, JobEnv, JobSpec};
use crate::ledger::{ledger_has, Ledger};

verus! {

/// The job one container entry gives rise to: its stem, its path, and the
/// subtitle path its stem is paired with, when there is one.
pub open spec fn spec_job_of(
    entry: (Seq<char>, Seq<char>),
    subtitles: Map<Seq<char>, Seq<char>>,
) -> (Seq<char>, Seq<char>, Option<Seq<char>>) {
    (
        entry.0,
        entry.1,
        if subtitles.contains_key(entry.0) {
            Some(subtitles[entry.0])
        } else {
            None
        },
    )
}

/// The plan of one pass: one job per discovered container whose identifier is
/// not in the snapshot, in discovery order.
pub open spec fn spec_plan(
    containers: Seq<(Seq<char>, Seq<char>)>,
    subtitles: Map<Seq<char>, Seq<char>>,
    snapshot: Seq<Seq<char>>,
) -> Seq<(Seq<char>, Seq<char>, Option<Seq<char>>)>
    decreases containers.len(),
{
    if containers.len() == 0 {
        Seq::empty()
    } else {
        let rest = spec_plan(containers.drop_last(), subtitles, snapshot);
        if ledger_has(snapshot, containers.last().0) {
            rest
        } else {
            rest.push(spec_job_of(containers.last(), subtitles))
        }
    }
}

/// Plan one pass: every discovered container not yet ledgered becomes a job,
/// paired with the subtitle candidate of the same identifier when one exists.
pub fn plan_pass(containers: &StemMap, subtitles: &StemMap, snapshot: &Ledger) -> (r: Vec<
    JobSpec,
>)
    requires
        subtitles.wf(),
    ensures
        r.deep_view() == spec_plan(containers@, subtitles.as_map(), snapshot@),
{
    let ghost cs = containers@;
    let mut plan: Vec<JobSpec> = Vec::new();
    proof {
        assert(cs.take(0) =~= Seq::<(Seq<char>, Seq<char>)>::empty());
        assert(plan.deep_view() =~= spec_plan(cs.take(0), subtitles.as_map(), snapshot@));
    }
    let n = containers.len();
    let mut i: usize = 0;
    while i < n
        invariant
            n == cs.len(),
            cs == containers@,
            i <= n,
            subtitles.wf(),
            plan.deep_view() == spec_plan(cs.take(i as int), subtitles.as_map(), snapshot@),
        decreases n - i,
    {
        let (stem, path) = containers.entry_at(i);
        let ghost old_dv = plan.deep_view();
        if !snapshot.contains(stem.as_str()) {
            let subtitle_path = subtitles.get(stem.as_str());
            let job = JobSpec { stem, input_path: path, subtitle_path };
            assert(job.deep_view() == spec_job_of(cs[i as int], subtitles.as_map()));
            plan.push(job);
            proof {
                assert(plan.deep_view() =~= old_dv.push(
                    spec_job_of(cs[i as int], subtitles.as_map()),
                ));
            }
        }
        proof {
            assert(cs.take(i + 1).drop_last() =~= cs.take(i as int));
            assert(cs.take(i + 1).last() == cs[i as int]);
        }
        i += 1;
    }
    proof {
        assert(cs.take(n as int) =~= cs);
    }
    plan
}

/// No planned job's identifier is in the snapshot, and planning against a
/// snapshot that holds every container identifier plans nothing.
pub proof fn lemma_plan_excludes_ledgered(
    containers: Seq<(Seq<char>, Seq<char>)>,
    subtitles: Map<Seq<char>, Seq<char>>,
    snapshot: Seq<Seq<char>>,
)
    ensures
        forall|j: int|
            0 <= j < spec_plan(containers, subtitles, snapshot).len() ==> !ledger_has(
                snapshot,
                (#[trigger] spec_plan(containers, subtitles, snapshot)[j]).0,
            ),
        (forall|i: int|
            0 <= i < containers.len() ==> ledger_has(
                snapshot,
                (#[trigger] containers[i]).0,
            )) ==> spec_plan(containers, subtitles, snapshot).len() == 0,
    decreases containers.len(),
{
    if containers.len() > 0 {
        lemma_plan_excludes_ledgered(containers.drop_last(), subtitles, snapshot);
        assert(containers.last() == containers[containers.len() - 1]);
        assert forall|i: int| 0 <= i < containers.drop_last().len() implies (
        #[trigger] containers.drop_last()[i]) == containers[i] by {}
        let plan = spec_plan(containers, subtitles, snapshot);
        let rest = spec_plan(containers.drop_last(), subtitles, snapshot);
        if !ledger_has(snapshot, containers.last().0) {
            assert forall|j: int| 0 <= j < plan.len() implies !ledger_has(
                snapshot,
                (#[trigger] plan[j]).0,
            ) by {
                if j < rest.len() {
                    assert(plan[j] == rest[j]);
                } else {
                    assert(plan[j] == spec_job_of(containers.last(), subtitles));
                }
            }
        }
    }
}

/// The identifiers a pass appends: those of its jobs whose outcome is
/// ledgered — already converted, or converted now.
pub open spec fn appended_stems(
    plan: Seq<(Seq<char>, Seq<char>, Option<Seq<char>>)>,
    envs: Seq<JobEnv>,
) -> Seq<Seq<char>>
    decreases plan.len(),
{
    if plan.len() == 0 || plan.len() != envs.len() {
        Seq::empty()
    } else {
        let rest = appended_stems(plan.drop_last(), envs.drop_last());
        if outcome_ledgered(
            spec_outcome(plan.last().2 is Some, envs.last()),
        ) {
            rest.push(plan.last().0)
        } else {
            rest
        }
    }
}

/// Law (idempotence): when every job of a pass ends ledgered, replanning the
/// unchanged directory against the grown snapshot plans nothing — the second
/// pass performs zero transcoder invocations. (A job that failed — a copy
/// error, a failed spawn, a non-zero exit — is deliberately left out of the
/// snapshot and is planned again.)
pub proof fn lemma_second_pass_empty(
    containers: Seq<(Seq<char>, Seq<char>)>,
    subtitles: Map<Seq<char>, Seq<char>>,
    snapshot: Seq<Seq<char>>,
    grown: Seq<Seq<char>>,
)
    requires
        // the grown snapshot keeps everything the first pass's snapshot had
        forall|x: Seq<char>| ledger_has(snapshot, x) ==> ledger_has(grown, x),
        // and holds every identifier the first pass planned
        forall|j: int|
            0 <= j < spec_plan(containers, subtitles, snapshot).len() ==> ledger_has(
                grown,
                (#[trigger] spec_plan(containers, subtitles, snapshot)[j]).0,
            ),
    ensures
        spec_plan(containers, subtitles, grown).len() == 0,
    decreases containers.len(),
{
    if containers.len() > 0 {
        let plan = spec_plan(containers, subtitles, snapshot);
        let rest_plan = spec_plan(containers.drop_last(), subtitles, snapshot);
        assert forall|j: int| 0 <= j < rest_plan.len() implies ledger_has(
            grown,
            (#[trigger] rest_plan[j]).0,
        ) by {
            assert(plan[j] == rest_plan[j]);
        }
        lemma_second_pass_empty(containers.drop_last(), subtitles, snapshot, grown);
        if !ledger_has(snapshot, containers.last().0) {
            assert(plan.last() == spec_job_of(containers.last(), subtitles));
            assert(ledger_has(grown, containers.last().0));
        }
    }
}

/// When every job of a pass ends ledgered, the appended identifiers cover
/// every planned identifier.
pub proof fn lemma_appends_cover_plan(
    plan: Seq<(Seq<char>, Seq<char>, Option<Seq<char>>)>,
    envs: Seq<JobEnv>,
)
    requires
        envs.len() == plan.len(),
        forall|j: int|
            0 <= j < plan.len() ==> outcome_ledgered(
                spec_outcome((#[trigger] plan[j]).2 is Some, envs[j]),
            ),
    ensures
        forall|j: int|
            0 <= j < plan.len() ==> ledger_has(
                appended_stems(plan, envs),
                (#[trigger] plan[j]).0,
            ),
    decreases plan.len(),
{
    if plan.len() > 0 {
        let rest = appended_stems(plan.drop_last(), envs.drop_last());
        assert forall|j: int| 0 <= j < plan.drop_last().len() implies outcome_ledgered(
            spec_outcome((#[trigger] plan.drop_last()[j]).2 is Some, envs.drop_last()[j]),
        ) by {
            assert(plan.drop_last()[j] == plan[j]);
            assert(envs.drop_last()[j] == envs[j]);
        }
        lemma_appends_cover_plan(plan.drop_last(), envs.drop_last());
        assert(plan.last() == plan[plan.len() - 1]);
        assert(envs.last() == envs[plan.len() - 1]);
        let all = appended_stems(plan, envs);
        assert(all == rest.push(plan.last().0));
        assert(all[rest.len() as int] == plan.last().0);
        assert forall|j: int| 0 <= j < plan.len() implies ledger_has(
            all,
            (#[trigger] plan[j]).0,
        ) by {
            if j < plan.len() - 1 {
                assert(plan.drop_last()[j] == plan[j]);
                let k = choose|k: int| 0 <= k < rest.len() && rest[k] == plan[j].0;
                assert(all[k] == plan[j].0);
            }
        }
    }
}

/// Law (idempotence, end to end): a pass whose jobs all end ledgered grows
/// the ledger file by its appended lines, in whatever order they landed, and
/// replanning the unchanged directory against that file plans nothing.
pub proof fn lemma_pass_idempotent(
    containers: Seq<(Seq<char>, Seq<char>)>,
    subtitles: Map<Seq<char>, Seq<char>>,
    snapshot: Seq<Seq<char>>,
    envs: Seq<JobEnv>,
)
    requires
        envs.len() == spec_plan(containers, subtitles, snapshot).len(),
        forall|j: int|
            0 <= j < spec_plan(containers, subtitles, snapshot).len() ==> outcome_ledgered(
                spec_outcome(
                    (#[trigger] spec_plan(containers, subtitles, snapshot)[j]).2 is Some,
                    envs[j],
                ),
            ),
    ensures
        spec_plan(
            containers,
            subtitles,
            snapshot + appended_stems(spec_plan(containers, subtitles, snapshot), envs),
        ).len() == 0,
{
    let plan = spec_plan(containers, subtitles, snapshot);
    let appended = appended_stems(plan, envs);
    let grown = snapshot + appended;
    lemma_appends_cover_plan(plan, envs);
    assert forall|x: Seq<char>| ledger_has(snapshot, x) implies ledger_has(grown, x) by {
        let k = choose|k: int| 0 <= k < snapshot.len() && snapshot[k] == x;
        assert(grown[k] == x);
    }
    assert forall|j: int| 0 <= j < plan.len() implies ledger_has(
        grown,
        (#[trigger] plan[j]).0,
    ) by {
        let k = choose|k: int| 0 <= k < appended.len() && appended[k] == plan[j].0;
        assert(grown[snapshot.len() + k] == plan[j].0);
    }
    lemma_second_pass_empty(containers, subtitles, snapshot, grown);
}

/// Law (failure isolation): a job's outcome is a function of its own binding
/// and its own surroundings — however the surroundings of every other job in
/// the pass change, including an external process that exits non-zero, a
/// job whose own surroundings are unchanged keeps its outcome and its ledger
/// append.
pub proof fn lemma_failure_isolation(
    plan: Seq<(Seq<char>, Seq<char>, Option<Seq<char>>)>,
    envs_one: Seq<JobEnv>,
    envs_two: Seq<JobEnv>,
    i: int,
)
    requires
        envs_one.len() == plan.len(),
        envs_two.len() == plan.len(),
        0 <= i < plan.len(),
        envs_one[i] == envs_two[i],
    ensures
        spec_outcome(plan[i].2 is Some, envs_one[i]) == spec_outcome(
            plan[i].2 is Some,
            envs_two[i],
        ),
        outcome_ledgered(spec_outcome(plan[i].2 is Some, envs_one[i])) == outcome_ledgered(
            spec_outcome(plan[i].2 is Some, envs_two[i]),
        ),
{
}

} // verus!
