use vstd::prelude::*;
use crate::fsmodel::LocalTree;

verus! {

/// What one invocation of the provisioning tool did: the exit status of each
/// phase, and the files the tool left in the working directory on a
/// successful apply (the state file and the provider lock), as
/// (relative name, content) pairs. A run is an input to the orchestrator:
/// the sequencing below is verified for every possible run.
pub struct ProvisionerRun {
    pub init_ok: bool,
    pub plan_ok: bool,
    pub apply_ok: bool,
    pub destroy_ok: bool,
    pub artifacts: Vec<(String, String)>,
}

/// The result of the apply sequence: the first phase that failed, or
/// success.
pub enum ApplyOutcome {
    Success,
    InitFailed,
    PlanFailed,
    ApplyFailed,
}

/// The outcome the apply sequence must report for a run: `init`, then
/// `plan`, then `apply`, stopping at the first failure.
pub open spec fn spec_apply_outcome(run: &ProvisionerRun) -> ApplyOutcome {
    if !run.init_ok {
        ApplyOutcome::InitFailed
    } else if !run.plan_ok {
        ApplyOutcome::PlanFailed
    } else if !run.apply_ok {
        ApplyOutcome::ApplyFailed
    } else {
        ApplyOutcome::Success
    }
}

/// Some artifact of the run has this relative name.
pub open spec fn artifact_named(run: &ProvisionerRun, rel: Seq<char>) -> bool {
    exists|t: int| 0 <= t < run.artifacts@.len() && run.artifacts@[t].0@ == rel
}

/// The artifacts carry pairwise distinct names.
pub open spec fn artifacts_distinct(run: &ProvisionerRun) -> bool {
    forall|t: int, u: int|
        0 <= t < u < run.artifacts@.len() ==> #[trigger] run.artifacts@[t].0@
            != #[trigger] run.artifacts@[u].0@
}

/// The artifacts carry pairwise distinct, nonempty names.
pub open spec fn artifacts_wf(run: &ProvisionerRun) -> bool {
    &&& artifacts_distinct(run)
    &&& forall|t: int| 0 <= t < run.artifacts@.len() ==> #[trigger] run.artifacts@[t].0@.len() >= 1
}

/// A path `p` is where some artifact of the run lands under `dir`.
pub open spec fn artifact_path(run: &ProvisionerRun, dir: Seq<char>, p: Seq<char>) -> bool {
    exists|t: int| 0 <= t < run.artifacts@.len() && p == dir + "/"@ + run.artifacts@[t].0@
}

/// Run the apply sequence of the provisioner in `dir`: `init`, `plan`,
/// `apply`, stopping at the first non-zero exit. On success the run's
/// artifacts are in the working directory; on failure nothing is recorded.
pub fn apply_phase(run: &ProvisionerRun, fs: &mut LocalTree, dir: &str) -> (r: ApplyOutcome)
    requires
        old(fs).wf(),
        artifacts_distinct(run),
    ensures
        final(fs).wf(),
        r == spec_apply_outcome(run),
        !(r matches ApplyOutcome::Success) ==> *final(fs) == *old(fs),
        r matches ApplyOutcome::Success ==> {
            &&& forall|t: int|
                0 <= t < run.artifacts@.len() ==> final(fs).has_file(
                    dir@ + "/"@ + #[trigger] run.artifacts@[t].0@,
                ) && final(fs).file_content(dir@ + "/"@ + run.artifacts@[t].0@)
                    == run.artifacts@[t].1@
            &&& forall|p: Seq<char>|
                !artifact_path(run, dir@, p) ==> ((final(fs).has_file(p) <==> old(fs).has_file(p))
                    && (old(fs).has_file(p) ==> final(fs).file_content(p) == old(
                    fs,
                ).file_content(p)))
            &&& final(fs).dir_paths() == old(fs).dir_paths()
        },
{
    if !run.init_ok {
        return ApplyOutcome::InitFailed;
    }
    if !run.plan_ok {
        return ApplyOutcome::PlanFailed;
    }
    if !run.apply_ok {
        return ApplyOutcome::ApplyFailed;
    }
    let n = run.artifacts.len();
    let mut i: usize = 0;
    while i < n
        invariant
            0 <= i <= n,
            n == run.artifacts@.len(),
            fs.wf(),
            artifacts_distinct(run),
            forall|t: int|
                0 <= t < i ==> fs.has_file(dir@ + "/"@ + #[trigger] run.artifacts@[t].0@)
                    && fs.file_content(dir@ + "/"@ + run.artifacts@[t].0@)
                    == run.artifacts@[t].1@,
            forall|p: Seq<char>|
                !artifact_path(run, dir@, p) ==> ((fs.has_file(p) <==> old(fs).has_file(p)) && (
                old(fs).has_file(p) ==> fs.file_content(p) == old(fs).file_content(p))),
            fs.dir_paths() == old(fs).dir_paths(),
        decreases n - i,
    {
        let mut path = dir.to_owned();
        path.append("/");
        path.append(run.artifacts[i].0.as_str());
        proof {
            assert(path@ == dir@ + "/"@ + run.artifacts@[i as int].0@);
        }
        fs.write_file(path.as_str(), run.artifacts[i].1.as_str());
        proof {
            let pa = dir@ + "/"@ + run.artifacts@[i as int].0@;
            assert(artifact_path(run, dir@, pa)) by {
                assert(pa == dir@ + "/"@ + run.artifacts@[i as int].0@);
            }
            assert forall|p: Seq<char>|
                !artifact_path(run, dir@, p) implies ((fs.has_file(p) <==> old(fs).has_file(p))
                && (old(fs).has_file(p) ==> fs.file_content(p) == old(fs).file_content(p))) by {
                assert(p != pa);
            }
            assert forall|t: int|
                0 <= t < i + 1 implies fs.has_file(dir@ + "/"@ + #[trigger] run.artifacts@[t].0@)
                && fs.file_content(dir@ + "/"@ + run.artifacts@[t].0@)
                == run.artifacts@[t].1@ by {
                let pt = dir@ + "/"@ + run.artifacts@[t].0@;
                if pt == pa {
                    assert(run.artifacts@[t].0@ =~= pt.subrange(
                        dir@.len() as int + 1,
                        pt.len() as int,
                    )) by {
                        reveal_strlit("/");
                    }
                    assert(run.artifacts@[i as int].0@ =~= pa.subrange(
                        dir@.len() as int + 1,
                        pa.len() as int,
                    )) by {
                        reveal_strlit("/");
                    }
                    assert(run.artifacts@[t].0@ == run.artifacts@[i as int].0@);
                    assert(t == i);
                }
            }
        }
        i = i + 1;
    }
    ApplyOutcome::Success
}

/// Run the destroy phase of the provisioner in `dir`. On success the phase
/// itself removes the working directory; on failure nothing changes.
pub fn destroy_phase(run: &ProvisionerRun, fs: &mut LocalTree, dir: &str) -> (r: bool)
    requires
        old(fs).wf(),
    ensures
        final(fs).wf(),
        r == run.destroy_ok,
        !r ==> *final(fs) == *old(fs),
        r ==> !final(fs).has_dir(dir@),
        r ==> forall|x: Seq<char>|
            x != dir@ ==> (final(fs).has_dir(x) <==> old(fs).has_dir(x)),
        r ==> forall|p: Seq<char>|
            #[trigger] final(fs).has_file(p) <==> (old(fs).has_file(p) && !crate::text::match_at(
                p,
                dir@ + "/"@,
                0,
            )),
        r ==> forall|p: Seq<char>|
            final(fs).has_file(p) ==> final(fs).file_content(p) == old(fs).file_content(p),
{
    if !run.destroy_ok {
        return false;
    }
    fs.remove_tree(dir);
    true
}

}
