use vstd::prelude::*;
use crate::naming::{wf_project_id, lemma_id_without_paren_wf, working_prefix};
use crate::request::DeploymentRequest;
use crate::store::ObjectStore;
use crate::fsmodel::LocalTree;
use crate::users::UserCatalog;
use crate::catalog::DeploymentCatalog;
use crate::provisioner::{ProvisionerRun, artifacts_wf};
use crate::saga::{DeployOutcome, deploy_saga, record_matches, apply_success};
use crate::naming::wf_project_name;

verus! {

/// Relies on `uuid::Uuid::new_v4` and the `Display` form of a `Uuid`: a
/// fresh random identifier rendered hyphenated, 36 characters, each a
/// lowercase hexadecimal digit or a hyphen. Which identifier comes back is not
/// specified.
#[verifier::external_body]
fn random_uuid_string() -> (r: String)
    ensures
        r@.len() == 36,
        forall|i: int|
            0 <= i < r@.len() ==> (('0' <= #[trigger] r@[i] && r@[i] <= '9') || ('a' <= r@[i]
                && r@[i] <= 'f') || r@[i] == '-'),
{
    uuid::Uuid::new_v4().to_string()
}

/// Relies on `chrono::Utc::now` and its `format` with `%Y-%m-%d %H:%M:%S`:
/// the current UTC wall-clock time rendered at second precision, 19
/// characters, digits except for the two hyphens, the space and the two
/// colons (`%Y` zero-pads the year of the current era to four digits).
/// Which moment comes back depends on the clock, so nothing more is
/// promised.
#[verifier::external_body]
fn current_timestamp() -> (r: String)
    ensures
        r@.len() == 19,
        r@[4] == '-',
        r@[7] == '-',
        r@[10] == ' ',
        r@[13] == ':',
        r@[16] == ':',
        forall|i: int|
            0 <= i < r@.len() && i != 4 && i != 7 && i != 10 && i != 13 && i != 16 ==> ('0'
                <= #[trigger] r@[i] && r@[i] <= '9'),
{
    chrono::Utc::now().format("%Y-%m-%d %H:%M:%S").to_string()
}

/// A fresh project id: 36 characters, each a lowercase hexadecimal digit
/// or a hyphen, and thereby well formed for use in a working prefix.
pub fn fresh_project_id() -> (r: String)
    ensures
        wf_project_id(r@),
        r@.len() == 36,
        forall|i: int|
            0 <= i < r@.len() ==> (('0' <= #[trigger] r@[i] && r@[i] <= '9') || ('a' <= r@[i]
                && r@[i] <= 'f') || r@[i] == '-'),
{
    let id = random_uuid_string();
    proof {
        assert forall|i: int| 0 <= i < id@.len() implies id@[i] != ')' by {}
        lemma_id_without_paren_wf(id@);
    }
    id
}

/// The current UTC time at second precision, as recorded in a deployment
/// record: `YYYY-MM-DD HH:MM:SS`.
pub fn now_timestamp() -> (r: String)
    ensures
        r@.len() == 19,
        r@[4] == '-',
        r@[7] == '-',
        r@[10] == ' ',
        r@[13] == ':',
        r@[16] == ':',
        forall|i: int|
            0 <= i < r@.len() && i != 4 && i != 7 && i != 10 && i != 13 && i != 16 ==> ('0'
                <= #[trigger] r@[i] && r@[i] <= '9'),
{
    current_timestamp()
}

/// Deploy with a freshly chosen project id and the current time. The id is
/// checked to be unused in the catalog, in the store and on the local tree
/// before the saga runs; the draw is retried by the caller if it ever
/// collides. On a completed deploy the working prefix holds the transformed
/// template and the run's artifacts, nothing else, nothing outside it
/// changed, the local directory is gone, and the catalog holds the record.
pub fn deploy_with_fresh_id(
    users: &UserCatalog,
    store: &mut ObjectStore,
    fs: &mut LocalTree,
    cat: &mut DeploymentCatalog,
    req: &DeploymentRequest,
    run: &ProvisionerRun,
) -> (r: Option<(String, DeployOutcome)>)
    requires
        users.wf(),
        old(store).wf(),
        old(fs).wf(),
        old(cat).wf(),
        wf_project_name(req.project_name@),
        artifacts_wf(run),
    ensures
        final(store).wf(),
        final(fs).wf(),
        final(cat).wf(),
        r is None ==> (*final(store) == *old(store) && *final(fs) == *old(fs) && *final(cat)
            == *old(cat)),
        r matches Some(pair) ==> {
            &&& wf_project_id(pair.0@)
            &&& ((pair.1 matches DeployOutcome::Completed) <==> (crate::request::request_valid(
                req,
            ) && users.has_email(req.user_email@) && users.provider_of(req.user_email@) is Some
                && apply_success(run)))
            &&& (pair.1 matches DeployOutcome::Completed) ==> {
                let wp = crate::naming::spec_working_prefix(req.project_name@, pair.0@);
                let srcp = crate::naming::spec_template_prefix(req.terraform_template@);
                let dir = crate::naming::spec_local_dir(req.project_name@, pair.0@);
                let pvs = crate::saga::spec_deploy_pairs(
                    req,
                    users.provider_of(req.user_email@).unwrap(),
                );
                &&& crate::saga::working_prefix_complete(
                    *old(store),
                    *final(store),
                    srcp,
                    wp,
                    pvs,
                    run,
                )
                &&& crate::saga::store_frame_outside(*old(store), *final(store), wp)
                &&& forall|k2: Seq<char>|
                    crate::text::match_at(k2, wp, 0) && #[trigger] final(store).has_key(k2)
                        ==> (crate::transform::in_transform_image(*old(store), srcp, wp, k2)
                        || crate::provisioner::artifact_named(
                        run,
                        k2.subrange(wp.len() as int, k2.len() as int),
                    ))
                &&& crate::saga::fs_dir_gone(*old(fs), *final(fs), dir)
                &&& final(cat).has_project(pair.0@)
                &&& record_matches(
                    final(cat).record_of(pair.0@),
                    req,
                    pair.0@,
                    users.account_of(req.user_email@).user_id@,
                    final(cat).record_of(pair.0@).timestamp@,
                )
            }
        },
{
    let project_id = fresh_project_id();
    if cat.has_project_exec(project_id.as_str()) {
        return None;
    }
    let wp = working_prefix(req.project_name.as_str(), project_id.as_str());
    let listed = store.list_under(wp.as_str());
    if listed.len() > 0 {
        return None;
    }
    let mut dslash = crate::naming::local_dir(req.project_name.as_str(), project_id.as_str());
    dslash.append("/");
    let local_files = fs.files_under(dslash.as_str());
    if local_files.len() > 0 {
        return None;
    }
    let timestamp = now_timestamp();
    let outcome = deploy_saga(
        users,
        store,
        fs,
        cat,
        req,
        project_id.as_str(),
        timestamp.as_str(),
        run,
    );
    Some((project_id, outcome))
}

}
