use vstd::prelude::*;
use crate::text::match_at;
use crate::request::{
    DeploymentRequest, UndeployRequest, request_valid, spec_validation_message, validate_request,
    undeploy_request_valid, validate_undeploy_request,
};
use crate::naming::{
    spec_working_prefix, spec_template_prefix, spec_local_dir, spec_parse_working_prefix,
    wf_project_name, wf_project_id, working_prefix, template_prefix, lemma_parse_render,
    lemma_prefixes_distinct, lemma_working_prefix_slash,
};
use crate::replace::views_of_pairs;
use crate::store::ObjectStore;
use crate::fsmodel::LocalTree;
use crate::users::{UserCatalog, ProviderLookup};
use crate::catalog::{DeploymentCatalog, DeploymentRecord, build_record};
use crate::transform::{transform_prefix, spec_rewrite, in_transform_image, dst_key_of};
use crate::worktree::{
    materialize, mirror_back, upload_key_of, in_mirror_image, in_materialize_image,
    local_path_of, lemma_join_slashed_prefix,
};
use crate::provisioner::{
    ProvisionerRun, ApplyOutcome, apply_phase, destroy_phase, artifact_named, artifacts_wf,
    artifact_path,
};

verus! {

/// How a deploy ended. The store, template, lookup and catalog variants are
/// reported when an outside collaborator fails; the in-memory collaborators
/// of this crate never fail, so the deploy saga itself produces the others.
pub enum DeployOutcome {
    Invalid(String),
    UserNotFound,
    LookupFailed,
    ProviderUnset,
    TemplateError,
    ExecError,
    CatalogError,
    Completed,
}

/// How an undeploy ended, with the same division of labour.
pub enum UndeployOutcome {
    Invalid,
    UserNotFound,
    LookupFailed,
    PrefixMalformed,
    DestroyFailed,
    NoFiles,
    StoreError,
    RecordMissing,
    CatalogError,
    Deleted,
}

/// All three apply phases exited cleanly.
pub open spec fn apply_success(run: &ProvisionerRun) -> bool {
    run.init_ok && run.plan_ok && run.apply_ok
}

/// The placeholder map a deploy builds: node name, server type, location,
/// and the resolved provider token, in that order.
pub open spec fn spec_deploy_pairs(req: &DeploymentRequest, token: Seq<char>) -> Seq<
    (Seq<char>, Seq<char>),
> {
    seq![
        ("__NODE_NAME__"@, req.project_name@ + "-server"@),
        ("__SERVER_TYPE__"@, req.selected_server@),
        ("__LOCATION__"@, req.region@),
        ("__HCLOUD_TOKEN__"@, token),
    ]
}

/// Build the placeholder map of a deploy.
pub fn deploy_pairs(req: &DeploymentRequest, token: &str) -> (r: Vec<(String, String)>)
    ensures
        views_of_pairs(r@) == spec_deploy_pairs(req, token@),
{
    let mut node = req.project_name.clone();
    node.append("-server");
    let mut v: Vec<(String, String)> = Vec::new();
    v.push((String::from_str("__NODE_NAME__"), node));
    v.push((String::from_str("__SERVER_TYPE__"), req.selected_server.clone()));
    v.push((String::from_str("__LOCATION__"), req.region.clone()));
    v.push((String::from_str("__HCLOUD_TOKEN__"), token.to_owned()));
    proof {
        assert(views_of_pairs(v@) =~= spec_deploy_pairs(req, token@));
    }
    v
}

/// The working prefix holds the transformed template: every source object's
/// suffix appears under the working prefix, rewritten for `variables.tf` and
/// byte-identical otherwise.
pub open spec fn working_prefix_populated(
    pre: ObjectStore,
    post: ObjectStore,
    srcp: Seq<char>,
    wp: Seq<char>,
    pvs: Seq<(Seq<char>, Seq<char>)>,
) -> bool {
    forall|k: Seq<char>|
        #[trigger] pre.has_key(k) && match_at(k, srcp, 0) ==> {
            let rel = k.subrange(srcp.len() as int, k.len() as int);
            &&& (rel != "variables.tf"@ ==> post.has_key(wp + rel) && post.content_of(wp + rel)
                == pre.content_of(k))
            &&& (rel == "variables.tf"@ ==> post.has_key(wp + rel) && post.content_of(wp + rel)
                == spec_rewrite(pre.content_of(k), pvs, "debian-12"@))
        }
}

/// Objects not under the working prefix are untouched.
pub open spec fn store_frame_outside(pre: ObjectStore, post: ObjectStore, wp: Seq<char>) -> bool {
    forall|k2: Seq<char>|
        !match_at(k2, wp, 0) ==> ((#[trigger] post.has_key(k2) <==> pre.has_key(k2)) && (
        pre.has_key(k2) ==> post.content_of(k2) == pre.content_of(k2)))
}

/// After a completed deploy the working prefix holds the transformed
/// template files not shadowed by an artifact, and every artifact of the
/// run.
pub open spec fn working_prefix_complete(
    pre: ObjectStore,
    post: ObjectStore,
    srcp: Seq<char>,
    wp: Seq<char>,
    pvs: Seq<(Seq<char>, Seq<char>)>,
    run: &ProvisionerRun,
) -> bool {
    &&& forall|k: Seq<char>|
        #[trigger] pre.has_key(k) && match_at(k, srcp, 0) && k.len() > srcp.len() ==> {
            let rel = k.subrange(srcp.len() as int, k.len() as int);
            &&& (rel != "variables.tf"@ && !artifact_named(run, rel) ==> post.has_key(wp + rel)
                && post.content_of(wp + rel) == pre.content_of(k))
            &&& (rel == "variables.tf"@ && !artifact_named(run, rel) ==> post.has_key(wp + rel)
                && post.content_of(wp + rel) == spec_rewrite(pre.content_of(k), pvs, "debian-12"@))
        }
    &&& forall|t: int|
        0 <= t < run.artifacts@.len() ==> post.has_key(wp + #[trigger] run.artifacts@[t].0@)
            && post.content_of(wp + run.artifacts@[t].0@) == run.artifacts@[t].1@
}

/// The working directory and everything under it are gone; nothing else in
/// the tree changed.
pub open spec fn fs_dir_gone(pre: LocalTree, post: LocalTree, dir: Seq<char>) -> bool {
    &&& !post.has_dir(dir)
    &&& forall|x: Seq<char>| x != dir ==> (post.has_dir(x) <==> pre.has_dir(x))
    &&& forall|p: Seq<char>|
        #[trigger] post.has_file(p) <==> (pre.has_file(p) && !match_at(p, dir + "/"@, 0))
    &&& forall|p: Seq<char>| post.has_file(p) ==> post.file_content(p) == pre.file_content(p)
}

/// The working directory exists and holds the materialized template files;
/// nothing outside it changed.
pub open spec fn fs_materialized(
    pre_store: ObjectStore,
    pre_fs: LocalTree,
    post_fs: LocalTree,
    srcp: Seq<char>,
    dir: Seq<char>,
    pvs: Seq<(Seq<char>, Seq<char>)>,
) -> bool {
    &&& post_fs.has_dir(dir)
    &&& forall|x: Seq<char>| x != dir ==> (post_fs.has_dir(x) <==> pre_fs.has_dir(x))
    &&& forall|k: Seq<char>|
        #[trigger] pre_store.has_key(k) && match_at(k, srcp, 0) && k.len() > srcp.len() ==> {
            let rel = k.subrange(srcp.len() as int, k.len() as int);
            &&& (rel != "variables.tf"@ ==> post_fs.has_file(dir + "/"@ + rel)
                && post_fs.file_content(dir + "/"@ + rel) == pre_store.content_of(k))
            &&& (rel == "variables.tf"@ ==> post_fs.has_file(dir + "/"@ + rel)
                && post_fs.file_content(dir + "/"@ + rel) == spec_rewrite(
                pre_store.content_of(k),
                pvs,
                "debian-12"@,
            ))
        }
    &&& forall|p: Seq<char>|
        !match_at(p, dir + "/"@, 0) ==> ((#[trigger] post_fs.has_file(p) <==> pre_fs.has_file(p))
            && (pre_fs.has_file(p) ==> post_fs.file_content(p) == pre_fs.file_content(p)))
}

/// The record a completed deploy leaves in the catalog.
pub open spec fn record_matches(
    rec: DeploymentRecord,
    req: &DeploymentRequest,
    project_id: Seq<char>,
    user_id: Seq<char>,
    timestamp: Seq<char>,
) -> bool {
    &&& rec.project_id@ == project_id
    &&& rec.project_name@ == req.project_name@
    &&& rec.selected_service@ == req.selected_service@
    &&& rec.selected_server@ == req.selected_server@
    &&& rec.region@ == req.region@
    &&& rec.volume_size == req.volume_size
    &&& rec.ip_option@ == req.ip_option@
    &&& rec.ssh_key == req.ssh_key
    &&& rec.terraform_template@ == req.terraform_template@
    &&& rec.status@ == "initiated"@
    &&& rec.timestamp@ == timestamp
    &&& rec.user_id@ == user_id
}

/// Run the deploy saga against the in-memory collaborators: validate, resolve
/// the user and the credential, transform the template into the working
/// prefix, materialize it locally, run the apply phases, mirror the working
/// tree back, clean up, and record the deployment. The outcome says exactly
/// which step rejected the request or failed, and the contract says what
/// each outcome leaves in the store, the tree and the catalog.
pub fn deploy_saga(
    users: &UserCatalog,
    store: &mut ObjectStore,
    fs: &mut LocalTree,
    cat: &mut DeploymentCatalog,
    req: &DeploymentRequest,
    project_id: &str,
    timestamp: &str,
    run: &ProvisionerRun,
) -> (r: DeployOutcome)
    requires
        users.wf(),
        old(store).wf(),
        old(fs).wf(),
        old(cat).wf(),
        wf_project_name(req.project_name@),
        wf_project_id(project_id@),
        !old(cat).has_project(project_id@),
        !old(store).some_key_under(spec_working_prefix(req.project_name@, project_id@)),
        !old(fs).some_file_under(spec_local_dir(req.project_name@, project_id@) + "/"@),
        artifacts_wf(run),
    ensures
        final(store).wf(),
        final(fs).wf(),
        final(cat).wf(),
        (r matches DeployOutcome::Invalid(m) ==> m@ == spec_validation_message(req)),
        (r matches DeployOutcome::Invalid(_)) <==> !request_valid(req),
        (r matches DeployOutcome::UserNotFound) <==> (request_valid(req) && !users.has_email(
            req.user_email@,
        )),
        (r matches DeployOutcome::ProviderUnset) <==> (request_valid(req) && users.has_email(
            req.user_email@,
        ) && users.provider_of(req.user_email@) is None),
        (r matches DeployOutcome::ExecError) <==> (request_valid(req) && users.has_email(
            req.user_email@,
        ) && users.provider_of(req.user_email@) is Some && !apply_success(run)),
        (r matches DeployOutcome::Completed) <==> (request_valid(req) && users.has_email(
            req.user_email@,
        ) && users.provider_of(req.user_email@) is Some && apply_success(run)),
        (r matches DeployOutcome::Invalid(_) || r matches DeployOutcome::UserNotFound
            || r matches DeployOutcome::ProviderUnset) ==> (*final(store) == *old(store)
            && *final(fs) == *old(fs) && *final(cat) == *old(cat)),
        (r matches DeployOutcome::ExecError || r matches DeployOutcome::Completed) ==> {
            let wp = spec_working_prefix(req.project_name@, project_id@);
            store_frame_outside(*old(store), *final(store), wp)
        },
        (r matches DeployOutcome::ExecError) ==> {
            let wp = spec_working_prefix(req.project_name@, project_id@);
            let srcp = spec_template_prefix(req.terraform_template@);
            let dir = spec_local_dir(req.project_name@, project_id@);
            let pvs = spec_deploy_pairs(req, users.provider_of(req.user_email@).unwrap());
            &&& *final(cat) == *old(cat)
            &&& working_prefix_populated(*old(store), *final(store), srcp, wp, pvs)
            &&& forall|k2: Seq<char>|
                match_at(k2, wp, 0) && #[trigger] final(store).has_key(k2)
                    ==> in_transform_image(*old(store), srcp, wp, k2)
            &&& fs_materialized(*old(store), *old(fs), *final(fs), srcp, dir, pvs)
        },
        (r matches DeployOutcome::Completed) ==> {
            let wp = spec_working_prefix(req.project_name@, project_id@);
            let srcp = spec_template_prefix(req.terraform_template@);
            let dir = spec_local_dir(req.project_name@, project_id@);
            let pvs = spec_deploy_pairs(req, users.provider_of(req.user_email@).unwrap());
            &&& working_prefix_complete(*old(store), *final(store), srcp, wp, pvs, run)
            &&& forall|k2: Seq<char>|
                match_at(k2, wp, 0) && #[trigger] final(store).has_key(k2)
                    ==> (in_transform_image(*old(store), srcp, wp, k2) || artifact_named(
                    run,
                    k2.subrange(wp.len() as int, k2.len() as int),
                ))
            &&& fs_dir_gone(*old(fs), *final(fs), dir)
            &&& final(cat).has_project(project_id@)
            &&& record_matches(
                final(cat).record_of(project_id@),
                req,
                project_id@,
                users.account_of(req.user_email@).user_id@,
                timestamp@,
            )
            &&& final(cat).recs().len() == old(cat).recs().len() + 1
            &&& forall|p: Seq<char>|
                p != project_id@ ==> (final(cat).has_project(p) <==> old(cat).has_project(p))
            &&& forall|p: Seq<char>|
                p != project_id@ && old(cat).has_project(p) ==> final(cat).record_of(p) == old(cat).record_of(p)
        },
{
    if let Err(msg) = validate_request(req) {
        return DeployOutcome::Invalid(msg);
    }
    let user_id = match users.user_id_for(req.user_email.as_str()) {
        Some(u) => u,
        None => {
            return DeployOutcome::UserNotFound;
        },
    };
    let token = match users.provider_for(req.user_email.as_str()) {
        ProviderLookup::Key(k) => k,
        ProviderLookup::Unset => {
            return DeployOutcome::ProviderUnset;
        },
        ProviderLookup::NoUser => {
            proof {
                assert(false);
            }
            return DeployOutcome::UserNotFound;
        },
    };
    let wp = working_prefix(req.project_name.as_str(), project_id);
    let srcp = template_prefix(req.terraform_template.as_str());
    let pairs = deploy_pairs(req, token.as_str());
    proof {
        reveal_strlit("/");
        lemma_prefixes_distinct(req.terraform_template@, req.project_name@, project_id@);
    }
    transform_prefix(store, srcp.as_str(), wp.as_str(), &pairs, None);
    let ghost store1 = *store;
    proof {
        assert(store_frame_outside(*old(store), store1, wp@)) by {
            assert forall|k2: Seq<char>|
                !match_at(k2, wp@, 0) implies ((#[trigger] store1.has_key(k2) <==> old(store).has_key(k2)) && (old(store).has_key(k2) ==> store1.content_of(k2) == old(store).content_of(k2))) by {
                if in_transform_image(*old(store), srcp@, wp@, k2) {
                    let k = choose|k: Seq<char>|
                        #[trigger] old(store).has_key(k) && match_at(k, srcp@, 0) && k2
                            == dst_key_of(srcp@, wp@, k);
                    crate::transform::lemma_dst_key_starts(srcp@, wp@, k);
                }
            }
        }
        assert forall|k2: Seq<char>|
            match_at(k2, wp@, 0) && #[trigger] store1.has_key(k2) implies in_transform_image(
            *old(store),
            srcp@,
            wp@,
            k2,
        ) by {
            if !in_transform_image(*old(store), srcp@, wp@, k2) {
                assert(old(store).has_key(k2));
                let ii = choose|ii: int|
                    0 <= ii < old(store).entries().len() && #[trigger] old(store).entries()[ii].0@
                        == k2;
                assert(match_at(old(store).entries()[ii].0@, wp@, 0));
                assert(old(store).some_key_under(wp@));
            }
        }
    }
    proof {
        lemma_parse_render(req.project_name@, project_id@);
    }
    let dir = match materialize(store, fs, wp.as_str()) {
        Some(d) => d,
        None => {
            proof {
                assert(false);
            }
            return DeployOutcome::TemplateError;
        },
    };
    let ghost fs1 = *fs;
    proof {
        assert(dir@ == spec_local_dir(req.project_name@, project_id@));
        assert(fs_materialized(
            *old(store),
            *old(fs),
            fs1,
            srcp@,
            dir@,
            views_of_pairs(pairs@),
        )) by {
            assert forall|k: Seq<char>|
                #[trigger] old(store).has_key(k) && match_at(k, srcp@, 0) && k.len()
                    > srcp@.len() implies {
                let rel = k.subrange(srcp@.len() as int, k.len() as int);
                &&& (rel != "variables.tf"@ ==> fs1.has_file(dir@ + "/"@ + rel)
                    && fs1.file_content(dir@ + "/"@ + rel) == old(store).content_of(k))
                &&& (rel == "variables.tf"@ ==> fs1.has_file(dir@ + "/"@ + rel)
                    && fs1.file_content(dir@ + "/"@ + rel) == spec_rewrite(
                    old(store).content_of(k),
                    views_of_pairs(pairs@),
                    "debian-12"@,
                ))
            } by {
                let rel = k.subrange(srcp@.len() as int, k.len() as int);
                let dk = dst_key_of(srcp@, wp@, k);
                assert(match_at(dk, wp@, 0)) by {
                    crate::transform::lemma_dst_key_starts(srcp@, wp@, k);
                }
                assert(rel.len() > 0);
                assert(dk.len() > wp@.len());
                assert(store1.has_key(dk));
                assert(local_path_of(wp@, dir@, dk) == dir@ + "/"@ + rel) by {
                    assert(dk.subrange(wp@.len() as int, dk.len() as int) =~= rel);
                }
                assert(fs1.has_file(dir@ + "/"@ + rel) && fs1.file_content(dir@ + "/"@ + rel)
                    == store1.content_of(dk));
            }
            assert forall|p: Seq<char>|
                !match_at(p, dir@ + "/"@, 0) implies ((#[trigger] fs1.has_file(p) <==> old(fs).has_file(p)) && (old(fs).has_file(p) ==> fs1.file_content(p) == old(fs).file_content(p))) by {
                if in_materialize_image(store1, wp@, dir@, p) {
                    let k = choose|k: Seq<char>|
                        #[trigger] store1.has_key(k) && match_at(k, wp@, 0) && k.len() > wp@.len()
                            && p == local_path_of(wp@, dir@, k);
                    assert(match_at(local_path_of(wp@, dir@, k), dir@ + "/"@, 0)) by {
                        assert(local_path_of(wp@, dir@, k).subrange(0, dir@.len() as int + 1) =~= dir@
                            + "/"@);
                    }
                }
            }
        }
    }
    match apply_phase(run, fs, dir.as_str()) {
        ApplyOutcome::Success => {},
        _ => {
            return DeployOutcome::ExecError;
        },
    }
    let ghost fs2 = *fs;
    mirror_back(fs, store, dir.as_str(), wp.as_str());
    let ghost store2 = *store;
    proof {
        lemma_working_prefix_slash(req.project_name@, project_id@);
        assert(store_frame_outside(*old(store), store2, wp@)) by {
            assert forall|k2: Seq<char>|
                !match_at(k2, wp@, 0) implies ((#[trigger] store2.has_key(k2) <==> old(store).has_key(k2)) && (old(store).has_key(k2) ==> store2.content_of(k2) == old(store).content_of(k2))) by {
                if in_mirror_image(fs2, wp@, dir@, k2) {
                    let p = choose|p: Seq<char>|
                        #[trigger] fs2.has_file(p) && match_at(p, dir@ + "/"@, 0) && k2
                            == upload_key_of(wp@, dir@, p);
                    let rel = p.subrange(dir@.len() as int + 1, p.len() as int);
                    lemma_join_slashed_prefix(wp@, rel);
                    assert(k2 == wp@ + rel);
                    assert(match_at(wp@ + rel, wp@, 0)) by {
                        assert((wp@ + rel).subrange(0, wp@.len() as int) =~= wp@);
                    }
                }
            }
        }
        assert(working_prefix_complete(
            *old(store),
            store2,
            srcp@,
            wp@,
            views_of_pairs(pairs@),
            run,
        )) by {
            assert forall|k: Seq<char>|
                #[trigger] old(store).has_key(k) && match_at(k, srcp@, 0) && k.len()
                    > srcp@.len() implies {
                let rel = k.subrange(srcp@.len() as int, k.len() as int);
                &&& (rel != "variables.tf"@ && !artifact_named(run, rel) ==> store2.has_key(
                    wp@ + rel,
                ) && store2.content_of(wp@ + rel) == old(store).content_of(k))
                &&& (rel == "variables.tf"@ && !artifact_named(run, rel) ==> store2.has_key(
                    wp@ + rel,
                ) && store2.content_of(wp@ + rel) == spec_rewrite(
                    old(store).content_of(k),
                    views_of_pairs(pairs@),
                    "debian-12"@,
                ))
            } by {
                let rel = k.subrange(srcp@.len() as int, k.len() as int);
                if !artifact_named(run, rel) {
                    let p = dir@ + "/"@ + rel;
                    assert(fs1.has_file(p) && fs2.has_file(p) && fs2.file_content(p)
                        == fs1.file_content(p)) by {
                        assert(!artifact_path(run, dir@, p)) by {
                            if artifact_path(run, dir@, p) {
                                let t = choose|t: int|
                                    0 <= t < run.artifacts@.len() && p == dir@ + "/"@
                                        + run.artifacts@[t].0@;
                                assert(rel =~= p.subrange(dir@.len() as int + 1, p.len() as int));
                                assert(run.artifacts@[t].0@ =~= p.subrange(
                                    dir@.len() as int + 1,
                                    p.len() as int,
                                ));
                                assert(artifact_named(run, rel));
                            }
                        }
                    }
                    assert(match_at(p, dir@ + "/"@, 0)) by {
                        assert(p.subrange(0, dir@.len() as int + 1) =~= dir@ + "/"@);
                    }
                    assert(store2.has_key(upload_key_of(wp@, dir@, p)) && store2.content_of(
                        upload_key_of(wp@, dir@, p),
                    ) == fs2.file_content(p));
                    assert(p.subrange(dir@.len() as int + 1, p.len() as int) =~= rel);
                    lemma_join_slashed_prefix(wp@, rel);
                    assert(upload_key_of(wp@, dir@, p) == wp@ + rel);
                }
            }
            assert forall|t: int|
                0 <= t < run.artifacts@.len() implies store2.has_key(
                wp@ + #[trigger] run.artifacts@[t].0@,
            ) && store2.content_of(wp@ + run.artifacts@[t].0@) == run.artifacts@[t].1@ by {
                let rel = run.artifacts@[t].0@;
                let p = dir@ + "/"@ + rel;
                assert(fs2.has_file(p) && fs2.file_content(p) == run.artifacts@[t].1@);
                assert(match_at(p, dir@ + "/"@, 0)) by {
                    assert(p.subrange(0, dir@.len() as int + 1) =~= dir@ + "/"@);
                }
                assert(store2.has_key(upload_key_of(wp@, dir@, p)) && store2.content_of(
                    upload_key_of(wp@, dir@, p),
                ) == fs2.file_content(p));
                assert(p.subrange(dir@.len() as int + 1, p.len() as int) =~= rel);
                lemma_join_slashed_prefix(wp@, rel);
                assert(upload_key_of(wp@, dir@, p) == wp@ + rel);
            }
        }
        assert forall|k2: Seq<char>|
            match_at(k2, wp@, 0) && #[trigger] store2.has_key(k2) implies (in_transform_image(
            *old(store),
            srcp@,
            wp@,
            k2,
        ) || artifact_named(run, k2.subrange(wp@.len() as int, k2.len() as int))) by {
            if !in_transform_image(*old(store), srcp@, wp@, k2) && !artifact_named(
                run,
                k2.subrange(wp@.len() as int, k2.len() as int),
            ) {
                if in_mirror_image(fs2, wp@, dir@, k2) {
                    let p = choose|p: Seq<char>|
                        #[trigger] fs2.has_file(p) && match_at(p, dir@ + "/"@, 0) && k2
                            == upload_key_of(wp@, dir@, p);
                    let rel = p.subrange(dir@.len() as int + 1, p.len() as int);
                    lemma_join_slashed_prefix(wp@, rel);
                    assert(k2 == wp@ + rel);
                    assert(rel =~= k2.subrange(wp@.len() as int, k2.len() as int));
                    assert(!artifact_path(run, dir@, p)) by {
                        if artifact_path(run, dir@, p) {
                            let t = choose|t: int|
                                0 <= t < run.artifacts@.len() && p == dir@ + "/"@
                                    + run.artifacts@[t].0@;
                            assert(run.artifacts@[t].0@ =~= p.subrange(
                                dir@.len() as int + 1,
                                p.len() as int,
                            ));
                            assert(artifact_named(run, rel));
                        }
                    }
                    assert(fs1.has_file(p));
                    if in_materialize_image(store1, wp@, dir@, p) {
                        let kk = choose|kk: Seq<char>|
                            #[trigger] store1.has_key(kk) && match_at(kk, wp@, 0) && kk.len()
                                > wp@.len() && p == local_path_of(wp@, dir@, kk);
                        crate::transform::lemma_key_decompose(kk, wp@);
                        assert(kk.subrange(wp@.len() as int, kk.len() as int) =~= p.subrange(
                            dir@.len() as int + 1,
                            p.len() as int,
                        ));
                        assert(k2 =~= kk);
                        assert(in_transform_image(*old(store), srcp@, wp@, kk)) by {
                            if !in_transform_image(*old(store), srcp@, wp@, kk) {
                                assert(old(store).has_key(kk));
                                let ii = choose|ii: int|
                                    0 <= ii < old(store).entries().len() && #[trigger] old(
                                        store,
                                    ).entries()[ii].0@ == kk;
                                assert(match_at(old(store).entries()[ii].0@, wp@, 0));
                                assert(old(store).some_key_under(wp@));
                            }
                        }
                        assert(in_transform_image(*old(store), srcp@, wp@, k2));
                        assert(false);
                    } else {
                        assert(old(fs).has_file(p));
                        let ii = choose|ii: int|
                            0 <= ii < old(fs).files.entries().len() && #[trigger] old(
                                fs,
                            ).files.entries()[ii].0@ == p;
                        assert(match_at(old(fs).files.entries()[ii].0@, dir@ + "/"@, 0));
                        assert(old(fs).some_file_under(dir@ + "/"@));
                        assert(false);
                    }
                } else {
                    assert(store1.has_key(k2));
                    assert(old(store).has_key(k2));
                    let ii = choose|ii: int|
                        0 <= ii < old(store).entries().len() && #[trigger] old(
                            store,
                        ).entries()[ii].0@ == k2;
                    assert(match_at(old(store).entries()[ii].0@, wp@, 0));
                    assert(old(store).some_key_under(wp@));
                    assert(false);
                }
            }
        }
    }
    fs.remove_tree(dir.as_str());
    proof {
        assert(fs_dir_gone(*old(fs), *fs, dir@)) by {
            assert forall|p: Seq<char>|
                (#[trigger] fs.has_file(p) <==> (old(fs).has_file(p) && !match_at(
                    p,
                    dir@ + "/"@,
                    0,
                ))) && (fs.has_file(p) ==> fs.file_content(p) == old(fs).file_content(p)) by {
                assert(!match_at(p, dir@ + "/"@, 0) ==> !artifact_path(run, dir@, p)) by {
                    if artifact_path(run, dir@, p) {
                        let t = choose|t: int|
                            0 <= t < run.artifacts@.len() && p == dir@ + "/"@
                                + run.artifacts@[t].0@;
                        assert(match_at(p, dir@ + "/"@, 0)) by {
                            assert(p.subrange(0, dir@.len() as int + 1) =~= dir@ + "/"@);
                        }
                    }
                }
                assert(!match_at(p, dir@ + "/"@, 0) ==> !in_materialize_image(
                    store1,
                    wp@,
                    dir@,
                    p,
                )) by {
                    if in_materialize_image(store1, wp@, dir@, p) {
                        let k = choose|k: Seq<char>|
                            #[trigger] store1.has_key(k) && match_at(k, wp@, 0) && k.len()
                                > wp@.len() && p == local_path_of(wp@, dir@, k);
                        assert(match_at(p, dir@ + "/"@, 0)) by {
                            assert(p.subrange(0, dir@.len() as int + 1) =~= dir@ + "/"@);
                        }
                    }
                }
            }
            assert forall|x: Seq<char>| x != dir@ implies (fs.has_dir(x) <==> old(fs).has_dir(
                x,
            )) by {}
        }
    }
    let rec = build_record(req, project_id, user_id.as_str(), timestamp);
    cat.insert(rec);
    DeployOutcome::Completed
}

/// Run the undeploy saga against the in-memory collaborators: validate,
/// resolve the user, materialize the working prefix, run the destroy phase
/// (which removes the working directory on success), purge the working
/// prefix, and delete the catalog record. The 404 outcomes report an empty
/// working prefix and a missing record; neither touches the catalog
/// beforehand.
pub fn undeploy_saga(
    users: &UserCatalog,
    store: &mut ObjectStore,
    fs: &mut LocalTree,
    cat: &mut DeploymentCatalog,
    req: &UndeployRequest,
    run: &ProvisionerRun,
) -> (r: UndeployOutcome)
    requires
        users.wf(),
        old(store).wf(),
        old(fs).wf(),
        old(cat).wf(),
    ensures
        final(store).wf(),
        final(fs).wf(),
        final(cat).wf(),
        (r matches UndeployOutcome::Invalid) <==> !undeploy_request_valid(req),
        (r matches UndeployOutcome::UserNotFound) <==> (undeploy_request_valid(req)
            && !users.has_email(req.user_email@)),
        (r matches UndeployOutcome::PrefixMalformed) <==> (undeploy_request_valid(req)
            && users.has_email(req.user_email@) && spec_parse_working_prefix(
            spec_working_prefix(req.project_name@, req.project_id@),
        ) is None),
        (r matches UndeployOutcome::Invalid || r matches UndeployOutcome::UserNotFound
            || r matches UndeployOutcome::PrefixMalformed) ==> (*final(store) == *old(store)
            && *final(fs) == *old(fs) && *final(cat) == *old(cat)),
        (r matches UndeployOutcome::DestroyFailed) <==> (undeploy_request_valid(req)
            && users.has_email(req.user_email@) && spec_parse_working_prefix(
            spec_working_prefix(req.project_name@, req.project_id@),
        ) is Some && !run.destroy_ok),
        (r matches UndeployOutcome::DestroyFailed) ==> (*final(store) == *old(store) && *final(cat) == *old(cat)),
        (r matches UndeployOutcome::NoFiles) <==> (undeploy_request_valid(req) && users.has_email(
            req.user_email@,
        ) && spec_parse_working_prefix(spec_working_prefix(req.project_name@, req.project_id@))
            is Some && run.destroy_ok && !old(store).some_key_under(
            spec_working_prefix(req.project_name@, req.project_id@),
        )),
        (r matches UndeployOutcome::NoFiles) ==> (*final(store) == *old(store) && *final(cat)
            == *old(cat)),
        (r matches UndeployOutcome::RecordMissing || r matches UndeployOutcome::Deleted) ==> (
        undeploy_request_valid(req) && users.has_email(req.user_email@) && run.destroy_ok && old(
            store,
        ).some_key_under(spec_working_prefix(req.project_name@, req.project_id@))),
        (r matches UndeployOutcome::RecordMissing || r matches UndeployOutcome::Deleted) ==> {
            let wp = spec_working_prefix(req.project_name@, req.project_id@);
            &&& forall|k: Seq<char>| match_at(k, wp, 0) ==> !(#[trigger] final(store).has_key(k))
            &&& store_frame_outside(*old(store), *final(store), wp)
        },
        (r matches UndeployOutcome::Deleted) <==> (undeploy_request_valid(req) && users.has_email(
            req.user_email@,
        ) && spec_parse_working_prefix(spec_working_prefix(req.project_name@, req.project_id@))
            is Some && run.destroy_ok && old(store).some_key_under(
            spec_working_prefix(req.project_name@, req.project_id@),
        ) && old(cat).has_project(req.project_id@) && old(cat).record_of(
            req.project_id@,
        ).user_id@ == users.account_of(req.user_email@).user_id@),
        (r matches UndeployOutcome::RecordMissing) <==> (undeploy_request_valid(req)
            && users.has_email(req.user_email@) && spec_parse_working_prefix(
            spec_working_prefix(req.project_name@, req.project_id@),
        ) is Some && run.destroy_ok && old(store).some_key_under(
            spec_working_prefix(req.project_name@, req.project_id@),
        ) && !(old(cat).has_project(req.project_id@) && old(cat).record_of(
            req.project_id@,
        ).user_id@ == users.account_of(req.user_email@).user_id@)),
        (r matches UndeployOutcome::RecordMissing) ==> *final(cat) == *old(cat),
        (r matches UndeployOutcome::Deleted) ==> {
            &&& !final(cat).has_project(req.project_id@)
            &&& forall|p: Seq<char>|
                p != req.project_id@ ==> (final(cat).has_project(p) <==> old(cat).has_project(p))
            &&& forall|p: Seq<char>|
                p != req.project_id@ && old(cat).has_project(p) ==> final(cat).record_of(p)
                    == old(cat).record_of(p)
        },
        (r matches UndeployOutcome::DestroyFailed || r matches UndeployOutcome::NoFiles
            || r matches UndeployOutcome::RecordMissing || r matches UndeployOutcome::Deleted)
            ==> {
            let parsed = spec_parse_working_prefix(
                spec_working_prefix(req.project_name@, req.project_id@),
            );
            parsed is Some
        },
        (r matches UndeployOutcome::DestroyFailed) ==> {
            let parsed = spec_parse_working_prefix(
                spec_working_prefix(req.project_name@, req.project_id@),
            ).unwrap();
            final(fs).has_dir(spec_local_dir(parsed.0, parsed.1))
        },
        (r matches UndeployOutcome::NoFiles || r matches UndeployOutcome::RecordMissing
            || r matches UndeployOutcome::Deleted) ==> {
            let parsed = spec_parse_working_prefix(
                spec_working_prefix(req.project_name@, req.project_id@),
            ).unwrap();
            fs_dir_gone(*old(fs), *final(fs), spec_local_dir(parsed.0, parsed.1))
        },
{
    if !validate_undeploy_request(req) {
        return UndeployOutcome::Invalid;
    }
    let user_id = match users.user_id_for(req.user_email.as_str()) {
        Some(u) => u,
        None => {
            return UndeployOutcome::UserNotFound;
        },
    };
    let wp = working_prefix(req.project_name.as_str(), req.project_id.as_str());
    let dir = match materialize(store, fs, wp.as_str()) {
        Some(d) => d,
        None => {
            return UndeployOutcome::PrefixMalformed;
        },
    };
    proof {
        reveal_strlit("/");
    }
    let ghost fs1 = *fs;
    if !destroy_phase(run, fs, dir.as_str()) {
        return UndeployOutcome::DestroyFailed;
    }
    proof {
        assert(fs_dir_gone(*old(fs), *fs, dir@)) by {
            assert forall|p: Seq<char>|
                (#[trigger] fs.has_file(p) <==> (old(fs).has_file(p) && !match_at(
                    p,
                    dir@ + "/"@,
                    0,
                ))) && (fs.has_file(p) ==> fs.file_content(p) == old(fs).file_content(p)) by {
                assert(!match_at(p, dir@ + "/"@, 0) ==> !in_materialize_image(
                    *store,
                    wp@,
                    dir@,
                    p,
                )) by {
                    if in_materialize_image(*store, wp@, dir@, p) {
                        let k = choose|k: Seq<char>|
                            #[trigger] store.has_key(k) && match_at(k, wp@, 0) && k.len()
                                > wp@.len() && p == local_path_of(wp@, dir@, k);
                        assert(match_at(p, dir@ + "/"@, 0)) by {
                            assert(p.subrange(0, dir@.len() as int + 1) =~= dir@ + "/"@);
                        }
                    }
                }
            }
            assert forall|x: Seq<char>| x != dir@ implies (fs.has_dir(x) <==> old(fs).has_dir(
                x,
            )) by {}
        }
    }
    let listed = store.list_under(wp.as_str());
    if listed.len() == 0 {
        return UndeployOutcome::NoFiles;
    }
    proof {
        assert(store.some_key_under(wp@)) by {
            assert(store.has_key(listed@[0]@) && match_at(listed@[0]@, wp@, 0));
        }
    }
    store.delete_keys(&listed);
    proof {
        assert forall|k: Seq<char>| match_at(k, wp@, 0) implies !(#[trigger] store.has_key(k)) by {
            if store.has_key(k) {
                assert(old(store).has_key(k));
                assert(crate::store::key_listed(listed@, k));
            }
        }
        assert(store_frame_outside(*old(store), *store, wp@)) by {
            assert forall|k2: Seq<char>|
                !match_at(k2, wp@, 0) implies ((#[trigger] store.has_key(k2) <==> old(store).has_key(k2)) && (old(store).has_key(k2) ==> store.content_of(k2) == old(store).content_of(k2))) by {
                if crate::store::key_listed(listed@, k2) {
                    let t = choose|t: int| 0 <= t < listed@.len() && listed@[t]@ == k2;
                    assert(match_at(listed@[t]@, wp@, 0));
                }
            }
        }
    }
    if cat.delete(user_id.as_str(), req.project_id.as_str()) {
        UndeployOutcome::Deleted
    } else {
        UndeployOutcome::RecordMissing
    }
}

}
