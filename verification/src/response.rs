use vstd::prelude::*;
use crate::request::{DeploymentRequest, UndeployRequest, ProviderRequest, FetchDeploymentRequest};
use crate::saga::{DeployOutcome, UndeployOutcome};
use crate::users::UserCatalog;
use crate::catalog::{DeploymentCatalog, DeploymentRecord, rec_stored, rec_listed};

verus! {

/// The envelope handed to the HTTP layer: a status code, a status label and
/// a message.
pub struct ResponseEnvelope {
    pub code: u16,
    pub status: String,
    pub message: String,
}

/// The status code reported for each deploy outcome.
pub open spec fn spec_deploy_code(r: &DeployOutcome) -> u16 {
    match r {
        DeployOutcome::Invalid(_) => 400u16,
        DeployOutcome::UserNotFound => 400u16,
        DeployOutcome::LookupFailed => 500u16,
        DeployOutcome::ProviderUnset => 400u16,
        DeployOutcome::TemplateError => 500u16,
        DeployOutcome::ExecError => 500u16,
        DeployOutcome::CatalogError => 500u16,
        DeployOutcome::Completed => 200u16,
    }
}

/// The message reported for each deploy outcome.
pub open spec fn spec_deploy_message(r: &DeployOutcome, email: Seq<char>) -> Seq<char> {
    match r {
        DeployOutcome::Invalid(m) => m@,
        DeployOutcome::UserNotFound => "User with email '"@ + email + "' not found"@,
        DeployOutcome::LookupFailed => "Internal server error while verifying user"@,
        DeployOutcome::ProviderUnset =>
            "Cloud provider not set for this user. Cannot proceed with deployment."@,
        DeployOutcome::TemplateError => "Failed to copy and modify templates from S3"@,
        DeployOutcome::ExecError =>
            "Failed during deployment execution: command exited with non-zero status"@,
        DeployOutcome::CatalogError => "Failed to save metadata"@,
        DeployOutcome::Completed => "Deployment initialized and executed"@,
    }
}

/// Build the user-facing envelope for a deploy outcome.
pub fn deploy_response(r: &DeployOutcome, req: &DeploymentRequest) -> (e: ResponseEnvelope)
    ensures
        e.code == spec_deploy_code(r),
        e.status@ == (if (r matches DeployOutcome::Completed) {
            "success"@
        } else {
            "error"@
        }),
        e.message@ == spec_deploy_message(r, req.user_email@),
{
    match r {
        DeployOutcome::Invalid(m) => ResponseEnvelope {
            code: 400,
            status: String::from_str("error"),
            message: m.clone(),
        },
        DeployOutcome::UserNotFound => {
            let mut msg = String::from_str("User with email '");
            msg.append(req.user_email.as_str());
            msg.append("' not found");
            ResponseEnvelope { code: 400, status: String::from_str("error"), message: msg }
        },
        DeployOutcome::LookupFailed => ResponseEnvelope {
            code: 500,
            status: String::from_str("error"),
            message: String::from_str("Internal server error while verifying user"),
        },
        DeployOutcome::ProviderUnset => ResponseEnvelope {
            code: 400,
            status: String::from_str("error"),
            message: String::from_str(
                "Cloud provider not set for this user. Cannot proceed with deployment.",
            ),
        },
        DeployOutcome::TemplateError => ResponseEnvelope {
            code: 500,
            status: String::from_str("error"),
            message: String::from_str("Failed to copy and modify templates from S3"),
        },
        DeployOutcome::ExecError => ResponseEnvelope {
            code: 500,
            status: String::from_str("error"),
            message: String::from_str(
                "Failed during deployment execution: command exited with non-zero status",
            ),
        },
        DeployOutcome::CatalogError => ResponseEnvelope {
            code: 500,
            status: String::from_str("error"),
            message: String::from_str("Failed to save metadata"),
        },
        DeployOutcome::Completed => ResponseEnvelope {
            code: 200,
            status: String::from_str("success"),
            message: String::from_str("Deployment initialized and executed"),
        },
    }
}

/// The status code reported for each undeploy outcome.
pub open spec fn spec_undeploy_code(r: &UndeployOutcome) -> u16 {
    match r {
        UndeployOutcome::Invalid => 400u16,
        UndeployOutcome::UserNotFound => 400u16,
        UndeployOutcome::LookupFailed => 500u16,
        UndeployOutcome::PrefixMalformed => 500u16,
        UndeployOutcome::DestroyFailed => 500u16,
        UndeployOutcome::NoFiles => 404u16,
        UndeployOutcome::StoreError => 500u16,
        UndeployOutcome::RecordMissing => 404u16,
        UndeployOutcome::CatalogError => 500u16,
        UndeployOutcome::Deleted => 200u16,
    }
}

/// The message reported for each undeploy outcome.
pub open spec fn spec_undeploy_message(r: &UndeployOutcome, req: &UndeployRequest) -> Seq<char> {
    match r {
        UndeployOutcome::Invalid => "user_email and project_id are required"@,
        UndeployOutcome::UserNotFound => "User with email '"@ + req.user_email@ + "' not found"@,
        UndeployOutcome::LookupFailed => "Internal server error while looking up user"@,
        UndeployOutcome::PrefixMalformed =>
            "Failed to destroy Terraform resources: could not read project name and id from the working prefix"@,
        UndeployOutcome::DestroyFailed =>
            "Failed to destroy Terraform resources: destroy exited with non-zero status"@,
        UndeployOutcome::NoFiles => "No files found in S3 for the given project_id"@,
        UndeployOutcome::StoreError => "Failed to delete deployment files from S3"@,
        UndeployOutcome::RecordMissing => "No matching deployment found to delete."@,
        UndeployOutcome::CatalogError => "Failed to delete deployment"@,
        UndeployOutcome::Deleted => "Deployment with project_id '"@ + req.project_id@
            + "' deleted successfully."@,
    }
}

/// Build the user-facing envelope for an undeploy outcome.
pub fn undeploy_response(r: &UndeployOutcome, req: &UndeployRequest) -> (e: ResponseEnvelope)
    ensures
        e.code == spec_undeploy_code(r),
        e.status@ == (if (r matches UndeployOutcome::Deleted) {
            "success"@
        } else {
            "error"@
        }),
        e.message@ == spec_undeploy_message(r, req),
{
    match r {
        UndeployOutcome::Invalid => ResponseEnvelope {
            code: 400,
            status: String::from_str("error"),
            message: String::from_str("user_email and project_id are required"),
        },
        UndeployOutcome::UserNotFound => {
            let mut msg = String::from_str("User with email '");
            msg.append(req.user_email.as_str());
            msg.append("' not found");
            ResponseEnvelope { code: 400, status: String::from_str("error"), message: msg }
        },
        UndeployOutcome::LookupFailed => ResponseEnvelope {
            code: 500,
            status: String::from_str("error"),
            message: String::from_str("Internal server error while looking up user"),
        },
        UndeployOutcome::PrefixMalformed => ResponseEnvelope {
            code: 500,
            status: String::from_str("error"),
            message: String::from_str(
                "Failed to destroy Terraform resources: could not read project name and id from the working prefix",
            ),
        },
        UndeployOutcome::DestroyFailed => ResponseEnvelope {
            code: 500,
            status: String::from_str("error"),
            message: String::from_str(
                "Failed to destroy Terraform resources: destroy exited with non-zero status",
            ),
        },
        UndeployOutcome::NoFiles => ResponseEnvelope {
            code: 404,
            status: String::from_str("error"),
            message: String::from_str("No files found in S3 for the given project_id"),
        },
        UndeployOutcome::StoreError => ResponseEnvelope {
            code: 500,
            status: String::from_str("error"),
            message: String::from_str("Failed to delete deployment files from S3"),
        },
        UndeployOutcome::RecordMissing => ResponseEnvelope {
            code: 404,
            status: String::from_str("error"),
            message: String::from_str("No matching deployment found to delete."),
        },
        UndeployOutcome::CatalogError => ResponseEnvelope {
            code: 500,
            status: String::from_str("error"),
            message: String::from_str("Failed to delete deployment"),
        },
        UndeployOutcome::Deleted => {
            let mut msg = String::from_str("Deployment with project_id '");
            msg.append(req.project_id.as_str());
            msg.append("' deleted successfully.");
            ResponseEnvelope { code: 200, status: String::from_str("success"), message: msg }
        },
    }
}

/// Store a user's cloud-provider credential: the settings flow. Reports 404
/// when the user does not exist, 200 after recording the key.
pub fn update_provider_in(users: &mut UserCatalog, req: &ProviderRequest) -> (e: ResponseEnvelope)
    requires
        old(users).wf(),
    ensures
        final(users).wf(),
        e.code == (if old(users).has_email(req.user_email@) {
            200u16
        } else {
            404u16
        }),
        old(users).has_email(req.user_email@) ==> (e.status@ == "success"@ && e.message@
            == "Cloud provider token updated successfully"@ && final(users).provider_of(
            req.user_email@,
        ) == Some(req.provider_key@)),
        old(users).has_email(req.user_email@) ==> forall|x: Seq<char>|
            x != req.user_email@ ==> (final(users).has_email(x) <==> old(users).has_email(x)),
        old(users).has_email(req.user_email@) ==> forall|x: Seq<char>|
            x != req.user_email@ && old(users).has_email(x) ==> final(users).account_of(x) == old(
                users,
            ).account_of(x),
        !old(users).has_email(req.user_email@) ==> (e.status@ == "error"@ && e.message@
            == "User not found"@ && *final(users) == *old(users)),
{
    if users.set_provider(req.user_email.as_str(), req.provider_key.as_str()) {
        ResponseEnvelope {
            code: 200,
            status: String::from_str("success"),
            message: String::from_str("Cloud provider token updated successfully"),
        }
    } else {
        ResponseEnvelope {
            code: 404,
            status: String::from_str("error"),
            message: String::from_str("User not found"),
        }
    }
}

/// List a user's deployments: the read-only catalog query behind the
/// deployments endpoint. Nothing when the user does not exist; otherwise
/// exactly the records whose user id is the user's.
pub fn fetch_deployments(
    users: &UserCatalog,
    cat: &DeploymentCatalog,
    req: &FetchDeploymentRequest,
) -> (r: Option<Vec<DeploymentRecord>>)
    requires
        users.wf(),
        cat.wf(),
    ensures
        match r {
            None => !users.has_email(req.email@),
            Some(v) => {
                &&& users.has_email(req.email@)
                &&& forall|t: int|
                    0 <= t < v@.len() ==> rec_stored(*cat, #[trigger] v@[t]) && v@[t].user_id@
                        == users.account_of(req.email@).user_id@
                &&& forall|j: int|
                    0 <= j < cat.recs().len() && #[trigger] cat.recs()[j].user_id@ == users.account_of(
                        req.email@,
                    ).user_id@ ==> rec_listed(v@, cat.recs()[j])
            },
        },
{
    match users.user_id_for(req.email.as_str()) {
        Some(uid) => Some(cat.records_for_user(uid.as_str())),
        None => None,
    }
}

}
