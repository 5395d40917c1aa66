use vstd::prelude::*;
use crate::text::{spec_blank, is_blank, str_eq};

verus! {

/// A request to deploy a template with the given parameters.
pub struct DeploymentRequest {
    pub project_name: String,
    pub selected_service: String,
    pub selected_server: String,
    pub region: String,
    pub volume_size: u32,
    pub ip_option: String,
    pub ssh_key_option: Option<String>,
    pub ssh_key: Option<String>,
    pub terraform_template: String,
    pub user_email: String,
}

/// A request to tear a deployment down.
pub struct UndeployRequest {
    pub user_email: String,
    pub project_id: String,
    pub project_name: String,
}

/// A request to list a user's deployments.
pub struct FetchDeploymentRequest {
    pub email: String,
}

/// A request to store a user's cloud-provider credential.
pub struct ProviderRequest {
    pub user_email: String,
    pub provider_key: String,
}

/// A login request.
pub struct LoginRequest {
    pub email: String,
    pub password: String,
}

/// A signup request.
pub struct SignupRequest {
    pub username: String,
    pub email: String,
    pub password: String,
}

/// The allowed cloud services.
pub open spec fn service_allowed(s: Seq<char>) -> bool {
    s == "AWS"@ || s == "Azure"@ || s == "GCP"@
}

/// The allowed IP allocation modes.
pub open spec fn ip_option_allowed(s: Seq<char>) -> bool {
    s == "reserved"@ || s == "dynamic"@
}

/// An SSH key must be supplied when the key option is `existing`.
pub open spec fn ssh_rule_broken(r: &DeploymentRequest) -> bool {
    r.ssh_key_option matches Some(k) && k@ == "existing"@ && r.ssh_key is None
}

/// A deployment request is structurally valid when the project name is not
/// blank, the service and IP option are from the allowed sets, the volume
/// size is positive, and the SSH rule is met.
pub open spec fn request_valid(r: &DeploymentRequest) -> bool {
    &&& !spec_blank(r.project_name@)
    &&& service_allowed(r.selected_service@)
    &&& r.volume_size > 0
    &&& ip_option_allowed(r.ip_option@)
    &&& !ssh_rule_broken(r)
}

/// The message reported for an invalid request: the first failed check, in
/// the order the checks are made.
pub open spec fn spec_validation_message(r: &DeploymentRequest) -> Seq<char> {
    if spec_blank(r.project_name@) {
        "Project name is required"@
    } else if !service_allowed(r.selected_service@) {
        "Invalid cloud service selected"@
    } else if r.volume_size == 0 {
        "Volume size must be greater than 0"@
    } else if !ip_option_allowed(r.ip_option@) {
        "Invalid IP option selected"@
    } else {
        "SSH key is required when using 'existing'"@
    }
}

/// Check a deployment request structurally: succeeds exactly on valid
/// requests, and otherwise reports the first failed check.
pub fn validate_request(data: &DeploymentRequest) -> (r: Result<(), String>)
    ensures
        r is Ok <==> request_valid(data),
        r matches Err(m) ==> m@ == spec_validation_message(data),
{
    if is_blank(data.project_name.as_str()) {
        return Err(String::from_str("Project name is required"));
    }
    let sv = data.selected_service.as_str();
    if !(str_eq(sv, "AWS") || str_eq(sv, "Azure") || str_eq(sv, "GCP")) {
        return Err(String::from_str("Invalid cloud service selected"));
    }
    if data.volume_size == 0 {
        return Err(String::from_str("Volume size must be greater than 0"));
    }
    let ip = data.ip_option.as_str();
    if !(str_eq(ip, "reserved") || str_eq(ip, "dynamic")) {
        return Err(String::from_str("Invalid IP option selected"));
    }
    match (&data.ssh_key_option, &data.ssh_key) {
        (Some(k), None) => {
            if str_eq(k.as_str(), "existing") {
                return Err(String::from_str("SSH key is required when using 'existing'"));
            }
        },
        _ => {},
    }
    Ok(())
}

/// An undeploy request is valid when its user email and project id are not
/// blank.
pub open spec fn undeploy_request_valid(r: &UndeployRequest) -> bool {
    !spec_blank(r.user_email@) && !spec_blank(r.project_id@)
}

/// Check an undeploy request's required fields.
pub fn validate_undeploy_request(data: &UndeployRequest) -> (r: bool)
    ensures
        r == undeploy_request_valid(data),
{
    !is_blank(data.user_email.as_str()) && !is_blank(data.project_id.as_str())
}

/// A signup request is valid when no field is blank.
pub open spec fn signup_request_valid(r: &SignupRequest) -> bool {
    !spec_blank(r.username@) && !spec_blank(r.email@) && !spec_blank(r.password@)
}

/// Check a signup request's required fields.
pub fn validate_signup_request(data: &SignupRequest) -> (r: bool)
    ensures
        r == signup_request_valid(data),
{
    !is_blank(data.username.as_str()) && !is_blank(data.email.as_str()) && !is_blank(
        data.password.as_str(),
    )
}

/// A login request is valid when neither field is blank.
pub open spec fn login_request_valid(r: &LoginRequest) -> bool {
    !spec_blank(r.email@) && !spec_blank(r.password@)
}

/// Check a login request's required fields.
pub fn validate_login_request(data: &LoginRequest) -> (r: bool)
    ensures
        r == login_request_valid(data),
{
    !is_blank(data.email.as_str()) && !is_blank(data.password.as_str())
}

}
