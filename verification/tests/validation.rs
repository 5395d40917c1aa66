use deploy_core::request::{
    DeploymentRequest, LoginRequest, SignupRequest, UndeployRequest, validate_login_request,
    validate_request, validate_signup_request, validate_undeploy_request,
};

fn base_request() -> DeploymentRequest {
    DeploymentRequest {
        project_name: String::from("demo"),
        selected_service: String::from("AWS"),
        selected_server: String::from("cx22"),
        region: String::from("fsn1"),
        volume_size: 10,
        ip_option: String::from("dynamic"),
        ssh_key_option: None,
        ssh_key: None,
        terraform_template: String::from("hetzner-basic"),
        user_email: String::from("user@example.com"),
    }
}

#[test]
fn accepts_a_well_formed_request() {
    assert_eq!(validate_request(&base_request()), Ok(()));
}

#[test]
fn rejects_zero_volume_size() {
    let mut req = base_request();
    req.volume_size = 0;
    assert_eq!(
        validate_request(&req),
        Err(String::from("Volume size must be greater than 0"))
    );
}

#[test]
fn rejects_unknown_service() {
    let mut req = base_request();
    req.selected_service = String::from("DigitalOcean");
    assert_eq!(
        validate_request(&req),
        Err(String::from("Invalid cloud service selected"))
    );
}

#[test]
fn accepts_each_allowed_service() {
    for service in ["AWS", "Azure", "GCP"] {
        let mut req = base_request();
        req.selected_service = String::from(service);
        assert_eq!(validate_request(&req), Ok(()));
    }
}

#[test]
fn rejects_missing_ssh_key_for_existing_option() {
    let mut req = base_request();
    req.ssh_key_option = Some(String::from("existing"));
    req.ssh_key = None;
    assert_eq!(
        validate_request(&req),
        Err(String::from("SSH key is required when using 'existing'"))
    );
}

#[test]
fn accepts_existing_option_with_key() {
    let mut req = base_request();
    req.ssh_key_option = Some(String::from("existing"));
    req.ssh_key = Some(String::from("ssh-ed25519 AAAA"));
    assert_eq!(validate_request(&req), Ok(()));
}

#[test]
fn rejects_blank_project_name() {
    let mut req = base_request();
    req.project_name = String::from("   ");
    assert_eq!(
        validate_request(&req),
        Err(String::from("Project name is required"))
    );
}

#[test]
fn rejects_unknown_ip_option() {
    let mut req = base_request();
    req.ip_option = String::from("static");
    assert_eq!(
        validate_request(&req),
        Err(String::from("Invalid IP option selected"))
    );
}

#[test]
fn undeploy_requires_email_and_project_id() {
    let ok = UndeployRequest {
        user_email: String::from("user@example.com"),
        project_id: String::from("abc"),
        project_name: String::from("demo"),
    };
    assert!(validate_undeploy_request(&ok));
    let missing = UndeployRequest {
        user_email: String::from(" "),
        project_id: String::from("abc"),
        project_name: String::from("demo"),
    };
    assert!(!validate_undeploy_request(&missing));
}

#[test]
fn signup_and_login_require_all_fields() {
    let signup = SignupRequest {
        username: String::from("ada"),
        email: String::from("ada@example.com"),
        password: String::from("pw"),
    };
    assert!(validate_signup_request(&signup));
    let blank = SignupRequest {
        username: String::from(""),
        email: String::from("ada@example.com"),
        password: String::from("pw"),
    };
    assert!(!validate_signup_request(&blank));
    let login = LoginRequest {
        email: String::from("ada@example.com"),
        password: String::from("pw"),
    };
    assert!(validate_login_request(&login));
    let login_blank = LoginRequest {
        email: String::from("ada@example.com"),
        password: String::from("\t"),
    };
    assert!(!validate_login_request(&login_blank));
}
