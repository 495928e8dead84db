use starify::errors::{first_status, AppError};
use starify::login::{login_info, shown_name, LoginInfo};

#[test]
fn not_found_is_404() {
    assert_eq!(AppError::NotFound.status_code(), 404);
    assert_eq!(AppError::NotFound.message(), "Not Found");
}

#[test]
fn failed_login_is_400() {
    let e = AppError::Authentication("bad state".to_string());
    assert_eq!(e.status_code(), 400);
    assert_eq!(e.message(), "Failure to authenticate: bad state.");
}

#[test]
fn first_error_decides_the_status() {
    let errors = vec![AppError::Authentication("x".to_string()), AppError::NotFound];
    assert_eq!(first_status(&errors), Some(400));
    assert_eq!(first_status(&vec![AppError::NotFound]), Some(404));
    assert_eq!(first_status(&Vec::new()), None);
}

#[test]
fn login_info_needs_a_url() {
    assert_eq!(
        login_info(None, None),
        Err(AppError::Authentication("Authorization URL Error".to_string()))
    );
    assert_eq!(
        login_info(None, Some(Some("Ann".to_string()))),
        Err(AppError::Authentication("Authorization URL Error".to_string()))
    );
}

#[test]
fn login_info_names_the_user() {
    assert_eq!(
        login_info(Some("https://x/authorize".to_string()), Some(Some("Ann".to_string()))),
        Ok(LoginInfo { user: Some("Ann".to_string()), url: "https://x/authorize".to_string() })
    );
    assert_eq!(
        login_info(Some("u".to_string()), Some(None)),
        Ok(LoginInfo { user: Some("Unknown User".to_string()), url: "u".to_string() })
    );
    assert_eq!(
        login_info(Some("u".to_string()), None),
        Ok(LoginInfo { user: None, url: "u".to_string() })
    );
}

#[test]
fn missing_display_name_has_a_stand_in() {
    assert_eq!(shown_name(None), "Unknown User");
    assert_eq!(shown_name(Some("Bo".to_string())), "Bo");
}
