use newsletter::errors::LoginError;
use newsletter::errors::PublishError;
use newsletter::errors::PublishFlowError;
use newsletter::errors::KeyRejection;
use newsletter::errors::SubscribeError;

#[test]
fn publish_flow_errors_map_to_transport_statuses() {
    assert_eq!(PublishFlowError::Validation(KeyRejection::Empty).transport_status(), 400);
    assert_eq!(PublishFlowError::ConcurrencyConflict.transport_status(), 409);
}

#[test]
fn publish_error_responses() {
    let auth = PublishError::AuthError.error_response();
    assert_eq!(auth.status, 401);
    assert_eq!(auth.headers[0].0, b"WWW-Authenticate".to_vec());
    assert_eq!(auth.headers[0].1, b"Basic realm=\"publish\"".to_vec());
    let unexpected = PublishError::UnexpectedError.error_response();
    assert_eq!(unexpected.status, 500);
    assert!(unexpected.headers.is_empty());
    assert_eq!(PublishError::AuthError.status_code(), 401);
    assert_eq!(PublishError::UnexpectedError.status_code(), 500);
}

#[test]
fn login_always_answers_with_a_redirect_status() {
    assert_eq!(LoginError::AuthError.status_code(), 303);
    assert_eq!(LoginError::UnexpectedError.status_code(), 303);
    assert_eq!(LoginError::AuthError.message(), "Authentication field");
    assert_eq!(LoginError::UnexpectedError.message(), "Something went wrong");
}

#[test]
fn subscribe_errors_map_to_statuses_and_from_string() {
    let v = SubscribeError::from("bad name".to_string());
    assert!(matches!(v, SubscribeError::ValidationError(_)));
    assert_eq!(v.status_code(), 400);
    assert_eq!(SubscribeError::UnexpectedError.status_code(), 500);
}
