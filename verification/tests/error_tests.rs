use raid_tracker::error::AppError;

#[test]
fn test_app_error_variants_exist() {
    let _ = AppError::NotFound("test".to_string());
    let _ = AppError::Conflict("test".to_string());
    let _ = AppError::ValidationError("test".to_string());
    let _ = AppError::BadRequest("test".to_string());
}

#[test]
fn test_error_status_code() {
    assert_eq!(AppError::NotFound("x".to_string()).status_code(), 404);
    assert_eq!(AppError::Conflict("x".to_string()).status_code(), 409);
    assert_eq!(AppError::ValidationError("x".to_string()).status_code(), 422);
    assert_eq!(AppError::BadRequest("x".to_string()).status_code(), 400);
    assert_eq!(AppError::DatabaseError("row not found".to_string()).status_code(), 500);
}

#[test]
fn test_error_json_body() {
    let error = AppError::NotFound("Session not found".to_string());
    assert_eq!(error.message().as_str(), "Session not found");
    assert_eq!(error.error_type(), "not_found");

    let validation_error = AppError::ValidationError("Invalid raid ID".to_string());
    assert_eq!(validation_error.message().as_str(), "Invalid raid ID");
    assert_eq!(validation_error.error_type(), "validation_error");
}

#[test]
fn test_error_type_per_variant() {
    assert_eq!(AppError::DatabaseError("x".to_string()).error_type(), "database_error");
    assert_eq!(AppError::Conflict("x".to_string()).error_type(), "conflict");
    assert_eq!(AppError::BadRequest("x".to_string()).error_type(), "bad_request");
}
