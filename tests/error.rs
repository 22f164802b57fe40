use ufo_gleaner::error::{ErrorKind, UfoError};

#[test]
fn error_builders_keep_fields() {
    let e = UfoError::new(ErrorKind::Other("boom".to_string()))
        .with_path("p".to_string())
        .with_context("c".to_string())
        .with_cause("underlying".to_string());
    assert_eq!(e.kind(), &ErrorKind::Other("boom".to_string()));
    assert_eq!(e.path(), &Some("p".to_string()));
    assert_eq!(e.context(), &Some("c".to_string()));
    assert_eq!(e.cause(), &Some("underlying".to_string()));
}
