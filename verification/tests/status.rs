use linestrip::status::StatusCode;
use linestrip::term::Term;

#[test]
fn status_codes_follow_the_stages() {
    assert_eq!(StatusCode::Success.report(), 0);
    assert_eq!(StatusCode::Io.report(), 1);
    assert_eq!(StatusCode::Eyre.report(), 2);
    assert_eq!(StatusCode::Tracing.report(), 3);
    assert_eq!(StatusCode::Clap.report(), 4);
    assert_eq!(StatusCode::Input.report(), 5);
    assert_eq!(StatusCode::Curve.report(), 6);
    assert_eq!(StatusCode::Output.report(), 7);
}

#[test]
fn terms_follow_the_stages() {
    assert_eq!(Term::Success.report(), 0);
    assert_eq!(Term::Io.report(), 1);
    assert_eq!(Term::Eyre.report(), 2);
    assert_eq!(Term::Tracing.report(), 3);
    assert_eq!(Term::Clap.report(), 4);
    assert_eq!(Term::Input.report(), 5);
    assert_eq!(Term::Curve.report(), 6);
    assert_eq!(Term::Output.report(), 7);
}
