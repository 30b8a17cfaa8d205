use rustic_sketch::health_check::version::{
    parse_version, Build, Commit, Environment, Version,
};

fn env() -> Environment {
    Environment::new("dev".to_string())
}

#[test]
fn parses_a_two_line_record() {
    let content = "snapshot\nd1a1efeba1806cd2d0fe4164162272afb0f121f4";
    let result = parse_version(env(), content).unwrap();

    assert_eq!(*result.env(), env());
    assert_eq!(*result.build(), Build::new("snapshot".to_string()));
    assert_eq!(
        *result.commit(),
        Commit::new("d1a1efeba1806cd2d0fe4164162272afb0f121f4".to_string())
    );
}

#[test]
fn ignores_lines_after_the_second() {
    let content = "108\nc11e2d0\nleftover\n";
    let result = parse_version(env(), content).unwrap();
    assert_eq!(*result.build(), Build::new("108".to_string()));
    assert_eq!(*result.commit(), Commit::new("c11e2d0".to_string()));
}

#[test]
fn strips_carriage_returns_from_line_endings() {
    let content = "108\r\nc11e2d0\r\n";
    let result = parse_version(env(), content).unwrap();
    assert_eq!(*result.build(), Build::new("108".to_string()));
    assert_eq!(*result.commit(), Commit::new("c11e2d0".to_string()));
}

#[test]
fn rejects_an_empty_record() {
    let result: Result<Version, _> = parse_version(env(), "");
    let err = result.err().unwrap();
    assert_eq!(
        err.message().as_str(),
        "No build number specified in 'rustic.version'"
    );
}

#[test]
fn rejects_a_record_without_a_commit_line() {
    let result: Result<Version, _> = parse_version(env(), "snapshot");
    let err = result.err().unwrap();
    assert_eq!(
        err.message().as_str(),
        "No commit hash specified in 'rustic.version'"
    );

    let result: Result<Version, _> = parse_version(env(), "snapshot\n");
    let err = result.err().unwrap();
    assert_eq!(
        err.message().as_str(),
        "No commit hash specified in 'rustic.version'"
    );
}

#[test]
fn version_exposes_its_parts() {
    let version = Version::new(
        Environment::new("prd".to_string()),
        Build::new("42".to_string()),
        Commit::new("abc".to_string()),
    );
    assert_eq!(*version.env(), Environment::new("prd".to_string()));
    assert_eq!(*version.build(), Build::new("42".to_string()));
    assert_eq!(*version.commit(), Commit::new("abc".to_string()));
    assert_eq!(version.env().as_str(), "prd");
    assert_eq!(version.build().as_str(), "42");
    assert_eq!(version.commit().as_str(), "abc");
}
