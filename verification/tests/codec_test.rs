use rustic_sketch::codec::{
    decode, dependency_of_token, dependency_token, encode, status_of_token, status_token,
    DecodeError,
};
use rustic_sketch::health_check::service_status::{
    Dependency, DependencyStatus, ServiceStatus, Status,
};
use rustic_sketch::health_check::version::{Build, Commit, Environment, Version};

const SAMPLE_OK: &str = "{\"env\":\"dev\",\"build\":\"feat.branch.108\",\"commit\":\"c11e2d041c9b4ca66e241f8429e9a2876a8e0b18\",\"status\":\"Ok\",\"dependencies\":[{\"database\":\"Ok\"}]}";

const SAMPLE_DEGRADED: &str = "{\"env\":\"dev\",\"build\":\"feat.branch.108\",\"commit\":\"c11e2d041c9b4ca66e241f8429e9a2876a8e0b18\",\"status\":\"Degraded\",\"dependencies\":[{\"database\":\"Degraded\"}]}";

fn without_whitespace(s: &str) -> String {
    s.chars().filter(|c| !c.is_whitespace()).collect()
}

fn sample_version() -> Version {
    Version::new(
        Environment::new("dev".to_string()),
        Build::new("feat.branch.108".to_string()),
        Commit::new("c11e2d041c9b4ca66e241f8429e9a2876a8e0b18".to_string()),
    )
}

#[test]
fn ok_document_round_trips() {
    let decoded = decode(SAMPLE_OK).unwrap();
    let reencoded = encode(&decoded);
    assert_eq!(without_whitespace(SAMPLE_OK), without_whitespace(&reencoded));
}

#[test]
fn degraded_document_round_trips() {
    let decoded = decode(SAMPLE_DEGRADED).unwrap();
    let reencoded = encode(&decoded);
    assert_eq!(
        without_whitespace(SAMPLE_DEGRADED),
        without_whitespace(&reencoded)
    );
}

#[test]
fn whitespace_between_tokens_is_ignored() {
    let spaced = "{ \"env\" : \"dev\" ,\n \"build\" : \"feat.branch.108\" ,\n \"commit\" : \"c11e2d041c9b4ca66e241f8429e9a2876a8e0b18\" ,\n \"status\" : \"Ok\" ,\n \"dependencies\" : [ { \"database\" : \"Ok\" } ] }\n";
    let decoded = decode(spaced).unwrap();
    assert_eq!(encode(&decoded), SAMPLE_OK);
}

#[test]
fn encodes_the_canonical_document() {
    let status = ServiceStatus::new(
        sample_version(),
        vec![DependencyStatus::new(Dependency::Database, Status::Healthy)],
    );
    assert_eq!(encode(&status), SAMPLE_OK);
}

#[test]
fn encodes_every_dependency_in_order() {
    let status = ServiceStatus::new(
        sample_version(),
        vec![
            DependencyStatus::new(Dependency::Auth0, Status::Healthy),
            DependencyStatus::new(Dependency::Database, Status::Degraded),
            DependencyStatus::new(Dependency::Snitch, Status::Healthy),
        ],
    );
    let document = encode(&status);
    assert!(document.ends_with(
        "\"status\":\"Degraded\",\"dependencies\":[{\"auth0\":\"Ok\"},{\"database\":\"Degraded\"},{\"snitch\":\"Ok\"}]}"
    ));
}

#[test]
fn decoded_document_carries_the_fields() {
    let decoded = decode(SAMPLE_DEGRADED).unwrap();
    assert_eq!(*decoded.version(), sample_version());
    assert_eq!(*decoded.status(), Status::Degraded);
    assert_eq!(
        *decoded.dependencies(),
        vec![DependencyStatus::new(Dependency::Database, Status::Degraded)]
    );
}

#[test]
fn decodes_empty_dependency_list_as_healthy() {
    let document = "{\"env\":\"dev\",\"build\":\"1\",\"commit\":\"c\",\"status\":\"Ok\",\"dependencies\":[]}";
    let decoded = decode(document).unwrap();
    assert_eq!(*decoded.status(), Status::Healthy);
    assert!(decoded.dependencies().is_empty());
}

#[test]
fn escaped_characters_round_trip() {
    let status = ServiceStatus::new(
        Version::new(
            Environment::new("d\"ev".to_string()),
            Build::new("a\\b".to_string()),
            Commit::new("c".to_string()),
        ),
        Vec::new(),
    );
    let document = encode(&status);
    let decoded = decode(&document).unwrap();
    assert_eq!(*decoded.version().env(), Environment::new("d\"ev".to_string()));
    assert_eq!(*decoded.version().build(), Build::new("a\\b".to_string()));
}

#[test]
fn rejects_unknown_status_token() {
    let document = "{\"env\":\"dev\",\"build\":\"1\",\"commit\":\"c\",\"status\":\"Unknown\",\"dependencies\":[]}";
    let err = decode(document).err().unwrap();
    assert!(matches!(err, DecodeError::UnknownStatus(t) if t == "Unknown"));
}

#[test]
fn rejects_unknown_dependency_status_token() {
    let document = "{\"env\":\"dev\",\"build\":\"1\",\"commit\":\"c\",\"status\":\"Ok\",\"dependencies\":[{\"database\":\"Unknown\"}]}";
    let err = decode(document).err().unwrap();
    assert!(matches!(err, DecodeError::UnknownStatus(t) if t == "Unknown"));
}

#[test]
fn rejects_unknown_dependency_name() {
    let document = "{\"env\":\"dev\",\"build\":\"1\",\"commit\":\"c\",\"status\":\"Ok\",\"dependencies\":[{\"redis\":\"Ok\"}]}";
    let err = decode(document).err().unwrap();
    assert!(matches!(err, DecodeError::UnknownDependency(t) if t == "redis"));
}

#[test]
fn rejects_dependency_object_with_two_keys() {
    let document = "{\"env\":\"dev\",\"build\":\"1\",\"commit\":\"c\",\"status\":\"Ok\",\"dependencies\":[{\"database\":\"Ok\",\"snitch\":\"Ok\"}]}";
    let err = decode(document).err().unwrap();
    assert!(matches!(err, DecodeError::MalformedDependencyObject));
}

#[test]
fn rejects_dependency_object_with_no_key() {
    let document = "{\"env\":\"dev\",\"build\":\"1\",\"commit\":\"c\",\"status\":\"Ok\",\"dependencies\":[{}]}";
    let err = decode(document).err().unwrap();
    assert!(matches!(err, DecodeError::MalformedDependencyObject));
}

#[test]
fn rejects_status_that_contradicts_the_outcomes() {
    let document = "{\"env\":\"dev\",\"build\":\"1\",\"commit\":\"c\",\"status\":\"Degraded\",\"dependencies\":[{\"database\":\"Ok\"}]}";
    let err = decode(document).err().unwrap();
    assert!(matches!(err, DecodeError::InconsistentStatus));
}

#[test]
fn rejects_trailing_garbage() {
    let mut document = String::from(SAMPLE_OK);
    document.push_str("x");
    let err = decode(&document).err().unwrap();
    assert!(matches!(err, DecodeError::Malformed));
}

#[test]
fn rejects_truncated_document() {
    let document = "{\"env\":\"dev\",\"build\":\"1\"";
    let err = decode(document).err().unwrap();
    assert!(matches!(err, DecodeError::Malformed));
}

#[test]
fn token_tables_are_symmetric() {
    assert_eq!(status_token(Status::Healthy), "Ok");
    assert_eq!(status_token(Status::Degraded), "Degraded");
    assert_eq!(dependency_token(Dependency::Auth0), "auth0");
    assert_eq!(dependency_token(Dependency::Database), "database");
    assert_eq!(dependency_token(Dependency::Snitch), "snitch");

    let ok: Vec<char> = "Ok".chars().collect();
    let degraded: Vec<char> = "Degraded".chars().collect();
    let unknown: Vec<char> = "Unknown".chars().collect();
    assert_eq!(status_of_token(&ok), Some(Status::Healthy));
    assert_eq!(status_of_token(&degraded), Some(Status::Degraded));
    assert_eq!(status_of_token(&unknown), None);

    let database: Vec<char> = "database".chars().collect();
    let redis: Vec<char> = "redis".chars().collect();
    assert_eq!(dependency_of_token(&database), Some(Dependency::Database));
    assert_eq!(dependency_of_token(&redis), None);
}
