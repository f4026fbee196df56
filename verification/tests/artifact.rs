//! Artifacts: digests, archive formats, documents and resolution.

use midenup::artifact::document::ArtifactFormError;
use midenup::artifact::{
    Archive, ArchiveFormat, Artifact, ArtifactUri, Artifacts, Digest, InvalidArtifactError,
    InvalidDigestError, Substitutions,
};
use midenup::exec::Executable;
use midenup::manifest::{Component, ComponentKind, ExecutableComponent, InstallationMethod};
use midenup::profile::Profile;
use midenup::sorted::SortedMap;
use midenup::value::{Extra, Number, Value};
use midenup::version::{Authority, Version};

const TARGET: &str = "aarch64-apple-darwin";

fn read_number(n: &serde_json::Number) -> Number {
    match (n.as_u64(), n.as_i64()) {
        (Some(whole), _) => Number::Whole(whole),
        (None, Some(negative)) => Number::Negative(negative),
        (None, None) => Number::Double(n.as_f64().unwrap_or_default().to_bits()),
    }
}

fn written_number(n: Number) -> serde_json::Value {
    match n {
        Number::Whole(whole) => serde_json::Value::from(whole),
        Number::Negative(negative) => serde_json::Value::from(negative),
        Number::Double(bits) => serde_json::Value::from(f64::from_bits(bits)),
    }
}

fn read(document: &serde_json::Value) -> Value {
    match document {
        serde_json::Value::Null => Value::Null,
        serde_json::Value::Bool(b) => Value::Bool(*b),
        serde_json::Value::Number(n) => Value::Number(read_number(n)),
        serde_json::Value::String(s) => Value::Text(s.clone()),
        serde_json::Value::Array(items) => Value::List(items.iter().map(read).collect()),
        serde_json::Value::Object(members) => {
            Value::Object(members.iter().map(|(name, v)| (name.clone(), read(v))).collect())
        },
    }
}

fn written(value: &Value) -> serde_json::Value {
    match value {
        Value::Null => serde_json::Value::Null,
        Value::Bool(b) => serde_json::Value::Bool(*b),
        Value::Number(n) => written_number(*n),
        Value::Text(s) => serde_json::Value::String(s.clone()),
        Value::List(items) => serde_json::Value::Array(items.iter().map(written).collect()),
        Value::Object(members) => serde_json::Value::Object(
            members.iter().map(|(name, v)| (name.clone(), written(v))).collect(),
        ),
    }
}

fn json(source: &str) -> serde_json::Value {
    serde_json::from_str(source).unwrap()
}

fn parse(source: &serde_json::Value) -> Artifact {
    Artifact::from_value(read(source)).expect("must parse")
}

fn to_json(artifact: &Artifact) -> serde_json::Value {
    written(&artifact.clone().to_value())
}

fn component() -> Component {
    Component {
        name: "vm".to_string(),
        version: Authority::Registry { version: Version::new(0, 16, 0) },
        kind: ComponentKind::Executable {
            installation_method: InstallationMethod::Prebuilt,
            spec: ExecutableComponent {
                installed_executable: "miden-vm".to_string(),
                ..Default::default()
            },
        },
        profiles: vec![Profile::Minimal],
        requires: vec![],
        artifacts: Artifacts::default(),
        extra: Extra::default(),
    }
}

fn agnostic(uri: &str) -> Artifact {
    Artifact::TargetAgnostic {
        uri: uri.to_string(),
        digest: None,
        archive: None,
        extra: Extra::default(),
    }
}

fn specific(uri: &str, targets: &[&str]) -> Artifact {
    let mut supported: SortedMap<Substitutions> = SortedMap::new();
    for target in targets {
        supported.insert(target.to_string(), Substitutions::default());
    }
    Artifact::TargetSpecific {
        uri: uri.to_string(),
        substitutions: None,
        targets: supported,
        digest: None,
        archive: None,
        extra: Extra::default(),
    }
}

// Digests

#[test]
fn digest_parses_and_round_trips() {
    let d = Digest::from_str("sha256:9f86d081884c7d659a2feaa0c55ad015").unwrap();
    assert_eq!(d.algorithm, "sha256");
    assert_eq!(d.to_string(), "sha256:9f86d081884c7d659a2feaa0c55ad015");
}

#[test]
fn malformed_digest_is_rejected() {
    assert!(Digest::from_str("9f86d081").is_err(), "missing algorithm");
    assert!(Digest::from_str(":abc").is_err(), "empty algorithm");
    assert!(Digest::from_str("sha256:").is_err(), "empty hex");
    assert!(Digest::from_str("sha256:zzzz").is_err(), "non-hex");
    assert!(Digest::from_str("sha256:ABCD").is_err(), "uppercase hex");
}

#[test]
fn a_digest_error_tells_what_is_wrong() {
    let missing = Digest::from_str("9f86d081").unwrap_err();
    assert!(matches!(&missing, InvalidDigestError::Malformed(raw) if raw == "9f86d081"));
    let empty = Digest::from_str(":abc").unwrap_err();
    assert!(matches!(empty, InvalidDigestError::Malformed(_)));
    let not_hex = Digest::from_str("sha256:zzzz").unwrap_err();
    assert!(matches!(&not_hex, InvalidDigestError::NotHex(raw) if raw == "sha256:zzzz"));
}

#[test]
fn a_digest_may_hold_further_colons_only_in_error() {
    assert!(matches!(Digest::from_str("a:b:c"), Err(InvalidDigestError::NotHex(_))));
}

/// The digest survives a manifest round-trip and is not verified against anything.
#[test]
fn digest_round_trips_through_a_manifest() {
    let src = json(
        r#"{
            "manifest_version": "3.0.0",
            "date": 1735689600,
            "channels": [{"name": "0.15.0", "components": [{
                "name": "core",
                "version": {"kind": "registry", "version": "0.23.4"},
                "kind": "package",
                "artifacts": {"core.masp": {
                    "uri": "https://example.invalid/core.masp",
                    "digest": "sha256:deadbeef"
                }}
            }]}]
        }"#,
    );
    let source = &src["channels"][0]["components"][0]["artifacts"]["core.masp"];
    let artifact = Artifact::from_value(read(source)).expect("parse");
    let out = to_json(&artifact);
    assert_eq!(out["digest"], serde_json::Value::String("sha256:deadbeef".to_string()));
    assert_eq!(artifact.digest().unwrap().hex, "deadbeef");
}

#[test]
fn a_malformed_digest_fails_the_parse() {
    let src = json(
        r#"{
            "manifest_version": "3.0.0",
            "date": 1735689600,
            "channels": [{"name": "0.15.0", "components": [{
                "name": "core",
                "version": {"kind": "registry", "version": "0.23.4"},
                "kind": "package",
                "artifacts": {"core.masp": {
                    "uri": "https://example.invalid/core.masp",
                    "digest": "not-a-digest"
                }}
            }]}]
        }"#,
    );
    let source = &src["channels"][0]["components"][0]["artifacts"]["core.masp"];
    assert!(Artifact::from_value(read(source)).is_err());
}

// Archives

/// Every supported spelling must parse to a readable format and serialize back to itself, which is
/// what keeps `parse` and `as_str` from drifting apart.
#[test]
fn every_supported_format_round_trips() {
    for spelling in ArchiveFormat::supported_spellings() {
        let source = json(&format!(
            r#"{{"uri": "https://example.invalid/vm.tar.gz", "archive": "{spelling}"}}"#
        ));
        let artifact = parse(&source);
        let format = &artifact.archive().unwrap().format;
        assert!(format.is_supported(), "{spelling} must be readable");
        assert_eq!(format.as_str(), spelling);
        assert_eq!(to_json(&artifact), source);
    }
}

#[test]
fn the_supported_formats_are_the_gzipped_tarball() {
    assert_eq!(ArchiveFormat::supported_spellings(), vec!["tar.gz"]);
    assert_eq!(ArchiveFormat::parse("tar.gz"), ArchiveFormat::TarGz);
    assert_eq!(ArchiveFormat::parse("tgz"), ArchiveFormat::Unsupported("tgz".to_string()));
    assert_eq!(ArchiveFormat::parse("zip").to_string(), "zip");
}

#[test]
fn an_archived_artifact_resolves_to_its_format() {
    let artifact = parse(&json(&format!(
        r#"{{
            "uri": "https://example.invalid/v%version/%basename-%target.%extension",
            "archive": "tar.gz",
            "basename": "miden-vm",
            "extension": "tar.gz",
            "targets": {{"{TARGET}": {{}}}}
        }}"#
    )));

    let resolved = artifact
        .resolve_for("miden-vm", TARGET, &component())
        .expect("must resolve")
        .expect("the target is declared");

    assert_eq!(
        resolved.uri.to_string(),
        format!("https://example.invalid/v0.16.0/miden-vm-{TARGET}.tar.gz")
    );
    assert_eq!(resolved.archive, Some(ArchiveFormat::TarGz));
}

/// An unreadable container is rejected when the installation is planned, not when the manifest is
/// parsed -- an unrelated channel must stay parseable.
#[test]
fn an_unreadable_format_parses_but_does_not_resolve() {
    let source = json(r#"{"uri": "https://example.invalid/vm.zip", "archive": "zip"}"#);
    let artifact = parse(&source);
    assert_eq!(to_json(&artifact), source, "an unknown format must round-trip verbatim");

    let err = artifact.resolve_for("miden-vm", "", &component()).expect_err("must fail");
    assert!(
        matches!(err, InvalidArtifactError::UnsupportedArchiveFormat { .. }),
        "{}",
        err.to_string()
    );
    assert!(err.to_string().contains("zip"), "the message must name the format");
}

/// An unarchived artifact emits no `archive` key at all, so existing manifests are untouched.
#[test]
fn an_unarchived_artifact_has_no_archive() {
    let source = json(r#"{"uri": "https://example.invalid/core.masp"}"#);
    let artifact = parse(&source);
    assert!(artifact.archive().is_none());
    assert_eq!(to_json(&artifact), source);

    let resolved = artifact.resolve_for("core.masp", "", &component()).unwrap().unwrap();
    assert!(resolved.archive.is_none());
}

// Documents

/// What this build does not understand is preserved. Without that, a newer publisher adding a field
/// to an artifact -- a signature, say -- would lose it on the first round trip.
#[test]
fn unknown_artifact_fields_round_trip() {
    for source in [
        json(
            r#"{
                "uri": "https://example.invalid/%target",
                "targets": {"aarch64-apple-darwin": {"basename": "vm"}},
                "signature": {"alg": "ed25519", "sig": "deadbeef"}
            }"#,
        ),
        json(
            r#"{
                "uri": "https://example.invalid/core.masp",
                "digest": "sha256:9f86d081884c7d659a2feaa0c55ad015",
                "provenance": ["a", "b"]
            }"#,
        ),
    ] {
        let artifact = Artifact::from_value(read(&source)).expect("must parse");
        let out = to_json(&artifact);
        assert_eq!(out, source, "an artifact must round-trip byte-for-byte");
    }
}

/// The capture must not duplicate keys that the flattened `substitutions` already consumed.
#[test]
fn flattened_substitutions_are_not_duplicated_into_the_extras() {
    let source = json(
        r#"{
            "uri": "https://example.invalid/%target.%extension",
            "basename": "miden-vm",
            "extension": "tar.gz",
            "archive": "tar.gz",
            "targets": {"aarch64-apple-darwin": {}}
        }"#,
    );

    let artifact = Artifact::from_value(read(&source)).unwrap();
    let value = artifact.clone().to_value();
    let Value::Object(members) = &value else { panic!("an artifact is an object") };
    assert_eq!(members.len(), 5, "no key may appear twice");

    let out = written(&value);
    assert_eq!(out, source);
    assert_eq!(
        out.as_object().unwrap().len(),
        5,
        "no key may appear twice: {}",
        serde_json::to_string(&out).unwrap()
    );
}

/// The artifact's own capture only sees the top level, so a nested archive has to preserve its
/// unknown fields itself.
#[test]
fn unknown_fields_inside_an_archive_round_trip() {
    let source = json(
        r#"{
            "uri": "https://example.invalid/vm.tar.gz",
            "archive": {"format": "tar.gz", "strip-components": 1}
        }"#,
    );

    let artifact = Artifact::from_value(read(&source)).expect("must parse");
    assert_eq!(to_json(&artifact), source);
}

/// A malformed artifact names what is wrong with it, rather than reporting that no variant matched.
#[test]
fn a_malformed_targets_map_is_reported_as_such() {
    let err = Artifact::from_value(read(&json(
        r#"{"uri": "https://example.invalid/%target", "targets": ["aarch64-apple-darwin"]}"#,
    )))
    .expect_err("must reject");

    assert!(err.to_string().contains("targets"), "{}", err.to_string());
    assert!(matches!(err, ArtifactFormError::Targets));
}

#[test]
fn a_document_that_is_no_artifact_is_rejected() {
    let cases = [
        ("[]", ArtifactFormError::NotAnObject, "object"),
        (r#""https://example.invalid""#, ArtifactFormError::NotAnObject, "object"),
        (r#"{"targets": {}}"#, ArtifactFormError::Uri, "`uri`"),
        (r#"{"uri": 7}"#, ArtifactFormError::Uri, "`uri`"),
        (r#"{"uri": "file:///a", "digest": "sha256"}"#, ArtifactFormError::Digest, "`digest`"),
        (r#"{"uri": "file:///a", "archive": {}}"#, ArtifactFormError::Archive, "`archive`"),
    ];
    for (source, expected, field) in cases {
        let err = Artifact::from_value(read(&json(source))).expect_err("must reject");
        assert!(err.to_string().contains(field), "{source}");
        assert_eq!(err, expected, "{source}");
    }
}

/// Targets that are there but cannot be read do not make an artifact the same for every target.
#[test]
fn unreadable_targets_are_not_taken_for_none() {
    for targets in [r#"{"aarch64-apple-darwin": 7}"#, "7", r#""aarch64-apple-darwin""#, "null"] {
        let source = format!(r#"{{"uri": "https://example.invalid/vm", "targets": {targets}}}"#);
        let err = Artifact::from_value(read(&json(&source))).expect_err("must reject");
        assert_eq!(err, ArtifactFormError::Targets, "{source}");
    }
}

/// A command may have data files, which are installed like an asset's.
#[test]
fn a_command_installs_all_of_its_artifacts() {
    let mut c = component();
    c.kind = ComponentKind::Command {
        command_name: None,
        format: Executable::default_call_format(),
        subcommands: SortedMap::new(),
        aliases: SortedMap::new(),
    };
    c.artifacts.insert("compose.yml".to_string(), agnostic("https://example.invalid/compose.yml"));
    c.artifacts.insert("env".to_string(), agnostic("https://example.invalid/env"));
    let found = c.artifacts.get_default_artifacts_for_target(TARGET, &c).unwrap();
    let ids: Vec<&str> = found.iter().map(|(id, _)| *id).collect();
    assert_eq!(ids, ["compose.yml", "env"]);
}

#[test]
fn an_archive_without_further_fields_is_written_as_its_format() {
    let plain = Archive { format: ArchiveFormat::TarGz, extra: Extra::default() };
    assert_eq!(plain.to_value(), Value::Text("tar.gz".to_string()));
    let read_back =
        Archive::from_value(read(&json(r#"{"format": "tar.gz", "level": 9}"#))).unwrap();
    assert_eq!(read_back.format, ArchiveFormat::TarGz);
    assert_eq!(read_back.extra.members, vec![("level".to_string(), Value::Number(Number::Whole(9)))]);
    assert!(Archive::from_value(Value::Null).is_none());
}

// Resolution

#[test]
fn substitutions_fall_back_from_target_to_artifact_to_component() {
    let own = parse(&json(&format!(
        r#"{{
            "uri": "https://example.invalid/%basename-%target",
            "basename": "common",
            "targets": {{"{TARGET}": {{"basename": "own"}}, "other": {{}}}}
        }}"#
    )));
    let uri = |artifact: &Artifact, target: &str| {
        artifact.resolve_for("id", target, &component()).unwrap().unwrap().uri.to_string()
    };
    assert_eq!(uri(&own, TARGET), format!("https://example.invalid/own-{TARGET}"));
    assert_eq!(uri(&own, "other"), "https://example.invalid/common-other");
    let bare = specific("https://example.invalid/%basename-%target", &[TARGET]);
    assert_eq!(uri(&bare, TARGET), format!("https://example.invalid/vm-{TARGET}"));
}

#[test]
fn an_undeclared_target_resolves_to_nothing() {
    let artifact = specific("https://example.invalid/%target", &[TARGET]);
    assert!(artifact.resolve_for("id", "x86_64-unknown-linux-gnu", &component()).unwrap().is_none());
    let agnostic = agnostic("https://example.invalid/core.masp");
    let one = agnostic.resolve_for("id", TARGET, &component()).unwrap().unwrap();
    let other = agnostic.resolve_for("id", "anything", &component()).unwrap().unwrap();
    assert_eq!(one, other);
}

#[test]
fn each_resolution_error_has_its_input() {
    let c = component();
    let missing = agnostic("example.invalid/core").resolve_for("core", "", &c).unwrap_err();
    assert_eq!(
        missing.to_string(),
        "invalid artifact: no uri scheme for artifact core of vm"
    );
    let scheme = agnostic("ftp://example.invalid/core").resolve_for("core", "", &c).unwrap_err();
    assert_eq!(
        scheme.to_string(),
        "invalid artifact: invalid scheme for artifact core of vm: expected file://, http://, or \
         https://, got 'ftp'"
    );
    let mut unversioned = component();
    unversioned.version =
        Authority::Path { path: "/src".to_string(), last_modification: None };
    let version = agnostic("https://example.invalid/%version")
        .resolve_for("core", "", &unversioned)
        .unwrap_err();
    assert!(matches!(version, InvalidArtifactError::VersionUnavailable { .. }));
    let extension =
        agnostic("https://example.invalid/a.%extension").resolve_for("core", "", &c).unwrap_err();
    assert!(matches!(
        extension,
        InvalidArtifactError::UndefinedSubstitution { substitution: "%extension", .. }
    ));
    let target =
        specific("https://example.invalid/a", &[TARGET]).resolve_for("core", TARGET, &c).unwrap_err();
    assert_eq!(
        target.to_string(),
        "invalid artifact: uri is missing %target substitution for artifact core of vm when target \
         is 'aarch64-apple-darwin'"
    );
}

#[test]
fn a_file_uri_resolves_to_its_path() {
    let resolved = agnostic("file:///srv/core.masp").resolve_for("id", "", &component()).unwrap();
    let uri = resolved.unwrap().uri;
    assert_eq!(uri, ArtifactUri::File("/srv/core.masp".to_string()));
    assert_eq!(uri.file_name(), Some("core.masp".to_string()));
}

#[test]
fn artifacts_are_found_by_target() {
    let mut artifacts = Artifacts::default();
    assert!(artifacts.is_empty());
    artifacts.insert("b".to_string(), specific("https://example.invalid/b-%target", &[TARGET]));
    artifacts.insert("a".to_string(), agnostic("https://example.invalid/a"));
    assert!(!artifacts.is_empty());
    let c = component();
    let found = artifacts.get_artifacts_for_target(TARGET, &c).unwrap();
    let ids: Vec<&str> = found.iter().map(|(id, _)| *id).collect();
    assert_eq!(ids, ["a", "b"]);
    assert_eq!(artifacts.get_artifacts_for_target("other", &c).unwrap().len(), 1);
    let b = artifacts.get_artifact_for_target("b", TARGET, &c).unwrap().unwrap();
    assert_eq!(b.uri.to_string(), format!("https://example.invalid/b-{TARGET}"));
    assert!(artifacts.get_artifact_for_target("b", "other", &c).unwrap().is_none());
    assert!(artifacts.get_artifact_for_target("missing", TARGET, &c).unwrap().is_none());
}

/// Artifacts are equal where the fields that nobody recognizes are, in whatever order they stand, and
/// numbers count as they do in the documents themselves.
#[test]
fn artifacts_are_equal_by_what_they_declare() {
    let pairs = [
        (r#"{"a": 1, "b": [2, {"c": 3, "d": null}]}"#, r#"{"b": [2, {"d": null, "c": 3}], "a": 1}"#),
        (r#"{"a": 0.0}"#, r#"{"a": -0.0}"#),
        (r#"{"a": 0.0}"#, r#"{"a": 0}"#),
        (r#"{"a": 1.0}"#, r#"{"a": 1}"#),
        (r#"{"a": 1.50}"#, r#"{"a": 15e-1}"#),
        (r#"{"a": -1}"#, r#"{"a": 1}"#),
        (r#"{"a": -1}"#, r#"{"a": -1}"#),
        (r#"{"a": 1e300}"#, r#"{"a": -1e300}"#),
        (r#"{"a": 18446744073709551615}"#, r#"{"a": 18446744073709551615}"#),
        (r#"{"a": 1, "b": 2}"#, r#"{"a": 1}"#),
        (r#"{"a": [1, 2]}"#, r#"{"a": [2, 1]}"#),
    ];
    for (a, b) in pairs {
        let (x, y) = (json(a), json(b));
        assert_eq!(written(&read(&x)).to_string(), x.to_string(), "{a}");
        assert_eq!(read(&x) == read(&y), x == y, "{a} {b}");
        let mut declared = [x, y].map(|mut fields| {
            fields["uri"] = serde_json::Value::from("https://example.invalid/core.masp");
            parse(&fields)
        });
        // The order in which the fields were read must not matter either.
        if let Artifact::TargetAgnostic { extra, .. } = &mut declared[0] {
            extra.members.reverse();
        }
        assert_eq!(declared[0] == declared[1], json(a) == json(b), "{a} {b}");
    }
}

#[test]
fn files_are_equal_by_their_components() {
    let file = |path: &str| ArtifactUri::File(path.to_string());
    assert_eq!(file("/a//b/"), file("/a/b"));
    assert_ne!(file("/a/b"), file("/a/c"));
    assert_ne!(file("/a/b"), file("a/b"));
    let fetched = |uri: &str| ArtifactUri::Http(uri.to_string());
    assert_ne!(fetched("https://a//b"), fetched("https://a/b"));
    assert_ne!(fetched("/a/b"), file("/a/b"));
}
