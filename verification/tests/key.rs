//! Plan keys.

use midenup::plan::key::{compute, encode, ArtifactInput, ComponentInputs, KeyInputs, PlanKey};
use sha2::Digest;

type Mutation = (&'static str, fn(&mut KeyInputs));

fn component(name: &str) -> ComponentInputs {
    ComponentInputs {
        name: name.to_string(),
        authority: "registry:0.15.0".to_string(),
        kind: "executable".to_string(),
        installation_method: "prebuilt".to_string(),
        artifacts: vec![ArtifactInput {
            id: "miden-vm".to_string(),
            uri: "https://example.invalid/vm".to_string(),
            archive: None,
        }],
        destinations: vec![("/s/bin/miden-vm".to_string(), 0o755)],
        crate_name: Some("miden-vm".to_string()),
        features: Some(vec!["std".to_string()]),
        rustup_channel: None,
        symlinks: vec![("miden vm".to_string(), "miden-vm".to_string())],
    }
}

fn inputs() -> KeyInputs {
    KeyInputs {
        target: "aarch64-apple-darwin".to_string(),
        components: vec![component("vm"), component("core"), component("client")],
    }
}

#[test]
fn key_carries_an_algorithm_version_prefix() {
    assert!(compute(&inputs()).to_string().starts_with("pk1:"));
}

#[test]
fn key_is_stable_under_input_reordering() {
    let mut reordered = inputs();
    reordered.components.reverse();
    assert_eq!(compute(&inputs()), compute(&reordered));

    // A rotation, not just a reversal, so the test does not accidentally depend on symmetry.
    let mut rotated = inputs();
    rotated.components.rotate_left(1);
    assert_eq!(compute(&inputs()), compute(&rotated));
}

#[test]
fn collection_ordering_within_a_component_does_not_matter() {
    let mut a = inputs();
    a.components[0].symlinks = vec![("x".into(), "1".into()), ("y".into(), "2".into())];
    a.components[0].features = Some(vec!["b".into(), "a".into()]);

    let mut b = inputs();
    b.components[0].symlinks = vec![("y".into(), "2".into()), ("x".into(), "1".into())];
    b.components[0].features = Some(vec!["a".into(), "b".into()]);

    assert_eq!(compute(&a), compute(&b));
}

#[test]
fn key_changes_for_every_material_input() {
    let base = inputs();
    let mutations: Vec<Mutation> = vec![
        ("target", |i| i.target = "x86_64-unknown-linux-gnu".into()),
        ("component name", |i| i.components[0].name = "renamed".into()),
        ("authority", |i| i.components[0].authority = "registry:0.16.0".into()),
        ("kind", |i| i.components[0].kind = "package".into()),
        ("method", |i| i.components[0].installation_method = "cargo".into()),
        ("artifact id", |i| i.components[0].artifacts[0].id = "other".into()),
        ("artifact uri", |i| i.components[0].artifacts[0].uri = "https://other".into()),
        // Unpacking the same URI installs different bytes than fetching it whole.
        ("artifact archive", |i| {
            i.components[0].artifacts[0].archive = Some("tar.gz".into())
        }),
        ("destination", |i| i.components[0].destinations[0].0 = "/s/bin/other".into()),
        ("mode", |i| i.components[0].destinations[0].1 = 0o644),
        ("crate name", |i| i.components[0].crate_name = Some("other".into())),
        ("features", |i| i.components[0].features = Some(vec!["other".into()])),
        ("rustup channel", |i| i.components[0].rustup_channel = Some("nightly".into())),
        ("symlink name", |i| i.components[0].symlinks[0].0 = "miden other".into()),
        ("symlink target", |i| i.components[0].symlinks[0].1 = "other-bin".into()),
        ("component added", |i| i.components.push(component("extra"))),
        ("component removed", |i| {
            i.components.pop();
        }),
    ];

    for (label, mutate) in mutations {
        let mut mutated = base.clone();
        mutate(&mut mutated);
        assert_ne!(compute(&base), compute(&mutated), "key must change for {label}");
    }
}

/// Absent and present-but-empty must not collide: a component that declares no features and
/// one whose features list is empty are different inputs.
#[test]
fn absent_and_empty_encode_differently() {
    let mut absent = inputs();
    absent.components[0].features = None;

    let mut empty = inputs();
    empty.components[0].features = Some(vec![]);

    assert_ne!(compute(&absent), compute(&empty));
}

#[test]
fn absent_and_empty_optionals_encode_differently() {
    let mut absent = inputs();
    absent.components[0].rustup_channel = None;

    let mut empty = inputs();
    empty.components[0].rustup_channel = Some(String::new());

    assert_ne!(compute(&absent), compute(&empty));
}

/// Length prefixes mean adjacent fields cannot be confused for one another.
#[test]
fn field_boundaries_are_unambiguous() {
    let mut a = inputs();
    a.components[0].name = "ab".into();
    a.components[0].authority = "c".into();

    let mut b = inputs();
    b.components[0].name = "a".into();
    b.components[0].authority = "bc".into();

    assert_ne!(compute(&a), compute(&b));
}

#[test]
fn the_key_is_deterministic_across_calls() {
    assert_eq!(compute(&inputs()), compute(&inputs()));
}

// Exact values

/// A field is its tag, a presence marker, the length of its bytes and the bytes.
#[test]
fn an_empty_plan_encodes_its_target() {
    let empty = KeyInputs { target: "t".to_string(), components: vec![] };
    assert_eq!(encode(&empty), vec![1, 1, 1, 0, 0, 0, 0, 0, 0, 0, b't']);
}

/// The key is the SHA-256 digest of the encoding, in hex, behind the algorithm version.
#[test]
fn the_key_is_the_digest_of_the_encoding() {
    let bytes = encode(&inputs());
    let digest = sha2::Sha256::digest(&bytes);
    let hex: String = digest.iter().map(|b| format!("{b:02x}")).collect();
    assert_eq!(compute(&inputs()).to_string(), format!("pk1:{hex}"));
}

#[test]
fn a_digest_of_known_bytes_is_written_in_hex() {
    let digest = sha2::Sha256::digest(b"abc").to_vec();
    assert_eq!(
        PlanKey::from_digest(&digest).to_string(),
        "pk1:ba7816bf8f01cfea414140de5dae2223b00361a396177a9cb410ff61f20015ad"
    );
}

#[test]
fn a_key_reads_back_as_it_was_written() {
    let key = compute(&inputs());
    assert_eq!(PlanKey::parse(&key.to_string()), Ok(key));
}

#[test]
fn a_key_without_the_prefix_is_rejected() {
    assert!(PlanKey::parse("ba7816bf").is_err());
    assert!(PlanKey::parse("pk2:ba7816bf").is_err());
    assert!(PlanKey::parse("").is_err());
}

fn field(out: &mut Vec<u8>, tag: u8, bytes: &[u8]) {
    out.push(tag);
    out.push(1);
    out.extend_from_slice(&(bytes.len() as u64).to_le_bytes());
    out.extend_from_slice(bytes);
}

/// Every field of a component, in the order and with the tags that they are written with.
#[test]
fn a_component_encodes_these_fields() {
    let mut c = component("vm");
    c.artifacts.push(ArtifactInput {
        id: "a".to_string(),
        uri: "https://example.invalid/a.tar.gz".to_string(),
        archive: Some("tar.gz".to_string()),
    });
    c.features = Some(vec!["std".to_string(), "alloc".to_string()]);
    c.destinations.push(("/s/bin/a".to_string(), 0o644));
    let encoded = encode(&KeyInputs { target: "t".to_string(), components: vec![c] });

    let mut expected = vec![];
    field(&mut expected, 1, b"t");
    field(&mut expected, 2, b"vm");
    field(&mut expected, 3, b"registry:0.15.0");
    field(&mut expected, 4, b"executable");
    field(&mut expected, 5, b"prebuilt");
    field(&mut expected, 6, b"a");
    field(&mut expected, 7, b"https://example.invalid/a.tar.gz");
    field(&mut expected, 14, b"tar.gz");
    field(&mut expected, 6, b"miden-vm");
    field(&mut expected, 7, b"https://example.invalid/vm");
    field(&mut expected, 8, b"/s/bin/a");
    field(&mut expected, 9, &0o644u64.to_le_bytes());
    field(&mut expected, 8, b"/s/bin/miden-vm");
    field(&mut expected, 9, &0o755u64.to_le_bytes());
    field(&mut expected, 10, b"miden-vm");
    field(&mut expected, 11, b"");
    field(&mut expected, 11, b"alloc");
    field(&mut expected, 11, b"std");
    expected.extend_from_slice(&[12, 0]);
    field(&mut expected, 13, b"miden vm");
    field(&mut expected, 13, b"miden-vm");
    assert_eq!(encoded, expected);
}

/// Texts are encoded in UTF-8, and their lengths are in bytes.
#[test]
fn lengths_are_in_bytes() {
    let mut expected = vec![];
    field(&mut expected, 1, "ä→𝄞".as_bytes());
    let inputs = KeyInputs { target: "ä→𝄞".to_string(), components: vec![] };
    assert_eq!(encode(&inputs), expected);
}

/// Names are ordered by their bytes.
#[test]
fn components_are_encoded_in_the_order_of_their_names() {
    let of = |names: &[&str]| {
        encode(&KeyInputs {
            target: "t".to_string(),
            components: names.iter().map(|name| component(name)).collect(),
        })
    };
    assert_eq!(of(&["b", "a", "B", "ab"]), of(&["B", "a", "ab", "b"]));
    assert_ne!(of(&["a", "b"]), of(&["a", "a"]));
}

/// Not even components that share a name let the order of the input show.
#[test]
fn components_that_share_a_name_are_ordered_too() {
    let mut other = component("vm");
    other.authority = "registry:0.16.0".to_string();
    let mut rearranged = other.clone();
    rearranged.destinations.insert(0, ("/s/lib/a".to_string(), 0o644));
    let mut arranged = other.clone();
    arranged.destinations.push(("/s/lib/a".to_string(), 0o644));

    let of = |components: Vec<ComponentInputs>| {
        compute(&KeyInputs { target: "t".to_string(), components })
    };
    assert_eq!(
        of(vec![component("vm"), other.clone()]),
        of(vec![other.clone(), component("vm")])
    );
    assert_eq!(of(vec![other.clone(), rearranged]), of(vec![arranged, other.clone()]));
    assert_ne!(of(vec![component("vm"), other]), of(vec![component("vm"), component("vm")]));
}

#[test]
fn a_key_is_the_prefix_and_sixty_four_digits() {
    let key = compute(&inputs()).to_string();
    assert_eq!(key.len(), 68);
    let digits = key.strip_prefix("pk1:").unwrap();
    assert!(digits.chars().all(|c| matches!(c, '0'..='9' | 'a'..='f')), "{key}");
}
