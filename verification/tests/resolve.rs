//! Selecting the components of an installation.

use midenup::artifact::Artifacts;
use midenup::manifest::{Channel, Component, ComponentKind};
use midenup::profile::Profile;
use midenup::resolve::{positions, resolve, Intent, ResolutionError};
use midenup::value::Extra;
use midenup::version::{Authority, Version};

fn component(name: &str, profiles: &[Profile], requires: &[&str]) -> Component {
    Component {
        name: name.to_string(),
        version: Authority::Registry { version: Version::new(0, 1, 0) },
        kind: ComponentKind::Asset,
        profiles: profiles.to_vec(),
        requires: requires.iter().map(|r| r.to_string()).collect(),
        artifacts: Artifacts::default(),
        extra: Extra::default(),
    }
}

fn unsupported(name: &str) -> Component {
    let mut c = component(name, &[Profile::Minimal], &[]);
    c.kind =
        ComponentKind::Unsupported { tag: "wasm-module".to_string(), body: Extra::default() };
    c
}

fn names(components: Vec<Component>, intent: &Intent) -> Result<Vec<String>, ResolutionError> {
    let channel = Channel::new(Version::new(0, 15, 0), components);
    resolve(&channel, intent).map(|found| found.iter().map(|c| c.name.clone()).collect())
}

#[test]
fn requirements_come_along_and_come_first() {
    let components = vec![
        component("top", &[Profile::Minimal], &["middle"]),
        component("other", &[], &[]),
        component("middle", &[], &["base"]),
        component("base", &[], &[]),
    ];
    let minimal = Intent::new(&[Profile::Minimal], &[]);
    assert_eq!(names(components.clone(), &minimal).unwrap(), ["base", "middle", "top"]);
    assert_eq!(positions(&components, &minimal), Ok(vec![3, 2, 0]));
    let named = Intent::new(&[], &["other"]);
    assert_eq!(names(components.clone(), &named).unwrap(), ["other"]);
    let complete = Intent::new(&[Profile::Complete], &[]);
    assert_eq!(
        names(components.clone(), &complete).unwrap(),
        ["other", "base", "middle", "top"]
    );
    assert!(names(components, &Intent::new(&[Profile::Empty], &[])).unwrap().is_empty());
}

#[test]
fn a_profile_never_selects_what_is_unsupported() {
    let components = vec![unsupported("future"), component("vm", &[Profile::Minimal], &[])];
    let complete = Intent::new(&[Profile::Complete, Profile::Minimal], &[]);
    assert_eq!(names(components, &complete).unwrap(), ["vm"]);
}

#[test]
fn each_resolution_failure_has_its_input() {
    let components = vec![
        unsupported("future"),
        component("dangling", &[], &["nowhere"]),
        component("modern", &[], &["future"]),
        component("a", &[], &["b"]),
        component("b", &[], &["a"]),
    ];
    let of = |roots: &[&str]| names(components.clone(), &Intent::new(&[], roots)).unwrap_err();
    assert_eq!(of(&["none"]), ResolutionError::UnknownRoot { name: "none".to_string() });
    assert_eq!(of(&["future"]), ResolutionError::UnsupportedRoot { name: "future".to_string() });
    assert_eq!(
        of(&["dangling"]),
        ResolutionError::UnknownRequirement {
            component: "dangling".to_string(),
            requirement: "nowhere".to_string()
        }
    );
    assert_eq!(
        of(&["modern"]),
        ResolutionError::UnsupportedRequirement { name: "future".to_string() }
    );
    assert_eq!(
        of(&["a"]),
        ResolutionError::Cycle { components: vec!["a".to_string(), "b".to_string()] }
    );
    assert_eq!(
        of(&["dangling"]).to_string(),
        "component 'dangling' requires unknown component 'nowhere'"
    );
    assert_eq!(of(&["a"]).to_string(), "components require each other in a cycle: a, b");
}

/// A wider intent never selects less.
#[test]
fn selection_grows_with_what_is_asked_for() {
    let components = vec![
        component("vm", &[Profile::Minimal], &["core"]),
        component("core", &[], &[]),
        component("debug", &[], &[]),
    ];
    let few = names(components.clone(), &Intent::new(&[Profile::Minimal], &[])).unwrap();
    let more = names(components, &Intent::new(&[Profile::Minimal], &["debug"])).unwrap();
    assert!(few.iter().all(|name| more.contains(name)));
    assert_eq!(more.len(), 3);
}

/// What is asked for is a set of profiles and a set of components.
#[test]
fn intents_are_sets() {
    let profiles = [Profile::Minimal, Profile::Complete];
    let reversed = [Profile::Complete, Profile::Minimal];
    assert_eq!(Intent::new(&profiles, &["a", "b"]), Intent::new(&reversed, &["b", "a", "b"]));
    assert_ne!(Intent::new(&[], &["a"]), Intent::new(&[], &["a", "b"]));
    assert_ne!(Intent::new(&profiles, &[]), Intent::new(&[Profile::Minimal], &[]));
}
