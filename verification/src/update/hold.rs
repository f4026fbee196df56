//! Components that an update leaves in place.
//!
//! What a held-back component installs stays as it is recorded. What decides whether it is selected,
//! and what is looked up when it is run, still follows upstream.

use vstd::prelude::*;

use crate::manifest;
use crate::manifest::{
    Component, ComponentFacts, ComponentKind, ExecutableComponent, ExecutableFacts, KindFacts,
};

verus! {

/// What stays of an executable that upstream declares as `new`, with how it is run. Whether it is
/// hidden follows where its shim does not depend on that.
pub open spec fn spec_following(spec: ExecutableFacts, new: KindFacts) -> ExecutableFacts {
    match new {
        KindFacts::Executable { spec: upstream, .. } | KindFacts::CargoExtension {
            spec: upstream,
            ..
        } => ExecutableFacts {
            call_format: upstream.call_format,
            initialization: upstream.initialization,
            aliases: upstream.aliases,
            hide: if spec.symlink_name is Some {
                upstream.hide
            } else {
                spec.hide
            },
            ..spec
        },
        KindFacts::Command { aliases, .. } => ExecutableFacts { aliases, ..spec },
        _ => spec,
    }
}

/// A kind with what upstream says of how it is run.
pub open spec fn kind_following(kind: KindFacts, new: KindFacts) -> KindFacts {
    match kind {
        KindFacts::Executable { installation_method, spec } => KindFacts::Executable {
            installation_method,
            spec: spec_following(spec, new),
        },
        KindFacts::CargoExtension { installation_method, spec } => KindFacts::CargoExtension {
            installation_method,
            spec: spec_following(spec, new),
        },
        KindFacts::Command { command_name, format, subcommands, aliases } => match new {
            KindFacts::Command { .. } => new,
            KindFacts::Executable { spec, .. } | KindFacts::CargoExtension { spec, .. } =>
                KindFacts::Command { command_name, format, subcommands, aliases: spec.aliases },
            _ => kind,
        },
        _ => kind,
    }
}

/// A held-back component once upstream declares it as `new`: its version, its artifacts and the way it
/// is installed stay; its requirements, its profiles and how it is run follow.
pub open spec fn following(c: ComponentFacts, new: ComponentFacts) -> ComponentFacts {
    ComponentFacts {
        kind: kind_following(c.kind, new.kind),
        profiles: new.profiles,
        requires: new.requires,
        extra: new.extra,
        ..c
    }
}

fn follow_spec(spec: &ExecutableComponent, new: &ComponentKind) -> (r: ExecutableComponent)
    ensures
        r.deep_view() == spec_following(spec.deep_view(), new.deep_view()),
{
    let mut followed = spec.clone();
    match new {
        ComponentKind::Executable { spec: upstream, .. } | ComponentKind::CargoExtension {
            spec: upstream,
            ..
        } => {
            let latest = upstream.clone();
            followed.call_format = latest.call_format;
            followed.initialization = latest.initialization;
            followed.aliases = latest.aliases;
            if followed.symlink_name.is_some() {
                followed.hide = latest.hide;
            }
        },
        ComponentKind::Command { aliases, .. } => {
            followed.aliases = manifest::copy_commands(aliases);
        },
        _ => {},
    }
    followed
}

fn follow_kind(kind: &ComponentKind, new: &ComponentKind) -> (r: ComponentKind)
    ensures
        r.deep_view() == kind_following(kind.deep_view(), new.deep_view()),
{
    match kind {
        ComponentKind::Executable { installation_method, spec } => ComponentKind::Executable {
            installation_method: installation_method.clone(),
            spec: follow_spec(spec, new),
        },
        ComponentKind::CargoExtension { installation_method, spec } =>
            ComponentKind::CargoExtension {
            installation_method: installation_method.clone(),
            spec: follow_spec(spec, new),
        },
        ComponentKind::Command { command_name, format, subcommands, .. } => match new {
            ComponentKind::Command { .. } => new.clone(),
            ComponentKind::Executable { spec, .. } | ComponentKind::CargoExtension { spec, .. } =>
                ComponentKind::Command {
                command_name: command_name.clone(),
                format: format.clone(),
                subcommands: manifest::copy_commands(subcommands),
                aliases: manifest::copy_commands(&spec.aliases),
            },
            _ => kind.clone(),
        },
        _ => kind.clone(),
    }
}

/// Lets a held-back component follow what upstream declares.
pub fn follow(component: &Component, new: &Component) -> (r: Component)
    ensures
        r.deep_view() == following(component.deep_view(), new.deep_view()),
{
    let kept = component.clone();
    let latest = new.clone();
    Component {
        name: kept.name,
        version: kept.version,
        kind: follow_kind(&component.kind, &new.kind),
        profiles: latest.profiles,
        requires: latest.requires,
        artifacts: kept.artifacts,
        extra: latest.extra,
    }
}

} // verus!
