//! Where artifacts are installed, and with which file mode. Destinations are computed, never
//! declared.

use vstd::prelude::*;

use crate::manifest::{Component, ComponentFacts, ComponentKind, KindFacts};
use crate::path;
use crate::text;

verus! {

/// The mode of an installed program.
pub const MODE_EXECUTABLE: u32 = 0o755;

/// The mode of any other installed file.
pub const MODE_DATA: u32 = 0o644;

/// Where a file is installed.
#[derive(Debug)]
pub struct Destination {
    pub path: String,
    pub mode: u32,
}

impl DeepView for Destination {
    type V = (Seq<char>, u32);

    open spec fn deep_view(&self) -> (Seq<char>, u32) {
        (self.path@, self.mode)
    }
}

impl PartialEq for Destination {
    fn eq(&self, other: &Self) -> (r: bool) {
        path::same(self.path.as_str(), other.path.as_str()) && self.mode == other.mode
    }
}

impl vstd::std_specs::cmp::PartialEqSpecImpl for Destination {
    open spec fn obeys_eq_spec() -> bool {
        true
    }

    open spec fn eq_spec(&self, other: &Self) -> bool {
        path::same_place(self.path@, other.path@) && self.mode == other.mode
    }
}

impl Eq for Destination {

}

/// An artifact id that is no safe path segment.
#[derive(Debug, PartialEq, Eq)]
pub struct InvalidArtifactId {
    pub id: String,
}

impl InvalidArtifactId {
    /// What went wrong, in words.
    pub fn to_string(&self) -> (s: String)
        ensures
            s@ == "invalid artifact id '"@ + self.id@
                + "': an artifact id must be a single safe path segment"@,
    {
        let mut s = "invalid artifact id '".to_owned();
        s.append(self.id.as_str());
        s.append("': an artifact id must be a single safe path segment");
        s
    }
}

/// Whether an id can be a filename: a single segment, not special, and not mistaken for an option.
pub open spec fn is_safe_segment(id: Seq<char>) -> bool {
    &&& id.len() > 0
    &&& id[0] != '-'
    &&& id != "."@
    &&& id != ".."@
    &&& !id.contains('/')
    &&& !id.contains('\\')
    &&& !id.contains('\0')
}

/// Checks that an artifact id can be a filename.
pub fn validate_artifact_id(id: &str) -> (r: Result<(), InvalidArtifactId>)
    ensures
        match r {
            Ok(_) => is_safe_segment(id@),
            Err(e) => !is_safe_segment(id@) && e.id@ == id@,
        },
{
    let chars = text::characters(id);
    if chars.len() == 0 || chars[0] == '-' || text::same(id, ".") || text::same(id, "..") {
        return Err(InvalidArtifactId { id: id.to_owned() });
    }
    let mut i: usize = 0;
    while i < chars.len()
        invariant
            chars@ == id@,
            i <= chars@.len(),
            forall|k: int| 0 <= k < i ==> chars@[k] != '/' && chars@[k] != '\\' && chars@[k] != '\0',
        decreases chars.len() - i,
    {
        let c = chars[i];
        if c == '/' || c == '\\' || c == '\0' {
            assert(id@.contains(c)) by {
                assert(id@[i as int] == c);
            }
            return Err(InvalidArtifactId { id: id.to_owned() });
        }
        i += 1;
    }
    Ok(())
}

/// Why a file has no destination.
#[derive(Debug, PartialEq, Eq)]
pub enum DestinationError {
    InvalidId(InvalidArtifactId),
    /// Components of this kind install nothing.
    NotInstallable { component: String, kind: String },
}

/// What a [`DestinationError`] holds.
pub enum DestinationErrorFacts {
    InvalidId(Seq<char>),
    NotInstallable { component: Seq<char>, kind: Seq<char> },
}

impl DeepView for DestinationError {
    type V = DestinationErrorFacts;

    open spec fn deep_view(&self) -> DestinationErrorFacts {
        match self {
            DestinationError::InvalidId(e) => DestinationErrorFacts::InvalidId(e.id@),
            DestinationError::NotInstallable { component, kind } =>
                DestinationErrorFacts::NotInstallable { component: component@, kind: kind@ },
        }
    }
}

/// Why a file has no destination, in words.
pub open spec fn destination_error_text(e: DestinationErrorFacts) -> Seq<char> {
    match e {
        DestinationErrorFacts::InvalidId(id) => "invalid artifact id '"@ + id
            + "': an artifact id must be a single safe path segment"@,
        DestinationErrorFacts::NotInstallable { component, kind } => "component '"@ + component
            + "' is of kind '"@ + kind + "', which installs no files"@,
    }
}

impl DestinationError {
    /// What went wrong, in words.
    pub fn to_string(&self) -> (s: String)
        ensures
            s@ == destination_error_text(self.deep_view()),
    {
        match self {
            DestinationError::InvalidId(e) => e.to_string(),
            DestinationError::NotInstallable { component, kind } => {
                let mut s = "component '".to_owned();
                s.append(component.as_str());
                s.append("' is of kind '");
                s.append(kind.as_str());
                s.append("', which installs no files");
                s
            },
        }
    }
}

/// Where the file `id` of a component goes: one rule per kind.
pub open spec fn placed(c: ComponentFacts, id: Seq<char>, sysroot: Seq<char>) -> Result<
    (Seq<char>, u32),
    DestinationErrorFacts,
> {
    if !is_safe_segment(id) {
        Err(DestinationErrorFacts::InvalidId(id))
    } else {
        match c.kind {
            KindFacts::Executable { .. } | KindFacts::CargoExtension { .. } => Ok(
                (path::below(path::below(sysroot, "bin"@), id), MODE_EXECUTABLE),
            ),
            KindFacts::Package | KindFacts::LegacyPackage { .. } => Ok(
                (path::below(path::below(sysroot, "lib"@), id), MODE_DATA),
            ),
            KindFacts::Asset | KindFacts::Command { .. } => Ok(
                (
                    path::below(path::below(path::below(sysroot, "etc"@), c.name), id),
                    MODE_DATA,
                ),
            ),
            KindFacts::Unsupported { tag, .. } => Err(
                DestinationErrorFacts::NotInstallable { component: c.name, kind: tag },
            ),
        }
    }
}

/// Where the file `id` of `component` goes in the toolchain at `sysroot`.
pub fn destination_for(component: &Component, id: &str, sysroot: &str) -> (r: Result<
    Destination,
    DestinationError,
>)
    ensures
        match r {
            Ok(d) => placed(component.deep_view(), id@, sysroot@) == Ok::<
                (Seq<char>, u32),
                DestinationErrorFacts,
            >(d.deep_view()),
            Err(e) => placed(component.deep_view(), id@, sysroot@) == Err::<
                (Seq<char>, u32),
                DestinationErrorFacts,
            >(e.deep_view()),
        },
{
    if let Err(e) = validate_artifact_id(id) {
        return Err(DestinationError::InvalidId(e));
    }
    match component.kind() {
        ComponentKind::Executable { .. } | ComponentKind::CargoExtension { .. } => {
            let dir = path::join(sysroot, "bin");
            Ok(Destination { path: path::join(dir.as_str(), id), mode: MODE_EXECUTABLE })
        },
        ComponentKind::Package | ComponentKind::LegacyPackage { .. } => {
            let dir = path::join(sysroot, "lib");
            Ok(Destination { path: path::join(dir.as_str(), id), mode: MODE_DATA })
        },
        ComponentKind::Asset | ComponentKind::Command { .. } => {
            let dir = path::join(sysroot, "etc");
            let dir = path::join(dir.as_str(), component.name.as_str());
            Ok(Destination { path: path::join(dir.as_str(), id), mode: MODE_DATA })
        },
        ComponentKind::Unsupported { tag, .. } => Err(
            DestinationError::NotInstallable {
                component: component.name.clone(),
                kind: tag.clone(),
            },
        ),
    }
}

} // verus!
