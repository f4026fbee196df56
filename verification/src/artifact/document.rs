//! Artifacts as a manifest writes them.
//!
//! An artifact keeps the fields that this build does not recognize. The presence of `targets` is what
//! tells the two shapes apart.

use vstd::prelude::*;

use crate::artifact;
use crate::artifact::{
    Archive, ArchiveFacts, ArchiveFormat, Artifact, ArtifactFacts, Digest, DigestFacts,
    Substitutions, SubstitutionsFacts,
};
use crate::sorted;
use crate::sorted::SortedMap;
use crate::text;
use crate::value;
use crate::value::{Extra, Json, Value};

verus! {

/// Why a document is no artifact: it is no object, or one of its fields cannot be read.
#[derive(Debug, Clone, Copy, PartialEq, Eq, Structural)]
pub enum ArtifactFormError {
    NotAnObject,
    /// `targets` is there, but is no map of targets to substitutions.
    Targets,
    /// `uri` is not there, or is no text.
    Uri,
    /// `digest` is there, but is no digest.
    Digest,
    /// `archive` is there, but names no format.
    Archive,
}

/// Why a document is no artifact, in words. Every unreadable field is named.
pub open spec fn form_error_text(e: ArtifactFormError) -> Seq<char> {
    match e {
        ArtifactFormError::NotAnObject => "an artifact must be an object"@,
        ArtifactFormError::Targets =>
            "an artifact's `targets` must be a map of target triple to substitutions"@,
        ArtifactFormError::Uri => "an artifact's `uri` must be a text"@,
        ArtifactFormError::Digest =>
            "an artifact's `digest` must be of the form '<algorithm>:<hex>'"@,
        ArtifactFormError::Archive => "an artifact's `archive` must name a format"@,
    }
}

impl ArtifactFormError {
    /// What went wrong, in words.
    pub fn to_string(&self) -> (s: String)
        ensures
            s@ == form_error_text(*self),
    {
        match self {
            ArtifactFormError::NotAnObject => "an artifact must be an object".to_owned(),
            ArtifactFormError::Targets =>
                "an artifact's `targets` must be a map of target triple to substitutions".to_owned(),
            ArtifactFormError::Uri => "an artifact's `uri` must be a text".to_owned(),
            ArtifactFormError::Digest =>
                "an artifact's `digest` must be of the form '<algorithm>:<hex>'".to_owned(),
            ArtifactFormError::Archive => "an artifact's `archive` must name a format".to_owned(),
        }
    }
}

// ---------------------------------------------------------------------------------------------
// Reading

/// The optional text under `name`: `None` where something else than a text or null is there.
pub open spec fn optional_text(m: Map<Seq<char>, Json>, name: Seq<char>) -> Option<
    Option<Seq<char>>,
> {
    if !m.contains_key(name) {
        Some(None)
    } else {
        match m[name] {
            Json::Null => Some(None),
            Json::Text(s) => Some(Some(s)),
            _ => None,
        }
    }
}

/// The digest under `digest`: `None` where something unreadable is there.
pub open spec fn digest_field(m: Map<Seq<char>, Json>) -> Option<Option<DigestFacts>> {
    match optional_text(m, "digest"@) {
        None => None,
        Some(None) => Some(None),
        Some(Some(s)) => match artifact::digest_of(s) {
            Ok(d) => Some(Some(d)),
            Err(_) => None,
        },
    }
}

/// The archive that a node declares: a bare format, or an object with one.
pub open spec fn archive_of(j: Json) -> Option<ArchiveFacts> {
    match j {
        Json::Text(s) => Some(
            ArchiveFacts { format: artifact::format_of(s), extra: Map::empty() },
        ),
        Json::Object(m) => if m.contains_key("format"@) && m["format"@] is Text {
            Some(
                ArchiveFacts {
                    format: artifact::format_of(m["format"@]->Text_0),
                    extra: m.remove("format"@),
                },
            )
        } else {
            None
        },
        _ => None,
    }
}

/// The archive under `archive`: `None` where something unreadable is there.
pub open spec fn archive_field(m: Map<Seq<char>, Json>) -> Option<Option<ArchiveFacts>> {
    if !m.contains_key("archive"@) || m["archive"@] is Null {
        Some(None)
    } else {
        match archive_of(m["archive"@]) {
            Some(a) => Some(Some(a)),
            None => None,
        }
    }
}

/// The substitutions that an object declares, with everything else in it.
pub open spec fn substitutions_of(m: Map<Seq<char>, Json>) -> Option<SubstitutionsFacts> {
    match (optional_text(m, "basename"@), optional_text(m, "extension"@)) {
        (Some(basename), Some(extension)) => Some(
            SubstitutionsFacts {
                basename,
                extension,
                extra: m.remove("basename"@).remove("extension"@),
            },
        ),
        _ => None,
    }
}

/// Whether every target in a `targets` map declares substitutions.
pub open spec fn targets_readable(m: Map<Seq<char>, Json>) -> bool {
    forall|k: Seq<char>| #[trigger]
        m.contains_key(k) ==> m[k] is Object && substitutions_of(m[k]->Object_0) is Some
}

/// Whether `targets` is what a `targets` map declares, in the order of the targets.
pub open spec fn targets_read(
    m: Map<Seq<char>, Json>,
    targets: Seq<(Seq<char>, SubstitutionsFacts)>,
) -> bool {
    &&& sorted::keys_increase(targets)
    &&& forall|k: Seq<char>| sorted::has_key(targets, k) <==> #[trigger] m.contains_key(k)
    &&& forall|i: int|
        0 <= i < targets.len() ==> m.contains_key((#[trigger] targets[i]).0)
            && m[targets[i].0] is Object && substitutions_of(m[targets[i].0]->Object_0) == Some(
            targets[i].1,
        )
}

/// Whether both shapes' common fields can be read.
pub open spec fn common_readable(m: Map<Seq<char>, Json>) -> bool {
    &&& m.contains_key("uri"@)
    &&& m["uri"@] is Text
    &&& digest_field(m) is Some
    &&& archive_field(m) is Some
}

/// What is left of an artifact's members for its substitutions.
pub open spec fn flattened(m: Map<Seq<char>, Json>) -> Map<Seq<char>, Json> {
    m.remove("targets"@).remove("uri"@).remove("digest"@).remove("archive"@)
}

/// The names that a given artifact writes its known fields under.
pub open spec fn known_names(a: ArtifactFacts) -> Set<Seq<char>> {
    Set::new(
        |k: Seq<char>|
            {
                ||| k == "uri"@
                ||| k == "digest"@ && a.digest() is Some
                ||| k == "archive"@ && a.archive() is Some
                ||| a matches ArtifactFacts::TargetSpecific { substitutions, .. } && {
                    ||| k == "targets"@
                    ||| substitutions matches Some(s) && {
                        ||| k == "basename"@ && s.basename is Some
                        ||| k == "extension"@ && s.extension is Some
                        ||| s.extra.contains_key(k)
                    }
                }
            },
    )
}

/// The unrecognized fields of an artifact.
pub open spec fn extra_of(a: ArtifactFacts) -> Map<Seq<char>, Json> {
    match a {
        ArtifactFacts::TargetSpecific { extra, .. } => extra,
        ArtifactFacts::TargetAgnostic { extra, .. } => extra,
    }
}

/// Whether `a` is the artifact that the members `m` declare. Every member that `a` does not write
/// itself is kept beside it.
pub open spec fn members_read(m: Map<Seq<char>, Json>, a: ArtifactFacts) -> bool {
    &&& common_readable(m)
    &&& a.digest() == digest_field(m)->0
    &&& a.archive() == archive_field(m)->0
    &&& extra_of(a) == m.remove_keys(known_names(a))
    &&& match a {
        ArtifactFacts::TargetSpecific { uri, substitutions, targets, .. } => {
            &&& m.contains_key("targets"@)
            &&& m["targets"@] is Object
            &&& targets_readable(m["targets"@]->Object_0)
            &&& uri == m["uri"@]->Text_0
            &&& targets_read(m["targets"@]->Object_0, targets)
            &&& substitutions == substitutions_of(flattened(m))
        },
        ArtifactFacts::TargetAgnostic { uri, .. } => {
            &&& !m.contains_key("targets"@)
            &&& uri == m["uri"@]->Text_0
        },
    }
}

/// Why a document is no artifact, if it is none. The presence of `targets` alone decides which of the
/// two shapes it has to have.
pub open spec fn form_error(j: Json) -> Option<ArtifactFormError> {
    match j {
        Json::Object(m) => if m.contains_key("targets"@) && !(m["targets"@] is Object
            && targets_readable(m["targets"@]->Object_0)) {
            Some(ArtifactFormError::Targets)
        } else if !(m.contains_key("uri"@) && m["uri"@] is Text) {
            Some(ArtifactFormError::Uri)
        } else if digest_field(m) is None {
            Some(ArtifactFormError::Digest)
        } else if archive_field(m) is None {
            Some(ArtifactFormError::Archive)
        } else {
            None
        },
        _ => Some(ArtifactFormError::NotAnObject),
    }
}

// ---------------------------------------------------------------------------------------------
// Writing

/// An archive as it is written: a bare format when that is all it is.
pub open spec fn archive_json(a: ArchiveFacts) -> Json {
    let format = Json::Text(artifact::spelling_of(a.format));
    if a.extra.dom().is_empty() {
        format
    } else {
        Json::Object(a.extra.insert("format"@, format))
    }
}

/// `m` with a text under `name`, where there is one.
pub open spec fn with_text(
    m: Map<Seq<char>, Json>,
    name: Seq<char>,
    value: Option<Seq<char>>,
) -> Map<Seq<char>, Json> {
    match value {
        Some(s) => m.insert(name, Json::Text(s)),
        None => m,
    }
}

/// Substitutions as they are written.
pub open spec fn substitutions_members(s: SubstitutionsFacts) -> Map<Seq<char>, Json> {
    with_text(with_text(s.extra, "basename"@, s.basename), "extension"@, s.extension)
}

/// Targets as they are written.
pub open spec fn targets_members(targets: Seq<(Seq<char>, SubstitutionsFacts)>) -> Map<
    Seq<char>,
    Json,
>
    decreases targets.len(),
{
    if targets.len() == 0 {
        Map::empty()
    } else {
        targets_members(targets.drop_last()).insert(
            targets.last().0,
            Json::Object(substitutions_members(targets.last().1)),
        )
    }
}

/// `m` with the fields that both shapes write.
pub open spec fn with_common(
    m: Map<Seq<char>, Json>,
    uri: Seq<char>,
    digest: Option<DigestFacts>,
    archive: Option<ArchiveFacts>,
) -> Map<Seq<char>, Json> {
    let named = m.insert("uri"@, Json::Text(uri));
    let digested = match digest {
        Some(d) => named.insert("digest"@, Json::Text(artifact::digest_text(d))),
        None => named,
    };
    match archive {
        Some(a) => digested.insert("archive"@, archive_json(a)),
        None => digested,
    }
}

/// The members of an artifact as it is written: what it does not recognize, and its known fields.
pub open spec fn artifact_members(a: ArtifactFacts) -> Map<Seq<char>, Json> {
    match a {
        ArtifactFacts::TargetSpecific { uri, substitutions, targets, digest, archive, extra } => {
            let substituted = match substitutions {
                Some(s) => extra.union_prefer_right(substitutions_members(s)),
                None => extra,
            };
            with_common(
                substituted.insert("targets"@, Json::Object(targets_members(targets))),
                uri,
                digest,
                archive,
            )
        },
        ArtifactFacts::TargetAgnostic { uri, digest, archive, extra } => with_common(
            extra,
            uri,
            digest,
            archive,
        ),
    }
}

// ---------------------------------------------------------------------------------------------
// Names

/// The names of the known fields are different from each other.
pub proof fn names_differ()
    ensures
        "uri"@ != "targets"@,
        "uri"@ != "digest"@,
        "uri"@ != "archive"@,
        "uri"@ != "basename"@,
        "uri"@ != "extension"@,
        "targets"@ != "digest"@,
        "targets"@ != "archive"@,
        "targets"@ != "basename"@,
        "targets"@ != "extension"@,
        "digest"@ != "archive"@,
        "digest"@ != "basename"@,
        "digest"@ != "extension"@,
        "archive"@ != "basename"@,
        "archive"@ != "extension"@,
        "basename"@ != "extension"@,
{
    reveal_strlit("uri");
    reveal_strlit("targets");
    reveal_strlit("digest");
    reveal_strlit("archive");
    reveal_strlit("basename");
    reveal_strlit("extension");
    assert("uri"@[0] == 'u');
    assert("targets"@[0] == 't');
    assert("digest"@[0] == 'd');
    assert("archive"@[0] == 'a');
    assert("basename"@[0] == 'b');
    assert("extension"@[0] == 'e');
}

// ---------------------------------------------------------------------------------------------
// Executable reading and writing

fn read_text(taken: Option<Value>) -> (r: Option<Option<String>>)
    ensures
        match taken {
            None => r == Some(None::<String>),
            Some(v) => match v.json() {
                Json::Null => r == Some(None::<String>),
                Json::Text(s) => r matches Some(Some(t)) && t@ == s,
                _ => r is None,
            },
        },
{
    match taken {
        None => Some(None),
        Some(Value::Null) => Some(None),
        Some(Value::Text(s)) => Some(Some(s)),
        Some(_) => None,
    }
}

impl Archive {
    /// Reads an archive.
    pub fn from_value(v: Value) -> (r: Option<Self>)
        ensures
            r.deep_view() == archive_of(v.json()),
    {
        match v {
            Value::Text(s) => {
                Some(
                    Archive { format: ArchiveFormat::parse(s.as_str()), extra: Extra::default() },
                )
            },
            Value::Object(members) => {
                let (rest, format) = value::take(members, "format");
                match format {
                    Some(Value::Text(s)) => Some(
                        Archive {
                            format: ArchiveFormat::parse(s.as_str()),
                            extra: Extra { members: rest },
                        },
                    ),
                    _ => None,
                }
            },
            _ => None,
        }
    }

    /// Writes the archive: as a bare format when that is all it is.
    pub fn to_value(self) -> (r: Value)
        ensures
            r.json() == archive_json(self.deep_view()),
    {
        let format = self.format.to_string();
        let ghost before = self.extra.members@;
        if self.extra.members.len() == 0 {
            return Value::Text(format);
        }
        let mut members = self.extra.members;
        value::push_text(&mut members, "format", format);
        proof {
            let all = value::members_json(before);
            assert(all.contains_key(before.last().0@));
            assert(!all.dom().is_empty());
        }
        Value::Object(members)
    }
}

impl Substitutions {
    /// Reads substitutions.
    pub fn from_members(members: Vec<(String, Value)>) -> (r: Option<Self>)
        ensures
            r.deep_view() == substitutions_of(value::members_json(members@)),
    {
        proof {
            names_differ();
        }
        let (rest, basename) = value::take(members, "basename");
        let (rest, extension) = value::take(rest, "extension");
        match (read_text(basename), read_text(extension)) {
            (Some(basename), Some(extension)) => Some(
                Substitutions { basename, extension, extra: Extra { members: rest } },
            ),
            _ => None,
        }
    }

    /// Writes the substitutions.
    pub fn to_members(self) -> (r: Vec<(String, Value)>)
        ensures
            value::members_json(r@) == substitutions_members(self.deep_view()),
    {
        let mut members = self.extra.members;
        if let Some(basename) = self.basename {
            value::push_text(&mut members, "basename", basename);
        }
        if let Some(extension) = self.extension {
            value::push_text(&mut members, "extension", extension);
        }
        members
    }
}

/// Reads the targets of an artifact.
fn read_targets(members: Vec<(String, Value)>) -> (r: Option<SortedMap<Substitutions>>)
    ensures
        match r {
            Some(targets) => targets_readable(value::members_json(members@)) && targets_read(
                value::members_json(members@),
                targets.deep_view(),
            ),
            None => !targets_readable(value::members_json(members@)),
        },
{
    let ghost m = value::members_json(members@);
    let declared = value::by_name(members);
    let mut targets: SortedMap<Substitutions> = SortedMap::new();
    let n = declared.len();
    let mut i: usize = 0;
    assert(targets.deep_view() =~= Seq::empty());
    while i < n
        invariant
            i <= n == declared@.len(),
            m == value::members_json(members@),
            sorted::keys_increase(declared@),
            forall|k: Seq<char>| sorted::has_key(declared@, k) <==> #[trigger] m.contains_key(k),
            forall|j: int|
                0 <= j < declared@.len() ==> m.contains_key((#[trigger] declared@[j]).0)
                    && m[declared@[j].0] == declared@[j].1.json(),
            sorted::keys_increase(targets@),
            targets@.len() == i,
            forall|j: int|
                0 <= j < i ==> (#[trigger] targets@[j]).0 == declared@[j].0
                    && declared@[j].1.json() is Object && substitutions_of(
                    declared@[j].1.json()->Object_0,
                ) == Some(targets@[j].1.deep_view()),
        decreases n - i,
    {
        let ghost before = targets@;
        let name = declared.key(i).clone();
        match declared.value(i).copy() {
            Value::Object(inner) => match Substitutions::from_members(inner) {
                Some(substitutions) => {
                    let ghost given = substitutions;
                    let _ = targets.insert(name, substitutions);
                    proof {
                        assert forall|j: int| 0 <= j < before.len() implies text::precedes(
                            (#[trigger] before[j]).0,
                            name@,
                        ) by {
                            assert(text::precedes(declared@[j].0, declared@[i as int].0));
                        }
                        sorted::put_at_end(before, name@, given);
                        assert(declared@[i as int].1.json() is Object);
                        assert(substitutions_of(declared@[i as int].1.json()->Object_0) == Some(
                            given.deep_view(),
                        ));
                        assert(targets@ == before.push((name@, given)));
                        assert forall|j: int| 0 <= j < i + 1 implies (#[trigger] targets@[j]).0
                            == declared@[j].0 && declared@[j].1.json() is Object
                            && substitutions_of(declared@[j].1.json()->Object_0) == Some(
                            targets@[j].1.deep_view(),
                        ) by {
                            if j < i {
                                assert(targets@[j] == before[j]);
                            }
                        }
                    }
                },
                None => {
                    assert(m.contains_key(declared@[i as int].0));
                    return None;
                },
            },
            _ => {
                assert(m.contains_key(declared@[i as int].0));
                return None;
            },
        }
        i += 1;
    }
    proof {
        let t = targets.deep_view();
        sorted::lookup_with_values(targets@, Seq::empty(), |v: Substitutions| v.deep_view());
        assert forall|k: Seq<char>| #[trigger] m.contains_key(k) implies m[k] is Object
            && substitutions_of(m[k]->Object_0) is Some by {
            let j = choose|j: int| sorted::holds(declared@, k, j);
            assert(declared@[j].0 == k);
            assert(targets@[j].0 == k);
        }
        assert forall|k: Seq<char>| sorted::has_key(t, k) <==> #[trigger] m.contains_key(k) by {
            if sorted::has_key(t, k) {
                let j = choose|j: int| sorted::holds(t, k, j);
                assert(targets@[j].0 == declared@[j].0);
            }
            if m.contains_key(k) {
                let j = choose|j: int| sorted::holds(declared@, k, j);
                assert(targets@[j].0 == declared@[j].0);
                assert(sorted::holds(t, k, j));
            }
        }
        assert forall|j: int| 0 <= j < t.len() implies m.contains_key((#[trigger] t[j]).0)
            && m[t[j].0] is Object && substitutions_of(m[t[j].0]->Object_0) == Some(t[j].1) by {
            assert(targets@[j].0 == declared@[j].0);
        }
    }
    Some(targets)
}

/// Writes the targets of an artifact.
fn write_targets(targets: &SortedMap<Substitutions>) -> (r: Vec<(String, Value)>)
    ensures
        value::members_json(r@) == targets_members(targets.deep_view()),
{
    let mut members: Vec<(String, Value)> = Vec::new();
    let ghost all = targets.deep_view();
    let n = targets.len();
    let mut i: usize = 0;
    assert(all.take(0) =~= Seq::empty());
    while i < n
        invariant
            i <= n == targets@.len(),
            all == targets.deep_view(),
            value::members_json(members@) == targets_members(all.take(i as int)),
        decreases n - i,
    {
        let inner = targets.value(i).clone().to_members();
        value::push_value(&mut members, targets.key(i).as_str(), Value::Object(inner));
        proof {
            assert(all.take(i + 1).drop_last() =~= all.take(i as int));
            assert(all.take(i + 1).last() == all[i as int]);
        }
        i += 1;
    }
    assert(all.take(i as int) =~= all);
    members
}

/// A null under `name`, where one was read.
fn restore_null(members: &mut Vec<(String, Value)>, name: &str, was_null: bool)
    ensures
        value::members_json(final(members)@) == if was_null {
            value::members_json(old(members)@).insert(name@, Json::Null)
        } else {
            value::members_json(old(members)@)
        },
{
    if was_null {
        value::push_value(members, name, Value::Null);
    }
}

fn is_null(taken: &Option<Value>) -> (r: bool)
    ensures
        r == (taken matches Some(v) && v.json() is Null),
{
    match taken {
        Some(Value::Null) => true,
        _ => false,
    }
}

impl Artifact {
    /// Reads an artifact.
    pub fn from_value(v: Value) -> (r: Result<Self, ArtifactFormError>)
        ensures
            match r {
                Ok(a) => form_error(v.json()) is None && v.json() is Object && members_read(
                    v.json()->Object_0,
                    a.deep_view(),
                ),
                Err(e) => form_error(v.json()) == Some(e),
            },
    {
        proof {
            names_differ();
        }
        let members = match v {
            Value::Object(members) => members,
            _ => return Err(ArtifactFormError::NotAnObject),
        };
        let ghost m = value::members_json(members@);
        let (rest, targets) = value::take(members, "targets");
        let targets = match targets {
            None => None,
            Some(Value::Object(declared)) => match read_targets(declared) {
                Some(targets) => Some(targets),
                None => return Err(ArtifactFormError::Targets),
            },
            Some(_) => return Err(ArtifactFormError::Targets),
        };
        let (rest, uri) = value::take(rest, "uri");
        let uri = match uri {
            Some(Value::Text(uri)) => uri,
            _ => return Err(ArtifactFormError::Uri),
        };
        let (rest, digest) = value::take(rest, "digest");
        let null_digest = is_null(&digest);
        let digest = match read_text(digest) {
            None => return Err(ArtifactFormError::Digest),
            Some(None) => None,
            Some(Some(s)) => match Digest::from_str(s.as_str()) {
                Ok(d) => Some(d),
                Err(_) => return Err(ArtifactFormError::Digest),
            },
        };
        let (rest, archive) = value::take(rest, "archive");
        let null_archive = is_null(&archive);
        let archive = match archive {
            None => None,
            Some(Value::Null) => None,
            Some(node) => match Archive::from_value(node) {
                Some(a) => Some(a),
                None => return Err(ArtifactFormError::Archive),
            },
        };
        assert(value::members_json(rest@) =~= flattened(m));
        assert(common_readable(m));
        if let Some(targets) = targets {
            let flat = value::copy_members(&rest);
            let (left, basename) = value::take(flat, "basename");
            let (left, extension) = value::take(left, "extension");
            let null_basename = is_null(&basename);
            let null_extension = is_null(&extension);
            let substitutions = match (read_text(basename), read_text(extension)) {
                (Some(basename), Some(extension)) => Some(
                    Substitutions { basename, extension, extra: Extra { members: left } },
                ),
                _ => None,
            };
            let mut extra: Vec<(String, Value)> = match &substitutions {
                Some(_) => Vec::new(),
                None => rest,
            };
            restore_null(&mut extra, "basename", null_basename && substitutions.is_some());
            restore_null(&mut extra, "extension", null_extension && substitutions.is_some());
            restore_null(&mut extra, "digest", null_digest);
            restore_null(&mut extra, "archive", null_archive);
            let r = Artifact::TargetSpecific {
                uri,
                substitutions,
                targets,
                digest,
                archive,
                extra: Extra { members: extra },
            };
            proof {
                let a = r.deep_view();
                assert(substitutions.deep_view() == substitutions_of(flattened(m)));
                assert(extra_of(a) =~= m.remove_keys(known_names(a)));
            }
            return Ok(r);
        }
        let mut extra = rest;
        restore_null(&mut extra, "digest", null_digest);
        restore_null(&mut extra, "archive", null_archive);
        let r = Artifact::TargetAgnostic { uri, digest, archive, extra: Extra { members: extra } };
        proof {
            let a = r.deep_view();
            assert(extra_of(a) =~= m.remove_keys(known_names(a)));
        }
        Ok(r)
    }

    /// Writes the artifact.
    pub fn to_value(self) -> (r: Value)
        ensures
            r.json() == Json::Object(artifact_members(self.deep_view())),
    {
        let (mut members, uri, digest, archive) = match self {
            Artifact::TargetSpecific { uri, substitutions, targets, digest, archive, extra } => {
                let mut members = extra.members;
                if let Some(substitutions) = substitutions {
                    let ghost before = members@;
                    let mut more = substitutions.to_members();
                    let ghost added = more@;
                    members.append(&mut more);
                    proof {
                        value::members_concat(before, added);
                    }
                }
                let declared = write_targets(&targets);
                value::push_value(&mut members, "targets", Value::Object(declared));
                (members, uri, digest, archive)
            },
            Artifact::TargetAgnostic { uri, digest, archive, extra } => {
                (extra.members, uri, digest, archive)
            },
        };
        value::push_text(&mut members, "uri", uri);
        if let Some(digest) = digest {
            value::push_text(&mut members, "digest", digest.to_string());
        }
        if let Some(archive) = archive {
            value::push_value(&mut members, "archive", archive.to_value());
        }
        Value::Object(members)
    }
}

// ---------------------------------------------------------------------------------------------
// Laws

/// Whether an archive node is written the way this build writes it: an object only where it holds
/// more than the format.
pub open spec fn archive_plain(j: Json) -> bool {
    j matches Json::Object(m) ==> !m.remove("format"@).dom().is_empty()
}

/// An archive that was read is written as it was read, unless it was an object with nothing but a
/// format, which becomes the bare format.
pub proof fn archives_round_trip(j: Json)
    requires
        archive_of(j) is Some,
        archive_plain(j),
    ensures
        archive_json(archive_of(j)->0) == j,
{
    let a = archive_of(j)->0;
    match j {
        Json::Text(s) => {
            artifact::formats_round_trip(s);
            assert(a.extra.dom() =~= Set::empty());
        },
        Json::Object(m) => {
            artifact::formats_round_trip(m["format"@]->Text_0);
            assert(m["format"@] == Json::Text(m["format"@]->Text_0));
            assert(m.remove("format"@).insert("format"@, m["format"@]) =~= m);
        },
        _ => {},
    }
}

/// Whether an object of substitutions holds no null where a text is expected.
pub open spec fn substitutions_plain(m: Map<Seq<char>, Json>) -> bool {
    &&& !(m.contains_key("basename"@) && m["basename"@] is Null)
    &&& !(m.contains_key("extension"@) && m["extension"@] is Null)
}

proof fn substitutions_round_trip(m: Map<Seq<char>, Json>)
    requires
        substitutions_of(m) is Some,
        substitutions_plain(m),
    ensures
        substitutions_members(substitutions_of(m)->0) == m,
{
    names_differ();
    let s = substitutions_of(m)->0;
    if m.contains_key("basename"@) {
        assert(m["basename"@] == Json::Text(s.basename->0));
    }
    if m.contains_key("extension"@) {
        assert(m["extension"@] == Json::Text(s.extension->0));
    }
    assert(substitutions_members(s) =~= m);
}

proof fn targets_members_hold(targets: Seq<(Seq<char>, SubstitutionsFacts)>, k: Seq<char>)
    requires
        sorted::keys_increase(targets),
    ensures
        targets_members(targets).contains_key(k) <==> sorted::has_key(targets, k),
        sorted::lookup(targets, k) matches Some(s) ==> targets_members(targets)[k]
            == Json::Object(substitutions_members(s)),
    decreases targets.len(),
{
    if targets.len() == 0 {
        assert forall|i: int| !sorted::holds(targets, k, i) by {}
    } else {
        let d = targets.drop_last();
        assert forall|i: int, j: int| 0 <= i < j < d.len() implies text::precedes(
            (#[trigger] d[i]).0,
            (#[trigger] d[j]).0,
        ) by {
            assert(d[i] == targets[i] && d[j] == targets[j]);
        }
        targets_members_hold(d, k);
        let last = targets.len() - 1;
        if targets[last].0 == k {
            assert(sorted::holds(targets, k, last));
            sorted::keys_are_unique(targets, last);
        } else {
            if sorted::has_key(targets, k) {
                let i = choose|i: int| sorted::holds(targets, k, i);
                assert(sorted::holds(d, k, i));
                sorted::keys_are_unique(targets, i);
                sorted::keys_are_unique(d, i);
            }
            if sorted::has_key(d, k) {
                let i = choose|i: int| sorted::holds(d, k, i);
                assert(sorted::holds(targets, k, i));
            }
        }
    }
}

proof fn targets_round_trip(
    m: Map<Seq<char>, Json>,
    targets: Seq<(Seq<char>, SubstitutionsFacts)>,
)
    requires
        targets_read(m, targets),
        forall|k: Seq<char>| #[trigger]
            m.contains_key(k) ==> substitutions_plain(m[k]->Object_0),
    ensures
        targets_members(targets) == m,
{
    let w = targets_members(targets);
    assert forall|k: Seq<char>| w.contains_key(k) == m.contains_key(k) by {
        targets_members_hold(targets, k);
        assert(m.contains_key(k) <==> sorted::has_key(targets, k));
    }
    assert forall|k: Seq<char>| #[trigger] m.contains_key(k) implies w[k] == m[k] by {
        targets_members_hold(targets, k);
        let i = choose|i: int| sorted::holds(targets, k, i);
        assert(targets[i].0 == k);
        sorted::keys_are_unique(targets, i);
        substitutions_round_trip(m[k]->Object_0);
    }
    assert(w =~= m);
}

/// Whether the members of an artifact are written the way this build writes them: no archive that
/// is an object without need, and no null among the substitutions of a target.
pub open spec fn written_plainly(m: Map<Seq<char>, Json>) -> bool {
    &&& m.contains_key("archive"@) ==> archive_plain(m["archive"@])
    &&& m.contains_key("targets"@) ==> forall|k: Seq<char>| #[trigger]
        (m["targets"@]->Object_0).contains_key(k) ==> substitutions_plain(
            (m["targets"@]->Object_0)[k]->Object_0,
        )
}

/// An artifact that was read is written as it was read: nothing is lost, nothing is added and
/// nothing appears twice.
pub proof fn artifacts_round_trip(m: Map<Seq<char>, Json>, a: ArtifactFacts)
    requires
        members_read(m, a),
        written_plainly(m),
    ensures
        artifact_members(a) == m,
{
    names_differ();
    assert(m["uri"@] == Json::Text(m["uri"@]->Text_0));
    if a.digest() is Some {
        artifact::digests_round_trip(m["digest"@]->Text_0);
        assert(m["digest"@] == Json::Text(artifact::digest_text(a.digest()->0)));
    }
    if a.archive() is Some {
        archives_round_trip(m["archive"@]);
    }
    if let ArtifactFacts::TargetSpecific { substitutions, targets, .. } = a {
        targets_round_trip(m["targets"@]->Object_0, targets);
        assert(m["targets"@] == Json::Object(targets_members(targets)));
        if substitutions is Some {
            let s = substitutions->0;
            if s.basename is Some {
                assert(m["basename"@] == Json::Text(s.basename->0));
            }
            if s.extension is Some {
                assert(m["extension"@] == Json::Text(s.extension->0));
            }
        }
    }
    assert(artifact_members(a) =~= m);
}

/// Whether a name is that of a field this build knows.
pub open spec fn is_known(name: Seq<char>) -> bool {
    ||| name == "uri"@
    ||| name == "targets"@
    ||| name == "digest"@
    ||| name == "archive"@
    ||| name == "basename"@
    ||| name == "extension"@
}

/// A field that this build does not know survives being read and written, in every artifact.
pub proof fn unknown_fields_survive(m: Map<Seq<char>, Json>, a: ArtifactFacts, name: Seq<char>)
    requires
        members_read(m, a),
        !is_known(name),
    ensures
        artifact_members(a).contains_key(name) <==> m.contains_key(name),
        m.contains_key(name) ==> artifact_members(a)[name] == m[name],
{
}

/// An archive that was read, written and read again is the same archive.
pub proof fn archives_read_back(j: Json)
    requires
        archive_of(j) is Some,
    ensures
        archive_of(archive_json(archive_of(j)->0)) == archive_of(j),
{
    let a = archive_of(j)->0;
    match j {
        Json::Text(s) => {
            artifact::formats_round_trip(s);
            assert(a.extra.dom() =~= Set::empty());
        },
        Json::Object(m) => {
            artifact::formats_round_trip(m["format"@]->Text_0);
            if a.extra.dom().is_empty() {
                assert(a.extra =~= Map::empty());
            } else {
                assert(a.extra.insert("format"@, m["format"@]).remove("format"@) =~= a.extra);
            }
        },
        _ => {},
    }
}

proof fn substitutions_read_back(m: Map<Seq<char>, Json>)
    requires
        substitutions_of(m) is Some,
    ensures
        substitutions_of(substitutions_members(substitutions_of(m)->0)) == substitutions_of(m),
{
    names_differ();
    let s = substitutions_of(m)->0;
    let w = substitutions_members(s);
    assert(w.remove("basename"@).remove("extension"@) =~= s.extra);
}

proof fn targets_read_back(m: Map<Seq<char>, Json>, targets: Seq<(Seq<char>, SubstitutionsFacts)>)
    requires
        targets_read(m, targets),
    ensures
        targets_readable(targets_members(targets)),
        targets_read(targets_members(targets), targets),
{
    let w = targets_members(targets);
    assert forall|k: Seq<char>| sorted::has_key(targets, k) <==> #[trigger] w.contains_key(k) by {
        targets_members_hold(targets, k);
    }
    assert forall|i: int| 0 <= i < targets.len() implies w.contains_key((#[trigger] targets[i]).0)
        && w[targets[i].0] is Object && substitutions_of(w[targets[i].0]->Object_0) == Some(
        targets[i].1,
    ) by {
        targets_members_hold(targets, targets[i].0);
        assert(sorted::holds(targets, targets[i].0, i));
        sorted::keys_are_unique(targets, i);
        substitutions_read_back(m[targets[i].0]->Object_0);
    }
    assert forall|k: Seq<char>| #[trigger] w.contains_key(k) implies w[k] is Object
        && substitutions_of(w[k]->Object_0) is Some by {
        assert(sorted::has_key(targets, k));
        let i = choose|i: int| sorted::holds(targets, k, i);
        assert(targets[i].0 == k);
    }
}

/// An artifact that was read, written and read again is the same artifact, however it was written
/// at first.
pub proof fn artifacts_read_back(m: Map<Seq<char>, Json>, a: ArtifactFacts)
    requires
        members_read(m, a),
    ensures
        members_read(artifact_members(a), a),
{
    names_differ();
    let w = artifact_members(a);
    assert forall|k: Seq<char>| k != "archive"@ && k != "targets"@ implies (w.contains_key(k)
        <==> m.contains_key(k)) && (m.contains_key(k) ==> w[k] == m[k]) by {
        if k == "uri"@ {
            assert(m["uri"@] == Json::Text(m["uri"@]->Text_0));
        }
        if k == "digest"@ && a.digest() is Some {
            artifact::digests_round_trip(m["digest"@]->Text_0);
            assert(m["digest"@] == Json::Text(artifact::digest_text(a.digest()->0)));
        }
        if let ArtifactFacts::TargetSpecific { substitutions, .. } = a {
            if substitutions is Some {
                let s = substitutions->0;
                if k == "basename"@ && s.basename is Some {
                    assert(m["basename"@] == Json::Text(s.basename->0));
                }
                if k == "extension"@ && s.extension is Some {
                    assert(m["extension"@] == Json::Text(s.extension->0));
                }
            }
        }
    }
    assert(w.contains_key("archive"@) <==> m.contains_key("archive"@));
    assert(w.contains_key("targets"@) <==> m.contains_key("targets"@));
    if a.archive() is Some {
        archives_read_back(m["archive"@]);
        assert(w["archive"@] == archive_json(a.archive()->0));
    } else if m.contains_key("archive"@) {
        assert(w["archive"@] == m["archive"@]);
    }
    assert(archive_field(w) == archive_field(m));
    assert(digest_field(w) == digest_field(m));
    if let ArtifactFacts::TargetSpecific { targets, .. } = a {
        targets_read_back(m["targets"@]->Object_0, targets);
        assert(w["targets"@] == Json::Object(targets_members(targets)));
        assert(flattened(w) =~= flattened(m));
    } else if m.contains_key("targets"@) {
        assert(w["targets"@] == m["targets"@]);
    }
    assert(w.remove_keys(known_names(a)) =~= extra_of(a));
}

/// A document declares at most one artifact.
pub proof fn documents_declare_one_artifact(
    m: Map<Seq<char>, Json>,
    a: ArtifactFacts,
    b: ArtifactFacts,
)
    requires
        members_read(m, a),
        members_read(m, b),
    ensures
        a == b,
{
    if let ArtifactFacts::TargetSpecific { targets: x, .. } = a {
        if let ArtifactFacts::TargetSpecific { targets: y, .. } = b {
            let declared = m["targets"@]->Object_0;
            assert forall|k: Seq<char>| #[trigger] sorted::has_key(x, k) <==> sorted::has_key(
                y,
                k,
            ) by {
                assert(sorted::has_key(x, k) <==> declared.contains_key(k));
            }
            sorted::order_is_determined(x, y);
        }
    }
    assert(known_names(a) =~= known_names(b));
    assert(a =~= b);
}

/// The field that an error is about.
pub open spec fn wrong_field(e: ArtifactFormError) -> Option<Seq<char>> {
    match e {
        ArtifactFormError::NotAnObject => None,
        ArtifactFormError::Targets => Some("targets"@),
        ArtifactFormError::Uri => Some("uri"@),
        ArtifactFormError::Digest => Some("digest"@),
        ArtifactFormError::Archive => Some("archive"@),
    }
}

/// An error about a field names the field.
pub proof fn errors_name_their_field(e: ArtifactFormError)
    ensures
        wrong_field(e) matches Some(field) ==> text::occurs_in(form_error_text(e), field),
{
    reveal_strlit("targets");
    reveal_strlit("uri");
    reveal_strlit("digest");
    reveal_strlit("archive");
    reveal_strlit("an artifact's `targets` must be a map of target triple to substitutions");
    reveal_strlit("an artifact's `uri` must be a text");
    reveal_strlit("an artifact's `digest` must be of the form '<algorithm>:<hex>'");
    reveal_strlit("an artifact's `archive` must name a format");
    if let Some(field) = wrong_field(e) {
        let words = form_error_text(e);
        assert(words.subrange(15, 15 + field.len() as int) =~= field);
        assert(text::occurs_at(words, field, 15));
    }
}

} // verus!
