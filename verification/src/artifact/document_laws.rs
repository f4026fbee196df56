//! Which field of a document says what of an artifact.

use vstd::prelude::*;

use crate::artifact;
use crate::artifact::document;
use crate::artifact::document::ArtifactFormError;
use crate::artifact::resolution_laws;
use crate::artifact::{ArchiveFacts, ArtifactFacts, DigestFacts, SubstitutionsFacts};
use crate::sorted;
use crate::value::Json;

verus! {

/// The text under a name, if there is one.
pub open spec fn text_at(m: Map<Seq<char>, Json>, name: Seq<char>) -> Option<Seq<char>> {
    if m.contains_key(name) {
        match m[name] {
            Json::Text(s) => Some(s),
            _ => None,
        }
    } else {
        None
    }
}

/// Whether nothing is said under a name.
pub open spec fn is_silent(m: Map<Seq<char>, Json>, name: Seq<char>) -> bool {
    !m.contains_key(name) || m[name] is Null
}

/// Whether substitutions are what an object says under their names, and what else it says.
pub open spec fn says_substitutions(m: Map<Seq<char>, Json>, s: SubstitutionsFacts) -> bool {
    &&& s.basename == text_at(m, "basename"@)
    &&& s.extension == text_at(m, "extension"@)
    &&& s.basename is None ==> is_silent(m, "basename"@)
    &&& s.extension is None ==> is_silent(m, "extension"@)
    &&& forall|name: Seq<char>| #[trigger]
        s.extra.contains_key(name) <==> m.contains_key(name) && name != "basename"@ && name
            != "extension"@
    &&& forall|name: Seq<char>| #[trigger]
        s.extra.contains_key(name) ==> s.extra[name] == m[name]
}

/// Whether a packaging is what a node says: a spelling alone, or a spelling under its name and more.
pub open spec fn says_archive(j: Json, a: ArchiveFacts) -> bool {
    match j {
        Json::Text(spelling) => artifact::spelling_of(a.format) == spelling && a.extra.dom()
            =~= Set::empty(),
        Json::Object(m) => {
            &&& text_at(m, "format"@) == Some(artifact::spelling_of(a.format))
            &&& forall|name: Seq<char>| #[trigger]
                a.extra.contains_key(name) <==> m.contains_key(name) && name != "format"@
            &&& forall|name: Seq<char>| #[trigger]
                a.extra.contains_key(name) ==> a.extra[name] == m[name]
        },
        _ => false,
    }
}

proof fn substitutions_say(m: Map<Seq<char>, Json>)
    ensures
        document::substitutions_of(m) matches Some(s) ==> says_substitutions(m, s),
        document::substitutions_of(m) is Some <==> {
            &&& is_silent(m, "basename"@) || text_at(m, "basename"@) is Some
            &&& is_silent(m, "extension"@) || text_at(m, "extension"@) is Some
        },
{
}

proof fn archives_say(j: Json)
    ensures
        document::archive_of(j) matches Some(a) ==> says_archive(j, a),
        document::archive_of(j) is Some <==> j is Text || (j matches Json::Object(m) && text_at(
            m,
            "format"@,
        ) is Some),
{
    if let Some(a) = document::archive_of(j) {
        match j {
            Json::Text(s) => artifact::formats_round_trip(s),
            Json::Object(m) => {
                artifact::formats_round_trip(m["format"@]->Text_0);
            },
            _ => {},
        }
    }
}

/// Whether a digest is what a text says, parted at the first colon.
pub open spec fn says_digest(s: Seq<char>, d: DigestFacts) -> bool {
    s == d.algorithm + seq![':'] + d.hex
}

/// What a document says of an artifact is read from the field of its own name: the URI, the digest, the
/// packaging, the substitutions for all targets, and those of each target. A field that is missing or
/// null says nothing.
pub proof fn fields_are_read_by_their_names(m: Map<Seq<char>, Json>, a: ArtifactFacts, target: Seq<char>)
    requires
        document::members_read(m, a),
    ensures
        text_at(m, "uri"@) == Some(resolution_laws::uri_declared(a)),
        match crate::plan::content_laws::digest_declared(a) {
            None => is_silent(m, "digest"@),
            Some(d) => text_at(m, "digest"@) matches Some(s) && says_digest(s, d),
        },
        match resolution_laws::archive_declared(a) {
            None => is_silent(m, "archive"@),
            Some(archive) => m.contains_key("archive"@) && says_archive(m["archive"@], archive),
        },
        a is TargetSpecific <==> m.contains_key("targets"@),
        a matches ArtifactFacts::TargetSpecific { targets, substitutions, .. } ==> {
            &&& m["targets"@] matches Json::Object(declared) && {
                &&& sorted::has_key(targets, target) <==> declared.contains_key(target)
                &&& sorted::lookup(targets, target) matches Some(s) ==> (declared[target] matches Json::Object(
                    own,
                ) && says_substitutions(own, s))
            }
            &&& substitutions matches Some(s) ==> s.basename == text_at(m, "basename"@)
                && s.extension == text_at(m, "extension"@)
            &&& substitutions is None ==> !(is_silent(m, "basename"@) || text_at(m, "basename"@) is Some)
                || !(is_silent(m, "extension"@) || text_at(m, "extension"@) is Some)
        },
{
    document::names_differ();
    reveal_strlit(":");
    assert(":"@ =~= seq![':']);
    if a.digest() is Some {
        artifact::digests_round_trip(m["digest"@]->Text_0);
    }
    if m.contains_key("archive"@) {
        archives_say(m["archive"@]);
    }
    if let ArtifactFacts::TargetSpecific { targets, substitutions, .. } = a {
        let declared = m["targets"@]->Object_0;
        assert(sorted::has_key(targets, target) <==> declared.contains_key(target));
        if sorted::has_key(targets, target) {
            let i = choose|i: int| sorted::holds(targets, target, i);
            assert(targets[i].0 == target);
            substitutions_say(declared[target]->Object_0);
        }
        substitutions_say(document::flattened(m));
    }
}

/// What an artifact declares is written under its own name, and what it does not declare is not
/// written: the URI, the digest, the packaging, the substitutions for all targets, and those of each
/// target.
pub proof fn fields_are_written_under_their_names(a: ArtifactFacts, i: int)
    requires
        a matches ArtifactFacts::TargetSpecific { targets, .. } ==> sorted::keys_increase(targets),
    ensures
        ({
            let m = document::artifact_members(a);
            &&& text_at(m, "uri"@) == Some(resolution_laws::uri_declared(a))
            &&& crate::plan::content_laws::digest_declared(a) matches Some(d) ==> (text_at(
                m,
                "digest"@,
            ) matches Some(s) && says_digest(s, d))
            &&& resolution_laws::archive_declared(a) matches Some(archive) ==> m.contains_key(
                "archive"@,
            ) && (if archive.extra.dom().is_empty() {
                m["archive"@] == Json::Text(artifact::spelling_of(archive.format))
            } else {
                m["archive"@] matches Json::Object(inner) && text_at(inner, "format"@) == Some(
                    artifact::spelling_of(archive.format),
                )
            })
            &&& a matches ArtifactFacts::TargetSpecific { targets, substitutions, .. } ==> {
                &&& m.contains_key("targets"@)
                &&& m["targets"@] matches Json::Object(declared) && (0 <= i < targets.len() ==> {
                    let (target, s) = targets[i];
                    &&& declared.contains_key(target)
                    &&& declared[target] matches Json::Object(own) && {
                        &&& s.basename is Some ==> text_at(own, "basename"@) == s.basename
                        &&& s.extension is Some ==> text_at(own, "extension"@) == s.extension
                    }
                })
                &&& substitutions matches Some(s) ==> {
                    &&& s.basename is Some ==> text_at(m, "basename"@) == s.basename
                    &&& s.extension is Some ==> text_at(m, "extension"@) == s.extension
                }
            }
        }),
{
    document::names_differ();
    reveal_strlit(":");
    assert(":"@ =~= seq![':']);
    if let ArtifactFacts::TargetSpecific { targets, .. } = a {
        if 0 <= i < targets.len() {
            target_is_written(targets, targets.len() as int, i);
            assert(targets.take(targets.len() as int) =~= targets);
        }
    }
}

proof fn target_is_written(targets: Seq<(Seq<char>, SubstitutionsFacts)>, n: int, i: int)
    requires
        sorted::keys_increase(targets),
        0 <= i < n <= targets.len(),
    ensures
        ({
            let m = document::targets_members(targets.take(n));
            m.contains_key(targets[i].0) && m[targets[i].0] == Json::Object(
                document::substitutions_members(targets[i].1),
            )
        }),
    decreases n,
{
    let list = targets.take(n);
    assert(list.drop_last() =~= targets.take(n - 1));
    assert(list.last() == targets[n - 1]);
    if i < n - 1 {
        target_is_written(targets, n - 1, i);
        sorted::keys_are_unique(targets, i);
        if targets[n - 1].0 == targets[i].0 {
            assert(sorted::holds(targets, targets[i].0, n - 1));
            assert(crate::text::precedes(targets[i].0, targets[n - 1].0));
            crate::text::precedes_irreflexive(targets[i].0);
        }
    }
}

/// Whether an object says substitutions that can be read.
pub open spec fn has_readable_substitutions(j: Json) -> bool {
    j matches Json::Object(m) && {
        &&& is_silent(m, "basename"@) || text_at(m, "basename"@) is Some
        &&& is_silent(m, "extension"@) || text_at(m, "extension"@) is Some
    }
}

/// A document is an artifact exactly where it is an object with a URI, whose targets, where it has any,
/// all say substitutions that can be read, and whose digest and packaging, where they are said, can be
/// read. What is wrong first is what is said.
pub proof fn documents_are_refused_for_what_is_wrong(j: Json)
    ensures
        match document::form_error(j) {
            Some(ArtifactFormError::NotAnObject) => !(j is Object),
            Some(ArtifactFormError::Targets) => j matches Json::Object(m) && m.contains_key(
                "targets"@,
            ) && !(m["targets"@] matches Json::Object(t) && forall|k: Seq<char>| #[trigger]
                t.contains_key(k) ==> has_readable_substitutions(t[k])),
            Some(ArtifactFormError::Uri) => j matches Json::Object(m) && text_at(m, "uri"@) is None,
            Some(ArtifactFormError::Digest) => j matches Json::Object(m) && !is_silent(m, "digest"@)
                && (text_at(m, "digest"@) matches Some(s) ==> artifact::digest_of(s) is Err),
            Some(ArtifactFormError::Archive) => j matches Json::Object(m) && !is_silent(
                m,
                "archive"@,
            ) && text_at(m, "archive"@) is None && !(m["archive"@] matches Json::Object(inner)
                && text_at(inner, "format"@) is Some),
            None => j matches Json::Object(m) && {
                &&& text_at(m, "uri"@) is Some
                &&& m.contains_key("targets"@) ==> (m["targets"@] matches Json::Object(t) && forall|
                    k: Seq<char>,
                | #[trigger]
                    t.contains_key(k) ==> has_readable_substitutions(t[k]))
                &&& !is_silent(m, "digest"@) ==> (text_at(m, "digest"@) matches Some(s)
                    && artifact::digest_of(s) is Ok)
                &&& !is_silent(m, "archive"@) ==> text_at(m, "archive"@) is Some || (
                m["archive"@] matches Json::Object(inner) && text_at(inner, "format"@) is Some)
            },
        },
{
    if let Json::Object(m) = j {
        if m.contains_key("targets"@) {
            if let Json::Object(t) = m["targets"@] {
                assert(document::targets_readable(t) <==> forall|k: Seq<char>| #[trigger]
                    t.contains_key(k) ==> has_readable_substitutions(t[k])) by {
                    assert forall|k: Seq<char>| #[trigger] t.contains_key(k) implies (
                    has_readable_substitutions(t[k]) <==> t[k] is Object
                        && document::substitutions_of(t[k]->Object_0) is Some) by {
                        if t[k] is Object {
                            substitutions_say(t[k]->Object_0);
                        }
                    }
                }
            }
        }
        if m.contains_key("archive"@) {
            archives_say(m["archive"@]);
        }
    }
}

} // verus!
