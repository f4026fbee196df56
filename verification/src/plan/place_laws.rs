//! Where files may go, and what identifies a source.

use vstd::prelude::*;

use crate::manifest::ComponentFacts;
use crate::path;
use crate::path_laws;
use crate::plan::authority;
use crate::plan::authority::PinnedFacts;
use crate::plan::content_laws;
use crate::plan::destination;
use crate::plan::destination::DestinationErrorFacts;
use crate::text;

verus! {

/// An id can be a filename exactly where it is a component of a path that leads neither upwards nor
/// nowhere, with no character that could part or end it, and that no option starts with.
pub proof fn filenames_are_single_components(id: Seq<char>)
    ensures
        destination::is_safe_segment(id) <==> {
            &&& path_laws::is_component(id)
            &&& id != seq!['.', '.']
            &&& id[0] != '-'
            &&& forall|i: int|
                0 <= i < id.len() ==> #[trigger] id[i] != '\\' && id[i] != '\0'
        },
{
    reveal_strlit(".");
    reveal_strlit("..");
    assert("."@ =~= seq!['.']);
    assert(".."@ =~= seq!['.', '.']);
    if forall|i: int| 0 <= i < id.len() ==> #[trigger] id[i] != '\\' && id[i] != '\0' {
        assert(!id.contains('\\'));
        assert(!id.contains('\0'));
    } else {
        let i = choose|i: int|
            0 <= i < id.len() && !(#[trigger] id[i] != '\\' && id[i] != '\0');
        assert(id.contains(id[i]));
    }
}

/// A file never leaves the directory that files of its kind go to: its path is that directory's and one
/// component more, which is the file's own name.
pub proof fn files_stay_in_their_directory(c: ComponentFacts, id: Seq<char>, sysroot: Seq<char>)
    requires
        destination::placed(c, id, sysroot) is Ok,
    ensures
        ({
            let (place, mode) = destination::placed(c, id, sysroot)->Ok_0;
            let parts = path::parts(place);
            &&& parts.last() == id
            &&& content_laws::program_of(c.kind) is Some ==> mode == 0o755 && parts == path::parts(
                sysroot,
            ).push("bin"@).push(id)
            &&& c.kind is Package || c.kind is LegacyPackage ==> mode == 0o644 && parts
                == path::parts(sysroot).push("lib"@).push(id)
            &&& (c.kind is Asset || c.kind is Command) && path_laws::is_component(c.name) ==> mode
                == 0o644 && parts == path::parts(sysroot).push("etc"@).push(c.name).push(id)
        }),
{
    filenames_are_single_components(id);
    reveal_strlit("bin");
    reveal_strlit("lib");
    reveal_strlit("etc");
    let (bin, lib, etc) = ("bin"@, "lib"@, "etc"@);
    assert(path_laws::is_component(bin)) by {
        assert(!bin.contains('/'));
    }
    assert(path_laws::is_component(lib)) by {
        assert(!lib.contains('/'));
    }
    assert(path_laws::is_component(etc)) by {
        assert(!etc.contains('/'));
    }
    path_laws::below_adds_a_component(sysroot, bin);
    path_laws::below_adds_a_component(sysroot, lib);
    path_laws::below_adds_a_component(sysroot, etc);
    path_laws::below_adds_a_component(path::below(sysroot, bin), id);
    path_laws::below_adds_a_component(path::below(sysroot, lib), id);
    let dir = path::below(path::below(sysroot, etc), c.name);
    path_laws::below_adds_a_component(dir, id);
    if path_laws::is_component(c.name) {
        path_laws::below_adds_a_component(path::below(sysroot, etc), c.name);
    }
}

/// A file has no place exactly where its id can be no filename or its component is of a kind that
/// installs nothing; the id is looked at first.
pub proof fn files_without_a_place_say_why(c: ComponentFacts, id: Seq<char>, sysroot: Seq<char>)
    ensures
        match destination::placed(c, id, sysroot) {
            Ok(_) => destination::is_safe_segment(id) && !(c.kind is Unsupported),
            Err(DestinationErrorFacts::InvalidId(named)) => named == id
                && !destination::is_safe_segment(id),
            Err(DestinationErrorFacts::NotInstallable { component, kind }) => component == c.name
                && c.kind is Unsupported && c.kind->tag == kind,
        },
{
}

/// What identifies a source names where it comes from and which state of it is meant: the version; the
/// repository, the commit and what in it; the directory and when it was last modified.
pub proof fn sources_are_identified_by_place_and_state(pinned: PinnedFacts)
    ensures
        match pinned {
            PinnedFacts::Registry { version } => authority::identity(pinned) == "registry:"@
                + version,
            PinnedFacts::Git { url, revision, subpath: None } => authority::identity(pinned)
                == "git:"@ + url + "@"@ + revision,
            PinnedFacts::Git { url, revision, subpath: Some(subpath) } => authority::identity(pinned)
                == "git:"@ + url + "@"@ + revision + ":"@ + subpath,
            PinnedFacts::Path { canonical, mtime: None } => authority::identity(pinned) == "path:"@
                + canonical,
            PinnedFacts::Path { canonical, mtime: Some(mtime) } => authority::identity(pinned)
                == "path:"@ + canonical + "@"@ + text::signed_decimal(mtime as int),
        },
{
}

/// Two states of one source are never identified alike: two versions, two commits of a repository, two
/// modification times of a directory.
pub proof fn states_are_told_apart(a: PinnedFacts, b: PinnedFacts)
    requires
        authority::identity(a) == authority::identity(b),
        match (a, b) {
            (PinnedFacts::Registry { .. }, PinnedFacts::Registry { .. }) => true,
            (
                PinnedFacts::Git { url: u, subpath: s, .. },
                PinnedFacts::Git { url: v, subpath: t, .. },
            ) => u == v && s == t,
            (
                PinnedFacts::Path { canonical: p, mtime: Some(_) },
                PinnedFacts::Path { canonical: q, mtime: Some(_) },
            ) => p == q,
            _ => false,
        },
    ensures
        a == b,
{
    let (x, y) = (authority::identity(a), authority::identity(b));
    match (a, b) {
        (PinnedFacts::Registry { version: v }, PinnedFacts::Registry { version: w }) => {
            let n = "registry:"@.len() as int;
            assert(x.skip(n) =~= v);
            assert(y.skip(n) =~= w);
        },
        (
            PinnedFacts::Git { url, revision: r, subpath },
            PinnedFacts::Git { revision: s, .. },
        ) => {
            if r != s {
                crate::plan::plan_laws::identities_tell_revisions_apart(url, subpath, r, s);
            }
        },
        (
            PinnedFacts::Path { canonical, mtime: Some(m) },
            PinnedFacts::Path { mtime: Some(n), .. },
        ) => {
            let front = "path:"@ + canonical + "@"@;
            let (d, e) = (text::signed_decimal(m as int), text::signed_decimal(n as int));
            assert(x.skip(front.len() as int) =~= d);
            assert(y.skip(front.len() as int) =~= e);
            crate::text_laws::signs_are_written(m as int);
            crate::text_laws::signs_are_written(n as int);
        },
        _ => {},
    }
}

/// Sources of two kinds are never identified alike.
pub proof fn kinds_of_sources_are_told_apart(a: PinnedFacts, b: PinnedFacts)
    requires
        authority::identity(a) == authority::identity(b),
    ensures
        a is Registry <==> b is Registry,
        a is Git <==> b is Git,
{
    reveal_strlit("registry:");
    reveal_strlit("git:");
    reveal_strlit("path:");
    let (x, y) = (authority::identity(a), authority::identity(b));
    assert(x[0] == (if a is Registry {
        'r'
    } else if a is Git {
        'g'
    } else {
        'p'
    }));
    assert(y[0] == (if b is Registry {
        'r'
    } else if b is Git {
        'g'
    } else {
        'p'
    }));
}

} // verus!
