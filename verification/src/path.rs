//! File system paths as text, with `/` between their components.

use vstd::prelude::*;

use crate::text;

verus! {

/// Whether a path starts at the root.
pub open spec fn rooted(path: Seq<char>) -> bool {
    path.len() > 0 && path[0] == '/'
}

/// `part` below `base`. An absolute `part` stands for itself.
pub open spec fn below(base: Seq<char>, part: Seq<char>) -> Seq<char> {
    if rooted(part) || base.len() == 0 {
        part
    } else if base.last() == '/' {
        base + part
    } else {
        base.push('/') + part
    }
}

/// The last component of a path, unless the path ends in `..`. Empty components and `.` name
/// nothing.
pub open spec fn final_component(path: Seq<char>) -> Option<Seq<char>>
    decreases path.len(),
{
    let last = text::after_last(path, '/');
    if last == ""@ || last == "."@ {
        if last.len() < path.len() {
            final_component(path.take(path.len() - last.len() - 1))
        } else {
            None
        }
    } else if last == ".."@ {
        None
    } else {
        Some(last)
    }
}

/// The components of a path. Empty components name nothing, and neither does `.` except at the start
/// of a relative path.
pub open spec fn parts(path: Seq<char>) -> Seq<Seq<char>>
    decreases path.len(),
{
    let last = text::after_last(path, '/');
    if last.len() >= path.len() {
        if last == ""@ {
            Seq::empty()
        } else {
            seq![last]
        }
    } else {
        let before = parts(path.take(path.len() - last.len() - 1));
        if last == ""@ || last == "."@ {
            before
        } else {
            before.push(last)
        }
    }
}

/// Whether two paths are the same, component by component.
pub open spec fn same_place(a: Seq<char>, b: Seq<char>) -> bool {
    rooted(a) == rooted(b) && parts(a) == parts(b)
}

/// `path` seen from `base`, where it lies textually below it; `path` itself otherwise.
pub open spec fn relative_to(path: Seq<char>, base: Seq<char>) -> Seq<char> {
    let prefix = below(base, Seq::empty());
    if text::begins_with(path, prefix) {
        path.skip(prefix.len() as int)
    } else {
        path
    }
}

/// Whether `path` is absolute.
pub fn is_absolute(path: &str) -> (r: bool)
    ensures
        r == rooted(path@),
{
    let chars = text::characters(path);
    chars.len() > 0 && chars[0] == '/'
}

/// Puts `part` below `base`.
pub fn join(base: &str, part: &str) -> (r: String)
    ensures
        r@ == below(base@, part@),
{
    if is_absolute(part) {
        return part.to_owned();
    }
    let chars = text::characters(base);
    if chars.len() == 0 {
        return part.to_owned();
    }
    let mut out = base.to_owned();
    if chars[chars.len() - 1] != '/' {
        out.push('/');
    }
    out.append(part);
    out
}

/// The last component of `path`.
pub fn file_name(path: &str) -> (r: Option<String>)
    ensures
        r.deep_view() == final_component(path@),
{
    let mut rest = path.to_owned();
    loop
        invariant
            final_component(rest@) == final_component(path@),
        decreases rest@.len(),
    {
        let last = text::last_segment(rest.as_str(), '/');
        proof {
            text::last_segment_marks(rest@, '/');
        }
        let chars = text::characters(rest.as_str());
        let tail = text::characters(last.as_str());
        if text::same(last.as_str(), "") || text::same(last.as_str(), ".") {
            if tail.len() < chars.len() {
                let to: usize = chars.len() - tail.len() - 1;
                let head = text::slice(&chars, 0, to);
                assert(head@ =~= rest@.take(rest@.len() - last@.len() - 1));
                rest = head;
            } else {
                return None;
            }
        } else if text::same(last.as_str(), "..") {
            return None;
        } else {
            return Some(last);
        }
    }
}

/// The components of `path`.
pub fn components(path: &str) -> (r: Vec<String>)
    ensures
        r.deep_view() == parts(path@),
    decreases path@.len(),
{
    let last = text::last_segment(path, '/');
    proof {
        text::last_segment_marks(path@, '/');
    }
    let chars = text::characters(path);
    let tail = text::characters(last.as_str());
    if tail.len() >= chars.len() {
        let mut found: Vec<String> = Vec::new();
        if text::same(last.as_str(), "") {
            assert(found.deep_view() =~= Seq::empty());
        } else {
            let ghost name = last@;
            found.push(last);
            assert(found.deep_view() =~= seq![name]);
        }
        found
    } else {
        let to: usize = chars.len() - tail.len() - 1;
        let head = text::slice(&chars, 0, to);
        assert(head@ =~= path@.take(path@.len() - last@.len() - 1));
        let mut found = components(head.as_str());
        if !text::same(last.as_str(), "") && !text::same(last.as_str(), ".") {
            let ghost (before, name) = (found.deep_view(), last@);
            found.push(last);
            assert(found.deep_view() =~= before.push(name));
        }
        found
    }
}

/// Whether two paths are the same, component by component.
pub fn same(a: &str, b: &str) -> (r: bool)
    ensures
        r == same_place(a@, b@),
{
    is_absolute(a) == is_absolute(b) && text::same_all(&components(a), &components(b))
}

/// `path` seen from `base`.
pub fn strip_base(path: &str, base: &str) -> (r: String)
    ensures
        r@ == relative_to(path@, base@),
{
    let prefix = join(base, "");
    proof {
        reveal_strlit("");
        assert(""@ =~= Seq::empty());
    }
    if text::starts_with(path, prefix.as_str()) {
        let chars = text::characters(path);
        let skipped = text::characters(prefix.as_str());
        let rest = text::slice(&chars, skipped.len(), chars.len());
        assert(rest@ =~= path@.skip(prefix@.len() as int));
        rest
    } else {
        path.to_owned()
    }
}

} // verus!
