//! What holds of paths, whatever they name.

use vstd::prelude::*;

use crate::path;
use crate::text;
use crate::text_laws;

verus! {

/// Whether a text is one component of a path, and not one that is passed over.
pub open spec fn is_component(name: Seq<char>) -> bool {
    &&& name.len() > 0
    &&& !name.contains('/')
    &&& name != seq!['.']
}

proof fn dot_names()
    ensures
        ""@ == Seq::<char>::empty(),
        "."@ == seq!['.'],
        ".."@ == seq!['.', '.'],
{
    reveal_strlit("");
    reveal_strlit(".");
    reveal_strlit("..");
    assert(""@ =~= Seq::<char>::empty());
    assert("."@ =~= seq!['.']);
    assert(".."@ =~= seq!['.', '.']);
}

/// A component below a path is one more component behind those of the path, which stays absolute or
/// relative.
pub proof fn below_adds_a_component(base: Seq<char>, name: Seq<char>)
    requires
        is_component(name),
    ensures
        path::parts(path::below(base, name)) == path::parts(base).push(name),
        base.len() > 0 ==> path::rooted(path::below(base, name)) == path::rooted(base),
{
    dot_names();
    assert(!path::rooted(name)) by {
        if path::rooted(name) {
            assert(name.contains(name[0]));
        }
    }
    let whole = path::below(base, name);
    if base.len() == 0 {
        text_laws::the_last_segment(base, '/', name);
        assert(base =~= Seq::empty());
        assert(path::parts(base) =~= Seq::empty()) by {
            text_laws::the_last_segment(base, '/', base);
        }
        assert(whole == name);
        assert(path::parts(whole) =~= path::parts(base).push(name));
    } else if base.last() == '/' {
        let front = base.drop_last();
        assert(whole =~= front + seq!['/'] + name);
        text_laws::the_last_segment(front, '/', name);
        assert(whole.take(whole.len() - name.len() - 1) =~= front);
        // A slash at the end names nothing.
        a_slash_names_nothing(front);
        assert(front.push('/') =~= base);
        assert(whole[0] == base[0]);
    } else {
        assert(whole =~= base + seq!['/'] + name);
        text_laws::the_last_segment(base, '/', name);
        assert(whole.take(whole.len() - name.len() - 1) =~= base);
        assert(whole[0] == base[0]);
    }
}

/// A slash at the end of a path names nothing.
pub proof fn a_slash_names_nothing(front: Seq<char>)
    ensures
        path::parts(front.push('/')) == path::parts(front),
        path::final_component(front.push('/')) == path::final_component(front),
{
    dot_names();
    let p = front.push('/');
    assert(p =~= front + seq!['/'] + Seq::<char>::empty());
    text_laws::the_last_segment(front, '/', Seq::empty());
    assert(p.take(p.len() - 0 - 1) =~= front);
}

/// A component `.` behind another names nothing.
pub proof fn a_dot_names_nothing(front: Seq<char>)
    ensures
        path::parts(front + seq!['/', '.']) == path::parts(front),
        path::final_component(front + seq!['/', '.']) == path::final_component(front),
{
    dot_names();
    let p = front + seq!['/', '.'];
    let dot = seq!['.'];
    assert(!dot.contains('/')) by {
        if dot.contains('/') {
            let i = choose|i: int| 0 <= i < dot.len() && dot[i] == '/';
        }
    }
    assert(p =~= front + seq!['/'] + dot);
    text_laws::the_last_segment(front, '/', dot);
    assert(p.take(p.len() - 1 - 1) =~= front);
}

/// A part that is absolute stands for itself, and so does one below nothing.
pub proof fn absolute_parts_stand_for_themselves(base: Seq<char>, part: Seq<char>)
    ensures
        part.len() > 0 && part[0] == '/' ==> path::below(base, part) == part,
        base.len() == 0 ==> path::below(base, part) == part,
        path::rooted(part) <==> part.len() > 0 && part[0] == '/',
{
}

/// A part below a path is the path, one slash and the part.
pub proof fn below_puts_one_slash(base: Seq<char>, part: Seq<char>)
    requires
        base.len() > 0,
        base.last() != '/',
        !(part.len() > 0 && part[0] == '/'),
    ensures
        path::below(base, part) == base + seq!['/'] + part,
        path::below(base.push('/'), part) == base + seq!['/'] + part,
{
    assert(base.push('/') + part =~= base + seq!['/'] + part);
}

/// What lies below a base is seen from there without it, and anything else as it is.
pub proof fn paths_are_seen_from_their_base(base: Seq<char>, part: Seq<char>, other: Seq<char>)
    ensures
        part.len() > 0 && !path::rooted(part) ==> path::relative_to(path::below(base, part), base)
            == part,
        !text::begins_with(other, path::below(base, Seq::empty())) ==> path::relative_to(other, base)
            == other,
{
    let none = Seq::<char>::empty();
    let prefix = path::below(base, none);
    if part.len() > 0 && !path::rooted(part) {
        if base.len() == 0 {
            assert(prefix =~= none);
            assert(part.take(0) =~= none);
            assert(part.skip(0) =~= part);
        } else {
            let whole = path::below(base, part);
            if base.last() == '/' {
                assert(prefix =~= base);
            } else {
                assert(prefix =~= base.push('/'));
            }
            assert(whole =~= prefix + part);
            assert(whole.take(prefix.len() as int) =~= prefix);
            assert(whole.skip(prefix.len() as int) =~= part);
        }
    }
}

/// The last component of a path is its filename, unless it leads upwards.
pub proof fn the_last_component_is_the_filename(base: Seq<char>, name: Seq<char>)
    requires
        is_component(name),
    ensures
        path::final_component(path::below(base, name)) == if name == seq!['.', '.'] {
            None
        } else {
            Some(name)
        },
        path::final_component(Seq::empty()) is None,
{
    dot_names();
    assert(!path::rooted(name)) by {
        if path::rooted(name) {
            assert(name.contains(name[0]));
        }
    }
    let none = Seq::<char>::empty();
    text_laws::the_last_segment(none, '/', none);
    let whole = path::below(base, name);
    if base.len() == 0 {
        text_laws::the_last_segment(base, '/', name);
    } else if base.last() == '/' {
        assert(whole =~= base.drop_last() + seq!['/'] + name);
        text_laws::the_last_segment(base.drop_last(), '/', name);
    } else {
        assert(whole =~= base + seq!['/'] + name);
        text_laws::the_last_segment(base, '/', name);
    }
}

/// Two paths are the same place exactly where both are absolute or both are not, and where they have
/// the same components.
pub proof fn places_are_told_by_components(base: Seq<char>, a: Seq<char>, b: Seq<char>)
    requires
        base.len() > 0,
        is_component(a),
        is_component(b),
    ensures
        path::same_place(path::below(base, a), path::below(base, b)) <==> a == b,
        path::same_place(path::below(base.push('/'), a), path::below(base, a)),
{
    below_adds_a_component(base, a);
    below_adds_a_component(base, b);
    below_adds_a_component(base.push('/'), a);
    a_slash_names_nothing(base);
    let p = path::parts(base);
    if p.push(a) == p.push(b) {
        assert(p.push(a).last() == a);
        assert(p.push(b).last() == b);
    }
    assert(base.push('/')[0] == base[0]);
}

} // verus!
