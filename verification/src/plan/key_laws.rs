//! What holds of plan keys as a whole.

use vstd::prelude::*;

use crate::order;
use crate::order::Ordered;
use crate::plan::encoding;
use crate::plan::encoding::Field;
use crate::plan::key;
use crate::plan::key::{
    ArtifactFacts, ArtifactInput, ComponentFacts, ComponentInputs, KeyFacts, PlanKey,
};
use crate::text;

verus! {

/// Whether `a` and `b` hold the same elements, in whatever order.
pub open spec fn rearranged<T>(a: Seq<T>, b: Seq<T>) -> bool {
    a.to_multiset() == b.to_multiset()
}

/// Whether two components agree in everything but the order inside their collections.
pub open spec fn rearranged_component(a: ComponentFacts, b: ComponentFacts) -> bool {
    &&& a.name == b.name
    &&& a.authority == b.authority
    &&& a.kind == b.kind
    &&& a.installation_method == b.installation_method
    &&& a.crate_name == b.crate_name
    &&& a.rustup_channel == b.rustup_channel
    &&& rearranged(a.artifacts, b.artifacts)
    &&& rearranged(a.destinations, b.destinations)
    &&& rearranged(a.symlinks, b.symlinks)
    &&& match (a.features, b.features) {
        (Some(x), Some(y)) => rearranged(x, y),
        (None, None) => true,
        _ => false,
    }
}

proof fn lists_encode_alike(a: Seq<ComponentFacts>, b: Seq<ComponentFacts>)
    requires
        a.len() == b.len(),
        forall|i: int|
            0 <= i < a.len() ==> encoding::encoded(key::component_fields(#[trigger] a[i]))
                == encoding::encoded(key::component_fields(b[i])),
    ensures
        encoding::encoded(key::component_list(a)) == encoding::encoded(key::component_list(b)),
    decreases a.len(),
{
    if a.len() > 0 {
        let (p, q) = (a.drop_first(), b.drop_first());
        assert forall|i: int| 0 <= i < p.len() implies encoding::encoded(
            key::component_fields(#[trigger] p[i]),
        ) == encoding::encoded(key::component_fields(q[i])) by {
            assert(p[i] == a[i + 1]);
        }
        lists_encode_alike(p, q);
        encoding::encoded_concat(key::component_fields(a[0]), key::component_list(p));
        encoding::encoded_concat(key::component_fields(b[0]), key::component_list(q));
    }
}

/// The ranks of the components as they stand.
spec fn ranks(components: Seq<ComponentFacts>) -> Seq<(Seq<char>, Seq<char>)> {
    components.map_values(|c: ComponentFacts| key::component_rank(c))
}

proof fn ranks_decide_the_encoding(a: KeyFacts, b: KeyFacts)
    requires
        a.target == b.target,
        ranks(a.components).to_multiset() == ranks(b.components).to_multiset(),
    ensures
        key::encoding(a) == key::encoding(b),
{
    let leq = |x: ComponentFacts, y: ComponentFacts| <ComponentInputs as Ordered>::leq(x, y);
    let rank = |c: ComponentFacts| key::component_rank(c);
    let under = |x: (Seq<char>, Seq<char>), y: (Seq<char>, Seq<char>)|
        <(String, String) as Ordered>::leq(x, y);
    order::items_are_ordered::<(String, String)>();
    order::sorting_ranks(a.components, leq, rank, under);
    order::sorting_ranks(b.components, leq, rank, under);
    assert forall|x: (Seq<char>, Seq<char>), y: (Seq<char>, Seq<char>)| #[trigger]
        under(x, y) && under(y, x) implies x == y by {
        text::precedes_total(x.0, y.0);
        text::precedes_total(x.1, y.1);
    }
    order::sorting_forgets_the_arrangement(ranks(a.components), ranks(b.components), under);
    let (p, q) = (order::sorted(a.components, leq), order::sorted(b.components, leq));
    assert(ranks(p) == ranks(q));
    let (c, d) = (key::canonical(a).components, key::canonical(b).components);
    assert(c.len() == ranks(p).len() && d.len() == ranks(q).len());
    assert forall|i: int| 0 <= i < c.len() implies encoding::encoded(
        key::component_fields(#[trigger] c[i]),
    ) == encoding::encoded(key::component_fields(d[i])) by {
        assert(ranks(p)[i] == key::component_rank(p[i]));
        assert(ranks(q)[i] == key::component_rank(q[i]));
        text::hex_injective(key::component_encoding(p[i]), key::component_encoding(q[i]));
    }
    lists_encode_alike(c, d);
    let head = seq![encoding::text_field(key::TARGET, a.target)];
    encoding::encoded_concat(head, key::component_list(c));
    encoding::encoded_concat(head, key::component_list(d));
}

/// The order in which the components are listed does not change the key, not even where several
/// share a name.
pub proof fn component_order_does_not_matter(a: KeyFacts, b: KeyFacts)
    requires
        a.target == b.target,
        rearranged(a.components, b.components),
    ensures
        key::encoding(a) == key::encoding(b),
        key::key_of(a) == key::key_of(b),
{
    order::ranks_of_the_same(
        a.components,
        b.components,
        |c: ComponentFacts| key::component_rank(c),
    );
    ranks_decide_the_encoding(a, b);
}

proof fn canonical_component_forgets_order(a: ComponentFacts, b: ComponentFacts)
    requires
        rearranged_component(a, b),
    ensures
        key::canonical_component(a) == key::canonical_component(b),
{
    order::items_are_ordered::<ArtifactInput>();
    order::items_are_ordered::<(String, u32)>();
    order::items_are_ordered::<(String, String)>();
    order::items_are_ordered::<String>();
    let artifact_leq = |x: ArtifactFacts, y: ArtifactFacts| <ArtifactInput as Ordered>::leq(x, y);
    assert forall|x: ArtifactFacts, y: ArtifactFacts| #[trigger]
        artifact_leq(x, y) && artifact_leq(y, x) implies x == y by {
        text::precedes_total(x.id, y.id);
        text::precedes_total(x.uri, y.uri);
        if x.archive is Some && y.archive is Some {
            text::precedes_total(x.archive->0, y.archive->0);
        }
        assert(x =~= y);
    }
    order::sorting_forgets_the_arrangement(a.artifacts, b.artifacts, artifact_leq);
    let destination_leq = |x: (Seq<char>, u32), y: (Seq<char>, u32)|
        <(String, u32) as Ordered>::leq(x, y);
    assert forall|x: (Seq<char>, u32), y: (Seq<char>, u32)| #[trigger]
        destination_leq(x, y) && destination_leq(y, x) implies x == y by {
        text::precedes_total(x.0, y.0);
    }
    order::sorting_forgets_the_arrangement(a.destinations, b.destinations, destination_leq);
    let symlink_leq = |x: (Seq<char>, Seq<char>), y: (Seq<char>, Seq<char>)|
        <(String, String) as Ordered>::leq(x, y);
    assert forall|x: (Seq<char>, Seq<char>), y: (Seq<char>, Seq<char>)| #[trigger]
        symlink_leq(x, y) && symlink_leq(y, x) implies x == y by {
        text::precedes_total(x.0, y.0);
        text::precedes_total(x.1, y.1);
    }
    order::sorting_forgets_the_arrangement(a.symlinks, b.symlinks, symlink_leq);
    let feature_leq = |x: Seq<char>, y: Seq<char>| <String as Ordered>::leq(x, y);
    assert forall|x: Seq<char>, y: Seq<char>| #[trigger] feature_leq(x, y) && feature_leq(
        y,
        x,
    ) implies x == y by {
        text::precedes_total(x, y);
    }
    if a.features is Some {
        order::sorting_forgets_the_arrangement(a.features->0, b.features->0, feature_leq);
    }
}

/// The order inside a component's collections does not change the key.
pub proof fn collection_order_does_not_matter(a: KeyFacts, b: KeyFacts)
    requires
        a.target == b.target,
        a.components.len() == b.components.len(),
        forall|i: int|
            0 <= i < a.components.len() ==> rearranged_component(
                #[trigger] a.components[i],
                b.components[i],
            ),
    ensures
        key::encoding(a) == key::encoding(b),
        key::key_of(a) == key::key_of(b),
{
    assert forall|i: int| 0 <= i < a.components.len() implies key::component_rank(
        #[trigger] a.components[i],
    ) == key::component_rank(b.components[i]) by {
        canonical_component_forgets_order(a.components[i], b.components[i]);
    }
    assert(ranks(a.components) =~= ranks(b.components));
    ranks_decide_the_encoding(a, b);
}

/// Whether every field of the encoding has a length that its prefix can hold.
pub open spec fn fits(k: KeyFacts) -> bool {
    forall|i: int|
        0 <= i < key::key_fields(key::canonical(k)).len() ==> (#[trigger] key::key_fields(
            key::canonical(k),
        )[i]).fits()
}

proof fn artifact_readable(x: ArtifactFacts, p: Seq<Field>, y: ArtifactFacts, q: Seq<Field>)
    requires
        encoding::starts_without(p, key::ARTIFACT_ARCHIVE),
        encoding::starts_without(q, key::ARTIFACT_ARCHIVE),
        key::artifact_fields(x) + p == key::artifact_fields(y) + q,
    ensures
        x == y,
        p == q,
{
    let (e, d) = (key::artifact_fields(x) + p, key::artifact_fields(y) + q);
    assert(e[0] == encoding::text_field(key::ARTIFACT_ID, x.id));
    assert(d[0] == encoding::text_field(key::ARTIFACT_ID, y.id));
    assert(e[1] == encoding::text_field(key::ARTIFACT_URI, x.uri));
    assert(d[1] == encoding::text_field(key::ARTIFACT_URI, y.uri));
    encoding::text_field_injective(key::ARTIFACT_ID, x.id, y.id);
    encoding::text_field_injective(key::ARTIFACT_URI, x.uri, y.uri);
    if x.archive is Some {
        assert(e[2] == encoding::text_field(key::ARTIFACT_ARCHIVE, x.archive->0));
        if y.archive is None {
            assert(d.skip(2) =~= q);
            assert(d[2] == q[0]);
        } else {
            assert(d[2] == encoding::text_field(key::ARTIFACT_ARCHIVE, y.archive->0));
            encoding::text_field_injective(key::ARTIFACT_ARCHIVE, x.archive->0, y.archive->0);
            assert(e.skip(3) =~= p);
            assert(d.skip(3) =~= q);
        }
    } else if y.archive is Some {
        assert(d[2] == encoding::text_field(key::ARTIFACT_ARCHIVE, y.archive->0));
        assert(e.skip(2) =~= p);
        assert(e[2] == p[0]);
    } else {
        assert(e.skip(2) =~= p);
        assert(d.skip(2) =~= q);
    }
    assert(x =~= y);
}

proof fn artifacts_readable(
    a: Seq<ArtifactFacts>,
    r: Seq<Field>,
    b: Seq<ArtifactFacts>,
    s: Seq<Field>,
)
    requires
        encoding::starts_without(r, key::ARTIFACT_ID),
        encoding::starts_without(r, key::ARTIFACT_ARCHIVE),
        encoding::starts_without(s, key::ARTIFACT_ID),
        encoding::starts_without(s, key::ARTIFACT_ARCHIVE),
        key::artifact_list(a) + r == key::artifact_list(b) + s,
    ensures
        a == b,
        r == s,
{
    let fields = |x: ArtifactFacts| key::artifact_fields(x);
    assert forall|x: ArtifactFacts, p: Seq<Field>, y: ArtifactFacts, q: Seq<Field>|
        encoding::starts_without(p, key::ARTIFACT_ARCHIVE) && encoding::starts_without(
            q,
            key::ARTIFACT_ARCHIVE,
        ) && #[trigger] (fields(x) + p) == #[trigger] (fields(y) + q) implies x == y && p == q by {
        artifact_readable(x, p, y, q);
    }
    encoding::flat_injective(a, r, b, s, fields, key::ARTIFACT_ID, key::ARTIFACT_ARCHIVE);
}

proof fn destinations_readable(
    a: Seq<(Seq<char>, u32)>,
    r: Seq<Field>,
    b: Seq<(Seq<char>, u32)>,
    s: Seq<Field>,
)
    requires
        encoding::starts_without(r, key::DESTINATION),
        encoding::starts_without(r, key::MODE),
        encoding::starts_without(s, key::DESTINATION),
        encoding::starts_without(s, key::MODE),
        key::destination_list(a) + r == key::destination_list(b) + s,
    ensures
        a == b,
        r == s,
{
    let fields = |x: (Seq<char>, u32)| key::destination_fields(x);
    assert forall|x: (Seq<char>, u32), p: Seq<Field>, y: (Seq<char>, u32), q: Seq<Field>|
        #[trigger] (fields(x) + p) == #[trigger] (fields(y) + q) implies x == y && p == q by {
        let (e, d) = (fields(x) + p, fields(y) + q);
        assert(e[0] == encoding::text_field(key::DESTINATION, x.0));
        assert(d[0] == encoding::text_field(key::DESTINATION, y.0));
        assert(e[1] == encoding::number_field(key::MODE, x.1 as u64));
        assert(d[1] == encoding::number_field(key::MODE, y.1 as u64));
        encoding::text_field_injective(key::DESTINATION, x.0, y.0);
        encoding::number_field_injective(key::MODE, x.1 as u64, y.1 as u64);
        assert(e.skip(2) =~= p);
        assert(d.skip(2) =~= q);
    }
    encoding::flat_injective(a, r, b, s, fields, key::DESTINATION, key::MODE);
}

proof fn features_readable(a: Seq<Seq<char>>, r: Seq<Field>, b: Seq<Seq<char>>, s: Seq<Field>)
    requires
        encoding::starts_without(r, key::FEATURE),
        encoding::starts_without(s, key::FEATURE),
        encoding::starts_without(r, key::TARGET),
        encoding::starts_without(s, key::TARGET),
        key::feature_list(a) + r == key::feature_list(b) + s,
    ensures
        a == b,
        r == s,
{
    let fields = |x: Seq<char>| key::feature_fields(x);
    assert forall|x: Seq<char>, p: Seq<Field>, y: Seq<char>, q: Seq<Field>|
        #[trigger] (fields(x) + p) == #[trigger] (fields(y) + q) implies x == y && p == q by {
        let (e, d) = (fields(x) + p, fields(y) + q);
        assert(e[0] == encoding::text_field(key::FEATURE, x));
        assert(d[0] == encoding::text_field(key::FEATURE, y));
        encoding::text_field_injective(key::FEATURE, x, y);
        assert(e.skip(1) =~= p);
        assert(d.skip(1) =~= q);
    }
    encoding::flat_injective(a, r, b, s, fields, key::FEATURE, key::TARGET);
}

proof fn symlinks_readable(
    a: Seq<(Seq<char>, Seq<char>)>,
    r: Seq<Field>,
    b: Seq<(Seq<char>, Seq<char>)>,
    s: Seq<Field>,
)
    requires
        encoding::starts_without(r, key::SYMLINK),
        encoding::starts_without(s, key::SYMLINK),
        encoding::starts_without(r, key::TARGET),
        encoding::starts_without(s, key::TARGET),
        key::symlink_list(a) + r == key::symlink_list(b) + s,
    ensures
        a == b,
        r == s,
{
    let fields = |x: (Seq<char>, Seq<char>)| key::symlink_fields(x);
    assert forall|x: (Seq<char>, Seq<char>), p: Seq<Field>, y: (Seq<char>, Seq<char>), q: Seq<Field>|
        #[trigger] (fields(x) + p) == #[trigger] (fields(y) + q) implies x == y && p == q by {
        let (e, d) = (fields(x) + p, fields(y) + q);
        assert(e[0] == encoding::text_field(key::SYMLINK, x.0));
        assert(d[0] == encoding::text_field(key::SYMLINK, y.0));
        assert(e[1] == encoding::text_field(key::SYMLINK, x.1));
        assert(d[1] == encoding::text_field(key::SYMLINK, y.1));
        encoding::text_field_injective(key::SYMLINK, x.0, y.0);
        encoding::text_field_injective(key::SYMLINK, x.1, y.1);
        assert(e.skip(2) =~= p);
        assert(d.skip(2) =~= q);
    }
    encoding::flat_injective(a, r, b, s, fields, key::SYMLINK, key::TARGET);
}

spec fn after_channel(c: ComponentFacts, p: Seq<Field>) -> Seq<Field> {
    key::symlink_list(c.symlinks) + p
}

spec fn after_features(c: ComponentFacts, p: Seq<Field>) -> Seq<Field> {
    seq![encoding::optional_field(key::RUSTUP_CHANNEL, c.rustup_channel)] + after_channel(c, p)
}

spec fn after_crate_name(c: ComponentFacts, p: Seq<Field>) -> Seq<Field> {
    key::feature_list_fields(c.features) + after_features(c, p)
}

spec fn after_destinations(c: ComponentFacts, p: Seq<Field>) -> Seq<Field> {
    seq![encoding::optional_field(key::CRATE_NAME, c.crate_name)] + after_crate_name(c, p)
}

spec fn after_artifacts(c: ComponentFacts, p: Seq<Field>) -> Seq<Field> {
    key::destination_list(c.destinations) + after_destinations(c, p)
}

spec fn after_heading(c: ComponentFacts, p: Seq<Field>) -> Seq<Field> {
    key::artifact_list(c.artifacts) + after_artifacts(c, p)
}

proof fn component_reads_in_stages(c: ComponentFacts, p: Seq<Field>)
    ensures
        key::component_fields(c) + p == key::heading_fields(c) + after_heading(c, p),
{
    assert(key::component_fields(c) + p =~= key::heading_fields(c) + after_heading(c, p));
}

proof fn after_artifacts_starts(c: ComponentFacts, p: Seq<Field>)
    ensures
        after_artifacts(c, p).len() > 0,
        after_artifacts(c, p)[0].tag() == key::DESTINATION || after_artifacts(c, p)[0].tag()
            == key::CRATE_NAME,
{
    if c.destinations.len() == 0 {
        assert(after_artifacts(c, p) =~= after_destinations(c, p));
    } else {
        let d = c.destinations[0];
        assert(after_artifacts(c, p)[0] == key::destination_fields(d)[0]);
    }
}

proof fn features_agree(
    a: Option<Seq<Seq<char>>>,
    r: Seq<Field>,
    b: Option<Seq<Seq<char>>>,
    s: Seq<Field>,
)
    requires
        r.len() > 0,
        r[0].tag() == key::RUSTUP_CHANNEL,
        s.len() > 0,
        s[0].tag() == key::RUSTUP_CHANNEL,
        key::feature_list_fields(a) + r == key::feature_list_fields(b) + s,
    ensures
        a == b,
        r == s,
{
    let (e, d) = (key::feature_list_fields(a) + r, key::feature_list_fields(b) + s);
    let marker = encoding::text_field(key::FEATURE, Seq::empty());
    assert(e[0] == (if a is Some { marker } else { Field::Absent { tag: key::FEATURE } }));
    assert(d[0] == (if b is Some { marker } else { Field::Absent { tag: key::FEATURE } }));
    if a is Some {
        assert(e.skip(1) =~= key::feature_list(a->0) + r);
        assert(d.skip(1) =~= key::feature_list(b->0) + s);
        features_readable(a->0, r, b->0, s);
    } else {
        assert(e.skip(1) =~= r);
        assert(d.skip(1) =~= s);
    }
}

proof fn component_readable(x: ComponentFacts, p: Seq<Field>, y: ComponentFacts, q: Seq<Field>)
    requires
        encoding::starts_without(p, key::SYMLINK),
        encoding::starts_without(q, key::SYMLINK),
        encoding::starts_without(p, key::TARGET),
        encoding::starts_without(q, key::TARGET),
        key::component_fields(x) + p == key::component_fields(y) + q,
    ensures
        x == y,
        p == q,
{
    component_reads_in_stages(x, p);
    component_reads_in_stages(y, q);
    let (e, d) = (
        key::heading_fields(x) + after_heading(x, p),
        key::heading_fields(y) + after_heading(y, q),
    );
    assert(e[0] == key::heading_fields(x)[0] && d[0] == key::heading_fields(y)[0]);
    assert(e[1] == key::heading_fields(x)[1] && d[1] == key::heading_fields(y)[1]);
    assert(e[2] == key::heading_fields(x)[2] && d[2] == key::heading_fields(y)[2]);
    assert(e[3] == key::heading_fields(x)[3] && d[3] == key::heading_fields(y)[3]);
    encoding::text_field_injective(key::COMPONENT, x.name, y.name);
    encoding::text_field_injective(key::AUTHORITY, x.authority, y.authority);
    encoding::text_field_injective(key::KIND, x.kind, y.kind);
    encoding::text_field_injective(key::METHOD, x.installation_method, y.installation_method);
    assert(e.skip(4) =~= after_heading(x, p));
    assert(d.skip(4) =~= after_heading(y, q));
    after_artifacts_starts(x, p);
    after_artifacts_starts(y, q);
    artifacts_readable(x.artifacts, after_artifacts(x, p), y.artifacts, after_artifacts(y, q));
    assert(after_destinations(x, p)[0].tag() == key::CRATE_NAME);
    assert(after_destinations(y, q)[0].tag() == key::CRATE_NAME);
    destinations_readable(
        x.destinations,
        after_destinations(x, p),
        y.destinations,
        after_destinations(y, q),
    );
    let (e, d) = (after_destinations(x, p), after_destinations(y, q));
    assert(e[0] == encoding::optional_field(key::CRATE_NAME, x.crate_name));
    assert(d[0] == encoding::optional_field(key::CRATE_NAME, y.crate_name));
    encoding::optional_field_injective(key::CRATE_NAME, x.crate_name, y.crate_name);
    assert(e.skip(1) =~= after_crate_name(x, p));
    assert(d.skip(1) =~= after_crate_name(y, q));
    let (e, d) = (after_features(x, p), after_features(y, q));
    assert(e[0] == encoding::optional_field(key::RUSTUP_CHANNEL, x.rustup_channel));
    assert(d[0] == encoding::optional_field(key::RUSTUP_CHANNEL, y.rustup_channel));
    features_agree(x.features, e, y.features, d);
    encoding::optional_field_injective(key::RUSTUP_CHANNEL, x.rustup_channel, y.rustup_channel);
    assert(e.skip(1) =~= after_channel(x, p));
    assert(d.skip(1) =~= after_channel(y, q));
    symlinks_readable(x.symlinks, p, y.symlinks, q);
    assert(x =~= y);
}

proof fn component_begins(x: ComponentFacts)
    ensures
        key::component_fields(x).len() > 0,
        key::component_fields(x)[0].tag() == key::COMPONENT,
{
    component_reads_in_stages(x, Seq::empty());
    assert(key::component_fields(x) + Seq::<Field>::empty() =~= key::component_fields(x));
}

proof fn components_readable(a: Seq<ComponentFacts>, b: Seq<ComponentFacts>)
    requires
        key::component_list(a) == key::component_list(b),
    ensures
        a == b,
    decreases a.len(),
{
    if a.len() == 0 || b.len() == 0 {
        if a.len() > 0 {
            component_begins(a[0]);
        }
        if b.len() > 0 {
            component_begins(b[0]);
        }
        assert(a =~= b);
    } else {
        let (p, q) = (key::component_list(a.drop_first()), key::component_list(b.drop_first()));
        if a.len() > 1 {
            component_begins(a.drop_first()[0]);
            assert(p[0] == key::component_fields(a.drop_first()[0])[0]);
        }
        if b.len() > 1 {
            component_begins(b.drop_first()[0]);
            assert(q[0] == key::component_fields(b.drop_first()[0])[0]);
        }
        component_readable(a[0], p, b[0], q);
        components_readable(a.drop_first(), b.drop_first());
        assert(a =~= seq![a[0]] + a.drop_first());
        assert(b =~= seq![b[0]] + b.drop_first());
    }
}

/// Two inputs encode alike exactly where they agree once every collection is sorted: no value can
/// run over into its neighbour, and nothing absent looks like something empty. So changing any
/// material input changes what the digest is taken of.
pub proof fn encodings_tell_inputs_apart(a: KeyFacts, b: KeyFacts)
    requires
        fits(a),
        fits(b),
    ensures
        key::encoding(a) == key::encoding(b) <==> key::canonical(a) == key::canonical(b),
{
    if key::encoding(a) == key::encoding(b) {
        let (c, d) = (key::canonical(a), key::canonical(b));
        let (e, f) = (key::key_fields(c), key::key_fields(d));
        encoding::encoding_is_injective(e, f);
        assert(e[0] == encoding::text_field(key::TARGET, c.target));
        assert(f[0] == encoding::text_field(key::TARGET, d.target));
        encoding::text_field_injective(key::TARGET, c.target, d.target);
        assert(e.skip(1) =~= key::component_list(c.components));
        assert(f.skip(1) =~= key::component_list(d.components));
        components_readable(c.components, d.components);
    }
}

proof fn canonical_only_sorts(c: ComponentFacts)
    ensures
        rearranged_component(key::canonical_component(c), c),
{
    order::items_are_ordered::<ArtifactInput>();
    order::items_are_ordered::<(String, u32)>();
    order::items_are_ordered::<(String, String)>();
    order::items_are_ordered::<String>();
    order::sorting_orders(
        c.artifacts,
        |x: ArtifactFacts, y: ArtifactFacts| <ArtifactInput as Ordered>::leq(x, y),
    );
    order::sorting_orders(
        c.destinations,
        |x: (Seq<char>, u32), y: (Seq<char>, u32)| <(String, u32) as Ordered>::leq(x, y),
    );
    order::sorting_orders(
        c.symlinks,
        |x: (Seq<char>, Seq<char>), y: (Seq<char>, Seq<char>)|
            <(String, String) as Ordered>::leq(x, y),
    );
    if c.features is Some {
        order::sorting_orders(
            c.features->0,
            |x: Seq<char>, y: Seq<char>| <String as Ordered>::leq(x, y),
        );
    }
}

proof fn sorted_members(components: Seq<ComponentFacts>, x: ComponentFacts)
    ensures
        order::sorted_items::<ComponentInputs>(components).len() == components.len(),
        order::sorted_items::<ComponentInputs>(components).contains(x) <==> components.contains(x),
{
    broadcast use vstd::seq_lib::group_to_multiset_ensures;

    let leq = |x: ComponentFacts, y: ComponentFacts| <ComponentInputs as Ordered>::leq(x, y);
    order::items_are_ordered::<ComponentInputs>();
    order::sorting_orders(components, leq);
    let s = order::sorted(components, leq);
    assert(s.to_multiset().count(x) > 0 <==> s.contains(x));
    assert(components.to_multiset().count(x) > 0 <==> components.contains(x));
}

/// Every material input enters the key: inputs that encode alike are for the same target, have the same
/// number of components, and of every component on one side the other has one that agrees with it in
/// all that it declares, but for the order inside its collections.
pub proof fn every_material_input_enters_the_key(a: KeyFacts, b: KeyFacts, i: int)
    requires
        fits(a),
        fits(b),
        key::encoding(a) == key::encoding(b),
    ensures
        a.target == b.target,
        a.components.len() == b.components.len(),
        0 <= i < a.components.len() ==> exists|j: int|
            0 <= j < b.components.len() && rearranged_component(
                a.components[i],
                #[trigger] b.components[j],
            ),
{
    encodings_tell_inputs_apart(a, b);
    let (p, q) = (
        order::sorted_items::<ComponentInputs>(a.components),
        order::sorted_items::<ComponentInputs>(b.components),
    );
    let (c, d) = (key::canonical(a).components, key::canonical(b).components);
    assert(c == d);
    assert(c.len() == p.len() && d.len() == q.len());
    sorted_members(a.components, arbitrary());
    sorted_members(b.components, arbitrary());
    if 0 <= i < a.components.len() {
        let x = a.components[i];
        sorted_members(a.components, x);
        assert(a.components.contains(x));
        let k = choose|k: int| 0 <= k < p.len() && p[k] == x;
        let y = q[k];
        sorted_members(b.components, y);
        assert(q.contains(y));
        let j = choose|j: int| 0 <= j < b.components.len() && b.components[j] == y;
        assert(c[k] == key::canonical_component(x));
        assert(d[k] == key::canonical_component(y));
        canonical_only_sorts(x);
        canonical_only_sorts(y);
        assert(rearranged_component(x, b.components[j]));
    }
}

/// Two keys are equal exactly where the digests are.
pub proof fn keys_agree_where_digests_do(a: KeyFacts, b: KeyFacts)
    ensures
        key::key_of(a) == key::key_of(b) <==> key::sha256(key::encoding(a)) == key::sha256(
            key::encoding(b),
        ),
{
    if key::key_of(a) == key::key_of(b) {
        let (x, y) = (key::sha256(key::encoding(a)), key::sha256(key::encoding(b)));
        let n = PlanKey::PREFIX@.len() as int;
        assert(key::key_of(a).skip(n) =~= text::hex(x));
        assert(key::key_of(b).skip(n) =~= text::hex(y));
        text::hex_injective(x, y);
    }
}

/// Every computed key carries the algorithm's prefix, so it can be read back.
pub proof fn computed_keys_carry_the_prefix(k: KeyFacts)
    ensures
        text::begins_with(key::key_of(k), PlanKey::PREFIX@),
{
    assert(key::key_of(k).take(PlanKey::PREFIX@.len() as int) =~= PlanKey::PREFIX@);
}

} // verus!
