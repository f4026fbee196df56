//! A canonical digest over the material inputs of an installation.
//!
//! The key is diagnostic metadata. It names nothing on disk, and two equal keys do not imply two
//! equal directory trees. What it tells is whether the inputs to an installation changed.
//!
//! Fields are written in a fixed order with explicit length prefixes, so no concatenation of
//! values can be confused for a different set of values. Collections are sorted by a declared
//! order, so the arrangement of the input cannot change the result. Absent and empty are encoded
//! distinctly.
//!
//! The `pk1:` prefix versions the algorithm: a key without it is unknown, not merely different.

use vstd::prelude::*;
use sha2::Digest;

use crate::order;
use crate::order::Ordered;
use crate::plan::encoding;
use crate::plan::encoding::{Encoder, Field};
use crate::text;

verus! {

/// Field tags. They are part of the encoding, so they are never renumbered, only appended to.
pub const TARGET: u8 = 1;

pub const COMPONENT: u8 = 2;

pub const AUTHORITY: u8 = 3;

pub const KIND: u8 = 4;

pub const METHOD: u8 = 5;

pub const ARTIFACT_ID: u8 = 6;

pub const ARTIFACT_URI: u8 = 7;

pub const DESTINATION: u8 = 8;

pub const MODE: u8 = 9;

pub const CRATE_NAME: u8 = 10;

pub const FEATURE: u8 = 11;

pub const RUSTUP_CHANNEL: u8 = 12;

pub const SYMLINK: u8 = 13;

/// Emitted only for an artifact declaring an archive, so an unarchived one encodes exactly as it
/// does without this tag.
pub const ARTIFACT_ARCHIVE: u8 = 14;

/// One artifact as the key sees it.
#[derive(Debug, Clone, PartialEq, Eq, PartialOrd, Ord)]
pub struct ArtifactInput {
    pub id: String,
    /// Fully substituted for the target being planned.
    pub uri: String,
    /// The format it is packaged in, if any.
    pub archive: Option<String>,
}

/// One component's contribution to the key.
///
/// Every field here is material: changing it changes a byte on disk.
#[derive(Debug, Clone)]
pub struct ComponentInputs {
    pub name: String,
    /// Fully pinned: a git branch must already be resolved to a commit.
    pub authority: String,
    pub kind: String,
    pub installation_method: String,
    /// Every artifact this component installs, in any order.
    pub artifacts: Vec<ArtifactInput>,
    /// `(exact destination path, file mode)`, in any order.
    pub destinations: Vec<(String, u32)>,
    pub crate_name: Option<String>,
    pub features: Option<Vec<String>>,
    pub rustup_channel: Option<String>,
    /// `(symlink name, target binary)`, in any order.
    pub symlinks: Vec<(String, String)>,
}

/// Everything a plan key is computed over.
#[derive(Debug, Clone)]
pub struct KeyInputs {
    pub target: String,
    pub components: Vec<ComponentInputs>,
}

/// What an [`ArtifactInput`] holds.
#[verifier::ext_equal]
pub struct ArtifactFacts {
    pub id: Seq<char>,
    pub uri: Seq<char>,
    pub archive: Option<Seq<char>>,
}

/// What a [`ComponentInputs`] holds.
#[verifier::ext_equal]
pub struct ComponentFacts {
    pub name: Seq<char>,
    pub authority: Seq<char>,
    pub kind: Seq<char>,
    pub installation_method: Seq<char>,
    pub artifacts: Seq<ArtifactFacts>,
    pub destinations: Seq<(Seq<char>, u32)>,
    pub crate_name: Option<Seq<char>>,
    pub features: Option<Seq<Seq<char>>>,
    pub rustup_channel: Option<Seq<char>>,
    pub symlinks: Seq<(Seq<char>, Seq<char>)>,
}

/// What a [`KeyInputs`] holds.
#[verifier::ext_equal]
pub struct KeyFacts {
    pub target: Seq<char>,
    pub components: Seq<ComponentFacts>,
}

impl DeepView for ArtifactInput {
    type V = ArtifactFacts;

    open spec fn deep_view(&self) -> ArtifactFacts {
        ArtifactFacts {
            id: self.id@,
            uri: self.uri@,
            archive: self.archive.deep_view(),
        }
    }
}

impl DeepView for ComponentInputs {
    type V = ComponentFacts;

    open spec fn deep_view(&self) -> ComponentFacts {
        ComponentFacts {
            name: self.name@,
            authority: self.authority@,
            kind: self.kind@,
            installation_method: self.installation_method@,
            artifacts: self.artifacts.deep_view(),
            destinations: self.destinations.deep_view(),
            crate_name: self.crate_name.deep_view(),
            features: self.features.deep_view(),
            rustup_channel: self.rustup_channel.deep_view(),
            symlinks: self.symlinks.deep_view(),
        }
    }
}

impl DeepView for KeyInputs {
    type V = KeyFacts;

    open spec fn deep_view(&self) -> KeyFacts {
        KeyFacts { target: self.target@, components: self.components.deep_view() }
    }
}

impl Default for ComponentInputs {
    fn default() -> (r: Self)
        ensures
            r.deep_view() == (ComponentFacts {
                name: Seq::empty(),
                authority: Seq::empty(),
                kind: Seq::empty(),
                installation_method: Seq::empty(),
                artifacts: Seq::empty(),
                destinations: Seq::empty(),
                crate_name: None,
                features: None,
                rustup_channel: None,
                symlinks: Seq::empty(),
            }),
    {
        let r = ComponentInputs {
            name: String::new(),
            authority: String::new(),
            kind: String::new(),
            installation_method: String::new(),
            artifacts: Vec::new(),
            destinations: Vec::new(),
            crate_name: None,
            features: None,
            rustup_channel: None,
            symlinks: Vec::new(),
        };
        proof {
            assert(r.artifacts.deep_view() =~= Seq::empty());
            assert(r.destinations.deep_view() =~= Seq::empty());
            assert(r.symlinks.deep_view() =~= Seq::empty());
        }
        r
    }
}

impl Default for KeyInputs {
    fn default() -> (r: Self)
        ensures
            r.deep_view() == (KeyFacts { target: Seq::empty(), components: Seq::empty() }),
    {
        let r = KeyInputs { target: String::new(), components: Vec::new() };
        assert(r.components.deep_view() =~= Seq::empty());
        r
    }
}

// ---------------------------------------------------------------------------------------------
// The declared orders

/// Pairs of texts: by the first, then by the second.
pub open spec fn pair_at_most(a: (Seq<char>, Seq<char>), b: (Seq<char>, Seq<char>)) -> bool {
    text::precedes(a.0, b.0) || (a.0 == b.0 && text::at_most(a.1, b.1))
}

/// Destinations: by path, then by mode.
pub open spec fn destination_at_most(a: (Seq<char>, u32), b: (Seq<char>, u32)) -> bool {
    text::precedes(a.0, b.0) || (a.0 == b.0 && a.1 <= b.1)
}

/// Optional texts: absent first, then by the text.
pub open spec fn optional_at_most(a: Option<Seq<char>>, b: Option<Seq<char>>) -> bool {
    match (a, b) {
        (None, _) => true,
        (Some(_), None) => false,
        (Some(x), Some(y)) => text::at_most(x, y),
    }
}

/// Artifacts: by id, then by URI, then by archive format.
pub open spec fn artifact_at_most(a: ArtifactFacts, b: ArtifactFacts) -> bool {
    text::precedes(a.id, b.id) || (a.id == b.id && (text::precedes(a.uri, b.uri) || (a.uri == b.uri
        && optional_at_most(a.archive, b.archive))))
}

/// What a component is ordered by: its name, and the hexadecimal text of its encoding.
pub open spec fn component_rank(c: ComponentFacts) -> (Seq<char>, Seq<char>) {
    (c.name, text::hex(component_encoding(c)))
}

/// Components: by name, then by everything else that the encoding holds of them.
pub open spec fn component_at_most(a: ComponentFacts, b: ComponentFacts) -> bool {
    pair_at_most(component_rank(a), component_rank(b))
}

impl Ordered for (String, String) {
    open spec fn leq(a: (Seq<char>, Seq<char>), b: (Seq<char>, Seq<char>)) -> bool {
        pair_at_most(a, b)
    }

    proof fn leq_total(a: (Seq<char>, Seq<char>), b: (Seq<char>, Seq<char>)) {
        text::precedes_total(a.0, b.0);
        text::precedes_total(a.1, b.1);
    }

    proof fn leq_transitive(
        a: (Seq<char>, Seq<char>),
        b: (Seq<char>, Seq<char>),
        c: (Seq<char>, Seq<char>),
    ) {
        if text::precedes(a.0, b.0) && text::precedes(b.0, c.0) {
            text::precedes_transitive(a.0, b.0, c.0);
        }
        if text::at_most(a.1, b.1) && text::at_most(b.1, c.1) {
            text::at_most_transitive(a.1, b.1, c.1);
        }
    }

    fn may_precede(&self, other: &Self) -> bool {
        proof {
            text::precedes_total(self.0@, other.0@);
            text::precedes_total(self.1@, other.1@);
        }
        match text::compare(self.0.as_str(), other.0.as_str()) {
            text::Order::Less => true,
            text::Order::Greater => false,
            text::Order::Equal => self.1.may_precede(&other.1),
        }
    }
}

impl Ordered for (String, u32) {
    open spec fn leq(a: (Seq<char>, u32), b: (Seq<char>, u32)) -> bool {
        destination_at_most(a, b)
    }

    proof fn leq_total(a: (Seq<char>, u32), b: (Seq<char>, u32)) {
        text::precedes_total(a.0, b.0);
    }

    proof fn leq_transitive(a: (Seq<char>, u32), b: (Seq<char>, u32), c: (Seq<char>, u32)) {
        if text::precedes(a.0, b.0) && text::precedes(b.0, c.0) {
            text::precedes_transitive(a.0, b.0, c.0);
        }
    }

    fn may_precede(&self, other: &Self) -> bool {
        proof {
            text::precedes_total(self.0@, other.0@);
        }
        match text::compare(self.0.as_str(), other.0.as_str()) {
            text::Order::Less => true,
            text::Order::Greater => false,
            text::Order::Equal => self.1 <= other.1,
        }
    }
}

impl Ordered for ArtifactInput {
    open spec fn leq(a: ArtifactFacts, b: ArtifactFacts) -> bool {
        artifact_at_most(a, b)
    }

    proof fn leq_total(a: ArtifactFacts, b: ArtifactFacts) {
        text::precedes_total(a.id, b.id);
        text::precedes_total(a.uri, b.uri);
        if a.archive is Some && b.archive is Some {
            text::precedes_total(a.archive->0, b.archive->0);
        }
    }

    proof fn leq_transitive(a: ArtifactFacts, b: ArtifactFacts, c: ArtifactFacts) {
        if text::precedes(a.id, b.id) && text::precedes(b.id, c.id) {
            text::precedes_transitive(a.id, b.id, c.id);
        }
        if text::precedes(a.uri, b.uri) && text::precedes(b.uri, c.uri) {
            text::precedes_transitive(a.uri, b.uri, c.uri);
        }
        if a.archive is Some && b.archive is Some && c.archive is Some && text::at_most(
            a.archive->0,
            b.archive->0,
        ) && text::at_most(b.archive->0, c.archive->0) {
            text::at_most_transitive(a.archive->0, b.archive->0, c.archive->0);
        }
    }

    fn may_precede(&self, other: &Self) -> bool {
        proof {
            text::precedes_total(self.id@, other.id@);
            text::precedes_total(self.uri@, other.uri@);
        }
        match text::compare(self.id.as_str(), other.id.as_str()) {
            text::Order::Less => return true,
            text::Order::Greater => return false,
            text::Order::Equal => {},
        }
        match text::compare(self.uri.as_str(), other.uri.as_str()) {
            text::Order::Less => return true,
            text::Order::Greater => return false,
            text::Order::Equal => {},
        }
        match (&self.archive, &other.archive) {
            (None, _) => true,
            (Some(_), None) => false,
            (Some(x), Some(y)) => x.may_precede(y),
        }
    }
}

impl Ordered for ComponentInputs {
    open spec fn leq(a: ComponentFacts, b: ComponentFacts) -> bool {
        component_at_most(a, b)
    }

    proof fn leq_total(a: ComponentFacts, b: ComponentFacts) {
        <(String, String) as Ordered>::leq_total(component_rank(a), component_rank(b));
    }

    proof fn leq_transitive(a: ComponentFacts, b: ComponentFacts, c: ComponentFacts) {
        <(String, String) as Ordered>::leq_transitive(
            component_rank(a),
            component_rank(b),
            component_rank(c),
        );
    }

    fn may_precede(&self, other: &Self) -> bool {
        proof {
            text::precedes_total(self.name@, other.name@);
        }
        match text::compare(self.name.as_str(), other.name.as_str()) {
            text::Order::Less => true,
            text::Order::Greater => false,
            text::Order::Equal => encoding_text(self).may_precede(&encoding_text(other)),
        }
    }
}

// ---------------------------------------------------------------------------------------------
// The encoding

/// `c` with each of its collections in its declared order.
pub open spec fn canonical_component(c: ComponentFacts) -> ComponentFacts {
    ComponentFacts {
        artifacts: order::sorted_items::<ArtifactInput>(c.artifacts),
        destinations: order::sorted_items::<(String, u32)>(c.destinations),
        features: match c.features {
            Some(features) => Some(order::sorted_items::<String>(features)),
            None => None,
        },
        symlinks: order::sorted_items::<(String, String)>(c.symlinks),
        ..c
    }
}

/// `k` with its components sorted, and each component canonical.
pub open spec fn canonical(k: KeyFacts) -> KeyFacts {
    KeyFacts {
        target: k.target,
        components: order::sorted_items::<ComponentInputs>(k.components).map_values(
            |c: ComponentFacts| canonical_component(c),
        ),
    }
}

/// The fields of one artifact. An absent archive emits nothing at all.
pub open spec fn artifact_fields(a: ArtifactFacts) -> Seq<Field> {
    let named = seq![
        encoding::text_field(ARTIFACT_ID, a.id),
        encoding::text_field(ARTIFACT_URI, a.uri),
    ];
    match a.archive {
        Some(archive) => named.push(encoding::text_field(ARTIFACT_ARCHIVE, archive)),
        None => named,
    }
}

/// The fields of all artifacts.
pub open spec fn artifact_list(artifacts: Seq<ArtifactFacts>) -> Seq<Field> {
    encoding::flat(artifacts, |a: ArtifactFacts| artifact_fields(a))
}

/// The fields of one destination.
pub open spec fn destination_fields(d: (Seq<char>, u32)) -> Seq<Field> {
    seq![encoding::text_field(DESTINATION, d.0), encoding::number_field(MODE, d.1 as u64)]
}

/// The fields of all destinations.
pub open spec fn destination_list(destinations: Seq<(Seq<char>, u32)>) -> Seq<Field> {
    encoding::flat(destinations, |d: (Seq<char>, u32)| destination_fields(d))
}

/// The field of one feature.
pub open spec fn feature_fields(feature: Seq<char>) -> Seq<Field> {
    seq![encoding::text_field(FEATURE, feature)]
}

/// The fields of all features.
pub open spec fn feature_list(features: Seq<Seq<char>>) -> Seq<Field> {
    encoding::flat(features, |f: Seq<char>| feature_fields(f))
}

/// The fields of one symlink.
pub open spec fn symlink_fields(link: (Seq<char>, Seq<char>)) -> Seq<Field> {
    seq![encoding::text_field(SYMLINK, link.0), encoding::text_field(SYMLINK, link.1)]
}

/// The fields of all symlinks.
pub open spec fn symlink_list(symlinks: Seq<(Seq<char>, Seq<char>)>) -> Seq<Field> {
    encoding::flat(symlinks, |l: (Seq<char>, Seq<char>)| symlink_fields(l))
}

/// The fields of the feature list: a marker that tells whether there is one, and its features.
pub open spec fn feature_list_fields(features: Option<Seq<Seq<char>>>) -> Seq<Field> {
    match features {
        Some(features) => seq![encoding::text_field(FEATURE, Seq::empty())] + feature_list(features),
        None => seq![Field::Absent { tag: FEATURE }],
    }
}

/// The fields at the front of a component.
pub open spec fn heading_fields(c: ComponentFacts) -> Seq<Field> {
    seq![
        encoding::text_field(COMPONENT, c.name),
        encoding::text_field(AUTHORITY, c.authority),
        encoding::text_field(KIND, c.kind),
        encoding::text_field(METHOD, c.installation_method),
    ]
}

/// The fields of one component, its collections in the order in which they stand.
pub open spec fn component_fields(c: ComponentFacts) -> Seq<Field> {
    heading_fields(c) + artifact_list(c.artifacts) + destination_list(c.destinations) + seq![
        encoding::optional_field(CRATE_NAME, c.crate_name),
    ] + feature_list_fields(c.features) + seq![
        encoding::optional_field(RUSTUP_CHANNEL, c.rustup_channel),
    ] + symlink_list(c.symlinks)
}

/// The bytes that one component is encoded as, whatever the order inside its collections.
pub open spec fn component_encoding(c: ComponentFacts) -> Seq<u8> {
    encoding::encoded(component_fields(canonical_component(c)))
}

/// The fields of all components.
pub open spec fn component_list(components: Seq<ComponentFacts>) -> Seq<Field> {
    encoding::flat(components, |c: ComponentFacts| component_fields(c))
}

/// The fields of a whole input, everything in the order in which it stands.
pub open spec fn key_fields(k: KeyFacts) -> Seq<Field> {
    seq![encoding::text_field(TARGET, k.target)] + component_list(k.components)
}

/// The bytes that a key is the digest of.
pub open spec fn encoding(k: KeyFacts) -> Seq<u8> {
    encoding::encoded(key_fields(canonical(k)))
}

/// SHA-256 of a byte string.
pub uninterp spec fn sha256(bytes: Seq<u8>) -> Seq<u8>;

/// `sha2::Sha256::digest`: the thirty-two bytes of the SHA-256 digest of `bytes`.
#[verifier::external_body]
fn sha256_digest(bytes: &[u8]) -> (digest: Vec<u8>)
    ensures
        digest@ == sha256(bytes@),
        digest@.len() == 32,
{
    sha2::Sha256::digest(bytes).to_vec()
}

fn write_artifacts(encoder: &mut Encoder, artifacts: &Vec<ArtifactInput>)
    ensures
        final(encoder)@ == old(encoder)@ + encoding::encoded(
            artifact_list(order::sorted_items::<ArtifactInput>(artifacts.deep_view())),
        ),
{
    let indices = order::sort(artifacts);
    let ghost all = order::arranged(artifacts.deep_view(), indices@);
    let ghost start = encoder@;
    let mut i: usize = 0;
    proof {
        assert(artifact_list(all.take(0)) =~= Seq::empty());
        encoding::written_none(start);
    }
    while i < indices.len()
        invariant
            i <= indices@.len(),
            all == order::arranged(artifacts.deep_view(), indices@),
            forall|k: int| 0 <= k < indices@.len() ==> (#[trigger] indices@[k]) < artifacts@.len(),
            encoder@ == start + encoding::encoded(artifact_list(all.take(i as int))),
        decreases indices.len() - i,
    {
        let item = &artifacts[indices[i]];
        let ghost done = artifact_list(all.take(i as int));
        let ghost v = item.deep_view();
        encoder.text(ARTIFACT_ID, item.id.as_str());
        encoder.text(ARTIFACT_URI, item.uri.as_str());
        let ghost id = encoding::text_field(ARTIFACT_ID, v.id);
        let ghost uri = encoding::text_field(ARTIFACT_URI, v.uri);
        proof {
            encoding::written_one(start, done, id);
            encoding::written_one(start, done + seq![id], uri);
        }
        if let Some(archive) = &item.archive {
            encoder.text(ARTIFACT_ARCHIVE, archive.as_str());
            proof {
                encoding::written_one(
                    start,
                    done + seq![id] + seq![uri],
                    encoding::text_field(ARTIFACT_ARCHIVE, archive@),
                );
            }
        }
        proof {
            assert(all[i as int] == v);
            assert(all.take(i + 1) =~= all.take(i as int).push(v));
            encoding::flat_push(all.take(i as int), v, |x: ArtifactFacts| artifact_fields(x));
            if v.archive is Some {
                let archive = encoding::text_field(ARTIFACT_ARCHIVE, v.archive->0);
                assert(done + seq![id] + seq![uri] + seq![archive] =~= done + artifact_fields(v));
            } else {
                assert(done + seq![id] + seq![uri] =~= done + artifact_fields(v));
            }
        }
        i += 1;
    }
    assert(all.take(i as int) =~= all);
}

fn write_destinations(encoder: &mut Encoder, destinations: &Vec<(String, u32)>)
    ensures
        final(encoder)@ == old(encoder)@ + encoding::encoded(
            destination_list(order::sorted_items::<(String, u32)>(destinations.deep_view())),
        ),
{
    let indices = order::sort(destinations);
    let ghost all = order::arranged(destinations.deep_view(), indices@);
    let ghost start = encoder@;
    let mut i: usize = 0;
    proof {
        assert(destination_list(all.take(0)) =~= Seq::empty());
        encoding::written_none(start);
    }
    while i < indices.len()
        invariant
            i <= indices@.len(),
            all == order::arranged(destinations.deep_view(), indices@),
            forall|k: int| 0 <= k < indices@.len() ==> (#[trigger] indices@[k]) < destinations@.len(),
            encoder@ == start + encoding::encoded(destination_list(all.take(i as int))),
        decreases indices.len() - i,
    {
        let item = &destinations[indices[i]];
        let ghost done = destination_list(all.take(i as int));
        let ghost v = item.deep_view();
        encoder.text(DESTINATION, item.0.as_str());
        encoder.number(MODE, item.1 as u64);
        proof {
            assert(all[i as int] == v);
            assert(all.take(i + 1) =~= all.take(i as int).push(v));
            encoding::flat_push(all.take(i as int), v, |x: (Seq<char>, u32)| destination_fields(x));
            let path = encoding::text_field(DESTINATION, v.0);
            let mode = encoding::number_field(MODE, v.1 as u64);
            encoding::written_one(start, done, path);
            encoding::written_one(start, done + seq![path], mode);
            assert(done + seq![path] + seq![mode] =~= done + destination_fields(v));
        }
        i += 1;
    }
    assert(all.take(i as int) =~= all);
}

fn write_features(encoder: &mut Encoder, features: &Vec<String>)
    ensures
        final(encoder)@ == old(encoder)@ + encoding::encoded(
            feature_list(order::sorted_items::<String>(features.deep_view())),
        ),
{
    let indices = order::sort(features);
    let ghost all = order::arranged(features.deep_view(), indices@);
    let ghost start = encoder@;
    let mut i: usize = 0;
    proof {
        assert(feature_list(all.take(0)) =~= Seq::empty());
        encoding::written_none(start);
    }
    while i < indices.len()
        invariant
            i <= indices@.len(),
            all == order::arranged(features.deep_view(), indices@),
            forall|k: int| 0 <= k < indices@.len() ==> (#[trigger] indices@[k]) < features@.len(),
            encoder@ == start + encoding::encoded(feature_list(all.take(i as int))),
        decreases indices.len() - i,
    {
        let item = &features[indices[i]];
        let ghost done = feature_list(all.take(i as int));
        let ghost v = item.deep_view();
        encoder.text(FEATURE, item.as_str());
        proof {
            assert(all[i as int] == v);
            assert(all.take(i + 1) =~= all.take(i as int).push(v));
            encoding::flat_push(all.take(i as int), v, |x: Seq<char>| feature_fields(x));
            encoding::written_one(start, done, encoding::text_field(FEATURE, v));
            assert(seq![encoding::text_field(FEATURE, v)] =~= feature_fields(v));
        }
        i += 1;
    }
    assert(all.take(i as int) =~= all);
}

fn write_symlinks(encoder: &mut Encoder, symlinks: &Vec<(String, String)>)
    ensures
        final(encoder)@ == old(encoder)@ + encoding::encoded(
            symlink_list(order::sorted_items::<(String, String)>(symlinks.deep_view())),
        ),
{
    let indices = order::sort(symlinks);
    let ghost all = order::arranged(symlinks.deep_view(), indices@);
    let ghost start = encoder@;
    let mut i: usize = 0;
    proof {
        assert(symlink_list(all.take(0)) =~= Seq::empty());
        encoding::written_none(start);
    }
    while i < indices.len()
        invariant
            i <= indices@.len(),
            all == order::arranged(symlinks.deep_view(), indices@),
            forall|k: int| 0 <= k < indices@.len() ==> (#[trigger] indices@[k]) < symlinks@.len(),
            encoder@ == start + encoding::encoded(symlink_list(all.take(i as int))),
        decreases indices.len() - i,
    {
        let item = &symlinks[indices[i]];
        let ghost done = symlink_list(all.take(i as int));
        let ghost v = item.deep_view();
        encoder.text(SYMLINK, item.0.as_str());
        encoder.text(SYMLINK, item.1.as_str());
        proof {
            assert(all[i as int] == v);
            assert(all.take(i + 1) =~= all.take(i as int).push(v));
            encoding::flat_push(all.take(i as int), v, |x: (Seq<char>, Seq<char>)| symlink_fields(x));
            let name = encoding::text_field(SYMLINK, v.0);
            let target = encoding::text_field(SYMLINK, v.1);
            encoding::written_one(start, done, name);
            encoding::written_one(start, done + seq![name], target);
            assert(done + seq![name] + seq![target] =~= done + symlink_fields(v));
        }
        i += 1;
    }
    assert(all.take(i as int) =~= all);
}

fn as_text(value: &Option<String>) -> (r: Option<&str>)
    ensures
        (match r {
            Some(r) => Some(r@),
            None => None,
        }) == value.deep_view(),
{
    match value {
        Some(value) => Some(value.as_str()),
        None => None,
    }
}

fn write_component(encoder: &mut Encoder, component: &ComponentInputs)
    ensures
        final(encoder)@ == old(encoder)@ + encoding::encoded(
            component_fields(canonical_component(component.deep_view())),
        ),
{
    let ghost start = encoder@;
    let ghost c = canonical_component(component.deep_view());
    encoder.text(COMPONENT, component.name.as_str());
    encoder.text(AUTHORITY, component.authority.as_str());
    encoder.text(KIND, component.kind.as_str());
    encoder.text(METHOD, component.installation_method.as_str());
    let ghost mut done = heading_fields(c);
    proof {
        let none = Seq::<Field>::empty();
        encoding::written_none(start);
        encoding::written_one(start, none, done[0]);
        encoding::written_one(start, none + seq![done[0]], done[1]);
        encoding::written_one(start, none + seq![done[0]] + seq![done[1]], done[2]);
        encoding::written_one(
            start,
            none + seq![done[0]] + seq![done[1]] + seq![done[2]],
            done[3],
        );
        assert(none + seq![done[0]] + seq![done[1]] + seq![done[2]] + seq![done[3]] =~= done);
    }
    write_artifacts(encoder, &component.artifacts);
    proof {
        encoding::written_more(start, done, artifact_list(c.artifacts));
        done = done + artifact_list(c.artifacts);
    }
    write_destinations(encoder, &component.destinations);
    proof {
        encoding::written_more(start, done, destination_list(c.destinations));
        done = done + destination_list(c.destinations);
    }
    encoder.optional(CRATE_NAME, as_text(&component.crate_name));
    proof {
        encoding::written_one(start, done, encoding::optional_field(CRATE_NAME, c.crate_name));
        done = done + seq![encoding::optional_field(CRATE_NAME, c.crate_name)];
    }
    match &component.features {
        Some(features) => {
            encoder.optional(FEATURE, Some(""));
            write_features(encoder, features);
            proof {
                reveal_strlit("");
                assert(""@ =~= Seq::empty());
                let marker = encoding::text_field(FEATURE, Seq::empty());
                encoding::written_one(start, done, marker);
                encoding::written_more(start, done + seq![marker], feature_list(c.features->0));
                assert(done + seq![marker] + feature_list(c.features->0) =~= done
                    + feature_list_fields(c.features));
            }
        },
        None => {
            encoder.optional(FEATURE, None);
            proof {
                encoding::written_one(start, done, Field::Absent { tag: FEATURE });
            }
        },
    }
    proof {
        done = done + feature_list_fields(c.features);
    }
    encoder.optional(RUSTUP_CHANNEL, as_text(&component.rustup_channel));
    proof {
        let channel = encoding::optional_field(RUSTUP_CHANNEL, c.rustup_channel);
        encoding::written_one(start, done, channel);
        done = done + seq![channel];
    }
    write_symlinks(encoder, &component.symlinks);
    proof {
        encoding::written_more(start, done, symlink_list(c.symlinks));
    }
}

/// The hexadecimal text of a component's encoding.
fn encoding_text(component: &ComponentInputs) -> (r: String)
    ensures
        r@ == text::hex(component_encoding(component.deep_view())),
{
    let mut encoder = Encoder::new();
    write_component(&mut encoder, component);
    let bytes = encoder.into_bytes();
    let mut out = String::new();
    text::append_hex(&mut out, &bytes);
    proof {
        assert(bytes@ =~= component_encoding(component.deep_view()));
        assert(out@ =~= text::hex(bytes@));
    }
    out
}

/// The canonical bytes of `inputs`.
pub fn encode(inputs: &KeyInputs) -> (bytes: Vec<u8>)
    ensures
        bytes@ == encoding(inputs.deep_view()),
{
    let ghost start = Seq::<u8>::empty();
    let mut encoder = Encoder::new();
    encoder.text(TARGET, inputs.target.as_str());
    let ghost head = seq![encoding::text_field(TARGET, inputs.target@)];
    let components = &inputs.components;
    let indices = order::sort(components);
    let ghost all = order::arranged(components.deep_view(), indices@);
    let ghost canon = all.map_values(|c: ComponentFacts| canonical_component(c));
    let mut i: usize = 0;
    proof {
        encoding::written_none(start);
        encoding::written_one(start, Seq::empty(), head[0]);
        assert(Seq::<Field>::empty() + seq![head[0]] =~= head + component_list(canon.take(0)));
    }
    while i < indices.len()
        invariant
            i <= indices@.len(),
            all == order::arranged(components.deep_view(), indices@),
            canon == all.map_values(|c: ComponentFacts| canonical_component(c)),
            forall|k: int| 0 <= k < indices@.len() ==> (#[trigger] indices@[k]) < components@.len(),
            encoder@ == start + encoding::encoded(head + component_list(canon.take(i as int))),
        decreases indices.len() - i,
    {
        let component = &components[indices[i]];
        write_component(&mut encoder, component);
        proof {
            let c = canonical_component(component.deep_view());
            assert(all[i as int] == component.deep_view());
            assert(canon.take(i + 1) =~= canon.take(i as int).push(c));
            let done = component_list(canon.take(i as int));
            encoding::flat_push(
                canon.take(i as int),
                c,
                |c: ComponentFacts| component_fields(c),
            );
            encoding::written_more(start, head + done, component_fields(c));
            assert(head + done + component_fields(c) =~= head + component_list(canon.take(i + 1)));
        }
        i += 1;
    }
    assert(canon.take(i as int) =~= canon);
    assert(start + encoding::encoded(head + component_list(canon)) =~= encoding::encoded(
        head + component_list(canon),
    ));
    encoder.into_bytes()
}

/// A canonical digest over an installation's material inputs.
#[derive(Debug, PartialEq, Eq, Hash)]
pub struct PlanKey {
    text: String,
}

impl View for PlanKey {
    type V = Seq<char>;

    closed spec fn view(&self) -> Seq<char> {
        self.text@
    }
}

impl Clone for PlanKey {
    fn clone(&self) -> (r: Self)
        ensures
            r == *self,
    {
        PlanKey { text: self.text.clone() }
    }
}

/// The key whose digest is `digest`: the algorithm's prefix and the digest in hexadecimal.
pub open spec fn key_of_digest(digest: Seq<u8>) -> Seq<char> {
    PlanKey::PREFIX@ + text::hex(digest)
}

/// The key of an input.
pub open spec fn key_of(k: KeyFacts) -> Seq<char> {
    key_of_digest(sha256(encoding(k)))
}

impl PlanKey {
    /// The algorithm version prefix. It changes whenever the input set or the encoding does.
    pub const PREFIX: &'static str = "pk1:";

    /// The key whose digest is `digest`.
    pub fn from_digest(digest: &Vec<u8>) -> (key: PlanKey)
        ensures
            key@ == key_of_digest(digest@),
    {
        let mut out = Self::PREFIX.to_owned();
        text::append_hex(&mut out, digest);
        PlanKey { text: out }
    }

    /// Reads a recorded key. One without a recognized prefix is unknown rather than different,
    /// so it is refused.
    pub fn parse(raw: &str) -> (r: Result<PlanKey, String>)
        ensures
            r is Ok <==> text::begins_with(raw@, PlanKey::PREFIX@),
            r matches Ok(key) ==> key@ == raw@,
            r matches Err(message) ==> message@ == "unrecognized plan key '"@ + raw@
                + "': expected a '"@ + PlanKey::PREFIX@ + "' prefix"@,
    {
        if text::starts_with(raw, Self::PREFIX) {
            Ok(PlanKey { text: raw.to_owned() })
        } else {
            let mut message = "unrecognized plan key '".to_owned();
            message.append(raw);
            message.append("': expected a '");
            message.append(Self::PREFIX);
            message.append("' prefix");
            Err(message)
        }
    }

    /// The key as text.
    pub fn to_string(&self) -> (s: String)
        ensures
            s@ == self@,
    {
        self.text.clone()
    }
}

/// Whether `s` is a whole key: the algorithm's prefix, then sixty-four lower-case hexadecimal digits.
pub open spec fn is_whole_key(s: Seq<char>) -> bool {
    &&& s.len() == 68
    &&& text::begins_with(s, PlanKey::PREFIX@)
    &&& forall|i: int| 4 <= i < 68 ==> text::is_hex_digit(#[trigger] s[i])
}

/// Computes the canonical key for `inputs`.
pub fn compute(inputs: &KeyInputs) -> (key: PlanKey)
    ensures
        key@ == key_of(inputs.deep_view()),
        is_whole_key(key@),
{
    let bytes = encode(inputs);
    let digest = sha256_digest(bytes.as_slice());
    let key = PlanKey::from_digest(&digest);
    proof {
        reveal_strlit("pk1:");
        text::hex_is_lower_case(digest@);
        assert(key@.take(4) =~= PlanKey::PREFIX@);
        assert forall|i: int| 4 <= i < 68 implies text::is_hex_digit(#[trigger] key@[i]) by {
            assert(key@[i] == text::hex(digest@)[i - 4]);
        }
    }
    key
}

} // verus!
