//! The byte format of a plan key's input: tagged, length-prefixed fields.

use vstd::prelude::*;
use vstd::bytes::u64_to_le_bytes;

verus! {

/// One field of the encoding.
#[verifier::ext_equal]
pub enum Field {
    /// A value that is there, possibly empty.
    Present { tag: u8, bytes: Seq<u8> },
    /// A value that is not there.
    Absent { tag: u8 },
}

impl Field {
    /// The tag in front of the field.
    pub open spec fn tag(self) -> u8 {
        match self {
            Field::Present { tag, .. } => tag,
            Field::Absent { tag } => tag,
        }
    }

    /// Whether the field's length can be written in its prefix.
    pub open spec fn fits(self) -> bool {
        self matches Field::Present { bytes, .. } ==> bytes.len() <= u64::MAX
    }

    /// Tag and presence marker; where the value is there, its length as eight little-endian
    /// bytes and the value itself.
    pub open spec fn encoded(self) -> Seq<u8> {
        match self {
            Field::Present { tag, bytes } => seq![tag, 1u8] + vstd::bytes::spec_u64_to_le_bytes(
                bytes.len() as u64,
            ) + bytes,
            Field::Absent { tag } => seq![tag, 0u8],
        }
    }
}

/// A text field.
pub open spec fn text_field(tag: u8, value: Seq<char>) -> Field {
    Field::Present { tag, bytes: vstd::utf8::encode_utf8(value) }
}

/// A number field: eight little-endian bytes.
pub open spec fn number_field(tag: u8, value: u64) -> Field {
    Field::Present { tag, bytes: vstd::bytes::spec_u64_to_le_bytes(value) }
}

/// A text field that may be missing.
pub open spec fn optional_field(tag: u8, value: Option<Seq<char>>) -> Field {
    match value {
        Some(value) => text_field(tag, value),
        None => Field::Absent { tag },
    }
}

/// The fields one after the other.
pub open spec fn encoded(fields: Seq<Field>) -> Seq<u8>
    decreases fields.len(),
{
    if fields.len() == 0 {
        Seq::empty()
    } else {
        fields[0].encoded() + encoded(fields.drop_first())
    }
}

/// The fields of every item, one item after the other.
pub open spec fn flat<T>(items: Seq<T>, fields: spec_fn(T) -> Seq<Field>) -> Seq<Field>
    decreases items.len(),
{
    if items.len() == 0 {
        Seq::empty()
    } else {
        fields(items[0]) + flat(items.drop_first(), fields)
    }
}

/// Encoding respects concatenation.
pub proof fn encoded_concat(a: Seq<Field>, b: Seq<Field>)
    ensures
        encoded(a + b) == encoded(a) + encoded(b),
    decreases a.len(),
{
    if a.len() == 0 {
        assert(a + b =~= b);
        assert(encoded(a) + encoded(b) =~= encoded(b));
    } else {
        encoded_concat(a.drop_first(), b);
        assert((a + b).drop_first() =~= a.drop_first() + b);
        assert((a + b)[0] == a[0]);
        assert(encoded(a + b) =~= encoded(a) + encoded(b));
    }
}

/// Encoding one field more.
pub proof fn encoded_push(a: Seq<Field>, f: Field)
    ensures
        encoded(a.push(f)) == encoded(a) + f.encoded(),
{
    encoded_concat(a, seq![f]);
    assert(a.push(f) =~= a + seq![f]);
    reveal_with_fuel(encoded, 2);
    assert(seq![f].drop_first() =~= Seq::empty());
    assert(encoded(seq![f]) =~= f.encoded());
}

/// Appending fields to what has been written.
pub proof fn written_more(start: Seq<u8>, done: Seq<Field>, more: Seq<Field>)
    ensures
        start + encoded(done) + encoded(more) == start + encoded(done + more),
{
    encoded_concat(done, more);
    assert(start + encoded(done) + encoded(more) =~= start + encoded(done + more));
}

/// Appending one field to what has been written.
pub proof fn written_one(start: Seq<u8>, done: Seq<Field>, f: Field)
    ensures
        start + encoded(done) + f.encoded() == start + encoded(done + seq![f]),
{
    encoded_push(done, f);
    assert(done.push(f) =~= done + seq![f]);
    assert(start + encoded(done) + f.encoded() =~= start + encoded(done + seq![f]));
}

/// Nothing written yet.
pub proof fn written_none(start: Seq<u8>)
    ensures
        start + encoded(Seq::<Field>::empty()) == start,
{
    assert(start + encoded(Seq::<Field>::empty()) =~= start);
}

/// Flattening one item more.
pub proof fn flat_push<T>(items: Seq<T>, x: T, fields: spec_fn(T) -> Seq<Field>)
    ensures
        flat(items.push(x), fields) == flat(items, fields) + fields(x),
    decreases items.len(),
{
    if items.len() == 0 {
        reveal_with_fuel(flat, 2);
        assert(items.push(x).drop_first() =~= Seq::empty());
        assert(flat(items.push(x), fields) =~= flat(items, fields) + fields(x));
    } else {
        flat_push(items.drop_first(), x, fields);
        assert(items.push(x).drop_first() =~= items.drop_first().push(x));
        assert(flat(items.push(x), fields) =~= flat(items, fields) + fields(x));
    }
}

/// A length prefix can be read back.
proof fn length_prefix_injective(m: u64, n: u64)
    requires
        vstd::bytes::spec_u64_to_le_bytes(m) == vstd::bytes::spec_u64_to_le_bytes(n),
    ensures
        m == n,
{
    vstd::bytes::lemma_auto_spec_u64_to_from_le_bytes();
}

/// Where two field lists begin with a field each and encode alike, the fields are the same, and
/// what follows encodes alike.
proof fn first_field_agrees(f: Field, r: Seq<u8>, g: Field, s: Seq<u8>)
    requires
        f.fits(),
        g.fits(),
        f.encoded() + r == g.encoded() + s,
    ensures
        f == g,
        r == s,
{
    vstd::bytes::lemma_auto_spec_u64_to_from_le_bytes();
    let e = f.encoded() + r;
    let d = g.encoded() + s;
    assert(e[0] == f.tag() && d[0] == g.tag());
    assert(e[1] == (if f is Present { 1u8 } else { 0u8 }));
    assert(d[1] == (if g is Present { 1u8 } else { 0u8 }));
    if f is Present {
        let (p, q) = (f->bytes, g->bytes);
        let (lp, lq) = (
            vstd::bytes::spec_u64_to_le_bytes(p.len() as u64),
            vstd::bytes::spec_u64_to_le_bytes(q.len() as u64),
        );
        assert(lp.len() == 8 && lq.len() == 8);
        assert(e.subrange(2, 10) =~= lp);
        assert(d.subrange(2, 10) =~= lq);
        length_prefix_injective(p.len() as u64, q.len() as u64);
        assert(p.len() == q.len());
        assert(e.subrange(10, 10 + p.len() as int) =~= p);
        assert(d.subrange(10, 10 + q.len() as int) =~= q);
        assert(e.skip(10 + p.len() as int) =~= r);
        assert(d.skip(10 + q.len() as int) =~= s);
    } else {
        assert(e.skip(2) =~= r);
        assert(d.skip(2) =~= s);
    }
}

/// No two different field lists encode alike.
pub proof fn encoding_is_injective(a: Seq<Field>, b: Seq<Field>)
    requires
        forall|i: int| 0 <= i < a.len() ==> (#[trigger] a[i]).fits(),
        forall|i: int| 0 <= i < b.len() ==> (#[trigger] b[i]).fits(),
        encoded(a) == encoded(b),
    ensures
        a == b,
    decreases a.len(),
{
    vstd::bytes::lemma_auto_spec_u64_to_from_le_bytes();
    if a.len() == 0 || b.len() == 0 {
        if a.len() > 0 {
            assert(encoded(a).len() >= a[0].encoded().len());
        }
        if b.len() > 0 {
            assert(encoded(b).len() >= b[0].encoded().len());
        }
        assert(a =~= b);
    } else {
        first_field_agrees(
            a[0],
            encoded(a.drop_first()),
            b[0],
            encoded(b.drop_first()),
        );
        encoding_is_injective(a.drop_first(), b.drop_first());
        assert(a =~= seq![a[0]] + a.drop_first());
        assert(b =~= seq![b[0]] + b.drop_first());
    }
}

/// Two texts whose fields are the same are the same.
pub proof fn text_field_injective(tag: u8, a: Seq<char>, b: Seq<char>)
    requires
        text_field(tag, a) == text_field(tag, b),
    ensures
        a == b,
{
    vstd::utf8::encode_utf8_decode_utf8(a);
    vstd::utf8::encode_utf8_decode_utf8(b);
}

/// The same for numbers.
pub proof fn number_field_injective(tag: u8, a: u64, b: u64)
    requires
        number_field(tag, a) == number_field(tag, b),
    ensures
        a == b,
{
    length_prefix_injective(a, b);
}

/// The same for optional texts.
pub proof fn optional_field_injective(tag: u8, a: Option<Seq<char>>, b: Option<Seq<char>>)
    requires
        optional_field(tag, a) == optional_field(tag, b),
    ensures
        a == b,
{
    if a is Some && b is Some {
        text_field_injective(tag, a->0, b->0);
    }
}

/// Whether `rest` does not begin with a field of the given tag.
pub open spec fn starts_without(rest: Seq<Field>, tag: u8) -> bool {
    rest.len() > 0 ==> rest[0].tag() != tag
}

/// A list of items can be read back off the front of a field list: every item begins with the
/// tag `head`, contains no ambiguity against what follows it as long as that does not begin with
/// the tag `inner`, and the rest of the list begins with neither.
pub proof fn flat_injective<T>(
    a: Seq<T>,
    r: Seq<Field>,
    b: Seq<T>,
    s: Seq<Field>,
    fields: spec_fn(T) -> Seq<Field>,
    head: u8,
    inner: u8,
)
    requires
        head != inner,
        forall|x: T| (#[trigger] fields(x)).len() > 0 && fields(x)[0].tag() == head,
        forall|x: T, p: Seq<Field>, y: T, q: Seq<Field>|
            starts_without(p, inner) && starts_without(q, inner) && #[trigger] (fields(x) + p)
                == #[trigger] (fields(y) + q) ==> x == y && p == q,
        starts_without(r, inner),
        starts_without(r, head),
        starts_without(s, inner),
        starts_without(s, head),
        flat(a, fields) + r == flat(b, fields) + s,
    ensures
        a == b,
        r == s,
    decreases a.len(),
{
    let e = flat(a, fields) + r;
    let d = flat(b, fields) + s;
    if a.len() == 0 && b.len() == 0 {
        assert(a =~= b);
        assert(e =~= r);
        assert(d =~= s);
    } else if a.len() == 0 {
        assert(e =~= r);
        assert(fields(b[0]).len() > 0);
        assert(d[0] == fields(b[0])[0]);
    } else if b.len() == 0 {
        assert(d =~= s);
        assert(fields(a[0]).len() > 0);
        assert(e[0] == fields(a[0])[0]);
    } else {
        let p = flat(a.drop_first(), fields) + r;
        let q = flat(b.drop_first(), fields) + s;
        assert(e =~= fields(a[0]) + p);
        assert(d =~= fields(b[0]) + q);
        assert(starts_without(p, inner)) by {
            if a.len() == 1 {
                assert(p =~= r);
            } else {
                let x = a.drop_first()[0];
                assert(fields(x).len() > 0);
                assert(p[0] == fields(x)[0]);
            }
        }
        assert(starts_without(q, inner)) by {
            if b.len() == 1 {
                assert(q =~= s);
            } else {
                let x = b.drop_first()[0];
                assert(fields(x).len() > 0);
                assert(q[0] == fields(x)[0]);
            }
        }
        assert(a[0] == b[0] && p == q);
        flat_injective(a.drop_first(), r, b.drop_first(), s, fields, head, inner);
        assert(a =~= seq![a[0]] + a.drop_first());
        assert(b =~= seq![b[0]] + b.drop_first());
    }
}

/// A canonical byte encoder.
pub struct Encoder {
    buffer: Vec<u8>,
}

impl View for Encoder {
    type V = Seq<u8>;

    closed spec fn view(&self) -> Seq<u8> {
        self.buffer@
    }
}

impl Encoder {
    /// An encoder that has written nothing.
    pub fn new() -> (r: Self)
        ensures
            r@ == Seq::<u8>::empty(),
    {
        Encoder { buffer: Vec::new() }
    }

    /// Writes a present value: tag, presence marker, length, bytes.
    pub fn field(&mut self, tag: u8, bytes: &[u8])
        ensures
            final(self)@ == old(self)@ + (Field::Present { tag, bytes: bytes@ }).encoded(),
    {
        self.buffer.push(tag);
        self.buffer.push(1);
        let mut length = u64_to_le_bytes(bytes.len() as u64);
        self.buffer.append(&mut length);
        self.buffer.extend_from_slice(bytes);
        assert(self@ =~= old(self)@ + (Field::Present { tag, bytes: bytes@ }).encoded());
    }

    /// Writes an optional value. Absent encodes distinctly from present-and-empty.
    pub fn optional(&mut self, tag: u8, value: Option<&str>)
        ensures
            final(self)@ == old(self)@ + optional_field(
                tag,
                match value {
                    Some(value) => Some(value@),
                    None => None,
                },
            ).encoded(),
    {
        match value {
            Some(value) => self.text(tag, value),
            None => {
                self.buffer.push(tag);
                self.buffer.push(0);
                assert(self@ =~= old(self)@ + (Field::Absent { tag }).encoded());
            },
        }
    }

    /// Writes a text.
    pub fn text(&mut self, tag: u8, value: &str)
        ensures
            final(self)@ == old(self)@ + text_field(tag, value@).encoded(),
    {
        self.field(tag, value.as_bytes());
    }

    /// Writes a number.
    pub fn number(&mut self, tag: u8, value: u64)
        ensures
            final(self)@ == old(self)@ + number_field(tag, value).encoded(),
    {
        let bytes = u64_to_le_bytes(value);
        self.field(tag, bytes.as_slice());
    }

    /// Everything written so far.
    pub fn into_bytes(self) -> (bytes: Vec<u8>)
        ensures
            bytes@ == self@,
    {
        self.buffer
    }
}

} // verus!
