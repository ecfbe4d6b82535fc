//! The canonical byte encoding of a list of fields, and its digest.
//!
//! Numbers go in as their normalized decimal text with a length in front, counts and
//! times as eight bytes, tags as one byte. The encoding of a list tells its fields
//! apart: see [`law_same_shape_decodes`].
use crate::decimal::{
    decimal_text, law_normal_form, lemma_stripped, representable, stripped, Decimal,
};
use crate::numerals::{is_numeral, lemma_text_injective, lemma_text_shape};
use sha2::Digest;
use vstd::prelude::*;
use vstd::string::*;
use vstd::utf8::*;

verus! {

/// The last `width` base-256 digits of `n`, most significant first.
pub open spec fn be_bytes(n: nat, width: nat) -> Seq<u8>
    decreases width,
{
    if width == 0 {
        Seq::empty()
    } else {
        be_bytes(n / 256, (width - 1) as nat).push((n % 256) as u8)
    }
}

/// The eight bytes of a count.
pub open spec fn word_bytes(n: nat) -> Seq<u8> {
    be_bytes(n, 8)
}

/// A signed time as an unsigned count, by two's complement.
pub open spec fn time_word(t: i64) -> nat {
    if t < 0 {
        (t + 0x1_0000_0000_0000_0000) as nat
    } else {
        t as nat
    }
}

/// The normalized text of a number.
pub open spec fn normal_text(d: Decimal) -> Seq<char> {
    let (mantissa, scale) = stripped(d.mantissa() as int, d.scale() as nat);
    decimal_text(mantissa, scale)
}

/// A text: its length in bytes, then its bytes.
pub open spec fn text_bytes(s: Seq<char>) -> Seq<u8> {
    word_bytes(encode_utf8(s).len()) + encode_utf8(s)
}

/// A field of an encoded record.
pub enum Field {
    /// A one-byte tag.
    Tag(u8),
    /// A count or a time.
    Word(nat),
    /// A number.
    Number(Decimal),
}

/// The bytes of a field.
pub open spec fn field_bytes(f: Field) -> Seq<u8> {
    match f {
        Field::Tag(b) => seq![b],
        Field::Word(n) => word_bytes(n),
        Field::Number(d) => text_bytes(normal_text(d)),
    }
}

/// The bytes of a list of fields.
pub open spec fn feed(fields: Seq<Field>) -> Seq<u8>
    decreases fields.len(),
{
    if fields.len() == 0 {
        Seq::empty()
    } else {
        feed(fields.drop_last()) + field_bytes(fields.last())
    }
}

/// Whether two fields hold the same value; numbers are compared as numbers.
pub open spec fn same_field(a: Field, b: Field) -> bool {
    match (a, b) {
        (Field::Tag(x), Field::Tag(y)) => x == y,
        (Field::Word(x), Field::Word(y)) => x == y,
        (Field::Number(x), Field::Number(y)) => x.units() == y.units(),
        _ => false,
    }
}

/// Whether two lists hold the same values, field by field.
pub open spec fn same_fields(a: Seq<Field>, b: Seq<Field>) -> bool {
    a.len() == b.len() && forall|i: int| 0 <= i < a.len() ==> same_field(#[trigger] a[i], b[i])
}

/// Whether two fields are of one kind.
pub open spec fn same_kind(a: Field, b: Field) -> bool {
    match (a, b) {
        (Field::Tag(_), Field::Tag(_)) => true,
        (Field::Word(_), Field::Word(_)) => true,
        (Field::Number(_), Field::Number(_)) => true,
        _ => false,
    }
}

/// Whether two lists have the same kinds of fields in the same order.
pub open spec fn same_shape(a: Seq<Field>, b: Seq<Field>) -> bool {
    a.len() == b.len() && forall|i: int| 0 <= i < a.len() ==> same_kind(#[trigger] a[i], b[i])
}

/// Whether a field is within its bounds: a count of 64 bits, a well-formed number.
pub open spec fn bounded(f: Field) -> bool {
    match f {
        Field::Tag(_) => true,
        Field::Word(n) => n < 0x1_0000_0000_0000_0000,
        Field::Number(d) => d.wf(),
    }
}

/// Whether every field of a list is within its bounds.
pub open spec fn all_bounded(fields: Seq<Field>) -> bool {
    forall|i: int| 0 <= i < fields.len() ==> bounded(#[trigger] fields[i])
}

// ---------------------------------------------------------------------------
// Decoding.
// ---------------------------------------------------------------------------

proof fn lemma_be_length(n: nat, width: nat)
    ensures
        be_bytes(n, width).len() == width,
    decreases width,
{
    if width > 0 {
        lemma_be_length(n / 256, (width - 1) as nat);
    }
}

spec fn pow256(width: nat) -> nat
    decreases width,
{
    if width == 0 {
        1
    } else {
        256 * pow256((width - 1) as nat)
    }
}

proof fn lemma_be_injective(a: nat, b: nat, width: nat)
    requires
        be_bytes(a, width) == be_bytes(b, width),
        a < pow256(width),
        b < pow256(width),
    ensures
        a == b,
    decreases width,
{
    if width > 0 {
        let w = (width - 1) as nat;
        let x = be_bytes(a, width);
        let y = be_bytes(b, width);
        assert(x.last() == (a % 256) as u8);
        assert(y.last() == (b % 256) as u8);
        assert(x.drop_last() =~= be_bytes(a / 256, w));
        assert(y.drop_last() =~= be_bytes(b / 256, w));
        lemma_be_injective(a / 256, b / 256, w);
    }
}

proof fn lemma_word(n: nat)
    ensures
        word_bytes(n).len() == 8,
        n < 256 ==> word_bytes(n)[7] == n && forall|i: int|
            0 <= i < 7 ==> #[trigger] word_bytes(n)[i] == 0,
{
    lemma_be_length(n, 8);
    if n < 256 {
        reveal_with_fuel(be_bytes, 9);
        assert(n / 256 == 0);
    }
}

proof fn lemma_word_injective(a: nat, b: nat)
    requires
        word_bytes(a) == word_bytes(b),
        a < 0x1_0000_0000_0000_0000,
        b < 0x1_0000_0000_0000_0000,
    ensures
        a == b,
{
    assert(pow256(8) == 0x1_0000_0000_0000_0000) by {
        reveal_with_fuel(pow256, 9);
    }
    lemma_be_injective(a, b, 8);
}

/// The parts of the normal form of a well-formed number are representable.
proof fn lemma_normal_representable(d: Decimal)
    requires
        d.wf(),
    ensures
        representable(
            stripped(d.mantissa() as int, d.scale() as nat).0,
            stripped(d.mantissa() as int, d.scale() as nat).1 as int,
        ),
{
    lemma_stripped(d.mantissa() as int, d.scale() as nat);
}

/// Whether a byte can stand in the text of a number.
pub open spec fn is_numeral_byte(b: u8) -> bool {
    b == 45 || b == 46 || 48 <= b <= 57
}

/// The text of a number takes one byte per character.
proof fn lemma_number_text(d: Decimal)
    requires
        d.wf(),
    ensures
        1 <= encode_utf8(normal_text(d)).len() <= 31,
        forall|i: int|
            0 <= i < encode_utf8(normal_text(d)).len() ==> is_numeral_byte(
                #[trigger] encode_utf8(normal_text(d))[i],
            ),
{
    let (m, s) = stripped(d.mantissa() as int, d.scale() as nat);
    lemma_normal_representable(d);
    lemma_text_shape(m, s);
    let t = normal_text(d);
    assert forall|i: int| 0 <= i < t.len() implies 0 <= (#[trigger] t[i]) as int <= 127 by {
        assert(is_numeral(t[i]));
    }
    assert(is_ascii_chars(t));
    is_ascii_chars_encode_utf8(t);
    let e = encode_utf8(t);
    assert forall|i: int| 0 <= i < e.len() implies is_numeral_byte(#[trigger] e[i]) by {
        assert(is_numeral(t[i]));
        assert(e[i] == t[i] as u8);
    }
}

/// Two numbers with the same bytes are the same number, and the other way round.
proof fn lemma_number_bytes(a: Decimal, b: Decimal)
    requires
        a.wf(),
        b.wf(),
    ensures
        encode_utf8(normal_text(a)) == encode_utf8(normal_text(b)) <==> a.units() == b.units(),
{
    law_normal_form(a, b);
    if encode_utf8(normal_text(a)) == encode_utf8(normal_text(b)) {
        encode_utf8_decode_utf8(normal_text(a));
        encode_utf8_decode_utf8(normal_text(b));
        let (m1, s1) = stripped(a.mantissa() as int, a.scale() as nat);
        let (m2, s2) = stripped(b.mantissa() as int, b.scale() as nat);
        lemma_text_injective(m1, s1, m2, s2);
    }
}

/// The bytes of a number: how many, and what the length word looks like.
proof fn lemma_number_field(d: Decimal)
    requires
        d.wf(),
    ensures
        ({
            let n = encode_utf8(normal_text(d)).len();
            let bytes = field_bytes(Field::Number(d));
            &&& 1 <= n <= 31
            &&& bytes.len() == 8 + n
            &&& bytes[7] == n
            &&& forall|i: int| 0 <= i < 7 ==> #[trigger] bytes[i] == 0
            &&& forall|i: int| 8 <= i < 8 + n ==> is_numeral_byte(#[trigger] bytes[i])
        }),
{
    lemma_number_text(d);
    let e = encode_utf8(normal_text(d));
    lemma_word(e.len());
    let bytes = field_bytes(Field::Number(d));
    assert(bytes == word_bytes(e.len()) + e);
    assert forall|i: int| 8 <= i < 8 + e.len() implies is_numeral_byte(#[trigger] bytes[i]) by {
        assert(bytes[i] == e[i - 8]);
    }
}

/// Fields with the same value have the same bytes.
proof fn lemma_same_field_bytes(a: Field, b: Field)
    requires
        same_field(a, b),
        bounded(a),
        bounded(b),
    ensures
        field_bytes(a) == field_bytes(b),
{
    if let (Field::Number(x), Field::Number(y)) = (a, b) {
        lemma_number_bytes(x, y);
    }
}

/// Lists with the same values have the same bytes.
pub proof fn law_same_values_same_bytes(a: Seq<Field>, b: Seq<Field>)
    requires
        same_fields(a, b),
        all_bounded(a),
        all_bounded(b),
    ensures
        feed(a) == feed(b),
    decreases a.len(),
{
    if a.len() > 0 {
        assert forall|i: int| 0 <= i < a.drop_last().len() implies same_field(
            #[trigger] a.drop_last()[i],
            b.drop_last()[i],
        ) by {
            assert(same_field(a[i], b[i]));
        }
        assert(all_bounded(a.drop_last())) by {
            assert forall|i: int| 0 <= i < a.drop_last().len() implies bounded(
                #[trigger] a.drop_last()[i],
            ) by {
                assert(bounded(a[i]));
            }
        }
        assert(all_bounded(b.drop_last())) by {
            assert forall|i: int| 0 <= i < b.drop_last().len() implies bounded(
                #[trigger] b.drop_last()[i],
            ) by {
                assert(bounded(b[i]));
            }
        }
        law_same_values_same_bytes(a.drop_last(), b.drop_last());
        let k = a.len() - 1;
        assert(bounded(a[k]) && bounded(b[k]) && same_field(a[k], b[k]));
        lemma_same_field_bytes(a.last(), b.last());
    }
}

/// The first field of a byte string can be read back, given its kind.
proof fn lemma_read_field(a: Field, x: Seq<u8>, b: Field, y: Seq<u8>)
    requires
        field_bytes(a) + x == field_bytes(b) + y,
        same_kind(a, b),
        bounded(a),
        bounded(b),
    ensures
        same_field(a, b),
        x == y,
{
    let fa = field_bytes(a);
    let fb = field_bytes(b);
    let whole = fa + x;
    match (a, b) {
        (Field::Tag(p), Field::Tag(q)) => {
            assert(whole[0] == p);
            assert((fb + y)[0] == q);
        },
        (Field::Word(p), Field::Word(q)) => {
            lemma_word(p);
            lemma_word(q);
            assert(fa =~= whole.subrange(0, 8));
            assert(fb =~= (fb + y).subrange(0, 8));
            lemma_word_injective(p, q);
        },
        (Field::Number(p), Field::Number(q)) => {
            lemma_number_field(p);
            lemma_number_field(q);
            let ep = encode_utf8(normal_text(p));
            let eq = encode_utf8(normal_text(q));
            assert(whole[7] == fa[7]);
            assert((fb + y)[7] == fb[7]);
            assert(ep.len() == eq.len());
            lemma_word(ep.len());
            assert forall|i: int| 0 <= i < ep.len() implies ep[i] == eq[i] by {
                assert(fa[i + 8] == ep[i]);
                assert(fb[i + 8] == eq[i]);
                assert(whole[i + 8] == fa[i + 8]);
                assert((fb + y)[i + 8] == fb[i + 8]);
            }
            assert(ep =~= eq);
            lemma_number_bytes(p, q);
        },
        _ => {},
    }
    assert(fa.len() == fb.len());
    assert(x =~= whole.subrange(fa.len() as int, whole.len() as int));
    assert(y =~= (fb + y).subrange(fb.len() as int, (fb + y).len() as int));
}

/// The bytes of a list are those of its first field, then those of the rest.
pub proof fn lemma_feed_first(fields: Seq<Field>)
    requires
        fields.len() > 0,
    ensures
        feed(fields) == field_bytes(fields[0]) + feed(fields.subrange(1, fields.len() as int)),
    decreases fields.len(),
{
    let rest = fields.subrange(1, fields.len() as int);
    if fields.len() == 1 {
        assert(fields.drop_last() =~= Seq::empty());
        assert(rest =~= Seq::empty());
        assert(feed(fields) =~= field_bytes(fields[0]) + feed(rest));
    } else {
        let init = fields.drop_last();
        lemma_feed_first(init);
        assert(init.subrange(1, init.len() as int) =~= rest.drop_last());
        assert(rest.last() == fields.last());
        assert(init[0] == fields[0]);
        assert(feed(fields) =~= field_bytes(fields[0]) + feed(rest));
    }
}

/// The bytes of two lists are the bytes of one, then those of the other.
pub proof fn lemma_feed_concat(a: Seq<Field>, b: Seq<Field>)
    ensures
        feed(a + b) == feed(a) + feed(b),
    decreases b.len(),
{
    if b.len() == 0 {
        assert(a + b =~= a);
        assert(feed(a) =~= feed(a) + feed(b));
    } else {
        assert((a + b).drop_last() =~= a + b.drop_last());
        lemma_feed_concat(a, b.drop_last());
        assert(feed(a + b) =~= feed(a) + feed(b));
    }
}

proof fn lemma_rest(a: Seq<Field>)
    requires
        a.len() > 0,
        all_bounded(a),
    ensures
        all_bounded(a.subrange(1, a.len() as int)),
        bounded(a[0]),
{
    let r = a.subrange(1, a.len() as int);
    assert forall|i: int| 0 <= i < r.len() implies bounded(#[trigger] r[i]) by {
        assert(bounded(a[i + 1]));
    }
}

/// From bytes that begin with the encoding of a list, the values of the list and the
/// bytes behind it can be read back, given the kinds of its fields.
pub proof fn law_same_shape_decodes(a: Seq<Field>, x: Seq<u8>, b: Seq<Field>, y: Seq<u8>)
    requires
        feed(a) + x == feed(b) + y,
        same_shape(a, b),
        all_bounded(a),
        all_bounded(b),
    ensures
        same_fields(a, b),
        x == y,
    decreases a.len(),
{
    if a.len() == 0 {
        assert(feed(a) + x =~= x);
        assert(feed(b) + y =~= y);
    } else {
        let ra = a.subrange(1, a.len() as int);
        let rb = b.subrange(1, b.len() as int);
        lemma_feed_first(a);
        lemma_feed_first(b);
        lemma_rest(a);
        lemma_rest(b);
        assert(same_kind(a[0], b[0]));
        assert(feed(a) + x =~= field_bytes(a[0]) + (feed(ra) + x));
        assert(feed(b) + y =~= field_bytes(b[0]) + (feed(rb) + y));
        lemma_read_field(a[0], feed(ra) + x, b[0], feed(rb) + y);
        assert forall|i: int| 0 <= i < ra.len() implies same_kind(#[trigger] ra[i], rb[i]) by {
            assert(same_kind(a[i + 1], b[i + 1]));
        }
        law_same_shape_decodes(ra, x, rb, y);
        assert forall|i: int| 0 <= i < a.len() implies same_field(#[trigger] a[i], b[i]) by {
            if i > 0 {
                assert(same_field(ra[i - 1], rb[i - 1]));
            }
        }
    }
}

/// The last field of a byte string can be read back, given its kind.
proof fn lemma_read_last_field(x: Seq<u8>, a: Field, y: Seq<u8>, b: Field)
    requires
        x + field_bytes(a) == y + field_bytes(b),
        same_kind(a, b),
        bounded(a),
        bounded(b),
    ensures
        same_field(a, b),
        x == y,
{
    let fa = field_bytes(a);
    let fb = field_bytes(b);
    let whole = x + fa;
    let n = whole.len() as int;
    assert((y + fb).len() == n);
    match (a, b) {
        (Field::Tag(p), Field::Tag(q)) => {
            assert(whole[n - 1] == p);
            assert((y + fb)[n - 1] == q);
        },
        (Field::Word(p), Field::Word(q)) => {
            lemma_word(p);
            lemma_word(q);
            assert(fa =~= whole.subrange(n - 8, n));
            assert(fb =~= (y + fb).subrange(n - 8, n));
            lemma_word_injective(p, q);
        },
        (Field::Number(p), Field::Number(q)) => {
            lemma_number_field(p);
            lemma_number_field(q);
            let ep = encode_utf8(normal_text(p));
            let eq = encode_utf8(normal_text(q));
            assert(whole[n - ep.len() - 1] == fa[7]);
            assert((y + fb)[n - eq.len() - 1] == fb[7]);
            if ep.len() < eq.len() {
                let i = n - ep.len() - 1;
                assert((y + fb)[i] == fb[i - y.len()]);
                assert(is_numeral_byte(fb[i - y.len()]));
                assert(false);
            }
            if eq.len() < ep.len() {
                let i = n - eq.len() - 1;
                assert(whole[i] == fa[i - x.len()]);
                assert(is_numeral_byte(fa[i - x.len()]));
                assert(false);
            }
            lemma_word(ep.len());
            assert forall|i: int| 0 <= i < ep.len() implies ep[i] == eq[i] by {
                assert(fa[i + 8] == ep[i]);
                assert(fb[i + 8] == eq[i]);
                assert(whole[x.len() + i + 8] == fa[i + 8]);
                assert((y + fb)[y.len() + i + 8] == fb[i + 8]);
            }
            assert(ep =~= eq);
            lemma_number_bytes(p, q);
        },
        _ => {},
    }
    assert(fa.len() == fb.len());
    assert(x =~= whole.subrange(0, n - fa.len()));
    assert(y =~= (y + fb).subrange(0, n - fb.len()));
}

/// From bytes that end with the encoding of a list, the values of the list and the
/// bytes in front of it can be read back, given the kinds of its fields.
pub proof fn law_same_shape_decodes_from_the_end(
    x: Seq<u8>,
    a: Seq<Field>,
    y: Seq<u8>,
    b: Seq<Field>,
)
    requires
        x + feed(a) == y + feed(b),
        same_shape(a, b),
        all_bounded(a),
        all_bounded(b),
    ensures
        same_fields(a, b),
        x == y,
    decreases a.len(),
{
    if a.len() == 0 {
        assert(x + feed(a) =~= x);
        assert(y + feed(b) =~= y);
    } else {
        let ia = a.drop_last();
        let ib = b.drop_last();
        let k = a.len() - 1;
        assert(x + feed(a) =~= (x + feed(ia)) + field_bytes(a.last()));
        assert(y + feed(b) =~= (y + feed(ib)) + field_bytes(b.last()));
        assert(same_kind(a[k], b[k]) && bounded(a[k]) && bounded(b[k]));
        lemma_read_last_field(x + feed(ia), a.last(), y + feed(ib), b.last());
        assert(all_bounded(ia)) by {
            assert forall|i: int| 0 <= i < ia.len() implies bounded(#[trigger] ia[i]) by {
                assert(bounded(a[i]));
            }
        }
        assert(all_bounded(ib)) by {
            assert forall|i: int| 0 <= i < ib.len() implies bounded(#[trigger] ib[i]) by {
                assert(bounded(b[i]));
            }
        }
        assert forall|i: int| 0 <= i < ia.len() implies same_kind(#[trigger] ia[i], ib[i]) by {
            assert(same_kind(a[i], b[i]));
        }
        law_same_shape_decodes_from_the_end(x, ia, y, ib);
        assert forall|i: int| 0 <= i < a.len() implies same_field(#[trigger] a[i], b[i]) by {
            if i < k {
                assert(same_field(ia[i], ib[i]));
            }
        }
    }
}

/// The eighth byte of a number's encoding is its length, which is not zero.
pub proof fn lemma_number_eighth_byte(d: Decimal, rest: Seq<u8>)
    requires
        d.wf(),
    ensures
        (field_bytes(Field::Number(d)) + rest).len() >= 9,
        (field_bytes(Field::Number(d)) + rest)[7] != 0,
        forall|i: int|
            0 <= i < 7 ==> #[trigger] (field_bytes(Field::Number(d)) + rest)[i] == 0,
{
    lemma_number_field(d);
}

// ---------------------------------------------------------------------------
// Writing.
// ---------------------------------------------------------------------------

/// Collects the encoding of fields, one after the other.
pub(crate) struct Encoder {
    bytes: Vec<u8>,
    fields: Ghost<Seq<Field>>,
}

impl Encoder {
    /// The fields written so far.
    pub(crate) closed spec fn written(&self) -> Seq<Field> {
        self.fields@
    }

    /// The bytes are the encoding of the fields.
    pub(crate) closed spec fn wf(&self) -> bool {
        self.bytes@ == feed(self.fields@)
    }

    pub(crate) fn new() -> (r: Encoder)
        ensures
            r.wf(),
            r.written() == Seq::<Field>::empty(),
    {
        Encoder { bytes: Vec::new(), fields: Ghost(Seq::empty()) }
    }

    /// The encoding of the fields written.
    pub(crate) fn into_bytes(self) -> (r: Vec<u8>)
        requires
            self.wf(),
        ensures
            r@ == feed(self.written()),
    {
        self.bytes
    }

    pub(crate) fn tag(&mut self, b: u8)
        requires
            old(self).wf(),
        ensures
            final(self).wf(),
            final(self).written() == old(self).written().push(Field::Tag(b)),
    {
        let ghost fields = self.fields@.push(Field::Tag(b));
        assert(fields.drop_last() =~= self.fields@);
        self.bytes.push(b);
        self.fields = Ghost(fields);
        assert(self.bytes@ =~= feed(self.fields@));
    }

    pub(crate) fn word(&mut self, n: u64)
        requires
            old(self).wf(),
        ensures
            final(self).wf(),
            final(self).written() == old(self).written().push(Field::Word(n as nat)),
    {
        let ghost fields = self.fields@.push(Field::Word(n as nat));
        assert(fields.drop_last() =~= self.fields@);
        push_word(&mut self.bytes, n);
        self.fields = Ghost(fields);
    }

    pub(crate) fn time(&mut self, t: i64)
        requires
            old(self).wf(),
        ensures
            final(self).wf(),
            final(self).written() == old(self).written().push(Field::Word(time_word(t))),
    {
        let n: u64 = if t < 0 {
            (t as i128 + 0x1_0000_0000_0000_0000) as u64
        } else {
            t as u64
        };
        self.word(n);
    }

    pub(crate) fn number(&mut self, d: Decimal)
        requires
            old(self).wf(),
        ensures
            final(self).wf(),
            final(self).written() == old(self).written().push(Field::Number(d)),
    {
        proof {
            use_type_invariant(&d);
            lemma_number_text(d);
        }
        let ghost fields = self.fields@.push(Field::Number(d));
        let ghost before = self.bytes@;
        assert(fields.drop_last() =~= self.fields@);
        let text = d.normalize().to_string();
        let bytes = text.as_str().as_bytes();
        assert(bytes@ == encode_utf8(normal_text(d)));
        let n = bytes.len();
        push_word(&mut self.bytes, n as u64);
        let ghost head = self.bytes@;
        for i in 0..n
            invariant
                n == bytes@.len(),
                self.bytes@ == head + bytes@.take(i as int),
        {
            self.bytes.push(bytes[i]);
            assert(self.bytes@ =~= head + bytes@.take(i as int + 1));
        }
        assert(bytes@.take(n as int) =~= bytes@);
        self.fields = Ghost(fields);
        assert(self.bytes@ =~= before + field_bytes(Field::Number(d)));
    }
}

fn push_be(out: &mut Vec<u8>, n: u64, width: u8)
    ensures
        final(out)@ == old(out)@ + be_bytes(n as nat, width as nat),
    decreases width,
{
    let ghost before = out@;
    if width > 0 {
        push_be(out, n / 256, width - 1);
        out.push((n % 256) as u8);
    }
    assert(out@ =~= before + be_bytes(n as nat, width as nat));
}

fn push_word(out: &mut Vec<u8>, n: u64)
    ensures
        final(out)@ == old(out)@ + word_bytes(n as nat),
{
    push_be(out, n, 8);
}

// ---------------------------------------------------------------------------
// The digest.
// ---------------------------------------------------------------------------

/// The SHA-256 digest of a byte string.
pub uninterp spec fn sha256(bytes: Seq<u8>) -> Seq<u8>;

/// `sha2::Sha256::digest`. Claimed: the result depends on the bytes alone and has 32
/// bytes.
#[verifier::external_body]
fn sha2_digest(bytes: &Vec<u8>) -> (r: Vec<u8>)
    ensures
        r@ == sha256(bytes@),
        r@.len() == 32,
{
    sha2::Sha256::digest(bytes.as_slice()).to_vec()
}

/// The lowercase hexadecimal digit of a value below sixteen.
pub open spec fn hex_digit(n: int) -> char {
    if n < 10 {
        (48 + n) as char
    } else {
        (87 + n) as char
    }
}

/// Two lowercase hexadecimal digits per byte.
pub open spec fn hex(bytes: Seq<u8>) -> Seq<char> {
    Seq::new(
        2 * bytes.len(),
        |i: int|
            if i % 2 == 0 {
                hex_digit(bytes[i / 2] as int / 16)
            } else {
                hex_digit(bytes[i / 2] as int % 16)
            },
    )
}

/// Whether a character is a lowercase hexadecimal digit.
pub open spec fn is_lower_hex(c: char) -> bool {
    48 <= c as int <= 57 || 97 <= c as int <= 102
}

fn hex_char(n: u8) -> (c: char)
    requires
        n < 16,
    ensures
        c == hex_digit(n as int),
{
    if n < 10 {
        (48u8 + n) as char
    } else {
        (87u8 + n) as char
    }
}

/// The hexadecimal digest of a byte string: 64 lowercase digits.
pub(crate) fn digest_hex(bytes: &Vec<u8>) -> (text: String)
    ensures
        text@ == hex(sha256(bytes@)),
        text@.len() == 64,
        forall|i: int| 0 <= i < 64 ==> is_lower_hex(#[trigger] text@[i]),
{
    let digest = sha2_digest(bytes);
    let ghost all = hex(digest@);
    let mut text = String::new();
    for i in 0..32usize
        invariant
            digest@.len() == 32,
            all == hex(digest@),
            text@ == all.take(2 * i),
    {
        let b = digest[i];
        text.push(hex_char(b / 16));
        text.push(hex_char(b % 16));
        assert(text@ =~= all.take(2 * (i + 1)));
    }
    assert(all.take(64) =~= all);
    assert forall|i: int| 0 <= i < 64 implies is_lower_hex(#[trigger] text@[i]) by {
        let b = digest@[i / 2] as int;
        assert(0 <= b / 16 < 16 && 0 <= b % 16 < 16);
    }
    text
}

/// A count is written as eight bytes, the most significant one first.
pub proof fn law_words_are_big_endian(n: nat)
    requires
        n < 0x1_0000_0000_0000_0000,
    ensures
        word_bytes(n).len() == 8,
        n == word_bytes(n)[0] * 0x100_0000_0000_0000 + word_bytes(n)[1] * 0x1_0000_0000_0000
            + word_bytes(n)[2] * 0x100_0000_0000 + word_bytes(n)[3] * 0x1_0000_0000
            + word_bytes(n)[4] * 0x100_0000 + word_bytes(n)[5] * 0x1_0000 + word_bytes(n)[6]
            * 0x100 + word_bytes(n)[7],
{
    lemma_be_length(n, 8);
    reveal_with_fuel(be_bytes, 9);
    let n1 = n / 256;
    let n2 = n1 / 256;
    let n3 = n2 / 256;
    let n4 = n3 / 256;
    let n5 = n4 / 256;
    let n6 = n5 / 256;
    let n7 = n6 / 256;
    let bytes = word_bytes(n);
    lemma_be_length(n1, 7);
    lemma_be_length(n2, 6);
    lemma_be_length(n3, 5);
    lemma_be_length(n4, 4);
    lemma_be_length(n5, 3);
    lemma_be_length(n6, 2);
    lemma_be_length(n7, 1);
    assert(bytes[7] == n % 256);
    assert(bytes[6] == be_bytes(n1, 7)[6]);
    assert(bytes[5] == be_bytes(n2, 6)[5]);
    assert(bytes[4] == be_bytes(n3, 5)[4]);
    assert(bytes[3] == be_bytes(n4, 4)[3]);
    assert(bytes[2] == be_bytes(n5, 3)[2]);
    assert(bytes[1] == be_bytes(n6, 2)[1]);
    assert(bytes[0] == be_bytes(n7, 1)[0]);
}

/// A time is its own count, or that of its two's complement.
pub proof fn law_times_are_words(t: i64)
    ensures
        time_word(t) < 0x1_0000_0000_0000_0000,
        t >= 0 ==> time_word(t) == t,
        t < 0 ==> time_word(t) - t == 0x1_0000_0000_0000_0000,
{
}

/// A tag is one byte, a count a word, and a number the word of the length of its shortest
/// text and then this text. A list is its fields, one behind the other.
pub proof fn law_fields_are_written_in_order(
    a: Seq<Field>,
    b: Seq<Field>,
    f: Field,
    tag: u8,
    n: nat,
    d: Decimal,
)
    ensures
        feed(a + b) == feed(a) + feed(b),
        feed(seq![f]) == field_bytes(f),
        field_bytes(Field::Tag(tag)) == seq![tag],
        field_bytes(Field::Word(n)) == word_bytes(n),
        field_bytes(Field::Number(d)).skip(8) == encode_utf8(normal_text(d)),
        field_bytes(Field::Number(d)).take(8) == word_bytes(encode_utf8(normal_text(d)).len()),
{
    lemma_feed_concat(a, b);
    assert(seq![f].drop_last() =~= Seq::<Field>::empty());
    assert(feed(Seq::empty()) + field_bytes(f) =~= field_bytes(f));
    let e = encode_utf8(normal_text(d));
    lemma_word(e.len());
    assert((word_bytes(e.len()) + e).skip(8) =~= e);
    assert((word_bytes(e.len()) + e).take(8) =~= word_bytes(e.len()));
}

/// The value of a lowercase hexadecimal digit.
pub open spec fn digit_value(c: char) -> int {
    if c as int <= 57 {
        c as int - 48
    } else {
        c as int - 87
    }
}

/// A byte is written as two lowercase hexadecimal digits, the higher one first.
pub proof fn law_bytes_are_written_in_hex(bytes: Seq<u8>, i: int)
    requires
        0 <= i < bytes.len(),
    ensures
        hex(bytes).len() == 2 * bytes.len(),
        is_lower_hex(hex(bytes)[2 * i]),
        is_lower_hex(hex(bytes)[2 * i + 1]),
        digit_value(hex(bytes)[2 * i]) * 16 + digit_value(hex(bytes)[2 * i + 1]) == bytes[i],
{
    let b = bytes[i] as int;
    assert((2 * i) / 2 == i && (2 * i) % 2 == 0);
    assert((2 * i + 1) / 2 == i && (2 * i + 1) % 2 == 1);
    assert(0 <= b / 16 < 16 && 0 <= b % 16 < 16);
}

} // verus!
