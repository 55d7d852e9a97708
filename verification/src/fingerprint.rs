//! Fingerprints over the inputs of a build: what is fed to the hashers, and how the result is
//! written.

use std::collections::hash_map::DefaultHasher;
use std::hash::Hasher;

use vstd::bytes::{
    lemma_auto_spec_u64_to_from_le_bytes, spec_u64_from_le_bytes, spec_u64_to_le_bytes,
    u64_to_le_bytes,
};
use vstd::prelude::*;
use vstd::seq_lib::lemma_flatten_concat;
use vstd::std_specs::hash::DefaultHasherAdditionalSpecFns;
use vstd::utf8::encode_utf8;

verus! {

/// The lower-case hexadecimal digit of a number below sixteen.
pub open spec fn hex_digit(n: int) -> char {
    if n < 10 {
        (48 + n) as char
    } else {
        (87 + n) as char
    }
}

/// The last hexadecimal digits of a number, with leading zeros.
pub open spec fn hex_text(n: int, width: nat) -> Seq<char>
    decreases width,
{
    if width == 0 {
        Seq::empty()
    } else {
        hex_text(n / 16, (width - 1) as nat).push(hex_digit(n % 16))
    }
}

/// The hexadecimal digit of a number below sixteen.
fn digit_char(n: u8) -> (r: char)
    requires
        n < 16,
    ensures
        r == hex_digit(n as int),
{
    if n < 10 {
        (48 + n) as char
    } else {
        (87 + n) as char
    }
}

/// Appends the last hexadecimal digits of a number.
fn push_hex(out: &mut String, n: u64, width: u32)
    ensures
        final(out)@ == old(out)@ + hex_text(n as int, width as nat),
    decreases width,
{
    if width == 0 {
        proof {
            assert(out@ + hex_text(n as int, 0) =~= out@);
        }
        return;
    }
    push_hex(out, n / 16, width - 1);
    out.push(digit_char((n % 16) as u8));
    proof {
        assert(out@ =~= old(out)@ + hex_text(n as int, width as nat));
    }
}

/// A name and a value that go into a fingerprint.
#[verifier::ext_equal]
pub struct Field {
    pub name: Seq<u8>,
    pub value: Seq<u8>,
}

/// What is written to the hashers for a field: each part after its length.
pub open spec fn field_writes(field: Field) -> Seq<Seq<u8>> {
    seq![
        spec_u64_to_le_bytes(field.name.len() as u64),
        field.name,
        spec_u64_to_le_bytes(field.value.len() as u64),
        field.value,
    ]
}

/// What is written to the hashers for several fields.
pub open spec fn all_writes(fields: Seq<Field>) -> Seq<Seq<u8>>
    decreases fields.len(),
{
    if fields.len() == 0 {
        Seq::empty()
    } else {
        all_writes(fields.drop_last()) + field_writes(fields.last())
    }
}

/// The text of the fingerprint of several fields: the results of two hashers, the second of which
/// starts with one more byte.
pub open spec fn fingerprint_text(fields: Seq<Field>) -> Seq<char> {
    hex_text(DefaultHasher::spec_finish(all_writes(fields)) as int, 16) + hex_text(
        DefaultHasher::spec_finish(seq![seq![1u8]] + all_writes(fields)) as int,
        16,
    )
}

/// Two hashers that are fed the same fields.
pub struct FingerprintHasher {
    first: DefaultHasher,
    second: DefaultHasher,
    fields: Ghost<Seq<Field>>,
}

impl View for FingerprintHasher {
    type V = Seq<Field>;

    /// The fields that were hashed.
    closed spec fn view(&self) -> Seq<Field> {
        self.fields@
    }
}

impl FingerprintHasher {
    /// Both hashers were fed the fields, and the second one more byte before them.
    pub closed spec fn wf(&self) -> bool {
        &&& self.first@ == all_writes(self.fields@)
        &&& self.second@ == seq![seq![1u8]] + all_writes(self.fields@)
    }

    /// Hashers that were fed nothing.
    pub fn new() -> (r: FingerprintHasher)
        ensures
            r.wf(),
            r@ == Seq::<Field>::empty(),
    {
        let first = DefaultHasher::new();
        let mut second = DefaultHasher::new();
        let start: [u8; 1] = [1];
        second.write(&start);
        proof {
            assert(start@ =~= seq![1u8]);
            assert(second@ =~= seq![seq![1u8]] + all_writes(Seq::<Field>::empty()));
            assert(first@ =~= all_writes(Seq::<Field>::empty()));
        }
        FingerprintHasher { first, second, fields: Ghost(Seq::empty()) }
    }

    /// Feeds both hashers.
    fn write(&mut self, value: &[u8])
        ensures
            final(self).first@ == old(self).first@.push(value@),
            final(self).second@ == old(self).second@.push(value@),
            final(self).fields == old(self).fields,
    {
        self.first.write(value);
        self.second.write(value);
    }

    /// Hashes one more field.
    pub fn hash_field(&mut self, name: &str, value: &[u8])
        requires
            old(self).wf(),
        ensures
            final(self).wf(),
            final(self)@ == old(self)@.push((Field { name: encode_utf8(name@), value: value@ })),
    {
        let ghost field = Field { name: encode_utf8(name@), value: value@ };
        let ghost before = self.fields@;
        let bytes = name.as_bytes();
        let name_length = u64_to_le_bytes(bytes.len() as u64);
        self.write(name_length.as_slice());
        self.write(bytes);
        let value_length = u64_to_le_bytes(value.len() as u64);
        self.write(value_length.as_slice());
        self.write(value);
        proof {
            let after = before.push(field);
            assert(after.drop_last() =~= before);
            assert(self.first@ =~= all_writes(before) + field_writes(field));
            assert(self.second@ =~= seq![seq![1u8]] + all_writes(after));
            self.fields@ = after;
        }
    }

    /// The text of the fingerprint.
    pub fn finish(self) -> (r: String)
        requires
            self.wf(),
        ensures
            r@ == fingerprint_text(self@),
    {
        let mut out: String = String::new();
        push_hex(&mut out, self.first.finish(), 16);
        push_hex(&mut out, self.second.finish(), 16);
        proof {
            assert(out@ =~= fingerprint_text(self@));
        }
        out
    }
}

/// The bytes that the hashers see for several fields.
pub open spec fn hashed_bytes(fields: Seq<Field>) -> Seq<u8> {
    all_writes(fields).flatten()
}

/// The bytes that the hashers see for one field.
pub open spec fn field_bytes(field: Field) -> Seq<u8> {
    spec_u64_to_le_bytes(field.name.len() as u64) + field.name + spec_u64_to_le_bytes(
        field.value.len() as u64,
    ) + field.value
}

/// Names and values whose lengths can be counted in 64 bits.
pub open spec fn lengths_fit(fields: Seq<Field>) -> bool {
    forall|i: int|
        0 <= i < fields.len() ==> (#[trigger] fields[i]).name.len() <= u64::MAX
            && fields[i].value.len() <= u64::MAX
}

/// What is written starts with the first field.
proof fn writes_from_front(fields: Seq<Field>)
    requires
        fields.len() > 0,
    ensures
        all_writes(fields) == field_writes(fields[0]) + all_writes(fields.skip(1)),
    decreases fields.len(),
{
    if fields.len() == 1 {
        assert(fields.drop_last() =~= Seq::<Field>::empty());
        assert(fields.skip(1) =~= Seq::<Field>::empty());
        assert(all_writes(Seq::<Field>::empty()) =~= Seq::<Seq<u8>>::empty());
        assert(all_writes(fields) =~= all_writes(fields.drop_last()) + field_writes(fields[0]));
    } else {
        writes_from_front(fields.drop_last());
        assert(fields.drop_last().skip(1) =~= fields.skip(1).drop_last());
        assert(all_writes(fields) =~= field_writes(fields[0]) + all_writes(fields.skip(1)));
    }
}

/// The bytes that the hashers see start with those of the first field.
proof fn bytes_from_front(fields: Seq<Field>)
    requires
        fields.len() > 0,
    ensures
        hashed_bytes(fields) == field_bytes(fields[0]) + hashed_bytes(fields.skip(1)),
{
    let field = fields[0];
    writes_from_front(fields);
    lemma_flatten_concat(field_writes(field), all_writes(fields.skip(1)));
    let size = spec_u64_to_le_bytes(field.name.len() as u64);
    let value_size = spec_u64_to_le_bytes(field.value.len() as u64);
    let writes = field_writes(field);
    assert(writes.drop_first() =~= seq![field.name, value_size, field.value]);
    assert(writes.drop_first().drop_first() =~= seq![value_size, field.value]);
    assert(writes.drop_first().drop_first().drop_first() =~= seq![field.value]);
    assert(writes.drop_first().drop_first().drop_first().drop_first() =~= Seq::<
        Seq<u8>,
    >::empty());
    reveal_with_fuel(Seq::<_>::flatten, 5);
    assert(writes.flatten() =~= field_bytes(field));
}

/// A part with its length before it can be told from what follows.
proof fn part_is_delimited(a: Seq<u8>, x: Seq<u8>, b: Seq<u8>, y: Seq<u8>)
    requires
        a.len() <= u64::MAX,
        b.len() <= u64::MAX,
        spec_u64_to_le_bytes(a.len() as u64) + a + x == spec_u64_to_le_bytes(b.len() as u64) + b
            + y,
    ensures
        a == b,
        x == y,
{
    lemma_auto_spec_u64_to_from_le_bytes();
    let p = spec_u64_to_le_bytes(a.len() as u64);
    let q = spec_u64_to_le_bytes(b.len() as u64);
    let whole = p + a + x;
    assert(whole.take(8) =~= p);
    assert(whole.take(8) =~= q);
    assert(spec_u64_from_le_bytes(p) == a.len() && spec_u64_from_le_bytes(q) == b.len());
    assert(whole.subrange(8, 8 + a.len() as int) =~= a);
    assert(whole.subrange(8, 8 + a.len() as int) =~= b);
    assert(whole.skip(8 + a.len() as int) =~= x);
    assert(whole.skip(8 + a.len() as int) =~= y);
}

/// Every input counts: the bytes that the hashers see determine each field and their order, so
/// that fingerprints of different fields can only agree where the hashers collide.
pub proof fn hashed_bytes_determine_fields(a: Seq<Field>, b: Seq<Field>)
    requires
        lengths_fit(a),
        lengths_fit(b),
        hashed_bytes(a) == hashed_bytes(b),
    ensures
        a == b,
    decreases a.len(),
{
    lemma_auto_spec_u64_to_from_le_bytes();
    if a.len() > 0 {
        bytes_from_front(a);
    }
    if b.len() > 0 {
        bytes_from_front(b);
    }
    if a.len() > 0 && b.len() > 0 {
        let f = a[0];
        let g = b[0];
        let x = hashed_bytes(a.skip(1));
        let y = hashed_bytes(b.skip(1));
        let u = spec_u64_to_le_bytes(f.value.len() as u64) + f.value + x;
        let v = spec_u64_to_le_bytes(g.value.len() as u64) + g.value + y;
        assert(spec_u64_to_le_bytes(f.name.len() as u64) + f.name + u =~= hashed_bytes(a));
        assert(spec_u64_to_le_bytes(g.name.len() as u64) + g.name + v =~= hashed_bytes(b));
        part_is_delimited(f.name, u, g.name, v);
        part_is_delimited(f.value, x, g.value, y);
        hashed_bytes_determine_fields(a.skip(1), b.skip(1));
        assert(a =~= seq![f] + a.skip(1));
        assert(b =~= seq![g] + b.skip(1));
    } else {
        let none = Seq::<Field>::empty();
        assert(hashed_bytes(none).len() == 0);
        if a.len() > 0 {
            assert(b =~= none);
            assert(field_bytes(a[0]).len() > 0);
        }
        if b.len() > 0 {
            assert(a =~= none);
            assert(field_bytes(b[0]).len() > 0);
        }
        assert(a =~= b);
    }
}

/// A number is written in as many hexadecimal digits as asked for.
proof fn hex_text_shape(n: int, width: nat)
    requires
        n >= 0,
    ensures
        hex_text(n, width).len() == width,
        forall|i: int|
            0 <= i < width ==> is_hex_digit(#[trigger] hex_text(n, width)[i]),
    decreases width,
{
    if width > 0 {
        hex_text_shape(n / 16, (width - 1) as nat);
        let shorter = hex_text(n / 16, (width - 1) as nat);
        assert forall|i: int| 0 <= i < width implies is_hex_digit(
            #[trigger] hex_text(n, width)[i],
        ) by {
            if i < width - 1 {
                assert(is_hex_digit(shorter[i]));
            }
        }
    }
}

/// A lower-case hexadecimal digit.
pub open spec fn is_hex_digit(c: char) -> bool {
    ('0' <= c && c <= '9') || ('a' <= c && c <= 'f')
}

/// A fingerprint is written in thirty-two hexadecimal digits.
pub proof fn fingerprint_digits(fields: Seq<Field>)
    ensures
        fingerprint_text(fields).len() == 32,
        forall|i: int| 0 <= i < 32 ==> is_hex_digit(#[trigger] fingerprint_text(fields)[i]),
{
    let first = DefaultHasher::spec_finish(all_writes(fields)) as int;
    let second = DefaultHasher::spec_finish(seq![seq![1u8]] + all_writes(fields)) as int;
    hex_text_shape(first, 16);
    hex_text_shape(second, 16);
    assert forall|i: int| 0 <= i < 32 implies is_hex_digit(
        #[trigger] fingerprint_text(fields)[i],
    ) by {
        if i < 16 {
            assert(fingerprint_text(fields)[i] == hex_text(first, 16)[i]);
        } else {
            assert(fingerprint_text(fields)[i] == hex_text(second, 16)[i - 16]);
        }
    }
}

} // verus!
