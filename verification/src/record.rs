//! The hash record: cost parameters, salt and digest in one printable line.
//!
//! A record reads `$<variant>$v=<version>$m=<memory>,t=<time>,p=<lanes>$<salt>$<digest>`,
//! the numbers in decimal, salt and digest in unpadded base64. It carries all
//! that checking a password against it takes.

use crate::base64::{
    base64, decode_base64, in_alphabet, lemma_base64_alphabet, lemma_base64_injective, push_base64,
};
use crate::decimal::{
    decimal, is_digit, lemma_decimal_injective, lemma_decimal_value, parse_decimal, push_decimal,
};
use crate::errors::DecodeError;
use crate::fields::{
    all_free_of, fields, free_of, joined, lemma_fields_of_join, lemma_join_of_fields, split_fields,
    views,
};
use crate::kdf::{MIN_DIGEST_LENGTH, MIN_SALT_LENGTH};
use crate::policy::{HashingPolicy, Parameters, Variant, Version};
use crate::text::{ascii_string, ascii_text, is_ascii, lemma_ascii_text_bytes};
use vstd::prelude::*;
use vstd::slice::slice_subrange;
use vstd::utf8::{encode_utf8, encode_utf8_decode_utf8};

verus! {

/// The byte `$`, which stands before each field of a record.
pub const DOLLAR: u8 = 36;

/// The byte `,`, which stands between the three costs.
pub const COMMA: u8 = 44;

/// The byte `=`, which stands between a tag and its number.
pub const EQUALS: u8 = 61;

/// The tag `v` of the revision.
pub const TAG_VERSION: u8 = 118;

/// The tag `m` of the memory cost.
pub const TAG_MEMORY: u8 = 109;

/// The tag `t` of the time cost.
pub const TAG_TIME: u8 = 116;

/// The tag `p` of the number of lanes.
pub const TAG_LANES: u8 = 112;

/// Whether `b` is one of the four tags.
pub open spec fn is_tag(b: u8) -> bool {
    b == TAG_VERSION || b == TAG_MEMORY || b == TAG_TIME || b == TAG_LANES
}

/// A tag, `=`, and a number in decimal.
pub open spec fn tagged(tag: u8, n: u32) -> Seq<u8> {
    seq![tag, EQUALS] + decimal(n as nat)
}

/// What a record holds, as plain values.
pub struct RecordView {
    pub params: Parameters,
    pub salt: Seq<u8>,
    pub digest: Seq<u8>,
}

impl RecordView {
    /// Whether the key-derivation function can run on what the record holds:
    /// valid parameters, a salt of eight bytes or more, a digest of four or more.
    pub open spec fn valid(self) -> bool {
        &&& self.params.valid()
        &&& MIN_SALT_LENGTH <= self.salt.len() <= u32::MAX
        &&& MIN_DIGEST_LENGTH <= self.digest.len() <= u32::MAX
    }

    /// The three costs, each behind its tag.
    pub open spec fn cost_parts(self) -> Seq<Seq<u8>> {
        seq![
            tagged(TAG_MEMORY, self.params.memory_cost),
            tagged(TAG_TIME, self.params.time_cost),
            tagged(TAG_LANES, self.params.lanes),
        ]
    }

    /// The six fields of the record's text; the first, before the leading `$`,
    /// is empty.
    pub open spec fn parts(self) -> Seq<Seq<u8>> {
        seq![
            Seq::<u8>::empty(),
            self.params.variant.name(),
            tagged(TAG_VERSION, self.params.version.number()),
            joined(self.cost_parts(), COMMA),
            base64(self.salt),
            base64(self.digest),
        ]
    }

    /// The record's text: its fields with `$` between them.
    pub open spec fn encoding(self) -> Seq<u8> {
        joined(self.parts(), DOLLAR)
    }
}

/// Whether `text` is the text of a valid record.
pub open spec fn is_record(text: Seq<u8>) -> bool {
    exists|v: RecordView| v.valid() && #[trigger] v.encoding() == text
}

/// The valid record whose text `text` is, if it is the text of one.
pub open spec fn record_of(text: Seq<u8>) -> Option<RecordView> {
    if is_record(text) {
        Some(choose|v: RecordView| v.valid() && #[trigger] v.encoding() == text)
    } else {
        None
    }
}

/// Three parts joined, written out.
proof fn lemma_joined_three(a: Seq<u8>, b: Seq<u8>, c: Seq<u8>, sep: u8)
    ensures
        joined(seq![a, b, c], sep) == a + seq![sep] + b + seq![sep] + c,
{
    let abc = seq![a, b, c];
    let ab = seq![a, b];
    assert(abc.drop_last() =~= ab);
    assert(ab.drop_last() =~= seq![a]);
    assert(joined(seq![a], sep) == a);
    assert(joined(ab, sep) == a + seq![sep] + b);
}

/// Six parts joined, written out.
proof fn lemma_joined_six(
    a: Seq<u8>,
    b: Seq<u8>,
    c: Seq<u8>,
    d: Seq<u8>,
    e: Seq<u8>,
    f: Seq<u8>,
    sep: u8,
)
    ensures
        joined(seq![a, b, c, d, e, f], sep) == a + seq![sep] + b + seq![sep] + c + seq![sep] + d
            + seq![sep] + e + seq![sep] + f,
{
    let all = seq![a, b, c, d, e, f];
    let five = seq![a, b, c, d, e];
    let four = seq![a, b, c, d];
    let three = seq![a, b, c];
    assert(all.drop_last() =~= five);
    assert(five.drop_last() =~= four);
    assert(four.drop_last() =~= three);
    lemma_joined_three(a, b, c, sep);
    assert(joined(four, sep) == joined(three, sep) + seq![sep] + d);
    assert(joined(five, sep) == joined(four, sep) + seq![sep] + e);
}

/// The text of a record, written out piece by piece.
pub proof fn lemma_encoding_written_out(v: RecordView)
    ensures
        v.encoding() == seq![DOLLAR] + v.params.variant.name() + seq![DOLLAR] + tagged(
            TAG_VERSION,
            v.params.version.number(),
        ) + seq![DOLLAR] + tagged(TAG_MEMORY, v.params.memory_cost) + seq![COMMA] + tagged(
            TAG_TIME,
            v.params.time_cost,
        ) + seq![COMMA] + tagged(TAG_LANES, v.params.lanes) + seq![DOLLAR] + base64(v.salt)
            + seq![DOLLAR] + base64(v.digest),
{
    let name = v.params.variant.name();
    let ver = tagged(TAG_VERSION, v.params.version.number());
    let m = tagged(TAG_MEMORY, v.params.memory_cost);
    let t = tagged(TAG_TIME, v.params.time_cost);
    let p = tagged(TAG_LANES, v.params.lanes);
    let costs = joined(v.cost_parts(), COMMA);
    lemma_joined_three(m, t, p, COMMA);
    lemma_joined_six(Seq::<u8>::empty(), name, ver, costs, base64(v.salt), base64(v.digest), DOLLAR);
    let d = seq![DOLLAR];
    let c = seq![COMMA];
    assert(Seq::<u8>::empty() + d + name + d + ver + d + (m + c + t + c + p) + d + base64(v.salt)
        + d + base64(v.digest) =~= d + name + d + ver + d + m + c + t + c + p + d + base64(v.salt)
        + d + base64(v.digest));
}

/// A tagged number holds neither `$` nor `,`.
proof fn lemma_tagged_free(tag: u8, n: u32, sep: u8)
    requires
        is_tag(tag),
        sep == DOLLAR || sep == COMMA,
    ensures
        free_of(tagged(tag, n), sep),
{
    lemma_decimal_value(n as nat);
    let d = decimal(n as nat);
    let s = tagged(tag, n);
    assert forall|i: int| 0 <= i < s.len() implies #[trigger] s[i] != sep by {
        if i >= 2 {
            assert(s[i] == d[i - 2]);
            assert(is_digit(d[i - 2]));
        }
    }
}

/// Base64 text holds neither `$` nor `,`.
proof fn lemma_base64_free(bytes: Seq<u8>, sep: u8)
    requires
        sep == DOLLAR || sep == COMMA,
    ensures
        free_of(base64(bytes), sep),
{
    lemma_base64_alphabet(bytes);
    let s = base64(bytes);
    assert forall|i: int| 0 <= i < s.len() implies #[trigger] s[i] != sep by {
        assert(in_alphabet(s[i]));
    }
}

/// Cutting a record's text at `$` gives its six fields, and cutting the
/// fourth of them at `,` gives the three costs.
pub proof fn lemma_fields_of_encoding(v: RecordView)
    ensures
        fields(v.encoding(), DOLLAR) == v.parts(),
        fields(v.parts()[3], COMMA) == v.cost_parts(),
{
    let costs = v.cost_parts();
    lemma_tagged_free(TAG_MEMORY, v.params.memory_cost, COMMA);
    lemma_tagged_free(TAG_TIME, v.params.time_cost, COMMA);
    lemma_tagged_free(TAG_LANES, v.params.lanes, COMMA);
    assert(all_free_of(costs, COMMA));
    lemma_fields_of_join(costs, COMMA);

    lemma_tagged_free(TAG_MEMORY, v.params.memory_cost, DOLLAR);
    lemma_tagged_free(TAG_TIME, v.params.time_cost, DOLLAR);
    lemma_tagged_free(TAG_LANES, v.params.lanes, DOLLAR);
    lemma_tagged_free(TAG_VERSION, v.params.version.number(), DOLLAR);
    lemma_base64_free(v.salt, DOLLAR);
    lemma_base64_free(v.digest, DOLLAR);
    let m = tagged(TAG_MEMORY, v.params.memory_cost);
    let t = tagged(TAG_TIME, v.params.time_cost);
    let p = tagged(TAG_LANES, v.params.lanes);
    lemma_joined_three(m, t, p, COMMA);
    let joined_costs = joined(costs, COMMA);
    assert forall|i: int| 0 <= i < joined_costs.len() implies #[trigger] joined_costs[i]
        != DOLLAR by {
        if i < m.len() {
            assert(joined_costs[i] == m[i]);
        } else if i == m.len() {
        } else if i < m.len() + 1 + t.len() {
            assert(joined_costs[i] == t[i - m.len() - 1]);
        } else if i == m.len() + 1 + t.len() {
        } else {
            assert(joined_costs[i] == p[i - m.len() - t.len() - 2]);
        }
    }
    let parts = v.parts();
    assert(free_of(v.params.variant.name(), DOLLAR));
    assert(all_free_of(parts, DOLLAR));
    lemma_fields_of_join(parts, DOLLAR);
}

/// Equal tagged numbers under one tag are the same number.
proof fn lemma_tagged_injective(tag: u8, a: u32, b: u32)
    requires
        tagged(tag, a) == tagged(tag, b),
    ensures
        a == b,
{
    assert(tagged(tag, a).skip(2) =~= decimal(a as nat));
    assert(tagged(tag, b).skip(2) =~= decimal(b as nat));
    lemma_decimal_injective(a as nat, b as nat);
}

/// Different variants have different names.
proof fn lemma_name_injective(a: Variant, b: Variant)
    requires
        a.name() == b.name(),
    ensures
        a == b,
{
    let d = Variant::Argon2d.name();
    let i = Variant::Argon2i.name();
    let id = Variant::Argon2id.name();
    assert(d.len() == 7 && i.len() == 7 && id.len() == 8);
    assert(d[6] == 100 && i[6] == 105);
}

/// Different records have different text.
pub proof fn lemma_encoding_injective(a: RecordView, b: RecordView)
    requires
        a.encoding() == b.encoding(),
    ensures
        a == b,
{
    lemma_fields_of_encoding(a);
    lemma_fields_of_encoding(b);
    assert(a.parts() == b.parts());
    assert(a.parts()[1] == b.parts()[1]);
    assert(a.parts()[2] == b.parts()[2]);
    assert(a.parts()[3] == b.parts()[3]);
    assert(a.parts()[4] == b.parts()[4]);
    assert(a.parts()[5] == b.parts()[5]);
    lemma_name_injective(a.params.variant, b.params.variant);
    lemma_tagged_injective(TAG_VERSION, a.params.version.number(), b.params.version.number());
    assert(a.cost_parts() == b.cost_parts());
    assert(a.cost_parts()[0] == b.cost_parts()[0]);
    assert(a.cost_parts()[1] == b.cost_parts()[1]);
    assert(a.cost_parts()[2] == b.cost_parts()[2]);
    lemma_tagged_injective(TAG_MEMORY, a.params.memory_cost, b.params.memory_cost);
    lemma_tagged_injective(TAG_TIME, a.params.time_cost, b.params.time_cost);
    lemma_tagged_injective(TAG_LANES, a.params.lanes, b.params.lanes);
    lemma_base64_injective(a.salt, b.salt);
    lemma_base64_injective(a.digest, b.digest);
    assert(a.params.version == b.params.version);
    assert(a.params == b.params);
}

/// Reading the text of a valid record gives that record.
pub proof fn lemma_record_of_encoding(v: RecordView)
    requires
        v.valid(),
    ensures
        record_of(v.encoding()) == Some(v),
{
    assert(is_record(v.encoding()));
    lemma_encoding_injective(v, record_of(v.encoding()).unwrap());
}

/// Writing the record that was read from some text gives that text.
pub proof fn lemma_encoding_of_record(text: Seq<u8>)
    ensures
        record_of(text) matches Some(v) ==> v.valid() && v.encoding() == text,
{
}

/// A record's text is ASCII.
pub proof fn lemma_encoding_ascii(v: RecordView)
    ensures
        is_ascii(v.encoding()),
{
    lemma_encoding_written_out(v);
    lemma_decimal_value(v.params.version.number() as nat);
    lemma_decimal_value(v.params.memory_cost as nat);
    lemma_decimal_value(v.params.time_cost as nat);
    lemma_decimal_value(v.params.lanes as nat);
    lemma_base64_alphabet(v.salt);
    lemma_base64_alphabet(v.digest);
    lemma_ascii_tagged(TAG_VERSION, v.params.version.number());
    lemma_ascii_tagged(TAG_MEMORY, v.params.memory_cost);
    lemma_ascii_tagged(TAG_TIME, v.params.time_cost);
    lemma_ascii_tagged(TAG_LANES, v.params.lanes);
    lemma_ascii_base64(v.salt);
    lemma_ascii_base64(v.digest);
    let d = seq![DOLLAR];
    let c = seq![COMMA];
    let name = v.params.variant.name();
    assert(is_ascii(d));
    assert(is_ascii(c));
    assert(is_ascii(name));
    let s1 = d + name;
    lemma_ascii_concat(d, name);
    let s2 = s1 + d;
    lemma_ascii_concat(s1, d);
    let s3 = s2 + tagged(TAG_VERSION, v.params.version.number());
    lemma_ascii_concat(s2, tagged(TAG_VERSION, v.params.version.number()));
    let s4 = s3 + d;
    lemma_ascii_concat(s3, d);
    let s5 = s4 + tagged(TAG_MEMORY, v.params.memory_cost);
    lemma_ascii_concat(s4, tagged(TAG_MEMORY, v.params.memory_cost));
    let s6 = s5 + c;
    lemma_ascii_concat(s5, c);
    let s7 = s6 + tagged(TAG_TIME, v.params.time_cost);
    lemma_ascii_concat(s6, tagged(TAG_TIME, v.params.time_cost));
    let s8 = s7 + c;
    lemma_ascii_concat(s7, c);
    let s9 = s8 + tagged(TAG_LANES, v.params.lanes);
    lemma_ascii_concat(s8, tagged(TAG_LANES, v.params.lanes));
    let s10 = s9 + d;
    lemma_ascii_concat(s9, d);
    let s11 = s10 + base64(v.salt);
    lemma_ascii_concat(s10, base64(v.salt));
    let s12 = s11 + d;
    lemma_ascii_concat(s11, d);
    lemma_ascii_concat(s12, base64(v.digest));
}

/// Two ASCII texts, one behind the other, are ASCII.
proof fn lemma_ascii_concat(a: Seq<u8>, b: Seq<u8>)
    requires
        is_ascii(a),
        is_ascii(b),
    ensures
        is_ascii(a + b),
{
    let s = a + b;
    assert forall|i: int| 0 <= i < s.len() implies #[trigger] s[i] < 128 by {
        if i < a.len() {
            assert(s[i] == a[i]);
        } else {
            assert(s[i] == b[i - a.len()]);
        }
    }
}

/// A tagged number is ASCII.
proof fn lemma_ascii_tagged(tag: u8, n: u32)
    requires
        is_tag(tag),
    ensures
        is_ascii(tagged(tag, n)),
{
    lemma_decimal_value(n as nat);
    let d = decimal(n as nat);
    let s = tagged(tag, n);
    assert forall|i: int| 0 <= i < s.len() implies #[trigger] s[i] < 128 by {
        if i >= 2 {
            assert(s[i] == d[i - 2]);
            assert(is_digit(d[i - 2]));
        }
    }
}

/// Base64 text is ASCII.
proof fn lemma_ascii_base64(bytes: Seq<u8>)
    ensures
        is_ascii(base64(bytes)),
{
    lemma_base64_alphabet(bytes);
    let s = base64(bytes);
    assert forall|i: int| 0 <= i < s.len() implies #[trigger] s[i] < 128 by {
        assert(in_alphabet(s[i]));
    }
}


/// Appends a tag, `=`, and the number `n` in decimal to `out`.
fn push_tagged(out: &mut Vec<u8>, tag: u8, n: u32)
    ensures
        final(out)@ == old(out)@ + tagged(tag, n),
{
    out.push(tag);
    out.push(EQUALS);
    push_decimal(out, n);
    assert(out@ =~= old(out)@ + tagged(tag, n));
}

/// Reads the number behind a tag and `=`.
fn parse_tagged(field: &[u8], tag: u8) -> (r: Option<u32>)
    ensures
        match r {
            Some(n) => field@ == tagged(tag, n),
            None => forall|n: u32| field@ != #[trigger] tagged(tag, n),
        },
{
    let len = field.len();
    if len < 2 || field[0] != tag || field[1] != EQUALS {
        proof {
            assert forall|n: u32| field@ != #[trigger] tagged(tag, n) by {
                let s = tagged(tag, n);
                assert(s.len() >= 2 && s[0] == tag && s[1] == EQUALS);
            }
        }
        return None;
    }
    let digits = slice_subrange(field, 2, len);
    match parse_decimal(digits) {
        Some(n) => {
            assert(field@ =~= tagged(tag, n));
            Some(n)
        },
        None => {
            proof {
                assert forall|n: u32| field@ != #[trigger] tagged(tag, n) by {
                    if field@ == tagged(tag, n) {
                        assert(tagged(tag, n).skip(2) =~= decimal(n as nat));
                        assert(field@.subrange(2, len as int) =~= field@.skip(2));
                    }
                }
            }
            None
        },
    }
}

/// A hash record: the parameters, the salt and the digest of one password.
///
/// Every record is one that the key-derivation function can run on.
#[derive(Debug, PartialEq, Eq)]
pub struct HashRecord {
    policy: HashingPolicy,
    salt: Vec<u8>,
    digest: Vec<u8>,
}

impl View for HashRecord {
    type V = RecordView;

    closed spec fn view(&self) -> RecordView {
        RecordView { params: self.policy@, salt: self.salt@, digest: self.digest@ }
    }
}

/// What `parse_fields` found in a text: parameters not yet checked, salt and digest.
struct RawRecord {
    params: Parameters,
    salt: Vec<u8>,
    digest: Vec<u8>,
}

impl View for RawRecord {
    type V = RecordView;

    closed spec fn view(&self) -> RecordView {
        RecordView { params: self.params, salt: self.salt@, digest: self.digest@ }
    }
}

/// Reads the three costs from the field that holds them.
fn parse_costs(field: &[u8]) -> (r: Option<(u32, u32, u32)>)
    ensures
        match r {
            Some((m, t, p)) => fields(field@, COMMA) == seq![
                tagged(TAG_MEMORY, m),
                tagged(TAG_TIME, t),
                tagged(TAG_LANES, p),
            ],
            None => forall|v: RecordView| fields(field@, COMMA) != #[trigger] v.cost_parts(),
        },
{
    let costs = split_fields(field, COMMA);
    if costs.len() != 3 {
        proof {
            assert forall|v: RecordView| fields(field@, COMMA) != #[trigger] v.cost_parts() by {
                assert(v.cost_parts().len() == 3);
            }
        }
        return None;
    }
    assert(views(costs@)[0] == costs@[0]@);
    assert(views(costs@)[1] == costs@[1]@);
    assert(views(costs@)[2] == costs@[2]@);
    let m = match parse_tagged(costs[0].as_slice(), TAG_MEMORY) {
        Some(n) => n,
        None => {
            proof {
                assert forall|v: RecordView| fields(field@, COMMA) != #[trigger] v.cost_parts() by {
                    assert(v.cost_parts()[0] == tagged(TAG_MEMORY, v.params.memory_cost));
                }
            }
            return None;
        },
    };
    let t = match parse_tagged(costs[1].as_slice(), TAG_TIME) {
        Some(n) => n,
        None => {
            proof {
                assert forall|v: RecordView| fields(field@, COMMA) != #[trigger] v.cost_parts() by {
                    assert(v.cost_parts()[1] == tagged(TAG_TIME, v.params.time_cost));
                }
            }
            return None;
        },
    };
    let p = match parse_tagged(costs[2].as_slice(), TAG_LANES) {
        Some(n) => n,
        None => {
            proof {
                assert forall|v: RecordView| fields(field@, COMMA) != #[trigger] v.cost_parts() by {
                    assert(v.cost_parts()[2] == tagged(TAG_LANES, v.params.lanes));
                }
            }
            return None;
        },
    };
    assert(views(costs@) =~= seq![
        tagged(TAG_MEMORY, m),
        tagged(TAG_TIME, t),
        tagged(TAG_LANES, p),
    ]);
    Some((m, t, p))
}

/// Reads the six fields of a record's text, without judging the parameters.
fn parse_fields(bytes: &[u8]) -> (r: Option<RawRecord>)
    ensures
        match r {
            Some(raw) => raw@.encoding() == bytes@,
            None => forall|v: RecordView| #[trigger] v.encoding() != bytes@,
        },
{
    let parts = split_fields(bytes, DOLLAR);
    proof {
        assert forall|v: RecordView| #[trigger] v.encoding() == bytes@ implies views(parts@)
            == v.parts() && fields(v.parts()[3], COMMA) == v.cost_parts() by {
            lemma_fields_of_encoding(v);
        }
    }
    if parts.len() != 6 {
        return None;
    }
    assert(views(parts@)[0] == parts@[0]@);
    assert(views(parts@)[1] == parts@[1]@);
    assert(views(parts@)[2] == parts@[2]@);
    assert(views(parts@)[3] == parts@[3]@);
    assert(views(parts@)[4] == parts@[4]@);
    assert(views(parts@)[5] == parts@[5]@);
    if parts[0].len() != 0 {
        proof {
            assert forall|v: RecordView| #[trigger] v.encoding() != bytes@ by {
                assert(v.parts()[0].len() == 0);
            }
        }
        return None;
    }
    let variant = match Variant::from_name(parts[1].as_slice()) {
        Some(v) => v,
        None => {
            proof {
                assert forall|v: RecordView| #[trigger] v.encoding() != bytes@ by {
                    assert(v.parts()[1] == v.params.variant.name());
                }
            }
            return None;
        },
    };
    let number = match parse_tagged(parts[2].as_slice(), TAG_VERSION) {
        Some(n) => n,
        None => {
            proof {
                assert forall|v: RecordView| #[trigger] v.encoding() != bytes@ by {
                    assert(v.parts()[2] == tagged(TAG_VERSION, v.params.version.number()));
                }
            }
            return None;
        },
    };
    let version = match Version::from_number(number) {
        Some(v) => v,
        None => {
            proof {
                assert forall|v: RecordView| #[trigger] v.encoding() != bytes@ by {
                    assert(v.parts()[2] == tagged(TAG_VERSION, v.params.version.number()));
                    if v.encoding() == bytes@ {
                        lemma_tagged_injective(TAG_VERSION, number, v.params.version.number());
                    }
                }
            }
            return None;
        },
    };
    let (memory_cost, time_cost, lanes) = match parse_costs(parts[3].as_slice()) {
        Some(costs) => costs,
        None => {
            return None;
        },
    };
    let salt = match decode_base64(parts[4].as_slice()) {
        Some(b) => b,
        None => {
            proof {
                assert forall|v: RecordView| #[trigger] v.encoding() != bytes@ by {
                    assert(v.parts()[4] == base64(v.salt));
                }
            }
            return None;
        },
    };
    let digest = match decode_base64(parts[5].as_slice()) {
        Some(b) => b,
        None => {
            proof {
                assert forall|v: RecordView| #[trigger] v.encoding() != bytes@ by {
                    assert(v.parts()[5] == base64(v.digest));
                }
            }
            return None;
        },
    };
    let params = Parameters { variant, version, memory_cost, time_cost, lanes };
    let raw = RawRecord { params, salt, digest };
    proof {
        let v = raw@;
        lemma_join_of_fields(bytes@, DOLLAR);
        lemma_join_of_fields(parts@[3]@, COMMA);
        assert(fields(parts@[3]@, COMMA) =~= v.cost_parts());
        assert(v.parts()[0] =~= parts@[0]@);
        assert(v.parts()[1] == parts@[1]@);
        assert(v.parts()[2] == parts@[2]@);
        assert(v.parts()[3] == parts@[3]@);
        assert(v.parts()[4] == parts@[4]@);
        assert(v.parts()[5] == parts@[5]@);
        assert(views(parts@) =~= v.parts());
    }
    Some(raw)
}

impl HashRecord {
    /// What holds of every record: the key-derivation function can run on it.
    #[verifier::type_invariant]
    pub open spec fn well_formed(self) -> bool {
        self@.valid()
    }

    /// Makes the record of a policy, a salt and a digest.
    ///
    /// There is none where the salt has under eight bytes, the digest under
    /// four, or either has more than fit in 32 bits.
    pub fn new(policy: HashingPolicy, salt: Vec<u8>, digest: Vec<u8>) -> (r: Option<HashRecord>)
        ensures
            match r {
                Some(record) => record@ == (RecordView {
                    params: policy@,
                    salt: salt@,
                    digest: digest@,
                }) && record@.valid(),
                None => !(RecordView { params: policy@, salt: salt@, digest: digest@ }).valid(),
            },
    {
        proof {
            use_type_invariant(&policy);
        }
        if salt.len() < MIN_SALT_LENGTH || salt.len() > u32::MAX as usize || digest.len()
            < MIN_DIGEST_LENGTH || digest.len() > u32::MAX as usize {
            None
        } else {
            Some(HashRecord { policy, salt, digest })
        }
    }

    /// The parameters under which the digest was derived.
    pub fn policy(&self) -> (p: HashingPolicy)
        ensures
            p@ == self@.params,
    {
        self.policy
    }

    /// The salt.
    pub fn salt(&self) -> (s: &[u8])
        ensures
            s@ == self@.salt,
    {
        self.salt.as_slice()
    }

    /// The digest.
    pub fn digest(&self) -> (d: &[u8])
        ensures
            d@ == self@.digest,
    {
        self.digest.as_slice()
    }

    /// The record's text, as bytes.
    pub fn to_bytes(&self) -> (out: Vec<u8>)
        ensures
            out@ == self@.encoding(),
            self@.valid(),
    {
        proof {
            use_type_invariant(self);
            lemma_encoding_written_out(self@);
        }
        let params = self.policy.parameters();
        let mut out: Vec<u8> = Vec::new();
        out.push(DOLLAR);
        params.variant.push_name(&mut out);
        out.push(DOLLAR);
        push_tagged(&mut out, TAG_VERSION, params.version.to_number());
        out.push(DOLLAR);
        push_tagged(&mut out, TAG_MEMORY, params.memory_cost);
        out.push(COMMA);
        push_tagged(&mut out, TAG_TIME, params.time_cost);
        out.push(COMMA);
        push_tagged(&mut out, TAG_LANES, params.lanes);
        out.push(DOLLAR);
        push_base64(&mut out, self.salt.as_slice());
        out.push(DOLLAR);
        push_base64(&mut out, self.digest.as_slice());
        assert(out@ =~= self@.encoding());
        out
    }

    /// The record whose text `bytes` is.
    ///
    /// Text is accepted exactly when it is the text of a valid record, byte for byte.
    pub fn from_bytes(bytes: &[u8]) -> (r: Result<HashRecord, DecodeError>)
        ensures
            match r {
                Ok(record) => record@.valid() && record@.encoding() == bytes@,
                Err(_) => forall|v: RecordView| v.valid() ==> #[trigger] v.encoding() != bytes@,
            },
            r matches Ok(record) ==> record_of(bytes@) == Some(record@),
            r is Err ==> record_of(bytes@) is None,
    {
        let raw = match parse_fields(bytes) {
            Some(raw) => raw,
            None => {
                return Err(DecodeError);
            },
        };
        let ghost found = raw@;
        proof {
            assert forall|v: RecordView| #[trigger] v.encoding() == bytes@ implies v == found by {
                lemma_encoding_injective(v, found);
            }
        }
        let p = raw.params;
        let policy = match HashingPolicy::new(
            p.variant,
            p.version,
            p.memory_cost,
            p.time_cost,
            p.lanes,
        ) {
            Ok(policy) => policy,
            Err(_) => {
                proof {
                    p.lemma_valid_iff_faultless();
                }
                return Err(DecodeError);
            },
        };
        match HashRecord::new(policy, raw.salt, raw.digest) {
            Some(record) => {
                proof {
                    lemma_record_of_encoding(record@);
                }
                Ok(record)
            },
            None => Err(DecodeError),
        }
    }

    /// The record's text.
    pub fn encode(&self) -> (text: String)
        ensures
            text@ == ascii_text(self@.encoding()),
            encode_utf8(text@) == self@.encoding(),
    {
        let bytes = self.to_bytes();
        proof {
            lemma_encoding_ascii(self@);
        }
        ascii_string(bytes.as_slice())
    }

    /// The record whose text `text` is.
    ///
    /// Text is accepted exactly when it is the text of a valid record,
    /// character for character.
    pub fn decode(text: &str) -> (r: Result<HashRecord, DecodeError>)
        ensures
            match r {
                Ok(record) => record@.valid() && encode_utf8(text@) == record@.encoding() && text@
                    == ascii_text(record@.encoding()),
                Err(_) => forall|v: RecordView|
                    v.valid() ==> #[trigger] v.encoding() != encode_utf8(text@),
            },
            r matches Ok(record) ==> record_of(encode_utf8(text@)) == Some(record@),
            r is Err ==> record_of(encode_utf8(text@)) is None,
    {
        let r = HashRecord::from_bytes(text.as_bytes());
        proof {
            if r is Ok {
                let v = r.unwrap()@;
                lemma_encoding_ascii(v);
                lemma_ascii_text_bytes(v.encoding());
                encode_utf8_decode_utf8(text@);
                encode_utf8_decode_utf8(ascii_text(v.encoding()));
            }
        }
        r
    }
}

} // verus!
