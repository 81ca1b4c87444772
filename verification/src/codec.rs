//! The serialization codec.
//!
//! Values cross location boundaries as flat streams of 64-bit words: a tag
//! word followed by the payload.  The codec is total on well-formed values and
//! decoding inverts encoding exactly ([`lemma_codec_round_trip`]), which is
//! what makes communication faithful: the receiver of a message observes the
//! very value the sender held.

use vstd::prelude::*;
use vstd::string::StrSliceExecFns;

use crate::value::{view_of, ValModel, Value};

verus! {

/// Encoding of an integer: a sign word, then the magnitude.  A negative `i`
/// is stored as `-i - 1`, so every `i64` magnitude fits in a `u64`.
pub open spec fn enc_int(i: int) -> Seq<u64> {
    if i >= 0 {
        seq![0u64, i as u64]
    } else {
        seq![1u64, (-i - 1) as u64]
    }
}

/// Encoding of a character sequence: one word per character, holding its
/// Unicode scalar value.
pub open spec fn enc_chars(s: Seq<char>) -> Seq<u64> {
    Seq::new(s.len(), |j: int| s[j] as u32 as u64)
}

/// Whether a word is a valid Unicode scalar value.
pub open spec fn valid_scalar(w: u64) -> bool {
    w < 0xD800 || (0xE000 <= w && w < 0x110000)
}

/// Decoding of a character sequence: every word must be a valid scalar value.
pub open spec fn dec_chars(b: Seq<u64>) -> Option<Seq<char>> {
    if forall|j: int| 0 <= j < b.len() ==> valid_scalar(#[trigger] b[j]) {
        Some(Seq::new(b.len(), |j: int| b[j] as u32 as char))
    } else {
        None
    }
}

/// The encoding of a value model as a stream of words.
pub open spec fn spec_encode(m: ValModel) -> Seq<u64>
    decreases m,
{
    match m {
        ValModel::Unit => seq![0u64],
        ValModel::B(b) => seq![1u64, if b { 1u64 } else { 0u64 }],
        ValModel::I(i) => seq![2u64] + enc_int(i),
        ValModel::S(s) => seq![3u64, s.len() as u64] + enc_chars(s),
        ValModel::Pair(a, b) => seq![4u64] + spec_encode(*a) + spec_encode(*b),
        ValModel::Opt(o) => match o {
            Option::None => seq![5u64],
            Option::Some(v) => seq![6u64] + spec_encode(*v),
        },
    }
}

/// A model is well formed when its integers fit in an `i64` and its strings
/// fit in a word-sized length.  Every image of an executable `Value` is well
/// formed, and encoding is injective on well-formed models.
pub open spec fn wf_model(m: ValModel) -> bool
    decreases m,
{
    match m {
        ValModel::Unit => true,
        ValModel::B(_) => true,
        ValModel::I(i) => i64::MIN <= i <= i64::MAX,
        ValModel::S(s) => s.len() <= u64::MAX,
        ValModel::Pair(a, b) => wf_model(*a) && wf_model(*b),
        ValModel::Opt(o) => match o {
            Option::None => true,
            Option::Some(v) => wf_model(*v),
        },
    }
}

/// The decoding of a word stream: the decoded model and how many words its
/// encoding occupies, or `None` when no well-formed value starts the stream.
pub open spec fn spec_decode(b: Seq<u64>) -> Option<(ValModel, int)>
    decreases b.len(),
{
    if b.len() == 0 {
        Option::None
    } else if b[0] == 0 {
        Option::Some((ValModel::Unit, 1))
    } else if b[0] == 1 {
        if b.len() >= 2 && (b[1] == 0 || b[1] == 1) {
            Option::Some((ValModel::B(b[1] == 1), 2))
        } else {
            Option::None
        }
    } else if b[0] == 2 {
        if b.len() >= 3 && (b[1] == 0 || b[1] == 1) && b[2] <= i64::MAX as u64 {
            let i: int = if b[1] == 0 {
                b[2] as int
            } else {
                -(b[2] as int) - 1
            };
            Option::Some((ValModel::I(i), 3))
        } else {
            Option::None
        }
    } else if b[0] == 3 {
        if b.len() >= 2 && b[1] as int <= b.len() - 2 {
            match dec_chars(b.subrange(2, 2 + b[1] as int)) {
                Option::Some(s) => Option::Some((ValModel::S(s), 2 + b[1] as int)),
                Option::None => Option::None,
            }
        } else {
            Option::None
        }
    } else if b[0] == 4 {
        match spec_decode(b.subrange(1, b.len() as int)) {
            Option::Some((m1, c1)) => {
                if 0 <= c1 && 1 + c1 <= b.len() {
                    match spec_decode(b.subrange(1 + c1, b.len() as int)) {
                        Option::Some((m2, c2)) => Option::Some(
                            (ValModel::Pair(Box::new(m1), Box::new(m2)), 1 + c1 + c2),
                        ),
                        Option::None => Option::None,
                    }
                } else {
                    Option::None
                }
            },
            Option::None => Option::None,
        }
    } else if b[0] == 5 {
        Option::Some((ValModel::Opt(Option::None), 1))
    } else if b[0] == 6 {
        match spec_decode(b.subrange(1, b.len() as int)) {
            Option::Some((m1, c1)) => Option::Some(
                (ValModel::Opt(Option::Some(Box::new(m1))), 1 + c1),
            ),
            Option::None => Option::None,
        }
    } else {
        Option::None
    }
}

/// A successful decoding consumes at least the tag word and no more than the
/// whole stream.
pub proof fn lemma_decode_consumed(b: Seq<u64>)
    ensures
        spec_decode(b) matches Some((m, c)) ==> 1 <= c <= b.len(),
    decreases b.len(),
{
    if b.len() > 0 && b[0] == 4 {
        lemma_decode_consumed(b.subrange(1, b.len() as int));
        match spec_decode(b.subrange(1, b.len() as int)) {
            Option::Some((m1, c1)) => {
                if 0 <= c1 && 1 + c1 <= b.len() {
                    lemma_decode_consumed(b.subrange(1 + c1, b.len() as int));
                }
            },
            Option::None => {},
        }
    } else if b.len() > 0 && b[0] == 6 {
        lemma_decode_consumed(b.subrange(1, b.len() as int));
    }
}

/// Encodings are never empty.
pub proof fn lemma_encode_len(m: ValModel)
    ensures
        spec_encode(m).len() >= 1,
{
}

/// Decoding inverts encoding: a well-formed model's encoding, followed by any
/// trailing words, decodes to that very model, consuming exactly the encoding.
pub proof fn lemma_codec_round_trip(m: ValModel, rest: Seq<u64>)
    requires
        wf_model(m),
    ensures
        spec_decode(spec_encode(m) + rest) == Some((m, spec_encode(m).len() as int)),
    decreases m,
{
    let e = spec_encode(m);
    let b = e + rest;
    match m {
        ValModel::Unit => {},
        ValModel::B(_) => {},
        ValModel::I(_) => {},
        ValModel::S(s) => {
            assert(b[1] == s.len() as u64);
            assert(b[1] as int <= b.len() - 2);
            assert(b.subrange(2, 2 + s.len() as int) =~= enc_chars(s));
            assert forall|j: int| 0 <= j < enc_chars(s).len() implies valid_scalar(
                #[trigger] enc_chars(s)[j],
            ) by {
                assert(enc_chars(s)[j] == s[j] as u32 as u64);
                lemma_char_scalar(s[j]);
            }
            let s2 = dec_chars(enc_chars(s)).unwrap();
            assert forall|j: int| 0 <= j < s2.len() implies s2[j] == s[j] by {
                assert(enc_chars(s)[j] == s[j] as u32 as u64);
                assert(s2[j] == (enc_chars(s)[j] as u32) as char);
                assert((s[j] as u32 as u64) as u32 == s[j] as u32);
                lemma_char_scalar(s[j]);
            }
            assert(s2 =~= s);
        },
        ValModel::Pair(a, b2) => {
            let ea = spec_encode(*a);
            let eb = spec_encode(*b2);
            assert(b.subrange(1, b.len() as int) =~= ea + (eb + rest));
            lemma_codec_round_trip(*a, eb + rest);
            lemma_encode_len(*a);
            let c1 = ea.len() as int;
            assert(1 + c1 <= b.len());
            assert(b.subrange(1 + c1, b.len() as int) =~= eb + rest);
            lemma_codec_round_trip(*b2, rest);
        },
        ValModel::Opt(o) => match o {
            Option::None => {},
            Option::Some(v) => {
                let ev = spec_encode(*v);
                assert(b.subrange(1, b.len() as int) =~= ev + rest);
                lemma_codec_round_trip(*v, rest);
            },
        },
    }
}

/// Every character is a valid Unicode scalar value, and casting it to `u32`
/// and back yields it again.
pub proof fn lemma_char_scalar(c: char)
    ensures
        valid_scalar(c as u32 as u64),
        (c as u32) as char == c,
        c as u32 as u64 <= 0xFFFF_FFFF,
{
}

/// Relies on `char::from_u32`: returns `Some` exactly on valid Unicode scalar
/// values, and the returned character has the given scalar value.
#[verifier::external_body]
fn char_from_u32(w: u32) -> (r: Option<char>)
    ensures
        (r is Some) == valid_scalar(w as u64),
        r matches Some(c) ==> c as u32 == w,
{
    char::from_u32(w)
}

/// Relies on `String`'s `FromIterator` implementation: collecting characters
/// yields the string of exactly those characters, in order.
#[verifier::external_body]
pub(crate) fn string_from_chars(cs: &Vec<char>) -> (r: String)
    ensures
        r@ == cs@,
{
    cs.iter().collect()
}

fn encode_into(v: &Value, out: &mut Vec<u64>)
    ensures
        final(out)@ == old(out)@ + spec_encode(view_of(*v)),
        wf_model(view_of(*v)),
    decreases *v,
{
    match v {
        Value::Unit => {
            out.push(0);
            assert(out@ =~= old(out)@ + spec_encode(view_of(*v)));
        },
        Value::B(b) => {
            out.push(1);
            out.push(if *b { 1 } else { 0 });
            assert(out@ =~= old(out)@ + spec_encode(view_of(*v)));
        },
        Value::I(i) => {
            out.push(2);
            if *i >= 0 {
                out.push(0);
                out.push(*i as u64);
            } else {
                out.push(1);
                out.push((-(*i + 1)) as u64);
            }
            assert(out@ =~= old(out)@ + spec_encode(view_of(*v)));
        },
        Value::S(s) => {
            out.push(3);
            let n: usize = s.as_str().unicode_len();
            out.push(n as u64);
            let ghost mid = out@;
            let mut j: usize = 0;
            while j < n
                invariant
                    n == s@.len(),
                    j <= n,
                    out@ == mid + enc_chars(s@.subrange(0, j as int)),
                decreases n - j,
            {
                let c: char = s.as_str().get_char(j);
                out.push((c as u32) as u64);
                assert(out@ =~= mid + enc_chars(s@.subrange(0, j + 1 as int)));
                j = j + 1;
            }
            assert(s@.subrange(0, n as int) =~= s@);
            assert(out@ =~= old(out)@ + spec_encode(view_of(*v)));
        },
        Value::Pair(a, b) => {
            out.push(4);
            encode_into(a, out);
            encode_into(b, out);
            assert(out@ =~= old(out)@ + spec_encode(view_of(*v)));
        },
        Value::Opt(o) => match o {
            Option::None => {
                out.push(5);
                assert(out@ =~= old(out)@ + spec_encode(view_of(*v)));
            },
            Option::Some(inner) => {
                out.push(6);
                encode_into(inner, out);
                assert(out@ =~= old(out)@ + spec_encode(view_of(*v)));
            },
        },
    }
}

/// Encodes a value as a word stream.
pub fn encode_value(v: &Value) -> (out: Vec<u64>)
    ensures
        out@ == spec_encode(view_of(*v)),
        wf_model(view_of(*v)),
{
    let mut out: Vec<u64> = Vec::new();
    encode_into(v, &mut out);
    out
}

fn decode_at(b: &Vec<u64>, pos: usize) -> (r: Option<(Value, usize)>)
    requires
        pos <= b@.len(),
    ensures
        match (r, spec_decode(b@.subrange(pos as int, b@.len() as int))) {
            (Some((v, newpos)), Some((m, c))) => view_of(v) == m && newpos == pos + c && newpos
                <= b@.len(),
            (None, None) => true,
            _ => false,
        },
    decreases b@.len() - pos,
{
    let ghost sub = b@.subrange(pos as int, b@.len() as int);
    let n: usize = b.len();
    if pos >= n {
        return None;
    }
    let tag: u64 = b[pos];
    assert(sub[0] == tag);
    if tag == 0 {
        Some((Value::Unit, pos + 1))
    } else if tag == 1 {
        if n - pos >= 2 && (b[pos + 1] == 0 || b[pos + 1] == 1) {
            assert(sub[1] == b@[pos + 1]);
            Some((Value::B(b[pos + 1] == 1), pos + 2))
        } else {
            None
        }
    } else if tag == 2 {
        if n - pos >= 3 && (b[pos + 1] == 0 || b[pos + 1] == 1) && b[pos + 2] <= i64::MAX as u64 {
            assert(sub[1] == b@[pos + 1] && sub[2] == b@[pos + 2]);
            let mag: u64 = b[pos + 2];
            let i: i64 = if b[pos + 1] == 0 {
                mag as i64
            } else {
                -(mag as i64) - 1
            };
            Some((Value::I(i), pos + 3))
        } else {
            None
        }
    } else if tag == 3 {
        if n - pos >= 2 && b[pos + 1] <= (n - pos - 2) as u64 {
            assert(sub[1] == b@[pos + 1]);
            let len: usize = b[pos + 1] as usize;
            assert(len as u64 == b@[pos as int + 1]);
            assert(pos + 2 + len <= b@.len());
            assert(b@.len() == n as int);
            let ghost cw = sub.subrange(2, 2 + len as int);
            let mut cs: Vec<char> = Vec::new();
            let mut j: usize = 0;
            while j < len
                invariant
                    b@.len() <= usize::MAX as int,
                    pos + 2 + len <= b@.len(),
                    j <= len,
                    cw == b@.subrange(pos as int, b@.len() as int).subrange(2, 2 + len as int),
                    cs@.len() == j,
                    spec_decode(b@.subrange(pos as int, b@.len() as int)) == (match dec_chars(cw) {
                        Option::Some(s0) => Option::Some((ValModel::S(s0), 2 + len as int)),
                        Option::None => Option::None::<(ValModel, int)>,
                    }),
                    forall|k: int|
                        0 <= k < j ==> valid_scalar(#[trigger] cw[k]) && cs@[k] == cw[k] as u32
                            as char,
                decreases len - j,
            {
                assert(pos + 2 + j < b@.len());
                let w: u64 = b[pos + 2 + j];
                assert(cw[j as int] == w);
                if w > 0xFFFF_FFFF {
                    assert(!valid_scalar(cw[j as int]));
                    assert(dec_chars(cw) is None);
                    return None;
                }
                assert((w as u32) as u64 == w);
                match char_from_u32(w as u32) {
                    Option::Some(c) => {
                        cs.push(c);
                        proof {
                            lemma_char_scalar(c);
                        }
                        assert(valid_scalar((w as u32) as u64));
                        assert(valid_scalar(cw[j as int]));
                        assert(c as u32 == w as u32);
                        assert(cs@[j as int] == c);
                        assert(cw[j as int] as u32 == c as u32);
                        assert(c == (cw[j as int] as u32) as char);
                    },
                    Option::None => {
                        assert(!valid_scalar((w as u32) as u64));
                        assert(!valid_scalar(cw[j as int]));
                        assert(dec_chars(cw) is None);
                        return None;
                    },
                }
                j = j + 1;
            }
            assert(forall|k: int| 0 <= k < cw.len() ==> valid_scalar(#[trigger] cw[k]));
            let ghost dc = dec_chars(cw).unwrap();
            assert(cs@ =~= dc);
            let s: String = string_from_chars(&cs);
            assert(view_of(Value::S(s)) == ValModel::S(dc));
            Some((Value::S(s), pos + 2 + len))
        } else {
            None
        }
    } else if tag == 4 {
        assert(sub.subrange(1, sub.len() as int) =~= b@.subrange(pos + 1, b@.len() as int));
        match decode_at(b, pos + 1) {
            Option::Some((v1, p1)) => {
                proof {
                    lemma_decode_consumed(b@.subrange(pos + 1, b@.len() as int));
                }
                assert(sub.subrange(1 + (p1 - pos - 1), sub.len() as int) =~= b@.subrange(
                    p1 as int,
                    b@.len() as int,
                ));
                match decode_at(b, p1) {
                    Option::Some((v2, p2)) => Some(
                        (Value::Pair(Box::new(v1), Box::new(v2)), p2),
                    ),
                    Option::None => None,
                }
            },
            Option::None => None,
        }
    } else if tag == 5 {
        Some((Value::Opt(None), pos + 1))
    } else if tag == 6 {
        assert(sub.subrange(1, sub.len() as int) =~= b@.subrange(pos + 1, b@.len() as int));
        match decode_at(b, pos + 1) {
            Option::Some((v1, p1)) => Some((Value::Opt(Some(Box::new(v1))), p1)),
            Option::None => None,
        }
    } else {
        None
    }
}

/// Decodes a word stream that holds exactly one encoded value.
pub fn decode_value(b: &Vec<u64>) -> (r: Option<Value>)
    ensures
        r matches Some(v) ==> spec_decode(b@) == Some((view_of(v), b@.len() as int)),
        r is None ==> !(spec_decode(b@) matches Some((m, c)) && c == b@.len() as int),
{
    assert(b@.subrange(0, b@.len() as int) =~= b@);
    match decode_at(b, 0) {
        Option::Some((v, p)) => {
            if p == b.len() {
                Some(v)
            } else {
                None
            }
        },
        Option::None => None,
    }
}

/// Clones a value by encoding and decoding it, as a message round trip would.
pub fn value_round_trip(v: &Value) -> (r: Value)
    ensures
        view_of(r) == view_of(*v),
{
    let words = encode_value(v);
    proof {
        lemma_codec_round_trip(view_of(*v), Seq::<u64>::empty());
        assert(spec_encode(view_of(*v)) + Seq::<u64>::empty() =~= spec_encode(view_of(*v)));
    }
    match decode_value(&words) {
        Option::Some(r) => r,
        Option::None => {
            proof {
                assert(false);
            }
            Value::Unit
        },
    }
}

} // verus!
