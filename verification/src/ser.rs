use crate::escape::{key_text, nul_free, quoted};
use crate::num::{dec_int, dec_uint};
use crate::value::{string_like_key, Value};
use vstd::prelude::*;

verus! {

/// The closed set of reasons an encode call can fail.
///
/// Failures are terminal for the call that raised them: the encoder returns
/// before producing further output, and the caller may retry with a corrected
/// value. A sink failure cannot arise here, because the verified encoder only
/// appends to an in-memory buffer; callers that stream to a fallible sink
/// surface that failure through their own error type.
#[derive(Debug, PartialEq, Eq)]
pub enum Error {
    /// A string or character value (or key) contains a NUL byte, which no
    /// Nix string literal can carry.
    UnencodableNullString,
    /// A map has a key that is not string-like, so no attribute name can be
    /// formed for it.
    MapKeyMustBeAString,
    /// An upstream value-producing layer reported a failure of its own
    /// through the encoder's error channel.
    Custom(String),
}

/// The text a string-like map key encodes to (meaningful only for
/// string-like keys: a character key encodes like its one-character string).
pub open spec fn enc_key(k: Value) -> Seq<char> {
    match k {
        Value::Str(s) => key_text(s@),
        Value::Char(c) => key_text(seq![c]),
        _ => Seq::empty(),
    }
}

/// Why a map key cannot be encoded, if it cannot: a key that is not
/// string-like is rejected outright; a string-like key fails only when it
/// contains a NUL character.
pub open spec fn key_err(k: Value) -> Option<Error> {
    match k {
        Value::Str(s) => if nul_free(s@) {
            None
        } else {
            Some(Error::UnencodableNullString)
        },
        Value::Char(c) => if c == '\0' {
            Some(Error::UnencodableNullString)
        } else {
            None
        },
        _ => Some(Error::MapKeyMustBeAString),
    }
}

/// Why a piece of quoted text cannot be encoded, if it cannot.
pub open spec fn str_err(s: Seq<char>) -> Option<Error> {
    if nul_free(s) {
        None
    } else {
        Some(Error::UnencodableNullString)
    }
}

/// The first of two possible failures, in encounter order.
pub open spec fn first_err(a: Option<Error>, b: Option<Error>) -> Option<Error> {
    if a is Some {
        a
    } else {
        b
    }
}

/// The canonical text of `v`, as the wire format fixes it: one dense line,
/// `[ e1 e2 ]` for lists, `{ k = v; }` for attribute sets. Meaningful when
/// `enc_err(v)` is `None`.
pub open spec fn enc(v: Value) -> Seq<char>
    decreases v, 0int,
{
    match v {
        Value::Null => "null"@,
        Value::Bool(b) => if b {
            "true"@
        } else {
            "false"@
        },
        Value::Int(n) => dec_int(n as int),
        Value::UInt(n) => dec_uint(n as nat),
        Value::Char(c) => quoted(seq![c]),
        Value::Str(s) => quoted(s@),
        Value::Bytes(bs) => "[ "@ + enc_bytes_from(bs@, 0) + "]"@,
        Value::List(vs) => "[ "@ + enc_list_from(vs@, 0) + "]"@,
        Value::Dict(es) => "{ "@ + enc_dict_from(es@, 0) + "}"@,
        Value::Record(fs) => "{ "@ + enc_record_from(fs@, 0) + "}"@,
        Value::UnitVariant(name) => quoted(name@),
        Value::NewtypeVariant(name, inner) => "{ "@ + quoted(name@) + " = "@ + enc(*inner)
            + "; }"@,
        Value::TupleVariant(name, vs) => quoted(name@) + "[ "@ + enc_list_from(vs@, 0) + "]"@,
        Value::StructVariant(name, fs) => quoted(name@) + "{ "@ + enc_record_from(fs@, 0) + "}"@,
    }
}

/// The text of the bytes of `bs` from position `i` on, each byte as a
/// decimal integer followed by one space.
pub open spec fn enc_bytes_from(bs: Seq<u8>, i: int) -> Seq<char>
    decreases bs.len() - i,
{
    if i < 0 || i >= bs.len() {
        Seq::empty()
    } else {
        dec_uint(bs[i] as nat) + " "@ + enc_bytes_from(bs, i + 1)
    }
}

/// The text of the list elements of `vs` from position `i` on, each element
/// followed by one space.
pub open spec fn enc_list_from(vs: Seq<Value>, i: int) -> Seq<char>
    decreases vs, vs.len() - i,
{
    if i < 0 || i >= vs.len() {
        Seq::empty()
    } else {
        enc(vs[i]) + " "@ + enc_list_from(vs, i + 1)
    }
}

/// The text of the map entries of `es` from position `i` on, each entry as
/// `k = v; ` with a trailing space.
pub open spec fn enc_dict_from(es: Seq<(Value, Value)>, i: int) -> Seq<char>
    decreases es, es.len() - i,
{
    if i < 0 || i >= es.len() {
        Seq::empty()
    } else {
        enc_key(es[i].0) + " = "@ + enc(es[i].1) + "; "@ + enc_dict_from(es, i + 1)
    }
}

/// The text of the named fields of `fs` from position `i` on, each field as
/// `name = v; ` with a trailing space.
pub open spec fn enc_record_from(fs: Seq<(String, Value)>, i: int) -> Seq<char>
    decreases fs, fs.len() - i,
{
    if i < 0 || i >= fs.len() {
        Seq::empty()
    } else {
        key_text(fs[i].0@) + " = "@ + enc(fs[i].1) + "; "@ + enc_record_from(fs, i + 1)
    }
}

/// Why `v` cannot be encoded, if it cannot: the first failure the encoder
/// meets on its left-to-right walk of the value, or `None` when every part
/// of `v` is representable.
pub open spec fn enc_err(v: Value) -> Option<Error>
    decreases v, 0int,
{
    match v {
        Value::Null => None,
        Value::Bool(_) => None,
        Value::Int(_) => None,
        Value::UInt(_) => None,
        Value::Char(c) => if c == '\0' {
            Some(Error::UnencodableNullString)
        } else {
            None
        },
        Value::Str(s) => str_err(s@),
        Value::Bytes(_) => None,
        Value::List(vs) => err_list_from(vs@, 0),
        Value::Dict(es) => err_dict_from(es@, 0),
        Value::Record(fs) => err_record_from(fs@, 0),
        Value::UnitVariant(name) => str_err(name@),
        Value::NewtypeVariant(name, inner) => first_err(str_err(name@), enc_err(*inner)),
        Value::TupleVariant(name, vs) => first_err(str_err(name@), err_list_from(vs@, 0)),
        Value::StructVariant(name, fs) => first_err(str_err(name@), err_record_from(fs@, 0)),
    }
}

/// The first failure among the list elements of `vs` from position `i` on.
pub open spec fn err_list_from(vs: Seq<Value>, i: int) -> Option<Error>
    decreases vs, vs.len() - i,
{
    if i < 0 || i >= vs.len() {
        None
    } else {
        first_err(enc_err(vs[i]), err_list_from(vs, i + 1))
    }
}

/// The first failure among the map entries of `es` from position `i` on:
/// for each entry the key is judged before the value.
pub open spec fn err_dict_from(es: Seq<(Value, Value)>, i: int) -> Option<Error>
    decreases es, es.len() - i,
{
    if i < 0 || i >= es.len() {
        None
    } else {
        first_err(key_err(es[i].0), first_err(enc_err(es[i].1), err_dict_from(es, i + 1)))
    }
}

/// The first failure among the named fields of `fs` from position `i` on.
pub open spec fn err_record_from(fs: Seq<(String, Value)>, i: int) -> Option<Error>
    decreases fs, fs.len() - i,
{
    if i < 0 || i >= fs.len() {
        None
    } else {
        first_err(str_err(fs[i].0@), first_err(enc_err(fs[i].1), err_record_from(fs, i + 1)))
    }
}

/// Encoding a boolean never fails and produces exactly the text `true` or
/// `false`.
pub proof fn lemma_bool_encoding(b: bool)
    ensures
        enc_err(Value::Bool(b)) is None,
        b ==> enc(Value::Bool(b)) == "true"@,
        !b ==> enc(Value::Bool(b)) == "false"@,
{
}

/// A string value with a NUL character anywhere in it is unencodable, and
/// the failure is the NUL-string error.
pub proof fn lemma_nul_string_fails(s: String)
    requires
        exists|i: int| 0 <= i < s@.len() && s@[i] == '\0',
    ensures
        enc_err(Value::Str(s)) == Some(Error::UnencodableNullString),
{
    assert(!nul_free(s@));
}

proof fn lemma_dict_err_skip_clean(es: Seq<(Value, Value)>, i: int, k: int)
    requires
        0 <= i <= k <= es.len(),
        forall|j: int| i <= j < k ==> key_err(#[trigger] es[j].0) is None && enc_err(es[j].1) is None,
    ensures
        err_dict_from(es, i) == err_dict_from(es, k),
    decreases k - i,
{
    if i < k {
        lemma_dict_err_skip_clean(es, i + 1, k);
    }
}

/// The map-key gate: a map whose entries are clean up to some position `k`
/// where the key is not string-like fails with the map-key error, whatever
/// stands in the entries after `k`.
pub proof fn lemma_dict_non_string_key_fails(es: Seq<(Value, Value)>, k: int)
    requires
        0 <= k < es.len(),
        !string_like_key(es[k].0),
        forall|j: int| 0 <= j < k ==> key_err(#[trigger] es[j].0) is None && enc_err(es[j].1) is None,
    ensures
        err_dict_from(es, 0) == Some(Error::MapKeyMustBeAString),
{
    lemma_dict_err_skip_clean(es, 0, k);
}

/// Maps with string or character keys succeed: when every key is
/// string-like and free of NUL and every value is itself encodable, the
/// whole map encodes.
pub proof fn lemma_dict_string_keys_ok(es: Seq<(Value, Value)>)
    requires
        forall|j: int|
            0 <= j < es.len() ==> key_err(#[trigger] es[j].0) is None && enc_err(es[j].1) is None,
    ensures
        err_dict_from(es, 0) is None,
{
    lemma_dict_err_skip_clean(es, 0, es.len() as int);
}

proof fn lemma_list_shift(a: Seq<Value>, b: Seq<Value>, j: int)
    requires
        0 <= j <= b.len(),
    ensures
        enc_list_from(a + b, a.len() + j) == enc_list_from(b, j),
    decreases b.len() - j,
{
    if j < b.len() {
        lemma_list_shift(a, b, j + 1);
        assert((a + b)[a.len() + j] == b[j]);
    }
}

proof fn lemma_list_concat_from(a: Seq<Value>, b: Seq<Value>, i: int)
    requires
        0 <= i <= a.len(),
    ensures
        enc_list_from(a + b, i) == enc_list_from(a, i) + enc_list_from(b, 0),
    decreases a.len() - i,
{
    if i == a.len() {
        lemma_list_shift(a, b, 0);
        assert(enc_list_from(a, i) =~= Seq::<char>::empty());
        assert(enc_list_from(a + b, i) =~= enc_list_from(a, i) + enc_list_from(b, 0));
    } else {
        lemma_list_concat_from(a, b, i + 1);
        assert((a + b)[i] == a[i]);
        assert(enc(a[i]) + " "@ + (enc_list_from(a, i + 1) + enc_list_from(b, 0)) =~= (enc(a[i])
            + " "@ + enc_list_from(a, i + 1)) + enc_list_from(b, 0));
    }
}

/// Sequence encoding is compositional and order-preserving: the element
/// text of a concatenation is the concatenation of the element texts, so
/// every element's text stands in the output exactly where its
/// predecessors end.
pub proof fn lemma_list_concat(a: Seq<Value>, b: Seq<Value>)
    ensures
        enc_list_from(a + b, 0) == enc_list_from(a, 0) + enc_list_from(b, 0),
{
    lemma_list_concat_from(a, b, 0);
}

proof fn lemma_prefix_append(a: Seq<char>, b: Seq<char>)
    ensures
        a.is_prefix_of(a + b),
{
    assert(a =~= (a + b).subrange(0, a.len() as int));
}

proof fn lemma_prefix_trans(a: Seq<char>, b: Seq<char>, c: Seq<char>)
    requires
        a.is_prefix_of(b),
        b.is_prefix_of(c),
    ensures
        a.is_prefix_of(c),
{
    assert(a =~= c.subrange(0, a.len() as int));
}

/// The streaming encoder state: an exclusive handle on the output sink, an
/// in-memory append-only text buffer. Encoding a value appends its canonical
/// text; on failure whatever was already emitted stays in the buffer (the
/// sink has no rollback), and the caller should not trust the partial text.
pub struct Serializer {
    out: String,
}

impl View for Serializer {
    type V = Seq<char>;

    closed spec fn view(&self) -> Seq<char> {
        self.out@
    }
}

impl Serializer {
    /// A fresh encoder with an empty output buffer.
    pub fn new() -> (s: Serializer)
        ensures
            s@ == Seq::<char>::empty(),
    {
        Serializer { out: String::new() }
    }

    /// Hand the accumulated text over.
    pub fn into_string(self) -> (r: String)
        ensures
            r@ == self@,
    {
        self.out
    }

    fn write_lit(&mut self, t: &str)
        ensures
            final(self)@ == old(self)@ + t@,
    {
        self.out.append(t);
    }

    fn write_quoted(&mut self, s: &str) -> (r: Result<(), Error>)
        ensures
            r is Ok <==> nul_free(s@),
            r is Ok ==> final(self)@ == old(self)@ + quoted(s@),
            r is Err ==> final(self)@ == old(self)@ && r->Err_0 == Error::UnencodableNullString,
    {
        match crate::escape::escape(s) {
            Ok(t) => {
                self.write_lit(t.as_str());
                Ok(())
            },
            Err(e) => Err(e),
        }
    }

    fn write_key(&mut self, s: &str) -> (r: Result<(), Error>)
        ensures
            r is Ok <==> nul_free(s@),
            r is Ok ==> final(self)@ == old(self)@ + key_text(s@),
            r is Err ==> final(self)@ == old(self)@ && r->Err_0 == Error::UnencodableNullString,
    {
        match crate::escape::encode_key(s) {
            Ok(t) => {
                self.write_lit(t.as_str());
                Ok(())
            },
            Err(e) => Err(e),
        }
    }

    /// Append the canonical text of `v` to the output. On success the buffer
    /// has grown by exactly `enc(v)`; on failure the error is the first one
    /// the left-to-right walk of `v` meets, and the buffer keeps what was
    /// emitted before the failure.
    pub fn encode_value(&mut self, v: &Value) -> (r: Result<(), Error>)
        ensures
            r is Ok <==> enc_err(*v) is None,
            r is Ok ==> final(self)@ == old(self)@ + enc(*v),
            r is Err ==> enc_err(*v) == Some(r->Err_0) && old(self)@.is_prefix_of(final(self)@),
        decreases *v, 0int,
    {
        match v {
            Value::Null => {
                self.write_lit("null");
                Ok(())
            },
            Value::Bool(b) => {
                if *b {
                    self.write_lit("true");
                } else {
                    self.write_lit("false");
                }
                Ok(())
            },
            Value::Int(n) => {
                let t = crate::num::fmt_i64(*n);
                self.write_lit(t.as_str());
                Ok(())
            },
            Value::UInt(n) => {
                let t = crate::num::fmt_u64(*n);
                self.write_lit(t.as_str());
                Ok(())
            },
            Value::Char(c) => {
                let mut one = String::new();
                crate::escape::push_char(&mut one, *c);
                proof {
                    assert(one@ =~= seq![*c]);
                }
                match self.write_quoted(one.as_str()) {
                    Ok(()) => {
                        proof {
                            assert(nul_free(seq![*c]));
                            assert(seq![*c][0] != '\0');
                        }
                        Ok(())
                    },
                    Err(e) => {
                        proof {
                            assert(!nul_free(seq![*c]));
                            assert(*c == '\0');
                            lemma_prefix_append(old(self)@, Seq::<char>::empty());
                            assert(old(self)@ + Seq::<char>::empty() =~= old(self)@);
                        }
                        Err(e)
                    },
                }
            },
            Value::Str(s) => {
                match self.write_quoted(s.as_str()) {
                    Ok(()) => Ok(()),
                    Err(e) => {
                        proof {
                            assert(old(self)@ =~= final(self)@.subrange(
                                0,
                                old(self)@.len() as int,
                            ));
                        }
                        Err(e)
                    },
                }
            },
            Value::Bytes(bs) => {
                self.write_lit("[ ");
                self.encode_bytes(bs, 0);
                self.write_lit("]");
                proof {
                    assert(final(self)@ =~= old(self)@ + enc(*v));
                }
                Ok(())
            },
            Value::List(vs) => {
                self.write_lit("[ ");
                let ghost mid = self@;
                match self.encode_list(vs, 0) {
                    Ok(()) => {
                        self.write_lit("]");
                        proof {
                            assert(final(self)@ =~= old(self)@ + enc(*v));
                        }
                        Ok(())
                    },
                    Err(e) => {
                        proof {
                            lemma_prefix_append(old(self)@, "[ "@);
                            lemma_prefix_trans(old(self)@, mid, final(self)@);
                        }
                        Err(e)
                    },
                }
            },
            Value::Dict(es) => {
                self.write_lit("{ ");
                let ghost mid = self@;
                match self.encode_dict(es, 0) {
                    Ok(()) => {
                        self.write_lit("}");
                        proof {
                            assert(final(self)@ =~= old(self)@ + enc(*v));
                        }
                        Ok(())
                    },
                    Err(e) => {
                        proof {
                            lemma_prefix_append(old(self)@, "{ "@);
                            lemma_prefix_trans(old(self)@, mid, final(self)@);
                        }
                        Err(e)
                    },
                }
            },
            Value::Record(fs) => {
                self.write_lit("{ ");
                let ghost mid = self@;
                match self.encode_record(fs, 0) {
                    Ok(()) => {
                        self.write_lit("}");
                        proof {
                            assert(final(self)@ =~= old(self)@ + enc(*v));
                        }
                        Ok(())
                    },
                    Err(e) => {
                        proof {
                            lemma_prefix_append(old(self)@, "{ "@);
                            lemma_prefix_trans(old(self)@, mid, final(self)@);
                        }
                        Err(e)
                    },
                }
            },
            Value::UnitVariant(name) => {
                match self.write_quoted(name.as_str()) {
                    Ok(()) => Ok(()),
                    Err(e) => {
                        proof {
                            assert(old(self)@ =~= final(self)@.subrange(
                                0,
                                old(self)@.len() as int,
                            ));
                        }
                        Err(e)
                    },
                }
            },
            Value::NewtypeVariant(name, inner) => {
                self.write_lit("{ ");
                let ghost mid = self@;
                match self.write_quoted(name.as_str()) {
                    Ok(()) => {
                        self.write_lit(" = ");
                        let ghost mid2 = self@;
                        match self.encode_value(&**inner) {
                            Ok(()) => {
                                self.write_lit("; }");
                                proof {
                                    assert(final(self)@ =~= old(self)@ + enc(*v));
                                }
                                Ok(())
                            },
                            Err(e) => {
                                proof {
                                    lemma_prefix_append(old(self)@, "{ "@ + quoted(name@) + " = "@);
                                    assert(old(self)@ + ("{ "@ + quoted(name@) + " = "@) =~= mid2);
                                    lemma_prefix_trans(old(self)@, mid2, final(self)@);
                                }
                                Err(e)
                            },
                        }
                    },
                    Err(e) => {
                        proof {
                            lemma_prefix_append(old(self)@, "{ "@);
                            assert(old(self)@ + "{ "@ =~= mid);
                            lemma_prefix_trans(old(self)@, mid, final(self)@);
                        }
                        Err(e)
                    },
                }
            },
            Value::TupleVariant(name, vs) => {
                match self.write_quoted(name.as_str()) {
                    Ok(()) => {
                        self.write_lit("[ ");
                        let ghost mid = self@;
                        match self.encode_list(vs, 0) {
                            Ok(()) => {
                                self.write_lit("]");
                                proof {
                                    assert(final(self)@ =~= old(self)@ + enc(*v));
                                }
                                Ok(())
                            },
                            Err(e) => {
                                proof {
                                    lemma_prefix_append(old(self)@, quoted(name@) + "[ "@);
                                    assert(old(self)@ + (quoted(name@) + "[ "@) =~= mid);
                                    lemma_prefix_trans(old(self)@, mid, final(self)@);
                                }
                                Err(e)
                            },
                        }
                    },
                    Err(e) => {
                        proof {
                            assert(old(self)@ =~= final(self)@.subrange(
                                0,
                                old(self)@.len() as int,
                            ));
                        }
                        Err(e)
                    },
                }
            },
            Value::StructVariant(name, fs) => {
                match self.write_quoted(name.as_str()) {
                    Ok(()) => {
                        self.write_lit("{ ");
                        let ghost mid = self@;
                        match self.encode_record(fs, 0) {
                            Ok(()) => {
                                self.write_lit("}");
                                proof {
                                    assert(final(self)@ =~= old(self)@ + enc(*v));
                                }
                                Ok(())
                            },
                            Err(e) => {
                                proof {
                                    lemma_prefix_append(old(self)@, quoted(name@) + "{ "@);
                                    assert(old(self)@ + (quoted(name@) + "{ "@) =~= mid);
                                    lemma_prefix_trans(old(self)@, mid, final(self)@);
                                }
                                Err(e)
                            },
                        }
                    },
                    Err(e) => {
                        proof {
                            assert(old(self)@ =~= final(self)@.subrange(
                                0,
                                old(self)@.len() as int,
                            ));
                        }
                        Err(e)
                    },
                }
            },
        }
    }

    fn encode_bytes(&mut self, bs: &Vec<u8>, i: usize)
        requires
            i <= bs.len(),
        ensures
            final(self)@ == old(self)@ + enc_bytes_from(bs@, i as int),
        decreases bs@.len() - i,
    {
        if i == bs.len() {
            proof {
                assert(old(self)@ + enc_bytes_from(bs@, i as int) =~= old(self)@);
            }
            return ;
        }
        let t = crate::num::fmt_u64(bs[i] as u64);
        self.write_lit(t.as_str());
        self.write_lit(" ");
        self.encode_bytes(bs, i + 1);
        proof {
            assert(final(self)@ =~= old(self)@ + enc_bytes_from(bs@, i as int));
        }
    }

    fn encode_list(&mut self, vs: &Vec<Value>, i: usize) -> (r: Result<(), Error>)
        requires
            i <= vs.len(),
        ensures
            r is Ok <==> err_list_from(vs@, i as int) is None,
            r is Ok ==> final(self)@ == old(self)@ + enc_list_from(vs@, i as int),
            r is Err ==> err_list_from(vs@, i as int) == Some(r->Err_0) && old(
                self,
            )@.is_prefix_of(final(self)@),
        decreases vs@, vs@.len() - i,
    {
        if i == vs.len() {
            proof {
                assert(old(self)@ + enc_list_from(vs@, i as int) =~= old(self)@);
            }
            return Ok(());
        }
        match self.encode_value(&vs[i]) {
            Ok(()) => {
                self.write_lit(" ");
                let ghost mid = self@;
                match self.encode_list(vs, i + 1) {
                    Ok(()) => {
                        proof {
                            assert(final(self)@ =~= old(self)@ + enc_list_from(vs@, i as int));
                        }
                        Ok(())
                    },
                    Err(e) => {
                        proof {
                            lemma_prefix_append(old(self)@, enc(vs@[i as int]) + " "@);
                            assert(old(self)@ + (enc(vs@[i as int]) + " "@) =~= mid);
                            lemma_prefix_trans(old(self)@, mid, final(self)@);
                        }
                        Err(e)
                    },
                }
            },
            Err(e) => Err(e),
        }
    }

    fn encode_dict(&mut self, es: &Vec<(Value, Value)>, i: usize) -> (r: Result<(), Error>)
        requires
            i <= es.len(),
        ensures
            r is Ok <==> err_dict_from(es@, i as int) is None,
            r is Ok ==> final(self)@ == old(self)@ + enc_dict_from(es@, i as int),
            r is Err ==> err_dict_from(es@, i as int) == Some(r->Err_0) && old(
                self,
            )@.is_prefix_of(final(self)@),
        decreases es@, es@.len() - i,
    {
        if i == es.len() {
            proof {
                assert(old(self)@ + enc_dict_from(es@, i as int) =~= old(self)@);
            }
            return Ok(());
        }
        match self.encode_entry_key(&es[i].0) {
            Ok(()) => {
                self.write_lit(" = ");
                let ghost mid1 = self@;
                match self.encode_value(&es[i].1) {
                    Ok(()) => {
                        self.write_lit("; ");
                        let ghost mid2 = self@;
                        match self.encode_dict(es, i + 1) {
                            Ok(()) => {
                                proof {
                                    assert(final(self)@ =~= old(self)@ + enc_dict_from(
                                        es@,
                                        i as int,
                                    ));
                                }
                                Ok(())
                            },
                            Err(e) => {
                                proof {
                                    lemma_prefix_append(
                                        old(self)@,
                                        enc_key(es@[i as int].0) + " = "@ + enc(es@[i as int].1)
                                            + "; "@,
                                    );
                                    assert(old(self)@ + (enc_key(es@[i as int].0) + " = "@ + enc(
                                        es@[i as int].1,
                                    ) + "; "@) =~= mid2);
                                    lemma_prefix_trans(old(self)@, mid2, final(self)@);
                                }
                                Err(e)
                            },
                        }
                    },
                    Err(e) => {
                        proof {
                            lemma_prefix_append(old(self)@, enc_key(es@[i as int].0) + " = "@);
                            assert(old(self)@ + (enc_key(es@[i as int].0) + " = "@) =~= mid1);
                            lemma_prefix_trans(old(self)@, mid1, final(self)@);
                        }
                        Err(e)
                    },
                }
            },
            Err(e) => Err(e),
        }
    }

    fn encode_record(&mut self, fs: &Vec<(String, Value)>, i: usize) -> (r: Result<(), Error>)
        requires
            i <= fs.len(),
        ensures
            r is Ok <==> err_record_from(fs@, i as int) is None,
            r is Ok ==> final(self)@ == old(self)@ + enc_record_from(fs@, i as int),
            r is Err ==> err_record_from(fs@, i as int) == Some(r->Err_0) && old(
                self,
            )@.is_prefix_of(final(self)@),
        decreases fs@, fs@.len() - i,
    {
        if i == fs.len() {
            proof {
                assert(old(self)@ + enc_record_from(fs@, i as int) =~= old(self)@);
            }
            return Ok(());
        }
        match self.write_key(fs[i].0.as_str()) {
            Ok(()) => {
                self.write_lit(" = ");
                let ghost mid1 = self@;
                match self.encode_value(&fs[i].1) {
                    Ok(()) => {
                        self.write_lit("; ");
                        let ghost mid2 = self@;
                        match self.encode_record(fs, i + 1) {
                            Ok(()) => {
                                proof {
                                    assert(final(self)@ =~= old(self)@ + enc_record_from(
                                        fs@,
                                        i as int,
                                    ));
                                }
                                Ok(())
                            },
                            Err(e) => {
                                proof {
                                    lemma_prefix_append(
                                        old(self)@,
                                        key_text(fs@[i as int].0@) + " = "@ + enc(fs@[i as int].1)
                                            + "; "@,
                                    );
                                    assert(old(self)@ + (key_text(fs@[i as int].0@) + " = "@ + enc(
                                        fs@[i as int].1,
                                    ) + "; "@) =~= mid2);
                                    lemma_prefix_trans(old(self)@, mid2, final(self)@);
                                }
                                Err(e)
                            },
                        }
                    },
                    Err(e) => {
                        proof {
                            lemma_prefix_append(old(self)@, key_text(fs@[i as int].0@) + " = "@);
                            assert(old(self)@ + (key_text(fs@[i as int].0@) + " = "@) =~= mid1);
                            lemma_prefix_trans(old(self)@, mid1, final(self)@);
                        }
                        Err(e)
                    },
                }
            },
            Err(e) => Err(e),
        }
    }

    /// Append the attribute-name text of a string-like map key; reject any
    /// other key shape with `MapKeyMustBeAString` before writing anything.
    fn encode_entry_key(&mut self, k: &Value) -> (r: Result<(), Error>)
        ensures
            r is Ok <==> key_err(*k) is None,
            r is Ok ==> final(self)@ == old(self)@ + enc_key(*k),
            r is Err ==> key_err(*k) == Some(r->Err_0) && final(self)@ == old(self)@,
    {
        match k {
            Value::Str(s) => self.write_key(s.as_str()),
            Value::Char(c) => {
                let mut one = String::new();
                crate::escape::push_char(&mut one, *c);
                proof {
                    assert(one@ =~= seq![*c]);
                    if *c != '\0' {
                        assert forall|j: int| 0 <= j < seq![*c].len() implies seq![*c][j]
                            != '\0' by {}
                    } else {
                        assert(seq![*c][0] == '\0');
                        assert(!nul_free(seq![*c]));
                    }
                }
                self.write_key(one.as_str())
            },
            _ => Err(Error::MapKeyMustBeAString),
        }
    }
}

/// Encode `value` as one line of Nix expression text. Succeeds exactly when
/// every string and character in `value` is free of NUL and every map key is
/// string-like; otherwise reports the first failure of the left-to-right
/// walk, and returns no partial text.
pub fn to_string(value: &Value) -> (r: Result<String, Error>)
    ensures
        r is Ok <==> enc_err(*value) is None,
        r is Ok ==> r->Ok_0@ == enc(*value),
        r is Err ==> enc_err(*value) == Some(r->Err_0),
{
    let mut s = Serializer::new();
    match s.encode_value(value) {
        Ok(()) => {
            proof {
                assert(s@ =~= enc(*value));
            }
            Ok(s.into_string())
        },
        Err(e) => Err(e),
    }
}

} // verus!
