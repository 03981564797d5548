//! The library's model of a parsed JSON document: a tree of plain values.
//! Numbers keep the canonical text the parser rendered them with, together
//! with an integer/decimal flag, so that re-rendering a document is exact.

use vstd::prelude::*;

verus! {

use crate::path::{PathToken, PathTokV};
use crate::strutil::{push_str, str_eq};
use vstd::string::StrSliceExecFns;

/// A parsed JSON value.
#[derive(Debug, PartialEq)]
pub enum JsonValue {
    Null,
    Bool(bool),
    /// The number's canonical text, and whether it is an integer
    Number { text: String, integer: bool },
    Str(String),
    Array(Vec<JsonValue>),
    Object(Vec<(String, JsonValue)>),
}

/// Specification-level form of a JSON value.
#[verifier::ext_equal]
pub enum JsonV {
    Null,
    Bool(bool),
    Number(Seq<char>, bool),
    Str(Seq<char>),
    Array(Seq<JsonV>),
    Object(Seq<(Seq<char>, JsonV)>),
}

/// The specification-level form of a JSON value.
pub open spec fn jv(j: JsonValue) -> JsonV
    decreases j,
{
    match j {
        JsonValue::Null => JsonV::Null,
        JsonValue::Bool(b) => JsonV::Bool(b),
        JsonValue::Number { text, integer } => JsonV::Number(text@, integer),
        JsonValue::Str(s) => JsonV::Str(s@),
        JsonValue::Array(items) => JsonV::Array(jv_seq(items@)),
        JsonValue::Object(fields) => JsonV::Object(jv_fields(fields@)),
    }
}

/// The views of a sequence of JSON values.
pub open spec fn jv_seq(s: Seq<JsonValue>) -> Seq<JsonV>
    decreases s,
{
    if s.len() == 0 {
        Seq::empty()
    } else {
        jv_seq(s.drop_last()).push(jv(s.last()))
    }
}

/// The views of a sequence of object members.
pub open spec fn jv_fields(s: Seq<(String, JsonValue)>) -> Seq<(Seq<char>, JsonV)>
    decreases s,
{
    if s.len() == 0 {
        Seq::empty()
    } else {
        jv_fields(s.drop_last()).push((s.last().0@, jv(s.last().1)))
    }
}

pub broadcast proof fn lemma_jv_seq(s: Seq<JsonValue>)
    ensures
        (#[trigger] jv_seq(s)).len() == s.len(),
        forall|i: int| 0 <= i < s.len() ==> jv_seq(s)[i] == jv(s[i]),
    decreases s.len(),
{
    if s.len() > 0 {
        lemma_jv_seq(s.drop_last());
    }
}

pub broadcast proof fn lemma_jv_fields(s: Seq<(String, JsonValue)>)
    ensures
        (#[trigger] jv_fields(s)).len() == s.len(),
        forall|i: int| 0 <= i < s.len() ==> jv_fields(s)[i] == (s[i].0@, jv(s[i].1)),
    decreases s.len(),
{
    if s.len() > 0 {
        lemma_jv_fields(s.drop_last());
    }
}

impl View for JsonValue {
    type V = JsonV;

    open spec fn view(&self) -> JsonV {
        jv(*self)
    }
}

impl Default for JsonValue {
    /// The default JSON value is `null`.
    fn default() -> (r: Self)
        ensures
            r@ == JsonV::Null,
    {
        JsonValue::Null
    }
}

impl Clone for JsonValue {
    #[verifier::loop_isolation(false)]
    fn clone(&self) -> (res: Self)
        ensures
            res@ == self@,
        decreases self,
    {
        broadcast use lemma_jv_seq, lemma_jv_fields;

        match self {
            JsonValue::Null => JsonValue::Null,
            JsonValue::Bool(b) => JsonValue::Bool(*b),
            JsonValue::Number { text, integer } => JsonValue::Number {
                text: text.clone(),
                integer: *integer,
            },
            JsonValue::Str(s) => JsonValue::Str(s.clone()),
            JsonValue::Array(items) => {
                let mut out: Vec<JsonValue> = Vec::new();
                let mut i: usize = 0;
                while i < items.len()
                    invariant
                        i <= items.len(),
                        out@.len() == i,
                        forall|j: int| 0 <= j < i ==> jv(out@[j]) == jv(items@[j]),
                    decreases items.len() - i,
                {
                    proof {
                        assert(decreases_to!(*self => items@[i as int]));
                    }
                    let c = items[i].clone();
                    out.push(c);
                    i = i + 1;
                }
                let r = JsonValue::Array(out);
                proof {
                    assert(jv_seq(out@) =~= jv_seq(items@));
                }
                r
            },
            JsonValue::Object(fields) => {
                let mut out: Vec<(String, JsonValue)> = Vec::new();
                let mut i: usize = 0;
                while i < fields.len()
                    invariant
                        i <= fields.len(),
                        out@.len() == i,
                        forall|j: int|
                            0 <= j < i ==> out@[j].0@ == fields@[j].0@ && jv(out@[j].1) == jv(
                                fields@[j].1,
                            ),
                    decreases fields.len() - i,
                {
                    let k = fields[i].0.clone();
                    proof {
                        assert(decreases_to!(*self => fields@[i as int].1));
                    }
                    let v = fields[i].1.clone();
                    out.push((k, v));
                    i = i + 1;
                }
                let r = JsonValue::Object(out);
                proof {
                    assert(jv_fields(out@) =~= jv_fields(fields@));
                }
                r
            },
        }
    }
}

/// The lowercase hex digit for `d` (0..15).
pub open spec fn hex_digit_seq(d: nat) -> Seq<char> {
    if d < 10 {
        crate::strutil::digit_seq(d)
    } else if d == 10 { "a"@ } else if d == 11 { "b"@ } else if d == 12 { "c"@ }
    else if d == 13 { "d"@ } else if d == 14 { "e"@ } else { "f"@ }
}

/// How one character appears inside a JSON string literal.
pub open spec fn json_escape_char(c: char) -> Seq<char> {
    if c == '"' { "\\\""@ }
    else if c == '\\' { "\\\\"@ }
    else if c == '\u{8}' { "\\b"@ }
    else if c == '\u{c}' { "\\f"@ }
    else if c == '\n' { "\\n"@ }
    else if c == '\r' { "\\r"@ }
    else if c == '\t' { "\\t"@ }
    else if (c as nat) < 32 {
        "\\u00"@ + hex_digit_seq((c as nat) / 16) + hex_digit_seq((c as nat) % 16)
    } else {
        seq![c]
    }
}

/// The body of a JSON string literal: every character escaped.
pub open spec fn json_escape(s: Seq<char>) -> Seq<char>
    decreases s.len(),
{
    if s.len() == 0 {
        Seq::empty()
    } else {
        json_escape(s.drop_last()) + json_escape_char(s.last())
    }
}

/// The compact text form of a JSON value, as the parser's own renderer
/// writes it: no spaces, object members in stored order.
pub open spec fn json_text(j: JsonV) -> Seq<char>
    decreases j,
{
    match j {
        JsonV::Null => "null"@,
        JsonV::Bool(b) => if b { "true"@ } else { "false"@ },
        JsonV::Number(t, _) => t,
        JsonV::Str(s) => "\""@ + json_escape(s) + "\""@,
        JsonV::Array(items) => "["@ + json_items_text(items) + "]"@,
        JsonV::Object(fields) => "{"@ + json_fields_text(fields) + "}"@,
    }
}

/// The comma-separated texts of array items.
pub open spec fn json_items_text(items: Seq<JsonV>) -> Seq<char>
    decreases items,
{
    if items.len() == 0 {
        Seq::empty()
    } else if items.len() == 1 {
        json_text(items.last())
    } else {
        json_items_text(items.drop_last()) + ","@ + json_text(items.last())
    }
}

/// The comma-separated texts of object members.
pub open spec fn json_fields_text(fields: Seq<(Seq<char>, JsonV)>) -> Seq<char>
    decreases fields,
{
    if fields.len() == 0 {
        Seq::empty()
    } else {
        let entry = "\""@ + json_escape(fields.last().0) + "\":"@ + json_text(fields.last().1);
        if fields.len() == 1 {
            entry
        } else {
            json_fields_text(fields.drop_last()) + ","@ + entry
        }
    }
}

fn push_hex_digit(out: &mut Vec<char>, d: u32)
    requires
        d < 16,
    ensures
        final(out)@ == old(out)@ + hex_digit_seq(d as nat),
{
    let s: &str = if d == 0 { "0" } else if d == 1 { "1" } else if d == 2 { "2" }
        else if d == 3 { "3" } else if d == 4 { "4" } else if d == 5 { "5" }
        else if d == 6 { "6" } else if d == 7 { "7" } else if d == 8 { "8" }
        else if d == 9 { "9" } else if d == 10 { "a" } else if d == 11 { "b" }
        else if d == 12 { "c" } else if d == 13 { "d" } else if d == 14 { "e" }
        else { "f" };
    push_str(out, s);
}

/// Appends the body of a JSON string literal for `s`.
#[verifier::loop_isolation(false)]
#[verifier::rlimit(100)]
pub fn push_json_escaped(out: &mut Vec<char>, s: &str)
    ensures
        final(out)@ == old(out)@ + json_escape(s@),
{
    let len = s.unicode_len();
    let mut i: usize = 0;
    proof {
        assert(json_escape(s@.take(0)) =~= Seq::<char>::empty());
        assert(out@ =~= old(out)@ + json_escape(s@.take(0)));
    }
    while i < len
        invariant
            i <= len,
            out@ == old(out)@ + json_escape(s@.take(i as int)),
        decreases len - i,
    {
        let c = s.get_char(i);
        if c == '"' {
            push_str(out, "\\\"");
        } else if c == '\\' {
            push_str(out, "\\\\");
        } else if c == '\u{8}' {
            push_str(out, "\\b");
        } else if c == '\u{c}' {
            push_str(out, "\\f");
        } else if c == '\n' {
            push_str(out, "\\n");
        } else if c == '\r' {
            push_str(out, "\\r");
        } else if c == '\t' {
            push_str(out, "\\t");
        } else if (c as u32) < 32 {
            push_str(out, "\\u00");
            let cv = c as u32;
            push_hex_digit(out, cv / 16);
            push_hex_digit(out, cv % 16);
        } else {
            out.push(c);
            proof {
                assert(out@ =~= old(out)@ + json_escape(s@.take(i as int)) + seq![c]);
            }
        }
        proof {
            assert(s@.take(i + 1).drop_last() =~= s@.take(i as int));
            assert(s@.take(i + 1).last() == s@[i as int]);
            assert(out@ =~= old(out)@ + json_escape(s@.take(i + 1)));
        }
        i = i + 1;
    }
    proof {
        assert(s@.take(len as int) =~= s@);
    }
}

/// Appends the compact text form of `j`.
#[verifier::loop_isolation(false)]
#[verifier::rlimit(100)]
pub fn push_json_text(out: &mut Vec<char>, j: &JsonValue)
    ensures
        final(out)@ == old(out)@ + json_text(j@),
    decreases j,
{
    broadcast use lemma_jv_seq, lemma_jv_fields;

    match j {
        JsonValue::Null => push_str(out, "null"),
        JsonValue::Bool(b) => {
            if *b {
                push_str(out, "true");
            } else {
                push_str(out, "false");
            }
        },
        JsonValue::Number { text, integer: _ } => push_str(out, text.as_str()),
        JsonValue::Str(s) => {
            push_str(out, "\"");
            push_json_escaped(out, s.as_str());
            push_str(out, "\"");
            assert(out@ =~= old(out)@ + json_text(j@));
        },
        JsonValue::Array(items) => {
            push_str(out, "[");
            let ghost iv = jv_seq(items@);
            let mut i: usize = 0;
            proof {
                assert(json_items_text(iv.take(0)) =~= Seq::<char>::empty());
                assert(out@ =~= old(out)@ + "["@ + json_items_text(iv.take(0)));
            }
            while i < items.len()
                invariant
                    i <= items.len(),
                    out@ == old(out)@ + "["@ + json_items_text(iv.take(i as int)),
                decreases items.len() - i,
            {
                if i > 0 {
                    push_str(out, ",");
                }
                proof {
                    assert(decreases_to!(*j => items@[i as int]));
                }
                push_json_text(out, &items[i]);
                proof {
                    assert(iv.take(i + 1).drop_last() =~= iv.take(i as int));
                    assert(iv.take(i + 1).last() == iv[i as int]);
                    assert(out@ =~= old(out)@ + "["@ + json_items_text(iv.take(i + 1)));
                }
                i = i + 1;
            }
            push_str(out, "]");
            proof {
                assert(iv.take(items@.len() as int) =~= iv);
                assert(out@ =~= old(out)@ + json_text(j@));
            }
        },
        JsonValue::Object(fields) => {
            push_str(out, "{");
            let ghost fv = jv_fields(fields@);
            let mut i: usize = 0;
            proof {
                assert(json_fields_text(fv.take(0)) =~= Seq::<char>::empty());
                assert(out@ =~= old(out)@ + "{"@ + json_fields_text(fv.take(0)));
            }
            while i < fields.len()
                invariant
                    i <= fields.len(),
                    out@ == old(out)@ + "{"@ + json_fields_text(fv.take(i as int)),
                decreases fields.len() - i,
            {
                if i > 0 {
                    push_str(out, ",");
                }
                push_str(out, "\"");
                push_json_escaped(out, fields[i].0.as_str());
                push_str(out, "\":");
                proof {
                    assert(decreases_to!(*j => fields@[i as int].1));
                }
                push_json_text(out, &fields[i].1);
                proof {
                    assert(fv.take(i + 1).drop_last() =~= fv.take(i as int));
                    assert(fv.take(i + 1).last() == fv[i as int]);
                    assert(out@ =~= old(out)@ + "{"@ + json_fields_text(fv.take(i + 1)));
                }
                i = i + 1;
            }
            push_str(out, "}");
            proof {
                assert(fv.take(fields@.len() as int) =~= fv);
                assert(out@ =~= old(out)@ + json_text(j@));
            }
        },
    }
}

/// The display form used in mismatch messages: strings are single-quoted,
/// everything else appears in its compact JSON form.
pub open spec fn json_display(j: JsonV) -> Seq<char> {
    match j {
        JsonV::Str(s) => "'"@ + s + "'"@,
        _ => json_text(j),
    }
}

/// Appends the display form of `j`.
pub fn push_json_display(out: &mut Vec<char>, j: &JsonValue)
    ensures
        final(out)@ == old(out)@ + json_display(j@),
{
    match j {
        JsonValue::Str(s) => {
            push_str(out, "'");
            push_str(out, s.as_str());
            push_str(out, "'");
            assert(out@ =~= old(out)@ + json_display(j@));
        },
        _ => push_json_text(out, j),
    }
}

/// The type name used in mismatch messages.
pub open spec fn json_type_name(j: JsonV) -> Seq<char> {
    match j {
        JsonV::Null => "Null"@,
        JsonV::Bool(_) => "Boolean"@,
        JsonV::Number(_, integer) => if integer { "Integer"@ } else { "Decimal"@ },
        JsonV::Str(_) => "String"@,
        JsonV::Array(_) => "Array"@,
        JsonV::Object(_) => "Object"@,
    }
}

/// Appends the type name of `j`.
pub fn push_json_type_name(out: &mut Vec<char>, j: &JsonValue)
    ensures
        final(out)@ == old(out)@ + json_type_name(j@),
{
    match j {
        JsonValue::Null => push_str(out, "Null"),
        JsonValue::Bool(_) => push_str(out, "Boolean"),
        JsonValue::Number { text: _, integer } => {
            if *integer {
                push_str(out, "Integer");
            } else {
                push_str(out, "Decimal");
            }
        },
        JsonValue::Str(_) => push_str(out, "String"),
        JsonValue::Array(_) => push_str(out, "Array"),
        JsonValue::Object(_) => push_str(out, "Object"),
    }
}

/// Decides structural equality of two JSON values.
#[verifier::loop_isolation(false)]
#[verifier::rlimit(100)]
pub fn json_eq(a: &JsonValue, b: &JsonValue) -> (r: bool)
    ensures
        r == (a@ == b@),
    decreases a,
{
    broadcast use lemma_jv_seq, lemma_jv_fields;

    match (a, b) {
        (JsonValue::Null, JsonValue::Null) => true,
        (JsonValue::Bool(x), JsonValue::Bool(y)) => x == y,
        (
            JsonValue::Number { text: t1, integer: i1 },
            JsonValue::Number { text: t2, integer: i2 },
        ) => str_eq(t1.as_str(), t2.as_str()) && i1 == i2,
        (JsonValue::Str(s1), JsonValue::Str(s2)) => str_eq(s1.as_str(), s2.as_str()),
        (JsonValue::Array(x), JsonValue::Array(y)) => {
            if x.len() != y.len() {
                proof {
                    assert(jv_seq(x@).len() != jv_seq(y@).len());
                }
                return false;
            }
            let mut i: usize = 0;
            while i < x.len()
                invariant
                    i <= x.len(),
                    x@.len() == y@.len(),
                    forall|j: int| 0 <= j < i ==> jv(x@[j]) == jv(y@[j]),
                decreases x.len() - i,
            {
                proof {
                    assert(decreases_to!(*a => x@[i as int]));
                }
                if !json_eq(&x[i], &y[i]) {
                    proof {
                        assert(jv_seq(x@)[i as int] != jv_seq(y@)[i as int]);
                    }
                    return false;
                }
                i = i + 1;
            }
            proof {
                assert(jv_seq(x@) =~= jv_seq(y@));
            }
            true
        },
        (JsonValue::Object(x), JsonValue::Object(y)) => {
            if x.len() != y.len() {
                proof {
                    assert(jv_fields(x@).len() != jv_fields(y@).len());
                }
                return false;
            }
            let mut i: usize = 0;
            while i < x.len()
                invariant
                    i <= x.len(),
                    x@.len() == y@.len(),
                    forall|j: int| 0 <= j < i ==> x@[j].0@ == y@[j].0@ && jv(x@[j].1) == jv(y@[j].1),
                decreases x.len() - i,
            {
                if !str_eq(x[i].0.as_str(), y[i].0.as_str()) {
                    proof {
                        assert(jv_fields(x@)[i as int] != jv_fields(y@)[i as int]);
                    }
                    return false;
                }
                proof {
                    assert(decreases_to!(*a => x@[i as int].1));
                }
                if !json_eq(&x[i].1, &y[i].1) {
                    proof {
                        assert(jv_fields(x@)[i as int] != jv_fields(y@)[i as int]);
                    }
                    return false;
                }
                i = i + 1;
            }
            proof {
                assert(jv_fields(x@) =~= jv_fields(y@));
            }
            true
        },
        _ => false,
    }
}

/// First-match lookup of a member by name, in specification form.
pub open spec fn obj_lookup(fields: Seq<(Seq<char>, JsonV)>, name: Seq<char>) -> Option<JsonV>
    decreases fields.len(),
{
    if fields.len() == 0 {
        None
    } else if fields[0].0 == name {
        Some(fields[0].1)
    } else {
        obj_lookup(fields.skip(1), name)
    }
}

proof fn lemma_obj_lookup_prefix(fields: Seq<(Seq<char>, JsonV)>, name: Seq<char>, i: int)
    requires
        0 <= i <= fields.len(),
        forall|k: int| 0 <= k < i ==> fields[k].0 != name,
    ensures
        obj_lookup(fields, name) == obj_lookup(fields.skip(i), name),
    decreases i,
{
    if i > 0 {
        assert(fields[0].0 != name);
        assert forall|k: int| 0 <= k < i - 1 implies #[trigger] fields.skip(1)[k].0 != name by {
            assert(fields.skip(1)[k] == fields[k + 1]);
        }
        lemma_obj_lookup_prefix(fields.skip(1), name, i - 1);
        assert(fields.skip(1).skip(i - 1) =~= fields.skip(i));
    } else {
        assert(fields.skip(0) =~= fields);
    }
}

/// Looks up a member of an object by name (first match).
#[verifier::loop_isolation(false)]
pub fn object_get<'a>(fields: &'a Vec<(String, JsonValue)>, name: &str) -> (r: Option<
    &'a JsonValue,
>)
    ensures
        match r {
            Some(v) => obj_lookup(jv_fields(fields@), name@) == Some(v@),
            None => obj_lookup(jv_fields(fields@), name@) is None,
        },
{
    broadcast use lemma_jv_fields;

    let ghost fv = jv_fields(fields@);
    let mut i: usize = 0;
    while i < fields.len()
        invariant
            i <= fields.len(),
            fv == jv_fields(fields@),
            forall|j: int| 0 <= j < i ==> fv[j].0 != name@,
        decreases fields.len() - i,
    {
        if str_eq(fields[i].0.as_str(), name) {
            proof {
                lemma_obj_lookup_prefix(fv, name@, i as int);
                assert(fv.skip(i as int)[0] == fv[i as int]);
            }
            return Some(&fields[i].1);
        }
        i = i + 1;
    }
    proof {
        lemma_obj_lookup_prefix(fv, name@, fields@.len() as int);
        assert(fv.skip(fields@.len() as int).len() == 0);
    }
    None
}

/// One step of document-path resolution inside a JSON value: the values the
/// token selects, in document order.
pub open spec fn json_step(j: JsonV, tok: PathTokV) -> Seq<JsonV> {
    match tok {
        PathTokV::Root => seq![j],
        PathTokV::Field(name) => match j {
            JsonV::Object(fields) => match obj_lookup(fields, name) {
                Some(v) => seq![v],
                None => Seq::empty(),
            },
            _ => Seq::empty(),
        },
        PathTokV::Index(i) => match j {
            JsonV::Array(items) => if 0 <= i < items.len() {
                seq![items[i]]
            } else {
                Seq::empty()
            },
            _ => Seq::empty(),
        },
        PathTokV::StarIndex => match j {
            JsonV::Array(items) => items,
            _ => Seq::empty(),
        },
        PathTokV::Star => match j {
            JsonV::Object(fields) => fields.map(|i: int, f: (Seq<char>, JsonV)| f.1),
            _ => Seq::empty(),
        },
    }
}

/// Resolution of a whole token list against a list of current values.
pub open spec fn json_resolve_seq(vals: Seq<JsonV>, toks: Seq<PathTokV>) -> Seq<JsonV>
    decreases toks.len(),
{
    if toks.len() == 0 {
        vals
    } else {
        json_resolve_seq(flat_steps(vals, toks[0]), toks.skip(1))
    }
}

/// All values any of `vals` steps to under `tok`, flattened in order.
pub open spec fn flat_steps(vals: Seq<JsonV>, tok: PathTokV) -> Seq<JsonV>
    decreases vals.len(),
{
    if vals.len() == 0 {
        Seq::empty()
    } else {
        flat_steps(vals.drop_last(), tok) + json_step(vals.last(), tok)
    }
}

/// Resolves a document path (its root token dropped) against a JSON value.
#[verifier::loop_isolation(false)]
pub fn json_resolve(j: &JsonValue, tokens: &[PathToken]) -> (r: Vec<JsonValue>)
    ensures
        jv_seq(r@) == json_resolve_seq(seq![j@], tokens@.map(|i: int, t: PathToken| t@)),
{
    broadcast use lemma_jv_seq;

    let mut vals: Vec<JsonValue> = Vec::new();
    vals.push(j.clone());
    let ghost toks = tokens@.map(|i: int, t: PathToken| t@);
    proof {
        assert(jv_seq(vals@) =~= seq![j@]);
        assert(toks.skip(0) =~= toks);
    }
    let mut t: usize = 0;
    while t < tokens.len()
        invariant
            t <= tokens@.len(),
            json_resolve_seq(jv_seq(vals@), toks.skip(t as int)) == json_resolve_seq(
                seq![j@],
                toks,
            ),
        decreases tokens@.len() - t,
    {
        let mut next: Vec<JsonValue> = Vec::new();
        let ghost cur = jv_seq(vals@);
        let mut v: usize = 0;
        proof {
            assert(flat_steps(cur.take(0), toks[t as int]) =~= Seq::<JsonV>::empty());
            assert(jv_seq(next@) =~= flat_steps(cur.take(0), toks[t as int]));
        }
        while v < vals.len()
            invariant
                v <= vals@.len(),
                cur == jv_seq(vals@),
                t < tokens@.len(),
                jv_seq(next@) == flat_steps(cur.take(v as int), toks[t as int]),
            decreases vals@.len() - v,
        {
            step_into(&vals[v], &tokens[t], &mut next);
            proof {
                assert(cur.take(v + 1).drop_last() =~= cur.take(v as int));
                assert(cur.take(v + 1).last() == cur[v as int]);
                assert(cur[v as int] == jv(vals@[v as int]));
                assert(jv_seq(next@) =~= flat_steps(cur.take(v + 1), toks[t as int]));
            }
            v = v + 1;
        }
        proof {
            assert(cur.take(vals@.len() as int) =~= cur);
            assert(toks.skip(t as int)[0] == toks[t as int]);
            assert(toks.skip(t as int).skip(1) =~= toks.skip(t + 1));
        }
        vals = next;
        t = t + 1;
    }
    proof {
        assert(toks.skip(tokens@.len() as int).len() == 0);
    }
    vals
}

/// Appends the values `v` steps to under `tok` onto `out`.
#[verifier::loop_isolation(false)]
fn step_into(v: &JsonValue, tok: &PathToken, out: &mut Vec<JsonValue>)
    ensures
        jv_seq(final(out)@) == jv_seq(old(out)@) + json_step(v@, tok@),
{
    broadcast use lemma_jv_seq, lemma_jv_fields;

    let ghost base = jv_seq(out@);
    match tok {
        PathToken::Root => {
            out.push(v.clone());
            proof {
                assert(jv_seq(out@) =~= base + json_step(v@, tok@));
            }
        },
        PathToken::Field(name) => {
            if let JsonValue::Object(fields) = v {
                let hit = object_get(fields, name.as_str());
                match hit {
                    Some(val) => {
                        out.push(val.clone());
                        proof {
                            assert(jv_seq(out@) =~= base + json_step(v@, tok@));
                        }
                    },
                    None => {
                        proof {
                            assert(jv_seq(out@) =~= base + json_step(v@, tok@));
                        }
                    },
                }
            } else {
                proof {
                    assert(jv_seq(out@) =~= base + json_step(v@, tok@));
                }
            }
        },
        PathToken::Index(idx) => {
            if let JsonValue::Array(items) = v {
                if *idx < items.len() {
                    let c = items[*idx].clone();
                    let ghost pre = out@;
                    out.push(c);
                    proof {
                        assert(out@ =~= pre.push(c));
                        assert(jv(c) == jv_seq(items@)[*idx as int]);
                        assert(json_step(v@, tok@) =~= seq![jv_seq(items@)[*idx as int]]);
                        assert(jv_seq(out@) =~= base + json_step(v@, tok@));
                    }
                } else {
                    proof {
                        assert(jv_seq(items@).len() == items@.len());
                        assert(jv_seq(out@) =~= base + json_step(v@, tok@));
                    }
                }
            } else {
                proof {
                    assert(jv_seq(out@) =~= base + json_step(v@, tok@));
                }
            }
        },
        PathToken::StarIndex => {
            if let JsonValue::Array(items) = v {
                let ghost iv = jv_seq(items@);
                let mut i: usize = 0;
                proof {
                    assert(jv_seq(out@) =~= base + iv.take(0));
                }
                while i < items.len()
                    invariant
                        i <= items@.len(),
                        jv_seq(out@) == base + iv.take(i as int),
                    decreases items@.len() - i,
                {
                    let c = items[i].clone();
                    let ghost pre = out@;
                    out.push(c);
                    proof {
                        assert(out@ =~= pre.push(c));
                        lemma_jv_seq(out@);
                        lemma_jv_seq(pre);
                        lemma_jv_seq(items@);
                        assert(jv(c) == iv[i as int]);
                        assert(jv_seq(out@).len() == base.len() + i + 1);
                        assert forall|k: int|
                            0 <= k < jv_seq(out@).len() implies jv_seq(out@)[k] == (base
                            + iv.take(i + 1))[k] by {
                            if k < pre.len() {
                                assert(out@[k] == pre[k]);
                                assert(jv_seq(out@)[k] == jv(out@[k]));
                                assert(jv_seq(pre)[k] == jv(pre[k]));
                                assert(jv_seq(pre)[k] == (base + iv.take(i as int))[k]);
                            } else {
                                assert(out@[k] == c);
                            }
                        }
                        assert(jv_seq(out@) =~= base + iv.take(i + 1));
                    }
                    i = i + 1;
                }
                proof {
                    assert(iv.take(items@.len() as int) =~= iv);
                }
            }
            proof {
                assert(jv_seq(out@) =~= base + json_step(v@, tok@));
            }
        },
        PathToken::Star => {
            if let JsonValue::Object(fields) = v {
                let ghost fv = jv_fields(fields@);
                let ghost mv = fv.map(|k: int, f: (Seq<char>, JsonV)| f.1);
                let mut i: usize = 0;
                proof {
                    assert(jv_seq(out@) =~= base + mv.take(0));
                }
                while i < fields.len()
                    invariant
                        i <= fields@.len(),
                        jv_seq(out@) == base + mv.take(i as int),
                    decreases fields@.len() - i,
                {
                    let c = fields[i].1.clone();
                    let ghost pre = out@;
                    out.push(c);
                    proof {
                        assert(out@ =~= pre.push(c));
                        lemma_jv_seq(out@);
                        lemma_jv_seq(pre);
                        lemma_jv_fields(fields@);
                        assert(mv[i as int] == fv[i as int].1);
                        assert(jv(c) == mv[i as int]);
                        assert(jv_seq(out@).len() == base.len() + i + 1);
                        assert forall|k: int|
                            0 <= k < jv_seq(out@).len() implies jv_seq(out@)[k] == (base
                            + mv.take(i + 1))[k] by {
                            if k < pre.len() {
                                assert(out@[k] == pre[k]);
                                assert(jv_seq(out@)[k] == jv(out@[k]));
                                assert(jv_seq(pre)[k] == jv(pre[k]));
                                assert(jv_seq(pre)[k] == (base + mv.take(i as int))[k]);
                            } else {
                                assert(out@[k] == c);
                            }
                        }
                        assert(jv_seq(out@) =~= base + mv.take(i + 1));
                    }
                    i = i + 1;
                }
                proof {
                    assert(mv.take(fields@.len() as int) =~= mv);
                }
            }
            proof {
                assert(jv_seq(out@) =~= base + json_step(v@, tok@));
            }
        },
    }
}

} // verus!
