//! Applying a matching rule to an expected and an actual value. Dispatch is
//! on the expected value's kind: strings (and string-like scalars) compare
//! textually, JSON and XML values structurally. Every mismatch message is
//! pinned by the specification functions here.

use vstd::prelude::*;

verus! {

use crate::foreign::{regex_accepts, regex_compile_err, regex_is_match};
use crate::json::{JsonValue, JsonV, json_eq, json_display, json_type_name, json_text};
use crate::rules::{MatchingRule, RuleV};
use crate::strutil::{dec_seq, push_dec, push_str, str_eq, lex_le};
use crate::value::{NodeValue, NodeValV, sl_view, value_text, push_value_text};
use crate::xml::{XmlElement, XmlElemV, XmlValue, XmlValV, qualified_name};
use vstd::string::StrSliceExecFns;

/// The name a rule is referred to by in messages.
pub open spec fn rule_name(r: RuleV) -> Seq<char> {
    match r {
        RuleV::Equality => "equality"@,
        RuleV::Regex(_) => "regex"@,
        RuleV::Type => "type"@,
        RuleV::MinType(_) => "min-type"@,
        RuleV::MaxType(_) => "max-type"@,
        RuleV::MinMaxType(_, _) => "minmax-type"@,
        RuleV::Number => "number"@,
        RuleV::Integer => "integer"@,
        RuleV::Decimal => "decimal"@,
        RuleV::Boolean => "boolean"@,
        RuleV::Include(_) => "include"@,
        RuleV::NotEmpty => "not-empty"@,
        RuleV::Values => "values"@,
        RuleV::EachKey => "each-key"@,
        RuleV::EachValue => "each-value"@,
    }
}

fn push_rule_name(out: &mut Vec<char>, r: &MatchingRule)
    ensures
        final(out)@ == old(out)@ + rule_name(r@),
{
    match r {
        MatchingRule::Equality => push_str(out, "equality"),
        MatchingRule::Regex(_) => push_str(out, "regex"),
        MatchingRule::Type => push_str(out, "type"),
        MatchingRule::MinType(_) => push_str(out, "min-type"),
        MatchingRule::MaxType(_) => push_str(out, "max-type"),
        MatchingRule::MinMaxType(_, _) => push_str(out, "minmax-type"),
        MatchingRule::Number => push_str(out, "number"),
        MatchingRule::Integer => push_str(out, "integer"),
        MatchingRule::Decimal => push_str(out, "decimal"),
        MatchingRule::Boolean => push_str(out, "boolean"),
        MatchingRule::Include(_) => push_str(out, "include"),
        MatchingRule::NotEmpty => push_str(out, "not-empty"),
        MatchingRule::Values => push_str(out, "values"),
        MatchingRule::EachKey => push_str(out, "each-key"),
        MatchingRule::EachValue => push_str(out, "each-value"),
    }
}

/// Text made only of decimal digits.
pub open spec fn digits_only(s: Seq<char>) -> bool {
    s.len() > 0 && forall|i: int| 0 <= i < s.len() ==> '0' <= s[i] && s[i] <= '9'
}

/// The text of an integer: digits, with an optional leading minus.
pub open spec fn int_text(s: Seq<char>) -> bool {
    if s.len() > 0 && s[0] == '-' {
        digits_only(s.skip(1))
    } else {
        digits_only(s)
    }
}

/// The text of a decimal number: an integer part, a dot, and digits.
pub open spec fn decimal_text(s: Seq<char>) -> bool {
    exists|k: int| 0 <= k < s.len() && s[k] == '.' && int_text(s.take(k)) && digits_only(s.skip(k + 1))
}

/// The text of any number.
pub open spec fn number_text(s: Seq<char>) -> bool {
    int_text(s) || decimal_text(s)
}

/// Decides `digits_only`.
fn is_digits(s: &str, from: usize) -> (r: bool)
    requires
        from <= s@.len(),
    ensures
        r == digits_only(s@.skip(from as int)),
{
    let len = s.unicode_len();
    if from == len {
        return false;
    }
    let mut i: usize = from;
    while i < len
        invariant
            from <= i <= len,
            len == s@.len(),
            forall|j: int| from <= j < i ==> '0' <= s@[j] && s@[j] <= '9',
        decreases len - i,
    {
        let c = s.get_char(i);
        if !('0' <= c && c <= '9') {
            proof {
                assert(s@.skip(from as int)[i - from] == s@[i as int]);
            }
            return false;
        }
        i = i + 1;
    }
    proof {
        assert(forall|j: int|
            0 <= j < s@.skip(from as int).len() ==> #[trigger] s@.skip(from as int)[j] == s@[j
                + from]);
    }
    true
}

/// Decides `int_text`.
pub fn is_int_text(s: &str) -> (r: bool)
    ensures
        r == int_text(s@),
{
    let len = s.unicode_len();
    if len == 0 {
        proof {
            assert(s@.skip(0) =~= s@);
        }
        return false;
    }
    let first = s.get_char(0);
    if first == '-' {
        is_digits(s, 1)
    } else {
        let r = is_digits(s, 0);
        proof {
            assert(s@.skip(0) =~= s@);
        }
        r
    }
}

/// Decides `decimal_text`.
#[verifier::loop_isolation(false)]
pub fn is_decimal_text(s: &str) -> (r: bool)
    ensures
        r == decimal_text(s@),
{
    let len = s.unicode_len();
    let mut i: usize = 0;
    while i < len
        invariant
            i <= len,
            forall|j: int| 0 <= j < i ==> s@[j] != '.',
        decreases len - i,
    {
        let c = s.get_char(i);
        if c == '.' {
            let head = s.substring_char(0, i);
            let ok = is_int_text(head) && is_digits(s, i + 1);
            proof {
                assert(head@ =~= s@.take(i as int));
                if ok {
                    assert(s@[i as int] == '.' && int_text(s@.take(i as int)) && digits_only(
                        s@.skip(i + 1),
                    ));
                }
                if !ok && decimal_text(s@) {
                    let k = choose|k: int|
                        0 <= k < s@.len() && s@[k] == '.' && int_text(s@.take(k)) && digits_only(
                            #[trigger] s@.skip(k + 1),
                        );
                    if k < i {
                        assert(s@[k] != '.');
                    }
                    if k > i {
                        assert(s@.take(k)[i as int] == s@[i as int]);
                        if s@.take(k)[0] == '-' {
                            assert(s@[0] == '-');
                            assert(i > 0);
                            assert(s@.take(k).skip(1)[i - 1] == s@[i as int]);
                            assert(!('0' <= '.' && '.' <= '9'));
                        } else {
                            assert(!('0' <= '.' && '.' <= '9'));
                        }
                    }
                    assert(k == i);
                }
            }
            return ok;
        }
        i = i + 1;
    }
    proof {
        if decimal_text(s@) {
            let k = choose|k: int|
                0 <= k < s@.len() && s@[k] == '.' && int_text(s@.take(k)) && digits_only(
                    #[trigger] s@.skip(k + 1),
                );
            assert(false);
        }
    }
    false
}

/// Whether `needle` occurs inside `haystack`.
pub open spec fn contains_sub(h: Seq<char>, n: Seq<char>) -> bool {
    exists|i: int| 0 <= i <= h.len() - n.len() && #[trigger] h.subrange(i, i + n.len()) == n
}

/// Whether `n` occurs at position `i` of `h`.
#[verifier::loop_isolation(false)]
fn prefix_at(h: &str, i: usize, n: &str) -> (r: bool)
    requires
        i + n@.len() <= h@.len(),
    ensures
        r == (h@.subrange(i as int, i + n@.len()) == n@),
{
    let hlen = h.unicode_len();
    let nlen = n.unicode_len();
    let mut j: usize = 0;
    while j < nlen
        invariant
            0 <= j <= nlen,
            forall|m: int| 0 <= m < j ==> h@[i + m] == n@[m],
        decreases nlen - j,
    {
        if h.get_char(i + j) != n.get_char(j) {
            proof {
                assert(h@.subrange(i as int, i + n@.len())[j as int] == h@[i + j]);
            }
            return false;
        }
        j = j + 1;
    }
    proof {
        assert(h@.subrange(i as int, i + n@.len()) =~= n@);
    }
    true
}

/// Decides `contains_sub`.
#[verifier::loop_isolation(false)]
pub fn str_contains(h: &str, n: &str) -> (r: bool)
    ensures
        r == contains_sub(h@, n@),
{
    let hlen = h.unicode_len();
    let nlen = n.unicode_len();
    if nlen > hlen {
        return false;
    }
    if nlen == 0 {
        proof {
            assert(h@.subrange(0, 0 + n@.len() as int) =~= n@);
            assert(contains_sub(h@, n@));
        }
        return true;
    }
    let mut i: usize = 0;
    while i <= hlen - nlen
        invariant
            0 <= i <= hlen - nlen + 1,
            0 < nlen <= hlen,
            forall|k: int| 0 <= k < i ==> #[trigger] h@.subrange(k, k + n@.len()) != n@,
        decreases hlen + 1 - nlen - i,
    {
        if prefix_at(h, i, n) {
            return true;
        }
        i = i + 1;
    }
    false
}

/// The result of matching one coerced string against a rule.
pub open spec fn match_string_spec(expected: Seq<char>, actual: Seq<char>, rule: RuleV) -> Result<
    (),
    Seq<char>,
> {
    match rule {
        RuleV::Equality => if actual == expected {
            Ok(())
        } else {
            Err("Expected '"@ + actual + "' to be equal to '"@ + expected + "'"@)
        },
        RuleV::Regex(re) => match regex_compile_err(re) {
            Some(e) => Err("'"@ + re + "' is not a valid regular expression - "@ + e),
            None => if regex_accepts(re, actual) {
                Ok(())
            } else {
                Err("Expected '"@ + actual + "' to match '"@ + re + "'"@)
            },
        },
        RuleV::Type => Ok(()),
        RuleV::MinType(_) => Ok(()),
        RuleV::MaxType(_) => Ok(()),
        RuleV::MinMaxType(_, _) => Ok(()),
        RuleV::Number => if number_text(actual) {
            Ok(())
        } else {
            Err("Expected '"@ + actual + "' to match a number"@)
        },
        RuleV::Integer => if int_text(actual) {
            Ok(())
        } else {
            Err("Expected '"@ + actual + "' to match an integer number"@)
        },
        RuleV::Decimal => if decimal_text(actual) {
            Ok(())
        } else {
            Err("Expected '"@ + actual + "' to match a decimal number"@)
        },
        RuleV::Boolean => if actual == "true"@ || actual == "false"@ {
            Ok(())
        } else {
            Err("Expected '"@ + actual + "' to match a boolean"@)
        },
        RuleV::Include(part) => if contains_sub(actual, part) {
            Ok(())
        } else {
            Err("Expected '"@ + actual + "' to include '"@ + part + "'"@)
        },
        RuleV::NotEmpty => if actual.len() > 0 {
            Ok(())
        } else {
            Err("Expected '"@ + actual + "' to not be empty"@)
        },
        _ => Err("Unable to match '"@ + actual + "' using "@ + rule_name(rule)),
    }
}

/// Matches one coerced string against a rule.
pub fn match_string(expected: &str, actual: &str, rule: &MatchingRule) -> (r: Result<(), String>)
    ensures
        match r {
            Ok(_) => match_string_spec(expected@, actual@, rule@) is Ok,
            Err(m) => match_string_spec(expected@, actual@, rule@) matches Err(e) && e == m@,
        },
{
    let mut out: Vec<char> = Vec::new();
    match rule {
        MatchingRule::Equality => {
            if str_eq(actual, expected) {
                Ok(())
            } else {
                push_str(&mut out, "Expected '");
                push_str(&mut out, actual);
                push_str(&mut out, "' to be equal to '");
                push_str(&mut out, expected);
                push_str(&mut out, "'");
                proof {
                    assert(out@ =~= "Expected '"@ + actual@ + "' to be equal to '"@ + expected@
                        + "'"@);
                }
                Err(crate::strutil::chars_to_string(&out))
            }
        },
        MatchingRule::Regex(re) => {
            match regex_is_match(re.as_str(), actual) {
                Ok(true) => Ok(()),
                Ok(false) => {
                    push_str(&mut out, "Expected '");
                    push_str(&mut out, actual);
                    push_str(&mut out, "' to match '");
                    push_str(&mut out, re.as_str());
                    push_str(&mut out, "'");
                    proof {
                        assert(out@ =~= "Expected '"@ + actual@ + "' to match '"@ + re@ + "'"@);
                    }
                    Err(crate::strutil::chars_to_string(&out))
                },
                Err(e) => {
                    push_str(&mut out, "'");
                    push_str(&mut out, re.as_str());
                    push_str(&mut out, "' is not a valid regular expression - ");
                    push_str(&mut out, e.as_str());
                    proof {
                        assert(out@ =~= "'"@ + re@ + "' is not a valid regular expression - "@
                            + e@);
                    }
                    Err(crate::strutil::chars_to_string(&out))
                },
            }
        },
        MatchingRule::Type => Ok(()),
        MatchingRule::MinType(_) => Ok(()),
        MatchingRule::MaxType(_) => Ok(()),
        MatchingRule::MinMaxType(_, _) => Ok(()),
        MatchingRule::Number => {
            if is_int_text(actual) || is_decimal_text(actual) {
                Ok(())
            } else {
                push_str(&mut out, "Expected '");
                push_str(&mut out, actual);
                push_str(&mut out, "' to match a number");
                proof {
                    assert(out@ =~= "Expected '"@ + actual@ + "' to match a number"@);
                }
                Err(crate::strutil::chars_to_string(&out))
            }
        },
        MatchingRule::Integer => {
            if is_int_text(actual) {
                Ok(())
            } else {
                push_str(&mut out, "Expected '");
                push_str(&mut out, actual);
                push_str(&mut out, "' to match an integer number");
                proof {
                    assert(out@ =~= "Expected '"@ + actual@ + "' to match an integer number"@);
                }
                Err(crate::strutil::chars_to_string(&out))
            }
        },
        MatchingRule::Decimal => {
            if is_decimal_text(actual) {
                Ok(())
            } else {
                push_str(&mut out, "Expected '");
                push_str(&mut out, actual);
                push_str(&mut out, "' to match a decimal number");
                proof {
                    assert(out@ =~= "Expected '"@ + actual@ + "' to match a decimal number"@);
                }
                Err(crate::strutil::chars_to_string(&out))
            }
        },
        MatchingRule::Boolean => {
            if str_eq(actual, "true") || str_eq(actual, "false") {
                Ok(())
            } else {
                push_str(&mut out, "Expected '");
                push_str(&mut out, actual);
                push_str(&mut out, "' to match a boolean");
                proof {
                    assert(out@ =~= "Expected '"@ + actual@ + "' to match a boolean"@);
                }
                Err(crate::strutil::chars_to_string(&out))
            }
        },
        MatchingRule::Include(part) => {
            if str_contains(actual, part.as_str()) {
                Ok(())
            } else {
                push_str(&mut out, "Expected '");
                push_str(&mut out, actual);
                push_str(&mut out, "' to include '");
                push_str(&mut out, part.as_str());
                push_str(&mut out, "'");
                proof {
                    assert(out@ =~= "Expected '"@ + actual@ + "' to include '"@ + part@ + "'"@);
                }
                Err(crate::strutil::chars_to_string(&out))
            }
        },
        MatchingRule::NotEmpty => {
            if actual.unicode_len() > 0 {
                Ok(())
            } else {
                push_str(&mut out, "Expected '");
                push_str(&mut out, actual);
                push_str(&mut out, "' to not be empty");
                proof {
                    assert(out@ =~= "Expected '"@ + actual@ + "' to not be empty"@);
                }
                Err(crate::strutil::chars_to_string(&out))
            }
        },
        _ => {
            push_str(&mut out, "Unable to match '");
            push_str(&mut out, actual);
            push_str(&mut out, "' using ");
            push_rule_name(&mut out, rule);
            proof {
                assert(out@ =~= "Unable to match '"@ + actual@ + "' using "@ + rule_name(
                    rule@,
                ));
            }
            Err(crate::strutil::chars_to_string(&out))
        },
    }
}

/// The broad type class of a JSON value: numbers form one class.
pub open spec fn json_class(j: JsonV) -> int {
    match j {
        JsonV::Null => 0,
        JsonV::Bool(_) => 1,
        JsonV::Number(_, _) => 2,
        JsonV::Str(_) => 3,
        JsonV::Array(_) => 4,
        JsonV::Object(_) => 5,
    }
}

/// The message `Expected <actual> (<type>) <tail> <expected-part>`.
pub open spec fn json_mismatch(actual: JsonV, tail: Seq<char>) -> Seq<char> {
    "Expected "@ + json_display(actual) + " ("@ + json_type_name(actual) + ") "@ + tail
}

/// The string a JSON value is coerced to for textual rules.
pub open spec fn json_string_form(j: JsonV) -> Seq<char> {
    match j {
        JsonV::Str(s) => s,
        _ => json_text(j),
    }
}

/// The result of matching an actual JSON value against an expected one.
pub open spec fn match_json_spec(
    expected: JsonV,
    actual: JsonV,
    rule: RuleV,
    cascaded: bool,
) -> Result<(), Seq<char>> {
    match rule {
        RuleV::Equality => if actual == expected {
            Ok(())
        } else {
            Err(json_mismatch(
                actual,
                "to be equal to "@ + json_display(expected) + " ("@ + json_type_name(expected)
                    + ")"@,
            ))
        },
        RuleV::Regex(re) => match regex_compile_err(re) {
            Some(e) => Err("'"@ + re + "' is not a valid regular expression - "@ + e),
            None => if regex_accepts(re, json_string_form(actual)) {
                Ok(())
            } else {
                Err("Expected '"@ + json_string_form(actual) + "' to match '"@ + re + "'"@)
            },
        },
        RuleV::Type => if json_class(actual) == json_class(expected) {
            Ok(())
        } else {
            Err(json_mismatch(
                actual,
                "to be the same type as "@ + json_display(expected) + " ("@ + json_type_name(
                    expected,
                ) + ")"@,
            ))
        },
        RuleV::MinType(min) => match actual {
            JsonV::Array(items) => if !cascaded && items.len() < min {
                Err("Expected "@ + json_text(actual) + " (size "@ + dec_seq(items.len())
                    + ") to have "@ + "minimum"@ + " size of "@ + dec_seq(min as nat))
            } else {
                Ok(())
            },
            _ => if json_class(actual) == json_class(expected) {
                Ok(())
            } else {
                Err(json_mismatch(
                    actual,
                    "to be the same type as "@ + json_display(expected) + " ("@ + json_type_name(
                        expected,
                    ) + ")"@,
                ))
            },
        },
        RuleV::MaxType(max) => match actual {
            JsonV::Array(items) => if !cascaded && items.len() > max {
                Err("Expected "@ + json_text(actual) + " (size "@ + dec_seq(items.len())
                    + ") to have "@ + "maximum"@ + " size of "@ + dec_seq(max as nat))
            } else {
                Ok(())
            },
            _ => if json_class(actual) == json_class(expected) {
                Ok(())
            } else {
                Err(json_mismatch(
                    actual,
                    "to be the same type as "@ + json_display(expected) + " ("@ + json_type_name(
                        expected,
                    ) + ")"@,
                ))
            },
        },
        RuleV::MinMaxType(min, max) => match actual {
            JsonV::Array(items) => if !cascaded && items.len() < min {
                Err("Expected "@ + json_text(actual) + " (size "@ + dec_seq(items.len())
                    + ") to have "@ + "minimum"@ + " size of "@ + dec_seq(min as nat))
            } else if !cascaded && items.len() > max {
                Err("Expected "@ + json_text(actual) + " (size "@ + dec_seq(items.len())
                    + ") to have "@ + "maximum"@ + " size of "@ + dec_seq(max as nat))
            } else {
                Ok(())
            },
            _ => if json_class(actual) == json_class(expected) {
                Ok(())
            } else {
                Err(json_mismatch(
                    actual,
                    "to be the same type as "@ + json_display(expected) + " ("@ + json_type_name(
                        expected,
                    ) + ")"@,
                ))
            },
        },
        RuleV::Number => if actual is Number {
            Ok(())
        } else {
            Err(json_mismatch(actual, "to be a number"@))
        },
        RuleV::Integer => if actual matches JsonV::Number(_, true) {
            Ok(())
        } else {
            Err(json_mismatch(actual, "to be an integer"@))
        },
        RuleV::Decimal => if actual matches JsonV::Number(_, false) {
            Ok(())
        } else {
            Err(json_mismatch(actual, "to be a decimal number"@))
        },
        RuleV::Boolean => if actual is Bool {
            Ok(())
        } else {
            Err(json_mismatch(actual, "to be a boolean"@))
        },
        RuleV::Include(part) => if contains_sub(json_string_form(actual), part) {
            Ok(())
        } else {
            Err("Expected '"@ + json_string_form(actual) + "' to include '"@ + part + "'"@)
        },
        RuleV::NotEmpty => match actual {
            JsonV::Str(s) => if s.len() > 0 {
                Ok(())
            } else {
                Err(json_mismatch(actual, "to not be empty"@))
            },
            JsonV::Array(items) => if items.len() > 0 {
                Ok(())
            } else {
                Err(json_mismatch(actual, "to not be empty"@))
            },
            JsonV::Object(fields) => if fields.len() > 0 {
                Ok(())
            } else {
                Err(json_mismatch(actual, "to not be empty"@))
            },
            _ => Err(json_mismatch(actual, "to not be empty"@)),
        },
        _ => if actual is Object && expected is Object {
            Ok(())
        } else {
            Err(json_mismatch(actual, "to match the expected structure"@))
        },
    }
}

/// Appends `Expected <actual> (<type>) <tail>`.
fn push_json_mismatch(out: &mut Vec<char>, actual: &JsonValue)
    ensures
        final(out)@ == old(out)@ + "Expected "@ + json_display(actual@) + " ("@ + json_type_name(
            actual@,
        ) + ") "@,
{
    push_str(out, "Expected ");
    crate::json::push_json_display(out, actual);
    push_str(out, " (");
    crate::json::push_json_type_name(out, actual);
    push_str(out, ") ");
    assert(out@ =~= old(out)@ + "Expected "@ + json_display(actual@) + " ("@ + json_type_name(
        actual@,
    ) + ") "@);
}

/// Appends ` to be the same type as <expected> (<type>)` style tails.
fn push_json_expected_part(out: &mut Vec<char>, lead: &str, expected: &JsonValue)
    ensures
        final(out)@ == old(out)@ + lead@ + json_display(expected@) + " ("@ + json_type_name(
            expected@,
        ) + ")"@,
{
    push_str(out, lead);
    crate::json::push_json_display(out, expected);
    push_str(out, " (");
    crate::json::push_json_type_name(out, expected);
    push_str(out, ")");
    assert(out@ =~= old(out)@ + lead@ + json_display(expected@) + " ("@ + json_type_name(
        expected@,
    ) + ")"@);
}

/// The string a JSON value is coerced to for textual rules.
fn json_string_coerce(j: &JsonValue) -> (r: String)
    ensures
        r@ == json_string_form(j@),
{
    match j {
        JsonValue::Str(s) => s.clone(),
        _ => {
            let mut out: Vec<char> = Vec::new();
            crate::json::push_json_text(&mut out, j);
            crate::strutil::chars_to_string(&out)
        },
    }
}

/// Matches an actual JSON value against an expected one under a rule.
#[verifier::rlimit(100)]
pub fn match_json(expected: &JsonValue, actual: &JsonValue, rule: &MatchingRule, cascaded: bool) -> (r:
    Result<(), String>)
    ensures
        match r {
            Ok(_) => match_json_spec(expected@, actual@, rule@, cascaded) is Ok,
            Err(m) => match_json_spec(expected@, actual@, rule@, cascaded) matches Err(e) && e
                == m@,
        },
{
    broadcast use crate::json::lemma_jv_seq, crate::json::lemma_jv_fields;

    let mut out: Vec<char> = Vec::new();
    match rule {
        MatchingRule::Equality => {
            if json_eq(actual, expected) {
                { proof { assert(match_json_spec(expected@, actual@, rule@, cascaded) is Ok); } Ok(()) }
            } else {
                push_json_mismatch(&mut out, actual);
                push_json_expected_part(&mut out, "to be equal to ", expected);
                proof {
                    assert(out@ =~= json_mismatch(
                        actual@,
                        "to be equal to "@ + json_display(expected@) + " ("@ + json_type_name(
                            expected@,
                        ) + ")"@,
                    ));
                }
                Err(crate::strutil::chars_to_string(&out))
            }
        },
        MatchingRule::Regex(re) => {
            let coerced = json_string_coerce(actual);
            match regex_is_match(re.as_str(), coerced.as_str()) {
                Ok(true) => { proof { assert(match_json_spec(expected@, actual@, rule@, cascaded) is Ok); } Ok(()) },
                Ok(false) => {
                    push_str(&mut out, "Expected '");
                    push_str(&mut out, coerced.as_str());
                    push_str(&mut out, "' to match '");
                    push_str(&mut out, re.as_str());
                    push_str(&mut out, "'");
                    proof {
                        assert(out@ =~= "Expected '"@ + json_string_form(actual@) + "' to match '"@
                            + re@ + "'"@);
                    }
                    proof {
                        assert(match_json_spec(expected@, actual@, rule@, cascaded) matches Err(e)
                            && e == out@);
                    }
                    Err(crate::strutil::chars_to_string(&out))
                },
                Err(e) => {
                    push_str(&mut out, "'");
                    push_str(&mut out, re.as_str());
                    push_str(&mut out, "' is not a valid regular expression - ");
                    push_str(&mut out, e.as_str());
                    proof {
                        assert(out@ =~= "'"@ + re@ + "' is not a valid regular expression - "@
                            + e@);
                    }
                    proof {
                        assert(match_json_spec(expected@, actual@, rule@, cascaded) matches Err(e)
                            && e == out@);
                    }
                    Err(crate::strutil::chars_to_string(&out))
                },
            }
        },
        MatchingRule::Type => {
            if json_same_class(expected, actual) {
                { proof { assert(match_json_spec(expected@, actual@, rule@, cascaded) is Ok); } Ok(()) }
            } else {
                push_json_mismatch(&mut out, actual);
                push_json_expected_part(&mut out, "to be the same type as ", expected);
                proof {
                    assert(out@ =~= json_mismatch(
                        actual@,
                        "to be the same type as "@ + json_display(expected@) + " ("@
                            + json_type_name(expected@) + ")"@,
                    ));
                }
                Err(crate::strutil::chars_to_string(&out))
            }
        },
        MatchingRule::MinType(min) => match actual {
            JsonValue::Array(items) => {
                if !cascaded && (items.len() as u64) < *min {
                    push_size_err(&mut out, actual, items.len(), "minimum", *min);
                    proof {
                        crate::json::lemma_jv_seq(items@);
                        assert(actual@ == JsonV::Array(crate::json::jv_seq(items@)));
                        assert(out@ =~= "Expected "@ + json_text(actual@) + " (size "@ + dec_seq(
                            items@.len() as nat,
                        ) + ") to have "@ + "minimum"@ + " size of "@ + dec_seq(*min as nat));
                        assert(match_json_spec(expected@, actual@, rule@, cascaded) matches Err(e)
                            && e == out@);
                    }
                    Err(crate::strutil::chars_to_string(&out))
                } else {
                    proof {
                        crate::json::lemma_jv_seq(items@);
                        assert(crate::json::jv_seq(items@).len() == items@.len());
                        assert(actual@ == JsonV::Array(crate::json::jv_seq(items@)));
                        assert(match_json_spec(expected@, actual@, rule@, cascaded) is Ok);
                    }
                    Ok(())
                }
            },
            _ => {
                if json_same_class(expected, actual) {
                    { proof { assert(match_json_spec(expected@, actual@, rule@, cascaded) is Ok); } Ok(()) }
                } else {
                    push_json_mismatch(&mut out, actual);
                    push_json_expected_part(&mut out, "to be the same type as ", expected);
                    proof {
                        assert(out@ =~= json_mismatch(
                            actual@,
                            "to be the same type as "@ + json_display(expected@) + " ("@
                                + json_type_name(expected@) + ")"@,
                        ));
                    }
                    proof {
                        assert(match_json_spec(expected@, actual@, rule@, cascaded) matches Err(e)
                            && e == out@);
                    }
                    Err(crate::strutil::chars_to_string(&out))
                }
            },
        },
        MatchingRule::MaxType(max) => match actual {
            JsonValue::Array(items) => {
                if !cascaded && (items.len() as u64) > *max {
                    push_size_err(&mut out, actual, items.len(), "maximum", *max);
                    proof {
                        crate::json::lemma_jv_seq(items@);
                        assert(actual@ == JsonV::Array(crate::json::jv_seq(items@)));
                        assert(out@ =~= "Expected "@ + json_text(actual@) + " (size "@ + dec_seq(
                            items@.len() as nat,
                        ) + ") to have "@ + "maximum"@ + " size of "@ + dec_seq(*max as nat));
                        assert(match_json_spec(expected@, actual@, rule@, cascaded) matches Err(e)
                            && e == out@);
                    }
                    Err(crate::strutil::chars_to_string(&out))
                } else {
                    proof {
                        crate::json::lemma_jv_seq(items@);
                        assert(crate::json::jv_seq(items@).len() == items@.len());
                        assert(actual@ == JsonV::Array(crate::json::jv_seq(items@)));
                        assert(match_json_spec(expected@, actual@, rule@, cascaded) is Ok);
                    }
                    Ok(())
                }
            },
            _ => {
                if json_same_class(expected, actual) {
                    { proof { assert(match_json_spec(expected@, actual@, rule@, cascaded) is Ok); } Ok(()) }
                } else {
                    push_json_mismatch(&mut out, actual);
                    push_json_expected_part(&mut out, "to be the same type as ", expected);
                    proof {
                        assert(out@ =~= json_mismatch(
                            actual@,
                            "to be the same type as "@ + json_display(expected@) + " ("@
                                + json_type_name(expected@) + ")"@,
                        ));
                    }
                    proof {
                        assert(match_json_spec(expected@, actual@, rule@, cascaded) matches Err(e)
                            && e == out@);
                    }
                    Err(crate::strutil::chars_to_string(&out))
                }
            },
        },
        MatchingRule::MinMaxType(min, max) => match actual {
            JsonValue::Array(items) => {
                if !cascaded && (items.len() as u64) < *min {
                    push_size_err(&mut out, actual, items.len(), "minimum", *min);
                    proof {
                        crate::json::lemma_jv_seq(items@);
                        assert(actual@ == JsonV::Array(crate::json::jv_seq(items@)));
                        assert(out@ =~= "Expected "@ + json_text(actual@) + " (size "@ + dec_seq(
                            items@.len() as nat,
                        ) + ") to have "@ + "minimum"@ + " size of "@ + dec_seq(*min as nat));
                        assert(match_json_spec(expected@, actual@, rule@, cascaded) matches Err(e)
                            && e == out@);
                    }
                    Err(crate::strutil::chars_to_string(&out))
                } else if !cascaded && (items.len() as u64) > *max {
                    push_size_err(&mut out, actual, items.len(), "maximum", *max);
                    proof {
                        crate::json::lemma_jv_seq(items@);
                        assert(actual@ == JsonV::Array(crate::json::jv_seq(items@)));
                        assert(out@ =~= "Expected "@ + json_text(actual@) + " (size "@ + dec_seq(
                            items@.len() as nat,
                        ) + ") to have "@ + "maximum"@ + " size of "@ + dec_seq(*max as nat));
                        assert(match_json_spec(expected@, actual@, rule@, cascaded) matches Err(e)
                            && e == out@);
                    }
                    Err(crate::strutil::chars_to_string(&out))
                } else {
                    proof {
                        crate::json::lemma_jv_seq(items@);
                        assert(crate::json::jv_seq(items@).len() == items@.len());
                        assert(actual@ == JsonV::Array(crate::json::jv_seq(items@)));
                        assert(match_json_spec(expected@, actual@, rule@, cascaded) is Ok);
                    }
                    Ok(())
                }
            },
            _ => {
                if json_same_class(expected, actual) {
                    { proof { assert(match_json_spec(expected@, actual@, rule@, cascaded) is Ok); } Ok(()) }
                } else {
                    push_json_mismatch(&mut out, actual);
                    push_json_expected_part(&mut out, "to be the same type as ", expected);
                    proof {
                        assert(out@ =~= json_mismatch(
                            actual@,
                            "to be the same type as "@ + json_display(expected@) + " ("@
                                + json_type_name(expected@) + ")"@,
                        ));
                    }
                    proof {
                        assert(match_json_spec(expected@, actual@, rule@, cascaded) matches Err(e)
                            && e == out@);
                    }
                    Err(crate::strutil::chars_to_string(&out))
                }
            },
        },
        MatchingRule::Number => {
            if matches!(actual, JsonValue::Number { .. }) {
                { proof { assert(match_json_spec(expected@, actual@, rule@, cascaded) is Ok); } Ok(()) }
            } else {
                push_json_mismatch(&mut out, actual);
                push_str(&mut out, "to be a number");
                proof {
                    assert(out@ =~= json_mismatch(actual@, "to be a number"@));
                }
                Err(crate::strutil::chars_to_string(&out))
            }
        },
        MatchingRule::Integer => {
            let ok = match actual {
                JsonValue::Number { text: _, integer } => *integer,
                _ => false,
            };
            if ok {
                { proof { assert(match_json_spec(expected@, actual@, rule@, cascaded) is Ok); } Ok(()) }
            } else {
                push_json_mismatch(&mut out, actual);
                push_str(&mut out, "to be an integer");
                proof {
                    assert(out@ =~= json_mismatch(actual@, "to be an integer"@));
                }
                Err(crate::strutil::chars_to_string(&out))
            }
        },
        MatchingRule::Decimal => {
            let ok = match actual {
                JsonValue::Number { text: _, integer } => !*integer,
                _ => false,
            };
            if ok {
                { proof { assert(match_json_spec(expected@, actual@, rule@, cascaded) is Ok); } Ok(()) }
            } else {
                push_json_mismatch(&mut out, actual);
                push_str(&mut out, "to be a decimal number");
                proof {
                    assert(out@ =~= json_mismatch(actual@, "to be a decimal number"@));
                }
                Err(crate::strutil::chars_to_string(&out))
            }
        },
        MatchingRule::Boolean => {
            if matches!(actual, JsonValue::Bool(_)) {
                { proof { assert(match_json_spec(expected@, actual@, rule@, cascaded) is Ok); } Ok(()) }
            } else {
                push_json_mismatch(&mut out, actual);
                push_str(&mut out, "to be a boolean");
                proof {
                    assert(out@ =~= json_mismatch(actual@, "to be a boolean"@));
                }
                Err(crate::strutil::chars_to_string(&out))
            }
        },
        MatchingRule::Include(part) => {
            let coerced = json_string_coerce(actual);
            if str_contains(coerced.as_str(), part.as_str()) {
                { proof { assert(match_json_spec(expected@, actual@, rule@, cascaded) is Ok); } Ok(()) }
            } else {
                push_str(&mut out, "Expected '");
                push_str(&mut out, coerced.as_str());
                push_str(&mut out, "' to include '");
                push_str(&mut out, part.as_str());
                push_str(&mut out, "'");
                proof {
                    assert(out@ =~= "Expected '"@ + json_string_form(actual@) + "' to include '"@
                        + part@ + "'"@);
                }
                Err(crate::strutil::chars_to_string(&out))
            }
        },
        MatchingRule::NotEmpty => {
            let ok = match actual {
                JsonValue::Str(s) => s.as_str().unicode_len() > 0,
                JsonValue::Array(items) => items.len() > 0,
                JsonValue::Object(fields) => fields.len() > 0,
                _ => false,
            };
            if ok {
                { proof { assert(match_json_spec(expected@, actual@, rule@, cascaded) is Ok); } Ok(()) }
            } else {
                push_json_mismatch(&mut out, actual);
                push_str(&mut out, "to not be empty");
                proof {
                    assert(out@ =~= json_mismatch(actual@, "to not be empty"@));
                }
                Err(crate::strutil::chars_to_string(&out))
            }
        },
        _ => {
            let ok = matches!(actual, JsonValue::Object(_)) && matches!(
                expected,
                JsonValue::Object(_),
            );
            if ok {
                { proof { assert(match_json_spec(expected@, actual@, rule@, cascaded) is Ok); } Ok(()) }
            } else {
                push_json_mismatch(&mut out, actual);
                push_str(&mut out, "to match the expected structure");
                proof {
                    assert(out@ =~= json_mismatch(actual@, "to match the expected structure"@));
                }
                Err(crate::strutil::chars_to_string(&out))
            }
        },
    }
}

/// Whether two JSON values share a broad type class.
fn json_same_class(a: &JsonValue, b: &JsonValue) -> (r: bool)
    ensures
        r == (json_class(a@) == json_class(b@)),
{
    match (a, b) {
        (JsonValue::Null, JsonValue::Null) => true,
        (JsonValue::Bool(_), JsonValue::Bool(_)) => true,
        (JsonValue::Number { .. }, JsonValue::Number { .. }) => true,
        (JsonValue::Str(_), JsonValue::Str(_)) => true,
        (JsonValue::Array(_), JsonValue::Array(_)) => true,
        (JsonValue::Object(_), JsonValue::Object(_)) => true,
        _ => false,
    }
}

/// Appends `Expected <json> (size <n>) to have <bound> size of <m>`.
fn push_size_err(out: &mut Vec<char>, actual: &JsonValue, n: usize, bound: &str, m: u64)
    ensures
        final(out)@ == old(out)@ + "Expected "@ + json_text(actual@) + " (size "@ + dec_seq(
            n as nat,
        ) + ") to have "@ + bound@ + " size of "@ + dec_seq(m as nat),
{
    push_str(out, "Expected ");
    crate::json::push_json_text(out, actual);
    push_str(out, " (size ");
    push_dec(out, n as u64);
    push_str(out, ") to have ");
    push_str(out, bound);
    push_str(out, " size of ");
    push_dec(out, m);
    assert(out@ =~= old(out)@ + "Expected "@ + json_text(actual@) + " (size "@ + dec_seq(n as nat)
        + ") to have "@ + bound@ + " size of "@ + dec_seq(m as nat));
}


/// The result of matching one XML value against an expected one.
pub open spec fn match_xml_spec(
    expected: XmlValV,
    actual: XmlValV,
    rule: RuleV,
    cascaded: bool,
) -> Result<(), Seq<char>> {
    match expected {
        XmlValV::Element(ee) => match actual {
            XmlValV::Element(ae) => match_element_spec(ee, ae, rule, cascaded),
            _ => Err("Was expecting an XML element but got "@ + value_text(NodeValV::Xml(actual))),
        },
        XmlValV::Text(et) => match actual {
            XmlValV::Text(t) => match_string_spec(et, t, rule),
            _ => Err("Was expecting XML text but got "@ + value_text(NodeValV::Xml(actual))),
        },
        XmlValV::Attribute(_, ev) => match actual {
            XmlValV::Attribute(_, av) => match_string_spec(ev, av, rule),
            _ => Err(
                "Was expecting an XML attribute but got "@ + value_text(NodeValV::Xml(actual)),
            ),
        },
    }
}

/// The result of matching one XML element against an expected one. A regex
/// rule is applied to the actual element's name with the same whole-text
/// acceptance as every other regex in this engine; a `not-empty` rule passes
/// exactly when the element has at least one child.
pub open spec fn match_element_spec(
    expected: XmlElemV,
    actual: XmlElemV,
    rule: RuleV,
    cascaded: bool,
) -> Result<(), Seq<char>> {
    match rule {
        RuleV::Regex(re) => match regex_compile_err(re) {
            Some(e) => Err("'"@ + re + "' is not a valid regular expression - "@ + e),
            None => if regex_accepts(re, actual.name) {
                Ok(())
            } else {
                Err("Expected '"@ + actual.name + "' to match '"@ + re + "'"@)
            },
        },
        RuleV::Type => if expected.name == actual.name {
            Ok(())
        } else {
            Err("Expected '"@ + expected.name + "' to be the same type as '"@ + actual.name
                + "'"@)
        },
        RuleV::MinType(min) => if !cascaded && actual.children.len() < min {
            Err("Expected '"@ + actual.name + "' to have at least "@ + dec_seq(min as nat)
                + " children"@)
        } else {
            Ok(())
        },
        RuleV::MaxType(max) => if !cascaded && actual.children.len() > max {
            Err("Expected '"@ + actual.name + "' to have at most "@ + dec_seq(max as nat)
                + " children"@)
        } else {
            Ok(())
        },
        RuleV::MinMaxType(min, max) => if !cascaded && actual.children.len() < min {
            Err("Expected '"@ + actual.name + "' to have at least "@ + dec_seq(min as nat)
                + " children"@)
        } else if !cascaded && actual.children.len() > max {
            Err("Expected '"@ + actual.name + "' to have at most "@ + dec_seq(max as nat)
                + " children"@)
        } else {
            Ok(())
        },
        RuleV::Equality => if expected.name == actual.name {
            Ok(())
        } else {
            Err("Expected '"@ + expected.name + "' to be equal to '"@ + actual.name + "'"@)
        },
        RuleV::NotEmpty => if actual.children.len() > 0 {
            Ok(())
        } else {
            Err("Expected '"@ + actual.name + "' to have at least one child"@)
        },
        _ => Err("Unable to match element '"@ + expected.name + "' using "@ + rule_name(rule)),
    }
}

/// Matches one XML element against an expected one.
pub fn match_element(
    expected: &XmlElement,
    actual: &XmlElement,
    rule: &MatchingRule,
    cascaded: bool,
) -> (r: Result<(), String>)
    ensures
        match r {
            Ok(_) => match_element_spec(expected@, actual@, rule@, cascaded) is Ok,
            Err(m) => match_element_spec(expected@, actual@, rule@, cascaded) matches Err(e) && e
                == m@,
        },
{
    proof {
        crate::xml::lemma_xn_seq(actual.children@);
        assert(actual@.children == crate::xml::xn_seq(actual.children@));
        assert(actual@.children.len() == actual.children@.len());
    }
    let mut out: Vec<char> = Vec::new();
    match rule {
        MatchingRule::Regex(re) => {
            match regex_is_match(re.as_str(), actual.name.as_str()) {
                Ok(true) => Ok(()),
                Ok(false) => {
                    push_str(&mut out, "Expected '");
                    push_str(&mut out, actual.name.as_str());
                    push_str(&mut out, "' to match '");
                    push_str(&mut out, re.as_str());
                    push_str(&mut out, "'");
                    proof {
                        assert(out@ =~= "Expected '"@ + actual@.name + "' to match '"@ + re@
                            + "'"@);
                    }
                    Err(crate::strutil::chars_to_string(&out))
                },
                Err(e) => {
                    push_str(&mut out, "'");
                    push_str(&mut out, re.as_str());
                    push_str(&mut out, "' is not a valid regular expression - ");
                    push_str(&mut out, e.as_str());
                    proof {
                        assert(out@ =~= "'"@ + re@ + "' is not a valid regular expression - "@
                            + e@);
                    }
                    Err(crate::strutil::chars_to_string(&out))
                },
            }
        },
        MatchingRule::Type => {
            if str_eq(expected.name.as_str(), actual.name.as_str()) {
                Ok(())
            } else {
                push_str(&mut out, "Expected '");
                push_str(&mut out, expected.name.as_str());
                push_str(&mut out, "' to be the same type as '");
                push_str(&mut out, actual.name.as_str());
                push_str(&mut out, "'");
                proof {
                    assert(out@ =~= "Expected '"@ + expected@.name + "' to be the same type as '"@
                        + actual@.name + "'"@);
                }
                Err(crate::strutil::chars_to_string(&out))
            }
        },
        MatchingRule::MinType(min) => {
            if !cascaded && (actual.children.len() as u64) < *min {
                push_str(&mut out, "Expected '");
                push_str(&mut out, actual.name.as_str());
                push_str(&mut out, "' to have at least ");
                push_dec(&mut out, *min);
                push_str(&mut out, " children");
                proof {
                    assert(out@ =~= "Expected '"@ + actual@.name + "' to have at least "@
                        + dec_seq(*min as nat) + " children"@);
                }
                Err(crate::strutil::chars_to_string(&out))
            } else {
                Ok(())
            }
        },
        MatchingRule::MaxType(max) => {
            if !cascaded && (actual.children.len() as u64) > *max {
                push_str(&mut out, "Expected '");
                push_str(&mut out, actual.name.as_str());
                push_str(&mut out, "' to have at most ");
                push_dec(&mut out, *max);
                push_str(&mut out, " children");
                proof {
                    assert(out@ =~= "Expected '"@ + actual@.name + "' to have at most "@
                        + dec_seq(*max as nat) + " children"@);
                }
                Err(crate::strutil::chars_to_string(&out))
            } else {
                Ok(())
            }
        },
        MatchingRule::MinMaxType(min, max) => {
            if !cascaded && (actual.children.len() as u64) < *min {
                push_str(&mut out, "Expected '");
                push_str(&mut out, actual.name.as_str());
                push_str(&mut out, "' to have at least ");
                push_dec(&mut out, *min);
                push_str(&mut out, " children");
                proof {
                    assert(out@ =~= "Expected '"@ + actual@.name + "' to have at least "@
                        + dec_seq(*min as nat) + " children"@);
                }
                Err(crate::strutil::chars_to_string(&out))
            } else if !cascaded && (actual.children.len() as u64) > *max {
                push_str(&mut out, "Expected '");
                push_str(&mut out, actual.name.as_str());
                push_str(&mut out, "' to have at most ");
                push_dec(&mut out, *max);
                push_str(&mut out, " children");
                proof {
                    assert(out@ =~= "Expected '"@ + actual@.name + "' to have at most "@
                        + dec_seq(*max as nat) + " children"@);
                }
                Err(crate::strutil::chars_to_string(&out))
            } else {
                Ok(())
            }
        },
        MatchingRule::Equality => {
            if str_eq(expected.name.as_str(), actual.name.as_str()) {
                Ok(())
            } else {
                push_str(&mut out, "Expected '");
                push_str(&mut out, expected.name.as_str());
                push_str(&mut out, "' to be equal to '");
                push_str(&mut out, actual.name.as_str());
                push_str(&mut out, "'");
                proof {
                    assert(out@ =~= "Expected '"@ + expected@.name + "' to be equal to '"@
                        + actual@.name + "'"@);
                }
                Err(crate::strutil::chars_to_string(&out))
            }
        },
        MatchingRule::NotEmpty => {
            if actual.children.len() > 0 {
                Ok(())
            } else {
                push_str(&mut out, "Expected '");
                push_str(&mut out, actual.name.as_str());
                push_str(&mut out, "' to have at least one child");
                proof {
                    assert(out@ =~= "Expected '"@ + actual@.name + "' to have at least one child"@);
                }
                Err(crate::strutil::chars_to_string(&out))
            }
        },
        _ => {
            push_str(&mut out, "Unable to match element '");
            push_str(&mut out, expected.name.as_str());
            push_str(&mut out, "' using ");
            push_rule_name(&mut out, rule);
            proof {
                assert(out@ =~= "Unable to match element '"@ + expected@.name + "' using "@
                    + rule_name(rule@));
            }
            Err(crate::strutil::chars_to_string(&out))
        },
    }
}

/// Matches one XML value against an expected one.
pub fn match_xml(expected: &XmlValue, actual: &XmlValue, rule: &MatchingRule, cascaded: bool) -> (r:
    Result<(), String>)
    ensures
        match r {
            Ok(_) => match_xml_spec(expected@, actual@, rule@, cascaded) is Ok,
            Err(m) => match_xml_spec(expected@, actual@, rule@, cascaded) matches Err(e) && e
                == m@,
        },
{
    let mut out: Vec<char> = Vec::new();
    match (expected, actual) {
        (XmlValue::Element(ee), XmlValue::Element(ae)) => match_element(ee, ae, rule, cascaded),
        (XmlValue::Element(_), _) => {
            push_str(&mut out, "Was expecting an XML element but got ");
            push_value_text(&mut out, &NodeValue::XML(actual.clone()));
            proof {
                assert(out@ =~= "Was expecting an XML element but got "@ + value_text(
                    NodeValV::Xml(actual@),
                ));
            }
            Err(crate::strutil::chars_to_string(&out))
        },
        (XmlValue::Text(et), XmlValue::Text(t)) => match_string(et.as_str(), t.as_str(), rule),
        (XmlValue::Text(_), _) => {
            push_str(&mut out, "Was expecting XML text but got ");
            push_value_text(&mut out, &NodeValue::XML(actual.clone()));
            proof {
                assert(out@ =~= "Was expecting XML text but got "@ + value_text(
                    NodeValV::Xml(actual@),
                ));
            }
            Err(crate::strutil::chars_to_string(&out))
        },
        (XmlValue::Attribute(_, ev), XmlValue::Attribute(_, av)) => match_string(
            ev.as_str(),
            av.as_str(),
            rule,
        ),
        (XmlValue::Attribute(_, _), _) => {
            push_str(&mut out, "Was expecting an XML attribute but got ");
            push_value_text(&mut out, &NodeValue::XML(actual.clone()));
            proof {
                assert(out@ =~= "Was expecting an XML attribute but got "@ + value_text(
                    NodeValV::Xml(actual@),
                ));
            }
            Err(crate::strutil::chars_to_string(&out))
        },
    }
}

/// The JSON-array rendering of a string list, used in list mismatches.
pub open spec fn slist_json(l: Seq<Seq<char>>) -> Seq<char>
    decreases l,
{
    "["@ + slist_json_body(l) + "]"@
}

pub open spec fn slist_json_body(l: Seq<Seq<char>>) -> Seq<char>
    decreases l,
{
    if l.len() == 0 {
        Seq::empty()
    } else if l.len() == 1 {
        "\""@ + crate::json::json_escape(l.last()) + "\""@
    } else {
        slist_json_body(l.drop_last()) + ","@ + "\""@ + crate::json::json_escape(l.last())
            + "\""@
    }
}

/// Appends the JSON-array rendering of a string list.
#[verifier::loop_isolation(false)]
fn push_slist_json(out: &mut Vec<char>, l: &Vec<String>)
    ensures
        final(out)@ == old(out)@ + slist_json(sl_view(l@)),
{
    push_str(out, "[");
    let ghost lv = sl_view(l@);
    let mut i: usize = 0;
    proof {
        assert(slist_json_body(lv.take(0)) =~= Seq::<char>::empty());
        assert(out@ =~= old(out)@ + "["@ + slist_json_body(lv.take(0)));
    }
    while i < l.len()
        invariant
            i <= l.len(),
            out@ == old(out)@ + "["@ + slist_json_body(lv.take(i as int)),
        decreases l.len() - i,
    {
        if i > 0 {
            push_str(out, ",");
        }
        push_str(out, "\"");
        crate::json::push_json_escaped(out, l[i].as_str());
        push_str(out, "\"");
        proof {
            assert(lv.take(i + 1).drop_last() =~= lv.take(i as int));
            assert(lv.take(i + 1).last() == lv[i as int]);
            assert(out@ =~= old(out)@ + "["@ + slist_json_body(lv.take(i + 1)));
        }
        i = i + 1;
    }
    push_str(out, "]");
    proof {
        assert(lv.take(l@.len() as int) =~= lv);
        assert(out@ =~= old(out)@ + slist_json(lv));
    }
}

/// Whether two string lists are equal.
fn slist_eq(a: &Vec<String>, b: &Vec<String>) -> (r: bool)
    ensures
        r == (sl_view(a@) == sl_view(b@)),
{
    if a.len() != b.len() {
        proof {
            assert(sl_view(a@).len() != sl_view(b@).len());
        }
        return false;
    }
    let mut i: usize = 0;
    while i < a.len()
        invariant
            i <= a.len(),
            a@.len() == b@.len(),
            forall|j: int| 0 <= j < i ==> a@[j]@ == b@[j]@,
        decreases a.len() - i,
    {
        if !str_eq(a[i].as_str(), b[i].as_str()) {
            proof {
                assert(sl_view(a@)[i as int] != sl_view(b@)[i as int]);
            }
            return false;
        }
        i = i + 1;
    }
    proof {
        assert(sl_view(a@) =~= sl_view(b@));
    }
    true
}

/// The result of matching a string list against an expected one.
pub open spec fn match_slist_spec(
    expected: Seq<Seq<char>>,
    actual: Seq<Seq<char>>,
    rule: RuleV,
    cascaded: bool,
) -> Result<(), Seq<char>> {
    match rule {
        RuleV::Equality => if actual == expected {
            Ok(())
        } else {
            Err("Expected "@ + slist_json(actual) + " to be equal to "@ + slist_json(expected))
        },
        RuleV::Type => Ok(()),
        RuleV::MinType(min) => if !cascaded && actual.len() < min {
            Err("Expected "@ + slist_json(actual) + " (size "@ + dec_seq(actual.len())
                + ") to have "@ + "minimum"@ + " size of "@ + dec_seq(min as nat))
        } else {
            Ok(())
        },
        RuleV::MaxType(max) => if !cascaded && actual.len() > max {
            Err("Expected "@ + slist_json(actual) + " (size "@ + dec_seq(actual.len())
                + ") to have "@ + "maximum"@ + " size of "@ + dec_seq(max as nat))
        } else {
            Ok(())
        },
        RuleV::MinMaxType(min, max) => if !cascaded && actual.len() < min {
            Err("Expected "@ + slist_json(actual) + " (size "@ + dec_seq(actual.len())
                + ") to have "@ + "minimum"@ + " size of "@ + dec_seq(min as nat))
        } else if !cascaded && actual.len() > max {
            Err("Expected "@ + slist_json(actual) + " (size "@ + dec_seq(actual.len())
                + ") to have "@ + "maximum"@ + " size of "@ + dec_seq(max as nat))
        } else {
            Ok(())
        },
        RuleV::NotEmpty => if actual.len() > 0 {
            Ok(())
        } else {
            Err("Expected "@ + slist_json(actual) + " to not be empty"@)
        },
        _ => Err("Unable to match "@ + slist_json(actual) + " using "@ + rule_name(rule)),
    }
}

/// Matches a string list against an expected one.
pub fn match_slist(
    expected: &Vec<String>,
    actual: &Vec<String>,
    rule: &MatchingRule,
    cascaded: bool,
) -> (r: Result<(), String>)
    ensures
        match r {
            Ok(_) => match_slist_spec(sl_view(expected@), sl_view(actual@), rule@, cascaded)
                is Ok,
            Err(m) => match_slist_spec(sl_view(expected@), sl_view(actual@), rule@, cascaded)
                matches Err(e) && e == m@,
        },
{
    let mut out: Vec<char> = Vec::new();
    match rule {
        MatchingRule::Equality => {
            if slist_eq(actual, expected) {
                Ok(())
            } else {
                push_str(&mut out, "Expected ");
                push_slist_json(&mut out, actual);
                push_str(&mut out, " to be equal to ");
                push_slist_json(&mut out, expected);
                proof {
                    assert(out@ =~= "Expected "@ + slist_json(sl_view(actual@))
                        + " to be equal to "@ + slist_json(sl_view(expected@)));
                }
                Err(crate::strutil::chars_to_string(&out))
            }
        },
        MatchingRule::Type => Ok(()),
        MatchingRule::MinType(min) => {
            if !cascaded && (actual.len() as u64) < *min {
                push_str(&mut out, "Expected ");
                push_slist_json(&mut out, actual);
                push_str(&mut out, " (size ");
                push_dec(&mut out, actual.len() as u64);
                push_str(&mut out, ") to have ");
                push_str(&mut out, "minimum");
                push_str(&mut out, " size of ");
                push_dec(&mut out, *min);
                proof {
                    assert(out@ =~= "Expected "@ + slist_json(sl_view(actual@)) + " (size "@
                        + dec_seq(actual@.len() as nat) + ") to have "@ + "minimum"@
                        + " size of "@ + dec_seq(*min as nat));
                }
                Err(crate::strutil::chars_to_string(&out))
            } else {
                Ok(())
            }
        },
        MatchingRule::MaxType(max) => {
            if !cascaded && (actual.len() as u64) > *max {
                push_str(&mut out, "Expected ");
                push_slist_json(&mut out, actual);
                push_str(&mut out, " (size ");
                push_dec(&mut out, actual.len() as u64);
                push_str(&mut out, ") to have ");
                push_str(&mut out, "maximum");
                push_str(&mut out, " size of ");
                push_dec(&mut out, *max);
                proof {
                    assert(out@ =~= "Expected "@ + slist_json(sl_view(actual@)) + " (size "@
                        + dec_seq(actual@.len() as nat) + ") to have "@ + "maximum"@
                        + " size of "@ + dec_seq(*max as nat));
                }
                Err(crate::strutil::chars_to_string(&out))
            } else {
                Ok(())
            }
        },
        MatchingRule::MinMaxType(min, max) => {
            if !cascaded && (actual.len() as u64) < *min {
                push_str(&mut out, "Expected ");
                push_slist_json(&mut out, actual);
                push_str(&mut out, " (size ");
                push_dec(&mut out, actual.len() as u64);
                push_str(&mut out, ") to have ");
                push_str(&mut out, "minimum");
                push_str(&mut out, " size of ");
                push_dec(&mut out, *min);
                proof {
                    assert(out@ =~= "Expected "@ + slist_json(sl_view(actual@)) + " (size "@
                        + dec_seq(actual@.len() as nat) + ") to have "@ + "minimum"@
                        + " size of "@ + dec_seq(*min as nat));
                }
                Err(crate::strutil::chars_to_string(&out))
            } else if !cascaded && (actual.len() as u64) > *max {
                push_str(&mut out, "Expected ");
                push_slist_json(&mut out, actual);
                push_str(&mut out, " (size ");
                push_dec(&mut out, actual.len() as u64);
                push_str(&mut out, ") to have ");
                push_str(&mut out, "maximum");
                push_str(&mut out, " size of ");
                push_dec(&mut out, *max);
                proof {
                    assert(out@ =~= "Expected "@ + slist_json(sl_view(actual@)) + " (size "@
                        + dec_seq(actual@.len() as nat) + ") to have "@ + "maximum"@
                        + " size of "@ + dec_seq(*max as nat));
                }
                Err(crate::strutil::chars_to_string(&out))
            } else {
                Ok(())
            }
        },
        MatchingRule::NotEmpty => {
            if actual.len() > 0 {
                Ok(())
            } else {
                push_str(&mut out, "Expected ");
                push_slist_json(&mut out, actual);
                push_str(&mut out, " to not be empty");
                proof {
                    assert(out@ =~= "Expected "@ + slist_json(sl_view(actual@))
                        + " to not be empty"@);
                }
                Err(crate::strutil::chars_to_string(&out))
            }
        },
        _ => {
            push_str(&mut out, "Unable to match ");
            push_slist_json(&mut out, actual);
            push_str(&mut out, " using ");
            push_rule_name(&mut out, rule);
            proof {
                assert(out@ =~= "Unable to match "@ + slist_json(sl_view(actual@)) + " using "@
                    + rule_name(rule@));
            }
            Err(crate::strutil::chars_to_string(&out))
        },
    }
}

/// The string a scalar runtime value is coerced to for textual rules, when
/// it has one.
pub open spec fn scalar_text(v: NodeValV) -> Option<Seq<char>> {
    match v {
        NodeValV::Str(s) => Some(s),
        NodeValV::UInt(u) => Some(dec_seq(u as nat)),
        NodeValV::Bool(b) => Some(if b { "true"@ } else { "false"@ }),
        _ => None,
    }
}

/// The result of matching one runtime value against an expected one,
/// dispatched on the expected value's kind.
pub open spec fn match_node_spec(
    expected: NodeValV,
    actual: NodeValV,
    rule: RuleV,
    cascaded: bool,
) -> Result<(), Seq<char>> {
    match expected {
        NodeValV::Json(ej) => match actual {
            NodeValV::Json(aj) => match_json_spec(ej, aj, rule, cascaded),
            NodeValV::Null => match_json_spec(ej, JsonV::Null, rule, cascaded),
            NodeValV::Str(s) => match_json_spec(ej, JsonV::Str(s), rule, cascaded),
            _ => Err(
                "Unable to match "@ + value_text(actual) + " using "@ + rule_name(rule),
            ),
        },
        NodeValV::Xml(ex) => match actual {
            NodeValV::Xml(ax) => match_xml_spec(ex, ax, rule, cascaded),
            _ => Err(
                "Unable to match "@ + value_text(actual) + " using "@ + rule_name(rule),
            ),
        },
        NodeValV::SList(el) => match actual {
            NodeValV::SList(al) => match_slist_spec(el, al, rule, cascaded),
            NodeValV::Str(s) => match_slist_spec(el, seq![s], rule, cascaded),
            _ => Err(
                "Unable to match "@ + value_text(actual) + " using "@ + rule_name(rule),
            ),
        },
        NodeValV::Str(es) => match actual {
            NodeValV::SList(al) => match_each_spec(es, al, rule, al.len() as int),
            _ => match scalar_text(actual) {
                Some(a) => match_string_spec(es, a, rule),
                None => Err(
                    "Unable to match "@ + value_text(actual) + " using "@ + rule_name(rule),
                ),
            },
        },
        _ => match scalar_text(expected) {
            Some(es) => match scalar_text(actual) {
                Some(a) => match_string_spec(es, a, rule),
                None => Err(
                    "Unable to match "@ + value_text(actual) + " using "@ + rule_name(rule),
                ),
            },
            None => Err(
                "Unable to match "@ + value_text(actual) + " using "@ + rule_name(rule),
            ),
        },
    }
}

/// Matching each member of a multi-valued actual against one expected
/// string: the first failure is reported.
pub open spec fn match_each_spec(
    expected: Seq<char>,
    actual: Seq<Seq<char>>,
    rule: RuleV,
    k: int,
) -> Result<(), Seq<char>>
    decreases k,
{
    if k <= 0 || k > actual.len() {
        Ok(())
    } else {
        match match_each_spec(expected, actual, rule, k - 1) {
            Ok(_) => match_string_spec(expected, actual[k - 1], rule),
            Err(e) => Err(e),
        }
    }
}

/// Matches one runtime value against an expected one under a rule.
#[verifier::loop_isolation(false)]
pub fn match_node_values(
    expected: &NodeValue,
    actual: &NodeValue,
    rule: &MatchingRule,
    cascaded: bool,
) -> (r: Result<(), String>)
    ensures
        match r {
            Ok(_) => match_node_spec(expected@, actual@, rule@, cascaded) is Ok,
            Err(m) => match_node_spec(expected@, actual@, rule@, cascaded) matches Err(e) && e
                == m@,
        },
{
    match (expected, actual) {
        (NodeValue::JSON(ej), NodeValue::JSON(aj)) => { let rr = match_json(ej, aj, rule, cascaded); proof {
    if rr is Ok {
        assert(match_node_spec(expected@, actual@, rule@, cascaded) is Ok);
    } else {
        assert(match_node_spec(expected@, actual@, rule@, cascaded) matches Err(e) && e == rr->Err_0@);
    }
} rr },
        (NodeValue::JSON(ej), NodeValue::NULL) => { let rr = match_json(ej, &JsonValue::Null, rule, cascaded); proof {
    if rr is Ok {
        assert(match_node_spec(expected@, actual@, rule@, cascaded) is Ok);
    } else {
        assert(match_node_spec(expected@, actual@, rule@, cascaded) matches Err(e) && e == rr->Err_0@);
    }
} rr },
        (NodeValue::JSON(ej), NodeValue::STRING(s)) => {
            let coerced = JsonValue::Str(s.clone());
            { let rr = match_json(ej, &coerced, rule, cascaded); proof {
    if rr is Ok {
        assert(match_node_spec(expected@, actual@, rule@, cascaded) is Ok);
    } else {
        assert(match_node_spec(expected@, actual@, rule@, cascaded) matches Err(e) && e == rr->Err_0@);
    }
} rr }
        },
        (NodeValue::XML(ex), NodeValue::XML(ax)) => { let rr = match_xml(ex, ax, rule, cascaded); proof {
    if rr is Ok {
        assert(match_node_spec(expected@, actual@, rule@, cascaded) is Ok);
    } else {
        assert(match_node_spec(expected@, actual@, rule@, cascaded) matches Err(e) && e == rr->Err_0@);
    }
} rr },
        (NodeValue::SLIST(el), NodeValue::SLIST(al)) => { let rr = match_slist(el, al, rule, cascaded); proof {
    if rr is Ok {
        assert(match_node_spec(expected@, actual@, rule@, cascaded) is Ok);
    } else {
        assert(match_node_spec(expected@, actual@, rule@, cascaded) matches Err(e) && e == rr->Err_0@);
    }
} rr },
        (NodeValue::SLIST(el), NodeValue::STRING(s)) => {
            let mut single: Vec<String> = Vec::new();
            single.push(s.clone());
            proof {
                assert(sl_view(single@) =~= seq![s@]);
            }
            { let rr = match_slist(el, &single, rule, cascaded); proof {
    if rr is Ok {
        assert(match_node_spec(expected@, actual@, rule@, cascaded) is Ok);
    } else {
        assert(match_node_spec(expected@, actual@, rule@, cascaded) matches Err(e) && e == rr->Err_0@);
    }
} rr }
        },
        (NodeValue::STRING(es), NodeValue::SLIST(al)) => {
            let ghost alv = sl_view(al@);
            let mut k: usize = 0;
            while k < al.len()
                invariant
                    k <= al.len(),
                    alv == sl_view(al@),
                    match_each_spec(es@, alv, rule@, k as int) is Ok,
                decreases al.len() - k,
            {
                match match_string(es.as_str(), al[k].as_str(), rule) {
                    Ok(_) => (),
                    Err(m) => {
                        proof {
                            assert(alv[k as int] == al@[k as int]@);
                            assert(k + 1 <= alv.len());
                            assert(match_each_spec(es@, alv, rule@, k + 1) == match_string_spec(
                                es@,
                                alv[k as int],
                                rule@,
                            ));
                            assert(match_each_spec(es@, alv, rule@, k + 1) matches Err(e) && e
                                == m@);
                            lemma_match_each_err(es@, alv, rule@, k + 1, alv.len() as int);
                            assert(match_node_spec(expected@, actual@, rule@, cascaded)
                                == match_each_spec(es@, alv, rule@, alv.len() as int));
                        }
                        return Err(m);
                    },
                }
                k = k + 1;
            }
            proof {
                assert(match_node_spec(expected@, actual@, rule@, cascaded)
                    == match_each_spec(es@, alv, rule@, alv.len() as int));
            }
            Ok(())
        },
        _ => {
            let es = match expected {
                NodeValue::STRING(s) => Some(s.clone()),
                NodeValue::UINT(u) => {
                    let mut tmp: Vec<char> = Vec::new();
                    push_dec(&mut tmp, *u);
                    Some(crate::strutil::chars_to_string(&tmp))
                },
                NodeValue::BOOL(b) => Some(
                    if *b {
                        String::from_str("true")
                    } else {
                        String::from_str("false")
                    },
                ),
                _ => None,
            };
            let aa = match actual {
                NodeValue::STRING(s) => Some(s.clone()),
                NodeValue::UINT(u) => {
                    let mut tmp: Vec<char> = Vec::new();
                    push_dec(&mut tmp, *u);
                    Some(crate::strutil::chars_to_string(&tmp))
                },
                NodeValue::BOOL(b) => Some(
                    if *b {
                        String::from_str("true")
                    } else {
                        String::from_str("false")
                    },
                ),
                _ => None,
            };
            match (es, aa) {
                (Some(e), Some(a)) => {
                    proof {
                        assert(scalar_text(expected@) == Some(e@));
                        assert(scalar_text(actual@) == Some(a@));
                    }
                    { let rr = match_string(e.as_str(), a.as_str(), rule); proof {
    if rr is Ok {
        assert(match_node_spec(expected@, actual@, rule@, cascaded) is Ok);
    } else {
        assert(match_node_spec(expected@, actual@, rule@, cascaded) matches Err(e) && e == rr->Err_0@);
    }
} rr }
                },
                _ => {
                    let mut out: Vec<char> = Vec::new();
                    push_str(&mut out, "Unable to match ");
                    push_value_text(&mut out, actual);
                    push_str(&mut out, " using ");
                    push_rule_name(&mut out, rule);
                    proof {
                        assert(out@ =~= "Unable to match "@ + value_text(actual@) + " using "@
                            + rule_name(rule@));
                    }
                    Err(crate::strutil::chars_to_string(&out))
                },
            }
        },
    }
}

/// Once a prefix of the members has failed, the whole iteration fails with
/// the same message.
proof fn lemma_match_each_err(
    expected: Seq<char>,
    actual: Seq<Seq<char>>,
    rule: RuleV,
    k: int,
    n: int,
)
    requires
        0 < k <= n <= actual.len(),
        match_each_spec(expected, actual, rule, k) is Err,
    ensures
        match_each_spec(expected, actual, rule, n) == match_each_spec(expected, actual, rule, k),
    decreases n - k,
{
    if k < n {
        lemma_match_each_err(expected, actual, rule, k + 1, n);
    }
}

} // verus!
