//! Matching rules: the per-path comparison strategies a plan can apply, the
//! construction of a rule from a `match:<rule>` action name, the human
//! readable descriptions used in plan annotations, and the rule application
//! layer that compares an expected value to an actual one.

use vstd::prelude::*;

verus! {

use crate::foreign::{regex_accepts, regex_compile_err, regex_is_match};
use crate::json::{JsonValue, JsonV, json_eq, json_display, json_type_name, json_text, jv};
use crate::strutil::{dec_seq, push_dec, push_str, str_eq};
use crate::value::{NodeValue, NodeValV, sl_view, nv};
use crate::xml::{XmlElement, XmlElemV, XmlValue, XmlValV, qualified_name};
use vstd::string::StrSliceExecFns;

/// A per-path comparison strategy.
#[derive(Debug, PartialEq)]
pub enum MatchingRule {
    /// Literal equality
    Equality,
    /// The actual value must match a regular expression
    Regex(String),
    /// The actual value must have the expected value's type
    Type,
    /// Type matching with a minimum collection size
    MinType(u64),
    /// Type matching with a maximum collection size
    MaxType(u64),
    /// Type matching with both size bounds
    MinMaxType(u64, u64),
    /// The actual value must be a number
    Number,
    /// The actual value must be an integer
    Integer,
    /// The actual value must be a decimal number
    Decimal,
    /// The actual value must be a boolean
    Boolean,
    /// The actual value must include the given text
    Include(String),
    /// The actual value must not be empty
    NotEmpty,
    /// Each value of a map is matched
    Values,
    /// Each key of a map is matched
    EachKey,
    /// Each value of a map is matched
    EachValue,
}

/// Specification-level rule.
#[verifier::ext_equal]
pub enum RuleV {
    Equality,
    Regex(Seq<char>),
    Type,
    MinType(int),
    MaxType(int),
    MinMaxType(int, int),
    Number,
    Integer,
    Decimal,
    Boolean,
    Include(Seq<char>),
    NotEmpty,
    Values,
    EachKey,
    EachValue,
}

impl View for MatchingRule {
    type V = RuleV;

    open spec fn view(&self) -> RuleV {
        match self {
            MatchingRule::Equality => RuleV::Equality,
            MatchingRule::Regex(r) => RuleV::Regex(r@),
            MatchingRule::Type => RuleV::Type,
            MatchingRule::MinType(n) => RuleV::MinType(*n as int),
            MatchingRule::MaxType(n) => RuleV::MaxType(*n as int),
            MatchingRule::MinMaxType(a, b) => RuleV::MinMaxType(*a as int, *b as int),
            MatchingRule::Number => RuleV::Number,
            MatchingRule::Integer => RuleV::Integer,
            MatchingRule::Decimal => RuleV::Decimal,
            MatchingRule::Boolean => RuleV::Boolean,
            MatchingRule::Include(s) => RuleV::Include(s@),
            MatchingRule::NotEmpty => RuleV::NotEmpty,
            MatchingRule::Values => RuleV::Values,
            MatchingRule::EachKey => RuleV::EachKey,
            MatchingRule::EachValue => RuleV::EachValue,
        }
    }
}

impl Clone for MatchingRule {
    fn clone(&self) -> (res: Self)
        ensures
            res@ == self@,
    {
        match self {
            MatchingRule::Equality => MatchingRule::Equality,
            MatchingRule::Regex(r) => MatchingRule::Regex(r.clone()),
            MatchingRule::Type => MatchingRule::Type,
            MatchingRule::MinType(n) => MatchingRule::MinType(*n),
            MatchingRule::MaxType(n) => MatchingRule::MaxType(*n),
            MatchingRule::MinMaxType(a, b) => MatchingRule::MinMaxType(*a, *b),
            MatchingRule::Number => MatchingRule::Number,
            MatchingRule::Integer => MatchingRule::Integer,
            MatchingRule::Decimal => MatchingRule::Decimal,
            MatchingRule::Boolean => MatchingRule::Boolean,
            MatchingRule::Include(s) => MatchingRule::Include(s.clone()),
            MatchingRule::NotEmpty => MatchingRule::NotEmpty,
            MatchingRule::Values => MatchingRule::Values,
            MatchingRule::EachKey => MatchingRule::EachKey,
            MatchingRule::EachValue => MatchingRule::EachValue,
        }
    }
}

impl MatchingRule {
    /// Whether this rule compares by type.
    pub fn is_type_matcher(&self) -> (r: bool)
        ensures
            r == (self@ is Type || self@ is MinType || self@ is MaxType || self@ is MinMaxType),
    {
        matches!(
            self,
            MatchingRule::Type | MatchingRule::MinType(_) | MatchingRule::MaxType(_)
                | MatchingRule::MinMaxType(_, _)
        )
    }

    /// Whether this rule constrains a collection's length.
    pub fn is_length_type_matcher(&self) -> (r: bool)
        ensures
            r == (self@ is MinType || self@ is MaxType || self@ is MinMaxType),
    {
        matches!(
            self,
            MatchingRule::MinType(_) | MatchingRule::MaxType(_) | MatchingRule::MinMaxType(_, _)
        )
    }
}

/// The rule a `match:<name>` action denotes, with its JSON parameters.
pub open spec fn create_spec(name: Seq<char>, params: JsonV) -> Result<RuleV, Seq<char>> {
    if name == "equality"@ {
        Ok(RuleV::Equality)
    } else if name == "regex"@ {
        match params {
            JsonV::Object(fields) => match crate::json::obj_lookup(fields, "regex"@) {
                Some(JsonV::Str(s)) => Ok(RuleV::Regex(s)),
                _ => Err("Regex matcher missing 'regex' field"@),
            },
            _ => Err("Regex matcher missing 'regex' field"@),
        }
    } else if name == "type"@ {
        Ok(RuleV::Type)
    } else if name == "min-type"@ {
        match num_param(params, "min"@) {
            Some(n) => Ok(RuleV::MinType(n)),
            None => Err("Min type matcher missing 'min' field"@),
        }
    } else if name == "max-type"@ {
        match num_param(params, "max"@) {
            Some(n) => Ok(RuleV::MaxType(n)),
            None => Err("Max type matcher missing 'max' field"@),
        }
    } else if name == "minmax-type"@ {
        match (num_param(params, "min"@), num_param(params, "max"@)) {
            (Some(a), Some(b)) => Ok(RuleV::MinMaxType(a, b)),
            _ => Err("MinMax type matcher missing 'min' or 'max' field"@),
        }
    } else if name == "number"@ {
        Ok(RuleV::Number)
    } else if name == "integer"@ {
        Ok(RuleV::Integer)
    } else if name == "decimal"@ {
        Ok(RuleV::Decimal)
    } else if name == "boolean"@ {
        Ok(RuleV::Boolean)
    } else if name == "include"@ {
        match params {
            JsonV::Object(fields) => match crate::json::obj_lookup(fields, "value"@) {
                Some(JsonV::Str(s)) => Ok(RuleV::Include(s)),
                _ => Err("Include matcher missing 'value' field"@),
            },
            _ => Err("Include matcher missing 'value' field"@),
        }
    } else if name == "not-empty"@ {
        Ok(RuleV::NotEmpty)
    } else if name == "values"@ {
        Ok(RuleV::Values)
    } else if name == "each-key"@ {
        Ok(RuleV::EachKey)
    } else if name == "each-value"@ {
        Ok(RuleV::EachValue)
    } else {
        Err("'"@ + name + "' is not a valid matching rule definition"@)
    }
}

/// Whether a rule's size parameters fit the machine word the engine uses
/// for them.
pub open spec fn rule_fits(r: RuleV) -> bool {
    match r {
        RuleV::MinType(n) => n <= u64::MAX,
        RuleV::MaxType(n) => n <= u64::MAX,
        RuleV::MinMaxType(a, b) => a <= u64::MAX && b <= u64::MAX,
        _ => true,
    }
}

/// The message `create` reports when a size parameter cannot be read.
pub open spec fn rule_overflow_msg(r: RuleV) -> Seq<char> {
    match r {
        RuleV::MinType(_) => "Min type matcher missing 'min' field"@,
        RuleV::MaxType(_) => "Max type matcher missing 'max' field"@,
        _ => "MinMax type matcher missing 'min' or 'max' field"@,
    }
}

/// A non-negative integer parameter of a rule's JSON options.
pub open spec fn num_param(params: JsonV, key: Seq<char>) -> Option<int> {
    match params {
        JsonV::Object(fields) => match crate::json::obj_lookup(fields, key) {
            Some(JsonV::Number(t, true)) => dec_value(t),
            _ => None,
        },
        _ => None,
    }
}

/// The value of a decimal digit string, if it is one.
pub open spec fn dec_value(t: Seq<char>) -> Option<int>
    decreases t.len(),
{
    if t.len() == 0 {
        None
    } else if t.len() == 1 {
        digit_value(t[0])
    } else {
        match (dec_value(t.drop_last()), digit_value(t.last())) {
            (Some(hi), Some(lo)) => Some(hi * 10 + lo),
            _ => None,
        }
    }
}

/// The value of one decimal digit character.
pub open spec fn digit_value(c: char) -> Option<int> {
    if '0' <= c && c <= '9' {
        Some(c as int - '0' as int)
    } else {
        None
    }
}

/// Parses a decimal digit string into a bounded integer.
#[verifier::loop_isolation(false)]
pub fn parse_dec(t: &str) -> (r: Option<u64>)
    ensures
        match r {
            Some(n) => dec_value(t@) == Some(n as int),
            None => dec_value(t@) is None || (exists|v: int|
                dec_value(t@) == Some(v) && v > u64::MAX),
        },
{
    let len = t.unicode_len();
    if len == 0 {
        return None;
    }
    let mut acc: u64 = 0;
    let mut i: usize = 0;
    proof {
        assert(t@.take(0).len() == 0);
    }
    while i < len
        invariant
            i <= len,
            i > 0 ==> dec_value(t@.take(i as int)) == Some(acc as int),
            i == 0 ==> acc == 0,
        decreases len - i,
    {
        let c = t.get_char(i);
        if !('0' <= c && c <= '9') {
            proof {
                lemma_dec_value_bad(t@, i as int);
            }
            return None;
        }
        let d = (c as u32) as u64 - 48;
        if acc > (u64::MAX - d) / 10 {
            proof {
                assert(acc * 10 + d > u64::MAX) by (nonlinear_arith)
                    requires
                        acc > (u64::MAX - d) / 10,
                        d <= 9,
                        acc >= 0,
                ;
                assert(t@.take(i + 1).drop_last() =~= t@.take(i as int));
                assert(t@.take(i + 1).last() == t@[i as int]);
                if i == 0 {
                    assert(t@.take(1).len() == 1);
                }
                assert(dec_value(t@.take(i + 1)) == Some(acc * 10 + d));
                if i + 1 == len {
                    assert(t@.take(i + 1) =~= t@);
                } else {
                    lemma_dec_value_prefix_big(t@, i + 1, acc * 10 + d);
                }
            }
            return None;
        }
        acc = acc * 10 + d;
        proof {
            assert(t@.take(i + 1).drop_last() =~= t@.take(i as int));
            assert(t@.take(i + 1).last() == t@[i as int]);
            if i == 0 {
                assert(t@.take(1).len() == 1);
                assert(dec_value(t@.take(1)) == digit_value(t@[0]));
            }
        }
        i = i + 1;
    }
    proof {
        assert(t@.take(len as int) =~= t@);
    }
    Some(acc)
}

proof fn lemma_dec_value_bad(t: Seq<char>, i: int)
    requires
        0 <= i < t.len(),
        digit_value(t[i]) is None,
    ensures
        dec_value(t) is None,
    decreases t.len(),
{
    if t.len() > 0 {
        if i == t.len() - 1 {
            assert(t.last() == t[i]);
        } else {
            assert(t.drop_last()[i] == t[i]);
            lemma_dec_value_bad(t.drop_last(), i);
        }
    }
}

proof fn lemma_dec_value_prefix_big(t: Seq<char>, i: int, acc: int)
    requires
        0 < i < t.len(),
        dec_value(t.take(i)) == Some(acc),
        acc >= 0,
    ensures
        dec_value(t) is None || (exists|v: int| dec_value(t) == Some(v) && v >= acc),
    decreases t.len() - i,
{
    assert(t.take(i + 1).drop_last() =~= t.take(i));
    assert(t.take(i + 1).last() == t[i]);
    match digit_value(t[i]) {
        Some(lo) => {
            assert(dec_value(t.take(i + 1)) == Some(acc * 10 + lo));
            if i + 1 == t.len() {
                assert(t.take(i + 1) =~= t);
            } else {
                lemma_dec_value_prefix_big(t, i + 1, acc * 10 + lo);
            }
        },
        None => {
            lemma_dec_value_bad(t.take(i + 1), i);
            if i + 1 == t.len() {
                assert(t.take(i + 1) =~= t);
            } else {
                assert(forall|k: int| 0 <= k < i + 1 ==> t.take(i + 1)[k] == #[trigger] t[k]);
                lemma_dec_value_bad(t, i);
            }
        },
    }
}

impl MatchingRule {
    /// Builds the rule a `match:<name>` action denotes.
    pub fn create(name: &str, params: &JsonValue) -> (r: Result<MatchingRule, String>)
        ensures
            match r {
                Ok(rule) => create_spec(name@, params@) == Ok::<RuleV, Seq<char>>(rule@),
                Err(m) => (create_spec(name@, params@) matches Err(e) && e == m@) || (
                create_spec(name@, params@) matches Ok(rule) && !rule_fits(rule) && m@
                    == rule_overflow_msg(rule)),
            },
    {
        if str_eq(name, "equality") {
            Ok(MatchingRule::Equality)
        } else if str_eq(name, "regex") {
            match params {
                JsonValue::Object(fields) => match crate::json::object_get(fields, "regex") {
                    Some(JsonValue::Str(s)) => Ok(MatchingRule::Regex(s.clone())),
                    _ => Err(String::from_str("Regex matcher missing 'regex' field")),
                },
                _ => Err(String::from_str("Regex matcher missing 'regex' field")),
            }
        } else if str_eq(name, "type") {
            Ok(MatchingRule::Type)
        } else if str_eq(name, "min-type") {
            match Self::get_num(params, "min") {
                Some(n) => Ok(MatchingRule::MinType(n)),
                None => Err(String::from_str("Min type matcher missing 'min' field")),
            }
        } else if str_eq(name, "max-type") {
            match Self::get_num(params, "max") {
                Some(n) => Ok(MatchingRule::MaxType(n)),
                None => Err(String::from_str("Max type matcher missing 'max' field")),
            }
        } else if str_eq(name, "minmax-type") {
            let a = Self::get_num(params, "min");
            let b = Self::get_num(params, "max");
            match (a, b) {
                (Some(x), Some(y)) => Ok(MatchingRule::MinMaxType(x, y)),
                _ => Err(String::from_str("MinMax type matcher missing 'min' or 'max' field")),
            }
        } else if str_eq(name, "number") {
            Ok(MatchingRule::Number)
        } else if str_eq(name, "integer") {
            Ok(MatchingRule::Integer)
        } else if str_eq(name, "decimal") {
            Ok(MatchingRule::Decimal)
        } else if str_eq(name, "boolean") {
            Ok(MatchingRule::Boolean)
        } else if str_eq(name, "include") {
            match params {
                JsonValue::Object(fields) => match crate::json::object_get(fields, "value") {
                    Some(JsonValue::Str(s)) => Ok(MatchingRule::Include(s.clone())),
                    _ => Err(String::from_str("Include matcher missing 'value' field")),
                },
                _ => Err(String::from_str("Include matcher missing 'value' field")),
            }
        } else if str_eq(name, "not-empty") {
            Ok(MatchingRule::NotEmpty)
        } else if str_eq(name, "values") {
            Ok(MatchingRule::Values)
        } else if str_eq(name, "each-key") {
            Ok(MatchingRule::EachKey)
        } else if str_eq(name, "each-value") {
            Ok(MatchingRule::EachValue)
        } else {
            let mut out: Vec<char> = Vec::new();
            push_str(&mut out, "'");
            push_str(&mut out, name);
            push_str(&mut out, "' is not a valid matching rule definition");
            proof {
                assert(out@ =~= "'"@ + name@ + "' is not a valid matching rule definition"@);
            }
            Err(crate::strutil::chars_to_string(&out))
        }
    }

    /// Reads a non-negative integer field of a rule's JSON options.
    fn get_num(params: &JsonValue, key: &str) -> (r: Option<u64>)
        ensures
            match r {
                Some(n) => num_param(params@, key@) == Some(n as int),
                None => num_param(params@, key@) is None || (exists|v: int|
                    num_param(params@, key@) == Some(v) && v > u64::MAX),
            },
    {
        match params {
            JsonValue::Object(fields) => match crate::json::object_get(fields, key) {
                Some(JsonValue::Number { text, integer }) => {
                    if *integer {
                        parse_dec(text.as_str())
                    } else {
                        None
                    }
                },
                _ => None,
            },
            _ => None,
        }
    }
}

/// How a list of rules combines its verdicts.
#[derive(Debug, PartialEq, Clone, Copy)]
pub enum RuleLogic {
    And,
    Or,
}

/// A list of rules that apply at one path, with their combination logic.
#[derive(Debug, PartialEq)]
pub struct RuleList {
    pub rules: Vec<MatchingRule>,
    pub rule_logic: RuleLogic,
    pub cascaded: bool,
}

/// Specification-level rule list.
#[verifier::ext_equal]
pub struct RuleListV {
    pub rules: Seq<RuleV>,
    pub rule_logic: RuleLogic,
    pub cascaded: bool,
}

impl View for RuleList {
    type V = RuleListV;

    open spec fn view(&self) -> RuleListV {
        RuleListV {
            rules: self.rules@.map(|i: int, r: MatchingRule| r@),
            rule_logic: self.rule_logic,
            cascaded: self.cascaded,
        }
    }
}

impl Clone for RuleList {
    fn clone(&self) -> (res: Self)
        ensures
            res@ == self@,
    {
        let mut rules: Vec<MatchingRule> = Vec::new();
        let mut i: usize = 0;
        while i < self.rules.len()
            invariant
                i <= self.rules.len(),
                rules@.len() == i,
                forall|j: int| 0 <= j < i ==> rules@[j]@ == self.rules@[j]@,
            decreases self.rules.len() - i,
        {
            rules.push(self.rules[i].clone());
            i = i + 1;
        }
        let res = RuleList { rules, rule_logic: self.rule_logic, cascaded: self.cascaded };
        proof {
            assert(res@.rules =~= self@.rules);
        }
        res
    }
}

impl RuleList {
    /// An empty rule list combining with AND.
    pub fn empty() -> (r: RuleList)
        ensures
            r@.rules.len() == 0,
            r@.rule_logic == RuleLogic::And,
            !r@.cascaded,
    {
        RuleList { rules: Vec::new(), rule_logic: RuleLogic::And, cascaded: false }
    }

    /// Whether no rule is in the list.
    pub fn is_empty(&self) -> (r: bool)
        ensures
            r == (self@.rules.len() == 0),
    {
        self.rules.len() == 0
    }
}

/// The description of one rule, as plan annotations spell it. The collection
/// form of a size-bounded type rule also states its bounds.
pub open spec fn rule_description(r: RuleV, for_collection: bool) -> Seq<char> {
    match r {
        RuleV::Equality => "must be equal to the expected value"@,
        RuleV::Regex(re) => "must match the regular expression /"@ + re + "/"@,
        RuleV::Type => "must match by type"@,
        RuleV::MinType(n) => if for_collection {
            "must match by type and have at least "@ + dec_seq(n as nat) + " items"@
        } else {
            "must match by type"@
        },
        RuleV::MaxType(n) => if for_collection {
            "must match by type and have at most "@ + dec_seq(n as nat) + " items"@
        } else {
            "must match by type"@
        },
        RuleV::MinMaxType(a, b) => if for_collection {
            "must match by type and have at least "@ + dec_seq(a as nat) + " items and at most "@
                + dec_seq(b as nat) + " items"@
        } else {
            "must match by type"@
        },
        RuleV::Number => "must be a number"@,
        RuleV::Integer => "must be an integer"@,
        RuleV::Decimal => "must be a decimal number"@,
        RuleV::Boolean => "must be a boolean"@,
        RuleV::Include(s) => "must include '"@ + s + "'"@,
        RuleV::NotEmpty => "must not be empty"@,
        RuleV::Values => "must match the values"@,
        RuleV::EachKey => "must match each key"@,
        RuleV::EachValue => "must match each value"@,
    }
}

/// Appends the description of one rule.
pub fn push_rule_description(out: &mut Vec<char>, r: &MatchingRule, for_collection: bool)
    ensures
        final(out)@ == old(out)@ + rule_description(r@, for_collection),
{
    match r {
        MatchingRule::Equality => push_str(out, "must be equal to the expected value"),
        MatchingRule::Regex(re) => {
            push_str(out, "must match the regular expression /");
            push_str(out, re.as_str());
            push_str(out, "/");
            assert(out@ =~= old(out)@ + rule_description(r@, for_collection));
        },
        MatchingRule::Type => push_str(out, "must match by type"),
        MatchingRule::MinType(n) => {
            if for_collection {
                push_str(out, "must match by type and have at least ");
                push_dec(out, *n);
                push_str(out, " items");
                assert(out@ =~= old(out)@ + rule_description(r@, for_collection));
            } else {
                push_str(out, "must match by type");
            }
        },
        MatchingRule::MaxType(n) => {
            if for_collection {
                push_str(out, "must match by type and have at most ");
                push_dec(out, *n);
                push_str(out, " items");
                assert(out@ =~= old(out)@ + rule_description(r@, for_collection));
            } else {
                push_str(out, "must match by type");
            }
        },
        MatchingRule::MinMaxType(a, b) => {
            if for_collection {
                push_str(out, "must match by type and have at least ");
                push_dec(out, *a);
                push_str(out, " items and at most ");
                push_dec(out, *b);
                push_str(out, " items");
                assert(out@ =~= old(out)@ + rule_description(r@, for_collection));
            } else {
                push_str(out, "must match by type");
            }
        },
        MatchingRule::Number => push_str(out, "must be a number"),
        MatchingRule::Integer => push_str(out, "must be an integer"),
        MatchingRule::Decimal => push_str(out, "must be a decimal number"),
        MatchingRule::Boolean => push_str(out, "must be a boolean"),
        MatchingRule::Include(s) => {
            push_str(out, "must include '");
            push_str(out, s.as_str());
            push_str(out, "'");
            assert(out@ =~= old(out)@ + rule_description(r@, for_collection));
        },
        MatchingRule::NotEmpty => push_str(out, "must not be empty"),
        MatchingRule::Values => push_str(out, "must match the values"),
        MatchingRule::EachKey => push_str(out, "must match each key"),
        MatchingRule::EachValue => push_str(out, "must match each value"),
    }
}

/// The joined description of a rule list.
pub open spec fn rules_description(rs: Seq<RuleV>, logic: RuleLogic, for_collection: bool) -> Seq<
    char,
>
    decreases rs.len(),
{
    if rs.len() == 0 {
        Seq::empty()
    } else if rs.len() == 1 {
        rule_description(rs.last(), for_collection)
    } else {
        rules_description(rs.drop_last(), logic, for_collection) + (if logic is And {
            " AND "@
        } else {
            " OR "@
        }) + rule_description(rs.last(), for_collection)
    }
}

impl RuleList {
    /// The human readable description used in plan annotations.
    #[verifier::loop_isolation(false)]
    #[verifier::rlimit(100)]
    pub fn generate_description(&self, for_collection: bool) -> (r: String)
        ensures
            r@ == rules_description(self@.rules, self@.rule_logic, for_collection),
    {
        let mut out: Vec<char> = Vec::new();
        let ghost rv = self@.rules;
        let mut i: usize = 0;
        proof {
            assert(rules_description(rv.take(0), self@.rule_logic, for_collection) =~= Seq::<
                char,
            >::empty());
            assert(out@ =~= rules_description(rv.take(0), self@.rule_logic, for_collection));
        }
        while i < self.rules.len()
            invariant
                i <= self.rules.len(),
                out@ == rules_description(rv.take(i as int), self@.rule_logic, for_collection),
            decreases self.rules.len() - i,
        {
            if i > 0 {
                match self.rule_logic {
                    RuleLogic::And => push_str(&mut out, " AND "),
                    RuleLogic::Or => push_str(&mut out, " OR "),
                }
            }
            push_rule_description(&mut out, &self.rules[i], for_collection);
            proof {
                assert(rv.take(i + 1).drop_last() =~= rv.take(i as int));
                assert(rv.take(i + 1).last() == rv[i as int]);
                assert(out@ =~= rules_description(
                    rv.take(i + 1),
                    self@.rule_logic,
                    for_collection,
                ));
            }
            i = i + 1;
        }
        proof {
            assert(rv.take(self.rules@.len() as int) =~= rv);
        }
        crate::strutil::chars_to_string(&out)
    }
}

} // verus!
