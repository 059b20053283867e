use vstd::prelude::*;

use crate::env::fits_i32;
use crate::error::EngineError;
use crate::expr::{tokens_model, ConstModel, Constant, EvaluableExpr, Token, TokenModel};
use crate::lexer::{digits_value, tokenize, tokens_result};
use crate::rpn::{bool_word, expr_tokens_to_rpn, to_postfix};
use crate::text::{
    chars_of, first_index, has_prefix, index_of, is_digit, lemma_strings_model_push, starts_with, string_of,
    strings_model, trim_of, trim_str, trimmed_string,
};

verus! {

/// The postfix form of expression text `e`.
pub open spec fn postfix_of(e: Seq<char>) -> Result<Seq<TokenModel>, EngineError> {
    match tokenize(e) {
        Ok(ts) => to_postfix(ts),
        Err(x) => Err(x),
    }
}

/// Tokenizes expression text `expr` and rewrites it into postfix order.
pub fn compile_expression(expr: &str) -> (r: Result<EvaluableExpr, EngineError>)
    ensures
        tokens_result(r) == postfix_of(expr@),
{
    match Token::from_string(expr) {
        Ok(tokens) => expr_tokens_to_rpn(tokens),
        Err(e) => Err(e),
    }
}

/// Mathematical value of an assignment.
pub struct AssignModel {
    pub name: Seq<char>,
    pub value: Seq<TokenModel>,
}

/// A name and the postfix expression whose value is bound to it.
#[derive(Debug, PartialEq, Eq, Clone)]
pub struct Assignement {
    pub name: String,
    pub value: EvaluableExpr,
}

impl View for Assignement {
    type V = AssignModel;

    open spec fn view(&self) -> AssignModel {
        AssignModel { name: self.name@, value: tokens_model(self.value@) }
    }
}

/// The assignment written `name = expression` on line `s`: split at the
/// first `=`, both sides trimmed.
pub open spec fn assignment_of(s: Seq<char>) -> Result<AssignModel, EngineError> {
    let k = first_index(s, '=');
    if k >= s.len() {
        Err(EngineError::MissingSeparator)
    } else {
        match postfix_of(trim_of(s.subrange(k + 1, s.len() as int))) {
            Ok(v) => Ok(AssignModel { name: trim_of(s.subrange(0, k)), value: v }),
            Err(e) => Err(e),
        }
    }
}

/// The model of an assignment result.
pub open spec fn assignment_result(r: Result<Assignement, EngineError>) -> Result<AssignModel, EngineError> {
    match r {
        Ok(a) => Ok(a@),
        Err(e) => Err(e),
    }
}

impl Assignement {
    /// Reads `name = expression`.
    pub fn from_string(s: &str) -> (r: Result<Assignement, EngineError>)
        ensures
            assignment_result(r) == assignment_of(s@),
    {
        let cs = chars_of(s);
        let k = index_of(&cs, '=');
        if k >= cs.len() {
            return Err(EngineError::MissingSeparator);
        }
        let left = string_of(&cs, 0, k);
        let right = string_of(&cs, k + 1, cs.len());
        let name = trimmed_string(left.as_str());
        match compile_expression(trim_str(right.as_str())) {
            Ok(value) => Ok(Assignement { name, value }),
            Err(e) => Err(e),
        }
    }
}

/// Whether every character of `d` is a digit.
pub open spec fn all_digits(d: Seq<char>) -> bool {
    forall|k: int| 0 <= k < d.len() ==> is_digit(#[trigger] d[k])
}

/// The 32-bit number written `l`: an optional sign, then at least one digit.
pub open spec fn int_literal(l: Seq<char>) -> Option<i32> {
    let signed = l.len() > 0 && (l[0] == '-' || l[0] == '+');
    let d = if signed { l.subrange(1, l.len() as int) } else { l };
    let v = if signed && l[0] == '-' { -digits_value(d) } else { digits_value(d) };
    if d.len() > 0 && all_digits(d) && fits_i32(v) {
        Some(v as i32)
    } else {
        None
    }
}

/// The value written `l`: a quoted string, `true`, `false` or a number.
pub open spec fn literal_of(l: Seq<char>) -> Result<ConstModel, EngineError> {
    if l.len() > 0 && l[0] == '"' {
        if l.len() >= 2 && l.last() == '"' {
            Ok(ConstModel::Str(l.subrange(1, l.len() - 1)))
        } else {
            Err(EngineError::UnquotedText)
        }
    } else {
        match bool_word(l) {
            Some(b) => Ok(ConstModel::Bool(b)),
            None => match int_literal(l) {
                Some(n) => Ok(ConstModel::Number(n)),
                None => Err(EngineError::InvalidLiteral),
            },
        }
    }
}

/// Whether value `c` is of the kind that tag `tag` declares; tags other
/// than `bool`, `number` and `string` declare no kind.
pub open spec fn kind_agrees(tag: Seq<char>, c: ConstModel) -> bool {
    &&& tag == "bool"@ ==> c is Bool
    &&& tag == "number"@ ==> c is Number
    &&& tag == "string"@ ==> c is Str
}

/// Mathematical value of a metadata entry.
pub struct MetaModel {
    pub name: Seq<char>,
    pub data: ConstModel,
}

/// The entry named `name`, declared with kind tag `tag` and written `lit`.
pub open spec fn metadata_of(name: Seq<char>, tag: Seq<char>, lit: Seq<char>) -> Result<MetaModel, EngineError> {
    match literal_of(lit) {
        Ok(c) => if kind_agrees(tag, c) {
            Ok(MetaModel { name, data: c })
        } else {
            Err(EngineError::KindMismatch)
        },
        Err(e) => Err(e),
    }
}

/// The entry written `name: kind = value` on line `s`: split at the first
/// `:` and then at the first `=` after it, each part trimmed.
pub open spec fn metadata_line(s: Seq<char>) -> Result<MetaModel, EngineError> {
    let k = first_index(s, ':');
    let rest = s.subrange(k + 1, s.len() as int);
    let j = first_index(rest, '=');
    if k >= s.len() || j >= rest.len() {
        Err(EngineError::MissingSeparator)
    } else {
        metadata_of(trim_of(s.subrange(0, k)), trim_of(rest.subrange(0, j)), trim_of(rest.subrange(j + 1, rest.len() as int)))
    }
}

/// A named constant attached to a data structure.
#[derive(Debug)]
pub struct MetaData {
    pub name: String,
    pub data: Constant,
}

impl View for MetaData {
    type V = MetaModel;

    open spec fn view(&self) -> MetaModel {
        MetaModel { name: self.name@, data: self.data@ }
    }
}

/// The model of a metadata result.
pub open spec fn metadata_result(r: Result<MetaData, EngineError>) -> Result<MetaModel, EngineError> {
    match r {
        Ok(m) => Ok(m@),
        Err(e) => Err(e),
    }
}

/// The 32-bit number written `cs`, if it is one.
fn parse_int(cs: &Vec<char>) -> (r: Option<i32>)
    ensures
        r == int_literal(cs@),
{
    let ghost l = cs@;
    let signed = cs.len() > 0 && (cs[0] == '-' || cs[0] == '+');
    let negative = signed && cs[0] == '-';
    let start: usize = if signed { 1 } else { 0 };
    let ghost d = if signed { l.subrange(1, l.len() as int) } else { l };
    if start >= cs.len() {
        return None;
    }
    let mut k: usize = start;
    let mut acc: i64 = 0;
    assert(l.subrange(start as int, start as int) =~= Seq::<char>::empty());
    while k < cs.len()
        invariant
            start <= k <= cs.len(),
            d == l.subrange(start as int, l.len() as int),
            l == cs@,
            signed == (l.len() > 0 && (l[0] == '-' || l[0] == '+')),
            d == (if signed { l.subrange(1, l.len() as int) } else { l }),
            negative == (signed && l[0] == '-'),
            all_digits(l.subrange(start as int, k as int)),
            0 <= acc <= i32::MAX + 2,
            acc == (if digits_value(l.subrange(start as int, k as int)) <= i32::MAX + 2 {
                digits_value(l.subrange(start as int, k as int))
            } else {
                i32::MAX + 2
            }),
        decreases cs.len() - k,
    {
        let c = cs[k];
        if !('0' <= c && c <= '9') {
            assert(d[k - start] == c);
            assert(!is_digit(d[k - start]));
            assert(!all_digits(d));
            return None;
        }
        assert(l.subrange(start as int, k + 1).drop_last() =~= l.subrange(start as int, k as int));
        let dv = (c as u32 - '0' as u32) as i64;
        if acc <= i32::MAX as i64 + 1 {
            acc = acc * 10 + dv;
            if acc > i32::MAX as i64 + 2 {
                acc = i32::MAX as i64 + 2;
            }
        }
        assert forall|j: int| 0 <= j < k + 1 - start implies is_digit(#[trigger] l.subrange(start as int, k + 1)[j]) by {
            if j < k - start {
                assert(l.subrange(start as int, k + 1)[j] == l.subrange(start as int, k as int)[j]);
            }
        }
        k += 1;
    }
    assert(l.subrange(start as int, l.len() as int) == d);
    if negative {
        if acc <= i32::MAX as i64 + 1 {
            Some((-acc) as i32)
        } else {
            None
        }
    } else if acc <= i32::MAX as i64 {
        Some(acc as i32)
    } else {
        None
    }
}

/// The boolean that `cs` spells, if it is `true` or `false`.
fn bool_literal(cs: &Vec<char>) -> (r: Option<bool>)
    ensures
        r == bool_word(cs@),
{
    if cs.len() == 4 && cs[0] == 't' && cs[1] == 'r' && cs[2] == 'u' && cs[3] == 'e' {
        Some(true)
    } else if cs.len() == 5 && cs[0] == 'f' && cs[1] == 'a' && cs[2] == 'l' && cs[3] == 's' && cs[4] == 'e' {
        Some(false)
    } else {
        None
    }
}

/// The value written `lit`.
fn parse_literal(lit: &str) -> (r: Result<Constant, EngineError>)
    ensures
        match r {
            Ok(c) => literal_of(lit@) == Ok::<ConstModel, EngineError>(c@),
            Err(e) => literal_of(lit@) == Err::<ConstModel, EngineError>(e),
        },
{
    let cs = chars_of(lit);
    if cs.len() > 0 && cs[0] == '"' {
        if cs.len() >= 2 && cs[cs.len() - 1] == '"' {
            return Ok(Constant::String(string_of(&cs, 1, cs.len() - 1)));
        }
        return Err(EngineError::UnquotedText);
    }
    match bool_literal(&cs) {
        Some(b) => Ok(Constant::Bool(b)),
        None => match parse_int(&cs) {
            Some(n) => Ok(Constant::Number(n)),
            None => Err(EngineError::InvalidLiteral),
        },
    }
}

impl MetaData {
    /// The entry named `name`, declared with kind tag `tag` and written
    /// `literal`; the literal must be of the declared kind.
    pub fn from_parts(name: String, tag: &str, literal: &str) -> (r: Result<MetaData, EngineError>)
        ensures
            metadata_result(r) == metadata_of(name@, tag@, literal@),
    {
        let data = match parse_literal(literal) {
            Ok(c) => c,
            Err(e) => {
                return Err(e);
            },
        };
        let tag = String::from_str(tag);
        let mismatch = (tag == String::from_str("bool") && !matches!(data, Constant::Bool(_)))
            || (tag == String::from_str("number") && !matches!(data, Constant::Number(_)))
            || (tag == String::from_str("string") && !matches!(data, Constant::String(_)));
        if mismatch {
            return Err(EngineError::KindMismatch);
        }
        Ok(MetaData { name, data })
    }

    /// Reads `name: kind = value`.
    pub fn from_string(s: &str) -> (r: Result<MetaData, EngineError>)
        ensures
            metadata_result(r) == metadata_line(s@),
    {
        let cs = chars_of(s);
        let k = index_of(&cs, ':');
        if k >= cs.len() {
            return Err(EngineError::MissingSeparator);
        }
        let rest = string_of(&cs, k + 1, cs.len());
        let rs = chars_of(rest.as_str());
        let j = index_of(&rs, '=');
        if j >= rs.len() {
            return Err(EngineError::MissingSeparator);
        }
        let name = trimmed_string(string_of(&cs, 0, k).as_str());
        let tag = string_of(&rs, 0, j);
        let literal = string_of(&rs, j + 1, rs.len());
        MetaData::from_parts(name, trim_str(tag.as_str()), trim_str(literal.as_str()))
    }
}

/// The pieces of `s` from position `i` on, appended to `acc`: `s` is cut
/// at each comma outside double quotes, the current piece having started at
/// `start`, `inside` telling whether position `i` lies within quotes.
pub open spec fn fields_run(s: Seq<char>, i: int, start: int, inside: bool, acc: Seq<Seq<char>>) -> Seq<Seq<char>>
    decreases s.len() - i,
{
    if i < 0 || i >= s.len() {
        acc.push(s.subrange(start, s.len() as int))
    } else if s[i] == '"' {
        fields_run(s, i + 1, start, !inside, acc)
    } else if s[i] == ',' && !inside {
        fields_run(s, i + 1, i + 1, inside, acc.push(s.subrange(start, i)))
    } else {
        fields_run(s, i + 1, start, inside, acc)
    }
}

/// The pieces of `s` between the commas that stand outside double quotes.
pub open spec fn fields_of(s: Seq<char>) -> Seq<Seq<char>> {
    fields_run(s, 0, 0, false, Seq::empty())
}

/// The pieces of `s` between the commas that stand outside double quotes.
pub fn split_fields(s: &str) -> (r: Vec<String>)
    ensures
        strings_model(r@) == fields_of(s@),
{
    let cs = chars_of(s);
    let mut out: Vec<String> = Vec::new();
    let mut start: usize = 0;
    let mut inside = false;
    let mut i: usize = 0;
    assert(strings_model(out@) =~= Seq::<Seq<char>>::empty());
    while i < cs.len()
        invariant
            start <= i <= cs.len(),
            cs@ == s@,
            fields_of(s@) == fields_run(cs@, i as int, start as int, inside, strings_model(out@)),
        decreases cs.len() - i,
    {
        if cs[i] == '"' {
            inside = !inside;
        } else if cs[i] == ',' && !inside {
            let piece = string_of(&cs, start, i);
            proof {
                lemma_strings_model_push(out@, piece);
            }
            out.push(piece);
            start = i + 1;
        }
        i += 1;
    }
    let piece = string_of(&cs, start, cs.len());
    proof {
        lemma_strings_model_push(out@, piece);
    }
    out.push(piece);
    out
}

/// How many double quotes `t` holds.
pub open spec fn quote_count(t: Seq<char>) -> nat
    decreases t.len(),
{
    if t.len() == 0 {
        0
    } else {
        quote_count(t.drop_last()) + if t.last() == '"' { 1nat } else { 0nat }
    }
}

/// Whether position `i` of `s` lies inside a quoted string: an odd number
/// of double quotes stands before it.
pub open spec fn within_quotes(s: Seq<char>, i: int) -> bool {
    quote_count(s.subrange(0, i)) % 2 == 1
}

proof fn lemma_fields_uncut(s: Seq<char>, i: int)
    requires
        0 <= i <= s.len(),
        forall|k: int| 0 <= k < s.len() && s[k] == ',' ==> within_quotes(s, k),
    ensures
        fields_run(s, i, 0, within_quotes(s, i), Seq::empty()) == seq![s],
    decreases s.len() - i,
{
    if i < s.len() {
        assert(s.subrange(0, i + 1).drop_last() =~= s.subrange(0, i));
        lemma_fields_uncut(s, i + 1);
    } else {
        assert(s.subrange(0, s.len() as int) =~= s);
        assert(Seq::<Seq<char>>::empty().push(s) =~= seq![s]);
    }
}

/// Commas inside quoted strings are never cut points: text whose every
/// comma lies inside quotes is read as one single field.
pub proof fn law_quoted_commas_do_not_split(s: Seq<char>)
    requires
        forall|k: int| 0 <= k < s.len() && s[k] == ',' ==> within_quotes(s, k),
    ensures
        fields_of(s) == seq![s],
{
    assert(s.subrange(0, 0) =~= Seq::<char>::empty());
    lemma_fields_uncut(s, 0);
}

/// What follows the first `:` of `t`, trimmed.
pub open spec fn after_colon(t: Seq<char>) -> Result<Seq<char>, EngineError> {
    let k = first_index(t, ':');
    if k >= t.len() {
        Err(EngineError::MissingSeparator)
    } else {
        Ok(trim_of(t.subrange(k + 1, t.len() as int)))
    }
}

/// The text inside the double quotes that enclose `v`.
pub open spec fn unquoted(v: Seq<char>) -> Result<Seq<char>, EngineError> {
    if v.len() >= 2 && v[0] == '"' && v.last() == '"' {
        Ok(v.subrange(1, v.len() - 1))
    } else {
        Err(EngineError::UnquotedText)
    }
}

/// Mathematical value of a warning or a denial.
pub struct WarnModel {
    pub test: Seq<TokenModel>,
    pub message: Option<Seq<char>>,
    pub hint: Option<Seq<char>>,
}

/// The entry read from fields `fs` from position `i` on, given the test,
/// message and hint found so far; fields with another key are ignored.
pub open spec fn warning_run(
    fs: Seq<Seq<char>>,
    i: int,
    test: Option<Seq<TokenModel>>,
    message: Option<Seq<char>>,
    hint: Option<Seq<char>>,
) -> Result<WarnModel, EngineError>
    decreases fs.len() - i,
{
    if i < 0 || i >= fs.len() {
        match test {
            Some(t) => Ok(WarnModel { test: t, message, hint }),
            None => Err(EngineError::MissingTest),
        }
    } else {
        let f = trim_of(fs[i]);
        if has_prefix(f, "Test"@) {
            if test is Some {
                Err(EngineError::DuplicateKey)
            } else {
                match after_colon(f) {
                    Ok(v) => match postfix_of(v) {
                        Ok(t) => warning_run(fs, i + 1, Some(t), message, hint),
                        Err(e) => Err(e),
                    },
                    Err(e) => Err(e),
                }
            }
        } else if has_prefix(f, "Message"@) {
            if message is Some {
                Err(EngineError::DuplicateKey)
            } else {
                match after_colon(f) {
                    Ok(v) => match unquoted(v) {
                        Ok(m) => warning_run(fs, i + 1, test, Some(m), hint),
                        Err(e) => Err(e),
                    },
                    Err(e) => Err(e),
                }
            }
        } else if has_prefix(f, "Hint"@) {
            if hint is Some {
                Err(EngineError::DuplicateKey)
            } else {
                match after_colon(f) {
                    Ok(v) => match unquoted(v) {
                        Ok(h) => warning_run(fs, i + 1, test, message, Some(h)),
                        Err(e) => Err(e),
                    },
                    Err(e) => Err(e),
                }
            }
        } else {
            warning_run(fs, i + 1, test, message, hint)
        }
    }
}

/// The entry written `Test: expr, Message: "text", Hint: "text"` as `s`.
pub open spec fn warning_of(s: Seq<char>) -> Result<WarnModel, EngineError> {
    warning_run(fields_of(s), 0, None, None, None)
}

/// A condition that, when true, triggers a message and a hint.
#[derive(Debug, PartialEq, Eq, Clone)]
pub struct Warning {
    pub test: EvaluableExpr,
    pub message: Option<String>,
    pub hint: Option<String>,
}

/// A denial has the shape of a warning.
pub type Deny = Warning;

/// The text of an optional string.
pub open spec fn opt_text(o: Option<String>) -> Option<Seq<char>> {
    match o {
        Some(s) => Some(s@),
        None => None,
    }
}

/// The tokens of an optional expression.
pub open spec fn opt_tokens(o: Option<EvaluableExpr>) -> Option<Seq<TokenModel>> {
    match o {
        Some(v) => Some(tokens_model(v@)),
        None => None,
    }
}

impl View for Warning {
    type V = WarnModel;

    open spec fn view(&self) -> WarnModel {
        WarnModel { test: tokens_model(self.test@), message: opt_text(self.message), hint: opt_text(self.hint) }
    }
}

/// The model of a warning result.
pub open spec fn warning_result(r: Result<Warning, EngineError>) -> Result<WarnModel, EngineError> {
    match r {
        Ok(w) => Ok(w@),
        Err(e) => Err(e),
    }
}

/// What follows the first `:` of `t`, trimmed.
fn value_after_colon(t: &str) -> (r: Result<String, EngineError>)
    ensures
        match r {
            Ok(v) => after_colon(t@) == Ok::<Seq<char>, EngineError>(v@),
            Err(e) => after_colon(t@) == Err::<Seq<char>, EngineError>(e),
        },
{
    let cs = chars_of(t);
    let k = index_of(&cs, ':');
    if k >= cs.len() {
        return Err(EngineError::MissingSeparator);
    }
    let rest = string_of(&cs, k + 1, cs.len());
    Ok(trimmed_string(rest.as_str()))
}

/// The text inside the double quotes that enclose `v`.
fn unquote(v: &String) -> (r: Result<String, EngineError>)
    ensures
        match r {
            Ok(m) => unquoted(v@) == Ok::<Seq<char>, EngineError>(m@),
            Err(e) => unquoted(v@) == Err::<Seq<char>, EngineError>(e),
        },
{
    let cs = chars_of(v.as_str());
    if cs.len() >= 2 && cs[0] == '"' && cs[cs.len() - 1] == '"' {
        Ok(string_of(&cs, 1, cs.len() - 1))
    } else {
        Err(EngineError::UnquotedText)
    }
}

impl Warning {
    /// Reads `Test: expr, Message: "text", Hint: "text"`, cut at the commas
    /// outside quotes; the message and the hint may be left out.
    pub fn from_string(s: &str) -> (r: Result<Warning, EngineError>)
        ensures
            warning_result(r) == warning_of(s@),
    {
        let fields = split_fields(s);
        let ghost fs = strings_model(fields@);
        let mut test: Option<EvaluableExpr> = None;
        let mut message: Option<String> = None;
        let mut hint: Option<String> = None;
        let mut i: usize = 0;
        while i < fields.len()
            invariant
                i <= fields.len(),
                fs == strings_model(fields@),
                fs == fields_of(s@),
                warning_of(s@) == warning_run(fs, i as int, opt_tokens(test), opt_text(message), opt_text(hint)),
            decreases fields.len() - i,
        {
            assert(fs[i as int] == fields@[i as int]@);
            let f = trim_str(fields[i].as_str());
            if starts_with(f, "Test") {
                if test.is_some() {
                    return Err(EngineError::DuplicateKey);
                }
                let v = match value_after_colon(f) {
                    Ok(v) => v,
                    Err(e) => {
                        return Err(e);
                    },
                };
                match compile_expression(v.as_str()) {
                    Ok(t) => {
                        test = Some(t);
                    },
                    Err(e) => {
                        return Err(e);
                    },
                }
            } else if starts_with(f, "Message") {
                if message.is_some() {
                    return Err(EngineError::DuplicateKey);
                }
                let v = match value_after_colon(f) {
                    Ok(v) => v,
                    Err(e) => {
                        return Err(e);
                    },
                };
                match unquote(&v) {
                    Ok(m) => {
                        message = Some(m);
                    },
                    Err(e) => {
                        return Err(e);
                    },
                }
            } else if starts_with(f, "Hint") {
                if hint.is_some() {
                    return Err(EngineError::DuplicateKey);
                }
                let v = match value_after_colon(f) {
                    Ok(v) => v,
                    Err(e) => {
                        return Err(e);
                    },
                };
                match unquote(&v) {
                    Ok(h) => {
                        hint = Some(h);
                    },
                    Err(e) => {
                        return Err(e);
                    },
                }
            }
            i += 1;
        }
        match test {
            Some(t) => Ok(Warning { test: t, message, hint }),
            None => Err(EngineError::MissingTest),
        }
    }
}

} // verus!
