//! The values that flow through the calculator: field patterns, tokens and
//! their payloads, with the comparisons that rule matching uses.
use vstd::prelude::*;
use std::rc::Rc;
use crate::text::{spec_lowercase, spec_replace, spec_decimal, text_eq, to_lowercase, replace, push_char, append_str, chars_of, int_to_string};

verus! {

/// `Rc::clone`: another pointer to the same value.
#[verifier::external_body]
pub(crate) fn share<T>(rc: &Rc<T>) -> (res: Rc<T>)
    ensures
        res == *rc,
{
    Rc::clone(rc)
}

/// A copy of a list of strings.
pub fn copy_strings(v: &Vec<String>) -> (r: Vec<String>)
    ensures
        r@ == v@,
{
    let mut r: Vec<String> = Vec::new();
    let mut i: usize = 0;
    while i < v.len()
        invariant
            i <= v.len(),
            r@ == v@.subrange(0, i as int),
        decreases v.len() - i,
    {
        r.push(v[i].clone());
        i = i + 1;
        assert(r@ =~= v@.subrange(0, i as int));
    }
    assert(v@.subrange(0, v.len() as int) =~= v@);
    r
}

/// A copy of an optional string.
pub fn copy_opt_string(v: &Option<String>) -> (r: Option<String>)
    ensures
        r == *v,
{
    match v {
        Some(s) => Some(s.clone()),
        None => None,
    }
}

/// Whether two lists of strings hold the same texts in the same order.
pub fn strings_eq(a: &Vec<String>, b: &Vec<String>) -> (r: bool)
    ensures
        r == (a@.len() == b@.len() && forall|i: int| 0 <= i < a@.len() ==> #[trigger] a@[i]@ == b@[i]@),
{
    if a.len() != b.len() {
        return false;
    }
    let mut i: usize = 0;
    while i < a.len()
        invariant
            a.len() == b.len(),
            i <= a.len(),
            forall|j: int| 0 <= j < i ==> #[trigger] a@[j]@ == b@[j]@,
        decreases a.len() - i,
    {
        if !text_eq(a[i].as_str(), b[i].as_str()) {
            return false;
        }
        i = i + 1;
    }
    true
}

/// Whether two texts are equal once both are lower-cased.
pub open spec fn same_ignoring_case(a: Seq<char>, b: Seq<char>) -> bool {
    spec_lowercase(a) == spec_lowercase(b)
}

pub fn eq_ignoring_case(a: &str, b: &str) -> (r: bool)
    ensures
        r == same_ignoring_case(a@, b@),
{
    let la = to_lowercase(a);
    let lb = to_lowercase(b);
    text_eq(la.as_str(), lb.as_str())
}

// ---------------------------------------------------------------------
// Field patterns
// ---------------------------------------------------------------------

/// The kind of value a field of a rule pattern accepts, with the name the
/// pattern gives it (`{NUMBER:count}`, `{TEXT:surname:baris}`, ...).
#[derive(Clone, Debug)]
pub enum FieldType {
    Text(String, Option<String>),
    DateTime(String),
    Date(String),
    Time(String),
    Money(String),
    Percent(String),
    Number(String),
    Group(String, Vec<String>),
    TypeGroup(Vec<String>, String),
    Month(String),
    Duration(String),
    Timezone(String),
    DynamicType(String, Option<String>),
}

/// The upper-case type name that rule patterns use for a field kind.
pub open spec fn spec_field_type_name(field: FieldType) -> Seq<char> {
    match field {
        FieldType::Text(_, _) => "TEXT"@,
        FieldType::Date(_) => "DATE"@,
        FieldType::DateTime(_) => "DATE_TIME"@,
        FieldType::Time(_) => "TIME"@,
        FieldType::Money(_) => "MONEY"@,
        FieldType::Percent(_) => "PERCENT"@,
        FieldType::Number(_) => "NUMBER"@,
        FieldType::Group(_, _) => "GROUP"@,
        FieldType::TypeGroup(_, _) => "TYPE_GROUP"@,
        FieldType::Month(_) => "MONTH"@,
        FieldType::Duration(_) => "DURATION"@,
        FieldType::Timezone(_) => "TIMEZONE"@,
        FieldType::DynamicType(_, _) => "DYNAMIC_TYPE"@,
    }
}

/// The name a pattern gives to a field.
pub open spec fn spec_field_name(field: FieldType) -> String {
    match field {
        FieldType::Text(name, _) => name,
        FieldType::DateTime(name) => name,
        FieldType::Date(name) => name,
        FieldType::Time(name) => name,
        FieldType::Money(name) => name,
        FieldType::Percent(name) => name,
        FieldType::Number(name) => name,
        FieldType::Month(name) => name,
        FieldType::Duration(name) => name,
        FieldType::Group(name, _) => name,
        FieldType::TypeGroup(_, name) => name,
        FieldType::Timezone(name) => name,
        FieldType::DynamicType(name, _) => name,
    }
}

/// When two field patterns are the same: same kind and same name (text
/// names compared without case); word groups compare their words, type
/// groups their types and name.
pub open spec fn spec_field_eq(l: FieldType, r: FieldType) -> bool {
    match (l, r) {
        (FieldType::Timezone(a), FieldType::Timezone(b)) => a@ == b@,
        (FieldType::Percent(a), FieldType::Percent(b)) => a@ == b@,
        (FieldType::Number(a), FieldType::Number(b)) => a@ == b@,
        (FieldType::Text(a, _), FieldType::Text(b, _)) => same_ignoring_case(a@, b@),
        (FieldType::Date(a), FieldType::Date(b)) => a@ == b@,
        (FieldType::DateTime(a), FieldType::DateTime(b)) => a@ == b@,
        (FieldType::Time(a), FieldType::Time(b)) => a@ == b@,
        (FieldType::Money(a), FieldType::Money(b)) => a@ == b@,
        (FieldType::Month(a), FieldType::Month(b)) => a@ == b@,
        (FieldType::Duration(a), FieldType::Duration(b)) => a@ == b@,
        (FieldType::Group(_, a), FieldType::Group(_, b)) => a@.len() == b@.len()
            && forall|i: int| 0 <= i < a@.len() ==> #[trigger] a@[i]@ == b@[i]@,
        (FieldType::DynamicType(a, _), FieldType::DynamicType(b, _)) => a@ == b@,
        (FieldType::TypeGroup(a1, a2), FieldType::TypeGroup(b1, b2)) => a1@.len() == b1@.len()
            && (forall|i: int| 0 <= i < a1@.len() ==> #[trigger] a1@[i]@ == b1@[i]@) && a2@ == b2@,
        (_, _) => false,
    }
}

impl FieldType {
    pub fn type_label(&self) -> (name: String)
        ensures
            name@ == spec_field_type_name(*self),
    {
        match self {
            FieldType::Text(_, _) => String::from_str("TEXT"),
            FieldType::Date(_) => String::from_str("DATE"),
            FieldType::DateTime(_) => String::from_str("DATE_TIME"),
            FieldType::Time(_) => String::from_str("TIME"),
            FieldType::Money(_) => String::from_str("MONEY"),
            FieldType::Percent(_) => String::from_str("PERCENT"),
            FieldType::Number(_) => String::from_str("NUMBER"),
            FieldType::Group(_, _) => String::from_str("GROUP"),
            FieldType::TypeGroup(_, _) => String::from_str("TYPE_GROUP"),
            FieldType::Month(_) => String::from_str("MONTH"),
            FieldType::Duration(_) => String::from_str("DURATION"),
            FieldType::Timezone(_) => String::from_str("TIMEZONE"),
            FieldType::DynamicType(_, _) => String::from_str("DYNAMIC_TYPE"),
        }
    }

    /// The name the pattern gives to this field.
    pub fn name(&self) -> (name: String)
        ensures
            name == spec_field_name(*self),
    {
        match self {
            FieldType::Text(name, _) => name.clone(),
            FieldType::DateTime(name) => name.clone(),
            FieldType::Date(name) => name.clone(),
            FieldType::Time(name) => name.clone(),
            FieldType::Money(name) => name.clone(),
            FieldType::Percent(name) => name.clone(),
            FieldType::Number(name) => name.clone(),
            FieldType::Month(name) => name.clone(),
            FieldType::Duration(name) => name.clone(),
            FieldType::Group(name, _) => name.clone(),
            FieldType::TypeGroup(_, name) => name.clone(),
            FieldType::Timezone(name) => name.clone(),
            FieldType::DynamicType(name, _) => name.clone(),
        }
    }

    pub fn same_field(&self, other: &FieldType) -> (r: bool)
        ensures
            r == spec_field_eq(*self, *other),
    {
        match (self, other) {
            (FieldType::Timezone(a), FieldType::Timezone(b)) => text_eq(a.as_str(), b.as_str()),
            (FieldType::Percent(a), FieldType::Percent(b)) => text_eq(a.as_str(), b.as_str()),
            (FieldType::Number(a), FieldType::Number(b)) => text_eq(a.as_str(), b.as_str()),
            (FieldType::Text(a, _), FieldType::Text(b, _)) => eq_ignoring_case(a.as_str(), b.as_str()),
            (FieldType::Date(a), FieldType::Date(b)) => text_eq(a.as_str(), b.as_str()),
            (FieldType::DateTime(a), FieldType::DateTime(b)) => text_eq(a.as_str(), b.as_str()),
            (FieldType::Time(a), FieldType::Time(b)) => text_eq(a.as_str(), b.as_str()),
            (FieldType::Money(a), FieldType::Money(b)) => text_eq(a.as_str(), b.as_str()),
            (FieldType::Month(a), FieldType::Month(b)) => text_eq(a.as_str(), b.as_str()),
            (FieldType::Duration(a), FieldType::Duration(b)) => text_eq(a.as_str(), b.as_str()),
            (FieldType::Group(_, a), FieldType::Group(_, b)) => strings_eq(a, b),
            (FieldType::DynamicType(a, _), FieldType::DynamicType(b, _)) => text_eq(a.as_str(), b.as_str()),
            (FieldType::TypeGroup(a1, a2), FieldType::TypeGroup(b1, b2)) => strings_eq(a1, b1) && text_eq(a2.as_str(), b2.as_str()),
            (_, _) => false,
        }
    }
}

// ---------------------------------------------------------------------
// Payloads
// ---------------------------------------------------------------------

/// How a number token was written.
#[derive(Clone, Copy, Debug, PartialEq, Eq, Structural)]
pub enum NumberType {
    Decimal,
    Octal,
    Hexadecimal,
    Binary,
    Raw,
}

/// A named offset from UTC, in minutes.
#[derive(Clone, Debug)]
pub struct TimeOffset {
    pub name: String,
    pub offset: i32,
}

impl TimeOffset {
    pub fn same_offset(&self, other: &TimeOffset) -> (r: bool)
        ensures
            r == (self.name@ == other.name@ && self.offset == other.offset),
    {
        text_eq(self.name.as_str(), other.name.as_str()) && self.offset == other.offset
    }

    pub fn duplicate(&self) -> (r: TimeOffset)
        ensures
            r == *self,
    {
        TimeOffset { name: self.name.clone(), offset: self.offset }
    }
}

/// How amounts of a currency are written. Two currencies are the same when
/// their codes are.
#[derive(Clone, Debug)]
pub struct CurrencyInfo {
    pub code: String,
    pub symbol: String,
    pub thousands_separator: String,
    pub decimal_separator: String,
    pub symbol_on_left: bool,
    pub space_between_amount_and_symbol: bool,
    pub decimal_digits: u8,
}

impl CurrencyInfo {
    pub fn same_currency(&self, other: &CurrencyInfo) -> (r: bool)
        ensures
            r == (self.code@ == other.code@),
    {
        text_eq(self.code.as_str(), other.code.as_str())
    }

    pub fn duplicate(&self) -> (r: CurrencyInfo)
        ensures
            r == *self,
    {
        CurrencyInfo {
            code: self.code.clone(),
            symbol: self.symbol.clone(),
            thousands_separator: self.thousands_separator.clone(),
            decimal_separator: self.decimal_separator.clone(),
            symbol_on_left: self.symbol_on_left,
            space_between_amount_and_symbol: self.space_between_amount_and_symbol,
            decimal_digits: self.decimal_digits,
        }
    }
}

/// 2^63, the sign bit of an IEEE-754 double.
pub open spec fn sign_bit() -> int {
    0x8000_0000_0000_0000
}

/// 2^52: the fraction field of a double is the bits below it.
pub open spec fn fraction_limit() -> int {
    0x10_0000_0000_0000
}

/// Whether the bits of a double encode NaN: all exponent bits set and a
/// non-zero fraction.
pub open spec fn spec_is_nan(bits: u64) -> bool {
    (bits as int / fraction_limit()) % 2048 == 2047 && bits as int % fraction_limit() != 0
}

/// Whether the bits of a double encode zero, of either sign.
pub open spec fn spec_is_zero(bits: u64) -> bool {
    bits as int % sign_bit() == 0
}

/// IEEE-754 equality of two doubles given by their bits: never for NaN,
/// always for the two zeros, otherwise when the bits agree.
pub open spec fn spec_float_eq(a: u64, b: u64) -> bool {
    !spec_is_nan(a) && !spec_is_nan(b) && (a == b || (spec_is_zero(a) && spec_is_zero(b)))
}

/// The bits of `-1.0 * x`: the sign flips; a NaN stays as it is.
pub open spec fn spec_float_negate(bits: u64) -> u64 {
    if spec_is_nan(bits) {
        bits
    } else if bits as int >= sign_bit() {
        (bits - sign_bit()) as u64
    } else {
        (bits + sign_bit()) as u64
    }
}

/// The text of the negation of a number written `display`: a leading `-`
/// is dropped, or one is put in front.
pub open spec fn spec_negate_text(display: Seq<char>) -> Seq<char> {
    if display.len() > 0 && display[0] == '-' {
        display.drop_first()
    } else {
        seq!['-'] + display
    }
}

/// A double, held as its IEEE-754 bits, with the text `Display` writes for
/// it. When `sign_flipped` is set, the double is the negation of the one
/// `display` was written for, and its text is that of the negation.
#[derive(Clone, Debug)]
pub struct NumberValue {
    pub bits: u64,
    pub display: String,
    pub sign_flipped: bool,
}

/// The text `Display` writes for a number.
pub open spec fn spec_number_text(v: NumberValue) -> Seq<char> {
    if v.sign_flipped {
        spec_negate_text(v.display@)
    } else {
        v.display@
    }
}

/// The number multiplied by `-1`: the sign flips, and a NaN stays as it is.
pub open spec fn spec_negated(v: NumberValue) -> NumberValue {
    if spec_is_nan(v.bits) {
        v
    } else {
        NumberValue { bits: spec_float_negate(v.bits), display: v.display, sign_flipped: !v.sign_flipped }
    }
}

/// Negating a number twice gives the number back, text and all; negating
/// a number as read writes it with its sign turned.
pub proof fn lemma_negated_twice(v: NumberValue)
    ensures
        spec_negated(spec_negated(v)) == v,
        !spec_is_nan(v.bits) && !v.sign_flipped ==> spec_number_text(spec_negated(v)) == spec_negate_text(spec_number_text(v)),
{
    if !spec_is_nan(v.bits) {
        let b = v.bits;
        assert(!spec_is_nan(spec_float_negate(b))) by {
            assert(spec_float_negate(b) as int % fraction_limit() == b as int % fraction_limit());
            assert((spec_float_negate(b) as int / fraction_limit()) % 2048 == (b as int / fraction_limit()) % 2048);
        }
        assert(spec_float_negate(spec_float_negate(b)) == b);
    }
}

impl NumberValue {
    pub fn is_nan(&self) -> (r: bool)
        ensures
            r == spec_is_nan(self.bits),
    {
        (self.bits / 0x10_0000_0000_0000u64) % 2048 == 2047 && self.bits % 0x10_0000_0000_0000u64 != 0
    }

    /// IEEE-754 equality of the two numbers.
    pub fn float_eq(&self, other: &NumberValue) -> (r: bool)
        ensures
            r == spec_float_eq(self.bits, other.bits),
    {
        !self.is_nan() && !other.is_nan() && (self.bits == other.bits
            || (self.bits % 0x8000_0000_0000_0000u64 == 0 && other.bits % 0x8000_0000_0000_0000u64 == 0))
    }

    /// The number multiplied by `-1`.
    pub fn negated(&self) -> (r: NumberValue)
        ensures
            r == spec_negated(*self),
    {
        if self.is_nan() {
            return self.duplicate();
        }
        let bits: u64 = if self.bits >= 0x8000_0000_0000_0000u64 {
            self.bits - 0x8000_0000_0000_0000u64
        } else {
            self.bits + 0x8000_0000_0000_0000u64
        };
        NumberValue { bits, display: self.display.clone(), sign_flipped: !self.sign_flipped }
    }

    /// The text `Display` writes for the number.
    pub fn text(&self) -> (r: String)
        ensures
            r@ == spec_number_text(*self),
    {
        if !self.sign_flipped {
            return self.display.clone();
        }
        let chars = chars_of(self.display.as_str());
        let mut text = String::new();
        if chars.len() > 0 && chars[0] == '-' {
            let mut i: usize = 1;
            while i < chars.len()
                invariant
                    chars@ == self.display@,
                    1 <= i <= chars.len(),
                    text@ == chars@.subrange(1, i as int),
                decreases chars.len() - i,
            {
                push_char(&mut text, chars[i]);
                i = i + 1;
                assert(text@ =~= chars@.subrange(1, i as int));
            }
            assert(chars@.subrange(1, chars.len() as int) =~= self.display@.drop_first());
        } else {
            push_char(&mut text, '-');
            append_str(&mut text, self.display.as_str());
        }
        text
    }

    pub fn duplicate(&self) -> (r: NumberValue)
        ensures
            r == *self,
    {
        NumberValue { bits: self.bits, display: self.display.clone(), sign_flipped: self.sign_flipped }
    }
}

/// An instant: whole seconds since the Unix epoch and the nanoseconds past
/// them, with the text the calculator shows for it.
#[derive(Clone, Debug)]
pub struct Moment {
    pub seconds: i64,
    pub nanos: u32,
    pub display: String,
}

/// A calendar day, counted from 1 January of year 1, with the text the
/// calculator shows for it.
#[derive(Clone, Debug)]
pub struct CalendarDate {
    pub days: i32,
    pub display: String,
}

/// A span of time: whole seconds and the nanoseconds past them, with the
/// text the calculator shows for it.
#[derive(Clone, Debug)]
pub struct DurationValue {
    pub seconds: i64,
    pub nanos: i32,
    pub display: String,
}

/// One unit of a user-defined family of units (a dynamic type).
#[derive(Clone, Debug)]
pub struct DynamicTypeRef {
    pub group_name: String,
    pub index: usize,
    pub format: String,
}

/// A variable of the session, by its place in the session's list and its name.
#[derive(Clone, Debug)]
pub struct VariableRef {
    pub index: usize,
    pub name: String,
}

impl Moment {
    pub fn duplicate(&self) -> (r: Moment)
        ensures
            r == *self,
    {
        Moment { seconds: self.seconds, nanos: self.nanos, display: self.display.clone() }
    }
}

impl CalendarDate {
    pub fn duplicate(&self) -> (r: CalendarDate)
        ensures
            r == *self,
    {
        CalendarDate { days: self.days, display: self.display.clone() }
    }
}

impl DurationValue {
    pub fn duplicate(&self) -> (r: DurationValue)
        ensures
            r == *self,
    {
        DurationValue { seconds: self.seconds, nanos: self.nanos, display: self.display.clone() }
    }
}

impl DynamicTypeRef {
    pub fn duplicate(&self) -> (r: DynamicTypeRef)
        ensures
            r == *self,
    {
        DynamicTypeRef { group_name: self.group_name.clone(), index: self.index, format: self.format.clone() }
    }
}

impl VariableRef {
    pub fn duplicate(&self) -> (r: VariableRef)
        ensures
            r == *self,
    {
        VariableRef { index: self.index, name: self.name.clone() }
    }
}

// ---------------------------------------------------------------------
// Tokens
// ---------------------------------------------------------------------

/// A token of a calculation line.
#[derive(Clone, Debug)]
pub enum TokenType {
    Number(NumberValue, NumberType),
    Text(String),
    Time(Moment, TimeOffset),
    Date(CalendarDate, TimeOffset),
    DateTime(Moment, TimeOffset),
    Operator(char),
    Field(Rc<FieldType>),
    Percent(NumberValue),
    DynamicType(NumberValue, DynamicTypeRef),
    Money(NumberValue, CurrencyInfo),
    Variable(VariableRef),
    Month(u32),
    Duration(DurationValue),
    Timezone(String, i32),
}

/// The upper-case type name of a token's kind.
pub open spec fn spec_token_type_name(t: TokenType) -> Seq<char> {
    match t {
        TokenType::Number(_, _) => "NUMBER"@,
        TokenType::Text(_) => "TEXT"@,
        TokenType::Time(_, _) => "TIME"@,
        TokenType::Date(_, _) => "DATE"@,
        TokenType::DateTime(_, _) => "DATE_TIME"@,
        TokenType::Operator(_) => "OPERATOR"@,
        TokenType::Field(_) => "FIELD"@,
        TokenType::Percent(_) => "PERCENT"@,
        TokenType::Money(_, _) => "MONEY"@,
        TokenType::Variable(_) => "VARIABLE"@,
        TokenType::Month(_) => "MONTH"@,
        TokenType::Duration(_) => "DURATION"@,
        TokenType::Timezone(_, _) => "TIMEZONE"@,
        TokenType::DynamicType(_, _) => "DYNAMIC_TYPE"@,
    }
}

/// Whether two fields are of the same kind, whatever they hold.
pub open spec fn same_field_kind(a: FieldType, b: FieldType) -> bool {
    match (a, b) {
        (FieldType::Text(_, _), FieldType::Text(_, _)) => true,
        (FieldType::DateTime(_), FieldType::DateTime(_)) => true,
        (FieldType::Date(_), FieldType::Date(_)) => true,
        (FieldType::Time(_), FieldType::Time(_)) => true,
        (FieldType::Money(_), FieldType::Money(_)) => true,
        (FieldType::Percent(_), FieldType::Percent(_)) => true,
        (FieldType::Number(_), FieldType::Number(_)) => true,
        (FieldType::Group(_, _), FieldType::Group(_, _)) => true,
        (FieldType::TypeGroup(_, _), FieldType::TypeGroup(_, _)) => true,
        (FieldType::Month(_), FieldType::Month(_)) => true,
        (FieldType::Duration(_), FieldType::Duration(_)) => true,
        (FieldType::Timezone(_), FieldType::Timezone(_)) => true,
        (FieldType::DynamicType(_, _), FieldType::DynamicType(_, _)) => true,
        _ => false,
    }
}

/// Whether a field and a token are of the same kind: the eleven kinds that
/// fields and tokens share.
pub open spec fn same_field_token_kind(f: FieldType, t: TokenType) -> bool {
    match (f, t) {
        (FieldType::Text(_, _), TokenType::Text(_)) => true,
        (FieldType::DateTime(_), TokenType::DateTime(_, _)) => true,
        (FieldType::Date(_), TokenType::Date(_, _)) => true,
        (FieldType::Time(_), TokenType::Time(_, _)) => true,
        (FieldType::Money(_), TokenType::Money(_, _)) => true,
        (FieldType::Percent(_), TokenType::Percent(_)) => true,
        (FieldType::Number(_), TokenType::Number(_, _)) => true,
        (FieldType::Month(_), TokenType::Month(_)) => true,
        (FieldType::Duration(_), TokenType::Duration(_)) => true,
        (FieldType::Timezone(_), TokenType::Timezone(_, _)) => true,
        (FieldType::DynamicType(_, _), TokenType::DynamicType(_, _)) => true,
        _ => false,
    }
}

/// Two fields have the same type name exactly when they are of the same
/// kind, whatever they hold.
pub proof fn lemma_field_type_names(a: FieldType, b: FieldType)
    ensures
        spec_field_type_name(a) == spec_field_type_name(b) <==> same_field_kind(a, b),
{
    reveal_strlit("TEXT");
    reveal_strlit("DATE");
    reveal_strlit("DATE_TIME");
    reveal_strlit("TIME");
    reveal_strlit("MONEY");
    reveal_strlit("PERCENT");
    reveal_strlit("NUMBER");
    reveal_strlit("GROUP");
    reveal_strlit("TYPE_GROUP");
    reveal_strlit("MONTH");
    reveal_strlit("DURATION");
    reveal_strlit("TIMEZONE");
    reveal_strlit("DYNAMIC_TYPE");
    reveal_strlit("OPERATOR");
    reveal_strlit("FIELD");
    reveal_strlit("VARIABLE");
    let x = spec_field_type_name(a);
    let y = spec_field_type_name(b);
    if !same_field_kind(a, b) {
        assert(x.len() != y.len() || x[0] != y[0] || x[1] != y[1] || x[3] != y[3]);
    }
}

/// A field and a token have the same type name exactly when they are of
/// one of the kinds they share.
pub proof fn lemma_field_and_token_type_names(f: FieldType, t: TokenType)
    ensures
        spec_field_type_name(f) == spec_token_type_name(t) <==> same_field_token_kind(f, t),
{
    reveal_strlit("TEXT");
    reveal_strlit("DATE");
    reveal_strlit("DATE_TIME");
    reveal_strlit("TIME");
    reveal_strlit("MONEY");
    reveal_strlit("PERCENT");
    reveal_strlit("NUMBER");
    reveal_strlit("GROUP");
    reveal_strlit("TYPE_GROUP");
    reveal_strlit("MONTH");
    reveal_strlit("DURATION");
    reveal_strlit("TIMEZONE");
    reveal_strlit("DYNAMIC_TYPE");
    reveal_strlit("OPERATOR");
    reveal_strlit("FIELD");
    reveal_strlit("VARIABLE");
    let x = spec_field_type_name(f);
    let y = spec_token_type_name(t);
    if !same_field_token_kind(f, t) {
        assert(x.len() != y.len() || x[0] != y[0] || x[1] != y[1] || x[3] != y[3]);
    }
}

/// The text `to_string` gives for a token.
pub open spec fn spec_token_display(t: TokenType) -> Seq<char> {
    match t {
        TokenType::DynamicType(number, dynamic_type) => spec_replace(dynamic_type.format@, "{value}"@, spec_number_text(number)),
        TokenType::Number(number, _) => spec_number_text(number),
        TokenType::Text(text) => text@,
        TokenType::Time(moment, _) => moment.display@,
        TokenType::Date(date, _) => date.display@,
        TokenType::DateTime(moment, _) => moment.display@,
        TokenType::Operator(ch) => seq![ch],
        TokenType::Field(_) => "field"@,
        TokenType::Percent(number) => seq!['%'] + spec_number_text(number),
        TokenType::Money(price, currency) => spec_number_text(price) + seq![' '] + currency.code@,
        TokenType::Variable(var) => var.name@,
        TokenType::Month(month) => spec_decimal(month as int),
        TokenType::Duration(duration) => duration.display@,
        TokenType::Timezone(timezone, offset) => timezone@ + seq![' '] + spec_decimal(offset as int),
    }
}

/// When two tokens are equal: texts without case, numbers and percents as
/// doubles, amounts with their currency code, times and dates with their
/// offset, fields as field patterns; other kinds, and two different kinds,
/// never.
pub open spec fn spec_token_eq(l: TokenType, r: TokenType) -> bool {
    match (l, r) {
        (TokenType::Timezone(a, x), TokenType::Timezone(b, y)) => a@ == b@ && x == y,
        (TokenType::Text(a), TokenType::Text(b)) => same_ignoring_case(a@, b@),
        (TokenType::Number(a, _), TokenType::Number(b, _)) => spec_float_eq(a.bits, b.bits),
        (TokenType::Percent(a), TokenType::Percent(b)) => spec_float_eq(a.bits, b.bits),
        (TokenType::Operator(a), TokenType::Operator(b)) => a == b,
        (TokenType::Variable(a), TokenType::Variable(b)) => a.name@ == b.name@ && a.index == b.index,
        (TokenType::Money(a, x), TokenType::Money(b, y)) => spec_float_eq(a.bits, b.bits) && x.code@ == y.code@,
        (TokenType::Time(a, x), TokenType::Time(b, y)) => a.seconds == b.seconds && a.nanos == b.nanos
            && x.name@ == y.name@ && x.offset == y.offset,
        (TokenType::Month(a), TokenType::Month(b)) => a == b,
        (TokenType::Duration(a), TokenType::Duration(b)) => a.seconds == b.seconds && a.nanos == b.nanos,
        (TokenType::Date(a, x), TokenType::Date(b, y)) => a.days == b.days && x.name@ == y.name@ && x.offset == y.offset,
        (TokenType::Field(a), TokenType::Field(b)) => spec_field_eq(*a, *b),
        (_, _) => false,
    }
}

/// Whether a token fills a field of a pattern.
pub open spec fn spec_field_compare(t: TokenType, field: FieldType) -> bool {
    match (field, t) {
        (FieldType::DynamicType(_, expected), TokenType::DynamicType(_, dynamic_type)) => match expected {
            Some(v) => same_ignoring_case(v@, dynamic_type.group_name@),
            None => true,
        },
        (FieldType::Percent(_), TokenType::Percent(_)) => true,
        (FieldType::Timezone(_), TokenType::Timezone(_, _)) => true,
        (FieldType::Number(_), TokenType::Number(_, _)) => true,
        (FieldType::Text(_, expected), TokenType::Text(text)) => match expected {
            Some(v) => same_ignoring_case(v@, text@),
            None => true,
        },
        (FieldType::Time(_), TokenType::Time(_, _)) => true,
        (FieldType::DateTime(_), TokenType::DateTime(_, _)) => true,
        (FieldType::Date(_), TokenType::Date(_, _)) => true,
        (FieldType::Money(_), TokenType::Money(_, _)) => true,
        (FieldType::Month(_), TokenType::Month(_)) => true,
        (FieldType::Duration(_), TokenType::Duration(_)) => true,
        (FieldType::Group(_, items), TokenType::Text(text)) => exists|i: int|
            0 <= i < items@.len() && same_ignoring_case(#[trigger] items@[i]@, text@),
        (FieldType::TypeGroup(types, _), right) => exists|i: int|
            0 <= i < types@.len() && #[trigger] types@[i]@ == spec_token_type_name(right),
        (_, _) => false,
    }
}

/// Every field fills with a token of its own kind: a token of the kind of a
/// field matches it, unless the field is a text or a dynamic type that
/// expects a given value; and a field other than a group matches no token
/// of another kind.
pub proof fn lemma_field_fills_with_its_kind(t: TokenType, f: FieldType)
    ensures
        same_field_token_kind(f, t) && !(f matches FieldType::Text(_, Some(_))) && !(f matches FieldType::DynamicType(_, Some(_)))
            ==> spec_field_compare(t, f),
        !(f is Group) && !(f is TypeGroup) && spec_field_compare(t, f) ==> same_field_token_kind(f, t),
        f matches FieldType::Text(_, Some(v)) ==> (t matches TokenType::Text(text)
            ==> (spec_field_compare(t, f) <==> spec_lowercase(v@) == spec_lowercase(text@))),
        f matches FieldType::Group(_, items) ==> (t matches TokenType::Text(text)
            ==> (spec_field_compare(t, f) <==> exists|i: int| 0 <= i < items@.len()
                && spec_lowercase(#[trigger] items@[i]@) == spec_lowercase(text@))),
        f matches FieldType::Group(_, _) ==> (!(t is Text) ==> !spec_field_compare(t, f)),
{
}

impl TokenType {
    pub fn type_label(&self) -> (name: String)
        ensures
            name@ == spec_token_type_name(*self),
    {
        match self {
            TokenType::Number(_, _) => String::from_str("NUMBER"),
            TokenType::Text(_) => String::from_str("TEXT"),
            TokenType::Time(_, _) => String::from_str("TIME"),
            TokenType::Date(_, _) => String::from_str("DATE"),
            TokenType::DateTime(_, _) => String::from_str("DATE_TIME"),
            TokenType::Operator(_) => String::from_str("OPERATOR"),
            TokenType::Field(_) => String::from_str("FIELD"),
            TokenType::Percent(_) => String::from_str("PERCENT"),
            TokenType::Money(_, _) => String::from_str("MONEY"),
            TokenType::Variable(_) => String::from_str("VARIABLE"),
            TokenType::Month(_) => String::from_str("MONTH"),
            TokenType::Duration(_) => String::from_str("DURATION"),
            TokenType::Timezone(_, _) => String::from_str("TIMEZONE"),
            TokenType::DynamicType(_, _) => String::from_str("DYNAMIC_TYPE"),
        }
    }

    /// The text `to_string` gives for the token.
    pub fn display(&self) -> (r: String)
        ensures
            r@ == spec_token_display(*self),
    {
        match self {
            TokenType::DynamicType(number, dynamic_type) => {
                let value = number.text();
                replace(dynamic_type.format.as_str(), "{value}", value.as_str())
            },
            TokenType::Number(number, _) => number.text(),
            TokenType::Text(text) => text.clone(),
            TokenType::Time(moment, _) => moment.display.clone(),
            TokenType::Date(date, _) => date.display.clone(),
            TokenType::DateTime(moment, _) => moment.display.clone(),
            TokenType::Operator(ch) => {
                let mut r = String::new();
                push_char(&mut r, *ch);
                assert(r@ =~= seq![*ch]);
                r
            },
            TokenType::Field(_) => String::from_str("field"),
            TokenType::Percent(number) => {
                let value = number.text();
                let mut r = String::new();
                push_char(&mut r, '%');
                append_str(&mut r, value.as_str());
                assert(r@ =~= seq!['%'] + spec_number_text(*number));
                r
            },
            TokenType::Money(price, currency) => {
                let mut r = price.text();
                push_char(&mut r, ' ');
                append_str(&mut r, currency.code.as_str());
                r
            },
            TokenType::Variable(var) => var.name.clone(),
            TokenType::Month(month) => int_to_string(*month as i64),
            TokenType::Duration(duration) => duration.display.clone(),
            TokenType::Timezone(timezone, offset) => {
                let mut r = timezone.clone();
                push_char(&mut r, ' ');
                let n = int_to_string(*offset as i64);
                append_str(&mut r, n.as_str());
                r
            },
        }
    }

    /// Whether this token equals another token.
    pub fn token_eq(&self, other: &TokenType) -> (r: bool)
        ensures
            r == spec_token_eq(*self, *other),
    {
        match (self, other) {
            (TokenType::Timezone(a, x), TokenType::Timezone(b, y)) => text_eq(a.as_str(), b.as_str()) && *x == *y,
            (TokenType::Text(a), TokenType::Text(b)) => eq_ignoring_case(a.as_str(), b.as_str()),
            (TokenType::Number(a, _), TokenType::Number(b, _)) => a.float_eq(b),
            (TokenType::Percent(a), TokenType::Percent(b)) => a.float_eq(b),
            (TokenType::Operator(a), TokenType::Operator(b)) => *a == *b,
            (TokenType::Variable(a), TokenType::Variable(b)) => text_eq(a.name.as_str(), b.name.as_str()) && a.index == b.index,
            (TokenType::Money(a, x), TokenType::Money(b, y)) => a.float_eq(b) && x.same_currency(y),
            (TokenType::Time(a, x), TokenType::Time(b, y)) => a.seconds == b.seconds && a.nanos == b.nanos && x.same_offset(y),
            (TokenType::Month(a), TokenType::Month(b)) => *a == *b,
            (TokenType::Duration(a), TokenType::Duration(b)) => a.seconds == b.seconds && a.nanos == b.nanos,
            (TokenType::Date(a, x), TokenType::Date(b, y)) => a.days == b.days && x.same_offset(y),
            (TokenType::Field(a), TokenType::Field(b)) => a.same_field(b),
            (_, _) => false,
        }
    }

    /// Whether this token fills the given field of a pattern.
    #[verifier::loop_isolation(false)]
    pub fn field_compare(&self, field: &FieldType) -> (r: bool)
        ensures
            r == spec_field_compare(*self, *field),
    {
        match (field, self) {
            (FieldType::DynamicType(_, expected), TokenType::DynamicType(_, dynamic_type)) => match expected {
                Some(v) => eq_ignoring_case(v.as_str(), dynamic_type.group_name.as_str()),
                None => true,
            },
            (FieldType::Percent(_), TokenType::Percent(_)) => true,
            (FieldType::Timezone(_), TokenType::Timezone(_, _)) => true,
            (FieldType::Number(_), TokenType::Number(_, _)) => true,
            (FieldType::Text(_, expected), TokenType::Text(text)) => match expected {
                Some(v) => eq_ignoring_case(v.as_str(), text.as_str()),
                None => true,
            },
            (FieldType::Time(_), TokenType::Time(_, _)) => true,
            (FieldType::DateTime(_), TokenType::DateTime(_, _)) => true,
            (FieldType::Date(_), TokenType::Date(_, _)) => true,
            (FieldType::Money(_), TokenType::Money(_, _)) => true,
            (FieldType::Month(_), TokenType::Month(_)) => true,
            (FieldType::Duration(_), TokenType::Duration(_)) => true,
            (FieldType::Group(_, items), TokenType::Text(text)) => {
                let mut i: usize = 0;
                while i < items.len()
                    invariant
                        i <= items.len(),
                        forall|j: int| 0 <= j < i ==> !same_ignoring_case(#[trigger] items@[j]@, text@),
                    decreases items.len() - i,
                {
                    if eq_ignoring_case(items[i].as_str(), text.as_str()) {
                        assert(same_ignoring_case(items@[i as int]@, text@));
                        return true;
                    }
                    i = i + 1;
                }
                false
            },
            (FieldType::TypeGroup(types, _), right) => {
                let name = right.type_label();
                let mut i: usize = 0;
                while i < types.len()
                    invariant
                        i <= types.len(),
                        name@ == spec_token_type_name(*right),
                        forall|j: int| 0 <= j < i ==> #[trigger] types@[j]@ != spec_token_type_name(*right),
                    decreases types.len() - i,
                {
                    if text_eq(types[i].as_str(), name.as_str()) {
                        assert(types@[i as int]@ == spec_token_type_name(*right));
                        return true;
                    }
                    i = i + 1;
                }
                false
            },
            (_, _) => false,
        }
    }

    pub fn duplicate(&self) -> (r: TokenType)
        ensures
            r == *self,
    {
        match self {
            TokenType::Number(a, b) => TokenType::Number(a.duplicate(), *b),
            TokenType::Text(a) => TokenType::Text(a.clone()),
            TokenType::Time(a, b) => TokenType::Time(a.duplicate(), b.duplicate()),
            TokenType::Date(a, b) => TokenType::Date(a.duplicate(), b.duplicate()),
            TokenType::DateTime(a, b) => TokenType::DateTime(a.duplicate(), b.duplicate()),
            TokenType::Operator(a) => TokenType::Operator(*a),
            TokenType::Field(a) => TokenType::Field(share(a)),
            TokenType::Percent(a) => TokenType::Percent(a.duplicate()),
            TokenType::DynamicType(a, b) => TokenType::DynamicType(a.duplicate(), b.duplicate()),
            TokenType::Money(a, b) => TokenType::Money(a.duplicate(), b.duplicate()),
            TokenType::Variable(a) => TokenType::Variable(a.duplicate()),
            TokenType::Month(a) => TokenType::Month(*a),
            TokenType::Duration(a) => TokenType::Duration(a.duplicate()),
            TokenType::Timezone(a, b) => TokenType::Timezone(a.clone(), *b),
        }
    }
}

/// Characters that end a line, and characters that separate words.
pub trait CharTraits {
    spec fn spec_is_new_line(&self) -> bool;

    spec fn spec_is_whitespace(&self) -> bool;

    fn is_new_line(&self) -> (r: bool)
        ensures
            r == self.spec_is_new_line(),
    ;

    fn is_whitespace(&self) -> (r: bool)
        ensures
            r == self.spec_is_whitespace(),
    ;
}

impl CharTraits for char {
    open spec fn spec_is_new_line(&self) -> bool {
        *self == '\n'
    }

    open spec fn spec_is_whitespace(&self) -> bool {
        *self == ' ' || *self == '\r' || *self == '\t'
    }

    fn is_new_line(&self) -> (r: bool) {
        *self == '\n'
    }

    fn is_whitespace(&self) -> (r: bool) {
        *self == ' ' || *self == '\r' || *self == '\t'
    }
}

} // verus!
