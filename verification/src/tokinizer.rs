//! The token list of one calculation line and the passes that tidy it
//! before parsing.
use vstd::prelude::*;
use crate::text::{string_from_chars, text_eq};
use crate::session::Session;
use crate::types::{TokenType, NumberType, NumberValue, spec_token_eq, spec_field_compare, spec_float_eq,
    same_ignoring_case, eq_ignoring_case};

verus! {

/// Whether a token is still part of the line or was consumed by a rule.
#[derive(Clone, Copy, Debug, PartialEq, Eq, Structural)]
pub enum TokenInfoStatus {
    Active,
    Removed,
}

/// A token together with where it stands in the line.
#[derive(Clone, Debug)]
pub struct TokenInfo {
    pub start: usize,
    pub end: usize,
    pub token_type: Option<TokenType>,
    pub original_text: String,
    pub status: TokenInfoStatus,
}

/// The whole text that a pattern matched in the line, by byte offsets.
#[derive(Clone, Debug)]
pub struct CaptureSpan {
    pub start: usize,
    pub end: usize,
    pub text: String,
}

/// When two located tokens are equal: both carry a token, neither was
/// removed, and their tokens agree (texts without case, numbers as doubles,
/// amounts with currency, dates with offset, a field against whatever
/// fills it); months and times never compare equal here.
pub open spec fn spec_info_eq(l: TokenInfo, r: TokenInfo) -> bool {
    match (l.token_type, r.token_type) {
        (Some(a), Some(b)) => l.status == TokenInfoStatus::Active && r.status == TokenInfoStatus::Active
            && spec_token_pair_eq(a, b, false),
        (_, _) => false,
    }
}

/// When a located token equals a bare token: it carries a token that agrees
/// with it as in `spec_info_eq`, months included.
pub open spec fn spec_info_token_eq(l: TokenInfo, r: TokenType) -> bool {
    match l.token_type {
        Some(a) => spec_token_pair_eq(a, r, true),
        None => false,
    }
}

/// The token comparison shared by located tokens; `with_month` says whether
/// two months may compare equal.
pub open spec fn spec_token_pair_eq(a: TokenType, b: TokenType, with_month: bool) -> bool {
    match (a, b) {
        (TokenType::Text(x), TokenType::Text(y)) => same_ignoring_case(x@, y@),
        (TokenType::Number(x, _), TokenType::Number(y, _)) => spec_float_eq(x.bits, y.bits),
        (TokenType::Percent(x), TokenType::Percent(y)) => spec_float_eq(x.bits, y.bits),
        (TokenType::Operator(x), TokenType::Operator(y)) => x == y,
        (TokenType::Date(x, p), TokenType::Date(y, q)) => x.days == y.days && p.name@ == q.name@ && p.offset == q.offset,
        (TokenType::Duration(x), TokenType::Duration(y)) => x.seconds == y.seconds && x.nanos == y.nanos,
        (TokenType::Month(x), TokenType::Month(y)) => with_month && x == y,
        (TokenType::Money(x, p), TokenType::Money(y, q)) => spec_float_eq(x.bits, y.bits) && p.code@ == q.code@,
        (TokenType::Timezone(x, p), TokenType::Timezone(y, q)) => x@ == y@ && p == q,
        (TokenType::Variable(x), TokenType::Variable(y)) => x.name@ == y.name@ && x.index == y.index,
        (TokenType::Field(f), _) => spec_field_compare(b, *f),
        (_, TokenType::Field(f)) => spec_field_compare(a, *f),
        (_, _) => false,
    }
}

pub(crate) fn token_pair_eq(a: &TokenType, b: &TokenType, with_month: bool) -> (r: bool)
    ensures
        r == spec_token_pair_eq(*a, *b, with_month),
{
    match (a, b) {
        (TokenType::Text(x), TokenType::Text(y)) => eq_ignoring_case(x.as_str(), y.as_str()),
        (TokenType::Number(x, _), TokenType::Number(y, _)) => x.float_eq(y),
        (TokenType::Percent(x), TokenType::Percent(y)) => x.float_eq(y),
        (TokenType::Operator(x), TokenType::Operator(y)) => *x == *y,
        (TokenType::Date(x, p), TokenType::Date(y, q)) => x.days == y.days && p.same_offset(q),
        (TokenType::Duration(x), TokenType::Duration(y)) => x.seconds == y.seconds && x.nanos == y.nanos,
        (TokenType::Month(x), TokenType::Month(y)) => with_month && *x == *y,
        (TokenType::Money(x, p), TokenType::Money(y, q)) => x.float_eq(y) && p.same_currency(q),
        (TokenType::Timezone(x, p), TokenType::Timezone(y, q)) => text_eq(x.as_str(), y.as_str()) && *p == *q,
        (TokenType::Variable(x), TokenType::Variable(y)) => text_eq(x.name.as_str(), y.name.as_str()) && x.index == y.index,
        (TokenType::Field(f), _) => b.field_compare(f),
        (_, TokenType::Field(f)) => a.field_compare(f),
        (_, _) => false,
    }
}

/// Comparison of a token of a line with a token of a rule pattern.
pub trait TokenMatch<U> {
    spec fn spec_matches(&self, other: &U) -> bool;

    fn matches(&self, other: &U) -> (r: bool)
        ensures
            r == self.spec_matches(other),
    ;
}

impl TokenMatch<TokenType> for TokenType {
    open spec fn spec_matches(&self, other: &TokenType) -> bool {
        spec_token_eq(*self, *other)
    }

    fn matches(&self, other: &TokenType) -> (r: bool) {
        self.token_eq(other)
    }
}

impl TokenMatch<TokenInfo> for TokenInfo {
    open spec fn spec_matches(&self, other: &TokenInfo) -> bool {
        spec_info_eq(*self, *other)
    }

    fn matches(&self, other: &TokenInfo) -> (r: bool) {
        match (&self.token_type, &other.token_type) {
            (Some(a), Some(b)) => self.status == TokenInfoStatus::Active && other.status == TokenInfoStatus::Active
                && token_pair_eq(a, b, false),
            (_, _) => false,
        }
    }
}

impl TokenMatch<TokenType> for TokenInfo {
    open spec fn spec_matches(&self, other: &TokenType) -> bool {
        spec_info_token_eq(*self, *other)
    }

    fn matches(&self, other: &TokenType) -> (r: bool) {
        match &self.token_type {
            Some(a) => token_pair_eq(a, other, true),
            None => false,
        }
    }
}

// ---------------------------------------------------------------------
// Locating a pattern
// ---------------------------------------------------------------------

/// The scan `find_location` makes: `t` is the next token to look at, `r`
/// how many pattern tokens matched in a row, `s` where that run started.
/// A mismatch restarts the run after the mismatched token, without looking
/// at that token again.
pub open spec fn spec_find_from<T: TokenMatch<U>, U>(tokens: Seq<T>, rule: Seq<U>, t: int, r: int, s: int) -> Option<int>
    decreases tokens.len() - t,
{
    if 0 <= t < tokens.len() {
        let hit = tokens[t].spec_matches(&rule[r]);
        let r2 = if hit { r + 1 } else { 0 };
        let s2 = if hit { s } else { t + 1 };
        if r2 == rule.len() {
            Some(s2)
        } else {
            spec_find_from(tokens, rule, t + 1, r2, s2)
        }
    } else if r == rule.len() {
        Some(s)
    } else {
        None
    }
}

/// Where the scan of `tokens` for the pattern `rule_tokens` finds it.
pub open spec fn spec_find_location<T: TokenMatch<U>, U>(tokens: Seq<T>, rule: Seq<U>) -> Option<int> {
    spec_find_from(tokens, rule, 0, 0, 0)
}

proof fn lemma_find_from_sound<T: TokenMatch<U>, U>(tokens: Seq<T>, rule: Seq<U>, t: int, r: int, s: int)
    requires
        0 <= r < rule.len(),
        0 <= s,
        t == s + r,
        t <= tokens.len(),
        forall|k: int| 0 <= k < r ==> #[trigger] tokens[s + k].spec_matches(&rule[k]),
    ensures
        spec_find_from(tokens, rule, t, r, s) matches Some(p) ==> {
            &&& 0 <= p
            &&& p + rule.len() <= tokens.len()
            &&& forall|k: int| 0 <= k < rule.len() ==> #[trigger] tokens[p + k].spec_matches(&rule[k])
        },
    decreases tokens.len() - t,
{
    if t < tokens.len() {
        let hit = tokens[t].spec_matches(&rule[r]);
        if hit {
            assert forall|k: int| 0 <= k < r + 1 implies #[trigger] tokens[s + k].spec_matches(&rule[k]) by {
                if k == r {
                    assert(s + k == t);
                }
            }
            if r + 1 < rule.len() {
                lemma_find_from_sound(tokens, rule, t + 1, r + 1, s);
            }
        } else {
            lemma_find_from_sound(tokens, rule, t + 1, 0, t + 1);
        }
    }
}

/// Every place where the scan finds the pattern holds the pattern: each
/// pattern token matches the token at the same offset from there.
pub proof fn lemma_find_location_sound<T: TokenMatch<U>, U>(tokens: Seq<T>, rule: Seq<U>)
    requires
        rule.len() > 0,
    ensures
        spec_find_location(tokens, rule) matches Some(p) ==> {
            &&& 0 <= p
            &&& p + rule.len() <= tokens.len()
            &&& forall|k: int| 0 <= k < rule.len() ==> #[trigger] tokens[p + k].spec_matches(&rule[k])
        },
{
    lemma_find_from_sound(tokens, rule, 0, 0, 0);
}

/// Scans `tokens` for the pattern `rule_tokens` and returns where the
/// matching run starts.
pub fn find_location<T: TokenMatch<U>, U>(tokens: &[T], rule_tokens: &[U]) -> (r: Option<usize>)
    requires
        rule_tokens@.len() > 0 || tokens@.len() == 0,
    ensures
        r matches Some(p) ==> spec_find_location(tokens@, rule_tokens@) == Some(p as int),
        r is None ==> spec_find_location(tokens@, rule_tokens@) is None,
{
    let total_rule_token: usize = rule_tokens.len();
    let mut rule_token_index: usize = 0;
    let mut target_token_index: usize = 0;
    let mut start_token_index: usize = 0;
    if tokens.len() == 0 {
        return if total_rule_token == 0 { Some(0) } else { None };
    }
    while target_token_index < tokens.len()
        invariant
            total_rule_token == rule_tokens@.len() > 0,
            target_token_index <= tokens@.len(),
            rule_token_index < total_rule_token,
            start_token_index <= target_token_index,
            spec_find_from(tokens@, rule_tokens@, target_token_index as int, rule_token_index as int,
                start_token_index as int) == spec_find_location(tokens@, rule_tokens@),
        decreases tokens.len() - target_token_index,
    {
        if tokens[target_token_index].matches(&rule_tokens[rule_token_index]) {
            rule_token_index = rule_token_index + 1;
            target_token_index = target_token_index + 1;
        } else {
            rule_token_index = 0;
            target_token_index = target_token_index + 1;
            start_token_index = target_token_index;
        }
        if total_rule_token == rule_token_index {
            return Some(start_token_index);
        }
    }
    None
}

// ---------------------------------------------------------------------
// The token list of a line
// ---------------------------------------------------------------------

/// Whether a located token overlaps the span `start..end` as the tokenizer
/// checks it: the span's start falls inside the token, or its end does.
pub open spec fn spec_overlaps(item: TokenInfo, start: int, end: int) -> bool {
    (item.start <= start && item.end > start) || (item.start < end && item.end >= end)
}

/// No located token overlaps the place of one recorded after it.
pub open spec fn locations_apart(infos: Seq<TokenInfo>) -> bool {
    forall|i: int, j: int| 0 <= i < j < infos.len()
        ==> !spec_overlaps(#[trigger] infos[i], #[trigger] infos[j].start as int, infos[j].end as int)
}

/// Recording a token only where no recorded token overlaps it keeps the
/// recorded tokens apart.
pub proof fn lemma_recording_keeps_locations_apart(infos: Seq<TokenInfo>, added: TokenInfo)
    requires
        locations_apart(infos),
        forall|k: int| 0 <= k < infos.len() ==> !spec_overlaps(#[trigger] infos[k], added.start as int, added.end as int),
    ensures
        locations_apart(infos.push(added)),
{
    let next = infos.push(added);
    assert forall|i: int, j: int| 0 <= i < j < next.len()
        implies !spec_overlaps(#[trigger] next[i], #[trigger] next[j].start as int, next[j].end as int) by {
        if j < infos.len() {
            assert(next[i] == infos[i] && next[j] == infos[j]);
        } else {
            assert(next[i] == infos[i] && next[j] == added);
        }
    }
}

/// The tokens of the located tokens that are active and carry one, in order.
pub open spec fn spec_active_tokens(infos: Seq<TokenInfo>) -> Seq<TokenType>
    decreases infos.len(),
{
    if infos.len() == 0 {
        Seq::empty()
    } else {
        let rest = spec_active_tokens(infos.drop_last());
        let last = infos.last();
        if last.status == TokenInfoStatus::Active && last.token_type is Some {
            rest.push(last.token_type->0)
        } else {
            rest
        }
    }
}

/// Where the expression of a line starts: just after its first `=` token,
/// or at the first token when there is none.
pub open spec fn spec_expression_start(infos: Seq<TokenInfo>) -> nat
    decreases infos.len(),
{
    if infos.len() == 0 {
        0
    } else if infos[0].token_type == Some(TokenType::Operator('=')) {
        1
    } else {
        let rest = spec_expression_start(infos.drop_first());
        if rest == 0 { 0 } else { rest + 1 }
    }
}

/// Whether a token is a text token.
pub open spec fn is_text(t: TokenType) -> bool {
    t is Text
}

/// The tokens with text tokens left out, in order.
pub open spec fn spec_without_texts(tokens: Seq<TokenType>) -> Seq<TokenType>
    decreases tokens.len(),
{
    if tokens.len() == 0 {
        Seq::empty()
    } else {
        let rest = spec_without_texts(tokens.drop_last());
        if is_text(tokens.last()) { rest } else { rest.push(tokens.last()) }
    }
}

/// Whether a token is an operator.
pub open spec fn is_operator(t: TokenType) -> bool {
    t is Operator
}

/// Whether a token is the decimal number zero, written `0`.
pub open spec fn is_zero_token(t: TokenType) -> bool {
    &&& t matches TokenType::Number(v, n)
    &&& v.bits == 0
    &&& v.display@ == seq!['0']
    &&& !v.sign_flipped
    &&& n == NumberType::Decimal
}

/// The operator `+`, as a token.
pub open spec fn spec_plus_token() -> TokenType {
    TokenType::Operator('+')
}

/// An operand met while an operand is still waiting for its operator gets
/// a `+` in front of it.
pub open spec fn spec_join_operands(tokens: Seq<TokenType>, operator_required: bool) -> Seq<TokenType>
    decreases tokens.len(),
{
    if tokens.len() == 0 {
        Seq::empty()
    } else if is_operator(tokens[0]) {
        seq![tokens[0]] + spec_join_operands(tokens.drop_first(), false)
    } else if operator_required {
        seq![spec_plus_token(), tokens[0]] + spec_join_operands(tokens.drop_first(), true)
    } else {
        seq![tokens[0]] + spec_join_operands(tokens.drop_first(), true)
    }
}

/// Where the repair of missing operands and operators starts: after the
/// first `=` or `(`, and after a `(` that follows it.
pub open spec fn spec_repair_start(tokens: Seq<TokenType>) -> int {
    let first = spec_first_assign_or_open(tokens) as int;
    if first < tokens.len() && tokens[first] == TokenType::Operator('(') {
        first + 1
    } else {
        first
    }
}

/// Just after the first `=` or `(` token, or 0 when there is none.
pub open spec fn spec_first_assign_or_open(tokens: Seq<TokenType>) -> nat
    decreases tokens.len(),
{
    if tokens.len() == 0 {
        0
    } else if tokens[0] == TokenType::Operator('=') || tokens[0] == TokenType::Operator('(') {
        1
    } else {
        let rest = spec_first_assign_or_open(tokens.drop_first());
        if rest == 0 { 0 } else { rest + 1 }
    }
}

/// The tokens after missing operands and operators are filled in: from the
/// repair start, a leading operator gets a zero before it, and between two
/// operands a `+` is put. Lines of fewer than two tokens past the first
/// `=` or `(` are left alone.
pub open spec fn spec_add_missing(tokens: Seq<TokenType>, zero: TokenType) -> Seq<TokenType> {
    let first = spec_first_assign_or_open(tokens);
    if tokens.len() == 0 || first + 1 >= tokens.len() {
        tokens
    } else {
        let p = spec_repair_start(tokens);
        let rest = tokens.skip(p);
        if is_operator(rest[0]) {
            tokens.take(p) + spec_join_operands(seq![zero] + rest, false)
        } else {
            tokens.take(p) + spec_join_operands(rest, false)
        }
    }
}

/// No two operands stand side by side.
pub open spec fn no_adjacent_operands(tokens: Seq<TokenType>) -> bool {
    forall|k: int| 0 <= k < tokens.len() - 1 ==> is_operator(#[trigger] tokens[k]) || is_operator(tokens[k + 1])
}

proof fn lemma_join_operands(tokens: Seq<TokenType>, operator_required: bool)
    ensures
        no_adjacent_operands(spec_join_operands(tokens, operator_required)),
        operator_required && tokens.len() > 0 ==> is_operator(spec_join_operands(tokens, operator_required)[0]),
        tokens.len() > 0 && !operator_required && !is_operator(tokens[0])
            ==> spec_join_operands(tokens, operator_required)[0] == tokens[0],
        tokens.len() > 0 ==> spec_join_operands(tokens, operator_required).len() > 0,
    decreases tokens.len(),
{
    if tokens.len() > 0 {
        let rest = tokens.drop_first();
        let out = spec_join_operands(tokens, operator_required);
        if is_operator(tokens[0]) {
            lemma_join_operands(rest, false);
            let tail = spec_join_operands(rest, false);
            assert forall|k: int| 0 <= k < out.len() - 1 implies is_operator(#[trigger] out[k]) || is_operator(out[k + 1]) by {
                if k > 0 {
                    assert(out[k] == tail[k - 1]);
                    assert(out[k + 1] == tail[k]);
                }
            }
        } else {
            lemma_join_operands(rest, true);
            let tail = spec_join_operands(rest, true);
            if operator_required {
                assert forall|k: int| 0 <= k < out.len() - 1 implies is_operator(#[trigger] out[k]) || is_operator(out[k + 1]) by {
                    if k > 1 {
                        assert(out[k] == tail[k - 2]);
                        assert(out[k + 1] == tail[k - 1]);
                    } else if k == 1 {
                        assert(out[k + 1] == tail[0]);
                    }
                }
            } else {
                assert forall|k: int| 0 <= k < out.len() - 1 implies is_operator(#[trigger] out[k]) || is_operator(out[k + 1]) by {
                    if k > 0 {
                        assert(out[k] == tail[k - 1]);
                        assert(out[k + 1] == tail[k]);
                    } else {
                        assert(out[k + 1] == tail[0]);
                    }
                }
            }
        }
    }
}

/// After missing operands and operators are filled in, no two operands of
/// the repaired part stand side by side, and the repaired part does not
/// start with an operator.
pub proof fn lemma_add_missing_joins_operands(tokens: Seq<TokenType>, zero: TokenType)
    requires
        is_zero_token(zero),
    ensures
        ({
            let out = spec_add_missing(tokens, zero);
            let first = spec_first_assign_or_open(tokens);
            tokens.len() > 0 && first + 1 < tokens.len() ==> {
                let p = spec_repair_start(tokens);
                &&& out.take(p) == tokens.take(p)
                &&& no_adjacent_operands(out.skip(p))
                &&& !is_operator(out[p])
            }
        }),
{
    let first = spec_first_assign_or_open(tokens);
    if tokens.len() > 0 && first + 1 < tokens.len() {
        lemma_first_assign_or_open_bound(tokens);
        let p = spec_repair_start(tokens);
        let rest = tokens.skip(p);
        let out = spec_add_missing(tokens, zero);
        if is_operator(rest[0]) {
            let joined = spec_join_operands(seq![zero] + rest, false);
            lemma_join_operands(seq![zero] + rest, false);
            assert(out.skip(p) =~= joined);
            assert(out.take(p) =~= tokens.take(p));
            assert(out[p] == joined[0]);
        } else {
            let joined = spec_join_operands(rest, false);
            lemma_join_operands(rest, false);
            assert(out.skip(p) =~= joined);
            assert(out.take(p) =~= tokens.take(p));
            assert(out[p] == joined[0]);
        }
    }
}

proof fn lemma_first_assign_or_open_bound(tokens: Seq<TokenType>)
    ensures
        0 <= spec_first_assign_or_open(tokens) <= tokens.len(),
        spec_first_assign_or_open(tokens) > 0 ==> {
            let i = spec_first_assign_or_open(tokens) - 1;
            tokens[i] == TokenType::Operator('=') || tokens[i] == TokenType::Operator('(')
        },
        spec_first_assign_or_open(tokens) == 0 ==> forall|j: int| 0 <= j < tokens.len() ==>
            #[trigger] tokens[j] != TokenType::Operator('=') && tokens[j] != TokenType::Operator('('),
        forall|j: int| 0 <= j < spec_first_assign_or_open(tokens) - 1 ==>
            #[trigger] tokens[j] != TokenType::Operator('=') && tokens[j] != TokenType::Operator('('),
    decreases tokens.len(),
{
    if tokens.len() > 0 && !(tokens[0] == TokenType::Operator('=') || tokens[0] == TokenType::Operator('(')) {
        let rest = tokens.drop_first();
        lemma_first_assign_or_open_bound(rest);
        assert forall|j: int| 0 < j < tokens.len() implies #[trigger] tokens[j] == rest[j - 1] by {}
    }
}

/// The token list of one calculation line.
pub struct Tokinizer {
    pub data: String,
    pub language: String,
    pub token_infos: Vec<TokenInfo>,
    pub tokens: Vec<TokenType>,
}

impl TokenInfo {
    pub fn duplicate(&self) -> (r: TokenInfo)
        ensures
            r == *self,
    {
        TokenInfo {
            start: self.start,
            end: self.end,
            token_type: match &self.token_type {
                Some(t) => Some(t.duplicate()),
                None => None,
            },
            original_text: self.original_text.clone(),
            status: self.status,
        }
    }
}


/// The tokens of a line after text tokens past its expression start are
/// dropped: the tokens before `start` stay as they are.
pub open spec fn spec_clean_tokens(tokens: Seq<TokenType>, start: int) -> Seq<TokenType> {
    if start <= tokens.len() {
        tokens.take(start) + spec_without_texts(tokens.skip(start))
    } else {
        tokens
    }
}

/// Located tokens that carry a token, in their order.
pub open spec fn spec_with_tokens(infos: Seq<TokenInfo>) -> Seq<TokenInfo>
    decreases infos.len(),
{
    if infos.len() == 0 {
        Seq::empty()
    } else {
        let rest = spec_with_tokens(infos.drop_last());
        if infos.last().token_type is Some { rest.push(infos.last()) } else { rest }
    }
}

/// A located token put into a list ordered by start: after every located
/// token of the list that starts no later than it.
pub open spec fn spec_insert_by_start(sorted: Seq<TokenInfo>, item: TokenInfo) -> Seq<TokenInfo>
    decreases sorted.len(),
{
    if sorted.len() == 0 || sorted.last().start <= item.start {
        sorted.push(item)
    } else {
        spec_insert_by_start(sorted.drop_last(), item).push(sorted.last())
    }
}

/// Located tokens in the stable order by where they start: each is put
/// after those before it in the list that start no later than it.
pub open spec fn spec_sort_by_start(items: Seq<TokenInfo>) -> Seq<TokenInfo>
    decreases items.len(),
{
    if items.len() == 0 {
        Seq::empty()
    } else {
        spec_insert_by_start(spec_sort_by_start(items.drop_last()), items.last())
    }
}

/// Located tokens ordered by where they start.
pub open spec fn sorted_by_start(infos: Seq<TokenInfo>) -> bool {
    forall|i: int, j: int| 0 <= i < j < infos.len() ==> #[trigger] infos[i].start <= #[trigger] infos[j].start
}

impl Tokinizer {
    /// A token list for the session's current line, in the session's language.
    pub fn new(session: &Session) -> (r: Tokinizer)
        requires
            session.position < session.text_parts@.len(),
        ensures
            r.data@ == session.text_parts@[session.position as int]@,
            r.language@ == session.language@,
            r.token_infos@.len() == 0,
            r.tokens@.len() == 0,
    {
        Tokinizer {
            data: session.current().clone(),
            language: session.get_language(),
            token_infos: Vec::new(),
            tokens: Vec::new(),
        }
    }

    /// Records a token found at `start..end`, unless it overlaps a token
    /// already recorded; says whether it was recorded.
    pub fn add_token_location(&mut self, start: usize, end: usize, token_type: Option<TokenType>, text: String) -> (r: bool)
        ensures
            r == forall|k: int| 0 <= k < old(self).token_infos@.len()
                ==> !spec_overlaps(#[trigger] old(self).token_infos@[k], start as int, end as int),
            r ==> final(self).token_infos@ == old(self).token_infos@.push(TokenInfo {
                start,
                end,
                token_type,
                original_text: text,
                status: TokenInfoStatus::Active,
            }),
            !r ==> final(self).token_infos@ == old(self).token_infos@,
            final(self).tokens == old(self).tokens,
            final(self).data == old(self).data,
            final(self).language == old(self).language,
    {
        let mut k: usize = 0;
        while k < self.token_infos.len()
            invariant
                k <= self.token_infos@.len(),
                forall|j: int| 0 <= j < k ==> !spec_overlaps(#[trigger] self.token_infos@[j], start as int, end as int),
            decreases self.token_infos@.len() - k,
        {
            let item = &self.token_infos[k];
            if (item.start <= start && item.end > start) || (item.start < end && item.end >= end) {
                return false;
            }
            k = k + 1;
        }
        self.token_infos.push(TokenInfo {
            start,
            end,
            token_type,
            original_text: text,
            status: TokenInfoStatus::Active,
        });
        true
    }

    /// Records the token a pattern matched, where it matched.
    pub fn add_token_from_match(&mut self, capture: &Option<CaptureSpan>, token_type: Option<TokenType>) -> (r: bool)
        ensures
            capture is None ==> !r && *final(self) == *old(self),
            capture matches Some(c) ==> {
                &&& r == forall|k: int| 0 <= k < old(self).token_infos@.len()
                    ==> !spec_overlaps(#[trigger] old(self).token_infos@[k], c.start as int, c.end as int)
                &&& r ==> final(self).token_infos@ == old(self).token_infos@.push(TokenInfo {
                    start: c.start,
                    end: c.end,
                    token_type,
                    original_text: c.text,
                    status: TokenInfoStatus::Active,
                })
                &&& !r ==> final(self).token_infos@ == old(self).token_infos@
            },
            final(self).tokens == old(self).tokens,
            final(self).data == old(self).data,
            final(self).language == old(self).language,
    {
        match capture {
            Some(content) => self.add_token_location(content.start, content.end, token_type, content.text.clone()),
            None => false,
        }
    }

    /// Appends the tokens of the active located tokens, in order.
    pub fn token_generator(&mut self)
        ensures
            final(self).tokens@ == old(self).tokens@ + spec_active_tokens(old(self).token_infos@),
            final(self).token_infos == old(self).token_infos,
            final(self).data == old(self).data,
            final(self).language == old(self).language,
    {
        let mut k: usize = 0;
        let ghost start_tokens = self.tokens@;
        while k < self.token_infos.len()
            invariant
                k <= self.token_infos@.len(),
                start_tokens == old(self).tokens@,
                self.token_infos == old(self).token_infos,
                self.data == old(self).data,
                self.language == old(self).language,
                self.tokens@ == start_tokens + spec_active_tokens(self.token_infos@.take(k as int)),
            decreases self.token_infos@.len() - k,
        {
            let info = &self.token_infos[k];
            assert(self.token_infos@.take(k + 1).drop_last() =~= self.token_infos@.take(k as int));
            if info.status == TokenInfoStatus::Active {
                match &info.token_type {
                    Some(t) => {
                        let copy = t.duplicate();
                        self.tokens.push(copy);
                    },
                    None => {},
                }
            }
            k = k + 1;
            assert(self.tokens@ =~= start_tokens + spec_active_tokens(self.token_infos@.take(k as int)));
        }
        assert(self.token_infos@.take(k as int) =~= self.token_infos@);
    }

    /// Drops the text tokens that follow the expression start of the line.
    pub fn token_cleaner(&mut self)
        ensures
            final(self).tokens@ == spec_clean_tokens(old(self).tokens@, spec_expression_start(old(self).token_infos@) as int),
            final(self).token_infos == old(self).token_infos,
            final(self).data == old(self).data,
            final(self).language == old(self).language,
    {
        let start = self.expression_start();
        if start > self.tokens.len() {
            return;
        }
        let ghost orig = self.tokens@;
        let mut kept: Vec<TokenType> = Vec::new();
        let mut k: usize = 0;
        while k < start
            invariant
                start <= orig.len(),
                self.tokens@ == orig,
                k <= start,
                kept@ == orig.take(k as int),
            decreases start - k,
        {
            kept.push(self.tokens[k].duplicate());
            k = k + 1;
            assert(kept@ =~= orig.take(k as int));
        }
        while k < self.tokens.len()
            invariant
                start <= k <= orig.len(),
                self.tokens@ == orig,
                kept@ == orig.take(start as int) + spec_without_texts(orig.subrange(start as int, k as int)),
            decreases orig.len() - k,
        {
            assert(orig.subrange(start as int, k + 1).drop_last() =~= orig.subrange(start as int, k as int));
            let is_text_token = match &self.tokens[k] {
                TokenType::Text(_) => true,
                _ => false,
            };
            if !is_text_token {
                kept.push(self.tokens[k].duplicate());
            }
            k = k + 1;
            assert(kept@ =~= orig.take(start as int) + spec_without_texts(orig.subrange(start as int, k as int)));
        }
        assert(orig.subrange(start as int, orig.len() as int) =~= orig.skip(start as int));
        self.tokens = kept;
    }

    /// Puts a `0` before an expression that starts with an operator, and a
    /// `+` between two operands that stand side by side.
    pub fn missing_token_adder(&mut self)
        ensures
            exists|zero: TokenType| is_zero_token(zero)
                && final(self).tokens@ == spec_add_missing(old(self).tokens@, zero),
            final(self).token_infos == old(self).token_infos,
            final(self).data == old(self).data,
            final(self).language == old(self).language,
    {
        let zero = zero_token();
        let ghost orig = self.tokens@;
        if self.tokens.len() == 0 {
            assert(self.tokens@ == spec_add_missing(orig, zero));
            return;
        }
        let first = self.first_assign_or_open();
        proof {
            lemma_first_assign_or_open_bound(orig);
        }
        if first >= self.tokens.len() - 1 {
            assert(self.tokens@ == spec_add_missing(orig, zero));
            return;
        }
        let mut p: usize = first;
        let is_open = match &self.tokens[p] {
            TokenType::Operator(c) => *c == '(',
            _ => false,
        };
        if is_open {
            p = p + 1;
        }
        assert(p == spec_repair_start(orig));
        let mut out: Vec<TokenType> = Vec::new();
        let mut k: usize = 0;
        while k < p
            invariant
                p <= orig.len(),
                self.tokens@ == orig,
                k <= p,
                out@ == orig.take(k as int),
            decreases p - k,
        {
            out.push(self.tokens[k].duplicate());
            k = k + 1;
            assert(out@ =~= orig.take(k as int));
        }
        let ghost rest = orig.skip(p as int);
        let starts_with_operator = match &self.tokens[p] {
            TokenType::Operator(_) => true,
            _ => false,
        };
        let ghost input = if starts_with_operator { seq![zero] + rest } else { rest };
        let mut operator_required = false;
        let ghost done: int = if starts_with_operator { 1 } else { 0 };
        proof {
            if starts_with_operator {
                assert(input.drop_first() =~= rest);
                assert(input.skip(done) =~= rest);
            } else {
                assert(input.skip(done) =~= input);
            }
        }
        if starts_with_operator {
            out.push(zero);
            operator_required = true;
        }
        while k < self.tokens.len()
            invariant
                p <= k <= orig.len(),
                self.tokens@ == orig,
                rest == orig.skip(p as int),
                input == if starts_with_operator { seq![zero] + rest } else { rest },
                done == if starts_with_operator { 1int } else { 0int },
                out@ + spec_join_operands(input.skip(done + k - p), operator_required)
                    == orig.take(p as int) + spec_join_operands(input, false),
            decreases orig.len() - k,
        {
            let ghost tail = input.skip(done + k - p);
            assert(tail[0] == orig[k as int]);
            assert(tail.drop_first() =~= input.skip(done + k + 1 - p));
            let is_op = match &self.tokens[k] {
                TokenType::Operator(_) => true,
                _ => false,
            };
            if is_op {
                out.push(self.tokens[k].duplicate());
                operator_required = false;
            } else {
                if operator_required {
                    out.push(TokenType::Operator('+'));
                }
                out.push(self.tokens[k].duplicate());
                operator_required = true;
            }
            k = k + 1;
        }
        assert(input.skip(done + k - p) =~= Seq::<TokenType>::empty());
        assert(out@ =~= spec_add_missing(orig, zero));
        self.tokens = out;
    }

    /// Just after the first `=` or `(` among the tokens, or 0 when there is none.
    fn first_assign_or_open(&self) -> (r: usize)
        ensures
            r == spec_first_assign_or_open(self.tokens@),
    {
        let mut k: usize = 0;
        assert(self.tokens@.skip(0) =~= self.tokens@);
        while k < self.tokens.len()
            invariant
                k <= self.tokens@.len(),
                spec_first_assign_or_open(self.tokens@) == if spec_first_assign_or_open(self.tokens@.skip(k as int)) == 0 {
                    0
                } else {
                    spec_first_assign_or_open(self.tokens@.skip(k as int)) + k
                },
            decreases self.tokens@.len() - k,
        {
            let hit = match &self.tokens[k] {
                TokenType::Operator(c) => *c == '=' || *c == '(',
                _ => false,
            };
            let ghost tail = self.tokens@.skip(k as int);
            assert(tail[0] == self.tokens@[k as int]);
            assert(tail.drop_first() =~= self.tokens@.skip(k + 1));
            if hit {
                return k + 1;
            }
            assert(spec_first_assign_or_open(tail) == if spec_first_assign_or_open(self.tokens@.skip(k + 1)) == 0 {
                0
            } else {
                spec_first_assign_or_open(self.tokens@.skip(k + 1)) + 1
            });
            k = k + 1;
        }
        assert(self.tokens@.skip(k as int) =~= Seq::<TokenType>::empty());
        0
    }

    /// Keeps the located tokens that carry a token and orders them by where
    /// they start; located tokens that start at the same place keep their order.
    pub fn cleanup_token_infos(&mut self)
        ensures
            final(self).token_infos@ == spec_sort_by_start(spec_with_tokens(old(self).token_infos@)),
            final(self).token_infos@.to_multiset() == spec_with_tokens(old(self).token_infos@).to_multiset(),
            sorted_by_start(final(self).token_infos@),
            final(self).tokens == old(self).tokens,
            final(self).data == old(self).data,
            final(self).language == old(self).language,
    {
        let ghost orig = self.token_infos@;
        let mut kept: Vec<TokenInfo> = Vec::new();
        let mut k: usize = 0;
        while k < self.token_infos.len()
            invariant
                k <= orig.len(),
                self.token_infos@ == orig,
                kept@ == spec_with_tokens(orig.take(k as int)),
            decreases orig.len() - k,
        {
            assert(orig.take(k + 1).drop_last() =~= orig.take(k as int));
            if self.token_infos[k].token_type.is_some() {
                kept.push(self.token_infos[k].duplicate());
            }
            k = k + 1;
        }
        assert(orig.take(k as int) =~= orig);
        let sorted = sort_by_start(kept);
        self.token_infos = sorted;
    }
}

proof fn lemma_insert_keeps_sorted(before: Seq<TokenInfo>, pos: int, item: TokenInfo)
    requires
        sorted_by_start(before),
        0 <= pos <= before.len(),
        pos > 0 ==> before[pos - 1].start <= item.start,
        forall|j: int| pos <= j < before.len() ==> #[trigger] before[j].start > item.start,
    ensures
        sorted_by_start(before.insert(pos, item)),
{
    let r = before.insert(pos, item);
    before.insert_ensures(pos, item);
    assert forall|i: int, j: int| 0 <= i < j < r.len() implies #[trigger] r[i].start <= #[trigger] r[j].start by {
        if j < pos {
        } else if i < pos && j == pos {
            assert(before[i].start <= before[pos - 1].start);
        } else if i < pos {
            assert(r[j] == before[j - 1]);
        } else if i == pos {
            assert(r[j] == before[j - 1]);
        } else {
            assert(r[i] == before[i - 1]);
            assert(r[j] == before[j - 1]);
        }
    }
}

/// Orders located tokens by where they start, by insertion; located tokens
/// that start at the same place keep their order.
fn sort_by_start(items: Vec<TokenInfo>) -> (r: Vec<TokenInfo>)
    ensures
        r@ == spec_sort_by_start(items@),
        r@.to_multiset() == items@.to_multiset(),
        sorted_by_start(r@),
{
    let mut r: Vec<TokenInfo> = Vec::new();
    let mut k: usize = 0;
    let ghost orig = items@;
    assert(r@ =~= orig.take(0));
    while k < items.len()
        invariant
            k <= items@.len(),
            items@ == orig,
            r@ == spec_sort_by_start(orig.take(k as int)),
            r@.to_multiset() == orig.take(k as int).to_multiset(),
            sorted_by_start(r@),
        decreases items@.len() - k,
    {
        let item = items[k].duplicate();
        let mut pos: usize = r.len();
        assert(r@.take(pos as int) =~= r@);
        assert(r@.skip(pos as int) =~= Seq::<TokenInfo>::empty());
        assert(spec_insert_by_start(r@, item) =~= spec_insert_by_start(r@.take(pos as int), item) + r@.skip(pos as int));
        while pos > 0 && r[pos - 1].start > item.start
            invariant
                pos <= r@.len(),
                sorted_by_start(r@),
                forall|j: int| pos <= j < r@.len() ==> #[trigger] r@[j].start > item.start,
                spec_insert_by_start(r@, item) == spec_insert_by_start(r@.take(pos as int), item) + r@.skip(pos as int),
            decreases pos,
        {
            proof {
                let t = r@.take(pos as int);
                assert(t.drop_last() =~= r@.take(pos - 1));
                assert(t.last() == r@[pos - 1]);
                assert(spec_insert_by_start(t, item) == spec_insert_by_start(r@.take(pos - 1), item).push(r@[pos - 1]));
                assert(r@.skip(pos - 1) =~= seq![r@[pos - 1]] + r@.skip(pos as int));
                assert(spec_insert_by_start(r@.take(pos - 1), item).push(r@[pos - 1]) + r@.skip(pos as int)
                    =~= spec_insert_by_start(r@.take(pos - 1), item) + r@.skip(pos - 1));
            }
            pos = pos - 1;
        }
        let ghost before = r@;
        proof {
            assert(spec_insert_by_start(before.take(pos as int), item) == before.take(pos as int).push(item));
            assert(before.take(pos as int).push(item) + before.skip(pos as int) =~= before.insert(pos as int, item));
            assert(orig.take(k + 1).drop_last() =~= orig.take(k as int));
            assert(orig.take(k + 1).last() == orig[k as int]);
            lemma_insert_keeps_sorted(before, pos as int, item);
            vstd::seq_lib::to_multiset_insert(before, pos as int, item);
            assert(orig.take(k + 1) =~= orig.take(k as int).push(orig[k as int]));
            vstd::seq_lib::to_multiset_build(orig.take(k as int), orig[k as int]);
        }
        r.insert(pos, item);
        assert(r@ =~= before.insert(pos as int, item));
        k = k + 1;
    }
    assert(orig.take(k as int) =~= orig);
    r
}

fn zero_token() -> (t: TokenType)
    ensures
        is_zero_token(t),
{
    let mut digits: Vec<char> = Vec::new();
    digits.push('0');
    let display = string_from_chars(&digits);
    proof {
        assert(digits@ =~= seq!['0']);
    }
    TokenType::Number(NumberValue { bits: 0, display, sign_flipped: false }, NumberType::Decimal)
}

/// Whether a token may be read as a percentage: a text token may.
pub fn is_percent_token(token: TokenType, _token_index: usize, _tokens: Vec<TokenType>) -> (r: bool)
    ensures
        r == (token is Text),
{
    match token {
        TokenType::Text(_text) => true,
        _ => false,
    }
}

} // verus!
