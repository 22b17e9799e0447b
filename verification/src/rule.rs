//! Matching the patterns of rules against the located tokens of a line,
//! and putting the token a rule made in place of the tokens it matched.
use vstd::prelude::*;
use crate::types::{TokenType, FieldType, spec_field_name, spec_field_compare, spec_token_eq};
use crate::tokinizer::{TokenInfo, TokenInfoStatus, TokenMatch, Tokinizer, spec_info_eq, spec_active_tokens};

verus! {

/// A field of a rule pattern and the located token that filled it.
pub struct FieldCapture {
    pub name: String,
    pub index: usize,
}

/// The name of the field a pattern token stands for, when it is a field.
pub open spec fn spec_rule_field_name(rule: TokenInfo) -> Option<String> {
    match rule.token_type {
        Some(TokenType::Field(f)) => Some(spec_field_name(*f)),
        _ => None,
    }
}

/// The name of the field a pattern token stands for, when it is a field.
pub fn get_field_name(token: &TokenInfo) -> (r: Option<String>)
    ensures
        r == spec_rule_field_name(*token),
{
    match &token.token_type {
        Some(TokenType::Field(field)) => {
            let f: &FieldType = field;
            Some(f.name())
        },
        _ => None,
    }
}

/// The captures after the located token at `t` matched the pattern token
/// `rule`: a field records the token under its name.
pub open spec fn spec_add_capture(fields: Seq<FieldCapture>, rule: TokenInfo, t: int) -> Seq<FieldCapture> {
    match spec_rule_field_name(rule) {
        Some(name) => fields.push(FieldCapture { name, index: t as usize }),
        None => fields,
    }
}

/// Whether a located token takes part in a match: it is active and carries
/// a token.
pub open spec fn takes_part(info: TokenInfo) -> bool {
    info.status == TokenInfoStatus::Active && info.token_type is Some
}

/// The scan of the located tokens for a rule pattern, from token `t`, with
/// `r` pattern tokens matched since `s`. Removed tokens are passed over;
/// a token without a kind leaves the scan as it is; a variable token
/// matches as `hits` says for it and the pattern token; any other token
/// matches as located tokens compare. A mismatch starts the pattern again
/// after the token. The scan stops when the whole pattern matched, giving
/// the matched count, the start, the position after the last token looked
/// at, and the captured fields.
pub open spec fn spec_find_match(
    rules: Seq<TokenInfo>,
    infos: Seq<TokenInfo>,
    hits: Seq<Vec<bool>>,
    t: int,
    r: int,
    s: int,
    fields: Seq<FieldCapture>,
) -> (int, int, int, Seq<FieldCapture>)
    decreases infos.len() - t,
{
    if t < 0 || t >= infos.len() {
        (r, s, t, fields)
    } else {
        let info = infos[t];
        if info.status == TokenInfoStatus::Removed {
            spec_find_match(rules, infos, hits, t + 1, r, s, fields)
        } else {
            let step: (int, int, Seq<FieldCapture>) = match info.token_type {
                None => (r, s, fields),
                Some(token) => {
                    let same = match token {
                        TokenType::Variable(_) => hits[t]@[r],
                        _ => spec_info_eq(info, rules[r]),
                    };
                    if same {
                        (r + 1, s, spec_add_capture(fields, rules[r], t))
                    } else {
                        (0, t + 1, fields)
                    }
                },
            };
            if step.0 == rules.len() {
                (step.0, step.1, t + 1, step.2)
            } else {
                spec_find_match(rules, infos, hits, t + 1, step.0, step.1, step.2)
            }
        }
    }
}

/// The places of the located tokens in `s..e` that take part in a match,
/// in order.
pub open spec fn spec_part_indices(infos: Seq<TokenInfo>, s: int, e: int) -> Seq<int>
    decreases e - s,
{
    if e <= s {
        Seq::empty()
    } else {
        let prev = spec_part_indices(infos, s, e - 1);
        if takes_part(infos[e - 1]) { prev.push(e - 1) } else { prev }
    }
}

/// Whether a located token fits a pattern token: a variable token as the
/// variable's hit says, any other token as located tokens compare.
pub open spec fn spec_token_fits(info: TokenInfo, rule: TokenInfo, hit: bool) -> bool {
    match info.token_type {
        Some(TokenType::Variable(_)) => hit,
        _ => spec_info_eq(info, rule),
    }
}

/// Whether the located tokens that take part in `s..e` are `r` many and fit
/// the first `r` pattern tokens, in order.
pub open spec fn spec_matched_run(rules: Seq<TokenInfo>, infos: Seq<TokenInfo>, hits: Seq<Vec<bool>>, s: int, e: int, r: int) -> bool {
    let ks = spec_part_indices(infos, s, e);
    &&& ks.len() == r
    &&& forall|i: int| 0 <= i < r ==> #[trigger] spec_token_fits(infos[ks[i]], rules[i], hits[ks[i]]@[i])
}

proof fn lemma_find_match_run(
    rules: Seq<TokenInfo>,
    infos: Seq<TokenInfo>,
    hits: Seq<Vec<bool>>,
    t: int,
    r: int,
    s: int,
    fields: Seq<FieldCapture>,
)
    requires
        0 <= s <= t <= infos.len(),
        0 <= r < rules.len(),
        spec_matched_run(rules, infos, hits, s, t, r),
    ensures
        ({
            let res = spec_find_match(rules, infos, hits, t, r, s, fields);
            &&& res.0 == rules.len() ==> {
                &&& 0 <= res.1 <= res.2 <= infos.len()
                &&& spec_matched_run(rules, infos, hits, res.1, res.2, rules.len() as int)
            }
            &&& res.0 != rules.len() ==> {
                &&& 0 <= res.0 < rules.len()
                &&& 0 <= res.1 <= res.2
                &&& res.2 == infos.len()
                &&& spec_matched_run(rules, infos, hits, res.1, res.2, res.0)
            }
        }),
    decreases infos.len() - t,
{
    if t < infos.len() {
        let info = infos[t];
        let ks = spec_part_indices(infos, s, t);
        if info.status == TokenInfoStatus::Removed {
            assert(spec_part_indices(infos, s, t + 1) == ks);
            lemma_find_match_run(rules, infos, hits, t + 1, r, s, fields);
        } else {
            match info.token_type {
                None => {
                    assert(spec_part_indices(infos, s, t + 1) == ks);
                    lemma_find_match_run(rules, infos, hits, t + 1, r, s, fields);
                },
                Some(token) => {
                    let same = match token {
                        TokenType::Variable(_) => hits[t]@[r],
                        _ => spec_info_eq(info, rules[r]),
                    };
                    assert(same == spec_token_fits(info, rules[r], hits[t]@[r]));
                    if same {
                        let ks2 = spec_part_indices(infos, s, t + 1);
                        assert(takes_part(info));
                        assert(ks2 == ks.push(t));
                        assert forall|i: int| 0 <= i < r + 1 implies #[trigger] spec_token_fits(infos[ks2[i]], rules[i], hits[ks2[i]]@[i]) by {
                            if i < r {
                                assert(ks2[i] == ks[i]);
                            }
                        }
                        assert(spec_matched_run(rules, infos, hits, s, t + 1, r + 1));
                        if r + 1 < rules.len() {
                            lemma_find_match_run(rules, infos, hits, t + 1, r + 1, s, spec_add_capture(fields, rules[r], t));
                        }
                    } else {
                        assert(spec_part_indices(infos, t + 1, t + 1) == Seq::<int>::empty());
                        if 0 < rules.len() {
                            lemma_find_match_run(rules, infos, hits, t + 1, 0, t + 1, fields);
                        }
                    }
                },
            }
        }
    }
}

/// When the scan finds a whole pattern, the located tokens that take part
/// between where the match starts and where the scan stopped are as many as
/// the pattern's tokens, and each fits the pattern token at its place. When
/// it does not, the scan went to the end of the line, and the located tokens
/// that take part from where the last attempt started are fewer than the
/// pattern's tokens and fit its first ones, in order.
pub proof fn lemma_find_match_sound(rules: Seq<TokenInfo>, infos: Seq<TokenInfo>, hits: Seq<Vec<bool>>)
    requires
        rules.len() > 0,
    ensures
        ({
            let res = spec_find_match(rules, infos, hits, 0, 0, 0, Seq::empty());
            &&& res.0 == rules.len() ==> {
                &&& 0 <= res.1 <= res.2 <= infos.len()
                &&& spec_matched_run(rules, infos, hits, res.1, res.2, rules.len() as int)
            }
            &&& res.0 != rules.len() ==> {
                &&& 0 <= res.0 < rules.len()
                &&& 0 <= res.1 <= res.2
                &&& res.2 == infos.len()
                &&& spec_matched_run(rules, infos, hits, res.1, res.2, res.0)
            }
        }),
{
    assert(spec_part_indices(infos, 0, 0) == Seq::<int>::empty());
    lemma_find_match_run(rules, infos, hits, 0, 0, 0, Seq::empty());
}

/// Whether the value of a variable matches a pattern token: a field by the
/// kind of the value, any other pattern token by equality with the value. A
/// pattern token without a kind, or a variable without a value, matches
/// nothing.
pub open spec fn spec_variable_compare(rule: TokenInfo, value: Option<TokenType>) -> bool {
    match (rule.token_type, value) {
        (Some(TokenType::Field(f)), Some(v)) => spec_field_compare(v, *f),
        (Some(t), Some(v)) => spec_token_eq(t, v),
        _ => false,
    }
}

/// Whether the value of a variable matches a pattern token.
pub fn variable_compare(rule_token: &TokenInfo, value: &Option<TokenType>) -> (r: bool)
    ensures
        r == spec_variable_compare(*rule_token, *value),
{
    match (&rule_token.token_type, value) {
        (Some(TokenType::Field(field)), Some(v)) => {
            let f: &FieldType = field;
            v.field_compare(f)
        },
        (Some(t), Some(v)) => t.token_eq(v),
        _ => false,
    }
}

/// Whether a located token names a variable, one of `values`, whose value
/// matches a pattern token.
pub open spec fn spec_variable_hit(info: TokenInfo, rule: TokenInfo, values: Seq<Option<TokenType>>) -> bool {
    match info.token_type {
        Some(TokenType::Variable(v)) => v.index < values.len() && spec_variable_compare(rule, values[v.index as int]),
        _ => false,
    }
}

/// For each located token and each pattern token, whether the located token
/// names a variable whose value, taken from `values` by the variable's
/// place, matches the pattern token.
pub fn variable_hits(infos: &Vec<TokenInfo>, rule_tokens: &Vec<TokenInfo>, values: &Vec<Option<TokenType>>) -> (r: Vec<Vec<bool>>)
    ensures
        r@.len() == infos@.len(),
        forall|k: int| 0 <= k < r@.len() ==> #[trigger] r@[k]@.len() == rule_tokens@.len(),
        forall|k: int, j: int| 0 <= k < r@.len() && 0 <= j < rule_tokens@.len()
            ==> #[trigger] r@[k]@[j] == spec_variable_hit(infos@[k], rule_tokens@[j], values@),
{
    let mut rows: Vec<Vec<bool>> = Vec::new();
    let mut k: usize = 0;
    while k < infos.len()
        invariant
            k <= infos@.len(),
            rows@.len() == k,
            forall|i: int| 0 <= i < k ==> #[trigger] rows@[i]@.len() == rule_tokens@.len(),
            forall|i: int, j: int| 0 <= i < k && 0 <= j < rule_tokens@.len()
                ==> #[trigger] rows@[i]@[j] == spec_variable_hit(infos@[i], rule_tokens@[j], values@),
        decreases infos@.len() - k,
    {
        let mut row: Vec<bool> = Vec::new();
        let mut j: usize = 0;
        while j < rule_tokens.len()
            invariant
                k < infos@.len(),
                j <= rule_tokens@.len(),
                row@.len() == j,
                forall|m: int| 0 <= m < j ==> #[trigger] row@[m] == spec_variable_hit(infos@[k as int], rule_tokens@[m], values@),
            decreases rule_tokens@.len() - j,
        {
            let hit = match &infos[k].token_type {
                Some(TokenType::Variable(v)) => v.index < values.len() && variable_compare(&rule_tokens[j], &values[v.index]),
                _ => false,
            };
            row.push(hit);
            j = j + 1;
        }
        rows.push(row);
        k = k + 1;
    }
    rows
}

/// Scans the located tokens of the line for a rule pattern. `variable_hits`
/// holds, for each located token and each pattern token, whether the value
/// of the variable the token names matches the pattern token. Gives the
/// length of the pattern, how many of its tokens matched, where the match
/// starts, the position after the last token looked at, and the fields the
/// match filled.
pub fn find_match(rule_tokens: &Vec<TokenInfo>, tokinizer: &Tokinizer, variable_hits: &Vec<Vec<bool>>)
    -> (r: (usize, usize, usize, usize, Vec<FieldCapture>))
    requires
        rule_tokens@.len() > 0 || forall|k: int| 0 <= k < tokinizer.token_infos@.len()
            ==> !takes_part(#[trigger] tokinizer.token_infos@[k]),
        variable_hits@.len() == tokinizer.token_infos@.len(),
        forall|k: int| 0 <= k < variable_hits@.len() ==> #[trigger] variable_hits@[k]@.len() == rule_tokens@.len(),
    ensures
        r.0 == rule_tokens@.len(),
        (r.1 as int, r.2 as int, r.3 as int, r.4@) == spec_find_match(
            rule_tokens@, tokinizer.token_infos@, variable_hits@, 0, 0, 0, Seq::empty()),
        r.1 == r.0 && r.0 > 0 ==> r.2 < r.3 <= tokinizer.token_infos@.len(),
{
    let infos = &tokinizer.token_infos;
    let total_rule_token = rule_tokens.len();
    let mut rule_token_index: usize = 0;
    let mut target_token_index: usize = 0;
    let mut start_token_index: usize = 0;
    let mut fields: Vec<FieldCapture> = Vec::new();
    while target_token_index < infos.len()
        invariant_except_break
            rule_token_index < total_rule_token || (total_rule_token == 0 && rule_token_index == 0),
            spec_find_match(rule_tokens@, infos@, variable_hits@, 0, 0, 0, Seq::empty())
                == spec_find_match(rule_tokens@, infos@, variable_hits@, target_token_index as int,
                    rule_token_index as int, start_token_index as int, fields@),
        invariant
            total_rule_token == rule_tokens@.len(),
            rule_tokens@.len() > 0 || forall|k: int| 0 <= k < infos@.len() ==> !takes_part(#[trigger] infos@[k]),
            variable_hits@.len() == infos@.len(),
            forall|k: int| 0 <= k < variable_hits@.len() ==> #[trigger] variable_hits@[k]@.len() == rule_tokens@.len(),
            target_token_index <= infos@.len(),
            start_token_index <= target_token_index,
            rule_token_index > 0 ==> start_token_index < target_token_index,
        ensures
            target_token_index <= infos@.len(),
            start_token_index <= target_token_index,
            rule_token_index > 0 ==> start_token_index < target_token_index,
            spec_find_match(rule_tokens@, infos@, variable_hits@, 0, 0, 0, Seq::empty())
                == (rule_token_index as int, start_token_index as int, target_token_index as int, fields@),
        decreases infos@.len() - target_token_index,
    {
        let t = target_token_index;
        target_token_index = target_token_index + 1;
        if infos[t].status == TokenInfoStatus::Removed {
            continue;
        }
        match &infos[t].token_type {
            None => {},
            Some(token_type) => {
                let same = match token_type {
                    TokenType::Variable(_) => variable_hits[t][rule_token_index],
                    _ => infos[t].matches(&rule_tokens[rule_token_index]),
                };
                if same {
                    match get_field_name(&rule_tokens[rule_token_index]) {
                        Some(field_name) => {
                            fields.push(FieldCapture { name: field_name, index: t });
                        },
                        None => {},
                    }
                    rule_token_index = rule_token_index + 1;
                } else {
                    rule_token_index = 0;
                    start_token_index = target_token_index;
                }
            },
        }
        if total_rule_token == rule_token_index {
            break;
        }
    }
    (total_rule_token, rule_token_index, start_token_index, target_token_index, fields)
}

/// A located token marked removed.
pub open spec fn spec_removed(info: TokenInfo) -> TokenInfo {
    TokenInfo {
        start: info.start,
        end: info.end,
        token_type: info.token_type,
        original_text: info.original_text,
        status: TokenInfoStatus::Removed,
    }
}

proof fn lemma_active_tokens_add(a: Seq<TokenInfo>, b: Seq<TokenInfo>)
    ensures
        spec_active_tokens(a + b) == spec_active_tokens(a) + spec_active_tokens(b),
    decreases b.len(),
{
    if b.len() > 0 {
        assert((a + b).drop_last() =~= a + b.drop_last());
        lemma_active_tokens_add(a, b.drop_last());
        let last = b.last();
        if last.status == TokenInfoStatus::Active && last.token_type is Some {
            let t = last.token_type->Some_0;
            assert(spec_active_tokens(a) + spec_active_tokens(b.drop_last()).push(t)
                =~= (spec_active_tokens(a) + spec_active_tokens(b.drop_last())).push(t));
        }
    } else {
        assert(a + b =~= a);
        assert(spec_active_tokens(a) + Seq::<TokenType>::empty() =~= spec_active_tokens(a));
    }
}

proof fn lemma_removed_give_no_tokens(s: Seq<TokenInfo>)
    requires
        forall|k: int| 0 <= k < s.len() ==> #[trigger] s[k].status == TokenInfoStatus::Removed,
    ensures
        spec_active_tokens(s) == Seq::<TokenType>::empty(),
    decreases s.len(),
{
    if s.len() > 0 {
        lemma_removed_give_no_tokens(s.drop_last());
    }
}

/// After a rule's token replaced the tokens it matched, the tokens of the
/// line are those before the match, the rule's token, and the active ones
/// after the match: the matched tokens are gone from the expression.
pub proof fn lemma_replaced_match_tokens(before: Seq<TokenInfo>, after: Seq<TokenInfo>, start: int, target: int, token: TokenType)
    requires
        0 <= start < target <= before.len(),
        after.len() == before.len() + 1,
        forall|k: int| 0 <= k < start ==> #[trigger] after[k] == before[k],
        after[start].token_type == Some(token),
        after[start].status == TokenInfoStatus::Active,
        forall|k: int| start <= k < target ==> #[trigger] after[k + 1] == spec_removed(before[k]),
        forall|k: int| target <= k < before.len() ==> #[trigger] after[k + 1] == before[k],
    ensures
        spec_active_tokens(after) == spec_active_tokens(before.take(start)) + seq![token]
            + spec_active_tokens(before.skip(target)),
{
    let removed = after.subrange(start + 1, target + 1);
    assert forall|k: int| 0 <= k < removed.len() implies #[trigger] removed[k].status == TokenInfoStatus::Removed by {
        assert(removed[k] == after[start + 1 + k]);
        assert(after[(start + k) + 1] == spec_removed(before[start + k]));
    }
    lemma_removed_give_no_tokens(removed);
    assert(after.take(start) =~= before.take(start));
    assert forall|k: int| 0 <= k < after.skip(target + 1).len() implies after.skip(target + 1)[k] == before.skip(target)[k] by {
        assert(after[(target + k) + 1] == before[target + k]);
    }
    assert(after.skip(target + 1) =~= before.skip(target));
    assert(after =~= after.take(start) + seq![after[start]] + removed + after.skip(target + 1));
    lemma_active_tokens_add(after.take(start) + seq![after[start]] + removed, after.skip(target + 1));
    lemma_active_tokens_add(after.take(start) + seq![after[start]], removed);
    lemma_active_tokens_add(after.take(start), seq![after[start]]);
    assert(seq![after[start]].drop_last() =~= Seq::<TokenInfo>::empty());
    assert(spec_active_tokens(Seq::<TokenInfo>::empty()) == Seq::<TokenType>::empty());
    assert(seq![after[start]].last() == after[start]);
    assert(spec_active_tokens(seq![after[start]]) =~= Seq::<TokenType>::empty().push(token));
    assert(Seq::<TokenType>::empty().push(token) =~= seq![token]);
    assert(spec_active_tokens(after.take(start)) + seq![token] + Seq::<TokenType>::empty()
        =~= spec_active_tokens(after.take(start)) + seq![token]);
}

/// One replacement of a rule match, as `replace_rule_match` makes it: the
/// located tokens at `start..target` are marked removed, and an active
/// located token that carries `token`, spans them and has no text of its
/// own goes in front of them; the others stay as they were.
pub open spec fn spec_rule_step(before: Seq<TokenInfo>, after: Seq<TokenInfo>, start: int, target: int, token: TokenType) -> bool {
    &&& 0 <= start < target <= before.len()
    &&& after.len() == before.len() + 1
    &&& forall|k: int| 0 <= k < start ==> #[trigger] after[k] == before[k]
    &&& after[start].start == before[start].start
    &&& after[start].end == before[target - 1].end
    &&& after[start].token_type == Some(token)
    &&& after[start].original_text@ == Seq::<char>::empty()
    &&& after[start].status == TokenInfoStatus::Active
    &&& forall|k: int| start <= k < target ==> #[trigger] after[k + 1] == spec_removed(before[k])
    &&& forall|k: int| target <= k < before.len() ==> #[trigger] after[k + 1] == before[k]
}

/// Whether `states` are the located tokens of a line through a run of rule
/// replacements, `steps[i]` holding the span and the token of the `i`-th.
pub open spec fn spec_rule_run(states: Seq<Seq<TokenInfo>>, steps: Seq<(int, int, TokenType)>) -> bool
    decreases steps.len(),
{
    if steps.len() == 0 {
        states.len() == 1
    } else {
        &&& states.len() == steps.len() + 1
        &&& spec_rule_run(states.drop_last(), steps.drop_last())
        &&& spec_rule_step(states[states.len() - 2], states.last(), steps.last().0, steps.last().1, steps.last().2)
    }
}

/// Whether each located token of `before` stands in `after` at `place(i)`,
/// in the same order: as it was, or marked removed; one that was removed
/// stands there as it was.
pub open spec fn spec_kept_in(before: Seq<TokenInfo>, after: Seq<TokenInfo>, place: spec_fn(int) -> int) -> bool {
    &&& forall|i: int| 0 <= i < before.len() ==> 0 <= #[trigger] place(i) < after.len()
    &&& forall|i: int, j: int| 0 <= i < j < before.len() ==> #[trigger] place(i) < #[trigger] place(j)
    &&& forall|i: int| 0 <= i < before.len()
        ==> (after[#[trigger] place(i)] == before[i] || after[place(i)] == spec_removed(before[i]))
    &&& forall|i: int| 0 <= i < before.len() && before[i].status == TokenInfoStatus::Removed
        ==> after[#[trigger] place(i)] == before[i]
}

proof fn lemma_rule_step_keeps(before: Seq<TokenInfo>, after: Seq<TokenInfo>, start: int, target: int, token: TokenType)
    requires
        spec_rule_step(before, after, start, target, token),
    ensures
        spec_kept_in(before, after, |i: int| if i < start { i } else { i + 1 }),
{
    let place = |i: int| if i < start { i } else { i + 1 };
    assert forall|i: int| 0 <= i < before.len()
        implies (after[#[trigger] place(i)] == before[i] || after[place(i)] == spec_removed(before[i])) by {
        if i < start {
            assert(after[i] == before[i]);
        } else if i < target {
            assert(after[i + 1] == spec_removed(before[i]));
        } else {
            assert(after[i + 1] == before[i]);
        }
    }
    assert forall|i: int| 0 <= i < before.len() && before[i].status == TokenInfoStatus::Removed
        implies after[#[trigger] place(i)] == before[i] by {
        if start <= i < target {
            assert(after[i + 1] == spec_removed(before[i]));
            assert(spec_removed(before[i]) == before[i]);
        } else if i < start {
            assert(after[i] == before[i]);
        } else {
            assert(after[i + 1] == before[i]);
        }
    }
}

proof fn lemma_kept_in_compose(
    a: Seq<TokenInfo>,
    b: Seq<TokenInfo>,
    c: Seq<TokenInfo>,
    f: spec_fn(int) -> int,
    g: spec_fn(int) -> int,
)
    requires
        spec_kept_in(a, b, f),
        spec_kept_in(b, c, g),
    ensures
        spec_kept_in(a, c, |i: int| g(f(i))),
{
    let h = |i: int| g(f(i));
    assert forall|i: int| 0 <= i < a.len() implies 0 <= #[trigger] h(i) < c.len() by {
        assert(0 <= f(i) < b.len());
    }
    assert forall|i: int, j: int| 0 <= i < j < a.len() implies #[trigger] h(i) < #[trigger] h(j) by {
        assert(f(i) < f(j));
        assert(0 <= f(i) < b.len());
        assert(0 <= f(j) < b.len());
        assert(g(f(i)) < g(f(j)));
    }
    assert forall|i: int| 0 <= i < a.len()
        implies (c[#[trigger] h(i)] == a[i] || c[h(i)] == spec_removed(a[i])) by {
        let k = f(i);
        assert(0 <= k < b.len());
        assert(b[k] == a[i] || b[k] == spec_removed(a[i]));
        assert(c[g(k)] == b[k] || c[g(k)] == spec_removed(b[k]));
        if b[k] == spec_removed(a[i]) {
            assert(spec_removed(spec_removed(a[i])) == spec_removed(a[i]));
        }
    }
    assert forall|i: int| 0 <= i < a.len() && a[i].status == TokenInfoStatus::Removed
        implies c[#[trigger] h(i)] == a[i] by {
        let k = f(i);
        assert(0 <= k < b.len());
        assert(b[k] == a[i]);
        assert(c[g(k)] == b[k]);
    }
}

/// Over any run of rule replacements, nothing of the line before the run
/// is lost: each of its located tokens stands in the line after the run,
/// in the same order, as it was or marked removed, and one that was
/// removed stands there as it was. The line grows by one located token a
/// replacement.
pub proof fn lemma_rule_run_keeps_tokens(states: Seq<Seq<TokenInfo>>, steps: Seq<(int, int, TokenType)>)
    requires
        spec_rule_run(states, steps),
    ensures
        states.last().len() == states[0].len() + steps.len(),
        exists|place: spec_fn(int) -> int| spec_kept_in(states[0], states.last(), place),
    decreases steps.len(),
{
    if steps.len() == 0 {
        let place = |i: int| i;
        assert(spec_kept_in(states[0], states.last(), place));
    } else {
        let earlier = states.drop_last();
        lemma_rule_run_keeps_tokens(earlier, steps.drop_last());
        let f = choose|place: spec_fn(int) -> int| spec_kept_in(earlier[0], earlier.last(), place);
        let step = steps.last();
        assert(earlier.last() == states[states.len() - 2]);
        assert(earlier[0] == states[0]);
        lemma_rule_step_keeps(states[states.len() - 2], states.last(), step.0, step.1, step.2);
        let g = |i: int| if i < step.0 { i } else { i + 1 };
        lemma_kept_in_compose(states[0], states[states.len() - 2], states.last(), f, g);
        let h = |i: int| g(f(i));
        assert(spec_kept_in(states[0], states.last(), h));
    }
}

impl Tokinizer {
    /// Puts the token a rule made in place of the located tokens it matched
    /// at `start_token_index..target_token_index`: those are marked removed,
    /// and an active located token that spans them and has no text of its
    /// own goes in front of them.
    pub fn replace_rule_match(&mut self, start_token_index: usize, target_token_index: usize, token: TokenType)
        requires
            start_token_index < target_token_index <= old(self).token_infos@.len(),
        ensures
            ({
                let before = old(self).token_infos@;
                let after = final(self).token_infos@;
                let made = after[start_token_index as int];
                &&& after.len() == before.len() + 1
                &&& forall|k: int| 0 <= k < start_token_index ==> #[trigger] after[k] == before[k]
                &&& made.start == before[start_token_index as int].start
                &&& made.end == before[target_token_index - 1].end
                &&& made.token_type == Some(token)
                &&& made.original_text@ == Seq::<char>::empty()
                &&& made.status == TokenInfoStatus::Active
                &&& forall|k: int| start_token_index <= k < target_token_index ==> #[trigger] after[k + 1] == spec_removed(before[k])
                &&& forall|k: int| target_token_index <= k < before.len() ==> #[trigger] after[k + 1] == before[k]
            }),
            spec_rule_step(old(self).token_infos@, final(self).token_infos@, start_token_index as int, target_token_index as int, token),
            final(self).tokens == old(self).tokens,
            final(self).data == old(self).data,
            final(self).language == old(self).language,
    {
        let ghost before = self.token_infos@;
        let text_start_position = self.token_infos[start_token_index].start;
        let text_end_position = self.token_infos[target_token_index - 1].end;
        let mut next: Vec<TokenInfo> = Vec::new();
        let mut k: usize = 0;
        while k < start_token_index
            invariant
                k <= start_token_index < target_token_index <= before.len(),
                self.token_infos@ == before,
                next@ == before.take(k as int),
            decreases start_token_index - k,
        {
            next.push(self.token_infos[k].duplicate());
            k = k + 1;
            assert(next@ =~= before.take(k as int));
        }
        next.push(TokenInfo {
            start: text_start_position,
            end: text_end_position,
            token_type: Some(token),
            original_text: String::new(),
            status: TokenInfoStatus::Active,
        });
        let ghost made = next@[start_token_index as int];
        while k < target_token_index
            invariant
                start_token_index <= k <= target_token_index <= before.len(),
                self.token_infos@ == before,
                next@.len() == k + 1,
                next@[start_token_index as int] == made,
                forall|j: int| 0 <= j < start_token_index ==> #[trigger] next@[j] == before[j],
                forall|j: int| start_token_index < j <= k ==> #[trigger] next@[j] == spec_removed(before[j - 1]),
            decreases target_token_index - k,
        {
            let item = self.token_infos[k].duplicate();
            next.push(TokenInfo {
                start: item.start,
                end: item.end,
                token_type: item.token_type,
                original_text: item.original_text,
                status: TokenInfoStatus::Removed,
            });
            k = k + 1;
        }
        while k < self.token_infos.len()
            invariant
                start_token_index < target_token_index <= k <= before.len(),
                self.token_infos@ == before,
                next@.len() == k + 1,
                next@[start_token_index as int] == made,
                forall|j: int| 0 <= j < start_token_index ==> #[trigger] next@[j] == before[j],
                forall|j: int| start_token_index < j <= target_token_index ==> #[trigger] next@[j] == spec_removed(before[j - 1]),
                forall|j: int| target_token_index < j <= k ==> #[trigger] next@[j] == before[j - 1],
            decreases before.len() - k,
        {
            next.push(self.token_infos[k].duplicate());
            k = k + 1;
        }
        proof {
            assert forall|j: int| start_token_index <= j < target_token_index implies #[trigger] next@[j + 1] == spec_removed(before[j]) by {
                assert(next@[j + 1] == spec_removed(before[(j + 1) - 1]));
            }
            assert forall|j: int| target_token_index <= j < before.len() implies #[trigger] next@[j + 1] == before[j] by {
                assert(next@[j + 1] == before[(j + 1) - 1]);
            }
        }
        self.token_infos = next;
    }
}

/// Where the rules of a line are being tried: which rule, which of its
/// patterns, and whether a rule was applied since the rules were last
/// started from the first.
#[derive(Clone, Copy, Debug, PartialEq, Eq, Structural)]
pub struct RuleCursor {
    pub rule: usize,
    pub pattern: usize,
    pub changed: bool,
}

/// What trying a pattern came to: its rule made a token and it was put in
/// place, or not (no match, or the rule gave no token).
#[derive(Clone, Copy, Debug, PartialEq, Eq, Structural)]
pub enum RuleOutcome {
    Applied,
    NotApplied,
}

/// What to do next: try the pattern at the cursor, or stop.
#[derive(Clone, Copy, Debug, PartialEq, Eq, Structural)]
pub enum RuleAction {
    Try(RuleCursor),
    Finish,
}

/// The first place at or after pattern `p` of rule `r` where a rule has a
/// pattern, going on to the next rules; `lens` holds how many patterns
/// each rule has.
pub open spec fn spec_first_pattern(lens: Seq<usize>, r: int, p: int) -> Option<(int, int)>
    decreases lens.len() - r,
{
    if r < 0 || r >= lens.len() {
        None
    } else if p < lens[r] {
        Some((r, p))
    } else {
        spec_first_pattern(lens, r + 1, 0)
    }
}

/// The first pattern to try, when the rules are started from the first.
pub open spec fn spec_start_rules(lens: Seq<usize>) -> RuleAction {
    match spec_first_pattern(lens, 0, 0) {
        Some((r, p)) => RuleAction::Try(RuleCursor { rule: r as usize, pattern: p as usize, changed: false }),
        None => RuleAction::Finish,
    }
}

/// What comes after trying the pattern at the cursor: after a rule was
/// applied, the next rule's patterns; otherwise the rule's next pattern.
/// After the last rule, the rules start again from the first when one was
/// applied in this round, and stop when none was.
pub open spec fn spec_next_rule_step(cursor: RuleCursor, outcome: RuleOutcome, lens: Seq<usize>) -> RuleAction {
    let changed = cursor.changed || outcome == RuleOutcome::Applied;
    let next = if outcome == RuleOutcome::Applied {
        spec_first_pattern(lens, cursor.rule + 1, 0)
    } else {
        spec_first_pattern(lens, cursor.rule as int, cursor.pattern + 1)
    };
    match next {
        Some((r, p)) => RuleAction::Try(RuleCursor { rule: r as usize, pattern: p as usize, changed }),
        None => if changed { spec_start_rules(lens) } else { RuleAction::Finish },
    }
}

fn first_pattern(lens: &Vec<usize>, r: usize, p: usize) -> (res: Option<(usize, usize)>)
    ensures
        match res {
            Some((a, b)) => spec_first_pattern(lens@, r as int, p as int) == Some((a as int, b as int))
                && a < lens@.len() && b < lens@[a as int],
            None => spec_first_pattern(lens@, r as int, p as int) is None,
        },
{
    if r >= lens.len() {
        return None;
    }
    let mut k: usize = r;
    let mut q: usize = p;
    while k < lens.len()
        invariant
            r <= k <= lens@.len(),
            k == r || q == 0,
            spec_first_pattern(lens@, r as int, p as int) == spec_first_pattern(lens@, k as int, q as int),
        decreases lens@.len() - k,
    {
        if q < lens[k] {
            return Some((k, q));
        }
        k = k + 1;
        q = 0;
    }
    None
}

/// The first pattern to try on a line.
pub fn start_rules(lens: &Vec<usize>) -> (r: RuleAction)
    ensures
        r == spec_start_rules(lens@),
        r matches RuleAction::Try(c) ==> c.rule < lens@.len() && c.pattern < lens@[c.rule as int],
{
    match first_pattern(lens, 0, 0) {
        Some((a, b)) => RuleAction::Try(RuleCursor { rule: a, pattern: b, changed: false }),
        None => RuleAction::Finish,
    }
}

/// What comes after trying the pattern at the cursor.
pub fn next_rule_step(cursor: RuleCursor, outcome: RuleOutcome, lens: &Vec<usize>) -> (r: RuleAction)
    requires
        cursor.rule < lens.len(),
    ensures
        r == spec_next_rule_step(cursor, outcome, lens@),
        r matches RuleAction::Try(c) ==> c.rule < lens@.len() && c.pattern < lens@[c.rule as int],
{
    let changed = cursor.changed || outcome == RuleOutcome::Applied;
    let next = if outcome == RuleOutcome::Applied {
        first_pattern(lens, cursor.rule + 1, 0)
    } else {
        if cursor.pattern < usize::MAX {
            first_pattern(lens, cursor.rule, cursor.pattern + 1)
        } else {
            assert(spec_first_pattern(lens@, cursor.rule as int, cursor.pattern + 1)
                == spec_first_pattern(lens@, cursor.rule + 1, 0));
            first_pattern(lens, cursor.rule + 1, 0)
        }
    };
    match next {
        Some((a, b)) => RuleAction::Try(RuleCursor { rule: a, pattern: b, changed }),
        None => if changed { start_rules(lens) } else { RuleAction::Finish },
    }
}

} // verus!
