//! Putting the variables of the session into a line: a run of located
//! tokens that spells a variable's definition becomes one variable token.
use vstd::prelude::*;
use crate::types::{TokenType, VariableRef};
use crate::session::{VariableInfo, variables_ok, token_ok_in_line};
use crate::tokinizer::{TokenInfo, TokenInfoStatus, TokenMatch, Tokinizer, find_location, spec_find_location,
    spec_find_from, spec_expression_start, lemma_find_location_sound, spec_token_pair_eq, token_pair_eq};
use crate::text::append_str;

verus! {

/// A located token as plain values: where it starts and ends, its token,
/// the text it was read from, and its status.
pub type InfoView = (usize, usize, Option<TokenType>, Seq<char>, TokenInfoStatus);

/// The plain values of a located token.
pub open spec fn info_view(info: TokenInfo) -> InfoView {
    (info.start, info.end, info.token_type, info.original_text@, info.status)
}

/// The plain values of located tokens, in order.
pub open spec fn infos_view(infos: Seq<TokenInfo>) -> Seq<InfoView> {
    Seq::new(infos.len(), |i: int| info_view(infos[i]))
}

/// The tokens of located tokens, in order.
pub open spec fn view_tokens(views: Seq<InfoView>) -> Seq<Option<TokenType>> {
    Seq::new(views.len(), |i: int| views[i].2)
}

impl TokenMatch<TokenType> for Option<TokenType> {
    open spec fn spec_matches(&self, other: &TokenType) -> bool {
        match *self {
            Some(a) => spec_token_pair_eq(a, *other, true),
            None => false,
        }
    }

    fn matches(&self, other: &TokenType) -> (r: bool) {
        match self {
            Some(a) => token_pair_eq(a, other, true),
            None => false,
        }
    }
}

/// The texts of located tokens, one after another.
pub open spec fn spec_joined_text(views: Seq<InfoView>) -> Seq<char>
    decreases views.len(),
{
    if views.len() == 0 {
        Seq::empty()
    } else {
        spec_joined_text(views.drop_last()) + views.last().3
    }
}

/// Among the first `n` variables, the one whose definition is found first in
/// `tail`, as the position of the find and the variable's place; at the same
/// position a longer definition wins over an earlier one, and among equally
/// long ones the earlier wins.
pub open spec fn spec_best_variable(tail: Seq<Option<TokenType>>, vars: Seq<VariableInfo>, n: int) -> Option<(int, int)>
    decreases n,
{
    if n <= 0 {
        None
    } else {
        let prev = spec_best_variable(tail, vars, n - 1);
        match spec_find_location(tail, vars[n - 1].tokens@) {
            None => prev,
            Some(p) => match prev {
                None => Some((p, n - 1)),
                Some(best) => if (p == best.0 && vars[best.1].tokens@.len() < vars[n - 1].tokens@.len()) || p < best.0 {
                    Some((p, n - 1))
                } else {
                    prev
                },
            },
        }
    }
}

/// One substitution: the best variable found past `start` replaces the run
/// of located tokens that spells it by one active variable token that spans
/// the run and keeps its text; none when no variable is found.
pub open spec fn spec_variable_step(views: Seq<InfoView>, vars: Seq<VariableInfo>, start: int) -> Option<Seq<InfoView>> {
    match spec_best_variable(view_tokens(views.skip(start)), vars, vars.len() as int) {
        None => None,
        Some(best) => {
            let q = start + best.0;
            let size = vars[best.1].tokens@.len() as int;
            let var = vars[best.1];
            let replaced: InfoView = (
                views[q].0,
                views[q + size - 1].1,
                Some(TokenType::Variable(VariableRef { index: var.index, name: var.name })),
                spec_joined_text(views.subrange(q, q + size)),
                TokenInfoStatus::Active,
            );
            Some(views.take(q) + seq![replaced] + views.skip(q + size))
        },
    }
}

/// The located tokens after at most `n` substitutions; the substitutions
/// stop when no variable is found.
pub open spec fn spec_substitute(views: Seq<InfoView>, vars: Seq<VariableInfo>, start: int, n: nat) -> Seq<InfoView>
    decreases n,
{
    if n == 0 {
        views
    } else {
        match spec_variable_step(views, vars, start) {
            None => views,
            Some(next) => spec_substitute(next, vars, start, (n - 1) as nat),
        }
    }
}

proof fn lemma_substitute_succ(views: Seq<InfoView>, vars: Seq<VariableInfo>, start: int, n: nat)
    ensures
        spec_substitute(views, vars, start, n + 1) == match spec_variable_step(spec_substitute(views, vars, start, n), vars, start) {
            None => spec_substitute(views, vars, start, n),
            Some(next) => next,
        },
    decreases n,
{
    if n > 0 {
        match spec_variable_step(views, vars, start) {
            None => {},
            Some(next) => lemma_substitute_succ(next, vars, start, (n - 1) as nat),
        }
    } else {
        assert(spec_substitute(views, vars, start, 0) == views);
        match spec_variable_step(views, vars, start) {
            None => {},
            Some(next) => {
                assert(spec_substitute(next, vars, start, 0) == next);
            },
        }
    }
}

/// How far a located token is from being a variable token of a later
/// variable: a token of the `k`-th of `n` variables weighs `n - k`, any
/// other token `n + 1`.
pub open spec fn token_weight(t: Option<TokenType>, n: int) -> int {
    match t {
        Some(TokenType::Variable(v)) => if v.index < n { n - v.index } else { n + 1 },
        _ => n + 1,
    }
}

/// The weights of located tokens, added up.
pub open spec fn total_weight(tokens: Seq<Option<TokenType>>, n: int) -> int
    decreases tokens.len(),
{
    if tokens.len() == 0 {
        0
    } else {
        total_weight(tokens.drop_last(), n) + token_weight(tokens.last(), n)
    }
}

proof fn lemma_total_weight_add(a: Seq<Option<TokenType>>, b: Seq<Option<TokenType>>, n: int)
    ensures
        total_weight(a + b, n) == total_weight(a, n) + total_weight(b, n),
    decreases b.len(),
{
    if b.len() > 0 {
        assert((a + b).drop_last() =~= a + b.drop_last());
        lemma_total_weight_add(a, b.drop_last(), n);
    }
}

proof fn lemma_total_weight_nonneg(a: Seq<Option<TokenType>>, n: int)
    requires
        n >= 0,
    ensures
        total_weight(a, n) >= 0,
    decreases a.len(),
{
    if a.len() > 0 {
        lemma_total_weight_nonneg(a.drop_last(), n);
    }
}

/// Two token lists whose tokens match a pattern alike are scanned alike.
proof fn lemma_find_same<T: TokenMatch<U>, V: TokenMatch<U>, U>(a: Seq<T>, b: Seq<V>, rule: Seq<U>, t: int, r: int, s: int)
    requires
        a.len() == b.len(),
        0 <= r < rule.len(),
        forall|k: int, j: int| 0 <= k < a.len() && 0 <= j < rule.len()
            ==> #[trigger] a[k].spec_matches(&rule[j]) == #[trigger] b[k].spec_matches(&rule[j]),
    ensures
        spec_find_from(a, rule, t, r, s) == spec_find_from(b, rule, t, r, s),
    decreases a.len() - t,
{
    if 0 <= t < a.len() {
        let hit = a[t].spec_matches(&rule[r]);
        let r2 = if hit { r + 1 } else { 0 };
        let s2 = if hit { s } else { t + 1 };
        if r2 != rule.len() {
            lemma_find_same(a, b, rule, t + 1, r2, s2);
        }
    }
}

/// Replacing one located token by a lighter one, or a run of two or more
/// by one, makes the list shorter or lighter.
proof fn lemma_step_decreases(views: Seq<InfoView>, vars: Seq<VariableInfo>, start: int)
    requires
        variables_ok(vars),
        0 <= start <= views.len(),
        spec_variable_step(views, vars, start) is Some,
    ensures
        ({
            let next = spec_variable_step(views, vars, start)->Some_0;
            let n = vars.len() as int;
            ||| next.len() < views.len()
            ||| (next.len() == views.len() && total_weight(view_tokens(next), n) < total_weight(view_tokens(views), n))
        }),
{
    let tail = view_tokens(views.skip(start));
    let n = vars.len() as int;
    let best = spec_best_variable(tail, vars, n)->Some_0;
    lemma_best_variable_found(tail, vars, n);
    let k = best.1;
    let p = best.0;
    let rule = vars[k].tokens@;
    lemma_find_location_sound(tail, rule);
    let q = start + p;
    let size = rule.len() as int;
    let next = spec_variable_step(views, vars, start)->Some_0;
    assert(next.len() == views.len() - size + 1);
    if size == 1 {
        let w = view_tokens(views);
        let w2 = view_tokens(next);
        assert(tail[p] == w[q]);
        assert(tail[p + 0].spec_matches(&rule[0]));
        assert(token_ok_in_line(rule[0], k));
        assert(views.take(q) + seq![next[q]] + views.skip(q + 1) == next);
        assert(w =~= view_tokens(views.take(q)) + seq![w[q]] + view_tokens(views.skip(q + 1)));
        assert(w2 =~= view_tokens(views.take(q)) + seq![w2[q]] + view_tokens(views.skip(q + 1)));
        lemma_total_weight_add(view_tokens(views.take(q)) + seq![w[q]], view_tokens(views.skip(q + 1)), n);
        lemma_total_weight_add(view_tokens(views.take(q)), seq![w[q]], n);
        lemma_total_weight_add(view_tokens(views.take(q)) + seq![w2[q]], view_tokens(views.skip(q + 1)), n);
        lemma_total_weight_add(view_tokens(views.take(q)), seq![w2[q]], n);
        assert(seq![w[q]].drop_last() =~= Seq::<Option<TokenType>>::empty());
        assert(seq![w2[q]].drop_last() =~= Seq::<Option<TokenType>>::empty());
        assert(token_weight(w2[q], n) < token_weight(w[q], n));
    }
}

proof fn lemma_best_variable_found(tail: Seq<Option<TokenType>>, vars: Seq<VariableInfo>, n: int)
    requires
        0 <= n <= vars.len(),
    ensures
        spec_best_variable(tail, vars, n) matches Some(best) ==> {
            &&& 0 <= best.1 < n
            &&& spec_find_location(tail, vars[best.1].tokens@) == Some(best.0)
        },
    decreases n,
{
    if n > 0 {
        lemma_best_variable_found(tail, vars, n - 1);
    }
}

/// Of the variables whose definitions are found in a line, the one put in
/// is found first; at the same place it is the one with the most tokens,
/// and of equally long ones the first in the list, whatever the order of
/// the list. No variable is put in only when no definition is found.
pub proof fn lemma_best_variable_choice(tail: Seq<Option<TokenType>>, vars: Seq<VariableInfo>, n: int)
    requires
        0 <= n <= vars.len(),
    ensures
        spec_best_variable(tail, vars, n) is None
            ==> forall|j: int| 0 <= j < n ==> (#[trigger] spec_find_location(tail, vars[j].tokens@)) is None,
        spec_best_variable(tail, vars, n) matches Some(best) ==> {
            &&& 0 <= best.1 < n
            &&& spec_find_location(tail, vars[best.1].tokens@) == Some(best.0)
            &&& forall|j: int| 0 <= j < n && (#[trigger] spec_find_location(tail, vars[j].tokens@)) is Some ==> {
                let q = spec_find_location(tail, vars[j].tokens@)->Some_0;
                ||| best.0 < q
                ||| (best.0 == q && vars[j].tokens@.len() < vars[best.1].tokens@.len())
                ||| (best.0 == q && vars[j].tokens@.len() == vars[best.1].tokens@.len() && best.1 <= j)
            }
        },
    decreases n,
{
    if n > 0 {
        lemma_best_variable_choice(tail, vars, n - 1);
    }
}

proof fn lemma_joined_text_add(a: Seq<InfoView>, b: Seq<InfoView>)
    ensures
        spec_joined_text(a + b) == spec_joined_text(a) + spec_joined_text(b),
    decreases b.len(),
{
    if b.len() > 0 {
        assert((a + b).drop_last() =~= a + b.drop_last());
        lemma_joined_text_add(a, b.drop_last());
        assert(spec_joined_text(a) + spec_joined_text(b.drop_last()) + b.last().3
            =~= spec_joined_text(a) + (spec_joined_text(b.drop_last()) + b.last().3));
    } else {
        assert(a + b =~= a);
        assert(spec_joined_text(a) + Seq::<char>::empty() =~= spec_joined_text(a));
    }
}

/// Putting a variable into a line keeps the text of the line: the texts of
/// its located tokens, one after another, stay as they were.
#[verifier::rlimit(40)]
pub proof fn lemma_variable_step_keeps_text(views: Seq<InfoView>, vars: Seq<VariableInfo>, start: int)
    requires
        variables_ok(vars),
        0 <= start <= views.len(),
        spec_variable_step(views, vars, start) is Some,
    ensures
        spec_joined_text(spec_variable_step(views, vars, start)->Some_0) == spec_joined_text(views),
{
    let tail = view_tokens(views.skip(start));
    let n = vars.len() as int;
    let best = spec_best_variable(tail, vars, n)->Some_0;
    lemma_best_variable_found(tail, vars, n);
    let rule = vars[best.1].tokens@;
    let q = start + best.0;
    let size = rule.len() as int;
    assert(vars[best.1].tokens@.len() >= 1);
    lemma_find_location_sound(tail, rule);
    assert(tail.len() == views.len() - start);
    assert(0 <= q && q + size <= views.len());
    let next = spec_variable_step(views, vars, start)->Some_0;
    let replaced = next[q];
    assert(next == views.take(q) + seq![replaced] + views.skip(q + size));
    assert(views =~= views.take(q) + views.subrange(q, q + size) + views.skip(q + size));
    lemma_joined_text_add(views.take(q) + views.subrange(q, q + size), views.skip(q + size));
    lemma_joined_text_add(views.take(q), views.subrange(q, q + size));
    lemma_joined_text_add(views.take(q) + seq![replaced], views.skip(q + size));
    lemma_joined_text_add(views.take(q), seq![replaced]);
    assert(seq![replaced].drop_last() =~= Seq::<InfoView>::empty());
    assert(spec_joined_text(Seq::<InfoView>::empty()) == Seq::<char>::empty());
    assert(spec_joined_text(seq![replaced]) =~= replaced.3);
}

/// The `k`-th variable as a variable token.
fn variable_token(vars: &Vec<VariableInfo>, k: usize) -> (t: TokenType)
    requires
        k < vars@.len(),
    ensures
        t == TokenType::Variable(VariableRef { index: vars@[k as int].index, name: vars@[k as int].name }),
{
    TokenType::Variable(VariableRef { index: vars[k].index, name: vars[k].name.clone() })
}

impl Tokinizer {
    /// The located tokens from `start` on, copied.
    fn tail_infos(&self, start: usize) -> (r: Vec<TokenInfo>)
        requires
            start <= self.token_infos@.len(),
        ensures
            r@ == self.token_infos@.skip(start as int),
    {
        let mut r: Vec<TokenInfo> = Vec::new();
        let mut k: usize = start;
        while k < self.token_infos.len()
            invariant
                start <= k <= self.token_infos@.len(),
                r@ == self.token_infos@.subrange(start as int, k as int),
            decreases self.token_infos@.len() - k,
        {
            r.push(self.token_infos[k].duplicate());
            k = k + 1;
            assert(r@ =~= self.token_infos@.subrange(start as int, k as int));
        }
        assert(r@ =~= self.token_infos@.skip(start as int));
        r
    }

    /// The best variable found past `start`.
    fn best_variable(&self, vars: &Vec<VariableInfo>, start: usize) -> (r: Option<(usize, usize)>)
        requires
            variables_ok(vars@),
            start <= self.token_infos@.len(),
        ensures
            ({
                let best = spec_best_variable(view_tokens(infos_view(self.token_infos@).skip(start as int)), vars@, vars@.len() as int);
                &&& r matches Some(b) ==> best == Some((b.0 as int, b.1 as int))
                &&& r is None ==> best is None
            }),
    {
        let tail = self.tail_infos(start);
        let ghost tail_tokens = view_tokens(infos_view(self.token_infos@).skip(start as int));
        let mut found: Option<(usize, usize)> = None;
        let mut k: usize = 0;
        while k < vars.len()
            invariant
                k <= vars@.len(),
                variables_ok(vars@),
                start <= self.token_infos@.len(),
                tail@ == self.token_infos@.skip(start as int),
                tail_tokens == view_tokens(infos_view(self.token_infos@).skip(start as int)),
                found matches Some(b) ==> spec_best_variable(tail_tokens, vars@, k as int) == Some((b.0 as int, b.1 as int)),
                found is None ==> spec_best_variable(tail_tokens, vars@, k as int) is None,
                found matches Some(b) ==> b.1 < k,
            decreases vars@.len() - k,
        {
            let rule = &vars[k].tokens;
            assert(vars@[k as int].tokens@.len() >= 1);
            let location = find_location(tail.as_slice(), rule.as_slice());
            proof {
                assert(tail_tokens.len() == tail@.len());
                assert forall|t: int, j: int| 0 <= t < tail@.len() && 0 <= j < rule@.len()
                    implies #[trigger] tail@[t].spec_matches(&rule@[j]) == #[trigger] tail_tokens[t].spec_matches(&rule@[j]) by {
                    assert(tail_tokens[t] == tail@[t].token_type);
                }
                lemma_find_same(tail@, tail_tokens, rule@, 0, 0, 0);
            }
            match location {
                Some(p) => {
                    match found {
                        None => {
                            found = Some((p, k));
                        },
                        Some(b) => {
                            if (p == b.0 && vars[b.1].tokens.len() < rule.len()) || p < b.0 {
                                found = Some((p, k));
                            }
                        },
                    }
                },
                None => {},
            }
            k = k + 1;
        }
        found
    }

    /// Replaces each run of located tokens past the first `=` that spells a
    /// variable's definition by one variable token, until none is left;
    /// the earliest run wins, and at the same place the longest.
    pub fn update_token_variables(&mut self, variables: &Vec<VariableInfo>)
        requires
            variables_ok(variables@),
            spec_expression_start(old(self).token_infos@) != 1,
        ensures
            ({
                let start = spec_expression_start(old(self).token_infos@) as int;
                exists|n: nat| {
                    &&& #[trigger] spec_substitute(infos_view(old(self).token_infos@), variables@, start, n)
                        == infos_view(final(self).token_infos@)
                    &&& spec_variable_step(infos_view(final(self).token_infos@), variables@, start) is None
                }
            }),
            final(self).tokens == old(self).tokens,
            final(self).data == old(self).data,
            final(self).language == old(self).language,
    {
        let start = self.expression_start();
        let ghost init = infos_view(self.token_infos@);
        let ghost mut done: nat = 0;
        let ghost count = variables@.len() as int;
        assert(infos_view(self.token_infos@) == spec_substitute(init, variables@, start as int, 0));
        loop
            invariant
                variables_ok(variables@),
                start as int == spec_expression_start(old(self).token_infos@),
                start <= self.token_infos@.len(),
                count == variables@.len(),
                init == infos_view(old(self).token_infos@),
                infos_view(self.token_infos@) == spec_substitute(init, variables@, start as int, done),
                self.tokens == old(self).tokens,
                self.data == old(self).data,
                self.language == old(self).language,
            ensures
                infos_view(self.token_infos@) == spec_substitute(init, variables@, start as int, done),
                spec_variable_step(infos_view(self.token_infos@), variables@, start as int) is None,
                self.tokens == old(self).tokens,
                self.data == old(self).data,
                self.language == old(self).language,
            decreases self.token_infos@.len(), total_weight(view_tokens(infos_view(self.token_infos@)), count),
        {
            let ghost before = infos_view(self.token_infos@);
            let best = self.best_variable(variables, start);
            match best {
                None => {
                    break;
                },
                Some(b) => {
                    let p = b.0;
                    let k = b.1;
                    proof {
                        lemma_best_variable_found(view_tokens(before.skip(start as int)), variables@, count);
                        lemma_find_location_sound(view_tokens(before.skip(start as int)), variables@[k as int].tokens@);
                        lemma_step_decreases(before, variables@, start as int);
                        lemma_substitute_succ(init, variables@, start as int, done);
                        lemma_total_weight_nonneg(view_tokens(before), count);
                        lemma_total_weight_nonneg(view_tokens(spec_variable_step(before, variables@, start as int)->Some_0), count);
                    }
                    let size = variables[k].tokens.len();
                    let total = self.token_infos.len();
                    assert(start + p + size <= total);
                    let remove_start = start + p;
                    let remove_end = remove_start + size;
                    let text_start_position = self.token_infos[remove_start].start;
                    let text_end_position = self.token_infos[remove_end - 1].end;
                    let mut original_text = String::new();
                    let mut m: usize = remove_start;
                    while m < remove_end
                        invariant
                            remove_start <= m <= remove_end <= self.token_infos@.len(),
                            original_text@ == spec_joined_text(infos_view(self.token_infos@).subrange(remove_start as int, m as int)),
                        decreases remove_end - m,
                    {
                        append_str(&mut original_text, self.token_infos[m].original_text.as_str());
                        m = m + 1;
                        assert(infos_view(self.token_infos@).subrange(remove_start as int, m as int).drop_last()
                            =~= infos_view(self.token_infos@).subrange(remove_start as int, m - 1));
                    }
                    let token = variable_token(variables, k);
                    let mut next: Vec<TokenInfo> = Vec::new();
                    let mut j: usize = 0;
                    while j < remove_start
                        invariant
                            j <= remove_start <= self.token_infos@.len(),
                            next@ == self.token_infos@.take(j as int),
                        decreases remove_start - j,
                    {
                        next.push(self.token_infos[j].duplicate());
                        j = j + 1;
                        assert(next@ =~= self.token_infos@.take(j as int));
                    }
                    next.push(TokenInfo {
                        start: text_start_position,
                        end: text_end_position,
                        token_type: Some(token),
                        original_text,
                        status: TokenInfoStatus::Active,
                    });
                    let mut j: usize = remove_end;
                    let ghost head = next@;
                    while j < self.token_infos.len()
                        invariant
                            remove_end <= j <= self.token_infos@.len(),
                            next@ == head + self.token_infos@.subrange(remove_end as int, j as int),
                        decreases self.token_infos@.len() - j,
                    {
                        next.push(self.token_infos[j].duplicate());
                        j = j + 1;
                        assert(next@ =~= head + self.token_infos@.subrange(remove_end as int, j as int));
                    }
                    proof {
                        let stepped = spec_variable_step(before, variables@, start as int)->Some_0;
                        assert(infos_view(next@) =~= stepped);
                        done = done + 1;
                    }
                    self.token_infos = next;
                },
            }
        }
        proof {
            assert(spec_substitute(init, variables@, start as int, done) == infos_view(self.token_infos@));
        }
    }

    /// Just after the first located `=`, or 0 when there is none.
    pub fn expression_start(&self) -> (r: usize)
        ensures
            r == spec_expression_start(self.token_infos@),
            r <= self.token_infos@.len(),
    {
        let mut k: usize = 0;
        while k < self.token_infos.len()
            invariant
                k <= self.token_infos@.len(),
                forall|j: int| 0 <= j < k ==> #[trigger] self.token_infos@[j].token_type != Some(TokenType::Operator('=')),
            decreases self.token_infos@.len() - k,
        {
            let is_assign = match &self.token_infos[k].token_type {
                Some(TokenType::Operator(c)) => *c == '=',
                _ => false,
            };
            if is_assign {
                proof {
                    lemma_expression_start_at(self.token_infos@, k as int);
                }
                return k + 1;
            }
            k = k + 1;
        }
        proof {
            lemma_expression_start_at(self.token_infos@, k as int);
        }
        0
    }
}

proof fn lemma_expression_start_at(infos: Seq<TokenInfo>, k: int)
    requires
        0 <= k <= infos.len(),
        forall|j: int| 0 <= j < k ==> #[trigger] infos[j].token_type != Some(TokenType::Operator('=')),
        k < infos.len() ==> infos[k].token_type == Some(TokenType::Operator('=')),
    ensures
        spec_expression_start(infos) == if k < infos.len() { k + 1 } else { 0 },
    decreases k,
{
    if k > 0 {
        let rest = infos.drop_first();
        assert forall|j: int| 0 <= j < k - 1 implies #[trigger] rest[j].token_type != Some(TokenType::Operator('=')) by {
            assert(rest[j] == infos[j + 1]);
        }
        lemma_expression_start_at(rest, k - 1);
    } else if infos.len() == 0 {
    }
}

} // verus!
