//! Reading a line with the patterns of the configuration: the tokens that
//! comment, whitespace and operator patterns record, and the aliases that
//! give a located token another token.
use vstd::prelude::*;
use crate::tokinizer::{CaptureSpan, TokenInfo, TokenInfoStatus, Tokinizer, spec_overlaps};
use crate::variable::{InfoView, info_view, infos_view};
use crate::types::TokenType;
use crate::text::{chars_of, to_lowercase, spec_lowercase};

verus! {

/// A match of a pattern in a text: where it starts and where it ends, the
/// text it matched, and the text of each named group asked for, when that
/// group took part in the match.
pub type MatchView = (usize, usize, Seq<char>, Seq<Option<Seq<char>>>);

/// What `regex::Regex::new(pattern)` and then `captures_iter(text)` give,
/// with the named groups `names` read from each match. A pattern that does
/// not compile gives no match.
pub uninterp spec fn spec_regex_captures(pattern: Seq<char>, text: Seq<char>, names: Seq<Seq<char>>) -> Seq<MatchView>;

/// What `regex::Regex::new(pattern)` and then `is_match(text)` give. A
/// pattern that does not compile matches nothing.
pub uninterp spec fn spec_regex_is_match(pattern: Seq<char>, text: Seq<char>) -> bool;

/// A match of a pattern, with the named groups asked for.
pub struct RegexCapture {
    pub whole: CaptureSpan,
    pub groups: Vec<Option<String>>,
}

/// The text of a named group, when it took part.
pub open spec fn group_view(g: Option<String>) -> Option<Seq<char>> {
    match g {
        Some(s) => Some(s@),
        None => None,
    }
}

/// The plain values of a match.
pub open spec fn capture_view(c: RegexCapture) -> MatchView {
    (c.whole.start, c.whole.end, c.whole.text@, c.groups@.map_values(|g: Option<String>| group_view(g)))
}

/// The plain values of matches, in order.
pub open spec fn captures_view(cs: Seq<RegexCapture>) -> Seq<MatchView> {
    cs.map_values(|c: RegexCapture| capture_view(c))
}

/// The texts of a list of strings.
pub open spec fn texts_view(texts: Seq<String>) -> Seq<Seq<char>> {
    texts.map_values(|t: String| t@)
}

/// `regex::Regex::new(pattern)`, then `captures_iter(text)`: each match
/// with its place, its text and the named groups `names`. The result is
/// named; a pattern that does not compile gives no match.
#[verifier::external_body]
pub(crate) fn regex_captures(pattern: &str, text: &str, names: &Vec<String>) -> (r: Vec<RegexCapture>)
    ensures
        captures_view(r@) == spec_regex_captures(pattern@, text@, texts_view(names@)),
        forall|i: int| 0 <= i < r@.len() ==> (#[trigger] r@[i]).groups@.len() == names@.len(),
{
    match regex::Regex::new(pattern) {
        Ok(re) => re.captures_iter(text).map(|c| {
            let m = c.get(0).unwrap();
            let groups = names.iter().map(|n| c.name(n).map(|g| g.as_str().to_string())).collect();
            RegexCapture { whole: CaptureSpan { start: m.start(), end: m.end(), text: m.as_str().to_string() }, groups }
        }).collect(),
        Err(_) => Vec::new(),
    }
}

/// `regex::Regex::new(pattern)`, then `is_match(text)`. The result is
/// named; a pattern that does not compile matches nothing.
#[verifier::external_body]
pub(crate) fn regex_is_match(pattern: &str, text: &str) -> (r: bool)
    ensures
        r == spec_regex_is_match(pattern@, text@),
{
    match regex::Regex::new(pattern) {
        Ok(re) => re.is_match(text),
        Err(_) => false,
    }
}

/// Whether a located token, by its plain values, overlaps `start..end` as
/// the tokenizer checks it.
pub open spec fn view_overlaps(v: InfoView, start: int, end: int) -> bool {
    (v.0 <= start && v.1 > start) || (v.0 < end && v.1 >= end)
}

/// Recording a match with a token: it is added at the end, active, unless a
/// recorded token overlaps it.
pub open spec fn spec_add_location(views: Seq<InfoView>, m: MatchView, token: Option<TokenType>) -> Seq<InfoView> {
    if forall|k: int| 0 <= k < views.len() ==> !view_overlaps(#[trigger] views[k], m.0 as int, m.1 as int) {
        views.push((m.0, m.1, token, m.2, TokenInfoStatus::Active))
    } else {
        views
    }
}

/// The token a match records: an operator, its first character; otherwise
/// no token.
pub open spec fn spec_match_token(m: MatchView, operators: bool) -> Option<TokenType> {
    if operators {
        Some(TokenType::Operator(m.2[0]))
    } else {
        None
    }
}

/// Recording matches one after another.
pub open spec fn spec_record_matches(views: Seq<InfoView>, matches: Seq<MatchView>, operators: bool) -> Seq<InfoView>
    decreases matches.len(),
{
    if matches.len() == 0 {
        views
    } else {
        spec_add_location(
            spec_record_matches(views, matches.drop_last(), operators),
            matches.last(),
            spec_match_token(matches.last(), operators),
        )
    }
}

/// Recording the matches of each pattern in the text, pattern after pattern.
pub open spec fn spec_record_patterns(views: Seq<InfoView>, data: Seq<char>, patterns: Seq<Seq<char>>, operators: bool) -> Seq<InfoView>
    decreases patterns.len(),
{
    if patterns.len() == 0 {
        views
    } else {
        spec_record_matches(
            spec_record_patterns(views, data, patterns.drop_last(), operators),
            spec_regex_captures(patterns.last(), data, Seq::empty()),
            operators,
        )
    }
}

/// Whether every match of the patterns in the text has some text.
pub open spec fn spec_matches_nonempty(data: Seq<char>, patterns: Seq<Seq<char>>) -> bool {
    forall|p: int, k: int| 0 <= p < patterns.len() && 0 <= k < spec_regex_captures(patterns[p], data, Seq::empty()).len()
        ==> (#[trigger] spec_regex_captures(patterns[p], data, Seq::empty())[k]).2.len() > 0
}

proof fn lemma_views_push(infos: Seq<TokenInfo>, info: TokenInfo)
    ensures
        infos_view(infos.push(info)) == infos_view(infos).push(info_view(info)),
{
    assert(infos_view(infos.push(info)) =~= infos_view(infos).push(info_view(info)));
}

proof fn lemma_overlap_views(before: Seq<TokenInfo>, s: int, e: int)
    ensures
        (forall|k: int| 0 <= k < infos_view(before).len() ==> !view_overlaps(#[trigger] infos_view(before)[k], s, e))
            <==> (forall|k: int| 0 <= k < before.len() ==> !spec_overlaps(#[trigger] before[k], s, e)),
{
    let vs = infos_view(before);
    assert(vs.len() == before.len());
    if forall|k: int| 0 <= k < vs.len() ==> !view_overlaps(#[trigger] vs[k], s, e) {
        assert forall|k: int| 0 <= k < before.len() implies !spec_overlaps(#[trigger] before[k], s, e) by {
            assert(vs[k] == info_view(before[k]));
            assert(!view_overlaps(vs[k], s, e));
        }
    }
    if forall|k: int| 0 <= k < before.len() ==> !spec_overlaps(#[trigger] before[k], s, e) {
        assert forall|k: int| 0 <= k < vs.len() implies !view_overlaps(#[trigger] vs[k], s, e) by {
            assert(vs[k] == info_view(before[k]));
            assert(!spec_overlaps(before[k], s, e));
        }
    }
}

/// The matches of each pattern in a text, with no named group.
fn scan_patterns(data: &str, patterns: &Vec<String>) -> (r: Vec<Vec<RegexCapture>>)
    ensures
        r@.len() == patterns@.len(),
        forall|p: int| 0 <= p < r@.len()
            ==> captures_view(#[trigger] r@[p]@) == spec_regex_captures(patterns@[p]@, data@, Seq::empty()),
{
    let no_names: Vec<String> = Vec::new();
    assert(texts_view(no_names@) =~= Seq::<Seq<char>>::empty());
    let mut r: Vec<Vec<RegexCapture>> = Vec::new();
    let mut p: usize = 0;
    while p < patterns.len()
        invariant
            p <= patterns@.len(),
            r@.len() == p,
            texts_view(no_names@) == Seq::<Seq<char>>::empty(),
            forall|q: int| 0 <= q < p
                ==> captures_view(#[trigger] r@[q]@) == spec_regex_captures(patterns@[q]@, data@, Seq::empty()),
        decreases patterns@.len() - p,
    {
        let found = regex_captures(patterns[p].as_str(), data, &no_names);
        r.push(found);
        p = p + 1;
    }
    r
}

impl Tokinizer {
    /// Records a match with a token, where no recorded token overlaps it.
    pub(crate) fn record_capture(&mut self, c: &RegexCapture, token: Option<TokenType>)
        ensures
            infos_view(final(self).token_infos@)
                == spec_add_location(infos_view(old(self).token_infos@), capture_view(*c), token),
            final(self).tokens == old(self).tokens,
            final(self).data == old(self).data,
            final(self).language == old(self).language,
    {
        let ghost before = self.token_infos@;
        let added = self.add_token_location(c.whole.start, c.whole.end, token, c.whole.text.clone());
        proof {
            lemma_overlap_views(before, c.whole.start as int, c.whole.end as int);
            if added {
                lemma_views_push(before, self.token_infos@.last());
                assert(self.token_infos@ == before.push(self.token_infos@.last()));
            }
        }
    }

    fn record_matches(&mut self, captures: &Vec<RegexCapture>, operators: bool)
        requires
            operators ==> forall|k: int| 0 <= k < captures@.len() ==> (#[trigger] captures@[k]).whole.text@.len() > 0,
        ensures
            infos_view(final(self).token_infos@)
                == spec_record_matches(infos_view(old(self).token_infos@), captures_view(captures@), operators),
            final(self).tokens == old(self).tokens,
            final(self).data == old(self).data,
            final(self).language == old(self).language,
    {
        let ghost init = infos_view(self.token_infos@);
        let ghost all = captures_view(captures@);
        let mut j: usize = 0;
        assert(all.take(0) =~= Seq::<MatchView>::empty());
        while j < captures.len()
            invariant
                j <= captures@.len(),
                all == captures_view(captures@),
                operators ==> forall|k: int| 0 <= k < captures@.len() ==> (#[trigger] captures@[k]).whole.text@.len() > 0,
                infos_view(self.token_infos@) == spec_record_matches(init, all.take(j as int), operators),
                self.tokens == old(self).tokens,
                self.data == old(self).data,
                self.language == old(self).language,
            decreases captures@.len() - j,
        {
            let c = &captures[j];
            let token = if operators {
                let chars = chars_of(c.whole.text.as_str());
                Some(TokenType::Operator(chars[0]))
            } else {
                None
            };
            let ghost before = self.token_infos@;
            let ghost m = capture_view(captures@[j as int]);
            proof {
                assert(all.take(j + 1).drop_last() =~= all.take(j as int));
                assert(all.take(j + 1).last() == m);
                assert(token == spec_match_token(m, operators));
            }
            let added = self.add_token_location(c.whole.start, c.whole.end, token, c.whole.text.clone());
            proof {
                let vs = infos_view(before);
                lemma_overlap_views(before, m.0 as int, m.1 as int);
                if added {
                    lemma_views_push(before, self.token_infos@.last());
                    assert(self.token_infos@ == before.push(self.token_infos@.last()));
                }
            }
            j = j + 1;
        }
        assert(all.take(j as int) =~= all);
    }

    fn record_patterns(&mut self, all: &Vec<Vec<RegexCapture>>, patterns: &Vec<String>, operators: bool)
        requires
            all@.len() == patterns@.len(),
            forall|p: int| 0 <= p < all@.len()
                ==> captures_view(#[trigger] all@[p]@) == spec_regex_captures(patterns@[p]@, old(self).data@, Seq::empty()),
            operators ==> forall|p: int, k: int| 0 <= p < all@.len() && 0 <= k < all@[p]@.len()
                ==> (#[trigger] all@[p]@[k]).whole.text@.len() > 0,
        ensures
            infos_view(final(self).token_infos@)
                == spec_record_patterns(infos_view(old(self).token_infos@), old(self).data@, texts_view(patterns@), operators),
            final(self).tokens == old(self).tokens,
            final(self).data == old(self).data,
            final(self).language == old(self).language,
    {
        let ghost init = infos_view(self.token_infos@);
        let ghost names = texts_view(patterns@);
        let mut p: usize = 0;
        assert(names.take(0) =~= Seq::<Seq<char>>::empty());
        while p < all.len()
            invariant
                p <= all@.len(),
                all@.len() == patterns@.len(),
                names == texts_view(patterns@),
                forall|q: int| 0 <= q < all@.len()
                    ==> captures_view(#[trigger] all@[q]@) == spec_regex_captures(patterns@[q]@, old(self).data@, Seq::empty()),
                operators ==> forall|q: int, k: int| 0 <= q < all@.len() && 0 <= k < all@[q]@.len()
                    ==> (#[trigger] all@[q]@[k]).whole.text@.len() > 0,
                infos_view(self.token_infos@) == spec_record_patterns(init, old(self).data@, names.take(p as int), operators),
                self.tokens == old(self).tokens,
                self.data == old(self).data,
                self.language == old(self).language,
            decreases all@.len() - p,
        {
            proof {
                assert(names.take(p + 1).drop_last() =~= names.take(p as int));
                assert(names.take(p + 1).last() == patterns@[p as int]@);
                assert(captures_view(all@[p as int]@) == spec_regex_captures(patterns@[p as int]@, old(self).data@, Seq::empty()));
                if operators {
                    assert forall|k: int| 0 <= k < all@[p as int]@.len() implies (#[trigger] all@[p as int]@[k]).whole.text@.len() > 0 by {}
                }
            }
            self.record_matches(&all[p], operators);
            p = p + 1;
        }
        assert(names.take(p as int) =~= names);
    }

    /// Records each match of the comment patterns in the line as a located
    /// token without a token kind, where no recorded token overlaps it.
    pub fn comment_regex_parser(&mut self, patterns: &Vec<String>)
        ensures
            infos_view(final(self).token_infos@)
                == spec_record_patterns(infos_view(old(self).token_infos@), old(self).data@, texts_view(patterns@), false),
            final(self).tokens == old(self).tokens,
            final(self).data == old(self).data,
            final(self).language == old(self).language,
    {
        let data = String::from_str(self.data.as_str());
        let all = scan_patterns(data.as_str(), patterns);
        self.record_patterns(&all, patterns, false);
    }

    /// Records each match of the whitespace patterns in the line as a
    /// located token without a token kind, where no recorded token overlaps it.
    pub fn whitespace_regex_parser(&mut self, patterns: &Vec<String>)
        ensures
            infos_view(final(self).token_infos@)
                == spec_record_patterns(infos_view(old(self).token_infos@), old(self).data@, texts_view(patterns@), false),
            final(self).tokens == old(self).tokens,
            final(self).data == old(self).data,
            final(self).language == old(self).language,
    {
        let data = String::from_str(self.data.as_str());
        let all = scan_patterns(data.as_str(), patterns);
        self.record_patterns(&all, patterns, false);
    }

    /// Records each match of the operator patterns in the line as an
    /// operator token, its first character, where no recorded token overlaps
    /// it. Gives `false`, recording nothing, when some match is empty, for
    /// an empty match has no operator.
    #[verifier::loop_isolation(false)]
    pub fn operator_regex_parser(&mut self, patterns: &Vec<String>) -> (r: bool)
        ensures
            r == spec_matches_nonempty(old(self).data@, texts_view(patterns@)),
            r ==> infos_view(final(self).token_infos@)
                == spec_record_patterns(infos_view(old(self).token_infos@), old(self).data@, texts_view(patterns@), true),
            !r ==> final(self).token_infos == old(self).token_infos,
            final(self).tokens == old(self).tokens,
            final(self).data == old(self).data,
            final(self).language == old(self).language,
    {
        let data = String::from_str(self.data.as_str());
        let all = scan_patterns(data.as_str(), patterns);
        let ghost names = texts_view(patterns@);
        let mut p: usize = 0;
        while p < all.len()
            invariant
                p <= all@.len(),
                all@.len() == patterns@.len(),
                names == texts_view(patterns@),
                data@ == self.data@,
                forall|q: int| 0 <= q < all@.len()
                    ==> captures_view(#[trigger] all@[q]@) == spec_regex_captures(patterns@[q]@, data@, Seq::empty()),
                forall|q: int, k: int| 0 <= q < p && 0 <= k < all@[q]@.len()
                    ==> (#[trigger] all@[q]@[k]).whole.text@.len() > 0,
            decreases all@.len() - p,
        {
            let mut k: usize = 0;
            while k < all[p].len()
                invariant
                    p < all@.len(),
                    k <= all@[p as int]@.len(),
                    forall|m: int| 0 <= m < k ==> (#[trigger] all@[p as int]@[m]).whole.text@.len() > 0,
                decreases all@[p as int]@.len() - k,
            {
                let chars = chars_of(all[p][k].whole.text.as_str());
                if chars.len() == 0 {
                    proof {
                        let cv = captures_view(all@[p as int]@);
                        assert(cv[k as int] == capture_view(all@[p as int]@[k as int]));
                        assert(names[p as int] == patterns@[p as int]@);
                        assert(spec_regex_captures(names[p as int], data@, Seq::empty())[k as int].2.len() == 0);
                    }
                    return false;
                }
                k = k + 1;
            }
            p = p + 1;
        }
        proof {
            assert forall|q: int, k: int| 0 <= q < names.len() && 0 <= k < spec_regex_captures(names[q], data@, Seq::empty()).len()
                implies (#[trigger] spec_regex_captures(names[q], data@, Seq::empty())[k]).2.len() > 0 by {
                let cv = captures_view(all@[q]@);
                assert(names[q] == patterns@[q]@);
                assert(cv[k] == capture_view(all@[q]@[k]));
            }
        }
        self.record_patterns(&all, patterns, true);
        true
    }
}

/// An alias: the pattern it is recognised by, the text it stands for, and
/// the atoms read from that text.
pub struct Alias {
    pub pattern: String,
    pub target: String,
    pub atoms: Vec<Option<TokenType>>,
}

/// The token a located token's text gets from the aliases from `k` on: the
/// first alias whose pattern matches the lower-cased text and whose text
/// reads as no atom gives a text token of its target; one that reads as one
/// atom with a token gives that token; an alias with more atoms, or with
/// one atom without a token, is passed over. With no such alias the token
/// stays `current`.
pub open spec fn spec_alias_kind(text: Seq<char>, aliases: Seq<Alias>, k: int, current: Option<TokenType>) -> Option<TokenType>
    decreases aliases.len() - k,
{
    if k < 0 || k >= aliases.len() {
        current
    } else if spec_regex_is_match(aliases[k].pattern@, spec_lowercase(text)) && aliases[k].atoms@.len() == 0 {
        Some(TokenType::Text(aliases[k].target))
    } else if spec_regex_is_match(aliases[k].pattern@, spec_lowercase(text)) && aliases[k].atoms@.len() == 1
        && aliases[k].atoms@[0] is Some {
        aliases[k].atoms@[0]
    } else {
        spec_alias_kind(text, aliases, k + 1, current)
    }
}

fn alias_kind(text: &str, aliases: &Vec<Alias>, current: &Option<TokenType>) -> (r: Option<TokenType>)
    ensures
        r == spec_alias_kind(text@, aliases@, 0, *current),
{
    let lower = to_lowercase(text);
    let mut k: usize = 0;
    while k < aliases.len()
        invariant
            k <= aliases@.len(),
            lower@ == spec_lowercase(text@),
            spec_alias_kind(text@, aliases@, 0, *current) == spec_alias_kind(text@, aliases@, k as int, *current),
        decreases aliases@.len() - k,
    {
        let alias = &aliases[k];
        if regex_is_match(alias.pattern.as_str(), lower.as_str()) {
            if alias.atoms.len() == 0 {
                return Some(TokenType::Text(alias.target.clone()));
            }
            if alias.atoms.len() == 1 {
                match &alias.atoms[0] {
                    Some(t) => {
                        return Some(t.duplicate());
                    },
                    None => {},
                }
            }
        }
        k = k + 1;
    }
    match current {
        Some(t) => Some(t.duplicate()),
        None => None,
    }
}

impl Tokinizer {
    /// Gives each located token the token its text stands for by the
    /// aliases, keeping everything else about it.
    pub fn alias_tokinizer(&mut self, aliases: &Vec<Alias>)
        ensures
            final(self).token_infos@.len() == old(self).token_infos@.len(),
            forall|i: int| 0 <= i < old(self).token_infos@.len() ==> {
                let before = #[trigger] old(self).token_infos@[i];
                let after = final(self).token_infos@[i];
                &&& after.start == before.start
                &&& after.end == before.end
                &&& after.original_text == before.original_text
                &&& after.status == before.status
                &&& after.token_type == spec_alias_kind(before.original_text@, aliases@, 0, before.token_type)
            },
            final(self).tokens == old(self).tokens,
            final(self).data == old(self).data,
            final(self).language == old(self).language,
    {
        let mut next: Vec<TokenInfo> = Vec::new();
        let mut i: usize = 0;
        while i < self.token_infos.len()
            invariant
                i <= self.token_infos@.len(),
                self.token_infos == old(self).token_infos,
                next@.len() == i,
                forall|j: int| 0 <= j < i ==> {
                    let before = #[trigger] old(self).token_infos@[j];
                    let after = next@[j];
                    &&& after.start == before.start
                    &&& after.end == before.end
                    &&& after.original_text == before.original_text
                    &&& after.status == before.status
                    &&& after.token_type == spec_alias_kind(before.original_text@, aliases@, 0, before.token_type)
                },
            decreases self.token_infos@.len() - i,
        {
            let info = &self.token_infos[i];
            let kind = alias_kind(info.original_text.as_str(), aliases, &info.token_type);
            next.push(TokenInfo {
                start: info.start,
                end: info.end,
                token_type: kind,
                original_text: info.original_text.clone(),
                status: info.status,
            });
            i = i + 1;
        }
        self.token_infos = next;
    }
}

} // verus!
