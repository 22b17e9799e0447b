//! The month, field and time zone patterns of the configuration, read in a
//! line: which located tokens each match records; and the time zone a text
//! given as the zone to use reads as.
use vstd::prelude::*;
use std::rc::Rc;
use crate::tokinizer::{CaptureSpan, Tokinizer};
use crate::variable::{InfoView, infos_view};
use crate::types::TokenType;
use crate::field::{get_field_type, spec_field_type_known_text, spec_is_field_type_text, lemma_field_type_texts, option_text};
use crate::scan::{MatchView, RegexCapture, regex_captures, spec_regex_captures, spec_add_location, captures_view,
    capture_view, texts_view, group_view};
use crate::text::{text_eq, to_uppercase, spec_uppercase};
use crate::tools::{TimezoneCapture, offset_readable_of, offset_readable_text, parse_timezone, spec_find_zone, spec_offset_minutes_of};

verus! {

/// Recording each match of a list with the same token, one after another.
pub open spec fn spec_record_all(views: Seq<InfoView>, matches: Seq<MatchView>, token: Option<TokenType>) -> Seq<InfoView>
    decreases matches.len(),
{
    if matches.len() == 0 {
        views
    } else {
        spec_add_location(spec_record_all(views, matches.drop_last(), token), matches.last(), token)
    }
}

/// The patterns of the months and their numbers, as texts.
pub open spec fn months_view(months: Seq<(String, u32)>) -> Seq<(Seq<char>, u32)> {
    months.map_values(|m: (String, u32)| (m.0@, m.1))
}

/// Recording the matches of each month's pattern in the text as that month,
/// month after month.
pub open spec fn spec_record_months(views: Seq<InfoView>, data: Seq<char>, months: Seq<(Seq<char>, u32)>) -> Seq<InfoView>
    decreases months.len(),
{
    if months.len() == 0 {
        views
    } else {
        spec_record_all(
            spec_record_months(views, data, months.drop_last()),
            spec_regex_captures(months.last().0, data, Seq::empty()),
            Some(TokenType::Month(months.last().1)),
        )
    }
}

/// The names of the groups a field pattern captures.
pub open spec fn spec_field_group_names() -> Seq<Seq<char>> {
    seq!["FIELD"@, "NAME"@, "EXTRA"@]
}

/// The matches of each pattern in a text, pattern after pattern, with the
/// named groups `names`.
pub open spec fn spec_all_matches(data: Seq<char>, patterns: Seq<Seq<char>>, names: Seq<Seq<char>>) -> Seq<MatchView>
    decreases patterns.len(),
{
    if patterns.len() == 0 {
        Seq::empty()
    } else {
        spec_all_matches(data, patterns.drop_last(), names) + spec_regex_captures(patterns.last(), data, names)
    }
}

/// Whether a field match can be read: it has a type and a name, and names
/// no word group where the language has none.
pub open spec fn spec_field_match_ready(m: MatchView, has_word_groups: bool) -> bool {
    &&& m.3.len() == 3
    &&& m.3[0] is Some
    &&& m.3[1] is Some
    &&& (!has_word_groups ==> m.3[0] != Some("GROUP"@))
}

/// Whether a field match names a field the tables know.
pub open spec fn spec_field_match_known(
    m: MatchView,
    word_groups: Seq<(String, Vec<String>)>,
    type_groups: Seq<(String, Vec<String>)>,
) -> bool {
    spec_field_type_known_text(word_groups, type_groups, m.3[0]->Some_0, m.3[2])
}

/// Whether a token is the field a match names: a field token whose field is
/// of the match's type, with the match's name and extra part.
pub open spec fn spec_field_token_of(
    t: TokenType,
    m: MatchView,
    word_groups: Seq<(String, Vec<String>)>,
    type_groups: Seq<(String, Vec<String>)>,
) -> bool {
    t matches TokenType::Field(f)
        && spec_is_field_type_text(*f, word_groups, type_groups, m.3[0]->Some_0, m.3[1]->Some_0, m.3[2])
}

/// Recording field matches: a match that names a known field records the
/// field token given for it; any other match records nothing.
pub open spec fn spec_record_fields(
    views: Seq<InfoView>,
    matches: Seq<MatchView>,
    tokens: Seq<TokenType>,
    word_groups: Seq<(String, Vec<String>)>,
    type_groups: Seq<(String, Vec<String>)>,
) -> Seq<InfoView>
    decreases matches.len(),
{
    if matches.len() == 0 {
        views
    } else {
        let before = spec_record_fields(views, matches.drop_last(), tokens.drop_last(), word_groups, type_groups);
        if spec_field_match_known(matches.last(), word_groups, type_groups) {
            spec_add_location(before, matches.last(), Some(tokens.last()))
        } else {
            before
        }
    }
}

/// Whether the tokens given for field matches are the fields they name,
/// where they name a known field.
pub open spec fn spec_field_tokens_fit(
    matches: Seq<MatchView>,
    tokens: Seq<TokenType>,
    word_groups: Seq<(String, Vec<String>)>,
    type_groups: Seq<(String, Vec<String>)>,
) -> bool {
    &&& tokens.len() == matches.len()
    &&& forall|i: int| 0 <= i < matches.len() && spec_field_match_known(matches[i], word_groups, type_groups)
        ==> spec_field_token_of(#[trigger] tokens[i], matches[i], word_groups, type_groups)
}

/// The names of the groups a time zone pattern captures.
pub open spec fn spec_timezone_group_names() -> Seq<Seq<char>> {
    seq!["timezone_1"@, "timezone_2"@, "timezone_hour"@, "timezone_minute"@, "timezone_type"@]
}

/// Whether a time zone match can be read: where it names no zone but an
/// offset, the offset reads as minutes that fit.
pub open spec fn spec_timezone_match_ready(m: MatchView) -> bool {
    m.3[0] is None && m.3[1] is Some ==> offset_readable_of(m.3[2], m.3[3], m.3[4])
}

/// The zone a time zone match reads as, with its offset in minutes: a zone
/// name, upper-cased and found in the table of zones, with the table's
/// offset; else an offset, named as captured; else nothing.
pub open spec fn spec_timezone_of(m: MatchView, zones: Seq<(String, i32)>) -> Option<(Seq<char>, int)> {
    match m.3[0] {
        Some(tz) => match spec_find_zone(zones, spec_uppercase(tz)) {
            Some(k) => Some((spec_uppercase(tz), zones[k].1 as int)),
            None => None,
        },
        None => match m.3[1] {
            Some(tz) => Some((tz, spec_offset_minutes_of(m.3[2]->Some_0, m.3[3], m.3[4]))),
            None => None,
        },
    }
}

/// Whether a token is the time zone a match reads as.
pub open spec fn spec_timezone_token_of(t: TokenType, zone: (Seq<char>, int)) -> bool {
    t matches TokenType::Timezone(name, offset) && name@ == zone.0 && offset as int == zone.1
}

/// Recording time zone matches: a match that reads as a zone records the
/// token given for it; any other match records nothing.
pub open spec fn spec_record_timezones(
    views: Seq<InfoView>,
    matches: Seq<MatchView>,
    tokens: Seq<TokenType>,
    zones: Seq<(String, i32)>,
) -> Seq<InfoView>
    decreases matches.len(),
{
    if matches.len() == 0 {
        views
    } else {
        let before = spec_record_timezones(views, matches.drop_last(), tokens.drop_last(), zones);
        if spec_timezone_of(matches.last(), zones) is Some {
            spec_add_location(before, matches.last(), Some(tokens.last()))
        } else {
            before
        }
    }
}

/// Whether the tokens given for time zone matches are the zones they read
/// as, where they read as one.
pub open spec fn spec_timezone_tokens_fit(matches: Seq<MatchView>, tokens: Seq<TokenType>, zones: Seq<(String, i32)>) -> bool {
    &&& tokens.len() == matches.len()
    &&& forall|i: int| 0 <= i < matches.len() && spec_timezone_of(matches[i], zones) is Some
        ==> spec_timezone_token_of(#[trigger] tokens[i], spec_timezone_of(matches[i], zones)->Some_0)
}

fn timezone_group_names() -> (r: Vec<String>)
    ensures
        r@.len() == 5,
        texts_view(r@) == spec_timezone_group_names(),
{
    let mut r: Vec<String> = Vec::new();
    r.push(String::from_str("timezone_1"));
    r.push(String::from_str("timezone_2"));
    r.push(String::from_str("timezone_hour"));
    r.push(String::from_str("timezone_minute"));
    r.push(String::from_str("timezone_type"));
    assert(texts_view(r@) =~= spec_timezone_group_names());
    r
}

/// The time zone parts of a match of a time zone pattern.
fn timezone_capture(c: &RegexCapture) -> (r: TimezoneCapture)
    requires
        c.groups@.len() >= 5,
    ensures
        option_text(r.timezone_1) == capture_view(*c).3[0],
        option_text(r.timezone_2) == capture_view(*c).3[1],
        option_text(r.timezone_hour) == capture_view(*c).3[2],
        option_text(r.timezone_minute) == capture_view(*c).3[3],
        option_text(r.timezone_type) == capture_view(*c).3[4],
{
    TimezoneCapture {
        timezone_1: clone_group(&c.groups[0]),
        timezone_2: clone_group(&c.groups[1]),
        timezone_hour: clone_group(&c.groups[2]),
        timezone_minute: clone_group(&c.groups[3]),
        timezone_type: clone_group(&c.groups[4]),
    }
}

/// The names of the groups a time zone setting reads: the parts of a zone,
/// then the whole zone.
pub open spec fn spec_timezone_setting_names() -> Seq<Seq<char>> {
    spec_timezone_group_names().push("timezone"@)
}

/// What a text given as the time zone to use reads as, by the first time
/// zone pattern.
pub enum TimezoneSetting {
    /// A zone, with its name upper-cased and its offset in minutes.
    Zone(String, i32),
    /// The pattern matched no zone, or a zone name the table does not hold.
    NotFound,
    /// The pattern matched nothing in the text.
    NoMatch,
    /// The match names an offset that does not read as minutes that fit.
    Unreadable,
}

fn timezone_setting_names() -> (r: Vec<String>)
    ensures
        r@.len() == 6,
        texts_view(r@) == spec_timezone_setting_names(),
{
    let mut r = timezone_group_names();
    r.push(String::from_str("timezone"));
    assert(texts_view(r@) =~= spec_timezone_setting_names());
    r
}

/// Reads a text given as the time zone to use with the first time zone
/// pattern: its first match, where the pattern's `timezone` group took
/// part, reads as the zone it names, as the time zone patterns of a line
/// read, with its name upper-cased.
pub fn read_timezone_setting(pattern: &str, text: &str, timezones: &Vec<(String, i32)>) -> (r: TimezoneSetting)
    ensures
        ({
            let ms = spec_regex_captures(pattern@, text@, spec_timezone_setting_names());
            if ms.len() == 0 {
                r is NoMatch
            } else if ms[0].3[5] is None {
                r is NotFound
            } else if !spec_timezone_match_ready(ms[0]) {
                r is Unreadable
            } else {
                match spec_timezone_of(ms[0], timezones@) {
                    Some(zone) => r matches TimezoneSetting::Zone(name, offset)
                        && name@ == spec_uppercase(zone.0) && offset as int == zone.1,
                    None => r is NotFound,
                }
            }
        }),
{
    let names = timezone_setting_names();
    let found = regex_captures(pattern, text, &names);
    if found.len() == 0 {
        return TimezoneSetting::NoMatch;
    }
    let ghost m = capture_view(found@[0]);
    assert(captures_view(found@)[0] == m);
    if found[0].groups[5].is_none() {
        return TimezoneSetting::NotFound;
    }
    let capture = timezone_capture(&found[0]);
    if capture.timezone_1.is_none() && capture.timezone_2.is_some() && !offset_readable_text(&capture) {
        return TimezoneSetting::Unreadable;
    }
    match parse_timezone(timezones, &capture) {
        Some((name, offset)) => TimezoneSetting::Zone(to_uppercase(name.as_str()), offset),
        None => TimezoneSetting::NotFound,
    }
}

fn field_group_names() -> (r: Vec<String>)
    ensures
        r@.len() == 3,
        texts_view(r@) == spec_field_group_names(),
{
    let mut r: Vec<String> = Vec::new();
    r.push(String::from_str("FIELD"));
    r.push(String::from_str("NAME"));
    r.push(String::from_str("EXTRA"));
    assert(texts_view(r@) =~= spec_field_group_names());
    r
}

impl Tokinizer {
    /// Records each match of each month's pattern in `data` as a month
    /// token, month after month, where no recorded token overlaps it.
    pub fn month_parser(&mut self, months: &Vec<(String, u32)>, data: &str)
        ensures
            infos_view(final(self).token_infos@) == spec_record_months(infos_view(old(self).token_infos@), data@, months_view(months@)),
            final(self).tokens == old(self).tokens,
            final(self).data == old(self).data,
            final(self).language == old(self).language,
    {
        let ghost init = infos_view(self.token_infos@);
        let ghost mv = months_view(months@);
        let no_names: Vec<String> = Vec::new();
        assert(texts_view(no_names@) =~= Seq::<Seq<char>>::empty());
        let mut k: usize = 0;
        assert(mv.take(0) =~= Seq::<(Seq<char>, u32)>::empty());
        while k < months.len()
            invariant
                k <= months@.len(),
                mv == months_view(months@),
                texts_view(no_names@) == Seq::<Seq<char>>::empty(),
                infos_view(self.token_infos@) == spec_record_months(init, data@, mv.take(k as int)),
                self.tokens == old(self).tokens,
                self.data == old(self).data,
                self.language == old(self).language,
            decreases months@.len() - k,
        {
            let caps = regex_captures(months[k].0.as_str(), data, &no_names);
            let month: u32 = months[k].1;
            let ghost token = Some(TokenType::Month(month));
            let ghost start = infos_view(self.token_infos@);
            let ghost all = captures_view(caps@);
            let mut j: usize = 0;
            assert(all.take(0) =~= Seq::<MatchView>::empty());
            while j < caps.len()
                invariant
                    j <= caps@.len(),
                    all == captures_view(caps@),
                    token == Some(TokenType::Month(month)),
                    infos_view(self.token_infos@) == spec_record_all(start, all.take(j as int), token),
                    self.tokens == old(self).tokens,
                    self.data == old(self).data,
                    self.language == old(self).language,
                decreases caps@.len() - j,
            {
                proof {
                    assert(all.take(j + 1).drop_last() =~= all.take(j as int));
                    assert(all.take(j + 1).last() == capture_view(caps@[j as int]));
                }
                self.record_capture(&caps[j], Some(TokenType::Month(month)));
                j = j + 1;
            }
            proof {
                assert(all.take(j as int) =~= all);
                assert(mv.take(k + 1).drop_last() =~= mv.take(k as int));
                assert(mv.take(k + 1).last() == (months@[k as int].0@, months@[k as int].1));
            }
            k = k + 1;
        }
        assert(mv.take(k as int) =~= mv);
    }

    /// Records each match of the field patterns in the line as the field it
    /// names, read from its `FIELD`, `NAME` and `EXTRA` groups with the word
    /// groups and kind groups of the configuration, where the field is known
    /// and no recorded token overlaps it; a match naming no known field
    /// records nothing. Gives `false`, recording nothing, when some match
    /// lacks a type or a name, or names a word group while the language has
    /// none.
    #[verifier::loop_isolation(false)]
    pub fn field_regex_parser(
        &mut self,
        patterns: &Vec<String>,
        word_groups: &Vec<(String, Vec<String>)>,
        type_groups: &Vec<(String, Vec<String>)>,
        has_word_groups: bool,
    ) -> (r: bool)
        ensures
            ({
                let ms = spec_all_matches(old(self).data@, texts_view(patterns@), spec_field_group_names());
                &&& r == forall|i: int| 0 <= i < ms.len() ==> spec_field_match_ready(#[trigger] ms[i], has_word_groups)
                &&& r ==> exists|tokens: Seq<TokenType>| {
                    &&& spec_field_tokens_fit(ms, tokens, word_groups@, type_groups@)
                    &&& infos_view(final(self).token_infos@)
                        == #[trigger] spec_record_fields(infos_view(old(self).token_infos@), ms, tokens, word_groups@, type_groups@)
                }
                &&& !r ==> final(self).token_infos == old(self).token_infos
            }),
            final(self).tokens == old(self).tokens,
            final(self).data == old(self).data,
            final(self).language == old(self).language,
    {
        let names = field_group_names();
        let found = all_captures(patterns, self.data.as_str(), &names);
        let ghost ms = captures_view(found@);
        // Every match must be readable before anything is recorded.
        let mut k: usize = 0;
        while k < found.len()
            invariant
                k <= found@.len(),
                ms == captures_view(found@),
                forall|i: int| 0 <= i < k ==> spec_field_match_ready(#[trigger] ms[i], has_word_groups),
            decreases found@.len() - k,
        {
            let c = &found[k];
            let ready = match (&c.groups[0], &c.groups[1]) {
                (Some(kind), Some(_)) => has_word_groups || !text_eq(kind.as_str(), "GROUP"),
                _ => false,
            };
            proof {
                assert(ms[k as int] == capture_view(found@[k as int]));
                assert(ms[k as int].3[0] == group_view(c.groups@[0]));
                assert(ms[k as int].3[1] == group_view(c.groups@[1]));
            }
            if !ready {
                return false;
            }
            k = k + 1;
        }
        // Record each match.
        let ghost init = infos_view(self.token_infos@);
        let ghost mut tokens: Seq<TokenType> = Seq::empty();
        let mut k: usize = 0;
        assert(ms.take(0) =~= Seq::<MatchView>::empty());
        while k < found.len()
            invariant
                k <= found@.len(),
                ms == captures_view(found@),
                forall|i: int| 0 <= i < found@.len() ==> spec_field_match_ready(#[trigger] ms[i], has_word_groups),
                tokens.len() == k,
                spec_field_tokens_fit(ms.take(k as int), tokens, word_groups@, type_groups@),
                infos_view(self.token_infos@) == spec_record_fields(init, ms.take(k as int), tokens, word_groups@, type_groups@),
                self.tokens == old(self).tokens,
                self.data == old(self).data,
                self.language == old(self).language,
            decreases found@.len() - k,
        {
            let c = &found[k];
            let ghost m = ms[k as int];
            proof {
                assert(m == capture_view(found@[k as int]));
                assert(spec_field_match_ready(m, has_word_groups));
            }
            let kind = match &c.groups[0] {
                Some(kind) => kind,
                None => {
                    return false;
                },
            };
            let name = match &c.groups[1] {
                Some(name) => name,
                None => {
                    return false;
                },
            };
            let extra = clone_group(&c.groups[2]);
            proof {
                assert(m.3[0] == Some(kind@));
                assert(m.3[1] == Some(name@));
                assert(m.3[2] == option_text(extra));
            }
            let field = get_field_type(word_groups, type_groups, kind.as_str(), name.as_str(), &extra);
            let ghost step_token: TokenType;
            match field {
                Some(f) => {
                    let token = TokenType::Field(Rc::new(f));
                    proof {
                        lemma_field_type_texts(f, word_groups@, type_groups@, kind@, name@, extra);
                        step_token = token;
                    }
                    self.record_capture(c, Some(token));
                },
                None => {
                    proof {
                        lemma_field_type_texts(arbitrary(), word_groups@, type_groups@, kind@, name@, extra);
                        step_token = TokenType::Operator(' ');
                    }
                },
            }
            proof {
                let next = tokens.push(step_token);
                assert(ms.take(k + 1).drop_last() =~= ms.take(k as int));
                assert(ms.take(k + 1).last() == m);
                assert(next.drop_last() =~= tokens);
                assert(next.last() == step_token);
                assert forall|i: int| 0 <= i < ms.take(k + 1).len()
                    && spec_field_match_known(ms.take(k + 1)[i], word_groups@, type_groups@)
                    implies spec_field_token_of(#[trigger] next[i], ms.take(k + 1)[i], word_groups@, type_groups@) by {
                    if i < k {
                        assert(next[i] == tokens[i]);
                        assert(ms.take(k + 1)[i] == ms.take(k as int)[i]);
                    }
                }
                tokens = next;
            }
            k = k + 1;
        }
        proof {
            assert(ms.take(k as int) =~= ms);
        }
        true
    }

    /// Records each match of the time zone patterns in the upper-cased line
    /// as the zone it reads as, where no recorded token overlaps it: a zone
    /// name found in the table of zones, with the table's offset, or an
    /// offset written as hours and minutes, named as captured; a match that
    /// reads as no zone records nothing. Gives `false`, recording nothing,
    /// when some match names no zone but an offset that does not read as
    /// minutes that fit.
    #[verifier::loop_isolation(false)]
    pub fn timezone_regex_parser(&mut self, patterns: &Vec<String>, timezones: &Vec<(String, i32)>) -> (r: bool)
        ensures
            ({
                let ms = spec_all_matches(spec_uppercase(old(self).data@), texts_view(patterns@), spec_timezone_group_names());
                &&& r == forall|i: int| 0 <= i < ms.len() ==> spec_timezone_match_ready(#[trigger] ms[i])
                &&& r ==> exists|tokens: Seq<TokenType>| {
                    &&& spec_timezone_tokens_fit(ms, tokens, timezones@)
                    &&& infos_view(final(self).token_infos@)
                        == #[trigger] spec_record_timezones(infos_view(old(self).token_infos@), ms, tokens, timezones@)
                }
                &&& !r ==> final(self).token_infos == old(self).token_infos
            }),
            final(self).tokens == old(self).tokens,
            final(self).data == old(self).data,
            final(self).language == old(self).language,
    {
        let names = timezone_group_names();
        let data = to_uppercase(self.data.as_str());
        let found = all_captures(patterns, data.as_str(), &names);
        let ghost ms = captures_view(found@);
        // Every offset must read before anything is recorded.
        let mut k: usize = 0;
        while k < found.len()
            invariant
                k <= found@.len(),
                ms == captures_view(found@),
                forall|i: int| 0 <= i < k ==> spec_timezone_match_ready(#[trigger] ms[i]),
            decreases found@.len() - k,
        {
            let capture = timezone_capture(&found[k]);
            proof {
                assert(ms[k as int] == capture_view(found@[k as int]));
            }
            if capture.timezone_1.is_none() && capture.timezone_2.is_some() && !offset_readable_text(&capture) {
                return false;
            }
            k = k + 1;
        }
        // Record each match.
        let ghost init = infos_view(self.token_infos@);
        let ghost mut tokens: Seq<TokenType> = Seq::empty();
        let mut k: usize = 0;
        assert(ms.take(0) =~= Seq::<MatchView>::empty());
        while k < found.len()
            invariant
                k <= found@.len(),
                ms == captures_view(found@),
                forall|i: int| 0 <= i < found@.len() ==> spec_timezone_match_ready(#[trigger] ms[i]),
                tokens.len() == k,
                spec_timezone_tokens_fit(ms.take(k as int), tokens, timezones@),
                infos_view(self.token_infos@) == spec_record_timezones(init, ms.take(k as int), tokens, timezones@),
                self.tokens == old(self).tokens,
                self.data == old(self).data,
                self.language == old(self).language,
            decreases found@.len() - k,
        {
            let ghost m = ms[k as int];
            let capture = timezone_capture(&found[k]);
            proof {
                assert(m == capture_view(found@[k as int]));
                assert(spec_timezone_match_ready(m));
            }
            let ghost step_token: TokenType;
            match parse_timezone(timezones, &capture) {
                Some((name, offset)) => {
                    let token = TokenType::Timezone(name, offset);
                    proof {
                        step_token = token;
                    }
                    self.record_capture(&found[k], Some(token));
                },
                None => {
                    proof {
                        step_token = arbitrary();
                    }
                },
            }
            proof {
                let next = tokens.push(step_token);
                assert(ms.take(k + 1).drop_last() =~= ms.take(k as int));
                assert(ms.take(k + 1).last() == m);
                assert(next.drop_last() =~= tokens);
                assert(next.last() == step_token);
                assert forall|i: int| 0 <= i < ms.take(k + 1).len()
                    && spec_timezone_of(ms.take(k + 1)[i], timezones@) is Some
                    implies spec_timezone_token_of(#[trigger] next[i], spec_timezone_of(ms.take(k + 1)[i], timezones@)->Some_0) by {
                    if i < k {
                        assert(next[i] == tokens[i]);
                        assert(ms.take(k + 1)[i] == ms.take(k as int)[i]);
                    }
                }
                tokens = next;
            }
            k = k + 1;
        }
        proof {
            assert(ms.take(k as int) =~= ms);
        }
        true
    }
}

/// The matches of each pattern in a text, pattern after pattern, with the
/// named groups `names`.
fn all_captures(patterns: &Vec<String>, data: &str, names: &Vec<String>) -> (found: Vec<RegexCapture>)
    ensures
        captures_view(found@) == spec_all_matches(data@, texts_view(patterns@), texts_view(names@)),
        forall|i: int| 0 <= i < found@.len() ==> (#[trigger] found@[i]).groups@.len() == names@.len(),
{
    let ghost pv = texts_view(patterns@);
    let ghost gn = texts_view(names@);
    let mut found: Vec<RegexCapture> = Vec::new();
    let mut p: usize = 0;
    assert(pv.take(0) =~= Seq::<Seq<char>>::empty());
    while p < patterns.len()
        invariant
            p <= patterns@.len(),
            pv == texts_view(patterns@),
            gn == texts_view(names@),
            captures_view(found@) == spec_all_matches(data@, pv.take(p as int), gn),
            forall|i: int| 0 <= i < found@.len() ==> (#[trigger] found@[i]).groups@.len() == names@.len(),
        decreases patterns@.len() - p,
    {
        let caps = regex_captures(patterns[p].as_str(), data, names);
        let ghost before = found@;
        let ghost cv = captures_view(caps@);
        let mut j: usize = 0;
        while j < caps.len()
            invariant
                j <= caps@.len(),
                cv == captures_view(caps@),
                captures_view(found@) == captures_view(before) + cv.take(j as int),
                forall|i: int| 0 <= i < caps@.len() ==> (#[trigger] caps@[i]).groups@.len() == names@.len(),
                forall|i: int| 0 <= i < found@.len() ==> (#[trigger] found@[i]).groups@.len() == names@.len(),
            decreases caps@.len() - j,
        {
            let whole = CaptureSpan {
                start: caps[j].whole.start,
                end: caps[j].whole.end,
                text: caps[j].whole.text.clone(),
            };
            let c = RegexCapture {
                whole,
                groups: clone_groups(&caps[j].groups),
            };
            assert(capture_view(c) == capture_view(caps@[j as int])) by {
                assert(c.groups@.map_values(|g: Option<String>| group_view(g))
                    =~= caps@[j as int].groups@.map_values(|g: Option<String>| group_view(g)));
            }
            let ghost prev = found@;
            found.push(c);
            proof {
                assert(captures_view(found@) =~= captures_view(prev).push(capture_view(c)));
                assert(cv.take(j + 1) =~= cv.take(j as int).push(cv[j as int]));
            }
            j = j + 1;
        }
        proof {
            assert(cv.take(j as int) =~= cv);
            assert(pv.take(p + 1).drop_last() =~= pv.take(p as int));
            assert(pv.take(p + 1).last() == patterns@[p as int]@);
        }
        p = p + 1;
    }
    assert(pv.take(p as int) =~= pv);
    found
}

fn clone_group(g: &Option<String>) -> (r: Option<String>)
    ensures
        option_text(r) == option_text(*g),
        group_view(r) == group_view(*g),
{
    match g {
        Some(s) => Some(s.clone()),
        None => None,
    }
}

fn clone_groups(groups: &Vec<Option<String>>) -> (r: Vec<Option<String>>)
    ensures
        r@.len() == groups@.len(),
        forall|i: int| 0 <= i < r@.len() ==> group_view(#[trigger] r@[i]) == group_view(groups@[i]),
{
    let mut r: Vec<Option<String>> = Vec::new();
    let mut i: usize = 0;
    while i < groups.len()
        invariant
            i <= groups@.len(),
            r@.len() == i,
            forall|j: int| 0 <= j < i ==> group_view(#[trigger] r@[j]) == group_view(groups@[j]),
        decreases groups@.len() - i,
    {
        r.push(clone_group(&groups[i]));
        i = i + 1;
    }
    r
}

} // verus!
