//! A calculation session: the text split into lines, the line being
//! worked on, the language, and what the lines defined so far.
use vstd::prelude::*;
use crate::types::TokenType;
use crate::tokinizer::TokenInfo;

verus! {

/// The lines of a text: it is cut at every `\n`, and a `\r` just before a
/// `\n` goes with the cut. A text without a newline is one line; the empty
/// text is one empty line.
pub open spec fn spec_split_lines(s: Seq<char>) -> Seq<Seq<char>>
    decreases s.len(),
{
    if s.len() == 0 {
        seq![Seq::empty()]
    } else if s[0] == '\n' {
        seq![Seq::<char>::empty()] + spec_split_lines(s.skip(1))
    } else if s[0] == '\r' && s.len() > 1 && s[1] == '\n' {
        seq![Seq::<char>::empty()] + spec_split_lines(s.skip(2))
    } else {
        let rest = spec_split_lines(s.skip(1));
        rest.update(0, seq![s[0]] + rest[0])
    }
}

/// Every line list of a text has at least one line.
pub proof fn lemma_split_lines_nonempty(s: Seq<char>)
    ensures
        spec_split_lines(s).len() >= 1,
    decreases s.len(),
{
    if s.len() > 0 {
        if s[0] == '\n' {
            lemma_split_lines_nonempty(s.skip(1));
        } else if s[0] == '\r' && s.len() > 1 && s[1] == '\n' {
            lemma_split_lines_nonempty(s.skip(2));
        } else {
            lemma_split_lines_nonempty(s.skip(1));
        }
    }
}

/// `regex::Regex::split` with the pattern `\r\n|\n`, each piece copied into
/// a `String`. The pattern is a constant that compiles, so the call never
/// takes the branch of a compile error; there the text's `lines` would be
/// taken instead, and that branch is what this contract leaves unsaid.
#[verifier::external_body]
fn regex_split_lines(text: &str) -> (r: Vec<String>)
    ensures
        r@.len() == spec_split_lines(text@).len(),
        forall|i: int| 0 <= i < r@.len() ==> #[trigger] r@[i]@ == spec_split_lines(text@)[i],
{
    match regex::Regex::new(r"\r\n|\n") {
        Ok(re) => re.split(text).map(|item| item.to_string()).collect::<Vec<_>>(),
        _ => text.lines().map(|item| item.to_string()).collect::<Vec<_>>(),
    }
}

/// A variable a line defined: its place in the session's list, its name,
/// and the tokens that named it.
pub struct VariableInfo {
    pub index: usize,
    pub name: String,
    pub tokens: Vec<TokenType>,
}

/// The tokens of a variable's definition may stand for a variable only when
/// that variable came before it, and hold no pattern field; a definition
/// has at least one token.
pub open spec fn variable_tokens_ok(tokens: Seq<TokenType>, index: int) -> bool {
    &&& tokens.len() >= 1
    &&& forall|k: int| 0 <= k < tokens.len() ==> token_ok_in_line(#[trigger] tokens[k], index)
}

/// A token may stand in a line while `count` variables exist: it is no
/// pattern field, and a variable it names is one of them.
pub open spec fn token_ok_in_line(t: TokenType, count: int) -> bool {
    match t {
        TokenType::Field(_) => false,
        TokenType::Variable(v) => v.index < count,
        _ => true,
    }
}

/// The variables of a session: each knows its own place in the list, and
/// its definition is well formed for that place.
pub open spec fn variables_ok(vars: Seq<VariableInfo>) -> bool {
    forall|i: int| #![trigger vars[i]] 0 <= i < vars.len() ==> {
        &&& vars[i].index == i
        &&& variable_tokens_ok(vars[i].tokens@, i)
    }
}

/// A calculation session.
pub struct Session {
    pub text: String,
    pub text_parts: Vec<String>,
    pub language: String,
    pub position: usize,
    pub variables: Vec<VariableInfo>,
    pub tokens: Vec<TokenType>,
    pub token_infos: Vec<TokenInfo>,
}

impl Session {
    /// An empty session: no text, no language, no variables.
    pub fn new() -> (r: Session)
        ensures
            r.text@ == Seq::<char>::empty(),
            r.text_parts@.len() == 0,
            r.language@ == Seq::<char>::empty(),
            r.position == 0,
            r.variables@.len() == 0,
            r.tokens@.len() == 0,
            r.token_infos@.len() == 0,
    {
        Session {
            text: String::new(),
            text_parts: Vec::new(),
            language: String::new(),
            position: 0,
            variables: Vec::new(),
            tokens: Vec::new(),
            token_infos: Vec::new(),
        }
    }

    /// Sets the text to calculate and splits it into lines.
    pub fn set_text(&mut self, text: String)
        ensures
            final(self).text@ == text@,
            final(self).text_parts@.len() == spec_split_lines(text@).len(),
            forall|i: int| 0 <= i < final(self).text_parts@.len()
                ==> #[trigger] final(self).text_parts@[i]@ == spec_split_lines(text@)[i],
            final(self).language == old(self).language,
            final(self).position == old(self).position,
            final(self).variables == old(self).variables,
            final(self).tokens == old(self).tokens,
            final(self).token_infos == old(self).token_infos,
    {
        let parts = regex_split_lines(text.as_str());
        self.text = text;
        self.text_parts = parts;
    }

    /// Sets the language the text is read in.
    pub fn set_language(&mut self, language: String)
        ensures
            final(self).language == language,
            final(self).text == old(self).text,
            final(self).text_parts == old(self).text_parts,
            final(self).position == old(self).position,
            final(self).variables == old(self).variables,
            final(self).tokens == old(self).tokens,
            final(self).token_infos == old(self).token_infos,
    {
        self.language = language;
    }

    /// The language the text is read in.
    pub fn get_language(&self) -> (r: String)
        ensures
            r@ == self.language@,
    {
        self.language.clone()
    }

    /// The line being worked on.
    pub fn current(&self) -> (r: &String)
        requires
            self.position < self.text_parts@.len(),
        ensures
            *r == self.text_parts@[self.position as int],
    {
        &self.text_parts[self.position]
    }

    /// How many lines the text has.
    pub fn line_count(&self) -> (r: usize)
        ensures
            r == self.text_parts@.len(),
    {
        self.text_parts.len()
    }

    /// Whether there is a line to work on.
    pub fn has_value(&self) -> (r: bool)
        ensures
            r == (self.position < self.text_parts@.len()),
    {
        self.text_parts.len() > self.position
    }

    /// Moves to the next line and returns the line left, when a next line
    /// exists; otherwise stays and returns nothing.
    pub fn next(&mut self) -> (r: Option<String>)
        ensures
            old(self).position + 1 < old(self).text_parts@.len() ==> {
                &&& r == Some(old(self).text_parts@[old(self).position as int])
                &&& final(self).position == old(self).position + 1
            },
            !(old(self).position + 1 < old(self).text_parts@.len()) ==> {
                &&& r is None
                &&& final(self).position == old(self).position
            },
            final(self).text == old(self).text,
            final(self).text_parts == old(self).text_parts,
            final(self).language == old(self).language,
            final(self).variables == old(self).variables,
            final(self).tokens == old(self).tokens,
            final(self).token_infos == old(self).token_infos,
    {
        if self.position < self.text_parts.len() && self.text_parts.len() - self.position > 1 {
            let current = self.text_parts[self.position].clone();
            self.position = self.position + 1;
            Some(current)
        } else {
            None
        }
    }

    /// Adds a variable at the end of the session's list.
    pub fn add_variable(&mut self, variable_info: VariableInfo)
        ensures
            final(self).variables@ == old(self).variables@.push(variable_info),
            final(self).text == old(self).text,
            final(self).text_parts == old(self).text_parts,
            final(self).language == old(self).language,
            final(self).position == old(self).position,
            final(self).tokens == old(self).tokens,
            final(self).token_infos == old(self).token_infos,
    {
        self.variables.push(variable_info);
    }

    /// Forgets the tokens of the last line.
    pub fn cleanup(&mut self)
        ensures
            final(self).token_infos@.len() == 0,
            final(self).tokens@.len() == 0,
            final(self).text == old(self).text,
            final(self).text_parts == old(self).text_parts,
            final(self).language == old(self).language,
            final(self).position == old(self).position,
            final(self).variables == old(self).variables,
    {
        self.token_infos.clear();
        self.tokens.clear();
    }
}

/// Whether a token may stand in a line while `count` variables exist.
pub fn token_fits_line(t: &TokenType, count: usize) -> (r: bool)
    ensures
        r == token_ok_in_line(*t, count as int),
{
    match t {
        TokenType::Field(_) => false,
        TokenType::Variable(v) => v.index < count,
        _ => true,
    }
}

/// Whether the variables of a session are well formed: each knows its own
/// place, and its definition is a non-empty run of tokens that names only
/// earlier variables and holds no pattern field.
pub fn variables_well_formed(vars: &Vec<VariableInfo>) -> (r: bool)
    ensures
        r == variables_ok(vars@),
{
    let mut i: usize = 0;
    while i < vars.len()
        invariant
            i <= vars@.len(),
            forall|j: int| #![trigger vars@[j]] 0 <= j < i ==> vars@[j].index == j && variable_tokens_ok(vars@[j].tokens@, j),
        decreases vars@.len() - i,
    {
        let v = &vars[i];
        if v.index != i || v.tokens.len() == 0 {
            return false;
        }
        let mut k: usize = 0;
        while k < v.tokens.len()
            invariant
                i < vars@.len(),
                v == &vars@[i as int],
                k <= v.tokens@.len(),
                forall|m: int| 0 <= m < k ==> token_ok_in_line(#[trigger] v.tokens@[m], i as int),
            decreases v.tokens@.len() - k,
        {
            if !token_fits_line(&v.tokens[k], i) {
                return false;
            }
            k = k + 1;
        }
        i = i + 1;
    }
    true
}

} // verus!
