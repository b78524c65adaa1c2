//! Field definitions: which field of which events a matching rule or a generator is for.
//!
//! A definition is written `event`, `retry`, `data[count]`, `data[count][*]`, `data.count.*`,
//! `data[*]` or `data.*`, with any word in the place of `data` and `count`.

use crate::text::{from_chars, same_text, to_chars, trim, trimmed};
use vstd::prelude::*;

verus! {

/// A token of a field definition.
pub enum FieldToken {
    LBracket,
    RBracket,
    Asterisk,
    Dot,
    Word(String),
}

/// A token with its word as a sequence of characters.
pub enum TokenView {
    LBracket,
    RBracket,
    Asterisk,
    Dot,
    Word(Seq<char>),
}

impl View for FieldToken {
    type V = TokenView;

    open spec fn view(&self) -> TokenView {
        match self {
            FieldToken::LBracket => TokenView::LBracket,
            FieldToken::RBracket => TokenView::RBracket,
            FieldToken::Asterisk => TokenView::Asterisk,
            FieldToken::Dot => TokenView::Dot,
            FieldToken::Word(w) => TokenView::Word(w@),
        }
    }
}

/// The views of the tokens in a sequence.
pub open spec fn token_views(ts: Seq<FieldToken>) -> Seq<TokenView> {
    ts.map_values(|t: FieldToken| t@)
}

/// A letter of the Latin alphabet without diacritics, or an underscore.
pub open spec fn is_word_start(c: char) -> bool {
    ||| 'a' <= c <= 'z'
    ||| 'A' <= c <= 'Z'
    ||| c == '_'
}

/// A character that can follow the first one of a word.
pub open spec fn is_word_char(c: char) -> bool {
    is_word_start(c) || '0' <= c <= '9'
}

/// A word: what a field and an event type are named by in a definition.
pub open spec fn is_word(s: Seq<char>) -> bool {
    &&& s.len() > 0
    &&& is_word_start(s[0])
    &&& forall|i: int| 0 <= i < s.len() ==> is_word_char(#[trigger] s[i])
}

/// How many characters at the start of `s` can stand in a word.
pub open spec fn word_len(s: Seq<char>) -> nat
    decreases s.len(),
{
    if s.len() > 0 && is_word_char(s[0]) {
        1 + word_len(s.drop_first())
    } else {
        0
    }
}

/// The token that a single character makes.
pub open spec fn punctuation(c: char) -> Option<TokenView> {
    if c == '[' {
        Some(TokenView::LBracket)
    } else if c == ']' {
        Some(TokenView::RBracket)
    } else if c == '*' {
        Some(TokenView::Asterisk)
    } else if c == '.' {
        Some(TokenView::Dot)
    } else {
        None
    }
}

/// The tokens of `s`: its longest words and its punctuation, in their order. Every other
/// character only separates them.
pub open spec fn tokens(s: Seq<char>) -> Seq<TokenView>
    decreases s.len(),
{
    if s.len() == 0 {
        seq![]
    } else if is_word_start(s[0]) {
        let n = word_len(s);
        if 0 < n <= s.len() {
            seq![TokenView::Word(s.take(n as int))] + tokens(s.skip(n as int))
        } else {
            seq![]
        }
    } else {
        match punctuation(s[0]) {
            Some(t) => seq![t] + tokens(s.drop_first()),
            None => tokens(s.drop_first()),
        }
    }
}

/// What a field definition is about: a field, and the type of the events it is a field of.
#[derive(Debug, Clone, PartialEq, Eq)]
pub struct FieldKey {
    /// The name of the field.
    pub field: String,
    /// The event type; none for the events without a type.
    pub event_type: Option<String>,
}

/// A field key with its names as sequences of characters.
pub struct FieldKeyView {
    pub field: Seq<char>,
    pub event_type: Option<Seq<char>>,
}

impl View for FieldKey {
    type V = FieldKeyView;

    open spec fn view(&self) -> FieldKeyView {
        FieldKeyView {
            field: self.field@,
            event_type: match self.event_type {
                Some(t) => Some(t@),
                None => None,
            },
        }
    }
}

impl FieldKeyView {
    /// The path that rules and generators for the key are filed under.
    pub open spec fn path(self) -> Seq<char> {
        match self.event_type {
            Some(t) => self.field + "."@ + t + ".*"@,
            None => if self.field == "event"@ || self.field == "retry"@ {
                self.field
            } else {
                self.field + ".*"@
            },
        }
    }

    /// The key in brackets, with the wildcard that stands for all the fields.
    pub open spec fn bracketed(self) -> Seq<char> {
        match self.event_type {
            Some(t) => self.field + "["@ + t + "][*]"@,
            None => self.field + "[*]"@,
        }
    }

    /// The names are words, as they are in every key that a definition gives.
    pub open spec fn is_definable(self) -> bool {
        &&& is_word(self.field)
        &&& self.event_type matches Some(t) ==> is_word(t)
    }
}

impl FieldKey {
    /// The path that rules and generators for the key are filed under.
    pub fn path(&self) -> (path: String)
        ensures
            path@ == self@.path(),
    {
        match &self.event_type {
            Some(et) => {
                let mut path = self.field.clone();
                path.append(".");
                path.append(et);
                path.append(".*");
                path
            },
            None => {
                if same_text(&self.field, "event") || same_text(&self.field, "retry") {
                    self.field.clone()
                } else {
                    let mut path = self.field.clone();
                    path.append(".*");
                    path
                }
            },
        }
    }

    /// The key in brackets, with the wildcard that stands for all the fields.
    pub fn bracketed(&self) -> (key: String)
        ensures
            key@ == self@.bracketed(),
    {
        let mut key = self.field.clone();
        match &self.event_type {
            Some(et) => {
                key.append("[");
                key.append(et);
                key.append("][*]");
            },
            None => {
                key.append("[*]");
            },
        }
        key
    }

    /// Whether the key is for events of one type.
    pub fn is_typed(&self) -> (b: bool)
        ensures
            b == (self@.event_type is Some),
    {
        self.event_type.is_some()
    }
}

/// Why a text is no field definition.
#[derive(Debug, Clone, Copy, PartialEq, Eq, Structural)]
pub enum FieldErrorKind {
    /// There is no token in it.
    Empty,
    /// It does not begin with a field name.
    NoFieldName,
    /// Neither a bracket nor a dot follows the field name.
    Invalid,
    /// It ends after the opening bracket.
    NoEventType,
    /// What follows the opening bracket is no event type.
    BadEventType,
    /// A bracket is not closed.
    NoClosingBracket,
    /// The second pair of brackets does not hold the wildcard.
    NoWildcard,
    /// No event type follows the first dot.
    NoEventTypeAfterDot,
    /// No wildcard follows the second dot.
    NoAsterisk,
}

/// The words of an error before the definition, which stands in quotes at the end.
pub open spec fn error_words(kind: FieldErrorKind) -> Seq<char> {
    match kind {
        FieldErrorKind::Empty => "Empty field definition: '"@,
        FieldErrorKind::NoFieldName => "Expected field name in '"@,
        FieldErrorKind::Invalid => "Invalid field definition: '"@,
        FieldErrorKind::NoEventType => "Expected event type in '"@,
        FieldErrorKind::BadEventType => "Expected event type in field definition: '"@,
        FieldErrorKind::NoClosingBracket => "Expected ']' in field definition: '"@,
        FieldErrorKind::NoWildcard => "Expected '[*]' in field definition: '"@,
        FieldErrorKind::NoEventTypeAfterDot => "Expected event type after '.' in '"@,
        FieldErrorKind::NoAsterisk => "Expected '*' after '.' in field definition: '"@,
    }
}

/// The message for a definition that was refused.
pub open spec fn error_text(kind: FieldErrorKind, definition: Seq<char>) -> Seq<char> {
    error_words(kind) + definition + "'"@
}

/// A refused field definition.
#[derive(Debug, Clone, PartialEq, Eq)]
pub struct FieldError {
    /// What is wrong with it.
    pub kind: FieldErrorKind,
    /// The definition, without the white space around it.
    pub definition: String,
}

impl FieldError {
    /// The message that tells the user.
    pub fn text(&self) -> (text: String)
        ensures
            text@ == error_text(self.kind, self.definition@),
    {
        let words = match self.kind {
            FieldErrorKind::Empty => "Empty field definition: '",
            FieldErrorKind::NoFieldName => "Expected field name in '",
            FieldErrorKind::Invalid => "Invalid field definition: '",
            FieldErrorKind::NoEventType => "Expected event type in '",
            FieldErrorKind::BadEventType => "Expected event type in field definition: '",
            FieldErrorKind::NoClosingBracket => "Expected ']' in field definition: '",
            FieldErrorKind::NoWildcard => "Expected '[*]' in field definition: '",
            FieldErrorKind::NoEventTypeAfterDot => "Expected event type after '.' in '",
            FieldErrorKind::NoAsterisk => "Expected '*' after '.' in field definition: '",
        };
        let mut text = words.to_owned();
        text.append(&self.definition);
        text.append("'");
        text
    }
}

/// The key that the tokens `t` give, which begin with the word `field` and an opening bracket.
pub open spec fn bracket_key(t: Seq<TokenView>, field: Seq<char>) -> Result<
    FieldKeyView,
    FieldErrorKind,
> {
    if t.len() == 2 {
        Err(FieldErrorKind::NoEventType)
    } else {
        match t[2] {
            TokenView::Asterisk => if t.len() > 3 && t[3] == TokenView::RBracket {
                Ok(FieldKeyView { field, event_type: None })
            } else {
                Err(FieldErrorKind::NoClosingBracket)
            },
            TokenView::Word(et) => if t.len() > 3 && t[3] == TokenView::RBracket {
                if t.len() > 4 && t[4] == TokenView::LBracket {
                    if !(t.len() > 5 && t[5] == TokenView::Asterisk) {
                        Err(FieldErrorKind::NoWildcard)
                    } else if !(t.len() > 6 && t[6] == TokenView::RBracket) {
                        Err(FieldErrorKind::NoClosingBracket)
                    } else {
                        Ok(FieldKeyView { field, event_type: Some(et) })
                    }
                } else {
                    Ok(FieldKeyView { field, event_type: Some(et) })
                }
            } else {
                Err(FieldErrorKind::NoClosingBracket)
            },
            _ => Err(FieldErrorKind::BadEventType),
        }
    }
}

/// The key that the tokens `t` give, which begin with the word `field` and a dot.
pub open spec fn dot_key(t: Seq<TokenView>, field: Seq<char>) -> Result<
    FieldKeyView,
    FieldErrorKind,
> {
    if t.len() == 2 {
        Err(FieldErrorKind::NoEventTypeAfterDot)
    } else {
        match t[2] {
            TokenView::Asterisk => Ok(FieldKeyView { field, event_type: None }),
            TokenView::Word(et) => if t.len() > 3 && t[3] == TokenView::Dot && !(t.len() > 4
                && t[4] == TokenView::Asterisk) {
                Err(FieldErrorKind::NoAsterisk)
            } else {
                Ok(FieldKeyView { field, event_type: Some(et) })
            },
            _ => Err(FieldErrorKind::NoEventTypeAfterDot),
        }
    }
}

/// The key that the tokens of a definition give. What follows a complete definition is ignored.
pub open spec fn token_key(t: Seq<TokenView>) -> Result<FieldKeyView, FieldErrorKind> {
    if t.len() == 0 {
        Err(FieldErrorKind::Empty)
    } else {
        match t[0] {
            TokenView::Word(field) => if t.len() == 1 {
                Ok(FieldKeyView { field, event_type: None })
            } else {
                match t[1] {
                    TokenView::LBracket => bracket_key(t, field),
                    TokenView::Dot => dot_key(t, field),
                    _ => Err(FieldErrorKind::Invalid),
                }
            },
            _ => Err(FieldErrorKind::NoFieldName),
        }
    }
}

/// The key that a field definition gives.
pub open spec fn field_key(s: Seq<char>) -> Result<FieldKeyView, FieldErrorKind> {
    let t = trimmed(s);
    if t == "event"@ || t == "retry"@ {
        Ok(FieldKeyView { field: t, event_type: None })
    } else {
        token_key(tokens(t))
    }
}

fn word_start(c: char) -> (b: bool)
    ensures
        b == is_word_start(c),
{
    ('a' <= c && c <= 'z') || ('A' <= c && c <= 'Z') || c == '_'
}

fn word_char(c: char) -> (b: bool)
    ensures
        b == is_word_char(c),
{
    word_start(c) || ('0' <= c && c <= '9')
}

proof fn lemma_word_len(s: Seq<char>, n: int)
    requires
        0 <= n <= s.len(),
        forall|i: int| 0 <= i < n ==> is_word_char(#[trigger] s[i]),
        n == s.len() || !is_word_char(s[n]),
    ensures
        word_len(s) == n,
    decreases n,
{
    if n > 0 {
        lemma_word_len(s.drop_first(), n - 1);
    }
}

/// The tokens of `s`.
fn tokenize(s: &str) -> (ts: Vec<FieldToken>)
    ensures
        token_views(ts@) == tokens(s@),
{
    let v = to_chars(s);
    let n: usize = v.len();
    let mut ts: Vec<FieldToken> = Vec::new();
    let mut i: usize = 0;
    assert(v@.skip(0) =~= v@);
    assert(token_views(ts@) =~= seq![]);
    assert(tokens(s@) =~= token_views(ts@) + tokens(v@.skip(0)));
    while i < n
        invariant
            0 <= i <= n == v@.len(),
            v@ == s@,
            tokens(s@) == token_views(ts@) + tokens(v@.skip(i as int)),
        decreases n - i,
    {
        let ghost rest = v@.skip(i as int);
        let ghost before = token_views(ts@);
        let c = v[i];
        if word_start(c) {
            let mut j: usize = i + 1;
            while j < n && word_char(v[j])
                invariant
                    0 <= i < j <= n == v@.len(),
                    forall|k: int| i <= k < j ==> is_word_char(#[trigger] v@[k]),
                decreases n - j,
            {
                j = j + 1;
            }
            proof {
                lemma_word_len(rest, j - i);
                assert(rest.take(j - i) =~= v@.subrange(i as int, j as int));
                assert(rest.skip(j - i) =~= v@.skip(j as int));
            }
            let word = FieldToken::Word(from_chars(&v.as_slice()[i..j]));
            ts.push(word);
            assert(token_views(ts@) =~= before.push(TokenView::Word(rest.take(j - i))));
            i = j;
        } else {
            if c == '[' {
                ts.push(FieldToken::LBracket);
            } else if c == ']' {
                ts.push(FieldToken::RBracket);
            } else if c == '*' {
                ts.push(FieldToken::Asterisk);
            } else if c == '.' {
                ts.push(FieldToken::Dot);
            }
            proof {
                assert(rest.drop_first() =~= v@.skip(i + 1));
                match punctuation(c) {
                    Some(t) => {
                        assert(token_views(ts@) =~= before.push(t));
                    },
                    None => {},
                }
            }
            i = i + 1;
        }
        assert(tokens(s@) =~= token_views(ts@) + tokens(v@.skip(i as int)));
    }
    assert(v@.skip(n as int) =~= seq![]);
    assert(tokens(v@.skip(n as int)) =~= seq![]);
    assert(token_views(ts@) + seq![] =~= token_views(ts@));
    ts
}

/// Whether the token at `i` is there and is the given mark.
fn mark_at(ts: &Vec<FieldToken>, i: usize, mark: char) -> (b: bool)
    requires
        punctuation(mark) is Some,
    ensures
        b == (i < token_views(ts@).len() && Some(token_views(ts@)[i as int]) == punctuation(mark)),
{
    if i < ts.len() {
        match &ts[i] {
            FieldToken::LBracket => mark == '[',
            FieldToken::RBracket => mark == ']',
            FieldToken::Asterisk => mark == '*',
            FieldToken::Dot => mark == '.',
            FieldToken::Word(_) => false,
        }
    } else {
        false
    }
}

/// The word at `i`, where there is one.
fn word_at(ts: &Vec<FieldToken>, i: usize) -> (w: Option<String>)
    ensures
        match w {
            Some(w) => i < token_views(ts@).len() && token_views(ts@)[i as int]
                == TokenView::Word(w@),
            None => i < token_views(ts@).len() ==> !(token_views(ts@)[i as int] is Word),
        },
{
    if i < ts.len() {
        match &ts[i] {
            FieldToken::Word(w) => Some(w.clone()),
            _ => None,
        }
    } else {
        None
    }
}

/// A key with its names as sequences of characters, or why there is none.
pub open spec fn key_outcome(r: Result<FieldKey, FieldErrorKind>) -> Result<
    FieldKeyView,
    FieldErrorKind,
> {
    match r {
        Ok(k) => Ok(k@),
        Err(e) => Err(e),
    }
}

fn parse_bracket_key(ts: &Vec<FieldToken>, field: String) -> (r: Result<FieldKey, FieldErrorKind>)
    requires
        ts@.len() >= 2,
    ensures
        key_outcome(r) == bracket_key(token_views(ts@), field@),
{
    if ts.len() == 2 {
        return Err(FieldErrorKind::NoEventType);
    }
    if mark_at(ts, 2, '*') {
        if mark_at(ts, 3, ']') {
            return Ok(FieldKey { field, event_type: None });
        }
        return Err(FieldErrorKind::NoClosingBracket);
    }
    match word_at(ts, 2) {
        Some(et) => {
            if !mark_at(ts, 3, ']') {
                return Err(FieldErrorKind::NoClosingBracket);
            }
            if mark_at(ts, 4, '[') {
                if !mark_at(ts, 5, '*') {
                    return Err(FieldErrorKind::NoWildcard);
                }
                if !mark_at(ts, 6, ']') {
                    return Err(FieldErrorKind::NoClosingBracket);
                }
            }
            Ok(FieldKey { field, event_type: Some(et) })
        },
        None => Err(FieldErrorKind::BadEventType),
    }
}

fn parse_dot_key(ts: &Vec<FieldToken>, field: String) -> (r: Result<FieldKey, FieldErrorKind>)
    requires
        ts@.len() >= 2,
    ensures
        key_outcome(r) == dot_key(token_views(ts@), field@),
{
    if ts.len() == 2 {
        return Err(FieldErrorKind::NoEventTypeAfterDot);
    }
    if mark_at(ts, 2, '*') {
        return Ok(FieldKey { field, event_type: None });
    }
    match word_at(ts, 2) {
        Some(et) => {
            if mark_at(ts, 3, '.') && !mark_at(ts, 4, '*') {
                return Err(FieldErrorKind::NoAsterisk);
            }
            Ok(FieldKey { field, event_type: Some(et) })
        },
        None => Err(FieldErrorKind::NoEventTypeAfterDot),
    }
}

fn parse_tokens(ts: &Vec<FieldToken>) -> (r: Result<FieldKey, FieldErrorKind>)
    ensures
        key_outcome(r) == token_key(token_views(ts@)),
{
    if ts.len() == 0 {
        return Err(FieldErrorKind::Empty);
    }
    match word_at(ts, 0) {
        Some(field) => {
            if ts.len() == 1 {
                Ok(FieldKey { field, event_type: None })
            } else if mark_at(ts, 1, '[') {
                parse_bracket_key(ts, field)
            } else if mark_at(ts, 1, '.') {
                parse_dot_key(ts, field)
            } else {
                Err(FieldErrorKind::Invalid)
            }
        },
        None => Err(FieldErrorKind::NoFieldName),
    }
}

/// Reads a field definition.
pub fn parse_field(s: &str) -> (r: Result<FieldKey, FieldError>)
    ensures
        match r {
            Ok(k) => field_key(s@) == Ok::<FieldKeyView, FieldErrorKind>(k@),
            Err(e) => field_key(s@) == Err::<FieldKeyView, FieldErrorKind>(e.kind)
                && e.definition@ == trimmed(s@),
        },
{
    let definition = trim(s);
    if same_text(&definition, "event") || same_text(&definition, "retry") {
        return Ok(FieldKey { field: definition, event_type: None });
    }
    let ts = tokenize(&definition);
    match parse_tokens(&ts) {
        Ok(key) => Ok(key),
        Err(kind) => Err(FieldError { kind, definition }),
    }
}

} // verus!
