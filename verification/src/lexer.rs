//! From text to tokens.
use crate::float::{FloatFacts, FloatFactsView};
use crate::number::{all_digits, char_is_digit, digits_value, is_digit, parse_digits};
use crate::text::{from_chars, push_char, to_chars};
use vstd::prelude::*;

verus! {

/// A token: a number, an identifier, a string, a parenthesis or a quote
/// mark.
#[derive(Debug)]
pub enum Token {
    Integer(i64),
    Float(u64),
    Ident(String),
    String(String),
    OpeningParen,
    ClosingParen,
    Quote,
    Unquote,
    Quasiquote,
}

/// The model of a token.
pub ghost enum TokenView {
    Integer(i64),
    Float(u64),
    Ident(Seq<char>),
    Text(Seq<char>),
    OpeningParen,
    ClosingParen,
    Quote,
    Unquote,
    Quasiquote,
}

impl View for Token {
    type V = TokenView;

    open spec fn view(&self) -> TokenView {
        match *self {
            Token::Integer(i) => TokenView::Integer(i),
            Token::Float(bits) => TokenView::Float(bits),
            Token::Ident(s) => TokenView::Ident(s@),
            Token::String(s) => TokenView::Text(s@),
            Token::OpeningParen => TokenView::OpeningParen,
            Token::ClosingParen => TokenView::ClosingParen,
            Token::Quote => TokenView::Quote,
            Token::Unquote => TokenView::Unquote,
            Token::Quasiquote => TokenView::Quasiquote,
        }
    }
}

/// Why text could not be read.
#[derive(Debug)]
pub enum ReadError {
    /// The text is no sequence of forms.
    Parse,
    /// The value of this literal of a double is not known yet.
    Literal(String),
}

/// The model of a reading error.
pub ghost enum ReadErrorView {
    Parse,
    Literal(Seq<char>),
}

impl View for ReadError {
    type V = ReadErrorView;

    open spec fn view(&self) -> ReadErrorView {
        match *self {
            ReadError::Parse => ReadErrorView::Parse,
            ReadError::Literal(s) => ReadErrorView::Literal(s@),
        }
    }
}

/// The models of a list of tokens.
pub open spec fn token_views(v: Seq<Token>) -> Seq<TokenView> {
    Seq::new(v.len(), |i: int| v[i]@)
}

/// Whether a character is white space: one of the characters that Unicode
/// gives the property `White_Space`.
pub open spec fn is_space(c: char) -> bool {
    let u = c as u32;
    ||| 0x09 <= u <= 0x0d
    ||| u == 0x20
    ||| u == 0x85
    ||| u == 0xa0
    ||| u == 0x1680
    ||| 0x2000 <= u <= 0x200a
    ||| u == 0x2028
    ||| u == 0x2029
    ||| u == 0x202f
    ||| u == 0x205f
    ||| u == 0x3000
}

/// Whether a character ends an identifier or a number.
pub open spec fn is_delimiter(c: char) -> bool {
    is_space(c) || c == '(' || c == ')'
}

/// Where the identifier that starts at `i` ends: at the next delimiter or at
/// the end of the text.
pub open spec fn ident_end(s: Seq<char>, i: int) -> int
    decreases s.len() - i,
{
    if i < 0 || i >= s.len() || is_delimiter(s[i]) {
        i
    } else {
        ident_end(s, i + 1)
    }
}

/// Where the number that goes on at `i` ends and how many dots it has, if it
/// is made of digits and at most one dot up to the next delimiter.
pub open spec fn number_end(s: Seq<char>, i: int, dots: nat) -> Option<(int, nat)>
    decreases s.len() - i,
{
    if i < 0 || i >= s.len() || is_delimiter(s[i]) {
        Some((i, dots))
    } else if is_digit(s[i]) {
        number_end(s, i + 1, dots)
    } else if s[i] == '.' && dots == 0 {
        number_end(s, i + 1, 1)
    } else {
        None
    }
}

/// The contents of the string that goes on at `i`, behind what `acc` holds of
/// it, and the place behind its closing quote. A backslash stands before a
/// backslash or a double quote that belongs to the string.
pub open spec fn string_end(s: Seq<char>, i: int, acc: Seq<char>) -> Option<(Seq<char>, int)>
    decreases s.len() - i,
{
    if i < 0 || i >= s.len() {
        None
    } else if s[i] == '"' {
        Some((acc, i + 1))
    } else if s[i] == '\\' {
        if i + 1 < s.len() && (s[i + 1] == '\\' || s[i + 1] == '"') {
            string_end(s, i + 2, acc.push(s[i + 1]))
        } else {
            None
        }
    } else {
        string_end(s, i + 1, acc.push(s[i]))
    }
}

/// What the lexer finds at a place in the text.
pub ghost enum Lexed {
    /// Nothing but white space up to the end.
    End,
    /// A token, and the place behind it.
    Token(TokenView, int),
    /// No token.
    Fail(ReadErrorView),
}

/// The token that a number's text stands for: an integer where it has no
/// dot, else the double that the table of facts gives for it.
pub open spec fn number_token(
    text: Seq<char>,
    dots: nat,
    next: int,
    facts: FloatFactsView,
) -> Lexed {
    if dots == 0 {
        if digits_value(text) <= i64::MAX {
            Lexed::Token(TokenView::Integer(digits_value(text) as i64), next)
        } else {
            Lexed::Fail(ReadErrorView::Parse)
        }
    } else {
        match facts.literal(text) {
            None => Lexed::Fail(ReadErrorView::Literal(text)),
            Some(None) => Lexed::Fail(ReadErrorView::Parse),
            Some(Some(bits)) => Lexed::Token(TokenView::Float(bits), next),
        }
    }
}

/// The first token at or behind `pos`.
pub open spec fn lex_one(s: Seq<char>, pos: int, facts: FloatFactsView) -> Lexed
    decreases s.len() - pos,
{
    if pos < 0 || pos >= s.len() {
        Lexed::End
    } else {
        let c = s[pos];
        if is_space(c) {
            lex_one(s, pos + 1, facts)
        } else if c == '(' {
            Lexed::Token(TokenView::OpeningParen, pos + 1)
        } else if c == ')' {
            Lexed::Token(TokenView::ClosingParen, pos + 1)
        } else if c == '\'' || c == '\\' {
            Lexed::Token(TokenView::Quote, pos + 1)
        } else if c == '`' {
            Lexed::Token(TokenView::Quasiquote, pos + 1)
        } else if c == ',' {
            Lexed::Token(TokenView::Unquote, pos + 1)
        } else if c == '"' {
            match string_end(s, pos + 1, Seq::empty()) {
                Some((text, next)) => Lexed::Token(TokenView::Text(text), next),
                None => Lexed::Fail(ReadErrorView::Parse),
            }
        } else if is_digit(c) || c == '.' {
            match number_end(s, pos, 0) {
                Some((end, dots)) => number_token(s.subrange(pos, end), dots, end, facts),
                None => Lexed::Fail(ReadErrorView::Parse),
            }
        } else {
            Lexed::Token(
                TokenView::Ident(s.subrange(pos, ident_end(s, pos))),
                ident_end(s, pos),
            )
        }
    }
}

/// All tokens from `pos` on.
pub open spec fn lex_all(s: Seq<char>, pos: int, facts: FloatFactsView) -> Result<
    Seq<TokenView>,
    ReadErrorView,
>
    decreases s.len() - pos,
{
    match lex_one(s, pos, facts) {
        Lexed::End => Ok(Seq::empty()),
        Lexed::Fail(e) => Err(e),
        Lexed::Token(t, next) => if pos < next <= s.len() {
            match lex_all(s, next, facts) {
                Ok(rest) => Ok(seq![t] + rest),
                Err(e) => Err(e),
            }
        } else {
            Err(ReadErrorView::Parse)
        },
    }
}

/// The tokens so far and then the tokens that are still to come.
pub open spec fn followed_by(
    tokens: Seq<TokenView>,
    rest: Result<Seq<TokenView>, ReadErrorView>,
) -> Result<Seq<TokenView>, ReadErrorView> {
    match rest {
        Ok(more) => Ok(tokens + more),
        Err(e) => Err(e),
    }
}

/// An identifier ends inside the text.
pub proof fn lemma_ident_end_bounds(s: Seq<char>, i: int)
    requires
        0 <= i <= s.len(),
    ensures
        i <= ident_end(s, i) <= s.len(),
    decreases s.len() - i,
{
    if i < s.len() && !is_delimiter(s[i]) {
        lemma_ident_end_bounds(s, i + 1);
    }
}

/// A number ends inside the text.
pub proof fn lemma_number_end_bounds(s: Seq<char>, i: int, dots: nat)
    requires
        0 <= i <= s.len(),
    ensures
        number_end(s, i, dots) matches Some((end, _)) ==> i <= end <= s.len(),
    decreases s.len() - i,
{
    if i < s.len() && !is_delimiter(s[i]) {
        if is_digit(s[i]) {
            lemma_number_end_bounds(s, i + 1, dots);
        } else if s[i] == '.' && dots == 0 {
            lemma_number_end_bounds(s, i + 1, 1);
        }
    }
}

/// A string ends inside the text, behind at least its closing quote.
pub proof fn lemma_string_end_bounds(s: Seq<char>, i: int, acc: Seq<char>)
    requires
        0 <= i <= s.len(),
    ensures
        string_end(s, i, acc) matches Some((_, next)) ==> i < next <= s.len(),
    decreases s.len() - i,
{
    if i < s.len() && s[i] != '"' {
        if s[i] == '\\' {
            if i + 1 < s.len() && (s[i + 1] == '\\' || s[i + 1] == '"') {
                lemma_string_end_bounds(s, i + 2, acc.push(s[i + 1]));
            }
        } else {
            lemma_string_end_bounds(s, i + 1, acc.push(s[i]));
        }
    }
}

/// Every token takes at least one character and ends inside the text.
pub proof fn lemma_lex_one_advances(s: Seq<char>, pos: int, facts: FloatFactsView)
    requires
        0 <= pos,
    ensures
        lex_one(s, pos, facts) matches Lexed::Token(_, next) ==> pos < next <= s.len(),
    decreases s.len() - pos,
{
    if pos < s.len() {
        let c = s[pos];
        if is_space(c) {
            lemma_lex_one_advances(s, pos + 1, facts);
        } else if c == '"' {
            lemma_string_end_bounds(s, pos + 1, Seq::empty());
        } else if is_digit(c) || c == '.' {
            lemma_number_end_bounds(s, pos, 0);
            if is_digit(c) {
                lemma_number_end_bounds(s, pos + 1, 0);
            } else {
                lemma_number_end_bounds(s, pos + 1, 1);
            }
        } else if !(c == '(' || c == ')' || c == '\'' || c == '\\' || c == '`' || c == ',') {
            lemma_ident_end_bounds(s, pos + 1);
        }
    }
}

/// How many of the first `n` tokens are opening parentheses.
pub open spec fn opened(ts: Seq<TokenView>, n: int) -> nat
    decreases n,
{
    if n <= 0 {
        0
    } else if ts[n - 1] is OpeningParen {
        opened(ts, n - 1) + 1
    } else {
        opened(ts, n - 1)
    }
}

/// How many of the first `n` tokens are closing parentheses.
pub open spec fn closed(ts: Seq<TokenView>, n: int) -> nat
    decreases n,
{
    if n <= 0 {
        0
    } else if ts[n - 1] is ClosingParen {
        closed(ts, n - 1) + 1
    } else {
        closed(ts, n - 1)
    }
}

/// The numbers of opening and of closing parentheses among the tokens.
pub fn paren_counts(tokens: &Vec<Token>) -> (r: (usize, usize))
    ensures
        r.0 == opened(token_views(tokens@), tokens.len() as int),
        r.1 == closed(token_views(tokens@), tokens.len() as int),
{
    let mut open: usize = 0;
    let mut close: usize = 0;
    let mut i: usize = 0;
    while i < tokens.len()
        invariant
            i <= tokens.len(),
            open <= i,
            close <= i,
            open == opened(token_views(tokens@), i as int),
            close == closed(token_views(tokens@), i as int),
        decreases tokens.len() - i,
    {
        assert(token_views(tokens@)[i as int] == tokens@[i as int]@);
        match &tokens[i] {
            Token::OpeningParen => {
                open += 1;
            },
            Token::ClosingParen => {
                close += 1;
            },
            _ => {},
        }
        i += 1;
    }
    (open, close)
}

/// Whether a character is white space.
pub fn char_is_space(c: char) -> (r: bool)
    ensures
        r == is_space(c),
{
    let u: u32 = c as u32;
    (0x09 <= u && u <= 0x0d) || u == 0x20 || u == 0x85 || u == 0xa0 || u == 0x1680 || (0x2000 <= u
        && u <= 0x200a) || u == 0x2028 || u == 0x2029 || u == 0x202f || u == 0x205f || u == 0x3000
}

/// Whether a character ends an identifier or a number.
pub fn char_is_delimiter(c: char) -> (r: bool)
    ensures
        r == is_delimiter(c),
{
    char_is_space(c) || c == '(' || c == ')'
}

/// A lexer over a text: the characters, the place up to which they have
/// been read, and the tokens read so far.
pub struct Lexer {
    pub chars: Vec<char>,
    pub pos: usize,
    pub tokens: Vec<Token>,
}

impl Lexer {
    /// A lexer at the start of `s`.
    pub fn new(s: &str) -> (r: Lexer)
        ensures
            r.chars@ == s@,
            r.pos == 0,
            r.tokens@.len() == 0,
    {
        Lexer { chars: to_chars(s), pos: 0, tokens: Vec::new() }
    }

    /// Reads the identifier that starts at the current place.
    fn read_ident(&mut self)
        requires
            old(self).pos < old(self).chars.len(),
        ensures
            final(self).chars == old(self).chars,
            final(self).pos == ident_end(old(self).chars@, old(self).pos as int),
            final(self).pos <= final(self).chars.len(),
            final(self).tokens@ == old(self).tokens@.push(final(self).tokens@.last()),
            final(self).tokens@.last()@ == TokenView::Ident(
                old(self).chars@.subrange(old(self).pos as int, final(self).pos as int),
            ),
    {
        let start = self.pos;
        let mut i: usize = start;
        while i < self.chars.len() && !char_is_delimiter(self.chars[i])
            invariant
                start <= i <= self.chars.len(),
                self.chars == old(self).chars,
                ident_end(self.chars@, start as int) == ident_end(self.chars@, i as int),
            decreases self.chars.len() - i,
        {
            i += 1;
        }
        let text = from_chars(&self.chars, start, i);
        self.tokens.push(Token::Ident(text));
        self.pos = i;
    }

    /// Reads the string whose opening quote stands at the current place.
    fn read_string(&mut self) -> (r: Result<(), ReadError>)
        requires
            old(self).pos < old(self).chars.len(),
        ensures
            final(self).chars == old(self).chars,
            match r {
                Ok(()) => {
                    &&& string_end(old(self).chars@, old(self).pos + 1, Seq::empty()) matches Some(
                        (text, next),
                    )
                    &&& final(self).pos == next
                    &&& final(self).tokens@ == old(self).tokens@.push(final(self).tokens@.last())
                    &&& final(self).tokens@.last()@ == TokenView::Text(text)
                },
                Err(e) => {
                    &&& string_end(old(self).chars@, old(self).pos + 1, Seq::empty()) is None
                    &&& e@ == ReadErrorView::Parse
                    &&& final(self).tokens == old(self).tokens
                    &&& final(self).pos == old(self).pos
                },
            },
    {
        let start = self.pos + 1;
        let mut text = String::new();
        let mut i: usize = start;
        loop
            invariant
                start <= i <= self.chars.len(),
                *self == *old(self),
                start == old(self).pos + 1,
                string_end(self.chars@, start as int, Seq::empty()) == string_end(
                    self.chars@,
                    i as int,
                    text@,
                ),
            decreases self.chars.len() - i,
        {
            if i >= self.chars.len() {
                return Err(ReadError::Parse);
            }
            let c = self.chars[i];
            if c == '"' {
                self.tokens.push(Token::String(text));
                self.pos = i + 1;
                return Ok(());
            }
            if c == '\\' {
                if i + 1 < self.chars.len() && (self.chars[i + 1] == '\\' || self.chars[i + 1]
                    == '"') {
                    push_char(&mut text, self.chars[i + 1]);
                    i += 2;
                } else {
                    return Err(ReadError::Parse);
                }
            } else {
                push_char(&mut text, c);
                i += 1;
            }
        }
    }

    /// Reads the number that starts at the current place.
    fn read_number(&mut self, facts: &FloatFacts) -> (r: Result<(), ReadError>)
        requires
            old(self).pos < old(self).chars.len(),
        ensures
            final(self).chars == old(self).chars,
            ({
                let s = old(self).chars@;
                let pos = old(self).pos as int;
                let found = match number_end(s, pos, 0) {
                    Some((end, dots)) => number_token(s.subrange(pos, end), dots, end, facts@),
                    None => Lexed::Fail(ReadErrorView::Parse),
                };
                match r {
                    Ok(()) => {
                        &&& found matches Lexed::Token(t, next)
                        &&& final(self).pos == next
                        &&& final(self).tokens@ == old(self).tokens@.push(
                            final(self).tokens@.last(),
                        )
                        &&& final(self).tokens@.last()@ == t
                    },
                    Err(e) => {
                        &&& found == Lexed::Fail(e@)
                        &&& final(self).tokens == old(self).tokens
                        &&& final(self).pos == old(self).pos
                    },
                }
            }),
    {
        let start = self.pos;
        let mut dots: usize = 0;
        let mut i: usize = start;
        loop
            invariant
                start <= i <= self.chars.len(),
                *self == *old(self),
                start == old(self).pos,
                dots <= 1,
                number_end(self.chars@, start as int, 0) == number_end(
                    self.chars@,
                    i as int,
                    dots as nat,
                ),
                dots == 0 ==> all_digits(self.chars@.subrange(start as int, i as int)),
            ensures
                i >= self.chars.len() || is_delimiter(self.chars@[i as int]),
            decreases self.chars.len() - i,
        {
            if i >= self.chars.len() || char_is_delimiter(self.chars[i]) {
                break ;
            }
            let c = self.chars[i];
            if char_is_digit(c) {
                proof {
                    let longer = self.chars@.subrange(start as int, i + 1);
                    let shorter = self.chars@.subrange(start as int, i as int);
                    if dots == 0 {
                        assert forall|k: int| 0 <= k < longer.len() implies is_digit(
                            #[trigger] longer[k],
                        ) by {
                            if k < shorter.len() {
                                assert(longer[k] == shorter[k]);
                            }
                        }
                    }
                }
                i += 1;
            } else if c == '.' && dots == 0 {
                dots = 1;
                i += 1;
            } else {
                return Err(ReadError::Parse);
            }
        }
        if dots == 0 {
            match parse_digits(&self.chars, start, i) {
                Some(v) => {
                    self.tokens.push(Token::Integer(v));
                    self.pos = i;
                    Ok(())
                },
                None => Err(ReadError::Parse),
            }
        } else {
            let text = from_chars(&self.chars, start, i);
            match facts.literal(text.as_str()) {
                None => Err(ReadError::Literal(text)),
                Some(None) => Err(ReadError::Parse),
                Some(Some(bits)) => {
                    self.tokens.push(Token::Float(bits));
                    self.pos = i;
                    Ok(())
                },
            }
        }
    }

    /// Adds a token of one character.
    fn push_mark(&mut self, token: Token)
        requires
            old(self).pos < old(self).chars.len(),
        ensures
            final(self).chars == old(self).chars,
            final(self).pos == old(self).pos + 1,
            final(self).tokens@ == old(self).tokens@.push(token),
    {
        self.tokens.push(token);
        self.pos = self.pos + 1;
    }

    /// Reads one token: passes over white space and adds the token behind it
    /// to the tokens read so far. At the end of the text it does nothing. On
    /// an error the tokens stay as they were.
    pub fn read_single_token(&mut self, facts: &FloatFacts) -> (r: Result<(), ReadError>)
        ensures
            final(self).chars == old(self).chars,
            match lex_one(old(self).chars@, old(self).pos as int, facts@) {
                Lexed::End => {
                    &&& r is Ok
                    &&& final(self).pos >= final(self).chars.len()
                    &&& final(self).tokens == old(self).tokens
                },
                Lexed::Token(t, next) => {
                    &&& r is Ok
                    &&& final(self).pos == next
                    &&& old(self).pos < final(self).pos
                    &&& token_views(final(self).tokens@) == token_views(old(self).tokens@).push(t)
                },
                Lexed::Fail(e) => {
                    &&& r matches Err(err)
                    &&& err@ == e
                    &&& final(self).tokens == old(self).tokens
                    &&& old(self).pos <= final(self).pos
                    &&& lex_one(old(self).chars@, final(self).pos as int, facts@) == Lexed::Fail(e)
                },
            },
    {
        while self.pos < self.chars.len() && char_is_space(self.chars[self.pos as usize])
            invariant
                self.chars == old(self).chars,
                self.tokens == old(self).tokens,
                old(self).pos <= self.pos,
                lex_one(self.chars@, old(self).pos as int, facts@) == lex_one(
                    self.chars@,
                    self.pos as int,
                    facts@,
                ),
            decreases self.chars.len() - self.pos,
        {
            self.pos = self.pos + 1;
        }
        if self.pos >= self.chars.len() {
            return Ok(());
        }
        proof {
            lemma_lex_one_advances(self.chars@, self.pos as int, facts@);
        }
        let ghost before = token_views(self.tokens@);
        let c = self.chars[self.pos];
        let r = if c == '(' {
            self.push_mark(Token::OpeningParen);
            Ok(())
        } else if c == ')' {
            self.push_mark(Token::ClosingParen);
            Ok(())
        } else if c == '\'' || c == '\\' {
            self.push_mark(Token::Quote);
            Ok(())
        } else if c == '`' {
            self.push_mark(Token::Quasiquote);
            Ok(())
        } else if c == ',' {
            self.push_mark(Token::Unquote);
            Ok(())
        } else if c == '"' {
            self.read_string()
        } else if char_is_digit(c) || c == '.' {
            self.read_number(facts)
        } else {
            self.read_ident();
            Ok(())
        };
        proof {
            if r is Ok {
                assert(token_views(self.tokens@) =~= before.push(self.tokens@.last()@));
            }
        }
        r
    }

    /// Reads all tokens up to the end of the text. On an error the lexer
    /// stays in front of what it could not read, with the tokens read before
    /// it: the tokens so far and what is still to come are the same before
    /// and after the call.
    pub fn tokenize(&mut self, facts: &FloatFacts) -> (r: Result<(), ReadError>)
        ensures
            final(self).chars == old(self).chars,
            followed_by(
                token_views(old(self).tokens@),
                lex_all(old(self).chars@, old(self).pos as int, facts@),
            ) == followed_by(
                token_views(final(self).tokens@),
                lex_all(old(self).chars@, final(self).pos as int, facts@),
            ),
            match r {
                Ok(()) => final(self).pos >= final(self).chars.len(),
                Err(e) => lex_one(old(self).chars@, final(self).pos as int, facts@) == Lexed::Fail(
                    e@,
                ),
            },
            match r {
                Ok(()) => followed_by(
                    token_views(old(self).tokens@),
                    lex_all(old(self).chars@, old(self).pos as int, facts@),
                ) == Ok::<Seq<TokenView>, ReadErrorView>(token_views(final(self).tokens@)),
                Err(e) => lex_all(old(self).chars@, old(self).pos as int, facts@) == Err::<
                    Seq<TokenView>,
                    ReadErrorView,
                >(e@),
            },
    {
        assert(token_views(self.tokens@) + Seq::<TokenView>::empty() == token_views(self.tokens@));
        loop
            invariant
                self.chars == old(self).chars,
                followed_by(
                    token_views(old(self).tokens@),
                    lex_all(old(self).chars@, old(self).pos as int, facts@),
                ) == followed_by(
                    token_views(self.tokens@),
                    lex_all(self.chars@, self.pos as int, facts@),
                ),
            decreases self.chars.len() - self.pos,
        {
            let ghost before = token_views(self.tokens@);
            let ghost pos = self.pos as int;
            if self.pos >= self.chars.len() {
                assert(before + Seq::<TokenView>::empty() == before);
                return Ok(());
            }
            match self.read_single_token(facts) {
                Err(e) => {
                    return Err(e);
                },
                Ok(()) => {
                    proof {
                        lemma_lex_one_advances(self.chars@, pos, facts@);
                        match lex_one(self.chars@, pos, facts@) {
                            Lexed::End => {
                                assert(before + Seq::<TokenView>::empty() == before);
                            },
                            Lexed::Token(t, next) => {
                                match lex_all(self.chars@, next, facts@) {
                                    Ok(rest) => {
                                        assert(before + (seq![t] + rest) == before.push(t) + rest);
                                    },
                                    Err(_) => {},
                                }
                            },
                            Lexed::Fail(_) => {},
                        }
                    }
                    if self.pos >= self.chars.len() {
                        proof {
                            let now = token_views(self.tokens@);
                            assert(now + Seq::<TokenView>::empty() == now);
                        }
                        return Ok(());
                    }
                },
            }
        }
    }
}

} // verus!
