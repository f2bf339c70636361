//! Reading back what was displayed.
use crate::equal::same;
use crate::expr::Sexp;
use crate::float::is_nan;
use crate::float::FloatFactsView;
use crate::lexer::{
    followed_by, ident_end, is_delimiter, is_space, lemma_lex_one_advances, lex_all, lex_one,
    number_end, string_end, Lexed, ReadErrorView, TokenView,
};
use crate::number::{all_digits, digit, digit_value, digits_value, is_digit, nat_text};
use crate::print::{escape, escaped, render, render_rest};
use crate::read::{parse_all, parse_expr, parse_list, read_text};
use vstd::prelude::*;

verus! {

/// Whether a character starts something other than an identifier.
pub open spec fn is_mark(c: char) -> bool {
    c == '\'' || c == '\\' || c == '`' || c == ',' || c == '"' || c == '.' || is_digit(c)
}

/// Whether a text reads back as the identifier that it is: it is not empty,
/// holds no white space and no parenthesis, and does not start like a
/// number, a string or a quote mark.
pub open spec fn plain_ident(s: Seq<char>) -> bool {
    &&& s.len() > 0
    &&& !is_mark(s[0])
    &&& forall|i: int| 0 <= i < s.len() ==> !is_delimiter(#[trigger] s[i])
}

/// Whether a value is `Nil` or a pair.
pub open spec fn is_list(e: Sexp) -> bool {
    e is Nil || e is Pair
}

/// Whether a text is made of digits and of one dot, which stands at `dot`.
pub open spec fn float_text(t: Seq<char>, dot: int) -> bool {
    &&& 0 <= dot < t.len()
    &&& t[dot] == '.'
    &&& forall|i: int| 0 <= i < t.len() && i != dot ==> is_digit(#[trigger] t[i])
}

/// Whether the table of facts displays a double as a literal that it reads
/// as the same double.
pub open spec fn plain_float(bits: u64, facts: FloatFactsView) -> bool {
    &&& facts.text(bits) matches Some(t)
    &&& exists|dot: int| float_text(t, dot)
    &&& facts.literal(t) == Some(Some(bits))
}

/// Whether a value reads back from its displayed text: it is made of
/// integers that are not negative, of doubles and identifiers that read
/// back, of strings, of quote marks and of lists that end in `Nil`.
pub open spec fn readable(e: Sexp, facts: FloatFactsView) -> bool
    decreases e,
{
    match e {
        Sexp::Nil => true,
        Sexp::Integer(i) => i >= 0,
        Sexp::Float(bits) => plain_float(bits, facts),
        Sexp::Ident(s) => plain_ident(s),
        Sexp::Text(_) => true,
        Sexp::Quote(x) => readable(*x, facts),
        Sexp::Unquote(x) => readable(*x, facts),
        Sexp::Quasiquote(x) => readable(*x, facts),
        Sexp::Pair(head, tail) => readable(*head, facts) && is_list(*tail) && readable(
            *tail,
            facts,
        ),
        _ => false,
    }
}

/// The tokens that the displayed text of a value is made of.
pub open spec fn tokens_of(e: Sexp) -> Seq<TokenView>
    decreases e, 0nat,
{
    match e {
        Sexp::Nil => seq![TokenView::OpeningParen, TokenView::ClosingParen],
        Sexp::Integer(i) => seq![TokenView::Integer(i)],
        Sexp::Float(bits) => seq![TokenView::Float(bits)],
        Sexp::Ident(s) => seq![TokenView::Ident(s)],
        Sexp::Text(s) => seq![TokenView::Text(s)],
        Sexp::Quote(x) => seq![TokenView::Quote] + tokens_of(*x),
        Sexp::Unquote(x) => seq![TokenView::Unquote] + tokens_of(*x),
        Sexp::Quasiquote(x) => seq![TokenView::Quasiquote] + tokens_of(*x),
        Sexp::Pair(head, tail) => seq![TokenView::OpeningParen] + tokens_of(*head) + tokens_rest(
            *tail,
        ),
        _ => Seq::empty(),
    }
}

/// The tokens of what follows the first item of a list.
pub open spec fn tokens_rest(e: Sexp) -> Seq<TokenView>
    decreases e, 1nat,
{
    match e {
        Sexp::Pair(head, tail) => tokens_of(*head) + tokens_rest(*tail),
        Sexp::Nil => seq![TokenView::ClosingParen],
        _ => tokens_of(e),
    }
}

/// Whether a token can end at `i`: the text ends there, or a delimiter
/// stands there.
pub open spec fn closed_at(s: Seq<char>, i: int) -> bool {
    i >= s.len() || is_delimiter(s[i])
}

/// Whether the text `r` stands in `s` at `pos`.
pub open spec fn stands_at(s: Seq<char>, pos: int, r: Seq<char>) -> bool {
    0 <= pos && pos + r.len() <= s.len() && s.subrange(pos, pos + r.len()) == r
}

/// Where a text stands, its parts stand one behind the other.
pub proof fn lemma_stands_split(s: Seq<char>, pos: int, a: Seq<char>, b: Seq<char>)
    requires
        stands_at(s, pos, a + b),
    ensures
        stands_at(s, pos, a),
        stands_at(s, pos + a.len(), b),
{
    let whole = s.subrange(pos, pos + (a + b).len());
    assert forall|i: int| 0 <= i < a.len() implies s.subrange(pos, pos + a.len())[i] == a[i] by {
        assert(whole[i] == (a + b)[i]);
    }
    assert(s.subrange(pos, pos + a.len()) =~= a);
    assert forall|i: int| 0 <= i < b.len() implies s.subrange(
        pos + a.len(),
        pos + a.len() + b.len(),
    )[i] == b[i] by {
        assert(whole[a.len() + i] == (a + b)[a.len() + i]);
    }
    assert(s.subrange(pos + a.len(), pos + a.len() + b.len()) =~= b);
}

/// The character at a place inside a text that stands in `s`.
pub proof fn lemma_stands_index(s: Seq<char>, pos: int, r: Seq<char>, i: int)
    requires
        stands_at(s, pos, r),
        0 <= i < r.len(),
    ensures
        s[pos + i] == r[i],
{
    assert(s.subrange(pos, pos + r.len())[i] == r[i]);
}

/// A token and then the tokens behind it.
pub proof fn lemma_lex_all_step(s: Seq<char>, pos: int, facts: FloatFactsView)
    requires
        0 <= pos,
    ensures
        lex_one(s, pos, facts) matches Lexed::Token(t, next) ==> lex_all(s, pos, facts)
            == followed_by(seq![t], lex_all(s, next, facts)),
{
    lemma_lex_one_advances(s, pos, facts);
}

/// White space in front of the tokens changes nothing.
pub proof fn lemma_lex_all_skip(s: Seq<char>, pos: int, facts: FloatFactsView)
    requires
        0 <= pos < s.len(),
        is_space(s[pos]),
    ensures
        lex_all(s, pos, facts) == lex_all(s, pos + 1, facts),
{
    lemma_lex_one_advances(s, pos, facts);
    lemma_lex_one_advances(s, pos + 1, facts);
}

/// Behind the end of the text there are no tokens.
pub proof fn lemma_lex_all_end(s: Seq<char>, pos: int, facts: FloatFactsView)
    requires
        pos >= s.len(),
    ensures
        lex_all(s, pos, facts) == Ok::<Seq<TokenView>, ReadErrorView>(Seq::empty()),
{
}

/// An identifier goes on up to the first delimiter.
pub proof fn lemma_ident_run(s: Seq<char>, i: int, end: int)
    requires
        0 <= i <= end <= s.len(),
        forall|k: int| i <= k < end ==> !is_delimiter(#[trigger] s[k]),
        closed_at(s, end),
    ensures
        ident_end(s, i) == end,
    decreases end - i,
{
    if i < end {
        lemma_ident_run(s, i + 1, end);
    }
}

/// Where an identifier that reads back stands, the lexer finds it.
pub proof fn lemma_lex_ident(s: Seq<char>, pos: int, name: Seq<char>, facts: FloatFactsView)
    requires
        plain_ident(name),
        stands_at(s, pos, name),
        closed_at(s, pos + name.len()),
    ensures
        lex_one(s, pos, facts) == Lexed::Token(TokenView::Ident(name), pos + name.len()),
{
    assert forall|k: int| pos <= k < pos + name.len() implies !is_delimiter(#[trigger] s[k]) by {
        lemma_stands_index(s, pos, name, k - pos);
    }
    lemma_ident_run(s, pos, pos + name.len());
    lemma_stands_index(s, pos, name, 0);
}

/// A run of digits goes on up to the first delimiter.
pub proof fn lemma_digit_run(s: Seq<char>, i: int, end: int)
    requires
        0 <= i <= end <= s.len(),
        forall|k: int| i <= k < end ==> is_digit(#[trigger] s[k]),
        closed_at(s, end),
    ensures
        number_end(s, i, 0) == Some((end, 0nat)),
    decreases end - i,
{
    if i < end {
        lemma_digit_run(s, i + 1, end);
    }
}

/// The digits of a number are digits, and they spell the number.
pub proof fn lemma_nat_text(n: nat)
    ensures
        nat_text(n).len() > 0,
        all_digits(nat_text(n)),
        digits_value(nat_text(n)) == n,
    decreases n,
{
    if n < 10 {
        let t = nat_text(n);
        assert(t.len() == 1);
        assert(t[0] == digit(n as int));
        assert(t.drop_last() =~= Seq::<char>::empty());
        assert(digits_value(t.drop_last()) == 0);
        assert(digit_value(digit(n as int)) == n);
    } else {
        lemma_nat_text(n / 10);
        let shorter = nat_text(n / 10);
        let t = nat_text(n);
        assert(t == shorter.push(digit((n % 10) as int)));
        assert(t.drop_last() =~= shorter);
        assert(t.last() == digit((n % 10) as int));
        assert(digit_value(digit((n % 10) as int)) == n % 10);
        assert forall|i: int| 0 <= i < t.len() implies is_digit(#[trigger] t[i]) by {
            if i < shorter.len() {
                assert(t[i] == shorter[i]);
            }
        }
    }
}

/// Where the digits of an integer that is not negative stand, the lexer
/// finds the integer.
pub proof fn lemma_lex_integer(s: Seq<char>, pos: int, i: i64, facts: FloatFactsView)
    requires
        i >= 0,
        stands_at(s, pos, nat_text(i as nat)),
        closed_at(s, pos + nat_text(i as nat).len()),
    ensures
        lex_one(s, pos, facts) == Lexed::Token(
            TokenView::Integer(i),
            pos + nat_text(i as nat).len(),
        ),
{
    let t = nat_text(i as nat);
    lemma_nat_text(i as nat);
    assert forall|k: int| pos <= k < pos + t.len() implies is_digit(#[trigger] s[k]) by {
        lemma_stands_index(s, pos, t, k - pos);
    }
    lemma_digit_run(s, pos, pos + t.len());
    lemma_stands_index(s, pos, t, 0);
}

/// Digits behind the dot of a number go on up to the first delimiter.
pub proof fn lemma_fraction_run(s: Seq<char>, i: int, end: int)
    requires
        0 <= i <= end <= s.len(),
        forall|k: int| i <= k < end ==> is_digit(#[trigger] s[k]),
        closed_at(s, end),
    ensures
        number_end(s, i, 1) == Some((end, 1nat)),
    decreases end - i,
{
    if i < end {
        lemma_fraction_run(s, i + 1, end);
    }
}

/// Digits, a dot and digits go on up to the first delimiter.
pub proof fn lemma_float_run(s: Seq<char>, i: int, dot: int, end: int)
    requires
        0 <= i <= dot < end <= s.len(),
        s[dot] == '.',
        forall|k: int| i <= k < end && k != dot ==> is_digit(#[trigger] s[k]),
        closed_at(s, end),
    ensures
        number_end(s, i, 0) == Some((end, 1nat)),
    decreases dot - i,
{
    if i < dot {
        lemma_float_run(s, i + 1, dot, end);
    } else {
        lemma_fraction_run(s, dot + 1, end);
    }
}

/// Where the text of a double that reads back stands, the lexer finds the
/// double.
pub proof fn lemma_lex_float(s: Seq<char>, pos: int, bits: u64, facts: FloatFactsView)
    requires
        plain_float(bits, facts),
        stands_at(s, pos, facts.text(bits)->0),
        closed_at(s, pos + facts.text(bits)->0.len()),
    ensures
        lex_one(s, pos, facts) == Lexed::Token(
            TokenView::Float(bits),
            pos + facts.text(bits)->0.len(),
        ),
{
    let t = facts.text(bits)->0;
    let dot = choose|dot: int| float_text(t, dot);
    assert forall|k: int| pos <= k < pos + t.len() && k != pos + dot implies is_digit(
        #[trigger] s[k],
    ) by {
        lemma_stands_index(s, pos, t, k - pos);
    }
    lemma_stands_index(s, pos, t, dot);
    lemma_stands_index(s, pos, t, 0);
    lemma_float_run(s, pos, pos + dot, pos + t.len());
}

/// The lexer on the characters of a string as they stand between its
/// quotes, with the closing quote behind them: it finds the characters of
/// the string, behind what it holds of it already.
pub proof fn lemma_string_run(s: Seq<char>, i: int, acc: Seq<char>, text: Seq<char>)
    requires
        stands_at(s, i, escaped(text) + seq!['"']),
    ensures
        string_end(s, i, acc) == Some((acc + text, i + escaped(text).len() + 1)),
    decreases text.len(),
{
    let shown = escaped(text) + seq!['"'];
    if text.len() == 0 {
        lemma_stands_index(s, i, shown, 0);
        assert(acc + text =~= acc);
    } else {
        let c = text[0];
        let rest = text.drop_first();
        let tail = escaped(rest) + seq!['"'];
        assert(shown =~= escape(c) + tail);
        lemma_stands_split(s, i, escape(c), tail);
        lemma_stands_index(s, i, escape(c), 0);
        if c == '"' || c == '\\' {
            lemma_stands_index(s, i, escape(c), 1);
            lemma_string_run(s, i + 2, acc.push(c), rest);
        } else {
            lemma_string_run(s, i + 1, acc.push(c), rest);
        }
        assert(acc.push(c) + rest =~= acc + text);
    }
}

/// Where a string stands between its quotes, the lexer finds it.
pub proof fn lemma_lex_string(s: Seq<char>, pos: int, text: Seq<char>, facts: FloatFactsView)
    requires
        stands_at(s, pos, seq!['"'] + escaped(text) + seq!['"']),
    ensures
        lex_one(s, pos, facts) == Lexed::Token(
            TokenView::Text(text),
            pos + escaped(text).len() + 2,
        ),
{
    let shown = seq!['"'] + escaped(text) + seq!['"'];
    assert(shown =~= seq!['"'] + (escaped(text) + seq!['"']));
    lemma_stands_split(s, pos, seq!['"'], escaped(text) + seq!['"']);
    lemma_stands_index(s, pos, seq!['"'], 0);
    lemma_string_run(s, pos + 1, Seq::empty(), text);
    assert(Seq::<char>::empty() + text =~= text);
}

/// Tokens in front of tokens in front of what is still to come.
pub proof fn lemma_followed_twice(
    a: Seq<TokenView>,
    b: Seq<TokenView>,
    rest: Result<Seq<TokenView>, ReadErrorView>,
)
    ensures
        followed_by(a, followed_by(b, rest)) == followed_by(a + b, rest),
{
    match rest {
        Ok(more) => {
            assert(a + (b + more) =~= (a + b) + more);
        },
        Err(_) => {},
    }
}

/// A value that reads back has a displayed text, which is not empty, and
/// its first token is no closing parenthesis.
pub proof fn lemma_readable_shown(e: Sexp, facts: FloatFactsView)
    requires
        readable(e, facts),
    ensures
        render(e, facts) matches Ok(r) && r.len() > 0,
        tokens_of(e).len() > 0,
        !(tokens_of(e)[0] is ClosingParen),
    decreases e, 0nat,
{
    match e {
        Sexp::Integer(i) => {
            lemma_nat_text(i as nat);
        },
        Sexp::Quote(x) => lemma_readable_shown(*x, facts),
        Sexp::Unquote(x) => lemma_readable_shown(*x, facts),
        Sexp::Quasiquote(x) => lemma_readable_shown(*x, facts),
        Sexp::Pair(head, tail) => {
            lemma_readable_shown(*head, facts);
            lemma_readable_rest_shown(*tail, facts);
        },
        _ => {},
    }
}

/// What follows the first item of a list that reads back has a displayed
/// text, which starts with a delimiter.
pub proof fn lemma_readable_rest_shown(e: Sexp, facts: FloatFactsView)
    requires
        is_list(e),
        readable(e, facts),
    ensures
        render_rest(e, facts) matches Ok(r) && r.len() > 0 && is_delimiter(r[0]),
        tokens_rest(e).len() > 0,
    decreases e, 1nat,
{
    match e {
        Sexp::Pair(head, tail) => {
            lemma_readable_shown(*head, facts);
            lemma_readable_rest_shown(*tail, facts);
        },
        _ => {},
    }
}

/// The lexer on the displayed text of a value that reads back: it finds the
/// tokens of the value and goes on behind the text.
pub proof fn lemma_lex_render(e: Sexp, s: Seq<char>, pos: int, facts: FloatFactsView)
    requires
        readable(e, facts),
        render(e, facts) matches Ok(r) && stands_at(s, pos, r) && closed_at(s, pos + r.len()),
    ensures
        lex_all(s, pos, facts) == followed_by(
            tokens_of(e),
            lex_all(s, pos + render(e, facts)->Ok_0.len(), facts),
        ),
    decreases e, 0nat,
{
    let r = render(e, facts)->Ok_0;
    lemma_lex_all_step(s, pos, facts);
    match e {
        Sexp::Nil => {
            lemma_stands_index(s, pos, r, 0);
            lemma_stands_index(s, pos, r, 1);
            lemma_lex_all_step(s, pos + 1, facts);
            lemma_followed_twice(
                seq![TokenView::OpeningParen],
                seq![TokenView::ClosingParen],
                lex_all(s, pos + 2, facts),
            );
            assert(seq![TokenView::OpeningParen] + seq![TokenView::ClosingParen] =~= tokens_of(e));
        },
        Sexp::Integer(i) => {
            lemma_lex_integer(s, pos, i, facts);
        },
        Sexp::Float(bits) => {
            lemma_lex_float(s, pos, bits, facts);
        },
        Sexp::Ident(name) => {
            lemma_lex_ident(s, pos, name, facts);
        },
        Sexp::Text(text) => {
            lemma_lex_string(s, pos, text, facts);
        },
        Sexp::Quote(x) => {
            lemma_lex_marked(*x, '\'', TokenView::Quote, s, pos, facts);
        },
        Sexp::Unquote(x) => {
            lemma_lex_marked(*x, ',', TokenView::Unquote, s, pos, facts);
        },
        Sexp::Quasiquote(x) => {
            lemma_lex_marked(*x, '`', TokenView::Quasiquote, s, pos, facts);
        },
        Sexp::Pair(head, tail) => {
            lemma_readable_shown(*head, facts);
            lemma_readable_rest_shown(*tail, facts);
            let h = render(*head, facts)->Ok_0;
            let t = render_rest(*tail, facts)->Ok_0;
            assert(r == (seq!['('] + h) + t);
            lemma_stands_split(s, pos, seq!['('] + h, t);
            lemma_stands_split(s, pos, seq!['('], h);
            lemma_stands_index(s, pos, seq!['('], 0);
            lemma_stands_index(s, pos + 1 + h.len(), t, 0);
            lemma_lex_render(*head, s, pos + 1, facts);
            lemma_lex_render_rest(*tail, s, pos + 1 + h.len(), facts);
            let behind = lex_all(s, pos + r.len(), facts);
            lemma_followed_twice(tokens_of(*head), tokens_rest(*tail), behind);
            lemma_followed_twice(
                seq![TokenView::OpeningParen],
                tokens_of(*head) + tokens_rest(*tail),
                behind,
            );
            assert(seq![TokenView::OpeningParen] + (tokens_of(*head) + tokens_rest(*tail))
                =~= tokens_of(e));
        },
        _ => {},
    }
}

/// The lexer on a quote mark and the displayed text behind it.
pub proof fn lemma_lex_marked(
    x: Sexp,
    mark: char,
    token: TokenView,
    s: Seq<char>,
    pos: int,
    facts: FloatFactsView,
)
    requires
        readable(x, facts),
        (mark == '\'' && token == TokenView::Quote) || (mark == ',' && token == TokenView::Unquote)
            || (mark == '`' && token == TokenView::Quasiquote),
        render(x, facts) matches Ok(r) && stands_at(s, pos, seq![mark] + r) && closed_at(
            s,
            pos + 1 + r.len(),
        ),
    ensures
        lex_all(s, pos, facts) == followed_by(
            seq![token] + tokens_of(x),
            lex_all(s, pos + 1 + render(x, facts)->Ok_0.len(), facts),
        ),
    decreases x, 1nat,
{
    let r = render(x, facts)->Ok_0;
    lemma_stands_split(s, pos, seq![mark], r);
    lemma_stands_index(s, pos, seq![mark], 0);
    lemma_lex_all_step(s, pos, facts);
    lemma_lex_render(x, s, pos + 1, facts);
    lemma_followed_twice(seq![token], tokens_of(x), lex_all(s, pos + 1 + r.len(), facts));
}

/// The lexer on the displayed text of what follows the first item of a list.
pub proof fn lemma_lex_render_rest(e: Sexp, s: Seq<char>, pos: int, facts: FloatFactsView)
    requires
        is_list(e),
        readable(e, facts),
        render_rest(e, facts) matches Ok(r) && stands_at(s, pos, r),
    ensures
        lex_all(s, pos, facts) == followed_by(
            tokens_rest(e),
            lex_all(s, pos + render_rest(e, facts)->Ok_0.len(), facts),
        ),
    decreases e, 1nat,
{
    let r = render_rest(e, facts)->Ok_0;
    match e {
        Sexp::Pair(head, tail) => {
            lemma_readable_shown(*head, facts);
            lemma_readable_rest_shown(*tail, facts);
            let h = render(*head, facts)->Ok_0;
            let t = render_rest(*tail, facts)->Ok_0;
            assert(r == (seq![' '] + h) + t);
            lemma_stands_split(s, pos, seq![' '] + h, t);
            lemma_stands_split(s, pos, seq![' '], h);
            lemma_stands_index(s, pos, seq![' '], 0);
            lemma_stands_index(s, pos + 1 + h.len(), t, 0);
            lemma_lex_all_skip(s, pos, facts);
            lemma_lex_render(*head, s, pos + 1, facts);
            lemma_lex_render_rest(*tail, s, pos + 1 + h.len(), facts);
            lemma_followed_twice(
                tokens_of(*head),
                tokens_rest(*tail),
                lex_all(s, pos + r.len(), facts),
            );
        },
        _ => {
            lemma_stands_index(s, pos, r, 0);
            lemma_lex_all_step(s, pos, facts);
        },
    }
}

/// Whether the tokens `r` stand in `ts` at `pos`.
pub open spec fn tokens_at(ts: Seq<TokenView>, pos: int, r: Seq<TokenView>) -> bool {
    0 <= pos && pos + r.len() <= ts.len() && ts.subrange(pos, pos + r.len()) == r
}

/// Where tokens stand, their parts stand one behind the other.
pub proof fn lemma_tokens_split(
    ts: Seq<TokenView>,
    pos: int,
    a: Seq<TokenView>,
    b: Seq<TokenView>,
)
    requires
        tokens_at(ts, pos, a + b),
    ensures
        tokens_at(ts, pos, a),
        tokens_at(ts, pos + a.len(), b),
{
    let whole = ts.subrange(pos, pos + (a + b).len());
    assert forall|i: int| 0 <= i < a.len() implies ts.subrange(pos, pos + a.len())[i] == a[i] by {
        assert(whole[i] == (a + b)[i]);
    }
    assert(ts.subrange(pos, pos + a.len()) =~= a);
    assert forall|i: int| 0 <= i < b.len() implies ts.subrange(
        pos + a.len(),
        pos + a.len() + b.len(),
    )[i] == b[i] by {
        assert(whole[a.len() + i] == (a + b)[a.len() + i]);
    }
    assert(ts.subrange(pos + a.len(), pos + a.len() + b.len()) =~= b);
}

/// The token at a place inside tokens that stand in `ts`.
pub proof fn lemma_tokens_index(ts: Seq<TokenView>, pos: int, r: Seq<TokenView>, i: int)
    requires
        tokens_at(ts, pos, r),
        0 <= i < r.len(),
    ensures
        ts[pos + i] == r[i],
{
    assert(ts.subrange(pos, pos + r.len())[i] == r[i]);
}

/// The reader on the tokens of a value that reads back: it finds the value
/// and stops behind its tokens.
pub proof fn lemma_parse_tokens(e: Sexp, ts: Seq<TokenView>, pos: int, facts: FloatFactsView)
    requires
        readable(e, facts),
        tokens_at(ts, pos, tokens_of(e)),
    ensures
        parse_expr(ts, pos) == Some((e, pos + tokens_of(e).len())),
    decreases e, 0nat,
{
    reveal_with_fuel(parse_expr, 2);
    reveal_with_fuel(parse_list, 2);
    lemma_readable_shown(e, facts);
    lemma_tokens_index(ts, pos, tokens_of(e), 0);
    match e {
        Sexp::Nil => {
            lemma_tokens_index(ts, pos, tokens_of(e), 1);
        },
        Sexp::Quote(x) => {
            lemma_tokens_split(ts, pos, seq![TokenView::Quote], tokens_of(*x));
            lemma_parse_tokens(*x, ts, pos + 1, facts);
        },
        Sexp::Unquote(x) => {
            lemma_tokens_split(ts, pos, seq![TokenView::Unquote], tokens_of(*x));
            lemma_parse_tokens(*x, ts, pos + 1, facts);
        },
        Sexp::Quasiquote(x) => {
            lemma_tokens_split(ts, pos, seq![TokenView::Quasiquote], tokens_of(*x));
            lemma_parse_tokens(*x, ts, pos + 1, facts);
        },
        Sexp::Pair(head, tail) => {
            lemma_readable_shown(*head, facts);
            lemma_readable_rest_shown(*tail, facts);
            let open = seq![TokenView::OpeningParen];
            lemma_tokens_split(ts, pos, open + tokens_of(*head), tokens_rest(*tail));
            lemma_tokens_split(ts, pos, open, tokens_of(*head));
            lemma_tokens_index(ts, pos + 1, tokens_of(*head), 0);
            lemma_parse_tokens(*head, ts, pos + 1, facts);
            lemma_parse_rest(*tail, ts, pos + 1 + tokens_of(*head).len(), facts);
        },
        _ => {},
    }
}

/// The reader on the tokens of what follows the first item of a list.
pub proof fn lemma_parse_rest(e: Sexp, ts: Seq<TokenView>, pos: int, facts: FloatFactsView)
    requires
        is_list(e),
        readable(e, facts),
        tokens_at(ts, pos, tokens_rest(e)),
    ensures
        parse_list(ts, pos) == Some((e, pos + tokens_rest(e).len())),
    decreases e, 1nat,
{
    reveal_with_fuel(parse_expr, 2);
    reveal_with_fuel(parse_list, 2);
    lemma_readable_rest_shown(e, facts);
    lemma_tokens_index(ts, pos, tokens_rest(e), 0);
    match e {
        Sexp::Pair(head, tail) => {
            lemma_readable_shown(*head, facts);
            lemma_readable_rest_shown(*tail, facts);
            lemma_tokens_split(ts, pos, tokens_of(*head), tokens_rest(*tail));
            lemma_parse_tokens(*head, ts, pos, facts);
            lemma_parse_rest(*tail, ts, pos + tokens_of(*head).len(), facts);
        },
        _ => {},
    }
}

/// Whether no double in a value that reads back is a NaN.
pub open spec fn nan_free(e: Sexp) -> bool
    decreases e,
{
    match e {
        Sexp::Float(bits) => !is_nan(bits),
        Sexp::Quote(x) => nan_free(*x),
        Sexp::Unquote(x) => nan_free(*x),
        Sexp::Quasiquote(x) => nan_free(*x),
        Sexp::Pair(head, tail) => nan_free(*head) && nan_free(*tail),
        _ => true,
    }
}

/// A value that reads back and holds no NaN is structurally equal to itself.
pub proof fn lemma_readable_same(e: Sexp, facts: FloatFactsView)
    requires
        readable(e, facts),
        nan_free(e),
    ensures
        same(e, e),
    decreases e,
{
    match e {
        Sexp::Quote(x) => lemma_readable_same(*x, facts),
        Sexp::Unquote(x) => lemma_readable_same(*x, facts),
        Sexp::Quasiquote(x) => lemma_readable_same(*x, facts),
        Sexp::Pair(head, tail) => {
            lemma_readable_same(*head, facts);
            lemma_readable_same(*tail, facts);
        },
        _ => {},
    }
}

/// Round trip: the displayed text of a value that reads back is read as that
/// one value, which is structurally equal to it where it holds no NaN.
pub proof fn law_round_trip(e: Sexp, facts: FloatFactsView)
    requires
        readable(e, facts),
    ensures
        render(e, facts) matches Ok(text) && read_text(text, facts) matches Ok(forms)
            && forms.len() == 1 && forms[0] == e && (nan_free(e) ==> same(forms[0], e)),
{
    if nan_free(e) {
        lemma_readable_same(e, facts);
    }
    lemma_readable_shown(e, facts);
    let text = render(e, facts)->Ok_0;
    let ts = tokens_of(e);
    assert(text.subrange(0, text.len() as int) =~= text);
    lemma_lex_render(e, text, 0, facts);
    lemma_lex_all_end(text, text.len() as int, facts);
    assert(ts + Seq::<TokenView>::empty() =~= ts);
    assert(ts.subrange(0, ts.len() as int) =~= ts);
    lemma_parse_tokens(e, ts, 0, facts);
    assert(parse_all(ts, ts.len() as int) == Some(Seq::<Sexp>::empty()));
    assert(seq![e] + Seq::<Sexp>::empty() =~= seq![e]);
}

} // verus!
