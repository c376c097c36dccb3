//! Splits source text into the tokens of the S-expression syntax.
use crate::prims::string_push;
use vstd::prelude::*;

verus! {

/// A lexical token.
#[derive(Debug, PartialEq)]
pub enum Token {
    /// `(`
    LParen,
    /// `)`
    RParen,
    /// `.`
    Dot,
    /// A run of characters that holds no whitespace and no delimiter.
    Symbol(String),
    /// `'`, shorthand for `(quote ...)`
    Quote,
}

/// The mathematical model of a token: a symbol is its sequence of characters.
pub enum SpecToken {
    LParen,
    RParen,
    Dot,
    Symbol(Seq<char>),
    Quote,
}

impl View for Token {
    type V = SpecToken;

    open spec fn view(&self) -> SpecToken {
        match self {
            Token::LParen => SpecToken::LParen,
            Token::RParen => SpecToken::RParen,
            Token::Dot => SpecToken::Dot,
            Token::Symbol(s) => SpecToken::Symbol(s@),
            Token::Quote => SpecToken::Quote,
        }
    }
}

impl Clone for Token {
    fn clone(&self) -> (res: Self)
        ensures
            res@ == self@,
    {
        match self {
            Token::LParen => Token::LParen,
            Token::RParen => Token::RParen,
            Token::Dot => Token::Dot,
            Token::Symbol(s) => Token::Symbol(s.clone()),
            Token::Quote => Token::Quote,
        }
    }
}

/// The error type of `tokenize`; every input text is accepted, so it is never
/// produced.
#[derive(Debug, PartialEq)]
pub enum LexError {
    InvalidTokenError,
}

/// The views of a sequence of tokens.
pub open spec fn tokens_view(ts: Seq<Token>) -> Seq<SpecToken> {
    ts.map_values(|t: Token| t@)
}

/// Unicode `White_Space`, the property that `char::is_whitespace` tests.
pub open spec fn spec_is_whitespace(c: char) -> bool {
    let u = c as u32;
    ||| 0x09 <= u <= 0x0d
    ||| u == 0x20
    ||| u == 0x85
    ||| u == 0xa0
    ||| u == 0x1680
    ||| 0x2000 <= u <= 0x200a
    ||| u == 0x2028
    ||| u == 0x2029
    ||| u == 0x202f
    ||| u == 0x205f
    ||| u == 0x3000
}

/// A character that ends a symbol: whitespace, a parenthesis, a dot or a quote.
pub open spec fn is_delimiter(c: char) -> bool {
    spec_is_whitespace(c) || c == '(' || c == ')' || c == '.' || c == '\''
}

/// The number of leading characters of `s` that are not delimiters.
pub open spec fn symbol_len(s: Seq<char>) -> nat
    decreases s.len(),
{
    if s.len() == 0 || is_delimiter(s[0]) {
        0
    } else {
        1 + symbol_len(s.drop_first())
    }
}

/// The tokens of a text, read from left to right: whitespace separates tokens
/// and is dropped, each of `( ) . '` is a token of its own, and every maximal
/// run of other characters is a symbol.
pub open spec fn spec_tokenize(s: Seq<char>) -> Seq<SpecToken>
    decreases s.len(),
{
    if s.len() == 0 {
        seq![]
    } else if spec_is_whitespace(s[0]) {
        spec_tokenize(s.drop_first())
    } else if s[0] == '(' {
        seq![SpecToken::LParen] + spec_tokenize(s.drop_first())
    } else if s[0] == ')' {
        seq![SpecToken::RParen] + spec_tokenize(s.drop_first())
    } else if s[0] == '.' {
        seq![SpecToken::Dot] + spec_tokenize(s.drop_first())
    } else if s[0] == '\'' {
        seq![SpecToken::Quote] + spec_tokenize(s.drop_first())
    } else {
        let n = symbol_len(s);
        proof {
            lemma_symbol_len_bound(s);
        }
        seq![SpecToken::Symbol(s.take(n as int))] + spec_tokenize(s.skip(n as int))
    }
}

/// A symbol is never longer than the text, and it is non-empty where the text
/// starts with a character that is no delimiter.
pub proof fn lemma_symbol_len_bound(s: Seq<char>)
    ensures
        symbol_len(s) <= s.len(),
        s.len() > 0 && !is_delimiter(s[0]) ==> symbol_len(s) >= 1,
    decreases s.len(),
{
    if s.len() > 0 && !is_delimiter(s[0]) {
        lemma_symbol_len_bound(s.drop_first());
    }
}

/// Where `s[i..j]` holds no delimiter and `j` ends the text or stands on a
/// delimiter, the symbol at `i` is `s[i..j]`.
proof fn lemma_symbol_len_at(s: Seq<char>, i: int, j: int)
    requires
        0 <= i <= j <= s.len(),
        forall|k: int| i <= k < j ==> !is_delimiter(#[trigger] s[k]),
        j == s.len() || is_delimiter(s[j]),
    ensures
        symbol_len(s.skip(i)) == j - i,
    decreases j - i,
{
    let t = s.skip(i);
    if i < j {
        lemma_symbol_len_at(s, i + 1, j);
        assert(t.drop_first() =~= s.skip(i + 1));
        assert(t[0] == s[i]);
    } else {
        if j < s.len() {
            assert(t[0] == s[j]);
        }
    }
}

/// Where `s[..j]` holds no delimiter and `j` ends the text or stands on a
/// delimiter, the symbol at the start of `s` is `s[..j]`.
pub proof fn lemma_symbol_len_at_start(s: Seq<char>, j: int)
    requires
        0 <= j <= s.len(),
        forall|k: int| 0 <= k < j ==> !is_delimiter(#[trigger] s[k]),
        j == s.len() || is_delimiter(s[j]),
    ensures
        symbol_len(s) == j,
{
    lemma_symbol_len_at(s, 0, j);
    assert(s.skip(0) =~= s);
}

/// `char::is_whitespace`: whether `c` has the Unicode `White_Space` property.
pub fn is_whitespace(c: char) -> (r: bool)
    ensures
        r == spec_is_whitespace(c),
{
    let u = c as u32;
    (0x09 <= u && u <= 0x0d) || u == 0x20 || u == 0x85 || u == 0xa0 || u == 0x1680 || (0x2000
        <= u && u <= 0x200a) || u == 0x2028 || u == 0x2029 || u == 0x202f || u == 0x205f || u
        == 0x3000
}

fn is_delimiter_char(c: char) -> (r: bool)
    ensures
        r == is_delimiter(c),
{
    is_whitespace(c) || c == '(' || c == ')' || c == '.' || c == '\''
}

fn chars_of(input: &str) -> (res: Vec<char>)
    ensures
        res@ == input@,
{
    let mut res: Vec<char> = Vec::new();
    for c in it: input.chars()
        invariant
            res@ == it.seq().take(it.index() as int),
            it.seq() == input@,
    {
        res.push(c);
    }
    res
}

/// Splits `input` into tokens.  Every text is accepted.
pub fn tokenize(input: &str) -> (res: Result<Vec<Token>, LexError>)
    ensures
        res matches Ok(ts) && tokens_view(ts@) == spec_tokenize(input@),
{
    let chars = chars_of(input);
    let ghost s = input@;
    let n = chars.len();
    let mut token_list: Vec<Token> = Vec::new();
    let mut i: usize = 0;
    assert(s.skip(0) =~= s);
    assert(tokens_view(token_list@) + spec_tokenize(s) =~= spec_tokenize(s));
    while i < n
        invariant
            chars@ == s,
            n == s.len(),
            i <= n,
            tokens_view(token_list@) + spec_tokenize(s.skip(i as int)) == spec_tokenize(s),
        decreases n - i,
    {
        let ghost rest = s.skip(i as int);
        let ghost before = tokens_view(token_list@);
        let ch = chars[i];
        assert(rest[0] == ch);
        assert(rest.drop_first() =~= s.skip(i + 1));
        if is_whitespace(ch) {
            i = i + 1;
        } else if ch == '(' || ch == ')' || ch == '.' || ch == '\'' {
            let t = if ch == '(' {
                Token::LParen
            } else if ch == ')' {
                Token::RParen
            } else if ch == '.' {
                Token::Dot
            } else {
                Token::Quote
            };
            token_list.push(t);
            i = i + 1;
            assert(tokens_view(token_list@) =~= before.push(t@));
            assert(before.push(t@) + spec_tokenize(s.skip(i as int)) =~= before + (seq![t@]
                + spec_tokenize(s.skip(i as int))));
        } else {
            let mut symbol = String::new();
            let start = i;
            while i < n && !is_delimiter_char(chars[i])
                invariant
                    chars@ == s,
                    n == s.len(),
                    start <= i <= n,
                    symbol@ == s.subrange(start as int, i as int),
                    forall|k: int| start <= k < i ==> !is_delimiter(#[trigger] s[k]),
                decreases n - i,
            {
                string_push(&mut symbol, chars[i]);
                i = i + 1;
                assert(symbol@ =~= s.subrange(start as int, i as int));
            }
            proof {
                lemma_symbol_len_at(s, start as int, i as int);
                assert(rest.take(symbol_len(rest) as int) =~= symbol@);
                assert(rest.skip(symbol_len(rest) as int) =~= s.skip(i as int));
            }
            let t = Token::Symbol(symbol);
            token_list.push(t);
            assert(tokens_view(token_list@) =~= before.push(t@));
            assert(before.push(t@) + spec_tokenize(s.skip(i as int)) =~= before + (seq![t@]
                + spec_tokenize(s.skip(i as int))));
        }
    }
    assert(s.skip(n as int) =~= Seq::<char>::empty());
    assert(tokens_view(token_list@) + seq![] =~= tokens_view(token_list@));
    Ok(token_list)
}

} // verus!
