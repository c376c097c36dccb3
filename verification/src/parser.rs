//! Reads a token sequence as one S-expression: atoms, `nil`, dotted pairs,
//! lists as nested pairs ending in `nil`, and `'e` as `(quote e)`.
use crate::lexer::{tokens_view, SpecToken, Token};
use crate::prims::str_eq;
use vstd::prelude::*;

verus! {

/// An S-expression.
#[derive(Debug, PartialEq)]
pub enum SExpr {
    Atom(String),
    Nil,
    Cons(Box<SExpr>, Box<SExpr>),
}

/// The model of an S-expression: an atom is its sequence of characters.
pub enum SpecSExpr {
    Atom(Seq<char>),
    Nil,
    Cons(Box<SpecSExpr>, Box<SpecSExpr>),
}

/// The model of an S-expression, part by part.
pub open spec fn sexpr_view(e: SExpr) -> SpecSExpr
    decreases e,
{
    match e {
        SExpr::Atom(s) => SpecSExpr::Atom(s@),
        SExpr::Nil => SpecSExpr::Nil,
        SExpr::Cons(a, d) => SpecSExpr::Cons(Box::new(sexpr_view(*a)), Box::new(sexpr_view(*d))),
    }
}

impl View for SExpr {
    type V = SpecSExpr;

    open spec fn view(&self) -> SpecSExpr {
        sexpr_view(*self)
    }
}

impl Clone for SExpr {
    fn clone(&self) -> (res: Self)
        ensures
            res@ == self@,
        decreases self,
    {
        match self {
            SExpr::Atom(s) => SExpr::Atom(s.clone()),
            SExpr::Nil => SExpr::Nil,
            SExpr::Cons(a, d) => {
                let a2 = (**a).clone();
                let d2 = (**d).clone();
                SExpr::Cons(Box::new(a2), Box::new(d2))
            },
        }
    }
}

/// Why a token sequence is no S-expression.
#[derive(Debug, PartialEq)]
pub enum ParseError {
    /// Tokens are left over after a complete expression.
    UnexpectedToken(Token),
    /// The tokens end inside an expression.
    UnexpectedEof,
    /// A `)` stands where an expression should start.
    UnexpectedCloseParen,
    /// A `.` stands where an expression should start, or a dotted pair is not
    /// closed right after its second part.
    InvalidDottedPair,
}

/// The model of a parse error.
pub enum SpecParseError {
    UnexpectedToken(SpecToken),
    UnexpectedEof,
    UnexpectedCloseParen,
    InvalidDottedPair,
}

impl View for ParseError {
    type V = SpecParseError;

    open spec fn view(&self) -> SpecParseError {
        match self {
            ParseError::UnexpectedToken(t) => SpecParseError::UnexpectedToken(t@),
            ParseError::UnexpectedEof => SpecParseError::UnexpectedEof,
            ParseError::UnexpectedCloseParen => SpecParseError::UnexpectedCloseParen,
            ParseError::InvalidDottedPair => SpecParseError::InvalidDottedPair,
        }
    }
}

/// The model of a parse result.
pub open spec fn result_view(r: Result<SExpr, ParseError>) -> Result<SpecSExpr, SpecParseError> {
    match r {
        Ok(e) => Ok(e@),
        Err(e) => Err(e@),
    }
}

/// The characters of `nil`.
pub open spec fn nil_name() -> Seq<char> {
    seq!['n', 'i', 'l']
}

/// The characters of `quote`.
pub open spec fn quote_name() -> Seq<char> {
    seq!['q', 'u', 'o', 't', 'e']
}

/// `(quote e)`, that is `(quote . (e . nil))`.
pub open spec fn quoted(e: SpecSExpr) -> SpecSExpr {
    SpecSExpr::Cons(
        Box::new(SpecSExpr::Atom(quote_name())),
        Box::new(SpecSExpr::Cons(Box::new(e), Box::new(SpecSExpr::Nil))),
    )
}

/// The outcome of a parsing step: its result, and the position of the next
/// unread token afterwards (also where it failed).
pub type SpecParse = (Result<SpecSExpr, SpecParseError>, nat);

/// Reads one expression of `t` starting at token `pos`.
pub open spec fn spec_parse_expr(t: Seq<SpecToken>, pos: nat) -> SpecParse
    decreases t.len() - pos, 0nat,
{
    if pos >= t.len() {
        (Err(SpecParseError::UnexpectedEof), pos)
    } else {
        match t[pos as int] {
            SpecToken::Symbol(s) => if s == nil_name() {
                (Ok(SpecSExpr::Nil), pos + 1)
            } else {
                (Ok(SpecSExpr::Atom(s)), pos + 1)
            },
            SpecToken::Quote => {
                let (r, p) = spec_parse_expr(t, pos + 1);
                match r {
                    Ok(e) => (Ok(quoted(e)), p),
                    Err(e) => (Err(e), p),
                }
            },
            SpecToken::LParen => spec_parse_list(t, pos + 1),
            SpecToken::RParen => (Err(SpecParseError::UnexpectedCloseParen), pos + 1),
            SpecToken::Dot => (Err(SpecParseError::InvalidDottedPair), pos + 1),
        }
    }
}

/// Reads the rest of a list after its `(`, starting at token `pos`: `)` ends
/// it as `nil`; an element followed by `.` gives a dotted pair, which must be
/// closed right after its second part; otherwise the element heads a list
/// whose tail is read in turn.
pub open spec fn spec_parse_list(t: Seq<SpecToken>, pos: nat) -> SpecParse
    decreases t.len() - pos, 1nat,
{
    if pos < t.len() && t[pos as int] is RParen {
        (Ok(SpecSExpr::Nil), pos + 1)
    } else {
        let (r1, p1) = spec_parse_expr(t, pos);
        match r1 {
            Err(e) => (Err(e), p1),
            Ok(head) => if p1 <= pos || p1 > t.len() {
                // never taken: a successful read consumes at least one token
                // and does not pass the end
                (Err(SpecParseError::UnexpectedEof), p1)
            } else if p1 < t.len() && t[p1 as int] is Dot {
                let (r2, p2) = spec_parse_expr(t, p1 + 1);
                match r2 {
                    Err(e) => (Err(e), p2),
                    Ok(tail) => if p2 >= t.len() {
                        (Err(SpecParseError::UnexpectedEof), p2)
                    } else if t[p2 as int] is RParen {
                        (Ok(SpecSExpr::Cons(Box::new(head), Box::new(tail))), p2 + 1)
                    } else {
                        (Err(SpecParseError::InvalidDottedPair), p2 + 1)
                    },
                }
            } else {
                let (r2, p2) = spec_parse_list(t, p1);
                match r2 {
                    Err(e) => (Err(e), p2),
                    Ok(tail) => (Ok(SpecSExpr::Cons(Box::new(head), Box::new(tail))), p2),
                }
            },
        }
    }
}

/// Reads a whole token sequence from `pos` as one expression; tokens left over
/// are an error.
pub open spec fn spec_parse(t: Seq<SpecToken>, pos: nat) -> SpecParse {
    let (r, p) = spec_parse_expr(t, pos);
    match r {
        Ok(e) => if p < t.len() {
            (Err(SpecParseError::UnexpectedToken(t[p as int])), p)
        } else {
            (Ok(e), p)
        },
        Err(e) => (Err(e), p),
    }
}

/// A recursive-descent parser over a token sequence.
pub struct Parser {
    tokens: Vec<Token>,
    position: usize,
}

impl Parser {
    /// The tokens being read.
    pub closed spec fn token_seq(&self) -> Seq<SpecToken> {
        tokens_view(self.tokens@)
    }

    /// The position of the next unread token.
    pub closed spec fn pos(&self) -> nat {
        self.position as nat
    }

    /// The position never passes the end of the tokens.
    pub closed spec fn wf(&self) -> bool {
        self.position <= self.tokens@.len()
    }

    /// A parser at the first of `tokens`.
    pub fn new(tokens: Vec<Token>) -> (p: Self)
        ensures
            p.wf(),
            p.token_seq() == tokens_view(tokens@),
            p.pos() == 0,
    {
        Self { tokens, position: 0 }
    }

    /// Reads all the tokens as one expression.
    pub fn parse(&mut self) -> (res: Result<SExpr, ParseError>)
        requires
            old(self).wf(),
        ensures
            final(self).wf(),
            final(self).token_seq() == old(self).token_seq(),
            (result_view(res), final(self).pos()) == spec_parse(old(self).token_seq(), old(self).pos()),
    {
        let expr = self.parse_expr()?;
        if self.position < self.tokens.len() {
            return Err(ParseError::UnexpectedToken(self.tokens[self.position].clone()));
        }
        Ok(expr)
    }

    /// Reads one expression from the current position.
    pub fn parse_expr(&mut self) -> (res: Result<SExpr, ParseError>)
        requires
            old(self).wf(),
        ensures
            final(self).wf(),
            final(self).token_seq() == old(self).token_seq(),
            (result_view(res), final(self).pos()) == spec_parse_expr(old(self).token_seq(), old(self).pos()),
            final(self).pos() >= old(self).pos(),
            res is Ok ==> final(self).pos() > old(self).pos(),
        decreases old(self).token_seq().len() - old(self).pos(), 0nat,
    {
        let token = self.next_token()?;
        match token {
            Token::Symbol(s) => {
                proof {
                    reveal_strlit("nil");
                }
                assert("nil"@ =~= nil_name());
                if str_eq(s.as_str(), "nil") {
                    Ok(SExpr::Nil)
                } else {
                    Ok(SExpr::Atom(s))
                }
            },
            Token::Quote => {
                let expr = self.parse_expr()?;
                let q = "quote".to_string();
                proof {
                    reveal_strlit("quote");
                }
                assert(q@ =~= quote_name());
                let ghost e = expr@;
                let inner = SExpr::Cons(Box::new(expr), Box::new(SExpr::Nil));
                assert(sexpr_view(SExpr::Nil) == SpecSExpr::Nil);
                assert(inner@ == SpecSExpr::Cons(Box::new(e), Box::new(SpecSExpr::Nil)));
                let head = SExpr::Atom(q);
                assert(head@ == SpecSExpr::Atom(quote_name()));
                let res = SExpr::Cons(Box::new(head), Box::new(inner));
                assert(res@ == quoted(e));
                Ok(res)
            },
            Token::LParen => self.parse_list(),
            Token::RParen => Err(ParseError::UnexpectedCloseParen),
            Token::Dot => Err(ParseError::InvalidDottedPair),
        }
    }

    /// Reads the rest of a list whose `(` was just read.
    pub fn parse_list(&mut self) -> (res: Result<SExpr, ParseError>)
        requires
            old(self).wf(),
        ensures
            final(self).wf(),
            final(self).token_seq() == old(self).token_seq(),
            (result_view(res), final(self).pos()) == spec_parse_list(old(self).token_seq(), old(self).pos()),
            final(self).pos() >= old(self).pos(),
            res is Ok ==> final(self).pos() > old(self).pos(),
        decreases old(self).token_seq().len() - old(self).pos(), 1nat,
    {
        if let Some(Token::RParen) = self.peek_token() {
            self.next_token()?;
            return Ok(SExpr::Nil);
        }
        let head = self.parse_expr()?;
        if let Some(Token::Dot) = self.peek_token() {
            self.next_token()?;
            let tail = self.parse_expr()?;
            let closing = self.next_token()?;
            if let Token::RParen = closing {
                Ok(SExpr::Cons(Box::new(head), Box::new(tail)))
            } else {
                Err(ParseError::InvalidDottedPair)
            }
        } else {
            let tail = self.parse_list()?;
            Ok(SExpr::Cons(Box::new(head), Box::new(tail)))
        }
    }

    /// Takes the next token, or fails at the end of the tokens.
    pub fn next_token(&mut self) -> (res: Result<Token, ParseError>)
        requires
            old(self).wf(),
        ensures
            final(self).wf(),
            final(self).token_seq() == old(self).token_seq(),
            old(self).pos() < old(self).token_seq().len() ==> {
                &&& res matches Ok(tok)
                &&& tok@ == old(self).token_seq()[old(self).pos() as int]
                &&& final(self).pos() == old(self).pos() + 1
            },
            old(self).pos() >= old(self).token_seq().len() ==> {
                &&& res matches Err(e)
                &&& e == ParseError::UnexpectedEof
                &&& final(self).pos() == old(self).pos()
            },
    {
        if self.position >= self.tokens.len() {
            return Err(ParseError::UnexpectedEof);
        }
        let token = self.tokens[self.position].clone();
        self.position += 1;
        Ok(token)
    }

    /// The next token, if any, without taking it.
    pub fn peek_token(&self) -> (res: Option<&Token>)
        requires
            self.wf(),
        ensures
            self.pos() < self.token_seq().len() ==> (res matches Some(tok) && tok@ == self.token_seq()[self.pos() as int]),
            self.pos() >= self.token_seq().len() ==> res is None,
    {
        if self.position < self.tokens.len() {
            Some(&self.tokens[self.position])
        } else {
            None
        }
    }
}

} // verus!
