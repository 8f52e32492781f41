//! The grammar front-end: parses the grammar surface syntax into the raw
//! AST. Precedence, highest first: the postfix operators, the prefix
//! predicates, concatenation, then ordered choice. The first syntactic error
//! aborts the stage.
use vstd::prelude::*;
use crate::ast::{
    CharacterClassExpr, CharacterInterval, Expression, ExpressionNode, Grammar, Rule, Span,
};
use crate::ast::raw_wf;

verus! {

/// A syntax error: where, and what was expected.
#[derive(Debug)]
pub struct ParseError {
    pub span: Span,
    pub msg: Vec<char>,
}

/// The front-end parser's state: the grammar text and the read position.
pub struct Parser {
    pub input: Vec<char>,
    pub pos: usize,
}

/// The parser never reads past the end.
pub open spec fn wf(p: Parser) -> bool {
    p.pos <= p.input@.len()
}

/// A blank between tokens.
pub open spec fn spec_blank(c: char) -> bool {
    c == ' ' || c == '\t' || c == '\n' || c == '\r'
}

/// The position of the first non-blank character at or after `pos`.
pub open spec fn spec_skip(input: Seq<char>, pos: int) -> int
    decreases input.len() - pos,
{
    if 0 <= pos < input.len() && spec_blank(input[pos]) {
        spec_skip(input, pos + 1)
    } else {
        pos
    }
}

/// A character that may start an identifier.
pub open spec fn spec_ident_start(c: char) -> bool {
    ('a' <= c && c <= 'z') || ('A' <= c && c <= 'Z') || c == '_'
}

/// A character that may continue an identifier.
pub open spec fn spec_ident_char(c: char) -> bool {
    spec_ident_start(c) || ('0' <= c && c <= '9')
}

/// The position right after the identifier characters at or after `pos`.
pub open spec fn spec_ident_end(input: Seq<char>, pos: int) -> int
    decreases input.len() - pos,
{
    if 0 <= pos < input.len() && spec_ident_char(input[pos]) {
        spec_ident_end(input, pos + 1)
    } else {
        pos
    }
}

impl Parser {
    /// A parser at the start of the text.
    pub fn new(input: Vec<char>) -> (r: Parser)
        ensures
            wf(r),
            r.pos == 0,
            r.input@ == input@,
    {
        Parser { input, pos: 0 }
    }

    /// The current character, if any.
    fn peek(&self) -> (r: Option<char>)
        requires
            wf(*self),
        ensures
            r is Some <==> self.pos < self.input@.len(),
            r is Some ==> r->0 == self.input@[self.pos as int],
    {
        if self.pos < self.input.len() {
            Option::Some(self.input[self.pos])
        } else {
            Option::None
        }
    }

    /// Advances over one character.
    fn bump(&mut self)
        requires
            wf(*old(self)),
            old(self).pos < old(self).input@.len(),
        ensures
            wf(*final(self)),
            final(self).pos == old(self).pos + 1,
            final(self).input@ == old(self).input@,
    {
        let n = self.input.len();
        if self.pos < n {
            self.pos = self.pos + 1;
        }
    }

    /// Skips blanks between tokens.
    fn skip_spaces(&mut self)
        requires
            wf(*old(self)),
        ensures
            wf(*final(self)),
            final(self).pos >= old(self).pos,
            final(self).input@ == old(self).input@,
            final(self).pos == spec_skip(old(self).input@, old(self).pos as int),
        decreases old(self).input@.len() - old(self).pos,
    {
        match self.peek() {
            Option::Some(c) => {
                if c == ' ' || c == '\t' || c == '\n' || c == '\r' {
                    self.bump();
                    self.skip_spaces();
                }
            },
            Option::None => {},
        }
    }

    /// An error at the current position.
    fn error(&self, msg: &str) -> (r: ParseError)
        ensures
            r.span.lo == self.pos,
    {
        ParseError {
            span: Span::new(self.pos, self.pos),
            msg: crate::utility::chars_of(msg),
        }
    }

    /// An identifier: a letter or underscore, then letters, digits and
    /// underscores. Accepts exactly when such a character stands at the
    /// current position, and then takes the longest identifier there.
    fn parse_ident(&mut self) -> (r: Result<Vec<char>, ParseError>)
        requires
            wf(*old(self)),
        ensures
            wf(*final(self)),
            final(self).input@ == old(self).input@,
            final(self).pos >= old(self).pos,
            r is Ok ==> final(self).pos > old(self).pos && r->Ok_0@.len() >= 1,
            r is Ok <==> old(self).pos < old(self).input@.len() && spec_ident_start(
                old(self).input@[old(self).pos as int],
            ),
            r is Ok ==> final(self).pos == spec_ident_end(
                old(self).input@,
                old(self).pos + 1,
            ) && r->Ok_0@ == old(self).input@.subrange(
                old(self).pos as int,
                final(self).pos as int,
            ),
            r is Err ==> final(self).pos == old(self).pos,
    {
        let mut name: Vec<char> = Vec::new();
        match self.peek() {
            Option::Some(c) => {
                if ('a' <= c && c <= 'z') || ('A' <= c && c <= 'Z') || c == '_' {
                    name.push(c);
                    self.bump();
                } else {
                    return Result::Err(self.error("expected an identifier"));
                }
            },
            Option::None => {
                return Result::Err(self.error("expected an identifier"));
            },
        }
        loop
            invariant
                wf(*self),
                self.input@ == old(self).input@,
                self.pos > old(self).pos,
                name@.len() >= 1,
                name@ == self.input@.subrange(old(self).pos as int, self.pos as int),
                spec_ident_end(self.input@, old(self).pos + 1) == spec_ident_end(
                    self.input@,
                    self.pos as int,
                ),
            ensures
                wf(*self),
                self.input@ == old(self).input@,
                self.pos > old(self).pos,
                name@ == self.input@.subrange(old(self).pos as int, self.pos as int),
                self.pos == spec_ident_end(self.input@, old(self).pos + 1),
            decreases self.input@.len() - self.pos,
        {
            match self.peek() {
                Option::Some(c) => {
                    if ('a' <= c && c <= 'z') || ('A' <= c && c <= 'Z') || ('0' <= c && c <= '9')
                        || c == '_' {
                        name.push(c);
                        self.bump();
                        proof {
                            assert(name@ =~= self.input@.subrange(
                                old(self).pos as int,
                                self.pos as int,
                            ));
                        }
                    } else {
                        break ;
                    }
                },
                Option::None => {
                    break ;
                },
            }
        }
        Result::Ok(name)
    }

    /// One possibly escaped character of a literal or class, ended by `end`.
    fn parse_char(&mut self, end: char) -> (r: Result<char, ParseError>)
        requires
            wf(*old(self)),
        ensures
            wf(*final(self)),
            final(self).input@ == old(self).input@,
            final(self).pos >= old(self).pos,
            r is Ok ==> final(self).pos > old(self).pos,
    {
        match self.peek() {
            Option::Some(c) => {
                if c == end {
                    Result::Err(self.error("unexpected delimiter"))
                } else if c == '\\' {
                    self.bump();
                    match self.peek() {
                        Option::Some(e) => {
                            self.bump();
                            if e == 'n' {
                                Result::Ok('\n')
                            } else if e == 't' {
                                Result::Ok('\t')
                            } else if e == 'r' {
                                Result::Ok('\r')
                            } else {
                                Result::Ok(e)
                            }
                        },
                        Option::None => Result::Err(self.error("unfinished escape")),
                    }
                } else {
                    self.bump();
                    Result::Ok(c)
                }
            },
            Option::None => Result::Err(self.error("unexpected end of grammar")),
        }
    }

    /// A string literal between double quotes.
    fn parse_str_literal(&mut self) -> (r: Result<Vec<char>, ParseError>)
        requires
            wf(*old(self)),
            old(self).pos < old(self).input@.len(),
            old(self).input@[old(self).pos as int] == '"',
        ensures
            wf(*final(self)),
            final(self).input@ == old(self).input@,
            final(self).pos >= old(self).pos,
            r is Ok ==> final(self).pos > old(self).pos,
    {
        self.bump();
        let mut text: Vec<char> = Vec::new();
        loop
            invariant
                wf(*self),
                self.input@ == old(self).input@,
                self.pos > old(self).pos,
            ensures
                wf(*self),
                self.input@ == old(self).input@,
                self.pos > old(self).pos,
            decreases self.input@.len() - self.pos,
        {
            match self.peek() {
                Option::Some(c) => {
                    if c == '"' {
                        self.bump();
                        break ;
                    }
                    match self.parse_char('"') {
                        Result::Ok(d) => {
                            text.push(d);
                        },
                        Result::Err(e) => {
                            return Result::Err(e);
                        },
                    }
                },
                Option::None => {
                    return Result::Err(self.error("unterminated string literal"));
                },
            }
        }
        Result::Ok(text)
    }

    /// A character class between brackets: one or more intervals.
    fn parse_char_class(&mut self) -> (r: Result<CharacterClassExpr, ParseError>)
        requires
            wf(*old(self)),
            old(self).pos < old(self).input@.len(),
            old(self).input@[old(self).pos as int] == '[',
        ensures
            wf(*final(self)),
            final(self).input@ == old(self).input@,
            final(self).pos >= old(self).pos,
            r is Ok ==> final(self).pos > old(self).pos && r->Ok_0.intervals@.len() >= 1,
    {
        self.bump();
        let mut intervals: Vec<CharacterInterval> = Vec::new();
        loop
            invariant
                wf(*self),
                self.input@ == old(self).input@,
                self.pos > old(self).pos,
            ensures
                wf(*self),
                self.input@ == old(self).input@,
                self.pos > old(self).pos,
                intervals@.len() >= 1,
            decreases self.input@.len() - self.pos,
        {
            match self.peek() {
                Option::Some(c) => {
                    if c == ']' {
                        if intervals.len() == 0 {
                            return Result::Err(self.error("empty character class"));
                        }
                        self.bump();
                        break ;
                    }
                    let lo = match self.parse_char(']') {
                        Result::Ok(d) => d,
                        Result::Err(e) => {
                            return Result::Err(e);
                        },
                    };
                    let mut hi = lo;
                    match self.peek() {
                        Option::Some(d) => {
                            if d == '-' {
                                self.bump();
                                hi = match self.parse_char(']') {
                                    Result::Ok(h) => h,
                                    Result::Err(e) => {
                                        return Result::Err(e);
                                    },
                                };
                            }
                        },
                        Option::None => {},
                    }
                    intervals.push(CharacterInterval { lo, hi });
                },
                Option::None => {
                    return Result::Err(self.error("unterminated character class"));
                },
            }
        }
        Result::Ok(CharacterClassExpr { intervals })
    }
}

impl Parser {
    /// An atom: a non-terminal, a string literal, any-char, a character
    /// class, or a parenthesized expression.
    fn parse_atom(&mut self) -> (r: Result<Expression, ParseError>)
        requires
            wf(*old(self)),
        ensures
            wf(*final(self)),
            final(self).input@ == old(self).input@,
            final(self).pos >= old(self).pos,
            r is Ok ==> final(self).pos > old(self).pos && raw_wf(r->Ok_0),
        decreases old(self).input@.len() - old(self).pos, 1int,
    {
        let lo = self.pos;
        match self.peek() {
            Option::Some(c) => {
                if c == '"' {
                    match self.parse_str_literal() {
                        Result::Ok(text) => Result::Ok(
                            Expression {
                                span: Span::new(lo, self.pos),
                                node: ExpressionNode::StrLiteral(text),
                            },
                        ),
                        Result::Err(e) => Result::Err(e),
                    }
                } else if c == '.' {
                    self.bump();
                    Result::Ok(
                        Expression {
                            span: Span::new(lo, self.pos),
                            node: ExpressionNode::AnySingleChar,
                        },
                    )
                } else if c == '[' {
                    match self.parse_char_class() {
                        Result::Ok(cc) => Result::Ok(
                            Expression {
                                span: Span::new(lo, self.pos),
                                node: ExpressionNode::CharacterClass(cc),
                            },
                        ),
                        Result::Err(e) => Result::Err(e),
                    }
                } else if c == '(' {
                    self.bump();
                    self.skip_spaces();
                    let inner = match self.parse_expression() {
                        Result::Ok(e) => e,
                        Result::Err(e) => {
                            return Result::Err(e);
                        },
                    };
                    self.skip_spaces();
                    match self.peek() {
                        Option::Some(d) => {
                            if d == ')' {
                                self.bump();
                                Result::Ok(inner)
                            } else {
                                Result::Err(self.error("expected `)`"))
                            }
                        },
                        Option::None => Result::Err(self.error("expected `)`")),
                    }
                } else if ('a' <= c && c <= 'z') || ('A' <= c && c <= 'Z') || c == '_' {
                    match self.parse_ident() {
                        Result::Ok(name) => Result::Ok(
                            Expression {
                                span: Span::new(lo, self.pos),
                                node: ExpressionNode::NonTerminalSymbol(name),
                            },
                        ),
                        Result::Err(e) => Result::Err(e),
                    }
                } else {
                    Result::Err(self.error("expected an expression"))
                }
            },
            Option::None => Result::Err(self.error("expected an expression")),
        }
    }

    /// An atom with an optional postfix `*`, `+` or `?`.
    fn parse_suffixed(&mut self) -> (r: Result<Expression, ParseError>)
        requires
            wf(*old(self)),
        ensures
            wf(*final(self)),
            final(self).input@ == old(self).input@,
            final(self).pos >= old(self).pos,
            r is Ok ==> final(self).pos > old(self).pos && raw_wf(r->Ok_0),
        decreases old(self).input@.len() - old(self).pos, 2int,
    {
        let lo = self.pos;
        let atom = match self.parse_atom() {
            Result::Ok(e) => e,
            Result::Err(e) => {
                return Result::Err(e);
            },
        };
        match self.peek() {
            Option::Some(c) => {
                if c == '*' {
                    self.bump();
                    Result::Ok(
                        Expression {
                            span: Span::new(lo, self.pos),
                            node: ExpressionNode::ZeroOrMore(Box::new(atom)),
                        },
                    )
                } else if c == '+' {
                    self.bump();
                    Result::Ok(
                        Expression {
                            span: Span::new(lo, self.pos),
                            node: ExpressionNode::OneOrMore(Box::new(atom)),
                        },
                    )
                } else if c == '?' {
                    self.bump();
                    Result::Ok(
                        Expression {
                            span: Span::new(lo, self.pos),
                            node: ExpressionNode::Optional(Box::new(atom)),
                        },
                    )
                } else {
                    Result::Ok(atom)
                }
            },
            Option::None => Result::Ok(atom),
        }
    }

    /// A suffixed atom with an optional prefix `!` or `&`.
    fn parse_prefixed(&mut self) -> (r: Result<Expression, ParseError>)
        requires
            wf(*old(self)),
        ensures
            wf(*final(self)),
            final(self).input@ == old(self).input@,
            final(self).pos >= old(self).pos,
            r is Ok ==> final(self).pos > old(self).pos && raw_wf(r->Ok_0),
        decreases old(self).input@.len() - old(self).pos, 3int,
    {
        let lo = self.pos;
        match self.peek() {
            Option::Some(c) => {
                if c == '!' {
                    self.bump();
                    self.skip_spaces();
                    match self.parse_suffixed() {
                        Result::Ok(e) => Result::Ok(
                            Expression {
                                span: Span::new(lo, self.pos),
                                node: ExpressionNode::NotPredicate(Box::new(e)),
                            },
                        ),
                        Result::Err(e) => Result::Err(e),
                    }
                } else if c == '&' {
                    self.bump();
                    self.skip_spaces();
                    match self.parse_suffixed() {
                        Result::Ok(e) => Result::Ok(
                            Expression {
                                span: Span::new(lo, self.pos),
                                node: ExpressionNode::AndPredicate(Box::new(e)),
                            },
                        ),
                        Result::Err(e) => Result::Err(e),
                    }
                } else {
                    self.parse_suffixed()
                }
            },
            Option::None => self.parse_suffixed(),
        }
    }

    /// True when the current character can start a prefixed atom.
    fn at_term_start(&self) -> (r: bool)
        requires
            wf(*self),
    {
        match self.peek() {
            Option::Some(c) => c == '"' || c == '.' || c == '[' || c == '(' || c == '!' || c == '&'
                || ('a' <= c && c <= 'z') || ('A' <= c && c <= 'Z') || c == '_',
            Option::None => false,
        }
    }

    /// A concatenation: one prefixed term, or a sequence of two or more.
    fn parse_seq(&mut self) -> (r: Result<Expression, ParseError>)
        requires
            wf(*old(self)),
        ensures
            wf(*final(self)),
            final(self).input@ == old(self).input@,
            final(self).pos >= old(self).pos,
            r is Ok ==> final(self).pos > old(self).pos && raw_wf(r->Ok_0),
        decreases old(self).input@.len() - old(self).pos, 4int,
    {
        let lo = self.pos;
        let first = match self.parse_prefixed() {
            Result::Ok(e) => e,
            Result::Err(e) => {
                return Result::Err(e);
            },
        };
        let mut children: Vec<Expression> = Vec::new();
        children.push(first);
        loop
            invariant
                wf(*self),
                self.input@ == old(self).input@,
                self.pos > old(self).pos,
                children@.len() >= 1,
                forall|j: int| 0 <= j < children@.len() ==> raw_wf(#[trigger] children@[j]),
            ensures
                wf(*self),
                self.input@ == old(self).input@,
                self.pos > old(self).pos,
                children@.len() >= 1,
                forall|j: int| 0 <= j < children@.len() ==> raw_wf(#[trigger] children@[j]),
            decreases self.input@.len() - self.pos,
        {
            self.skip_spaces();
            if !self.at_term_start() {
                break ;
            }
            match self.parse_prefixed() {
                Result::Ok(e) => {
                    children.push(e);
                },
                Result::Err(e) => {
                    return Result::Err(e);
                },
            }
        }
        if children.len() == 1 {
            let single = children.remove(0);
            Result::Ok(single)
        } else {
            Result::Ok(
                Expression {
                    span: Span::new(lo, self.pos),
                    node: ExpressionNode::Sequence(children),
                },
            )
        }
    }

    /// An expression: alternatives separated by `/`, tried left to right.
    fn parse_expression(&mut self) -> (r: Result<Expression, ParseError>)
        requires
            wf(*old(self)),
        ensures
            wf(*final(self)),
            final(self).input@ == old(self).input@,
            final(self).pos >= old(self).pos,
            r is Ok ==> final(self).pos > old(self).pos && raw_wf(r->Ok_0),
        decreases old(self).input@.len() - old(self).pos, 5int,
    {
        let lo = self.pos;
        let first = match self.parse_seq() {
            Result::Ok(e) => e,
            Result::Err(e) => {
                return Result::Err(e);
            },
        };
        let mut children: Vec<Expression> = Vec::new();
        children.push(first);
        loop
            invariant
                wf(*self),
                self.input@ == old(self).input@,
                self.pos > old(self).pos,
                children@.len() >= 1,
                forall|j: int| 0 <= j < children@.len() ==> raw_wf(#[trigger] children@[j]),
            ensures
                wf(*self),
                self.input@ == old(self).input@,
                self.pos > old(self).pos,
                children@.len() >= 1,
                forall|j: int| 0 <= j < children@.len() ==> raw_wf(#[trigger] children@[j]),
            decreases self.input@.len() - self.pos,
        {
            self.skip_spaces();
            match self.peek() {
                Option::Some(c) => {
                    if c != '/' {
                        break ;
                    }
                    self.bump();
                    self.skip_spaces();
                    match self.parse_seq() {
                        Result::Ok(e) => {
                            children.push(e);
                        },
                        Result::Err(e) => {
                            return Result::Err(e);
                        },
                    }
                },
                Option::None => {
                    break ;
                },
            }
        }
        if children.len() == 1 {
            let single = children.remove(0);
            Result::Ok(single)
        } else {
            Result::Ok(
                Expression {
                    span: Span::new(lo, self.pos),
                    node: ExpressionNode::Choice(children),
                },
            )
        }
    }

    /// A rule's name.
    fn parse_rule_decl(&mut self) -> (r: Result<Vec<char>, ParseError>)
        requires
            wf(*old(self)),
        ensures
            wf(*final(self)),
            final(self).input@ == old(self).input@,
            final(self).pos >= old(self).pos,
            r is Ok ==> final(self).pos > old(self).pos,
    {
        self.parse_ident()
    }

    /// A rule's body, up to the closing `;`.
    fn parse_rule_def(&mut self) -> (r: Result<Expression, ParseError>)
        requires
            wf(*old(self)),
        ensures
            wf(*final(self)),
            final(self).input@ == old(self).input@,
            final(self).pos >= old(self).pos,
            r is Ok ==> final(self).pos > old(self).pos && raw_wf(r->Ok_0),
    {
        let body = match self.parse_expression() {
            Result::Ok(e) => e,
            Result::Err(e) => {
                return Result::Err(e);
            },
        };
        self.skip_spaces();
        match self.peek() {
            Option::Some(c) => {
                if c == ';' {
                    self.bump();
                    Result::Ok(body)
                } else {
                    Result::Err(self.error("expected `;`"))
                }
            },
            Option::None => Result::Err(self.error("expected `;`")),
        }
    }

    /// One rule: `name = body ;`.
    fn parse_rule(&mut self) -> (r: Result<Rule, ParseError>)
        requires
            wf(*old(self)),
        ensures
            wf(*final(self)),
            final(self).input@ == old(self).input@,
            final(self).pos >= old(self).pos,
            r is Ok ==> final(self).pos > old(self).pos && raw_wf(r->Ok_0.def),
    {
        let lo = self.pos;
        let name = match self.parse_rule_decl() {
            Result::Ok(n) => n,
            Result::Err(e) => {
                return Result::Err(e);
            },
        };
        self.skip_spaces();
        match self.peek() {
            Option::Some(c) => {
                if c != '=' {
                    return Result::Err(self.error("expected `=`"));
                }
                self.bump();
            },
            Option::None => {
                return Result::Err(self.error("expected `=`"));
            },
        }
        self.skip_spaces();
        match self.parse_rule_def() {
            Result::Ok(def) => Result::Ok(Rule { name, span: Span::new(lo, self.pos), def }),
            Result::Err(e) => Result::Err(e),
        }
    }

    /// All rules of the grammar: at least one, up to the end of the text.
    fn parse_rules(&mut self) -> (r: Result<Vec<Rule>, ParseError>)
        requires
            wf(*old(self)),
        ensures
            wf(*final(self)),
            final(self).input@ == old(self).input@,
            final(self).pos >= old(self).pos,
            r is Ok ==> final(self).pos == final(self).input@.len() && r->Ok_0@.len() >= 1
                && forall|j: int|
                0 <= j < r->Ok_0@.len() ==> raw_wf((#[trigger] r->Ok_0@[j]).def),
    {
        let mut rules: Vec<Rule> = Vec::new();
        self.skip_spaces();
        let first = match self.parse_rule() {
            Result::Ok(ru) => ru,
            Result::Err(e) => {
                return Result::Err(e);
            },
        };
        rules.push(first);
        loop
            invariant
                wf(*self),
                self.input@ == old(self).input@,
                self.pos >= old(self).pos,
                rules@.len() >= 1,
                forall|j: int| 0 <= j < rules@.len() ==> raw_wf((#[trigger] rules@[j]).def),
            ensures
                wf(*self),
                self.input@ == old(self).input@,
                self.pos >= old(self).pos,
                rules@.len() >= 1,
                forall|j: int| 0 <= j < rules@.len() ==> raw_wf((#[trigger] rules@[j]).def),
                self.pos == self.input@.len(),
            decreases self.input@.len() - self.pos,
        {
            self.skip_spaces();
            match self.peek() {
                Option::Some(_) => {
                    match self.parse_rule() {
                        Result::Ok(ru) => {
                            rules.push(ru);
                        },
                        Result::Err(e) => {
                            return Result::Err(e);
                        },
                    }
                },
                Option::None => {
                    break ;
                },
            }
        }
        Result::Ok(rules)
    }

    /// The whole grammar text: one or more rules, under the given grammar
    /// name.
    pub fn parse_grammar(&mut self, name: Vec<char>) -> (r: Result<Grammar, ParseError>)
        requires
            wf(*old(self)),
        ensures
            wf(*final(self)),
            final(self).input@ == old(self).input@,
            r is Ok ==> r->Ok_0.rules@.len() >= 1 && r->Ok_0.name@ == name@ && forall|j: int|
                0 <= j < r->Ok_0.rules@.len() ==> raw_wf((#[trigger] r->Ok_0.rules@[j]).def),
    {
        let lo = self.pos;
        match self.parse_rules() {
            Result::Ok(rules) => Result::Ok(
                Grammar { name, span: Span::new(lo, self.pos), rules },
            ),
            Result::Err(e) => Result::Err(e),
        }
    }
}

} // verus!
