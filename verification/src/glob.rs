//! Glob patterns over bare file names: `*`, `?`, `[abc]` and `[!abc]`.

use vstd::prelude::*;
use crate::text::{chars_of, sub_vec};

verus! {

/// The error of a pattern that cannot be compiled.
#[derive(Debug, Clone, Copy, PartialEq, Eq, Structural)]
pub struct InvalidPattern;

/// One element of a compiled pattern.
#[derive(Debug, Clone)]
pub enum Token {
    /// A character that stands for itself.
    Literal(char),
    /// `?`: any one character.
    AnyChar,
    /// `*`: any run of characters other than the separator `/`.
    AnySequence,
    /// `[abc]` or, negated, `[!abc]`: one character that is, or is not, among
    /// the members.
    Class(bool, Vec<char>),
}

/// What a token holds.
pub enum GlobToken {
    Literal(char),
    AnyChar,
    AnySequence,
    Class(bool, Seq<char>),
}

impl View for Token {
    type V = GlobToken;

    open spec fn view(&self) -> GlobToken {
        match self {
            Token::Literal(c) => GlobToken::Literal(*c),
            Token::AnyChar => GlobToken::AnyChar,
            Token::AnySequence => GlobToken::AnySequence,
            Token::Class(negated, members) => GlobToken::Class(*negated, members@),
        }
    }
}

/// A compiled pattern.
#[derive(Debug, Clone)]
pub struct GlobPattern {
    pub tokens: Vec<Token>,
}

impl View for GlobPattern {
    type V = Seq<GlobToken>;

    open spec fn view(&self) -> Seq<GlobToken> {
        self.tokens@.map_values(|t: Token| t@)
    }
}

/// The position of the first `]` of `p` at or after `i`, or the length of `p`
/// where there is none.
pub open spec fn bracket_from(p: Seq<char>, i: int) -> int
    decreases p.len() - i,
{
    if i < 0 || i >= p.len() {
        p.len() as int
    } else if p[i] == ']' {
        i
    } else {
        bracket_from(p, i + 1)
    }
}

/// The token of a character that opens no class.
pub open spec fn simple_glob_token(c: char) -> GlobToken {
    if c == '*' {
        GlobToken::AnySequence
    } else if c == '?' {
        GlobToken::AnyChar
    } else {
        GlobToken::Literal(c)
    }
}

/// The first `]` at or after `i` is not before `i`.
pub proof fn lemma_bracket_from_bounds(p: Seq<char>, i: int)
    requires
        0 <= i,
    ensures
        i <= bracket_from(p, i) || bracket_from(p, i) == p.len(),
        bracket_from(p, i) <= p.len(),
    decreases p.len() - i,
{
    if i < p.len() && p[i] != ']' {
        lemma_bracket_from_bounds(p, i + 1);
    }
}

/// The tokens of the pattern text `p` from position `i` on. A `[` opens a
/// class, which an `!` right after it negates and which the next `]` closes;
/// there are no tokens where a class is not closed.
pub open spec fn tokens_from(p: Seq<char>, i: int) -> Option<Seq<GlobToken>>
    decreases p.len() - i,
{
    if i < 0 || i >= p.len() {
        Some(Seq::<GlobToken>::empty())
    } else if p[i] == '[' {
        let negated = i + 1 < p.len() && p[i + 1] == '!';
        let start = if negated {
            i + 2
        } else {
            i + 1
        };
        let close = bracket_from(p, start);
        if close >= p.len() {
            None
        } else {
            proof {
                lemma_bracket_from_bounds(p, start);
            }
            match tokens_from(p, close + 1) {
                Some(rest) => Some(
                    seq![GlobToken::Class(negated, p.subrange(start, close))] + rest,
                ),
                None => None,
            }
        }
    } else {
        match tokens_from(p, i + 1) {
            Some(rest) => Some(seq![simple_glob_token(p[i])] + rest),
            None => None,
        }
    }
}

/// The tokens of a pattern text, or `None` where the pattern is not valid.
pub open spec fn glob_tokens(p: Seq<char>) -> Option<Seq<GlobToken>> {
    tokens_from(p, 0)
}

/// A token other than `*` accepts the character `c`.
pub open spec fn token_accepts(token: GlobToken, c: char) -> bool {
    match token {
        GlobToken::Literal(l) => c == l,
        GlobToken::AnyChar => true,
        GlobToken::AnySequence => false,
        GlobToken::Class(negated, members) => members.contains(c) != negated,
    }
}

/// The tokens from `i` on match the characters of `s` from `j` on.
pub open spec fn matches_from(tokens: Seq<GlobToken>, i: int, s: Seq<char>, j: int) -> bool
    decreases tokens.len() - i, s.len() - j,
{
    if i < 0 || j < 0 || j > s.len() {
        false
    } else if i >= tokens.len() {
        j == s.len()
    } else if tokens[i] is AnySequence {
        matches_from(tokens, i + 1, s, j) || (j < s.len() && s[j] != '/' && matches_from(
            tokens,
            i,
            s,
            j + 1,
        ))
    } else {
        j < s.len() && token_accepts(tokens[i], s[j]) && matches_from(tokens, i + 1, s, j + 1)
    }
}

/// A pattern matches a name when its tokens match the whole name.
pub open spec fn glob_matches(tokens: Seq<GlobToken>, name: Seq<char>) -> bool {
    matches_from(tokens, 0, name, 0)
}

fn find_bracket(p: &Vec<char>, start: usize) -> (out: usize)
    requires
        start <= p.len(),
    ensures
        out == bracket_from(p@, start as int),
        start <= out <= p.len(),
{
    let mut i: usize = start;
    while i < p.len() && p[i] != ']'
        invariant
            start <= i <= p.len(),
            bracket_from(p@, start as int) == bracket_from(p@, i as int),
        decreases p.len() - i,
    {
        i += 1;
    }
    i
}

fn contains_char(members: &Vec<char>, c: char) -> (out: bool)
    ensures
        out == members@.contains(c),
{
    let mut i: usize = 0;
    while i < members.len()
        invariant
            i <= members.len(),
            forall|k: int| 0 <= k < i ==> members@[k] != c,
        decreases members.len() - i,
    {
        if members[i] == c {
            return true;
        }
        i += 1;
    }
    false
}

fn accepts(token: &Token, c: char) -> (out: bool)
    ensures
        out == token_accepts(token@, c),
{
    match token {
        Token::Literal(l) => c == *l,
        Token::AnyChar => true,
        Token::AnySequence => false,
        Token::Class(negated, members) => contains_char(members, c) != *negated,
    }
}

fn simple_token(c: char) -> (out: Token)
    ensures
        out@ == simple_glob_token(c),
{
    if c == '*' {
        Token::AnySequence
    } else if c == '?' {
        Token::AnyChar
    } else {
        Token::Literal(c)
    }
}

impl GlobPattern {
    /// Compiles a pattern. It is valid unless it has a `[` that no later `]`
    /// closes.
    pub fn new(pattern: &str) -> (out: Result<GlobPattern, InvalidPattern>)
        ensures
            match out {
                Ok(compiled) => glob_tokens(pattern@) == Some(compiled@),
                Err(_) => glob_tokens(pattern@) is None,
            },
    {
        let p = chars_of(pattern);
        let mut tokens: Vec<Token> = Vec::new();
        let mut i: usize = 0;
        while i < p.len()
            invariant
                i <= p.len(),
                p@ == pattern@,
                glob_tokens(p@) == match tokens_from(p@, i as int) {
                    Some(rest) => Some(tokens@.map_values(|t: Token| t@) + rest),
                    None => None,
                },
            decreases p.len() - i,
        {
            let ghost done = tokens@.map_values(|t: Token| t@);
            let c = p[i];
            if c == '[' {
                let negated = i + 1 < p.len() && p[i + 1] == '!';
                let start: usize = if negated {
                    i + 2
                } else {
                    i + 1
                };
                let close = find_bracket(&p, start);
                if close >= p.len() {
                    return Err(InvalidPattern);
                }
                let members = sub_vec(&p, start, close);
                let token = Token::Class(negated, members);
                proof {
                    if let Some(rest) = tokens_from(p@, close + 1) {
                        assert(done + (seq![token@] + rest) =~= done.push(token@) + rest);
                    }
                }
                tokens.push(token);
                assert(tokens@.map_values(|t: Token| t@) =~= done.push(token@));
                i = close + 1;
            } else {
                let token = simple_token(c);
                proof {
                    if let Some(rest) = tokens_from(p@, i + 1) {
                        assert(done + (seq![token@] + rest) =~= done.push(token@) + rest);
                    }
                }
                tokens.push(token);
                assert(tokens@.map_values(|t: Token| t@) =~= done.push(token@));
                i += 1;
            }
        }
        assert(tokens@.map_values(|t: Token| t@) + Seq::<GlobToken>::empty()
            =~= tokens@.map_values(|t: Token| t@));
        Ok(GlobPattern { tokens })
    }

    /// Tests whether the pattern matches a bare file name.
    pub fn matches(&self, name: &str) -> (out: bool)
        ensures
            out == glob_matches(self@, name@),
    {
        let s = chars_of(name);
        let n = s.len();
        let m = self.tokens.len();
        // `next[j]` tells whether the tokens after the current one match the
        // name from `j` on.
        let mut next: Vec<bool> = Vec::new();
        let mut j: usize = 0;
        while j < n
            invariant
                j <= n,
                n == s.len(),
                m == self.tokens.len(),
                next.len() == j,
                forall|k: int| 0 <= k < j ==> next@[k] == matches_from(self@, m as int, s@, k),
            decreases n - j,
        {
            next.push(false);
            j += 1;
        }
        next.push(true);
        let mut i: usize = m;
        while i > 0
            invariant
                i <= m,
                n == s.len(),
                s@ == name@,
                m == self.tokens.len(),
                next.len() == n + 1,
                forall|k: int| 0 <= k <= n ==> next@[k] == matches_from(self@, i as int, s@, k),
            decreases i,
        {
            i -= 1;
            let token = &self.tokens[i];
            assert(self@[i as int] == token@);
            let star = match token {
                Token::AnySequence => true,
                _ => false,
            };
            let mut current: Vec<bool> = next.clone();
            let mut j: usize = n + 1;
            while j > 0
                invariant
                    j <= n + 1,
                    n == s.len(),
                    i < m,
                    m == self.tokens.len(),
                    self@[i as int] == token@,
                    star == (token@ is AnySequence),
                    next.len() == n + 1,
                    current.len() == n + 1,
                    forall|k: int|
                        0 <= k <= n ==> next@[k] == matches_from(self@, i + 1, s@, k),
                    forall|k: int|
                        j <= k <= n ==> current@[k] == matches_from(self@, i as int, s@, k),
                decreases j,
            {
                j -= 1;
                let value = if star {
                    next[j] || (j < n && s[j] != '/' && current[j + 1])
                } else {
                    j < n && accepts(token, s[j]) && next[j + 1]
                };
                current.set(j, value);
            }
            next = current;
        }
        next[0]
    }
}

} // verus!
