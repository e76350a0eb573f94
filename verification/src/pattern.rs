//! `LIKE` patterns.

use vstd::prelude::*;
use crate::text::chars_of;
use crate::types::{plain, Error, Fault};

verus! {

/// One element of a pattern.
#[derive(Clone, Copy, Debug, PartialEq, Eq, Structural)]
pub enum LikeToken {
    Literal(char),
    AnyOne,
    AnyMany,
}

/// The escape character of a pattern, if its clause names exactly one.
pub open spec fn escape_of(escape: Option<Seq<char>>) -> Result<Option<char>, Fault> {
    match escape {
        None => Ok(None),
        Some(s) => if s.len() == 1 {
            Ok(Some(s[0]))
        } else {
            Err(Fault::Constraint("LIKE ESCAPE must be one character"@))
        },
    }
}

/// The text of an optional string.
pub open spec fn optional_text(s: Option<String>) -> Option<Seq<char>> {
    match s {
        None => None,
        Some(s) => Some(s@),
    }
}

/// Reads the escape character of a pattern.
pub fn like_escape_char(escape: &Option<String>) -> (r: Result<Option<char>, Error>)
    ensures
        plain(r) == escape_of(optional_text(*escape)),
{
    match escape {
        None => Ok(None),
        Some(s) => {
            let chars = chars_of(s.as_str());
            if chars.len() == 1 {
                Ok(Some(chars[0]))
            } else {
                Err(Error::Constraint("LIKE ESCAPE must be one character".to_owned()))
            }
        },
    }
}

/// The element that an unescaped character stands for.
pub open spec fn plain_token(c: char) -> LikeToken {
    if c == '_' {
        LikeToken::AnyOne
    } else if c == '%' {
        LikeToken::AnyMany
    } else {
        LikeToken::Literal(c)
    }
}

/// The elements of the pattern from character `i` on, behind those already read.
pub open spec fn tokens_from(
    pattern: Seq<char>,
    escape: Option<char>,
    i: int,
    read: Seq<LikeToken>,
) -> Result<Seq<LikeToken>, Fault>
    decreases pattern.len() - i,
{
    if i < 0 || i >= pattern.len() {
        Ok(read)
    } else if Some(pattern[i]) == escape {
        if i + 1 >= pattern.len() {
            Err(Fault::Constraint("LIKE pattern ends with its escape character"@))
        } else {
            tokens_from(pattern, escape, i + 2, read.push(LikeToken::Literal(pattern[i + 1])))
        }
    } else {
        tokens_from(pattern, escape, i + 1, read.push(plain_token(pattern[i])))
    }
}

/// The content of a result that holds pattern elements.
pub open spec fn tokens_outcome(r: Result<Vec<LikeToken>, Error>) -> Result<Seq<LikeToken>, Fault> {
    match r {
        Ok(v) => Ok(v@),
        Err(e) => Err(e@),
    }
}

/// Splits a pattern into its elements.
pub fn like_tokens(pattern: &str, escape: Option<char>) -> (r: Result<Vec<LikeToken>, Error>)
    ensures
        tokens_outcome(r) == tokens_from(pattern@, escape, 0, Seq::empty()),
{
    let chars = chars_of(pattern);
    let mut tokens: Vec<LikeToken> = Vec::new();
    let mut i: usize = 0;
    while i < chars.len()
        invariant
            chars@ == pattern@,
            i <= chars.len(),
            tokens_from(pattern@, escape, 0, Seq::empty()) == tokens_from(
                pattern@,
                escape,
                i as int,
                tokens@,
            ),
        decreases chars.len() - i,
    {
        let c = chars[i];
        let escaped = match escape {
            Some(e) => e == c,
            None => false,
        };
        if escaped {
            if i + 1 >= chars.len() {
                return Err(
                    Error::Constraint("LIKE pattern ends with its escape character".to_owned()),
                );
            }
            tokens.push(LikeToken::Literal(chars[i + 1]));
            i += 2;
        } else {
            let token = if c == '_' {
                LikeToken::AnyOne
            } else if c == '%' {
                LikeToken::AnyMany
            } else {
                LikeToken::Literal(c)
            };
            tokens.push(token);
            i += 1;
        }
    }
    Ok(tokens)
}

/// Whether the pattern from element `p` on matches the value from character `i` on.
pub open spec fn like_from(value: Seq<char>, tokens: Seq<LikeToken>, i: int, p: int) -> bool
    decreases tokens.len() - p, value.len() - i,
{
    if i < 0 || i > value.len() || p < 0 || p > tokens.len() {
        false
    } else if p == tokens.len() {
        i == value.len()
    } else {
        match tokens[p] {
            LikeToken::AnyMany => like_from(value, tokens, i, p + 1) || (i < value.len()
                && like_from(value, tokens, i + 1, p)),
            LikeToken::AnyOne => i < value.len() && like_from(value, tokens, i + 1, p + 1),
            LikeToken::Literal(c) => i < value.len() && value[i] == c && like_from(
                value,
                tokens,
                i + 1,
                p + 1,
            ),
        }
    }
}

/// Whether the pattern matches the whole value.
pub open spec fn like(value: Seq<char>, tokens: Seq<LikeToken>) -> bool {
    like_from(value, tokens, 0, 0)
}

/// Whether the elements from `from` up to `to` each match one character.
pub open spec fn singles(tokens: Seq<LikeToken>, from: int, to: int) -> bool {
    forall|k: int| from <= k < to ==> #[trigger] tokens[k] != LikeToken::AnyMany
}

/// A match at a star goes on behind the star at some later character.
proof fn star_goes_on(value: Seq<char>, tokens: Seq<LikeToken>, i: int, s: int) -> (k: int)
    requires
        0 <= s < tokens.len(),
        tokens[s] == LikeToken::AnyMany,
        like_from(value, tokens, i, s),
    ensures
        i <= k <= value.len(),
        like_from(value, tokens, k, s + 1),
    decreases value.len() - i,
{
    if like_from(value, tokens, i, s + 1) {
        i
    } else {
        star_goes_on(value, tokens, i + 1, s)
    }
}

/// A match of single elements consumes one character for each of them.
proof fn singles_consume(value: Seq<char>, tokens: Seq<LikeToken>, i: int, p: int, q: int)
    requires
        0 <= p <= q <= tokens.len(),
        singles(tokens, p, q),
        like_from(value, tokens, i, p),
    ensures
        i + (q - p) <= value.len(),
        like_from(value, tokens, i + (q - p), q),
    decreases q - p,
{
    if p < q {
        assert(tokens[p] != LikeToken::AnyMany);
        singles_consume(value, tokens, i + 1, p + 1, q);
    }
}

/// A star that matches from a later character also matches from an earlier one.
proof fn star_reaches(value: Seq<char>, tokens: Seq<LikeToken>, i: int, j: int, p: int)
    requires
        0 <= i <= j,
        0 <= p < tokens.len(),
        tokens[p] == LikeToken::AnyMany,
        like_from(value, tokens, j, p),
    ensures
        like_from(value, tokens, i, p),
    decreases j - i,
{
    if i < j {
        star_reaches(value, tokens, i + 1, j, p);
    }
}

/// Matches a value against a pattern, going back to the last star on a mismatch.
pub fn like_matches(value: &Vec<char>, tokens: &Vec<LikeToken>) -> (r: bool)
    ensures
        r == like(value@, tokens@),
{
    let mut i: usize = 0;
    let mut p: usize = 0;
    let mut star: Option<usize> = None;
    let mut retry: usize = 0;
    while i < value.len()
        invariant
            i <= value.len(),
            p <= tokens.len(),
            retry <= i,
            match star {
                None => like(value@, tokens@) == like_from(value@, tokens@, i as int, p as int),
                Some(s) => {
                    &&& s < p
                    &&& tokens[s as int] == LikeToken::AnyMany
                    &&& singles(tokens@, s + 1, p as int)
                    &&& i - retry == p - s - 1
                    &&& like(value@, tokens@) == (like_from(value@, tokens@, i as int, p as int)
                        || like_from(value@, tokens@, retry + 1, s as int))
                },
            },
        decreases value.len() - retry, tokens.len() - p,
    {
        if p < tokens.len() && (match tokens[p] {
            LikeToken::AnyOne => true,
            LikeToken::Literal(c) => c == value[i],
            LikeToken::AnyMany => false,
        }) {
            i += 1;
            p += 1;
        } else if p < tokens.len() && matches!(tokens[p], LikeToken::AnyMany) {
            proof {
                if let Some(s) = star {
                    if like_from(value@, tokens@, retry + 1, s as int) {
                        let k = star_goes_on(value@, tokens@, retry + 1, s as int);
                        singles_consume(value@, tokens@, k, s + 1, p as int);
                        star_reaches(value@, tokens@, i as int, k + (p - s - 1), p as int);
                    }
                }
            }
            star = Some(p);
            p += 1;
            retry = i;
        } else if let Some(s) = star {
            retry += 1;
            i = retry;
            p = s + 1;
        } else {
            return false;
        }
    }
    proof {
        if let Some(s) = star {
            if like_from(value@, tokens@, retry + 1, s as int) {
                let k = star_goes_on(value@, tokens@, retry + 1, s as int);
                singles_consume(value@, tokens@, k, s + 1, p as int);
            }
        }
    }
    while p < tokens.len() && matches!(tokens[p], LikeToken::AnyMany)
        invariant
            i == value.len(),
            p <= tokens.len(),
            like(value@, tokens@) == like_from(value@, tokens@, i as int, p as int),
        decreases tokens.len() - p,
    {
        p += 1;
    }
    p == tokens.len()
}

} // verus!
