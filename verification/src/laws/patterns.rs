//! What `LIKE` patterns are for.

use vstd::prelude::*;
use crate::ast::PatternMatch;
use crate::pattern::{escape_of, like, like_from, optional_text, tokens_from, LikeToken};
use crate::scalar::{like_datum, literal_token};
use crate::types::{Datum, Fault};

verus! {

proof fn matching_shifts(value: Seq<char>, tokens: Seq<LikeToken>, i: int, p: int)
    requires
        0 <= i <= value.len(),
        0 <= p <= tokens.len(),
    ensures
        like_from(value, tokens, i, p) == like(value.skip(i), tokens.skip(p)),
    decreases tokens.len() - p, value.len() - i,
{
    let (v, t) = (value.skip(i), tokens.skip(p));
    if p < tokens.len() {
        assert(t[0] == tokens[p]);
        shifted(v, t, 0, 1);
        assert(t.skip(1) =~= tokens.skip(p + 1));
        assert(v.skip(0) =~= v);
        matching_shifts(value, tokens, i, p + 1);
        if i < value.len() {
            assert(v[0] == value[i]);
            assert(v.skip(1) =~= value.skip(i + 1));
            assert(t.skip(0) =~= t);
            shifted(v, t, 1, 1);
            shifted(v, t, 1, 0);
            matching_shifts(value, tokens, i + 1, p + 1);
            matching_shifts(value, tokens, i + 1, p);
        }
    }
}

proof fn shifted(value: Seq<char>, tokens: Seq<LikeToken>, i: int, p: int)
    requires
        0 <= i <= value.len(),
        0 <= p <= tokens.len(),
        i + p > 0,
    ensures
        like_from(value, tokens, i, p) == like_from(value.skip(i), tokens.skip(p), 0, 0),
    decreases tokens.len() - p, value.len() - i,
{
    shifted_from(value, tokens, i, p, 0, 0);
}

proof fn shifted_from(value: Seq<char>, tokens: Seq<LikeToken>, i: int, p: int, j: int, q: int)
    requires
        0 <= i <= value.len(),
        0 <= p <= tokens.len(),
        0 <= j <= value.len() - i,
        0 <= q <= tokens.len() - p,
    ensures
        like_from(value, tokens, i + j, p + q) == like_from(value.skip(i), tokens.skip(p), j, q),
    decreases tokens.len() - p - q, value.len() - i - j,
{
    if p + q < tokens.len() {
        shifted_from(value, tokens, i, p, j, q + 1);
        if i + j < value.len() {
            shifted_from(value, tokens, i, p, j + 1, q + 1);
            shifted_from(value, tokens, i, p, j + 1, q);
        }
    }
}

/// Nothing matches text without characters alone; one element matches as it says: a character
/// itself, `_` any one character, `%` any text.
pub proof fn single_elements_match(value: Seq<char>, c: char)
    ensures
        like(value, Seq::empty()) <==> value.len() == 0,
        like(value, seq![LikeToken::Literal(c)]) <==> value == seq![c],
        like(value, seq![LikeToken::AnyOne]) <==> value.len() == 1,
        like(value, seq![LikeToken::AnyMany]),
{
    reveal_with_fuel(like_from, 3);
    many_match_all(value, 0);
    assert(value == seq![c] <==> value.len() == 1 && value[0] == c) by {
        if value.len() == 1 && value[0] == c {
            assert(value =~= seq![c]);
        }
    }
}

proof fn many_match_all(value: Seq<char>, i: int)
    requires
        0 <= i <= value.len(),
    ensures
        like_from(value, seq![LikeToken::AnyMany], i, 0),
    decreases value.len() - i,
{
    if i < value.len() {
        many_match_all(value, i + 1);
    } else {
        reveal_with_fuel(like_from, 2);
    }
}

/// Whether a text can be cut so that its parts match two patterns.
pub open spec fn splits(value: Seq<char>, first: Seq<LikeToken>, second: Seq<LikeToken>) -> bool {
    exists|k: int|
        0 <= k <= value.len() && like(#[trigger] value.take(k), first) && like(value.skip(k), second)
}

proof fn a_split_is_matched(
    value: Seq<char>,
    first: Seq<LikeToken>,
    second: Seq<LikeToken>,
    k: int,
    i: int,
    p: int,
)
    requires
        0 <= i <= k <= value.len(),
        0 <= p <= first.len(),
        like_from(value.take(k), first, i, p),
        like(value.skip(k), second),
    ensures
        like_from(value, first + second, i, p),
    decreases first.len() - p, k - i,
{
    let whole = first + second;
    if p == first.len() {
        shifted_from(value, whole, k, first.len() as int, 0, 0);
        assert(whole.skip(first.len() as int) =~= second);
    } else {
        assert(whole[p] == first[p]);
        if i < k {
            assert(value.take(k)[i] == value[i]);
        }
        match first[p] {
            LikeToken::AnyMany => {
                if like_from(value.take(k), first, i, p + 1) {
                    a_split_is_matched(value, first, second, k, i, p + 1);
                } else {
                    a_split_is_matched(value, first, second, k, i + 1, p);
                }
            },
            _ => a_split_is_matched(value, first, second, k, i + 1, p + 1),
        }
    }
}

proof fn a_match_is_split(
    value: Seq<char>,
    first: Seq<LikeToken>,
    second: Seq<LikeToken>,
    i: int,
    p: int,
) -> (k: int)
    requires
        0 <= i <= value.len(),
        0 <= p <= first.len(),
        like_from(value, first + second, i, p),
    ensures
        i <= k <= value.len(),
        like_from(value.take(k), first, i, p),
        like(value.skip(k), second),
    decreases first.len() - p, value.len() - i,
{
    let whole = first + second;
    if p == first.len() {
        shifted_from(value, whole, i, first.len() as int, 0, 0);
        assert(whole.skip(first.len() as int) =~= second);
        i
    } else {
        assert(whole[p] == first[p]);
        match first[p] {
            LikeToken::AnyMany => {
                if like_from(value, whole, i, p + 1) {
                    a_match_is_split(value, first, second, i, p + 1)
                } else {
                    a_match_is_split(value, first, second, i + 1, p)
                }
            },
            _ => {
                let k = a_match_is_split(value, first, second, i + 1, p + 1);
                assert(value.take(k)[i] == value[i]);
                k
            },
        }
    }
}

/// A pattern behind another one matches exactly the texts that can be cut so that the parts match
/// the two.
pub proof fn patterns_match_part_by_part(
    value: Seq<char>,
    first: Seq<LikeToken>,
    second: Seq<LikeToken>,
)
    ensures
        like(value, first + second) <==> splits(value, first, second),
{
    if like(value, first + second) {
        let k = a_match_is_split(value, first, second, 0, 0);
        assert(like(value.take(k), first) && like(value.skip(k), second));
    }
    if splits(value, first, second) {
        let k = choose|k: int|
            0 <= k <= value.len() && like(#[trigger] value.take(k), first) && like(
                value.skip(k),
                second,
            );
        a_split_is_matched(value, first, second, k, 0, 0);
    }
}

/// The element that a character stands for where it is not escaped.
pub open spec fn element(c: char) -> LikeToken {
    if c == '%' {
        LikeToken::AnyMany
    } else if c == '_' {
        LikeToken::AnyOne
    } else {
        LikeToken::Literal(c)
    }
}

proof fn plain_pattern_is_read(
    pattern: Seq<char>,
    escape: Option<char>,
    i: int,
    read: Seq<LikeToken>,
)
    requires
        0 <= i <= pattern.len(),
        escape matches Some(e) ==> !pattern.contains(e),
    ensures
        tokens_from(pattern, escape, i, read) == Ok::<Seq<LikeToken>, Fault>(
            read + pattern.skip(i).map_values(|c: char| element(c)),
        ),
    decreases pattern.len() - i,
{
    let rest = pattern.skip(i).map_values(|c: char| element(c));
    if i < pattern.len() {
        assert(pattern.contains(pattern[i]));
        plain_pattern_is_read(pattern, escape, i + 1, read.push(element(pattern[i])));
        let after = pattern.skip(i + 1).map_values(|c: char| element(c));
        assert(read.push(element(pattern[i])) + after =~= read + rest);
    } else {
        assert(read + rest =~= read);
    }
}

/// A pattern without its escape character has one element for each character: `%` for any text,
/// `_` for any one character, and the character itself for any other.
pub proof fn characters_are_elements(pattern: Seq<char>, escape: Option<char>)
    requires
        escape matches Some(e) ==> !pattern.contains(e),
    ensures
        tokens_from(pattern, escape, 0, Seq::empty()) == Ok::<Seq<LikeToken>, Fault>(
            pattern.map_values(|c: char| element(c)),
        ),
{
    plain_pattern_is_read(pattern, escape, 0, Seq::empty());
    assert(pattern.skip(0) =~= pattern);
    let all = pattern.map_values(|c: char| element(c));
    assert(Seq::<LikeToken>::empty() + all =~= all);
}

/// Behind the escape character, any character stands for itself; an escape character at the end
/// is refused.
pub proof fn escaped_characters_stand_for_themselves(
    pattern: Seq<char>,
    escape: char,
    i: int,
    read: Seq<LikeToken>,
)
    requires
        0 <= i < pattern.len(),
        pattern[i] == escape,
    ensures
        i + 1 < pattern.len() ==> tokens_from(pattern, Some(escape), i, read) == tokens_from(
            pattern,
            Some(escape),
            i + 2,
            read.push(literal_token(pattern[i + 1])),
        ),
        i + 1 == pattern.len() ==> tokens_from(pattern, Some(escape), i, read) is Err,
{
    if i + 1 < pattern.len() {
        let c = pattern[i + 1];
        assert(literal_token(c) == LikeToken::Literal(c));
    }
}

/// Without wildcards a pattern matches the same text alone.
pub proof fn plain_patterns_match_themselves(value: Seq<char>, pattern: Seq<char>)
    ensures
        like(value, pattern.map_values(|c: char| literal_token(c))) <==> value == pattern,
    decreases pattern.len(),
{
    let tokens = pattern.map_values(|c: char| literal_token(c));
    if pattern.len() == 0 {
        single_elements_match(value, ' ');
        assert(tokens =~= Seq::<LikeToken>::empty());
        assert(value == pattern <==> value.len() == 0) by {
            if value.len() == 0 {
                assert(value =~= pattern);
            }
        }
    } else {
        let first = pattern.drop_last();
        let head = first.map_values(|c: char| literal_token(c));
        let last = pattern.last();
        let tail = seq![LikeToken::Literal(last)];
        assert(tokens.last() == literal_token(last));
        assert(tokens =~= head + tail);
        patterns_match_part_by_part(value, head, tail);
        if like(value, tokens) {
            let k = choose|k: int|
                0 <= k <= value.len() && like(#[trigger] value.take(k), head) && like(
                    value.skip(k),
                    tail,
                );
            plain_patterns_match_themselves(value.take(k), first);
            single_elements_match(value.skip(k), pattern.last());
            assert(value =~= value.take(k) + value.skip(k));
            assert(pattern =~= first + seq![pattern.last()]);
        }
        if value == pattern {
            let k = value.len() - 1;
            plain_patterns_match_themselves(value.take(k), first);
            assert(value.take(k) =~= first);
            assert(value.skip(k) =~= seq![pattern.last()]);
            single_elements_match(value.skip(k), pattern.last());
        }
    }
}

/// `LIKE` is true exactly where the pattern matches the whole text, `NOT LIKE` exactly where it
/// does not; with NULL both are NULL; anything but text is refused.
pub proof fn like_tells_whether_the_pattern_matches(
    value: Datum,
    pattern: Datum,
    matching: PatternMatch,
    tokens: Seq<LikeToken>,
)
    requires
        !matching.insensitive,
        escape_of(optional_text(matching.escape)) matches Ok(escape) && tokens_from(
            pattern->Text_0,
            escape,
            0,
            Seq::empty(),
        ) == Ok::<Seq<LikeToken>, Fault>(tokens),
    ensures
        value is Null || pattern is Null ==> like_datum(value, pattern, matching) == Ok::<Datum, Fault>(
            Datum::Null,
        ),
        value is Text && pattern is Text && !matching.negated ==> like_datum(value, pattern, matching)
            == Ok::<Datum, Fault>(Datum::Bool(like(value->Text_0, tokens))),
        value is Text && pattern is Text && matching.negated ==> like_datum(value, pattern, matching)
            == Ok::<Datum, Fault>(Datum::Bool(!like(value->Text_0, tokens))),
        !(value is Null) && !(pattern is Null) && !(value is Text && pattern is Text) ==> like_datum(
            value,
            pattern,
            matching,
        ) is Err,
{
}

} // verus!
