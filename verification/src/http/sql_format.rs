//! Formats that are named in SQL text.

use vstd::prelude::*;
use crate::http::request::{is_table_name, validate_table_name, QueryResponseFormat, TableInsertFormat};
use crate::budget::{sat_add, sat_sum};
use crate::text::{char_is_space, chars_of, is_space, lower, same_text, space_end, string_from, to_lower, trim, trimmed};

verus! {

/// The end of the word that stands at `i`.
pub open spec fn word_end(s: Seq<char>, i: int) -> int
    decreases s.len() - i,
{
    if 0 <= i < s.len() && !is_space(s[i]) {
        word_end(s, i + 1)
    } else {
        i
    }
}

/// The words from `i` on, behind those already found.
pub open spec fn words_from(s: Seq<char>, i: int, found: Seq<Seq<char>>) -> Seq<Seq<char>>
    decreases s.len() - i,
{
    let from = space_end(s, i);
    let to = word_end(s, from);
    if i < 0 || from >= s.len() || !(i < to <= s.len()) {
        found
    } else {
        words_from(s, to, found.push(s.subrange(from, to)))
    }
}

/// The words of a text.
pub open spec fn words(s: Seq<char>) -> Seq<Seq<char>> {
    words_from(s, 0, Seq::empty())
}

/// The texts of strings.
pub open spec fn texts_of(list: Seq<String>) -> Seq<Seq<char>> {
    Seq::new(list.len(), |i: int| list[i]@)
}

/// Splits a text into words.
pub fn split_words(s: &str) -> (list: Vec<String>)
    ensures
        texts_of(list@) == words(s@),
{
    let chars = chars_of(s);
    let mut list: Vec<String> = Vec::new();
    assert(texts_of(list@) =~= Seq::<Seq<char>>::empty());
    let mut i: usize = 0;
    loop
        invariant
            i <= chars.len(),
            chars@ == s@,
            words(s@) == words_from(s@, i as int, texts_of(list@)),
        ensures
            words(s@) == texts_of(list@),
        decreases chars.len() - i,
    {
        let mut from = i;
        while from < chars.len() && char_is_space(chars[from])
            invariant
                i <= from <= chars.len(),
                chars@ == s@,
                space_end(s@, i as int) == space_end(s@, from as int),
            decreases chars.len() - from,
        {
            from = from + 1;
        }
        if from == chars.len() {
            break ;
        }
        let mut to = from;
        while to < chars.len() && !char_is_space(chars[to])
            invariant
                from <= to <= chars.len(),
                chars@ == s@,
                from < chars.len(),
                !is_space(s@[from as int]),
                word_end(s@, from as int) == word_end(s@, to as int),
            decreases chars.len() - to,
        {
            to = to + 1;
        }
        assert(to > from);
        let word = string_from(&chars, from, to);
        let ghost before = list@;
        list.push(word);
        assert(texts_of(list@) =~= texts_of(before).push(word@));
        i = to;
    }
    list
}

/// A text without one semicolon at its end.
pub open spec fn without_semicolon(s: Seq<char>) -> Seq<char> {
    if s.len() > 0 && s.last() == ';' {
        s.drop_last()
    } else {
        s
    }
}

/// The insert format that a word denotes, case aside.
pub open spec fn insert_format_word(word: Seq<char>) -> Option<TableInsertFormat> {
    let name = lower(word);
    if name == "csv"@ {
        Some(TableInsertFormat::Csv)
    } else if name == "csvwithnames"@ {
        Some(TableInsertFormat::CsvWithNames)
    } else if name == "tabseparated"@ {
        Some(TableInsertFormat::TabSeparated)
    } else if name == "tabseparatedwithnames"@ {
        Some(TableInsertFormat::TabSeparatedWithNames)
    } else {
        None
    }
}

/// The table and the format of `INSERT INTO <table> FORMAT <format>`.
pub open spec fn inserts_into(sql: Seq<char>) -> Option<(Seq<char>, TableInsertFormat)> {
    let w = words(without_semicolon(trimmed(sql)));
    if w.len() == 5 && lower(w[0]) == "insert"@ && lower(w[1]) == "into"@ && is_table_name(w[2])
        && lower(w[3]) == "format"@ {
        match insert_format_word(w[4]) {
            Some(format) => Some((w[2], format)),
            None => None,
        }
    } else {
        None
    }
}

fn folds_to(word: &String, name: &str) -> (r: bool)
    ensures
        r == (lower(word@) == name@),
{
    same_text(to_lower(word.as_str()).as_str(), name)
}

/// Finds the table and the format of `INSERT INTO <table> FORMAT <format>`.
pub fn parse_parameterized_table_insert(sql: &str) -> (r: Option<(String, TableInsertFormat)>)
    ensures
        match r {
            Some((table, format)) => inserts_into(sql@) == Some((table@, format)),
            None => inserts_into(sql@) is None,
        },
{
    let text = trim(sql);
    let chars = chars_of(text.as_str());
    let n = chars.len();
    let body = if n > 0 && chars[n - 1] == ';' {
        let body = string_from(&chars, 0, n - 1);
        assert(body@ =~= text@.drop_last());
        body
    } else {
        text
    };
    assert(body@ == without_semicolon(trimmed(sql@)));
    let list = split_words(body.as_str());
    let ghost w = texts_of(list@);
    assert(w.len() == list.len());
    if list.len() != 5 {
        return None;
    }
    assert(w[0] == list[0]@ && w[1] == list[1]@ && w[2] == list[2]@ && w[3] == list[3]@ && w[4]
        == list[4]@);
    if !folds_to(&list[0], "insert") || !folds_to(&list[1], "into") || !validate_table_name(
        list[2].as_str(),
    ) || !folds_to(&list[3], "format") {
        return None;
    }
    let table = list[2].clone();
    if folds_to(&list[4], "csv") {
        Some((table, TableInsertFormat::Csv))
    } else if folds_to(&list[4], "csvwithnames") {
        Some((table, TableInsertFormat::CsvWithNames))
    } else if folds_to(&list[4], "tabseparated") {
        Some((table, TableInsertFormat::TabSeparated))
    } else if folds_to(&list[4], "tabseparatedwithnames") {
        Some((table, TableInsertFormat::TabSeparatedWithNames))
    } else {
        None
    }
}

/// The position behind the line that stands at `i`.
pub open spec fn line_end(s: Seq<char>, i: int) -> int
    decreases s.len() - i,
{
    if i < 0 || i >= s.len() {
        i
    } else if s[i] == '\n' {
        i + 1
    } else {
        line_end(s, i + 1)
    }
}

/// The position behind the quoted string that goes on at `i`; a doubled quote belongs to
/// the string. `None` if the string does not end.
pub open spec fn string_end(s: Seq<char>, i: int) -> Option<int>
    decreases s.len() - i,
{
    if i < 0 || i >= s.len() {
        None
    } else if s[i] == '\'' {
        if i + 1 < s.len() && s[i + 1] == '\'' {
            string_end(s, i + 2)
        } else {
            Some(i + 1)
        }
    } else {
        string_end(s, i + 1)
    }
}

/// Whether a character begins an identifier.
pub open spec fn begins_identifier(c: char) -> bool {
    'a' <= c <= 'z' || 'A' <= c <= 'Z' || c == '_'
}

/// Whether a character goes on in an identifier.
pub open spec fn continues_identifier(c: char) -> bool {
    begins_identifier(c) || '0' <= c <= '9'
}

/// The position behind the identifier that goes on at `i`.
pub open spec fn identifier_end(s: Seq<char>, i: int) -> int
    decreases s.len() - i,
{
    if 0 <= i < s.len() && continues_identifier(s[i]) {
        identifier_end(s, i + 1)
    } else {
        i
    }
}

/// The position behind the token that stands at `i`. `None` if it does not end.
pub open spec fn token_end(s: Seq<char>, i: int) -> Option<int> {
    if s[i] == '\'' {
        string_end(s, i + 1)
    } else if begins_identifier(s[i]) {
        Some(identifier_end(s, i + 1))
    } else {
        Some(i + 1)
    }
}

/// A token of SQL text.
#[derive(Clone, Copy)]
pub struct Tok {
    pub start: usize,
    pub end: usize,
    /// Whether a token came before it.
    pub has_previous: bool,
    /// Whether a semicolon stands before it.
    pub separated: bool,
}

/// The last two tokens of a text and the number of semicolons behind them, where the scan
/// goes on at `i`. `None` if a string does not end.
pub open spec fn last_tokens(
    s: Seq<char>,
    i: int,
    previous: Option<Tok>,
    last: Option<Tok>,
    semicolons: usize,
) -> Option<(Option<Tok>, Option<Tok>, usize)>
    decreases s.len() - i,
{
    if i < 0 || i >= s.len() {
        Some((previous, last, semicolons))
    } else if is_space(s[i]) {
        last_tokens(s, i + 1, previous, last, semicolons)
    } else if s[i] == '-' && i + 1 < s.len() && s[i + 1] == '-' {
        let next = line_end(s, i);
        if !(i < next <= s.len()) {
            None
        } else {
            last_tokens(s, next, previous, last, semicolons)
        }
    } else if s[i] == ';' {
        last_tokens(s, i + 1, previous, last, sat_sum(semicolons, 1))
    } else {
        match token_end(s, i) {
            None => None,
            Some(end) => if !(i < end <= s.len()) {
                None
            } else {
                let token = Tok {
                    start: i as usize,
                    end: end as usize,
                    has_previous: last is Some,
                    separated: semicolons != 0,
                };
                last_tokens(s, end, last, Some(token), 0)
            },
        }
    }
}

/// The response format that a word denotes, case aside.
pub open spec fn response_format_word(word: Seq<char>) -> Option<QueryResponseFormat> {
    let name = lower(word);
    if name == "json"@ {
        Some(QueryResponseFormat::Json)
    } else if name == "csv"@ {
        Some(QueryResponseFormat::Csv)
    } else if name == "csvwithnames"@ {
        Some(QueryResponseFormat::CsvWithNames)
    } else if name == "tabseparated"@ {
        Some(QueryResponseFormat::TabSeparated)
    } else if name == "tabseparatedwithnames"@ {
        Some(QueryResponseFormat::TabSeparatedWithNames)
    } else if name == "jsoneachrow"@ {
        Some(QueryResponseFormat::JsonEachRow)
    } else if name == "jsoncompacteachrow"@ {
        Some(QueryResponseFormat::JsonCompactEachRow)
    } else {
        None
    }
}

/// Where a `FORMAT` clause at the end of SQL text begins, and the format that it names.
pub open spec fn terminal_format(s: Seq<char>) -> Option<(usize, QueryResponseFormat)> {
    match last_tokens(s, 0, None, None, 0) {
        Some((Some(format), Some(name), semicolons)) => if !format.has_previous || format.separated
            || name.separated || semicolons > 1 || lower(
            s.subrange(format.start as int, format.end as int),
        ) != "format"@ {
            None
        } else {
            match response_format_word(s.subrange(name.start as int, name.end as int)) {
                Some(found) => Some((format.start, found)),
                None => None,
            }
        },
        _ => None,
    }
}

fn find_line_end(chars: &Vec<char>, i: usize) -> (end: usize)
    requires
        i < chars.len(),
    ensures
        end == line_end(chars@, i as int),
        i < end <= chars.len(),
{
    let mut k = i;
    while k < chars.len()
        invariant
            i <= k <= chars.len(),
            i < chars.len(),
            line_end(chars@, i as int) == line_end(chars@, k as int),
        decreases chars.len() - k,
    {
        if chars[k] == '\n' {
            return k + 1;
        }
        k = k + 1;
    }
    k
}

fn find_string_end(chars: &Vec<char>, i: usize) -> (r: Option<usize>)
    requires
        i <= chars.len(),
    ensures
        match r {
            Some(end) => string_end(chars@, i as int) == Some(end as int) && i < end <= chars.len(),
            None => string_end(chars@, i as int) is None,
        },
{
    let mut k = i;
    while k < chars.len()
        invariant
            i <= k <= chars.len(),
            string_end(chars@, i as int) == string_end(chars@, k as int),
        decreases chars.len() - k,
    {
        if chars[k] == '\'' {
            if k + 1 < chars.len() && chars[k + 1] == '\'' {
                k = k + 2;
            } else {
                return Some(k + 1);
            }
        } else {
            k = k + 1;
        }
    }
    None
}

fn find_identifier_end(chars: &Vec<char>, i: usize) -> (end: usize)
    requires
        i <= chars.len(),
    ensures
        end == identifier_end(chars@, i as int),
        i <= end <= chars.len(),
{
    let mut k = i;
    while k < chars.len() && (('a' <= chars[k] && chars[k] <= 'z') || ('A' <= chars[k] && chars[k]
        <= 'Z') || chars[k] == '_' || ('0' <= chars[k] && chars[k] <= '9'))
        invariant
            i <= k <= chars.len(),
            identifier_end(chars@, i as int) == identifier_end(chars@, k as int),
        decreases chars.len() - k,
    {
        k = k + 1;
    }
    k
}

fn word_of(chars: &Vec<char>, token: Tok) -> (word: String)
    requires
        token.start <= token.end <= chars.len(),
    ensures
        word@ == chars@.subrange(token.start as int, token.end as int),
{
    string_from(chars, token.start, token.end)
}

fn find_response_format(word: &String) -> (r: Option<QueryResponseFormat>)
    ensures
        r == response_format_word(word@),
{
    if folds_to(word, "json") {
        Some(QueryResponseFormat::Json)
    } else if folds_to(word, "csv") {
        Some(QueryResponseFormat::Csv)
    } else if folds_to(word, "csvwithnames") {
        Some(QueryResponseFormat::CsvWithNames)
    } else if folds_to(word, "tabseparated") {
        Some(QueryResponseFormat::TabSeparated)
    } else if folds_to(word, "tabseparatedwithnames") {
        Some(QueryResponseFormat::TabSeparatedWithNames)
    } else if folds_to(word, "jsoneachrow") {
        Some(QueryResponseFormat::JsonEachRow)
    } else if folds_to(word, "jsoncompacteachrow") {
        Some(QueryResponseFormat::JsonCompactEachRow)
    } else {
        None
    }
}

spec fn token_fits(token: Option<Tok>, n: int) -> bool {
    token matches Some(t) ==> t.start <= t.end <= n
}

/// Finds a `FORMAT` clause at the end of SQL text.
pub fn terminal_query_format(chars: &Vec<char>) -> (r: Option<(usize, QueryResponseFormat)>)
    ensures
        r == terminal_format(chars@),
        r matches Some((start, _)) ==> start <= chars.len(),
{
    let ghost s = chars@;
    let mut previous: Option<Tok> = None;
    let mut last: Option<Tok> = None;
    let mut semicolons: usize = 0;
    let mut i: usize = 0;
    while i < chars.len()
        invariant
            i <= chars.len(),
            s == chars@,
            token_fits(previous, chars.len() as int),
            token_fits(last, chars.len() as int),
            last_tokens(s, 0, None, None, 0) == last_tokens(
                s,
                i as int,
                previous,
                last,
                semicolons,
            ),
        decreases chars.len() - i,
    {
        let c = chars[i];
        if char_is_space(c) {
            i = i + 1;
        } else if c == '-' && i + 1 < chars.len() && chars[i + 1] == '-' {
            i = find_line_end(chars, i);
        } else if c == ';' {
            semicolons = sat_add(semicolons, 1);
            i = i + 1;
        } else {
            let end = if c == '\'' {
                match find_string_end(chars, i + 1) {
                    None => return None,
                    Some(end) => end,
                }
            } else if ('a' <= c && c <= 'z') || ('A' <= c && c <= 'Z') || c == '_' {
                find_identifier_end(chars, i + 1)
            } else {
                i + 1
            };
            let token = Tok {
                start: i,
                end,
                has_previous: last.is_some(),
                separated: semicolons != 0,
            };
            previous = last;
            last = Some(token);
            semicolons = 0;
            i = end;
        }
    }
    match (previous, last) {
        (Some(format), Some(name)) => {
            if !format.has_previous || format.separated || name.separated || semicolons > 1 {
                return None;
            }
            if !folds_to(&word_of(chars, format), "format") {
                return None;
            }
            match find_response_format(&word_of(chars, name)) {
                Some(found) => Some((format.start, found)),
                None => None,
            }
        },
        _ => None,
    }
}

/// SQL text without a `FORMAT` clause at its end, and the format that the clause names.
pub open spec fn format_taken(sql: Seq<char>) -> (Seq<char>, Option<QueryResponseFormat>) {
    match terminal_format(sql) {
        Some((start, format)) => (sql.take(start as int), Some(format)),
        None => (sql, None),
    }
}

/// Removes a `FORMAT` clause at the end of SQL text.
pub fn take_terminal_query_format(sql: String) -> (r: (String, Option<QueryResponseFormat>))
    ensures
        (r.0@, r.1) == format_taken(sql@),
{
    let chars = chars_of(sql.as_str());
    match terminal_query_format(&chars) {
        Some((start, format)) => {
            let rest = string_from(&chars, 0, start);
            assert(rest@ =~= sql@.take(start as int));
            (rest, Some(format))
        },
        None => (sql, None),
    }
}

} // verus!
