//! What running texts of statements and reading single values are for.

use vstd::prelude::*;
use crate::ast::SqlStatement;
use crate::budget::sat_sum;
use crate::engine::{batch, remaining, reply_bytes, statement_effect, EngineConfig, Reply, Tables};
use crate::float::FloatModel;
use crate::insert::{literal_at, literals_from, mark_at, InsertParseFault, RowField};
use crate::json_each_row::{column_named, completed, value_at, whole_end};
use crate::lexer::{digit_at, digits_end, Delimiter, Lexeme, Marked, Operator};
use crate::scalar::is_float_text;
use crate::text::{digit_char, digits, digits_round_trip, decimal_round_trip, i64_value, int_text, is_digit, lower};
use crate::types::{DataType, Datum, Fault};

verus! {

/// One statement after another that leads from each state of the tables to the next, with its
/// reply.
pub open spec fn leads(
    statements: Seq<SqlStatement>,
    states: Seq<Tables>,
    replies: Seq<Reply>,
    allowed: Seq<usize>,
    config: EngineConfig,
    m: FloatModel,
) -> bool {
    &&& states.len() == replies.len() + 1
    &&& replies.len() <= statements.len()
    &&& replies.len() <= allowed.len()
    &&& forall|k: int|
        0 <= k < replies.len() ==> statement_effect(
            statements[k],
            states[k],
            config,
            #[trigger] allowed[k],
            m,
        ) == Ok::<(Reply, Tables), Fault>((replies[k], states[k + 1]))
}

/// The bytes of replies together.
pub open spec fn bytes_together(replies: Seq<Reply>) -> int
    decreases replies.len(),
{
    if replies.len() == 0 {
        0
    } else {
        bytes_together(replies.drop_last()) + reply_bytes(replies.last())
    }
}

/// Why a text of statements stops: the next statement fails on the tables as they are then, or
/// the replies take more bytes than allowed.
pub open spec fn stops(
    statements: Seq<SqlStatement>,
    after: Tables,
    replies: Seq<Reply>,
    allowed: Seq<usize>,
    config: EngineConfig,
    m: FloatModel,
) -> bool {
    let n = replies.len() as int;
    ||| n < statements.len() && n < allowed.len() && statement_effect(
        statements[n],
        after,
        config,
        allowed[n],
        m,
    ) is Err
    ||| bytes_together(replies) > config.max_batch_result_bytes
}

proof fn statements_go_on(
    statements: Seq<SqlStatement>,
    replies: Seq<Reply>,
    retained: usize,
    states: Seq<Tables>,
    allowed: Seq<usize>,
    config: EngineConfig,
    m: FloatModel,
) -> (r: (Seq<Tables>, Seq<Reply>, Seq<usize>))
    requires
        leads(statements, states, replies, allowed, config, m),
        allowed.len() == replies.len(),
        retained == (if bytes_together(replies) > usize::MAX {
            usize::MAX as int
        } else {
            bytes_together(replies)
        }),
        retained <= config.max_batch_result_bytes,
    ensures
        ({
            let (all, given, sizes) = r;
            let (outcome, after) = batch(
                statements,
                replies.len() as int,
                replies,
                retained,
                states.last(),
                config,
                m,
            );
            &&& leads(statements, all, given, sizes, config, m)
            &&& all[0] == states[0]
            &&& after == all.last()
            &&& outcome matches Ok(made) ==> made == given && given.len() == statements.len() && (
            config.max_batch_result_bytes < usize::MAX ==> bytes_together(given)
                <= config.max_batch_result_bytes)
            &&& outcome is Err ==> stops(statements, after, given, sizes, config, m)
        }),
    decreases statements.len() - replies.len(),
{
    let i = replies.len() as int;
    if i >= statements.len() {
        (states, replies, allowed)
    } else {
        let left = remaining(config.max_batch_result_bytes, retained);
        match statement_effect(statements[i], states.last(), config, left, m) {
            Err(_) => (states, replies, allowed.push(left)),
            Ok((reply, next)) => {
                let more = states.push(next);
                let given = replies.push(reply);
                let sizes = allowed.push(left);
                assert(leads(statements, more, given, sizes, config, m));
                assert(given.drop_last() =~= replies);
                let retains = sat_sum(retained, reply_bytes(reply));
                if retains > config.max_batch_result_bytes {
                    (more, given, sizes)
                } else {
                    statements_go_on(statements, given, retains, more, sizes, config, m)
                }
            },
        }
    }
}

/// The statements of a text run in their order, each on the tables as the one before it left
/// them, and each answers with its own reply. All run where none fails and the replies are not too
/// large; where one fails, what the ones before it did stays done.
pub proof fn statements_run_in_order(
    statements: Seq<SqlStatement>,
    tables: Tables,
    config: EngineConfig,
    m: FloatModel,
) -> (r: (Seq<Tables>, Seq<Reply>, Seq<usize>))
    ensures
        leads(statements, r.0, r.1, r.2, config, m),
        r.0[0] == tables,
        batch(statements, 0, Seq::empty(), 0, tables, config, m).1 == r.0.last(),
        batch(statements, 0, Seq::empty(), 0, tables, config, m).0 matches Ok(made) ==> made == r.1
            && r.1.len() == statements.len() && (config.max_batch_result_bytes < usize::MAX
            ==> bytes_together(r.1) <= config.max_batch_result_bytes),
        batch(statements, 0, Seq::empty(), 0, tables, config, m).0 is Err ==> stops(
            statements,
            r.0.last(),
            r.1,
            r.2,
            config,
            m,
        ),
{
    let states = seq![tables];
    assert(states.last() == tables);
    statements_go_on(statements, Seq::empty(), 0, states, Seq::empty(), config, m)
}

proof fn integers_are_no_floats(n: nat)
    ensures
        !is_float_text(digits(n)),
        !is_float_text(seq!['-'] + digits(n)),
{
    digits_round_trip(n);
    let s = digits(n);
    let t = seq!['-'] + s;
    if is_float_text(s) {
        let k = choose|k: int| 0 <= k < s.len() && (s[k] == '.' || s[k] == 'e' || s[k] == 'E');
        assert(is_digit(s[k]));
    }
    if is_float_text(t) {
        let k = choose|k: int| 0 <= k < t.len() && (t[k] == '.' || t[k] == 'e' || t[k] == 'E');
        assert(k > 0 && t[k] == s[k - 1]);
        assert(is_digit(s[k - 1]));
    }
}

/// A literal in a list of values is what is written, and a minus sign in front of an integer
/// makes it negative.
pub proof fn listed_literals_are_what_is_written(
    tokens: Seq<Marked>,
    p: int,
    end: int,
    n: i64,
    m: FloatModel,
)
    requires
        0 <= p < tokens.len(),
        n >= 0,
    ensures
        tokens[p].lexeme == Lexeme::Number(digits(n as nat)) ==> literal_at(tokens, p, end, m) == Ok::<
            (Datum, int),
            InsertParseFault,
        >((Datum::Int64(n), p + 1)),
        p + 1 < tokens.len() && tokens[p].lexeme == Lexeme::Operator(Operator::Minus) && tokens[p
            + 1].lexeme == Lexeme::Number(digits(n as nat)) ==> literal_at(tokens, p, end, m) == Ok::<
            (Datum, int),
            InsertParseFault,
        >((Datum::Int64((0 - n) as i64), p + 2)),
        tokens[p].lexeme matches Lexeme::Text(s) ==> literal_at(tokens, p, end, m) == Ok::<
            (Datum, int),
            InsertParseFault,
        >((Datum::Text(s), p + 1)),
        tokens[p].lexeme matches Lexeme::Boolean(b) ==> literal_at(tokens, p, end, m) == Ok::<
            (Datum, int),
            InsertParseFault,
        >((Datum::Bool(b), p + 1)),
{
    integers_are_no_floats(n as nat);
    decimal_round_trip(n);
    decimal_round_trip((0 - n) as i64);
    digits_round_trip(n as nat);
    reveal_strlit("-");
    assert("-"@ =~= seq!['-']);
    if n == 0 {
        let t = seq!['-'] + digits(0);
        assert(t.skip(1) =~= digits(0));
        assert(i64_value(t) == Some(0i64));
    }
}

proof fn lists_build_on(
    tokens: Seq<Marked>,
    p: int,
    end: int,
    done: Seq<Datum>,
    m: FloatModel,
)
    ensures
        match literals_from(tokens, p, end, Seq::empty(), m) {
            Ok((data, q)) => literals_from(tokens, p, end, done, m) == Ok::<
                (Seq<Datum>, int),
                InsertParseFault,
            >((done + data, q)),
            Err(fault) => literals_from(tokens, p, end, done, m) == Err::<
                (Seq<Datum>, int),
                InsertParseFault,
            >(fault),
        },
    decreases tokens.len() - p,
{
    let none = Seq::<Datum>::empty();
    if let Ok((d, q)) = literal_at(tokens, p, end, m) {
        assert(done + none.push(d) =~= done.push(d));
        assert(done + none =~= done);
        if !mark_at(tokens, q, Delimiter::RightParenthesis) && mark_at(tokens, q, Delimiter::Comma)
            && p < q {
            lists_build_on(tokens, q + 1, end, done.push(d), m);
            lists_build_on(tokens, q + 1, end, none.push(d), m);
            if let Ok((rest, e)) = literals_from(tokens, q + 1, end, none, m) {
                assert(done.push(d) + rest =~= done + (none.push(d) + rest));
            }
        }
    }
}

/// A list of values is its first literal and, behind a comma, the list of the others; it ends
/// with a closing parenthesis.
pub proof fn lists_are_read_from_the_left(
    tokens: Seq<Marked>,
    p: int,
    q: int,
    end: int,
    d: Datum,
    m: FloatModel,
)
    requires
        p < q,
        literal_at(tokens, p, end, m) == Ok::<(Datum, int), InsertParseFault>((d, q)),
    ensures
        mark_at(tokens, q, Delimiter::RightParenthesis) ==> literals_from(
            tokens,
            p,
            end,
            Seq::empty(),
            m,
        ) == Ok::<(Seq<Datum>, int), InsertParseFault>((seq![d], q + 1)),
        mark_at(tokens, q, Delimiter::Comma) ==> (literals_from(tokens, q + 1, end, Seq::empty(), m)
            matches Ok((rest, e)) ==> literals_from(tokens, p, end, Seq::empty(), m) == Ok::<
            (Seq<Datum>, int),
            InsertParseFault,
        >((seq![d] + rest, e))),
        !mark_at(tokens, q, Delimiter::Comma) && !mark_at(tokens, q, Delimiter::RightParenthesis)
            ==> literals_from(tokens, p, end, Seq::empty(), m) is Err,
{
    let none = Seq::<Datum>::empty();
    assert(none.push(d) =~= seq![d]);
    lists_build_on(tokens, q + 1, end, seq![d], m);
}

proof fn numbers_begin_with_their_first_digit(n: nat)
    requires
        n > 0,
    ensures
        digits(n)[0] != '0',
    decreases n,
{
    if n >= 10 {
        numbers_begin_with_their_first_digit(n / 10);
        digits_round_trip(n / 10);
        assert(digits(n)[0] == digits(n / 10)[0]);
    } else {
        assert(digits(n)[0] == digit_char(n));
    }
}

proof fn digits_end_behind(s: Seq<char>, i: int, j: int)
    requires
        0 <= i <= j <= s.len(),
        forall|k: int| i <= k < j ==> is_digit(#[trigger] s[k]),
        !digit_at(s, j),
    ensures
        digits_end(s, i) == j,
    decreases j - i,
{
    if i < j {
        digits_end_behind(s, i + 1, j);
    }
}

/// An integer in a record is read as itself, whatever stands behind it but a further part of a
/// number; and the words for truth values are read as these.
pub proof fn values_in_records_are_what_is_written(
    before: Seq<char>,
    behind: Seq<char>,
    n: i64,
    table: Seq<char>,
    field: RowField,
    m: FloatModel,
)
    requires
        behind.len() > 0,
        !is_digit(behind[0]) && behind[0] != '.' && behind[0] != 'e' && behind[0] != 'E',
    ensures
        field.data_type is Int64 ==> value_at(
            before + int_text(n as int) + behind,
            before.len() as int,
            table,
            field,
            m,
        ) == Ok::<(Datum, int), Seq<char>>(
            (Datum::Int64(n), (before + int_text(n as int)).len() as int),
        ),
        field.data_type is Bool ==> value_at(
            before + "true"@ + behind,
            before.len() as int,
            table,
            field,
            m,
        ) == Ok::<(Datum, int), Seq<char>>((Datum::Bool(true), before.len() as int + 4)),
        field.data_type is Bool ==> value_at(
            before + "false"@ + behind,
            before.len() as int,
            table,
            field,
            m,
        ) == Ok::<(Datum, int), Seq<char>>((Datum::Bool(false), before.len() as int + 5)),
{
    reveal_strlit("null");
    reveal_strlit("true");
    reveal_strlit("false");
    let i = before.len() as int;
    if field.data_type is Bool {
        let s = before + "true"@ + behind;
        assert(s.subrange(i, i + 4) =~= "true"@);
        assert(s.subrange(i, i + 4)[0] == 't' && "null"@[0] == 'n');
        let t = before + "false"@ + behind;
        assert(t.subrange(i, i + 5) =~= "false"@);
        assert(t.subrange(i, i + 4)[0] == 'f' && "true"@[0] == 't');
    } else if field.data_type is Int64 {
        let text = int_text(n as int);
        let s = before + text + behind;
        let size = if n < 0 {
            (0 - n) as nat
        } else {
            n as nat
        };
        let from = if n < 0 {
            i + 1
        } else {
            i
        };
        let j = i + text.len();
        digits_round_trip(size);
        decimal_round_trip(n);
        integers_are_no_floats(size);
        let written = digits(size);
        assert forall|k: int| from <= k < j implies is_digit(#[trigger] s[k]) by {
            assert(s[k] == text[k - i]);
            assert(text[k - i] == written[k - from]);
            assert(is_digit(written[k - from]));
        }
        assert(s[j] == behind[0]);
        assert(s.subrange(i, j) =~= text);
        assert(s[i] == text[0]);
        assert(s[from] == written[0]);
        digits_end_behind(s, from, j);
        if size > 0 {
            numbers_begin_with_their_first_digit(size);
        } else {
            assert(written =~= seq!['0']);
        }
        assert(whole_end(s, from) == Ok::<int, Seq<char>>(j));
        if s.len() >= i + 4 {
            assert(s.subrange(i, i + 4)[0] == s[i] && "null"@[0] == 'n');
        }
    }
}

/// Columns that a record leaves out are zero, false or empty, and the others as they were read.
pub proof fn missing_fields_have_defaults(values: Seq<Option<Datum>>, fields: Seq<RowField>, k: int)
    requires
        0 <= k < fields.len(),
    ensures
        completed(values, fields).len() == fields.len(),
        values[k] matches Some(d) ==> completed(values, fields)[k] == d,
        values[k] is None ==> completed(values, fields)[k] == (match fields[k].data_type {
            DataType::Int64 => Datum::Int64(0),
            DataType::Float64 => Datum::Float64(0),
            DataType::Bool => Datum::Bool(false),
            DataType::String => Datum::Text(Seq::empty()),
        }),
{
}

/// A field is a column whose name differs from its own in the case of letters at most; the last
/// one is taken.
pub proof fn fields_are_columns(fields: Seq<RowField>, name: Seq<char>, n: int)
    requires
        0 <= n <= fields.len(),
    ensures
        match column_named(fields, name, n) {
            Some(k) => 0 <= k < n && lower(fields[k].name@) == lower(name) && forall|j: int|
                k < j < n ==> lower((#[trigger] fields[j]).name@) != lower(name),
            None => forall|j: int| 0 <= j < n ==> lower((#[trigger] fields[j]).name@) != lower(name),
        },
    decreases n,
{
    if n > 0 {
        fields_are_columns(fields, name, n - 1);
    }
}

} // verus!
