//! Answers that are learned later change nothing: what an operation came
//! to with what was known, it comes to with more known. So an operation
//! that stopped with a question can be run again from its start once the
//! answer is learned, as often as it takes.

use crate::autocorrect::{candidates, KeyBoard, Token};
use crate::cell::{
    cell_difference, cell_of_text, cell_operation, cell_product, cell_quotient, cell_remainder,
    cell_sum, text_of_cell, CellModel,
};
use crate::closure::{
    address, applied, comes_before, eval_token, eval_tokens, evaluated, fold_row, fold_rows, grown,
    prescript_from, script_run, storage_taken, ClosureModel, Machine, Scope,
};
use crate::compiler::{
    closure_names, coordinate, hint_of, line_effect, modifier_of, names_of, next_line,
    operator_of, plan_from, position_of, run_effect, starts_modifier, unclosed_note, ChangeModel,
    Modifier, Operator, Planned, VMModel,
};
use crate::error::StopModel;
use crate::literal::{collect, weight};
use crate::numerics::{
    ceil_index, computed, index_number, parsed, rendered, AnswerModel, Operation, QueryModel,
};
use crate::report::{EffectModel, HaltModel, NoticeModel};
use crate::table::{
    all_literal_cells, append_literals, csv_marks, csv_of, empties, html_marks, html_of, line_text,
    literal_cells, rows_text, Marks, TableModel,
};
use crate::text::{byte_len, find_from, index_of_text, split_on, trimmed, words};
use vstd::prelude::*;

verus! {

/// Whether what is known holds an answer to a question, of the kind that
/// the question takes.
pub open spec fn answered(known: Map<QueryModel, AnswerModel>, q: QueryModel) -> bool {
    known.contains_key(q) && match q {
        QueryModel::Parse(_) => known[q] is Number || known[q] is NotNumber,
        QueryModel::Render(_) => known[q] is Text,
        QueryModel::Compute(_, _, _) => known[q] is Number,
        QueryModel::FromIndex(_) => known[q] is Number,
        QueryModel::CeilIndex(_) => known[q] is Index,
    }
}

/// Whether `more` holds every answer that `known` holds.
pub open spec fn extends(more: Map<QueryModel, AnswerModel>, known: Map<QueryModel, AnswerModel>) -> bool {
    forall|q: QueryModel| #[trigger] answered(known, q) ==> more.contains_key(q) && more[q] == known[q]
}

/// Whether an operation ended: it gave a value or failed, and did not stop
/// with a question.
pub open spec fn ended<T>(r: Result<T, StopModel>) -> bool {
    !(r matches Err(StopModel::Ask(_)))
}

/// A question that is asked has no answer yet, and an answer that is
/// learned to it is kept with all that was known.
pub proof fn learning_extends(
    known: Map<QueryModel, AnswerModel>,
    q: QueryModel,
    a: AnswerModel,
)
    requires
        !answered(known, q),
    ensures
        extends(known.insert(q, a), known),
{
}

/// What is known of numbers stays known.
pub proof fn answers_stay(known: Map<QueryModel, AnswerModel>, more: Map<QueryModel, AnswerModel>)
    requires
        extends(more, known),
    ensures
        forall|s: Seq<char>| #[trigger] parsed(known, s) is Ok ==> parsed(more, s) == parsed(known, s),
        forall|n: u64| #[trigger] rendered(known, n) is Ok ==> rendered(more, n) == rendered(known, n),
        forall|op: Operation, a: u64, b: u64| #[trigger]
            computed(known, op, a, b) is Ok ==> computed(more, op, a, b) == computed(
                known,
                op,
                a,
                b,
            ),
        forall|i: usize| #[trigger]
            index_number(known, i) is Ok ==> index_number(more, i) == index_number(known, i),
        forall|n: u64| #[trigger] ceil_index(known, n) is Ok ==> ceil_index(more, n) == ceil_index(known, n),
{
    assert forall|s: Seq<char>| #[trigger] parsed(known, s) is Ok implies parsed(more, s) == parsed(
        known,
        s,
    ) by {
        assert(answered(known, QueryModel::Parse(s)));
    }
    assert forall|n: u64| #[trigger] rendered(known, n) is Ok implies rendered(more, n) == rendered(
        known,
        n,
    ) by {
        assert(answered(known, QueryModel::Render(n)));
    }
    assert forall|op: Operation, a: u64, b: u64| #[trigger]
        computed(known, op, a, b) is Ok implies computed(more, op, a, b) == computed(
        known,
        op,
        a,
        b,
    ) by {
        assert(answered(known, QueryModel::Compute(op, a, b)));
    }
    assert forall|i: usize| #[trigger] index_number(known, i) is Ok implies index_number(more, i)
        == index_number(known, i) by {
        assert(answered(known, QueryModel::FromIndex(i)));
    }
    assert forall|n: u64| #[trigger] ceil_index(known, n) is Ok implies ceil_index(more, n)
        == ceil_index(known, n) by {
        assert(answered(known, QueryModel::CeilIndex(n)));
    }
}

/// What a literal writes and what writes a value stay the same.
pub proof fn cell_texts_stay(
    known: Map<QueryModel, AnswerModel>,
    more: Map<QueryModel, AnswerModel>,
    s: Seq<char>,
    c: CellModel,
)
    requires
        extends(more, known),
    ensures
        cell_of_text(known, s) is Ok ==> cell_of_text(more, s) == cell_of_text(known, s),
        text_of_cell(known, c) is Ok ==> text_of_cell(more, c) == text_of_cell(known, c),
{
    answers_stay(known, more);
}

/// The results of arithmetic stay the same.
pub proof fn arithmetic_stays(
    known: Map<QueryModel, AnswerModel>,
    more: Map<QueryModel, AnswerModel>,
    a: CellModel,
    b: CellModel,
)
    requires
        extends(more, known),
    ensures
        cell_sum(known, a, b) is Ok ==> cell_sum(more, a, b) == cell_sum(known, a, b),
        cell_difference(known, a, b) is Ok ==> cell_difference(more, a, b) == cell_difference(
            known,
            a,
            b,
        ),
        ended(cell_product(known, a, b)) ==> cell_product(more, a, b) == cell_product(known, a, b),
        ended(cell_quotient(known, a, b)) ==> cell_quotient(more, a, b) == cell_quotient(
            known,
            a,
            b,
        ),
        ended(cell_remainder(known, a, b)) ==> cell_remainder(more, a, b) == cell_remainder(
            known,
            a,
            b,
        ),
        forall|op: Operation| #[trigger]
            ended(cell_operation(known, op, a, b)) ==> cell_operation(more, op, a, b)
                == cell_operation(known, op, a, b),
{
    answers_stay(known, more);
    cell_texts_stay(known, more, Seq::empty(), a);
    cell_texts_stay(known, more, Seq::empty(), b);
}

/// The cells that literals write stay the same.
pub proof fn literal_cells_stay(
    known: Map<QueryModel, AnswerModel>,
    more: Map<QueryModel, AnswerModel>,
    literals: Seq<Seq<char>>,
    n: nat,
)
    requires
        extends(more, known),
        literal_cells(known, literals, n) is Ok,
    ensures
        literal_cells(more, literals, n) == literal_cells(known, literals, n),
    decreases n,
{
    if n > 0 && n <= literals.len() {
        literal_cells_stay(known, more, literals, (n - 1) as nat);
        cell_texts_stay(known, more, literals[n - 1], CellModel::Empty);
    }
}

/// A row that was appended is appended the same.
pub proof fn append_stays(
    known: Map<QueryModel, AnswerModel>,
    more: Map<QueryModel, AnswerModel>,
    t: TableModel,
    literals: Seq<Seq<char>>,
)
    requires
        extends(more, known),
        append_literals(known, t, literals) is Ok,
    ensures
        append_literals(more, t, literals) == append_literals(known, t, literals),
{
    if t.headers.len() > 0 {
        let n = if literals.len() < t.headers.len() {
            literals.len()
        } else {
            t.headers.len()
        };
        literal_cells_stay(known, more, literals, n);
    }
}

/// A line of cells that was written is written the same.
pub proof fn line_text_stays(
    known: Map<QueryModel, AnswerModel>,
    more: Map<QueryModel, AnswerModel>,
    cells: Seq<CellModel>,
    before: Seq<char>,
    after: Seq<char>,
)
    requires
        extends(more, known),
        line_text(known, cells, before, after) is Ok,
    ensures
        line_text(more, cells, before, after) == line_text(known, cells, before, after),
    decreases cells.len(),
{
    if cells.len() > 0 {
        line_text_stays(known, more, cells.drop_last(), before, after);
        cell_texts_stay(known, more, Seq::empty(), cells.last());
    }
}

/// Rows that were written are written the same.
pub proof fn rows_text_stays(
    known: Map<QueryModel, AnswerModel>,
    more: Map<QueryModel, AnswerModel>,
    rows: Seq<Seq<CellModel>>,
    marks: Marks,
)
    requires
        extends(more, known),
        rows_text(known, rows, marks) is Ok,
    ensures
        rows_text(more, rows, marks) == rows_text(known, rows, marks),
    decreases rows.len(),
{
    if rows.len() > 0 {
        rows_text_stays(known, more, rows.drop_last(), marks);
        line_text_stays(known, more, rows.last(), marks.cell_start, marks.cell_end);
    }
}

/// A table that was written out is written out the same.
pub proof fn saved_text_stays(
    known: Map<QueryModel, AnswerModel>,
    more: Map<QueryModel, AnswerModel>,
    t: TableModel,
)
    requires
        extends(more, known),
    ensures
        csv_of(known, t) is Ok ==> csv_of(more, t) == csv_of(known, t),
        html_of(known, t) is Ok ==> html_of(more, t) == html_of(known, t),
{
    if csv_of(known, t) is Ok {
        line_text_stays(known, more, t.headers, Seq::empty(), ","@);
        rows_text_stays(known, more, t.rows, csv_marks());
    }
    if html_of(known, t) is Ok {
        line_text_stays(known, more, t.headers, "<th>"@, "</th>"@);
        rows_text_stays(known, more, t.rows, html_marks());
    }
}

/// What a token does to the stack stays the same.
pub proof fn token_stays(
    known: Map<QueryModel, AnswerModel>,
    more: Map<QueryModel, AnswerModel>,
    scope: Scope,
    token: Seq<char>,
    stack: Seq<CellModel>,
)
    requires
        extends(more, known),
        ended(eval_token(known, scope, token, stack)),
    ensures
        eval_token(more, scope, token, stack) == eval_token(known, scope, token, stack),
{
    answers_stay(known, more);
    cell_texts_stay(known, more, token, CellModel::Empty);
    if stack.len() >= 2 {
        arithmetic_stays(known, more, stack[stack.len() - 2], stack.last());
    }
}

/// What tokens do to the stack stays the same.
pub proof fn tokens_stay(
    known: Map<QueryModel, AnswerModel>,
    more: Map<QueryModel, AnswerModel>,
    scope: Scope,
    tokens: Seq<Seq<char>>,
    from: int,
    stack: Seq<CellModel>,
)
    requires
        extends(more, known),
        ended(eval_tokens(known, scope, tokens, from, stack)),
    ensures
        eval_tokens(more, scope, tokens, from, stack) == eval_tokens(
            known,
            scope,
            tokens,
            from,
            stack,
        ),
    decreases tokens.len() - from,
{
    if 0 <= from < tokens.len() {
        token_stays(known, more, scope, tokens[from], stack);
        match eval_token(known, scope, tokens[from], stack) {
            Ok(next) => {
                tokens_stay(known, more, scope, tokens, from + 1, next);
            },
            Err(_) => {},
        }
    }
}

/// The value of an expression stays the same.
pub proof fn value_stays(
    known: Map<QueryModel, AnswerModel>,
    more: Map<QueryModel, AnswerModel>,
    scope: Scope,
    expression: Seq<char>,
)
    requires
        extends(more, known),
        ended(evaluated(known, scope, expression)),
    ensures
        evaluated(more, scope, expression) == evaluated(known, scope, expression),
{
    tokens_stay(known, more, scope, words(expression), 0, Seq::empty());
}

/// The fold over a row stays the same.
pub proof fn fold_row_stays(
    known: Map<QueryModel, AnswerModel>,
    more: Map<QueryModel, AnswerModel>,
    table: TableModel,
    expression: Seq<char>,
    storage: CellModel,
    row: usize,
    col: int,
    last: usize,
)
    requires
        extends(more, known),
        ended(fold_row(known, table, expression, storage, row, col, last)),
    ensures
        fold_row(more, table, expression, storage, row, col, last) == fold_row(
            known,
            table,
            expression,
            storage,
            row,
            col,
            last,
        ),
    decreases last - col + 1,
{
    if 0 <= col <= last {
        let scope = Scope { storage, row, col: col as usize, table };
        value_stays(known, more, scope, expression);
        match evaluated(known, scope, expression) {
            Ok(v) => {
                fold_row_stays(known, more, table, expression, v, row, col + 1, last);
            },
            Err(_) => {},
        }
    }
}

/// The fold over rows stays the same.
pub proof fn fold_rows_stays(
    known: Map<QueryModel, AnswerModel>,
    more: Map<QueryModel, AnswerModel>,
    table: TableModel,
    expression: Seq<char>,
    storage: CellModel,
    row: int,
    last_row: usize,
    first_col: usize,
    last_col: usize,
)
    requires
        extends(more, known),
        ended(fold_rows(known, table, expression, storage, row, last_row, first_col, last_col)),
    ensures
        fold_rows(more, table, expression, storage, row, last_row, first_col, last_col)
            == fold_rows(known, table, expression, storage, row, last_row, first_col, last_col),
    decreases last_row - row + 1,
{
    if 0 <= row <= last_row {
        fold_row_stays(known, more, table, expression, storage, row as usize, first_col as int, last_col);
        match fold_row(known, table, expression, storage, row as usize, first_col as int, last_col) {
            Ok(v) => {
                fold_rows_stays(
                    known,
                    more,
                    table,
                    expression,
                    v,
                    row + 1,
                    last_row,
                    first_col,
                    last_col,
                );
            },
            Err(_) => {},
        }
    }
}

/// The cell that expressions name as the accumulator stays the same.
pub proof fn address_stays(
    known: Map<QueryModel, AnswerModel>,
    more: Map<QueryModel, AnswerModel>,
    table: TableModel,
    word: Seq<char>,
    start: (usize, usize),
    end: (usize, usize),
)
    requires
        extends(more, known),
        ended(address(known, table, word, start, end)),
    ensures
        address(more, table, word, start, end) == address(known, table, word, start, end),
{
    answers_stay(known, more);
    let comma = find_from(word, ',', 0);
    if comma < word.len() && end.0 != usize::MAX {
        let first = Scope {
            storage: CellModel::Empty,
            row: (end.0 + 1) as usize,
            col: end.1,
            table,
        };
        let second = Scope { storage: CellModel::Empty, row: start.0, col: start.1, table };
        value_stays(known, more, first, word.take(comma));
        if evaluated(known, first, word.take(comma)) is Ok {
            value_stays(known, more, second, word.skip(comma + 1));
        }
    }
}

/// What a prescript does stays the same.
pub proof fn prescript_stays(
    known: Map<QueryModel, AnswerModel>,
    more: Map<QueryModel, AnswerModel>,
    m: Machine,
    tokens: Seq<Seq<char>>,
    from: int,
    start: (usize, usize),
    end: (usize, usize),
)
    requires
        extends(more, known),
        !(prescript_from(known, m, tokens, from, start, end).1 matches Some(StopModel::Ask(_))),
    ensures
        prescript_from(more, m, tokens, from, start, end) == prescript_from(
            known,
            m,
            tokens,
            from,
            start,
            end,
        ),
    decreases tokens.len() - from,
{
    if 0 <= from < tokens.len() {
        let word = trimmed(tokens[from]);
        if word == "auto"@ {
            if end.0 != usize::MAX {
                let out = ((end.0 + 1) as usize, start.1);
                let table = if out.0 >= m.table.rows.len() || out.1 >= m.table.headers.len() {
                    m.table.with_row(empties(m.table.headers.len()))
                } else {
                    m.table
                };
                prescript_stays(
                    known,
                    more,
                    Machine { accumulator: Some(out), table, ..m },
                    tokens,
                    from + 1,
                    start,
                    end,
                );
            }
        } else if word == "reg"@ {
            if from + 1 < tokens.len() {
                match index_of_text(tokens[from + 1]) {
                    Some(n) => {
                        prescript_stays(
                            known,
                            more,
                            Machine { registers: empties(n as nat), ..m },
                            tokens,
                            from + 2,
                            start,
                            end,
                        );
                    },
                    None => {},
                }
            }
        } else {
            address_stays(known, more, m.table, word, start, end);
            match address(known, m.table, word, start, end) {
                Ok(out) => {
                    if out.0 != usize::MAX {
                        prescript_stays(
                            known,
                            more,
                            Machine {
                                accumulator: Some(out),
                                table: grown(m.table, (out.0 + 1) as nat),
                                ..m
                            },
                            tokens,
                            from + 1,
                            start,
                            end,
                        );
                    }
                },
                Err(_) => {},
            }
        }
    }
}

/// What a script does stays the same.
pub proof fn script_stays(
    known: Map<QueryModel, AnswerModel>,
    more: Map<QueryModel, AnswerModel>,
    m: Machine,
    script: Seq<char>,
    start: (usize, usize),
    end: (usize, usize),
)
    requires
        extends(more, known),
        !(script_run(known, m, script, start, end).1 matches Some(StopModel::Ask(_))),
    ensures
        script_run(more, m, script, start, end) == script_run(known, m, script, start, end),
{
    let tokens = split_on(script, '!');
    let word = trimmed(tokens[0]);
    if word == "each"@ || word == "raw"@ {
        match storage_taken(m, tokens, 1) {
            Ok((taken, held, next)) => {
                if next < tokens.len() {
                    if word == "each"@ {
                        fold_rows_stays(
                            known,
                            more,
                            taken.table,
                            tokens[next],
                            held,
                            start.0 as int,
                            end.0,
                            start.1,
                            end.1,
                        );
                    } else {
                        value_stays(
                            known,
                            more,
                            Scope { storage: held, row: start.0, col: start.1, table: taken.table },
                            tokens[next],
                        );
                    }
                }
            },
            Err(_) => {},
        }
    }
}

/// What applying a closure to a table does stays the same.
pub proof fn applied_stays(
    known: Map<QueryModel, AnswerModel>,
    more: Map<QueryModel, AnswerModel>,
    closure: ClosureModel,
    table: TableModel,
    start: (usize, usize),
    end: (usize, usize),
)
    requires
        extends(more, known),
        !(applied(known, closure, table, start, end).1 matches Some(StopModel::Ask(_))),
    ensures
        applied(more, closure, table, start, end) == applied(known, closure, table, start, end),
{
    let m = Machine { registers: Seq::empty(), accumulator: None, table };
    if !(comes_before(m.table.rows.len(), m.table.headers.len(), start)
        || comes_before(m.table.rows.len(), m.table.headers.len(), end)) {
        let tokens = split_on(closure.prescript, '!');
        prescript_stays(known, more, m, tokens, 0, start, end);
        let (ready, stop) = prescript_from(known, m, tokens, 0, start, end);
        if stop is None {
            script_stays(known, more, ready, closure.script, start, end);
        }
    }
}

/// What the modifiers of a line come to stays the same.
pub proof fn plan_stays(
    known: Map<QueryModel, AnswerModel>,
    more: Map<QueryModel, AnswerModel>,
    kb: &KeyBoard<26, 6>,
    line: Seq<char>,
    tokens: Seq<Seq<char>>,
    i: int,
    offset: int,
    so_far: Planned,
)
    requires
        extends(more, known),
        !(plan_from(known, kb, line, tokens, i, offset, so_far).end matches Some(HaltModel::Ask(_))),
    ensures
        plan_from(more, kb, line, tokens, i, offset, so_far) == plan_from(
            known,
            kb,
            line,
            tokens,
            i,
            offset,
            so_far,
        ),
    decreases tokens.len() - i,
{
    if 0 <= i < tokens.len() {
        let word = tokens[i];
        let after = offset + byte_len(word) + 1;
        if starts_modifier(word) {
            if i + 1 < tokens.len() {
                let name = tokens[i + 1];
                let data = after + byte_len(name) + 1;
                match modifier_of(name) {
                    None => {},
                    Some(m) => {
                        let c = collect(tokens, i + 2, data, false, Seq::empty());
                        let notices = so_far.notices + unclosed_note(c);
                        if !(c.texts.len() == 0 || c.next <= i || c.next > tokens.len()) {
                            match m {
                                Modifier::WithTitle => {
                                    plan_stays(
                                        known,
                                        more,
                                        kb,
                                        line,
                                        tokens,
                                        c.next,
                                        c.offset,
                                        Planned {
                                            changes: so_far.changes.push(
                                                ChangeModel::Title(c.texts[0]),
                                            ),
                                            notices,
                                            ..so_far
                                        },
                                    );
                                },
                                Modifier::WithHeader => {
                                    match all_literal_cells(known, c.texts) {
                                        Ok(cells) => {
                                            literal_cells_stay(known, more, c.texts, c.texts.len());
                                            plan_stays(
                                                known,
                                                more,
                                                kb,
                                                line,
                                                tokens,
                                                c.next,
                                                c.offset,
                                                Planned {
                                                    changes: so_far.changes.push(
                                                        ChangeModel::Headers(cells),
                                                    ),
                                                    notices,
                                                    ..so_far
                                                },
                                            );
                                        },
                                        Err(_) => {},
                                    }
                                },
                            }
                        }
                    },
                }
            }
        } else {
            plan_stays(
                known,
                more,
                kb,
                line,
                tokens,
                i + 1,
                after,
                Planned {
                    notices: so_far.notices + hint_of(
                        kb,
                        candidates(Token::Modifier),
                        word,
                    ) + seq![NoticeModel::Ignored(word)],
                    ..so_far
                },
            );
        }
    }
}

/// What a line does stays the same.
pub proof fn line_stays(
    known: Map<QueryModel, AnswerModel>,
    more: Map<QueryModel, AnswerModel>,
    kb: &KeyBoard<26, 6>,
    vm: VMModel,
)
    requires
        extends(more, known),
        !(line_effect(known, kb, vm).1 matches Err(HaltModel::Ask(_))),
    ensures
        line_effect(more, kb, vm) == line_effect(known, kb, vm),
{
    let line = next_line(vm);
    let tokens = words(line);
    if tokens.len() >= 2 && tokens[0] != "render"@ && weight(
        tokens,
        tokens.len() as int,
    ) <= usize::MAX {
        let offset = byte_len(tokens[0]) + 1 + byte_len(tokens[1]) + 1;
        match operator_of(tokens[1]) {
            Some(Operator::Assignment) => {
                plan_stays(
                    known,
                    more,
                    kb,
                    line,
                    tokens,
                    2,
                    offset as int,
                    Planned { changes: Seq::empty(), notices: Seq::empty(), end: None },
                );
            },
            Some(Operator::DefineClosure) => {},
            Some(op) => {
                match position_of(names_of(vm.tables), tokens[0]) {
                    Some(at) => {
                        let c = collect(tokens, 2, offset as int, true, Seq::empty());
                        match op {
                            Operator::AddRow => {
                                if c.failed is None {
                                    if append_literals(known, vm.tables[at], c.texts) is Ok {
                                        append_stays(known, more, vm.tables[at], c.texts);
                                    }
                                }
                            },
                            Operator::ExtendHeaders => {
                                if c.failed is None {
                                    if all_literal_cells(known, c.texts) is Ok {
                                        literal_cells_stay(known, more, c.texts, c.texts.len());
                                    }
                                }
                            },
                            Operator::Apply => {
                                if tokens.len() >= 3 {
                                    let after = offset + byte_len(tokens[2]) + 1;
                                    match position_of(
                                        closure_names(vm.closures),
                                        tokens[2],
                                    ) {
                                        Some(k) => {
                                            match coordinate(line, tokens, 3, after as int) {
                                                Ok((start, then)) => {
                                                    let end = match coordinate(line, tokens, 5, then) {
                                                        Ok((cell, _)) => cell,
                                                        Err(_) => start,
                                                    };
                                                    applied_stays(
                                                        known,
                                                        more,
                                                        vm.closures[k].1,
                                                        vm.tables[at],
                                                        start,
                                                        end,
                                                    );
                                                },
                                                Err(_) => {},
                                            }
                                        },
                                        None => {},
                                    }
                                }
                            },
                            _ => {},
                        }
                    },
                    None => {},
                }
            },
            None => {},
        }
    }
}

/// What the lines of a program do stays the same.
pub proof fn run_stays(
    known: Map<QueryModel, AnswerModel>,
    more: Map<QueryModel, AnswerModel>,
    kb: &KeyBoard<26, 6>,
    vm: VMModel,
)
    requires
        extends(more, known),
        !(run_effect(known, kb, vm).1 matches Err(HaltModel::Ask(_))),
    ensures
        run_effect(more, kb, vm) == run_effect(known, kb, vm),
    decreases vm.code.len() - vm.pointer,
{
    if vm.pointer < vm.code.len() {
        let out = line_effect(known, kb, vm);
        if out.1 == Ok::<EffectModel, HaltModel>(EffectModel::Nothing) && out.0.pointer
            > vm.pointer && out.0.pointer <= vm.code.len() && out.0.code == vm.code {
            line_stays(known, more, kb, vm);
            run_stays(known, more, kb, out.0);
        } else {
            line_stays(known, more, kb, vm);
        }
    }
}

} // verus!
