//! Closures: small programs of three parts that fold a postfix expression
//! over a rectangle of cells and leave the result in the table.

use crate::cell::{
    cell_of_text, cell_operation, cell_outcome, cell_views, number_cell, Cell, CellModel,
};
use crate::error::{ask, asking, Fault, Stop, StopModel};
use crate::numerics::{ceil_index, index_number, AnswerModel, Numerics, Operation, QueryModel};
use crate::table::{empties, Table, TableModel};
use crate::text::{
    chars_of, find_char, find_from, index_of_text, parse_index, slice_of, spells, split,
    split_on, split_words, string_of, trim, trimmed, views, words,
};
use vstd::prelude::*;

verus! {

/// The operation that a token of an expression names.
pub open spec fn operation_of(token: Seq<char>) -> Option<Operation> {
    if token == "+"@ {
        Some(Operation::Add)
    } else if token == "-"@ {
        Some(Operation::Subtract)
    } else if token == "*"@ {
        Some(Operation::Multiply)
    } else if token == "/"@ {
        Some(Operation::Divide)
    } else if token == "%"@ {
        Some(Operation::Mod)
    } else {
        None
    }
}

impl Operation {
    /// The result of the operation on two values, left and right.
    pub fn apply(&self, a: Cell, b: Cell, known: &Numerics) -> (r: Result<Cell, Stop>)
        ensures
            cell_outcome(r) == cell_operation(known@, *self, a@, b@),
    {
        match self {
            Operation::Add => ask(a.add(b, known)),
            Operation::Subtract => ask(a.sub(b, known)),
            Operation::Multiply => a.mul(b, known),
            Operation::Divide => a.div(b, known),
            Operation::Mod => a.rem(b, known),
        }
    }

    /// The operation that a token names: one of `+ - * / %`.
    pub fn from_str(s: &str) -> (r: Option<Operation>)
        ensures
            r == operation_of(s@),
    {
        let token = chars_of(s);
        operation(&token)
    }
}

fn operation(token: &Vec<char>) -> (r: Option<Operation>)
    ensures
        r == operation_of(token@),
{
    if spells(token, "+") {
        Some(Operation::Add)
    } else if spells(token, "-") {
        Some(Operation::Subtract)
    } else if spells(token, "*") {
        Some(Operation::Multiply)
    } else if spells(token, "/") {
        Some(Operation::Divide)
    } else if spells(token, "%") {
        Some(Operation::Mod)
    } else {
        None
    }
}

/// Whether a text starts with another.
pub open spec fn has_prefix(s: Seq<char>, p: Seq<char>) -> bool {
    s.len() >= p.len() && s.take(p.len() as int) == p
}

fn starts_with(s: &Vec<char>, prefix: &str) -> (r: (bool, usize))
    ensures
        r.0 == has_prefix(s@, prefix@),
        r.1 == prefix@.len(),
{
    let p = chars_of(prefix);
    if s.len() < p.len() {
        return (false, p.len());
    }
    let head = slice_of(s, 0, p.len());
    assert(s@.subrange(0, p.len() as int) == s@.take(p.len() as int));
    (spells(&head, prefix), p.len())
}

/// The cell that a token `~cell(i,j)` names: after the opening bracket, an
/// index, a comma, an index and the closing bracket.
pub open spec fn cell_reference(token: Seq<char>) -> Result<(usize, usize), Fault> {
    let inner = token.skip("~cell("@.len() as int);
    if inner.len() == 0 || inner.last() != ')' {
        Err(Fault::BadCellReference)
    } else {
        let body = inner.drop_last();
        let comma = find_from(body, ',', 0);
        if comma >= body.len() {
            Err(Fault::BadCellReference)
        } else {
            match (index_of_text(body.take(comma)), index_of_text(body.skip(comma + 1))) {
                (Some(i), Some(j)) => Ok((i, j)),
                _ => Err(Fault::BadCellReference),
            }
        }
    }
}

fn parse_reference(token: &Vec<char>, open: usize) -> (r: Result<(usize, usize), Fault>)
    requires
        open == "~cell("@.len(),
        open <= token.len(),
    ensures
        r == cell_reference(token@),
{
    let inner = slice_of(token, open, token.len());
    assert(inner@ == token@.skip(open as int));
    if inner.len() == 0 || inner[inner.len() - 1] != ')' {
        return Err(Fault::BadCellReference);
    }
    let body = slice_of(&inner, 0, inner.len() - 1);
    assert(body@ == inner@.drop_last());
    let comma = find_char(&body, ',', 0);
    if comma >= body.len() {
        return Err(Fault::BadCellReference);
    }
    let left = slice_of(&body, 0, comma);
    let right = slice_of(&body, comma + 1, body.len());
    assert(left@ == body@.take(comma as int));
    assert(right@ == body@.skip(comma + 1));
    match (parse_index(&left), parse_index(&right)) {
        (Some(i), Some(j)) => Ok((i, j)),
        _ => Err(Fault::BadCellReference),
    }
}

/// What an expression is evaluated in: the value that is kept, the cell
/// that the fold is at, and the table.
pub struct Scope {
    pub storage: CellModel,
    pub row: usize,
    pub col: usize,
    pub table: TableModel,
}

/// A cell of the table as an operand.
pub open spec fn table_cell(t: TableModel, row: int, col: int) -> Result<CellModel, StopModel> {
    match t.cell_at(row, col) {
        Ok(c) => Ok(c),
        Err(f) => Err(StopModel::Fail(f)),
    }
}

/// The stack with one more value.
pub open spec fn pushed(stack: Seq<CellModel>, r: Result<CellModel, StopModel>) -> Result<
    Seq<CellModel>,
    StopModel,
> {
    match r {
        Ok(c) => Ok(stack.push(c)),
        Err(e) => Err(e),
    }
}

/// What one token does to the stack. `~cell(i,j)` pushes the cell of row
/// `i` and column `j`; `~op` the value that is kept; `~cell` the cell that
/// the fold is at; `~cell.x` and `~cell.y` its row and its column as
/// numbers. An operation takes the right operand and then the left from the
/// stack, and pushes the result. Every other token pushes the value that it
/// writes.
pub open spec fn eval_token(
    known: Map<QueryModel, AnswerModel>,
    scope: Scope,
    token: Seq<char>,
    stack: Seq<CellModel>,
) -> Result<Seq<CellModel>, StopModel> {
    if has_prefix(token, "~cell("@) {
        match cell_reference(token) {
            Err(f) => Err(StopModel::Fail(f)),
            Ok((i, j)) => pushed(stack, table_cell(scope.table, i as int, j as int)),
        }
    } else if token == "~op"@ {
        Ok(stack.push(scope.storage))
    } else if token == "~cell"@ {
        pushed(stack, table_cell(scope.table, scope.row as int, scope.col as int))
    } else if token == "~cell.x"@ {
        pushed(stack, asking(number_cell(index_number(known, scope.row))))
    } else if token == "~cell.y"@ {
        pushed(stack, asking(number_cell(index_number(known, scope.col))))
    } else {
        match operation_of(token) {
            Some(op) => if stack.len() < 2 {
                Err(StopModel::Fail(Fault::NotEnoughOperands))
            } else {
                pushed(
                    stack.drop_last().drop_last(),
                    cell_operation(known, op, stack[stack.len() - 2], stack.last()),
                )
            },
            None => pushed(stack, asking(cell_of_text(known, token))),
        }
    }
}

/// What the tokens from `from` on do to the stack, one after the other.
pub open spec fn eval_tokens(
    known: Map<QueryModel, AnswerModel>,
    scope: Scope,
    tokens: Seq<Seq<char>>,
    from: int,
    stack: Seq<CellModel>,
) -> Result<Seq<CellModel>, StopModel>
    decreases tokens.len() - from,
{
    if from < 0 || from >= tokens.len() {
        Ok(stack)
    } else {
        match eval_token(known, scope, tokens[from], stack) {
            Err(e) => Err(e),
            Ok(next) => eval_tokens(known, scope, tokens, from + 1, next),
        }
    }
}

/// The value of a postfix expression: its words, from left to right, work on
/// a stack that starts empty. What is left on the stack at the end is the
/// value; nothing left is the empty cell; more than one value left fails.
pub open spec fn evaluated(
    known: Map<QueryModel, AnswerModel>,
    scope: Scope,
    expression: Seq<char>,
) -> Result<CellModel, StopModel> {
    match eval_tokens(known, scope, words(expression), 0, Seq::empty()) {
        Err(e) => Err(e),
        Ok(stack) => if stack.len() > 1 {
            Err(StopModel::Fail(Fault::TooManyValues))
        } else if stack.len() == 1 {
            Ok(stack[0])
        } else {
            Ok(CellModel::Empty)
        },
    }
}

fn fetch(table: &Table, row: usize, col: usize) -> (r: Result<Cell, Stop>)
    ensures
        cell_outcome(r) == table_cell(table@, row as int, col as int),
{
    match table.get_cell(row, col) {
        Ok(c) => Ok(c.clone()),
        Err(f) => Err(Stop::Fail(f)),
    }
}

fn index_cell(known: &Numerics, i: usize) -> (r: Result<Cell, Stop>)
    ensures
        cell_outcome(r) == asking(number_cell(index_number(known@, i))),
{
    match known.index_number(i) {
        Ok(n) => Ok(Cell::Number(n)),
        Err(q) => Err(Stop::Ask(q)),
    }
}

/// What one token does to the stack. Where it stops, the stack is of no
/// more use.
fn step(
    stack: &mut Vec<Cell>,
    token: &Vec<char>,
    storage_cell: &Cell,
    at: (usize, usize),
    table: &Table,
    known: &Numerics,
) -> (r: Result<(), Stop>)
    ensures
        match r {
            Ok(()) => eval_token(
                known@,
                Scope { storage: storage_cell@, row: at.0, col: at.1, table: table@ },
                token@,
                cell_views(old(stack)@),
            ) == Ok::<Seq<CellModel>, StopModel>(cell_views(final(stack)@)),
            Err(e) => eval_token(
                known@,
                Scope { storage: storage_cell@, row: at.0, col: at.1, table: table@ },
                token@,
                cell_views(old(stack)@),
            ) == Err::<Seq<CellModel>, StopModel>(e@),
        },
{
    let ghost start = cell_views(stack@);
    let (referring, open) = starts_with(token, "~cell(");
    let value = if referring {
        match parse_reference(token, open) {
            Err(f) => {
                return Err(Stop::Fail(f));
            },
            Ok((i, j)) => fetch(table, i, j)?,
        }
    } else if spells(token, "~op") {
        storage_cell.clone()
    } else if spells(token, "~cell") {
        fetch(table, at.0, at.1)?
    } else if spells(token, "~cell.x") {
        index_cell(known, at.0)?
    } else if spells(token, "~cell.y") {
        index_cell(known, at.1)?
    } else {
        match operation(token) {
            Some(op) => {
                if stack.len() < 2 {
                    return Err(Stop::Fail(Fault::NotEnoughOperands));
                }
                let b = stack.pop().unwrap();
                let a = stack.pop().unwrap();
                assert(cell_views(stack@) =~= start.drop_last().drop_last());
                assert(a@ == start[start.len() - 2]);
                assert(b@ == start.last());
                op.apply(a, b, known)?
            },
            None => {
                let literal = string_of(token);
                ask(Cell::from_str(literal.as_str(), known))?
            },
        }
    };
    let ghost before = stack@;
    stack.push(value);
    assert(cell_views(stack@) =~= cell_views(before).push(value@));
    Ok(())
}

/// The running value of a closure, with the registers and the accumulator
/// that its prescript sets up.
pub struct FunctionExecutor<'a> {
    pub closure: &'a TableClosure,
    pub registers: Vec<Cell>,
    pub accumulator: Option<(usize, usize)>,
}

/// A closure: the three parts of its definition.
#[derive(Debug)]
pub struct TableClosure {
    pub prescript: String,
    pub script: String,
    pub postscript: String,
}

impl FunctionExecutor<'_> {
    /// The value of a postfix expression, with `storage_cell` as the value
    /// that is kept and `at` as the cell that the fold is at.
    pub fn do_arithmetic(
        &self,
        raw_input: &str,
        storage_cell: &Cell,
        at: (usize, usize),
        table: &Table,
        known: &Numerics,
    ) -> (r: Result<Cell, Stop>)
        ensures
            cell_outcome(r) == evaluated(
                known@,
                Scope { storage: storage_cell@, row: at.0, col: at.1, table: table@ },
                raw_input@,
            ),
    {
        let chars = chars_of(raw_input);
        let tokens = split_words(&chars);
        evaluate(&tokens, storage_cell, at, table, known)
    }
}

/// The value of the postfix expression that the tokens make.
pub fn evaluate(
    tokens: &Vec<Vec<char>>,
    storage_cell: &Cell,
    at: (usize, usize),
    table: &Table,
    known: &Numerics,
) -> (r: Result<Cell, Stop>)
    ensures
        cell_outcome(r) == (match eval_tokens(
            known@,
            Scope { storage: storage_cell@, row: at.0, col: at.1, table: table@ },
            views(tokens@),
            0,
            Seq::empty(),
        ) {
            Err(e) => Err(e),
            Ok(stack) => if stack.len() > 1 {
                Err(StopModel::Fail(Fault::TooManyValues))
            } else if stack.len() == 1 {
                Ok(stack[0])
            } else {
                Ok(CellModel::Empty)
            },
        }),
{
    let ghost scope = Scope { storage: storage_cell@, row: at.0, col: at.1, table: table@ };
    let ghost all = views(tokens@);
    let mut stack: Vec<Cell> = Vec::new();
    let mut i: usize = 0;
    assert(cell_views(stack@) =~= Seq::<CellModel>::empty());
    while i < tokens.len()
        invariant
            i <= tokens.len(),
            all == views(tokens@),
            scope == (Scope { storage: storage_cell@, row: at.0, col: at.1, table: table@ }),
            eval_tokens(known@, scope, all, 0, Seq::empty()) == eval_tokens(
                known@,
                scope,
                all,
                i as int,
                cell_views(stack@),
            ),
        decreases tokens.len() - i,
    {
        assert(all[i as int] == tokens@[i as int]@);
        match step(&mut stack, &tokens[i], storage_cell, at, table, known) {
            Err(e) => {
                return Err(e);
            },
            Ok(()) => {},
        }
        i += 1;
    }
    if stack.len() > 1 {
        return Err(Stop::Fail(Fault::TooManyValues));
    }
    match stack.pop() {
        Some(c) => Ok(c),
        None => Ok(Cell::Empty),
    }
}

/// What a closure is: the three parts of its definition.
pub struct ClosureModel {
    pub prescript: Seq<char>,
    pub script: Seq<char>,
    pub postscript: Seq<char>,
}

impl View for TableClosure {
    type V = ClosureModel;

    open spec fn view(&self) -> ClosureModel {
        ClosureModel {
            prescript: self.prescript@,
            script: self.script@,
            postscript: self.postscript@,
        }
    }
}

/// The parts of a definition: what stands before the first `;`, between the
/// first and the second, and between the second and the third or the end.
pub open spec fn closure_of(definition: Seq<char>) -> Result<ClosureModel, Fault> {
    let parts = split_on(definition, ';');
    if parts.len() < 3 {
        Err(Fault::BadDefinition)
    } else {
        Ok(ClosureModel { prescript: parts[0], script: parts[1], postscript: parts[2] })
    }
}

/// The state of a closure that runs: its registers, the cell that its
/// accumulator is bound to, and the table.
pub struct Machine {
    pub registers: Seq<CellModel>,
    pub accumulator: Option<(usize, usize)>,
    pub table: TableModel,
}

/// The table with rows of empty cells added until it has `rows` rows.
pub open spec fn grown(t: TableModel, rows: nat) -> TableModel
    decreases rows - t.rows.len(),
{
    if t.rows.len() >= rows {
        t
    } else {
        grown(t.with_row(empties(t.headers.len())), rows)
    }
}

/// The cell that a pair of expressions names as the accumulator: the values
/// of the two, which must be numbers, each raised to the next index.
pub open spec fn address(
    known: Map<QueryModel, AnswerModel>,
    table: TableModel,
    word: Seq<char>,
    start: (usize, usize),
    end: (usize, usize),
) -> Result<(usize, usize), StopModel> {
    let comma = find_from(word, ',', 0);
    if comma >= word.len() {
        Err(StopModel::Fail(Fault::BadAccumulator))
    } else if end.0 == usize::MAX {
        Err(StopModel::Fail(Fault::RangeOutOfBounds))
    } else {
        match evaluated(
            known,
            Scope { storage: CellModel::Empty, row: (end.0 + 1) as usize, col: end.1, table },
            word.take(comma),
        ) {
            Err(e) => Err(e),
            Ok(x) => match evaluated(
                known,
                Scope { storage: CellModel::Empty, row: start.0, col: start.1, table },
                word.skip(comma + 1),
            ) {
                Err(e) => Err(e),
                Ok(y) => match (x, y) {
                    (CellModel::Number(a), CellModel::Number(b)) => match ceil_index(known, a) {
                        Err(q) => Err(StopModel::Ask(q)),
                        Ok(i) => match ceil_index(known, b) {
                            Err(q) => Err(StopModel::Ask(q)),
                            Ok(j) => Ok((i, j)),
                        },
                    },
                    _ => Err(StopModel::Fail(Fault::BadAccumulator)),
                },
            },
        }
    }
}

/// What the words of a prescript do, from the word at `from` on. `auto`
/// binds the accumulator to the cell one row below the end of the range, in
/// the column where the range starts, and adds one row of empty cells
/// where the table does not hold that cell. `reg` and a number allocate as
/// many empty registers. Every other word is a pair of expressions, which
/// name the cell of the accumulator; rows are added until the table has
/// that row.
pub open spec fn prescript_from(
    known: Map<QueryModel, AnswerModel>,
    m: Machine,
    tokens: Seq<Seq<char>>,
    from: int,
    start: (usize, usize),
    end: (usize, usize),
) -> (Machine, Option<StopModel>)
    decreases tokens.len() - from,
{
    if from < 0 || from >= tokens.len() {
        (m, None)
    } else {
        let word = trimmed(tokens[from]);
        if word == "auto"@ {
            if end.0 == usize::MAX {
                (m, Some(StopModel::Fail(Fault::RangeOutOfBounds)))
            } else {
                let out = ((end.0 + 1) as usize, start.1);
                let table = if out.0 >= m.table.rows.len() || out.1 >= m.table.headers.len() {
                    m.table.with_row(empties(m.table.headers.len()))
                } else {
                    m.table
                };
                prescript_from(
                    known,
                    Machine { accumulator: Some(out), table, ..m },
                    tokens,
                    from + 1,
                    start,
                    end,
                )
            }
        } else if word == "reg"@ {
            if from + 1 >= tokens.len() {
                (m, Some(StopModel::Fail(Fault::RegisterNotSpecified)))
            } else {
                match index_of_text(tokens[from + 1]) {
                    None => (m, Some(StopModel::Fail(Fault::RegisterNotSpecified))),
                    Some(n) => prescript_from(
                        known,
                        Machine { registers: empties(n as nat), ..m },
                        tokens,
                        from + 2,
                        start,
                        end,
                    ),
                }
            }
        } else {
            match address(known, m.table, word, start, end) {
                Err(stop) => (m, Some(stop)),
                Ok(out) => if out.0 == usize::MAX {
                    (m, Some(StopModel::Fail(Fault::RowOutOfBounds)))
                } else {
                    prescript_from(
                        known,
                        Machine {
                            accumulator: Some(out),
                            table: grown(m.table, (out.0 + 1) as nat),
                            ..m
                        },
                        tokens,
                        from + 1,
                        start,
                        end,
                    )
                },
            }
        }
    }
}

/// The value that a command of a script takes from the place that the
/// words from `from` on name, which is left empty: `acc` is the cell of the
/// accumulator, `reg` and a number is a register. With the value come the
/// state after it was taken and the place of the next word.
pub open spec fn storage_taken(m: Machine, tokens: Seq<Seq<char>>, from: int) -> Result<
    (Machine, CellModel, int),
    Fault,
> {
    if from < 0 || from >= tokens.len() {
        Err(Fault::StorageNotSpecified)
    } else {
        let word = trimmed(tokens[from]);
        if word == "acc"@ {
            match m.accumulator {
                None => Err(Fault::AccumulatorNotDefined),
                Some((x, y)) => match m.table.cell_at(x as int, y as int) {
                    Err(f) => Err(f),
                    Ok(c) => Ok(
                        (
                            Machine {
                                table: m.table.with_cell(x as int, y as int, CellModel::Empty),
                                ..m
                            },
                            c,
                            from + 1,
                        ),
                    ),
                },
            }
        } else if word == "reg"@ {
            if from + 1 >= tokens.len() {
                Err(Fault::RegisterNotSpecified)
            } else {
                match index_of_text(tokens[from + 1]) {
                    None => Err(Fault::RegisterNotSpecified),
                    Some(id) => if id >= m.registers.len() {
                        Err(Fault::RegisterOutOfRange)
                    } else {
                        Ok(
                            (
                                Machine {
                                    registers: m.registers.update(id as int, CellModel::Empty),
                                    ..m
                                },
                                m.registers[id as int],
                                from + 2,
                            ),
                        )
                    },
                }
            }
        } else {
            Err(Fault::InvalidStorage)
        }
    }
}

/// The fold of an expression over the cells of a row from column `col` to
/// column `last`: the value of the expression at each cell becomes the
/// value that is kept at the next.
pub open spec fn fold_row(
    known: Map<QueryModel, AnswerModel>,
    table: TableModel,
    expression: Seq<char>,
    storage: CellModel,
    row: usize,
    col: int,
    last: usize,
) -> Result<CellModel, StopModel>
    decreases last - col + 1,
{
    if col < 0 || col > last {
        Ok(storage)
    } else {
        match evaluated(known, Scope { storage, row, col: col as usize, table }, expression) {
            Err(e) => Err(e),
            Ok(v) => fold_row(known, table, expression, v, row, col + 1, last),
        }
    }
}

/// The fold of an expression over the rows from `row` to `last_row`, each
/// from column `first_col` to column `last_col`.
pub open spec fn fold_rows(
    known: Map<QueryModel, AnswerModel>,
    table: TableModel,
    expression: Seq<char>,
    storage: CellModel,
    row: int,
    last_row: usize,
    first_col: usize,
    last_col: usize,
) -> Result<CellModel, StopModel>
    decreases last_row - row + 1,
{
    if row < 0 || row > last_row {
        Ok(storage)
    } else {
        match fold_row(known, table, expression, storage, row as usize, first_col as int, last_col) {
            Err(e) => Err(e),
            Ok(v) => fold_rows(
                known,
                table,
                expression,
                v,
                row + 1,
                last_row,
                first_col,
                last_col,
            ),
        }
    }
}

/// The state after a closure has ended: no registers, no accumulator.
pub open spec fn destroyed(m: Machine) -> Machine {
    Machine { registers: Seq::empty(), accumulator: None, table: m.table }
}

/// What a script does. Its parts stand between `!`. The first is the
/// command: `each` folds the expression over the range, row by row and in
/// each row column by column; `raw` evaluates it once, at the cell where the
/// range starts. Then comes the place of the value that is kept, then the
/// expression. The result goes to the cell of the accumulator, where one is
/// bound, and the closure ends.
pub open spec fn script_run(
    known: Map<QueryModel, AnswerModel>,
    m: Machine,
    script: Seq<char>,
    start: (usize, usize),
    end: (usize, usize),
) -> (Machine, Option<StopModel>) {
    let tokens = split_on(script, '!');
    let word = trimmed(tokens[0]);
    if word == "each"@ || word == "raw"@ {
        match storage_taken(m, tokens, 1) {
            Err(f) => (m, Some(StopModel::Fail(f))),
            Ok((taken, held, next)) => if next >= tokens.len() {
                (taken, Some(StopModel::Fail(Fault::NoExpression)))
            } else {
                let value = if word == "each"@ {
                    fold_rows(
                        known,
                        taken.table,
                        tokens[next],
                        held,
                        start.0 as int,
                        end.0,
                        start.1,
                        end.1,
                    )
                } else {
                    evaluated(
                        known,
                        Scope { storage: held, row: start.0, col: start.1, table: taken.table },
                        tokens[next],
                    )
                };
                match value {
                    Err(e) => (taken, Some(e)),
                    Ok(v) => match taken.accumulator {
                        None => (destroyed(taken), None),
                        Some((x, y)) => match taken.table.cell_at(x as int, y as int) {
                            Err(f) => (taken, Some(StopModel::Fail(f))),
                            Ok(_) => (
                                destroyed(
                                    Machine {
                                        table: taken.table.with_cell(x as int, y as int, v),
                                        ..taken
                                    },
                                ),
                                None,
                            ),
                        },
                    },
                }
            },
        }
    } else {
        (m, Some(StopModel::Fail(Fault::InvalidCommand)))
    }
}

/// Whether the size of a table comes before a cell, rows before columns.
pub open spec fn comes_before(rows: nat, cols: nat, cell: (usize, usize)) -> bool {
    rows < cell.0 || (rows == cell.0 && cols < cell.1)
}

/// What a closure does to a state, applied to the range from `start` to
/// `end`: where the size of the table comes before neither, the prescript
/// and then the script.
pub open spec fn ran(
    known: Map<QueryModel, AnswerModel>,
    m: Machine,
    closure: ClosureModel,
    start: (usize, usize),
    end: (usize, usize),
) -> (Machine, Option<StopModel>) {
    if comes_before(m.table.rows.len(), m.table.headers.len(), start) || comes_before(
        m.table.rows.len(),
        m.table.headers.len(),
        end,
    ) {
        (m, Some(StopModel::Fail(Fault::RangeOutOfBounds)))
    } else {
        let (ready, stop) = prescript_from(
            known,
            m,
            split_on(closure.prescript, '!'),
            0,
            start,
            end,
        );
        if stop is Some {
            (ready, stop)
        } else {
            script_run(known, ready, closure.script, start, end)
        }
    }
}

/// What applying a closure does to a table, and how it ends. Where it stops
/// with a question, the table is as it was; where it fails, the table is as
/// the failure left it.
pub open spec fn applied(
    known: Map<QueryModel, AnswerModel>,
    closure: ClosureModel,
    table: TableModel,
    start: (usize, usize),
    end: (usize, usize),
) -> (TableModel, Option<StopModel>) {
    let (m, stop) = ran(
        known,
        Machine { registers: Seq::empty(), accumulator: None, table },
        closure,
        start,
        end,
    );
    match stop {
        Some(StopModel::Ask(q)) => (table, stop),
        _ => (m.table, stop),
    }
}

/// How an operation ended, as a stop or none.
pub open spec fn stop_of(r: Result<(), Stop>) -> Option<StopModel> {
    match r {
        Ok(()) => None,
        Err(s) => Some(s@),
    }
}

impl TableClosure {
    /// The closure of a definition, whose parts stand between `;`. What
    /// comes after a third `;` is left out. A definition with fewer than
    /// three parts is none.
    pub fn new(defination: String) -> (r: Result<TableClosure, Fault>)
        ensures
            match r {
                Ok(c) => closure_of(defination@) == Ok::<ClosureModel, Fault>(c@),
                Err(f) => closure_of(defination@) == Err::<ClosureModel, Fault>(f),
            },
    {
        let chars = chars_of(defination.as_str());
        let components = split(&chars, ';');
        if components.len() < 3 {
            return Err(Fault::BadDefinition);
        }
        assert(views(components@)[0] == components@[0]@);
        assert(views(components@)[1] == components@[1]@);
        assert(views(components@)[2] == components@[2]@);
        Ok(
            TableClosure {
                prescript: string_of(&components[0]),
                script: string_of(&components[1]),
                postscript: string_of(&components[2]),
            },
        )
    }

    /// Applies the closure to the range of cells from `cell_start` to
    /// `cell_end` of a table.
    pub fn apply(
        &self,
        table: &mut Table,
        cell_start: (usize, usize),
        cell_end: (usize, usize),
        known: &Numerics,
    ) -> (r: Result<(), Stop>)
        ensures
            (final(table)@, stop_of(r)) == applied(
                known@,
                self@,
                old(table)@,
                cell_start,
                cell_end,
            ),
    {
        let mut executor = FunctionExecutor {
            closure: self,
            registers: Vec::new(),
            accumulator: None,
        };
        assert(cell_views(executor.registers@) =~= Seq::<CellModel>::empty());
        executor.apply(table, cell_start, cell_end, known)
    }
}

/// Adds rows of empty cells until the table has `rows` rows.
fn grow(table: &mut Table, rows: usize)
    ensures
        final(table)@ == grown(old(table)@, rows as nat),
{
    while table.dimensions().0 < rows
        invariant
            grown(table@, rows as nat) == grown(old(table)@, rows as nat),
        decreases rows - table@.rows.len(),
    {
        table.create_empty_row();
    }
}

/// Takes the value of a cell, which is left empty.
fn take_cell(table: &mut Table, row: usize, col: usize) -> (r: Result<Cell, Fault>)
    ensures
        match r {
            Ok(c) => old(table)@.cell_at(row as int, col as int) == Ok::<CellModel, Fault>(c@)
                && final(table)@ == old(table)@.with_cell(row as int, col as int, CellModel::Empty),
            Err(f) => old(table)@.cell_at(row as int, col as int) == Err::<CellModel, Fault>(f)
                && final(table)@ == old(table)@,
        },
{
    match table.get_cell_mut(row, col) {
        Err(f) => Err(f),
        Ok(cell) => {
            let mut held = Cell::Empty;
            std::mem::swap(cell, &mut held);
            Ok(held)
        },
    }
}

/// Puts a value into a cell.
fn put_cell(table: &mut Table, row: usize, col: usize, value: Cell) -> (r: Result<(), Fault>)
    ensures
        match r {
            Ok(()) => old(table)@.cell_at(row as int, col as int) is Ok && final(table)@ == old(
                table,
            )@.with_cell(row as int, col as int, value@),
            Err(f) => old(table)@.cell_at(row as int, col as int) == Err::<CellModel, Fault>(f)
                && final(table)@ == old(table)@,
        },
{
    match table.get_cell_mut(row, col) {
        Err(f) => Err(f),
        Ok(cell) => {
            *cell = value;
            Ok(())
        },
    }
}

impl<'a> FunctionExecutor<'a> {
    /// The state of the closure with a table.
    pub open spec fn machine(&self, table: TableModel) -> Machine {
        Machine {
            registers: cell_views(self.registers@),
            accumulator: self.accumulator,
            table,
        }
    }

    /// Ends the closure: no registers, no accumulator.
    pub fn destroy(&mut self)
        ensures
            final(self).closure == old(self).closure,
            final(self).registers@.len() == 0,
            final(self).accumulator is None,
    {
        self.registers.clear();
        self.accumulator = None;
    }

    /// The postscript ends the closure.
    pub fn apply_postscript(
        &mut self,
        table: &mut Table,
        cell_start: (usize, usize),
        cell_end: (usize, usize),
    ) -> (r: Result<(), Stop>)
        ensures
            r is Ok,
            final(table)@ == old(table)@,
            final(self).closure == old(self).closure,
            final(self).machine(final(table)@) == destroyed(old(self).machine(old(table)@)),
    {
        self.destroy();
        assert(cell_views(self.registers@) =~= Seq::<CellModel>::empty());
        Ok(())
    }

    /// The cell that a pair of expressions names as the accumulator.
    fn locate(
        &self,
        word: &Vec<char>,
        table: &Table,
        cell_start: (usize, usize),
        cell_end: (usize, usize),
        known: &Numerics,
    ) -> (r: Result<(usize, usize), Stop>)
        ensures
            match r {
                Ok(out) => address(known@, table@, word@, cell_start, cell_end) == Ok::<
                    (usize, usize),
                    StopModel,
                >(out),
                Err(e) => address(known@, table@, word@, cell_start, cell_end) == Err::<
                    (usize, usize),
                    StopModel,
                >(e@),
            },
    {
        let comma = find_char(word, ',', 0);
        if comma >= word.len() {
            return Err(Stop::Fail(Fault::BadAccumulator));
        }
        if cell_end.0 == usize::MAX {
            return Err(Stop::Fail(Fault::RangeOutOfBounds));
        }
        let left = slice_of(word, 0, comma);
        let right = slice_of(word, comma + 1, word.len());
        assert(left@ == word@.take(comma as int));
        assert(right@ == word@.skip(comma + 1));
        let temp_cell = Cell::Empty;
        let left_tokens = split_words(&left);
        let right_tokens = split_words(&right);
        let acc_i = evaluate(&left_tokens, &temp_cell, (cell_end.0 + 1, cell_end.1), table, known)?;
        let acc_j = evaluate(&right_tokens, &temp_cell, (cell_start.0, cell_start.1), table, known)?;
        match (acc_i, acc_j) {
            (Cell::Number(x), Cell::Number(y)) => {
                let i = ask(known.ceil_index(x))?;
                let j = ask(known.ceil_index(y))?;
                Ok((i, j))
            },
            _ => Err(Stop::Fail(Fault::BadAccumulator)),
        }
    }

    /// Runs the prescript: it binds the accumulator and allocates the
    /// registers.
    pub fn apply_prescript(
        &mut self,
        table: &mut Table,
        cell_start: (usize, usize),
        cell_end: (usize, usize),
        known: &Numerics,
    ) -> (r: Result<(), Stop>)
        ensures
            final(self).closure == old(self).closure,
            (final(self).machine(final(table)@), stop_of(r)) == prescript_from(
                known@,
                old(self).machine(old(table)@),
                split_on(old(self).closure@.prescript, '!'),
                0,
                cell_start,
                cell_end,
            ),
    {
        let script = chars_of(self.closure.prescript.as_str());
        let reader = split(&script, '!');
        let ghost tokens = views(reader@);
        let ghost first = self.machine(table@);
        let mut i: usize = 0;
        while i < reader.len()
            invariant
                i <= reader.len(),
                tokens == views(reader@),
                tokens == split_on(old(self).closure@.prescript, '!'),
                first == old(self).machine(old(table)@),
                self.closure == old(self).closure,
                prescript_from(known@, first, tokens, 0, cell_start, cell_end) == prescript_from(
                    known@,
                    self.machine(table@),
                    tokens,
                    i as int,
                    cell_start,
                    cell_end,
                ),
            decreases reader.len() - i,
        {
            assert(tokens[i as int] == reader@[i as int]@);
            let acc = trim(&reader[i]);
            if spells(&acc, "auto") {
                if cell_end.0 == usize::MAX {
                    return Err(Stop::Fail(Fault::RangeOutOfBounds));
                }
                let output_cell = (cell_end.0 + 1, cell_start.1);
                self.accumulator = Some(output_cell);
                let dimensions = table.dimensions();
                if output_cell.0 >= dimensions.0 || output_cell.1 >= dimensions.1 {
                    table.create_empty_row();
                }
                i += 1;
            } else if spells(&acc, "reg") {
                if i + 1 >= reader.len() {
                    return Err(Stop::Fail(Fault::RegisterNotSpecified));
                }
                assert(tokens[i + 1] == reader@[i + 1]@);
                match parse_index(&reader[i + 1]) {
                    None => {
                        return Err(Stop::Fail(Fault::RegisterNotSpecified));
                    },
                    Some(reg_count) => {
                        self.registers = crate::table::Row::new(reg_count).cells;
                    },
                }
                i += 2;
            } else {
                let output_cell = self.locate(&acc, table, cell_start, cell_end, known)?;
                if output_cell.0 == usize::MAX {
                    return Err(Stop::Fail(Fault::RowOutOfBounds));
                }
                self.accumulator = Some(output_cell);
                grow(table, output_cell.0 + 1);
                i += 1;
            }
        }
        Ok(())
    }

    /// Takes the value of the place that the parts of the script from `from`
    /// on name, and gives the place of the next part with it.
    fn take_storage(&mut self, table: &mut Table, reader: &Vec<Vec<char>>, from: usize) -> (r:
        Result<(Cell, usize), Fault>)
        ensures
            final(self).closure == old(self).closure,
            match r {
                Ok((held, next)) => storage_taken(
                    old(self).machine(old(table)@),
                    views(reader@),
                    from as int,
                ) == Ok::<(Machine, CellModel, int), Fault>(
                    (final(self).machine(final(table)@), held@, next as int),
                ) && next <= reader@.len(),
                Err(f) => storage_taken(
                    old(self).machine(old(table)@),
                    views(reader@),
                    from as int,
                ) == Err::<(Machine, CellModel, int), Fault>(f) && final(self).machine(
                    final(table)@,
                ) == old(self).machine(old(table)@),
            },
    {
        if from >= reader.len() {
            return Err(Fault::StorageNotSpecified);
        }
        assert(views(reader@)[from as int] == reader@[from as int]@);
        let storage = trim(&reader[from]);
        if spells(&storage, "acc") {
            match self.accumulator {
                None => Err(Fault::AccumulatorNotDefined),
                Some(acc) => {
                    let held = take_cell(table, acc.0, acc.1)?;
                    Ok((held, from + 1))
                },
            }
        } else if spells(&storage, "reg") {
            if from + 1 >= reader.len() {
                return Err(Fault::RegisterNotSpecified);
            }
            assert(views(reader@)[from + 1] == reader@[from + 1]@);
            match parse_index(&reader[from + 1]) {
                None => Err(Fault::RegisterNotSpecified),
                Some(reg_id) => {
                    if reg_id >= self.registers.len() {
                        return Err(Fault::RegisterOutOfRange);
                    }
                    let held = self.registers[reg_id].clone();
                    let ghost before = self.registers@;
                    self.registers.set(reg_id, Cell::Empty);
                    assert(cell_views(self.registers@) =~= cell_views(before).update(
                        reg_id as int,
                        CellModel::Empty,
                    ));
                    Ok((held, from + 2))
                },
            }
        } else {
            Err(Fault::InvalidStorage)
        }
    }

    /// Folds an expression over the range from `cell_start` to `cell_end`.
    fn fold(
        &self,
        tokens: &Vec<Vec<char>>,
        storage_cell: Cell,
        cell_start: (usize, usize),
        cell_end: (usize, usize),
        table: &Table,
        known: &Numerics,
        Ghost(expression): Ghost<Seq<char>>,
    ) -> (r: Result<Cell, Stop>)
        requires
            views(tokens@) == words(expression),
        ensures
            cell_outcome(r) == fold_rows(
                known@,
                table@,
                expression,
                storage_cell@,
                cell_start.0 as int,
                cell_end.0,
                cell_start.1,
                cell_end.1,
            ),
    {
        let mut held_cell = storage_cell.clone();
        let ghost whole = fold_rows(
            known@,
            table@,
            expression,
            storage_cell@,
            cell_start.0 as int,
            cell_end.0,
            cell_start.1,
            cell_end.1,
        );
        if cell_start.0 > cell_end.0 {
            return Ok(held_cell);
        }
        let mut cell_i: usize = cell_start.0;
        loop
            invariant_except_break
                cell_start.0 <= cell_i <= cell_end.0,
                whole == fold_rows(
                    known@,
                    table@,
                    expression,
                    held_cell@,
                    cell_i as int,
                    cell_end.0,
                    cell_start.1,
                    cell_end.1,
                ),
            invariant
                views(tokens@) == words(expression),
                whole == fold_rows(
                    known@,
                    table@,
                    expression,
                    storage_cell@,
                    cell_start.0 as int,
                    cell_end.0,
                    cell_start.1,
                    cell_end.1,
                ),
            ensures
                whole == Ok::<CellModel, StopModel>(held_cell@),
            decreases cell_end.0 - cell_i,
        {
            let ghost row_start = held_cell@;
            let ghost row_whole = fold_row(
                known@,
                table@,
                expression,
                row_start,
                cell_i,
                cell_start.1 as int,
                cell_end.1,
            );
            if cell_start.1 <= cell_end.1 {
                let mut cell_j: usize = cell_start.1;
                loop
                    invariant_except_break
                        cell_start.1 <= cell_j <= cell_end.1,
                        row_whole == fold_row(
                            known@,
                            table@,
                            expression,
                            held_cell@,
                            cell_i,
                            cell_j as int,
                            cell_end.1,
                        ),
                    invariant
                        views(tokens@) == words(expression),
                        whole == fold_rows(
                            known@,
                            table@,
                            expression,
                            storage_cell@,
                            cell_start.0 as int,
                            cell_end.0,
                            cell_start.1,
                            cell_end.1,
                        ),
                        cell_start.0 <= cell_i <= cell_end.0,
                        whole == fold_rows(
                            known@,
                            table@,
                            expression,
                            row_start,
                            cell_i as int,
                            cell_end.0,
                            cell_start.1,
                            cell_end.1,
                        ),
                        row_whole == fold_row(
                            known@,
                            table@,
                            expression,
                            row_start,
                            cell_i,
                            cell_start.1 as int,
                            cell_end.1,
                        ),
                    ensures
                        row_whole == Ok::<CellModel, StopModel>(held_cell@),
                    decreases cell_end.1 - cell_j,
                {
                    let ghost held = held_cell@;
                    assert(row_whole == (match evaluated(
                        known@,
                        Scope { storage: held, row: cell_i, col: cell_j, table: table@ },
                        expression,
                    ) {
                        Err(e) => Err(e),
                        Ok(v) => fold_row(
                            known@,
                            table@,
                            expression,
                            v,
                            cell_i,
                            cell_j + 1,
                            cell_end.1,
                        ),
                    }));
                    match evaluate(tokens, &held_cell, (cell_i, cell_j), table, known) {
                        Err(e) => {
                            assert(whole == (match row_whole {
                                Err(e) => Err(e),
                                Ok(v) => fold_rows(
                                    known@,
                                    table@,
                                    expression,
                                    v,
                                    cell_i + 1,
                                    cell_end.0,
                                    cell_start.1,
                                    cell_end.1,
                                ),
                            }));
                            return Err(e);
                        },
                        Ok(v) => {
                            held_cell = v;
                        },
                    }
                    if cell_j == cell_end.1 {
                        assert(fold_row(
                            known@,
                            table@,
                            expression,
                            held_cell@,
                            cell_i,
                            cell_j + 1,
                            cell_end.1,
                        ) == Ok::<CellModel, StopModel>(held_cell@));
                        break;
                    }
                    cell_j += 1;
                }
            }
            assert(whole == fold_rows(
                known@,
                table@,
                expression,
                held_cell@,
                cell_i + 1,
                cell_end.0,
                cell_start.1,
                cell_end.1,
            ));
            if cell_i == cell_end.0 {
                assert(fold_rows(
                    known@,
                    table@,
                    expression,
                    held_cell@,
                    cell_i + 1,
                    cell_end.0,
                    cell_start.1,
                    cell_end.1,
                ) == Ok::<CellModel, StopModel>(held_cell@));
                break;
            }
            cell_i += 1;
        }
        Ok(held_cell)
    }

    /// Runs the closure on a table: the prescript, then the script.
    fn run(
        &mut self,
        table: &mut Table,
        cell_start: (usize, usize),
        cell_end: (usize, usize),
        known: &Numerics,
    ) -> (r: Result<(), Stop>)
        ensures
            final(self).closure == old(self).closure,
            (final(self).machine(final(table)@), stop_of(r)) == ran(
                known@,
                old(self).machine(old(table)@),
                old(self).closure@,
                cell_start,
                cell_end,
            ),
    {
        let dimensions = table.dimensions();
        if dimensions.0 < cell_start.0 || (dimensions.0 == cell_start.0 && dimensions.1
            < cell_start.1) || dimensions.0 < cell_end.0 || (dimensions.0 == cell_end.0
            && dimensions.1 < cell_end.1) {
            return Err(Stop::Fail(Fault::RangeOutOfBounds));
        }
        self.apply_prescript(table, cell_start, cell_end, known)?;
        let script = chars_of(self.closure.script.as_str());
        let reader = split(&script, '!');
        assert(views(reader@)[0] == reader@[0]@);
        let token = trim(&reader[0]);
        let each = spells(&token, "each");
        if !each && !spells(&token, "raw") {
            return Err(Stop::Fail(Fault::InvalidCommand));
        }
        let (storage_cell, next) = match self.take_storage(table, &reader, 1) {
            Ok(taken) => taken,
            Err(f) => {
                return Err(Stop::Fail(f));
            },
        };
        if next >= reader.len() {
            return Err(Stop::Fail(Fault::NoExpression));
        }
        assert(views(reader@)[next as int] == reader@[next as int]@);
        let tokens = split_words(&reader[next]);
        let value = if each {
            self.fold(
                &tokens,
                storage_cell,
                cell_start,
                cell_end,
                table,
                known,
                Ghost(reader@[next as int]@),
            )?
        } else {
            evaluate(&tokens, &storage_cell, (cell_start.0, cell_start.1), table, known)?
        };
        if let Some((x, y)) = self.accumulator {
            match put_cell(table, x, y, value) {
                Ok(()) => {},
                Err(f) => {
                    return Err(Stop::Fail(f));
                },
            }
        }
        self.apply_postscript(table, cell_start, cell_end)
    }

    /// Applies the closure to the range of cells from `cell_start` to
    /// `cell_end` of a table. Where it stops with a question, the table is
    /// as it was.
    pub fn apply(
        &mut self,
        table: &mut Table,
        cell_start: (usize, usize),
        cell_end: (usize, usize),
        known: &Numerics,
    ) -> (r: Result<(), Stop>)
        ensures
            final(self).closure == old(self).closure,
            ({
                let (m, stop) = ran(
                    known@,
                    old(self).machine(old(table)@),
                    old(self).closure@,
                    cell_start,
                    cell_end,
                );
                &&& stop_of(r) == stop
                &&& final(table)@ == (match stop {
                    Some(StopModel::Ask(q)) => old(table)@,
                    _ => m.table,
                })
            }),
    {
        let mut work = table.copy();
        let r = self.run(&mut work, cell_start, cell_end, known);
        match r {
            Err(Stop::Ask(q)) => Err(Stop::Ask(q)),
            other => {
                *table = work;
                other
            },
        }
    }
}

} // verus!
