//! The values of a table: texts, numbers, booleans and the empty cell, with
//! the arithmetic that is defined on every pair of them.

use crate::error::{ask, asking, Fault, Stop, StopModel};
use crate::numerics::{
    computed, parsed, rendered, AnswerModel, Numerics, Operation, Query, QueryModel,
};
use crate::text::{chars_of, remove_all, same_text, string_of, without};
use vstd::prelude::*;
use vstd::string::*;

verus! {

/// The bits of the number 0.
pub const ZERO: u64 = 0;

/// The bits of the number 1.
pub const ONE: u64 = 0x3FF0_0000_0000_0000;

/// The bit that holds a number's sign.
pub const SIGN: u64 = 0x8000_0000_0000_0000;

/// One value of a table.
#[derive(Debug, PartialEq)]
pub enum Cell {
    Text(String),
    /// A number, as the 64 bits of its IEEE 754 binary64 form.
    Number(u64),
    Boolean(bool),
    Empty,
}

/// What a cell is.
pub enum CellModel {
    Text(Seq<char>),
    Number(u64),
    Boolean(bool),
    Empty,
}

impl View for Cell {
    type V = CellModel;

    open spec fn view(&self) -> CellModel {
        match self {
            Cell::Text(s) => CellModel::Text(s@),
            Cell::Number(n) => CellModel::Number(*n),
            Cell::Boolean(b) => CellModel::Boolean(*b),
            Cell::Empty => CellModel::Empty,
        }
    }
}

impl Default for Cell {
    fn default() -> (c: Cell)
        ensures
            c@ == CellModel::Empty,
    {
        Cell::Empty
    }
}

impl Clone for Cell {
    fn clone(&self) -> (c: Cell)
        ensures
            c@ == self@,
    {
        match self {
            Cell::Text(s) => Cell::Text(s.clone()),
            Cell::Number(n) => Cell::Number(*n),
            Cell::Boolean(b) => Cell::Boolean(*b),
            Cell::Empty => Cell::Empty,
        }
    }
}

/// The views of a run of cells.
pub open spec fn cell_views(cells: Seq<Cell>) -> Seq<CellModel> {
    cells.map_values(|c: Cell| c@)
}

/// A value or a question, as models.
pub open spec fn cell_result(r: Result<Cell, Query>) -> Result<CellModel, QueryModel> {
    match r {
        Ok(c) => Ok(c@),
        Err(q) => Err(q@),
    }
}

/// A value or a stop, as models.
pub open spec fn cell_outcome(r: Result<Cell, Stop>) -> Result<CellModel, StopModel> {
    match r {
        Ok(c) => Ok(c@),
        Err(s) => Err(s@),
    }
}

/// The number that stands for a boolean: 1 for `true`, 0 for `false`.
pub open spec fn bool_bits(b: bool) -> u64 {
    if b {
        ONE
    } else {
        ZERO
    }
}

/// The text that writes a boolean.
pub open spec fn bool_text(b: bool) -> Seq<char> {
    if b {
        "true"@
    } else {
        "false"@
    }
}

/// Whether a number is zero, of either sign.
pub open spec fn is_zero(n: u64) -> bool {
    n == ZERO || n == SIGN
}

/// The number with the other sign.
pub open spec fn negated(n: u64) -> u64 {
    if n >= SIGN {
        (n - SIGN) as u64
    } else {
        (n + SIGN) as u64
    }
}

/// The value that a literal writes: nothing writes the empty cell, a text
/// that writes a number writes that number, `true` and `false` write the
/// booleans, and every other text stands for itself.
pub open spec fn cell_of_text(known: Map<QueryModel, AnswerModel>, s: Seq<char>) -> Result<
    CellModel,
    QueryModel,
> {
    if s.len() == 0 {
        Ok(CellModel::Empty)
    } else {
        match parsed(known, s) {
            Err(q) => Err(q),
            Ok(Some(n)) => Ok(CellModel::Number(n)),
            Ok(None) => if s == "true"@ {
                Ok(CellModel::Boolean(true))
            } else if s == "false"@ {
                Ok(CellModel::Boolean(false))
            } else {
                Ok(CellModel::Text(s))
            },
        }
    }
}

/// The text that writes a value: a text writes itself, the empty cell
/// writes nothing.
pub open spec fn text_of_cell(known: Map<QueryModel, AnswerModel>, c: CellModel) -> Result<
    Seq<char>,
    QueryModel,
> {
    match c {
        CellModel::Text(s) => Ok(s),
        CellModel::Number(n) => rendered(known, n),
        CellModel::Boolean(b) => Ok(bool_text(b)),
        CellModel::Empty => Ok(Seq::empty()),
    }
}

/// A number as a cell.
pub open spec fn number_cell(r: Result<u64, QueryModel>) -> Result<CellModel, QueryModel> {
    match r {
        Ok(n) => Ok(CellModel::Number(n)),
        Err(q) => Err(q),
    }
}

/// A text as a cell, after the text `head`.
pub open spec fn text_cell(head: Seq<char>, r: Result<Seq<char>, QueryModel>) -> Result<
    CellModel,
    QueryModel,
> {
    match r {
        Ok(s) => Ok(CellModel::Text(head + s)),
        Err(q) => Err(q),
    }
}

/// A number or a boolean on the left of `+` or `-`, a text on the right:
/// where the text writes a number, the operation on the two numbers;
/// where it does not, the two texts joined.
pub open spec fn number_with_text(
    known: Map<QueryModel, AnswerModel>,
    op: Operation,
    left: CellModel,
    left_bits: u64,
    s: Seq<char>,
) -> Result<CellModel, QueryModel> {
    match parsed(known, s) {
        Err(q) => Err(q),
        Ok(Some(n)) => number_cell(computed(known, op, left_bits, n)),
        Ok(None) => match text_of_cell(known, left) {
            Ok(t) => Ok(CellModel::Text(t + s)),
            Err(q) => Err(q),
        },
    }
}

/// A text on the left of `-`, a number or a boolean on the right: where the
/// text writes a number, the difference of the two numbers; where it does
/// not, the text without the occurrences of what writes the right operand.
pub open spec fn text_less_number(
    known: Map<QueryModel, AnswerModel>,
    s: Seq<char>,
    right: CellModel,
    right_bits: u64,
) -> Result<CellModel, QueryModel> {
    match parsed(known, s) {
        Err(q) => Err(q),
        Ok(Some(n)) => number_cell(computed(known, Operation::Subtract, n, right_bits)),
        Ok(None) => match text_of_cell(known, right) {
            Ok(t) => Ok(CellModel::Text(remove_all(s, t))),
            Err(q) => Err(q),
        },
    }
}

/// `a + b`.
pub open spec fn cell_sum(known: Map<QueryModel, AnswerModel>, a: CellModel, b: CellModel) -> Result<
    CellModel,
    QueryModel,
> {
    match a {
        CellModel::Text(s) => text_cell(s, text_of_cell(known, b)),
        CellModel::Number(n) => match b {
            CellModel::Text(s) => number_with_text(known, Operation::Add, a, n, s),
            CellModel::Number(m) => number_cell(computed(known, Operation::Add, n, m)),
            CellModel::Boolean(y) => number_cell(computed(known, Operation::Add, n, bool_bits(y))),
            CellModel::Empty => Ok(a),
        },
        CellModel::Boolean(x) => match b {
            CellModel::Text(s) => number_with_text(known, Operation::Add, a, bool_bits(x), s),
            CellModel::Number(m) => number_cell(computed(known, Operation::Add, bool_bits(x), m)),
            CellModel::Boolean(y) => Ok(CellModel::Boolean(x || y)),
            CellModel::Empty => Ok(a),
        },
        CellModel::Empty => Ok(b),
    }
}

/// `a - b`.
pub open spec fn cell_difference(
    known: Map<QueryModel, AnswerModel>,
    a: CellModel,
    b: CellModel,
) -> Result<CellModel, QueryModel> {
    match a {
        CellModel::Text(s) => match b {
            CellModel::Text(t) => Ok(CellModel::Text(remove_all(s, t))),
            CellModel::Number(m) => text_less_number(known, s, b, m),
            CellModel::Boolean(y) => text_less_number(known, s, b, bool_bits(y)),
            CellModel::Empty => Ok(a),
        },
        CellModel::Number(n) => match b {
            CellModel::Text(s) => number_with_text(known, Operation::Subtract, a, n, s),
            CellModel::Number(m) => number_cell(computed(known, Operation::Subtract, n, m)),
            CellModel::Boolean(y) => number_cell(
                computed(known, Operation::Subtract, n, bool_bits(y)),
            ),
            CellModel::Empty => Ok(a),
        },
        CellModel::Boolean(x) => match b {
            CellModel::Text(s) => number_with_text(known, Operation::Subtract, a, bool_bits(x), s),
            CellModel::Number(m) => number_cell(
                computed(known, Operation::Subtract, bool_bits(x), m),
            ),
            CellModel::Boolean(y) => Ok(CellModel::Boolean(x != y)),
            CellModel::Empty => Ok(a),
        },
        CellModel::Empty => match b {
            CellModel::Text(_) => Ok(CellModel::Empty),
            CellModel::Number(m) => Ok(CellModel::Number(negated(m))),
            CellModel::Boolean(y) => Ok(CellModel::Boolean(!y)),
            CellModel::Empty => Ok(CellModel::Empty),
        },
    }
}

/// The number that a number or a boolean stands for in `*`, `/` and `%`.
pub open spec fn operand_bits(c: CellModel) -> u64 {
    match c {
        CellModel::Number(n) => n,
        CellModel::Boolean(b) => bool_bits(b),
        _ => ZERO,
    }
}

/// Whether a value is zero as a divisor: the number zero, or `false`.
pub open spec fn is_zero_divisor(c: CellModel) -> bool {
    match c {
        CellModel::Number(n) => is_zero(n),
        CellModel::Boolean(b) => !b,
        _ => false,
    }
}

/// `a * b`.
pub open spec fn cell_product(
    known: Map<QueryModel, AnswerModel>,
    a: CellModel,
    b: CellModel,
) -> Result<CellModel, StopModel> {
    if a is Text || b is Text {
        Err(StopModel::Fail(Fault::TextOperand))
    } else if a is Empty {
        Ok(b)
    } else if b is Empty {
        Ok(a)
    } else {
        asking(
            number_cell(computed(known, Operation::Multiply, operand_bits(a), operand_bits(b))),
        )
    }
}

/// `a / b`.
pub open spec fn cell_quotient(
    known: Map<QueryModel, AnswerModel>,
    a: CellModel,
    b: CellModel,
) -> Result<CellModel, StopModel> {
    if a is Text || b is Text {
        Err(StopModel::Fail(Fault::TextOperand))
    } else if is_zero_divisor(b) {
        Err(StopModel::Fail(Fault::DivisionByZero))
    } else if a is Empty {
        Ok(b)
    } else if b is Empty {
        Ok(a)
    } else {
        asking(number_cell(computed(known, Operation::Divide, operand_bits(a), operand_bits(b))))
    }
}

/// `a % b`.
pub open spec fn cell_remainder(
    known: Map<QueryModel, AnswerModel>,
    a: CellModel,
    b: CellModel,
) -> Result<CellModel, StopModel> {
    if a is Text || b is Text {
        Err(StopModel::Fail(Fault::TextOperand))
    } else if a is Empty || b is Empty {
        Err(StopModel::Fail(Fault::EmptyOperand))
    } else if is_zero_divisor(b) {
        Err(StopModel::Fail(Fault::DivisionByZero))
    } else {
        asking(number_cell(computed(known, Operation::Mod, operand_bits(a), operand_bits(b))))
    }
}

/// The result of an operation on two values.
pub open spec fn cell_operation(
    known: Map<QueryModel, AnswerModel>,
    op: Operation,
    a: CellModel,
    b: CellModel,
) -> Result<CellModel, StopModel> {
    match op {
        Operation::Add => asking(cell_sum(known, a, b)),
        Operation::Subtract => asking(cell_difference(known, a, b)),
        Operation::Multiply => cell_product(known, a, b),
        Operation::Divide => cell_quotient(known, a, b),
        Operation::Mod => cell_remainder(known, a, b),
    }
}

fn bits_of_bool(b: bool) -> (n: u64)
    ensures
        n == bool_bits(b),
{
    if b {
        ONE
    } else {
        ZERO
    }
}

fn text_of_bool(b: bool) -> (s: String)
    ensures
        s@ == bool_text(b),
{
    if b {
        "true".to_owned()
    } else {
        "false".to_owned()
    }
}

fn joined(head: String, tail: &str) -> (s: String)
    ensures
        s@ == head@ + tail@,
{
    let mut s = head;
    s.append(tail);
    s
}

fn removed(s: &str, pattern: &str) -> (out: String)
    ensures
        out@ == remove_all(s@, pattern@),
{
    let a = chars_of(s);
    let b = chars_of(pattern);
    let c = without(&a, &b);
    string_of(&c)
}

fn number_op(known: &Numerics, op: Operation, a: u64, b: u64) -> (r: Result<Cell, Query>)
    ensures
        cell_result(r) == number_cell(computed(known@, op, a, b)),
{
    match known.computed(op, a, b) {
        Ok(n) => Ok(Cell::Number(n)),
        Err(q) => Err(q),
    }
}

fn op_with_text(known: &Numerics, op: Operation, left: Cell, left_bits: u64, s: String) -> (r:
    Result<Cell, Query>)
    ensures
        cell_result(r) == number_with_text(known@, op, left@, left_bits, s@),
{
    match known.parsed(s.as_str())? {
        Some(n) => number_op(known, op, left_bits, n),
        None => {
            let t = left.to_text(known)?;
            Ok(Cell::Text(joined(t, s.as_str())))
        },
    }
}

fn text_minus(known: &Numerics, s: String, right: Cell, right_bits: u64) -> (r: Result<
    Cell,
    Query,
>)
    ensures
        cell_result(r) == text_less_number(known@, s@, right@, right_bits),
{
    match known.parsed(s.as_str())? {
        Some(n) => number_op(known, Operation::Subtract, n, right_bits),
        None => {
            let t = right.to_text(known)?;
            Ok(Cell::Text(removed(s.as_str(), t.as_str())))
        },
    }
}

impl Cell {
    /// The value that a literal writes.
    pub fn from_str(s: &str, known: &Numerics) -> (r: Result<Cell, Query>)
        ensures
            cell_result(r) == cell_of_text(known@, s@),
    {
        if s.unicode_len() == 0 {
            return Ok(Cell::Empty);
        }
        match known.parsed(s)? {
            Some(n) => Ok(Cell::Number(n)),
            None => {
                if same_text(s, "true") {
                    Ok(Cell::Boolean(true))
                } else if same_text(s, "false") {
                    Ok(Cell::Boolean(false))
                } else {
                    Ok(Cell::Text(s.to_owned()))
                }
            },
        }
    }

    /// The text that writes the value.
    pub fn to_text(&self, known: &Numerics) -> (r: Result<String, Query>)
        ensures
            match r {
                Ok(s) => text_of_cell(known@, self@) == Ok::<Seq<char>, QueryModel>(s@),
                Err(q) => text_of_cell(known@, self@) == Err::<Seq<char>, QueryModel>(q@),
            },
    {
        match self {
            Cell::Text(s) => Ok(s.clone()),
            Cell::Number(n) => known.rendered(*n),
            Cell::Boolean(b) => Ok(text_of_bool(*b)),
            Cell::Empty => Ok(String::new()),
        }
    }

    /// `self + rhs`. It never fails.
    pub fn add(self, rhs: Cell, known: &Numerics) -> (r: Result<Cell, Query>)
        ensures
            cell_result(r) == cell_sum(known@, self@, rhs@),
    {
        match self {
            Cell::Text(s) => {
                let t = rhs.to_text(known)?;
                Ok(Cell::Text(joined(s, t.as_str())))
            },
            Cell::Number(n) => match rhs {
                Cell::Text(s) => op_with_text(known, Operation::Add, Cell::Number(n), n, s),
                Cell::Number(m) => number_op(known, Operation::Add, n, m),
                Cell::Boolean(y) => number_op(known, Operation::Add, n, bits_of_bool(y)),
                Cell::Empty => Ok(Cell::Number(n)),
            },
            Cell::Boolean(x) => match rhs {
                Cell::Text(s) => op_with_text(
                    known,
                    Operation::Add,
                    Cell::Boolean(x),
                    bits_of_bool(x),
                    s,
                ),
                Cell::Number(m) => number_op(known, Operation::Add, bits_of_bool(x), m),
                Cell::Boolean(y) => Ok(Cell::Boolean(x || y)),
                Cell::Empty => Ok(Cell::Boolean(x)),
            },
            Cell::Empty => Ok(rhs),
        }
    }

    /// `*self += rhs`. It never fails; where it stops with a question, the
    /// value is unchanged.
    pub fn add_assign(&mut self, rhs: Cell, known: &Numerics) -> (r: Result<(), Query>)
        ensures
            match r {
                Ok(()) => cell_sum(known@, old(self)@, rhs@) == Ok::<CellModel, QueryModel>(
                    final(self)@,
                ),
                Err(q) => cell_sum(known@, old(self)@, rhs@) == Err::<CellModel, QueryModel>(q@)
                    && final(self)@ == old(self)@,
            },
    {
        let left = self.clone();
        match left.add(rhs, known) {
            Ok(sum) => {
                *self = sum;
                Ok(())
            },
            Err(q) => Err(q),
        }
    }

    /// `self - rhs`. It never fails.
    pub fn sub(self, rhs: Cell, known: &Numerics) -> (r: Result<Cell, Query>)
        ensures
            cell_result(r) == cell_difference(known@, self@, rhs@),
    {
        match self {
            Cell::Text(s) => match rhs {
                Cell::Text(t) => Ok(Cell::Text(removed(s.as_str(), t.as_str()))),
                Cell::Number(m) => text_minus(known, s, Cell::Number(m), m),
                Cell::Boolean(y) => text_minus(known, s, Cell::Boolean(y), bits_of_bool(y)),
                Cell::Empty => Ok(Cell::Text(s)),
            },
            Cell::Number(n) => match rhs {
                Cell::Text(s) => op_with_text(known, Operation::Subtract, Cell::Number(n), n, s),
                Cell::Number(m) => number_op(known, Operation::Subtract, n, m),
                Cell::Boolean(y) => number_op(known, Operation::Subtract, n, bits_of_bool(y)),
                Cell::Empty => Ok(Cell::Number(n)),
            },
            Cell::Boolean(x) => match rhs {
                Cell::Text(s) => op_with_text(
                    known,
                    Operation::Subtract,
                    Cell::Boolean(x),
                    bits_of_bool(x),
                    s,
                ),
                Cell::Number(m) => number_op(known, Operation::Subtract, bits_of_bool(x), m),
                Cell::Boolean(y) => Ok(Cell::Boolean(x != y)),
                Cell::Empty => Ok(Cell::Boolean(x)),
            },
            Cell::Empty => match rhs {
                Cell::Text(_) => Ok(Cell::Empty),
                Cell::Number(m) => Ok(
                    Cell::Number(
                        if m >= SIGN {
                            m - SIGN
                        } else {
                            m + SIGN
                        },
                    ),
                ),
                Cell::Boolean(y) => Ok(Cell::Boolean(!y)),
                Cell::Empty => Ok(Cell::Empty),
            },
        }
    }

    /// Whether the value is a text.
    pub fn is_text(&self) -> (r: bool)
        ensures
            r == (self@ is Text),
    {
        match self {
            Cell::Text(_) => true,
            _ => false,
        }
    }

    /// Whether the value is the empty cell.
    pub fn is_empty(&self) -> (r: bool)
        ensures
            r == (self@ is Empty),
    {
        match self {
            Cell::Empty => true,
            _ => false,
        }
    }

    fn bits(&self) -> (n: u64)
        ensures
            n == operand_bits(self@),
    {
        match self {
            Cell::Number(n) => *n,
            Cell::Boolean(b) => bits_of_bool(*b),
            _ => ZERO,
        }
    }

    fn divides_by_zero(&self) -> (r: bool)
        ensures
            r == is_zero_divisor(self@),
    {
        match self {
            Cell::Number(n) => *n == ZERO || *n == SIGN,
            Cell::Boolean(b) => !*b,
            _ => false,
        }
    }

    /// `self * rhs`. It fails where an operand is a text.
    pub fn mul(self, rhs: Cell, known: &Numerics) -> (r: Result<Cell, Stop>)
        ensures
            cell_outcome(r) == cell_product(known@, self@, rhs@),
    {
        if self.is_text() || rhs.is_text() {
            Err(Stop::Fail(Fault::TextOperand))
        } else if self.is_empty() {
            Ok(rhs)
        } else if rhs.is_empty() {
            Ok(self)
        } else {
            ask(number_op(known, Operation::Multiply, self.bits(), rhs.bits()))
        }
    }

    /// `self / rhs`. It fails where an operand is a text, and where `rhs` is
    /// zero or `false`.
    pub fn div(self, rhs: Cell, known: &Numerics) -> (r: Result<Cell, Stop>)
        ensures
            cell_outcome(r) == cell_quotient(known@, self@, rhs@),
    {
        if self.is_text() || rhs.is_text() {
            Err(Stop::Fail(Fault::TextOperand))
        } else if rhs.divides_by_zero() {
            Err(Stop::Fail(Fault::DivisionByZero))
        } else if self.is_empty() {
            Ok(rhs)
        } else if rhs.is_empty() {
            Ok(self)
        } else {
            ask(number_op(known, Operation::Divide, self.bits(), rhs.bits()))
        }
    }

    /// `self % rhs`. It fails where an operand is a text or empty, and where
    /// `rhs` is zero or `false`.
    pub fn rem(self, rhs: Cell, known: &Numerics) -> (r: Result<Cell, Stop>)
        ensures
            cell_outcome(r) == cell_remainder(known@, self@, rhs@),
    {
        if self.is_text() || rhs.is_text() {
            Err(Stop::Fail(Fault::TextOperand))
        } else if self.is_empty() || rhs.is_empty() {
            Err(Stop::Fail(Fault::EmptyOperand))
        } else if rhs.divides_by_zero() {
            Err(Stop::Fail(Fault::DivisionByZero))
        } else {
            ask(number_op(known, Operation::Mod, self.bits(), rhs.bits()))
        }
    }
}

/// Addition and subtraction never fail; multiplication fails exactly where
/// an operand is a text; division fails exactly where an operand is a text
/// or the divisor is the number zero or `false`. This holds whatever is
/// known of numbers.
pub proof fn arithmetic_fails_exactly(
    known: Map<QueryModel, AnswerModel>,
    a: CellModel,
    b: CellModel,
)
    ensures
        !(cell_operation(known, Operation::Add, a, b) matches Err(StopModel::Fail(_))),
        !(cell_operation(known, Operation::Subtract, a, b) matches Err(StopModel::Fail(_))),
        (cell_product(known, a, b) matches Err(StopModel::Fail(_))) <==> (a is Text || b is Text),
        (cell_quotient(known, a, b) matches Err(StopModel::Fail(_))) <==> (a is Text || b is Text
            || b == CellModel::Number(ZERO) || b == CellModel::Number(SIGN) || b
            == CellModel::Boolean(false)),
{
}

/// Where every question on numbers has its answer, addition and subtraction
/// give a value, and multiplication and division give one wherever they do
/// not fail.
pub proof fn arithmetic_is_total(known: Map<QueryModel, AnswerModel>, a: CellModel, b: CellModel)
    requires
        forall|s: Seq<char>| parsed(known, s) is Ok,
        forall|n: u64| rendered(known, n) is Ok,
        forall|op: Operation, x: u64, y: u64| computed(known, op, x, y) is Ok,
    ensures
        cell_sum(known, a, b) is Ok,
        cell_difference(known, a, b) is Ok,
        cell_product(known, a, b) is Ok <==> !(a is Text || b is Text),
        cell_quotient(known, a, b) is Ok <==> !(a is Text || b is Text || is_zero_divisor(b)),
{
}

} // verus!
