//! Tables: a row of headers that fixes the number of columns, and rows of
//! cells below it, each as wide as the headers.

use crate::cell::{cell_of_text, cell_views, text_of_cell, Cell, CellModel};
use crate::error::Fault;
use crate::numerics::{AnswerModel, Numerics, Query, QueryModel};
use crate::text::{chars_of, split, split_on, string_of, views};
use vstd::prelude::*;
use vstd::string::*;

verus! {

/// A row of cells.
#[derive(Debug, PartialEq)]
pub struct Row {
    pub cells: Vec<Cell>,
}

impl View for Row {
    type V = Seq<CellModel>;

    open spec fn view(&self) -> Seq<CellModel> {
        cell_views(self.cells@)
    }
}

/// A row of `n` empty cells.
pub open spec fn empties(n: nat) -> Seq<CellModel> {
    Seq::new(n, |i: int| CellModel::Empty)
}

/// A row brought to a width: cut where it is longer, filled with empty
/// cells where it is shorter.
pub open spec fn fitted(row: Seq<CellModel>, width: nat) -> Seq<CellModel> {
    Seq::new(
        width,
        |i: int|
            if i < row.len() {
                row[i]
            } else {
                CellModel::Empty
            },
    )
}

impl Row {
    /// A row of `row_size` empty cells.
    pub fn new(row_size: usize) -> (r: Row)
        ensures
            r@ == empties(row_size as nat),
    {
        let mut cells: Vec<Cell> = Vec::new();
        let mut i: usize = 0;
        while i < row_size
            invariant
                i <= row_size,
                cell_views(cells@) == empties(i as nat),
            decreases row_size - i,
        {
            let ghost before = cells@;
            cells.push(Cell::Empty);
            i += 1;
            assert(cell_views(cells@) =~= cell_views(before).push(CellModel::Empty));
            assert(cell_views(cells@) =~= empties(i as nat));
        }
        Row { cells }
    }

    /// The number of cells.
    pub fn len(&self) -> (n: usize)
        ensures
            n == self@.len(),
    {
        self.cells.len()
    }

    /// Brings the row to a width.
    pub fn fit(&mut self, width: usize)
        ensures
            final(self)@ == fitted(old(self)@, width as nat),
    {
        while self.cells.len() > width
            invariant
                self.cells@.len() <= old(self).cells@.len(),
                self.cells@.len() >= width || self.cells@.len() == old(self).cells@.len(),
                self@ == old(self)@.take(self.cells@.len() as int),
            decreases self.cells.len(),
        {
            let ghost before = self.cells@;
            self.cells.pop();
            assert(self@ =~= cell_views(before).drop_last());
            assert(self@ =~= old(self)@.take(self.cells@.len() as int));
        }
        assert(self@ =~= fitted(old(self)@, self.cells@.len() as nat));
        while self.cells.len() < width
            invariant
                self.cells@.len() <= width,
                self@ == fitted(old(self)@, self.cells@.len() as nat),
                self.cells@.len() < width ==> self.cells@.len() >= old(self).cells@.len(),
            decreases width - self.cells.len(),
        {
            let ghost before = self.cells@;
            self.cells.push(Cell::Empty);
            assert(self@ =~= cell_views(before).push(CellModel::Empty));
            assert(self@ =~= fitted(old(self)@, self.cells@.len() as nat));
        }
    }
}

/// What a table is: its name, its title, its headers and its rows.
pub struct TableModel {
    pub ident: Seq<char>,
    pub title: Seq<char>,
    pub headers: Seq<CellModel>,
    pub rows: Seq<Seq<CellModel>>,
}

impl TableModel {
    /// Every row is as wide as the headers.
    pub open spec fn well_formed(self) -> bool {
        forall|i: int| 0 <= i < self.rows.len() ==> (#[trigger] self.rows[i]).len() == self.headers.len()
    }

    /// The table of a name as it is created: the name as its title, no
    /// headers, no rows.
    pub open spec fn fresh(ident: Seq<char>) -> TableModel {
        TableModel { ident, title: ident, headers: Seq::empty(), rows: Seq::empty() }
    }

    /// The table with another title.
    pub open spec fn with_title(self, title: Seq<char>) -> TableModel {
        TableModel { title, ..self }
    }

    /// The table with more headers, and each row brought to the new width.
    pub open spec fn with_headers(self, more: Seq<CellModel>) -> TableModel {
        let headers = self.headers + more;
        TableModel {
            headers,
            rows: self.rows.map_values(|r: Seq<CellModel>| fitted(r, headers.len())),
            ..self
        }
    }

    /// The table with one more row.
    pub open spec fn with_row(self, row: Seq<CellModel>) -> TableModel {
        TableModel { rows: self.rows.push(row), ..self }
    }

    /// The cell of a row and a column, where the table holds it.
    pub open spec fn cell_at(self, row: int, col: int) -> Result<CellModel, Fault> {
        if !(0 <= row < self.rows.len()) {
            Err(Fault::RowOutOfBounds)
        } else if !(0 <= col < self.rows[row].len()) {
            Err(Fault::ColumnOutOfBounds)
        } else {
            Ok(self.rows[row][col])
        }
    }

    /// The table with another value in one cell.
    pub open spec fn with_cell(self, row: int, col: int, value: CellModel) -> TableModel {
        TableModel { rows: self.rows.update(row, self.rows[row].update(col, value)), ..self }
    }
}

/// The cells that the first `n` literals write.
pub open spec fn literal_cells(
    known: Map<QueryModel, AnswerModel>,
    literals: Seq<Seq<char>>,
    n: nat,
) -> Result<Seq<CellModel>, QueryModel>
    decreases n,
{
    if n == 0 || n > literals.len() {
        Ok(Seq::empty())
    } else {
        match literal_cells(known, literals, (n - 1) as nat) {
            Err(q) => Err(q),
            Ok(cells) => match cell_of_text(known, literals[n - 1]) {
                Err(q) => Err(q),
                Ok(c) => Ok(cells.push(c)),
            },
        }
    }
}

/// The cells that literals write, all of them.
pub open spec fn all_literal_cells(
    known: Map<QueryModel, AnswerModel>,
    literals: Seq<Seq<char>>,
) -> Result<Seq<CellModel>, QueryModel> {
    literal_cells(known, literals, literals.len())
}

/// The row of a width that literals write: the cells of the first `width`
/// of them, and empty cells for the rest.
pub open spec fn row_of_literals(
    known: Map<QueryModel, AnswerModel>,
    literals: Seq<Seq<char>>,
    width: nat,
) -> Result<Seq<CellModel>, QueryModel> {
    let n = if literals.len() < width {
        literals.len()
    } else {
        width
    };
    match literal_cells(known, literals, n) {
        Err(q) => Err(q),
        Ok(cells) => Ok(fitted(cells, width)),
    }
}

/// What became of a row that was to be appended.
#[derive(Clone, Copy, Debug, PartialEq, Eq, Structural)]
pub enum Appended {
    /// The row was appended as given, filled up with empty cells.
    Whole,
    /// The row was appended without the values beyond the last column.
    Truncated,
    /// The table has no headers yet, and no row was appended.
    NoHeaders,
}

/// What appending a row of literals does to a table, and what it reports.
pub open spec fn append_literals(
    known: Map<QueryModel, AnswerModel>,
    table: TableModel,
    literals: Seq<Seq<char>>,
) -> Result<(TableModel, Appended), QueryModel> {
    if table.headers.len() == 0 {
        Ok((table, Appended::NoHeaders))
    } else {
        match row_of_literals(known, literals, table.headers.len()) {
            Err(q) => Err(q),
            Ok(row) => Ok(
                (
                    table.with_row(row),
                    if literals.len() > table.headers.len() {
                        Appended::Truncated
                    } else {
                        Appended::Whole
                    },
                ),
            ),
        }
    }
}

/// The texts of cells in a line, each between `before` and `after`.
pub open spec fn line_text(
    known: Map<QueryModel, AnswerModel>,
    cells: Seq<CellModel>,
    before: Seq<char>,
    after: Seq<char>,
) -> Result<Seq<char>, QueryModel>
    decreases cells.len(),
{
    if cells.len() == 0 {
        Ok(Seq::empty())
    } else {
        match line_text(known, cells.drop_last(), before, after) {
            Err(q) => Err(q),
            Ok(head) => match text_of_cell(known, cells.last()) {
                Err(q) => Err(q),
                Ok(t) => Ok(head + before + t + after),
            },
        }
    }
}

/// The marks around the rows and the cells of a format.
pub struct Marks {
    pub row_start: Seq<char>,
    pub row_end: Seq<char>,
    pub cell_start: Seq<char>,
    pub cell_end: Seq<char>,
}

/// The lines of rows, each between the row marks.
pub open spec fn rows_text(
    known: Map<QueryModel, AnswerModel>,
    rows: Seq<Seq<CellModel>>,
    marks: Marks,
) -> Result<Seq<char>, QueryModel>
    decreases rows.len(),
{
    if rows.len() == 0 {
        Ok(Seq::empty())
    } else {
        match rows_text(known, rows.drop_last(), marks) {
            Err(q) => Err(q),
            Ok(head) => match line_text(known, rows.last(), marks.cell_start, marks.cell_end) {
                Err(q) => Err(q),
                Ok(t) => Ok(head + marks.row_start + t + marks.row_end),
            },
        }
    }
}

/// The marks of CSV: a comma after each cell, a line feed after each row.
pub open spec fn csv_marks() -> Marks {
    Marks { row_start: Seq::empty(), row_end: "\n"@, cell_start: Seq::empty(), cell_end: ","@ }
}

/// The marks of HTML: a `td` element for each cell, a `tr` element for each row.
pub open spec fn html_marks() -> Marks {
    Marks { row_start: "<tr>"@, row_end: "</tr>"@, cell_start: "<td>"@, cell_end: "</td>"@ }
}

/// A table as CSV: the title on a line, the headers on a line, each
/// followed by a comma, then each row in the same way.
pub open spec fn csv_of(known: Map<QueryModel, AnswerModel>, t: TableModel) -> Result<
    Seq<char>,
    QueryModel,
> {
    match line_text(known, t.headers, Seq::empty(), ","@) {
        Err(q) => Err(q),
        Ok(head) => match rows_text(known, t.rows, csv_marks()) {
            Err(q) => Err(q),
            Ok(body) => Ok(t.title + "\n"@ + head + "\n"@ + body),
        },
    }
}

/// A table as HTML: the title, a line break, and a `table` element with a
/// row of `th` cells for the headers and a row of `td` cells for each row.
pub open spec fn html_of(known: Map<QueryModel, AnswerModel>, t: TableModel) -> Result<
    Seq<char>,
    QueryModel,
> {
    match line_text(known, t.headers, "<th>"@, "</th>"@) {
        Err(q) => Err(q),
        Ok(head) => match rows_text(known, t.rows, html_marks()) {
            Err(q) => Err(q),
            Ok(body) => Ok(t.title + "<br><table><tr>"@ + head + "</tr>"@ + body + "</table><br/>"@),
        },
    }
}

/// A text or a question, as models.
pub open spec fn text_result(r: Result<String, Query>) -> Result<Seq<char>, QueryModel> {
    match r {
        Ok(s) => Ok(s@),
        Err(q) => Err(q@),
    }
}

/// A question that stops the start of a line stops the whole line.
pub proof fn line_text_stops(
    known: Map<QueryModel, AnswerModel>,
    cells: Seq<CellModel>,
    before: Seq<char>,
    after: Seq<char>,
    n: int,
)
    requires
        0 <= n <= cells.len(),
        line_text(known, cells.take(n), before, after) is Err,
    ensures
        line_text(known, cells, before, after) == line_text(known, cells.take(n), before, after),
    decreases cells.len(),
{
    if n < cells.len() {
        assert(cells.drop_last().take(n) == cells.take(n));
        line_text_stops(known, cells.drop_last(), before, after, n);
    } else {
        assert(cells.take(n) == cells);
    }
}

/// A question that stops the first rows stops them all.
pub proof fn rows_text_stops(
    known: Map<QueryModel, AnswerModel>,
    rows: Seq<Seq<CellModel>>,
    marks: Marks,
    n: int,
)
    requires
        0 <= n <= rows.len(),
        rows_text(known, rows.take(n), marks) is Err,
    ensures
        rows_text(known, rows, marks) == rows_text(known, rows.take(n), marks),
    decreases rows.len(),
{
    if n < rows.len() {
        assert(rows.drop_last().take(n) == rows.take(n));
        rows_text_stops(known, rows.drop_last(), marks, n);
    } else {
        assert(rows.take(n) == rows);
    }
}

/// Appends to `out` the texts of cells, each between `before` and `after`.
/// Where it stops with a question, `out` holds what was written before it.
fn write_line(
    out: &mut String,
    cells: &Vec<Cell>,
    before: &str,
    after: &str,
    known: &Numerics,
) -> (r: Result<(), Query>)
    ensures
        match r {
            Ok(()) => line_text(known@, cell_views(cells@), before@, after@) == Ok::<
                Seq<char>,
                QueryModel,
            >(final(out)@.skip(old(out)@.len() as int)) && final(out)@.take(
                old(out)@.len() as int,
            ) == old(out)@ && final(out)@.len() >= old(out)@.len(),
            Err(q) => line_text(known@, cell_views(cells@), before@, after@) == Err::<
                Seq<char>,
                QueryModel,
            >(q@),
        },
{
    let ghost base = out@;
    let ghost all = cell_views(cells@);
    let mut i: usize = 0;
    assert(out@.skip(base.len() as int) == Seq::<char>::empty());
    assert(all.take(0) == Seq::<CellModel>::empty());
    while i < cells.len()
        invariant
            i <= cells.len(),
            all == cell_views(cells@),
            out@.len() >= base.len(),
            out@.take(base.len() as int) == base,
            line_text(known@, all.take(i as int), before@, after@) == Ok::<Seq<char>, QueryModel>(
                out@.skip(base.len() as int),
            ),
        decreases cells.len() - i,
    {
        assert(all.take(i + 1).drop_last() == all.take(i as int));
        assert(all.take(i + 1).last() == cells@[i as int]@);
        match cells[i].to_text(known) {
            Err(q) => {
                proof {
                    line_text_stops(known@, all, before@, after@, i + 1);
                }
                return Err(q);
            },
            Ok(t) => {
                let ghost so_far = out@;
                out.append(before);
                out.append(t.as_str());
                out.append(after);
                assert(out@.skip(base.len() as int) == so_far.skip(base.len() as int) + before@
                    + t@ + after@);
                assert(out@.take(base.len() as int) == so_far.take(base.len() as int));
            },
        }
        i += 1;
    }
    assert(all.take(i as int) == all);
    Ok(())
}

/// The texts of cells in a line, each between `before` and `after`.
pub fn line_string(cells: &Vec<Cell>, before: &str, after: &str, known: &Numerics) -> (r: Result<
    String,
    Query,
>)
    ensures
        text_result(r) == line_text(known@, cell_views(cells@), before@, after@),
{
    let mut out = String::new();
    match write_line(&mut out, cells, before, after, known) {
        Ok(()) => {
            assert(out@.skip(0) == out@);
            Ok(out)
        },
        Err(q) => Err(q),
    }
}

/// The views of rows.
pub open spec fn row_views(rows: Seq<Row>) -> Seq<Seq<CellModel>> {
    rows.map_values(|r: Row| r@)
}

fn rows_string(
    rows: &Vec<Row>,
    row_start: &str,
    row_end: &str,
    cell_start: &str,
    cell_end: &str,
    known: &Numerics,
) -> (r: Result<String, Query>)
    ensures
        text_result(r) == rows_text(
            known@,
            row_views(rows@),
            Marks {
                row_start: row_start@,
                row_end: row_end@,
                cell_start: cell_start@,
                cell_end: cell_end@,
            },
        ),
{
    let ghost marks = Marks {
        row_start: row_start@,
        row_end: row_end@,
        cell_start: cell_start@,
        cell_end: cell_end@,
    };
    let ghost all = row_views(rows@);
    let mut out = String::new();
    let mut i: usize = 0;
    assert(all.take(0) == Seq::<Seq<CellModel>>::empty());
    while i < rows.len()
        invariant
            i <= rows.len(),
            all == row_views(rows@),
            marks == (Marks {
                row_start: row_start@,
                row_end: row_end@,
                cell_start: cell_start@,
                cell_end: cell_end@,
            }),
            rows_text(known@, all.take(i as int), marks) == Ok::<Seq<char>, QueryModel>(out@),
        decreases rows.len() - i,
    {
        assert(all.take(i + 1).drop_last() == all.take(i as int));
        assert(all.take(i + 1).last() == rows@[i as int]@);
        match line_string(&rows[i].cells, cell_start, cell_end, known) {
            Err(q) => {
                proof {
                    rows_text_stops(known@, all, marks, i + 1);
                }
                return Err(q);
            },
            Ok(t) => {
                out.append(row_start);
                out.append(t.as_str());
                out.append(row_end);
            },
        }
        i += 1;
    }
    assert(all.take(i as int) == all);
    Ok(out)
}

/// The formats that a table is saved in.
#[derive(Clone, Copy, Debug, PartialEq, Eq, Structural)]
pub enum OutputType {
    Html,
    Csv,
}

impl OutputType {
    /// The name of the format, as a file name ends in it.
    pub fn name(&self) -> (s: String)
        ensures
            s@ == (match self {
                OutputType::Html => "html"@,
                OutputType::Csv => "csv"@,
            }),
    {
        match self {
            OutputType::Html => "html".to_owned(),
            OutputType::Csv => "csv".to_owned(),
        }
    }
}

/// What can be written out as CSV and as HTML.
pub trait Save {
    /// The CSV text, as far as `known` can write the numbers in it.
    spec fn csv(&self, known: Map<QueryModel, AnswerModel>) -> Result<Seq<char>, QueryModel>;

    /// The HTML text, as far as `known` can write the numbers in it.
    spec fn html(&self, known: Map<QueryModel, AnswerModel>) -> Result<Seq<char>, QueryModel>;

    fn to_csv(&self, known: &Numerics) -> (r: Result<String, Query>)
        ensures
            text_result(r) == self.csv(known@),
    ;

    fn to_html(&self, known: &Numerics) -> (r: Result<String, Query>)
        ensures
            text_result(r) == self.html(known@),
    ;

    /// The text in the given format.
    fn save_to_string(&self, output_type: OutputType, known: &Numerics) -> (r: Result<
        String,
        Query,
    >)
        ensures
            text_result(r) == (match output_type {
                OutputType::Html => self.html(known@),
                OutputType::Csv => self.csv(known@),
            }),
    {
        match output_type {
            OutputType::Html => self.to_html(known),
            OutputType::Csv => self.to_csv(known),
        }
    }

    /// The bytes of the text in the given format.
    fn save(&self, output_type: OutputType, known: &Numerics) -> (r: Result<Vec<u8>, Query>)
        ensures
            match r {
                Ok(bytes) => exists|s: Seq<char>|
                    (match output_type {
                        OutputType::Html => self.html(known@),
                        OutputType::Csv => self.csv(known@),
                    }) == Ok::<Seq<char>, QueryModel>(s) && bytes@ == vstd::utf8::encode_utf8(s),
                Err(q) => (match output_type {
                    OutputType::Html => self.html(known@),
                    OutputType::Csv => self.csv(known@),
                }) == Err::<Seq<char>, QueryModel>(q@),
            },
    {
        match self.save_to_string(output_type, known) {
            Ok(s) => Ok(s.as_str().as_bytes_vec()),
            Err(q) => Err(q),
        }
    }
}

/// A named table.
#[derive(Debug)]
pub struct Table {
    title: String,
    ident: String,
    headers: Row,
    rows: Vec<Row>,
}

impl View for Table {
    type V = TableModel;

    closed spec fn view(&self) -> TableModel {
        TableModel {
            ident: self.ident@,
            title: self.title@,
            headers: self.headers@,
            rows: row_views(self.rows@),
        }
    }
}

/// The cells of a column, one of each row, where every row holds it.
pub open spec fn column_of(t: TableModel, col: int) -> Result<Seq<CellModel>, Fault> {
    if forall|i: int| 0 <= i < t.rows.len() ==> 0 <= col < (#[trigger] t.rows[i]).len() {
        Ok(Seq::new(t.rows.len(), |i: int| t.rows[i][col]))
    } else {
        Err(Fault::ColumnOutOfBounds)
    }
}

fn owned(texts: &Vec<&str>) -> (out: Vec<String>)
    ensures
        out@.len() == texts@.len(),
        forall|i: int| 0 <= i < out@.len() ==> (#[trigger] out@[i])@ == texts@[i]@,
{
    let mut out: Vec<String> = Vec::new();
    let mut i: usize = 0;
    while i < texts.len()
        invariant
            i <= texts.len(),
            out@.len() == i,
            forall|k: int| 0 <= k < i ==> (#[trigger] out@[k])@ == texts@[k]@,
        decreases texts.len() - i,
    {
        out.push(texts[i].to_owned());
        i += 1;
    }
    out
}

/// The texts that strings hold.
pub open spec fn string_views(v: Seq<String>) -> Seq<Seq<char>> {
    v.map_values(|s: String| s@)
}

/// The texts that string slices hold.
pub open spec fn str_views(v: Seq<&str>) -> Seq<Seq<char>> {
    v.map_values(|s: &str| s@)
}

/// The cells that the first `n` of the literals write.
pub fn cells_of_literals(literals: &Vec<String>, n: usize, known: &Numerics) -> (r: Result<
    Vec<Cell>,
    Query,
>)
    requires
        n <= literals.len(),
    ensures
        match r {
            Ok(cells) => literal_cells(known@, string_views(literals@), n as nat) == Ok::<
                Seq<CellModel>,
                QueryModel,
            >(cell_views(cells@)),
            Err(q) => literal_cells(known@, string_views(literals@), n as nat) == Err::<
                Seq<CellModel>,
                QueryModel,
            >(q@),
        },
{
    let ghost all = string_views(literals@);
    let mut cells: Vec<Cell> = Vec::new();
    let mut i: usize = 0;
    assert(cell_views(cells@) =~= Seq::<CellModel>::empty());
    while i < n
        invariant
            i <= n <= literals.len(),
            all == string_views(literals@),
            literal_cells(known@, all, i as nat) == Ok::<Seq<CellModel>, QueryModel>(
                cell_views(cells@),
            ),
        decreases n - i,
    {
        assert(all[i as int] == literals@[i as int]@);
        match Cell::from_str(literals[i].as_str(), known) {
            Err(q) => {
                proof {
                    literal_cells_stop(known@, all, (i + 1) as nat, n as nat);
                }
                return Err(q);
            },
            Ok(c) => {
                let ghost before = cells@;
                cells.push(c);
                assert(cell_views(cells@) =~= cell_views(before).push(c@));
            },
        }
        i += 1;
    }
    Ok(cells)
}

/// A question that stops the first literals stops those after them.
pub proof fn literal_cells_stop(
    known: Map<QueryModel, AnswerModel>,
    literals: Seq<Seq<char>>,
    k: nat,
    n: nat,
)
    requires
        k <= n <= literals.len(),
        literal_cells(known, literals, k) is Err,
    ensures
        literal_cells(known, literals, n) == literal_cells(known, literals, k),
    decreases n,
{
    if k < n {
        literal_cells_stop(known, literals, k, (n - 1) as nat);
    }
}

impl Table {
    /// The table of a name: the name as its title, no headers, no rows.
    pub fn new(ident: String) -> (t: Table)
        ensures
            t@ == TableModel::fresh(ident@),
            t@.well_formed(),
    {
        let t = Table { title: ident.clone(), ident, headers: Row::new(0), rows: Vec::new() };
        assert(t@.headers =~= Seq::<CellModel>::empty());
        assert(t@.rows =~= Seq::<Seq<CellModel>>::empty());
        t
    }

    /// The title, which is shown.
    pub fn title(&self) -> (s: &str)
        ensures
            s@ == self@.title,
    {
        self.title.as_str()
    }

    /// The name, which never changes.
    pub fn identifier(&self) -> (s: &str)
        ensures
            s@ == self@.ident,
    {
        self.ident.as_str()
    }

    /// Gives the table another title.
    pub fn assign_title(&mut self, title: String)
        ensures
            final(self)@ == old(self)@.with_title(title@),
    {
        self.title = title;
    }

    /// The number of rows and the number of columns.
    pub fn dimensions(&self) -> (d: (usize, usize))
        ensures
            d.0 == self@.rows.len(),
            d.1 == self@.headers.len(),
    {
        (self.rows.len(), self.headers.len())
    }

    /// The headers.
    pub fn headers(&self) -> (h: &Row)
        ensures
            h@ == self@.headers,
    {
        &self.headers
    }

    /// The rows.
    pub fn rows(&self) -> (rows: &Vec<Row>)
        ensures
            row_views(rows@) == self@.rows,
    {
        &self.rows
    }

    /// Adds headers after those that the table has, and brings every row to
    /// the new width.
    pub fn extend_headers(&mut self, headers: Vec<Cell>)
        ensures
            final(self)@ == old(self)@.with_headers(cell_views(headers@)),
            final(self)@.well_formed(),
    {
        let mut headers = headers;
        let ghost more = cell_views(headers@);
        let ghost start = self.headers@;
        self.headers.cells.append(&mut headers);
        assert(self.headers@ =~= start + more);
        let width = self.headers.cells.len();
        let mut i: usize = 0;
        while i < self.rows.len()
            invariant
                i <= self.rows.len(),
                self.rows@.len() == old(self).rows@.len(),
                self.title == old(self).title,
                self.ident == old(self).ident,
                self.headers@ == start + more,
                width == self.headers@.len(),
                forall|k: int| 0 <= k < i ==> (#[trigger] self.rows@[k])@ == fitted(old(self).rows@[k]@, width as nat),
                forall|k: int| i <= k < self.rows@.len() ==> (#[trigger] self.rows@[k]) == old(self).rows@[k],
            decreases self.rows.len() - i,
        {
            self.rows[i].fit(width);
            i += 1;
        }
        assert(self@.rows =~= old(self)@.with_headers(more).rows);
    }

    /// Adds a row of empty cells.
    pub fn create_empty_row(&mut self)
        ensures
            final(self)@ == old(self)@.with_row(empties(old(self)@.headers.len())),
            old(self)@.well_formed() ==> final(self)@.well_formed(),
    {
        let row = Row::new(self.headers.len());
        let ghost before = self.rows@;
        self.rows.push(row);
        assert(row_views(self.rows@) =~= row_views(before).push(row@));
    }

    /// The row that literals write, where the table has headers: as wide as
    /// the headers, with the second value `true` where literals were left
    /// out because there are more of them than columns.
    fn parse_row_splitted(&self, cell_tokens: &Vec<String>, known: &Numerics) -> (r: Result<
        Option<(Row, bool)>,
        Query,
    >)
        ensures
            match r {
                Ok(None) => self@.headers.len() == 0,
                Ok(Some((row, cut))) => self@.headers.len() > 0 && row_of_literals(
                    known@,
                    string_views(cell_tokens@),
                    self@.headers.len(),
                ) == Ok::<Seq<CellModel>, QueryModel>(row@) && cut == (cell_tokens@.len()
                    > self@.headers.len()),
                Err(q) => self@.headers.len() > 0 && row_of_literals(
                    known@,
                    string_views(cell_tokens@),
                    self@.headers.len(),
                ) == Err::<Seq<CellModel>, QueryModel>(q@),
            },
    {
        let width = self.headers.len();
        if width == 0 {
            return Ok(None);
        }
        let n = if cell_tokens.len() < width {
            cell_tokens.len()
        } else {
            width
        };
        let cells = cells_of_literals(cell_tokens, n, known)?;
        let mut row = Row { cells };
        row.fit(width);
        Ok(Some((row, cell_tokens.len() > width)))
    }

    /// Appends the row that literals write. Without headers no row is
    /// appended; literals beyond the last column are left out; columns
    /// without a literal stay empty. The result says which of these took
    /// place. Where it stops with a question, the table is unchanged.
    pub fn append_row_from(&mut self, row: Vec<&str>, known: &Numerics) -> (r: Result<
        Appended,
        Query,
    >)
        ensures
            match r {
                Ok(a) => append_literals(known@, old(self)@, str_views(row@)) == Ok::<
                    (TableModel, Appended),
                    QueryModel,
                >((final(self)@, a)),
                Err(q) => append_literals(known@, old(self)@, str_views(row@)) == Err::<
                    (TableModel, Appended),
                    QueryModel,
                >(q@) && final(self)@ == old(self)@,
            },
            old(self)@.well_formed() ==> final(self)@.well_formed(),
    {
        let literals = owned(&row);
        assert(string_views(literals@) =~= str_views(row@));
        self.append_literals(&literals, known)
    }

    /// Appends the row that the literals between the commas of a line write,
    /// as `append_row_from` does.
    pub fn append_row(&mut self, row: String, known: &Numerics) -> (r: Result<Appended, Query>)
        ensures
            match r {
                Ok(a) => append_literals(known@, old(self)@, split_on(row@, ',')) == Ok::<
                    (TableModel, Appended),
                    QueryModel,
                >((final(self)@, a)),
                Err(q) => append_literals(known@, old(self)@, split_on(row@, ',')) == Err::<
                    (TableModel, Appended),
                    QueryModel,
                >(q@) && final(self)@ == old(self)@,
            },
            old(self)@.well_formed() ==> final(self)@.well_formed(),
    {
        let literals = self.parse_row(&row);
        self.append_literals(&literals, known)
    }

    /// The literals between the commas of a line.
    fn parse_row(&self, row: &String) -> (literals: Vec<String>)
        ensures
            string_views(literals@) == split_on(row@, ','),
    {
        let chars = chars_of(row.as_str());
        let pieces = split(&chars, ',');
        let mut literals: Vec<String> = Vec::new();
        let mut i: usize = 0;
        while i < pieces.len()
            invariant
                i <= pieces.len(),
                string_views(literals@) == views(pieces@).take(i as int),
            decreases pieces.len() - i,
        {
            let ghost before = literals@;
            let s = string_of(&pieces[i]);
            literals.push(s);
            assert(string_views(literals@) =~= string_views(before).push(s@));
            assert(views(pieces@).take(i + 1) =~= views(pieces@).take(i as int).push(pieces@[i as int]@));
            i += 1;
        }
        assert(views(pieces@).take(i as int) == views(pieces@));
        literals
    }

    /// Appends the row that literals write.
    pub fn append_literals(&mut self, literals: &Vec<String>, known: &Numerics) -> (r: Result<
        Appended,
        Query,
    >)
        ensures
            match r {
                Ok(a) => append_literals(known@, old(self)@, string_views(literals@)) == Ok::<
                    (TableModel, Appended),
                    QueryModel,
                >((final(self)@, a)),
                Err(q) => append_literals(known@, old(self)@, string_views(literals@)) == Err::<
                    (TableModel, Appended),
                    QueryModel,
                >(q@) && final(self)@ == old(self)@,
            },
            old(self)@.well_formed() ==> final(self)@.well_formed(),
    {
        match self.parse_row_splitted(literals, known)? {
            None => Ok(Appended::NoHeaders),
            Some((row, cut)) => {
                let ghost before = self.rows@;
                self.rows.push(row);
                assert(row_views(self.rows@) =~= row_views(before).push(row@));
                if cut {
                    Ok(Appended::Truncated)
                } else {
                    Ok(Appended::Whole)
                }
            },
        }
    }

    /// The cell of a row and a column.
    pub fn get_cell(&self, row: usize, col: usize) -> (r: Result<&Cell, Fault>)
        ensures
            match r {
                Ok(c) => self@.cell_at(row as int, col as int) == Ok::<CellModel, Fault>(c@),
                Err(f) => self@.cell_at(row as int, col as int) == Err::<CellModel, Fault>(f),
            },
    {
        if row >= self.rows.len() {
            return Err(Fault::RowOutOfBounds);
        }
        if col >= self.rows[row].cells.len() {
            return Err(Fault::ColumnOutOfBounds);
        }
        Ok(&self.rows[row].cells[col])
    }

    /// The cell of a row and a column, to be changed in place: the table
    /// then holds, in that cell, what the caller leaves there.
    pub fn get_cell_mut(&mut self, row: usize, col: usize) -> (r: Result<&mut Cell, Fault>)
        ensures
            match r {
                Ok(c) => old(self)@.cell_at(row as int, col as int) == Ok::<CellModel, Fault>(c@)
                    && final(self)@ == old(self)@.with_cell(row as int, col as int, final(c)@),
                Err(f) => old(self)@.cell_at(row as int, col as int) == Err::<CellModel, Fault>(f)
                    && final(self)@ == old(self)@,
            },
    {
        if row >= self.rows.len() {
            return Err(Fault::RowOutOfBounds);
        }
        if col >= self.rows[row].cells.len() {
            return Err(Fault::ColumnOutOfBounds);
        }
        proof {
            let cells = self.rows@[row as int].cells@;
            let rows = self.rows@;
            assert forall|c: Cell| #[trigger]
                cell_views(cells.update(col as int, c)) == cell_views(cells).update(
                    col as int,
                    c@,
                ) by {
                assert(cell_views(cells.update(col as int, c)) =~= cell_views(cells).update(
                    col as int,
                    c@,
                ));
            }
            assert forall|r: Row| #[trigger]
                row_views(rows.update(row as int, r)) == row_views(rows).update(row as int, r@) by {
                assert(row_views(rows.update(row as int, r)) =~= row_views(rows).update(
                    row as int,
                    r@,
                ));
            }
        }
        Ok(&mut self.rows[row].cells[col])
    }

    /// The cells of a column, one of each row.
    pub fn get_column(&self, col: usize) -> (r: Result<Vec<&Cell>, Fault>)
        ensures
            match r {
                Ok(cells) => column_of(self@, col as int) == Ok::<Seq<CellModel>, Fault>(
                    cells@.map_values(|c: &Cell| c@),
                ),
                Err(f) => column_of(self@, col as int) == Err::<Seq<CellModel>, Fault>(f),
            },
    {
        let mut cells: Vec<&Cell> = Vec::new();
        let mut i: usize = 0;
        while i < self.rows.len()
            invariant
                i <= self.rows.len(),
                cells@.len() == i,
                forall|k: int| 0 <= k < i ==> col < (#[trigger] self@.rows[k]).len(),
                forall|k: int| 0 <= k < i ==> (#[trigger] cells@[k])@ == self@.rows[k][col as int],
            decreases self.rows.len() - i,
        {
            if col >= self.rows[i].cells.len() {
                assert(!(col < self@.rows[i as int].len()));
                return Err(Fault::ColumnOutOfBounds);
            }
            cells.push(&self.rows[i].cells[col]);
            i += 1;
        }
        assert(cells@.map_values(|c: &Cell| c@) =~= Seq::new(
            self@.rows.len(),
            |i: int| self@.rows[i][col as int],
        ));
        Ok(cells)
    }

    /// A row.
    pub fn get_row(&self, row: usize) -> (r: Result<&Row, Fault>)
        ensures
            match r {
                Ok(found) => row < self@.rows.len() && found@ == self@.rows[row as int],
                Err(f) => row >= self@.rows.len() && f == Fault::RowOutOfBounds,
            },
    {
        if row >= self.rows.len() {
            return Err(Fault::RowOutOfBounds);
        }
        Ok(&self.rows[row])
    }

    /// A copy of the table.
    pub fn copy(&self) -> (t: Table)
        ensures
            t@ == self@,
    {
        let mut rows: Vec<Row> = Vec::new();
        let mut i: usize = 0;
        while i < self.rows.len()
            invariant
                i <= self.rows.len(),
                row_views(rows@) == row_views(self.rows@).take(i as int),
            decreases self.rows.len() - i,
        {
            let ghost before = rows@;
            let row = copy_row(&self.rows[i]);
            rows.push(row);
            assert(row_views(rows@) =~= row_views(before).push(row@));
            assert(row_views(self.rows@).take(i + 1) =~= row_views(self.rows@).take(i as int).push(
                self.rows@[i as int]@,
            ));
            i += 1;
        }
        assert(row_views(self.rows@).take(i as int) == row_views(self.rows@));
        Table {
            title: self.title.clone(),
            ident: self.ident.clone(),
            headers: copy_row(&self.headers),
            rows,
        }
    }
}

/// A copy of a row.
pub fn copy_row(row: &Row) -> (r: Row)
    ensures
        r@ == row@,
{
    let mut cells: Vec<Cell> = Vec::new();
    let mut i: usize = 0;
    while i < row.cells.len()
        invariant
            i <= row.cells.len(),
            cell_views(cells@) == row@.take(i as int),
        decreases row.cells.len() - i,
    {
        let ghost before = cells@;
        let c = row.cells[i].clone();
        cells.push(c);
        assert(cell_views(cells@) =~= cell_views(before).push(c@));
        assert(row@.take(i + 1) =~= row@.take(i as int).push(row.cells@[i as int]@));
        i += 1;
    }
    assert(row@.take(i as int) == row@);
    Row { cells }
}

impl Save for Table {
    open spec fn csv(&self, known: Map<QueryModel, AnswerModel>) -> Result<Seq<char>, QueryModel> {
        csv_of(known, self@)
    }

    open spec fn html(&self, known: Map<QueryModel, AnswerModel>) -> Result<Seq<char>, QueryModel> {
        html_of(known, self@)
    }

    fn to_csv(&self, known: &Numerics) -> (r: Result<String, Query>) {
        proof {
            reveal_strlit("");
            assert(""@ =~= Seq::<char>::empty());
            assert(self.csv(known@) == csv_of(known@, self@));
        }
        let head = line_string(&self.headers.cells, "", ",", known)?;
        let body = rows_string(&self.rows, "", "\n", "", ",", known)?;
        let mut csv = self.title.clone();
        csv.append("\n");
        csv.append(head.as_str());
        csv.append("\n");
        csv.append(body.as_str());
        Ok(csv)
    }

    fn to_html(&self, known: &Numerics) -> (r: Result<String, Query>) {
        assert(self.html(known@) == html_of(known@, self@));
        let head = line_string(&self.headers.cells, "<th>", "</th>", known)?;
        let body = rows_string(&self.rows, "<tr>", "</tr>", "<td>", "</td>", known)?;
        let mut html = self.title.clone();
        html.append("<br><table><tr>");
        html.append(head.as_str());
        html.append("</tr>");
        html.append(body.as_str());
        html.append("</table><br/>");
        Ok(html)
    }
}

/// A table that is created is well formed, and stays so whatever is done
/// with it: every row is as wide as the headers after headers were added,
/// after a row was appended, and after a cell was changed.
pub proof fn rows_stay_as_wide_as_headers(
    known: Map<QueryModel, AnswerModel>,
    t: TableModel,
    ident: Seq<char>,
    more: Seq<CellModel>,
    literals: Seq<Seq<char>>,
    row: int,
    col: int,
    value: CellModel,
)
    requires
        t.well_formed(),
    ensures
        TableModel::fresh(ident).well_formed(),
        t.with_headers(more).well_formed(),
        t.with_row(empties(t.headers.len())).well_formed(),
        append_literals(known, t, literals) matches Ok(next) ==> next.0.well_formed(),
        t.cell_at(row, col) is Ok ==> t.with_cell(row, col, value).well_formed(),
{
    assert(t.with_row(empties(t.headers.len())).well_formed());
    if t.cell_at(row, col) is Ok {
        let next = t.with_cell(row, col, value);
        assert forall|i: int| 0 <= i < next.rows.len() implies (#[trigger] next.rows[i]).len()
            == next.headers.len() by {
            assert(t.rows[i].len() == t.headers.len());
        }
    }
}

/// Appending a row of literals to a table with headers adds one row, as wide
/// as the headers: the cells that the first literals write, then empty
/// cells; what there is beyond the last column is left out, and this is
/// reported. Appending to a table without headers changes nothing.
pub proof fn append_pads_and_truncates(
    known: Map<QueryModel, AnswerModel>,
    t: TableModel,
    literals: Seq<Seq<char>>,
)
    ensures
        t.headers.len() == 0 ==> append_literals(known, t, literals) == Ok::<
            (TableModel, Appended),
            QueryModel,
        >((t, Appended::NoHeaders)),
        t.headers.len() > 0 ==> (match append_literals(known, t, literals) {
            Ok((next, report)) => {
                &&& next.rows.len() == t.rows.len() + 1
                &&& next.rows.drop_last() == t.rows
                &&& next.headers == t.headers
                &&& next.rows.last().len() == t.headers.len()
                &&& report == (if literals.len() > t.headers.len() {
                    Appended::Truncated
                } else {
                    Appended::Whole
                })
                &&& forall|i: int|
                    0 <= i < t.headers.len() && i < literals.len() ==> cell_of_text(
                        known,
                        literals[i],
                    ) == Ok::<CellModel, QueryModel>(#[trigger] next.rows.last()[i])
                &&& forall|i: int|
                    literals.len() <= i < t.headers.len() ==> #[trigger] next.rows.last()[i]
                        == CellModel::Empty
            },
            Err(q) => exists|i: int|
                0 <= i < literals.len() && i < t.headers.len() && cell_of_text(known, literals[i])
                    == Err::<CellModel, QueryModel>(q),
        }),
{
    if t.headers.len() > 0 {
        let n = if literals.len() < t.headers.len() {
            literals.len()
        } else {
            t.headers.len()
        };
        literal_cells_are_pointwise(known, literals, n);
        match append_literals(known, t, literals) {
            Ok((next, report)) => {
                assert(next.rows.drop_last() =~= t.rows);
            },
            Err(q) => {},
        }
    }
}

/// The cells of literals are the cells of each; a question comes from one of
/// them.
pub proof fn literal_cells_are_pointwise(
    known: Map<QueryModel, AnswerModel>,
    literals: Seq<Seq<char>>,
    n: nat,
)
    requires
        n <= literals.len(),
    ensures
        match literal_cells(known, literals, n) {
            Ok(cells) => cells.len() == n && forall|i: int|
                0 <= i < n ==> cell_of_text(known, literals[i]) == Ok::<CellModel, QueryModel>(
                    #[trigger] cells[i],
                ),
            Err(q) => exists|i: int|
                0 <= i < n && cell_of_text(known, literals[i]) == Err::<CellModel, QueryModel>(q),
        },
    decreases n,
{
    if n > 0 {
        literal_cells_are_pointwise(known, literals, (n - 1) as nat);
        match literal_cells(known, literals, (n - 1) as nat) {
            Ok(cells) => {
                match cell_of_text(known, literals[n - 1]) {
                    Ok(c) => {},
                    Err(q) => {
                        assert(cell_of_text(known, literals[n - 1]) == Err::<
                            CellModel,
                            QueryModel,
                        >(q));
                    },
                }
            },
            Err(q) => {
                let i = choose|i: int|
                    0 <= i < n - 1 && cell_of_text(known, literals[i]) == Err::<
                        CellModel,
                        QueryModel,
                    >(q);
                assert(0 <= i < n && cell_of_text(known, literals[i]) == Err::<
                    CellModel,
                    QueryModel,
                >(q));
            },
        }
    }
}

} // verus!
