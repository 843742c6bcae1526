//! Charts of a table, as an answer on how to draw it asks for them, and the
//! texts that go with showing a table.

use crate::cell::{cell_views, text_of_cell, Cell, CellModel};
use crate::compiler::ResponsePlotType;
use crate::error::{Fault, Stop, StopModel};
use crate::numerics::{AnswerModel, Numerics, Query, QueryModel};
use crate::table::{column_of, csv_of, text_result, Save, Table, TableModel};
use vstd::prelude::*;
use vstd::string::*;

verus! {

/// The kinds of chart that a table is drawn as.
#[derive(Clone, Copy, Debug, PartialEq, Eq, Structural)]
pub enum ChartKind {
    /// Bars: the values of one column over those of another.
    Bar,
    /// The spread of the values of one column.
    Histogram,
    /// Points: the values of one column against those of another.
    Scatter,
    /// No chart, for want of data.
    DataInsufficient,
    /// No chart, as none befits the table.
    NoPlot,
}

/// A chart of a table: its kind, the title of the table, the cells of the
/// columns that it shows, and what stands at their heads.
#[derive(Debug, PartialEq)]
pub struct Chart {
    pub kind: ChartKind,
    pub name: String,
    pub x: Vec<Cell>,
    pub y: Vec<Cell>,
    pub x_axis: String,
    pub y_axis: String,
}

/// What a chart is.
pub struct ChartModel {
    pub kind: ChartKind,
    pub name: Seq<char>,
    pub x: Seq<CellModel>,
    pub y: Seq<CellModel>,
    pub x_axis: Seq<char>,
    pub y_axis: Seq<char>,
}

impl View for Chart {
    type V = ChartModel;

    open spec fn view(&self) -> ChartModel {
        ChartModel {
            kind: self.kind,
            name: self.name@,
            x: cell_views(self.x@),
            y: cell_views(self.y@),
            x_axis: self.x_axis@,
            y_axis: self.y_axis@,
        }
    }
}

/// A column of a table with the text of its header.
pub open spec fn axis_of(known: Map<QueryModel, AnswerModel>, t: TableModel, col: usize) -> Result<
    (Seq<CellModel>, Seq<char>),
    StopModel,
> {
    match column_of(t, col as int) {
        Err(f) => Err(StopModel::Fail(f)),
        Ok(cells) => if col >= t.headers.len() {
            Err(StopModel::Fail(Fault::ColumnOutOfBounds))
        } else {
            match text_of_cell(known, t.headers[col as int]) {
                Err(q) => Err(StopModel::Ask(q)),
                Ok(name) => Ok((cells, name)),
            }
        },
    }
}

/// A chart of two columns.
pub open spec fn chart_of_two(
    known: Map<QueryModel, AnswerModel>,
    t: TableModel,
    kind: ChartKind,
    x: usize,
    y: usize,
) -> Result<ChartModel, StopModel> {
    match axis_of(known, t, x) {
        Err(e) => Err(e),
        Ok((xs, x_axis)) => match axis_of(known, t, y) {
            Err(e) => Err(e),
            Ok((ys, y_axis)) => Ok(ChartModel { kind, name: t.title, x: xs, y: ys, x_axis, y_axis }),
        },
    }
}

/// The chart that an answer asks for: bars and points of two columns, a
/// histogram of one, each under the title of the table and with the headers
/// of its columns; or no chart.
pub open spec fn chart_of(
    known: Map<QueryModel, AnswerModel>,
    t: TableModel,
    graph: ResponsePlotType,
) -> Result<ChartModel, StopModel> {
    match graph {
        ResponsePlotType::Bargraph((x, y)) => chart_of_two(known, t, ChartKind::Bar, x, y),
        ResponsePlotType::Scatterplot((x, y)) => chart_of_two(known, t, ChartKind::Scatter, x, y),
        ResponsePlotType::Histogram(x) => match axis_of(known, t, x) {
            Err(e) => Err(e),
            Ok((xs, x_axis)) => Ok(
                ChartModel {
                    kind: ChartKind::Histogram,
                    name: t.title,
                    x: xs,
                    y: Seq::empty(),
                    x_axis,
                    y_axis: Seq::empty(),
                },
            ),
        },
        ResponsePlotType::DataInsufficient => Ok(
            ChartModel {
                kind: ChartKind::DataInsufficient,
                name: t.title,
                x: Seq::empty(),
                y: Seq::empty(),
                x_axis: Seq::empty(),
                y_axis: Seq::empty(),
            },
        ),
        _ => Ok(
            ChartModel {
                kind: ChartKind::NoPlot,
                name: t.title,
                x: Seq::empty(),
                y: Seq::empty(),
                x_axis: Seq::empty(),
                y_axis: Seq::empty(),
            },
        ),
    }
}

/// What asks how a table is best drawn: the table as CSV between what
/// introduces it and what says how to answer.
pub open spec fn view_question(csv: Seq<char>) -> Seq<char> {
    "I am working with CSV file format, and want to make a plot out of following data:\nTable Name: "@
        + csv
        + "\nwhat kind of plot should I use, give response from one of \"Scatter\", \"Histogram\", \"Bargraph\", followed by the Column number used to be plot in next line:\nFor example:\nBargraph\nx = 1\ny = 2\nthis will indicate to plot column 1 on x-axis and column 2 on y-axis in a bar graph.\nFor \"Bargraph\" and \"Scatter\" mention both x and y value (strictly an integer which represents column number) and for \"Histogram\" only mention the x value (strictly an integer which represents column number).\nYou can also respond with \"None\" in case no plot is relevant and \"Data Insufficient\" in case data is insufficient."@
}

/// A page of HTML around the HTML of tables.
pub open spec fn page_of(html: Seq<char>) -> Seq<char> {
    "<!DOCTYPE html><html><body><style>table,th,td{border:1px solid black;padding:3px;margin:2px;}</style>"@
        + html + "</body></html>"@
}

/// A page of HTML around the HTML of tables.
pub fn page(html: &str) -> (s: String)
    ensures
        s@ == page_of(html@),
{
    let mut s =
        "<!DOCTYPE html><html><body><style>table,th,td{border:1px solid black;padding:3px;margin:2px;}</style>".to_owned();
    s.append(html);
    s.append("</body></html>");
    s
}

fn axis(t: &Table, col: usize, known: &Numerics) -> (r: Result<(Vec<Cell>, String), Stop>)
    ensures
        match r {
            Ok((cells, name)) => axis_of(known@, t@, col) == Ok::<
                (Seq<CellModel>, Seq<char>),
                StopModel,
            >((cell_views(cells@), name@)),
            Err(e) => axis_of(known@, t@, col) == Err::<(Seq<CellModel>, Seq<char>), StopModel>(e@),
        },
{
    let found = match t.get_column(col) {
        Ok(found) => found,
        Err(f) => {
            return Err(Stop::Fail(f));
        },
    };
    let mut cells: Vec<Cell> = Vec::new();
    let mut i: usize = 0;
    let ghost all = found@.map_values(|c: &Cell| c@);
    while i < found.len()
        invariant
            i <= found.len(),
            all == found@.map_values(|c: &Cell| c@),
            cell_views(cells@) == all.take(i as int),
        decreases found.len() - i,
    {
        let ghost before = cells@;
        let c = found[i].clone();
        cells.push(c);
        assert(cell_views(cells@) =~= cell_views(before).push(c@));
        assert(all.take(i + 1) =~= all.take(i as int).push(found@[i as int]@));
        i += 1;
    }
    assert(all.take(i as int) == all);
    let headers = t.headers();
    if col >= headers.len() {
        return Err(Stop::Fail(Fault::ColumnOutOfBounds));
    }
    assert(headers@[col as int] == headers.cells@[col as int]@);
    match headers.cells[col].to_text(known) {
        Ok(name) => Ok((cells, name)),
        Err(q) => Err(Stop::Ask(q)),
    }
}

impl Table {
    /// What asks how the table is best drawn.
    pub fn view_prompt(&self, known: &Numerics) -> (r: Result<String, Query>)
        ensures
            text_result(r) == (match csv_of(known@, self@) {
                Err(q) => Err(q),
                Ok(csv) => Ok(view_question(csv)),
            }),
    {
        let csv = self.to_csv(known)?;
        let mut text =
            "I am working with CSV file format, and want to make a plot out of following data:\nTable Name: ".to_owned();
        text.append(csv.as_str());
        text.append(
            "\nwhat kind of plot should I use, give response from one of \"Scatter\", \"Histogram\", \"Bargraph\", followed by the Column number used to be plot in next line:\nFor example:\nBargraph\nx = 1\ny = 2\nthis will indicate to plot column 1 on x-axis and column 2 on y-axis in a bar graph.\nFor \"Bargraph\" and \"Scatter\" mention both x and y value (strictly an integer which represents column number) and for \"Histogram\" only mention the x value (strictly an integer which represents column number).\nYou can also respond with \"None\" in case no plot is relevant and \"Data Insufficient\" in case data is insufficient.",
        );
        Ok(text)
    }

    /// The text of a question on the table, as it is put to who answers
    /// it: the table as CSV between what introduces it and the question.
    pub fn question_text(&self, question: &str, known: &Numerics) -> (r: Result<String, Query>)
        ensures
            text_result(r) == (match csv_of(known@, self@) {
                Err(q) => Err(q),
                Ok(csv) => Ok(
                    "I am working with CSV files. My table is as follows:\nTable name:"@ + csv
                        + "\nI want you to answer my next following question. You are expected to keep the answer as short as possible.\n"@
                        + question@,
                ),
            }),
    {
        let csv = self.to_csv(known)?;
        let mut text = "I am working with CSV files. My table is as follows:\nTable name:".to_owned();
        text.append(csv.as_str());
        text.append(
            "\nI want you to answer my next following question. You are expected to keep the answer as short as possible.\n",
        );
        text.append(question);
        Ok(text)
    }

    /// The chart of the table that an answer asks for. Pie charts are not
    /// drawn.
    pub fn table_view(&self, graph: ResponsePlotType, known: &Numerics) -> (r: Result<Chart, Stop>)
        requires
            !(graph is Piechart),
        ensures
            match r {
                Ok(chart) => chart_of(known@, self@, graph) == Ok::<ChartModel, StopModel>(chart@),
                Err(e) => chart_of(known@, self@, graph) == Err::<ChartModel, StopModel>(e@),
            },
    {
        match graph {
            ResponsePlotType::Bargraph((x, y)) => self.chart_of_two(ChartKind::Bar, x, y, known),
            ResponsePlotType::Scatterplot((x, y)) => self.chart_of_two(
                ChartKind::Scatter,
                x,
                y,
                known,
            ),
            ResponsePlotType::Histogram(x) => {
                let (xs, x_axis) = axis(self, x, known)?;
                let chart = Chart {
                    kind: ChartKind::Histogram,
                    name: self.title().to_owned(),
                    x: xs,
                    y: Vec::new(),
                    x_axis,
                    y_axis: String::new(),
                };
                assert(cell_views(chart.y@) =~= Seq::<CellModel>::empty());
                Ok(chart)
            },
            ResponsePlotType::DataInsufficient => {
                let chart = Chart {
                    kind: ChartKind::DataInsufficient,
                    name: self.title().to_owned(),
                    x: Vec::new(),
                    y: Vec::new(),
                    x_axis: String::new(),
                    y_axis: String::new(),
                };
                assert(cell_views(chart.x@) =~= Seq::<CellModel>::empty());
                assert(cell_views(chart.y@) =~= Seq::<CellModel>::empty());
                Ok(chart)
            },
            _ => {
                let chart = Chart {
                    kind: ChartKind::NoPlot,
                    name: self.title().to_owned(),
                    x: Vec::new(),
                    y: Vec::new(),
                    x_axis: String::new(),
                    y_axis: String::new(),
                };
                assert(cell_views(chart.x@) =~= Seq::<CellModel>::empty());
                assert(cell_views(chart.y@) =~= Seq::<CellModel>::empty());
                Ok(chart)
            },
        }
    }

    fn chart_of_two(&self, kind: ChartKind, x: usize, y: usize, known: &Numerics) -> (r: Result<
        Chart,
        Stop,
    >)
        ensures
            match r {
                Ok(chart) => chart_of_two(known@, self@, kind, x, y) == Ok::<
                    ChartModel,
                    StopModel,
                >(chart@),
                Err(e) => chart_of_two(known@, self@, kind, x, y) == Err::<ChartModel, StopModel>(
                    e@,
                ),
            },
    {
        let (xs, x_axis) = axis(self, x, known)?;
        let (ys, y_axis) = axis(self, y, known)?;
        Ok(Chart { kind, name: self.title().to_owned(), x: xs, y: ys, x_axis, y_axis })
    }
}

} // verus!
