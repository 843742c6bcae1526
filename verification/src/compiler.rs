//! The interpreter: it reads a program line by line, finds the table and
//! the operator of each line, and does what the line asks.

use crate::autocorrect::{
    build_keyboard_distances, candidates, keyboard_distance_matcher, suggestion, texts, KeyBoard,
    Token,
};
use crate::cell::{cell_views, CellModel};
use crate::closure::{applied, closure_of, ClosureModel, TableClosure};
use crate::error::{Fault, Stop, StopModel};
use crate::literal::{collect, gather, measured, sizes_of, weight, weight_grows, Collected};
use crate::numerics::{AnswerModel, Numerics, Query, QueryModel};
use crate::report::{
    ended, notice_views, Diagnostic, DiagnosticModel, Effect, EffectModel, Halt, HaltModel, Notice,
    NoticeModel,
};
use crate::table::{
    all_literal_cells, append_literals, cells_of_literals, copy_row, csv_of, html_of,
    text_result, Appended, Row, Save, Table, TableModel,
};
use crate::text::{
    ascii_lower, byte_len, chars_of, find_char, find_from, find_from_bounds, index_of_text,
    parse_index, push_all, same_chars, slice_of, spells, split, split_on, split_words,
    string_of, to_lower, trim, trimmed, views, words,
};
use vstd::prelude::*;
use vstd::string::*;

verus! {

/// What an answer on how to draw a table asks for: the kind of plot and the
/// columns that it shows.
#[derive(Clone, Copy, Debug, PartialEq, Eq)]
pub enum ResponsePlotType {
    Bargraph((usize, usize)),
    Histogram(usize),
    Piechart(usize),
    Scatterplot((usize, usize)),
    DataInsufficient,
    NoPlot,
}

/// The lines of a text: what stands between its line feeds, without what
/// would follow a line feed at the very end.
pub open spec fn lines_of(s: Seq<char>) -> Seq<Seq<char>> {
    let pieces = split_on(s, '\n');
    if pieces.last().len() == 0 {
        pieces.drop_last()
    } else {
        pieces
    }
}

/// A text with its ASCII capitals as small letters.
pub open spec fn lowered(s: Seq<char>) -> Seq<char> {
    s.map_values(|c: char| ascii_lower(c))
}

/// The index that the last word of a line writes.
pub open spec fn last_index(lines: Seq<Seq<char>>, at: int) -> Option<usize> {
    if 0 <= at < lines.len() && words(lines[at]).len() > 0 {
        index_of_text(words(lines[at]).last())
    } else {
        None
    }
}

/// The two columns that the second and the third line name, counted from 1,
/// as they are counted from 0.
pub open spec fn column_pair(lines: Seq<Seq<char>>) -> Option<(usize, usize)> {
    match (last_index(lines, 1), last_index(lines, 2)) {
        (Some(x), Some(y)) => if x >= 1 && y >= 1 {
            Some(((x - 1) as usize, (y - 1) as usize))
        } else {
            None
        },
        _ => None,
    }
}

/// What an answer asks for. Its first line names the kind of plot, in
/// letters of either case; the last words of the lines after it name the
/// columns. Bars and scatter plots, which are drawn as bars, take two
/// columns, counted from 1; histograms and pie charts take one. Where the
/// columns are no numbers, the data is insufficient. An answer without a
/// line, or with another first line, or that lacks the line of a histogram's
/// or a pie chart's column, is none.
pub open spec fn plot_of(s: Seq<char>) -> Result<ResponsePlotType, ()> {
    let lines = lines_of(s);
    if lines.len() == 0 {
        Err(())
    } else {
        let kind = lowered(trimmed(lines[0]));
        if kind == "bargraph"@ || kind == "bar"@ || kind == "scatterplot"@ || kind == "scatter"@ {
            match column_pair(lines) {
                Some(pair) => Ok(ResponsePlotType::Bargraph(pair)),
                None => Ok(ResponsePlotType::DataInsufficient),
            }
        } else if kind == "histogram"@ || kind == "hist"@ || kind == "piechart"@ || kind == "pie"@ {
            if lines.len() < 2 || words(lines[1]).len() == 0 {
                Err(())
            } else {
                match index_of_text(words(lines[1]).last()) {
                    Some(idx) => if kind == "histogram"@ || kind == "hist"@ {
                        Ok(ResponsePlotType::Histogram(idx))
                    } else {
                        Ok(ResponsePlotType::Piechart(idx))
                    },
                    None => Ok(ResponsePlotType::DataInsufficient),
                }
            }
        } else if kind == "data_insufficient"@ {
            Ok(ResponsePlotType::DataInsufficient)
        } else if kind == "none"@ {
            Ok(ResponsePlotType::NoPlot)
        } else {
            Err(())
        }
    }
}

fn lower_case(s: &Vec<char>) -> (out: Vec<char>)
    ensures
        out@ == lowered(s@),
{
    let mut out: Vec<char> = Vec::new();
    let mut i: usize = 0;
    while i < s.len()
        invariant
            i <= s.len(),
            out@ == lowered(s@).take(i as int),
        decreases s.len() - i,
    {
        out.push(to_lower(s[i]));
        assert(lowered(s@).take(i + 1) =~= lowered(s@).take(i as int).push(ascii_lower(s@[i as int])));
        i += 1;
    }
    assert(lowered(s@).take(i as int) == lowered(s@));
    out
}

fn last_word_index(lines: &Vec<Vec<char>>, at: usize) -> (r: Option<usize>)
    ensures
        r == last_index(views(lines@), at as int),
{
    if at >= lines.len() {
        return None;
    }
    assert(views(lines@)[at as int] == lines@[at as int]@);
    let tokens = split_words(&lines[at]);
    if tokens.len() == 0 {
        return None;
    }
    assert(views(tokens@).last() == tokens@[tokens.len() - 1]@);
    parse_index(&tokens[tokens.len() - 1])
}

impl ResponsePlotType {
    /// What an answer asks for.
    pub fn from_str(s: &str) -> (r: Result<ResponsePlotType, ()>)
        ensures
            r == plot_of(s@),
    {
        let chars = chars_of(s);
        let mut text = split(&chars, '\n');
        assert(views(text@).last() == text@[text.len() - 1]@);
        if text[text.len() - 1].len() == 0 {
            let ghost before = text@;
            text.pop();
            assert(views(text@) =~= views(before).drop_last());
        }
        let ghost lines = views(text@);
        assert(lines == lines_of(s@));
        if text.len() == 0 {
            return Err(());
        }
        assert(lines[0] == text@[0]@);
        let plot_type = lower_case(&trim(&text[0]));
        if spells(&plot_type, "bargraph") || spells(&plot_type, "bar") || spells(
            &plot_type,
            "scatterplot",
        ) || spells(&plot_type, "scatter") {
            let x = last_word_index(&text, 1);
            let y = last_word_index(&text, 2);
            match (x, y) {
                (Some(x), Some(y)) => {
                    if x >= 1 && y >= 1 {
                        Ok(ResponsePlotType::Bargraph((x - 1, y - 1)))
                    } else {
                        Ok(ResponsePlotType::DataInsufficient)
                    }
                },
                _ => Ok(ResponsePlotType::DataInsufficient),
            }
        } else if spells(&plot_type, "histogram") || spells(&plot_type, "hist") || spells(
            &plot_type,
            "piechart",
        ) || spells(&plot_type, "pie") {
            if text.len() < 2 {
                return Err(());
            }
            assert(lines[1] == text@[1]@);
            let tokens = split_words(&text[1]);
            if tokens.len() == 0 {
                return Err(());
            }
            assert(views(tokens@).last() == tokens@[tokens.len() - 1]@);
            match parse_index(&tokens[tokens.len() - 1]) {
                Some(idx) => {
                    if spells(&plot_type, "histogram") || spells(&plot_type, "hist") {
                        Ok(ResponsePlotType::Histogram(idx))
                    } else {
                        Ok(ResponsePlotType::Piechart(idx))
                    }
                },
                None => Ok(ResponsePlotType::DataInsufficient),
            }
        } else if spells(&plot_type, "data_insufficient") {
            Ok(ResponsePlotType::DataInsufficient)
        } else if spells(&plot_type, "none") {
            Ok(ResponsePlotType::NoPlot)
        } else {
            Err(())
        }
    }
}

/// What a line asks for.
#[derive(Clone, Copy, Debug, PartialEq, Eq, Structural)]
pub enum Operator {
    Assignment,
    AddRow,
    ExtendHeaders,
    Apply,
    DefineClosure,
    View,
    Prompt,
}

/// The operator that a word names.
pub open spec fn operator_of(s: Seq<char>) -> Option<Operator> {
    if s == "create"@ || s == "create_table"@ || s == "="@ {
        Some(Operator::Assignment)
    } else if s == "add_row"@ {
        Some(Operator::AddRow)
    } else if s == "headers"@ {
        Some(Operator::ExtendHeaders)
    } else if s == "apply"@ {
        Some(Operator::Apply)
    } else if s == "view"@ {
        Some(Operator::View)
    } else if s == "define"@ {
        Some(Operator::DefineClosure)
    } else if s == "prompt"@ {
        Some(Operator::Prompt)
    } else {
        None
    }
}

fn operator(token: &Vec<char>) -> (r: Option<Operator>)
    ensures
        r == operator_of(token@),
{
    if spells(token, "create") || spells(token, "create_table") || spells(token, "=") {
        Some(Operator::Assignment)
    } else if spells(token, "add_row") {
        Some(Operator::AddRow)
    } else if spells(token, "headers") {
        Some(Operator::ExtendHeaders)
    } else if spells(token, "apply") {
        Some(Operator::Apply)
    } else if spells(token, "view") {
        Some(Operator::View)
    } else if spells(token, "define") {
        Some(Operator::DefineClosure)
    } else if spells(token, "prompt") {
        Some(Operator::Prompt)
    } else {
        None
    }
}

impl Operator {
    /// The operator that a word names.
    pub fn from_str(s: &str) -> (r: Option<Operator>)
        ensures
            r == operator_of(s@),
    {
        let token = chars_of(s);
        operator(&token)
    }

    /// The word that names the operator.
    pub fn name(&self) -> (s: String)
        ensures
            s@ == (match self {
                Operator::Assignment => "create"@,
                Operator::AddRow => "add_row"@,
                Operator::ExtendHeaders => "headers"@,
                Operator::Apply => "apply"@,
                Operator::View => "view"@,
                Operator::DefineClosure => "define"@,
                Operator::Prompt => "prompt"@,
            }),
    {
        match self {
            Operator::Assignment => "create".to_owned(),
            Operator::AddRow => "add_row".to_owned(),
            Operator::ExtendHeaders => "headers".to_owned(),
            Operator::Apply => "apply".to_owned(),
            Operator::View => "view".to_owned(),
            Operator::DefineClosure => "define".to_owned(),
            Operator::Prompt => "prompt".to_owned(),
        }
    }
}

/// What a table is created with.
#[derive(Clone, Copy, Debug, PartialEq, Eq, Structural)]
pub enum Modifier {
    WithHeader,
    WithTitle,
}

/// The modifier that a word names.
pub open spec fn modifier_of(s: Seq<char>) -> Option<Modifier> {
    if s == "header"@ || s == "headers"@ {
        Some(Modifier::WithHeader)
    } else if s == "title"@ {
        Some(Modifier::WithTitle)
    } else {
        None
    }
}

/// The words that start a modifier.
pub open spec fn starts_modifier(s: Seq<char>) -> bool {
    s == "with"@ || s == "and"@
}

fn modifier(token: &Vec<char>) -> (r: Option<Modifier>)
    ensures
        r == modifier_of(token@),
{
    if spells(token, "header") || spells(token, "headers") {
        Some(Modifier::WithHeader)
    } else if spells(token, "title") {
        Some(Modifier::WithTitle)
    } else {
        None
    }
}

impl Modifier {
    /// Whether a word starts a modifier: `with` and `and` do.
    pub fn is_modifier(token: &str) -> (r: bool)
        ensures
            r == starts_modifier(token@),
    {
        let t = chars_of(token);
        spells(&t, "with") || spells(&t, "and")
    }

    /// The modifier that a word names.
    pub fn from_str(s: &str) -> (r: Option<Modifier>)
        ensures
            r == modifier_of(s@),
    {
        let token = chars_of(s);
        modifier(&token)
    }
}

/// A closure with its name.
#[derive(Debug)]
pub struct Named {
    pub name: String,
    pub closure: TableClosure,
}

impl View for Named {
    type V = (Seq<char>, ClosureModel);

    open spec fn view(&self) -> (Seq<char>, ClosureModel) {
        (self.name@, self.closure@)
    }
}

/// The interpreter: a program, the place in it of the next line, and the
/// tables and closures that the lines before have made.
pub struct VM {
    code_text: Vec<char>,
    pointer: usize,
    tables: Vec<Table>,
    closures: Vec<Named>,
    notices: Vec<Notice>,
    keyboard: KeyBoard<26, 6>,
}

/// What an interpreter holds.
pub struct VMModel {
    /// The program.
    pub code: Seq<char>,
    /// The place in the program of the next line.
    pub pointer: usize,
    /// The tables, in the order in which they were created.
    pub tables: Seq<TableModel>,
    /// The closures with their names, in the order in which they were
    /// defined.
    pub closures: Seq<(Seq<char>, ClosureModel)>,
    /// What the lines gave notice of, and was not taken yet.
    pub notices: Seq<NoticeModel>,
}

/// The views of tables.
pub open spec fn table_views(v: Seq<Table>) -> Seq<TableModel> {
    v.map_values(|t: Table| t@)
}

/// The views of closures with their names.
pub open spec fn named_views(v: Seq<Named>) -> Seq<(Seq<char>, ClosureModel)> {
    v.map_values(|n: Named| n@)
}

impl View for VM {
    type V = VMModel;

    closed spec fn view(&self) -> VMModel {
        VMModel {
            code: self.code_text@,
            pointer: self.pointer,
            tables: table_views(self.tables@),
            closures: named_views(self.closures@),
            notices: notice_views(self.notices@),
        }
    }
}

/// The names of tables.
pub open spec fn names_of(tables: Seq<TableModel>) -> Seq<Seq<char>> {
    tables.map_values(|t: TableModel| t.ident)
}

/// The names of closures.
pub open spec fn closure_names(closures: Seq<(Seq<char>, ClosureModel)>) -> Seq<Seq<char>> {
    closures.map_values(|c: (Seq<char>, ClosureModel)| c.0)
}

/// The first place at or after `from` where a name stands among names.
pub open spec fn position_from(names: Seq<Seq<char>>, name: Seq<char>, from: int) -> Option<int>
    decreases names.len() - from,
{
    if from < 0 || from >= names.len() {
        None
    } else if names[from] == name {
        Some(from)
    } else {
        position_from(names, name, from + 1)
    }
}

/// The first place where a name stands among names.
pub open spec fn position_of(names: Seq<Seq<char>>, name: Seq<char>) -> Option<int> {
    position_from(names, name, 0)
}

/// The place that is found holds the name, and no place before it does.
pub proof fn position_is_within(names: Seq<Seq<char>>, name: Seq<char>, from: int)
    requires
        0 <= from,
    ensures
        match position_from(names, name, from) {
            Some(at) => from <= at < names.len() && names[at] == name,
            None => forall|k: int| from <= k < names.len() ==> names[k] != name,
        },
    decreases names.len() - from,
{
    if from < names.len() && names[from] != name {
        position_is_within(names, name, from + 1);
    }
}

/// The suggestion for a token as notices: one, or none.
pub open spec fn hint_of(
    kb: &KeyBoard<26, 6>,
    words: Seq<Seq<char>>,
    token: Seq<char>,
) -> Seq<NoticeModel> {
    match suggestion(kb, words, token) {
        Some(w) => seq![NoticeModel::DidYouMean(w)],
        None => Seq::empty(),
    }
}

/// The interpreter with more notices.
pub open spec fn noted(vm: VMModel, notices: Seq<NoticeModel>) -> VMModel {
    VMModel { notices: vm.notices + notices, ..vm }
}

/// A failure that marks a part of the line.
pub open spec fn marked(line: Seq<char>, offset: int, width: int, fault: Fault) -> HaltModel {
    HaltModel::Error(
        DiagnosticModel { line, offset: offset as usize, width: width as usize, fault },
    )
}

/// A failure that marks nothing.
pub open spec fn bare(line: Seq<char>, fault: Fault) -> HaltModel {
    marked(line, 0, 0, fault)
}

/// What a modifier changes of a table.
#[derive(Debug)]
pub enum Change {
    Title(String),
    Headers(Row),
}

/// What a modifier changes of a table, as a model.
pub enum ChangeModel {
    Title(Seq<char>),
    Headers(Seq<CellModel>),
}

impl View for Change {
    type V = ChangeModel;

    open spec fn view(&self) -> ChangeModel {
        match self {
            Change::Title(s) => ChangeModel::Title(s@),
            Change::Headers(r) => ChangeModel::Headers(r@),
        }
    }
}

/// The views of changes.
pub open spec fn change_views(v: Seq<Change>) -> Seq<ChangeModel> {
    v.map_values(|c: Change| c@)
}

/// What the modifiers of a line come to: the changes that they make, the
/// notices that they give, and how they end.
pub struct Planned {
    pub changes: Seq<ChangeModel>,
    pub notices: Seq<NoticeModel>,
    pub end: Option<HaltModel>,
}

/// The notice of a literal that was not closed.
pub open spec fn unclosed_note(c: Collected) -> Seq<NoticeModel> {
    if c.unclosed {
        seq![NoticeModel::Unclosed]
    } else {
        Seq::empty()
    }
}

/// What the modifiers from word `i` on come to. `with` and `and` start a
/// modifier: the next word names it, and literals follow, at least one. A
/// title is the first of its literals; headers are the values that the
/// literals write. Another word in the place of `with` is passed over,
/// with a suggestion and a warning.
pub open spec fn plan_from(
    known: Map<QueryModel, AnswerModel>,
    kb: &KeyBoard<26, 6>,
    line: Seq<char>,
    tokens: Seq<Seq<char>>,
    i: int,
    offset: int,
    so_far: Planned,
) -> Planned
    decreases tokens.len() - i,
{
    if i < 0 || i >= tokens.len() {
        so_far
    } else {
        let word = tokens[i];
        let after = offset + byte_len(word) + 1;
        if starts_modifier(word) {
            if i + 1 >= tokens.len() {
                Planned { end: Some(marked(line, offset, byte_len(word) as int, Fault::NoModifier)), ..so_far }
            } else {
                let name = tokens[i + 1];
                let data = after + byte_len(name) + 1;
                match modifier_of(name) {
                    None => Planned {
                        notices: so_far.notices + hint_of(kb, candidates(Token::DataModifier), name),
                        end: Some(marked(line, after, byte_len(name) as int, Fault::UnknownModifier)),
                        ..so_far
                    },
                    Some(m) => {
                        let c = collect(tokens, i + 2, data, false, Seq::empty());
                        let notices = so_far.notices + unclosed_note(c);
                        if c.texts.len() == 0 || c.next <= i || c.next > tokens.len() {
                            Planned {
                                notices,
                                end: Some(marked(line, after, byte_len(name) as int, Fault::NoData)),
                                ..so_far
                            }
                        } else {
                            match m {
                                Modifier::WithTitle => plan_from(
                                    known,
                                    kb,
                                    line,
                                    tokens,
                                    c.next,
                                    c.offset,
                                    Planned {
                                        changes: so_far.changes.push(ChangeModel::Title(c.texts[0])),
                                        notices,
                                        ..so_far
                                    },
                                ),
                                Modifier::WithHeader => match all_literal_cells(known, c.texts) {
                                    Err(q) => Planned {
                                        notices,
                                        end: Some(HaltModel::Ask(q)),
                                        ..so_far
                                    },
                                    Ok(cells) => plan_from(
                                        known,
                                        kb,
                                        line,
                                        tokens,
                                        c.next,
                                        c.offset,
                                        Planned {
                                            changes: so_far.changes.push(ChangeModel::Headers(cells)),
                                            notices,
                                            ..so_far
                                        },
                                    ),
                                },
                            }
                        }
                    },
                }
            }
        } else {
            plan_from(
                known,
                kb,
                line,
                tokens,
                i + 1,
                after,
                Planned {
                    notices: so_far.notices + hint_of(kb, candidates(Token::Modifier), word)
                        + seq![NoticeModel::Ignored(word)],
                    ..so_far
                },
            )
        }
    }
}

/// A table after the first `n` of some changes.
pub open spec fn changed(t: TableModel, changes: Seq<ChangeModel>, n: int) -> TableModel
    decreases n,
{
    if n <= 0 || n > changes.len() {
        t
    } else {
        let before = changed(t, changes, n - 1);
        match changes[n - 1] {
            ChangeModel::Title(s) => before.with_title(s),
            ChangeModel::Headers(h) => before.with_headers(h),
        }
    }
}

/// What a line that creates a table does. The table is made anew, also
/// where one of its name exists, which is replaced in its place with a
/// warning. Then come the changes of the modifiers. Where the modifiers
/// fail, the table is left with the changes that came before.
pub open spec fn assigned(
    known: Map<QueryModel, AnswerModel>,
    kb: &KeyBoard<26, 6>,
    vm: VMModel,
    line: Seq<char>,
    tokens: Seq<Seq<char>>,
    offset: int,
) -> (VMModel, Result<EffectModel, HaltModel>) {
    let planned = plan_from(
        known,
        kb,
        line,
        tokens,
        2,
        offset,
        Planned { changes: Seq::empty(), notices: Seq::empty(), end: None },
    );
    let name = tokens[0];
    let table = changed(TableModel::fresh(name), planned.changes, planned.changes.len() as int);
    let after = match position_of(names_of(vm.tables), name) {
        Some(at) => VMModel {
            tables: vm.tables.update(at, table),
            notices: vm.notices + seq![NoticeModel::Overwritten(name)] + planned.notices,
            ..vm
        },
        None => VMModel {
            tables: vm.tables.push(table),
            notices: vm.notices + planned.notices,
            ..vm
        },
    };
    match planned.end {
        Some(h) => (after, Err(h)),
        None => (after, Ok(EffectModel::Nothing)),
    }
}

/// The notices that come with the literals of a row or of headers.
pub open spec fn literal_notes(c: Collected) -> Seq<NoticeModel> {
    if c.failed is Some {
        unclosed_note(c) + seq![NoticeModel::QuoteExpected]
    } else {
        unclosed_note(c)
    }
}

/// What a line that adds a row does to the table at `at`.
pub open spec fn row_added(
    known: Map<QueryModel, AnswerModel>,
    vm: VMModel,
    line: Seq<char>,
    tokens: Seq<Seq<char>>,
    at: int,
    offset: int,
) -> (VMModel, Result<EffectModel, HaltModel>) {
    let c = collect(tokens, 2, offset, true, Seq::empty());
    match c.failed {
        Some((o, w)) => (
            noted(vm, literal_notes(c)),
            Err(marked(line, o, w, Fault::LiteralExpected)),
        ),
        None => match append_literals(known, vm.tables[at], c.texts) {
            Err(q) => (vm, Err(HaltModel::Ask(q))),
            Ok((table, report)) => (
                VMModel {
                    tables: vm.tables.update(at, table),
                    notices: vm.notices + literal_notes(c) + (match report {
                        Appended::Whole => Seq::empty(),
                        Appended::Truncated => seq![
                            NoticeModel::Truncated(
                                c.texts.len() as usize,
                                vm.tables[at].headers.len() as usize,
                            ),
                        ],
                        Appended::NoHeaders => seq![NoticeModel::NoHeaders(c.texts.len() as usize)],
                    }),
                    ..vm
                },
                Ok(EffectModel::Nothing),
            ),
        },
    }
}

/// What a line that adds headers does to the table at `at`.
pub open spec fn headers_added(
    known: Map<QueryModel, AnswerModel>,
    vm: VMModel,
    line: Seq<char>,
    tokens: Seq<Seq<char>>,
    at: int,
    offset: int,
) -> (VMModel, Result<EffectModel, HaltModel>) {
    let c = collect(tokens, 2, offset, true, Seq::empty());
    match c.failed {
        Some((o, w)) => (
            noted(vm, literal_notes(c)),
            Err(marked(line, o, w, Fault::LiteralExpected)),
        ),
        None => match all_literal_cells(known, c.texts) {
            Err(q) => (vm, Err(HaltModel::Ask(q))),
            Ok(cells) => (
                VMModel {
                    tables: vm.tables.update(at, vm.tables[at].with_headers(cells)),
                    notices: vm.notices + literal_notes(c),
                    ..vm
                },
                Ok(EffectModel::Nothing),
            ),
        },
    }
}

/// The cell that the words `i` and `i + 1` name, a row and a column, with
/// the place that is marked after the row; or the failure.
pub open spec fn coordinate(line: Seq<char>, tokens: Seq<Seq<char>>, i: int, offset: int) -> Result<
    ((usize, usize), int),
    HaltModel,
> {
    if i < 0 || i >= tokens.len() {
        Err(marked(line, offset, 1, Fault::NoRowIndex))
    } else {
        let after = offset + byte_len(tokens[i]) + 1;
        if i + 1 >= tokens.len() {
            Err(marked(line, after, 1, Fault::NoColumnIndex))
        } else {
            match (index_of_text(tokens[i]), index_of_text(tokens[i + 1])) {
                (Some(row), Some(col)) => Ok(((row, col), after)),
                _ => Err(bare(line, Fault::BadIndex)),
            }
        }
    }
}

/// What a line that applies a closure does to the table at `at`. After the
/// operator come the name of the closure, the cell where the range starts,
/// and the cell where it ends, which is the first where it is left out or
/// is no cell.
pub open spec fn closure_applied(
    known: Map<QueryModel, AnswerModel>,
    vm: VMModel,
    line: Seq<char>,
    tokens: Seq<Seq<char>>,
    at: int,
    offset: int,
) -> (VMModel, Result<EffectModel, HaltModel>) {
    let first = noted(vm, seq![NoticeModel::Experimental]);
    if tokens.len() < 3 {
        (first, Err(marked(line, offset, 1, Fault::NoClosureName)))
    } else {
        let name = tokens[2];
        let after = offset + byte_len(name) + 1;
        match position_of(closure_names(vm.closures), name) {
            None => (first, Err(marked(line, after, byte_len(name) as int, Fault::UnknownClosure))),
            Some(c) => match coordinate(line, tokens, 3, after) {
                Err(h) => (first, Err(h)),
                Ok((start, then)) => {
                    let second = coordinate(line, tokens, 5, then);
                    let end = match second {
                        Ok((cell, _)) => cell,
                        Err(_) => start,
                    };
                    let notes = if second is Ok {
                        seq![NoticeModel::Experimental]
                    } else {
                        seq![NoticeModel::Experimental, NoticeModel::EndDefaulted]
                    };
                    let (table, stop) = applied(known, vm.closures[c].1, vm.tables[at], start, end);
                    let after_all = VMModel {
                        tables: vm.tables.update(at, table),
                        notices: vm.notices + notes,
                        ..vm
                    };
                    match stop {
                        Some(StopModel::Ask(q)) => (vm, Err(HaltModel::Ask(q))),
                        Some(StopModel::Fail(f)) => (after_all, Err(bare(line, f))),
                        None => (after_all, Ok(EffectModel::Nothing)),
                    }
                },
            },
        }
    }
}

/// The words from `from` on, with a space between each two.
pub open spec fn joined(tokens: Seq<Seq<char>>, from: int, upto: int) -> Seq<char>
    decreases upto - from,
{
    if from < 0 || upto > tokens.len() || from >= upto {
        Seq::empty()
    } else if from + 1 == upto {
        tokens[from]
    } else {
        joined(tokens, from, upto - 1) + seq![' '] + tokens[upto - 1]
    }
}

/// What a line that defines a closure does: the words after the operator
/// are the definition, and the first word of the line is the name. A
/// closure of that name is replaced in its place, with a warning.
pub open spec fn closure_defined(vm: VMModel, line: Seq<char>, tokens: Seq<Seq<char>>) -> (
    VMModel,
    Result<EffectModel, HaltModel>,
) {
    let first = noted(vm, seq![NoticeModel::Experimental]);
    let name = tokens[0];
    match closure_of(joined(tokens, 2, tokens.len() as int)) {
        Err(f) => (first, Err(bare(line, f))),
        Ok(c) => match position_of(closure_names(vm.closures), name) {
            Some(at) => (
                VMModel {
                    closures: vm.closures.update(at, (name, c)),
                    notices: vm.notices + seq![
                        NoticeModel::Experimental,
                        NoticeModel::ClosureOverwritten(name),
                    ],
                    ..vm
                },
                Ok(EffectModel::Nothing),
            ),
            None => (
                VMModel { closures: vm.closures.push((name, c)), ..first },
                Ok(EffectModel::Nothing),
            ),
        },
    }
}

/// A text without the quotes at its start.
pub open spec fn unquoted_start(s: Seq<char>) -> Seq<char>
    decreases s.len(),
{
    if s.len() > 0 && s[0] == '"' {
        unquoted_start(s.skip(1))
    } else {
        s
    }
}

/// A text without the quotes at its end.
pub open spec fn unquoted_end(s: Seq<char>) -> Seq<char>
    decreases s.len(),
{
    if s.len() > 0 && s.last() == '"' {
        unquoted_end(s.drop_last())
    } else {
        s
    }
}

/// What a line that asks a question on the table at `at` does: the words
/// after the operator, without the quotes around them, are the question,
/// which is left to be answered.
pub open spec fn prompted(vm: VMModel, tokens: Seq<Seq<char>>, at: int) -> (
    VMModel,
    Result<EffectModel, HaltModel>,
) {
    let question = unquoted_end(unquoted_start(joined(tokens, 2, tokens.len() as int)));
    (
        if vm.tables.len() > 1 {
            noted(vm, seq![NoticeModel::OneTableOnly])
        } else {
            vm
        },
        Ok(EffectModel::Prompt(at as usize, question)),
    )
}

/// What is suggested where a line names a table and nothing else.
pub open spec fn lone_name_notes(kb: &KeyBoard<26, 6>, vm: VMModel, name: Seq<char>) -> Seq<
    NoticeModel,
> {
    if position_of(names_of(vm.tables), name) is Some {
        seq![NoticeModel::ViewHint(name)]
    } else if vm.tables.len() > 0 {
        seq![NoticeModel::CreateHint(name)] + hint_of(kb, names_of(vm.tables), name)
    } else {
        seq![NoticeModel::CreateHint(name)]
    }
}

/// What a line does. Its first word names a table, its second an
/// operator. `render` alone asks for all tables to be written out. A table
/// is created by its line; a closure is defined under the first word as
/// its name; every other operator works on a table that exists.
pub open spec fn dispatched(
    known: Map<QueryModel, AnswerModel>,
    kb: &KeyBoard<26, 6>,
    vm: VMModel,
    line: Seq<char>,
) -> (VMModel, Result<EffectModel, HaltModel>) {
    let tokens = words(line);
    if tokens.len() == 0 {
        (vm, Ok(EffectModel::Nothing))
    } else if tokens[0] == "render"@ {
        (vm, Ok(EffectModel::Render))
    } else if weight(tokens, tokens.len() as int) > usize::MAX {
        (vm, Err(bare(line, Fault::LineTooLong)))
    } else {
        let name = tokens[0];
        let first = byte_len(name) + 1;
        if tokens.len() < 2 {
            (noted(vm, lone_name_notes(kb, vm, name)), Err(marked(line, first as int, 1, Fault::NoOperator)))
        } else {
            let offset = first + byte_len(tokens[1]) + 1;
            match operator_of(tokens[1]) {
                None => (
                    noted(vm, hint_of(kb, candidates(Token::Operator), tokens[1])),
                    Err(marked(line, first as int, byte_len(tokens[1]) as int, Fault::UnknownOperator)),
                ),
                Some(Operator::DefineClosure) => closure_defined(vm, line, tokens),
                Some(Operator::Assignment) => assigned(known, kb, vm, line, tokens, offset as int),
                Some(op) => match position_of(names_of(vm.tables), name) {
                    None => (
                        noted(vm, hint_of(kb, names_of(vm.tables), name)),
                        Err(marked(line, 0, byte_len(name) as int, Fault::UnknownTable)),
                    ),
                    Some(at) => match op {
                        Operator::AddRow => row_added(known, vm, line, tokens, at, offset as int),
                        Operator::ExtendHeaders => headers_added(
                            known,
                            vm,
                            line,
                            tokens,
                            at,
                            offset as int,
                        ),
                        Operator::Apply => closure_applied(
                            known,
                            vm,
                            line,
                            tokens,
                            at,
                            offset as int,
                        ),
                        Operator::View => (vm, Ok(EffectModel::View(at as usize))),
                        _ => prompted(vm, tokens, at),
                    },
                },
            }
        }
    }
}

/// Where the line that starts at `pointer` ends: at the next line feed, or
/// at the end of the program.
pub open spec fn line_end(code: Seq<char>, pointer: usize) -> int {
    find_from(
        code,
        '\n',
        if pointer > code.len() {
            code.len() as int
        } else {
            pointer as int
        },
    )
}

/// The next line of the program, without the white space around it.
pub open spec fn next_line(vm: VMModel) -> Seq<char> {
    let start = if vm.pointer > vm.code.len() {
        vm.code.len() as int
    } else {
        vm.pointer as int
    };
    trimmed(vm.code.subrange(start, line_end(vm.code, vm.pointer)))
}

/// The place in the program after the next line and its line feed.
pub open spec fn after_line(vm: VMModel) -> usize {
    let end = line_end(vm.code, vm.pointer);
    if end < vm.code.len() {
        (end + 1) as usize
    } else {
        vm.code.len() as usize
    }
}

/// What the next line does to the interpreter, and how it ends. Where it
/// stops with a question, nothing is changed, and the line is still the
/// next; else the next line is the one after it.
pub open spec fn line_effect(
    known: Map<QueryModel, AnswerModel>,
    kb: &KeyBoard<26, 6>,
    vm: VMModel,
) -> (VMModel, Result<EffectModel, HaltModel>) {
    let (after, result) = dispatched(known, kb, vm, next_line(vm));
    match result {
        Err(HaltModel::Ask(_)) => (vm, result),
        _ => (VMModel { pointer: after_line(vm), ..after }, result),
    }
}

/// Whether an interpreter and a result are what a line was to come to:
/// the result is as expected, and so is the interpreter, which is
/// unchanged where the line stopped with a question.
pub open spec fn follows(
    before: VMModel,
    after: VMModel,
    r: Result<Effect, Halt>,
    expected: (VMModel, Result<EffectModel, HaltModel>),
) -> bool {
    &&& ended(r) == expected.1
    &&& after == (match expected.1 {
        Err(HaltModel::Ask(_)) => before,
        _ => expected.0,
    })
}

fn note_all(notices: &mut Vec<Notice>, more: Vec<Notice>)
    ensures
        notice_views(final(notices)@) == notice_views(old(notices)@) + notice_views(more@),
{
    let mut more = more;
    let ghost added = more@;
    notices.append(&mut more);
    assert(notice_views(notices@) =~= notice_views(old(notices)@) + notice_views(added));
}

fn failure(line: &Vec<char>, offset: usize, width: usize, fault: Fault) -> (h: Halt)
    ensures
        h@ == marked(line@, offset as int, width as int, fault),
{
    Halt::Error(Diagnostic { line: string_of(line), offset, width, fault })
}

/// The modifiers of a line, as they were planned.
pub struct Plan {
    pub changes: Vec<Change>,
    pub notices: Vec<Notice>,
    pub end: Option<Halt>,
}

impl View for Plan {
    type V = Planned;

    open spec fn view(&self) -> Planned {
        Planned {
            changes: change_views(self.changes@),
            notices: notice_views(self.notices@),
            end: match self.end {
                Some(h) => Some(h@),
                None => None,
            },
        }
    }
}

/// The words from `from` on, with a space between each two.
fn join(tokens: &Vec<Vec<char>>, from: usize) -> (out: Vec<char>)
    ensures
        out@ == joined(views(tokens@), from as int, tokens@.len() as int),
{
    let ghost all = views(tokens@);
    let mut out: Vec<char> = Vec::new();
    if from >= tokens.len() {
        return out;
    }
    assert(all[from as int] == tokens@[from as int]@);
    push_all(&mut out, &tokens[from]);
    assert(out@ == all[from as int]);
    let mut k: usize = from + 1;
    while k < tokens.len()
        invariant
            from < k <= tokens.len(),
            all == views(tokens@),
            out@ == joined(all, from as int, k as int),
        decreases tokens.len() - k,
    {
        assert(all[k as int] == tokens@[k as int]@);
        out.push(' ');
        push_all(&mut out, &tokens[k]);
        k += 1;
    }
    out
}

/// A text without the quotes at its start and at its end.
fn unquote(s: &Vec<char>) -> (out: Vec<char>)
    ensures
        out@ == unquoted_end(unquoted_start(s@)),
{
    let mut from: usize = 0;
    assert(s@.skip(0) == s@);
    while from < s.len() && s[from] == '"'
        invariant
            from <= s.len(),
            unquoted_start(s@) == unquoted_start(s@.skip(from as int)),
        decreases s.len() - from,
    {
        assert(s@.skip(from as int).skip(1) == s@.skip(from + 1));
        from += 1;
    }
    let mut to: usize = s.len();
    assert(s@.subrange(from as int, to as int) == s@.skip(from as int));
    while to > from && s[to - 1] == '"'
        invariant
            from <= to <= s.len(),
            unquoted_end(unquoted_start(s@)) == unquoted_end(s@.subrange(from as int, to as int)),
        decreases to,
    {
        assert(s@.subrange(from as int, to as int).drop_last() == s@.subrange(
            from as int,
            to - 1,
        ));
        to -= 1;
    }
    slice_of(s, from, to)
}

impl VM {
    /// The keyboard that suggestions are made with.
    pub closed spec fn board(&self) -> &KeyBoard<26, 6> {
        &self.keyboard
    }

    /// An interpreter of a program, at its first line, without tables or
    /// closures.
    pub fn new(code: String) -> (vm: VM)
        ensures
            vm@ == (VMModel {
                code: code@,
                pointer: 0,
                tables: Seq::empty(),
                closures: Seq::empty(),
                notices: Seq::empty(),
            }),
    {
        let vm = VM {
            code_text: chars_of(code.as_str()),
            pointer: 0,
            tables: Vec::new(),
            closures: Vec::new(),
            notices: Vec::new(),
            keyboard: build_keyboard_distances(),
        };
        assert(vm@.tables =~= Seq::<TableModel>::empty());
        assert(vm@.closures =~= Seq::<(Seq<char>, ClosureModel)>::empty());
        assert(vm@.notices =~= Seq::<NoticeModel>::empty());
        vm
    }

    /// Takes another program, to be run from its first line on the tables
    /// and closures that there are.
    pub fn load(&mut self, code: String)
        ensures
            final(self)@ == (VMModel { code: code@, pointer: 0, ..old(self)@ }),
            final(self).board() == old(self).board(),
    {
        self.code_text = chars_of(code.as_str());
        self.pointer = 0;
    }

    /// The tables, in the order in which they were created.
    pub fn tables(&self) -> (tables: &Vec<Table>)
        ensures
            table_views(tables@) == self@.tables,
    {
        &self.tables
    }

    /// The closures with their names, in the order in which they were
    /// defined.
    pub fn closures(&self) -> (closures: &Vec<Named>)
        ensures
            named_views(closures@) == self@.closures,
    {
        &self.closures
    }

    /// The place in the program of the next line.
    pub fn pointer(&self) -> (p: usize)
        ensures
            p == self@.pointer,
    {
        self.pointer
    }

    /// Whether the program has no line left.
    pub fn finished(&self) -> (r: bool)
        ensures
            r == (self@.pointer >= self@.code.len()),
    {
        self.pointer >= self.code_text.len()
    }

    /// What the lines gave notice of since notices were last taken.
    pub fn notices(&self) -> (notices: &Vec<Notice>)
        ensures
            notice_views(notices@) == self@.notices,
    {
        &self.notices
    }

    /// Takes the notices, and leaves none.
    pub fn take_notices(&mut self) -> (notices: Vec<Notice>)
        ensures
            notice_views(notices@) == old(self)@.notices,
            final(self)@ == (VMModel { notices: Seq::empty(), ..old(self)@ }),
            final(self).board() == old(self).board(),
    {
        let mut taken: Vec<Notice> = Vec::new();
        std::mem::swap(&mut self.notices, &mut taken);
        assert(notice_views(self.notices@) =~= Seq::<NoticeModel>::empty());
        taken
    }

    /// The first table of a name.
    fn find_table(&self, name: &Vec<char>) -> (r: Option<usize>)
        ensures
            match r {
                Some(at) => position_of(names_of(self@.tables), name@) == Some(at as int) && at
                    < self@.tables.len(),
                None => position_of(names_of(self@.tables), name@) is None,
            },
    {
        let ghost names = names_of(self@.tables);
        let mut i: usize = 0;
        while i < self.tables.len()
            invariant
                i <= self.tables.len(),
                names == names_of(self@.tables),
                position_of(names, name@) == position_from(names, name@, i as int),
            decreases self.tables.len() - i,
        {
            assert(names[i as int] == self.tables@[i as int]@.ident);
            let ident = chars_of(self.tables[i].identifier());
            if same_chars(&ident, name) {
                return Some(i);
            }
            i += 1;
        }
        None
    }

    /// The first closure of a name.
    fn find_closure(&self, name: &Vec<char>) -> (r: Option<usize>)
        ensures
            match r {
                Some(at) => position_of(closure_names(self@.closures), name@) == Some(at as int)
                    && at < self@.closures.len(),
                None => position_of(closure_names(self@.closures), name@) is None,
            },
    {
        let ghost names = closure_names(self@.closures);
        let mut i: usize = 0;
        while i < self.closures.len()
            invariant
                i <= self.closures.len(),
                names == closure_names(self@.closures),
                position_of(names, name@) == position_from(names, name@, i as int),
            decreases self.closures.len() - i,
        {
            assert(names[i as int] == self.closures@[i as int].name@);
            let ident = chars_of(self.closures[i].name.as_str());
            if same_chars(&ident, name) {
                return Some(i);
            }
            i += 1;
        }
        None
    }

    /// The names of the tables.
    fn table_names(&self) -> (names: Vec<String>)
        ensures
            texts(names@) == names_of(self@.tables),
    {
        let mut names: Vec<String> = Vec::new();
        let mut i: usize = 0;
        while i < self.tables.len()
            invariant
                i <= self.tables.len(),
                texts(names@) == names_of(self@.tables).take(i as int),
            decreases self.tables.len() - i,
        {
            let ghost before = names@;
            let name = self.tables[i].identifier().to_owned();
            names.push(name);
            assert(texts(names@) =~= texts(before).push(name@));
            assert(names_of(self@.tables).take(i + 1) =~= names_of(self@.tables).take(i as int).push(
                self.tables@[i as int]@.ident,
            ));
            i += 1;
        }
        assert(names_of(self@.tables).take(i as int) == names_of(self@.tables));
        names
    }

    /// The suggestion for a token, as notices.
    fn hint(&self, token: &Vec<char>, kind: Token) -> (notes: Vec<Notice>)
        ensures
            notice_views(notes@) == hint_of(self.board(), candidates(kind), token@),
    {
        let word = string_of(token);
        let mut notes: Vec<Notice> = Vec::new();
        match keyboard_distance_matcher(&self.keyboard, word.as_str(), kind) {
            Some(w) => {
                notes.push(Notice::DidYouMean(w));
                assert(notice_views(notes@) =~= seq![NoticeModel::DidYouMean(w@)]);
            },
            None => {
                assert(notice_views(notes@) =~= Seq::<NoticeModel>::empty());
            },
        }
        notes
    }

    /// The suggestion of a table's name for a token, as notices.
    fn table_hint(&self, token: &Vec<char>) -> (notes: Vec<Notice>)
        ensures
            notice_views(notes@) == hint_of(self.board(), names_of(self@.tables), token@),
    {
        let names = self.table_names();
        self.hint(token, Token::Table(&names))
    }

    /// What the modifiers of a line come to.
    fn plan(
        &self,
        line: &Vec<char>,
        tokens: &Vec<Vec<char>>,
        sizes: &Vec<usize>,
        offset: usize,
        known: &Numerics,
    ) -> (p: Plan)
        requires
            tokens@.len() >= 2,
            sizes@.len() == tokens@.len(),
            forall|k: int|
                0 <= k < sizes@.len() ==> #[trigger] sizes@[k] == byte_len(views(tokens@)[k]),
            weight(views(tokens@), tokens@.len() as int) <= usize::MAX,
            offset <= weight(views(tokens@), 2),
        ensures
            p@ == plan_from(
                known@,
                self.board(),
                line@,
                views(tokens@),
                2,
                offset as int,
                Planned { changes: Seq::empty(), notices: Seq::empty(), end: None },
            ),
    {
        let ghost all = views(tokens@);
        let ghost whole = plan_from(
            known@,
            self.board(),
            line@,
            all,
            2,
            offset as int,
            Planned { changes: Seq::empty(), notices: Seq::empty(), end: None },
        );
        let mut changes: Vec<Change> = Vec::new();
        let mut notices: Vec<Notice> = Vec::new();
        let mut i: usize = 2;
        let mut place: usize = offset;
        assert(change_views(changes@) =~= Seq::<ChangeModel>::empty());
        assert(notice_views(notices@) =~= Seq::<NoticeModel>::empty());
        while i < tokens.len()
            invariant
                2 <= i <= tokens@.len(),
                all == views(tokens@),
                sizes@.len() == tokens@.len(),
                forall|k: int| 0 <= k < sizes@.len() ==> #[trigger] sizes@[k] == byte_len(all[k]),
                weight(all, tokens@.len() as int) <= usize::MAX,
                place <= weight(all, i as int),
                whole == plan_from(
                    known@,
                    self.board(),
                    line@,
                    all,
                    2,
                    offset as int,
                    Planned { changes: Seq::empty(), notices: Seq::empty(), end: None },
                ),
                whole == plan_from(
                    known@,
                    self.board(),
                    line@,
                    all,
                    i as int,
                    place as int,
                    Planned {
                        changes: change_views(changes@),
                        notices: notice_views(notices@),
                        end: None,
                    },
                ),
            decreases tokens.len() - i,
        {
            assert(all[i as int] == tokens@[i as int]@);
            proof {
                weight_grows(all, i + 1, tokens@.len() as int);
                assert(weight(all, i + 1) == weight(all, i as int) + byte_len(all[i as int]) + 4);
            }
            let modifier_token = &tokens[i];
            let temp_read_pointer = place;
            let after = place + sizes[i] + 1;
            if spells(modifier_token, "with") || spells(modifier_token, "and") {
                if i + 1 >= tokens.len() {
                    return Plan {
                        changes,
                        notices,
                        end: Some(failure(line, temp_read_pointer, sizes[i], Fault::NoModifier)),
                    };
                }
                assert(all[i + 1] == tokens@[i + 1]@);
                proof {
                    weight_grows(all, i + 2, tokens@.len() as int);
                    assert(weight(all, i + 2) == weight(all, i + 1) + byte_len(all[i + 1]) + 4);
                }
                let name = &tokens[i + 1];
                let data = after + sizes[i + 1] + 1;
                match modifier(name) {
                    None => {
                        let more = self.hint(name, Token::DataModifier);
                        note_all(&mut notices, more);
                        return Plan {
                            changes,
                            notices,
                            end: Some(failure(line, after, sizes[i + 1], Fault::UnknownModifier)),
                        };
                    },
                    Some(m) => {
                        let g = gather(tokens, sizes, i + 2, data, false);
                        if g.unclosed {
                            let ghost before = notices@;
                            notices.push(Notice::Unclosed);
                            assert(notice_views(notices@) =~= notice_views(before) + seq![
                                NoticeModel::Unclosed,
                            ]);
                        } else {
                            assert(notice_views(notices@) =~= notice_views(notices@)
                                + Seq::<NoticeModel>::empty());
                        }
                        if g.texts.len() == 0 {
                            return Plan {
                                changes,
                                notices,
                                end: Some(failure(line, after, sizes[i + 1], Fault::NoData)),
                            };
                        }
                        match m {
                            Modifier::WithTitle => {
                                let ghost before = changes@;
                                let title = g.texts[0].clone();
                                changes.push(Change::Title(title));
                                assert(change_views(changes@) =~= change_views(before).push(
                                    ChangeModel::Title(g@.texts[0]),
                                ));
                            },
                            Modifier::WithHeader => {
                                match cells_of_literals(&g.texts, g.texts.len(), known) {
                                    Err(q) => {
                                        return Plan {
                                            changes,
                                            notices,
                                            end: Some(Halt::Ask(q)),
                                        };
                                    },
                                    Ok(cells) => {
                                        let ghost before = changes@;
                                        changes.push(Change::Headers(Row { cells }));
                                        assert(change_views(changes@) =~= change_views(before).push(
                                            ChangeModel::Headers(cell_views(cells@)),
                                        ));
                                    },
                                }
                            },
                        }
                        i = g.next;
                        place = g.offset;
                    },
                }
            } else {
                let more = self.hint(modifier_token, Token::Modifier);
                note_all(&mut notices, more);
                let ghost before = notices@;
                notices.push(Notice::Ignored(string_of(modifier_token)));
                assert(notice_views(notices@) =~= notice_views(before) + seq![
                    NoticeModel::Ignored(all[i as int]),
                ]);
                i += 1;
                place = after;
            }
        }
        Plan { changes, notices, end: None }
    }
}

fn literal_notices(unclosed: bool, failed: bool) -> (notes: Vec<Notice>)
    ensures
        notice_views(notes@) == (if failed {
            (if unclosed {
                seq![NoticeModel::Unclosed]
            } else {
                Seq::<NoticeModel>::empty()
            }) + seq![NoticeModel::QuoteExpected]
        } else {
            if unclosed {
                seq![NoticeModel::Unclosed]
            } else {
                Seq::<NoticeModel>::empty()
            }
        }),
{
    let mut notes: Vec<Notice> = Vec::new();
    if unclosed {
        notes.push(Notice::Unclosed);
    }
    if failed {
        notes.push(Notice::QuoteExpected);
    }
    assert(notice_views(notes@) =~= (if failed {
        (if unclosed {
            seq![NoticeModel::Unclosed]
        } else {
            Seq::<NoticeModel>::empty()
        }) + seq![NoticeModel::QuoteExpected]
    } else {
        if unclosed {
            seq![NoticeModel::Unclosed]
        } else {
            Seq::<NoticeModel>::empty()
        }
    }));
    notes
}

/// The cell that the words `i` and `i + 1` name.
fn read_coordinate(
    line: &Vec<char>,
    tokens: &Vec<Vec<char>>,
    sizes: &Vec<usize>,
    i: usize,
    offset: usize,
) -> (r: Result<((usize, usize), usize), Halt>)
    requires
        measured(views(tokens@), sizes@),
        i <= tokens@.len(),
        offset <= weight(views(tokens@), i as int),
    ensures
        match r {
            Ok((cell, after)) => coordinate(line@, views(tokens@), i as int, offset as int) == Ok::<
                ((usize, usize), int),
                HaltModel,
            >((cell, after as int)) && i + 2 <= tokens@.len() && after <= weight(
                views(tokens@),
                i + 2,
            ),
            Err(h) => coordinate(line@, views(tokens@), i as int, offset as int) == Err::<
                ((usize, usize), int),
                HaltModel,
            >(h@),
        },
{
    let ghost all = views(tokens@);
    if i >= tokens.len() {
        return Err(failure(line, offset, 1, Fault::NoRowIndex));
    }
    assert(all[i as int] == tokens@[i as int]@);
    proof {
        weight_grows(all, i + 1, tokens@.len() as int);
        assert(weight(all, i + 1) == weight(all, i as int) + byte_len(all[i as int]) + 4);
        weight_grows(all, i + 1, i + 2);
    }
    let after = offset + sizes[i] + 1;
    if i + 1 >= tokens.len() {
        return Err(failure(line, after, 1, Fault::NoColumnIndex));
    }
    assert(all[i + 1] == tokens@[i + 1]@);
    match (parse_index(&tokens[i]), parse_index(&tokens[i + 1])) {
        (Some(row), Some(col)) => Ok(((row, col), after)),
        _ => Err(failure(line, 0, 0, Fault::BadIndex)),
    }
}

impl VM {
    /// Creates the table of a line, with what its modifiers give it.
    fn assign(
        &mut self,
        line: &Vec<char>,
        tokens: &Vec<Vec<char>>,
        sizes: &Vec<usize>,
        offset: usize,
        known: &Numerics,
    ) -> (r: Result<Effect, Halt>)
        requires
            tokens@.len() >= 2,
            measured(views(tokens@), sizes@),
            offset <= weight(views(tokens@), 2),
        ensures
            final(self).board() == old(self).board(),
            final(self)@.code == old(self)@.code,
            final(self)@.pointer == old(self)@.pointer,
            follows(
                old(self)@,
                final(self)@,
                r,
                assigned(
                    known@,
                    old(self).board(),
                    old(self)@,
                    line@,
                    views(tokens@),
                    offset as int,
                ),
            ),
    {
        let ghost all = views(tokens@);
        let p = self.plan(line, tokens, sizes, offset, known);
        let ghost planned = p@;
        let Plan { changes, notices, end } = p;
        let end = match end {
            Some(Halt::Ask(q)) => {
                return Err(Halt::Ask(q));
            },
            other => other,
        };
        assert(all[0] == tokens@[0]@);
        let name = string_of(&tokens[0]);
        let mut table = Table::new(name.clone());
        let mut k: usize = 0;
        while k < changes.len()
            invariant
                k <= changes.len(),
                planned.changes == change_views(changes@),
                table@ == changed(TableModel::fresh(name@), planned.changes, k as int),
            decreases changes.len() - k,
        {
            assert(planned.changes[k as int] == changes@[k as int]@);
            match &changes[k] {
                Change::Title(s) => {
                    table.assign_title(s.clone());
                },
                Change::Headers(row) => {
                    table.extend_headers(copy_row(row).cells);
                },
            }
            k += 1;
        }
        match self.find_table(&tokens[0]) {
            Some(at) => {
                let ghost before = self.tables@;
                self.tables.set(at, table);
                assert(table_views(self.tables@) =~= table_views(before).update(at as int, table@));
                let ghost noted_before = self.notices@;
                self.notices.push(Notice::Overwritten(name));
                assert(notice_views(self.notices@) =~= notice_views(noted_before) + seq![
                    NoticeModel::Overwritten(name@),
                ]);
            },
            None => {
                let ghost before = self.tables@;
                self.tables.push(table);
                assert(table_views(self.tables@) =~= table_views(before).push(table@));
            },
        }
        note_all(&mut self.notices, notices);
        match end {
            Some(h) => Err(h),
            None => Ok(Effect::Nothing),
        }
    }

    /// Adds the row of a line to the table at `at`.
    fn add_row(
        &mut self,
        at: usize,
        line: &Vec<char>,
        tokens: &Vec<Vec<char>>,
        sizes: &Vec<usize>,
        offset: usize,
        known: &Numerics,
    ) -> (r: Result<Effect, Halt>)
        requires
            at < old(self)@.tables.len(),
            tokens@.len() >= 2,
            measured(views(tokens@), sizes@),
            offset <= weight(views(tokens@), 2),
        ensures
            final(self).board() == old(self).board(),
            final(self)@.code == old(self)@.code,
            final(self)@.pointer == old(self)@.pointer,
            follows(
                old(self)@,
                final(self)@,
                r,
                row_added(known@, old(self)@, line@, views(tokens@), at as int, offset as int),
            ),
    {
        let g = gather(tokens, sizes, 2, offset, true);
        if let Some((o, w)) = g.failed {
            note_all(&mut self.notices, literal_notices(g.unclosed, true));
            return Err(failure(line, o, w, Fault::LiteralExpected));
        }
        let given = g.texts.len();
        let width = self.tables[at].dimensions().1;
        let ghost before = self.tables@;
        let ghost noted_before = self.notices@;
        assert(table_views(before)[at as int] == before[at as int]@);
        let appended = self.tables[at].append_literals(&g.texts, known);
        assert(table_views(self.tables@) =~= table_views(before).update(
            at as int,
            self.tables@[at as int]@,
        ));
        match appended {
            Err(q) => {
                assert(table_views(self.tables@) =~= table_views(before));
                Err(Halt::Ask(q))
            },
            Ok(report) => {
                let mut notes = literal_notices(g.unclosed, false);
                let ghost first = notice_views(notes@);
                let ghost tail: Seq<NoticeModel> = match report {
                    Appended::Whole => Seq::empty(),
                    Appended::Truncated => seq![NoticeModel::Truncated(given, width)],
                    Appended::NoHeaders => seq![NoticeModel::NoHeaders(given)],
                };
                match report {
                    Appended::Whole => {},
                    Appended::Truncated => {
                        notes.push(Notice::Truncated(given, width));
                    },
                    Appended::NoHeaders => {
                        notes.push(Notice::NoHeaders(given));
                    },
                }
                assert(notice_views(notes@) =~= first + tail);
                note_all(&mut self.notices, notes);
                assert(notice_views(self.notices@) =~= notice_views(noted_before) + first + tail);
                Ok(Effect::Nothing)
            },
        }
    }

    /// Adds the headers of a line to the table at `at`.
    fn extend(
        &mut self,
        at: usize,
        line: &Vec<char>,
        tokens: &Vec<Vec<char>>,
        sizes: &Vec<usize>,
        offset: usize,
        known: &Numerics,
    ) -> (r: Result<Effect, Halt>)
        requires
            at < old(self)@.tables.len(),
            tokens@.len() >= 2,
            measured(views(tokens@), sizes@),
            offset <= weight(views(tokens@), 2),
        ensures
            final(self).board() == old(self).board(),
            final(self)@.code == old(self)@.code,
            final(self)@.pointer == old(self)@.pointer,
            follows(
                old(self)@,
                final(self)@,
                r,
                headers_added(known@, old(self)@, line@, views(tokens@), at as int, offset as int),
            ),
    {
        let g = gather(tokens, sizes, 2, offset, true);
        if let Some((o, w)) = g.failed {
            note_all(&mut self.notices, literal_notices(g.unclosed, true));
            return Err(failure(line, o, w, Fault::LiteralExpected));
        }
        match cells_of_literals(&g.texts, g.texts.len(), known) {
            Err(q) => Err(Halt::Ask(q)),
            Ok(cells) => {
                let ghost before = self.tables@;
                self.tables[at].extend_headers(cells);
                assert(table_views(self.tables@) =~= table_views(before).update(
                    at as int,
                    self.tables@[at as int]@,
                ));
                note_all(&mut self.notices, literal_notices(g.unclosed, false));
                Ok(Effect::Nothing)
            },
        }
    }

    /// Applies the closure that a line names to the table at `at`.
    fn apply(
        &mut self,
        at: usize,
        line: &Vec<char>,
        tokens: &Vec<Vec<char>>,
        sizes: &Vec<usize>,
        offset: usize,
        known: &Numerics,
    ) -> (r: Result<Effect, Halt>)
        requires
            at < old(self)@.tables.len(),
            tokens@.len() >= 2,
            measured(views(tokens@), sizes@),
            offset <= weight(views(tokens@), 2),
        ensures
            final(self).board() == old(self).board(),
            final(self)@.code == old(self)@.code,
            final(self)@.pointer == old(self)@.pointer,
            follows(
                old(self)@,
                final(self)@,
                r,
                closure_applied(
                    known@,
                    old(self)@,
                    line@,
                    views(tokens@),
                    at as int,
                    offset as int,
                ),
            ),
    {
        let ghost all = views(tokens@);
        let ghost noted_before = self.notices@;
        if tokens.len() < 3 {
            self.notices.push(Notice::Experimental);
            assert(notice_views(self.notices@) =~= notice_views(noted_before) + seq![
                NoticeModel::Experimental,
            ]);
            return Err(failure(line, offset, 1, Fault::NoClosureName));
        }
        assert(all[2] == tokens@[2]@);
        proof {
            weight_grows(all, 3, tokens@.len() as int);
            assert(weight(all, 3) == weight(all, 2) + byte_len(all[2]) + 4);
        }
        let closure_name_token = &tokens[2];
        let after = offset + sizes[2] + 1;
        let c = match self.find_closure(closure_name_token) {
            Some(c) => c,
            None => {
                self.notices.push(Notice::Experimental);
                assert(notice_views(self.notices@) =~= notice_views(noted_before) + seq![
                    NoticeModel::Experimental,
                ]);
                return Err(failure(line, after, sizes[2], Fault::UnknownClosure));
            },
        };
        let (start, then) = match read_coordinate(line, tokens, sizes, 3, after) {
            Ok(found) => found,
            Err(h) => {
                self.notices.push(Notice::Experimental);
                assert(notice_views(self.notices@) =~= notice_views(noted_before) + seq![
                    NoticeModel::Experimental,
                ]);
                return Err(h);
            },
        };
        let second = read_coordinate(line, tokens, sizes, 5, then);
        let (end, defaulted) = match second {
            Ok((cell, _)) => (cell, false),
            Err(_) => (start, true),
        };
        let ghost before = self.tables@;
        assert(named_views(self.closures@)[c as int] == self.closures@[c as int]@);
        let outcome = self.closures[c].closure.apply(&mut self.tables[at], start, end, known);
        assert(table_views(self.tables@) =~= table_views(before).update(
            at as int,
            self.tables@[at as int]@,
        ));
        match outcome {
            Err(Stop::Ask(q)) => {
                assert(table_views(self.tables@) =~= table_views(before));
                Err(Halt::Ask(q))
            },
            other => {
                self.notices.push(Notice::Experimental);
                if defaulted {
                    self.notices.push(Notice::EndDefaulted);
                    assert(notice_views(self.notices@) =~= notice_views(noted_before) + seq![
                        NoticeModel::Experimental,
                        NoticeModel::EndDefaulted,
                    ]);
                } else {
                    assert(notice_views(self.notices@) =~= notice_views(noted_before) + seq![
                        NoticeModel::Experimental,
                    ]);
                }
                match other {
                    Err(Stop::Fail(f)) => Err(failure(line, 0, 0, f)),
                    _ => Ok(Effect::Nothing),
                }
            },
        }
    }

    /// Defines the closure of a line.
    fn define(&mut self, line: &Vec<char>, tokens: &Vec<Vec<char>>) -> (r: Result<Effect, Halt>)
        requires
            tokens@.len() >= 2,
        ensures
            final(self).board() == old(self).board(),
            final(self)@.code == old(self)@.code,
            final(self)@.pointer == old(self)@.pointer,
            follows(
                old(self)@,
                final(self)@,
                r,
                closure_defined(old(self)@, line@, views(tokens@)),
            ),
    {
        let ghost all = views(tokens@);
        let ghost noted_before = self.notices@;
        assert(all[0] == tokens@[0]@);
        let defination = string_of(&join(tokens, 2));
        let name = string_of(&tokens[0]);
        match TableClosure::new(defination) {
            Err(f) => {
                self.notices.push(Notice::Experimental);
                assert(notice_views(self.notices@) =~= notice_views(noted_before) + seq![
                    NoticeModel::Experimental,
                ]);
                Err(failure(line, 0, 0, f))
            },
            Ok(closure) => {
                let ghost before = self.closures@;
                match self.find_closure(&tokens[0]) {
                    Some(at) => {
                        self.notices.push(Notice::Experimental);
                        self.notices.push(Notice::ClosureOverwritten(name.clone()));
                        assert(notice_views(self.notices@) =~= notice_views(noted_before) + seq![
                            NoticeModel::Experimental,
                            NoticeModel::ClosureOverwritten(name@),
                        ]);
                        let named = Named { name, closure };
                        self.closures.set(at, named);
                        assert(named_views(self.closures@) =~= named_views(before).update(
                            at as int,
                            named@,
                        ));
                    },
                    None => {
                        self.notices.push(Notice::Experimental);
                        assert(notice_views(self.notices@) =~= notice_views(noted_before) + seq![
                            NoticeModel::Experimental,
                        ]);
                        let named = Named { name, closure };
                        self.closures.push(named);
                        assert(named_views(self.closures@) =~= named_views(before).push(named@));
                    },
                }
                Ok(Effect::Nothing)
            },
        }
    }

    /// Hands on the question of a line on the table at `at`.
    fn prompt(&mut self, at: usize, tokens: &Vec<Vec<char>>) -> (r: Result<Effect, Halt>)
        ensures
            final(self).board() == old(self).board(),
            final(self)@.code == old(self)@.code,
            final(self)@.pointer == old(self)@.pointer,
            follows(old(self)@, final(self)@, r, prompted(old(self)@, views(tokens@), at as int)),
    {
        let question = string_of(&unquote(&join(tokens, 2)));
        if self.tables.len() > 1 {
            let ghost noted_before = self.notices@;
            self.notices.push(Notice::OneTableOnly);
            assert(notice_views(self.notices@) =~= notice_views(noted_before) + seq![
                NoticeModel::OneTableOnly,
            ]);
        }
        Ok(Effect::Prompt(at, question))
    }

    /// Does what a line asks.
    fn dispatch(&mut self, code_line: &Vec<char>, known: &Numerics) -> (r: Result<Effect, Halt>)
        ensures
            final(self).board() == old(self).board(),
            final(self)@.code == old(self)@.code,
            final(self)@.pointer == old(self)@.pointer,
            follows(
                old(self)@,
                final(self)@,
                r,
                dispatched(known@, old(self).board(), old(self)@, code_line@),
            ),
    {
        let token = split_words(code_line);
        let ghost all = views(token@);
        if token.len() == 0 {
            return Ok(Effect::Nothing);
        }
        assert(all[0] == token@[0]@);
        let table_name_token = &token[0];
        if spells(table_name_token, "render") {
            return Ok(Effect::Render);
        }
        let sizes = match sizes_of(&token) {
            Some(sizes) => sizes,
            None => {
                return Err(failure(code_line, 0, 0, Fault::LineTooLong));
            },
        };
        proof {
            weight_grows(all, 1, token@.len() as int);
            assert(weight(all, 1) == weight(all, 0) + byte_len(all[0]) + 4);
        }
        let read_pointer = sizes[0] + 1;
        if token.len() < 2 {
            let ghost noted_before = self.notices@;
            let name = string_of(table_name_token);
            match self.find_table(table_name_token) {
                Some(_) => {
                    self.notices.push(Notice::ViewHint(name));
                    assert(notice_views(self.notices@) =~= notice_views(noted_before) + seq![
                        NoticeModel::ViewHint(name@),
                    ]);
                },
                None => {
                    let more = if self.tables.len() > 0 {
                        self.table_hint(table_name_token)
                    } else {
                        Vec::new()
                    };
                    self.notices.push(Notice::CreateHint(name));
                    note_all(&mut self.notices, more);
                    assert(notice_views(self.notices@) =~= notice_views(noted_before) + (seq![
                        NoticeModel::CreateHint(name@),
                    ] + notice_views(more@)));
                },
            }
            return Err(failure(code_line, read_pointer, 1, Fault::NoOperator));
        }
        assert(all[1] == token@[1]@);
        proof {
            weight_grows(all, 2, token@.len() as int);
            assert(weight(all, 2) == weight(all, 1) + byte_len(all[1]) + 4);
        }
        let offset = read_pointer + sizes[1] + 1;
        match operator(&token[1]) {
            None => {
                let more = self.hint(&token[1], Token::Operator);
                note_all(&mut self.notices, more);
                Err(failure(code_line, read_pointer, sizes[1], Fault::UnknownOperator))
            },
            Some(Operator::DefineClosure) => self.define(code_line, &token),
            Some(Operator::Assignment) => self.assign(code_line, &token, &sizes, offset, known),
            Some(op) => {
                match self.find_table(table_name_token) {
                    None => {
                        let more = self.table_hint(table_name_token);
                        note_all(&mut self.notices, more);
                        Err(failure(code_line, 0, sizes[0], Fault::UnknownTable))
                    },
                    Some(at) => {
                        match op {
                            Operator::AddRow => self.add_row(
                                at,
                                code_line,
                                &token,
                                &sizes,
                                offset,
                                known,
                            ),
                            Operator::ExtendHeaders => self.extend(
                                at,
                                code_line,
                                &token,
                                &sizes,
                                offset,
                                known,
                            ),
                            Operator::Apply => self.apply(
                                at,
                                code_line,
                                &token,
                                &sizes,
                                offset,
                                known,
                            ),
                            Operator::View => Ok(Effect::View(at)),
                            _ => self.prompt(at, &token),
                        }
                    },
                }
            },
        }
    }

    /// Runs the next line of the program. What it gives notice of is added
    /// to the notices. Where it stops with a question on numbers, nothing
    /// is changed: the same line runs again once the answer is known.
    pub fn interpret_next_line(&mut self, known: &Numerics) -> (r: Result<Effect, Halt>)
        ensures
            final(self).board() == old(self).board(),
            final(self)@.code == old(self)@.code,
            (final(self)@, ended(r)) == line_effect(known@, old(self).board(), old(self)@),
    {
        let len = self.code_text.len();
        let start = if self.pointer > len {
            len
        } else {
            self.pointer
        };
        let end = find_char(&self.code_text, '\n', start);
        let raw = slice_of(&self.code_text, start, end);
        let code_line = trim(&raw);
        let next = if end < len {
            end + 1
        } else {
            len
        };
        match self.dispatch(&code_line, known) {
            Err(Halt::Ask(q)) => Err(Halt::Ask(q)),
            other => {
                self.pointer = next;
                other
            },
        }
    }
}

/// What the lines from the next on do, up to the first that leaves
/// something to do, stops with a question or fails, or to the end of the
/// program.
pub open spec fn run_effect(
    known: Map<QueryModel, AnswerModel>,
    kb: &KeyBoard<26, 6>,
    vm: VMModel,
) -> (VMModel, Result<EffectModel, HaltModel>)
    decreases vm.code.len() - vm.pointer,
{
    if vm.pointer >= vm.code.len() {
        (vm, Ok(EffectModel::Nothing))
    } else {
        let out = line_effect(known, kb, vm);
        if out.1 == Ok::<EffectModel, HaltModel>(EffectModel::Nothing) && out.0.pointer
            > vm.pointer && out.0.pointer <= vm.code.len() && out.0.code == vm.code {
            run_effect(known, kb, out.0)
        } else {
            out
        }
    }
}

/// The texts of the first `n` tables in a format, with a line feed between
/// each two.
pub open spec fn tables_text(
    known: Map<QueryModel, AnswerModel>,
    tables: Seq<TableModel>,
    n: int,
    html: bool,
) -> Result<Seq<char>, QueryModel>
    decreases n,
{
    if n <= 0 || n > tables.len() {
        Ok(Seq::empty())
    } else {
        match tables_text(known, tables, n - 1, html) {
            Err(q) => Err(q),
            Ok(head) => match (if html {
                html_of(known, tables[n - 1])
            } else {
                csv_of(known, tables[n - 1])
            }) {
                Err(q) => Err(q),
                Ok(text) => if n == 1 {
                    Ok(text)
                } else {
                    Ok(head + seq!['\n'] + text)
                },
            },
        }
    }
}

/// A question that stops the first tables stops them all.
pub proof fn tables_text_stops(
    known: Map<QueryModel, AnswerModel>,
    tables: Seq<TableModel>,
    k: int,
    n: int,
    html: bool,
)
    requires
        0 <= k <= n <= tables.len(),
        tables_text(known, tables, k, html) is Err,
    ensures
        tables_text(known, tables, n, html) == tables_text(known, tables, k, html),
    decreases n,
{
    if k < n {
        tables_text_stops(known, tables, k, n - 1, html);
    }
}

impl VM {
    /// Runs the lines of the program from the next on, up to the first
    /// that leaves something to do, stops with a question or fails, or to
    /// the end of the program.
    pub fn interpret(&mut self, known: &Numerics) -> (r: Result<Effect, Halt>)
        ensures
            final(self).board() == old(self).board(),
            final(self)@.code == old(self)@.code,
            (final(self)@, ended(r)) == run_effect(known@, old(self).board(), old(self)@),
    {
        while self.pointer < self.code_text.len()
            invariant
                self.board() == old(self).board(),
                self@.code == old(self)@.code,
                run_effect(known@, old(self).board(), old(self)@) == run_effect(
                    known@,
                    self.board(),
                    self@,
                ),
            decreases self.code_text.len() - self.pointer,
        {
            let ghost before = self@;
            proof {
                find_from_bounds(before.code, '\n', before.pointer as int);
            }
            match self.interpret_next_line(known) {
                Ok(Effect::Nothing) => {},
                other => {
                    return other;
                },
            }
        }
        Ok(Effect::Nothing)
    }

    fn all_tables(&self, html: bool, known: &Numerics) -> (r: Result<String, Query>)
        ensures
            text_result(r) == tables_text(known@, self@.tables, self@.tables.len() as int, html),
    {
        let ghost all = self@.tables;
        let mut out = String::new();
        let mut i: usize = 0;
        while i < self.tables.len()
            invariant
                i <= self.tables.len(),
                all == self@.tables,
                tables_text(known@, all, i as int, html) == Ok::<Seq<char>, QueryModel>(out@),
            decreases self.tables.len() - i,
        {
            assert(all[i as int] == self.tables@[i as int]@);
            let text = if html {
                self.tables[i].to_html(known)
            } else {
                self.tables[i].to_csv(known)
            };
            match text {
                Err(q) => {
                    proof {
                        tables_text_stops(known@, all, i + 1, all.len() as int, html);
                    }
                    return Err(q);
                },
                Ok(text) => {
                    let ghost head = out@;
                    if i > 0 {
                        out.push('\n');
                        assert(out@ =~= head + seq!['\n']);
                    } else {
                        assert(head =~= Seq::<char>::empty());
                        assert(head + text@ =~= text@);
                    }
                    out.append(text.as_str());
                },
            }
            i += 1;
        }
        Ok(out)
    }
}

impl Save for VM {
    /// All tables as CSV, with a line feed between each two.
    open spec fn csv(&self, known: Map<QueryModel, AnswerModel>) -> Result<Seq<char>, QueryModel> {
        tables_text(known, self@.tables, self@.tables.len() as int, false)
    }

    /// All tables as HTML, with a line feed between each two.
    open spec fn html(&self, known: Map<QueryModel, AnswerModel>) -> Result<Seq<char>, QueryModel> {
        tables_text(known, self@.tables, self@.tables.len() as int, true)
    }

    fn to_csv(&self, known: &Numerics) -> (r: Result<String, Query>) {
        self.all_tables(false, known)
    }

    fn to_html(&self, known: &Numerics) -> (r: Result<String, Query>) {
        self.all_tables(true, known)
    }
}

/// A line that creates a table whose name exists puts a new table in its
/// place: the name as its title, no headers, no rows, and then what the
/// modifiers of the line give it. Nothing of what the table held is left;
/// the other tables stay as they are, and a warning is given.
pub proof fn create_again_starts_anew(
    known: Map<QueryModel, AnswerModel>,
    kb: &KeyBoard<26, 6>,
    vm: VMModel,
    other: VMModel,
    line: Seq<char>,
    tokens: Seq<Seq<char>>,
    offset: int,
    at: int,
)
    requires
        tokens.len() >= 2,
        position_of(names_of(vm.tables), tokens[0]) == Some(at),
        position_of(names_of(other.tables), tokens[0]) == Some(at),
    ensures
        0 <= at < vm.tables.len(),
        assigned(known, kb, vm, line, tokens, offset).0.tables.len() == vm.tables.len(),
        forall|k: int|
            0 <= k < vm.tables.len() && k != at ==> assigned(
                known,
                kb,
                vm,
                line,
                tokens,
                offset,
            ).0.tables[k] == vm.tables[k],
        assigned(known, kb, vm, line, tokens, offset).0.tables[at] == assigned(
            known,
            kb,
            other,
            line,
            tokens,
            offset,
        ).0.tables[at],
        tokens.len() == 2 ==> assigned(known, kb, vm, line, tokens, offset).0.tables[at]
            == TableModel::fresh(tokens[0]) && assigned(known, kb, vm, line, tokens, offset).1
            == Ok::<EffectModel, HaltModel>(EffectModel::Nothing),
        assigned(known, kb, vm, line, tokens, offset).0.notices.len() > vm.notices.len(),
        assigned(known, kb, vm, line, tokens, offset).0.notices[vm.notices.len() as int]
            == NoticeModel::Overwritten(tokens[0]),
{
    position_is_within(names_of(vm.tables), tokens[0], 0);
    position_is_within(names_of(other.tables), tokens[0], 0);
}

/// A line that applies a closure whose name was never defined fails as an
/// undefined closure, and leaves every table as it was.
pub proof fn undefined_closure_changes_nothing(
    known: Map<QueryModel, AnswerModel>,
    vm: VMModel,
    line: Seq<char>,
    tokens: Seq<Seq<char>>,
    at: int,
    offset: int,
)
    requires
        tokens.len() >= 3,
        position_of(closure_names(vm.closures), tokens[2]) is None,
    ensures
        closure_applied(known, vm, line, tokens, at, offset).0.tables == vm.tables,
        closure_applied(known, vm, line, tokens, at, offset).0.closures == vm.closures,
        match closure_applied(known, vm, line, tokens, at, offset).1 {
            Err(HaltModel::Error(d)) => d.fault == Fault::UnknownClosure && d.fault.class()
                == crate::error::ErrorKind::UndefinedClosure,
            _ => false,
        },
{
}

/// The next line of a program is `<name> create`, and a table of that name
/// exists: the line puts in its place the table as it is created, with the
/// name as its title and neither headers nor rows, gives a warning, and
/// leaves the other tables as they are.
pub proof fn create_line_resets(
    known: Map<QueryModel, AnswerModel>,
    kb: &KeyBoard<26, 6>,
    vm: VMModel,
    at: int,
)
    requires
        words(next_line(vm)).len() == 2,
        words(next_line(vm))[0] != "render"@,
        weight(words(next_line(vm)), 2) <= usize::MAX,
        operator_of(words(next_line(vm))[1]) == Some(Operator::Assignment),
        position_of(names_of(vm.tables), words(next_line(vm))[0]) == Some(at),
    ensures
        line_effect(known, kb, vm).1 == Ok::<EffectModel, HaltModel>(EffectModel::Nothing),
        line_effect(known, kb, vm).0.tables == vm.tables.update(
            at,
            TableModel::fresh(words(next_line(vm))[0]),
        ),
        line_effect(known, kb, vm).0.notices == vm.notices + seq![
            NoticeModel::Overwritten(words(next_line(vm))[0]),
        ],
        line_effect(known, kb, vm).0.closures == vm.closures,
{
    let line = next_line(vm);
    let tokens = words(line);
    let offset = byte_len(tokens[0]) + 1 + byte_len(tokens[1]) + 1;
    let planned = plan_from(
        known,
        kb,
        line,
        tokens,
        2,
        offset as int,
        Planned { changes: Seq::empty(), notices: Seq::empty(), end: None },
    );
    assert(planned == Planned { changes: Seq::empty(), notices: Seq::empty(), end: None });
    assert(changed(TableModel::fresh(tokens[0]), planned.changes, 0) == TableModel::fresh(
        tokens[0],
    ));
    assert(vm.notices + seq![NoticeModel::Overwritten(tokens[0])] + planned.notices =~= vm.notices
        + seq![NoticeModel::Overwritten(tokens[0])]);
}

/// The next line of a program applies a closure to a table that exists,
/// and no closure of that name was defined: the line fails as an undefined
/// closure, and leaves every table and every closure as it was.
pub proof fn undefined_closure_line_fails(
    known: Map<QueryModel, AnswerModel>,
    kb: &KeyBoard<26, 6>,
    vm: VMModel,
)
    requires
        words(next_line(vm)).len() >= 3,
        words(next_line(vm))[0] != "render"@,
        weight(words(next_line(vm)), words(next_line(vm)).len() as int) <= usize::MAX,
        operator_of(words(next_line(vm))[1]) == Some(Operator::Apply),
        position_of(names_of(vm.tables), words(next_line(vm))[0]) is Some,
        position_of(closure_names(vm.closures), words(next_line(vm))[2]) is None,
    ensures
        line_effect(known, kb, vm).0.tables == vm.tables,
        line_effect(known, kb, vm).0.closures == vm.closures,
        match line_effect(known, kb, vm).1 {
            Err(HaltModel::Error(d)) => d.fault == Fault::UnknownClosure && d.fault.class()
                == crate::error::ErrorKind::UndefinedClosure,
            _ => false,
        },
{
}

} // verus!
