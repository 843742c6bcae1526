use tabula::cell::Cell;
use tabula::chart::{page, Chart, ChartKind};
use tabula::compiler::{ResponsePlotType, VM};
use tabula::error::{ErrorKind, Fault, Stop};
use tabula::numerics::{Answer, Numerics, Operation, Query};
use tabula::report::{Diagnostic, Effect, Halt, Notice};
use tabula::table::{copy_row, Appended, OutputType, Row, Save, Table};

fn answer(query: &Query) -> Answer {
    match query {
        Query::Parse(text) => match text.parse::<f64>() {
            Ok(n) => Answer::Number(n.to_bits()),
            Err(_) => Answer::NotNumber,
        },
        Query::Render(bits) => Answer::Text(format!("{}", f64::from_bits(*bits))),
        Query::Compute(op, a, b) => {
            let (a, b) = (f64::from_bits(*a), f64::from_bits(*b));
            let r = match op {
                Operation::Add => a + b,
                Operation::Subtract => a - b,
                Operation::Multiply => a * b,
                Operation::Divide => a / b,
                Operation::Mod => a % b,
            };
            Answer::Number(r.to_bits())
        }
        Query::FromIndex(i) => Answer::Number((*i as f64).to_bits()),
        Query::CeilIndex(bits) => Answer::Index(f64::from_bits(*bits).ceil() as usize),
    }
}

fn number(n: f64) -> Cell {
    Cell::Number(n.to_bits())
}

fn text(s: &str) -> Cell {
    Cell::Text(s.to_string())
}

fn run_line(vm: &mut VM, known: &mut Numerics) -> Result<Effect, Diagnostic> {
    loop {
        match vm.interpret_next_line(known) {
            Ok(effect) => return Ok(effect),
            Err(Halt::Error(d)) => return Err(d),
            Err(Halt::Ask(q)) => {
                let a = answer(&q);
                known.learn(q, a);
            }
        }
    }
}

fn append(t: &mut Table, row: &str, known: &mut Numerics) -> Appended {
    loop {
        match t.append_row(row.to_string(), known) {
            Ok(a) => return a,
            Err(q) => {
                let a = answer(&q);
                known.learn(q, a);
            }
        }
    }
}

fn append_from(t: &mut Table, row: Vec<&str>, known: &mut Numerics) -> Appended {
    loop {
        match t.append_row_from(row.clone(), known) {
            Ok(a) => return a,
            Err(q) => {
                let a = answer(&q);
                known.learn(q, a);
            }
        }
    }
}

fn csv(t: &Table, known: &mut Numerics) -> String {
    loop {
        match t.to_csv(known) {
            Ok(s) => return s,
            Err(q) => {
                let a = answer(&q);
                known.learn(q, a);
            }
        }
    }
}

fn html(t: &Table, known: &mut Numerics) -> String {
    loop {
        match t.to_html(known) {
            Ok(s) => return s,
            Err(q) => {
                let a = answer(&q);
                known.learn(q, a);
            }
        }
    }
}

#[test]
pub fn create_table() {
    let mut known = Numerics::new();
    let mut t = Table::new("t".to_string());
    t.assign_title("Table".to_string());
    t.extend_headers(vec![
        Cell::Text("Header 1".to_string()),
        Cell::Text("Header 2".to_string()),
        Cell::Text("Header 3".to_string()),
    ]);
    append(
        &mut t,
        "Row 1 Col 1,Row 1 Col 2,Row 1 Col 3,Row 1 Col 4",
        &mut known,
    );

    assert_eq!(t.title(), "Table");
    assert_eq!(t.rows()[0].len(), 3);
    assert_eq!(t.dimensions(), (1, 3));
}

#[test]
pub fn create_table_from_code() {
    let code = r#"table1 create with title "Table 1"
            table1 create with title "overwritten"
            table1 create with title "overwritten once" with title "overwritten twice"
            "#;
    let mut known = Numerics::new();
    let mut vm = VM::new(code.to_string());
    assert!(vm.tables().len() == 0);
    run_line(&mut vm, &mut known).unwrap();
    assert!(vm.tables().len() == 1);
    assert_eq!(vm.tables()[0].title(), "Table 1");

    run_line(&mut vm, &mut known).unwrap();
    assert!(vm.tables().len() == 1);
    assert_eq!(vm.tables()[0].title(), "overwritten");

    run_line(&mut vm, &mut known).unwrap();
    assert!(vm.tables().len() == 1);
    assert_eq!(vm.tables()[0].title(), "overwritten twice");
}

#[test]
pub fn header_and_row() {
    let code = r#"t create_table with title "Table 1"
            t headers "Header 1" "Header 2" "Header 3"
            t add_row "Row 1 Col 1" "Row 1 Col 2" "Row 1 Col 3"
            t add_row
            t add_row "Row 3 Col 1" "87" "47.63" "99.1"
            t add_row "Row 4 Col 1" "32"
            "#;
    let mut known = Numerics::new();
    let mut vm = VM::new(code.to_string());

    run_line(&mut vm, &mut known).unwrap();
    run_line(&mut vm, &mut known).unwrap();
    assert!(vm.tables()[0].rows().len() == 0);

    run_line(&mut vm, &mut known).unwrap();
    assert!(vm.tables()[0].rows().len() == 1);

    run_line(&mut vm, &mut known).unwrap();
    assert!(vm.tables()[0].rows().len() == 2);

    run_line(&mut vm, &mut known).unwrap();
    assert!(vm.tables()[0].rows().len() == 3);
    assert_eq!(
        vm.tables()[0].rows()[1],
        Row {
            cells: vec![Cell::Empty, Cell::Empty, Cell::Empty]
        }
    );
    assert_eq!(
        vm.tables()[0].rows()[2],
        Row {
            cells: vec![
                Cell::Text("Row 3 Col 1".to_string()),
                number(87.0),
                number(47.63),
            ]
        }
    );

    run_line(&mut vm, &mut known).unwrap();
    assert!(vm.tables()[0].rows().len() == 4);
    assert_eq!(
        *vm.tables()[0].rows().last().unwrap(),
        Row {
            cells: vec![
                Cell::Text("Row 4 Col 1".to_string()),
                number(32.0),
                Cell::Empty
            ]
        }
    );
}

#[test]
fn new_table_has_its_name_as_title() {
    let t = Table::new("sales".to_string());
    assert_eq!(t.identifier(), "sales");
    assert_eq!(t.title(), "sales");
    assert_eq!(t.dimensions(), (0, 0));
    assert_eq!(t.headers().len(), 0);
}

#[test]
fn row_is_padded_with_empty_cells() {
    let mut known = Numerics::new();
    let mut t = Table::new("t".to_string());
    t.extend_headers(vec![text("a"), text("b"), text("c")]);
    let report = append_from(&mut t, vec!["1"], &mut known);
    assert_eq!(report, Appended::Whole);
    assert_eq!(
        t.rows()[0],
        Row {
            cells: vec![number(1.0), Cell::Empty, Cell::Empty]
        }
    );
}

#[test]
fn row_is_truncated_to_the_headers() {
    let mut known = Numerics::new();
    let mut t = Table::new("t".to_string());
    t.extend_headers(vec![text("a"), text("b")]);
    let report = append_from(&mut t, vec!["x", "true", "3"], &mut known);
    assert_eq!(report, Appended::Truncated);
    assert_eq!(
        t.rows()[0],
        Row {
            cells: vec![text("x"), Cell::Boolean(true)]
        }
    );
}

#[test]
fn row_before_headers_is_not_added() {
    let mut known = Numerics::new();
    let mut t = Table::new("t".to_string());
    let report = append_from(&mut t, vec!["1", "2"], &mut known);
    assert_eq!(report, Appended::NoHeaders);
    assert_eq!(t.dimensions(), (0, 0));
}

#[test]
fn append_stops_with_the_question_and_changes_nothing() {
    let known = Numerics::new();
    let mut t = Table::new("t".to_string());
    t.extend_headers(vec![text("a")]);
    match t.append_row("12".to_string(), &known) {
        Err(Query::Parse(s)) => assert_eq!(s, "12"),
        other => panic!("unexpected: {:?}", other),
    }
    assert_eq!(t.dimensions(), (0, 1));
}

#[test]
fn headers_added_later_widen_the_rows() {
    let mut known = Numerics::new();
    let mut t = Table::new("t".to_string());
    t.extend_headers(vec![text("a")]);
    append(&mut t, "1", &mut known);
    t.extend_headers(vec![text("b"), text("c")]);
    assert_eq!(t.dimensions(), (1, 3));
    assert_eq!(
        t.rows()[0],
        Row {
            cells: vec![number(1.0), Cell::Empty, Cell::Empty]
        }
    );
}

#[test]
fn csv_is_exact() {
    let mut known = Numerics::new();
    let mut t = Table::new("t".to_string());
    t.assign_title("T".to_string());
    t.extend_headers(vec![text("H1"), text("H2")]);
    append_from(&mut t, vec!["1", "x"], &mut known);
    assert_eq!(csv(&t, &mut known), "T\nH1,H2,\n1,x,\n");
}

#[test]
fn html_is_exact() {
    let mut known = Numerics::new();
    let mut t = Table::new("t".to_string());
    t.assign_title("T".to_string());
    t.extend_headers(vec![text("H1"), text("H2")]);
    append_from(&mut t, vec!["1.5", "false"], &mut known);
    assert_eq!(
        html(&t, &mut known),
        "T<br><table><tr><th>H1</th><th>H2</th></tr><tr><td>1.5</td><td>false</td></tr></table><br/>"
    );
}

#[test]
fn empty_table_as_csv_and_html() {
    let mut known = Numerics::new();
    let t = Table::new("t".to_string());
    assert_eq!(csv(&t, &mut known), "t\n\n");
    assert_eq!(html(&t, &mut known), "t<br><table><tr></tr></table><br/>");
}

#[test]
fn save_gives_the_bytes_of_the_text() {
    let known = Numerics::new();
    let mut t = Table::new("t".to_string());
    t.extend_headers(vec![text("é")]);
    assert_eq!(
        t.save_to_string(OutputType::Csv, &known).unwrap(),
        "t\né,\n"
    );
    assert_eq!(
        t.save(OutputType::Csv, &known).unwrap(),
        "t\né,\n".as_bytes().to_vec()
    );
    assert_eq!(
        t.save_to_string(OutputType::Html, &known).unwrap(),
        "t<br><table><tr><th>é</th></tr></table><br/>"
    );
    assert_eq!(OutputType::Csv.name(), "csv");
    assert_eq!(OutputType::Html.name(), "html");
}

#[test]
fn cells_are_found_by_row_and_column() {
    let mut known = Numerics::new();
    let mut t = Table::new("t".to_string());
    t.extend_headers(vec![text("a"), text("b")]);
    append(&mut t, "1,2", &mut known);
    append(&mut t, "3,4", &mut known);
    assert_eq!(*t.get_cell(1, 0).unwrap(), number(3.0));
    assert_eq!(t.get_cell(2, 0), Err(Fault::RowOutOfBounds));
    assert_eq!(t.get_cell(0, 2), Err(Fault::ColumnOutOfBounds));
    assert_eq!(t.get_column(1).unwrap(), vec![&number(2.0), &number(4.0)]);
    assert_eq!(t.get_column(2), Err(Fault::ColumnOutOfBounds));
    assert_eq!(
        *t.get_row(0).unwrap(),
        Row {
            cells: vec![number(1.0), number(2.0)]
        }
    );
    assert!(t.get_row(2).is_err());
}

#[test]
fn a_cell_is_changed_in_place() {
    let mut known = Numerics::new();
    let mut t = Table::new("t".to_string());
    t.extend_headers(vec![text("a"), text("b")]);
    append(&mut t, "1,2", &mut known);
    *t.get_cell_mut(0, 1).unwrap() = text("new");
    assert_eq!(
        t.rows()[0],
        Row {
            cells: vec![number(1.0), text("new")]
        }
    );
    assert_eq!(t.get_cell_mut(1, 0).err(), Some(Fault::RowOutOfBounds));
    assert_eq!(t.get_cell_mut(0, 5).err(), Some(Fault::ColumnOutOfBounds));
    assert_eq!(t.dimensions(), (1, 2));
}

#[test]
fn empty_rows_are_as_wide_as_the_headers() {
    let mut t = Table::new("t".to_string());
    t.extend_headers(vec![text("a"), text("b")]);
    t.create_empty_row();
    assert_eq!(t.rows()[0].len(), 2);
    assert_eq!(Row::new(3).cells, vec![Cell::Empty, Cell::Empty, Cell::Empty]);
    let mut row = Row::new(1);
    row.fit(3);
    assert_eq!(row.len(), 3);
    row.fit(0);
    assert_eq!(row.len(), 0);
}

#[test]
fn creating_again_resets_the_table() {
    let code = "t create with title \"First\" with headers \"a\" \"b\"\nt add_row \"1\" \"2\"\nu create\nt create\n";
    let mut known = Numerics::new();
    let mut vm = VM::new(code.to_string());
    for _ in 0..3 {
        run_line(&mut vm, &mut known).unwrap();
    }
    assert_eq!(vm.tables()[0].title(), "First");
    assert_eq!(vm.tables()[0].dimensions(), (1, 2));
    vm.take_notices();
    run_line(&mut vm, &mut known).unwrap();
    assert_eq!(vm.tables().len(), 2);
    assert_eq!(vm.tables()[0].identifier(), "t");
    assert_eq!(vm.tables()[0].title(), "t");
    assert_eq!(vm.tables()[0].dimensions(), (0, 0));
    assert_eq!(vm.tables()[1].identifier(), "u");
    assert_eq!(
        vm.take_notices(),
        vec![Notice::Overwritten("t".to_string())]
    );
}

#[test]
fn undefined_closure_fails_and_leaves_the_table() {
    let code = "t create with headers \"a\"\nt add_row \"5\"\nt apply sum 0 0\n";
    let mut known = Numerics::new();
    let mut vm = VM::new(code.to_string());
    run_line(&mut vm, &mut known).unwrap();
    run_line(&mut vm, &mut known).unwrap();
    let before = csv(&vm.tables()[0], &mut known);
    let d = run_line(&mut vm, &mut known).unwrap_err();
    assert_eq!(d.fault, Fault::UnknownClosure);
    assert_eq!(d.kind(), ErrorKind::UndefinedClosure);
    assert_eq!(csv(&vm.tables()[0], &mut known), before);
    assert_eq!(vm.tables()[0].dimensions(), (1, 1));
}

#[test]
fn auto_accumulator_takes_the_fold() {
    let code = "sum define auto;each!acc!~op ~cell +;\nt create with headers \"a\"\nt add_row \"5\"\nt apply sum 0 0 0 0\n";
    let mut known = Numerics::new();
    let mut vm = VM::new(code.to_string());
    for _ in 0..4 {
        run_line(&mut vm, &mut known).unwrap();
    }
    assert_eq!(vm.tables()[0].dimensions(), (2, 1));
    assert_eq!(*vm.tables()[0].get_cell(0, 0).unwrap(), number(5.0));
    assert_eq!(*vm.tables()[0].get_cell(1, 0).unwrap(), number(5.0));
}

#[test]
fn fold_runs_row_by_row() {
    let code = "cat define auto;each!acc!~op ~cell +;\nt create with headers \"a\" \"b\"\nt add_row \"x\" \"y\"\nt add_row \"z\" \"w\"\nt apply cat 0 0 1 1\n";
    let mut known = Numerics::new();
    let mut vm = VM::new(code.to_string());
    for _ in 0..5 {
        run_line(&mut vm, &mut known).unwrap();
    }
    assert_eq!(vm.tables()[0].dimensions(), (3, 2));
    assert_eq!(*vm.tables()[0].get_cell(2, 0).unwrap(), text("xyzw"));
    assert_eq!(*vm.tables()[0].get_cell(2, 1).unwrap(), Cell::Empty);
}

#[test]
fn fold_adds_numbers() {
    let code = "sum define auto;each!acc!~op ~cell +;\nt create with headers \"a\" \"b\"\nt add_row \"1\" \"2\"\nt add_row \"3\" \"4.5\"\nt apply sum 0 0 1 1\n";
    let mut known = Numerics::new();
    let mut vm = VM::new(code.to_string());
    for _ in 0..5 {
        run_line(&mut vm, &mut known).unwrap();
    }
    assert_eq!(*vm.tables()[0].get_cell(2, 0).unwrap(), number(10.5));
}

#[test]
fn apply_stops_with_a_question_and_changes_nothing() {
    let code = "sum define auto;each!acc!~op ~cell +;\nt create with headers \"a\"\nt add_row \"1\"\nt add_row \"2\"\nt apply sum 0 0 1 0\n";
    let mut known = Numerics::new();
    let mut vm = VM::new(code.to_string());
    for _ in 0..4 {
        run_line(&mut vm, &mut known).unwrap();
    }
    vm.take_notices();
    let at = vm.pointer();
    match vm.interpret_next_line(&known) {
        Err(Halt::Ask(Query::Compute(Operation::Add, a, b))) => {
            assert_eq!(f64::from_bits(a), 1.0);
            assert_eq!(f64::from_bits(b), 2.0);
        }
        other => panic!("unexpected: {:?}", other),
    }
    assert_eq!(vm.pointer(), at);
    assert_eq!(vm.tables()[0].dimensions(), (2, 1));
    assert!(vm.notices().is_empty());
    run_line(&mut vm, &mut known).unwrap();
    assert_eq!(*vm.tables()[0].get_cell(2, 0).unwrap(), number(3.0));
    assert_eq!(vm.take_notices(), vec![Notice::Experimental]);
}

#[test]
fn end_of_range_defaults_to_its_start() {
    let code = "sum define auto;each!acc!~op ~cell +;\nt create with headers \"a\"\nt add_row \"7\"\nt apply sum 0 0\n";
    let mut known = Numerics::new();
    let mut vm = VM::new(code.to_string());
    for _ in 0..3 {
        run_line(&mut vm, &mut known).unwrap();
    }
    vm.take_notices();
    run_line(&mut vm, &mut known).unwrap();
    assert_eq!(*vm.tables()[0].get_cell(1, 0).unwrap(), number(7.0));
    assert_eq!(
        vm.take_notices(),
        vec![Notice::Experimental, Notice::EndDefaulted]
    );
}

#[test]
fn failing_apply_is_reported_without_a_mark() {
    let code = "bad define auto;each!acc!~cell 0 /;\nt create with headers \"a\"\nt add_row \"7\"\nt apply bad 0 0\n";
    let mut known = Numerics::new();
    let mut vm = VM::new(code.to_string());
    for _ in 0..3 {
        run_line(&mut vm, &mut known).unwrap();
    }
    let d = run_line(&mut vm, &mut known).unwrap_err();
    assert_eq!(d.fault, Fault::DivisionByZero);
    assert_eq!(d.kind(), ErrorKind::TypeCoercionError);
    assert_eq!(d.width, 0);
    assert_eq!(d.to_text(), "Cannot divide by zero!");
    assert_eq!(vm.tables()[0].dimensions(), (2, 1));
}

#[test]
fn stop_carries_question_or_failure() {
    let known = Numerics::new();
    match number(1.0).mul(number(2.0), &known) {
        Err(Stop::Ask(Query::Compute(Operation::Multiply, a, b))) => {
            assert_eq!(a, 1.0f64.to_bits());
            assert_eq!(b, 2.0f64.to_bits());
        }
        other => panic!("unexpected: {:?}", other),
    }
    match text("a").mul(number(2.0), &known) {
        Err(Stop::Fail(f)) => assert_eq!(f, Fault::TextOperand),
        other => panic!("unexpected: {:?}", other),
    }
}

fn chart(t: &Table, graph: ResponsePlotType, known: &mut Numerics) -> Result<Chart, Fault> {
    loop {
        match t.table_view(graph, known) {
            Ok(c) => return Ok(c),
            Err(Stop::Fail(f)) => return Err(f),
            Err(Stop::Ask(q)) => {
                let a = answer(&q);
                known.learn(q, a);
            }
        }
    }
}

#[test]
fn charts_show_columns_under_their_headers() {
    let mut known = Numerics::new();
    let mut t = Table::new("t".to_string());
    t.assign_title("Sales".to_string());
    t.extend_headers(vec![text("month"), number(2024.0)]);
    append(&mut t, "jan,10", &mut known);
    append(&mut t, "feb,12.5", &mut known);
    assert_eq!(
        chart(&t, ResponsePlotType::Bargraph((0, 1)), &mut known),
        Ok(Chart {
            kind: ChartKind::Bar,
            name: "Sales".to_string(),
            x: vec![text("jan"), text("feb")],
            y: vec![number(10.0), number(12.5)],
            x_axis: "month".to_string(),
            y_axis: "2024".to_string(),
        })
    );
    assert_eq!(
        chart(&t, ResponsePlotType::Scatterplot((1, 0)), &mut known),
        Ok(Chart {
            kind: ChartKind::Scatter,
            name: "Sales".to_string(),
            x: vec![number(10.0), number(12.5)],
            y: vec![text("jan"), text("feb")],
            x_axis: "2024".to_string(),
            y_axis: "month".to_string(),
        })
    );
    assert_eq!(
        chart(&t, ResponsePlotType::Histogram(1), &mut known),
        Ok(Chart {
            kind: ChartKind::Histogram,
            name: "Sales".to_string(),
            x: vec![number(10.0), number(12.5)],
            y: vec![],
            x_axis: "2024".to_string(),
            y_axis: String::new(),
        })
    );
    assert_eq!(
        chart(&t, ResponsePlotType::DataInsufficient, &mut known).map(|c| c.kind),
        Ok(ChartKind::DataInsufficient)
    );
    assert_eq!(
        chart(&t, ResponsePlotType::NoPlot, &mut known).map(|c| c.kind),
        Ok(ChartKind::NoPlot)
    );
    assert_eq!(
        chart(&t, ResponsePlotType::Bargraph((0, 2)), &mut known),
        Err(Fault::ColumnOutOfBounds)
    );
    assert_eq!(
        chart(&t, ResponsePlotType::Histogram(7), &mut known),
        Err(Fault::ColumnOutOfBounds)
    );
    let empty = Table::new("e".to_string());
    assert_eq!(
        chart(&empty, ResponsePlotType::Histogram(0), &mut known),
        Err(Fault::ColumnOutOfBounds)
    );
}

#[test]
fn chart_stops_with_the_question_on_a_header() {
    let known = Numerics::new();
    let mut t = Table::new("t".to_string());
    t.extend_headers(vec![number(1.0)]);
    match t.table_view(ResponsePlotType::Histogram(0), &known) {
        Err(Stop::Ask(Query::Render(bits))) => assert_eq!(f64::from_bits(bits), 1.0),
        other => panic!("unexpected: {:?}", other),
    }
}

#[test]
fn question_on_the_plot_holds_the_table() {
    let mut known = Numerics::new();
    let mut t = Table::new("t".to_string());
    t.extend_headers(vec![text("a")]);
    append(&mut t, "1", &mut known);
    let question = loop {
        match t.view_prompt(&known) {
            Ok(s) => break s,
            Err(q) => {
                let a = answer(&q);
                known.learn(q, a);
            }
        }
    };
    assert_eq!(
        question,
        format!(
            "I am working with CSV file format, and want to make a plot out of following data:\nTable Name: {}\nwhat kind of plot should I use, give response from one of \"Scatter\", \"Histogram\", \"Bargraph\", followed by the Column number used to be plot in next line:\nFor example:\nBargraph\nx = 1\ny = 2\nthis will indicate to plot column 1 on x-axis and column 2 on y-axis in a bar graph.\nFor \"Bargraph\" and \"Scatter\" mention both x and y value (strictly an integer which represents column number) and for \"Histogram\" only mention the x value (strictly an integer which represents column number).\nYou can also respond with \"None\" in case no plot is relevant and \"Data Insufficient\" in case data is insufficient.",
            "t\na,\n1,\n"
        )
    );
}

#[test]
fn page_stands_around_the_tables() {
    assert_eq!(
        page("<b>x</b>"),
        "<!DOCTYPE html><html><body><style>table,th,td{border:1px solid black;padding:3px;margin:2px;}</style><b>x</b></body></html>"
    );
}

#[test]
fn copies_hold_the_same() {
    let mut known = Numerics::new();
    let mut t = Table::new("t".to_string());
    t.assign_title("T".to_string());
    t.extend_headers(vec![text("a"), text("b")]);
    append(&mut t, "1,x", &mut known);
    let mut copy = t.copy();
    assert_eq!(copy.identifier(), "t");
    assert_eq!(csv(&copy, &mut known), csv(&t, &mut known));
    *copy.get_cell_mut(0, 0).unwrap() = Cell::Empty;
    assert_eq!(*t.get_cell(0, 0).unwrap(), number(1.0));
    assert_eq!(copy_row(&t.rows()[0]), t.rows()[0]);
    assert_eq!(number(1.0).clone(), number(1.0));
    assert_eq!(Cell::default(), Cell::Empty);
}

#[test]
fn more_known_changes_no_result() {
    let mut known = Numerics::new();
    let mut t = Table::new("t".to_string());
    t.extend_headers(vec![text("a"), text("b")]);
    append(&mut t, "1,2", &mut known);
    let before = csv(&t, &mut known);
    known.learn(Query::Parse("9".to_string()), Answer::Number(9.0f64.to_bits()));
    known.learn(Query::Render(9.0f64.to_bits()), Answer::Text("9".to_string()));
    assert_eq!(csv(&t, &mut known), before);
    assert_eq!(t.append_row("1,2".to_string(), &known), Ok(Appended::Whole));
    assert_eq!(t.rows()[0], t.rows()[1]);
}
