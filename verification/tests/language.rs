use tabula::autocorrect::{
    build_keyboard_distances, closest, degree_of_closeness, keyboard_distance_matcher, qwerty,
    KeyBoard, Token,
};
use tabula::cell::Cell;
use tabula::closure::{evaluate, FunctionExecutor, TableClosure};
use tabula::compiler::{Modifier, Operator, ResponsePlotType, VM};
use tabula::error::{ErrorKind, Fault, Stop};
use tabula::literal::parse_double_quote;
use tabula::numerics::{Answer, Numerics, Operation, Query};
use tabula::report::{Diagnostic, Effect, Halt, Notice};
use tabula::table::{Save, Table};
use tabula::text::{
    chars_of, parse_index, same_text, split, split_words, string_of, trim, without,
};

fn answer(query: &Query) -> Answer {
    match query {
        Query::Parse(text) => match text.parse::<f64>() {
            Ok(n) => Answer::Number(n.to_bits()),
            Err(_) => Answer::NotNumber,
        },
        Query::Render(bits) => Answer::Text(format!("{}", f64::from_bits(*bits))),
        Query::Compute(op, a, b) => {
            let (a, b) = (f64::from_bits(*a), f64::from_bits(*b));
            let r = match op {
                Operation::Add => a + b,
                Operation::Subtract => a - b,
                Operation::Multiply => a * b,
                Operation::Divide => a / b,
                Operation::Mod => a % b,
            };
            Answer::Number(r.to_bits())
        }
        Query::FromIndex(i) => Answer::Number((*i as f64).to_bits()),
        Query::CeilIndex(bits) => Answer::Index(f64::from_bits(*bits).ceil() as usize),
    }
}

fn number(n: f64) -> Cell {
    Cell::Number(n.to_bits())
}

fn text(s: &str) -> Cell {
    Cell::Text(s.to_string())
}

fn settle<T>(known: &mut Numerics, mut run: impl FnMut(&Numerics) -> Result<T, Stop>) -> Result<T, Fault> {
    loop {
        match run(known) {
            Ok(v) => return Ok(v),
            Err(Stop::Fail(f)) => return Err(f),
            Err(Stop::Ask(q)) => {
                let a = answer(&q);
                known.learn(q, a);
            }
        }
    }
}

fn asked<T>(r: Result<T, Query>) -> Result<T, Stop> {
    r.map_err(Stop::Ask)
}

fn sum(a: Cell, b: Cell) -> Cell {
    let mut known = Numerics::new();
    settle(&mut known, |k| asked(a.clone().add(b.clone(), k))).unwrap()
}

fn difference(a: Cell, b: Cell) -> Cell {
    let mut known = Numerics::new();
    settle(&mut known, |k| asked(a.clone().sub(b.clone(), k))).unwrap()
}

fn product(a: Cell, b: Cell) -> Result<Cell, Fault> {
    let mut known = Numerics::new();
    settle(&mut known, |k| a.clone().mul(b.clone(), k))
}

fn quotient(a: Cell, b: Cell) -> Result<Cell, Fault> {
    let mut known = Numerics::new();
    settle(&mut known, |k| a.clone().div(b.clone(), k))
}

fn remainder(a: Cell, b: Cell) -> Result<Cell, Fault> {
    let mut known = Numerics::new();
    settle(&mut known, |k| a.clone().rem(b.clone(), k))
}

fn literal(s: &str) -> Cell {
    let mut known = Numerics::new();
    settle(&mut known, |k| asked(Cell::from_str(s, k))).unwrap()
}

fn run_line(vm: &mut VM, known: &mut Numerics) -> Result<Effect, Diagnostic> {
    loop {
        match vm.interpret_next_line(known) {
            Ok(effect) => return Ok(effect),
            Err(Halt::Error(d)) => return Err(d),
            Err(Halt::Ask(q)) => {
                let a = answer(&q);
                known.learn(q, a);
            }
        }
    }
}

fn run(vm: &mut VM, known: &mut Numerics) -> Result<Effect, Diagnostic> {
    loop {
        match vm.interpret(known) {
            Ok(effect) => return Ok(effect),
            Err(Halt::Error(d)) => return Err(d),
            Err(Halt::Ask(q)) => {
                let a = answer(&q);
                known.learn(q, a);
            }
        }
    }
}

fn table(rows: &[&str], headers: usize, known: &mut Numerics) -> Table {
    let mut t = Table::new("t".to_string());
    t.extend_headers((0..headers).map(|_| text("h")).collect());
    for row in rows {
        loop {
            match t.append_row(row.to_string(), known) {
                Ok(_) => break,
                Err(q) => {
                    let a = answer(&q);
                    known.learn(q, a);
                }
            }
        }
    }
    t
}

fn value(expression: &str, storage: Cell, at: (usize, usize), t: &Table) -> Result<Cell, Fault> {
    let closure = TableClosure::new(";;".to_string()).unwrap();
    let executor = FunctionExecutor {
        closure: &closure,
        registers: Vec::new(),
        accumulator: None,
    };
    let mut known = Numerics::new();
    settle(&mut known, |k| executor.do_arithmetic(expression, &storage, at, t, k))
}

fn apply(definition: &str, t: &mut Table, start: (usize, usize), end: (usize, usize)) -> Result<(), Fault> {
    let closure = TableClosure::new(definition.to_string()).unwrap();
    let mut known = Numerics::new();
    settle(&mut known, |k| closure.apply(t, start, end, k))
}

#[test]
fn literals_are_parsed_in_order() {
    assert_eq!(literal(""), Cell::Empty);
    assert_eq!(literal("12.5"), number(12.5));
    assert_eq!(literal("-3"), number(-3.0));
    assert_eq!(literal("true"), Cell::Boolean(true));
    assert_eq!(literal("false"), Cell::Boolean(false));
    assert_eq!(literal("True"), text("True"));
    assert_eq!(literal("hello world"), text("hello world"));
}

#[test]
fn cells_are_written_as_text() {
    let mut known = Numerics::new();
    assert_eq!(text("a b").to_text(&known), Ok("a b".to_string()));
    assert_eq!(Cell::Boolean(true).to_text(&known), Ok("true".to_string()));
    assert_eq!(Cell::Empty.to_text(&known), Ok(String::new()));
    assert!(matches!(number(2.5).to_text(&known), Err(Query::Render(_))));
    known.learn(Query::Render(2.5f64.to_bits()), Answer::Text("2.5".to_string()));
    assert_eq!(number(2.5).to_text(&known), Ok("2.5".to_string()));
}

#[test]
fn addition_on_every_kind() {
    assert_eq!(sum(text("a"), text("b")), text("ab"));
    assert_eq!(sum(text("a"), number(1.5)), text("a1.5"));
    assert_eq!(sum(text("a"), Cell::Boolean(false)), text("afalse"));
    assert_eq!(sum(text("a"), Cell::Empty), text("a"));
    assert_eq!(sum(number(2.0), number(3.0)), number(5.0));
    assert_eq!(sum(number(2.0), text("3")), number(5.0));
    assert_eq!(sum(number(2.0), text("x")), text("2x"));
    assert_eq!(sum(number(2.0), Cell::Boolean(true)), number(3.0));
    assert_eq!(sum(number(2.0), Cell::Empty), number(2.0));
    assert_eq!(sum(Cell::Boolean(true), text("4")), number(5.0));
    assert_eq!(sum(Cell::Boolean(true), text("x")), text("truex"));
    assert_eq!(sum(Cell::Boolean(true), number(1.0)), number(2.0));
    assert_eq!(sum(Cell::Boolean(false), Cell::Boolean(true)), Cell::Boolean(true));
    assert_eq!(sum(Cell::Boolean(false), Cell::Boolean(false)), Cell::Boolean(false));
    assert_eq!(sum(Cell::Boolean(true), Cell::Empty), Cell::Boolean(true));
    assert_eq!(sum(Cell::Empty, number(5.0)), number(5.0));
    assert_eq!(sum(Cell::Empty, text("x")), text("x"));
    assert_eq!(sum(Cell::Empty, Cell::Empty), Cell::Empty);
}

#[test]
fn add_assign_is_addition() {
    let mut known = Numerics::new();
    let mut c = number(2.0);
    assert!(matches!(c.add_assign(number(3.0), &known), Err(Query::Compute(Operation::Add, _, _))));
    assert_eq!(c, number(2.0));
    known.learn(
        Query::Compute(Operation::Add, 2.0f64.to_bits(), 3.0f64.to_bits()),
        Answer::Number(5.0f64.to_bits()),
    );
    assert_eq!(c.add_assign(number(3.0), &known), Ok(()));
    assert_eq!(c, number(5.0));
    let mut t = text("a");
    assert_eq!(t.add_assign(Cell::Boolean(true), &known), Ok(()));
    assert_eq!(t, text("atrue"));
}

#[test]
fn subtraction_on_every_kind() {
    assert_eq!(difference(text("banana"), text("an")), text("ba"));
    assert_eq!(difference(text("banana"), text("")), text("banana"));
    assert_eq!(difference(text("aaa"), text("aa")), text("a"));
    assert_eq!(difference(text("7"), number(2.0)), number(5.0));
    assert_eq!(difference(text("a2b2"), number(2.0)), text("ab"));
    assert_eq!(difference(text("3"), Cell::Boolean(true)), number(2.0));
    assert_eq!(difference(text("untrue"), Cell::Boolean(true)), text("un"));
    assert_eq!(difference(text("a"), Cell::Empty), text("a"));
    assert_eq!(difference(number(5.0), number(2.0)), number(3.0));
    assert_eq!(difference(number(5.0), text("2")), number(3.0));
    assert_eq!(difference(number(5.0), text("x")), text("5x"));
    assert_eq!(difference(number(5.0), Cell::Boolean(true)), number(4.0));
    assert_eq!(difference(number(5.0), Cell::Empty), number(5.0));
    assert_eq!(difference(Cell::Boolean(true), text("3")), number(-2.0));
    assert_eq!(difference(Cell::Boolean(true), text("x")), text("truex"));
    assert_eq!(difference(Cell::Boolean(true), number(3.0)), number(-2.0));
    assert_eq!(difference(Cell::Boolean(true), Cell::Boolean(true)), Cell::Boolean(false));
    assert_eq!(difference(Cell::Boolean(true), Cell::Boolean(false)), Cell::Boolean(true));
    assert_eq!(difference(Cell::Boolean(true), Cell::Empty), Cell::Boolean(true));
    assert_eq!(difference(Cell::Empty, Cell::Empty), Cell::Empty);
    assert_eq!(difference(Cell::Empty, number(2.5)), number(-2.5));
    assert_eq!(difference(Cell::Empty, number(-2.5)), number(2.5));
    assert_eq!(difference(Cell::Empty, number(0.0)), number(-0.0));
    assert_eq!(difference(Cell::Empty, text("x")), Cell::Empty);
    assert_eq!(difference(Cell::Empty, Cell::Boolean(true)), Cell::Boolean(false));
}

#[test]
fn multiplication_fails_on_text_only() {
    assert_eq!(product(number(2.0), number(3.5)), Ok(number(7.0)));
    assert_eq!(product(number(2.0), Cell::Boolean(true)), Ok(number(2.0)));
    assert_eq!(product(Cell::Boolean(false), number(3.0)), Ok(number(0.0)));
    assert_eq!(product(Cell::Empty, number(3.0)), Ok(number(3.0)));
    assert_eq!(product(number(3.0), Cell::Empty), Ok(number(3.0)));
    assert_eq!(product(Cell::Empty, Cell::Empty), Ok(Cell::Empty));
    assert_eq!(product(number(0.0), number(0.0)), Ok(number(0.0)));
    assert_eq!(product(text("a"), number(3.0)), Err(Fault::TextOperand));
    assert_eq!(product(number(3.0), text("a")), Err(Fault::TextOperand));
    assert_eq!(product(Cell::Empty, text("2")), Err(Fault::TextOperand));
    assert_eq!(product(text("2"), Cell::Empty), Err(Fault::TextOperand));
}

#[test]
fn division_fails_on_text_and_on_zero() {
    assert_eq!(quotient(number(7.0), number(2.0)), Ok(number(3.5)));
    assert_eq!(quotient(number(7.0), Cell::Boolean(true)), Ok(number(7.0)));
    assert_eq!(quotient(Cell::Boolean(true), number(4.0)), Ok(number(0.25)));
    assert_eq!(quotient(Cell::Empty, number(4.0)), Ok(number(4.0)));
    assert_eq!(quotient(number(4.0), Cell::Empty), Ok(number(4.0)));
    assert_eq!(quotient(number(4.0), number(0.0)), Err(Fault::DivisionByZero));
    assert_eq!(quotient(number(4.0), number(-0.0)), Err(Fault::DivisionByZero));
    assert_eq!(quotient(number(4.0), Cell::Boolean(false)), Err(Fault::DivisionByZero));
    assert_eq!(quotient(Cell::Empty, number(0.0)), Err(Fault::DivisionByZero));
    assert_eq!(quotient(text("a"), number(1.0)), Err(Fault::TextOperand));
    assert_eq!(quotient(number(1.0), text("a")), Err(Fault::TextOperand));
    assert_eq!(quotient(text("a"), number(0.0)), Err(Fault::TextOperand));
    assert_eq!(Fault::DivisionByZero.kind(), ErrorKind::TypeCoercionError);
    assert_eq!(Fault::TextOperand.kind(), ErrorKind::TypeCoercionError);
}

#[test]
fn remainder_takes_numbers_and_booleans() {
    assert_eq!(remainder(number(7.0), number(4.0)), Ok(number(3.0)));
    assert_eq!(remainder(number(7.5), Cell::Boolean(true)), Ok(number(0.5)));
    assert_eq!(remainder(number(7.0), number(0.0)), Err(Fault::DivisionByZero));
    assert_eq!(remainder(number(7.0), Cell::Boolean(false)), Err(Fault::DivisionByZero));
    assert_eq!(remainder(Cell::Empty, number(2.0)), Err(Fault::EmptyOperand));
    assert_eq!(remainder(number(2.0), Cell::Empty), Err(Fault::EmptyOperand));
    assert_eq!(remainder(text("a"), number(2.0)), Err(Fault::TextOperand));
    assert_eq!(remainder(number(2.0), text("a")), Err(Fault::TextOperand));
    assert_eq!(Fault::EmptyOperand.kind(), ErrorKind::TypeCoercionError);
}

#[test]
fn operations_are_named_by_their_signs() {
    assert_eq!(Operation::from_str("+"), Some(Operation::Add));
    assert_eq!(Operation::from_str("-"), Some(Operation::Subtract));
    assert_eq!(Operation::from_str("*"), Some(Operation::Multiply));
    assert_eq!(Operation::from_str("/"), Some(Operation::Divide));
    assert_eq!(Operation::from_str("%"), Some(Operation::Mod));
    assert_eq!(Operation::from_str("&"), None);
    assert_eq!(Operation::from_str("++"), None);
    let mut known = Numerics::new();
    assert_eq!(
        settle(&mut known, |k| Operation::Subtract.apply(number(5.0), number(7.0), k)),
        Ok(number(-2.0))
    );
    assert_eq!(
        settle(&mut known, |k| Operation::Mod.apply(number(5.0), number(0.0), k)),
        Err(Fault::DivisionByZero)
    );
}

#[test]
fn what_is_known_answers_the_last_that_was_learned() {
    let mut known = Numerics::new();
    let q = || Query::Parse("1".to_string());
    assert_eq!(known.parsed("1").err().map(|q| format!("{:?}", q)), Some(format!("{:?}", q())));
    known.learn(q(), Answer::NotNumber);
    assert_eq!(known.parsed("1").unwrap(), None);
    known.learn(q(), Answer::Number(7));
    assert_eq!(known.parsed("1").unwrap(), Some(7));
    known.learn(q(), Answer::Index(3));
    assert!(known.parsed("1").is_err());
    assert!(known.computed(Operation::Add, 1, 2).is_err());
    known.learn(Query::Compute(Operation::Add, 1, 2), Answer::Number(3));
    assert_eq!(known.computed(Operation::Add, 1, 2).unwrap(), 3);
    assert!(known.computed(Operation::Add, 2, 1).is_err());
    assert!(known.computed(Operation::Subtract, 1, 2).is_err());
    known.learn(Query::FromIndex(4), Answer::Number(9));
    assert_eq!(known.index_number(4).unwrap(), 9);
    known.learn(Query::CeilIndex(9), Answer::Index(4));
    assert_eq!(known.ceil_index(9).unwrap(), 4);
    assert!(known.ceil_index(8).is_err());
    assert!(Query::Render(1).same(&Query::Render(1)));
    assert!(!Query::Render(1).same(&Query::CeilIndex(1)));
}

#[test]
fn text_is_split_and_trimmed() {
    let words = |s: &str| -> Vec<String> {
        split_words(&chars_of(s)).iter().map(string_of).collect()
    };
    assert_eq!(words("  a  bc\td\u{3000}e "), vec!["a", "bc", "d", "e"]);
    assert_eq!(words(""), Vec::<String>::new());
    let pieces = |s: &str, c: char| -> Vec<String> {
        split(&chars_of(s), c).iter().map(string_of).collect()
    };
    assert_eq!(pieces("a;b;;c", ';'), vec!["a", "b", "", "c"]);
    assert_eq!(pieces("", ';'), vec![""]);
    assert_eq!(pieces(";", ';'), vec!["", ""]);
    assert_eq!(string_of(&trim(&chars_of(" \n a b \t"))), "a b");
    assert_eq!(string_of(&trim(&chars_of("   "))), "");
    assert_eq!(string_of(&without(&chars_of("abcabc"), &chars_of("bc"))), "aa");
    assert!(same_text("ab", "ab"));
    assert!(!same_text("ab", "abc"));
    assert_eq!(string_of(&vec!['h', 'é', '!']), "hé!");
}

#[test]
fn indices_are_parsed_as_whole_numbers() {
    let index = |s: &str| parse_index(&chars_of(s));
    assert_eq!(index("0"), Some(0));
    assert_eq!(index("007"), Some(7));
    assert_eq!(index("+12"), Some(12));
    assert_eq!(index(""), None);
    assert_eq!(index("+"), None);
    assert_eq!(index("-1"), None);
    assert_eq!(index(" 1"), None);
    assert_eq!(index("1.0"), None);
    assert_eq!(index("12a"), None);
    assert_eq!(index(&usize::MAX.to_string()), Some(usize::MAX));
    assert_eq!(index(&format!("{}0", usize::MAX)), None);
    assert_eq!(index("99999999999999999999999999999999999999999"), None);
}

#[test]
fn keys_next_to_each_other_are_one_step_apart() {
    let kb = build_keyboard_distances();
    assert_eq!(kb.lookup('a', 'a'), Some(0));
    assert_eq!(kb.lookup('a', 'q'), Some(1));
    assert_eq!(kb.lookup('q', 'a'), Some(1));
    assert_eq!(kb.lookup('a', 'x'), Some(1));
    assert_eq!(kb.lookup('x', 'a'), Some(2));
    assert_eq!(kb.lookup('a', 'e'), Some(2));
    assert_eq!(kb.lookup('A', 'Q'), Some(1));
    assert_eq!(kb.lookup('i', 'e'), kb.lookup('I', 'E'));
    assert_eq!(kb.lookup('a', '1'), None);
    assert_eq!(kb.lookup('-', 'a'), None);
    assert_eq!(kb.lookup('é', 'a'), None);
}

#[test]
fn distances_are_least_numbers_of_steps() {
    let layout = [['b', 'b'], ['c', 'c'], ['c', 'c'], ['a', 'a']];
    let kb: KeyBoard<4, 2> = KeyBoard::new(&layout);
    assert_eq!(kb.lookup('a', 'a'), Some(0));
    assert_eq!(kb.lookup('a', 'b'), Some(1));
    assert_eq!(kb.lookup('a', 'c'), Some(2));
    assert_eq!(kb.lookup('d', 'c'), Some(3));
    assert_eq!(kb.lookup('c', 'a'), Some(u32::MAX));
    assert_eq!(kb.lookup('a', 'd'), Some(u32::MAX));
    assert_eq!(kb.lookup('a', 'e'), None);
    let every = KeyBoard::new(&qwerty());
    for a in 'a'..='z' {
        for b in 'a'..='z' {
            let d = every.lookup(a, b).unwrap();
            assert!(d < 26);
            assert_eq!(d == 0, a == b);
        }
    }
}

#[test]
fn closeness_of_equal_and_of_empty_words() {
    let kb = build_keyboard_distances();
    assert_eq!(degree_of_closeness(&kb, "create", "create"), 0);
    assert_eq!(degree_of_closeness(&kb, "x", "x"), 0);
    assert_eq!(degree_of_closeness(&kb, "", ""), 0);
    assert_eq!(degree_of_closeness(&kb, "", "abc"), 8 * 3);
    assert_eq!(degree_of_closeness(&kb, "abcd", ""), 8 * 4);
}

#[test]
fn closeness_counts_keys_and_gaps() {
    let kb = build_keyboard_distances();
    assert_eq!(degree_of_closeness(&kb, "a", "q"), 1);
    assert_eq!(degree_of_closeness(&kb, "a", "e"), 2);
    assert_eq!(degree_of_closeness(&kb, "view", "viw"), 8);
    assert_eq!(degree_of_closeness(&kb, "a_b", "ab"), 0);
    assert_eq!(degree_of_closeness(&kb, "ab", "a-b"), 0);
    assert_eq!(degree_of_closeness(&kb, "A", "a"), 0 + kb.lookup('A', 'a').unwrap());
    assert_eq!(degree_of_closeness(&kb, "a", "p"), kb.lookup('a', 'p').unwrap().min(16));
}

#[test]
fn mistyped_operator_is_matched() {
    let kb = build_keyboard_distances();
    assert_eq!(
        keyboard_distance_matcher(&kb, "viw", Token::Operator),
        Some("view".to_string())
    );
    assert_eq!(
        keyboard_distance_matcher(&kb, "crate", Token::Operator),
        Some("create".to_string())
    );
    assert_eq!(
        keyboard_distance_matcher(&kb, "wiht", Token::Modifier),
        Some("with".to_string())
    );
    assert_eq!(
        keyboard_distance_matcher(&kb, "anything", Token::DataModifier),
        Some("title".to_string())
    );
}

#[test]
fn first_of_the_closest_is_matched() {
    let kb = build_keyboard_distances();
    let names = vec!["ab".to_string(), "ba".to_string(), "ab".to_string()];
    assert_eq!(closest(&kb, "ab", &names), Some(0));
    assert_eq!(closest(&kb, "ba", &names), Some(1));
    assert_eq!(closest(&kb, "", &vec!["xy".to_string(), "zw".to_string()]), Some(0));
    assert_eq!(closest(&kb, "ab", &Vec::new()), None);
    assert_eq!(keyboard_distance_matcher(&kb, "x", Token::Table(&Vec::new())), None);
    assert_eq!(
        keyboard_distance_matcher(&kb, "salse", Token::Table(&vec!["stock".to_string(), "sales".to_string()])),
        Some("sales".to_string())
    );
}

#[test]
fn definition_is_split_in_three() {
    let c = TableClosure::new("auto;each!acc!~op ~cell +;done;rest;more".to_string()).unwrap();
    assert_eq!(c.prescript, "auto");
    assert_eq!(c.script, "each!acc!~op ~cell +");
    assert_eq!(c.postscript, "done");
    let c = TableClosure::new(";;".to_string()).unwrap();
    assert_eq!((c.prescript.as_str(), c.script.as_str(), c.postscript.as_str()), ("", "", ""));
    assert_eq!(TableClosure::new("auto;each".to_string()).err(), Some(Fault::BadDefinition));
    assert_eq!(TableClosure::new("".to_string()).err(), Some(Fault::BadDefinition));
}

#[test]
fn expressions_work_on_a_stack() {
    let mut known = Numerics::new();
    let t = table(&["1,2", "3,x"], 2, &mut known);
    assert_eq!(value("", Cell::Empty, (0, 0), &t), Ok(Cell::Empty));
    assert_eq!(value("  7 ", Cell::Empty, (0, 0), &t), Ok(number(7.0)));
    assert_eq!(value("1 2 +", Cell::Empty, (0, 0), &t), Ok(number(3.0)));
    assert_eq!(value("7 2 -", Cell::Empty, (0, 0), &t), Ok(number(5.0)));
    assert_eq!(value("7 2 /", Cell::Empty, (0, 0), &t), Ok(number(3.5)));
    assert_eq!(value("7 2 %", Cell::Empty, (0, 0), &t), Ok(number(1.0)));
    assert_eq!(value("2 3 4 * +", Cell::Empty, (0, 0), &t), Ok(number(14.0)));
    assert_eq!(value("~op 1 +", number(4.0), (0, 0), &t), Ok(number(5.0)));
    assert_eq!(value("~cell", Cell::Empty, (1, 0), &t), Ok(number(3.0)));
    assert_eq!(value("~cell(0,1) ~cell(1,1) +", Cell::Empty, (0, 0), &t), Ok(text("2x")));
    assert_eq!(value("~cell.x ~cell.y -", Cell::Empty, (5, 2), &t), Ok(number(3.0)));
    assert_eq!(value("a b +", Cell::Empty, (0, 0), &t), Ok(text("ab")));
    assert_eq!(value("& |", Cell::Empty, (0, 0), &t), Err(Fault::TooManyValues));
}

#[test]
fn expressions_fail_as_they_should() {
    let mut known = Numerics::new();
    let t = table(&["1,2"], 2, &mut known);
    assert_eq!(value("+", Cell::Empty, (0, 0), &t), Err(Fault::NotEnoughOperands));
    assert_eq!(value("1 +", Cell::Empty, (0, 0), &t), Err(Fault::NotEnoughOperands));
    assert_eq!(value("1 2", Cell::Empty, (0, 0), &t), Err(Fault::TooManyValues));
    assert_eq!(value("1 0 /", Cell::Empty, (0, 0), &t), Err(Fault::DivisionByZero));
    assert_eq!(value("a 2 *", Cell::Empty, (0, 0), &t), Err(Fault::TextOperand));
    assert_eq!(value("~cell", Cell::Empty, (1, 0), &t), Err(Fault::RowOutOfBounds));
    assert_eq!(value("~cell", Cell::Empty, (0, 2), &t), Err(Fault::ColumnOutOfBounds));
    assert_eq!(value("~cell(3,0)", Cell::Empty, (0, 0), &t), Err(Fault::RowOutOfBounds));
    assert_eq!(value("~cell(0,0", Cell::Empty, (0, 0), &t), Err(Fault::BadCellReference));
    assert_eq!(value("~cell(0)", Cell::Empty, (0, 0), &t), Err(Fault::BadCellReference));
    assert_eq!(value("~cell(a,0)", Cell::Empty, (0, 0), &t), Err(Fault::BadCellReference));
    assert_eq!(value("~cell(0,1,2)", Cell::Empty, (0, 0), &t), Err(Fault::BadCellReference));
    assert_eq!(value("~cell()", Cell::Empty, (0, 0), &t), Err(Fault::BadCellReference));
    assert_eq!(Fault::NotEnoughOperands.kind(), ErrorKind::StackUnderflow);
    assert_eq!(Fault::TooManyValues.kind(), ErrorKind::TooManyValues);
    assert_eq!(Fault::RowOutOfBounds.kind(), ErrorKind::OutOfRange);
    assert_eq!(Fault::BadCellReference.kind(), ErrorKind::ParseError);
}

#[test]
fn tokens_are_evaluated_as_given() {
    let mut known = Numerics::new();
    let t = table(&[], 1, &mut known);
    let tokens = vec![chars_of("3"), chars_of("4"), chars_of("*")];
    assert_eq!(
        settle(&mut known, |k| evaluate(&tokens, &Cell::Empty, (0, 0), &t, k)),
        Ok(number(12.0))
    );
}

#[test]
fn raw_evaluates_once_at_the_start() {
    let mut known = Numerics::new();
    let mut t = table(&["1,2", "3,4"], 2, &mut known);
    assert_eq!(apply("auto;raw!acc!~cell 10 *;", &mut t, (0, 1), (1, 1)), Ok(()));
    assert_eq!(t.dimensions(), (3, 2));
    assert_eq!(*t.get_cell(2, 1).unwrap(), number(20.0));
    assert_eq!(*t.get_cell(2, 0).unwrap(), Cell::Empty);
}

#[test]
fn accumulator_of_auto_is_below_the_range_where_it_starts() {
    let mut known = Numerics::new();
    let mut t = table(&["1,2", "3,4", "5,6", "7,8"], 2, &mut known);
    assert_eq!(apply("auto;each!acc!~op ~cell +;", &mut t, (0, 0), (1, 1)), Ok(()));
    assert_eq!(t.dimensions(), (4, 2));
    assert_eq!(*t.get_cell(2, 0).unwrap(), number(15.0));
    assert_eq!(*t.get_cell(2, 1).unwrap(), number(6.0));
}

#[test]
fn accumulator_is_named_by_two_expressions() {
    let mut known = Numerics::new();
    let mut t = table(&["1,2"], 2, &mut known);
    assert_eq!(apply("2.5 , 0.2;each!acc!~op ~cell +;", &mut t, (0, 0), (0, 1)), Ok(()));
    assert_eq!(t.dimensions(), (4, 2));
    assert_eq!(*t.get_cell(3, 1).unwrap(), number(3.0));
    let mut t = table(&["1,2"], 2, &mut known);
    assert_eq!(apply("~cell.x,~cell.y;raw!acc!9;", &mut t, (0, 1), (0, 1)), Ok(()));
    assert_eq!(t.dimensions(), (2, 2));
    assert_eq!(*t.get_cell(1, 1).unwrap(), number(9.0));
    let mut t = table(&["1,2"], 2, &mut known);
    assert_eq!(apply("a,1;raw!acc!9;", &mut t, (0, 0), (0, 0)), Err(Fault::BadAccumulator));
    assert_eq!(apply("nothing;raw!acc!9;", &mut t, (0, 0), (0, 0)), Err(Fault::BadAccumulator));
    assert_eq!(apply("0,7;raw!acc!9;", &mut t, (0, 0), (0, 0)), Err(Fault::ColumnOutOfBounds));
}

#[test]
fn registers_hold_values_that_are_not_kept() {
    let mut known = Numerics::new();
    let mut t = table(&["1,2"], 2, &mut known);
    assert_eq!(apply("reg!2;each!reg!1!~op ~cell +;", &mut t, (0, 0), (0, 1)), Ok(()));
    assert_eq!(t.dimensions(), (1, 2));
    assert_eq!(csv_of(&t), "t\nh,h,\n1,2,\n");
    assert_eq!(apply("reg!2;each!reg!2!~op;", &mut t, (0, 0), (0, 1)), Err(Fault::RegisterOutOfRange));
    assert_eq!(apply(";each!reg!0!~op;", &mut t, (0, 0), (0, 1)), Err(Fault::BadAccumulator));
    assert_eq!(apply("reg;each!reg!0!~op;", &mut t, (0, 0), (0, 1)), Err(Fault::RegisterNotSpecified));
    assert_eq!(apply("reg!x;each!reg!0!~op;", &mut t, (0, 0), (0, 1)), Err(Fault::RegisterNotSpecified));
    assert_eq!(apply("reg!1;each!reg;", &mut t, (0, 0), (0, 1)), Err(Fault::RegisterNotSpecified));
    assert_eq!(apply("reg!1;each!reg! 0!~op;", &mut t, (0, 0), (0, 1)), Err(Fault::RegisterNotSpecified));
    assert_eq!(Fault::RegisterOutOfRange.kind(), ErrorKind::MissingRegisterRange);
}

fn csv_of(t: &Table) -> String {
    let mut known = Numerics::new();
    loop {
        match t.to_csv(&known) {
            Ok(s) => return s,
            Err(q) => {
                let a = answer(&q);
                known.learn(q, a);
            }
        }
    }
}

#[test]
fn scripts_fail_as_they_should() {
    let mut known = Numerics::new();
    let mut t = table(&["1,2"], 2, &mut known);
    assert_eq!(apply("auto;;", &mut t, (0, 0), (0, 0)), Err(Fault::InvalidCommand));
    assert_eq!(apply("auto;sum!acc!~op;", &mut t, (0, 0), (0, 0)), Err(Fault::InvalidCommand));
    assert_eq!(apply("auto;each;", &mut t, (0, 0), (0, 0)), Err(Fault::StorageNotSpecified));
    assert_eq!(apply("auto;each!mem!~op;", &mut t, (0, 0), (0, 0)), Err(Fault::InvalidStorage));
    assert_eq!(apply("auto;each!acc;", &mut t, (0, 0), (0, 0)), Err(Fault::NoExpression));
    assert_eq!(apply("reg!1;each!acc!~op;", &mut t, (0, 0), (0, 0)), Err(Fault::AccumulatorNotDefined));
    assert_eq!(apply("auto;each!acc!~op;", &mut t, (9, 0), (9, 0)), Err(Fault::RangeOutOfBounds));
    assert_eq!(apply("auto;each!acc!~op;", &mut t, (0, 0), (9, 9)), Err(Fault::RangeOutOfBounds));
    assert_eq!(apply("auto;each!acc!~op;", &mut t, (0, 0), (usize::MAX, 0)), Err(Fault::RangeOutOfBounds));
    assert_eq!(apply("auto; each ! acc !~op 1 +;", &mut t, (0, 0), (0, 0)), Ok(()));
    assert_eq!(Fault::AccumulatorNotDefined.kind(), ErrorKind::MissingAccumulator);
    assert_eq!(Fault::RangeOutOfBounds.kind(), ErrorKind::OutOfRange);
    assert_eq!(Fault::InvalidCommand.kind(), ErrorKind::ParseError);
}

#[test]
fn failing_fold_leaves_what_was_done_before() {
    let mut known = Numerics::new();
    let mut t = table(&["1,x"], 2, &mut known);
    assert_eq!(apply("auto;each!acc!~op ~cell *;", &mut t, (0, 0), (0, 1)), Err(Fault::TextOperand));
    assert_eq!(t.dimensions(), (2, 2));
    assert_eq!(*t.get_cell(1, 0).unwrap(), Cell::Empty);
}

#[test]
fn executor_is_destroyed_by_the_postscript() {
    let closure = TableClosure::new("reg!3;raw!reg!0!1;".to_string()).unwrap();
    let mut executor = FunctionExecutor {
        closure: &closure,
        registers: Vec::new(),
        accumulator: None,
    };
    let mut known = Numerics::new();
    let mut t = table(&["1"], 1, &mut known);
    assert_eq!(settle(&mut known, |k| executor.apply_prescript(&mut t, (0, 0), (0, 0), k)), Ok(()));
    assert_eq!(executor.registers, vec![Cell::Empty, Cell::Empty, Cell::Empty]);
    executor.accumulator = Some((0, 0));
    assert!(executor.apply_postscript(&mut t, (0, 0), (0, 0)).is_ok());
    assert!(executor.registers.is_empty());
    assert_eq!(executor.accumulator, None);
    executor.registers.push(Cell::Empty);
    executor.destroy();
    assert!(executor.registers.is_empty());
    assert_eq!(settle(&mut known, |k| executor.apply(&mut t, (0, 0), (0, 0), k)), Ok(()));
}

#[test]
fn operators_and_modifiers_are_named() {
    assert_eq!(Operator::from_str("create"), Some(Operator::Assignment));
    assert_eq!(Operator::from_str("create_table"), Some(Operator::Assignment));
    assert_eq!(Operator::from_str("="), Some(Operator::Assignment));
    assert_eq!(Operator::from_str("add_row"), Some(Operator::AddRow));
    assert_eq!(Operator::from_str("headers"), Some(Operator::ExtendHeaders));
    assert_eq!(Operator::from_str("apply"), Some(Operator::Apply));
    assert_eq!(Operator::from_str("view"), Some(Operator::View));
    assert_eq!(Operator::from_str("define"), Some(Operator::DefineClosure));
    assert_eq!(Operator::from_str("prompt"), Some(Operator::Prompt));
    assert_eq!(Operator::from_str("viw"), None);
    assert_eq!(Operator::from_str("Create"), None);
    for op in [
        Operator::Assignment,
        Operator::AddRow,
        Operator::ExtendHeaders,
        Operator::Apply,
        Operator::View,
        Operator::DefineClosure,
        Operator::Prompt,
    ] {
        assert_eq!(Operator::from_str(&op.name()), Some(op));
    }
    assert!(Modifier::is_modifier("with"));
    assert!(Modifier::is_modifier("and"));
    assert!(!Modifier::is_modifier("With"));
    assert!(!Modifier::is_modifier("title"));
    assert_eq!(Modifier::from_str("header"), Some(Modifier::WithHeader));
    assert_eq!(Modifier::from_str("headers"), Some(Modifier::WithHeader));
    assert_eq!(Modifier::from_str("title"), Some(Modifier::WithTitle));
    assert_eq!(Modifier::from_str("titel"), None);
}

#[test]
fn answers_on_plots_are_read() {
    let plot = ResponsePlotType::from_str;
    assert_eq!(plot("Bargraph\nx = 1\ny = 2"), Ok(ResponsePlotType::Bargraph((0, 1))));
    assert_eq!(plot("bar\n3\n4\n"), Ok(ResponsePlotType::Bargraph((2, 3))));
    assert_eq!(plot(" BAR \r\nx = 1\r\ny = 2\r\n"), Ok(ResponsePlotType::Bargraph((0, 1))));
    assert_eq!(plot("Scatter\nx = 2\ny = 1"), Ok(ResponsePlotType::Bargraph((1, 0))));
    assert_eq!(plot("scatterplot\nx = 2\ny = 1"), Ok(ResponsePlotType::Bargraph((1, 0))));
    assert_eq!(plot("bar\nx = 1"), Ok(ResponsePlotType::DataInsufficient));
    assert_eq!(plot("bar\nx = one\ny = 2"), Ok(ResponsePlotType::DataInsufficient));
    assert_eq!(plot("bar\nx = 0\ny = 2"), Ok(ResponsePlotType::DataInsufficient));
    assert_eq!(plot("bar\n\ny = 2"), Ok(ResponsePlotType::DataInsufficient));
    assert_eq!(plot("Histogram\nx = 3"), Ok(ResponsePlotType::Histogram(3)));
    assert_eq!(plot("hist\nx = 0"), Ok(ResponsePlotType::Histogram(0)));
    assert_eq!(plot("hist\nx = none"), Ok(ResponsePlotType::DataInsufficient));
    assert_eq!(plot("hist"), Err(()));
    assert_eq!(plot("hist\n  "), Err(()));
    assert_eq!(plot("Piechart\nx = 2"), Ok(ResponsePlotType::Piechart(2)));
    assert_eq!(plot("pie\n2"), Ok(ResponsePlotType::Piechart(2)));
    assert_eq!(plot("data_insufficient"), Ok(ResponsePlotType::DataInsufficient));
    assert_eq!(plot("None"), Ok(ResponsePlotType::NoPlot));
    assert_eq!(plot("none\n"), Ok(ResponsePlotType::NoPlot));
    assert_eq!(plot(""), Err(()));
    assert_eq!(plot("\n"), Err(()));
    assert_eq!(plot("line\nx = 1"), Err(()));
}

#[test]
fn literals_may_hold_spaces() {
    let tokens: Vec<Vec<char>> = ["\"a\"", "\"b", "c", "d\"", "\"", "e\"", "\"f", "g", "x\"y", "\""]
        .iter()
        .map(|s| chars_of(s))
        .collect();
    assert_eq!(parse_double_quote(&tokens, 0), Some((chars_of("a"), 1, true)));
    assert_eq!(parse_double_quote(&tokens, 1), Some((chars_of("b c d"), 4, true)));
    assert_eq!(parse_double_quote(&tokens, 2), None);
    assert_eq!(parse_double_quote(&tokens, 4), Some((chars_of(" e"), 6, true)));
    assert_eq!(parse_double_quote(&tokens, 6), Some((chars_of("f g x\"y "), 10, true)));
    assert_eq!(parse_double_quote(&tokens, 9), Some((chars_of(""), 10, false)));
    assert_eq!(parse_double_quote(&tokens, 10), None);
    let open: Vec<Vec<char>> = ["\"a", "b"].iter().map(|s| chars_of(s)).collect();
    assert_eq!(parse_double_quote(&open, 0), Some((chars_of("a b"), 2, false)));
    let empty: Vec<Vec<char>> = vec![chars_of("\"\"")];
    assert_eq!(parse_double_quote(&empty, 0), Some((chars_of(""), 1, true)));
}

#[test]
fn empty_lines_do_nothing() {
    let mut known = Numerics::new();
    let mut vm = VM::new("\n   \n\t\nt create".to_string());
    assert_eq!(run_line(&mut vm, &mut known), Ok(Effect::Nothing));
    assert_eq!(vm.pointer(), 1);
    assert_eq!(run_line(&mut vm, &mut known), Ok(Effect::Nothing));
    assert_eq!(vm.pointer(), 5);
    assert_eq!(run_line(&mut vm, &mut known), Ok(Effect::Nothing));
    assert_eq!(vm.pointer(), 7);
    assert!(!vm.finished());
    assert_eq!(run_line(&mut vm, &mut known), Ok(Effect::Nothing));
    assert!(vm.finished());
    assert_eq!(vm.tables().len(), 1);
    assert_eq!(run_line(&mut vm, &mut known), Ok(Effect::Nothing));
    assert_eq!(vm.tables().len(), 1);
    assert!(vm.take_notices().is_empty());
}

#[test]
fn programs_run_to_their_end() {
    let code = "t = with headers \"a\" \"b\"\nt add_row \"1\" \"2\"\n\nu create with title \"Second one\"\nu headers \"x\"\nu add_row \"true\"";
    let mut known = Numerics::new();
    let mut vm = VM::new(code.to_string());
    assert_eq!(run(&mut vm, &mut known), Ok(Effect::Nothing));
    assert!(vm.finished());
    assert_eq!(vm.tables().len(), 2);
    let out = loop {
        match vm.to_csv(&known) {
            Ok(s) => break s,
            Err(q) => {
                let a = answer(&q);
                known.learn(q, a);
            }
        }
    };
    assert_eq!(out, "t\na,b,\n1,2,\n\nSecond one\nx,\ntrue,\n");
    assert_eq!(
        vm.to_html(&known).unwrap(),
        "t<br><table><tr><th>a</th><th>b</th></tr><tr><td>1</td><td>2</td></tr></table><br/>\nSecond one<br><table><tr><th>x</th></tr><tr><td>true</td></tr></table><br/>"
    );
}

#[test]
fn running_stops_at_what_is_left_to_do() {
    let code = "t create\nt view\nt prompt \"how many rows?\"\nrender\nt create";
    let mut known = Numerics::new();
    let mut vm = VM::new(code.to_string());
    assert_eq!(run(&mut vm, &mut known), Ok(Effect::View(0)));
    assert_eq!(
        run(&mut vm, &mut known),
        Ok(Effect::Prompt(0, "how many rows?".to_string()))
    );
    assert_eq!(run(&mut vm, &mut known), Ok(Effect::Render));
    assert_eq!(run(&mut vm, &mut known), Ok(Effect::Nothing));
    assert!(vm.finished());
    assert_eq!(
        vm.tables()[0].question_text("how many rows?", &known).unwrap(),
        "I am working with CSV files. My table is as follows:\nTable name:t\n\n\nI want you to answer my next following question. You are expected to keep the answer as short as possible.\nhow many rows?"
    );
}

#[test]
fn running_stops_at_the_first_failure() {
    let code = "t create\nt nonsense\nu create";
    let mut known = Numerics::new();
    let mut vm = VM::new(code.to_string());
    let d = run(&mut vm, &mut known).unwrap_err();
    assert_eq!(d.fault, Fault::UnknownOperator);
    assert_eq!(vm.tables().len(), 1);
    assert_eq!(run(&mut vm, &mut known), Ok(Effect::Nothing));
    assert_eq!(vm.tables().len(), 2);
}

#[test]
fn unknown_operator_is_marked_and_suggested() {
    let mut known = Numerics::new();
    let mut vm = VM::new("t create\n  tab viw now ".to_string());
    run_line(&mut vm, &mut known).unwrap();
    let d = run_line(&mut vm, &mut known).unwrap_err();
    assert_eq!(d.line, "tab viw now");
    assert_eq!((d.offset, d.width), (4, 3));
    assert_eq!(d.fault, Fault::UnknownOperator);
    assert_eq!(d.kind(), ErrorKind::UnknownIdentifier);
    assert_eq!(d.to_text(), "tab viw now\n    ^^^\nNot a valid operator");
    assert_eq!(
        vm.take_notices(),
        vec![Notice::DidYouMean("view".to_string())]
    );
    assert!(Notice::DidYouMean("view".to_string()).is_suggestion());
    assert!(!Notice::Unclosed.is_suggestion());
}

#[test]
fn unknown_table_is_marked_and_suggested() {
    let mut known = Numerics::new();
    let mut vm = VM::new("sales create\nstock create\nsalse view\n".to_string());
    run_line(&mut vm, &mut known).unwrap();
    run_line(&mut vm, &mut known).unwrap();
    let d = run_line(&mut vm, &mut known).unwrap_err();
    assert_eq!((d.offset, d.width), (0, 5));
    assert_eq!(d.fault, Fault::UnknownTable);
    assert_eq!(d.kind(), ErrorKind::UnknownIdentifier);
    assert_eq!(d.to_text(), "salse view\n^^^^^\nNo table found with that name");
    assert_eq!(
        vm.take_notices(),
        vec![Notice::DidYouMean("sales".to_string())]
    );
    let mut vm = VM::new("t view".to_string());
    let d = run_line(&mut vm, &mut known).unwrap_err();
    assert_eq!(d.fault, Fault::UnknownTable);
    assert!(vm.take_notices().is_empty());
}

#[test]
fn a_lone_name_is_no_line() {
    let mut known = Numerics::new();
    let mut vm = VM::new("tab\ntab create\ntab\ntap\n".to_string());
    let d = run_line(&mut vm, &mut known).unwrap_err();
    assert_eq!(d.fault, Fault::NoOperator);
    assert_eq!(d.to_text(), "tab\n    ^\nNo token found for any operation");
    assert_eq!(vm.take_notices(), vec![Notice::CreateHint("tab".to_string())]);
    run_line(&mut vm, &mut known).unwrap();
    assert!(run_line(&mut vm, &mut known).is_err());
    assert_eq!(vm.take_notices(), vec![Notice::ViewHint("tab".to_string())]);
    assert!(run_line(&mut vm, &mut known).is_err());
    assert_eq!(
        vm.take_notices(),
        vec![
            Notice::CreateHint("tap".to_string()),
            Notice::DidYouMean("tab".to_string())
        ]
    );
}

#[test]
fn modifiers_are_read_with_their_marks() {
    let mut known = Numerics::new();
    let mut vm = VM::new(
        "t create with\nt create with titel \"x\"\nt create with title\nt create with title x\nt create wiht title \"A B\" and headers \"1\" \"b c\" \"open\n".to_string(),
    );
    let d = run_line(&mut vm, &mut known).unwrap_err();
    assert_eq!((d.fault, d.offset, d.width), (Fault::NoModifier, 9, 4));
    assert_eq!(d.to_text(), "t create with\n         ^^^^\nNo token found for modifier.");
    assert_eq!(vm.tables().len(), 1);
    vm.take_notices();

    let d = run_line(&mut vm, &mut known).unwrap_err();
    assert_eq!((d.fault, d.offset, d.width), (Fault::UnknownModifier, 14, 5));
    assert_eq!(d.kind(), ErrorKind::UnknownIdentifier);
    assert_eq!(
        vm.take_notices(),
        vec![
            Notice::Overwritten("t".to_string()),
            Notice::DidYouMean("title".to_string())
        ]
    );

    let d = run_line(&mut vm, &mut known).unwrap_err();
    assert_eq!((d.fault, d.offset, d.width), (Fault::NoData, 14, 5));
    let d = run_line(&mut vm, &mut known).unwrap_err();
    assert_eq!((d.fault, d.offset, d.width), (Fault::NoData, 14, 5));
    vm.take_notices();

    assert_eq!(run_line(&mut vm, &mut known), Ok(Effect::Nothing));
    assert_eq!(
        vm.take_notices(),
        vec![
            Notice::Overwritten("t".to_string()),
            Notice::DidYouMean("with".to_string()),
            Notice::Ignored("wiht".to_string()),
            Notice::DidYouMean("with".to_string()),
            Notice::Ignored("title".to_string()),
            Notice::DidYouMean("and".to_string()),
            Notice::Ignored("\"A".to_string()),
            Notice::DidYouMean("and".to_string()),
            Notice::Ignored("B\"".to_string()),
            Notice::Unclosed,
        ]
    );
    assert_eq!(vm.tables()[0].title(), "t");
    assert_eq!(
        vm.tables()[0].headers().cells,
        vec![number(1.0), text("b c"), text("open")]
    );
}

#[test]
fn failing_modifier_leaves_what_came_before() {
    let mut known = Numerics::new();
    let mut vm =
        VM::new("t create with headers \"a\" with title \"T\" with nothing \"x\"".to_string());
    let d = run_line(&mut vm, &mut known).unwrap_err();
    assert_eq!(d.fault, Fault::UnknownModifier);
    assert_eq!((d.offset, d.width), (46, 7));
    assert_eq!(vm.tables()[0].title(), "T");
    assert_eq!(vm.tables()[0].headers().cells, vec![text("a")]);
}

#[test]
fn rows_and_headers_take_literals_only() {
    let mut known = Numerics::new();
    let mut vm = VM::new(
        "t create with headers \"a\" \"b\"\nt add_row \"x y\" z\nt headers c\nt add_row \"1\" \"2\" \"3\nt add_row \"é\" \"b c\" d\n".to_string(),
    );
    run_line(&mut vm, &mut known).unwrap();
    let d = run_line(&mut vm, &mut known).unwrap_err();
    assert_eq!((d.fault, d.offset, d.width), (Fault::LiteralExpected, 16, 1));
    assert_eq!(d.to_text(), "t add_row \"x y\" z\n                ^\nString literal not found.");
    assert_eq!(vm.take_notices(), vec![Notice::QuoteExpected]);
    assert_eq!(vm.tables()[0].dimensions(), (0, 2));
    let d = run_line(&mut vm, &mut known).unwrap_err();
    assert_eq!((d.fault, d.offset, d.width), (Fault::LiteralExpected, 10, 1));
    vm.take_notices();
    assert_eq!(run_line(&mut vm, &mut known), Ok(Effect::Nothing));
    assert_eq!(
        vm.take_notices(),
        vec![Notice::Unclosed, Notice::Truncated(3, 2)]
    );
    let d = run_line(&mut vm, &mut known).unwrap_err();
    assert_eq!((d.fault, d.offset, d.width), (Fault::LiteralExpected, 21, 1));
}

#[test]
fn row_without_headers_is_reported() {
    let mut known = Numerics::new();
    let mut vm = VM::new("t create\nt add_row \"1\" \"2\"\n".to_string());
    run_line(&mut vm, &mut known).unwrap();
    assert_eq!(run_line(&mut vm, &mut known), Ok(Effect::Nothing));
    assert_eq!(vm.take_notices(), vec![Notice::NoHeaders(2)]);
    assert_eq!(vm.tables()[0].dimensions(), (0, 0));
}

#[test]
fn apply_reads_its_cells() {
    let mut known = Numerics::new();
    let mut vm = VM::new(
        "t create with headers \"a\"\nt add_row \"5\"\nt apply\nt apply f\nf define auto;raw!acc!1;\nt apply f\nt apply f 0\nt apply f x 0\nt apply f 0 0 1\nf define auto;raw!acc!2;\ng define auto;raw\n".to_string(),
    );
    run_line(&mut vm, &mut known).unwrap();
    run_line(&mut vm, &mut known).unwrap();
    let d = run_line(&mut vm, &mut known).unwrap_err();
    assert_eq!((d.fault, d.offset, d.width), (Fault::NoClosureName, 8, 1));
    let d = run_line(&mut vm, &mut known).unwrap_err();
    assert_eq!((d.fault, d.offset, d.width), (Fault::UnknownClosure, 10, 1));
    assert_eq!(d.kind(), ErrorKind::UndefinedClosure);
    run_line(&mut vm, &mut known).unwrap();
    let d = run_line(&mut vm, &mut known).unwrap_err();
    assert_eq!((d.fault, d.offset, d.width), (Fault::NoRowIndex, 10, 1));
    let d = run_line(&mut vm, &mut known).unwrap_err();
    assert_eq!((d.fault, d.offset, d.width), (Fault::NoColumnIndex, 12, 1));
    let d = run_line(&mut vm, &mut known).unwrap_err();
    assert_eq!((d.fault, d.offset, d.width), (Fault::BadIndex, 0, 0));
    vm.take_notices();
    assert_eq!(run_line(&mut vm, &mut known), Ok(Effect::Nothing));
    assert_eq!(
        vm.take_notices(),
        vec![Notice::Experimental, Notice::EndDefaulted]
    );
    assert_eq!(*vm.tables()[0].get_cell(1, 0).unwrap(), number(1.0));
    assert_eq!(run_line(&mut vm, &mut known), Ok(Effect::Nothing));
    assert_eq!(
        vm.take_notices(),
        vec![
            Notice::Experimental,
            Notice::ClosureOverwritten("f".to_string())
        ]
    );
    assert_eq!(vm.closures().len(), 1);
    assert_eq!(vm.closures()[0].name, "f");
    assert_eq!(vm.closures()[0].closure.script, "raw!acc!2");
    let d = run_line(&mut vm, &mut known).unwrap_err();
    assert_eq!((d.fault, d.width), (Fault::BadDefinition, 0));
    assert_eq!(vm.closures().len(), 1);
}

#[test]
fn questions_lose_their_quotes() {
    let mut known = Numerics::new();
    let mut vm = VM::new("t create\nu create\nt prompt \"\"what   is \"this\"?\"\nt prompt\n".to_string());
    run_line(&mut vm, &mut known).unwrap();
    run_line(&mut vm, &mut known).unwrap();
    assert_eq!(
        run_line(&mut vm, &mut known),
        Ok(Effect::Prompt(0, "what is \"this\"?".to_string()))
    );
    assert_eq!(vm.take_notices(), vec![Notice::OneTableOnly]);
    assert_eq!(run_line(&mut vm, &mut known), Ok(Effect::Prompt(0, String::new())));
}

#[test]
fn another_program_runs_on_the_same_tables() {
    let mut known = Numerics::new();
    let mut vm = VM::new("t create".to_string());
    run(&mut vm, &mut known).unwrap();
    vm.load("t headers \"a\"\nrender extra words".to_string());
    assert_eq!(vm.pointer(), 0);
    assert_eq!(run(&mut vm, &mut known), Ok(Effect::Render));
    assert_eq!(vm.tables()[0].dimensions(), (0, 1));
}

#[test]
fn marks_count_bytes() {
    let mut known = Numerics::new();
    let mut vm = VM::new("é nö".to_string());
    let d = run_line(&mut vm, &mut known).unwrap_err();
    assert_eq!((d.fault, d.offset, d.width), (Fault::UnknownOperator, 3, 3));
    assert_eq!(d.to_text(), "é nö\n   ^^^\nNot a valid operator");
}

#[test]
fn notices_say_what_took_place() {
    assert_eq!(Notice::DidYouMean("view".to_string()).to_text(), "Did you mean \"view\"?");
    assert_eq!(
        Notice::ViewHint("t".to_string()).to_text(),
        "Table t can be displayed with `t view`."
    );
    assert_eq!(
        Notice::CreateHint("t".to_string()).to_text(),
        "Use `t create` to create a new table."
    );
    assert_eq!(
        Notice::Ignored("wiht".to_string()).to_text(),
        "Expected modifier but found \"wiht\", ignoring token"
    );
    assert_eq!(
        Notice::Overwritten("t".to_string()).to_text(),
        "Table t already existed, overwriting it."
    );
    assert_eq!(
        Notice::ClosureOverwritten("f".to_string()).to_text(),
        "Closure f already existed, overwriting it."
    );
    assert_eq!(
        Notice::QuoteExpected.to_text(),
        "String literals must be enclosed in double quotes (\")."
    );
    assert_eq!(
        Notice::Unclosed.to_text(),
        "String literal was not closed properly. Try adding a double quote (\") at the end of the string literal."
    );
    assert_eq!(
        Notice::NoHeaders(12).to_text(),
        "Headers are not set, adding data before setting headers is not allowed. Values that were left out: 12"
    );
    assert_eq!(
        Notice::Truncated(4, 3).to_text(),
        "Row size is greater than the header size (4 > 3), truncating Row size to match header size"
    );
    assert_eq!(
        Notice::Experimental.to_text(),
        "This feature is in alpha stage, it may not work as expected."
    );
    assert_eq!(Notice::EndDefaulted.to_text(), "Defaulting end to start cell address.");
    assert_eq!(
        Notice::OneTableOnly.to_text(),
        "You can only reference one table in prompt for now."
    );
    for notice in [Notice::QuoteExpected, Notice::CreateHint(String::new()), Notice::ViewHint(String::new())] {
        assert!(notice.is_suggestion());
    }
    for notice in [Notice::Experimental, Notice::EndDefaulted, Notice::NoHeaders(0)] {
        assert!(!notice.is_suggestion());
    }
}

#[test]
fn numbers_are_written_in_decimal_digits() {
    let written = |n: usize| string_of(&tabula::text::decimal(n));
    assert_eq!(written(0), "0");
    assert_eq!(written(7), "7");
    assert_eq!(written(10), "10");
    assert_eq!(written(120034), "120034");
    assert_eq!(written(usize::MAX), usize::MAX.to_string());
    assert_eq!(parse_index(&tabula::text::decimal(9041)), Some(9041));
}
