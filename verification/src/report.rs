//! What a line reports: the notices that it gives, the failure that it ends
//! with, and what it leaves to do.

use crate::error::{ErrorKind, Fault};
use crate::numerics::{Query, QueryModel};
use crate::text::{decimal, decimal_text, string_of};
use vstd::prelude::*;
use vstd::string::*;

verus! {

/// What a line gave notice of without failing.
#[derive(Debug, PartialEq)]
pub enum Notice {
    /// A suggestion: the word that may have been meant.
    DidYouMean(String),
    /// A suggestion: the table of this name can be shown with `view`.
    ViewHint(String),
    /// A suggestion: a table of this name can be made with `create`.
    CreateHint(String),
    /// A warning: this word stands where `with` or `and` should, and was
    /// passed over.
    Ignored(String),
    /// A warning: the table of this name existed, and was replaced.
    Overwritten(String),
    /// A warning: the closure of this name existed, and was replaced.
    ClosureOverwritten(String),
    /// A suggestion: literals stand between double quotes.
    QuoteExpected,
    /// A warning: a literal was not closed; a quote at its end closes it.
    Unclosed,
    /// A warning: the table has no headers, and the row of so many values
    /// was not added.
    NoHeaders(usize),
    /// A warning: the row had more values than the table has columns, and
    /// was cut; the two numbers follow.
    Truncated(usize, usize),
    /// A warning: closures are not settled yet.
    Experimental,
    /// A warning: the range ends where it starts, for want of a second
    /// cell.
    EndDefaulted,
    /// A warning: a question can refer to one table only.
    OneTableOnly,
}

/// What a notice is.
pub enum NoticeModel {
    DidYouMean(Seq<char>),
    ViewHint(Seq<char>),
    CreateHint(Seq<char>),
    Ignored(Seq<char>),
    Overwritten(Seq<char>),
    ClosureOverwritten(Seq<char>),
    QuoteExpected,
    Unclosed,
    NoHeaders(usize),
    Truncated(usize, usize),
    Experimental,
    EndDefaulted,
    OneTableOnly,
}

impl View for Notice {
    type V = NoticeModel;

    open spec fn view(&self) -> NoticeModel {
        match self {
            Notice::DidYouMean(s) => NoticeModel::DidYouMean(s@),
            Notice::ViewHint(s) => NoticeModel::ViewHint(s@),
            Notice::CreateHint(s) => NoticeModel::CreateHint(s@),
            Notice::Ignored(s) => NoticeModel::Ignored(s@),
            Notice::Overwritten(s) => NoticeModel::Overwritten(s@),
            Notice::ClosureOverwritten(s) => NoticeModel::ClosureOverwritten(s@),
            Notice::QuoteExpected => NoticeModel::QuoteExpected,
            Notice::Unclosed => NoticeModel::Unclosed,
            Notice::NoHeaders(n) => NoticeModel::NoHeaders(*n),
            Notice::Truncated(a, b) => NoticeModel::Truncated(*a, *b),
            Notice::Experimental => NoticeModel::Experimental,
            Notice::EndDefaulted => NoticeModel::EndDefaulted,
            Notice::OneTableOnly => NoticeModel::OneTableOnly,
        }
    }
}

impl Notice {
    /// Whether the notice is a suggestion; the others are warnings.
    pub fn is_suggestion(&self) -> (r: bool)
        ensures
            r == (self@ is DidYouMean || self@ is ViewHint || self@ is CreateHint || self@
                is QuoteExpected),
    {
        match self {
            Notice::DidYouMean(_) | Notice::ViewHint(_) | Notice::CreateHint(_)
            | Notice::QuoteExpected => true,
            _ => false,
        }
    }
}

/// What a notice says.
pub open spec fn notice_text(n: NoticeModel) -> Seq<char> {
    match n {
        NoticeModel::DidYouMean(word) => "Did you mean \""@ + word + "\"?"@,
        NoticeModel::ViewHint(name) => "Table "@ + name + " can be displayed with `"@ + name
            + " view`."@,
        NoticeModel::CreateHint(name) => "Use `"@ + name + " create` to create a new table."@,
        NoticeModel::Ignored(token) => "Expected modifier but found \""@ + token
            + "\", ignoring token"@,
        NoticeModel::Overwritten(name) => "Table "@ + name + " already existed, overwriting it."@,
        NoticeModel::ClosureOverwritten(name) => "Closure "@ + name
            + " already existed, overwriting it."@,
        NoticeModel::QuoteExpected => "String literals must be enclosed in double quotes (\")."@,
        NoticeModel::Unclosed => "String literal was not closed properly. Try adding a double quote (\") at the end of the string literal."@,
        NoticeModel::NoHeaders(given) => "Headers are not set, adding data before setting headers is not allowed. Values that were left out: "@
            + decimal_text(given as nat),
        NoticeModel::Truncated(given, width) => "Row size is greater than the header size ("@
            + decimal_text(given as nat) + " > "@ + decimal_text(width as nat)
            + "), truncating Row size to match header size"@,
        NoticeModel::Experimental => "This feature is in alpha stage, it may not work as expected."@,
        NoticeModel::EndDefaulted => "Defaulting end to start cell address."@,
        NoticeModel::OneTableOnly => "You can only reference one table in prompt for now."@,
    }
}

impl Notice {
    /// What the notice says.
    pub fn to_text(&self) -> (s: String)
        ensures
            s@ == notice_text(self@),
    {
        match self {
            Notice::DidYouMean(word) => {
                let mut s = "Did you mean \"".to_owned();
                s.append(word.as_str());
                s.append("\"?");
                s
            },
            Notice::ViewHint(name) => {
                let mut s = "Table ".to_owned();
                s.append(name.as_str());
                s.append(" can be displayed with `");
                s.append(name.as_str());
                s.append(" view`.");
                s
            },
            Notice::CreateHint(name) => {
                let mut s = "Use `".to_owned();
                s.append(name.as_str());
                s.append(" create` to create a new table.");
                s
            },
            Notice::Ignored(token) => {
                let mut s = "Expected modifier but found \"".to_owned();
                s.append(token.as_str());
                s.append("\", ignoring token");
                s
            },
            Notice::Overwritten(name) => {
                let mut s = "Table ".to_owned();
                s.append(name.as_str());
                s.append(" already existed, overwriting it.");
                s
            },
            Notice::ClosureOverwritten(name) => {
                let mut s = "Closure ".to_owned();
                s.append(name.as_str());
                s.append(" already existed, overwriting it.");
                s
            },
            Notice::QuoteExpected => "String literals must be enclosed in double quotes (\").".to_owned(),
            Notice::Unclosed => "String literal was not closed properly. Try adding a double quote (\") at the end of the string literal.".to_owned(),
            Notice::NoHeaders(given) => {
                let mut s =
                    "Headers are not set, adding data before setting headers is not allowed. Values that were left out: ".to_owned();
                s.append(string_of(&decimal(*given)).as_str());
                s
            },
            Notice::Truncated(given, width) => {
                let mut s = "Row size is greater than the header size (".to_owned();
                s.append(string_of(&decimal(*given)).as_str());
                s.append(" > ");
                s.append(string_of(&decimal(*width)).as_str());
                s.append("), truncating Row size to match header size");
                s
            },
            Notice::Experimental => "This feature is in alpha stage, it may not work as expected.".to_owned(),
            Notice::EndDefaulted => "Defaulting end to start cell address.".to_owned(),
            Notice::OneTableOnly => "You can only reference one table in prompt for now.".to_owned(),
        }
    }
}

/// The views of notices.
pub open spec fn notice_views(v: Seq<Notice>) -> Seq<NoticeModel> {
    v.map_values(|n: Notice| n@)
}

/// A failure of a line: the line, the place and the width of what is at
/// fault in it, counted in bytes, and the failure. A width of 0 marks
/// nothing in the line.
#[derive(Debug, PartialEq)]
pub struct Diagnostic {
    pub line: String,
    pub offset: usize,
    pub width: usize,
    pub fault: Fault,
}

/// What a failure of a line is.
pub struct DiagnosticModel {
    pub line: Seq<char>,
    pub offset: usize,
    pub width: usize,
    pub fault: Fault,
}

impl View for Diagnostic {
    type V = DiagnosticModel;

    open spec fn view(&self) -> DiagnosticModel {
        DiagnosticModel {
            line: self.line@,
            offset: self.offset,
            width: self.width,
            fault: self.fault,
        }
    }
}

/// What a failure says.
pub open spec fn fault_message(f: Fault) -> Seq<char> {
    match f {
        Fault::TextOperand => "A text cannot be multiplied or divided."@,
        Fault::EmptyOperand => "An empty cell cannot be divided."@,
        Fault::DivisionByZero => "Cannot divide by zero!"@,
        Fault::RowOutOfBounds => "Row index out of bound."@,
        Fault::ColumnOutOfBounds => "Column index out of bound."@,
        Fault::BadCellReference => "Invalid cell reference. Must be in the form '~cell(i,j)'"@,
        Fault::NotEnoughOperands => "Invalid postfix expression. Not enough operands."@,
        Fault::TooManyValues => "Invalid postfix expression. Too many values."@,
        Fault::RangeOutOfBounds => "Cell index out of range."@,
        Fault::StorageNotSpecified => "Storage location not specified."@,
        Fault::InvalidStorage => "Invalid storage location."@,
        Fault::AccumulatorNotDefined => "Accumulator was not defined in the prescript."@,
        Fault::RegisterNotSpecified => "Register not specified. Must be a number."@,
        Fault::RegisterOutOfRange => "Register ID out of range."@,
        Fault::NoExpression => "Invalid closure. No closure specified."@,
        Fault::InvalidCommand => "Invalid token in closure."@,
        Fault::BadAccumulator => "Accumulator defined incorrectly. Must be 'auto' or a comma separated index pair."@,
        Fault::BadDefinition => "A closure is defined by three parts between ';'."@,
        Fault::LineTooLong => "The line is too long."@,
        Fault::NoOperator => "No token found for any operation"@,
        Fault::UnknownOperator => "Not a valid operator"@,
        Fault::UnknownTable => "No table found with that name"@,
        Fault::NoModifier => "No token found for modifier."@,
        Fault::UnknownModifier => "Not a valid modifier"@,
        Fault::NoData => "No data found for modifier"@,
        Fault::LiteralExpected => "String literal not found."@,
        Fault::NoClosureName => "No token found for closure name."@,
        Fault::UnknownClosure => "No closure found with that name."@,
        Fault::NoRowIndex => "No token found for row-index."@,
        Fault::NoColumnIndex => "No token found for column-index."@,
        Fault::BadIndex => "A cell address is made of two numbers."@,
    }
}

/// A character, so many times.
pub open spec fn repeated(c: char, n: nat) -> Seq<char> {
    Seq::new(n, |i: int| c)
}

/// A failure as text. Where it marks something: the line; below it, spaces
/// up to what is at fault and a `^` under each of its bytes; below that,
/// what the failure says. Where it marks nothing: what the failure says.
pub open spec fn diagnostic_text(d: DiagnosticModel) -> Seq<char> {
    if d.width == 0 {
        fault_message(d.fault)
    } else {
        d.line + seq!['\n'] + repeated(' ', d.offset as nat) + repeated('^', d.width as nat)
            + seq!['\n'] + fault_message(d.fault)
    }
}

fn message(f: Fault) -> (s: &'static str)
    ensures
        s@ == fault_message(f),
{
    match f {
        Fault::TextOperand => "A text cannot be multiplied or divided.",
        Fault::EmptyOperand => "An empty cell cannot be divided.",
        Fault::DivisionByZero => "Cannot divide by zero!",
        Fault::RowOutOfBounds => "Row index out of bound.",
        Fault::ColumnOutOfBounds => "Column index out of bound.",
        Fault::BadCellReference => "Invalid cell reference. Must be in the form '~cell(i,j)'",
        Fault::NotEnoughOperands => "Invalid postfix expression. Not enough operands.",
        Fault::TooManyValues => "Invalid postfix expression. Too many values.",
        Fault::RangeOutOfBounds => "Cell index out of range.",
        Fault::StorageNotSpecified => "Storage location not specified.",
        Fault::InvalidStorage => "Invalid storage location.",
        Fault::AccumulatorNotDefined => "Accumulator was not defined in the prescript.",
        Fault::RegisterNotSpecified => "Register not specified. Must be a number.",
        Fault::RegisterOutOfRange => "Register ID out of range.",
        Fault::NoExpression => "Invalid closure. No closure specified.",
        Fault::InvalidCommand => "Invalid token in closure.",
        Fault::BadAccumulator => "Accumulator defined incorrectly. Must be 'auto' or a comma separated index pair.",
        Fault::BadDefinition => "A closure is defined by three parts between ';'.",
        Fault::LineTooLong => "The line is too long.",
        Fault::NoOperator => "No token found for any operation",
        Fault::UnknownOperator => "Not a valid operator",
        Fault::UnknownTable => "No table found with that name",
        Fault::NoModifier => "No token found for modifier.",
        Fault::UnknownModifier => "Not a valid modifier",
        Fault::NoData => "No data found for modifier",
        Fault::LiteralExpected => "String literal not found.",
        Fault::NoClosureName => "No token found for closure name.",
        Fault::UnknownClosure => "No closure found with that name.",
        Fault::NoRowIndex => "No token found for row-index.",
        Fault::NoColumnIndex => "No token found for column-index.",
        Fault::BadIndex => "A cell address is made of two numbers.",
    }
}

fn push_repeated(out: &mut String, c: char, n: usize)
    ensures
        final(out)@ == old(out)@ + repeated(c, n as nat),
{
    let mut i: usize = 0;
    assert(out@ =~= old(out)@ + repeated(c, 0));
    while i < n
        invariant
            i <= n,
            out@ == old(out)@ + repeated(c, i as nat),
        decreases n - i,
    {
        out.push(c);
        i += 1;
        assert(out@ =~= old(out)@ + repeated(c, i as nat));
    }
}

impl Diagnostic {
    /// The failure as text.
    pub fn to_text(&self) -> (s: String)
        ensures
            s@ == diagnostic_text(self@),
    {
        if self.width == 0 {
            return message(self.fault).to_owned();
        }
        let mut out = self.line.clone();
        out.push('\n');
        push_repeated(&mut out, ' ', self.offset);
        push_repeated(&mut out, '^', self.width);
        out.push('\n');
        out.append(message(self.fault));
        assert(out@ =~= diagnostic_text(self@));
        out
    }

    /// The class of the failure.
    pub fn kind(&self) -> (k: crate::error::ErrorKind)
        ensures
            k == self@.fault.class(),
    {
        self.fault.kind()
    }
}

/// Why a line stopped before its end.
#[derive(Debug, PartialEq)]
pub enum Halt {
    /// It needs the answer to a question on numbers. Nothing was changed.
    Ask(Query),
    /// It failed.
    Error(Diagnostic),
}

/// Why a line stopped, as a model.
pub enum HaltModel {
    Ask(QueryModel),
    Error(DiagnosticModel),
}

impl View for Halt {
    type V = HaltModel;

    open spec fn view(&self) -> HaltModel {
        match self {
            Halt::Ask(q) => HaltModel::Ask(q@),
            Halt::Error(d) => HaltModel::Error(d@),
        }
    }
}

/// What is left to do after a line, outside the interpreter.
#[derive(Debug, PartialEq)]
pub enum Effect {
    /// Nothing.
    Nothing,
    /// The table at this place is to be shown.
    View(usize),
    /// A question on the table at this place is to be answered.
    Prompt(usize, String),
    /// All tables are to be written out as HTML.
    Render,
}

/// What is left to do after a line, as a model.
pub enum EffectModel {
    Nothing,
    View(usize),
    Prompt(usize, Seq<char>),
    Render,
}

impl View for Effect {
    type V = EffectModel;

    open spec fn view(&self) -> EffectModel {
        match self {
            Effect::Nothing => EffectModel::Nothing,
            Effect::View(at) => EffectModel::View(*at),
            Effect::Prompt(at, s) => EffectModel::Prompt(*at, s@),
            Effect::Render => EffectModel::Render,
        }
    }
}

/// How a line ended, as a model.
pub open spec fn ended(r: Result<Effect, Halt>) -> Result<EffectModel, HaltModel> {
    match r {
        Ok(e) => Ok(e@),
        Err(h) => Err(h@),
    }
}

} // verus!
