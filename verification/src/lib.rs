//! Named tables of typed cells, driven by a small line-oriented language, with
//! closures that fold postfix arithmetic over rectangles of cells.
//!
//! A program is read line by line ([`compiler`]). A line names a table and an
//! operator: it creates the table, adds headers or a row to it, defines a
//! closure, applies one to a range of cells ([`closure`]), or asks for the
//! table to be shown ([`chart`]). Values are written as quoted literals
//! ([`literal`]). Tables ([`table`]) hold cells ([`cell`]): texts, numbers,
//! booleans and empty cells, with arithmetic defined on every pair of them. A
//! word that is not understood is answered with the closest word that would
//! have been ([`autocorrect`]).
//!
//! The library holds a number as the 64 bits of its IEEE 754 binary64 form and
//! does no arithmetic on it. Whatever it needs of a number it looks up in what
//! is known ([`numerics`]); where that is not known yet, the operation stops
//! with the question and changes nothing, and the caller learns the answer and
//! runs it again. What was computed once is computed the same with more known
//! ([`stability`]).
//!
//! The library reads no file and prints nothing. What a line gives notice of
//! is kept for the caller to take, and what a line leaves to do outside is
//! handed back as its effect ([`report`]).

pub mod autocorrect;
pub mod cell;
pub mod chart;
pub mod closure;
pub mod compiler;
pub mod error;
pub mod literal;
pub mod numerics;
pub mod report;
pub mod stability;
pub mod table;
pub mod text;
