//! A small calculator core: evaluates integer arithmetic over `+ - *`,
//! parentheses, unary signs, named integer variables and string literals.
pub mod chars;
pub mod grammar;
pub mod laws;
pub mod parser;
pub mod session;
pub mod table;
pub mod value;
