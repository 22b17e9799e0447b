pub mod text;
pub mod types;
pub mod tokinizer;
pub mod session;
pub mod syntax;
pub mod variable;
pub mod rule;
pub mod interpreter;
pub mod constants;
pub mod formatter;
pub mod tools;
pub mod field;
pub mod number;
pub mod atom;
pub mod scan;
pub mod tables;
pub mod calendar;
pub mod patterns;
