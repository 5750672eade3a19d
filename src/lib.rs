pub mod text;
pub mod position;
pub mod token_types;
pub mod error;
pub mod token;
pub mod nodes;
pub mod context;
pub mod parser_combinators;
pub mod interpreter;
pub mod lemmas;
pub mod lexer;
pub mod parser;
pub mod ray_rengine;
