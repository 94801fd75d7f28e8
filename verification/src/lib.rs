// An interpreter for a small scripting language with dynamic types: numbers,
// strings, booleans, null, lists and functions that keep the scope they were
// declared in.
//
// A source text goes through three stages. The lexer (`lexer`) turns it into
// tokens (`token_types`), the parser (`parser`) turns the tokens into a
// syntax tree (`ast_nodes`), and the evaluator (`interpreter`, specified in
// `machine`) walks the tree against the scopes of the program
// (`environment`). `pipeline` puts the three together. Errors of all stages
// are in `errors`.
//
// Numbers are double-precision values, held as their 64 bits (`number`). The
// library reads what it needs from the bits and computes with whole numbers
// only. For other arithmetic, for the text of other numbers and for the
// native functions (`builtins`, `ai_ml_functions`) the evaluator stops and
// asks the program that embeds it.

pub mod ai_ml_functions;
pub mod ast_nodes;
pub mod builtins;
pub mod environment;
pub mod errors;
pub mod interpreter;
pub mod lexer;
pub mod machine;
pub mod number;
pub mod parser;
pub mod pipeline;
pub mod signatures;
pub mod text;
pub mod token_types;

pub use ast_nodes::ASTNode;
pub use environment::{Environment, Value};
pub use errors::KyaroError;
pub use interpreter::Interpreter;
pub use lexer::Lexer;
pub use parser::Parser;
pub use token_types::{Token, TokenType, TokenValue};
