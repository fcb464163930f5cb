pub mod text;
pub mod token;
pub mod command;
pub mod pipeline;
pub mod parser;
pub mod external;
pub mod builtin;
pub mod jobs;
pub mod table;
pub mod completer;
pub mod history;
pub mod expand;
pub mod cd;
pub mod vars;
pub mod shell;
