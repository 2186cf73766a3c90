//! Code generators: from a program to code in another language.
mod python;
pub use python::{
    generate_python, python_string, real_literals, escaped, char_escape, python_literal,
    expr_python, statement_python, program_python, real_python, table_view, expr_reals,
    statement_reals, program_reals, unescape_char, python_unescaped, law_generation_concatenates,
    law_declarations_generate_nothing, law_python_literal_reads_back, law_decoding_undoes_escaping,
    law_negation_python, law_print_values,
};
