//! A small command-line argument classifier.
//!
//! Given the raw tokens of a program invocation, `parse_arguments`
//! partitions them into four syntactic categories — positional values,
//! single-character flags, long options, and `name=value` variables — and
//! returns both a flat ordered record of the classification and grouped
//! views for each category.

mod argument;
mod classify;
mod laws;
mod token;
mod variables;

pub use classify::ParsedArguments;
pub use classify::ParsedView;
pub use classify::parse_arguments;
pub use classify::get_raw_args_string;
pub use classify::spec_classify;
pub use classify::spec_join_spaces;
pub use classify::token_args;
pub use classify::flag_view_at;
pub use classify::flag_views_upto;
pub use classify::spec_arguments;
pub use classify::spec_positionals;
pub use classify::spec_flags;
pub use classify::spec_options;
pub use classify::spec_variables;
pub use classify::spec_variable_count;

pub use argument::Argument;
pub use argument::ArgView;
pub use token::TokenClass;
pub use token::classify_token;
pub use token::is_positional;
pub use token::is_flag;
pub use token::is_option;
pub use token::is_variable;
pub use token::first_eq_position;
pub use token::token_is_positional;
pub use token::token_is_flag;
pub use token::token_is_option;
pub use token::token_is_variable;
pub use token::starts_dash;
pub use token::starts_double_dash;
pub use token::has_eq;
pub use token::first_eq_index;
pub use token::var_name;
pub use token::var_value;
pub use token::lemma_first_eq_at;
pub use token::lemma_variable_split_in_range;
pub use variables::VariableMap;
pub use laws::lemma_token_has_one_category;
pub use laws::lemma_exhaustive_partition;
pub use laws::lemma_classification_appends;
pub use laws::lemma_last_write_wins;
pub use laws::lemma_variables_domain;
pub use laws::lemma_positionals_all_positional;
pub use laws::lemma_positional_fixpoint;
pub use laws::lemma_positionals_idempotent;
