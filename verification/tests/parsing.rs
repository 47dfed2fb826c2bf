use simple_arg_parser::parse_arguments;
use simple_arg_parser::Argument;

#[test]
fn test_argument_parser_get_struct() {
    let args = String::from("test.txt -o test.o --debug --ignore-warnings=true")
        .split_whitespace()
        .map(|s| s.to_string())
        .collect();
    let test = parse_arguments(args);
    println!("{:?}", test);
}

#[test]
fn test_empty_input() {
    let parsed = parse_arguments(Vec::new());
    assert_eq!(parsed.arguments.len(), 0);
    assert_eq!(parsed.positionals.len(), 0);
    assert_eq!(parsed.flags.len(), 0);
    assert_eq!(parsed.options.len(), 0);
    assert!(parsed.variables.is_empty());
    assert_eq!(parsed.variables.len(), 0);
}

#[test]
fn test_mixed_invocation() {
    let args = vec![
        "test.txt".to_string(),
        "-o".to_string(),
        "test.o".to_string(),
        "--debug".to_string(),
        "--ignore-warnings=true".to_string(),
    ];
    let parsed = parse_arguments(args);
    assert_eq!(parsed.positionals, vec!["test.txt".to_string(), "test.o".to_string()]);
    assert_eq!(parsed.flags, vec!['o']);
    assert_eq!(parsed.options, vec!["debug".to_string()]);
    assert_eq!(parsed.variables.len(), 1);
    assert_eq!(
        parsed.variables.get(&"ignore-warnings".to_string()),
        Some(&"true".to_string())
    );
    assert_eq!(parsed.arguments.len(), 5);
    assert_eq!(
        parsed.arguments,
        vec![
            Argument::Positional("test.txt".to_string()),
            Argument::Flag('o'),
            Argument::Positional("test.o".to_string()),
            Argument::Option("debug".to_string()),
            Argument::Variable { name: "ignore-warnings".to_string(), value: "true".to_string() },
        ]
    );
}

#[test]
fn test_flag_cluster() {
    let parsed = parse_arguments(vec!["-abc".to_string()]);
    assert_eq!(parsed.flags, vec!['a', 'b', 'c']);
    assert_eq!(parsed.positionals.len(), 0);
    assert_eq!(parsed.options.len(), 0);
    assert_eq!(parsed.variables.len(), 0);
    assert_eq!(
        parsed.arguments,
        vec![Argument::Flag('a'), Argument::Flag('b'), Argument::Flag('c')]
    );
}

#[test]
fn test_repeated_flag_characters() {
    let parsed = parse_arguments(vec!["-oo".to_string()]);
    assert_eq!(parsed.flags, vec!['o', 'o']);
    assert_eq!(parsed.arguments.len(), 2);
}

#[test]
fn test_variable_last_write_wins() {
    let parsed = parse_arguments(vec!["--x=1".to_string(), "--x=2".to_string()]);
    assert_eq!(parsed.variables.len(), 1);
    assert_eq!(parsed.variables.get(&"x".to_string()), Some(&"2".to_string()));
    assert_eq!(parsed.arguments.len(), 2);
    assert_eq!(
        parsed.arguments,
        vec![
            Argument::Variable { name: "x".to_string(), value: "1".to_string() },
            Argument::Variable { name: "x".to_string(), value: "2".to_string() },
        ]
    );
}

#[test]
fn test_bare_dash() {
    let parsed = parse_arguments(vec!["-".to_string()]);
    assert_eq!(parsed.arguments.len(), 0);
    assert_eq!(parsed.positionals.len(), 0);
    assert_eq!(parsed.flags.len(), 0);
    assert_eq!(parsed.options.len(), 0);
    assert_eq!(parsed.variables.len(), 0);
}

#[test]
fn test_bare_double_dash_is_empty_option() {
    let parsed = parse_arguments(vec!["--".to_string()]);
    assert_eq!(parsed.options, vec!["".to_string()]);
    assert_eq!(parsed.arguments, vec![Argument::Option("".to_string())]);
}

#[test]
fn test_empty_token_is_positional() {
    let parsed = parse_arguments(vec!["".to_string()]);
    assert_eq!(parsed.positionals, vec!["".to_string()]);
    assert_eq!(parsed.arguments, vec![Argument::Positional("".to_string())]);
}

#[test]
fn test_variable_value_keeps_later_equals_signs() {
    let parsed = parse_arguments(vec!["--key=a=b".to_string()]);
    assert_eq!(parsed.variables.get(&"key".to_string()), Some(&"a=b".to_string()));
    assert_eq!(
        parsed.arguments,
        vec![Argument::Variable { name: "key".to_string(), value: "a=b".to_string() }]
    );
}

#[test]
fn test_variable_empty_value() {
    let parsed = parse_arguments(vec!["--key=".to_string()]);
    assert_eq!(parsed.variables.get(&"key".to_string()), Some(&"".to_string()));
}

#[test]
fn test_variables_with_distinct_names() {
    let parsed = parse_arguments(vec!["--a=1".to_string(), "--b=2".to_string()]);
    assert_eq!(parsed.variables.len(), 2);
    assert_eq!(parsed.variables.get(&"a".to_string()), Some(&"1".to_string()));
    assert_eq!(parsed.variables.get(&"b".to_string()), Some(&"2".to_string()));
    assert_eq!(parsed.variables.get(&"c".to_string()), None);
}

#[test]
fn test_order_is_preserved() {
    let parsed = parse_arguments(vec![
        "b".to_string(),
        "a".to_string(),
        "--z".to_string(),
        "--y".to_string(),
        "-qp".to_string(),
        "b".to_string(),
    ]);
    assert_eq!(
        parsed.positionals,
        vec!["b".to_string(), "a".to_string(), "b".to_string()]
    );
    assert_eq!(parsed.options, vec!["z".to_string(), "y".to_string()]);
    assert_eq!(parsed.flags, vec!['q', 'p']);
}

#[test]
fn test_partition_accounts_for_every_token() {
    // Two positionals, three flag characters, one option, two variable
    // tokens (one name overwritten): 2 + 3 + 1 + 2 entries in the record.
    let parsed = parse_arguments(vec![
        "in.txt".to_string(),
        "-abc".to_string(),
        "--quiet".to_string(),
        "--k=1".to_string(),
        "out.txt".to_string(),
        "--k=2".to_string(),
    ]);
    let variable_entries = parsed
        .arguments
        .iter()
        .filter(|a| matches!(a, Argument::Variable { .. }))
        .count();
    assert_eq!(variable_entries, 2);
    assert_eq!(
        parsed.arguments.len(),
        parsed.positionals.len() + parsed.flags.len() + parsed.options.len() + variable_entries
    );
    assert_eq!(parsed.arguments.len(), 8);
}

#[test]
fn test_reclassifying_positionals_is_identity() {
    let parsed = parse_arguments(vec![
        "one".to_string(),
        "-f".to_string(),
        "two".to_string(),
        "--opt".to_string(),
        "--k=v".to_string(),
    ]);
    let again = parse_arguments(parsed.positionals.clone());
    assert_eq!(again.positionals, parsed.positionals);
    assert_eq!(again.flags.len(), 0);
    assert_eq!(again.options.len(), 0);
    assert_eq!(again.variables.len(), 0);
}
