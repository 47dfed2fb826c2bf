use simple_arg_parser::get_raw_args_string;
use simple_arg_parser::is_flag;
use simple_arg_parser::is_option;
use simple_arg_parser::is_positional;
use simple_arg_parser::is_variable;
use simple_arg_parser::VariableMap;

#[test]
fn test_predicates_positional() {
    assert!(is_positional("file.txt"));
    assert!(is_positional(""));
    assert!(!is_positional("-f"));
    assert!(!is_positional("--opt"));
}

#[test]
fn test_predicates_flag() {
    assert!(is_flag("-f"));
    assert!(is_flag("-abc"));
    assert!(is_flag("-"));
    assert!(!is_flag("--opt"));
    assert!(!is_flag("plain"));
}

#[test]
fn test_predicates_option() {
    assert!(is_option("--quiet"));
    assert!(is_option("--"));
    assert!(!is_option("--k=v"));
    assert!(!is_option("-q"));
    assert!(!is_option("quiet"));
}

#[test]
fn test_predicates_variable() {
    assert!(is_variable("--k=v"));
    assert!(is_variable("--k="));
    assert!(!is_variable("--quiet"));
    assert!(!is_variable("-k"));
    assert!(!is_variable("k=v"));
}

#[test]
fn test_predicates_are_exclusive_and_exhaustive() {
    for token in ["", "x", "-", "-a", "-ab", "--", "--o", "--k=v", "=x", "-=", "--="] {
        let count = [
            is_positional(token),
            is_flag(token),
            is_option(token),
            is_variable(token),
        ]
        .iter()
        .filter(|b| **b)
        .count();
        assert_eq!(count, 1, "token {:?} fell under {} categories", token, count);
    }
}

#[test]
fn test_join_empty() {
    assert_eq!(get_raw_args_string(&Vec::new()), "".to_string());
}

#[test]
fn test_join_single() {
    assert_eq!(get_raw_args_string(&vec!["prog".to_string()]), "prog".to_string());
}

#[test]
fn test_join_several() {
    let args = vec!["prog".to_string(), "-v".to_string(), "in.txt".to_string()];
    assert_eq!(get_raw_args_string(&args), "prog -v in.txt".to_string());
}

#[test]
fn test_variable_map_insert_and_get() {
    let mut map = VariableMap::new();
    assert!(map.is_empty());
    map.insert("a".to_string(), "1".to_string());
    map.insert("b".to_string(), "2".to_string());
    assert_eq!(map.len(), 2);
    assert_eq!(map.get(&"a".to_string()), Some(&"1".to_string()));
    assert_eq!(map.get(&"b".to_string()), Some(&"2".to_string()));
    assert_eq!(map.get(&"missing".to_string()), None);
}

#[test]
fn test_variable_map_overwrite() {
    let mut map = VariableMap::new();
    map.insert("a".to_string(), "1".to_string());
    map.insert("a".to_string(), "2".to_string());
    assert_eq!(map.len(), 1);
    assert_eq!(map.get(&"a".to_string()), Some(&"2".to_string()));
}
