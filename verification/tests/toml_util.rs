use oxidoc::toml_util::{get_toml_value, get_value_in_table, LookupError, TableError, TomlValue};

fn toml_value_from_string(data: &str) -> TomlValue {
    oxidoc::toml_util::toml_value_from_string(data).unwrap()
}

#[test]
fn test_get() {
    let val = toml_value_from_string(
        "
[table]
thing=1
dood=true",
    );
    let res = get_toml_value(&val, "table", "thing");
    assert!(res.is_ok());
    assert!(matches!(res, Ok(TomlValue::Integer(1))));
    let res = get_toml_value(&val, "table", "none");
    assert!(res.is_err());
    let res = get_toml_value(&val, "whee", "thing");
    assert!(res.is_err());
    let res = get_toml_value(&val, "whee", "none");
    assert!(res.is_err());
}

#[test]
fn lookup_errors_say_what_is_missing() {
    let val = toml_value_from_string("[package]\nname = \"oxidoc\"\n");
    assert!(matches!(get_toml_value(&val, "package", "name"), Ok(TomlValue::String(s)) if s == "oxidoc"));
    assert_eq!(get_toml_value(&val, "package", "version").err(), Some(LookupError::NoKey));
    assert_eq!(get_toml_value(&val, "lib", "path").err(), Some(LookupError::NoTable));
    let name = get_toml_value(&val, "package", "name").unwrap();
    assert_eq!(get_value_in_table(name, "x").err(), Some(TableError::NotTable));
    assert_eq!(get_value_in_table(&val, "x").err(), Some(TableError::MissingKey));
}

#[test]
fn invalid_toml_is_refused() {
    assert!(oxidoc::toml_util::toml_value_from_string("[table\nthing=").is_none());
    let v = toml_value_from_string("a = 1.5\nb = [1, 2]");
    assert!(matches!(get_value_in_table(&v, "a"), Ok(TomlValue::Float(bits)) if f64::from_bits(*bits) == 1.5));
    assert!(matches!(get_value_in_table(&v, "b"), Ok(TomlValue::Array(items)) if items.len() == 2));
}
