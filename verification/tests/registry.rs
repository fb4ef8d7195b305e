use cli_arg_parser::{FlagError, FlagKind, FlagValue, Flags};

fn strings(items: &[&str]) -> Vec<String> {
    items.iter().map(|item| item.to_string()).collect()
}

#[test]
fn flag_can_be_found_at_arbitrary_index_in_flag_list() {
    let mut flags = Flags::new();
    let bool_idx = flags.new_flag("boolean", "boolean flag", FlagValue::Bool(false));
    let uint_idx = flags.new_flag("uint", "uint flag", FlagValue::Uint(6));

    if let Some(idx) = flags.contains_flag("uint") {
        assert_eq!(1, idx);
        assert_eq!(uint_idx, idx);
        assert_ne!(uint_idx, bool_idx)
    } else {
        panic!()
    }
}

#[test]
fn flag_can_be_found_in_flag_list() {
    let mut flags = Flags::new();
    let bool_idx = flags.new_flag("boolean", "boolean flag", FlagValue::Bool(false));

    if let Some(idx) = flags.contains_flag("boolean") {
        assert_eq!(0, idx);
        assert_eq!(bool_idx, idx)
    } else {
        panic!()
    }
}

#[test]
fn flag_value_can_be_returned_as_correct_type() {
    let mut flags = Flags::new();
    let bool_idx = flags.new_flag("boolean", "boolean flag", FlagValue::Bool(false));
    let uint_idx = flags.new_flag("uint", "uint flag", FlagValue::Uint(6));

    assert_eq!(Ok(6), flags.value_as_uint(uint_idx));
    assert_eq!(Ok(false), flags.value_as_bool(bool_idx));
}

#[test]
fn flag_value_can_be_changed() {
    let mut flags = Flags::new();
    let bool_idx = flags.new_flag("boolean", "boolean flag", FlagValue::Bool(false));

    flags.change_value(bool_idx, "true".to_string());
    assert_eq!("true", format!("{}", flags.value_as_str(bool_idx)));
}

#[test]
fn args_can_be_parsed_into_flags() {
    let args = vec!["cli-arg-parser", "--boolean", "true", "--uint", "5"];
    let args: Vec<String> = args.iter().map(|elem| elem.to_string()).collect();

    let mut flags = Flags::new();
    let bool_idx = flags.new_flag("boolean", "boolean flag", FlagValue::Bool(false));
    let uint_idx = flags.new_flag("uint", "uint flag", FlagValue::Uint(6));

    flags.parse(&args);

    assert_eq!("true", format!("{}", flags.value_as_str(bool_idx)));
    assert_eq!("5", format!("{}", flags.value_as_str(uint_idx)));
}

#[test]
fn strings_added_to_flags() {
    let mut flags = Flags::new();

    let str_idx = flags.new_flag(
        "H",
        "This is the hello Flag.",
        FlagValue::Str("Hello".to_string()),
    );
    let str_idx2 = flags.new_flag(
        "W",
        "This is the world Flag.",
        FlagValue::Str("World".to_string()),
    );

    assert_eq!("Hello", format!("{}", flags.value_as_str(str_idx)));
    assert_eq!("World", format!("{}", flags.value_as_str(str_idx2)));
}

#[test]
fn bools_added_to_flags() {
    let mut flags = Flags::new();

    let bool_idx = flags.new_flag("F", "This is the false Flag.", FlagValue::Bool(false));
    let bool_idx2 = flags.new_flag("T", "This is the true Flag.", FlagValue::Bool(true));

    assert_eq!("false", format!("{}", flags.value_as_str(bool_idx)));
    assert_eq!("true", format!("{}", flags.value_as_str(bool_idx2)));
}

#[test]
fn uints_added_to_flags() {
    let mut flags = Flags::new();

    let uint_idx = flags.new_flag("6", "This is the false Flag.", FlagValue::Uint(6));
    let uint_idx2 = flags.new_flag("5", "This is the true Flag.", FlagValue::Uint(5));

    assert_eq!("6", format!("{}", flags.value_as_str(uint_idx)));
    assert_eq!("5", format!("{}", flags.value_as_str(uint_idx2)));
}

#[test]
fn new_registry_is_empty() {
    let flags = Flags::new();
    assert_eq!(0, flags.len());
    assert_eq!(None, flags.contains_flag("anything"));
    assert_eq!(None, flags.contains_flag(""));
}

#[test]
fn handles_count_up_from_zero() {
    let mut flags = Flags::new();
    assert_eq!(0, flags.new_str("a", "first", "x"));
    assert_eq!(1, flags.new_bool("b", "second", true));
    assert_eq!(2, flags.new_uint("c", "third", 3));
    assert_eq!(3, flags.new_flag("d", "fourth", FlagValue::Uint(4)));
    assert_eq!(4, flags.len());
}

#[test]
fn handle_keeps_denoting_the_flag_it_was_issued_for() {
    let mut flags = Flags::new();
    let first = flags.new_str("first", "the first flag", "one");
    let second = flags.new_uint("second", "the second flag", 2);
    let third = flags.new_bool("third", "the third flag", true);

    assert_eq!("first", flags.flag(first).name());
    assert_eq!("the first flag", flags.flag(first).desc());
    assert_eq!(FlagKind::Str, flags.flag(first).kind());
    assert_eq!("second", flags.flag(second).name());
    assert_eq!(FlagKind::Uint, flags.flag(second).kind());
    assert_eq!("third", flags.flag(third).name());
    assert_eq!(FlagKind::Bool, flags.flag(third).kind());

    flags.parse(&strings(&["prog", "--third", "false", "--first", "uno", "--second", "22"]));
    flags.change_value(second, "222".to_string());
    let fourth = flags.new_uint("fourth", "the fourth flag", 4);

    assert_eq!(3, fourth);
    assert_eq!("first", flags.flag(first).name());
    assert_eq!("the first flag", flags.flag(first).desc());
    assert_eq!(FlagKind::Str, flags.flag(first).kind());
    assert_eq!("uno", flags.flag(first).value());
    assert_eq!("second", flags.flag(second).name());
    assert_eq!("the second flag", flags.flag(second).desc());
    assert_eq!(FlagKind::Uint, flags.flag(second).kind());
    assert_eq!(Ok(222), flags.value_as_uint(second));
    assert_eq!("third", flags.flag(third).name());
    assert_eq!(FlagKind::Bool, flags.flag(third).kind());
    assert_eq!(Ok(false), flags.value_as_bool(third));
    assert_eq!(Ok(4), flags.value_as_uint(fourth));
}

#[test]
fn no_flag_is_mandatory() {
    let mut flags = Flags::new();
    let idx = flags.new_bool("b", "a flag", true);
    assert!(!flags.flag(idx).mandatory());
    flags.parse(&strings(&["prog", "--b", "false"]));
    assert!(!flags.flag(idx).mandatory());
}

#[test]
fn default_reads_back_under_its_own_type() {
    let mut flags = Flags::new();
    let yes = flags.new_bool("yes", "", true);
    let no = flags.new_bool("no", "", false);
    let zero = flags.new_uint("zero", "", 0);
    let big = flags.new_uint("big", "", usize::MAX);
    let mid = flags.new_uint("mid", "", 1234567890);
    let text = flags.new_str("text", "", "some text");
    let empty = flags.new_str("empty", "", "");

    assert_eq!(Ok(true), flags.value_as_bool(yes));
    assert_eq!(Ok(false), flags.value_as_bool(no));
    assert_eq!(Ok(0), flags.value_as_uint(zero));
    assert_eq!(Ok(usize::MAX), flags.value_as_uint(big));
    assert_eq!(Ok(1234567890), flags.value_as_uint(mid));
    assert_eq!("some text", flags.value_as_str(text));
    assert_eq!("", flags.value_as_str(empty));
}

#[test]
fn default_is_stored_as_its_canonical_text() {
    let mut flags = Flags::new();
    let yes = flags.new_bool("yes", "", true);
    let no = flags.new_flag("no", "", FlagValue::Bool(false));
    let zero = flags.new_uint("zero", "", 0);
    let mid = flags.new_flag("mid", "", FlagValue::Uint(1234567890));
    let big = flags.new_uint("big", "", usize::MAX);

    assert_eq!("true", flags.value_as_str(yes));
    assert_eq!("false", flags.value_as_str(no));
    assert_eq!("0", flags.value_as_str(zero));
    assert_eq!("1234567890", flags.value_as_str(mid));
    assert_eq!(usize::MAX.to_string(), flags.value_as_str(big));
}

#[test]
fn typed_registration_sets_the_kind() {
    let mut flags = Flags::new();
    let s = flags.new_str("s", "", "x");
    let b = flags.new_bool("b", "", false);
    let u = flags.new_uint("u", "", 1);
    let v = flags.new_flag("v", "", FlagValue::Str("y".to_string()));
    assert_eq!(FlagKind::Str, flags.flag(s).kind());
    assert_eq!(FlagKind::Bool, flags.flag(b).kind());
    assert_eq!(FlagKind::Uint, flags.flag(u).kind());
    assert_eq!(FlagKind::Str, flags.flag(v).kind());
}

#[test]
fn value_kind_and_text() {
    assert_eq!(FlagKind::Str, FlagValue::Str("abc".to_string()).kind());
    assert_eq!(FlagKind::Bool, FlagValue::Bool(true).kind());
    assert_eq!(FlagKind::Uint, FlagValue::Uint(7).kind());
    assert_eq!("abc", FlagValue::Str("abc".to_string()).into_text());
    assert_eq!("true", FlagValue::Bool(true).into_text());
    assert_eq!("false", FlagValue::Bool(false).into_text());
    assert_eq!("7", FlagValue::Uint(7).into_text());
    assert_eq!("100", FlagValue::Uint(100).into_text());
}

#[test]
fn lookup_finds_the_first_of_two_flags_with_one_name() {
    let mut flags = Flags::new();
    let other = flags.new_uint("other", "", 0);
    let first = flags.new_uint("twice", "the earlier one", 1);
    let second = flags.new_uint("twice", "the later one", 2);

    assert_eq!(Some(first), flags.contains_flag("twice"));
    assert_ne!(Some(second), flags.contains_flag("twice"));

    flags.parse(&strings(&["prog", "--twice", "10"]));
    assert_eq!(Ok(0), flags.value_as_uint(other));
    assert_eq!(Ok(10), flags.value_as_uint(first));
    assert_eq!(Ok(2), flags.value_as_uint(second));
}

#[test]
fn lookup_goes_by_the_whole_name() {
    let mut flags = Flags::new();
    flags.new_uint("uint", "", 0);
    flags.new_uint("uint2", "", 0);
    assert_eq!(None, flags.contains_flag("uin"));
    assert_eq!(None, flags.contains_flag("uint22"));
    assert_eq!(None, flags.contains_flag("Uint"));
    assert_eq!(None, flags.contains_flag(""));
    assert_eq!(Some(0), flags.contains_flag("uint"));
    assert_eq!(Some(1), flags.contains_flag("uint2"));
}

#[test]
fn text_that_is_no_boolean_fails_to_convert() {
    let mut flags = Flags::new();
    let idx = flags.new_bool("boolflag", "", false);
    flags.change_value(idx, "notabool".to_string());

    assert_eq!(
        Err(FlagError::TypeConversion { handle: idx, wanted: FlagKind::Bool }),
        flags.value_as_bool(idx)
    );
    assert_eq!("notabool", flags.value_as_str(idx));
}

#[test]
fn text_that_is_no_number_fails_to_convert() {
    let mut flags = Flags::new();
    let spare = flags.new_uint("spare", "", 1);
    let idx = flags.new_uint("uintflag", "", 6);
    flags.parse(&strings(&["prog", "--uintflag", "six"]));

    assert_eq!(
        Err(FlagError::TypeConversion { handle: idx, wanted: FlagKind::Uint }),
        flags.value_as_uint(idx)
    );
    assert_eq!(
        Err(FlagError::TypeConversion { handle: idx, wanted: FlagKind::Bool }),
        flags.value_as_bool(idx)
    );
    assert_eq!(Ok(1), flags.value_as_uint(spare));
    assert_eq!("six", flags.value_as_str(idx));
}

#[test]
fn accessor_goes_by_the_text_and_not_by_the_kind() {
    let mut flags = Flags::new();
    let s = flags.new_str("s", "", "42");
    let t = flags.new_str("t", "", "true");
    let b = flags.new_bool("b", "", true);
    assert_eq!(Ok(42), flags.value_as_uint(s));
    assert_eq!(Ok(true), flags.value_as_bool(t));
    assert_eq!(
        Err(FlagError::TypeConversion { handle: b, wanted: FlagKind::Uint }),
        flags.value_as_uint(b)
    );
    assert_eq!(
        Err(FlagError::TypeConversion { handle: s, wanted: FlagKind::Bool }),
        flags.value_as_bool(s)
    );
}

#[test]
fn reading_twice_gives_the_same() {
    let mut flags = Flags::new();
    let b = flags.new_bool("b", "", true);
    let u = flags.new_uint("u", "", 17);
    let s = flags.new_str("s", "", "text");
    flags.parse(&strings(&["prog", "--u", "18", "--s", "other"]));

    assert_eq!(flags.value_as_bool(b), flags.value_as_bool(b));
    assert_eq!(flags.value_as_uint(u), flags.value_as_uint(u));
    assert_eq!(flags.value_as_str(s), flags.value_as_str(s));
    assert_eq!(flags.value_as_uint(s), flags.value_as_uint(s));
    assert_eq!(Ok(true), flags.value_as_bool(b));
    assert_eq!(Ok(18), flags.value_as_uint(u));
    assert_eq!("other", flags.value_as_str(s));
    assert_eq!(
        Err(FlagError::TypeConversion { handle: s, wanted: FlagKind::Uint }),
        flags.value_as_uint(s)
    );
}

#[test]
fn change_value_touches_one_flag_only() {
    let mut flags = Flags::new();
    let a = flags.new_uint("a", "", 1);
    let b = flags.new_uint("b", "", 2);
    let c = flags.new_uint("c", "", 3);
    flags.change_value(b, "20".to_string());
    assert_eq!(Ok(1), flags.value_as_uint(a));
    assert_eq!(Ok(20), flags.value_as_uint(b));
    assert_eq!(Ok(3), flags.value_as_uint(c));
    assert_eq!("b", flags.flag(b).name());
    assert_eq!(3, flags.len());
}
