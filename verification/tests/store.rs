use config_store::{get_list, get_value, set_list, set_value, Config, ConfigError, ConfigValue, Num};

fn empty_store() -> Config {
    Config::load("config.yaml".to_string(), None)
}

fn store_from(text: &str) -> Config {
    Config::load("config.yaml".to_string(), Some(text.to_string()))
}

#[test]
fn missing_file_gives_empty_store() {
    let cfg = empty_store();
    assert!(cfg.is_empty());
    assert_eq!(cfg.path(), "config.yaml");
    assert_eq!(cfg.get::<i64>("window.width"), None);
    assert_eq!(cfg.get::<String>("theme"), None);
    assert_eq!(cfg.get::<ConfigValue>(""), None);
}

#[test]
fn corrupt_file_gives_empty_store() {
    let cfg = store_from("window: [1, 2\n  width: {");
    assert!(cfg.is_empty());
    assert_eq!(cfg.get::<i64>("window"), None);
}

#[test]
fn document_that_is_no_map_gives_empty_store() {
    assert!(store_from("- a\n- b\n").is_empty());
    assert!(store_from("42").is_empty());
    assert!(store_from("just text").is_empty());
}

#[test]
fn empty_document_gives_empty_store() {
    assert!(store_from("").is_empty());
    assert!(store_from("{}").is_empty());
}

#[test]
fn load_keeps_the_path() {
    let cfg = Config::load("/etc/app/settings.yaml".to_string(), Some("a: 1\n".to_string()));
    assert_eq!(cfg.path(), "/etc/app/settings.yaml");
    assert!(!cfg.is_empty());
}

#[test]
fn load_reads_every_kind_of_value() {
    let cfg = store_from(
        "nothing: ~\nflag: true\ncount: 42\nbelow: -7\nratio: 1.5\nname: hello\nlist: [1, two]\nnested:\n  inner: 3\ncolor: !rgb [1, 2, 3]\n",
    );
    assert_eq!(cfg.get::<ConfigValue>("nothing"), Some(ConfigValue::Null));
    assert_eq!(cfg.get::<ConfigValue>("flag"), Some(ConfigValue::Bool(true)));
    assert_eq!(cfg.get::<ConfigValue>("count"), Some(ConfigValue::Number(Num::PosInt(42))));
    assert_eq!(cfg.get::<ConfigValue>("below"), Some(ConfigValue::Number(Num::NegInt(-7))));
    assert_eq!(
        cfg.get::<ConfigValue>("ratio"),
        Some(ConfigValue::Number(Num::Float(serde_yaml::Number::from(1.5))))
    );
    assert_eq!(cfg.get::<ConfigValue>("name"), Some(ConfigValue::String("hello".to_string())));
    assert_eq!(
        cfg.get::<ConfigValue>("list"),
        Some(ConfigValue::Sequence(vec![
            ConfigValue::Number(Num::PosInt(1)),
            ConfigValue::String("two".to_string()),
        ]))
    );
    assert_eq!(
        cfg.get::<ConfigValue>("nested"),
        Some(ConfigValue::Mapping(vec![(
            ConfigValue::String("inner".to_string()),
            ConfigValue::Number(Num::PosInt(3)),
        )]))
    );
    assert_eq!(
        cfg.get::<ConfigValue>("color"),
        Some(ConfigValue::Tagged(
            "!rgb".to_string(),
            Box::new(ConfigValue::Sequence(vec![
                ConfigValue::Number(Num::PosInt(1)),
                ConfigValue::Number(Num::PosInt(2)),
                ConfigValue::Number(Num::PosInt(3)),
            ])),
        ))
    );
    assert_eq!(cfg.get::<ConfigValue>("absent"), None);
}

#[test]
fn load_takes_scalar_keys_as_strings() {
    let cfg = store_from("1: one\ntrue: yes\n");
    assert_eq!(cfg.get::<String>("1"), Some("one".to_string()));
    assert_eq!(cfg.get::<String>("true"), Some("yes".to_string()));
}

#[test]
fn set_then_get_returns_the_value() {
    let mut cfg = empty_store();
    cfg.set("a", 1024i64).unwrap();
    cfg.set("b", u64::MAX).unwrap();
    cfg.set("c", -5i32).unwrap();
    cfg.set("d", 7u32).unwrap();
    cfg.set("e", true).unwrap();
    cfg.set("f", "dark".to_string()).unwrap();
    cfg.set("g", "light").unwrap();
    assert_eq!(cfg.get::<i64>("a"), Some(1024));
    assert_eq!(cfg.get::<u64>("b"), Some(u64::MAX));
    assert_eq!(cfg.get::<i32>("c"), Some(-5));
    assert_eq!(cfg.get::<u32>("d"), Some(7));
    assert_eq!(cfg.get::<bool>("e"), Some(true));
    assert_eq!(cfg.get::<String>("f"), Some("dark".to_string()));
    assert_eq!(cfg.get::<String>("g"), Some("light".to_string()));
}

#[test]
fn set_then_get_returns_a_structured_value() {
    let mut cfg = empty_store();
    let value = ConfigValue::Mapping(vec![
        (ConfigValue::String("x".to_string()), ConfigValue::Number(Num::NegInt(-1))),
        (ConfigValue::String("y".to_string()), ConfigValue::Sequence(vec![ConfigValue::Null])),
    ]);
    cfg.set("point", value.clone()).unwrap();
    assert_eq!(cfg.get::<ConfigValue>("point"), Some(value));
}

#[test]
fn set_replaces_the_value_of_a_key() {
    let mut cfg = empty_store();
    cfg.set("theme", "dark").unwrap();
    cfg.set("size", 3i64).unwrap();
    cfg.set("theme", "light").unwrap();
    assert_eq!(cfg.get::<String>("theme"), Some("light".to_string()));
    assert_eq!(cfg.get::<i64>("size"), Some(3));
    assert_eq!(cfg.save(), Ok("size: 3\ntheme: light\n".to_string()));
}

#[test]
fn set_leaves_other_keys_alone() {
    let mut cfg = store_from("a: 1\nb: two\n");
    cfg.set("c", false).unwrap();
    assert_eq!(cfg.get::<i64>("a"), Some(1));
    assert_eq!(cfg.get::<String>("b"), Some("two".to_string()));
    assert_eq!(cfg.get::<bool>("c"), Some(false));
}

#[test]
fn set_may_change_the_type_under_a_key() {
    let mut cfg = empty_store();
    cfg.set("k", 1i64).unwrap();
    cfg.set("k", "one").unwrap();
    assert_eq!(cfg.get::<i64>("k"), None);
    assert_eq!(cfg.get::<String>("k"), Some("one".to_string()));
}

#[test]
fn string_does_not_read_as_number() {
    let mut cfg = empty_store();
    cfg.set("k", "12").unwrap();
    assert_eq!(cfg.get::<i64>("k"), None);
    assert_eq!(cfg.get::<u64>("k"), None);
    assert_eq!(cfg.get::<i32>("k"), None);
    assert_eq!(cfg.get::<u32>("k"), None);
    assert_eq!(cfg.get::<bool>("k"), None);
}

#[test]
fn number_does_not_read_as_string() {
    let mut cfg = empty_store();
    cfg.set("k", 12i64).unwrap();
    assert_eq!(cfg.get::<String>("k"), None);
    assert_eq!(cfg.get::<bool>("k"), None);
    assert_eq!(cfg.get::<Vec<i64>>("k"), None);
}

#[test]
fn list_round_trip_keeps_the_order() {
    let mut cfg = empty_store();
    let list = vec!["a".to_string(), "b".to_string(), "c".to_string()];
    set_list(Some(&mut cfg), "recent", list.clone()).unwrap();
    assert_eq!(get_list::<String>(Some(&cfg), "recent"), Some(list));
    set_list(Some(&mut cfg), "sizes", vec![3i64, 1, 2]).unwrap();
    assert_eq!(get_list::<i64>(Some(&cfg), "sizes"), Some(vec![3, 1, 2]));
    assert_eq!(cfg.get::<Vec<i64>>("sizes"), Some(vec![3, 1, 2]));
}

#[test]
fn list_with_an_item_of_another_type_reads_absent() {
    let cfg = store_from("mixed: [1, two, 3]\n");
    assert_eq!(get_list::<i64>(Some(&cfg), "mixed"), None);
    assert_eq!(get_list::<String>(Some(&cfg), "mixed"), None);
    assert_eq!(get_list::<ConfigValue>(Some(&cfg), "mixed").map(|items| items.len()), Some(3));
}

#[test]
fn empty_list_round_trip() {
    let mut cfg = empty_store();
    set_list(Some(&mut cfg), "none", Vec::<i64>::new()).unwrap();
    assert_eq!(get_list::<i64>(Some(&cfg), "none"), Some(vec![]));
}

#[test]
fn nested_list_round_trip() {
    let mut cfg = empty_store();
    let grid = vec![vec![1i64, 2], vec![], vec![3]];
    cfg.set("grid", grid.clone()).unwrap();
    assert_eq!(cfg.get::<Vec<Vec<i64>>>("grid"), Some(grid));
}

#[test]
fn get_value_and_set_value_work_on_the_store_they_are_given() {
    let mut cfg = empty_store();
    let text = set_value(Some(&mut cfg), "window.width", 1024i64).unwrap();
    assert_eq!(text, "window.width: 1024\n");
    assert_eq!(get_value::<i64>(Some(&cfg), "window.width"), Some(1024));
    assert_eq!(get_value::<i64>(Some(&cfg), "window.height"), None);
}

#[test]
fn poisoned_store_reads_absent_and_reports_on_write() {
    assert_eq!(get_value::<i64>(None, "k"), None);
    assert_eq!(get_list::<i64>(None, "k"), None);
    assert_eq!(set_value(None, "k", 1i64), Err(ConfigError::LockPoisoned));
    assert_eq!(set_list(None, "k", vec![1i64]), Err(ConfigError::LockPoisoned));
}

#[test]
fn save_writes_the_keys_in_ascending_order() {
    let mut cfg = empty_store();
    cfg.set("b", "hello").unwrap();
    cfg.set("c", vec![1i64, 2]).unwrap();
    let text = cfg.set("a", 1i64).unwrap();
    assert_eq!(text, "a: 1\nb: hello\nc:\n- 1\n- 2\n");
    assert_eq!(cfg.save(), Ok(text));
}

#[test]
fn save_of_an_empty_store() {
    assert_eq!(empty_store().save(), Ok("{}\n".to_string()));
}

#[test]
fn set_returns_the_whole_document() {
    let mut cfg = store_from("zoom: 1.5\nname: x\n");
    let text = cfg.set("flag", true).unwrap();
    assert_eq!(text, "flag: true\nname: x\nzoom: 1.5\n");
}

#[test]
fn saved_store_loads_back() {
    let mut cfg = empty_store();
    cfg.set("width", 1024i64).unwrap();
    cfg.set("title", "My App").unwrap();
    cfg.set("recent", vec!["a.txt".to_string(), "b.txt".to_string()]).unwrap();
    let text = cfg.set("dark", true).unwrap();
    let fresh = store_from(&text);
    assert_eq!(fresh.get::<i64>("width"), Some(1024));
    assert_eq!(fresh.get::<String>("title"), Some("My App".to_string()));
    assert_eq!(
        fresh.get::<Vec<String>>("recent"),
        Some(vec!["a.txt".to_string(), "b.txt".to_string()])
    );
    assert_eq!(fresh.get::<bool>("dark"), Some(true));
    assert_eq!(fresh.save(), Ok(text));
}

#[test]
fn strings_that_look_like_other_values_load_back_as_strings() {
    let mut cfg = empty_store();
    cfg.set("a", "12").unwrap();
    cfg.set("b", "true").unwrap();
    cfg.set("c", "~").unwrap();
    cfg.set("d", "").unwrap();
    let text = cfg.set("e", "two\nlines").unwrap();
    let fresh = store_from(&text);
    assert_eq!(fresh.get::<String>("a"), Some("12".to_string()));
    assert_eq!(fresh.get::<String>("b"), Some("true".to_string()));
    assert_eq!(fresh.get::<String>("c"), Some("~".to_string()));
    assert_eq!(fresh.get::<String>("d"), Some("".to_string()));
    assert_eq!(fresh.get::<String>("e"), Some("two\nlines".to_string()));
}

#[test]
fn structured_values_load_back() {
    let text = "color: !rgb\n- 1\n- 2\n- 3\nnested:\n  inner:\n    deep: null\nratio: -0.25\n";
    let cfg = store_from(text);
    assert_eq!(cfg.save(), Ok(text.to_string()));
    let again = store_from(&cfg.save().unwrap());
    assert_eq!(again.get::<ConfigValue>("color"), cfg.get::<ConfigValue>("color"));
    assert_eq!(again.get::<ConfigValue>("nested"), cfg.get::<ConfigValue>("nested"));
    assert_eq!(again.get::<ConfigValue>("ratio"), cfg.get::<ConfigValue>("ratio"));
}

#[test]
fn example_scenario() {
    let mut cfg = empty_store();
    let text = cfg.set("window.width", 1024).unwrap();
    assert_eq!(cfg.get::<i64>("window.width"), Some(1024));
    let fresh = Config::load("config.yaml".to_string(), Some(text));
    assert_eq!(fresh.get::<i64>("window.width"), Some(1024));
    assert_eq!(fresh.get::<String>("window.width"), None);
}

#[test]
fn repeated_reads_agree() {
    let cfg = store_from("a: 1\nb: [x, y]\n");
    let first = (cfg.get::<i64>("a"), cfg.get::<Vec<String>>("b"), cfg.get::<i64>("c"));
    for _ in 0..100 {
        let next = (cfg.get::<i64>("a"), cfg.get::<Vec<String>>("b"), cfg.get::<i64>("c"));
        assert_eq!(next, first);
    }
    assert_eq!(first, (Some(1), Some(vec!["x".to_string(), "y".to_string()]), None));
}

#[test]
fn empty_tag_is_reported_and_the_entry_stays() {
    let mut cfg = store_from("a: 1\n");
    let bad = ConfigValue::Sequence(vec![ConfigValue::Tagged(String::new(), Box::new(ConfigValue::Null))]);
    assert_eq!(cfg.set("bad", bad.clone()), Err(ConfigError::EmptyTag));
    assert_eq!(cfg.get::<ConfigValue>("bad"), Some(bad));
    assert_eq!(cfg.get::<i64>("a"), Some(1));
    assert_eq!(cfg.save(), Err(ConfigError::EmptyTag));
    assert_eq!(cfg.set("bad", 2i64), Ok("a: 1\nbad: 2\n".to_string()));
}

#[test]
fn writer_error_is_reported_and_the_entry_stays() {
    let mut cfg = empty_store();
    let nested = ConfigValue::Tagged(
        "!outer".to_string(),
        Box::new(ConfigValue::Tagged("!inner".to_string(), Box::new(ConfigValue::Bool(true)))),
    );
    assert_eq!(cfg.set("k", nested.clone()), Err(ConfigError::Yaml));
    assert_eq!(cfg.get::<ConfigValue>("k"), Some(nested));
    assert_eq!(cfg.get::<bool>("k"), Some(true));
}

#[test]
fn tagged_value_is_written_with_its_tag() {
    let mut cfg = empty_store();
    let value = ConfigValue::Tagged("!point".to_string(), Box::new(ConfigValue::Number(Num::PosInt(3))));
    assert_eq!(cfg.set("p", value), Ok("p: !point 3\n".to_string()));
}

#[test]
fn keys_are_compared_whole() {
    let mut cfg = empty_store();
    cfg.set("window", 1i64).unwrap();
    cfg.set("window.width", 2i64).unwrap();
    cfg.set("Window", 3i64).unwrap();
    assert_eq!(cfg.get::<i64>("window"), Some(1));
    assert_eq!(cfg.get::<i64>("window.width"), Some(2));
    assert_eq!(cfg.get::<i64>("Window"), Some(3));
    assert_eq!(cfg.get::<i64>("win"), None);
    assert_eq!(cfg.get::<i64>(""), None);
}
