use azalea_bot::config::{
    config_file_text, config_remarks, default_config, key_file_name, parse_look, parse_mode,
    written_fields, BotConfig, ConfigValue,
};

fn angle(s: &str) -> Option<u32> {
    s.parse::<f32>().ok().map(f32::to_bits)
}

fn look(s: &str) -> Option<(f32, f32)> {
    parse_look(&Some(s.to_string()), &angle).map(|(y, p)| (f32::from_bits(y), f32::from_bits(p)))
}

#[test]
fn modes() {
    assert_eq!(parse_mode(&None), None);
    assert_eq!(parse_mode(&Some(ConfigValue::Null)), Some(0));
    assert_eq!(parse_mode(&Some(ConfigValue::Unsigned(10))), Some(10));
    assert_eq!(parse_mode(&Some(ConfigValue::Unsigned(0))), Some(0));
    assert_eq!(parse_mode(&Some(ConfigValue::Negative(-3))), Some(0));
    assert_eq!(parse_mode(&Some(ConfigValue::Bool(true))), Some(0));
    assert_eq!(parse_mode(&Some(ConfigValue::Float(2.5f64.to_bits()))), Some(0));
    assert_eq!(parse_mode(&Some(ConfigValue::Text("10".to_string()))), Some(0));
    assert_eq!(parse_mode(&Some(ConfigValue::Sequence(vec![ConfigValue::Unsigned(4)]))), Some(0));
    assert_eq!(parse_mode(&Some(ConfigValue::Mapping(vec![]))), Some(0));
}

#[test]
fn tags_are_looked_through() {
    let tagged = |v: ConfigValue| {
        ConfigValue::Tagged(
            "!a".to_string(),
            Box::new(ConfigValue::Tagged("!b".to_string(), Box::new(v))),
        )
    };
    assert_eq!(parse_mode(&Some(tagged(ConfigValue::Unsigned(7)))), Some(7));
    assert_eq!(parse_mode(&Some(tagged(ConfigValue::Text("7".to_string())))), Some(0));
    assert!(tagged(ConfigValue::Null).is_null());
    assert!(!tagged(ConfigValue::Bool(false)).is_null());
    assert_eq!(tagged(ConfigValue::Unsigned(9)).as_u64(), Some(9));
}

#[test]
fn values_agree_with_yaml() {
    let cases = [
        ("10", ConfigValue::Unsigned(10)),
        ("-1", ConfigValue::Negative(-1)),
        ("1.5", ConfigValue::Float(1.5f64.to_bits())),
        ("~", ConfigValue::Null),
        ("ten", ConfigValue::Text("ten".to_string())),
        ("!t 12", ConfigValue::Tagged("!t".to_string(), Box::new(ConfigValue::Unsigned(12)))),
        ("!t ~", ConfigValue::Tagged("!t".to_string(), Box::new(ConfigValue::Null))),
        ("[]", ConfigValue::Sequence(vec![])),
    ];
    for (text, value) in cases {
        let yaml: serde_yaml::Value = serde_yaml::from_str(text).unwrap();
        assert_eq!(value.is_null(), yaml.is_null(), "{}", text);
        assert_eq!(value.as_u64(), yaml.as_u64(), "{}", text);
    }
}

#[test]
fn directions() {
    assert_eq!(look("-23.4 10.8"), Some((-23.4, 10.8)));
    assert_eq!(look("  1\t2 "), Some((1.0, 2.0)));
    assert_eq!(look("1"), None);
    assert_eq!(look("1 2 3"), None);
    assert_eq!(look("1 down"), None);
    assert_eq!(look("up 2"), None);
    assert_eq!(look(""), None);
    assert_eq!(parse_look(&None, &angle), None);
}

#[test]
fn key_file() {
    assert_eq!(key_file_name("bot1"), "bot1.key");
}

#[test]
fn nothing_is_set_by_default() {
    assert_eq!(BotConfig::default(), BotConfig { look: None, use_mode: None, atk_mode: None });
}

#[test]
fn new_configuration() {
    let config = default_config();
    assert_eq!(config.len(), 1);
    assert_eq!(config[0].0, "localhost:25565");
    let bots = &config[0].1;
    assert_eq!(bots.len(), 2);
    assert_eq!(bots[0].0, "bot1");
    assert_eq!(bots[0].1.look.as_deref(), Some("-23.4 10.8"));
    assert_eq!(parse_mode(&bots[0].1.use_mode), Some(10));
    assert_eq!(parse_mode(&bots[0].1.atk_mode), Some(6));
    assert_eq!(bots[1].0, "bot2");
    assert_eq!(bots[1].1.look, None);
    assert_eq!(parse_mode(&bots[1].1.use_mode), None);
    assert_eq!(parse_mode(&bots[1].1.atk_mode), Some(0));
}

#[test]
fn only_fields_that_are_set_are_written() {
    let names = |bot: BotConfig| -> Vec<String> {
        written_fields(bot).into_iter().map(|(name, _)| name).collect()
    };
    assert!(names(BotConfig::default()).is_empty());
    let mut config = default_config();
    let (_, mut bots) = config.remove(0);
    let (_, second) = bots.remove(1);
    let (_, first) = bots.remove(0);
    assert_eq!(written_fields(second), vec![("atk".to_string(), ConfigValue::Null)]);
    assert_eq!(
        written_fields(first),
        vec![
            ("look".to_string(), ConfigValue::Text("-23.4 10.8".to_string())),
            ("use".to_string(), ConfigValue::Unsigned(10)),
            ("atk".to_string(), ConfigValue::Unsigned(6)),
        ]
    );
}

#[test]
fn new_configuration_file() {
    let text = config_file_text("localhost:25565:\n  bot2:\n    atk: null\n");
    assert!(text.starts_with("# 挂机机器人自动配置文件\n# 直接运行 azalea_bot.exe"));
    assert!(text.ends_with("触发一次。\n\nlocalhost:25565:\n  bot2:\n    atk: \n"));
    assert_eq!(text.lines().take_while(|l| l.is_empty() || l.starts_with('#')).count(), 11);
    assert_eq!(text, format!("{}localhost:25565:\n  bot2:\n    atk: \n", config_remarks()));
}
