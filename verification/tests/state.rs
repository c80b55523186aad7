use azalea_bot::clock::time_of_day;
use azalea_bot::config::{default_config, BotConfig, ConfigValue};
use azalea_bot::state::{bot_key, GlobalAppState, LOG_LIMIT};
use azalea_bot::table::Table;

fn started() -> GlobalAppState {
    GlobalAppState::from_config(default_config())
}

fn is_time(s: &str) -> bool {
    let parts: Vec<&str> = s.split(':').collect();
    parts.len() == 3
        && parts.iter().all(|p| p.len() == 2 && p.chars().all(|c| c.is_ascii_digit()))
        && parts[0].parse::<u32>().unwrap() < 24
        && parts[1].parse::<u32>().unwrap() < 60
        && parts[2].parse::<u32>().unwrap() <= 60
}

#[test]
fn clock_tells_the_time() {
    assert!(is_time(&time_of_day()), "{}", time_of_day());
}

#[test]
fn clock_tells_the_local_time() {
    let before = chrono::Local::now().format("%H:%M:%S").to_string();
    let now = time_of_day();
    let after = chrono::Local::now().format("%H:%M:%S").to_string();
    assert!(before > after || (before <= now && now <= after));
}

#[test]
fn keys() {
    assert_eq!(bot_key("localhost:25565", "bot1"), "localhost:25565|bot1");
    assert_ne!(bot_key("a", "b|c"), bot_key("b", "b|c"));
    assert_eq!(bot_key("a|b", "c"), bot_key("a", "b|c"));
}

#[test]
fn configured_bots_are_there() {
    let state = started();
    assert_eq!(state.configs.len(), 2);
    assert_eq!(state.status.len(), 2);
    for alias in ["bot1", "bot2"] {
        let key = bot_key("localhost:25565", alias);
        assert!(state.configs.contains_key(&key));
        let status = state.status.get(&key).unwrap();
        assert!(!status.online);
        assert!(!status.connecting);
        assert_eq!(status.delay, 0);
        assert_eq!(status.pos, "--");
    }
    assert!(state.configs.get("bot1").is_none());
    assert!(state.logs.is_empty());
}

#[test]
fn of_two_bots_with_one_key_the_later_counts() {
    let bot = |n: u64| BotConfig {
        look: None,
        use_mode: Some(ConfigValue::Unsigned(n)),
        atk_mode: None,
    };
    let state = GlobalAppState::from_config(vec![
        ("a|b".to_string(), vec![("c".to_string(), bot(1))]),
        ("a".to_string(), vec![("b|c".to_string(), bot(2)), ("d".to_string(), bot(3))]),
        ("empty".to_string(), vec![]),
    ]);
    assert_eq!(state.configs.len(), 2);
    assert_eq!(state.configs.get("a|b|c"), Some(&bot(2)));
    assert_eq!(state.configs.get("a|d"), Some(&bot(3)));
}

#[test]
fn log_lines() {
    let mut state = started();
    state.add_log("bot1", "first", false, true);
    state.add_log_at("23:59:60".to_string(), "bot2", "second", true, false);
    let lines = state.get_logs();
    assert_eq!(lines.len(), 2);
    assert!(is_time(&lines[0].time));
    assert_eq!(lines[0].alias, "bot1");
    assert_eq!(lines[0].message, "first");
    assert_eq!((lines[0].is_error, lines[0].is_system), (false, true));
    assert_eq!(lines[1].time, "23:59:60");
    assert_eq!(lines[1].alias, "bot2");
    assert_eq!(lines[1].message, "second");
    assert_eq!((lines[1].is_error, lines[1].is_system), (true, false));
    assert!(state.logs.is_empty());
    assert!(state.get_logs().is_empty());
}

#[test]
fn log_keeps_the_newest_lines() {
    let mut state = started();
    for i in 0..LOG_LIMIT + 5 {
        state.add_log_at("00:00:00".to_string(), "bot1", &i.to_string(), false, false);
        assert_eq!(state.logs.len(), (i + 1).min(1000));
    }
    let lines = state.get_logs();
    assert_eq!(lines.len(), 1000);
    assert_eq!(lines[0].message, "5");
    assert_eq!(lines[999].message, "1004");
}

#[test]
fn statuses_change_one_by_one() {
    let mut state = started();
    let one = bot_key("localhost:25565", "bot1");
    let two = bot_key("localhost:25565", "bot2");
    state.set_connecting(&one, true);
    assert!(state.status.get(&one).unwrap().connecting);
    assert!(!state.status.get(&two).unwrap().connecting);
    state.set_online(&one, true);
    assert!(state.status.get(&one).unwrap().online);
    assert!(!state.status.get(&one).unwrap().connecting);
    state.set_position(&one, "1.0, 64.0, -3.5".to_string(), 120);
    assert_eq!(state.status.get(&one).unwrap().pos, "1.0, 64.0, -3.5");
    assert_eq!(state.status.get(&one).unwrap().delay, 120);
    assert!(state.status.get(&one).unwrap().online);
    state.set_online(&one, false);
    assert!(!state.status.get(&one).unwrap().online);
    assert_eq!(state.status.get(&two).unwrap().pos, "--");
    state.set_online("nowhere|nobody", true);
    assert_eq!(state.status.len(), 2);
}

#[test]
fn tables() {
    let mut table: Table<u32> = Table::new();
    assert_eq!(table.len(), 0);
    table.insert("a".to_string(), 1);
    table.insert("b".to_string(), 2);
    table.insert("a".to_string(), 3);
    assert_eq!(table.len(), 2);
    assert_eq!(table.get("a"), Some(&3));
    assert_eq!(table.get("c"), None);
    *table.get_mut("b").unwrap() = 9;
    assert!(table.get_mut("c").is_none());
    let mut walked: Vec<(String, u32)> =
        (0..table.len()).map(|i| (table.at(i).key.clone(), table.at(i).value)).collect();
    walked.sort();
    assert_eq!(walked, vec![("a".to_string(), 3), ("b".to_string(), 9)]);
    assert_eq!(table.remove("a"), Some(3));
    assert_eq!(table.remove("a"), None);
    assert!(!table.contains_key("a"));
    assert!(table.contains_key("b"));
}
