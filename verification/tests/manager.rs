use azalea_bot::config::{default_config, BotConfig, ConfigValue};
use azalea_bot::manager::{
    handle_command, launch_message, launch_step, start_all, BotCommand, LaunchAction, LaunchEvent, LaunchPlan, ManagerAction,
};
use azalea_bot::requests::{post_send, post_start, post_stop, ActionPayload, ChatPayload};
use azalea_bot::state::GlobalAppState;
use azalea_bot::table::Table;

fn angle(s: &str) -> Option<u32> {
    s.parse::<f32>().ok().map(f32::to_bits)
}

fn start(server: &str, alias: &str) -> BotCommand<u32> {
    BotCommand::Start { server: server.to_string(), alias: alias.to_string() }
}

fn plan() -> LaunchPlan {
    LaunchPlan {
        server: "localhost:25565".to_string(),
        alias: "bot1".to_string(),
        key: "localhost:25565|bot1".to_string(),
        look: None,
        use_interval: None,
        atk_interval: None,
    }
}

fn connecting(state: &GlobalAppState) -> bool {
    state.status.get("localhost:25565|bot1").unwrap().connecting
}

/// The state after a step that was taken while the bot was connecting, with the
/// next step, the line logged and whether it is an error.
fn step(event: LaunchEvent) -> (LaunchAction, Option<(String, bool)>, bool) {
    let mut state = GlobalAppState::from_config(default_config());
    state.set_connecting("localhost:25565|bot1", true);
    let message = launch_message(&plan(), &event);
    let action = launch_step(&mut state, &plan(), event);
    let lines = state.get_logs();
    assert!(lines.len() <= 1);
    for line in &lines {
        assert_eq!(line.alias, "bot1");
        assert!(line.is_system);
    }
    let line = lines.into_iter().next().map(|l| (l.message, l.is_error));
    assert_eq!(line, message);
    (action, line, connecting(&state))
}

#[test]
fn bot_is_started_as_configured() {
    let mut running: Table<u32> = Table::new();
    let mut state = GlobalAppState::from_config(default_config());
    let action =
        handle_command(&mut running, &mut state, start("localhost:25565", "bot1"), &angle);
    assert_eq!(
        action,
        ManagerAction::Launch(LaunchPlan {
            look: Some(((-23.4f32).to_bits(), 10.8f32.to_bits())),
            use_interval: Some(10),
            atk_interval: Some(6),
            ..plan()
        })
    );
    assert!(connecting(&state));
    assert!(!state.status.get("localhost:25565|bot2").unwrap().connecting);
    assert!(state.logs.is_empty());
}

#[test]
fn bad_direction_is_no_direction() {
    let config = BotConfig {
        look: Some("1 2 3".to_string()),
        use_mode: None,
        atk_mode: Some(ConfigValue::Null),
    };
    let mut running: Table<u32> = Table::new();
    let mut state =
        GlobalAppState::from_config(vec![("s".to_string(), vec![("a".to_string(), config)])]);
    match handle_command(&mut running, &mut state, start("s", "a"), &angle) {
        ManagerAction::Launch(plan) => {
            assert_eq!(plan.look, None);
            assert_eq!(plan.use_interval, None);
            assert_eq!(plan.atk_interval, Some(0));
        }
        other => panic!("{:?}", other),
    }
}

#[test]
fn unknown_bot_is_started_with_nothing_set() {
    let mut running: Table<u32> = Table::new();
    let mut state = GlobalAppState::from_config(default_config());
    match handle_command(&mut running, &mut state, start("elsewhere", "bot1"), &angle) {
        ManagerAction::Launch(plan) => {
            assert_eq!(plan.key, "elsewhere|bot1");
            assert_eq!((plan.look, plan.use_interval, plan.atk_interval), (None, None, None));
        }
        other => panic!("{:?}", other),
    }
    assert!(!connecting(&state));
    assert_eq!(state.status.len(), 2);
}

#[test]
fn registered_bot_is_reached_until_it_is_stopped() {
    let mut running: Table<u32> = Table::new();
    let mut state = GlobalAppState::from_config(default_config());
    let bot = || "bot1".to_string();
    let chat = || BotCommand::SendChat { alias: bot(), message: "hi".to_string() };
    assert_eq!(
        handle_command(&mut running, &mut state, chat(), &angle),
        ManagerAction::Nothing
    );
    let register = BotCommand::RegisterActiveClient { alias: bot(), client: 4 };
    assert_eq!(
        handle_command(&mut running, &mut state, register, &angle),
        ManagerAction::Nothing
    );
    assert_eq!(running.get("bot1"), Some(&4));
    assert_eq!(
        handle_command(&mut running, &mut state, start("localhost:25565", "bot1"), &angle),
        ManagerAction::Nothing
    );
    assert!(!connecting(&state));
    assert_eq!(
        handle_command(&mut running, &mut state, chat(), &angle),
        ManagerAction::Chat { alias: bot(), message: "hi".to_string() }
    );
    assert!(state.logs.is_empty());
    assert_eq!(
        handle_command(&mut running, &mut state, BotCommand::Stop { alias: bot() }, &angle),
        ManagerAction::Disconnect(4)
    );
    let lines = state.get_logs();
    assert_eq!(lines.len(), 1);
    assert_eq!(lines[0].alias, "bot1");
    assert_eq!(lines[0].message, "正在主动断开连接...");
    assert_eq!((lines[0].is_error, lines[0].is_system), (false, true));
    assert_eq!(
        handle_command(&mut running, &mut state, BotCommand::Stop { alias: bot() }, &angle),
        ManagerAction::Nothing
    );
    assert!(state.logs.is_empty());
}

#[test]
fn lost_bot_is_not_reached() {
    let mut running: Table<u32> = Table::new();
    let mut state = GlobalAppState::from_config(default_config());
    for n in [1, 2] {
        let register =
            BotCommand::RegisterActiveClient { alias: "bot1".to_string(), client: n };
        handle_command(&mut running, &mut state, register, &angle);
    }
    let other = BotCommand::RegisterActiveClient { alias: "bot2".to_string(), client: 9 };
    handle_command(&mut running, &mut state, other, &angle);
    assert_eq!(running.get("bot1"), Some(&2));
    let gone = BotCommand::RemoveActiveClient { alias: "bot1".to_string() };
    assert_eq!(
        handle_command(&mut running, &mut state, gone, &angle),
        ManagerAction::Nothing
    );
    assert_eq!(running.get("bot1"), None);
    assert_eq!(running.get("bot2"), Some(&9));
}

#[test]
fn steps_that_go_on() {
    assert_eq!(step(LaunchEvent::KeyFile { exists: true }), (LaunchAction::ReadKeyFile, None, true));
    let accounts = vec!["a@b".to_string(), "c@d".to_string()];
    assert_eq!(
        step(LaunchEvent::Accounts(Some(accounts))),
        (
            LaunchAction::Login { email: "a@b".to_string() },
            Some(("正在登录账号: a@b".to_string(), false)),
            true
        )
    );
    assert_eq!(step(LaunchEvent::LoggedIn), (LaunchAction::Connect, None, true));
}

#[test]
fn steps_that_end_the_start() {
    assert_eq!(
        step(LaunchEvent::KeyFile { exists: false }),
        (
            LaunchAction::GiveUp,
            Some((
                "找不到别名 'bot1' 对应的授权文件 'bot1.key'，无法连接 localhost:25565！".to_string(),
                true
            )),
            false
        )
    );
    assert_eq!(
        step(LaunchEvent::ReadFailed { error: "E".to_string() }),
        (LaunchAction::GiveUp, Some(("读取授权文件 bot1.key 失败: E".to_string(), true)), true)
    );
    assert_eq!(
        step(LaunchEvent::Accounts(None)),
        (
            LaunchAction::GiveUp,
            Some((
                "别名 'bot1' 的授权文件 bot1.key 解密失败！创建时间可能已被系统修改。".to_string(),
                true
            )),
            true
        )
    );
    assert_eq!(
        step(LaunchEvent::Accounts(Some(vec![]))),
        (
            LaunchAction::GiveUp,
            Some(("授权文件 bot1.key 中未找到已缓存的账号！".to_string(), true)),
            true
        )
    );
    assert_eq!(
        step(LaunchEvent::LoginFailed { error: "E".to_string() }),
        (LaunchAction::GiveUp, Some(("登录失败: E".to_string(), true)), false)
    );
}

#[test]
fn every_configured_bot_is_started() {
    let config = vec![
        ("one".to_string(), vec![("a".to_string(), BotConfig::default())]),
        ("none".to_string(), vec![]),
        (
            "two".to_string(),
            vec![("b".to_string(), BotConfig::default()), ("a".to_string(), BotConfig::default())],
        ),
    ];
    assert_eq!(start_all(&config), vec![start("one", "a"), start("two", "b"), start("two", "a")]);
    assert_eq!(start_all::<u32>(&vec![]), vec![]);
}

#[test]
fn requests() {
    let payload = |server: Option<&str>| ActionPayload {
        server: server.map(|s| s.to_string()),
        alias: "bot1".to_string(),
    };
    let started = post_start::<u32>(payload(Some("s")));
    assert_eq!(started, Ok((start("s", "bot1"), "已发送启动指令")));
    assert_eq!(post_start::<u32>(payload(None)), Err("缺少 server 参数"));
    assert_eq!(
        post_stop::<u32>(payload(None)),
        (BotCommand::Stop { alias: "bot1".to_string() }, "已发送停止指令")
    );
    let chat = ChatPayload { alias: "bot1".to_string(), message: "hi".to_string() };
    assert_eq!(
        post_send::<u32>(chat),
        (
            BotCommand::SendChat { alias: "bot1".to_string(), message: "hi".to_string() },
            "已发送聊天内容"
        )
    );
}
