use azalea_bot::active::{chat_line, ActiveBots};
use azalea_bot::bot::{
    count_tick, do_attack, handle, handle_web_bot, wants_position, BotAction, BotEvent, BotState,
    Console, Hit, Strike,
};
use azalea_bot::config::default_config;
use azalea_bot::state::GlobalAppState;

fn tick(n: u64) -> BotEvent {
    BotEvent::Tick { ticks_connected: n, position: None }
}

fn spawn(name: &str) -> BotEvent {
    BotEvent::Spawn { username: name.to_string() }
}

fn web_bot() -> (BotState, GlobalAppState) {
    let state = BotState::for_web(
        Some((1.5f32.to_bits(), 2.5f32.to_bits())),
        Some(2),
        Some(0),
        "bot1".to_string(),
        "localhost:25565".to_string(),
    );
    (state, GlobalAppState::from_config(default_config()))
}

fn web(state: &mut BotState, global: &mut GlobalAppState, event: BotEvent) -> Vec<BotAction> {
    handle_web_bot('c', 1, event, state, global, &mut ActiveBots::new())
}

fn print(line: &str) -> BotAction {
    BotAction::Print(line.to_string())
}

#[test]
fn every_nth_tick() {
    for n in 1..7usize {
        let mut counter = 0;
        for t in 1..50usize {
            assert_eq!(count_tick(Some(n), &mut counter), t % n == 0, "{} {}", n, t);
            assert_eq!(counter, t % n);
        }
    }
}

#[test]
fn every_tick_and_never() {
    let mut counter = 5;
    assert!(count_tick(Some(0), &mut counter));
    assert_eq!(counter, 5);
    assert!(!count_tick(None, &mut counter));
    assert_eq!(counter, 5);
}

#[test]
fn counter_past_the_interval_fires_at_once() {
    let mut counter = 9;
    assert!(count_tick(Some(3), &mut counter));
    assert_eq!(counter, 0);
}

#[test]
fn blank_state() {
    let state = BotState::default();
    assert_eq!(state, BotState::for_console(None, None, None));
}

#[test]
fn ticks_of_a_web_bot() {
    let (mut state, mut global) = web_bot();
    let look = BotAction::SetLook(1.5f32.to_bits(), 2.5f32.to_bits());
    let actions = web(&mut state, &mut global, tick(1));
    assert_eq!(actions, vec![look, BotAction::Attack]);
    assert_eq!(state.use_counter, 1);
    let look = BotAction::SetLook(1.5f32.to_bits(), 2.5f32.to_bits());
    let actions = web(&mut state, &mut global, tick(2));
    assert_eq!(actions, vec![look, BotAction::UseItem, BotAction::Attack]);
    assert_eq!(state.use_counter, 0);
    assert_eq!(state.atk_counter, 0);
    assert!(global.logs.is_empty());
}

#[test]
fn position_is_noted_at_every_tenth_tick() {
    let (mut state, mut global) = web_bot();
    assert!(wants_position(0));
    assert!(wants_position(20));
    assert!(!wants_position(21));
    let event = BotEvent::Tick { ticks_connected: 20, position: Some("1.0, 2.0, 3.0".to_string()) };
    web(&mut state, &mut global, event);
    let status = global.status.get("localhost:25565|bot1").unwrap();
    assert_eq!((status.pos.as_str(), status.delay), ("1.0, 2.0, 3.0", 20));
    let event = BotEvent::Tick { ticks_connected: 21, position: Some("9.0, 9.0, 9.0".to_string()) };
    web(&mut state, &mut global, event);
    let status = global.status.get("localhost:25565|bot1").unwrap();
    assert_eq!((status.pos.as_str(), status.delay), ("1.0, 2.0, 3.0", 20));
    web(&mut state, &mut global, tick(30));
    let status = global.status.get("localhost:25565|bot1").unwrap();
    assert_eq!((status.pos.as_str(), status.delay), ("--", 30));
}

#[test]
fn web_bot_comes_and_goes() {
    let (mut state, mut global) = web_bot();
    global.set_connecting("localhost:25565|bot1", true);
    let actions = web(&mut state, &mut global, spawn("Steve"));
    assert_eq!(
        actions,
        vec![
            print("机器人 Steve 已进入游戏世界！"),
            BotAction::Register("bot1".to_string())
        ]
    );
    let status = global.status.get("localhost:25565|bot1").unwrap();
    assert_eq!((status.online, status.connecting), (true, false));
    assert!(!global.status.get("localhost:25565|bot2").unwrap().online);
    let event = BotEvent::Disconnect { reason: "None".to_string() };
    let actions = web(&mut state, &mut global, event);
    assert_eq!(
        actions,
        vec![print("已断开连接: None"), BotAction::Unregister("bot1".to_string())]
    );
    let status = global.status.get("localhost:25565|bot1").unwrap();
    assert_eq!((status.online, status.connecting), (false, false));
    let lines = global.get_logs();
    assert_eq!(lines.len(), 2);
    assert_eq!(lines[0].alias, "bot1");
    assert_eq!(lines[0].message, "机器人 Steve 已进入游戏世界！");
    assert_eq!((lines[0].is_error, lines[0].is_system), (false, true));
    assert_eq!(lines[1].message, "已断开连接: None");
    assert_eq!((lines[1].is_error, lines[1].is_system), (true, true));
}

#[test]
fn chat_is_logged_without_colours() {
    let (mut state, mut global) = web_bot();
    let event = BotEvent::Chat { ansi: "\x1b[31m<Alex>\x1b[m hi".to_string() };
    assert_eq!(web(&mut state, &mut global, event), vec![print("<Alex> hi")]);
    assert!(web(&mut state, &mut global, BotEvent::Other).is_empty());
    let lines = global.get_logs();
    assert_eq!(lines.len(), 1);
    assert_eq!(lines[0].message, "<Alex> hi");
    assert_eq!((lines[0].is_error, lines[0].is_system), (false, false));
}

#[test]
fn bot_that_reports_nowhere_changes_nothing() {
    let mut state = BotState::default();
    let mut global = GlobalAppState::from_config(default_config());
    assert_eq!(
        web(&mut state, &mut global, spawn("Steve")),
        vec![print("机器人 Steve 已进入游戏世界！")]
    );
    let event = BotEvent::Disconnect { reason: "x".to_string() };
    assert_eq!(web(&mut state, &mut global, event), vec![print("已断开连接: x")]);
    assert!(web(&mut state, &mut global, tick(10)).is_empty());
    assert!(global.logs.is_empty());
    assert!(!global.status.get("localhost:25565|bot1").unwrap().online);
}

#[test]
fn terminal_reaches_web_bots_that_are_in_the_game() {
    let (mut state, mut global) = web_bot();
    let mut active: ActiveBots<&str> = ActiveBots::new();
    handle_web_bot("a", 1, spawn("Steve"), &mut state, &mut global, &mut active);
    handle_web_bot("b", 2, spawn("Alex"), &mut state, &mut global, &mut active);
    handle_web_bot("c", 1, spawn("Steve"), &mut state, &mut global, &mut active);
    handle_web_bot("b", 2, tick(10), &mut state, &mut global, &mut active);
    let clients: Vec<&str> = active.bots.iter().map(|b| b.client).collect();
    assert_eq!(clients, vec!["a", "b"]);
    let event = BotEvent::Disconnect { reason: "None".to_string() };
    handle_web_bot("a", 1, event, &mut state, &mut global, &mut active);
    let clients: Vec<&str> = active.bots.iter().map(|b| b.client).collect();
    assert_eq!(clients, vec!["b"]);
}

#[test]
fn terminal_welcomes_once() {
    let mut console: Console<&str> = Console::new();
    let mut state = BotState::for_console(None, None, Some(3));
    let first = handle("one", 1, spawn("Steve"), &mut state, &mut console);
    assert_eq!(
        first,
        vec![
            BotAction::Print("机器人 Steve 已成功在世界中生成！".to_string()),
            BotAction::Print(
                "挂机控制台就绪！输入任何内容并回车，都将直接发送到服务器聊天中。".to_string()
            ),
        ]
    );
    let second = handle("two", 2, spawn("Alex"), &mut state, &mut console);
    assert_eq!(
        second,
        vec![BotAction::Print("机器人 Alex 已成功在世界中生成！".to_string())]
    );
    let again = handle("three", 1, spawn("Steve"), &mut state, &mut console);
    assert_eq!(again.len(), 1);
    let clients: Vec<&str> = console.active.bots.iter().map(|b| b.client).collect();
    assert_eq!(clients, vec!["one", "two"]);
}

#[test]
fn terminal_events() {
    let mut console: Console<u8> = Console::new();
    let mut state = BotState::for_console(None, None, Some(3));
    let event = BotEvent::Chat { ansi: "\x1b[31mhi".to_string() };
    let actions = handle(0, 1, event, &mut state, &mut console);
    assert_eq!(actions, vec![BotAction::Print("\x1b[31mhi".to_string())]);
    let fired: Vec<bool> = (1..7)
        .map(|t| !handle(0, 1, tick(t), &mut state, &mut console).is_empty())
        .collect();
    assert_eq!(fired, vec![false, false, true, false, false, true]);
    assert!(handle(0, 1, BotEvent::Other, &mut state, &mut console).is_empty());
    assert!(!console.welcome_printed);
    handle(7, 1, spawn("Steve"), &mut state, &mut console);
    handle(8, 2, spawn("Alex"), &mut state, &mut console);
    let event = BotEvent::Disconnect { reason: "None".to_string() };
    let actions = handle(7, 1, event, &mut state, &mut console);
    assert_eq!(actions, vec![BotAction::Print("已与服务器断开连接: None".to_string())]);
    assert_eq!(console.active.bots.len(), 1);
    assert_eq!(console.active.bots[0].client, 8);
}

#[test]
fn active_bots() {
    let mut bots: ActiveBots<u8> = ActiveBots::new();
    bots.add_active_bot(10, 1);
    bots.add_active_bot(20, 2);
    bots.add_active_bot(10, 3);
    bots.add_active_bot(30, 4);
    let list: Vec<(u128, u8)> = bots.bots.iter().map(|b| (b.uuid, b.client)).collect();
    assert_eq!(list, vec![(10, 1), (20, 2), (30, 4)]);
    bots.remove_active_bot(20);
    bots.remove_active_bot(99);
    let list: Vec<u128> = bots.bots.iter().map(|b| b.uuid).collect();
    assert_eq!(list, vec![10, 30]);
    bots.add_active_bot(20, 5);
    assert_eq!(bots.bots[2].client, 5);
}

#[test]
fn bot_that_comes_and_goes_leaves_the_others_as_they_were() {
    let mut bots: ActiveBots<u8> = ActiveBots::new();
    bots.add_active_bot(10, 1);
    bots.add_active_bot(20, 2);
    bots.add_active_bot(30, 3);
    bots.remove_active_bot(30);
    let list: Vec<(u128, u8)> = bots.bots.iter().map(|b| (b.uuid, b.client)).collect();
    assert_eq!(list, vec![(10, 1), (20, 2)]);
}

#[test]
fn only_ticks_count() {
    let mut state = BotState::for_console(None, Some(3), None);
    state.use_counter = usize::MAX;
    let mut console: Console<u8> = Console::new();
    handle(1, 1, spawn("Steve"), &mut state, &mut console);
    assert_eq!(state.use_counter, usize::MAX);
}

#[test]
fn typed_lines() {
    assert_eq!(chat_line("  /spawn \n").as_deref(), Some("/spawn"));
    assert_eq!(chat_line(" \t\u{3000}"), None);
    assert_eq!(chat_line(""), None);
}

#[test]
fn striking() {
    assert_eq!(do_attack(Some(Hit::Entity(7))), Strike::Attack(7));
    assert_eq!(do_attack::<u64>(Some(Hit::Other)), Strike::SwingArm);
    assert_eq!(do_attack::<u64>(None), Strike::SwingArm);
}
