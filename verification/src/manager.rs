//! Starting, reaching and stopping the bots of the web console.

use vstd::prelude::*;

use crate::config::look_reads_as;
use crate::config::mode_interval;
use crate::config::parse_look;
use crate::config::parse_mode;
use crate::config::AppConfig;
use crate::config::BotConfig;
use crate::config::ConfigValue;
use crate::state::bot_key;
use crate::state::changed;
use crate::state::key_of;
use crate::state::log_added;
use crate::state::GlobalAppState;
use crate::state::StatusView;
use crate::table::Table;
use crate::text::joined;

verus! {

/// What the manager is told to do. `C` is the handle by which a bot in the game is
/// reached.
#[derive(Debug, PartialEq, Eq)]
pub enum BotCommand<C> {
    /// Start the bot of this alias on this server.
    Start { server: String, alias: String },
    /// Stop the bot of this alias.
    Stop { alias: String },
    /// Make the bot of this alias say something.
    SendChat { alias: String, message: String },
    /// The bot of this alias can now be reached.
    RegisterActiveClient { alias: String, client: C },
    /// The bot of this alias can no longer be reached.
    RemoveActiveClient { alias: String },
}

/// What is needed to start a bot.
#[derive(Debug, PartialEq, Eq)]
pub struct LaunchPlan {
    pub server: String,
    pub alias: String,
    /// The key under which the bot's status is kept.
    pub key: String,
    pub look: Option<(u32, u32)>,
    pub use_interval: Option<usize>,
    pub atk_interval: Option<usize>,
}

/// What is to be done about a command.
#[derive(Debug, PartialEq, Eq)]
pub enum ManagerAction<C> {
    Nothing,
    /// Start a bot.
    Launch(LaunchPlan),
    /// Close the connection of a bot.
    Disconnect(C),
    /// Make the bot that is registered under this alias say something.
    Chat { alias: String, message: String },
}

/// What is configured under a key; nothing is set where there is no such key.
pub open spec fn configured(configs: Map<Seq<char>, BotConfig>, key: Seq<char>) -> BotConfig {
    if configs.contains_key(key) {
        configs[key]
    } else {
        BotConfig { look: None, use_mode: None, atk_mode: None }
    }
}

/// The bots that can be reached after a command.
pub open spec fn reachable_after<C>(
    running: Map<Seq<char>, C>,
    command: BotCommand<C>,
) -> Map<Seq<char>, C> {
    match command {
        BotCommand::Stop { alias } => running.remove(alias@),
        BotCommand::RegisterActiveClient { alias, client } => running.insert(alias@, client),
        BotCommand::RemoveActiveClient { alias } => running.remove(alias@),
        _ => running,
    }
}

/// A bot that has registered can be reached, by the handle that it registered last,
/// until it is stopped or is gone; no command about one bot changes which others
/// can be reached.
pub proof fn law_reachable_from_registration_to_stop<C>(
    running: Map<Seq<char>, C>,
    command: BotCommand<C>,
    alias: Seq<char>,
)
    ensures
        match command {
            BotCommand::RegisterActiveClient { alias: a, client } => if a@ == alias {
                &&& reachable_after(running, command).contains_key(alias)
                &&& reachable_after(running, command)[alias] == client
            } else {
                &&& reachable_after(running, command).contains_key(alias) == running.contains_key(
                    alias,
                )
                &&& reachable_after(running, command)[alias] == running[alias]
            },
            BotCommand::Stop { alias: a } | BotCommand::RemoveActiveClient { alias: a } => {
                &&& reachable_after(running, command).contains_key(alias) == (
                running.contains_key(alias) && a@ != alias)
                &&& a@ != alias && running.contains_key(alias) ==> reachable_after(
                    running,
                    command,
                )[alias] == running[alias]
            },
            _ => reachable_after(running, command) == running,
        },
{
}

/// The statuses after a command: a bot that is going to be started is connecting.
pub open spec fn statuses_after_command<C>(
    statuses: Map<Seq<char>, StatusView>,
    running: Map<Seq<char>, C>,
    command: BotCommand<C>,
) -> Map<Seq<char>, StatusView> {
    match command {
        BotCommand::Start { server, alias } => if running.contains_key(alias@) {
            statuses
        } else {
            changed(
                statuses,
                key_of(server@, alias@),
                |s: StatusView| StatusView { connecting: true, ..s },
            )
        },
        _ => statuses,
    }
}

/// Whether `plan` is how the bot of this alias is to be started on this server.
pub open spec fn plans<F: Fn(&str) -> Option<u32>>(
    plan: LaunchPlan,
    configs: Map<Seq<char>, BotConfig>,
    server: String,
    alias: String,
    parse_angle: F,
) -> bool {
    let config = configured(configs, key_of(server@, alias@));
    &&& plan.server == server
    &&& plan.alias == alias
    &&& plan.key@ == key_of(server@, alias@)
    &&& look_reads_as(parse_angle, config.look, plan.look)
    &&& plan.use_interval == mode_interval(config.use_mode)
    &&& plan.atk_interval == mode_interval(config.atk_mode)
}

/// Whether `action` is what is to be done about a command. A bot that can be
/// reached is not started again; only a bot that can be reached is stopped or
/// made to speak.
pub open spec fn acts_on<C, F: Fn(&str) -> Option<u32>>(
    action: ManagerAction<C>,
    running: Map<Seq<char>, C>,
    configs: Map<Seq<char>, BotConfig>,
    command: BotCommand<C>,
    parse_angle: F,
) -> bool {
    match command {
        BotCommand::Start { server, alias } => if running.contains_key(alias@) {
            action is Nothing
        } else {
            action matches ManagerAction::Launch(plan) && plans(
                plan,
                configs,
                server,
                alias,
                parse_angle,
            )
        },
        BotCommand::Stop { alias } => if running.contains_key(alias@) {
            action == ManagerAction::Disconnect(running[alias@])
        } else {
            action is Nothing
        },
        BotCommand::SendChat { alias, message } => if running.contains_key(alias@) {
            action == (ManagerAction::<C>::Chat { alias, message })
        } else {
            action is Nothing
        },
        BotCommand::RegisterActiveClient { .. } => action is Nothing,
        BotCommand::RemoveActiveClient { .. } => action is Nothing,
    }
}

/// Carries a command out as far as it concerns the bots that can be reached, their
/// statuses and the log, and says what else is to be done.
pub fn handle_command<C, F: Fn(&str) -> Option<u32>>(
    running: &mut Table<C>,
    state: &mut GlobalAppState,
    command: BotCommand<C>,
    parse_angle: &F,
) -> (res: ManagerAction<C>)
    requires
        old(running).wf(),
        old(state).wf(),
        forall|t: &str| call_requires(*parse_angle, (t,)),
    ensures
        final(running).wf(),
        final(running)@ == reachable_after(old(running)@, command),
        acts_on(res, old(running)@, old(state).configs@, command, *parse_angle),
        final(state).wf(),
        final(state).configs == old(state).configs,
        final(state).statuses() == statuses_after_command(
            old(state).statuses(),
            old(running)@,
            command,
        ),
        match command {
            BotCommand::Stop { alias } if old(running)@.contains_key(alias@) => log_added(
                old(state).lines(),
                final(state).lines(),
                alias@,
                "正在主动断开连接..."@,
                false,
                true,
            ),
            _ => final(state).lines() == old(state).lines(),
        },
{
    match command {
        BotCommand::Start { server, alias } => {
            if running.contains_key(alias.as_str()) {
                return ManagerAction::Nothing;
            }
            let key: String = bot_key(server.as_str(), alias.as_str());
            state.set_connecting(key.as_str(), true);
            let (look, use_interval, atk_interval) = match state.configs.get(key.as_str()) {
                Some(config) => (
                    parse_look(&config.look, parse_angle),
                    parse_mode(&config.use_mode),
                    parse_mode(&config.atk_mode),
                ),
                None => (None, None, None),
            };
            ManagerAction::Launch(
                LaunchPlan { server, alias, key, look, use_interval, atk_interval },
            )
        },
        BotCommand::Stop { alias } => {
            match running.remove(alias.as_str()) {
                Some(client) => {
                    state.add_log(alias.as_str(), "正在主动断开连接...", false, true);
                    ManagerAction::Disconnect(client)
                },
                None => ManagerAction::Nothing,
            }
        },
        BotCommand::SendChat { alias, message } => {
            if running.contains_key(alias.as_str()) {
                ManagerAction::Chat { alias, message }
            } else {
                ManagerAction::Nothing
            }
        },
        BotCommand::RegisterActiveClient { alias, client } => {
            running.insert(alias, client);
            ManagerAction::Nothing
        },
        BotCommand::RemoveActiveClient { alias } => {
            let _ = running.remove(alias.as_str());
            ManagerAction::Nothing
        },
    }
}

/// Something that happens while a bot is being started.
#[derive(Debug, PartialEq, Eq)]
pub enum LaunchEvent {
    /// It was looked whether the file with the cached account is there.
    KeyFile { exists: bool },
    /// The file could not be read.
    ReadFailed { error: String },
    /// The file was read and deciphered; it holds these accounts, or it could not
    /// be deciphered.
    Accounts(Option<Vec<String>>),
    /// The login was refused.
    LoginFailed { error: String },
    /// The login went through.
    LoggedIn,
}

/// The next step in starting a bot.
#[derive(Debug, PartialEq, Eq)]
pub enum LaunchAction {
    ReadKeyFile,
    Login { email: String },
    Connect,
    GiveUp,
}

/// The line that is logged about a step in starting a bot, and whether it is an
/// error.
pub open spec fn launch_line(plan: LaunchPlan, event: LaunchEvent) -> Option<(Seq<char>, bool)> {
    let alias = plan.alias@;
    match event {
        LaunchEvent::KeyFile { exists } => if exists {
            None
        } else {
            Some(
                (
                    "找不到别名 '"@ + alias + "' 对应的授权文件 '"@ + alias + ".key'，无法连接 "@
                        + plan.server@ + "！"@,
                    true,
                ),
            )
        },
        LaunchEvent::ReadFailed { error } => Some(
            ("读取授权文件 "@ + alias + ".key 失败: "@ + error@, true),
        ),
        LaunchEvent::Accounts(None) => Some(
            (
                "别名 '"@ + alias + "' 的授权文件 "@ + alias
                    + ".key 解密失败！创建时间可能已被系统修改。"@,
                true,
            ),
        ),
        LaunchEvent::Accounts(Some(accounts)) => if accounts@.len() == 0 {
            Some(("授权文件 "@ + alias + ".key 中未找到已缓存的账号！"@, true))
        } else {
            Some(("正在登录账号: "@ + accounts@[0]@, false))
        },
        LaunchEvent::LoginFailed { error } => Some(("登录失败: "@ + error@, true)),
        LaunchEvent::LoggedIn => None,
    }
}

/// The next step in starting a bot: whatever fails ends the start, and the first
/// cached account is the one to log in with.
pub open spec fn next_step(event: LaunchEvent) -> LaunchAction {
    match event {
        LaunchEvent::KeyFile { exists } => if exists {
            LaunchAction::ReadKeyFile
        } else {
            LaunchAction::GiveUp
        },
        LaunchEvent::Accounts(Some(accounts)) => if accounts@.len() > 0 {
            LaunchAction::Login { email: accounts@[0] }
        } else {
            LaunchAction::GiveUp
        },
        LaunchEvent::LoggedIn => LaunchAction::Connect,
        _ => LaunchAction::GiveUp,
    }
}

/// Whether the step takes the mark off the bot that it is connecting: a missing
/// file and a refused login do.
pub open spec fn clears_connecting(event: LaunchEvent) -> bool {
    match event {
        LaunchEvent::KeyFile { exists } => !exists,
        LaunchEvent::LoginFailed { .. } => true,
        _ => false,
    }
}

/// The line to log about a step in starting a bot, and whether it is an error.
pub fn launch_message(plan: &LaunchPlan, event: &LaunchEvent) -> (res: Option<(String, bool)>)
    ensures
        match res {
            Some((message, is_error)) => launch_line(*plan, *event) == Some((message@, is_error)),
            None => launch_line(*plan, *event) is None,
        },
{
    let alias: &str = plan.alias.as_str();
    proof {
        reveal_strlit("");
    }
    match event {
        LaunchEvent::KeyFile { exists } => {
            if *exists {
                None
            } else {
                let start: String = joined("找不到别名 '", alias, "' 对应的授权文件 '");
                let more: String = joined(start.as_str(), alias, ".key'，无法连接 ");
                Some((joined(more.as_str(), plan.server.as_str(), "！"), true))
            }
        },
        LaunchEvent::ReadFailed { error } => {
            let start: String = joined("读取授权文件 ", alias, ".key 失败: ");
            let line: String = joined(start.as_str(), error.as_str(), "");
            assert(line@ =~= start@ + error@);
            Some((line, true))
        },
        LaunchEvent::Accounts(None) => {
            let start: String = joined("别名 '", alias, "' 的授权文件 ");
            Some(
                (
                    joined(
                        start.as_str(),
                        alias,
                        ".key 解密失败！创建时间可能已被系统修改。",
                    ),
                    true,
                ),
            )
        },
        LaunchEvent::Accounts(Some(accounts)) => {
            if accounts.len() == 0 {
                Some((joined("授权文件 ", alias, ".key 中未找到已缓存的账号！"), true))
            } else {
                let line: String = joined("正在登录账号: ", accounts[0].as_str(), "");
                assert(line@ =~= "正在登录账号: "@ + accounts@[0]@);
                Some((line, false))
            }
        },
        LaunchEvent::LoginFailed { error } => {
            let line: String = joined("登录失败: ", error.as_str(), "");
            assert(line@ =~= "登录失败: "@ + error@);
            Some((line, true))
        },
        LaunchEvent::LoggedIn => None,
    }
}

/// Handles a step in starting a bot: notes it in the log and in the bot's status,
/// and says what comes next.
pub fn launch_step(state: &mut GlobalAppState, plan: &LaunchPlan, event: LaunchEvent) -> (res:
    LaunchAction)
    requires
        old(state).wf(),
    ensures
        res == next_step(event),
        event matches LaunchEvent::Accounts(Some(list)) ==> (list@.len() > 0 ==> res == (
        LaunchAction::Login { email: list@[0] })),
        final(state).wf(),
        final(state).configs == old(state).configs,
        final(state).statuses() == (if clears_connecting(event) {
            changed(
                old(state).statuses(),
                plan.key@,
                |s: StatusView| StatusView { connecting: false, ..s },
            )
        } else {
            old(state).statuses()
        }),
        match launch_line(*plan, event) {
            Some((message, is_error)) => log_added(
                old(state).lines(),
                final(state).lines(),
                plan.alias@,
                message,
                is_error,
                true,
            ),
            None => final(state).lines() == old(state).lines(),
        },
{
    match launch_message(plan, &event) {
        Some((message, is_error)) => {
            state.add_log(plan.alias.as_str(), message.as_str(), is_error, true);
        },
        None => {},
    }
    match event {
        LaunchEvent::KeyFile { exists } => {
            if exists {
                LaunchAction::ReadKeyFile
            } else {
                state.set_connecting(plan.key.as_str(), false);
                LaunchAction::GiveUp
            }
        },
        LaunchEvent::Accounts(Some(accounts)) => {
            let mut accounts: Vec<String> = accounts;
            if accounts.len() == 0 {
                LaunchAction::GiveUp
            } else {
                LaunchAction::Login { email: accounts.remove(0) }
            }
        },
        LaunchEvent::LoginFailed { .. } => {
            state.set_connecting(plan.key.as_str(), false);
            LaunchAction::GiveUp
        },
        LaunchEvent::LoggedIn => LaunchAction::Connect,
        _ => LaunchAction::GiveUp,
    }
}

/// The bots of a configuration, each with its server and its alias, in order.
pub open spec fn listed(config: Seq<(String, Vec<(String, BotConfig)>)>) -> Seq<
    (Seq<char>, Seq<char>),
>
    decreases config.len(),
{
    if config.len() == 0 {
        seq![]
    } else {
        listed(config.drop_last()) + Seq::new(
            config.last().1@.len(),
            |j: int| (config.last().0@, config.last().1@[j].0@),
        )
    }
}

/// Whether the command starts this bot.
pub open spec fn starts<C>(command: BotCommand<C>, bot: (Seq<char>, Seq<char>)) -> bool {
    command matches BotCommand::Start { server, alias } && server@ == bot.0 && alias@ == bot.1
}

/// The commands with which the program begins: every configured bot is started.
pub fn start_all<C>(config: &AppConfig) -> (res: Vec<BotCommand<C>>)
    ensures
        res@.len() == listed(config@).len(),
        forall|i: int| 0 <= i < res@.len() ==> starts(#[trigger] res@[i], listed(config@)[i]),
{
    let mut res: Vec<BotCommand<C>> = Vec::new();
    let mut i: usize = 0;
    assert(config@.take(0).len() == 0);
    while i < config.len()
        invariant
            i <= config@.len(),
            res@.len() == listed(config@.take(i as int)).len(),
            forall|k: int|
                0 <= k < res@.len() ==> starts(
                    #[trigger] res@[k],
                    listed(config@.take(i as int))[k],
                ),
        decreases config.len() - i,
    {
        let bots: &Vec<(String, BotConfig)> = &config[i].1;
        let ghost before = listed(config@.take(i as int));
        let ghost after = listed(config@.take(i + 1));
        assert(config@.take(i + 1).drop_last() =~= config@.take(i as int));
        assert(after.len() == before.len() + bots@.len());
        let mut j: usize = 0;
        while j < bots.len()
            invariant
                i < config@.len(),
                j <= bots@.len(),
                *bots == config@[i as int].1,
                before == listed(config@.take(i as int)),
                after == before + Seq::new(
                    bots@.len(),
                    |n: int| (config@[i as int].0@, bots@[n].0@),
                ),
                res@.len() == before.len() + j,
                forall|k: int| 0 <= k < res@.len() ==> starts(#[trigger] res@[k], after[k]),
            decreases bots.len() - j,
        {
            let ghost was = res@;
            res.push(BotCommand::Start { server: config[i].0.clone(), alias: bots[j].0.clone() });
            assert(after[before.len() + j] == (config@[i as int].0@, bots@[j as int].0@));
            assert forall|k: int| 0 <= k < res@.len() implies starts(
                #[trigger] res@[k],
                after[k],
            ) by {
                if k < was.len() {
                    assert(res@[k] == was[k]);
                }
            }
            j = j + 1;
        }
        i = i + 1;
    }
    assert(config@.take(config@.len() as int) =~= config@);
    res
}

/// Every bot that is configured is among those that are started.
pub proof fn law_every_configured_bot_is_started(
    config: Seq<(String, Vec<(String, BotConfig)>)>,
    i: int,
    j: int,
)
    requires
        0 <= i < config.len(),
        0 <= j < config[i].1@.len(),
    ensures
        listed(config).contains((config[i].0@, config[i].1@[j].0@)),
    decreases config.len(),
{
    let before = listed(config.drop_last());
    let all = listed(config);
    if i == config.len() - 1 {
        assert(all[before.len() + j] == (config[i].0@, config[i].1@[j].0@));
    } else {
        law_every_configured_bot_is_started(config.drop_last(), i, j);
        let bot = (config[i].0@, config[i].1@[j].0@);
        let k = choose|k: int| 0 <= k < before.len() && before[k] == bot;
        assert(all[k] == bot);
    }
}

/// A bot that cannot be reached is started as it is configured. Each of using and
/// attacking goes by its own field alone: it is off exactly where that field is
/// absent, is done at every tick where the field is blank, and at the given interval
/// where it is a number. A bot that is not configured does nothing.
pub proof fn law_launch_follows_the_fields<C, F: Fn(&str) -> Option<u32>>(
    action: ManagerAction<C>,
    running: Map<Seq<char>, C>,
    configs: Map<Seq<char>, BotConfig>,
    server: String,
    alias: String,
    parse_angle: F,
)
    requires
        !running.contains_key(alias@),
        acts_on(action, running, configs, (BotCommand::Start { server, alias }), parse_angle),
    ensures
        ({
            let key = (server@ + "|"@) + alias@;
            &&& action matches ManagerAction::Launch(plan)
            &&& plan.server == server
            &&& plan.alias == alias
            &&& plan.key@ == key
            &&& configs.contains_key(key) ==> {
                let bot = configs[key];
                &&& plan.use_interval is None <==> bot.use_mode is None
                &&& bot.use_mode == Some(ConfigValue::Null) ==> plan.use_interval == Some(0usize)
                &&& bot.use_mode matches Some(ConfigValue::Unsigned(n)) ==> (n <= usize::MAX
                    ==> plan.use_interval == Some(n as usize))
                &&& bot.use_mode matches Some(v) ==> (v !is Unsigned && v !is Tagged
                    ==> plan.use_interval == Some(0usize))
                &&& plan.atk_interval is None <==> bot.atk_mode is None
                &&& bot.atk_mode == Some(ConfigValue::Null) ==> plan.atk_interval == Some(0usize)
                &&& bot.atk_mode matches Some(ConfigValue::Unsigned(n)) ==> (n <= usize::MAX
                    ==> plan.atk_interval == Some(n as usize))
                &&& bot.atk_mode matches Some(v) ==> (v !is Unsigned && v !is Tagged
                    ==> plan.atk_interval == Some(0usize))
                &&& bot.look is None ==> plan.look is None
                &&& look_reads_as(parse_angle, bot.look, plan.look)
            }
            &&& !configs.contains_key(key) ==> {
                &&& plan.look is None
                &&& plan.use_interval is None
                &&& plan.atk_interval is None
            }
        }),
{
    assert(key_of(server@, alias@) =~= (server@ + "|"@) + alias@);
}

/// Two bots whose fields for attacking are the same attack in the same way, whatever
/// else differs between them; and so it is with using.
pub proof fn law_plans_do_not_mix_fields<F: Fn(&str) -> Option<u32>>(
    plan: LaunchPlan,
    configs: Map<Seq<char>, BotConfig>,
    server: String,
    alias: String,
    other: LaunchPlan,
    other_configs: Map<Seq<char>, BotConfig>,
    other_server: String,
    other_alias: String,
    parse_angle: F,
)
    requires
        plans(plan, configs, server, alias, parse_angle),
        plans(other, other_configs, other_server, other_alias, parse_angle),
        configs.contains_key(server@ + "|"@ + alias@),
        other_configs.contains_key(other_server@ + "|"@ + other_alias@),
    ensures
        ({
            let bot = configs[server@ + "|"@ + alias@];
            let other_bot = other_configs[other_server@ + "|"@ + other_alias@];
            &&& bot.use_mode == other_bot.use_mode ==> plan.use_interval == other.use_interval
            &&& bot.atk_mode == other_bot.atk_mode ==> plan.atk_interval == other.atk_interval
            &&& bot.use_mode == other_bot.atk_mode ==> plan.use_interval == other.atk_interval
        }),
{
}

/// A bot that can be reached is not started again. One that can be reached is
/// disconnected when it is stopped, by its own handle, and is handed what it is to
/// say, as it is; about one that cannot, nothing is done, and nothing is done when a
/// bot only comes within reach or leaves it.
pub proof fn law_only_reachable_bots_are_told<C, F: Fn(&str) -> Option<u32>>(
    action: ManagerAction<C>,
    running: Map<Seq<char>, C>,
    configs: Map<Seq<char>, BotConfig>,
    command: BotCommand<C>,
    parse_angle: F,
)
    requires
        acts_on(action, running, configs, command, parse_angle),
    ensures
        action is Launch <==> (command matches BotCommand::Start { alias, .. }
            && !running.contains_key(alias@)),
        action is Disconnect <==> (command matches BotCommand::Stop { alias }
            && running.contains_key(alias@)),
        action is Chat <==> (command matches BotCommand::SendChat { alias, .. }
            && running.contains_key(alias@)),
        command matches BotCommand::Stop { alias } ==> (running.contains_key(alias@) ==> action
            == ManagerAction::Disconnect(running[alias@])),
        command matches BotCommand::SendChat { alias, message } ==> (running.contains_key(alias@)
            ==> action == (ManagerAction::<C>::Chat { alias, message })),
{
}

/// A bot is marked as connecting when it is started, and its status is the same
/// otherwise. A command changes no other bot's status, and where the bot can be
/// reached or the command is another one it changes none.
pub proof fn law_only_a_start_marks_a_bot<C>(
    statuses: Map<Seq<char>, StatusView>,
    running: Map<Seq<char>, C>,
    command: BotCommand<C>,
    key: Seq<char>,
)
    ensures
        ({
            let after = statuses_after_command(statuses, running, command);
            &&& after.dom() == statuses.dom()
            &&& match command {
                BotCommand::Start { server, alias } => {
                    let own = (server@ + "|"@) + alias@;
                    &&& statuses.contains_key(own) && !running.contains_key(alias@) ==> {
                        &&& after[own].connecting
                        &&& after[own].online == statuses[own].online
                        &&& after[own].delay == statuses[own].delay
                        &&& after[own].pos == statuses[own].pos
                    }
                    &&& statuses.contains_key(key) && key != own ==> after[key] == statuses[key]
                    &&& running.contains_key(alias@) ==> after == statuses
                },
                _ => after == statuses,
            }
        }),
{
    let after = statuses_after_command(statuses, running, command);
    assert(after.dom() =~= statuses.dom());
}

/// However many accounts a file holds, one included, the first is the one to log in
/// with; the start is given up after the file was read only where it holds none or
/// could not be deciphered.
pub proof fn law_first_account_is_logged_in_with(accounts: Option<Vec<String>>)
    ensures
        ({
            let step = next_step(LaunchEvent::Accounts(accounts));
            &&& accounts matches Some(list) ==> (list@.len() >= 1 ==> step == (LaunchAction::Login {
                email: list@[0],
            }))
            &&& step is GiveUp <==> (accounts is None || accounts->0@.len() == 0)
        }),
{
}

/// A start goes from the file that is there to reading it, from an account to the
/// login, from the login to the connection; it is given up exactly where something
/// is missing or fails.
pub proof fn law_a_start_goes_on_or_is_given_up(event: LaunchEvent)
    ensures
        next_step(event) is ReadKeyFile <==> event == (LaunchEvent::KeyFile { exists: true }),
        next_step(event) is Connect <==> event is LoggedIn,
        next_step(event) is Login <==> (event matches LaunchEvent::Accounts(Some(list))
            && list@.len() > 0),
        next_step(event) is GiveUp <==> {
            ||| event == (LaunchEvent::KeyFile { exists: false })
            ||| event is ReadFailed
            ||| event is LoginFailed
            ||| event matches LaunchEvent::Accounts(None)
            ||| event matches LaunchEvent::Accounts(Some(list)) && list@.len() == 0
        },
        clears_connecting(event) <==> event is LoginFailed || event == (LaunchEvent::KeyFile {
            exists: false,
        }),
        clears_connecting(event) ==> next_step(event) is GiveUp,
{
}

/// Whatever ends a start is logged as an error, and nothing else is; a login is
/// logged too. What is logged names the bot, its file and its server, the reason, or
/// the account, each in full.
pub proof fn law_what_ends_a_start_is_logged(plan: LaunchPlan, event: LaunchEvent)
    ensures
        launch_line(plan, event) is None <==> next_step(event) is ReadKeyFile || next_step(
            event,
        ) is Connect,
        launch_line(plan, event) matches Some(line) ==> line.1 == (next_step(event) is GiveUp),
        match event {
            LaunchEvent::KeyFile { exists } => !exists ==> launch_line(plan, event) == Some(
                (
                    "找不到别名 '"@ + plan.alias@ + "' 对应的授权文件 '"@ + plan.alias@
                        + ".key'，无法连接 "@ + plan.server@ + "！"@,
                    true,
                ),
            ),
            LaunchEvent::ReadFailed { error } => launch_line(plan, event) == Some(
                ("读取授权文件 "@ + plan.alias@ + ".key 失败: "@ + error@, true),
            ),
            LaunchEvent::Accounts(None) => launch_line(plan, event) == Some(
                (
                    "别名 '"@ + plan.alias@ + "' 的授权文件 "@ + plan.alias@
                        + ".key 解密失败！创建时间可能已被系统修改。"@,
                    true,
                ),
            ),
            LaunchEvent::Accounts(Some(list)) => {
                &&& list@.len() == 0 ==> launch_line(plan, event) == Some(
                    ("授权文件 "@ + plan.alias@ + ".key 中未找到已缓存的账号！"@, true),
                )
                &&& list@.len() > 0 ==> launch_line(plan, event) == Some(
                    ("正在登录账号: "@ + list@[0]@, false),
                )
            },
            LaunchEvent::LoginFailed { error } => launch_line(plan, event) == Some(
                ("登录失败: "@ + error@, true),
            ),
            LaunchEvent::LoggedIn => launch_line(plan, event) is None,
        },
{
}

/// The bots are started server by server and, on each server, one after the other,
/// in the order in which they are configured; as many are started as there are.
pub proof fn law_bots_are_started_in_order(
    config: Seq<(String, Vec<(String, BotConfig)>)>,
    server: String,
    bots: Vec<(String, BotConfig)>,
    j: int,
)
    requires
        0 <= j < bots@.len(),
    ensures
        ({
            let before = listed(config);
            let all = listed(config.push((server, bots)));
            &&& all.len() == before.len() + bots@.len()
            &&& all.take(before.len() as int) == before
            &&& all[before.len() + j] == (server@, bots@[j].0@)
        }),
        listed(Seq::empty()).len() == 0,
{
    let longer = config.push((server, bots));
    assert(longer.drop_last() =~= config);
    let all = listed(longer);
    assert(all.take(listed(config).len() as int) =~= listed(config));
}

/// A server without bots adds none.
pub proof fn law_empty_server_starts_nothing(
    config: Seq<(String, Vec<(String, BotConfig)>)>,
    server: String,
    bots: Vec<(String, BotConfig)>,
)
    requires
        bots@.len() == 0,
    ensures
        listed(config.push((server, bots))) == listed(config),
{
    assert(config.push((server, bots)).drop_last() =~= config);
    assert(listed(config.push((server, bots))) =~= listed(config));
}

/// A command starts a bot where it is a start that names this server and this alias.
pub proof fn law_a_start_names_server_and_alias<C>(
    command: BotCommand<C>,
    bot: (Seq<char>, Seq<char>),
)
    requires
        starts(command, bot),
    ensures
        command matches BotCommand::Start { server, alias } && server@ == bot.0 && alias@ == bot.1,
{
}

} // verus!
