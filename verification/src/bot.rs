//! What one bot does about what happens to it.

use vstd::prelude::*;

use crate::active::with_active;
use crate::active::without_active;
use crate::active::ActiveBot;
use crate::active::ActiveBots;
use crate::ansi::strip_ansi_codes;
use crate::ansi::visible;
use crate::config::mode_interval;
use crate::config::ConfigValue;
use crate::state::bot_key;
use crate::state::changed;
use crate::state::key_of;
use crate::state::log_added;
use crate::state::GlobalAppState;
use crate::state::StatusView;
use crate::text::joined;

verus! {

/// What a bot is set to do, and how far its counters have come.
#[derive(Debug, PartialEq, Eq)]
pub struct BotState {
    /// The direction to keep looking in, as the bit patterns of two angles.
    pub look_direction: Option<(u32, u32)>,
    /// Off, every tick (`0`), or every so many ticks.
    pub use_interval: Option<usize>,
    /// Off, every tick (`0`), or every so many ticks.
    pub atk_interval: Option<usize>,
    pub use_counter: usize,
    pub atk_counter: usize,
    /// Whether the bot reports to the web console.
    pub global_state: bool,
    /// Whether the bot tells the manager when it comes and goes.
    pub cmd_tx: bool,
    pub alias: Option<String>,
    pub server: Option<String>,
}

/// Whether something that is done at this interval is done at the next tick.
pub open spec fn fires(interval: Option<usize>, counter: int) -> bool {
    match interval {
        None => false,
        Some(n) => n == 0 || counter + 1 >= n,
    }
}

/// The counter after the next tick.
pub open spec fn counted(interval: Option<usize>, counter: int) -> int {
    match interval {
        None => counter,
        Some(n) => if n == 0 {
            counter
        } else if fires(interval, counter) {
            0
        } else {
            counter + 1
        },
    }
}

/// Whether the counter can be counted up at the next tick.
pub open spec fn can_count(interval: Option<usize>, counter: int) -> bool {
    match interval {
        None => true,
        Some(n) => n > 0 ==> counter < usize::MAX,
    }
}

/// The counter after so many ticks from zero.
pub open spec fn counter_after(interval: Option<usize>, ticks: nat) -> int
    decreases ticks,
{
    if ticks == 0 {
        0
    } else {
        counted(interval, counter_after(interval, (ticks - 1) as nat))
    }
}

/// Something that is done every `n` ticks is done at the ticks that `n` divides and
/// at no others; with no interval it is never done, and with `0` at every tick.
/// The first tick has the number 1.
pub proof fn law_done_at_every_nth_tick(interval: Option<usize>, tick: nat)
    requires
        tick > 0,
    ensures
        fires(interval, counter_after(interval, (tick - 1) as nat)) == (match interval {
            None => false,
            Some(n) => n == 0 || tick % (n as nat) == 0,
        }),
        can_count(interval, counter_after(interval, (tick - 1) as nat)),
{
    if let Some(n) = interval {
        if n > 0 {
            law_counter_is_remainder(n, (tick - 1) as nat);
            lemma_next_remainder((tick - 1) as int, n as int);
        }
    }
}

/// What a mode in the configuration means: a mode that is not given is never
/// acted on, one that is left blank at every tick, and a number `n` from one up at
/// every `n`th tick. The first tick has the number 1.
pub proof fn law_meaning_of_a_mode(mode: Option<ConfigValue>, tick: nat)
    requires
        tick > 0,
    ensures
        ({
            let interval = mode_interval(mode);
            let acts = fires(interval, counter_after(interval, (tick - 1) as nat));
            &&& mode is None ==> !acts
            &&& mode == Some(ConfigValue::Null) ==> acts
            &&& mode matches Some(ConfigValue::Unsigned(n)) ==> (0 < n <= usize::MAX ==> acts == (
            tick % (n as nat) == 0))
        }),
{
    law_done_at_every_nth_tick(mode_interval(mode), tick);
}

/// With an interval of `n` ticks the counter is the number of ticks since the start,
/// modulo `n`.
pub proof fn law_counter_is_remainder(n: usize, ticks: nat)
    requires
        n > 0,
    ensures
        counter_after(Some(n), ticks) == ticks % (n as nat),
    decreases ticks,
{
    if ticks > 0 {
        law_counter_is_remainder(n, (ticks - 1) as nat);
        lemma_next_remainder((ticks - 1) as int, n as int);
    } else {
        vstd::arithmetic::div_mod::lemma_small_mod(0, n as nat);
    }
}

proof fn lemma_next_remainder(a: int, n: int)
    requires
        a >= 0,
        n > 0,
    ensures
        0 <= a % n < n,
        (a + 1) % n == (if a % n + 1 >= n {
            0
        } else {
            a % n + 1
        }),
{
    assert(0 <= a % n < n) by (nonlinear_arith)
        requires
            n > 0,
    ;
    let q = a / n;
    let r = a % n;
    vstd::arithmetic::div_mod::lemma_fundamental_div_mod(a, n);
    if r + 1 >= n {
        assert(a + 1 == (q + 1) * n) by (nonlinear_arith)
            requires
                a == n * q + r,
                r + 1 == n,
        ;
        vstd::arithmetic::div_mod::lemma_fundamental_div_mod_converse(a + 1, n, q + 1, 0);
    } else {
        assert(a + 1 == q * n + (r + 1)) by (nonlinear_arith)
            requires
                a == n * q + r,
        ;
        vstd::arithmetic::div_mod::lemma_fundamental_div_mod_converse(a + 1, n, q, r + 1);
    }
}

/// Counts one tick and says whether to act.
pub fn count_tick(interval: Option<usize>, counter: &mut usize) -> (res: bool)
    requires
        can_count(interval, *old(counter) as int),
    ensures
        res == fires(interval, *old(counter) as int),
        *final(counter) == counted(interval, *old(counter) as int),
        can_count(interval, *final(counter) as int),
{
    match interval {
        None => false,
        Some(n) => {
            if n == 0 {
                true
            } else {
                *counter = *counter + 1;
                if *counter >= n {
                    *counter = 0;
                    true
                } else {
                    false
                }
            }
        },
    }
}

impl Default for BotState {
    fn default() -> (res: BotState)
        ensures
            res.look_direction is None,
            res.use_interval is None,
            res.atk_interval is None,
            res.use_counter == 0,
            res.atk_counter == 0,
            !res.global_state,
            !res.cmd_tx,
            res.alias is None,
            res.server is None,
    {
        BotState {
            look_direction: None,
            use_interval: None,
            atk_interval: None,
            use_counter: 0,
            atk_counter: 0,
            global_state: false,
            cmd_tx: false,
            alias: None,
            server: None,
        }
    }
}

/// The characters of a text that may be missing.
pub open spec fn text_or_empty(s: Option<String>) -> Seq<char> {
    match s {
        Some(t) => t@,
        None => Seq::empty(),
    }
}

/// A text that may be missing, as a text.
fn or_empty(s: &Option<String>) -> (res: &str)
    ensures
        res@ == text_or_empty(*s),
{
    match s {
        Some(t) => t.as_str(),
        None => {
            proof {
                reveal_strlit("");
            }
            assert(""@ =~= Seq::empty());
            ""
        },
    }
}

/// Something that happens to a bot.
#[derive(Debug, PartialEq, Eq)]
pub enum BotEvent {
    /// The bot has entered the world.
    Spawn { username: String },
    /// Somebody has said something; the text has terminal colours.
    Chat { ansi: String },
    /// A tick of the game has passed. The position is wanted at some ticks only.
    Tick { ticks_connected: u64, position: Option<String> },
    /// The connection is gone.
    Disconnect { reason: String },
    /// Anything else.
    Other,
}

/// Something for a bot to do.
#[derive(Debug, PartialEq, Eq)]
pub enum BotAction {
    /// Turn in a direction, given as the bit patterns of two angles.
    SetLook(u32, u32),
    /// Use the item in hand.
    UseItem,
    /// Attack what the bot looks at.
    Attack,
    /// Tell the manager that the bot of this alias can be reached.
    Register(String),
    /// Tell the manager that the bot of this alias is gone.
    Unregister(String),
    /// Show a line at the terminal.
    Print(String),
}

/// Something for a bot to do, as a mathematical value.
pub enum ActionView {
    SetLook(u32, u32),
    UseItem,
    Attack,
    Register(Seq<char>),
    Unregister(Seq<char>),
    Print(Seq<char>),
}

impl View for BotAction {
    type V = ActionView;

    open spec fn view(&self) -> ActionView {
        match self {
            BotAction::SetLook(y, x) => ActionView::SetLook(*y, *x),
            BotAction::UseItem => ActionView::UseItem,
            BotAction::Attack => ActionView::Attack,
            BotAction::Register(alias) => ActionView::Register(alias@),
            BotAction::Unregister(alias) => ActionView::Unregister(alias@),
            BotAction::Print(line) => ActionView::Print(line@),
        }
    }
}

/// The views of a list of actions.
pub open spec fn action_views(list: Seq<BotAction>) -> Seq<ActionView> {
    Seq::new(list.len(), |i: int| list[i]@)
}

/// The action if there is a reason for it, else nothing.
pub open spec fn only_if(reason: bool, action: ActionView) -> Seq<ActionView> {
    if reason {
        seq![action]
    } else {
        seq![]
    }
}

impl BotState {
    /// Whether both counters can be counted up at the next tick.
    pub open spec fn can_tick(&self) -> bool {
        &&& can_count(self.use_interval, self.use_counter as int)
        &&& can_count(self.atk_interval, self.atk_counter as int)
    }

    /// What the bot does at the next tick: it keeps its direction, uses its item and
    /// attacks, each only if it is set to and its time has come.
    pub open spec fn tick_actions(&self) -> Seq<ActionView> {
        (match self.look_direction {
            Some((y, x)) => seq![ActionView::SetLook(y, x)],
            None => seq![],
        }) + only_if(fires(self.use_interval, self.use_counter as int), ActionView::UseItem)
            + only_if(fires(self.atk_interval, self.atk_counter as int), ActionView::Attack)
    }

    /// The state after the next tick.
    pub open spec fn after_tick(&self) -> BotState {
        BotState {
            use_counter: counted(self.use_interval, self.use_counter as int) as usize,
            atk_counter: counted(self.atk_interval, self.atk_counter as int) as usize,
            ..*self
        }
    }

    /// A bot that is started from the terminal.
    pub fn for_console(
        look_direction: Option<(u32, u32)>,
        use_interval: Option<usize>,
        atk_interval: Option<usize>,
    ) -> (res: BotState)
        ensures
            res == (BotState {
                look_direction,
                use_interval,
                atk_interval,
                use_counter: 0,
                atk_counter: 0,
                global_state: false,
                cmd_tx: false,
                alias: None,
                server: None,
            }),
            res.can_tick(),
    {
        BotState {
            look_direction,
            use_interval,
            atk_interval,
            use_counter: 0,
            atk_counter: 0,
            global_state: false,
            cmd_tx: false,
            alias: None,
            server: None,
        }
    }

    /// A bot that is started from the web console.
    pub fn for_web(
        look_direction: Option<(u32, u32)>,
        use_interval: Option<usize>,
        atk_interval: Option<usize>,
        alias: String,
        server: String,
    ) -> (res: BotState)
        ensures
            res == (BotState {
                look_direction,
                use_interval,
                atk_interval,
                use_counter: 0,
                atk_counter: 0,
                global_state: true,
                cmd_tx: true,
                alias: Some(alias),
                server: Some(server),
            }),
            res.can_tick(),
    {
        BotState {
            look_direction,
            use_interval,
            atk_interval,
            use_counter: 0,
            atk_counter: 0,
            global_state: true,
            cmd_tx: true,
            alias: Some(alias),
            server: Some(server),
        }
    }

    /// Counts a tick and says what to do.
    pub fn tick(&mut self) -> (res: Vec<BotAction>)
        requires
            old(self).can_tick(),
        ensures
            action_views(res@) == old(self).tick_actions(),
            *final(self) == old(self).after_tick(),
            final(self).can_tick(),
    {
        let mut res: Vec<BotAction> = Vec::new();
        match self.look_direction {
            Some((y, x)) => {
                res.push(BotAction::SetLook(y, x));
            },
            None => {},
        }
        let ghost look = action_views(res@);
        assert(look =~= (match old(self).look_direction {
            Some((y, x)) => seq![ActionView::SetLook(y, x)],
            None => seq![],
        }));
        let use_now: bool = count_tick(self.use_interval, &mut self.use_counter);
        if use_now {
            res.push(BotAction::UseItem);
        }
        assert(action_views(res@) =~= look + only_if(use_now, ActionView::UseItem));
        let ghost used = action_views(res@);
        let attack_now: bool = count_tick(self.atk_interval, &mut self.atk_counter);
        if attack_now {
            res.push(BotAction::Attack);
        }
        assert(action_views(res@) =~= used + only_if(attack_now, ActionView::Attack));
        res
    }
}

/// Whether the position of a bot is looked up at this tick.
pub fn wants_position(ticks_connected: u64) -> (res: bool)
    ensures
        res == (ticks_connected % 10 == 0),
{
    ticks_connected % 10 == 0
}

/// The statuses after something has happened to the bot under `key`.
pub open spec fn statuses_after(
    before: Map<Seq<char>, StatusView>,
    key: Seq<char>,
    event: BotEvent,
) -> Map<Seq<char>, StatusView> {
    match event {
        BotEvent::Spawn { .. } => changed(
            before,
            key,
            |s: StatusView| StatusView { online: true, connecting: false, ..s },
        ),
        BotEvent::Tick { ticks_connected, position } => if ticks_connected % 10 == 0 {
            changed(
                before,
                key,
                |s: StatusView|
                    StatusView {
                        pos: match position {
                            Some(p) => p@,
                            None => "--"@,
                        },
                        delay: ticks_connected,
                        ..s
                    },
            )
        } else {
            before
        },
        BotEvent::Disconnect { .. } => changed(
            before,
            key,
            |s: StatusView| StatusView { online: false, connecting: false, ..s },
        ),
        _ => before,
    }
}

/// What happens to one bot changes the status of no other, and makes no bot appear
/// or vanish.
pub proof fn law_bots_do_not_touch_each_other(
    before: Map<Seq<char>, StatusView>,
    key: Seq<char>,
    event: BotEvent,
    other: Seq<char>,
)
    requires
        other != key,
    ensures
        statuses_after(before, key, event).dom() == before.dom(),
        before.contains_key(other) ==> statuses_after(before, key, event)[other] == before[other],
{
    assert(statuses_after(before, key, event).dom() =~= before.dom());
}

/// A bot is shown as online from the moment it enters the world until its
/// connection is gone; once it is online or gone it is not shown as connecting.
pub proof fn law_online_until_disconnected(
    before: Map<Seq<char>, StatusView>,
    key: Seq<char>,
    event: BotEvent,
)
    requires
        before.contains_key(key),
    ensures
        ({
            let after = statuses_after(before, key, event)[key];
            match event {
                BotEvent::Spawn { .. } => after.online && !after.connecting,
                BotEvent::Disconnect { .. } => !after.online && !after.connecting,
                _ => after.online == before[key].online && after.connecting
                    == before[key].connecting,
            }
        }),
{
}

/// The line that the web console logs about an event, whether it is an error, and
/// whether it comes from the program rather than from the game.
pub open spec fn line_about(event: BotEvent) -> Option<(Seq<char>, bool, bool)> {
    match event {
        BotEvent::Spawn { username } => Some(
            ("机器人 "@ + username@ + " 已进入游戏世界！"@, false, true),
        ),
        BotEvent::Chat { ansi } => Some((visible(ansi@), false, false)),
        BotEvent::Disconnect { reason } => Some(("已断开连接: "@ + reason@, true, true)),
        _ => None,
    }
}

/// What a bot of the web console does about an event; what is logged is shown at
/// the terminal too.
pub open spec fn web_actions(state: BotState, event: BotEvent) -> Seq<ActionView> {
    let shown = match line_about(event) {
        Some((message, _, _)) => seq![ActionView::Print(message)],
        None => seq![],
    };
    match event {
        BotEvent::Spawn { .. } => shown + only_if(
            state.cmd_tx,
            ActionView::Register(text_or_empty(state.alias)),
        ),
        BotEvent::Tick { .. } => state.tick_actions(),
        BotEvent::Disconnect { .. } => shown + only_if(
            state.cmd_tx,
            ActionView::Unregister(text_or_empty(state.alias)),
        ),
        _ => shown,
    }
}

/// The bots in the game after an event: one that enters the world comes, and one
/// whose connection is gone goes.
pub open spec fn active_after<C>(
    active: Seq<ActiveBot<C>>,
    bot: ActiveBot<C>,
    event: BotEvent,
) -> Seq<ActiveBot<C>> {
    match event {
        BotEvent::Spawn { .. } => with_active(active, bot),
        BotEvent::Disconnect { .. } => without_active(active, bot.uuid),
        _ => active,
    }
}

/// Handles something that has happened to a bot of the web console: notes it in
/// the log and in the bot's status, if the bot reports there, keeps track of the
/// bots that are in the game, and says what to do.
pub fn handle_web_bot<C>(
    bot: C,
    uuid: u128,
    event: BotEvent,
    state: &mut BotState,
    global: &mut GlobalAppState,
    active: &mut ActiveBots<C>,
) -> (res: Vec<BotAction>)
    requires
        event is Tick ==> old(state).can_tick(),
        old(global).wf(),
    ensures
        action_views(res@) == web_actions(*old(state), event),
        *final(state) == (if event is Tick {
            old(state).after_tick()
        } else {
            *old(state)
        }),
        old(state).can_tick() ==> final(state).can_tick(),
        final(active).bots@ == active_after(
            old(active).bots@,
            (ActiveBot { uuid, client: bot }),
            event,
        ),
        final(global).wf(),
        final(global).configs == old(global).configs,
        final(global).statuses() == (if old(state).global_state {
            statuses_after(
                old(global).statuses(),
                key_of(text_or_empty(old(state).server), text_or_empty(old(state).alias)),
                event,
            )
        } else {
            old(global).statuses()
        }),
        match line_about(event) {
            Some((message, is_error, is_system)) if old(state).global_state => log_added(
                old(global).lines(),
                final(global).lines(),
                text_or_empty(old(state).alias),
                message,
                is_error,
                is_system,
            ),
            _ => final(global).lines() == old(global).lines(),
        },
{
    let alias: String = or_empty(&state.alias).to_string();
    let key: String = bot_key(or_empty(&state.server), alias.as_str());
    let mut res: Vec<BotAction> = Vec::new();
    match event {
        BotEvent::Spawn { username } => {
            let line: String = joined("机器人 ", username.as_str(), " 已进入游戏世界！");
            if state.global_state {
                global.add_log(alias.as_str(), line.as_str(), false, true);
                global.set_online(key.as_str(), true);
            }
            active.add_active_bot(uuid, bot);
            res.push(BotAction::Print(line));
            if state.cmd_tx {
                res.push(BotAction::Register(alias));
            }
        },
        BotEvent::Chat { ansi } => {
            let line: String = strip_ansi_codes(ansi.as_str());
            if state.global_state {
                global.add_log(alias.as_str(), line.as_str(), false, false);
            }
            res.push(BotAction::Print(line));
        },
        BotEvent::Tick { ticks_connected, position } => {
            res = state.tick();
            if wants_position(ticks_connected) && state.global_state {
                let pos: String = match position {
                    Some(p) => p,
                    None => "--".to_string(),
                };
                global.set_position(key.as_str(), pos, ticks_connected);
            }
        },
        BotEvent::Disconnect { reason } => {
            proof {
                reveal_strlit("");
            }
            let line: String = joined("已断开连接: ", reason.as_str(), "");
            assert("已断开连接: "@ + reason@ + ""@ =~= "已断开连接: "@ + reason@);
            if state.global_state {
                global.add_log(alias.as_str(), line.as_str(), true, true);
                global.set_online(key.as_str(), false);
            }
            active.remove_active_bot(uuid);
            res.push(BotAction::Print(line));
            if state.cmd_tx {
                res.push(BotAction::Unregister(alias));
            }
        },
        BotEvent::Other => {},
    }
    assert(action_views(res@) =~= web_actions(*old(state), event));
    res
}

/// The terminal, with the bots that it speaks to.
pub struct Console<C> {
    pub active: ActiveBots<C>,
    /// Whether the terminal has said that it takes input.
    pub welcome_printed: bool,
}

impl<C> Console<C> {
    /// A terminal before any bot is in the game.
    pub fn new() -> (res: Self)
        ensures
            res.active.bots@ == Seq::<ActiveBot<C>>::empty(),
            !res.welcome_printed,
    {
        Console { active: ActiveBots::new(), welcome_printed: false }
    }
}

/// What the terminal says once, when the first bot is in the game.
pub open spec fn welcome() -> Seq<char> {
    "挂机控制台就绪！输入任何内容并回车，都将直接发送到服务器聊天中。"@
}

/// What a bot of the terminal does about an event.
pub open spec fn console_actions(
    state: BotState,
    welcome_printed: bool,
    event: BotEvent,
) -> Seq<ActionView> {
    match event {
        BotEvent::Spawn { username } => seq![
            ActionView::Print("机器人 "@ + username@ + " 已成功在世界中生成！"@),
        ] + only_if(!welcome_printed, ActionView::Print(welcome())),
        BotEvent::Chat { ansi } => seq![ActionView::Print(ansi@)],
        BotEvent::Tick { .. } => state.tick_actions(),
        BotEvent::Disconnect { reason } => seq![
            ActionView::Print("已与服务器断开连接: "@ + reason@),
        ],
        BotEvent::Other => seq![],
    }
}

/// Handles something that has happened to a bot of the terminal: keeps track of
/// the bots that are in the game, and says what to do.
pub fn handle<C>(
    bot: C,
    uuid: u128,
    event: BotEvent,
    state: &mut BotState,
    console: &mut Console<C>,
) -> (res: Vec<BotAction>)
    requires
        event is Tick ==> old(state).can_tick(),
    ensures
        action_views(res@) == console_actions(*old(state), old(console).welcome_printed, event),
        *final(state) == (if event is Tick {
            old(state).after_tick()
        } else {
            *old(state)
        }),
        old(state).can_tick() ==> final(state).can_tick(),
        final(console).welcome_printed == (old(console).welcome_printed || event is Spawn),
        final(console).active.bots@ == active_after(
            old(console).active.bots@,
            (ActiveBot { uuid, client: bot }),
            event,
        ),
{
    let mut res: Vec<BotAction> = Vec::new();
    match event {
        BotEvent::Spawn { username } => {
            res.push(
                BotAction::Print(joined("机器人 ", username.as_str(), " 已成功在世界中生成！")),
            );
            console.active.add_active_bot(uuid, bot);
            if !console.welcome_printed {
                console.welcome_printed = true;
                res.push(
                    BotAction::Print(
                        "挂机控制台就绪！输入任何内容并回车，都将直接发送到服务器聊天中。".to_string(),
                    ),
                );
            }
        },
        BotEvent::Chat { ansi } => {
            res.push(BotAction::Print(ansi));
        },
        BotEvent::Tick { .. } => {
            res = state.tick();
        },
        BotEvent::Disconnect { reason } => {
            proof {
                reveal_strlit("");
            }
            res.push(BotAction::Print(joined("已与服务器断开连接: ", reason.as_str(), "")));
            assert("已与服务器断开连接: "@ + reason@ + ""@ =~= "已与服务器断开连接: "@ + reason@);
            console.active.remove_active_bot(uuid);
        },
        BotEvent::Other => {},
    }
    assert(action_views(res@) =~= console_actions(
        *old(state),
        old(console).welcome_printed,
        event,
    ));
    res
}

/// What a bot looks at.
#[derive(Debug, PartialEq, Eq)]
pub enum Hit<E> {
    /// Something that can be attacked.
    Entity(E),
    /// A block, or nothing.
    Other,
}

/// How a bot strikes.
#[derive(Debug, PartialEq, Eq)]
pub enum Strike<E> {
    Attack(E),
    SwingArm,
}

/// Strikes at what the bot looks at: an entity is attacked; otherwise, and where it
/// is not known what the bot looks at, the bot swings its arm.
pub fn do_attack<E>(hit: Option<Hit<E>>) -> (res: Strike<E>)
    ensures
        res == (match hit {
            Some(Hit::Entity(e)) => Strike::Attack(e),
            _ => Strike::SwingArm,
        }),
{
    match hit {
        Some(Hit::Entity(e)) => Strike::Attack(e),
        _ => Strike::SwingArm,
    }
}

/// The state after so many ticks.
pub open spec fn after_ticks(state: BotState, ticks: nat) -> BotState
    decreases ticks,
{
    if ticks == 0 {
        state
    } else {
        after_ticks(state, (ticks - 1) as nat).after_tick()
    }
}

proof fn lemma_counter_fits(interval: Option<usize>, ticks: nat)
    ensures
        0 <= counter_after(interval, ticks) <= usize::MAX,
        (interval is None || interval == Some(0usize)) ==> counter_after(interval, ticks) == 0,
    decreases ticks,
{
    if ticks > 0 {
        lemma_counter_fits(interval, (ticks - 1) as nat);
    }
    if let Some(n) = interval {
        if n > 0 {
            law_counter_is_remainder(n, ticks);
            lemma_next_remainder(ticks as int, n as int);
        }
    }
}

proof fn lemma_after_ticks(state: BotState, ticks: nat)
    requires
        state.use_counter == 0,
        state.atk_counter == 0,
    ensures
        after_ticks(state, ticks).use_counter == counter_after(state.use_interval, ticks),
        after_ticks(state, ticks).atk_counter == counter_after(state.atk_interval, ticks),
        after_ticks(state, ticks) == (BotState {
            use_counter: after_ticks(state, ticks).use_counter,
            atk_counter: after_ticks(state, ticks).atk_counter,
            ..state
        }),
    decreases ticks,
{
    if ticks > 0 {
        lemma_after_ticks(state, (ticks - 1) as nat);
        lemma_counter_fits(state.use_interval, ticks);
        lemma_counter_fits(state.atk_interval, ticks);
    }
}

/// From its start a bot attacks at every tick that its attack interval divides, or
/// at every tick where that is `0`, and at no other, whatever it does with its item;
/// and it uses its item by its own interval in the same way, whatever it attacks.
/// It turns in its direction at every tick where it has one, and before the rest;
/// it attacks last, and does nothing twice. Its settings stay as they are, and it
/// can go on for ever. The first tick has the number 1.
pub proof fn law_each_interval_keeps_its_own_time(state: BotState, tick: nat)
    requires
        tick > 0,
        state.use_counter == 0,
        state.atk_counter == 0,
    ensures
        ({
            let now = after_ticks(state, (tick - 1) as nat);
            let done = now.tick_actions();
            let attacks = match state.atk_interval {
                Some(m) => m == 0 || tick % (m as nat) == 0,
                None => false,
            };
            let uses = match state.use_interval {
                Some(n) => n == 0 || tick % (n as nat) == 0,
                None => false,
            };
            &&& now.can_tick()
            &&& done.contains(ActionView::Attack) == attacks
            &&& done.contains(ActionView::UseItem) == uses
            &&& forall|y: u32, x: u32| #[trigger]
                done.contains(ActionView::SetLook(y, x)) == (state.look_direction == Some((y, x)))
            &&& state.look_direction matches Some((y, x)) ==> done[0] == ActionView::SetLook(y, x)
            &&& attacks ==> done[done.len() - 1] == ActionView::Attack
            &&& done.len() == (if state.look_direction is Some {
                1int
            } else {
                0
            }) + (if uses {
                1int
            } else {
                0
            }) + (if attacks {
                1int
            } else {
                0
            })
            &&& now.look_direction == state.look_direction
            &&& now.use_interval == state.use_interval
            &&& now.atk_interval == state.atk_interval
            &&& now.global_state == state.global_state
            &&& now.cmd_tx == state.cmd_tx
            &&& now.alias == state.alias
            &&& now.server == state.server
        }),
{
    let before = (tick - 1) as nat;
    lemma_after_ticks(state, before);
    law_done_at_every_nth_tick(state.use_interval, tick);
    law_done_at_every_nth_tick(state.atk_interval, tick);
    let now = after_ticks(state, before);
    let done = now.tick_actions();
    let uses = fires(now.use_interval, now.use_counter as int);
    let attacks = fires(now.atk_interval, now.atk_counter as int);
    let looks: Seq<ActionView> = match now.look_direction {
        Some((y, x)) => seq![ActionView::SetLook(y, x)],
        None => seq![],
    };
    let first = looks.len() as int;
    if uses {
        assert(done[first] == ActionView::UseItem);
    }
    if attacks {
        assert(done[done.len() - 1] == ActionView::Attack);
    }
    if let Some((y, x)) = now.look_direction {
        assert(done[0] == ActionView::SetLook(y, x));
    }
    assert forall|i: int| 0 <= i < done.len() implies ({
        ||| #[trigger] done[i] == looks[i] && i < first
        ||| done[i] == ActionView::UseItem && uses
        ||| done[i] == ActionView::Attack && attacks
    }) by {}
    assert forall|y: u32, x: u32| #[trigger]
        done.contains(ActionView::SetLook(y, x)) == (state.look_direction == Some((y, x))) by {
        if done.contains(ActionView::SetLook(y, x)) {
            let i = choose|i: int| 0 <= i < done.len() && done[i] == ActionView::SetLook(y, x);
            assert(done[i] == looks[i]);
        }
    }
}

/// The views of a list of actions show every action, with everything in it.
pub proof fn law_actions_are_shown_whole(list: Seq<BotAction>, i: int)
    requires
        0 <= i < list.len(),
    ensures
        action_views(list).len() == list.len(),
        match action_views(list)[i] {
            ActionView::SetLook(y, x) => list[i] == BotAction::SetLook(y, x),
            ActionView::UseItem => list[i] is UseItem,
            ActionView::Attack => list[i] is Attack,
            ActionView::Register(alias) => list[i] matches BotAction::Register(a) && a@ == alias,
            ActionView::Unregister(alias) => list[i] matches BotAction::Unregister(a) && a@
                == alias,
            ActionView::Print(line) => list[i] matches BotAction::Print(l) && l@ == line,
        },
{
}

/// Where a bot stands and for how long it has been there is noted at every tenth
/// tick, and at no other time; a position that is not known is shown as two dashes.
pub proof fn law_position_at_every_tenth_tick(
    before: Map<Seq<char>, StatusView>,
    key: Seq<char>,
    event: BotEvent,
)
    requires
        before.contains_key(key),
    ensures
        ({
            let was = before[key];
            let now = statuses_after(before, key, event)[key];
            match event {
                BotEvent::Tick { ticks_connected, position } => if ticks_connected % 10 == 0 {
                    &&& now.delay == ticks_connected
                    &&& position matches Some(p) ==> now.pos == p@
                    &&& position is None ==> now.pos == seq!['-', '-']
                } else {
                    now == was
                },
                _ => now.delay == was.delay && now.pos == was.pos,
            }
        }),
        event is Chat || event is Other ==> statuses_after(before, key, event) == before,
{
    reveal_strlit("--");
    assert("--"@ =~= seq!['-', '-']);
}

/// A bot that has no status gets none.
pub proof fn law_unknown_bots_stay_unknown(
    before: Map<Seq<char>, StatusView>,
    key: Seq<char>,
    event: BotEvent,
)
    requires
        !before.contains_key(key),
    ensures
        statuses_after(before, key, event) == before,
{
}

/// What is logged about an event: that a bot is there, what was said, without its
/// colours, and why the connection is gone. Only the last is an error, and only what
/// was said does not come from the program.
pub proof fn law_what_is_logged(event: BotEvent)
    ensures
        match event {
            BotEvent::Spawn { username } => line_about(event) == Some(
                ("机器人 "@ + username@ + " 已进入游戏世界！"@, false, true),
            ),
            BotEvent::Chat { ansi } => {
                &&& line_about(event) == Some((visible(ansi@), false, false))
                &&& !ansi@.contains('\u{1b}') ==> line_about(event) == Some((ansi@, false, false))
            },
            BotEvent::Disconnect { reason } => line_about(event) == Some(
                ("已断开连接: "@ + reason@, true, true),
            ),
            BotEvent::Tick { .. } => line_about(event) is None,
            BotEvent::Other => line_about(event) is None,
        },
{
    if let BotEvent::Chat { ansi } = event {
        if !ansi@.contains('\u{1b}') {
            assert forall|i: int| 0 <= i < ansi@.len() implies #[trigger] ansi@[i] != '\u{1b}' by {
                if ansi@[i] == '\u{1b}' {
                    assert(ansi@.contains('\u{1b}'));
                }
            }
            crate::ansi::law_plain_text_is_kept(ansi@);
        }
    }
}

/// A bot of the web console shows what is logged, and nothing else; one that tells
/// the manager does so under its alias when it enters the world and when its
/// connection is gone, and at no other time; the rest is left to its ticks.
pub proof fn law_web_bot_shows_what_is_logged(state: BotState, event: BotEvent, text: Seq<char>)
    ensures
        ({
            let done = web_actions(state, event);
            let name = match state.alias {
                Some(a) => a@,
                None => Seq::empty(),
            };
            &&& event is Tick ==> done == state.tick_actions()
            &&& event !is Tick ==> {
                &&& done.contains(ActionView::Print(text)) == (line_about(event) matches Some(
                    line,
                ) && line.0 == text)
                &&& done.contains(ActionView::Register(text)) == (event is Spawn && state.cmd_tx
                    && name == text)
                &&& done.contains(ActionView::Unregister(text)) == (event is Disconnect
                    && state.cmd_tx && name == text)
                &&& done.len() == (if event is Other {
                    0int
                } else if state.cmd_tx && event !is Chat {
                    2
                } else {
                    1
                })
                &&& line_about(event) matches Some(line) ==> done[0] == ActionView::Print(line.0)
            }
        }),
{
    let done = web_actions(state, event);
    if event !is Tick {
        if done.len() > 0 {
            let a = done[0];
            assert(done.contains(a));
        }
        if done.len() > 1 {
            let b = done[1];
            assert(done.contains(b));
        }
    }
}

/// A bot is among those in the game from when it enters the world until its
/// connection is gone; nothing else changes who is there, and nobody else is moved.
pub proof fn law_in_the_game_from_spawn_to_disconnect<C>(
    active: Seq<ActiveBot<C>>,
    bot: ActiveBot<C>,
    event: BotEvent,
)
    ensures
        ({
            let after = active_after(active, bot, event);
            let here = exists|i: int|
                0 <= i < active.len() && (#[trigger] active[i]).uuid == bot.uuid;
            match event {
                BotEvent::Spawn { .. } => after == (if here {
                    active
                } else {
                    active.push(bot)
                }),
                BotEvent::Disconnect { .. } => {
                    &&& forall|i: int| 0 <= i < after.len() ==> (#[trigger] after[i]).uuid != bot.uuid
                    &&& forall|i: int|
                        0 <= i < active.len() && (#[trigger] active[i]).uuid != bot.uuid
                            ==> after.contains(active[i])
                    &&& !here ==> after == active
                },
                _ => after == active,
            }
        }),
{
    if event is Disconnect {
        crate::active::law_going_takes_one_bot_only(active, bot.uuid);
    }
}

/// The terminal says that it takes input when the first bot is in the game, and not
/// again; it shows what is said with its colours.
pub proof fn law_welcome_is_said_once(state: BotState, welcome_printed: bool, event: BotEvent)
    ensures
        ({
            let done = console_actions(state, welcome_printed, event);
            match event {
                BotEvent::Spawn { username } => {
                    &&& done[0] == ActionView::Print(
                        "机器人 "@ + username@ + " 已成功在世界中生成！"@,
                    )
                    &&& welcome_printed ==> done.len() == 1
                    &&& !welcome_printed ==> done.len() == 2 && done[1] == ActionView::Print(
                        "挂机控制台就绪！输入任何内容并回车，都将直接发送到服务器聊天中。"@,
                    )
                },
                BotEvent::Chat { ansi } => done.len() == 1 && done[0] == ActionView::Print(ansi@),
                BotEvent::Tick { .. } => done == state.tick_actions(),
                BotEvent::Disconnect { reason } => done.len() == 1 && done[0] == ActionView::Print(
                    "已与服务器断开连接: "@ + reason@,
                ),
                BotEvent::Other => done.len() == 0,
            }
        }),
{
}

} // verus!
