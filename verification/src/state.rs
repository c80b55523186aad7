//! What the web console shows: the bots, how they are doing, and the log.

use std::collections::VecDeque;

use vstd::prelude::*;

use crate::clock::is_time_of_day;
use crate::clock::time_of_day;
use crate::config::AppConfig;
use crate::config::BotConfig;
use crate::table::Table;
use crate::text::joined;

verus! {

/// How many lines the log keeps.
pub const LOG_LIMIT: usize = 1000;

/// How a bot is doing.
#[derive(Debug, PartialEq, Eq)]
pub struct WebBotStatus {
    pub online: bool,
    pub connecting: bool,
    /// For how many ticks the bot has been connected.
    pub delay: u64,
    /// Where the bot stands.
    pub pos: String,
}

/// How a bot is doing, as a mathematical value.
pub struct StatusView {
    pub online: bool,
    pub connecting: bool,
    pub delay: u64,
    pub pos: Seq<char>,
}

impl View for WebBotStatus {
    type V = StatusView;

    open spec fn view(&self) -> StatusView {
        StatusView {
            online: self.online,
            connecting: self.connecting,
            delay: self.delay,
            pos: self.pos@,
        }
    }
}

/// A line of the log.
#[derive(Debug, PartialEq, Eq)]
pub struct LogMessage {
    pub time: String,
    pub alias: String,
    pub message: String,
    pub is_error: bool,
    pub is_system: bool,
}

/// A line of the log, as a mathematical value.
pub struct LogView {
    pub time: Seq<char>,
    pub alias: Seq<char>,
    pub message: Seq<char>,
    pub is_error: bool,
    pub is_system: bool,
}

impl View for LogMessage {
    type V = LogView;

    open spec fn view(&self) -> LogView {
        LogView {
            time: self.time@,
            alias: self.alias@,
            message: self.message@,
            is_error: self.is_error,
            is_system: self.is_system,
        }
    }
}

/// The bots that are configured, how each is doing, and the log.
pub struct GlobalAppState {
    pub configs: Table<BotConfig>,
    pub status: Table<WebBotStatus>,
    pub logs: VecDeque<LogMessage>,
}

/// The key of a bot: its server and its alias, with a bar between them.
pub open spec fn key_of(server: Seq<char>, alias: Seq<char>) -> Seq<char> {
    server + "|"@ + alias
}

/// Makes the key of a bot.
pub fn bot_key(server: &str, alias: &str) -> (res: String)
    ensures
        res@ == key_of(server@, alias@),
{
    joined(server, "|", alias)
}

/// Two bots have the same key only if they are the same, as long as no bar stands
/// in the names of their servers.
pub proof fn law_keys_tell_bots_apart(
    server: Seq<char>,
    alias: Seq<char>,
    other_server: Seq<char>,
    other_alias: Seq<char>,
)
    requires
        !server.contains('|'),
        !other_server.contains('|'),
        key_of(server, alias) == key_of(other_server, other_alias),
    ensures
        server == other_server,
        alias == other_alias,
{
    reveal_strlit("|");
    let a = key_of(server, alias);
    let b = key_of(other_server, other_alias);
    assert(a[server.len() as int] == '|');
    assert(b[other_server.len() as int] == '|');
    if server.len() < other_server.len() {
        assert(other_server[server.len() as int] == b[server.len() as int]);
    }
    if other_server.len() < server.len() {
        assert(server[other_server.len() as int] == a[other_server.len() as int]);
    }
    assert forall|i: int| 0 <= i < server.len() implies server[i] == other_server[i] by {
        assert(a[i] == b[i]);
    }
    assert(server =~= other_server);
    assert(a.len() == server.len() + 1 + alias.len());
    assert(b.len() == server.len() + 1 + other_alias.len());
    assert forall|i: int| 0 <= i < alias.len() implies alias[i] == other_alias[i] by {
        assert(a[server.len() + 1 + i] == b[server.len() + 1 + i]);
    }
    assert(alias =~= other_alias);
}

/// The log with one line more, without its oldest line where it would get too long.
pub open spec fn logged(logs: Seq<LogView>, line: LogView) -> Seq<LogView> {
    let all = logs.push(line);
    if all.len() > LOG_LIMIT {
        all.drop_first()
    } else {
        all
    }
}

/// The log after several lines, one after the other.
pub open spec fn logged_all(logs: Seq<LogView>, lines: Seq<LogView>) -> Seq<LogView>
    decreases lines.len(),
{
    if lines.len() == 0 {
        logs
    } else {
        logged(logged_all(logs, lines.drop_last()), lines.last())
    }
}

/// The log holds the newest lines, as many as its limit allows, in the order in
/// which they came; none is lost before the limit is reached.
pub proof fn law_log_keeps_the_newest_lines(logs: Seq<LogView>, lines: Seq<LogView>)
    requires
        logs.len() <= LOG_LIMIT,
    ensures
        ({
            let all = logs + lines;
            logged_all(logs, lines) == all.skip(
                if all.len() > LOG_LIMIT {
                    all.len() - LOG_LIMIT
                } else {
                    0
                },
            )
        }),
    decreases lines.len(),
{
    let all = logs + lines;
    if lines.len() == 0 {
        assert(all.skip(0) =~= logs);
    } else {
        law_log_keeps_the_newest_lines(logs, lines.drop_last());
        assert(all.drop_last() =~= logs + lines.drop_last());
        assert(all.last() == lines.last());
        let kept = logged_all(logs, lines);
        assert(kept =~= all.skip(
            if all.len() > LOG_LIMIT {
                all.len() - LOG_LIMIT
            } else {
                0
            },
        ));
    }
}

/// Whether `after` is the log `before` with this line more, at some time of day.
pub open spec fn log_added(
    before: Seq<LogView>,
    after: Seq<LogView>,
    alias: Seq<char>,
    message: Seq<char>,
    is_error: bool,
    is_system: bool,
) -> bool {
    exists|time: Seq<char>|
        {
            &&& #[trigger] is_time_of_day(time)
            &&& after == logged(before, LogView { time, alias, message, is_error, is_system })
        }
}

/// The statuses after a change to the one under `key`; there may be none.
pub open spec fn changed(
    statuses: Map<Seq<char>, StatusView>,
    key: Seq<char>,
    change: spec_fn(StatusView) -> StatusView,
) -> Map<Seq<char>, StatusView> {
    if statuses.contains_key(key) {
        statuses.insert(key, change(statuses[key]))
    } else {
        statuses
    }
}

/// The status of a bot that was never started.
pub open spec fn idle() -> StatusView {
    StatusView { online: false, connecting: false, delay: 0, pos: "--"@ }
}

/// The configured bots of one server, under their keys, on top of `before`.
pub open spec fn server_bots(
    before: Map<Seq<char>, BotConfig>,
    server: Seq<char>,
    bots: Seq<(String, BotConfig)>,
) -> Map<Seq<char>, BotConfig>
    decreases bots.len(),
{
    if bots.len() == 0 {
        before
    } else {
        server_bots(before, server, bots.drop_last()).insert(
            key_of(server, bots.last().0@),
            bots.last().1,
        )
    }
}

/// All configured bots, under their keys.
pub open spec fn all_bots(config: Seq<(String, Vec<(String, BotConfig)>)>) -> Map<
    Seq<char>,
    BotConfig,
>
    decreases config.len(),
{
    if config.len() == 0 {
        Map::empty()
    } else {
        server_bots(all_bots(config.drop_last()), config.last().0@, config.last().1@)
    }
}

/// Every bot that is configured is there.
pub proof fn law_every_configured_bot_is_there(
    config: Seq<(String, Vec<(String, BotConfig)>)>,
    i: int,
    j: int,
)
    requires
        0 <= i < config.len(),
        0 <= j < config[i].1@.len(),
    ensures
        all_bots(config).contains_key(key_of(config[i].0@, config[i].1@[j].0@)),
    decreases config.len(),
{
    let k = key_of(config[i].0@, config[i].1@[j].0@);
    let before = all_bots(config.drop_last());
    if i == config.len() - 1 {
        lemma_server_bots(before, config.last().0@, config.last().1@, j);
    } else {
        law_every_configured_bot_is_there(config.drop_last(), i, j);
        lemma_server_bots_keep(before, config.last().0@, config.last().1@, k);
    }
}

proof fn lemma_server_bots(
    before: Map<Seq<char>, BotConfig>,
    server: Seq<char>,
    bots: Seq<(String, BotConfig)>,
    j: int,
)
    requires
        0 <= j < bots.len(),
    ensures
        server_bots(before, server, bots).contains_key(key_of(server, bots[j].0@)),
    decreases bots.len(),
{
    if j < bots.len() - 1 {
        lemma_server_bots(before, server, bots.drop_last(), j);
    }
}

proof fn lemma_server_bots_keep(
    before: Map<Seq<char>, BotConfig>,
    server: Seq<char>,
    bots: Seq<(String, BotConfig)>,
    k: Seq<char>,
)
    requires
        before.contains_key(k),
    ensures
        server_bots(before, server, bots).contains_key(k),
    decreases bots.len(),
{
    if bots.len() > 0 {
        lemma_server_bots_keep(before, server, bots.drop_last(), k);
    }
}

impl GlobalAppState {
    /// Whether the state is in order: every configured bot has a status and the
    /// other way round, and the log is no longer than its limit.
    pub open spec fn wf(&self) -> bool {
        &&& self.configs.wf()
        &&& self.status.wf()
        &&& self.configs@.dom() == self.status@.dom()
        &&& self.logs@.len() <= LOG_LIMIT
    }

    /// How every bot is doing.
    pub open spec fn statuses(&self) -> Map<Seq<char>, StatusView> {
        self.status@.map_values(|s: WebBotStatus| s@)
    }

    /// The lines of the log, the oldest first.
    pub open spec fn lines(&self) -> Seq<LogView> {
        Seq::new(self.logs@.len(), |i: int| self.logs@[i]@)
    }

    /// Adds a line with the given time to the log.
    pub fn add_log_at(
        &mut self,
        time: String,
        alias: &str,
        msg: &str,
        is_error: bool,
        is_system: bool,
    )
        ensures
            final(self).lines() == logged(
                old(self).lines(),
                (LogView { time: time@, alias: alias@, message: msg@, is_error, is_system }),
            ),
            final(self).configs == old(self).configs,
            final(self).status == old(self).status,
            old(self).wf() ==> final(self).wf(),
    {
        let ghost line = LogView { time: time@, alias: alias@, message: msg@, is_error, is_system };
        self.logs.push_back(
            LogMessage {
                time,
                alias: alias.to_string(),
                message: msg.to_string(),
                is_error,
                is_system,
            },
        );
        assert(self.lines() =~= old(self).lines().push(line));
        if self.logs.len() > LOG_LIMIT {
            self.logs.pop_front();
            assert(self.lines() =~= old(self).lines().push(line).drop_first());
        }
    }

    /// Adds a line to the log, with the time of day.
    pub fn add_log(&mut self, alias: &str, msg: &str, is_error: bool, is_system: bool)
        ensures
            log_added(
                old(self).lines(),
                final(self).lines(),
                alias@,
                msg@,
                is_error,
                is_system,
            ),
            final(self).configs == old(self).configs,
            final(self).status == old(self).status,
            old(self).wf() ==> final(self).wf(),
    {
        let time: String = time_of_day();
        assert(is_time_of_day(time@));
        self.add_log_at(time, alias, msg, is_error, is_system);
    }

    /// Hands all lines of the log out, the oldest first, and leaves it empty.
    pub fn get_logs(&mut self) -> (res: Vec<LogMessage>)
        ensures
            res@ == old(self).logs@,
            final(self).logs@ == Seq::<LogMessage>::empty(),
            final(self).configs == old(self).configs,
            final(self).status == old(self).status,
            old(self).wf() ==> final(self).wf(),
    {
        let mut res: Vec<LogMessage> = Vec::new();
        assert(self.logs@ =~= old(self).logs@.skip(0));
        loop
            invariant
                self.configs == old(self).configs,
                self.status == old(self).status,
                res@.len() <= old(self).logs@.len(),
                res@ == old(self).logs@.take(res@.len() as int),
                self.logs@ == old(self).logs@.skip(res@.len() as int),
            ensures
                self.logs@.len() == 0,
            decreases self.logs@.len(),
        {
            match self.logs.pop_front() {
                Some(line) => {
                    res.push(line);
                    assert(res@ =~= old(self).logs@.take(res@.len() as int));
                    assert(self.logs@ =~= old(self).logs@.skip(res@.len() as int));
                },
                None => {
                    break;
                },
            }
        }
        assert(res@ =~= old(self).logs@);
        res
    }

    /// Notes that a bot is being started, or that its start failed.
    pub fn set_connecting(&mut self, key: &str, connecting: bool)
        requires
            old(self).wf(),
        ensures
            final(self).wf(),
            final(self).statuses() == changed(
                old(self).statuses(),
                key@,
                |s: StatusView| StatusView { connecting, ..s },
            ),
            final(self).configs == old(self).configs,
            final(self).logs == old(self).logs,
    {
        match self.status.get_mut(key) {
            Some(status) => {
                status.connecting = connecting;
            },
            None => {},
        }
        assert(self.statuses() =~= changed(
            old(self).statuses(),
            key@,
            |s: StatusView| StatusView { connecting, ..s },
        ));
        assert(self.status@.dom() =~= old(self).status@.dom());
    }

    /// Notes that a bot has come online or gone offline; either way it is no longer
    /// connecting.
    pub fn set_online(&mut self, key: &str, online: bool)
        requires
            old(self).wf(),
        ensures
            final(self).wf(),
            final(self).statuses() == changed(
                old(self).statuses(),
                key@,
                |s: StatusView| StatusView { online, connecting: false, ..s },
            ),
            final(self).configs == old(self).configs,
            final(self).logs == old(self).logs,
    {
        match self.status.get_mut(key) {
            Some(status) => {
                status.online = online;
                status.connecting = false;
            },
            None => {},
        }
        assert(self.statuses() =~= changed(
            old(self).statuses(),
            key@,
            |s: StatusView| StatusView { online, connecting: false, ..s },
        ));
        assert(self.status@.dom() =~= old(self).status@.dom());
    }

    /// Notes where a bot stands and for how many ticks it has been connected.
    pub fn set_position(&mut self, key: &str, pos: String, delay: u64)
        requires
            old(self).wf(),
        ensures
            final(self).wf(),
            final(self).statuses() == changed(
                old(self).statuses(),
                key@,
                |s: StatusView| StatusView { pos: pos@, delay, ..s },
            ),
            final(self).configs == old(self).configs,
            final(self).logs == old(self).logs,
    {
        let ghost p = pos@;
        match self.status.get_mut(key) {
            Some(status) => {
                status.pos = pos;
                status.delay = delay;
            },
            None => {},
        }
        assert(self.statuses() =~= changed(
            old(self).statuses(),
            key@,
            |s: StatusView| StatusView { pos: p, delay, ..s },
        ));
        assert(self.status@.dom() =~= old(self).status@.dom());
    }

    /// The state at the start: all configured bots, none of them started, and an
    /// empty log. Where two bots have the same key, the later one counts.
    pub fn from_config(config: AppConfig) -> (res: GlobalAppState)
        ensures
            res.wf(),
            res.configs@ == all_bots(config@),
            res.statuses() == all_bots(config@).map_values(|c: BotConfig| idle()),
            res.lines() == Seq::<LogView>::empty(),
    {
        let mut res = GlobalAppState {
            configs: Table::new(),
            status: Table::new(),
            logs: VecDeque::new(),
        };
        assert(res.lines() =~= Seq::<LogView>::empty());
        assert(res.statuses() =~= res.configs@.map_values(|c: BotConfig| idle()));
        assert(res.configs@.dom() =~= res.status@.dom());
        for server in it: config
            invariant
                it.seq() == config@,
                res.wf(),
                res.logs@.len() == 0,
                res.configs@ == all_bots(config@.take(it.index() as int)),
                res.statuses() == res.configs@.map_values(|c: BotConfig| idle()),
        {
            let ghost before = res.configs@;
            let ghost name = server.0@;
            let ghost bots = server.1@;
            assert(config@.take(it.index() + 1).drop_last() =~= config@.take(it.index() as int));
            for bot in inner: server.1
                invariant
                    inner.seq() == bots,
                    name == server.0@,
                    res.wf(),
                    res.logs@.len() == 0,
                    res.configs@ == server_bots(before, name, bots.take(inner.index() as int)),
                    res.statuses() == res.configs@.map_values(|c: BotConfig| idle()),
            {
                let ghost was = res.configs@;
                let ghost had = res.statuses();
                assert(bots.take(inner.index() + 1).drop_last() =~= bots.take(
                    inner.index() as int,
                ));
                let key: String = bot_key(server.0.as_str(), bot.0.as_str());
                let ghost k = key@;
                let again: String = key.clone();
                res.configs.insert(key, bot.1);
                res.status.insert(
                    again,
                    WebBotStatus {
                        online: false,
                        connecting: false,
                        delay: 0,
                        pos: "--".to_string(),
                    },
                );
                assert(res.statuses() =~= had.insert(k, idle()));
                assert(res.statuses() =~= res.configs@.map_values(|c: BotConfig| idle()));
                assert(res.configs@.dom() =~= res.status@.dom());
            }
            assert(bots.take(bots.len() as int) =~= bots);
        }
        assert(config@.take(config@.len() as int) =~= config@);
        assert(res.lines() =~= Seq::<LogView>::empty());
        res
    }
}

/// The key of a bot is the name of its server, a bar and its alias.
pub proof fn law_key_is_server_bar_alias(server: Seq<char>, alias: Seq<char>)
    ensures
        key_of(server, alias) == server.push('|') + alias,
{
    reveal_strlit("|");
    assert(key_of(server, alias) =~= server.push('|') + alias);
}

/// A line that is logged comes last, with what it says, whom it is about and what
/// kind of line it is, at a time of day. Up to a thousand lines nothing is lost; from
/// there on each line takes the place of the oldest.
pub proof fn law_a_logged_line_comes_last(
    before: Seq<LogView>,
    after: Seq<LogView>,
    alias: Seq<char>,
    message: Seq<char>,
    is_error: bool,
    is_system: bool,
)
    requires
        before.len() <= 1000,
        log_added(before, after, alias, message, is_error, is_system),
    ensures
        after.len() > 0,
        after.last().alias == alias,
        after.last().message == message,
        after.last().is_error == is_error,
        after.last().is_system == is_system,
        is_time_of_day(after.last().time),
        before.len() < 1000 ==> after.drop_last() == before,
        before.len() == 1000 ==> after.drop_last() == before.drop_first(),
{
    let time = choose|time: Seq<char>|
        {
            &&& #[trigger] is_time_of_day(time)
            &&& after == logged(before, LogView { time, alias, message, is_error, is_system })
        };
    if before.len() < 1000 {
        assert(after.drop_last() =~= before);
    } else {
        assert(after.drop_last() =~= before.drop_first());
    }
}

/// The last thousand of all lines are kept, in order, however many come.
pub proof fn law_log_keeps_a_thousand_lines(lines: Seq<LogView>)
    ensures
        lines.len() <= 1000 ==> logged_all(Seq::empty(), lines) == lines,
        lines.len() > 1000 ==> logged_all(Seq::empty(), lines) == lines.skip(lines.len() - 1000),
{
    law_log_keeps_the_newest_lines(Seq::empty(), lines);
    assert(Seq::<LogView>::empty() + lines =~= lines);
    assert(lines.skip(0) =~= lines);
}

/// A change to one bot's status changes that one, as it says, and no other; it makes
/// no bot appear or vanish.
pub proof fn law_a_change_touches_one_bot(
    statuses: Map<Seq<char>, StatusView>,
    key: Seq<char>,
    change: spec_fn(StatusView) -> StatusView,
    other: Seq<char>,
)
    requires
        other != key,
    ensures
        changed(statuses, key, change).dom() == statuses.dom(),
        statuses.contains_key(key) ==> changed(statuses, key, change)[key] == change(statuses[key]),
        statuses.contains_key(other) ==> changed(statuses, key, change)[other] == statuses[other],
{
    assert(changed(statuses, key, change).dom() =~= statuses.dom());
}

/// A bot that was never started is neither online nor connecting, has been there for
/// no time, and stands nowhere: two dashes.
pub proof fn law_idle_is_nothing_at_all()
    ensures
        !idle().online,
        !idle().connecting,
        idle().delay == 0,
        idle().pos == seq!['-', '-'],
{
    reveal_strlit("--");
    assert("--"@ =~= seq!['-', '-']);
}

proof fn lemma_server_bots_value(
    before: Map<Seq<char>, BotConfig>,
    server: Seq<char>,
    bots: Seq<(String, BotConfig)>,
    j: int,
)
    requires
        0 <= j < bots.len(),
        forall|n: int|
            j < n < bots.len() ==> key_of(server, (#[trigger] bots[n]).0@) != key_of(
                server,
                bots[j].0@,
            ),
    ensures
        server_bots(before, server, bots)[key_of(server, bots[j].0@)] == bots[j].1,
    decreases bots.len(),
{
    if j < bots.len() - 1 {
        let less = bots.drop_last();
        assert(key_of(server, bots[bots.len() - 1].0@) != key_of(server, bots[j].0@));
        assert forall|n: int| j < n < less.len() implies key_of(server, (#[trigger] less[n]).0@)
            != key_of(server, less[j].0@) by {
            assert(less[n] == bots[n]);
        }
        lemma_server_bots_value(before, server, less, j);
        lemma_server_bots(before, server, less, j);
    }
}

proof fn lemma_server_bots_others(
    before: Map<Seq<char>, BotConfig>,
    server: Seq<char>,
    bots: Seq<(String, BotConfig)>,
    k: Seq<char>,
)
    requires
        forall|n: int| 0 <= n < bots.len() ==> key_of(server, (#[trigger] bots[n]).0@) != k,
    ensures
        server_bots(before, server, bots).contains_key(k) == before.contains_key(k),
        server_bots(before, server, bots)[k] == before[k],
    decreases bots.len(),
{
    if bots.len() > 0 {
        let less = bots.drop_last();
        assert(key_of(server, bots[bots.len() - 1].0@) != k);
        assert forall|n: int| 0 <= n < less.len() implies key_of(server, (#[trigger] less[n]).0@)
            != k by {
            assert(less[n] == bots[n]);
        }
        lemma_server_bots_others(before, server, less, k);
    }
}

/// Under the key of a bot stands what is configured for it, unless one with the same
/// key comes later.
pub proof fn law_the_later_bot_counts(
    config: Seq<(String, Vec<(String, BotConfig)>)>,
    i: int,
    j: int,
)
    requires
        0 <= i < config.len(),
        0 <= j < config[i].1@.len(),
        forall|n: int|
            j < n < config[i].1@.len() ==> key_of(config[i].0@, (#[trigger] config[i].1@[n]).0@)
                != key_of(config[i].0@, config[i].1@[j].0@),
        forall|m: int, n: int|
            i < m < config.len() && 0 <= n < config[m].1@.len() ==> key_of(
                config[m].0@,
                (#[trigger] config[m].1@[n]).0@,
            ) != key_of(config[i].0@, config[i].1@[j].0@),
    ensures
        all_bots(config)[key_of(config[i].0@, config[i].1@[j].0@)] == config[i].1@[j].1,
    decreases config.len(),
{
    let k = key_of(config[i].0@, config[i].1@[j].0@);
    let before = all_bots(config.drop_last());
    let last = config.len() - 1;
    if i == last {
        lemma_server_bots_value(before, config[last].0@, config[last].1@, j);
    } else {
        let less = config.drop_last();
        assert(less[i] == config[i]);
        assert forall|n: int| 0 <= n < config[last].1@.len() implies key_of(
            config[last].0@,
            (#[trigger] config[last].1@[n]).0@,
        ) != k by {}
        lemma_server_bots_others(before, config[last].0@, config[last].1@, k);
        assert forall|m: int, n: int|
            i < m < less.len() && 0 <= n < less[m].1@.len() implies key_of(
            less[m].0@,
            (#[trigger] less[m].1@[n]).0@,
        ) != k by {
            assert(less[m] == config[m]);
            assert(config[m].1@[n] == less[m].1@[n]);
        }
        law_the_later_bot_counts(less, i, j);
    }
}

/// Nothing stands under a key that no configured bot has.
pub proof fn law_only_configured_bots_are_there(
    config: Seq<(String, Vec<(String, BotConfig)>)>,
    k: Seq<char>,
)
    requires
        forall|i: int, j: int|
            0 <= i < config.len() && 0 <= j < config[i].1@.len() ==> key_of(
                config[i].0@,
                (#[trigger] config[i].1@[j]).0@,
            ) != k,
    ensures
        !all_bots(config).contains_key(k),
    decreases config.len(),
{
    if config.len() > 0 {
        let less = config.drop_last();
        let last = config.len() - 1;
        assert forall|n: int| 0 <= n < config[last].1@.len() implies key_of(
            config[last].0@,
            (#[trigger] config[last].1@[n]).0@,
        ) != k by {}
        lemma_server_bots_others(all_bots(less), config[last].0@, config[last].1@, k);
        assert forall|i: int, j: int|
            0 <= i < less.len() && 0 <= j < less[i].1@.len() implies key_of(
            less[i].0@,
            (#[trigger] less[i].1@[j]).0@,
        ) != k by {
            assert(less[i] == config[i]);
            assert(config[i].1@[j] == less[i].1@[j]);
        }
        law_only_configured_bots_are_there(less, k);
    }
}

/// What the console shows of a state is all there is: every status and every line,
/// with everything in it. A state in order has a status for every configured bot and
/// for no other, and at most a thousand lines.
pub proof fn law_the_console_shows_everything(state: GlobalAppState, i: int, key: Seq<char>)
    ensures
        state.lines().len() == state.logs@.len(),
        0 <= i < state.logs@.len() ==> {
            let shown = state.lines()[i];
            let line = state.logs@[i];
            &&& shown.time == line.time@
            &&& shown.alias == line.alias@
            &&& shown.message == line.message@
            &&& shown.is_error == line.is_error
            &&& shown.is_system == line.is_system
        },
        state.statuses().contains_key(key) == state.status@.contains_key(key),
        state.status@.contains_key(key) ==> {
            let shown = state.statuses()[key];
            let status = state.status@[key];
            &&& shown.online == status.online
            &&& shown.connecting == status.connecting
            &&& shown.delay == status.delay
            &&& shown.pos == status.pos@
        },
        state.wf() ==> {
            &&& state.status@.contains_key(key) == state.configs@.contains_key(key)
            &&& state.logs@.len() <= 1000
        },
{
    if state.wf() {
        assert(state.status@.contains_key(key) == state.status@.dom().contains(key));
        assert(state.configs@.contains_key(key) == state.configs@.dom().contains(key));
    }
}

} // verus!
