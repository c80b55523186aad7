//! What the web console asks for.

use vstd::prelude::*;

use crate::manager::BotCommand;

verus! {

/// A request about one bot.
pub struct ActionPayload {
    pub server: Option<String>,
    pub alias: String,
}

/// A request that a bot say something.
pub struct ChatPayload {
    pub alias: String,
    pub message: String,
}

/// The command and the reply to a request to start a bot, or the complaint that the
/// server is missing.
pub fn post_start<C>(payload: ActionPayload) -> (res: Result<
    (BotCommand<C>, &'static str),
    &'static str,
>)
    ensures
        match payload.server {
            Some(server) => {
                &&& res matches Ok((command, reply))
                &&& command == (BotCommand::<C>::Start { server, alias: payload.alias })
                &&& reply@ == "已发送启动指令"@
            },
            None => res matches Err(complaint) && complaint@ == "缺少 server 参数"@,
        },
{
    match payload.server {
        Some(server) => Ok(
            (BotCommand::Start { server, alias: payload.alias }, "已发送启动指令"),
        ),
        None => Err("缺少 server 参数"),
    }
}

/// The command and the reply to a request to stop a bot.
pub fn post_stop<C>(payload: ActionPayload) -> (res: (BotCommand<C>, &'static str))
    ensures
        res.0 == (BotCommand::<C>::Stop { alias: payload.alias }),
        res.1@ == "已发送停止指令"@,
{
    (BotCommand::Stop { alias: payload.alias }, "已发送停止指令")
}

/// The command and the reply to a request that a bot say something.
pub fn post_send<C>(payload: ChatPayload) -> (res: (BotCommand<C>, &'static str))
    ensures
        res.0 == (BotCommand::<C>::SendChat { alias: payload.alias, message: payload.message }),
        res.1@ == "已发送聊天内容"@,
{
    (BotCommand::SendChat { alias: payload.alias, message: payload.message }, "已发送聊天内容")
}

} // verus!
