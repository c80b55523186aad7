//! The command line.

use vstd::prelude::*;

use crate::config::direction;
use crate::decimal::number;
use crate::decimal::parse_number;
use crate::text::contains_char;
use crate::text::joined;
use crate::text::same_text;
use crate::text::views;

verus! {

/// What the program was called for.
#[derive(Debug, PartialEq, Eq)]
pub enum Invocation {
    /// Run the web console for the bots of the configuration file.
    Web,
    /// Log in and keep the account under an alias.
    LoginOnly { email: String, alias: String },
    /// Log in, keep the account under an alias, and connect.
    Bind { server: String, email: String, alias: String },
    /// Connect with the account that is kept under an alias.
    UseAlias { server: String, alias: String },
}

/// What the program was called for, as a mathematical value.
pub enum InvocationView {
    Web,
    LoginOnly { email: Seq<char>, alias: Seq<char> },
    Bind { server: Seq<char>, email: Seq<char>, alias: Seq<char> },
    UseAlias { server: Seq<char>, alias: Seq<char> },
}

impl View for Invocation {
    type V = InvocationView;

    open spec fn view(&self) -> InvocationView {
        match self {
            Invocation::Web => InvocationView::Web,
            Invocation::LoginOnly { email, alias } => InvocationView::LoginOnly {
                email: email@,
                alias: alias@,
            },
            Invocation::Bind { server, email, alias } => InvocationView::Bind {
                server: server@,
                email: email@,
                alias: alias@,
            },
            Invocation::UseAlias { server, alias } => InvocationView::UseAlias {
                server: server@,
                alias: alias@,
            },
        }
    }
}

/// Why a call of the program comes to nothing.
#[derive(Debug, PartialEq, Eq)]
pub enum CliError {
    /// There are too few arguments.
    MissingArguments,
    /// There is an account to log in with, but no alias to keep it under.
    MissingAlias,
    /// There is no file with an account under this alias.
    KeyFileMissing { alias: String },
    /// The file with the account could not be read.
    KeyFileUnreadable { alias: String, error: String },
    /// The file with the account could not be deciphered.
    KeyFileSealed { alias: String },
    /// The file holds no account.
    NoAccount,
    /// An angle after `look` is no number.
    LookNotNumeric,
    /// There are not two words after `look`.
    LookIncomplete,
    /// A word that is no option.
    UnknownArgument { argument: String },
}

/// Why a call of the program comes to nothing, as a mathematical value.
pub enum CliErrorView {
    MissingArguments,
    MissingAlias,
    KeyFileMissing { alias: Seq<char> },
    KeyFileUnreadable { alias: Seq<char>, error: Seq<char> },
    KeyFileSealed { alias: Seq<char> },
    NoAccount,
    LookNotNumeric,
    LookIncomplete,
    UnknownArgument { argument: Seq<char> },
}

impl View for CliError {
    type V = CliErrorView;

    open spec fn view(&self) -> CliErrorView {
        match self {
            CliError::MissingArguments => CliErrorView::MissingArguments,
            CliError::MissingAlias => CliErrorView::MissingAlias,
            CliError::KeyFileMissing { alias } => CliErrorView::KeyFileMissing { alias: alias@ },
            CliError::KeyFileUnreadable { alias, error } => CliErrorView::KeyFileUnreadable {
                alias: alias@,
                error: error@,
            },
            CliError::KeyFileSealed { alias } => CliErrorView::KeyFileSealed { alias: alias@ },
            CliError::NoAccount => CliErrorView::NoAccount,
            CliError::LookNotNumeric => CliErrorView::LookNotNumeric,
            CliError::LookIncomplete => CliErrorView::LookIncomplete,
            CliError::UnknownArgument { argument } => CliErrorView::UnknownArgument {
                argument: argument@,
            },
        }
    }
}

/// What is said about an error.
pub open spec fn complaint(error: CliErrorView) -> Seq<char> {
    match error {
        CliErrorView::MissingArguments =>
            "[错误] 缺少必要参数。\n命令行用法说明:\n  1. 仅登录绑定别名 (仅生成 <别名>.key 授权文件，不需要服务器IP):\n     azalea_bot.exe <微软邮箱> <别名>\n  2. 使用别名启动 (自动多开，读取 config.yml，无需参数):\n     azalea_bot.exe\n  3. 命令行直接连接服务器并启动:\n     azalea_bot.exe <服务器地址> <别名> [look <y> <p>] [use [<ticks>]] [atk [<ticks>]]"@,
        CliErrorView::MissingAlias => "[错误] 首次登录绑定别名必须提供别名参数！"@,
        CliErrorView::KeyFileMissing { alias } => "[错误] 找不到别名 '"@ + alias
            + "' 对应的授权文件 '"@ + alias + ".key'！"@,
        CliErrorView::KeyFileUnreadable { alias, error } => "[错误] 读取授权文件 "@ + alias
            + ".key 失败: "@ + error,
        CliErrorView::KeyFileSealed { alias } => "[错误] 授权文件 "@ + alias
            + ".key 解密失败！"@,
        CliErrorView::NoAccount => "[错误] 授权文件中未找到已缓存的账号！"@,
        CliErrorView::LookNotNumeric => "[错误] 视角偏角必须是数字。"@,
        CliErrorView::LookIncomplete => "[错误] 'look' 参数不完整。"@,
        CliErrorView::UnknownArgument { argument } => "[错误] 未知的命令参数: '"@ + argument
            + "'"@,
    }
}

impl CliError {
    /// Says what is wrong.
    pub fn message(&self) -> (res: String)
        ensures
            res@ == complaint(self@),
    {
        proof {
            reveal_strlit("");
        }
        match self {
            CliError::MissingArguments =>
                "[错误] 缺少必要参数。\n命令行用法说明:\n  1. 仅登录绑定别名 (仅生成 <别名>.key 授权文件，不需要服务器IP):\n     azalea_bot.exe <微软邮箱> <别名>\n  2. 使用别名启动 (自动多开，读取 config.yml，无需参数):\n     azalea_bot.exe\n  3. 命令行直接连接服务器并启动:\n     azalea_bot.exe <服务器地址> <别名> [look <y> <p>] [use [<ticks>]] [atk [<ticks>]]".to_string(),
            CliError::MissingAlias => "[错误] 首次登录绑定别名必须提供别名参数！".to_string(),
            CliError::KeyFileMissing { alias } => {
                let start: String = joined(
                    "[错误] 找不到别名 '",
                    alias.as_str(),
                    "' 对应的授权文件 '",
                );
                joined(start.as_str(), alias.as_str(), ".key'！")
            },
            CliError::KeyFileUnreadable { alias, error } => {
                let start: String = joined("[错误] 读取授权文件 ", alias.as_str(), ".key 失败: ");
                let res: String = joined(start.as_str(), error.as_str(), "");
                assert(res@ =~= start@ + error@);
                res
            },
            CliError::KeyFileSealed { alias } => joined(
                "[错误] 授权文件 ",
                alias.as_str(),
                ".key 解密失败！",
            ),
            CliError::NoAccount => "[错误] 授权文件中未找到已缓存的账号！".to_string(),
            CliError::LookNotNumeric => "[错误] 视角偏角必须是数字。".to_string(),
            CliError::LookIncomplete => "[错误] 'look' 参数不完整。".to_string(),
            CliError::UnknownArgument { argument } => joined(
                "[错误] 未知的命令参数: '",
                argument.as_str(),
                "'",
            ),
        }
    }
}

/// What a command line, the program's own name included, calls for, and at which
/// place its options start.
pub open spec fn invocation(args: Seq<Seq<char>>) -> Result<(InvocationView, int), CliErrorView> {
    if args.len() == 1 {
        Ok((InvocationView::Web, 1))
    } else if args.len() < 3 {
        Err(CliErrorView::MissingArguments)
    } else if args.len() == 3 && args[1].contains('@') {
        Ok((InvocationView::LoginOnly { email: args[1], alias: args[2] }, 3))
    } else if args[2].contains('@') {
        if args.len() < 4 {
            Err(CliErrorView::MissingAlias)
        } else {
            Ok((InvocationView::Bind { server: args[1], email: args[2], alias: args[3] }, 4))
        }
    } else {
        Ok((InvocationView::UseAlias { server: args[1], alias: args[2] }, 3))
    }
}

/// Finds out what the program was called for.
pub fn parse_invocation(args: &Vec<String>) -> (res: Result<(Invocation, usize), CliError>)
    ensures
        match res {
            Ok((called_for, start)) => invocation(views(args@)) == Ok::<_, CliErrorView>(
                (called_for@, start as int),
            ),
            Err(error) => invocation(views(args@)) == Err::<(InvocationView, int), _>(error@),
        },
{
    if args.len() == 1 {
        return Ok((Invocation::Web, 1));
    }
    if args.len() < 3 {
        return Err(CliError::MissingArguments);
    }
    if args.len() == 3 && contains_char(args[1].as_str(), '@') {
        return Ok((Invocation::LoginOnly { email: args[1].clone(), alias: args[2].clone() }, 3));
    }
    if contains_char(args[2].as_str(), '@') {
        if args.len() < 4 {
            return Err(CliError::MissingAlias);
        }
        Ok(
            (
                Invocation::Bind {
                    server: args[1].clone(),
                    email: args[2].clone(),
                    alias: args[3].clone(),
                },
                4,
            ),
        )
    } else {
        Ok((Invocation::UseAlias { server: args[1].clone(), alias: args[2].clone() }, 3))
    }
}

/// What came of looking for the account that is kept under an alias.
pub enum KeyFile {
    /// There is no file.
    Missing,
    /// The file could not be read.
    Unreadable { error: String },
    /// The file was read and deciphered; it holds these accounts, or it could not
    /// be deciphered.
    Accounts(Option<Vec<String>>),
}

/// The account to log in with, from what is kept under an alias: the first one.
pub fn cached_email(alias: &str, found: KeyFile) -> (res: Result<String, CliError>)
    ensures
        match found {
            KeyFile::Missing => res matches Err(e) && e@ == (CliErrorView::KeyFileMissing {
                alias: alias@,
            }),
            KeyFile::Unreadable { error } => res matches Err(e) && e@ == (
            CliErrorView::KeyFileUnreadable { alias: alias@, error: error@ }),
            KeyFile::Accounts(None) => res matches Err(e) && e@ == (CliErrorView::KeyFileSealed {
                alias: alias@,
            }),
            KeyFile::Accounts(Some(list)) => if list@.len() == 0 {
                res matches Err(e) && e@ == CliErrorView::NoAccount
            } else {
                res == Ok::<String, CliError>(list@[0])
            },
        },
{
    match found {
        KeyFile::Missing => Err(CliError::KeyFileMissing { alias: alias.to_string() }),
        KeyFile::Unreadable { error } => Err(
            CliError::KeyFileUnreadable { alias: alias.to_string(), error },
        ),
        KeyFile::Accounts(None) => Err(CliError::KeyFileSealed { alias: alias.to_string() }),
        KeyFile::Accounts(Some(list)) => {
            let mut list: Vec<String> = list;
            if list.len() == 0 {
                Err(CliError::NoAccount)
            } else {
                Ok(list.remove(0))
            }
        },
    }
}

/// What a bot of the terminal is set to do.
#[derive(Clone, Copy, Debug, PartialEq, Eq)]
pub struct CommandOptions {
    pub look: Option<(u32, u32)>,
    pub use_interval: Option<usize>,
    pub atk_interval: Option<usize>,
}

/// The number of ticks at a place of the command line, if there is one.
pub open spec fn ticks_at(args: Seq<Seq<char>>, i: int) -> Option<usize> {
    if i < args.len() {
        number(args[i])
    } else {
        None
    }
}

/// The options from place `i` of the command line on, on top of `so_far`: `look`
/// with two angles, `use` and `atk` each with a number of ticks or on its own,
/// which means every tick. Of an option that comes twice, the second counts.
/// `angles` holds what each word is as an angle.
pub open spec fn options(
    args: Seq<Seq<char>>,
    angles: Seq<Option<u32>>,
    i: int,
    so_far: CommandOptions,
) -> Result<CommandOptions, CliErrorView>
    decreases args.len() - i,
{
    if i >= args.len() {
        Ok(so_far)
    } else if args[i] == "look"@ {
        if i + 2 < args.len() {
            match direction(angles[i + 1], angles[i + 2]) {
                Some(d) => options(args, angles, i + 3, CommandOptions { look: Some(d), ..so_far }),
                None => Err(CliErrorView::LookNotNumeric),
            }
        } else {
            Err(CliErrorView::LookIncomplete)
        }
    } else if args[i] == "use"@ {
        match ticks_at(args, i + 1) {
            Some(n) => options(
                args,
                angles,
                i + 2,
                CommandOptions { use_interval: Some(n), ..so_far },
            ),
            None => options(
                args,
                angles,
                i + 1,
                CommandOptions { use_interval: Some(0), ..so_far },
            ),
        }
    } else if args[i] == "atk"@ {
        match ticks_at(args, i + 1) {
            Some(n) => options(
                args,
                angles,
                i + 2,
                CommandOptions { atk_interval: Some(n), ..so_far },
            ),
            None => options(
                args,
                angles,
                i + 1,
                CommandOptions { atk_interval: Some(0), ..so_far },
            ),
        }
    } else {
        Err(CliErrorView::UnknownArgument { argument: args[i] })
    }
}

/// Reads the number of ticks at a place of the command line, if there is one.
fn parse_ticks_at(args: &Vec<String>, i: usize) -> (res: Option<usize>)
    ensures
        res == ticks_at(views(args@), i as int),
{
    if i < args.len() {
        parse_number(args[i].as_str())
    } else {
        None
    }
}

/// Nothing is set.
pub open spec fn nothing_set() -> CommandOptions {
    CommandOptions { look: None, use_interval: None, atk_interval: None }
}

/// Reads the options of a command line from place `start` on. The angle that each
/// word stands for, where it is a number, is handed in as the bit pattern of that
/// number.
pub fn parse_options(args: &Vec<String>, angles: &Vec<Option<u32>>, start: usize) -> (res: Result<
    CommandOptions,
    CliError,
>)
    requires
        angles@.len() == args@.len(),
    ensures
        match res {
            Ok(set) => options(views(args@), angles@, start as int, nothing_set()) == Ok::<
                CommandOptions,
                CliErrorView,
            >(set),
            Err(error) => options(views(args@), angles@, start as int, nothing_set()) == Err::<
                CommandOptions,
                CliErrorView,
            >(error@),
        },
{
    let ghost all = views(args@);
    let mut so_far = CommandOptions { look: None, use_interval: None, atk_interval: None };
    let mut i: usize = start;
    while i < args.len()
        invariant
            all == views(args@),
            angles@.len() == args@.len(),
            options(all, angles@, start as int, nothing_set()) == options(
                all,
                angles@,
                i as int,
                so_far,
            ),
        decreases args.len() - i,
    {
        assert(all[i as int] == args@[i as int]@);
        let word: &str = args[i].as_str();
        if same_text(word, "look") {
            if args.len() - i > 2 {
                match (angles[i + 1], angles[i + 2]) {
                    (Some(y), Some(x)) => {
                        so_far = CommandOptions { look: Some((y, x)), ..so_far };
                        i = i + 3;
                    },
                    _ => {
                        return Err(CliError::LookNotNumeric);
                    },
                }
            } else {
                return Err(CliError::LookIncomplete);
            }
        } else if same_text(word, "use") {
            match parse_ticks_at(args, i + 1) {
                Some(n) => {
                    so_far = CommandOptions { use_interval: Some(n), ..so_far };
                    i = i + 2;
                },
                None => {
                    so_far = CommandOptions { use_interval: Some(0), ..so_far };
                    i = i + 1;
                },
            }
        } else if same_text(word, "atk") {
            match parse_ticks_at(args, i + 1) {
                Some(n) => {
                    so_far = CommandOptions { atk_interval: Some(n), ..so_far };
                    i = i + 2;
                },
                None => {
                    so_far = CommandOptions { atk_interval: Some(0), ..so_far };
                    i = i + 1;
                },
            }
        } else {
            return Err(CliError::UnknownArgument { argument: args[i].clone() });
        }
    }
    Ok(so_far)
}

/// What no option on the command line names stays as it was.
pub proof fn law_only_named_options_are_set(
    args: Seq<Seq<char>>,
    angles: Seq<Option<u32>>,
    i: int,
    so_far: CommandOptions,
)
    requires
        0 <= i,
    ensures
        options(args, angles, i, so_far) matches Ok(set) ==> {
            &&& (forall|j: int| i <= j < args.len() ==> #[trigger] args[j] != "look"@) ==> set.look
                == so_far.look
            &&& (forall|j: int| i <= j < args.len() ==> #[trigger] args[j] != "use"@)
                ==> set.use_interval == so_far.use_interval
            &&& (forall|j: int| i <= j < args.len() ==> #[trigger] args[j] != "atk"@)
                ==> set.atk_interval == so_far.atk_interval
        },
    decreases args.len() - i,
{
    if i < args.len() {
        if args[i] == "look"@ {
            if i + 2 < args.len() {
                if let Some(d) = direction(angles[i + 1], angles[i + 2]) {
                    law_only_named_options_are_set(
                        args,
                        angles,
                        i + 3,
                        CommandOptions { look: Some(d), ..so_far },
                    );
                }
            }
        } else if args[i] == "use"@ {
            let (n, next) = match ticks_at(args, i + 1) {
                Some(n) => (n, i + 2),
                None => (0usize, i + 1),
            };
            law_only_named_options_are_set(
                args,
                angles,
                next,
                CommandOptions { use_interval: Some(n), ..so_far },
            );
        } else if args[i] == "atk"@ {
            let (n, next) = match ticks_at(args, i + 1) {
                Some(n) => (n, i + 2),
                None => (0usize, i + 1),
            };
            law_only_named_options_are_set(
                args,
                angles,
                next,
                CommandOptions { atk_interval: Some(n), ..so_far },
            );
        }
    }
}

/// A command line with a server, an e-mail address and an alias calls for logging
/// in, keeping the account and connecting, however many words follow, none
/// included; these are its options.
pub proof fn law_binding_takes_any_options(
    program: Seq<char>,
    server: Seq<char>,
    email: Seq<char>,
    alias: Seq<char>,
    more: Seq<Seq<char>>,
)
    requires
        email.contains('@'),
    ensures
        invocation(seq![program, server, email, alias] + more) == Ok::<
            (InvocationView, int),
            CliErrorView,
        >((InvocationView::Bind { server, email, alias }, 4)),
{
    let args = seq![program, server, email, alias] + more;
    assert(args[1] == server && args[2] == email && args[3] == alias);
}

/// A command line with a server and an alias calls for connecting with the account
/// that is kept, however many words follow. Without any, the server must not read
/// as an e-mail address.
pub proof fn law_alias_takes_any_options(
    program: Seq<char>,
    server: Seq<char>,
    alias: Seq<char>,
    more: Seq<Seq<char>>,
)
    requires
        !alias.contains('@'),
        more.len() > 0 || !server.contains('@'),
    ensures
        invocation(seq![program, server, alias] + more) == Ok::<
            (InvocationView, int),
            CliErrorView,
        >((InvocationView::UseAlias { server, alias }, 3)),
{
    let args = seq![program, server, alias] + more;
    assert(args[1] == server && args[2] == alias);
}

/// A command line with an e-mail address and one word more, whatever that is, calls
/// for keeping the account under that word.
pub proof fn law_email_and_alias_are_a_login(
    program: Seq<char>,
    email: Seq<char>,
    alias: Seq<char>,
)
    requires
        email.contains('@'),
    ensures
        invocation(seq![program, email, alias]) == Ok::<(InvocationView, int), CliErrorView>(
            (InvocationView::LoginOnly { email, alias }, 3),
        ),
{
}

/// The web console is called for by the program's name alone. An alias is missing
/// only where there are exactly three words, the last of them an e-mail address and
/// the one before it none; arguments are missing only where there are two words, or
/// not even a name. No other error comes of how a command line begins.
pub proof fn law_when_a_call_fails(args: Seq<Seq<char>>)
    ensures
        (invocation(args) matches Ok(called) && called.0 is Web) <==> args.len() == 1,
        args.len() == 1 ==> invocation(args) == Ok::<(InvocationView, int), CliErrorView>(
            (InvocationView::Web, 1),
        ),
        (invocation(args) matches Err(e) && e is MissingAlias) <==> args.len() == 3
            && !args[1].contains('@') && args[2].contains('@'),
        (invocation(args) matches Err(e) && e is MissingArguments) <==> args.len() == 0
            || args.len() == 2,
        invocation(args) matches Err(e) ==> e is MissingAlias || e is MissingArguments,
{
}

/// What the first of the words read does: each option has its words taken, sets what
/// it names and nothing else, and hands on to the words behind it; without words the
/// settings stay as they are.
pub proof fn law_options_are_read_from_the_left(
    args: Seq<Seq<char>>,
    angles: Seq<Option<u32>>,
    i: int,
    so_far: CommandOptions,
)
    requires
        0 <= i,
        angles.len() == args.len(),
    ensures
        ({
            let res = options(args, angles, i, so_far);
            &&& i >= args.len() ==> res == Ok::<CommandOptions, CliErrorView>(so_far)
            &&& i < args.len() && args[i] == seq!['l', 'o', 'o', 'k'] ==> {
                &&& i + 2 >= args.len() ==> res == Err::<CommandOptions, CliErrorView>(
                    CliErrorView::LookIncomplete,
                )
                &&& i + 2 < args.len() && (angles[i + 1] is None || angles[i + 2] is None) ==> res
                    == Err::<CommandOptions, CliErrorView>(CliErrorView::LookNotNumeric)
                &&& i + 2 < args.len() && angles[i + 1] is Some && angles[i + 2] is Some ==> res
                    == options(
                    args,
                    angles,
                    i + 3,
                    CommandOptions {
                        look: Some((angles[i + 1]->0, angles[i + 2]->0)),
                        use_interval: so_far.use_interval,
                        atk_interval: so_far.atk_interval,
                    },
                )
            }
            &&& i < args.len() && args[i] == seq!['u', 's', 'e'] ==> {
                let ticks = if i + 1 < args.len() {
                    number(args[i + 1])
                } else {
                    None
                };
                res == options(
                    args,
                    angles,
                    if ticks is Some {
                        i + 2
                    } else {
                        i + 1
                    },
                    CommandOptions {
                        look: so_far.look,
                        use_interval: Some(
                            if ticks is Some {
                                ticks->0
                            } else {
                                0
                            },
                        ),
                        atk_interval: so_far.atk_interval,
                    },
                )
            }
            &&& i < args.len() && args[i] == seq!['a', 't', 'k'] ==> {
                let ticks = if i + 1 < args.len() {
                    number(args[i + 1])
                } else {
                    None
                };
                res == options(
                    args,
                    angles,
                    if ticks is Some {
                        i + 2
                    } else {
                        i + 1
                    },
                    CommandOptions {
                        look: so_far.look,
                        use_interval: so_far.use_interval,
                        atk_interval: Some(
                            if ticks is Some {
                                ticks->0
                            } else {
                                0
                            },
                        ),
                    },
                )
            }
            &&& i < args.len() && args[i] != seq!['l', 'o', 'o', 'k'] && args[i] != seq![
                'u',
                's',
                'e',
            ] && args[i] != seq!['a', 't', 'k'] ==> res == Err::<CommandOptions, CliErrorView>(
                CliErrorView::UnknownArgument { argument: args[i] },
            )
        }),
{
    lemma_option_names();
}

proof fn lemma_option_names()
    ensures
        "look"@ == seq!['l', 'o', 'o', 'k'],
        "use"@ == seq!['u', 's', 'e'],
        "atk"@ == seq!['a', 't', 'k'],
        "look"@ != "use"@,
        "look"@ != "atk"@,
        "use"@ != "atk"@,
{
    reveal_strlit("look");
    reveal_strlit("use");
    reveal_strlit("atk");
    assert("look"@ =~= seq!['l', 'o', 'o', 'k']);
    assert("use"@ =~= seq!['u', 's', 'e']);
    assert("atk"@ =~= seq!['a', 't', 'k']);
    assert("look"@.len() == 4 && "use"@.len() == 3 && "atk"@.len() == 3);
    assert("use"@[0] == 'u' && "atk"@[0] == 'a');
}

/// Where a command line is read to its end, an option that does not come again
/// decides: `look` with its two angles, `use` and `atk` with the number behind them
/// or, without one, at every tick.
pub proof fn law_the_last_option_counts(
    args: Seq<Seq<char>>,
    angles: Seq<Option<u32>>,
    i: int,
    so_far: CommandOptions,
    set: CommandOptions,
)
    requires
        0 <= i < args.len(),
        angles.len() == args.len(),
        options(args, angles, i, so_far) == Ok::<CommandOptions, CliErrorView>(set),
        forall|j: int| i < j < args.len() ==> #[trigger] args[j] != args[i],
    ensures
        args[i] == seq!['l', 'o', 'o', 'k'] ==> i + 2 < args.len() && set.look == Some(
            (angles[i + 1]->0, angles[i + 2]->0),
        ) && angles[i + 1] is Some && angles[i + 2] is Some,
        args[i] == seq!['u', 's', 'e'] ==> set.use_interval == Some(
            if i + 1 < args.len() && number(args[i + 1]) is Some {
                number(args[i + 1])->0
            } else {
                0
            },
        ),
        args[i] == seq!['a', 't', 'k'] ==> set.atk_interval == Some(
            if i + 1 < args.len() && number(args[i + 1]) is Some {
                number(args[i + 1])->0
            } else {
                0
            },
        ),
{
    lemma_option_names();
    if args[i] == "look"@ {
        if i + 2 < args.len() {
            if let Some(d) = direction(angles[i + 1], angles[i + 2]) {
                law_only_named_options_are_set(
                    args,
                    angles,
                    i + 3,
                    CommandOptions { look: Some(d), ..so_far },
                );
            }
        }
    } else {
        let (n, next) = match ticks_at(args, i + 1) {
            Some(n) => (n, i + 2),
            None => (0usize, i + 1),
        };
        if args[i] == "use"@ {
            law_only_named_options_are_set(
                args,
                angles,
                next,
                CommandOptions { use_interval: Some(n), ..so_far },
            );
        } else {
            law_only_named_options_are_set(
                args,
                angles,
                next,
                CommandOptions { atk_interval: Some(n), ..so_far },
            );
        }
    }
}

/// Whether a command line can be read, and what is wrong with it, does not depend on
/// what was set before; and what was set for one thing shows up nowhere else.
pub proof fn law_settings_do_not_mix(
    args: Seq<Seq<char>>,
    angles: Seq<Option<u32>>,
    i: int,
    a: CommandOptions,
    b: CommandOptions,
)
    requires
        0 <= i,
    ensures
        match (options(args, angles, i, a), options(args, angles, i, b)) {
            (Ok(x), Ok(y)) => {
                &&& x.look == y.look || (x.look == a.look && y.look == b.look)
                &&& x.use_interval == y.use_interval || (x.use_interval == a.use_interval
                    && y.use_interval == b.use_interval)
                &&& x.atk_interval == y.atk_interval || (x.atk_interval == a.atk_interval
                    && y.atk_interval == b.atk_interval)
            },
            (Err(x), Err(y)) => x == y,
            _ => false,
        },
    decreases args.len() - i,
{
    if i < args.len() {
        let (n, next) = match ticks_at(args, i + 1) {
            Some(n) => (n, i + 2),
            None => (0usize, i + 1),
        };
        if args[i] == "look"@ {
            if i + 2 < args.len() {
                if let Some(d) = direction(angles[i + 1], angles[i + 2]) {
                    law_settings_do_not_mix(
                        args,
                        angles,
                        i + 3,
                        CommandOptions { look: Some(d), ..a },
                        CommandOptions { look: Some(d), ..b },
                    );
                }
            }
        } else if args[i] == "use"@ {
            law_settings_do_not_mix(
                args,
                angles,
                next,
                CommandOptions { use_interval: Some(n), ..a },
                CommandOptions { use_interval: Some(n), ..b },
            );
        } else if args[i] == "atk"@ {
            law_settings_do_not_mix(
                args,
                angles,
                next,
                CommandOptions { atk_interval: Some(n), ..a },
                CommandOptions { atk_interval: Some(n), ..b },
            );
        }
    }
}

/// Before any option is read, everything is off.
pub proof fn law_everything_is_off_at_first()
    ensures
        nothing_set().look is None,
        nothing_set().use_interval is None,
        nothing_set().atk_interval is None,
{
}

/// What is said about an error names what the error is about, in full: the alias
/// wherever there is one, the file under that alias, the reason why it could not be
/// read, the word that is no option. Where arguments are missing, all ways to call the
/// program are listed.
pub proof fn law_complaints_name_what_they_are_about(alias: Seq<char>, text: Seq<char>)
    ensures
        complaint(CliErrorView::KeyFileMissing { alias }) == "[错误] 找不到别名 '"@ + alias
            + "' 对应的授权文件 '"@ + alias + ".key'！"@,
        complaint(CliErrorView::KeyFileUnreadable { alias, error: text })
            == "[错误] 读取授权文件 "@ + alias + ".key 失败: "@ + text,
        complaint(CliErrorView::KeyFileSealed { alias }) == "[错误] 授权文件 "@ + alias
            + ".key 解密失败！"@,
        complaint(CliErrorView::UnknownArgument { argument: text })
            == "[错误] 未知的命令参数: '"@ + text + "'"@,
        complaint(CliErrorView::MissingArguments)
            == "[错误] 缺少必要参数。\n命令行用法说明:\n  1. 仅登录绑定别名 (仅生成 <别名>.key 授权文件，不需要服务器IP):\n     azalea_bot.exe <微软邮箱> <别名>\n  2. 使用别名启动 (自动多开，读取 config.yml，无需参数):\n     azalea_bot.exe\n  3. 命令行直接连接服务器并启动:\n     azalea_bot.exe <服务器地址> <别名> [look <y> <p>] [use [<ticks>]] [atk [<ticks>]]"@,
        complaint(CliErrorView::MissingAlias) == "[错误] 首次登录绑定别名必须提供别名参数！"@,
        complaint(CliErrorView::NoAccount) == "[错误] 授权文件中未找到已缓存的账号！"@,
        complaint(CliErrorView::LookNotNumeric) == "[错误] 视角偏角必须是数字。"@,
        complaint(CliErrorView::LookIncomplete) == "[错误] 'look' 参数不完整。"@,
{
}

/// The view of what the program was called for, and that of an error, show all that
/// is in it.
pub proof fn law_views_show_everything(called_for: Invocation, error: CliError)
    ensures
        match called_for@ {
            InvocationView::Web => called_for is Web,
            InvocationView::LoginOnly { email, alias } => {
                &&& called_for matches Invocation::LoginOnly { email: e, alias: a }
                &&& e@ == email
                &&& a@ == alias
            },
            InvocationView::Bind { server, email, alias } => {
                &&& called_for matches Invocation::Bind { server: s, email: e, alias: a }
                &&& s@ == server
                &&& e@ == email
                &&& a@ == alias
            },
            InvocationView::UseAlias { server, alias } => {
                &&& called_for matches Invocation::UseAlias { server: s, alias: a }
                &&& s@ == server
                &&& a@ == alias
            },
        },
        match error@ {
            CliErrorView::MissingArguments => error is MissingArguments,
            CliErrorView::MissingAlias => error is MissingAlias,
            CliErrorView::KeyFileMissing { alias } => error matches CliError::KeyFileMissing {
                alias: a,
            } && a@ == alias,
            CliErrorView::KeyFileUnreadable { alias, error: reason } => {
                &&& error matches CliError::KeyFileUnreadable { alias: a, error: r }
                &&& a@ == alias
                &&& r@ == reason
            },
            CliErrorView::KeyFileSealed { alias } => error matches CliError::KeyFileSealed {
                alias: a,
            } && a@ == alias,
            CliErrorView::NoAccount => error is NoAccount,
            CliErrorView::LookNotNumeric => error is LookNotNumeric,
            CliErrorView::LookIncomplete => error is LookIncomplete,
            CliErrorView::UnknownArgument { argument } => error matches CliError::UnknownArgument {
                argument: a,
            } && a@ == argument,
        },
{
}

} // verus!
