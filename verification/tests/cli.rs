use azalea_bot::cli::{
    cached_email, parse_invocation, parse_options, CliError, CommandOptions, Invocation,
    KeyFile,
};

fn words(list: &[&str]) -> Vec<String> {
    list.iter().map(|s| s.to_string()).collect()
}

fn called(list: &[&str]) -> Result<(Invocation, usize), CliError> {
    parse_invocation(&words(list))
}

fn options(list: &[&str]) -> Result<CommandOptions, CliError> {
    let args = words(list);
    let angles: Vec<Option<u32>> =
        args.iter().map(|a| a.parse::<f32>().ok().map(f32::to_bits)).collect();
    parse_options(&args, &angles, 3)
}

#[test]
fn what_the_program_is_called_for() {
    assert_eq!(called(&["azalea_bot"]), Ok((Invocation::Web, 1)));
    assert_eq!(
        called(&["azalea_bot", "player1@outlook.com", "bot1"]),
        Ok((
            Invocation::LoginOnly {
                email: "player1@outlook.com".to_string(),
                alias: "bot1".to_string()
            },
            3
        ))
    );
    assert_eq!(
        called(&["azalea_bot", "localhost:25565", "a@b", "bot1", "use"]),
        Ok((
            Invocation::Bind {
                server: "localhost:25565".to_string(),
                email: "a@b".to_string(),
                alias: "bot1".to_string()
            },
            4
        ))
    );
    assert_eq!(
        called(&["azalea_bot", "localhost:25565", "bot1"]),
        Ok((
            Invocation::UseAlias {
                server: "localhost:25565".to_string(),
                alias: "bot1".to_string()
            },
            3
        ))
    );
    assert_eq!(
        called(&["azalea_bot", "a@b", "bot1", "use"]),
        Ok((
            Invocation::UseAlias { server: "a@b".to_string(), alias: "bot1".to_string() },
            3
        ))
    );
}

#[test]
fn calls_that_lack_something() {
    assert_eq!(called(&[]), Err(CliError::MissingArguments));
    assert_eq!(called(&["azalea_bot", "localhost"]), Err(CliError::MissingArguments));
    assert_eq!(called(&["azalea_bot", "localhost", "a@b"]), Err(CliError::MissingAlias));
}

#[test]
fn options_are_read() {
    let none = CommandOptions { look: None, use_interval: None, atk_interval: None };
    assert_eq!(options(&["p", "s", "a"]), Ok(none));
    assert_eq!(
        options(&["p", "s", "a", "look", "-23.4", "10.8", "use", "10", "atk"]),
        Ok(CommandOptions {
            look: Some(((-23.4f32).to_bits(), 10.8f32.to_bits())),
            use_interval: Some(10),
            atk_interval: Some(0),
        })
    );
    assert_eq!(
        options(&["p", "s", "a", "use", "atk", "6"]),
        Ok(CommandOptions { look: None, use_interval: Some(0), atk_interval: Some(6) })
    );
    assert_eq!(
        options(&["p", "s", "a", "use", "3", "use"]),
        Ok(CommandOptions { use_interval: Some(0), ..none })
    );
}

#[test]
fn options_that_are_not_named_stay_off() {
    let set = options(&["p", "s", "a", "atk", "6"]).unwrap();
    assert_eq!((set.look, set.use_interval), (None, None));
}

#[test]
fn options_that_are_wrong() {
    assert_eq!(options(&["p", "s", "a", "look", "1"]), Err(CliError::LookIncomplete));
    assert_eq!(options(&["p", "s", "a", "look", "1", "x"]), Err(CliError::LookNotNumeric));
    assert_eq!(
        options(&["p", "s", "a", "use", "-3"]),
        Err(CliError::UnknownArgument { argument: "-3".to_string() })
    );
    assert_eq!(
        options(&["p", "s", "a", "jump"]),
        Err(CliError::UnknownArgument { argument: "jump".to_string() })
    );
}

#[test]
fn first_cached_account_counts() {
    let list = words(&["a@b", "c@d"]);
    assert_eq!(cached_email("bot1", KeyFile::Accounts(Some(list))), Ok("a@b".to_string()));
}

#[test]
fn files_that_give_no_account() {
    assert_eq!(
        cached_email("bot1", KeyFile::Missing),
        Err(CliError::KeyFileMissing { alias: "bot1".to_string() })
    );
    assert_eq!(
        cached_email("bot1", KeyFile::Unreadable { error: "E".to_string() }),
        Err(CliError::KeyFileUnreadable { alias: "bot1".to_string(), error: "E".to_string() })
    );
    assert_eq!(
        cached_email("bot1", KeyFile::Accounts(None)),
        Err(CliError::KeyFileSealed { alias: "bot1".to_string() })
    );
    assert_eq!(
        cached_email("bot1", KeyFile::Accounts(Some(vec![]))),
        Err(CliError::NoAccount)
    );
}

#[test]
fn complaints() {
    let alias = || "bot1".to_string();
    let usage = CliError::MissingArguments.message();
    assert!(usage.starts_with("[错误] 缺少必要参数。\n命令行用法说明:\n  1. "));
    assert_eq!(usage.lines().count(), 8);
    assert_eq!(
        usage.lines().last().unwrap(),
        "     azalea_bot.exe <服务器地址> <别名> [look <y> <p>] [use [<ticks>]] [atk [<ticks>]]"
    );
    assert_eq!(CliError::MissingAlias.message(), "[错误] 首次登录绑定别名必须提供别名参数！");
    assert_eq!(
        CliError::KeyFileMissing { alias: alias() }.message(),
        "[错误] 找不到别名 'bot1' 对应的授权文件 'bot1.key'！"
    );
    assert_eq!(
        CliError::KeyFileUnreadable { alias: alias(), error: "E".to_string() }.message(),
        "[错误] 读取授权文件 bot1.key 失败: E"
    );
    assert_eq!(
        CliError::KeyFileSealed { alias: alias() }.message(),
        "[错误] 授权文件 bot1.key 解密失败！"
    );
    assert_eq!(CliError::NoAccount.message(), "[错误] 授权文件中未找到已缓存的账号！");
    assert_eq!(CliError::LookNotNumeric.message(), "[错误] 视角偏角必须是数字。");
    assert_eq!(CliError::LookIncomplete.message(), "[错误] 'look' 参数不完整。");
    assert_eq!(
        CliError::UnknownArgument { argument: "jump".to_string() }.message(),
        "[错误] 未知的命令参数: 'jump'"
    );
}
