//! The configuration file: which bots go to which server, and what they do there.

use vstd::prelude::*;

use crate::text::is_white;
use crate::text::joined;
use crate::text::remove_all;
use crate::text::split_words;
use crate::text::without;
use crate::text::words;

verus! {

/// A value of the configuration file.
#[derive(Debug, PartialEq, Eq)]
pub enum ConfigValue {
    Null,
    Bool(bool),
    /// A whole number from zero up.
    Unsigned(u64),
    /// A whole number below zero.
    Negative(i64),
    /// Any other number, as its 64-bit floating-point pattern.
    Float(u64),
    Text(String),
    Sequence(Vec<ConfigValue>),
    Mapping(Vec<(ConfigValue, ConfigValue)>),
    /// A value with a tag in front of it.
    Tagged(String, Box<ConfigValue>),
}

/// The value behind all tags.
pub open spec fn untagged(value: ConfigValue) -> ConfigValue
    decreases value,
{
    match value {
        ConfigValue::Tagged(_, inner) => untagged(*inner),
        _ => value,
    }
}

impl ConfigValue {
    /// Whether the value, tags aside, is empty.
    pub fn is_null(&self) -> (res: bool)
        ensures
            res == (untagged(*self) is Null),
        decreases *self,
    {
        match self {
            ConfigValue::Null => true,
            ConfigValue::Tagged(_, inner) => inner.is_null(),
            _ => false,
        }
    }

    /// The value, tags aside, if it is a whole number from zero up.
    pub fn as_u64(&self) -> (res: Option<u64>)
        ensures
            res == (match untagged(*self) {
                ConfigValue::Unsigned(n) => Some(n),
                _ => None,
            }),
        decreases *self,
    {
        match self {
            ConfigValue::Unsigned(n) => Some(*n),
            ConfigValue::Tagged(_, inner) => inner.as_u64(),
            _ => None,
        }
    }
}

/// What is configured for one bot.
#[derive(Debug, PartialEq, Eq)]
pub struct BotConfig {
    /// The direction to look in, as two numbers with white space between them.
    pub look: Option<String>,
    /// How to use the item in hand.
    pub use_mode: Option<ConfigValue>,
    /// How to attack.
    pub atk_mode: Option<ConfigValue>,
}

impl Default for BotConfig {
    fn default() -> (res: BotConfig)
        ensures
            res.look is None,
            res.use_mode is None,
            res.atk_mode is None,
    {
        BotConfig { look: None, use_mode: None, atk_mode: None }
    }
}

/// The servers with the bots that go to each of them.
pub type AppConfig = Vec<(String, Vec<(String, BotConfig)>)>;

/// The interval in ticks that a mode stands for: a mode that is not given is off,
/// a number is an interval, and anything else means every tick, written as `0`.
pub open spec fn mode_interval(mode: Option<ConfigValue>) -> Option<usize> {
    match mode {
        None => None,
        Some(value) => match untagged(value) {
            ConfigValue::Unsigned(n) => Some(n as usize),
            _ => Some(0),
        },
    }
}

/// Reads a mode.
pub fn parse_mode(val_opt: &Option<ConfigValue>) -> (res: Option<usize>)
    ensures
        res == mode_interval(*val_opt),
{
    match val_opt {
        None => None,
        Some(val) => {
            if val.is_null() {
                Some(0)
            } else {
                match val.as_u64() {
                    Some(n) => Some(n as usize),
                    None => Some(0),
                }
            }
        },
    }
}

/// Whether `parse_angle`, called on this text, may give this answer.
pub open spec fn reads_as<F: Fn(&str) -> Option<u32>>(
    parse_angle: F,
    s: Seq<char>,
    answer: Option<u32>,
) -> bool {
    exists|t: &str| t@ == s && #[trigger] call_ensures(parse_angle, (t,), answer)
}

/// A direction takes two angles.
pub open spec fn direction(yaw: Option<u32>, pitch: Option<u32>) -> Option<(u32, u32)> {
    match (yaw, pitch) {
        (Some(y), Some(p)) => Some((y, p)),
        _ => None,
    }
}

/// Whether `res` is the direction that the text gives: it has to have two words,
/// and `parse_angle` has to accept both.
pub open spec fn look_reads_as<F: Fn(&str) -> Option<u32>>(
    parse_angle: F,
    look: Option<String>,
    res: Option<(u32, u32)>,
) -> bool {
    match look {
        Some(s) => if words(s@).len() == 2 {
            exists|yaw: Option<u32>, pitch: Option<u32>|
                {
                    &&& #[trigger] reads_as(parse_angle, words(s@)[0], yaw)
                    &&& #[trigger] reads_as(parse_angle, words(s@)[1], pitch)
                    &&& res == direction(yaw, pitch)
                }
        } else {
            res is None
        },
        None => res is None,
    }
}

/// Reads the direction to look in. An angle is carried as the bit pattern of the
/// floating-point number that `parse_angle` makes of its text.
pub fn parse_look<F: Fn(&str) -> Option<u32>>(look: &Option<String>, parse_angle: &F) -> (res: Option<
    (u32, u32),
>)
    requires
        forall|t: &str| call_requires(*parse_angle, (t,)),
    ensures
        look_reads_as(*parse_angle, *look, res),
{
    match look {
        Some(s) => {
            let parts: Vec<String> = split_words(s.as_str());
            assert(crate::text::views(parts@).len() == parts@.len());
            if parts.len() == 2 {
                assert(words(s@)[0] == crate::text::views(parts@)[0]);
                assert(words(s@)[1] == crate::text::views(parts@)[1]);
                let yaw: Option<u32> = parse_angle(parts[0].as_str());
                let pitch: Option<u32> = parse_angle(parts[1].as_str());
                assert(reads_as(*parse_angle, words(s@)[0], yaw));
                assert(reads_as(*parse_angle, words(s@)[1], pitch));
                match (yaw, pitch) {
                    (Some(y), Some(p)) => Some((y, p)),
                    _ => None,
                }
            } else {
                None
            }
        },
        None => None,
    }
}

/// The name under which the file with a bot's cached account is found.
pub fn key_file_name(alias: &str) -> (res: String)
    ensures
        res@ == alias@ + ".key"@,
{
    let res: String = joined(alias, ".key", "");
    proof {
        reveal_strlit("");
    }
    assert(alias@ + ".key"@ + ""@ =~= alias@ + ".key"@);
    res
}

/// The configuration that a new file starts with: one server and two bots, the
/// first with everything set, the second attacking every tick.
pub fn default_config() -> (res: AppConfig)
    ensures
        res@.len() == 1,
        res@[0].0@ == "localhost:25565"@,
        res@[0].1@.len() == 2,
        res@[0].1@[0].0@ == "bot1"@,
        res@[0].1@[0].1.look matches Some(look) && look@ == "-23.4 10.8"@,
        res@[0].1@[0].1.use_mode == Some(ConfigValue::Unsigned(10)),
        res@[0].1@[0].1.atk_mode == Some(ConfigValue::Unsigned(6)),
        res@[0].1@[1].0@ == "bot2"@,
        res@[0].1@[1].1.look is None,
        res@[0].1@[1].1.use_mode is None,
        res@[0].1@[1].1.atk_mode == Some(ConfigValue::Null),
{
    let mut bots: Vec<(String, BotConfig)> = Vec::new();
    bots.push(
        (
            "bot1".to_string(),
            BotConfig {
                look: Some("-23.4 10.8".to_string()),
                use_mode: Some(ConfigValue::Unsigned(10)),
                atk_mode: Some(ConfigValue::Unsigned(6)),
            },
        ),
    );
    bots.push(
        (
            "bot2".to_string(),
            BotConfig { look: None, use_mode: None, atk_mode: Some(ConfigValue::Null) },
        ),
    );
    let mut servers: AppConfig = Vec::new();
    servers.push(("localhost:25565".to_string(), bots));
    servers
}

/// A field that is written, if there is anything to write.
pub open spec fn field(name: Seq<char>, value: Option<ConfigValue>) -> Seq<
    (Seq<char>, ConfigValue),
> {
    match value {
        Some(v) => seq![(name, v)],
        None => seq![],
    }
}

/// The fields that are written for a bot: those that are set, in a fixed order. A
/// field that is not set is left out, since one left blank would mean something.
pub open spec fn fields_of(bot: BotConfig) -> Seq<(Seq<char>, ConfigValue)> {
    field(
        "look"@,
        match bot.look {
            Some(look) => Some(ConfigValue::Text(look)),
            None => None,
        },
    ) + field("use"@, bot.use_mode) + field("atk"@, bot.atk_mode)
}

/// Names and values, with the names taken by their characters.
pub open spec fn field_views(fields: Seq<(String, ConfigValue)>) -> Seq<(Seq<char>, ConfigValue)> {
    Seq::new(fields.len(), |i: int| (fields[i].0@, fields[i].1))
}

/// The fields to write for a bot.
pub fn written_fields(bot: BotConfig) -> (res: Vec<(String, ConfigValue)>)
    ensures
        field_views(res@) == fields_of(bot),
{
    let mut res: Vec<(String, ConfigValue)> = Vec::new();
    match bot.look {
        Some(look) => {
            res.push(("look".to_string(), ConfigValue::Text(look)));
        },
        None => {},
    }
    match bot.use_mode {
        Some(mode) => {
            res.push(("use".to_string(), mode));
        },
        None => {},
    }
    match bot.atk_mode {
        Some(mode) => {
            res.push(("atk".to_string(), mode));
        },
        None => {},
    }
    assert(field_views(res@) =~= fields_of(bot));
    res
}

/// The remarks at the top of a new configuration file.
pub fn config_remarks() -> (res: &'static str)
    ensures
        res@ == remarks(),
{
    "# 挂机机器人自动配置文件\n# 直接运行 azalea_bot.exe 不加任何参数时，将读取此配置自动连接挂机。\n# 注意: 每个玩家别名(例如 bot1)必须首先通过命令行登录一次，在同级目录下生成授权 key 文件。\n# 示例登录命令: azalea_bot.exe localhost:25565 your_email@outlook.com bot1\n\n# 配置说明:\n# 1. look: 视角朝向偏角，格式为 \"yaw pitch\"（例如 \"-23.4 10.8\"），如果不配置则不锁定视角。\n# 2. use / atk: 右键使用 / 左键攻击。如果不配置该字段，则不开启；\n#    如果配置但留空（例如 `atk:`），代表持续长按使用或长按连点；\n#    如果配置了具体数字（例如 `use: 10`），代表每隔指定 tick 触发一次。\n\n"
}

/// The text of the remarks at the top of a new configuration file.
pub open spec fn remarks() -> Seq<char> {
    "# 挂机机器人自动配置文件\n# 直接运行 azalea_bot.exe 不加任何参数时，将读取此配置自动连接挂机。\n# 注意: 每个玩家别名(例如 bot1)必须首先通过命令行登录一次，在同级目录下生成授权 key 文件。\n# 示例登录命令: azalea_bot.exe localhost:25565 your_email@outlook.com bot1\n\n# 配置说明:\n# 1. look: 视角朝向偏角，格式为 \"yaw pitch\"（例如 \"-23.4 10.8\"），如果不配置则不锁定视角。\n# 2. use / atk: 右键使用 / 左键攻击。如果不配置该字段，则不开启；\n#    如果配置但留空（例如 `atk:`），代表持续长按使用或长按连点；\n#    如果配置了具体数字（例如 `use: 10`），代表每隔指定 tick 触发一次。\n\n"@
}

/// The text of a new configuration file: the remarks, then the configuration as
/// written in YAML, with empty values left blank.
pub fn config_file_text(yaml: &str) -> (res: String)
    ensures
        res@ == remarks() + without(yaml@, "null"@),
{
    proof {
        reveal_strlit("null");
        reveal_strlit("");
    }
    let body: String = remove_all(yaml, "null");
    let res: String = joined(config_remarks(), body.as_str(), "");
    assert(remarks() + body@ + ""@ =~= remarks() + body@);
    res
}

/// A tag in front of a value makes no difference, however many there are; a value
/// without one is what it is.
pub proof fn law_tags_make_no_difference(tag: String, value: ConfigValue)
    ensures
        untagged(ConfigValue::Tagged(tag, Box::new(value))) == untagged(value),
        value !is Tagged ==> untagged(value) == value,
        untagged(value) !is Tagged,
        mode_interval(Some(ConfigValue::Tagged(tag, Box::new(value)))) == mode_interval(
            Some(value),
        ),
    decreases value,
{
    if let ConfigValue::Tagged(inner_tag, inner) = value {
        law_tags_make_no_difference(inner_tag, *inner);
    }
}

/// A mode is off exactly where it is not given. A whole number from zero up is the
/// interval; whatever else is given, with no tag in front, means every tick.
pub proof fn law_mode_is_off_only_where_not_given(mode: Option<ConfigValue>)
    ensures
        mode is None <==> mode_interval(mode) is None,
        mode matches Some(ConfigValue::Unsigned(n)) ==> (n <= usize::MAX ==> mode_interval(mode)
            == Some(n as usize)),
        mode matches Some(value) ==> (value !is Unsigned && value !is Tagged ==> mode_interval(mode)
            == Some(0usize)),
{
}

/// Two texts with white space between them, each of which reads as one angle only,
/// are the yaw and the pitch of a direction, in this order; where either is no angle
/// there is no direction.
pub proof fn law_look_is_yaw_and_pitch<F: Fn(&str) -> Option<u32>>(
    parse_angle: F,
    look: String,
    yaw: Seq<char>,
    gap: char,
    pitch: Seq<char>,
    y: Option<u32>,
    p: Option<u32>,
    res: Option<(u32, u32)>,
)
    requires
        look_reads_as(parse_angle, Some(look), res),
        look@ == yaw.push(gap) + pitch,
        is_white(gap),
        yaw.len() > 0,
        pitch.len() > 0,
        forall|i: int| 0 <= i < yaw.len() ==> !is_white(#[trigger] yaw[i]),
        forall|i: int| 0 <= i < pitch.len() ==> !is_white(#[trigger] pitch[i]),
        forall|t: &str, a: Option<u32>|
            t@ == yaw && #[trigger] call_ensures(parse_angle, (t,), a) ==> a == y,
        forall|t: &str, a: Option<u32>|
            t@ == pitch && #[trigger] call_ensures(parse_angle, (t,), a) ==> a == p,
    ensures
        y is Some && p is Some ==> res == Some((y->0, p->0)),
        y is None || p is None ==> res is None,
{
    crate::text::law_white_space_keeps_words_apart(yaw, gap, pitch);
    crate::text::law_text_without_white_space_is_one_word(yaw);
    crate::text::law_text_without_white_space_is_one_word(pitch);
    assert(words(look@) =~= seq![yaw, pitch]);
    let (a, b) = choose|a: Option<u32>, b: Option<u32>|
        {
            &&& #[trigger] reads_as(parse_angle, words(look@)[0], a)
            &&& #[trigger] reads_as(parse_angle, words(look@)[1], b)
            &&& res == direction(a, b)
        };
    assert(reads_as(parse_angle, yaw, a));
    assert(reads_as(parse_angle, pitch, b));
    let t = choose|t: &str| t@ == yaw && #[trigger] call_ensures(parse_angle, (t,), a);
    assert(call_ensures(parse_angle, (t,), a));
    let u = choose|u: &str| u@ == pitch && #[trigger] call_ensures(parse_angle, (u,), b);
    assert(call_ensures(parse_angle, (u,), b));
}

/// Without a text, or with a text that has not exactly two words, there is no
/// direction.
pub proof fn law_look_needs_two_words<F: Fn(&str) -> Option<u32>>(
    parse_angle: F,
    look: Option<String>,
    res: Option<(u32, u32)>,
)
    requires
        look_reads_as(parse_angle, look, res),
    ensures
        look is None ==> res is None,
        look matches Some(s) ==> (words(s@).len() != 2 ==> res is None),
{
}

/// A direction has both angles, the yaw first, or there is none.
pub proof fn law_direction_takes_both_angles(y: u32, p: u32, yaw: Option<u32>, pitch: Option<u32>)
    ensures
        direction(Some(y), Some(p)) == Some((y, p)),
        direction(None, pitch) is None,
        direction(yaw, None) is None,
{
}

/// What is set for a bot is written, under its name and as it is, and what is not
/// set is not; nothing else is written, and the order is look, use, attack.
pub proof fn law_what_is_set_is_written(bot: BotConfig, value: ConfigValue)
    ensures
        ({
            let fields = fields_of(bot);
            &&& fields.contains(("look"@, value)) == (bot.look matches Some(l) && value
                == ConfigValue::Text(l))
            &&& fields.contains(("use"@, value)) == (bot.use_mode == Some(value))
            &&& fields.contains(("atk"@, value)) == (bot.atk_mode == Some(value))
            &&& fields.len() == (if bot.look is Some {
                1int
            } else {
                0
            }) + (if bot.use_mode is Some {
                1int
            } else {
                0
            }) + (if bot.atk_mode is Some {
                1int
            } else {
                0
            })
            &&& bot.look is Some ==> fields[0].0 == "look"@
            &&& bot.atk_mode is Some ==> fields[fields.len() - 1].0 == "atk"@
        }),
{
    reveal_strlit("look");
    reveal_strlit("use");
    reveal_strlit("atk");
    assert("look"@.len() == 4 && "use"@.len() == 3 && "atk"@.len() == 3);
    assert("use"@[0] == 'u' && "atk"@[0] == 'a');
    let fields = fields_of(bot);
    let looks: int = if bot.look is Some {
        1
    } else {
        0
    };
    if let Some(l) = bot.look {
        assert(fields[0] == ("look"@, ConfigValue::Text(l)));
    }
    if let Some(u) = bot.use_mode {
        assert(fields[looks] == ("use"@, u));
    }
    if let Some(a) = bot.atk_mode {
        assert(fields[fields.len() - 1] == ("atk"@, a));
    }
    assert forall|i: int| 0 <= i < fields.len() implies ({
        ||| bot.look matches Some(l) && #[trigger] fields[i] == ("look"@, ConfigValue::Text(l))
        ||| bot.use_mode matches Some(u) && fields[i] == ("use"@, u)
        ||| bot.atk_mode matches Some(a) && fields[i] == ("atk"@, a)
    }) by {}
}

/// The views of fields leave nothing out.
pub proof fn law_fields_are_shown_whole(fields: Seq<(String, ConfigValue)>, i: int)
    requires
        0 <= i < fields.len(),
    ensures
        field_views(fields).len() == fields.len(),
        field_views(fields)[i] == (fields[i].0@, fields[i].1),
{
}

/// A new configuration file tells how to set bots up before anything else, and holds
/// the configuration behind that unchanged, where nothing in it is empty.
pub proof fn law_new_file_explains_itself(yaml: Seq<char>)
    ensures
        remarks()
            == "# 挂机机器人自动配置文件\n# 直接运行 azalea_bot.exe 不加任何参数时，将读取此配置自动连接挂机。\n# 注意: 每个玩家别名(例如 bot1)必须首先通过命令行登录一次，在同级目录下生成授权 key 文件。\n# 示例登录命令: azalea_bot.exe localhost:25565 your_email@outlook.com bot1\n\n# 配置说明:\n# 1. look: 视角朝向偏角，格式为 \"yaw pitch\"（例如 \"-23.4 10.8\"），如果不配置则不锁定视角。\n# 2. use / atk: 右键使用 / 左键攻击。如果不配置该字段，则不开启；\n#    如果配置但留空（例如 `atk:`），代表持续长按使用或长按连点；\n#    如果配置了具体数字（例如 `use: 10`），代表每隔指定 tick 触发一次。\n\n"@,
        (forall|i: int| 0 <= i < yaml.len() ==> !"null"@.is_prefix_of(#[trigger] yaml.skip(i)))
            ==> remarks() + without(yaml, "null"@) == remarks() + yaml,
{
    reveal_strlit("null");
    if forall|i: int| 0 <= i < yaml.len() ==> !"null"@.is_prefix_of(#[trigger] yaml.skip(i)) {
        crate::text::law_nothing_is_taken_out(yaml, "null"@);
    }
}

} // verus!
