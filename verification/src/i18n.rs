//! The messages of the dashboard in other languages.
use vstd::prelude::*;

use crate::{search, text};
use crate::search::replace;
use crate::text::{same, trim};

verus! {

/// The texts of a table.
pub open spec fn table_view(t: Seq<(&'static str, &'static str)>) -> Seq<(Seq<char>, Seq<char>)> {
    t.map_values(|p: (&'static str, &'static str)| (p.0@, p.1@))
}

/// The messages in simplified Chinese.
pub open spec fn simplified() -> Seq<(Seq<char>, Seq<char>)> {
    seq![
        ("permission denied"@, "权限不够"@),
        ("unauthorized"@, "未授权"@),
        ("provider is required"@, "需要提供者"@),
        ("provider not found"@, "未找到提供者"@),
        ("operation not permitted"@, "不允许该操作"@),
        ("code is required"@, "需要 code"@),
        ("oauth2 user not binded yet"@, "oauth2 用户仍未绑定"@),
        ("invalid state key"@, "不正确的 state key"@),
        ("server not found or not connected"@, "服务器未找到或仍未连接"@),
        ("the retry count must be an integer between 1 and 10"@, "重试次数必须为大于 1 且不超过 10 的整数"@),
        ("incorrect username or password"@, "用户名或密码错误"@),
        ("incorrect password"@, "密码错误"@),
        ("can't delete yourself"@, "不能删除自己"@),
        ("server not found"@, "服务器未找到"@),
        ("user not found"@, "用户未找到"@),
        ("resource not found"@, "资源未找到"@),
        ("notification not found"@, "通知方式未找到"@),
        ("cron not found"@, "计划任务未找到"@),
        ("nat not found"@, "NAT 配置未找到"@),
        ("service not found"@, "服务未找到"@),
        ("ddns profile not found"@, "DDNS 配置未找到"@),
        ("alert rule not found"@, "告警规则未找到"@),
        ("stream not found"@, "流未找到"@),
        ("invalid server id"@, "服务器 ID 无效"@),
        ("user id is required"@, "需要用户 ID"@),
        ("real ip header not found"@, "未找到真实 IP 请求头"@),
        ("store lock poisoned"@, "存储锁已损坏"@),
        ("404 Not Found"@, "404 未找到"@),
    ]
}

/// The messages in traditional Chinese.
pub open spec fn traditional() -> Seq<(Seq<char>, Seq<char>)> {
    seq![
        ("permission denied"@, "權限不足"@),
        ("unauthorized"@, "未授權"@),
        ("provider is required"@, "需要提供者"@),
        ("provider not found"@, "找不到提供者"@),
        ("operation not permitted"@, "不允許此操作"@),
        ("code is required"@, "需要 code"@),
        ("oauth2 user not binded yet"@, "oauth2 使用者尚未綁定"@),
        ("invalid state key"@, "不正確的 state key"@),
        ("server not found or not connected"@, "伺服器未找到或尚未連線"@),
        ("the retry count must be an integer between 1 and 10"@, "重試次數必須為大於 1 且不超過 10 的整數"@),
        ("incorrect username or password"@, "使用者名稱或密碼錯誤"@),
        ("incorrect password"@, "密碼錯誤"@),
        ("can't delete yourself"@, "不能刪除自己"@),
        ("server not found"@, "找不到伺服器"@),
        ("user not found"@, "找不到使用者"@),
        ("resource not found"@, "找不到資源"@),
        ("notification not found"@, "找不到通知方式"@),
        ("cron not found"@, "找不到排程任務"@),
        ("nat not found"@, "找不到 NAT 設定"@),
        ("service not found"@, "找不到服務"@),
        ("ddns profile not found"@, "找不到 DDNS 設定"@),
        ("alert rule not found"@, "找不到告警規則"@),
        ("stream not found"@, "找不到串流"@),
        ("invalid server id"@, "伺服器 ID 無效"@),
        ("user id is required"@, "需要使用者 ID"@),
        ("real ip header not found"@, "找不到真實 IP 請求頭"@),
        ("store lock poisoned"@, "儲存鎖已損壞"@),
        ("404 Not Found"@, "404 找不到"@),
    ]
}

fn simplified_table() -> (r: Vec<(&'static str, &'static str)>)
    ensures
        table_view(r@) == simplified(),
{
    let mut t: Vec<(&'static str, &'static str)> = Vec::new();
    t.push(("permission denied", "权限不够"));
    t.push(("unauthorized", "未授权"));
    t.push(("provider is required", "需要提供者"));
    t.push(("provider not found", "未找到提供者"));
    t.push(("operation not permitted", "不允许该操作"));
    t.push(("code is required", "需要 code"));
    t.push(("oauth2 user not binded yet", "oauth2 用户仍未绑定"));
    t.push(("invalid state key", "不正确的 state key"));
    t.push(("server not found or not connected", "服务器未找到或仍未连接"));
    t.push(("the retry count must be an integer between 1 and 10", "重试次数必须为大于 1 且不超过 10 的整数"));
    t.push(("incorrect username or password", "用户名或密码错误"));
    t.push(("incorrect password", "密码错误"));
    t.push(("can't delete yourself", "不能删除自己"));
    t.push(("server not found", "服务器未找到"));
    t.push(("user not found", "用户未找到"));
    t.push(("resource not found", "资源未找到"));
    t.push(("notification not found", "通知方式未找到"));
    t.push(("cron not found", "计划任务未找到"));
    t.push(("nat not found", "NAT 配置未找到"));
    t.push(("service not found", "服务未找到"));
    t.push(("ddns profile not found", "DDNS 配置未找到"));
    t.push(("alert rule not found", "告警规则未找到"));
    t.push(("stream not found", "流未找到"));
    t.push(("invalid server id", "服务器 ID 无效"));
    t.push(("user id is required", "需要用户 ID"));
    t.push(("real ip header not found", "未找到真实 IP 请求头"));
    t.push(("store lock poisoned", "存储锁已损坏"));
    t.push(("404 Not Found", "404 未找到"));
    proof {
        assert(table_view(t@) =~= simplified());
    }
    t
}

fn traditional_table() -> (r: Vec<(&'static str, &'static str)>)
    ensures
        table_view(r@) == traditional(),
{
    let mut t: Vec<(&'static str, &'static str)> = Vec::new();
    t.push(("permission denied", "權限不足"));
    t.push(("unauthorized", "未授權"));
    t.push(("provider is required", "需要提供者"));
    t.push(("provider not found", "找不到提供者"));
    t.push(("operation not permitted", "不允許此操作"));
    t.push(("code is required", "需要 code"));
    t.push(("oauth2 user not binded yet", "oauth2 使用者尚未綁定"));
    t.push(("invalid state key", "不正確的 state key"));
    t.push(("server not found or not connected", "伺服器未找到或尚未連線"));
    t.push(("the retry count must be an integer between 1 and 10", "重試次數必須為大於 1 且不超過 10 的整數"));
    t.push(("incorrect username or password", "使用者名稱或密碼錯誤"));
    t.push(("incorrect password", "密碼錯誤"));
    t.push(("can't delete yourself", "不能刪除自己"));
    t.push(("server not found", "找不到伺服器"));
    t.push(("user not found", "找不到使用者"));
    t.push(("resource not found", "找不到資源"));
    t.push(("notification not found", "找不到通知方式"));
    t.push(("cron not found", "找不到排程任務"));
    t.push(("nat not found", "找不到 NAT 設定"));
    t.push(("service not found", "找不到服務"));
    t.push(("ddns profile not found", "找不到 DDNS 設定"));
    t.push(("alert rule not found", "找不到告警規則"));
    t.push(("stream not found", "找不到串流"));
    t.push(("invalid server id", "伺服器 ID 無效"));
    t.push(("user id is required", "需要使用者 ID"));
    t.push(("real ip header not found", "找不到真實 IP 請求頭"));
    t.push(("store lock poisoned", "儲存鎖已損壞"));
    t.push(("404 Not Found", "404 找不到"));
    proof {
        assert(table_view(t@) =~= traditional());
    }
    t
}

/// The message as the table has it, or as it is where the table has none.
pub open spec fn looked_up(table: Seq<(Seq<char>, Seq<char>)>, message: Seq<char>) -> Seq<char>
    decreases table.len(),
{
    if table.len() == 0 {
        message
    } else if table[0].0 == message {
        table[0].1
    } else {
        looked_up(table.drop_first(), message)
    }
}

fn look_up<'a>(table: &Vec<(&'static str, &'static str)>, message: &'a str) -> (r: &'a str)
    ensures
        r@ == looked_up(table_view(table@), message@),
{
    let mut i: usize = 0;
    let ghost all = table_view(table@);
    proof {
        assert(all.skip(0) =~= all);
    }
    while i < table.len()
        invariant
            i <= table@.len(),
            all == table_view(table@),
            looked_up(all.skip(i as int), message@) == looked_up(all, message@),
        decreases table@.len() - i,
    {
        proof {
            assert(all.skip(i as int)[0] == (table@[i as int].0@, table@[i as int].1@));
            assert(all.skip(i as int).drop_first() =~= all.skip(i + 1));
        }
        if same(table[i].0, message) {
            return table[i].1;
        }
        i += 1;
    }
    message
}

/// The message in simplified Chinese.
pub fn zh_cn(message: &str) -> (r: &str)
    ensures
        r@ == looked_up(simplified(), message@),
{
    look_up(&simplified_table(), message)
}

/// The message in traditional Chinese.
pub fn zh_tw(message: &str) -> (r: &str)
    ensures
        r@ == looked_up(traditional(), message@),
{
    look_up(&traditional_table(), message)
}

/// A language by its usual name: English where none is given, and one name each
/// for simplified and traditional Chinese.
pub open spec fn normalized(language: Seq<char>) -> Seq<char> {
    let l = search::replaced(text::trimmed(language), "-"@, "_"@);
    if l == "zh"@ || l == "zh_Hans"@ || l == "zh_CN"@ {
        "zh_CN"@
    } else if l == "zh_Hant"@ || l == "zh_TW"@ || l == "zh_HK"@ {
        "zh_TW"@
    } else if l.len() == 0 {
        "en_US"@
    } else {
        l
    }
}

/// A language by its usual name.
pub fn normalize_language(language: &str) -> (r: String)
    ensures
        r@ == normalized(language@),
{
    proof {
        reveal_strlit("-");
    }
    let t = trim(language);
    let l = replace(t.as_str(), "-", "_");
    let s = l.as_str();
    if same(s, "zh") || same(s, "zh_Hans") || same(s, "zh_CN") {
        "zh_CN".to_owned()
    } else if same(s, "zh_Hant") || same(s, "zh_TW") || same(s, "zh_HK") {
        "zh_TW".to_owned()
    } else if s.is_empty() {
        "en_US".to_owned()
    } else {
        l
    }
}

/// The message in a language; any but the Chinese ones keep it as it is.
pub open spec fn translated(language: Seq<char>, message: Seq<char>) -> Seq<char> {
    if normalized(language) == "zh_CN"@ {
        looked_up(simplified(), message)
    } else if normalized(language) == "zh_TW"@ {
        looked_up(traditional(), message)
    } else {
        message
    }
}

/// The message in a language.
pub fn translate_with_language<'a>(language: &str, message: &'a str) -> (r: &'a str)
    ensures
        r@ == translated(language@, message@),
{
    let l = normalize_language(language);
    if same(l.as_str(), "zh_CN") {
        zh_cn(message)
    } else if same(l.as_str(), "zh_TW") {
        zh_tw(message)
    } else {
        message
    }
}

/// The language of the dashboard.
#[derive(Debug, Clone)]
pub struct Translator {
    pub language: String,
}

impl Translator {
    /// English.
    pub fn new() -> (r: Translator)
        ensures
            r.language@ == "en_US"@,
    {
        Translator { language: "en_US".to_owned() }
    }

    /// Changes the language.
    pub fn set_language(&mut self, language: &str)
        ensures
            final(self).language@ == normalized(language@),
    {
        self.language = normalize_language(language);
    }

    /// The message in the language that is set.
    pub fn translate(&self, message: &str) -> (r: String)
        ensures
            r@ == translated(self.language@, message@),
    {
        translate_with_language(self.language.as_str(), message).to_owned()
    }
}

/// A message is the same in English, in a language that is not known, and where
/// none is set.
pub proof fn unknown_languages_keep_messages(language: Seq<char>, message: Seq<char>)
    requires
        normalized(language) != "zh_CN"@,
        normalized(language) != "zh_TW"@,
    ensures
        translated(language, message) == message,
{
}

/// A message that no table has is never changed.
pub proof fn unknown_messages_are_kept(
    table: Seq<(Seq<char>, Seq<char>)>,
    message: Seq<char>,
)
    requires
        forall|i: int| 0 <= i < table.len() ==> (#[trigger] table[i]).0 != message,
    ensures
        looked_up(table, message) == message,
    decreases table.len(),
{
    if table.len() > 0 {
        assert(table[0].0 != message);
        assert forall|i: int| 0 <= i < table.drop_first().len() implies (
        #[trigger] table.drop_first()[i]).0 != message by {
            assert(table.drop_first()[i] == table[i + 1]);
        }
        unknown_messages_are_kept(table.drop_first(), message);
    }
}

/// A message that a table has is told as the first of its entries says.
pub proof fn known_messages_are_translated(
    table: Seq<(Seq<char>, Seq<char>)>,
    message: Seq<char>,
    at: int,
)
    requires
        0 <= at < table.len(),
        table[at].0 == message,
        forall|i: int| 0 <= i < at ==> (#[trigger] table[i]).0 != message,
    ensures
        looked_up(table, message) == table[at].1,
    decreases table.len(),
{
    if at > 0 {
        let rest = table.drop_first();
        assert(table[0].0 != message);
        assert forall|i: int| 0 <= i < at - 1 implies (#[trigger] rest[i]).0 != message by {
            assert(rest[i] == table[i + 1]);
        }
        known_messages_are_translated(rest, message, at - 1);
    }
}

/// The two ways to write Chinese are never taken for each other: names of the one lead
/// to the simplified table and names of the other to the traditional one.
pub proof fn chinese_is_told_as_it_is_named(message: Seq<char>, language: Seq<char>)
    requires
        text::trimmed(language) == language,
        !search::occurs(language, "-"@),
    ensures
        language == "zh"@ || language == "zh_Hans"@ || language == "zh_CN"@ ==> translated(
            language,
            message,
        ) == looked_up(simplified(), message),
        language == "zh_Hant"@ || language == "zh_TW"@ || language == "zh_HK"@ ==> translated(
            language,
            message,
        ) == looked_up(traditional(), message),
{
    reveal_strlit("-");
    search::absent_patterns_are_not_replaced(language, "-"@, "_"@);
    lemma_names_differ();
}

proof fn lemma_names_differ()
    ensures
        "zh"@.len() == 2,
        "zh_Hans"@.len() == 7 && "zh_Hans"@[6] == 's',
        "zh_Hant"@.len() == 7 && "zh_Hant"@[6] == 't',
        "zh_CN"@.len() == 5 && "zh_CN"@[3] == 'C',
        "zh_TW"@.len() == 5 && "zh_TW"@[3] == 'T',
        "zh_HK"@.len() == 5 && "zh_HK"@[3] == 'H',
        "en_US"@.len() == 5 && "en_US"@[0] == 'e',
        "zh_CN"@[0] == 'z' && "zh_TW"@[0] == 'z' && "zh_HK"@[0] == 'z',
{
    reveal_strlit("zh");
    reveal_strlit("zh_Hans");
    reveal_strlit("zh_Hant");
    reveal_strlit("zh_CN");
    reveal_strlit("zh_TW");
    reveal_strlit("zh_HK");
    reveal_strlit("en_US");
}

proof fn lemma_underscored_stays(language: Seq<char>, l: Seq<char>)
    requires
        text::trimmed(language) == language,
        l == search::replaced(language, seq!['-'], seq!['_']),
    ensures
        text::trimmed(l) == l,
        search::replaced(l, seq!['-'], seq!['_']) == l,
{
    search::characters_are_replaced_one_by_one(language, '-', '_');
    text::bare_texts_are_kept(language);
    text::bare_texts_are_kept(l);
    search::characters_are_replaced_one_by_one(l, '-', '_');
    assert(search::replaced(l, seq!['-'], seq!['_']) =~= l);
}

/// A language is the same with a hyphen and with an underscore.
pub proof fn hyphens_and_underscores_are_the_same(language: Seq<char>)
    requires
        text::trimmed(language) == language,
    ensures
        normalized(language) == normalized(search::replaced(language, "-"@, "_"@)),
{
    assert("-"@ =~= seq!['-']) by {
        reveal_strlit("-");
    }
    assert("_"@ =~= seq!['_']) by {
        reveal_strlit("_");
    }
    lemma_underscored_stays(language, search::replaced(language, "-"@, "_"@));
}

} // verus!
