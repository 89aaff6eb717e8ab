use serde_json::Value;
use wb_switch_core::account_profile::{
    apply_console_reply, console_accounts_url, identity_snapshot, match_console_account, merge_profile,
    refresh_summary, working_account, RefreshOutcome, Refreshed, WbVariant,
};
use wb_switch_core::json::Json;

fn to_json(v: &Value) -> Json {
    match v {
        Value::Null => Json::Null,
        Value::Bool(b) => Json::Bool(*b),
        Value::Number(n) => match n.as_i64() {
            Some(i) => Json::Int(i),
            None => Json::Num(n.to_string()),
        },
        Value::String(s) => Json::Str(s.clone()),
        Value::Array(a) => Json::Arr(a.iter().map(to_json).collect()),
        Value::Object(m) => Json::Obj(m.iter().map(|(k, x)| (k.clone(), to_json(x))).collect()),
    }
}

fn from_json(j: &Json) -> Value {
    match j {
        Json::Null => Value::Null,
        Json::Bool(b) => Value::Bool(*b),
        Json::Int(i) => Value::from(*i),
        Json::Num(t) => t.parse::<serde_json::Number>().map(Value::Number).unwrap_or(Value::Null),
        Json::Str(s) => Value::String(s.clone()),
        Json::Arr(a) => Value::Array(a.iter().map(from_json).collect()),
        Json::Obj(entries) => {
            let mut m = serde_json::Map::new();
            for (k, x) in entries {
                if !m.contains_key(k) {
                    m.insert(k.clone(), from_json(x));
                }
            }
            Value::Object(m)
        }
    }
}

fn val(text: &str) -> Value {
    serde_json::from_str(text).unwrap()
}

fn parse(text: &str) -> Json {
    to_json(&serde_json::from_str::<Value>(text).unwrap())
}

#[test]
fn match_prefers_uid_then_last_login() {
    let console = parse(
        r#"{"code":0,"data":{"accounts":[{"uid":"u-other","nickname":"别人","lastLogin":false},{"uid":"u-self","nickname":"自己","lastLogin":false},{"uid":"u-current","nickname":"当前","lastLogin":true}]}}"#,
    );
    let acc = parse(r#"{"id":"a","uid":"u-self","nickname":"旧"}"#);
    assert_eq!(
        from_json(&match_console_account(&console, &acc).unwrap()).get("uid").and_then(Value::as_str),
        Some("u-self")
    );
    let acc_no_uid = parse(r#"{"id":"a","nickname":"旧"}"#);
    assert_eq!(
        from_json(&match_console_account(&console, &acc_no_uid).unwrap()).get("uid").and_then(Value::as_str),
        Some("u-current")
    );
    let empty = parse(r#"{"code":0,"data":{"accounts":[]}}"#);
    assert!(match_console_account(&empty, &acc).is_none());
}

#[test]
fn merge_profile_keeps_tokens_and_variant() {
    let mut account = parse(r#"{"id":"a","uid":"u-old","nickname":"旧昵称","access_token":"SECRET","variant":"cn"}"#);
    let entry = parse(r#"{"uid":"u-new","nickname":"新昵称","uin":"3301","type":"personal","lastLogin":true}"#);
    merge_profile(&mut account, &entry);
    let account = from_json(&account);
    assert_eq!(account.get("uid").and_then(Value::as_str), Some("u-new"));
    assert_eq!(account.get("nickname").and_then(Value::as_str), Some("新昵称"));
    assert_eq!(account.get("uin").and_then(Value::as_str), Some("3301"));
    assert_eq!(account.get("access_token").and_then(Value::as_str), Some("SECRET"));
    assert_eq!(account.get("variant").and_then(Value::as_str), Some("cn"));
    assert!(account.get("profile_console_raw").and_then(Value::as_object).is_some());
}

#[test]
fn unknown_uid_falls_back_to_the_current_login() {
    let console = parse(r#"{"data":{"accounts":[{"uid":"x","lastLogin":"true"},{"uid":"y","lastLogin":true}]}}"#);
    let acc = parse(r#"{"uid":"nobody"}"#);
    assert_eq!(from_json(&match_console_account(&console, &acc).unwrap())["uid"], "y");
    assert!(match_console_account(&parse(r#"{"data":{"accounts":{}}}"#), &acc).is_none());
    assert!(match_console_account(&parse(r#"{"data":[]}"#), &acc).is_none());
    let none_current = parse(r#"{"data":{"accounts":[{"uid":"x"}]}}"#);
    assert!(match_console_account(&none_current, &acc).is_none());
}

#[test]
fn merge_into_null_builds_an_object() {
    let mut account = Json::Null;
    merge_profile(&mut account, &parse(r#"{"uid":"u","extra":1}"#));
    assert_eq!(from_json(&account), val(r#"{"uid": "u", "profile_console_raw": {"uid": "u", "extra": 1}}"#));
}

#[test]
fn console_reply_is_applied_only_when_it_succeeded() {
    let account = parse(r#"{"id":"a","uid":"u1","nickname":"old","access_token":"t"}"#);
    let reply = parse(r#"{"code":0,"data":{"accounts":[{"uid":"u1","nickname":"new","type":"team"}]}}"#);
    let updated = from_json(&apply_console_reply(&account, &reply).unwrap());
    assert_eq!(updated["nickname"], "new");
    assert_eq!(updated["type"], "team");
    assert_eq!(updated["access_token"], "t");
    assert!(apply_console_reply(&account, &parse(r#"{"code":401,"data":{"accounts":[{"uid":"u1"}]}}"#)).is_none());
    assert!(apply_console_reply(&account, &parse(r#"{"data":{"accounts":[{"uid":"u1"}]}}"#)).is_none());
    assert!(apply_console_reply(&account, &parse(r#"{"code":0,"data":{"accounts":[{"uid":"u2"}]}}"#)).is_none());
}

#[test]
fn working_account_skips_a_refresh_that_needs_login() {
    let stored = parse(r#"{"v":1}"#);
    let fresh = parse(r#"{"v":2}"#);
    assert_eq!(from_json(&working_account(stored, fresh))["v"], 2);
    let stored = parse(r#"{"v":1}"#);
    let relogin = parse(r#"{"v":3,"needs_relogin":true}"#);
    assert_eq!(from_json(&working_account(stored, relogin))["v"], 1);
}

#[test]
fn snapshot_and_summary_of_a_batch_refresh() {
    let snap = from_json(&identity_snapshot(&parse(r#"{"uid":"u","nickname":"n","access_token":"t"}"#)));
    assert_eq!(snap, val(r#"{"uid": "u", "nickname": "n", "uin": null, "type": null}"#));
    let outcomes = vec![
        RefreshOutcome { account_id: "gone".to_string(), refreshed: None },
        RefreshOutcome {
            account_id: "a".to_string(),
            refreshed: Some(Refreshed {
                before: parse(r#"{"uid":"u","nickname":"old"}"#),
                after: parse(r#"{"uid":"u","nickname":"new"}"#),
                name: "new".to_string(),
            }),
        },
        RefreshOutcome {
            account_id: "b".to_string(),
            refreshed: Some(Refreshed {
                before: parse(r#"{"uid":"v","access_token":"1"}"#),
                after: parse(r#"{"uid":"v","access_token":"2"}"#),
                name: "v".to_string(),
            }),
        },
    ];
    let v = from_json(&refresh_summary(&outcomes));
    assert_eq!(v["updated"], 1);
    assert_eq!(v["results"][0], val(r#"{"accountId": "gone", "status": "missing"}"#));
    assert_eq!(v["results"][1], val(r#"{"accountId": "a", "status": "ok", "changed": true, "accountName": "new"}"#));
    assert_eq!(v["results"][2]["changed"], false);
}

#[test]
fn console_urls_per_edition() {
    assert_eq!(console_accounts_url(WbVariant::Cn), "https://www.workbuddy.cn/console/accounts");
    assert_eq!(console_accounts_url(WbVariant::Ai), "https://www.workbuddy.ai/console/accounts");
}
