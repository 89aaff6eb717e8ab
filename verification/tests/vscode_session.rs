use serde_json::Value;
use std::collections::BTreeSet;
use wb_switch_core::ids::{gen_hex32, hex32_from_random, is_hex32, unique_hex32};
use wb_switch_core::time::millis_to_i64;
use wb_switch_core::copy_step::{copy_item_step, CopyItemAction as A, CopyItemEvent as E, CopyItemStage as S};
use wb_switch_core::json::Json;
use wb_switch_core::paths::{FsPath, Platform};
use wb_switch_core::time::time_to_ms;
use wb_switch_core::vscode_session::{
    check_copy_item, check_copy_source, check_copy_uids, conversation_entry, conversation_has_history,
    copied_as_is, copied_outcome, copy_failure_message, copy_report, copy_items_report, copy_target_uid, copy_vscode_sessions_gate, copy_gate_step, GateProbe, GateStep, switch_with_copy_start, SwitchCopyStart,
    distinct_workspaces, ext_data_root, ext_data_root_candidates, find_conversation, finish_switch_with_copy,
    history_root, is_safe_uid, item_error, list_sessions_in, merge_workspace_index, message_file_name,
    message_file_stem, remap_extra, remap_message_file, remap_session_index, remap_value_recursive, session_ids,
    sort_sessions, temp_dir_name, uid_data_dir, workspace_index_or_empty, CopyFailure, CopyGate, CopyItem, ItemProbe,
    ExtraRewrite, MessageRewrite, RemapPlan, ScannedWorkspace,
};

const WS: &str = "0123456789abcdef0123456789abcdef";
const CONV_OLD: &str = "aaaaaaaaaaaaaaaaaaaaaaaaaaaaaaaa";
const CONV_EXISTING: &str = "eeeeeeeeeeeeeeeeeeeeeeeeeeeeeeee";
const MSG_1: &str = "bbbbbbbbbbbbbbbbbbbbbbbbbbbbbbbb";
const MSG_2: &str = "cccccccccccccccccccccccccccccccc";
const REQ_1: &str = "dddddddddddddddddddddddddddddddd";
const SRC_UID: &str = "uid-src-0001";
const DST_UID: &str = "uid-dst-0002";

fn to_json(v: &Value) -> Json {
    match v {
        Value::Null => Json::Null,
        Value::Bool(b) => Json::Bool(*b),
        Value::Number(n) => match n.as_i64() {
            Some(i) => Json::Int(i),
            None => Json::Num(n.to_string()),
        },
        Value::String(s) => Json::Str(s.clone()),
        Value::Array(a) => Json::Arr(a.iter().map(to_json).collect()),
        Value::Object(m) => Json::Obj(m.iter().map(|(k, x)| (k.clone(), to_json(x))).collect()),
    }
}

fn from_json(j: &Json) -> Value {
    match j {
        Json::Null => Value::Null,
        Json::Bool(b) => Value::Bool(*b),
        Json::Int(i) => Value::from(*i),
        Json::Num(t) => t.parse::<serde_json::Number>().map(Value::Number).unwrap_or(Value::Null),
        Json::Str(s) => Value::String(s.clone()),
        Json::Arr(a) => Value::Array(a.iter().map(from_json).collect()),
        Json::Obj(entries) => {
            let mut m = serde_json::Map::new();
            for (k, x) in entries {
                if !m.contains_key(k) {
                    m.insert(k.clone(), from_json(x));
                }
            }
            Value::Object(m)
        }
    }
}

fn val(text: &str) -> Value {
    serde_json::from_str(text).unwrap()
}

fn parse(text: &str) -> Json {
    to_json(&serde_json::from_str::<Value>(text).unwrap())
}

fn source_workspace_index() -> String {
    format!(
        r#"{{"conversations":[{{"id":"{CONV_OLD}","type":"craft","name":"测试会话","createdAt":"2026-09-15T07:47:01.550Z","lastMessageAt":"2026-09-16T05:22:25.406Z","chatMode":"craft"}}],"current":"{CONV_OLD}"}}"#
    )
}

fn source_conversation_index() -> String {
    format!(
        r#"{{"messages":[{{"id":"{MSG_1}","type":"text","role":"user","isComplete":true}},{{"id":"{MSG_2}","type":"text","role":"assistant","isComplete":true}}],"requests":[{{"id":"{REQ_1}","type":"craft","messages":["{MSG_1}","{MSG_2}"],"state":"complete","startedAt":1789532362052}}]}}"#
    )
}

fn item(ws: &str, conv: &str) -> CopyItem {
    CopyItem { workspace_hash: ws.to_string(), conversation_id: conv.to_string() }
}

#[test]
fn ids_from_random_bytes_carry_version_and_variant() {
    assert_eq!(hex32_from_random([0u8; 16]), "00000000000040008000000000000000");
    assert_eq!(hex32_from_random([0xffu8; 16]), "ffffffffffff4fffbfffffffffffffff");
    let raw = [0x12, 0x34, 0x56, 0x78, 0x9a, 0xbc, 0xde, 0xf0, 0x12, 0x34, 0x56, 0x78, 0x9a, 0xbc, 0xde, 0xf0];
    assert_eq!(hex32_from_random(raw), "123456789abc4ef0923456789abcdef0");
}

#[test]
fn clock_millis_fit_an_i64_or_are_refused() {
    assert_eq!(millis_to_i64(0), Some(0));
    assert_eq!(millis_to_i64(1_700_000_000_000), Some(1_700_000_000_000));
    assert_eq!(millis_to_i64(i64::MAX as u128), Some(i64::MAX));
    assert_eq!(millis_to_i64(i64::MAX as u128 + 1), None);
}

#[test]
fn gen_hex32_is_32_lower_hex_and_unique() {
    let mut seen = BTreeSet::new();
    for _ in 0..64 {
        let id = gen_hex32().expect("random source");
        assert_eq!(id.len(), 32);
        assert!(is_hex32(&id), "not lower hex: {id}");
        assert!(seen.insert(id), "duplicate id generated");
    }
}

#[test]
fn safe_uid_rejects_default_public_and_paths() {
    assert!(is_safe_uid("3d3fbea0abcdef"));
    assert!(!is_safe_uid("default"));
    assert!(!is_safe_uid("Public"));
    assert!(!is_safe_uid("a/b"));
    assert!(!is_safe_uid("a\\b"));
    assert!(!is_safe_uid(".."));
    assert!(!is_safe_uid(""));
}

#[test]
fn list_sessions_in_reports_title_and_history() {
    let index = parse(&source_workspace_index());
    let conv_index = parse(&source_conversation_index());
    let ids = session_ids(&index);
    assert_eq!(ids, vec![CONV_OLD.to_string()]);
    let has_history = vec![conversation_has_history(Some(&conv_index), true)];
    let workspaces = vec![ScannedWorkspace { hash: WS.to_string(), index_present: true, index: Some(index), has_history }];
    let result = from_json(&list_sessions_in(SRC_UID, &workspaces));
    let sessions = result.get("sessions").and_then(Value::as_array).unwrap();
    assert_eq!(sessions.len(), 1);
    let session = &sessions[0];
    assert_eq!(session.get("id").and_then(Value::as_str), Some(CONV_OLD));
    assert_eq!(session.get("workspaceHash").and_then(Value::as_str), Some(WS));
    assert_eq!(session.get("title").and_then(Value::as_str), Some("测试会话"));
    assert_eq!(session.get("hasHistory").and_then(Value::as_bool), Some(true));
    assert!(session.get("updatedAt").and_then(Value::as_i64).unwrap() > 0);
}

#[test]
fn rejects_same_source_and_target_uid() {
    let error = check_copy_uids(SRC_UID, SRC_UID).unwrap_err();
    assert!(error.contains("相同"));
}

#[test]
fn rejects_default_and_public_target_uid() {
    assert!(check_copy_uids(SRC_UID, "default").is_err());
    assert!(check_copy_uids(SRC_UID, "Public").is_err());
}

#[test]
fn listing_counts_damaged_workspaces_and_sorts_newest_first() {
    let index = parse(r#"{"conversations":[{"id":" a ","createdAt":5},{"id":""},{"id":"b","lastMessageAt":2000000000000,"name":"  "},{"id":"c","createdAt":"2026-01-01T00:00:00Z","type":"t"}]}"#);
    let ws = vec![
        ScannedWorkspace { hash: "w1".to_string(), index_present: true, index: Some(index), has_history: vec![false, true, false] },
        ScannedWorkspace { hash: "w2".to_string(), index_present: true, index: None, has_history: vec![] },
        ScannedWorkspace { hash: "w3".to_string(), index_present: true, index: Some(parse(r#"{"conversations":{}}"#)), has_history: vec![] },
        ScannedWorkspace { hash: "w4".to_string(), index_present: false, index: None, has_history: vec![] },
    ];
    let v = from_json(&list_sessions_in("u1", &ws));
    assert_eq!(v["sourceUid"], "u1");
    assert_eq!(v["skipped"], 2);
    let s = v["sessions"].as_array().unwrap();
    assert_eq!(s.len(), 3);
    assert_eq!(s[0]["id"], "b");
    assert_eq!(s[0]["title"], "(无标题)");
    assert_eq!(s[0]["hasHistory"], true);
    assert_eq!(s[1]["id"], "c");
    assert_eq!(s[1]["updatedAt"], 1767225600000_i64);
    assert_eq!(s[1]["type"], "t");
    assert_eq!(s[2]["id"], "a");
    assert_eq!(s[2]["updatedAt"], 5000);
    let v = from_json(&list_sessions_in("default", &ws));
    assert_eq!(v["sessions"].as_array().map(|a| a.len()), Some(0));
    assert_eq!(v["skipped"], 0);
}

#[test]
fn sort_is_stable_for_equal_times() {
    let s = vec![parse(r#"{"k":1,"updatedAt":1}"#), parse(r#"{"k":2,"updatedAt":3}"#), parse(r#"{"k":3,"updatedAt":1}"#)];
    let sorted: Vec<Value> = sort_sessions(&s).iter().map(from_json).collect();
    assert_eq!(sorted.iter().map(|x| x["k"].as_i64().unwrap()).collect::<Vec<_>>(), vec![2, 1, 3]);
}

#[test]
fn time_fields_read_as_milliseconds() {
    assert_eq!(time_to_ms(Some(&parse(r#"" 1970-01-01T00:00:01Z ""#))), 1000);
    assert_eq!(time_to_ms(Some(&parse("1700000000000"))), 1700000000000);
    assert_eq!(time_to_ms(Some(&parse("1700000000"))), 1700000000000);
    assert_eq!(time_to_ms(Some(&parse("-9223372036854775807"))), i64::MIN);
    assert_eq!(time_to_ms(Some(&parse(r#""yesterday""#))), 0);
    assert_eq!(time_to_ms(Some(&parse("1.5"))), 0);
    assert_eq!(time_to_ms(None), 0);
}

#[test]
fn copy_pipeline_remaps_every_id_in_memory() {
    let source_index = parse(&source_conversation_index());
    let names = vec![format!("{MSG_1}.json"), format!("{MSG_2}.json"), "notes.txt".to_string()];
    let plan = RemapPlan::build(&source_index, &names);
    assert_eq!(plan.message_total, 2);
    let new_msg_1 = plan.lookup(MSG_1).unwrap();
    let new_msg_2 = plan.lookup(MSG_2).unwrap();
    let new_req = plan.lookup(REQ_1).unwrap();
    for id in [&new_msg_1, &new_msg_2, &new_req] {
        assert!(is_hex32(id));
        assert!(![MSG_1, MSG_2, REQ_1].contains(&id.as_str()));
    }
    assert_ne!(new_msg_1, new_msg_2);
    assert!(plan.lookup("unknown").is_none());

    let remapped = from_json(&remap_session_index(&source_index, &plan));
    assert_eq!(remapped["messages"][0]["id"], new_msg_1.as_str());
    assert_eq!(remapped["messages"][1]["id"], new_msg_2.as_str());
    assert_eq!(remapped["requests"][0]["id"], new_req.as_str());
    assert_eq!(remapped["requests"][0]["messages"], Value::Array(vec![Value::String(new_msg_1.clone()), Value::String(new_msg_2.clone())]));
    assert_eq!(remapped["requests"][0]["startedAt"], 1789532362052_i64);

    assert_eq!(message_file_name(&format!("{MSG_1}.json"), &plan), format!("{new_msg_1}.json"));
    assert_eq!(message_file_name("notes.txt", &plan), "notes.txt");
    assert_eq!(message_file_stem("a.json"), "a");
    assert_eq!(message_file_stem("json"), "json");

    let extra_text = format!(
        r#"{{"requestId":"{REQ_1}","responseId":"{MSG_1}","modelId":"deepseek-v4","tasks":[{{"messageId":"{MSG_2}","status":"done"}}],"sourceContentBlocks":["{MSG_2}"],"selectionContexts":[{{"id":"{REQ_1}"}}]}}"#
    );
    let message = Json::Obj(vec![("role".to_string(), Json::Str("user".to_string())), ("id".to_string(), Json::Str(MSG_1.to_string())), ("extra".to_string(), Json::Str(extra_text.clone()))]);
    match remap_message_file(Some(message), Some(parse(&extra_text)), MSG_1, &plan) {
        MessageRewrite::Rewrite(m, ExtraRewrite::Stringify(extra)) => {
            let m = from_json(&m);
            assert_eq!(m["id"], new_msg_1.as_str());
            let extra = from_json(&extra);
            assert_eq!(extra["requestId"], new_req.as_str());
            assert_eq!(extra["responseId"], new_msg_1.as_str());
            assert_eq!(extra["modelId"], "deepseek-v4");
            assert_eq!(extra["tasks"][0]["messageId"], new_msg_2.as_str());
            assert_eq!(extra["sourceContentBlocks"][0], new_msg_2.as_str());
            assert_eq!(extra["selectionContexts"][0]["id"], new_req.as_str());
            let text = serde_json::to_string(&extra).unwrap();
            for old in [MSG_1, MSG_2, REQ_1] {
                assert!(!text.contains(old));
            }
        }
        _ => panic!("message not rewritten"),
    }
    assert!(matches!(remap_message_file(None, None, MSG_1, &plan), MessageRewrite::KeepText));
    assert!(matches!(remap_message_file(Some(parse("[1]")), None, MSG_1, &plan), MessageRewrite::KeepText));
    assert!(matches!(remap_extra(&parse("3"), None, &plan), ExtraRewrite::Keep));
    match remap_extra(&parse(&format!(r#"{{"responseId":"{REQ_1}"}}"#)), None, &plan) {
        ExtraRewrite::Replace(x) => assert_eq!(from_json(&x)["responseId"], new_req.as_str()),
        _ => panic!("object extra not replaced"),
    }
    let deep = from_json(&remap_value_recursive(&parse(&format!(r#"[["{MSG_2}"],{{"a":"{MSG_2}x"}}]"#)), &plan));
    assert_eq!(deep[0][0], new_msg_2.as_str());
    assert_eq!(deep[1]["a"], format!("{MSG_2}x"));
}

#[test]
fn merged_index_keeps_current_and_appends() {
    let target = parse(&format!(r#"{{"conversations":[{{"id":"{CONV_EXISTING}","type":"craft","name":"已存在"}}],"current":"{CONV_EXISTING}"}}"#));
    let source = parse(&source_workspace_index());
    let source_entry = find_conversation(&source, CONV_OLD);
    let entry = conversation_entry(source_entry.as_ref(), "ffffffffffffffffffffffffffffffff");
    let merged = from_json(&merge_workspace_index(target, entry));
    let conversations = merged["conversations"].as_array().unwrap();
    assert_eq!(conversations.len(), 2);
    assert_eq!(merged["current"], CONV_EXISTING);
    assert_eq!(conversations[1]["id"], "ffffffffffffffffffffffffffffffff");
    assert_eq!(conversations[1]["name"], "测试会话");
    assert_eq!(conversations[1]["chatMode"], "craft");

    let fresh = from_json(&conversation_entry(None, "x"));
    assert_eq!(fresh, val(r#"{"id": "x", "type": "craft", "name": "", "createdAt": null, "lastMessageAt": null}"#));
    let from_nothing = from_json(&merge_workspace_index(parse("[]"), parse("1")));
    assert_eq!(from_nothing, val(r#"{"conversations": [1]}"#));
    assert!(find_conversation(&parse("{}"), CONV_OLD).is_none());
    assert_eq!(from_json(&workspace_index_or_empty(None)), val(r#"{}"#));
}

#[test]
fn copy_items_are_checked_before_copying() {
    let (ws, conv) = check_copy_item(&item(&format!(" {WS} "), CONV_OLD)).unwrap();
    assert_eq!((ws.as_str(), conv.as_str()), (WS, CONV_OLD));
    let err = from_json(&check_copy_item(&item(WS, "bad-id")).unwrap_err());
    assert_eq!(err, val(&format!(r#"{{"workspaceHash": "{WS}", "conversationId": "bad-id", "error": "工作区或会话 id 非法"}}"#)));
    let missing = from_json(&check_copy_source(WS, CONV_OLD, false, true).unwrap());
    assert_eq!(missing["error"], "源会话目录不存在");
    let no_state = from_json(&check_copy_source(WS, CONV_OLD, true, false).unwrap());
    assert_eq!(no_state["error"], "工作区状态缺失");
    assert!(check_copy_source(WS, CONV_OLD, true, true).is_none());
    let hashes = distinct_workspaces(&vec![item(WS, "a"), item("bad", "b"), item(&format!("{WS}\n"), "c")]);
    assert_eq!(hashes, vec![WS.to_string()]);
}

#[test]
fn target_workspaces_come_sorted_and_once() {
    let hashes = distinct_workspaces(&vec![item(MSG_2, "a"), item(WS, "b"), item(CONV_OLD, "c"), item(WS, "d"), item(MSG_2, "e")]);
    assert_eq!(hashes, vec![WS.to_string(), CONV_OLD.to_string(), MSG_2.to_string()]);
    assert!(distinct_workspaces(&vec![]).is_empty());
}

#[test]
fn copy_failures_and_reports() {
    assert_eq!(copy_failure_message(CopyFailure::MissingIndex), "源会话 index.json 缺失或损坏");
    assert_eq!(copy_failure_message(CopyFailure::WriteTemp("e1".to_string())), "写入临时会话目录失败：e1");
    assert_eq!(copy_failure_message(CopyFailure::Commit("e2".to_string())), "提交会话目录失败：e2");
    assert_eq!(copy_failure_message(CopyFailure::MergeIndex("e3".to_string())), "合并工作区索引失败：e3");
    assert_eq!(temp_dir_name("abc"), ".tmp-abc");
    assert!(copied_as_is("assets"));
    assert!(!copied_as_is("index.json"));
    assert!(!copied_as_is(".index_bak.json"));
    assert!(!copied_as_is("messages"));

    let outcome = copied_outcome(WS, CONV_OLD, "n", 2);
    let ok = from_json(&copy_report(SRC_UID, DST_UID, vec![outcome], vec![], "/b"));
    assert_eq!(ok["copied"][0]["messages"], 2);
    assert_eq!(ok["backup"], "/b");
    assert!(ok.get("errors").is_none());
    let failed = from_json(&copy_report(SRC_UID, DST_UID, vec![], vec![item_error(WS, "x", "boom")], "/b"));
    assert_eq!(failed["errors"][0]["error"], "boom");
    assert_eq!(failed["copied"], val(r#"[]"#));
}

#[test]
fn copy_gate_reads_only_what_it_needs() {
    let good = "uid-dst";
    let ask = |s: GateStep| match s {
        GateStep::Ask(p) => p,
        GateStep::Done(_) => panic!("decided too early"),
    };
    let refused = |s: GateStep| match s {
        GateStep::Done(CopyGate::Refuse(e)) => e,
        _ => panic!("not refused"),
    };
    assert!(matches!(copy_gate_step(good, true, None, None, None), GateStep::Done(CopyGate::Nothing(_))));
    assert_eq!(refused(copy_gate_step("default", false, None, None, None)), "目标账号 uid 非法，拒绝写入");
    assert!(matches!(ask(copy_gate_step(good, false, None, None, None)), GateProbe::VscodeRunning));
    assert!(refused(copy_gate_step(good, false, Some(true), None, None)).contains("正在运行"));
    assert!(matches!(ask(copy_gate_step(good, false, Some(false), None, None)), GateProbe::ActiveUid));
    assert!(refused(copy_gate_step(good, false, Some(false), Some(None), None)).contains("未检测到"));
    assert_eq!(refused(copy_gate_step(good, false, Some(false), Some(Some(good.to_string())), None)), "源账号与目标账号相同，无需复制会话");
    assert!(matches!(ask(copy_gate_step(good, false, Some(false), Some(Some("uid-src".to_string())), None)), GateProbe::DataRoot));
    assert_eq!(
        refused(copy_gate_step(good, false, Some(false), Some(Some("uid-src".to_string())), Some(None))),
        "未找到 CodeBuddy 扩展数据目录，无法复制会话"
    );
    match copy_gate_step(good, false, Some(false), Some(Some("uid-src".to_string())), Some(Some(FsPath::new("R")))) {
        GateStep::Done(CopyGate::Copy(u, root)) => {
            assert_eq!(u, "uid-src");
            assert_eq!(root.parts, vec!["R".to_string()]);
        }
        _ => panic!("copy expected"),
    }
}

#[test]
fn copy_gate_checks_in_order() {
    let good = "uid-dst";
    match copy_vscode_sessions_gate(good, true, true, None, None) {
        CopyGate::Nothing(j) => assert_eq!(from_json(&j), val(r#"{"copied": [], "errors": []}"#)),
        _ => panic!("empty selection"),
    }
    let refuse = |g: CopyGate| match g {
        CopyGate::Refuse(e) => e,
        _ => panic!("not refused"),
    };
    assert_eq!(refuse(copy_vscode_sessions_gate("default", false, false, None, Some(FsPath::new("R")))), "目标账号 uid 非法，拒绝写入");
    assert!(refuse(copy_vscode_sessions_gate(good, false, true, None, Some(FsPath::new("R")))).contains("正在运行"));
    assert!(refuse(copy_vscode_sessions_gate(good, false, false, Some("a/b".to_string()), Some(FsPath::new("R")))).contains("未检测到"));
    assert_eq!(
        refuse(copy_vscode_sessions_gate(good, false, false, Some(good.to_string()), Some(FsPath::new("R")))),
        "源账号与目标账号相同，无需复制会话"
    );
    assert_eq!(
        refuse(copy_vscode_sessions_gate(good, false, false, Some("uid-src".to_string()), None)),
        "未找到 CodeBuddy 扩展数据目录，无法复制会话"
    );
    match copy_vscode_sessions_gate(good, false, false, Some("uid-src".to_string()), Some(FsPath::new("R"))) {
        CopyGate::Copy(u, root) => {
            assert_eq!(u, "uid-src");
            assert_eq!(root.parts, vec!["R".to_string()]);
        }
        _ => panic!("copy expected"),
    }
}

#[test]
fn switch_after_copy_reports_copied_count_on_failure() {
    let report = parse(r#"{"copied":[1,2,3],"errors":[]}"#);
    let err = finish_switch_with_copy(Err("切换失败".to_string()), report).unwrap_err();
    assert_eq!(err, "切换失败（注意：已成功复制 3 个会话到目标账号，但账号切换未完成，请重试切换）");
    let err = finish_switch_with_copy(Err("e".to_string()), parse(r#"{"copied":[]}"#)).unwrap_err();
    assert_eq!(err, "e");
    let ok = finish_switch_with_copy(Ok(parse(r#"{"ok":true}"#)), parse(r#"{"copied":[]}"#)).unwrap();
    assert_eq!(from_json(&ok), val(r#"{"ok": true, "sessionCopy": {"copied": []}}"#));
    assert_eq!(copy_target_uid("a1", None), Err("账号不存在: a1".to_string()));
    assert_eq!(copy_target_uid("a1", Some(&parse(r#"{"uid":"u"}"#))), Ok("u".to_string()));
    assert!(copy_target_uid("a1", Some(&parse("{}"))).unwrap_err().starts_with("账号缺少 uid"));
}

#[test]
fn switch_without_items_is_the_plain_switch() {
    assert!(matches!(switch_with_copy_start("a1", true, None), SwitchCopyStart::PlainSwitch));
    assert!(matches!(switch_with_copy_start("a1", true, Some(&parse(r#"{"uid":"u"}"#))), SwitchCopyStart::PlainSwitch));
    match switch_with_copy_start("a1", false, Some(&parse(r#"{"uid":"u"}"#))) {
        SwitchCopyStart::Copy(uid) => assert_eq!(uid, "u"),
        other => panic!("{other:?}"),
    }
    match switch_with_copy_start("a1", false, None) {
        SwitchCopyStart::Refuse(error) => assert_eq!(error, "账号不存在: a1"),
        other => panic!("{other:?}"),
    }
}

#[test]
fn data_layout_paths() {
    let c = ext_data_root_candidates(Platform::Windows, Some("L".to_string()), Some("D".to_string()), Some("L".to_string()));
    assert_eq!(c.len(), 1);
    assert_eq!(c[0].parts, vec!["L".to_string(), "CodeBuddyExtension".to_string(), "Data".to_string()]);
    let c = ext_data_root_candidates(Platform::Other, None, Some("D".to_string()), Some("C".to_string()));
    assert_eq!(c.len(), 2);
    assert_eq!(c[0].parts[0], "D");
    assert_eq!(ext_data_root(&c, &vec![false, true]).unwrap().parts[0], "C");
    assert!(ext_data_root(&c, &vec![false, false]).is_none());
    let root = FsPath::new("R");
    assert_eq!(uid_data_dir(&root, "u").parts, vec!["R", "u", "VSCode", "u"]);
    assert_eq!(history_root(&root, "u").parts, vec!["R", "u", "VSCode", "u", "history"]);
}

#[test]
fn fresh_ids_avoid_used_ones() {
    let mut used: Vec<String> = vec!["0".repeat(32)];
    let a = unique_hex32(&mut used);
    let b = unique_hex32(&mut used);
    assert_ne!(a, b);
    assert_eq!(used.len(), 3);
    assert!(is_hex32(&a) && is_hex32(&b));
    assert!(!is_hex32("ABCDEF0123456789abcdef0123456789"));
}

#[test]
fn every_item_lands_in_copied_or_errors_in_order() {
    let items = vec![
        item(WS, "bad-id"),
        item(WS, CONV_OLD),
        item(WS, "ffffffffffffffffffffffffffffffff"),
        item(WS, CONV_EXISTING),
        item(WS, "cccccccccccccccccccccccccccccccc"),
    ];
    let probe = |exists: bool, state: bool, copy: Result<Json, String>| ItemProbe {
        source_dir_exists: exists,
        has_state: state,
        copy,
    };
    let probes = vec![
        probe(true, true, Ok(copied_outcome(WS, "bad-id", "n0", 1))),
        probe(true, true, Ok(copied_outcome(WS, CONV_OLD, "n1", 2))),
        probe(false, true, Err(String::new())),
        probe(true, true, Ok(copied_outcome(WS, CONV_EXISTING, "n2", 0))),
        probe(true, true, Err("写入临时会话目录失败：x".to_string())),
    ];
    let v = from_json(&copy_items_report(SRC_UID, DST_UID, &items, &probes, "/backup"));
    assert_eq!(v["sourceUid"], SRC_UID);
    assert_eq!(v["targetUid"], DST_UID);
    assert_eq!(v["copied"].as_array().map(|a| a.len()), Some(2));
    assert_eq!(v["copied"][0]["newId"], "n1");
    assert_eq!(v["copied"][1]["oldId"], CONV_EXISTING);
    assert_eq!(v["errors"].as_array().map(|a| a.len()), Some(3));
    assert_eq!(v["errors"][0]["error"], "工作区或会话 id 非法");
    assert_eq!(v["errors"][1]["error"], "源会话目录不存在");
    assert_eq!(v["errors"][2]["error"], "写入临时会话目录失败：x");
    let none = from_json(&copy_items_report(SRC_UID, DST_UID, &vec![], &vec![], "/b"));
    assert_eq!(none["copied"], val("[]"));
    assert!(none.get("errors").is_none());
}

#[test]
fn workspace_without_index_is_not_counted_as_damaged() {
    let ws = vec![
        ScannedWorkspace { hash: "a".to_string(), index_present: false, index: None, has_history: vec![] },
        ScannedWorkspace { hash: "b".to_string(), index_present: true, index: None, has_history: vec![] },
    ];
    let v = from_json(&list_sessions_in("u1", &ws));
    assert_eq!(v["skipped"], 1);
}

#[test]
fn copy_steps_undo_what_failed() {
    let (s, a) = copy_item_step(S::Start, E::SourceRead(true));
    assert!(matches!(s, S::NeedId));
    assert_eq!(a, vec![A::MakeId]);
    let (s, a) = copy_item_step(s, E::IdMade(true));
    assert!(matches!(s, S::Writing));
    assert_eq!(a, vec![A::RemoveTemp, A::WriteTemp]);
    let (s2, a) = copy_item_step(S::Writing, E::TempWritten(Err("disk".to_string())));
    assert_eq!(a, vec![A::RemoveTemp]);
    match s2 {
        S::Failed(f) => assert_eq!(copy_failure_message(f), "写入临时会话目录失败：disk"),
        _ => panic!("not failed"),
    }
    let (s, a) = copy_item_step(s, E::TempWritten(Ok(())));
    assert_eq!(a, vec![A::RemoveFinal, A::Rename]);
    let (s, a) = copy_item_step(s, E::Renamed(Ok(())));
    assert_eq!(a, vec![A::MergeIndex]);
    let (s, a) = copy_item_step(s, E::IndexWritten(Err("full".to_string())));
    assert_eq!(a, vec![A::RevertIndex]);
    let (s, a) = copy_item_step(s, E::IndexWritten(Err("still".to_string())));
    assert_eq!(a, vec![A::RestoreIndex, A::RemoveFinal]);
    match s {
        S::Failed(f) => assert_eq!(copy_failure_message(f), "合并工作区索引失败：full"),
        _ => panic!("not failed"),
    }
    let (done, a) = copy_item_step(S::Merging, E::IndexWritten(Ok(())));
    assert!(matches!(done, S::Copied) && a.is_empty());
    let (still, a) = copy_item_step(S::Copied, E::SourceRead(false));
    assert!(matches!(still, S::Copied) && a.is_empty());
    let (s, _) = copy_item_step(S::NeedId, E::IdMade(false));
    match s {
        S::Failed(f) => assert_eq!(copy_failure_message(f), "生成新会话 id 失败"),
        _ => panic!("not failed"),
    }
}

#[test]
fn generated_ids_are_version_4() {
    let id = gen_hex32().expect("random source");
    assert_eq!(&id[12..13], "4");
    assert!(["8", "9", "a", "b"].contains(&&id[16..17]));
}

#[test]
fn copied_outcome_reports_message_count() {
    let v = from_json(&copied_outcome(WS, CONV_OLD, "n", 5));
    assert_eq!(v["messages"], 5);
}
