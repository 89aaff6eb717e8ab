use serde_json::Value;
use std::path::PathBuf;
use wb_switch_core::json::Json;
use wb_switch_core::paths::{FsPath, Platform};
use wb_switch_core::vscode_ext::{
    detect_report,
    active_account_id_from_state, active_ext_uid, build_ext_session_json, build_ext_session_json_at,
    check_switch, describe_inject_error, describe_secret_error, detect_matched, detect_not_found,
    detect_parse_failure, detect_unmatched, existing_secret, image_name_can_be_cut, is_code_image_name,
    is_crashpad_helper_name, is_self_image_name, is_vscode_running, keep_windows_code_row,
    file_name_of, linux_cmdline_is_code, linux_code_pids, linux_exe_is_code, linux_process_is_code, matched_account_id,
    parse_windows_process_rows, row_can_be_judged, secret_storage_item_key_for, set_active_account_id,
    status_report, switch_message, switch_result, vscode_data_dir, vscode_ext_state_db_path, vscode_target,
    windows_code_process_rows, windows_code_rows, windows_image_stem, LinuxProcess, ProcessScan,
    WindowsProcessRow,
};

fn to_json(v: &Value) -> Json {
    match v {
        Value::Null => Json::Null,
        Value::Bool(b) => Json::Bool(*b),
        Value::Number(n) => match n.as_i64() {
            Some(i) => Json::Int(i),
            None => Json::Num(n.to_string()),
        },
        Value::String(s) => Json::Str(s.clone()),
        Value::Array(a) => Json::Arr(a.iter().map(to_json).collect()),
        Value::Object(m) => Json::Obj(m.iter().map(|(k, x)| (k.clone(), to_json(x))).collect()),
    }
}

fn from_json(j: &Json) -> Value {
    match j {
        Json::Null => Value::Null,
        Json::Bool(b) => Value::Bool(*b),
        Json::Int(i) => Value::from(*i),
        Json::Num(t) => t.parse::<serde_json::Number>().map(Value::Number).unwrap_or(Value::Null),
        Json::Str(s) => Value::String(s.clone()),
        Json::Arr(a) => Value::Array(a.iter().map(from_json).collect()),
        Json::Obj(entries) => {
            let mut m = serde_json::Map::new();
            for (k, x) in entries {
                if !m.contains_key(k) {
                    m.insert(k.clone(), from_json(x));
                }
            }
            Value::Object(m)
        }
    }
}

fn val(text: &str) -> Value {
    serde_json::from_str(text).unwrap()
}

fn parse(text: &str) -> Json {
    to_json(&serde_json::from_str::<Value>(text).unwrap())
}

/// The account entry that the account library builds: the account's uid and
/// nickname.
fn account_obj(acc: &Value) -> Json {
    let mut m = serde_json::Map::new();
    if let Some(uid) = acc.get("uid") {
        m.insert("uid".to_string(), uid.clone());
    }
    if let Some(n) = acc.get("nickname") {
        m.insert("nickname".to_string(), n.clone());
    }
    to_json(&Value::Object(m))
}

fn session(acc: &str, existing: Option<&str>) -> Value {
    let acc_v: Value = serde_json::from_str(acc).unwrap();
    let existing = existing.and_then(|t| serde_json::from_str::<Value>(t).ok()).map(|v| to_json(&v));
    from_json(&build_ext_session_json(&to_json(&acc_v), account_obj(&acc_v), existing).expect("clock"))
}

fn to_path(p: &FsPath) -> PathBuf {
    let mut out = PathBuf::new();
    for part in &p.parts {
        out.push(part);
    }
    out
}

#[test]
fn ext_session_json_uses_uid_plus_token_and_vscode_id() {
    let acc = r#"{"uid":"u-42","nickname":"测试","access_token":"tok-abc","refresh_token":"rt-1","domain":"www.codebuddy.cn","expiresAt":1234567890}"#;
    let v = session(acc, None);
    assert_eq!(v["id"], "Tencent-Cloud.coding-copilot");
    assert_eq!(v["accessToken"], "u-42+tok-abc");
    assert_eq!(v["token"], "tok-abc");
    assert_eq!(v["auth"]["accessToken"], "tok-abc");
    assert_eq!(v["account"]["uid"], "u-42");
    assert_eq!(v["converted"], true);
    assert_eq!(v["accounts"].as_array().map(|a| a.len()), Some(1));
}

#[test]
fn ext_session_json_merge_upserts_accounts_and_preserves_fields() {
    let acc = r#"{"uid":"u-99","nickname":"新账号","access_token":"tok-new","refresh_token":"rt-new","domain":"www.codebuddy.cn","expiresAt":42,"refreshExpiresAt":1700000000000}"#;
    let existing = r#"{"accounts":[{"uid":"old","lastLogin":true}],"id":"Tencent-Cloud.coding-copilot","craftSettings":{"x":1},"converted":true,"auth":{"accessToken":"tok-old","scope":"all","sessionState":"logged_in","notBeforePolicy":0,"refreshExpiresAt":111,"expiresIn":5184000}}"#;
    let v = session(acc, Some(existing));
    assert_eq!(v["accessToken"], "u-99+tok-new");
    assert_eq!(v["account"]["uid"], "u-99");
    assert_eq!(v["account"]["lastLogin"], true);
    assert_eq!(v["accounts"][0]["uid"], "old");
    assert_eq!(v["accounts"][0]["lastLogin"], false);
    assert_eq!(v["accounts"][1]["uid"], "u-99");
    assert_eq!(v["accounts"][1]["lastLogin"], true);
    assert_eq!(v["accounts"].as_array().map(|a| a.len()), Some(2));
    assert_eq!(v["craftSettings"]["x"], 1);
    assert_eq!(v["auth"]["scope"], "all");
    assert_eq!(v["auth"]["sessionState"], "logged_in");
    assert_eq!(v["auth"]["notBeforePolicy"], 0);
    assert_eq!(v["auth"]["accessToken"], "tok-new");
    assert_eq!(v["auth"]["refreshToken"], "rt-new");
    assert_eq!(v["auth"]["tokenType"], "Bearer");
    assert_eq!(v["auth"]["domain"], "www.codebuddy.cn");
    assert_eq!(v["auth"]["expiresAt"], 42);
    assert_eq!(v["auth"]["refreshExpiresAt"], 1_700_000_000_000_i64);
    assert_eq!(v["auth"]["expiresIn"], 42);
    assert_eq!(v["auth"]["refreshExpiresIn"], 0);
}

#[test]
fn ext_session_json_keeps_existing_auth_refresh_expires_at_without_account_value() {
    let acc = r#"{"uid":"u-7","nickname":"无 refreshExpiresAt","access_token":"tok-7","domain":"www.codebuddy.cn","expiresAt":7}"#;
    let existing = r#"{"auth":{"refreshExpiresAt":777,"scope":"all"}}"#;
    let v = session(acc, Some(existing));
    assert_eq!(v["auth"]["refreshExpiresAt"], 777);
    assert_eq!(v["auth"]["scope"], "all");
    assert_eq!(v["auth"]["accessToken"], "tok-7");
}

#[test]
fn ext_session_json_without_existing_auth_keeps_zero_refresh_expires_at() {
    let acc = r#"{"uid":"u-8","access_token":"tok-8","domain":"www.codebuddy.cn","expiresAt":8}"#;
    let v = session(acc, None);
    assert_eq!(v["auth"]["refreshExpiresAt"], 0);
}

#[test]
fn ext_session_json_upsert_replaces_existing_entry_in_place() {
    let acc = r#"{"uid":"u-99","nickname":"新账号","access_token":"tok-new","domain":"www.codebuddy.cn","expiresAt":7}"#;
    let existing = r#"{"accounts":[{"uid":"u-99","lastLogin":false,"label":"旧"},{"uid":"other"}]}"#;
    let v = session(acc, Some(existing));
    assert_eq!(v["accounts"].as_array().map(|a| a.len()), Some(2));
    assert_eq!(v["accounts"][0]["uid"], "u-99");
    assert_eq!(v["accounts"][0]["lastLogin"], true);
    assert_eq!(v["accounts"][1]["uid"], "other");
    assert_eq!(v["accounts"][1]["lastLogin"], false);
}

#[test]
fn code_image_name_is_exact_not_insiders_or_codebuddy() {
    assert!(is_code_image_name("Code.exe"));
    assert!(is_code_image_name("code"));
    assert!(is_code_image_name(r"C:\Users\Zhou\AppData\Local\Programs\Microsoft VS Code\Code.exe"));
    assert!(!is_code_image_name("Code - Insiders.exe"));
    assert!(!is_code_image_name("CodeBuddy CN.exe"));
    assert!(!is_code_image_name("CodeBuddy.exe"));
    assert!(!is_code_image_name("workbuddy-switch.exe"));
    assert!(!is_code_image_name("wb-switch"));
}

#[test]
fn windows_code_rows_drop_self_insiders_and_codebuddy() {
    let stdout = "\
2001|workbuddy-switch|C:\\apps\\workbuddy-switch.exe
2002|Code - Insiders|C:\\Users\\Zhou\\AppData\\Local\\Programs\\Microsoft VS Code Insiders\\Code - Insiders.exe
2003|Code|C:\\Users\\Zhou\\AppData\\Local\\Programs\\Microsoft VS Code\\Code.exe
2004|crashpad_handler|C:\\x\\crashpad_handler.exe
2005|CodeBuddy CN|D:\\Programs\\CodeBuddy CN\\CodeBuddy CN.exe
2006|Code|C:\\Users\\Zhou\\AppData\\Local\\Programs\\Microsoft VS Code\\Code.exe
";
    let kept: Vec<u32> = parse_windows_process_rows(stdout)
        .into_iter()
        .filter(keep_windows_code_row)
        .map(|row| row.pid)
        .collect();
    assert_eq!(kept, vec![2003, 2006]);
}

#[test]
fn linux_cmdline_matcher_accepts_code_not_variants() {
    assert!(linux_cmdline_is_code("/usr/share/code/code --unity-launch"));
    assert!(linux_cmdline_is_code("/usr/bin/code --no-sandbox"));
    assert!(linux_exe_is_code("/usr/share/code/code"));
    assert!(!linux_cmdline_is_code("/usr/bin/workbuddy-switch"));
    assert!(!linux_cmdline_is_code("/usr/share/code/code --type=gpu-process"));
    assert!(!linux_cmdline_is_code("/usr/bin/code-insiders"));
    assert!(!linux_cmdline_is_code("/opt/codebuddy-cn/codebuddy-cn"));
    assert!(!linux_exe_is_code("/usr/bin/code-insiders"));
}

#[test]
fn file_names_of_unix_paths() {
    assert_eq!(file_name_of("/usr/share/code/code"), Some("code".to_string()));
    assert_eq!(file_name_of("/usr/bin/code/"), Some("code".to_string()));
    assert_eq!(file_name_of("/usr/bin/code//."), Some("code".to_string()));
    assert_eq!(file_name_of("code"), Some("code".to_string()));
    assert_eq!(file_name_of("/usr/bin/.."), None);
    assert_eq!(file_name_of("/"), None);
    assert_eq!(file_name_of(""), None);
    assert_eq!(file_name_of("."), None);
    assert!(linux_exe_is_code("/usr/bin/code/."));
}

#[test]
fn state_db_path_ends_with_state_vscdb() {
    let lossy = |p: Option<PathBuf>| p.map(|d| d.to_string_lossy().to_string());
    let home = lossy(dirs::home_dir()).unwrap_or_default();
    for platform in [Platform::Windows, Platform::MacOs, Platform::Other] {
        let data_dir = vscode_data_dir(platform, &home, lossy(dirs::data_dir()), lossy(dirs::config_dir()));
        let Some(db) = vscode_ext_state_db_path(data_dir.as_ref()) else {
            continue;
        };
        let db = to_path(&db);
        assert!(db.ends_with("state.vscdb"));
        assert!(db.to_string_lossy().contains("globalStorage"));
    }
}

#[test]
fn target_secret_key_matches_vscode_extension() {
    assert_eq!(
        secret_storage_item_key_for(&vscode_target()),
        r#"secret://{"extensionId":"tencent-cloud.coding-copilot","key":"Tencent-Cloud.coding-copilot.new.accessToken"}"#
    );
}

#[test]
fn session_json_is_stamped_with_the_given_time_and_keeps_other_fields() {
    let acc = parse(r#"{"uid":"u-1","access_token":"t","expiresAt":5}"#);
    let obj = parse(r#"{"uid":"u-1"}"#);
    let existing = parse(r#"{"craftSettings":{"a":[1,2]},"auth":{"lastRefreshTime":1,"scope":"x"},"accounts":"broken"}"#);
    let v = from_json(&build_ext_session_json_at(&acc, obj, Some(existing), 123));
    assert_eq!(v["auth"]["lastRefreshTime"], 123);
    assert_eq!(v["auth"]["scope"], "x");
    assert_eq!(v["craftSettings"]["a"][1], 2);
    assert_eq!(v["refreshToken"], "");
    assert_eq!(v["domain"], "");
    assert_eq!(v["expiresAt"], 5);
    assert_eq!(v["accounts"].as_array().map(|a| a.len()), Some(1));
    assert_eq!(v["accounts"][0]["lastLogin"], true);
}

#[test]
fn session_json_upsert_matches_by_id_when_uid_missing() {
    let acc = parse(r#"{"access_token":"t"}"#);
    let obj = parse(r#"{"id":"acc-1"}"#);
    let existing = parse(r#"{"accounts":[7,{"id":"acc-1","x":1},{"id":"acc-1"}]}"#);
    let v = from_json(&build_ext_session_json_at(&acc, obj, Some(existing), 0));
    let accounts = v["accounts"].as_array().unwrap();
    assert_eq!(accounts.len(), 3);
    assert_eq!(accounts[0], 7);
    assert_eq!(accounts[1]["id"], "acc-1");
    assert_eq!(accounts[1]["lastLogin"], true);
    assert!(accounts[1].get("x").is_none());
    assert_eq!(accounts[2]["lastLogin"], false);
    assert_eq!(v["accessToken"], "+t");
}

#[test]
fn image_names_of_self_and_crash_reporter() {
    assert!(is_self_image_name("WorkBuddy-Switch.EXE"));
    assert!(is_self_image_name("C:/x/wb-switch.exe"));
    assert!(!is_self_image_name("Code.exe"));
    assert!(is_crashpad_helper_name("crashpad_handler.exe"));
    assert!(!is_crashpad_helper_name("Code.exe"));
    assert_eq!(windows_image_stem(r"C:\a\ Code.EXE "), "Code");
    assert_eq!(windows_image_stem("x.exe.txt"), "x.exe.txt");
}

#[test]
fn image_name_can_be_cut_only_at_a_character_boundary() {
    assert!(image_name_can_be_cut("Code.exe"));
    assert!(image_name_can_be_cut("é"));
    assert!(image_name_can_be_cut("aé.exe"));
    assert!(image_name_can_be_cut("a€"));
    assert!(!image_name_can_be_cut("a€€"));
    let row = WindowsProcessRow { pid: 1, name: "a€€".to_string(), exe_path: None };
    assert!(!row_can_be_judged(&row));
}

#[test]
fn process_rows_parse_fields_and_skip_bad_lines() {
    let rows = parse_windows_process_rows(" 12 | Code | \r\nnot-a-pid|x|y\n+7|Name\n\n4294967296|big|z\n");
    assert_eq!(rows.len(), 2);
    assert_eq!(rows[0].pid, 12);
    assert_eq!(rows[0].name, "Code");
    assert_eq!(rows[0].exe_path, None);
    assert_eq!(rows[1].pid, 7);
    assert_eq!(rows[1].name, "Name");
}

#[test]
fn windows_rows_fall_back_to_the_task_list() {
    let code = |pid: u32| WindowsProcessRow {
        pid,
        name: "Code.exe".to_string(),
        exe_path: Some(r"C:\p\Code.exe".to_string()),
    };
    let other = WindowsProcessRow { pid: 9, name: "other.exe".to_string(), exe_path: None };
    let cim = vec![other, code(5)];
    assert_eq!(windows_code_rows(&cim, 5).len(), 0);
    let tasklist = vec![code(8)];
    let rows = windows_code_process_rows(Some(&cim), &tasklist, 5);
    assert_eq!(rows.iter().map(|r| r.pid).collect::<Vec<_>>(), vec![8]);
    let rows = windows_code_process_rows(Some(&tasklist), &cim, 5);
    assert_eq!(rows.iter().map(|r| r.pid).collect::<Vec<_>>(), vec![8]);
}

#[test]
fn linux_processes_by_exe_or_command_line() {
    let entries = vec![
        LinuxProcess { name: "self".to_string(), exe: Some("/usr/bin/code".to_string()), cmdline: None },
        LinuxProcess { name: "10".to_string(), exe: Some("/usr/share/code/code".to_string()), cmdline: None },
        LinuxProcess { name: "11".to_string(), exe: None, cmdline: Some("/usr/share/code/code\0--x".to_string()) },
        LinuxProcess { name: "12".to_string(), exe: None, cmdline: Some(String::new()) },
        LinuxProcess { name: "13".to_string(), exe: Some("/usr/bin/code".to_string()), cmdline: None },
    ];
    assert_eq!(linux_code_pids(&entries, 13), vec![10, 11]);
    assert!(linux_process_is_code(None, Some("/usr/bin/code\0--no-sandbox")));
    assert!(!linux_process_is_code(Some("/usr/bin/bash"), None));
}

#[test]
fn vscode_running_per_platform() {
    let scan = ProcessScan {
        self_pid: 1,
        macos_pids: vec![],
        windows_cim: None,
        windows_tasklist: vec![WindowsProcessRow { pid: 3, name: "Code.exe".to_string(), exe_path: None }],
        linux: vec![],
    };
    assert!(is_vscode_running(Platform::Windows, &scan));
    assert!(!is_vscode_running(Platform::MacOs, &scan));
    assert!(!is_vscode_running(Platform::Other, &scan));
    let scan = ProcessScan { macos_pids: vec![44], ..scan };
    assert!(is_vscode_running(Platform::MacOs, &scan));
}

#[test]
fn active_account_state_round_trip() {
    let mut state = parse("{}");
    set_active_account_id(&mut state, " acc-1 ", 99);
    let v = from_json(&state);
    assert_eq!(v["updatedAt"], 99);
    assert_eq!(active_account_id_from_state(&state), Some("acc-1".to_string()));
    let mut not_object = parse("[1]");
    set_active_account_id(&mut not_object, "x", 1);
    assert_eq!(from_json(&not_object), val(r#"[1]"#));
    assert_eq!(active_account_id_from_state(&parse(r#"{"activeAccountId":"  "}"#)), None);
}

#[test]
fn secret_errors_are_described() {
    let e = describe_secret_error("Unexpected ciphertext prefix v20".to_string());
    assert!(e.starts_with("Unexpected ciphertext prefix v20\n\n"));
    assert!(e.contains("v10"));
    assert_eq!(describe_secret_error("other".to_string()), "other");
    let e = describe_inject_error("no Keychain item".to_string());
    assert!(e.starts_with("注入登录状态失败：no Keychain item"));
    assert!(e.contains("Code Safe Storage"));
    assert_eq!(describe_inject_error("disk full".to_string()), "disk full");
}

#[test]
fn switch_checks_each_refusal_in_order() {
    let acc = parse(r#"{"access_token":"tok"}"#);
    let ok = check_switch("a", Some(&acc), Some("D"), true, Some("B"), true, false);
    assert_eq!(ok, Ok(()));
    assert_eq!(check_switch("a-1", None, None, false, None, false, true), Err("账号不存在: a-1".to_string()));
    let no_token = parse(r#"{"access_token":5}"#);
    assert_eq!(
        check_switch("a", Some(&no_token), Some("D"), true, Some("B"), true, false),
        Err("账号缺少 access_token，无法注入 VS Code CodeBuddy 扩展".to_string())
    );
    let empty = parse(r#"{"access_token":""}"#);
    assert_eq!(
        check_switch("a", Some(&empty), Some("D"), true, Some("B"), true, false),
        Err("账号 access_token 为空".to_string())
    );
    assert_eq!(
        check_switch("a", Some(&acc), None, true, Some("B"), true, false),
        Err("无法定位 VS Code 数据目录".to_string())
    );
    assert_eq!(
        check_switch("a", Some(&acc), Some("D:/x"), false, Some("B"), true, false),
        Err("未找到 VS Code 用户数据目录（D:/x）。请先手动打开 VS Code 并安装 CodeBuddy 扩展后重试。".to_string())
    );
    assert_eq!(
        check_switch("a", Some(&acc), Some("D"), true, None, true, false),
        Err("无法定位 VS Code 数据目录".to_string())
    );
    assert_eq!(
        check_switch("a", Some(&acc), Some("D"), true, Some("B/s"), false, false),
        Err("未找到 VS Code 状态数据库（B/s）。请先手动打开 VS Code 并安装、登录 CodeBuddy 扩展后重试。".to_string())
    );
    assert_eq!(
        check_switch("a", Some(&acc), Some("D"), true, Some("B"), true, true),
        Err("检测到 VS Code 正在运行，请先完全退出后再切换，否则写入会被 VS Code 覆盖。".to_string())
    );
}

#[test]
fn switch_reads_the_existing_secret() {
    assert_eq!(existing_secret(Ok(Some("s".to_string()))), Ok("s".to_string()));
    assert!(existing_secret(Ok(None)).unwrap_err().starts_with("未在 VS Code 中找到 CodeBuddy 扩展的登录状态"));
    assert!(existing_secret(Err("Unsupported Linux ciphertext prefix".to_string())).unwrap_err().contains("v20"));
}

#[test]
fn switch_result_and_message() {
    let v = from_json(&switch_result("张三", "acc-9", "/d/state.vscdb", false));
    assert_eq!(v["ok"], true);
    assert_eq!(v["account"], "张三");
    assert_eq!(v["accountId"], "acc-9");
    assert_eq!(v["dbPath"], "/d/state.vscdb");
    assert_eq!(v["restarted"], false);
    assert_eq!(v["message"], "已写入 VS Code CodeBuddy 扩展凭证（张三）；请手动重载 VS Code 窗口生效。");
    assert!(switch_message("n", true).contains("重新加载窗口"));
}

#[test]
fn status_names_the_account_only_when_the_store_has_it() {
    let v = from_json(&status_report(
        true,
        false,
        true,
        Some("/d".to_string()),
        None,
        false,
        Some("acc-1".to_string()),
        Some("Name".to_string()),
        "/s/vscode_ext.json",
    ));
    assert_eq!(v["installed"], true);
    assert_eq!(v["extensionInstalled"], false);
    assert_eq!(v["running"], true);
    assert_eq!(v["dataDir"], "/d");
    assert_eq!(v["dbPath"], Value::Null);
    assert_eq!(v["activeAccountId"], "acc-1");
    assert_eq!(v["activeAccountName"], "Name");
    assert_eq!(v["detectedFrom"], "state");
    assert_eq!(v["statePath"], "/s/vscode_ext.json");
    let v = from_json(&status_report(false, false, false, None, None, false, Some("gone".to_string()), None, "p"));
    assert_eq!(v["activeAccountId"], Value::Null);
    assert_eq!(v["activeAccountName"], Value::Null);
}

#[test]
fn detection_results() {
    let v = from_json(&detect_not_found());
    assert_eq!(v["found"], false);
    assert_eq!(detect_parse_failure(), "本地 VS Code CodeBuddy 扩展登录信息解析失败");
    let acc = parse(r#"{"id":"acc-3","uid":"u"}"#);
    assert_eq!(matched_account_id(&acc), "acc-3");
    assert_eq!(matched_account_id(&parse("{}")), "");
    let v = from_json(&detect_matched("acc-3", parse(r#"{"name":"n"}"#), Some("u".to_string())));
    assert_eq!(v["matched"], true);
    assert_eq!(v["accountId"], "acc-3");
    assert_eq!(v["account"]["name"], "n");
    assert_eq!(v["uid"], "u");
    let v = from_json(&detect_unmatched(None));
    assert_eq!(v["matched"], false);
    assert_eq!(v["uid"], Value::Null);
    assert!(v["message"].as_str().unwrap().contains("无匹配账号"));
}

#[test]
fn active_uid_prefers_the_secret() {
    assert_eq!(active_ext_uid(Some(" u-1 "), Some("u-2".to_string())), Some("u-1".to_string()));
    assert_eq!(active_ext_uid(Some("  "), Some("u-2".to_string())), Some("u-2".to_string()));
    assert_eq!(active_ext_uid(None, None), None);
}

#[test]
fn vscode_data_dir_per_platform() {
    let d = vscode_data_dir(Platform::MacOs, "/Users/z", None, None).unwrap();
    assert_eq!(d.parts, vec!["/Users/z".to_string(), "Library/Application Support/Code".to_string()]);
    let d = vscode_data_dir(Platform::Windows, "h", Some("C:/R".to_string()), None).unwrap();
    assert_eq!(d.parts, vec!["C:/R".to_string(), "Code".to_string()]);
    assert!(vscode_data_dir(Platform::Other, "h", Some("x".to_string()), None).is_none());
    let db = vscode_ext_state_db_path(Some(&d)).unwrap();
    assert_eq!(db.parts.len(), 5);
    assert_eq!(db.parts[4], "state.vscdb");
}

#[test]
fn detection_decides_result_and_state_write() {
    let (r, w) = detect_report(Err("Unexpected ciphertext prefix".to_string()), None, None);
    assert!(r.unwrap_err().contains("v10"));
    assert_eq!(w, None);
    let (r, w) = detect_report(Ok(false), None, None);
    assert_eq!(from_json(&r.unwrap())["found"], false);
    assert_eq!(w, None);
    let (r, _) = detect_report(Ok(true), None, None);
    assert_eq!(r.unwrap_err(), "本地 VS Code CodeBuddy 扩展登录信息解析失败");
    let acc = parse(r#"{"id":"acc-5"}"#);
    let (r, w) = detect_report(Ok(true), Some(Some("u".to_string())), Some((acc, parse(r#"{"n":1}"#))));
    let v = from_json(&r.unwrap());
    assert_eq!(v["accountId"], "acc-5");
    assert_eq!(v["account"]["n"], 1);
    assert_eq!(w, Some("acc-5".to_string()));
    let (r, w) = detect_report(Ok(true), Some(None), None);
    assert_eq!(from_json(&r.unwrap())["matched"], false);
    assert_eq!(w, None);
}
