//! The VS Code CodeBuddy extension (`tencent-cloud.coding-copilot`): where
//! its data lives, the session document written into its Safe Storage
//! secret, the recognition of running VS Code processes, and the reports of
//! an account switch.

use vstd::prelude::*;
use crate::json::{Json, JsonV, arr_view, keys_view, lemma_arr_view, lemma_get_valid, lemma_obj_view, lemma_set_get, lemma_set_valid, lemma_view_valid, opt_doc, opt_doc_ref, valid, vals_view};
use crate::paths::{FsPath, Platform};
use crate::text::{ascii_lower, chars_of, concat, contains, eq_ignore_ascii_case, opt_text, opt_text_ref, own, split_chars, split_on, str_contains, str_equal, string_from_chars, text_result, texts, trim, trimmed};
use crate::decimal::{parse_u32, parse_u32_spec};

verus! {

/// The file of this module's state in the tool's store directory.
pub const STATE_FILE: &'static str = "vscode_ext.json";

/// The marketplace id of the extension (the `extensionId` of its secret).
pub const EXTENSION_ID: &'static str = "tencent-cloud.coding-copilot";

/// The `id` at the top of the session document.
pub const PAYLOAD_ID: &'static str = "Tencent-Cloud.coding-copilot";

/// Where and under which names VS Code keeps the extension's Safe Storage
/// secret.
pub struct SafeStorageTarget {
    pub display_name: String,
    pub secret_item_prefix_extension_id: String,
    pub secret_key: String,
    pub macos_keychain_service: String,
    pub linux_secret_tool_app_names: Vec<String>,
}

/// The Safe Storage target of the VS Code CodeBuddy extension.
pub fn vscode_target() -> (r: SafeStorageTarget)
    ensures
        r.display_name@ == "VS Code"@,
        r.secret_item_prefix_extension_id@ == EXTENSION_ID@,
        r.secret_key@ == "Tencent-Cloud.coding-copilot.new.accessToken"@,
        r.macos_keychain_service@ == "Code Safe Storage"@,
        r.linux_secret_tool_app_names@.len() == 2,
        r.linux_secret_tool_app_names@[0]@ == "Code"@,
        r.linux_secret_tool_app_names@[1]@ == "code"@,
{
    let mut names: Vec<String> = Vec::new();
    names.push(own("Code"));
    names.push(own("code"));
    SafeStorageTarget {
        display_name: own("VS Code"),
        secret_item_prefix_extension_id: own(EXTENSION_ID),
        secret_key: own("Tencent-Cloud.coding-copilot.new.accessToken"),
        macos_keychain_service: own("Code Safe Storage"),
        linux_secret_tool_app_names: names,
    }
}

/// The key of a secret in VS Code's `state.vscdb`:
/// `secret://{"extensionId":"<id>","key":"<key>"}`.
pub open spec fn secret_item_key_spec(extension_id: Seq<char>, key: Seq<char>) -> Seq<char> {
    "secret://{\"extensionId\":\""@ + extension_id + "\",\"key\":\""@ + key + "\"}"@
}

/// The key of the target's secret in VS Code's `state.vscdb`.
pub fn secret_storage_item_key_for(target: &SafeStorageTarget) -> (r: String)
    ensures
        r@ == secret_item_key_spec(target.secret_item_prefix_extension_id@, target.secret_key@),
{
    let mut r = own("secret://{\"extensionId\":\"");
    r.append(target.secret_item_prefix_extension_id.as_str());
    r.append("\",\"key\":\"");
    r.append(target.secret_key.as_str());
    r.append("\"}");
    r
}

/// The user data directory of VS Code: `~/Library/Application Support/Code`
/// on macOS, `<data dir>/Code` on Windows (`%APPDATA%\Code`), and
/// `<config dir>/Code` elsewhere.
pub open spec fn vscode_data_dir_spec(
    platform: Platform,
    home_dir: Seq<char>,
    data_dir: Option<Seq<char>>,
    config_dir: Option<Seq<char>>,
) -> Option<Seq<Seq<char>>> {
    match platform {
        Platform::MacOs => Some(seq![home_dir, "Library/Application Support/Code"@]),
        Platform::Windows => match data_dir {
            Some(d) => Some(seq![d, "Code"@]),
            None => None,
        },
        Platform::Other => match config_dir {
            Some(d) => Some(seq![d, "Code"@]),
            None => None,
        },
    }
}

pub open spec fn opt_path(o: Option<FsPath>) -> Option<Seq<Seq<char>>> {
    match o {
        Some(p) => Some(p@),
        None => None,
    }
}

/// The user data directory of VS Code (see `vscode_data_dir_spec`).
pub fn vscode_data_dir(
    platform: Platform,
    home_dir: &str,
    data_dir: Option<String>,
    config_dir: Option<String>,
) -> (r: Option<FsPath>)
    ensures
        opt_path(r) == vscode_data_dir_spec(platform, home_dir@, opt_text(data_dir), opt_text(config_dir)),
{
    match platform {
        Platform::MacOs => {
            let p = FsPath::new(home_dir).join("Library/Application Support/Code");
            assert(p@ =~= seq![home_dir@, "Library/Application Support/Code"@]);
            Some(p)
        },
        Platform::Windows => match data_dir {
            Some(d) => {
                let p = FsPath::new(d.as_str()).join("Code");
                assert(p@ =~= seq![d@, "Code"@]);
                Some(p)
            },
            None => None,
        },
        Platform::Other => match config_dir {
            Some(d) => {
                let p = FsPath::new(d.as_str()).join("Code");
                assert(p@ =~= seq![d@, "Code"@]);
                Some(p)
            },
            None => None,
        },
    }
}

/// VS Code's state database: `<data dir>/User/globalStorage/state.vscdb`.
pub fn vscode_ext_state_db_path(data_dir: Option<&FsPath>) -> (r: Option<FsPath>)
    ensures
        match data_dir {
            Some(d) => opt_path(r) == Some(d@ + seq!["User"@, "globalStorage"@, "state.vscdb"@]),
            None => r is None,
        },
{
    match data_dir {
        Some(d) => {
            let p = d.join("User").join("globalStorage").join("state.vscdb");
            assert(p@ =~= d@ + seq!["User"@, "globalStorage"@, "state.vscdb"@]);
            Some(p)
        },
        None => None,
    }
}

/// The extension's storage directory, whose presence tells that it is
/// installed: `<data dir>/User/globalStorage/tencent-cloud.coding-copilot`.
pub fn extension_storage_dir(data_dir: &FsPath) -> (r: FsPath)
    ensures
        r@ == data_dir@ + seq!["User"@, "globalStorage"@, EXTENSION_ID@],
{
    let p = data_dir.join("User").join("globalStorage").join(EXTENSION_ID);
    assert(p@ =~= data_dir@ + seq!["User"@, "globalStorage"@, EXTENSION_ID@]);
    p
}

/// The file of this module's state: `<store dir>/vscode_ext.json`.
pub fn state_path(store_dir: &FsPath) -> (r: FsPath)
    ensures
        r@ == store_dir@.push(STATE_FILE@),
{
    store_dir.join(STATE_FILE)
}

/// Records the account last written to the extension: an object state gets
/// `activeAccountId` and `updatedAt` (`now`); any other state stays.
pub fn set_active_account_id(state: &mut Json, account_id: &str, now: i64)
    ensures
        final(state)@ == if old(state)@.is_object() {
            old(state)@.set("activeAccountId"@, JsonV::Str(account_id@)).set("updatedAt"@, JsonV::Int(now as int))
        } else {
            old(state)@
        },
{
    if state.is_object() {
        state.insert("activeAccountId", Json::string(account_id));
        state.insert("updatedAt", Json::Int(now));
    }
}

/// The account last written to the extension, trimmed, where the state
/// names a non-empty one.
pub open spec fn active_account_id_spec(state: JsonV) -> Option<Seq<char>> {
    match state.get_str("activeAccountId"@) {
        Some(s) => if trim(s).len() > 0 {
            Some(trim(s))
        } else {
            None
        },
        None => None,
    }
}

/// The account last written to the extension (see `active_account_id_spec`).
pub fn active_account_id_from_state(state: &Json) -> (r: Option<String>)
    ensures
        opt_text(r) == active_account_id_spec(state@),
{
    match state.get_str("activeAccountId") {
        Some(s) => {
            let t = trimmed(s.as_str());
            if t.as_str().is_empty() {
                None
            } else {
                Some(t)
            }
        },
        None => None,
    }
}

pub open spec fn unsupported_prefix_note() -> Seq<char> {
    "\n\n检测到 VS Code 使用了当前版本不支持的 Safe Storage 加密前缀（可能是 Chromium 127+ 的 v20 app-bound 加密）。目前仅支持 v10，请反馈该问题。"@
}

/// A decryption error with a note where it names an unsupported cipher
/// text prefix.
pub open spec fn describe_secret_error_spec(err: Seq<char>) -> Seq<char> {
    if contains(err, "Unexpected ciphertext prefix"@) || contains(err, "Unsupported Linux ciphertext prefix"@) {
        err + unsupported_prefix_note()
    } else {
        err
    }
}

/// Turns a decryption error into the message shown to the user (see
/// `describe_secret_error_spec`).
pub fn describe_secret_error(err: String) -> (r: String)
    ensures
        r@ == describe_secret_error_spec(err@),
{
    if str_contains(err.as_str(), "Unexpected ciphertext prefix") || str_contains(
        err.as_str(),
        "Unsupported Linux ciphertext prefix",
    ) {
        concat(
            err.as_str(),
            "\n\n检测到 VS Code 使用了当前版本不支持的 Safe Storage 加密前缀（可能是 Chromium 127+ 的 v20 app-bound 加密）。目前仅支持 v10，请反馈该问题。",
        )
    } else {
        err
    }
}

/// The key by which an account entry is matched: its `uid`, or else its
/// `id`, where that is a non-empty string.
pub open spec fn entry_key_spec(entry: JsonV) -> Option<Seq<char>> {
    match entry.get_str("uid"@) {
        Some(u) if u.len() > 0 => Some(u),
        _ => match entry.get_str("id"@) {
            Some(i) if i.len() > 0 => Some(i),
            _ => None,
        },
    }
}

/// The key by which an account entry is matched (see `entry_key_spec`).
pub fn account_entry_key(entry: &Json) -> (r: Option<String>)
    ensures
        opt_text(r) == entry_key_spec(entry@),
{
    match entry.get_str("uid") {
        Some(u) => {
            if !u.as_str().is_empty() {
                return Some(u.clone());
            }
        },
        None => {},
    }
    match entry.get_str("id") {
        Some(i) => {
            if !i.as_str().is_empty() {
                Some(i.clone())
            } else {
                None
            }
        },
        None => None,
    }
}

pub open spec fn str_or(o: Option<Seq<char>>, d: Seq<char>) -> Seq<char> {
    match o {
        Some(s) => s,
        None => d,
    }
}

/// The integer at key `k`, where there is one.
pub open spec fn get_int(j: JsonV, k: Seq<char>) -> Option<int> {
    match j.get(k) {
        Some(JsonV::Int(x)) => Some(x),
        _ => None,
    }
}

pub open spec fn obj_or_empty_v(j: Option<JsonV>) -> JsonV {
    match j {
        Some(o) => if o is Obj {
            o
        } else {
            JsonV::Obj(Seq::empty(), Seq::empty())
        },
        None => JsonV::Obj(Seq::empty(), Seq::empty()),
    }
}

/// The account entry written to the extension: the given account object
/// marked as the one logged in last.
pub open spec fn marked_account(account_obj: JsonV) -> JsonV {
    if account_obj is Obj {
        account_obj.set("lastLogin"@, JsonV::Bool(true))
    } else {
        account_obj
    }
}

/// The `auth` object of the session document: the existing one (or an
/// empty one) with the credentials of the account set; `refreshExpiresAt`
/// comes from the account where it has one, stays where the existing object
/// has one, and is 0 otherwise.
pub open spec fn session_auth_spec(acc: JsonV, existing_auth: JsonV, now: int) -> JsonV {
    let access_token = str_or(acc.get_str("access_token"@), Seq::empty());
    let refresh_token = str_or(acc.get_str("refresh_token"@), Seq::empty());
    let token_type = str_or(acc.get_str("token_type"@), "Bearer"@);
    let domain = str_or(acc.get_str("domain"@), Seq::empty());
    let expires_at = match get_int(acc, "expiresAt"@) {
        Some(x) => x,
        None => 0,
    };
    let a1 = existing_auth.set("accessToken"@, JsonV::Str(access_token)).set(
        "refreshToken"@,
        JsonV::Str(refresh_token),
    ).set("tokenType"@, JsonV::Str(token_type)).set("domain"@, JsonV::Str(domain)).set(
        "expiresAt"@,
        JsonV::Int(expires_at),
    ).set("expiresIn"@, JsonV::Int(expires_at)).set("refreshExpiresIn"@, JsonV::Int(0));
    let a2 = match get_int(acc, "refreshExpiresAt"@) {
        Some(v) => a1.set("refreshExpiresAt"@, JsonV::Int(v)),
        None => if a1.get("refreshExpiresAt"@) is None {
            a1.set("refreshExpiresAt"@, JsonV::Int(0))
        } else {
            a1
        },
    };
    a2.set("lastRefreshTime"@, JsonV::Int(now))
}

/// Account entries marked as not logged in last (objects only).
pub open spec fn mark_not_last(e: JsonV) -> JsonV {
    if e is Obj {
        e.set("lastLogin"@, JsonV::Bool(false))
    } else {
        e
    }
}

pub open spec fn marked_entries(entries: Seq<JsonV>) -> Seq<JsonV> {
    entries.map_values(|e: JsonV| mark_not_last(e))
}

/// The position of the first entry with key `key`.
pub open spec fn first_key_index(s: Seq<JsonV>, key: Seq<char>) -> Option<int>
    decreases s.len(),
{
    if s.len() == 0 {
        None
    } else {
        match first_key_index(s.drop_last(), key) {
            Some(i) => Some(i),
            None => if entry_key_spec(s.last()) == Some(key) {
                Some(s.len() - 1)
            } else {
                None
            },
        }
    }
}

/// The position where the account entry goes in the `accounts` array.
pub open spec fn upsert_position(entries: Seq<JsonV>, account: JsonV) -> Option<int> {
    match entry_key_spec(account) {
        Some(k) => first_key_index(marked_entries(entries), k),
        None => None,
    }
}

/// The `accounts` array after the upsert: every entry marked as not logged
/// in last; the entry with the account's key (the first one) replaced by the
/// account entry in place, or the account entry appended.
pub open spec fn upsert_accounts_spec(entries: Seq<JsonV>, account: JsonV) -> Seq<JsonV> {
    match upsert_position(entries, account) {
        Some(i) => marked_entries(entries).update(i, account),
        None => marked_entries(entries).push(account),
    }
}

/// The session document written to the extension's secret for account
/// `acc`, whose account entry is `account_obj`, on top of the existing
/// document `existing` (`None` where there is none or it is no JSON), at
/// time `now`.
///
/// The existing object is the base: its other fields, and the other fields
/// of its `auth`, stay. The identity fields at the top and the credentials
/// in `auth` are set from the account; `accessToken` at the top is
/// `<uid>+<access token>`; the account entry is marked as logged in last
/// and upserted into `accounts`.
pub open spec fn session_json_spec(acc: JsonV, account_obj: JsonV, existing: Option<JsonV>, now: int) -> JsonV {
    let uid = str_or(acc.get_str("uid"@), Seq::empty());
    let domain = str_or(acc.get_str("domain"@), Seq::empty());
    let refresh_token = str_or(acc.get_str("refresh_token"@), Seq::empty());
    let access_token = str_or(acc.get_str("access_token"@), Seq::empty());
    let expires_at = match get_int(acc, "expiresAt"@) {
        Some(x) => x,
        None => 0,
    };
    let root0 = obj_or_empty_v(existing);
    let account = marked_account(account_obj);
    let auth = session_auth_spec(acc, obj_or_empty_v(root0.get("auth"@)), now);
    let root1 = root0.set("id"@, JsonV::Str(PAYLOAD_ID@)).set("token"@, JsonV::Str(access_token)).set(
        "refreshToken"@,
        JsonV::Str(refresh_token),
    ).set("expiresAt"@, JsonV::Int(expires_at)).set("domain"@, JsonV::Str(domain)).set(
        "accessToken"@,
        JsonV::Str(uid + "+"@ + access_token),
    ).set("converted"@, JsonV::Bool(true)).set("account"@, account).set("auth"@, auth);
    match root1.get("accounts"@) {
        Some(JsonV::Arr(entries)) => root1.set("accounts"@, JsonV::Arr(upsert_accounts_spec(entries, account))),
        _ => root1.set("accounts"@, JsonV::Arr(seq![account])),
    }
}

fn get_str_or(j: &Json, key: &str, default: &str) -> (r: String)
    ensures
        r@ == str_or(j@.get_str(key@), default@),
{
    match j.get_str(key) {
        Some(s) => s.clone(),
        None => own(default),
    }
}

fn get_int_exec(j: &Json, key: &str) -> (r: Option<i64>)
    ensures
        match r {
            Some(x) => get_int(j@, key@) == Some(x as int),
            None => get_int(j@, key@) is None,
        },
{
    match j.get(key) {
        Some(Json::Int(x)) => Some(*x),
        _ => None,
    }
}

fn obj_or_empty(j: Option<&Json>) -> (r: Json)
    ensures
        r@ == obj_or_empty_v(opt_doc_ref(j)),
        r@.is_object(),
{
    match j {
        Some(o) => {
            if o.is_object() {
                o.deep_clone()
            } else {
                Json::empty_object()
            }
        },
        None => Json::empty_object(),
    }
}

fn session_auth(acc: &Json, existing_auth: Json, now: i64) -> (r: Json)
    requires
        existing_auth@.is_object(),
    ensures
        r@ == session_auth_spec(acc@, existing_auth@, now as int),
{
    let access_token = get_str_or(acc, "access_token", "");
    let refresh_token = get_str_or(acc, "refresh_token", "");
    let token_type = get_str_or(acc, "token_type", "Bearer");
    let domain = get_str_or(acc, "domain", "");
    let expires_at = match get_int_exec(acc, "expiresAt") {
        Some(x) => x,
        None => 0,
    };
    proof {
        reveal_strlit("");
        assert(""@ =~= Seq::<char>::empty());
    }
    let mut auth = existing_auth;
    auth.insert("accessToken", Json::Str(access_token));
    auth.insert("refreshToken", Json::Str(refresh_token));
    auth.insert("tokenType", Json::Str(token_type));
    auth.insert("domain", Json::Str(domain));
    auth.insert("expiresAt", Json::Int(expires_at));
    auth.insert("expiresIn", Json::Int(expires_at));
    auth.insert("refreshExpiresIn", Json::Int(0));
    match get_int_exec(acc, "refreshExpiresAt") {
        Some(v) => {
            auth.insert("refreshExpiresAt", Json::Int(v));
        },
        None => {
            if auth.get("refreshExpiresAt").is_none() {
                auth.insert("refreshExpiresAt", Json::Int(0));
            }
        },
    }
    auth.insert("lastRefreshTime", Json::Int(now));
    auth
}

fn same_key(a: &Option<String>, b: &str) -> (r: bool)
    ensures
        r == (opt_text(*a) == Some(b@)),
{
    match a {
        Some(x) => str_equal(x.as_str(), b),
        None => false,
    }
}

fn upsert_accounts(entries: &Vec<Json>, account: Json) -> (r: Vec<Json>)
    ensures
        arr_view(r@) == upsert_accounts_spec(arr_view(entries@), account@),
{
    let ghost es = arr_view(entries@);
    let mut marked: Vec<Json> = Vec::new();
    let mut i: usize = 0;
    while i < entries.len()
        invariant
            i <= entries.len(),
            es == arr_view(entries@),
            marked.len() == i,
            forall|j: int| 0 <= j < i ==> marked@[j]@ == mark_not_last(es[j]),
        decreases entries.len() - i,
    {
        if entries[i].is_object() {
            let mut c = entries[i].deep_clone();
            c.insert("lastLogin", Json::Bool(false));
            marked.push(c);
        } else {
            marked.push(entries[i].deep_clone());
        }
        i += 1;
    }
    let ghost ms = marked_entries(es);
    assert(arr_view(marked@) =~= ms);
    let key = account_entry_key(&account);
    let pos: Option<usize> = match &key {
        Some(k) => first_key_index_exec(&marked, k.as_str()),
        None => None,
    };
    match pos {
        Some(p) => {
            marked.set(p, account);
        },
        None => {
            marked.push(account);
        },
    }
    proof {
        assert(arr_view(marked@) =~= upsert_accounts_spec(es, account@));
    }
    marked
}

fn first_key_index_exec(v: &Vec<Json>, key: &str) -> (r: Option<usize>)
    ensures
        match r {
            Some(i) => i < v.len() && first_key_index(arr_view(v@), key@) == Some(i as int),
            None => first_key_index(arr_view(v@), key@) is None,
        },
{
    let ghost ms = arr_view(v@);
    let mut j: usize = 0;
    assert(ms.take(0) =~= Seq::<JsonV>::empty());
    while j < v.len()
        invariant
            j <= v.len(),
            ms == arr_view(v@),
            first_key_index(ms.take(j as int), key@) is None,
        decreases v.len() - j,
    {
        assert(ms.take(j + 1).drop_last() =~= ms.take(j as int));
        assert(ms.take(j + 1).last() == v@[j as int]@);
        let ek = account_entry_key(&v[j]);
        if same_key(&ek, key) {
            proof {
                lemma_first_key_prefix(ms, j + 1, key@);
            }
            return Some(j);
        }
        j += 1;
    }
    assert(ms.take(v.len() as int) =~= ms);
    None
}

proof fn lemma_first_key_prefix(s: Seq<JsonV>, j: int, key: Seq<char>)
    requires
        0 <= j <= s.len(),
        first_key_index(s.take(j), key) is Some,
    ensures
        first_key_index(s, key) == first_key_index(s.take(j), key),
    decreases s.len() - j,
{
    if j < s.len() {
        assert(s.take(j + 1).drop_last() =~= s.take(j));
        lemma_first_key_prefix(s, j + 1, key);
    } else {
        assert(s.take(j) =~= s);
    }
}

/// The session document written to the extension's secret, at time `now`
/// (see `session_json_spec`); the account entry `account_obj` is the one
/// the account library builds for `acc`.
pub fn build_ext_session_json_at(acc: &Json, account_obj: Json, existing: Option<Json>, now: i64) -> (r: Json)
    ensures
        r@ == session_json_spec(acc@, account_obj@, opt_doc(existing), now as int),
{
    let uid = get_str_or(acc, "uid", "");
    let domain = get_str_or(acc, "domain", "");
    let refresh_token = get_str_or(acc, "refresh_token", "");
    let access_token = get_str_or(acc, "access_token", "");
    let expires_at = match get_int_exec(acc, "expiresAt") {
        Some(x) => x,
        None => 0,
    };
    proof {
        reveal_strlit("");
        assert(""@ =~= Seq::<char>::empty());
    }
    let mut root = match existing {
        Some(e) => {
            if e.is_object() {
                e
            } else {
                Json::empty_object()
            }
        },
        None => Json::empty_object(),
    };
    let mut account = account_obj;
    if account.is_object() {
        account.insert("lastLogin", Json::Bool(true));
    }
    let auth0 = obj_or_empty(root.get("auth"));
    let auth = session_auth(acc, auth0, now);
    let joined = concat(concat(uid.as_str(), "+").as_str(), access_token.as_str());
    root.insert("id", Json::string(PAYLOAD_ID));
    root.insert("token", Json::Str(access_token));
    root.insert("refreshToken", Json::Str(refresh_token));
    root.insert("expiresAt", Json::Int(expires_at));
    root.insert("domain", Json::Str(domain));
    root.insert("accessToken", Json::Str(joined));
    root.insert("converted", Json::Bool(true));
    root.insert("account", account.deep_clone());
    root.insert("auth", auth);
    let upserted: Option<Vec<Json>> = match root.get("accounts") {
        Some(a) => match a.as_array() {
            Some(entries) => Some(upsert_accounts(entries, account.deep_clone())),
            None => None,
        },
        None => None,
    };
    match upserted {
        Some(v) => {
            proof {
                lemma_arr_view(v);
            }
            root.insert("accounts", Json::Arr(v));
        },
        None => {
            let mut one: Vec<Json> = Vec::new();
            one.push(account);
            proof {
                lemma_arr_view(one);
                assert(arr_view(one@) =~= seq![one@[0]@]);
            }
            root.insert("accounts", Json::Arr(one));
        },
    }
    root
}

/// The top-level fields of the session document that are set from the
/// account.
pub open spec fn is_session_field(k: Seq<char>) -> bool {
    ||| k == "id"@
    ||| k == "token"@
    ||| k == "refreshToken"@
    ||| k == "expiresAt"@
    ||| k == "domain"@
    ||| k == "accessToken"@
    ||| k == "converted"@
    ||| k == "account"@
    ||| k == "auth"@
    ||| k == "accounts"@
}

/// The fields of the session's `auth` object that are set from the account.
pub open spec fn is_auth_field(k: Seq<char>) -> bool {
    ||| k == "accessToken"@
    ||| k == "refreshToken"@
    ||| k == "tokenType"@
    ||| k == "domain"@
    ||| k == "expiresAt"@
    ||| k == "expiresIn"@
    ||| k == "refreshExpiresIn"@
    ||| k == "refreshExpiresAt"@
    ||| k == "lastRefreshTime"@
}

/// The base of the session document: the existing object, or an empty one.
pub open spec fn session_base(existing: Option<Json>) -> JsonV {
    obj_or_empty_v(opt_doc(existing))
}

proof fn lemma_session_base(existing: Option<Json>)
    ensures
        valid(session_base(existing)),
        session_base(existing).wf_obj(),
{
    match existing {
        Some(e) => {
            lemma_view_valid(e);
        },
        None => {},
    }
    let b = session_base(existing);
    lemma_get_valid(b, "auth"@);
}

/// The names of the fields that the session document sets differ from one
/// another.
proof fn lemma_session_keys_differ()
    ensures
        "auth"@ != "id"@ && "auth"@ != "token"@ && "auth"@ != "refreshToken"@ && "auth"@ != "expiresAt"@
            && "auth"@ != "domain"@ && "auth"@ != "accessToken"@ && "auth"@ != "converted"@ && "auth"@ != "account"@,
        "accounts"@ != "id"@ && "accounts"@ != "token"@ && "accounts"@ != "refreshToken"@ && "accounts"@ != "expiresAt"@
            && "accounts"@ != "domain"@ && "accounts"@ != "accessToken"@ && "accounts"@ != "converted"@
            && "accounts"@ != "account"@ && "accounts"@ != "auth"@,
        "account"@ != "id"@ && "account"@ != "token"@ && "account"@ != "refreshToken"@ && "account"@ != "expiresAt"@
            && "account"@ != "domain"@ && "account"@ != "accessToken"@ && "account"@ != "converted"@,
        "refreshExpiresAt"@ != "accessToken"@ && "refreshExpiresAt"@ != "refreshToken"@ && "refreshExpiresAt"@
            != "tokenType"@ && "refreshExpiresAt"@ != "domain"@ && "refreshExpiresAt"@ != "expiresAt"@
            && "refreshExpiresAt"@ != "expiresIn"@ && "refreshExpiresAt"@ != "refreshExpiresIn"@
            && "refreshExpiresAt"@ != "lastRefreshTime"@,
{
    reveal_strlit("auth");
    reveal_strlit("accounts");
    reveal_strlit("account");
    reveal_strlit("id");
    reveal_strlit("token");
    reveal_strlit("refreshToken");
    reveal_strlit("expiresAt");
    reveal_strlit("domain");
    reveal_strlit("accessToken");
    reveal_strlit("converted");
    reveal_strlit("refreshExpiresAt");
    reveal_strlit("tokenType");
    reveal_strlit("expiresIn");
    reveal_strlit("refreshExpiresIn");
    reveal_strlit("lastRefreshTime");
    assert("refreshExpiresAt"@[14] != "refreshExpiresIn"@[14]);
    assert("auth"@.len() == 4);
    assert("accounts"@.len() == 8);
    assert("account"@.len() == 7);
    assert("id"@.len() == 2);
    assert("token"@.len() == 5);
    assert("refreshToken"@.len() == 12);
    assert("expiresAt"@.len() == 9);
    assert("domain"@.len() == 6);
    assert("accessToken"@.len() == 11);
    assert("converted"@.len() == 9);
    assert("refreshExpiresAt"@.len() == 16);
    assert("tokenType"@.len() == 9);
    assert("expiresIn"@.len() == 9);
    assert("refreshExpiresIn"@.len() == 16);
    assert("lastRefreshTime"@.len() == 15);
}

/// The values that the session document reads at the top level: the base's
/// value for any other field, and for `auth` the auth object of the spec.
proof fn lemma_session_top(acc: JsonV, account_obj: JsonV, existing: Option<Json>, now: int, k: Seq<char>)
    ensures
        !is_session_field(k) ==> session_json_spec(acc, account_obj, opt_doc(existing), now).get(k)
            == session_base(existing).get(k),
        session_json_spec(acc, account_obj, opt_doc(existing), now).get("auth"@) == Some(
            session_auth_spec(acc, obj_or_empty_v(session_base(existing).get("auth"@)), now),
        ),
        session_json_spec(acc, account_obj, opt_doc(existing), now).get("account"@) == Some(
            marked_account(account_obj),
        ),
        session_json_spec(acc, account_obj, opt_doc(existing), now).get("accounts"@) == Some(
            match session_base(existing).get("accounts"@) {
                Some(JsonV::Arr(entries)) => JsonV::Arr(upsert_accounts_spec(entries, marked_account(account_obj))),
                _ => JsonV::Arr(seq![marked_account(account_obj)]),
            },
        ),
{
    lemma_session_base(existing);
    lemma_session_keys_differ();
    let uid = str_or(acc.get_str("uid"@), Seq::empty());
    let domain = str_or(acc.get_str("domain"@), Seq::empty());
    let refresh_token = str_or(acc.get_str("refresh_token"@), Seq::empty());
    let access_token = str_or(acc.get_str("access_token"@), Seq::empty());
    let expires_at = match get_int(acc, "expiresAt"@) {
        Some(x) => x,
        None => 0,
    };
    let root0 = session_base(existing);
    let account = marked_account(account_obj);
    let auth = session_auth_spec(acc, obj_or_empty_v(root0.get("auth"@)), now);
    let r1 = root0.set("id"@, JsonV::Str(PAYLOAD_ID@));
    let r2 = r1.set("token"@, JsonV::Str(access_token));
    let r3 = r2.set("refreshToken"@, JsonV::Str(refresh_token));
    let r4 = r3.set("expiresAt"@, JsonV::Int(expires_at));
    let r5 = r4.set("domain"@, JsonV::Str(domain));
    let r6 = r5.set("accessToken"@, JsonV::Str(uid + "+"@ + access_token));
    let r7 = r6.set("converted"@, JsonV::Bool(true));
    let r8 = r7.set("account"@, account);
    let r9 = r8.set("auth"@, auth);
    let ks = seq![k, "auth"@, "accounts"@, "account"@];
    assert forall|i: int| 0 <= i < 4 implies {
        &&& r9.wf_obj()
        &&& r9.get(#[trigger] ks[i]) == if ks[i] == "auth"@ {
            Some(auth)
        } else if ks[i] == "account"@ {
            Some(account)
        } else if is_session_field(ks[i]) {
            r9.get(ks[i])
        } else {
            root0.get(ks[i])
        }
        &&& (ks[i] == "accounts"@ ==> r9.get(ks[i]) == root0.get("accounts"@))
    } by {
        let q = ks[i];
        lemma_set_get(root0, "id"@, JsonV::Str(PAYLOAD_ID@), q);
        lemma_set_get(r1, "token"@, JsonV::Str(access_token), q);
        lemma_set_get(r2, "refreshToken"@, JsonV::Str(refresh_token), q);
        lemma_set_get(r3, "expiresAt"@, JsonV::Int(expires_at), q);
        lemma_set_get(r4, "domain"@, JsonV::Str(domain), q);
        lemma_set_get(r5, "accessToken"@, JsonV::Str(uid + "+"@ + access_token), q);
        lemma_set_get(r6, "converted"@, JsonV::Bool(true), q);
        lemma_set_get(r7, "account"@, account, q);
        lemma_set_get(r8, "auth"@, auth, q);
    }
    assert(ks[0] == k);
    assert(ks[1] == "auth"@);
    assert(ks[2] == "accounts"@);
    assert(ks[3] == "account"@);
    let accs = match r9.get("accounts"@) {
        Some(JsonV::Arr(entries)) => JsonV::Arr(upsert_accounts_spec(entries, account)),
        _ => JsonV::Arr(seq![account]),
    };
    lemma_set_get(r9, "accounts"@, accs, k);
    lemma_set_get(r9, "accounts"@, accs, "auth"@);
    lemma_set_get(r9, "accounts"@, accs, "accounts"@);
    lemma_set_get(r9, "accounts"@, accs, "account"@);
}

/// Writing the session keeps every field of the existing document that it
/// does not set from the account (such as the extension's own settings).
pub proof fn law_session_keeps_other_fields(acc: Json, account_obj: Json, existing: Option<Json>, now: int, k: Seq<char>)
    requires
        !is_session_field(k),
    ensures
        session_json_spec(acc@, account_obj@, opt_doc(existing), now).get(k)
            == session_base(existing).get(k),
{
    lemma_session_top(acc@, account_obj@, existing, now, k);
}

/// Where there is no existing session document, or it is no JSON object,
/// the session is built from nothing: the same document as without one,
/// with the account entry as the only entry of `accounts`.
pub proof fn law_session_without_base(acc: Json, account_obj: Json, existing: Option<Json>, now: int)
    requires
        existing matches Some(e) ==> !(e@ is Obj),
    ensures
        session_json_spec(acc@, account_obj@, opt_doc(existing), now) == session_json_spec(acc@, account_obj@, None, now),
        session_json_spec(acc@, account_obj@, opt_doc(existing), now).get("accounts"@) == Some(
            JsonV::Arr(seq![marked_account(account_obj@)]),
        ),
{
    assert(session_base(existing) == JsonV::Obj(Seq::empty(), Seq::empty()));
    lemma_session_top(acc@, account_obj@, existing, now, "id"@);
}

/// The text at key `k` of the account, or `d` where it has no text there.
pub open spec fn account_text(acc: JsonV, k: Seq<char>, d: Seq<char>) -> Seq<char> {
    match acc.get(k) {
        Some(JsonV::Str(t)) => t,
        _ => d,
    }
}

/// The integer `expiresAt` of the account, or 0.
pub open spec fn account_expiry(acc: JsonV) -> int {
    match acc.get("expiresAt"@) {
        Some(JsonV::Int(x)) => x,
        _ => 0,
    }
}

proof fn lemma_session_scalar_keys()
    ensures
        "id"@.len() == 2,
        "token"@.len() == 5,
        "refreshToken"@.len() == 12,
        "expiresAt"@.len() == 9,
        "domain"@.len() == 6,
        "accessToken"@.len() == 11,
        "converted"@.len() == 9,
        "account"@.len() == 7,
        "auth"@.len() == 4,
        "accounts"@.len() == 8,
        "tokenType"@.len() == 9,
        "expiresIn"@.len() == 9,
        "refreshExpiresIn"@.len() == 16,
        "refreshExpiresAt"@.len() == 16,
        "lastRefreshTime"@.len() == 15,
        "expiresAt"@ != "converted"@,
        "tokenType"@ != "expiresAt"@,
        "tokenType"@ != "expiresIn"@,
        "expiresAt"@ != "expiresIn"@,
        "refreshExpiresIn"@ != "refreshExpiresAt"@,
{
    reveal_strlit("id");
    reveal_strlit("token");
    reveal_strlit("refreshToken");
    reveal_strlit("expiresAt");
    reveal_strlit("domain");
    reveal_strlit("accessToken");
    reveal_strlit("converted");
    reveal_strlit("account");
    reveal_strlit("auth");
    reveal_strlit("accounts");
    reveal_strlit("tokenType");
    reveal_strlit("expiresIn");
    reveal_strlit("refreshExpiresIn");
    reveal_strlit("refreshExpiresAt");
    reveal_strlit("lastRefreshTime");
    assert("expiresAt"@[0] != "converted"@[0]);
    assert("tokenType"@[0] != "expiresAt"@[0]);
    assert("tokenType"@[0] != "expiresIn"@[0]);
    assert("expiresAt"@[7] != "expiresIn"@[7]);
    assert("refreshExpiresIn"@[14] != "refreshExpiresAt"@[14]);
}

proof fn lemma_auth_reads(acc: JsonV, ea: JsonV, now: int, q: Seq<char>)
    requires
        valid(ea),
        ea is Obj,
        q == "accessToken"@ || q == "refreshToken"@ || q == "tokenType"@ || q == "domain"@ || q == "expiresAt"@
            || q == "expiresIn"@ || q == "refreshExpiresIn"@ || q == "lastRefreshTime"@,
    ensures
        session_auth_spec(acc, ea, now).get(q) == Some(
            if q == "accessToken"@ {
                JsonV::Str(account_text(acc, "access_token"@, Seq::empty()))
            } else if q == "refreshToken"@ {
                JsonV::Str(account_text(acc, "refresh_token"@, Seq::empty()))
            } else if q == "tokenType"@ {
                JsonV::Str(account_text(acc, "token_type"@, "Bearer"@))
            } else if q == "domain"@ {
                JsonV::Str(account_text(acc, "domain"@, Seq::empty()))
            } else if q == "expiresAt"@ || q == "expiresIn"@ {
                JsonV::Int(account_expiry(acc))
            } else if q == "refreshExpiresIn"@ {
                JsonV::Int(0)
            } else {
                JsonV::Int(now)
            },
        ),
{
    lemma_session_scalar_keys();
    let access_token = str_or(acc.get_str("access_token"@), Seq::empty());
    let refresh_token = str_or(acc.get_str("refresh_token"@), Seq::empty());
    let token_type = str_or(acc.get_str("token_type"@), "Bearer"@);
    let domain = str_or(acc.get_str("domain"@), Seq::empty());
    let expires_at = match get_int(acc, "expiresAt"@) {
        Some(x) => x,
        None => 0,
    };
    assert(access_token == account_text(acc, "access_token"@, Seq::empty()));
    assert(refresh_token == account_text(acc, "refresh_token"@, Seq::empty()));
    assert(token_type == account_text(acc, "token_type"@, "Bearer"@));
    assert(domain == account_text(acc, "domain"@, Seq::empty()));
    assert(expires_at == account_expiry(acc));
    let b1 = ea.set("accessToken"@, JsonV::Str(access_token));
    let b2 = b1.set("refreshToken"@, JsonV::Str(refresh_token));
    let b3 = b2.set("tokenType"@, JsonV::Str(token_type));
    let b4 = b3.set("domain"@, JsonV::Str(domain));
    let b5 = b4.set("expiresAt"@, JsonV::Int(expires_at));
    let b6 = b5.set("expiresIn"@, JsonV::Int(expires_at));
    let a1 = b6.set("refreshExpiresIn"@, JsonV::Int(0));
    lemma_set_get(ea, "accessToken"@, JsonV::Str(access_token), q);
    lemma_set_get(b1, "refreshToken"@, JsonV::Str(refresh_token), q);
    lemma_set_get(b2, "tokenType"@, JsonV::Str(token_type), q);
    lemma_set_get(b3, "domain"@, JsonV::Str(domain), q);
    lemma_set_get(b4, "expiresAt"@, JsonV::Int(expires_at), q);
    lemma_set_get(b5, "expiresIn"@, JsonV::Int(expires_at), q);
    lemma_set_get(b6, "refreshExpiresIn"@, JsonV::Int(0), q);
    let a2 = match get_int(acc, "refreshExpiresAt"@) {
        Some(v) => a1.set("refreshExpiresAt"@, JsonV::Int(v)),
        None => if a1.get("refreshExpiresAt"@) is None {
            a1.set("refreshExpiresAt"@, JsonV::Int(0))
        } else {
            a1
        },
    };
    match get_int(acc, "refreshExpiresAt"@) {
        Some(v) => {
            lemma_set_get(a1, "refreshExpiresAt"@, JsonV::Int(v), q);
        },
        None => {
            lemma_set_get(a1, "refreshExpiresAt"@, JsonV::Int(0), q);
        },
    }
    lemma_set_get(a2, "lastRefreshTime"@, JsonV::Int(now), q);
}

proof fn lemma_session_scalar(acc: JsonV, account_obj: JsonV, existing: Option<Json>, now: int, q: Seq<char>)
    requires
        q == "id"@ || q == "token"@ || q == "refreshToken"@ || q == "expiresAt"@ || q == "domain"@
            || q == "accessToken"@ || q == "converted"@,
    ensures
        session_json_spec(acc, account_obj, opt_doc(existing), now).get(q) == Some(
            if q == "id"@ {
                JsonV::Str(PAYLOAD_ID@)
            } else if q == "token"@ {
                JsonV::Str(account_text(acc, "access_token"@, Seq::empty()))
            } else if q == "refreshToken"@ {
                JsonV::Str(account_text(acc, "refresh_token"@, Seq::empty()))
            } else if q == "expiresAt"@ {
                JsonV::Int(account_expiry(acc))
            } else if q == "domain"@ {
                JsonV::Str(account_text(acc, "domain"@, Seq::empty()))
            } else if q == "accessToken"@ {
                JsonV::Str(
                    account_text(acc, "uid"@, Seq::empty()) + "+"@ + account_text(acc, "access_token"@, Seq::empty()),
                )
            } else {
                JsonV::Bool(true)
            },
        ),
{
    lemma_session_base(existing);
    lemma_session_scalar_keys();
    let uid = str_or(acc.get_str("uid"@), Seq::empty());
    let domain = str_or(acc.get_str("domain"@), Seq::empty());
    let refresh_token = str_or(acc.get_str("refresh_token"@), Seq::empty());
    let access_token = str_or(acc.get_str("access_token"@), Seq::empty());
    let expires_at = match get_int(acc, "expiresAt"@) {
        Some(x) => x,
        None => 0,
    };
    assert(uid == account_text(acc, "uid"@, Seq::empty()));
    assert(access_token == account_text(acc, "access_token"@, Seq::empty()));
    assert(refresh_token == account_text(acc, "refresh_token"@, Seq::empty()));
    assert(domain == account_text(acc, "domain"@, Seq::empty()));
    assert(expires_at == account_expiry(acc));
    let root0 = session_base(existing);
    let account = marked_account(account_obj);
    let auth = session_auth_spec(acc, obj_or_empty_v(root0.get("auth"@)), now);
    let r1 = root0.set("id"@, JsonV::Str(PAYLOAD_ID@));
    let r2 = r1.set("token"@, JsonV::Str(access_token));
    let r3 = r2.set("refreshToken"@, JsonV::Str(refresh_token));
    let r4 = r3.set("expiresAt"@, JsonV::Int(expires_at));
    let r5 = r4.set("domain"@, JsonV::Str(domain));
    let r6 = r5.set("accessToken"@, JsonV::Str(uid + "+"@ + access_token));
    let r7 = r6.set("converted"@, JsonV::Bool(true));
    let r8 = r7.set("account"@, account);
    let r9 = r8.set("auth"@, auth);
    lemma_set_get(root0, "id"@, JsonV::Str(PAYLOAD_ID@), q);
    lemma_set_get(r1, "token"@, JsonV::Str(access_token), q);
    lemma_set_get(r2, "refreshToken"@, JsonV::Str(refresh_token), q);
    lemma_set_get(r3, "expiresAt"@, JsonV::Int(expires_at), q);
    lemma_set_get(r4, "domain"@, JsonV::Str(domain), q);
    lemma_set_get(r5, "accessToken"@, JsonV::Str(uid + "+"@ + access_token), q);
    lemma_set_get(r6, "converted"@, JsonV::Bool(true), q);
    lemma_set_get(r7, "account"@, account, q);
    lemma_set_get(r8, "auth"@, auth, q);
    let accs = match r9.get("accounts"@) {
        Some(JsonV::Arr(entries)) => JsonV::Arr(upsert_accounts_spec(entries, account)),
        _ => JsonV::Arr(seq![account]),
    };
    lemma_set_get(r9, "accounts"@, accs, q);
}

/// The session carries the account's credentials: at the top, `token` and
/// `refreshToken` are the account's `access_token` and `refresh_token`,
/// `accessToken` is `<uid>+<access_token>`, `expiresAt` and `domain` are the
/// account's (missing texts read as empty, a missing expiry as 0), `id` is
/// the extension's and `converted` is true; the `auth` object holds the same
/// tokens, the token type (`Bearer` by default), the domain, the expiry as
/// `expiresAt` and `expiresIn`, `refreshExpiresIn` 0, and the write time as
/// `lastRefreshTime`.
pub proof fn law_session_carries_credentials(acc: Json, account_obj: Json, existing: Option<Json>, now: int)
    ensures
        session_json_spec(acc@, account_obj@, opt_doc(existing), now).get("id"@) == Some(JsonV::Str(PAYLOAD_ID@)),
        session_json_spec(acc@, account_obj@, opt_doc(existing), now).get("token"@) == Some(
            JsonV::Str(account_text(acc@, "access_token"@, Seq::empty())),
        ),
        session_json_spec(acc@, account_obj@, opt_doc(existing), now).get("refreshToken"@) == Some(
            JsonV::Str(account_text(acc@, "refresh_token"@, Seq::empty())),
        ),
        session_json_spec(acc@, account_obj@, opt_doc(existing), now).get("expiresAt"@) == Some(
            JsonV::Int(account_expiry(acc@)),
        ),
        session_json_spec(acc@, account_obj@, opt_doc(existing), now).get("domain"@) == Some(
            JsonV::Str(account_text(acc@, "domain"@, Seq::empty())),
        ),
        session_json_spec(acc@, account_obj@, opt_doc(existing), now).get("accessToken"@) == Some(
            JsonV::Str(
                account_text(acc@, "uid"@, Seq::empty()) + "+"@ + account_text(acc@, "access_token"@, Seq::empty()),
            ),
        ),
        session_json_spec(acc@, account_obj@, opt_doc(existing), now).get("converted"@) == Some(JsonV::Bool(true)),
        session_json_spec(acc@, account_obj@, opt_doc(existing), now).get("auth"@) matches Some(a) && {
            &&& a.get("accessToken"@) == Some(JsonV::Str(account_text(acc@, "access_token"@, Seq::empty())))
            &&& a.get("refreshToken"@) == Some(JsonV::Str(account_text(acc@, "refresh_token"@, Seq::empty())))
            &&& a.get("tokenType"@) == Some(JsonV::Str(account_text(acc@, "token_type"@, "Bearer"@)))
            &&& a.get("domain"@) == Some(JsonV::Str(account_text(acc@, "domain"@, Seq::empty())))
            &&& a.get("expiresAt"@) == Some(JsonV::Int(account_expiry(acc@)))
            &&& a.get("expiresIn"@) == Some(JsonV::Int(account_expiry(acc@)))
            &&& a.get("refreshExpiresIn"@) == Some(JsonV::Int(0))
            &&& a.get("lastRefreshTime"@) == Some(JsonV::Int(now))
        },
{
    lemma_session_scalar_keys();
    lemma_session_scalar(acc@, account_obj@, existing, now, "id"@);
    lemma_session_scalar(acc@, account_obj@, existing, now, "token"@);
    lemma_session_scalar(acc@, account_obj@, existing, now, "refreshToken"@);
    lemma_session_scalar(acc@, account_obj@, existing, now, "expiresAt"@);
    lemma_session_scalar(acc@, account_obj@, existing, now, "domain"@);
    lemma_session_scalar(acc@, account_obj@, existing, now, "accessToken"@);
    lemma_session_scalar(acc@, account_obj@, existing, now, "converted"@);
    lemma_session_top(acc@, account_obj@, existing, now, "id"@);
    lemma_session_base(existing);
    let base = session_base(existing);
    lemma_get_valid(base, "auth"@);
    let ea = obj_or_empty_v(base.get("auth"@));
    lemma_auth_reads(acc@, ea, now, "accessToken"@);
    lemma_auth_reads(acc@, ea, now, "refreshToken"@);
    lemma_auth_reads(acc@, ea, now, "tokenType"@);
    lemma_auth_reads(acc@, ea, now, "domain"@);
    lemma_auth_reads(acc@, ea, now, "expiresAt"@);
    lemma_auth_reads(acc@, ea, now, "expiresIn"@);
    lemma_auth_reads(acc@, ea, now, "refreshExpiresIn"@);
    lemma_auth_reads(acc@, ea, now, "lastRefreshTime"@);
}

/// The `auth` object of the session after setting the account's
/// credentials, from the existing one: it keeps every field that it does
/// not set.
proof fn lemma_auth_fields(acc: JsonV, ea: JsonV, now: int, k: Seq<char>)
    requires
        valid(ea),
        ea is Obj,
    ensures
        !is_auth_field(k) ==> session_auth_spec(acc, ea, now).get(k) == ea.get(k),
        session_auth_spec(acc, ea, now).get("refreshExpiresAt"@) == Some(
            match get_int(acc, "refreshExpiresAt"@) {
                Some(v) => JsonV::Int(v),
                None => match ea.get("refreshExpiresAt"@) {
                    Some(x) => x,
                    None => JsonV::Int(0),
                },
            },
        ),
{
    lemma_get_valid(ea, k);
    lemma_session_keys_differ();
    let access_token = str_or(acc.get_str("access_token"@), Seq::empty());
    let refresh_token = str_or(acc.get_str("refresh_token"@), Seq::empty());
    let token_type = str_or(acc.get_str("token_type"@), "Bearer"@);
    let domain = str_or(acc.get_str("domain"@), Seq::empty());
    let expires_at = match get_int(acc, "expiresAt"@) {
        Some(x) => x,
        None => 0,
    };
    let b1 = ea.set("accessToken"@, JsonV::Str(access_token));
    let b2 = b1.set("refreshToken"@, JsonV::Str(refresh_token));
    let b3 = b2.set("tokenType"@, JsonV::Str(token_type));
    let b4 = b3.set("domain"@, JsonV::Str(domain));
    let b5 = b4.set("expiresAt"@, JsonV::Int(expires_at));
    let b6 = b5.set("expiresIn"@, JsonV::Int(expires_at));
    let a1 = b6.set("refreshExpiresIn"@, JsonV::Int(0));
    let ks = seq![k, "refreshExpiresAt"@];
    assert forall|i: int| 0 <= i < 2 implies {
        &&& a1.wf_obj()
        &&& (!is_auth_field(#[trigger] ks[i]) || ks[i] == "refreshExpiresAt"@ ==> a1.get(ks[i]) == ea.get(ks[i]))
    } by {
        let q = ks[i];
        lemma_set_get(ea, "accessToken"@, JsonV::Str(access_token), q);
        lemma_set_get(b1, "refreshToken"@, JsonV::Str(refresh_token), q);
        lemma_set_get(b2, "tokenType"@, JsonV::Str(token_type), q);
        lemma_set_get(b3, "domain"@, JsonV::Str(domain), q);
        lemma_set_get(b4, "expiresAt"@, JsonV::Int(expires_at), q);
        lemma_set_get(b5, "expiresIn"@, JsonV::Int(expires_at), q);
        lemma_set_get(b6, "refreshExpiresIn"@, JsonV::Int(0), q);
    }
    assert(ks[0] == k);
    assert(ks[1] == "refreshExpiresAt"@);
    let a2 = match get_int(acc, "refreshExpiresAt"@) {
        Some(v) => a1.set("refreshExpiresAt"@, JsonV::Int(v)),
        None => if a1.get("refreshExpiresAt"@) is None {
            a1.set("refreshExpiresAt"@, JsonV::Int(0))
        } else {
            a1
        },
    };
    match get_int(acc, "refreshExpiresAt"@) {
        Some(v) => {
            lemma_set_get(a1, "refreshExpiresAt"@, JsonV::Int(v), k);
            lemma_set_get(a1, "refreshExpiresAt"@, JsonV::Int(v), "refreshExpiresAt"@);
        },
        None => {
            lemma_set_get(a1, "refreshExpiresAt"@, JsonV::Int(0), k);
            lemma_set_get(a1, "refreshExpiresAt"@, JsonV::Int(0), "refreshExpiresAt"@);
        },
    }
    assert(a2.wf_obj());
    lemma_set_get(a2, "lastRefreshTime"@, JsonV::Int(now), k);
    lemma_set_get(a2, "lastRefreshTime"@, JsonV::Int(now), "refreshExpiresAt"@);
}

/// Writing the session keeps every field of the existing `auth` object that
/// it does not set (such as `scope` or `sessionState`).
pub proof fn law_session_keeps_auth_fields(acc: Json, account_obj: Json, existing: Option<Json>, now: int, k: Seq<char>)
    requires
        !is_auth_field(k),
    ensures
        session_json_spec(acc@, account_obj@, opt_doc(existing), now).get("auth"@) matches Some(a)
            && a.get(k) == obj_or_empty_v(session_base(existing).get("auth"@)).get(k),
{
    lemma_session_top(acc@, account_obj@, existing, now, k);
    lemma_session_base(existing);
    let base = session_base(existing);
    lemma_get_valid(base, "auth"@);
    lemma_auth_fields(acc@, obj_or_empty_v(base.get("auth"@)), now, k);
}

/// The session's `refreshExpiresAt`: the account's where it has one; else
/// the existing `auth` object's, which stays; else 0.
pub proof fn law_session_refresh_expiry(acc: Json, account_obj: Json, existing: Option<Json>, now: int)
    ensures
        session_json_spec(acc@, account_obj@, opt_doc(existing), now).get("auth"@) matches Some(a)
            && a.get("refreshExpiresAt"@) == Some(
            match get_int(acc@, "refreshExpiresAt"@) {
                Some(v) => JsonV::Int(v),
                None => match obj_or_empty_v(session_base(existing).get("auth"@)).get("refreshExpiresAt"@) {
                    Some(x) => x,
                    None => JsonV::Int(0),
                },
            },
        ),
{
    lemma_session_top(acc@, account_obj@, existing, now, "id"@);
    lemma_session_base(existing);
    let base = session_base(existing);
    lemma_get_valid(base, "auth"@);
    lemma_auth_fields(acc@, obj_or_empty_v(base.get("auth"@)), now, "id"@);
}

/// The session's `accounts`: the account entry, marked as logged in last,
/// stands at one position; every other entry is an existing one, in its
/// order, marked as not logged in last. The account replaces the first
/// entry with its key (its `uid`, or else `id`) where there is one, and is
/// appended otherwise; without an existing array it is the only entry.
pub proof fn law_session_accounts(acc: Json, account_obj: Json, existing: Option<Json>, now: int)
    ensures
        session_json_spec(acc@, account_obj@, opt_doc(existing), now).get("accounts"@) matches Some(
            JsonV::Arr(s),
        ) && match session_base(existing).get("accounts"@) {
            Some(JsonV::Arr(es)) => {
                let p = match upsert_position(es, marked_account(account_obj@)) {
                    Some(i) => i,
                    None => es.len() as int,
                };
                &&& 0 <= p <= es.len()
                &&& s.len() == (if p < es.len() {
                    es.len() as int
                } else {
                    es.len() + 1int
                })
                &&& s[p] == marked_account(account_obj@)
                &&& forall|j: int| 0 <= j < s.len() && j != p ==> #[trigger] s[j] == mark_not_last(es[j])
            },
            _ => s == seq![marked_account(account_obj@)],
        },
{
    lemma_session_top(acc@, account_obj@, existing, now, "id"@);
    match session_base(existing).get("accounts"@) {
        Some(JsonV::Arr(es)) => {
            let account = marked_account(account_obj@);
            match entry_key_spec(account) {
                Some(k) => {
                    lemma_first_key_index_range(marked_entries(es), k);
                },
                None => {},
            }
        },
        _ => {},
    }
}

proof fn lemma_first_key_index_range(s: Seq<JsonV>, key: Seq<char>)
    ensures
        first_key_index(s, key) matches Some(i) ==> 0 <= i < s.len(),
    decreases s.len(),
{
    if s.len() > 0 {
        lemma_first_key_index_range(s.drop_last(), key);
    }
}

/// The account entry of the session is marked as logged in last, and every
/// other object entry of `accounts` as not logged in last.
pub proof fn law_session_single_last_login(acc: Json, account_obj: Json, existing: Option<Json>, now: int)
    requires
        account_obj@ is Obj,
    ensures
        session_json_spec(acc@, account_obj@, opt_doc(existing), now).get("account"@) == Some(
            marked_account(account_obj@),
        ),
        marked_account(account_obj@).get("lastLogin"@) == Some(JsonV::Bool(true)),
        forall|e: JsonV| #[trigger] mark_not_last(e) is Obj && valid(e) ==> mark_not_last(e).get("lastLogin"@) == Some(JsonV::Bool(false)),
{
    lemma_view_valid(account_obj);
    lemma_get_valid(account_obj@, "lastLogin"@);
    lemma_set_get(account_obj@, "lastLogin"@, JsonV::Bool(true), "lastLogin"@);
    assert forall|e: JsonV| #[trigger] mark_not_last(e) is Obj && valid(e) implies mark_not_last(e).get("lastLogin"@) == Some(JsonV::Bool(false)) by {
        lemma_get_valid(e, "lastLogin"@);
        lemma_set_get(e, "lastLogin"@, JsonV::Bool(false), "lastLogin"@);
    }
    lemma_session_top(acc@, account_obj@, existing, now, "id"@);
}

/// The session document written to the extension's secret, stamped with
/// the current time (see `build_ext_session_json_at`); none where the clock
/// cannot be read.
pub fn build_ext_session_json(acc: &Json, account_obj: Json, existing: Option<Json>) -> (r: Option<Json>)
    ensures
        r matches Some(j) ==> exists|now: i64|
            now >= 0 && j@ == session_json_spec(acc@, account_obj@, opt_doc(existing), now as int),
{
    match crate::time::current_time_ms() {
        Some(now) => Some(build_ext_session_json_at(acc, account_obj, existing, now)),
        None => None,
    }
}

pub open spec fn is_path_sep(c: char) -> bool {
    c == '\\' || c == '/'
}

/// The part of a path after its last `\` or `/` (`rsplit(['\\', '/']).next()`).
pub open spec fn last_segment(s: Seq<char>) -> Seq<char>
    decreases s.len(),
{
    if s.len() == 0 {
        s
    } else if is_path_sep(s.last()) {
        Seq::empty()
    } else {
        last_segment(s.drop_last()).push(s.last())
    }
}

/// The number of bytes of a character in UTF-8.
pub open spec fn utf8_width(c: char) -> nat {
    let u = c as u32;
    if u < 0x80 {
        1
    } else if u < 0x800 {
        2
    } else if u < 0x10000 {
        3
    } else {
        4
    }
}

/// The number of bytes of a text in UTF-8.
pub open spec fn utf8_len(s: Seq<char>) -> nat
    decreases s.len(),
{
    if s.len() == 0 {
        0
    } else {
        utf8_len(s.drop_last()) + utf8_width(s.last())
    }
}

/// The image name can be cut as `windows_image_stem` cuts it: where its last
/// segment, trimmed, is at least four bytes long, its last four bytes begin
/// a character (the byte slice of the stem would panic otherwise).
pub open spec fn image_name_ok(name: Seq<char>) -> bool {
    let f = trim(last_segment(name));
    utf8_len(f) >= 4 ==> exists|k: int| 0 <= k <= f.len() && utf8_len(f.skip(k)) == 4
}

/// The stem of a Windows image name: the last segment of the path, trimmed,
/// without an `.exe` ending in any letter case, trimmed again.
pub open spec fn image_stem(name: Seq<char>) -> Seq<char> {
    let f = trim(last_segment(name));
    if f.len() >= 4 && ascii_lower(f.skip(f.len() - 4)) == ascii_lower(".exe"@) {
        trim(f.take(f.len() - 4))
    } else {
        f
    }
}

proof fn lemma_last_segment(s: Seq<char>, j: int)
    requires
        0 <= j <= s.len(),
        forall|i: int| j <= i < s.len() ==> !is_path_sep(#[trigger] s[i]),
        j == 0 || is_path_sep(s[j - 1]),
    ensures
        last_segment(s) == s.skip(j),
    decreases s.len(),
{
    if s.len() == j {
        if j > 0 {
            assert(s.skip(j) =~= Seq::<char>::empty());
        } else {
            assert(s.skip(j) =~= s);
        }
    } else {
        let d = s.drop_last();
        assert forall|i: int| j <= i < d.len() implies !is_path_sep(#[trigger] d[i]) by {
            assert(d[i] == s[i]);
        }
        if j > 0 {
            assert(d[j - 1] == s[j - 1]);
        }
        lemma_last_segment(d, j);
        assert(d.skip(j).push(s.last()) =~= s.skip(j));
    }
}

/// The last segment of a path (see `last_segment`).
pub fn last_path_segment(s: &str) -> (r: String)
    ensures
        r@ == last_segment(s@),
{
    let v = chars_of(s);
    let mut j: usize = v.len();
    while j > 0 && !(v[j - 1] == '\\' || v[j - 1] == '/')
        invariant
            j <= v.len(),
            v@ == s@,
            forall|i: int| j <= i < v.len() ==> !is_path_sep(#[trigger] s@[i]),
        decreases j,
    {
        j -= 1;
    }
    proof {
        lemma_last_segment(s@, j as int);
        assert(s@.skip(j as int) =~= s@.subrange(j as int, v.len() as int));
    }
    string_from_chars(&v, j, v.len())
}

/// The stem of a Windows image name (see `image_stem`); the name must be one
/// that the stem can be cut from (see `image_name_ok`).
pub fn windows_image_stem(name: &str) -> (r: String)
    requires
        image_name_ok(name@),
    ensures
        r@ == image_stem(name@),
{
    let seg = last_path_segment(name);
    let file = trimmed(seg.as_str());
    let v = chars_of(file.as_str());
    if v.len() >= 4 {
        let tail = string_from_chars(&v, v.len() - 4, v.len());
        assert(v@.subrange(v.len() - 4, v.len() as int) =~= file@.skip(file@.len() - 4));
        if eq_ignore_ascii_case(tail.as_str(), ".exe") {
            let head = string_from_chars(&v, 0, v.len() - 4);
            assert(v@.subrange(0, v.len() - 4) =~= file@.take(file@.len() - 4));
            return trimmed(head.as_str());
        }
    }
    file
}

/// An image of VS Code itself: the stem is `Code` in any letter case (not
/// `Code - Insiders`, `CodeBuddy` or any other variant).
pub open spec fn is_code_image_spec(name: Seq<char>) -> bool {
    ascii_lower(image_stem(name)) == ascii_lower("Code"@)
}

/// Whether an image name (or path) is VS Code's own (see `is_code_image_spec`).
pub fn is_code_image_name(name: &str) -> (r: bool)
    requires
        image_name_ok(name@),
    ensures
        r == is_code_image_spec(name@),
{
    let stem = windows_image_stem(name);
    eq_ignore_ascii_case(stem.as_str(), "Code")
}

/// An image of this tool itself: the stem is `workbuddy-switch` or
/// `wb-switch` in any letter case.
pub open spec fn is_self_image_spec(name: Seq<char>) -> bool {
    ascii_lower(image_stem(name)) == ascii_lower("workbuddy-switch"@) || ascii_lower(image_stem(name))
        == ascii_lower("wb-switch"@)
}

/// Whether an image name is this tool's own (see `is_self_image_spec`).
pub fn is_self_image_name(name: &str) -> (r: bool)
    requires
        image_name_ok(name@),
    ensures
        r == is_self_image_spec(name@),
{
    let stem = windows_image_stem(name);
    eq_ignore_ascii_case(stem.as_str(), "workbuddy-switch") || eq_ignore_ascii_case(stem.as_str(), "wb-switch")
}

/// A crash reporter helper: the stem, lower-cased, holds `crashpad`.
pub open spec fn is_crashpad_helper_spec(name: Seq<char>) -> bool {
    contains(ascii_lower(image_stem(name)), "crashpad"@)
}

/// Whether an image name is a crash reporter helper (see
/// `is_crashpad_helper_spec`).
pub fn is_crashpad_helper_name(name: &str) -> (r: bool)
    requires
        image_name_ok(name@),
    ensures
        r == is_crashpad_helper_spec(name@),
{
    let stem = windows_image_stem(name);
    let lower = crate::text::to_ascii_lowercase(stem.as_str());
    str_contains(lower.as_str(), "crashpad")
}

/// A Windows process: its id, its image name and its executable path.
pub struct WindowsProcessRow {
    pub pid: u32,
    pub name: String,
    pub exe_path: Option<String>,
}

/// The file name of a row's executable path (empty without a path), trimmed.
pub open spec fn row_file_name(row: WindowsProcessRow) -> Seq<char> {
    trim(
        last_segment(
            match row.exe_path {
                Some(p) => p@,
                None => Seq::empty(),
            },
        ),
    )
}

/// A row can be judged: its name and its file name can be cut to a stem.
pub open spec fn row_ok(row: WindowsProcessRow) -> bool {
    image_name_ok(row.name@) && image_name_ok(row_file_name(row))
}

/// A row of a VS Code process: neither this tool nor a crash reporter by
/// name or file, and VS Code by name or file.
pub open spec fn keep_row_spec(row: WindowsProcessRow) -> bool {
    let f = row_file_name(row);
    &&& !(is_self_image_spec(row.name@) || is_self_image_spec(f))
    &&& !(is_crashpad_helper_spec(row.name@) || is_crashpad_helper_spec(f))
    &&& (is_code_image_spec(row.name@) || is_code_image_spec(f))
}

/// Whether a Windows process row is a VS Code process (see `keep_row_spec`).
pub fn keep_windows_code_row(row: &WindowsProcessRow) -> (r: bool)
    requires
        row_ok(*row),
    ensures
        r == keep_row_spec(*row),
{
    let path_s = match &row.exe_path {
        Some(p) => p.clone(),
        None => String::new(),
    };
    let seg = last_path_segment(path_s.as_str());
    let file_name = trimmed(seg.as_str());
    if is_self_image_name(row.name.as_str()) || is_self_image_name(file_name.as_str()) {
        return false;
    }
    if is_crashpad_helper_name(row.name.as_str()) || is_crashpad_helper_name(file_name.as_str()) {
        return false;
    }
    is_code_image_name(row.name.as_str()) || is_code_image_name(file_name.as_str())
}

/// The rows of VS Code processes other than `self_pid`, in order.
pub open spec fn code_rows_spec(rows: Seq<WindowsProcessRow>, self_pid: u32) -> Seq<WindowsProcessRow>
    decreases rows.len(),
{
    if rows.len() == 0 {
        rows
    } else if rows.last().pid != self_pid && keep_row_spec(rows.last()) {
        code_rows_spec(rows.drop_last(), self_pid).push(rows.last())
    } else {
        code_rows_spec(rows.drop_last(), self_pid)
    }
}

fn copy_row(row: &WindowsProcessRow) -> (r: WindowsProcessRow)
    ensures
        r.pid == row.pid,
        r.name@ == row.name@,
        opt_text(r.exe_path) == opt_text(row.exe_path),
        row_file_name(r) == row_file_name(*row),
        keep_row_spec(r) == keep_row_spec(*row),
{
    let r = WindowsProcessRow {
        pid: row.pid,
        name: row.name.clone(),
        exe_path: match &row.exe_path {
            Some(p) => Some(p.clone()),
            None => None,
        },
    };
    r
}

pub open spec fn rows_view(rows: Seq<WindowsProcessRow>) -> Seq<(u32, Seq<char>, Option<Seq<char>>)> {
    rows.map_values(|r: WindowsProcessRow| (r.pid, r.name@, opt_text(r.exe_path)))
}

/// The VS Code processes among Windows process rows, other than this
/// process (`self_pid`), in order.
pub fn windows_code_rows(rows: &Vec<WindowsProcessRow>, self_pid: u32) -> (r: Vec<WindowsProcessRow>)
    requires
        forall|i: int| 0 <= i < rows.len() ==> row_ok(#[trigger] rows@[i]),
    ensures
        rows_view(r@) == rows_view(code_rows_spec(rows@, self_pid)),
{
    let mut out: Vec<WindowsProcessRow> = Vec::new();
    let mut i: usize = 0;
    assert(rows@.take(0) =~= Seq::<WindowsProcessRow>::empty());
    assert(rows_view(out@) =~= rows_view(code_rows_spec(rows@.take(0), self_pid)));
    while i < rows.len()
        invariant
            i <= rows.len(),
            forall|k: int| 0 <= k < rows.len() ==> row_ok(#[trigger] rows@[k]),
            rows_view(out@) == rows_view(code_rows_spec(rows@.take(i as int), self_pid)),
        decreases rows.len() - i,
    {
        assert(rows@.take(i + 1).drop_last() =~= rows@.take(i as int));
        assert(rows@.take(i + 1).last() == rows@[i as int]);
        let ghost before = out@;
        if rows[i].pid != self_pid && keep_windows_code_row(&rows[i]) {
            out.push(copy_row(&rows[i]));
            assert(rows_view(out@) =~= rows_view(before).push((rows@[i as int].pid, rows@[i as int].name@, opt_text(rows@[i as int].exe_path))));
            assert(rows_view(code_rows_spec(rows@.take(i + 1), self_pid)) =~= rows_view(code_rows_spec(rows@.take(i as int), self_pid)).push((rows@[i as int].pid, rows@[i as int].name@, opt_text(rows@[i as int].exe_path))));
        }
        i += 1;
    }
    assert(rows@.take(rows.len() as int) =~= rows@);
    out
}

/// The PowerShell query for VS Code processes (`pid|name|path` per line).
pub fn windows_code_cim_process_script() -> (r: &'static str)
    ensures
        r@ == "Get-CimInstance Win32_Process -ErrorAction SilentlyContinue | Where-Object { $_.Name -eq 'Code.exe' } | ForEach-Object { '{0}|{1}|{2}' -f $_.ProcessId, $_.Name, $_.ExecutablePath }"@,
{
    "Get-CimInstance Win32_Process -ErrorAction SilentlyContinue | Where-Object { $_.Name -eq 'Code.exe' } | ForEach-Object { '{0}|{1}|{2}' -f $_.ProcessId, $_.Name, $_.ExecutablePath }"
}

/// The command-line patterns of VS Code's main process on macOS.
pub fn macos_code_main_patterns() -> (r: Vec<String>)
    ensures
        r@.len() == 1,
        r@[0]@ == "Visual Studio Code.app/Contents/MacOS"@,
{
    let mut v: Vec<String> = Vec::new();
    v.push(own("Visual Studio Code.app/Contents/MacOS"));
    v
}

/// A Linux command line of VS Code's main process: lower-cased, it names
/// neither this tool, nor a crash reporter or helper (`--type=`), nor a
/// variant (Insiders, VSCodium, Cursor, Windsurf, CodeBuddy), and it names
/// the program `/code/code`, `/bin/code` or `visual studio code`.
pub open spec fn linux_cmdline_is_code_spec(cmdline: Seq<char>) -> bool {
    let lower = ascii_lower(cmdline);
    &&& !(contains(lower, "wb-switch"@) || contains(lower, "workbuddy-switch"@))
    &&& !(contains(lower, "crashpad"@) || contains(lower, "--type="@))
    &&& !(contains(lower, "code-insiders"@) || contains(lower, "vscodium"@) || contains(lower, "codium"@)
        || contains(lower, "cursor"@) || contains(lower, "windsurf"@) || contains(lower, "codebuddy"@))
    &&& (contains(lower, "/code/code"@) || contains(lower, "/bin/code"@) || contains(lower, "visual studio code"@))
}

/// Whether a Linux command line is VS Code's main process (see
/// `linux_cmdline_is_code_spec`).
pub fn linux_cmdline_is_code(cmdline: &str) -> (r: bool)
    ensures
        r == linux_cmdline_is_code_spec(cmdline@),
{
    let lower = crate::text::to_ascii_lowercase(cmdline);
    let l = lower.as_str();
    if str_contains(l, "wb-switch") || str_contains(l, "workbuddy-switch") {
        return false;
    }
    if str_contains(l, "crashpad") || str_contains(l, "--type=") {
        return false;
    }
    if str_contains(l, "code-insiders") || str_contains(l, "vscodium") || str_contains(l, "codium")
        || str_contains(l, "cursor") || str_contains(l, "windsurf") || str_contains(l, "codebuddy") {
        return false;
    }
    str_contains(l, "/code/code") || str_contains(l, "/bin/code") || str_contains(l, "visual studio code")
}

/// The characters of `p` after its last `/` (all of `p` where it has none).
pub open spec fn last_part(p: Seq<char>) -> Seq<char>
    decreases p.len(),
{
    if p.len() == 0 || p.last() == '/' {
        Seq::empty()
    } else {
        last_part(p.drop_last()).push(p.last())
    }
}

/// The file name of a Unix path, as `Path::file_name` gives it: the last of
/// its `/`-separated parts that is neither empty nor `.`; none where that
/// part is `..` or there is no such part.
pub open spec fn unix_file_name(p: Seq<char>) -> Option<Seq<char>>
    decreases p.len(),
{
    if p.len() == 0 {
        None
    } else if p.last() == '/' {
        unix_file_name(p.drop_last())
    } else {
        let part = last_part(p);
        if part == seq!['.'] {
            unix_file_name(p.take(p.len() - part.len()))
        } else if part == seq!['.', '.'] {
            None
        } else {
            Some(part)
        }
    }
}

proof fn lemma_last_part(p: Seq<char>, start: int, end: int)
    requires
        0 <= start <= end <= p.len(),
        forall|i: int| start <= i < end ==> p[i] != '/',
        start == 0 || p[start - 1] == '/',
    ensures
        last_part(p.take(end)) == p.subrange(start, end),
    decreases end - start,
{
    if end == start {
        assert(p.subrange(start, end) =~= Seq::<char>::empty());
        if end > 0 {
            assert(p.take(end).last() == p[end - 1]);
        }
    } else {
        lemma_last_part(p, start, end - 1);
        assert(p.take(end).drop_last() =~= p.take(end - 1));
        assert(p.subrange(start, end) =~= p.subrange(start, end - 1).push(p[end - 1]));
    }
}

/// The file name of a Unix path (see `unix_file_name`); the targets of
/// `/proc/<pid>/exe` are such paths.
pub fn file_name_of(path: &str) -> (r: Option<String>)
    ensures
        opt_text(r) == unix_file_name(path@),
{
    let v = chars_of(path);
    let mut end: usize = v.len();
    assert(path@.take(end as int) =~= path@);
    loop
        invariant
            end <= v.len(),
            v@ == path@,
            unix_file_name(path@) == unix_file_name(path@.take(end as int)),
        decreases end,
    {
        let ghost e0 = end;
        while end > 0 && v[end - 1] == '/'
            invariant
                end <= e0,
                end <= v.len(),
                v@ == path@,
                unix_file_name(path@) == unix_file_name(path@.take(end as int)),
            decreases end,
        {
            assert(path@.take(end as int).drop_last() =~= path@.take(end - 1));
            end -= 1;
        }
        if end == 0 {
            return None;
        }
        let mut start: usize = end;
        while start > 0 && v[start - 1] != '/'
            invariant
                start <= end <= v.len(),
                v@ == path@,
                0 < end,
                path@[end - 1] != '/',
                forall|i: int| start <= i < end ==> path@[i] != '/',
            decreases start,
        {
            start -= 1;
        }
        assert(start < end);
        proof {
            lemma_last_part(path@, start as int, end as int);
            let p = path@.take(end as int);
            assert(p.last() == path@[end - 1]);
            assert(p.take(p.len() - (end - start)) =~= path@.take(start as int));
        }
        if end - start == 1 && v[start] == '.' {
            assert(path@.subrange(start as int, end as int) =~= seq!['.']);
            end = start;
        } else if end - start == 2 && v[start] == '.' && v[start + 1] == '.' {
            assert(path@.subrange(start as int, end as int) =~= seq!['.', '.']);
            return None;
        } else {
            proof {
                let part = path@.subrange(start as int, end as int);
                if end - start == 1 {
                    assert(part[0] != '.');
                    assert(part != seq!['.']);
                }
                if end - start != 1 {
                    assert(part.len() != seq!['.'].len());
                }
                if end - start == 2 {
                    assert(part != seq!['.', '.']) by {
                        if part == seq!['.', '.'] {
                            assert(part[0] == '.' && part[1] == '.');
                        }
                    }
                }
                if end - start != 2 {
                    assert(part.len() != seq!['.', '.'].len());
                }
            }
            return Some(string_from_chars(&v, start, end));
        }
    }
}

/// A Linux executable of VS Code: its file name, trimmed, is `code` in any
/// letter case.
pub open spec fn linux_exe_is_code_spec(exe: Seq<char>) -> bool {
    ascii_lower(trim(str_or(unix_file_name(exe), Seq::empty()))) == ascii_lower("code"@)
}

/// Whether a Linux executable path is VS Code's (see `linux_exe_is_code_spec`).
pub fn linux_exe_is_code(exe: &str) -> (r: bool)
    ensures
        r == linux_exe_is_code_spec(exe@),
{
    let name = match file_name_of(exe) {
        Some(n) => n,
        None => String::new(),
    };
    let t = trimmed(name.as_str());
    eq_ignore_ascii_case(t.as_str(), "code")
}

/// NUL characters of a command line as spaces.
pub open spec fn nul_to_space(s: Seq<char>) -> Seq<char> {
    s.map_values(|c: char| if c == '\0' { ' ' } else { c })
}

/// A Linux process of VS Code: its executable is VS Code's, or else its
/// command line (not empty; NULs read as spaces) is VS Code's main process.
pub open spec fn linux_process_is_code_spec(exe: Option<Seq<char>>, cmdline: Option<Seq<char>>) -> bool {
    if exe matches Some(e) && linux_exe_is_code_spec(e) {
        true
    } else {
        match cmdline {
            Some(c) => c.len() > 0 && linux_cmdline_is_code_spec(nul_to_space(c)),
            None => false,
        }
    }
}

/// Whether a Linux process is VS Code's (see `linux_process_is_code_spec`):
/// `exe` is the target of `/proc/<pid>/exe` where it can be read, `cmdline`
/// the text of `/proc/<pid>/cmdline` where it can be read.
pub fn linux_process_is_code(exe: Option<&str>, cmdline: Option<&str>) -> (r: bool)
    ensures
        r == linux_process_is_code_spec(opt_text_ref(exe), opt_text_ref(cmdline)),
{
    match exe {
        Some(e) => {
            if linux_exe_is_code(e) {
                return true;
            }
        },
        None => {},
    }
    match cmdline {
        Some(c) => {
            if c.is_empty() {
                return false;
            }
            let v = chars_of(c);
            let mut s = String::new();
            let mut i: usize = 0;
            while i < v.len()
                invariant
                    i <= v.len(),
                    v@ == c@,
                    s@ == nul_to_space(c@.take(i as int)),
                decreases v.len() - i,
            {
                s.push(if v[i] == '\0' { ' ' } else { v[i] });
                assert(nul_to_space(c@.take(i + 1)) =~= nul_to_space(c@.take(i as int)).push(if c@[i as int] == '\0' { ' ' } else { c@[i as int] }));
                i += 1;
            }
            assert(c@.take(v.len() as int) =~= c@);
            linux_cmdline_is_code(s.as_str())
        },
        None => false,
    }
}

proof fn lemma_utf8_len_concat(a: Seq<char>, b: Seq<char>)
    ensures
        utf8_len(a + b) == utf8_len(a) + utf8_len(b),
    decreases b.len(),
{
    if b.len() == 0 {
        assert(a + b =~= a);
    } else {
        lemma_utf8_len_concat(a, b.drop_last());
        assert((a + b).drop_last() =~= a + b.drop_last());
        assert((a + b).last() == b.last());
    }
}

proof fn lemma_utf8_len_skip(f: Seq<char>, k: int)
    requires
        0 <= k < f.len(),
    ensures
        utf8_len(f.skip(k)) == utf8_width(f[k]) + utf8_len(f.skip(k + 1)),
{
    lemma_utf8_len_concat(seq![f[k]], f.skip(k + 1));
    assert(seq![f[k]] + f.skip(k + 1) =~= f.skip(k));
    assert(seq![f[k]].drop_last() =~= Seq::<char>::empty());
    assert(utf8_len(Seq::<char>::empty()) == 0);
    assert(seq![f[k]].last() == f[k]);
    assert(utf8_len(seq![f[k]]) == utf8_width(f[k]));
}

proof fn lemma_utf8_len_skip_mono(f: Seq<char>, k1: int, k2: int)
    requires
        0 <= k1 <= k2 <= f.len(),
    ensures
        utf8_len(f.skip(k1)) >= utf8_len(f.skip(k2)),
    decreases k2 - k1,
{
    if k1 < k2 {
        lemma_utf8_len_skip(f, k1);
        lemma_utf8_len_skip_mono(f, k1 + 1, k2);
    }
}

fn utf8_width_exec(c: char) -> (r: u64)
    ensures
        r == utf8_width(c),
{
    let u = c as u32;
    if u < 0x80 {
        1
    } else if u < 0x800 {
        2
    } else if u < 0x10000 {
        3
    } else {
        4
    }
}

/// Whether the stem of an image name can be cut (see `image_name_ok`).
pub fn image_name_can_be_cut(name: &str) -> (r: bool)
    ensures
        r == image_name_ok(name@),
{
    let seg = last_path_segment(name);
    let file = trimmed(seg.as_str());
    let v = chars_of(file.as_str());
    let ghost f = file@;
    let mut k: usize = v.len();
    let mut acc: u64 = 0;
    assert(f.skip(f.len() as int) =~= Seq::<char>::empty());
    while k > 0 && acc < 4
        invariant
            k <= v.len(),
            v@ == f,
            acc == utf8_len(f.skip(k as int)),
            acc < 8,
            forall|j: int| k < j <= f.len() ==> utf8_len(#[trigger] f.skip(j)) < 4,
        decreases k,
    {
        k -= 1;
        proof {
            lemma_utf8_len_skip(f, k as int);
        }
        acc += utf8_width_exec(v[k]);
    }
    assert(f.skip(0) =~= f);
    if acc <= 4 {
        if acc < 4 {
            assert(k == 0);
        }
        true
    } else {
        proof {
            lemma_utf8_len_skip_mono(f, 0, k as int);
            assert forall|j: int| 0 <= j <= f.len() implies utf8_len(#[trigger] f.skip(j)) != 4 by {
                if j <= k {
                    lemma_utf8_len_skip_mono(f, j, k as int);
                }
            }
        }
        false
    }
}

/// Whether a Windows process row can be judged (see `row_ok`).
pub fn row_can_be_judged(row: &WindowsProcessRow) -> (r: bool)
    ensures
        r == row_ok(*row),
{
    let path_s = match &row.exe_path {
        Some(p) => p.clone(),
        None => String::new(),
    };
    let seg = last_path_segment(path_s.as_str());
    let file_name = trimmed(seg.as_str());
    image_name_can_be_cut(row.name.as_str()) && image_name_can_be_cut(file_name.as_str())
}

pub open spec fn row_triple(pid: u32, name: Seq<char>, path: Option<Seq<char>>) -> (u32, Seq<char>, Option<Seq<char>>) {
    (pid, name, path)
}

/// One line of the process query's output, `pid|name|path`: the fields of
/// the trimmed line split at `|`; the first, trimmed, must read as a `u32`;
/// the name is the second, trimmed; the path is the third, trimmed, where
/// there is one and it is not empty.
pub open spec fn parse_row_spec(line: Seq<char>) -> Option<(u32, Seq<char>, Option<Seq<char>>)> {
    let f = split_on(trim(line), '|');
    if f.len() >= 2 && parse_u32_spec(trim(f[0])) is Some {
        Some(
            row_triple(
                parse_u32_spec(trim(f[0]))->0,
                trim(f[1]),
                if f.len() >= 3 && trim(f[2]).len() > 0 {
                    Some(trim(f[2]))
                } else {
                    None
                },
            ),
        )
    } else {
        None
    }
}

/// The rows of the lines that read as rows, in order.
pub open spec fn parse_rows_spec(lines: Seq<Seq<char>>) -> Seq<(u32, Seq<char>, Option<Seq<char>>)>
    decreases lines.len(),
{
    if lines.len() == 0 {
        Seq::empty()
    } else {
        let p = parse_rows_spec(lines.drop_last());
        match parse_row_spec(lines.last()) {
            Some(t) => p.push(t),
            None => p,
        }
    }
}

fn parse_row(line: &str) -> (r: Option<WindowsProcessRow>)
    ensures
        match r {
            Some(row) => parse_row_spec(line@) == Some(row_triple(row.pid, row.name@, opt_text(row.exe_path))),
            None => parse_row_spec(line@) is None,
        },
{
    let t = trimmed(line);
    let f = split_chars(t.as_str(), '|');
    if f.len() < 2 {
        return None;
    }
    let pid_text = trimmed(f[0].as_str());
    assert(pid_text@ == trim(split_on(trim(line@), '|')[0]));
    let pid = match parse_u32(pid_text.as_str()) {
        Some(p) => p,
        None => {
            return None;
        },
    };
    let name = trimmed(f[1].as_str());
    assert(name@ == trim(split_on(trim(line@), '|')[1]));
    let exe_path = if f.len() >= 3 {
        let p = trimmed(f[2].as_str());
        assert(p@ == trim(split_on(trim(line@), '|')[2]));
        if !p.as_str().is_empty() {
            Some(p)
        } else {
            None
        }
    } else {
        None
    };
    Some(WindowsProcessRow { pid, name, exe_path })
}

/// The rows of the process query's output, one per line that reads as one
/// (see `parse_row_spec`), in order.
pub fn parse_windows_process_rows(text: &str) -> (r: Vec<WindowsProcessRow>)
    ensures
        rows_view(r@) == parse_rows_spec(split_on(text@, '\n')),
{
    let lines = split_chars(text, '\n');
    let ghost ls = split_on(text@, '\n');
    let mut out: Vec<WindowsProcessRow> = Vec::new();
    let mut i: usize = 0;
    assert(ls.take(0) =~= Seq::<Seq<char>>::empty());
    assert(rows_view(out@) =~= parse_rows_spec(ls.take(0)));
    while i < lines.len()
        invariant
            i <= lines.len(),
            texts(lines@) == ls,
            rows_view(out@) == parse_rows_spec(ls.take(i as int)),
        decreases lines.len() - i,
    {
        assert(ls.take(i + 1).drop_last() =~= ls.take(i as int));
        assert(ls.take(i + 1).last() == lines@[i as int]@);
        let ghost before = out@;
        match parse_row(lines[i].as_str()) {
            Some(row) => {
                out.push(row);
                assert(rows_view(out@) =~= rows_view(before).push(row_triple(row.pid, row.name@, opt_text(row.exe_path))));
            },
            None => {},
        }
        i += 1;
    }
    assert(ls.take(lines.len() as int) =~= ls);
    out
}

/// The VS Code processes of Windows: those of the process query where it
/// ran and found any, else those of the task list.
pub open spec fn windows_process_rows_spec(
    cim: Option<Seq<WindowsProcessRow>>,
    tasklist: Seq<WindowsProcessRow>,
    self_pid: u32,
) -> Seq<WindowsProcessRow> {
    match cim {
        Some(rows) => if code_rows_spec(rows, self_pid).len() > 0 {
            code_rows_spec(rows, self_pid)
        } else {
            code_rows_spec(tasklist, self_pid)
        },
        None => code_rows_spec(tasklist, self_pid),
    }
}

pub open spec fn all_rows_ok(rows: Seq<WindowsProcessRow>) -> bool {
    forall|i: int| 0 <= i < rows.len() ==> row_ok(#[trigger] rows[i])
}

pub open spec fn opt_rows(o: Option<&Vec<WindowsProcessRow>>) -> Option<Seq<WindowsProcessRow>> {
    match o {
        Some(v) => Some(v@),
        None => None,
    }
}

/// The VS Code processes of Windows other than `self_pid` (see
/// `windows_process_rows_spec`): `cim` holds the rows of the process query
/// where it ran, `tasklist` those of the task list.
pub fn windows_code_process_rows(
    cim: Option<&Vec<WindowsProcessRow>>,
    tasklist: &Vec<WindowsProcessRow>,
    self_pid: u32,
) -> (r: Vec<WindowsProcessRow>)
    requires
        cim matches Some(rows) ==> all_rows_ok(rows@),
        all_rows_ok(tasklist@),
    ensures
        rows_view(r@) == rows_view(windows_process_rows_spec(opt_rows(cim), tasklist@, self_pid)),
{
    match cim {
        Some(rows) => {
            let found = windows_code_rows(rows, self_pid);
            if found.len() > 0 {
                return found;
            }
        },
        None => {},
    }
    windows_code_rows(tasklist, self_pid)
}

/// A process of Linux as read from `/proc`: the name of its directory, the
/// target of its `exe` link and the text of its `cmdline`, where they could
/// be read.
pub struct LinuxProcess {
    pub name: String,
    pub exe: Option<String>,
    pub cmdline: Option<String>,
}

/// The ids of the VS Code processes among `/proc` entries: the entries whose
/// name reads as a process id other than `self_pid` and that are VS Code's
/// (see `linux_process_is_code_spec`), in order.
pub open spec fn linux_code_pids_spec(entries: Seq<LinuxProcess>, self_pid: u32) -> Seq<u32>
    decreases entries.len(),
{
    if entries.len() == 0 {
        Seq::empty()
    } else {
        let p = linux_code_pids_spec(entries.drop_last(), self_pid);
        let e = entries.last();
        match parse_u32_spec(e.name@) {
            Some(pid) => if pid != self_pid && linux_process_is_code_spec(opt_text(e.exe), opt_text(e.cmdline)) {
                p.push(pid)
            } else {
                p
            },
            None => p,
        }
    }
}

/// The ids of the VS Code processes of Linux (see `linux_code_pids_spec`).
pub fn linux_code_pids(entries: &Vec<LinuxProcess>, self_pid: u32) -> (r: Vec<u32>)
    ensures
        r@ == linux_code_pids_spec(entries@, self_pid),
{
    let mut pids: Vec<u32> = Vec::new();
    let mut i: usize = 0;
    assert(entries@.take(0) =~= Seq::<LinuxProcess>::empty());
    while i < entries.len()
        invariant
            i <= entries.len(),
            pids@ == linux_code_pids_spec(entries@.take(i as int), self_pid),
        decreases entries.len() - i,
    {
        assert(entries@.take(i + 1).drop_last() =~= entries@.take(i as int));
        assert(entries@.take(i + 1).last() == entries@[i as int]);
        let e = &entries[i];
        match parse_u32(e.name.as_str()) {
            Some(pid) => {
                if pid != self_pid {
                    let exe: Option<&str> = match &e.exe {
                        Some(x) => Some(x.as_str()),
                        None => None,
                    };
                    let cmdline: Option<&str> = match &e.cmdline {
                        Some(x) => Some(x.as_str()),
                        None => None,
                    };
                    assert(opt_text_ref(exe) == opt_text(e.exe));
                    assert(opt_text_ref(cmdline) == opt_text(e.cmdline));
                    if linux_process_is_code(exe, cmdline) {
                        pids.push(pid);
                    }
                }
            },
            None => {},
        }
        i += 1;
    }
    assert(entries@.take(entries.len() as int) =~= entries@);
    pids
}

/// What the process scan of one platform found: this process's id; on
/// macOS the ids of the processes whose command line holds one of
/// `macos_code_main_patterns`; on Windows the rows of the process query
/// (where it ran) and of the task list; on Linux the entries of `/proc`.
pub struct ProcessScan {
    pub self_pid: u32,
    pub macos_pids: Vec<u32>,
    pub windows_cim: Option<Vec<WindowsProcessRow>>,
    pub windows_tasklist: Vec<WindowsProcessRow>,
    pub linux: Vec<LinuxProcess>,
}

pub open spec fn opt_rows_owned(o: Option<Vec<WindowsProcessRow>>) -> Option<Seq<WindowsProcessRow>> {
    match o {
        Some(v) => Some(v@),
        None => None,
    }
}

/// VS Code runs (its main GUI process): on macOS some process matched the
/// patterns; on Windows some VS Code row was found; elsewhere some `/proc`
/// entry is VS Code's.
pub open spec fn is_vscode_running_spec(platform: Platform, scan: ProcessScan) -> bool {
    match platform {
        Platform::MacOs => scan.macos_pids@.len() > 0,
        Platform::Windows => windows_process_rows_spec(
            opt_rows_owned(scan.windows_cim),
            scan.windows_tasklist@,
            scan.self_pid,
        ).len() > 0,
        Platform::Other => linux_code_pids_spec(scan.linux@, scan.self_pid).len() > 0,
    }
}

/// Whether VS Code runs, judged from the process scan of the platform (see
/// `is_vscode_running_spec`).
pub fn is_vscode_running(platform: Platform, scan: &ProcessScan) -> (r: bool)
    requires
        platform == Platform::Windows ==> (scan.windows_cim matches Some(rows) ==> all_rows_ok(rows@)),
        platform == Platform::Windows ==> all_rows_ok(scan.windows_tasklist@),
    ensures
        r == is_vscode_running_spec(platform, *scan),
{
    match platform {
        Platform::MacOs => scan.macos_pids.len() > 0,
        Platform::Windows => {
            let cim: Option<&Vec<WindowsProcessRow>> = match &scan.windows_cim {
                Some(rows) => Some(rows),
                None => None,
            };
            assert(opt_rows(cim) == opt_rows_owned(scan.windows_cim));
            let rows = windows_code_process_rows(cim, &scan.windows_tasklist, scan.self_pid);
            proof {
                let s = windows_process_rows_spec(opt_rows(cim), scan.windows_tasklist@, scan.self_pid);
                assert(rows_view(rows@).len() == rows@.len());
                assert(rows_view(s).len() == s.len());
            }
            rows.len() > 0
        },
        Platform::Other => {
            let pids = linux_code_pids(&scan.linux, scan.self_pid);
            pids.len() > 0
        },
    }
}

/// A text, or JSON `null` for none.
pub open spec fn opt_text_json(o: Option<Seq<char>>) -> JsonV {
    match o {
        Some(t) => JsonV::Str(t),
        None => JsonV::Null,
    }
}

/// A text as JSON, or `null` for none.
pub fn opt_string_json(o: Option<String>) -> (r: Json)
    ensures
        r@ == opt_text_json(opt_text(o)),
{
    match o {
        Some(t) => Json::Str(t),
        None => Json::Null,
    }
}

/// The account that the status names: the id recorded in the state file
/// together with the account's display name, where the account store still
/// holds that account (`name` is its display name then); otherwise none.
pub open spec fn status_account(id: Option<Seq<char>>, name: Option<Seq<char>>) -> (Option<Seq<char>>, Option<Seq<char>>) {
    if id is Some && name is Some {
        (id, name)
    } else {
        (None, None)
    }
}

/// The status document of the extension.
pub open spec fn status_spec(
    installed: bool,
    extension_installed: bool,
    running: bool,
    data_dir: Option<Seq<char>>,
    db_path: Option<Seq<char>>,
    db_exists: bool,
    active_id: Option<Seq<char>>,
    active_name: Option<Seq<char>>,
    state_path: Seq<char>,
) -> JsonV {
    let acc = status_account(active_id, active_name);
    JsonV::Obj(
        seq![
            "installed"@,
            "extensionInstalled"@,
            "running"@,
            "dataDir"@,
            "dbPath"@,
            "dbExists"@,
            "activeAccountId"@,
            "activeAccountName"@,
            "detectedFrom"@,
            "statePath"@,
        ],
        seq![
            JsonV::Bool(installed),
            JsonV::Bool(extension_installed),
            JsonV::Bool(running),
            opt_text_json(data_dir),
            opt_text_json(db_path),
            JsonV::Bool(db_exists),
            opt_text_json(acc.0),
            opt_text_json(acc.1),
            JsonV::Str("state"@),
            JsonV::Str(state_path),
        ],
    )
}

/// The status of the extension: whether VS Code's data directory exists
/// (`installed`), whether the extension's storage directory exists, whether
/// VS Code runs, the data directory and state database as displayed, whether
/// the database exists, and the active account (see `status_account`):
/// `active_id` is the id of the state file, `active_name` the display name
/// of that account where the account store holds it.
pub fn status_report(
    installed: bool,
    extension_installed: bool,
    running: bool,
    data_dir: Option<String>,
    db_path: Option<String>,
    db_exists: bool,
    active_id: Option<String>,
    active_name: Option<String>,
    state_path: &str,
) -> (r: Json)
    ensures
        r@ == status_spec(
            installed,
            extension_installed,
            running,
            opt_text(data_dir),
            opt_text(db_path),
            db_exists,
            opt_text(active_id),
            opt_text(active_name),
            state_path@,
        ),
{
    let ghost acc = status_account(opt_text(active_id), opt_text(active_name));
    let (id, name) = match (active_id, active_name) {
        (Some(i), Some(n)) => (Some(i), Some(n)),
        _ => (None, None),
    };
    assert(opt_text(id) == acc.0 && opt_text(name) == acc.1);
    let mut v: Vec<(String, Json)> = Vec::new();
    v.push((own("installed"), Json::Bool(installed)));
    v.push((own("extensionInstalled"), Json::Bool(extension_installed)));
    v.push((own("running"), Json::Bool(running)));
    v.push((own("dataDir"), opt_string_json(data_dir)));
    v.push((own("dbPath"), opt_string_json(db_path)));
    v.push((own("dbExists"), Json::Bool(db_exists)));
    v.push((own("activeAccountId"), opt_string_json(id)));
    v.push((own("activeAccountName"), opt_string_json(name)));
    v.push((own("detectedFrom"), Json::string("state")));
    v.push((own("statePath"), Json::string(state_path)));
    proof {
        lemma_obj_view(v);
        assert(keys_view(v@) =~= seq![
            "installed"@,
            "extensionInstalled"@,
            "running"@,
            "dataDir"@,
            "dbPath"@,
            "dbExists"@,
            "activeAccountId"@,
            "activeAccountName"@,
            "detectedFrom"@,
            "statePath"@,
        ]);
        assert(vals_view(v@) =~= seq![
            JsonV::Bool(installed),
            JsonV::Bool(extension_installed),
            JsonV::Bool(running),
            opt_text_json(opt_text(data_dir)),
            opt_text_json(opt_text(db_path)),
            JsonV::Bool(db_exists),
            opt_text_json(acc.0),
            opt_text_json(acc.1),
            JsonV::Str("state"@),
            JsonV::Str(state_path@),
        ]);
    }
    Json::Obj(v)
}

pub open spec fn no_data_dir_error() -> Seq<char> {
    "无法定位 VS Code 数据目录"@
}

/// Why an account switch is refused before anything is read from VS Code,
/// if it is, checked in order: the account is not in the store; it has no
/// `access_token` string; that token is empty; VS Code's data directory
/// cannot be located, or does not exist; its state database cannot be
/// located, or does not exist; VS Code runs. `data_dir` and `db_path` are
/// the two paths as displayed, where they can be located.
pub open spec fn switch_refusal(
    account_id: Seq<char>,
    account: Option<JsonV>,
    data_dir: Option<Seq<char>>,
    data_dir_exists: bool,
    db_path: Option<Seq<char>>,
    db_exists: bool,
    running: bool,
) -> Option<Seq<char>> {
    match account {
        None => Some("账号不存在: "@ + account_id),
        Some(acc) => match acc.get_str("access_token"@) {
            None => Some("账号缺少 access_token，无法注入 VS Code CodeBuddy 扩展"@),
            Some(token) => if token.len() == 0 {
                Some("账号 access_token 为空"@)
            } else {
                match data_dir {
                    None => Some(no_data_dir_error()),
                    Some(d) => if !data_dir_exists {
                        Some(
                            "未找到 VS Code 用户数据目录（"@ + d
                                + "）。请先手动打开 VS Code 并安装 CodeBuddy 扩展后重试。"@,
                        )
                    } else {
                        match db_path {
                            None => Some(no_data_dir_error()),
                            Some(b) => if !db_exists {
                                Some(
                                    "未找到 VS Code 状态数据库（"@ + b
                                        + "）。请先手动打开 VS Code 并安装、登录 CodeBuddy 扩展后重试。"@,
                                )
                            } else if running {
                                Some(
                                    "检测到 VS Code 正在运行，请先完全退出后再切换，否则写入会被 VS Code 覆盖。"@,
                                )
                            } else {
                                None
                            }
                        }
                    },
                }
            },
        },
    }
}

/// The checks of an account switch before anything is read from VS Code
/// (see `switch_refusal`): `Err` with the message where one fails.
pub fn check_switch(
    account_id: &str,
    account: Option<&Json>,
    data_dir: Option<&str>,
    data_dir_exists: bool,
    db_path: Option<&str>,
    db_exists: bool,
    running: bool,
) -> (r: Result<(), String>)
    ensures
        match r {
            Ok(()) => switch_refusal(account_id@, opt_doc_ref(account), opt_text_ref(data_dir), data_dir_exists, opt_text_ref(db_path), db_exists, running) is None,
            Err(e) => switch_refusal(account_id@, opt_doc_ref(account), opt_text_ref(data_dir), data_dir_exists, opt_text_ref(db_path), db_exists, running) == Some(e@),
        },
{
    let acc = match account {
        None => {
            return Err(concat("账号不存在: ", account_id));
        },
        Some(a) => a,
    };
    match acc.get_str("access_token") {
        None => {
            return Err(own("账号缺少 access_token，无法注入 VS Code CodeBuddy 扩展"));
        },
        Some(token) => {
            if token.as_str().is_empty() {
                return Err(own("账号 access_token 为空"));
            }
        },
    }
    match data_dir {
        None => {
            return Err(own("无法定位 VS Code 数据目录"));
        },
        Some(d) => {
            if !data_dir_exists {
                let m = concat("未找到 VS Code 用户数据目录（", d);
                return Err(concat(m.as_str(), "）。请先手动打开 VS Code 并安装 CodeBuddy 扩展后重试。"));
            }
        },
    }
    match db_path {
        None => {
            return Err(own("无法定位 VS Code 数据目录"));
        },
        Some(b) => {
            if !db_exists {
                let m = concat("未找到 VS Code 状态数据库（", b);
                return Err(
                    concat(m.as_str(), "）。请先手动打开 VS Code 并安装、登录 CodeBuddy 扩展后重试。"),
                );
            }
        },
    }
    if running {
        return Err(own("检测到 VS Code 正在运行，请先完全退出后再切换，否则写入会被 VS Code 覆盖。"));
    }
    Ok(())
}

pub open spec fn not_logged_in_error() -> Seq<char> {
    "未在 VS Code 中找到 CodeBuddy 扩展的登录状态。请先在 VS Code 中安装并登录 CodeBuddy 扩展（腾讯云 AI 代码助手）后重试。"@
}

/// The secret that a switch merges into, from the result of reading it: a
/// read error is described (see `describe_secret_error_spec`); no secret
/// means the extension is not logged in.
pub open spec fn existing_secret_spec(read: Result<Option<Seq<char>>, Seq<char>>) -> Result<Seq<char>, Seq<char>> {
    match read {
        Err(e) => Err(describe_secret_error_spec(e)),
        Ok(None) => Err(not_logged_in_error()),
        Ok(Some(s)) => Ok(s),
    }
}

pub open spec fn read_view(read: Result<Option<String>, String>) -> Result<Option<Seq<char>>, Seq<char>> {
    match read {
        Err(e) => Err(e@),
        Ok(o) => Ok(opt_text(o)),
    }
}

/// The secret that a switch merges into (see `existing_secret_spec`).
pub fn existing_secret(read: Result<Option<String>, String>) -> (r: Result<String, String>)
    ensures
        text_result(r) == existing_secret_spec(read_view(read)),
{
    match read {
        Err(e) => Err(describe_secret_error(e)),
        Ok(None) => Err(
            own(
                "未在 VS Code 中找到 CodeBuddy 扩展的登录状态。请先在 VS Code 中安装并登录 CodeBuddy 扩展（腾讯云 AI 代码助手）后重试。",
            ),
        ),
        Ok(Some(s)) => Ok(s),
    }
}

/// An error of writing the secret, with advice where it concerns the
/// system's credential store (it names `Safe Storage` or `Keychain`).
pub open spec fn describe_inject_error_spec(err: Seq<char>) -> Seq<char> {
    if contains(err, "Safe Storage"@) || contains(err, "Keychain"@) {
        "注入登录状态失败："@ + err
            + "\n\n请先手动打开 VS Code 并登录一次 CodeBuddy 扩展，确保系统凭据存储中存在「Code Safe Storage」条目后再试。"@
    } else {
        err
    }
}

/// The message of a failed secret write (see `describe_inject_error_spec`).
pub fn describe_inject_error(err: String) -> (r: String)
    ensures
        r@ == describe_inject_error_spec(err@),
{
    if str_contains(err.as_str(), "Safe Storage") || str_contains(err.as_str(), "Keychain") {
        let m = concat("注入登录状态失败：", err.as_str());
        concat(
            m.as_str(),
            "\n\n请先手动打开 VS Code 并登录一次 CodeBuddy 扩展，确保系统凭据存储中存在「Code Safe Storage」条目后再试。",
        )
    } else {
        err
    }
}

/// The message of a completed switch; VS Code is never restarted, so the
/// user is asked to reload its window (at more length where a restart was
/// asked for).
pub open spec fn switch_message_spec(name: Seq<char>, restart: bool) -> Seq<char> {
    if restart {
        "已写入 VS Code CodeBuddy 扩展凭证（"@ + name
            + "）；为避免丢失未保存内容，未自动重启 VS Code，请手动执行「开发人员: 重新加载窗口」或在扩展中重新登录以生效。"@
    } else {
        "已写入 VS Code CodeBuddy 扩展凭证（"@ + name + "）；请手动重载 VS Code 窗口生效。"@
    }
}

pub fn switch_message(name: &str, restart: bool) -> (r: String)
    ensures
        r@ == switch_message_spec(name@, restart),
{
    let m = concat("已写入 VS Code CodeBuddy 扩展凭证（", name);
    if restart {
        concat(
            m.as_str(),
            "）；为避免丢失未保存内容，未自动重启 VS Code，请手动执行「开发人员: 重新加载窗口」或在扩展中重新登录以生效。",
        )
    } else {
        concat(m.as_str(), "）；请手动重载 VS Code 窗口生效。")
    }
}

/// The result of a completed switch.
pub open spec fn switch_result_spec(name: Seq<char>, account_id: Seq<char>, db_path: Seq<char>, restart: bool) -> JsonV {
    JsonV::Obj(
        seq!["ok"@, "account"@, "accountId"@, "dbPath"@, "restarted"@, "message"@],
        seq![
            JsonV::Bool(true),
            JsonV::Str(name),
            JsonV::Str(account_id),
            JsonV::Str(db_path),
            JsonV::Bool(false),
            JsonV::Str(switch_message_spec(name, restart)),
        ],
    )
}

/// The result of a completed switch: the account's display name and id, the
/// database written (as displayed), and the message (see
/// `switch_message_spec`); `restarted` is always false.
pub fn switch_result(name: &str, account_id: &str, db_path: &str, restart: bool) -> (r: Json)
    ensures
        r@ == switch_result_spec(name@, account_id@, db_path@, restart),
{
    let message = switch_message(name, restart);
    let mut v: Vec<(String, Json)> = Vec::new();
    v.push((own("ok"), Json::Bool(true)));
    v.push((own("account"), Json::string(name)));
    v.push((own("accountId"), Json::string(account_id)));
    v.push((own("dbPath"), Json::string(db_path)));
    v.push((own("restarted"), Json::Bool(false)));
    v.push((own("message"), Json::Str(message)));
    proof {
        lemma_obj_view(v);
        assert(keys_view(v@) =~= seq!["ok"@, "account"@, "accountId"@, "dbPath"@, "restarted"@, "message"@]);
        assert(vals_view(v@) =~= seq![
            JsonV::Bool(true),
            JsonV::Str(name@),
            JsonV::Str(account_id@),
            JsonV::Str(db_path@),
            JsonV::Bool(false),
            JsonV::Str(switch_message_spec(name@, restart)),
        ]);
    }
    Json::Obj(v)
}

/// A switch asked to restart VS Code does the same as one that is not: its
/// result differs only in the message, and it never reports a restart.
pub proof fn law_switch_restart_only_changes_message(name: Seq<char>, account_id: Seq<char>, db_path: Seq<char>, k: Seq<char>)
    requires
        k != "message"@,
    ensures
        switch_result_spec(name, account_id, db_path, true).get(k) == switch_result_spec(name, account_id, db_path, false).get(k),
        switch_result_spec(name, account_id, db_path, true).get("restarted"@) == Some(JsonV::Bool(false)),
        switch_result_spec(name, account_id, db_path, false).get("restarted"@) == Some(JsonV::Bool(false)),
{
    let keys = seq!["ok"@, "account"@, "accountId"@, "dbPath"@, "restarted"@, "message"@];
    crate::json::lemma_key_pos(keys, k);
    reveal_strlit("ok");
    reveal_strlit("account");
    reveal_strlit("accountId");
    reveal_strlit("dbPath");
    reveal_strlit("restarted");
    assert(keys[0].len() == 2 && keys[1].len() == 7 && keys[3].len() == 6 && keys[4].len() == 9);
    assert(keys[2][0] != keys[4][0]);
    crate::json::lemma_key_pos_unique(keys, "restarted"@, 4);
}

/// The detection result where the extension holds no login secret.
pub open spec fn detect_not_found_spec() -> JsonV {
    JsonV::Obj(
        seq!["ok"@, "found"@, "message"@],
        seq![JsonV::Bool(true), JsonV::Bool(false), JsonV::Str("本机 VS Code 未找到 CodeBuddy 扩展登录 secret"@)],
    )
}

pub fn detect_not_found() -> (r: Json)
    ensures
        r@ == detect_not_found_spec(),
{
    let mut v: Vec<(String, Json)> = Vec::new();
    v.push((own("ok"), Json::Bool(true)));
    v.push((own("found"), Json::Bool(false)));
    v.push((own("message"), Json::string("本机 VS Code 未找到 CodeBuddy 扩展登录 secret")));
    proof {
        lemma_obj_view(v);
        assert(keys_view(v@) =~= seq!["ok"@, "found"@, "message"@]);
        assert(vals_view(v@) =~= seq![
            JsonV::Bool(true),
            JsonV::Bool(false),
            JsonV::Str("本机 VS Code 未找到 CodeBuddy 扩展登录 secret"@),
        ]);
    }
    Json::Obj(v)
}

/// The error of a login secret that cannot be parsed.
pub open spec fn detect_parse_error() -> Seq<char> {
    "本地 VS Code CodeBuddy 扩展登录信息解析失败"@
}

pub fn detect_parse_failure() -> (r: String)
    ensures
        r@ == detect_parse_error(),
{
    own("本地 VS Code CodeBuddy 扩展登录信息解析失败")
}

/// The detection result where the secret's account is in the store: its id
/// (empty where it has none), its summary, and the secret's uid.
pub open spec fn detect_matched_spec(id: Seq<char>, meta: JsonV, uid: Option<Seq<char>>) -> JsonV {
    JsonV::Obj(
        seq!["ok"@, "found"@, "matched"@, "accountId"@, "account"@, "uid"@],
        seq![
            JsonV::Bool(true),
            JsonV::Bool(true),
            JsonV::Bool(true),
            JsonV::Str(id),
            meta,
            opt_text_json(uid),
        ],
    )
}

/// The id of a matched account as the detection reports it: its `id`
/// string, or empty.
pub fn matched_account_id(account: &Json) -> (r: String)
    ensures
        r@ == str_or(account@.get_str("id"@), Seq::empty()),
{
    match account.get_str("id") {
        Some(s) => s.clone(),
        None => String::new(),
    }
}

pub fn detect_matched(id: &str, meta: Json, uid: Option<String>) -> (r: Json)
    ensures
        r@ == detect_matched_spec(id@, meta@, opt_text(uid)),
{
    let ghost m = meta@;
    let mut v: Vec<(String, Json)> = Vec::new();
    v.push((own("ok"), Json::Bool(true)));
    v.push((own("found"), Json::Bool(true)));
    v.push((own("matched"), Json::Bool(true)));
    v.push((own("accountId"), Json::string(id)));
    v.push((own("account"), meta));
    v.push((own("uid"), opt_string_json(uid)));
    proof {
        lemma_obj_view(v);
        assert(keys_view(v@) =~= seq!["ok"@, "found"@, "matched"@, "accountId"@, "account"@, "uid"@]);
        assert(vals_view(v@) =~= seq![
            JsonV::Bool(true),
            JsonV::Bool(true),
            JsonV::Bool(true),
            JsonV::Str(id@),
            m,
            opt_text_json(opt_text(uid)),
        ]);
    }
    Json::Obj(v)
}

/// The detection result where the secret's account is not in the store.
pub open spec fn detect_unmatched_spec(uid: Option<Seq<char>>) -> JsonV {
    JsonV::Obj(
        seq!["ok"@, "found"@, "matched"@, "uid"@, "message"@],
        seq![
            JsonV::Bool(true),
            JsonV::Bool(true),
            JsonV::Bool(false),
            opt_text_json(uid),
            JsonV::Str(
                "本机 VS Code 已登录 CodeBuddy 扩展，但账号库中无匹配账号；可先用「从本机导入」或扫码登录同步账号后再切换。"@,
            ),
        ],
    )
}

pub fn detect_unmatched(uid: Option<String>) -> (r: Json)
    ensures
        r@ == detect_unmatched_spec(opt_text(uid)),
{
    let mut v: Vec<(String, Json)> = Vec::new();
    v.push((own("ok"), Json::Bool(true)));
    v.push((own("found"), Json::Bool(true)));
    v.push((own("matched"), Json::Bool(false)));
    v.push((own("uid"), opt_string_json(uid)));
    v.push(
        (
            own("message"),
            Json::string(
                "本机 VS Code 已登录 CodeBuddy 扩展，但账号库中无匹配账号；可先用「从本机导入」或扫码登录同步账号后再切换。",
            ),
        ),
    );
    proof {
        lemma_obj_view(v);
        assert(keys_view(v@) =~= seq!["ok"@, "found"@, "matched"@, "uid"@, "message"@]);
        assert(vals_view(v@) =~= seq![
            JsonV::Bool(true),
            JsonV::Bool(true),
            JsonV::Bool(false),
            opt_text_json(opt_text(uid)),
            JsonV::Str(
                "本机 VS Code 已登录 CodeBuddy 扩展，但账号库中无匹配账号；可先用「从本机导入」或扫码登录同步账号后再切换。"@,
            ),
        ]);
    }
    Json::Obj(v)
}

/// The id of a matched account: its `id` string, or empty.
pub open spec fn matched_id_spec(account: JsonV) -> Seq<char> {
    str_or(account.get_str("id"@), Seq::empty())
}

/// The detection of the extension's account: the result, and the account
/// id to record in the state file, if any. `read` tells whether the login
/// secret exists (or why it could not be read); `parsed_uid` is, where the
/// secret could be parsed, the uid it holds; `matched` is the stored account
/// the secret belongs to, with its summary.
pub open spec fn detect_spec(
    read: Result<bool, Seq<char>>,
    parsed_uid: Option<Option<Seq<char>>>,
    matched: Option<(JsonV, JsonV)>,
) -> (Result<JsonV, Seq<char>>, Option<Seq<char>>) {
    match read {
        Err(e) => (Err(describe_secret_error_spec(e)), None),
        Ok(false) => (Ok(detect_not_found_spec()), None),
        Ok(true) => match parsed_uid {
            None => (Err(detect_parse_error()), None),
            Some(uid) => match matched {
                Some((acc, meta)) => (
                    Ok(detect_matched_spec(matched_id_spec(acc), meta, uid)),
                    Some(matched_id_spec(acc)),
                ),
                None => (Ok(detect_unmatched_spec(uid)), None),
            },
        },
    }
}

pub open spec fn opt_opt_text(o: Option<Option<String>>) -> Option<Option<Seq<char>>> {
    match o {
        Some(u) => Some(opt_text(u)),
        None => None,
    }
}

pub open spec fn opt_pair_view(o: Option<(Json, Json)>) -> Option<(JsonV, JsonV)> {
    match o {
        Some((a, m)) => Some((a@, m@)),
        None => None,
    }
}

pub open spec fn read_flag_view(r: Result<bool, String>) -> Result<bool, Seq<char>> {
    match r {
        Ok(b) => Ok(b),
        Err(e) => Err(e@),
    }
}

pub open spec fn res_doc_view(r: Result<Json, String>) -> Result<JsonV, Seq<char>> {
    match r {
        Ok(j) => Ok(j@),
        Err(e) => Err(e@),
    }
}

/// The detection of the extension's account (see `detect_spec`).
pub fn detect_report(
    read: Result<bool, String>,
    parsed_uid: Option<Option<String>>,
    matched: Option<(Json, Json)>,
) -> (r: (Result<Json, String>, Option<String>))
    ensures
        res_doc_view(r.0) == detect_spec(read_flag_view(read), opt_opt_text(parsed_uid), opt_pair_view(matched)).0,
        opt_text(r.1) == detect_spec(read_flag_view(read), opt_opt_text(parsed_uid), opt_pair_view(matched)).1,
{
    match read {
        Err(e) => (Err(describe_secret_error(e)), None),
        Ok(false) => (Ok(detect_not_found()), None),
        Ok(true) => match parsed_uid {
            None => (Err(detect_parse_failure()), None),
            Some(uid) => match matched {
                Some((acc, meta)) => {
                    let id = matched_account_id(&acc);
                    let result = detect_matched(id.as_str(), meta, uid);
                    (Ok(result), Some(id))
                },
                None => (Ok(detect_unmatched(uid)), None),
            },
        },
    }
}

/// The account logged in to the extension: the uid of its login secret,
/// trimmed, where that is not empty; otherwise `stored_uid`, the `uid` of
/// the account that the state file names (where the store holds one).
pub open spec fn active_ext_uid_spec(secret_uid: Option<Seq<char>>, stored_uid: Option<Seq<char>>) -> Option<Seq<char>> {
    match secret_uid {
        Some(u) if trim(u).len() > 0 => Some(trim(u)),
        _ => stored_uid,
    }
}

/// The account logged in to the extension (see `active_ext_uid_spec`):
/// `secret_uid` is the uid parsed from its login secret, where the secret
/// could be read and holds one.
pub fn active_ext_uid(secret_uid: Option<&str>, stored_uid: Option<String>) -> (r: Option<String>)
    ensures
        opt_text(r) == active_ext_uid_spec(opt_text_ref(secret_uid), opt_text(stored_uid)),
{
    match secret_uid {
        Some(u) => {
            let t = trimmed(u);
            if !t.as_str().is_empty() {
                return Some(t);
            }
        },
        None => {},
    }
    stored_uid
}

} // verus!
