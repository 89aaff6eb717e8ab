//! Refreshing the displayed profile of stored accounts from the official
//! console's account list (`GET <site>/console/accounts`, whose reply holds
//! `data.accounts[]`): the matching console entry, the merge of its display
//! fields into the stored account, and the summary of a batch refresh.

use vstd::prelude::*;
use crate::json::{Json, JsonV, arr_view, keys_view, lemma_arr_view, lemma_get_valid, lemma_obj_view, lemma_set_get, lemma_set_valid, lemma_view_valid, opt_doc, valid, vals_view};
use crate::text::own;

verus! {

/// The edition of the product an account belongs to.
pub enum WbVariant {
    /// The mainland edition (`workbuddy.cn`).
    Cn,
    /// The international edition (`workbuddy.ai`).
    Ai,
}

/// The console's account list for each edition.
pub open spec fn console_accounts_url_spec(variant: WbVariant) -> Seq<char> {
    match variant {
        WbVariant::Cn => "https://www.workbuddy.cn/console/accounts"@,
        WbVariant::Ai => "https://www.workbuddy.ai/console/accounts"@,
    }
}

/// The console's account list for an account of `variant`.
pub fn console_accounts_url(variant: WbVariant) -> (r: &'static str)
    ensures
        r@ == console_accounts_url_spec(variant),
{
    match variant {
        WbVariant::Cn => "https://www.workbuddy.cn/console/accounts",
        WbVariant::Ai => "https://www.workbuddy.ai/console/accounts",
    }
}

/// The account list of a console reply: `data.accounts`, where it is an
/// array.
pub open spec fn console_accounts(console: JsonV) -> Option<Seq<JsonV>> {
    match console.get("data"@) {
        Some(d) => match d.get("accounts"@) {
            Some(JsonV::Arr(a)) => Some(a),
            _ => None,
        },
        None => None,
    }
}

/// The first entry whose `uid` is the string `uid`.
pub open spec fn first_with_uid(s: Seq<JsonV>, uid: Seq<char>) -> Option<JsonV>
    decreases s.len(),
{
    if s.len() == 0 {
        None
    } else {
        match first_with_uid(s.drop_last(), uid) {
            Some(e) => Some(e),
            None => if s.last().get_str("uid"@) == Some(uid) {
                Some(s.last())
            } else {
                None
            },
        }
    }
}

/// The first entry marked `lastLogin: true`.
pub open spec fn first_last_login(s: Seq<JsonV>) -> Option<JsonV>
    decreases s.len(),
{
    if s.len() == 0 {
        None
    } else {
        match first_last_login(s.drop_last()) {
            Some(e) => Some(e),
            None => if s.last().get("lastLogin"@) == Some(JsonV::Bool(true)) {
                Some(s.last())
            } else {
                None
            },
        }
    }
}

/// The console entry of a stored account: none where the reply has no
/// non-empty account list; the first entry with the account's `uid` where
/// the account has one and some entry carries it; else the first entry
/// marked as the console's current login.
pub open spec fn match_console_spec(console: JsonV, account: JsonV) -> Option<JsonV> {
    match console_accounts(console) {
        None => None,
        Some(a) => if a.len() == 0 {
            None
        } else {
            match account.get_str("uid"@) {
                Some(uid) if first_with_uid(a, uid) is Some => first_with_uid(a, uid),
                _ => first_last_login(a),
            }
        },
    }
}

/// The first entry of `entries` whose `uid` is `uid`.
fn find_by_uid(entries: &Vec<Json>, uid: &str) -> (r: Option<Json>)
    ensures
        opt_doc(r) == first_with_uid(arr_view(entries@), uid@),
{
    proof {
        lemma_arr_view(*entries);
    }
    let ghost s = arr_view(entries@);
    let mut i: usize = 0;
    assert(s.take(0) =~= Seq::<JsonV>::empty());
    while i < entries.len()
        invariant
            i <= entries.len(),
            s == arr_view(entries@),
            s.len() == entries.len(),
            forall|j: int| 0 <= j < entries.len() ==> s[j] == (#[trigger] entries@[j])@,
            first_with_uid(s.take(i as int), uid@) is None,
        decreases entries.len() - i,
    {
        assert(s.take(i + 1).drop_last() =~= s.take(i as int));
        assert(s.take(i + 1).last() == entries@[i as int]@);
        match entries[i].get_str("uid") {
            Some(u) => {
                if crate::text::str_equal(u.as_str(), uid) {
                    proof {
                        lemma_first_prefix_uid(s, i + 1, uid@);
                    }
                    return Some(entries[i].deep_clone());
                }
            },
            None => {},
        }
        i += 1;
    }
    assert(s.take(entries.len() as int) =~= s);
    None
}

proof fn lemma_first_prefix_uid(s: Seq<JsonV>, j: int, uid: Seq<char>)
    requires
        0 <= j <= s.len(),
        first_with_uid(s.take(j), uid) is Some,
    ensures
        first_with_uid(s, uid) == first_with_uid(s.take(j), uid),
    decreases s.len() - j,
{
    if j < s.len() {
        assert(s.take(j + 1).drop_last() =~= s.take(j));
        lemma_first_prefix_uid(s, j + 1, uid);
    } else {
        assert(s.take(j) =~= s);
    }
}

proof fn lemma_first_prefix_login(s: Seq<JsonV>, j: int)
    requires
        0 <= j <= s.len(),
        first_last_login(s.take(j)) is Some,
    ensures
        first_last_login(s) == first_last_login(s.take(j)),
    decreases s.len() - j,
{
    if j < s.len() {
        assert(s.take(j + 1).drop_last() =~= s.take(j));
        lemma_first_prefix_login(s, j + 1);
    } else {
        assert(s.take(j) =~= s);
    }
}

/// The first entry of `entries` marked `lastLogin: true`.
fn find_last_login(entries: &Vec<Json>) -> (r: Option<Json>)
    ensures
        opt_doc(r) == first_last_login(arr_view(entries@)),
{
    proof {
        lemma_arr_view(*entries);
    }
    let ghost s = arr_view(entries@);
    let mut i: usize = 0;
    assert(s.take(0) =~= Seq::<JsonV>::empty());
    while i < entries.len()
        invariant
            i <= entries.len(),
            s == arr_view(entries@),
            s.len() == entries.len(),
            forall|j: int| 0 <= j < entries.len() ==> s[j] == (#[trigger] entries@[j])@,
            first_last_login(s.take(i as int)) is None,
        decreases entries.len() - i,
    {
        assert(s.take(i + 1).drop_last() =~= s.take(i as int));
        assert(s.take(i + 1).last() == entries@[i as int]@);
        let is_current = match entries[i].get("lastLogin") {
            Some(v) => match v.as_bool() {
                Some(b) => b,
                None => false,
            },
            None => false,
        };
        if is_current {
            proof {
                lemma_first_prefix_login(s, i + 1);
            }
            return Some(entries[i].deep_clone());
        }
        i += 1;
    }
    assert(s.take(entries.len() as int) =~= s);
    None
}

/// The console entry of a stored account (see `match_console_spec`).
pub fn match_console_account(console: &Json, account: &Json) -> (r: Option<Json>)
    ensures
        opt_doc(r) == match_console_spec(console@, account@),
{
    let accounts = match console.get("data") {
        Some(d) => match d.get("accounts") {
            Some(a) => match a.as_array() {
                Some(v) => v,
                None => {
                    return None;
                },
            },
            None => {
                return None;
            },
        },
        None => {
            return None;
        },
    };
    proof {
        lemma_arr_view(*accounts);
    }
    if accounts.len() == 0 {
        return None;
    }
    match account.get_str("uid") {
        Some(uid) => {
            let found = find_by_uid(accounts, uid.as_str());
            if found.is_some() {
                return found;
            }
        },
        None => {},
    }
    find_last_login(accounts)
}

/// The display fields that a console entry refreshes in a stored account.
pub open spec fn profile_keys() -> Seq<Seq<char>> {
    seq![
        "uid"@,
        "nickname"@,
        "uin"@,
        "type"@,
        "accountType"@,
        "lastLogin"@,
        "phoneNumber"@,
        "idp"@,
        "isCreator"@,
        "isAdmin"@,
        "pluginEnabled"@,
    ]
}

/// `value[key] = v` on an object or `null` (which reads as an empty object).
pub open spec fn index_set_spec(value: JsonV, key: Seq<char>, v: JsonV) -> JsonV {
    (if value is Null {
        JsonV::Obj(Seq::empty(), Seq::empty())
    } else {
        value
    }).set(key, v)
}

/// The account after copying, for each of `keys` in order, the entry's value
/// where the entry has that key.
pub open spec fn merge_keys(account: JsonV, entry: JsonV, keys: Seq<Seq<char>>) -> JsonV
    decreases keys.len(),
{
    if keys.len() == 0 {
        account
    } else {
        let a = merge_keys(account, entry, keys.drop_last());
        match entry.get(keys.last()) {
            Some(v) => index_set_spec(a, keys.last(), v),
            None => a,
        }
    }
}

/// The stored account after merging a console entry: each display field
/// that the entry has is copied, and the whole entry is kept as
/// `profile_console_raw`.
pub open spec fn merge_profile_spec(account: JsonV, entry: JsonV) -> JsonV {
    index_set_spec(merge_keys(account, entry, profile_keys()), "profile_console_raw"@, entry)
}

proof fn lemma_merge_keys_shape(account: JsonV, entry: JsonV, keys: Seq<Seq<char>>)
    requires
        account.is_object() || account is Null,
    ensures
        merge_keys(account, entry, keys).is_object() || merge_keys(account, entry, keys) is Null,
        merge_keys(account, entry, keys) is Null ==> account is Null,
    decreases keys.len(),
{
    if keys.len() > 0 {
        lemma_merge_keys_shape(account, entry, keys.drop_last());
    }
}

/// Merges a console entry into a stored account (see `merge_profile_spec`);
/// tokens, the edition and every other field stay. The account must be an
/// object or `null`, as `value[key] = ..` needs.
pub fn merge_profile(account: &mut Json, entry: &Json)
    requires
        old(account)@.is_object() || old(account)@ is Null,
    ensures
        final(account)@ == merge_profile_spec(old(account)@, entry@),
{
    let mut keys: Vec<&str> = Vec::new();
    keys.push("uid");
    keys.push("nickname");
    keys.push("uin");
    keys.push("type");
    keys.push("accountType");
    keys.push("lastLogin");
    keys.push("phoneNumber");
    keys.push("idp");
    keys.push("isCreator");
    keys.push("isAdmin");
    keys.push("pluginEnabled");
    let ghost ks = profile_keys();
    assert(keys@.len() == ks.len());
    assert(forall|j: int| 0 <= j < ks.len() ==> (#[trigger] keys@[j])@ == ks[j]);
    let ghost start = account@;
    let mut i: usize = 0;
    assert(ks.take(0) =~= Seq::<Seq<char>>::empty());
    while i < keys.len()
        invariant
            i <= keys.len() == ks.len(),
            ks == profile_keys(),
            forall|j: int| 0 <= j < ks.len() ==> (#[trigger] keys@[j])@ == ks[j],
            start.is_object() || start is Null,
            account@ == merge_keys(start, entry@, ks.take(i as int)),
        decreases keys.len() - i,
    {
        assert(ks.take(i + 1).drop_last() =~= ks.take(i as int));
        assert(ks.take(i + 1).last() == keys@[i as int]@);
        proof {
            lemma_merge_keys_shape(start, entry@, ks.take(i as int));
        }
        let key = keys[i];
        match entry.get(key) {
            Some(v) => {
                let c = v.deep_clone();
                account.index_set(key, c);
            },
            None => {},
        }
        i += 1;
    }
    assert(ks.take(ks.len() as int) =~= ks);
    proof {
        lemma_merge_keys_shape(start, entry@, ks);
    }
    account.index_set("profile_console_raw", entry.deep_clone());
}

/// A value, or `null` for none.
pub open spec fn or_null(o: Option<JsonV>) -> JsonV {
    match o {
        Some(v) => v,
        None => JsonV::Null,
    }
}

/// The identity fields of an account, by which a refresh tells whether the
/// profile changed.
pub open spec fn identity_snapshot_spec(account: JsonV) -> JsonV {
    JsonV::Obj(
        seq!["uid"@, "nickname"@, "uin"@, "type"@],
        seq![
            or_null(account.get("uid"@)),
            or_null(account.get("nickname"@)),
            or_null(account.get("uin"@)),
            or_null(account.get("type"@)),
        ],
    )
}

fn field_or_null(account: &Json, key: &str) -> (r: Json)
    ensures
        r@ == or_null(account@.get(key@)),
{
    match account.get(key) {
        Some(v) => v.deep_clone(),
        None => Json::Null,
    }
}

/// The identity fields of an account (see `identity_snapshot_spec`).
pub fn identity_snapshot(account: &Json) -> (r: Json)
    ensures
        r@ == identity_snapshot_spec(account@),
{
    let mut v: Vec<(String, Json)> = Vec::new();
    v.push((own("uid"), field_or_null(account, "uid")));
    v.push((own("nickname"), field_or_null(account, "nickname")));
    v.push((own("uin"), field_or_null(account, "uin")));
    v.push((own("type"), field_or_null(account, "type")));
    proof {
        lemma_obj_view(v);
        assert(keys_view(v@) =~= seq!["uid"@, "nickname"@, "uin"@, "type"@]);
        assert(vals_view(v@) =~= seq![
            or_null(account@.get("uid"@)),
            or_null(account@.get("nickname"@)),
            or_null(account@.get("uin"@)),
            or_null(account@.get("type"@)),
        ]);
    }
    Json::Obj(v)
}

/// The account a refresh reads the console with: the one with a fresh token,
/// unless refreshing the token found that the account must log in again
/// (`needs_relogin: true`), in which case the stored one.
pub open spec fn working_account_spec(stored: JsonV, refreshed: JsonV) -> JsonV {
    if refreshed.get("needs_relogin"@) == Some(JsonV::Bool(true)) {
        stored
    } else {
        refreshed
    }
}

/// The account a refresh reads the console with (see `working_account_spec`).
pub fn working_account(stored: Json, refreshed: Json) -> (r: Json)
    ensures
        r@ == working_account_spec(stored@, refreshed@),
{
    let relogin = match refreshed.get("needs_relogin") {
        Some(v) => match v.as_bool() {
            Some(b) => b,
            None => false,
        },
        None => false,
    };
    if relogin {
        stored
    } else {
        refreshed
    }
}

/// The reply's `code`, or -1 where it has no integer one.
pub open spec fn reply_code(reply: JsonV) -> int {
    match reply.get("code"@) {
        Some(JsonV::Int(c)) => c,
        _ => -1,
    }
}

/// The refreshed account from a console reply: where the reply succeeded
/// (`code` 0) and holds the account's entry, the account with that entry
/// merged in; otherwise none, and the account stays as it was.
pub open spec fn apply_console_spec(account: JsonV, reply: JsonV) -> Option<JsonV> {
    if reply_code(reply) != 0 {
        None
    } else {
        match match_console_spec(reply, account) {
            Some(entry) => Some(merge_profile_spec(account, entry)),
            None => None,
        }
    }
}

/// The refreshed account from a console reply (see `apply_console_spec`);
/// the caller stores it where there is one. Where the reply is merged in,
/// the account must be an object or `null`, as the merge needs.
pub fn apply_console_reply(account: &Json, reply: &Json) -> (r: Option<Json>)
    requires
        apply_console_spec(account@, reply@) is Some ==> (account@.is_object() || account@ is Null),
    ensures
        opt_doc(r) == apply_console_spec(account@, reply@),
{
    let code: i64 = match reply.get("code") {
        Some(c) => match c {
            Json::Int(n) => *n,
            _ => -1,
        },
        None => -1,
    };
    if code != 0 {
        return None;
    }
    match match_console_account(reply, account) {
        Some(entry) => {
            let mut updated = account.deep_clone();
            merge_profile(&mut updated, &entry);
            Some(updated)
        },
        None => None,
    }
}

/// An account of a batch refresh after its refresh: the stored account
/// before, the account after, and its display name after.
pub struct Refreshed {
    pub before: Json,
    pub after: Json,
    pub name: String,
}

/// One account of a batch refresh: its id, and what the refresh gave where
/// the store held the account.
pub struct RefreshOutcome {
    pub account_id: String,
    pub refreshed: Option<Refreshed>,
}

/// Whether a refresh changed an account's identity fields.
pub open spec fn changed_spec(r: Refreshed) -> bool {
    identity_snapshot_spec(r.before@) != identity_snapshot_spec(r.after@)
}

/// The result entry of one account of a batch refresh.
pub open spec fn refresh_entry_spec(o: RefreshOutcome) -> JsonV {
    match o.refreshed {
        None => JsonV::Obj(
            seq!["accountId"@, "status"@],
            seq![JsonV::Str(o.account_id@), JsonV::Str("missing"@)],
        ),
        Some(r) => JsonV::Obj(
            seq!["accountId"@, "status"@, "changed"@, "accountName"@],
            seq![
                JsonV::Str(o.account_id@),
                JsonV::Str("ok"@),
                JsonV::Bool(changed_spec(r)),
                JsonV::Str(r.name@),
            ],
        ),
    }
}

/// The result entries of a batch refresh, in order.
pub open spec fn refresh_entries(os: Seq<RefreshOutcome>) -> Seq<JsonV>
    decreases os.len(),
{
    if os.len() == 0 {
        Seq::empty()
    } else {
        refresh_entries(os.drop_last()).push(refresh_entry_spec(os.last()))
    }
}

/// The number of accounts whose identity fields a batch refresh changed.
pub open spec fn updated_count(os: Seq<RefreshOutcome>) -> nat
    decreases os.len(),
{
    if os.len() == 0 {
        0
    } else {
        updated_count(os.drop_last()) + if os.last().refreshed matches Some(r) && changed_spec(r) {
            1nat
        } else {
            0nat
        }
    }
}

/// The summary of a batch refresh: one result per account, and how many
/// changed.
pub open spec fn refresh_summary_spec(os: Seq<RefreshOutcome>) -> JsonV {
    JsonV::Obj(
        seq!["results"@, "updated"@],
        seq![JsonV::Arr(refresh_entries(os)), JsonV::Int(updated_count(os) as int)],
    )
}

proof fn lemma_updated_count_bound(os: Seq<RefreshOutcome>)
    ensures
        updated_count(os) <= os.len(),
    decreases os.len(),
{
    if os.len() > 0 {
        lemma_updated_count_bound(os.drop_last());
    }
}

fn refresh_entry(o: &RefreshOutcome) -> (r: (Json, bool))
    ensures
        r.0@ == refresh_entry_spec(*o),
        r.1 == (o.refreshed matches Some(x) && changed_spec(x)),
{
    match &o.refreshed {
        None => {
            let mut v: Vec<(String, Json)> = Vec::new();
            v.push((own("accountId"), Json::Str(o.account_id.clone())));
            v.push((own("status"), Json::string("missing")));
            proof {
                lemma_obj_view(v);
                assert(keys_view(v@) =~= seq!["accountId"@, "status"@]);
                assert(vals_view(v@) =~= seq![JsonV::Str(o.account_id@), JsonV::Str("missing"@)]);
            }
            (Json::Obj(v), false)
        },
        Some(r) => {
            let before = identity_snapshot(&r.before);
            let after = identity_snapshot(&r.after);
            let changed = !crate::json::json_eq(&before, &after);
            let mut v: Vec<(String, Json)> = Vec::new();
            v.push((own("accountId"), Json::Str(o.account_id.clone())));
            v.push((own("status"), Json::string("ok")));
            v.push((own("changed"), Json::Bool(changed)));
            v.push((own("accountName"), Json::Str(r.name.clone())));
            proof {
                lemma_obj_view(v);
                assert(keys_view(v@) =~= seq!["accountId"@, "status"@, "changed"@, "accountName"@]);
                assert(vals_view(v@) =~= seq![
                    JsonV::Str(o.account_id@),
                    JsonV::Str("ok"@),
                    JsonV::Bool(changed),
                    JsonV::Str(r.name@),
                ]);
            }
            (Json::Obj(v), changed)
        },
    }
}

/// The summary of a batch refresh (see `refresh_summary_spec`). Accounts
/// missing from the store are reported as such; the others as refreshed,
/// with whether their identity fields changed.
pub fn refresh_summary(outcomes: &Vec<RefreshOutcome>) -> (r: Json)
    requires
        outcomes.len() <= i64::MAX,
    ensures
        r@ == refresh_summary_spec(outcomes@),
{
    let ghost os = outcomes@;
    let mut results: Vec<Json> = Vec::new();
    let mut updated: u64 = 0;
    let mut i: usize = 0;
    assert(os.take(0) =~= Seq::<RefreshOutcome>::empty());
    proof {
        lemma_arr_view(results);
    }
    assert(arr_view(results@) =~= refresh_entries(os.take(0)));
    while i < outcomes.len()
        invariant
            i <= outcomes.len() <= i64::MAX,
            os == outcomes@,
            arr_view(results@) == refresh_entries(os.take(i as int)),
            updated == updated_count(os.take(i as int)),
        decreases outcomes.len() - i,
    {
        assert(os.take(i + 1).drop_last() =~= os.take(i as int));
        assert(os.take(i + 1).last() == os[i as int]);
        proof {
            lemma_updated_count_bound(os.take(i as int));
        }
        let (entry, changed) = refresh_entry(&outcomes[i]);
        let ghost before = results@;
        results.push(entry);
        proof {
            lemma_arr_view(results);
            lemma_arr_view_push(before, results@);
        }
        if changed {
            updated += 1;
        }
        i += 1;
    }
    assert(os.take(outcomes.len() as int) =~= os);
    proof {
        lemma_updated_count_bound(os);
    }
    proof {
        lemma_arr_view(results);
    }
    let ghost rv = arr_view(results@);
    let mut v: Vec<(String, Json)> = Vec::new();
    v.push((own("results"), Json::Arr(results)));
    v.push((own("updated"), Json::Int(updated as i64)));
    proof {
        lemma_obj_view(v);
        assert(keys_view(v@) =~= seq!["results"@, "updated"@]);
        assert(vals_view(v@) =~= seq![JsonV::Arr(rv), JsonV::Int(updated_count(os) as int)]);
    }
    Json::Obj(v)
}

proof fn lemma_arr_view_push(before: Seq<Json>, after: Seq<Json>)
    requires
        after.len() == before.len() + 1,
        forall|j: int| 0 <= j < before.len() ==> after[j] == before[j],
    ensures
        arr_view(after) == arr_view(before).push(after.last()@),
{
    assert(arr_view(after) =~= arr_view(before).push(after.last()@));
}

proof fn lemma_merge_keys_get(a: JsonV, e: JsonV, keys: Seq<Seq<char>>, k: Seq<char>)
    requires
        valid(a),
        valid(e),
        a.is_object() || a is Null,
    ensures
        valid(merge_keys(a, e, keys)),
        merge_keys(a, e, keys).get(k) == if keys.contains(k) && e.get(k) is Some {
            e.get(k)
        } else {
            a.get(k)
        },
    decreases keys.len(),
{
    if keys.len() > 0 {
        let d = keys.drop_last();
        let last = keys.last();
        lemma_merge_keys_get(a, e, d, k);
        lemma_merge_keys_shape(a, e, d);
        let m = merge_keys(a, e, d);
        assert(keys =~= d.push(last));
        assert(keys.contains(k) == (d.contains(k) || k == last)) by {
            if k == last {
                assert(keys[keys.len() - 1] == k);
            }
            if d.contains(k) {
                let j = choose|j: int| 0 <= j < d.len() && d[j] == k;
                assert(keys[j] == k);
            }
            if keys.contains(k) && k != last {
                let j = choose|j: int| 0 <= j < keys.len() && keys[j] == k;
                assert(d[j] == k);
            }
        }
        lemma_get_valid(e, last);
        match e.get(last) {
            Some(v) => {
                let base = if m is Null {
                    JsonV::Obj(Seq::empty(), Seq::empty())
                } else {
                    m
                };
                lemma_get_valid(base, k);
                lemma_set_get(base, last, v, k);
                lemma_set_valid(base, last, v);
            },
            None => {},
        }
    }
}

proof fn lemma_profile_keys_not_raw()
    ensures
        !profile_keys().contains("profile_console_raw"@),
{
    reveal_strlit("uid");
    reveal_strlit("nickname");
    reveal_strlit("uin");
    reveal_strlit("type");
    reveal_strlit("accountType");
    reveal_strlit("lastLogin");
    reveal_strlit("phoneNumber");
    reveal_strlit("idp");
    reveal_strlit("isCreator");
    reveal_strlit("isAdmin");
    reveal_strlit("pluginEnabled");
    reveal_strlit("profile_console_raw");
    let ks = profile_keys();
    assert("profile_console_raw"@.len() == 19);
    assert forall|i: int| 0 <= i < ks.len() implies (#[trigger] ks[i]).len() != 19 by {
        assert(ks[0].len() == 3);
        assert(ks[1].len() == 8);
        assert(ks[2].len() == 3);
        assert(ks[3].len() == 4);
        assert(ks[4].len() == 11);
        assert(ks[5].len() == 9);
        assert(ks[6].len() == 11);
        assert(ks[7].len() == 3);
        assert(ks[8].len() == 9);
        assert(ks[9].len() == 7);
        assert(ks[10].len() == 13);
    }
}

/// Merging a console entry takes each display field that the entry has,
/// keeps the entry as `profile_console_raw`, and leaves every other field of
/// the account (tokens, edition and the rest) as it was.
pub proof fn law_merge_profile_fields(account: Json, entry: Json, k: Seq<char>)
    requires
        account@.is_object() || account@ is Null,
    ensures
        merge_profile_spec(account@, entry@).get("profile_console_raw"@) == Some(entry@),
        profile_keys().contains(k) && entry@.get(k) is Some ==> merge_profile_spec(account@, entry@).get(k)
            == entry@.get(k),
        !profile_keys().contains(k) && k != "profile_console_raw"@ ==> merge_profile_spec(account@, entry@).get(k)
            == account@.get(k),
{
    lemma_view_valid(account);
    lemma_view_valid(entry);
    lemma_merge_keys_get(account@, entry@, profile_keys(), k);
    lemma_merge_keys_shape(account@, entry@, profile_keys());
    lemma_profile_keys_not_raw();
    let m = merge_keys(account@, entry@, profile_keys());
    let base = if m is Null {
        JsonV::Obj(Seq::empty(), Seq::empty())
    } else {
        m
    };
    lemma_get_valid(base, k);
    lemma_set_get(base, "profile_console_raw"@, entry@, k);
    lemma_set_get(base, "profile_console_raw"@, entry@, "profile_console_raw"@);
}

/// Whether the identity fields (`uid`, `nickname`, `uin`, `type`; a missing
/// field reads as `null`) of two accounts differ.
pub open spec fn identity_differs(before: JsonV, after: JsonV) -> bool {
    let f = |a: JsonV, k: Seq<char>|
        match a.get(k) {
            Some(v) => v,
            None => JsonV::Null,
        };
    ||| f(before, "uid"@) != f(after, "uid"@)
    ||| f(before, "nickname"@) != f(after, "nickname"@)
    ||| f(before, "uin"@) != f(after, "uin"@)
    ||| f(before, "type"@) != f(after, "type"@)
}

proof fn lemma_changed_is_identity_differs(r: Refreshed)
    ensures
        changed_spec(r) == identity_differs(r.before@, r.after@),
{
    let a = identity_snapshot_spec(r.before@);
    let b = identity_snapshot_spec(r.after@);
    let va = a->Obj_1;
    let vb = b->Obj_1;
    if !identity_differs(r.before@, r.after@) {
        assert(va =~= vb);
    } else {
        assert(va != vb) by {
            if va == vb {
                assert(va[0] == vb[0] && va[1] == vb[1] && va[2] == vb[2] && va[3] == vb[3]);
            }
        }
    }
}

proof fn lemma_refresh_entries_index(os: Seq<RefreshOutcome>, i: int)
    requires
        0 <= i < os.len(),
    ensures
        refresh_entries(os).len() == os.len(),
        refresh_entries(os)[i] == refresh_entry_spec(os[i]),
    decreases os.len(),
{
    if i < os.len() - 1 {
        lemma_refresh_entries_index(os.drop_last(), i);
    } else if os.len() > 1 {
        lemma_refresh_entries_index(os.drop_last(), 0);
    } else {
        assert(os.drop_last().len() == 0);
        assert(refresh_entries(os.drop_last()).len() == 0);
    }
}

proof fn lemma_updated_count_filter(os: Seq<RefreshOutcome>)
    ensures
        updated_count(os) == os.filter(
            |o: RefreshOutcome| o.refreshed matches Some(x) && identity_differs(x.before@, x.after@),
        ).len(),
    decreases os.len(),
{
    reveal(Seq::filter);
    if os.len() > 0 {
        lemma_updated_count_filter(os.drop_last());
        if let Some(x) = os.last().refreshed {
            lemma_changed_is_identity_differs(x);
        }
    }
}

/// A batch refresh reports each account in order under its id: one missing
/// from the store as `missing`; a refreshed one as `ok`, with its name, and
/// as changed exactly when one of its identity fields (`uid`, `nickname`,
/// `uin`, `type`) differs after the refresh; and it counts as updated
/// exactly the refreshed accounts with such a change.
pub proof fn law_refresh_reports_identity_changes(os: Seq<RefreshOutcome>, i: int)
    requires
        0 <= i < os.len(),
    ensures
        refresh_summary_spec(os).get("updated"@) == Some(
            JsonV::Int(
                os.filter(
                    |o: RefreshOutcome| o.refreshed matches Some(x) && identity_differs(x.before@, x.after@),
                ).len() as int,
            ),
        ),
        refresh_summary_spec(os).get("results"@) matches Some(JsonV::Arr(rs)) && rs.len() == os.len() && rs[i].get(
            "accountId"@,
        ) == Some(JsonV::Str(os[i].account_id@)) && match os[i].refreshed {
            Some(x) => {
                &&& rs[i].get("status"@) == Some(JsonV::Str("ok"@))
                &&& rs[i].get("changed"@) == Some(JsonV::Bool(identity_differs(x.before@, x.after@)))
                &&& rs[i].get("accountName"@) == Some(JsonV::Str(x.name@))
            },
            None => rs[i].get("status"@) == Some(JsonV::Str("missing"@)) && rs[i].get("changed"@) is None,
        },
{
    reveal_strlit("results");
    reveal_strlit("updated");
    reveal_strlit("accountId");
    reveal_strlit("status");
    reveal_strlit("changed");
    reveal_strlit("accountName");
    let top = seq!["results"@, "updated"@];
    assert(top[0][0] != top[1][0]);
    crate::json::lemma_key_pos_unique(top, "results"@, 0);
    crate::json::lemma_key_pos_unique(top, "updated"@, 1);
    lemma_updated_count_filter(os);
    lemma_refresh_entries_index(os, i);
    if let Some(x) = os[i].refreshed {
        lemma_changed_is_identity_differs(x);
        let ks = seq!["accountId"@, "status"@, "changed"@, "accountName"@];
        assert(ks[0].len() != ks[1].len());
        assert(ks[0].len() != ks[2].len());
        assert(ks[1].len() != ks[2].len());
        assert(ks[0].len() != ks[3].len());
        assert(ks[1].len() != ks[3].len());
        assert(ks[2].len() != ks[3].len());
        crate::json::lemma_key_pos_unique(ks, "accountId"@, 0);
        crate::json::lemma_key_pos_unique(ks, "status"@, 1);
        crate::json::lemma_key_pos_unique(ks, "changed"@, 2);
        crate::json::lemma_key_pos_unique(ks, "accountName"@, 3);
    } else {
        let ks = seq!["accountId"@, "status"@];
        assert(ks[0].len() != ks[1].len());
        assert("changed"@.len() != ks[0].len() && "changed"@.len() != ks[1].len());
        crate::json::lemma_key_pos_unique(ks, "accountId"@, 0);
        crate::json::lemma_key_pos_unique(ks, "status"@, 1);
        crate::json::lemma_key_pos_absent(ks, "changed"@);
    }
}

} // verus!
