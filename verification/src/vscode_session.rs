//! Copying the conversations of the VS Code CodeBuddy extension from one
//! account to another: the data layout, the checks on ids, the id
//! remapping, the index merge, and the reports.
//!
//! The extension keeps, per account uid, under
//! `<root>/<uid>/VSCode/<uid>/history/<workspace hash>/`, a workspace index
//! `index.json` (`{conversations: [...], current}`) and one directory per
//! conversation, named by its 32-hex-digit id, holding `index.json`
//! (`{messages: [...], requests: [...]}`), `messages/<message id>.json` and
//! other files. A copy gets fresh ids for the conversation, its messages and
//! its requests, and every reference to an old id is rewritten.

use vstd::prelude::*;
use crate::ids::{contains_string, is_hex32_id, is_hex32, unique_hex32};
use crate::json::{Json, JsonV, arr_view, key_pos, keys_view, lemma_arr_view, lemma_get_valid, lemma_key_pos, lemma_key_pos_absent, lemma_key_pos_unique, lemma_obj_view, lemma_set_get, lemma_view_valid, opt_doc, opt_doc_ref, valid, vals_view};
use crate::paths::{FsPath, Platform};
use crate::time::{time_to_ms, time_to_ms_spec};
use crate::text::{ascii_lower, chars_of, eq_ignore_ascii_case, lemma_text_less_total, lemma_text_less_transitive, occurs_at, occurs_at_exec, opt_text, own, str_equal, str_less, string_from_chars, text_less, text_result, texts, trim, trimmed};

verus! {

/// The directory of the extension's data under a platform data directory.
pub const EXT_APP_DIR: &'static str = "CodeBuddyExtension";

/// The IDE directory inside an account's directory.
pub const IDE_DIR: &'static str = "VSCode";

/// The directory of the conversation history.
pub const HISTORY_DIR: &'static str = "history";

/// A conversation to copy: its workspace hash and its id.
pub struct CopyItem {
    /// The workspace directory name, `md5(workspace)` in 32 hex digits.
    pub workspace_hash: String,
    /// The conversation id, 32 hex digits.
    pub conversation_id: String,
}

/// The platform data directories that may hold the extension's data, in
/// order: the local data and cache directories on Windows, the data and
/// cache directories elsewhere.
pub open spec fn data_root_bases(
    platform: Platform,
    data_local_dir: Option<Seq<char>>,
    data_dir: Option<Seq<char>>,
    cache_dir: Option<Seq<char>>,
) -> Seq<Seq<char>> {
    let first = match platform {
        Platform::Windows => data_local_dir,
        _ => data_dir,
    };
    (match first {
        Some(b) => seq![b],
        None => Seq::empty(),
    }) + (match cache_dir {
        Some(b) => seq![b],
        None => Seq::empty(),
    })
}

pub open spec fn data_root_of(base: Seq<char>) -> Seq<Seq<char>> {
    seq![base, EXT_APP_DIR@, "Data"@]
}

/// The paths of a list, each kept at its first occurrence only.
pub open spec fn dedup_paths(s: Seq<Seq<Seq<char>>>) -> Seq<Seq<Seq<char>>>
    decreases s.len(),
{
    if s.len() == 0 {
        s
    } else if dedup_paths(s.drop_last()).contains(s.last()) {
        dedup_paths(s.drop_last())
    } else {
        dedup_paths(s.drop_last()).push(s.last())
    }
}

pub open spec fn paths_view(v: Seq<FsPath>) -> Seq<Seq<Seq<char>>> {
    Seq::new(v.len(), |i: int| v[i]@)
}

/// The candidate roots of the extension's data, in order of preference and
/// without repetition: `<base>/CodeBuddyExtension/Data` for each platform
/// data directory that is known.
pub fn ext_data_root_candidates(
    platform: Platform,
    data_local_dir: Option<String>,
    data_dir: Option<String>,
    cache_dir: Option<String>,
) -> (r: Vec<FsPath>)
    ensures
        paths_view(r@) == dedup_paths(
            data_root_bases(platform, opt_text(data_local_dir), opt_text(data_dir), opt_text(cache_dir)).map_values(
                |b: Seq<char>| data_root_of(b),
            ),
        ),
{
    let ghost bases = data_root_bases(platform, opt_text(data_local_dir), opt_text(data_dir), opt_text(cache_dir));
    let first = match platform {
        Platform::Windows => data_local_dir,
        _ => data_dir,
    };
    let mut bases_v: Vec<String> = Vec::new();
    match first {
        Some(b) => bases_v.push(b),
        None => {},
    }
    match cache_dir {
        Some(b) => bases_v.push(b),
        None => {},
    }
    let ghost cands = bases.map_values(|b: Seq<char>| data_root_of(b));
    assert(Seq::new(bases_v.len() as nat, |i: int| bases_v@[i]@) =~= bases);
    let mut out: Vec<FsPath> = Vec::new();
    let mut i: usize = 0;
    assert(cands.take(0) =~= Seq::<Seq<Seq<char>>>::empty());
    while i < bases_v.len()
        invariant
            i <= bases_v.len(),
            bases.len() == bases_v.len(),
            forall|j: int| 0 <= j < bases.len() ==> bases[j] == bases_v@[j]@,
            cands == bases.map_values(|b: Seq<char>| data_root_of(b)),
            paths_view(out@) == dedup_paths(cands.take(i as int)),
        decreases bases_v.len() - i,
    {
        let candidate = FsPath::new(bases_v[i].as_str()).join(EXT_APP_DIR).join("Data");
        assert(candidate@ =~= data_root_of(bases[i as int]));
        assert(cands.take(i + 1).drop_last() =~= cands.take(i as int));
        assert(cands.take(i + 1).last() == candidate@);
        let mut present = false;
        let mut k: usize = 0;
        while k < out.len()
            invariant
                k <= out.len(),
                present == exists|j: int| 0 <= j < k && out@[j]@ == candidate@,
            decreases out.len() - k,
        {
            if out[k].same_as(&candidate) {
                present = true;
            }
            k += 1;
        }
        let ghost before = out@;
        if !present {
            out.push(candidate);
            assert(paths_view(out@) =~= paths_view(before).push(candidate@));
        } else {
            assert(paths_view(before).contains(candidate@)) by {
                let j = choose|j: int| 0 <= j < out.len() && out@[j]@ == candidate@;
                assert(paths_view(before)[j] == candidate@);
            }
        }
        proof {
            if !present {
                assert forall|j: int| 0 <= j < paths_view(before).len() implies paths_view(before)[j] != candidate@ by {
                    assert(before[j]@ != candidate@);
                }
            }
        }
        i += 1;
    }
    assert(cands.take(bases_v.len() as int) =~= cands);
    out
}

/// The root of the extension's data: the first candidate that is an
/// existing directory (`is_dir[i]` tells of `candidates[i]`).
pub fn ext_data_root(candidates: &Vec<FsPath>, is_dir: &Vec<bool>) -> (r: Option<FsPath>)
    requires
        candidates.len() == is_dir.len(),
    ensures
        match r {
            Some(p) => exists|i: int|
                0 <= i < candidates.len() && is_dir@[i] && p@ == candidates@[i]@ && forall|j: int|
                    0 <= j < i ==> !is_dir@[j],
            None => forall|j: int| 0 <= j < candidates.len() ==> !is_dir@[j],
        },
{
    let mut i: usize = 0;
    while i < candidates.len()
        invariant
            i <= candidates.len() == is_dir.len(),
            forall|j: int| 0 <= j < i ==> !is_dir@[j],
        decreases candidates.len() - i,
    {
        if is_dir[i] {
            return Some(candidates[i].copy());
        }
        i += 1;
    }
    None
}

/// The data directory of account `uid`: `<root>/<uid>/VSCode/<uid>`.
pub fn uid_data_dir(root: &FsPath, uid: &str) -> (r: FsPath)
    ensures
        r@ == root@ + seq![uid@, IDE_DIR@, uid@],
{
    let r = root.join(uid).join(IDE_DIR).join(uid);
    assert(r@ =~= root@ + seq![uid@, IDE_DIR@, uid@]);
    r
}

/// The conversation history of account `uid`: `<root>/<uid>/VSCode/<uid>/history`.
pub fn history_root(root: &FsPath, uid: &str) -> (r: FsPath)
    ensures
        r@ == root@ + seq![uid@, IDE_DIR@, uid@, HISTORY_DIR@],
{
    let r = uid_data_dir(root, uid).join(HISTORY_DIR);
    assert(r@ =~= root@ + seq![uid@, IDE_DIR@, uid@, HISTORY_DIR@]);
    r
}

/// An account uid that may name a directory: once trimmed it is not empty,
/// not `.` or `..`, holds no `/` or `\`, and is not `default` or `public` in
/// any letter case.
pub open spec fn is_safe_uid_spec(uid: Seq<char>) -> bool {
    let u = trim(uid);
    &&& u.len() > 0
    &&& u != "."@
    &&& u != ".."@
    &&& forall|i: int| 0 <= i < u.len() ==> u[i] != '/' && u[i] != '\\'
    &&& ascii_lower(u) != ascii_lower("default"@)
    &&& ascii_lower(u) != ascii_lower("public"@)
}

/// Whether `uid` may name an account directory (see `is_safe_uid_spec`);
/// this keeps path traversal and the `default` / `Public` directories out.
pub fn is_safe_uid(uid: &str) -> (r: bool)
    ensures
        r == is_safe_uid_spec(uid@),
{
    let u = trimmed(uid);
    if u.as_str().is_empty() || str_equal(u.as_str(), ".") || str_equal(u.as_str(), "..") {
        return false;
    }
    let v = chars_of(u.as_str());
    let mut i: usize = 0;
    while i < v.len()
        invariant
            i <= v.len(),
            v@ == u@,
            u@ == trim(uid@),
            forall|j: int| 0 <= j < i ==> u@[j] != '/' && u@[j] != '\\',
        decreases v.len() - i,
    {
        if v[i] == '/' || v[i] == '\\' {
            return false;
        }
        i += 1;
    }
    !eq_ignore_ascii_case(u.as_str(), "default") && !eq_ignore_ascii_case(u.as_str(), "public")
}

/// The trimmed workspace hashes of the items, in order.
pub open spec fn item_hashes(items: Seq<CopyItem>) -> Seq<Seq<char>> {
    Seq::new(items.len(), |i: int| trim(items[i].workspace_hash@))
}

/// Each text comes before the next (see `text_less`): in order, and none
/// twice.
pub open spec fn strictly_ordered(s: Seq<Seq<char>>) -> bool {
    forall|i: int, j: int| 0 <= i < j < s.len() ==> text_less(#[trigger] s[i], #[trigger] s[j])
}

/// `r` holds exactly the texts of `hs` that are 32 hex digits.
pub open spec fn hex_members(r: Seq<Seq<char>>, hs: Seq<Seq<char>>) -> bool {
    forall|h: Seq<char>|
        #![trigger r.contains(h)]
        #![trigger hs.contains(h)]
        r.contains(h) <==> (is_hex32_id(h) && hs.contains(h))
}

proof fn lemma_insert_ordered(before: Seq<Seq<char>>, k: int, h: Seq<char>)
    requires
        0 <= k <= before.len(),
        strictly_ordered(before),
        forall|j: int| 0 <= j < k ==> text_less(#[trigger] before[j], h),
        forall|m: int| k <= m < before.len() ==> text_less(h, #[trigger] before[m]),
    ensures
        strictly_ordered(before.insert(k, h)),
        forall|x: Seq<char>| before.insert(k, h).contains(x) <==> (before.contains(x) || x == h),
{
    let after = before.insert(k, h);
    assert forall|p: int, q: int| 0 <= p < q < after.len() implies text_less(#[trigger] after[p], #[trigger] after[q]) by {
        if q < k {
        } else if q == k {
        } else if p < k {
            assert(after[q] == before[q - 1]);
            lemma_text_less_transitive(after[p], h, after[q]);
        } else if p == k {
            assert(after[q] == before[q - 1]);
        } else {
            assert(after[p] == before[p - 1]);
            assert(after[q] == before[q - 1]);
        }
    }
    assert forall|x: Seq<char>| after.contains(x) <==> (before.contains(x) || x == h) by {
        if after.contains(x) {
            let j = choose|j: int| 0 <= j < after.len() && #[trigger] after[j] == x;
            if j < k {
                assert(before[j] == x);
            } else if j > k {
                assert(before[j - 1] == x);
            }
        }
        if before.contains(x) {
            let j = choose|j: int| 0 <= j < before.len() && #[trigger] before[j] == x;
            if j < k {
                assert(after[j] == x);
            } else {
                assert(after[j + 1] == x);
            }
        }
        if x == h {
            assert(after[k] == x);
        }
    }
}

proof fn lemma_members_step(before: Seq<Seq<char>>, after: Seq<Seq<char>>, t0: Seq<Seq<char>>, h: Seq<char>)
    requires
        hex_members(before, t0),
        forall|x: Seq<char>| #[trigger] after.contains(x) <==> (before.contains(x) || (x == h && is_hex32_id(h))),
    ensures
        hex_members(after, t0.push(h)),
{
    let t1 = t0.push(h);
    assert forall|x: Seq<char>| after.contains(x) <==> (is_hex32_id(x) && t1.contains(x)) by {
        if t1.contains(x) && x != h {
            let j = choose|j: int| 0 <= j < t1.len() && #[trigger] t1[j] == x;
            assert(t0[j] == x);
        }
        if t0.contains(x) {
            let j = choose|j: int| 0 <= j < t0.len() && #[trigger] t0[j] == x;
            assert(t1[j] == x);
        }
        if x == h {
            assert(t1[t0.len() as int] == x);
        }
        assert(before.contains(x) <==> (is_hex32_id(x) && t0.contains(x)));
    }
}

/// The target workspaces of a copy: the trimmed workspace hashes of the
/// items that are 32 hex digits, as a set in the order of `String`.
pub fn distinct_workspaces(items: &Vec<CopyItem>) -> (r: Vec<String>)
    ensures
        strictly_ordered(texts(r@)),
        hex_members(texts(r@), item_hashes(items@)),
{
    let ghost hs = item_hashes(items@);
    let mut out: Vec<String> = Vec::new();
    let mut i: usize = 0;
    while i < items.len()
        invariant
            i <= items.len(),
            hs == item_hashes(items@),
            strictly_ordered(texts(out@)),
            hex_members(texts(out@), hs.take(i as int)),
        decreases items.len() - i,
    {
        let h = trimmed(items[i].workspace_hash.as_str());
        let ghost hv = h@;
        let ghost before = texts(out@);
        assert(hs.take(i + 1) =~= hs.take(i as int).push(hv));
        if is_hex32(h.as_str()) {
            let mut k: usize = 0;
            while k < out.len() && str_less(out[k].as_str(), h.as_str())
                invariant
                    k <= out.len(),
                    hv == h@,
                    before == texts(out@),
                    forall|j: int| 0 <= j < k ==> text_less(#[trigger] before[j], hv),
                decreases out.len() - k,
            {
                assert(before[k as int] == out@[k as int]@);
                k += 1;
            }
            let present = k < out.len() && str_equal(out[k].as_str(), h.as_str());
            if !present {
                proof {
                    assert forall|m: int| k <= m < before.len() implies text_less(hv, #[trigger] before[m]) by {
                        lemma_text_less_total(before[k as int], hv);
                        if m > k {
                            lemma_text_less_transitive(hv, before[k as int], before[m]);
                        }
                    }
                    lemma_insert_ordered(before, k as int, hv);
                }
                out.insert(k, h);
                assert(texts(out@) =~= before.insert(k as int, hv));
                assert forall|x: Seq<char>| #[trigger] texts(out@).contains(x) <==> (before.contains(x) || (x == hv && is_hex32_id(hv))) by {
                    assert(before.insert(k as int, hv).contains(x) <==> (before.contains(x) || x == hv));
                }
            } else {
                assert(before[k as int] == hv);
                assert(before.contains(hv));
                assert forall|x: Seq<char>| #[trigger] texts(out@).contains(x) <==> (before.contains(x) || (x == hv && is_hex32_id(hv))) by {}
            }
        } else {
            assert forall|x: Seq<char>| #[trigger] texts(out@).contains(x) <==> (before.contains(x) || (x == hv && is_hex32_id(hv))) by {}
        }
        proof {
            lemma_members_step(before, texts(out@), hs.take(i as int), hv);
        }
        i += 1;
    }
    assert(hs.take(items.len() as int) =~= hs);
    out
}

/// How the ids of one conversation are replaced: each old message id and
/// each old request id gets a new one.
pub struct RemapPlan {
    /// Old message id, new message id.
    pub message_ids: Vec<(String, String)>,
    /// Old request id, new request id.
    pub request_ids: Vec<(String, String)>,
    /// The number of messages copied (the number of message ids).
    pub message_total: usize,
}

pub open spec fn pair_keys(v: Seq<(String, String)>) -> Seq<Seq<char>> {
    Seq::new(v.len(), |i: int| v[i].0@)
}

pub open spec fn pair_vals(v: Seq<(String, String)>) -> Seq<Seq<char>> {
    Seq::new(v.len(), |i: int| v[i].1@)
}

/// The new id of `k` in a table of pairs.
pub open spec fn pair_lookup(v: Seq<(String, String)>, k: Seq<char>) -> Option<Seq<char>> {
    match key_pos(pair_keys(v), k) {
        Some(i) => Some(pair_vals(v)[i]),
        None => None,
    }
}

/// The strings of a list are pairwise different.
pub open spec fn all_distinct(s: Seq<Seq<char>>) -> bool {
    forall|i: int, j: int| 0 <= i < s.len() && 0 <= j < s.len() && i != j ==> s[i] != s[j]
}

impl RemapPlan {
    pub open spec fn msg(self, k: Seq<char>) -> Option<Seq<char>> {
        pair_lookup(self.message_ids@, k)
    }

    pub open spec fn req(self, k: Seq<char>) -> Option<Seq<char>> {
        pair_lookup(self.request_ids@, k)
    }

    /// The new id of an old message id, or else of an old request id.
    pub open spec fn lookup_spec(self, k: Seq<char>) -> Option<Seq<char>> {
        match self.msg(k) {
            Some(n) => Some(n),
            None => self.req(k),
        }
    }

    /// Every new id is 32 hex digits, and no two new ids are the same.
    pub open spec fn fresh(self) -> bool {
        let all = pair_vals(self.message_ids@) + pair_vals(self.request_ids@);
        &&& forall|i: int| 0 <= i < all.len() ==> is_hex32_id(#[trigger] all[i])
        &&& all_distinct(all)
    }
}

/// The position of `key` among the old ids of a table.
fn pair_find(v: &Vec<(String, String)>, key: &str) -> (r: Option<usize>)
    ensures
        match r {
            Some(i) => key_pos(pair_keys(v@), key@) == Some(i as int),
            None => key_pos(pair_keys(v@), key@) is None,
        },
{
    let ghost ks = pair_keys(v@);
    let mut i: usize = 0;
    while i < v.len()
        invariant
            i <= v.len(),
            ks == pair_keys(v@),
            forall|j: int| 0 <= j < i ==> ks[j] != key@,
        decreases v.len() - i,
    {
        if str_equal(v[i].0.as_str(), key) {
            proof {
                lemma_key_pos_unique(ks, key@, i as int);
            }
            return Some(i);
        }
        i += 1;
    }
    proof {
        lemma_key_pos_absent(ks, key@);
    }
    None
}

/// The new id of `key` in a table of pairs.
fn pair_get(v: &Vec<(String, String)>, key: &str) -> (r: Option<String>)
    ensures
        opt_text(r) == pair_lookup(v@, key@),
{
    match pair_find(v, key) {
        Some(i) => {
            proof {
                lemma_key_pos(pair_keys(v@), key@);
            }
            Some(v[i].1.clone())
        },
        None => None,
    }
}

impl RemapPlan {
    /// The new id of an old message id, or else of an old request id.
    pub fn lookup(&self, old_id: &str) -> (r: Option<String>)
        ensures
            opt_text(r) == self.lookup_spec(old_id@),
    {
        match pair_get(&self.message_ids, old_id) {
            Some(n) => Some(n),
            None => pair_get(&self.request_ids, old_id),
        }
    }
}

/// Gives `old_id` a new id that is not among `used`, unless it is empty or
/// already has one.
pub fn insert_new_id(map: &mut Vec<(String, String)>, used: &mut Vec<String>, old_id: &str)
    ensures
        if old_id@.len() == 0 || pair_keys(old(map)@).contains(old_id@) {
            final(map)@ == old(map)@ && final(used)@ == old(used)@
        } else {
            exists|n: String|
                {
                    &&& is_hex32_id(n@)
                    &&& forall|j: int| 0 <= j < old(used)@.len() ==> old(used)@[j]@ != n@
                    &&& final(used)@ == old(used)@.push(n)
                    &&& pair_keys(final(map)@) == pair_keys(old(map)@).push(old_id@)
                    &&& pair_vals(final(map)@) == pair_vals(old(map)@).push(n@)
                }
        },
{
    let found = pair_find(map, old_id);
    proof {
        lemma_key_pos(pair_keys(map@), old_id@);
        if found is None {
            assert(!pair_keys(map@).contains(old_id@));
        } else {
            assert(pair_keys(map@).contains(old_id@)) by {
                let i = found->Some_0;
                assert(pair_keys(map@)[i as int] == old_id@);
            }
        }
    }
    if old_id.is_empty() || found.is_some() {
        return;
    }
    let new_id = unique_hex32(used);
    let ghost before = map@;
    map.push((own(old_id), new_id.clone()));
    assert(pair_keys(map@) =~= pair_keys(before).push(old_id@));
    assert(pair_vals(map@) =~= pair_vals(before).push(new_id@));
}

/// The trimmed ids of the entries of a list that have a string id.
pub open spec fn id_list(s: Seq<JsonV>) -> Seq<Seq<char>>
    decreases s.len(),
{
    if s.len() == 0 {
        Seq::empty()
    } else {
        id_list(s.drop_last()) + match s.last().get_str("id"@) {
            Some(id) => seq![trim(id)],
            None => Seq::empty(),
        }
    }
}

/// The trimmed ids of the entries of the array at `key` of `index`.
pub open spec fn index_ids(index: JsonV, key: Seq<char>) -> Seq<Seq<char>> {
    match index.get(key) {
        Some(JsonV::Arr(a)) => id_list(a),
        _ => Seq::empty(),
    }
}

/// The file names that end in `.json`, without that ending.
pub open spec fn json_stems(names: Seq<Seq<char>>) -> Seq<Seq<char>>
    decreases names.len(),
{
    if names.len() == 0 {
        Seq::empty()
    } else {
        let n = names.last();
        json_stems(names.drop_last()) + if occurs_at(n, ".json"@, n.len() - 5) {
            seq![n.take(n.len() - 5)]
        } else {
            Seq::empty()
        }
    }
}

/// The non-empty strings of a list, each at its first occurrence only.
pub open spec fn dedup_nonempty(s: Seq<Seq<char>>) -> Seq<Seq<char>>
    decreases s.len(),
{
    if s.len() == 0 {
        s
    } else if s.last().len() > 0 && !dedup_nonempty(s.drop_last()).contains(s.last()) {
        dedup_nonempty(s.drop_last()).push(s.last())
    } else {
        dedup_nonempty(s.drop_last())
    }
}

/// The trimmed string ids of the entries of `arr`, in order.
fn collect_ids(arr: &Vec<Json>, out: &mut Vec<String>)
    ensures
        texts(final(out)@) == texts(old(out)@) + id_list(arr_view(arr@)),
{
    let ghost s = arr_view(arr@);
    let ghost start = texts(out@);
    let mut i: usize = 0;
    assert(s.take(0) =~= Seq::<JsonV>::empty());
    assert(start + id_list(s.take(0)) =~= start);
    while i < arr.len()
        invariant
            i <= arr.len(),
            s == arr_view(arr@),
            texts(out@) == start + id_list(s.take(i as int)),
        decreases arr.len() - i,
    {
        assert(s.take(i + 1).drop_last() =~= s.take(i as int));
        assert(s.take(i + 1).last() == arr@[i as int]@);
        let ghost before = out@;
        match arr[i].get_str("id") {
            Some(id) => {
                let t = trimmed(id.as_str());
                out.push(t);
                assert(texts(out@) =~= texts(before).push(trim(id@)));
                assert(id_list(s.take(i + 1)) == id_list(s.take(i as int)) + seq![trim(id@)]);
                assert(texts(out@) =~= start + id_list(s.take(i + 1)));
            },
            None => {
                assert(texts(out@) =~= start + id_list(s.take(i + 1)));
            },
        }
        i += 1;
    }
    assert(s.take(arr.len() as int) =~= s);
}

/// The trimmed ids of the entries of the array at `key` of `index`.
fn index_ids_exec(index: &Json, key: &str, out: &mut Vec<String>)
    ensures
        texts(final(out)@) == texts(old(out)@) + index_ids(index@, key@),
{
    match index.get(key) {
        Some(v) => match v.as_array() {
            Some(a) => {
                collect_ids(a, out);
            },
            None => {
                assert(texts(out@) =~= texts(out@) + Seq::<Seq<char>>::empty());
            },
        },
        None => {
            assert(texts(out@) =~= texts(out@) + Seq::<Seq<char>>::empty());
        },
    }
}

/// Gives each old id of `cands` a new id (see `insert_new_id`).
fn assign_ids(cands: &Vec<String>, map: &mut Vec<(String, String)>, used: &mut Vec<String>)
    requires
        pair_keys(old(map)@) == Seq::<Seq<char>>::empty(),
        forall|i: int| 0 <= i < old(used)@.len() ==> is_hex32_id(#[trigger] old(used)@[i]@),
        all_distinct(texts(old(used)@)),
    ensures
        pair_keys(final(map)@) == dedup_nonempty(texts(cands@)),
        texts(final(used)@) == texts(old(used)@) + pair_vals(final(map)@),
        forall|i: int| 0 <= i < final(used)@.len() ==> is_hex32_id(#[trigger] final(used)@[i]@),
        all_distinct(texts(final(used)@)),
{
    let ghost cs = texts(cands@);
    let ghost used0 = texts(used@);
    let mut i: usize = 0;
    assert(cs.take(0) =~= Seq::<Seq<char>>::empty());
    assert(pair_vals(map@) =~= Seq::<Seq<char>>::empty());
    assert(texts(used@) =~= used0 + pair_vals(map@));
    while i < cands.len()
        invariant
            i <= cands.len(),
            cs == texts(cands@),
            pair_keys(map@) == dedup_nonempty(cs.take(i as int)),
            texts(used@) == used0 + pair_vals(map@),
            forall|j: int| 0 <= j < used@.len() ==> is_hex32_id(#[trigger] used@[j]@),
            all_distinct(texts(used@)),
        decreases cands.len() - i,
    {
        assert(cs.take(i + 1).drop_last() =~= cs.take(i as int));
        assert(cs.take(i + 1).last() == cands@[i as int]@);
        let ghost used_before = used@;
        let ghost map_before = map@;
        insert_new_id(map, used, cands[i].as_str());
        proof {
            if !(cands@[i as int]@.len() == 0 || pair_keys(map_before).contains(cands@[i as int]@)) {
                let n = choose|n: String| {
                    &&& is_hex32_id(n@)
                    &&& forall|j: int| 0 <= j < used_before.len() ==> used_before[j]@ != n@
                    &&& used@ == used_before.push(n)
                    &&& pair_keys(map@) == pair_keys(map_before).push(cands@[i as int]@)
                    &&& pair_vals(map@) == pair_vals(map_before).push(n@)
                };
                assert(texts(used@) =~= texts(used_before).push(n@));
                assert(texts(used@) =~= used0 + pair_vals(map@));
                assert forall|a: int, b: int|
                    0 <= a < texts(used@).len() && 0 <= b < texts(used@).len() && a != b
                        implies texts(used@)[a] != texts(used@)[b] by {
                    if a < used_before.len() && b < used_before.len() {
                        assert(texts(used_before)[a] != texts(used_before)[b]);
                    }
                }
            }
        }
        i += 1;
    }
    assert(cs.take(cands.len() as int) =~= cs);
}

/// The names of a list that end in `.json`, without that ending.
fn collect_stems(names: &Vec<String>, out: &mut Vec<String>)
    ensures
        texts(final(out)@) == texts(old(out)@) + json_stems(texts(names@)),
{
    let ghost ns = texts(names@);
    let ghost start = texts(out@);
    let suffix = chars_of(".json");
    let mut i: usize = 0;
    assert(ns.take(0) =~= Seq::<Seq<char>>::empty());
    assert(start + json_stems(ns.take(0)) =~= start);
    while i < names.len()
        invariant
            i <= names.len(),
            ns == texts(names@),
            suffix@ == ".json"@,
            texts(out@) == start + json_stems(ns.take(i as int)),
        decreases names.len() - i,
    {
        assert(ns.take(i + 1).drop_last() =~= ns.take(i as int));
        assert(ns.take(i + 1).last() == names@[i as int]@);
        let v = chars_of(names[i].as_str());
        let ends = v.len() >= 5 && occurs_at_exec(&v, &suffix, v.len() - 5);
        proof {
            if v.len() < 5 {
                assert(!occurs_at(v@, ".json"@, v@.len() - 5));
            }
        }
        let ghost before = out@;
        if ends {
            out.push(string_from_chars(&v, 0, v.len() - 5));
            assert(v@.subrange(0, v.len() - 5) =~= v@.take(v.len() - 5));
            assert(texts(out@) =~= texts(before).push(v@.take(v.len() - 5)));
            assert(json_stems(ns.take(i + 1)) == json_stems(ns.take(i as int)) + seq![v@.take(v.len() - 5)]);
        } else {
            assert(json_stems(ns.take(i + 1)) == json_stems(ns.take(i as int)) + Seq::<Seq<char>>::empty());
            assert(texts(out@) =~= texts(before));
        }
        assert(texts(out@) =~= start + json_stems(ns.take(i + 1)));
        i += 1;
    }
    assert(ns.take(names.len() as int) =~= ns);
}

/// The old message ids of a conversation: those of its index (trimmed),
/// then the names of its message files.
pub open spec fn message_candidates(index: JsonV, names: Seq<Seq<char>>) -> Seq<Seq<char>> {
    index_ids(index, "messages"@) + json_stems(names)
}

impl RemapPlan {
    /// The id table of a conversation, from its index and the names of the
    /// files in its `messages` directory: every message id (of the index,
    /// trimmed, and of the file names) and every request id (of the index,
    /// trimmed) gets a fresh id.
    pub fn build(source_index: &Json, message_file_names: &Vec<String>) -> (r: RemapPlan)
        ensures
            pair_keys(r.message_ids@) == dedup_nonempty(
                message_candidates(source_index@, texts(message_file_names@)),
            ),
            pair_keys(r.request_ids@) == dedup_nonempty(index_ids(source_index@, "requests"@)),
            r.message_total == r.message_ids.len(),
            r.fresh(),
    {
        let mut used: Vec<String> = Vec::new();
        assert(texts(used@) =~= Seq::<Seq<char>>::empty());
        let mut cands: Vec<String> = Vec::new();
        index_ids_exec(source_index, "messages", &mut cands);
        collect_stems(message_file_names, &mut cands);
        assert(texts(cands@) =~= message_candidates(
            source_index@,
            texts(message_file_names@),
        ));
        let mut message_ids: Vec<(String, String)> = Vec::new();
        assert(pair_keys(message_ids@) =~= Seq::<Seq<char>>::empty());
        assert(all_distinct(texts(used@)));
        assign_ids(&cands, &mut message_ids, &mut used);
        let mut req_cands: Vec<String> = Vec::new();
        index_ids_exec(source_index, "requests", &mut req_cands);
        assert(texts(req_cands@) =~= index_ids(source_index@, "requests"@));
        let mut request_ids: Vec<(String, String)> = Vec::new();
        assert(pair_keys(request_ids@) =~= Seq::<Seq<char>>::empty());
        let ghost used_mid = texts(used@);
        assign_ids(&req_cands, &mut request_ids, &mut used);
        let message_total = message_ids.len();
        let r = RemapPlan { message_ids, request_ids, message_total };
        proof {
            let all = pair_vals(r.message_ids@) + pair_vals(r.request_ids@);
            assert(texts(used@) =~= all);
            assert forall|i: int| 0 <= i < all.len() implies is_hex32_id(#[trigger] all[i]) by {
                assert(all[i] == used@[i]@);
            }
        }
        r
    }
}

/// A message entry of a conversation index with its id replaced by its new id.
pub open spec fn remap_message_entry(plan: RemapPlan, m: JsonV) -> JsonV {
    match m.get_str("id"@) {
        Some(id) => match plan.msg(id) {
            Some(n) => m.set("id"@, JsonV::Str(n)),
            None => m,
        },
        None => m,
    }
}

/// A message id that a request lists, replaced by its new id.
pub open spec fn remap_message_ref(plan: RemapPlan, x: JsonV) -> JsonV {
    match x {
        JsonV::Str(s) => match plan.msg(s) {
            Some(n) => JsonV::Str(n),
            None => x,
        },
        _ => x,
    }
}

pub open spec fn remapped_refs(plan: RemapPlan, ms: Seq<JsonV>) -> Seq<JsonV> {
    ms.map_values(|x: JsonV| remap_message_ref(plan, x))
}

/// A request entry with its id and the message ids it lists replaced.
pub open spec fn remap_request_entry(plan: RemapPlan, r: JsonV) -> JsonV {
    if r is Obj {
        let r1 = match r.get_str("id"@) {
            Some(id) => match plan.req(id) {
                Some(n) => r.set("id"@, JsonV::Str(n)),
                None => r,
            },
            None => r,
        };
        match r1.get("messages"@) {
            Some(JsonV::Arr(ms)) => r1.set("messages"@, JsonV::Arr(remapped_refs(plan, ms))),
            _ => r1,
        }
    } else {
        r
    }
}

pub open spec fn remapped_messages(plan: RemapPlan, ms: Seq<JsonV>) -> Seq<JsonV> {
    ms.map_values(|m: JsonV| remap_message_entry(plan, m))
}

pub open spec fn remapped_requests(plan: RemapPlan, rs: Seq<JsonV>) -> Seq<JsonV> {
    rs.map_values(|r: JsonV| remap_request_entry(plan, r))
}

/// A conversation index with `messages[].id`, `requests[].id` and
/// `requests[].messages[]` replaced by the new ids.
pub open spec fn remap_index_spec(plan: RemapPlan, idx: JsonV) -> JsonV {
    let i1 = match idx.get("messages"@) {
        Some(JsonV::Arr(ms)) => idx.set("messages"@, JsonV::Arr(remapped_messages(plan, ms))),
        _ => idx,
    };
    match i1.get("requests"@) {
        Some(JsonV::Arr(rs)) => i1.set("requests"@, JsonV::Arr(remapped_requests(plan, rs))),
        _ => i1,
    }
}

fn remap_message_entry_exec(plan: &RemapPlan, m: &Json) -> (r: Json)
    ensures
        r@ == remap_message_entry(*plan, m@),
{
    match m.get_str("id") {
        Some(id) => match pair_get(&plan.message_ids, id.as_str()) {
            Some(n) => {
                let mut c = m.deep_clone();
                c.insert("id", Json::Str(n));
                c
            },
            None => m.deep_clone(),
        },
        None => m.deep_clone(),
    }
}

fn remap_message_ref_exec(plan: &RemapPlan, x: &Json) -> (r: Json)
    ensures
        r@ == remap_message_ref(*plan, x@),
{
    match x {
        Json::Str(s) => match pair_get(&plan.message_ids, s.as_str()) {
            Some(n) => Json::Str(n),
            None => x.deep_clone(),
        },
        _ => x.deep_clone(),
    }
}

fn remap_refs_exec(plan: &RemapPlan, a: &Vec<Json>) -> (r: Vec<Json>)
    ensures
        arr_view(r@) == remapped_refs(*plan, arr_view(a@)),
{
    let mut out: Vec<Json> = Vec::new();
    let mut i: usize = 0;
    while i < a.len()
        invariant
            i <= a.len(),
            out.len() == i,
            forall|j: int| 0 <= j < i ==> out@[j]@ == remap_message_ref(*plan, a@[j]@),
        decreases a.len() - i,
    {
        out.push(remap_message_ref_exec(plan, &a[i]));
        i += 1;
    }
    assert(arr_view(out@) =~= remapped_refs(*plan, arr_view(a@)));
    out
}

fn remap_request_entry_exec(plan: &RemapPlan, r: &Json) -> (res: Json)
    ensures
        res@ == remap_request_entry(*plan, r@),
{
    if !r.is_object() {
        return r.deep_clone();
    }
    let mut r1 = r.deep_clone();
    match r.get_str("id") {
        Some(id) => match pair_get(&plan.request_ids, id.as_str()) {
            Some(n) => {
                r1.insert("id", Json::Str(n));
            },
            None => {},
        },
        None => {},
    }
    let refs: Option<Vec<Json>> = match r1.get("messages") {
        Some(ms) => match ms.as_array() {
            Some(a) => Some(remap_refs_exec(plan, a)),
            None => None,
        },
        None => None,
    };
    match refs {
        Some(v) => {
            proof {
                lemma_arr_view(v);
            }
            r1.insert("messages", Json::Arr(v));
        },
        None => {},
    }
    r1
}

fn remap_messages_exec(plan: &RemapPlan, a: &Vec<Json>) -> (r: Vec<Json>)
    ensures
        arr_view(r@) == remapped_messages(*plan, arr_view(a@)),
{
    let mut out: Vec<Json> = Vec::new();
    let mut i: usize = 0;
    while i < a.len()
        invariant
            i <= a.len(),
            out.len() == i,
            forall|j: int| 0 <= j < i ==> out@[j]@ == remap_message_entry(*plan, a@[j]@),
        decreases a.len() - i,
    {
        out.push(remap_message_entry_exec(plan, &a[i]));
        i += 1;
    }
    assert(arr_view(out@) =~= remapped_messages(*plan, arr_view(a@)));
    out
}

fn remap_requests_exec(plan: &RemapPlan, a: &Vec<Json>) -> (r: Vec<Json>)
    ensures
        arr_view(r@) == remapped_requests(*plan, arr_view(a@)),
{
    let mut out: Vec<Json> = Vec::new();
    let mut i: usize = 0;
    while i < a.len()
        invariant
            i <= a.len(),
            out.len() == i,
            forall|j: int| 0 <= j < i ==> out@[j]@ == remap_request_entry(*plan, a@[j]@),
        decreases a.len() - i,
    {
        out.push(remap_request_entry_exec(plan, &a[i]));
        i += 1;
    }
    assert(arr_view(out@) =~= remapped_requests(*plan, arr_view(a@)));
    out
}

/// A conversation index with its message and request ids, and the message
/// ids that its requests list, replaced by the new ids of `plan`.
pub fn remap_session_index(source_index: &Json, plan: &RemapPlan) -> (r: Json)
    ensures
        r@ == remap_index_spec(*plan, source_index@),
{
    let mut out = source_index.deep_clone();
    let msgs: Option<Vec<Json>> = match out.get("messages") {
        Some(ms) => match ms.as_array() {
            Some(a) => Some(remap_messages_exec(plan, a)),
            None => None,
        },
        None => None,
    };
    match msgs {
        Some(v) => {
            proof {
                lemma_arr_view(v);
            }
            out.insert("messages", Json::Arr(v));
        },
        None => {},
    }
    let reqs: Option<Vec<Json>> = match out.get("requests") {
        Some(rs) => match rs.as_array() {
            Some(a) => Some(remap_requests_exec(plan, a)),
            None => None,
        },
        None => None,
    };
    match reqs {
        Some(v) => {
            proof {
                lemma_arr_view(v);
            }
            out.insert("requests", Json::Arr(v));
        },
        None => {},
    }
    out
}

/// Every string of a document that is an old message id, or else an old
/// request id, replaced by its new id; everything else stays.
pub open spec fn remap_deep(plan: RemapPlan, v: JsonV) -> JsonV
    decreases v,
{
    match v {
        JsonV::Str(s) => match plan.lookup_spec(s) {
            Some(n) => JsonV::Str(n),
            None => v,
        },
        JsonV::Arr(a) => JsonV::Arr(
            Seq::new(
                a.len(),
                |i: int|
                    if 0 <= i < a.len() {
                        remap_deep(plan, a[i])
                    } else {
                        JsonV::Null
                    },
            ),
        ),
        JsonV::Obj(ks, vs) => JsonV::Obj(
            ks,
            Seq::new(
                vs.len(),
                |i: int|
                    if 0 <= i < vs.len() {
                        remap_deep(plan, vs[i])
                    } else {
                        JsonV::Null
                    },
            ),
        ),
        _ => v,
    }
}

/// Replaces, throughout a document, every string that is exactly an old
/// message id or an old request id by its new id.
pub fn remap_value_recursive(value: &Json, plan: &RemapPlan) -> (r: Json)
    ensures
        r@ == remap_deep(*plan, value@),
    decreases value,
{
    match value {
        Json::Str(s) => match plan.lookup(s.as_str()) {
            Some(n) => Json::Str(n),
            None => value.deep_clone(),
        },
        Json::Arr(a) => {
            let mut out: Vec<Json> = Vec::new();
            let mut i: usize = 0;
            assert(decreases_to!(*value => *a));
            while i < a.len()
                invariant
                    decreases_to!(*value => *a),
                    i <= a.len(),
                    out.len() == i,
                    forall|j: int| 0 <= j < i ==> out@[j]@ == remap_deep(*plan, a@[j]@),
                decreases a.len() - i,
            {
                proof {
                    vstd::std_specs::vec::axiom_vec_index_decreases(*a, i as int);
                }
                out.push(remap_value_recursive(&a[i], plan));
                i += 1;
            }
            proof {
                lemma_arr_view(*a);
                lemma_arr_view(out);
                assert(arr_view(out@) =~= remap_deep(*plan, value@)->Arr_0);
            }
            Json::Arr(out)
        },
        Json::Obj(entries) => {
            let mut out: Vec<(String, Json)> = Vec::new();
            let mut i: usize = 0;
            assert(decreases_to!(*value => *entries));
            while i < entries.len()
                invariant
                    decreases_to!(*value => *entries),
                    i <= entries.len(),
                    out.len() == i,
                    forall|j: int| 0 <= j < i ==> out@[j].0@ == entries@[j].0@ && out@[j].1@ == remap_deep(*plan, entries@[j].1@),
                decreases entries.len() - i,
            {
                proof {
                    vstd::std_specs::vec::axiom_vec_index_decreases(*entries, i as int);
                }
                out.push((entries[i].0.clone(), remap_value_recursive(&entries[i].1, plan)));
                i += 1;
            }
            proof {
                lemma_obj_view(*entries);
                lemma_obj_view(out);
                assert(keys_view(out@) =~= keys_view(entries@));
                assert(vals_view(out@) =~= remap_deep(*plan, value@)->Obj_1);
            }
            Json::Obj(out)
        },
        _ => value.deep_clone(),
    }
}

/// How the `extra` field of a message is rewritten.
pub enum ExtraRewrite {
    /// It stays as it is.
    Keep,
    /// It becomes this object.
    Replace(Json),
    /// It becomes the text of this object (it was a string holding JSON).
    Stringify(Json),
}

pub enum ExtraRewriteV {
    Keep,
    Replace(JsonV),
    Stringify(JsonV),
}

impl View for ExtraRewrite {
    type V = ExtraRewriteV;

    open spec fn view(&self) -> ExtraRewriteV {
        match self {
            ExtraRewrite::Keep => ExtraRewriteV::Keep,
            ExtraRewrite::Replace(j) => ExtraRewriteV::Replace(j@),
            ExtraRewrite::Stringify(j) => ExtraRewriteV::Stringify(j@),
        }
    }
}

/// Key `key` of object `o`, where it holds a string with a new id in
/// `table`, replaced by that new id.
pub open spec fn remap_known(o: JsonV, key: Seq<char>, table: Seq<(String, String)>) -> JsonV {
    match o.get_str(key) {
        Some(s) => match pair_lookup(table, s) {
            Some(n) => o.set(key, JsonV::Str(n)),
            None => o,
        },
        None => o,
    }
}

/// The `extra` object of a message with its ids replaced: `requestId` by the
/// request table, `responseId` by the message table, then every string
/// anywhere inside that is exactly an old id.
pub open spec fn remap_extra_object(plan: RemapPlan, o: JsonV) -> JsonV {
    remap_deep(
        plan,
        remap_known(remap_known(o, "requestId"@, plan.request_ids@), "responseId"@, plan.message_ids@),
    )
}

/// The rewrite of an `extra` field: an object is rewritten; a string that
/// holds a JSON object (`parsed` is its parse) is rewritten and written back
/// as text; anything else stays.
pub open spec fn extra_rewrite_spec(plan: RemapPlan, extra: JsonV, parsed: Option<JsonV>) -> ExtraRewriteV {
    match extra {
        JsonV::Str(_) => match parsed {
            Some(p) => if p is Obj {
                ExtraRewriteV::Stringify(remap_extra_object(plan, p))
            } else {
                ExtraRewriteV::Keep
            },
            None => ExtraRewriteV::Keep,
        },
        JsonV::Obj(_, _) => ExtraRewriteV::Replace(remap_extra_object(plan, extra)),
        _ => ExtraRewriteV::Keep,
    }
}

fn remap_known_exec(o: Json, key: &str, table: &Vec<(String, String)>) -> (r: Json)
    ensures
        r@ == remap_known(o@, key@, table@),
{
    let found = match o.get_str(key) {
        Some(s) => pair_get(table, s.as_str()),
        None => None,
    };
    match found {
        Some(n) => {
            let mut o = o;
            o.insert(key, Json::Str(n));
            o
        },
        None => o,
    }
}

/// Rewrites the `extra` field of a message (see `extra_rewrite_spec`);
/// `parsed` is the parse of `extra` where it is a string.
pub fn remap_extra(extra: &Json, parsed: Option<Json>, plan: &RemapPlan) -> (r: ExtraRewrite)
    ensures
        r@ == extra_rewrite_spec(*plan, extra@, opt_doc(parsed)),
{
    match extra {
        Json::Str(_) => match parsed {
            Some(p) => {
                if p.is_object() {
                    let o1 = remap_known_exec(p, "requestId", &plan.request_ids);
                    let o2 = remap_known_exec(o1, "responseId", &plan.message_ids);
                    ExtraRewrite::Stringify(remap_value_recursive(&o2, plan))
                } else {
                    ExtraRewrite::Keep
                }
            },
            None => ExtraRewrite::Keep,
        },
        Json::Obj(_) => {
            let o1 = remap_known_exec(extra.deep_clone(), "requestId", &plan.request_ids);
            let o2 = remap_known_exec(o1, "responseId", &plan.message_ids);
            ExtraRewrite::Replace(remap_value_recursive(&o2, plan))
        },
        _ => ExtraRewrite::Keep,
    }
}

/// How a message file is rewritten.
pub enum MessageRewrite {
    /// The file is copied as it is (it is no JSON object).
    KeepText,
    /// The file becomes this message, with its `extra` field rewritten so.
    Rewrite(Json, ExtraRewrite),
}

pub enum MessageRewriteV {
    KeepText,
    Rewrite(JsonV, ExtraRewriteV),
}

impl View for MessageRewrite {
    type V = MessageRewriteV;

    open spec fn view(&self) -> MessageRewriteV {
        match self {
            MessageRewrite::KeepText => MessageRewriteV::KeepText,
            MessageRewrite::Rewrite(m, x) => MessageRewriteV::Rewrite(m@, x@),
        }
    }
}

/// The rewrite of a message file: a JSON object gets the new id of its file
/// name `old_stem` as its `id`, and its `extra` field rewritten.
pub open spec fn message_rewrite_spec(
    plan: RemapPlan,
    parsed: Option<JsonV>,
    extra_parsed: Option<JsonV>,
    old_stem: Seq<char>,
) -> MessageRewriteV {
    match parsed {
        Some(p) => if p is Obj {
            let p1 = match plan.msg(old_stem) {
                Some(n) => p.set("id"@, JsonV::Str(n)),
                None => p,
            };
            MessageRewriteV::Rewrite(
                p1,
                match p1.get("extra"@) {
                    Some(e) => extra_rewrite_spec(plan, e, extra_parsed),
                    None => ExtraRewriteV::Keep,
                },
            )
        } else {
            MessageRewriteV::KeepText
        },
        None => MessageRewriteV::KeepText,
    }
}

/// Rewrites one message file of a copied conversation: `parsed` is the parse
/// of its text, `extra_parsed` the parse of its `extra` field where that is a
/// string, `old_stem` its file name without `.json`.
pub fn remap_message_file(
    parsed: Option<Json>,
    extra_parsed: Option<Json>,
    old_stem: &str,
    plan: &RemapPlan,
) -> (r: MessageRewrite)
    ensures
        r@ == message_rewrite_spec(*plan, opt_doc(parsed), opt_doc(extra_parsed), old_stem@),
{
    match parsed {
        Some(p) => {
            if !p.is_object() {
                return MessageRewrite::KeepText;
            }
            let mut p1 = p;
            match pair_get(&plan.message_ids, old_stem) {
                Some(n) => {
                    p1.insert("id", Json::Str(n));
                },
                None => {},
            }
            let x = match p1.get("extra") {
                Some(e) => remap_extra(e, extra_parsed, plan),
                None => ExtraRewrite::Keep,
            };
            MessageRewrite::Rewrite(p1, x)
        },
        None => MessageRewrite::KeepText,
    }
}

/// The name of a message file without `.json`, where it ends so.
pub open spec fn file_stem(name: Seq<char>) -> Seq<char> {
    if occurs_at(name, ".json"@, name.len() - 5) {
        name.take(name.len() - 5)
    } else {
        name
    }
}

/// The name of a copied message file: `<new id>.json` where its stem has a
/// new id, its old name otherwise.
pub open spec fn new_message_file_name(plan: RemapPlan, name: Seq<char>) -> Seq<char> {
    match plan.msg(file_stem(name)) {
        Some(n) => n + ".json"@,
        None => name,
    }
}

/// The stem of a message file name (see `file_stem`).
pub fn message_file_stem(name: &str) -> (r: String)
    ensures
        r@ == file_stem(name@),
{
    let v = chars_of(name);
    let suffix = chars_of(".json");
    if v.len() >= 5 && occurs_at_exec(&v, &suffix, v.len() - 5) {
        let r = string_from_chars(&v, 0, v.len() - 5);
        assert(v@.subrange(0, v.len() - 5) =~= v@.take(v.len() - 5));
        r
    } else {
        proof {
            if v.len() < 5 {
                assert(!occurs_at(name@, ".json"@, name@.len() - 5));
            }
        }
        own(name)
    }
}

/// The name of a copied message file (see `new_message_file_name`).
pub fn message_file_name(name: &str, plan: &RemapPlan) -> (r: String)
    ensures
        r@ == new_message_file_name(*plan, name@),
{
    let stem = message_file_stem(name);
    match pair_get(&plan.message_ids, stem.as_str()) {
        Some(n) => {
            let mut r = n;
            r.append(".json");
            r
        },
        None => own(name),
    }
}

pub open spec fn empty_object_v() -> JsonV {
    JsonV::Obj(Seq::empty(), Seq::empty())
}

/// A workspace index with `entry` appended to its conversations; every other
/// field (such as `current`) stays. Anything but an object reads as an empty
/// object, and a `conversations` field that is no array as an empty one.
pub open spec fn merge_index_spec(idx: JsonV, entry: JsonV) -> JsonV {
    let i0 = if idx is Obj {
        idx
    } else {
        empty_object_v()
    };
    let convs = match i0.get("conversations"@) {
        Some(JsonV::Arr(a)) => a,
        _ => Seq::empty(),
    };
    i0.set("conversations"@, JsonV::Arr(convs.push(entry)))
}

/// Appends a new conversation entry to a workspace index, keeping every
/// other field (see `merge_index_spec`).
pub fn merge_workspace_index(index: Json, entry: Json) -> (r: Json)
    ensures
        r@ == merge_index_spec(index@, entry@),
{
    let mut i0 = if index.is_object() {
        index
    } else {
        Json::empty_object()
    };
    let mut convs: Vec<Json> = match i0.get("conversations") {
        Some(c) => match c.as_array() {
            Some(a) => {
                let mut out: Vec<Json> = Vec::new();
                let mut i: usize = 0;
                while i < a.len()
                    invariant
                        i <= a.len(),
                        out.len() == i,
                        forall|j: int| 0 <= j < i ==> out@[j]@ == a@[j]@,
                    decreases a.len() - i,
                {
                    out.push(a[i].deep_clone());
                    i += 1;
                }
                assert(arr_view(out@) =~= arr_view(a@));
                out
            },
            None => Vec::new(),
        },
        None => Vec::new(),
    };
    let ghost before = convs@;
    assert(arr_view(before) == match i0@.get("conversations"@) {
        Some(JsonV::Arr(a)) => a,
        _ => Seq::<JsonV>::empty(),
    });
    convs.push(entry);
    assert(arr_view(convs@) =~= arr_view(before).push(convs@[before.len() as int]@));
    proof {
        lemma_arr_view(convs);
    }
    i0.insert("conversations", Json::Arr(convs));
    i0
}

/// The first entry of a list whose `id` is the string `id`.
pub open spec fn first_with_id(s: Seq<JsonV>, id: Seq<char>) -> Option<JsonV>
    decreases s.len(),
{
    if s.len() == 0 {
        None
    } else {
        match first_with_id(s.drop_last(), id) {
            Some(e) => Some(e),
            None => if s.last().get_str("id"@) == Some(id) {
                Some(s.last())
            } else {
                None
            },
        }
    }
}

/// The entry of conversation `id` in a workspace index.
pub open spec fn find_conversation_spec(index: JsonV, id: Seq<char>) -> Option<JsonV> {
    match index.get("conversations"@) {
        Some(JsonV::Arr(a)) => first_with_id(a, id),
        _ => None,
    }
}

proof fn lemma_first_with_id_prefix(s: Seq<JsonV>, j: int, id: Seq<char>)
    requires
        0 <= j <= s.len(),
        first_with_id(s.take(j), id) is Some,
    ensures
        first_with_id(s, id) == first_with_id(s.take(j), id),
    decreases s.len() - j,
{
    if j < s.len() {
        assert(s.take(j + 1).drop_last() =~= s.take(j));
        lemma_first_with_id_prefix(s, j + 1, id);
    } else {
        assert(s.take(j) =~= s);
    }
}

/// The entry of conversation `conversation_id` in a workspace index.
pub fn find_conversation(index: &Json, conversation_id: &str) -> (r: Option<Json>)
    ensures
        opt_doc(r) == find_conversation_spec(index@, conversation_id@),
{
    let a = match index.get("conversations") {
        Some(c) => match c.as_array() {
            Some(a) => a,
            None => {
                return None;
            },
        },
        None => {
            return None;
        },
    };
    let ghost s = arr_view(a@);
    let mut i: usize = 0;
    assert(s.take(0) =~= Seq::<JsonV>::empty());
    while i < a.len()
        invariant
            i <= a.len(),
            s == arr_view(a@),
            find_conversation_spec(index@, conversation_id@) == first_with_id(s, conversation_id@),
            first_with_id(s.take(i as int), conversation_id@) is None,
        decreases a.len() - i,
    {
        assert(s.take(i + 1).drop_last() =~= s.take(i as int));
        assert(s.take(i + 1).last() == a@[i as int]@);
        let hit = match a[i].get_str("id") {
            Some(x) => str_equal(x.as_str(), conversation_id),
            None => false,
        };
        if hit {
            proof {
                lemma_first_with_id_prefix(s, i + 1, conversation_id@);
            }
            return Some(a[i].deep_clone());
        }
        i += 1;
    }
    assert(s.take(a.len() as int) =~= s);
    None
}

/// The entry of a copied conversation in the target index: the source
/// entry (an object) with the new id, or a fresh `craft` entry without name
/// or times.
pub open spec fn conversation_entry_spec(source: Option<JsonV>, new_id: Seq<char>) -> JsonV {
    match source {
        Some(o) => if o is Obj {
            o.set("id"@, JsonV::Str(new_id))
        } else {
            fresh_entry_spec(new_id)
        },
        None => fresh_entry_spec(new_id),
    }
}

pub open spec fn fresh_entry_spec(new_id: Seq<char>) -> JsonV {
    JsonV::Obj(
        seq!["id"@, "type"@, "name"@, "createdAt"@, "lastMessageAt"@],
        seq![JsonV::Str(new_id), JsonV::Str("craft"@), JsonV::Str(""@), JsonV::Null, JsonV::Null],
    )
}

/// The entry of a copied conversation in the target index (see
/// `conversation_entry_spec`).
pub fn conversation_entry(source_entry: Option<&Json>, new_id: &str) -> (r: Json)
    ensures
        r@ == conversation_entry_spec(opt_doc_ref(source_entry), new_id@),
{
    match source_entry {
        Some(o) => {
            if o.is_object() {
                let mut e = o.deep_clone();
                e.insert("id", Json::string(new_id));
                return e;
            }
        },
        None => {},
    }
    let mut v: Vec<(String, Json)> = Vec::new();
    v.push((own("id"), Json::string(new_id)));
    v.push((own("type"), Json::string("craft")));
    v.push((own("name"), Json::string("")));
    v.push((own("createdAt"), Json::Null));
    v.push((own("lastMessageAt"), Json::Null));
    proof {
        lemma_obj_view(v);
        assert(keys_view(v@) =~= seq!["id"@, "type"@, "name"@, "createdAt"@, "lastMessageAt"@]);
        assert(vals_view(v@) =~= seq![JsonV::Str(new_id@), JsonV::Str("craft"@), JsonV::Str(""@), JsonV::Null, JsonV::Null]);
    }
    Json::Obj(v)
}

/// A count as JSON: an integer where it fits an `i64`, else its decimal
/// numeral as a number.
pub open spec fn count_json(n: int) -> JsonV {
    if n <= i64::MAX {
        JsonV::Int(n)
    } else {
        JsonV::Num(crate::decimal::decimal_spec(n as nat))
    }
}

/// The report entry of a copied conversation.
pub open spec fn copied_outcome_spec(ws: Seq<char>, old_id: Seq<char>, new_id: Seq<char>, messages: int) -> JsonV {
    JsonV::Obj(
        seq!["workspaceHash"@, "oldId"@, "newId"@, "messages"@],
        seq![JsonV::Str(ws), JsonV::Str(old_id), JsonV::Str(new_id), count_json(messages)],
    )
}

fn count_to_json(n: usize) -> (r: Json)
    ensures
        r@ == count_json(n as int),
{
    if n as u64 <= 9223372036854775807u64 {
        Json::Int(n as i64)
    } else {
        Json::Num(crate::decimal::decimal(n as u64))
    }
}

/// The report entry of a copied conversation: its workspace, its old and
/// new ids and the number of its messages.
pub fn copied_outcome(workspace_hash: &str, old_id: &str, new_id: &str, messages: usize) -> (r: Json)
    ensures
        r@ == copied_outcome_spec(workspace_hash@, old_id@, new_id@, messages as int),
{
    let mut v: Vec<(String, Json)> = Vec::new();
    v.push((own("workspaceHash"), Json::string(workspace_hash)));
    v.push((own("oldId"), Json::string(old_id)));
    v.push((own("newId"), Json::string(new_id)));
    v.push((own("messages"), count_to_json(messages)));
    proof {
        lemma_obj_view(v);
        assert(keys_view(v@) =~= seq!["workspaceHash"@, "oldId"@, "newId"@, "messages"@]);
        assert(vals_view(v@) =~= seq![JsonV::Str(workspace_hash@), JsonV::Str(old_id@), JsonV::Str(new_id@), count_json(messages as int)]);
    }
    Json::Obj(v)
}

pub open spec fn item_error_spec(ws: Seq<char>, conv: Seq<char>, error: Seq<char>) -> JsonV {
    JsonV::Obj(
        seq!["workspaceHash"@, "conversationId"@, "error"@],
        seq![JsonV::Str(ws), JsonV::Str(conv), JsonV::Str(error)],
    )
}

/// The report entry of a conversation that was not copied.
pub fn item_error(workspace_hash: &str, conversation_id: &str, error: &str) -> (r: Json)
    ensures
        r@ == item_error_spec(workspace_hash@, conversation_id@, error@),
{
    let mut v: Vec<(String, Json)> = Vec::new();
    v.push((own("workspaceHash"), Json::string(workspace_hash)));
    v.push((own("conversationId"), Json::string(conversation_id)));
    v.push((own("error"), Json::string(error)));
    proof {
        lemma_obj_view(v);
        assert(keys_view(v@) =~= seq!["workspaceHash"@, "conversationId"@, "error"@]);
        assert(vals_view(v@) =~= seq![JsonV::Str(workspace_hash@), JsonV::Str(conversation_id@), JsonV::Str(error@)]);
    }
    Json::Obj(v)
}

pub open spec fn copy_report_spec(
    source_uid: Seq<char>,
    target_uid: Seq<char>,
    copied: Seq<JsonV>,
    errors: Seq<JsonV>,
    backup: Seq<char>,
) -> JsonV {
    let base = JsonV::Obj(
        seq!["sourceUid"@, "targetUid"@, "copied"@, "backup"@],
        seq![JsonV::Str(source_uid), JsonV::Str(target_uid), JsonV::Arr(copied), JsonV::Str(backup)],
    );
    if errors.len() == 0 {
        base
    } else {
        base.set("errors"@, JsonV::Arr(errors))
    }
}

/// The report of a copy: the two accounts, the copied conversations and the
/// backup directory, and the conversations not copied where there are any.
pub fn copy_report(
    source_uid: &str,
    target_uid: &str,
    copied: Vec<Json>,
    errors: Vec<Json>,
    backup: &str,
) -> (r: Json)
    ensures
        r@ == copy_report_spec(source_uid@, target_uid@, arr_view(copied@), arr_view(errors@), backup@),
{
    proof {
        lemma_arr_view(copied);
        lemma_arr_view(errors);
    }
    let ghost cv = arr_view(copied@);
    let ghost ev = arr_view(errors@);
    let no_errors = errors.len() == 0;
    let mut v: Vec<(String, Json)> = Vec::new();
    v.push((own("sourceUid"), Json::string(source_uid)));
    v.push((own("targetUid"), Json::string(target_uid)));
    v.push((own("copied"), Json::Arr(copied)));
    v.push((own("backup"), Json::string(backup)));
    proof {
        lemma_obj_view(v);
        assert(keys_view(v@) =~= seq!["sourceUid"@, "targetUid"@, "copied"@, "backup"@]);
        assert(vals_view(v@) =~= seq![JsonV::Str(source_uid@), JsonV::Str(target_uid@), JsonV::Arr(cv), JsonV::Str(backup@)]);
    }
    let mut report = Json::Obj(v);
    if !no_errors {
        report.insert("errors", Json::Arr(errors));
    }
    report
}

/// Why a copy between two accounts is refused, if it is: an unsafe source
/// or target uid, or the same account on both sides.
pub open spec fn copy_uids_error(source_uid: Seq<char>, target_uid: Seq<char>) -> Option<Seq<char>> {
    if !is_safe_uid_spec(source_uid) {
        Some("源账号 uid 非法"@)
    } else if !is_safe_uid_spec(target_uid) {
        Some("目标账号 uid 非法"@)
    } else if source_uid == target_uid {
        Some("源账号与目标账号相同，无需复制会话"@)
    } else {
        None
    }
}

/// Checks the two accounts of a copy before anything is written.
pub fn check_copy_uids(source_uid: &str, target_uid: &str) -> (r: Result<(), String>)
    ensures
        match r {
            Ok(()) => copy_uids_error(source_uid@, target_uid@) is None,
            Err(e) => copy_uids_error(source_uid@, target_uid@) == Some(e@),
        },
{
    if !is_safe_uid(source_uid) {
        return Err(own("源账号 uid 非法"));
    }
    if !is_safe_uid(target_uid) {
        return Err(own("目标账号 uid 非法"));
    }
    if str_equal(source_uid, target_uid) {
        return Err(own("源账号与目标账号相同，无需复制会话"));
    }
    Ok(())
}

/// The workspace hash and conversation id of an item, trimmed, where both
/// are 32 hex digits.
pub open spec fn item_ids_spec(item: CopyItem) -> Option<(Seq<char>, Seq<char>)> {
    let ws = trim(item.workspace_hash@);
    let conv = trim(item.conversation_id@);
    if is_hex32_id(ws) && is_hex32_id(conv) {
        Some((ws, conv))
    } else {
        None
    }
}

/// The trimmed workspace hash and conversation id of an item; otherwise the
/// report entry that refuses it.
pub fn check_copy_item(item: &CopyItem) -> (r: Result<(String, String), Json>)
    ensures
        match r {
            Ok((ws, conv)) => item_ids_spec(*item) == Some((ws@, conv@)),
            Err(e) => item_ids_spec(*item) is None && e@ == item_error_spec(
                item.workspace_hash@,
                item.conversation_id@,
                "工作区或会话 id 非法"@,
            ),
        },
{
    let ws = trimmed(item.workspace_hash.as_str());
    let conv = trimmed(item.conversation_id.as_str());
    if !is_hex32(ws.as_str()) || !is_hex32(conv.as_str()) {
        return Err(
            item_error(item.workspace_hash.as_str(), item.conversation_id.as_str(), "工作区或会话 id 非法"),
        );
    }
    Ok((ws, conv))
}

/// What `copy_vscode_sessions` does before it copies.
pub enum CopyGate {
    /// Nothing to copy: this empty report.
    Nothing(Json),
    /// The copy is refused with this message; nothing is written.
    Refuse(String),
    /// The copy goes ahead from this source account, under this data root.
    Copy(String, FsPath),
}

/// The checks of `copy_vscode_sessions`, in order: nothing to copy; an unsafe
/// target uid; VS Code still running; no safe source account logged in to
/// the extension; the same account on both sides; no data root.
pub open spec fn copy_gate_spec(
    target_uid: Seq<char>,
    items_empty: bool,
    vscode_running: bool,
    active_uid: Option<Seq<char>>,
    root_found: bool,
) -> Result<Option<Seq<char>>, Seq<char>> {
    if items_empty {
        Ok(None)
    } else if !is_safe_uid_spec(target_uid) {
        Err("目标账号 uid 非法，拒绝写入"@)
    } else if vscode_running {
        Err("检测到 VS Code 正在运行，请先完全退出后再复制会话，否则写入会被 VS Code 覆盖。"@)
    } else if !(active_uid matches Some(u) && is_safe_uid_spec(u)) {
        Err(
            "未检测到 VS Code CodeBuddy 扩展当前登录账号，无法定位源会话。请先在 VS Code 中登录该扩展后重试。"@,
        )
    } else if active_uid == Some(target_uid) {
        Err("源账号与目标账号相同，无需复制会话"@)
    } else if !root_found {
        Err("未找到 CodeBuddy 扩展数据目录，无法复制会话"@)
    } else {
        Ok(active_uid)
    }
}

pub open spec fn empty_copy_report_spec() -> JsonV {
    JsonV::Obj(seq!["copied"@, "errors"@], seq![JsonV::Arr(Seq::empty()), JsonV::Arr(Seq::empty())])
}

/// `g` is the decision of the checks of `copy_gate_spec` on these values:
/// the empty report, the refusal, or the source account and data root.
pub open spec fn gate_outcome(
    g: CopyGate,
    target_uid: Seq<char>,
    items_empty: bool,
    vscode_running: bool,
    active_uid: Option<Seq<char>>,
    root: Option<FsPath>,
) -> bool {
    let d = copy_gate_spec(target_uid, items_empty, vscode_running, active_uid, root is Some);
    match g {
        CopyGate::Nothing(j) => d == Ok::<Option<Seq<char>>, Seq<char>>(None) && j@ == empty_copy_report_spec(),
        CopyGate::Refuse(e) => d == Err::<Option<Seq<char>>, Seq<char>>(e@),
        CopyGate::Copy(u, p) => d == Ok::<Option<Seq<char>>, Seq<char>>(Some(u@)) && (root matches Some(q) && p@ == q@),
    }
}

/// Decides whether the copy of `copy_vscode_sessions` goes ahead (see
/// `copy_gate_spec`): `active_uid` is the account logged in to the
/// extension, `root` its data root where one exists.
pub fn copy_vscode_sessions_gate(
    target_uid: &str,
    items_empty: bool,
    vscode_running: bool,
    active_uid: Option<String>,
    root: Option<FsPath>,
) -> (r: CopyGate)
    ensures
        gate_outcome(r, target_uid@, items_empty, vscode_running, opt_text(active_uid), root),
{
    if items_empty {
        let mut v: Vec<(String, Json)> = Vec::new();
        let e1: Vec<Json> = Vec::new();
        let e2: Vec<Json> = Vec::new();
        proof {
            lemma_arr_view(e1);
            lemma_arr_view(e2);
            assert(arr_view(e1@) =~= Seq::<JsonV>::empty());
        }
        v.push((own("copied"), Json::Arr(e1)));
        v.push((own("errors"), Json::Arr(e2)));
        proof {
            lemma_obj_view(v);
            assert(keys_view(v@) =~= seq!["copied"@, "errors"@]);
            assert(vals_view(v@) =~= seq![JsonV::Arr(Seq::empty()), JsonV::Arr(Seq::empty())]);
        }
        return CopyGate::Nothing(Json::Obj(v));
    }
    if !is_safe_uid(target_uid) {
        return CopyGate::Refuse(own("目标账号 uid 非法，拒绝写入"));
    }
    if vscode_running {
        return CopyGate::Refuse(
            own("检测到 VS Code 正在运行，请先完全退出后再复制会话，否则写入会被 VS Code 覆盖。"),
        );
    }
    let source = match active_uid {
        Some(u) => {
            if is_safe_uid(u.as_str()) {
                u
            } else {
                return CopyGate::Refuse(
                    own(
                        "未检测到 VS Code CodeBuddy 扩展当前登录账号，无法定位源会话。请先在 VS Code 中登录该扩展后重试。",
                    ),
                );
            }
        },
        None => {
            return CopyGate::Refuse(
                own(
                    "未检测到 VS Code CodeBuddy 扩展当前登录账号，无法定位源会话。请先在 VS Code 中登录该扩展后重试。",
                ),
            );
        },
    };
    if str_equal(source.as_str(), target_uid) {
        return CopyGate::Refuse(own("源账号与目标账号相同，无需复制会话"));
    }
    match root {
        Some(p) => CopyGate::Copy(source, p),
        None => CopyGate::Refuse(own("未找到 CodeBuddy 扩展数据目录，无法复制会话")),
    }
}

/// What the checks of a copy read next from the system.
#[derive(Debug)]
pub enum GateProbe {
    /// Whether VS Code is running.
    VscodeRunning,
    /// The account logged in to the extension.
    ActiveUid,
    /// The extension's data root.
    DataRoot,
}

/// The next move of the checks of a copy: read something, or decide.
pub enum GateStep {
    Ask(GateProbe),
    Done(CopyGate),
}

/// What the checks of `copy_gate_spec` read next, given what is known so
/// far (`None` where not read yet): each is read only once the checks
/// before it have passed; nothing more where the outcome is settled.
pub open spec fn gate_next_probe(
    target_uid: Seq<char>,
    items_empty: bool,
    running: Option<bool>,
    active_uid: Option<Option<Seq<char>>>,
    root_found: Option<bool>,
) -> Option<GateProbe> {
    if items_empty || !is_safe_uid_spec(target_uid) {
        None
    } else {
        match running {
            None => Some(GateProbe::VscodeRunning),
            Some(true) => None,
            Some(false) => match active_uid {
                None => Some(GateProbe::ActiveUid),
                Some(a) => if !(a matches Some(u) && is_safe_uid_spec(u)) || a == Some(target_uid) {
                    None
                } else if root_found is None {
                    Some(GateProbe::DataRoot)
                } else {
                    None
                },
            },
        }
    }
}

pub open spec fn known_or<T>(o: Option<T>, d: T) -> T {
    match o {
        Some(x) => x,
        None => d,
    }
}

/// The checks of a copy read only what they need: where nothing more is to
/// be read, what was not read does not change the outcome.
pub proof fn law_gate_reads_only_what_it_needs(
    target_uid: Seq<char>,
    items_empty: bool,
    running: Option<bool>,
    active_uid: Option<Option<Seq<char>>>,
    root_found: Option<bool>,
    running2: bool,
    active2: Option<Seq<char>>,
    root2: bool,
)
    requires
        gate_next_probe(target_uid, items_empty, running, active_uid, root_found) is None,
        running matches Some(x) ==> running2 == x,
        active_uid matches Some(x) ==> active2 == x,
        root_found matches Some(x) ==> root2 == x,
    ensures
        copy_gate_spec(target_uid, items_empty, running2, active2, root2) == copy_gate_spec(
            target_uid,
            items_empty,
            known_or(running, false),
            known_or(active_uid, None),
            known_or(root_found, false),
        ),
{
}

/// The next move of the checks of `copy_vscode_sessions` (see
/// `gate_next_probe` and `copy_gate_spec`): `running`, `active_uid` and
/// `root` are what was read so far (`None` where not read yet).
pub fn copy_gate_step(
    target_uid: &str,
    items_empty: bool,
    running: Option<bool>,
    active_uid: Option<Option<String>>,
    root: Option<Option<FsPath>>,
) -> (r: GateStep)
    ensures
        match r {
            GateStep::Ask(p) => gate_next_probe(
                target_uid@,
                items_empty,
                running,
                match active_uid {
                    Some(a) => Some(opt_text(a)),
                    None => None,
                },
                match root {
                    Some(q) => Some(q is Some),
                    None => None,
                },
            ) == Some(p),
            GateStep::Done(g) => gate_next_probe(
                target_uid@,
                items_empty,
                running,
                match active_uid {
                    Some(a) => Some(opt_text(a)),
                    None => None,
                },
                match root {
                    Some(q) => Some(q is Some),
                    None => None,
                },
            ) is None && gate_outcome(g, target_uid@, items_empty, known_or(running, false), opt_text(known_or(active_uid, None)), known_or(root, None)),
        },
{
    if !items_empty && is_safe_uid(target_uid) {
        match running {
            None => return GateStep::Ask(GateProbe::VscodeRunning),
            Some(true) => {},
            Some(false) => match &active_uid {
                None => return GateStep::Ask(GateProbe::ActiveUid),
                Some(a) => {
                    let settled = match a {
                        Some(u) => !is_safe_uid(u.as_str()) || str_equal(u.as_str(), target_uid),
                        None => true,
                    };
                    if !settled && root.is_none() {
                        return GateStep::Ask(GateProbe::DataRoot);
                    }
                },
            },
        }
    }
    let run = match running {
        Some(x) => x,
        None => false,
    };
    let active = match active_uid {
        Some(a) => a,
        None => None,
    };
    let found = match root {
        Some(q) => q,
        None => None,
    };
    GateStep::Done(copy_vscode_sessions_gate(target_uid, items_empty, run, active, found))
}

/// The conversations of a workspace index, where it lists them in an array.
pub open spec fn index_conversations(index: JsonV) -> Option<Seq<JsonV>> {
    match index.get("conversations"@) {
        Some(JsonV::Arr(a)) => Some(a),
        _ => None,
    }
}

/// The id of a conversation entry, trimmed, where it is a non-empty string.
pub open spec fn conv_id(c: JsonV) -> Option<Seq<char>> {
    match c.get_str("id"@) {
        Some(id) => if trim(id).len() > 0 {
            Some(trim(id))
        } else {
            None
        },
        None => None,
    }
}

/// The ids of the conversations that have one, in order.
pub open spec fn conv_ids(convs: Seq<JsonV>) -> Seq<Seq<char>>
    decreases convs.len(),
{
    if convs.len() == 0 {
        Seq::empty()
    } else {
        conv_ids(convs.drop_last()) + match conv_id(convs.last()) {
            Some(id) => seq![id],
            None => Seq::empty(),
        }
    }
}

pub open spec fn untitled() -> Seq<char> {
    "(无标题)"@
}

/// The title of a conversation: its trimmed name, or `(无标题)`.
pub open spec fn conv_title(c: JsonV) -> Seq<char> {
    match c.get_str("name"@) {
        Some(n) => if trim(n).len() > 0 {
            trim(n)
        } else {
            untitled()
        },
        None => untitled(),
    }
}

/// When a conversation was last updated: its last message, or else its
/// creation, in epoch milliseconds.
pub open spec fn conv_updated(c: JsonV) -> int {
    let last = time_to_ms_spec(c.get("lastMessageAt"@));
    if last > 0 {
        last
    } else {
        time_to_ms_spec(c.get("createdAt"@))
    }
}

pub open spec fn conv_type(c: JsonV) -> Seq<char> {
    match c.get_str("type"@) {
        Some(t) => t,
        None => Seq::empty(),
    }
}

/// The listing entry of a conversation with id `id`.
pub open spec fn session_entry_spec(ws: Seq<char>, c: JsonV, id: Seq<char>, has_history: bool) -> JsonV {
    JsonV::Obj(
        seq!["id"@, "workspaceHash"@, "title"@, "updatedAt"@, "type"@, "hasHistory"@],
        seq![
            JsonV::Str(id),
            JsonV::Str(ws),
            JsonV::Str(conv_title(c)),
            JsonV::Int(conv_updated(c)),
            JsonV::Str(conv_type(c)),
            JsonV::Bool(has_history),
        ],
    )
}

/// The listing entries of the conversations of one workspace that have an
/// id; `flags[k]` tells whether the `k`-th of them has a history.
pub open spec fn workspace_entries(ws: Seq<char>, convs: Seq<JsonV>, flags: Seq<bool>) -> Seq<JsonV>
    decreases convs.len(),
{
    if convs.len() == 0 {
        Seq::empty()
    } else {
        let c = convs.last();
        workspace_entries(ws, convs.drop_last(), flags) + match conv_id(c) {
            Some(id) => seq![session_entry_spec(ws, c, id, flags[conv_ids(convs.drop_last()).len() as int])],
            None => Seq::empty(),
        }
    }
}

/// A workspace directory as read from disk: its name, whether it has an
/// `index.json` at all, its parsed `index.json` (`None` where it is missing
/// or damaged), and for each id of `session_ids(index)` whether that
/// conversation has a history.
pub struct ScannedWorkspace {
    pub hash: String,
    pub index_present: bool,
    pub index: Option<Json>,
    pub has_history: Vec<bool>,
}

pub open spec fn scan_conversations(w: ScannedWorkspace) -> Option<Seq<JsonV>> {
    match w.index {
        Some(i) => index_conversations(i@),
        None => None,
    }
}

/// The listing entries of the workspaces, in order.
pub open spec fn scan_entries(ws: Seq<ScannedWorkspace>) -> Seq<JsonV>
    decreases ws.len(),
{
    if ws.len() == 0 {
        Seq::empty()
    } else {
        let w = ws.last();
        scan_entries(ws.drop_last()) + match scan_conversations(w) {
            Some(a) => workspace_entries(w.hash@, a, w.has_history@),
            None => Seq::empty(),
        }
    }
}

/// A workspace whose index exists but is damaged or lists no array of
/// conversations (a workspace without an index is no damaged one).
pub open spec fn scan_damaged(w: ScannedWorkspace) -> bool {
    w.index_present && scan_conversations(w) is None
}

/// The number of workspaces whose index is damaged (see `scan_damaged`).
pub open spec fn scan_skipped(ws: Seq<ScannedWorkspace>) -> int
    decreases ws.len(),
{
    if ws.len() == 0 {
        0
    } else {
        scan_skipped(ws.drop_last()) + if scan_damaged(ws.last()) {
            1int
        } else {
            0int
        }
    }
}

/// The sort key of a listing entry: `updatedAt`, or 0.
pub open spec fn updated_key(v: JsonV) -> int {
    match v.get("updatedAt"@) {
        Some(JsonV::Int(x)) => x,
        _ => 0,
    }
}

/// `x` inserted into a list sorted by descending key: after every entry with
/// a key at least its own.
pub open spec fn insert_desc(s: Seq<JsonV>, x: JsonV) -> Seq<JsonV>
    decreases s.len(),
{
    if s.len() == 0 {
        seq![x]
    } else if updated_key(s.last()) >= updated_key(x) {
        s.push(x)
    } else {
        insert_desc(s.drop_last(), x).push(s.last())
    }
}

/// A list sorted by descending key; entries with equal keys keep their
/// order (a stable sort, as `sort_by` is).
pub open spec fn sort_desc(s: Seq<JsonV>) -> Seq<JsonV>
    decreases s.len(),
{
    if s.len() == 0 {
        s
    } else {
        insert_desc(sort_desc(s.drop_last()), s.last())
    }
}

pub open spec fn session_list_spec(uid: Seq<char>, sessions: Seq<JsonV>, skipped: int) -> JsonV {
    JsonV::Obj(
        seq!["sourceUid"@, "sessions"@, "skipped"@],
        seq![JsonV::Str(uid), JsonV::Arr(sessions), JsonV::Int(skipped)],
    )
}

/// The listing of an account's conversations: none for an unsafe uid;
/// otherwise every conversation with an id, the most recently updated
/// first, and the number of workspaces whose index is damaged.
pub open spec fn list_sessions_spec(uid: Seq<char>, ws: Seq<ScannedWorkspace>) -> JsonV {
    if !is_safe_uid_spec(uid) {
        session_list_spec(uid, Seq::empty(), 0)
    } else {
        session_list_spec(uid, sort_desc(scan_entries(ws)), scan_skipped(ws))
    }
}

proof fn lemma_insert_desc(s: Seq<JsonV>, x: JsonV, p: int)
    requires
        0 <= p <= s.len(),
        forall|j: int| p <= j < s.len() ==> updated_key(#[trigger] s[j]) < updated_key(x),
        p == 0 || updated_key(s[p - 1]) >= updated_key(x),
    ensures
        insert_desc(s, x) == s.take(p) + seq![x] + s.skip(p),
    decreases s.len(),
{
    if s.len() == p {
        if p == 0 {
            assert(s.take(p) + seq![x] + s.skip(p) =~= seq![x]);
        } else {
            assert(s.take(p) + seq![x] + s.skip(p) =~= s.push(x));
        }
    } else {
        assert(updated_key(s[s.len() - 1]) < updated_key(x));
        let d = s.drop_last();
        assert forall|j: int| p <= j < d.len() implies updated_key(#[trigger] d[j]) < updated_key(x) by {
            assert(d[j] == s[j]);
        }
        if p > 0 {
            assert(d[p - 1] == s[p - 1]);
        }
        lemma_insert_desc(d, x, p);
        assert((d.take(p) + seq![x] + d.skip(p)).push(s.last()) =~= s.take(p) + seq![x] + s.skip(p));
    }
}

/// Sorts listing entries by descending `updatedAt`, keeping the order of
/// entries with equal keys.
pub fn sort_sessions(sessions: &Vec<Json>) -> (r: Vec<Json>)
    ensures
        arr_view(r@) == sort_desc(arr_view(sessions@)),
{
    let ghost s = arr_view(sessions@);
    let mut out: Vec<Json> = Vec::new();
    let mut i: usize = 0;
    assert(s.take(0) =~= Seq::<JsonV>::empty());
    assert(arr_view(out@) =~= Seq::<JsonV>::empty());
    while i < sessions.len()
        invariant
            i <= sessions.len(),
            s == arr_view(sessions@),
            arr_view(out@) == sort_desc(s.take(i as int)),
        decreases sessions.len() - i,
    {
        let x = sessions[i].deep_clone();
        let kx = updated_key_exec(&x);
        let ghost o = arr_view(out@);
        let mut p: usize = out.len();
        while p > 0 && updated_key_exec(&out[p - 1]) < kx
            invariant
                p <= out.len(),
                o == arr_view(out@),
                kx == updated_key(x@),
                forall|j: int| p <= j < o.len() ==> updated_key(#[trigger] o[j]) < updated_key(x@),
            decreases p,
        {
            p -= 1;
        }
        proof {
            lemma_insert_desc(o, x@, p as int);
            assert(s.take(i + 1).drop_last() =~= s.take(i as int));
            assert(s.take(i + 1).last() == x@);
        }
        out.insert(p, x);
        assert(arr_view(out@) =~= o.take(p as int) + seq![x@] + o.skip(p as int));
        i += 1;
    }
    assert(s.take(sessions.len() as int) =~= s);
    out
}

fn updated_key_exec(v: &Json) -> (r: i64)
    ensures
        r as int == updated_key(v@),
{
    match v.get("updatedAt") {
        Some(Json::Int(x)) => *x,
        _ => 0,
    }
}

/// The ids of the conversations of an index that have an id (see
/// `conv_ids`): the conversations whose history is to be checked on disk.
pub fn session_ids(index: &Json) -> (r: Vec<String>)
    ensures
        texts(r@) == match index_conversations(index@) {
            Some(a) => conv_ids(a),
            None => Seq::empty(),
        },
{
    let mut out: Vec<String> = Vec::new();
    let a = match index.get("conversations") {
        Some(c) => match c.as_array() {
            Some(a) => a,
            None => {
                assert(texts(out@) =~= Seq::<Seq<char>>::empty());
                return out;
            },
        },
        None => {
            assert(texts(out@) =~= Seq::<Seq<char>>::empty());
            return out;
        },
    };
    let ghost s = arr_view(a@);
    let mut i: usize = 0;
    assert(s.take(0) =~= Seq::<JsonV>::empty());
    assert(texts(out@) =~= Seq::<Seq<char>>::empty());
    while i < a.len()
        invariant
            i <= a.len(),
            s == arr_view(a@),
            texts(out@) == conv_ids(s.take(i as int)),
        decreases a.len() - i,
    {
        assert(s.take(i + 1).drop_last() =~= s.take(i as int));
        assert(s.take(i + 1).last() == a@[i as int]@);
        let ghost before = out@;
        match conversation_id_of(&a[i]) {
            Some(id) => {
                out.push(id);
                assert(texts(out@) =~= texts(before) + seq![conv_id(a@[i as int]@)->Some_0]);
            },
            None => {
                assert(texts(out@) =~= texts(before) + Seq::<Seq<char>>::empty());
            },
        }
        i += 1;
    }
    assert(s.take(a.len() as int) =~= s);
    out
}

/// The trimmed id of a conversation entry, where it is a non-empty string.
fn conversation_id_of(c: &Json) -> (r: Option<String>)
    ensures
        opt_text(r) == conv_id(c@),
{
    match c.get_str("id") {
        Some(id) => {
            let t = trimmed(id.as_str());
            if t.as_str().is_empty() {
                None
            } else {
                Some(t)
            }
        },
        None => None,
    }
}

/// The listing entry of a conversation, where it has an id.
pub fn session_entry(workspace_hash: &str, conversation: &Json, has_history: bool) -> (r: Option<Json>)
    ensures
        match conv_id(conversation@) {
            Some(id) => opt_doc(r) == Some(session_entry_spec(workspace_hash@, conversation@, id, has_history)),
            None => r is None,
        },
{
    let id = match conversation_id_of(conversation) {
        Some(id) => id,
        None => {
            return None;
        },
    };
    let title = match conversation.get_str("name") {
        Some(n) => {
            let t = trimmed(n.as_str());
            if t.as_str().is_empty() {
                own("(无标题)")
            } else {
                t
            }
        },
        None => own("(无标题)"),
    };
    let last = time_to_ms(conversation.get("lastMessageAt"));
    let updated_at = if last > 0 {
        last
    } else {
        time_to_ms(conversation.get("createdAt"))
    };
    let conv_type_s = match conversation.get_str("type") {
        Some(t) => t.clone(),
        None => String::new(),
    };
    let mut v: Vec<(String, Json)> = Vec::new();
    v.push((own("id"), Json::Str(id)));
    v.push((own("workspaceHash"), Json::string(workspace_hash)));
    v.push((own("title"), Json::Str(title)));
    v.push((own("updatedAt"), Json::Int(updated_at)));
    v.push((own("type"), Json::Str(conv_type_s)));
    v.push((own("hasHistory"), Json::Bool(has_history)));
    proof {
        lemma_obj_view(v);
        let c = conversation@;
        assert(keys_view(v@) =~= seq!["id"@, "workspaceHash"@, "title"@, "updatedAt"@, "type"@, "hasHistory"@]);
        assert(vals_view(v@) =~= seq![
            JsonV::Str(conv_id(c)->Some_0),
            JsonV::Str(workspace_hash@),
            JsonV::Str(conv_title(c)),
            JsonV::Int(conv_updated(c)),
            JsonV::Str(conv_type(c)),
            JsonV::Bool(has_history),
        ]);
    }
    Some(Json::Obj(v))
}

/// The listing of an account whose conversations are not read: no entries.
pub fn empty_session_list(uid: &str) -> (r: Json)
    ensures
        r@ == session_list_spec(uid@, Seq::empty(), 0),
{
    let empty: Vec<Json> = Vec::new();
    assert(arr_view(empty@) =~= Seq::<JsonV>::empty());
    session_list(uid, empty, 0)
}

fn session_list(uid: &str, sessions: Vec<Json>, skipped: i64) -> (r: Json)
    ensures
        r@ == session_list_spec(uid@, arr_view(sessions@), skipped as int),
{
    proof {
        lemma_arr_view(sessions);
    }
    let ghost sv = arr_view(sessions@);
    let mut v: Vec<(String, Json)> = Vec::new();
    v.push((own("sourceUid"), Json::string(uid)));
    v.push((own("sessions"), Json::Arr(sessions)));
    v.push((own("skipped"), Json::Int(skipped)));
    proof {
        lemma_obj_view(v);
        assert(keys_view(v@) =~= seq!["sourceUid"@, "sessions"@, "skipped"@]);
        assert(vals_view(v@) =~= seq![JsonV::Str(uid@), JsonV::Arr(sv), JsonV::Int(skipped as int)]);
    }
    Json::Obj(v)
}

/// Each scanned workspace whose index lists conversations tells, for each
/// of their ids, whether it has a history.
pub open spec fn scans_complete(ws: Seq<ScannedWorkspace>) -> bool {
    forall|i: int|
        0 <= i < ws.len() ==> (scan_conversations(#[trigger] ws[i]) matches Some(a) ==> ws[i].has_history@.len()
            == conv_ids(a).len())
}

/// The listing of an account's conversations from its scanned workspace
/// directories (see `list_sessions_spec`).
pub fn list_sessions_in(uid: &str, workspaces: &Vec<ScannedWorkspace>) -> (r: Json)
    requires
        scans_complete(workspaces@),
        workspaces.len() <= i64::MAX,
    ensures
        r@ == list_sessions_spec(uid@, workspaces@),
{
    if !is_safe_uid(uid) {
        return empty_session_list(uid);
    }
    let ghost ws = workspaces@;
    let mut entries: Vec<Json> = Vec::new();
    let mut skipped: i64 = 0;
    let mut i: usize = 0;
    assert(ws.take(0) =~= Seq::<ScannedWorkspace>::empty());
    assert(arr_view(entries@) =~= Seq::<JsonV>::empty());
    while i < workspaces.len()
        invariant
            i <= workspaces.len() <= i64::MAX,
            ws == workspaces@,
            scans_complete(ws),
            arr_view(entries@) == scan_entries(ws.take(i as int)),
            skipped as int == scan_skipped(ws.take(i as int)),
            0 <= skipped <= i,
        decreases workspaces.len() - i,
    {
        let w = &workspaces[i];
        assert(ws.take(i + 1).drop_last() =~= ws.take(i as int));
        assert(ws.take(i + 1).last() == *w);
        let convs: Option<&Vec<Json>> = match &w.index {
            Some(idx) => match idx.get("conversations") {
                Some(c) => c.as_array(),
                None => None,
            },
            None => None,
        };
        match convs {
            None => {
                if w.index_present {
                    skipped += 1;
                }
                assert(arr_view(entries@) =~= scan_entries(ws.take(i + 1)));
            },
            Some(a) => {
                let ghost cs = arr_view(a@);
                let ghost start = arr_view(entries@);
                let mut j: usize = 0;
                let mut k: usize = 0;
                assert(cs.take(0) =~= Seq::<JsonV>::empty());
                assert(start + workspace_entries(w.hash@, cs.take(0), w.has_history@) =~= start);
                while j < a.len()
                    invariant
                        j <= a.len(),
                        cs == arr_view(a@),
                        w.has_history@.len() == conv_ids(cs).len(),
                        k == conv_ids(cs.take(j as int)).len(),
                        arr_view(entries@) == start + workspace_entries(w.hash@, cs.take(j as int), w.has_history@),
                    decreases a.len() - j,
                {
                    assert(cs.take(j + 1).drop_last() =~= cs.take(j as int));
                    assert(cs.take(j + 1).last() == a@[j as int]@);
                    proof {
                        lemma_conv_ids_prefix_len(cs, j as int);
                    }
                    let ghost before = entries@;
                    if conversation_id_of(&a[j]).is_some() {
                        assert(k < w.has_history@.len());
                        assert(k < w.has_history.len());
                        let flag = w.has_history[k];
                        match session_entry(w.hash.as_str(), &a[j], flag) {
                            Some(e) => {
                                entries.push(e);
                            },
                            None => {},
                        }
                        k += 1;
                        assert(arr_view(entries@) =~= arr_view(before).push(
                            session_entry_spec(w.hash@, a@[j as int]@, conv_id(a@[j as int]@)->Some_0, flag),
                        ));
                    }
                    assert(arr_view(entries@) =~= start + workspace_entries(w.hash@, cs.take(j + 1), w.has_history@));
                    j += 1;
                }
                assert(cs.take(a.len() as int) =~= cs);
                assert(arr_view(entries@) =~= scan_entries(ws.take(i + 1)));
            },
        }
        i += 1;
    }
    assert(ws.take(workspaces.len() as int) =~= ws);
    let sorted = sort_sessions(&entries);
    session_list(uid, sorted, skipped)
}

proof fn lemma_conv_ids_prefix_len(cs: Seq<JsonV>, j: int)
    requires
        0 <= j < cs.len(),
    ensures
        conv_ids(cs.take(j)).len() + (if conv_id(cs[j]) is Some { 1int } else { 0int }) == conv_ids(cs.take(j + 1)).len(),
        conv_ids(cs.take(j + 1)).len() <= conv_ids(cs).len(),
{
    assert(cs.take(j + 1).drop_last() =~= cs.take(j));
    lemma_conv_ids_len_mono(cs, j + 1);
}

proof fn lemma_conv_ids_len_mono(cs: Seq<JsonV>, j: int)
    requires
        0 <= j <= cs.len(),
    ensures
        conv_ids(cs.take(j)).len() <= conv_ids(cs).len(),
    decreases cs.len() - j,
{
    if j < cs.len() {
        assert(cs.take(j + 1).drop_last() =~= cs.take(j));
        lemma_conv_ids_len_mono(cs, j + 1);
    } else {
        assert(cs.take(j) =~= cs);
    }
}

/// Whether a conversation index lists any message.
pub open spec fn index_has_messages_spec(index: Option<JsonV>) -> bool {
    match index {
        Some(i) => match i.get("messages"@) {
            Some(JsonV::Arr(m)) => m.len() > 0,
            _ => false,
        },
        None => false,
    }
}

/// Whether a conversation's index lists any message (the other test of
/// having a history is a file in its `messages` directory).
pub fn index_has_messages(index: Option<&Json>) -> (r: bool)
    ensures
        r == index_has_messages_spec(opt_doc_ref(index)),
{
    match index {
        Some(i) => match i.get("messages") {
            Some(m) => match m.as_array() {
                Some(a) => a.len() > 0,
                None => false,
            },
            None => false,
        },
        None => false,
    }
}

/// Whether a conversation has a history: its index lists a message, or its
/// `messages` directory holds a file (`messages_dir_has_file`).
pub fn conversation_has_history(index: Option<&Json>, messages_dir_has_file: bool) -> (r: bool)
    ensures
        r == (index_has_messages_spec(opt_doc_ref(index)) || messages_dir_has_file),
{
    index_has_messages(index) || messages_dir_has_file
}

/// A workspace index as read before a copy: the parsed `index.json` where it
/// exists and parses, else an empty object.
pub fn workspace_index_or_empty(parsed: Option<Json>) -> (r: Json)
    ensures
        r@ == match opt_doc(parsed) {
            Some(j) => j,
            None => JsonV::Obj(Seq::empty(), Seq::empty()),
        },
{
    match parsed {
        Some(j) => j,
        None => Json::empty_object(),
    }
}

/// Whether a top-level entry of a conversation directory is copied as it is:
/// every entry but the two indexes and the `messages` directory, which are
/// rewritten.
pub open spec fn copied_as_is_spec(name: Seq<char>) -> bool {
    name != "index.json"@ && name != ".index_bak.json"@ && name != "messages"@
}

/// Whether a top-level entry of a conversation directory is copied as it is
/// (see `copied_as_is_spec`).
pub fn copied_as_is(name: &str) -> (r: bool)
    ensures
        r == copied_as_is_spec(name@),
{
    !str_equal(name, "index.json") && !str_equal(name, ".index_bak.json") && !str_equal(name, "messages")
}

/// Why an item whose ids are valid is not copied, if it is not: its source
/// conversation directory does not exist, or its workspace has no state.
pub open spec fn source_refusal(ws: Seq<char>, conv: Seq<char>, source_dir_exists: bool, has_state: bool) -> Option<JsonV> {
    if !source_dir_exists {
        Some(item_error_spec(ws, conv, "源会话目录不存在"@))
    } else if !has_state {
        Some(item_error_spec(ws, conv, "工作区状态缺失"@))
    } else {
        None
    }
}

/// The report entry of an item that cannot be copied from its source (see
/// `source_refusal`), where it cannot.
pub fn check_copy_source(ws: &str, conv: &str, source_dir_exists: bool, has_state: bool) -> (r: Option<Json>)
    ensures
        opt_doc(r) == source_refusal(ws@, conv@, source_dir_exists, has_state),
{
    if !source_dir_exists {
        return Some(item_error(ws, conv, "源会话目录不存在"));
    }
    if !has_state {
        return Some(item_error(ws, conv, "工作区状态缺失"));
    }
    None
}

/// The stage at which the copy of one conversation failed.
pub enum CopyFailure {
    /// The source conversation has no readable `index.json`.
    MissingIndex,
    /// No new conversation id could be made (the random source failed).
    NoId,
    /// Writing the temporary conversation directory failed.
    WriteTemp(String),
    /// Renaming the temporary directory into place failed.
    Commit(String),
    /// Writing the merged workspace index failed.
    MergeIndex(String),
}

pub open spec fn copy_failure_spec(f: CopyFailure) -> Seq<char> {
    match f {
        CopyFailure::MissingIndex => "源会话 index.json 缺失或损坏"@,
        CopyFailure::NoId => "生成新会话 id 失败"@,
        CopyFailure::WriteTemp(e) => "写入临时会话目录失败："@ + e@,
        CopyFailure::Commit(e) => "提交会话目录失败："@ + e@,
        CopyFailure::MergeIndex(e) => "合并工作区索引失败："@ + e@,
    }
}

/// The error recorded for a conversation whose copy failed.
pub fn copy_failure_message(f: CopyFailure) -> (r: String)
    ensures
        r@ == copy_failure_spec(f),
{
    match f {
        CopyFailure::MissingIndex => own("源会话 index.json 缺失或损坏"),
        CopyFailure::NoId => own("生成新会话 id 失败"),
        CopyFailure::WriteTemp(e) => crate::text::concat("写入临时会话目录失败：", e.as_str()),
        CopyFailure::Commit(e) => crate::text::concat("提交会话目录失败：", e.as_str()),
        CopyFailure::MergeIndex(e) => crate::text::concat("合并工作区索引失败：", e.as_str()),
    }
}

/// The error of a copy whose target workspace index could not be backed
/// up; nothing is copied then.
pub fn backup_failure_message(workspace_hash: &str, error: &str) -> (r: String)
    ensures
        r@ == "备份目标工作区索引失败（"@ + workspace_hash@ + "）："@ + error@,
{
    let m = crate::text::concat("备份目标工作区索引失败（", workspace_hash);
    let m = crate::text::concat(m.as_str(), "）：");
    crate::text::concat(m.as_str(), error)
}

/// The name of the temporary directory a conversation is written into
/// before it is renamed to its new id: `.tmp-<new id>`.
pub fn temp_dir_name(new_id: &str) -> (r: String)
    ensures
        r@ == ".tmp-"@ + new_id@,
{
    crate::text::concat(".tmp-", new_id)
}

/// The account that conversations are copied to before a switch: the `uid`
/// of the account being switched to; an error where the store has no such
/// account, or it has no uid.
pub open spec fn copy_target_uid_spec(account_id: Seq<char>, account: Option<JsonV>) -> Result<Seq<char>, Seq<char>> {
    match account {
        None => Err("账号不存在: "@ + account_id),
        Some(a) => match a.get_str("uid"@) {
            Some(u) => Ok(u),
            None => Err("账号缺少 uid，无法定位 VS Code 数据目录，无法复制会话"@),
        },
    }
}

/// The account that conversations are copied to before a switch (see
/// `copy_target_uid_spec`); `account` is the store's account `account_id`.
pub fn copy_target_uid(account_id: &str, account: Option<&Json>) -> (r: Result<String, String>)
    ensures
        text_result(r) == copy_target_uid_spec(account_id@, opt_doc_ref(account)),
{
    match account {
        None => Err(crate::text::concat("账号不存在: ", account_id)),
        Some(a) => match a.get_str("uid") {
            Some(u) => Ok(u.clone()),
            None => Err(own("账号缺少 uid，无法定位 VS Code 数据目录，无法复制会话")),
        },
    }
}

/// How a switch with a copy of conversations begins.
#[derive(Debug)]
pub enum SwitchCopyStart {
    /// Nothing to copy: the plain switch, with nothing looked up or copied.
    PlainSwitch,
    /// Copy the conversations to this account uid, then switch.
    Copy(String),
    /// Stop with this error before anything is copied or switched.
    Refuse(String),
}

/// How a switch to `account_id` with a copy of conversations begins: with
/// no items it is the plain switch; otherwise the copy goes to the uid of
/// the account (see `copy_target_uid_spec`). `account` is the store's
/// account `account_id`, looked up only where there are items.
pub fn switch_with_copy_start(account_id: &str, items_empty: bool, account: Option<&Json>) -> (r: SwitchCopyStart)
    ensures
        items_empty <==> r is PlainSwitch,
        r matches SwitchCopyStart::Copy(u) ==> copy_target_uid_spec(account_id@, opt_doc_ref(account)) == Ok::<Seq<char>, Seq<char>>(u@),
        r matches SwitchCopyStart::Refuse(e) ==> copy_target_uid_spec(account_id@, opt_doc_ref(account)) == Err::<Seq<char>, Seq<char>>(e@),
{
    if items_empty {
        return SwitchCopyStart::PlainSwitch;
    }
    match copy_target_uid(account_id, account) {
        Ok(u) => SwitchCopyStart::Copy(u),
        Err(e) => SwitchCopyStart::Refuse(e),
    }
}

/// The number of conversations a copy report lists as copied.
pub open spec fn copied_count_spec(report: JsonV) -> nat {
    match report.get("copied"@) {
        Some(JsonV::Arr(a)) => a.len(),
        _ => 0,
    }
}

/// The outcome of a switch that followed a copy: a completed switch carries
/// the copy report as `sessionCopy`; a failed one keeps its error, noting
/// how many conversations were already copied where there were any.
pub open spec fn finish_switch_spec(switched: Result<JsonV, Seq<char>>, report: JsonV) -> Result<JsonV, Seq<char>> {
    match switched {
        Ok(j) => Ok(
            (if j is Null {
                JsonV::Obj(Seq::empty(), Seq::empty())
            } else {
                j
            }).set("sessionCopy"@, report),
        ),
        Err(e) => if copied_count_spec(report) > 0 {
            Err(
                e + "（注意：已成功复制 "@ + crate::decimal::decimal_spec(copied_count_spec(report))
                    + " 个会话到目标账号，但账号切换未完成，请重试切换）"@,
            )
        } else {
            Err(e)
        },
    }
}

pub open spec fn res_json_view(r: Result<Json, String>) -> Result<JsonV, Seq<char>> {
    match r {
        Ok(j) => Ok(j@),
        Err(e) => Err(e@),
    }
}

/// The outcome of a switch that followed a copy (see `finish_switch_spec`).
pub fn finish_switch_with_copy(switched: Result<Json, String>, report: Json) -> (r: Result<Json, String>)
    requires
        switched matches Ok(j) ==> (j@.is_object() || j@ is Null),
    ensures
        res_json_view(r) == finish_switch_spec(res_json_view(switched), report@),
{
    match switched {
        Ok(mut j) => {
            j.index_set("sessionCopy", report);
            Ok(j)
        },
        Err(e) => {
            let n: usize = match report.get("copied") {
                Some(c) => match c.as_array() {
                    Some(a) => a.len(),
                    None => 0,
                },
                None => 0,
            };
            assert(n == copied_count_spec(report@));
            if n > 0 {
                let count = crate::decimal::decimal(n as u64);
                let m = crate::text::concat(e.as_str(), "（注意：已成功复制 ");
                let m = crate::text::concat(m.as_str(), count.as_str());
                Err(crate::text::concat(m.as_str(), " 个会话到目标账号，但账号切换未完成，请重试切换）"))
            } else {
                Err(e)
            }
        },
    }
}

/// Merging a copied conversation into a workspace index keeps every other
/// field of the index (such as `current`), and appends the entry after the
/// conversations already listed.
pub proof fn law_merge_index_keeps_fields(index: Json, entry: Json, k: Seq<char>)
    ensures
        k != "conversations"@ ==> merge_index_spec(index@, entry@).get(k) == (if index@ is Obj {
            index@
        } else {
            empty_object_v()
        }).get(k),
        merge_index_spec(index@, entry@).get("conversations"@) == Some(
            JsonV::Arr(
                match index@.get("conversations"@) {
                    Some(JsonV::Arr(a)) => a,
                    _ => Seq::empty(),
                }.push(entry@),
            ),
        ),
{
    lemma_view_valid(index);
    let i0 = if index@ is Obj {
        index@
    } else {
        empty_object_v()
    };
    lemma_get_valid(i0, k);
    let convs = match i0.get("conversations"@) {
        Some(JsonV::Arr(a)) => a,
        _ => Seq::empty(),
    };
    lemma_set_get(i0, "conversations"@, JsonV::Arr(convs.push(entry@)), k);
    lemma_set_get(i0, "conversations"@, JsonV::Arr(convs.push(entry@)), "conversations"@);
}

/// Whether a string anywhere in a document is `s`.
pub open spec fn mentions(v: JsonV, s: Seq<char>) -> bool
    decreases v,
{
    match v {
        JsonV::Str(t) => t == s,
        JsonV::Arr(a) => exists|i: int| 0 <= i < a.len() && mentions(#[trigger] a[i], s),
        JsonV::Obj(_, vs) => exists|i: int| 0 <= i < vs.len() && mentions(#[trigger] vs[i], s),
        _ => false,
    }
}

/// No new id of the plan is an old one.
pub open spec fn new_ids_unused(plan: RemapPlan) -> bool {
    forall|x: Seq<char>| #[trigger] plan.lookup_spec(x) matches Some(n) ==> plan.lookup_spec(n) is None
}

/// After the deep remap of a document, no string in it is an old message id
/// or an old request id of the plan, provided no new id is an old one.
pub proof fn law_remap_leaves_no_old_id(plan: RemapPlan, v: JsonV, old_id: Seq<char>)
    requires
        plan.lookup_spec(old_id) is Some,
        new_ids_unused(plan),
    ensures
        !mentions(remap_deep(plan, v), old_id),
    decreases v,
{
    match v {
        JsonV::Str(t) => {
            match plan.lookup_spec(t) {
                Some(n) => {
                    assert(plan.lookup_spec(n) is None);
                },
                None => {},
            }
        },
        JsonV::Arr(a) => {
            let r = remap_deep(plan, v);
            assert forall|i: int| 0 <= i < r->Arr_0.len() implies !mentions(#[trigger] r->Arr_0[i], old_id) by {
                law_remap_leaves_no_old_id(plan, a[i], old_id);
            }
        },
        JsonV::Obj(ks, vs) => {
            let r = remap_deep(plan, v);
            assert forall|i: int| 0 <= i < r->Obj_1.len() implies !mentions(#[trigger] r->Obj_1[i], old_id) by {
                law_remap_leaves_no_old_id(plan, vs[i], old_id);
            }
        },
        _ => {},
    }
}

/// A list ordered by descending `updatedAt`.
pub open spec fn sorted_desc(s: Seq<JsonV>) -> bool {
    forall|i: int, j: int| 0 <= i < j < s.len() ==> updated_key(#[trigger] s[i]) >= updated_key(#[trigger] s[j])
}

proof fn lemma_insert_desc_sorted(s: Seq<JsonV>, x: JsonV)
    requires
        sorted_desc(s),
    ensures
        sorted_desc(insert_desc(s, x)),
        insert_desc(s, x).to_multiset() == s.to_multiset().insert(x),
    decreases s.len(),
{
    broadcast use vstd::seq_lib::group_seq_properties;
    if s.len() == 0 {
        assert(seq![x] =~= Seq::<JsonV>::empty().push(x));
    } else if updated_key(s.last()) >= updated_key(x) {
    } else {
        let d = s.drop_last();
        assert(sorted_desc(d)) by {
            assert forall|i: int, j: int| 0 <= i < j < d.len() implies updated_key(#[trigger] d[i]) >= updated_key(#[trigger] d[j]) by {
                assert(d[i] == s[i] && d[j] == s[j]);
            }
        }
        lemma_insert_desc_sorted(d, x);
        let t = insert_desc(d, x);
        let r = t.push(s.last());
        assert(s =~= d.push(s.last()));
        assert forall|i: int, j: int| 0 <= i < j < r.len() implies updated_key(#[trigger] r[i]) >= updated_key(#[trigger] r[j]) by {
            if j == r.len() - 1 {
                assert(t.to_multiset().count(t[i]) > 0);
                assert(t.to_multiset() == d.to_multiset().insert(x));
                if t[i] != x {
                    assert(d.to_multiset().count(t[i]) > 0);
                    assert(d.contains(t[i]));
                    let m = choose|m: int| 0 <= m < d.len() && d[m] == t[i];
                    assert(s[m] == d[m]);
                    assert(updated_key(s[m]) >= updated_key(s[s.len() - 1]));
                }
            }
        }
    }
}

/// Sorting listing entries orders them by descending `updatedAt` and keeps
/// every entry (the result is a permutation of the input).
pub proof fn law_sessions_sorted(s: Seq<JsonV>)
    ensures
        sorted_desc(sort_desc(s)),
        sort_desc(s).to_multiset() == s.to_multiset(),
    decreases s.len(),
{
    broadcast use vstd::seq_lib::group_seq_properties;
    if s.len() == 0 {
    } else {
        law_sessions_sorted(s.drop_last());
        lemma_insert_desc_sorted(sort_desc(s.drop_last()), s.last());
        assert(s =~= s.drop_last().push(s.last()));
    }
}

proof fn lemma_session_entry_reads(ws: Seq<char>, c: JsonV, id: Seq<char>, h: bool)
    ensures
        session_entry_spec(ws, c, id, h).get_str("id"@) == Some(id),
        session_entry_spec(ws, c, id, h).get_str("workspaceHash"@) == Some(ws),
        session_entry_spec(ws, c, id, h).get("updatedAt"@) == Some(JsonV::Int(conv_updated(c))),
{
    reveal_strlit("id");
    reveal_strlit("workspaceHash");
    reveal_strlit("title");
    reveal_strlit("updatedAt");
    reveal_strlit("type");
    reveal_strlit("hasHistory");
    let keys = seq!["id"@, "workspaceHash"@, "title"@, "updatedAt"@, "type"@, "hasHistory"@];
    assert(keys[0].len() != keys[1].len());
    assert(keys[0].len() != keys[2].len());
    assert(keys[1].len() != keys[3].len());
    assert(keys[2][0] != keys[3][0]);
    assert(keys[0].len() != keys[3].len());
    lemma_key_pos_unique(keys, "id"@, 0);
    lemma_key_pos_unique(keys, "workspaceHash"@, 1);
    lemma_key_pos_unique(keys, "updatedAt"@, 3);
}

proof fn lemma_workspace_entries_has(ws: Seq<char>, convs: Seq<JsonV>, flags: Seq<bool>, ci: int, id: Seq<char>)
    requires
        0 <= ci < convs.len(),
        conv_id(convs[ci]) == Some(id),
    ensures
        exists|h: bool| workspace_entries(ws, convs, flags).contains(#[trigger] session_entry_spec(ws, convs[ci], id, h)),
    decreases convs.len(),
{
    let rest = workspace_entries(ws, convs.drop_last(), flags);
    let c = convs.last();
    let tail = match conv_id(c) {
        Some(i) => seq![session_entry_spec(ws, c, i, flags[conv_ids(convs.drop_last()).len() as int])],
        None => Seq::<JsonV>::empty(),
    };
    assert(workspace_entries(ws, convs, flags) == rest + tail);
    if ci == convs.len() - 1 {
        let h = flags[conv_ids(convs.drop_last()).len() as int];
        assert(tail == seq![session_entry_spec(ws, convs[ci], id, h)]);
        assert((rest + tail)[rest.len() as int] == session_entry_spec(ws, convs[ci], id, h));
    } else {
        assert(convs.drop_last()[ci] == convs[ci]);
        lemma_workspace_entries_has(ws, convs.drop_last(), flags, ci, id);
        let h = choose|h: bool| rest.contains(#[trigger] session_entry_spec(ws, convs[ci], id, h));
        let j = choose|j: int| 0 <= j < rest.len() && rest[j] == session_entry_spec(ws, convs[ci], id, h);
        assert((rest + tail)[j] == rest[j]);
    }
}

proof fn lemma_scan_entries_has(ws: Seq<ScannedWorkspace>, wi: int, e: JsonV)
    requires
        0 <= wi < ws.len(),
        scan_conversations(ws[wi]) matches Some(a) && workspace_entries(ws[wi].hash@, a, ws[wi].has_history@).contains(e),
    ensures
        scan_entries(ws).contains(e),
    decreases ws.len(),
{
    let rest = scan_entries(ws.drop_last());
    let w = ws.last();
    let tail = match scan_conversations(w) {
        Some(a) => workspace_entries(w.hash@, a, w.has_history@),
        None => Seq::<JsonV>::empty(),
    };
    assert(scan_entries(ws) == rest + tail);
    if wi == ws.len() - 1 {
        let j = choose|j: int| 0 <= j < tail.len() && tail[j] == e;
        assert((rest + tail)[rest.len() + j] == e);
    } else {
        assert(ws.drop_last()[wi] == ws[wi]);
        lemma_scan_entries_has(ws.drop_last(), wi, e);
        let j = choose|j: int| 0 <= j < rest.len() && rest[j] == e;
        assert((rest + tail)[j] == e);
    }
}

proof fn lemma_listing_has_entry(
    uid: Seq<char>,
    ws: Seq<ScannedWorkspace>,
    wi: int,
    convs: Seq<JsonV>,
    ci: int,
    id: Seq<char>,
) -> (r: (int, bool))
    requires
        is_safe_uid_spec(uid),
        0 <= wi < ws.len(),
        scan_conversations(ws[wi]) == Some(convs),
        0 <= ci < convs.len(),
        conv_id(convs[ci]) == Some(id),
    ensures
        list_sessions_spec(uid, ws).get("sessions"@) == Some(JsonV::Arr(sort_desc(scan_entries(ws)))),
        0 <= r.0 < sort_desc(scan_entries(ws)).len(),
        sort_desc(scan_entries(ws))[r.0] == session_entry_spec(ws[wi].hash@, convs[ci], id, r.1),
{
    broadcast use vstd::seq_lib::group_to_multiset_ensures;
    reveal_strlit("sourceUid");
    reveal_strlit("sessions");
    reveal_strlit("skipped");
    let keys = seq!["sourceUid"@, "sessions"@, "skipped"@];
    assert(keys[0].len() != keys[1].len());
    lemma_key_pos_unique(keys, "sessions"@, 1);
    let entries = scan_entries(ws);
    let sorted = sort_desc(entries);
    lemma_workspace_entries_has(ws[wi].hash@, convs, ws[wi].has_history@, ci, id);
    let h = choose|h: bool| workspace_entries(ws[wi].hash@, convs, ws[wi].has_history@).contains(
        #[trigger] session_entry_spec(ws[wi].hash@, convs[ci], id, h),
    );
    let e = session_entry_spec(ws[wi].hash@, convs[ci], id, h);
    lemma_scan_entries_has(ws, wi, e);
    law_sessions_sorted(entries);
    assert(entries.to_multiset().count(e) > 0);
    assert(sorted.to_multiset().count(e) > 0);
    assert(sorted.contains(e));
    let j = choose|j: int| 0 <= j < sorted.len() && sorted[j] == e;
    (j, h)
}

/// The listing shows each conversation when it last changed: a conversation
/// with an id, listed in the index of a workspace, has an entry under that
/// id and workspace whose `updatedAt` is the time of its last message, or
/// its creation time where it has no readable last message time.
pub proof fn law_listing_reports_last_activity(
    uid: Seq<char>,
    ws: Seq<ScannedWorkspace>,
    wi: int,
    convs: Seq<JsonV>,
    ci: int,
    id: Seq<char>,
)
    requires
        is_safe_uid_spec(uid),
        0 <= wi < ws.len(),
        ws[wi].index matches Some(ix) && ix@.get("conversations"@) == Some(JsonV::Arr(convs)),
        0 <= ci < convs.len(),
        convs[ci].get_str("id"@) matches Some(x) && trim(x) == id,
        id.len() > 0,
    ensures
        exists|s: Seq<JsonV>, j: int|
            list_sessions_spec(uid, ws).get("sessions"@) == Some(JsonV::Arr(s)) && 0 <= j < s.len()
                && (#[trigger] s[j]).get_str("id"@) == Some(id) && s[j].get_str("workspaceHash"@) == Some(ws[wi].hash@)
                && s[j].get("updatedAt"@) == Some(
                JsonV::Int(
                    if time_to_ms_spec(convs[ci].get("lastMessageAt"@)) > 0 {
                        time_to_ms_spec(convs[ci].get("lastMessageAt"@))
                    } else {
                        time_to_ms_spec(convs[ci].get("createdAt"@))
                    },
                ),
            ),
{
    let (j, h) = lemma_listing_has_entry(uid, ws, wi, convs, ci, id);
    let sorted = sort_desc(scan_entries(ws));
    lemma_session_entry_reads(ws[wi].hash@, convs[ci], id, h);
    let c = convs[ci];
    let t = if time_to_ms_spec(c.get("lastMessageAt"@)) > 0 {
        time_to_ms_spec(c.get("lastMessageAt"@))
    } else {
        time_to_ms_spec(c.get("createdAt"@))
    };
    assert(sorted[j].get("updatedAt"@) == Some(JsonV::Int(t)));
    assert(sorted[j].get_str("id"@) == Some(id) && sorted[j].get_str("workspaceHash"@) == Some(ws[wi].hash@));
}

/// What was found for one item of a copy: whether its source conversation
/// directory exists, whether its workspace has a state, and how its copy
/// went where it was attempted (ignored otherwise).
pub struct ItemProbe {
    pub source_dir_exists: bool,
    pub has_state: bool,
    pub copy: Result<Json, String>,
}

/// How one item of a copy ends: whether it was copied, and its entry in
/// the report. An item is copied exactly when its trimmed ids are 32 hex
/// digits, its source directory exists, its workspace has a state, and its
/// own copy succeeded; otherwise its entry names the reason.
pub open spec fn item_outcome_spec(item: CopyItem, p: ItemProbe) -> (bool, JsonV) {
    match item_ids_spec(item) {
        None => (false, item_error_spec(item.workspace_hash@, item.conversation_id@, "工作区或会话 id 非法"@)),
        Some((ws, conv)) => match source_refusal(ws, conv, p.source_dir_exists, p.has_state) {
            Some(e) => (false, e),
            None => match p.copy {
                Ok(o) => (true, o@),
                Err(e) => (false, item_error_spec(ws, conv, e@)),
            },
        },
    }
}

pub open spec fn item_outcomes(items: Seq<CopyItem>, probes: Seq<ItemProbe>) -> Seq<(bool, JsonV)> {
    Seq::new(items.len(), |i: int| item_outcome_spec(items[i], probes[i]))
}

/// The entries of the copied items, in item order.
pub open spec fn copied_entries(os: Seq<(bool, JsonV)>) -> Seq<JsonV>
    decreases os.len(),
{
    if os.len() == 0 {
        Seq::empty()
    } else if os.last().0 {
        copied_entries(os.drop_last()).push(os.last().1)
    } else {
        copied_entries(os.drop_last())
    }
}

/// The entries of the items not copied, in item order.
pub open spec fn failed_entries(os: Seq<(bool, JsonV)>) -> Seq<JsonV>
    decreases os.len(),
{
    if os.len() == 0 {
        Seq::empty()
    } else if os.last().0 {
        failed_entries(os.drop_last())
    } else {
        failed_entries(os.drop_last()).push(os.last().1)
    }
}

fn item_outcome(item: &CopyItem, p: &ItemProbe) -> (r: (bool, Json))
    ensures
        (r.0, r.1@) == item_outcome_spec(*item, *p),
{
    match check_copy_item(item) {
        Err(e) => (false, e),
        Ok((ws, conv)) => match check_copy_source(ws.as_str(), conv.as_str(), p.source_dir_exists, p.has_state) {
            Some(e) => (false, e),
            None => match &p.copy {
                Ok(o) => (true, o.deep_clone()),
                Err(e) => (false, item_error(ws.as_str(), conv.as_str(), e.as_str())),
            },
        },
    }
}

/// The report of a copy of `items`, one probe per item (see
/// `item_outcome_spec`): the copied items under `copied` and the others
/// under `errors`, each in item order, `errors` only where some item failed.
pub fn copy_items_report(
    source_uid: &str,
    target_uid: &str,
    items: &Vec<CopyItem>,
    probes: &Vec<ItemProbe>,
    backup: &str,
) -> (r: Json)
    requires
        items.len() == probes.len(),
    ensures
        r@ == copy_report_spec(
            source_uid@,
            target_uid@,
            copied_entries(item_outcomes(items@, probes@)),
            failed_entries(item_outcomes(items@, probes@)),
            backup@,
        ),
{
    let ghost os = item_outcomes(items@, probes@);
    let mut copied: Vec<Json> = Vec::new();
    let mut errors: Vec<Json> = Vec::new();
    let mut i: usize = 0;
    assert(os.take(0) =~= Seq::<(bool, JsonV)>::empty());
    assert(arr_view(copied@) =~= Seq::<JsonV>::empty());
    assert(arr_view(errors@) =~= Seq::<JsonV>::empty());
    while i < items.len()
        invariant
            i <= items.len() == probes.len(),
            os == item_outcomes(items@, probes@),
            arr_view(copied@) == copied_entries(os.take(i as int)),
            arr_view(errors@) == failed_entries(os.take(i as int)),
        decreases items.len() - i,
    {
        assert(os.take(i + 1).drop_last() =~= os.take(i as int));
        assert(os.take(i + 1).last() == os[i as int]);
        let (ok, entry) = item_outcome(&items[i], &probes[i]);
        let ghost ev = entry@;
        let ghost cb = copied@;
        let ghost eb = errors@;
        if ok {
            copied.push(entry);
            assert(arr_view(copied@) =~= arr_view(cb).push(ev));
        } else {
            errors.push(entry);
            assert(arr_view(errors@) =~= arr_view(eb).push(ev));
        }
        i += 1;
    }
    assert(os.take(items.len() as int) =~= os);
    copy_report(source_uid, target_uid, copied, errors, backup)
}

proof fn lemma_entries_count(os: Seq<(bool, JsonV)>)
    ensures
        copied_entries(os).len() + failed_entries(os).len() == os.len(),
        copied_entries(os).len() == os.filter(|o: (bool, JsonV)| o.0).len(),
    decreases os.len(),
{
    reveal_with_fuel(Seq::filter, 1);
    if os.len() > 0 {
        lemma_entries_count(os.drop_last());
    }
}

/// Every requested item of a copy is reported exactly once: the copied ones
/// under `copied` (an item is copied exactly when its ids are valid, its
/// source exists, its workspace has a state and its own copy succeeded) and
/// the others under `errors`, which the report holds exactly when some item
/// failed.
pub proof fn law_copy_items_reported(items: Seq<CopyItem>, probes: Seq<ItemProbe>)
    requires
        items.len() == probes.len(),
    ensures
        copied_entries(item_outcomes(items, probes)).len() + failed_entries(item_outcomes(items, probes)).len()
            == items.len(),
        copied_entries(item_outcomes(items, probes)).len() == item_outcomes(items, probes).filter(
            |o: (bool, JsonV)| o.0,
        ).len(),
        failed_entries(item_outcomes(items, probes)).len() == 0 <==> forall|i: int|
            0 <= i < items.len() ==> (#[trigger] item_outcome_spec(items[i], probes[i])).0,
{
    let os = item_outcomes(items, probes);
    lemma_entries_count(os);
    lemma_failed_empty(os);
    assert forall|i: int| 0 <= i < items.len() implies #[trigger] item_outcome_spec(items[i], probes[i]) == os[i] by {}
}

proof fn lemma_failed_empty(os: Seq<(bool, JsonV)>)
    ensures
        failed_entries(os).len() == 0 <==> forall|i: int| 0 <= i < os.len() ==> (#[trigger] os[i]).0,
    decreases os.len(),
{
    if os.len() > 0 {
        lemma_failed_empty(os.drop_last());
        let d = os.drop_last();
        assert(forall|i: int| 0 <= i < d.len() ==> d[i] == os[i]);
        if !os.last().0 {
            assert(!os[os.len() - 1].0);
        }
        if failed_entries(os).len() == 0 {
            assert forall|i: int| 0 <= i < os.len() implies (#[trigger] os[i]).0 by {
                if i < d.len() {
                    assert(d[i] == os[i]);
                }
            }
        }
    }
}

} // verus!
