//! The table of session copies: which source conversation was copied to which
//! target account, under which new conversation id.
//!
//! The table is a JSON document `{"version": 1, "copies": [...]}`; each entry
//! names `sourceUid`, `sourceCid`, `targetUid`, `targetCid` and `copiedAt`.

use vstd::prelude::*;
use crate::json::{lemma_set_get, arr_view, keys_view, lemma_arr_view, lemma_obj_view, vals_view, Json, JsonV};
use crate::paths::FsPath;
use crate::text::{opt_text, own, str_equal, texts};
use crate::ids::contains_string;

verus! {

/// The elements of `s` that `f` keeps, in order.
pub open spec fn keep(s: Seq<JsonV>, f: spec_fn(JsonV) -> bool) -> Seq<JsonV>
    decreases s.len(),
{
    if s.len() == 0 {
        s
    } else if f(s.last()) {
        keep(s.drop_last(), f).push(s.last())
    } else {
        keep(s.drop_last(), f)
    }
}

pub proof fn lemma_keep_members(s: Seq<JsonV>, f: spec_fn(JsonV) -> bool)
    ensures
        forall|i: int|
            0 <= i < keep(s, f).len() ==> f(#[trigger] keep(s, f)[i]) && s.contains(keep(s, f)[i]),
    decreases s.len(),
{
    if s.len() > 0 {
        lemma_keep_members(s.drop_last(), f);
        assert forall|i: int| 0 <= i < keep(s, f).len() implies f(#[trigger] keep(s, f)[i]) && s.contains(keep(s, f)[i]) by {
            if i < keep(s.drop_last(), f).len() {
                let j = choose|j: int| 0 <= j < s.drop_last().len() && s.drop_last()[j] == keep(s.drop_last(), f)[i];
                assert(s[j] == keep(s, f)[i]);
            } else {
                assert(s[s.len() - 1] == keep(s, f)[i]);
            }
        }
    }
}

/// The list of copies of a table (`map["copies"].as_array()`), empty where
/// there is none.
pub open spec fn copies_of(map: JsonV) -> Seq<JsonV> {
    match map.get("copies"@) {
        Some(JsonV::Arr(a)) => a,
        _ => Seq::empty(),
    }
}

/// The source conversation of the first copy, in list order, whose target
/// conversation is `cid` and whose source is a string.
pub open spec fn parent_of(copies: Seq<JsonV>, cid: Seq<char>) -> Option<Seq<char>>
    decreases copies.len(),
{
    if copies.len() == 0 {
        None
    } else {
        match parent_of(copies.drop_last(), cid) {
            Some(p) => Some(p),
            None => {
                let c = copies.last();
                if c.get_str("targetCid"@) == Some(cid) {
                    c.get_str("sourceCid"@)
                } else {
                    None
                }
            },
        }
    }
}

/// The conversation reached from `cid` by following the copy chain back
/// towards its source, at most `n` steps.
pub open spec fn root_steps(copies: Seq<JsonV>, cid: Seq<char>, n: nat) -> Seq<char>
    decreases n,
{
    if n == 0 {
        cid
    } else {
        match parent_of(copies, cid) {
            Some(p) => root_steps(copies, p, (n - 1) as nat),
            None => cid,
        }
    }
}

/// The root conversation of `cid`: the chain is followed at most 32 steps,
/// which also ends any cycle in a damaged table.
pub open spec fn root_spec(map: JsonV, cid: Seq<char>) -> Seq<char> {
    root_steps(copies_of(map), cid, 32)
}

/// What `find_copy` reads in copy `c`: its target conversation where `c`
/// records a copy of the same source (the same conversation, or one with the
/// same non-empty root) from `su` to `tu`.
pub open spec fn copy_hit(
    copies: Seq<JsonV>,
    c: JsonV,
    su: Seq<char>,
    sc: Seq<char>,
    tu: Seq<char>,
) -> Option<Seq<char>> {
    let scid = c.get_str("sourceCid"@);
    let c_root = root_steps(
        copies,
        match scid {
            Some(s) => s,
            None => Seq::empty(),
        },
        32,
    );
    let same_source = scid == Some(sc) || (c_root.len() > 0 && c_root == root_steps(copies, sc, 32));
    if same_source && c.get_str("sourceUid"@) == Some(su) && c.get_str("targetUid"@) == Some(tu) {
        c.get_str("targetCid"@)
    } else {
        None
    }
}

/// The first hit among `prefix`, in order.
pub open spec fn first_hit(
    copies: Seq<JsonV>,
    prefix: Seq<JsonV>,
    su: Seq<char>,
    sc: Seq<char>,
    tu: Seq<char>,
) -> Option<Seq<char>>
    decreases prefix.len(),
{
    if prefix.len() == 0 {
        None
    } else {
        match first_hit(copies, prefix.drop_last(), su, sc, tu) {
            Some(t) => Some(t),
            None => copy_hit(copies, prefix.last(), su, sc, tu),
        }
    }
}

/// What `find_copy` reads in copy `c` when looking for a copy back: the
/// source conversation of `c` where `c` records a copy from `tu` to `su` of
/// a conversation with the same root as `sc` (so `sc` descends from a copy
/// that already exists in `tu`'s account).
pub open spec fn back_hit(
    copies: Seq<JsonV>,
    c: JsonV,
    su: Seq<char>,
    sc: Seq<char>,
    tu: Seq<char>,
) -> Option<Seq<char>> {
    match c.get_str("sourceCid"@) {
        Some(s) => if c.get_str("sourceUid"@) == Some(tu) && c.get_str("targetUid"@) == Some(su)
            && root_steps(copies, s, 32) == root_steps(copies, sc, 32) {
            Some(s)
        } else {
            None
        },
        None => None,
    }
}

/// The first copy back among `prefix`, in order.
pub open spec fn first_back(
    copies: Seq<JsonV>,
    prefix: Seq<JsonV>,
    su: Seq<char>,
    sc: Seq<char>,
    tu: Seq<char>,
) -> Option<Seq<char>>
    decreases prefix.len(),
{
    if prefix.len() == 0 {
        None
    } else {
        match first_back(copies, prefix.drop_last(), su, sc, tu) {
            Some(t) => Some(t),
            None => back_hit(copies, prefix.last(), su, sc, tu),
        }
    }
}

/// The conversation that `find_copy` reports: the target of the first copy
/// of the same source from `su` to `tu`; failing that, where `sc` descends
/// from a copy made from `tu` to `su`, that copy's source conversation (the
/// copy back is caught through the root).
pub open spec fn find_copy_spec(map: JsonV, su: Seq<char>, sc: Seq<char>, tu: Seq<char>) -> Option<
    Seq<char>,
> {
    match first_hit(copies_of(map), copies_of(map), su, sc, tu) {
        Some(t) => Some(t),
        None => first_back(copies_of(map), copies_of(map), su, sc, tu),
    }
}

/// Copy `c` records the path `(su, sc, tu)`.
pub open spec fn same_path(c: JsonV, su: Seq<char>, sc: Seq<char>, tu: Seq<char>) -> bool {
    &&& c.get_str("sourceUid"@) == Some(su)
    &&& c.get_str("sourceCid"@) == Some(sc)
    &&& c.get_str("targetUid"@) == Some(tu)
}

pub open spec fn other_path(su: Seq<char>, sc: Seq<char>, tu: Seq<char>) -> spec_fn(JsonV) -> bool {
    |c: JsonV| !same_path(c, su, sc, tu)
}

pub open spec fn copy_entry_spec(
    su: Seq<char>,
    sc: Seq<char>,
    tu: Seq<char>,
    tc: Seq<char>,
    at: int,
) -> JsonV {
    JsonV::Obj(
        seq!["sourceUid"@, "sourceCid"@, "targetUid"@, "targetCid"@, "copiedAt"@],
        seq![JsonV::Str(su), JsonV::Str(sc), JsonV::Str(tu), JsonV::Str(tc), JsonV::Int(at)],
    )
}

pub open spec fn empty_obj() -> JsonV {
    JsonV::Obj(Seq::empty(), Seq::empty())
}

/// `Null` read as an empty object, as `value[key]` does.
pub open spec fn obj_or_empty(m: JsonV) -> JsonV {
    if m is Null {
        empty_obj()
    } else {
        m
    }
}

/// The table after `map["copies"]` is written to through `f`, as
/// `map["copies"].as_array_mut()` does: an array is replaced by `f` of it, an
/// absent list becomes `null`, any other value stays.
pub open spec fn update_copies(m: JsonV, f: spec_fn(Seq<JsonV>) -> Seq<JsonV>) -> JsonV {
    let m0 = obj_or_empty(m);
    match m0.get("copies"@) {
        Some(JsonV::Arr(a)) => m0.set("copies"@, JsonV::Arr(f(a))),
        Some(_) => m0,
        None => m0.set("copies"@, JsonV::Null),
    }
}

/// The table after recording the copy `(su, sc) -> (tu, tc)` at `at`: older
/// records of the same path leave, the new one goes last.
pub open spec fn record_copy_spec(
    m: JsonV,
    su: Seq<char>,
    sc: Seq<char>,
    tu: Seq<char>,
    tc: Seq<char>,
    at: int,
) -> JsonV {
    update_copies(
        m,
        |a: Seq<JsonV>| keep(a, other_path(su, sc, tu)).push(copy_entry_spec(su, sc, tu, tc, at)),
    )
}

/// Copy `c` stays when its target is a string outside `targets`.
pub open spec fn target_kept(c: JsonV, targets: Seq<Seq<char>>) -> bool {
    match c.get_str("targetCid"@) {
        Some(t) => !targets.contains(t),
        None => false,
    }
}

pub open spec fn kept_target(targets: Seq<Seq<char>>) -> spec_fn(JsonV) -> bool {
    |c: JsonV| target_kept(c, targets)
}

/// The table after removing every copy whose target is among `targets`
/// (and every copy without a string target); nothing happens for no targets.
pub open spec fn remove_copies_spec(m: JsonV, targets: Seq<Seq<char>>) -> JsonV {
    if targets.len() == 0 {
        m
    } else {
        update_copies(m, |a: Seq<JsonV>| keep(a, kept_target(targets)))
    }
}

/// The table of a new store: `{"version": 1, "copies": []}`.
pub open spec fn empty_map_spec() -> JsonV {
    JsonV::Obj(seq!["version"@, "copies"@], seq![JsonV::Int(1), JsonV::Arr(Seq::empty())])
}

/// The file of the table, `copy-map.json` in the tool's store directory.
pub fn copy_map_file(store_dir: &FsPath) -> (r: FsPath)
    ensures
        r@ == store_dir@.push("copy-map.json"@),
{
    store_dir.join("copy-map.json")
}

/// The table of a new store.
pub fn empty_map() -> (r: Json)
    ensures
        r@ == empty_map_spec(),
{
    let mut v: Vec<(String, Json)> = Vec::new();
    let empty: Vec<Json> = Vec::new();
    proof {
        lemma_arr_view(empty);
        assert(arr_view(empty@) =~= Seq::<JsonV>::empty());
    }
    v.push((own("version"), Json::Int(1)));
    v.push((own("copies"), Json::Arr(empty)));
    proof {
        lemma_obj_view(v);
        assert(keys_view(v@) =~= seq!["version"@, "copies"@]);
        assert(vals_view(v@) =~= seq![JsonV::Int(1), JsonV::Arr(Seq::empty())]);
    }
    Json::Obj(v)
}

/// The list of copies of a table, where it is an array.
fn copies_in(map: &Json) -> (r: Option<&Vec<Json>>)
    ensures
        match r {
            Some(v) => copies_of(map@) == arr_view(v@) && map@.get("copies"@) == Some(
                JsonV::Arr(arr_view(v@)),
            ),
            None => copies_of(map@) == Seq::<JsonV>::empty() && !(map@.get("copies"@) matches Some(
                JsonV::Arr(_),
            )),
        },
{
    match map.get("copies") {
        Some(c) => c.as_array(),
        None => None,
    }
}

/// The parent of `cid` among `copies` (see `parent_of`).
fn parent_cid(copies: &Vec<Json>, cid: &str) -> (r: Option<String>)
    ensures
        opt_text(r) == parent_of(arr_view(copies@), cid@),
{
    let ghost s = arr_view(copies@);
    let mut i: usize = 0;
    assert(s.take(0) =~= Seq::<JsonV>::empty());
    while i < copies.len()
        invariant
            i <= copies.len(),
            s == arr_view(copies@),
            parent_of(s.take(i as int), cid@) is None,
        decreases copies.len() - i,
    {
        let c = &copies[i];
        assert(s.take(i + 1).drop_last() =~= s.take(i as int));
        assert(s.take(i + 1).last() == c@);
        match c.get_str("targetCid") {
            Some(t) => {
                if str_equal(t.as_str(), cid) {
                    match c.get_str("sourceCid") {
                        Some(p) => {
                            let r = p.clone();
                            proof {
                                lemma_parent_of_prefix(s, i as int + 1, cid@);
                            }
                            return Some(r);
                        },
                        None => {},
                    }
                }
            },
            None => {},
        }
        i += 1;
    }
    assert(s.take(copies.len() as int) =~= s);
    None
}

/// Once a prefix of the list finds a parent, the whole list finds the same.
proof fn lemma_parent_of_prefix(s: Seq<JsonV>, j: int, cid: Seq<char>)
    requires
        0 <= j <= s.len(),
        parent_of(s.take(j), cid) is Some,
    ensures
        parent_of(s, cid) == parent_of(s.take(j), cid),
    decreases s.len() - j,
{
    if j < s.len() {
        assert(s.take(j + 1).drop_last() =~= s.take(j));
        lemma_parent_of_prefix(s, j + 1, cid);
    } else {
        assert(s.take(j) =~= s);
    }
}

/// Once a prefix of the list has a hit, the whole list has the same.
proof fn lemma_first_hit_prefix(
    copies: Seq<JsonV>,
    s: Seq<JsonV>,
    j: int,
    su: Seq<char>,
    sc: Seq<char>,
    tu: Seq<char>,
)
    requires
        0 <= j <= s.len(),
        first_hit(copies, s.take(j), su, sc, tu) is Some,
    ensures
        first_hit(copies, s, su, sc, tu) == first_hit(copies, s.take(j), su, sc, tu),
    decreases s.len() - j,
{
    if j < s.len() {
        assert(s.take(j + 1).drop_last() =~= s.take(j));
        lemma_first_hit_prefix(copies, s, j + 1, su, sc, tu);
    } else {
        assert(s.take(j) =~= s);
    }
}

proof fn lemma_first_back_prefix(
    copies: Seq<JsonV>,
    s: Seq<JsonV>,
    j: int,
    su: Seq<char>,
    sc: Seq<char>,
    tu: Seq<char>,
)
    requires
        0 <= j <= s.len(),
        first_back(copies, s.take(j), su, sc, tu) is Some,
    ensures
        first_back(copies, s, su, sc, tu) == first_back(copies, s.take(j), su, sc, tu),
    decreases s.len() - j,
{
    if j < s.len() {
        assert(s.take(j + 1).drop_last() =~= s.take(j));
        lemma_first_back_prefix(copies, s, j + 1, su, sc, tu);
    } else {
        assert(s.take(j) =~= s);
    }
}

/// The root of `cid` among `copies` (see `root_steps`).
fn root_in(copies: &Vec<Json>, cid: &str) -> (r: String)
    ensures
        r@ == root_steps(arr_view(copies@), cid@, 32),
{
    let ghost s = arr_view(copies@);
    let mut current = own(cid);
    let mut steps: usize = 0;
    while steps < 32
        invariant
            steps <= 32,
            s == arr_view(copies@),
            root_steps(s, cid@, 32) == root_steps(s, current@, (32 - steps) as nat),
        decreases 32 - steps,
    {
        match parent_cid(copies, current.as_str()) {
            Some(p) => {
                current = p;
            },
            None => {
                return current;
            },
        }
        steps += 1;
    }
    current
}

/// The root conversation of `cid` in table `map`: the copy chain is followed
/// back towards its source, at most 32 steps.
pub fn root_cid(map: &Json, cid: &str) -> (r: String)
    ensures
        r@ == root_spec(map@, cid@),
{
    match copies_in(map) {
        Some(copies) => root_in(copies, cid),
        None => {
            let r = own(cid);
            proof {
                let e = Seq::<JsonV>::empty();
                assert(parent_of(e, cid@) is None);
                assert(root_steps(e, cid@, 32) == cid@);
            }
            r
        },
    }
}

fn copy_hit_exec(
    copies: &Vec<Json>,
    c: &Json,
    su: &str,
    sc: &str,
    tu: &str,
    root: &String,
) -> (r: Option<String>)
    requires
        root@ == root_steps(arr_view(copies@), sc@, 32),
    ensures
        opt_text(r) == copy_hit(arr_view(copies@), c@, su@, sc@, tu@),
{
    let scid = c.get_str("sourceCid");
    let c_root = match scid {
        Some(x) => root_in(copies, x.as_str()),
        None => root_in(copies, ""),
    };
    proof {
        if scid is None {
            assert(""@ =~= Seq::<char>::empty()) by {
                reveal_strlit("");
            }
        }
    }
    let same_source = match scid {
        Some(x) => str_equal(x.as_str(), sc),
        None => false,
    } || (!c_root.as_str().is_empty() && str_equal(c_root.as_str(), root.as_str()));
    if !same_source {
        return None;
    }
    match c.get_str("sourceUid") {
        Some(u) => {
            if !str_equal(u.as_str(), su) {
                return None;
            }
        },
        None => {
            return None;
        },
    }
    match c.get_str("targetUid") {
        Some(u) => {
            if !str_equal(u.as_str(), tu) {
                return None;
            }
        },
        None => {
            return None;
        },
    }
    match c.get_str("targetCid") {
        Some(t) => Some(t.clone()),
        None => None,
    }
}

fn back_hit_exec(
    copies: &Vec<Json>,
    c: &Json,
    su: &str,
    tu: &str,
    root: &String,
    Ghost(sc): Ghost<Seq<char>>,
) -> (r: Option<String>)
    requires
        root@ == root_steps(arr_view(copies@), sc, 32),
    ensures
        opt_text(r) == back_hit(arr_view(copies@), c@, su@, sc, tu@),
{
    let scid = match c.get_str("sourceCid") {
        Some(x) => x,
        None => {
            return None;
        },
    };
    match c.get_str("sourceUid") {
        Some(u) => {
            if !str_equal(u.as_str(), tu) {
                return None;
            }
        },
        None => {
            return None;
        },
    }
    match c.get_str("targetUid") {
        Some(u) => {
            if !str_equal(u.as_str(), su) {
                return None;
            }
        },
        None => {
            return None;
        },
    }
    let c_root = root_in(copies, scid.as_str());
    if str_equal(c_root.as_str(), root.as_str()) {
        Some(scid.clone())
    } else {
        None
    }
}

/// Whether `(source_uid, source_cid)` was already copied to `target_uid`
/// (see `find_copy_spec`): the target conversation of the first copy of the
/// same source (the same conversation, or one with the same root) from
/// `source_uid` to `target_uid`; else, for a copy back, the source
/// conversation of the first copy from `target_uid` to `source_uid` with the
/// same root. The caller still checks that this conversation exists.
pub fn find_copy(map: &Json, source_uid: &str, source_cid: &str, target_uid: &str) -> (r: Option<String>)
    ensures
        opt_text(r) == find_copy_spec(map@, source_uid@, source_cid@, target_uid@),
{
    let copies = match copies_in(map) {
        Some(c) => c,
        None => {
            return None;
        },
    };
    let ghost s = arr_view(copies@);
    let root = root_in(copies, source_cid);
    let mut i: usize = 0;
    assert(s.take(0) =~= Seq::<JsonV>::empty());
    while i < copies.len()
        invariant
            i <= copies.len(),
            s == arr_view(copies@),
            s == copies_of(map@),
            root@ == root_steps(s, source_cid@, 32),
            first_hit(s, s.take(i as int), source_uid@, source_cid@, target_uid@) is None,
        decreases copies.len() - i,
    {
        let hit = copy_hit_exec(copies, &copies[i], source_uid, source_cid, target_uid, &root);
        assert(s.take(i + 1).drop_last() =~= s.take(i as int));
        assert(s.take(i + 1).last() == copies@[i as int]@);
        match hit {
            Some(t) => {
                proof {
                    lemma_first_hit_prefix(s, s, i + 1, source_uid@, source_cid@, target_uid@);
                }
                return Some(t);
            },
            None => {},
        }
        i += 1;
    }
    assert(s.take(copies.len() as int) =~= s);
    let mut i: usize = 0;
    assert(s.take(0) =~= Seq::<JsonV>::empty());
    while i < copies.len()
        invariant
            i <= copies.len(),
            s == arr_view(copies@),
            s == copies_of(map@),
            root@ == root_steps(s, source_cid@, 32),
            first_hit(s, s, source_uid@, source_cid@, target_uid@) is None,
            first_back(s, s.take(i as int), source_uid@, source_cid@, target_uid@) is None,
        decreases copies.len() - i,
    {
        let hit = back_hit_exec(copies, &copies[i], source_uid, target_uid, &root, Ghost(source_cid@));
        assert(s.take(i + 1).drop_last() =~= s.take(i as int));
        assert(s.take(i + 1).last() == copies@[i as int]@);
        match hit {
            Some(t) => {
                proof {
                    lemma_first_back_prefix(s, s, i + 1, source_uid@, source_cid@, target_uid@);
                }
                return Some(t);
            },
            None => {},
        }
        i += 1;
    }
    assert(s.take(copies.len() as int) =~= s);
    None
}

/// The elements of `copies` that `f` keeps, copied.
fn keep_exec_paths(copies: &Vec<Json>, su: &str, sc: &str, tu: &str) -> (r: Vec<Json>)
    ensures
        arr_view(r@) == keep(arr_view(copies@), other_path(su@, sc@, tu@)),
{
    let ghost s = arr_view(copies@);
    let ghost f = other_path(su@, sc@, tu@);
    let mut out: Vec<Json> = Vec::new();
    let mut i: usize = 0;
    assert(s.take(0) =~= Seq::<JsonV>::empty());
    while i < copies.len()
        invariant
            i <= copies.len(),
            s == arr_view(copies@),
            f == other_path(su@, sc@, tu@),
            arr_view(out@) == keep(s.take(i as int), f),
        decreases copies.len() - i,
    {
        let c = &copies[i];
        let same = match (c.get_str("sourceUid"), c.get_str("sourceCid"), c.get_str("targetUid")) {
            (Some(a), Some(b), Some(d)) => str_equal(a.as_str(), su) && str_equal(b.as_str(), sc)
                && str_equal(d.as_str(), tu),
            _ => false,
        };
        assert(s.take(i + 1).drop_last() =~= s.take(i as int));
        assert(s.take(i + 1).last() == c@);
        let ghost before = out@;
        if !same {
            out.push(c.deep_clone());
            assert(arr_view(out@) =~= arr_view(before).push(c@));
        }
        i += 1;
    }
    assert(s.take(copies.len() as int) =~= s);
    out
}

fn keep_exec_targets(copies: &Vec<Json>, targets: &Vec<String>) -> (r: Vec<Json>)
    ensures
        arr_view(r@) == keep(arr_view(copies@), kept_target(texts(targets@))),
{
    let ghost s = arr_view(copies@);
    let ghost f = kept_target(texts(targets@));
    let mut out: Vec<Json> = Vec::new();
    let mut i: usize = 0;
    assert(s.take(0) =~= Seq::<JsonV>::empty());
    while i < copies.len()
        invariant
            i <= copies.len(),
            s == arr_view(copies@),
            f == kept_target(texts(targets@)),
            arr_view(out@) == keep(s.take(i as int), f),
        decreases copies.len() - i,
    {
        let c = &copies[i];
        let stays = match c.get_str("targetCid") {
            Some(t) => {
                let found = contains_string(targets, t.as_str());
                proof {
                    if found {
                        let j = choose|j: int| 0 <= j < targets.len() && targets@[j]@ == t@;
                        assert(texts(targets@)[j] == t@);
                    } else {
                        assert forall|j: int| 0 <= j < texts(targets@).len() implies texts(targets@)[j] != t@ by {
                            assert(targets@[j]@ != t@);
                        }
                    }
                }
                !found
            },
            None => false,
        };
        assert(s.take(i + 1).drop_last() =~= s.take(i as int));
        assert(s.take(i + 1).last() == c@);
        let ghost before = out@;
        if stays {
            out.push(c.deep_clone());
            assert(arr_view(out@) =~= arr_view(before).push(c@));
        }
        i += 1;
    }
    assert(s.take(copies.len() as int) =~= s);
    out
}

fn copy_entry(su: &str, sc: &str, tu: &str, tc: &str, at: i64) -> (r: Json)
    ensures
        r@ == copy_entry_spec(su@, sc@, tu@, tc@, at as int),
{
    let mut v: Vec<(String, Json)> = Vec::new();
    v.push((own("sourceUid"), Json::string(su)));
    v.push((own("sourceCid"), Json::string(sc)));
    v.push((own("targetUid"), Json::string(tu)));
    v.push((own("targetCid"), Json::string(tc)));
    v.push((own("copiedAt"), Json::Int(at)));
    proof {
        lemma_obj_view(v);
        assert(keys_view(v@) =~= seq!["sourceUid"@, "sourceCid"@, "targetUid"@, "targetCid"@, "copiedAt"@]);
        assert(vals_view(v@) =~= seq![JsonV::Str(su@), JsonV::Str(sc@), JsonV::Str(tu@), JsonV::Str(tc@), JsonV::Int(at as int)]);
    }
    Json::Obj(v)
}

/// Records the copy `(source_uid, source_cid) -> (target_uid, target_cid)`
/// made at `copied_at`: an older record of the same path leaves and the new
/// one goes last.
pub fn record_copy_at(
    map: &mut Json,
    source_uid: &str,
    source_cid: &str,
    target_uid: &str,
    target_cid: &str,
    copied_at: i64,
)
    requires
        old(map)@.is_object() || old(map)@ is Null,
    ensures
        final(map)@ == record_copy_spec(old(map)@, source_uid@, source_cid@, target_uid@, target_cid@, copied_at as int),
{
    if !map.is_object() {
        *map = Json::empty_object();
    }
    match map.get("copies") {
        None => {
            map.insert("copies", Json::Null);
        },
        Some(c) => {
            match c.as_array() {
                Some(a) => {
                    let mut kept = keep_exec_paths(a, source_uid, source_cid, target_uid);
                    let ghost before = kept@;
                    kept.push(copy_entry(source_uid, source_cid, target_uid, target_cid, copied_at));
                    assert(arr_view(kept@) =~= arr_view(before).push(
                        copy_entry_spec(source_uid@, source_cid@, target_uid@, target_cid@, copied_at as int),
                    ));
                    proof {
                        lemma_arr_view(kept);
                    }
                    map.insert("copies", Json::Arr(kept));
                },
                None => {},
            }
        },
    }
}

/// Records the copy `(source_uid, source_cid) -> (target_uid, target_cid)`
/// as made now (see `record_copy_at`); where the clock cannot be read the
/// table stays as it is and the answer is false.
pub fn record_copy(
    map: &mut Json,
    source_uid: &str,
    source_cid: &str,
    target_uid: &str,
    target_cid: &str,
) -> (recorded: bool)
    requires
        old(map)@.is_object() || old(map)@ is Null,
    ensures
        recorded ==> exists|at: i64|
            at >= 0 && final(map)@ == record_copy_spec(
                old(map)@,
                source_uid@,
                source_cid@,
                target_uid@,
                target_cid@,
                at as int,
            ),
        !recorded ==> final(map)@ == old(map)@,
{
    match crate::time::current_time_ms() {
        Some(at) => {
            record_copy_at(map, source_uid, source_cid, target_uid, target_cid, at);
            true
        },
        None => false,
    }
}

/// Removes the copies whose target conversation is among `target_cids`
/// (after those conversations were deleted); copies without a string target
/// leave too. Nothing changes for an empty list.
pub fn remove_copies_for_target(map: &mut Json, target_cids: &Vec<String>)
    requires
        target_cids.len() == 0 || old(map)@.is_object() || old(map)@ is Null,
    ensures
        final(map)@ == remove_copies_spec(old(map)@, texts(target_cids@)),
{
    if target_cids.len() == 0 {
        return;
    }
    if !map.is_object() {
        *map = Json::empty_object();
    }
    match map.get("copies") {
        None => {
            map.insert("copies", Json::Null);
        },
        Some(c) => {
            match c.as_array() {
                Some(a) => {
                    let kept = keep_exec_targets(a, target_cids);
                    proof {
                        lemma_arr_view(kept);
                    }
                    map.insert("copies", Json::Arr(kept));
                },
                None => {},
            }
        },
    }
}

proof fn lemma_no_hit(copies: Seq<JsonV>, p: Seq<JsonV>, su: Seq<char>, sc: Seq<char>, tu: Seq<char>)
    requires
        forall|i: int| 0 <= i < p.len() ==> copy_hit(copies, #[trigger] p[i], su, sc, tu) is None,
    ensures
        first_hit(copies, p, su, sc, tu) is None,
    decreases p.len(),
{
    if p.len() > 0 {
        assert forall|i: int| 0 <= i < p.drop_last().len() implies copy_hit(copies, #[trigger] p.drop_last()[i], su, sc, tu) is None by {
            assert(p.drop_last()[i] == p[i]);
        }
        lemma_no_hit(copies, p.drop_last(), su, sc, tu);
    }
}

proof fn lemma_hit_member(copies: Seq<JsonV>, p: Seq<JsonV>, su: Seq<char>, sc: Seq<char>, tu: Seq<char>)
    ensures
        first_hit(copies, p, su, sc, tu) matches Some(t) ==> exists|i: int|
            0 <= i < p.len() && copy_hit(copies, #[trigger] p[i], su, sc, tu) == Some(t),
    decreases p.len(),
{
    if p.len() > 0 {
        lemma_hit_member(copies, p.drop_last(), su, sc, tu);
        if let Some(t) = first_hit(copies, p.drop_last(), su, sc, tu) {
            let i = choose|i: int| 0 <= i < p.drop_last().len() && copy_hit(copies, #[trigger] p.drop_last()[i], su, sc, tu) == Some(t);
            assert(p[i] == p.drop_last()[i]);
        }
    }
}

/// The keys of a copy record are five different names.
proof fn lemma_copy_entry_reads(su: Seq<char>, sc: Seq<char>, tu: Seq<char>, tc: Seq<char>, at: int)
    ensures
        copy_entry_spec(su, sc, tu, tc, at).get_str("sourceUid"@) == Some(su),
        copy_entry_spec(su, sc, tu, tc, at).get_str("sourceCid"@) == Some(sc),
        copy_entry_spec(su, sc, tu, tc, at).get_str("targetUid"@) == Some(tu),
        copy_entry_spec(su, sc, tu, tc, at).get_str("targetCid"@) == Some(tc),
{
    reveal_strlit("sourceUid");
    reveal_strlit("sourceCid");
    reveal_strlit("targetUid");
    reveal_strlit("targetCid");
    reveal_strlit("copiedAt");
    let keys = seq!["sourceUid"@, "sourceCid"@, "targetUid"@, "targetCid"@, "copiedAt"@];
    assert(keys[0][6] != keys[1][6]);
    assert(keys[0][0] != keys[2][0]);
    assert(keys[0][0] != keys[3][0]);
    assert(keys[1][0] != keys[2][0]);
    assert(keys[1][0] != keys[3][0]);
    assert(keys[2][6] != keys[3][6]);
    crate::json::lemma_key_pos_unique(keys, "sourceUid"@, 0);
    crate::json::lemma_key_pos_unique(keys, "sourceCid"@, 1);
    crate::json::lemma_key_pos_unique(keys, "targetUid"@, 2);
    crate::json::lemma_key_pos_unique(keys, "targetCid"@, 3);
}

/// A recorded copy is found again: after recording `(su, sc) -> (tu, tc)` in
/// a table whose list of copies is an array and whose copies from `su` to
/// `tu` all come from `sc`, asking whether `(su, sc)` was copied to `tu`
/// answers `tc`.
pub proof fn law_recorded_copy_is_found(
    m: JsonV,
    su: Seq<char>,
    sc: Seq<char>,
    tu: Seq<char>,
    tc: Seq<char>,
    at: int,
)
    requires
        m.wf_obj(),
        m.get("copies"@) matches Some(JsonV::Arr(a)) && forall|i: int|
            0 <= i < a.len() && (#[trigger] a[i]).get_str("sourceUid"@) == Some(su) && a[i].get_str(
                "targetUid"@,
            ) == Some(tu) ==> a[i].get_str("sourceCid"@) == Some(sc),
    ensures
        find_copy_spec(record_copy_spec(m, su, sc, tu, tc, at), su, sc, tu) == Some(tc),
{
    let a = m.get("copies"@)->Some_0->Arr_0;
    let f = other_path(su, sc, tu);
    let k = keep(a, f);
    let e = copy_entry_spec(su, sc, tu, tc, at);
    let m2 = record_copy_spec(m, su, sc, tu, tc, at);
    assert(m2 == m.set("copies"@, JsonV::Arr(k.push(e))));
    lemma_set_get(m, "copies"@, JsonV::Arr(k.push(e)), "copies"@);
    let c2 = k.push(e);
    assert(copies_of(m2) == c2);
    lemma_keep_members(a, f);
    lemma_copy_entry_reads(su, sc, tu, tc, at);
    assert forall|i: int| 0 <= i < k.len() implies copy_hit(c2, #[trigger] k[i], su, sc, tu) is None by {
        assert(f(k[i]));
        let j = choose|j: int| 0 <= j < a.len() && a[j] == k[i];
        assert(a[j] == k[i]);
    }
    lemma_no_hit(c2, k, su, sc, tu);
    assert(c2.drop_last() =~= k);
}

proof fn lemma_back_member(copies: Seq<JsonV>, p: Seq<JsonV>, su: Seq<char>, sc: Seq<char>, tu: Seq<char>)
    ensures
        first_back(copies, p, su, sc, tu) matches Some(t) ==> exists|i: int|
            0 <= i < p.len() && (#[trigger] p[i]).get_str("sourceCid"@) == Some(t),
    decreases p.len(),
{
    if p.len() > 0 {
        lemma_back_member(copies, p.drop_last(), su, sc, tu);
        if let Some(t) = first_back(copies, p.drop_last(), su, sc, tu) {
            let i = choose|i: int| 0 <= i < p.drop_last().len() && (#[trigger] p.drop_last()[i]).get_str("sourceCid"@) == Some(t);
            assert(p[i] == p.drop_last()[i]);
        } else if let Some(t) = back_hit(copies, p.last(), su, sc, tu) {
            assert(p[p.len() - 1] == p.last());
        }
    }
}

/// A removed target is never reported again: after removing the copies
/// whose target is among `targets` (not empty), asking for any copy never
/// answers one of `targets`, where none of `targets` is itself the source
/// of a recorded copy.
pub proof fn law_removed_target_not_found(
    m: JsonV,
    targets: Seq<Seq<char>>,
    su: Seq<char>,
    sc: Seq<char>,
    tu: Seq<char>,
)
    requires
        m.wf_obj() || m is Null,
        targets.len() > 0,
        forall|i: int|
            0 <= i < copies_of(m).len() ==> ((#[trigger] copies_of(m)[i]).get_str("sourceCid"@) matches Some(x)
                ==> !targets.contains(x)),
    ensures
        find_copy_spec(remove_copies_spec(m, targets), su, sc, tu) matches Some(t) ==> !targets.contains(t),
{
    let m0 = obj_or_empty(m);
    let m2 = remove_copies_spec(m, targets);
    let c2 = copies_of(m2);
    lemma_hit_member(c2, c2, su, sc, tu);
    lemma_back_member(c2, c2, su, sc, tu);
    match m0.get("copies"@) {
        Some(JsonV::Arr(a)) => {
            let f = kept_target(targets);
            lemma_set_get(m0, "copies"@, JsonV::Arr(keep(a, f)), "copies"@);
            assert(c2 == keep(a, f));
            lemma_keep_members(a, f);
            assert(copies_of(m) == a);
            match first_hit(c2, c2, su, sc, tu) {
                Some(t) => {
                    let i = choose|i: int| 0 <= i < c2.len() && copy_hit(c2, #[trigger] c2[i], su, sc, tu) == Some(t);
                    assert(f(c2[i]));
                },
                None => {
                    if let Some(t) = first_back(c2, c2, su, sc, tu) {
                        let i = choose|i: int| 0 <= i < c2.len() && (#[trigger] c2[i]).get_str("sourceCid"@) == Some(t);
                        assert(a.contains(c2[i]));
                        let j = choose|j: int| 0 <= j < a.len() && a[j] == c2[i];
                        assert(copies_of(m)[j] == c2[i]);
                    }
                },
            }
        },
        Some(_) => {},
        None => {
            lemma_set_get(m0, "copies"@, JsonV::Null, "copies"@);
        },
    }
}

/// A copy back is caught: after a copy `(su, sc) -> (tu, tc)` is recorded in
/// a new table, asking whether `tu`'s copy `tc` was already copied to `su`
/// answers `sc`, the conversation it came from.
pub proof fn law_copy_back_is_found(su: Seq<char>, sc: Seq<char>, tu: Seq<char>, tc: Seq<char>, at: int)
    requires
        su != tu,
        sc != tc,
    ensures
        find_copy_spec(record_copy_spec(empty_map_spec(), su, sc, tu, tc, at), tu, tc, su) == Some(sc),
{
    let m = empty_map_spec();
    reveal_strlit("version");
    reveal_strlit("copies");
    assert("version"@[0] != "copies"@[0]);
    crate::json::lemma_key_pos_unique(seq!["version"@, "copies"@], "copies"@, 1);
    assert(m.get("copies"@) == Some(JsonV::Arr(Seq::<JsonV>::empty())));
    let e = copy_entry_spec(su, sc, tu, tc, at);
    let f = other_path(su, sc, tu);
    let k = keep(Seq::<JsonV>::empty(), f);
    assert(k =~= Seq::<JsonV>::empty());
    let c2 = k.push(e);
    assert(c2 =~= seq![e]);
    let m2 = record_copy_spec(m, su, sc, tu, tc, at);
    assert(m2 == m.set("copies"@, JsonV::Arr(c2)));
    lemma_set_get(m, "copies"@, JsonV::Arr(c2), "copies"@);
    assert(copies_of(m2) == c2);
    lemma_copy_entry_reads(su, sc, tu, tc, at);
    assert(c2.drop_last() =~= Seq::<JsonV>::empty());
    assert(c2.last() == e);
    // sc is no copy's target, so it is its own root; tc's parent is sc.
    assert(parent_of(c2.drop_last(), sc) is None);
    assert(parent_of(c2, sc) is None);
    assert(root_steps(c2, sc, 32) == sc);
    assert(parent_of(c2.drop_last(), tc) is None);
    assert(e.get_str("targetCid"@) == Some(tc));
    assert(parent_of(c2, tc) == Some(sc));
    assert(root_steps(c2, sc, 31) == sc);
    assert(root_steps(c2, tc, 32) == sc);
    assert(copy_hit(c2, e, tu, tc, su) is None);
    assert(first_hit(c2, c2.drop_last(), tu, tc, su) is None);
    assert(first_hit(c2, c2, tu, tc, su) is None);
    assert(back_hit(c2, e, tu, tc, su) == Some(sc));
    assert(first_back(c2, c2.drop_last(), tu, tc, su) is None);
}

proof fn lemma_keep_is_filter(s: Seq<JsonV>, f: spec_fn(JsonV) -> bool, g: spec_fn(JsonV) -> bool)
    requires
        forall|c: JsonV| #[trigger] f(c) == g(c),
    ensures
        keep(s, f) == s.filter(g),
    decreases s.len(),
{
    reveal(Seq::filter);
    if s.len() > 0 {
        lemma_keep_is_filter(s.drop_last(), f, g);
        assert(f(s.last()) == g(s.last()));
    }
}

/// Recording a copy replaces only an older record of the same source
/// conversation to the same account: every other record stays, in order,
/// and the new record, naming the copy, goes last.
pub proof fn law_record_keeps_other_copies(
    m: JsonV,
    su: Seq<char>,
    sc: Seq<char>,
    tu: Seq<char>,
    tc: Seq<char>,
    at: int,
)
    requires
        m.wf_obj(),
        m.get("copies"@) is Some && m.get("copies"@)->Some_0 is Arr,
    ensures
        copies_of(record_copy_spec(m, su, sc, tu, tc, at)).drop_last() == copies_of(m).filter(
            |c: JsonV|
                !(c.get_str("sourceUid"@) == Some(su) && c.get_str("sourceCid"@) == Some(sc) && c.get_str(
                    "targetUid"@,
                ) == Some(tu)),
        ),
        copies_of(record_copy_spec(m, su, sc, tu, tc, at)).len() > 0,
        copies_of(record_copy_spec(m, su, sc, tu, tc, at)).last().get_str("sourceUid"@) == Some(su),
        copies_of(record_copy_spec(m, su, sc, tu, tc, at)).last().get_str("sourceCid"@) == Some(sc),
        copies_of(record_copy_spec(m, su, sc, tu, tc, at)).last().get_str("targetUid"@) == Some(tu),
        copies_of(record_copy_spec(m, su, sc, tu, tc, at)).last().get_str("targetCid"@) == Some(tc),
{
    let a = m.get("copies"@)->Some_0->Arr_0;
    let f = other_path(su, sc, tu);
    let g = |c: JsonV|
        !(c.get_str("sourceUid"@) == Some(su) && c.get_str("sourceCid"@) == Some(sc) && c.get_str("targetUid"@)
            == Some(tu));
    let e = copy_entry_spec(su, sc, tu, tc, at);
    let k = keep(a, f);
    lemma_set_get(m, "copies"@, JsonV::Arr(k.push(e)), "copies"@);
    assert(copies_of(record_copy_spec(m, su, sc, tu, tc, at)) == k.push(e));
    assert forall|c: JsonV| #[trigger] f(c) == g(c) by {}
    lemma_keep_is_filter(a, f, g);
    assert(k.push(e).drop_last() =~= k);
    lemma_copy_entry_reads(su, sc, tu, tc, at);
}

/// Removing the copies whose target conversation is among `targets` (not
/// empty) keeps exactly the others, in order: every copy whose target is a
/// conversation outside `targets` stays, and nothing else does; with no
/// targets the table stays as it is.
pub proof fn law_remove_keeps_other_targets(m: JsonV, targets: Seq<Seq<char>>)
    requires
        m.wf_obj(),
        m.get("copies"@) is Some && m.get("copies"@)->Some_0 is Arr,
    ensures
        targets.len() == 0 ==> remove_copies_spec(m, targets) == m,
        targets.len() > 0 ==> copies_of(remove_copies_spec(m, targets)) == copies_of(m).filter(
            |c: JsonV|
                match c.get_str("targetCid"@) {
                    Some(t) => !targets.contains(t),
                    None => false,
                },
        ),
{
    if targets.len() > 0 {
        let a = m.get("copies"@)->Some_0->Arr_0;
        let f = kept_target(targets);
        let g = |c: JsonV|
            match c.get_str("targetCid"@) {
                Some(t) => !targets.contains(t),
                None => false,
            };
        lemma_set_get(m, "copies"@, JsonV::Arr(keep(a, f)), "copies"@);
        assert forall|c: JsonV| #[trigger] f(c) == g(c) by {}
        lemma_keep_is_filter(a, f, g);
    }
}

} // verus!
