//! Workshop mod presets: the mods that a preset names, the mods of them
//! that need checking, their `-mod=` parameters and directories, and the
//! patches made to a downloaded mod's `meta.cpp` and `mod.cpp`.

use vstd::prelude::*;
use crate::text;

verus! {

/// What resolving a mod preset gives: the `-mod=` parameters (every mod in
/// the preset, whether downloaded now or already up to date) and the
/// directories whose `.bikey` files are copied once downloads finish.
pub struct PresetResult {
    pub mods: Vec<String>,
    pub key_dirs: Vec<String>,
}

// ---------------------------------------------------------------------------
// The mods of a preset
// ---------------------------------------------------------------------------
//
// A preset is the HTML export of a Steam Workshop collection; each match of
// the pattern `filedetails/\?id=(\d+)"`, from the left and not overlapping,
// names a mod by the decimal digits of its group.

/// The text before a mod's number.
pub open spec fn preset_link() -> Seq<char> {
    "filedetails/?id="@
}

/// Where the digits of a match at `i` end (at the closing `"`), if a match
/// starts at `i`.
pub open spec fn preset_match_end(t: Seq<char>, i: int) -> Option<int> {
    if text::occurs_at(t, i, preset_link()) {
        let j = text::digit_run_end(t, i + preset_link().len());
        if j > i + preset_link().len() && j < t.len() && t[j] == '"' {
            Some(j)
        } else {
            None
        }
    } else {
        None
    }
}

/// The digit groups of the matches from `pos` on, in order.
pub open spec fn preset_numbers_from(t: Seq<char>, pos: int) -> Seq<Seq<char>>
    decreases t.len() - pos,
{
    if pos < 0 || pos >= t.len() {
        Seq::empty()
    } else {
        match preset_match_end(t, pos) {
            Some(j) => {
                proof {
                    text::lemma_digit_run_end(t, pos + preset_link().len());
                }
                seq![t.subrange(pos + preset_link().len(), j)] + preset_numbers_from(t, j + 1)
            },
            None => preset_numbers_from(t, pos + 1),
        }
    }
}

/// The numbers among the digit groups that parse as `u64`, in order; the
/// others (too large, or of digits other than ASCII) are left out.
pub open spec fn parse_ids(groups: Seq<Seq<char>>) -> Seq<u64>
    decreases groups.len(),
{
    if groups.len() == 0 {
        Seq::empty()
    } else {
        let prev = parse_ids(groups.drop_last());
        match text::parse_unsigned(groups.last(), u64::MAX as nat) {
            Some(n) => prev.push(n as u64),
            None => prev,
        }
    }
}

/// The ids of the mods that a preset names, in order.
pub open spec fn preset_mod_ids_spec(html: Seq<char>) -> Seq<u64> {
    parse_ids(preset_numbers_from(html, 0))
}

/// The ids that need checking: all of them when the preset is verified,
/// else only those whose directory does not exist yet.
pub open spec fn to_check_spec(ids: Seq<u64>, dir_exists: Seq<bool>, verify: bool) -> Seq<u64>
    decreases ids.len(),
{
    if ids.len() == 0 {
        Seq::empty()
    } else {
        let prev = to_check_spec(ids.drop_last(), dir_exists.drop_last(), verify);
        if verify || !dir_exists.last() {
            prev.push(ids.last())
        } else {
            prev
        }
    }
}

/// `part` joined to the path `base`, as `Path::join` does on Unix: an
/// absolute `part` replaces `base`; else a `/` goes between them unless
/// `base` is empty or ends with one.
pub open spec fn path_join(base: Seq<char>, part: Seq<char>) -> Seq<char> {
    if part.len() > 0 && part[0] == '/' {
        part
    } else if base.len() == 0 || base.last() == '/' {
        base + part
    } else {
        base + "/"@ + part
    }
}

/// The directory of workshop mod `id`.
pub open spec fn workshop_dir_spec(server_root: Seq<char>, id: u64) -> Seq<char> {
    path_join(path_join(server_root, "workshop"@), text::decimal(id as nat))
}

/// The `-mod=` parameter of workshop mod `id`.
pub open spec fn workshop_mod_spec(id: u64) -> Seq<char> {
    "workshop/"@ + text::decimal(id as nat)
}

/// Whether the preset is fetched from the web rather than read from a file.
pub fn is_preset_url(mod_file: &str) -> (b: bool)
    ensures
        b == text::starts_with(mod_file@, "http"@),
{
    let m = text::chars_of(mod_file);
    let h = text::chars_of("http");
    text::starts_with_exec(m.as_slice(), h.as_slice())
}

/// The ids of the mods that a preset names, in order.
pub fn preset_mod_ids(html: &str) -> (ids: Vec<u64>)
    ensures
        ids@ == preset_mod_ids_spec(html@),
{
    let t = text::chars_of(html);
    let link = text::chars_of("filedetails/?id=");
    let ghost all = preset_numbers_from(t@, 0);
    let ghost done: Seq<Seq<char>> = Seq::empty();
    let mut ids: Vec<u64> = Vec::new();
    let mut pos: usize = 0;
    while pos < t.len()
        invariant
            pos <= t.len(),
            link@ == preset_link(),
            all == preset_numbers_from(t@, 0),
            done + preset_numbers_from(t@, pos as int) == all,
            ids@ == parse_ids(done),
        decreases t.len() - pos,
    {
        let mut matched = false;
        if text::occurs_at_exec(t.as_slice(), pos, link.as_slice()) {
            let start = pos + link.len();
            let j = text::digit_run_end_exec(t.as_slice(), start);
            proof {
                text::lemma_digit_run_end(t@, start as int);
            }
            if j > start && j < t.len() && t[j] == '"' {
                let digits = text::slice_chars(t.as_slice(), start, j);
                proof {
                    assert(preset_numbers_from(t@, pos as int) == seq![digits@] + preset_numbers_from(
                        t@,
                        j + 1,
                    ));
                    assert(done.push(digits@).drop_last() =~= done);
                    assert((done + seq![digits@]) + preset_numbers_from(t@, j + 1) =~= done
                        + preset_numbers_from(t@, pos as int));
                    done = done.push(digits@);
                    assert(done =~= done.drop_last() + seq![digits@]);
                }
                match text::parse_unsigned_exec(digits.as_slice(), 0xffff_ffff_ffff_ffffu64) {
                    Some(n) => ids.push(n),
                    None => {},
                }
                pos = j + 1;
                matched = true;
            }
        }
        if !matched {
            pos = pos + 1;
        }
    }
    assert(done + Seq::<Seq<char>>::empty() =~= done);
    ids
}

/// The ids that need checking: all of them when `verify_preset` is set,
/// else those whose directory does not exist yet (`dir_exists[i]` tells of
/// `ids[i]`).
pub fn mods_to_check(ids: &[u64], dir_exists: &[bool], verify_preset: bool) -> (r: Vec<u64>)
    requires
        ids.len() == dir_exists.len(),
    ensures
        r@ == to_check_spec(ids@, dir_exists@, verify_preset),
{
    let mut r: Vec<u64> = Vec::new();
    let mut i: usize = 0;
    while i < ids.len()
        invariant
            i <= ids.len(),
            ids.len() == dir_exists.len(),
            r@ == to_check_spec(ids@.take(i as int), dir_exists@.take(i as int), verify_preset),
        decreases ids.len() - i,
    {
        proof {
            assert(ids@.take(i + 1).drop_last() =~= ids@.take(i as int));
            assert(dir_exists@.take(i + 1).drop_last() =~= dir_exists@.take(i as int));
        }
        if verify_preset || !dir_exists[i] {
            r.push(ids[i]);
        }
        i = i + 1;
    }
    assert(ids@.take(ids.len() as int) =~= ids@);
    assert(dir_exists@.take(ids.len() as int) =~= dir_exists@);
    r
}

/// `part` joined to the path `base`.
pub fn path_join_exec(base: &[char], part: &[char]) -> (r: Vec<char>)
    ensures
        r@ == path_join(base@, part@),
{
    if part.len() > 0 && part[0] == '/' {
        let mut r: Vec<char> = Vec::new();
        text::extend_chars(&mut r, part);
        assert(r@ =~= part@);
        return r;
    }
    let mut r: Vec<char> = Vec::new();
    text::extend_chars(&mut r, base);
    if !(base.len() == 0 || base[base.len() - 1] == '/') {
        r.push('/');
        proof { reveal_strlit("/"); }
    }
    text::extend_chars(&mut r, part);
    assert(r@ =~= path_join(base@, part@));
    r
}

/// The directory of workshop mod `id`.
pub fn workshop_dir(server_root: &str, id: u64) -> (r: String)
    ensures
        r@ == workshop_dir_spec(server_root@, id),
{
    let root = text::chars_of(server_root);
    let ws = text::chars_of("workshop");
    let d1 = path_join_exec(root.as_slice(), ws.as_slice());
    let n = text::decimal_exec(id);
    let d2 = path_join_exec(d1.as_slice(), n.as_slice());
    text::string_of(d2.as_slice())
}

/// The `-mod=` parameter of workshop mod `id`.
pub fn workshop_mod(id: u64) -> (r: String)
    ensures
        r@ == workshop_mod_spec(id),
{
    let mut out = text::chars_of("workshop/");
    let n = text::decimal_exec(id);
    text::extend_chars(&mut out, n.as_slice());
    text::string_of(out.as_slice())
}

/// The parameters and key directories of a preset's mods, one of each per
/// mod, in the preset's order.
pub fn preset_result(server_root: &str, ids: &[u64]) -> (r: PresetResult)
    ensures
        r.mods@.len() == ids.len(),
        r.key_dirs@.len() == ids.len(),
        forall|i: int| 0 <= i < ids.len() ==> #[trigger] r.mods@[i]@ == workshop_mod_spec(ids@[i]),
        forall|i: int| 0 <= i < ids.len() ==> #[trigger] r.key_dirs@[i]@ == workshop_dir_spec(server_root@, ids@[i]),
{
    let mut mods: Vec<String> = Vec::new();
    let mut key_dirs: Vec<String> = Vec::new();
    let mut i: usize = 0;
    while i < ids.len()
        invariant
            i <= ids.len(),
            mods@.len() == i,
            key_dirs@.len() == i,
            forall|k: int| 0 <= k < i ==> #[trigger] mods@[k]@ == workshop_mod_spec(ids@[k]),
            forall|k: int| 0 <= k < i ==> #[trigger] key_dirs@[k]@ == workshop_dir_spec(server_root@, ids@[k]),
        decreases ids.len() - i,
    {
        mods.push(workshop_mod(ids[i]));
        key_dirs.push(workshop_dir(server_root, ids[i]));
        i = i + 1;
    }
    PresetResult { mods, key_dirs }
}

// ---------------------------------------------------------------------------
// Patching a downloaded mod
// ---------------------------------------------------------------------------
//
// `meta.cpp` gets its published id (the first `publishedid\s*=\s*0\s*;`
// replaced by `publishedid = <id>;`) and the misspelled `protocole` fixed
// everywhere; `mod.cpp` has its first `appId\s*=\s*\d+\s*;` replaced by
// `appId = 0;`. Here `\s` is a character with the Unicode White_Space
// property and `\d` a Unicode decimal digit.

/// After whitespace from `i`, the character `c`: where that ends.
pub open spec fn after_ws_char(t: Seq<char>, i: int, c: char) -> Option<int> {
    let j = text::ws_run_end(t, i);
    if 0 <= j < t.len() && t[j] == c {
        Some(j + 1)
    } else {
        None
    }
}

/// The end of a match of `publishedid\s*=\s*0\s*;` at `i`, if one starts there.
pub open spec fn published_id_match(t: Seq<char>, i: int) -> Option<int> {
    if !text::occurs_at(t, i, "publishedid"@) {
        None
    } else {
        match after_ws_char(t, i + "publishedid"@.len(), '=') {
            None => None,
            Some(j1) => match after_ws_char(t, j1, '0') {
                None => None,
                Some(j2) => after_ws_char(t, j2, ';'),
            },
        }
    }
}

/// The end of a match of `appId\s*=\s*\d+\s*;` at `i`, if one starts there.
pub open spec fn app_id_match(t: Seq<char>, i: int) -> Option<int> {
    if !text::occurs_at(t, i, "appId"@) {
        None
    } else {
        match after_ws_char(t, i + "appId"@.len(), '=') {
            None => None,
            Some(j1) => {
                let j2 = text::ws_run_end(t, j1);
                let d = text::digit_run_end(t, j2);
                if d > j2 {
                    after_ws_char(t, d, ';')
                } else {
                    None
                }
            },
        }
    }
}

/// The leftmost match of `publishedid\s*=\s*0\s*;` at `i` or later.
pub open spec fn first_published_id(t: Seq<char>, i: int) -> Option<(int, int)>
    decreases t.len() + 1 - i,
{
    if i < 0 || i > t.len() {
        None
    } else {
        match published_id_match(t, i) {
            Some(e) => Some((i, e)),
            None => first_published_id(t, i + 1),
        }
    }
}

/// The leftmost match of `appId\s*=\s*\d+\s*;` at `i` or later.
pub open spec fn first_app_id(t: Seq<char>, i: int) -> Option<(int, int)>
    decreases t.len() + 1 - i,
{
    if i < 0 || i > t.len() {
        None
    } else {
        match app_id_match(t, i) {
            Some(e) => Some((i, e)),
            None => first_app_id(t, i + 1),
        }
    }
}

/// `t` with the match `m` (start and end), if any, replaced by `rep`.
pub open spec fn replace_match(t: Seq<char>, m: Option<(int, int)>, rep: Seq<char>) -> Seq<char> {
    match m {
        Some((i, e)) => t.take(i) + rep + t.skip(e),
        None => t,
    }
}

/// A `meta.cpp` with its published id set to `mod_id` and `protocole`
/// spelled `protocol`.
pub open spec fn patch_meta_cpp_spec(t: Seq<char>, mod_id: u64) -> Seq<char> {
    let rep = "publishedid = "@ + text::decimal(mod_id as nat) + ";"@;
    text::replace_all(replace_match(t, first_published_id(t, 0), rep), "protocole"@, "protocol"@)
}

/// A `mod.cpp` with its app id set to 0.
pub open spec fn patch_mod_cpp_spec(t: Seq<char>) -> Seq<char> {
    replace_match(t, first_app_id(t, 0), "appId = 0;"@)
}

fn after_ws_char_exec(t: &[char], i: usize, c: char) -> (r: Option<usize>)
    requires
        i <= t.len(),
    ensures
        r matches Some(j) ==> after_ws_char(t@, i as int, c) == Some(j as int) && i < j <= t.len(),
        r is None ==> after_ws_char(t@, i as int, c) is None,
{
    let j = text::ws_run_end_exec(t, i);
    proof {
        text::lemma_ws_run_end(t@, i as int);
    }
    if j < t.len() && t[j] == c {
        Some(j + 1)
    } else {
        None
    }
}

fn published_id_match_exec(t: &[char], i: usize, word: &[char]) -> (r: Option<usize>)
    requires
        i <= t.len(),
        word@ == "publishedid"@,
    ensures
        r matches Some(e) ==> published_id_match(t@, i as int) == Some(e as int) && i < e <= t.len(),
        r is None ==> published_id_match(t@, i as int) is None,
{
    if !text::occurs_at_exec(t, i, word) {
        return None;
    }
    match after_ws_char_exec(t, i + word.len(), '=') {
        None => None,
        Some(j1) => match after_ws_char_exec(t, j1, '0') {
            None => None,
            Some(j2) => after_ws_char_exec(t, j2, ';'),
        },
    }
}

fn app_id_match_exec(t: &[char], i: usize, word: &[char]) -> (r: Option<usize>)
    requires
        i <= t.len(),
        word@ == "appId"@,
    ensures
        r matches Some(e) ==> app_id_match(t@, i as int) == Some(e as int) && i < e <= t.len(),
        r is None ==> app_id_match(t@, i as int) is None,
{
    if !text::occurs_at_exec(t, i, word) {
        return None;
    }
    match after_ws_char_exec(t, i + word.len(), '=') {
        None => None,
        Some(j1) => {
            let j2 = text::ws_run_end_exec(t, j1);
            proof {
                text::lemma_ws_run_end(t@, j1 as int);
            }
            let d = text::digit_run_end_exec(t, j2);
            proof {
                text::lemma_digit_run_end(t@, j2 as int);
            }
            if d > j2 {
                after_ws_char_exec(t, d, ';')
            } else {
                None
            }
        },
    }
}

/// The leftmost match of `publishedid\s*=\s*0\s*;` in `t`.
fn find_published_id(t: &[char], word: &[char]) -> (r: Option<(usize, usize)>)
    requires
        word@ == "publishedid"@,
    ensures
        r matches Some((i, e)) ==> first_published_id(t@, 0) == Some((i as int, e as int)) && i <= e <= t.len(),
        r is None ==> first_published_id(t@, 0) is None,
{
    proof { reveal_strlit("publishedid"); }
    let mut i: usize = 0;
    while i < t.len()
        invariant
            i <= t.len(),
            word@ == "publishedid"@,
            first_published_id(t@, 0) == first_published_id(t@, i as int),
        decreases t.len() - i,
    {
        match published_id_match_exec(t, i, word) {
            Some(e) => {
                return Some((i, e));
            },
            None => {},
        }
        i = i + 1;
    }
    assert(published_id_match(t@, t.len() as int) is None);
    assert(first_published_id(t@, t.len() + 1) is None);
    None
}

/// The leftmost match of `appId\s*=\s*\d+\s*;` in `t`.
fn find_app_id(t: &[char], word: &[char]) -> (r: Option<(usize, usize)>)
    requires
        word@ == "appId"@,
    ensures
        r matches Some((i, e)) ==> first_app_id(t@, 0) == Some((i as int, e as int)) && i <= e <= t.len(),
        r is None ==> first_app_id(t@, 0) is None,
{
    proof { reveal_strlit("appId"); }
    let mut i: usize = 0;
    while i < t.len()
        invariant
            i <= t.len(),
            word@ == "appId"@,
            first_app_id(t@, 0) == first_app_id(t@, i as int),
        decreases t.len() - i,
    {
        match app_id_match_exec(t, i, word) {
            Some(e) => {
                return Some((i, e));
            },
            None => {},
        }
        i = i + 1;
    }
    assert(app_id_match(t@, t.len() as int) is None);
    assert(first_app_id(t@, t.len() + 1) is None);
    None
}

/// `t` with `t[i..e]` replaced by `rep`.
fn splice(t: &[char], i: usize, e: usize, rep: &[char]) -> (r: Vec<char>)
    requires
        i <= e <= t.len(),
    ensures
        r@ == t@.take(i as int) + rep@ + t@.skip(e as int),
{
    let mut r = text::slice_chars(t, 0, i);
    text::extend_chars(&mut r, rep);
    let tail = text::slice_chars(t, e, t.len());
    text::extend_chars(&mut r, tail.as_slice());
    assert(t@.subrange(0, i as int) =~= t@.take(i as int));
    assert(t@.subrange(e as int, t.len() as int) =~= t@.skip(e as int));
    r
}

/// A `meta.cpp` with its published id set to `mod_id` and `protocole`
/// spelled `protocol`.
pub fn patch_meta_cpp(data: &str, mod_id: u64) -> (r: String)
    ensures
        r@ == patch_meta_cpp_spec(data@, mod_id),
{
    let t = text::chars_of(data);
    let word = text::chars_of("publishedid");
    let mut rep = text::chars_of("publishedid = ");
    let n = text::decimal_exec(mod_id);
    text::extend_chars(&mut rep, n.as_slice());
    text::extend_str(&mut rep, ";");
    let fixed = match find_published_id(t.as_slice(), word.as_slice()) {
        Some((i, e)) => splice(t.as_slice(), i, e, rep.as_slice()),
        None => {
            let mut r: Vec<char> = Vec::new();
            text::extend_chars(&mut r, t.as_slice());
            assert(r@ =~= t@);
            r
        },
    };
    let from = text::chars_of("protocole");
    let to = text::chars_of("protocol");
    proof { reveal_strlit("protocole"); }
    let out = text::replace_all_exec(fixed.as_slice(), from.as_slice(), to.as_slice());
    text::string_of(out.as_slice())
}

/// A `mod.cpp` with its app id set to 0.
pub fn patch_mod_cpp(data: &str) -> (r: String)
    ensures
        r@ == patch_mod_cpp_spec(data@),
{
    let t = text::chars_of(data);
    let word = text::chars_of("appId");
    let rep = text::chars_of("appId = 0;");
    match find_app_id(t.as_slice(), word.as_slice()) {
        Some((i, e)) => {
            let out = splice(t.as_slice(), i, e, rep.as_slice());
            text::string_of(out.as_slice())
        },
        None => text::string_of(t.as_slice()),
    }
}

// ---------------------------------------------------------------------------
// Copying keys
// ---------------------------------------------------------------------------

/// Every copy can succeed: each directory's copy may return `Ok`.
pub open spec fn copies_succeed<F: Fn(&String) -> Result<(), E>, E>(copy: F, dirs: Seq<String>) -> bool {
    forall|i: int| 0 <= i < dirs.len() ==> copy.ensures((&dirs[i],), Ok(()))
}

/// The copies can fail with `e`: some directory's copy may return `Err(e)`,
/// and every copy before it `Ok`.
pub open spec fn copies_fail_with<F: Fn(&String) -> Result<(), E>, E>(copy: F, dirs: Seq<String>, e: E) -> bool {
    exists|k: int|
        0 <= k < dirs.len() && copy.ensures((&dirs[k],), Err(e)) && forall|i: int|
            0 <= i < k ==> copy.ensures((&dirs[i],), Ok(()))
}

/// Copies the `.bikey` files of every mod directory in `key_dirs`, in
/// order, with `copy`, stopping at the first failure. Called once all
/// downloads of a preset have finished, since a mod that was just
/// downloaded has its keys in place only then.
pub fn copy_keys<F, E>(key_dirs: &[String], copy: F) -> (r: Result<(), E>) where
    F: Fn(&String) -> Result<(), E>,

    requires
        forall|i: int| 0 <= i < key_dirs@.len() ==> copy.requires((&key_dirs@[i],)),
    ensures
        r is Ok ==> copies_succeed(copy, key_dirs@),
        r matches Err(e) ==> copies_fail_with(copy, key_dirs@, e),
{
    let mut i: usize = 0;
    while i < key_dirs.len()
        invariant
            i <= key_dirs.len(),
            forall|j: int| 0 <= j < key_dirs@.len() ==> copy.requires((&key_dirs@[j],)),
            forall|j: int| 0 <= j < i ==> copy.ensures((&key_dirs@[j],), Ok(())),
        decreases key_dirs.len() - i,
    {
        let res = copy(&key_dirs[i]);
        proof {
            assert(copy.ensures((&key_dirs@[i as int],), res));
        }
        match res {
            Ok(u) => {
                assert(res == Ok::<(), E>(u));
                assert(u == ());
                assert(copy.ensures((&key_dirs@[i as int],), Ok::<(), E>(())));
            },
            Err(e) => {
                return Err(e);
            },
        }
        i = i + 1;
        assert forall|j: int| 0 <= j < i implies copy.ensures((&key_dirs@[j],), Ok::<(), E>(())) by {
            if j < i - 1 {
            }
        }
    }
    Ok(())
}

// ---------------------------------------------------------------------------
// Laws
// ---------------------------------------------------------------------------

/// With a verified preset every mod of it is checked, whether its directory
/// exists or not.
pub proof fn law_verify_checks_every_mod(ids: Seq<u64>, dir_exists: Seq<bool>)
    ensures
        to_check_spec(ids, dir_exists, true) == ids,
    decreases ids.len(),
{
    if ids.len() > 0 {
        law_verify_checks_every_mod(ids.drop_last(), dir_exists.drop_last());
        assert(ids.drop_last().push(ids.last()) =~= ids);
    }
}

proof fn lemma_no_published_id(t: Seq<char>, i: int)
    requires
        !text::contains_seq(t, "publishedid"@),
    ensures
        first_published_id(t, i) is None,
    decreases t.len() + 1 - i,
{
    if 0 <= i <= t.len() {
        assert(!text::occurs_at(t, i, "publishedid"@));
        lemma_no_published_id(t, i + 1);
    }
}

proof fn lemma_no_app_id(t: Seq<char>, i: int)
    requires
        !text::contains_seq(t, "appId"@),
    ensures
        first_app_id(t, i) is None,
    decreases t.len() + 1 - i,
{
    if 0 <= i <= t.len() {
        assert(!text::occurs_at(t, i, "appId"@));
        lemma_no_app_id(t, i + 1);
    }
}

/// A `meta.cpp` that mentions neither `publishedid` nor `protocole` is left
/// as it is (so it is not written back).
pub proof fn law_patch_meta_cpp_keeps_other_files(t: Seq<char>, mod_id: u64)
    requires
        !text::contains_seq(t, "publishedid"@),
        !text::contains_seq(t, "protocole"@),
    ensures
        patch_meta_cpp_spec(t, mod_id) == t,
{
    lemma_no_published_id(t, 0);
    text::lemma_replace_all_absent(t, "protocole"@, "protocol"@);
}

/// A `mod.cpp` that does not mention `appId` is left as it is (so it is not
/// written back).
pub proof fn law_patch_mod_cpp_keeps_other_files(t: Seq<char>)
    requires
        !text::contains_seq(t, "appId"@),
    ensures
        patch_mod_cpp_spec(t) == t,
{
    lemma_no_app_id(t, 0);
}

/// Copying the keys of two lists in a row ends as copying those of the two
/// joined: all succeed exactly when those of each list do, and the joined
/// copies fail with `e` exactly when the first list's do, or the first
/// list's all succeed and the second's fail with `e`.
pub proof fn law_copy_keys_concat<F: Fn(&String) -> Result<(), E>, E>(
    copy: F,
    a: Seq<String>,
    b: Seq<String>,
    e: E,
)
    ensures
        copies_succeed(copy, a + b) <==> copies_succeed(copy, a) && copies_succeed(copy, b),
        copies_fail_with(copy, a + b, e) <==> (copies_fail_with(copy, a, e) || (copies_succeed(copy, a)
            && copies_fail_with(copy, b, e))),
{
    let ab = a + b;
    if copies_succeed(copy, ab) {
        assert forall|i: int| 0 <= i < a.len() implies copy.ensures((&a[i],), Ok(())) by {
            assert(ab[i] == a[i]);
        }
        assert forall|i: int| 0 <= i < b.len() implies copy.ensures((&b[i],), Ok(())) by {
            assert(ab[a.len() + i] == b[i]);
        }
    }
    if copies_succeed(copy, a) && copies_succeed(copy, b) {
        assert forall|i: int| 0 <= i < ab.len() implies copy.ensures((&ab[i],), Ok(())) by {
            if i < a.len() {
                assert(ab[i] == a[i]);
            } else {
                assert(ab[i] == b[i - a.len()]);
            }
        }
    }
    if copies_fail_with(copy, ab, e) {
        let k = choose|k: int|
            0 <= k < ab.len() && copy.ensures((&ab[k],), Err(e)) && forall|i: int|
                0 <= i < k ==> copy.ensures((&ab[i],), Ok(()));
        if k < a.len() {
            assert(ab[k] == a[k]);
            assert forall|i: int| 0 <= i < k implies copy.ensures((&a[i],), Ok(())) by {
                assert(ab[i] == a[i]);
            }
        } else {
            assert(ab[k] == b[k - a.len()]);
            assert forall|i: int| 0 <= i < a.len() implies copy.ensures((&a[i],), Ok(())) by {
                assert(ab[i] == a[i]);
            }
            assert forall|i: int| 0 <= i < k - a.len() implies copy.ensures((&b[i],), Ok(())) by {
                assert(ab[a.len() + i] == b[i]);
            }
        }
    }
    if copies_fail_with(copy, a, e) {
        let k = choose|k: int|
            0 <= k < a.len() && copy.ensures((&a[k],), Err(e)) && forall|i: int|
                0 <= i < k ==> copy.ensures((&a[i],), Ok(()));
        assert(ab[k] == a[k]);
        assert forall|i: int| 0 <= i < k implies copy.ensures((&ab[i],), Ok(())) by {
            assert(ab[i] == a[i]);
        }
    }
    if copies_succeed(copy, a) && copies_fail_with(copy, b, e) {
        let k = choose|k: int|
            0 <= k < b.len() && copy.ensures((&b[k],), Err(e)) && forall|i: int|
                0 <= i < k ==> copy.ensures((&b[i],), Ok(()));
        assert(ab[a.len() + k] == b[k]);
        assert forall|i: int| 0 <= i < a.len() + k implies copy.ensures((&ab[i],), Ok(())) by {
            if i < a.len() {
                assert(ab[i] == a[i]);
            } else {
                assert(ab[i] == b[i - a.len()]);
            }
        }
    }
}

/// No mod is checked from an empty preset.
pub proof fn law_to_check_empty(dir_exists: Seq<bool>, verify: bool)
    ensures
        to_check_spec(Seq::empty(), dir_exists, verify) == Seq::<u64>::empty(),
{
}

/// One more mod at the end of the preset is checked after the others,
/// exactly when the preset is verified or its directory does not exist.
pub proof fn law_to_check_append(ids: Seq<u64>, dir_exists: Seq<bool>, verify: bool, id: u64, exists: bool)
    requires
        ids.len() == dir_exists.len(),
    ensures
        to_check_spec(ids.push(id), dir_exists.push(exists), verify) == to_check_spec(ids, dir_exists, verify) + (
        if verify || !exists {
            seq![id]
        } else {
            Seq::<u64>::empty()
        }),
{
    assert(ids.push(id).drop_last() =~= ids);
    assert(dir_exists.push(exists).drop_last() =~= dir_exists);
    if verify || !exists {
        assert(to_check_spec(ids, dir_exists, verify).push(id) =~= to_check_spec(ids, dir_exists, verify) + seq![id]);
    } else {
        assert(to_check_spec(ids, dir_exists, verify) + Seq::<u64>::empty() =~= to_check_spec(ids, dir_exists, verify));
    }
}

/// A mod whose directory does not exist, or any mod of a verified preset,
/// is checked.
pub proof fn law_missing_mods_are_checked(ids: Seq<u64>, dir_exists: Seq<bool>, verify: bool, i: int)
    requires
        ids.len() == dir_exists.len(),
        0 <= i < ids.len(),
        verify || !dir_exists[i],
    ensures
        to_check_spec(ids, dir_exists, verify).contains(ids[i]),
    decreases ids.len(),
{
    let r = to_check_spec(ids, dir_exists, verify);
    if i == ids.len() - 1 {
        assert(r.last() == ids[i]);
        assert(r[r.len() - 1] == ids[i]);
    } else {
        law_missing_mods_are_checked(ids.drop_last(), dir_exists.drop_last(), verify, i);
        let prev = to_check_spec(ids.drop_last(), dir_exists.drop_last(), verify);
        let k = choose|k: int| 0 <= k < prev.len() && prev[k] == ids[i];
        assert(r[k] == prev[k]);
    }
}

/// Only mods of the preset are checked, and only those whose directory
/// does not exist unless the preset is verified.
pub proof fn law_checked_mods_are_missing(ids: Seq<u64>, dir_exists: Seq<bool>, verify: bool, k: int)
    requires
        ids.len() == dir_exists.len(),
        0 <= k < to_check_spec(ids, dir_exists, verify).len(),
    ensures
        exists|i: int|
            0 <= i < ids.len() && ids[i] == to_check_spec(ids, dir_exists, verify)[k] && (verify
                || !dir_exists[i]),
    decreases ids.len(),
{
    let r = to_check_spec(ids, dir_exists, verify);
    let prev = to_check_spec(ids.drop_last(), dir_exists.drop_last(), verify);
    if k < prev.len() {
        law_checked_mods_are_missing(ids.drop_last(), dir_exists.drop_last(), verify, k);
        let i = choose|i: int|
            0 <= i < ids.drop_last().len() && ids.drop_last()[i] == prev[k] && (verify || !dir_exists.drop_last()[i]);
        assert(r[k] == prev[k]);
        assert(ids[i] == r[k] && (verify || !dir_exists[i]));
    } else {
        assert(r[k] == ids[ids.len() - 1]);
        assert(verify || !dir_exists[ids.len() - 1]);
    }
}

/// A `meta.cpp` gets `publishedid = <id>;` in place of its first
/// `publishedid = 0;`, where `<id>` is a numeral that reads back as the
/// mod's id itself (then `protocole` is fixed).
pub proof fn law_patch_meta_cpp_writes_the_id(t: Seq<char>, mod_id: u64, i: int, e: int)
    requires
        first_published_id(t, 0) == Some((i, e)),
    ensures
        patch_meta_cpp_spec(t, mod_id) == text::replace_all(
            t.take(i) + "publishedid = "@ + text::decimal(mod_id as nat) + ";"@ + t.skip(e),
            "protocole"@,
            "protocol"@,
        ),
        text::parse_unsigned(text::decimal(mod_id as nat), u64::MAX as nat) == Some(mod_id as nat),
{
    text::law_decimal_parses_back(mod_id as nat, u64::MAX as nat);
    let d = text::decimal(mod_id as nat);
    assert(t.take(i) + ("publishedid = "@ + d + ";"@) + t.skip(e) =~= t.take(i) + "publishedid = "@ + d + ";"@ + t.skip(e));
}

/// A workshop mod's `-mod=` parameter is `workshop/` and then a numeral,
/// all digits, that reads back as the mod's id itself.
pub proof fn law_workshop_mod_names_the_id(id: u64)
    ensures
        text::starts_with(workshop_mod_spec(id), "workshop/"@),
        text::all_ascii_digits(workshop_mod_spec(id).skip(9)),
        text::parse_unsigned(workshop_mod_spec(id).skip(9), u64::MAX as nat) == Some(id as nat),
{
    reveal_strlit("workshop/");
    let d = text::decimal(id as nat);
    text::lemma_decimal_value(id as nat);
    text::law_decimal_parses_back(id as nat, u64::MAX as nat);
    let w = workshop_mod_spec(id);
    assert(w.take(9) =~= "workshop/"@);
    assert(w.skip(9) =~= d);
}

/// A workshop mod's directory is the `workshop` directory under the server
/// root, then `/` and a numeral, all digits, that reads back as the mod's
/// id itself.
pub proof fn law_workshop_dir_names_the_id(server_root: Seq<char>, id: u64)
    ensures
        ({
            let w = workshop_dir_spec(server_root, id);
            let p = path_join(server_root, "workshop"@) + "/"@;
            &&& text::starts_with(w, p)
            &&& text::all_ascii_digits(w.skip(p.len() as int))
            &&& text::parse_unsigned(w.skip(p.len() as int), u64::MAX as nat) == Some(id as nat)
        }),
{
    reveal_strlit("workshop");
    reveal_strlit("/");
    let d = text::decimal(id as nat);
    text::lemma_decimal_value(id as nat);
    text::law_decimal_parses_back(id as nat, u64::MAX as nat);
    let base = path_join(server_root, "workshop"@);
    assert(base.len() > 0 && base.last() == 'p');
    assert(d[0] != '/') by {
        assert(text::is_ascii_digit(d[0]));
    }
    let w = workshop_dir_spec(server_root, id);
    let p = base + "/"@;
    assert(w == base + "/"@ + d);
    assert(w.take(p.len() as int) =~= p);
    assert(w.skip(p.len() as int) =~= d);
}

/// The run of decimal digits from `a.len() + q` in `a + b` is that from `q`
/// in `b`, moved by `a.len()`.
proof fn lemma_digit_run_end_shift(a: Seq<char>, b: Seq<char>, q: int)
    requires
        0 <= q <= b.len(),
    ensures
        text::digit_run_end(a + b, a.len() + q) == a.len() + text::digit_run_end(b, q),
    decreases b.len() - q,
{
    if q < b.len() {
        assert((a + b)[a.len() + q] == b[q]);
        if text::unicode_decimal_digit(b[q]) {
            lemma_digit_run_end_shift(a, b, q + 1);
        }
    }
}

/// A run of decimal digits that starts in `a`, where `a` ends with a
/// character that is not a digit, ends in `a`, whatever follows.
proof fn lemma_digit_run_end_prefix(a: Seq<char>, b: Seq<char>, q: int)
    requires
        0 <= q < a.len(),
        !text::unicode_decimal_digit(a.last()),
    ensures
        text::digit_run_end(a + b, q) == text::digit_run_end(a, q),
        text::digit_run_end(a, q) < a.len(),
    decreases a.len() - q,
{
    assert((a + b)[q] == a[q]);
    if text::unicode_decimal_digit(a[q]) {
        lemma_digit_run_end_prefix(a, b, q + 1);
    }
}

/// The matches in `a + b` from `a.len() + p` on are those in `b` from `p`.
proof fn lemma_preset_numbers_shift(a: Seq<char>, b: Seq<char>, p: int)
    requires
        0 <= p,
    ensures
        preset_numbers_from(a + b, a.len() + p) == preset_numbers_from(b, p),
    decreases b.len() - p,
{
    let t = a + b;
    let k = a.len() + p;
    let n = preset_link().len();
    if p < b.len() {
        if p + n <= b.len() {
            assert(t.subrange(k, k + n) =~= b.subrange(p, p + n));
        }
        assert(text::occurs_at(t, k, preset_link()) == text::occurs_at(b, p, preset_link()));
        if text::occurs_at(b, p, preset_link()) {
            lemma_digit_run_end_shift(a, b, p + n);
            text::lemma_digit_run_end(b, p + n);
            let j = text::digit_run_end(b, p + n);
            if j < b.len() {
                assert(t[a.len() + j] == b[j]);
            }
            assert(t.subrange(k + n, a.len() + j) =~= b.subrange(p + n, j));
        }
        match preset_match_end(b, p) {
            Some(j) => {
                assert(preset_match_end(t, k) == Some(a.len() + j));
                lemma_preset_numbers_shift(a, b, j + 1);
            },
            None => {
                assert(preset_match_end(t, k) is None);
                lemma_preset_numbers_shift(a, b, p + 1);
            },
        }
    }
}

/// The matches in `a + b` from a position in `a`, where `a` ends a line,
/// are those in `a` from there and then those of `b`.
proof fn lemma_preset_numbers_prefix(a: Seq<char>, b: Seq<char>, pos: int)
    requires
        0 <= pos <= a.len(),
        a.len() > 0,
        a.last() == '\n',
    ensures
        preset_numbers_from(a + b, pos) == preset_numbers_from(a, pos) + preset_numbers_from(b, 0),
    decreases a.len() - pos,
{
    let t = a + b;
    let n = preset_link().len();
    reveal_strlit("filedetails/?id=");
    if pos == a.len() {
        lemma_preset_numbers_shift(a, b, 0);
        assert(preset_numbers_from(a, pos) =~= Seq::<Seq<char>>::empty());
        assert(preset_numbers_from(a, pos) + preset_numbers_from(b, 0) =~= preset_numbers_from(b, 0));
    } else {
        if pos + n <= a.len() {
            assert(t.subrange(pos, pos + n) =~= a.subrange(pos, pos + n));
        } else if text::occurs_at(t, pos, preset_link()) {
            let m = a.len() - 1 - pos;
            assert(t.subrange(pos, pos + n)[m] == t[a.len() - 1]);
            assert(t[a.len() - 1] == '\n');
            assert(preset_link()[m] != '\n');
        }
        assert(text::occurs_at(t, pos, preset_link()) == text::occurs_at(a, pos, preset_link()));
        if text::occurs_at(a, pos, preset_link()) {
            assert(pos + n < a.len()) by {
                if pos + n == a.len() {
                    assert(a.subrange(pos, pos + n)[n - 1] == a[a.len() - 1]);
                }
            }
            lemma_digit_run_end_prefix(a, b, pos + n);
            text::lemma_digit_run_end(a, pos + n);
            let j = text::digit_run_end(a, pos + n);
            assert(t[j] == a[j]);
            assert(t.subrange(pos + n, j) =~= a.subrange(pos + n, j));
        }
        match preset_match_end(a, pos) {
            Some(j) => {
                assert(preset_match_end(t, pos) == Some(j));
                lemma_preset_numbers_prefix(a, b, j + 1);
                let g = seq![a.subrange(pos + n, j)];
                assert(g + (preset_numbers_from(a, j + 1) + preset_numbers_from(b, 0)) =~= (g
                    + preset_numbers_from(a, j + 1)) + preset_numbers_from(b, 0));
            },
            None => {
                assert(preset_match_end(t, pos) is None);
                lemma_preset_numbers_prefix(a, b, pos + 1);
            },
        }
    }
}

proof fn lemma_parse_ids_concat(g1: Seq<Seq<char>>, g2: Seq<Seq<char>>)
    ensures
        parse_ids(g1 + g2) == parse_ids(g1) + parse_ids(g2),
    decreases g2.len(),
{
    if g2.len() == 0 {
        assert(g1 + g2 =~= g1);
        assert(parse_ids(g1) + parse_ids(g2) =~= parse_ids(g1));
    } else {
        lemma_parse_ids_concat(g1, g2.drop_last());
        assert((g1 + g2).drop_last() =~= g1 + g2.drop_last());
        assert((g1 + g2).last() == g2.last());
        match text::parse_unsigned(g2.last(), u64::MAX as nat) {
            Some(v) => {
                assert((parse_ids(g1) + parse_ids(g2.drop_last())).push(v as u64) =~= parse_ids(g1)
                    + parse_ids(g2.drop_last()).push(v as u64));
            },
            None => {},
        }
    }
}

/// A preset is read a line at a time: where its first part ends a line,
/// the ids of the whole are the ids of the first part, then those of the
/// rest, in order.
pub proof fn law_preset_ids_concat(first: Seq<char>, rest: Seq<char>)
    requires
        first.len() > 0,
        first.last() == '\n',
    ensures
        preset_mod_ids_spec(first + rest) == preset_mod_ids_spec(first) + preset_mod_ids_spec(rest),
{
    lemma_preset_numbers_prefix(first, rest, 0);
    lemma_parse_ids_concat(preset_numbers_from(first, 0), preset_numbers_from(rest, 0));
}

/// A link `filedetails/?id=<id>"` to a mod names that mod and nothing
/// else.
pub proof fn law_preset_link_names_the_mod(id: u64)
    ensures
        preset_mod_ids_spec("filedetails/?id="@ + text::decimal(id as nat) + "\""@) == seq![id],
{
    reveal_strlit("filedetails/?id=");
    reveal_strlit("\"");
    let d = text::decimal(id as nat);
    text::lemma_decimal_value(id as nat);
    text::law_decimal_parses_back(id as nat, u64::MAX as nat);
    let t = "filedetails/?id="@ + d + "\""@;
    let n = preset_link().len() as int;
    assert(t.subrange(0, n) =~= preset_link());
    assert(text::occurs_at(t, 0, preset_link()));
    let q = "filedetails/?id="@ + d;
    assert(t =~= q + "\""@);
    assert forall|k: int| 0 <= k < d.len() implies text::unicode_decimal_digit(#[trigger] q[n + k]) by {
        assert(q[n + k] == d[k]);
        assert(text::is_ascii_digit(d[k]));
    }
    lemma_digit_run_to_end(q, "\""@, n);
    let j = q.len() as int;
    assert(t[j] == '"');
    assert(preset_match_end(t, 0) == Some(j));
    assert(t.subrange(n, j) =~= d);
    assert(preset_numbers_from(t, j + 1) =~= Seq::<Seq<char>>::empty());
    assert(preset_numbers_from(t, 0) =~= seq![d]);
    assert(seq![d].drop_last() =~= Seq::<Seq<char>>::empty());
    assert(seq![d].last() == d);
    assert(parse_ids(Seq::<Seq<char>>::empty()) =~= Seq::<u64>::empty());
    assert(parse_ids(seq![d]) == Seq::<u64>::empty().push(id));
    assert(Seq::<u64>::empty().push(id) =~= seq![id]);
}

/// A run of digits that reaches the end of `a`, then a character that is
/// not a digit, ends there.
proof fn lemma_digit_run_to_end(a: Seq<char>, b: Seq<char>, q: int)
    requires
        0 <= q <= a.len(),
        b.len() > 0,
        !text::unicode_decimal_digit(b[0]),
        forall|k: int| q <= k < a.len() ==> text::unicode_decimal_digit(#[trigger] a[k]),
    ensures
        text::digit_run_end(a + b, q) == a.len(),
    decreases a.len() - q,
{
    let t = a + b;
    if q < a.len() {
        assert(t[q] == a[q]);
        lemma_digit_run_to_end(a, b, q + 1);
    } else {
        assert(t[q] == b[0]);
    }
}

/// Where no `publishedid` occurs from `k` up to `n` and one matches at `n`,
/// the first match from `k` is the one at `n`.
proof fn lemma_first_published_id_reaches(t: Seq<char>, k: int, n: int, e: int)
    requires
        0 <= k <= n <= t.len(),
        forall|x: int| k <= x < n ==> !text::occurs_at(t, x, "publishedid"@),
        published_id_match(t, n) == Some(e),
    ensures
        first_published_id(t, k) == Some((n, e)),
    decreases n - k,
{
    if k < n {
        lemma_first_published_id_reaches(t, k + 1, n, e);
    }
}

proof fn lemma_first_app_id_reaches(t: Seq<char>, k: int, n: int, e: int)
    requires
        0 <= k <= n <= t.len(),
        forall|x: int| k <= x < n ==> !text::occurs_at(t, x, "appId"@),
        app_id_match(t, n) == Some(e),
    ensures
        first_app_id(t, k) == Some((n, e)),
    decreases n - k,
{
    if k < n {
        lemma_first_app_id_reaches(t, k + 1, n, e);
    }
}

/// Where `rest` starts with a word whose first character appears nowhere
/// else in it, and `pre` does not hold the word, the word starts at no
/// position of `pre` in `pre + rest`.
proof fn lemma_no_word_before(pre: Seq<char>, rest: Seq<char>, w: Seq<char>, x: int)
    requires
        0 <= x < pre.len(),
        w.len() > 0,
        !text::contains_seq(pre, w),
        text::starts_with(rest, w),
        forall|k: int| 0 < k < w.len() ==> #[trigger] w[k] != w[0],
    ensures
        !text::occurs_at(pre + rest, x, w),
{
    let t = pre + rest;
    let n = pre.len() as int;
    if text::occurs_at(t, x, w) {
        if x + w.len() <= n {
            assert(pre.subrange(x, x + w.len()) =~= t.subrange(x, x + w.len()));
            assert(text::occurs_at(pre, x, w));
        } else {
            assert(t.subrange(x, x + w.len())[n - x] == t[n]);
            assert(t[n] == rest[0]);
            assert(rest.take(w.len() as int)[0] == rest[0]);
            assert(w[n - x] == w[0]);
        }
    }
}

/// A `meta.cpp` whose first `publishedid` is the placeholder
/// `publishedid = 0;` gets `publishedid = <id>;` in its place, the rest
/// kept, and then `protocole` spelled `protocol`.
pub proof fn law_patch_meta_cpp_placeholder(pre: Seq<char>, post: Seq<char>, mod_id: u64)
    requires
        !text::contains_seq(pre, "publishedid"@),
    ensures
        patch_meta_cpp_spec(pre + "publishedid = 0;"@ + post, mod_id) == text::replace_all(
            pre + "publishedid = "@ + text::decimal(mod_id as nat) + ";"@ + post,
            "protocole"@,
            "protocol"@,
        ),
{
    reveal_strlit("publishedid");
    reveal_strlit("publishedid = 0;");
    let w = "publishedid"@;
    let rest = "publishedid = 0;"@ + post;
    let t = pre + "publishedid = 0;"@ + post;
    assert(t =~= pre + rest);
    let n = pre.len() as int;
    assert(rest.take(11) =~= w);
    assert forall|x: int| 0 <= x < n implies !text::occurs_at(t, x, w) by {
        lemma_no_word_before(pre, rest, w, x);
    }
    assert(t.subrange(n, n + 11) =~= w);
    assert(t[n + 11] == ' ' && t[n + 12] == '=' && t[n + 13] == ' ' && t[n + 14] == '0' && t[n + 15] == ';');
    assert(text::unicode_white_space(' '));
    assert(text::ws_run_end(t, n + 12) == n + 12);
    assert(text::ws_run_end(t, n + 11) == n + 12);
    assert(text::ws_run_end(t, n + 14) == n + 14);
    assert(text::ws_run_end(t, n + 13) == n + 14);
    assert(text::ws_run_end(t, n + 15) == n + 15);
    assert(published_id_match(t, n) == Some(n + 16));
    lemma_first_published_id_reaches(t, 0, n, n + 16);
    law_patch_meta_cpp_writes_the_id(t, mod_id, n, n + 16);
    assert(t.take(n) =~= pre);
    assert(t.skip(n + 16) =~= post);
}

/// A `mod.cpp` whose first `appId` is `appId = <n>;` gets `appId = 0;` in
/// its place, the rest kept.
pub proof fn law_patch_mod_cpp_sets_app_id(pre: Seq<char>, post: Seq<char>, app_id: u64)
    requires
        !text::contains_seq(pre, "appId"@),
    ensures
        patch_mod_cpp_spec(pre + "appId = "@ + text::decimal(app_id as nat) + ";"@ + post) == pre + "appId = 0;"@
            + post,
{
    reveal_strlit("appId");
    reveal_strlit("appId = ");
    reveal_strlit(";");
    let w = "appId"@;
    let d = text::decimal(app_id as nat);
    text::lemma_decimal_value(app_id as nat);
    let rest = "appId = "@ + d + ";"@ + post;
    let t = pre + "appId = "@ + d + ";"@ + post;
    assert(t =~= pre + rest);
    let n = pre.len() as int;
    let m = d.len() as int;
    assert(rest.take(5) =~= w);
    assert forall|x: int| 0 <= x < n implies !text::occurs_at(t, x, w) by {
        lemma_no_word_before(pre, rest, w, x);
    }
    assert(t.subrange(n, n + 5) =~= w);
    assert(t[n + 5] == ' ' && t[n + 6] == '=' && t[n + 7] == ' ');
    assert(text::unicode_white_space(' '));
    assert(text::ws_run_end(t, n + 6) == n + 6);
    assert(text::ws_run_end(t, n + 5) == n + 6);
    assert(t[n + 8] == d[0]);
    assert(text::is_ascii_digit(d[0]));
    assert(text::ws_run_end(t, n + 8) == n + 8);
    assert(text::ws_run_end(t, n + 7) == n + 8);
    let q = pre + "appId = "@ + d;
    let r = ";"@ + post;
    assert(t =~= q + r);
    assert forall|k: int| n + 8 <= k < q.len() implies text::unicode_decimal_digit(#[trigger] q[k]) by {
        assert(q[k] == d[k - n - 8]);
        assert(text::is_ascii_digit(d[k - n - 8]));
    }
    lemma_digit_run_to_end(q, r, n + 8);
    assert(t[n + 8 + m] == ';');
    assert(text::ws_run_end(t, n + 8 + m) == n + 8 + m);
    assert(app_id_match(t, n) == Some(n + 9 + m));
    lemma_first_app_id_reaches(t, 0, n, n + 9 + m);
    assert(t.take(n) =~= pre);
    assert(t.skip(n + 9 + m) =~= post);
}

} // verus!
