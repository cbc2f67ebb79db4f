//! Building the server's launch: the config file's `key = value` lines, the
//! command lines of the server and of its headless clients, and the files
//! written beside them.

use vstd::prelude::*;
use crate::text;
use crate::config;

verus! {

// ---------------------------------------------------------------------------
// The `key = value` lines of an Arma config
// ---------------------------------------------------------------------------
//
// A config is read the loose way the launcher always read it: each match of
// the multi-line pattern `(.+?)(?:\s+)?=(?:\s+)?(.+?)(?:$|/|;)`, taken from
// the left and not overlapping, gives a key (the first group) and a value
// (the second). Here `.` is any character but a line feed, `\s` a
// character with the Unicode White_Space property, and `$` the end of the
// text or a position before a line feed. The specifications below say,
// step by step, which match that pattern makes.

/// The end of a value whose first character is at `j - 1`: the first
/// position from `j` on at the end of the text or at a line feed, `/` or
/// `;`.
pub open spec fn value_end(t: Seq<char>, j: int) -> int
    decreases t.len() - j,
{
    if j < 0 || j >= t.len() || t[j] == '\n' || t[j] == '/' || t[j] == ';' {
        j
    } else {
        value_end(t, j + 1)
    }
}

/// The last position in `lo ..= b` that holds a character other than a line
/// feed, if any.
pub open spec fn last_non_newline(t: Seq<char>, lo: int, b: int) -> Option<int>
    decreases b + 1 - lo,
{
    if b < lo {
        None
    } else if 0 <= b < t.len() && t[b] != '\n' {
        Some(b)
    } else {
        last_non_newline(t, lo, b - 1)
    }
}

/// Where the value starts after an `=` at `e`: the optional whitespace after
/// the `=` is taken as long as it can be while a value (at least one
/// character other than a line feed) still follows.
pub open spec fn value_start(t: Seq<char>, e: int) -> Option<int> {
    last_non_newline(t, e + 1, text::ws_run_end(t, e + 1))
}

/// A key may end at `a`: after it, optional whitespace, an `=`, and a value.
pub open spec fn key_end_ok(t: Seq<char>, a: int) -> bool {
    let e = text::ws_run_end(t, a);
    &&& 0 <= e < t.len()
    &&& t[e] == '='
    &&& value_start(t, e) is Some
}

/// The shortest key that ends at `a` or later, the key's characters (those
/// before the end) holding no line feed.
pub open spec fn key_end_from(t: Seq<char>, a: int) -> Option<int>
    decreases t.len() + 1 - a,
{
    if a < 1 || a > t.len() || t[a - 1] == '\n' {
        None
    } else if key_end_ok(t, a) {
        Some(a)
    } else {
        key_end_from(t, a + 1)
    }
}

/// The leftmost match at `s` or later: its start and the end of its key.
pub open spec fn match_from(t: Seq<char>, s: int) -> Option<(int, int)>
    decreases t.len() - s,
{
    if s < 0 || s >= t.len() {
        None
    } else {
        match key_end_from(t, s + 1) {
            Some(a) => Some((s, a)),
            None => match_from(t, s + 1),
        }
    }
}

pub proof fn lemma_value_end(t: Seq<char>, j: int)
    requires
        0 <= j <= t.len(),
    ensures
        j <= value_end(t, j) <= t.len(),
        forall|k: int| j <= k < value_end(t, j) ==> t[k] != '\n' && t[k] != '/' && t[k] != ';',
        value_end(t, j) < t.len() ==> (t[value_end(t, j)] == '\n' || t[value_end(t, j)] == '/'
            || t[value_end(t, j)] == ';'),
    decreases t.len() - j,
{
    if j < t.len() && t[j] != '\n' && t[j] != '/' && t[j] != ';' {
        lemma_value_end(t, j + 1);
    }
}

pub proof fn lemma_last_non_newline(t: Seq<char>, lo: int, b: int)
    requires
        0 <= lo,
    ensures
        last_non_newline(t, lo, b) matches Some(v) ==> lo <= v <= b && v < t.len() && t[v] != '\n',
    decreases b + 1 - lo,
{
    if b >= lo && !(0 <= b < t.len() && t[b] != '\n') {
        lemma_last_non_newline(t, lo, b - 1);
    }
}

pub proof fn lemma_key_end_from(t: Seq<char>, a: int)
    ensures
        key_end_from(t, a) matches Some(x) ==> a <= x && 1 <= x <= t.len() && key_end_ok(t, x),
    decreases t.len() + 1 - a,
{
    if !(a < 1 || a > t.len() || t[a - 1] == '\n') && !key_end_ok(t, a) {
        lemma_key_end_from(t, a + 1);
    }
}

pub proof fn lemma_match_from(t: Seq<char>, s: int)
    ensures
        match_from(t, s) matches Some((x, a)) ==> s <= x && 0 <= x < a <= t.len() && key_end_from(
            t,
            x + 1,
        ) == Some(a),
    decreases t.len() - s,
{
    if 0 <= s < t.len() {
        lemma_key_end_from(t, s + 1);
        if key_end_from(t, s + 1) is None {
            lemma_match_from(t, s + 1);
        }
    }
}

/// The facts about a match that the search for the next one rests on.
pub proof fn lemma_match_parts(t: Seq<char>, pos: int)
    requires
        0 <= pos,
        match_from(t, pos) is Some,
    ensures
        ({
            let (s, a) = match_from(t, pos).unwrap();
            let e = text::ws_run_end(t, a);
            let b = value_start(t, e).unwrap();
            &&& pos <= s < a <= e < b < t.len()
            &&& b < value_end(t, b + 1) <= t.len()
        }),
{
    let (s, a) = match_from(t, pos).unwrap();
    lemma_match_from(t, pos);
    lemma_key_end_from(t, s + 1);
    text::lemma_ws_run_end(t, a);
    let e = text::ws_run_end(t, a);
    text::lemma_ws_run_end(t, e + 1);
    lemma_last_non_newline(t, e + 1, text::ws_run_end(t, e + 1));
    let b = value_start(t, e).unwrap();
    lemma_value_end(t, b + 1);
}

/// Where the search goes on after a match whose value ends at `p`: past a
/// `/` or `;` that ended it, at a line feed or the end of the text.
pub open spec fn after_value(t: Seq<char>, p: int) -> int {
    if 0 <= p < t.len() && t[p] != '\n' {
        p + 1
    } else {
        p
    }
}

/// The (key, value) pairs of the matches from `pos` on, untrimmed.
pub open spec fn config_captures_from(t: Seq<char>, pos: int) -> Seq<(Seq<char>, Seq<char>)>
    decreases t.len() - pos,
{
    if pos < 0 {
        Seq::empty()
    } else {
        match match_from(t, pos) {
            None => Seq::empty(),
            Some((s, a)) => {
                let e = text::ws_run_end(t, a);
                let b = value_start(t, e).unwrap();
                let p = value_end(t, b + 1);
                proof {
                    lemma_match_parts(t, pos);
                }
                seq![(t.subrange(s, a), t.subrange(b, p))] + config_captures_from(t, after_value(t, p))
            },
        }
    }
}

/// The (key, value) pairs of a config, in order, untrimmed.
pub open spec fn config_captures(t: Seq<char>) -> Seq<(Seq<char>, Seq<char>)> {
    config_captures_from(t, 0)
}

/// A pair as the launcher keys it: the key trimmed and lowercased, for
/// lookups that ignore case, the value trimmed.
pub open spec fn normalize_pair(kv: (Seq<char>, Seq<char>)) -> (Seq<char>, Seq<char>) {
    (text::unicode_lowercase(text::trim(kv.0)), text::trim(kv.1))
}

/// The map of pairs, a later pair with the same key replacing an earlier.
pub open spec fn pairs_map(s: Seq<(Seq<char>, Seq<char>)>) -> Map<Seq<char>, Seq<char>>
    decreases s.len(),
{
    if s.len() == 0 {
        Map::empty()
    } else {
        pairs_map(s.drop_last()).insert(s.last().0, s.last().1)
    }
}

/// The values of a config, keyed by lowercase key.
pub open spec fn config_map(t: Seq<char>) -> Map<Seq<char>, Seq<char>> {
    pairs_map(config_captures(t).map_values(|kv: (Seq<char>, Seq<char>)| normalize_pair(kv)))
}

/// The value of the last pair with key `k` decides the map's entry for `k`.
pub proof fn lemma_pairs_map_last(s: Seq<(Seq<char>, Seq<char>)>, k: Seq<char>, i: int)
    requires
        0 <= i < s.len(),
        s[i].0 == k,
        forall|j: int| i < j < s.len() ==> s[j].0 != k,
    ensures
        pairs_map(s).contains_key(k),
        pairs_map(s)[k] == s[i].1,
    decreases s.len(),
{
    if i < s.len() - 1 {
        lemma_pairs_map_last(s.drop_last(), k, i);
    }
}

/// A key that no pair has is not in the map.
pub proof fn lemma_pairs_map_absent(s: Seq<(Seq<char>, Seq<char>)>, k: Seq<char>)
    requires
        forall|j: int| 0 <= j < s.len() ==> s[j].0 != k,
    ensures
        !pairs_map(s).contains_key(k),
    decreases s.len(),
{
    if s.len() > 0 {
        lemma_pairs_map_absent(s.drop_last(), k);
    }
}

/// The keys of the map are the keys of the pairs.
pub proof fn lemma_pairs_map_dom(s: Seq<(Seq<char>, Seq<char>)>, k: Seq<char>)
    ensures
        pairs_map(s).contains_key(k) <==> exists|j: int| 0 <= j < s.len() && s[j].0 == k,
    decreases s.len(),
{
    if s.len() > 0 {
        lemma_pairs_map_dom(s.drop_last(), k);
        if exists|j: int| 0 <= j < s.len() - 1 && s.drop_last()[j].0 == k {
            let j = choose|j: int| 0 <= j < s.len() - 1 && s.drop_last()[j].0 == k;
            assert(s[j].0 == k);
        }
        if exists|j: int| 0 <= j < s.len() && s[j].0 == k {
            let j = choose|j: int| 0 <= j < s.len() && s[j].0 == k;
            if j < s.len() - 1 {
                assert(s.drop_last()[j].0 == k);
            }
        }
    }
}

/// The values of an Arma config, keyed by lowercase key.
pub struct ConfigValues {
    pairs: Vec<(String, String)>,
}

pub open spec fn pair_view(p: (String, String)) -> (Seq<char>, Seq<char>) {
    (p.0@, p.1@)
}

impl View for ConfigValues {
    type V = Map<Seq<char>, Seq<char>>;

    closed spec fn view(&self) -> Map<Seq<char>, Seq<char>> {
        pairs_map(self.pairs@.map_values(|p: (String, String)| pair_view(p)))
    }
}

impl ConfigValues {
    /// Whether some value has the key `key`.
    pub fn contains_key(&self, key: &str) -> (b: bool)
        ensures
            b == self@.contains_key(key@),
    {
        match self.get(key) {
            Some(_) => true,
            None => false,
        }
    }

    /// The keys that have a value, each at least once.
    pub fn keys(&self) -> (ks: Vec<String>)
        ensures
            forall|k: Seq<char>| self@.contains_key(k) <==> exists|i: int| 0 <= i < ks@.len() && #[trigger] ks@[i]@ == k,
    {
        let ghost s = self.pairs@.map_values(|p: (String, String)| pair_view(p));
        let mut ks: Vec<String> = Vec::new();
        let mut i: usize = 0;
        while i < self.pairs.len()
            invariant
                i <= self.pairs.len(),
                s == self.pairs@.map_values(|p: (String, String)| pair_view(p)),
                ks@.len() == i,
                forall|j: int| 0 <= j < i ==> #[trigger] ks@[j]@ == s[j].0,
            decreases self.pairs.len() - i,
        {
            ks.push(self.pairs[i].0.clone());
            i = i + 1;
        }
        proof {
            assert forall|k: Seq<char>| self@.contains_key(k) <==> exists|i: int| 0 <= i < ks@.len() && #[trigger] ks@[i]@ == k by {
                lemma_pairs_map_dom(s, k);
                if exists|j: int| 0 <= j < s.len() && s[j].0 == k {
                    let j = choose|j: int| 0 <= j < s.len() && s[j].0 == k;
                    assert(ks@[j]@ == k);
                }
            }
        }
        ks
    }

    /// The value with the key `key`.
    pub fn get(&self, key: &str) -> (r: Option<&String>)
        ensures
            r is Some <==> self@.contains_key(key@),
            r matches Some(v) ==> v@ == self@[key@],
    {
        let ghost s = self.pairs@.map_values(|p: (String, String)| pair_view(p));
        let kc = text::chars_of(key);
        let mut i = self.pairs.len();
        while i > 0
            invariant
                i <= self.pairs.len(),
                s == self.pairs@.map_values(|p: (String, String)| pair_view(p)),
                kc@ == key@,
                forall|j: int| i <= j < s.len() ==> s[j].0 != key@,
            decreases i,
        {
            let pk = text::chars_of(self.pairs[i - 1].0.as_str());
            if text::chars_eq(pk.as_slice(), kc.as_slice()) {
                proof {
                    lemma_pairs_map_last(s, key@, i - 1);
                }
                return Some(&self.pairs[i - 1].1);
            }
            i = i - 1;
        }
        proof {
            lemma_pairs_map_absent(s, key@);
        }
        None
    }
}

// ---------------------------------------------------------------------------
// Finding the matches
// ---------------------------------------------------------------------------

fn value_end_exec(t: &[char], j: usize) -> (r: usize)
    requires
        j <= t.len(),
    ensures
        r == value_end(t@, j as int),
{
    let mut k = j;
    while k < t.len() && t[k] != '\n' && t[k] != '/' && t[k] != ';'
        invariant
            j <= k <= t.len(),
            value_end(t@, j as int) == value_end(t@, k as int),
        decreases t.len() - k,
    {
        k = k + 1;
    }
    k
}

fn value_start_exec(t: &[char], e: usize) -> (r: Option<usize>)
    requires
        e < t.len(),
    ensures
        r matches Some(b) ==> value_start(t@, e as int) == Some(b as int),
        r is None ==> value_start(t@, e as int) is None,
{
    let w = text::ws_run_end_exec(t, e + 1);
    proof {
        text::lemma_ws_run_end(t@, e + 1);
    }
    let mut b = w;
    loop
        invariant
            e < t.len(),
            e + 1 <= b <= t.len(),
            value_start(t@, e as int) == last_non_newline(t@, e + 1, b as int),
        decreases b,
    {
        if b < t.len() && t[b] != '\n' {
            return Some(b);
        }
        if b == e + 1 {
            assert(last_non_newline(t@, e + 1, e as int) is None);
            return None;
        }
        b = b - 1;
    }
}

fn key_end_ok_exec(t: &[char], a: usize) -> (r: Option<(usize, usize)>)
    requires
        a <= t.len(),
    ensures
        r is Some <==> key_end_ok(t@, a as int),
        r matches Some((e, b)) ==> e == text::ws_run_end(t@, a as int) && value_start(t@, e as int)
            == Some(b as int),
{
    let e = text::ws_run_end_exec(t, a);
    proof {
        text::lemma_ws_run_end(t@, a as int);
    }
    if e < t.len() && t[e] == '=' {
        match value_start_exec(t, e) {
            Some(b) => Some((e, b)),
            None => None,
        }
    } else {
        None
    }
}

/// The first match from `pos` on: its start, key end, `=`, value start.
fn match_from_exec(t: &[char], pos: usize) -> (r: Option<(usize, usize, usize, usize)>)
    requires
        pos <= t.len(),
    ensures
        r is None ==> match_from(t@, pos as int) is None,
        r matches Some((s, a, e, b)) ==> {
            &&& match_from(t@, pos as int) == Some((s as int, a as int))
            &&& e == text::ws_run_end(t@, a as int)
            &&& value_start(t@, e as int) == Some(b as int)
        },
{
    let mut s = pos;
    while s < t.len()
        invariant
            pos <= s <= t.len(),
            match_from(t@, pos as int) == match_from(t@, s as int),
        decreases t.len() - s,
    {
        // `k` is the index of the key's last character.
        let mut k = s;
        while k < t.len() && t[k] != '\n'
            invariant
                s <= k <= t.len(),
                s < t.len(),
                match_from(t@, pos as int) == match_from(t@, s as int),
                key_end_from(t@, s + 1) == key_end_from(t@, k + 1),
            decreases t.len() - k,
        {
            match key_end_ok_exec(t, k + 1) {
                Some((e, b)) => {
                    assert(key_end_from(t@, k + 1) == Some((k + 1) as int));
                    assert(match_from(t@, s as int) == Some((s as int, (k + 1) as int)));
                    return Some((s, k + 1, e, b));
                },
                None => {},
            }
            k = k + 1;
        }
        s = s + 1;
    }
    None
}

/// The (key, value) pairs of a config, in order, untrimmed.
fn config_captures_exec(t: &[char]) -> (r: Vec<(Vec<char>, Vec<char>)>)
    ensures
        r@.len() == config_captures(t@).len(),
        forall|i: int| 0 <= i < r@.len() ==> (#[trigger] r@[i]).0@ == config_captures(t@)[i].0 && r@[i].1@
            == config_captures(t@)[i].1,
{
    let mut r: Vec<(Vec<char>, Vec<char>)> = Vec::new();
    let mut pos: usize = 0;
    while pos < t.len()
        invariant
            pos <= t.len(),
            r@.len() + config_captures_from(t@, pos as int).len() == config_captures(t@).len(),
            forall|i: int| 0 <= i < r@.len() ==> (#[trigger] r@[i]).0@ == config_captures(t@)[i].0 && r@[i].1@
                == config_captures(t@)[i].1,
            forall|i: int| 0 <= i < config_captures_from(t@, pos as int).len() ==>
                config_captures(t@)[r@.len() + i] == #[trigger] config_captures_from(t@, pos as int)[i],
        decreases t.len() - pos,
    {
        match match_from_exec(t, pos) {
            None => {
                return r;
            },
            Some((s, a, e, b)) => {
                proof {
                    lemma_match_parts(t@, pos as int);
                }
                let p = value_end_exec(t, b + 1);
                let mut key: Vec<char> = Vec::new();
                let mut k = s;
                while k < a
                    invariant
                        s <= k <= a,
                        a <= t.len(),
                        key@ == t@.subrange(s as int, k as int),
                    decreases a - k,
                {
                    key.push(t[k]);
                    k = k + 1;
                    assert(key@ =~= t@.subrange(s as int, k as int));
                }
                let mut val: Vec<char> = Vec::new();
                let mut k = b;
                while k < p
                    invariant
                        b <= k <= p,
                        p <= t.len(),
                        val@ == t@.subrange(b as int, k as int),
                    decreases p - k,
                {
                    val.push(t[k]);
                    k = k + 1;
                    assert(val@ =~= t@.subrange(b as int, k as int));
                }
                let next = if p < t.len() && t[p] != '\n' { p + 1 } else { p };
                let ghost old_r = r@;
                let ghost rest = config_captures_from(t@, pos as int);
                let ghost tail = config_captures_from(t@, next as int);
                assert(rest == seq![(key@, val@)] + tail);
                r.push((key, val));
                proof {
                    assert(config_captures(t@)[old_r.len() as int] == rest[0]);
                    assert forall|i: int| 0 <= i < tail.len() implies
                        config_captures(t@)[r@.len() + i] == #[trigger] tail[i] by {
                        assert(rest[i + 1] == tail[i]);
                    }
                }
                pos = next;
            },
        }
    }
    r
}

/// Reads the `key = value` lines of an Arma config the loose way the
/// launcher always has: keys trimmed and lowercased for lookups that ignore
/// case, values trimmed, a later key replacing an earlier one.
pub fn parse_config_values(data: &str) -> (values: ConfigValues)
    ensures
        values@ == config_map(data@),
{
    let t = text::chars_of(data);
    let caps = config_captures_exec(t.as_slice());
    let ghost norm = config_captures(t@).map_values(|kv: (Seq<char>, Seq<char>)| normalize_pair(kv));
    let mut pairs: Vec<(String, String)> = Vec::new();
    let mut i: usize = 0;
    while i < caps.len()
        invariant
            i <= caps.len(),
            caps@.len() == config_captures(t@).len(),
            forall|j: int| 0 <= j < caps@.len() ==> (#[trigger] caps@[j]).0@ == config_captures(t@)[j].0
                && caps@[j].1@ == config_captures(t@)[j].1,
            norm == config_captures(t@).map_values(|kv: (Seq<char>, Seq<char>)| normalize_pair(kv)),
            pairs@.map_values(|p: (String, String)| pair_view(p)) == norm.take(i as int),
        decreases caps.len() - i,
    {
        let kt = text::trim_exec(caps[i].0.as_slice());
        let ks = text::string_of(kt.as_slice());
        let key = text::to_lowercase(ks.as_str());
        let vt = text::trim_exec(caps[i].1.as_slice());
        let value = text::string_of(vt.as_slice());
        let ghost before = pairs@;
        let ghost kv = (key@, value@);
        pairs.push((key, value));
        proof {
            assert(pairs@.map_values(|p: (String, String)| pair_view(p)) =~= before.map_values(
                |p: (String, String)| pair_view(p),
            ).push(kv));
            assert(norm.take(i + 1) =~= norm.take(i as int).push(norm[i as int]));
        }
        i = i + 1;
    }
    assert(norm.take(caps.len() as int) =~= norm);
    ConfigValues { pairs }
}

// ---------------------------------------------------------------------------
// Command lines
// ---------------------------------------------------------------------------

/// The value of a variable, or `default` where it is unset.
pub open spec fn value_or(value: Option<String>, default: Seq<char>) -> Seq<char> {
    match value {
        Some(v) => v@,
        None => default,
    }
}

fn value_or_exec(value: &Option<String>, default: &str) -> (r: Vec<char>)
    ensures
        r@ == value_or(*value, default@),
{
    match value {
        Some(v) => text::chars_of(v.as_str()),
        None => text::chars_of(default),
    }
}

/// A `-name="a;b;c" ` parameter for a list of mods, or nothing for none.
pub open spec fn mod_param_spec(name: Seq<char>, mods: Seq<Seq<char>>) -> Seq<char> {
    if mods.len() == 0 {
        Seq::empty()
    } else {
        " -"@ + name + "=\""@ + text::join(mods, ";"@) + "\" "@
    }
}

/// The ` -mod=name` parameters of the Creator DLCs, in order.
pub open spec fn cdlc_params(cdlc: Seq<Seq<char>>) -> Seq<char>
    decreases cdlc.len(),
{
    if cdlc.len() == 0 {
        Seq::empty()
    } else {
        cdlc_params(cdlc.drop_last()) + " -mod="@ + cdlc.last()
    }
}

/// The server's command line before the config and network parameters:
/// the binary, the frame limit (1000 by default), the world (`empty` by
/// default), the extra parameters, the mods, and each Creator DLC.
pub open spec fn launch_command_spec(
    binary: Seq<char>,
    limit_fps: Option<String>,
    world: Option<String>,
    params: Option<String>,
    mods: Seq<Seq<char>>,
    cdlc: Seq<Seq<char>>,
) -> Seq<char> {
    binary + " -limitFPS="@ + value_or(limit_fps, "1000"@) + " -world="@ + value_or(world, "empty"@) + " "@
        + value_or(params, Seq::empty()) + " "@ + mod_param_spec("mod"@, mods) + cdlc_params(cdlc)
}

/// The text of a `line` added to a config where its key is missing.
pub open spec fn headless_clients_line() -> Seq<char> {
    "\nheadlessclients[] = {\"127.0.0.1\"};\n"@
}

pub open spec fn local_client_line() -> Seq<char> {
    "\nlocalclient[] = {\"127.0.0.1\"};\n"@
}

/// A config that lets the headless clients (on this host) join: the lines
/// for `headlessclients[]` and `localclient[]` added where the config has no
/// value for them.
pub open spec fn headless_config_spec(data: Seq<char>, values: Map<Seq<char>, Seq<char>>) -> Seq<char> {
    data + (if values.contains_key("headlessclients[]"@) {
        Seq::empty()
    } else {
        headless_clients_line()
    }) + (if values.contains_key("localclient[]"@) {
        Seq::empty()
    } else {
        local_client_line()
    })
}

/// The path of the config written for this run.
pub open spec fn temp_config() -> Seq<char> {
    "/tmp/arma3.cfg"@
}

/// The parameter that points the server at the config written for this run.
pub open spec fn temp_config_param() -> Seq<char> {
    " -config=\""@ + temp_config() + "\""@
}

/// A headless client's command line: the server's, as a client of this
/// host on `port`, with the server's password where the config has one.
pub open spec fn client_launch_spec(launch: Seq<char>, port: Option<String>, password: Option<Seq<char>>) -> Seq<char> {
    launch + " -client -connect=127.0.0.1 -port="@ + value_or(port, "2302"@) + match password {
        Some(p) => " -password="@ + p,
        None => Seq::empty(),
    }
}

/// The profile name of headless client `i` (from 0): the template
/// (`$profile-hc-$i` by default) with `$profile` replaced by the server's
/// profile (`main` by default), then `$ii` by `i + 1`, then `$i` by `i`;
/// `$ii` goes first since `$i` is a prefix of it.
pub open spec fn hc_name_spec(template: Option<String>, profile: Option<String>, i: nat) -> Seq<char> {
    let t1 = text::replace_all(value_or(template, "$profile-hc-$i"@), "$profile"@, value_or(profile, "main"@));
    let t2 = text::replace_all(t1, "$ii"@, text::decimal(i + 1));
    text::replace_all(t2, "$i"@, text::decimal(i))
}

/// A headless client's command line with its profile name.
pub open spec fn hc_launch_spec(client_launch: Seq<char>, name: Seq<char>) -> Seq<char> {
    client_launch + " -name=\""@ + name + "\""@
}

/// Where the command of headless client `i` (from 0) is saved.
pub open spec fn hc_script_path_spec(i: nat) -> Seq<char> {
    "/arma3/server/hc_command_"@ + text::decimal(i + 1) + ".sh"@
}

/// The script that runs a headless client from the server's directory.
pub open spec fn hc_script_spec(hc_launch: Seq<char>) -> Seq<char> {
    "#!/bin/bash\ncd /arma3/server\n"@ + hc_launch + "\n"@
}

/// Builds the server's command line before its config and network
/// parameters.
pub fn launch_command(
    binary: &str,
    limit_fps: &Option<String>,
    world: &Option<String>,
    params: &Option<String>,
    mods: &[String],
    cdlc: &[String],
) -> (r: String)
    ensures
        r@ == launch_command_spec(binary@, *limit_fps, *world, *params, text::views(mods@), text::views(cdlc@)),
{
    let mut out = text::chars_of(binary);
    text::extend_str(&mut out, " -limitFPS=");
    let fps = value_or_exec(limit_fps, "1000");
    text::extend_chars(&mut out, fps.as_slice());
    text::extend_str(&mut out, " -world=");
    let w = value_or_exec(world, "empty");
    text::extend_chars(&mut out, w.as_slice());
    text::extend_str(&mut out, " ");
    proof { reveal_strlit(""); }
    let p = value_or_exec(params, "");
    text::extend_chars(&mut out, p.as_slice());
    text::extend_str(&mut out, " ");
    let mp = mod_param("mod", mods);
    text::extend_string(&mut out, &mp);
    let ghost names = text::views(cdlc@);
    let ghost head = out@;
    let mut i: usize = 0;
    while i < cdlc.len()
        invariant
            i <= cdlc.len(),
            names == text::views(cdlc@),
            out@ == head + cdlc_params(names.take(i as int)),
        decreases cdlc.len() - i,
    {
        proof {
            assert(names.take(i + 1).drop_last() =~= names.take(i as int));
        }
        text::extend_str(&mut out, " -mod=");
        text::extend_string(&mut out, &cdlc[i]);
        i = i + 1;
        assert(out@ =~= head + cdlc_params(names.take(i as int)));
    }
    assert(names.take(cdlc.len() as int) =~= names);
    text::string_of(out.as_slice())
}

/// A `-name="a;b;c" ` parameter for a list of mods, or nothing for none.
pub fn mod_param(name: &str, mods: &[String]) -> (r: String)
    ensures
        r@ == mod_param_spec(name@, text::views(mods@)),
{
    if mods.len() == 0 {
        return String::new();
    }
    let mut out = text::chars_of(" -");
    text::extend_str(&mut out, name);
    text::extend_str(&mut out, "=\"");
    let sep = text::chars_of(";");
    let joined = text::join_exec(mods, sep.as_slice());
    text::extend_chars(&mut out, joined.as_slice());
    text::extend_str(&mut out, "\" ");
    text::string_of(out.as_slice())
}

/// The number of headless clients to start: none where the variable is
/// unset, else its value as `u32` parses it; `None` where it is no number.
pub fn headless_client_count(value: &Option<String>) -> (r: Option<u32>)
    ensures
        r == (match *value {
            Some(v) => match text::parse_unsigned(v@, u32::MAX as nat) {
                Some(n) => Some(n as u32),
                None => None,
            },
            None => Some(0u32),
        }),
{
    match value {
        Some(v) => {
            let c = text::chars_of(v.as_str());
            match text::parse_unsigned_exec(c.as_slice(), 0xffff_ffffu64) {
                Some(n) => Some(n as u32),
                None => None,
            }
        },
        None => Some(0),
    }
}

/// Adds the lines that let headless clients on this host join, for each
/// of `headlessclients[]` and `localclient[]` that the config lacks;
/// `values` are the config's values.
pub fn headless_config(data: &str, values: &ConfigValues) -> (r: String)
    ensures
        r@ == headless_config_spec(data@, values@),
{
    let mut out = text::chars_of(data);
    if !values.contains_key("headlessclients[]") {
        text::extend_str(&mut out, "\nheadlessclients[] = {\"127.0.0.1\"};\n");
    }
    if !values.contains_key("localclient[]") {
        text::extend_str(&mut out, "\nlocalclient[] = {\"127.0.0.1\"};\n");
    }
    let r = text::string_of(out.as_slice());
    assert(r@ =~= headless_config_spec(data@, values@));
    r
}

/// The parameter that points the server at the config written for this run.
pub fn temp_config_param_exec() -> (r: String)
    ensures
        r@ == temp_config_param(),
{
    let mut out = text::chars_of(" -config=\"");
    text::extend_str(&mut out, "/tmp/arma3.cfg");
    text::extend_str(&mut out, "\"");
    text::string_of(out.as_slice())
}

/// A headless client's command line.
pub fn client_launch_command(launch: &str, port: &Option<String>, password: Option<&String>) -> (r: String)
    ensures
        r@ == client_launch_spec(
            launch@,
            *port,
            match password {
                Some(p) => Some(p@),
                None => None,
            },
        ),
{
    let mut out = text::chars_of(launch);
    text::extend_str(&mut out, " -client -connect=127.0.0.1 -port=");
    let p = value_or_exec(port, "2302");
    text::extend_chars(&mut out, p.as_slice());
    match password {
        Some(pw) => {
            text::extend_str(&mut out, " -password=");
            text::extend_string(&mut out, pw);
        },
        None => {},
    }
    let r = text::string_of(out.as_slice());
    assert(r@ =~= client_launch_spec(
        launch@,
        *port,
        match password {
            Some(p) => Some(p@),
            None => None,
        },
    ));
    r
}

/// The profile name of headless client `i` (from 0).
pub fn hc_name(template: &Option<String>, profile: &Option<String>, i: u32) -> (r: String)
    requires
        i < u32::MAX,
    ensures
        r@ == hc_name_spec(*template, *profile, i as nat),
{
    let t = value_or_exec(template, "$profile-hc-$i");
    let pr = value_or_exec(profile, "main");
    let pat1 = text::chars_of("$profile");
    let pat2 = text::chars_of("$ii");
    let pat3 = text::chars_of("$i");
    proof {
        reveal_strlit("$profile");
        reveal_strlit("$ii");
        reveal_strlit("$i");
    }
    let t1 = text::replace_all_exec(t.as_slice(), pat1.as_slice(), pr.as_slice());
    let next = text::decimal_exec((i + 1) as u64);
    let t2 = text::replace_all_exec(t1.as_slice(), pat2.as_slice(), next.as_slice());
    let cur = text::decimal_exec(i as u64);
    let t3 = text::replace_all_exec(t2.as_slice(), pat3.as_slice(), cur.as_slice());
    text::string_of(t3.as_slice())
}

/// A headless client's command line with its profile name.
pub fn hc_launch_command(client_launch: &str, name: &str) -> (r: String)
    ensures
        r@ == hc_launch_spec(client_launch@, name@),
{
    let mut out = text::chars_of(client_launch);
    text::extend_str(&mut out, " -name=\"");
    text::extend_str(&mut out, name);
    text::extend_str(&mut out, "\"");
    text::string_of(out.as_slice())
}

/// Where the command of headless client `i` (from 0) is saved.
pub fn hc_script_path(i: u32) -> (r: String)
    requires
        i < u32::MAX,
    ensures
        r@ == hc_script_path_spec(i as nat),
{
    let mut out = text::chars_of("/arma3/server/hc_command_");
    let n = text::decimal_exec((i + 1) as u64);
    text::extend_chars(&mut out, n.as_slice());
    text::extend_str(&mut out, ".sh");
    text::string_of(out.as_slice())
}

/// The script that runs a headless client from the server's directory.
pub fn hc_script(hc_launch: &str) -> (r: String)
    ensures
        r@ == hc_script_spec(hc_launch@),
{
    let mut out = text::chars_of("#!/bin/bash\ncd /arma3/server\n");
    text::extend_str(&mut out, hc_launch);
    text::extend_str(&mut out, "\n");
    text::string_of(out.as_slice())
}

// ---------------------------------------------------------------------------
// Starting a mission, and the rest of the command line
// ---------------------------------------------------------------------------

/// A mission name without a trailing `.pbo`.
pub open spec fn strip_pbo(s: Seq<char>) -> Seq<char> {
    if text::ends_with(s, ".pbo"@) {
        s.take(s.len() - 4)
    } else {
        s
    }
}

/// The mission to start with the server: the variable's value where it is
/// set and not empty, without a trailing `.pbo`.
pub open spec fn init_mission_spec(value: Option<String>) -> Option<Seq<char>> {
    match value {
        Some(v) => if v@.len() > 0 {
            Some(strip_pbo(v@))
        } else {
            None
        },
        None => None,
    }
}

/// The class that makes the server start `mission`.
pub open spec fn missions_class(mission: Seq<char>) -> Seq<char> {
    "\nclass Missions {\n  class Mission_1 {\n    template = \""@ + mission
        + "\";\n    difficulty = \"skua_difficulty\";\n  };\n};\n"@
}

/// A config that starts `mission`: made persistent unless its lowercase
/// text already mentions `persistent`, and with the mission's class added.
pub open spec fn init_mission_config_spec(data: Seq<char>, mission: Seq<char>) -> Seq<char> {
    (if text::contains_seq(text::unicode_lowercase(data), "persistent"@) {
        data
    } else {
        data + "\npersistent = 1;\n"@
    }) + missions_class(mission)
}

/// The path of a config among the server's configs.
pub open spec fn server_config_path_spec(file: Seq<char>) -> Seq<char> {
    "/arma3/server/configs/"@ + file
}

/// Whether this run writes a config of its own: for headless clients to
/// join, or for a mission to start.
pub open spec fn writes_temp_config_spec(clients: u32, mission: Option<Seq<char>>) -> bool {
    clients != 0 || mission is Some
}

/// The text by which a command line names the config written for this run.
pub open spec fn temp_config_flag() -> Seq<char> {
    "-config=\""@ + temp_config() + "\""@
}

/// Whether a command line already names the config written for this run.
pub open spec fn names_temp_config(launch: Seq<char>) -> bool {
    text::contains_seq(launch, temp_config_flag())
}

/// The server's command line once it names the config written for the
/// headless clients, where there are any.
pub open spec fn with_clients_spec(launch: Seq<char>, clients: u32) -> Seq<char> {
    if clients != 0 {
        launch + temp_config_param()
    } else {
        launch
    }
}

/// Whether the server's config is read: for the headless clients, or as
/// the start of the mission's config where the command line does not
/// already name the config written for this run.
pub open spec fn reads_server_config_spec(launch: Seq<char>, clients: u32, mission: Option<Seq<char>>) -> bool {
    clients != 0 || (mission is Some && !names_temp_config(launch))
}

/// Whether the config already at the written config's path is read, as the
/// start of the mission's config: where there are no headless clients and
/// the command line (through its extra parameters) already names it.
pub open spec fn reads_existing_temp_config_spec(launch: Seq<char>, clients: u32, mission: Option<Seq<char>>) -> bool {
    clients == 0 && mission is Some && names_temp_config(launch)
}

/// The config written for this run. For headless clients it is the
/// server's config with the lines that let them join. For a mission it is
/// set to start the mission, from the config the command line names at
/// that point: the one just written for the headless clients, the one
/// already at the written config's path, or else the server's.
pub open spec fn temp_config_spec(
    launch: Seq<char>,
    server_config: Seq<char>,
    existing_temp_config: Seq<char>,
    clients: u32,
    mission: Option<Seq<char>>,
) -> Seq<char> {
    let hc = headless_config_spec(server_config, config_map(server_config));
    match mission {
        None => hc,
        Some(m) => {
            let base = if clients != 0 {
                hc
            } else if names_temp_config(launch) {
                existing_temp_config
            } else {
                server_config
            };
            init_mission_config_spec(base, m)
        },
    }
}

/// The server's command line once it names the config written for this
/// run (for headless clients, and for a mission unless it already names
/// it) and starts the mission (where there is one).
pub open spec fn planned_launch_spec(launch: Seq<char>, clients: u32, mission: Option<Seq<char>>) -> Seq<char> {
    let l1 = with_clients_spec(launch, clients);
    let l2 = if mission is Some && !names_temp_config(l1) {
        l1 + temp_config_param()
    } else {
        l1
    };
    if mission is Some {
        l2 + " -autoInit"@
    } else {
        l2
    }
}

/// The password in the server's config, if it has one.
pub open spec fn config_password(server_config: Seq<char>) -> Option<Seq<char>> {
    if config_map(server_config).contains_key("password"@) {
        Some(config_map(server_config)["password"@])
    } else {
        None
    }
}

/// The headless clients' command line: the server's, naming the config
/// written for this run, as a client, with the server config's password.
pub open spec fn planned_client_launch_spec(launch: Seq<char>, server_config: Seq<char>, port: Option<String>) -> Seq<char> {
    client_launch_spec(launch + temp_config_param(), port, config_password(server_config))
}

/// The parameter that names the server's config: none where the command
/// line already names the one written for this run, else the one among the
/// server's configs.
pub open spec fn config_param_spec(launch: Seq<char>, config_file: Seq<char>) -> Seq<char> {
    if names_temp_config(launch) {
        Seq::empty()
    } else {
        " -config=\""@ + server_config_path_spec(config_file) + "\""@
    }
}

/// The parameters after the config: the port (2302 by default), profile
/// (`main` by default) and profiles directory, the network config, and the
/// server-side mods.
pub open spec fn launch_tail_spec(
    port: Option<String>,
    profile: Option<String>,
    network_config: Seq<char>,
    server_mods: Seq<Seq<char>>,
) -> Seq<char> {
    " -port="@ + value_or(port, "2302"@) + " -name=\""@ + value_or(profile, "main"@)
        + "\" -profiles=\"/arma3/server/configs/profiles\" -cfg=\"/arma3/server/configs/"@
        + network_config + "\""@ + mod_param_spec("serverMod"@, server_mods)
}

/// The server's full command line, from its planned one.
pub open spec fn finish_launch_spec(
    launch: Seq<char>,
    config_file: Seq<char>,
    port: Option<String>,
    profile: Option<String>,
    network_config: Seq<char>,
    server_mods: Seq<Seq<char>>,
) -> Seq<char> {
    launch + config_param_spec(launch, config_file) + launch_tail_spec(
        port,
        profile,
        network_config,
        server_mods,
    )
}

/// What a launch writes and runs, once its inputs are read.
pub struct LaunchPlan {
    /// The config written for this run, if one is.
    pub temp_config: Option<String>,
    /// The headless clients' command line, where there are any.
    pub client_launch: Option<String>,
    /// The server's command line before its config and network parameters.
    pub launch: String,
}

/// The mission to start with the server, if any.
pub fn init_mission(value: &Option<String>) -> (r: Option<String>)
    ensures
        config::opt_view(r) == init_mission_spec(*value),
{
    match value {
        Some(v) => {
            let c = text::chars_of(v.as_str());
            if c.len() == 0 {
                return None;
            }
            let suffix = text::chars_of(".pbo");
            proof { reveal_strlit(".pbo"); }
            if text::ends_with_exec(c.as_slice(), suffix.as_slice()) {
                let mut out: Vec<char> = Vec::new();
                let mut k: usize = 0;
                while k < c.len() - 4
                    invariant
                        c@.len() >= 4,
                        k <= c.len() - 4,
                        out@ == c@.take(k as int),
                    decreases c.len() - 4 - k,
                {
                    out.push(c[k]);
                    k = k + 1;
                    assert(out@ =~= c@.take(k as int));
                }
                Some(text::string_of(out.as_slice()))
            } else {
                Some(text::string_of(c.as_slice()))
            }
        },
        None => None,
    }
}

/// The config that starts `mission` with the server.
pub fn init_mission_config(data: &str, mission: &str) -> (r: String)
    ensures
        r@ == init_mission_config_spec(data@, mission@),
{
    let lower = text::to_lowercase(data);
    let lc = text::chars_of(lower.as_str());
    let pat = text::chars_of("persistent");
    let mut out = text::chars_of(data);
    if !text::contains_exec(lc.as_slice(), pat.as_slice()) {
        text::extend_str(&mut out, "\npersistent = 1;\n");
    }
    text::extend_str(&mut out, "\nclass Missions {\n  class Mission_1 {\n    template = \"");
    text::extend_str(&mut out, mission);
    text::extend_str(&mut out, "\";\n    difficulty = \"skua_difficulty\";\n  };\n};\n");
    let r = text::string_of(out.as_slice());
    assert(r@ =~= init_mission_config_spec(data@, mission@));
    r
}

/// The path of a config among the server's configs.
pub fn server_config_path(file: &str) -> (r: String)
    ensures
        r@ == server_config_path_spec(file@),
{
    let mut out = text::chars_of("/arma3/server/configs/");
    text::extend_str(&mut out, file);
    text::string_of(out.as_slice())
}

/// Whether this run writes a config of its own.
pub fn writes_temp_config(clients: u32, mission: &Option<String>) -> (b: bool)
    ensures
        b == writes_temp_config_spec(clients, config::opt_view(*mission)),
{
    clients != 0 || mission.is_some()
}

fn names_temp_config_chars(launch: &[char]) -> (b: bool)
    ensures
        b == names_temp_config(launch@),
{
    let mut flag = text::chars_of("-config=\"");
    text::extend_str(&mut flag, "/tmp/arma3.cfg");
    text::extend_str(&mut flag, "\"");
    text::contains_exec(launch, flag.as_slice())
}

/// Whether a command line already names the config written for this run.
pub fn names_temp_config_exec(launch: &str) -> (b: bool)
    ensures
        b == names_temp_config(launch@),
{
    let l = text::chars_of(launch);
    names_temp_config_chars(l.as_slice())
}

/// Whether the launch planned from `launch` reads the server's config.
pub fn reads_server_config(launch: &str, clients: u32, mission: &Option<String>) -> (b: bool)
    ensures
        b == reads_server_config_spec(launch@, clients, config::opt_view(*mission)),
{
    clients != 0 || (mission.is_some() && !names_temp_config_exec(launch))
}

/// Whether the launch planned from `launch` reads the config already at
/// the written config's path.
pub fn reads_existing_temp_config(launch: &str, clients: u32, mission: &Option<String>) -> (b: bool)
    ensures
        b == reads_existing_temp_config_spec(launch@, clients, config::opt_view(*mission)),
{
    clients == 0 && mission.is_some() && names_temp_config_exec(launch)
}

/// Plans a launch: the config written for this run, the headless clients'
/// command line, and the server's command line so far. `launch` is the
/// server's command line from `launch_command`; `server_config` the text of
/// the server's config, and `existing_temp_config` that of the config
/// already at the written config's path (each read only where
/// `reads_server_config` and `reads_existing_temp_config` say so, and not
/// looked at otherwise); `clients` the number of headless clients; and
/// `mission` the mission to start, from `init_mission`.
pub fn plan_launch(
    launch: &str,
    server_config: &str,
    existing_temp_config: &str,
    clients: u32,
    port: &Option<String>,
    mission: &Option<String>,
) -> (plan: LaunchPlan)
    ensures
        plan.temp_config is Some <==> writes_temp_config_spec(clients, config::opt_view(*mission)),
        plan.temp_config matches Some(t) ==> t@ == temp_config_spec(
            launch@,
            server_config@,
            existing_temp_config@,
            clients,
            config::opt_view(*mission),
        ),
        plan.client_launch is Some <==> clients != 0,
        plan.client_launch matches Some(c) ==> c@ == planned_client_launch_spec(launch@, server_config@, *port),
        plan.launch@ == planned_launch_spec(launch@, clients, config::opt_view(*mission)),
{
    let launch_names_temp = names_temp_config_exec(launch);
    let mut out = text::chars_of(launch);
    let mut client_launch: Option<String> = None;
    let values = parse_config_values(server_config);
    let hc = headless_config(server_config, &values);
    if clients != 0 {
        let param = temp_config_param_exec();
        text::extend_string(&mut out, &param);
        let l = text::string_of(out.as_slice());
        client_launch = Some(client_launch_command(l.as_str(), port, values.get("password")));
    }
    let temp_config: Option<String> = match mission {
        Some(m) => {
            let base: &str = if clients != 0 {
                hc.as_str()
            } else if launch_names_temp {
                existing_temp_config
            } else {
                server_config
            };
            Some(init_mission_config(base, m.as_str()))
        },
        None => if clients != 0 {
            Some(hc)
        } else {
            None
        },
    };
    if mission.is_some() {
        if !names_temp_config_chars(out.as_slice()) {
            let param = temp_config_param_exec();
            text::extend_string(&mut out, &param);
        }
        text::extend_str(&mut out, " -autoInit");
    }
    let launch_out = text::string_of(out.as_slice());
    assert(launch_out@ =~= planned_launch_spec(launch@, clients, config::opt_view(*mission)));
    LaunchPlan { temp_config, client_launch, launch: launch_out }
}

/// The server's full command line, from `launch` as `plan_launch` leaves it.
pub fn finish_launch_command(
    launch: &str,
    config_file: &str,
    port: &Option<String>,
    profile: &Option<String>,
    network_config: &str,
    server_mods: &[String],
) -> (r: String)
    ensures
        r@ == finish_launch_spec(launch@, config_file@, *port, *profile, network_config@, text::views(server_mods@)),
{
    let mut out = text::chars_of(launch);
    if !names_temp_config_exec(launch) {
        text::extend_str(&mut out, " -config=\"");
        let path = server_config_path(config_file);
        text::extend_string(&mut out, &path);
        text::extend_str(&mut out, "\"");
    }
    text::extend_str(&mut out, " -port=");
    let p = value_or_exec(port, "2302");
    text::extend_chars(&mut out, p.as_slice());
    text::extend_str(&mut out, " -name=\"");
    let pr = value_or_exec(profile, "main");
    text::extend_chars(&mut out, pr.as_slice());
    text::extend_str(&mut out, "\" -profiles=\"/arma3/server/configs/profiles\" -cfg=\"/arma3/server/configs/");
    text::extend_str(&mut out, network_config);
    text::extend_str(&mut out, "\"");
    let mp = mod_param("serverMod", server_mods);
    text::extend_string(&mut out, &mp);
    let r = text::string_of(out.as_slice());
    assert(r@ =~= finish_launch_spec(launch@, config_file@, *port, *profile, network_config@, text::views(server_mods@)));
    r
}

/// Whether a file in the server's directory is a saved headless-client
/// command, to be removed before a launch.
pub fn is_hc_script_name(name: &str) -> (b: bool)
    ensures
        b == (text::starts_with(name@, "hc_command_"@) && text::ends_with(name@, ".sh"@)),
{
    let n = text::chars_of(name);
    let pre = text::chars_of("hc_command_");
    let suf = text::chars_of(".sh");
    text::starts_with_exec(n.as_slice(), pre.as_slice()) && text::ends_with_exec(n.as_slice(), suf.as_slice())
}

// ---------------------------------------------------------------------------
// Laws
// ---------------------------------------------------------------------------

/// Every value in the map comes from some pair, and is that pair's value.
pub proof fn lemma_pairs_map_value(s: Seq<(Seq<char>, Seq<char>)>, k: Seq<char>)
    requires
        pairs_map(s).contains_key(k),
    ensures
        exists|j: int| 0 <= j < s.len() && s[j].0 == k && #[trigger] s[j].1 == pairs_map(s)[k],
    decreases s.len(),
{
    if s.last().0 == k {
        assert(s[s.len() - 1].1 == pairs_map(s)[k]);
    } else {
        lemma_pairs_map_value(s.drop_last(), k);
        let j = choose|j: int| 0 <= j < s.len() - 1 && s.drop_last()[j].0 == k && #[trigger] s.drop_last()[j].1
            == pairs_map(s.drop_last())[k];
        assert(s[j].1 == pairs_map(s)[k]);
    }
}

/// The values of a config are trimmed: they hold no leading or trailing
/// whitespace.
pub proof fn law_config_values_trimmed(t: Seq<char>, k: Seq<char>)
    requires
        config_map(t).contains_key(k),
    ensures
        text::trim(config_map(t)[k]) == config_map(t)[k],
{
    let norm = config_captures(t).map_values(|kv: (Seq<char>, Seq<char>)| normalize_pair(kv));
    lemma_pairs_map_value(norm, k);
    let j = choose|j: int| 0 <= j < norm.len() && norm[j].0 == k && #[trigger] norm[j].1 == pairs_map(norm)[k];
    text::lemma_trim_idempotent(config_captures(t)[j].1);
}

/// A command line that has the written config's parameter appended names
/// that config.
proof fn lemma_param_names_temp(l: Seq<char>)
    ensures
        names_temp_config(l + temp_config_param()),
{
    reveal_strlit(" -config=\"");
    reveal_strlit("-config=\"");
    let flag = temp_config_flag();
    let r = l + temp_config_param();
    assert(temp_config_param() =~= seq![' '] + flag);
    let i = l.len() as int + 1;
    assert(r.subrange(i, i + flag.len()) =~= flag);
    assert(text::occurs_at(r, i, flag));
}

/// With a mission to start, the config written for this run starts it,
/// and the server's command line names that config and auto-starts.
pub proof fn law_mission_loads_temp_config(
    launch: Seq<char>,
    server_config: Seq<char>,
    existing_temp_config: Seq<char>,
    clients: u32,
    mission: Seq<char>,
    config_file: Seq<char>,
    port: Option<String>,
    profile: Option<String>,
    network_config: Seq<char>,
    server_mods: Seq<Seq<char>>,
)
    ensures
        ({
            let command = finish_launch_spec(
                planned_launch_spec(launch, clients, Some(mission)),
                config_file,
                port,
                profile,
                network_config,
                server_mods,
            );
            &&& writes_temp_config_spec(clients, Some(mission))
            &&& text::ends_with(
                temp_config_spec(launch, server_config, existing_temp_config, clients, Some(mission)),
                missions_class(mission),
            )
            &&& text::contains_seq(command, temp_config_flag())
            &&& text::contains_seq(command, " -autoInit"@)
        }),
{
    let l1 = with_clients_spec(launch, clients);
    if clients != 0 {
        lemma_param_names_temp(launch);
    }
    let l2 = if !names_temp_config(l1) {
        l1 + temp_config_param()
    } else {
        l1
    };
    if !names_temp_config(l1) {
        lemma_param_names_temp(l1);
    }
    assert(names_temp_config(l2));
    let l3 = planned_launch_spec(launch, clients, Some(mission));
    assert(l3 == l2 + " -autoInit"@);
    let rest = config_param_spec(l3, config_file) + launch_tail_spec(port, profile, network_config, server_mods);
    let command = finish_launch_spec(l3, config_file, port, profile, network_config, server_mods);
    assert(command =~= l2 + (" -autoInit"@ + rest));
    text::lemma_contains_extend(l2, " -autoInit"@ + rest, temp_config_flag());
    let k = l2.len() as int;
    assert(command.subrange(k, k + " -autoInit"@.len()) =~= " -autoInit"@);
    assert(text::occurs_at(command, k, " -autoInit"@));
    let t = temp_config_spec(launch, server_config, existing_temp_config, clients, Some(mission));
    let c = missions_class(mission);
    assert(t.skip(t.len() - c.len()) =~= c);
}

proof fn lemma_literal_dashes()
    ensures
        text::no_dash_co(" -port="@) && text::no_dash_at_end(" -port="@),
        text::no_dash_co(" -name=\""@) && text::no_dash_at_end(" -name=\""@),
        text::no_dash_co("\" -profiles=\"/arma3/server/configs/profiles\" -cfg=\"/arma3/server/configs/"@)
            && text::no_dash_at_end("\" -profiles=\"/arma3/server/configs/profiles\" -cfg=\"/arma3/server/configs/"@),
        text::no_dash_co(" -serverMod=\""@) && text::no_dash_at_end(" -serverMod=\""@),
        text::no_dash_co(" -autoInit"@) && text::no_dash_at_end(" -autoInit"@),
        text::no_dash("\""@),
        text::no_dash("\" "@),
        text::no_dash(";"@),
        text::no_dash("2302"@),
        text::no_dash("main"@),
        text::no_dash("/tmp/arma3.cfg"@),
        text::no_dash("/arma3/server/configs/"@),
{
    reveal_strlit(" -port=");
    reveal_strlit(" -name=\"");
    reveal_strlit("\" -profiles=\"/arma3/server/configs/profiles\" -cfg=\"/arma3/server/configs/");
    reveal_strlit(" -serverMod=\"");
    reveal_strlit(" -autoInit");
    reveal_strlit("\"");
    reveal_strlit("\" ");
    reveal_strlit(";");
    reveal_strlit("2302");
    reveal_strlit("main");
    reveal_strlit("/tmp/arma3.cfg");
    reveal_strlit("/arma3/server/configs/");
}

/// The parameters after the config hold no `-co` when the values in them
/// hold no `-`.
proof fn lemma_tail_no_dash_co(
    port: Option<String>,
    profile: Option<String>,
    network_config: Seq<char>,
    server_mods: Seq<Seq<char>>,
)
    requires
        text::no_dash(value_or(port, "2302"@)),
        text::no_dash(value_or(profile, "main"@)),
        text::no_dash(network_config),
        forall|k: int| 0 <= k < server_mods.len() ==> text::no_dash(#[trigger] server_mods[k]),
    ensures
        text::no_dash_co(launch_tail_spec(port, profile, network_config, server_mods)),
        text::no_dash_at_end(launch_tail_spec(port, profile, network_config, server_mods)),
{
    lemma_literal_dashes();
    let vp = value_or(port, "2302"@);
    let vr = value_or(profile, "main"@);
    let t1 = " -port="@;
    let t2 = " -name=\""@;
    let t3 = "\" -profiles=\"/arma3/server/configs/profiles\" -cfg=\"/arma3/server/configs/"@;
    let t4 = "\""@;
    text::lemma_no_dash(vp);
    text::lemma_no_dash(vr);
    text::lemma_no_dash(network_config);
    text::lemma_no_dash(t4);
    text::lemma_no_dash_co_concat(t1, vp);
    text::lemma_no_dash_co_concat(t1 + vp, t2);
    text::lemma_no_dash_co_concat(t1 + vp + t2, vr);
    text::lemma_no_dash_co_concat(t1 + vp + t2 + vr, t3);
    text::lemma_no_dash_co_concat(t1 + vp + t2 + vr + t3, network_config);
    text::lemma_no_dash_co_concat(t1 + vp + t2 + vr + t3 + network_config, t4);
    let head = t1 + vp + t2 + vr + t3 + network_config + t4;
    let mp = mod_param_spec("serverMod"@, server_mods);
    if server_mods.len() == 0 {
        assert(mp =~= Seq::<char>::empty());
        assert(head + mp =~= head);
    } else {
        let j = text::join(server_mods, ";"@);
        reveal_strlit(" -");
        reveal_strlit("serverMod");
        reveal_strlit("=\"");
        reveal_strlit(" -serverMod=\"");
        assert(" -"@ + "serverMod"@ + "=\""@ =~= " -serverMod=\""@);
        assert(mp =~= " -serverMod=\""@ + j + "\" "@);
        text::lemma_join_no_dash(server_mods, ";"@);
        text::lemma_no_dash(j);
        text::lemma_no_dash("\" "@);
        text::lemma_no_dash_co_concat(" -serverMod=\""@, j);
        text::lemma_no_dash_co_concat(" -serverMod=\""@ + j, "\" "@);
        text::lemma_no_dash_co_concat(head, mp);
    }
    assert(launch_tail_spec(port, profile, network_config, server_mods) =~= head + mp);
}

/// The full command line is `launch`, then ` -config="`, then a rest with
/// no `-co`.
proof fn lemma_command_shape(
    launch: Seq<char>,
    clients: u32,
    mission: Option<Seq<char>>,
    config_file: Seq<char>,
    port: Option<String>,
    profile: Option<String>,
    network_config: Seq<char>,
    server_mods: Seq<Seq<char>>,
) -> (y: Seq<char>)
    requires
        !text::contains_seq(launch, "-config="@),
        text::no_dash(config_file),
        port matches Some(p) ==> text::no_dash(p@),
        profile matches Some(p) ==> text::no_dash(p@),
        text::no_dash(network_config),
        forall|k: int| 0 <= k < server_mods.len() ==> text::no_dash(#[trigger] server_mods[k]),
    ensures
        finish_launch_spec(
            planned_launch_spec(launch, clients, mission),
            config_file,
            port,
            profile,
            network_config,
            server_mods,
        ) == launch + " -config=\""@ + y,
        text::no_dash_co(y),
{
    reveal_strlit(" -config=\"");
    reveal_strlit("-config=\"");
    reveal_strlit("-config=");
    lemma_literal_dashes();
    let x = " -config=\""@;
    let tail = launch_tail_spec(port, profile, network_config, server_mods);
    lemma_tail_no_dash_co(port, profile, network_config, server_mods);
    // `launch` names no config, so not the written one.
    reveal_strlit("\"");
    assert("-config=\""@ =~= "-config="@ + "\""@);
    assert(temp_config_flag() =~= "-config="@ + ("\""@ + temp_config() + "\""@));
    if names_temp_config(launch) {
        text::lemma_contains_prefix(launch, "-config="@, "\""@ + temp_config() + "\""@);
    }
    assert(!names_temp_config(launch));
    let planned = planned_launch_spec(launch, clients, mission);
    let command = finish_launch_spec(planned, config_file, port, profile, network_config, server_mods);
    if writes_temp_config_spec(clients, mission) {
        let a = if mission is Some { " -autoInit"@ } else { Seq::<char>::empty() };
        lemma_param_names_temp(launch);
        assert(planned =~= launch + temp_config_param() + a);
        text::lemma_contains_extend(launch + temp_config_param(), a, temp_config_flag());
        assert(names_temp_config(planned));
        text::lemma_no_dash("/tmp/arma3.cfg"@);
        text::lemma_no_dash("\""@);
        text::lemma_no_dash_co_concat("/tmp/arma3.cfg"@, "\""@);
        if mission is Some {
            text::lemma_no_dash_co_concat("/tmp/arma3.cfg"@ + "\""@, a);
        } else {
            assert("/tmp/arma3.cfg"@ + "\""@ + a =~= "/tmp/arma3.cfg"@ + "\""@);
        }
        text::lemma_no_dash_co_concat("/tmp/arma3.cfg"@ + "\""@ + a, tail);
        assert(command =~= launch + x + ("/tmp/arma3.cfg"@ + "\""@ + a + tail));
        "/tmp/arma3.cfg"@ + "\""@ + a + tail
    } else {
        assert(planned == launch);
        let path = server_config_path_spec(config_file);
        text::lemma_no_dash("/arma3/server/configs/"@);
        text::lemma_no_dash(config_file);
        text::lemma_no_dash_co_concat("/arma3/server/configs/"@, config_file);
        text::lemma_no_dash("\""@);
        text::lemma_no_dash_co_concat(path, "\""@);
        text::lemma_no_dash_co_concat(path + "\""@, tail);
        assert(command =~= launch + x + (path + "\""@ + tail));
        path + "\""@ + tail
    }
}

/// On ordinary inputs the server's command line names exactly one config:
/// where the command line built so far names none, and neither the config
/// file, port, profile, network config nor a server-side mod holds a `-`,
/// `-config=` occurs in the full command line exactly once (whether the
/// config is the one written for this run or one of the server's).
pub proof fn law_one_config_param(
    launch: Seq<char>,
    clients: u32,
    mission: Option<Seq<char>>,
    config_file: Seq<char>,
    port: Option<String>,
    profile: Option<String>,
    network_config: Seq<char>,
    server_mods: Seq<Seq<char>>,
)
    requires
        !text::contains_seq(launch, "-config="@),
        text::no_dash(config_file),
        port matches Some(p) ==> text::no_dash(p@),
        profile matches Some(p) ==> text::no_dash(p@),
        text::no_dash(network_config),
        forall|k: int| 0 <= k < server_mods.len() ==> text::no_dash(#[trigger] server_mods[k]),
    ensures
        ({
            let command = finish_launch_spec(
                planned_launch_spec(launch, clients, mission),
                config_file,
                port,
                profile,
                network_config,
                server_mods,
            );
            exists|i: int|
                text::occurs_at(command, i, "-config="@) && forall|j: int|
                    text::occurs_at(command, j, "-config="@) ==> j == i
        }),
{
    lemma_literal_dashes();
    let q = "-config="@;
    let x = " -config=\""@;
    let command = finish_launch_spec(
        planned_launch_spec(launch, clients, mission),
        config_file,
        port,
        profile,
        network_config,
        server_mods,
    );
    let y = lemma_command_shape(launch, clients, mission, config_file, port, profile, network_config, server_mods);
    reveal_strlit("-config=");
    reveal_strlit(" -config=\"");
    assert(command =~= launch + x + y);
    text::lemma_no_dash_co_no_config(y);
    let i: int = launch.len() as int + 1;
    assert(command.subrange(i, i + 8) =~= q);
    assert(text::occurs_at(command, i, q));
    assert forall|j: int| text::occurs_at(command, j, q) implies j == i by {
        assert(command.subrange(j, j + 8)[0] == command[j]);
        assert(command[j] == '-');
        if j < launch.len() {
            if j + 8 <= launch.len() {
                assert(launch.subrange(j, j + 8) =~= command.subrange(j, j + 8));
                assert(text::occurs_at(launch, j, q));
            } else {
                let k = launch.len() - j;
                assert(command.subrange(j, j + 8)[k] == command[launch.len() as int]);
                assert(command[launch.len() as int] == ' ');
            }
        } else if j >= launch.len() + 10 {
            let j2 = j - launch.len() - 10;
            assert(y.subrange(j2, j2 + 8) =~= command.subrange(j, j + 8));
            assert(text::occurs_at(y, j2, q));
        } else {
            assert(command[j] == x[j - launch.len()]);
        }
    }
}

/// Without Creator DLC the command line is the binary, the frame limit
/// (1000 by default), the world (`empty` by default), the extra parameters
/// and the mods.
pub proof fn law_launch_command_without_cdlc(
    binary: Seq<char>,
    limit_fps: Option<String>,
    world: Option<String>,
    params: Option<String>,
    mods: Seq<Seq<char>>,
)
    ensures
        launch_command_spec(binary, limit_fps, world, params, mods, Seq::empty()) == binary + " -limitFPS="@
            + value_or(limit_fps, "1000"@) + " -world="@ + value_or(world, "empty"@) + " "@ + value_or(
            params,
            Seq::empty(),
        ) + " "@ + mod_param_spec("mod"@, mods),
{
    let base = binary + " -limitFPS="@ + value_or(limit_fps, "1000"@) + " -world="@ + value_or(world, "empty"@)
        + " "@ + value_or(params, Seq::empty()) + " "@ + mod_param_spec("mod"@, mods);
    assert(base + Seq::<char>::empty() =~= base);
}

/// One more Creator DLC adds ` -mod=<name>` at the end of the command line.
pub proof fn law_launch_command_cdlc_appended(
    binary: Seq<char>,
    limit_fps: Option<String>,
    world: Option<String>,
    params: Option<String>,
    mods: Seq<Seq<char>>,
    cdlc: Seq<Seq<char>>,
    name: Seq<char>,
)
    ensures
        launch_command_spec(binary, limit_fps, world, params, mods, cdlc.push(name)) == launch_command_spec(
            binary,
            limit_fps,
            world,
            params,
            mods,
            cdlc,
        ) + " -mod="@ + name,
{
    assert(cdlc.push(name).drop_last() =~= cdlc);
    assert(cdlc.push(name).last() == name);
    let base = binary + " -limitFPS="@ + value_or(limit_fps, "1000"@) + " -world="@ + value_or(world, "empty"@)
        + " "@ + value_or(params, Seq::empty()) + " "@ + mod_param_spec("mod"@, mods);
    assert(base + (cdlc_params(cdlc) + " -mod="@ + name) =~= base + cdlc_params(cdlc) + " -mod="@ + name);
}

/// Every configured Creator DLC is named by a ` -mod=<name>` parameter.
pub proof fn law_every_cdlc_is_named(
    binary: Seq<char>,
    limit_fps: Option<String>,
    world: Option<String>,
    params: Option<String>,
    mods: Seq<Seq<char>>,
    cdlc: Seq<Seq<char>>,
    k: int,
)
    requires
        0 <= k < cdlc.len(),
    ensures
        text::contains_seq(launch_command_spec(binary, limit_fps, world, params, mods, cdlc), " -mod="@ + cdlc[k]),
    decreases cdlc.len(),
{
    let prev = cdlc.drop_last();
    assert(prev.push(cdlc.last()) =~= cdlc);
    law_launch_command_cdlc_appended(binary, limit_fps, world, params, mods, prev, cdlc.last());
    let before = launch_command_spec(binary, limit_fps, world, params, mods, prev);
    let whole = launch_command_spec(binary, limit_fps, world, params, mods, cdlc);
    if k == cdlc.len() - 1 {
        let p = " -mod="@ + cdlc[k];
        let j = before.len() as int;
        assert(whole =~= before + p);
        assert(whole.subrange(j, j + p.len()) =~= p);
        assert(text::occurs_at(whole, j, p));
    } else {
        law_every_cdlc_is_named(binary, limit_fps, world, params, mods, prev, k);
        assert(prev[k] == cdlc[k]);
        assert(whole =~= before + (" -mod="@ + cdlc.last()));
        text::lemma_contains_extend(before, " -mod="@ + cdlc.last(), " -mod="@ + cdlc[k]);
    }
}

/// With headless clients and no mission, the config written for the run is
/// the server's config with a `headlessclients[]` line and a
/// `localclient[]` line added for each of those keys that it lacks.
pub proof fn law_headless_clients_config(
    launch: Seq<char>,
    server_config: Seq<char>,
    existing_temp_config: Seq<char>,
    clients: u32,
)
    requires
        clients != 0,
    ensures
        temp_config_spec(launch, server_config, existing_temp_config, clients, None) == server_config + (
        if config_map(server_config).contains_key("headlessclients[]"@) {
            Seq::<char>::empty()
        } else {
            "\nheadlessclients[] = {\"127.0.0.1\"};\n"@
        }) + (if config_map(server_config).contains_key("localclient[]"@) {
            Seq::<char>::empty()
        } else {
            "\nlocalclient[] = {\"127.0.0.1\"};\n"@
        }),
        writes_temp_config_spec(clients, None),
{
}

/// Headless client `i` (counted from 0) saves its command under
/// `/arma3/server/hc_command_<n>.sh`, where `<n>` is a numeral, all digits,
/// that reads back as `i + 1`: the scripts are numbered from 1.
pub proof fn law_hc_scripts_numbered_from_one(i: u32)
    ensures
        ({
            let p = hc_script_path_spec(i as nat);
            let n = p.subrange(25, p.len() - 3);
            &&& text::starts_with(p, "/arma3/server/hc_command_"@)
            &&& text::ends_with(p, ".sh"@)
            &&& text::all_ascii_digits(n)
            &&& text::parse_unsigned(n, u64::MAX as nat) == Some((i + 1) as nat)
        }),
{
    reveal_strlit("/arma3/server/hc_command_");
    reveal_strlit(".sh");
    let d = text::decimal((i + 1) as nat);
    text::lemma_decimal_value((i + 1) as nat);
    text::law_decimal_parses_back((i + 1) as nat, u64::MAX as nat);
    let p = hc_script_path_spec(i as nat);
    let pre = "/arma3/server/hc_command_"@;
    assert(p == pre + d + ".sh"@);
    assert(p.take(25) =~= pre);
    assert(p.skip(p.len() - 3) =~= ".sh"@);
    assert(p.subrange(25, p.len() - 3) =~= d);
}

/// The mission to start is the variable's value with one trailing `.pbo`
/// taken off: a value that ends with `.pbo` loses exactly those four
/// characters, any other value is kept whole, and an unset or empty
/// variable starts no mission.
pub proof fn law_init_mission_strips_pbo(v: String, name: Seq<char>)
    ensures
        v@ == name + ".pbo"@ ==> init_mission_spec(Some(v)) == Some(name),
        (v@.len() > 0 && !text::ends_with(v@, ".pbo"@)) ==> init_mission_spec(Some(v)) == Some(v@),
        v@.len() == 0 ==> init_mission_spec(Some(v)) is None,
        init_mission_spec(None) is None,
{
    reveal_strlit(".pbo");
    if v@ == name + ".pbo"@ {
        assert(v@.skip(v@.len() - 4) =~= ".pbo"@);
        assert(v@.take(v@.len() - 4) =~= name);
    }
}

/// With the default name template, headless client `i` (from 0) is named
/// after the server's profile (`main` by default), then `-hc-`, then a
/// numeral that reads back as `i`; this holds for every profile name
/// without a `$`, the character that starts the template's placeholders.
pub proof fn law_default_hc_name(profile: Option<String>, i: u32)
    requires
        forall|k: int| 0 <= k < value_or(profile, "main"@).len() ==> value_or(profile, "main"@)[k] != '$',
    ensures
        ({
            let pre = value_or(profile, "main"@) + "-hc-"@;
            let name = hc_name_spec(None, profile, i as nat);
            &&& text::starts_with(name, pre)
            &&& text::all_ascii_digits(name.skip(pre.len() as int))
            &&& text::parse_unsigned(name.skip(pre.len() as int), u64::MAX as nat) == Some(i as nat)
        }),
{
    reveal_strlit("$profile-hc-$i");
    reveal_strlit("$profile");
    reveal_strlit("$ii");
    reveal_strlit("$i");
    reveal_strlit("-hc-$i");
    reveal_strlit("-hc-");
    let p = value_or(profile, "main"@);
    let t0 = "$profile-hc-$i"@;
    let d = text::decimal(i as nat);
    text::lemma_decimal_value(i as nat);
    text::law_decimal_parses_back(i as nat, u64::MAX as nat);
    // `$profile` is replaced once, at the start.
    assert(t0.subrange(0, 8) =~= "$profile"@);
    assert(t0.skip(8) =~= "-hc-$i"@);
    if text::contains_seq("-hc-$i"@, "$profile"@) {
        let j = choose|j: int| text::occurs_at("-hc-$i"@, j, "$profile"@);
        assert(false);
    }
    text::lemma_replace_all_absent("-hc-$i"@, "$profile"@, p);
    let t1 = p + "-hc-$i"@;
    assert(text::replace_all(t0, "$profile"@, p) == t1);
    // No `$ii` occurs in it: its one `$` has a single character after it.
    if text::contains_seq(t1, "$ii"@) {
        let j = choose|j: int| text::occurs_at(t1, j, "$ii"@);
        assert(t1.subrange(j, j + 3)[0] == t1[j]);
        assert(t1[j] == '$');
        if j < p.len() {
            assert(t1[j] == p[j]);
        } else {
            assert(t1[j] == "-hc-$i"@[j - p.len()]);
            assert(j == p.len() + 4);
        }
    }
    text::lemma_replace_all_absent(t1, "$ii"@, text::decimal((i + 1) as nat));
    // `$i` is replaced once, at the end.
    assert forall|k: int| 0 <= k < p.len() implies p[k] != "$i"@[0] by {}
    text::lemma_replace_all_skip_prefix(p, "-hc-$i"@, "$i"@, d);
    assert forall|k: int| 0 <= k < "-hc-"@.len() implies "-hc-"@[k] != "$i"@[0] by {}
    assert("-hc-$i"@ =~= "-hc-"@ + "$i"@);
    text::lemma_replace_all_skip_prefix("-hc-"@, "$i"@, "$i"@, d);
    assert("$i"@.subrange(0, 2) =~= "$i"@);
    assert("$i"@.skip(2) =~= Seq::<char>::empty());
    assert(text::occurs_at("$i"@, 0, "$i"@));
    let e = Seq::<char>::empty();
    assert(text::replace_all(e, "$i"@, d) == e);
    assert(text::replace_all("$i"@, "$i"@, d) == d + text::replace_all(e, "$i"@, d));
    assert(d + e =~= d);
    let name = hc_name_spec(None, profile, i as nat);
    let pre = p + "-hc-"@;
    assert(name =~= pre + d);
    assert(name.take(pre.len() as int) =~= pre);
    assert(name.skip(pre.len() as int) =~= d);
}

/// With headless clients and no mission, the server is pointed at the
/// config written for the run, and the headless clients run the same
/// command line as clients of this host: on `port` (2302 by default), and
/// with the server config's password where it has one.
pub proof fn law_headless_clients_join(launch: Seq<char>, server_config: Seq<char>, clients: u32, port: Option<String>)
    requires
        clients != 0,
    ensures
        planned_launch_spec(launch, clients, None) == launch + " -config=\"/tmp/arma3.cfg\""@,
        planned_client_launch_spec(launch, server_config, port) == launch + " -config=\"/tmp/arma3.cfg\""@
            + " -client -connect=127.0.0.1 -port="@ + value_or(port, "2302"@) + (
        if config_map(server_config).contains_key("password"@) {
            " -password="@ + config_map(server_config)["password"@]
        } else {
            Seq::<char>::empty()
        }),
{
    reveal_strlit(" -config=\"");
    reveal_strlit("/tmp/arma3.cfg");
    reveal_strlit("\"");
    reveal_strlit(" -config=\"/tmp/arma3.cfg\"");
    assert(temp_config_param() =~= " -config=\"/tmp/arma3.cfg\""@);
}

proof fn lemma_key_end_reaches(t: Seq<char>, a: int, n: int)
    requires
        1 <= a <= n <= t.len(),
        forall|x: int| a <= x < n ==> !key_end_ok(t, x),
        forall|x: int| a - 1 <= x < n ==> t[x] != '\n',
        key_end_ok(t, n),
    ensures
        key_end_from(t, a) == Some(n),
    decreases n - a,
{
    if a < n {
        lemma_key_end_reaches(t, a + 1, n);
    }
}

proof fn lemma_value_end_reaches(t: Seq<char>, j: int, p: int)
    requires
        0 <= j <= p < t.len(),
        t[p] == ';',
        forall|x: int| j <= x < p ==> t[x] != '\n' && t[x] != '/' && t[x] != ';',
    ensures
        value_end(t, j) == p,
    decreases p - j,
{
    if j < p {
        lemma_value_end_reaches(t, j + 1, p);
    }
}

/// A config of one line `key = value;` gives `key`, trimmed and lowercased,
/// the value `value`, trimmed: for every key of characters that are
/// neither whitespace nor `=`, and every value that starts with a
/// character other than whitespace and holds no line feed, `/` or `;`.
pub proof fn law_config_line(key: Seq<char>, value: Seq<char>)
    requires
        key.len() > 0,
        forall|i: int| 0 <= i < key.len() ==> !text::unicode_white_space(#[trigger] key[i]) && key[i] != '=',
        value.len() > 0,
        !text::unicode_white_space(value[0]),
        forall|i: int| 0 <= i < value.len() ==> #[trigger] value[i] != '\n' && value[i] != '/' && value[i] != ';',
    ensures
        config_map(key + " = "@ + value + ";"@) == Map::<Seq<char>, Seq<char>>::empty().insert(
            text::unicode_lowercase(text::trim(key)),
            text::trim(value),
        ),
{
    reveal_strlit(" = ");
    reveal_strlit(";");
    let t = key + " = "@ + value + ";"@;
    let n = key.len() as int;
    let m = value.len() as int;
    assert(t.len() == n + 4 + m);
    assert forall|i: int| 0 <= i < n implies t[i] == key[i] by {}
    assert(t[n] == ' ' && t[n + 1] == '=' && t[n + 2] == ' ');
    assert forall|i: int| 0 <= i < m implies t[n + 3 + i] == value[i] by {}
    assert(t[n + 3 + m] == ';');
    assert(text::unicode_white_space(' '));
    assert(text::unicode_white_space('\n'));
    // The key ends where `key` does.
    assert forall|x: int| 1 <= x < n implies !key_end_ok(t, x) by {
        assert(t[x] == key[x]);
        assert(text::ws_run_end(t, x) == x);
    }
    assert forall|x: int| 0 <= x < n implies t[x] != '\n' by {
        assert(t[x] == key[x]);
        assert(text::unicode_white_space('\n'));
    }
    assert(text::ws_run_end(t, n + 1) == n + 1);
    assert(text::ws_run_end(t, n) == n + 1);
    assert(t[n + 3] == value[0]);
    assert(text::ws_run_end(t, n + 3) == n + 3);
    assert(text::ws_run_end(t, n + 2) == n + 3);
    assert(value[0] != '\n');
    assert(last_non_newline(t, n + 2, n + 3) == Some(n + 3));
    assert(value_start(t, n + 1) == Some(n + 3));
    assert(key_end_ok(t, n));
    lemma_key_end_reaches(t, 1, n);
    assert(match_from(t, 0) == Some((0int, n)));
    // The value ends at the `;`.
    assert forall|x: int| n + 4 <= x < n + 3 + m implies t[x] != '\n' && t[x] != '/' && t[x] != ';' by {
        assert(t[x] == value[x - n - 3]);
    }
    lemma_value_end_reaches(t, n + 4, n + 3 + m);
    let p = n + 3 + m;
    assert(after_value(t, p) == t.len());
    assert(match_from(t, t.len() as int) is None);
    assert(config_captures_from(t, t.len() as int) =~= Seq::<(Seq<char>, Seq<char>)>::empty());
    assert(t.subrange(0, n) =~= key);
    assert(t.subrange(n + 3, p) =~= value);
    let caps = config_captures(t);
    assert(caps =~= seq![(key, value)]);
    let norm = caps.map_values(|kv: (Seq<char>, Seq<char>)| normalize_pair(kv));
    assert(norm =~= seq![normalize_pair((key, value))]);
    assert(norm.drop_last() =~= Seq::<(Seq<char>, Seq<char>)>::empty());
    assert(pairs_map(norm.drop_last()) == Map::<Seq<char>, Seq<char>>::empty());
}

/// A list of mods is passed whole: its parameter names every mod of the
/// list, and a list of none gives no parameter at all.
pub proof fn law_mod_param_names_every_mod(name: Seq<char>, mods: Seq<Seq<char>>, k: int)
    requires
        0 <= k < mods.len(),
    ensures
        text::contains_seq(mod_param_spec(name, mods), mods[k]),
        mod_param_spec(name, Seq::empty()) == Seq::<char>::empty(),
{
    text::lemma_join_contains(mods, ";"@, k);
    let j = text::join(mods, ";"@);
    text::lemma_contains_prepend(" -"@ + name + "=\""@, j, mods[k]);
    text::lemma_contains_extend(" -"@ + name + "=\""@ + j, "\" "@, mods[k]);
}

/// The server's planned command line extends the one built so far.
proof fn lemma_planned_extends(launch: Seq<char>, clients: u32, mission: Option<Seq<char>>) -> (rest: Seq<char>)
    ensures
        planned_launch_spec(launch, clients, mission) == launch + rest,
{
    let e = Seq::<char>::empty();
    let a = if clients != 0 { temp_config_param() } else { e };
    let l1 = with_clients_spec(launch, clients);
    assert(l1 =~= launch + a);
    let b = if mission is Some && !names_temp_config(l1) { temp_config_param() } else { e };
    let c = if mission is Some { " -autoInit"@ } else { e };
    assert(planned_launch_spec(launch, clients, mission) =~= launch + (a + b + c));
    a + b + c
}

/// Every mod and every server-side mod is on the server's command line.
pub proof fn law_every_mod_on_command_line(
    binary: Seq<char>,
    limit_fps: Option<String>,
    world: Option<String>,
    params: Option<String>,
    mods: Seq<Seq<char>>,
    cdlc: Seq<Seq<char>>,
    config_file: Seq<char>,
    port: Option<String>,
    profile: Option<String>,
    network_config: Seq<char>,
    server_mods: Seq<Seq<char>>,
    clients: u32,
    mission: Option<Seq<char>>,
)
    ensures
        ({
            let launch = launch_command_spec(binary, limit_fps, world, params, mods, cdlc);
            let command = finish_launch_spec(
                planned_launch_spec(launch, clients, mission),
                config_file,
                port,
                profile,
                network_config,
                server_mods,
            );
            &&& forall|k: int| 0 <= k < mods.len() ==> text::contains_seq(command, #[trigger] mods[k])
            &&& forall|k: int| 0 <= k < server_mods.len() ==> text::contains_seq(command, #[trigger] server_mods[k])
        }),
{
    let launch = launch_command_spec(binary, limit_fps, world, params, mods, cdlc);
    let planned = planned_launch_spec(launch, clients, mission);
    let rest = lemma_planned_extends(launch, clients, mission);
    let cps = config_param_spec(planned, config_file);
    let tail = launch_tail_spec(port, profile, network_config, server_mods);
    let command = finish_launch_spec(planned, config_file, port, profile, network_config, server_mods);
    assert(command == planned + cps + tail);
    assert(command =~= launch + (rest + cps + tail));
    let head = binary + " -limitFPS="@ + value_or(limit_fps, "1000"@) + " -world="@ + value_or(world, "empty"@)
        + " "@ + value_or(params, Seq::empty()) + " "@;
    let mp = mod_param_spec("mod"@, mods);
    assert(launch == head + mp + cdlc_params(cdlc));
    let smp = mod_param_spec("serverMod"@, server_mods);
    let pre = " -port="@ + value_or(port, "2302"@) + " -name=\""@ + value_or(profile, "main"@)
        + "\" -profiles=\"/arma3/server/configs/profiles\" -cfg=\"/arma3/server/configs/"@
        + network_config + "\""@;
    assert(tail == pre + smp);
    assert(command =~= (planned + cps + pre) + smp);
    assert forall|k: int| 0 <= k < mods.len() implies text::contains_seq(command, #[trigger] mods[k]) by {
        law_mod_param_names_every_mod("mod"@, mods, k);
        text::lemma_contains_prepend(head, mp, mods[k]);
        text::lemma_contains_extend(head + mp, cdlc_params(cdlc), mods[k]);
        text::lemma_contains_extend(launch, rest + cps + tail, mods[k]);
    }
    assert forall|k: int| 0 <= k < server_mods.len() implies text::contains_seq(command, #[trigger] server_mods[k]) by {
        law_mod_param_names_every_mod("serverMod"@, server_mods, k);
        text::lemma_contains_prepend(planned + cps + pre, smp, server_mods[k]);
    }
}

/// The config that starts a mission is built on the config the server would
/// otherwise read: with headless clients, the server's config with the
/// lines that let them join; else the config the command line already
/// names, where it names the written one; else the server's config. It is
/// made persistent where it does not already mention `persistent` (in any
/// case), and the mission's class follows.
pub proof fn law_mission_config_base(
    launch: Seq<char>,
    server_config: Seq<char>,
    existing_temp_config: Seq<char>,
    clients: u32,
    mission: Seq<char>,
)
    ensures
        ({
            let base = if clients != 0 {
                server_config + (if config_map(server_config).contains_key("headlessclients[]"@) {
                    Seq::<char>::empty()
                } else {
                    "\nheadlessclients[] = {\"127.0.0.1\"};\n"@
                }) + (if config_map(server_config).contains_key("localclient[]"@) {
                    Seq::<char>::empty()
                } else {
                    "\nlocalclient[] = {\"127.0.0.1\"};\n"@
                })
            } else if text::contains_seq(launch, "-config=\"/tmp/arma3.cfg\""@) {
                existing_temp_config
            } else {
                server_config
            };
            let written = temp_config_spec(launch, server_config, existing_temp_config, clients, Some(mission));
            &&& text::starts_with(written, base)
            &&& text::ends_with(written, missions_class(mission))
            &&& (text::contains_seq(text::unicode_lowercase(base), "persistent"@) || written == base
                + "\npersistent = 1;\n"@ + missions_class(mission))
        }),
{
    reveal_strlit("-config=\"");
    reveal_strlit("/tmp/arma3.cfg");
    reveal_strlit("\"");
    reveal_strlit("-config=\"/tmp/arma3.cfg\"");
    assert(temp_config_flag() =~= "-config=\"/tmp/arma3.cfg\""@);
    let hc = headless_config_spec(server_config, config_map(server_config));
    let base = if clients != 0 {
        hc
    } else if names_temp_config(launch) {
        existing_temp_config
    } else {
        server_config
    };
    let c = missions_class(mission);
    let mid = if text::contains_seq(text::unicode_lowercase(base), "persistent"@) {
        Seq::<char>::empty()
    } else {
        "\npersistent = 1;\n"@
    };
    let written = temp_config_spec(launch, server_config, existing_temp_config, clients, Some(mission));
    assert(written =~= base + mid + c);
    assert(written.take(base.len() as int) =~= base);
    assert(written.skip(written.len() - c.len()) =~= c);
}

} // verus!
