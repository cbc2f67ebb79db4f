//! The launcher's configuration, as the environment gives it.

use vstd::prelude::*;
use crate::text;

verus! {

/// Steam login mode: either an anonymous session (works for the base
/// server and the Linux binary depots, but not for Creator DLC or workshop
/// content, which Steam grants to accounts only), or a real account.
#[derive(Clone)]
pub enum SteamAuth {
    Anonymous,
    Credentials { user: String, password: String },
}

/// The launcher's configuration.
pub struct Config {
    /// `None` when nothing in this run needs Steam at all (see `from_env`);
    /// every Steam-touching step is skipped then.
    pub steam_auth: Option<SteamAuth>,
    pub skip_install: bool,
    pub arma_binary: String,
    pub arma_cdlc: Vec<String>,
    pub mods_preset: Option<String>,
    pub mods_local: bool,
}

/// The environment variables that the configuration is read from, each
/// `None` where it is unset (or not valid Unicode).
pub struct ConfigEnv {
    pub skip_install: Option<String>,
    pub mods_preset: Option<String>,
    pub anonymous_login: Option<String>,
    pub steam_user: Option<String>,
    pub steam_password: Option<String>,
    pub arma_binary: Option<String>,
    pub arma_cdlc: Option<String>,
    pub mods_local: Option<String>,
}

/// Why the configuration cannot be built.
pub enum ConfigError {
    /// A variable that this run requires is unset; `key` is its name.
    MissingEnv { key: String },
}

// ---------------------------------------------------------------------------
// Models
// ---------------------------------------------------------------------------

pub open spec fn opt_view(o: Option<String>) -> Option<Seq<char>> {
    match o {
        Some(s) => Some(s@),
        None => None,
    }
}

/// A boolean variable: set means "true" in any ASCII case, unset means
/// `default`.
pub open spec fn bool_env_spec(value: Option<Seq<char>>, default: bool) -> bool {
    match value {
        Some(v) => text::eq_ignore_ascii_case(v, "true"@),
        None => default,
    }
}

/// The Creator DLC names that the launcher knows, with the depot that each
/// is shipped in on app 233780's `creatordlc` branch.
pub open spec fn cdlc_depot_id_spec(name: Seq<char>) -> Option<u32> {
    if name == "csla"@ {
        Some(233793u32)
    } else if name == "gm"@ {
        Some(233792u32)
    } else if name == "vn"@ {
        Some(233794u32)
    } else if name == "ws"@ {
        Some(233795u32)
    } else if name == "spe"@ {
        Some(233788u32)
    } else if name == "rf"@ {
        Some(233799u32)
    } else if name == "ef"@ {
        Some(233798u32)
    } else {
        None
    }
}

/// The depots of the known names among `names`, in order; unknown names are
/// skipped.
pub open spec fn depot_ids_of(names: Seq<Seq<char>>) -> Seq<u32>
    decreases names.len(),
{
    if names.len() == 0 {
        Seq::<u32>::empty()
    } else {
        let prev = depot_ids_of(names.drop_last());
        match cdlc_depot_id_spec(names.last()) {
            Some(id) => prev.push(id),
            None => prev,
        }
    }
}

/// The non-empty names among the pieces, each trimmed and lowercased.
pub open spec fn cdlc_names_of(pieces: Seq<Seq<char>>) -> Seq<Seq<char>>
    decreases pieces.len(),
{
    if pieces.len() == 0 {
        Seq::<Seq<char>>::empty()
    } else {
        let prev = cdlc_names_of(pieces.drop_last());
        let name = text::unicode_lowercase(text::trim(pieces.last()));
        if name.len() > 0 {
            prev.push(name)
        } else {
            prev
        }
    }
}

/// The Creator DLC names of a `;`-separated list: each piece trimmed and
/// lowercased, empty ones left out.
pub open spec fn cdlc_names(raw: Seq<char>) -> Seq<Seq<char>> {
    cdlc_names_of(text::split_on(raw, ';'))
}

/// The mod preset, where one is set and not empty.
pub open spec fn preset_spec(env: ConfigEnv) -> Option<Seq<char>> {
    match env.mods_preset {
        Some(p) => if p@.len() > 0 { Some(p@) } else { None },
        None => None,
    }
}

pub open spec fn skip_install_spec(env: ConfigEnv) -> bool {
    bool_env_spec(opt_view(env.skip_install), false)
}

/// Whether this run needs a Steam session: for an install, or to fetch a
/// mod preset. Launching content already on disk needs none.
pub open spec fn needs_steam(env: ConfigEnv) -> bool {
    !skip_install_spec(env) || preset_spec(env) is Some
}

pub open spec fn anonymous_spec(env: ConfigEnv) -> bool {
    bool_env_spec(opt_view(env.anonymous_login), false)
}

/// The name of the variable whose absence makes the configuration fail,
/// if any: credentials are required only where Steam is needed and the
/// login is not anonymous, the user before the password.
pub open spec fn missing_key(env: ConfigEnv) -> Option<Seq<char>> {
    if needs_steam(env) && !anonymous_spec(env) {
        if env.steam_user is None {
            Some("STEAM_USER"@)
        } else if env.steam_password is None {
            Some("STEAM_PASSWORD"@)
        } else {
            None
        }
    } else {
        None
    }
}

/// The configured server binary, `./arma3server_x64` by default.
pub open spec fn arma_binary_spec(env: ConfigEnv) -> Seq<char> {
    match env.arma_binary {
        Some(b) => b@,
        None => "./arma3server_x64"@,
    }
}

/// The configured Creator DLC names (none where the variable is unset).
pub open spec fn arma_cdlc_spec(env: ConfigEnv) -> Seq<Seq<char>> {
    match env.arma_cdlc {
        Some(c) => cdlc_names(c@),
        None => cdlc_names(Seq::<char>::empty()),
    }
}

/// The Steam login of a configuration built from `env`.
pub open spec fn steam_auth_matches(auth: Option<SteamAuth>, env: ConfigEnv) -> bool {
    if !needs_steam(env) {
        auth is None
    } else if anonymous_spec(env) {
        auth == Some(SteamAuth::Anonymous)
    } else {
        match auth {
            Some(SteamAuth::Credentials { user, password }) => {
                &&& env.steam_user matches Some(u) && user@ == u@
                &&& env.steam_password matches Some(p) && password@ == p@
            },
            _ => false,
        }
    }
}

// ---------------------------------------------------------------------------
// Code
// ---------------------------------------------------------------------------

/// Reads a boolean variable: `true` in any ASCII case is true, any other
/// value false, and an unset variable gives `default`.
pub fn bool_env(value: &Option<String>, default: bool) -> (b: bool)
    ensures
        b == bool_env_spec(opt_view(*value), default),
{
    match value {
        Some(v) => {
            let vc = text::chars_of(v.as_str());
            let t = text::chars_of("true");
            text::eq_ignore_ascii_case_exec(vc.as_slice(), t.as_slice())
        },
        None => default,
    }
}

/// The depot of a Creator DLC name, if the name is known.
pub fn cdlc_depot_id(name: &str) -> (id: Option<u32>)
    ensures
        id == cdlc_depot_id_spec(name@),
{
    let n = text::chars_of(name);
    let csla = text::chars_of("csla");
    let gm = text::chars_of("gm");
    let vn = text::chars_of("vn");
    let ws = text::chars_of("ws");
    let spe = text::chars_of("spe");
    let rf = text::chars_of("rf");
    let ef = text::chars_of("ef");
    if text::chars_eq(n.as_slice(), csla.as_slice()) {
        Some(233793)
    } else if text::chars_eq(n.as_slice(), gm.as_slice()) {
        Some(233792)
    } else if text::chars_eq(n.as_slice(), vn.as_slice()) {
        Some(233794)
    } else if text::chars_eq(n.as_slice(), ws.as_slice()) {
        Some(233795)
    } else if text::chars_eq(n.as_slice(), spe.as_slice()) {
        Some(233788)
    } else if text::chars_eq(n.as_slice(), rf.as_slice()) {
        Some(233799)
    } else if text::chars_eq(n.as_slice(), ef.as_slice()) {
        Some(233798)
    } else {
        None
    }
}

/// The Creator DLC names of a `;`-separated list, trimmed and lowercased,
/// empty ones left out.
pub fn parse_cdlc_list(raw: &str) -> (names: Vec<String>)
    ensures
        text::views(names@) == cdlc_names(raw@),
{
    let rc = text::chars_of(raw);
    let pieces = text::split_on_exec(rc.as_slice(), ';');
    let ghost spl = text::split_on(rc@, ';');
    let mut names: Vec<String> = Vec::new();
    let mut i: usize = 0;
    while i < pieces.len()
        invariant
            i <= pieces.len(),
            pieces@.len() == spl.len(),
            forall|k: int| 0 <= k < pieces@.len() ==> #[trigger] pieces@[k]@ == spl[k],
            text::views(names@) == cdlc_names_of(spl.take(i as int)),
        decreases pieces.len() - i,
    {
        proof {
            assert(spl.take(i + 1).drop_last() =~= spl.take(i as int));
            assert(spl.take(i + 1).last() == pieces@[i as int]@);
        }
        let t = text::trim_exec(pieces[i].as_slice());
        let ts = text::string_of(t.as_slice());
        let lower = text::to_lowercase(ts.as_str());
        if !lower.as_str().is_empty() {
            let ghost before = names@;
            names.push(lower);
            proof {
                assert(text::views(names@) =~= text::views(before).push(lower@));
            }
        }
        i = i + 1;
    }
    assert(spl.take(pieces.len() as int) =~= spl);
    names
}

impl Config {
    /// Builds the configuration from the environment's values.
    ///
    /// Credentials are required only where this run needs Steam (an
    /// install, or a mod preset to fetch) and the login is not anonymous;
    /// with `SKIP_INSTALL` set and no preset nothing is required at all.
    pub fn from_env(env: &ConfigEnv) -> (res: Result<Config, ConfigError>)
        ensures
            res is Err <==> missing_key(*env) is Some,
            res matches Err(ConfigError::MissingEnv { key }) ==> missing_key(*env) == Some(key@),
            res matches Ok(cfg) ==> {
                &&& steam_auth_matches(cfg.steam_auth, *env)
                &&& cfg.skip_install == skip_install_spec(*env)
                &&& opt_view(cfg.mods_preset) == preset_spec(*env)
                &&& cfg.arma_binary@ == arma_binary_spec(*env)
                &&& text::views(cfg.arma_cdlc@) == arma_cdlc_spec(*env)
                &&& cfg.mods_local == bool_env_spec(opt_view(env.mods_local), true)
            },
    {
        let skip_install = bool_env(&env.skip_install, false);
        let mods_preset: Option<String> = match &env.mods_preset {
            Some(p) => if p.as_str().is_empty() { None } else { Some(p.clone()) },
            None => None,
        };
        let needs_steam = !skip_install || mods_preset.is_some();
        let steam_auth = if !needs_steam {
            None
        } else if bool_env(&env.anonymous_login, false) {
            Some(SteamAuth::Anonymous)
        } else {
            let user = match &env.steam_user {
                Some(u) => u.clone(),
                None => {
                    return Err(ConfigError::MissingEnv { key: String::from_str("STEAM_USER") });
                },
            };
            let password = match &env.steam_password {
                Some(p) => p.clone(),
                None => {
                    return Err(ConfigError::MissingEnv { key: String::from_str("STEAM_PASSWORD") });
                },
            };
            Some(SteamAuth::Credentials { user, password })
        };
        let arma_binary = match &env.arma_binary {
            Some(b) => b.clone(),
            None => String::from_str("./arma3server_x64"),
        };
        let arma_cdlc = match &env.arma_cdlc {
            Some(c) => parse_cdlc_list(c.as_str()),
            None => {
                proof { reveal_strlit(""); }
                parse_cdlc_list("")
            },
        };
        let mods_local = bool_env(&env.mods_local, true);
        Ok(Config { steam_auth, skip_install, arma_binary, arma_cdlc, mods_preset, mods_local })
    }

    /// Whether the configured binary is the profiling build of the server.
    pub fn wants_profiling(&self) -> (b: bool)
        ensures
            b == (self.arma_binary@ == "arma3serverprofiling_x64"@),
    {
        let bin = text::chars_of(self.arma_binary.as_str());
        let prof = text::chars_of("arma3serverprofiling_x64");
        text::chars_eq(bin.as_slice(), prof.as_slice())
    }

    /// Resolves the configured Creator DLC names to their depots, in order;
    /// a name that is not known is skipped rather than failing the install.
    pub fn cdlc_depot_ids(&self) -> (ids: Vec<u32>)
        ensures
            ids@ == depot_ids_of(text::views(self.arma_cdlc@)),
    {
        let ghost names = text::views(self.arma_cdlc@);
        let mut ids: Vec<u32> = Vec::new();
        let mut i: usize = 0;
        while i < self.arma_cdlc.len()
            invariant
                i <= self.arma_cdlc.len(),
                names == text::views(self.arma_cdlc@),
                ids@ == depot_ids_of(names.take(i as int)),
            decreases self.arma_cdlc.len() - i,
        {
            proof {
                assert(names.take(i + 1).drop_last() =~= names.take(i as int));
            }
            match cdlc_depot_id(self.arma_cdlc[i].as_str()) {
                Some(id) => ids.push(id),
                None => {},
            }
            i = i + 1;
        }
        assert(names.take(self.arma_cdlc.len() as int) =~= names);
        ids
    }
}

/// With `SKIP_INSTALL` set and no mod preset, a run needs no Steam session
/// and requires no credentials, whatever else the environment holds: such
/// a run launches content that is already on disk.
pub proof fn law_skip_install_needs_no_steam(env: ConfigEnv)
    requires
        skip_install_spec(env),
        preset_spec(env) is None,
    ensures
        !needs_steam(env),
        missing_key(env) is None,
        steam_auth_matches(None, env),
{
}

/// Every name of a Creator DLC list is non-empty.
pub proof fn lemma_cdlc_names_non_empty(pieces: Seq<Seq<char>>)
    ensures
        forall|k: int| 0 <= k < cdlc_names_of(pieces).len() ==> #[trigger] cdlc_names_of(pieces)[k].len() > 0,
    decreases pieces.len(),
{
    if pieces.len() > 0 {
        lemma_cdlc_names_non_empty(pieces.drop_last());
        let prev = cdlc_names_of(pieces.drop_last());
        let names = cdlc_names_of(pieces);
        assert forall|k: int| 0 <= k < names.len() implies #[trigger] names[k].len() > 0 by {
            if k < prev.len() {
                assert(names[k] == prev[k]);
            }
        }
    }
}

/// What a configuration built from the environment looks like: it has no
/// Steam login exactly when the install is skipped and there is no preset,
/// its preset is never empty, and each of its Creator DLC names is
/// non-empty.
pub proof fn law_config_shape(env: ConfigEnv, auth: Option<SteamAuth>)
    requires
        steam_auth_matches(auth, env),
    ensures
        auth is None <==> (skip_install_spec(env) && preset_spec(env) is None),
        preset_spec(env) != Some(Seq::<char>::empty()),
        forall|k: int| 0 <= k < arma_cdlc_spec(env).len() ==> #[trigger] arma_cdlc_spec(env)[k].len() > 0,
{
    match env.arma_cdlc {
        Some(c) => lemma_cdlc_names_non_empty(text::split_on(c@, ';')),
        None => lemma_cdlc_names_non_empty(text::split_on(Seq::<char>::empty(), ';')),
    }
}

/// Where Steam is needed and `ANONYMOUS_LOGIN` is `true` in any ASCII
/// case, the login is anonymous, whatever `STEAM_USER` and
/// `STEAM_PASSWORD` hold: nothing is missing, and the login is `Anonymous`.
pub proof fn law_anonymous_login_wins(env: ConfigEnv, auth: Option<SteamAuth>)
    requires
        !skip_install_spec(env) || preset_spec(env) is Some,
        env.anonymous_login matches Some(a) && text::eq_ignore_ascii_case(a@, "true"@),
        steam_auth_matches(auth, env),
    ensures
        missing_key(env) is None,
        auth == Some(SteamAuth::Anonymous),
{
}

/// Where Steam is needed and the login is not anonymous, the credentials
/// come from the environment: without `STEAM_USER` the configuration
/// fails on `STEAM_USER`; with it but without `STEAM_PASSWORD` it fails on
/// `STEAM_PASSWORD`; with both it logs in with exactly those values.
pub proof fn law_credentials_from_env(env: ConfigEnv, auth: Option<SteamAuth>)
    requires
        !skip_install_spec(env) || preset_spec(env) is Some,
        !(env.anonymous_login matches Some(a) && text::eq_ignore_ascii_case(a@, "true"@)),
    ensures
        env.steam_user is None ==> missing_key(env) == Some("STEAM_USER"@),
        env.steam_user is Some && env.steam_password is None ==> missing_key(env) == Some("STEAM_PASSWORD"@),
        env.steam_user is Some && env.steam_password is Some ==> missing_key(env) is None,
        env.steam_user matches Some(u) ==> (env.steam_password matches Some(p) ==> (steam_auth_matches(auth, env)
            ==> (auth matches Some(SteamAuth::Credentials { user, password }) && user@ == u@ && password@ == p@))),
{
}

proof fn lemma_cdlc_names_of_concat(p1: Seq<Seq<char>>, p2: Seq<Seq<char>>)
    ensures
        cdlc_names_of(p1 + p2) == cdlc_names_of(p1) + cdlc_names_of(p2),
    decreases p2.len(),
{
    if p2.len() == 0 {
        assert(p1 + p2 =~= p1);
        assert(cdlc_names_of(p1) + cdlc_names_of(p2) =~= cdlc_names_of(p1));
    } else {
        lemma_cdlc_names_of_concat(p1, p2.drop_last());
        assert((p1 + p2).drop_last() =~= p1 + p2.drop_last());
        assert((p1 + p2).last() == p2.last());
        let name = text::unicode_lowercase(text::trim(p2.last()));
        assert((cdlc_names_of(p1) + cdlc_names_of(p2.drop_last())).push(name) =~= cdlc_names_of(p1)
            + cdlc_names_of(p2.drop_last()).push(name));
    }
}

/// A Creator DLC list is read piece by piece: the names of two lists joined
/// by a `;` are the names of the first, then those of the second.
pub proof fn law_cdlc_names_concat(first: Seq<char>, second: Seq<char>)
    ensures
        cdlc_names(first + ";"@ + second) == cdlc_names(first) + cdlc_names(second),
{
    reveal_strlit(";");
    assert(";"@ =~= seq![';']);
    text::lemma_split_on_concat(first, second, ';');
    lemma_cdlc_names_of_concat(text::split_on(first, ';'), text::split_on(second, ';'));
}

/// The depots of two lists of names put together are those of the first,
/// then those of the second: each name gives its own depot, in order.
pub proof fn law_depot_ids_concat(first: Seq<Seq<char>>, second: Seq<Seq<char>>)
    ensures
        depot_ids_of(first + second) == depot_ids_of(first) + depot_ids_of(second),
    decreases second.len(),
{
    if second.len() == 0 {
        assert(first + second =~= first);
        assert(depot_ids_of(first) + depot_ids_of(second) =~= depot_ids_of(first));
    } else {
        law_depot_ids_concat(first, second.drop_last());
        assert((first + second).drop_last() =~= first + second.drop_last());
        assert((first + second).last() == second.last());
        match cdlc_depot_id_spec(second.last()) {
            Some(id) => {
                assert((depot_ids_of(first) + depot_ids_of(second.drop_last())).push(id) =~= depot_ids_of(first)
                    + depot_ids_of(second.drop_last()).push(id));
            },
            None => {},
        }
    }
}

} // verus!
