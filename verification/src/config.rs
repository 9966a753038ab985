//! The configuration: where it is and what it must hold.
//!
//! It is `jj-agentic-aspect/config.json` under `$XDG_CONFIG_HOME`, which is `~/.config` by
//! default. Where there is none, an older file is read: that of `jj-plan` or of `jjplan` under
//! the same directory, or `~/.jjplan/config.json`.

use vstd::prelude::*;
use vstd::string::StringExecFns;
use crate::json::{Json, JsonView};
use crate::{codec, paths, text};

verus! {

/// The endpoint and the credentials of its service token.
pub struct Config {
    pub endpoint: String,
    pub cf_access_client_id: String,
    pub cf_access_client_secret: String,
}

/// The endpoint and the credentials of its service token.
pub struct ConfigView {
    pub endpoint: Seq<char>,
    pub cf_access_client_id: Seq<char>,
    pub cf_access_client_secret: Seq<char>,
}

impl View for Config {
    type V = ConfigView;

    open spec fn view(&self) -> ConfigView {
        ConfigView {
            endpoint: self.endpoint@,
            cf_access_client_id: self.cf_access_client_id@,
            cf_access_client_secret: self.cf_access_client_secret@,
        }
    }
}

// ---- where it is ----

/// The home directory: what `$HOME` holds, empty where it holds nothing.
pub open spec fn home_dir(home: Option<Seq<char>>) -> Seq<char> {
    match home {
        Some(dir) => dir,
        None => Seq::empty(),
    }
}

/// The directory of configurations: `$XDG_CONFIG_HOME` where it is set and not empty, else
/// `.config` in the home directory.
pub open spec fn config_dir(xdg: Option<Seq<char>>, home: Option<Seq<char>>) -> Seq<char> {
    if xdg is Some && xdg->0.len() > 0 {
        xdg->0
    } else {
        paths::under(home_dir(home), ".config"@)
    }
}

/// The configuration file in a directory of that name.
pub open spec fn config_in(base: Seq<char>, name: Seq<char>) -> Seq<char> {
    paths::under(paths::under(base, name), "config.json"@)
}

/// The configuration files, the one that is preferred first.
pub open spec fn config_files(xdg: Option<Seq<char>>, home: Option<Seq<char>>) -> Seq<Seq<char>> {
    seq![
        config_in(config_dir(xdg, home), "jj-agentic-aspect"@),
        config_in(config_dir(xdg, home), "jj-plan"@),
        config_in(config_dir(xdg, home), "jjplan"@),
        config_in(home_dir(home), ".jjplan"@),
    ]
}

/// The home directory.
pub fn home(home_var: Option<&str>) -> (r: String)
    ensures
        r@ == home_dir(text::ref_text(home_var)),
{
    match home_var {
        Some(dir) => dir.to_owned(),
        None => {
            proof {
                reveal_strlit("");
                assert(""@ =~= Seq::<char>::empty());
            }
            "".to_owned()
        },
    }
}

/// The directory of configurations.
pub fn config_home(xdg: Option<&str>, home_var: Option<&str>) -> (r: String)
    ensures
        r@ == config_dir(text::ref_text(xdg), text::ref_text(home_var)),
{
    if let Some(dir) = xdg {
        if !dir.is_empty() {
            return dir.to_owned();
        }
    }
    proof {
        reveal_strlit(".config");
    }
    paths::join(home(home_var).as_str(), ".config")
}

fn file_in(base: &str, name: &str) -> (r: String)
    requires
        name@.len() > 0,
        name@[0] != '/',
    ensures
        r@ == config_in(base@, name@),
{
    proof {
        reveal_strlit("config.json");
    }
    paths::join(paths::join(base, name).as_str(), "config.json")
}

/// The configuration file that is preferred.
pub fn config_path(xdg: Option<&str>, home_var: Option<&str>) -> (r: String)
    ensures
        r@ == config_files(text::ref_text(xdg), text::ref_text(home_var))[0],
{
    proof {
        reveal_strlit("jj-agentic-aspect");
    }
    file_in(config_home(xdg, home_var).as_str(), "jj-agentic-aspect")
}

/// The configuration files, the one that is preferred first.
pub fn config_candidates(xdg: Option<&str>, home_var: Option<&str>) -> (r: Vec<String>)
    ensures
        r@.len() == 4,
        forall|i: int|
            0 <= i < 4 ==> (#[trigger] r@[i])@ == config_files(
                text::ref_text(xdg),
                text::ref_text(home_var),
            )[i],
{
    proof {
        reveal_strlit("jj-plan");
        reveal_strlit("jjplan");
        reveal_strlit(".jjplan");
    }
    let mut files: Vec<String> = Vec::new();
    let base = config_home(xdg, home_var);
    files.push(config_path(xdg, home_var));
    files.push(file_in(base.as_str(), "jj-plan"));
    files.push(file_in(base.as_str(), "jjplan"));
    files.push(file_in(home(home_var).as_str(), ".jjplan"));
    files
}

/// The first file that is there, and the preferred one where none is.
pub open spec fn chosen(files: Seq<Seq<char>>, exists: Seq<bool>) -> Seq<char> {
    if exists[0] {
        files[0]
    } else if exists[1] {
        files[1]
    } else if exists[2] {
        files[2]
    } else if exists[3] {
        files[3]
    } else {
        files[0]
    }
}

/// The configuration file that is read. `exists` says which of the files there are, in the
/// order in which they are preferred.
pub fn resolve_config_path(xdg: Option<&str>, home_var: Option<&str>, exists: [bool; 4]) -> (r:
    String)
    ensures
        r@ == chosen(
            config_files(text::ref_text(xdg), text::ref_text(home_var)),
            exists@,
        ),
{
    let mut files = config_candidates(xdg, home_var);
    let mut i: usize = 0;
    while i < 4
        invariant
            i <= 4,
            files@.len() == 4,
            forall|k: int|
                0 <= k < 4 ==> (#[trigger] files@[k])@ == config_files(
                    text::ref_text(xdg),
                    text::ref_text(home_var),
                )[k],
            forall|k: int| 0 <= k < i ==> !#[trigger] exists@[k],
        decreases 4 - i,
    {
        if exists[i] {
            assert(forall|k: int| 0 <= k < i ==> !#[trigger] exists@[k]);
            return files.swap_remove(i);
        }
        i += 1;
    }
    files.swap_remove(0)
}

/// The preferred file wins; an older one is read only where no file that is preferred to it is
/// there; where there is none, the preferred one is named.
pub proof fn preferred_file_wins(xdg: Option<Seq<char>>, home: Option<Seq<char>>, exists: Seq<bool>)
    requires
        exists.len() == 4,
    ensures
        ({
            let files = config_files(xdg, home);
            let file = chosen(files, exists);
            &&& exists[0] ==> file == files[0]
            &&& forall|i: int|
                0 <= i < 4 && #[trigger] exists[i] && (forall|k: int|
                    0 <= k < i ==> !#[trigger] exists[k]) ==> file == files[i]
            &&& (forall|i: int| 0 <= i < 4 ==> !#[trigger] exists[i]) ==> file == files[0]
        }),
{
}

// ---- what it holds ----

/// The text under `key`, where there is one and it is not empty.
pub open spec fn field(v: JsonView, key: Seq<char>) -> Option<Seq<char>> {
    match v.str_at(key) {
        Some(s) => if s.len() > 0 {
            Some(s)
        } else {
            None
        },
        None => None,
    }
}

/// The configuration that a value holds, or what is missing.
pub open spec fn config_of(path: Seq<char>, v: JsonView) -> Result<ConfigView, Seq<char>> {
    let id = field(v, "cf_access_client_id"@);
    let secret = field(v, "cf_access_client_secret"@);
    if field(v, "endpoint"@) is None {
        Err(path + " must contain \"endpoint\""@)
    } else if id is None || secret is None {
        Err(path + " must contain \"cf_access_client_id\" + \"cf_access_client_secret\""@)
    } else {
        Ok(
            ConfigView {
                endpoint: field(v, "endpoint"@)->0,
                cf_access_client_id: id->0,
                cf_access_client_secret: secret->0,
            },
        )
    }
}

/// The configuration that the file at `path` holds, from what reading it gave: its text, or
/// why it could not be read.
pub open spec fn loaded(path: Seq<char>, read: Result<Seq<char>, Seq<char>>) -> Result<
    ConfigView,
    Seq<char>,
> {
    match read {
        Err(why) => Err("unable to read "@ + path + ": "@ + why),
        Ok(raw) => match codec::json_parsed(raw) {
            Err(why) => Err("invalid JSON in "@ + path + ": "@ + why),
            Ok(v) => config_of(path, v),
        },
    }
}

/// What the loading gives.
pub open spec fn config_result(r: Result<Config, String>) -> Result<ConfigView, Seq<char>> {
    match r {
        Ok(config) => Ok(config@),
        Err(why) => Err(why@),
    }
}

/// What the reading gave.
pub open spec fn read_result(r: Result<String, String>) -> Result<Seq<char>, Seq<char>> {
    match r {
        Ok(raw) => Ok(raw@),
        Err(why) => Err(why@),
    }
}

fn text_field(v: &Json, key: &str) -> (r: Option<String>)
    ensures
        text::option_text(r) == field(v@, key@),
{
    match v.str_at(key) {
        Some(s) => if s.is_empty() {
            None
        } else {
            Some(s.to_owned())
        },
        None => None,
    }
}

fn lacking(path: &str, what: &str) -> (r: String)
    ensures
        r@ == path@ + what@,
{
    let mut s = path.to_owned();
    s.append(what);
    s
}

/// The configuration that a value holds.
pub fn config_from_json(path: &str, v: &Json) -> (r: Result<Config, String>)
    ensures
        config_result(r) == config_of(path@, v@),
{
    let endpoint = match text_field(v, "endpoint") {
        Some(s) => s,
        None => {
            return Err(lacking(path, " must contain \"endpoint\""));
        },
    };
    let id = text_field(v, "cf_access_client_id");
    let secret = text_field(v, "cf_access_client_secret");
    match id {
        Some(id) => match secret {
            Some(secret) => Ok(
                Config { endpoint, cf_access_client_id: id, cf_access_client_secret: secret },
            ),
            None => Err(
                lacking(
                    path,
                    " must contain \"cf_access_client_id\" + \"cf_access_client_secret\"",
                ),
            ),
        },
        None => Err(
            lacking(path, " must contain \"cf_access_client_id\" + \"cf_access_client_secret\""),
        ),
    }
}

fn trouble(what: &str, path: &str, why: &str) -> (r: String)
    ensures
        r@ == what@ + path@ + ": "@ + why@,
{
    let mut s = what.to_owned();
    s.append(path);
    s.append(": ");
    s.append(why);
    s
}

/// The configuration that the file at `path` holds, from what reading it gave.
pub fn try_load_config(path: &str, read: Result<String, String>) -> (r: Result<Config, String>)
    ensures
        config_result(r) == loaded(path@, read_result(read)),
{
    let raw = match read {
        Ok(raw) => raw,
        Err(why) => {
            return Err(trouble("unable to read ", path, why.as_str()));
        },
    };
    match codec::parse(raw.as_str()) {
        Ok(v) => config_from_json(path, &v),
        Err(why) => Err(trouble("invalid JSON in ", path, why.as_str())),
    }
}

/// A configuration that was loaded is complete: no part of it is empty.
pub proof fn loaded_config_is_complete(path: Seq<char>, read: Result<Seq<char>, Seq<char>>)
    ensures
        match loaded(path, read) {
            Ok(config) => {
                &&& config.endpoint.len() > 0
                &&& config.cf_access_client_id.len() > 0
                &&& config.cf_access_client_secret.len() > 0
            },
            Err(_) => true,
        },
{
}

/// Where the files are: in directories of these names under the directory of configurations, which
/// is the one that is set, else `.config` at home, and for the oldest at home itself.
pub proof fn files_have_their_places(xdg: Option<Seq<char>>, home: Option<Seq<char>>)
    ensures
        ({
            let house = if home is Some {
                home->0
            } else {
                Seq::empty()
            };
            let base = if xdg is Some && xdg->0.len() > 0 {
                xdg->0
            } else {
                paths::under(house, ".config"@)
            };
            let file = |dir: Seq<char>, name: Seq<char>| paths::under(
                paths::under(dir, name),
                "config.json"@,
            );
            &&& config_files(xdg, home).len() == 4
            &&& config_files(xdg, home)[0] == file(base, "jj-agentic-aspect"@)
            &&& config_files(xdg, home)[1] == file(base, "jj-plan"@)
            &&& config_files(xdg, home)[2] == file(base, "jjplan"@)
            &&& config_files(xdg, home)[3] == file(house, ".jjplan"@)
        }),
{
}

/// A configuration is loaded exactly where its file can be read and is a JSON object that has all
/// three texts, none of them empty, and it holds these.
pub proof fn loaded_config_is_what_the_file_holds(
    path: Seq<char>,
    read: Result<Seq<char>, Seq<char>>,
    config: ConfigView,
)
    ensures
        loaded(path, read) == Ok::<ConfigView, Seq<char>>(config) <==> {
            &&& read is Ok
            &&& codec::json_parsed(read->Ok_0) is Ok
            &&& ({
                let v = codec::json_parsed(read->Ok_0)->Ok_0;
                &&& v.str_at("endpoint"@) == Some(config.endpoint)
                &&& v.str_at("cf_access_client_id"@) == Some(config.cf_access_client_id)
                &&& v.str_at("cf_access_client_secret"@) == Some(config.cf_access_client_secret)
            })
            &&& config.endpoint.len() > 0
            &&& config.cf_access_client_id.len() > 0
            &&& config.cf_access_client_secret.len() > 0
        },
{
}

/// Why no configuration is loaded: the file cannot be read, it is no JSON, it has no endpoint, or
/// else it has no credentials.
pub proof fn failures_to_load_are_told(
    path: Seq<char>,
    raw: Seq<char>,
    why: Seq<char>,
)
    ensures
        loaded(path, Err(why)) == Err::<ConfigView, Seq<char>>(
            "unable to read "@ + path + ": "@ + why,
        ),
        match codec::json_parsed(raw) {
            Err(e) => loaded(path, Ok(raw)) == Err::<ConfigView, Seq<char>>(
                "invalid JSON in "@ + path + ": "@ + e,
            ),
            Ok(v) => {
                let given = |key: Seq<char>| v.str_at(key) is Some && v.str_at(key)->0.len() > 0;
                &&& !given("endpoint"@) ==> loaded(path, Ok(raw)) == Err::<ConfigView, Seq<char>>(
                    path + " must contain \"endpoint\""@,
                )
                &&& given("endpoint"@) && !(given("cf_access_client_id"@) && given(
                    "cf_access_client_secret"@,
                )) ==> loaded(path, Ok(raw)) == Err::<ConfigView, Seq<char>>(
                    path + " must contain \"cf_access_client_id\" + \"cf_access_client_secret\""@,
                )
            },
        },
{
}

/// A configuration is seen as it is, and so is what the loading and the reading give.
pub proof fn configurations_are_seen_as_they_are(config: Config, line: String)
    ensures
        config@.endpoint == config.endpoint@,
        config@.cf_access_client_id == config.cf_access_client_id@,
        config@.cf_access_client_secret == config.cf_access_client_secret@,
        config_result(Ok(config)) == Ok::<ConfigView, Seq<char>>(config@),
        config_result(Err(line)) == Err::<ConfigView, Seq<char>>(line@),
        read_result(Ok(line)) == Ok::<Seq<char>, Seq<char>>(line@),
        read_result(Err(line)) == Err::<Seq<char>, Seq<char>>(line@),
{
}

} // verus!
