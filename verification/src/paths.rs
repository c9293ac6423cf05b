//! Paths as text, in the Unix manner, and the directories of the program.
use vstd::prelude::*;

use crate::error::{outcome, simple_error, SimpleError};
use crate::parts::{lemma_split_extend, lemma_split_nonempty, split, split_at_char};
use crate::text::{
    chars_of, joined2, joined3, lemma_texts_push, opt_str, opt_text, same, texts, Text,
};

verus! {

/// The path `rel`, taken from the directory `base`; a path that begins at the root stays as it is.
pub open spec fn path_join(base: Text, rel: Text) -> Text {
    if rel.len() > 0 && rel[0] == '/' {
        rel
    } else if base.len() == 0 || base.last() == '/' {
        base + rel
    } else {
        base + "/"@ + rel
    }
}

/// The path `rel`, taken from the directory `base`.
pub fn join_path(base: &str, rel: &str) -> (r: String)
    ensures
        r@ == path_join(base@, rel@),
{
    let rel_chars = chars_of(rel);
    let base_chars = chars_of(base);
    if rel_chars.len() > 0 && rel_chars[0] == '/' {
        rel.to_owned()
    } else if base_chars.len() == 0 || base_chars[base_chars.len() - 1] == '/' {
        joined2(base, rel)
    } else {
        joined3(base, "/", rel)
    }
}

/// The parts of a path that name something: not the empty ones, nor those that stay in place.
pub open spec fn path_names(parts: Seq<Text>) -> Seq<Text>
    decreases parts.len(),
{
    if parts.len() == 0 {
        Seq::empty()
    } else {
        let before = path_names(parts.drop_last());
        if parts.last().len() == 0 || parts.last() == "."@ {
            before
        } else {
            before.push(parts.last())
        }
    }
}

/// The last name of a path: none where the path has no name or ends with a step upwards.
pub open spec fn file_name(path: Text) -> Option<Text> {
    let names = names_of(path);
    if names.len() == 0 || names.last() == ".."@ {
        None
    } else {
        Some(names.last())
    }
}

/// A name at the end is the last of the names.
proof fn lemma_last_name(parts: Seq<Text>, k: int)
    requires
        0 <= k <= parts.len(),
        forall|j: int| k <= j < parts.len() ==> (#[trigger] parts[j]).len() == 0 || parts[j] == "."@,
    ensures
        path_names(parts) == path_names(parts.take(k)),
    decreases parts.len(),
{
    if k == parts.len() {
        assert(parts.take(k) =~= parts);
    } else {
        assert(parts[parts.len() - 1].len() == 0 || parts[parts.len() - 1] == "."@);
        lemma_last_name(parts.drop_last(), k);
        assert(parts.drop_last().take(k) =~= parts.take(k));
    }
}

/// The last name of a path.
pub fn last_name(path: &str) -> (r: Option<String>)
    ensures
        opt_text(r) == file_name(path@),
{
    let parts = split_at_char(path, '/');
    let ghost all = split(path@, '/');
    proof {
        lemma_split_nonempty(path@, '/');
        assert(texts(parts@).len() == parts@.len());
    }
    let mut n: usize = parts.len();
    while n > 0
        invariant
            0 <= n <= parts@.len(),
            texts(parts@) == all,
            all == split(path@, '/'),
            all.len() == parts@.len(),
            forall|j: int| n <= j < all.len() ==> (#[trigger] all[j]).len() == 0 || all[j] == "."@,
        decreases n,
    {
        proof {
            assert(texts(parts@)[n - 1] == parts@[n - 1]@);
        }
        let part = parts[n - 1].as_str();
        if !part.is_empty() && !same(part, ".") {
            proof {
                lemma_last_name(all, n as int);
                assert(all.take(n as int).last() == all[n - 1]);
            }
            return if same(part, "..") {
                None
            } else {
                Some(part.to_owned())
            };
        }
        n -= 1;
    }
    proof {
        lemma_last_name(all, 0);
        assert(all.take(0) =~= Seq::<Text>::empty());
    }
    None
}

/// The names of a path, from the first to the last.
pub open spec fn names_of(path: Text) -> Seq<Text> {
    path_names(split(path, '/'))
}

/// The names of a path.
pub fn name_list(path: &str) -> (r: Vec<String>)
    ensures
        texts(r@) == names_of(path@),
{
    let parts = split_at_char(path, '/');
    let ghost all = split(path@, '/');
    let mut out: Vec<String> = Vec::new();
    let mut i: usize = 0;
    proof {
        assert(all.take(0) =~= Seq::<Text>::empty());
        assert(texts(out@) =~= Seq::<Text>::empty());
    }
    while i < parts.len()
        invariant
            0 <= i <= parts@.len(),
            texts(parts@) == all,
            texts(out@) == path_names(all.take(i as int)),
        decreases parts@.len() - i,
    {
        proof {
            assert(texts(parts@).len() == parts@.len());
            assert(texts(parts@)[i as int] == parts@[i as int]@);
            assert(all.take(i + 1).drop_last() =~= all.take(i as int));
            assert(all.take(i + 1).last() == parts@[i as int]@);
        }
        let part = parts[i].as_str();
        if !part.is_empty() && !same(part, ".") {
            let name = part.to_owned();
            proof {
                lemma_texts_push(out@, name);
            }
            out.push(name);
        }
        i += 1;
    }
    proof {
        assert(texts(parts@).len() == parts@.len());
        assert(all.take(all.len() as int) =~= all);
    }
    out
}

/// The path begins at the root.
pub open spec fn begins_at_root(path: Text) -> bool {
    path.len() > 0 && path[0] == '/'
}

/// The path begins with a step that stays in place.
pub open spec fn begins_in_place(path: Text) -> bool {
    path.len() > 0 && path[0] == '.' && (path.len() == 1 || path[1] == '/')
}

/// Two paths are the same, part by part: repeated and trailing separators do not count, nor do
/// steps that stay in place, except at the beginning.
pub open spec fn same_path(a: Text, b: Text) -> bool {
    &&& begins_at_root(a) == begins_at_root(b)
    &&& begins_in_place(a) == begins_in_place(b)
    &&& names_of(a) == names_of(b)
}

/// How a path begins: at the root, and with a step that stays in place.
fn beginning(path: &str) -> (r: (bool, bool))
    ensures
        r.0 == begins_at_root(path@),
        r.1 == begins_in_place(path@),
{
    let chars = chars_of(path);
    if chars.len() == 0 {
        (false, false)
    } else {
        (chars[0] == '/', chars[0] == '.' && (chars.len() == 1 || chars[1] == '/'))
    }
}

/// Two paths are the same, part by part.
pub fn is_same_path(a: &str, b: &str) -> (r: bool)
    ensures
        r == same_path(a@, b@),
{
    let (a_root, a_place) = beginning(a);
    let (b_root, b_place) = beginning(b);
    if a_root != b_root || a_place != b_place {
        return false;
    }
    let x = name_list(a);
    let y = name_list(b);
    proof {
        assert(texts(x@).len() == x@.len());
        assert(texts(y@).len() == y@.len());
    }
    if x.len() != y.len() {
        return false;
    }
    let mut i: usize = 0;
    while i < x.len()
        invariant
            0 <= i <= x@.len(),
            x@.len() == y@.len(),
            texts(x@) == names_of(a@),
            texts(y@) == names_of(b@),
            forall|k: int| 0 <= k < i ==> texts(x@)[k] == texts(y@)[k],
        decreases x@.len() - i,
    {
        proof {
            assert(texts(x@)[i as int] == x@[i as int]@);
            assert(texts(y@)[i as int] == y@[i as int]@);
        }
        if !same(x[i].as_str(), y[i].as_str()) {
            return false;
        }
        i += 1;
    }
    proof {
        assert(texts(x@) =~= texts(y@));
    }
    true
}

/// The kinds of systems that place the directories of a program differently.
#[derive(Debug, Clone, Copy, PartialEq, Eq, Structural)]
pub enum Platform {
    MacOs,
    Other,
}

/// What the environment says of directories.
#[derive(Debug)]
pub struct DirEnv {
    /// `HOME`.
    pub home: Option<String>,
    /// `XDG_CONFIG_HOME`.
    pub config_home: Option<String>,
    /// `XDG_DATA_HOME`.
    pub data_home: Option<String>,
    /// `XDG_CACHE_HOME`.
    pub cache_home: Option<String>,
}

/// The directories of the program.
#[derive(Debug)]
pub struct AppDirs {
    pub config: String,
    pub data: String,
    pub cache: String,
}

/// The values of [`AppDirs`].
pub struct AppDirsView {
    pub config: Text,
    pub data: Text,
    pub cache: Text,
}

impl View for AppDirs {
    type V = AppDirsView;

    open spec fn view(&self) -> AppDirsView {
        AppDirsView { config: self.config@, data: self.data@, cache: self.cache@ }
    }
}

impl AppDirs {
    /// Where the configuration lies.
    pub fn config_dir(&self) -> (r: &str)
        ensures
            r@ == self@.config,
    {
        self.config.as_str()
    }

    /// Where the data lie.
    pub fn data_dir(&self) -> (r: &str)
        ensures
            r@ == self@.data,
    {
        self.data.as_str()
    }

    /// Where files lie that can be made again.
    pub fn cache_dir(&self) -> (r: &str)
        ensures
            r@ == self@.cache,
    {
        self.cache.as_str()
    }
}

/// The home directory, which has to have a name.
pub open spec fn home_of(home: Option<Text>) -> Result<Text, Text> {
    match home {
        Some(path) => if path.len() > 0 {
            Ok(path)
        } else {
            Err("could not determine home directory"@)
        },
        None => Err("could not determine home directory"@),
    }
}

/// The home directory.
pub fn home_dir(home: &Option<String>) -> (r: Result<String, SimpleError>)
    ensures
        outcome(r) == home_of(opt_text(*home)),
{
    match home {
        Some(path) => {
            if !path.as_str().is_empty() {
                return Ok(path.clone());
            }
        },
        None => {},
    }
    Err(simple_error("could not determine home directory".to_owned()))
}

/// The directory that the environment names, or else the usual one below the home directory.
pub open spec fn base_dir(named: Option<Text>, home: Text, usual: Text) -> Text {
    match named {
        Some(path) => path,
        None => path_join(home, usual),
    }
}

/// The directories of the program.
pub open spec fn dirs_of(env: DirEnv, platform: Platform) -> Result<AppDirsView, Text> {
    match home_of(opt_text(env.home)) {
        Err(e) => Err(e),
        Ok(home) => Ok(
            match platform {
                Platform::MacOs => AppDirsView {
                    config: path_join(home, "Library/Application Support/dev.fbm.fbm"@),
                    data: path_join(home, "Library/Application Support/dev.fbm.fbm"@),
                    cache: path_join(home, "Library/Caches/dev.fbm.fbm"@),
                },
                Platform::Other => AppDirsView {
                    config: path_join(
                        base_dir(opt_text(env.config_home), home, ".config"@),
                        "fbm"@,
                    ),
                    data: path_join(
                        base_dir(opt_text(env.data_home), home, ".local/share"@),
                        "fbm"@,
                    ),
                    cache: path_join(base_dir(opt_text(env.cache_home), home, ".cache"@), "fbm"@),
                },
            },
        ),
    }
}

/// The directory that the environment names, or else the usual one below the home directory.
fn named_or_usual(named: &Option<String>, home: &str, usual: &str) -> (r: String)
    ensures
        r@ == base_dir(opt_text(*named), home@, usual@),
{
    match named {
        Some(path) => path.clone(),
        None => join_path(home, usual),
    }
}

/// The directories of the program.
pub fn project_dirs(env: &DirEnv, platform: Platform) -> (r: Result<AppDirs, SimpleError>)
    ensures
        outcome(r) == dirs_of(*env, platform),
{
    let home = match home_dir(&env.home) {
        Ok(path) => path,
        Err(e) => return Err(e),
    };
    let home = home.as_str();
    match platform {
        Platform::MacOs => {
            let base = join_path(home, "Library/Application Support/dev.fbm.fbm");
            Ok(
                AppDirs {
                    config: base.clone(),
                    data: base,
                    cache: join_path(home, "Library/Caches/dev.fbm.fbm"),
                },
            )
        },
        Platform::Other => {
            let config = named_or_usual(&env.config_home, home, ".config");
            let data = named_or_usual(&env.data_home, home, ".local/share");
            let cache = named_or_usual(&env.cache_home, home, ".cache");
            Ok(
                AppDirs {
                    config: join_path(config.as_str(), "fbm"),
                    data: join_path(data.as_str(), "fbm"),
                    cache: join_path(cache.as_str(), "fbm"),
                },
            )
        },
    }
}

/// The configuration file: the one that is named, or else the one in its usual place, for which
/// the directories have to be known.
pub open spec fn config_file(explicit: Option<Text>, dirs: Result<AppDirsView, Text>) -> Result<
    Text,
    Text,
> {
    match explicit {
        Some(path) => Ok(path),
        None => match dirs {
            Ok(d) => Ok(path_join(d.config, "config.toml"@)),
            Err(e) => Err(e),
        },
    }
}

/// A configuration file that is named is taken, wherever the directories lie and even where they are
/// not known; without a name it lies in the directory of the configuration.
pub proof fn law_named_configuration_is_taken(path: Text, dirs: AppDirsView, reason: Text)
    ensures
        config_file(Some(path), Ok(dirs)) == Ok::<Text, Text>(path),
        config_file(Some(path), Err(reason)) == Ok::<Text, Text>(path),
        config_file(None, Ok(dirs)) == Ok::<Text, Text>(path_join(dirs.config, "config.toml"@)),
        config_file(None, Err(reason)) == Err::<Text, Text>(reason),
{
}

/// The configuration file: the one that is named, or else the one in its usual place, for which
/// the directories have to be known.
pub fn config_path(explicit: Option<&str>, dirs: Result<AppDirs, SimpleError>) -> (r: Result<
    String,
    SimpleError,
>)
    ensures
        outcome(r) == config_file(opt_str(explicit), outcome(dirs)),
        outcome(r) == (match explicit {
            Some(path) => Ok::<Text, Text>(path@),
            None => match outcome(dirs) {
                Ok(d) => Ok(path_join(d.config, "config.toml"@)),
                Err(e) => Err(e),
            },
        }),
{
    match explicit {
        Some(path) => Ok(path.to_owned()),
        None => match dirs {
            Ok(d) => Ok(join_path(d.config_dir(), "config.toml")),
            Err(e) => Err(e),
        },
    }
}

/// The directories of the program lie where the environment says, and else below the home
/// directory; without a home directory they lie nowhere.
pub proof fn law_directories_lie_where_the_environment_says(env: DirEnv, home: Text)
    requires
        env.home is Some && env.home->0@ == home,
        home.len() > 0,
    ensures
        dirs_of(env, Platform::Other) is Ok,
        ({
            let dirs = dirs_of(env, Platform::Other)->Ok_0;
            &&& env.config_home matches Some(p) ==> dirs.config == path_join(p@, "fbm"@)
            &&& env.config_home is None ==> dirs.config == path_join(
                path_join(home, ".config"@),
                "fbm"@,
            )
            &&& env.data_home matches Some(p) ==> dirs.data == path_join(p@, "fbm"@)
            &&& env.data_home is None ==> dirs.data == path_join(
                path_join(home, ".local/share"@),
                "fbm"@,
            )
            &&& env.cache_home matches Some(p) ==> dirs.cache == path_join(p@, "fbm"@)
            &&& env.cache_home is None ==> dirs.cache == path_join(path_join(home, ".cache"@), "fbm"@)
        }),
        dirs_of(env, Platform::MacOs) is Ok,
        ({
            let dirs = dirs_of(env, Platform::MacOs)->Ok_0;
            &&& dirs.config == path_join(home, "Library/Application Support/dev.fbm.fbm"@)
            &&& dirs.data == dirs.config
            &&& dirs.cache == path_join(home, "Library/Caches/dev.fbm.fbm"@)
        }),
{
}

/// Without a home directory there is an error on every system.
pub proof fn law_home_directory_is_needed(env: DirEnv, platform: Platform)
    ensures
        dirs_of(env, platform) is Err <==> env.home is None || env.home->0@.len() == 0,
        home_of(opt_text(env.home)) is Ok ==> env.home is Some && home_of(opt_text(env.home))->Ok_0
            == env.home->0@,
        home_of(opt_text(env.home)) is Err ==> home_of(opt_text(env.home))->Err_0
            == "could not determine home directory"@,
{
}

/// A path is taken from a directory by standing behind it, with one separator between them; one
/// that begins at the root is not moved.
pub proof fn law_path_stands_behind_its_directory(base: Text, rel: Text)
    ensures
        rel.len() > 0 && rel[0] == '/' ==> path_join(base, rel) == rel,
        (rel.len() == 0 || rel[0] != '/') && base.len() > 0 && base.last() != '/' ==> path_join(
            base,
            rel,
        ) == base + seq!['/'] + rel,
        (rel.len() == 0 || rel[0] != '/') && base.len() > 0 && base.last() == '/' ==> path_join(
            base,
            rel,
        ) == base + rel,
        rel.len() == 0 || rel[0] != '/' ==> path_join(Seq::empty(), rel) == rel,
{
    reveal_strlit("/");
    assert("/"@ =~= seq!['/']);
    assert(Seq::<char>::empty() + rel =~= rel);
}

/// The last name of a path is the part behind its last separator, where that names something.
pub proof fn law_last_name_stands_behind_the_directory(base: Text, name: Text)
    requires
        name.len() > 0,
        !name.contains('/'),
        name != "."@,
        name != ".."@,
    ensures
        file_name(path_join(base, name)) == Some(name),
        file_name(base + seq!['/'] + name + seq!['/']) == Some(name),
{
    reveal_strlit("/");
    assert("/"@ =~= seq!['/']);
    assert(name[0] != '/') by {
        if name[0] == '/' {
            assert(name.contains('/'));
        }
    }
    let joined = path_join(base, name);
    let head = if base.len() == 0 || base.last() == '/' {
        base
    } else {
        base + seq!['/']
    };
    assert(joined =~= head + name);
    lemma_split_extend(head, name, '/');
    lemma_split_nonempty(head, '/');
    assert(split(head, '/').last() =~= Seq::<char>::empty());
    assert(split(joined, '/').last() =~= name);
    let there = base + seq!['/'];
    let ended = there + name + seq!['/'];
    lemma_split_extend(there, name, '/');
    lemma_split_nonempty(there, '/');
    assert(there.last() == '/');
    assert(split(there, '/').last() =~= Seq::<char>::empty());
    assert(split(there + name, '/').last() =~= name);
    assert(ended.drop_last() =~= there + name);
    assert(ended.last() == '/');
    let parts = split(ended, '/');
    assert(parts =~= split(there + name, '/').push(Seq::<char>::empty()));
    assert(parts.drop_last() =~= split(there + name, '/'));
    assert(parts.last().len() == 0);
    assert(names_of(ended) == names_of(there + name));
    assert(names_of(there + name).last() == name);
}

/// How a path begins counts: a path is not the same with a step in front of it that stays in place,
/// unless it begins with one itself, nor with the root in front of it, unless it begins there. Every
/// path is the same as itself.
pub proof fn law_beginning_of_a_path_counts(path: Text)
    ensures
        same_path(path, path),
        path.len() == 0 || path[0] != '.' || (path.len() > 1 && path[1] != '/') ==> !same_path(
            seq!['.', '/'] + path,
            path,
        ),
        path.len() == 0 || path[0] != '/' ==> !same_path(seq!['/'] + path, path),
{
    let stepped = seq!['.', '/'] + path;
    assert(stepped[0] == '.' && stepped[1] == '/');
    assert((seq!['/'] + path)[0] == '/');
}

} // verus!
