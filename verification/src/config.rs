//! The configuration model of `shipfe.config.json`: environments, their
//! servers and sub-environments, the parameters of one deployment, the
//! default configuration that `init` writes, and the `.gitignore` entries.
use vstd::prelude::*;

use crate::error::AppError;
use crate::text::{
    append_range,
    first_index, index_of_char, join_seq, join_with, lemma_first_index, lemma_first_index_at,
    lemma_index_of_char, lines_seq, push_char, split_lines, strip_cr, trim, trim_end_seq, trim_seq,
    trim_start_seq, views, is_ws, lemma_index_of_char_at,
};

verus! {

/// The view of an optional string.
pub open spec fn opt_view(o: Option<String>) -> Option<Seq<char>> {
    match o {
        Some(s) => Some(s@),
        None => None,
    }
}

/// The view of an optional list of strings.
pub open spec fn opt_views(o: Option<Vec<String>>) -> Option<Seq<Seq<char>>> {
    match o {
        Some(v) => Some(views(v@)),
        None => None,
    }
}

pub fn clone_opt_string(o: &Option<String>) -> (r: Option<String>)
    ensures
        opt_view(r) == opt_view(*o),
{
    match o {
        Some(s) => Some(s.clone()),
        None => None,
    }
}

pub fn clone_strings(v: &Vec<String>) -> (r: Vec<String>)
    ensures
        views(r@) == views(v@),
{
    let mut out: Vec<String> = Vec::new();
    let mut i: usize = 0;
    while i < v.len()
        invariant
            i <= v.len(),
            out@.len() == i,
            views(out@) == views(v@.subrange(0, i as int)),
        decreases v.len() - i,
    {
        let ghost prev = out@;
        let c = v[i].clone();
        assert(c@ == v@[i as int]@);
        out.push(c);
        assert(out@ == prev.push(c));
        assert forall|j: int| 0 <= j < i + 1 implies views(out@)[j] == views(
            v@.subrange(0, i + 1),
        )[j] by {
            if j < i {
                assert(views(prev)[j] == views(v@.subrange(0, i as int))[j]);
            }
        }
        assert(views(out@) =~= views(v@.subrange(0, i + 1)));
        i = i + 1;
    }
    assert(v@.subrange(0, v@.len() as int) == v@);
    out
}

pub fn clone_opt_strings(o: &Option<Vec<String>>) -> (r: Option<Vec<String>>)
    ensures
        opt_views(r) == opt_views(*o),
{
    match o {
        Some(v) => Some(clone_strings(v)),
        None => None,
    }
}

/// One server to deploy to over SSH.
#[derive(Debug)]
pub struct ServerConfig {
    pub host: String,
    pub port: u16,
    pub username: String,
    pub password: Option<String>,
    pub key_path: Option<String>,
    pub remote_deploy_path: String,
}

pub struct ServerView {
    pub host: Seq<char>,
    pub port: u16,
    pub username: Seq<char>,
    pub password: Option<Seq<char>>,
    pub key_path: Option<Seq<char>>,
    pub remote_deploy_path: Seq<char>,
}

impl View for ServerConfig {
    type V = ServerView;

    open spec fn view(&self) -> ServerView {
        ServerView {
            host: self.host@,
            port: self.port,
            username: self.username@,
            password: opt_view(self.password),
            key_path: opt_view(self.key_path),
            remote_deploy_path: self.remote_deploy_path@,
        }
    }
}

impl Clone for ServerConfig {
    fn clone(&self) -> (r: Self)
        ensures
            r@ == self@,
    {
        ServerConfig {
            host: self.host.clone(),
            port: self.port,
            username: self.username.clone(),
            password: clone_opt_string(&self.password),
            key_path: clone_opt_string(&self.key_path),
            remote_deploy_path: self.remote_deploy_path.clone(),
        }
    }
}

/// The views of a list of servers.
pub open spec fn server_views(v: Seq<ServerConfig>) -> Seq<ServerView> {
    v.map_values(|s: ServerConfig| s@)
}

pub fn clone_servers(v: &Vec<ServerConfig>) -> (r: Vec<ServerConfig>)
    ensures
        server_views(r@) == server_views(v@),
{
    let mut out: Vec<ServerConfig> = Vec::new();
    let mut i: usize = 0;
    while i < v.len()
        invariant
            i <= v.len(),
            out@.len() == i,
            server_views(out@) == server_views(v@.subrange(0, i as int)),
        decreases v.len() - i,
    {
        let ghost prev = out@;
        let c = v[i].clone();
        assert(c@ == v@[i as int]@);
        out.push(c);
        assert(out@ == prev.push(c));
        assert forall|j: int| 0 <= j < i + 1 implies server_views(out@)[j] == server_views(
            v@.subrange(0, i + 1),
        )[j] by {
            if j < i {
                assert(server_views(prev)[j] == server_views(v@.subrange(0, i as int))[j]);
            }
        }
        assert(server_views(out@) =~= server_views(v@.subrange(0, i + 1)));
        i = i + 1;
    }
    assert(v@.subrange(0, v@.len() as int) == v@);
    out
}

/// A sub-environment: an application deployed next to its parent's, which
/// may override the build command, the dist directory and the remote path.
#[derive(Debug)]
pub struct SubEnvironmentConfig {
    pub build_command: Option<String>,
    pub local_dist_path: Option<String>,
    pub remote_deploy_path: String,
}

pub struct SubEnvView {
    pub build_command: Option<Seq<char>>,
    pub local_dist_path: Option<Seq<char>>,
    pub remote_deploy_path: Seq<char>,
}

impl View for SubEnvironmentConfig {
    type V = SubEnvView;

    open spec fn view(&self) -> SubEnvView {
        SubEnvView {
            build_command: opt_view(self.build_command),
            local_dist_path: opt_view(self.local_dist_path),
            remote_deploy_path: self.remote_deploy_path@,
        }
    }
}

/// Everything one deployment needs.
#[derive(Debug)]
pub struct DeployParams {
    pub build_command: Option<String>,
    pub local_dist_path: String,
    pub servers: Vec<ServerConfig>,
    pub remote_tmp: String,
    pub hashed_asset_patterns: Option<Vec<String>>,
    pub enable_shared: bool,
    pub keep_releases: u32,
    pub delete_old: bool,
}

pub struct DeployView {
    pub build_command: Option<Seq<char>>,
    pub local_dist_path: Seq<char>,
    pub servers: Seq<ServerView>,
    pub remote_tmp: Seq<char>,
    pub hashed_asset_patterns: Option<Seq<Seq<char>>>,
    pub enable_shared: bool,
    pub keep_releases: u32,
    pub delete_old: bool,
}

impl View for DeployParams {
    type V = DeployView;

    open spec fn view(&self) -> DeployView {
        DeployView {
            build_command: opt_view(self.build_command),
            local_dist_path: self.local_dist_path@,
            servers: server_views(self.servers@),
            remote_tmp: self.remote_tmp@,
            hashed_asset_patterns: opt_views(self.hashed_asset_patterns),
            enable_shared: self.enable_shared,
            keep_releases: self.keep_releases,
            delete_old: self.delete_old,
        }
    }
}

/// One named environment (`dev`, `prod`, ...) of the configuration file.
#[derive(Debug)]
pub struct EnvironmentConfig {
    pub build_command: Option<String>,
    pub local_dist_path: String,
    pub servers: Vec<ServerConfig>,
    pub remote_tmp: String,
    /// The sub-environments by name; a name occurs at most once.
    pub sub_environments: Option<Vec<(String, SubEnvironmentConfig)>>,
    pub hashed_asset_patterns: Option<Vec<String>>,
    pub enable_shared: Option<bool>,
    pub keep_releases: Option<u32>,
    pub delete_old: Option<bool>,
}

pub struct EnvView {
    pub build_command: Option<Seq<char>>,
    pub local_dist_path: Seq<char>,
    pub servers: Seq<ServerView>,
    pub remote_tmp: Seq<char>,
    pub sub_environments: Option<Seq<(Seq<char>, SubEnvView)>>,
    pub hashed_asset_patterns: Option<Seq<Seq<char>>>,
    pub enable_shared: Option<bool>,
    pub keep_releases: Option<u32>,
    pub delete_old: Option<bool>,
}

/// The views of named entries.
pub open spec fn sub_views(v: Seq<(String, SubEnvironmentConfig)>) -> Seq<(Seq<char>, SubEnvView)> {
    v.map_values(|e: (String, SubEnvironmentConfig)| (e.0@, e.1@))
}

pub open spec fn opt_sub_views(o: Option<Vec<(String, SubEnvironmentConfig)>>) -> Option<
    Seq<(Seq<char>, SubEnvView)>,
> {
    match o {
        Some(v) => Some(sub_views(v@)),
        None => None,
    }
}

impl View for EnvironmentConfig {
    type V = EnvView;

    open spec fn view(&self) -> EnvView {
        EnvView {
            build_command: opt_view(self.build_command),
            local_dist_path: self.local_dist_path@,
            servers: server_views(self.servers@),
            remote_tmp: self.remote_tmp@,
            sub_environments: opt_sub_views(self.sub_environments),
            hashed_asset_patterns: opt_views(self.hashed_asset_patterns),
            enable_shared: self.enable_shared,
            keep_releases: self.keep_releases,
            delete_old: self.delete_old,
        }
    }
}

/// The whole configuration file: the environments by name.
#[derive(Debug)]
pub struct GlobalConfig {
    /// The environments by name; a name occurs at most once.
    pub environments: Vec<(String, EnvironmentConfig)>,
}

pub open spec fn env_views(v: Seq<(String, EnvironmentConfig)>) -> Seq<(Seq<char>, EnvView)> {
    v.map_values(|e: (String, EnvironmentConfig)| (e.0@, e.1@))
}

impl View for GlobalConfig {
    type V = Seq<(Seq<char>, EnvView)>;

    open spec fn view(&self) -> Seq<(Seq<char>, EnvView)> {
        env_views(self.environments@)
    }
}

/// The names of named entries.
pub open spec fn names<V>(entries: Seq<(Seq<char>, V)>) -> Seq<Seq<char>> {
    entries.map_values(|e: (Seq<char>, V)| e.0)
}

/// The entry named `name`: the first one, as a name occurs at most once.
pub open spec fn lookup<V>(entries: Seq<(Seq<char>, V)>, name: Seq<char>) -> Option<V> {
    let k = first_index(names(entries), name);
    if k < entries.len() {
        Some(entries[k as int].1)
    } else {
        None
    }
}


/// A configuration names each environment once, and each environment names
/// each of its sub-environments once.
pub open spec fn config_wf(cfg: Seq<(Seq<char>, EnvView)>) -> bool {
    &&& names(cfg).no_duplicates()
    &&& forall|i: int|
        0 <= i < cfg.len() ==> match (#[trigger] cfg[i]).1.sub_environments {
            Some(subs) => names(subs).no_duplicates(),
            None => true,
        }
}

/// The number of releases kept when an environment does not say.
pub const DEFAULT_KEEP_RELEASES: u32 = 10;

pub open spec fn default_dev_view() -> EnvView {
    EnvView {
        build_command: Some("npm run build"@),
        local_dist_path: "./dist"@,
        servers: seq![
            ServerView {
                host: "dev.example.com"@,
                port: 22,
                username: "deploy"@,
                password: None,
                key_path: Some("~/.ssh/id_rsa"@),
                remote_deploy_path: "/var/www/dev"@,
            },
        ],
        remote_tmp: "/tmp"@,
        sub_environments: Some(
            seq![
                (
                    "admin"@,
                    SubEnvView {
                        build_command: Some("npm run build:admin"@),
                        local_dist_path: None,
                        remote_deploy_path: "/var/www/dev/admin"@,
                    },
                ),
            ],
        ),
        hashed_asset_patterns: Some(seq!["**/*.js"@, "**/*.css"@]),
        enable_shared: Some(false),
        keep_releases: Some(3),
        delete_old: Some(false),
    }
}

pub open spec fn default_prod_view() -> EnvView {
    EnvView {
        build_command: Some("npm run build"@),
        local_dist_path: "./dist"@,
        servers: seq![
            ServerView {
                host: "prod.example.com"@,
                port: 22,
                username: "deploy"@,
                password: None,
                key_path: Some("~/.ssh/prod_key"@),
                remote_deploy_path: "/var/www/prod"@,
            },
        ],
        remote_tmp: "/tmp"@,
        sub_environments: None,
        hashed_asset_patterns: Some(seq!["**/*.js"@, "**/*.css"@, "**/*.{png,jpg,svg}"@]),
        enable_shared: Some(true),
        keep_releases: Some(10),
        delete_old: Some(false),
    }
}

/// The configuration that `shipfe init` writes: a `dev` environment with an
/// `admin` sub-environment, and a `prod` environment.
pub open spec fn default_config_view() -> Seq<(Seq<char>, EnvView)> {
    seq![("dev"@, default_dev_view()), ("prod"@, default_prod_view())]
}

/// The configuration `init` writes keeps old releases: every environment
/// sets `delete_old` to `false` and keeps at least three releases.
pub proof fn lemma_default_keeps_releases()
    ensures
        forall|i: int|
            0 <= i < default_config_view().len() ==> ((#[trigger] default_config_view()[i]).1.delete_old
                == Some(false) && (default_config_view()[i].1.keep_releases matches Some(k) && k
                >= 3)),
{
}

fn one_server(host: &str, key_path: &str, remote_deploy_path: &str) -> (r: Vec<ServerConfig>)
    ensures
        server_views(r@) == seq![
            ServerView {
                host: host@,
                port: 22,
                username: "deploy"@,
                password: None,
                key_path: Some(key_path@),
                remote_deploy_path: remote_deploy_path@,
            },
        ],
{
    let mut v: Vec<ServerConfig> = Vec::new();
    v.push(
        ServerConfig {
            host: host.to_string(),
            port: 22,
            username: "deploy".to_string(),
            password: None,
            key_path: Some(key_path.to_string()),
            remote_deploy_path: remote_deploy_path.to_string(),
        },
    );
    assert(server_views(v@) =~= seq![v@[0]@]);
    v
}

fn string_list(items: &[&str]) -> (r: Vec<String>)
    ensures
        views(r@) == items@.map_values(|s: &str| s@),
{
    let mut v: Vec<String> = Vec::new();
    let mut i: usize = 0;
    while i < items.len()
        invariant
            i <= items@.len(),
            v@.len() == i,
            forall|j: int| 0 <= j < i ==> #[trigger] v@[j]@ == items@[j]@,
        decreases items@.len() - i,
    {
        v.push(items[i].to_string());
        i = i + 1;
    }
    assert(views(v@) =~= items@.map_values(|s: &str| s@));
    v
}

/// The default configuration (`shipfe init`).
pub fn default_global_config() -> (r: GlobalConfig)
    ensures
        r@ == default_config_view(),
        config_wf(r@),
{
    let mut subs: Vec<(String, SubEnvironmentConfig)> = Vec::new();
    subs.push(
        (
            "admin".to_string(),
            SubEnvironmentConfig {
                build_command: Some("npm run build:admin".to_string()),
                local_dist_path: None,
                remote_deploy_path: "/var/www/dev/admin".to_string(),
            },
        ),
    );
    assert(sub_views(subs@) =~= seq![(subs@[0].0@, subs@[0].1@)]);
    let dev_items: [&str; 2] = ["**/*.js", "**/*.css"];
    let prod_items: [&str; 3] = ["**/*.js", "**/*.css", "**/*.{png,jpg,svg}"];
    let dev_patterns = string_list(&dev_items);
    let prod_patterns = string_list(&prod_items);
    assert(views(dev_patterns@) =~= seq!["**/*.js"@, "**/*.css"@]);
    assert(views(prod_patterns@) =~= seq!["**/*.js"@, "**/*.css"@, "**/*.{png,jpg,svg}"@]);
    let dev = EnvironmentConfig {
        build_command: Some("npm run build".to_string()),
        local_dist_path: "./dist".to_string(),
        servers: one_server("dev.example.com", "~/.ssh/id_rsa", "/var/www/dev"),
        remote_tmp: "/tmp".to_string(),
        sub_environments: Some(subs),
        hashed_asset_patterns: Some(dev_patterns),
        enable_shared: Some(false),
        keep_releases: Some(3),
        delete_old: Some(false),
    };
    let prod = EnvironmentConfig {
        build_command: Some("npm run build".to_string()),
        local_dist_path: "./dist".to_string(),
        servers: one_server("prod.example.com", "~/.ssh/prod_key", "/var/www/prod"),
        remote_tmp: "/tmp".to_string(),
        sub_environments: None,
        hashed_asset_patterns: Some(prod_patterns),
        enable_shared: Some(true),
        keep_releases: Some(10),
        delete_old: Some(false),
    };
    assert(dev@ == default_dev_view());
    assert(prod@ == default_prod_view());
    let mut environments: Vec<(String, EnvironmentConfig)> = Vec::new();
    environments.push(("dev".to_string(), dev));
    environments.push(("prod".to_string(), prod));
    let r = GlobalConfig { environments };
    assert(r@ =~= default_config_view());
    proof {
        reveal_strlit("dev");
        reveal_strlit("prod");
        let cfg = default_config_view();
        assert(names(cfg) =~= seq!["dev"@, "prod"@]);
        assert("dev"@ != "prod"@) by {
            assert("dev"@.len() != "prod"@.len());
        }
        assert(names(cfg).no_duplicates());
        let subs = default_dev_view().sub_environments.unwrap();
        assert(names(subs) =~= seq!["admin"@]);
        assert(names(subs).no_duplicates());
        assert forall|i: int| 0 <= i < cfg.len() implies match (#[trigger] cfg[i]).1.sub_environments {
            Some(subs) => names(subs).no_duplicates(),
            None => true,
        } by {
            if i == 0 {
                assert(cfg[0].1 == default_dev_view());
            } else {
                assert(cfg[1].1 == default_prod_view());
            }
        }
    }
    r
}


/// The error of `init` when the configuration file exists and `--force` is
/// not given.
pub open spec fn config_exists_msg() -> Seq<char> {
    "shipfe.config.json already exists; use --force to overwrite it"@
}

/// Whether `init` may write the configuration file: when there is none yet,
/// or when `--force` asks to overwrite it.
pub fn init_allowed(config_exists: bool, force: bool) -> (r: Result<(), AppError>)
    ensures
        r is Ok <==> (!config_exists || force),
        r matches Err(e) ==> e.message() == config_exists_msg(),
{
    if config_exists && !force {
        Err(AppError::Invalid("shipfe.config.json already exists; use --force to overwrite it".to_string()))
    } else {
        Ok(())
    }
}

/// Whether some line of `lines`, trimmed, equals `entry`.
pub open spec fn has_trimmed_line(lines: Seq<Seq<char>>, entry: Seq<char>) -> bool {
    exists|i: int| 0 <= i < lines.len() && trim_seq(lines[i]) == entry
}

/// `lines` with `entry` appended unless some line already holds it.
pub open spec fn with_entry(lines: Seq<Seq<char>>, entry: Seq<char>) -> Seq<Seq<char>> {
    if has_trimmed_line(lines, entry) {
        lines
    } else {
        lines.push(entry)
    }
}

/// The entries that `.gitignore` must hold, in the order they are added.
pub open spec fn ignored_entries() -> Seq<Seq<char>> {
    seq!["shipfe.log"@, "shipfe.config.json"@]
}

/// The lines of `.gitignore` once the missing entries are appended.
pub open spec fn gitignore_lines(lines: Seq<Seq<char>>) -> Seq<Seq<char>> {
    with_entry(with_entry(lines, ignored_entries()[0]), ignored_entries()[1])
}

/// What `.gitignore` becomes: `None` when it already ignores both files and
/// is left as it is, else the new content (a line per entry, each ended by
/// a line feed; a missing file is created with both entries).
pub open spec fn gitignore_update_spec(existing: Option<Seq<char>>) -> Option<Seq<char>> {
    match existing {
        Some(content) => {
            let lines = lines_seq(content);
            let updated = gitignore_lines(lines);
            if updated.len() == lines.len() {
                None
            } else {
                Some(join_seq(updated, seq!['\n']) + seq!['\n'])
            }
        },
        None => Some(join_seq(ignored_entries(), seq!['\n']) + seq!['\n']),
    }
}

fn add_entry(lines: &mut Vec<String>, entry: &str)
    ensures
        views(final(lines)@) == with_entry(views(old(lines)@), entry@),
{
    let e = entry.to_string();
    let mut i: usize = 0;
    let ghost ls = views(lines@);
    while i < lines.len()
        invariant
            i <= lines.len(),
            ls == views(lines@),
            e@ == entry@,
            forall|j: int| 0 <= j < i ==> trim_seq(#[trigger] ls[j]) != entry@,
        decreases lines.len() - i,
    {
        let t = trim(lines[i].as_str());
        if t == e {
            assert(trim_seq(ls[i as int]) == entry@);
            return;
        }
        i = i + 1;
    }
    lines.push(e);
    assert(views(lines@) =~= ls.push(entry@));
}

/// The new content of `.gitignore` given its current content (`None` when
/// there is no such file), or `None` when it needs no change.
pub fn gitignore_update(existing: Option<&str>) -> (r: Option<String>)
    ensures
        opt_view(r) == gitignore_update_spec(
            match existing {
                Some(c) => Some(c@),
                None => None,
            },
        ),
{
    match existing {
        Some(content) => {
            let mut lines = split_lines(content);
            let n = lines.len();
            add_entry(&mut lines, "shipfe.log");
            add_entry(&mut lines, "shipfe.config.json");
            if lines.len() == n {
                None
            } else {
                let mut out = join_with(&lines, '\n');
                push_char(&mut out, '\n');
                Some(out)
            }
        },
        None => {
            let mut lines: Vec<String> = Vec::new();
            lines.push("shipfe.log".to_string());
            lines.push("shipfe.config.json".to_string());
            assert(views(lines@) =~= ignored_entries());
            let mut out = join_with(&lines, '\n');
            push_char(&mut out, '\n');
            Some(out)
        },
    }
}


proof fn lemma_lines_have_no_newline(s: Seq<char>)
    ensures
        forall|i: int| 0 <= i < lines_seq(s).len() ==> !(#[trigger] lines_seq(s)[i]).contains('\n'),
    decreases s.len(),
{
    if s.len() > 0 {
        let k = index_of_char(s, '\n');
        lemma_index_of_char(s, '\n');
        if k < s.len() {
            let rest = s.subrange(k as int + 1, s.len() as int);
            lemma_lines_have_no_newline(rest);
            let head = s.subrange(0, k as int);
            assert(!strip_cr(head).contains('\n')) by {
                if strip_cr(head).contains('\n') {
                    let j = choose|j: int| 0 <= j < strip_cr(head).len() && strip_cr(head)[j] == '\n';
                    assert(s[j] == '\n');
                }
            }
            assert forall|i: int| 0 <= i < lines_seq(s).len() implies !(
            #[trigger] lines_seq(s)[i]).contains('\n') by {
                if i > 0 {
                    assert(lines_seq(s)[i] == lines_seq(rest)[i - 1]);
                }
            }
        } else {
            assert(!s.contains('\n'));
        }
    }
}

proof fn lemma_lines_of_joined(parts: Seq<Seq<char>>)
    requires
        parts.len() > 0,
        forall|i: int| 0 <= i < parts.len() ==> !(#[trigger] parts[i]).contains('\n'),
    ensures
        lines_seq(join_seq(parts, seq!['\n']) + seq!['\n']) == parts.map_values(
            |t: Seq<char>| strip_cr(t),
        ),
    decreases parts.len(),
{
    let p0 = parts[0];
    let s = join_seq(parts, seq!['\n']) + seq!['\n'];
    let m = p0.len() as int;
    assert(!p0.contains('\n'));
    let tail = if parts.len() == 1 {
        seq![]
    } else {
        join_seq(parts.drop_first(), seq!['\n']) + seq!['\n']
    };
    assert(s =~= p0 + seq!['\n'] + tail);
    assert forall|j: int| 0 <= j < m implies s[j] != '\n' by {
        assert(s[j] == p0[j]);
        if p0[j] == '\n' {
            assert(p0.contains('\n'));
        }
    }
    lemma_index_of_char_at(s, '\n', m);
    assert(s.subrange(0, m) =~= p0);
    assert(s.subrange(m + 1, s.len() as int) =~= tail);
    assert(lines_seq(s) == seq![strip_cr(p0)] + lines_seq(tail));
    if parts.len() == 1 {
        assert(lines_seq(tail) == Seq::<Seq<char>>::empty());
        assert(seq![strip_cr(p0)] + lines_seq(tail) =~= seq![strip_cr(p0)]);
        assert(parts.map_values(|t: Seq<char>| strip_cr(t)) =~= seq![strip_cr(p0)]);
    } else {
        let rest = parts.drop_first();
        assert forall|i: int| 0 <= i < rest.len() implies !(#[trigger] rest[i]).contains('\n') by {
            assert(rest[i] == parts[i + 1]);
        }
        lemma_lines_of_joined(rest);
        assert(parts.map_values(|t: Seq<char>| strip_cr(t)) =~= seq![strip_cr(p0)]
            + rest.map_values(|t: Seq<char>| strip_cr(t)));
    }
}

proof fn lemma_trim_drop_ws_last(x: Seq<char>)
    requires
        x.len() > 0,
        is_ws(x.last()),
    ensures
        trim_seq(x) == trim_seq(x.drop_last()),
    decreases x.len(),
{
    if is_ws(x[0]) {
        assert(trim_start_seq(x) == trim_start_seq(x.drop_first()));
        if x.len() == 1 {
            assert(x.drop_first() =~= Seq::<char>::empty());
            assert(x.drop_last() =~= Seq::<char>::empty());
            assert(trim_start_seq(Seq::<char>::empty()) == Seq::<char>::empty());
            assert(trim_end_seq(Seq::<char>::empty()) == Seq::<char>::empty());
        } else {
            assert(x.drop_first().last() == x.last());
            lemma_trim_drop_ws_last(x.drop_first());
            assert(x.drop_last().drop_first() =~= x.drop_first().drop_last());
            assert(x.drop_last()[0] == x[0]);
            assert(trim_start_seq(x.drop_last()) == trim_start_seq(x.drop_last().drop_first()));
        }
    } else {
        assert(x.len() > 1);
        assert(x.drop_last()[0] == x[0]);
        assert(trim_start_seq(x) == x);
        assert(trim_start_seq(x.drop_last()) == x.drop_last());
        assert(trim_end_seq(x) == trim_end_seq(x.drop_last()));
    }
}

proof fn lemma_trim_strip_cr(x: Seq<char>)
    ensures
        trim_seq(strip_cr(x)) == trim_seq(x),
{
    if x.len() > 0 && x.last() == '\r' {
        lemma_trim_drop_ws_last(x);
    }
}

proof fn lemma_entries_facts()
    ensures
        forall|i: int|
            0 <= i < ignored_entries().len() ==> {
                &&& !(#[trigger] ignored_entries()[i]).contains('\n')
                &&& trim_seq(ignored_entries()[i]) == ignored_entries()[i]
            },
{
    reveal_strlit("shipfe.log");
    reveal_strlit("shipfe.config.json");
    assert forall|i: int| 0 <= i < ignored_entries().len() implies {
        &&& !(#[trigger] ignored_entries()[i]).contains('\n')
        &&& trim_seq(ignored_entries()[i]) == ignored_entries()[i]
    } by {
        let e = ignored_entries()[i];
        assert(e.len() > 0 && !is_ws(e[0]) && !is_ws(e.last()));
        assert(trim_start_seq(e) == e);
        assert(trim_end_seq(e) == e);
        if e.contains('\n') {
            let j = choose|j: int| 0 <= j < e.len() && e[j] == '\n';
            assert(false);
        }
    }
}

proof fn lemma_with_entry_keeps(lines: Seq<Seq<char>>, entry: Seq<char>, other: Seq<char>)
    requires
        trim_seq(entry) == entry,
    ensures
        has_trimmed_line(with_entry(lines, entry), entry),
        has_trimmed_line(lines, other) ==> has_trimmed_line(with_entry(lines, entry), other),
        forall|i: int|
            0 <= i < with_entry(lines, entry).len() ==> (#[trigger] with_entry(lines, entry)[i]
                == entry || (i < lines.len() && with_entry(lines, entry)[i] == lines[i])),
{
    if !has_trimmed_line(lines, entry) {
        let l2 = lines.push(entry);
        assert(trim_seq(l2[lines.len() as int]) == entry);
        if has_trimmed_line(lines, other) {
            let i = choose|i: int| 0 <= i < lines.len() && trim_seq(lines[i]) == other;
            assert(trim_seq(l2[i]) == other);
        }
    }
}

proof fn lemma_update_of_complete(u: Seq<Seq<char>>)
    requires
        u.len() > 0,
        forall|i: int| 0 <= i < u.len() ==> !(#[trigger] u[i]).contains('\n'),
        has_trimmed_line(u, ignored_entries()[0]),
        has_trimmed_line(u, ignored_entries()[1]),
    ensures
        gitignore_update_spec(Some(join_seq(u, seq!['\n']) + seq!['\n'])) is None,
{
    lemma_lines_of_joined(u);
    let v = u.map_values(|t: Seq<char>| strip_cr(t));
    assert forall|k: int| 0 <= k < 2 implies has_trimmed_line(v, #[trigger] ignored_entries()[k]) by {
        let e = ignored_entries()[k];
        let i = choose|i: int| 0 <= i < u.len() && trim_seq(u[i]) == e;
        lemma_trim_strip_cr(u[i]);
        assert(trim_seq(v[i]) == e);
    }
    assert(has_trimmed_line(v, ignored_entries()[0]));
    assert(has_trimmed_line(v, ignored_entries()[1]));
    assert(gitignore_lines(v) == v);
}

/// Updating `.gitignore` twice is the same as updating it once: after one
/// update that writes a file, the next finds both entries and changes nothing.
pub proof fn lemma_gitignore_update_idempotent(existing: Option<Seq<char>>)
    ensures
        gitignore_update_spec(existing) matches Some(c) ==> gitignore_update_spec(Some(c)) is None,
{
    lemma_entries_facts();
    let e0 = ignored_entries()[0];
    let e1 = ignored_entries()[1];
    match existing {
        Some(content) => {
            let l = lines_seq(content);
            let u = gitignore_lines(l);
            if u.len() != l.len() {
                lemma_lines_have_no_newline(content);
                let w = with_entry(l, e0);
                lemma_with_entry_keeps(l, e0, e1);
                lemma_with_entry_keeps(w, e1, e0);
                assert forall|i: int| 0 <= i < u.len() implies !(#[trigger] u[i]).contains('\n') by {
                    if u[i] != e1 {
                        assert(w[i] == u[i]);
                        if w[i] != e0 {
                            assert(l[i] == u[i]);
                        }
                    }
                }
                lemma_update_of_complete(u);
            }
        },
        None => {
            let u = ignored_entries();
            assert(trim_seq(u[0]) == e0);
            assert(trim_seq(u[1]) == e1);
            lemma_update_of_complete(u);
        },
    }
}


/// How a `--profile` value names an environment: `base-sub` names the
/// sub-environment `sub` of `base` (split at the first `-`), a name without
/// `-` names an environment.
pub open spec fn split_profile_spec(p: Seq<char>) -> (Seq<char>, Option<Seq<char>>) {
    let k = index_of_char(p, '-');
    if k < p.len() {
        (p.subrange(0, k as int), Some(p.subrange(k as int + 1, p.len() as int)))
    } else {
        (p, None)
    }
}

/// Splits a profile into the environment name and the sub-environment name.
pub fn split_profile(profile: &str) -> (r: (String, Option<String>))
    ensures
        (r.0@, opt_view(r.1)) == split_profile_spec(profile@),
{
    let n = profile.unicode_len();
    let mut i: usize = 0;
    while i < n && profile.get_char(i) != '-'
        invariant
            n == profile@.len(),
            i <= n,
            forall|j: int| 0 <= j < i ==> profile@[j] != '-',
        decreases n - i,
    {
        i = i + 1;
    }
    proof {
        lemma_index_of_char_at(profile@, '-', i as int);
    }
    if i < n {
        let mut base = String::new();
        append_range(&mut base, profile, 0, i);
        let mut sub = String::new();
        append_range(&mut sub, profile, i + 1, n);
        (base, Some(sub))
    } else {
        let mut base = String::new();
        append_range(&mut base, profile, 0, n);
        assert(profile@.subrange(0, n as int) == profile@);
        (base, None)
    }
}

/// A profile is the environment name, then `-` and the sub-environment name
/// when there is one; the environment name holds no `-`.
pub proof fn lemma_split_profile_rejoins(p: Seq<char>)
    ensures
        !split_profile_spec(p).0.contains('-'),
        split_profile_spec(p).1 matches Some(sub) ==> p == split_profile_spec(p).0 + seq!['-']
            + sub,
        split_profile_spec(p).1 is None ==> p == split_profile_spec(p).0,
{
    lemma_index_of_char(p, '-');
    let k = index_of_char(p, '-');
    let base = split_profile_spec(p).0;
    if base.contains('-') {
        let j = choose|j: int| 0 <= j < base.len() && base[j] == '-';
        assert(p[j] == '-');
    }
    if k < p.len() {
        assert(p =~= p.subrange(0, k as int) + seq!['-'] + p.subrange(k as int + 1, p.len() as int));
    }
}

/// The names of named entries.
pub open spec fn entry_names<V>(v: Seq<(String, V)>) -> Seq<Seq<char>> {
    v.map_values(|e: (String, V)| e.0@)
}

/// Where the first entry named `name` stands, or `entries.len()`.
pub fn position_of<V>(entries: &Vec<(String, V)>, name: &String) -> (r: usize)
    ensures
        r == first_index(entry_names(entries@), name@),
{
    let mut i: usize = 0;
    while i < entries.len()
        invariant
            i <= entries.len(),
            forall|j: int| 0 <= j < i ==> entry_names(entries@)[j] != name@,
        decreases entries.len() - i,
    {
        if entries[i].0 == *name {
            proof {
                lemma_first_index_at(entry_names(entries@), name@, i as int);
            }
            return i;
        }
        i = i + 1;
    }
    proof {
        lemma_first_index_at(entry_names(entries@), name@, i as int);
    }
    i
}

/// Whether no two entries share a name.
fn names_distinct<V>(entries: &Vec<(String, V)>) -> (r: bool)
    ensures
        r == entry_names(entries@).no_duplicates(),
{
    let ghost ns = entry_names(entries@);
    let mut i: usize = 0;
    while i < entries.len()
        invariant
            i <= entries.len(),
            ns == entry_names(entries@),
            forall|a: int, b: int| 0 <= a < i && 0 <= b < i && a != b ==> ns[a] != ns[b],
        decreases entries.len() - i,
    {
        let mut j: usize = 0;
        while j < i
            invariant
                j <= i < entries.len(),
                ns == entry_names(entries@),
                forall|a: int| 0 <= a < j ==> ns[a] != ns[i as int],
            decreases i - j,
        {
            if entries[j].0 == entries[i].0 {
                assert(ns[j as int] == ns[i as int]);
                return false;
            }
            j = j + 1;
        }
        i = i + 1;
    }
    true
}

/// Whether a configuration names each environment once and each
/// environment names each of its sub-environments once.
pub fn check_config(config: &GlobalConfig) -> (r: bool)
    ensures
        r == config_wf(config@),
{
    let envs = &config.environments;
    proof {
        assert(names(config@) =~= entry_names(envs@));
    }
    if !names_distinct(envs) {
        return false;
    }
    let mut i: usize = 0;
    while i < envs.len()
        invariant
            i <= envs.len(),
            names(config@).no_duplicates(),
            config@ == env_views(envs@),
            forall|k: int|
                0 <= k < i ==> match (#[trigger] config@[k]).1.sub_environments {
                    Some(subs) => names(subs).no_duplicates(),
                    None => true,
                },
        decreases envs.len() - i,
    {
        assert(config@[i as int].1 == envs@[i as int].1@);
        match &envs[i].1.sub_environments {
            Some(subs) => {
                proof {
                    assert(names(sub_views(subs@)) =~= entry_names(subs@));
                }
                if !names_distinct(subs) {
                    return false;
                }
            },
            None => {},
        }
        i = i + 1;
    }
    true
}

pub open spec fn bool_or(o: Option<bool>, d: bool) -> bool {
    match o {
        Some(b) => b,
        None => d,
    }
}

pub open spec fn u32_or(o: Option<u32>, d: u32) -> u32 {
    match o {
        Some(b) => b,
        None => d,
    }
}

/// The deployment of an environment itself.
pub open spec fn env_params_spec(e: EnvView) -> DeployView {
    DeployView {
        build_command: e.build_command,
        local_dist_path: e.local_dist_path,
        servers: e.servers,
        remote_tmp: e.remote_tmp,
        hashed_asset_patterns: e.hashed_asset_patterns,
        enable_shared: bool_or(e.enable_shared, false),
        keep_releases: u32_or(e.keep_releases, DEFAULT_KEEP_RELEASES),
        delete_old: bool_or(e.delete_old, false),
    }
}

/// A server deploying to `path` in place of its own remote path.
pub open spec fn with_path(s: ServerView, path: Seq<char>) -> ServerView {
    ServerView {
        host: s.host,
        port: s.port,
        username: s.username,
        password: s.password,
        key_path: s.key_path,
        remote_deploy_path: path,
    }
}

/// The servers of a sub-environment: its parent's, each deploying to the
/// sub-environment's remote path.
pub open spec fn sub_servers(servers: Seq<ServerView>, path: Seq<char>) -> Seq<ServerView> {
    servers.map_values(|s: ServerView| with_path(s, path))
}

/// The servers of `v`, each deploying to `path`.
fn servers_at(v: &Vec<ServerConfig>, path: &String) -> (r: Vec<ServerConfig>)
    ensures
        server_views(r@) == sub_servers(server_views(v@), path@),
{
    let mut out: Vec<ServerConfig> = Vec::new();
    let mut i: usize = 0;
    while i < v.len()
        invariant
            i <= v.len(),
            out@.len() == i,
            forall|j: int| 0 <= j < i ==> #[trigger] out@[j]@ == with_path(v@[j]@, path@),
        decreases v.len() - i,
    {
        let s = &v[i];
        out.push(
            ServerConfig {
                host: s.host.clone(),
                port: s.port,
                username: s.username.clone(),
                password: clone_opt_string(&s.password),
                key_path: clone_opt_string(&s.key_path),
                remote_deploy_path: path.clone(),
            },
        );
        i = i + 1;
    }
    assert(server_views(out@) =~= sub_servers(server_views(v@), path@));
    out
}

/// The deployment of a sub-environment: its parent's settings, with the
/// build command, the dist directory and the remote path it overrides.
pub open spec fn sub_params_spec(e: EnvView, s: SubEnvView) -> DeployView {
    DeployView {
        build_command: if s.build_command is Some {
            s.build_command
        } else {
            e.build_command
        },
        local_dist_path: match s.local_dist_path {
            Some(p) => p,
            None => e.local_dist_path,
        },
        servers: sub_servers(e.servers, s.remote_deploy_path),
        remote_tmp: e.remote_tmp,
        hashed_asset_patterns: e.hashed_asset_patterns,
        enable_shared: bool_or(e.enable_shared, false),
        keep_releases: u32_or(e.keep_releases, DEFAULT_KEEP_RELEASES),
        delete_old: bool_or(e.delete_old, false),
    }
}

/// A sub-environment inherits every setting of its parent but the build
/// command (when it has its own), the dist directory (when it has its own)
/// and the remote path, which every server takes from the sub-environment.
pub proof fn lemma_sub_inherits(e: EnvView, s: SubEnvView)
    ensures
        ({
            let p = env_params_spec(e);
            let q = sub_params_spec(e, s);
            &&& q.remote_tmp == p.remote_tmp
            &&& q.hashed_asset_patterns == p.hashed_asset_patterns
            &&& q.enable_shared == p.enable_shared
            &&& q.keep_releases == p.keep_releases
            &&& q.delete_old == p.delete_old
            &&& s.build_command is None ==> q.build_command == p.build_command
            &&& s.local_dist_path is None ==> q.local_dist_path == p.local_dist_path
            &&& q.servers.len() == p.servers.len()
            &&& forall|i: int|
                0 <= i < q.servers.len() ==> {
                    let a = #[trigger] q.servers[i];
                    let b = p.servers[i];
                    &&& a.host == b.host
                    &&& a.port == b.port
                    &&& a.username == b.username
                    &&& a.password == b.password
                    &&& a.key_path == b.key_path
                    &&& a.remote_deploy_path == s.remote_deploy_path
                }
        }),
{
}

/// Configured flags are taken as given: sharing and `delete_old` are on
/// exactly when the environment sets them to `true` (off when it sets
/// `false` or leaves them out), and `keep_releases` is the configured number,
/// else 10; a sub-environment takes the same from its parent.
pub proof fn lemma_flags_as_given(e: EnvView, s: SubEnvView)
    ensures
        env_params_spec(e).delete_old <==> e.delete_old == Some(true),
        env_params_spec(e).enable_shared <==> e.enable_shared == Some(true),
        env_params_spec(e).keep_releases == match e.keep_releases {
            Some(k) => k,
            None => 10,
        },
        sub_params_spec(e, s).delete_old <==> e.delete_old == Some(true),
        sub_params_spec(e, s).enable_shared <==> e.enable_shared == Some(true),
        sub_params_spec(e, s).keep_releases == env_params_spec(e).keep_releases,
{
}

/// The deployment parameters of an environment.
pub fn environment_params(env: &EnvironmentConfig) -> (r: DeployParams)
    ensures
        r@ == env_params_spec(env@),
{
    DeployParams {
        build_command: clone_opt_string(&env.build_command),
        local_dist_path: env.local_dist_path.clone(),
        servers: clone_servers(&env.servers),
        remote_tmp: env.remote_tmp.clone(),
        hashed_asset_patterns: clone_opt_strings(&env.hashed_asset_patterns),
        enable_shared: match env.enable_shared {
            Some(b) => b,
            None => false,
        },
        keep_releases: match env.keep_releases {
            Some(k) => k,
            None => DEFAULT_KEEP_RELEASES,
        },
        delete_old: match env.delete_old {
            Some(b) => b,
            None => false,
        },
    }
}

/// The deployment parameters of a sub-environment of `env`.
pub fn sub_environment_params(env: &EnvironmentConfig, sub: &SubEnvironmentConfig) -> (r:
    DeployParams)
    ensures
        r@ == sub_params_spec(env@, sub@),
{
    let servers = servers_at(&env.servers, &sub.remote_deploy_path);
    DeployParams {
        build_command: match &sub.build_command {
            Some(c) => Some(c.clone()),
            None => clone_opt_string(&env.build_command),
        },
        local_dist_path: match &sub.local_dist_path {
            Some(p) => p.clone(),
            None => env.local_dist_path.clone(),
        },
        servers,
        remote_tmp: env.remote_tmp.clone(),
        hashed_asset_patterns: clone_opt_strings(&env.hashed_asset_patterns),
        enable_shared: match env.enable_shared {
            Some(b) => b,
            None => false,
        },
        keep_releases: match env.keep_releases {
            Some(k) => k,
            None => DEFAULT_KEEP_RELEASES,
        },
        delete_old: match env.delete_old {
            Some(b) => b,
            None => false,
        },
    }
}


pub open spec fn env_not_found_msg(base: Seq<char>) -> Seq<char> {
    "Environment '"@ + base + "' not found in config"@
}

pub open spec fn sub_not_found_msg(name: Seq<char>, base: Seq<char>) -> Seq<char> {
    "Sub-environment '"@ + name + "' not found in '"@ + base + "'"@
}

pub open spec fn no_subs_msg(base: Seq<char>) -> Seq<char> {
    "No sub-environments defined for '"@ + base + "'"@
}

fn env_not_found(base: &String) -> (r: AppError)
    ensures
        r.message() == env_not_found_msg(base@),
{
    let mut m = "Environment '".to_string();
    m.append(base.as_str());
    m.append("' not found in config");
    AppError::Invalid(m)
}

fn sub_not_found(name: &String, base: &String) -> (r: AppError)
    ensures
        r.message() == sub_not_found_msg(name@, base@),
{
    let mut m = "Sub-environment '".to_string();
    m.append(name.as_str());
    m.append("' not found in '");
    m.append(base.as_str());
    m.append("'");
    AppError::Invalid(m)
}

fn no_subs(base: &String) -> (r: AppError)
    ensures
        r.message() == no_subs_msg(base@),
{
    let mut m = "No sub-environments defined for '".to_string();
    m.append(base.as_str());
    m.append("'");
    AppError::Invalid(m)
}

/// One deployment that a `deploy` command makes: of a sub-environment when
/// it has a name, else of the environment itself.
#[derive(Debug)]
pub struct DeployTarget {
    pub sub_environment: Option<String>,
    pub params: DeployParams,
}

pub open spec fn target_views(ts: Seq<DeployTarget>) -> Seq<(Option<Seq<char>>, DeployView)> {
    ts.map_values(|t: DeployTarget| (opt_view(t.sub_environment), t.params@))
}

/// The deployments of `--all-sub`: every sub-environment, in the order the
/// configuration declares them, each with its own parameters.
pub open spec fn all_sub_targets(env: EnvView, subs: Seq<(Seq<char>, SubEnvView)>) -> Seq<
    (Option<Seq<char>>, DeployView),
> {
    subs.map_values(
        |e: (Seq<char>, SubEnvView)| (Some(e.0), sub_params_spec(env, e.1)),
    )
}

/// What `shipfe deploy --profile <profile> [--all-sub]` deploys, or the
/// message it fails with.
pub open spec fn deploy_resolution(
    cfg: Seq<(Seq<char>, EnvView)>,
    profile: Seq<char>,
    all_sub: bool,
    r: Result<Seq<(Option<Seq<char>>, DeployView)>, Seq<char>>,
) -> bool {
    let base = split_profile_spec(profile).0;
    let sub = split_profile_spec(profile).1;
    match lookup(cfg, base) {
        None => r == Err::<Seq<(Option<Seq<char>>, DeployView)>, Seq<char>>(env_not_found_msg(base)),
        Some(env) => if all_sub && env.sub_environments is Some && sub is None {
            r == Ok::<Seq<(Option<Seq<char>>, DeployView)>, Seq<char>>(
                all_sub_targets(env, env.sub_environments.unwrap()),
            )
        } else if sub is Some {
            match env.sub_environments {
                None => r == Err::<Seq<(Option<Seq<char>>, DeployView)>, Seq<char>>(
                    no_subs_msg(base),
                ),
                Some(subs) => match lookup(subs, sub.unwrap()) {
                    None => r == Err::<Seq<(Option<Seq<char>>, DeployView)>, Seq<char>>(
                        sub_not_found_msg(sub.unwrap(), base),
                    ),
                    Some(se) => r == Ok::<Seq<(Option<Seq<char>>, DeployView)>, Seq<char>>(
                        seq![(sub, sub_params_spec(env, se))],
                    ),
                },
            }
        } else {
            r == Ok::<Seq<(Option<Seq<char>>, DeployView)>, Seq<char>>(
                seq![(None, env_params_spec(env))],
            )
        },
    }
}

pub open spec fn deploy_result_view(r: Result<Vec<DeployTarget>, AppError>) -> Result<
    Seq<(Option<Seq<char>>, DeployView)>,
    Seq<char>,
> {
    match r {
        Ok(ts) => Ok(target_views(ts@)),
        Err(e) => Err(e.message()),
    }
}

proof fn lemma_lookup_at<V, W>(v: Seq<(String, V)>, w: Seq<(Seq<char>, W)>, name: Seq<char>)
    requires
        v.len() == w.len(),
        forall|i: int| 0 <= i < v.len() ==> (#[trigger] w[i]).0 == v[i].0@,
    ensures
        names(w) == entry_names(v),
        lookup(w, name) is Some <==> first_index(entry_names(v), name) < v.len(),
        first_index(entry_names(v), name) < v.len() ==> lookup(w, name) == Some(
            w[first_index(entry_names(v), name) as int].1,
        ),
{
    assert(names(w) =~= entry_names(v));
    lemma_first_index(entry_names(v), name);
}

/// The deployments that `shipfe deploy --profile <profile>` makes, with
/// `--all-sub` when `all_sub` holds.
pub fn resolve_deploy(config: &GlobalConfig, profile: &str, all_sub: bool) -> (r: Result<
    Vec<DeployTarget>,
    AppError,
>)
    requires
        config_wf(config@),
    ensures
        deploy_resolution(config@, profile@, all_sub, deploy_result_view(r)),
{
    let (base, sub) = split_profile(profile);
    let envs = &config.environments;
    let k = position_of(envs, &base);
    proof {
        lemma_lookup_at(envs@, config@, base@);
    }
    if k >= envs.len() {
        return Err(env_not_found(&base));
    }
    let env = &envs[k].1;
    assert(lookup(config@, base@) == Some(env@));
    if all_sub && env.sub_environments.is_some() && sub.is_none() {
        let subs = match &env.sub_environments {
            Some(s) => s,
            None => { return Err(no_subs(&base)); },
        };
        let ghost sv = sub_views(subs@);
        let mut targets: Vec<DeployTarget> = Vec::new();
        let mut i: usize = 0;
        while i < subs.len()
            invariant
                i <= subs.len(),
                sv == sub_views(subs@),
                env@.sub_environments == Some(sv),
                targets@.len() == i,
                forall|j: int|
                    0 <= j < i ==> #[trigger] target_views(targets@)[j] == all_sub_targets(
                        env@,
                        sv,
                    )[j],
            decreases subs.len() - i,
        {
            let params = sub_environment_params(env, &subs[i].1);
            let nm = subs[i].0.clone();
            assert(nm@ == subs@[i as int].0@);
            let ghost prev = targets@;
            let t = DeployTarget { sub_environment: Some(nm), params };
            targets.push(t);
            assert forall|j: int| 0 <= j < i + 1 implies #[trigger] target_views(targets@)[j]
                == all_sub_targets(env@, sv)[j] by {
                if j < i {
                    assert(targets@[j] == prev[j]);
                    assert(target_views(targets@)[j] == target_views(prev)[j]);
                } else {
                    assert(targets@[j] == t);
                    assert(sv[j] == (subs@[j].0@, subs@[j].1@));
                    assert(target_views(targets@)[j] == (opt_view(t.sub_environment), t.params@));
                    assert(all_sub_targets(env@, sv)[j] == (
                        Some(sv[j].0),
                        sub_params_spec(env@, sv[j].1),
                    ));
                }
            }
            i = i + 1;
        }
        assert(target_views(targets@) =~= all_sub_targets(env@, sv));
        Ok(targets)
    } else {
        match sub {
            Some(name) => {
                match &env.sub_environments {
                    None => Err(no_subs(&base)),
                    Some(subs) => {
                        let p = position_of(subs, &name);
                        proof {
                            lemma_lookup_at(subs@, sub_views(subs@), name@);
                        }
                        if p >= subs.len() {
                            Err(sub_not_found(&name, &base))
                        } else {
                            let params = sub_environment_params(env, &subs[p].1);
                            let mut targets: Vec<DeployTarget> = Vec::new();
                            targets.push(DeployTarget { sub_environment: Some(name), params });
                            assert(target_views(targets@) =~= seq![
                                (target_views(targets@)[0].0, target_views(targets@)[0].1),
                            ]);
                            Ok(targets)
                        }
                    },
                }
            },
            None => {
                let params = environment_params(env);
                let mut targets: Vec<DeployTarget> = Vec::new();
                targets.push(DeployTarget { sub_environment: None, params });
                assert(target_views(targets@) =~= seq![
                    (target_views(targets@)[0].0, target_views(targets@)[0].1),
                ]);
                Ok(targets)
            },
        }
    }
}


/// Whether `deploy --profile <profile> [--all-sub]` deploys every
/// sub-environment: `--all-sub` on an environment that has
/// sub-environments, with no sub-environment named in the profile.
pub open spec fn deploys_all_subs_spec(cfg: Seq<(Seq<char>, EnvView)>, profile: Seq<char>, all_sub: bool) -> bool {
    let base = split_profile_spec(profile).0;
    let sub = split_profile_spec(profile).1;
    &&& all_sub
    &&& sub is None
    &&& lookup(cfg, base) matches Some(env) && env.sub_environments is Some
}

pub fn deploys_all_subs(config: &GlobalConfig, profile: &str, all_sub: bool) -> (r: bool)
    requires
        config_wf(config@),
    ensures
        r == deploys_all_subs_spec(config@, profile@, all_sub),
{
    let (base, sub) = split_profile(profile);
    let envs = &config.environments;
    let k = position_of(envs, &base);
    proof {
        lemma_lookup_at(envs@, config@, base@);
    }
    if k >= envs.len() {
        return false;
    }
    assert(lookup(config@, base@) == Some(envs@[k as int].1@));
    all_sub && sub.is_none() && envs[k].1.sub_environments.is_some()
}

/// Deploying all sub-environments is deploying each one by name: when the
/// environment `base` (a name without `-`) has sub-environments, the
/// `--all-sub` deployment holds one target per sub-environment, in the order
/// declared, and the target of the sub-environment `s` is the very target
/// that `deploy --profile <base>-<s>` makes.
pub proof fn lemma_all_subs_are_single_deploys(
    cfg: Seq<(Seq<char>, EnvView)>,
    base: Seq<char>,
    i: int,
    all: Seq<(Option<Seq<char>>, DeployView)>,
    one: Seq<(Option<Seq<char>>, DeployView)>,
)
    requires
        config_wf(cfg),
        !base.contains('-'),
        lookup(cfg, base) is Some,
        lookup(cfg, base).unwrap().sub_environments is Some,
        0 <= i < lookup(cfg, base).unwrap().sub_environments.unwrap().len(),
        deploy_resolution(cfg, base, true, Ok(all)),
        deploy_resolution(
            cfg,
            base + seq!['-'] + lookup(cfg, base).unwrap().sub_environments.unwrap()[i].0,
            false,
            Ok(one),
        ),
    ensures
        all.len() == lookup(cfg, base).unwrap().sub_environments.unwrap().len(),
        one.len() == 1,
        all[i] == one[0],
        all[i].0 == Some(lookup(cfg, base).unwrap().sub_environments.unwrap()[i].0),
{
    let env = lookup(cfg, base).unwrap();
    let subs = env.sub_environments.unwrap();
    let name = subs[i].0;
    let p = base + seq!['-'] + name;
    assert forall|j: int| 0 <= j < base.len() implies base[j] != '-' by {
        if base[j] == '-' {
            assert(base.contains('-'));
        }
    }
    lemma_index_of_char_at(base, '-', base.len() as int);
    assert(base.subrange(0, base.len() as int) =~= base);
    assert forall|j: int| 0 <= j < base.len() implies p[j] != '-' by {
        assert(p[j] == base[j]);
    }
    lemma_index_of_char_at(p, '-', base.len() as int);
    assert(p.subrange(0, base.len() as int) =~= base);
    assert(p.subrange(base.len() + 1int, p.len() as int) =~= name);
    let k = first_index(names(cfg), base);
    lemma_first_index(names(cfg), base);
    assert(cfg[k as int].1 == env);
    assert(names(subs).no_duplicates()) by {
        assert(match (cfg[k as int]).1.sub_environments {
            Some(ss) => names(ss).no_duplicates(),
            None => true,
        });
    }
    assert forall|j: int| 0 <= j < i implies names(subs)[j] != name by {
        assert(names(subs)[j] == subs[j].0);
        assert(names(subs)[i] == name);
    }
    assert(names(subs)[i] == name);
    lemma_first_index_at(names(subs), name, i);
    assert(lookup(subs, name) == Some(subs[i].1));
}

/// A deployment that succeeds deploys every sub-environment, each under
/// its name, exactly when `deploys_all_subs` says so; otherwise it deploys
/// one target.
pub proof fn lemma_all_subs_mode(
    cfg: Seq<(Seq<char>, EnvView)>,
    profile: Seq<char>,
    all_sub: bool,
    ts: Seq<(Option<Seq<char>>, DeployView)>,
)
    requires
        deploy_resolution(cfg, profile, all_sub, Ok(ts)),
    ensures
        deploys_all_subs_spec(cfg, profile, all_sub) ==> forall|i: int|
            0 <= i < ts.len() ==> (#[trigger] ts[i]).0 is Some,
        !deploys_all_subs_spec(cfg, profile, all_sub) ==> ts.len() == 1,
{
}

/// The line printed before deploying a sub-environment of `--all-sub`.
pub fn deploying_sub_message(base: &str, sub: &str) -> (r: String)
    ensures
        r@ == "Deploying sub-environment: "@ + base@ + "-"@ + sub@,
{
    let mut m = "Deploying sub-environment: ".to_string();
    m.append(base);
    m.append("-");
    m.append(sub);
    m
}

/// The profile again from its parts: the environment, then `-` and the
/// sub-environment when there is one.
fn profile_label(base: &String, sub: &Option<String>) -> (r: String)
    ensures
        r@ == base@ + match sub {
            Some(s) => seq!['-'] + s@,
            None => Seq::<char>::empty(),
        },
{
    let mut m = base.clone();
    match sub {
        Some(s) => {
            push_char(&mut m, '-');
            m.append(s.as_str());
        },
        None => {},
    }
    m
}

/// The line printed when `deploy` is done: the deployed profile (or, for
/// `--all-sub`, the environment) and the configuration file.
pub fn deploy_done_message(profile: &str, config_path: &str, all_subs: bool) -> (r: String)
    ensures
        r@ == if all_subs {
            "deploy all sub-environments for profile="@ + split_profile_spec(profile@).0
                + ", config="@ + config_path@
        } else {
            "deploy profile="@ + profile@ + ", config="@ + config_path@
        },
{
    let (base, sub) = split_profile(profile);
    proof {
        lemma_split_profile_rejoins(profile@);
    }
    let mut m = if all_subs {
        let mut m = "deploy all sub-environments for profile=".to_string();
        m.append(base.as_str());
        m
    } else {
        let mut m = "deploy profile=".to_string();
        let label = profile_label(&base, &sub);
        assert(label@ =~= profile@) by {
            if sub is None {
                assert(label@ =~= base@);
            }
        }
        m.append(label.as_str());
        m
    };
    m.append(", config=");
    m.append(config_path);
    assert(m@ =~= if all_subs {
        "deploy all sub-environments for profile="@ + split_profile_spec(profile@).0 + ", config="@
            + config_path@
    } else {
        "deploy profile="@ + profile@ + ", config="@ + config_path@
    });
    m
}

/// The line printed when `rollback` is done.
pub fn rollback_done_message(profile: &str, to: &str) -> (r: String)
    ensures
        r@ == "rollback profile="@ + profile@ + ", to="@ + to@,
{
    let (base, sub) = split_profile(profile);
    proof {
        lemma_split_profile_rejoins(profile@);
    }
    let mut m = "rollback profile=".to_string();
    let label = profile_label(&base, &sub);
    assert(label@ =~= profile@) by {
        if sub is None {
            assert(label@ =~= base@);
        }
    }
    m.append(label.as_str());
    m.append(", to=");
    m.append(to);
    assert(m@ =~= "rollback profile="@ + profile@ + ", to="@ + to@);
    m
}

/// The version `rollback --to` names; the command needs one.
pub fn rollback_version(to: Option<String>) -> (r: Result<String, AppError>)
    ensures
        match to {
            Some(v) => r matches Ok(w) && w@ == v@,
            None => r matches Err(e) && e.message() == "rollback requires --to parameter"@,
        },
{
    match to {
        Some(v) => Ok(v),
        None => Err(AppError::Invalid("rollback requires --to parameter".to_string())),
    }
}

/// Where a rollback switches the `current` link: on this server, under
/// this remote deployment path.
#[derive(Debug)]
pub struct RollbackTarget {
    pub server: ServerConfig,
    pub remote_deploy_path: String,
}

/// What `shipfe rollback --profile <profile>` acts on: the first server of
/// the environment, at the environment's path or at the sub-environment's;
/// nothing when the environment has no server; or the message it fails with.
pub open spec fn rollback_resolution(
    cfg: Seq<(Seq<char>, EnvView)>,
    profile: Seq<char>,
    r: Result<Option<(ServerView, Seq<char>)>, Seq<char>>,
) -> bool {
    let base = split_profile_spec(profile).0;
    let sub = split_profile_spec(profile).1;
    match lookup(cfg, base) {
        None => r == Err::<Option<(ServerView, Seq<char>)>, Seq<char>>(env_not_found_msg(base)),
        Some(env) => match sub {
            Some(name) => match env.sub_environments {
                None => r == Err::<Option<(ServerView, Seq<char>)>, Seq<char>>(no_subs_msg(base)),
                Some(subs) => match lookup(subs, name) {
                    None => r == Err::<Option<(ServerView, Seq<char>)>, Seq<char>>(
                        sub_not_found_msg(name, base),
                    ),
                    Some(se) => r == Ok::<Option<(ServerView, Seq<char>)>, Seq<char>>(
                        if env.servers.len() > 0 {
                            Some((env.servers[0], se.remote_deploy_path))
                        } else {
                            None
                        },
                    ),
                },
            },
            None => r == Ok::<Option<(ServerView, Seq<char>)>, Seq<char>>(
                if env.servers.len() > 0 {
                    Some((env.servers[0], env.servers[0].remote_deploy_path))
                } else {
                    None
                },
            ),
        },
    }
}

pub open spec fn rollback_result_view(r: Result<Option<RollbackTarget>, AppError>) -> Result<
    Option<(ServerView, Seq<char>)>,
    Seq<char>,
> {
    match r {
        Ok(Some(t)) => Ok(Some((t.server@, t.remote_deploy_path@))),
        Ok(None) => Ok(None),
        Err(e) => Err(e.message()),
    }
}

/// The server and path that `shipfe rollback --profile <profile>` acts on.
pub fn resolve_rollback(config: &GlobalConfig, profile: &str) -> (r: Result<
    Option<RollbackTarget>,
    AppError,
>)
    requires
        config_wf(config@),
    ensures
        rollback_resolution(config@, profile@, rollback_result_view(r)),
{
    let (base, sub) = split_profile(profile);
    let envs = &config.environments;
    let k = position_of(envs, &base);
    proof {
        lemma_lookup_at(envs@, config@, base@);
    }
    if k >= envs.len() {
        return Err(env_not_found(&base));
    }
    let env = &envs[k].1;
    assert(lookup(config@, base@) == Some(env@));
    match sub {
        Some(name) => match &env.sub_environments {
            None => Err(no_subs(&base)),
            Some(subs) => {
                let p = position_of(subs, &name);
                proof {
                    lemma_lookup_at(subs@, sub_views(subs@), name@);
                }
                if p >= subs.len() {
                    Err(sub_not_found(&name, &base))
                } else if env.servers.len() > 0 {
                    Ok(
                        Some(
                            RollbackTarget {
                                server: env.servers[0].clone(),
                                remote_deploy_path: subs[p].1.remote_deploy_path.clone(),
                            },
                        ),
                    )
                } else {
                    Ok(None)
                }
            },
        },
        None => {
            if env.servers.len() > 0 {
                Ok(
                    Some(
                        RollbackTarget {
                            server: env.servers[0].clone(),
                            remote_deploy_path: env.servers[0].remote_deploy_path.clone(),
                        },
                    ),
                )
            } else {
                Ok(None)
            }
        },
    }
}

} // verus!
