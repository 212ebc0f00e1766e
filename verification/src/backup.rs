//! Backups: reading a project's `.env`, choosing how to dump its database,
//! and the paths and command lines of a backup run.

use vstd::prelude::*;
use vstd::string::{StringExecFns, StringSliceAdditionalSpecFns};
use vstd::utf8::{
    encode_utf8, encode_utf8_valid_utf8, is_char_boundary, is_char_boundary_iff_not_is_continuation_byte,
    is_char_boundary_start_end_of_seq, valid_utf8, valid_utf8_split,
};
use crate::system::{invokes, Invocation, WWW_ROOT};
use crate::numfmt::{parse_u64, spec_parse_u64};
use crate::text::{
    chars_of, copy_range, index_of, is_ws, lemma_index_of_at, lemma_index_of_none, lemma_trim_end_at,
    lemma_trim_start_at, lines, lines_of, str_eq, string_of, string_views, trim, trim_chars, views, words, words_of,
};

verus! {

/// A value with its surrounding quotes removed: a value of at least two
/// characters that starts and ends with the same quote, `"` or `'`.
pub open spec fn unquote(v: Seq<char>) -> Seq<char> {
    if v.len() >= 2 && ((v[0] == '"' && v.last() == '"') || (v[0] == '\'' && v.last() == '\'')) {
        v.subrange(1, v.len() - 1)
    } else {
        v
    }
}

/// The variables that the lines `ls` of a `.env` file set: blank lines and
/// lines starting with `#` are skipped, others split at their first `=`,
/// key and value trimmed, quotes removed from the value; a later line wins.
pub open spec fn dotenv_map(ls: Seq<Seq<char>>) -> Map<Seq<char>, Seq<char>>
    decreases ls.len(),
{
    if ls.len() == 0 {
        Map::empty()
    } else {
        let m = dotenv_map(ls.drop_last());
        let line = trim(ls.last());
        let i = index_of(line, '=');
        if line.len() == 0 || line[0] == '#' || i < 0 {
            m
        } else {
            m.insert(trim(line.take(i)), unquote(trim(line.skip(i + 1))))
        }
    }
}

/// The variables a `.env` file's text sets.
pub open spec fn spec_dotenv(content: Seq<char>) -> Map<Seq<char>, Seq<char>> {
    dotenv_map(lines(content))
}

/// A one-line `.env` text `key = value` sets `key` to `value`: the spaces
/// on either side of `=` belong to neither the key nor the value. The key
/// is a word without `=` that does not start a comment; the value does not
/// start or end with whitespace, holds no newline and is not quoted.
pub proof fn lemma_dotenv_spaced_assignment(key: Seq<char>, pad_l: Seq<char>, pad_r: Seq<char>, value: Seq<char>)
    requires
        key.len() > 0,
        key[0] != '#',
        forall|k: int| 0 <= k < key.len() ==> !is_ws(#[trigger] key[k]) && key[k] != '=',
        forall|k: int| 0 <= k < pad_l.len() ==> #[trigger] pad_l[k] == ' ',
        forall|k: int| 0 <= k < pad_r.len() ==> #[trigger] pad_r[k] == ' ',
        value.len() > 0,
        !is_ws(value[0]),
        !is_ws(value.last()),
        value[0] != '"',
        value[0] != '\'',
        forall|k: int| 0 <= k < value.len() ==> #[trigger] value[k] != '\n',
    ensures
        spec_dotenv(key + pad_l + "="@ + pad_r + value).contains_key(key),
        spec_dotenv(key + pad_l + "="@ + pad_r + value)[key] == value,
{
    reveal_strlit("=");
    let s = key + pad_l + "="@ + pad_r + value;
    let kl = key.len() as int;
    let pl = pad_l.len() as int;
    let rl = pad_r.len() as int;
    assert(s =~= key + pad_l + seq!['='] + pad_r + value);
    assert forall|k: int| 0 <= k < s.len() implies s[k] != '\n' by {
        if k < kl {
            assert(s[k] == key[k]);
        } else if k < kl + pl {
            assert(s[k] == pad_l[k - kl]);
        } else if k == kl + pl {
            assert(s[k] == '=');
        } else if k < kl + pl + 1 + rl {
            assert(s[k] == pad_r[k - kl - pl - 1]);
        } else {
            assert(s[k] == value[k - kl - pl - 1 - rl]);
        }
    }
    lemma_index_of_none(s, '\n');
    assert(lines(s) == seq![s]);
    assert(seq![s].drop_last() =~= Seq::<Seq<char>>::empty());
    assert(seq![s].last() == s);
    // The line trims to itself.
    assert(s[0] == key[0]);
    lemma_trim_start_at(s, 0);
    assert(s.skip(0) =~= s);
    assert(s.last() == value.last());
    lemma_trim_end_at(s, s.len() as int);
    assert(s.take(s.len() as int) =~= s);
    assert(trim(s) == s);
    // Its first `=` follows the key and its padding.
    assert forall|k: int| 0 <= k < kl + pl implies s[k] != '=' by {
        if k < kl {
            assert(s[k] == key[k]);
        } else {
            assert(s[k] == pad_l[k - kl]);
        }
    }
    lemma_index_of_at(s, '=', kl + pl);
    // The key: trailing spaces dropped.
    let left = s.take(kl + pl);
    assert(left =~= key + pad_l);
    assert(left[0] == key[0]);
    lemma_trim_start_at(left, 0);
    assert(left.skip(0) =~= left);
    assert forall|k: int| kl <= k < left.len() implies is_ws(#[trigger] left[k]) by {
        assert(left[k] == pad_l[k - kl]);
    }
    assert(left[kl - 1] == key[kl - 1]);
    lemma_trim_end_at(left, kl);
    assert(left.take(kl) =~= key);
    // The value: leading spaces dropped, no quotes to remove.
    let right = s.skip(kl + pl + 1);
    assert(right =~= pad_r + value);
    assert forall|k: int| 0 <= k < rl implies is_ws(#[trigger] right[k]) by {
        assert(right[k] == pad_r[k]);
    }
    assert(right[rl] == value[0]);
    lemma_trim_start_at(right, rl);
    assert(right.skip(rl) =~= value);
    lemma_trim_end_at(value, value.len() as int);
    assert(value.take(value.len() as int) =~= value);
    assert(unquote(value) == value);
}

/// The map of a list of assignments, later ones winning.
pub open spec fn assignments_map(es: Seq<(Seq<char>, Seq<char>)>) -> Map<Seq<char>, Seq<char>>
    decreases es.len(),
{
    if es.len() == 0 {
        Map::empty()
    } else {
        assignments_map(es.drop_last()).insert(es.last().0, es.last().1)
    }
}

/// The variables of a `.env` file, in the order they are assigned.
pub struct DotEnv {
    /// Assignments in file order; a later one for the same key wins.
    pub entries: Vec<(String, String)>,
}

/// Assignments with their strings as character sequences.
pub open spec fn pair_views(es: Seq<(String, String)>) -> Seq<(Seq<char>, Seq<char>)> {
    es.map_values(|e: (String, String)| (e.0@, e.1@))
}

impl View for DotEnv {
    type V = Map<Seq<char>, Seq<char>>;

    open spec fn view(&self) -> Map<Seq<char>, Seq<char>> {
        assignments_map(pair_views(self.entries@))
    }
}

/// Looking a key up: the last assignment to it decides.
pub proof fn lemma_assignments_lookup(es: Seq<(Seq<char>, Seq<char>)>, k: Seq<char>, j: int)
    requires
        -1 <= j < es.len(),
        forall|m: int| j < m < es.len() ==> (#[trigger] es[m]).0 != k,
        j >= 0 ==> es[j].0 == k,
    ensures
        j >= 0 ==> assignments_map(es).contains_key(k) && assignments_map(es)[k] == es[j].1,
        j < 0 ==> (forall|m: int| 0 <= m < es.len() ==> (#[trigger] es[m]).0 != k) ==> !assignments_map(es).contains_key(k),
    decreases es.len(),
{
    if es.len() > 0 {
        let d = es.drop_last();
        if j < es.len() - 1 {
            assert forall|m: int| j < m < d.len() implies (#[trigger] d[m]).0 != k by {
                assert(d[m] == es[m]);
            }
            if j >= 0 {
                assert(d[j] == es[j]);
            }
            lemma_assignments_lookup(d, k, j);
            if j < 0 && (forall|m: int| 0 <= m < es.len() ==> (#[trigger] es[m]).0 != k) {
                assert forall|m: int| 0 <= m < d.len() implies (#[trigger] d[m]).0 != k by {
                    assert(d[m] == es[m]);
                }
            }
        }
    }
}

impl DotEnv {
    /// The value of `key`, if some line sets it.
    pub fn get(&self, key: &str) -> (v: Option<String>)
        ensures
            match v {
                Some(s) => self@.contains_key(key@) && self@[key@] == s@,
                None => !self@.contains_key(key@),
            },
    {
        let ghost es = pair_views(self.entries@);
        let mut j: usize = self.entries.len();
        while j > 0
            invariant
                j <= self.entries@.len(),
                es == pair_views(self.entries@),
                forall|m: int| j <= m < es.len() ==> (#[trigger] es[m]).0 != key@,
            decreases j,
        {
            if str_eq(self.entries[j - 1].0.as_str(), key) {
                proof {
                    assert(es[j - 1].0 == key@);
                    lemma_assignments_lookup(es, key@, j - 1);
                }
                return Some(self.entries[j - 1].1.clone());
            }
            assert(es[j - 1].0 != key@);
            j -= 1;
        }
        proof {
            lemma_assignments_lookup(es, key@, -1);
        }
        None
    }

    /// The value of `key`, or `default` when no line sets it.
    pub fn get_or(&self, key: &str, default: &str) -> (v: String)
        ensures
            v@ == (if self@.contains_key(key@) { self@[key@] } else { default@ }),
    {
        match self.get(key) {
            Some(s) => s,
            None => String::from_str(default),
        }
    }
}

/// `v` with its surrounding quotes removed.
fn unquote_chars(v: &Vec<char>) -> (res: Vec<char>)
    ensures
        res@ == unquote(v@),
{
    let n = v.len();
    if n >= 2 && ((v[0] == '"' && v[n - 1] == '"') || (v[0] == '\'' && v[n - 1] == '\'')) {
        copy_range(v, 1, n - 1)
    } else {
        copy_range(v, 0, n)
    }
}

/// Reads the variables of a `.env` file from its text.
pub fn parse_dotenv(content: &str) -> (env: DotEnv)
    ensures
        env@ == spec_dotenv(content@),
{
    let ls = lines_of(&chars_of(content));
    let mut entries: Vec<(String, String)> = Vec::new();
    let mut i: usize = 0;
    while i < ls.len()
        invariant
            i <= ls@.len(),
            assignments_map(pair_views(entries@)) == dotenv_map(views(ls@).take(i as int)),
        decreases ls@.len() - i,
    {
        let ghost t1 = views(ls@).take(i + 1);
        assert(t1.drop_last() =~= views(ls@).take(i as int));
        assert(t1.last() == ls@[i as int]@);
        let line = trim_chars(&ls[i]);
        let mut q: usize = 0;
        while q < line.len() && line[q] != '='
            invariant
                q <= line@.len(),
                forall|k: int| 0 <= k < q ==> line@[k] != '=',
            decreases line@.len() - q,
        {
            q += 1;
        }
        proof {
            if q < line@.len() {
                lemma_index_of_at(line@, '=', q as int);
            } else {
                lemma_index_of_none(line@, '=');
            }
        }
        if line.len() > 0 && line[0] != '#' && q < line.len() {
            let key = trim_chars(&copy_range(&line, 0, q));
            let val = unquote_chars(&trim_chars(&copy_range(&line, q + 1, line.len())));
            let ghost prev = pair_views(entries@);
            let k = string_of(key.as_slice());
            let v = string_of(val.as_slice());
            entries.push((k, v));
            proof {
                assert(pair_views(entries@) =~= prev.push((key@, val@)));
                assert(prev.push((key@, val@)).drop_last() =~= prev);
                assert(line@.take(q as int) =~= line@.subrange(0, q as int));
                assert(line@.skip(q + 1) =~= line@.subrange(q + 1, line@.len() as int));
                assert(dotenv_map(t1) == dotenv_map(views(ls@).take(i as int)).insert(key@, val@));
            }
        } else {
            assert(dotenv_map(t1) == dotenv_map(views(ls@).take(i as int)));
        }
        i += 1;
    }
    assert(views(ls@).take(ls@.len() as int) =~= views(ls@));
    DotEnv { entries }
}

/// The `.env` file of the project in `project_dir`, read for its database
/// settings.
pub fn dotenv_path(project_dir: &str) -> (path: String)
    ensures
        path@ == project_dir@ + "/.env"@,
{
    String::from_str(project_dir).concat("/.env")
}

/// Directory under which each project's backups are kept.
pub const BACKUP_ROOT: &'static str = "/var/backups/sitectl";

/// The value of `key` in `env`, or `default` when it is not set.
pub open spec fn env_value(env: Map<Seq<char>, Seq<char>>, key: Seq<char>, default: Seq<char>) -> Seq<char> {
    if env.contains_key(key) { env[key] } else { default }
}

/// A connection type that is dumped with `mysqldump`.
pub open spec fn is_mysql_connection(conn: Seq<char>) -> bool {
    conn == "mysql"@ || conn == "mariadb"@
}

/// Where a SQLite database lies: `DB_DATABASE` itself when absolute, else
/// relative to the project directory.
pub open spec fn spec_sqlite_path(database: Seq<char>, project_dir: Seq<char>) -> Seq<char> {
    if database.len() > 0 && database[0] == '/' { database } else { project_dir + "/"@ + database }
}

/// How a project's database is backed up.
pub enum DbDump {
    /// Dump a MySQL or MariaDB database with `mysqldump`.
    MySql { host: String, port: String, database: String, username: String, password: String },
    /// MySQL or MariaDB, but no database name is set.
    MySqlNoDatabase,
    /// Copy a SQLite file; `database` is the setting it was found from.
    Sqlite { path: String, database: String },
    /// The project has no database.
    NoDatabase,
    /// A connection type that is not backed up.
    Unsupported { connection: String },
}

/// `plan` is how the database of a project in `project_dir` with settings
/// `env` is backed up: by `DB_CONNECTION` (default `none`); for MySQL the
/// defaults are host `127.0.0.1`, port `3306`, user `root` and an empty
/// password.
pub open spec fn is_db_dump_of(plan: DbDump, env: Map<Seq<char>, Seq<char>>, project_dir: Seq<char>) -> bool {
    let conn = env_value(env, "DB_CONNECTION"@, "none"@);
    let database = env_value(env, "DB_DATABASE"@, ""@);
    match plan {
        DbDump::MySql { host, port, database: db, username, password } => {
            &&& is_mysql_connection(conn)
            &&& database.len() > 0
            &&& db@ == database
            &&& host@ == env_value(env, "DB_HOST"@, "127.0.0.1"@)
            &&& port@ == env_value(env, "DB_PORT"@, "3306"@)
            &&& username@ == env_value(env, "DB_USERNAME"@, "root"@)
            &&& password@ == env_value(env, "DB_PASSWORD"@, ""@)
        },
        DbDump::MySqlNoDatabase => is_mysql_connection(conn) && database.len() == 0,
        DbDump::Sqlite { path, database: db } => {
            &&& conn == "sqlite"@
            &&& db@ == database
            &&& path@ == spec_sqlite_path(database, project_dir)
        },
        DbDump::NoDatabase => conn == "none"@,
        DbDump::Unsupported { connection } => {
            &&& !is_mysql_connection(conn)
            &&& conn != "sqlite"@
            &&& conn != "none"@
            &&& connection@ == conn
        },
    }
}

/// Decides how to back up the database of the project in `project_dir`
/// from its `.env` settings (an empty `DotEnv` when it has none).
pub fn plan_db_dump(env: &DotEnv, project_dir: &str) -> (plan: DbDump)
    ensures
        is_db_dump_of(plan, env@, project_dir@),
{
    let conn = env.get_or("DB_CONNECTION", "none");
    let database = env.get_or("DB_DATABASE", "");
    proof {
        reveal_strlit("mysql");
        reveal_strlit("mariadb");
        reveal_strlit("sqlite");
        reveal_strlit("none");
    }
    if str_eq(conn.as_str(), "mysql") || str_eq(conn.as_str(), "mariadb") {
        if database.as_str().is_empty() {
            DbDump::MySqlNoDatabase
        } else {
            DbDump::MySql {
                host: env.get_or("DB_HOST", "127.0.0.1"),
                port: env.get_or("DB_PORT", "3306"),
                database,
                username: env.get_or("DB_USERNAME", "root"),
                password: env.get_or("DB_PASSWORD", ""),
            }
        }
    } else if str_eq(conn.as_str(), "sqlite") {
        let cs = chars_of(database.as_str());
        let path = if cs.len() > 0 && cs[0] == '/' {
            database.clone()
        } else {
            String::from_str(project_dir).concat("/").concat(database.as_str())
        };
        DbDump::Sqlite { path, database }
    } else if str_eq(conn.as_str(), "none") {
        DbDump::NoDatabase
    } else {
        DbDump::Unsupported { connection: conn }
    }
}

/// The option file that hands the MySQL credentials to `mysqldump`, so
/// that the password never appears on a command line.
pub open spec fn spec_mysql_credentials(host: Seq<char>, port: Seq<char>, username: Seq<char>, password: Seq<char>) -> Seq<char> {
    "[mysqldump]\nhost="@ + host + "\nport="@ + port + "\nuser="@ + username + "\npassword="@ + password + "\n"@
}

/// The text of the `mysqldump` option file for a connection.
pub fn mysql_credentials(host: &str, port: &str, username: &str, password: &str) -> (text: String)
    ensures
        text@ == spec_mysql_credentials(host@, port@, username@, password@),
{
    String::from_str("[mysqldump]\nhost=").concat(host).concat("\nport=").concat(port).concat("\nuser=").concat(
        username,
    ).concat("\npassword=").concat(password).concat("\n")
}

/// The arguments of `mysqldump`: credentials from the option file, one
/// consistent snapshot, rows streamed, then the database.
pub fn mysqldump_args(creds_path: &str, database: &str) -> (args: Vec<String>)
    ensures
        string_views(args@) == seq![
            "--defaults-extra-file="@ + creds_path@,
            "--single-transaction"@,
            "--quick"@,
            database@,
        ],
{
    let mut args: Vec<String> = Vec::new();
    args.push(String::from_str("--defaults-extra-file=").concat(creds_path));
    args.push(String::from_str("--single-transaction"));
    args.push(String::from_str("--quick"));
    args.push(String::from_str(database));
    assert(string_views(args@) =~= seq![
        "--defaults-extra-file="@ + creds_path@,
        "--single-transaction"@,
        "--quick"@,
        database@,
    ]);
    args
}

/// The paths of one backup run of `domain` at timestamp `ts`.
pub struct BackupLayout {
    /// `<domain>-<ts>`, the name of the archive and of its top directory.
    pub backup_name: String,
    /// `/var/backups/sitectl/<domain>`
    pub backup_dir: String,
    /// `/tmp/sitectl-backup-<ts>`, where the parts are gathered.
    pub stage_dir: String,
    /// `<stage_dir>/<backup_name>`
    pub stage_inner: String,
    /// `<stage_dir>/.my.cnf`, the `mysqldump` option file.
    pub creds_path: String,
    /// `<stage_inner>/db.sql`
    pub dump_path: String,
    /// `<stage_inner>/db.sqlite`
    pub sqlite_copy: String,
    /// `<stage_inner>/files.tar.gz`
    pub files_archive: String,
    /// `<backup_dir>/<backup_name>.tar.gz`
    pub final_archive: String,
}

/// `layout` holds the paths of a backup of `domain` taken at `ts`.
pub open spec fn is_layout_of(layout: BackupLayout, domain: Seq<char>, ts: Seq<char>) -> bool {
    let name = domain + "-"@ + ts;
    let backup_dir = "/var/backups/sitectl/"@ + domain;
    let stage_dir = "/tmp/sitectl-backup-"@ + ts;
    let stage_inner = stage_dir + "/"@ + name;
    &&& layout.backup_name@ == name
    &&& layout.backup_dir@ == backup_dir
    &&& layout.stage_dir@ == stage_dir
    &&& layout.stage_inner@ == stage_inner
    &&& layout.creds_path@ == stage_dir + "/.my.cnf"@
    &&& layout.dump_path@ == stage_inner + "/db.sql"@
    &&& layout.sqlite_copy@ == stage_inner + "/db.sqlite"@
    &&& layout.files_archive@ == stage_inner + "/files.tar.gz"@
    &&& layout.final_archive@ == backup_dir + "/"@ + name + ".tar.gz"@
}

/// The paths of a backup of `domain` taken at timestamp `ts`.
pub fn backup_layout(domain: &str, ts: &str) -> (layout: BackupLayout)
    ensures
        is_layout_of(layout, domain@, ts@),
{
    let backup_name = String::from_str(domain).concat("-").concat(ts);
    let backup_dir = String::from_str(BACKUP_ROOT).concat("/").concat(domain);
    let stage_dir = String::from_str("/tmp/sitectl-backup-").concat(ts);
    let stage_inner = stage_dir.clone().concat("/").concat(backup_name.as_str());
    let creds_path = stage_dir.clone().concat("/.my.cnf");
    let dump_path = stage_inner.clone().concat("/db.sql");
    let sqlite_copy = stage_inner.clone().concat("/db.sqlite");
    let files_archive = stage_inner.clone().concat("/files.tar.gz");
    let final_archive = backup_dir.clone().concat("/").concat(backup_name.as_str()).concat(".tar.gz");
    proof {
        reveal_strlit("/var/backups/sitectl");
        reveal_strlit("/var/backups/sitectl/");
        reveal_strlit("/");
        assert("/var/backups/sitectl"@ + "/"@ =~= "/var/backups/sitectl/"@);
        assert(backup_dir@ =~= "/var/backups/sitectl/"@ + domain@);
        assert(final_archive@ =~= backup_dir@ + "/"@ + backup_name@ + ".tar.gz"@);
        assert(stage_inner@ =~= stage_dir@ + "/"@ + backup_name@);
    }
    BackupLayout {
        backup_name,
        backup_dir,
        stage_dir,
        stage_inner,
        creds_path,
        dump_path,
        sqlite_copy,
        files_archive,
        final_archive,
    }
}

/// The arguments of the `tar` run that archives a project's files: from
/// `/var/www`, leaving out dependencies, VCS data and logs.
pub open spec fn spec_files_tar_args(files_archive: Seq<char>, domain: Seq<char>) -> Seq<Seq<char>> {
    seq![
        "-czf"@,
        files_archive,
        "-C"@,
        "/var/www"@,
        "--exclude="@ + domain + "/vendor"@,
        "--exclude="@ + domain + "/node_modules"@,
        "--exclude="@ + domain + "/.git"@,
        "--exclude="@ + domain + "/storage/logs"@,
        domain,
    ]
}

/// The `tar` command that archives a project's files into `files_archive`;
/// it shares the terminal.
pub fn files_tar(files_archive: &str, domain: &str) -> (cmd: Invocation)
    ensures
        invokes(cmd, "tar"@, spec_files_tar_args(files_archive@, domain@), false),
{
    let mut args: Vec<String> = Vec::new();
    args.push(String::from_str("-czf"));
    args.push(String::from_str(files_archive));
    args.push(String::from_str("-C"));
    args.push(String::from_str(WWW_ROOT));
    args.push(String::from_str("--exclude=").concat(domain).concat("/vendor"));
    args.push(String::from_str("--exclude=").concat(domain).concat("/node_modules"));
    args.push(String::from_str("--exclude=").concat(domain).concat("/.git"));
    args.push(String::from_str("--exclude=").concat(domain).concat("/storage/logs"));
    args.push(String::from_str(domain));
    assert(string_views(args@) =~= spec_files_tar_args(files_archive@, domain@));
    Invocation { program: String::from_str("tar"), args, capture: false }
}

/// The `tar` command that bundles the staged parts into the final archive;
/// its output is collected.
pub fn bundle_tar(final_archive: &str, stage_dir: &str, backup_name: &str) -> (cmd: Invocation)
    ensures
        invokes(cmd, "tar"@, seq!["-czf"@, final_archive@, "-C"@, stage_dir@, backup_name@], true),
{
    let mut args: Vec<String> = Vec::new();
    args.push(String::from_str("-czf"));
    args.push(String::from_str(final_archive));
    args.push(String::from_str("-C"));
    args.push(String::from_str(stage_dir));
    args.push(String::from_str(backup_name));
    assert(string_views(args@) =~= seq!["-czf"@, final_archive@, "-C"@, stage_dir@, backup_name@]);
    Invocation { program: String::from_str("tar"), args, capture: true }
}

/// The command that prints the timestamp naming a backup
/// (`YYYYMMDD-HHMMSS`).
pub fn timestamp_command() -> (cmd: Invocation)
    ensures
        invokes(cmd, "date"@, seq!["+%Y%m%d-%H%M%S"@], true),
{
    let mut args: Vec<String> = Vec::new();
    args.push(String::from_str("+%Y%m%d-%H%M%S"));
    assert(string_views(args@) =~= seq!["+%Y%m%d-%H%M%S"@]);
    Invocation { program: String::from_str("date"), args, capture: true }
}

/// The command that measures a path in bytes.
pub fn du_bytes(path: &str) -> (cmd: Invocation)
    ensures
        invokes(cmd, "du"@, seq!["-sb"@, path@], true),
{
    let mut args: Vec<String> = Vec::new();
    args.push(String::from_str("-sb"));
    args.push(String::from_str(path));
    assert(string_views(args@) =~= seq!["-sb"@, path@]);
    Invocation { program: String::from_str("du"), args, capture: true }
}

/// How a dumped database is described in the summary.
pub open spec fn spec_db_label(plan: DbDump) -> Seq<char> {
    match plan {
        DbDump::MySql { database, .. } => "mysql:"@ + database@,
        DbDump::Sqlite { database, .. } => "sqlite:"@ + database@,
        _ => ""@,
    }
}

/// The summary's name for a database that was dumped with `plan`; empty
/// when nothing is dumped.
pub fn db_label(plan: &DbDump) -> (label: String)
    ensures
        label@ == spec_db_label(*plan),
{
    match plan {
        DbDump::MySql { database, .. } => String::from_str("mysql:").concat(database.as_str()),
        DbDump::Sqlite { database, .. } => String::from_str("sqlite:").concat(database.as_str()),
        _ => {
            proof {
                reveal_strlit("");
            }
            String::new()
        },
    }
}

/// The size in bytes that `du -sb` reported: the number at the start of its
/// output; 0 when it failed or printed no number.
pub open spec fn spec_du_bytes(du_output: Option<Seq<char>>) -> u64 {
    match du_output {
        Some(out) => {
            let ws = words(out);
            if ws.len() > 0 && spec_parse_u64(ws[0]) is Some {
                spec_parse_u64(ws[0]).unwrap()
            } else {
                0
            }
        },
        None => 0,
    }
}

/// The size of a path in bytes, from the output of `du -sb <path>`
/// (`None` when `du` failed).
pub fn path_size_bytes(du_output: Option<&str>) -> (bytes: u64)
    ensures
        bytes == spec_du_bytes(match du_output { Some(o) => Some(o@), None => None }),
{
    match du_output {
        None => 0,
        Some(out) => {
            let ws = words_of(&chars_of(out));
            if ws.len() == 0 {
                0
            } else {
                let w = string_of(ws[0].as_slice());
                match parse_u64(w.as_str()) {
                    Some(n) => n,
                    None => 0,
                }
            }
        },
    }
}

/// UTF-8 encoding distributes over concatenation.
pub proof fn lemma_encode_utf8_concat(a: Seq<char>, b: Seq<char>)
    ensures
        encode_utf8(a + b) == encode_utf8(a) + encode_utf8(b),
    decreases a.len(),
{
    if a.len() > 0 {
        assert((a + b).drop_first() =~= a.drop_first() + b);
        lemma_encode_utf8_concat(a.drop_first(), b);
        assert(encode_utf8(a + b) =~= encode_utf8(a) + encode_utf8(b));
    } else {
        assert(a + b =~= b);
        assert(encode_utf8(a) =~= Seq::<u8>::empty());
        assert(encode_utf8(a) + encode_utf8(b) =~= encode_utf8(b));
    }
}

/// Cutting valid UTF-8 at boundary `i` keeps every later boundary `j`.
proof fn lemma_boundary_in_suffix(b: Seq<u8>, i: int, j: int)
    requires
        valid_utf8(b),
        0 <= i <= j <= b.len(),
        is_char_boundary(b, i),
        is_char_boundary(b, j),
    ensures
        valid_utf8(b.subrange(i, b.len() as int)),
        is_char_boundary(b.subrange(i, b.len() as int), j - i),
{
    valid_utf8_split(b, i);
    let t = b.subrange(i, b.len() as int);
    if j < b.len() {
        is_char_boundary_iff_not_is_continuation_byte(b, j);
        is_char_boundary_iff_not_is_continuation_byte(t, j - i);
        assert(t[j - i] == b[j]);
    } else {
        is_char_boundary_start_end_of_seq(t);
    }
}

/// Where `date +%Y%m%d-%H%M%S` output is cut for display: it is 15 bytes
/// long, and bytes 4, 6, 8, 9, 11 and 13 each start a character.
pub open spec fn timestamp_cuts(b: Seq<u8>) -> bool {
    &&& b.len() == 15
    &&& is_char_boundary(b, 4)
    &&& is_char_boundary(b, 6)
    &&& is_char_boundary(b, 8)
    &&& is_char_boundary(b, 9)
    &&& is_char_boundary(b, 11)
    &&& is_char_boundary(b, 13)
}

/// The UTF-8 bytes of a timestamp as shown: `20260626-102147` becomes
/// `2026-06-26 10:21:47` (byte 8 is dropped, separators put in); a
/// timestamp that is not 15 bytes long is shown as it is.
pub open spec fn spec_display_timestamp(b: Seq<u8>) -> Seq<u8> {
    if b.len() == 15 {
        b.subrange(0, 4) + encode_utf8("-"@) + b.subrange(4, 6) + encode_utf8("-"@) + b.subrange(6, 8)
            + encode_utf8(" "@) + b.subrange(9, 11) + encode_utf8(":"@) + b.subrange(11, 13)
            + encode_utf8(":"@) + b.subrange(13, 15)
    } else {
        b
    }
}

/// A backup timestamp in readable form. The bytes at which a 15-byte
/// timestamp is cut must start characters.
pub fn display_timestamp(ts: &str) -> (shown: String)
    requires
        ts.spec_bytes().len() == 15 ==> timestamp_cuts(ts.spec_bytes()),
    ensures
        encode_utf8(shown@) == spec_display_timestamp(ts.spec_bytes()),
{
    let ghost b = ts.spec_bytes();
    let raw = ts.as_bytes();
    if raw.len() != 15 {
        return String::from_str(ts);
    }
    proof {
        encode_utf8_valid_utf8(ts@);
        is_char_boundary_start_end_of_seq(b);
        lemma_boundary_in_suffix(b, 4, 6);
    }
    let (p1, r1) = ts.split_at(4);
    assert(r1.spec_bytes() =~= b.subrange(4, 15));
    proof {
        lemma_boundary_in_suffix(b, 4, 8);
        lemma_boundary_in_suffix(b.subrange(4, 15), 2, 4);
        assert(b.subrange(4, 15).subrange(2, 11) =~= b.subrange(6, 15));
    }
    let (p2, r2) = r1.split_at(2);
    assert(r2.spec_bytes() =~= b.subrange(6, 15));
    proof {
        lemma_boundary_in_suffix(b, 6, 8);
        lemma_boundary_in_suffix(b, 6, 9);
        lemma_boundary_in_suffix(b, 6, 15);
        lemma_boundary_in_suffix(b.subrange(6, 15), 2, 3);
        assert(b.subrange(6, 15).subrange(2, 9) =~= b.subrange(8, 15));
    }
    let (p3, r3) = r2.split_at(2);
    assert(r3.spec_bytes() =~= b.subrange(8, 15));
    let (_p4, r4) = r3.split_at(1);
    assert(r4.spec_bytes() =~= b.subrange(9, 15));
    proof {
        lemma_boundary_in_suffix(b, 9, 11);
        lemma_boundary_in_suffix(b, 9, 13);
        lemma_boundary_in_suffix(b.subrange(9, 15), 2, 4);
        assert(b.subrange(9, 15).subrange(2, 6) =~= b.subrange(11, 15));
    }
    let (p5, r5) = r4.split_at(2);
    assert(r5.spec_bytes() =~= b.subrange(11, 15));
    let (p6, p7) = r5.split_at(2);
    assert(p7.spec_bytes() =~= b.subrange(13, 15));
    let shown = String::from_str(p1).concat("-").concat(p2).concat("-").concat(p3).concat(" ").concat(p5).concat(
        ":",
    ).concat(p6).concat(":").concat(p7);
    proof {
        let v = shown@;
        assert(v == p1@ + "-"@ + p2@ + "-"@ + p3@ + " "@ + p5@ + ":"@ + p6@ + ":"@ + p7@);
        lemma_encode_utf8_concat(p1@ + "-"@ + p2@ + "-"@ + p3@ + " "@ + p5@ + ":"@ + p6@ + ":"@, p7@);
        lemma_encode_utf8_concat(p1@ + "-"@ + p2@ + "-"@ + p3@ + " "@ + p5@ + ":"@ + p6@, ":"@);
        lemma_encode_utf8_concat(p1@ + "-"@ + p2@ + "-"@ + p3@ + " "@ + p5@ + ":"@, p6@);
        lemma_encode_utf8_concat(p1@ + "-"@ + p2@ + "-"@ + p3@ + " "@ + p5@, ":"@);
        lemma_encode_utf8_concat(p1@ + "-"@ + p2@ + "-"@ + p3@ + " "@, p5@);
        lemma_encode_utf8_concat(p1@ + "-"@ + p2@ + "-"@ + p3@, " "@);
        lemma_encode_utf8_concat(p1@ + "-"@ + p2@ + "-"@, p3@);
        lemma_encode_utf8_concat(p1@ + "-"@ + p2@, "-"@);
        lemma_encode_utf8_concat(p1@ + "-"@, p2@);
        lemma_encode_utf8_concat(p1@, "-"@);
    }
    shown
}

} // verus!
