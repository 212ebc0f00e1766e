//! Naming rules for per-site system users, PHP-FPM pools and the service
//! reload commands.

use vstd::prelude::*;
use vstd::string::StringExecFns;
use crate::text::{chars_of, string_of, string_views};
use crate::order::{is_sorted, sort_strings};
use crate::numfmt::{decimal, digits, octal};

verus! {

/// Root directory under which every project lives.
pub const WWW_ROOT: &'static str = "/var/www";

/// Longest system user name that the tool produces.
pub const MAX_USER_LEN: usize = 32;

/// What std's `str::to_lowercase` returns for a string (Unicode lowercase
/// mapping, including its context-dependent rules).
pub uninterp spec fn lowercase_of(s: Seq<char>) -> Seq<char>;

/// Whether std's `char::is_alphanumeric` holds of a character (Unicode
/// Alphabetic or Numeric property).
pub uninterp spec fn is_alphanumeric_char(c: char) -> bool;

/// An ASCII character.
pub open spec fn is_ascii_char(c: char) -> bool {
    (c as u32) < 128
}

/// Every character of `s` is ASCII.
pub open spec fn all_ascii(s: Seq<char>) -> bool {
    forall|i: int| 0 <= i < s.len() ==> is_ascii_char(#[trigger] s[i])
}

/// An ASCII letter or digit.
pub open spec fn is_ascii_alnum(c: char) -> bool {
    ('a' <= c && c <= 'z') || ('A' <= c && c <= 'Z') || ('0' <= c && c <= '9')
}

/// The ASCII lowercase of a character: `A` to `Z` become `a` to `z`, every
/// other character stays.
pub open spec fn ascii_lower(c: char) -> char {
    if 'A' <= c && c <= 'Z' { ((c as u32) + 32) as char } else { c }
}

/// std `str::to_lowercase`: the Unicode lowercase form of `s`. Its result is
/// named here (`lowercase_of`); the Unicode tables are not restated. Stated:
/// on an all-ASCII string it is the ASCII lowercase, character by character
/// (the only ASCII characters with a different lowercase form are `A` to
/// `Z`).
#[verifier::external_body]
pub(crate) fn to_lowercase(s: &str) -> (res: String)
    ensures
        res@ == lowercase_of(s@),
        all_ascii(s@) ==> res@ == s@.map_values(|c: char| ascii_lower(c)),
{
    s.to_lowercase()
}

/// std `char::is_alphanumeric`; its result is named here
/// (`is_alphanumeric_char`). Stated: on an ASCII character it holds exactly
/// of the ASCII letters and digits (the only ASCII characters with the
/// Alphabetic or Numeric property).
#[verifier::external_body]
fn char_is_alphanumeric(c: char) -> (res: bool)
    ensures
        res == is_alphanumeric_char(c),
        is_ascii_char(c) ==> (res <==> is_ascii_alnum(c)),
{
    c.is_alphanumeric()
}

/// One character of a user slug: alphanumerics stay, everything else is `_`.
pub open spec fn slug_char(c: char) -> char {
    if is_alphanumeric_char(c) { c } else { '_' }
}

/// A user name from characters flagged alphanumeric or not: the flagged
/// ones kept, the others `_`, cut to at most 32 characters.
pub open spec fn spec_slug_of(flagged: Seq<(char, bool)>) -> Seq<char> {
    let slug = flagged.map_values(|p: (char, bool)| if p.1 { p.0 } else { '_' });
    if slug.len() <= MAX_USER_LEN { slug } else { slug.take(MAX_USER_LEN as int) }
}

/// The characters of `s`, each with whether `char::is_alphanumeric` holds.
pub open spec fn alnum_flags(s: Seq<char>) -> Seq<(char, bool)> {
    s.map_values(|c: char| (c, is_alphanumeric_char(c)))
}

/// A lowercased domain with every non-alphanumeric character replaced by
/// `_`, cut to at most 32 characters.
pub open spec fn spec_user_from_lowercase(lower: Seq<char>) -> Seq<char> {
    spec_slug_of(alnum_flags(lower))
}

/// The system user name for a domain: its lowercase form made into a slug.
pub open spec fn spec_domain_to_user(domain: Seq<char>) -> Seq<char> {
    spec_user_from_lowercase(lowercase_of(domain))
}

/// The user name of an ASCII domain: ASCII lowercase, ASCII letters and
/// digits kept, everything else `_`, cut to at most 32 characters.
pub open spec fn ascii_user(domain: Seq<char>) -> Seq<char> {
    spec_slug_of(domain.map_values(|c: char| (ascii_lower(c), is_ascii_alnum(ascii_lower(c)))))
}

/// The shape of the user names this tool makes: at most 32 characters,
/// each `_` or alphanumeric. (`useradd` by default also refuses some such
/// names, for example one starting with a digit; that is not part of it.)
pub open spec fn is_user_name_shape(name: Seq<char>) -> bool {
    &&& name.len() <= MAX_USER_LEN
    &&& forall|k: int| 0 <= k < name.len() ==> #[trigger] name[k] == '_' || is_alphanumeric_char(name[k])
}

/// Every lowercased domain gives a name of that shape.
pub proof fn lemma_user_name_shape(lower: Seq<char>)
    ensures
        is_user_name_shape(spec_user_from_lowercase(lower)),
{
    let fl = alnum_flags(lower);
    let slug = fl.map_values(|p: (char, bool)| if p.1 { p.0 } else { '_' });
    let user = spec_user_from_lowercase(lower);
    assert forall|k: int| 0 <= k < user.len() implies #[trigger] user[k] == '_' || is_alphanumeric_char(user[k]) by {
        assert(user[k] == slug[k]);
        assert(fl[k] == (lower[k], is_alphanumeric_char(lower[k])));
    }
}

/// On an ASCII domain, making a user name of the user name gives it back:
/// the name is ASCII, already lowercase, and only letters, digits and `_`.
/// Since `domain_to_user` gives `ascii_user` of any ASCII input, calling it
/// on its own result gives that result again.
pub proof fn lemma_ascii_user_idempotent(domain: Seq<char>)
    requires
        all_ascii(domain),
    ensures
        all_ascii(ascii_user(domain)),
        ascii_user(ascii_user(domain)) == ascii_user(domain),
{
    let f = |c: char| (ascii_lower(c), is_ascii_alnum(ascii_lower(c)));
    let g = |p: (char, bool)| if p.1 { p.0 } else { '_' };
    let u = ascii_user(domain);
    let slug = domain.map_values(f).map_values(g);
    assert forall|k: int| 0 <= k < slug.len() implies
        #[trigger] slug[k] == '_' || (is_ascii_alnum(slug[k]) && ascii_lower(slug[k]) == slug[k]) by {
        let c = domain[k];
        assert(is_ascii_char(c));
        if 'A' <= c && c <= 'Z' {
            assert((((c as u32) + 32) as char) as u32 == (c as u32) + 32);
        }
    }
    assert forall|k: int| 0 <= k < u.len() implies #[trigger] u[k] == slug[k] by {}
    assert forall|k: int| 0 <= k < u.len() implies is_ascii_char(#[trigger] u[k]) by {
        assert(u[k] == slug[k]);
    }
    let again = u.map_values(f).map_values(g);
    assert(again =~= u) by {
        assert forall|k: int| 0 <= k < u.len() implies #[trigger] again[k] == u[k] by {
            assert(u[k] == slug[k]);
            if u[k] != '_' {
                assert(is_ascii_alnum(u[k]) && ascii_lower(u[k]) == u[k]);
            } else {
                assert(ascii_lower('_') == '_');
                assert(!is_ascii_alnum('_'));
            }
        }
    }
    assert(u.len() <= MAX_USER_LEN);
    assert(ascii_user(u) =~= again);
}

/// A user name from flagged characters: flagged ones kept, others `_`, at
/// most 32 characters.
pub fn slug_of(flagged: &Vec<(char, bool)>) -> (user: String)
    ensures
        user@ == spec_slug_of(flagged@),
{
    let ghost slug = flagged@.map_values(|p: (char, bool)| if p.1 { p.0 } else { '_' });
    let n: usize = if flagged.len() <= MAX_USER_LEN { flagged.len() } else { MAX_USER_LEN };
    let mut out: Vec<char> = Vec::new();
    let mut i: usize = 0;
    while i < n
        invariant
            n <= flagged@.len(),
            slug == flagged@.map_values(|p: (char, bool)| if p.1 { p.0 } else { '_' }),
            i <= n,
            out@ == slug.take(i as int),
        decreases n - i,
    {
        let (c, alnum) = flagged[i];
        out.push(if alnum { c } else { '_' });
        i += 1;
        assert(out@ =~= slug.take(i as int));
    }
    assert(slug.len() <= MAX_USER_LEN ==> slug.take(n as int) =~= slug);
    string_of(out.as_slice())
}

/// The user name for an already lowercased domain: alphanumerics kept,
/// everything else `_`, at most 32 characters.
pub fn user_from_lowercase(lower: &str) -> (user: String)
    ensures
        user@ == spec_user_from_lowercase(lower@),
        is_user_name_shape(user@),
        all_ascii(lower@) ==> user@ == spec_slug_of(lower@.map_values(|c: char| (c, is_ascii_alnum(c)))),
{
    proof {
        lemma_user_name_shape(lower@);
    }
    let cs = chars_of(lower);
    let mut flagged: Vec<(char, bool)> = Vec::new();
    let mut i: usize = 0;
    while i < cs.len()
        invariant
            cs@ == lower@,
            i <= cs@.len(),
            flagged@ == alnum_flags(lower@).take(i as int),
            forall|k: int| 0 <= k < i && is_ascii_char(#[trigger] lower@[k])
                ==> (is_alphanumeric_char(lower@[k]) <==> is_ascii_alnum(lower@[k])),
        decreases cs@.len() - i,
    {
        let c = cs[i];
        let a = char_is_alphanumeric(c);
        flagged.push((c, a));
        i += 1;
        assert(flagged@ =~= alnum_flags(lower@).take(i as int));
    }
    assert(alnum_flags(lower@).take(cs@.len() as int) =~= alnum_flags(lower@));
    proof {
        if all_ascii(lower@) {
            assert(alnum_flags(lower@) =~= lower@.map_values(|c: char| (c, is_ascii_alnum(c))));
        }
    }
    slug_of(&flagged)
}

/// Convert a domain name to a valid Linux username.
/// e.g. "events.anikeen.com" -> "events_anikeen_com"
pub fn domain_to_user(domain: &str) -> (user: String)
    ensures
        user@ == spec_domain_to_user(domain@),
        is_user_name_shape(user@),
        all_ascii(domain@) ==> user@ == ascii_user(domain@),
{
    let lower = to_lowercase(domain);
    proof {
        if all_ascii(domain@) {
            let lw = lower@;
            assert forall|i: int| 0 <= i < lw.len() implies is_ascii_char(#[trigger] lw[i]) by {
                let c = domain@[i];
                assert(is_ascii_char(c));
                if 'A' <= c && c <= 'Z' {
                    assert((((c as u32) + 32) as char) as u32 == (c as u32) + 32);
                }
            }
            assert(lw.map_values(|c: char| (c, is_ascii_alnum(c)))
                =~= domain@.map_values(|c: char| (ascii_lower(c), is_ascii_alnum(ascii_lower(c)))));
        }
    }
    user_from_lowercase(lower.as_str())
}

/// Pool configuration file of a site for a PHP version, as a path string.
pub open spec fn spec_fpm_pool_path(domain: Seq<char>, php: Seq<char>) -> Seq<char> {
    "/etc/php/"@ + php + "/fpm/pool.d/"@ + domain + ".conf"@
}

/// `/etc/php/<php>/fpm/pool.d/<domain>.conf`
pub fn fpm_pool_path(domain: &str, php: &str) -> (path: String)
    ensures
        path@ == spec_fpm_pool_path(domain@, php@),
{
    String::from_str("/etc/php/").concat(php).concat("/fpm/pool.d/").concat(domain).concat(".conf")
}

/// Per-site PHP-FPM socket path.
pub open spec fn spec_fpm_socket_path(domain: Seq<char>, php: Seq<char>) -> Seq<char> {
    "/run/php/php"@ + php + "-fpm-"@ + spec_domain_to_user(domain) + ".sock"@
}

/// `/run/php/php<php>-fpm-<user>.sock`, the socket of the site's own pool.
pub fn fpm_socket_path(domain: &str, php: &str) -> (path: String)
    ensures
        path@ == spec_fpm_socket_path(domain@, php@),
{
    let user = domain_to_user(domain);
    String::from_str("/run/php/php").concat(php).concat("-fpm-").concat(user.as_str()).concat(".sock")
}

/// A program to run with its arguments. With `capture` set its output is
/// collected and a failure reports its stderr; otherwise it shares the
/// terminal and only its exit status counts.
pub struct Invocation {
    /// The program.
    pub program: String,
    /// Its arguments.
    pub args: Vec<String>,
    /// Collect its output instead of showing it.
    pub capture: bool,
}

/// `inv` runs `program` with `args`, capturing output or not.
pub open spec fn invokes(inv: Invocation, program: Seq<char>, args: Seq<Seq<char>>, capture: bool) -> bool {
    inv.program@ == program && string_views(inv.args@) == args && inv.capture == capture
}

/// A vector of strings from literals.
pub fn strs(parts: &[&str]) -> (v: Vec<String>)
    ensures
        string_views(v@) == parts@.map_values(|p: &str| p@),
{
    let mut v: Vec<String> = Vec::new();
    let mut i: usize = 0;
    while i < parts.len()
        invariant
            i <= parts@.len(),
            string_views(v@) == parts@.take(i as int).map_values(|p: &str| p@),
        decreases parts@.len() - i,
    {
        let ghost prev = string_views(v@);
        v.push(String::from_str(parts[i]));
        proof {
            assert(string_views(v@) =~= prev.push(parts@[i as int]@));
            assert(parts@.take(i + 1).map_values(|p: &str| p@) =~= parts@.take(i as int).map_values(|p: &str| p@).push(parts@[i as int]@));
        }
        i += 1;
    }
    assert(parts@.take(parts@.len() as int) =~= parts@);
    v
}

/// The command that reloads the PHP-FPM service of a PHP version.
pub fn reload_fpm(php: &str) -> (cmd: Invocation)
    ensures
        invokes(cmd, "systemctl"@, seq!["reload"@, "php"@ + php@ + "-fpm"@], false),
{
    let mut args: Vec<String> = Vec::new();
    args.push(String::from_str("reload"));
    args.push(String::from_str("php").concat(php).concat("-fpm"));
    assert(string_views(args@) =~= seq!["reload"@, "php"@ + php@ + "-fpm"@]);
    Invocation { program: String::from_str("systemctl"), args, capture: false }
}

/// The first step of reloading nginx: the config test, whose output is
/// collected.
pub fn reload_nginx() -> (test: Invocation)
    ensures
        invokes(test, "nginx"@, seq!["-t"@], true),
{
    let mut test_args: Vec<String> = Vec::new();
    test_args.push(String::from_str("-t"));
    assert(string_views(test_args@) =~= seq!["-t"@]);
    Invocation { program: String::from_str("nginx"), args: test_args, capture: true }
}

/// The step after the config test: the reload when the test passed, and
/// nothing when it failed, so a config that fails the test is never
/// loaded.
pub fn reload_after_test(test_passed: bool) -> (next: Option<Invocation>)
    ensures
        next is Some <==> test_passed,
        match next {
            Some(cmd) => invokes(cmd, "systemctl"@, seq!["reload"@, "nginx"@], false),
            None => true,
        },
{
    if !test_passed {
        return None;
    }
    let mut reload_args: Vec<String> = Vec::new();
    reload_args.push(String::from_str("reload"));
    reload_args.push(String::from_str("nginx"));
    assert(string_views(reload_args@) =~= seq!["reload"@, "nginx"@]);
    Some(Invocation { program: String::from_str("systemctl"), args: reload_args, capture: false })
}

/// A name of a directory under `/etc/php` that is a PHP version: it starts
/// with an ASCII digit.
pub open spec fn is_php_version_name(name: Seq<char>) -> bool {
    name.len() > 0 && '0' <= name[0] && name[0] <= '9'
}

/// The names among `names` that are PHP versions, in order.
pub open spec fn php_version_names(names: Seq<Seq<char>>) -> Seq<Seq<char>>
    decreases names.len(),
{
    if names.len() == 0 {
        seq![]
    } else {
        php_version_names(names.drop_last()) + (if is_php_version_name(names.last()) {
            seq![names.last()]
        } else {
            seq![]
        })
    }
}

/// The installed PHP versions, given the names of the directories under
/// `/etc/php`: those starting with a digit, sorted.
pub fn available_php_versions(dir_names: &Vec<String>) -> (versions: Vec<String>)
    ensures
        is_sorted(string_views(versions@)),
        string_views(versions@).to_multiset() == php_version_names(string_views(dir_names@)).to_multiset(),
{
    let mut picked: Vec<String> = Vec::new();
    let mut i: usize = 0;
    while i < dir_names.len()
        invariant
            i <= dir_names@.len(),
            string_views(picked@) == php_version_names(string_views(dir_names@.take(i as int))),
        decreases dir_names@.len() - i,
    {
        let cs = chars_of(dir_names[i].as_str());
        let ghost t1 = string_views(dir_names@.take(i + 1));
        assert(t1.drop_last() =~= string_views(dir_names@.take(i as int)));
        if cs.len() > 0 && '0' <= cs[0] && cs[0] <= '9' {
            let ghost prev = string_views(picked@);
            picked.push(dir_names[i].clone());
            assert(string_views(picked@) =~= prev.push(dir_names@[i as int]@));
        } else {
            assert(php_version_names(t1) =~= string_views(picked@));
        }
        i += 1;
    }
    assert(dir_names@.take(dir_names@.len() as int) =~= dir_names@);
    sort_strings(picked)
}

/// Permission bits of a file as octal digits, or `???` when unknown.
pub open spec fn spec_perms_octal(mode: Option<u32>) -> Seq<char> {
    match mode {
        Some(m) => digits((m & 0o777u32) as nat, 8),
        None => "???"@,
    }
}

/// Octal permission bits of a path as a string, e.g. "750", given its
/// `st_mode` (`None` when its metadata could not be read).
pub fn perms_octal(mode: Option<u32>) -> (s: String)
    ensures
        s@ == spec_perms_octal(mode),
{
    match mode {
        Some(m) => octal(m & 0o777u32),
        None => String::from_str("???"),
    }
}

/// How the owner of a file is shown: the user name, the numeric id when the
/// id has no user, `?` when the file's metadata could not be read.
pub open spec fn spec_owner_name(uid: Option<u32>, user: Option<Seq<char>>) -> Seq<char> {
    match uid {
        None => "?"@,
        Some(u) => match user {
            Some(n) => n,
            None => digits(u as nat, 10),
        },
    }
}

/// Owner of a path, given its uid and that uid's user name.
pub fn owner_name(uid: Option<u32>, user: Option<String>) -> (s: String)
    ensures
        s@ == spec_owner_name(uid, match user { Some(n) => Some(n@), None => None }),
{
    match uid {
        None => String::from_str("?"),
        Some(u) => match user {
            Some(n) => n,
            None => decimal(u as u64),
        },
    }
}

/// The arguments that create the system user of a site: no home directory
/// created, no login shell, its home set to the project directory.
pub open spec fn spec_useradd_args(dir: Seq<char>, user: Seq<char>) -> Seq<Seq<char>> {
    seq!["--system"@, "--no-create-home"@, "--shell"@, "/usr/sbin/nologin"@, "--home-dir"@, dir, user]
}

/// The command that creates the system user of a site.
pub fn useradd(dir: &str, user: &str) -> (cmd: Invocation)
    ensures
        invokes(cmd, "useradd"@, spec_useradd_args(dir@, user@), true),
{
    let mut args = strs(&["--system", "--no-create-home", "--shell", "/usr/sbin/nologin", "--home-dir"]);
    let ghost first = string_views(args@);
    args.push(String::from_str(dir));
    args.push(String::from_str(user));
    proof {
        assert(first =~= seq!["--system"@, "--no-create-home"@, "--shell"@, "/usr/sbin/nologin"@, "--home-dir"@]);
        assert(string_views(args@) =~= spec_useradd_args(dir@, user@));
    }
    Invocation { program: String::from_str("useradd"), args, capture: true }
}

/// `/var/www/<domain>`
pub open spec fn spec_project_dir(domain: Seq<char>) -> Seq<char> {
    "/var/www/"@ + domain
}

/// The project directory of a domain.
pub fn project_dir(domain: &str) -> (dir: String)
    ensures
        dir@ == spec_project_dir(domain@),
{
    String::from_str("/var/www/").concat(domain)
}

} // verus!
