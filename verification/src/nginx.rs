//! nginx vhosts: the generated config, and the parsing of existing configs
//! (server names, web roots, the PHP-FPM socket and the PHP version).

use vstd::prelude::*;
use vstd::string::StringExecFns;
use crate::system::{fpm_socket_path, spec_fpm_socket_path, strs};
use crate::order::{is_strictly_sorted, sorted_set};
use crate::text::{
    chars_of, contains, copy_range, eq_chars, has_prefix, has_substring, join, join_chars,
    lemma_trim_start_at, lines, lines_of, starts_with, string_of, string_views, strings_of,
    trim, trim_chars, trim_end_matches, trim_end_matches_chars, trim_start, trim_start_matches,
    trim_start_matches_chars, views, words, words_of, occurs_at, matches_at, is_ws,
    is_whitespace, index_of, lemma_index_of_at, lemma_index_of_none, str_eq,
    lemma_push_contains, terminated, terminate_lines,
};

verus! {

/// Where vhost configs are kept.
pub const SITES_AVAILABLE: &'static str = "/etc/nginx/sites-available";

/// Where enabled vhosts are linked.
pub const SITES_ENABLED: &'static str = "/etc/nginx/sites-enabled";

/// `/etc/nginx/sites-available/<name>`
pub open spec fn spec_available_path(name: Seq<char>) -> Seq<char> {
    "/etc/nginx/sites-available/"@ + name
}

/// `/etc/nginx/sites-enabled/<name>`
pub open spec fn spec_enabled_path(name: Seq<char>) -> Seq<char> {
    "/etc/nginx/sites-enabled/"@ + name
}

/// Path of the vhost config of `name`.
pub fn available_path(name: &str) -> (path: String)
    ensures
        path@ == spec_available_path(name@),
{
    String::from_str("/etc/nginx/sites-available/").concat(name)
}

/// Path of the link that enables the vhost `name`.
pub fn enabled_path(name: &str) -> (path: String)
    ensures
        path@ == spec_enabled_path(name@),
{
    String::from_str("/etc/nginx/sites-enabled/").concat(name)
}

/// The `server_name` line of a vhost.
pub open spec fn server_name_line(server_names: Seq<Seq<char>>) -> Seq<char> {
    "    server_name "@ + join(server_names, " "@) + ";"@
}

/// The `root` line of a vhost: `/var/www/<primary>/<web_root>`.
pub open spec fn root_line(primary: Seq<char>, web_root: Seq<char>) -> Seq<char> {
    "    root /var/www/"@ + primary + "/"@ + web_root + ";"@
}

/// The line that passes PHP requests to the FPM socket.
pub open spec fn socket_line(socket: Seq<char>) -> Seq<char> {
    "        fastcgi_pass unix:"@ + socket + ";"@
}

/// The fixed lines between the web root and the FPM socket.
pub open spec fn vhost_middle_lines() -> Seq<Seq<char>> {
    seq![
        ""@,
        "    add_header X-Content-Type-Options \"nosniff\";"@,
        "    add_header X-Frame-Options \"SAMEORIGIN\";"@,
        ""@,
        "    index index.php;"@,
        "    charset utf-8;"@,
        ""@,
        "    location / {"@,
        "        try_files $uri $uri/ /index.php?$query_string;"@,
        "    }"@,
        ""@,
        "    location = /favicon.ico { access_log off; log_not_found off; }"@,
        "    location = /robots.txt  { access_log off; log_not_found off; }"@,
        ""@,
        "    error_page 404 /index.php;"@,
        ""@,
        "    location ~ \\.php$ {"@,
    ]
}

/// The fixed lines after the FPM socket.
pub open spec fn vhost_end_lines() -> Seq<Seq<char>> {
    seq![
        "        fastcgi_param SCRIPT_FILENAME $realpath_root$fastcgi_script_name;"@,
        "        include fastcgi_params;"@,
        "    }"@,
        ""@,
        "    location ~ /\\.(?!well-known).* {"@,
        "        deny all;"@,
        "    }"@,
        ""@,
        "    listen 80;"@,
        "}"@,
    ]
}

/// The lines of the Laravel-style vhost for `server_names`, served from
/// `/var/www/<primary>/<web_root>` through the primary domain's own FPM pool.
pub open spec fn vhost_lines(
    server_names: Seq<Seq<char>>,
    primary: Seq<char>,
    php: Seq<char>,
    web_root: Seq<char>,
) -> Seq<Seq<char>> {
    seq!["server {"@, server_name_line(server_names), root_line(primary, web_root)] + vhost_middle_lines()
        + seq![socket_line(spec_fpm_socket_path(primary, php))] + vhost_end_lines()
}

/// The text of that vhost: its lines, each ended by a newline.
pub open spec fn spec_vhost_config(
    server_names: Seq<Seq<char>>,
    primary: Seq<char>,
    php: Seq<char>,
    web_root: Seq<char>,
) -> Seq<char> {
    terminated(vhost_lines(server_names, primary, php, web_root))
}

/// The names joined with single spaces.
fn join_with_spaces(names: &Vec<String>) -> (res: String)
    ensures
        res@ == join(string_views(names@), " "@),
{
    let mut parts: Vec<Vec<char>> = Vec::new();
    let mut i: usize = 0;
    while i < names.len()
        invariant
            i <= names@.len(),
            views(parts@) == string_views(names@.take(i as int)),
        decreases names@.len() - i,
    {
        let cs = chars_of(names[i].as_str());
        let ghost prev = parts@;
        parts.push(cs);
        proof {
            assert(views(parts@) =~= views(prev).push(names@[i as int]@));
            assert(string_views(names@.take(i + 1)) =~= string_views(names@.take(i as int)).push(names@[i as int]@));
        }
        i += 1;
    }
    assert(names@.take(names@.len() as int) =~= names@);
    let sep = chars_of(" ");
    let joined = join_chars(&parts, &sep);
    string_of(joined.as_slice())
}

/// The fixed lines between the web root and the FPM socket.
fn middle_lines() -> (ls: Vec<String>)
    ensures
        string_views(ls@) == vhost_middle_lines(),
{
    let ls = strs(
        &[
            "",
            "    add_header X-Content-Type-Options \"nosniff\";",
            "    add_header X-Frame-Options \"SAMEORIGIN\";",
            "",
            "    index index.php;",
            "    charset utf-8;",
            "",
            "    location / {",
            "        try_files $uri $uri/ /index.php?$query_string;",
            "    }",
            "",
            "    location = /favicon.ico { access_log off; log_not_found off; }",
            "    location = /robots.txt  { access_log off; log_not_found off; }",
            "",
            "    error_page 404 /index.php;",
            "",
            "    location ~ \\.php$ {",
        ],
    );
    assert(string_views(ls@) =~= vhost_middle_lines());
    ls
}

/// The fixed lines after the FPM socket.
fn end_lines() -> (ls: Vec<String>)
    ensures
        string_views(ls@) == vhost_end_lines(),
{
    let ls = strs(
        &[
            "        fastcgi_param SCRIPT_FILENAME $realpath_root$fastcgi_script_name;",
            "        include fastcgi_params;",
            "    }",
            "",
            "    location ~ /\\.(?!well-known).* {",
            "        deny all;",
            "    }",
            "",
            "    listen 80;",
            "}",
        ],
    );
    assert(string_views(ls@) =~= vhost_end_lines());
    ls
}

/// Config of a vhost serving `server_names` (the first one names the
/// project directory) with PHP handled by the primary domain's pool.
pub fn create_vhost_config(server_names: &Vec<String>, primary: &str, php: &str, web_root: &str) -> (config: String)
    ensures
        config@ == spec_vhost_config(string_views(server_names@), primary@, php@, web_root@),
{
    let socket = fpm_socket_path(primary, php);
    let names = join_with_spaces(server_names);
    let mut ls: Vec<String> = Vec::new();
    ls.push(String::from_str("server {"));
    ls.push(String::from_str("    server_name ").concat(names.as_str()).concat(";"));
    ls.push(String::from_str("    root /var/www/").concat(primary).concat("/").concat(web_root).concat(";"));
    let mut mid = middle_lines();
    ls.append(&mut mid);
    ls.push(String::from_str("        fastcgi_pass unix:").concat(socket.as_str()).concat(";"));
    let mut end = end_lines();
    ls.append(&mut end);
    assert(string_views(ls@) =~= vhost_lines(string_views(server_names@), primary@, php@, web_root@));
    terminate_lines(&ls)
}

/// Config of a single-domain Laravel vhost.
pub fn laravel_vhost(domain: &str, php: &str, web_root: &str) -> (config: String)
    ensures
        config@ == spec_vhost_config(seq![domain@], domain@, php@, web_root@),
{
    let mut names: Vec<String> = Vec::new();
    names.push(String::from_str(domain));
    assert(string_views(names@) =~= seq![domain@]);
    create_vhost_config(&names, domain, php, web_root)
}

/// A vhost config to be written, with the path it goes to.
pub struct VhostFile {
    /// `/etc/nginx/sites-available/<primary>`
    pub path: String,
    /// The config text.
    pub config: String,
}

/// Why no vhost is created for a list of domains.
#[derive(Clone, Copy, PartialEq, Eq, Structural, Debug)]
pub enum VhostRefusal {
    /// No domain was given.
    NoDomains,
    /// A vhost config for the primary domain exists already; it is never
    /// overwritten.
    AlreadyExists,
}

/// The vhost for several domains, the first being the primary one that
/// names the config file and the project directory. `exists` tells whether
/// a config is already at the primary domain's path (see `available_path`).
pub fn create_vhost_multi(domains: &Vec<String>, php: &str, web_root: &str, exists: bool) -> (file: Result<VhostFile, VhostRefusal>)
    ensures
        match file {
            Ok(f) => {
                &&& domains@.len() > 0
                &&& !exists
                &&& f.path@ == spec_available_path(domains@[0]@)
                &&& f.config@ == spec_vhost_config(string_views(domains@), domains@[0]@, php@, web_root@)
            },
            Err(VhostRefusal::NoDomains) => domains@.len() == 0,
            Err(VhostRefusal::AlreadyExists) => domains@.len() > 0 && exists,
        },
{
    if domains.len() == 0 {
        return Err(VhostRefusal::NoDomains);
    }
    if exists {
        return Err(VhostRefusal::AlreadyExists);
    }
    let primary = domains[0].as_str();
    Ok(VhostFile { path: available_path(primary), config: create_vhost_config(domains, primary, php, web_root) })
}

/// The words of a `server_name` line without the catch-all name `_`.
pub open spec fn drop_placeholder(ws: Seq<Seq<char>>) -> Seq<Seq<char>>
    decreases ws.len(),
{
    if ws.len() == 0 {
        seq![]
    } else {
        (if ws[0] == "_"@ { seq![] } else { seq![ws[0]] }) + drop_placeholder(ws.drop_first())
    }
}

/// The names on a trimmed `server_name` line.
pub open spec fn server_name_line_words(t: Seq<char>) -> Seq<Seq<char>> {
    drop_placeholder(words(trim_end_matches(trim_start_matches(t, "server_name"@), ";"@)))
}

/// The server names declared in the lines `ls`, in order.
pub open spec fn server_names_in(ls: Seq<Seq<char>>) -> Seq<Seq<char>>
    decreases ls.len(),
{
    if ls.len() == 0 {
        seq![]
    } else {
        let t = trim(ls[0]);
        (if starts_with(t, "server_name"@) { server_name_line_words(t) } else { seq![] })
            + server_names_in(ls.drop_first())
    }
}

/// The server names declared in a vhost config, without `_`.
pub open spec fn spec_server_names(content: Seq<char>) -> Seq<Seq<char>> {
    server_names_in(lines(content))
}

/// The web roots declared on a trimmed `root ` line.
pub open spec fn root_of_line(t: Seq<char>) -> Seq<char> {
    trim(trim_end_matches(trim_start_matches(t, "root "@), ";"@))
}

/// The web roots declared in the lines `ls`, in order.
pub open spec fn roots_in(ls: Seq<Seq<char>>) -> Seq<Seq<char>>
    decreases ls.len(),
{
    if ls.len() == 0 {
        seq![]
    } else {
        let t = trim(ls[0]);
        (if starts_with(t, "root "@) { seq![root_of_line(t)] } else { seq![] }) + roots_in(ls.drop_first())
    }
}

/// The web roots declared in a vhost config.
pub open spec fn spec_roots(content: Seq<char>) -> Seq<Seq<char>> {
    roots_in(lines(content))
}

/// A trimmed line that passes requests to a unix socket.
pub open spec fn is_socket_line(t: Seq<char>) -> bool {
    starts_with(t, "fastcgi_pass"@) && contains(t, "unix:"@)
}

/// The socket path on a trimmed `fastcgi_pass unix:...;` line.
pub open spec fn socket_of_line(t: Seq<char>) -> Seq<char> {
    trim_start_matches(trim_end_matches(trim(trim_start_matches(t, "fastcgi_pass"@)), ";"@), "unix:"@)
}

/// The socket of the first `fastcgi_pass unix:` line among `ls`.
pub open spec fn socket_in(ls: Seq<Seq<char>>) -> Option<Seq<char>>
    decreases ls.len(),
{
    if ls.len() == 0 {
        None
    } else {
        let t = trim(ls[0]);
        if is_socket_line(t) { Some(socket_of_line(t)) } else { socket_in(ls.drop_first()) }
    }
}

/// The PHP-FPM socket a vhost config passes requests to.
pub open spec fn spec_php_socket(content: Seq<char>) -> Option<Seq<char>> {
    socket_in(lines(content))
}

/// Appends the words of a `server_name` line to `out`, without `_`.
fn push_server_names(out: &mut Vec<Vec<char>>, t: &Vec<char>)
    ensures
        views(final(out)@) == views(old(out)@) + server_name_line_words(t@),
{
    let key = chars_of("server_name");
    let semi = chars_of(";");
    let underscore = chars_of("_");
    let a = trim_start_matches_chars(t, &key);
    let b = trim_end_matches_chars(&a, &semi);
    let ws = words_of(&b);
    let ghost start = views(out@);
    let mut i: usize = 0;
    assert(views(ws@).skip(0) =~= views(ws@));
    while i < ws.len()
        invariant
            i <= ws@.len(),
            underscore@ == "_"@,
            views(out@) + drop_placeholder(views(ws@).skip(i as int)) == start + drop_placeholder(views(ws@)),
        decreases ws@.len() - i,
    {
        let ghost rest = views(ws@).skip(i as int);
        assert(rest.drop_first() =~= views(ws@).skip(i + 1));
        if !eq_chars(&ws[i], &underscore) {
            let ghost prev = out@;
            out.push(copy_range(&ws[i], 0, ws[i].len()));
            assert(ws@[i as int]@.subrange(0, ws@[i as int]@.len() as int) =~= ws@[i as int]@);
            assert(views(out@) =~= views(prev).push(ws@[i as int]@));
            assert(views(out@) + drop_placeholder(rest.drop_first()) =~= views(prev) + (seq![rest[0]] + drop_placeholder(rest.drop_first())));
        } else {
            assert(seq![] + drop_placeholder(rest.drop_first()) =~= drop_placeholder(rest.drop_first()));
        }
        i += 1;
    }
    assert(views(ws@).skip(0) =~= views(ws@));
    assert(views(ws@).skip(ws@.len() as int) =~= Seq::<Seq<char>>::empty());
    assert(views(out@) + drop_placeholder(Seq::<Seq<char>>::empty()) =~= views(out@));
}

/// Server names declared in a vhost config (`server_name` lines, `_` left out).
pub fn server_names(content: &str) -> (names: Vec<String>)
    ensures
        string_views(names@) == spec_server_names(content@),
{
    let ls = lines_of(&chars_of(content));
    let key = chars_of("server_name");
    let mut out: Vec<Vec<char>> = Vec::new();
    let mut i: usize = 0;
    let ghost all = views(ls@);
    assert(all.skip(0) =~= all);
    assert(views(out@) + server_names_in(all) =~= server_names_in(all));
    while i < ls.len()
        invariant
            i <= ls@.len(),
            all == views(ls@),
            key@ == "server_name"@,
            views(out@) + server_names_in(all.skip(i as int)) == server_names_in(all),
        decreases ls@.len() - i,
    {
        let ghost rest = all.skip(i as int);
        assert(rest.drop_first() =~= all.skip(i + 1));
        assert(rest[0] == ls@[i as int]@);
        let t = trim_chars(&ls[i]);
        let ghost prev = views(out@);
        if has_prefix(&t, &key) {
            push_server_names(&mut out, &t);
            assert(views(out@) + server_names_in(all.skip(i + 1)) =~= prev + server_names_in(rest));
        } else {
            assert(prev + server_names_in(all.skip(i + 1)) =~= prev + server_names_in(rest));
        }
        i += 1;
    }
    assert(all.skip(ls@.len() as int) =~= Seq::<Seq<char>>::empty());
    assert(views(out@) + server_names_in(Seq::<Seq<char>>::empty()) =~= views(out@));
    strings_of(&out)
}

/// Web roots declared in a vhost config (`root ...;` lines).
pub fn roots(content: &str) -> (roots: Vec<String>)
    ensures
        string_views(roots@) == spec_roots(content@),
{
    let ls = lines_of(&chars_of(content));
    let key = chars_of("root ");
    let semi = chars_of(";");
    let mut out: Vec<Vec<char>> = Vec::new();
    let mut i: usize = 0;
    let ghost all = views(ls@);
    assert(all.skip(0) =~= all);
    assert(views(out@) + roots_in(all) =~= roots_in(all));
    while i < ls.len()
        invariant
            i <= ls@.len(),
            all == views(ls@),
            key@ == "root "@,
            semi@ == ";"@,
            views(out@) + roots_in(all.skip(i as int)) == roots_in(all),
        decreases ls@.len() - i,
    {
        let ghost rest = all.skip(i as int);
        assert(rest.drop_first() =~= all.skip(i + 1));
        assert(rest[0] == ls@[i as int]@);
        let t = trim_chars(&ls[i]);
        let ghost prev = views(out@);
        if has_prefix(&t, &key) {
            let a = trim_start_matches_chars(&t, &key);
            let b = trim_end_matches_chars(&a, &semi);
            let r = trim_chars(&b);
            out.push(r);
            assert(views(out@) =~= prev.push(root_of_line(t@)));
            assert(views(out@) + roots_in(all.skip(i + 1)) =~= prev + roots_in(rest));
        } else {
            assert(prev + roots_in(all.skip(i + 1)) =~= prev + roots_in(rest));
        }
        i += 1;
    }
    assert(all.skip(ls@.len() as int) =~= Seq::<Seq<char>>::empty());
    assert(views(out@) + roots_in(Seq::<Seq<char>>::empty()) =~= views(out@));
    strings_of(&out)
}

/// The PHP-FPM socket of the first `fastcgi_pass unix:...` line, if any.
pub fn php_socket(content: &str) -> (socket: Option<String>)
    ensures
        match socket {
            Some(s) => spec_php_socket(content@) == Some(s@),
            None => spec_php_socket(content@) is None,
        },
{
    let ls = lines_of(&chars_of(content));
    let key = chars_of("fastcgi_pass");
    let unix = chars_of("unix:");
    let semi = chars_of(";");
    let mut i: usize = 0;
    let ghost all = views(ls@);
    assert(all.skip(0) =~= all);
    while i < ls.len()
        invariant
            i <= ls@.len(),
            all == views(ls@),
            key@ == "fastcgi_pass"@,
            unix@ == "unix:"@,
            semi@ == ";"@,
            all == lines(content@),
            socket_in(all.skip(i as int)) == socket_in(all),
        decreases ls@.len() - i,
    {
        let ghost rest = all.skip(i as int);
        assert(rest.drop_first() =~= all.skip(i + 1));
        assert(rest[0] == ls@[i as int]@);
        let t = trim_chars(&ls[i]);
        if has_prefix(&t, &key) && has_substring(&t, &unix) {
            let a = trim_start_matches_chars(&t, &key);
            let b = trim_chars(&a);
            let c = trim_end_matches_chars(&b, &semi);
            let d = trim_start_matches_chars(&c, &unix);
            assert(socket_in(rest) == Some(socket_of_line(t@)));
            let r = string_of(d.as_slice());
            assert(r@ == socket_of_line(t@));
            return Some(r);
        }
        i += 1;
    }
    assert(all.skip(ls@.len() as int) =~= Seq::<Seq<char>>::empty());
    None
}

/// A character of a PHP version number: an ASCII digit or a dot.
pub open spec fn is_version_char(c: char) -> bool {
    ('0' <= c && c <= '9') || c == '.'
}

/// Length of the version-number characters at the front of `s`.
pub open spec fn version_run(s: Seq<char>) -> int
    decreases s.len(),
{
    if s.len() > 0 && is_version_char(s[0]) {
        1 + version_run(s.drop_first())
    } else {
        0
    }
}

/// The run of version characters at the front of `s` ends at `j`.
pub proof fn lemma_version_run_at(s: Seq<char>, j: int)
    requires
        0 <= j <= s.len(),
        forall|k: int| 0 <= k < j ==> is_version_char(#[trigger] s[k]),
        j == s.len() || !is_version_char(s[j]),
    ensures
        version_run(s) == j,
    decreases j,
{
    if j > 0 {
        let t = s.drop_first();
        assert forall|k: int| 0 <= k < j - 1 implies is_version_char(#[trigger] t[k]) by {
            assert(t[k] == s[k + 1]);
        }
        lemma_version_run_at(t, j - 1);
    }
}

/// The version number right after the first `php` at or after `i` that is
/// followed by one ("8.3" in `/run/php/php8.3-fpm.sock`).
pub open spec fn php_version_from(t: Seq<char>, i: int) -> Option<Seq<char>>
    decreases t.len() - i,
{
    if i < 0 || i + 3 > t.len() {
        None
    } else if occurs_at(t, "php"@, i) && version_run(t.skip(i + 3)) > 0 {
        Some(t.skip(i + 3).take(version_run(t.skip(i + 3))))
    } else {
        php_version_from(t, i + 1)
    }
}

/// The PHP version named on the first `fastcgi_pass` line among `ls` that names one.
pub open spec fn php_version_in(ls: Seq<Seq<char>>) -> Option<Seq<char>>
    decreases ls.len(),
{
    if ls.len() == 0 {
        None
    } else {
        let t = trim(ls[0]);
        if starts_with(t, "fastcgi_pass"@) && php_version_from(t, 0) is Some {
            php_version_from(t, 0)
        } else {
            php_version_in(ls.drop_first())
        }
    }
}

/// The PHP version that a vhost config's `fastcgi_pass` line names.
pub open spec fn spec_php_version(content: Seq<char>) -> Option<Seq<char>> {
    php_version_in(lines(content))
}

/// The version number after a `php` in the trimmed line `t`, if any.
fn php_version_of_line(t: &Vec<char>) -> (res: Option<Vec<char>>)
    ensures
        match res {
            Some(v) => php_version_from(t@, 0) == Some(v@),
            None => php_version_from(t@, 0) is None,
        },
{
    let php = chars_of("php");
    let n = t.len();
    let mut i: usize = 0;
    while n >= 3 && i <= n - 3
        invariant
            n == t@.len(),
            php@ == "php"@,
            php_version_from(t@, i as int) == php_version_from(t@, 0),
        decreases n - i,
    {
        if matches_at(t, &php, i) {
            let mut j = i + 3;
            while j < n && (('0' <= t[j] && t[j] <= '9') || t[j] == '.')
                invariant
                    n == t@.len(),
                    i + 3 <= j <= n,
                    forall|k: int| i + 3 <= k < j ==> is_version_char(#[trigger] t@[k]),
                decreases n - j,
            {
                j += 1;
            }
            proof {
                let rest = t@.skip(i + 3);
                assert forall|k: int| 0 <= k < j - (i + 3) implies is_version_char(#[trigger] rest[k]) by {
                    assert(rest[k] == t@[i + 3 + k]);
                }
                if j < n {
                    assert(rest[j - (i + 3)] == t@[j as int]);
                }
                lemma_version_run_at(rest, j - (i + 3));
                assert(rest.take(j - (i + 3)) =~= t@.subrange(i + 3, j as int));
            }
            if j > i + 3 {
                return Some(copy_range(t, i + 3, j));
            }
        }
        i += 1;
    }
    None
}

/// Detect the PHP version in use from the text of an nginx vhost config:
/// the number after `php` on its `fastcgi_pass` line, e.g. "8.3" from
/// `fastcgi_pass unix:/run/php/php8.3-fpm.sock;`.
pub fn detect_php_version(content: &str) -> (version: Option<String>)
    ensures
        match version {
            Some(v) => spec_php_version(content@) == Some(v@),
            None => spec_php_version(content@) is None,
        },
{
    let ls = lines_of(&chars_of(content));
    let key = chars_of("fastcgi_pass");
    let mut i: usize = 0;
    let ghost all = views(ls@);
    assert(all.skip(0) =~= all);
    while i < ls.len()
        invariant
            i <= ls@.len(),
            all == views(ls@),
            all == lines(content@),
            key@ == "fastcgi_pass"@,
            php_version_in(all.skip(i as int)) == php_version_in(all),
        decreases ls@.len() - i,
    {
        let ghost rest = all.skip(i as int);
        assert(rest.drop_first() =~= all.skip(i + 1));
        assert(rest[0] == ls@[i as int]@);
        let t = trim_chars(&ls[i]);
        if has_prefix(&t, &key) {
            match php_version_of_line(&t) {
                Some(v) => {
                    let r = string_of(v.as_slice());
                    return Some(r);
                },
                None => {},
            }
        }
        i += 1;
    }
    assert(all.skip(ls@.len() as int) =~= Seq::<Seq<char>>::empty());
    None
}

/// The indentation of a line (its leading whitespace).
pub open spec fn leading_ws(l: Seq<char>) -> Seq<char> {
    l.take(l.len() - trim_start(l).len())
}

/// A line with its `fastcgi_pass unix:` target replaced by `socket`,
/// keeping the indentation; other lines are left as they are.
pub open spec fn rewrite_line(l: Seq<char>, socket: Seq<char>) -> Seq<char> {
    if is_socket_line(trim(l)) {
        leading_ws(l) + "fastcgi_pass unix:"@ + socket + ";"@
    } else {
        l
    }
}

/// Every line of `ls` rewritten.
pub open spec fn rewrite_lines(ls: Seq<Seq<char>>, socket: Seq<char>) -> Seq<Seq<char>> {
    ls.map_values(|l: Seq<char>| rewrite_line(l, socket))
}

/// A vhost config with every `fastcgi_pass unix:` line pointed at `socket`:
/// its lines joined with `\n` (a final newline is not written back).
pub open spec fn rewritten_config(content: Seq<char>, socket: Seq<char>) -> Seq<char> {
    join(rewrite_lines(lines(content), socket), "\n"@)
}

/// What setting the socket of a vhost config gives: nothing when no line
/// passes PHP to a unix socket, or when the rewritten text is the text it
/// was (so nothing would be written); otherwise the rewritten text.
pub open spec fn spec_rewrite_socket(content: Seq<char>, socket: Seq<char>) -> Option<Seq<char>> {
    if socket_in(lines(content)) is None {
        None
    } else if rewritten_config(content, socket) == content {
        None
    } else {
        Some(rewritten_config(content, socket))
    }
}

/// One line rewritten.
fn rewrite_line_chars(l: &Vec<char>, socket: &Vec<char>) -> (res: Vec<char>)
    ensures
        res@ == rewrite_line(l@, socket@),
{
    let t = trim_chars(l);
    let key = chars_of("fastcgi_pass");
    let unix = chars_of("unix:");
    if has_prefix(&t, &key) && has_substring(&t, &unix) {
        let mut i: usize = 0;
        while i < l.len() && is_whitespace(l[i])
            invariant
                i <= l@.len(),
                forall|k: int| 0 <= k < i ==> is_ws(#[trigger] l@[k]),
            decreases l@.len() - i,
        {
            i += 1;
        }
        proof {
            lemma_trim_start_at(l@, i as int);
        }
        let indent = copy_range(l, 0, i);
        let line = string_of(indent.as_slice()).concat("fastcgi_pass unix:").concat(string_of(socket.as_slice()).as_str()).concat(";");
        let joined = chars_of(line.as_str());
        joined
    } else {
        copy_range(l, 0, l.len())
    }
}

/// A vhost config with its `fastcgi_pass unix:` targets replaced by
/// `socket`, its lines joined with `\n`; `None` when it has no such line,
/// or when that text is the config as it stands.
pub fn rewrite_socket(content: &str, socket: &str) -> (updated: Option<String>)
    ensures
        match updated {
            Some(u) => spec_rewrite_socket(content@, socket@) == Some(u@),
            None => spec_rewrite_socket(content@, socket@) is None,
        },
{
    if php_socket(content).is_none() {
        return None;
    }
    let cs = chars_of(content);
    let ls = lines_of(&cs);
    let sock = chars_of(socket);
    let mut out: Vec<Vec<char>> = Vec::new();
    let mut i: usize = 0;
    while i < ls.len()
        invariant
            i <= ls@.len(),
            views(out@) == rewrite_lines(views(ls@).take(i as int), sock@),
        decreases ls@.len() - i,
    {
        let r = rewrite_line_chars(&ls[i], &sock);
        let ghost prev = views(out@);
        out.push(r);
        proof {
            let lv = views(ls@);
            assert(lv.take(i + 1) =~= lv.take(i as int).push(lv[i as int]));
            assert(views(out@) =~= prev.push(r@));
            assert(rewrite_lines(lv.take(i + 1), sock@) =~= rewrite_lines(lv.take(i as int), sock@).push(rewrite_line(lv[i as int], sock@)));
        }
        i += 1;
    }
    assert(views(ls@).take(ls@.len() as int) =~= views(ls@));
    let nl = chars_of("\n");
    let joined = join_chars(&out, &nl);
    proof {
        reveal_strlit("\n");
    }
    assert(joined@ == rewritten_config(content@, socket@));
    if eq_chars(&joined, &cs) {
        None
    } else {
        Some(string_of(joined.as_slice()))
    }
}

/// Where a vhost config is saved before its socket is changed.
pub fn saved_copy_path(config_path: &str) -> (path: String)
    ensures
        path@ == config_path@ + ".bak"@,
{
    String::from_str(config_path).concat(".bak")
}

/// A socket of a PHP-FPM pool shared by all sites (`php8.3-fpm.sock`),
/// as opposed to a per-site one (`php8.3-fpm-<user>.sock`).
pub open spec fn spec_is_shared_socket(socket: Seq<char>) -> bool {
    contains(socket, "-fpm.sock"@) && !contains(socket, "-fpm-"@)
}

/// The per-site socket of any site is never taken for the shared pool's.
pub proof fn lemma_site_socket_not_shared(domain: Seq<char>, php: Seq<char>)
    ensures
        !spec_is_shared_socket(spec_fpm_socket_path(domain, php)),
{
    let s = spec_fpm_socket_path(domain, php);
    let i: int = ("/run/php/php"@.len() + php.len()) as int;
    reveal_strlit("-fpm-");
    assert(s.subrange(i, i + 5) =~= "-fpm-"@);
    assert(occurs_at(s, "-fpm-"@, i));
}

/// Whether `socket` is the shared pool's socket rather than a per-site one.
pub fn is_shared_socket(socket: &str) -> (shared: bool)
    ensures
        shared == spec_is_shared_socket(socket@),
{
    let s = chars_of(socket);
    has_substring(&s, &chars_of("-fpm.sock")) && !has_substring(&s, &chars_of("-fpm-"))
}

/// The project directory name a web root under `/var/www/` belongs to:
/// its first path component there.
pub open spec fn spec_root_project_dir(root: Seq<char>) -> Option<Seq<char>> {
    if starts_with(root, "/var/www/"@) {
        let rest = root.skip("/var/www/"@.len() as int);
        let i = index_of(rest, '/');
        Some(if i < 0 { rest } else { rest.take(i) })
    } else {
        None
    }
}

/// The `/var/www` project a web root lies in, if it lies there.
pub fn root_project_dir(root: &str) -> (dir: Option<String>)
    ensures
        match dir {
            Some(d) => spec_root_project_dir(root@) == Some(d@),
            None => spec_root_project_dir(root@) is None,
        },
{
    let r = chars_of(root);
    let prefix = chars_of("/var/www/");
    if !has_prefix(&r, &prefix) {
        return None;
    }
    let start = prefix.len();
    let mut q = start;
    while q < r.len() && r[q] != '/'
        invariant
            start <= q <= r@.len(),
            forall|k: int| start <= k < q ==> r@[k] != '/',
        decreases r@.len() - q,
    {
        q += 1;
    }
    proof {
        let rest = r@.skip(start as int);
        if q < r@.len() {
            assert(rest[q - start] == r@[q as int]);
            assert forall|k: int| 0 <= k < q - start implies rest[k] != '/' by {
                assert(rest[k] == r@[start + k]);
            }
            lemma_index_of_at(rest, '/', q - start);
            assert(rest.take(q - start) =~= r@.subrange(start as int, q as int));
        } else {
            assert forall|k: int| 0 <= k < rest.len() implies rest[k] != '/' by {
                assert(rest[k] == r@[start + k]);
            }
            lemma_index_of_none(rest, '/');
            assert(rest =~= r@.subrange(start as int, q as int));
        }
    }
    Some(string_of(copy_range(&r, start, q).as_slice()))
}

/// What an nginx vhost config declares, as the audit reads it.
pub struct Vhost {
    /// File name in sites-available.
    pub config: String,
    /// Whether sites-enabled links it.
    pub enabled: bool,
    /// Names on `server_name` lines, without `_`.
    pub server_names: Vec<String>,
    /// Paths on `root` lines.
    pub roots: Vec<String>,
    /// Target of the first `fastcgi_pass unix:` line.
    pub php_socket: Option<String>,
}

/// Reads the server names, web roots and PHP socket of a vhost config.
pub fn parse_vhost(config: String, enabled: bool, content: &str) -> (v: Vhost)
    ensures
        v.config@ == config@,
        v.enabled == enabled,
        string_views(v.server_names@) == spec_server_names(content@),
        string_views(v.roots@) == spec_roots(content@),
        match v.php_socket {
            Some(s) => spec_php_socket(content@) == Some(s@),
            None => spec_php_socket(content@) is None,
        },
{
    Vhost {
        config,
        enabled,
        server_names: server_names(content),
        roots: roots(content),
        php_socket: php_socket(content),
    }
}

/// A directory entry of `/var/www` that counts as a project (not hidden).
pub open spec fn is_project_dir_name(name: Seq<char>) -> bool {
    !starts_with(name, "."@)
}

/// `name` is a server name of one of `vhosts`.
pub open spec fn served_by_name(vhosts: Seq<Vhost>, name: Seq<char>) -> bool {
    exists|i: int, j: int|
        0 <= i < vhosts.len() && 0 <= j < vhosts[i].server_names@.len()
            && #[trigger] vhosts[i].server_names@[j]@ == name
}

/// `name` is the project directory of a web root of one of `vhosts`.
pub open spec fn served_by_root(vhosts: Seq<Vhost>, name: Seq<char>) -> bool {
    exists|i: int, j: int|
        0 <= i < vhosts.len() && 0 <= j < vhosts[i].roots@.len()
            && spec_root_project_dir(#[trigger] vhosts[i].roots@[j]@) == Some(name)
}

/// A project directory that no vhost serves, by server name or by web root.
pub open spec fn is_unserved(vhosts: Seq<Vhost>, name: Seq<char>) -> bool {
    is_project_dir_name(name) && !served_by_name(vhosts, name) && !served_by_root(vhosts, name)
}

/// A directory named like a server name of any vhost counts as served,
/// whether or not that vhost has a web root.
pub proof fn lemma_server_name_is_served(vhosts: Seq<Vhost>, a: int, j: int)
    requires
        0 <= a < vhosts.len(),
        0 <= j < vhosts[a].server_names@.len(),
    ensures
        !is_unserved(vhosts, vhosts[a].server_names@[j]@),
{
    assert(served_by_name(vhosts, vhosts[a].server_names@[j]@));
}

/// Whether one of `vhosts` names `name` as a server name or serves it from its web root.
fn is_served(vhosts: &Vec<Vhost>, name: &str) -> (r: bool)
    ensures
        r == (served_by_name(vhosts@, name@) || served_by_root(vhosts@, name@)),
{
    let mut i: usize = 0;
    while i < vhosts.len()
        invariant
            i <= vhosts@.len(),
            forall|a: int, j: int|
                0 <= a < i && 0 <= j < vhosts@[a].server_names@.len()
                    ==> #[trigger] vhosts@[a].server_names@[j]@ != name@,
            forall|a: int, j: int|
                0 <= a < i && 0 <= j < vhosts@[a].roots@.len()
                    ==> spec_root_project_dir(#[trigger] vhosts@[a].roots@[j]@) != Some(name@),
        decreases vhosts@.len() - i,
    {
        let v = &vhosts[i];
        let mut j: usize = 0;
        while j < v.server_names.len()
            invariant
                i < vhosts@.len(),
                *v == vhosts@[i as int],
                j <= v.server_names@.len(),
                forall|b: int| 0 <= b < j ==> #[trigger] v.server_names@[b]@ != name@,
            decreases v.server_names@.len() - j,
        {
            if str_eq(v.server_names[j].as_str(), name) {
                assert(vhosts@[i as int].server_names@[j as int]@ == name@);
                return true;
            }
            j += 1;
        }
        let mut j: usize = 0;
        while j < v.roots.len()
            invariant
                i < vhosts@.len(),
                *v == vhosts@[i as int],
                j <= v.roots@.len(),
                forall|b: int| 0 <= b < j ==> spec_root_project_dir(#[trigger] v.roots@[b]@) != Some(name@),
            decreases v.roots@.len() - j,
        {
            match root_project_dir(v.roots[j].as_str()) {
                Some(d) => {
                    if str_eq(d.as_str(), name) {
                        assert(spec_root_project_dir(vhosts@[i as int].roots@[j as int]@) == Some(name@));
                        return true;
                    }
                },
                None => {},
            }
            j += 1;
        }
        i += 1;
    }
    false
}

/// The project directories (entries of `/var/www`) that no vhost serves,
/// each once, in increasing order.
pub fn unserved_dirs(dir_names: &Vec<String>, vhosts: &Vec<Vhost>) -> (res: Vec<String>)
    ensures
        is_strictly_sorted(string_views(res@)),
        forall|x: Seq<char>|
            #[trigger] string_views(res@).contains(x) <==> (string_views(dir_names@).contains(x) && is_unserved(vhosts@, x)),
        forall|k: int, a: int, j: int|
            0 <= k < res@.len() && 0 <= a < vhosts@.len() && 0 <= j < vhosts@[a].server_names@.len()
                ==> #[trigger] res@[k]@ != #[trigger] vhosts@[a].server_names@[j]@,
{
    let mut picked: Vec<String> = Vec::new();
    let dot = chars_of(".");
    let mut i: usize = 0;
    while i < dir_names.len()
        invariant
            i <= dir_names@.len(),
            dot@ == "."@,
            forall|x: Seq<char>|
                #[trigger] string_views(picked@).contains(x) <==> (string_views(dir_names@.take(i as int)).contains(x) && is_unserved(vhosts@, x)),
        decreases dir_names@.len() - i,
    {
        let name = &dir_names[i];
        let ghost pv = string_views(picked@);
        let ghost t0 = string_views(dir_names@.take(i as int));
        let ghost t1 = string_views(dir_names@.take(i + 1));
        assert(t1 =~= t0.push(name@));
        let name_chars = chars_of(name.as_str());
        let keep = !has_prefix(&name_chars, &dot) && !is_served(vhosts, name.as_str());
        assert(keep == is_unserved(vhosts@, name@));
        if keep {
            picked.push(name.clone());
            proof {
                let nv = string_views(picked@);
                assert(nv =~= pv.push(name@));
                assert forall|x: Seq<char>| nv.contains(x) <==> (t1.contains(x) && is_unserved(vhosts@, x)) by {
                    lemma_push_contains(pv, name@, x);
                    lemma_push_contains(t0, name@, x);
                }
            }
        } else {
            proof {
                assert forall|x: Seq<char>| pv.contains(x) <==> (t1.contains(x) && is_unserved(vhosts@, x)) by {
                    lemma_push_contains(t0, name@, x);
                }
            }
        }
        i += 1;
    }
    assert(dir_names@.take(dir_names@.len() as int) =~= dir_names@);
    let res = sorted_set(picked);
    proof {
        assert forall|k: int, a: int, j: int|
            0 <= k < res@.len() && 0 <= a < vhosts@.len() && 0 <= j < vhosts@[a].server_names@.len()
                implies #[trigger] res@[k]@ != #[trigger] vhosts@[a].server_names@[j]@ by {
            assert(string_views(res@)[k] == res@[k]@);
            assert(string_views(res@).contains(res@[k]@));
            if res@[k]@ == vhosts@[a].server_names@[j]@ {
                lemma_server_name_is_served(vhosts@, a, j);
            }
        }
    }
    res
}

/// The project directory that a web root points into when `/var/www` has
/// no directory of that name (the audit warns about it).
pub open spec fn spec_missing_project(root: Seq<char>, dir_names: Seq<Seq<char>>) -> Option<Seq<char>> {
    match spec_root_project_dir(root) {
        Some(p) => if dir_names.contains(p) && is_project_dir_name(p) { None } else { Some(p) },
        None => None,
    }
}

/// The `/var/www/<project>` that `root` points into, when no such project
/// directory exists among `dir_names`.
pub fn missing_project(root: &str, dir_names: &Vec<String>) -> (missing: Option<String>)
    ensures
        match missing {
            Some(p) => spec_missing_project(root@, string_views(dir_names@)) == Some(p@),
            None => spec_missing_project(root@, string_views(dir_names@)) is None,
        },
{
    match root_project_dir(root) {
        None => None,
        Some(p) => {
            let ghost dv = string_views(dir_names@);
            let mut i: usize = 0;
            while i < dir_names.len()
                invariant
                    i <= dir_names@.len(),
                    dv == string_views(dir_names@),
                    spec_root_project_dir(root@) == Some(p@),
                    forall|k: int| 0 <= k < i ==> #[trigger] dv[k] != p@,
                decreases dir_names@.len() - i,
            {
                if str_eq(dir_names[i].as_str(), p.as_str()) {
                    assert(dv[i as int] == p@);
                    assert(dv.contains(p@));
                    if has_prefix(&chars_of(p.as_str()), &chars_of(".")) {
                        return Some(p);
                    }
                    return None;
                }
                i += 1;
            }
            Some(p)
        },
    }
}

} // verus!
