//! What the vhost readers (server names, web roots, FPM socket, PHP
//! version) give back of a vhost that this tool generated, and of one whose
//! socket it has set.

use vstd::prelude::*;
use crate::system::{spec_domain_to_user, spec_fpm_socket_path};
use crate::text::string_views;
use crate::text::{
    ends_with, index_of, is_word, is_ws, join, lemma_index_of, lemma_index_of_at, lemma_index_of_none,
    lemma_join_last, lemma_join_no_newline, lemma_lines_terminated, lemma_trim_start, lemma_trim_start_at,
    lemma_words_join, lemma_words_skip_ws, lines, no_newline, terminated, occurs_at, starts_with, strip_cr, trim,
    trim_end, trim_end_matches, trim_start, trim_start_matches, words,
};
use crate::nginx::{
    is_unserved, served_by_root, spec_root_project_dir, Vhost,
    leading_ws, rewrite_line, rewrite_lines, rewritten_config, spec_rewrite_socket,
    spec_php_socket, spec_php_version, spec_roots, spec_server_names, spec_vhost_config, vhost_lines,
    is_version_char, lemma_version_run_at, version_run,
    drop_placeholder, is_socket_line, php_version_from, php_version_in, root_line, root_of_line,
    roots_in, server_name_line, server_name_line_words, server_names_in, socket_in, socket_line,
    socket_of_line, vhost_end_lines, vhost_middle_lines,
};

verus! {

/// A vhost line that none of the readers picks up: it holds no newline,
/// does not end with a carriage return, and trimmed it starts with none of
/// `server_name`, `root ` and `fastcgi_pass`.
pub open spec fn is_plain_line(l: Seq<char>) -> bool {
    &&& no_newline(l)
    &&& strip_cr(l) == l
    &&& !starts_with(trim(l), "server_name"@)
    &&& !starts_with(trim(l), "root "@)
    &&& !starts_with(trim(l), "fastcgi_pass"@)
}

/// Every line of `ls` is plain.
pub open spec fn all_plain(ls: Seq<Seq<char>>) -> bool {
    forall|i: int| 0 <= i < ls.len() ==> is_plain_line(#[trigger] ls[i])
}

/// Server names of two runs of lines are those of each, in order.
pub proof fn lemma_server_names_concat(a: Seq<Seq<char>>, b: Seq<Seq<char>>)
    ensures
        server_names_in(a + b) == server_names_in(a) + server_names_in(b),
    decreases a.len(),
{
    if a.len() == 0 {
        assert(a + b =~= b);
        assert(server_names_in(a) + server_names_in(b) =~= server_names_in(b));
    } else {
        assert((a + b).drop_first() =~= a.drop_first() + b);
        assert((a + b)[0] == a[0]);
        lemma_server_names_concat(a.drop_first(), b);
        assert(server_names_in(a + b) =~= server_names_in(a) + server_names_in(b));
    }
}

/// Web roots of two runs of lines are those of each, in order.
pub proof fn lemma_roots_concat(a: Seq<Seq<char>>, b: Seq<Seq<char>>)
    ensures
        roots_in(a + b) == roots_in(a) + roots_in(b),
    decreases a.len(),
{
    if a.len() == 0 {
        assert(a + b =~= b);
        assert(roots_in(a) + roots_in(b) =~= roots_in(b));
    } else {
        assert((a + b).drop_first() =~= a.drop_first() + b);
        assert((a + b)[0] == a[0]);
        lemma_roots_concat(a.drop_first(), b);
        assert(roots_in(a + b) =~= roots_in(a) + roots_in(b));
    }
}

/// The socket of two runs of lines is the first run's, if it has one.
pub proof fn lemma_socket_concat(a: Seq<Seq<char>>, b: Seq<Seq<char>>)
    ensures
        socket_in(a + b) == (if socket_in(a) is Some { socket_in(a) } else { socket_in(b) }),
    decreases a.len(),
{
    if a.len() == 0 {
        assert(a + b =~= b);
    } else {
        assert((a + b).drop_first() =~= a.drop_first() + b);
        assert((a + b)[0] == a[0]);
        lemma_socket_concat(a.drop_first(), b);
    }
}

/// The PHP version of two runs of lines is the first run's, if it names one.
pub proof fn lemma_php_version_concat(a: Seq<Seq<char>>, b: Seq<Seq<char>>)
    ensures
        php_version_in(a + b) == (if php_version_in(a) is Some { php_version_in(a) } else { php_version_in(b) }),
    decreases a.len(),
{
    if a.len() == 0 {
        assert(a + b =~= b);
    } else {
        assert((a + b).drop_first() =~= a.drop_first() + b);
        assert((a + b)[0] == a[0]);
        lemma_php_version_concat(a.drop_first(), b);
    }
}

/// Plain lines give the readers nothing.
pub proof fn lemma_plain_lines_read_nothing(ls: Seq<Seq<char>>)
    requires
        all_plain(ls),
    ensures
        server_names_in(ls) == Seq::<Seq<char>>::empty(),
        roots_in(ls) == Seq::<Seq<char>>::empty(),
        socket_in(ls) is None,
        php_version_in(ls) is None,
    decreases ls.len(),
{
    if ls.len() > 0 {
        let rest = ls.drop_first();
        assert forall|i: int| 0 <= i < rest.len() implies is_plain_line(#[trigger] rest[i]) by {
            assert(rest[i] == ls[i + 1]);
        }
        assert(is_plain_line(ls[0]));
        lemma_plain_lines_read_nothing(rest);
        assert(server_names_in(ls) =~= Seq::<Seq<char>>::empty());
        assert(roots_in(ls) =~= Seq::<Seq<char>>::empty());
    }
}

/// Trimming a line whose last character is not whitespace drops exactly
/// its leading whitespace, which ends at `i`.
pub proof fn lemma_trim_from(l: Seq<char>, i: int)
    requires
        0 <= i < l.len(),
        forall|k: int| 0 <= k < i ==> is_ws(#[trigger] l[k]),
        !is_ws(l[i]),
        !is_ws(l.last()),
    ensures
        trim(l) == l.skip(i),
{
    lemma_trim_start_at(l, i);
    let t = l.skip(i);
    assert(t.last() == l.last());
}

/// `t` does not start with `p` when they differ at `j`.
pub proof fn lemma_not_prefix(t: Seq<char>, p: Seq<char>, j: int)
    requires
        0 <= j < p.len(),
        j >= t.len() || t[j] != p[j],
    ensures
        !starts_with(t, p),
{
    if starts_with(t, p) {
        assert(t.take(p.len() as int)[j] == t[j]);
    }
}

/// A line with no newline, not ending in a carriage return, whose trimmed
/// text begins at `i` with a character other than `s`, `r` and `f`.
proof fn lemma_plain_by_first(l: Seq<char>, i: int)
    requires
        0 <= i < l.len(),
        forall|k: int| 0 <= k < i ==> is_ws(#[trigger] l[k]),
        !is_ws(l[i]),
        !is_ws(l.last()),
        l.last() != '\r',
        no_newline(l),
        l[i] != 's' && l[i] != 'r' && l[i] != 'f',
    ensures
        is_plain_line(l),
{
    reveal_strlit("server_name");
    reveal_strlit("root ");
    reveal_strlit("fastcgi_pass");
    lemma_trim_from(l, i);
    let t = l.skip(i);
    assert(t[0] == l[i]);
    lemma_not_prefix(t, "server_name"@, 0);
    lemma_not_prefix(t, "root "@, 0);
    lemma_not_prefix(t, "fastcgi_pass"@, 0);
}

/// The empty line is plain.
proof fn lemma_empty_plain()
    ensures
        is_plain_line(""@),
{
    reveal_strlit("");
    reveal_strlit("server_name");
    reveal_strlit("root ");
    reveal_strlit("fastcgi_pass");
    assert(trim(""@) =~= ""@);
}

/// The fixed lines in the middle of a generated vhost are plain.
pub proof fn lemma_middle_lines_plain()
    ensures
        all_plain(vhost_middle_lines()),
{
    let ls = vhost_middle_lines();
    lemma_empty_plain();
    let l1 = "    add_header X-Content-Type-Options \"nosniff\";"@;
    reveal_strlit("    add_header X-Content-Type-Options \"nosniff\";");
    lemma_plain_by_first(l1, 4);
    let l2 = "    add_header X-Frame-Options \"SAMEORIGIN\";"@;
    reveal_strlit("    add_header X-Frame-Options \"SAMEORIGIN\";");
    lemma_plain_by_first(l2, 4);
    let l4 = "    index index.php;"@;
    reveal_strlit("    index index.php;");
    lemma_plain_by_first(l4, 4);
    let l5 = "    charset utf-8;"@;
    reveal_strlit("    charset utf-8;");
    lemma_plain_by_first(l5, 4);
    let l7 = "    location / {"@;
    reveal_strlit("    location / {");
    lemma_plain_by_first(l7, 4);
    let l8 = "        try_files $uri $uri/ /index.php?$query_string;"@;
    reveal_strlit("        try_files $uri $uri/ /index.php?$query_string;");
    lemma_plain_by_first(l8, 8);
    let l9 = "    }"@;
    reveal_strlit("    }");
    lemma_plain_by_first(l9, 4);
    let l11 = "    location = /favicon.ico { access_log off; log_not_found off; }"@;
    reveal_strlit("    location = /favicon.ico { access_log off; log_not_found off; }");
    lemma_plain_by_first(l11, 4);
    let l12 = "    location = /robots.txt  { access_log off; log_not_found off; }"@;
    reveal_strlit("    location = /robots.txt  { access_log off; log_not_found off; }");
    lemma_plain_by_first(l12, 4);
    let l14 = "    error_page 404 /index.php;"@;
    reveal_strlit("    error_page 404 /index.php;");
    lemma_plain_by_first(l14, 4);
    let l16 = "    location ~ \\.php$ {"@;
    reveal_strlit("    location ~ \\.php$ {");
    lemma_plain_by_first(l16, 4);
    assert forall|i: int| 0 <= i < ls.len() implies is_plain_line(#[trigger] ls[i]) by {
    }
}

/// The fixed lines at the end of a generated vhost are plain.
pub proof fn lemma_end_lines_plain()
    ensures
        all_plain(vhost_end_lines()),
{
    let ls = vhost_end_lines();
    lemma_empty_plain();
    let l0 = "        fastcgi_param SCRIPT_FILENAME $realpath_root$fastcgi_script_name;"@;
    reveal_strlit("        fastcgi_param SCRIPT_FILENAME $realpath_root$fastcgi_script_name;");
    reveal_strlit("server_name");
    reveal_strlit("root ");
    reveal_strlit("fastcgi_pass");
    lemma_trim_from(l0, 8);
    lemma_not_prefix(l0.skip(8), "server_name"@, 0);
    lemma_not_prefix(l0.skip(8), "root "@, 0);
    lemma_not_prefix(l0.skip(8), "fastcgi_pass"@, 10);
    assert(is_plain_line(l0));
    let l1 = "        include fastcgi_params;"@;
    reveal_strlit("        include fastcgi_params;");
    lemma_plain_by_first(l1, 8);
    let l2 = "    }"@;
    reveal_strlit("    }");
    lemma_plain_by_first(l2, 4);
    let l4 = "    location ~ /\\.(?!well-known).* {"@;
    reveal_strlit("    location ~ /\\.(?!well-known).* {");
    lemma_plain_by_first(l4, 4);
    let l5 = "        deny all;"@;
    reveal_strlit("        deny all;");
    lemma_plain_by_first(l5, 8);
    let l8 = "    listen 80;"@;
    reveal_strlit("    listen 80;");
    lemma_plain_by_first(l8, 4);
    let l9 = "}"@;
    reveal_strlit("}");
    lemma_plain_by_first(l9, 0);
    assert forall|i: int| 0 <= i < ls.len() implies is_plain_line(#[trigger] ls[i]) by {
    }
}

/// The first line of a generated vhost is plain.
pub proof fn lemma_head_line_plain()
    ensures
        is_plain_line("server {"@),
{
    let l = "server {"@;
    reveal_strlit("server {");
    reveal_strlit("server_name");
    reveal_strlit("root ");
    reveal_strlit("fastcgi_pass");
    lemma_trim_from(l, 0);
    assert(l.skip(0) =~= l);
    lemma_not_prefix(l, "server_name"@, 6);
    lemma_not_prefix(l, "root "@, 0);
    lemma_not_prefix(l, "fastcgi_pass"@, 0);
}

/// What each reader takes from a single line.
pub proof fn lemma_single_line_reads(l: Seq<char>)
    ensures
        server_names_in(seq![l]) == (if starts_with(trim(l), "server_name"@) {
            server_name_line_words(trim(l))
        } else {
            Seq::<Seq<char>>::empty()
        }),
        roots_in(seq![l]) == (if starts_with(trim(l), "root "@) {
            seq![root_of_line(trim(l))]
        } else {
            Seq::<Seq<char>>::empty()
        }),
        socket_in(seq![l]) == (if is_socket_line(trim(l)) { Some(socket_of_line(trim(l))) } else { None }),
        php_version_in(seq![l]) == (if starts_with(trim(l), "fastcgi_pass"@) && php_version_from(trim(l), 0) is Some {
            php_version_from(trim(l), 0)
        } else {
            None
        }),
{
    let one = seq![l];
    let none = Seq::<Seq<char>>::empty();
    assert(one.drop_first() =~= none);
    assert(one[0] == l);
    assert(server_names_in(none) =~= none);
    assert(roots_in(none) =~= none);
    assert(socket_in(none) is None);
    assert(php_version_in(none) is None);
    assert(server_names_in(one) =~= (if starts_with(trim(l), "server_name"@) {
        server_name_line_words(trim(l))
    } else {
        Seq::<Seq<char>>::empty()
    }));
    assert(roots_in(one) =~= (if starts_with(trim(l), "root "@) {
        seq![root_of_line(trim(l))]
    } else {
        Seq::<Seq<char>>::empty()
    }));
}

/// Server names that read back as written: single words, the last one not
/// ending in `;`.
pub open spec fn names_read_back(names: Seq<Seq<char>>) -> bool {
    &&& forall|i: int| 0 <= i < names.len() ==> is_word(#[trigger] names[i])
    &&& names.len() > 0 ==> names.last().last() != ';'
}

/// The `server_name` line of a generated vhost gives back its names
/// (without `_`), and is no line of another reader.
pub proof fn lemma_server_name_line(names: Seq<Seq<char>>)
    requires
        names_read_back(names),
    ensures
        no_newline(server_name_line(names)),
        strip_cr(server_name_line(names)) == server_name_line(names),
        starts_with(trim(server_name_line(names)), "server_name"@),
        server_name_line_words(trim(server_name_line(names))) == drop_placeholder(names),
        !starts_with(trim(server_name_line(names)), "root "@),
        !starts_with(trim(server_name_line(names)), "fastcgi_pass"@),
{
    reveal_strlit("    server_name ");
    reveal_strlit(";");
    reveal_strlit(" ");
    reveal_strlit("server_name");
    reveal_strlit("root ");
    reveal_strlit("fastcgi_pass");
    let j = join(names, " "@);
    let l = server_name_line(names);
    lemma_join_no_newline(names);
    if names.len() > 0 {
        assert(names.last() == names[names.len() - 1]);
        assert(is_word(names.last()));
        lemma_join_last(names);
    } else {
        assert(j =~= Seq::<char>::empty());
    }
    assert(l =~= seq![' ', ' ', ' ', ' '] + "server_name"@ + seq![' '] + j + seq![';']);
    assert forall|k: int| 0 <= k < l.len() implies l[k] != '\n' by {
        if 16 <= k < 16 + j.len() {
            assert(l[k] == j[k - 16]);
        }
    }
    lemma_trim_from(l, 4);
    let t = l.skip(4);
    assert(t =~= "server_name"@ + seq![' '] + j + seq![';']);
    assert(t.take(11) =~= "server_name"@);
    let u = t.skip(11);
    assert(u =~= seq![' '] + j + seq![';']);
    lemma_not_prefix(u, "server_name"@, 0);
    assert(trim_start_matches(u, "server_name"@) == u);
    assert(trim_start_matches(t, "server_name"@) == u);
    assert(ends_with(u, ";"@)) by {
        assert(u.skip(u.len() - 1) =~= ";"@);
    }
    let w = u.take(u.len() - 1);
    assert(w =~= seq![' '] + j);
    assert(!ends_with(w, ";"@)) by {
        if ends_with(w, ";"@) {
            assert(w.skip(w.len() - 1)[0] == w.last());
        }
    }
    assert(trim_end_matches(w, ";"@) == w);
    assert(trim_end_matches(u, ";"@) == w);
    lemma_words_skip_ws(w);
    assert(w.drop_first() =~= j);
    lemma_words_join(names);
    lemma_not_prefix(t, "root "@, 0);
    lemma_not_prefix(t, "fastcgi_pass"@, 0);
}

/// A web root that reads back as written: no newline anywhere, and not
/// ending in whitespace or `;`.
pub open spec fn root_reads_back(primary: Seq<char>, web_root: Seq<char>) -> bool {
    &&& no_newline(primary)
    &&& no_newline(web_root)
    &&& web_root.len() > 0 ==> !is_ws(web_root.last()) && web_root.last() != ';'
}

/// The `root` line of a generated vhost gives back its web root, and is no
/// line of another reader.
pub proof fn lemma_root_line(primary: Seq<char>, web_root: Seq<char>)
    requires
        root_reads_back(primary, web_root),
    ensures
        no_newline(root_line(primary, web_root)),
        strip_cr(root_line(primary, web_root)) == root_line(primary, web_root),
        starts_with(trim(root_line(primary, web_root)), "root "@),
        root_of_line(trim(root_line(primary, web_root))) == "/var/www/"@ + primary + "/"@ + web_root,
        !starts_with(trim(root_line(primary, web_root)), "server_name"@),
        !starts_with(trim(root_line(primary, web_root)), "fastcgi_pass"@),
{
    reveal_strlit("    root /var/www/");
    reveal_strlit("/var/www/");
    reveal_strlit("/");
    reveal_strlit(";");
    reveal_strlit("server_name");
    reveal_strlit("root ");
    reveal_strlit("fastcgi_pass");
    let l = root_line(primary, web_root);
    let r = "/var/www/"@ + primary + "/"@ + web_root;
    assert(l =~= seq![' ', ' ', ' ', ' '] + "root "@ + r + seq![';']);
    assert forall|k: int| 0 <= k < l.len() implies l[k] != '\n' by {
        if 18 <= k < 18 + primary.len() {
            assert(l[k] == primary[k - 18]);
        } else if 19 + primary.len() <= k < 19 + primary.len() + web_root.len() {
            assert(l[k] == web_root[k - 19 - primary.len()]);
        }
    }
    lemma_trim_from(l, 4);
    let t = l.skip(4);
    assert(t =~= "root "@ + r + seq![';']);
    assert(t.take(5) =~= "root "@);
    let u = t.skip(5);
    assert(u =~= r + seq![';']);
    lemma_not_prefix(u, "root "@, 0);
    assert(trim_start_matches(u, "root "@) == u);
    assert(trim_start_matches(t, "root "@) == u);
    assert(ends_with(u, ";"@)) by {
        assert(u.skip(u.len() - 1) =~= ";"@);
    }
    let w = u.take(u.len() - 1);
    assert(w =~= r);
    assert(r.last() != ';' && !is_ws(r.last())) by {
        if web_root.len() == 0 {
            assert(r.last() == '/');
        } else {
            assert(r.last() == web_root.last());
        }
    }
    assert(!ends_with(w, ";"@)) by {
        if ends_with(w, ";"@) {
            assert(w.skip(w.len() - 1)[0] == w.last());
        }
    }
    assert(trim_end_matches(w, ";"@) == w);
    assert(trim_end_matches(u, ";"@) == w);
    lemma_trim_from(r, 0);
    assert(r.skip(0) =~= r);
    lemma_not_prefix(t, "server_name"@, 0);
    lemma_not_prefix(t, "fastcgi_pass"@, 0);
}

/// A socket that reads back as written from a `fastcgi_pass unix:` line:
/// it holds no newline, does not end in `;` and does not itself start with
/// `unix:`.
pub open spec fn socket_reads_back(socket: Seq<char>) -> bool {
    &&& no_newline(socket)
    &&& (socket.len() == 0 || socket.last() != ';')
    &&& !starts_with(socket, "unix:"@)
}

/// The trimmed text of a `fastcgi_pass` line gives back its socket.
pub proof fn lemma_socket_text(socket: Seq<char>)
    requires
        socket_reads_back(socket),
    ensures
        is_socket_line("fastcgi_pass unix:"@ + socket + ";"@),
        socket_of_line("fastcgi_pass unix:"@ + socket + ";"@) == socket,
        !starts_with("fastcgi_pass unix:"@ + socket + ";"@, "server_name"@),
        !starts_with("fastcgi_pass unix:"@ + socket + ";"@, "root "@),
        no_newline("fastcgi_pass unix:"@ + socket + ";"@),
{
    reveal_strlit("fastcgi_pass unix:");
    reveal_strlit(";");
    reveal_strlit("server_name");
    reveal_strlit("root ");
    reveal_strlit("fastcgi_pass");
    reveal_strlit("unix:");
    let t = "fastcgi_pass unix:"@ + socket + ";"@;
    assert(t =~= "fastcgi_pass"@ + seq![' '] + "unix:"@ + socket + seq![';']);
    assert forall|k: int| 0 <= k < t.len() implies t[k] != '\n' by {
        if 18 <= k < 18 + socket.len() {
            assert(t[k] == socket[k - 18]);
        }
    }
    assert(t.take(12) =~= "fastcgi_pass"@);
    assert(t.subrange(13, 18) =~= "unix:"@);
    assert(occurs_at(t, "unix:"@, 13));
    let u = t.skip(12);
    assert(u =~= seq![' '] + "unix:"@ + socket + seq![';']);
    lemma_not_prefix(u, "fastcgi_pass"@, 0);
    assert(trim_start_matches(u, "fastcgi_pass"@) == u);
    assert(trim_start_matches(t, "fastcgi_pass"@) == u);
    lemma_trim_from(u, 1);
    let v = u.skip(1);
    assert(v =~= "unix:"@ + socket + seq![';']);
    assert(ends_with(v, ";"@)) by {
        assert(v.skip(v.len() - 1) =~= ";"@);
    }
    let w = v.take(v.len() - 1);
    assert(w =~= "unix:"@ + socket);
    assert(!ends_with(w, ";"@)) by {
        if ends_with(w, ";"@) {
            assert(w.skip(w.len() - 1)[0] == w.last());
        }
    }
    assert(trim_end_matches(w, ";"@) == w);
    assert(trim_end_matches(v, ";"@) == w);
    assert(w.take(5) =~= "unix:"@);
    let x = w.skip(5);
    assert(x =~= socket);
    assert(trim_start_matches(x, "unix:"@) == x);
    assert(trim_start_matches(w, "unix:"@) == x);
    lemma_not_prefix(t, "server_name"@, 0);
    lemma_not_prefix(t, "root "@, 0);
}

/// The `fastcgi_pass` line of a generated vhost gives back its socket, and
/// is no line of another reader.
pub proof fn lemma_socket_line(socket: Seq<char>)
    requires
        socket_reads_back(socket),
    ensures
        no_newline(socket_line(socket)),
        strip_cr(socket_line(socket)) == socket_line(socket),
        is_socket_line(trim(socket_line(socket))),
        socket_of_line(trim(socket_line(socket))) == socket,
        starts_with(trim(socket_line(socket)), "fastcgi_pass"@),
        trim(socket_line(socket)) == "fastcgi_pass unix:"@ + socket + ";"@,
        !starts_with(trim(socket_line(socket)), "server_name"@),
        !starts_with(trim(socket_line(socket)), "root "@),
{
    reveal_strlit("        fastcgi_pass unix:");
    reveal_strlit("fastcgi_pass unix:");
    reveal_strlit(";");
    reveal_strlit("fastcgi_pass");
    let l = socket_line(socket);
    let t = "fastcgi_pass unix:"@ + socket + ";"@;
    lemma_socket_text(socket);
    assert(l =~= seq![' ', ' ', ' ', ' ', ' ', ' ', ' ', ' '] + t);
    assert forall|k: int| 0 <= k < l.len() implies l[k] != '\n' by {
        if 8 <= k {
            assert(l[k] == t[k - 8]);
        }
    }
    lemma_trim_from(l, 8);
    assert(l.skip(8) =~= t);
    assert(t.take(12) =~= "fastcgi_pass"@);
}

/// The per-site socket reads back when the PHP version and the site's user
/// name hold no newline.
pub proof fn lemma_site_socket_reads_back(primary: Seq<char>, php: Seq<char>)
    requires
        no_newline(php),
        no_newline(spec_domain_to_user(primary)),
    ensures
        socket_reads_back(spec_fpm_socket_path(primary, php)),
{
    reveal_strlit("/run/php/php");
    reveal_strlit("-fpm-");
    reveal_strlit(".sock");
    let user = spec_domain_to_user(primary);
    let s = spec_fpm_socket_path(primary, php);
    assert(s =~= "/run/php/php"@ + php + "-fpm-"@ + user + ".sock"@);
    assert(s[0] == '/');
    assert(s.last() == 'k');
    reveal_strlit("unix:");
    lemma_not_prefix(s, "unix:"@, 0);
    assert forall|k: int| 0 <= k < s.len() implies s[k] != '\n' by {
        if 12 <= k < 12 + php.len() {
            assert(s[k] == php[k - 12]);
        } else if 17 + php.len() <= k < 17 + php.len() + user.len() {
            assert(s[k] == user[k - 17 - php.len()]);
        }
    }
}

/// Inputs for which a generated vhost reads back as written: the server
/// names are single words (the last one not ending in `;`), the directory
/// and web root hold no newline and the web root does not end in
/// whitespace or `;`, and the PHP version and the site's user name hold no
/// newline.
pub open spec fn vhost_reads_back(names: Seq<Seq<char>>, primary: Seq<char>, php: Seq<char>, web_root: Seq<char>) -> bool {
    &&& names_read_back(names)
    &&& root_reads_back(primary, web_root)
    &&& no_newline(php)
    &&& no_newline(spec_domain_to_user(primary))
}

/// The lines of a generated vhost, and what each reader finds in them.
proof fn lemma_vhost_line_reads(names: Seq<Seq<char>>, primary: Seq<char>, php: Seq<char>, web_root: Seq<char>)
    requires
        vhost_reads_back(names, primary, php, web_root),
    ensures
        lines(spec_vhost_config(names, primary, php, web_root)) == vhost_lines(names, primary, php, web_root),
        server_names_in(vhost_lines(names, primary, php, web_root)) == drop_placeholder(names),
        roots_in(vhost_lines(names, primary, php, web_root)) == seq!["/var/www/"@ + primary + "/"@ + web_root],
        socket_in(vhost_lines(names, primary, php, web_root)) == Some(spec_fpm_socket_path(primary, php)),
        php_version_in(vhost_lines(names, primary, php, web_root))
            == php_version_in(seq![socket_line(spec_fpm_socket_path(primary, php))]),
{
    let sock = spec_fpm_socket_path(primary, php);
    let h = "server {"@;
    let sn = server_name_line(names);
    let rl = root_line(primary, web_root);
    let sl = socket_line(sock);
    let mid = vhost_middle_lines();
    let end = vhost_end_lines();
    let ls = vhost_lines(names, primary, php, web_root);
    lemma_head_line_plain();
    lemma_middle_lines_plain();
    lemma_end_lines_plain();
    lemma_server_name_line(names);
    lemma_root_line(primary, web_root);
    lemma_site_socket_reads_back(primary, php);
    lemma_socket_line(sock);
    assert(ls =~= seq![h] + seq![sn] + seq![rl] + mid + seq![sl] + end);
    assert forall|i: int| 0 <= i < ls.len() implies no_newline(#[trigger] ls[i]) && strip_cr(ls[i]) == ls[i] by {
        if 3 <= i < 20 {
            assert(ls[i] == mid[i - 3]);
            assert(is_plain_line(mid[i - 3]));
        } else if 21 <= i {
            assert(ls[i] == end[i - 21]);
            assert(is_plain_line(end[i - 21]));
        }
    }
    lemma_lines_terminated(ls);
    lemma_single_line_reads(h);
    lemma_single_line_reads(sn);
    lemma_single_line_reads(rl);
    lemma_single_line_reads(sl);
    lemma_plain_lines_read_nothing(mid);
    lemma_plain_lines_read_nothing(end);
    let a1 = seq![h] + seq![sn];
    let a2 = a1 + seq![rl];
    let a3 = a2 + mid;
    let a4 = a3 + seq![sl];
    lemma_server_names_concat(seq![h], seq![sn]);
    lemma_server_names_concat(a1, seq![rl]);
    lemma_server_names_concat(a2, mid);
    lemma_server_names_concat(a3, seq![sl]);
    lemma_server_names_concat(a4, end);
    assert(server_names_in(ls) =~= drop_placeholder(names));
    lemma_roots_concat(seq![h], seq![sn]);
    lemma_roots_concat(a1, seq![rl]);
    lemma_roots_concat(a2, mid);
    lemma_roots_concat(a3, seq![sl]);
    lemma_roots_concat(a4, end);
    assert(roots_in(ls) =~= seq!["/var/www/"@ + primary + "/"@ + web_root]);
    reveal_strlit("fastcgi_pass");
    assert(!is_socket_line(trim(h)));
    lemma_socket_concat(seq![h], seq![sn]);
    lemma_socket_concat(a1, seq![rl]);
    lemma_socket_concat(a2, mid);
    lemma_socket_concat(a3, seq![sl]);
    lemma_socket_concat(a4, end);
    lemma_php_version_concat(seq![h], seq![sn]);
    lemma_php_version_concat(a1, seq![rl]);
    lemma_php_version_concat(a2, mid);
    lemma_php_version_concat(a3, seq![sl]);
    lemma_php_version_concat(a4, end);
}

/// The `root` line of a generated vhost, whatever its web root, is no
/// `server_name` or `fastcgi_pass` line and splits as one line.
pub proof fn lemma_root_line_plain(primary: Seq<char>, web_root: Seq<char>)
    requires
        no_newline(primary),
        no_newline(web_root),
    ensures
        no_newline(root_line(primary, web_root)),
        strip_cr(root_line(primary, web_root)) == root_line(primary, web_root),
        !starts_with(trim(root_line(primary, web_root)), "server_name"@),
        !starts_with(trim(root_line(primary, web_root)), "fastcgi_pass"@),
{
    reveal_strlit("    root /var/www/");
    reveal_strlit("/var/www/");
    reveal_strlit("/");
    reveal_strlit(";");
    reveal_strlit("server_name");
    reveal_strlit("fastcgi_pass");
    reveal_strlit("root ");
    let l = root_line(primary, web_root);
    let r = "/var/www/"@ + primary + "/"@ + web_root;
    assert(l =~= seq![' ', ' ', ' ', ' '] + "root "@ + r + seq![';']);
    assert forall|k: int| 0 <= k < l.len() implies l[k] != '\n' by {
        if 18 <= k < 18 + primary.len() {
            assert(l[k] == primary[k - 18]);
        } else if 19 + primary.len() <= k < 19 + primary.len() + web_root.len() {
            assert(l[k] == web_root[k - 19 - primary.len()]);
        }
    }
    lemma_trim_from(l, 4);
    let t = l.skip(4);
    assert(t[0] == 'r');
    lemma_not_prefix(t, "server_name"@, 0);
    lemma_not_prefix(t, "fastcgi_pass"@, 0);
}

/// Splitting a text that starts with a line and its newline gives that
/// line (without a final `\r`), then the lines of the rest.
proof fn lemma_lines_front(l: Seq<char>, rest: Seq<char>)
    requires
        no_newline(l),
    ensures
        lines(l + seq!['\n'] + rest) == seq![strip_cr(l)] + lines(rest),
{
    let s = l + seq!['\n'] + rest;
    assert(s[l.len() as int] == '\n');
    assert forall|k: int| 0 <= k < l.len() implies s[k] != '\n' by {
        assert(s[k] == l[k]);
    }
    lemma_index_of_at(s, '\n', l.len() as int);
    assert(s.take(l.len() as int) =~= l);
    assert(s.skip(l.len() as int + 1) =~= rest);
}

/// The server names of a vhost that this tool generated are the names it
/// was generated for, without the catch-all `_`: this holds for single-word
/// names (the last one not ending in `;`) whenever the text after the
/// `server_name` line declares no server name of its own.
pub proof fn lemma_vhost_server_names(names: Seq<Seq<char>>, primary: Seq<char>, php: Seq<char>, web_root: Seq<char>)
    requires
        names_read_back(names),
        spec_server_names(terminated(vhost_lines(names, primary, php, web_root).skip(2))) == Seq::<Seq<char>>::empty(),
    ensures
        spec_server_names(spec_vhost_config(names, primary, php, web_root)) == drop_placeholder(names),
{
    let h = "server {"@;
    let sn = server_name_line(names);
    let ls = vhost_lines(names, primary, php, web_root);
    let rest = ls.skip(2);
    lemma_head_line_plain();
    lemma_server_name_line(names);
    assert(ls[0] == h);
    assert(ls[1] == sn);
    assert(ls.drop_first().drop_first() =~= rest);
    assert(terminated(ls) == h + seq!['\n'] + terminated(ls.drop_first()));
    assert(terminated(ls.drop_first()) == sn + seq!['\n'] + terminated(rest));
    lemma_lines_front(sn, terminated(rest));
    lemma_lines_front(h, sn + seq!['\n'] + terminated(rest));
    assert(h + seq!['\n'] + (sn + seq!['\n'] + terminated(rest)) =~= terminated(ls));
    let lr = lines(terminated(rest));
    assert(lines(terminated(ls)) == seq![h] + (seq![sn] + lr));
    lemma_single_line_reads(h);
    lemma_single_line_reads(sn);
    lemma_server_names_concat(seq![sn], lr);
    lemma_server_names_concat(seq![h], seq![sn] + lr);
    assert(server_names_in(seq![h]) =~= Seq::<Seq<char>>::empty());
    assert(server_names_in(lines(terminated(ls))) =~= drop_placeholder(names));
}

/// A generated vhost whose primary domain, site user, PHP version and web
/// root hold no newline declares no server name after its `server_name`
/// line.
pub proof fn lemma_vhost_rest_declares_no_names(names: Seq<Seq<char>>, primary: Seq<char>, php: Seq<char>, web_root: Seq<char>)
    requires
        no_newline(primary),
        no_newline(web_root),
        no_newline(php),
        no_newline(spec_domain_to_user(primary)),
    ensures
        spec_server_names(terminated(vhost_lines(names, primary, php, web_root).skip(2))) == Seq::<Seq<char>>::empty(),
{
    let sock = spec_fpm_socket_path(primary, php);
    let rl = root_line(primary, web_root);
    let sl = socket_line(sock);
    let mid = vhost_middle_lines();
    let end = vhost_end_lines();
    let rest = vhost_lines(names, primary, php, web_root).skip(2);
    lemma_middle_lines_plain();
    lemma_end_lines_plain();
    lemma_root_line_plain(primary, web_root);
    lemma_site_socket_reads_back(primary, php);
    lemma_socket_line(sock);
    assert(rest =~= seq![rl] + mid + seq![sl] + end);
    assert forall|i: int| 0 <= i < rest.len() implies no_newline(#[trigger] rest[i]) && strip_cr(rest[i]) == rest[i] by {
        if 1 <= i < 18 {
            assert(rest[i] == mid[i - 1]);
            assert(is_plain_line(mid[i - 1]));
        } else if 19 <= i {
            assert(rest[i] == end[i - 19]);
            assert(is_plain_line(end[i - 19]));
        }
    }
    lemma_lines_terminated(rest);
    lemma_single_line_reads(rl);
    lemma_single_line_reads(sl);
    lemma_plain_lines_read_nothing(mid);
    lemma_plain_lines_read_nothing(end);
    let a1 = seq![rl] + mid;
    let a2 = a1 + seq![sl];
    lemma_server_names_concat(seq![rl], mid);
    lemma_server_names_concat(a1, seq![sl]);
    lemma_server_names_concat(a2, end);
    assert(server_names_in(rest) =~= Seq::<Seq<char>>::empty());
}

/// A vhost that this tool generated reads back as written: its server
/// names (without the catch-all `_`), its one web root
/// `/var/www/<primary>/<web_root>`, and the primary domain's own FPM socket.
pub proof fn lemma_vhost_reads_back(names: Seq<Seq<char>>, primary: Seq<char>, php: Seq<char>, web_root: Seq<char>)
    requires
        vhost_reads_back(names, primary, php, web_root),
    ensures
        spec_server_names(spec_vhost_config(names, primary, php, web_root)) == drop_placeholder(names),
        spec_roots(spec_vhost_config(names, primary, php, web_root)) == seq!["/var/www/"@ + primary + "/"@ + web_root],
        spec_php_socket(spec_vhost_config(names, primary, php, web_root)) == Some(spec_fpm_socket_path(primary, php)),
{
    lemma_vhost_line_reads(names, primary, php, web_root);
}

/// The search for a `php` followed by a version moves past positions
/// `i` to `j - 1`, where there is none.
proof fn lemma_php_version_from_skip(t: Seq<char>, i: int, j: int)
    requires
        0 <= i <= j,
        j + 3 <= t.len(),
        forall|k: int| i <= k < j ==> !(#[trigger] occurs_at(t, "php"@, k) && version_run(t.skip(k + 3)) > 0),
    ensures
        php_version_from(t, i) == php_version_from(t, j),
    decreases j - i,
{
    if i < j {
        assert(!(occurs_at(t, "php"@, i) && version_run(t.skip(i + 3)) > 0));
        lemma_php_version_from_skip(t, i + 1, j);
    }
}

/// A PHP version as this tool names it: one or more digits and dots.
pub open spec fn is_php_version(php: Seq<char>) -> bool {
    php.len() > 0 && forall|k: int| 0 <= k < php.len() ==> is_version_char(#[trigger] php[k])
}

/// The PHP version of a generated vhost's socket line is the one it was
/// generated for.
proof fn lemma_socket_line_php_version(primary: Seq<char>, php: Seq<char>)
    requires
        is_php_version(php),
        no_newline(spec_domain_to_user(primary)),
    ensures
        php_version_from(trim(socket_line(spec_fpm_socket_path(primary, php))), 0) == Some(php),
{
    reveal_strlit("fastcgi_pass unix:");
    reveal_strlit("/run/php/php");
    reveal_strlit("-fpm-");
    reveal_strlit(".sock");
    reveal_strlit(";");
    reveal_strlit("php");
    let user = spec_domain_to_user(primary);
    let sock = spec_fpm_socket_path(primary, php);
    assert(no_newline(php)) by {
        assert forall|k: int| 0 <= k < php.len() implies php[k] != '\n' by {
            assert(is_version_char(php[k]));
        }
    }
    lemma_site_socket_reads_back(primary, php);
    lemma_socket_line(sock);
    let t = trim(socket_line(sock));
    let prefix = "fastcgi_pass unix:/run/php/php"@;
    reveal_strlit("fastcgi_pass unix:/run/php/php");
    let rest = "-fpm-"@ + user + ".sock"@ + ";"@;
    assert(t =~= prefix + php + rest);
    assert(prefix.len() == 30);
    assert forall|k: int| 0 <= k < 27 implies !(#[trigger] occurs_at(t, "php"@, k) && version_run(t.skip(k + 3)) > 0) by {
        if occurs_at(t, "php"@, k) {
            assert(t.subrange(k, k + 3)[0] == t[k]);
            assert(t.subrange(k, k + 3)[1] == t[k + 1]);
            assert(t.subrange(k, k + 3)[2] == t[k + 2]);
            assert(t[k] == prefix[k]);
            assert(t[k + 1] == prefix[k + 1]);
            assert(t[k + 2] == prefix[k + 2]);
            assert(k == 23);
            assert(t.skip(26)[0] == '/');
        }
    }
    lemma_php_version_from_skip(t, 0, 27);
    assert(t.subrange(27, 30) =~= "php"@);
    let after = t.skip(30);
    assert(after =~= php + rest);
    assert forall|k: int| 0 <= k < php.len() implies is_version_char(#[trigger] after[k]) by {
        assert(after[k] == php[k]);
    }
    assert(after[php.len() as int] == '-');
    lemma_version_run_at(after, php.len() as int);
    assert(after.take(php.len() as int) =~= php);
}

/// A vhost that this tool generated names the PHP version it was generated
/// for.
pub proof fn lemma_vhost_php_version(names: Seq<Seq<char>>, primary: Seq<char>, php: Seq<char>, web_root: Seq<char>)
    requires
        vhost_reads_back(names, primary, php, web_root),
        is_php_version(php),
    ensures
        spec_php_version(spec_vhost_config(names, primary, php, web_root)) == Some(php),
{
    lemma_vhost_line_reads(names, primary, php, web_root);
    let sl = socket_line(spec_fpm_socket_path(primary, php));
    lemma_site_socket_reads_back(primary, php);
    lemma_socket_line(spec_fpm_socket_path(primary, php));
    lemma_single_line_reads(sl);
    lemma_socket_line_php_version(primary, php);
}

/// No line of a text holds a newline.
pub proof fn lemma_lines_no_newline(s: Seq<char>)
    ensures
        forall|i: int| 0 <= i < lines(s).len() ==> no_newline(#[trigger] lines(s)[i]),
    decreases s.len(),
{
    if s.len() > 0 {
        lemma_index_of(s, '\n');
        let i = index_of(s, '\n');
        if i >= 0 {
            lemma_lines_no_newline(s.skip(i + 1));
            let first = strip_cr(s.take(i));
            assert forall|k: int| 0 <= k < first.len() implies first[k] != '\n' by {
                assert(first[k] == s[k]);
            }
            let ls = lines(s);
            assert forall|j: int| 0 <= j < ls.len() implies no_newline(#[trigger] ls[j]) by {
                if j > 0 {
                    assert(ls[j] == lines(s.skip(i + 1))[j - 1]);
                }
            }
        }
    }
}

/// A join of two or more pieces is the first piece, the separator, and the
/// join of the rest.
pub proof fn lemma_join_front(ps: Seq<Seq<char>>, sep: Seq<char>)
    requires
        ps.len() >= 2,
    ensures
        join(ps, sep) == ps[0] + sep + join(ps.drop_first(), sep),
    decreases ps.len(),
{
    if ps.len() == 2 {
        assert(ps.drop_last() =~= seq![ps[0]]);
        assert(ps.drop_first() =~= seq![ps[1]]);
        assert(join(seq![ps[0]], sep) == ps[0]);
        assert(join(seq![ps[1]], sep) == ps[1]);
    } else {
        let d = ps.drop_last();
        lemma_join_front(d, sep);
        assert(d.drop_first() =~= ps.drop_first().drop_last());
        assert(d[0] == ps[0]);
        assert(ps.drop_first().last() == ps.last());
        assert(join(ps, sep) =~= ps[0] + sep + join(ps.drop_first(), sep));
    }
}

/// Splitting lines joined with `\n` gives back each line: the last one as
/// it is (left out when it is empty), the others without a final `\r`.
pub proof fn lemma_lines_join(ls: Seq<Seq<char>>)
    requires
        ls.len() > 0,
        forall|i: int| 0 <= i < ls.len() ==> no_newline(#[trigger] ls[i]),
    ensures
        lines(join(ls, "\n"@)).len() == (if ls.last().len() == 0 { ls.len() - 1 } else { ls.len() as int }),
        forall|i: int| 0 <= i < lines(join(ls, "\n"@)).len() ==>
            #[trigger] lines(join(ls, "\n"@))[i] == (if i == ls.len() - 1 { ls[i] } else { strip_cr(ls[i]) }),
    decreases ls.len(),
{
    reveal_strlit("\n");
    let j = join(ls, "\n"@);
    if ls.len() == 1 {
        assert(j == ls[0]);
        if ls[0].len() > 0 {
            lemma_index_of_none(ls[0], '\n');
            assert(lines(j) =~= seq![ls[0]]);
        }
    } else {
        lemma_join_front(ls, "\n"@);
        let rest = ls.drop_first();
        assert forall|i: int| 0 <= i < rest.len() implies no_newline(#[trigger] rest[i]) by {
            assert(rest[i] == ls[i + 1]);
        }
        lemma_lines_join(rest);
        let l0 = ls[0];
        let jr = join(rest, "\n"@);
        assert(j =~= l0 + seq!['\n'] + jr);
        assert(no_newline(l0));
        assert forall|k: int| 0 <= k < l0.len() implies j[k] != '\n' by {
            assert(j[k] == l0[k]);
        }
        lemma_index_of_at(j, '\n', l0.len() as int);
        assert(j.take(l0.len() as int) =~= l0);
        assert(j.skip(l0.len() as int + 1) =~= jr);
        assert(lines(j) =~= seq![strip_cr(l0)] + lines(jr));
        assert(rest.last() == ls.last());
        let lj = lines(j);
        assert forall|i: int| 0 <= i < lj.len() implies #[trigger] lj[i] == (if i == ls.len() - 1 { ls[i] } else { strip_cr(ls[i]) }) by {
            if i > 0 {
                assert(lj[i] == lines(jr)[i - 1]);
                assert(rest[i - 1] == ls[i]);
            }
        }
    }
}

/// Dropping a final carriage return does not change the trimmed line.
pub proof fn lemma_trim_strip_cr(l: Seq<char>)
    ensures
        trim(strip_cr(l)) == trim(l),
    decreases l.len(),
{
    if l.len() > 0 && l.last() == '\r' {
        let d = l.drop_last();
        assert(is_ws(l.last()));
        if l.len() == 1 {
            assert(trim_start(l) == trim_start(l.drop_first()));
            assert(l.drop_first() =~= Seq::<char>::empty());
            assert(d =~= Seq::<char>::empty());
        } else if is_ws(l[0]) {
            lemma_trim_strip_cr(l.drop_first());
            assert(l.drop_first().last() == '\r');
            assert(strip_cr(l.drop_first()) =~= d.drop_first());
            assert(trim_start(l) == trim_start(l.drop_first()));
            assert(d[0] == l[0]);
            assert(trim_start(d) == trim_start(d.drop_first()));
        } else {
            assert(d[0] == l[0]);
            assert(trim_start(l) == l);
            assert(trim_start(d) == d);
            assert(trim_end(l) == trim_end(l.drop_last()));
        }
    }
}

/// The socket read depends only on the trimmed lines.
pub proof fn lemma_socket_in_trims(a: Seq<Seq<char>>, b: Seq<Seq<char>>)
    requires
        a.len() == b.len(),
        forall|i: int| 0 <= i < a.len() ==> trim(#[trigger] a[i]) == trim(b[i]),
    ensures
        socket_in(a) == socket_in(b),
    decreases a.len(),
{
    if a.len() > 0 {
        assert(trim(a[0]) == trim(b[0]));
        let ra = a.drop_first();
        let rb = b.drop_first();
        assert forall|i: int| 0 <= i < ra.len() implies trim(#[trigger] ra[i]) == trim(rb[i]) by {
            assert(ra[i] == a[i + 1]);
            assert(rb[i] == b[i + 1]);
        }
        lemma_socket_in_trims(ra, rb);
    }
}

/// The leading whitespace of a line is whitespace.
pub proof fn lemma_leading_ws(l: Seq<char>)
    ensures
        leading_ws(l).len() <= l.len(),
        forall|k: int| 0 <= k < leading_ws(l).len() ==> is_ws(#[trigger] l[k]),
        leading_ws(l).len() == l.len() || !is_ws(l[leading_ws(l).len() as int]),
        leading_ws(l) == l.take(leading_ws(l).len() as int),
    decreases l.len(),
{
    lemma_trim_start(l);
    if l.len() > 0 && is_ws(l[0]) {
        let t = l.drop_first();
        lemma_leading_ws(t);
        assert(trim_start(l) == trim_start(t));
        assert forall|k: int| 0 <= k < leading_ws(l).len() implies is_ws(#[trigger] l[k]) by {
            if k > 0 {
                assert(l[k] == t[k - 1]);
            }
        }
        if leading_ws(l).len() < l.len() {
            assert(l[leading_ws(l).len() as int] == t[leading_ws(t).len() as int]);
        }
    } else {
        assert(trim_start(l) == l);
    }
}

/// A rewritten socket line reads as the new socket; any other line is left
/// as it is.
pub proof fn lemma_rewrite_line(l: Seq<char>, socket: Seq<char>)
    requires
        socket_reads_back(socket),
        no_newline(l),
    ensures
        no_newline(rewrite_line(l, socket)),
        is_socket_line(trim(l)) ==> is_socket_line(trim(rewrite_line(l, socket)))
            && socket_of_line(trim(rewrite_line(l, socket))) == socket,
        !is_socket_line(trim(l)) ==> rewrite_line(l, socket) == l,
{
    if is_socket_line(trim(l)) {
        reveal_strlit("fastcgi_pass unix:");
        reveal_strlit(";");
        let lw = leading_ws(l);
        let t = "fastcgi_pass unix:"@ + socket + ";"@;
        let r = rewrite_line(l, socket);
        lemma_leading_ws(l);
        lemma_socket_text(socket);
        assert(r =~= lw + t);
        assert forall|k: int| 0 <= k < r.len() implies r[k] != '\n' by {
            if k < lw.len() {
                assert(r[k] == l[k]);
            } else {
                assert(r[k] == t[k - lw.len()]);
            }
        }
        assert forall|k: int| 0 <= k < lw.len() implies is_ws(#[trigger] r[k]) by {
            assert(r[k] == l[k]);
        }
        assert(r[lw.len() as int] == 'f');
        assert(r.last() == ';');
        lemma_trim_from(r, lw.len() as int);
        assert(r.skip(lw.len() as int) =~= t);
    }
}

/// Rewriting lines that hold a socket line gives lines whose socket is the
/// new one.
pub proof fn lemma_rewrite_lines_socket(ls: Seq<Seq<char>>, socket: Seq<char>)
    requires
        socket_reads_back(socket),
        socket_in(ls) is Some,
        forall|i: int| 0 <= i < ls.len() ==> no_newline(#[trigger] ls[i]),
    ensures
        socket_in(rewrite_lines(ls, socket)) == Some(socket),
    decreases ls.len(),
{
    let r = rewrite_lines(ls, socket);
    assert(ls.len() > 0);
    assert(no_newline(ls[0]));
    lemma_rewrite_line(ls[0], socket);
    assert(r[0] == rewrite_line(ls[0], socket));
    assert(r.drop_first() =~= rewrite_lines(ls.drop_first(), socket));
    if !is_socket_line(trim(ls[0])) {
        let rest = ls.drop_first();
        assert forall|i: int| 0 <= i < rest.len() implies no_newline(#[trigger] rest[i]) by {
            assert(rest[i] == ls[i + 1]);
        }
        lemma_rewrite_lines_socket(rest, socket);
    }
}

/// The rewritten lines of a config: none holds a newline and, when the
/// config has a socket line, they pass PHP to the new socket.
proof fn lemma_rewritten_lines(content: Seq<char>, socket: Seq<char>)
    requires
        socket_reads_back(socket),
    ensures
        forall|i: int| 0 <= i < rewrite_lines(lines(content), socket).len()
            ==> no_newline(#[trigger] rewrite_lines(lines(content), socket)[i]),
        socket_in(lines(content)) is Some ==> socket_in(rewrite_lines(lines(content), socket)) == Some(socket),
{
    let ls = lines(content);
    lemma_lines_no_newline(content);
    let rl = rewrite_lines(ls, socket);
    assert forall|i: int| 0 <= i < rl.len() implies no_newline(#[trigger] rl[i]) by {
        assert(rl[i] == rewrite_line(ls[i], socket));
        lemma_rewrite_line(ls[i], socket);
    }
    if socket_in(ls) is Some {
        lemma_rewrite_lines_socket(ls, socket);
    }
}

/// After its socket is set, a vhost config that passes PHP to a socket
/// reads back with the new socket; when nothing is written, the config
/// already passes PHP to it.
pub proof fn lemma_set_socket_reads_back(content: Seq<char>, socket: Seq<char>)
    requires
        spec_php_socket(content) is Some,
        socket_reads_back(socket),
    ensures
        spec_php_socket(rewritten_config(content, socket)) == Some(socket),
        match spec_rewrite_socket(content, socket) {
            Some(u) => spec_php_socket(u) == Some(socket),
            None => spec_php_socket(content) == Some(socket),
        },
{
    let ls = lines(content);
    let rl = rewrite_lines(ls, socket);
    lemma_rewritten_lines(content, socket);
    assert(rl.len() > 0);
    assert(rewritten_config(content, socket) =~= join(rl, "\n"@));
    lemma_lines_join(rl);
    let back = lines(join(rl, "\n"@));
    if rl.last().len() == 0 {
        let d = rl.drop_last();
        assert(rl =~= d + seq![rl.last()]);
        lemma_socket_concat(d, seq![rl.last()]);
        lemma_single_line_reads(rl.last());
        reveal_strlit("fastcgi_pass");
        assert(trim(rl.last()) =~= Seq::<char>::empty());
        assert(!is_socket_line(trim(rl.last())));
        assert forall|i: int| 0 <= i < back.len() implies trim(#[trigger] back[i]) == trim(d[i]) by {
            lemma_trim_strip_cr(rl[i]);
            assert(d[i] == rl[i]);
        }
        lemma_socket_in_trims(back, d);
    } else {
        assert forall|i: int| 0 <= i < back.len() implies trim(#[trigger] back[i]) == trim(rl[i]) by {
            lemma_trim_strip_cr(rl[i]);
        }
        lemma_socket_in_trims(back, rl);
    }
}

/// Setting the socket of a config with no line that passes PHP to a unix
/// socket leaves it alone.
pub proof fn lemma_set_socket_needs_socket_line(content: Seq<char>, socket: Seq<char>)
    requires
        spec_php_socket(content) is None,
    ensures
        spec_rewrite_socket(content, socket) is None,
{
}

/// Lines that survive being joined with `\n` and split again: none but
/// the last ends with a carriage return, and the last is not empty.
pub open spec fn lines_stable(ls: Seq<Seq<char>>) -> bool {
    &&& forall|i: int| 0 <= i < ls.len() - 1 ==> strip_cr(#[trigger] ls[i]) == ls[i]
    &&& ls.len() > 0 ==> ls.last().len() > 0
}

/// Setting the socket of a line twice is setting it once.
pub proof fn lemma_rewrite_line_twice(l: Seq<char>, socket: Seq<char>)
    requires
        socket_reads_back(socket),
        no_newline(l),
    ensures
        rewrite_line(rewrite_line(l, socket), socket) == rewrite_line(l, socket),
{
    lemma_rewrite_line(l, socket);
    if is_socket_line(trim(l)) {
        reveal_strlit("fastcgi_pass unix:");
        reveal_strlit(";");
        let lw = leading_ws(l);
        let t = "fastcgi_pass unix:"@ + socket + ";"@;
        let r = rewrite_line(l, socket);
        lemma_leading_ws(l);
        assert(r =~= lw + t);
        assert forall|k: int| 0 <= k < lw.len() implies is_ws(#[trigger] r[k]) by {
            assert(r[k] == l[k]);
        }
        assert(r[lw.len() as int] == 'f');
        lemma_trim_start_at(r, lw.len() as int);
        assert(r.skip(lw.len() as int) =~= t);
        assert(leading_ws(r) =~= lw);
    }
}

/// Setting the socket a second time changes nothing, so a second run finds
/// nothing to write; this holds when the rewritten lines survive being
/// joined and split again.
pub proof fn lemma_set_socket_twice(content: Seq<char>, socket: Seq<char>)
    requires
        socket_reads_back(socket),
        spec_php_socket(content) is Some,
        lines_stable(rewrite_lines(lines(content), socket)),
    ensures
        rewritten_config(rewritten_config(content, socket), socket) == rewritten_config(content, socket),
        spec_rewrite_socket(rewritten_config(content, socket), socket) is None,
{
    reveal_strlit("\n");
    let ls = lines(content);
    let rl = rewrite_lines(ls, socket);
    let u = rewritten_config(content, socket);
    lemma_rewritten_lines(content, socket);
    lemma_set_socket_reads_back(content, socket);
    assert(rl.len() > 0);
    assert forall|i: int| 0 <= i < rl.len() implies #[trigger] rewrite_lines(rl, socket)[i] == rl[i] by {
        assert(rl[i] == rewrite_line(ls[i], socket));
        lemma_lines_no_newline(content);
        lemma_rewrite_line_twice(ls[i], socket);
    }
    assert(rewrite_lines(rl, socket) =~= rl);
    assert(u =~= join(rl, "\n"@));
    lemma_lines_join(rl);
    assert(lines(u) =~= rl);
    assert(rewritten_config(u, socket) =~= u);
}

/// The nginx audit never lists as unserved the project directory of a
/// vhost that this tool generated for it: the vhost's web root lies in that
/// directory.
pub proof fn lemma_generated_vhost_serves_project(
    vhosts: Seq<Vhost>,
    i: int,
    names: Seq<Seq<char>>,
    primary: Seq<char>,
    php: Seq<char>,
    web_root: Seq<char>,
)
    requires
        0 <= i < vhosts.len(),
        string_views(vhosts[i].roots@) == spec_roots(spec_vhost_config(names, primary, php, web_root)),
        vhost_reads_back(names, primary, php, web_root),
        forall|k: int| 0 <= k < primary.len() ==> primary[k] != '/',
    ensures
        !is_unserved(vhosts, primary),
{
    reveal_strlit("/var/www/");
    reveal_strlit("/");
    lemma_vhost_reads_back(names, primary, php, web_root);
    let r = "/var/www/"@ + primary + "/"@ + web_root;
    assert(string_views(vhosts[i].roots@)[0] == r);
    assert(vhosts[i].roots@[0]@ == r);
    assert(r.take(9) =~= "/var/www/"@);
    let rest = r.skip(9);
    assert(rest =~= primary + seq!['/'] + web_root);
    assert forall|k: int| 0 <= k < primary.len() implies rest[k] != '/' by {
        assert(rest[k] == primary[k]);
    }
    lemma_index_of_at(rest, '/', primary.len() as int);
    assert(rest.take(primary.len() as int) =~= primary);
    assert(spec_root_project_dir(r) == Some(primary));
    assert(served_by_root(vhosts, primary));
}

} // verus!
