//! Running a command as a site's user: finding the site from the working
//! directory, and the `sudo` and ACL command lines.

use vstd::prelude::*;
use vstd::string::StringExecFns;
use crate::text::{
    chars_of, copy_range, eq_chars, find_char_from, index_of, lemma_index_of, lemma_index_of_at,
    lemma_index_of_none, string_of, string_views, views,
};
use crate::system::{invokes, Invocation};

verus! {

/// One `/`-separated segment of a path as components: empty segments and
/// `.` are none.
pub open spec fn component(seg: Seq<char>) -> Seq<Seq<char>> {
    if seg.len() == 0 || seg == "."@ { seq![] } else { seq![seg] }
}

/// The components of a path after its root (as std's `Path::components`
/// yields them on Unix): its `/`-separated segments without the empty ones
/// and `.`.
pub open spec fn path_parts(s: Seq<char>) -> Seq<Seq<char>>
    decreases s.len(),
{
    let i = index_of(s, '/');
    if i < 0 {
        component(s)
    } else {
        proof {
            lemma_index_of(s, '/');
        }
        component(s.take(i)) + path_parts(s.skip(i + 1))
    }
}

/// The components of the path `v` after its root.
fn path_parts_of(v: &Vec<char>) -> (res: Vec<Vec<char>>)
    ensures
        views(res@) == path_parts(v@),
{
    let mut out: Vec<Vec<char>> = Vec::new();
    let mut p: usize = 0;
    let n = v.len();
    let dot = chars_of(".");
    proof {
        reveal_strlit(".");
    }
    assert(v@.skip(0) =~= v@);
    assert(views(out@) + path_parts(v@) =~= path_parts(v@));
    loop
        invariant
            n == v@.len(),
            p <= n,
            dot@ == "."@,
            views(out@) + path_parts(v@.skip(p as int)) == path_parts(v@),
        ensures
            views(out@) == path_parts(v@),
        decreases n - p,
    {
        let q = find_char_from(v, '/', p);
        let ghost rest = v@.skip(p as int);
        let seg = copy_range(v, p, q);
        let keep = seg.len() > 0 && !eq_chars(&seg, &dot);
        let ghost prev = views(out@);
        assert(keep == (component(seg@) == seq![seg@])) by {
            if seg@.len() == 0 || seg@ == "."@ {
                assert(component(seg@).len() == 0);
            }
        }
        if q == n {
            proof {
                lemma_index_of_none(rest, '/');
                assert(rest =~= seg@);
            }
            if keep {
                out.push(seg);
                assert(views(out@) =~= prev + component(rest));
            } else {
                assert(views(out@) =~= prev + component(rest));
            }
            return out;
        } else {
            proof {
                lemma_index_of_at(rest, '/', q - p);
                assert(rest.take(q - p) =~= seg@);
                assert(rest.skip(q - p + 1) =~= v@.skip(q + 1));
            }
            if keep {
                out.push(seg);
                assert(views(out@) =~= prev + component(rest.take(q - p)));
            } else {
                assert(views(out@) =~= prev + component(rest.take(q - p)));
            }
            assert(views(out@) + path_parts(v@.skip(q + 1)) =~= prev + path_parts(rest));
            p = q + 1;
        }
    }
}

/// The site a working directory belongs to: the first component below
/// `/var/www` of an absolute path.
pub open spec fn spec_domain_from_cwd(cwd: Seq<char>) -> Option<Seq<char>> {
    let ps = path_parts(cwd);
    if cwd.len() > 0 && cwd[0] == '/' && ps.len() >= 3 && ps[0] == "var"@ && ps[1] == "www"@ {
        Some(ps[2])
    } else {
        None
    }
}

/// Splitting at a `/` that is the first one: the segment before it, then
/// the components of the rest.
pub proof fn lemma_path_parts_split(a: Seq<char>, b: Seq<char>)
    requires
        forall|k: int| 0 <= k < a.len() ==> a[k] != '/',
    ensures
        path_parts(a + seq!['/'] + b) == component(a) + path_parts(b),
{
    let s = a + seq!['/'] + b;
    assert forall|k: int| 0 <= k < a.len() implies s[k] != '/' by {
        assert(s[k] == a[k]);
    }
    lemma_index_of_at(s, '/', a.len() as int);
    assert(s.take(a.len() as int) =~= a);
    assert(s.skip(a.len() as int + 1) =~= b);
}

/// A single path component: not empty, not `.`, without `/`.
pub open spec fn is_component(name: Seq<char>) -> bool {
    &&& name.len() > 0
    &&& name != "."@
    &&& forall|k: int| 0 <= k < name.len() ==> name[k] != '/'
}

/// In a project's directory, or anywhere below it, the working directory
/// names that project.
pub proof fn lemma_domain_from_project_dir(domain: Seq<char>, below: Seq<char>)
    requires
        is_component(domain),
    ensures
        spec_domain_from_cwd("/var/www/"@ + domain) == Some(domain),
        spec_domain_from_cwd("/var/www/"@ + domain + "/"@ + below) == Some(domain),
{
    reveal_strlit("/var/www/");
    reveal_strlit("/");
    reveal_strlit("var");
    reveal_strlit("www");
    reveal_strlit(".");
    let e = Seq::<char>::empty();
    let var = "var"@;
    let www = "www"@;
    assert(component(e) =~= Seq::<Seq<char>>::empty());
    assert(var.len() == 3 && www.len() == 3 && "."@.len() == 1);
    assert(var != "."@);
    assert(www != "."@);
    assert(component(var) =~= seq![var]);
    assert(component(www) =~= seq![www]);
    assert(component(domain) =~= seq![domain]);
    lemma_index_of_none(domain, '/');
    assert(path_parts(domain) == component(domain));
    let c1 = "/var/www/"@ + domain;
    assert(c1 =~= e + seq!['/'] + (var + seq!['/'] + (www + seq!['/'] + domain)));
    lemma_path_parts_split(www, domain);
    lemma_path_parts_split(var, www + seq!['/'] + domain);
    lemma_path_parts_split(e, var + seq!['/'] + (www + seq!['/'] + domain));
    assert(path_parts(c1) =~= seq![var, www, domain]);
    let c2 = "/var/www/"@ + domain + "/"@ + below;
    assert(c2 =~= e + seq!['/'] + (var + seq!['/'] + (www + seq!['/'] + (domain + seq!['/'] + below))));
    lemma_path_parts_split(domain, below);
    lemma_path_parts_split(www, domain + seq!['/'] + below);
    lemma_path_parts_split(var, www + seq!['/'] + (domain + seq!['/'] + below));
    lemma_path_parts_split(e, var + seq!['/'] + (www + seq!['/'] + (domain + seq!['/'] + below)));
    assert(path_parts(c2) =~= seq![var, www, domain] + path_parts(below));
}

/// Detects the project domain from the current working directory, which
/// must be `/var/www/<domain>` or a directory below it.
pub fn domain_from_cwd(cwd: &str) -> (domain: Option<String>)
    ensures
        match domain {
            Some(d) => spec_domain_from_cwd(cwd@) == Some(d@),
            None => spec_domain_from_cwd(cwd@) is None,
        },
{
    let v = chars_of(cwd);
    if v.len() == 0 || v[0] != '/' {
        return None;
    }
    let ps = path_parts_of(&v);
    let var = chars_of("var");
    let www = chars_of("www");
    if ps.len() >= 3 && eq_chars(&ps[0], &var) && eq_chars(&ps[1], &www) {
        Some(string_of(ps[2].as_slice()))
    } else {
        None
    }
}

/// The arguments of `sudo` that run `args` as `user` with a login-like
/// environment, handing on the SSH agent socket when there is one.
pub open spec fn spec_sudo_args(user: Seq<char>, sock: Option<Seq<char>>, args: Seq<Seq<char>>) -> Seq<Seq<char>> {
    seq!["-H"@, "-u"@, user, "--"@] + (match sock {
        Some(s) => seq!["env"@, "SSH_AUTH_SOCK="@ + s],
        None => seq![],
    }) + args
}

/// The `sudo` command that runs `args` as a site's user; it shares the
/// terminal.
pub fn sudo_command(user: &str, sock: Option<&str>, args: &Vec<String>) -> (cmd: Invocation)
    ensures
        invokes(
            cmd,
            "sudo"@,
            spec_sudo_args(user@, match sock { Some(s) => Some(s@), None => None }, string_views(args@)),
            false,
        ),
{
    let mut out: Vec<String> = Vec::new();
    out.push(String::from_str("-H"));
    out.push(String::from_str("-u"));
    out.push(String::from_str(user));
    out.push(String::from_str("--"));
    match sock {
        Some(s) => {
            out.push(String::from_str("env"));
            out.push(String::from_str("SSH_AUTH_SOCK=").concat(s));
        },
        None => {},
    }
    let ghost head = string_views(out@);
    assert(head =~= seq!["-H"@, "-u"@, user@, "--"@] + (match sock {
        Some(s) => seq!["env"@, "SSH_AUTH_SOCK="@ + s@],
        None => Seq::<Seq<char>>::empty(),
    }));
    let mut i: usize = 0;
    while i < args.len()
        invariant
            i <= args@.len(),
            string_views(out@) == head + string_views(args@.take(i as int)),
        decreases args@.len() - i,
    {
        let ghost prev = string_views(out@);
        out.push(args[i].clone());
        assert(string_views(args@.take(i + 1)) =~= string_views(args@.take(i as int)).push(args@[i as int]@));
        assert(string_views(out@) =~= prev.push(args@[i as int]@));
        i += 1;
    }
    assert(args@.take(args@.len() as int) =~= args@);
    Invocation { program: String::from_str("sudo"), args: out, capture: false }
}

/// The `setfacl` command that grants `acl` on `path`; it shares the
/// terminal and its failure is ignored.
pub open spec fn is_setfacl(cmd: Invocation, acl: Seq<char>, path: Seq<char>) -> bool {
    invokes(cmd, "setfacl"@, seq!["-m"@, acl, path], false)
}

/// A `setfacl -m <acl> <path>` command.
fn setfacl(acl: String, path: &str) -> (cmd: Invocation)
    ensures
        is_setfacl(cmd, acl@, path@),
{
    let mut args: Vec<String> = Vec::new();
    args.push(String::from_str("-m"));
    args.push(acl);
    args.push(String::from_str(path));
    assert(string_views(args@) =~= seq!["-m"@, args@[1]@, path@]);
    Invocation { program: String::from_str("setfacl"), args, capture: false }
}

/// The commands that let only the site's user reach the SSH agent socket
/// `sock`: search access to its directory `parent` (when it has one), then
/// read and write access to the socket.
pub fn socket_acls(user: &str, sock: &str, parent: Option<&str>) -> (cmds: Vec<Invocation>)
    ensures
        match parent {
            Some(p) => cmds@.len() == 2 && is_setfacl(cmds@[0], "u:"@ + user@ + ":x"@, p@)
                && is_setfacl(cmds@[1], "u:"@ + user@ + ":rw"@, sock@),
            None => cmds@.len() == 1 && is_setfacl(cmds@[0], "u:"@ + user@ + ":rw"@, sock@),
        },
{
    let mut cmds: Vec<Invocation> = Vec::new();
    match parent {
        Some(p) => {
            cmds.push(setfacl(String::from_str("u:").concat(user).concat(":x"), p));
        },
        None => {},
    }
    cmds.push(setfacl(String::from_str("u:").concat(user).concat(":rw"), sock));
    cmds
}

} // verus!
