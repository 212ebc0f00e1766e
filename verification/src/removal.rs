//! Removing a project: what is looked for, when there is nothing to do,
//! and the command lines that take each part down.

use vstd::prelude::*;
use vstd::string::StringExecFns;
use crate::text::{chars_of, str_eq, string_of, string_views, words, words_of};
use crate::system::{
    domain_to_user, invokes, project_dir, fpm_pool_path, reload_fpm, spec_domain_to_user, spec_fpm_pool_path,
    spec_project_dir, Invocation,
};
use crate::nginx::{available_path, enabled_path, spec_available_path, spec_enabled_path};

verus! {

/// The certificate names a project's certificate may have been issued
/// under, in order: the domain and its `www.` form.
pub fn cert_name_candidates(domain: &str) -> (names: Vec<String>)
    ensures
        string_views(names@) == seq![domain@, "www."@ + domain@],
{
    let mut names: Vec<String> = Vec::new();
    names.push(String::from_str(domain));
    names.push(String::from_str("www.").concat(domain));
    assert(string_views(names@) =~= seq![domain@, "www."@ + domain@]);
    names
}

/// Where certbot keeps the live certificate `name`.
pub fn cert_live_path(name: &str) -> (path: String)
    ensures
        path@ == "/etc/letsencrypt/live/"@ + name@,
{
    String::from_str("/etc/letsencrypt/live/").concat(name)
}

/// What exists of a project before it is removed.
pub struct Inventory {
    /// `/var/www/<domain>` exists.
    pub dir_exists: bool,
    /// The site's system user exists.
    pub user_exists: bool,
    /// `/etc/nginx/sites-available/<domain>` exists.
    pub vhost_exists: bool,
    /// The PHP versions that have a pool file for the site.
    pub pool_versions: Vec<String>,
    /// The certificate names that certbot holds for the site.
    pub cert_names: Vec<String>,
}

impl Inventory {
    /// Nothing of the project exists, so nothing is removed.
    pub open spec fn spec_is_empty(&self) -> bool {
        !self.dir_exists && !self.user_exists && !self.vhost_exists && self.pool_versions@.len() == 0
            && self.cert_names@.len() == 0
    }

    /// Whether there is nothing to remove.
    pub fn is_empty(&self) -> (r: bool)
        ensures
            r == self.spec_is_empty(),
    {
        !self.dir_exists && !self.user_exists && !self.vhost_exists && self.pool_versions.len() == 0
            && self.cert_names.len() == 0
    }
}

/// The `i`-th version is the first of its kind in `versions`.
pub open spec fn is_first_occurrence(versions: Seq<Seq<char>>, i: int) -> bool {
    !versions.take(i).contains(versions[i])
}

/// Each PHP version is reloaded once: a later pool of a version already
/// seen is not a first occurrence, and every version has one.
pub proof fn lemma_reload_once(versions: Seq<Seq<char>>, i: int, j: int)
    requires
        0 <= i < j < versions.len(),
        versions[i] == versions[j],
    ensures
        !is_first_occurrence(versions, j),
        exists|k: int| 0 <= k <= i && versions[k] == versions[j] && #[trigger] is_first_occurrence(versions, k),
    decreases i,
{
    assert(versions.take(j)[i] == versions[i]);
    if is_first_occurrence(versions, i) {
        assert(is_first_occurrence(versions, i));
    } else {
        let w = choose|x: int| 0 <= x < i && versions.take(i)[x] == versions[i];
        assert(versions.take(i)[w] == versions[w]);
        lemma_reload_once(versions, w, j);
    }
}

/// For each pool removed, in order, whether its PHP version's service is
/// reloaded after it: only at the first pool of each version.
pub fn first_occurrences(versions: &Vec<String>) -> (first: Vec<bool>)
    ensures
        first@.len() == versions@.len(),
        forall|i: int| 0 <= i < versions@.len() ==>
            #[trigger] first@[i] == is_first_occurrence(string_views(versions@), i),
{
    let mut first: Vec<bool> = Vec::new();
    let mut i: usize = 0;
    while i < versions.len()
        invariant
            i <= versions@.len(),
            first@.len() == i,
            forall|k: int| 0 <= k < i ==>
                #[trigger] first@[k] == !string_views(versions@).take(k).contains(versions@[k]@),
        decreases versions@.len() - i,
    {
        let mut seen = false;
        let mut j: usize = 0;
        while j < i
            invariant
                i < versions@.len(),
                j <= i,
                seen == string_views(versions@).take(j as int).contains(versions@[i as int]@),
            decreases i - j,
        {
            proof {
                let t = string_views(versions@).take(j + 1);
                assert(t =~= string_views(versions@).take(j as int).push(versions@[j as int]@));
                if !seen && !(versions@[j as int]@ == versions@[i as int]@) {
                    assert forall|x: int| 0 <= x < t.len() implies t[x] != versions@[i as int]@ by {
                        if x < j {
                            assert(t[x] == string_views(versions@).take(j as int)[x]);
                        }
                    }
                }
                if versions@[j as int]@ == versions@[i as int]@ {
                    assert(t[j as int] == versions@[i as int]@);
                }
                if seen {
                    let w = choose|x: int| 0 <= x < j && string_views(versions@).take(j as int)[x] == versions@[i as int]@;
                    assert(t[w] == versions@[i as int]@);
                }
            }
            if str_eq(versions[j].as_str(), versions[i].as_str()) {
                seen = true;
            }
            j += 1;
        }
        first.push(!seen);
        i += 1;
    }
    first
}

/// The size that `du -sh` printed, for the summary: its first word, or `?`
/// when it failed or printed nothing.
pub open spec fn spec_shown_size(du_output: Option<Seq<char>>) -> Seq<char> {
    match du_output {
        Some(out) => if words(out).len() > 0 { words(out)[0] } else { "?"@ },
        None => "?"@,
    }
}

/// The size of a project directory as the removal summary shows it, from
/// the output of `du -sh` (`None` when it failed).
pub fn shown_size(du_output: Option<&str>) -> (size: String)
    ensures
        size@ == spec_shown_size(match du_output { Some(o) => Some(o@), None => None }),
{
    match du_output {
        Some(out) => {
            let ws = words_of(&chars_of(out));
            if ws.len() > 0 {
                string_of(ws[0].as_slice())
            } else {
                String::from_str("?")
            }
        },
        None => String::from_str("?"),
    }
}

/// A command of one argument list; it shares the terminal unless captured.
fn command(program: &str, args: Vec<String>, capture: bool) -> (cmd: Invocation)
    ensures
        cmd.program@ == program@,
        cmd.args == args,
        cmd.capture == capture,
{
    Invocation { program: String::from_str(program), args, capture }
}

/// The command that deletes a certbot certificate.
pub fn certbot_delete(cert_name: &str) -> (cmd: Invocation)
    ensures
        invokes(cmd, "certbot"@, seq!["delete"@, "--cert-name"@, cert_name@, "--non-interactive"@], false),
{
    let mut args: Vec<String> = Vec::new();
    args.push(String::from_str("delete"));
    args.push(String::from_str("--cert-name"));
    args.push(String::from_str(cert_name));
    args.push(String::from_str("--non-interactive"));
    assert(string_views(args@) =~= seq!["delete"@, "--cert-name"@, cert_name@, "--non-interactive"@]);
    command("certbot", args, false)
}

/// The command that takes `www-data` out of the site's group, so that
/// removing the user does not warn about members.
pub fn leave_site_group(user: &str) -> (cmd: Invocation)
    ensures
        invokes(cmd, "gpasswd"@, seq!["-d"@, "www-data"@, user@], false),
{
    let mut args: Vec<String> = Vec::new();
    args.push(String::from_str("-d"));
    args.push(String::from_str("www-data"));
    args.push(String::from_str(user));
    assert(string_views(args@) =~= seq!["-d"@, "www-data"@, user@]);
    command("gpasswd", args, false)
}

/// The command that deletes the site's user.
pub fn userdel(user: &str) -> (cmd: Invocation)
    ensures
        invokes(cmd, "userdel"@, seq![user@], false),
{
    let mut args: Vec<String> = Vec::new();
    args.push(String::from_str(user));
    assert(string_views(args@) =~= seq![user@]);
    command("userdel", args, false)
}

/// The command whose success tells that the site's group still exists.
pub fn group_lookup(user: &str) -> (cmd: Invocation)
    ensures
        invokes(cmd, "getent"@, seq!["group"@, user@], true),
{
    let mut args: Vec<String> = Vec::new();
    args.push(String::from_str("group"));
    args.push(String::from_str(user));
    assert(string_views(args@) =~= seq!["group"@, user@]);
    command("getent", args, true)
}

/// The command that deletes the site's group when it outlived the user.
pub fn groupdel(user: &str) -> (cmd: Invocation)
    ensures
        invokes(cmd, "groupdel"@, seq![user@], false),
{
    let mut args: Vec<String> = Vec::new();
    args.push(String::from_str(user));
    assert(string_views(args@) =~= seq![user@]);
    command("groupdel", args, false)
}

/// The command that measures a directory for the removal summary.
pub fn du_human(dir: &str) -> (cmd: Invocation)
    ensures
        invokes(cmd, "du"@, seq!["-sh"@, dir@], true),
{
    let mut args: Vec<String> = Vec::new();
    args.push(String::from_str("-sh"));
    args.push(String::from_str(dir));
    assert(string_views(args@) =~= seq!["-sh"@, dir@]);
    command("du", args, true)
}

/// One step of removing a project.
pub enum RemovalStep {
    /// Delete a file; a failure stops the removal.
    RemoveFile(String),
    /// Test and reload nginx; a failure stops the removal.
    ReloadNginx,
    /// Reload the PHP-FPM service of `version` with `cmd`; a failure stops
    /// the removal.
    ReloadFpm { version: String, cmd: Invocation },
    /// Delete the certificate `name` with `cmd`; a failure is only reported.
    DeleteCert { name: String, cmd: Invocation },
    /// Delete a directory and everything in it; a failure stops the removal.
    RemoveDir(String),
    /// Take `www-data` out of the site's group with the command; a failure
    /// is ignored.
    LeaveGroup(Invocation),
    /// Delete the site's user `user` with `cmd`; a failure is only reported.
    DeleteUser { user: String, cmd: Invocation },
    /// Run `lookup` and, when it succeeds, delete the site's group with
    /// `cmd`; failures are ignored.
    DeleteGroup { lookup: Invocation, cmd: Invocation },
}

/// What a removal step does, by the names and paths it acts on.
pub enum StepPlan {
    RemoveFile(Seq<char>),
    ReloadNginx,
    ReloadFpm(Seq<char>),
    DeleteCert(Seq<char>),
    RemoveDir(Seq<char>),
    LeaveGroup(Seq<char>),
    DeleteUser(Seq<char>),
    DeleteGroup(Seq<char>),
}

/// `st` is the step `p`, with the commands that carry it out.
pub open spec fn step_is(st: RemovalStep, p: StepPlan) -> bool {
    match p {
        StepPlan::RemoveFile(path) => st matches RemovalStep::RemoveFile(q) && q@ == path,
        StepPlan::ReloadNginx => st is ReloadNginx,
        StepPlan::ReloadFpm(v) => st matches RemovalStep::ReloadFpm { version, cmd } && version@ == v
            && invokes(cmd, "systemctl"@, seq!["reload"@, "php"@ + v + "-fpm"@], false),
        StepPlan::DeleteCert(n) => st matches RemovalStep::DeleteCert { name, cmd } && name@ == n
            && invokes(cmd, "certbot"@, seq!["delete"@, "--cert-name"@, n, "--non-interactive"@], false),
        StepPlan::RemoveDir(d) => st matches RemovalStep::RemoveDir(q) && q@ == d,
        StepPlan::LeaveGroup(u) => st matches RemovalStep::LeaveGroup(cmd)
            && invokes(cmd, "gpasswd"@, seq!["-d"@, "www-data"@, u], false),
        StepPlan::DeleteUser(u) => st matches RemovalStep::DeleteUser { user, cmd } && user@ == u
            && invokes(cmd, "userdel"@, seq![u], false),
        StepPlan::DeleteGroup(u) => st matches RemovalStep::DeleteGroup { lookup, cmd }
            && invokes(lookup, "getent"@, seq!["group"@, u], true) && invokes(cmd, "groupdel"@, seq![u], false),
    }
}

/// The steps `steps` are the plan `plan`, one for one.
pub open spec fn steps_follow(steps: Seq<RemovalStep>, plan: Seq<StepPlan>) -> bool {
    &&& steps.len() == plan.len()
    &&& forall|i: int| 0 <= i < steps.len() ==> #[trigger] step_is(steps[i], plan[i])
}

/// The steps for the first `n` pools of `versions`: each pool file is
/// deleted, and its PHP version's service reloaded after the first pool of
/// that version.
pub open spec fn pool_plan(domain: Seq<char>, versions: Seq<Seq<char>>, n: nat) -> Seq<StepPlan>
    decreases n,
{
    if n == 0 {
        seq![]
    } else {
        let i = n - 1;
        pool_plan(domain, versions, (n - 1) as nat) + seq![StepPlan::RemoveFile(spec_fpm_pool_path(domain, versions[i]))]
            + (if is_first_occurrence(versions, i) { seq![StepPlan::ReloadFpm(versions[i])] } else { seq![] })
    }
}

/// The removal of a project, in order: the enabled vhost link; the vhost
/// and an nginx reload; the PHP-FPM pools; the certificates; the project
/// directory; `www-data`'s membership of the site's group, the site's user
/// and its group.
pub open spec fn spec_removal_steps(domain: Seq<char>, inv: Inventory, vhost_enabled: bool) -> Seq<StepPlan> {
    let user = spec_domain_to_user(domain);
    (if vhost_enabled { seq![StepPlan::RemoveFile(spec_enabled_path(domain))] } else { seq![] })
        + (if inv.vhost_exists {
            seq![StepPlan::RemoveFile(spec_available_path(domain)), StepPlan::ReloadNginx]
        } else {
            seq![]
        })
        + pool_plan(domain, string_views(inv.pool_versions@), inv.pool_versions@.len())
        + string_views(inv.cert_names@).map_values(|n: Seq<char>| StepPlan::DeleteCert(n))
        + (if inv.dir_exists { seq![StepPlan::RemoveDir(spec_project_dir(domain))] } else { seq![] })
        + (if inv.user_exists {
            seq![StepPlan::LeaveGroup(user), StepPlan::DeleteUser(user), StepPlan::DeleteGroup(user)]
        } else {
            seq![]
        })
}

/// Each pool gives at least one step.
proof fn lemma_pool_plan_len(domain: Seq<char>, versions: Seq<Seq<char>>, n: nat)
    ensures
        pool_plan(domain, versions, n).len() >= n,
    decreases n,
{
    if n > 0 {
        lemma_pool_plan_len(domain, versions, (n - 1) as nat);
    }
}

/// The steps that remove the project `domain`, whose parts `inv` lists and
/// whose vhost is enabled when `vhost_enabled` is set. Without `yes`
/// (a dry run) or with nothing to remove, there is no step.
pub fn removal_steps(domain: &str, inv: &Inventory, vhost_enabled: bool, yes: bool) -> (steps: Vec<RemovalStep>)
    ensures
        (!yes || inv.spec_is_empty()) ==> steps@.len() == 0,
        (yes && !inv.spec_is_empty()) ==> steps_follow(steps@, spec_removal_steps(domain@, *inv, vhost_enabled)),
        (yes && !inv.spec_is_empty()) ==> steps@.len() > 0,
{
    let mut out: Vec<RemovalStep> = Vec::new();
    if !yes || inv.is_empty() {
        return out;
    }
    let user = domain_to_user(domain);
    let ghost mut plan: Seq<StepPlan> = seq![];
    if vhost_enabled {
        out.push(RemovalStep::RemoveFile(enabled_path(domain)));
        proof { plan = plan.push(StepPlan::RemoveFile(spec_enabled_path(domain@))); }
    }
    if inv.vhost_exists {
        out.push(RemovalStep::RemoveFile(available_path(domain)));
        out.push(RemovalStep::ReloadNginx);
        proof {
            plan = plan.push(StepPlan::RemoveFile(spec_available_path(domain@))).push(StepPlan::ReloadNginx);
        }
    }
    assert(steps_follow(out@, plan));
    let ghost base = plan;
    let ghost vs = string_views(inv.pool_versions@);
    let first = first_occurrences(&inv.pool_versions);
    let mut i: usize = 0;
    while i < inv.pool_versions.len()
        invariant
            i <= inv.pool_versions@.len(),
            vs == string_views(inv.pool_versions@),
            first@.len() == inv.pool_versions@.len(),
            forall|k: int| 0 <= k < inv.pool_versions@.len() ==> #[trigger] first@[k] == is_first_occurrence(vs, k),
            plan == base + pool_plan(domain@, vs, i as nat),
            steps_follow(out@, plan),
        decreases inv.pool_versions@.len() - i,
    {
        let v = inv.pool_versions[i].as_str();
        out.push(RemovalStep::RemoveFile(fpm_pool_path(domain, v)));
        proof { plan = plan.push(StepPlan::RemoveFile(spec_fpm_pool_path(domain@, vs[i as int]))); }
        if first[i] {
            out.push(RemovalStep::ReloadFpm { version: String::from_str(v), cmd: reload_fpm(v) });
            proof { plan = plan.push(StepPlan::ReloadFpm(vs[i as int])); }
        }
        proof {
            let ghost pp = pool_plan(domain@, vs, (i + 1) as nat);
            assert(pp == pool_plan(domain@, vs, i as nat) + seq![StepPlan::RemoveFile(spec_fpm_pool_path(domain@, vs[i as int]))]
                + (if is_first_occurrence(vs, i as int) { seq![StepPlan::ReloadFpm(vs[i as int])] } else { seq![] }));
            assert(plan =~= base + pp);
        }
        i += 1;
    }
    let ghost base2 = plan;
    let ghost cs = string_views(inv.cert_names@).map_values(|n: Seq<char>| StepPlan::DeleteCert(n));
    let mut j: usize = 0;
    while j < inv.cert_names.len()
        invariant
            j <= inv.cert_names@.len(),
            cs == string_views(inv.cert_names@).map_values(|n: Seq<char>| StepPlan::DeleteCert(n)),
            plan == base2 + cs.take(j as int),
            steps_follow(out@, plan),
        decreases inv.cert_names@.len() - j,
    {
        let n = inv.cert_names[j].as_str();
        out.push(RemovalStep::DeleteCert { name: String::from_str(n), cmd: certbot_delete(n) });
        proof {
            plan = plan.push(StepPlan::DeleteCert(n@));
            assert(cs[j as int] == StepPlan::DeleteCert(n@));
            assert(cs.take(j + 1) =~= cs.take(j as int).push(cs[j as int]));
        }
        j += 1;
    }
    assert(cs.take(inv.cert_names@.len() as int) =~= cs);
    if inv.dir_exists {
        out.push(RemovalStep::RemoveDir(project_dir(domain)));
        proof { plan = plan.push(StepPlan::RemoveDir(spec_project_dir(domain@))); }
    }
    if inv.user_exists {
        out.push(RemovalStep::LeaveGroup(leave_site_group(user.as_str())));
        out.push(RemovalStep::DeleteUser { user: user.clone(), cmd: userdel(user.as_str()) });
        out.push(RemovalStep::DeleteGroup { lookup: group_lookup(user.as_str()), cmd: groupdel(user.as_str()) });
        proof {
            plan = plan.push(StepPlan::LeaveGroup(user@)).push(StepPlan::DeleteUser(user@)).push(StepPlan::DeleteGroup(user@));
        }
    }
    proof {
        assert(plan =~= spec_removal_steps(domain@, *inv, vhost_enabled));
        lemma_pool_plan_len(domain@, vs, inv.pool_versions@.len() as nat);
    }
    out
}

} // verus!
