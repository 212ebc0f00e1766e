//! Provisioning a project from a Git repository: its names and paths, and
//! the `git` and `certbot` command lines.

use vstd::prelude::*;
use vstd::string::StringExecFns;
use crate::text::string_views;
use crate::system::{
    domain_to_user, fpm_pool_path, invokes, spec_domain_to_user, spec_fpm_pool_path, spec_useradd_args, useradd,
    Invocation,
};
use crate::project::chown_recursive;

verus! {

/// The SSH clone URL of a GitHub repository `owner/name`.
pub open spec fn spec_git_url(repo: Seq<char>) -> Seq<char> {
    "git@github.com:"@ + repo + ".git"@
}

/// What provisioning a project creates, all named after its first domain.
pub struct InitPlan {
    /// The first domain, which names the directory, user, pool and vhost.
    pub primary: String,
    /// The site's system user.
    pub user: String,
    /// `/var/www/<primary>`
    pub dir: String,
    /// The repository's clone URL.
    pub git_url: String,
    /// `<dir>/.git`, present once the repository is cloned.
    pub git_dir: String,
    /// The site's PHP-FPM pool file.
    pub pool_path: String,
    /// `/etc/nginx/sites-available/<primary>`
    pub vhost_path: String,
    /// The web root of the vhost: the repository's `public` directory.
    pub web_root: String,
}

/// `plan` provisions `repo` for `domains` (the first being the primary)
/// with PHP version `php`.
pub open spec fn is_init_plan(plan: InitPlan, repo: Seq<char>, domains: Seq<Seq<char>>, php: Seq<char>) -> bool {
    let primary = domains[0];
    &&& plan.primary@ == primary
    &&& plan.user@ == spec_domain_to_user(primary)
    &&& plan.dir@ == "/var/www/"@ + primary
    &&& plan.git_url@ == spec_git_url(repo)
    &&& plan.git_dir@ == "/var/www/"@ + primary + "/.git"@
    &&& plan.pool_path@ == spec_fpm_pool_path(primary, php)
    &&& plan.vhost_path@ == "/etc/nginx/sites-available/"@ + primary
    &&& plan.web_root@ == "public"@
}

/// Names what provisioning `repo` for `domains` creates; `None` when no
/// domain is given (at least one is required).
pub fn plan_init(repo: &str, domains: &Vec<String>, php: &str) -> (plan: Option<InitPlan>)
    ensures
        match plan {
            Some(p) => domains@.len() > 0 && is_init_plan(p, repo@, string_views(domains@), php@),
            None => domains@.len() == 0,
        },
{
    if domains.len() == 0 {
        return None;
    }
    let primary = domains[0].clone();
    let user = domain_to_user(primary.as_str());
    let dir = String::from_str("/var/www/").concat(primary.as_str());
    let git_url = String::from_str("git@github.com:").concat(repo).concat(".git");
    let git_dir = dir.clone().concat("/.git");
    let pool_path = fpm_pool_path(primary.as_str(), php);
    let vhost_path = String::from_str("/etc/nginx/sites-available/").concat(primary.as_str());
    assert(string_views(domains@)[0] == domains@[0]@);
    let web_root = String::from_str("public");
    Some(InitPlan { primary, user, dir, git_url, git_dir, pool_path, vhost_path, web_root })
}

/// The arguments of `git` that clone `git_url` into `dir`, on `branch`
/// when one is given.
pub open spec fn spec_clone_args(branch: Option<Seq<char>>, git_url: Seq<char>, dir: Seq<char>) -> Seq<Seq<char>> {
    seq!["clone"@] + (match branch {
        Some(b) => seq!["--branch"@, b],
        None => seq![],
    }) + seq![git_url, dir]
}

/// The `git clone` command of a new project; it shares the terminal.
pub fn clone_command(branch: Option<&str>, git_url: &str, dir: &str) -> (cmd: Invocation)
    ensures
        invokes(cmd, "git"@, spec_clone_args(match branch { Some(b) => Some(b@), None => None }, git_url@, dir@), false),
{
    let mut args: Vec<String> = Vec::new();
    args.push(String::from_str("clone"));
    match branch {
        Some(b) => {
            args.push(String::from_str("--branch"));
            args.push(String::from_str(b));
        },
        None => {},
    }
    args.push(String::from_str(git_url));
    args.push(String::from_str(dir));
    assert(string_views(args@) =~= spec_clone_args(match branch { Some(b) => Some(b@), None => None }, git_url@, dir@));
    Invocation { program: String::from_str("git"), args, capture: false }
}

/// The `git pull` command for a project that is already cloned; it shares
/// the terminal.
pub fn pull_command(dir: &str) -> (cmd: Invocation)
    ensures
        invokes(cmd, "git"@, seq!["-C"@, dir@, "pull"@], false),
{
    let mut args: Vec<String> = Vec::new();
    args.push(String::from_str("-C"));
    args.push(String::from_str(dir));
    args.push(String::from_str("pull"));
    assert(string_views(args@) =~= seq!["-C"@, dir@, "pull"@]);
    Invocation { program: String::from_str("git"), args, capture: false }
}

/// `-d <name>` for each name, in order.
pub open spec fn domain_flags(names: Seq<Seq<char>>) -> Seq<Seq<char>>
    decreases names.len(),
{
    if names.len() == 0 {
        seq![]
    } else {
        domain_flags(names.drop_last()) + seq!["-d"@, names.last()]
    }
}

/// The arguments of `certbot` that issue one certificate for `names`
/// through the nginx plugin, without questions.
pub open spec fn spec_certbot_args(names: Seq<Seq<char>>) -> Seq<Seq<char>> {
    seq!["--nginx"@, "--non-interactive"@, "--agree-tos"@] + domain_flags(names)
}

/// The `certbot` command that issues a certificate covering `names`; it
/// shares the terminal.
pub fn certbot_issue(names: &Vec<String>) -> (cmd: Invocation)
    ensures
        invokes(cmd, "certbot"@, spec_certbot_args(string_views(names@)), false),
{
    let mut args: Vec<String> = Vec::new();
    args.push(String::from_str("--nginx"));
    args.push(String::from_str("--non-interactive"));
    args.push(String::from_str("--agree-tos"));
    let ghost head = string_views(args@);
    assert(head =~= seq!["--nginx"@, "--non-interactive"@, "--agree-tos"@]);
    let mut i: usize = 0;
    while i < names.len()
        invariant
            i <= names@.len(),
            string_views(args@) == head + domain_flags(string_views(names@.take(i as int))),
        decreases names@.len() - i,
    {
        let ghost prev = string_views(args@);
        args.push(String::from_str("-d"));
        args.push(names[i].clone());
        proof {
            let t1 = string_views(names@.take(i + 1));
            assert(t1.drop_last() =~= string_views(names@.take(i as int)));
            assert(t1.last() == names@[i as int]@);
            assert(string_views(args@) =~= prev + seq!["-d"@, names@[i as int]@]);
            assert(head + domain_flags(t1) =~= head + domain_flags(t1.drop_last()) + seq!["-d"@, t1.last()]);
        }
        i += 1;
    }
    assert(names@.take(names@.len() as int) =~= names@);
    Invocation { program: String::from_str("certbot"), args, capture: false }
}

/// How far provisioning has come. Stages: 0 decide on the DNS check, 1 its
/// outcome, 2 the site user, 3 the repository, 4 ownership and mode, 5 the
/// PHP-FPM pool, 6 the nginx vhost, 7 the permission repair, 8 the
/// certificate; 9 is the end, also after a failed DNS check.
pub struct InitState {
    /// The next step.
    pub stage: usize,
}

impl InitState {
    /// The stage is one of those above.
    pub open spec fn wf(&self) -> bool {
        self.stage <= 9
    }
}

/// What provisioning found out before its current step.
pub enum InitEvent {
    /// Provisioning starts (stage 0).
    Begin,
    /// Whether every domain points to this server (stage 1).
    DnsChecked(bool),
    /// Whether the site user exists (stage 2).
    UserExists(bool),
    /// Whether the project directory holds a `.git` directory (stage 3).
    GitDirExists(bool),
    /// The site's PHP-FPM pool file exists (stage 5).
    PoolExists(bool),
    /// The site's nginx vhost exists (stage 6).
    VhostExists(bool),
    /// The previous step is done (stages 4, 7 and 8).
    Ready,
}

/// What a step of provisioning does. Except for the certificate, a failure
/// ends provisioning with that error.
pub enum InitAction {
    /// Check that every domain points to this server.
    CheckDns,
    /// Stop: a domain does not point to this server.
    Abort,
    /// Create the site user with the command.
    CreateUser(Invocation),
    /// Bring the existing clone up to date with the command.
    Pull(Invocation),
    /// Remove the project directory if it is empty, then clone with the
    /// command.
    Clone(Invocation),
    /// Give the tree to the site user with the command, then set the
    /// project directory's permissions to `750`.
    Own(Invocation),
    /// Create the site's PHP-FPM pool.
    AddPool,
    /// Create the nginx vhost for all domains and enable it.
    AddVhost,
    /// Repair the project's ownership and permissions.
    Fix,
    /// Issue a certificate with the command; a failure is only reported.
    IssueCert(Invocation),
}

/// The event is the one the step `stage` waits for.
pub open spec fn init_accepts(stage: usize, ev: InitEvent) -> bool {
    match ev {
        InitEvent::Begin => stage == 0,
        InitEvent::DnsChecked(_) => stage == 1,
        InitEvent::UserExists(_) => stage == 2,
        InitEvent::GitDirExists(_) => stage == 3,
        InitEvent::PoolExists(_) => stage == 5,
        InitEvent::VhostExists(_) => stage == 6,
        InitEvent::Ready => stage == 4 || stage == 7 || stage == 8,
    }
}

/// The stage after step `stage` on `ev`: the DNS check is left out when
/// `skip_dns` is set, and a failed one ends provisioning.
pub open spec fn init_next(stage: usize, ev: InitEvent, skip_dns: bool) -> usize {
    if stage == 0 {
        if skip_dns { 2 } else { 1 }
    } else if stage == 1 {
        if ev matches InitEvent::DnsChecked(ok) && ok { 2 } else { 9 }
    } else {
        (stage + 1) as usize
    }
}

/// `a` is what step `stage` does on `ev`, for the plan `plan`, the domains
/// `domains` and the branch `branch`.
pub open spec fn init_action_is(
    a: Option<InitAction>,
    stage: usize,
    ev: InitEvent,
    plan: InitPlan,
    domains: Seq<Seq<char>>,
    branch: Option<Seq<char>>,
    skip_dns: bool,
    no_ssl: bool,
) -> bool {
    if stage == 0 {
        if skip_dns { a is None } else { a matches Some(InitAction::CheckDns) }
    } else if stage == 1 {
        if ev matches InitEvent::DnsChecked(ok) && ok { a is None } else { a matches Some(InitAction::Abort) }
    } else if stage == 2 {
        if ev matches InitEvent::UserExists(e) && e {
            a is None
        } else {
            a matches Some(InitAction::CreateUser(c)) && invokes(c, "useradd"@, spec_useradd_args(plan.dir@, plan.user@), true)
        }
    } else if stage == 3 {
        if ev matches InitEvent::GitDirExists(g) && g {
            a matches Some(InitAction::Pull(c)) && invokes(c, "git"@, seq!["-C"@, plan.dir@, "pull"@], false)
        } else {
            a matches Some(InitAction::Clone(c)) && invokes(c, "git"@, spec_clone_args(branch, plan.git_url@, plan.dir@), false)
        }
    } else if stage == 4 {
        a matches Some(InitAction::Own(c))
            && invokes(c, "chown"@, seq!["-R"@, plan.user@ + ":"@ + plan.user@, plan.dir@], true)
    } else if stage == 5 {
        if ev matches InitEvent::PoolExists(e) && e { a is None } else { a matches Some(InitAction::AddPool) }
    } else if stage == 6 {
        if ev matches InitEvent::VhostExists(e) && e { a is None } else { a matches Some(InitAction::AddVhost) }
    } else if stage == 7 {
        a matches Some(InitAction::Fix)
    } else {
        if no_ssl {
            a is None
        } else {
            a matches Some(InitAction::IssueCert(c)) && invokes(c, "certbot"@, spec_certbot_args(domains), false)
        }
    }
}

/// With the DNS check skipped, provisioning never stops on DNS: from any
/// stage but the one that waits for the check's outcome, a step leads to
/// another such stage and does not abort.
pub proof fn lemma_skipped_dns_never_aborts(
    st: InitState,
    ev: InitEvent,
    plan: InitPlan,
    domains: Seq<Seq<char>>,
    branch: Option<Seq<char>>,
    no_ssl: bool,
    a: Option<InitAction>,
)
    requires
        st.wf(),
        st.stage != 1,
        init_accepts(st.stage, ev),
        init_action_is(a, st.stage, ev, plan, domains, branch, true, no_ssl),
    ensures
        init_next(st.stage, ev, true) != 1,
        !(a matches Some(InitAction::Abort)),
{
}

/// Unless `no_ssl` is set, the certificate step requests a certificate for
/// every domain, whether or not the DNS check was skipped: `skip_dns` only
/// leaves out the check.
pub proof fn lemma_certificate_unless_no_ssl(
    plan: InitPlan,
    domains: Seq<Seq<char>>,
    branch: Option<Seq<char>>,
    skip_dns: bool,
    a: Option<InitAction>,
)
    requires
        init_action_is(a, 8, InitEvent::Ready, plan, domains, branch, skip_dns, false),
    ensures
        match a {
            Some(InitAction::IssueCert(c)) => {
                &&& c.program@ == "certbot"@
                &&& string_views(c.args@).len() == 3 + 2 * domains.len()
                &&& string_views(c.args@).take(3) == seq!["--nginx"@, "--non-interactive"@, "--agree-tos"@]
                &&& forall|k: int| 0 <= k < domains.len() ==> #[trigger] string_views(c.args@)[3 + 2 * k] == "-d"@
                &&& forall|k: int| 0 <= k < domains.len() ==> string_views(c.args@)[4 + 2 * k] == #[trigger] domains[k]
            },
            _ => false,
        },
{
    lemma_certbot_args_shape(domains);
}

/// The `certbot` arguments for `names`: the three fixed flags, then `-d`
/// and each name in turn.
pub proof fn lemma_certbot_args_shape(names: Seq<Seq<char>>)
    ensures
        spec_certbot_args(names).len() == 3 + 2 * names.len(),
        spec_certbot_args(names).take(3) == seq!["--nginx"@, "--non-interactive"@, "--agree-tos"@],
        forall|k: int| 0 <= k < names.len() ==> spec_certbot_args(names)[4 + 2 * k] == #[trigger] names[k],
        forall|k: int| 0 <= k < names.len() ==> #[trigger] spec_certbot_args(names)[3 + 2 * k] == "-d"@,
{
    lemma_domain_flags_len(names);
    let head = seq!["--nginx"@, "--non-interactive"@, "--agree-tos"@];
    let args = spec_certbot_args(names);
    assert(args.take(3) =~= head);
    let flags = domain_flags(names);
    assert(args == head + flags);
    assert forall|k: int| 0 <= k < names.len() implies #[trigger] args[3 + 2 * k] == "-d"@ by {
        lemma_domain_flags_at(names, k);
        let i = 2 * k;
        assert(args[3 + i] == flags[i]);
    }
    assert forall|k: int| 0 <= k < names.len() implies args[4 + 2 * k] == #[trigger] names[k] by {
        lemma_domain_flags_at(names, k);
        let i = 2 * k;
        assert(0 <= i && i + 1 < flags.len());
        assert(args[3 + i] == flags[i]);
        assert(args[3 + i + 1] == flags[i + 1]);
    }
}

/// `-d` and a name, for each name in turn: two flags per name.
pub proof fn lemma_domain_flags_len(names: Seq<Seq<char>>)
    ensures
        domain_flags(names).len() == 2 * names.len(),
    decreases names.len(),
{
    if names.len() > 0 {
        lemma_domain_flags_len(names.drop_last());
    }
}

/// The flags of the `k`-th name: `-d`, then the name.
pub proof fn lemma_domain_flags_at(names: Seq<Seq<char>>, k: int)
    requires
        0 <= k < names.len(),
    ensures
        domain_flags(names)[2 * k] == "-d"@,
        domain_flags(names)[2 * k + 1] == names[k],
    decreases names.len(),
{
    let d = names.drop_last();
    lemma_domain_flags_len(d);
    let g = domain_flags(d);
    let t = seq!["-d"@, names.last()];
    assert(domain_flags(names) == g + t);
    if k < d.len() {
        lemma_domain_flags_at(d, k);
        assert(d[k] == names[k]);
    } else {
        assert(domain_flags(names)[2 * k] == t[0]);
        assert(domain_flags(names)[2 * k + 1] == t[1]);
    }
}

/// Provisioning before its first step.
pub fn init_start() -> (st: InitState)
    ensures
        st.stage == 0,
        st.wf(),
{
    InitState { stage: 0 }
}

/// One step of provisioning `plan` for `domains` (cloning `branch` when
/// one is given): given what was found out, the next state and what to do.
/// With `skip_dns` the DNS check is left out; with `no_ssl` no certificate
/// is issued and the site stays on HTTP. An event the step does not wait
/// for changes nothing.
pub fn init_step(
    plan: &InitPlan,
    domains: &Vec<String>,
    branch: Option<&str>,
    st: &InitState,
    ev: InitEvent,
    skip_dns: bool,
    no_ssl: bool,
) -> (out: (InitState, Option<InitAction>))
    requires
        st.wf(),
    ensures
        out.0.wf(),
        init_accepts(st.stage, ev) ==> {
            &&& out.0.stage == init_next(st.stage, ev, skip_dns)
            &&& init_action_is(
                out.1,
                st.stage,
                ev,
                *plan,
                string_views(domains@),
                match branch { Some(b) => Some(b@), None => None },
                skip_dns,
                no_ssl,
            )
        },
        !init_accepts(st.stage, ev) ==> out.0.stage == st.stage && out.1 is None,
        no_ssl ==> !(out.1 matches Some(InitAction::IssueCert(_))),
        st.stage == 8 && ev is Ready && !no_ssl ==> out.0.stage == 9 && (out.1 matches Some(InitAction::IssueCert(c))
            && invokes(c, "certbot"@, spec_certbot_args(string_views(domains@)), false)),
        skip_dns ==> !(out.1 matches Some(InitAction::CheckDns)),
{
    let stage = st.stage;
    let unchanged = (InitState { stage }, None);
    match ev {
        InitEvent::Begin => {
            if stage != 0 {
                return unchanged;
            }
            if skip_dns { (InitState { stage: 2 }, None) } else { (InitState { stage: 1 }, Some(InitAction::CheckDns)) }
        },
        InitEvent::DnsChecked(ok) => {
            if stage != 1 {
                return unchanged;
            }
            if ok { (InitState { stage: 2 }, None) } else { (InitState { stage: 9 }, Some(InitAction::Abort)) }
        },
        InitEvent::UserExists(e) => {
            if stage != 2 {
                return unchanged;
            }
            let a = if e { None } else { Some(InitAction::CreateUser(useradd(plan.dir.as_str(), plan.user.as_str()))) };
            (InitState { stage: 3 }, a)
        },
        InitEvent::GitDirExists(g) => {
            if stage != 3 {
                return unchanged;
            }
            let a = if g {
                InitAction::Pull(pull_command(plan.dir.as_str()))
            } else {
                InitAction::Clone(clone_command(branch, plan.git_url.as_str(), plan.dir.as_str()))
            };
            (InitState { stage: 4 }, Some(a))
        },
        InitEvent::PoolExists(e) => {
            if stage != 5 {
                return unchanged;
            }
            (InitState { stage: 6 }, if e { None } else { Some(InitAction::AddPool) })
        },
        InitEvent::VhostExists(e) => {
            if stage != 6 {
                return unchanged;
            }
            (InitState { stage: 7 }, if e { None } else { Some(InitAction::AddVhost) })
        },
        InitEvent::Ready => {
            if stage == 4 {
                (InitState { stage: 5 }, Some(InitAction::Own(chown_recursive(plan.user.as_str(), plan.dir.as_str()))))
            } else if stage == 7 {
                (InitState { stage: 8 }, Some(InitAction::Fix))
            } else if stage == 8 {
                if no_ssl { (InitState { stage: 9 }, None) } else { (InitState { stage: 9 }, Some(InitAction::IssueCert(certbot_issue(domains)))) }
            } else {
                unchanged
            }
        },
    }
}

} // verus!
