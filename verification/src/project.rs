//! Projects: how the listing judges permissions, where a project's `.env`
//! is looked for, and the commands that repair ownership and permissions.

use vstd::prelude::*;
use vstd::string::StringExecFns;
use crate::text::{chars_of, eq_chars, starts_with, str_eq, string_views, views, words, words_of};
use crate::system::{
    domain_to_user, invokes, project_dir, spec_domain_to_user, spec_project_dir, spec_useradd_args, useradd, Invocation,
};
use crate::order::{is_sorted, sort_strings};
use crate::numfmt::{lemma_octal_round_trip, parse_octal_u32, spec_parse_octal_u32};
use crate::system::spec_perms_octal;

verus! {

/// How the permissions of a project directory are judged.
#[derive(Clone, Copy, PartialEq, Eq, Structural, Debug)]
pub enum PermsVerdict {
    /// `750` or `700`: closed to others.
    Good,
    /// `755`: readable by everyone.
    Lenient,
    /// Anything else.
    Bad,
}

/// The verdict on a directory's octal permission string.
pub open spec fn spec_dir_perms_verdict(perms: Seq<char>) -> PermsVerdict {
    if perms == "750"@ || perms == "700"@ {
        PermsVerdict::Good
    } else if perms == "755"@ {
        PermsVerdict::Lenient
    } else {
        PermsVerdict::Bad
    }
}

/// Judges a project directory's permissions as the listing shows them.
pub fn dir_perms_verdict(perms: &str) -> (v: PermsVerdict)
    ensures
        v == spec_dir_perms_verdict(perms@),
{
    if str_eq(perms, "750") || str_eq(perms, "700") {
        PermsVerdict::Good
    } else if str_eq(perms, "755") {
        PermsVerdict::Lenient
    } else {
        PermsVerdict::Bad
    }
}

/// Whether a repair hands the project directory to the site user: when
/// its current owner is someone else.
pub fn owner_needs_fix(owner: &str, user: &str) -> (r: bool)
    ensures
        r == (owner@ != user@),
{
    !str_eq(owner, user)
}

/// Whether a repair resets the project directory's permissions: whenever
/// they are not exactly `750` (group may enter, others may not).
pub fn dir_perms_need_fix(perms: &str) -> (r: bool)
    ensures
        r == (perms@ != "750"@),
{
    !str_eq(perms, "750")
}

/// The group-read bit (`0o040`) or the others-read bit (`0o004`) is set.
pub open spec fn readable_by_others(mode: u32) -> bool {
    (mode / 32) % 2 == 1 || (mode / 4) % 2 == 1
}

/// Whether a file with permission bits `mode` can be read by its group or
/// by others (`mode & 0o044 != 0`).
pub fn is_exposed(mode: u32) -> (r: bool)
    ensures
        r == readable_by_others(mode),
{
    let r = mode & 0o044u32 != 0;
    assert(r == readable_by_others(mode)) by (bit_vector)
        requires
            r == (mode & 0o044u32 != 0),
    ;
    r
}

/// The mode an octal permission string stands for; 0 when it is not octal.
pub open spec fn octal_or_zero(perms: Seq<char>) -> u32 {
    match spec_parse_octal_u32(perms) {
        Some(m) => m,
        None => 0,
    }
}

/// Whether the listing flags a `.env` whose permissions read `perms` (as
/// octal digits): when its group or others can read it. A string that is
/// not octal counts as mode 0.
pub fn env_perms_exposed(perms: &str) -> (r: bool)
    ensures
        r == readable_by_others(octal_or_zero(perms@)),
{
    let mode = match parse_octal_u32(perms) {
        Some(m) => m,
        None => 0,
    };
    is_exposed(mode)
}

/// The listing's `.env` column flags a file exactly when its group or
/// others can read it: the octal permissions shown for a file read back as
/// its permission bits.
pub proof fn lemma_env_column_flags_readable(mode: u32)
    ensures
        readable_by_others(octal_or_zero(spec_perms_octal(Some(mode)))) == readable_by_others(mode),
{
    let bits = mode & 0o777u32;
    lemma_octal_round_trip(bits);
    assert(readable_by_others(bits) == readable_by_others(mode)) by (bit_vector)
        requires
            bits == mode & 0o777u32,
    ;
}

/// Where the listing looks for a project's `.env`, in order; the first that
/// exists is shown.
pub fn env_locations(dir: &str) -> (paths: Vec<String>)
    ensures
        string_views(paths@) == seq![dir@ + "/.env"@, dir@ + "/current/.env"@, dir@ + "/current/public/.env"@],
{
    let mut paths: Vec<String> = Vec::new();
    paths.push(String::from_str(dir).concat("/.env"));
    paths.push(String::from_str(dir).concat("/current/.env"));
    paths.push(String::from_str(dir).concat("/current/public/.env"));
    assert(string_views(paths@) =~= seq![dir@ + "/.env"@, dir@ + "/current/.env"@, dir@ + "/current/public/.env"@]);
    paths
}

/// The `.env` files that a repair secures, in order.
pub fn env_fix_locations(dir: &str) -> (paths: Vec<String>)
    ensures
        string_views(paths@) == seq![dir@ + "/.env"@, dir@ + "/current/.env"@],
{
    let mut paths: Vec<String> = Vec::new();
    paths.push(String::from_str(dir).concat("/.env"));
    paths.push(String::from_str(dir).concat("/current/.env"));
    assert(string_views(paths@) =~= seq![dir@ + "/.env"@, dir@ + "/current/.env"@]);
    paths
}

/// The web root of a new project: the project directory itself for a
/// static site, its `public` directory otherwise.
pub fn web_root_for(project_type: &str) -> (root: String)
    ensures
        root@ == (if project_type@ == "static"@ { "."@ } else { "public"@ }),
{
    if str_eq(project_type, "static") {
        String::from_str(".")
    } else {
        String::from_str("public")
    }
}

/// The entries among `names` that are projects (not hidden), in order.
pub open spec fn visible_names(names: Seq<Seq<char>>) -> Seq<Seq<char>>
    decreases names.len(),
{
    if names.len() == 0 {
        seq![]
    } else {
        visible_names(names.drop_last()) + (if starts_with(names.last(), "."@) {
            seq![]
        } else {
            seq![names.last()]
        })
    }
}

/// The projects to list, from the names of the directories under
/// `/var/www`: hidden ones left out, the rest sorted.
pub fn project_domains(dir_names: &Vec<String>) -> (domains: Vec<String>)
    ensures
        is_sorted(string_views(domains@)),
        string_views(domains@).to_multiset() == visible_names(string_views(dir_names@)).to_multiset(),
{
    let mut picked: Vec<String> = Vec::new();
    let mut i: usize = 0;
    while i < dir_names.len()
        invariant
            i <= dir_names@.len(),
            string_views(picked@) == visible_names(string_views(dir_names@.take(i as int))),
        decreases dir_names@.len() - i,
    {
        let cs = chars_of(dir_names[i].as_str());
        let ghost t1 = string_views(dir_names@.take(i + 1));
        assert(t1.drop_last() =~= string_views(dir_names@.take(i as int)));
        assert(t1.last() == cs@);
        if cs.len() > 0 && cs[0] == '.' {
            assert(starts_with(cs@, "."@)) by {
                reveal_strlit(".");
                assert(cs@.take(1) =~= "."@);
            }
            assert(visible_names(t1) =~= string_views(picked@));
        } else {
            assert(!starts_with(cs@, "."@)) by {
                reveal_strlit(".");
                if cs@.len() > 0 {
                    assert(cs@.take(1)[0] == cs@[0]);
                }
            }
            let ghost prev = string_views(picked@);
            picked.push(dir_names[i].clone());
            assert(string_views(picked@) =~= prev.push(dir_names@[i as int]@));
        }
        i += 1;
    }
    assert(dir_names@.take(dir_names@.len() as int) =~= dir_names@);
    sort_strings(picked)
}

/// The command that gives a project directory and everything in it to the
/// site user and its group.
pub fn chown_recursive(user: &str, dir: &str) -> (cmd: Invocation)
    ensures
        invokes(cmd, "chown"@, seq!["-R"@, user@ + ":"@ + user@, dir@], true),
{
    let mut args: Vec<String> = Vec::new();
    args.push(String::from_str("-R"));
    args.push(String::from_str(user).concat(":").concat(user));
    args.push(String::from_str(dir));
    assert(string_views(args@) =~= seq!["-R"@, user@ + ":"@ + user@, dir@]);
    Invocation { program: String::from_str("chown"), args, capture: true }
}

/// The command that gives a new, empty project directory to the site user.
pub fn chown_dir(user: &str, dir: &str) -> (cmd: Invocation)
    ensures
        invokes(cmd, "chown"@, seq![user@ + ":"@ + user@, dir@], true),
{
    let mut args: Vec<String> = Vec::new();
    args.push(String::from_str(user).concat(":").concat(user));
    args.push(String::from_str(dir));
    assert(string_views(args@) =~= seq![user@ + ":"@ + user@, dir@]);
    Invocation { program: String::from_str("chown"), args, capture: true }
}

/// The command that lets the site's group read every file and enter every
/// directory of the project, so that nginx can serve it.
pub fn group_read_traverse(dir: &str) -> (cmd: Invocation)
    ensures
        invokes(cmd, "chmod"@, seq!["-R"@, "g+rX"@, dir@], true),
{
    let mut args: Vec<String> = Vec::new();
    args.push(String::from_str("-R"));
    args.push(String::from_str("g+rX"));
    args.push(String::from_str(dir));
    assert(string_views(args@) =~= seq!["-R"@, "g+rX"@, dir@]);
    Invocation { program: String::from_str("chmod"), args, capture: true }
}

/// The command that lists the groups of `www-data`, the nginx user.
pub fn www_data_groups() -> (cmd: Invocation)
    ensures
        invokes(cmd, "id"@, seq!["-Gn"@, "www-data"@], true),
{
    let mut args: Vec<String> = Vec::new();
    args.push(String::from_str("-Gn"));
    args.push(String::from_str("www-data"));
    assert(string_views(args@) =~= seq!["-Gn"@, "www-data"@]);
    Invocation { program: String::from_str("id"), args, capture: true }
}

/// The command that adds `www-data` to the site user's group.
pub fn add_www_data_to_group(user: &str) -> (cmd: Invocation)
    ensures
        invokes(cmd, "usermod"@, seq!["-aG"@, user@, "www-data"@], true),
{
    let mut args: Vec<String> = Vec::new();
    args.push(String::from_str("-aG"));
    args.push(String::from_str(user));
    args.push(String::from_str("www-data"));
    assert(string_views(args@) =~= seq!["-aG"@, user@, "www-data"@]);
    Invocation { program: String::from_str("usermod"), args, capture: true }
}

/// The command whose success tells that a user exists.
pub fn user_lookup(user: &str) -> (cmd: Invocation)
    ensures
        invokes(cmd, "id"@, seq![user@], true),
{
    let mut args: Vec<String> = Vec::new();
    args.push(String::from_str(user));
    assert(string_views(args@) =~= seq![user@]);
    Invocation { program: String::from_str("id"), args, capture: true }
}

/// Whether `group` is one of the whitespace-separated names that `id -Gn`
/// printed.
pub fn in_group_list(groups_out: &str, group: &str) -> (r: bool)
    ensures
        r == words(groups_out@).contains(group@),
{
    let ws = words_of(&chars_of(groups_out));
    let g = chars_of(group);
    let mut i: usize = 0;
    while i < ws.len()
        invariant
            i <= ws@.len(),
            views(ws@) == words(groups_out@),
            g@ == group@,
            forall|k: int| 0 <= k < i ==> views(ws@)[k] != group@,
        decreases ws@.len() - i,
    {
        if eq_chars(&ws[i], &g) {
            assert(views(ws@)[i as int] == group@);
            return true;
        }
        i += 1;
    }
    false
}

/// Where a repair of a project stands. Its steps run in a fixed order:
/// 0 create the site user, 1 hand the tree to it, 2 reset the directory's
/// permissions, 3 let the group read the tree, 4 add `www-data` to the
/// site's group, 5 and 6 secure `.env` and `current/.env`; 7 is done.
/// `fixed` counts the changes made so far.
pub struct FixState {
    /// The next step.
    pub stage: usize,
    /// Changes made so far.
    pub fixed: usize,
}

impl FixState {
    /// At most one change per step taken.
    pub open spec fn wf(&self) -> bool {
        self.fixed <= self.stage <= 7
    }
}

/// What the repair found out before its current step.
pub enum FixEvent {
    /// Whether the site user exists (step 0).
    UserExists(bool),
    /// The user name that owns the project directory (step 1).
    Owner(String),
    /// The directory's permission bits in octal (step 2).
    Perms(String),
    /// Nothing to find out (step 3).
    Ready,
    /// What `id -Gn www-data` printed (step 4).
    Groups(String),
    /// The permission bits of the step's `.env` file, `None` when there is
    /// no such file (steps 5 and 6).
    EnvMode(Option<u32>),
}

/// What a step of the repair changes.
pub enum FixAction {
    /// Run a command.
    Run(Invocation),
    /// Set the project directory's permissions to `750`.
    SetDirMode750,
    /// Set the permissions of the `.env` file at `path` to `600`; `was`
    /// are its permission bits before.
    SecureEnv { path: String, was: u32 },
}

/// The event is the one the step `stage` waits for.
pub open spec fn fix_accepts(stage: usize, ev: FixEvent) -> bool {
    match ev {
        FixEvent::UserExists(_) => stage == 0,
        FixEvent::Owner(_) => stage == 1,
        FixEvent::Perms(_) => stage == 2,
        FixEvent::Ready => stage == 3,
        FixEvent::Groups(_) => stage == 4,
        FixEvent::EnvMode(_) => stage == 5 || stage == 6,
    }
}

/// The step that waits for `ev` changes something: the user is missing, the
/// directory belongs to someone else or is not `750`, the group read is
/// always granted, `www-data` is not in the site's group, the `.env` file
/// exists and its group or others can read it.
pub open spec fn fix_acts(user: Seq<char>, ev: FixEvent) -> bool {
    match ev {
        FixEvent::UserExists(e) => !e,
        FixEvent::Owner(o) => o@ != user,
        FixEvent::Perms(p) => p@ != "750"@,
        FixEvent::Ready => true,
        FixEvent::Groups(g) => !words(g@).contains(user),
        FixEvent::EnvMode(m) => match m {
            Some(bits) => readable_by_others(bits & 0o777u32),
            None => false,
        },
    }
}

/// `a` is the change of step `stage` for the site user `user` and project
/// directory `dir`, after `ev`.
pub open spec fn is_fix_action(a: FixAction, stage: usize, user: Seq<char>, dir: Seq<char>, ev: FixEvent) -> bool {
    if stage == 0 {
        a matches FixAction::Run(c) && invokes(c, "useradd"@, spec_useradd_args(dir, user), true)
    } else if stage == 1 {
        a matches FixAction::Run(c) && invokes(c, "chown"@, seq!["-R"@, user + ":"@ + user, dir], true)
    } else if stage == 2 {
        a is SetDirMode750
    } else if stage == 3 {
        a matches FixAction::Run(c) && invokes(c, "chmod"@, seq!["-R"@, "g+rX"@, dir], true)
    } else if stage == 4 {
        a matches FixAction::Run(c) && invokes(c, "usermod"@, seq!["-aG"@, user, "www-data"@], true)
    } else {
        &&& a matches FixAction::SecureEnv { path, was }
        &&& path@ == dir + (if stage == 5 { "/.env"@ } else { "/current/.env"@ })
        &&& ev matches FixEvent::EnvMode(Some(bits))
        &&& was == bits & 0o777u32
    }
}

/// At the `.env` steps the repair acts exactly when the file's group or
/// others can read it (`mode & 0o044 != 0`): a `640` or `604` file is
/// secured as well as a `644` one, and a `600` one is left alone.
pub proof fn lemma_env_step_acts_iff_readable(user: Seq<char>, bits: u32)
    ensures
        fix_acts(user, FixEvent::EnvMode(Some(bits))) <==> bits & 0o044u32 != 0u32,
{
    assert(readable_by_others(bits & 0o777u32) <==> bits & 0o044u32 != 0u32) by (bit_vector);
}

/// A repair before its first step.
pub fn fix_start() -> (st: FixState)
    ensures
        st.stage == 0,
        st.fixed == 0,
        st.wf(),
{
    FixState { stage: 0, fixed: 0 }
}

/// One step of repairing the project in `dir` for the site user `user`:
/// given what was found out, the next state and the change to make. An
/// event the step does not wait for changes nothing.
pub fn fix_step(user: &str, dir: &str, st: &FixState, ev: FixEvent) -> (out: (FixState, Option<FixAction>))
    requires
        st.wf(),
    ensures
        out.0.wf(),
        fix_accepts(st.stage, ev) ==> {
            &&& out.0.stage == st.stage + 1
            &&& (out.1 is Some <==> fix_acts(user@, ev))
            &&& out.0.fixed == st.fixed + (if fix_acts(user@, ev) { 1int } else { 0int })
            &&& (out.1 matches Some(a) ==> is_fix_action(a, st.stage, user@, dir@, ev))
        },
        !fix_accepts(st.stage, ev) ==> out.0.stage == st.stage && out.0.fixed == st.fixed && out.1 is None,
        (st.stage == 5 || st.stage == 6) ==> match ev {
            FixEvent::EnvMode(Some(bits)) => (out.1 is Some <==> bits & 0o044u32 != 0u32)
                && out.0.fixed == st.fixed + (if bits & 0o044u32 != 0u32 { 1int } else { 0int }),
            _ => true,
        },
{
    let stage = st.stage;
    let action: Option<FixAction> = match &ev {
        FixEvent::UserExists(e) => {
            if stage != 0 {
                return (FixState { stage, fixed: st.fixed }, None);
            }
            if *e { None } else { Some(FixAction::Run(useradd(dir, user))) }
        },
        FixEvent::Owner(o) => {
            if stage != 1 {
                return (FixState { stage, fixed: st.fixed }, None);
            }
            if owner_needs_fix(o.as_str(), user) { Some(FixAction::Run(chown_recursive(user, dir))) } else { None }
        },
        FixEvent::Perms(p) => {
            if stage != 2 {
                return (FixState { stage, fixed: st.fixed }, None);
            }
            if dir_perms_need_fix(p.as_str()) { Some(FixAction::SetDirMode750) } else { None }
        },
        FixEvent::Ready => {
            if stage != 3 {
                return (FixState { stage, fixed: st.fixed }, None);
            }
            Some(FixAction::Run(group_read_traverse(dir)))
        },
        FixEvent::Groups(g) => {
            if stage != 4 {
                return (FixState { stage, fixed: st.fixed }, None);
            }
            if in_group_list(g.as_str(), user) { None } else { Some(FixAction::Run(add_www_data_to_group(user))) }
        },
        FixEvent::EnvMode(m) => {
            if stage != 5 && stage != 6 {
                return (FixState { stage, fixed: st.fixed }, None);
            }
            match m {
                Some(bits) => {
                    let was = *bits & 0o777u32;
                    if is_exposed(was) {
                        let locations = env_fix_locations(dir);
                        assert(locations@.len() == 2) by {
                            assert(string_views(locations@).len() == 2);
                        }
                        let path = if stage == 5 { locations[0].clone() } else { locations[1].clone() };
                        Some(FixAction::SecureEnv { path, was })
                    } else {
                        None
                    }
                },
                None => None,
            }
        },
    };
    let fixed = if action.is_some() { st.fixed + 1 } else { st.fixed };
    proof {
        if let FixEvent::EnvMode(Some(bits)) = ev {
            lemma_env_step_acts_iff_readable(user@, bits);
        }
    }
    (FixState { stage: stage + 1, fixed }, action)
}

/// A step of setting up a new project. A failure stops the setup.
pub enum NewStep {
    /// Create the site user with the command.
    CreateUser(Invocation),
    /// Create the project directory (and its parents).
    CreateDir(String),
    /// Give the directory to the site user with the command, then set its
    /// permissions to `750`.
    Own(Invocation),
    /// Create the site's PHP-FPM pool.
    AddPool,
    /// Create the nginx vhost, served from the given web root.
    AddVhost(String),
}

/// What a step of a new project's setup does.
pub enum NewPlan {
    CreateUser,
    CreateDir,
    Own,
    AddPool,
    AddVhost(Seq<char>),
}

/// `st` is the step `p` for the site user `user` and project directory
/// `dir`, with the command that carries it out.
pub open spec fn new_step_is(st: NewStep, p: NewPlan, user: Seq<char>, dir: Seq<char>) -> bool {
    match p {
        NewPlan::CreateUser => st matches NewStep::CreateUser(c) && invokes(c, "useradd"@, spec_useradd_args(dir, user), true),
        NewPlan::CreateDir => st matches NewStep::CreateDir(d) && d@ == dir,
        NewPlan::Own => st matches NewStep::Own(c) && invokes(c, "chown"@, seq![user + ":"@ + user, dir], true),
        NewPlan::AddPool => st is AddPool,
        NewPlan::AddVhost(r) => st matches NewStep::AddVhost(q) && q@ == r,
    }
}

/// Setting up a new project, in order: the site user unless it exists, the
/// directory, its owner and mode, the PHP-FPM pool unless it exists, and
/// the vhost unless it exists, served from the web root of `project_type`.
pub open spec fn spec_new_steps(project_type: Seq<char>, user_exists: bool, pool_exists: bool, vhost_exists: bool) -> Seq<NewPlan> {
    (if user_exists { seq![] } else { seq![NewPlan::CreateUser] }) + seq![NewPlan::CreateDir, NewPlan::Own]
        + (if pool_exists { seq![] } else { seq![NewPlan::AddPool] })
        + (if vhost_exists {
            seq![]
        } else {
            seq![NewPlan::AddVhost(if project_type == "static"@ { "."@ } else { "public"@ })]
        })
}

/// The steps that set up the project `domain` of type `project_type`,
/// given whether its user, PHP-FPM pool and vhost already exist.
pub fn new_project_steps(domain: &str, project_type: &str, user_exists: bool, pool_exists: bool, vhost_exists: bool) -> (steps: Vec<NewStep>)
    ensures
        steps@.len() == spec_new_steps(project_type@, user_exists, pool_exists, vhost_exists).len(),
        forall|i: int| 0 <= i < steps@.len() ==> #[trigger] new_step_is(
            steps@[i],
            spec_new_steps(project_type@, user_exists, pool_exists, vhost_exists)[i],
            spec_domain_to_user(domain@),
            spec_project_dir(domain@),
        ),
{
    let user = domain_to_user(domain);
    let dir = project_dir(domain);
    let ghost u = user@;
    let ghost d = dir@;
    let mut out: Vec<NewStep> = Vec::new();
    let ghost mut plan: Seq<NewPlan> = seq![];
    if !user_exists {
        out.push(NewStep::CreateUser(useradd(dir.as_str(), user.as_str())));
        proof { plan = plan.push(NewPlan::CreateUser); }
    }
    out.push(NewStep::CreateDir(dir.clone()));
    out.push(NewStep::Own(chown_dir(user.as_str(), dir.as_str())));
    proof { plan = plan.push(NewPlan::CreateDir).push(NewPlan::Own); }
    if !pool_exists {
        out.push(NewStep::AddPool);
        proof { plan = plan.push(NewPlan::AddPool); }
    }
    if !vhost_exists {
        out.push(NewStep::AddVhost(web_root_for(project_type)));
        proof { plan = plan.push(NewPlan::AddVhost(if project_type@ == "static"@ { "."@ } else { "public"@ })); }
    }
    assert(plan =~= spec_new_steps(project_type@, user_exists, pool_exists, vhost_exists));
    assert(forall|i: int| 0 <= i < out@.len() ==> #[trigger] new_step_is(out@[i], plan[i], u, d));
    out
}

} // verus!
