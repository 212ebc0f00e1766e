use sitectl::provision::{
    certbot_issue, clone_command, init_start, init_step, plan_init, pull_command, InitAction, InitEvent, InitState,
};
use sitectl::removal::{
    cert_name_candidates, certbot_delete, du_human, first_occurrences, group_lookup, groupdel,
    leave_site_group, removal_steps, shown_size, userdel, Inventory, RemovalStep,
};
use sitectl::site_exec::{domain_from_cwd, socket_acls, sudo_command};
use sitectl::system::Invocation;

fn args_of(inv: &Invocation) -> Vec<&str> {
    inv.args.iter().map(|a| a.as_str()).collect()
}

fn strings(xs: &[&str]) -> Vec<String> {
    xs.iter().map(|x| x.to_string()).collect()
}

#[test]
fn cwd_detection() {
    assert_eq!(domain_from_cwd("/var/www/a.com"), Some("a.com".to_string()));
    assert_eq!(domain_from_cwd("/var/www/a.com/public/css"), Some("a.com".to_string()));
    assert_eq!(domain_from_cwd("/var/www/a.com/"), Some("a.com".to_string()));
    assert_eq!(domain_from_cwd("//var//www//a.com"), Some("a.com".to_string()));
    assert_eq!(domain_from_cwd("/var/./www/./a.com"), Some("a.com".to_string()));
    assert_eq!(domain_from_cwd("/var/www"), None);
    assert_eq!(domain_from_cwd("/var/www/"), None);
    assert_eq!(domain_from_cwd("/var/wwwx/a.com"), None);
    assert_eq!(domain_from_cwd("var/www/a.com"), None);
    assert_eq!(domain_from_cwd("/srv/a.com"), None);
    assert_eq!(domain_from_cwd("/var/www/../etc"), Some("..".to_string()));
}

#[test]
fn cwd_detection_matches_std_path() {
    for cwd in ["/var/www/a.com/x", "/var/www/b", "/var//www/c/", "/var/www/./d", "/home/u", "/var/www"] {
        let p = std::path::Path::new(cwd);
        let want = p
            .strip_prefix("/var/www")
            .ok()
            .and_then(|rel| rel.components().next().map(|c| c.as_os_str().to_string_lossy().into_owned()));
        assert_eq!(domain_from_cwd(cwd), want, "{cwd}");
    }
}

#[test]
fn sudo_arguments() {
    let args = strings(&["php", "artisan", "migrate"]);
    let c = sudo_command("a_com", None, &args);
    assert_eq!(c.program, "sudo");
    assert_eq!(args_of(&c), vec!["-H", "-u", "a_com", "--", "php", "artisan", "migrate"]);
    assert!(!c.capture);
    let c = sudo_command("a_com", Some("/tmp/ssh-x/agent.1"), &args);
    assert_eq!(
        args_of(&c),
        vec!["-H", "-u", "a_com", "--", "env", "SSH_AUTH_SOCK=/tmp/ssh-x/agent.1", "php", "artisan", "migrate"]
    );
}

#[test]
fn agent_socket_acls() {
    let cs = socket_acls("a_com", "/tmp/ssh-x/agent.1", Some("/tmp/ssh-x"));
    assert_eq!(cs.len(), 2);
    assert_eq!(cs[0].program, "setfacl");
    assert_eq!(args_of(&cs[0]), vec!["-m", "u:a_com:x", "/tmp/ssh-x"]);
    assert_eq!(args_of(&cs[1]), vec!["-m", "u:a_com:rw", "/tmp/ssh-x/agent.1"]);
    let cs = socket_acls("a_com", "/", None);
    assert_eq!(cs.len(), 1);
    assert_eq!(args_of(&cs[0]), vec!["-m", "u:a_com:rw", "/"]);
}

#[test]
fn init_plan_names() {
    let p = plan_init("anikeen-com/signed-cards", &strings(&["cards.anikeen.com", "www.cards.anikeen.com"]), "8.3").unwrap();
    assert_eq!(p.primary, "cards.anikeen.com");
    assert_eq!(p.user, "cards_anikeen_com");
    assert_eq!(p.dir, "/var/www/cards.anikeen.com");
    assert_eq!(p.git_url, "git@github.com:anikeen-com/signed-cards.git");
    assert_eq!(p.git_dir, "/var/www/cards.anikeen.com/.git");
    assert_eq!(p.pool_path, "/etc/php/8.3/fpm/pool.d/cards.anikeen.com.conf");
    assert_eq!(p.vhost_path, "/etc/nginx/sites-available/cards.anikeen.com");
    assert_eq!(p.web_root, "public");
    assert!(plan_init("x/y", &Vec::new(), "8.3").is_none());
}

#[test]
fn git_commands() {
    let c = clone_command(None, "git@github.com:o/r.git", "/var/www/a");
    assert_eq!(c.program, "git");
    assert_eq!(args_of(&c), vec!["clone", "git@github.com:o/r.git", "/var/www/a"]);
    let c = clone_command(Some("main"), "git@github.com:o/r.git", "/var/www/a");
    assert_eq!(args_of(&c), vec!["clone", "--branch", "main", "git@github.com:o/r.git", "/var/www/a"]);
    let c = pull_command("/var/www/a");
    assert_eq!(args_of(&c), vec!["-C", "/var/www/a", "pull"]);
}

#[test]
fn certbot_issue_arguments() {
    let c = certbot_issue(&strings(&["a.com", "www.a.com"]));
    assert_eq!(c.program, "certbot");
    assert_eq!(args_of(&c), vec!["--nginx", "--non-interactive", "--agree-tos", "-d", "a.com", "-d", "www.a.com"]);
    let c = certbot_issue(&Vec::new());
    assert_eq!(args_of(&c), vec!["--nginx", "--non-interactive", "--agree-tos"]);
}

#[test]
fn removal_inventory() {
    assert_eq!(cert_name_candidates("a.com"), vec!["a.com", "www.a.com"]);
    let empty = Inventory { dir_exists: false, user_exists: false, vhost_exists: false, pool_versions: Vec::new(), cert_names: Vec::new() };
    assert!(empty.is_empty());
    let with_pool = Inventory { pool_versions: strings(&["8.3"]), ..empty };
    assert!(!with_pool.is_empty());
    let with_user = Inventory { dir_exists: false, user_exists: true, vhost_exists: false, pool_versions: Vec::new(), cert_names: Vec::new() };
    assert!(!with_user.is_empty());
}

#[test]
fn reload_each_version_once() {
    assert_eq!(first_occurrences(&strings(&["8.3", "8.2", "8.3", "8.2", "7.4"])), vec![true, true, false, false, true]);
    assert!(first_occurrences(&Vec::new()).is_empty());
}

#[test]
fn removal_sizes() {
    assert_eq!(shown_size(Some("1.2G\t/var/www/a.com")), "1.2G");
    assert_eq!(shown_size(Some("")), "?");
    assert_eq!(shown_size(None), "?");
}

#[test]
fn removal_commands() {
    let c = certbot_delete("a.com");
    assert_eq!(args_of(&c), vec!["delete", "--cert-name", "a.com", "--non-interactive"]);
    assert_eq!(c.program, "certbot");
    let c = leave_site_group("a_com");
    assert_eq!(c.program, "gpasswd");
    assert_eq!(args_of(&c), vec!["-d", "www-data", "a_com"]);
    let c = userdel("a_com");
    assert_eq!((c.program.as_str(), args_of(&c)), ("userdel", vec!["a_com"]));
    let c = group_lookup("a_com");
    assert_eq!((c.program.as_str(), args_of(&c)), ("getent", vec!["group", "a_com"]));
    assert!(c.capture);
    let c = groupdel("a_com");
    assert_eq!((c.program.as_str(), args_of(&c)), ("groupdel", vec!["a_com"]));
    let c = du_human("/var/www/a.com");
    assert_eq!((c.program.as_str(), args_of(&c)), ("du", vec!["-sh", "/var/www/a.com"]));
}

fn full_inventory() -> Inventory {
    Inventory {
        dir_exists: true,
        user_exists: true,
        vhost_exists: true,
        pool_versions: vec!["8.3".to_string(), "8.2".to_string(), "8.3".to_string()],
        cert_names: vec!["a.com".to_string()],
    }
}

fn describe(step: &RemovalStep) -> String {
    match step {
        RemovalStep::RemoveFile(p) => format!("rm {p}"),
        RemovalStep::ReloadNginx => "reload nginx".to_string(),
        RemovalStep::ReloadFpm { version, cmd } => format!("reload {version}: {} {}", cmd.program, args_of(cmd).join(" ")),
        RemovalStep::DeleteCert { name, cmd } => format!("cert {name}: {} {}", cmd.program, args_of(cmd).join(" ")),
        RemovalStep::RemoveDir(p) => format!("rm -r {p}"),
        RemovalStep::LeaveGroup(cmd) => format!("{} {}", cmd.program, args_of(cmd).join(" ")),
        RemovalStep::DeleteUser { user, cmd } => format!("user {user}: {} {}", cmd.program, args_of(cmd).join(" ")),
        RemovalStep::DeleteGroup { lookup, cmd } => {
            format!("if {} {}: {} {}", lookup.program, args_of(lookup).join(" "), cmd.program, args_of(cmd).join(" "))
        }
    }
}

#[test]
fn removal_order() {
    let steps = removal_steps("a.com", &full_inventory(), true, true);
    let got: Vec<String> = steps.iter().map(describe).collect();
    assert_eq!(
        got,
        vec![
            "rm /etc/nginx/sites-enabled/a.com",
            "rm /etc/nginx/sites-available/a.com",
            "reload nginx",
            "rm /etc/php/8.3/fpm/pool.d/a.com.conf",
            "reload 8.3: systemctl reload php8.3-fpm",
            "rm /etc/php/8.2/fpm/pool.d/a.com.conf",
            "reload 8.2: systemctl reload php8.2-fpm",
            "rm /etc/php/8.3/fpm/pool.d/a.com.conf",
            "cert a.com: certbot delete --cert-name a.com --non-interactive",
            "rm -r /var/www/a.com",
            "gpasswd -d www-data a_com",
            "user a_com: userdel a_com",
            "if getent group a_com: groupdel a_com",
        ]
    );
}

#[test]
fn removal_dry_run_has_no_steps() {
    assert!(removal_steps("a.com", &full_inventory(), true, false).is_empty());
    let empty = Inventory {
        dir_exists: false,
        user_exists: false,
        vhost_exists: false,
        pool_versions: vec![],
        cert_names: vec![],
    };
    assert!(removal_steps("a.com", &empty, true, true).is_empty());
}

#[test]
fn removal_of_a_directory_only() {
    let inv = Inventory {
        dir_exists: true,
        user_exists: false,
        vhost_exists: false,
        pool_versions: vec![],
        cert_names: vec![],
    };
    let got: Vec<String> = removal_steps("a.com", &inv, false, true).iter().map(describe).collect();
    assert_eq!(got, vec!["rm -r /var/www/a.com"]);
}

fn run_init(events: Vec<InitEvent>, skip_dns: bool, no_ssl: bool) -> (InitState, Vec<String>) {
    let domains = vec!["a.com".to_string(), "www.a.com".to_string()];
    let plan = plan_init("me/site", &domains, "8.3").unwrap();
    let mut st = init_start();
    let mut seen = Vec::new();
    for ev in events {
        let (next, a) = init_step(&plan, &domains, Some("main"), &st, ev, skip_dns, no_ssl);
        st = next;
        seen.push(match a {
            None => "-".to_string(),
            Some(InitAction::CheckDns) => "dns".to_string(),
            Some(InitAction::Abort) => "abort".to_string(),
            Some(InitAction::CreateUser(c)) => format!("{} {}", c.program, args_of(&c).join(" ")),
            Some(InitAction::Pull(c)) => format!("{} {}", c.program, args_of(&c).join(" ")),
            Some(InitAction::Clone(c)) => format!("{} {}", c.program, args_of(&c).join(" ")),
            Some(InitAction::Own(c)) => format!("{} {}", c.program, args_of(&c).join(" ")),
            Some(InitAction::AddPool) => "pool".to_string(),
            Some(InitAction::AddVhost) => "vhost".to_string(),
            Some(InitAction::Fix) => "fix".to_string(),
            Some(InitAction::IssueCert(c)) => format!("{} {}", c.program, args_of(&c).join(" ")),
        });
    }
    (st, seen)
}

#[test]
fn init_fresh_server() {
    let (st, seen) = run_init(
        vec![
            InitEvent::Begin,
            InitEvent::DnsChecked(true),
            InitEvent::UserExists(false),
            InitEvent::GitDirExists(false),
            InitEvent::Ready,
            InitEvent::PoolExists(false),
            InitEvent::VhostExists(false),
            InitEvent::Ready,
            InitEvent::Ready,
        ],
        false,
        false,
    );
    assert_eq!(st.stage, 9);
    assert_eq!(
        seen,
        vec![
            "dns",
            "-",
            "useradd --system --no-create-home --shell /usr/sbin/nologin --home-dir /var/www/a.com a_com",
            "git clone --branch main git@github.com:me/site.git /var/www/a.com",
            "chown -R a_com:a_com /var/www/a.com",
            "pool",
            "vhost",
            "fix",
            "certbot --nginx --non-interactive --agree-tos -d a.com -d www.a.com",
        ]
    );
}

#[test]
fn init_existing_parts_without_dns_or_ssl() {
    let (st, seen) = run_init(
        vec![
            InitEvent::Begin,
            InitEvent::UserExists(true),
            InitEvent::GitDirExists(true),
            InitEvent::Ready,
            InitEvent::PoolExists(true),
            InitEvent::VhostExists(true),
            InitEvent::Ready,
            InitEvent::Ready,
        ],
        true,
        true,
    );
    assert_eq!(st.stage, 9);
    assert_eq!(seen, vec!["-", "-", "git -C /var/www/a.com pull", "chown -R a_com:a_com /var/www/a.com", "-", "-", "fix", "-"]);
}

#[test]
fn init_stops_on_failed_dns() {
    let (st, seen) = run_init(vec![InitEvent::Begin, InitEvent::DnsChecked(false), InitEvent::UserExists(false)], false, false);
    assert_eq!(st.stage, 9);
    assert_eq!(seen, vec!["dns", "abort", "-"]);
}
