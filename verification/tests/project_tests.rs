use sitectl::env_files::{count_exposed, env_search_root, is_env_file_name};
use sitectl::project::{
    add_www_data_to_group, chown_dir, chown_recursive, dir_perms_verdict, env_fix_locations,
    env_locations, env_perms_exposed, group_read_traverse, in_group_list, is_exposed,
    project_domains, user_lookup, web_root_for, www_data_groups, PermsVerdict,
    fix_start, fix_step, new_project_steps, FixAction, FixEvent, NewStep,
};
use sitectl::system::{perms_octal, Invocation};

fn args_of(inv: &Invocation) -> Vec<&str> {
    inv.args.iter().map(|a| a.as_str()).collect()
}

#[test]
fn directory_verdicts() {
    assert_eq!(dir_perms_verdict("750"), PermsVerdict::Good);
    assert_eq!(dir_perms_verdict("700"), PermsVerdict::Good);
    assert_eq!(dir_perms_verdict("755"), PermsVerdict::Lenient);
    assert_eq!(dir_perms_verdict("777"), PermsVerdict::Bad);
    assert_eq!(dir_perms_verdict("???"), PermsVerdict::Bad);
}

#[test]
fn exposure_bits() {
    for m in [0u32, 0o600, 0o640, 0o604, 0o644, 0o700, 0o040, 0o004, 0o100644, u32::MAX] {
        assert_eq!(is_exposed(m), m & 0o044 != 0, "mode {:o}", m);
    }
}

#[test]
fn env_column_parses_octal() {
    assert!(!env_perms_exposed("600"));
    assert!(env_perms_exposed("644"));
    assert!(env_perms_exposed("640"));
    assert!(!env_perms_exposed("???"));
    assert!(!env_perms_exposed(""));
    for m in [0o600u32, 0o644, 0o100640, 0o100604, 0o40700] {
        assert_eq!(env_perms_exposed(&perms_octal(Some(m))), is_exposed(m));
    }
}

#[test]
fn env_lookup_locations() {
    assert_eq!(env_locations("/var/www/a"), vec!["/var/www/a/.env", "/var/www/a/current/.env", "/var/www/a/current/public/.env"]);
    assert_eq!(env_fix_locations("/var/www/a"), vec!["/var/www/a/.env", "/var/www/a/current/.env"]);
}

#[test]
fn web_roots_by_type() {
    assert_eq!(web_root_for("static"), ".");
    assert_eq!(web_root_for("laravel"), "public");
    assert_eq!(web_root_for("Static"), "public");
}

#[test]
fn listed_projects() {
    let names: Vec<String> = ["z.com", ".trash", "a.com", "m.org"].iter().map(|x| x.to_string()).collect();
    assert_eq!(project_domains(&names), vec!["a.com", "m.org", "z.com"]);
}

#[test]
fn repair_commands() {
    let c = chown_recursive("a_com", "/var/www/a.com");
    assert_eq!(c.program, "chown");
    assert_eq!(args_of(&c), vec!["-R", "a_com:a_com", "/var/www/a.com"]);
    let c = chown_dir("a_com", "/var/www/a.com");
    assert_eq!(args_of(&c), vec!["a_com:a_com", "/var/www/a.com"]);
    let c = group_read_traverse("/var/www/a.com");
    assert_eq!(c.program, "chmod");
    assert_eq!(args_of(&c), vec!["-R", "g+rX", "/var/www/a.com"]);
    let c = www_data_groups();
    assert_eq!(c.program, "id");
    assert_eq!(args_of(&c), vec!["-Gn", "www-data"]);
    let c = add_www_data_to_group("a_com");
    assert_eq!(c.program, "usermod");
    assert_eq!(args_of(&c), vec!["-aG", "a_com", "www-data"]);
    let c = user_lookup("a_com");
    assert_eq!(c.program, "id");
    assert_eq!(args_of(&c), vec!["a_com"]);
    assert!(c.capture);
}

#[test]
fn group_membership() {
    assert!(in_group_list("www-data a_com b_com", "a_com"));
    assert!(!in_group_list("www-data a_com_x", "a_com"));
    assert!(!in_group_list("", "a_com"));
    assert!(in_group_list("  a_com\n", "a_com"));
}

#[test]
fn env_file_names() {
    assert!(is_env_file_name(".env"));
    assert!(is_env_file_name("production.env"));
    assert!(!is_env_file_name(".env.example"));
    assert!(!is_env_file_name("env"));
}

#[test]
fn env_roots() {
    assert_eq!(env_search_root(Some("a.com")), "/var/www/a.com");
    assert_eq!(env_search_root(None), "/var/www");
}

#[test]
fn exposed_counts() {
    assert_eq!(count_exposed(&vec![0o600, 0o644, 0o640, 0o400]), 2);
    assert_eq!(count_exposed(&Vec::new()), 0);
}

#[test]
fn repair_decisions() {
    assert!(sitectl::project::owner_needs_fix("root", "a_com"));
    assert!(!sitectl::project::owner_needs_fix("a_com", "a_com"));
    assert!(sitectl::project::dir_perms_need_fix("755"));
    assert!(sitectl::project::dir_perms_need_fix("700"));
    assert!(!sitectl::project::dir_perms_need_fix("750"));
    assert_eq!(sitectl::removal::cert_live_path("a.com"), "/etc/letsencrypt/live/a.com");
    assert_eq!(sitectl::backup::dotenv_path("/var/www/a.com"), "/var/www/a.com/.env");
}

#[test]
fn fix_steps_on_a_broken_project() {
    let dir = "/var/www/a.com";
    let user = "a_com";
    let st = fix_start();
    assert_eq!((st.stage, st.fixed), (0, 0));
    let (st, a) = fix_step(user, dir, &st, FixEvent::UserExists(false));
    match a {
        Some(FixAction::Run(c)) => {
            assert_eq!(c.program, "useradd");
            assert_eq!(args_of(&c).last(), Some(&"a_com"));
        }
        _ => panic!("expected useradd"),
    }
    let (st, a) = fix_step(user, dir, &st, FixEvent::Owner("root".to_string()));
    match a {
        Some(FixAction::Run(c)) => {
            assert_eq!(c.program, "chown");
            assert_eq!(args_of(&c), vec!["-R", "a_com:a_com", "/var/www/a.com"]);
        }
        _ => panic!("expected chown"),
    }
    let (st, a) = fix_step(user, dir, &st, FixEvent::Perms("755".to_string()));
    assert!(matches!(a, Some(FixAction::SetDirMode750)));
    let (st, a) = fix_step(user, dir, &st, FixEvent::Ready);
    match a {
        Some(FixAction::Run(c)) => assert_eq!(args_of(&c), vec!["-R", "g+rX", "/var/www/a.com"]),
        _ => panic!("expected chmod"),
    }
    let (st, a) = fix_step(user, dir, &st, FixEvent::Groups("www-data".to_string()));
    match a {
        Some(FixAction::Run(c)) => assert_eq!(args_of(&c), vec!["-aG", "a_com", "www-data"]),
        _ => panic!("expected usermod"),
    }
    let (st, a) = fix_step(user, dir, &st, FixEvent::EnvMode(Some(0o100644)));
    match a {
        Some(FixAction::SecureEnv { path, was }) => {
            assert_eq!(path, "/var/www/a.com/.env");
            assert_eq!(was, 0o644);
        }
        _ => panic!("expected .env fix"),
    }
    let (st, a) = fix_step(user, dir, &st, FixEvent::EnvMode(Some(0o100664)));
    match a {
        Some(FixAction::SecureEnv { path, was }) => {
            assert_eq!(path, "/var/www/a.com/current/.env");
            assert_eq!(was, 0o664);
        }
        _ => panic!("expected current/.env fix"),
    }
    assert_eq!((st.stage, st.fixed), (7, 7));
}

#[test]
fn fix_steps_on_a_sound_project() {
    let dir = "/var/www/a.com";
    let user = "a_com";
    let mut st = fix_start();
    let events = vec![
        FixEvent::UserExists(true),
        FixEvent::Owner("a_com".to_string()),
        FixEvent::Perms("750".to_string()),
        FixEvent::Ready,
        FixEvent::Groups("www-data a_com".to_string()),
        FixEvent::EnvMode(Some(0o600)),
        FixEvent::EnvMode(None),
    ];
    let mut acted = Vec::new();
    for ev in events {
        let (next, a) = fix_step(user, dir, &st, ev);
        acted.push(a.is_some());
        st = next;
    }
    assert_eq!(acted, vec![false, false, false, true, false, false, false]);
    assert_eq!((st.stage, st.fixed), (7, 1));
}

#[test]
fn fix_step_ignores_an_unexpected_event() {
    let st = fix_start();
    let (next, a) = fix_step("a_com", "/var/www/a.com", &st, FixEvent::Ready);
    assert!(a.is_none());
    assert_eq!((next.stage, next.fixed), (0, 0));
    let (done, _) = fix_step("a_com", "/var/www/a.com", &st, FixEvent::UserExists(true));
    let (after, a) = fix_step("a_com", "/var/www/a.com", &done, FixEvent::EnvMode(Some(0o644)));
    assert!(a.is_none());
    assert_eq!((after.stage, after.fixed), (1, 0));
}

fn new_steps(project_type: &str, user: bool, pool: bool, vhost: bool) -> Vec<String> {
    new_project_steps("a.com", project_type, user, pool, vhost)
        .into_iter()
        .map(|s| match s {
            NewStep::CreateUser(c) => format!("{} {}", c.program, args_of(&c).join(" ")),
            NewStep::CreateDir(d) => format!("mkdir {d}"),
            NewStep::Own(c) => format!("{} {}", c.program, args_of(&c).join(" ")),
            NewStep::AddPool => "pool".to_string(),
            NewStep::AddVhost(r) => format!("vhost {r}"),
        })
        .collect()
}

#[test]
fn new_project_from_scratch() {
    assert_eq!(
        new_steps("laravel", false, false, false),
        vec![
            "useradd --system --no-create-home --shell /usr/sbin/nologin --home-dir /var/www/a.com a_com",
            "mkdir /var/www/a.com",
            "chown a_com:a_com /var/www/a.com",
            "pool",
            "vhost public",
        ]
    );
}

#[test]
fn new_project_keeps_existing_parts() {
    assert_eq!(new_steps("static", true, true, false), vec!["mkdir /var/www/a.com", "chown a_com:a_com /var/www/a.com", "vhost ."]);
    assert_eq!(new_steps("static", true, true, true), vec!["mkdir /var/www/a.com", "chown a_com:a_com /var/www/a.com"]);
}
