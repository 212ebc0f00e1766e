use sitectl::system::{
    available_php_versions, domain_to_user, fpm_pool_path, fpm_socket_path, owner_name, perms_octal,
    project_dir, reload_after_test, reload_fpm, reload_nginx, slug_of, strs, user_from_lowercase, useradd, Invocation, MAX_USER_LEN,
    WWW_ROOT,
};

fn args_of(inv: &Invocation) -> Vec<&str> {
    inv.args.iter().map(|a| a.as_str()).collect()
}

#[test]
fn domain_to_user_replaces_dots() {
    assert_eq!(domain_to_user("events.anikeen.com"), "events_anikeen_com");
}

#[test]
fn domain_to_user_lowercases() {
    assert_eq!(domain_to_user("Shop.Example.COM"), "shop_example_com");
}

#[test]
fn domain_to_user_replaces_hyphens_and_symbols() {
    assert_eq!(domain_to_user("my-site.example.org"), "my_site_example_org");
    assert_eq!(domain_to_user("a b+c"), "a_b_c");
}

#[test]
fn domain_to_user_keeps_unicode_letters() {
    assert_eq!(domain_to_user("bücher.de"), "bücher_de");
}

#[test]
fn domain_to_user_cuts_at_32_chars() {
    let long = "a-very-long-subdomain-name.example-company.com";
    let user = domain_to_user(long);
    assert_eq!(user.chars().count(), MAX_USER_LEN);
    assert_eq!(user, "a_very_long_subdomain_name_examp");
}

#[test]
fn domain_to_user_counts_chars_not_bytes() {
    let domain = "ü".repeat(40);
    let user = domain_to_user(&domain);
    assert_eq!(user.chars().count(), 32);
    assert_eq!(user, "ü".repeat(32));
}

#[test]
fn domain_to_user_is_a_valid_user_name() {
    for d in ["events.anikeen.com", "x", "", "..", "A.B-C_d", "日本.jp"] {
        let u = domain_to_user(d);
        assert!(u.chars().count() <= 32);
        assert!(u.chars().all(|c| c == '_' || c.is_alphanumeric()));
    }
}

#[test]
fn pool_and_socket_paths() {
    assert_eq!(fpm_pool_path("events.anikeen.com", "8.3"), "/etc/php/8.3/fpm/pool.d/events.anikeen.com.conf");
    assert_eq!(fpm_socket_path("events.anikeen.com", "8.3"), "/run/php/php8.3-fpm-events_anikeen_com.sock");
}

#[test]
fn reload_commands() {
    let fpm = reload_fpm("8.2");
    assert_eq!(fpm.program, "systemctl");
    assert_eq!(args_of(&fpm), vec!["reload", "php8.2-fpm"]);
    assert!(!fpm.capture);
    let test = reload_nginx();
    assert_eq!(test.program, "nginx");
    assert_eq!(args_of(&test), vec!["-t"]);
    assert!(test.capture);
    let reload = reload_after_test(true).unwrap();
    assert_eq!(reload.program, "systemctl");
    assert_eq!(args_of(&reload), vec!["reload", "nginx"]);
    assert!(!reload.capture);
    assert!(reload_after_test(false).is_none());
}

#[test]
fn php_versions_filtered_and_sorted() {
    let names: Vec<String> = ["8.3", "mods-available", "7.4", "8.1", ".hidden", "8.2"]
        .iter()
        .map(|s| s.to_string())
        .collect();
    assert_eq!(available_php_versions(&names), vec!["7.4", "8.1", "8.2", "8.3"]);
    assert!(available_php_versions(&Vec::new()).is_empty());
}

#[test]
fn perms_octal_masks_type_bits() {
    assert_eq!(perms_octal(Some(0o40750)), "750");
    assert_eq!(perms_octal(Some(0o100644)), "644");
    assert_eq!(perms_octal(Some(0o100000)), "0");
    assert_eq!(perms_octal(Some(0o4777)), "777");
    assert_eq!(perms_octal(None), "???");
}

#[test]
fn perms_octal_matches_format() {
    for m in [0u32, 1, 7, 8, 0o17, 0o644, 0o755, 0o100600, u32::MAX] {
        assert_eq!(perms_octal(Some(m)), format!("{:o}", m & 0o777));
    }
}

#[test]
fn owner_name_variants() {
    assert_eq!(owner_name(Some(1000), Some("alice".to_string())), "alice");
    assert_eq!(owner_name(Some(1234), None), "1234");
    assert_eq!(owner_name(Some(0), None), "0");
    assert_eq!(owner_name(None, Some("ignored".to_string())), "?");
    assert_eq!(owner_name(Some(u32::MAX), None), u32::MAX.to_string());
}

#[test]
fn useradd_command() {
    let cmd = useradd("/var/www/a.com", "a_com");
    assert_eq!(cmd.program, "useradd");
    assert_eq!(
        args_of(&cmd),
        vec!["--system", "--no-create-home", "--shell", "/usr/sbin/nologin", "--home-dir", "/var/www/a.com", "a_com"]
    );
    assert!(cmd.capture);
}

#[test]
fn project_dir_under_www_root() {
    assert_eq!(project_dir("a.com"), "/var/www/a.com");
    assert_eq!(WWW_ROOT, "/var/www");
}

#[test]
fn strs_builds_strings() {
    assert_eq!(strs(&["a", "", "b c"]), vec!["a".to_string(), String::new(), "b c".to_string()]);
}

#[test]
fn user_from_lowercase_slugs_and_cuts() {
    assert_eq!(user_from_lowercase("events.anikeen.com"), "events_anikeen_com");
    assert_eq!(user_from_lowercase("A.b"), "A_b");
    assert_eq!(user_from_lowercase(&"x".repeat(40)), "x".repeat(32));
    assert_eq!(user_from_lowercase(""), "");
}

#[test]
fn domain_to_user_twice_on_ascii() {
    for d in ["events.anikeen.com", "Shop-Example.COM", "a_b", "x".repeat(50).as_str(), "9lives.io", ""] {
        let u = domain_to_user(d);
        assert_eq!(domain_to_user(&u), u, "{d}");
    }
}

#[test]
fn slug_from_flags() {
    assert_eq!(slug_of(&vec![('a', true), ('.', false), ('b', true)]), "a_b");
    assert_eq!(slug_of(&vec![('x', false)]), "_");
    assert_eq!(slug_of(&vec![('z', true); 40]), "z".repeat(32));
    assert_eq!(slug_of(&Vec::new()), "");
}
