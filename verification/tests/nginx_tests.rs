use sitectl::nginx::{
    available_path, create_vhost_config, create_vhost_multi, detect_php_version, enabled_path,
    is_shared_socket, laravel_vhost, missing_project, parse_vhost, php_socket, rewrite_socket,
    root_project_dir, roots, saved_copy_path, server_names, unserved_dirs, Vhost, VhostRefusal,
};
use sitectl::system::fpm_socket_path;

/// The config text as the template prints it.
fn expected_config(names: &[&str], primary: &str, php: &str, web_root: &str) -> String {
    let socket = fpm_socket_path(primary, php);
    let names = names.join(" ");
    format!(
        "server {{
    server_name {names};
    root /var/www/{primary}/{web_root};

    add_header X-Content-Type-Options \"nosniff\";
    add_header X-Frame-Options \"SAMEORIGIN\";

    index index.php;
    charset utf-8;

    location / {{
        try_files $uri $uri/ /index.php?$query_string;
    }}

    location = /favicon.ico {{ access_log off; log_not_found off; }}
    location = /robots.txt  {{ access_log off; log_not_found off; }}

    error_page 404 /index.php;

    location ~ \\.php$ {{
        fastcgi_pass unix:{socket};
        fastcgi_param SCRIPT_FILENAME $realpath_root$fastcgi_script_name;
        include fastcgi_params;
    }}

    location ~ /\\.(?!well-known).* {{
        deny all;
    }}

    listen 80;
}}
"
    )
}

fn strings(xs: &[&str]) -> Vec<String> {
    xs.iter().map(|x| x.to_string()).collect()
}

#[test]
fn vhost_config_matches_template() {
    let names = strings(&["a.com", "www.a.com"]);
    assert_eq!(create_vhost_config(&names, "a.com", "8.3", "public"), expected_config(&["a.com", "www.a.com"], "a.com", "8.3", "public"));
}

#[test]
fn laravel_vhost_single_domain() {
    let cfg = laravel_vhost("events.anikeen.com", "8.2", "public");
    assert_eq!(cfg, expected_config(&["events.anikeen.com"], "events.anikeen.com", "8.2", "public"));
    assert!(cfg.contains("fastcgi_pass unix:/run/php/php8.2-fpm-events_anikeen_com.sock;"));
    assert!(cfg.contains("root /var/www/events.anikeen.com/public;"));
}

#[test]
fn vhost_multi_uses_primary() {
    let domains = strings(&["b.org", "www.b.org", "c.org"]);
    let f = create_vhost_multi(&domains, "8.1", ".", false).ok().unwrap();
    assert_eq!(f.path, "/etc/nginx/sites-available/b.org");
    assert_eq!(f.config, expected_config(&["b.org", "www.b.org", "c.org"], "b.org", "8.1", "."));
    assert!(matches!(create_vhost_multi(&Vec::new(), "8.1", ".", false), Err(VhostRefusal::NoDomains)));
    assert!(matches!(create_vhost_multi(&Vec::new(), "8.1", ".", true), Err(VhostRefusal::NoDomains)));
    assert!(matches!(create_vhost_multi(&domains, "8.1", ".", true), Err(VhostRefusal::AlreadyExists)));
}

#[test]
fn generated_vhost_reads_back() {
    let domains = strings(&["a.com", "www.a.com", "_"]);
    let cfg = create_vhost_config(&domains, "a.com", "8.3", "public");
    assert_eq!(server_names(&cfg), vec!["a.com", "www.a.com"]);
    assert_eq!(roots(&cfg), vec!["/var/www/a.com/public"]);
    assert_eq!(php_socket(&cfg), Some("/run/php/php8.3-fpm-a_com.sock".to_string()));
    assert_eq!(detect_php_version(&cfg), Some("8.3".to_string()));
}

#[test]
fn vhost_paths() {
    assert_eq!(available_path("x.com"), "/etc/nginx/sites-available/x.com");
    assert_eq!(enabled_path("x.com"), "/etc/nginx/sites-enabled/x.com");
}

const HANDWRITTEN: &str = "server {\n  listen 80;\n\tserver_name  example.com www.example.com ;\n  server_name _;\n  root /var/www/example.com/current/public;\n  root   /srv/other ;\n  location ~ \\.php$ {\n    fastcgi_pass unix:/run/php/php8.1-fpm.sock;\n  }\n  location /x {\n    fastcgi_pass unix:/tmp/second.sock;\n  }\n}\n";

#[test]
fn reads_handwritten_vhost() {
    assert_eq!(server_names(HANDWRITTEN), vec!["example.com", "www.example.com"]);
    assert_eq!(roots(HANDWRITTEN), vec!["/var/www/example.com/current/public", "/srv/other"]);
    assert_eq!(php_socket(HANDWRITTEN), Some("/run/php/php8.1-fpm.sock".to_string()));
    assert_eq!(detect_php_version(HANDWRITTEN), Some("8.1".to_string()));
}

#[test]
fn detect_php_version_cases() {
    assert_eq!(detect_php_version("fastcgi_pass unix:/run/php/php8.3-fpm.sock;"), Some("8.3".to_string()));
    assert_eq!(detect_php_version("fastcgi_pass 127.0.0.1:9000;"), None);
    assert_eq!(detect_php_version("# php8.2 is used\nfastcgi_pass unix:/run/php/php7.4-fpm-x.sock;"), Some("7.4".to_string()));
    assert_eq!(detect_php_version("fastcgi_pass unix:/run/php/php-fpm.sock;\nfastcgi_pass unix:/run/php/php8.0-fpm.sock;"), Some("8.0".to_string()));
    assert_eq!(detect_php_version(""), None);
}

#[test]
fn no_socket_without_unix_prefix() {
    assert_eq!(php_socket("fastcgi_pass 127.0.0.1:9000;"), None);
    assert_eq!(php_socket(""), None);
}

#[test]
fn rewrite_socket_replaces_line() {
    let content = "server {\n    location ~ \\.php$ {\n        fastcgi_pass unix:/run/php/php8.3-fpm.sock;\n    }\n}\n";
    let updated = rewrite_socket(content, "/run/php/php8.3-fpm-a_com.sock").unwrap();
    // The lines are joined with a newline; the final one is not written back.
    assert_eq!(updated, "server {\n    location ~ \\.php$ {\n        fastcgi_pass unix:/run/php/php8.3-fpm-a_com.sock;\n    }\n}");
    assert_eq!(php_socket(&updated), Some("/run/php/php8.3-fpm-a_com.sock".to_string()));
    // A second run has nothing to write.
    assert_eq!(rewrite_socket(&updated, "/run/php/php8.3-fpm-a_com.sock"), None);
}

#[test]
fn rewrite_socket_without_socket_line() {
    assert_eq!(rewrite_socket("server {\n  listen 80;\n}", "/x.sock"), None);
    assert_eq!(rewrite_socket("server {\n}\n", "/x.sock"), None);
    assert_eq!(rewrite_socket("\n", "/x.sock"), None);
    assert_eq!(rewrite_socket("", "/x.sock"), None);
    assert_eq!(rewrite_socket("fastcgi_pass 127.0.0.1:9000;\n", "/x.sock"), None);
}

#[test]
fn rewrite_socket_keeps_indentation() {
    let updated = rewrite_socket("\t  fastcgi_pass   unix:/old.sock ;", "/new.sock").unwrap();
    assert_eq!(updated, "\t  fastcgi_pass unix:/new.sock;");
}

#[test]
fn shared_socket_pattern() {
    assert!(is_shared_socket("/run/php/php8.3-fpm.sock"));
    assert!(!is_shared_socket("/run/php/php8.3-fpm-a_com.sock"));
    assert!(!is_shared_socket("/tmp/other.sock"));
    assert!(!is_shared_socket(&fpm_socket_path("a.com", "8.3")));
}

#[test]
fn root_project_dirs() {
    assert_eq!(root_project_dir("/var/www/a.com/public"), Some("a.com".to_string()));
    assert_eq!(root_project_dir("/var/www/a.com"), Some("a.com".to_string()));
    assert_eq!(root_project_dir("/var/www/"), Some(String::new()));
    assert_eq!(root_project_dir("/srv/a.com"), None);
    assert_eq!(root_project_dir("/var/wwwx/a"), None);
}

fn vhost(config: &str, content: &str) -> Vhost {
    parse_vhost(config.to_string(), true, content)
}

#[test]
fn parse_vhost_collects_fields() {
    let v = parse_vhost("example".to_string(), false, HANDWRITTEN);
    assert_eq!(v.config, "example");
    assert!(!v.enabled);
    assert_eq!(v.server_names, vec!["example.com", "www.example.com"]);
    assert_eq!(v.roots.len(), 2);
    assert_eq!(v.php_socket, Some("/run/php/php8.1-fpm.sock".to_string()));
}

#[test]
fn unserved_directories() {
    let vhosts = vec![
        vhost("a", "server_name a.com;\nroot /var/www/a.com/public;"),
        vhost("b", "server_name other.org;\nroot /var/www/b.com/current/public;"),
    ];
    let dirs = strings(&["c.com", "a.com", ".cache", "b.com", "d.com", "c.com"]);
    assert_eq!(unserved_dirs(&dirs, &vhosts), vec!["c.com", "d.com"]);
    assert!(unserved_dirs(&Vec::new(), &vhosts).is_empty());
}

#[test]
fn missing_project_dirs() {
    let dirs = strings(&["a.com"]);
    assert_eq!(missing_project("/var/www/a.com/public", &dirs), None);
    assert_eq!(missing_project("/var/www/gone.com/public", &dirs), Some("gone.com".to_string()));
    assert_eq!(missing_project("/srv/elsewhere", &dirs), None);
}

#[test]
fn generated_vhost_serves_its_directory() {
    let cfg = create_vhost_config(&strings(&["shop.example"]), "shop.example", "8.3", "public");
    let vhosts = vec![parse_vhost("shop.example".to_string(), true, &cfg)];
    let dirs = strings(&["shop.example", "other.example"]);
    assert_eq!(unserved_dirs(&dirs, &vhosts), vec!["other.example"]);
    // Served through its web root even when the server names differ.
    let cfg = create_vhost_config(&strings(&["www.shop.example"]), "shop.example", "8.3", "public");
    let vhosts = vec![parse_vhost("shop.example".to_string(), true, &cfg)];
    assert_eq!(unserved_dirs(&dirs, &vhosts), vec!["other.example"]);
}

#[test]
fn saved_copy_next_to_config() {
    assert_eq!(saved_copy_path("/etc/nginx/sites-available/a.com"), "/etc/nginx/sites-available/a.com.bak");
}

#[test]
fn rewrite_socket_joins_lines() {
    let updated = rewrite_socket("a\nfastcgi_pass unix:/old.sock;", "/new.sock").unwrap();
    assert_eq!(updated, "a\nfastcgi_pass unix:/new.sock;");
    assert_eq!(rewrite_socket(&updated, "/new.sock"), None);
    // Already pointing at the socket, but ending in a newline: the text
    // without it is written.
    assert_eq!(rewrite_socket("fastcgi_pass unix:/new.sock;\n", "/new.sock"), Some("fastcgi_pass unix:/new.sock;".to_string()));
    assert_eq!(rewrite_socket("a\r\nfastcgi_pass unix:/s;\r\n", "/s"), Some("a\nfastcgi_pass unix:/s;".to_string()));
}

#[test]
fn server_names_read_back_with_newline_in_web_root() {
    let names = vec!["a.com".to_string(), "www.a.com".to_string()];
    let config = create_vhost_config(&names, "a.com", "8.3", "pub\nlic");
    assert_eq!(server_names(&config), names);
}
