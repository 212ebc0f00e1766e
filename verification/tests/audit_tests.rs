use sitectl::audit::{
    audit_project, extension, file_stem, has_webshell_name, needs_content, summarize, DirFacts, FileEntry,
    ProjectReport, ReportStatus, Severity,
};
use std::path::Path;

fn entry(rel: &str, depth: usize, mode: Option<u32>, is_file: bool, content: Option<&str>) -> FileEntry {
    let path = if rel.is_empty() { "/var/www/a.com".to_string() } else { format!("/var/www/a.com/{rel}") };
    let name = Path::new(&path).file_name().unwrap().to_string_lossy().to_string();
    FileEntry {
        path,
        rel: rel.to_string(),
        name,
        name_is_utf8: true,
        depth,
        mode,
        is_file,
        content: content.map(|c| c.to_string()),
    }
}

fn facts(perms: &str, owner: &str) -> Option<DirFacts> {
    Some(DirFacts { perms: perms.to_string(), owner: owner.to_string() })
}

fn messages(r: &ProjectReport) -> Vec<(Severity, String)> {
    r.issues.clone()
}

#[test]
fn report_basics() {
    let mut r = ProjectReport::new("a.com");
    assert_eq!(r.domain, "a.com");
    assert!(r.is_clean());
    assert_eq!(r.status(), ReportStatus::Clean);
    r.add(Severity::Warning, "w".to_string());
    assert!(!r.is_clean());
    assert!(!r.has_critical());
    assert_eq!(r.status(), ReportStatus::Suspicious);
    r.add(Severity::Critical, "c".to_string());
    assert!(r.has_critical());
    assert_eq!(r.status(), ReportStatus::Compromised);
    assert_eq!(r.issues.len(), 2);
}

#[test]
fn missing_directory_is_a_warning() {
    let r = audit_project("gone.com", None, &Vec::new());
    assert_eq!(messages(&r), vec![(Severity::Warning, "directory /var/www/gone.com does not exist".to_string())]);
    assert_eq!(r.status(), ReportStatus::Suspicious);
}

#[test]
fn clean_project() {
    let es = vec![
        entry("", 0, Some(0o40750), false, None),
        entry(".env", 1, Some(0o100600), true, None),
        entry("public/index.php", 2, Some(0o100644), true, Some("<?php echo 'hi';")),
        entry("public/.htaccess", 2, Some(0o100644), true, None),
        entry(".htaccess", 1, Some(0o100644), true, None),
    ];
    let r = audit_project("a.com", facts("750", "a_com"), &es);
    assert!(r.is_clean());
    assert_eq!(r.status(), ReportStatus::Clean);
}

#[test]
fn loose_directory_permissions() {
    let r = audit_project("a.com", facts("777", "root"), &Vec::new());
    assert_eq!(
        messages(&r),
        vec![(Severity::Warning, "directory permissions 777 (owned by root) \u{2014} recommend 750".to_string())]
    );
    assert!(audit_project("a.com", facts("770", "x"), &Vec::new()).issues.len() == 1);
    assert!(audit_project("a.com", facts("755", "x"), &Vec::new()).is_clean());
    assert!(audit_project("a.com", facts("750", "x"), &Vec::new()).is_clean());
}

#[test]
fn readable_env_files() {
    let es = vec![
        entry(".env", 1, Some(0o100644), true, None),
        entry("current/.env", 2, Some(0o100640), true, None),
        entry("a/b/c/d/.env", 5, Some(0o100644), true, None),
        entry("config/production.env", 2, Some(0o100604), true, None),
        entry("env", 1, Some(0o100644), true, None),
    ];
    let r = audit_project("a.com", facts("750", "a_com"), &es);
    assert_eq!(
        messages(&r),
        vec![
            (Severity::Warning, "/var/www/a.com/.env is 644 (group/world readable)".to_string()),
            (Severity::Warning, "/var/www/a.com/current/.env is 640 (group/world readable)".to_string()),
            (Severity::Warning, "/var/www/a.com/config/production.env is 604 (group/world readable)".to_string()),
        ]
    );
}

#[test]
fn world_writable_files() {
    let es = vec![
        entry("upload.txt", 1, Some(0o100666), true, None),
        entry("storage/logs/laravel.log", 3, Some(0o100666), true, None),
        entry(".git/config", 2, Some(0o100666), true, None),
        entry("cache", 1, Some(0o40777), false, None),
    ];
    let r = audit_project("a.com", facts("750", "a_com"), &es);
    assert_eq!(messages(&r), vec![(Severity::Warning, "world-writable file: /var/www/a.com/upload.txt".to_string())]);
}

#[test]
fn suspicious_php_names() {
    let es = vec![
        entry("public/Shell.php", 2, Some(0o100644), true, None),
        entry("public/uploader.php", 2, Some(0o100644), true, None),
        entry("public/shell.txt", 2, Some(0o100644), true, None),
        entry("public/index.php", 2, Some(0o100644), true, None),
    ];
    let r = audit_project("a.com", facts("750", "a_com"), &es);
    assert_eq!(
        messages(&r),
        vec![
            (Severity::Critical, "suspicious filename: /var/www/a.com/public/Shell.php".to_string()),
            (Severity::Critical, "suspicious filename: /var/www/a.com/public/uploader.php".to_string()),
        ]
    );
    assert_eq!(r.status(), ReportStatus::Compromised);
}

#[test]
fn webshell_patterns_in_php() {
    let big = format!("<?php base64_decode('{}');", "A".repeat(50_000));
    let es = vec![
        entry("public/a.php", 2, Some(0o100644), true, Some("<?php eval($_POST['x']); system($_GET['y']);")),
        entry("vendor/lib/b.php", 3, Some(0o100644), true, Some("<?php eval($_POST['x']);")),
        entry("public/big.php", 2, Some(0o100644), true, Some(&big)),
        entry("public/c.php", 2, Some(0o100644), true, None),
    ];
    let r = audit_project("a.com", facts("750", "a_com"), &es);
    assert_eq!(
        messages(&r),
        vec![
            (Severity::Critical, "webshell pattern 'system($_GET' in /var/www/a.com/public/a.php".to_string()),
            (Severity::Critical, format!("large base64-heavy file ({} bytes): /var/www/a.com/public/big.php", big.len())),
        ]
    );
}

#[test]
fn stray_htaccess() {
    let es = vec![
        entry("storage/.htaccess", 2, Some(0o100644), true, None),
        entry("current/public/.htaccess", 3, Some(0o100644), true, None),
        entry("public/.htaccess", 2, Some(0o100644), true, None),
    ];
    let r = audit_project("a.com", facts("750", "a_com"), &es);
    assert_eq!(messages(&r), vec![(Severity::Warning, ".htaccess outside web root: /var/www/a.com/storage/.htaccess".to_string())]);
}

#[test]
fn checks_run_in_order() {
    let es = vec![
        entry("x/shell.php", 2, Some(0o100666), true, Some("passthru($c);")),
        entry(".env", 1, Some(0o100644), true, None),
    ];
    let r = audit_project("a.com", facts("757", "root"), &es);
    let sev: Vec<Severity> = r.issues.iter().map(|(s, _)| *s).collect();
    assert_eq!(sev, vec![Severity::Warning, Severity::Warning, Severity::Warning, Severity::Critical, Severity::Critical]);
    assert!(r.issues[1].1.contains(".env is 644"));
    assert!(r.issues[2].1.starts_with("world-writable file"));
}

#[test]
fn extension_and_stem_match_std() {
    for name in ["a.php", "a.b.php", ".env", ".htaccess", "x", "a.", "archive.tar.gz", "ä.PHP", "...", "a..b"] {
        let p = Path::new(name);
        assert_eq!(extension(name), p.extension().map(|e| e.to_string_lossy().to_string()), "{name}");
        assert_eq!(file_stem(name), p.file_stem().map(|e| e.to_string_lossy().to_string()).unwrap_or_default(), "{name}");
    }
}

#[test]
fn content_is_read_for_php_outside_vendor() {
    assert!(needs_content("a.php", "/var/www/a/a.php"));
    assert!(!needs_content("a.php", "/var/www/a/vendor/a.php"));
    assert!(!needs_content("a.txt", "/var/www/a/a.txt"));
}

#[test]
fn summary_counts_every_project() {
    let clean = ProjectReport::new("c.com");
    let mut sus = ProjectReport::new("s.com");
    sus.add(Severity::Warning, "w".to_string());
    let mut bad = ProjectReport::new("b.com");
    bad.add(Severity::Warning, "w".to_string());
    bad.add(Severity::Critical, "c".to_string());
    let clean2 = ProjectReport::new("d.com");
    let reports = vec![clean, bad, sus, clean2];
    let s = summarize(&reports);
    assert_eq!(s.clean, 2);
    assert_eq!(s.suspicious, vec!["s.com"]);
    assert_eq!(s.compromised, vec!["b.com"]);
    assert_eq!(s.clean + s.suspicious.len() + s.compromised.len(), reports.len());
}

#[test]
fn webshell_name_check() {
    assert!(has_webshell_name("myshell"));
    assert!(has_webshell_name("c99"));
    assert!(has_webshell_name("file_uploader"));
    assert!(!has_webshell_name("index"));
    assert!(!has_webshell_name("Shell"));
    assert!(!has_webshell_name(""));
}
