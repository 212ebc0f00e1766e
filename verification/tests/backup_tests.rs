use sitectl::backup::{
    backup_layout, bundle_tar, db_label, display_timestamp, du_bytes, files_tar, mysql_credentials,
    mysqldump_args, parse_dotenv, path_size_bytes, plan_db_dump, timestamp_command, DbDump, DotEnv,
    BACKUP_ROOT,
};
use sitectl::system::Invocation;

fn args_of(inv: &Invocation) -> Vec<&str> {
    inv.args.iter().map(|a| a.as_str()).collect()
}

#[test]
fn dotenv_parsing() {
    let env = parse_dotenv("# comment\nAPP_NAME=Shop\n\n  DB_HOST = db.local \nDB_PASSWORD=\"se cret\"\nQUOTED='x'\nHALF=\"x\nNOEQ\nDB_HOST=later\nEMPTY=\nURL=a=b\n");
    assert_eq!(env.get("APP_NAME"), Some("Shop".to_string()));
    assert_eq!(env.get("DB_HOST"), Some("later".to_string()));
    assert_eq!(env.get("DB_PASSWORD"), Some("se cret".to_string()));
    assert_eq!(env.get("QUOTED"), Some("x".to_string()));
    assert_eq!(env.get("HALF"), Some("\"x".to_string()));
    assert_eq!(env.get("NOEQ"), None);
    assert_eq!(env.get("EMPTY"), Some(String::new()));
    assert_eq!(env.get("URL"), Some("a=b".to_string()));
    assert_eq!(env.get("# comment"), None);
    assert_eq!(env.get_or("MISSING", "dflt"), "dflt");
    assert_eq!(env.get_or("APP_NAME", "dflt"), "Shop");
}

#[test]
fn dotenv_single_quote_char_is_kept() {
    let env = parse_dotenv("A=\"\nB='\nC=''\n");
    assert_eq!(env.get("A"), Some("\"".to_string()));
    assert_eq!(env.get("B"), Some("'".to_string()));
    assert_eq!(env.get("C"), Some(String::new()));
}

#[test]
fn dotenv_crlf_lines() {
    let env = parse_dotenv("DB_CONNECTION=mysql\r\nDB_DATABASE=shop\r\n");
    assert_eq!(env.get("DB_CONNECTION"), Some("mysql".to_string()));
    assert_eq!(env.get("DB_DATABASE"), Some("shop".to_string()));
}

#[test]
fn plan_mysql_with_defaults() {
    let env = parse_dotenv("DB_CONNECTION=mysql\nDB_DATABASE=shop\n");
    match plan_db_dump(&env, "/var/www/a.com") {
        DbDump::MySql { host, port, database, username, password } => {
            assert_eq!(host, "127.0.0.1");
            assert_eq!(port, "3306");
            assert_eq!(database, "shop");
            assert_eq!(username, "root");
            assert_eq!(password, "");
        },
        _ => panic!("expected a MySQL dump"),
    }
}

#[test]
fn plan_mariadb_with_settings() {
    let env = parse_dotenv("DB_CONNECTION=mariadb\nDB_HOST=db\nDB_PORT=3307\nDB_DATABASE=d\nDB_USERNAME=u\nDB_PASSWORD=p\n");
    match plan_db_dump(&env, "/var/www/a.com") {
        DbDump::MySql { host, port, database, username, password } => {
            assert_eq!((host.as_str(), port.as_str(), database.as_str(), username.as_str(), password.as_str()), ("db", "3307", "d", "u", "p"));
        },
        _ => panic!("expected a MySQL dump"),
    }
}

#[test]
fn plan_mysql_without_database() {
    let env = parse_dotenv("DB_CONNECTION=mysql\n");
    assert!(matches!(plan_db_dump(&env, "/var/www/a.com"), DbDump::MySqlNoDatabase));
    let env = parse_dotenv("DB_CONNECTION=mysql\nDB_DATABASE=\n");
    assert!(matches!(plan_db_dump(&env, "/var/www/a.com"), DbDump::MySqlNoDatabase));
}

#[test]
fn plan_sqlite_paths() {
    let env = parse_dotenv("DB_CONNECTION=sqlite\nDB_DATABASE=database/app.sqlite\n");
    match plan_db_dump(&env, "/var/www/a.com") {
        DbDump::Sqlite { path, database } => {
            assert_eq!(path, "/var/www/a.com/database/app.sqlite");
            assert_eq!(database, "database/app.sqlite");
        },
        _ => panic!("expected SQLite"),
    }
    let env = parse_dotenv("DB_CONNECTION=sqlite\nDB_DATABASE=/srv/db.sqlite\n");
    match plan_db_dump(&env, "/var/www/a.com") {
        DbDump::Sqlite { path, .. } => assert_eq!(path, "/srv/db.sqlite"),
        _ => panic!("expected SQLite"),
    }
    let env = parse_dotenv("DB_CONNECTION=sqlite\n");
    match plan_db_dump(&env, "/var/www/a.com") {
        DbDump::Sqlite { path, database } => {
            assert_eq!(path, "/var/www/a.com/");
            assert_eq!(database, "");
        },
        _ => panic!("expected SQLite"),
    }
}

#[test]
fn plan_none_and_unsupported() {
    let empty = DotEnv { entries: Vec::new() };
    assert!(matches!(plan_db_dump(&empty, "/var/www/a.com"), DbDump::NoDatabase));
    let env = parse_dotenv("DB_CONNECTION=none\n");
    assert!(matches!(plan_db_dump(&env, "/var/www/a.com"), DbDump::NoDatabase));
    let env = parse_dotenv("DB_CONNECTION=pgsql\n");
    match plan_db_dump(&env, "/var/www/a.com") {
        DbDump::Unsupported { connection } => assert_eq!(connection, "pgsql"),
        _ => panic!("expected unsupported"),
    }
}

#[test]
fn credentials_file_text() {
    assert_eq!(
        mysql_credentials("h", "1", "u", "p w"),
        "[mysqldump]\nhost=h\nport=1\nuser=u\npassword=p w\n"
    );
}

#[test]
fn mysqldump_arguments() {
    assert_eq!(
        mysqldump_args("/tmp/x/.my.cnf", "shop"),
        vec!["--defaults-extra-file=/tmp/x/.my.cnf", "--single-transaction", "--quick", "shop"]
    );
}

#[test]
fn layout_paths() {
    let l = backup_layout("a.com", "20260626-102147");
    assert_eq!(l.backup_name, "a.com-20260626-102147");
    assert_eq!(l.backup_dir, "/var/backups/sitectl/a.com");
    assert_eq!(l.stage_dir, "/tmp/sitectl-backup-20260626-102147");
    assert_eq!(l.stage_inner, "/tmp/sitectl-backup-20260626-102147/a.com-20260626-102147");
    assert_eq!(l.creds_path, "/tmp/sitectl-backup-20260626-102147/.my.cnf");
    assert_eq!(l.dump_path, "/tmp/sitectl-backup-20260626-102147/a.com-20260626-102147/db.sql");
    assert_eq!(l.sqlite_copy, "/tmp/sitectl-backup-20260626-102147/a.com-20260626-102147/db.sqlite");
    assert_eq!(l.files_archive, "/tmp/sitectl-backup-20260626-102147/a.com-20260626-102147/files.tar.gz");
    assert_eq!(l.final_archive, "/var/backups/sitectl/a.com/a.com-20260626-102147.tar.gz");
    assert_eq!(BACKUP_ROOT, "/var/backups/sitectl");
}

#[test]
fn tar_commands() {
    let t = files_tar("/tmp/s/files.tar.gz", "a.com");
    assert_eq!(t.program, "tar");
    assert_eq!(
        args_of(&t),
        vec![
            "-czf", "/tmp/s/files.tar.gz", "-C", "/var/www",
            "--exclude=a.com/vendor", "--exclude=a.com/node_modules", "--exclude=a.com/.git", "--exclude=a.com/storage/logs",
            "a.com",
        ]
    );
    assert!(!t.capture);
    let b = bundle_tar("/var/backups/sitectl/a.com/n.tar.gz", "/tmp/s", "n");
    assert_eq!(args_of(&b), vec!["-czf", "/var/backups/sitectl/a.com/n.tar.gz", "-C", "/tmp/s", "n"]);
    assert!(b.capture);
}

#[test]
fn helper_commands() {
    let d = timestamp_command();
    assert_eq!(d.program, "date");
    assert_eq!(args_of(&d), vec!["+%Y%m%d-%H%M%S"]);
    let du = du_bytes("/x");
    assert_eq!(du.program, "du");
    assert_eq!(args_of(&du), vec!["-sb", "/x"]);
}

#[test]
fn database_labels() {
    let m = DbDump::MySql {
        host: "h".into(), port: "1".into(), database: "shop".into(), username: "u".into(), password: "".into(),
    };
    assert_eq!(db_label(&m), "mysql:shop");
    let s = DbDump::Sqlite { path: "/p".into(), database: "db.sqlite".into() };
    assert_eq!(db_label(&s), "sqlite:db.sqlite");
    assert_eq!(db_label(&DbDump::NoDatabase), "");
}

#[test]
fn du_output_sizes() {
    assert_eq!(path_size_bytes(Some("12345\t/var/www/a.com")), 12345);
    assert_eq!(path_size_bytes(Some("  77  x")), 77);
    assert_eq!(path_size_bytes(Some("")), 0);
    assert_eq!(path_size_bytes(Some("abc 1")), 0);
    assert_eq!(path_size_bytes(None), 0);
}

#[test]
fn timestamp_display() {
    assert_eq!(display_timestamp("20260626-102147"), "2026-06-26 10:21:47");
    assert_eq!(display_timestamp("2026"), "2026");
    assert_eq!(display_timestamp(""), "");
    assert_eq!(display_timestamp("abcdefgh-ijklmn"), "abcd-ef-gh ij:kl:mn");
}

#[test]
fn timestamp_display_slices_bytes() {
    // 15 bytes, cut only at character starts: sliced by bytes.
    let ts = "2026éü-öäß";
    assert_eq!(ts.len(), 15);
    let want = format!("{}-{}-{} {}:{}:{}", &ts[0..4], &ts[4..6], &ts[6..8], &ts[9..11], &ts[11..13], &ts[13..15]);
    assert_eq!(display_timestamp(ts), want);
    assert_eq!(want, "2026-é-ü ö:ä:ß");
}
