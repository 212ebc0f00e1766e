//! The security audit of a project directory: which files and settings it
//! reports, with which severity, and how a project is classified.

use vstd::prelude::*;
use vstd::string::StringExecFns;
use crate::numfmt::{decimal, digits, octal};
use crate::system::{lowercase_of, to_lowercase};
use crate::text::{
    chars_of, contains, ends_with, has_substring, has_suffix, has_prefix, starts_with,
    str_eq, string_of,
};

verus! {

/// How serious a finding is.
#[derive(Clone, Copy, PartialEq, Eq, Structural, Debug)]
pub enum Severity {
    /// Signs of a compromise.
    Critical,
    /// A weakness worth fixing.
    Warning,
}

/// The verdict on a project.
#[derive(Clone, Copy, PartialEq, Eq, Structural, Debug)]
pub enum ReportStatus {
    /// At least one critical finding.
    Compromised,
    /// Findings, none of them critical.
    Suspicious,
    /// No findings.
    Clean,
}

/// The findings of the audit of one project.
pub struct ProjectReport {
    /// The project's domain.
    pub domain: String,
    /// Findings, in the order they were made.
    pub issues: Vec<(Severity, String)>,
}

/// Findings with their messages as character sequences.
pub open spec fn issue_views(issues: Seq<(Severity, String)>) -> Seq<(Severity, Seq<char>)> {
    issues.map_values(|i: (Severity, String)| (i.0, i.1@))
}

/// Some finding is critical.
pub open spec fn has_critical_issue(issues: Seq<(Severity, Seq<char>)>) -> bool {
    exists|i: int| 0 <= i < issues.len() && #[trigger] issues[i].0 == Severity::Critical
}

/// The verdict for a list of findings.
pub open spec fn spec_status(issues: Seq<(Severity, Seq<char>)>) -> ReportStatus {
    if has_critical_issue(issues) {
        ReportStatus::Compromised
    } else if issues.len() > 0 {
        ReportStatus::Suspicious
    } else {
        ReportStatus::Clean
    }
}

/// A project is clean exactly when the audit found nothing, and
/// compromised exactly when one finding is critical.
pub proof fn lemma_status_meaning(issues: Seq<(Severity, Seq<char>)>)
    ensures
        (spec_status(issues) == ReportStatus::Clean) <==> issues.len() == 0,
        (spec_status(issues) == ReportStatus::Compromised) <==> has_critical_issue(issues),
        (spec_status(issues) == ReportStatus::Suspicious) <==> (issues.len() > 0 && !has_critical_issue(issues)),
{
    if issues.len() == 0 {
        assert(!has_critical_issue(issues));
    }
}

impl ProjectReport {
    /// An empty report for `domain`.
    pub fn new(domain: &str) -> (r: Self)
        ensures
            r.domain@ == domain@,
            r.issues@.len() == 0,
    {
        ProjectReport { domain: String::from_str(domain), issues: Vec::new() }
    }

    /// Records a finding.
    pub fn add(&mut self, sev: Severity, msg: String)
        ensures
            final(self).domain == old(self).domain,
            final(self).issues@ == old(self).issues@.push((sev, msg)),
    {
        self.issues.push((sev, msg));
    }

    /// No findings.
    pub fn is_clean(&self) -> (r: bool)
        ensures
            r == (self.issues@.len() == 0),
    {
        self.issues.len() == 0
    }

    /// Some finding is critical.
    pub fn has_critical(&self) -> (r: bool)
        ensures
            r == has_critical_issue(issue_views(self.issues@)),
    {
        let ghost iv = issue_views(self.issues@);
        let mut i: usize = 0;
        while i < self.issues.len()
            invariant
                i <= self.issues@.len(),
                iv == issue_views(self.issues@),
                forall|k: int| 0 <= k < i ==> #[trigger] iv[k].0 != Severity::Critical,
            decreases self.issues@.len() - i,
        {
            if self.issues[i].0 == Severity::Critical {
                assert(iv[i as int].0 == Severity::Critical);
                return true;
            }
            i += 1;
        }
        false
    }

    /// COMPROMISED if a finding is critical, SUSPICIOUS if there are other
    /// findings, CLEAN if there are none.
    pub fn status(&self) -> (s: ReportStatus)
        ensures
            s == spec_status(issue_views(self.issues@)),
    {
        if self.has_critical() {
            ReportStatus::Compromised
        } else if !self.is_clean() {
            ReportStatus::Suspicious
        } else {
            ReportStatus::Clean
        }
    }
}

/// File stems that mark a PHP file as a likely web shell.
pub open spec fn webshell_names() -> Seq<Seq<char>> {
    seq![
        "shell"@, "cmd"@, "c99"@, "r57"@, "alfa"@, "wso"@, "b374k"@, "bypass"@,
        "exploit"@, "backdoor"@, "webshell"@, "upload"@, "hack"@,
    ]
}

/// Code fragments that mark a PHP file as a likely web shell, in the order tried.
pub open spec fn webshell_patterns() -> Seq<Seq<char>> {
    seq![
        "eval(base64_decode"@, "eval(gzinflate"@, "eval(str_rot13"@, "assert($_POST"@,
        "assert($_GET"@, "assert($_REQUEST"@, "system($_GET"@, "system($_POST"@,
        "system($_REQUEST"@, "shell_exec("@, "passthru("@, "preg_replace.*\\/e"@,
        "eval($_REQUEST"@, "eval($_POST"@, "eval($_GET"@,
    ]
}

/// The web-shell stems as strings.
fn webshell_name_list() -> (v: Vec<String>)
    ensures
        crate::text::string_views(v@) == webshell_names(),
{
    let mut v: Vec<String> = Vec::new();
    v.push(String::from_str("shell"));
    v.push(String::from_str("cmd"));
    v.push(String::from_str("c99"));
    v.push(String::from_str("r57"));
    v.push(String::from_str("alfa"));
    v.push(String::from_str("wso"));
    v.push(String::from_str("b374k"));
    v.push(String::from_str("bypass"));
    v.push(String::from_str("exploit"));
    v.push(String::from_str("backdoor"));
    v.push(String::from_str("webshell"));
    v.push(String::from_str("upload"));
    v.push(String::from_str("hack"));
    assert(crate::text::string_views(v@) =~= webshell_names());
    v
}

/// The web-shell code fragments as strings.
fn webshell_pattern_list() -> (v: Vec<String>)
    ensures
        crate::text::string_views(v@) == webshell_patterns(),
{
    let mut v: Vec<String> = Vec::new();
    v.push(String::from_str("eval(base64_decode"));
    v.push(String::from_str("eval(gzinflate"));
    v.push(String::from_str("eval(str_rot13"));
    v.push(String::from_str("assert($_POST"));
    v.push(String::from_str("assert($_GET"));
    v.push(String::from_str("assert($_REQUEST"));
    v.push(String::from_str("system($_GET"));
    v.push(String::from_str("system($_POST"));
    v.push(String::from_str("system($_REQUEST"));
    v.push(String::from_str("shell_exec("));
    v.push(String::from_str("passthru("));
    v.push(String::from_str("preg_replace.*\\/e"));
    v.push(String::from_str("eval($_REQUEST"));
    v.push(String::from_str("eval($_POST"));
    v.push(String::from_str("eval($_GET"));
    assert(crate::text::string_views(v@) =~= webshell_patterns());
    v
}

/// What the audit knows of one entry of the project's directory tree
/// (the walk includes the project directory itself, at depth 0).
pub struct FileEntry {
    /// The entry's path, as displayed.
    pub path: String,
    /// The path relative to the project directory.
    pub rel: String,
    /// The entry's file name.
    pub name: String,
    /// Whether the file name is valid UTF-8.
    pub name_is_utf8: bool,
    /// Depth below the project directory.
    pub depth: usize,
    /// Permission and type bits (`st_mode`), when its metadata could be read.
    pub mode: Option<u32>,
    /// Whether it is a regular file (following links).
    pub is_file: bool,
    /// Its text, read only where `needs_content` asks for it; `None` when
    /// not read or unreadable.
    pub content: Option<String>,
}

/// Index of the last `.` in `s`, or -1.
pub open spec fn last_dot(s: Seq<char>) -> int
    decreases s.len(),
{
    if s.len() == 0 {
        -1
    } else if s.last() == '.' {
        s.len() - 1
    } else {
        last_dot(s.drop_last())
    }
}

/// The extension of a file name, as std's `Path::extension` splits it: the
/// part after the last dot, when there is a dot that does not start the name.
pub open spec fn spec_extension(name: Seq<char>) -> Option<Seq<char>> {
    if name == ".."@ || last_dot(name) <= 0 {
        None
    } else {
        Some(name.skip(last_dot(name) + 1))
    }
}

/// The stem of a file name, as std's `Path::file_stem` splits it.
pub open spec fn spec_file_stem(name: Seq<char>) -> Seq<char> {
    if name == ".."@ || last_dot(name) <= 0 {
        name
    } else {
        name.take(last_dot(name))
    }
}

/// One past the position of the last `.` in `v` (0 when there is none).
fn find_last_dot(v: &Vec<char>) -> (j: usize)
    ensures
        j <= v@.len(),
        j == last_dot(v@) + 1,
{
    let mut j: usize = v.len();
    assert(v@.take(j as int) =~= v@);
    while j > 0 && v[j - 1] != '.'
        invariant
            j <= v@.len(),
            last_dot(v@.take(j as int)) == last_dot(v@),
        decreases j,
    {
        assert(v@.take(j as int).drop_last() =~= v@.take(j - 1));
        j -= 1;
    }
    j
}

/// The extension of a file name (std `Path::extension`).
pub fn extension(name: &str) -> (ext: Option<String>)
    ensures
        match ext {
            Some(e) => spec_extension(name@) == Some(e@),
            None => spec_extension(name@) is None,
        },
{
    let v = chars_of(name);
    let j = find_last_dot(&v);
    if str_eq(name, "..") || j <= 1 {
        None
    } else {
        Some(string_of(crate::text::copy_range(&v, j, v.len()).as_slice()))
    }
}

/// The stem of a file name (std `Path::file_stem`).
pub fn file_stem(name: &str) -> (stem: String)
    ensures
        stem@ == spec_file_stem(name@),
{
    let v = chars_of(name);
    let j = find_last_dot(&v);
    if str_eq(name, "..") || j <= 1 {
        String::from_str(name)
    } else {
        string_of(crate::text::copy_range(&v, 0, j - 1).as_slice())
    }
}

/// A finding, with its message as a character sequence.
pub type IssueView = (Severity, Seq<char>);

/// A `.env` file, or a file whose name ends in `.env`.
pub open spec fn is_env_name(name: Seq<char>) -> bool {
    name == ".env"@ || ends_with(name, ".env"@)
}

/// A PHP source file (extension `php`).
pub open spec fn is_php_name(name: Seq<char>) -> bool {
    spec_extension(name) == Some("php"@)
}

/// Whether the audit reads the entry's text: PHP files outside `/vendor/`.
pub open spec fn spec_needs_content(name: Seq<char>, path: Seq<char>) -> bool {
    is_php_name(name) && !contains(path, "/vendor/"@)
}

/// Length in bytes of the UTF-8 encoding of `s` (std `str::len`).
pub open spec fn byte_len(s: Seq<char>) -> usize {
    vstd::utf8::encode_utf8(s).len() as usize
}

/// The directory does not exist.
pub open spec fn missing_dir_issue(domain: Seq<char>) -> IssueView {
    (Severity::Warning, "directory "@ + "/var/www/"@ + domain + " does not exist"@)
}

/// Permission bits that the audit calls loose: world bits `7`, or `77` anywhere.
pub open spec fn loose_dir_perms(perms: Seq<char>) -> bool {
    ends_with(perms, "7"@) || contains(perms, "77"@)
}

/// Finding on the project directory's permissions.
pub open spec fn perms_issues(perms: Seq<char>, owner: Seq<char>) -> Seq<IssueView> {
    if loose_dir_perms(perms) {
        seq![(Severity::Warning, "directory permissions "@ + perms + " (owned by "@ + owner + ") \u{2014} recommend 750"@)]
    } else {
        seq![]
    }
}

/// Finding on a group- or world-readable `.env` file within four levels.
pub open spec fn env_issues(e: FileEntry) -> Seq<IssueView> {
    match e.mode {
        Some(m) => if e.depth <= 4 && is_env_name(e.name@) && (m & 0o777u32) & 0o044u32 != 0 {
            seq![(Severity::Warning, e.path@ + " is "@ + digits((m & 0o777u32) as nat, 8) + " (group/world readable)"@)]
        } else {
            seq![]
        },
        None => seq![],
    }
}

/// Finding on a world-writable regular file outside logs and `.git`.
pub open spec fn world_writable_issues(e: FileEntry) -> Seq<IssueView> {
    match e.mode {
        Some(m) => if m & 0o002u32 != 0 && e.is_file && !contains(e.path@, "/storage/logs/"@)
            && !contains(e.path@, "/.git/"@) {
            seq![(Severity::Warning, "world-writable file: "@ + e.path@)]
        } else {
            seq![]
        },
        None => seq![],
    }
}

/// The stem the name check looks at: empty when the name is not UTF-8.
pub open spec fn entry_stem(e: FileEntry) -> Seq<char> {
    if e.name_is_utf8 { spec_file_stem(e.name@) } else { seq![] }
}

/// The lowercased stem contains a web-shell name.
pub open spec fn is_webshell_stem(lower_stem: Seq<char>) -> bool {
    exists|i: int| 0 <= i < webshell_names().len() && contains(lower_stem, #[trigger] webshell_names()[i])
}

/// Finding on a PHP file named like a web shell.
pub open spec fn name_issues(e: FileEntry) -> Seq<IssueView> {
    if is_php_name(e.name@) && is_webshell_stem(lowercase_of(entry_stem(e))) {
        seq![(Severity::Critical, "suspicious filename: "@ + e.path@)]
    } else {
        seq![]
    }
}

/// The first of `pats` that occurs in `c`.
pub open spec fn first_pattern(c: Seq<char>, pats: Seq<Seq<char>>) -> Option<Seq<char>>
    decreases pats.len(),
{
    if pats.len() == 0 {
        None
    } else if contains(c, pats[0]) {
        Some(pats[0])
    } else {
        first_pattern(c, pats.drop_first())
    }
}

/// Findings on the text of a PHP file: its first web-shell pattern, and a
/// file over 50000 bytes that calls `base64_decode`.
pub open spec fn content_issues(e: FileEntry) -> Seq<IssueView> {
    if spec_needs_content(e.name@, e.path@) && e.content is Some {
        let c = e.content->0@;
        (match first_pattern(c, webshell_patterns()) {
            Some(p) => seq![(Severity::Critical, "webshell pattern '"@ + p + "' in "@ + e.path@)],
            None => seq![],
        }) + (if contains(c, "base64_decode"@) && byte_len(c) > 50000 {
            seq![(Severity::Critical, "large base64-heavy file ("@ + digits(byte_len(c) as nat, 10) + " bytes): "@ + e.path@)]
        } else {
            seq![]
        })
    } else {
        seq![]
    }
}

/// Finding on an `.htaccess` file below the top level, outside `public/`.
pub open spec fn htaccess_issues(e: FileEntry) -> Seq<IssueView> {
    if e.name@ == ".htaccess"@ && contains(e.rel@, "/"@) && !starts_with(e.rel@, "public/"@)
        && !starts_with(e.rel@, "current/public/"@) {
        seq![(Severity::Warning, ".htaccess outside web root: "@ + e.path@)]
    } else {
        seq![]
    }
}

/// The check of pass `k` of the audit, on one entry.
pub open spec fn pass_issues(k: int, e: FileEntry) -> Seq<IssueView> {
    if k == 0 {
        env_issues(e)
    } else if k == 1 {
        world_writable_issues(e)
    } else if k == 2 {
        name_issues(e)
    } else if k == 3 {
        content_issues(e)
    } else {
        htaccess_issues(e)
    }
}

/// The findings of pass `k` over `es`, in order.
pub open spec fn pass_over(k: int, es: Seq<FileEntry>) -> Seq<IssueView>
    decreases es.len(),
{
    if es.len() == 0 {
        seq![]
    } else {
        pass_over(k, es.drop_last()) + pass_issues(k, es.last())
    }
}

/// Facts about an existing project directory.
pub struct DirFacts {
    /// Its permission bits in octal, e.g. "750".
    pub perms: String,
    /// Its owner's user name.
    pub owner: String,
}

/// All findings of the audit of a project, in the order the checks run:
/// directory permissions, `.env` files, world-writable files, suspicious
/// names, web-shell code, stray `.htaccess` files.
pub open spec fn spec_audit_issues(domain: Seq<char>, dir: Option<DirFacts>, es: Seq<FileEntry>) -> Seq<IssueView> {
    match dir {
        None => seq![missing_dir_issue(domain)],
        Some(d) => perms_issues(d.perms@, d.owner@) + pass_over(0, es) + pass_over(1, es)
            + pass_over(2, es) + pass_over(3, es) + pass_over(4, es),
    }
}

/// Whether the audit wants the text of a file.
pub fn needs_content(name: &str, path: &str) -> (r: bool)
    ensures
        r == spec_needs_content(name@, path@),
{
    let is_php = match extension(name) {
        Some(e) => str_eq(e.as_str(), "php"),
        None => false,
    };
    is_php && !has_substring(&chars_of(path), &chars_of("/vendor/"))
}

/// Whether a lowercased file stem contains one of the web-shell names.
pub fn has_webshell_name(lower_stem: &str) -> (hit: bool)
    ensures
        hit == is_webshell_stem(lower_stem@),
{
    let names = webshell_name_list();
    let lower = chars_of(lower_stem);
    let mut i: usize = 0;
    let mut hit = false;
    while i < names.len()
        invariant
            i <= names@.len(),
            crate::text::string_views(names@) == webshell_names(),
            lower@ == lower_stem@,
            hit == exists|j: int| 0 <= j < i && contains(lower@, #[trigger] webshell_names()[j]),
        decreases names@.len() - i,
    {
        assert(names@[i as int]@ == webshell_names()[i as int]);
        if has_substring(&lower, &chars_of(names[i].as_str())) {
            hit = true;
        }
        i += 1;
    }
    hit
}

/// The findings for one entry in pass `k`.
fn entry_issues(k: u8, e: &FileEntry, names: &Vec<String>, pats: &Vec<String>) -> (res: Vec<(Severity, String)>)
    requires
        crate::text::string_views(names@) == webshell_names(),
        crate::text::string_views(pats@) == webshell_patterns(),
    ensures
        issue_views(res@) == pass_issues(k as int, *e),
{
    let mut res: Vec<(Severity, String)> = Vec::new();
    let path = chars_of(e.path.as_str());
    if k == 0 {
        match e.mode {
            Some(m) => {
                let name = chars_of(e.name.as_str());
                if e.depth <= 4 && (str_eq(e.name.as_str(), ".env") || has_suffix(&name, &chars_of(".env")))
                    && (m & 0o777u32) & 0o044u32 != 0 {
                    let msg = String::from_str(e.path.as_str()).concat(" is ").concat(octal(m & 0o777u32).as_str()).concat(" (group/world readable)");
                    res.push((Severity::Warning, msg));
                }
            },
            None => {},
        }
    } else if k == 1 {
        match e.mode {
            Some(m) => {
                if m & 0o002u32 != 0 && e.is_file && !has_substring(&path, &chars_of("/storage/logs/"))
                    && !has_substring(&path, &chars_of("/.git/")) {
                    res.push((Severity::Warning, String::from_str("world-writable file: ").concat(e.path.as_str())));
                }
            },
            None => {},
        }
    } else if k == 2 {
        let is_php = match extension(e.name.as_str()) {
            Some(x) => str_eq(x.as_str(), "php"),
            None => false,
        };
        if is_php {
            let stem = if e.name_is_utf8 { file_stem(e.name.as_str()) } else { String::new() };
            let lower = to_lowercase(stem.as_str());
            let hit = has_webshell_name(lower.as_str());
            if hit {
                res.push((Severity::Critical, String::from_str("suspicious filename: ").concat(e.path.as_str())));
            }
        }
    } else if k == 3 {
        if needs_content(e.name.as_str(), e.path.as_str()) {
            match &e.content {
                Some(text) => {
                    let c = chars_of(text.as_str());
                    let mut i: usize = 0;
                    let ghost all = webshell_patterns();
                    assert(all.skip(0) =~= all);
                    while i < pats.len()
                        invariant_except_break
                            res@.len() == 0,
                        invariant
                            i <= pats@.len(),
                            crate::text::string_views(pats@) == all,
                            all == webshell_patterns(),
                            c@ == text@,
                            first_pattern(c@, all.skip(i as int)) == first_pattern(c@, all),
                        ensures
                            match first_pattern(c@, all) {
                                Some(p) => issue_views(res@) == seq![(Severity::Critical, "webshell pattern '"@ + p + "' in "@ + e.path@)],
                                None => res@.len() == 0,
                            },
                        decreases pats@.len() - i,
                    {
                        let ghost rest = all.skip(i as int);
                        assert(rest[0] == pats@[i as int]@);
                        assert(rest.drop_first() =~= all.skip(i + 1));
                        if has_substring(&c, &chars_of(pats[i].as_str())) {
                            let msg = String::from_str("webshell pattern '").concat(pats[i].as_str()).concat("' in ").concat(e.path.as_str());
                            res.push((Severity::Critical, msg));
                            assert(issue_views(res@) =~= seq![(Severity::Critical, "webshell pattern '"@ + rest[0] + "' in "@ + e.path@)]);
                            break;
                        }
                        i += 1;
                    }
                    proof {
                        if i == pats@.len() {
                            assert(all.skip(i as int) =~= Seq::<Seq<char>>::empty());
                        }
                    }
                    let ghost before = issue_views(res@);
                    let ts = text.as_str();
                    let blen = ts.len();
                    assert(ts@ == c@);
                    if has_substring(&c, &chars_of("base64_decode")) && blen > 50000 {
                        let msg = String::from_str("large base64-heavy file (").concat(decimal(blen as u64).as_str()).concat(" bytes): ").concat(e.path.as_str());
                        res.push((Severity::Critical, msg));
                        assert(issue_views(res@) =~= before.push((Severity::Critical, msg@)));
                    }
                    proof {
                        assert(byte_len(c@) == blen);
                        match first_pattern(c@, all) {
                            Some(p) => {},
                            None => {
                                assert(before =~= Seq::<IssueView>::empty());
                            },
                        }
                    }
                },
                None => {},
            }
        }
    } else {
        let rel = chars_of(e.rel.as_str());
        if str_eq(e.name.as_str(), ".htaccess") && has_substring(&rel, &chars_of("/"))
            && !has_prefix(&rel, &chars_of("public/")) && !has_prefix(&rel, &chars_of("current/public/")) {
            res.push((Severity::Warning, String::from_str(".htaccess outside web root: ").concat(e.path.as_str())));
        }
    }
    assert(issue_views(res@) =~= pass_issues(k as int, *e));
    res
}

/// Records the findings of pass `k` over all entries.
fn run_pass(report: &mut ProjectReport, k: u8, es: &Vec<FileEntry>, names: &Vec<String>, pats: &Vec<String>)
    requires
        crate::text::string_views(names@) == webshell_names(),
        crate::text::string_views(pats@) == webshell_patterns(),
    ensures
        final(report).domain == old(report).domain,
        issue_views(final(report).issues@) == issue_views(old(report).issues@) + pass_over(k as int, es@),
{
    let ghost start = issue_views(report.issues@);
    let mut i: usize = 0;
    assert(start + pass_over(k as int, es@.take(0)) =~= start);
    while i < es.len()
        invariant
            i <= es@.len(),
            crate::text::string_views(names@) == webshell_names(),
            crate::text::string_views(pats@) == webshell_patterns(),
            report.domain == old(report).domain,
            start == issue_views(old(report).issues@),
            issue_views(report.issues@) == start + pass_over(k as int, es@.take(i as int)),
        decreases es@.len() - i,
    {
        let found = entry_issues(k, &es[i], names, pats);
        let ghost before = issue_views(report.issues@);
        let mut j: usize = 0;
        while j < found.len()
            invariant
                j <= found@.len(),
                report.domain == old(report).domain,
                issue_views(report.issues@) == before + issue_views(found@.take(j as int)),
            decreases found@.len() - j,
        {
            let sev = found[j].0;
            let msg = found[j].1.clone();
            let ghost prev = report.issues@;
            report.add(sev, msg);
            proof {
                assert(issue_views(report.issues@) =~= issue_views(prev).push((sev, msg@)));
                assert(issue_views(found@.take(j + 1)) =~= issue_views(found@.take(j as int)).push((found@[j as int].0, found@[j as int].1@)));
            }
            j += 1;
        }
        proof {
            assert(found@.take(found@.len() as int) =~= found@);
            assert(es@.take(i + 1).drop_last() =~= es@.take(i as int));
            assert(es@.take(i + 1).last() == es@[i as int]);
        }
        i += 1;
    }
    assert(es@.take(es@.len() as int) =~= es@);
}

/// The audit of the project `domain`: `dir` holds the facts about its
/// directory (`None` when it does not exist), `entries` the walk of its
/// tree in order.
pub fn audit_project(domain: &str, dir: Option<DirFacts>, entries: &Vec<FileEntry>) -> (report: ProjectReport)
    ensures
        report.domain@ == domain@,
        issue_views(report.issues@) == spec_audit_issues(domain@, dir, entries@),
{
    let mut report = ProjectReport::new(domain);
    match dir {
        None => {
            let msg = String::from_str("directory ").concat("/var/www/").concat(domain).concat(" does not exist");
            report.add(Severity::Warning, msg);
            assert(issue_views(report.issues@) =~= seq![missing_dir_issue(domain@)]);
            report
        },
        Some(d) => {
            let perms = chars_of(d.perms.as_str());
            if has_suffix(&perms, &chars_of("7")) || has_substring(&perms, &chars_of("77")) {
                let msg = String::from_str("directory permissions ").concat(d.perms.as_str()).concat(" (owned by ")
                    .concat(d.owner.as_str()).concat(") \u{2014} recommend 750");
                report.add(Severity::Warning, msg);
            }
            assert(issue_views(report.issues@) =~= perms_issues(d.perms@, d.owner@));
            let names = webshell_name_list();
            let pats = webshell_pattern_list();
            run_pass(&mut report, 0, entries, &names, &pats);
            run_pass(&mut report, 1, entries, &names, &pats);
            run_pass(&mut report, 2, entries, &names, &pats);
            run_pass(&mut report, 3, entries, &names, &pats);
            run_pass(&mut report, 4, entries, &names, &pats);
            report
        },
    }
}

/// How the projects of an audit came out: the number of clean ones, and the
/// domains of the suspicious and the compromised ones, in audit order.
pub struct AuditSummary {
    /// Number of clean projects.
    pub clean: usize,
    /// Domains with findings, none critical.
    pub suspicious: Vec<String>,
    /// Domains with a critical finding.
    pub compromised: Vec<String>,
}

/// The domains of the reports with verdict `st`, in order.
pub open spec fn domains_with(reports: Seq<ProjectReport>, st: ReportStatus) -> Seq<Seq<char>>
    decreases reports.len(),
{
    if reports.len() == 0 {
        seq![]
    } else {
        domains_with(reports.drop_last(), st) + (if spec_status(issue_views(reports.last().issues@)) == st {
            seq![reports.last().domain@]
        } else {
            seq![]
        })
    }
}

/// Every report has exactly one verdict, so the clean, suspicious and
/// compromised projects together are all the projects audited.
pub proof fn lemma_verdicts_partition(reports: Seq<ProjectReport>)
    ensures
        domains_with(reports, ReportStatus::Clean).len() + domains_with(reports, ReportStatus::Suspicious).len()
            + domains_with(reports, ReportStatus::Compromised).len() == reports.len(),
    decreases reports.len(),
{
    if reports.len() > 0 {
        lemma_verdicts_partition(reports.drop_last());
    }
}

/// Sorts the reports of an audit run by verdict.
pub fn summarize(reports: &Vec<ProjectReport>) -> (s: AuditSummary)
    ensures
        crate::text::string_views(s.suspicious@) == domains_with(reports@, ReportStatus::Suspicious),
        crate::text::string_views(s.compromised@) == domains_with(reports@, ReportStatus::Compromised),
        s.clean == domains_with(reports@, ReportStatus::Clean).len(),
        s.clean + s.suspicious@.len() + s.compromised@.len() == reports@.len(),
{
    proof {
        lemma_verdicts_partition(reports@);
    }
    let mut clean: usize = 0;
    let mut suspicious: Vec<String> = Vec::new();
    let mut compromised: Vec<String> = Vec::new();
    let mut i: usize = 0;
    while i < reports.len()
        invariant
            i <= reports@.len(),
            clean <= i,
            crate::text::string_views(suspicious@) == domains_with(reports@.take(i as int), ReportStatus::Suspicious),
            crate::text::string_views(compromised@) == domains_with(reports@.take(i as int), ReportStatus::Compromised),
            clean == domains_with(reports@.take(i as int), ReportStatus::Clean).len(),
        decreases reports@.len() - i,
    {
        let r = &reports[i];
        let st = r.status();
        let ghost t1 = reports@.take(i + 1);
        proof {
            assert(t1.drop_last() =~= reports@.take(i as int));
            assert(t1.last() == reports@[i as int]);
        }
        let ghost sv = crate::text::string_views(suspicious@);
        let ghost cv = crate::text::string_views(compromised@);
        match st {
            ReportStatus::Compromised => {
                compromised.push(r.domain.clone());
                assert(crate::text::string_views(compromised@) =~= cv.push(r.domain@));
                assert(domains_with(t1, ReportStatus::Suspicious) =~= sv);
                assert(domains_with(t1, ReportStatus::Clean) =~= domains_with(reports@.take(i as int), ReportStatus::Clean));
            },
            ReportStatus::Suspicious => {
                suspicious.push(r.domain.clone());
                assert(crate::text::string_views(suspicious@) =~= sv.push(r.domain@));
                assert(domains_with(t1, ReportStatus::Compromised) =~= cv);
                assert(domains_with(t1, ReportStatus::Clean) =~= domains_with(reports@.take(i as int), ReportStatus::Clean));
            },
            ReportStatus::Clean => {
                clean += 1;
                assert(domains_with(t1, ReportStatus::Compromised) =~= cv);
                assert(domains_with(t1, ReportStatus::Suspicious) =~= sv);
            },
        }
        i += 1;
    }
    assert(reports@.take(reports@.len() as int) =~= reports@);
    AuditSummary { clean, suspicious, compromised }
}

/// The `.env` check flags only files whose name ends in the four
/// characters `.env` (`.env` itself among them): no entry of any other name,
/// such as `.env.example` or `.envrc`, gets a `.env` finding, whatever its
/// mode and depth.
pub proof fn lemma_env_finding_needs_env_suffix(es: Seq<FileEntry>)
    requires
        forall|k: int| 0 <= k < es.len() ==> {
            let n = (#[trigger] es[k]).name@;
            !(n.len() >= 4 && n[n.len() - 4] == '.' && n[n.len() - 3] == 'e' && n[n.len() - 2] == 'n'
                && n[n.len() - 1] == 'v')
        },
    ensures
        pass_over(0, es) == Seq::<IssueView>::empty(),
    decreases es.len(),
{
    if es.len() > 0 {
        let d = es.drop_last();
        assert forall|k: int| 0 <= k < d.len() implies {
            let n = (#[trigger] d[k]).name@;
            !(n.len() >= 4 && n[n.len() - 4] == '.' && n[n.len() - 3] == 'e' && n[n.len() - 2] == 'n'
                && n[n.len() - 1] == 'v')
        } by {
            assert(d[k] == es[k]);
        }
        lemma_env_finding_needs_env_suffix(d);
        let e = es.last();
        let n = e.name@;
        assert(es[es.len() - 1] == e);
        if is_env_name(n) {
            reveal_strlit(".env");
            if n == ".env"@ {
                assert(n.len() == 4);
            } else {
                assert(n.skip(n.len() - 4) == ".env"@);
                assert(n.skip(n.len() - 4)[0] == n[n.len() - 4]);
                assert(n.skip(n.len() - 4)[1] == n[n.len() - 3]);
                assert(n.skip(n.len() - 4)[2] == n[n.len() - 2]);
                assert(n.skip(n.len() - 4)[3] == n[n.len() - 1]);
            }
            assert(false);
        }
        assert(pass_issues(0, e) =~= Seq::<IssueView>::empty());
        assert(pass_over(0, es) =~= Seq::<IssueView>::empty());
    }
}

/// A file within four levels whose name ends in `.env` and that its group
/// or others can read (`mode & 0o044 != 0`) gets exactly one finding from
/// the `.env` check: a warning that names its path.
pub proof fn lemma_readable_env_file_flagged(e: FileEntry, m: u32)
    requires
        e.mode == Some(m),
        e.depth <= 4,
        e.name@.len() >= 4,
        e.name@[e.name@.len() - 4] == '.',
        e.name@[e.name@.len() - 3] == 'e',
        e.name@[e.name@.len() - 2] == 'n',
        e.name@[e.name@.len() - 1] == 'v',
        m & 0o044u32 != 0,
    ensures
        pass_issues(0, e).len() == 1,
        pass_issues(0, e)[0].0 == Severity::Warning,
        starts_with(pass_issues(0, e)[0].1, e.path@),
{
    reveal_strlit(".env");
    let n = e.name@;
    assert(n.skip(n.len() - 4) =~= ".env"@);
    assert(is_env_name(n));
    assert((m & 0o777u32) & 0o044u32 != 0) by (bit_vector)
        requires
            m & 0o044u32 != 0,
    ;
    let msg = e.path@ + " is "@ + digits((m & 0o777u32) as nat, 8) + " (group/world readable)"@;
    assert(msg.take(e.path@.len() as int) =~= e.path@);
}

} // verus!
