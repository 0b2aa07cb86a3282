use zypi::zypper::{check_exit, listing_patches, zypper_arguments, ZypperError};
use zypi::{Patch, PatchIssue, PatchIssueDate, PatchIssueList, PatchList, PatchMessage, PatchUpdateList, PatchUpdateStatus, RepoSource};

fn listed_patch() -> Patch {
    Patch {
        name: "openSUSE-SLE-15.6-2026-1".to_string(),
        kind: "patch".to_string(),
        edition: "1".to_string(),
        arch: "noarch".to_string(),
        status: Some("needed".to_string()),
        category: Some("security".to_string()),
        severity: Some("important".to_string()),
        summary: "An important update".to_string(),
        description: "Patch details".to_string(),
        license: "MIT".to_string(),
        source: RepoSource { url: "https://example.invalid/repo".to_string(), alias: "Main Repository".to_string() },
        issue_date: PatchIssueDate { date: "2026-06-21T00:44:54Z".to_string(), time_t: "1782002694".to_string() },
        issue_list: PatchIssueList {
            issue: vec![
                PatchIssue {
                    issue_id: "1266598".to_string(),
                    issue_type: "bugzilla".to_string(),
                    title: "VUL-0: CVE-2026-39821".to_string(),
                    href: "https://bugzilla.suse.com/show_bug.cgi?id=1266598".to_string(),
                },
                PatchIssue {
                    issue_id: "CVE-2026-39821".to_string(),
                    issue_type: "cve".to_string(),
                    title: "https://cve.mitre.org/cgi-bin/cvename.cgi?name=CVE-2026-39821".to_string(),
                    href: "https://cve.mitre.org/cgi-bin/cvename.cgi?name=CVE-2026-39821".to_string(),
                },
            ],
        },
    }
}

#[test]
fn listing_gives_its_update_list() {
    let list = PatchList {
        messages: vec![PatchMessage { kind: "info".to_string(), text: "Loading repository data...".to_string() }],
        update_status: Some(PatchUpdateStatus {
            version: "0.6".to_string(),
            update_list: PatchUpdateList { updates: vec![listed_patch()] },
        }),
    };
    assert_eq!(list.messages[0].kind, "info");
    let patches = listing_patches(Ok(list)).unwrap();
    assert_eq!(patches.len(), 1);
    assert_eq!(patches[0].name, "openSUSE-SLE-15.6-2026-1");
    assert_eq!(patches[0].status.as_deref(), Some("needed"));
    assert!(!patches[0].issue_list.issue.is_empty());
}

#[test]
fn listing_without_update_status_is_empty() {
    let list = PatchList { messages: vec![], update_status: None };
    assert!(list.into_patches().is_empty());
    let err = listing_patches(Err(ZypperError::InvalidXml("bad".to_string())));
    assert_eq!(err, Err(ZypperError::InvalidXml("bad".to_string())));
}

#[test]
fn labels_for_omitted_fields() {
    let mut p = listed_patch();
    assert_eq!(p.status_label(), "needed");
    assert_eq!(p.category_label(), "security");
    assert_eq!(p.severity_label(), "important");
    assert!(p.status_is_highlighted());
    assert!(p.is_needed());
    assert!(p.shows_license());
    p.status = None;
    p.category = None;
    p.severity = None;
    p.license = String::new();
    assert_eq!(p.status_label(), "Unknown");
    assert_eq!(p.category_label(), "Uncategorized");
    assert_eq!(p.severity_label(), "Unspecified");
    assert!(!p.status_is_highlighted());
    assert!(!p.is_needed());
    assert!(!p.shows_license());
    p.status = Some("Needed".to_string());
    assert!(!p.status_is_highlighted());
    assert!(p.is_needed());
}

#[test]
fn zypper_command_line() {
    assert_eq!(zypper_arguments(false), vec!["--xmlout", "lp"]);
    assert_eq!(zypper_arguments(true), vec!["--xmlout", "lp", "-a"]);
}

#[test]
fn exit_status_decides() {
    assert_eq!(check_exit(true, Some(0), b"ignored"), Ok(()));
    assert_eq!(
        check_exit(false, Some(104), b"repo missing"),
        Err(ZypperError::Failed { status: Some(104), stderr: "repo missing".to_string() })
    );
    assert_eq!(
        check_exit(false, None, b"bad \xff byte"),
        Err(ZypperError::Failed { status: None, stderr: "bad \u{FFFD} byte".to_string() })
    );
}

#[test]
fn error_messages() {
    let e = ZypperError::Failed { status: Some(-3), stderr: "boom".to_string() };
    assert_eq!(e.message(), "zypper failed with status Some(-3): boom");
    let e = ZypperError::Failed { status: None, stderr: "boom".to_string() };
    assert_eq!(e.message(), "zypper failed with status None: boom");
    let e = ZypperError::Failed { status: Some(i32::MIN), stderr: String::new() };
    assert_eq!(e.message(), format!("zypper failed with status {:?}: ", Some(i32::MIN)));
    let e = ZypperError::Start("denied".to_string());
    assert_eq!(e.message(), "could not start zypper: denied");
}
