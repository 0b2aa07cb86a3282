use zypi::browser::{patch_matches_search, PatchBrowser, DEFAULT_INCLUDE_ALL};
use zypi::order::{key_lt, order_key_of, sort_by_keys, sort_patches, OrderKey};
use zypi::zypper::ZypperError;
use zypi::{Patch, PatchIssue, PatchIssueDate, PatchIssueList, RepoSource};

fn patch(name: &str, status: Option<&str>, category: Option<&str>) -> Patch {
    Patch {
        name: name.to_string(),
        kind: "patch".to_string(),
        edition: "1".to_string(),
        arch: "noarch".to_string(),
        status: status.map(|s| s.to_string()),
        category: category.map(|s| s.to_string()),
        severity: None,
        summary: format!("Summary of {name}"),
        description: "Fixes things".to_string(),
        license: String::new(),
        source: RepoSource {
            url: "https://example.invalid/repo".to_string(),
            alias: "Main Repository".to_string(),
        },
        issue_date: PatchIssueDate { date: "2026-06-21T00:44:54Z".to_string(), time_t: "1782002694".to_string() },
        issue_list: PatchIssueList {
            issue: vec![PatchIssue {
                issue_id: "1266598".to_string(),
                issue_type: "bugzilla".to_string(),
                title: "A bug".to_string(),
                href: "https://bugzilla.suse.com/show_bug.cgi?id=1266598".to_string(),
            }],
        },
    }
}

fn names(ps: &[Patch]) -> Vec<&str> {
    ps.iter().map(|p| p.name.as_str()).collect()
}

#[test]
fn needed_patches_sort_on_top() {
    let mut ps = vec![
        patch("openSUSE-2026-1", Some("applied"), Some("security")),
        patch("openSUSE-2026-2", Some("NEEDED"), Some("security")),
        patch("openSUSE-2026-3", None, None),
        patch("openSUSE-2026-4", Some("needed"), Some("optional")),
    ];
    sort_patches(&mut ps);
    assert_eq!(
        names(&ps),
        vec!["openSUSE-2026-4", "openSUSE-2026-2", "openSUSE-2026-3", "openSUSE-2026-1"]
    );
}

#[test]
fn sort_by_stem_then_highest_number_first() {
    let mut ps = vec![
        patch("b-pkg-7", None, None),
        patch("A-pkg-10", None, None),
        patch("a-pkg-9", None, None),
        patch("a-pkg-100", None, None),
        patch("plain", None, None),
    ];
    sort_patches(&mut ps);
    assert_eq!(names(&ps), vec!["a-pkg-100", "A-pkg-10", "a-pkg-9", "b-pkg-7", "plain"]);
}

#[test]
fn sort_is_stable_for_equal_keys() {
    let mut ps = vec![
        patch("x-notanumber", None, Some("first")),
        patch("X-0", None, Some("second")),
        patch("x", None, Some("third")),
    ];
    // All three have the lowercase stem "x" and the number 0.
    sort_patches(&mut ps);
    let cats: Vec<&str> = ps.iter().map(|p| p.category.as_deref().unwrap()).collect();
    assert_eq!(cats, vec!["first", "second", "third"]);
}

#[test]
fn sort_key_lowercases_the_stem_in_unicode() {
    let key = order_key_of(&patch("ÄBC-Ö-12", Some("Needed"), None));
    let stem: String = key.stem.iter().collect();
    assert_eq!(stem, "äbc-ö");
    assert_eq!(key.number, 12);
    assert!(!key.not_needed);
    let other = order_key_of(&patch("abc-13", None, None));
    assert!(key_lt(&key, &other));
    assert!(!key_lt(&other, &key));
}

#[test]
fn new_selects_first_sorted_patch() {
    let b = PatchBrowser::new(Ok(vec![
        patch("z-1", None, None),
        patch("y-1", Some("needed"), None),
    ]));
    assert_eq!(b.selected_name.as_deref(), Some("y-1"));
    assert_eq!(b.selected().unwrap().name, "y-1");
    assert!(b.load_error.is_none());
    assert!(b.search.is_empty());
    assert_eq!(b.include_all, DEFAULT_INCLUDE_ALL);
    assert!(b.include_all);
}

#[test]
fn new_with_error_has_no_patches() {
    let b = PatchBrowser::new(Err(ZypperError::Start("No such file or directory (os error 2)".to_string())));
    assert!(b.patches.is_empty());
    assert!(b.selected_name.is_none());
    assert!(b.selected().is_none());
    assert_eq!(
        b.load_error.as_deref(),
        Some("could not start zypper: No such file or directory (os error 2)")
    );
}

#[test]
fn refresh_keeps_selection_that_is_still_listed() {
    let mut b = PatchBrowser::new(Ok(vec![patch("a-1", None, None), patch("b-1", None, None)]));
    b.select(1);
    assert_eq!(b.selected_name.as_deref(), Some("b-1"));
    b.refresh(Ok(vec![patch("c-1", None, None), patch("b-1", None, None)]));
    assert_eq!(b.selected_name.as_deref(), Some("b-1"));
    assert_eq!(names(&b.patches), vec!["b-1", "c-1"]);
}

#[test]
fn refresh_moves_selection_when_patch_is_gone() {
    let mut b = PatchBrowser::new(Ok(vec![patch("a-1", None, None)]));
    b.refresh(Ok(vec![patch("d-1", None, None), patch("c-1", None, None)]));
    assert_eq!(b.selected_name.as_deref(), Some("c-1"));
    b.refresh(Ok(vec![]));
    assert!(b.selected_name.is_none());
}

#[test]
fn refresh_error_keeps_the_list() {
    let mut b = PatchBrowser::new(Ok(vec![patch("a-1", None, None)]));
    b.refresh(Err(ZypperError::InvalidXml("unexpected end".to_string())));
    assert_eq!(names(&b.patches), vec!["a-1"]);
    assert_eq!(b.selected_name.as_deref(), Some("a-1"));
    assert_eq!(b.load_error.as_deref(), Some("zypper returned invalid XML: unexpected end"));
    b.refresh(Ok(vec![patch("a-1", None, None)]));
    assert!(b.load_error.is_none());
}

#[test]
fn counts_ignore_ascii_case() {
    let b = PatchBrowser::new(Ok(vec![
        patch("a-1", Some("needed"), Some("security")),
        patch("a-2", Some("Needed"), Some("SECURITY")),
        patch("a-3", Some("applied"), Some("optional")),
        patch("a-4", None, None),
    ]));
    assert_eq!(b.category_count("security"), 2);
    assert_eq!(b.category_count("Security"), 2);
    assert_eq!(b.category_count("optional"), 1);
    assert_eq!(b.category_count("recommended"), 0);
    assert_eq!(b.status_count("needed"), 2);
    assert_eq!(b.status_count("applied"), 1);
}

#[test]
fn search_filters_patches() {
    let mut b = PatchBrowser::new(Ok(vec![
        patch("kernel-default-5", Some("needed"), Some("security")),
        patch("vim-2", Some("applied"), Some("recommended")),
        patch("zlib-3", None, None),
    ]));
    assert_eq!(b.visible_patches(), vec![0, 1, 2]);
    b.search = "KERNEL".to_string();
    assert_eq!(b.visible_patches(), vec![0]);
    b.search = "rec".to_string();
    assert_eq!(b.visible_patches(), vec![1]);
    b.search = "ecommended".to_string();
    assert_eq!(b.visible_patches(), Vec::<usize>::new());
    b.search = "app".to_string();
    assert_eq!(b.visible_patches(), vec![1]);
    b.search = "summary of".to_string();
    assert_eq!(b.visible_patches(), vec![0, 1, 2]);
    b.search = "FIXES".to_string();
    assert_eq!(b.visible_patches(), vec![0, 1, 2]);
}

#[test]
fn search_matches_lowercased_query() {
    let q: Vec<char> = "zlib".chars().collect();
    assert!(patch_matches_search(&q, &patch("ZLIB-3", None, None)));
    let q: Vec<char> = "zz".chars().collect();
    assert!(!patch_matches_search(&q, &patch("ZLIB-3", None, None)));
    assert!(patch_matches_search(&[], &patch("ZLIB-3", None, None)));
}

#[test]
fn selection_flags() {
    let b = PatchBrowser::new(Ok(vec![patch("a-1", None, None), patch("b-1", None, None)]));
    assert!(b.is_selected(0));
    assert!(!b.is_selected(1));
}

#[test]
fn sort_by_given_keys() {
    let items = vec![patch("p", None, Some("1")), patch("q", None, Some("2")), patch("r", None, Some("3")), patch("s", None, Some("4"))];
    let keys = vec![
        OrderKey { not_needed: true, stem: vec!['b'], number: 1 },
        OrderKey { not_needed: false, stem: vec!['z'], number: 0 },
        OrderKey { not_needed: true, stem: vec!['b'], number: 5 },
        OrderKey { not_needed: true, stem: vec!['b'], number: 1 },
    ];
    let out = sort_by_keys(items, keys);
    assert_eq!(names(&out), vec!["q", "r", "p", "s"]);
}

#[test]
fn state_stays_valid_over_loads_and_selections() {
    let mut b = PatchBrowser::new(Err(ZypperError::Failed { status: Some(1), stderr: "x".to_string() }));
    assert!(b.load_error.is_some() && b.patches.is_empty() && b.selected_name.is_none());
    b.refresh(Ok(vec![patch("b-1", None, None), patch("a-1", Some("needed"), None)]));
    assert!(b.load_error.is_none());
    assert_eq!(names(&b.patches), vec!["a-1", "b-1"]);
    assert_eq!(b.selected_name.as_deref(), Some("a-1"));
    b.select(1);
    assert_eq!(b.selected().unwrap().name, "b-1");
    b.refresh(Err(ZypperError::InvalidXml("bad".to_string())));
    assert!(b.load_error.is_some());
    assert_eq!(b.selected().unwrap().name, "b-1");
    b.refresh(Ok(vec![]));
    assert!(b.load_error.is_none() && b.patches.is_empty() && b.selected_name.is_none());
}
