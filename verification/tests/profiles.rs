use fbm::browser::BrowserKind;
use fbm::profiles::{
    add_candidates, browser_cookie_candidates, browser_kinds, chromium_profile_roots,
    firefox_profile_roots, lists_directories, profile_matches, profile_roots, root_probes,
    CookieDbCandidate, Disk, Folder,
};

#[test]
fn comet_roots_include_local_application_support_path() {
    let home = "/Users/example";
    let roots = chromium_profile_roots(home, BrowserKind::Comet);
    assert!(roots.contains(&"/Users/example/Library/Application Support/Comet".to_string()));
}

#[test]
fn every_browser_has_its_roots() {
    assert_eq!(
        firefox_profile_roots("/h"),
        vec!["/h/Library/Application Support/Firefox/Profiles", "/h/.mozilla/firefox"]
    );
    assert_eq!(
        chromium_profile_roots("/h", BrowserKind::Chrome),
        vec!["/h/Library/Application Support/Google/Chrome", "/h/.config/google-chrome"]
    );
    assert_eq!(
        chromium_profile_roots("/h/", BrowserKind::Brave)[1],
        "/h/.config/BraveSoftware/Brave-Browser"
    );
    assert_eq!(chromium_profile_roots("/h", BrowserKind::Edge)[1], "/h/.config/microsoft-edge");
    assert_eq!(chromium_profile_roots("/h", BrowserKind::Chromium)[1], "/h/.config/chromium");
    assert!(chromium_profile_roots("/h", BrowserKind::Firefox).is_empty());
    assert!(chromium_profile_roots("/h", BrowserKind::Auto).is_empty());
    assert_eq!(profile_roots("/h", BrowserKind::Firefox), firefox_profile_roots("/h"));
    assert_eq!(profile_roots("/h", BrowserKind::Comet).len(), 3);
}

#[test]
fn auto_stands_for_all_browsers() {
    assert_eq!(
        browser_kinds(BrowserKind::Auto),
        vec![
            BrowserKind::Firefox,
            BrowserKind::Chrome,
            BrowserKind::Brave,
            BrowserKind::Edge,
            BrowserKind::Comet,
            BrowserKind::Chromium,
        ]
    );
    assert_eq!(browser_kinds(BrowserKind::Edge), vec![BrowserKind::Edge]);
}

#[test]
fn profiles_match_by_a_part_of_their_name() {
    assert!(profile_matches("/p/abc.default-release", None));
    assert!(profile_matches("/p/abc.default-release", Some("default")));
    assert!(profile_matches("/p/abc", Some("abc")));
    assert!(!profile_matches("/default/abc", Some("default")));
    assert!(!profile_matches("/", Some("x")));
    assert!(!profile_matches("/p/..", Some("..")));
}

#[test]
fn firefox_stores_are_found_in_wanted_profiles() {
    let root = "/h/.mozilla/firefox".to_string();
    let disk = Disk {
        folders: vec![Folder {
            path: root.clone(),
            dirs: vec![format!("{root}/one.default"), format!("{root}/two")],
        }],
        files: vec![format!("{root}/one.default/cookies.sqlite"), format!("{root}/two/cookies.sqlite")],
    };
    let all = browser_cookie_candidates(BrowserKind::Firefox, None, "/h", &disk);
    assert_eq!(all.len(), 2);
    let some = browser_cookie_candidates(BrowserKind::Firefox, Some("default"), "/h", &disk);
    assert_eq!(some.len(), 1);
    assert_eq!(some[0].kind, BrowserKind::Firefox);
    assert_eq!(some[0].path, "/h/.mozilla/firefox/one.default/cookies.sqlite");
    assert!(browser_cookie_candidates(BrowserKind::Chrome, None, "/h", &disk).is_empty());
}

#[test]
fn chromium_stores_are_found_once() {
    let root = "/h/.config/google-chrome".to_string();
    let disk = Disk {
        folders: vec![Folder {
            path: root.clone(),
            dirs: vec![format!("{root}/Guest"), format!("{root}/Default")],
        }],
        files: vec![
            format!("{root}/Guest/Cookies"),
            format!("{root}/Default/Network/Cookies"),
            format!("{root}/Default/Cookies"),
        ],
    };
    let found = browser_cookie_candidates(BrowserKind::Auto, None, "/h", &disk);
    let paths: Vec<&str> = found.iter().map(|c| c.path.as_str()).collect();
    assert_eq!(
        paths,
        vec![
            "/h/.config/google-chrome/Default/Network/Cookies",
            "/h/.config/google-chrome/Default/Cookies",
            "/h/.config/google-chrome/Guest/Cookies",
        ]
    );
    assert!(found.iter().all(|c| c.kind == BrowserKind::Chrome));
    let named = browser_cookie_candidates(BrowserKind::Chrome, Some("Guest"), "/h", &disk);
    assert_eq!(named.len(), 1);
    assert_eq!(named[0].path, "/h/.config/google-chrome/Guest/Cookies");
}

#[test]
fn probes_follow_the_profile() {
    let dirs = vec!["/r/A".to_string()];
    assert_eq!(root_probes(BrowserKind::Edge, "/r", Some("A"), &dirs).len(), 2);
    let probes = root_probes(BrowserKind::Edge, "/r", None, &dirs);
    assert_eq!(probes.len(), 10);
    assert_eq!(probes[2].path, "/r/Profile 1/Network/Cookies");
    assert!(!probes[7].once);
    assert!(probes[8].once);
    assert_eq!(probes[9].path, "/r/A/Cookies");
    assert!(lists_directories(BrowserKind::Firefox, Some("x")));
    assert!(lists_directories(BrowserKind::Edge, None));
    assert!(!lists_directories(BrowserKind::Edge, Some("x")));
    let mut list: Vec<CookieDbCandidate> = Vec::new();
    add_candidates(&mut list, BrowserKind::Edge, &probes, &["/r/A/Cookies".to_string()]);
    add_candidates(&mut list, BrowserKind::Edge, &probes, &["/r/A/Cookies".to_string()]);
    assert_eq!(list.len(), 1);

    let mut list = vec![CookieDbCandidate {
        kind: BrowserKind::Edge,
        path: "/r//A/./Cookies".to_string(),
    }];
    add_candidates(&mut list, BrowserKind::Edge, &probes, &["/r/A/Cookies".to_string()]);
    assert_eq!(list.len(), 1);
    assert_eq!(list[0].path, "/r//A/./Cookies");
    let files = ["/r/A/Network/Cookies".to_string()];
    add_candidates(&mut list, BrowserKind::Edge, &probes, &files);
    assert_eq!(list.len(), 2);
}

#[test]
fn all_browsers_are_tried_in_turn() {
    let roots = [
        "/h/.mozilla/firefox",
        "/h/.config/google-chrome",
        "/h/.config/microsoft-edge",
        "/h/.config/Comet",
        "/h/.config/comet",
        "/h/.config/chromium",
    ];
    let disk = Disk {
        folders: roots
            .iter()
            .map(|r| Folder {
                path: r.to_string(),
                dirs: vec![format!("{r}/Default"), format!("{r}/Guest")],
            })
            .collect(),
        files: roots
            .iter()
            .flat_map(|r| {
                [
                    format!("{r}/Default/cookies.sqlite"),
                    format!("{r}/Default/Cookies"),
                    format!("{r}/Guest/Network/Cookies"),
                ]
            })
            .collect(),
    };
    for (profile, number) in [(None, 11), (Some("Default"), 6), (Some("Guest"), 5)] {
        let pairs = |browser: BrowserKind| -> Vec<(BrowserKind, String)> {
            browser_cookie_candidates(browser, profile, "/h", &disk)
                .into_iter()
                .map(|c| (c.kind, c.path))
                .collect()
        };
        let mut each = Vec::new();
        for browser in browser_kinds(BrowserKind::Auto) {
            let own = pairs(browser);
            assert!(own.iter().all(|(kind, _)| *kind == browser));
            each.extend(own);
        }
        assert_eq!(pairs(BrowserKind::Auto), each);
        assert_eq!(each.len(), number);
    }
}
