//! Where browsers keep their cookies.
use vstd::prelude::*;

use crate::browser::BrowserKind;
use crate::paths::{file_name, is_same_path, join_path, last_name, path_join, same_path};
use crate::text::{contains_text, has_part, list_has, opt_str, same, texts, Text};

verus! {

/// A cookie store that may be read.
#[derive(Debug)]
pub struct CookieDbCandidate {
    pub kind: BrowserKind,
    pub path: String,
}

/// The values of [`CookieDbCandidate`].
pub struct CandidateView {
    pub kind: BrowserKind,
    pub path: Text,
}

impl View for CookieDbCandidate {
    type V = CandidateView;

    open spec fn view(&self) -> CandidateView {
        CandidateView { kind: self.kind, path: self.path@ }
    }
}

/// The values of some candidates.
pub open spec fn candidate_views(list: Seq<CookieDbCandidate>) -> Seq<CandidateView> {
    list.map_values(|c: CookieDbCandidate| c@)
}

/// A directory of browser profiles.
#[derive(Debug)]
pub struct Folder {
    pub path: String,
    /// The directories in it, in the order in which the system lists them.
    pub dirs: Vec<String>,
}

/// What the file system holds of interest.
#[derive(Debug)]
pub struct Disk {
    /// The directories of profiles that exist, under the paths that they are looked for by.
    pub folders: Vec<Folder>,
    /// The files that exist, under the paths that they are looked for by.
    pub files: Vec<String>,
}

/// The place of the first folder of a path.
pub open spec fn folder_at(folders: Seq<Folder>, path: Text) -> Option<int>
    decreases folders.len(),
{
    if folders.len() == 0 {
        None
    } else {
        match folder_at(folders.drop_last(), path) {
            Some(i) => Some(i),
            None => if folders.last().path@ == path {
                Some(folders.len() - 1)
            } else {
                None
            },
        }
    }
}

fn find_folder(folders: &[Folder], path: &str) -> (r: Option<usize>)
    ensures
        match r {
            Some(i) => folder_at(folders@, path@) == Some(i as int) && i < folders@.len(),
            None => folder_at(folders@, path@) is None,
        },
{
    let mut found: Option<usize> = None;
    let mut i: usize = 0;
    while i < folders.len()
        invariant
            0 <= i <= folders@.len(),
            match found {
                Some(k) => folder_at(folders@.take(i as int), path@) == Some(k as int) && k
                    < folders@.len(),
                None => folder_at(folders@.take(i as int), path@) is None,
            },
        decreases folders@.len() - i,
    {
        proof {
            assert(folders@.take(i + 1).drop_last() =~= folders@.take(i as int));
            assert(folders@.take(i + 1).last() == folders@[i as int]);
        }
        if found.is_none() && same(folders[i].path.as_str(), path) {
            found = Some(i);
        }
        i += 1;
    }
    proof {
        assert(folders@.take(folders@.len() as int) =~= folders@);
    }
    found
}

/// The browsers to try: the one that is wanted, or all of them in a fixed order.
pub open spec fn kinds_of(browser: BrowserKind) -> Seq<BrowserKind> {
    match browser {
        BrowserKind::Auto => seq![
            BrowserKind::Firefox,
            BrowserKind::Chrome,
            BrowserKind::Brave,
            BrowserKind::Edge,
            BrowserKind::Comet,
            BrowserKind::Chromium,
        ],
        other => seq![other],
    }
}

/// The browsers to try.
pub fn browser_kinds(browser: BrowserKind) -> (r: Vec<BrowserKind>)
    ensures
        r@ == kinds_of(browser),
{
    let r = match browser {
        BrowserKind::Auto => vec![
            BrowserKind::Firefox,
            BrowserKind::Chrome,
            BrowserKind::Brave,
            BrowserKind::Edge,
            BrowserKind::Comet,
            BrowserKind::Chromium,
        ],
        other => vec![other],
    };
    proof {
        assert(r@ =~= kinds_of(browser));
    }
    r
}

/// The directories of the profiles of Firefox.
pub open spec fn firefox_roots(home: Text) -> Seq<Text> {
    seq![
        path_join(home, "Library/Application Support/Firefox/Profiles"@),
        path_join(home, ".mozilla/firefox"@),
    ]
}

/// The directories of the profiles of Firefox.
pub fn firefox_profile_roots(home: &str) -> (r: Vec<String>)
    ensures
        texts(r@) == firefox_roots(home@),
{
    let r = vec![
        join_path(home, "Library/Application Support/Firefox/Profiles"),
        join_path(home, ".mozilla/firefox"),
    ];
    proof {
        assert(texts(r@) =~= firefox_roots(home@));
    }
    r
}

/// The directories of the profiles of a browser of the Chromium family.
pub open spec fn chromium_roots(home: Text, kind: BrowserKind) -> Seq<Text> {
    match kind {
        BrowserKind::Chrome => seq![
            path_join(home, "Library/Application Support/Google/Chrome"@),
            path_join(home, ".config/google-chrome"@),
        ],
        BrowserKind::Brave => seq![
            path_join(home, "Library/Application Support/BraveSoftware/Brave-Browser"@),
            path_join(home, ".config/BraveSoftware/Brave-Browser"@),
        ],
        BrowserKind::Edge => seq![
            path_join(home, "Library/Application Support/Microsoft Edge"@),
            path_join(home, ".config/microsoft-edge"@),
        ],
        BrowserKind::Comet => seq![
            path_join(home, "Library/Application Support/Comet"@),
            path_join(home, ".config/Comet"@),
            path_join(home, ".config/comet"@),
        ],
        BrowserKind::Chromium => seq![
            path_join(home, "Library/Application Support/Chromium"@),
            path_join(home, ".config/chromium"@),
        ],
        BrowserKind::Auto | BrowserKind::Firefox => Seq::empty(),
    }
}

/// The directories of the profiles of a browser of the Chromium family.
pub fn chromium_profile_roots(home: &str, kind: BrowserKind) -> (r: Vec<String>)
    ensures
        texts(r@) == chromium_roots(home@, kind),
{
    let r = match kind {
        BrowserKind::Chrome => vec![
            join_path(home, "Library/Application Support/Google/Chrome"),
            join_path(home, ".config/google-chrome"),
        ],
        BrowserKind::Brave => vec![
            join_path(home, "Library/Application Support/BraveSoftware/Brave-Browser"),
            join_path(home, ".config/BraveSoftware/Brave-Browser"),
        ],
        BrowserKind::Edge => vec![
            join_path(home, "Library/Application Support/Microsoft Edge"),
            join_path(home, ".config/microsoft-edge"),
        ],
        BrowserKind::Comet => vec![
            join_path(home, "Library/Application Support/Comet"),
            join_path(home, ".config/Comet"),
            join_path(home, ".config/comet"),
        ],
        BrowserKind::Chromium => vec![
            join_path(home, "Library/Application Support/Chromium"),
            join_path(home, ".config/chromium"),
        ],
        BrowserKind::Auto | BrowserKind::Firefox => Vec::new(),
    };
    proof {
        assert(texts(r@) =~= chromium_roots(home@, kind));
    }
    r
}

/// The directories of the profiles of a browser.
pub open spec fn roots_of(home: Text, kind: BrowserKind) -> Seq<Text> {
    match kind {
        BrowserKind::Firefox => firefox_roots(home),
        other => chromium_roots(home, other),
    }
}

/// The directories of the profiles of a browser.
pub fn profile_roots(home: &str, kind: BrowserKind) -> (r: Vec<String>)
    ensures
        texts(r@) == roots_of(home@, kind),
{
    match kind {
        BrowserKind::Firefox => firefox_profile_roots(home),
        other => chromium_profile_roots(home, other),
    }
}

/// A directory is the profile that is wanted: any is, where none is named, and else one whose name
/// holds the given one.
pub open spec fn matches_profile(path: Text, profile: Option<Text>) -> bool {
    match profile {
        None => true,
        Some(wanted) => match file_name(path) {
            Some(name) => name == wanted || contains_text(name, wanted),
            None => false,
        },
    }
}

/// A directory is the profile that is wanted.
pub fn profile_matches(path: &str, profile: Option<&str>) -> (r: bool)
    ensures
        r == matches_profile(path@, opt_str(profile)),
{
    match profile {
        None => true,
        Some(wanted) => match last_name(path) {
            Some(name) => same(name.as_str(), wanted) || has_part(name.as_str(), wanted),
            None => false,
        },
    }
}

/// A file that may be a cookie store.
#[derive(Debug)]
pub struct Probe {
    pub path: String,
    /// It is passed over where it was found before.
    pub once: bool,
}

/// The values of [`Probe`].
pub struct ProbeView {
    pub path: Text,
    pub once: bool,
}

impl View for Probe {
    type V = ProbeView;

    open spec fn view(&self) -> ProbeView {
        ProbeView { path: self.path@, once: self.once }
    }
}

/// The values of some probes.
pub open spec fn probe_views(list: Seq<Probe>) -> Seq<ProbeView> {
    list.map_values(|p: Probe| p@)
}

/// The file of the given name in each profile that is wanted.
pub open spec fn firefox_probes(dirs: Seq<Text>, profile: Option<Text>, file: Text) -> Seq<ProbeView>
    decreases dirs.len(),
{
    if dirs.len() == 0 {
        Seq::empty()
    } else {
        let before = firefox_probes(dirs.drop_last(), profile, file);
        if matches_profile(dirs.last(), profile) {
            before.push(ProbeView { path: path_join(dirs.last(), file), once: false })
        } else {
            before
        }
    }
}

/// Adds a probe to a list.
fn push_probe(list: &mut Vec<Probe>, path: String, once: bool)
    ensures
        probe_views(final(list)@) == probe_views(old(list)@).push(ProbeView { path: path@, once }),
{
    let ghost before = list@;
    let probe = Probe { path, once };
    proof {
        assert(probe_views(before.push(probe)) =~= probe_views(before).push(probe@));
    }
    list.push(probe);
}

/// The file of the given name in each profile that is wanted.
pub fn profile_probes(dirs: &[String], profile: Option<&str>, file: &str) -> (r: Vec<Probe>)
    ensures
        probe_views(r@) == firefox_probes(texts(dirs@), opt_str(profile), file@),
{
    let ghost all = texts(dirs@);
    let mut out: Vec<Probe> = Vec::new();
    let mut i: usize = 0;
    proof {
        assert(all.take(0) =~= Seq::<Text>::empty());
        assert(probe_views(out@) =~= firefox_probes(all.take(0), opt_str(profile), file@));
    }
    while i < dirs.len()
        invariant
            0 <= i <= dirs@.len(),
            all == texts(dirs@),
            probe_views(out@) == firefox_probes(all.take(i as int), opt_str(profile), file@),
        decreases dirs@.len() - i,
    {
        proof {
            assert(all.take(i + 1).drop_last() =~= all.take(i as int));
            assert(all.take(i + 1).last() == dirs@[i as int]@);
        }
        if profile_matches(dirs[i].as_str(), profile) {
            push_probe(&mut out, join_path(dirs[i].as_str(), file), false);
        }
        i += 1;
    }
    proof {
        assert(all.take(all.len() as int) =~= all);
    }
    out
}

/// The two files in each directory that may be a store of the Chromium family.
pub open spec fn store_files(dirs: Seq<Text>, once: bool) -> Seq<ProbeView>
    decreases dirs.len(),
{
    if dirs.len() == 0 {
        Seq::empty()
    } else {
        let dir = dirs.last();
        store_files(dirs.drop_last(), once).push(
            ProbeView { path: path_join(dir, "Network/Cookies"@), once },
        ).push(ProbeView { path: path_join(dir, "Cookies"@), once })
    }
}

/// Adds the two files in each directory that may be a store of the Chromium family.
fn push_store_files(list: &mut Vec<Probe>, dirs: &[String], once: bool)
    ensures
        probe_views(final(list)@) == probe_views(old(list)@) + store_files(texts(dirs@), once),
{
    let ghost start = probe_views(list@);
    let ghost all = texts(dirs@);
    let mut i: usize = 0;
    proof {
        assert(all.take(0) =~= Seq::<Text>::empty());
        assert(start + store_files(all.take(0), once) =~= start);
    }
    while i < dirs.len()
        invariant
            0 <= i <= dirs@.len(),
            all == texts(dirs@),
            probe_views(list@) == start + store_files(all.take(i as int), once),
        decreases dirs@.len() - i,
    {
        let ghost before = store_files(all.take(i as int), once);
        push_probe(list, join_path(dirs[i].as_str(), "Network/Cookies"), once);
        push_probe(list, join_path(dirs[i].as_str(), "Cookies"), once);
        proof {
            assert(all.take(i + 1).drop_last() =~= all.take(i as int));
            assert(all.take(i + 1).last() == dirs@[i as int]@);
            assert(probe_views(list@) =~= start + store_files(all.take(i + 1), once));
        }
        i += 1;
    }
    proof {
        assert(all.take(all.len() as int) =~= all);
    }
}

/// The names of the profiles of the Chromium family that are looked for first.
pub open spec fn profile_names(profile: Option<Text>) -> Seq<Text> {
    match profile {
        Some(name) => seq![name],
        None => seq!["Default"@, "Profile 1"@, "Profile 2"@, "Profile 3"@],
    }
}

/// The directories of the profiles of the Chromium family that are looked for first.
pub open spec fn named_dirs(root: Text, profile: Option<Text>) -> Seq<Text> {
    profile_names(profile).map_values(|name: Text| path_join(root, name))
}

fn named_profile_dirs(root: &str, profile: Option<&str>) -> (r: Vec<String>)
    ensures
        texts(r@) == named_dirs(root@, opt_str(profile)),
{
    let r = match profile {
        Some(name) => vec![join_path(root, name)],
        None => vec![
            join_path(root, "Default"),
            join_path(root, "Profile 1"),
            join_path(root, "Profile 2"),
            join_path(root, "Profile 3"),
        ],
    };
    proof {
        assert(texts(r@) =~= named_dirs(root@, opt_str(profile)));
    }
    r
}

/// The files below a directory of profiles that may be cookie stores, in the order in which they
/// are tried. In the Chromium family the usual profiles come first, and the others follow only
/// where no profile is named.
pub open spec fn probes_of(
    kind: BrowserKind,
    root: Text,
    profile: Option<Text>,
    dirs: Seq<Text>,
) -> Seq<ProbeView> {
    match kind {
        BrowserKind::Firefox => firefox_probes(dirs, profile, "cookies.sqlite"@),
        _ => store_files(named_dirs(root, profile), false) + (if profile is Some {
            Seq::empty()
        } else {
            store_files(dirs, true)
        }),
    }
}

/// The files below a directory of profiles that may be cookie stores.
pub fn root_probes(
    kind: BrowserKind,
    root: &str,
    profile: Option<&str>,
    dirs: &[String],
) -> (r: Vec<Probe>)
    ensures
        probe_views(r@) == probes_of(kind, root@, opt_str(profile), texts(dirs@)),
{
    match kind {
        BrowserKind::Firefox => profile_probes(dirs, profile, "cookies.sqlite"),
        _ => {
            let mut out: Vec<Probe> = Vec::new();
            proof {
                assert(probe_views(out@) =~= Seq::<ProbeView>::empty());
            }
            push_store_files(&mut out, &named_profile_dirs(root, profile), false);
            if profile.is_none() {
                push_store_files(&mut out, dirs, true);
            }
            proof {
                assert(probe_views(out@) =~= probes_of(
                    kind,
                    root@,
                    opt_str(profile),
                    texts(dirs@),
                ));
            }
            out
        },
    }
}

/// The directories below the root have to be listed.
pub fn lists_directories(kind: BrowserKind, profile: Option<&str>) -> (r: bool)
    ensures
        r == needs_listing(kind, profile is Some),
        r == (kind == BrowserKind::Firefox || profile is None),
{
    match kind {
        BrowserKind::Firefox => true,
        _ => profile.is_none(),
    }
}

/// Where a profile of the Chromium family is named, the other directories do not matter.
pub proof fn law_named_profile_needs_no_listing(
    kind: BrowserKind,
    root: Text,
    profile: Text,
    dirs: Seq<Text>,
)
    requires
        kind != BrowserKind::Firefox,
    ensures
        probes_of(kind, root, Some(profile), dirs) == probes_of(
            kind,
            root,
            Some(profile),
            Seq::empty(),
        ),
{
}

/// Some candidate has the given path, part by part.
pub open spec fn has_path(list: Seq<CandidateView>, path: Text) -> bool {
    exists|i: int| 0 <= i < list.len() && same_path((#[trigger] list[i]).path, path)
}

fn path_found(list: &[CookieDbCandidate], path: &str) -> (r: bool)
    ensures
        r == has_path(candidate_views(list@), path@),
{
    let ghost all = candidate_views(list@);
    let mut i: usize = 0;
    while i < list.len()
        invariant
            0 <= i <= list@.len(),
            all == candidate_views(list@),
            forall|k: int| 0 <= k < i ==> !same_path((#[trigger] all[k]).path, path@),
        decreases list@.len() - i,
    {
        proof {
            assert(all[i as int] == list@[i as int]@);
        }
        if is_same_path(list[i].path.as_str(), path) {
            return true;
        }
        i += 1;
    }
    false
}

/// The candidates with those probes added that exist.
pub open spec fn with_probes(
    list: Seq<CandidateView>,
    kind: BrowserKind,
    probes: Seq<ProbeView>,
    files: Seq<Text>,
) -> Seq<CandidateView>
    decreases probes.len(),
{
    if probes.len() == 0 {
        list
    } else {
        let before = with_probes(list, kind, probes.drop_last(), files);
        let probe = probes.last();
        if files.contains(probe.path) && !(probe.once && has_path(before, probe.path)) {
            before.push(CandidateView { kind, path: probe.path })
        } else {
            before
        }
    }
}

/// Adds those probes to the candidates that exist.
pub fn add_candidates(
    list: &mut Vec<CookieDbCandidate>,
    kind: BrowserKind,
    probes: &[Probe],
    files: &[String],
)
    ensures
        candidate_views(final(list)@) == with_probes(
            candidate_views(old(list)@),
            kind,
            probe_views(probes@),
            texts(files@),
        ),
{
    let ghost start = candidate_views(list@);
    let ghost all = probe_views(probes@);
    let mut i: usize = 0;
    proof {
        assert(all.take(0) =~= Seq::<ProbeView>::empty());
    }
    while i < probes.len()
        invariant
            0 <= i <= probes@.len(),
            all == probe_views(probes@),
            candidate_views(list@) == with_probes(start, kind, all.take(i as int), texts(files@)),
        decreases probes@.len() - i,
    {
        proof {
            assert(all.take(i + 1).drop_last() =~= all.take(i as int));
            assert(all.take(i + 1).last() == probes@[i as int]@);
        }
        let path = probes[i].path.as_str();
        if list_has(files, path) && !(probes[i].once && path_found(list, path)) {
            let candidate = CookieDbCandidate { kind, path: path.to_owned() };
            proof {
                assert(candidate_views(list@.push(candidate)) =~= candidate_views(list@).push(
                    candidate@,
                ));
            }
            list.push(candidate);
        }
        i += 1;
    }
    proof {
        assert(all.take(all.len() as int) =~= all);
    }
}

/// The candidates with those below a directory of profiles added, where it exists.
pub open spec fn with_root(
    list: Seq<CandidateView>,
    kind: BrowserKind,
    root: Text,
    profile: Option<Text>,
    disk: Disk,
) -> Seq<CandidateView> {
    match folder_at(disk.folders@, root) {
        None => list,
        Some(i) => with_probes(
            list,
            kind,
            probes_of(kind, root, profile, texts(disk.folders@[i].dirs@)),
            texts(disk.files@),
        ),
    }
}

/// The candidates with those below some directories of profiles added.
pub open spec fn with_roots(
    list: Seq<CandidateView>,
    kind: BrowserKind,
    roots: Seq<Text>,
    profile: Option<Text>,
    disk: Disk,
) -> Seq<CandidateView>
    decreases roots.len(),
{
    if roots.len() == 0 {
        list
    } else {
        with_root(
            with_roots(list, kind, roots.drop_last(), profile, disk),
            kind,
            roots.last(),
            profile,
            disk,
        )
    }
}

/// The cookie stores of some browsers, in the order in which they are tried.
pub open spec fn candidates_of(
    kinds: Seq<BrowserKind>,
    profile: Option<Text>,
    home: Text,
    disk: Disk,
) -> Seq<CandidateView>
    decreases kinds.len(),
{
    if kinds.len() == 0 {
        Seq::empty()
    } else {
        with_roots(
            candidates_of(kinds.drop_last(), profile, home, disk),
            kinds.last(),
            roots_of(home, kinds.last()),
            profile,
            disk,
        )
    }
}

/// The cookie stores of a browser, or of all, in the order in which they are tried.
pub fn browser_cookie_candidates(
    browser: BrowserKind,
    profile: Option<&str>,
    home: &str,
    disk: &Disk,
) -> (r: Vec<CookieDbCandidate>)
    ensures
        candidate_views(r@) == candidates_of(kinds_of(browser), opt_str(profile), home@, *disk),
{
    let kinds = browser_kinds(browser);
    let ghost wanted = opt_str(profile);
    let mut out: Vec<CookieDbCandidate> = Vec::new();
    let mut k: usize = 0;
    proof {
        assert(kinds@.take(0) =~= Seq::<BrowserKind>::empty());
        assert(candidate_views(out@) =~= candidates_of(kinds@.take(0), wanted, home@, *disk));
    }
    while k < kinds.len()
        invariant
            0 <= k <= kinds@.len(),
            wanted == opt_str(profile),
            candidate_views(out@) == candidates_of(kinds@.take(k as int), wanted, home@, *disk),
        decreases kinds@.len() - k,
    {
        let kind = kinds[k];
        let roots = profile_roots(home, kind);
        let ghost all = texts(roots@);
        let ghost start = candidate_views(out@);
        let mut i: usize = 0;
        proof {
            assert(all.take(0) =~= Seq::<Text>::empty());
        }
        while i < roots.len()
            invariant
                0 <= i <= roots@.len(),
                wanted == opt_str(profile),
                all == texts(roots@),
                candidate_views(out@) == with_roots(
                    start,
                    kind,
                    all.take(i as int),
                    wanted,
                    *disk,
                ),
            decreases roots@.len() - i,
        {
            proof {
                assert(all.take(i + 1).drop_last() =~= all.take(i as int));
                assert(all.take(i + 1).last() == roots@[i as int]@);
            }
            let root = roots[i].as_str();
            match find_folder(&disk.folders, root) {
                Some(f) => {
                    let probes = root_probes(kind, root, profile, &disk.folders[f].dirs);
                    add_candidates(&mut out, kind, &probes, &disk.files);
                },
                None => {},
            }
            i += 1;
        }
        proof {
            assert(all.take(all.len() as int) =~= all);
            assert(kinds@.take(k + 1).drop_last() =~= kinds@.take(k as int));
            assert(kinds@.take(k + 1).last() == kind);
        }
        k += 1;
    }
    proof {
        assert(kinds@.take(kinds@.len() as int) =~= kinds@);
    }
    out
}

/// All candidates exist, and are of one of the given kinds.
pub open spec fn all_real(
    list: Seq<CandidateView>,
    kinds: Seq<BrowserKind>,
    files: Seq<Text>,
) -> bool {
    forall|i: int|
        0 <= i < list.len() ==> files.contains((#[trigger] list[i]).path) && kinds.contains(
            list[i].kind,
        )
}

proof fn lemma_probes_real(
    list: Seq<CandidateView>,
    kind: BrowserKind,
    probes: Seq<ProbeView>,
    files: Seq<Text>,
    kinds: Seq<BrowserKind>,
)
    requires
        all_real(list, kinds, files),
        kinds.contains(kind),
    ensures
        all_real(with_probes(list, kind, probes, files), kinds, files),
    decreases probes.len(),
{
    if probes.len() > 0 {
        lemma_probes_real(list, kind, probes.drop_last(), files, kinds);
    }
}

proof fn lemma_roots_real(
    list: Seq<CandidateView>,
    kind: BrowserKind,
    roots: Seq<Text>,
    profile: Option<Text>,
    disk: Disk,
    kinds: Seq<BrowserKind>,
)
    requires
        all_real(list, kinds, texts(disk.files@)),
        kinds.contains(kind),
    ensures
        all_real(with_roots(list, kind, roots, profile, disk), kinds, texts(disk.files@)),
    decreases roots.len(),
{
    if roots.len() > 0 {
        lemma_roots_real(list, kind, roots.drop_last(), profile, disk, kinds);
        let before = with_roots(list, kind, roots.drop_last(), profile, disk);
        match folder_at(disk.folders@, roots.last()) {
            None => {},
            Some(i) => {
                lemma_probes_real(
                    before,
                    kind,
                    probes_of(kind, roots.last(), profile, texts(disk.folders@[i].dirs@)),
                    texts(disk.files@),
                    kinds,
                );
            },
        }
    }
}

/// Every candidate is a file that exists, of a browser that is to be tried.
pub proof fn law_candidates_exist(
    kinds: Seq<BrowserKind>,
    profile: Option<Text>,
    home: Text,
    disk: Disk,
)
    ensures
        all_real(candidates_of(kinds, profile, home, disk), kinds, texts(disk.files@)),
    decreases kinds.len(),
{
    if kinds.len() > 0 {
        let fewer = kinds.drop_last();
        law_candidates_exist(fewer, profile, home, disk);
        let before = candidates_of(fewer, profile, home, disk);
        assert forall|i: int| 0 <= i < before.len() implies texts(disk.files@).contains(
            (#[trigger] before[i]).path,
        ) && kinds.contains(before[i].kind) by {
            let k = choose|k: int| 0 <= k < fewer.len() && fewer[k] == before[i].kind;
            assert(kinds[k] == before[i].kind);
        }
        assert(kinds.contains(kinds.last())) by {
            assert(kinds[kinds.len() - 1] == kinds.last());
        }
        lemma_roots_real(
            before,
            kinds.last(),
            roots_of(home, kinds.last()),
            profile,
            disk,
            kinds,
        );
    }
}

/// No candidate is of the kind that stands for all browsers, and where one browser is wanted, each
/// is of that one.
pub proof fn law_every_candidate_has_a_browser(
    browser: BrowserKind,
    profile: Option<Text>,
    home: Text,
    disk: Disk,
    i: int,
)
    requires
        0 <= i < candidates_of(kinds_of(browser), profile, home, disk).len(),
    ensures
        candidates_of(kinds_of(browser), profile, home, disk)[i].kind != BrowserKind::Auto,
        browser != BrowserKind::Auto ==> candidates_of(
            kinds_of(browser),
            profile,
            home,
            disk,
        )[i].kind == browser,
{
    law_candidates_exist(kinds_of(browser), profile, home, disk);
    assert(kinds_of(browser).contains(
        candidates_of(kinds_of(browser), profile, home, disk)[i].kind,
    ));
}

/// A probe that is tried and exists is a candidate behind all probes.
proof fn lemma_probe_is_found(
    list: Seq<CandidateView>,
    kind: BrowserKind,
    probes: Seq<ProbeView>,
    files: Seq<Text>,
    p: int,
)
    requires
        0 <= p < probes.len(),
        files.contains(probes[p].path),
    ensures
        has_path(with_probes(list, kind, probes, files), probes[p].path),
    decreases probes.len(),
{
    let init = probes.drop_last();
    let before = with_probes(list, kind, init, files);
    let all = with_probes(list, kind, probes, files);
    if p == probes.len() - 1 {
        if !(probes[p].once && has_path(before, probes[p].path)) {
            assert(all[before.len() as int].path == probes[p].path);
            assert(same_path(all[before.len() as int].path, probes[p].path));
        }
    } else {
        lemma_probe_is_found(list, kind, init, files, p);
        let i = choose|i: int| 0 <= i < before.len() && same_path(
            (#[trigger] before[i]).path,
            probes[p].path,
        );
        assert(all[i] == before[i]);
    }
}

/// What was a candidate stays one, in its place.
proof fn lemma_probes_keep(
    list: Seq<CandidateView>,
    kind: BrowserKind,
    probes: Seq<ProbeView>,
    files: Seq<Text>,
)
    ensures
        with_probes(list, kind, probes, files).len() >= list.len(),
        forall|i: int|
            0 <= i < list.len() ==> #[trigger] with_probes(list, kind, probes, files)[i]
                == list[i],
    decreases probes.len(),
{
    if probes.len() > 0 {
        lemma_probes_keep(list, kind, probes.drop_last(), files);
    }
}

proof fn lemma_kept_path(a: Seq<CandidateView>, b: Seq<CandidateView>, path: Text)
    requires
        has_path(a, path),
        b.len() >= a.len(),
        forall|i: int| 0 <= i < a.len() ==> #[trigger] b[i] == a[i],
    ensures
        has_path(b, path),
{
    let i = choose|i: int| 0 <= i < a.len() && same_path((#[trigger] a[i]).path, path);
    assert(b[i] == a[i]);
}

proof fn lemma_root_is_searched(
    list: Seq<CandidateView>,
    kind: BrowserKind,
    roots: Seq<Text>,
    profile: Option<Text>,
    disk: Disk,
    r: int,
    p: int,
)
    requires
        0 <= r < roots.len(),
        folder_at(disk.folders@, roots[r]) is Some,
        ({
            let dirs = texts(disk.folders@[folder_at(disk.folders@, roots[r])->0].dirs@);
            let probes = probes_of(kind, roots[r], profile, dirs);
            0 <= p < probes.len() && texts(disk.files@).contains(probes[p].path)
        }),
    ensures
        ({
            let dirs = texts(disk.folders@[folder_at(disk.folders@, roots[r])->0].dirs@);
            has_path(
                with_roots(list, kind, roots, profile, disk),
                probes_of(kind, roots[r], profile, dirs)[p].path,
            )
        }),
    decreases roots.len(),
{
    let init = roots.drop_last();
    let before = with_roots(list, kind, init, profile, disk);
    let files = texts(disk.files@);
    let dirs = texts(disk.folders@[folder_at(disk.folders@, roots[r])->0].dirs@);
    let path = probes_of(kind, roots[r], profile, dirs)[p].path;
    if r == roots.len() - 1 {
        lemma_probe_is_found(before, kind, probes_of(kind, roots[r], profile, dirs), files, p);
    } else {
        lemma_root_is_searched(list, kind, init, profile, disk, r, p);
        if let Some(f) = folder_at(disk.folders@, roots.last()) {
            let probes = probes_of(kind, roots.last(), profile, texts(disk.folders@[f].dirs@));
            lemma_probes_keep(before, kind, probes, files);
            lemma_kept_path(before, with_probes(before, kind, probes, files), path);
        }
    }
}

/// Every store that is looked for and exists is found: what a browser may have below one of its
/// directories is among its candidates.
pub proof fn law_existing_stores_are_found(
    kind: BrowserKind,
    profile: Option<Text>,
    home: Text,
    disk: Disk,
    r: int,
    p: int,
)
    requires
        kind != BrowserKind::Auto,
        0 <= r < roots_of(home, kind).len(),
        folder_at(disk.folders@, roots_of(home, kind)[r]) is Some,
        ({
            let root = roots_of(home, kind)[r];
            let dirs = texts(disk.folders@[folder_at(disk.folders@, root)->0].dirs@);
            let probes = probes_of(kind, root, profile, dirs);
            0 <= p < probes.len() && texts(disk.files@).contains(probes[p].path)
        }),
    ensures
        ({
            let root = roots_of(home, kind)[r];
            let dirs = texts(disk.folders@[folder_at(disk.folders@, root)->0].dirs@);
            has_path(
                candidates_of(kinds_of(kind), profile, home, disk),
                probes_of(kind, root, profile, dirs)[p].path,
            )
        }),
{
    let kinds = kinds_of(kind);
    assert(kinds =~= seq![kind]);
    lemma_root_is_searched(
        candidates_of(kinds.drop_last(), profile, home, disk),
        kind,
        roots_of(home, kind),
        profile,
        disk,
        r,
        p,
    );
}

/// Firefox is looked up in every listed profile that is wanted: one whose name is the wanted one or
/// holds it, or any where none is named; there the file is `cookies.sqlite`.
pub proof fn law_firefox_profiles_are_looked_up(root: Text, profile: Option<Text>, dirs: Seq<Text>, d: int)
    requires
        0 <= d < dirs.len(),
        profile matches Some(wanted) ==> file_name(dirs[d]) is Some && (file_name(dirs[d])->0
            == wanted || contains_text(file_name(dirs[d])->0, wanted)),
    ensures
        exists|p: int|
            0 <= p < probes_of(BrowserKind::Firefox, root, profile, dirs).len()
                && (#[trigger] probes_of(BrowserKind::Firefox, root, profile, dirs)[p]).path
                == path_join(dirs[d], "cookies.sqlite"@),
{
    lemma_firefox_probe(dirs, profile, "cookies.sqlite"@, d);
    let all = firefox_probes(dirs, profile, "cookies.sqlite"@);
    let p = choose|p: int|
        0 <= p < all.len() && (#[trigger] all[p]).path == path_join(dirs[d], "cookies.sqlite"@);
    assert(probes_of(BrowserKind::Firefox, root, profile, dirs)[p] == all[p]);
}

proof fn lemma_firefox_probe(dirs: Seq<Text>, profile: Option<Text>, file: Text, d: int)
    requires
        0 <= d < dirs.len(),
        matches_profile(dirs[d], profile),
    ensures
        exists|p: int|
            0 <= p < firefox_probes(dirs, profile, file).len() && (#[trigger] firefox_probes(
                dirs,
                profile,
                file,
            )[p]).path == path_join(dirs[d], file),
    decreases dirs.len(),
{
    let init = dirs.drop_last();
    let all = firefox_probes(dirs, profile, file);
    if d == dirs.len() - 1 {
        assert(all[all.len() - 1].path == path_join(dirs[d], file));
    } else {
        lemma_firefox_probe(init, profile, file, d);
        let before = firefox_probes(init, profile, file);
        let p = choose|p: int|
            0 <= p < before.len() && (#[trigger] before[p]).path == path_join(init[d], file);
        assert(all[p] == before[p]);
    }
}

/// No profile of Firefox is looked up that is not wanted.
pub proof fn law_other_firefox_profiles_are_passed_over(
    root: Text,
    profile: Option<Text>,
    dirs: Seq<Text>,
    p: int,
)
    requires
        0 <= p < probes_of(BrowserKind::Firefox, root, profile, dirs).len(),
    ensures
        exists|d: int|
            0 <= d < dirs.len() && probes_of(BrowserKind::Firefox, root, profile, dirs)[p].path
                == path_join(#[trigger] dirs[d], "cookies.sqlite"@) && (profile matches Some(wanted)
                ==> file_name(dirs[d]) is Some && (file_name(dirs[d])->0 == wanted
                || contains_text(file_name(dirs[d])->0, wanted))),
    decreases dirs.len(),
{
    let init = dirs.drop_last();
    let before = firefox_probes(init, profile, "cookies.sqlite"@);
    if p < before.len() {
        law_other_firefox_profiles_are_passed_over(root, profile, init, p);
        let d = choose|d: int|
            0 <= d < init.len() && before[p].path == path_join(
                #[trigger] init[d],
                "cookies.sqlite"@,
            ) && (profile matches Some(wanted) ==> file_name(init[d]) is Some && (file_name(
                init[d],
            )->0 == wanted || contains_text(file_name(init[d])->0, wanted)));
        assert(dirs[d] == init[d]);
    } else {
        assert(dirs[dirs.len() - 1] == dirs.last());
    }
}

proof fn lemma_store_files_at(dirs: Seq<Text>, once: bool, d: int)
    requires
        0 <= d < dirs.len(),
    ensures
        store_files(dirs, once).len() == 2 * dirs.len(),
        store_files(dirs, once)[2 * d] == (ProbeView {
            path: path_join(dirs[d], "Network/Cookies"@),
            once,
        }),
        store_files(dirs, once)[2 * d + 1] == (ProbeView {
            path: path_join(dirs[d], "Cookies"@),
            once,
        }),
    decreases dirs.len(),
{
    let init = dirs.drop_last();
    if init.len() > 0 {
        if d < init.len() {
            lemma_store_files_at(init, once, d);
            assert(init[d] == dirs[d]);
        } else {
            lemma_store_files_at(init, once, 0);
        }
    } else {
        assert(store_files(init, once).len() == 0);
    }
}

/// In the Chromium family a named profile is looked up by its name, in both places where it may
/// have its cookies, and nothing else is.
pub proof fn law_named_profile_is_looked_up(kind: BrowserKind, root: Text, name: Text, dirs: Seq<Text>)
    requires
        kind != BrowserKind::Firefox,
    ensures
        ({
            let probes = probes_of(kind, root, Some(name), dirs);
            let dir = path_join(root, name);
            &&& probes.len() == 2
            &&& probes[0].path == path_join(dir, "Network/Cookies"@)
            &&& probes[1].path == path_join(dir, "Cookies"@)
        }),
{
    let named = named_dirs(root, Some(name));
    assert(named =~= seq![path_join(root, name)]);
    lemma_store_files_at(named, false, 0);
    assert(probes_of(kind, root, Some(name), dirs) =~= store_files(named, false));
}

/// In the Chromium family, where no profile is named, the usual profiles are looked up first and
/// then every directory that is listed, each in both places where it may have its cookies.
pub proof fn law_all_profiles_are_looked_up(kind: BrowserKind, root: Text, dirs: Seq<Text>, d: int)
    requires
        kind != BrowserKind::Firefox,
        0 <= d < dirs.len(),
    ensures
        ({
            let probes = probes_of(kind, root, None, dirs);
            &&& probes.len() == 8 + 2 * dirs.len()
            &&& probes[0].path == path_join(path_join(root, "Default"@), "Network/Cookies"@)
            &&& probes[1].path == path_join(path_join(root, "Default"@), "Cookies"@)
            &&& probes[2].path == path_join(path_join(root, "Profile 1"@), "Network/Cookies"@)
            &&& probes[3].path == path_join(path_join(root, "Profile 1"@), "Cookies"@)
            &&& probes[4].path == path_join(path_join(root, "Profile 2"@), "Network/Cookies"@)
            &&& probes[5].path == path_join(path_join(root, "Profile 2"@), "Cookies"@)
            &&& probes[6].path == path_join(path_join(root, "Profile 3"@), "Network/Cookies"@)
            &&& probes[7].path == path_join(path_join(root, "Profile 3"@), "Cookies"@)
            &&& probes[8 + 2 * d].path == path_join(dirs[d], "Network/Cookies"@)
            &&& probes[9 + 2 * d].path == path_join(dirs[d], "Cookies"@)
        }),
{
    let named = named_dirs(root, None);
    assert(named =~= seq![
        path_join(root, "Default"@),
        path_join(root, "Profile 1"@),
        path_join(root, "Profile 2"@),
        path_join(root, "Profile 3"@),
    ]);
    lemma_store_files_at(named, false, 0);
    lemma_store_files_at(named, false, 1);
    lemma_store_files_at(named, false, 2);
    lemma_store_files_at(named, false, 3);
    lemma_store_files_at(dirs, true, d);
    let probes = probes_of(kind, root, None, dirs);
    assert(probes[8 + 2 * d] == store_files(dirs, true)[2 * d]);
    assert(probes[9 + 2 * d] == store_files(dirs, true)[2 * d + 1]);
}

/// A folder is looked up by its path.
pub proof fn law_folder_is_found_by_its_path(folders: Seq<Folder>, path: Text, i: int)
    ensures
        folder_at(folders, path) matches Some(f) ==> 0 <= f < folders.len()
            && folders[f].path@ == path,
        0 <= i < folders.len() && folders[i].path@ == path ==> folder_at(folders, path) is Some
            && folder_at(folders, path)->0 <= i,
    decreases folders.len(),
{
    if folders.len() > 0 {
        law_folder_is_found_by_its_path(folders.drop_last(), path, i);
    }
}

/// Candidates stand in the order in which they are tried: what is tried later stands behind what is
/// tried before, and what was found stays where it is.
pub proof fn law_candidates_stand_in_the_order_tried(
    list: Seq<CandidateView>,
    kind: BrowserKind,
    first: Seq<ProbeView>,
    later: Seq<ProbeView>,
    files: Seq<Text>,
    i: int,
)
    ensures
        with_probes(list, kind, first + later, files) == with_probes(
            with_probes(list, kind, first, files),
            kind,
            later,
            files,
        ),
        0 <= i < list.len() ==> i < with_probes(list, kind, first, files).len() && with_probes(
            list,
            kind,
            first,
            files,
        )[i] == list[i],
    decreases later.len(),
{
    lemma_probes_keep(list, kind, first, files);
    if later.len() == 0 {
        assert(first + later =~= first);
    } else {
        law_candidates_stand_in_the_order_tried(list, kind, first, later.drop_last(), files, i);
        assert((first + later).drop_last() =~= first + later.drop_last());
        assert((first + later).last() == later.last());
    }
}

/// A file that is tried is a candidate of the browser for which it is tried exactly where it exists
/// and was not found before, if that counts.
pub proof fn law_tried_file_is_a_candidate_if_it_exists(
    list: Seq<CandidateView>,
    kind: BrowserKind,
    probe: ProbeView,
    files: Seq<Text>,
)
    ensures
        ({
            let found = with_probes(list, kind, seq![probe], files);
            let known = exists|i: int|
                0 <= i < list.len() && same_path((#[trigger] list[i]).path, probe.path);
            &&& files.contains(probe.path) && !(probe.once && known) ==> found == list.push(
                CandidateView { kind, path: probe.path },
            )
            &&& !files.contains(probe.path) || (probe.once && known) ==> found == list
        }),
{
    let none = Seq::<ProbeView>::empty();
    assert(seq![probe].drop_last() =~= none);
    assert(with_probes(list, kind, none, files) == list);
    assert(seq![probe].last() == probe);
}

/// Directories are listed exactly where what they are called decides: for Firefox, whose profiles
/// are found by a part of their name, and in the Chromium family where no profile is named.
pub open spec fn needs_listing(kind: BrowserKind, named: bool) -> bool {
    kind == BrowserKind::Firefox || !named
}

/// Where nothing is listed, what is tried is the same for every list.
pub proof fn law_unlisted_directories_do_not_matter(
    kind: BrowserKind,
    root: Text,
    profile: Option<Text>,
    dirs: Seq<Text>,
    other: Seq<Text>,
)
    requires
        !needs_listing(kind, profile is Some),
    ensures
        probes_of(kind, root, profile, dirs) == probes_of(kind, root, profile, other),
{
}

/// Every browser keeps its profiles in a directory of its own below the home directory: the one of
/// macOS is searched first, then the one of Linux.
pub proof fn law_profiles_lie_below_the_home_directory(home: Text)
    ensures
        firefox_roots(home).len() == 2,
        firefox_roots(home)[0] == path_join(home, "Library/Application Support/Firefox/Profiles"@),
        firefox_roots(home)[1] == path_join(home, ".mozilla/firefox"@),
        chromium_roots(home, BrowserKind::Chrome).len() == 2,
        chromium_roots(home, BrowserKind::Chrome)[0] == path_join(
            home,
            "Library/Application Support/Google/Chrome"@,
        ),
        chromium_roots(home, BrowserKind::Chrome)[1] == path_join(home, ".config/google-chrome"@),
        chromium_roots(home, BrowserKind::Brave).len() == 2,
        chromium_roots(home, BrowserKind::Brave)[0] == path_join(
            home,
            "Library/Application Support/BraveSoftware/Brave-Browser"@,
        ),
        chromium_roots(home, BrowserKind::Brave)[1] == path_join(home, ".config/BraveSoftware/Brave-Browser"@),
        chromium_roots(home, BrowserKind::Edge).len() == 2,
        chromium_roots(home, BrowserKind::Edge)[0] == path_join(
            home,
            "Library/Application Support/Microsoft Edge"@,
        ),
        chromium_roots(home, BrowserKind::Edge)[1] == path_join(home, ".config/microsoft-edge"@),
        chromium_roots(home, BrowserKind::Comet).len() == 3,
        chromium_roots(home, BrowserKind::Comet)[0] == path_join(
            home,
            "Library/Application Support/Comet"@,
        ),
        chromium_roots(home, BrowserKind::Comet)[1] == path_join(home, ".config/Comet"@),
        chromium_roots(home, BrowserKind::Comet)[2] == path_join(home, ".config/comet"@),
        chromium_roots(home, BrowserKind::Chromium).len() == 2,
        chromium_roots(home, BrowserKind::Chromium)[0] == path_join(
            home,
            "Library/Application Support/Chromium"@,
        ),
        chromium_roots(home, BrowserKind::Chromium)[1] == path_join(home, ".config/chromium"@),
{
}

} // verus!
