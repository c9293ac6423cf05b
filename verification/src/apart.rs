//! The cookie stores of two browsers never share a path, so that looking through all browsers finds
//! what looking through each of them finds.
use vstd::prelude::*;

use crate::browser::BrowserKind;
use crate::parts::{lemma_split_extend, lemma_split_nonempty, split};
use crate::paths::{names_of, path_join, path_names, same_path};
use crate::profiles::{
    candidates_of, firefox_probes, folder_at, has_path, kinds_of, law_candidates_exist, named_dirs,
    probes_of, profile_names, roots_of, store_files, with_probes, with_root, with_roots,
    CandidateView, Disk, Folder, ProbeView,
};
use crate::text::{texts, Text};

verus! {

/// Every directory that is listed lies below the directory of profiles that it is listed for.
pub open spec fn dirs_lie_below(disk: Disk) -> bool {
    forall|i: int, j: int|
        0 <= i < disk.folders@.len() && 0 <= j < disk.folders@[i].dirs@.len()
            ==> disk.folders@[i].path@.is_prefix_of(#[trigger] disk.folders@[i].dirs@[j]@)
}

/// What stands before a relative path that is taken from the directory `home`.
spec fn home_part(home: Text) -> Text {
    if home.len() == 0 || home.last() == '/' {
        home
    } else {
        home + "/"@
    }
}

/// The browser that two characters of the name of its directory tell.
spec fn kind_by_name(first: char, second: char) -> BrowserKind {
    if first == 'F' {
        BrowserKind::Firefox
    } else if first == 'G' || first == 'g' {
        BrowserKind::Chrome
    } else if first == 'B' {
        BrowserKind::Brave
    } else if first == 'M' || first == 'm' {
        BrowserKind::Edge
    } else if second == 'o' {
        BrowserKind::Comet
    } else {
        BrowserKind::Chromium
    }
}

/// The browser whose directories of profiles a path below `home` belongs to, by its names.
spec fn owner(home: Text, path: Text) -> BrowserKind {
    let rest = names_of(path).skip(names_of(home_part(home)).len() as int);
    if rest[0][0] == 'L' {
        kind_by_name(rest[2][0], rest[2][1])
    } else if rest[0][1] == 'm' {
        BrowserKind::Firefox
    } else {
        kind_by_name(rest[1][0], rest[1][1])
    }
}

/// Behind a separator a text is parted by itself.
proof fn lemma_split_behind_separator(a: Text, b: Text)
    requires
        a.len() == 0 || a.last() == '/',
    ensures
        split(a + b, '/') == split(a, '/').drop_last() + split(b, '/'),
    decreases b.len(),
{
    lemma_split_nonempty(a, '/');
    if b.len() == 0 {
        assert(a + b =~= a);
        assert(split(a, '/') =~= split(a, '/').drop_last() + split(b, '/'));
    } else {
        let init = b.drop_last();
        lemma_split_behind_separator(a, init);
        lemma_split_nonempty(init, '/');
        assert((a + b).drop_last() =~= a + init);
        assert((a + b).last() == b.last());
        assert(split(a + b, '/') =~= split(a, '/').drop_last() + split(b, '/'));
    }
}

/// The names of parts are those of the first ones, followed by those of the others.
proof fn lemma_names_add(a: Seq<Text>, b: Seq<Text>)
    ensures
        path_names(a + b) == path_names(a) + path_names(b),
    decreases b.len(),
{
    if b.len() == 0 {
        assert(a + b =~= a);
        assert(path_names(a) + path_names(b) =~= path_names(a));
    } else {
        lemma_names_add(a, b.drop_last());
        assert((a + b).drop_last() =~= a + b.drop_last());
        assert((a + b).last() == b.last());
        assert(path_names(a + b) =~= path_names(a) + path_names(b));
    }
}

/// The names behind a separator follow those before it.
proof fn lemma_names_behind_separator(a: Text, b: Text)
    requires
        a.len() == 0 || a.last() == '/',
    ensures
        names_of(a + b) == names_of(a) + names_of(b),
{
    lemma_split_behind_separator(a, b);
    lemma_split_nonempty(a, '/');
    let before = split(a, '/');
    lemma_names_add(before.drop_last(), split(b, '/'));
    assert(before.last().len() == 0);
}

/// A part of more than one character is a name.
proof fn lemma_one_name(part: Text)
    requires
        part.len() > 1,
    ensures
        path_names(seq![part]) == seq![part],
{
    reveal_strlit(".");
    let none = Seq::<Text>::empty();
    assert(seq![part].drop_last() =~= none);
    assert(path_names(none) =~= none);
    assert(none.push(part) =~= seq![part]);
}

/// A name that a separator follows is the first name.
proof fn lemma_first_name(name: Text, rest: Text)
    requires
        name.len() > 1,
        !name.contains('/'),
    ensures
        names_of(name + "/"@ + rest) == seq![name] + names_of(rest),
{
    reveal_strlit("/");
    let head = name + "/"@;
    let none = Seq::<char>::empty();
    assert(split(none, '/') =~= seq![none]);
    lemma_split_extend(none, name, '/');
    assert(none + name =~= name);
    assert(split(name, '/') =~= seq![name]);
    assert(head.drop_last() =~= name);
    assert(split(head, '/') =~= seq![name, none]);
    assert(path_names(seq![name, none].drop_last()) =~= seq![name]) by {
        assert(seq![name, none].drop_last() =~= seq![name]);
        lemma_one_name(name);
    }
    assert(names_of(head) =~= seq![name]);
    lemma_names_behind_separator(head, rest);
}

/// The first part of a text begins as the text does.
proof fn lemma_first_part(s: Text)
    requires
        s.len() >= 2,
        s[0] != '/',
        s[1] != '/',
    ensures
        split(s, '/').len() > 0,
        split(s, '/')[0].len() >= 2,
        split(s, '/')[0][0] == s[0],
        split(s, '/')[0][1] == s[1],
    decreases s.len(),
{
    let init = s.drop_last();
    lemma_split_nonempty(init, '/');
    if s.len() > 2 {
        lemma_first_part(init);
    } else {
        let none = Seq::<char>::empty();
        lemma_split_extend(none, s, '/');
        assert(split(none, '/') =~= seq![none]);
        assert(none + s =~= s);
        assert(split(s, '/') =~= seq![s]);
    }
}

/// The first name of a text begins as the text does.
proof fn lemma_first_name_begins(s: Text)
    requires
        s.len() >= 2,
        s[0] != '/',
        s[1] != '/',
    ensures
        names_of(s).len() > 0,
        names_of(s)[0].len() >= 2,
        names_of(s)[0][0] == s[0],
        names_of(s)[0][1] == s[1],
{
    lemma_first_part(s);
    let parts = split(s, '/');
    let first = parts[0];
    assert(parts =~= seq![first] + parts.skip(1));
    lemma_names_add(seq![first], parts.skip(1));
    lemma_one_name(first);
}

/// A path that is taken from a directory begins with it.
proof fn lemma_join_begins_with_base(base: Text, rel: Text)
    requires
        rel.len() > 0,
        rel[0] != '/',
    ensures
        base.is_prefix_of(path_join(base, rel)),
{
    reveal_strlit("/");
    assert(base =~= path_join(base, rel).subrange(0, base.len() as int));
}

proof fn lemma_prefix_of_prefix(a: Text, b: Text, c: Text)
    requires
        a.is_prefix_of(b),
        b.is_prefix_of(c),
    ensures
        a.is_prefix_of(c),
{
    assert forall|i: int| 0 <= i < a.len() implies a[i] == c[i] by {
        assert(a[i] == b.subrange(0, a.len() as int)[i]);
        assert(b[i] == c.subrange(0, b.len() as int)[i]);
    }
    assert(a =~= c.subrange(0, a.len() as int));
}

/// Below `home`, a path that begins with the one taken from there goes on as that does, and its
/// names follow those of `home`.
proof fn lemma_rest(home: Text, rel: Text, path: Text) -> (rest: Text)
    requires
        rel.len() > 0,
        rel[0] != '/',
        path_join(home, rel).is_prefix_of(path),
    ensures
        rel.len() <= rest.len(),
        forall|j: int| 0 <= j < rel.len() ==> #[trigger] rest[j] == rel[j],
        names_of(path).skip(names_of(home_part(home)).len() as int) == names_of(rest),
{
    reveal_strlit("/");
    let joined = path_join(home, rel);
    let head = home_part(home);
    let n = head.len() as int;
    let rest = path.skip(n);
    assert(joined =~= head + rel);
    assert forall|j: int| 0 <= j < joined.len() implies #[trigger] path[j] == joined[j] by {
        assert(joined[j] == path.subrange(0, joined.len() as int)[j]);
    }
    assert forall|j: int| 0 <= j < rel.len() implies #[trigger] rest[j] == rel[j] by {
        assert(rest[j] == path[n + j]);
        assert(joined[n + j] == rel[j]);
    }
    assert(path =~= head + rest) by {
        assert forall|j: int| 0 <= j < n implies path[j] == #[trigger] head[j] by {
            assert(path[j] == joined[j]);
        }
    }
    lemma_names_behind_separator(head, rest);
    assert((names_of(head) + names_of(rest)).skip(names_of(head).len() as int) =~= names_of(rest));
    rest
}

/// The names of a path in the directory of application data.
proof fn lemma_library_names(rest: Text)
    requires
        rest.len() >= 30,
        forall|j: int|
            0 <= j < 28 ==> #[trigger] rest[j] == "Library/Application Support/"@[j],
        rest[28] != '/',
        rest[29] != '/',
    ensures
        names_of(rest)[0][0] == 'L',
        names_of(rest)[2][0] == rest[28],
        names_of(rest)[2][1] == rest[29],
{
    reveal_strlit("Library/Application Support/");
    reveal_strlit("Library");
    reveal_strlit("Application Support");
    reveal_strlit("/");
    let tail = rest.skip(28);
    let middle = "Application Support"@ + "/"@ + tail;
    assert(rest =~= "Library"@ + "/"@ + middle);
    lemma_first_name("Library"@, middle);
    lemma_first_name("Application Support"@, tail);
    lemma_first_name_begins(tail);
    let names = names_of(tail);
    let all = seq!["Library"@] + (seq!["Application Support"@] + names);
    assert(names_of(rest) == all);
    assert(all[0] == "Library"@);
    assert(all[2] == names[0]);
}

/// The names of a path in the directory of settings.
proof fn lemma_config_names(rest: Text)
    requires
        rest.len() >= 10,
        forall|j: int| 0 <= j < 8 ==> #[trigger] rest[j] == ".config/"@[j],
        rest[8] != '/',
        rest[9] != '/',
    ensures
        names_of(rest)[0][0] == '.',
        names_of(rest)[0][1] == 'c',
        names_of(rest)[1][0] == rest[8],
        names_of(rest)[1][1] == rest[9],
{
    reveal_strlit(".config/");
    reveal_strlit(".config");
    reveal_strlit("/");
    let tail = rest.skip(8);
    assert(rest =~= ".config"@ + "/"@ + tail);
    lemma_first_name(".config"@, tail);
    lemma_first_name_begins(tail);
    let all = seq![".config"@] + names_of(tail);
    assert(all[0] == ".config"@);
    assert(all[1] == names_of(tail)[0]);
}

/// What lies below a directory of the profiles of a browser belongs to that browser.
proof fn lemma_root_owner(home: Text, kind: BrowserKind, i: int, path: Text)
    requires
        0 <= i < roots_of(home, kind).len(),
        roots_of(home, kind)[i].is_prefix_of(path),
    ensures
        owner(home, path) == kind,
{
    reveal_strlit("Library/Application Support/Firefox/Profiles");
    reveal_strlit(".mozilla/firefox");
    reveal_strlit("Library/Application Support/Google/Chrome");
    reveal_strlit(".config/google-chrome");
    reveal_strlit("Library/Application Support/BraveSoftware/Brave-Browser");
    reveal_strlit(".config/BraveSoftware/Brave-Browser");
    reveal_strlit("Library/Application Support/Microsoft Edge");
    reveal_strlit(".config/microsoft-edge");
    reveal_strlit("Library/Application Support/Comet");
    reveal_strlit(".config/Comet");
    reveal_strlit(".config/comet");
    reveal_strlit("Library/Application Support/Chromium");
    reveal_strlit(".config/chromium");
    let rel = match kind {
        BrowserKind::Firefox => if i == 0 {
            "Library/Application Support/Firefox/Profiles"@
        } else {
            ".mozilla/firefox"@
        },
        BrowserKind::Chrome => if i == 0 {
            "Library/Application Support/Google/Chrome"@
        } else {
            ".config/google-chrome"@
        },
        BrowserKind::Brave => if i == 0 {
            "Library/Application Support/BraveSoftware/Brave-Browser"@
        } else {
            ".config/BraveSoftware/Brave-Browser"@
        },
        BrowserKind::Edge => if i == 0 {
            "Library/Application Support/Microsoft Edge"@
        } else {
            ".config/microsoft-edge"@
        },
        BrowserKind::Comet => if i == 0 {
            "Library/Application Support/Comet"@
        } else if i == 1 {
            ".config/Comet"@
        } else {
            ".config/comet"@
        },
        _ => if i == 0 {
            "Library/Application Support/Chromium"@
        } else {
            ".config/chromium"@
        },
    };
    assert(roots_of(home, kind)[i] == path_join(home, rel));
    let rest = lemma_rest(home, rel, path);
    if rel[0] == 'L' {
        assert forall|j: int| 0 <= j < 28 implies #[trigger] rest[j]
            == "Library/Application Support/"@[j] by {
            reveal_strlit("Library/Application Support/");
            assert(rest[j] == rel[j]);
        }
        assert(rest[28] == rel[28]);
        assert(rest[29] == rel[29]);
        lemma_library_names(rest);
    } else if rel[1] == 'c' {
        assert forall|j: int| 0 <= j < 8 implies #[trigger] rest[j] == ".config/"@[j] by {
            reveal_strlit(".config/");
            assert(rest[j] == rel[j]);
        }
        assert(rest[8] == rel[8]);
        assert(rest[9] == rel[9]);
        lemma_config_names(rest);
    } else {
        assert(rest[0] == rel[0]);
        assert(rest[1] == rel[1]);
        lemma_first_name_begins(rest);
    }
}

/// All paths begin with the given one.
spec fn all_below(list: Seq<Text>, root: Text) -> bool {
    forall|i: int| 0 <= i < list.len() ==> root.is_prefix_of(#[trigger] list[i])
}

/// All probes begin with the given path.
spec fn probes_below(list: Seq<ProbeView>, root: Text) -> bool {
    forall|i: int| 0 <= i < list.len() ==> root.is_prefix_of((#[trigger] list[i]).path)
}

proof fn lemma_firefox_probes_below(dirs: Seq<Text>, profile: Option<Text>, root: Text)
    requires
        all_below(dirs, root),
    ensures
        probes_below(firefox_probes(dirs, profile, "cookies.sqlite"@), root),
    decreases dirs.len(),
{
    if dirs.len() > 0 {
        reveal_strlit("cookies.sqlite");
        let init = dirs.drop_last();
        assert forall|i: int| 0 <= i < init.len() implies root.is_prefix_of(#[trigger] init[i]) by {
            assert(init[i] == dirs[i]);
        }
        lemma_firefox_probes_below(init, profile, root);
        let dir = dirs[dirs.len() - 1];
        lemma_join_begins_with_base(dir, "cookies.sqlite"@);
        lemma_prefix_of_prefix(root, dir, path_join(dir, "cookies.sqlite"@));
    }
}

proof fn lemma_store_files_below(dirs: Seq<Text>, once: bool, root: Text)
    requires
        all_below(dirs, root),
    ensures
        probes_below(store_files(dirs, once), root),
    decreases dirs.len(),
{
    if dirs.len() > 0 {
        reveal_strlit("Network/Cookies");
        reveal_strlit("Cookies");
        let init = dirs.drop_last();
        assert forall|i: int| 0 <= i < init.len() implies root.is_prefix_of(#[trigger] init[i]) by {
            assert(init[i] == dirs[i]);
        }
        lemma_store_files_below(init, once, root);
        let dir = dirs[dirs.len() - 1];
        lemma_join_begins_with_base(dir, "Network/Cookies"@);
        lemma_prefix_of_prefix(root, dir, path_join(dir, "Network/Cookies"@));
        lemma_join_begins_with_base(dir, "Cookies"@);
        lemma_prefix_of_prefix(root, dir, path_join(dir, "Cookies"@));
    }
}

/// Where no profile is named, all that is tried lies below the directory of profiles.
proof fn lemma_probes_below(kind: BrowserKind, root: Text, dirs: Seq<Text>)
    requires
        all_below(dirs, root),
    ensures
        probes_below(probes_of(kind, root, None, dirs), root),
{
    if kind == BrowserKind::Firefox {
        lemma_firefox_probes_below(dirs, None, root);
    } else {
        let named = named_dirs(root, None);
        assert forall|i: int| 0 <= i < named.len() implies root.is_prefix_of(#[trigger] named[i]) by {
            let name = profile_names(None)[i];
            reveal_strlit("Default");
            reveal_strlit("Profile 1");
            reveal_strlit("Profile 2");
            reveal_strlit("Profile 3");
            assert(name.len() > 0 && name[0] != '/');
            lemma_join_begins_with_base(root, name);
            assert(named[i] == path_join(root, name));
        }
        lemma_store_files_below(named, false, root);
        lemma_store_files_below(dirs, true, root);
    }
}

/// All probes are tried alike: only where they were not found before, or whether they were or not.
spec fn all_once(list: Seq<ProbeView>, once: bool) -> bool {
    forall|i: int| 0 <= i < list.len() ==> (#[trigger] list[i]).once == once
}

proof fn lemma_store_files_once(dirs: Seq<Text>, once: bool)
    ensures
        all_once(store_files(dirs, once), once),
    decreases dirs.len(),
{
    if dirs.len() > 0 {
        lemma_store_files_once(dirs.drop_last(), once);
    }
}

proof fn lemma_firefox_probes_repeat(dirs: Seq<Text>, profile: Option<Text>, file: Text)
    ensures
        all_once(firefox_probes(dirs, profile, file), false),
    decreases dirs.len(),
{
    if dirs.len() > 0 {
        lemma_firefox_probes_repeat(dirs.drop_last(), profile, file);
    }
}

/// Where a profile is named, nothing that is tried depends on what was found before.
proof fn lemma_named_probes_repeat(kind: BrowserKind, root: Text, profile: Text, dirs: Seq<Text>)
    ensures
        all_once(probes_of(kind, root, Some(profile), dirs), false),
{
    if kind == BrowserKind::Firefox {
        lemma_firefox_probes_repeat(dirs, Some(profile), "cookies.sqlite"@);
    } else {
        lemma_store_files_once(named_dirs(root, Some(profile)), false);
    }
}

/// A folder that is found has the path it was looked for by.
proof fn lemma_folder_at(folders: Seq<Folder>, path: Text)
    ensures
        folder_at(folders, path) matches Some(i) ==> 0 <= i < folders.len()
            && folders[i].path@ == path,
    decreases folders.len(),
{
    if folders.len() > 0 {
        lemma_folder_at(folders.drop_last(), path);
    }
}

/// The directories that are listed in a folder lie below it.
proof fn lemma_listed_below(disk: Disk, root: Text)
    requires
        dirs_lie_below(disk),
    ensures
        folder_at(disk.folders@, root) matches Some(i) ==> all_below(
            texts(disk.folders@[i].dirs@),
            root,
        ),
{
    lemma_folder_at(disk.folders@, root);
    if let Some(i) = folder_at(disk.folders@, root) {
        let dirs = texts(disk.folders@[i].dirs@);
        assert forall|j: int| 0 <= j < dirs.len() implies root.is_prefix_of(#[trigger] dirs[j]) by {
            assert(dirs[j] == disk.folders@[i].dirs@[j]@);
        }
    }
}

/// Whether a path is among two lists of candidates rests on the second alone where the first does
/// not have it.
proof fn lemma_has_path(a: Seq<CandidateView>, b: Seq<CandidateView>, path: Text)
    requires
        !has_path(a, path),
    ensures
        has_path(a + b, path) == has_path(b, path),
{
    if has_path(b, path) {
        let i = choose|i: int| 0 <= i < b.len() && same_path((#[trigger] b[i]).path, path);
        assert(same_path((a + b)[a.len() + i].path, path));
    }
    if has_path(a + b, path) {
        let i = choose|i: int|
            0 <= i < (a + b).len() && same_path((#[trigger] (a + b)[i]).path, path);
        if i < a.len() {
            assert(same_path(a[i].path, path));
        } else {
            assert(same_path(b[i - a.len()].path, path));
        }
    }
}

/// Nothing in the list keeps a probe out.
spec fn keeps_none_out(list: Seq<CandidateView>, probes: Seq<ProbeView>) -> bool {
    forall|i: int|
        0 <= i < probes.len() && (#[trigger] probes[i]).once ==> !has_path(list, probes[i].path)
}

proof fn lemma_probes_add(
    a: Seq<CandidateView>,
    b: Seq<CandidateView>,
    kind: BrowserKind,
    probes: Seq<ProbeView>,
    files: Seq<Text>,
)
    requires
        keeps_none_out(a, probes),
    ensures
        with_probes(a + b, kind, probes, files) == a + with_probes(b, kind, probes, files),
    decreases probes.len(),
{
    if probes.len() > 0 {
        let init = probes.drop_last();
        assert forall|i: int| 0 <= i < init.len() && (#[trigger] init[i]).once implies !has_path(
            a,
            init[i].path,
        ) by {
            assert(init[i] == probes[i]);
        }
        lemma_probes_add(a, b, kind, init, files);
        let before = with_probes(b, kind, init, files);
        let probe = probes[probes.len() - 1];
        if probe.once {
            lemma_has_path(a, before, probe.path);
        }
        let found = CandidateView { kind, path: probe.path };
        assert((a + before).push(found) =~= a + before.push(found));
    }
}

/// No candidate belongs to the given browser.
spec fn none_owned(list: Seq<CandidateView>, home: Text, kind: BrowserKind) -> bool {
    forall|i: int| 0 <= i < list.len() ==> owner(home, (#[trigger] list[i]).path) != kind
}

proof fn lemma_roots_add(
    a: Seq<CandidateView>,
    b: Seq<CandidateView>,
    kind: BrowserKind,
    n: int,
    profile: Option<Text>,
    home: Text,
    disk: Disk,
)
    requires
        0 <= n <= roots_of(home, kind).len(),
        dirs_lie_below(disk),
        profile is None ==> none_owned(a, home, kind),
    ensures
        with_roots(a + b, kind, roots_of(home, kind).take(n), profile, disk) == a + with_roots(
            b,
            kind,
            roots_of(home, kind).take(n),
            profile,
            disk,
        ),
    decreases n,
{
    let roots = roots_of(home, kind).take(n);
    if n > 0 {
        assert(roots.drop_last() =~= roots_of(home, kind).take(n - 1));
        lemma_roots_add(a, b, kind, n - 1, profile, home, disk);
        let root = roots.last();
        let before = with_roots(b, kind, roots.drop_last(), profile, disk);
        lemma_listed_below(disk, root);
        if let Some(f) = folder_at(disk.folders@, root) {
            let dirs = texts(disk.folders@[f].dirs@);
            let probes = probes_of(kind, root, profile, dirs);
            match profile {
                Some(name) => {
                    lemma_named_probes_repeat(kind, root, name, dirs);
                },
                None => {
                    lemma_probes_below(kind, root, dirs);
                    assert forall|i: int|
                        0 <= i < probes.len() && (#[trigger] probes[i]).once implies !has_path(
                        a,
                        probes[i].path,
                    ) by {
                        lemma_root_owner(home, kind, n - 1, probes[i].path);
                    }
                },
            }
            lemma_probes_add(a, before, kind, probes, texts(disk.files@));
        }
        assert(with_root(a + before, kind, root, profile, disk) == a + with_root(
            before,
            kind,
            root,
            profile,
            disk,
        ));
    }
}

/// Each candidate belongs to the browser that it is a candidate for.
spec fn each_owned(list: Seq<CandidateView>, home: Text) -> bool {
    forall|i: int| 0 <= i < list.len() ==> owner(home, (#[trigger] list[i]).path) == list[i].kind
}

proof fn lemma_probes_owned(
    list: Seq<CandidateView>,
    kind: BrowserKind,
    probes: Seq<ProbeView>,
    files: Seq<Text>,
    home: Text,
)
    requires
        each_owned(list, home),
        forall|i: int| 0 <= i < probes.len() ==> owner(home, (#[trigger] probes[i]).path) == kind,
    ensures
        each_owned(with_probes(list, kind, probes, files), home),
    decreases probes.len(),
{
    if probes.len() > 0 {
        let init = probes.drop_last();
        assert forall|i: int| 0 <= i < init.len() implies owner(home, (#[trigger] init[i]).path)
            == kind by {
            assert(init[i] == probes[i]);
        }
        lemma_probes_owned(list, kind, init, files, home);
        assert(owner(home, probes[probes.len() - 1].path) == kind);
    }
}

proof fn lemma_roots_owned(
    list: Seq<CandidateView>,
    kind: BrowserKind,
    n: int,
    home: Text,
    disk: Disk,
)
    requires
        0 <= n <= roots_of(home, kind).len(),
        dirs_lie_below(disk),
        each_owned(list, home),
    ensures
        each_owned(with_roots(list, kind, roots_of(home, kind).take(n), None, disk), home),
    decreases n,
{
    let roots = roots_of(home, kind).take(n);
    if n > 0 {
        assert(roots.drop_last() =~= roots_of(home, kind).take(n - 1));
        lemma_roots_owned(list, kind, n - 1, home, disk);
        let root = roots.last();
        let before = with_roots(list, kind, roots.drop_last(), None, disk);
        lemma_listed_below(disk, root);
        if let Some(f) = folder_at(disk.folders@, root) {
            let dirs = texts(disk.folders@[f].dirs@);
            let probes = probes_of(kind, root, None, dirs);
            lemma_probes_below(kind, root, dirs);
            assert forall|i: int| 0 <= i < probes.len() implies owner(
                home,
                (#[trigger] probes[i]).path,
            ) == kind by {
                lemma_root_owner(home, kind, n - 1, probes[i].path);
            }
            lemma_probes_owned(before, kind, probes, texts(disk.files@), home);
        }
    }
}

proof fn lemma_candidates_owned(kinds: Seq<BrowserKind>, home: Text, disk: Disk)
    requires
        dirs_lie_below(disk),
    ensures
        each_owned(candidates_of(kinds, None, home, disk), home),
    decreases kinds.len(),
{
    if kinds.len() > 0 {
        let kind = kinds.last();
        lemma_candidates_owned(kinds.drop_last(), home, disk);
        let roots = roots_of(home, kind);
        assert(roots.take(roots.len() as int) =~= roots);
        lemma_roots_owned(
            candidates_of(kinds.drop_last(), None, home, disk),
            kind,
            roots.len() as int,
            home,
            disk,
        );
    }
}

/// Where no directory is listed for another one than its own, one browser more adds to the
/// candidates just those that it has by itself.
pub proof fn law_a_browser_adds_its_own(
    kinds: Seq<BrowserKind>,
    kind: BrowserKind,
    profile: Option<Text>,
    home: Text,
    disk: Disk,
)
    requires
        dirs_lie_below(disk),
        !kinds.contains(kind),
    ensures
        candidates_of(kinds.push(kind), profile, home, disk) == candidates_of(
            kinds,
            profile,
            home,
            disk,
        ) + candidates_of(seq![kind], profile, home, disk),
{
    let before = candidates_of(kinds, profile, home, disk);
    let none = Seq::<CandidateView>::empty();
    let roots = roots_of(home, kind);
    if profile is None {
        lemma_candidates_owned(kinds, home, disk);
        law_candidates_exist(kinds, profile, home, disk);
        assert forall|i: int| 0 <= i < before.len() implies owner(home, (#[trigger] before[i]).path)
            != kind by {
            assert(kinds.contains(before[i].kind));
        }
    }
    assert(roots.take(roots.len() as int) =~= roots);
    lemma_roots_add(before, none, kind, roots.len() as int, profile, home, disk);
    assert(before + none =~= before);
    assert(kinds.push(kind).drop_last() =~= kinds);
    assert(seq![kind].drop_last() =~= Seq::<BrowserKind>::empty());
    assert(candidates_of(seq![kind].drop_last(), profile, home, disk) =~= none);
}

/// The candidates of all browsers are those of each browser, one after the other.
pub proof fn law_all_browsers_are_tried_in_turn(profile: Option<Text>, home: Text, disk: Disk)
    requires
        dirs_lie_below(disk),
    ensures
        candidates_of(kinds_of(BrowserKind::Auto), profile, home, disk) == candidates_of(
            kinds_of(BrowserKind::Firefox),
            profile,
            home,
            disk,
        ) + candidates_of(kinds_of(BrowserKind::Chrome), profile, home, disk) + candidates_of(
            kinds_of(BrowserKind::Brave),
            profile,
            home,
            disk,
        ) + candidates_of(kinds_of(BrowserKind::Edge), profile, home, disk) + candidates_of(
            kinds_of(BrowserKind::Comet),
            profile,
            home,
            disk,
        ) + candidates_of(kinds_of(BrowserKind::Chromium), profile, home, disk),
{
    let one = seq![BrowserKind::Firefox];
    let two = one.push(BrowserKind::Chrome);
    let three = two.push(BrowserKind::Brave);
    let four = three.push(BrowserKind::Edge);
    let five = four.push(BrowserKind::Comet);
    law_a_browser_adds_its_own(one, BrowserKind::Chrome, profile, home, disk);
    law_a_browser_adds_its_own(two, BrowserKind::Brave, profile, home, disk);
    law_a_browser_adds_its_own(three, BrowserKind::Edge, profile, home, disk);
    law_a_browser_adds_its_own(four, BrowserKind::Comet, profile, home, disk);
    law_a_browser_adds_its_own(five, BrowserKind::Chromium, profile, home, disk);
    assert(five.push(BrowserKind::Chromium) =~= kinds_of(BrowserKind::Auto));
}

} // verus!
