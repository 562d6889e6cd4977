//! Game packages.
use copperline::hostpath::HostPath;
use copperline::package::{
    extract_to_dir, extract_zip, is_rubbish, is_slave_name, list, member_path, read_first,
    read_zip_member, stem_of, under, walk, worth_walking, zip_names, Entry, EntryKind, Kind,
    PackageError, SlaveSearch, StoredMember,
};

fn path(text: &str) -> HostPath {
    HostPath::parse(text)
}

#[test]
fn what_a_package_looks_like() {
    assert_eq!(Kind::of_name("Zool_v1.0.lha"), Some(Kind::Lha));
    assert_eq!(Kind::of_name("Zool_v1.0.LHA"), Some(Kind::Lha));
    assert_eq!(Kind::of_name("Zool_v1.zip"), Some(Kind::Zip));
    assert_eq!(Kind::of_name("Zool_v1.ZIP"), Some(Kind::Zip));
    assert_eq!(Kind::of_name("notes.txt"), None);
    assert_eq!(Kind::of_name("noextension"), None);
    assert_eq!(Kind::of_name("old.lzh"), Some(Kind::Lha));
    assert_eq!(Kind::of(true, &path("/games/x.zip")), Some(Kind::Folder));
    assert_eq!(Kind::of(false, &path("/games/x.zip")), Some(Kind::Zip));
    assert_eq!(Kind::of(false, &path("/")), None);
}

#[test]
fn a_resource_fork_is_not_a_slave() {
    assert!(is_rubbish(&path("__MACOSX/Aladdin/._AladdinAGA.Slave")));
    assert!(is_rubbish(&path("Aladdin/._AladdinAGA.Slave")));
    assert!(is_rubbish(&path("Aladdin/.DS_Store")));
    assert!(is_rubbish(&path("__MACOSX/anything")));
    assert!(!is_rubbish(&path("Aladdin/AladdinAGA.Slave")));
    assert!(!is_rubbish(&path("Aladdin/data/_notes")));
}

#[test]
fn a_stored_path_resolves_under_the_folder() {
    let at = under(&path("/games"), "A/Zool_v1.0.lha");
    assert_eq!(at, path("/games").child("A").child("Zool_v1.0.lha"));
    assert_eq!(
        under(&path("/games"), "Zool.lha"),
        path("/games").child("Zool.lha")
    );
    assert_eq!(under(&path("/games"), ""), path("/games"));
    assert_eq!(
        under(&path("/games"), "A//B.lha"),
        path("/games").child("A").child("B.lha")
    );
    assert_eq!(under(&path("/games"), "//A"), path("/games/A"));
}

#[test]
fn a_member_never_leaves_the_archive() {
    assert_eq!(member_path("Game/Game.slave"), Some(path("Game/Game.slave")));
    assert_eq!(member_path("Game\\Game.slave"), Some(path("Game/Game.slave")));
    assert_eq!(member_path("./Game/./Game.slave"), Some(path("Game/Game.slave")));
    assert_eq!(member_path("../../etc/passwd"), None);
    assert_eq!(member_path("Game/../../etc/passwd"), None);
    assert_eq!(member_path("DH0:Game/Game.slave"), None);
    assert_eq!(member_path(""), None);
    assert_eq!(member_path("/"), None);
    assert_eq!(member_path("/Game/Game.slave"), Some(path("Game/Game.slave")));
}

#[test]
fn only_known_extensions_come_off() {
    assert_eq!(stem_of("GoldenAxe_v1.5_0017.lha"), "GoldenAxe_v1.5_0017");
    assert_eq!(stem_of("S.W.I.V"), "S.W.I.V");
    assert_eq!(stem_of("Aladdin_v1"), "Aladdin_v1");
    assert_eq!(stem_of("x.Zip"), "x");
}

#[test]
fn slaves_and_directories_are_told_by_name() {
    assert!(is_slave_name("Game.Slave"));
    assert!(is_slave_name("game.SLAV"));
    assert!(!is_slave_name("slave"));
    assert!(!is_slave_name("Game.slaves"));
    for skipped in [".git", "__MACOSX", "Cache", "Save States", "Saves", ".hidden"] {
        assert!(!worth_walking(skipped), "{skipped}");
    }
    assert!(worth_walking("Aladdin_v1"));
}

#[test]
fn files_come_shallowest_first_and_then_by_name_without_regard_to_case() {
    let found = ["data/deep/Zzz.slave", "data/\u{c4}b", "data/Bbb.slave", "data/aaa", "Aaa.slave"];
    let walked = walk(found.iter().map(|f| path(f)).collect());
    let texts: Vec<String> = walked.iter().map(|p| p.text()).collect();
    assert_eq!(
        texts,
        ["Aaa.slave", "data/aaa", "data/Bbb.slave", "data/\u{c4}b", "data/deep/Zzz.slave"]
    );
    // An upper-case letter beyond the first table sorts with its lower case.
    let pair = walk(vec![path("\u{e5}"), path("\u{c4}")]);
    assert_eq!(pair[0].text(), "\u{c4}");
}

fn members() -> Vec<StoredMember> {
    [
        ("Game/", true),
        ("__MACOSX/._Game.Slave", false),
        ("../evil", false),
        ("Game/Game.Slave", false),
        ("Game\\data", false),
    ]
    .iter()
    .map(|(name, is_dir)| StoredMember { name: name.to_string(), is_dir: *is_dir })
    .collect()
}

#[test]
fn an_archive_is_listed_and_unpacked_without_what_leaves_it_or_is_rubbish() {
    let all = zip_names(&members());
    let texts: Vec<String> = all.iter().map(|p| p.text()).collect();
    assert_eq!(texts, ["__MACOSX/._Game.Slave", "Game/Game.Slave", "Game/data"]);
    let kept = list(Some(Kind::Zip), all).unwrap();
    assert_eq!(kept, vec![path("Game/Game.Slave"), path("Game/data")]);
    assert_eq!(list(None, Vec::new()), Err(PackageError::NotAPackage));

    let dest = path("/stage");
    let plan = extract_zip(&members(), &dest);
    let places: Vec<(usize, String)> = plan.iter().map(|x| (x.index, x.at.text())).collect();
    assert_eq!(
        places,
        [(3, "/stage/Game/Game.Slave".to_string()), (4, "/stage/Game/data".to_string())]
    );
    assert!(plan.iter().all(|x| x.at.starts_with(&dest)));
}

#[test]
fn only_archives_are_unpacked() {
    assert_eq!(extract_to_dir(Some(Kind::Zip)), Ok(Kind::Zip));
    assert_eq!(extract_to_dir(Some(Kind::Lha)), Ok(Kind::Lha));
    assert_eq!(extract_to_dir(Some(Kind::Folder)), Err(PackageError::IsFolder));
    assert_eq!(extract_to_dir(None), Err(PackageError::NotAPackage));
}

#[test]
fn members_are_found_by_path_and_by_wish() {
    assert_eq!(read_zip_member(&members(), &path("Game/data")), Ok(4));
    assert_eq!(read_zip_member(&members(), &path("x")), Err(PackageError::NoMember));
    let slave = |p: &HostPath| p.file_name().is_some_and(is_slave_name);
    assert_eq!(read_first(&members(), slave), Some(3));
    assert_eq!(read_first(&members(), |p: &HostPath| p.text() == "x"), None);
}

/// Look for a slave in a made-up tree: directories with what is in them.
fn search(tree: &[(&str, &[(&str, EntryKind)])], dir: &str) -> bool {
    let mut search = SlaveSearch::new(path(dir));
    while let Some((at, depth)) = search.next() {
        let text = at.text();
        let entries: Vec<Entry> = tree
            .iter()
            .filter(|(name, _)| *name == text)
            .flat_map(|(_, list)| list.iter())
            .map(|(name, kind)| Entry { name: name.to_string(), kind: *kind })
            .collect();
        search.visit(&at, depth, &entries);
    }
    search.found
}

#[test]
fn a_game_folder_is_told_from_others() {
    let (file, folder, link) = (EntryKind::File, EntryKind::Folder, EntryKind::Link);
    let tree: &[(&str, &[(&str, EntryKind)])] = &[
        ("/l/Aladdin_v1", &[("AladdinAGA", folder)]),
        ("/l/Aladdin_v1/AladdinAGA", &[("AladdinAGA.Slave", file)]),
        ("/l/Screenshots", &[("one.png", file)]),
        ("/l/Junk", &[("__MACOSX", folder), ("._Game.Slave", file), ("x.slave", link)]),
        ("/l/Junk/__MACOSX", &[("Game.Slave", file)]),
        ("/l/Deep", &[("a", folder)]),
        ("/l/Deep/a", &[("b", folder)]),
        ("/l/Deep/a/b", &[("c", folder)]),
        ("/l/Deep/a/b/c", &[("d", folder)]),
        ("/l/Deep/a/b/c/d", &[("Game.slave", file)]),
    ];
    assert!(search(tree, "/l/Aladdin_v1"));
    assert!(search(tree, "/l/Aladdin_v1/AladdinAGA"));
    assert!(!search(tree, "/l/Screenshots"));
    assert!(!search(tree, "/l/Junk"));
    assert!(!search(tree, "/l/Deep"));
    assert!(search(tree, "/l/Deep/a"));
}
