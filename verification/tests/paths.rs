//! Host paths and the configured directories.
use copperline::hostpath::HostPath;
use copperline::pathconf::{is_reachable, Paths, ENTRIES};
use copperline::paths::{
    config_dir, config_file, ensure_parent, holds_unpacked_games, marker_of, portable_config_dir,
    portable_marker, run_stage_dir, state_slot_dir, whdload_dir, whdload_library_cache,
    whdload_library_db, whdload_save_dir, whdload_support_dir, HostEnvironment, Program,
};

fn path(text: &str) -> HostPath {
    HostPath::parse(text)
}

fn host() -> HostPath {
    path("/host/copperline")
}

#[test]
fn nothing_set_puts_everything_under_the_host_directory() {
    let p = Paths::default();
    let h = host();
    assert_eq!(p.base_dir(&h), h);
    assert_eq!(p.states_dir(&h), h.child("states"));
    assert_eq!(p.screenshots_dir(&h), h.child("screenshots"));
    assert_eq!(p.recordings_dir(&h), h.child("recordings"));
    assert_eq!(p.nvram_dir(&h), h.child("nvram"));
    assert_eq!(p.traces_dir(&h), h.child("traces"));
    assert_eq!(p.configs_dir(&h), h.child("configs"));
    assert_eq!(p.roms_dir(&h), h.child("roms"));
    assert_eq!(p.mt32_roms_dir(&h), h.child("roms").child("mt32"));
    assert_eq!(p.floppies_dir(&h), h.child("floppies"));
    assert_eq!(p.harddrives_dir(&h), h.child("harddrives"));
    assert_eq!(p.cds_dir(&h), h.child("cds"));
    assert_eq!(p.cds_dir(&h).text(), "/host/copperline/cds");
}

#[test]
fn the_whole_tree_follows_the_root() {
    let p = Paths::default();
    let stick = path("/Volumes/STICK/Copperline");
    for (a, b) in [
        (p.states_dir(&host()), p.states_dir(&stick)),
        (p.screenshots_dir(&host()), p.screenshots_dir(&stick)),
        (p.nvram_dir(&host()), p.nvram_dir(&stick)),
        (p.mt32_roms_dir(&host()), p.mt32_roms_dir(&stick)),
    ] {
        assert!(a.starts_with(&host()), "{a:?} left the host root");
        assert!(b.starts_with(&stick), "{b:?} did not follow the root");
        assert_eq!(
            a.parts[host().parts.len()..],
            b.parts[stick.parts.len()..],
            "the same entry sits differently under two roots"
        );
    }
}

#[test]
fn a_relative_entry_hangs_off_the_base_and_an_absolute_one_does_not() {
    let h = host();
    let p = Paths {
        screenshots: Some(path("shots")),
        recordings: Some(path("/mnt/scratch/video")),
        ..Default::default()
    };
    assert_eq!(p.screenshots_dir(&h), h.child("shots"));
    assert_eq!(p.recordings_dir(&h), path("/mnt/scratch/video"));
}

#[test]
fn base_moves_the_lot_without_naming_each_one() {
    let h = host();
    let p = Paths {
        base: Some(path("/data/copperline")),
        ..Default::default()
    };
    assert_eq!(p.states_dir(&h), path("/data/copperline/states"));
    assert_eq!(p.nvram_dir(&h), path("/data/copperline/nvram"));
    let rel = Paths {
        base: Some(path("data")),
        ..Default::default()
    };
    assert_eq!(rel.states_dir(&h), h.child("data").child("states"));
}

#[test]
fn nothing_set_is_not_probed() {
    assert_eq!(Paths::default().reachable(false, &[]), Paths::default());
    assert!(Paths::default().is_empty());
    assert!(Paths::default().base_probe(&host()).is_none());
}

#[test]
fn an_entry_that_is_not_there_is_dropped_and_the_rest_stand() {
    let root = path("/tmp");
    let mut paths = Paths {
        screenshots: Some(path("/no-such-volume/shots")),
        states: Some(path("not-yet-created")),
        recordings: Some(path("/usr")),
        base: Some(path("/no-such-volume")),
        ..Default::default()
    };
    assert_eq!(paths.base_probe(&root), Some(path("/no-such-volume")));
    paths.settle_base(false);
    let probes = paths.entry_probes(&root);
    assert_eq!(probes.len(), ENTRIES);
    assert_eq!(probes[0], path("/tmp/not-yet-created"));
    assert_eq!(probes[5], root);
    let verdicts: Vec<bool> = probes
        .iter()
        .map(|p| is_reachable(p, &root, p.same(&path("/usr"))))
        .collect();
    let settled = paths.reachable(false, &verdicts);
    assert_eq!(settled.base, None);
    assert_eq!(settled.screenshots, None);
    assert_eq!(settled.states, Some(path("not-yet-created")));
    assert_eq!(settled.recordings, Some(path("/usr")));
}

#[test]
fn what_was_not_answered_in_time_is_dropped() {
    let paths = Paths { cds: Some(path("x")), states: Some(path("y")), ..Default::default() };
    let settled = paths.reachable(true, &[true]);
    assert_eq!(settled.states, Some(path("y")));
    assert_eq!(settled.cds, None);
}

fn environment() -> HostEnvironment {
    HostEnvironment {
        appimage: None,
        executable: None,
        xdg_config_home: None,
        appdata: None,
        home: None,
    }
}

#[test]
fn host_data_paths_hang_off_one_directory() {
    let env = HostEnvironment { home: Some(path("/home/me")), ..environment() };
    let config = config_dir(&env);
    let dir = config.clone().unwrap();
    assert_eq!(dir, path("/home/me/.config/copperline"));
    assert_eq!(
        config_file(&config, "gamepads.toml").unwrap(),
        dir.child("gamepads.toml")
    );
    assert_eq!(state_slot_dir(&config).unwrap(), dir.child("states"));
    assert_eq!(run_stage_dir(&config).unwrap(), dir.child("run"));
    assert_eq!(whdload_dir(&config).unwrap(), dir.child("whdload"));
    assert_eq!(whdload_support_dir(&config).unwrap(), dir.child("whdload/support"));
    assert_eq!(whdload_library_db(&config).unwrap(), dir.child("whdload/support/launcher.db"));
    assert_eq!(whdload_library_cache(&config).unwrap(), dir.child("whdload/support/cache"));
    assert!(state_slot_dir(&None).is_none());
}

#[test]
fn the_first_place_that_the_host_offers_is_taken() {
    let all = HostEnvironment {
        xdg_config_home: Some(path("/xdg")),
        appdata: Some(path("/appdata")),
        home: Some(path("/home/me")),
        ..environment()
    };
    assert_eq!(config_dir(&all), Some(path("/xdg/copperline")));
    let two = HostEnvironment { xdg_config_home: None, ..all };
    assert_eq!(config_dir(&two), Some(path("/appdata/copperline")));
    assert_eq!(config_dir(&environment()), None);
}

#[test]
fn a_marker_beside_the_image_wins() {
    let image = |marked| Some(Program { path: path("/downloads/Copperline.AppImage"), marked });
    let binary = |marked| Some(Program { path: path("/mnt/usr/bin/copperline"), marked });
    assert_eq!(portable_config_dir(&None, &binary(false)), None);
    assert_eq!(portable_config_dir(&None, &binary(true)), Some(path("/mnt/usr/bin")));
    assert_eq!(portable_config_dir(&image(true), &binary(true)), Some(path("/downloads")));
    assert_eq!(portable_config_dir(&image(false), &binary(true)), Some(path("/mnt/usr/bin")));
    assert_eq!(
        marker_of(&path("/downloads/Copperline.AppImage")).unwrap().text(),
        format!("/downloads/{}", portable_marker())
    );
    let env = HostEnvironment {
        executable: binary(true),
        home: Some(path("/home/me")),
        ..environment()
    };
    assert_eq!(config_dir(&env), Some(path("/mnt/usr/bin")));
}

#[test]
fn an_old_library_is_kept_where_its_saves_are() {
    let config = Some(path("/c"));
    assert_eq!(whdload_save_dir(&config, false, false), Some(path("/c/whdload/save")));
    assert_eq!(whdload_save_dir(&config, true, true), Some(path("/c/whdload/save")));
    assert_eq!(whdload_save_dir(&config, false, true), Some(path("/c/whdload")));
    assert_eq!(whdload_save_dir(&None, false, true), None);
    assert!(holds_unpacked_games(&[false, true]));
    assert!(!holds_unpacked_games(&[false]));
}

#[test]
fn paths_read_back_as_they_are_written() {
    for text in ["/", "", "a", "/a/b", "a/b", "./a", "../a", "/a/../b"] {
        assert_eq!(path(text).text(), text);
        assert_eq!(path(&path(text).text()), path(text));
    }
    assert_eq!(path("/a//b/./c/").text(), "/a/b/c");
    assert_eq!(path("a/.").text(), "a");
    assert_eq!(path("/./a").text(), "/a");
}

#[test]
fn joining_goes_as_paths_do() {
    assert_eq!(path("/a").child("b").text(), "/a/b");
    assert_eq!(path("/a").child("/b").text(), "/b");
    assert_eq!(path("/a").child("./b").text(), "/a/b");
    assert_eq!(path("").child("./b").text(), "./b");
    assert_eq!(path("/a/b").parent(), Some(path("/a")));
    assert_eq!(path("/").parent(), None);
    assert_eq!(ensure_parent(&path("a")), Some(path("")));
    assert_eq!(path("/a/b").file_name(), Some("b"));
    assert_eq!(path("/a/..").file_name(), None);
    assert!(path("/a/b").starts_with(&path("/a")));
    assert!(path("/a/b").starts_with(&path("")));
    assert!(!path("/ab").starts_with(&path("/a")));
    assert!(!path("a/b").starts_with(&path("/a")));
}

#[test]
fn a_relative_root_is_followed_too() {
    let p = Paths {
        screenshots: Some(path("./shots")),
        ..Default::default()
    };
    let portable = path("portable/data");
    assert_eq!(p.states_dir(&portable), portable.child("states"));
    for root in [host(), portable] {
        let dir = p.screenshots_dir(&root);
        assert!(dir.starts_with(&root));
        assert_eq!(dir.parts[root.parts.len()..], path("shots").parts[..]);
    }
}

#[test]
fn a_path_with_a_drive_stands_for_itself() {
    let names = |list: &[&str]| list.iter().map(|n| n.to_string()).collect::<Vec<String>>();
    let drive = HostPath::from_host("C:", true, names(&["data", "shots"]));
    assert!(drive.absolute);
    assert_eq!(drive.parts, names(&["C:", "data", "shots"]));
    let p = Paths { screenshots: Some(drive.clone()), ..Default::default() };
    assert_eq!(p.screenshots_dir(&host()), drive);
    assert_eq!(p.states_dir(&host()), host().child("states"));
    let marked = HostPath::from_host("C:", true, names(&["copperline", "copperline.exe"]));
    assert_eq!(
        marker_of(&marked),
        Some(HostPath::from_host("C:", true, names(&["copperline", "portable.txt"])))
    );
    let there = HostPath::from_host("D:", false, names(&["roms"]));
    assert_eq!((there.absolute, there.parts), (true, names(&["D:roms"])));
    assert_eq!(HostPath::from_host("D:", false, vec![]).parts, names(&["D:."]));
    assert_eq!(HostPath::from_host("", true, names(&["a", "b"])), path("/a/b"));
    assert_eq!(HostPath::from_host("", false, names(&[".", "a"])), path("./a"));
    assert!(p.is_set(1) && !p.is_set(0));
}
