//! Host-data locations, following the platform's conventions.
//!
//! These are host preferences and per-user data, not machine configuration. A
//! marker beside the executable, or beside the downloaded image it runs from,
//! opts into keeping the data there instead. A host that offers no directory
//! has none, and callers degrade to not persisting.
use vstd::prelude::*;
use crate::hostpath::{route_of, HostPath, Route};

verus! {

/// The file that opts an installation into keeping its data beside the
/// executable. Only that it is there counts.
pub fn portable_marker() -> (r: &'static str)
    ensures
        r@ == "portable.txt"@,
{
    "portable.txt"
}

/// A program that was launched.
pub struct Program {
    pub path: HostPath,
    /// The marker stands beside it.
    pub marked: bool,
}

/// What the host offers.
pub struct HostEnvironment {
    /// The downloaded image that the program runs from.
    pub appimage: Option<Program>,
    pub executable: Option<Program>,
    pub xdg_config_home: Option<HostPath>,
    pub appdata: Option<HostPath>,
    pub home: Option<HostPath>,
}

/// The file to look for beside a program.
pub fn marker_of(program: &HostPath) -> (r: Option<HostPath>)
    ensures
        match (r, program@.parent()) {
            (Some(p), Some(dir)) => p@ == dir.join(route_of("portable.txt"@)),
            (None, None) => true,
            _ => false,
        },
{
    match program.parent() {
        Some(dir) => Some(dir.child("portable.txt")),
        None => None,
    }
}

/// The directory of a program that carries the marker.
pub open spec fn marked_dir(program: Option<Program>) -> Option<Route> {
    match program {
        Some(p) => if p.marked {
            p.path@.parent()
        } else {
            None
        },
        None => None,
    }
}

/// The same, as a path.
pub open spec fn shown(path: Option<HostPath>) -> Option<Route> {
    match path {
        Some(p) => Some(p@),
        None => None,
    }
}

fn marked_program_dir(program: &Option<Program>) -> (r: Option<HostPath>)
    ensures
        shown(r) == marked_dir(*program),
{
    match program {
        Some(p) => {
            if p.marked {
                p.path.parent()
            } else {
                None
            }
        },
        None => None,
    }
}

/// Where a portable installation keeps its data: an image's own directory
/// wins over the one it is mounted at, which cannot be written to.
pub fn portable_config_dir(appimage: &Option<Program>, executable: &Option<Program>) -> (r: Option<
    HostPath,
>)
    ensures
        shown(r) == (match marked_dir(*appimage) {
            Some(dir) => Some(dir),
            None => marked_dir(*executable),
        }),
{
    match marked_program_dir(appimage) {
        Some(dir) => Some(dir),
        None => marked_program_dir(executable),
    }
}

/// The host-data directory that an environment selects.
pub open spec fn data_dir(env: HostEnvironment) -> Option<Route> {
    match marked_dir(env.appimage) {
        Some(dir) => Some(dir),
        None => match marked_dir(env.executable) {
            Some(dir) => Some(dir),
            None => match (env.xdg_config_home, env.appdata, env.home) {
                (Some(dir), _, _) => Some(dir@.join(route_of("copperline"@))),
                (None, Some(dir), _) => Some(dir@.join(route_of("copperline"@))),
                (None, None, Some(home)) => Some(
                    home@.join(route_of(".config"@)).join(route_of("copperline"@)),
                ),
                (None, None, None) => None,
            },
        },
    }
}

/// The host-data directory: beside a marked program, or in the first of the
/// places that the host offers.
pub fn config_dir(env: &HostEnvironment) -> (r: Option<HostPath>)
    ensures
        shown(r) == data_dir(*env),
{
    match portable_config_dir(&env.appimage, &env.executable) {
        Some(dir) => Some(dir),
        None => {
            if let Some(dir) = &env.xdg_config_home {
                return Some(dir.child("copperline"));
            }
            if let Some(dir) = &env.appdata {
                return Some(dir.child("copperline"));
            }
            match &env.home {
                Some(home) => Some(home.child(".config").child("copperline")),
                None => None,
            }
        },
    }
}

/// A path under a directory that may not be there.
pub open spec fn beneath(dir: Option<Route>, name: Seq<char>) -> Option<Route> {
    match dir {
        Some(d) => Some(d.join(route_of(name))),
        None => None,
    }
}

/// A named file directly inside the host-data directory.
pub fn config_file(config: &Option<HostPath>, name: &str) -> (r: Option<HostPath>)
    ensures
        shown(r) == beneath(shown(*config), name@),
{
    match config {
        Some(dir) => Some(dir.child(name)),
        None => None,
    }
}

/// Where a run stages its disposable boot volume.
pub fn run_stage_dir(config: &Option<HostPath>) -> (r: Option<HostPath>)
    ensures
        shown(r) == beneath(shown(*config), "run"@),
{
    config_file(config, "run")
}

/// Where everything that belongs to game packages is kept.
pub fn whdload_dir(config: &Option<HostPath>) -> (r: Option<HostPath>)
    ensures
        shown(r) == beneath(shown(*config), "whdload"@),
{
    config_file(config, "whdload")
}

/// Where the support archives are looked for and downloaded to.
pub fn whdload_support_dir(config: &Option<HostPath>) -> (r: Option<HostPath>)
    ensures
        shown(r) == beneath(beneath(shown(*config), "whdload"@), "support"@),
{
    let dir = whdload_dir(config);
    config_file(&dir, "support")
}

/// Whether a directory holds games that were unpacked there: one of its
/// entries carries the marker that staging writes.
pub fn holds_unpacked_games(entry_is_marked: &[bool]) -> (r: bool)
    ensures
        r == entry_is_marked@.contains(true),
{
    let mut i: usize = 0;
    while i < entry_is_marked.len()
        invariant
            i <= entry_is_marked@.len(),
            forall|j: int| 0 <= j < i ==> !entry_is_marked@[j],
        decreases entry_is_marked@.len() - i,
    {
        if entry_is_marked[i] {
            assert(entry_is_marked@[i as int]);
            return true;
        }
        i += 1;
    }
    false
}

/// Where games are unpacked and their saves kept. An installation that
/// already has games directly in the packages' directory carries on using it,
/// because that is where its saves are.
pub fn whdload_save_dir(
    config: &Option<HostPath>,
    save_is_dir: bool,
    holds_unpacked: bool,
) -> (r: Option<HostPath>)
    ensures
        shown(r) == (if save_is_dir || !holds_unpacked {
            beneath(beneath(shown(*config), "whdload"@), "save"@)
        } else {
            beneath(shown(*config), "whdload"@)
        }),
{
    let dir = whdload_dir(config);
    if save_is_dir || !holds_unpacked {
        config_file(&dir, "save")
    } else {
        dir
    }
}

/// The scanned library.
pub fn whdload_library_db(config: &Option<HostPath>) -> (r: Option<HostPath>)
    ensures
        shown(r) == beneath(
            beneath(beneath(shown(*config), "whdload"@), "support"@),
            "launcher.db"@,
        ),
{
    let dir = whdload_support_dir(config);
    config_file(&dir, "launcher.db")
}

/// What a scan downloaded.
pub fn whdload_library_cache(config: &Option<HostPath>) -> (r: Option<HostPath>)
    ensures
        shown(r) == beneath(beneath(beneath(shown(*config), "whdload"@), "support"@), "cache"@),
{
    let dir = whdload_support_dir(config);
    config_file(&dir, "cache")
}

/// The numbered save-state slots.
pub fn state_slot_dir(config: &Option<HostPath>) -> (r: Option<HostPath>)
    ensures
        shown(r) == beneath(shown(*config), "states"@),
{
    config_file(config, "states")
}

/// The directory to make before a path is written.
pub fn ensure_parent(path: &HostPath) -> (r: Option<HostPath>)
    ensures
        shown(r) == path@.parent(),
{
    path.parent()
}

/// A marker wins over everything the environment says, and the image's own
/// over the executable's.
pub proof fn law_markers_win(env: HostEnvironment)
    ensures
        marked_dir(env.appimage) is Some ==> data_dir(env) == marked_dir(env.appimage),
        marked_dir(env.appimage) is None && marked_dir(env.executable) is Some ==> data_dir(env)
            == marked_dir(env.executable),
{
}

/// Where nothing is marked, the data stands under `copperline`: in the place
/// that the desktop names, else in the one that the system names, else in the
/// home's `.config`; and nowhere without any of them.
pub proof fn law_data_stands_in_the_first_place_named(env: HostEnvironment)
    requires
        marked_dir(env.appimage) is None,
        marked_dir(env.executable) is None,
    ensures
        env.xdg_config_home matches Some(dir) ==> data_dir(env) == Some(
            dir@.join(route_of("copperline"@)),
        ),
        env.xdg_config_home is None ==> (env.appdata matches Some(dir) ==> data_dir(env) == Some(
            dir@.join(route_of("copperline"@)),
        )),
        env.xdg_config_home is None && env.appdata is None ==> (env.home matches Some(home)
            ==> data_dir(env) == Some(
            home@.join(route_of(".config"@)).join(route_of("copperline"@)),
        )),
        env.xdg_config_home is None && env.appdata is None && env.home is None ==> data_dir(
            env,
        ) is None,
{
}

/// A program marks the directory it stands in, where the marker is beside it.
pub proof fn law_programs_mark_their_directory(p: Program)
    ensures
        p.marked ==> marked_dir(Some(p)) == p.path@.parent(),
        !p.marked ==> marked_dir(Some(p)) is None,
        marked_dir(None) is None,
        forall|dir: Route, name: Seq<char>| #[trigger]
            beneath(Some(dir), name) == Some(dir.join(route_of(name))),
        forall|name: Seq<char>| (#[trigger] beneath(None, name)) is None,
{
}

} // verus!
