//! Where the emulator puts what it produces, and where its file dialogs
//! start.
//!
//! Every entry is optional and every unset entry inherits. Relative entries
//! are taken from the base, which is itself taken from the host-data
//! directory when it is relative or unset. That is what makes the whole tree
//! move together: a portable install sets nothing, because nothing ever said
//! where it was in absolute terms.
//!
//! A configuration written on one machine will name directories that the next
//! one has never heard of, so entries whose directories are not there are
//! dropped and inherit.
use vstd::prelude::*;
use crate::hostpath::{route_of, HostPath, Route};

verus! {

/// How many entries there are besides the base.
pub const ENTRIES: usize = 11;

/// Directories the emulator writes into, and the directories its file dialogs
/// open at.
#[derive(Debug, Clone, PartialEq, Eq)]
pub struct Paths {
    /// The directory the rest are taken from.
    pub base: Option<HostPath>,
    /// Numbered save-state slots and any state saved outside them.
    pub states: Option<HostPath>,
    /// Screenshots.
    pub screenshots: Option<HostPath>,
    /// Video captures and recorded input scripts.
    pub recordings: Option<HostPath>,
    /// Battery-backed memories.
    pub nvram: Option<HostPath>,
    /// Debugger traces and waveform captures.
    pub traces: Option<HostPath>,
    /// Machine configurations saved from the launcher.
    pub configs: Option<HostPath>,
    /// Kickstart and extended ROM images.
    pub roms: Option<HostPath>,
    /// MT-32 control and PCM ROMs, under the ROMs directory by default.
    pub mt32_roms: Option<HostPath>,
    /// Floppy images.
    pub floppies: Option<HostPath>,
    /// Hard-disk images and host folders.
    pub harddrives: Option<HostPath>,
    /// CD images.
    pub cds: Option<HostPath>,
}

/// An entry, as it is set.
pub open spec fn set_to(entry: Option<HostPath>) -> Option<Route> {
    match entry {
        Some(path) => Some(path@),
        None => None,
    }
}

impl Default for Paths {
    fn default() -> (r: Paths)
        ensures
            r.nothing_set(),
    {
        Paths {
            base: None,
            states: None,
            screenshots: None,
            recordings: None,
            nvram: None,
            traces: None,
            configs: None,
            roms: None,
            mt32_roms: None,
            floppies: None,
            harddrives: None,
            cds: None,
        }
    }
}

/// Whether a directory can be used: it is there, or it is inside the root,
/// which is made on demand. Outside the root, being there is the whole test.
pub fn is_reachable(dir: &HostPath, root: &HostPath, is_there: bool) -> (r: bool)
    ensures
        r == (dir@.starts_with(root@) || is_there),
{
    dir.starts_with(root) || is_there
}

/// A verdict, where one was reached in time. What was not answered counts as
/// unreachable.
pub open spec fn verdict(verdicts: Seq<bool>, i: int) -> bool {
    i < verdicts.len() && verdicts[i]
}

fn verdict_at(verdicts: &[bool], i: usize) -> (r: bool)
    ensures
        r == verdict(verdicts@, i as int),
{
    i < verdicts.len() && verdicts[i]
}

/// An entry that stands or is dropped.
fn keep(entry: Option<HostPath>, reachable: bool) -> (r: Option<HostPath>)
    ensures
        set_to(r) == (if reachable {
            set_to(entry)
        } else {
            None
        }),
{
    if reachable {
        entry
    } else {
        None
    }
}

impl Paths {
    /// The entries in order, without the base.
    pub open spec fn entry(self, i: int) -> Option<Route> {
        if i == 0 {
            set_to(self.states)
        } else if i == 1 {
            set_to(self.screenshots)
        } else if i == 2 {
            set_to(self.recordings)
        } else if i == 3 {
            set_to(self.nvram)
        } else if i == 4 {
            set_to(self.traces)
        } else if i == 5 {
            set_to(self.configs)
        } else if i == 6 {
            set_to(self.roms)
        } else if i == 7 {
            set_to(self.mt32_roms)
        } else if i == 8 {
            set_to(self.floppies)
        } else if i == 9 {
            set_to(self.harddrives)
        } else {
            set_to(self.cds)
        }
    }

    pub open spec fn nothing_set(self) -> bool {
        &&& set_to(self.base) is None
        &&& forall|i: int| 0 <= i < ENTRIES ==> (#[trigger] self.entry(i)) is None
    }

    /// Whether nothing at all was set.
    pub fn is_empty(&self) -> (r: bool)
        ensures
            r == self.nothing_set(),
    {
        let r = self.base.is_none() && self.states.is_none() && self.screenshots.is_none() && self.recordings.is_none() && self.nvram.is_none() && self.traces.is_none() && self.configs.is_none() && self.roms.is_none() && self.mt32_roms.is_none() && self.floppies.is_none() && self.harddrives.is_none() && self.cds.is_none();
        proof {
            if !r {
                if self.base is None {
                    assert(!(self.entry(0) is None) || !(self.entry(1) is None) || !(self.entry(2) is None) || !(self.entry(3) is None) || !(self.entry(4) is None) || !(self.entry(5) is None) || !(self.entry(6) is None) || !(self.entry(7) is None) || !(self.entry(8) is None) || !(self.entry(9) is None) || !(self.entry(10) is None));
                }
            }
        }
        r
    }

    /// The directory everything else is taken from: the base where it is
    /// absolute, the base under the host-data directory where it is relative,
    /// and the host-data directory itself where it is unset.
    pub open spec fn root(self, host_data: Route) -> Route {
        match set_to(self.base) {
            Some(base) => host_data.join(base),
            None => host_data,
        }
    }

    pub fn base_dir(&self, host_data: &HostPath) -> (r: HostPath)
        ensures
            r@ == self.root(host_data@),
    {
        match &self.base {
            Some(base) => host_data.join(base),
            None => host_data.copy(),
        }
    }

    /// One entry, resolved: absolute as given, relative under the base, and
    /// the default under the base where it is unset.
    pub open spec fn resolved(self, host_data: Route, entry: Option<Route>, default: Seq<char>) -> Route {
        match entry {
            Some(dir) => self.root(host_data).join(dir),
            None => self.root(host_data).join(route_of(default)),
        }
    }

    fn dir(&self, host_data: &HostPath, entry: &Option<HostPath>, default: &str) -> (r: HostPath)
        ensures
            r@ == self.resolved(host_data@, set_to(*entry), default@),
    {
        let base = self.base_dir(host_data);
        match entry {
            Some(dir) => base.join(dir),
            None => base.child(default),
        }
    }

    /// Save-state slots.
    pub fn states_dir(&self, host_data: &HostPath) -> (r: HostPath)
        ensures
            r@ == self.resolved(host_data@, set_to(self.states), "states"@),
    {
        self.dir(host_data, &self.states, "states")
    }

    /// Screenshots.
    pub fn screenshots_dir(&self, host_data: &HostPath) -> (r: HostPath)
        ensures
            r@ == self.resolved(host_data@, set_to(self.screenshots), "screenshots"@),
    {
        self.dir(host_data, &self.screenshots, "screenshots")
    }

    /// Video and input recordings.
    pub fn recordings_dir(&self, host_data: &HostPath) -> (r: HostPath)
        ensures
            r@ == self.resolved(host_data@, set_to(self.recordings), "recordings"@),
    {
        self.dir(host_data, &self.recordings, "recordings")
    }

    /// Battery-backed memories.
    pub fn nvram_dir(&self, host_data: &HostPath) -> (r: HostPath)
        ensures
            r@ == self.resolved(host_data@, set_to(self.nvram), "nvram"@),
    {
        self.dir(host_data, &self.nvram, "nvram")
    }

    /// Traces and waveform captures.
    pub fn traces_dir(&self, host_data: &HostPath) -> (r: HostPath)
        ensures
            r@ == self.resolved(host_data@, set_to(self.traces), "traces"@),
    {
        self.dir(host_data, &self.traces, "traces")
    }

    /// Saved machine configurations.
    pub fn configs_dir(&self, host_data: &HostPath) -> (r: HostPath)
        ensures
            r@ == self.resolved(host_data@, set_to(self.configs), "configs"@),
    {
        self.dir(host_data, &self.configs, "configs")
    }

    /// Where a ROM dialog opens when its field is empty.
    pub fn roms_dir(&self, host_data: &HostPath) -> (r: HostPath)
        ensures
            r@ == self.resolved(host_data@, set_to(self.roms), "roms"@),
    {
        self.dir(host_data, &self.roms, "roms")
    }

    /// Where an MT-32 ROM dialog opens: under the ROMs directory rather than
    /// beside it.
    pub fn mt32_roms_dir(&self, host_data: &HostPath) -> (r: HostPath)
        ensures
            r@ == (match set_to(self.mt32_roms) {
                Some(dir) => self.root(host_data@).join(dir),
                None => self.resolved(host_data@, set_to(self.roms), "roms"@).join(
                    route_of("mt32"@),
                ),
            }),
    {
        match &self.mt32_roms {
            Some(dir) => self.base_dir(host_data).join(dir),
            None => self.roms_dir(host_data).child("mt32"),
        }
    }

    /// Where a floppy dialog opens when its field is empty.
    pub fn floppies_dir(&self, host_data: &HostPath) -> (r: HostPath)
        ensures
            r@ == self.resolved(host_data@, set_to(self.floppies), "floppies"@),
    {
        self.dir(host_data, &self.floppies, "floppies")
    }

    /// Where a hard-disk dialog opens when its field is empty.
    pub fn harddrives_dir(&self, host_data: &HostPath) -> (r: HostPath)
        ensures
            r@ == self.resolved(host_data@, set_to(self.harddrives), "harddrives"@),
    {
        self.dir(host_data, &self.harddrives, "harddrives")
    }

    /// Where a CD dialog opens when its field is empty.
    pub fn cds_dir(&self, host_data: &HostPath) -> (r: HostPath)
        ensures
            r@ == self.resolved(host_data@, set_to(self.cds), "cds"@),
    {
        self.dir(host_data, &self.cds, "cds")
    }

    /// The directory to look for before the base is relied on.
    pub fn base_probe(&self, host_data: &HostPath) -> (r: Option<HostPath>)
        ensures
            match r {
                Some(dir) => set_to(self.base) is Some && dir@ == self.root(host_data@),
                None => set_to(self.base) is None,
            },
    {
        match &self.base {
            Some(base) => Some(host_data.join(base)),
            None => None,
        }
    }

    /// The base after it was looked for. Everything relative hangs off it, so
    /// it is settled first: the rest are then measured where they are about
    /// to be written.
    pub fn settle_base(&mut self, reachable: bool)
        ensures
            set_to(final(self).base) == (if reachable {
                set_to(old(self).base)
            } else {
                None
            }),
            *final(self) == (Paths { base: final(self).base, ..*old(self) }),
    {
        if !reachable {
            self.base = None;
        }
    }

    /// Where an entry would be written, for looking whether it is there; an
    /// unset one is looked for at the base.
    pub open spec fn probed(self, host_data: Route, i: int) -> Route {
        match self.entry(i) {
            Some(dir) => self.root(host_data).join(dir),
            None => self.root(host_data),
        }
    }

    fn probe_of(&self, host_data: &HostPath, entry: &Option<HostPath>) -> (r: HostPath)
        ensures
            r@ == (match set_to(*entry) {
                Some(dir) => self.root(host_data@).join(dir),
                None => self.root(host_data@),
            }),
    {
        let base = self.base_dir(host_data);
        match entry {
            Some(dir) => base.join(dir),
            None => base,
        }
    }

    /// Whether an entry is set.
    pub fn is_set(&self, i: usize) -> (r: bool)
        requires
            i < ENTRIES,
        ensures
            r == (self.entry(i as int) is Some),
    {
        let entry = match i {
            0 => &self.states,
            1 => &self.screenshots,
            2 => &self.recordings,
            3 => &self.nvram,
            4 => &self.traces,
            5 => &self.configs,
            6 => &self.roms,
            7 => &self.mt32_roms,
            8 => &self.floppies,
            9 => &self.harddrives,
            _ => &self.cds,
        };
        entry.is_some()
    }

    /// The directories to look for, one for each entry.
    pub fn entry_probes(&self, host_data: &HostPath) -> (r: Vec<HostPath>)
        ensures
            r@.len() == 11,
            forall|i: int| 0 <= i < 11 ==> (#[trigger] r@[i])@ == self.probed(host_data@, i),
    {
        let mut r: Vec<HostPath> = Vec::new();
        r.push(self.probe_of(host_data, &self.states));
        r.push(self.probe_of(host_data, &self.screenshots));
        r.push(self.probe_of(host_data, &self.recordings));
        r.push(self.probe_of(host_data, &self.nvram));
        r.push(self.probe_of(host_data, &self.traces));
        r.push(self.probe_of(host_data, &self.configs));
        r.push(self.probe_of(host_data, &self.roms));
        r.push(self.probe_of(host_data, &self.mt32_roms));
        r.push(self.probe_of(host_data, &self.floppies));
        r.push(self.probe_of(host_data, &self.harddrives));
        r.push(self.probe_of(host_data, &self.cds));
        r
    }

    /// The configuration without the entries whose directories are not there.
    pub fn reachable(self, base_reachable: bool, verdicts: &[bool]) -> (r: Paths)
        ensures
            self.nothing_set() ==> r.nothing_set(),
            set_to(r.base) == (if base_reachable {
                set_to(self.base)
            } else {
                None
            }),
            forall|i: int|
                0 <= i < 11 ==> #[trigger] r.entry(i) == (if verdict(verdicts@, i) {
                    self.entry(i)
                } else {
                    None
                }),
    {
        let ghost start = self;
        let before = self;
        let r = Paths {
            base: keep(before.base, base_reachable),
            states: keep(before.states, verdict_at(verdicts, 0)),
            screenshots: keep(before.screenshots, verdict_at(verdicts, 1)),
            recordings: keep(before.recordings, verdict_at(verdicts, 2)),
            nvram: keep(before.nvram, verdict_at(verdicts, 3)),
            traces: keep(before.traces, verdict_at(verdicts, 4)),
            configs: keep(before.configs, verdict_at(verdicts, 5)),
            roms: keep(before.roms, verdict_at(verdicts, 6)),
            mt32_roms: keep(before.mt32_roms, verdict_at(verdicts, 7)),
            floppies: keep(before.floppies, verdict_at(verdicts, 8)),
            harddrives: keep(before.harddrives, verdict_at(verdicts, 9)),
            cds: keep(before.cds, verdict_at(verdicts, 10)),
        };
        proof {
            if start.nothing_set() {
                assert forall|i: int| 0 <= i < ENTRIES implies (#[trigger] r.entry(i)) is None by {
                    assert(start.entry(i) is None);
                }
            }
        }
        r
    }
}

/// Nothing records where it is in absolute terms: where neither the base nor
/// an entry is absolute, what the entry resolves to lies under the host-data
/// directory, and moves with it.
pub proof fn law_the_tree_follows_the_root(
    paths: Paths,
    entry: Option<Route>,
    default: Seq<char>,
    a: Route,
    b: Route,
)
    requires
        set_to(paths.base) matches Some(base) ==> !base.absolute,
        entry matches Some(dir) ==> !dir.absolute,
        !route_of(default).absolute,
        a.absolute || a.parts.len() > 0,
        b.absolute || b.parts.len() > 0,
    ensures
        paths.resolved(a, entry, default).starts_with(a),
        paths.resolved(b, entry, default).starts_with(b),
        paths.resolved(a, entry, default).parts.skip(a.parts.len() as int) == paths.resolved(
            b,
            entry,
            default,
        ).parts.skip(b.parts.len() as int),
{
    let tail = match entry {
        Some(dir) => dir,
        None => route_of(default),
    };
    let ra = paths.root(a);
    let rb = paths.root(b);
    let da = ra.join(tail);
    let db = rb.join(tail);
    assert(ra.absolute == a.absolute && rb.absolute == b.absolute);
    assert(ra.parts.take(a.parts.len() as int) =~= a.parts);
    assert(rb.parts.take(b.parts.len() as int) =~= b.parts);
    assert(ra.parts.skip(a.parts.len() as int) =~= rb.parts.skip(b.parts.len() as int));
    assert(da.parts.take(a.parts.len() as int) =~= a.parts);
    assert(db.parts.take(b.parts.len() as int) =~= b.parts);
    let more = if tail.parts.len() > 0 && tail.parts[0] == crate::hostpath::here() {
        tail.parts.drop_first()
    } else {
        tail.parts
    };
    assert(da.parts =~= ra.parts + more);
    assert(db.parts =~= rb.parts + more);
    assert(da.parts.skip(a.parts.len() as int) =~= ra.parts.skip(a.parts.len() as int) + more);
    assert(db.parts.skip(b.parts.len() as int) =~= rb.parts.skip(b.parts.len() as int) + more);
}

/// The base is taken from the host's directory, and a directory from the
/// base: the one that is set for it, else its own name. One that is set with
/// a root stands by itself.
pub proof fn law_directories_stand_under_the_base(
    paths: Paths,
    host_data: Route,
    entry: Option<Route>,
    default: Seq<char>,
)
    ensures
        set_to(paths.base) is None ==> paths.root(host_data) == host_data,
        set_to(paths.base) matches Some(base) ==> paths.root(host_data) == host_data.join(base),
        entry matches Some(dir) ==> paths.resolved(host_data, entry, default) == paths.root(
            host_data,
        ).join(dir),
        entry is None ==> paths.resolved(host_data, entry, default) == paths.root(host_data).join(
            route_of(default),
        ),
        entry matches Some(dir) ==> (dir.absolute ==> paths.resolved(host_data, entry, default)
            == dir),
{
}

/// The entries in their order.
pub proof fn law_entries_are_in_their_order(paths: Paths)
    ensures
        paths.entry(0) == set_to(paths.states),
        paths.entry(1) == set_to(paths.screenshots),
        paths.entry(2) == set_to(paths.recordings),
        paths.entry(3) == set_to(paths.nvram),
        paths.entry(4) == set_to(paths.traces),
        paths.entry(5) == set_to(paths.configs),
        paths.entry(6) == set_to(paths.roms),
        paths.entry(7) == set_to(paths.mt32_roms),
        paths.entry(8) == set_to(paths.floppies),
        paths.entry(9) == set_to(paths.harddrives),
        paths.entry(10) == set_to(paths.cds),
        forall|host_data: Route, i: int|
            #![trigger paths.probed(host_data, i)]
            paths.entry(i) matches Some(dir) ==> paths.probed(host_data, i) == paths.root(
                host_data,
            ).join(dir),
        forall|host_data: Route, i: int|
            #![trigger paths.probed(host_data, i)]
            paths.entry(i) is None ==> paths.probed(host_data, i) == paths.root(host_data),
{
}

} // verus!
