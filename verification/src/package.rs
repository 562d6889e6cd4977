//! What a game package arrives as, and how to get at it.
//!
//! There are three shapes: an LHA archive, a ZIP archive and a plain folder.
//! A slave file makes any of them a game. It is searched for, not assumed.
//!
//! What archivers add is ignored throughout. One such addition ends in
//! `.Slave`: left in, it would be found by the search, sort before the real
//! one, and be booted instead.
use vstd::prelude::*;
use crate::hostpath::{here, route_of, up, HostPath, Route};
use crate::ranking::{in_order, rank, ranked, Ranked};
use crate::text::{
    before, chars_of, comes_before, copy_chars, has_prefix, lemma_before_is_an_order, lowercase,
    lowercase_text, lowered, spells, split, split_text, starts_with, text_of, texts, to_lower,
};

verus! {

/// Which of the three a package is.
#[derive(Debug, Clone, Copy, PartialEq, Eq, Structural)]
pub enum Kind {
    Lha,
    Zip,
    Folder,
}

/// Why a package cannot be used.
#[derive(Debug, Clone, Copy, PartialEq, Eq, Structural)]
pub enum PackageError {
    /// A directory is no archive.
    IsFolder,
    /// It is none of the three.
    NotAPackage,
    /// There is no such member.
    NoMember,
}

/// How many characters of a text come before its last dot, where it has one.
pub open spec fn last_dot(s: Seq<char>) -> Option<int>
    decreases s.len(),
{
    if s.len() == 0 {
        None
    } else if s.last() == '.' {
        Some(s.len() - 1)
    } else {
        last_dot(s.drop_last())
    }
}

/// What stands behind the last dot, in lower case.
pub open spec fn tail_of(name: Seq<char>) -> Option<Seq<char>> {
    match last_dot(name) {
        Some(at) => Some(lowered(name.skip(at + 1))),
        None => None,
    }
}

proof fn lemma_last_dot(s: Seq<char>)
    ensures
        last_dot(s) matches Some(at) ==> 0 <= at < s.len() && s[at] == '.' && !s.skip(
            at + 1,
        ).contains('.'),
    decreases s.len(),
{
    if s.len() > 0 {
        lemma_last_dot(s.drop_last());
        if s.last() == '.' {
            assert(s.skip(s.len() as int) =~= Seq::empty());
        } else if let Some(at) = last_dot(s.drop_last()) {
            let tail = s.skip(at + 1);
            assert(tail.drop_last() =~= s.drop_last().skip(at + 1));
            if tail.contains('.') {
                let i = choose|i: int| 0 <= i < tail.len() && tail[i] == '.';
                assert(i < tail.len() - 1);
                assert(tail.drop_last()[i] == '.');
            }
        }
    }
}

fn find_last_dot(name: &[char]) -> (r: Option<usize>)
    ensures
        match r {
            Some(at) => last_dot(name@) == Some(at as int) && at < name@.len(),
            None => last_dot(name@) is None,
        },
{
    let mut i: usize = name.len();
    assert(name@.take(i as int) =~= name@);
    while i > 0
        invariant
            i <= name@.len(),
            last_dot(name@) == last_dot(name@.take(i as int)),
        decreases i,
    {
        let ghost taken = name@.take(i as int);
        assert(taken.last() == name@[i - 1]);
        assert(taken.drop_last() =~= name@.take(i - 1));
        if name[i - 1] == '.' {
            return Some(i - 1);
        }
        i -= 1;
    }
    None
}

fn lower_tail(name: &[char]) -> (r: Option<Vec<char>>)
    ensures
        match r {
            Some(tail) => tail_of(name@) == Some(tail@),
            None => tail_of(name@) is None,
        },
{
    match find_last_dot(name) {
        Some(at) => {
            let n: usize = name.len();
            assert(at < n);
            let tail = copy_chars(name, at + 1, n);
            assert(tail@ =~= name@.skip(at + 1));
            Some(to_lower(tail.as_slice()))
        },
        None => None,
    }
}

/// What a name alone says of a package. It never says that it is a folder.
/// Only a closed list of extensions counts: titles are full of dots.
pub open spec fn kind_of_name(name: Seq<char>) -> Option<Kind> {
    match tail_of(name) {
        Some(tail) => if tail == "lha"@ || tail == "lzh"@ {
            Some(Kind::Lha)
        } else if tail == "zip"@ {
            Some(Kind::Zip)
        } else {
            None
        },
        None => None,
    }
}

impl Kind {
    /// What a path looks like: a directory is a folder, and a file is what its
    /// name says.
    pub fn of(is_dir: bool, path: &HostPath) -> (r: Option<Kind>)
        ensures
            r == (if is_dir {
                Some(Kind::Folder)
            } else {
                match path@.file_name() {
                    Some(name) => kind_of_name(name),
                    None => None,
                }
            }),
    {
        if is_dir {
            return Some(Kind::Folder);
        }
        match path.file_name() {
            Some(name) => Kind::of_name(name),
            None => None,
        }
    }

    /// What a name alone says.
    pub fn of_name(name: &str) -> (r: Option<Kind>)
        ensures
            r == kind_of_name(name@),
    {
        match lower_tail(chars_of(name).as_slice()) {
            Some(tail) => {
                if spells(tail.as_slice(), "lha") || spells(tail.as_slice(), "lzh") {
                    Some(Kind::Lha)
                } else if spells(tail.as_slice(), "zip") {
                    Some(Kind::Zip)
                } else {
                    None
                }
            },
            None => None,
        }
    }
}

/// A name without a package's extension.
pub open spec fn stem(name: Seq<char>) -> Seq<char> {
    match last_dot(name) {
        Some(at) => if kind_of_name(name) is Some {
            name.take(at)
        } else {
            name
        },
        None => name,
    }
}

/// A package's name without its extension, if it has one that is recognised.
pub fn stem_of(name: &str) -> (r: String)
    ensures
        r@ == stem(name@),
{
    let chars = chars_of(name);
    let kind = Kind::of_name(name);
    match find_last_dot(chars.as_slice()) {
        Some(at) => {
            if kind.is_some() {
                let head = copy_chars(chars.as_slice(), 0, at);
                assert(head@ =~= name@.take(at as int));
                text_of(head.as_slice())
            } else {
                text_of(chars.as_slice())
            }
        },
        None => text_of(chars.as_slice()),
    }
}

/// Only a recognised extension is taken off a name: any other name is left
/// whole, and a package's name is its stem, a dot and the extension.
pub proof fn law_only_extensions_come_off(name: Seq<char>)
    ensures
        kind_of_name(name) is None ==> stem(name) == name,
        kind_of_name(name) is Some ==> {
            let tail = name.skip(stem(name).len() as int + 1);
            &&& name == stem(name).push('.') + tail
            &&& !tail.contains('.')
            &&& lowered(tail) == "lha"@ || lowered(tail) == "lzh"@ || lowered(tail) == "zip"@
        },
{
    lemma_last_dot(name);
    if kind_of_name(name) is Some {
        let at = last_dot(name).unwrap();
        assert(name =~= name.take(at).push('.') + name.skip(at + 1));
    }
}

/// A stored relative path resolved under a folder: one name at a time,
/// without the empty ones.
pub fn under(folder: &HostPath, relative: &str) -> (r: HostPath)
    ensures
        r@ == folder@.join(route_of(relative@.skip(leading_slashes(relative@) as int))),
{
    let chars = chars_of(relative);
    let n: usize = count_slashes(chars.as_slice());
    let rest = copy_chars(chars.as_slice(), n, chars.len());
    assert(rest@ =~= relative@.skip(n as int));
    let text = text_of(rest.as_slice());
    folder.child(text.as_str())
}

/// How many slashes a text begins with.
pub open spec fn leading_slashes(s: Seq<char>) -> nat
    decreases s.len(),
{
    if s.len() > 0 && s[0] == '/' {
        1 + leading_slashes(s.skip(1))
    } else {
        0
    }
}

fn count_slashes(s: &[char]) -> (r: usize)
    ensures
        r == leading_slashes(s@),
        r <= s@.len(),
{
    let mut i: usize = 0;
    assert(s@.skip(0) =~= s@);
    while i < s.len() && s[i] == '/'
        invariant
            i <= s@.len(),
            leading_slashes(s@) == i + leading_slashes(s@.skip(i as int)),
        decreases s@.len() - i,
    {
        assert(s@.skip(i as int)[0] == s@[i as int]);
        assert(s@.skip(i as int).skip(1) =~= s@.skip(i + 1));
        i += 1;
    }
    if i < s.len() {
        assert(s@.skip(i as int)[0] == s@[i as int]);
    }
    i
}

/// A slave's name: its extension may have been cut short by a filesystem.
pub open spec fn names_a_slave(name: Seq<char>) -> bool {
    match tail_of(name) {
        Some(tail) => tail == "slave"@ || tail == "slav"@,
        None => false,
    }
}

/// Whether a name is a slave's.
pub fn is_slave_name(name: &str) -> (r: bool)
    ensures
        r == names_a_slave(name@),
{
    match lower_tail(chars_of(name).as_slice()) {
        Some(tail) => spells(tail.as_slice(), "slave") || spells(tail.as_slice(), "slav"),
        None => false,
    }
}

/// A directory that games may be in: not version control, nor what the
/// emulator itself writes inside a library.
pub open spec fn may_hold_games(name: Seq<char>) -> bool {
    &&& name != ".git"@
    &&& name != "__MACOSX"@
    &&& name != "Cache"@
    &&& name != "Save States"@
    &&& name != "Saves"@
    &&& !(name.len() > 0 && name[0] == '.')
}

/// Whether a directory is worth walking into while looking for games.
pub fn worth_walking(name: &str) -> (r: bool)
    ensures
        r == may_hold_games(name@),
{
    let chars = chars_of(name);
    let s = chars.as_slice();
    if spells(s, ".git") || spells(s, "__MACOSX") || spells(s, "Cache") || spells(s, "Save States")
        || spells(s, "Saves") {
        return false;
    }
    !(chars.len() > 0 && chars[0] == '.')
}

/// A name that an archiver adds.
pub open spec fn added_name(name: Seq<char>) -> bool {
    name == "__MACOSX"@ || name == ".DS_Store"@ || has_prefix(name, "._"@)
}

/// A path that leads through a name that an archiver adds.
pub open spec fn rubbish(path: Route) -> bool {
    exists|i: int| 0 <= i < path.parts.len() && added_name(#[trigger] path.parts[i])
}

/// Whether a member's path is rubbish that an archiver added.
pub fn is_rubbish(path: &HostPath) -> (r: bool)
    ensures
        r == rubbish(path@),
{
    let mut i: usize = 0;
    while i < path.parts.len()
        invariant
            i <= path.parts@.len(),
            forall|j: int| 0 <= j < i ==> !added_name(#[trigger] path@.parts[j]),
        decreases path.parts@.len() - i,
    {
        let name = chars_of(path.parts[i].as_str());
        assert(path@.parts[i as int] == name@);
        if spells(name.as_slice(), "__MACOSX") || spells(name.as_slice(), ".DS_Store")
            || starts_with(name.as_slice(), "._") {
            return true;
        }
        i += 1;
    }
    assert(path@.parts.len() == path.parts@.len());
    false
}

/// A stored name with every separator written as a slash.
pub open spec fn slashes(name: Seq<char>) -> Seq<char> {
    name.map_values(
        |c: char|
            if c == '\\' {
                '/'
            } else {
                c
            },
    )
}

/// A piece of a stored name that must not be followed.
pub open spec fn leaves(piece: Seq<char>) -> bool {
    piece == up() || piece.contains(':')
}

/// A piece of a stored name that says nothing.
pub open spec fn says_nothing(piece: Seq<char>) -> bool {
    piece.len() == 0 || piece == here()
}

/// The pieces that say something among the first ones.
pub open spec fn said(pieces: Seq<Seq<char>>, n: int) -> Seq<Seq<char>>
    decreases n,
{
    if n <= 0 {
        Seq::empty()
    } else if says_nothing(pieces[n - 1]) {
        said(pieces, n - 1)
    } else {
        said(pieces, n - 1).push(pieces[n - 1])
    }
}

/// A stored name as a relative path, where it stays inside the archive and
/// names something.
pub open spec fn member_of(name: Seq<char>) -> Option<Route> {
    let pieces = split(slashes(name), '/');
    let parts = said(pieces, pieces.len() as int);
    if (exists|i: int| 0 <= i < pieces.len() && leaves(#[trigger] pieces[i])) || parts.len() == 0 {
        None
    } else {
        Some(Route { absolute: false, parts })
    }
}

/// What a member's path comes to.
pub open spec fn shown(path: Option<HostPath>) -> Option<Route> {
    match path {
        Some(p) => Some(p@),
        None => None,
    }
}

fn holds_colon(piece: &[char]) -> (r: bool)
    ensures
        r == piece@.contains(':'),
{
    let mut i: usize = 0;
    while i < piece.len()
        invariant
            i <= piece@.len(),
            forall|j: int| 0 <= j < i ==> piece@[j] != ':',
        decreases piece@.len() - i,
    {
        if piece[i] == ':' {
            assert(piece@[i as int] == ':');
            return true;
        }
        i += 1;
    }
    false
}

/// A stored name as a relative path, or nothing where it tries to leave the
/// archive.
pub fn member_path(name: &str) -> (r: Option<HostPath>)
    ensures
        shown(r) == member_of(name@),
        r matches Some(p) ==> p@.wf(),
{
    let stored = chars_of(name);
    let mut chars: Vec<char> = Vec::new();
    let mut k: usize = 0;
    while k < stored.len()
        invariant
            k <= stored@.len(),
            stored@ == name@,
            chars@ =~= slashes(name@).take(k as int),
        decreases stored@.len() - k,
    {
        if stored[k] == '\\' {
            chars.push('/');
        } else {
            chars.push(stored[k]);
        }
        k += 1;
    }
    assert(chars@ =~= slashes(name@));
    let pieces = split_text(chars.as_slice(), '/');
    let ghost views = split(slashes(name@), '/');
    let mut parts: Vec<String> = Vec::new();
    let mut i: usize = 0;
    proof {
        assert(texts(pieces@).len() == pieces@.len());
        assert(crate::hostpath::names(parts@) =~= said(views, 0));
        crate::text::lemma_pieces_are_whole(slashes(name@), '/');
        reveal_strlit(".");
        reveal_strlit("..");
        assert("."@ =~= here());
        assert(".."@ =~= up());
    }
    while i < pieces.len()
        invariant
            i <= pieces@.len(),
            pieces@.len() == views.len(),
            texts(pieces@) == views,
            views == split(slashes(name@), '/'),
            "."@ == here(),
            ".."@ == up(),
            crate::hostpath::names(parts@) == said(views, i as int),
            parts@.len() == said(views, i as int).len(),
            forall|j: int| 0 <= j < i ==> !leaves(#[trigger] views[j]),
        decreases pieces@.len() - i,
    {
        assert(pieces@[i as int]@ == views[i as int]);
        let piece = pieces[i].as_slice();
        let ghost held = parts@;
        if spells(piece, "..") || holds_colon(piece) {
            assert(leaves(views[i as int]));
            return None;
        }
        if piece.len() > 0 && !spells(piece, ".") {
            let part = text_of(piece);
            parts.push(part);
            assert(crate::hostpath::names(parts@) =~= crate::hostpath::names(held).push(
                views[i as int],
            ));
        }
        i += 1;
    }
    if parts.len() == 0 {
        return None;
    }
    let r = HostPath { absolute: false, parts };
    proof {
        lemma_members_are_sound(views, views.len() as int);
    }
    Some(r)
}

proof fn lemma_members_are_sound(pieces: Seq<Seq<char>>, n: int)
    requires
        0 <= n <= pieces.len(),
        forall|i: int| 0 <= i < pieces.len() ==> !(#[trigger] pieces[i]).contains('/'),
    ensures
        forall|j: int|
            0 <= j < said(pieces, n).len() ==> (#[trigger] said(pieces, n)[j]).len() > 0
                && !said(pieces, n)[j].contains('/') && said(pieces, n)[j] != here(),
    decreases n,
{
    if n > 0 {
        lemma_members_are_sound(pieces, n - 1);
        let before = said(pieces, n - 1);
        assert forall|j: int| 0 <= j < said(pieces, n).len() implies (#[trigger] said(
            pieces,
            n,
        )[j]).len() > 0 && !said(pieces, n)[j].contains('/') && said(pieces, n)[j] != here() by {
            if j < before.len() {
                assert(said(pieces, n)[j] == before[j]);
            } else {
                assert(said(pieces, n)[j] == pieces[n - 1]);
            }
        }
    }
}

proof fn lemma_said_are_pieces(pieces: Seq<Seq<char>>, n: int)
    requires
        0 <= n <= pieces.len(),
    ensures
        forall|j: int|
            0 <= j < said(pieces, n).len() ==> pieces.contains(#[trigger] said(pieces, n)[j]),
    decreases n,
{
    if n > 0 {
        lemma_said_are_pieces(pieces, n - 1);
        let before = said(pieces, n - 1);
        assert forall|j: int| 0 <= j < said(pieces, n).len() implies pieces.contains(
            #[trigger] said(pieces, n)[j],
        ) by {
            if j < before.len() {
                assert(said(pieces, n)[j] == before[j]);
            } else {
                assert(said(pieces, n)[j] == pieces[n - 1]);
            }
        }
    }
}

/// No member leaves the archive: whatever a name says, its path is relative,
/// goes up nowhere and names no device, so that under any destination it
/// stays there.
pub proof fn law_no_member_leaves(name: Seq<char>, dest: Route)
    ensures
        member_of(name) matches Some(path) ==> {
            &&& !path.absolute
            &&& path.parts.len() > 0
            &&& forall|i: int|
                0 <= i < path.parts.len() ==> #[trigger] path.parts[i] != up()
                    && !path.parts[i].contains(':')
            &&& dest.join(path).starts_with(dest)
        },
{
    if let Some(path) = member_of(name) {
        let pieces = split(slashes(name), '/');
        lemma_said_are_pieces(pieces, pieces.len() as int);
        assert forall|i: int| 0 <= i < path.parts.len() implies #[trigger] path.parts[i] != up()
            && !path.parts[i].contains(':') by {
            assert(pieces.contains(path.parts[i]));
            let k = choose|k: int| 0 <= k < pieces.len() && pieces[k] == path.parts[i];
            assert(!leaves(pieces[k]));
        }
        crate::hostpath::law_relative_paths_stay_under(dest, path);
    }
}

/// A member as an archive stores it.
#[derive(Debug, Clone)]
pub struct StoredMember {
    pub name: String,
    pub is_dir: bool,
}

/// The path of a file that an archive stores.
pub open spec fn file_of(member: StoredMember) -> Option<Route> {
    if member.is_dir {
        None
    } else {
        member_of(member.name@)
    }
}

/// The paths of the files among the first members.
pub open spec fn files_of(members: Seq<StoredMember>, n: int) -> Seq<Route>
    decreases n,
{
    if n <= 0 {
        Seq::empty()
    } else {
        match file_of(members[n - 1]) {
            Some(path) => files_of(members, n - 1).push(path),
            None => files_of(members, n - 1),
        }
    }
}

/// The paths of a list.
pub open spec fn routes(list: Seq<HostPath>) -> Seq<Route> {
    list.map_values(|p: HostPath| p@)
}

/// The relative paths of an archive's files. Directories and names that would
/// leave the archive are left out.
pub fn zip_names(members: &[StoredMember]) -> (r: Vec<HostPath>)
    ensures
        routes(r@) == files_of(members@, members@.len() as int),
{
    let mut out: Vec<HostPath> = Vec::new();
    let mut i: usize = 0;
    assert(routes(out@) =~= Seq::empty());
    while i < members.len()
        invariant
            i <= members@.len(),
            routes(out@) == files_of(members@, i as int),
        decreases members@.len() - i,
    {
        let ghost held = out@;
        if !members[i].is_dir {
            if let Some(path) = member_path(members[i].name.as_str()) {
                let ghost route = path@;
                out.push(path);
                assert(routes(out@) =~= routes(held).push(route));
            }
        }
        i += 1;
    }
    out
}

/// The paths that are not rubbish among the first ones.
pub open spec fn wanted(all: Seq<Route>, n: int) -> Seq<Route>
    decreases n,
{
    if n <= 0 {
        Seq::empty()
    } else if rubbish(all[n - 1]) {
        wanted(all, n - 1)
    } else {
        wanted(all, n - 1).push(all[n - 1])
    }
}

/// The members of a package, with the rubbish left out.
pub fn list(kind: Option<Kind>, all: Vec<HostPath>) -> (r: Result<Vec<HostPath>, PackageError>)
    ensures
        match r {
            Ok(members) => kind is Some && routes(members@) == wanted(
                routes(all@),
                all@.len() as int,
            ),
            Err(e) => kind is None && e == PackageError::NotAPackage,
        },
{
    if kind.is_none() {
        return Err(PackageError::NotAPackage);
    }
    let ghost views = routes(all@);
    let mut out: Vec<HostPath> = Vec::new();
    let mut i: usize = 0;
    assert(routes(out@) =~= Seq::empty());
    while i < all.len()
        invariant
            i <= all@.len(),
            views == routes(all@),
            routes(out@) == wanted(views, i as int),
        decreases all@.len() - i,
    {
        assert(views[i as int] == all@[i as int]@);
        let ghost held = out@;
        if !is_rubbish(&all[i]) {
            let path = all[i].copy();
            let ghost route = path@;
            out.push(path);
            assert(routes(out@) =~= routes(held).push(route));
        }
        i += 1;
    }
    assert(views.len() == all@.len());
    Ok(out)
}

/// What is done with a package that is to be unpacked.
#[derive(Debug, Clone)]
pub struct Extraction {
    /// The member's place in the archive.
    pub index: usize,
    /// Where it is written.
    pub at: HostPath,
}

/// Where the first members that are unpacked are written.
pub open spec fn unpacked(members: Seq<StoredMember>, dest: Route, n: int) -> Seq<(int, Route)>
    decreases n,
{
    if n <= 0 {
        Seq::empty()
    } else {
        match file_of(members[n - 1]) {
            Some(path) => if rubbish(path) {
                unpacked(members, dest, n - 1)
            } else {
                unpacked(members, dest, n - 1).push((n - 1, dest.join(path)))
            },
            None => unpacked(members, dest, n - 1),
        }
    }
}

/// The places of a list of extractions.
pub open spec fn places(list: Seq<Extraction>) -> Seq<(int, Route)> {
    list.map_values(|x: Extraction| (x.index as int, x.at@))
}

/// Where each member of an archive is unpacked to. Directories, rubbish and
/// names that would leave the archive are left out.
pub fn extract_zip(members: &[StoredMember], dest: &HostPath) -> (r: Vec<Extraction>)
    ensures
        places(r@) == unpacked(members@, dest@, members@.len() as int),
{
    let mut out: Vec<Extraction> = Vec::new();
    let mut i: usize = 0;
    assert(places(out@) =~= Seq::empty());
    while i < members.len()
        invariant
            i <= members@.len(),
            places(out@) == unpacked(members@, dest@, i as int),
        decreases members@.len() - i,
    {
        let ghost held = out@;
        if !members[i].is_dir {
            if let Some(path) = member_path(members[i].name.as_str()) {
                if !is_rubbish(&path) {
                    let x = Extraction { index: i, at: dest.join(&path) };
                    out.push(x);
                    assert(places(out@) =~= places(held).push((i as int, dest@.join(path@))));
                }
            }
        }
        i += 1;
    }
    out
}

/// Whether a package can be unpacked, and how: only an archive can.
pub fn extract_to_dir(kind: Option<Kind>) -> (r: Result<Kind, PackageError>)
    ensures
        match kind {
            Some(Kind::Folder) => r == Err::<Kind, PackageError>(PackageError::IsFolder),
            Some(k) => r == Ok::<Kind, PackageError>(k),
            None => r == Err::<Kind, PackageError>(PackageError::NotAPackage),
        },
{
    match kind {
        Some(Kind::Lha) => Ok(Kind::Lha),
        Some(Kind::Zip) => Ok(Kind::Zip),
        Some(Kind::Folder) => Err(PackageError::IsFolder),
        None => Err(PackageError::NotAPackage),
    }
}

/// Nothing is unpacked outside the destination.
pub proof fn law_unpacking_stays_inside(members: Seq<StoredMember>, dest: Route, n: int)
    requires
        0 <= n <= members.len(),
    ensures
        forall|i: int|
            0 <= i < unpacked(members, dest, n).len() ==> (#[trigger] unpacked(
                members,
                dest,
                n,
            )[i]).1.starts_with(dest),
    decreases n,
{
    if n > 0 {
        law_unpacking_stays_inside(members, dest, n - 1);
        law_no_member_leaves(members[n - 1].name@, dest);
        let held = unpacked(members, dest, n - 1);
        assert forall|i: int| 0 <= i < unpacked(members, dest, n).len() implies (
        #[trigger] unpacked(members, dest, n)[i]).1.starts_with(dest) by {
            if i < held.len() {
                assert(unpacked(members, dest, n)[i] == held[i]);
            }
        }
    }
}

/// Where a member that was listed stands in its archive: the first with its
/// path.
pub fn read_zip_member(members: &[StoredMember], member: &HostPath) -> (r: Result<
    usize,
    PackageError,
>)
    ensures
        match r {
            Ok(at) => at < members@.len() && member_of(members@[at as int].name@) == Some(member@)
                && forall|i: int|
                0 <= i < at ==> member_of((#[trigger] members@[i]).name@) != Some(member@),
            Err(e) => e == PackageError::NoMember && forall|i: int|
                0 <= i < members@.len() ==> member_of((#[trigger] members@[i]).name@) != Some(
                    member@,
                ),
        },
{
    let mut i: usize = 0;
    while i < members.len()
        invariant
            i <= members@.len(),
            forall|j: int|
                0 <= j < i ==> member_of((#[trigger] members@[j]).name@) != Some(member@),
        decreases members@.len() - i,
    {
        if let Some(path) = member_path(members[i].name.as_str()) {
            if path.same(member) {
                return Ok(i);
            }
        }
        i += 1;
    }
    Err(PackageError::NoMember)
}

/// The first file of an archive that is not rubbish and is asked for.
pub fn read_first<F: Fn(&HostPath) -> bool>(members: &[StoredMember], want: F) -> (r: Option<usize>)
    requires
        forall|p: &HostPath| call_requires(want, (p,)),
    ensures
        match r {
            Some(at) => at < members@.len() && sought(members@[at as int], want, true)
                && forall|i: int|
                0 <= i < at ==> sought(#[trigger] members@[i], want, false),
            None => forall|i: int|
                0 <= i < members@.len() ==> sought(#[trigger] members@[i], want, false),
        },
{
    let mut i: usize = 0;
    while i < members.len()
        invariant
            i <= members@.len(),
            forall|p: &HostPath| call_requires(want, (p,)),
            forall|j: int| 0 <= j < i ==> sought(#[trigger] members@[j], want, false),
        decreases members@.len() - i,
    {
        let mut found = false;
        if !members[i].is_dir {
            if let Some(path) = member_path(members[i].name.as_str()) {
                if !is_rubbish(&path) {
                    found = want(&path);
                    assert(call_ensures(want, (&path,), found));
                    assert(file_of(members@[i as int]) == Some(path@));
                    if found {
                        assert(sought(members@[i as int], want, true));
                    } else {
                        assert(sought(members@[i as int], want, false));
                    }
                }
            }
        }
        if found {
            return Some(i);
        }
        i += 1;
    }
    None
}

/// A member is asked for, or is not: what is no file, leaves the archive or
/// is rubbish never is.
pub open spec fn sought<F: Fn(&HostPath) -> bool>(member: StoredMember, want: F, yes: bool) -> bool {
    match file_of(member) {
        Some(route) if !rubbish(route) => exists|path: HostPath|
            path@ == route && #[trigger] call_ensures(want, (&path,), yes),
        _ => !yes,
    }
}

/// What stands in a directory.
#[derive(Debug, Clone, Copy, PartialEq, Eq, Structural)]
pub enum EntryKind {
    File,
    Folder,
    Link,
    /// It could not be told.
    Unknown,
}

/// One entry of a directory.
#[derive(Debug, Clone)]
pub struct Entry {
    pub name: String,
    pub kind: EntryKind,
}

/// How far under a directory a slave may be for the directory to count as the
/// game.
pub const FOLDER_SLAVE_DEPTH: usize = 3;

/// An entry that makes a directory a game.
pub open spec fn is_slave(entry: Entry) -> bool {
    entry.kind == EntryKind::File && !has_prefix(entry.name@, "._"@) && names_a_slave(entry.name@)
}

/// An entry that a search goes into.
pub open spec fn is_walked(entry: Entry) -> bool {
    entry.kind == EntryKind::Folder && !has_prefix(entry.name@, "._"@) && may_hold_games(
        entry.name@,
    )
}

/// A search for a slave under a directory, a directory at a time.
pub struct SlaveSearch {
    /// The directories that are still to be looked into, and how deep each
    /// is; the last is next.
    pub pending: Vec<(HostPath, usize)>,
    pub found: bool,
}

/// The directories of a list, and their depths.
pub open spec fn tasks(list: Seq<(HostPath, usize)>) -> Seq<(Route, nat)> {
    list.map_values(|t: (HostPath, usize)| (t.0@, t.1 as nat))
}

/// The directories that the first entries of one lead to.
pub open spec fn walked(entries: Seq<Entry>, dir: Route, depth: nat, n: int) -> Seq<(Route, nat)>
    decreases n,
{
    if n <= 0 {
        Seq::empty()
    } else if is_walked(entries[n - 1]) {
        walked(entries, dir, depth, n - 1).push(
            (dir.join(route_of(entries[n - 1].name@)), depth + 1),
        )
    } else {
        walked(entries, dir, depth, n - 1)
    }
}

impl SlaveSearch {
    /// A search under a directory.
    pub fn new(dir: HostPath) -> (r: SlaveSearch)
        ensures
            tasks(r.pending@) == seq![(dir@, 0nat)],
            !r.found,
    {
        let ghost route = dir@;
        let mut pending: Vec<(HostPath, usize)> = Vec::new();
        pending.push((dir, 0));
        assert(tasks(pending@) =~= seq![(route, 0nat)]);
        SlaveSearch { pending, found: false }
    }

    /// The directory to look into next. There is none once the search is
    /// over.
    pub fn next(&mut self) -> (r: Option<(HostPath, usize)>)
        ensures
            final(self).found == old(self).found,
            match r {
                Some(task) => !old(self).found && old(self).pending@.len() > 0 && (
                    task.0@,
                    task.1 as nat,
                ) == tasks(old(self).pending@).last() && tasks(final(self).pending@) == tasks(
                    old(self).pending@,
                ).drop_last(),
                None => (old(self).found || old(self).pending@.len() == 0)
                    && final(self).pending@ == old(self).pending@,
            },
    {
        if self.found {
            return None;
        }
        let ghost held = self.pending@;
        let r = self.pending.pop();
        if r.is_some() {
            assert(tasks(self.pending@) =~= tasks(held).drop_last());
        }
        r
    }

    /// A directory was looked into. A slave in it ends the search; otherwise
    /// the directories in it are still to be looked into, the deepest only so
    /// far.
    pub fn visit(&mut self, dir: &HostPath, depth: usize, entries: &[Entry])
        requires
            depth <= FOLDER_SLAVE_DEPTH,
        ensures
            final(self).found == (old(self).found || exists|i: int|
                0 <= i < entries@.len() && is_slave(#[trigger] entries@[i])),
            tasks(final(self).pending@) == (if depth < 3 && !(exists|i: int|
                0 <= i < entries@.len() && is_slave(#[trigger] entries@[i])) {
                tasks(old(self).pending@) + walked(
                    entries@,
                    dir@,
                    depth as nat,
                    entries@.len() as int,
                )
            } else {
                tasks(old(self).pending@)
            }),
    {
        let mut i: usize = 0;
        while i < entries.len()
            invariant
                i <= entries@.len(),
                *self == *old(self),
                forall|j: int| 0 <= j < i ==> !is_slave(#[trigger] entries@[j]),
            decreases entries@.len() - i,
        {
            if entries[i].kind == EntryKind::File && !starts_with(
                chars_of(entries[i].name.as_str()).as_slice(),
                "._",
            ) && is_slave_name(entries[i].name.as_str()) {
                assert(is_slave(entries@[i as int]));
                self.found = true;
                return ;
            }
            i += 1;
        }
        if depth >= FOLDER_SLAVE_DEPTH {
            return ;
        }
        let ghost start = tasks(self.pending@);
        let mut k: usize = 0;
        assert(start + walked(entries@, dir@, depth as nat, 0) =~= start);
        while k < entries.len()
            invariant
                k <= entries@.len(),
                depth < FOLDER_SLAVE_DEPTH,
                self.found == old(self).found,
                tasks(self.pending@) == start + walked(entries@, dir@, depth as nat, k as int),
            decreases entries@.len() - k,
        {
            let ghost held = self.pending@;
            if entries[k].kind == EntryKind::Folder && !starts_with(
                chars_of(entries[k].name.as_str()).as_slice(),
                "._",
            ) && worth_walking(entries[k].name.as_str()) {
                let at = dir.child(entries[k].name.as_str());
                let ghost task = (at@, (depth + 1) as nat);
                self.pending.push((at, depth + 1));
                assert(tasks(self.pending@) =~= tasks(held).push(task));
                assert(tasks(self.pending@) =~= start + walked(
                    entries@,
                    dir@,
                    depth as nat,
                    k + 1,
                ));
            }
            k += 1;
        }
    }
}

/// A slave lies under a directory, where each directory holds what it is said
/// to and the deepest are only so deep.
pub open spec fn holds_a_slave(
    listing: spec_fn(Route) -> Seq<Entry>,
    dir: Route,
    depth: nat,
) -> bool
    decreases FOLDER_SLAVE_DEPTH + 1 - depth,
{
    let entries = listing(dir);
    ||| exists|i: int| 0 <= i < entries.len() && is_slave(#[trigger] entries[i])
    ||| depth < FOLDER_SLAVE_DEPTH && exists|i: int|
        0 <= i < entries.len() && is_walked(#[trigger] entries[i]) && holds_a_slave(
            listing,
            dir.join(route_of(entries[i].name@)),
            depth + 1,
        )
}

/// What a search will come to: it has found a slave, or one lies under a
/// directory that is still to be looked into.
pub open spec fn will_find(
    listing: spec_fn(Route) -> Seq<Entry>,
    found: bool,
    pending: Seq<(Route, nat)>,
) -> bool {
    found || exists|i: int|
        0 <= i < pending.len() && holds_a_slave(
            listing,
            (#[trigger] pending[i]).0,
            pending[i].1,
        )
}

/// One of the first entries leads to a directory.
spec fn leads_to(entries: Seq<Entry>, dir: Route, depth: nat, n: int, task: (Route, nat)) -> bool {
    exists|i: int|
        0 <= i < n && is_walked(#[trigger] entries[i]) && task == (
            dir.join(route_of(entries[i].name@)),
            depth + 1,
        )
}

/// The directories that entries lead to are those of the walked entries.
proof fn lemma_walked(entries: Seq<Entry>, dir: Route, depth: nat, n: int)
    requires
        0 <= n <= entries.len(),
    ensures
        forall|j: int|
            0 <= j < walked(entries, dir, depth, n).len() ==> leads_to(
                entries,
                dir,
                depth,
                n,
                #[trigger] walked(entries, dir, depth, n)[j],
            ),
        forall|i: int|
            0 <= i < n && is_walked(#[trigger] entries[i]) ==> walked(
                entries,
                dir,
                depth,
                n,
            ).contains((dir.join(route_of(entries[i].name@)), depth + 1)),
    decreases n,
{
    if n > 0 {
        lemma_walked(entries, dir, depth, n - 1);
        let held = walked(entries, dir, depth, n - 1);
        let list = walked(entries, dir, depth, n);
        assert forall|j: int| 0 <= j < list.len() implies leads_to(
            entries,
            dir,
            depth,
            n,
            #[trigger] list[j],
        ) by {
            if j < held.len() {
                assert(list[j] == held[j]);
                assert(leads_to(entries, dir, depth, n - 1, held[j]));
            } else {
                assert(is_walked(entries[n - 1]));
            }
        }
        assert forall|i: int| 0 <= i < n && is_walked(#[trigger] entries[i]) implies list.contains(
            (dir.join(route_of(entries[i].name@)), depth + 1),
        ) by {
            let task = (dir.join(route_of(entries[i].name@)), depth + 1);
            if i < n - 1 {
                assert(held.contains(task));
                let k = choose|k: int| 0 <= k < held.len() && held[k] == task;
                assert(list[k] == task);
            } else {
                assert(list[list.len() - 1] == task);
            }
        }
    }
}

/// A search finds a slave where there is one, and only there: looking into a
/// directory changes nothing about what the search will come to. When nothing
/// is left to look into, what it has found is therefore the answer.
pub proof fn law_a_search_finds_what_is_there(
    listing: spec_fn(Route) -> Seq<Entry>,
    found: bool,
    rest: Seq<(Route, nat)>,
    dir: Route,
    depth: nat,
)
    requires
        depth <= FOLDER_SLAVE_DEPTH,
    ensures
        ({
            let entries = listing(dir);
            let slave = exists|i: int| 0 <= i < entries.len() && is_slave(#[trigger] entries[i]);
            let after = if depth < FOLDER_SLAVE_DEPTH && !slave {
                rest + walked(entries, dir, depth, entries.len() as int)
            } else {
                rest
            };
            will_find(listing, found, rest.push((dir, depth))) == will_find(
                listing,
                found || slave,
                after,
            )
        }),
        will_find(listing, found, Seq::empty()) == found,
{
    let entries = listing(dir);
    let n = entries.len() as int;
    let slave = exists|i: int| 0 <= i < entries.len() && is_slave(#[trigger] entries[i]);
    let more = walked(entries, dir, depth, n);
    let all = rest.push((dir, depth));
    let after = if depth < FOLDER_SLAVE_DEPTH && !slave {
        rest + more
    } else {
        rest
    };
    lemma_walked(entries, dir, depth, n);
    if will_find(listing, found, all) && !found && !slave {
        let i = choose|i: int|
            0 <= i < all.len() && holds_a_slave(listing, (#[trigger] all[i]).0, all[i].1);
        if i < rest.len() {
            assert(after[i] == all[i]);
        } else {
            let k = choose|k: int|
                0 <= k < entries.len() && is_walked(#[trigger] entries[k]) && holds_a_slave(
                    listing,
                    dir.join(route_of(entries[k].name@)),
                    depth + 1,
                );
            let task = (dir.join(route_of(entries[k].name@)), depth + 1);
            assert(more.contains(task));
            let j = choose|j: int| 0 <= j < more.len() && more[j] == task;
            assert(after[rest.len() + j] == task);
        }
    }
    if will_find(listing, found || slave, after) && !found {
        if slave {
            assert(all[rest.len() as int] == (dir, depth));
            assert(holds_a_slave(listing, dir, depth));
        } else {
            let i = choose|i: int|
                0 <= i < after.len() && holds_a_slave(listing, (#[trigger] after[i]).0, after[i].1);
            if i < rest.len() {
                assert(all[i] == after[i]);
            } else {
                assert(after[i] == more[i - rest.len()]);
                assert(leads_to(entries, dir, depth, n, more[i - rest.len()]));
                let k = choose|k: int|
                    0 <= k < n && is_walked(#[trigger] entries[k]) && more[i - rest.len()] == (
                        dir.join(route_of(entries[k].name@)),
                        depth + 1,
                    );
                assert(is_walked(entries[k]));
                assert(all[rest.len() as int] == (dir, depth));
                assert(holds_a_slave(listing, dir, depth));
            }
        }
    }
}

/// How many names a path has, its root among them.
pub open spec fn depth_of(path: Route) -> nat {
    path.parts.len() + (if path.absolute {
        1nat
    } else {
        0
    })
}

/// Shallower files come first, and then those whose names do, without regard
/// to case.
impl Ranked for HostPath {
    open spec fn better(self, other: HostPath) -> bool {
        if depth_of(self@) != depth_of(other@) {
            depth_of(self@) < depth_of(other@)
        } else {
            before(lowercase_text(self@.written()), lowercase_text(other@.written()))
        }
    }

    fn is_better(&self, other: &HostPath) -> (r: bool) {
        let a: u128 = self.parts.len() as u128 + (if self.absolute {
            1
        } else {
            0
        });
        let b: u128 = other.parts.len() as u128 + (if other.absolute {
            1
        } else {
            0
        });
        assert(self@.parts.len() == self.parts@.len());
        assert(other@.parts.len() == other.parts@.len());
        if a != b {
            return a < b;
        }
        let x = chars_of(lowercase(self.text().as_str()).as_str());
        let y = chars_of(lowercase(other.text().as_str()).as_str());
        comes_before(x.as_slice(), y.as_slice())
    }

    proof fn lemma_is_an_order(a: HostPath, b: HostPath, c: HostPath) {
        let x = lowercase_text(a@.written());
        let y = lowercase_text(b@.written());
        let z = lowercase_text(c@.written());
        lemma_before_is_an_order(x, y, z);
        lemma_before_is_an_order(z, y, x);
        lemma_before_is_an_order(y, z, x);
    }
}

/// The files of a folder in a settled order: shallowest first, then by name
/// without regard to case. A directory is read in whatever order the
/// filesystem has, and what identifies a package must not move with it.
pub fn walk(found: Vec<HostPath>) -> (r: Vec<HostPath>)
    ensures
        r@ == in_order(found@),
        ranked(r@),
        r@.to_multiset() == found@.to_multiset(),
{
    rank(found)
}

/// A package is told by what stands behind the last dot of its name, in any
/// case: `lha` and `lzh` are one kind, `zip` the other, and nothing else is
/// one. Without a dot nothing is.
pub proof fn law_packages_are_told_by_their_ending(front: Seq<char>, tail: Seq<char>)
    requires
        !tail.contains('.'),
    ensures
        lowered(tail) == "lha"@ || lowered(tail) == "lzh"@ ==> kind_of_name(front.push('.') + tail)
            == Some(Kind::Lha) && stem(front.push('.') + tail) == front,
        lowered(tail) == "zip"@ ==> kind_of_name(front.push('.') + tail) == Some(Kind::Zip) && stem(
            front.push('.') + tail,
        ) == front,
        lowered(tail) != "lha"@ && lowered(tail) != "lzh"@ && lowered(tail) != "zip"@
            ==> kind_of_name(front.push('.') + tail) is None && stem(front.push('.') + tail)
            == front.push('.') + tail,
        kind_of_name(tail) is None && stem(tail) == tail,
        names_a_slave(front.push('.') + tail) <==> lowered(tail) == "slave"@ || lowered(tail)
            == "slav"@,
        !names_a_slave(tail),
{
    reveal_strlit("lha");
    reveal_strlit("lzh");
    reveal_strlit("zip");
    let name = front.push('.') + tail;
    lemma_last_dot_of(front, tail);
    assert(name.skip(front.len() as int + 1) =~= tail);
    assert(name.take(front.len() as int) =~= front);
    assert("lha"@[1] == 'h' && "lzh"@[1] == 'z' && "zip"@[0] == 'z' && "lha"@[0] == 'l' && "lzh"@[0]
        == 'l');
}

proof fn lemma_last_dot_of(front: Seq<char>, tail: Seq<char>)
    requires
        !tail.contains('.'),
    ensures
        last_dot(front.push('.') + tail) == Some(front.len() as int),
        last_dot(tail) is None,
    decreases tail.len(),
{
    let name = front.push('.') + tail;
    if tail.len() > 0 {
        let less = tail.drop_last();
        assert(tail.contains(tail[tail.len() - 1]));
        assert(!less.contains('.')) by {
            if less.contains('.') {
                let i = choose|i: int| 0 <= i < less.len() && less[i] == '.';
                assert(tail[i] == '.');
            }
        }
        lemma_last_dot_of(front, less);
        assert(name.last() == tail.last());
        assert(name.drop_last() =~= front.push('.') + less);
    } else {
        assert(name =~= front.push('.'));
    }
}

/// A folder is walked for games unless it is hidden, or one of those that a
/// collection keeps other things in.
pub proof fn law_folders_of_other_things_are_passed_over(name: Seq<char>)
    ensures
        may_hold_games(name) <==> !(name.len() > 0 && name[0] == '.') && name != "__MACOSX"@ && name
            != "Cache"@ && name != "Save States"@ && name != "Saves"@,
{
    reveal_strlit(".git");
}

/// What another system adds to a package is no part of it.
pub proof fn law_added_files_are_left_out(path: Route, i: int)
    requires
        0 <= i < path.parts.len(),
    ensures
        path.parts[i] == "__MACOSX"@ || path.parts[i] == ".DS_Store"@ ==> rubbish(path),
        path.parts[i].len() >= 2 && path.parts[i][0] == '.' && path.parts[i][1] == '_' ==> rubbish(
            path,
        ),
        rubbish(path) ==> exists|j: int|
            #![trigger path.parts[j]]
            0 <= j < path.parts.len() && (path.parts[j] == "__MACOSX"@ || path.parts[j]
                == ".DS_Store"@ || (path.parts[j].len() >= 2 && path.parts[j][0] == '.'
                && path.parts[j][1] == '_')),
{
    reveal_strlit("._");
    let part = path.parts[i];
    if part.len() >= 2 && part[0] == '.' && part[1] == '_' {
        assert(part.take(2) =~= "._"@);
        assert(added_name(part));
    }
    if part == "__MACOSX"@ || part == ".DS_Store"@ {
        assert(added_name(part));
    }
    if rubbish(path) {
        let j = choose|j: int| 0 <= j < path.parts.len() && added_name(#[trigger] path.parts[j]);
        let p = path.parts[j];
        if has_prefix(p, "._"@) {
            assert(p.take(2)[0] == p[0] && p.take(2)[1] == p[1]);
        }
    }
}

/// A member's place is what its name says between slashes of either kind,
/// without what is empty or the place itself; a name that goes up or names a
/// volume has none, and neither has one that says nothing.
pub proof fn law_members_stand_where_they_say(name: Seq<char>)
    ensures
        ({
            let pieces = split(slashes(name), '/');
            &&& (exists|i: int|
                #![trigger pieces[i]]
                0 <= i < pieces.len() && (pieces[i] == seq!['.', '.'] || pieces[i].contains(':')))
                ==> member_of(name) is None
            &&& (forall|i: int|
                #![trigger pieces[i]]
                0 <= i < pieces.len() ==> pieces[i] != seq!['.', '.'] && !pieces[i].contains(':'))
                && said(pieces, pieces.len() as int).len() > 0 ==> member_of(name) == Some(
                Route { absolute: false, parts: said(pieces, pieces.len() as int) },
            )
            &&& said(pieces, 0) == Seq::<Seq<char>>::empty()
            &&& forall|n: int|
                #![trigger said(pieces, n)]
                0 < n <= pieces.len() ==> said(pieces, n) == (if pieces[n - 1].len() == 0 || pieces[n
                    - 1] == seq!['.'] {
                    said(pieces, n - 1)
                } else {
                    said(pieces, n - 1).push(pieces[n - 1])
                })
        }),
        slashes(name).len() == name.len(),
        forall|i: int|
            0 <= i < name.len() ==> slashes(name)[i] == (if #[trigger] name[i] == '\\' {
                '/'
            } else {
                name[i]
            }),
{
    let pieces = split(slashes(name), '/');
    if exists|i: int|
        #![trigger pieces[i]]
        0 <= i < pieces.len() && (pieces[i] == seq!['.', '.'] || pieces[i].contains(':')) {
        let i = choose|i: int|
            #![trigger pieces[i]]
            0 <= i < pieces.len() && (pieces[i] == seq!['.', '.'] || pieces[i].contains(':'));
        assert(leaves(pieces[i]));
    }
    if forall|i: int|
        #![trigger pieces[i]]
        0 <= i < pieces.len() ==> pieces[i] != seq!['.', '.'] && !pieces[i].contains(':') {
        assert forall|i: int| 0 <= i < pieces.len() implies !leaves(#[trigger] pieces[i]) by {}
    }
}

/// Unpacking brings out every file that belongs to the package, in its order
/// and under the destination, and nothing else.
pub proof fn law_unpacking_brings_out_the_files(
    members: Seq<StoredMember>,
    dest: Route,
    n: int,
)
    requires
        0 < n <= members.len(),
    ensures
        unpacked(members, dest, 0) == Seq::<(int, Route)>::empty(),
        !members[n - 1].is_dir ==> (member_of(members[n - 1].name@) matches Some(path)
            ==> if rubbish(path) {
            unpacked(members, dest, n) == unpacked(members, dest, n - 1)
        } else {
            unpacked(members, dest, n) == unpacked(members, dest, n - 1).push(
                (n - 1, dest.join(path)),
            )
        }),
        members[n - 1].is_dir || member_of(members[n - 1].name@) is None ==> unpacked(
            members,
            dest,
            n,
        ) == unpacked(members, dest, n - 1),
        members[n - 1].is_dir ==> files_of(members, n) == files_of(members, n - 1),
        !members[n - 1].is_dir ==> (member_of(members[n - 1].name@) matches Some(path) ==> files_of(
            members,
            n,
        ) == files_of(members, n - 1).push(path)),
{
}

/// What is listed of a package is all that belongs to it, in its order.
pub proof fn law_listings_leave_out_what_was_added(all: Seq<Route>, n: int)
    requires
        0 < n <= all.len(),
    ensures
        wanted(all, 0) == Seq::<Route>::empty(),
        wanted(all, n) == (if rubbish(all[n - 1]) {
            wanted(all, n - 1)
        } else {
            wanted(all, n - 1).push(all[n - 1])
        }),
{
}

/// A slave is a file with its ending that was not added by another system; a
/// folder is entered that may hold games, one level down and no further than
/// three.
pub proof fn law_searches_enter_folders(
    entries: Seq<Entry>,
    dir: Route,
    depth: nat,
    n: int,
    listing: spec_fn(Route) -> Seq<Entry>,
)
    requires
        0 < n <= entries.len(),
    ensures
        is_slave(entries[n - 1]) <==> entries[n - 1].kind == EntryKind::File && !has_prefix(
            entries[n - 1].name@,
            "._"@,
        ) && names_a_slave(entries[n - 1].name@),
        walked(entries, dir, depth, n) == (if entries[n - 1].kind == EntryKind::Folder
            && !has_prefix(entries[n - 1].name@, "._"@) && may_hold_games(entries[n - 1].name@) {
            walked(entries, dir, depth, n - 1).push(
                (dir.join(route_of(entries[n - 1].name@)), depth + 1),
            )
        } else {
            walked(entries, dir, depth, n - 1)
        }),
        depth >= 3 ==> (holds_a_slave(listing, dir, depth) <==> exists|i: int|
            0 <= i < listing(dir).len() && is_slave(#[trigger] listing(dir)[i])),
        depth < 3 ==> forall|i: int|
            0 <= i < listing(dir).len() && is_walked(#[trigger] listing(dir)[i]) && holds_a_slave(
                listing,
                dir.join(route_of(listing(dir)[i].name@)),
                depth + 1,
            ) ==> holds_a_slave(listing, dir, depth),
{
}

/// A path comes before another where it has fewer parts, and by its letters
/// in lower case where it has as many.
pub proof fn law_shallow_paths_come_first(a: HostPath, b: HostPath)
    requires
        a@.absolute == b@.absolute,
    ensures
        a@.parts.len() < b@.parts.len() ==> a.better(b) && !b.better(a),
        a@.parts.len() == b@.parts.len() ==> (a.better(b) <==> before(
            lowercase_text(a@.written()),
            lowercase_text(b@.written()),
        )),
{
}

/// A relative name is taken without the slashes in front of it.
pub proof fn law_slashes_in_front_are_dropped(s: Seq<char>)
    ensures
        leading_slashes(seq!['/'] + s) == 1 + leading_slashes(s),
        s.len() > 0 && s[0] != '/' ==> leading_slashes(s) == 0,
        leading_slashes(Seq::empty()) == 0,
{
    assert((seq!['/'] + s).skip(1) =~= s);
}

} // verus!
