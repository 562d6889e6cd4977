//! Host paths as lists of names.
//!
//! A path is absolute or not, and otherwise the names on the way to it.
//! Written out, the names are parted by slashes; empty names and names that
//! stay where they are do not count, except for a leading one of a relative
//! path. How a host writes its paths is the host's affair: one of its own comes
//! in its parts, with its drive or share as the first name where it has one.
use vstd::prelude::*;
use crate::text::{
    chars_of, push_text, same_chars, spells, split, split_text, text_of, texts,
};

verus! {

/// A path on the host.
#[derive(Clone, Debug, PartialEq, Eq)]
pub struct HostPath {
    pub absolute: bool,
    pub parts: Vec<String>,
}

/// What a path says.
pub struct Route {
    pub absolute: bool,
    pub parts: Seq<Seq<char>>,
}

/// The texts of names.
pub open spec fn names(list: Seq<String>) -> Seq<Seq<char>> {
    list.map_values(|s: String| s@)
}

impl View for HostPath {
    type V = Route;

    open spec fn view(&self) -> Route {
        Route { absolute: self.absolute, parts: names(self.parts@) }
    }
}

/// The name that stays where it is.
pub open spec fn here() -> Seq<char> {
    seq!['.']
}

/// The name that goes up.
pub open spec fn up() -> Seq<char> {
    seq!['.', '.']
}

/// A piece of a written path is a name of it.
pub open spec fn counts(pieces: Seq<Seq<char>>, i: int) -> bool {
    pieces[i].len() > 0 && (pieces[i] != here() || i == 0)
}

/// The names among the first pieces of a written path.
pub open spec fn kept(pieces: Seq<Seq<char>>, n: int) -> Seq<Seq<char>>
    decreases n,
{
    if n <= 0 {
        Seq::empty()
    } else if counts(pieces, n - 1) {
        kept(pieces, n - 1).push(pieces[n - 1])
    } else {
        kept(pieces, n - 1)
    }
}

/// The path that a host's own path makes, from its drive or share, whether it
/// begins at the root, and its names. One with a drive stands for itself, as
/// an absolute one does; where it does not begin at the drive's root, its first
/// name stands directly behind the drive.
pub open spec fn route_from(drive: Seq<char>, rooted: bool, list: Seq<Seq<char>>) -> Route {
    if drive.len() == 0 {
        Route { absolute: rooted, parts: list }
    } else if rooted {
        Route { absolute: true, parts: seq![drive] + list }
    } else if list.len() == 0 {
        Route { absolute: true, parts: seq![drive + here()] }
    } else {
        Route { absolute: true, parts: seq![drive + list[0]] + list.drop_first() }
    }
}

/// Names as a host hands them over: none is empty or holds a slash, and only the
/// first of a path that begins nowhere in particular stays where it is.
pub open spec fn handed_over(drive: Seq<char>, rooted: bool, list: Seq<Seq<char>>) -> bool {
    &&& !drive.contains('/')
    &&& forall|i: int|
        0 <= i < list.len() ==> (#[trigger] list[i]).len() > 0 && !list[i].contains('/') && (
        list[i] == here() ==> i == 0 && !rooted)
}

/// The path that a text writes.
pub open spec fn route_of(text: Seq<char>) -> Route {
    let pieces = split(text, '/');
    Route { absolute: text.len() > 0 && text[0] == '/', parts: kept(pieces, pieces.len() as int) }
}

/// Names with slashes between them.
pub open spec fn slashed(parts: Seq<Seq<char>>) -> Seq<char>
    decreases parts.len(),
{
    if parts.len() == 0 {
        Seq::empty()
    } else if parts.len() == 1 {
        parts[0]
    } else {
        slashed(parts.drop_last()).push('/') + parts.last()
    }
}

impl Route {
    /// Names are names, and only a relative path begins where it is.
    pub open spec fn wf(self) -> bool {
        forall|i: int|
            0 <= i < self.parts.len() ==> (#[trigger] self.parts[i]).len() > 0
                && !self.parts[i].contains('/') && (self.parts[i] == here() ==> i == 0
                && !self.absolute)
    }

    /// A path written out.
    pub open spec fn written(self) -> Seq<char> {
        if self.absolute {
            seq!['/'] + slashed(self.parts)
        } else {
            slashed(self.parts)
        }
    }

    /// A path taken from this one: an absolute one stands for itself.
    pub open spec fn join(self, other: Route) -> Route {
        if other.absolute {
            other
        } else if other.parts.len() > 0 && other.parts[0] == here() && (self.absolute
            || self.parts.len() > 0) {
            Route { absolute: self.absolute, parts: self.parts + other.parts.drop_first() }
        } else {
            Route { absolute: self.absolute, parts: self.parts + other.parts }
        }
    }

    /// This path is the other or leads through it.
    pub open spec fn starts_with(self, root: Route) -> bool {
        if root.parts.len() == 0 && !root.absolute {
            true
        } else {
            &&& self.absolute == root.absolute
            &&& root.parts.len() <= self.parts.len()
            &&& self.parts.take(root.parts.len() as int) == root.parts
        }
    }

    /// The path without its last name.
    pub open spec fn parent(self) -> Option<Route> {
        if self.parts.len() == 0 {
            None
        } else {
            Some(Route { absolute: self.absolute, parts: self.parts.drop_last() })
        }
    }

    /// The last name, where it names something.
    pub open spec fn file_name(self) -> Option<Seq<char>> {
        if self.parts.len() == 0 || self.parts.last() == here() || self.parts.last() == up() {
            None
        } else {
            Some(self.parts.last())
        }
    }
}

impl HostPath {
    /// The path that a host's own path makes.
    pub fn from_host(drive: &str, rooted: bool, list: Vec<String>) -> (r: HostPath)
        ensures
            r@ == route_from(drive@, rooted, names(list@)),
            handed_over(drive@, rooted, names(list@)) && drive@ != here() ==> r@.wf(),
    {
        proof {
            lemma_handed_over_paths_are_sound(drive@, rooted, names(list@));
        }
        let prefix = chars_of(drive);
        if prefix.len() == 0 {
            return HostPath { absolute: rooted, parts: list };
        }
        let mut first: Vec<char> = Vec::new();
        push_text(&mut first, drive);
        assert(first@ =~= drive@);
        let mut next: usize = 0;
        if !rooted {
            if list.len() == 0 {
                push_text(&mut first, ".");
                proof {
                    reveal_strlit(".");
                    assert("."@ =~= here());
                }
            } else {
                push_text(&mut first, list[0].as_str());
                next = 1;
            }
        }
        let mut parts: Vec<String> = Vec::new();
        parts.push(text_of(first.as_slice()));
        copy_parts(&mut parts, &list, next, list.len());
        assert(names(parts@) =~= route_from(drive@, rooted, names(list@)).parts);
        HostPath { absolute: true, parts }
    }

    /// The path that a text writes.
    pub fn parse(text: &str) -> (r: HostPath)
        ensures
            r@ == route_of(text@),
            r@.wf(),
    {
        let chars = chars_of(text);
        let absolute = chars.len() > 0 && chars[0] == '/';
        let pieces = split_text(chars.as_slice(), '/');
        let ghost views = split(text@, '/');
        let mut parts: Vec<String> = Vec::new();
        let mut i: usize = 0;
        proof {
            assert(texts(pieces@).len() == pieces@.len());
            assert(names(parts@) =~= kept(views, 0));
        }
        while i < pieces.len()
            invariant
                i <= pieces@.len(),
                pieces@.len() == views.len(),
                texts(pieces@) == views,
                names(parts@) == kept(views, i as int),
            decreases pieces@.len() - i,
        {
            assert(pieces@[i as int]@ == views[i as int]);
            proof {
                reveal_strlit(".");
                assert("."@ =~= here());
            }
            let ghost before = parts@;
            if pieces[i].len() > 0 && (i == 0 || !spells(pieces[i].as_slice(), ".")) {
                let name = text_of(pieces[i].as_slice());
                parts.push(name);
                assert(names(parts@) =~= names(before).push(views[i as int]));
            }
            i += 1;
        }
        let r = HostPath { absolute, parts };
        proof {
            lemma_read_paths_are_sound(text@);
        }
        r
    }

    /// The path written out.
    pub fn text(&self) -> (r: String)
        ensures
            r@ == self@.written(),
    {
        let mut out: Vec<char> = Vec::new();
        if self.absolute {
            out.push('/');
        }
        let ghost start = out@;
        let ghost parts = names(self.parts@);
        let mut i: usize = 0;
        proof {
            assert(parts.take(0) =~= Seq::empty());
            assert(start + slashed(parts.take(0)) =~= start);
        }
        while i < self.parts.len()
            invariant
                i <= self.parts@.len(),
                parts == names(self.parts@),
                out@ == start + slashed(parts.take(i as int)),
            decreases self.parts@.len() - i,
        {
            proof {
                let taken = parts.take(i + 1);
                assert(taken.drop_last() =~= parts.take(i as int));
                assert(taken.last() == self.parts@[i as int]@);
            }
            let ghost before = out@;
            if i > 0 {
                out.push('/');
            }
            push_text(&mut out, self.parts[i].as_str());
            assert(out@ =~= start + slashed(parts.take(i + 1)));
            i += 1;
        }
        assert(parts.take(i as int) =~= parts);
        assert(out@ =~= self@.written());
        text_of(out.as_slice())
    }

    /// A copy of a path.
    pub fn copy(&self) -> (r: HostPath)
        ensures
            r@ == self@,
    {
        let mut parts: Vec<String> = Vec::new();
        copy_parts(&mut parts, &self.parts, 0, self.parts.len());
        assert(names(parts@) =~= names(self.parts@));
        HostPath { absolute: self.absolute, parts }
    }

    /// A path taken from this one.
    pub fn join(&self, other: &HostPath) -> (r: HostPath)
        ensures
            r@ == self@.join(other@),
            self@.wf() && other@.wf() ==> r@.wf(),
    {
        proof {
            lemma_joined_paths_are_sound(self@, other@);
            assert(forall|i: int|
                0 <= i < other.parts@.len() ==> #[trigger] other@.parts[i] == other.parts@[i]@);
        }
        if other.absolute {
            return other.copy();
        }
        let mut parts: Vec<String> = Vec::new();
        copy_parts(&mut parts, &self.parts, 0, self.parts.len());
        let skip: usize = if other.parts.len() > 0 && is_here(other.parts[0].as_str()) && (
        self.absolute || self.parts.len() > 0) {
            1
        } else {
            0
        };
        copy_parts(&mut parts, &other.parts, skip, other.parts.len());
        let r = HostPath { absolute: self.absolute, parts };
        assert(r@.parts =~= self@.join(other@).parts);
        r
    }

    /// The path that a text writes, taken from this one.
    pub fn child(&self, name: &str) -> (r: HostPath)
        ensures
            r@ == self@.join(route_of(name@)),
            self@.wf() ==> r@.wf(),
    {
        let other = HostPath::parse(name);
        self.join(&other)
    }

    /// Whether this path is the other or leads through it.
    pub fn starts_with(&self, root: &HostPath) -> (r: bool)
        ensures
            r == self@.starts_with(root@),
    {
        if root.parts.len() == 0 && !root.absolute {
            return true;
        }
        if self.absolute != root.absolute || root.parts.len() > self.parts.len() {
            return false;
        }
        let ghost taken = self@.parts.take(root.parts@.len() as int);
        let mut i: usize = 0;
        while i < root.parts.len()
            invariant
                i <= root.parts@.len(),
                root.parts@.len() <= self.parts@.len(),
                taken == self@.parts.take(root.parts@.len() as int),
                forall|j: int| 0 <= j < i ==> #[trigger] taken[j] == root@.parts[j],
            decreases root.parts@.len() - i,
        {
            let a = chars_of(self.parts[i].as_str());
            let b = chars_of(root.parts[i].as_str());
            assert(taken[i as int] == self.parts@[i as int]@);
            assert(root@.parts[i as int] == root.parts@[i as int]@);
            if !same_chars(a.as_slice(), b.as_slice()) {
                return false;
            }
            i += 1;
        }
        assert(taken =~= root@.parts);
        true
    }

    /// Whether two paths are the same.
    pub fn same(&self, other: &HostPath) -> (r: bool)
        ensures
            r == (self@ == other@),
    {
        if self.absolute != other.absolute || self.parts.len() != other.parts.len() {
            assert(self@.parts.len() == self.parts@.len());
            assert(other@.parts.len() == other.parts@.len());
            return false;
        }
        let mut i: usize = 0;
        while i < self.parts.len()
            invariant
                i <= self.parts@.len(),
                self.parts@.len() == other.parts@.len(),
                forall|j: int| 0 <= j < i ==> #[trigger] self@.parts[j] == other@.parts[j],
            decreases self.parts@.len() - i,
        {
            let a = chars_of(self.parts[i].as_str());
            let b = chars_of(other.parts[i].as_str());
            assert(self@.parts[i as int] == self.parts@[i as int]@);
            assert(other@.parts[i as int] == other.parts@[i as int]@);
            if !same_chars(a.as_slice(), b.as_slice()) {
                return false;
            }
            i += 1;
        }
        assert(self@.parts =~= other@.parts);
        true
    }

    /// The path without its last name.
    pub fn parent(&self) -> (r: Option<HostPath>)
        ensures
            match r {
                Some(p) => self@.parent() == Some(p@) && (self@.wf() ==> p@.wf()),
                None => self@.parent() is None,
            },
    {
        if self.parts.len() == 0 {
            return None;
        }
        let mut parts: Vec<String> = Vec::new();
        copy_parts(&mut parts, &self.parts, 0, self.parts.len() - 1);
        let p = HostPath { absolute: self.absolute, parts };
        assert(p@.parts =~= self@.parts.drop_last());
        assert(self@.wf() ==> p@.wf()) by {
            assert(forall|i: int| 0 <= i < p@.parts.len() ==> #[trigger] p@.parts[i] == self@.parts[i]);
        }
        Some(p)
    }

    /// The last name, where it names something.
    pub fn file_name(&self) -> (r: Option<&str>)
        ensures
            match r {
                Some(name) => self@.file_name() == Some(name@),
                None => self@.file_name() is None,
            },
    {
        if self.parts.len() == 0 {
            return None;
        }
        let last = self.parts[self.parts.len() - 1].as_str();
        assert(self@.parts.last() == last@);
        if is_here(last) || is_up(last) {
            None
        } else {
            Some(last)
        }
    }
}

fn is_here(name: &str) -> (r: bool)
    ensures
        r == (name@ == here()),
{
    proof {
        reveal_strlit(".");
        assert("."@ =~= here());
    }
    spells(chars_of(name).as_slice(), ".")
}

fn is_up(name: &str) -> (r: bool)
    ensures
        r == (name@ == up()),
{
    proof {
        reveal_strlit("..");
        assert(".."@ =~= up());
    }
    spells(chars_of(name).as_slice(), "..")
}

/// Append copies of some names.
fn copy_parts(out: &mut Vec<String>, parts: &Vec<String>, from: usize, to: usize)
    requires
        from <= to <= parts@.len(),
    ensures
        names(final(out)@) == names(old(out)@) + names(parts@).subrange(from as int, to as int),
        final(out)@.len() == old(out)@.len() + (to - from),
{
    let ghost start = names(out@);
    let ghost all = names(parts@);
    let mut i: usize = from;
    proof {
        assert(start + all.subrange(from as int, from as int) =~= start);
    }
    while i < to
        invariant
            from <= i <= to <= parts@.len(),
            all == names(parts@),
            out@.len() == start.len() + (i - from),
            names(out@) == start + all.subrange(from as int, i as int),
        decreases to - i,
    {
        let ghost before = out@;
        let name = parts[i].clone();
        out.push(name);
        proof {
            assert(all[i as int] == parts@[i as int]@);
            assert(names(out@) =~= names(before).push(all[i as int]));
            assert(all.subrange(from as int, i + 1) =~= all.subrange(from as int, i as int).push(
                all[i as int],
            ));
            assert(names(out@) =~= start + all.subrange(from as int, i + 1));
        }
        i += 1;
    }
}

proof fn lemma_kept_are_pieces(pieces: Seq<Seq<char>>, n: int)
    requires
        0 <= n <= pieces.len(),
        forall|i: int| 0 <= i < pieces.len() ==> !(#[trigger] pieces[i]).contains('/'),
    ensures
        forall|j: int|
            0 <= j < kept(pieces, n).len() ==> (#[trigger] kept(pieces, n)[j]).len() > 0
                && !kept(pieces, n)[j].contains('/') && (kept(pieces, n)[j] == here() ==> j == 0
                && pieces[0].len() > 0),
    decreases n,
{
    if n > 0 {
        lemma_kept_are_pieces(pieces, n - 1);
        let before = kept(pieces, n - 1);
        if n == 1 {
            assert(before =~= Seq::empty());
        }
        assert forall|j: int| 0 <= j < kept(pieces, n).len() implies (#[trigger] kept(
            pieces,
            n,
        )[j]).len() > 0 && !kept(pieces, n)[j].contains('/') && (kept(pieces, n)[j] == here()
            ==> j == 0 && pieces[0].len() > 0) by {
            if j < before.len() {
                assert(kept(pieces, n)[j] == before[j]);
            } else {
                assert(kept(pieces, n)[j] == pieces[n - 1]);
            }
        }
    }
}

/// What is read is a sound path.
pub proof fn lemma_read_paths_are_sound(text: Seq<char>)
    ensures
        route_of(text).wf(),
{
    let pieces = split(text, '/');
    crate::text::lemma_split_len(text, '/');
    crate::text::lemma_pieces_are_whole(text, '/');
    lemma_kept_are_pieces(pieces, pieces.len() as int);
    if text.len() > 0 && text[0] == '/' {
        let rest = text.skip(1);
        assert(text =~= Seq::<char>::empty().push('/') + rest);
        crate::text::lemma_split_parts(Seq::empty(), rest, '/');
        assert(split(Seq::<char>::empty(), '/') =~= seq![Seq::<char>::empty()]);
        assert(pieces[0] == Seq::<char>::empty());
    }
}

/// Joining sound paths gives a sound path.
pub proof fn lemma_joined_paths_are_sound(a: Route, b: Route)
    ensures
        a.wf() && b.wf() ==> a.join(b).wf(),
{
    if a.wf() && b.wf() && !b.absolute {
        let joined = a.join(b);
        let skip: int = if b.parts.len() > 0 && b.parts[0] == here() && (a.absolute
            || a.parts.len() > 0) {
            1
        } else {
            0
        };
        assert forall|i: int| 0 <= i < joined.parts.len() implies (#[trigger] joined.parts[i]).len()
            > 0 && !joined.parts[i].contains('/') && (joined.parts[i] == here() ==> i == 0
            && !joined.absolute) by {
            if i < a.parts.len() {
                assert(joined.parts[i] == a.parts[i]);
            } else {
                assert(joined.parts[i] == b.parts[i - a.parts.len() + skip]);
            }
        }
    }
}

proof fn lemma_slashed_splits(parts: Seq<Seq<char>>)
    requires
        parts.len() > 0,
        forall|i: int| 0 <= i < parts.len() ==> !(#[trigger] parts[i]).contains('/'),
    ensures
        split(slashed(parts), '/') == parts,
    decreases parts.len(),
{
    let last = parts.last();
    assert(!parts[parts.len() - 1].contains('/'));
    crate::text::lemma_split_whole(last, '/');
    if parts.len() == 1 {
        assert(parts =~= seq![last]);
    } else {
        let first = parts.drop_last();
        assert forall|i: int| 0 <= i < first.len() implies !(#[trigger] first[i]).contains('/') by {
            assert(first[i] == parts[i]);
        }
        lemma_slashed_splits(first);
        crate::text::lemma_split_parts(slashed(first), last, '/');
        assert(parts =~= first + seq![last]);
    }
}

proof fn lemma_all_kept(pieces: Seq<Seq<char>>, from: int, n: int)
    requires
        0 <= from <= n <= pieces.len(),
        from <= 1,
        from == 1 ==> pieces[0].len() == 0,
        forall|i: int| from <= i < n ==> counts(pieces, i),
    ensures
        kept(pieces, n) == pieces.subrange(from, n),
    decreases n,
{
    if n > from {
        lemma_all_kept(pieces, from, n - 1);
        assert(counts(pieces, n - 1));
        assert(pieces.subrange(from, n - 1).push(pieces[n - 1]) =~= pieces.subrange(from, n));
    } else {
        assert(pieces.subrange(from, n) =~= Seq::empty());
        if n == 1 {
            assert(kept(pieces, 0) =~= Seq::empty());
        }
    }
}

/// A path that is written out and read again is the same path.
pub proof fn law_paths_read_back(p: Route)
    requires
        p.wf(),
    ensures
        route_of(p.written()) == p,
{
    let text = p.written();
    let pieces = split(text, '/');
    if p.parts.len() == 0 {
        if p.absolute {
            assert(text =~= Seq::<char>::empty().push('/') + Seq::<char>::empty());
            crate::text::lemma_split_parts(Seq::empty(), Seq::empty(), '/');
            assert(split(Seq::<char>::empty(), '/') =~= seq![Seq::<char>::empty()]);
            assert(pieces.len() == 2);
            assert(pieces[0].len() == 0 && pieces[1].len() == 0);
            assert(kept(pieces, 0) =~= Seq::empty());
            assert(kept(pieces, 1) =~= Seq::empty());
            assert(kept(pieces, 2) =~= Seq::empty());
        } else {
            assert(text =~= Seq::empty());
            assert(pieces =~= seq![Seq::<char>::empty()]);
            assert(kept(pieces, 0) =~= Seq::empty());
            assert(kept(pieces, 1) =~= Seq::empty());
        }
        assert(p.parts =~= Seq::empty());
    } else {
        lemma_slashed_splits(p.parts);
        assert(p.parts[0].len() > 0);
        lemma_slashed_begins(p.parts);
        if p.absolute {
            assert(text =~= Seq::<char>::empty().push('/') + slashed(p.parts));
            crate::text::lemma_split_parts(Seq::empty(), slashed(p.parts), '/');
            assert(split(Seq::<char>::empty(), '/') =~= seq![Seq::<char>::empty()]);
            assert(pieces =~= seq![Seq::<char>::empty()] + p.parts);
            assert forall|i: int| 1 <= i < pieces.len() implies counts(pieces, i) by {
                assert(pieces[i] == p.parts[i - 1]);
            }
            lemma_all_kept(pieces, 1, pieces.len() as int);
            assert(pieces.subrange(1, pieces.len() as int) =~= p.parts);
        } else {
            assert forall|i: int| 0 <= i < pieces.len() implies counts(pieces, i) by {
                assert(pieces[i] == p.parts[i]);
            }
            lemma_all_kept(pieces, 0, pieces.len() as int);
            assert(pieces.subrange(0, pieces.len() as int) =~= p.parts);
            assert(p.parts[0][0] != '/') by {
                assert(p.parts[0].contains(p.parts[0][0]));
            }
        }
    }
}

proof fn lemma_slashed_begins(parts: Seq<Seq<char>>)
    requires
        parts.len() > 0,
        parts[0].len() > 0,
    ensures
        slashed(parts).len() > 0,
        slashed(parts)[0] == parts[0][0],
    decreases parts.len(),
{
    if parts.len() > 1 {
        assert(parts.drop_last()[0] == parts[0]);
        lemma_slashed_begins(parts.drop_last());
    }
}

/// What is taken from a path stays under it, unless it is absolute.
pub proof fn law_relative_paths_stay_under(root: Route, other: Route)
    requires
        !other.absolute,
    ensures
        root.join(other).starts_with(root),
{
    let joined = root.join(other);
    assert(joined.parts.take(root.parts.len() as int) =~= root.parts);
}

proof fn lemma_handed_over_paths_are_sound(drive: Seq<char>, rooted: bool, list: Seq<Seq<char>>)
    ensures
        handed_over(drive, rooted, list) && drive != here() ==> route_from(
            drive,
            rooted,
            list,
        ).wf(),
{
    if handed_over(drive, rooted, list) && drive != here() && drive.len() > 0 {
        let r = route_from(drive, rooted, list);
        assert forall|i: int| 0 <= i < r.parts.len() implies (#[trigger] r.parts[i]).len() > 0
            && !r.parts[i].contains('/') && (r.parts[i] == here() ==> i == 0 && !r.absolute) by {
            let joined = drive + here();
            assert(joined.len() == drive.len() + 1);
            assert(joined[drive.len() as int] == '.');
            if i > 0 {
                let j = if rooted {
                    i - 1
                } else {
                    i
                };
                assert(r.parts[i] == list[j]);
            } else if !rooted && list.len() > 0 {
                let first = drive + list[0];
                assert(list[0].len() > 0);
                if first.contains('/') {
                    let k = choose|k: int| 0 <= k < first.len() && first[k] == '/';
                    if k < drive.len() {
                        assert(drive[k] == '/');
                    } else {
                        assert(list[0][k - drive.len()] == '/');
                    }
                }
            } else if !rooted {
                if joined.contains('/') {
                    let k = choose|k: int| 0 <= k < joined.len() && joined[k] == '/';
                    assert(drive[k] == '/');
                }
            }
        }
    }
}

/// A path of the host that begins at a root or names its drive is taken as it
/// stands, whatever directory it is taken from.
pub proof fn law_rooted_paths_stand_for_themselves(
    base: Route,
    drive: Seq<char>,
    rooted: bool,
    list: Seq<Seq<char>>,
)
    requires
        rooted || drive.len() > 0,
    ensures
        base.join(route_from(drive, rooted, list)) == route_from(drive, rooted, list),
{
}

/// Joining: a path with a root stands for itself; any other follows the first,
/// part by part, without a leading `.` where something is before it.
pub proof fn law_joined_paths_follow(a: Route, b: Route)
    ensures
        b.absolute ==> a.join(b) == b,
        !b.absolute ==> a.join(b).absolute == a.absolute,
        !b.absolute && (b.parts.len() == 0 || b.parts[0] != seq!['.']) ==> a.join(b).parts == a.parts
            + b.parts,
        !b.absolute && b.parts.len() > 0 && b.parts[0] == seq!['.'] && (a.absolute || a.parts.len()
            > 0) ==> a.join(b).parts == a.parts + b.parts.skip(1),
        !b.absolute && !a.absolute && a.parts.len() == 0 ==> a.join(b).parts == b.parts,
{
    if b.parts.len() > 0 {
        assert(b.parts.drop_first() =~= b.parts.skip(1));
    }
    if a.parts.len() == 0 {
        assert(a.parts + b.parts =~= b.parts);
    }
}

/// A path's parent and its name: the path without its last part, and that
/// part, where it names something and not the place itself or the one above.
pub proof fn law_parents_hold_their_names(p: Route, name: Seq<char>)
    ensures
        (Route { absolute: p.absolute, parts: p.parts.push(name) }).parent() == Some(p),
        name != seq!['.'] && name != seq!['.', '.'] ==> (Route {
            absolute: p.absolute,
            parts: p.parts.push(name),
        }).file_name() == Some(name),
        (Route { absolute: p.absolute, parts: p.parts.push(seq!['.', '.']) }).file_name() is None,
        p.parts.len() == 0 ==> p.parent() is None && p.file_name() is None,
{
    assert(p.parts.push(name).drop_last() =~= p.parts);
}

/// A path is under another where it goes on from it: with the same root, and
/// the other's parts first.
pub proof fn law_paths_under_another_go_on_from_it(root: Route, more: Seq<Seq<char>>)
    ensures
        (Route { absolute: root.absolute, parts: root.parts + more }).starts_with(root),
        root.absolute ==> !(Route { absolute: false, parts: root.parts + more }).starts_with(root),
        !root.absolute && root.parts.len() > 0 ==> !(Route {
            absolute: true,
            parts: root.parts + more,
        }).starts_with(root),
        forall|p: Route| #[trigger]
            p.starts_with(root) && (root.absolute || root.parts.len() > 0) ==> p.absolute
                == root.absolute && p.parts.len() >= root.parts.len() && forall|i: int|
                0 <= i < root.parts.len() ==> p.parts[i] == #[trigger] root.parts[i],
{
    assert((root.parts + more).take(root.parts.len() as int) =~= root.parts);
    assert forall|p: Route| #[trigger]
        p.starts_with(root) && (root.absolute || root.parts.len() > 0) implies p.absolute
        == root.absolute && p.parts.len() >= root.parts.len() && forall|i: int|
        0 <= i < root.parts.len() ==> p.parts[i] == #[trigger] root.parts[i] by {
        assert forall|i: int| 0 <= i < root.parts.len() implies p.parts[i]
            == #[trigger] root.parts[i] by {
            assert(p.parts.take(root.parts.len() as int)[i] == p.parts[i]);
        }
    }
}

/// A text is a path with a root where it begins with a slash; its parts are
/// what stands between slashes, without what is empty and without a `.` but
/// in front.
pub proof fn law_texts_are_paths(text: Seq<char>)
    ensures
        route_of(text).absolute <==> text.len() > 0 && text[0] == '/',
        forall|n: int|
            #![trigger kept(split(text, '/'), n)]
            0 < n <= split(text, '/').len() ==> {
                let piece = split(text, '/')[n - 1];
                kept(split(text, '/'), n) == (if piece.len() == 0 || (piece == seq!['.'] && n > 1) {
                    kept(split(text, '/'), n - 1)
                } else {
                    kept(split(text, '/'), n - 1).push(piece)
                })
            },
        route_of(text).parts == kept(split(text, '/'), split(text, '/').len() as int),
{
}

/// A path is written with slashes between its parts, and one in front where
/// it has a root.
pub proof fn law_paths_are_written_with_slashes(p: Route, part: Seq<char>)
    requires
        p.parts.len() > 0,
    ensures
        slashed(Seq::empty()) == Seq::<char>::empty(),
        slashed(seq![part]) == part,
        slashed(p.parts.push(part)) == slashed(p.parts) + seq!['/'] + part,
        p.absolute ==> p.written() == seq!['/'] + slashed(p.parts),
        !p.absolute ==> p.written() == slashed(p.parts),
{
    assert(p.parts.push(part).drop_last() =~= p.parts);
    assert(slashed(p.parts.push(part)) =~= slashed(p.parts) + seq!['/'] + part);
}

} // verus!
