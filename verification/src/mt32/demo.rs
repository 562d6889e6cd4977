//! The demonstration songs that the later control ROMs carry.
//!
//! The songs are ordinary MIDI with running status. Every message has a byte
//! before it that says how many ticks to wait. A song also carries the
//! settings it wants: its reverb, its rhythm kit, and the timbres and patches
//! it was written with.
use vstd::prelude::*;
use crate::bytes::{copy_range, le_value, push_all};
use crate::mt32::reply::{block_of, dt1, DEVICE};
use crate::text::{chars_of, text_of, trim, trimmed};

verus! {

/// Only images of this size carry songs.
pub const ROM_SIZE: usize = 0x2_0000;

/// Where the songs are listed, and how many there are.
pub const SONG_REFS: usize = 0x86e0;

pub const SONG_COUNT: usize = 5;

/// Where the timbres are listed, and how many there are.
pub const TIMBRE_ADDRESSES: usize = 0x8700;

pub const TIMBRE_COUNT: usize = 22;

pub const PATCH_TABLE_LOW: usize = 0x8800;

pub const PATCH_TABLE_HIGH: usize = 0x8900;

/// Inside one song: its title, the length of a tick, its reverb and partial
/// reserve, its rhythm kit, and the performance.
pub const TITLE: usize = 14;

pub const TICK: usize = 0x10;

pub const REVERB: usize = 0x12;

pub const REVERB_LEN: usize = 12;

pub const RHYTHM: usize = 0x20;

pub const RHYTHM_LEN: usize = 256;

pub const STREAM: usize = 0x120;

/// Where the settings go.
pub const ADDR_RHYTHM: u32 = 0x03_0110;

pub const ADDR_PATCH_LOW: u32 = 0x05_0000;

pub const ADDR_PATCH_HIGH: u32 = 0x05_0200;

pub const ADDR_TIMBRE: u32 = 0x08_0000;

pub const ADDR_REVERB: u32 = 0x10_0001;

pub const ADDR_RESET: u32 = 0x7f_0000;

/// A timbre: its common parameters, with the flags of its partials among
/// them, and one partial.
pub const TIMBRE_COMMON: usize = 14;

pub const TIMBRE_MUTE: usize = 12;

pub const TIMBRE_PARTIAL: usize = 58;

/// The patches of one table, and one of them.
pub const PATCH_SIZE: usize = 8;

pub const PATCH_BLOCK: usize = 256;

/// Ends the performance, where a wait would go.
pub const END: u8 = 0xff;

/// Ends it where a message would: the sequencer stopping.
pub const STOP: u8 = 0xfc;

/// A wait of this is the unit's own timing byte.
pub const SYNC: u8 = 0xf8;

/// One message and the wait before it, in ticks.
#[derive(Debug, Clone, PartialEq, Eq)]
pub struct Event {
    pub wait: u8,
    pub message: Vec<u8>,
}

/// What an event says.
pub struct Sounding {
    pub wait: u8,
    pub message: Seq<u8>,
}

impl View for Event {
    type V = Sounding;

    open spec fn view(&self) -> Sounding {
        Sounding { wait: self.wait, message: self.message@ }
    }
}

/// A demonstration song.
#[derive(Debug, Clone)]
pub struct Song {
    /// What the unit shows while it plays.
    pub title: String,
    /// The settings it wants before a note of it is played.
    pub setup: Vec<u8>,
    pub events: Vec<Event>,
    /// How long a tick is, counted on the unit's own timer.
    pub tick: u16,
}

/// What events say.
pub open spec fn sounding(events: Seq<Event>) -> Seq<Sounding> {
    events.map_values(|e: Event| e@)
}

/// What a song says.
pub struct Piece {
    pub title: Seq<char>,
    pub setup: Seq<u8>,
    pub events: Seq<Sounding>,
    pub tick: nat,
}

impl View for Song {
    type V = Piece;

    open spec fn view(&self) -> Piece {
        Piece {
            title: self.title@,
            setup: self.setup@,
            events: sounding(self.events@),
            tick: self.tick as nat,
        }
    }
}

/// Bytes as text, with what is no text replaced.
pub uninterp spec fn lossy_text(bytes: Seq<u8>) -> Seq<char>;

/// `String::from_utf8_lossy`. Claimed of it: what it returns is a function of
/// the bytes alone, and where the bytes are UTF-8 it is the text they encode.
/// What stands in for other bytes is left unsaid.
#[verifier::external_body]
fn lossy(bytes: &[u8]) -> (r: String)
    ensures
        r@ == lossy_text(bytes@),
        vstd::utf8::valid_utf8(bytes@) ==> r@ == vstd::utf8::decode_utf8(bytes@),
{
    String::from_utf8_lossy(bytes).into_owned()
}

/// A word of an image.
pub open spec fn word(image: Seq<u8>, at: int) -> nat {
    le_value(image.subrange(at, at + 2))
}

fn u16le(image: &[u8], at: usize) -> (r: Option<u16>)
    ensures
        match r {
            Some(v) => at + 2 <= image@.len() && v == word(image@, at as int),
            None => at + 2 > image@.len(),
        },
{
    let n: usize = image.len();
    if n < 2 || at > n - 2 {
        return None;
    }
    let v: u64 = crate::bytes::read_le(image, at, 2);
    proof {
        crate::bytes::lemma_byte_range();
        crate::bytes::lemma_le_writes_back(image@.subrange(at as int, at + 2));
    }
    Some(v as u16)
}

/// A partial's flag.
pub open spec fn flagged(flags: u8, partial: int) -> bool {
    if partial == 1 {
        flags / 2 % 2 == 1
    } else if partial == 2 {
        flags / 4 % 2 == 1
    } else if partial == 3 {
        flags / 8 % 2 == 1
    } else {
        false
    }
}

/// Where a partial of a timbre is: those that are flagged stand one behind
/// the other, and the others share the one before them.
pub open spec fn partial_at(flags: u8, start: int, partial: int) -> int
    decreases partial,
{
    if partial <= 0 {
        start
    } else if flagged(flags, partial) {
        partial_at(flags, start, partial - 1) + TIMBRE_PARTIAL
    } else {
        partial_at(flags, start, partial - 1)
    }
}

/// One timbre: its common parameters, then four partials.
pub open spec fn timbre_of(image: Seq<u8>, n: int) -> Seq<u8> {
    let at = word(image, TIMBRE_ADDRESSES + 2 * n) as int;
    let flags = image[at + TIMBRE_MUTE];
    let start = at + TIMBRE_COMMON;
    let partial = |i: int|
        image.subrange(
            partial_at(flags, start, i),
            partial_at(flags, start, i) + TIMBRE_PARTIAL,
        );
    image.subrange(at, start) + partial(0) + partial(1) + partial(2) + partial(3)
}

fn timbre(image: &[u8], n: usize) -> (r: Vec<u8>)
    requires
        image@.len() == ROM_SIZE,
        n < TIMBRE_COUNT,
    ensures
        r@ == timbre_of(image@, n as int),
{
    let at: usize = match u16le(image, TIMBRE_ADDRESSES + 2 * n) {
        Some(v) => v as usize,
        None => 0,
    };
    let flags: u8 = image[at + TIMBRE_MUTE];
    let start: usize = at + TIMBRE_COMMON;
    let second: usize = if flags / 2 % 2 == 1 {
        start + TIMBRE_PARTIAL
    } else {
        start
    };
    let third: usize = if flags / 4 % 2 == 1 {
        second + TIMBRE_PARTIAL
    } else {
        second
    };
    let fourth: usize = if flags / 8 % 2 == 1 {
        third + TIMBRE_PARTIAL
    } else {
        third
    };
    proof {
        reveal_with_fuel(partial_at, 4);
    }
    let mut out = copy_range(image, at, start);
    push_all(&mut out, copy_range(image, start, start + TIMBRE_PARTIAL).as_slice());
    push_all(&mut out, copy_range(image, second, second + TIMBRE_PARTIAL).as_slice());
    push_all(&mut out, copy_range(image, third, third + TIMBRE_PARTIAL).as_slice());
    push_all(&mut out, copy_range(image, fourth, fourth + TIMBRE_PARTIAL).as_slice());
    out
}

/// The message that carries data to a printed address.
pub open spec fn message(addr: nat, data: Seq<u8>) -> Seq<u8> {
    block_of(
        DEVICE,
        seq![(addr / 65536) as u8, (addr / 256 % 256) as u8, (addr % 256) as u8],
        data,
    )
}

/// The messages that load the first timbres.
pub open spec fn timbres(image: Seq<u8>, n: int) -> Seq<u8>
    decreases n,
{
    if n <= 0 {
        Seq::empty()
    } else {
        timbres(image, n - 1) + message(
            (ADDR_TIMBRE + 0x200 * (n - 1)) as nat,
            timbre_of(image, n - 1),
        )
    }
}

/// A table of patches. Some patches name a timbre group that the unit has not
/// got; they mean the one that was just loaded.
pub open spec fn patches(image: Seq<u8>, table: int) -> Seq<u8> {
    Seq::new(
        PATCH_BLOCK as nat,
        |i: int|
            if i % 8 == 0 && image[table + i] == 5 {
                2u8
            } else {
                image[table + i]
            },
    )
}

fn patch_table(image: &[u8], table: usize) -> (r: Vec<u8>)
    requires
        table + PATCH_BLOCK <= image.len(),
    ensures
        r@ == patches(image@, table as int),
{
    let mut out: Vec<u8> = Vec::new();
    let mut i: usize = 0;
    while i < PATCH_BLOCK
        invariant
            i <= PATCH_BLOCK,
            table + PATCH_BLOCK <= image.len(),
            out@ =~= patches(image@, table as int).take(i as int),
        decreases PATCH_BLOCK - i,
    {
        let b: u8 = image[table + i];
        if i % PATCH_SIZE == 0 && b == 5 {
            out.push(2);
        } else {
            out.push(b);
        }
        i += 1;
    }
    assert(out@ =~= patches(image@, table as int));
    out
}

/// Everything the unit is told before the first note of a song.
pub open spec fn setup_of(image: Seq<u8>, song: Seq<u8>) -> Seq<u8> {
    message(ADDR_RESET as nat, Seq::empty()) + message(
        ADDR_REVERB as nat,
        song.subrange(REVERB as int, REVERB + REVERB_LEN),
    ) + message(ADDR_RHYTHM as nat, song.subrange(RHYTHM as int, RHYTHM + RHYTHM_LEN)) + timbres(
        image,
        TIMBRE_COUNT as int,
    ) + message(ADDR_PATCH_LOW as nat, patches(image, PATCH_TABLE_LOW as int)) + message(
        ADDR_PATCH_HIGH as nat,
        patches(image, PATCH_TABLE_HIGH as int),
    )
}

/// The events of a performance, from a place on, after a status byte.
pub open spec fn performed(at: Seq<u8>, i: int, running: u8) -> Seq<Sounding>
    decreases at.len() - i,
{
    let none = Seq::<u8>::empty();
    if i < 0 || i >= at.len() || at[i] == END {
        Seq::empty()
    } else if at[i] == SYNC {
        seq![Sounding { wait: at[i], message: none }] + performed(at, i + 1, running)
    } else if i + 1 >= at.len() || at[i + 1] == STOP {
        Seq::empty()
    } else if at[i + 1] >= 0xf0 {
        seq![Sounding { wait: at[i], message: none }] + performed(at, i + 2, running)
    } else if at[i + 1] >= 0x80 {
        if i + 2 >= at.len() {
            Seq::empty()
        } else if at[i + 1] / 16 == 0xc {
            seq![Sounding { wait: at[i], message: seq![at[i + 1], at[i + 2]] }] + performed(
                at,
                i + 3,
                at[i + 1],
            )
        } else if i + 3 >= at.len() {
            Seq::empty()
        } else {
            seq![Sounding { wait: at[i], message: seq![at[i + 1], at[i + 2], at[i + 3]] }]
                + performed(at, i + 4, at[i + 1])
        }
    } else if running == 0 {
        performed(at, i + 2, running)
    } else if running / 16 == 0xc {
        seq![Sounding { wait: at[i], message: seq![running, at[i + 1]] }] + performed(
            at,
            i + 2,
            running,
        )
    } else if i + 2 >= at.len() {
        Seq::empty()
    } else {
        seq![Sounding { wait: at[i], message: seq![running, at[i + 1], at[i + 2]] }] + performed(
            at,
            i + 3,
            running,
        )
    }
}

fn push_event(events: &mut Vec<Event>, wait: u8, message: Vec<u8>)
    ensures
        sounding(final(events)@) == sounding(old(events)@).push(
            Sounding { wait, message: message@ },
        ),
{
    let ghost before = events@;
    let e = Event { wait, message };
    let ghost said = e@;
    events.push(e);
    assert(sounding(events@) =~= sounding(before).push(said));
}

/// The performance: a wait, then a message, over and over.
pub fn read_stream(at: &[u8]) -> (r: Vec<Event>)
    ensures
        sounding(r@) == performed(at@, 0, 0),
{
    let mut events: Vec<Event> = Vec::new();
    let mut i: usize = 0;
    let mut running: u8 = 0;
    let mut over = false;
    let n: usize = at.len();
    proof {
        assert(sounding(events@) + performed(at@, 0, 0) =~= performed(at@, 0, 0));
    }
    while i < n && !over
        invariant
            n == at@.len(),
            i <= n,
            running == 0 || 0x80 <= running < 0xf0,
            over ==> sounding(events@) == performed(at@, 0, 0),
            !over ==> sounding(events@) + performed(at@, i as int, running) == performed(at@, 0, 0),
        decreases n - i, (if over { 0int } else { 1 }),
    {
        let ghost before = sounding(events@);
        let ghost here = i as int;
        let ghost status = running;
        proof {
            assert(before + Seq::<Sounding>::empty() =~= before);
        }
        let wait: u8 = at[i];
        if wait == END {
            over = true;
        } else if wait == SYNC {
            push_event(&mut events, wait, Vec::new());
            i += 1;
        } else if i + 1 >= n || at[i + 1] == STOP {
            over = true;
        } else if at[i + 1] >= 0xf0 {
            push_event(&mut events, wait, Vec::new());
            i += 2;
        } else if at[i + 1] >= 0x80 {
            let byte: u8 = at[i + 1];
            if i + 2 >= n {
                over = true;
            } else if byte / 16 == 0xc {
                let mut message: Vec<u8> = Vec::new();
                message.push(byte);
                message.push(at[i + 2]);
                assert(message@ =~= seq![at@[i + 1], at@[i + 2]]);
                push_event(&mut events, wait, message);
                running = byte;
                i += 3;
            } else if i + 3 >= n {
                over = true;
            } else {
                let mut message: Vec<u8> = Vec::new();
                message.push(byte);
                message.push(at[i + 2]);
                message.push(at[i + 3]);
                assert(message@ =~= seq![at@[i + 1], at@[i + 2], at@[i + 3]]);
                push_event(&mut events, wait, message);
                running = byte;
                i += 4;
            }
        } else if running == 0 {
            i += 2;
        } else if running / 16 == 0xc {
            let mut message: Vec<u8> = Vec::new();
            message.push(running);
            message.push(at[i + 1]);
            assert(message@ =~= seq![running, at@[i + 1]]);
            push_event(&mut events, wait, message);
            i += 2;
        } else if i + 2 >= n {
            over = true;
        } else {
            let mut message: Vec<u8> = Vec::new();
            message.push(running);
            message.push(at[i + 1]);
            message.push(at[i + 2]);
            assert(message@ =~= seq![running, at@[i + 1], at@[i + 2]]);
            push_event(&mut events, wait, message);
            i += 3;
        }
        proof {
            if !over {
                let rest = performed(at@, i as int, running);
                if sounding(events@).len() > before.len() {
                    let e = sounding(events@).last();
                    assert(sounding(events@) =~= before.push(e));
                    assert(before.push(e) + rest =~= before + (seq![e] + rest));
                }
            }
        }
    }
    proof {
        if !over {
            assert(sounding(events@) + Seq::<Sounding>::empty() =~= sounding(events@));
        }
    }
    events
}

/// A song that stands at a place of an image.
pub open spec fn song_of(image: Seq<u8>, at: int) -> Option<Piece> {
    let song = image.skip(at);
    if at > image.len() || song.len() < STREAM {
        None
    } else {
        Some(
            Piece {
                title: trimmed(lossy_text(song.take(TITLE as int))),
                setup: setup_of(image, song),
                events: performed(song.skip(STREAM as int), 0, 0),
                tick: word(song, TICK as int),
            },
        )
    }
}

fn push_message(out: &mut Vec<u8>, addr: u32, data: &[u8])
    requires
        crate::mt32::reply::is_printed(addr as nat),
    ensures
        final(out)@ == old(out)@ + message(addr as nat, data@),
{
    let block = dt1(addr, data);
    push_all(out, block.as_slice());
}

fn read_song(image: &[u8], at: usize) -> (r: Option<Song>)
    requires
        image@.len() == ROM_SIZE,
    ensures
        match r {
            Some(song) => song_of(image@, at as int) == Some(song@),
            None => song_of(image@, at as int) is None,
        },
{
    if at > image.len() || image.len() - at < STREAM {
        return None;
    }
    let song = copy_range(image, at, image.len());
    assert(song@ =~= image@.skip(at as int));
    let head = copy_range(song.as_slice(), 0, TITLE);
    assert(head@ =~= song@.take(TITLE as int));
    let name = lossy(head.as_slice());
    let chars = chars_of(name.as_str());
    let bare = trim(chars.as_slice());
    let title = text_of(bare.as_slice());
    let tick: u16 = match u16le(song.as_slice(), TICK) {
        Some(v) => v,
        None => 0,
    };
    let mut setup: Vec<u8> = Vec::new();
    let nothing: Vec<u8> = Vec::new();
    push_message(&mut setup, ADDR_RESET, nothing.as_slice());
    let reverb = copy_range(song.as_slice(), REVERB, REVERB + REVERB_LEN);
    push_message(&mut setup, ADDR_REVERB, reverb.as_slice());
    let rhythm = copy_range(song.as_slice(), RHYTHM, RHYTHM + RHYTHM_LEN);
    push_message(&mut setup, ADDR_RHYTHM, rhythm.as_slice());
    let ghost head_bytes = setup@;
    proof {
        assert(nothing@ =~= Seq::empty());
        assert(head_bytes =~= message(ADDR_RESET as nat, Seq::empty()) + message(
            ADDR_REVERB as nat,
            song@.subrange(REVERB as int, REVERB + REVERB_LEN),
        ) + message(ADDR_RHYTHM as nat, song@.subrange(RHYTHM as int, RHYTHM + RHYTHM_LEN)));
        assert(head_bytes + timbres(image@, 0) =~= head_bytes);
    }
    let mut n: usize = 0;
    while n < TIMBRE_COUNT
        invariant
            n <= TIMBRE_COUNT,
            image@.len() == ROM_SIZE,
            setup@ == head_bytes + timbres(image@, n as int),
        decreases TIMBRE_COUNT - n,
    {
        let data = timbre(image, n);
        push_message(&mut setup, ADDR_TIMBRE + 0x200 * n as u32, data.as_slice());
        assert(setup@ =~= head_bytes + timbres(image@, n + 1));
        n += 1;
    }
    push_message(&mut setup, ADDR_PATCH_LOW, patch_table(image, PATCH_TABLE_LOW).as_slice());
    push_message(&mut setup, ADDR_PATCH_HIGH, patch_table(image, PATCH_TABLE_HIGH).as_slice());
    assert(setup@ =~= setup_of(image@, song@));
    let stream = copy_range(song.as_slice(), STREAM, song.len());
    assert(stream@ =~= song@.skip(STREAM as int));
    let events = read_stream(stream.as_slice());
    Some(Song { title, setup, events, tick })
}

/// Where a song stands in an image: the image keeps a table, which is also
/// what puts them in order.
pub open spec fn song_place(image: Seq<u8>, n: int) -> int {
    2 * word(image, SONG_REFS + 2 * n) as int + 0x8000
}

/// What songs say.
pub open spec fn pieces(songs: Seq<Song>) -> Seq<Piece> {
    songs.map_values(|s: Song| s@)
}

/// Every song that an image carries, in order. An image of another size has
/// none, and neither has one with a song that is cut short.
pub open spec fn songs_of(image: Seq<u8>) -> Seq<Piece> {
    if image.len() == ROM_SIZE && forall|n: int|
        0 <= n < SONG_COUNT ==> (#[trigger] song_of(image, song_place(image, n))) is Some {
        Seq::new(SONG_COUNT as nat, |n: int| song_of(image, song_place(image, n)).unwrap())
    } else {
        Seq::empty()
    }
}

/// Every song that a control ROM carries.
pub fn songs(image: &[u8]) -> (r: Vec<Song>)
    ensures
        pieces(r@) == songs_of(image@),
{
    let mut out: Vec<Song> = Vec::new();
    assert(pieces(out@) =~= Seq::empty());
    if image.len() != ROM_SIZE {
        return out;
    }
    let mut n: usize = 0;
    while n < SONG_COUNT
        invariant
            n <= SONG_COUNT,
            image@.len() == ROM_SIZE,
            out@.len() == n,
            forall|k: int|
                0 <= k < n ==> (#[trigger] song_of(image@, song_place(image@, k))) == Some(
                    out@[k]@,
                ),
        decreases SONG_COUNT - n,
    {
        let at: usize = match u16le(image, SONG_REFS + 2 * n) {
            Some(v) => 2 * v as usize + 0x8000,
            None => 0,
        };
        assert(at == song_place(image@, n as int));
        match read_song(image, at) {
            Some(song) => {
                out.push(song);
            },
            None => {
                assert(song_of(image@, song_place(image@, n as int)) is None);
                let empty: Vec<Song> = Vec::new();
                assert(pieces(empty@) =~= songs_of(image@));
                return empty;
            },
        }
        n += 1;
    }
    assert(pieces(out@) =~= songs_of(image@));
    out
}

/// Every message of a performance is whole: it is nothing but a wait, or it
/// begins with a status byte and has the bytes that the status calls for.
pub proof fn law_messages_are_whole(at: Seq<u8>, i: int, running: u8)
    requires
        running == 0 || 0x80 <= running < 0xf0,
    ensures
        forall|k: int|
            0 <= k < performed(at, i, running).len() ==> is_whole(
                (#[trigger] performed(at, i, running)[k]).message,
            ),
    decreases at.len() - i,
{
    if 0 <= i < at.len() && at[i] != END {
        law_messages_are_whole(at, i + 1, running);
        if i + 2 <= at.len() {
            law_messages_are_whole(at, i + 2, running);
        }
        if i + 3 <= at.len() {
            law_messages_are_whole(at, i + 3, running);
            if 0x80 <= at[i + 1] < 0xf0 {
                law_messages_are_whole(at, i + 3, at[i + 1]);
            }
        }
        if i + 4 <= at.len() && 0x80 <= at[i + 1] < 0xf0 {
            law_messages_are_whole(at, i + 4, at[i + 1]);
        }
        let all = performed(at, i, running);
        assert forall|k: int| 0 <= k < all.len() implies is_whole(
            (#[trigger] all[k]).message,
        ) by {
            if at[i] == SYNC {
                if k > 0 {
                    assert(all[k] == performed(at, i + 1, running)[k - 1]);
                }
            } else if at[i + 1] >= 0xf0 {
                if k > 0 {
                    assert(all[k] == performed(at, i + 2, running)[k - 1]);
                }
            } else if at[i + 1] >= 0x80 {
                if at[i + 1] / 16 == 0xc {
                    if k > 0 {
                        assert(all[k] == performed(at, i + 3, at[i + 1])[k - 1]);
                    }
                } else if k > 0 {
                    assert(all[k] == performed(at, i + 4, at[i + 1])[k - 1]);
                }
            } else if running == 0 {
                assert(all[k] == performed(at, i + 2, running)[k]);
            } else if running / 16 == 0xc {
                if k > 0 {
                    assert(all[k] == performed(at, i + 2, running)[k - 1]);
                }
            } else if k > 0 {
                assert(all[k] == performed(at, i + 3, running)[k - 1]);
            }
        }
    }
}

/// A message that is nothing, or a status byte with what it calls for: one
/// byte behind a program change, and two behind anything else.
pub open spec fn is_whole(message: Seq<u8>) -> bool {
    message.len() == 0 || (0x80 <= message[0] < 0xf0 && message.len() == (if message[0] / 16
        == 0xc {
        2int
    } else {
        3
    }))
}

/// Plays a song, an event at a time.
#[derive(Debug)]
pub struct Player {
    pub song: Song,
    pub next: usize,
    /// The settings have gone out.
    pub setup_sent: bool,
}

impl Player {
    pub open spec fn wf(self) -> bool {
        self.next <= self.song.events@.len()
    }

    /// Start a song at the top.
    pub fn new(song: Song) -> (r: Player)
        ensures
            r.wf(),
            r.song == song,
            r.next == 0,
            !r.setup_sent,
    {
        Player { song, next: 0, setup_sent: false }
    }

    /// Whether the song has run out.
    pub fn finished(&self) -> (r: bool)
        ensures
            r == (self.next >= self.song.events@.len()),
    {
        self.next >= self.song.events.len()
    }

    /// Send the settings, ahead of the first note and only there.
    pub fn begin(&mut self, due: &mut Vec<u8>)
        requires
            old(self).wf(),
        ensures
            final(self).wf(),
            *final(self) == (Player { setup_sent: true, ..*old(self) }),
            final(due)@ == (if old(self).setup_sent {
                old(due)@
            } else {
                old(due)@ + old(self).song.setup@
            }),
    {
        if !self.setup_sent {
            self.setup_sent = true;
            push_all(due, self.song.setup.as_slice());
        }
    }

    /// How many ticks to wait for the next message.
    pub fn next_wait(&self) -> (r: Option<u8>)
        requires
            self.wf(),
        ensures
            match r {
                Some(wait) => self.next < self.song.events@.len() && wait
                    == self.song.events@[self.next as int].wait,
                None => self.next == self.song.events@.len(),
            },
    {
        if self.next < self.song.events.len() {
            Some(self.song.events[self.next].wait)
        } else {
            None
        }
    }

    /// The wait is over: send the next message.
    pub fn play(&mut self, due: &mut Vec<u8>)
        requires
            old(self).wf(),
            old(self).next < old(self).song.events@.len(),
        ensures
            final(self).wf(),
            *final(self) == (Player { next: (old(self).next + 1) as usize, ..*old(self) }),
            final(due)@ == old(due)@ + old(self).song.events@[old(self).next as int].message@,
    {
        let n: usize = self.song.events.len();
        assert(self.next < n);
        push_all(due, self.song.events[self.next].message.as_slice());
        self.next = self.next + 1;
    }
}

/// The songs stand where the image's table says: the `n`-th entry, at 0x86e0
/// and two bytes on for each, counts words from 0x8000. Behind that place are
/// the title's fourteen bytes, the tick at 0x10, low byte first, and the
/// performance from 0x120 on. An image has its five songs or none, and none
/// where it is not of 128 KiB or where a song does not fit.
pub proof fn law_songs_stand_where_the_table_says(image: Seq<u8>, n: int)
    requires
        0 <= n < 5,
    ensures
        songs_of(image).len() == 5 || songs_of(image).len() == 0,
        image.len() != 0x2_0000 ==> songs_of(image).len() == 0,
        image.len() == 0x2_0000 ==> ({
            let at = 0x8000 + 2 * (image[0x86e0 + 2 * n] + 256 * image[0x86e0 + 2 * n + 1]);
            &&& at + 0x120 > 0x2_0000 ==> songs_of(image).len() == 0
            &&& songs_of(image).len() > 0 ==> {
                &&& at + 0x120 <= 0x2_0000
                &&& songs_of(image)[n].title == trimmed(lossy_text(image.subrange(at, at + 14)))
                &&& songs_of(image)[n].tick == image[at + 0x10] + 256 * image[at + 0x11]
                &&& songs_of(image)[n].events == performed(image.skip(at + 0x120), 0, 0)
                &&& songs_of(image)[n].setup == setup_of(image, image.skip(at))
            }
        }),
        image.len() == 0x2_0000 && (forall|k: int|
            0 <= k < 5 ==> 0x8000 + 2 * (#[trigger] image[0x86e0 + 2 * k] + 256 * image[0x86e0 + 2
                * k + 1]) + 0x120 <= 0x2_0000) ==> songs_of(image).len() == 5,
{
    if image.len() == 0x2_0000 {
        assert forall|k: int| 0 <= k < 5 implies #[trigger] song_place(image, k) == 0x8000 + 2 * (
        image[0x86e0 + 2 * k] + 256 * image[0x86e0 + 2 * k + 1]) by {
            lemma_word(image, 0x86e0 + 2 * k);
        }
        let at = song_place(image, n);
        let song = image.skip(at);
        assert(song_of(image, at) is Some <==> at + 0x120 <= 0x2_0000);
        if songs_of(image).len() > 0 {
            assert(song_of(image, song_place(image, n)) is Some);
            assert(song.take(14) =~= image.subrange(at, at + 14));
            assert(song.skip(0x120) =~= image.skip(at + 0x120));
            lemma_word(song, 0x10);
        }
        if forall|k: int|
            0 <= k < 5 ==> 0x8000 + 2 * (#[trigger] image[0x86e0 + 2 * k] + 256 * image[0x86e0 + 2
                * k + 1]) + 0x120 <= 0x2_0000 {
            assert forall|k: int| 0 <= k < 5 implies (#[trigger] song_of(
                image,
                song_place(image, k),
            )) is Some by {
                assert(image[0x86e0 + 2 * k] == image[0x86e0 + 2 * k]);
            }
        }
    }
}

proof fn lemma_word(image: Seq<u8>, at: int)
    requires
        0 <= at,
        at + 2 <= image.len(),
    ensures
        word(image, at) == image[at] + 256 * image[at + 1],
{
    crate::bytes::law_two_bytes(image.subrange(at, at + 2), 0);
}

/// How many of a timbre's partials up to the `i`-th have one of their own
/// behind the first: bits one to three of the flags say it of the second to
/// the fourth.
pub open spec fn own_partials(flags: u8, i: int) -> int {
    (if i >= 1 { flags as int / 2 % 2 } else { 0 }) + (if i >= 2 { flags as int / 4 % 2 } else { 0 })
        + (if i >= 3 { flags as int / 8 % 2 } else { 0 })
}

/// A timbre is sent whole: fourteen common bytes and four partials of 58
/// bytes, of which those without one of their own repeat the one before.
pub proof fn law_timbres_are_whole(image: Seq<u8>, n: int, i: int)
    requires
        image.len() == 0x2_0000,
        0 <= n < 22,
        0 <= i < 4,
    ensures
        ({
            let at = image[0x8700 + 2 * n] + 256 * image[0x8700 + 2 * n + 1];
            let timbre = timbre_of(image, n);
            let source = at + 14 + 58 * own_partials(image[at + 12], i);
            &&& timbre.len() == 246
            &&& timbre.subrange(0, 14) == image.subrange(at, at + 14)
            &&& timbre.subrange(14 + 58 * i, 72 + 58 * i) == image.subrange(source, source + 58)
        }),
{
    reveal_with_fuel(partial_at, 4);
    lemma_word(image, 0x8700 + 2 * n);
    let at = image[0x8700 + 2 * n] + 256 * image[0x8700 + 2 * n + 1];
    let flags = image[at + 12];
    let timbre = timbre_of(image, n);
    let source = at + 14 + 58 * own_partials(flags, i);
    assert(partial_at(flags, at + 14, i) == source);
    assert(timbre.subrange(0, 14) =~= image.subrange(at, at + 14));
    assert(timbre.subrange(14 + 58 * i, 72 + 58 * i) =~= image.subrange(source, source + 58));
}

/// A patch is sent as the image has it, but for a timbre group that the unit
/// has not got: where a patch of eight bytes names group five, it means two.
pub proof fn law_patches_name_loaded_timbres(image: Seq<u8>, table: int, i: int)
    requires
        0 <= i < 256,
    ensures
        patches(image, table).len() == 256,
        patches(image, table)[i] == (if i % 8 == 0 && image[table + i] == 5 {
            2u8
        } else {
            image[table + i]
        }),
{
}

proof fn lemma_message_len(addr: nat, data: Seq<u8>)
    ensures
        message(addr, data).len() == data.len() + 10,
{
    crate::mt32::reply::law_blocks_are_framed(
        DEVICE,
        seq![(addr / 65536) as u8, (addr / 256 % 256) as u8, (addr % 256) as u8],
        data,
    );
}

/// A message carries its data to its address, the highest byte first, for
/// the unit with the device number of a single one.
pub proof fn law_messages_carry_their_address(addr: nat, data: Seq<u8>)
    requires
        crate::mt32::reply::is_printed(addr),
    ensures
        message(addr, data).len() == data.len() + 10,
        message(addr, data).subrange(0, 5) == seq![0xf0u8, 0x41, 0x10, 0x16, 0x12],
        message(addr, data)[5] * 65536 + message(addr, data)[6] * 256 + message(addr, data)[7]
            == addr,
        message(addr, data).subrange(8, 8 + data.len() as int) == data,
        message(addr, data)[9 + data.len() as int] == 0xf7,
{
    let bytes = seq![(addr / 65536) as u8, (addr / 256 % 256) as u8, (addr % 256) as u8];
    crate::mt32::reply::law_blocks_are_framed(DEVICE, bytes, data);
    assert(message(addr, data).subrange(5, 8) == bytes);
    assert(message(addr, data)[5] == bytes[0]) by {
        assert(message(addr, data)[5] == message(addr, data).subrange(5, 8)[0]);
    }
    assert(message(addr, data)[6] == bytes[1]) by {
        assert(message(addr, data)[6] == message(addr, data).subrange(5, 8)[1]);
    }
    assert(message(addr, data)[7] == bytes[2]) by {
        assert(message(addr, data)[7] == message(addr, data).subrange(5, 8)[2]);
    }
}

proof fn lemma_timbres(image: Seq<u8>, n: int, k: int)
    requires
        image.len() == 0x2_0000,
        0 <= k < n <= 22,
    ensures
        timbres(image, n).len() == 256 * n,
        timbres(image, n).subrange(256 * k, 256 * k + 256) == message(
            (0x08_0000 + 0x200 * k) as nat,
            timbre_of(image, k),
        ),
    decreases n,
{
    let rest = timbres(image, n - 1);
    let last = message((0x08_0000 + 0x200 * (n - 1)) as nat, timbre_of(image, n - 1));
    law_timbres_are_whole(image, n - 1, 0);
    lemma_message_len((0x08_0000 + 0x200 * (n - 1)) as nat, timbre_of(image, n - 1));
    if n > 1 {
        lemma_timbres(
            image,
            n - 1,
            if k < n - 1 {
                k
            } else {
                0
            },
        );
    }
    assert(timbres(image, n) =~= rest + last);
    if k == n - 1 {
        assert(timbres(image, n).subrange(256 * k, 256 * k + 256) =~= last);
    } else {
        assert(timbres(image, n).subrange(256 * k, 256 * k + 256) =~= rest.subrange(
            256 * k,
            256 * k + 256,
        ));
    }
}

/// Before its first note a song resets the unit, sets its own reverb and its
/// own rhythm kit, loads the image's 22 timbres one behind the other, and
/// then both tables of patches; nothing else, and in this order.
pub proof fn law_a_song_sets_up_the_unit(image: Seq<u8>, song: Seq<u8>, k: int)
    requires
        image.len() == 0x2_0000,
        song.len() >= 0x120,
        0 <= k < 22,
    ensures
        ({
            let setup = setup_of(image, song);
            &&& setup.len() == 6462
            &&& setup.subrange(0, 10) == message(0x7f_0000, Seq::empty())
            &&& setup.subrange(10, 32) == message(0x10_0001, song.subrange(0x12, 0x1e))
            &&& setup.subrange(32, 298) == message(0x03_0110, song.subrange(0x20, 0x120))
            &&& setup.subrange(298 + 256 * k, 554 + 256 * k) == message(
                (0x08_0000 + 0x200 * k) as nat,
                timbre_of(image, k),
            )
            &&& setup.subrange(5930, 6196) == message(0x05_0000, patches(image, 0x8800))
            &&& setup.subrange(6196, 6462) == message(0x05_0200, patches(image, 0x8900))
        }),
{
    let setup = setup_of(image, song);
    let a = message(0x7f_0000, Seq::empty());
    let b = message(0x10_0001, song.subrange(0x12, 0x1e));
    let c = message(0x03_0110, song.subrange(0x20, 0x120));
    let d = timbres(image, 22);
    let e = message(0x05_0000, patches(image, 0x8800));
    let f = message(0x05_0200, patches(image, 0x8900));
    lemma_message_len(0x7f_0000, Seq::empty());
    lemma_message_len(0x10_0001, song.subrange(0x12, 0x1e));
    lemma_message_len(0x03_0110, song.subrange(0x20, 0x120));
    lemma_message_len(0x05_0000, patches(image, 0x8800));
    lemma_message_len(0x05_0200, patches(image, 0x8900));
    lemma_timbres(image, 22, k);
    assert(setup =~= a + b + c + d + e + f);
    assert(setup.subrange(0, 10) =~= a);
    assert(setup.subrange(10, 32) =~= b);
    assert(setup.subrange(32, 298) =~= c);
    assert(setup.subrange(298 + 256 * k, 554 + 256 * k) =~= d.subrange(256 * k, 256 * k + 256));
    assert(setup.subrange(5930, 6196) =~= e);
    assert(setup.subrange(6196, 6462) =~= f);
}

proof fn lemma_performed_shifts(head: Seq<u8>, at: Seq<u8>, i: int, running: u8)
    requires
        0 <= i <= at.len(),
    ensures
        performed(head + at, head.len() + i, running) == performed(at, i, running),
    decreases at.len() - i,
{
    let all = head + at;
    let h = head.len() as int;
    if i < at.len() {
        assert(all[h + i] == at[i]);
        lemma_performed_shifts(head, at, i + 1, running);
        if i + 1 < at.len() {
            assert(all[h + i + 1] == at[i + 1]);
            lemma_performed_shifts(head, at, i + 2, running);
            if i + 2 < at.len() {
                assert(all[h + i + 2] == at[i + 2]);
                lemma_performed_shifts(head, at, i + 3, running);
                lemma_performed_shifts(head, at, i + 3, at[i + 1]);
                if i + 3 < at.len() {
                    assert(all[h + i + 3] == at[i + 3]);
                    lemma_performed_shifts(head, at, i + 4, at[i + 1]);
                }
            }
        }
    }
}

/// A performance is a wait and a message, over and over: with a status of its
/// own, a program change has one byte behind it and anything else two, and
/// the status goes on for the messages behind it; without one, the status
/// that went before is meant, so leaving it out changes nothing.
pub proof fn law_a_performance_runs_its_status(
    wait: u8,
    status: u8,
    a: u8,
    b: u8,
    rest: Seq<u8>,
    running: u8,
)
    requires
        wait != 0xff,
        wait != 0xf8,
        0x80 <= status < 0xf0,
        a < 0x80,
    ensures
        0xc0 <= status < 0xd0 ==> {
            &&& performed(seq![wait, status, a] + rest, 0, running) == seq![
                Sounding { wait, message: seq![status, a] },
            ] + performed(rest, 0, status)
            &&& performed(seq![wait, a] + rest, 0, status) == performed(
                seq![wait, status, a] + rest,
                0,
                running,
            )
        },
        !(0xc0 <= status < 0xd0) ==> {
            &&& performed(seq![wait, status, a, b] + rest, 0, running) == seq![
                Sounding { wait, message: seq![status, a, b] },
            ] + performed(rest, 0, status)
            &&& performed(seq![wait, a, b] + rest, 0, status) == performed(
                seq![wait, status, a, b] + rest,
                0,
                running,
            )
        },
{
    lemma_performed_shifts(seq![wait, status, a], rest, 0, status);
    lemma_performed_shifts(seq![wait, a], rest, 0, status);
    lemma_performed_shifts(seq![wait, status, a, b], rest, 0, status);
    lemma_performed_shifts(seq![wait, a, b], rest, 0, status);
}

/// A performance ends at its end mark in place of a wait, or at the stop in
/// place of a message; the timing byte in place of a wait, and a system byte
/// in place of a message, only wait; and a data byte before any status is
/// passed over.
pub proof fn law_a_performance_ends_and_waits(
    wait: u8,
    system: u8,
    a: u8,
    rest: Seq<u8>,
    running: u8,
)
    requires
        a < 0x80,
        wait != 0xff,
        wait != 0xf8,
        system >= 0xf0,
        system != 0xfc,
    ensures
        performed(Seq::empty(), 0, running) == Seq::<Sounding>::empty(),
        performed(seq![0xffu8] + rest, 0, running) == Seq::<Sounding>::empty(),
        performed(seq![wait, 0xfcu8] + rest, 0, running) == Seq::<Sounding>::empty(),
        performed(seq![0xf8u8] + rest, 0, running) == seq![
            Sounding { wait: 0xf8, message: Seq::empty() },
        ] + performed(rest, 0, running),
        performed(seq![wait, system] + rest, 0, running) == seq![
            Sounding { wait, message: Seq::empty() },
        ] + performed(rest, 0, running),
        performed(seq![wait, a] + rest, 0, 0) == performed(rest, 0, 0),
{
    lemma_performed_shifts(seq![0xf8u8], rest, 0, running);
    lemma_performed_shifts(seq![wait, system], rest, 0, running);
    lemma_performed_shifts(seq![wait, a], rest, 0, 0);
}

} // verus!
