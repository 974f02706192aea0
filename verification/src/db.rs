//! The store: the clipboard log and the authoritative clock of one host.

use crate::clock::{
    counter_of, lemma_rows_push, merged, row_is, rows_map, Clock, ClockMap,
};
use crate::key::{
    assign_key, assigned, fresh_key, key_text, successor, ulid_text, ulid_value,
};
use crate::log::{
    ascending, capped, entry_of, has_key, keys, lemma_entry_of, lemma_with_row_insert,
    lemma_with_row_newest, lemma_with_row_present, newest, recent, row_back, sole_row, with_row,
    with_rows, LogSeq,
};
use crate::text::texts;
use vstd::prelude::*;

verus! {

/// What an image entry holds, as mathematics.
pub struct ImageView {
    pub width: usize,
    pub height: usize,
    pub bytes: Seq<u8>,
}

/// What a clipboard entry holds, as mathematics.
pub enum EntryView {
    Image(ImageView),
    Text(Seq<char>),
}

/// An image is `width` by `height` pixels of four bytes each, and neither
/// side is 0.
pub open spec fn image_valid(width: usize, height: usize, len: nat) -> bool {
    width > 0 && height > 0 && len == width * height * 4
}

/// An image of the clipboard: its size in pixels and its raw RGBA bytes.
#[derive(Debug, PartialEq, Eq)]
pub struct SerializableImage {
    pub(crate) width: usize,
    pub(crate) height: usize,
    pub(crate) bytes: Vec<u8>,
}

impl View for SerializableImage {
    type V = ImageView;

    open(crate) spec fn view(&self) -> ImageView {
        ImageView { width: self.width, height: self.height, bytes: self.bytes@ }
    }
}

impl Clone for SerializableImage {
    fn clone(&self) -> (copy: SerializableImage)
        ensures
            copy@ == self@,
    {
        proof {
            use_type_invariant(self);
        }
        SerializableImage { width: self.width, height: self.height, bytes: self.bytes.clone() }
    }
}

impl SerializableImage {
    #[verifier::type_invariant]
    spec fn well_sized(&self) -> bool {
        image_valid(self.width, self.height, self.bytes@.len())
    }

    /// The image of the given size and bytes, if they fit together.
    pub fn new(width: usize, height: usize, bytes: Vec<u8>) -> (image: Option<SerializableImage>)
        ensures
            image is Some <==> image_valid(width, height, bytes@.len()),
            image matches Some(made) ==> made@ == (ImageView { width, height, bytes: bytes@ }),
    {
        let given: usize = bytes.len();
        if width == 0 || height == 0 {
            return None;
        }
        let pixels: usize = match width.checked_mul(height) {
            Some(pixels) => pixels,
            None => {
                assert(width * height * 4 > usize::MAX) by (nonlinear_arith)
                    requires
                        width * height > usize::MAX,
                ;
                return None;
            },
        };
        match pixels.checked_mul(4) {
            Some(len) => {
                if given == len {
                    Some(SerializableImage { width, height, bytes })
                } else {
                    None
                }
            },
            None => None,
        }
    }

    /// The width in pixels.
    pub fn width(&self) -> (width: usize)
        ensures
            width == self@.width,
            image_valid(self@.width, self@.height, self@.bytes.len()),
    {
        proof {
            use_type_invariant(self);
        }
        self.width
    }

    /// The height in pixels.
    pub fn height(&self) -> (height: usize)
        ensures
            height == self@.height,
            image_valid(self@.width, self@.height, self@.bytes.len()),
    {
        proof {
            use_type_invariant(self);
        }
        self.height
    }

    /// The raw bytes, four per pixel.
    pub fn bytes(&self) -> (bytes: &Vec<u8>)
        ensures
            bytes@ == self@.bytes,
            image_valid(self@.width, self@.height, self@.bytes.len()),
    {
        proof {
            use_type_invariant(self);
        }
        &self.bytes
    }
}

/// One thing that was copied: a text or an image.
#[derive(Debug, PartialEq, Eq)]
pub enum ClipboardEntry {
    Image(SerializableImage),
    Text(String),
}

impl View for ClipboardEntry {
    type V = EntryView;

    open spec fn view(&self) -> EntryView {
        match self {
            ClipboardEntry::Image(image) => EntryView::Image(image@),
            ClipboardEntry::Text(text) => EntryView::Text(text@),
        }
    }
}

impl Clone for ClipboardEntry {
    fn clone(&self) -> (copy: ClipboardEntry)
        ensures
            copy@ == self@,
    {
        match self {
            ClipboardEntry::Image(image) => ClipboardEntry::Image(image.clone()),
            ClipboardEntry::Text(text) => ClipboardEntry::Text(text.clone()),
        }
    }
}

/// The name under which the history lists an entry: a text by itself, an
/// image by the word `image`.
pub open spec fn summary(entry: EntryView) -> Seq<char> {
    match entry {
        EntryView::Image(_) => "image"@,
        EntryView::Text(text) => text,
    }
}

impl ClipboardEntry {
    /// The name under which the history lists the entry.
    pub fn summary(&self) -> (name: String)
        ensures
            name@ == summary(self@),
    {
        match self {
            ClipboardEntry::Image(_) => "image".to_owned(),
            ClipboardEntry::Text(text) => text.clone(),
        }
    }
}

/// Why the store refused a request.
#[derive(Debug, PartialEq, Eq, Clone, Copy)]
pub enum StoreError {
    /// A local write came before the host's own clock row was made.
    NoSelfRow,
    /// The host's own row cannot be made: a peer row has that name.
    HostConflict,
    /// The host's own counter is at its highest value.
    CounterOverflow,
    /// No key is left within the newest millisecond of the log.
    KeyExhausted,
    /// The log has fewer entries than the offset asks for.
    NoSuchOffset,
}

/// What a replicated write found.
#[derive(Debug, PartialEq, Eq, Clone, Copy)]
pub enum WriteStatus {
    /// The key was new and the entry is now in the log.
    Inserted,
    /// The log had the key already and is unchanged.
    AlreadyPresent,
}

/// The store as mathematics: the log in rising key order, the clock, and the
/// name of the host's own clock row once it is made.
pub struct StoreView {
    pub log: LogSeq,
    pub clock: ClockMap,
    pub self_host: Option<Seq<char>>,
}

impl StoreView {
    /// The keys of the log rise, and the host's own row is in the clock.
    pub open spec fn wf(self) -> bool {
        &&& ascending(self.log)
        &&& self.self_host matches Some(host) ==> self.clock.contains_key(host)
    }

    /// The store of a host that has not started yet.
    pub open spec fn empty() -> StoreView {
        StoreView { log: Seq::empty(), clock: Map::empty(), self_host: None }
    }

    /// The host's own counter; 0 before its row is made.
    pub open spec fn self_counter(self) -> u64 {
        match self.self_host {
            Some(host) => counter_of(self.clock, host),
            None => 0,
        }
    }

    /// Making the host's own row: nothing happens where one exists; a peer row
    /// of that name is a conflict; else the row is made with counter 0.
    pub open spec fn insert_self(self, host: Seq<char>) -> Result<StoreView, StoreError> {
        if self.self_host is Some {
            Ok(self)
        } else if self.clock.contains_key(host) {
            Err(StoreError::HostConflict)
        } else {
            Ok(StoreView { clock: self.clock.insert(host, 0), self_host: Some(host), ..self })
        }
    }

    /// The key that a local write gets, or why the write is refused.
    pub open spec fn local_key(self, candidate: u128) -> Result<u128, StoreError> {
        match self.self_host {
            None => Err(StoreError::NoSelfRow),
            Some(host) => if self.clock[host] == u64::MAX {
                Err(StoreError::CounterOverflow)
            } else {
                match assigned(newest(self.log), candidate) {
                    None => Err(StoreError::KeyExhausted),
                    Some(key) => Ok(key),
                }
            },
        }
    }

    /// A local write is accepted whatever the candidate key: the host's own
    /// row is made, its counter is below the highest value, and the newest
    /// key of the log has a successor.
    pub open spec fn can_write_local(self) -> bool {
        &&& self.self_host matches Some(host) && self.clock[host] < u64::MAX
        &&& newest(self.log) matches Some(top) ==> successor(top) is Some
    }

    /// The store after a local write: the entry is the newest row of the log
    /// and the host's own counter is one higher. A refused write changes
    /// nothing.
    pub open spec fn write_local(self, candidate: u128, entry: EntryView) -> StoreView {
        match self.local_key(candidate) {
            Err(_) => self,
            Ok(key) => StoreView {
                log: self.log.push((key, entry)),
                clock: self.clock.insert(
                    self.self_host->0,
                    (self.clock[self.self_host->0] + 1) as u64,
                ),
                ..self
            },
        }
    }

    /// The store after a replicated write: the row is in the log at its place
    /// in key order, unless the log had the key. No counter moves.
    pub open spec fn write_replicated(self, key: u128, entry: EntryView) -> StoreView {
        StoreView { log: with_row(self.log, key, entry), ..self }
    }

    /// The store after a clock is merged in: each peer counter is the larger
    /// of the two, and the host's own row is as it was.
    pub open spec fn merge_clock(self, incoming: ClockMap) -> StoreView {
        StoreView { clock: merged(self.clock, incoming, self.self_host), ..self }
    }

    /// The entry that is `offset` places behind the newest one.
    pub open spec fn read_at_offset(self, offset: nat) -> Result<EntryView, StoreError> {
        if offset < self.log.len() {
            Ok(row_back(self.log, offset as int).1)
        } else {
            Err(StoreError::NoSuchOffset)
        }
    }

    /// The names of the `limit` newest entries, newest first.
    pub open spec fn history(self, limit: nat) -> Seq<Seq<char>> {
        Seq::new(
            capped(limit, self.log.len()),
            |i: int| summary(row_back(self.log, i).1),
        )
    }
}

/// The rows of the log as mathematics.
pub open spec fn log_view(rows: Seq<(u128, ClipboardEntry)>) -> LogSeq {
    rows.map_values(|row: (u128, ClipboardEntry)| (row.0, row.1@))
}

/// A listing with keys as numbers, as mathematics.
pub open spec fn keyed_view(rows: Seq<(ClipboardEntry, u128)>) -> Seq<(EntryView, u128)> {
    rows.map_values(|row: (ClipboardEntry, u128)| (row.0@, row.1))
}

/// A listing with keys as text, as mathematics.
pub open spec fn listed_view(rows: Seq<(ClipboardEntry, String)>) -> Seq<(EntryView, Seq<char>)> {
    rows.map_values(|row: (ClipboardEntry, String)| (row.0@, row.1@))
}

/// The listing `rows` spells the keys of `keyed` as the ulid crate writes
/// them, entry by entry.
pub open spec fn spells(rows: Seq<(EntryView, Seq<char>)>, keyed: Seq<(EntryView, u128)>) -> bool {
    &&& rows.len() == keyed.len()
    &&& forall|i: int|
        0 <= i < rows.len() ==> (#[trigger] rows[i]).0 == keyed[i].0 && rows[i].1 == ulid_text(
            keyed[i].1,
        ) && ulid_value(rows[i].1) == Some(keyed[i].1)
}

/// The store of one host: its clipboard log and its clock.
#[derive(Debug)]
pub struct Database {
    pub(crate) entries: Vec<(u128, ClipboardEntry)>,
    pub(crate) clock: Clock,
    pub(crate) self_host: Option<String>,
}

impl View for Database {
    type V = StoreView;

    open(crate) spec fn view(&self) -> StoreView {
        StoreView {
            log: log_view(self.entries@),
            clock: self.clock@,
            self_host: match self.self_host {
                Some(host) => Some(host@),
                None => None,
            },
        }
    }
}

impl Database {
    /// The store is in order: its log rises and its own row is in the clock.
    #[verifier::type_invariant]
    pub open spec fn wf(&self) -> bool {
        self@.wf()
    }

    /// The store of a host that has not started yet: no entry, no clock row.
    pub fn new() -> (db: Database)
        ensures
            db@ == StoreView::empty(),
    {
        let db = Database { entries: Vec::new(), clock: Clock::new(), self_host: None };
        assert(db@.log =~= Seq::empty());
        db
    }

    /// Makes the host's own clock row, with counter 0, unless there is one.
    /// Where a peer row has that name the row cannot be made, and the store
    /// stays as it is.
    pub fn insert_self(&mut self, host_name: String) -> (res: Result<(), StoreError>)
        ensures
            match old(self)@.insert_self(host_name@) {
                Ok(next) => res is Ok && final(self)@ == next,
                Err(error) => res == Err::<(), StoreError>(error) && final(self)@ == old(self)@,
            },
    {
        proof {
            use_type_invariant(&*self);
        }
        if self.self_host.is_some() {
            return Ok(());
        }
        if self.clock.get(host_name.as_str()).is_some() {
            return Err(StoreError::HostConflict);
        }
        let Database { entries, mut clock, self_host } = self.take();
        clock.insert(host_name.clone(), 0);
        *self = Database { entries, clock, self_host: Some(host_name) };
        Ok(())
    }

    /// The host's own counter, if its row is made.
    pub fn self_counter(&self) -> (counter: Option<u64>)
        ensures
            counter == match self@.self_host {
                Some(host) => Some(self@.clock[host]),
                None => None,
            },
    {
        proof {
            use_type_invariant(self);
        }
        match &self.self_host {
            Some(host) => self.clock.get(host.as_str()),
            None => None,
        }
    }

    /// Empties the store and hands out what it held.
    fn take(&mut self) -> (held: Database)
        ensures
            held == *old(self),
            final(self)@ == StoreView::empty(),
    {
        let mut held = Database::new();
        core::mem::swap(self, &mut held);
        held
    }

    /// Raises the host's own counter by one.
    fn inc_self_counter(&mut self) -> (res: Result<(), StoreError>)
        ensures
            final(self)@.log == old(self)@.log,
            final(self)@.self_host == old(self)@.self_host,
            match old(self)@.self_host {
                None => res == Err::<(), StoreError>(StoreError::NoSelfRow) && final(self)@ == old(
                    self,
                )@,
                Some(host) => if old(self)@.clock[host] == u64::MAX {
                    res == Err::<(), StoreError>(StoreError::CounterOverflow) && final(self)@
                        == old(self)@
                } else {
                    res is Ok && final(self)@.clock == old(self)@.clock.insert(
                        host,
                        (old(self)@.clock[host] + 1) as u64,
                    )
                },
            },
    {
        proof {
            use_type_invariant(&*self);
        }
        let host: String = match &self.self_host {
            Some(host) => host.clone(),
            None => {
                return Err(StoreError::NoSelfRow);
            },
        };
        let counter: u64 = match self.clock.get(host.as_str()) {
            Some(counter) => counter,
            None => {
                return Err(StoreError::NoSelfRow);
            },
        };
        if counter == u64::MAX {
            return Err(StoreError::CounterOverflow);
        }
        let Database { entries, mut clock, self_host } = self.take();
        clock.insert(host, counter + 1);
        *self = Database { entries, clock, self_host };
        Ok(())
    }

    /// The newest key of the log.
    pub fn newest_key(&self) -> (top: Option<u128>)
        ensures
            top == newest(self@.log),
    {
        let len: usize = self.entries.len();
        if len == 0 {
            None
        } else {
            Some(self.entries[len - 1].0)
        }
    }

    /// A local write with the candidate key given: the entry gets the
    /// candidate, or the successor of the newest key where the candidate is
    /// not newer than the log, and becomes the newest row; the host's own
    /// counter goes up by one. Returns the key. A refused write changes
    /// nothing.
    pub fn write_local_at(&mut self, candidate: u128, entry: ClipboardEntry) -> (res: Result<
        u128,
        StoreError,
    >)
        ensures
            res == old(self)@.local_key(candidate),
            final(self)@ == old(self)@.write_local(candidate, entry@),
            res matches Ok(key) ==> final(self)@.self_counter() == old(self)@.self_counter() + 1
                && final(self)@.log == old(self)@.log.push((key, entry@)) && !has_key(
                old(self)@.log,
                key,
            ),
            res is Err ==> final(self)@ == old(self)@,
    {
        proof {
            use_type_invariant(&*self);
        }
        let counter: u64 = match self.self_counter() {
            Some(counter) => counter,
            None => {
                return Err(StoreError::NoSelfRow);
            },
        };
        if counter == u64::MAX {
            return Err(StoreError::CounterOverflow);
        }
        let key: u128 = match assign_key(self.newest_key(), candidate) {
            Some(key) => key,
            None => {
                return Err(StoreError::KeyExhausted);
            },
        };
        match self.inc_self_counter() {
            Ok(()) => {},
            Err(error) => {
                return Err(error);
            },
        }
        proof {
            use_type_invariant(&*self);
            lemma_with_row_newest(self@.log, key, entry@);
            assert(log_view(self.entries@.push((key, entry))) =~= self@.log.push((key, entry@)));
        }
        let Database { mut entries, clock, self_host } = self.take();
        entries.push((key, entry));
        *self = Database { entries, clock, self_host };
        Ok(key)
    }

    /// A local write: `write_local_at` with a candidate key made now from the
    /// time and fresh random bits. On success the entry is the newest row
    /// under the returned key, which is above every key the log had, and the
    /// host's own counter is one higher. It succeeds whenever the host's own
    /// row is made, its counter is below the highest value and the newest key
    /// of the log has a successor. A refused write changes nothing.
    pub fn write_local(&mut self, entry: ClipboardEntry) -> (res: Result<u128, StoreError>)
        ensures
            exists|candidate: u128|
                res == old(self)@.local_key(candidate) && final(self)@ == old(self)@.write_local(
                    candidate,
                    entry@,
                ),
            res matches Ok(key) ==> final(self)@.self_counter() == old(self)@.self_counter() + 1
                && final(self)@.log == old(self)@.log.push((key, entry@)) && !has_key(
                old(self)@.log,
                key,
            ),
            res is Err ==> final(self)@ == old(self)@,
            old(self)@.can_write_local() ==> res is Ok,
            old(self)@.self_host is None ==> res == Err::<u128, StoreError>(StoreError::NoSelfRow),
    {
        let candidate: u128 = fresh_key();
        self.write_local_at(candidate, entry)
    }

    /// A replicated write: the row goes into the log at its place in key
    /// order, unless the log has the key already. No counter moves.
    pub fn write_replicated(&mut self, key: u128, entry: ClipboardEntry) -> (status: WriteStatus)
        ensures
            final(self)@ == old(self)@.write_replicated(key, entry@),
            status == if has_key(old(self)@.log, key) {
                WriteStatus::AlreadyPresent
            } else {
                WriteStatus::Inserted
            },
            final(self)@.clock == old(self)@.clock,
            has_key(final(self)@.log, key),
            has_key(old(self)@.log, key) ==> final(self)@ == old(self)@,
    {
        proof {
            use_type_invariant(&*self);
        }
        let ghost log = self@.log;
        let mut p: usize = self.entries.len();
        while p > 0 && self.entries[p - 1].0 > key
            invariant
                p <= self.entries.len(),
                log == log_view(self.entries@),
                forall|i: int| p <= i < log.len() ==> key < (#[trigger] log[i]).0,
            decreases p,
        {
            p -= 1;
        }
        if p > 0 && self.entries[p - 1].0 == key {
            proof {
                assert(log[p - 1].0 == key);
                lemma_with_row_present(log, key, entry@);
            }
            return WriteStatus::AlreadyPresent;
        }
        proof {
            crate::log::lemma_with_row(log, key, entry@);
            assert forall|i: int| 0 <= i < p implies (#[trigger] log[i]).0 < key by {
                assert(log[p - 1].0 < key);
                if i < p - 1 {
                    assert(log[i].0 < log[p - 1].0);
                }
            }
            lemma_with_row_insert(log, p as int, key, entry@);
            assert(log_view(self.entries@.insert(p as int, (key, entry))) =~= log.insert(
                p as int,
                (key, entry@),
            ));
            if has_key(log, key) {
                let i = choose|i: int| 0 <= i < log.len() && #[trigger] log[i].0 == key;
                assert(i < p || p <= i);
            }
        }
        let Database { mut entries, clock, self_host } = self.take();
        entries.insert(p, (key, entry));
        *self = Database { entries, clock, self_host };
        WriteStatus::Inserted
    }

    /// Writes a text under the given key: as a local write where `local` is
    /// set, the key being the candidate, else as a replicated write. Returns
    /// how many rows the log gained.
    pub fn save_text(&mut self, text: String, timestamp: u128, local: bool) -> (res: Result<
        usize,
        StoreError,
    >)
        ensures
            saved(old(self)@, final(self)@, EntryView::Text(text@), timestamp, local, res),
    {
        self.save(ClipboardEntry::Text(text), timestamp, local)
    }

    /// Writes an image under the given key, as `save_text` writes a text.
    pub fn save_image(&mut self, image: SerializableImage, timestamp: u128, local: bool) -> (res:
        Result<usize, StoreError>)
        ensures
            saved(old(self)@, final(self)@, EntryView::Image(image@), timestamp, local, res),
    {
        self.save(ClipboardEntry::Image(image), timestamp, local)
    }

    /// Writes an entry under the given key, locally or as a replica.
    pub fn save(&mut self, entry: ClipboardEntry, timestamp: u128, local: bool) -> (res: Result<
        usize,
        StoreError,
    >)
        ensures
            saved(old(self)@, final(self)@, entry@, timestamp, local, res),
    {
        if local {
            match self.write_local_at(timestamp, entry) {
                Ok(_) => Ok(1),
                Err(error) => Err(error),
            }
        } else {
            match self.write_replicated(timestamp, entry) {
                WriteStatus::Inserted => Ok(1),
                WriteStatus::AlreadyPresent => Ok(0),
            }
        }
    }

    /// Merges a clock into the store's clock: each counter becomes the larger
    /// of the two. No counter goes down, and the host's own row is not
    /// touched.
    pub fn sync_clock(&mut self, clock_map: &Clock)
        ensures
            final(self)@ == old(self)@.merge_clock(clock_map@),
            forall|host: Seq<char>|
                counter_of(final(self)@.clock, host) >= counter_of(old(self)@.clock, host),
            final(self)@.self_counter() == old(self)@.self_counter(),
    {
        proof {
            use_type_invariant(&*self);
        }
        let Database { entries, mut clock, self_host } = self.take();
        match &self_host {
            Some(host) => {
                clock.merge_from(clock_map, Some(host.as_str()));
            },
            None => {
                clock.merge_from(clock_map, None);
            },
        }
        *self = Database { entries, clock, self_host };
    }

    /// A copy of the whole clock, the host's own row included.
    pub fn load_clock(&self) -> (clock: Clock)
        ensures
            clock@ == self@.clock,
    {
        self.clock.clone()
    }

    /// The entry under a key, if the log has the key.
    pub fn get(&self, key: u128) -> (found: Option<ClipboardEntry>)
        ensures
            match entry_of(self@.log, key) {
                Some(entry) => found matches Some(held) && held@ == entry,
                None => found is None,
            },
    {
        proof {
            use_type_invariant(self);
        }
        let ghost log = self@.log;
        let mut low: usize = 0;
        let mut high: usize = self.entries.len();
        while low < high
            invariant
                low <= high <= self.entries.len(),
                log == log_view(self.entries@),
                ascending(log),
                forall|i: int| 0 <= i < low ==> (#[trigger] log[i]).0 < key,
                forall|i: int| high <= i < log.len() ==> key < (#[trigger] log[i]).0,
            decreases high - low,
        {
            let middle: usize = low + (high - low) / 2;
            let held: u128 = self.entries[middle].0;
            if held == key {
                proof {
                    assert(log[middle as int].0 == key);
                    lemma_entry_of(log, middle as int);
                }
                return Some(self.entries[middle].1.clone());
            }
            proof {
                assert(log[middle as int].0 == held);
            }
            if held < key {
                proof {
                    assert forall|i: int| 0 <= i < middle + 1 implies (#[trigger] log[i]).0
                        < key by {
                        if i < middle {
                            assert(log[i].0 < log[middle as int].0);
                        }
                    }
                }
                low = middle + 1;
            } else {
                proof {
                    assert forall|i: int| middle <= i < log.len() implies key < (
                    #[trigger] log[i]).0 by {
                        if middle < i {
                            assert(log[middle as int].0 < log[i].0);
                        }
                    }
                }
                high = middle;
            }
        }
        proof {
            if has_key(log, key) {
                let i = choose|i: int| 0 <= i < log.len() && #[trigger] log[i].0 == key;
                assert(i < low || high <= i);
            }
        }
        None
    }

    /// The keys of the log, oldest first.
    pub fn keys(&self) -> (listed: Vec<u128>)
        ensures
            listed@ == keys(self@.log),
    {
        let mut listed: Vec<u128> = Vec::new();
        let mut i: usize = 0;
        while i < self.entries.len()
            invariant
                i <= self.entries.len(),
                listed@ == keys(self@.log).take(i as int),
            decreases self.entries.len() - i,
        {
            listed.push(self.entries[i].0);
            assert(listed@ =~= keys(self@.log).take(i + 1));
            i += 1;
        }
        assert(keys(self@.log).take(i as int) =~= keys(self@.log));
        listed
    }

    /// How many entries the log holds.
    pub fn len(&self) -> (len: usize)
        ensures
            len == self@.log.len(),
    {
        self.entries.len()
    }

    /// The entry that is `offset` places behind the newest one; offset 0 is
    /// the newest.
    pub fn read_clipboard(&self, offset: usize) -> (res: Result<ClipboardEntry, StoreError>)
        ensures
            match self@.read_at_offset(offset as nat) {
                Ok(entry) => res matches Ok(found) && found@ == entry,
                Err(error) => res matches Err(given) && given == error,
            },
    {
        let len: usize = self.entries.len();
        if offset < len {
            Ok(self.entries[len - 1 - offset].1.clone())
        } else {
            Err(StoreError::NoSuchOffset)
        }
    }

    /// The number of rows in a listing of at most `limit` rows of this log.
    fn listing_len(&self, limit: u64) -> (count: usize)
        ensures
            count == capped(limit as nat, self@.log.len()),
    {
        let len: usize = self.entries.len();
        if limit < len as u64 {
            limit as usize
        } else {
            len
        }
    }

    /// The `limit` newest entries, newest first, each with its key.
    pub fn recent_rows(&self, limit: u64) -> (rows: Vec<(ClipboardEntry, u128)>)
        ensures
            keyed_view(rows@) == recent(self@.log, limit as nat),
    {
        let len: usize = self.entries.len();
        let count: usize = self.listing_len(limit);
        let mut rows: Vec<(ClipboardEntry, u128)> = Vec::new();
        let mut i: usize = 0;
        while i < count
            invariant
                i <= count <= len,
                len == self.entries.len(),
                rows@.len() == i,
                keyed_view(rows@) == recent(self@.log, limit as nat).take(i as int),
                count == recent(self@.log, limit as nat).len(),
            decreases count - i,
        {
            let ghost before = rows@;
            let ghost target = recent(self@.log, limit as nat);
            let row = &self.entries[len - 1 - i];
            rows.push((row.1.clone(), row.0));
            proof {
                assert forall|k: int| 0 <= k < i + 1 implies keyed_view(rows@)[k] == target.take(
                    i + 1,
                )[k] by {
                    if k < i {
                        assert(keyed_view(before)[k] == target.take(i as int)[k]);
                    } else {
                        assert(self@.log[len - 1 - i] == (row.0, row.1@));
                    }
                }
                assert(keyed_view(rows@) =~= target.take(i + 1));
            }
            i += 1;
        }
        assert(recent(self@.log, limit as nat).take(i as int) =~= recent(self@.log, limit as nat));
        rows
    }

    /// The `limit` newest entries, newest first, each with the text of its
    /// key.
    pub fn get_recent(&self, limit: u64) -> (rows: Vec<(ClipboardEntry, String)>)
        ensures
            spells(listed_view(rows@), recent(self@.log, limit as nat)),
    {
        let keyed = self.recent_rows(limit);
        spell_keys(keyed)
    }

    /// The names of the `limit` newest entries, newest first: a text by
    /// itself, an image by the word `image`.
    pub fn get_history(&self, limit: u64) -> (names: Vec<String>)
        ensures
            texts(names@) == self@.history(limit as nat),
    {
        let len: usize = self.entries.len();
        let count: usize = self.listing_len(limit);
        let mut names: Vec<String> = Vec::new();
        let mut i: usize = 0;
        while i < count
            invariant
                i <= count <= len,
                len == self.entries.len(),
                names@.len() == i,
                texts(names@) == self@.history(limit as nat).take(i as int),
                count == self@.history(limit as nat).len(),
            decreases count - i,
        {
            let ghost before = names@;
            let ghost target = self@.history(limit as nat);
            let name: String = self.entries[len - 1 - i].1.summary();
            names.push(name);
            proof {
                assert forall|k: int| 0 <= k < i + 1 implies texts(names@)[k] == target.take(
                    i + 1,
                )[k] by {
                    if k < i {
                        assert(texts(before)[k] == target.take(i as int)[k]);
                    } else {
                        assert(self@.log[len - 1 - i].1 == self.entries@[len - 1 - i].1@);
                    }
                }
                assert(texts(names@) =~= target.take(i + 1));
            }
            i += 1;
        }
        assert(self@.history(limit as nat).take(i as int) =~= self@.history(limit as nat));
        names
    }
}

/// What `save` does: a local write with the key as candidate, or a replicated
/// write under the key; the result counts the rows that the log gained.
pub open spec fn saved(
    before: StoreView,
    after: StoreView,
    entry: EntryView,
    timestamp: u128,
    local: bool,
    res: Result<usize, StoreError>,
) -> bool {
    if local {
        &&& after == before.write_local(timestamp, entry)
        &&& match before.local_key(timestamp) {
            Ok(_) => res == Ok::<usize, StoreError>(1),
            Err(error) => res == Err::<usize, StoreError>(error),
        }
    } else {
        &&& after == before.write_replicated(timestamp, entry)
        &&& res == Ok::<usize, StoreError>(
            if has_key(before.log, timestamp) {
                0
            } else {
                1
            },
        )
    }
}

/// Writes each key of a listing as text.
pub fn spell_keys(keyed: Vec<(ClipboardEntry, u128)>) -> (rows: Vec<(ClipboardEntry, String)>)
    ensures
        spells(listed_view(rows@), keyed_view(keyed@)),
{
    let mut rows: Vec<(ClipboardEntry, String)> = Vec::new();
    let mut i: usize = 0;
    while i < keyed.len()
        invariant
            i <= keyed.len(),
            rows@.len() == i,
            spells(listed_view(rows@), keyed_view(keyed@).take(i as int)),
        decreases keyed.len() - i,
    {
        let ghost before = rows@;
        let text: String = key_text(keyed[i].1);
        rows.push((keyed[i].0.clone(), text));
        proof {
            let target = keyed_view(keyed@).take(i + 1);
            assert forall|k: int| 0 <= k < i + 1 implies (#[trigger] listed_view(rows@)[k]).0
                == target[k].0 && listed_view(rows@)[k].1 == ulid_text(target[k].1) && ulid_value(
                listed_view(rows@)[k].1,
            ) == Some(target[k].1) by {
                if k < i {
                    assert(listed_view(before)[k] == listed_view(rows@)[k]);
                    assert(keyed_view(keyed@).take(i as int)[k] == target[k]);
                }
            }
        }
        i += 1;
    }
    assert(keyed_view(keyed@).take(i as int) =~= keyed_view(keyed@));
    rows
}

/// A request to the store.
#[derive(Debug)]
pub enum DBCommand {
    /// Write an image under the key: a local write where `local` is set, the
    /// key being the candidate, else a replicated one.
    CopyImage { image: SerializableImage, timestamp: u128, local: bool },
    /// Write a text, as `CopyImage` writes an image.
    CopyText { text: String, timestamp: u128, local: bool },
    /// Read the entry that is `offset` places behind the newest.
    Paste { offset: usize },
    /// List the names of the `limit` newest entries.
    History { limit: u64 },
    /// List the `length` newest entries with their keys.
    Recent { length: u64 },
    /// Make the host's own clock row.
    InsertSelf { host_name: String },
    /// Give a copy of the clock.
    LoadClock,
    /// Merge a clock into the store's clock.
    SaveClock { clock: Clock },
}

/// The store's answer to a request that it served.
#[derive(Debug)]
pub enum Response {
    /// Done; there is nothing to report.
    Success,
    /// The names of the uploaded files.
    Files { names: Vec<String> },
    /// The names of the newest entries, newest first.
    History { names: Vec<String> },
    /// The newest entries with the text of their keys, newest first.
    Recent { values: Vec<(ClipboardEntry, String)> },
    /// A copy of the clock.
    Clock { data: Clock },
    /// The entry that a paste asked for.
    Entry { entry: ClipboardEntry },
    /// The key under which a write stands, and whether the log gained a row.
    Written { key: u128, inserted: bool },
}

/// What the store does with a request: how the state moves and what it
/// answers.
pub open spec fn handled(
    before: StoreView,
    cmd: DBCommand,
    after: StoreView,
    res: Result<Response, StoreError>,
) -> bool {
    match cmd {
        DBCommand::CopyImage { image, timestamp, local } => written(
            before,
            after,
            EntryView::Image(image@),
            timestamp,
            local,
            res,
        ),
        DBCommand::CopyText { text, timestamp, local } => written(
            before,
            after,
            EntryView::Text(text@),
            timestamp,
            local,
            res,
        ),
        DBCommand::Paste { offset } => after == before && match before.read_at_offset(
            offset as nat,
        ) {
            Ok(found) => res matches Ok(Response::Entry { entry }) && entry@ == found,
            Err(error) => res matches Err(given) && given == error,
        },
        DBCommand::History { limit } => after == before && (res matches Ok(
            Response::History { names },
        ) && texts(names@) == before.history(limit as nat)),
        DBCommand::Recent { length } => after == before && (res matches Ok(
            Response::Recent { values },
        ) && spells(listed_view(values@), recent(before.log, length as nat))),
        DBCommand::InsertSelf { host_name } => match before.insert_self(host_name@) {
            Ok(next) => after == next && res matches Ok(Response::Success),
            Err(error) => after == before && (res matches Err(given) && given == error),
        },
        DBCommand::LoadClock => after == before && (res matches Ok(Response::Clock { data })
            && data@ == before.clock),
        DBCommand::SaveClock { clock } => after == before.merge_clock(clock@) && res matches Ok(
            Response::Success,
        ),
    }
}

/// What a write request does: a local write answers with the key it gave, a
/// replicated one with the key it was given and whether that key was new.
pub open spec fn written(
    before: StoreView,
    after: StoreView,
    entry: EntryView,
    timestamp: u128,
    local: bool,
    res: Result<Response, StoreError>,
) -> bool {
    if local {
        &&& after == before.write_local(timestamp, entry)
        &&& match before.local_key(timestamp) {
            Ok(made) => res matches Ok(Response::Written { key, inserted }) && key == made
                && inserted,
            Err(error) => res matches Err(given) && given == error,
        }
    } else {
        &&& after == before.write_replicated(timestamp, entry)
        &&& res matches Ok(Response::Written { key, inserted }) && key == timestamp && inserted
            == !has_key(before.log, timestamp)
    }
}

impl Database {
    /// Writes an entry under the given key, locally or as a replica, and
    /// answers as a write request is answered.
    pub fn write(&mut self, entry: ClipboardEntry, timestamp: u128, local: bool) -> (res: Result<
        Response,
        StoreError,
    >)
        ensures
            written(old(self)@, final(self)@, entry@, timestamp, local, res),
    {
        if local {
            match self.write_local_at(timestamp, entry) {
                Ok(key) => Ok(Response::Written { key, inserted: true }),
                Err(error) => Err(error),
            }
        } else {
            match self.write_replicated(timestamp, entry) {
                WriteStatus::Inserted => Ok(Response::Written { key: timestamp, inserted: true }),
                WriteStatus::AlreadyPresent => Ok(
                    Response::Written { key: timestamp, inserted: false },
                ),
            }
        }
    }

    /// Serves one request: the store moves as the request says and the answer
    /// reports it. A request that is refused changes nothing.
    pub fn handle(&mut self, cmd: DBCommand) -> (res: Result<Response, StoreError>)
        ensures
            handled(old(self)@, cmd, final(self)@, res),
    {
        match cmd {
            DBCommand::CopyImage { image, timestamp, local } => self.write(
                ClipboardEntry::Image(image),
                timestamp,
                local,
            ),
            DBCommand::CopyText { text, timestamp, local } => self.write(
                ClipboardEntry::Text(text),
                timestamp,
                local,
            ),
            DBCommand::Paste { offset } => match self.read_clipboard(offset) {
                Ok(entry) => Ok(Response::Entry { entry }),
                Err(error) => Err(error),
            },
            DBCommand::History { limit } => Ok(Response::History { names: self.get_history(limit) }),
            DBCommand::Recent { length } => Ok(Response::Recent { values: self.get_recent(length) }),
            DBCommand::InsertSelf { host_name } => match self.insert_self(host_name) {
                Ok(()) => Ok(Response::Success),
                Err(error) => Err(error),
            },
            DBCommand::LoadClock => Ok(Response::Clock { data: self.load_clock() }),
            DBCommand::SaveClock { clock } => {
                self.sync_clock(&clock);
                Ok(Response::Success)
            },
        }
    }
}

impl StoreError {
    /// The words in which the error is reported to the user.
    pub fn message(&self) -> (text: String)
        ensures
            text@ == error_text(*self),
    {
        match self {
            StoreError::NoSelfRow => "this host has no clock row yet".to_owned(),
            StoreError::HostConflict => "a peer already has this host's name".to_owned(),
            StoreError::CounterOverflow => "the host's counter is at its highest value".to_owned(),
            StoreError::KeyExhausted => "no key is left in this millisecond".to_owned(),
            StoreError::NoSuchOffset => "no entry at that offset".to_owned(),
        }
    }
}

/// The words in which an error is reported to the user.
pub open spec fn error_text(error: StoreError) -> Seq<char> {
    match error {
        StoreError::NoSelfRow => "this host has no clock row yet"@,
        StoreError::HostConflict => "a peer already has this host's name"@,
        StoreError::CounterOverflow => "the host's counter is at its highest value"@,
        StoreError::KeyExhausted => "no key is left in this millisecond"@,
        StoreError::NoSuchOffset => "no entry at that offset"@,
    }
}

/// The store after a run of local writes, each given as candidate key and
/// entry, in order.
pub open spec fn after_local_writes(start: StoreView, writes: Seq<(u128, EntryView)>) -> StoreView
    decreases writes.len(),
{
    if writes.len() == 0 {
        start
    } else {
        after_local_writes(start, writes.drop_last()).write_local(
            writes.last().0,
            writes.last().1,
        )
    }
}

/// How many writes of the run were accepted.
pub open spec fn accepted_writes(start: StoreView, writes: Seq<(u128, EntryView)>) -> nat
    decreases writes.len(),
{
    if writes.len() == 0 {
        0
    } else {
        let earlier = accepted_writes(start, writes.drop_last());
        if after_local_writes(start, writes.drop_last()).local_key(writes.last().0) is Ok {
            earlier + 1
        } else {
            earlier
        }
    }
}

/// Each operation of the store keeps it well formed.
pub proof fn operations_keep_order(
    store: StoreView,
    host: Seq<char>,
    key: u128,
    entry: EntryView,
    incoming: ClockMap,
)
    requires
        store.wf(),
    ensures
        store.insert_self(host) matches Ok(next) ==> next.wf(),
        store.write_local(key, entry).wf(),
        store.write_replicated(key, entry).wf(),
        store.merge_clock(incoming).wf(),
{
    crate::log::lemma_with_row(store.log, key, entry);
    match store.local_key(key) {
        Ok(made) => {
            lemma_with_row_newest(store.log, made, entry);
        },
        Err(_) => {},
    }
}

/// After any run of local writes, the host's own counter has gone up by the
/// number of writes that were accepted, and so has the length of the log. On
/// a host whose row was just made, the counter is that number.
pub proof fn local_writes_counted(start: StoreView, writes: Seq<(u128, EntryView)>)
    requires
        start.wf(),
    ensures
        after_local_writes(start, writes).wf(),
        after_local_writes(start, writes).self_host == start.self_host,
        after_local_writes(start, writes).self_counter() == start.self_counter() + accepted_writes(
            start,
            writes,
        ),
        after_local_writes(start, writes).log.len() == start.log.len() + accepted_writes(
            start,
            writes,
        ),
    decreases writes.len(),
{
    if writes.len() > 0 {
        local_writes_counted(start, writes.drop_last());
        let middle = after_local_writes(start, writes.drop_last());
        operations_keep_order(middle, Seq::empty(), writes.last().0, writes.last().1, Map::empty());
    }
}

/// A replicated write of a key, followed by another of the same key, leaves
/// the log with exactly one row of that key: the second write changes
/// nothing.
pub proof fn replicated_twice_one_row(store: StoreView, key: u128, first: EntryView, second: EntryView)
    requires
        store.wf(),
    ensures
        store.write_replicated(key, first).write_replicated(key, second) == store.write_replicated(
            key,
            first,
        ),
        exists|i: int|
            sole_row(store.write_replicated(key, first).write_replicated(key, second).log, key, i),
{
    crate::log::lemma_with_row(store.log, key, first);
    let once = store.write_replicated(key, first);
    crate::log::lemma_with_row(once.log, key, second);
    let log = once.log;
    let i = choose|i: int| 0 <= i < log.len() && #[trigger] log[i].0 == key;
    assert forall|j: int| 0 <= j < log.len() && #[trigger] log[j].0 == key implies j == i by {
        if j < i {
            assert(log[j].0 < log[i].0);
        } else if i < j {
            assert(log[i].0 < log[j].0);
        }
    }
    assert(sole_row(log, key, i));
}

/// An entry that a local write has just stored is what a read at offset 0
/// returns.
pub proof fn local_write_is_newest(store: StoreView, candidate: u128, entry: EntryView)
    requires
        store.wf(),
        store.local_key(candidate) is Ok,
    ensures
        store.write_local(candidate, entry).read_at_offset(0) == Ok::<EntryView, StoreError>(entry),
{
}

/// An entry that a replicated write has just stored under a new key can be
/// read at some offset.
pub proof fn replicated_write_is_readable(store: StoreView, key: u128, entry: EntryView)
    requires
        store.wf(),
        !has_key(store.log, key),
    ensures
        exists|offset: nat|
            #[trigger] store.write_replicated(key, entry).read_at_offset(offset) == Ok::<
                EntryView,
                StoreError,
            >(entry),
{
    crate::log::lemma_with_row(store.log, key, entry);
    let log = store.write_replicated(key, entry).log;
    let i = choose|i: int| 0 <= i < log.len() && log[i] == (key, entry);
    let offset = (log.len() - 1 - i) as nat;
    assert(store.write_replicated(key, entry).read_at_offset(offset) == Ok::<
        EntryView,
        StoreError,
    >(entry));
}

/// The clock that kept rows stand for, and the host whose row is marked as
/// the host's own. Each row gives a host, the mark and the counter. There is
/// none where a host has two rows or two rows are marked.
pub open spec fn restored_clock(rows: Seq<(String, bool, u64)>) -> Option<
    (ClockMap, Option<Seq<char>>),
>
    decreases rows.len(),
{
    if rows.len() == 0 {
        Some((Map::empty(), None))
    } else {
        match restored_clock(rows.drop_last()) {
            None => None,
            Some((clock, own)) => {
                let row = rows.last();
                if clock.contains_key(row.0@) || (row.1 && own is Some) {
                    None
                } else {
                    Some(
                        (
                            clock.insert(row.0@, row.2),
                            if row.1 {
                                Some(row.0@)
                            } else {
                                own
                            },
                        ),
                    )
                }
            },
        }
    }
}

/// The host whose row is among the first `upto` rows of the clock, if it is
/// `own`.
pub open spec fn own_among(rows: Seq<(String, u64)>, upto: int, own: Option<Seq<char>>) -> Option<
    Seq<char>,
> {
    match own {
        Some(host) => if exists|k: int| 0 <= k < upto && row_is(rows, k, host) {
            own
        } else {
            None
        },
        None => None,
    }
}

impl Database {
    /// The store that holds what was kept: the entries, written as replicas
    /// in the order given, and the clock rows. Clock rows that give a host
    /// twice, or mark two rows as the host's own, are refused.
    pub fn restore(entries: &Vec<(ClipboardEntry, u128)>, clock: &Vec<(String, bool, u64)>) -> (res:
        Result<Database, StoreError>)
        ensures
            match restored_clock(clock@) {
                Some((map, own)) => res matches Ok(db) && db@ == (StoreView {
                    log: with_rows(Seq::empty(), keyed_view(entries@)),
                    clock: map,
                    self_host: own,
                }),
                None => res matches Err(error) && error == StoreError::HostConflict,
            },
    {
        let mut db = Database::new();
        let ghost keyed = keyed_view(entries@);
        let mut i: usize = 0;
        while i < entries.len()
            invariant
                i <= entries.len(),
                keyed == keyed_view(entries@),
                db@ == (StoreView {
                    log: with_rows(Seq::empty(), keyed.take(i as int)),
                    ..StoreView::empty()
                }),
            decreases entries.len() - i,
        {
            proof {
                assert(keyed.take(i + 1).drop_last() =~= keyed.take(i as int));
                assert(keyed.take(i + 1).last() == (entries@[i as int].0@, entries@[i as int].1));
            }
            db.write_replicated(entries[i].1, entries[i].0.clone());
            i += 1;
        }
        assert(keyed.take(i as int) =~= keyed);
        proof {
            use_type_invariant(&db);
        }
        let Database { entries: held, clock: _, self_host: _ } = db;
        let mut rows = Clock::new();
        let mut own: Option<String> = None;
        let mut j: usize = 0;
        while j < clock.len()
            invariant
                j <= clock.len(),
                restored_clock(clock@.take(j as int)) == Some((rows@, option_string(own))),
                own matches Some(host) ==> rows@.contains_key(host@),
            decreases clock.len() - j,
        {
            proof {
                assert(clock@.take(j + 1).drop_last() =~= clock@.take(j as int));
                assert(clock@.take(j + 1).last() == clock@[j as int]);
            }
            let known: bool = rows.get(clock[j].0.as_str()).is_some();
            if known || (clock[j].1 && own.is_some()) {
                proof {
                    lemma_restore_fails(clock@, j + 1);
                }
                return Err(StoreError::HostConflict);
            }
            rows.insert(clock[j].0.clone(), clock[j].2);
            if clock[j].1 {
                own = Some(clock[j].0.clone());
            }
            j += 1;
        }
        assert(clock@.take(j as int) =~= clock@);
        Ok(Database { entries: held, clock: rows, self_host: own })
    }

    /// The rows of the clock as they are to be kept: for each host its name,
    /// whether the row is the host's own, and the counter. `restore` builds
    /// the same clock from them.
    pub fn clock_rows(&self) -> (rows: Vec<(String, bool, u64)>)
        ensures
            restored_clock(rows@) == Some((self@.clock, self@.self_host)),
    {
        proof {
            use_type_invariant(self);
            use_type_invariant(&self.clock);
        }
        let ghost held = self.clock.rows@;
        let ghost own = self@.self_host;
        let mut rows: Vec<(String, bool, u64)> = Vec::new();
        let mut i: usize = 0;
        while i < self.clock.rows.len()
            invariant
                i <= self.clock.rows.len(),
                held == self.clock.rows@,
                own == self@.self_host,
                crate::clock::rows_distinct(held),
                restored_clock(rows@) == Some((rows_map(held.take(i as int)), own_among(held, i as int, own))),
            decreases self.clock.rows.len() - i,
        {
            let ghost before = rows@;
            let row = &self.clock.rows[i];
            let marked: bool = match &self.self_host {
                Some(host) => host.as_str().eq(row.0.as_str()),
                None => false,
            };
            rows.push((row.0.clone(), marked, row.1));
            proof {
                let seen = held.take(i as int);
                assert(rows@.drop_last() =~= before);
                assert(held.take(i + 1) =~= seen.push(held[i as int]));
                assert(crate::clock::rows_distinct(seen));
                if rows_map(seen).contains_key(held[i as int].0@) {
                    let k = choose|k: int| row_is(seen, k, held[i as int].0@);
                    assert(held[k].0@ == held[i as int].0@);
                }
                lemma_rows_push(seen, held[i as int]);
                if marked {
                    assert(row_is(held, i as int, own->0));
                    if own_among(held, i as int, own) is Some {
                        let k = choose|k: int| 0 <= k < i && row_is(held, k, own->0);
                        assert(held[k].0@ == held[i as int].0@);
                    }
                } else {
                    if own is Some {
                        assert forall|k: int| 0 <= k < i + 1 && row_is(held, k, own->0) implies k
                            < i by {}
                    }
                }
            }
            i += 1;
        }
        proof {
            assert(held.take(i as int) =~= held);
            if own is Some {
                let k = choose|k: int| row_is(held, k, own->0);
                assert(0 <= k < i && row_is(held, k, own->0));
            }
        }
        rows
    }
}

/// Rows of which a first part is refused are refused as a whole.
proof fn lemma_restore_fails(rows: Seq<(String, bool, u64)>, upto: int)
    requires
        0 <= upto <= rows.len(),
        restored_clock(rows.take(upto)) is None,
    ensures
        restored_clock(rows) is None,
    decreases rows.len() - upto,
{
    if upto < rows.len() {
        assert(rows.take(upto + 1).drop_last() =~= rows.take(upto));
        lemma_restore_fails(rows, upto + 1);
    } else {
        assert(rows.take(upto) =~= rows);
    }
}

/// The text of an optional string.
pub open spec fn option_string(text: Option<String>) -> Option<Seq<char>> {
    match text {
        Some(text) => Some(text@),
        None => None,
    }
}

} // verus!
