//! Vector clocks: one counter per host, merged by taking the maximum.

use vstd::prelude::*;

verus! {

/// The mathematical model of a clock: host name to counter.
pub type ClockMap = Map<Seq<char>, u64>;

/// The counter that `clock` holds for `host`; a host it does not mention counts as 0.
pub open spec fn counter_of(clock: ClockMap, host: Seq<char>) -> u64 {
    if clock.contains_key(host) {
        clock[host]
    } else {
        0
    }
}

/// `remote` has seen something that `local` has not: some host has a higher
/// counter in `remote` than in `local`.
pub open spec fn outdated(local: ClockMap, remote: ClockMap) -> bool {
    exists|host: Seq<char>| #[trigger]
        remote.contains_key(host) && remote[host] > counter_of(local, host)
}

/// Row `i` is the row of `host`.
pub open spec fn row_is(rows: Seq<(String, u64)>, i: int, host: Seq<char>) -> bool {
    0 <= i < rows.len() && rows[i].0@ == host
}

/// The map that a sequence of rows stands for.
pub open spec fn rows_map(rows: Seq<(String, u64)>) -> ClockMap {
    Map::new(
        |host: Seq<char>| exists|i: int| row_is(rows, i, host),
        |host: Seq<char>| rows[choose|i: int| row_is(rows, i, host)].1,
    )
}

/// No host has two rows.
pub open spec fn rows_distinct(rows: Seq<(String, u64)>) -> bool {
    forall|i: int, j: int|
        0 <= i < rows.len() && 0 <= j < rows.len() && #[trigger] rows[i].0@ == #[trigger] rows[j].0@
            ==> i == j
}

/// In distinct rows, the row of a host is the only one: the map gives its counter.
pub proof fn lemma_row_value(rows: Seq<(String, u64)>, i: int)
    requires
        rows_distinct(rows),
        0 <= i < rows.len(),
    ensures
        rows_map(rows).contains_key(rows[i].0@),
        rows_map(rows)[rows[i].0@] == rows[i].1,
{
    let host = rows[i].0@;
    assert(row_is(rows, i, host));
    let j = choose|j: int| row_is(rows, j, host);
    assert(rows[j].0@ == rows[i].0@);
}

/// A new row for a host that has none extends the map by that host.
pub proof fn lemma_rows_push(rows: Seq<(String, u64)>, row: (String, u64))
    requires
        rows_distinct(rows),
        !rows_map(rows).contains_key(row.0@),
    ensures
        rows_distinct(rows.push(row)),
        rows_map(rows.push(row)) == rows_map(rows).insert(row.0@, row.1),
{
    let longer = rows.push(row);
    assert forall|i: int, j: int|
        0 <= i < longer.len() && 0 <= j < longer.len() && #[trigger] longer[i].0@
            == #[trigger] longer[j].0@ implies i == j by {
        if i < rows.len() {
            assert(row_is(rows, i, longer[i].0@));
        }
        if j < rows.len() {
            assert(row_is(rows, j, longer[j].0@));
        }
    }
    assert forall|host: Seq<char>|
        rows_map(longer).contains_key(host) == rows_map(rows).insert(row.0@, row.1).contains_key(
            host,
        ) by {
        if rows_map(longer).contains_key(host) {
            let i = choose|i: int| row_is(longer, i, host);
            if i < rows.len() {
                assert(row_is(rows, i, host));
            }
        }
        if rows_map(rows).contains_key(host) {
            let i = choose|i: int| row_is(rows, i, host);
            assert(row_is(longer, i, host));
        }
        if host == row.0@ {
            assert(row_is(longer, rows.len() as int, host));
        }
    }
    assert forall|host: Seq<char>| #[trigger]
        rows_map(longer).contains_key(host) implies rows_map(longer)[host] == rows_map(
        rows,
    ).insert(row.0@, row.1)[host] by {
        let i = choose|i: int| row_is(longer, i, host);
        lemma_row_value(longer, i);
        if i < rows.len() {
            assert(row_is(rows, i, host));
            lemma_row_value(rows, i);
        }
    }
    assert(rows_map(longer) =~= rows_map(rows).insert(row.0@, row.1));
}

/// A new counter in the row of a host changes the map at that host only.
pub proof fn lemma_rows_update(rows: Seq<(String, u64)>, i: int, row: (String, u64))
    requires
        rows_distinct(rows),
        0 <= i < rows.len(),
        rows[i].0@ == row.0@,
    ensures
        rows_distinct(rows.update(i, row)),
        rows_map(rows.update(i, row)) == rows_map(rows).insert(row.0@, row.1),
{
    let changed = rows.update(i, row);
    assert forall|a: int, b: int|
        0 <= a < changed.len() && 0 <= b < changed.len() && #[trigger] changed[a].0@
            == #[trigger] changed[b].0@ implies a == b by {
        assert(rows[a].0@ == changed[a].0@);
        assert(rows[b].0@ == changed[b].0@);
    }
    assert forall|host: Seq<char>|
        rows_map(changed).contains_key(host) == rows_map(rows).insert(row.0@, row.1).contains_key(
            host,
        ) by {
        if rows_map(changed).contains_key(host) {
            let k = choose|k: int| row_is(changed, k, host);
            assert(row_is(rows, k, host));
        }
        if rows_map(rows).contains_key(host) {
            let k = choose|k: int| row_is(rows, k, host);
            assert(row_is(changed, k, host));
        }
        if host == row.0@ {
            assert(row_is(changed, i, host));
        }
    }
    assert forall|host: Seq<char>| #[trigger]
        rows_map(changed).contains_key(host) implies rows_map(changed)[host] == rows_map(
        rows,
    ).insert(row.0@, row.1)[host] by {
        let k = choose|k: int| row_is(changed, k, host);
        lemma_row_value(changed, k);
        assert(row_is(rows, k, host));
        lemma_row_value(rows, k);
    }
    assert(rows_map(changed) =~= rows_map(rows).insert(row.0@, row.1));
}

/// The larger of two counters.
pub open spec fn larger(a: u64, b: u64) -> u64 {
    if a >= b {
        a
    } else {
        b
    }
}

/// `local` after one report `(host, time)` is merged into it: the counter of
/// `host` becomes the larger of the two, unless `host` is the protected one.
pub open spec fn merged_one(
    local: ClockMap,
    host: Seq<char>,
    time: u64,
    protected: Option<Seq<char>>,
) -> ClockMap {
    if protected == Some(host) {
        local
    } else {
        local.insert(host, larger(counter_of(local, host), time))
    }
}

/// `local` after `incoming` is merged into it. Each host of `incoming` gets the
/// larger of its two counters; the protected host keeps what `local` says of it.
pub open spec fn merged(local: ClockMap, incoming: ClockMap, protected: Option<Seq<char>>) -> ClockMap {
    Map::new(
        |host: Seq<char>|
            local.contains_key(host) || (incoming.contains_key(host) && protected != Some(host)),
        |host: Seq<char>|
            if incoming.contains_key(host) && protected != Some(host) {
                larger(counter_of(local, host), incoming[host])
            } else {
                local[host]
            },
    )
}

/// Merging one more report after a merge is the merge with that report added.
pub proof fn lemma_merged_step(
    local: ClockMap,
    incoming: ClockMap,
    host: Seq<char>,
    time: u64,
    protected: Option<Seq<char>>,
)
    requires
        !incoming.contains_key(host),
    ensures
        merged_one(merged(local, incoming, protected), host, time, protected) == merged(
            local,
            incoming.insert(host, time),
            protected,
        ),
{
    assert(merged_one(merged(local, incoming, protected), host, time, protected) =~= merged(
        local,
        incoming.insert(host, time),
        protected,
    ));
}

/// A vector clock: for each host it mentions, the highest counter seen from that host.
#[derive(Debug)]
pub struct Clock {
    pub(crate) rows: Vec<(String, u64)>,
}

impl View for Clock {
    type V = Map<Seq<char>, u64>;

    open(crate) spec fn view(&self) -> Map<Seq<char>, u64> {
        rows_map(self.rows@)
    }
}

impl Clone for Clock {
    fn clone(&self) -> (copy: Clock)
        ensures
            copy@ == self@,
    {
        proof {
            use_type_invariant(self);
        }
        let mut rows: Vec<(String, u64)> = Vec::new();
        let mut i: usize = 0;
        while i < self.rows.len()
            invariant
                i <= self.rows.len(),
                rows@ == self.rows@.take(i as int),
            decreases self.rows.len() - i,
        {
            rows.push((self.rows[i].0.clone(), self.rows[i].1));
            assert(rows@ =~= self.rows@.take(i + 1));
            i += 1;
        }
        assert(rows@ =~= self.rows@);
        Clock { rows }
    }
}

impl Clock {
    /// Each host has at most one row.
    #[verifier::type_invariant]
    pub open(crate) spec fn wf(&self) -> bool {
        rows_distinct(self.rows@)
    }

    /// The clock that mentions no host.
    pub fn new() -> (clock: Clock)
        ensures
            clock@ == Map::<Seq<char>, u64>::empty(),
    {
        let clock = Clock { rows: Vec::new() };
        assert(clock@ =~= Map::<Seq<char>, u64>::empty());
        clock
    }

    /// The index of the row of `host`, if it has one.
    pub(crate) fn find(&self, host: &str) -> (found: Option<usize>)
        ensures
            match found {
                Some(i) => row_is(self.rows@, i as int, host@),
                None => !self@.contains_key(host@),
            },
    {
        let mut i: usize = 0;
        while i < self.rows.len()
            invariant
                i <= self.rows.len(),
                forall|k: int| 0 <= k < i ==> !row_is(self.rows@, k, host@),
            decreases self.rows.len() - i,
        {
            if self.rows[i].0.as_str().eq(host) {
                return Some(i);
            }
            i += 1;
        }
        None
    }

    /// The counter of `host`, if the clock mentions it.
    pub fn get(&self, host: &str) -> (time: Option<u64>)
        ensures
            time == if self@.contains_key(host@) {
                Some(self@[host@])
            } else {
                None
            },
    {
        proof {
            use_type_invariant(self);
        }
        match self.find(host) {
            Some(i) => {
                proof {
                    lemma_row_value(self.rows@, i as int);
                }
                Some(self.rows[i].1)
            },
            None => None,
        }
    }

    /// Sets the counter of `host` to `time`, whatever it was.
    pub fn insert(&mut self, host: String, time: u64)
        ensures
            final(self)@ == old(self)@.insert(host@, time),
    {
        proof {
            use_type_invariant(&*self);
        }
        let found = self.find(host.as_str());
        let mut rows: Vec<(String, u64)> = Vec::new();
        core::mem::swap(&mut self.rows, &mut rows);
        match found {
            Some(i) => {
                proof {
                    lemma_rows_update(rows@, i as int, (host, time));
                }
                rows.set(i, (host, time));
            },
            None => {
                proof {
                    lemma_rows_push(rows@, (host, time));
                }
                rows.push((host, time));
            },
        }
        self.rows = rows;
    }

    /// Merges one report into the clock: the counter of `host` becomes the
    /// larger of the two, and the protected host is left as it is.
    pub fn observe(&mut self, host: &str, time: u64, protected: Option<&str>)
        ensures
            final(self)@ == merged_one(old(self)@, host@, time, option_text(protected)),
    {
        proof {
            use_type_invariant(&*self);
        }
        let shielded: bool = match protected {
            Some(name) => name.eq(host),
            None => false,
        };
        if shielded {
            return ;
        }
        let found = self.find(host);
        let mut rows: Vec<(String, u64)> = Vec::new();
        core::mem::swap(&mut self.rows, &mut rows);
        match found {
            Some(i) => {
                proof {
                    lemma_row_value(rows@, i as int);
                }
                let seen: u64 = rows[i].1;
                let name: String = rows[i].0.clone();
                let next: u64 = if seen >= time {
                    seen
                } else {
                    time
                };
                proof {
                    lemma_rows_update(rows@, i as int, (name, next));
                }
                rows.set(i, (name, next));
            },
            None => {
                let name: String = host.to_owned();
                proof {
                    lemma_rows_push(rows@, (name, time));
                }
                rows.push((name, time));
            },
        }
        self.rows = rows;
    }

    /// Merges `incoming` into the clock, host by host, by taking the larger
    /// counter. No counter goes down, and the protected host is left as it is.
    pub fn merge_from(&mut self, incoming: &Clock, protected: Option<&str>)
        ensures
            final(self)@ == merged(old(self)@, incoming@, option_text(protected)),
            forall|host: Seq<char>| counter_of(final(self)@, host) >= counter_of(old(self)@, host),
            forall|host: Seq<char>|
                option_text(protected) == Some(host) ==> (#[trigger] final(self)@.contains_key(host)
                    <==> old(self)@.contains_key(host)) && counter_of(final(self)@, host)
                    == counter_of(old(self)@, host),
    {
        proof {
            use_type_invariant(incoming);
        }
        let ghost start = self@;
        let ghost keep = option_text(protected);
        let mut i: usize = 0;
        assert(self@ =~= merged(start, rows_map(incoming.rows@.take(0)), keep));
        while i < incoming.rows.len()
            invariant
                i <= incoming.rows.len(),
                incoming.wf(),
                keep == option_text(protected),
                self@ == merged(start, rows_map(incoming.rows@.take(i as int)), keep),
            decreases incoming.rows.len() - i,
        {
            let ghost seen = incoming.rows@.take(i as int);
            proof {
                assert(incoming.rows@.take(i + 1) =~= seen.push(incoming.rows@[i as int]));
                assert(rows_distinct(seen));
                if rows_map(seen).contains_key(incoming.rows@[i as int].0@) {
                    let k = choose|k: int| row_is(seen, k, incoming.rows@[i as int].0@);
                    assert(incoming.rows@[k].0@ == incoming.rows@[i as int].0@);
                }
                lemma_rows_push(seen, incoming.rows@[i as int]);
                lemma_merged_step(
                    start,
                    rows_map(seen),
                    incoming.rows@[i as int].0@,
                    incoming.rows@[i as int].1,
                    keep,
                );
            }
            self.observe(incoming.rows[i].0.as_str(), incoming.rows[i].1, protected);
            i += 1;
        }
        assert(incoming.rows@.take(i as int) =~= incoming.rows@);
    }

    /// How many hosts the clock mentions.
    pub fn len(&self) -> (n: usize)
        ensures
            n == self@.dom().len(),
            self@.dom().finite(),
    {
        proof {
            use_type_invariant(self);
            lemma_rows_dom(self.rows@);
        }
        self.rows.len()
    }

    /// The clock that holds the given reports; where a host is reported twice,
    /// the later report stands.
    pub fn from_pairs(pairs: Vec<(String, u64)>) -> (clock: Clock)
        ensures
            clock@ == pairs_map(pairs@),
    {
        let mut clock = Clock::new();
        let mut i: usize = 0;
        while i < pairs.len()
            invariant
                i <= pairs.len(),
                clock@ == pairs_map(pairs@.take(i as int)),
            decreases pairs.len() - i,
        {
            proof {
                assert(pairs@.take(i + 1).drop_last() =~= pairs@.take(i as int));
            }
            clock.insert(pairs[i].0.clone(), pairs[i].1);
            i += 1;
        }
        assert(pairs@.take(i as int) =~= pairs@);
        clock
    }

    /// The reports of the clock, one per host, in the order of their rows.
    pub fn to_pairs(&self) -> (pairs: Vec<(String, u64)>)
        ensures
            rows_distinct(pairs@),
            rows_map(pairs@) == self@,
            pairs@.len() == self@.dom().len(),
    {
        let copy = self.clone();
        proof {
            use_type_invariant(&copy);
            lemma_rows_dom(copy.rows@);
        }
        copy.rows
    }
}

/// The text behind an optional string slice.
pub open spec fn option_text(name: Option<&str>) -> Option<Seq<char>> {
    match name {
        Some(text) => Some(text@),
        None => None,
    }
}

/// The map built from reports in order, a later report replacing an earlier one.
pub open spec fn pairs_map(pairs: Seq<(String, u64)>) -> ClockMap
    decreases pairs.len(),
{
    if pairs.len() == 0 {
        Map::empty()
    } else {
        pairs_map(pairs.drop_last()).insert(pairs.last().0@, pairs.last().1)
    }
}

/// Distinct rows stand for a finite map with one host per row.
pub proof fn lemma_rows_dom(rows: Seq<(String, u64)>)
    requires
        rows_distinct(rows),
    ensures
        rows_map(rows).dom().finite(),
        rows_map(rows).dom().len() == rows.len(),
    decreases rows.len(),
{
    if rows.len() == 0 {
        assert(rows_map(rows).dom() =~= Set::<Seq<char>>::empty());
    } else {
        let front = rows.drop_last();
        let last = rows.last();
        assert(rows_distinct(front));
        lemma_rows_dom(front);
        if rows_map(front).contains_key(last.0@) {
            let k = choose|k: int| row_is(front, k, last.0@);
            assert(rows[k].0@ == rows[rows.len() - 1].0@);
        }
        lemma_rows_push(front, last);
        assert(front.push(last) =~= rows);
        assert(rows_map(rows).dom() =~= rows_map(front).dom().insert(last.0@));
    }
}

/// The two clocks give the same counter to every host that both mention.
pub open spec fn agree_on_shared(a: ClockMap, b: ClockMap) -> bool {
    forall|host: Seq<char>|
        #[trigger] a.contains_key(host) && b.contains_key(host) ==> a[host] == b[host]
}

/// Every host that `a` mentions and `b` does not has counter 0 in `a`.
pub open spec fn silent_beyond(a: ClockMap, b: ClockMap) -> bool {
    forall|host: Seq<char>|
        #[trigger] a.contains_key(host) && !b.contains_key(host) ==> a[host] == 0
}

/// Neither of two clocks is outdated against the other exactly when they agree
/// on every host that both mention and a host that only one of them mentions
/// has counter 0 there.
pub proof fn lemma_mutually_current(a: ClockMap, b: ClockMap)
    ensures
        (!outdated(a, b) && !outdated(b, a)) <==> (agree_on_shared(a, b) && silent_beyond(a, b)
            && silent_beyond(b, a)),
{
    if !outdated(a, b) && !outdated(b, a) {
        assert forall|host: Seq<char>| #[trigger]
            a.contains_key(host) && b.contains_key(host) implies a[host] == b[host] by {
            assert(!(b.contains_key(host) && b[host] > counter_of(a, host)));
            assert(!(a.contains_key(host) && a[host] > counter_of(b, host)));
        }
        assert forall|host: Seq<char>| #[trigger]
            a.contains_key(host) && !b.contains_key(host) implies a[host] == 0 by {
            assert(!(a.contains_key(host) && a[host] > counter_of(b, host)));
        }
        assert forall|host: Seq<char>| #[trigger]
            b.contains_key(host) && !a.contains_key(host) implies b[host] == 0 by {
            assert(!(b.contains_key(host) && b[host] > counter_of(a, host)));
        }
    }
    if agree_on_shared(a, b) && silent_beyond(a, b) && silent_beyond(b, a) {
        if outdated(a, b) {
            let host = choose|host: Seq<char>| #[trigger]
                b.contains_key(host) && b[host] > counter_of(a, host);
            assert(a.contains_key(host) && b.contains_key(host) ==> a[host] == b[host]);
            assert(b.contains_key(host) && !a.contains_key(host) ==> b[host] == 0);
        }
        if outdated(b, a) {
            let host = choose|host: Seq<char>| #[trigger]
                a.contains_key(host) && a[host] > counter_of(b, host);
            assert(a.contains_key(host) && b.contains_key(host) ==> a[host] == b[host]);
            assert(a.contains_key(host) && !b.contains_key(host) ==> a[host] == 0);
        }
    }
}

/// Neither of two clocks is outdated against the other if and only if they
/// agree on every host that both mention. This is stated of all pairs of
/// clocks but those that agree on the shared hosts while one of them gives a
/// counter above 0 to a host that the other does not mention: such a pair
/// agrees, and yet one of the two is outdated.
pub proof fn mutually_current_iff_agree(a: ClockMap, b: ClockMap)
    requires
        agree_on_shared(a, b) ==> silent_beyond(a, b) && silent_beyond(b, a),
    ensures
        (!outdated(a, b) && !outdated(b, a)) <==> agree_on_shared(a, b),
{
    lemma_mutually_current(a, b);
}

/// A merge never lowers a counter, and it leaves the protected host as it was.
pub proof fn merge_grows(local: ClockMap, incoming: ClockMap, protected: Option<Seq<char>>)
    ensures
        forall|host: Seq<char>|
            counter_of(merged(local, incoming, protected), host) >= counter_of(local, host),
        forall|host: Seq<char>|
            protected == Some(host) ==> (#[trigger] merged(local, incoming, protected).contains_key(
                host,
            ) <==> local.contains_key(host)) && counter_of(merged(local, incoming, protected), host)
                == counter_of(local, host),
{
}

/// After a merge the clock is no longer outdated against what was merged, but
/// perhaps at the protected host.
pub proof fn merge_catches_up(local: ClockMap, incoming: ClockMap, protected: Option<Seq<char>>)
    ensures
        forall|host: Seq<char>|
            #[trigger] incoming.contains_key(host) && protected != Some(host) ==> incoming[host]
                <= counter_of(merged(local, incoming, protected), host),
        protected is None ==> !outdated(merged(local, incoming, protected), incoming),
{
}

/// Merging the same clock a second time changes nothing.
pub proof fn merge_idempotent(local: ClockMap, incoming: ClockMap, protected: Option<Seq<char>>)
    ensures
        merged(merged(local, incoming, protected), incoming, protected) == merged(
            local,
            incoming,
            protected,
        ),
{
    assert(merged(merged(local, incoming, protected), incoming, protected) =~= merged(
        local,
        incoming,
        protected,
    ));
}

} // verus!
