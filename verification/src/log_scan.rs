//! Which of the agent's logs to look at after a turn, and which of their bytes.
use vstd::prelude::*;
use vstd::hash_map::StringHashMap;
use vstd::utf8::*;
use crate::agy_log;
use crate::text;

verus! {

/// The most bytes that are read from the end of one log.
pub const MAX_LOG_SCAN_BYTES: u64 = 256 * 1024;

/// The most logs that are read after one turn.
pub const MAX_LOGS_SCANNED: usize = 3;

/// One entry of the log directory, as far as it could be read.
pub struct LogEntry {
    /// The file's name, if it is valid UTF-8.
    pub name: Option<String>,
    /// The file's size in bytes, if its metadata could be read.
    pub size: Option<u64>,
    /// The time of the last change, in nanoseconds from some fixed moment, if
    /// it could be read.
    pub modified: Option<i128>,
}

/// A log that grew during the turn.
#[derive(Clone, Copy)]
pub struct Candidate {
    /// The log's place in the directory listing.
    pub entry: usize,
    /// The time of the last change.
    pub modified: i128,
    /// Where the bytes that were written during the turn begin.
    pub offset: u64,
}

/// The agent's own logs are named `cli-*.log`.
pub open spec fn is_log_name(name: Seq<char>) -> bool {
    text::starts_with(name, "cli-"@) && text::ends_with(name, ".log"@)
}

/// The name and size of an entry that is one of the agent's logs.
pub open spec fn log_size(e: LogEntry) -> Option<(Seq<char>, u64)> {
    match (e.name, e.size) {
        (Some(name), Some(size)) => if is_log_name(name@) {
            Some((name@, size))
        } else {
            None
        },
        _ => None,
    }
}

/// The sizes of the agent's logs by name.
pub open spec fn log_sizes(entries: Seq<LogEntry>) -> Map<Seq<char>, u64>
    decreases entries.len(),
{
    if entries.len() == 0 {
        Map::empty()
    } else {
        let before = log_sizes(entries.drop_last());
        match log_size(entries.last()) {
            Some((name, size)) => before.insert(name, size),
            None => before,
        }
    }
}

/// The size that a log had before the turn; nothing for a new log.
pub open spec fn size_before(pre_snapshot: Map<Seq<char>, u64>, name: Seq<char>) -> u64 {
    if pre_snapshot.contains_key(name) {
        pre_snapshot[name]
    } else {
        0
    }
}

/// The candidate that the entry at place `i` makes: a log that is larger than
/// before the turn.
pub open spec fn candidate_at(
    entries: Seq<LogEntry>,
    i: int,
    pre_snapshot: Map<Seq<char>, u64>,
) -> Option<Candidate> {
    match (log_size(entries[i]), entries[i].modified) {
        (Some((name, size)), Some(modified)) => if size > size_before(pre_snapshot, name) {
            Some(
                Candidate {
                    entry: i as usize,
                    modified,
                    offset: size_before(pre_snapshot, name),
                },
            )
        } else {
            None
        },
        _ => None,
    }
}

/// The candidates among the first `n` entries, in the order of the listing.
pub open spec fn candidates(
    entries: Seq<LogEntry>,
    n: int,
    pre_snapshot: Map<Seq<char>, u64>,
) -> Seq<Candidate>
    decreases n,
{
    if n <= 0 {
        seq![]
    } else {
        let before = candidates(entries, n - 1, pre_snapshot);
        match candidate_at(entries, n - 1, pre_snapshot) {
            Some(c) => before.push(c),
            None => before,
        }
    }
}

/// `s` with `c` put behind all that are at least as new.
pub open spec fn insert_by_age(s: Seq<Candidate>, c: Candidate) -> Seq<Candidate>
    decreases s.len(),
{
    if s.len() == 0 || s.last().modified >= c.modified {
        s.push(c)
    } else {
        insert_by_age(s.drop_last(), c).push(s.last())
    }
}

/// The candidates, newest first; those of the same time keep their order.
pub open spec fn newest_first(s: Seq<Candidate>) -> Seq<Candidate>
    decreases s.len(),
{
    if s.len() == 0 {
        s
    } else {
        insert_by_age(newest_first(s.drop_last()), s.last())
    }
}

/// The logs to read after a turn, in the order in which to read them.
pub open spec fn scan_order(
    entries: Seq<LogEntry>,
    pre_snapshot: Map<Seq<char>, u64>,
) -> Seq<Candidate> {
    let all = newest_first(candidates(entries, entries.len() as int, pre_snapshot));
    if all.len() > MAX_LOGS_SCANNED {
        all.take(MAX_LOGS_SCANNED as int)
    } else {
        all
    }
}

/// Whether a file of that name is one of the agent's logs.
pub fn is_agy_log(name: &str) -> (r: bool)
    ensures
        r == is_log_name(name@),
{
    let cs = text::chars_of(name);
    let prefix = text::chars_of("cli-");
    let suffix = text::chars_of(".log");
    text::begins_with(cs.as_slice(), prefix.as_slice()) && text::finishes_with(
        cs.as_slice(),
        suffix.as_slice(),
    )
}

/// Records the size of each of the agent's logs before a turn, so that only
/// what is written during the turn is ever looked at.
pub fn snapshot_agy_logs(entries: &Vec<LogEntry>) -> (r: StringHashMap<u64>)
    ensures
        r@ == log_sizes(entries@),
{
    let mut r: StringHashMap<u64> = StringHashMap::new();
    for i in 0..entries.len()
        invariant
            r@ == log_sizes(entries@.take(i as int)),
    {
        assert(entries@.take(i + 1).drop_last() =~= entries@.take(i as int));
        assert(entries@.take(i + 1).last() == entries@[i as int]);
        let e = &entries[i];
        if let Some(name) = &e.name {
            if let Some(size) = e.size {
                if is_agy_log(name.as_str()) {
                    r.insert(name.clone(), size);
                }
            }
        }
    }
    assert(entries@.take(entries@.len() as int) =~= entries@);
    r
}

/// The candidate that one entry makes.
fn candidate_of(
    entries: &Vec<LogEntry>,
    i: usize,
    pre_snapshot: &StringHashMap<u64>,
) -> (r: Option<Candidate>)
    requires
        i < entries@.len(),
    ensures
        r == candidate_at(entries@, i as int, pre_snapshot@),
{
    let e = &entries[i];
    match (&e.name, e.size, e.modified) {
        (Some(name), Some(size), Some(modified)) => {
            if !is_agy_log(name.as_str()) {
                return None;
            }
            let offset: u64 = match pre_snapshot.get(name.as_str()) {
                Some(n) => *n,
                None => 0,
            };
            if size <= offset {
                None
            } else {
                Some(Candidate { entry: i, modified, offset })
            }
        },
        _ => None,
    }
}

/// Puts `c` behind all that are at least as new.
fn insert_candidate(s: &mut Vec<Candidate>, c: Candidate)
    ensures
        final(s)@ == insert_by_age(old(s)@, c),
{
    let mut k: usize = s.len();
    assert(s@.take(k as int) =~= s@);
    assert(insert_by_age(s@, c) =~= insert_by_age(s@.take(k as int), c) + s@.skip(k as int));
    while k > 0 && s[k - 1].modified < c.modified
        invariant
            k <= s@.len(),
            s@ == old(s)@,
            insert_by_age(s@, c) == insert_by_age(s@.take(k as int), c) + s@.skip(k as int),
        decreases k,
    {
        proof {
            let t = s@.take(k as int);
            assert(t.drop_last() =~= s@.take(k - 1));
            assert(insert_by_age(t, c) == insert_by_age(s@.take(k - 1), c).push(s@[k - 1]));
            assert(insert_by_age(s@.take(k - 1), c).push(s@[k - 1]) + s@.skip(k as int)
                =~= insert_by_age(s@.take(k - 1), c) + s@.skip(k - 1));
        }
        k = k - 1;
    }
    proof {
        let t = s@.take(k as int);
        if k > 0 {
            assert(t.last() == s@[k - 1]);
        }
        assert(insert_by_age(t, c) == t.push(c));
        assert(t.push(c) + s@.skip(k as int) =~= s@.insert(k as int, c));
    }
    s.insert(k, c);
}

/// The logs to read after a turn: those that grew, newest first, a few at most.
fn order_of(entries: &Vec<LogEntry>, pre_snapshot: &StringHashMap<u64>) -> (r: Vec<Candidate>)
    ensures
        r@ == scan_order(entries@, pre_snapshot@),
{
    let mut all: Vec<Candidate> = Vec::new();
    for i in 0..entries.len()
        invariant
            all@ == newest_first(candidates(entries@, i as int, pre_snapshot@)),
    {
        let ghost before = candidates(entries@, i as int, pre_snapshot@);
        if let Some(c) = candidate_of(entries, i, pre_snapshot) {
            assert(before.push(c).drop_last() =~= before);
            insert_candidate(&mut all, c);
        }
    }
    if all.len() > MAX_LOGS_SCANNED {
        assert(all@.take(MAX_LOGS_SCANNED as int) =~= all@.subrange(0, MAX_LOGS_SCANNED as int));
        all.truncate(MAX_LOGS_SCANNED);
    }
    all
}

/// Where reading begins in a log of `end` bytes: behind what was there before
/// the turn, and not further from the end than the limit.
pub open spec fn tail_start(offset: u64, end: u64) -> u64 {
    if end - MAX_LOG_SCAN_BYTES > offset {
        (end - MAX_LOG_SCAN_BYTES) as u64
    } else {
        offset
    }
}

/// Where to begin reading a log that now has `end` bytes, of which `offset`
/// were there before the turn. At most `MAX_LOG_SCAN_BYTES` are to be read
/// from there.
pub fn read_log_tail(offset: u64, end: u64) -> (start: u64)
    ensures
        start == tail_start(offset, end),
{
    if end > MAX_LOG_SCAN_BYTES && end - MAX_LOG_SCAN_BYTES > offset {
        end - MAX_LOG_SCAN_BYTES
    } else {
        offset
    }
}

/// The search through the logs that grew during a turn for an error that the
/// agent did not report.
pub struct LogScan {
    /// The logs to read, in order.
    pub order: Vec<Candidate>,
    /// How many of them have been read.
    pub next: usize,
    /// The message, once it is found.
    pub found: Option<String>,
}

/// The state of a search.
pub ghost struct ScanState {
    pub order: Seq<Candidate>,
    pub next: int,
    pub found: Option<Seq<char>>,
}

/// The log that is to be read next: none once a message is found.
pub open spec fn next_log(s: ScanState) -> Option<Candidate> {
    if s.found is None && 0 <= s.next < s.order.len() {
        Some(s.order[s.next])
    } else {
        None
    }
}

/// The message in the text of one log, if the log could be read.
pub open spec fn message_in(tail: Option<Seq<char>>) -> Option<Seq<char>> {
    match tail {
        Some(t) => agy_log::error_message(t),
        None => None,
    }
}

/// The search after the next log was read, or could not be read.
pub open spec fn after_log(s: ScanState, tail: Option<Seq<char>>) -> ScanState {
    if next_log(s) is Some {
        ScanState { next: s.next + 1, found: message_in(tail), ..s }
    } else {
        s
    }
}

impl View for LogScan {
    type V = ScanState;

    open spec fn view(&self) -> ScanState {
        ScanState {
            order: self.order@,
            next: self.next as int,
            found: text::opt_view(self.found),
        }
    }
}

/// A search that begins: none of the logs has been read.
pub open spec fn search_begun(
    entries: Seq<LogEntry>,
    pre_snapshot: Map<Seq<char>, u64>,
) -> ScanState {
    ScanState { order: scan_order(entries, pre_snapshot), next: 0, found: None }
}

/// Begins the search for an error that the agent swallowed during a turn,
/// given the log directory's entries now and the sizes before the turn.
pub fn detect_swallowed_agy_error(
    entries: &Vec<LogEntry>,
    pre_snapshot: &StringHashMap<u64>,
) -> (r: LogScan)
    ensures
        r@ == (ScanState {
            order: scan_order(entries@, pre_snapshot@),
            next: 0,
            found: None,
        }),
        r@ == search_begun(entries@, pre_snapshot@),
{
    LogScan { order: order_of(entries, pre_snapshot), next: 0, found: None }
}

impl LogScan {
    /// The log to read next.
    pub fn pending(&self) -> (r: Option<Candidate>)
        ensures
            r == next_log(self@),
    {
        if self.found.is_none() && self.next < self.order.len() {
            Some(self.order[self.next])
        } else {
            None
        }
    }

    /// Takes the bytes read from the pending log, or nothing if it could not
    /// be read. If they begin inside a character, what is left of it makes no
    /// difference.
    pub fn absorb(&mut self, tail: Option<&[u8]>)
        ensures
            final(self)@ == after_log(
                old(self)@,
                match tail {
                    Some(bytes) => Some(text::lossy_utf8(bytes@)),
                    None => None,
                },
            ),
            tail matches Some(bytes) ==> valid_utf8(bytes@) ==> text::lossy_utf8(bytes@)
                == decode_utf8(bytes@),
            tail matches Some(bytes) ==> forall|k: int|
                0 <= k <= bytes@.len() && valid_utf8(#[trigger] bytes@.skip(k))
                    ==> text::lossy_utf8(bytes@) == text::lossy_utf8(bytes@.take(k))
                    + decode_utf8(bytes@.skip(k)),
            tail matches Some(bytes) ==> forall|k: int|
                0 <= k <= bytes@.len() && valid_utf8(#[trigger] bytes@.skip(k))
                    && text::only_continuation_bytes(bytes@.take(k)) ==> final(self)@ == after_log(
                    old(self)@,
                    Some(decode_utf8(bytes@.skip(k))),
                ),
    {
        match tail {
            Some(bytes) => {
                let text = text::decode_lossy(bytes);
                self.absorb_text(Some(text.as_str()));
                proof {
                    assert forall|k: int|
                        0 <= k <= bytes@.len() && valid_utf8(#[trigger] bytes@.skip(k))
                            && text::only_continuation_bytes(
                            bytes@.take(k),
                        ) implies self@ == after_log(
                        old(self)@,
                        Some(decode_utf8(bytes@.skip(k))),
                    ) by {
                        let rest = decode_utf8(bytes@.skip(k));
                        let g = text@.take(text@.len() - rest.len());
                        assert(g + rest =~= text@);
                        agy_log::law_cut_character_hides_nothing(g, rest);
                    }
                }
            },
            None => {
                self.absorb_text(None);
            },
        }
    }

    /// Takes the text read from the pending log, or nothing if it could not be
    /// read.
    pub fn absorb_text(&mut self, tail: Option<&str>)
        ensures
            final(self)@ == after_log(
                old(self)@,
                match tail {
                    Some(text) => Some(text@),
                    None => None,
                },
            ),
    {
        if self.found.is_none() && self.next < self.order.len() {
            self.next = self.next + 1;
            if let Some(text) = tail {
                self.found = agy_log::extract_agy_error_message(text);
            }
        }
    }

    /// What the search found.
    pub fn into_found(self) -> (r: Option<String>)
        ensures
            r == self.found,
    {
        self.found
    }
}

/// The search after several logs were read.
pub open spec fn after_logs(s: ScanState, tails: Seq<Option<Seq<char>>>) -> ScanState
    decreases tails.len(),
{
    if tails.len() == 0 {
        s
    } else {
        after_log(after_logs(s, tails.drop_last()), tails.last())
    }
}

/// The message of the first of the logs that holds one.
pub open spec fn first_message(tails: Seq<Option<Seq<char>>>) -> Option<Seq<char>>
    decreases tails.len(),
{
    if tails.len() == 0 {
        None
    } else {
        match first_message(tails.drop_last()) {
            Some(m) => Some(m),
            None => message_in(tails.last()),
        }
    }
}

/// A search finds the message of the first log, in its order, that holds one.
pub proof fn law_first_message_is_found(s: ScanState, tails: Seq<Option<Seq<char>>>)
    requires
        s.next == 0,
        s.found is None,
        tails.len() <= s.order.len(),
    ensures
        after_logs(s, tails).found == first_message(tails),
        after_logs(s, tails).order == s.order,
        first_message(tails) is None ==> after_logs(s, tails).next == tails.len(),
    decreases tails.len(),
{
    if tails.len() > 0 {
        law_first_message_is_found(s, tails.drop_last());
    }
}

/// An error behind a cut is found: whatever the bytes before some place give, a
/// log whose text from there on holds a message gives a message.
pub proof fn law_cut_log_gives_its_message(s: ScanState, front: Seq<char>, content: Seq<char>)
    requires
        next_log(s) is Some,
        message_in(Some(content)) is Some,
    ensures
        after_log(s, Some(front + content)).found is Some,
        text::only_replacements(front) ==> after_log(s, Some(front + content)) == after_log(
            s,
            Some(content),
        ),
{
    agy_log::law_error_is_found_behind_anything(front, content);
    if text::only_replacements(front) {
        agy_log::law_cut_character_hides_nothing(front, content);
    }
}

/// Nothing that was there before the turn is read, and never more than the
/// limit.
pub proof fn law_only_new_bytes_are_read(offset: u64, end: u64)
    ensures
        tail_start(offset, end) >= offset,
        offset <= end ==> tail_start(offset, end) <= end,
        end - tail_start(offset, end) <= MAX_LOG_SCAN_BYTES,
        tail_start(offset, end) == offset || end - tail_start(offset, end) == MAX_LOG_SCAN_BYTES,
{
}

/// `s` is ordered from the newest to the oldest.
pub open spec fn is_newest_first(s: Seq<Candidate>) -> bool {
    forall|i: int, j: int| 0 <= i <= j < s.len() ==> s[i].modified >= s[j].modified
}

/// The candidates of one time.
pub open spec fn of_time(s: Seq<Candidate>, t: i128) -> Seq<Candidate> {
    s.filter(|c: Candidate| c.modified == t)
}

/// Inserting by age keeps the order, puts the new one behind those of its
/// time, and leaves those of other times as they are.
proof fn lemma_insert_by_age(s: Seq<Candidate>, c: Candidate, t: i128)
    requires
        is_newest_first(s),
    ensures
        is_newest_first(insert_by_age(s, c)),
        insert_by_age(s, c).len() == s.len() + 1,
        of_time(insert_by_age(s, c), t) == (if c.modified == t {
            of_time(s, t).push(c)
        } else {
            of_time(s, t)
        }),
    decreases s.len(),
{
    reveal(Seq::filter);
    let r = insert_by_age(s, c);
    if s.len() == 0 || s.last().modified >= c.modified {
        assert(r.drop_last() =~= s);
    } else {
        let rest = s.drop_last();
        lemma_insert_by_age(rest, c, t);
        let q = insert_by_age(rest, c);
        assert(r.drop_last() =~= q);
        lemma_insert_members(rest, c);
        assert forall|i: int, j: int| 0 <= i <= j < r.len() implies r[i].modified
            >= r[j].modified by {
            if j == r.len() - 1 && i < j {
                assert(q.contains(q[i]));
            }
        }
    }
}

/// Inserting adds nothing else.
pub proof fn lemma_insert_members(s: Seq<Candidate>, c: Candidate)
    ensures
        forall|x: Candidate| #[trigger]
            insert_by_age(s, c).contains(x) ==> x == c || s.contains(x),
    decreases s.len(),
{
    if s.len() > 0 && s.last().modified < c.modified {
        lemma_insert_members(s.drop_last(), c);
        let q = insert_by_age(s.drop_last(), c);
        assert forall|x: Candidate| #[trigger] insert_by_age(s, c).contains(x) implies x == c
            || s.contains(x) by {
            let i = choose|i: int| 0 <= i < insert_by_age(s, c).len() && insert_by_age(s, c)[i]
                == x;
            if i < q.len() {
                assert(q.contains(x));
                if x != c {
                    let j = choose|j: int|
                        0 <= j < s.drop_last().len() && s.drop_last()[j] == x;
                    assert(s[j] == x);
                }
            } else {
                assert(s[s.len() - 1] == x);
            }
        }
    }
}

/// The order of a scan: from the newest log to the oldest, with logs of the
/// same time in the order of the listing, none lost and none added.
pub proof fn law_newest_logs_first(s: Seq<Candidate>)
    ensures
        is_newest_first(newest_first(s)),
        newest_first(s).len() == s.len(),
        forall|t: i128| #[trigger] of_time(newest_first(s), t) == of_time(s, t),
    decreases s.len(),
{
    reveal(Seq::filter);
    if s.len() > 0 {
        let rest = s.drop_last();
        law_newest_logs_first(rest);
        lemma_insert_by_age(newest_first(rest), s.last(), 0);
        assert forall|t: i128| #[trigger] of_time(newest_first(s), t) == of_time(s, t) by {
            lemma_insert_by_age(newest_first(rest), s.last(), t);
            assert(of_time(newest_first(rest), t) == of_time(rest, t));
        }
    }
}

/// Sorting adds nothing.
pub proof fn lemma_newest_first_members(s: Seq<Candidate>)
    ensures
        forall|x: Candidate| #[trigger] newest_first(s).contains(x) ==> s.contains(x),
    decreases s.len(),
{
    if s.len() > 0 {
        let rest = s.drop_last();
        lemma_newest_first_members(rest);
        lemma_insert_members(newest_first(rest), s.last());
        assert forall|x: Candidate| #[trigger] newest_first(s).contains(x) implies s.contains(
            x,
        ) by {
            if x == s.last() {
                assert(s[s.len() - 1] == x);
            } else {
                assert(rest.contains(x));
                let j = choose|j: int| 0 <= j < rest.len() && rest[j] == x;
                assert(s[j] == x);
            }
        }
    }
}

/// Every candidate comes from its own entry.
pub proof fn lemma_candidates_members(
    entries: Seq<LogEntry>,
    n: int,
    pre_snapshot: Map<Seq<char>, u64>,
    c: Candidate,
)
    requires
        n <= entries.len() <= usize::MAX,
        candidates(entries, n, pre_snapshot).contains(c),
    ensures
        c.entry < n,
        candidate_at(entries, c.entry as int, pre_snapshot) == Some(c),
    decreases n,
{
    if n > 0 {
        let before = candidates(entries, n - 1, pre_snapshot);
        if before.contains(c) {
            lemma_candidates_members(entries, n - 1, pre_snapshot, c);
        } else {
            let all = candidates(entries, n, pre_snapshot);
            let j = choose|j: int| 0 <= j < all.len() && all[j] == c;
            if j < before.len() {
                assert(before[j] == c);
            }
        }
    }
}

/// A log is read only if it is one of the agent's, has grown during the turn,
/// and then from where it ended before the turn; and only a few are read.
pub proof fn law_only_grown_logs_are_read(
    entries: Seq<LogEntry>,
    pre_snapshot: Map<Seq<char>, u64>,
    c: Candidate,
)
    requires
        entries.len() <= usize::MAX,
        scan_order(entries, pre_snapshot).contains(c),
    ensures
        scan_order(entries, pre_snapshot).len() <= MAX_LOGS_SCANNED,
        c.entry < entries.len(),
        log_size(entries[c.entry as int]) matches Some((name, size)) && c.offset == size_before(
            pre_snapshot,
            name,
        ) && size > c.offset,
{
    let found = candidates(entries, entries.len() as int, pre_snapshot);
    let all = newest_first(found);
    let i = choose|i: int|
        0 <= i < scan_order(entries, pre_snapshot).len() && scan_order(entries, pre_snapshot)[i]
            == c;
    assert(all[i] == c);
    assert(all.contains(c));
    lemma_newest_first_members(found);
    assert(found.contains(c));
    lemma_candidates_members(entries, entries.len() as int, pre_snapshot, c);
}

/// No two entries have the same name.
pub open spec fn distinct_names(entries: Seq<LogEntry>) -> bool {
    forall|i: int, j: int|
        0 <= i < j < entries.len() && (#[trigger] entries[i]).name is Some && (
        #[trigger] entries[j]).name is Some ==> entries[i].name->0@ != entries[j].name->0@
}

/// A snapshot holds the size of each of the agent's logs.
pub proof fn lemma_log_sizes(entries: Seq<LogEntry>, i: int)
    requires
        distinct_names(entries),
        0 <= i < entries.len(),
    ensures
        log_size(entries[i]) matches Some((name, size)) ==> log_sizes(entries).contains_key(name)
            && log_sizes(entries)[name] == size,
    decreases entries.len(),
{
    if i < entries.len() - 1 {
        let rest = entries.drop_last();
        assert forall|a: int, b: int|
            0 <= a < b < rest.len() && (#[trigger] rest[a]).name is Some && (
            #[trigger] rest[b]).name is Some implies rest[a].name->0@ != rest[b].name->0@ by {
            assert(entries[a] == rest[a] && entries[b] == rest[b]);
        }
        lemma_log_sizes(rest, i);
        assert(entries[entries.len() - 1] == entries.last());
    }
}

/// An error that was in the logs before the turn does not come back: where
/// no log has changed since the snapshot, none is read.
pub proof fn law_unchanged_logs_are_not_read(entries: Seq<LogEntry>)
    requires
        entries.len() <= usize::MAX,
        distinct_names(entries),
    ensures
        scan_order(entries, log_sizes(entries)).len() == 0,
{
    let order = scan_order(entries, log_sizes(entries));
    if order.len() > 0 {
        let c = order[0];
        assert(order.contains(c));
        law_only_grown_logs_are_read(entries, log_sizes(entries), c);
        lemma_log_sizes(entries, c.entry as int);
    }
}

} // verus!
