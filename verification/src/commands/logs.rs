//! Combined log output for the active foc-devnet run.
//!
//! Docker is run by the caller; this module validates the request, selects and
//! orders the run's containers, parses and orders their log lines, and formats
//! what is printed.

use vstd::prelude::*;
use vstd::string::*;
use crate::cli::{lemma_tail_requires_follow, parsed_command_line, CommandsView};
use crate::docker::logs::ContainerInfo;
use crate::order::{
    compare_text, is_stable_sort_by, key_order, lemma_stable_sort_of_sorted,
    lemma_stable_sort_rearrangement, lemma_stable_sort_unique, lemma_stable_sort_views,
    is_rearrangement_of, keys_distinct, lemma_text_le_antisymmetric,
    lemma_text_le_total, lemma_text_le_transitive, stable_sort, text_rank, SortKey,
    lemma_text_le_reflexive, sorted_by, stable_sort_witness, text_le,
};
use crate::text::{
    decimal, decimal_text, find_char, index_of_from, lemma_index_of_from, lines_of, split_lines, starts_with,
    string_views,
};

verus! {

/// The number of recent lines shown per container before following, when
/// none is given.
pub const DEFAULT_FOLLOW_TAIL_LINES: usize = 100;

/// The instant that an RFC 3339 timestamp denotes, as seconds since the Unix
/// epoch and nanoseconds within the second, or `None` if the text is not one.
pub uninterp spec fn rfc3339_instant(text: Seq<char>) -> Option<(i64, u32)>;

/// Calls `chrono::DateTime::parse_from_rfc3339` and reads the parsed instant
/// in UTC as (`timestamp()`, `timestamp_subsec_nanos()`). The result depends
/// on the text alone and is named `rfc3339_instant` of it; nothing more is
/// claimed of which texts parse or what they denote.
#[verifier::external_body]
fn parse_rfc3339(text: &str) -> (r: Option<(i64, u32)>)
    ensures
        r == rfc3339_instant(text@),
{
    match chrono::DateTime::parse_from_rfc3339(text) {
        Ok(parsed) => {
            let utc = parsed.with_timezone(&chrono::Utc);
            Some((utc.timestamp(), utc.timestamp_subsec_nanos()))
        },
        Err(_) => None,
    }
}

/// One line of a container's log output.
#[derive(Debug, Clone, PartialEq, Eq)]
pub struct LogEntry {
    /// The instant of the line's timestamp (seconds since the Unix epoch,
    /// nanoseconds), if it has one.
    pub timestamp: Option<(i64, u32)>,
    pub timestamp_text: String,
    pub container_name: String,
    pub message: String,
    pub container_index: usize,
    pub line_index: usize,
}

/// The values a `LogEntry` holds.
pub struct LogEntryView {
    pub timestamp: Option<(i64, u32)>,
    pub timestamp_text: Seq<char>,
    pub container_name: Seq<char>,
    pub message: Seq<char>,
    pub container_index: usize,
    pub line_index: usize,
}

impl View for LogEntry {
    type V = LogEntryView;

    open spec fn view(&self) -> LogEntryView {
        LogEntryView {
            timestamp: self.timestamp,
            timestamp_text: self.timestamp_text@,
            container_name: self.container_name@,
            message: self.message@,
            container_index: self.container_index,
            line_index: self.line_index,
        }
    }
}

/// The views of a sequence of entries.
pub open spec fn entry_views(s: Seq<LogEntry>) -> Seq<LogEntryView> {
    s.map_values(|e: LogEntry| e@)
}

/// The entry for one log line, given the instant that the text before its
/// first space denotes (if any): a line with a space whose first word denotes
/// an instant keeps that word as its timestamp and the rest of the line as its
/// message; any other line has no timestamp, the text `NO_TIMESTAMP` in its
/// place, and the whole line as its message.
pub open spec fn log_entry_with_instant(
    container_name: Seq<char>,
    container_index: usize,
    line_index: usize,
    line: Seq<char>,
    instant: Option<(i64, u32)>,
) -> LogEntryView {
    let k = index_of_from(line, ' ', 0);
    if k < line.len() && instant is Some {
        LogEntryView {
            timestamp: instant,
            timestamp_text: line.subrange(0, k),
            container_name,
            message: line.subrange(k + 1, line.len() as int),
            container_index,
            line_index,
        }
    } else {
        LogEntryView {
            timestamp: None,
            timestamp_text: "NO_TIMESTAMP"@,
            container_name,
            message: line,
            container_index,
            line_index,
        }
    }
}

/// The entry for one log line: its first word is read as an RFC 3339
/// timestamp.
pub open spec fn parsed_log_line(
    container_name: Seq<char>,
    container_index: usize,
    line_index: usize,
    line: Seq<char>,
) -> LogEntryView {
    log_entry_with_instant(
        container_name,
        container_index,
        line_index,
        line,
        rfc3339_instant(line.subrange(0, index_of_from(line, ' ', 0))),
    )
}

/// Builds the entry for a log line, given what the text before its first
/// space denotes as a timestamp.
pub fn log_entry_from(
    container_name: &str,
    container_index: usize,
    line_index: usize,
    line: &str,
    instant: Option<(i64, u32)>,
) -> (entry: LogEntry)
    ensures
        entry@ == log_entry_with_instant(
            container_name@,
            container_index,
            line_index,
            line@,
            instant,
        ),
{
    let n = line.unicode_len();
    let k = find_char(line, ' ');
    proof {
        lemma_index_of_from(line@, ' ', 0);
    }
    if k < n {
        if let Some(t) = instant {
            return LogEntry {
                timestamp: Some(t),
                timestamp_text: String::from_str(line.substring_char(0, k)),
                container_name: String::from_str(container_name),
                message: String::from_str(line.substring_char(k + 1, n)),
                container_index,
                line_index,
            };
        }
    }
    LogEntry {
        timestamp: None,
        timestamp_text: String::from_str("NO_TIMESTAMP"),
        container_name: String::from_str(container_name),
        message: String::from_str(line),
        container_index,
        line_index,
    }
}

/// Parses one log line of a container.
pub fn parse_log_line(
    container_name: &str,
    container_index: usize,
    line_index: usize,
    line: &str,
) -> (entry: LogEntry)
    ensures
        entry@ == parsed_log_line(container_name@, container_index, line_index, line@),
{
    let n = line.unicode_len();
    let k = find_char(line, ' ');
    proof {
        lemma_index_of_from(line@, ' ', 0);
    }
    let instant = if k < n {
        parse_rfc3339(line.substring_char(0, k))
    } else {
        None
    };
    log_entry_from(container_name, container_index, line_index, line, instant)
}

/// Parses the log lines of one container, numbering them from 0.
pub fn parse_container_logs(
    container_name: &str,
    container_index: usize,
    lines: &Vec<String>,
) -> (entries: Vec<LogEntry>)
    ensures
        entries@.len() == lines@.len(),
        forall|j: int|
            0 <= j < lines@.len() ==> (#[trigger] entries@[j])@ == parsed_log_line(
                container_name@,
                container_index,
                j as usize,
                lines@[j]@,
            ),
{
    let mut entries: Vec<LogEntry> = Vec::new();
    let mut j: usize = 0;
    while j < lines.len()
        invariant
            j <= lines@.len(),
            entries@.len() == j,
            forall|t: int|
                0 <= t < j ==> (#[trigger] entries@[t])@ == parsed_log_line(
                    container_name@,
                    container_index,
                    t as usize,
                    lines@[t]@,
                ),
        decreases lines@.len() - j,
    {
        let entry = parse_log_line(container_name, container_index, j, lines[j].as_str());
        entries.push(entry);
        j += 1;
    }
    entries
}

/// `a` is strictly earlier than `b` (seconds, then nanoseconds).
pub open spec fn instant_before(a: (i64, u32), b: (i64, u32)) -> bool {
    a.0 < b.0 || (a.0 == b.0 && a.1 < b.1)
}

/// The order of the combined log: timestamped lines first, by time, then
/// container name, then line number; then lines without a timestamp, by
/// container position, then line number.
pub open spec fn entry_le(a: LogEntryView, b: LogEntryView) -> bool {
    match (a.timestamp, b.timestamp) {
        (Some(ta), Some(tb)) => instant_before(ta, tb) || (ta == tb && (text_rank(
            a.container_name,
            b.container_name,
        ) < 0 || (a.container_name == b.container_name && a.line_index <= b.line_index))),
        (Some(_), None) => true,
        (None, Some(_)) => false,
        (None, None) => a.container_index < b.container_index || (a.container_index
            == b.container_index && a.line_index <= b.line_index),
    }
}

/// `entry_le` as a spec function value.
pub open spec fn entry_order() -> spec_fn(LogEntryView, LogEntryView) -> bool {
    |a: LogEntryView, b: LogEntryView| entry_le(a, b)
}

/// Strict order of texts is transitive.
proof fn lemma_text_rank_transitive(a: Seq<char>, b: Seq<char>, c: Seq<char>)
    requires
        text_rank(a, b) < 0,
        text_rank(b, c) < 0,
    ensures
        text_rank(a, c) < 0,
{
    lemma_text_le_transitive(a, b, c);
    if a == c {
        lemma_text_le_antisymmetric(a, b);
    }
}

impl SortKey for LogEntry {
    open spec fn sort_le(self, other: Self) -> bool {
        entry_le(self@, other@)
    }

    proof fn lemma_sort_le_total(a: Self, b: Self) {
        lemma_text_le_total(a.container_name@, b.container_name@);
    }

    proof fn lemma_sort_le_transitive(a: Self, b: Self, c: Self) {
        if text_rank(a.container_name@, b.container_name@) < 0 && text_rank(
            b.container_name@,
            c.container_name@,
        ) < 0 {
            lemma_text_rank_transitive(a.container_name@, b.container_name@, c.container_name@);
        }
    }

    fn le(&self, other: &Self) -> (r: bool) {
        match (self.timestamp, other.timestamp) {
            (Some(ta), Some(tb)) => {
                if ta.0 != tb.0 {
                    ta.0 < tb.0
                } else if ta.1 != tb.1 {
                    ta.1 < tb.1
                } else {
                    let rank = compare_text(
                        self.container_name.as_str(),
                        other.container_name.as_str(),
                    );
                    if rank != 0 {
                        rank < 0
                    } else {
                        self.line_index <= other.line_index
                    }
                }
            },
            (Some(_), None) => true,
            (None, Some(_)) => false,
            (None, None) => self.container_index < other.container_index || (self.container_index
                == other.container_index && self.line_index <= other.line_index),
        }
    }
}

/// Entries in the order of the combined log, stated by time and name: every
/// timestamped entry comes before every entry without a timestamp; of two
/// timestamped entries, the later one never has the strictly earlier instant
/// (seconds, then nanoseconds); entries of the same instant are in ascending
/// order of container name, and of the same container by line number;
/// entries without a timestamp are by container position, then line number.
pub open spec fn log_time_ordered(s: Seq<LogEntryView>) -> bool {
    forall|i: int, j: int|
        0 <= i < j < s.len() ==> {
            &&& #[trigger] s[j].timestamp is Some ==> s[i].timestamp is Some
            &&& (#[trigger] s[i].timestamp is Some && s[j].timestamp is Some) ==> {
                &&& !instant_before(s[j].timestamp->0, s[i].timestamp->0)
                &&& s[i].timestamp == s[j].timestamp ==> text_le(
                    s[i].container_name,
                    s[j].container_name,
                )
                &&& s[i].timestamp == s[j].timestamp && s[i].container_name == s[j].container_name
                    ==> s[i].line_index <= s[j].line_index
            }
            &&& (s[i].timestamp is None && s[j].timestamp is None) ==> {
                &&& s[i].container_index <= s[j].container_index
                &&& s[i].container_index == s[j].container_index ==> s[i].line_index
                    <= s[j].line_index
            }
        }
}

/// Entries in the order `entry_le` are in time order: timestamped lines
/// first, no line before one with a strictly earlier instant, lines of the
/// same instant by container name, then line number; untimed lines by
/// container position, then line number.
pub proof fn lemma_log_order_by_time(s: Seq<LogEntryView>)
    requires
        sorted_by(s, entry_order()),
    ensures
        log_time_ordered(s),
{
    assert forall|i: int, j: int| 0 <= i < j < s.len() implies {
        &&& #[trigger] s[j].timestamp is Some ==> s[i].timestamp is Some
        &&& (#[trigger] s[i].timestamp is Some && s[j].timestamp is Some) ==> {
            &&& !instant_before(s[j].timestamp->0, s[i].timestamp->0)
            &&& s[i].timestamp == s[j].timestamp ==> text_le(s[i].container_name, s[j].container_name)
            &&& s[i].timestamp == s[j].timestamp && s[i].container_name == s[j].container_name
                ==> s[i].line_index <= s[j].line_index
        }
        &&& (s[i].timestamp is None && s[j].timestamp is None) ==> {
            &&& s[i].container_index <= s[j].container_index
            &&& s[i].container_index == s[j].container_index ==> s[i].line_index <= s[j].line_index
        }
    } by {
        assert(entry_order()(s[i], s[j]));
        lemma_text_le_reflexive(s[i].container_name);
    }
}

/// Orders log entries stably by `entry_le`, as the combined log shows them:
/// in time order, lines of the same instant by container name.
pub fn sort_log_entries(entries: &mut Vec<LogEntry>)
    ensures
        is_stable_sort_by(final(entries)@, old(entries)@, key_order::<LogEntry>()),
        is_stable_sort_by(entry_views(final(entries)@), entry_views(old(entries)@), entry_order()),
        log_time_ordered(entry_views(final(entries)@)),
{
    stable_sort(entries);
    proof {
        assert forall|a: LogEntry, b: LogEntry| #[trigger] a.sort_le(b) == entry_order()(a@, b@) by {}
        lemma_stable_sort_views(final(entries)@, old(entries)@, entry_order());
        let v = entry_views(final(entries)@);
        let p = choose|p: Seq<int>| stable_sort_witness(v, entry_views(old(entries)@), p, entry_order());
        lemma_log_order_by_time(v);
    }
}


/// Parsing a log line loses none of it: a timestamped line is its timestamp
/// text, a space and its message; any other line is its message, shown with
/// the text `NO_TIMESTAMP`.
pub proof fn lemma_log_line_preserved(
    container_name: Seq<char>,
    container_index: usize,
    line_index: usize,
    line: Seq<char>,
)
    ensures
        ({
            let e = parsed_log_line(container_name, container_index, line_index, line);
            &&& e.container_name == container_name
            &&& e.container_index == container_index
            &&& e.line_index == line_index
            &&& e.timestamp is Some ==> e.timestamp_text + seq![' '] + e.message == line
            &&& e.timestamp is None ==> e.message == line && e.timestamp_text == "NO_TIMESTAMP"@
        }),
{
    lemma_index_of_from(line, ' ', 0);
    let k = index_of_from(line, ' ', 0);
    if k < line.len() {
        assert(line.subrange(0, k) + seq![' '] + line.subrange(k + 1, line.len() as int) =~= line);
    }
}

/// The printed form of a log entry: `<timestamp> <container> | <message>`.
pub open spec fn formatted_entry(e: LogEntryView) -> Seq<char> {
    e.timestamp_text + " "@ + e.container_name + " | "@ + e.message
}

/// Formats a log entry as the combined log prints it.
pub fn format_log_entry(entry: &LogEntry) -> (r: String)
    ensures
        r@ == formatted_entry(entry@),
{
    let mut r = String::from_str(entry.timestamp_text.as_str());
    r.append(" ");
    r.append(entry.container_name.as_str());
    r.append(" | ");
    r.append(entry.message.as_str());
    r
}

/// The printed form of one line of a followed container's log stream.
pub fn prefixed_line(container_name: &str, line: &str) -> (r: String)
    ensures
        r@ == formatted_entry(parsed_log_line(container_name@, 0, 0, line@)),
{
    let entry = parse_log_line(container_name, 0, 0, line);
    format_log_entry(&entry)
}

/// The line reported when a followed container's log stream cannot be read:
/// `NO_TIMESTAMP <container> | failed to read log stream: <error>`.
pub open spec fn stream_failure_text(container_name: Seq<char>, error: Seq<char>) -> Seq<char> {
    "NO_TIMESTAMP "@ + container_name + " | failed to read log stream: "@ + error
}

/// Builds the line reported when reading a followed container's log stream
/// fails.
pub fn stream_read_failure_line(container_name: &str, error: &str) -> (r: String)
    ensures
        r@ == stream_failure_text(container_name@, error@),
{
    let mut r = String::from_str("NO_TIMESTAMP ");
    r.append(container_name);
    r.append(" | failed to read log stream: ");
    r.append(error);
    r
}

/// The arguments of the `docker` command that follows a container's logs:
/// `logs --timestamps --follow --tail <tail> <container>`.
pub fn follow_logs_args(container_name: &str, tail: usize) -> (args: Vec<String>)
    ensures
        args@.len() == 6,
        args@[0]@ == "logs"@,
        args@[1]@ == "--timestamps"@,
        args@[2]@ == "--follow"@,
        args@[3]@ == "--tail"@,
        args@[4]@ == decimal_text(tail as nat),
        args@[5]@ == container_name@,
{
    let mut args: Vec<String> = Vec::new();
    args.push(String::from_str("logs"));
    args.push(String::from_str("--timestamps"));
    args.push(String::from_str("--follow"));
    args.push(String::from_str("--tail"));
    args.push(decimal(tail as u64));
    args.push(String::from_str(container_name));
    args
}

/// Whether following is over: no followed `docker logs` process is still
/// running.
pub fn all_finished(running: &Vec<bool>) -> (r: bool)
    ensures
        r == forall|i: int| 0 <= i < running@.len() ==> !#[trigger] running@[i],
{
    let mut i: usize = 0;
    while i < running.len()
        invariant
            i <= running@.len(),
            forall|j: int| 0 <= j < i ==> !#[trigger] running@[j],
        decreases running@.len() - i,
    {
        if running[i] {
            return false;
        }
        i += 1;
    }
    true
}

/// What `docker logs --timestamps` printed for one container.
pub struct ContainerOutput {
    pub name: String,
    pub stdout: String,
    pub stderr: String,
}

/// The entries of the container at position `index`: its standard output
/// lines, then its error output lines, numbered from 0.
pub open spec fn container_entries(c: ContainerOutput, index: int) -> Seq<LogEntryView> {
    let lines = lines_of(c.stdout@) + lines_of(c.stderr@);
    Seq::new(
        lines.len(),
        |j: int| parsed_log_line(c.name@, index as usize, j as usize, lines[j]),
    )
}

/// The entries of the first `n` containers, container by container.
pub open spec fn all_log_entries(outputs: Seq<ContainerOutput>, n: int) -> Seq<LogEntryView>
    decreases n,
{
    if n <= 0 {
        Seq::empty()
    } else {
        all_log_entries(outputs, n - 1) + container_entries(outputs[n - 1], n - 1)
    }
}

/// `lines` is the combined log of the containers' output: every line of
/// every container, stably ordered by `entry_le` and formatted.
pub open spec fn is_combined_log(outputs: Seq<ContainerOutput>, lines: Seq<Seq<char>>) -> bool {
    exists|sorted: Seq<LogEntryView>|
        {
            &&& is_stable_sort_by(sorted, all_log_entries(outputs, outputs.len() as int), entry_order())
            &&& lines == sorted.map_values(|e: LogEntryView| formatted_entry(e))
        }
}

/// The combined log has one order only: the same container output always
/// gives the same printed lines.
pub proof fn lemma_combined_log_deterministic(
    outputs: Seq<ContainerOutput>,
    lines1: Seq<Seq<char>>,
    lines2: Seq<Seq<char>>,
)
    requires
        is_combined_log(outputs, lines1),
        is_combined_log(outputs, lines2),
    ensures
        lines1 == lines2,
{
    let all = all_log_entries(outputs, outputs.len() as int);
    let s1 = choose|sorted: Seq<LogEntryView>|
        {
            &&& is_stable_sort_by(sorted, all, entry_order())
            &&& lines1 == sorted.map_values(|e: LogEntryView| formatted_entry(e))
        };
    let s2 = choose|sorted: Seq<LogEntryView>|
        {
            &&& is_stable_sort_by(sorted, all, entry_order())
            &&& lines2 == sorted.map_values(|e: LogEntryView| formatted_entry(e))
        };
    lemma_stable_sort_unique(s1, s2, all, entry_order());
}

/// Ordering log entries a second time changes nothing.
pub proof fn lemma_log_order_idempotent(
    entries: Seq<LogEntry>,
    once: Seq<LogEntry>,
    twice: Seq<LogEntry>,
)
    requires
        is_stable_sort_by(once, entries, key_order::<LogEntry>()),
        is_stable_sort_by(twice, once, key_order::<LogEntry>()),
    ensures
        twice == once,
{
    lemma_stable_sort_of_sorted(twice, once, key_order::<LogEntry>());
}

/// Two entries with the same order key: timestamped entries with the same
/// instant, container name and line number, or entries without a timestamp
/// with the same container position and line number.
pub open spec fn same_log_key(a: LogEntryView, b: LogEntryView) -> bool {
    match (a.timestamp, b.timestamp) {
        (Some(ta), Some(tb)) => ta == tb && a.container_name == b.container_name && a.line_index
            == b.line_index,
        (None, None) => a.container_index == b.container_index && a.line_index == b.line_index,
        _ => false,
    }
}

/// No two entries at different positions share an order key.
pub open spec fn log_keys_distinct(s: Seq<LogEntry>) -> bool {
    forall|i: int, j: int|
        0 <= i < s.len() && 0 <= j < s.len() && i != j ==> !same_log_key(
            (#[trigger] s[i])@,
            (#[trigger] s[j])@,
        )
}

/// Entries that neither comes before the other share their order key.
proof fn lemma_equivalent_entries_share_key(a: LogEntryView, b: LogEntryView)
    requires
        entry_le(a, b),
        entry_le(b, a),
    ensures
        same_log_key(a, b),
{
    if text_rank(a.container_name, b.container_name) < 0 && text_rank(
        b.container_name,
        a.container_name,
    ) < 0 {
        lemma_text_le_antisymmetric(a.container_name, b.container_name);
    }
}

/// With distinct order keys, the order in which entries are given does not
/// matter: ordering two rearrangements of the same entries gives the same
/// sequence.
pub proof fn lemma_log_order_rearrangement(
    xs: Seq<LogEntry>,
    ys: Seq<LogEntry>,
    out1: Seq<LogEntry>,
    out2: Seq<LogEntry>,
)
    requires
        is_stable_sort_by(out1, xs, key_order::<LogEntry>()),
        is_stable_sort_by(out2, ys, key_order::<LogEntry>()),
        is_rearrangement_of(ys, xs),
        log_keys_distinct(xs),
    ensures
        out1 == out2,
{
    assert(keys_distinct(xs, key_order::<LogEntry>())) by {
        assert forall|i: int, j: int|
            0 <= i < xs.len() && 0 <= j < xs.len() && i != j implies !(key_order::<LogEntry>()(
            #[trigger] xs[i],
            #[trigger] xs[j],
        ) && key_order::<LogEntry>()(xs[j], xs[i])) by {
            if entry_le(xs[i]@, xs[j]@) && entry_le(xs[j]@, xs[i]@) {
                lemma_equivalent_entries_share_key(xs[i]@, xs[j]@);
            }
        }
    }
    lemma_stable_sort_rearrangement(out1, out2, xs, ys, key_order::<LogEntry>());
}

/// The combined log of the run's containers, given in the run's container
/// order: every line of every container, stably ordered by `entry_le` and
/// formatted.
pub fn sorted_log_lines(outputs: &Vec<ContainerOutput>) -> (lines: Vec<String>)
    ensures
        is_combined_log(outputs@, string_views(lines@)),
{
    let mut entries: Vec<LogEntry> = Vec::new();
    let mut i: usize = 0;
    while i < outputs.len()
        invariant
            i <= outputs@.len(),
            entry_views(entries@) == all_log_entries(outputs@, i as int),
        decreases outputs@.len() - i,
    {
        let c = &outputs[i];
        let mut lines = split_lines(c.stdout.as_str());
        let mut err_lines = split_lines(c.stderr.as_str());
        let ghost out_lines = lines@;
        let ghost e_lines = err_lines@;
        lines.append(&mut err_lines);
        proof {
            assert(string_views(lines@) =~= lines_of(c.stdout@) + lines_of(c.stderr@)) by {
                assert(lines@ == out_lines + e_lines);
                assert forall|j: int| 0 <= j < lines@.len() implies #[trigger] string_views(lines@)[j]
                    == (lines_of(c.stdout@) + lines_of(c.stderr@))[j] by {
                    if j < out_lines.len() {
                        assert(string_views(out_lines)[j] == out_lines[j]@);
                    } else {
                        assert(string_views(e_lines)[j - out_lines.len()] == e_lines[j
                            - out_lines.len()]@);
                    }
                }
            }
        }
        let mut parsed = parse_container_logs(c.name.as_str(), i, &lines);
        let ghost before = entries@;
        let ghost parsed_seq = parsed@;
        entries.append(&mut parsed);
        proof {
            let ce = container_entries(outputs@[i as int], i as int);
            assert(entry_views(parsed_seq) =~= ce) by {
                assert forall|j: int| 0 <= j < parsed_seq.len() implies #[trigger] entry_views(
                    parsed_seq,
                )[j] == ce[j] by {
                    assert(string_views(lines@)[j] == lines@[j]@);
                }
            }
            assert(entry_views(entries@) =~= entry_views(before) + entry_views(parsed_seq));
        }
        i += 1;
    }
    let ghost unsorted = entries@;
    sort_log_entries(&mut entries);
    let mut lines: Vec<String> = Vec::new();
    let mut k: usize = 0;
    while k < entries.len()
        invariant
            k <= entries@.len(),
            lines@.len() == k,
            forall|t: int| 0 <= t < k ==> (#[trigger] lines@[t])@ == formatted_entry(entries@[t]@),
        decreases entries@.len() - k,
    {
        let line = format_log_entry(&entries[k]);
        lines.push(line);
        k += 1;
    }
    proof {
        let sorted = entry_views(entries@);
        assert(string_views(lines@) =~= sorted.map_values(|e: LogEntryView| formatted_entry(e)));
        assert(is_stable_sort_by(sorted, entry_views(unsorted), entry_order()));
        assert(is_combined_log(outputs@, string_views(lines@)));
    }
    lines
}

/// The prefix of the names of the containers of run `run_id`: `foc-<run_id>-`.
pub open spec fn run_prefix(run_id: Seq<char>) -> Seq<char> {
    "foc-"@ + run_id + "-"@
}

/// Builds `run_prefix(run_id)`.
pub fn current_run_prefix(run_id: &str) -> (r: String)
    ensures
        r@ == run_prefix(run_id@),
{
    let mut r = String::from_str("foc-");
    r.append(run_id);
    r.append("-");
    r
}

/// Whether a container belongs to the current run: its name starts with the
/// run's prefix.
pub fn is_current_run_container_name(container_name: &str, current_run_prefix: &str) -> (r: bool)
    ensures
        r == current_run_prefix@.is_prefix_of(container_name@),
{
    starts_with(container_name, current_run_prefix)
}

/// The containers of run `run_id` among `containers`: those whose name starts
/// with `foc-<run_id>-`, ordered stably by name.
pub fn current_run_containers(run_id: &str, containers: Vec<ContainerInfo>) -> (r: Vec<
    ContainerInfo,
>)
    ensures
        is_stable_sort_by(
            r@,
            containers@.filter(|c: ContainerInfo| run_prefix(run_id@).is_prefix_of(c.name@)),
            key_order::<ContainerInfo>(),
        ),
        forall|i: int, j: int| 0 <= i < j < r@.len() ==> text_le(#[trigger] r@[i].name@, #[trigger] r@[j].name@),
{
    let prefix = current_run_prefix(run_id);
    let ghost orig = containers@;
    let ghost pred = |c: ContainerInfo| run_prefix(run_id@).is_prefix_of(c.name@);
    let mut rest = containers;
    let mut selected: Vec<ContainerInfo> = Vec::new();
    let mut k: usize = 0;
    let n = rest.len();
    proof {
        assert(orig.take(0) =~= Seq::<ContainerInfo>::empty());
        assert(orig.skip(0) =~= orig);
    }
    while k < n
        invariant
            n == orig.len(),
            k <= n,
            prefix@ == run_prefix(run_id@),
            pred == (|c: ContainerInfo| run_prefix(run_id@).is_prefix_of(c.name@)),
            rest@ == orig.skip(k as int),
            selected@ == orig.take(k as int).filter(pred),
        decreases n - k,
    {
        let c = rest.remove(0);
        assert(c == orig[k as int]);
        let keep = is_current_run_container_name(c.name.as_str(), prefix.as_str());
        proof {
            assert(orig.take(k + 1) =~= orig.take(k as int).push(c));
            orig.take(k as int).lemma_filter_push(c, pred);
            assert(rest@ =~= orig.skip(k + 1));
        }
        if keep {
            selected.push(c);
        }
        k += 1;
    }
    proof {
        assert(orig.take(n as int) =~= orig);
    }
    stable_sort(&mut selected);
    proof {
        let p = choose|p: Seq<int>| stable_sort_witness(
            selected@,
            orig.filter(pred),
            p,
            key_order::<ContainerInfo>(),
        );
        assert forall|i: int, j: int| 0 <= i < j < selected@.len() implies text_le(
            #[trigger] selected@[i].name@,
            #[trigger] selected@[j].name@,
        ) by {
            assert(key_order::<ContainerInfo>()(selected@[i], selected@[j]));
        }
    }
    selected
}

/// How the logs are shown: printed once, merged in time order, or followed
/// with the given number of recent lines per container.
#[derive(Debug, Clone, Copy, PartialEq, Eq, Structural)]
pub enum LogsMode {
    Print,
    Follow { tail: usize },
}

/// Why the logs cannot be shown.
#[derive(Debug)]
pub enum LogsError {
    /// `--tail` was given without `--follow`.
    TailRequiresFollow,
    /// The current run has no containers.
    NoContainers { run_id: String },
    /// `docker logs` failed for a container.
    ContainerLogs { container_name: String, error: String },
    /// `docker logs --follow` could not be started for a container.
    FollowContainer { container_name: String, error: String },
}

impl LogsError {
    /// The message of the error.
    pub open spec fn message(&self) -> Seq<char> {
        match self {
            LogsError::TailRequiresFollow => "--tail can only be used with --follow"@,
            LogsError::NoContainers { run_id } => "No foc-devnet containers found for current run ID '"@
                + run_id@ + "'"@,
            LogsError::ContainerLogs { container_name, error } => "Failed to get logs for container '"@
                + container_name@ + "': "@ + error@,
            LogsError::FollowContainer { container_name, error } =>
                "Failed to follow logs for container '"@ + container_name@ + "': "@ + error@,
        }
    }

    /// The message of the error, as it is printed.
    pub fn to_string(&self) -> (r: String)
        ensures
            r@ == self.message(),
    {
        match self {
            LogsError::TailRequiresFollow => String::from_str("--tail can only be used with --follow"),
            LogsError::NoContainers { run_id } => {
                let mut r = String::from_str("No foc-devnet containers found for current run ID '");
                r.append(run_id.as_str());
                r.append("'");
                r
            },
            LogsError::ContainerLogs { container_name, error } => {
                let mut r = String::from_str("Failed to get logs for container '");
                r.append(container_name.as_str());
                r.append("': ");
                r.append(error.as_str());
                r
            },
            LogsError::FollowContainer { container_name, error } => {
                let mut r = String::from_str("Failed to follow logs for container '");
                r.append(container_name.as_str());
                r.append("': ");
                r.append(error.as_str());
                r
            },
        }
    }
}

/// A logs request that is accepted: `--tail` only with `--follow`.
pub open spec fn logs_request_accepted(follow: bool, tail: Option<usize>) -> bool {
    follow || tail is None
}

/// Validates a logs request: `--tail` needs `--follow`; following shows
/// `DEFAULT_FOLLOW_TAIL_LINES` recent lines unless `--tail` says otherwise.
pub fn logs(follow: bool, tail: Option<usize>) -> (r: Result<LogsMode, LogsError>)
    ensures
        r is Ok <==> logs_request_accepted(follow, tail),
        !follow && tail is Some ==> r matches Err(LogsError::TailRequiresFollow),
        !follow && tail is None ==> r == Ok::<LogsMode, LogsError>(LogsMode::Print),
        follow ==> r == Ok::<LogsMode, LogsError>(
            LogsMode::Follow {
                tail: match tail {
                    Some(n) => n,
                    None => DEFAULT_FOLLOW_TAIL_LINES,
                },
            },
        ),
{
    if !follow && tail.is_some() {
        return Err(LogsError::TailRequiresFollow);
    }
    if follow {
        let lines = match tail {
            Some(n) => n,
            None => DEFAULT_FOLLOW_TAIL_LINES,
        };
        Ok(LogsMode::Follow { tail: lines })
    } else {
        Ok(LogsMode::Print)
    }
}

/// Every logs command that the command line admits is accepted by `logs`.
pub proof fn lemma_parsed_logs_request_accepted(args: Seq<Seq<char>>)
    ensures
        parsed_command_line(args) matches Ok(CommandsView::Logs { follow, tail })
            ==> logs_request_accepted(follow, tail),
{
    lemma_tail_requires_follow(args);
}

/// What the logs command does once the run and its containers are known.
pub struct LogsPlan {
    pub mode: LogsMode,
    /// The run's containers, ordered by name.
    pub containers: Vec<ContainerInfo>,
}

/// Decides what the logs command does for run `run_id`, given all containers:
/// it fails when the run has none, and otherwise works on the run's
/// containers ordered by name.
pub fn plan_logs(mode: LogsMode, run_id: &str, containers: Vec<ContainerInfo>) -> (r: Result<
    LogsPlan,
    LogsError,
>)
    ensures
        match r {
            Ok(plan) => {
                &&& plan.mode == mode
                &&& plan.containers@.len() > 0
                &&& is_stable_sort_by(
                    plan.containers@,
                    containers@.filter(
                        |c: ContainerInfo| run_prefix(run_id@).is_prefix_of(c.name@),
                    ),
                    key_order::<ContainerInfo>(),
                )
                &&& forall|i: int, j: int| 0 <= i < j < plan.containers@.len() ==> text_le(
                    #[trigger] plan.containers@[i].name@,
                    #[trigger] plan.containers@[j].name@,
                )
            },
            Err(e) => {
                &&& e matches LogsError::NoContainers { run_id: id }
                &&& id@ == run_id@
                &&& containers@.filter(
                    |c: ContainerInfo| run_prefix(run_id@).is_prefix_of(c.name@),
                ).len() == 0
            },
        },
{
    let selected = current_run_containers(run_id, containers);
    if selected.len() == 0 {
        Err(LogsError::NoContainers { run_id: String::from_str(run_id) })
    } else {
        Ok(LogsPlan { mode, containers: selected })
    }
}

} // verus!
