//! From the standard error of one parser run to its three logs.
//!
//! The stream is a sequence of lines.  A line that starts with the tag
//! `@nix` carries a JSON record; any other line of four bytes or more is
//! not part of the protocol.

use crate::complog::{CompLog, LogView};
use crate::finds::{Message, Position};
use crate::json::{json_members, json_object, lookup, member, member_view, parse_object, JsonObject, Member, MemberView};
use crate::normalize::{normalized, simplify_msg};
use vstd::prelude::*;
use vstd::slice::slice_subrange;
use vstd::utf8::encode_utf8;

verus! {

/// One record of a parser's log.
#[derive(Debug)]
pub struct LogEntry {
    pub action: String,
    pub file: Option<Position>,
    pub level: i16,
    pub msg: Message,
    pub raw_msg: Option<Message>,
}

/// The mathematical side of a `LogEntry`.
pub struct LogEntryView {
    pub action: Seq<char>,
    pub file: Option<Seq<char>>,
    pub level: i16,
    pub msg: Seq<char>,
    pub raw_msg: Option<Seq<char>>,
}

impl View for LogEntry {
    type V = LogEntryView;

    open spec fn view(&self) -> LogEntryView {
        LogEntryView {
            action: self.action@,
            file: self.file.deep_view(),
            level: self.level,
            msg: self.msg@,
            raw_msg: self.raw_msg.deep_view(),
        }
    }
}

/// The views of a sequence of records.
pub open spec fn entry_views(entries: Seq<LogEntry>) -> Seq<LogEntryView> {
    Seq::new(entries.len(), |i: int| entries[i]@)
}

/// How grave a record is.
#[derive(Clone, Copy, PartialEq, Eq, Structural, Debug)]
pub enum Severity {
    Error,
    Warning,
    Trace,
}

/// Level 0 is an error, level 1 a warning, every other level a trace.
pub open spec fn severity_of(level: i16) -> Severity {
    if level == 0 {
        Severity::Error
    } else if level == 1 {
        Severity::Warning
    } else {
        Severity::Trace
    }
}

/// Why a stream could not be read.
#[derive(Debug)]
pub enum LogError {
    /// A record asks for something other than a message; the value of its
    /// `action` member is kept.
    UnsupportedAction(String),
    /// A line of four bytes or more begins with something other than the
    /// tag; its first four bytes are kept.
    UnsupportedLinePrefix(Vec<u8>),
}

/// The mathematical side of a `LogError`.
pub enum LogErrorView {
    UnsupportedAction(Seq<char>),
    UnsupportedLinePrefix(Seq<u8>),
}

impl View for LogError {
    type V = LogErrorView;

    open spec fn view(&self) -> LogErrorView {
        match *self {
            LogError::UnsupportedAction(a) => LogErrorView::UnsupportedAction(a@),
            LogError::UnsupportedLinePrefix(p) => LogErrorView::UnsupportedLinePrefix(p@),
        }
    }
}

/// A member that has to be text.
pub open spec fn required_text(m: Option<MemberView>) -> Option<Seq<char>> {
    match m {
        Some(MemberView::Text(t)) => Some(t),
        _ => None,
    }
}

/// A member that is text where it is there: `Some(None)` for a missing or
/// null member, `None` for one of another kind.
pub open spec fn optional_text(m: Option<MemberView>) -> Option<Option<Seq<char>>> {
    match m {
        None => Some(None),
        Some(MemberView::Null) => Some(None),
        Some(MemberView::Text(t)) => Some(Some(t)),
        _ => None,
    }
}

/// A member that has to be an integer of 16 bits.
pub open spec fn required_level(m: Option<MemberView>) -> Option<i16> {
    match m {
        Some(MemberView::Number(Some(n))) => if i16::MIN <= n <= i16::MAX {
            Some(n as i16)
        } else {
            None
        },
        _ => None,
    }
}

/// The record that five members make, if each is of its kind.
pub open spec fn entry_from(
    action: Option<MemberView>,
    file: Option<MemberView>,
    level: Option<MemberView>,
    msg: Option<MemberView>,
    raw_msg: Option<MemberView>,
) -> Option<LogEntryView> {
    match (
        required_text(action),
        optional_text(file),
        required_level(level),
        required_text(msg),
        optional_text(raw_msg),
    ) {
        (Some(action), Some(file), Some(level), Some(msg), Some(raw_msg)) => Some(
            LogEntryView { action, file, level, msg, raw_msg },
        ),
        _ => None,
    }
}

/// The record that an object spells out.
pub open spec fn entry_of(members: Map<Seq<char>, MemberView>) -> Option<LogEntryView> {
    entry_from(
        lookup(members, "action"@),
        lookup(members, "file"@),
        lookup(members, "level"@),
        lookup(members, "msg"@),
        lookup(members, "raw_msg"@),
    )
}

fn text_member(m: Option<Member>) -> (r: Option<String>)
    ensures
        r.deep_view() == required_text(member_view(m)),
{
    match m {
        Some(Member::Text(t)) => Some(t),
        _ => None,
    }
}

fn optional_text_member(m: Option<Member>) -> (r: Option<Option<String>>)
    ensures
        r.deep_view() == optional_text(member_view(m)),
{
    match m {
        None => Some(None),
        Some(Member::Null) => Some(None),
        Some(Member::Text(t)) => Some(Some(t)),
        _ => None,
    }
}

fn level_member(m: Option<Member>) -> (r: Option<i16>)
    ensures
        r == required_level(member_view(m)),
{
    match m {
        Some(Member::Number(Some(n))) => if -32768 <= n && n <= 32767 {
            Some(n as i16)
        } else {
            None
        },
        _ => None,
    }
}

impl LogEntry {
    /// Builds a record from the five members of a JSON object.  `action`
    /// and `msg` have to be text and `level` an integer of 16 bits; `file`
    /// and `raw_msg` may be missing or null, and are text otherwise.
    pub fn from_members(
        action: Option<Member>,
        file: Option<Member>,
        level: Option<Member>,
        msg: Option<Member>,
        raw_msg: Option<Member>,
    ) -> (entry: Option<LogEntry>)
        ensures
            match entry {
                Some(e) => Some(e@),
                None => None,
            } == entry_from(
                member_view(action),
                member_view(file),
                member_view(level),
                member_view(msg),
                member_view(raw_msg),
            ),
    {
        let action = text_member(action);
        let file = optional_text_member(file);
        let level = level_member(level);
        let msg = text_member(msg);
        let raw_msg = optional_text_member(raw_msg);
        match (action, file, level, msg, raw_msg) {
            (Some(action), Some(file), Some(level), Some(msg), Some(raw_msg)) => Some(
                LogEntry { action, file, level, msg, raw_msg },
            ),
            _ => None,
        }
    }

    /// The key under which the record is filed: its raw message, or its
    /// message where it has none, in normal form.
    pub fn key(&self) -> (k: Message)
        ensures
            k@ == key_of(self@),
    {
        match &self.raw_msg {
            Some(raw) => simplify_msg(raw.clone()),
            None => simplify_msg(self.msg.clone()),
        }
    }

    /// The position at which the record was found: its own, or that of
    /// the file that was parsed.
    pub fn position(&self, file: &str) -> (p: Position)
        ensures
            p@ == position_of(self@, file@),
    {
        match &self.file {
            Some(own) => own.clone(),
            None => file.to_owned(),
        }
    }

    pub fn severity(&self) -> (s: Severity)
        ensures
            s == severity_of(self.level),
    {
        if self.level == 0 {
            Severity::Error
        } else if self.level == 1 {
            Severity::Warning
        } else {
            Severity::Trace
        }
    }
}

pub open spec fn key_of(e: LogEntryView) -> Seq<char> {
    normalized(
        match e.raw_msg {
            Some(raw) => raw,
            None => e.msg,
        },
    )
}

pub open spec fn position_of(e: LogEntryView, file: Seq<char>) -> Seq<char> {
    match e.file {
        Some(own) => own,
        None => file,
    }
}

fn entry_in(object: &JsonObject) -> (entry: Option<LogEntry>)
    ensures
        match entry {
            Some(e) => Some(e@),
            None => None,
        } == entry_of(json_members(*object)),
{
    let action = member(object, "action");
    let file = member(object, "file");
    let level = member(object, "level");
    let msg = member(object, "msg");
    let raw_msg = member(object, "raw_msg");
    LogEntry::from_members(action, file, level, msg, raw_msg)
}

/// The four bytes `@nix`.
pub open spec fn tag() -> Seq<u8> {
    seq![0x40u8, 0x6eu8, 0x69u8, 0x78u8]
}

/// The action of a record that carries a message.
pub open spec fn action_msg() -> Seq<char> {
    "msg"@
}

/// The JSON text of a tagged line: what follows the tag and one more
/// byte.
pub open spec fn payload_of(line: Seq<u8>) -> Seq<u8> {
    if line.len() >= 5 {
        line.subrange(5, line.len() as int)
    } else {
        Seq::<u8>::empty()
    }
}

/// What a record read from a line amounts to: a record that does not
/// announce a message ends the reading.
pub open spec fn checked(entry: Option<LogEntryView>) -> Result<Option<LogEntryView>, LogErrorView> {
    match entry {
        Some(e) => if e.action == action_msg() {
            Ok(Some(e))
        } else {
            Err(LogErrorView::UnsupportedAction(e.action))
        },
        None => Ok(None),
    }
}

/// What one line amounts to: a record, nothing, or the end of the
/// reading.  A line of fewer than four bytes is nothing; so is a tagged
/// line whose JSON text is no record.
pub open spec fn line_outcome(line: Seq<u8>) -> Result<Option<LogEntryView>, LogErrorView> {
    if line.len() < 4 {
        Ok(None)
    } else if line.subrange(0, 4) == tag() {
        checked(
            match json_object(payload_of(line)) {
                Some(members) => entry_of(members),
                None => None,
            },
        )
    } else {
        Err(LogErrorView::UnsupportedLinePrefix(line.subrange(0, 4)))
    }
}

/// Where the line that starts at `from` ends: at the next line feed, or
/// at the end of the stream.
pub open spec fn line_end(s: Seq<u8>, from: int) -> int
    decreases s.len() - from,
{
    if from < 0 || from >= s.len() || s[from] == 0x0au8 {
        from
    } else {
        line_end(s, from + 1)
    }
}

/// The records of the lines from `from` on, in their order, or the error
/// of the first line that ends the reading.
pub open spec fn entries_from(s: Seq<u8>, from: int) -> Result<Seq<LogEntryView>, LogErrorView>
    decreases s.len() - from,
{
    if from < 0 || from > s.len() {
        Ok(Seq::<LogEntryView>::empty())
    } else {
        let end = line_end(s, from);
        match line_outcome(s.subrange(from, end)) {
            Err(e) => Err(e),
            Ok(found) => {
                let rest = if from <= end < s.len() {
                    entries_from(s, end + 1)
                } else {
                    Ok(Seq::<LogEntryView>::empty())
                };
                match rest {
                    Err(e) => Err(e),
                    Ok(later) => Ok(
                        match found {
                            Some(e) => seq![e] + later,
                            None => later,
                        },
                    ),
                }
            },
        }
    }
}

/// The records of a whole stream.
pub open spec fn entries_of(s: Seq<u8>) -> Result<Seq<LogEntryView>, LogErrorView> {
    entries_from(s, 0)
}

pub proof fn lemma_line_end(s: Seq<u8>, from: int)
    requires
        0 <= from <= s.len(),
    ensures
        from <= line_end(s, from) <= s.len(),
        line_end(s, from) < s.len() ==> s[line_end(s, from)] == 0x0au8,
        forall|j: int| from <= j < line_end(s, from) ==> s[j] != 0x0au8,
    decreases s.len() - from,
{
    if from < s.len() && s[from] != 0x0au8 {
        lemma_line_end(s, from + 1);
    }
}

/// Checks the action of a record that was read.
pub fn check_action(entry: Option<LogEntry>) -> (r: Result<Option<LogEntry>, LogError>)
    ensures
        outcome_view(r) == checked(
            match entry {
                Some(e) => Some(e@),
                None => None,
            },
        ),
{
    match entry {
        Some(e) => {
            if e.action == "msg".to_owned() {
                Ok(Some(e))
            } else {
                Err(LogError::UnsupportedAction(e.action))
            }
        },
        None => Ok(None),
    }
}

/// The view of what reading a line gave.
pub open spec fn outcome_view(r: Result<Option<LogEntry>, LogError>) -> Result<
    Option<LogEntryView>,
    LogErrorView,
> {
    match r {
        Ok(Some(e)) => Ok(Some(e@)),
        Ok(None) => Ok(None),
        Err(e) => Err(e@),
    }
}

/// Reads one line of the stream.
pub fn read_line(line: &[u8]) -> (r: Result<Option<LogEntry>, LogError>)
    ensures
        outcome_view(r) == line_outcome(line@),
{
    if line.len() < 4 {
        return Ok(None);
    }
    if line[0] == 0x40 && line[1] == 0x6e && line[2] == 0x69 && line[3] == 0x78 {
        assert(line@.subrange(0, 4) =~= tag());
        let payload = if line.len() >= 5 {
            slice_subrange(line, 5, line.len())
        } else {
            slice_subrange(line, 0, 0)
        };
        assert(payload@ =~= payload_of(line@));
        let entry = match parse_object(payload) {
            Some(object) => entry_in(&object),
            None => None,
        };
        check_action(entry)
    } else {
        assert(line@.subrange(0, 4) != tag()) by {
            let head = line@.subrange(0, 4);
            assert(head[0] == line@[0] && head[1] == line@[1] && head[2] == line@[2] && head[3]
                == line@[3]);
        }
        let mut head: Vec<u8> = Vec::new();
        head.push(line[0]);
        head.push(line[1]);
        head.push(line[2]);
        head.push(line[3]);
        assert(head@ =~= line@.subrange(0, 4));
        Err(LogError::UnsupportedLinePrefix(head))
    }
}

/// What reading goes on to give once `seen` has been read and the rest
/// of the stream gives `rest`.
pub open spec fn after(seen: Seq<LogEntryView>, rest: Result<Seq<LogEntryView>, LogErrorView>) -> Result<
    Seq<LogEntryView>,
    LogErrorView,
> {
    match rest {
        Ok(later) => Ok(seen + later),
        Err(e) => Err(e),
    }
}

/// The records of a stream, in the order of their lines; the error of
/// the first line that is not part of the protocol, if there is one.
pub fn read_entries(stream: &[u8]) -> (r: Result<Vec<LogEntry>, LogError>)
    ensures
        match r {
            Ok(entries) => entries_of(stream@) == Ok::<Seq<LogEntryView>, LogErrorView>(
                entry_views(entries@),
            ),
            Err(e) => entries_of(stream@) == Err::<Seq<LogEntryView>, LogErrorView>(e@),
        },
{
    let mut entries: Vec<LogEntry> = Vec::new();
    let mut from: usize = 0;
    let n = stream.len();
    assert(entry_views(entries@) =~= Seq::<LogEntryView>::empty());
    assert(after(entry_views(entries@), entries_from(stream@, 0)) == entries_from(stream@, 0)) by {
        match entries_from(stream@, 0) {
            Ok(later) => {
                assert(Seq::<LogEntryView>::empty() + later =~= later);
            },
            Err(_) => {},
        }
    }
    loop
        invariant
            n == stream@.len(),
            from <= n,
            entries_of(stream@) == after(entry_views(entries@), entries_from(stream@, from as int)),
        decreases n - from,
    {
        let mut end: usize = from;
        while end < n && stream[end] != 0x0a
            invariant
                n == stream@.len(),
                from <= end <= n,
                line_end(stream@, from as int) == line_end(stream@, end as int),
            decreases n - end,
        {
            end += 1;
        }
        proof {
            lemma_line_end(stream@, from as int);
        }
        assert(end == line_end(stream@, from as int));
        let line = slice_subrange(stream, from, end);
        let ghost seen = entry_views(entries@);
        match read_line(line) {
            Err(e) => {
                return Err(e);
            },
            Ok(Some(entry)) => {
                let ghost view = entry@;
                entries.push(entry);
                proof {
                    assert(entry_views(entries@) =~= seen + seq![view]);
                    let rest = if end < n {
                        entries_from(stream@, end + 1)
                    } else {
                        Ok(Seq::<LogEntryView>::empty())
                    };
                    match rest {
                        Ok(later) => {
                            assert(seen + (seq![view] + later) =~= (seen + seq![view]) + later);
                        },
                        Err(_) => {},
                    }
                }
            },
            Ok(None) => {},
        }
        if end == n {
            proof {
                assert(entry_views(entries@) + Seq::<LogEntryView>::empty() =~= entry_views(entries@));
            }
            return Ok(entries);
        }
        from = end + 1;
    }
}

/// The records of one severity.
pub open spec fn of_severity(severity: Severity) -> spec_fn(LogEntryView) -> bool {
    |e: LogEntryView| severity_of(e.level) == severity
}

/// Whether some record is filed under `m`.
pub open spec fn names(entries: Seq<LogEntryView>, m: Seq<char>) -> bool {
    exists|i: int| 0 <= i < entries.len() && key_of(#[trigger] entries[i]) == m
}

/// The positions of the records filed under `m`.
pub open spec fn places(entries: Seq<LogEntryView>, file: Seq<char>, m: Seq<char>) -> Set<Seq<char>> {
    Set::new(
        |p: Seq<char>|
            exists|i: int|
                0 <= i < entries.len() && key_of(#[trigger] entries[i]) == m && position_of(
                    entries[i],
                    file,
                ) == p,
    )
}

/// The log that records make: under each key the positions of the
/// records filed under it, where `file` stands in for a record that
/// names no position.
pub open spec fn log_of(entries: Seq<LogEntryView>, file: Seq<char>) -> LogView {
    Map::new(|m: Seq<char>| names(entries, m), |m: Seq<char>| places(entries, file, m))
}

/// One more record adds its position under its key.
pub proof fn lemma_log_of_push(entries: Seq<LogEntryView>, file: Seq<char>, e: LogEntryView)
    ensures
        log_of(entries.push(e), file) == log_of(entries, file).insert(
            key_of(e),
            (if log_of(entries, file).contains_key(key_of(e)) {
                log_of(entries, file)[key_of(e)]
            } else {
                Set::<Seq<char>>::empty()
            }).insert(position_of(e, file)),
        ),
{
    let grown = entries.push(e);
    let k = key_of(e);
    let old_log = log_of(entries, file);
    let new_log = log_of(grown, file);
    let base = if old_log.contains_key(k) {
        old_log[k]
    } else {
        Set::<Seq<char>>::empty()
    };
    assert(base =~= places(entries, file, k)) by {
        if !old_log.contains_key(k) {
            assert forall|p: Seq<char>| !places(entries, file, k).contains(p) by {
                if places(entries, file, k).contains(p) {
                    let i = choose|i: int|
                        0 <= i < entries.len() && key_of(#[trigger] entries[i]) == k && position_of(
                            entries[i],
                            file,
                        ) == p;
                    assert(names(entries, k));
                }
            }
        }
    }
    assert(grown[entries.len() as int] == e);
    assert forall|m: Seq<char>| names(grown, m) <==> (names(entries, m) || m == k) by {
        if names(entries, m) {
            let i = choose|i: int| 0 <= i < entries.len() && key_of(#[trigger] entries[i]) == m;
            assert(grown[i] == entries[i]);
        }
        if names(grown, m) {
            let i = choose|i: int| 0 <= i < grown.len() && key_of(#[trigger] grown[i]) == m;
            if i < entries.len() {
                assert(grown[i] == entries[i]);
            }
        }
    }
    assert forall|m: Seq<char>, p: Seq<char>|
        places(grown, file, m).contains(p) <==> (places(entries, file, m).contains(p) || (m == k && p
            == position_of(e, file))) by {
        if places(entries, file, m).contains(p) {
            let i = choose|i: int|
                0 <= i < entries.len() && key_of(#[trigger] entries[i]) == m && position_of(
                    entries[i],
                    file,
                ) == p;
            assert(grown[i] == entries[i]);
        }
        if places(grown, file, m).contains(p) {
            let i = choose|i: int|
                0 <= i < grown.len() && key_of(#[trigger] grown[i]) == m && position_of(grown[i], file)
                    == p;
            if i < entries.len() {
                assert(grown[i] == entries[i]);
            }
        }
    }
    assert forall|m: Seq<char>| names(grown, m) implies #[trigger] new_log[m] == old_log.insert(
        k,
        base.insert(position_of(e, file)),
    )[m] by {
        if m == k {
            assert(places(grown, file, m) =~= base.insert(position_of(e, file)));
        } else {
            assert(places(grown, file, m) =~= places(entries, file, m));
        }
    }
    assert(new_log =~= old_log.insert(k, base.insert(position_of(e, file))));
}

/// Files records by key: each key holds the positions of its records,
/// and a position reported more than once stands there once.
pub fn dedup_log(entries: Vec<LogEntry>, file: &str) -> (log: CompLog)
    ensures
        log.wf(),
        log@ == log_of(entry_views(entries@), file@),
{
    let mut log = CompLog::new();
    let ghost views = entry_views(entries@);
    let mut i: usize = 0;
    assert(log@ =~= log_of(views.take(0), file@));
    while i < entries.len()
        invariant
            i <= entries@.len(),
            views == entry_views(entries@),
            log.wf(),
            log@ == log_of(views.take(i as int), file@),
        decreases entries@.len() - i,
    {
        let entry = &entries[i];
        proof {
            lemma_log_of_push(views.take(i as int), file@, entry@);
            assert(views.take(i as int + 1) =~= views.take(i as int).push(entry@));
        }
        log.record(entry.key(), entry.position(file));
        i += 1;
    }
    assert(views.take(entries@.len() as int) =~= views);
    log
}

/// The records of `entries` that are of the given severity, in their
/// order.
pub fn bucket(entries: &Vec<LogEntry>, severity: Severity) -> (chosen: Vec<LogEntry>)
    ensures
        entry_views(chosen@) == entry_views(entries@).filter(of_severity(severity)),
{
    let mut chosen: Vec<LogEntry> = Vec::new();
    let ghost views = entry_views(entries@);
    let mut i: usize = 0;
    assert(entry_views(chosen@) =~= views.take(0).filter(of_severity(severity)));
    while i < entries.len()
        invariant
            i <= entries@.len(),
            views == entry_views(entries@),
            entry_views(chosen@) == views.take(i as int).filter(of_severity(severity)),
        decreases entries@.len() - i,
    {
        let entry = &entries[i];
        let ghost before = entry_views(chosen@);
        proof {
            assert(views.take(i as int + 1) =~= views.take(i as int).push(entry@));
            views.take(i as int).lemma_filter_push(entry@, of_severity(severity));
        }
        if entry.severity() == severity {
            let copy = LogEntry {
                action: entry.action.clone(),
                file: entry.file.clone(),
                level: entry.level,
                msg: entry.msg.clone(),
                raw_msg: entry.raw_msg.clone(),
            };
            assert(copy@ == entry@);
            chosen.push(copy);
            assert(entry_views(chosen@) =~= before.push(entry@));
        }
        i += 1;
    }
    assert(views.take(entries@.len() as int) =~= views);
    chosen
}

/// The three logs of a stream: errors, warnings and traces.
pub open spec fn logs_of(stream: Seq<u8>, file: Seq<char>) -> Result<(LogView, LogView, LogView), LogErrorView> {
    match entries_of(stream) {
        Ok(entries) => Ok(
            (
                log_of(entries.filter(of_severity(Severity::Error)), file),
                log_of(entries.filter(of_severity(Severity::Warning)), file),
                log_of(entries.filter(of_severity(Severity::Trace)), file),
            ),
        ),
        Err(e) => Err(e),
    }
}

/// The views of three logs, or of the error in their place.
pub open spec fn logs_view(r: Result<(CompLog, CompLog, CompLog), LogError>) -> Result<
    (LogView, LogView, LogView),
    LogErrorView,
> {
    match r {
        Ok((errors, warnings, traces)) => Ok((errors@, warnings@, traces@)),
        Err(e) => Err(e@),
    }
}

/// Reads the standard error of one parser run into its logs of errors,
/// warnings and traces.  `file` is the position of every record that
/// names none.  The reading fails at the first line that is not part of
/// the protocol.
pub fn split_stderr(stderr: String, file: &str) -> (r: Result<(CompLog, CompLog, CompLog), LogError>)
    ensures
        logs_view(r) == logs_of(encode_utf8(stderr@), file@),
{
    let entries = match read_entries(stderr.as_str().as_bytes()) {
        Ok(entries) => entries,
        Err(e) => {
            return Err(e);
        },
    };
    let errors = bucket(&entries, Severity::Error);
    let warnings = bucket(&entries, Severity::Warning);
    let traces = bucket(&entries, Severity::Trace);
    Ok((dedup_log(errors, file), dedup_log(warnings, file), dedup_log(traces, file)))
}

} // verus!
