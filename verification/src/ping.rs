//! Reading the output of a router's `ping` command.
//!
//! The router answers with a header, one line per echo reply (`... 12ms`,
//! `... 850us`, `... 1ms234us`), lines for lost packets, and a summary line.
//! A chunk of output is scanned line by line, as `BufRead::read_line` cuts
//! it, until the first line that carries a sample. Latencies are handed out
//! as the text of their number fields; turning them into floating-point
//! milliseconds is left to the caller.
use vstd::prelude::*;
use vstd::utf8::{valid_utf8, decode_utf8};
use crate::text::{
    chars_of, contains_str, copy_chars, find, first_match, has_sub, lemma_find_from, parse_i32, parse_i32_exec,
    push_all, push_range, split_whitespace, str_from_utf8, trim, trim_chars, trim_end_matches,
    trim_end_matches_str, views, words,
};

verus! {

/// The number fields of a latency, as the reply line writes them.
#[derive(Debug)]
pub enum LatencyText {
    /// Milliseconds and microseconds (`1ms234us`).
    MsUs { ms: Vec<char>, us: Vec<char> },
    /// Milliseconds only.
    Ms(Vec<char>),
    /// Microseconds only.
    Us(Vec<char>),
    /// No unit was found: the latency counts as zero.
    Missing,
}

/// The model of a `LatencyText`.
pub enum LatencyModel {
    MsUs { ms: Seq<char>, us: Seq<char> },
    Ms(Seq<char>),
    Us(Seq<char>),
    Missing,
}

impl View for LatencyText {
    type V = LatencyModel;

    open spec fn view(&self) -> LatencyModel {
        match self {
            LatencyText::MsUs { ms, us } => LatencyModel::MsUs { ms: ms@, us: us@ },
            LatencyText::Ms(v) => LatencyModel::Ms(v@),
            LatencyText::Us(v) => LatencyModel::Us(v@),
            LatencyText::Missing => LatencyModel::Missing,
        }
    }
}

/// What a chunk of ping output yields: the first line that carries a sample,
/// or why the scan stopped without one.
#[derive(Debug)]
pub enum PingEvent {
    /// An echo reply; `ttl` is read when the line has at least five bytes and
    /// the caller asked for it.
    Reply { line: Vec<char>, latency: LatencyText, ttl: Option<i32> },
    /// A lost packet (`could not...`, `packet-loss=100%`, `timeout`).
    Lost { line: Vec<char> },
    /// The router refused the command (`Invalid ar...`).
    InvalidArgument { line: Vec<char> },
    /// A line that is not well-formed UTF-8 ended the scan.
    ReadError,
    /// The chunk holds no sample.
    End,
}

/// The model of a `PingEvent`.
pub enum PingEventModel {
    Reply { line: Seq<char>, latency: LatencyModel, ttl: Option<i32> },
    Lost { line: Seq<char> },
    InvalidArgument { line: Seq<char> },
    ReadError,
    End,
}

impl View for PingEvent {
    type V = PingEventModel;

    open spec fn view(&self) -> PingEventModel {
        match self {
            PingEvent::Reply { line, latency, ttl } => PingEventModel::Reply {
                line: line@,
                latency: latency@,
                ttl: *ttl,
            },
            PingEvent::Lost { line } => PingEventModel::Lost { line: line@ },
            PingEvent::InvalidArgument { line } => PingEventModel::InvalidArgument { line: line@ },
            PingEvent::ReadError => PingEventModel::ReadError,
            PingEvent::End => PingEventModel::End,
        }
    }
}

/// How a scan reads its lines; the three readers of ping output differ.
#[derive(Clone, Copy, Debug, PartialEq, Eq, Structural)]
pub enum ScanMode {
    /// Live test: stops on `Invalid ar...`, reads TTLs, latency from the fifth word.
    LiveTest,
    /// Report: no TTL, latency from the fifth word.
    Report,
    /// Database upload: reads TTLs, latency from the first word with a unit.
    Upload,
}

/// The kind of a ping output line.
pub enum LineKind {
    Skip,
    Reply,
    Lost,
    InvalidArgument,
}

/// The word at `k`, or the empty text when there are fewer words.
pub open spec fn word_or_empty(ws: Seq<Seq<char>>, k: int) -> Seq<char> {
    if 0 <= k < ws.len() {
        ws[k]
    } else {
        seq![]
    }
}

/// An echo reply line: trimmed, it ends with `m`, `s` or `u`.
pub open spec fn is_reply_line(c: Seq<char>) -> bool {
    let t = trim(c);
    t.len() > 0 && (t.last() == 'm' || t.last() == 's' || t.last() == 'u')
}

/// The kind of a line, tested in the order that the readers test.
pub open spec fn line_kind(c: Seq<char>, detect_invalid: bool) -> LineKind {
    if has_sub(c, "SEQ HOST"@) {
        LineKind::Skip
    } else if has_sub(c, "avg-rtt="@) && has_sub(c, "packet-loss="@) {
        LineKind::Skip
    } else if is_reply_line(c) {
        LineKind::Reply
    } else if has_sub(c, "could not..."@) || has_sub(c, "packet-loss=100%"@) || has_sub(
        c,
        "timeout"@,
    ) {
        LineKind::Lost
    } else if detect_invalid && has_sub(c, "Invalid ar..."@) {
        LineKind::InvalidArgument
    } else {
        LineKind::Skip
    }
}

/// The latency fields of a reply line, read from its fifth word.
pub open spec fn latency_from_fifth_word(line: Seq<char>) -> LatencyModel {
    let value = word_or_empty(words(line), 4);
    if has_sub(line, "ms"@) && has_sub(line, "us"@) {
        let pos = match first_match(value, "ms"@) {
            Some(k) => k,
            None => 0,
        };
        LatencyModel::MsUs { ms: value.take(pos), us: trim_end_matches(value.skip(pos), "us"@) }
    } else if has_sub(line, "ms"@) {
        LatencyModel::Ms(trim_end_matches(value, "ms"@))
    } else if has_sub(line, "us"@) {
        LatencyModel::Us(trim_end_matches(value, "us"@))
    } else {
        LatencyModel::Missing
    }
}

/// The first word that contains `ms` or `us`, or the empty text.
pub open spec fn first_unit_word(ws: Seq<Seq<char>>) -> Seq<char>
    decreases ws.len(),
{
    if ws.len() == 0 {
        seq![]
    } else if has_sub(ws[0], "ms"@) || has_sub(ws[0], "us"@) {
        ws[0]
    } else {
        first_unit_word(ws.drop_first())
    }
}

/// The latency fields of a reply line, read from its first word with a unit.
pub open spec fn latency_from_unit_word(line: Seq<char>) -> LatencyModel {
    let part = first_unit_word(words(line));
    if has_sub(part, "ms"@) && has_sub(part, "us"@) {
        let pos = match first_match(part, "ms"@) {
            Some(k) => k + 2,
            None => 2,
        };
        LatencyModel::MsUs {
            ms: trim_end_matches(part.take(pos), "ms"@),
            us: trim_end_matches(part.skip(pos), "us"@),
        }
    } else if has_sub(part, "ms"@) {
        LatencyModel::Ms(trim_end_matches(part, "ms"@))
    } else if has_sub(part, "us"@) {
        LatencyModel::Us(trim_end_matches(part, "us"@))
    } else {
        LatencyModel::Missing
    }
}

/// The TTL field: the fourth word as an `i32`, zero when it is missing or
/// does not parse.
pub open spec fn ttl_field(line: Seq<char>) -> i32 {
    let ws = words(line);
    if ws.len() > 3 {
        match parse_i32(ws[3]) {
            Some(v) => v as i32,
            None => 0,
        }
    } else {
        0
    }
}

/// The event that a complete, well-formed line yields, if any; `nbytes` is
/// its length in bytes.
pub open spec fn line_event(c: Seq<char>, nbytes: nat, mode: ScanMode) -> Option<PingEventModel> {
    match line_kind(c, mode is LiveTest) {
        LineKind::Skip => None,
        LineKind::Reply => Some(
            PingEventModel::Reply {
                line: c,
                latency: if mode is Upload {
                    latency_from_unit_word(c)
                } else {
                    latency_from_fifth_word(c)
                },
                ttl: if !(mode is Report) && nbytes >= 5 {
                    Some(ttl_field(c))
                } else {
                    None
                },
            },
        ),
        LineKind::Lost => Some(PingEventModel::Lost { line: c }),
        LineKind::InvalidArgument => Some(PingEventModel::InvalidArgument { line: c }),
    }
}

/// The event of the raw line `raw` (its bytes, line feed included), if any.
pub open spec fn raw_line_event(raw: Seq<u8>, mode: ScanMode) -> Option<PingEventModel> {
    if !valid_utf8(raw) {
        Some(PingEventModel::ReadError)
    } else {
        line_event(decode_utf8(raw), raw.len(), mode)
    }
}

/// Scans `b`, where `cur` holds the bytes of the line read so far.
pub open spec fn scan_acc(b: Seq<u8>, cur: Seq<u8>, mode: ScanMode) -> PingEventModel
    decreases b.len(),
{
    if b.len() == 0 {
        if cur.len() == 0 {
            PingEventModel::End
        } else {
            match raw_line_event(cur, mode) {
                Some(e) => e,
                None => PingEventModel::End,
            }
        }
    } else if b[0] == 10 {
        match raw_line_event(cur.push(10), mode) {
            Some(e) => e,
            None => scan_acc(b.drop_first(), seq![], mode),
        }
    } else {
        scan_acc(b.drop_first(), cur.push(b[0]), mode)
    }
}

/// What a chunk of ping output yields: its lines (each up to and including a
/// line feed, the last one possibly without) are read in order; the first
/// line that is not well-formed UTF-8 ends the scan with `ReadError`, and the
/// first line that carries a sample gives the event.
pub open spec fn scan_chunk(b: Seq<u8>, mode: ScanMode) -> PingEventModel {
    scan_acc(b, seq![], mode)
}

fn kind_of_line(c: &[char], detect_invalid: bool) -> (k: LineKind)
    ensures
        k == line_kind(c@, detect_invalid),
{
    if contains_str(c, "SEQ HOST") {
        return LineKind::Skip;
    }
    if contains_str(c, "avg-rtt=") && contains_str(c, "packet-loss=") {
        return LineKind::Skip;
    }
    let t = trim_chars(c);
    let n = t.len();
    if n > 0 && (t[n - 1] == 'm' || t[n - 1] == 's' || t[n - 1] == 'u') {
        return LineKind::Reply;
    }
    if contains_str(c, "could not...") || contains_str(c, "packet-loss=100%") || contains_str(
        c,
        "timeout",
    ) {
        return LineKind::Lost;
    }
    if detect_invalid && contains_str(c, "Invalid ar...") {
        return LineKind::InvalidArgument;
    }
    LineKind::Skip
}

fn take_chars(s: &[char], n: usize) -> (r: Vec<char>)
    requires
        n <= s@.len(),
    ensures
        r@ == s@.take(n as int),
{
    let mut r: Vec<char> = Vec::new();
    push_range(&mut r, s, 0, n);
    assert(s@.subrange(0, n as int) =~= s@.take(n as int));
    r
}

fn skip_chars(s: &[char], n: usize) -> (r: Vec<char>)
    requires
        n <= s@.len(),
    ensures
        r@ == s@.skip(n as int),
{
    let mut r: Vec<char> = Vec::new();
    push_range(&mut r, s, n, s.len());
    assert(s@.subrange(n as int, s@.len() as int) =~= s@.skip(n as int));
    r
}

/// The word at `k` of `ws`, or the empty text.
fn word_at(ws: &Vec<Vec<char>>, k: usize) -> (r: Vec<char>)
    ensures
        r@ == word_or_empty(views(ws@), k as int),
{
    if k < ws.len() {
        copy_chars(ws[k].as_slice())
    } else {
        Vec::new()
    }
}

/// `parse_latency_value` of the live test and the report: the latency fields
/// of a reply line, read from its fifth word.
pub fn parse_latency_value(element: &[char]) -> (r: LatencyText)
    ensures
        r@ == latency_from_fifth_word(element@),
{
    let ws = split_whitespace(element);
    let value = word_at(&ws, 4);
    let has_ms = contains_str(element, "ms");
    let has_us = contains_str(element, "us");
    if has_ms && has_us {
        let msv = chars_of("ms");
        let pos: usize = match find(value.as_slice(), msv.as_slice()) {
            Some(k) => k,
            None => 0,
        };
        proof {
            if first_match(value@, msv@) is Some {
                lemma_find_from(value@, msv@, 0);
            }
        }
        let ms = take_chars(value.as_slice(), pos);
        let rest = skip_chars(value.as_slice(), pos);
        let us = trim_end_matches_str(rest.as_slice(), "us");
        LatencyText::MsUs { ms, us }
    } else if has_ms {
        LatencyText::Ms(trim_end_matches_str(value.as_slice(), "ms"))
    } else if has_us {
        LatencyText::Us(trim_end_matches_str(value.as_slice(), "us"))
    } else {
        LatencyText::Missing
    }
}

/// The first word of `ws` that contains `ms` or `us`, or the empty text.
fn first_unit_word_exec(ws: &Vec<Vec<char>>) -> (r: Vec<char>)
    ensures
        r@ == first_unit_word(views(ws@)),
{
    let mut i: usize = 0;
    assert(views(ws@).skip(0) =~= views(ws@));
    while i < ws.len()
        invariant
            i <= ws@.len(),
            first_unit_word(views(ws@)) == first_unit_word(views(ws@).skip(i as int)),
        decreases ws@.len() - i,
    {
        let ghost rest = views(ws@).skip(i as int);
        assert(rest[0] == ws@[i as int]@);
        if contains_str(ws[i].as_slice(), "ms") || contains_str(ws[i].as_slice(), "us") {
            return copy_chars(ws[i].as_slice());
        }
        assert(rest.drop_first() =~= views(ws@).skip(i + 1));
        i = i + 1;
    }
    assert(views(ws@).skip(i as int) =~= Seq::<Seq<char>>::empty());
    Vec::new()
}

/// `parse_latency_value` of the database upload: the latency fields of a
/// reply line, read from its first word that has a unit.
pub fn parse_latency_value_upload(element: &[char]) -> (r: LatencyText)
    ensures
        r@ == latency_from_unit_word(element@),
{
    let ws = split_whitespace(element);
    proof {
        assert(views(ws@).skip(0) =~= views(ws@));
    }
    let part = first_unit_word_exec(&ws);
    let has_ms = contains_str(part.as_slice(), "ms");
    let has_us = contains_str(part.as_slice(), "us");
    if has_ms && has_us {
        let msv = chars_of("ms");
        let k: usize = match find(part.as_slice(), msv.as_slice()) {
            Some(k) => k,
            None => 0,
        };
        proof {
            reveal_strlit("ms");
            lemma_find_from(part@, msv@, 0);
            assert(msv@.len() == 2);
            assert(k + 2 <= part@.len());
        }
        let pl = part.len();
        assert(k + 2 <= pl);
        let pos = k + 2;
        let a = take_chars(part.as_slice(), pos);
        let b = skip_chars(part.as_slice(), pos);
        LatencyText::MsUs {
            ms: trim_end_matches_str(a.as_slice(), "ms"),
            us: trim_end_matches_str(b.as_slice(), "us"),
        }
    } else if has_ms {
        LatencyText::Ms(trim_end_matches_str(part.as_slice(), "ms"))
    } else if has_us {
        LatencyText::Us(trim_end_matches_str(part.as_slice(), "us"))
    } else {
        LatencyText::Missing
    }
}

fn ttl_of(c: &[char]) -> (t: i32)
    ensures
        t == ttl_field(c@),
{
    let ws = split_whitespace(c);
    if ws.len() > 3 {
        match parse_i32_exec(ws[3].as_slice()) {
            Some(v) => v,
            None => 0,
        }
    } else {
        0
    }
}

/// The event of a raw line, if any.
fn raw_line_event_exec(raw: &[u8], mode: &ScanMode) -> (r: Option<PingEvent>)
    ensures
        match r {
            Some(e) => raw_line_event(raw@, *mode) == Some(e@),
            None => raw_line_event(raw@, *mode) is None,
        },
{
    let s = match str_from_utf8(raw) {
        Some(s) => s,
        None => {
            return Some(PingEvent::ReadError);
        },
    };
    let c = chars_of(s);
    let detect = match mode {
        ScanMode::LiveTest => true,
        _ => false,
    };
    match kind_of_line(c.as_slice(), detect) {
        LineKind::Skip => None,
        LineKind::Reply => {
            let latency = match mode {
                ScanMode::Upload => parse_latency_value_upload(c.as_slice()),
                _ => parse_latency_value(c.as_slice()),
            };
            let ttl = match mode {
                ScanMode::Report => None,
                _ => if raw.len() >= 5 {
                    Some(ttl_of(c.as_slice()))
                } else {
                    None
                },
            };
            Some(PingEvent::Reply { line: c, latency, ttl })
        },
        LineKind::Lost => Some(PingEvent::Lost { line: c }),
        LineKind::InvalidArgument => Some(PingEvent::InvalidArgument { line: c }),
    }
}

/// Scans a chunk of ping output in the given mode.
pub fn scan_ping_output(buffer: &[u8], mode: ScanMode) -> (r: PingEvent)
    ensures
        r@ == scan_chunk(buffer@, mode),
{
    let mut cur: Vec<u8> = Vec::new();
    let mut i: usize = 0;
    assert(buffer@.skip(0) =~= buffer@);
    while i < buffer.len()
        invariant
            i <= buffer@.len(),
            scan_acc(buffer@.skip(i as int), cur@, mode) == scan_chunk(buffer@, mode),
        decreases buffer@.len() - i,
    {
        let ghost rest = buffer@.skip(i as int);
        assert(rest.drop_first() =~= buffer@.skip(i + 1));
        assert(rest[0] == buffer@[i as int]);
        let b = buffer[i];
        cur.push(b);
        if b == 10 {
            match raw_line_event_exec(cur.as_slice(), &mode) {
                Some(e) => {
                    return e;
                },
                None => {},
            }
            cur = Vec::new();
            assert(cur@ =~= Seq::<u8>::empty());
        }
        i = i + 1;
    }
    assert(buffer@.skip(i as int) =~= Seq::<u8>::empty());
    if cur.len() == 0 {
        return PingEvent::End;
    }
    match raw_line_event_exec(cur.as_slice(), &mode) {
        Some(e) => e,
        None => PingEvent::End,
    }
}

/// The live test's reader: the first sample of a chunk, or why there is none.
pub fn process_ssh_terminal(buffer: &[u8]) -> (r: PingEvent)
    ensures
        r@ == scan_chunk(buffer@, ScanMode::LiveTest),
{
    scan_ping_output(buffer, ScanMode::LiveTest)
}

/// The report's reader: the first sample of a chunk, or why there is none.
pub fn report_process_ssh_terminal(buffer: &[u8]) -> (r: PingEvent)
    ensures
        r@ == scan_chunk(buffer@, ScanMode::Report),
{
    scan_ping_output(buffer, ScanMode::Report)
}

/// The database upload's reader: the first sample of a chunk, or why there
/// is none.
pub fn upload_process_ssh_terminal(buffer: &[u8]) -> (r: PingEvent)
    ensures
        r@ == scan_chunk(buffer@, ScanMode::Upload),
{
    scan_ping_output(buffer, ScanMode::Upload)
}

// ---------------------------------------------------------------------------
// Statistics and the live display
// ---------------------------------------------------------------------------

/// The sum of a sequence of TTL values.
pub open spec fn sum_i32(s: Seq<i32>) -> int
    decreases s.len(),
{
    if s.len() == 0 {
        0
    } else {
        sum_i32(s.drop_last()) + s.last()
    }
}

/// Every running sum, as `Iterator::sum` forms them, fits in an `i32`.
pub open spec fn running_sums_fit(s: Seq<i32>) -> bool {
    forall|k: int|
        0 <= k <= s.len() ==> i32::MIN <= #[trigger] sum_i32(s.take(k)) <= i32::MAX
}

/// Integer division rounded toward zero, as Rust's `/` on `i32` rounds.
pub open spec fn div_toward_zero(a: int, b: int) -> int {
    let q = (if a < 0 { -a } else { a }) / (if b < 0 { -b } else { b });
    if (a < 0) != (b < 0) {
        -q
    } else {
        q
    }
}

/// The divisor that `values.len() as i32` gives.
pub open spec fn len_as_i32(n: nat) -> i32 {
    n as i32
}

/// The average TTL: zero for no values, otherwise the sum divided by the
/// count (taken `as i32`) and rounded toward zero.
pub fn calculate_average_ttl(values: &Vec<i32>) -> (r: i32)
    requires
        running_sums_fit(values@),
        values@.len() > 0 ==> len_as_i32(values@.len()) != 0,
        values@.len() > 0 ==> !(len_as_i32(values@.len()) == -1 && sum_i32(values@) == i32::MIN),
    ensures
        values@.len() == 0 ==> r == 0,
        values@.len() > 0 ==> r == div_toward_zero(
            sum_i32(values@),
            len_as_i32(values@.len()) as int,
        ),
{
    if values.len() == 0 {
        return 0;
    }
    let mut sum: i32 = 0;
    let mut i: usize = 0;
    assert(values@.take(0) =~= Seq::<i32>::empty());
    while i < values.len()
        invariant
            i <= values@.len(),
            running_sums_fit(values@),
            sum == sum_i32(values@.take(i as int)),
        decreases values@.len() - i,
    {
        assert(values@.take(i + 1).drop_last() =~= values@.take(i as int));
        assert(i32::MIN <= sum_i32(values@.take(i + 1)) <= i32::MAX);
        sum = sum + values[i];
        i = i + 1;
    }
    assert(values@.take(i as int) =~= values@);
    #[verifier::truncate]
    let d: i32 = values.len() as i32;
    assert(d == len_as_i32(values@.len()));
    let a: i64 = sum as i64;
    let b: i64 = d as i64;
    let ua: i64 = if a < 0 {
        -a
    } else {
        a
    };
    let ub: i64 = if b < 0 {
        -b
    } else {
        b
    };
    let q: i64 = ua / ub;
    let r: i64 = if (a < 0) != (b < 0) {
        -q
    } else {
        q
    };
    proof {
        assert(0 <= q <= ua) by (nonlinear_arith)
            requires
                q == ua / ub,
                ua >= 0,
                ub >= 1,
        ;
        assert(q <= 0x8000_0000);
        if q == 0x8000_0000 {
            assert(ua == 0x8000_0000 && ub == 1) by (nonlinear_arith)
                requires
                    q == ua / ub,
                    0 <= ua <= 0x8000_0000,
                    ub >= 1,
                    q == 0x8000_0000,
            ;
        }
    }
    r as i32
}

/// What the live display does after a chunk of output.
#[derive(Debug)]
pub struct MonitorStep {
    /// The screen line on which the raw chunk is printed, if it is printed.
    pub print_at: Option<u16>,
    /// Whether the result lines (1 to 19) are cleared instead.
    pub clear_result_lines: bool,
    /// The line number for the next chunk.
    pub next_line: u16,
    /// Whether the whole screen is cleared (at the tenth sample).
    pub clear_screen: bool,
    /// Whether the oldest latency sample is dropped (at the hundredth).
    pub drop_oldest: bool,
}

/// The first screen line of the scrolling results.
pub const PING_RESULTS_START_LINE: u16 = 1;

/// The last screen line of the scrolling results.
pub const PING_RESULTS_END_LINE: u16 = 16;

/// The display's decision after a chunk, given the current line number and
/// the number of latency samples held: print the chunk on the current line
/// and move down while above the last result line, otherwise start again at
/// line 0 and clear the result lines; clear the screen at ten samples; drop
/// the oldest sample at a hundred.
pub fn monitor_step(line_number: u16, samples: usize) -> (r: MonitorStep)
    ensures
        line_number < PING_RESULTS_END_LINE ==> r.print_at == Some(line_number) && r.next_line
            == line_number + 1 && !r.clear_result_lines,
        line_number >= PING_RESULTS_END_LINE ==> r.print_at is None && r.next_line == 0
            && r.clear_result_lines,
        r.clear_screen == (samples == 10),
        r.drop_oldest == (samples == 100),
{
    let (print_at, clear_result_lines, next_line) = if line_number < PING_RESULTS_END_LINE {
        (Some(line_number), false, line_number + 1)
    } else {
        (None, true, 0)
    };
    MonitorStep {
        print_at,
        clear_result_lines,
        next_line,
        clear_screen: samples == 10,
        drop_oldest: samples == 100,
    }
}

/// Keeps a sample window below `cap`: when it has reached `cap`, the oldest
/// sample is removed.
pub fn slide_window<T>(v: &mut Vec<T>, cap: usize)
    requires
        cap > 0,
    ensures
        old(v)@.len() == cap ==> final(v)@ == old(v)@.drop_first(),
        old(v)@.len() != cap ==> final(v)@ == old(v)@,
{
    if v.len() == cap {
        v.remove(0);
        assert(v@ =~= old(v)@.drop_first());
    }
}

/// The sample window never reaches its cap between chunks: a window of
/// fewer than `cap` samples that gains at most one sample from a chunk and is
/// then slid (`slide_window`) holds fewer than `cap` samples again.
pub proof fn lemma_window_stays_below_cap<T>(before: Seq<T>, added: Seq<T>, cap: nat)
    requires
        before.len() < cap,
        added.len() <= 1,
    ensures
        ({
            let grown = before + added;
            let slid = if grown.len() == cap {
                grown.drop_first()
            } else {
                grown
            };
            slid.len() < cap
        }),
{
}

/// The unit of a latency follows the unit in its word. For the upload
/// reader (first word with a unit): a word with `ms` and no `us` is a
/// millisecond value, that word without its trailing `ms`; a word with `us`
/// and no `ms` is a microsecond value; a microsecond or millisecond value
/// never comes from a word without that unit; no such word gives no value.
pub proof fn lemma_upload_latency_unit(line: Seq<char>)
    ensures
        ({
            let part = first_unit_word(words(line));
            &&& has_sub(part, "ms"@) && !has_sub(part, "us"@) ==> latency_from_unit_word(line)
                == LatencyModel::Ms(trim_end_matches(part, "ms"@))
            &&& has_sub(part, "us"@) && !has_sub(part, "ms"@) ==> latency_from_unit_word(line)
                == LatencyModel::Us(trim_end_matches(part, "us"@))
            &&& latency_from_unit_word(line) is Us ==> has_sub(part, "us"@) && !has_sub(part, "ms"@)
            &&& latency_from_unit_word(line) is Ms ==> has_sub(part, "ms"@) && !has_sub(part, "us"@)
            &&& latency_from_unit_word(line) is MsUs ==> has_sub(part, "ms"@) && has_sub(part, "us"@)
            &&& latency_from_unit_word(line) is Missing <==> !has_sub(part, "ms"@) && !has_sub(
                part,
                "us"@,
            )
        }),
{
}

/// The same for the live test's and the report's reader, which read the
/// fifth word and look for the units anywhere in the line.
pub proof fn lemma_fifth_word_latency_unit(line: Seq<char>)
    ensures
        ({
            let value = word_or_empty(words(line), 4);
            &&& has_sub(line, "ms"@) && !has_sub(line, "us"@) ==> latency_from_fifth_word(line)
                == LatencyModel::Ms(trim_end_matches(value, "ms"@))
            &&& has_sub(line, "us"@) && !has_sub(line, "ms"@) ==> latency_from_fifth_word(line)
                == LatencyModel::Us(trim_end_matches(value, "us"@))
            &&& latency_from_fifth_word(line) is Us ==> has_sub(line, "us"@) && !has_sub(line, "ms"@)
            &&& latency_from_fifth_word(line) is Ms ==> has_sub(line, "ms"@) && !has_sub(line, "us"@)
            &&& latency_from_fifth_word(line) is Missing <==> !has_sub(line, "ms"@) && !has_sub(
                line,
                "us"@,
            )
        }),
{
}

} // verus!
