//! Reading the output of a router's traceroute (`mtr` report style): one line
//! per hop with the hop number, the host, the loss percentage, the number of
//! probes sent and the last, average, best and worst round-trip times, and
//! optionally their standard deviation. Header lines (`Columns:` or `#...`)
//! and short lines are skipped. Times and percentages are handed out as the
//! text of their numbers.
use vstd::prelude::*;
use vstd::utf8::{valid_utf8, decode_utf8};
use crate::text::{
    chars_of, parse_i32, parse_i32_exec, split_whitespace, starts_with, starts_with_exec,
    str_from_utf8, string_from_chars, trim_end_matches, trim_end_matches_str, views, words,
};

verus! {

/// One hop of a trace.
#[derive(Debug)]
pub struct TraceHop {
    pub count: i32,
    pub host: String,
    /// The loss field without its `%` signs.
    pub loss: String,
    pub sent: i32,
    /// The last, average, best and worst times without their `ms` units.
    pub last: String,
    pub avg: String,
    pub best: String,
    pub worst: String,
    /// The standard deviation without its unit, when the line has a ninth
    /// field.
    pub stdev: Option<String>,
}

/// The fields of a hop line.
pub struct TraceHopModel {
    pub count: i32,
    pub host: Seq<char>,
    pub loss: Seq<char>,
    pub sent: i32,
    pub last: Seq<char>,
    pub avg: Seq<char>,
    pub best: Seq<char>,
    pub worst: Seq<char>,
    pub stdev: Option<Seq<char>>,
}

impl View for TraceHop {
    type V = TraceHopModel;

    open spec fn view(&self) -> TraceHopModel {
        TraceHopModel {
            count: self.count,
            host: self.host@,
            loss: self.loss@,
            sent: self.sent,
            last: self.last@,
            avg: self.avg@,
            best: self.best@,
            worst: self.worst@,
            stdev: match self.stdev {
                Some(s) => Some(s@),
                None => None,
            },
        }
    }
}

/// A whole trace: its hops, and whether reading stopped at a line that is
/// not well-formed UTF-8.
#[derive(Debug)]
pub struct TraceReport {
    pub hops: Vec<TraceHop>,
    pub read_error: bool,
}

/// The hops of a trace and whether it stopped on a read error.
pub struct TraceModel {
    pub hops: Seq<TraceHopModel>,
    pub read_error: bool,
}

/// The fields of the hops, in order.
pub open spec fn hop_views(v: Seq<TraceHop>) -> Seq<TraceHopModel> {
    v.map_values(|h: TraceHop| h@)
}

/// A number field as an `i32`, zero when it does not parse.
pub open spec fn int_or_zero(w: Seq<char>) -> i32 {
    match parse_i32(w) {
        Some(v) => v as i32,
        None => 0,
    }
}

/// The hop that a line describes, if any: a line that is no header and has
/// at least eight words.
pub open spec fn hop_of_line(c: Seq<char>) -> Option<TraceHopModel> {
    let ws = words(c);
    if starts_with(c, "Columns:"@) || starts_with(c, "#"@) || ws.len() < 8 {
        None
    } else {
        Some(
            TraceHopModel {
                count: int_or_zero(ws[0]),
                host: ws[1],
                loss: trim_end_matches(ws[2], "%"@),
                sent: int_or_zero(ws[3]),
                last: trim_end_matches(ws[4], "ms"@),
                avg: trim_end_matches(ws[5], "ms"@),
                best: trim_end_matches(ws[6], "ms"@),
                worst: trim_end_matches(ws[7], "ms"@),
                stdev: if ws.len() > 8 {
                    Some(trim_end_matches(ws[8], "ms"@))
                } else {
                    None
                },
            },
        )
    }
}

/// Reads the rest `b` of a trace, where `cur` holds the bytes of the line
/// read so far and `acc` the hops found before it.
pub open spec fn trace_acc(b: Seq<u8>, cur: Seq<u8>, acc: Seq<TraceHopModel>) -> TraceModel
    decreases b.len(),
{
    if b.len() == 0 {
        if cur.len() == 0 {
            TraceModel { hops: acc, read_error: false }
        } else if !valid_utf8(cur) {
            TraceModel { hops: acc, read_error: true }
        } else {
            match hop_of_line(decode_utf8(cur)) {
                Some(h) => TraceModel { hops: acc.push(h), read_error: false },
                None => TraceModel { hops: acc, read_error: false },
            }
        }
    } else if b[0] == 10 {
        let line = cur.push(10);
        if !valid_utf8(line) {
            TraceModel { hops: acc, read_error: true }
        } else {
            match hop_of_line(decode_utf8(line)) {
                Some(h) => trace_acc(b.drop_first(), seq![], acc.push(h)),
                None => trace_acc(b.drop_first(), seq![], acc),
            }
        }
    } else {
        trace_acc(b.drop_first(), cur.push(b[0]), acc)
    }
}

/// The hops of a trace: its lines (each up to and including a line feed,
/// the last one possibly without) are read in order, and the first line
/// that is not well-formed UTF-8 ends the reading.
pub open spec fn trace_of(b: Seq<u8>) -> TraceModel {
    trace_acc(b, seq![], seq![])
}

fn text_of(c: &Vec<char>) -> (s: String)
    ensures
        s@ == c@,
{
    string_from_chars(c.as_slice())
}

fn int_or_zero_exec(w: &Vec<char>) -> (r: i32)
    ensures
        r == int_or_zero(w@),
{
    match parse_i32_exec(w.as_slice()) {
        Some(v) => v,
        None => 0,
    }
}

fn trimmed(w: &Vec<char>, unit: &str) -> (s: String)
    ensures
        s@ == trim_end_matches(w@, unit@),
{
    let t = trim_end_matches_str(w.as_slice(), unit);
    text_of(&t)
}

/// The hop that a line describes, if any.
fn hop_of_line_exec(c: &Vec<char>) -> (r: Option<TraceHop>)
    ensures
        match r {
            Some(h) => hop_of_line(c@) == Some(h@),
            None => hop_of_line(c@) is None,
        },
{
    let columns = chars_of("Columns:");
    let hash = chars_of("#");
    if starts_with_exec(c.as_slice(), columns.as_slice()) || starts_with_exec(
        c.as_slice(),
        hash.as_slice(),
    ) {
        return None;
    }
    let ws = split_whitespace(c.as_slice());
    if ws.len() < 8 {
        return None;
    }
    proof {
        assert(views(ws@)[0] == ws@[0]@);
        assert(views(ws@)[1] == ws@[1]@);
        assert(views(ws@)[2] == ws@[2]@);
        assert(views(ws@)[3] == ws@[3]@);
        assert(views(ws@)[4] == ws@[4]@);
        assert(views(ws@)[5] == ws@[5]@);
        assert(views(ws@)[6] == ws@[6]@);
        assert(views(ws@)[7] == ws@[7]@);
    }
    let stdev = if ws.len() > 8 {
        proof {
            assert(views(ws@)[8] == ws@[8]@);
        }
        Some(trimmed(&ws[8], "ms"))
    } else {
        None
    };
    Some(
        TraceHop {
            count: int_or_zero_exec(&ws[0]),
            host: text_of(&ws[1]),
            loss: trimmed(&ws[2], "%"),
            sent: int_or_zero_exec(&ws[3]),
            last: trimmed(&ws[4], "ms"),
            avg: trimmed(&ws[5], "ms"),
            best: trimmed(&ws[6], "ms"),
            worst: trimmed(&ws[7], "ms"),
            stdev,
        },
    )
}

/// What reading the raw line `raw` gives: `Err(())` when it is not
/// well-formed UTF-8, else its hop if any.
fn raw_hop(raw: &[u8]) -> (r: Result<Option<TraceHop>, ()>)
    ensures
        r is Err <==> !valid_utf8(raw@),
        r matches Ok(Some(h)) ==> hop_of_line(decode_utf8(raw@)) == Some(h@),
        r matches Ok(None) ==> hop_of_line(decode_utf8(raw@)) is None,
{
    match str_from_utf8(raw) {
        Some(s) => {
            let c = chars_of(s);
            Ok(hop_of_line_exec(&c))
        },
        None => Err(()),
    }
}

/// Reads the hops of a chunk of traceroute output.
pub fn trace_hops(buffer: &[u8]) -> (r: TraceReport)
    ensures
        hop_views(r.hops@) == trace_of(buffer@).hops,
        r.read_error == trace_of(buffer@).read_error,
{
    let mut hops: Vec<TraceHop> = Vec::new();
    let mut cur: Vec<u8> = Vec::new();
    let mut i: usize = 0;
    let n = buffer.len();
    assert(buffer@.skip(0) =~= buffer@);
    assert(hop_views(hops@) =~= Seq::<TraceHopModel>::empty());
    while i < n
        invariant
            n == buffer@.len(),
            i <= n,
            trace_acc(buffer@.skip(i as int), cur@, hop_views(hops@)) == trace_of(buffer@),
        decreases n - i,
    {
        let ghost rest = buffer@.skip(i as int);
        assert(rest.drop_first() =~= buffer@.skip(i + 1));
        assert(rest[0] == buffer@[i as int]);
        let b = buffer[i];
        cur.push(b);
        if b == 10 {
            match raw_hop(cur.as_slice()) {
                Err(()) => {
                    return TraceReport { hops, read_error: true };
                },
                Ok(Some(h)) => {
                    let ghost before = hops@;
                    hops.push(h);
                    assert(hop_views(hops@) =~= hop_views(before).push(h@));
                },
                Ok(None) => {},
            }
            cur = Vec::new();
            assert(cur@ =~= Seq::<u8>::empty());
        }
        i = i + 1;
    }
    assert(buffer@.skip(i as int) =~= Seq::<u8>::empty());
    if cur.len() == 0 {
        return TraceReport { hops, read_error: false };
    }
    match raw_hop(cur.as_slice()) {
        Err(()) => TraceReport { hops, read_error: true },
        Ok(Some(h)) => {
            let ghost before = hops@;
            hops.push(h);
            assert(hop_views(hops@) =~= hop_views(before).push(h@));
            TraceReport { hops, read_error: false }
        },
        Ok(None) => TraceReport { hops, read_error: false },
    }
}

/// Header lines give no hop: a line that starts with `Columns:` or `#`
/// yields none, whatever the number of its words; any other line with at
/// least eight words yields the hop whose host is its second word, and a
/// line with fewer words yields none.
pub proof fn lemma_headers_give_no_hop(c: Seq<char>)
    ensures
        starts_with(c, "Columns:"@) ==> hop_of_line(c) is None,
        starts_with(c, "#"@) ==> hop_of_line(c) is None,
        words(c).len() < 8 ==> hop_of_line(c) is None,
        !starts_with(c, "Columns:"@) && !starts_with(c, "#"@) && words(c).len() >= 8 ==> (
        hop_of_line(c) matches Some(h) && h.host == words(c)[1] && h.loss == trim_end_matches(
            words(c)[2],
            "%"@,
        ) && h.last == trim_end_matches(words(c)[4], "ms"@) && h.worst == trim_end_matches(
            words(c)[7],
            "ms"@,
        )),
{
}

} // verus!
