//! The latency report: the results of each test are filled into a report
//! template, whose lines are numbered (`#NN` for fixed lines, `$NN` for the
//! line of a test); the filled lines are sorted by their number and cleaned.
use vstd::prelude::*;
use linked_hash_map::LinkedHashMap;
use crate::text::{
    chars_of, contains, contains_str, copy_chars, has_sub, parse_unsigned, parse_unsigned_exec,
    push_all, remove_chars, remove_chars_exec, replace, replace_all, replace_str, split_whitespace,
    string_from_chars, views, words,
};
use crate::launcher::{strs, push_str};
use crate::ip::is_permutation;

verus! {

// ---------------------------------------------------------------------------
// The results of the tests
// ---------------------------------------------------------------------------

#[verifier::external_type_specification]
#[verifier::external_body]
#[verifier::reject_recursive_types(K)]
#[verifier::reject_recursive_types(V)]
#[verifier::reject_recursive_types(S)]
pub struct ExLinkedHashMap<K, V, S>(LinkedHashMap<K, V, S>);

/// The results of the tests, by test title: the average latency line and the
/// packet loss line of each, in the order in which they were recorded.
pub type ReportMap = LinkedHashMap<String, (String, String)>;

/// What a results map holds: its entries in insertion order (titles, then
/// the two result lines); no title occurs twice.
pub uninterp spec fn report_entries(m: LinkedHashMap<String, (String, String)>) -> Seq<(Seq<char>, (Seq<char>, Seq<char>))>;

/// The results of the test titled `k`, if any.
pub open spec fn lookup(es: Seq<(Seq<char>, (Seq<char>, Seq<char>))>, k: Seq<char>) -> Option<(Seq<char>, Seq<char>)>
    decreases es.len(),
{
    if es.len() == 0 {
        None
    } else if es[0].0 == k {
        Some(es[0].1)
    } else {
        lookup(es.drop_first(), k)
    }
}

/// `LinkedHashMap::new`: an empty map.
#[verifier::external_body]
pub(crate) fn new_report_map() -> (m: ReportMap)
    ensures
        report_entries(m) == Seq::<(Seq<char>, (Seq<char>, Seq<char>))>::empty(),
{
    LinkedHashMap::new()
}

/// `LinkedHashMap::contains_key`: whether a title has results.
#[verifier::external_body]
fn report_map_contains(m: &ReportMap, k: &String) -> (b: bool)
    ensures
        b == (lookup(report_entries(*m), k@) is Some),
{
    m.contains_key(k)
}

/// `LinkedHashMap::insert` of a new title: the entry goes to the end.
#[verifier::external_body]
fn report_map_insert(m: &mut ReportMap, k: String, v: (String, String))
    requires
        lookup(report_entries(*old(m)), k@) is None,
    ensures
        report_entries(*final(m)) == report_entries(*old(m)).push((k@, (v.0@, v.1@))),
{
    m.insert(k, v);
}

/// `LinkedHashMap::get`: the results of a title.
#[verifier::external_body]
fn report_map_get<'a>(m: &'a ReportMap, k: &String) -> (r: Option<&'a (String, String)>)
    ensures
        match r {
            Some(v) => lookup(report_entries(*m), k@) == Some((v.0@, v.1@)),
            None => lookup(report_entries(*m), k@) is None,
        },
{
    m.get(k)
}

/// Records the two result lines of a test, unless its title already has
/// results (the first results of a title are kept).
pub fn record_test_result(m: &mut ReportMap, title: String, latency_line: String, loss_line: String)
    ensures
        lookup(report_entries(*old(m)), title@) is Some ==> report_entries(*final(m)) == report_entries(*old(m)),
        lookup(report_entries(*old(m)), title@) is None ==> report_entries(*final(m)) == report_entries(*old(m)).push((title@, (latency_line@, loss_line@))),
{
    if !report_map_contains(m, &title) {
        report_map_insert(m, title, (latency_line, loss_line));
    }
}

/// After a test's results are recorded, its title reads back the first
/// results recorded for it, and every other title reads back what it read
/// before.
pub proof fn lemma_recorded_results_read_back(
    es: Seq<(Seq<char>, (Seq<char>, Seq<char>))>,
    title: Seq<char>,
    latency_line: Seq<char>,
    loss_line: Seq<char>,
    other: Seq<char>,
)
    ensures
        lookup(es, title) is None ==> lookup(es.push((title, (latency_line, loss_line))), title)
            == Some((latency_line, loss_line)),
        other != title ==> lookup(es.push((title, (latency_line, loss_line))), other) == lookup(
            es,
            other,
        ),
    decreases es.len(),
{
    let e = (title, (latency_line, loss_line));
    if es.len() > 0 {
        assert(es.push(e)[0] == es[0]);
        assert(es.push(e).drop_first() =~= es.drop_first().push(e));
        lemma_recorded_results_read_back(es.drop_first(), title, latency_line, loss_line, other);
    } else {
        let empty = Seq::<(Seq<char>, (Seq<char>, Seq<char>))>::empty();
        assert(es.push(e).drop_first() =~= empty);
        assert(lookup(empty, other) is None);
    }
}

/// The lines read from the result files of the tests, in order: for each,
/// its first and second line when the file has them.
pub type ResultLines = Vec<(Option<String>, Option<String>)>;

/// A line that may be missing, as text.
pub open spec fn line_view(l: Option<String>) -> Option<Seq<char>> {
    match l {
        Some(s) => Some(s@),
        None => None,
    }
}

/// The latency line in force after reading the first `k` result files: the
/// last first line read so far (a file without one keeps the previous).
pub open spec fn carried_latency(read: Seq<(Option<String>, Option<String>)>, k: int) -> Seq<char>
    decreases k,
{
    if k <= 0 {
        seq![]
    } else {
        match line_view(read[k - 1].0) {
            Some(l) => l,
            None => carried_latency(read, k - 1),
        }
    }
}

/// The packet loss line in force after reading the first `k` result files.
pub open spec fn carried_loss(read: Seq<(Option<String>, Option<String>)>, k: int) -> Seq<char>
    decreases k,
{
    if k <= 0 {
        seq![]
    } else {
        match line_view(read[k - 1].1) {
            Some(l) => l,
            None => carried_loss(read, k - 1),
        }
    }
}

/// The results recorded for the first `k` tests: each title, unless it
/// already has results, gets the lines in force after its file was read.
pub open spec fn collected(
    names: Seq<Seq<char>>,
    read: Seq<(Option<String>, Option<String>)>,
    k: int,
) -> Seq<(Seq<char>, (Seq<char>, Seq<char>))>
    decreases k,
{
    if k <= 0 {
        seq![]
    } else {
        let es = collected(names, read, k - 1);
        if lookup(es, names[k - 1]) is Some {
            es
        } else {
            es.push((names[k - 1], (carried_latency(read, k), carried_loss(read, k))))
        }
    }
}

/// Records the results of the tests `names` from the lines read from their
/// result files (`read[i]` for `names[i]`): a file without a first or second
/// line leaves the line read before in force, and a title is recorded once.
pub fn collect_results(names: &Vec<String>, read: &ResultLines) -> (m: ReportMap)
    requires
        read@.len() == names@.len(),
    ensures
        report_entries(m) == collected(strs(names@), read@, names@.len() as int),
        titles_recorded(strs(names@), report_entries(m)),
{
    let mut m = new_report_map();
    let mut latency = String::new();
    let mut loss = String::new();
    proof {
        reveal_strlit("");
    }
    let n = names.len();
    let mut i: usize = 0;
    while i < n
        invariant
            n == names@.len(),
            read@.len() == n,
            0 <= i <= n,
            latency@ == carried_latency(read@, i as int),
            loss@ == carried_loss(read@, i as int),
            report_entries(m) == collected(strs(names@), read@, i as int),
            forall|j: int| 0 <= j < i ==> lookup(report_entries(m), #[trigger] strs(names@)[j]) is Some,
        decreases n - i,
    {
        let ghost es = report_entries(m);
        let ghost title = strs(names@)[i as int];
        match &read[i].0 {
            Some(l) => {
                latency = l.clone();
            },
            None => {},
        }
        match &read[i].1 {
            Some(l) => {
                loss = l.clone();
            },
            None => {},
        }
        assert(latency@ == carried_latency(read@, i + 1));
        assert(loss@ == carried_loss(read@, i + 1));
        record_test_result(&mut m, names[i].clone(), latency.clone(), loss.clone());
        proof {
            assert(title == names@[i as int]@);
            assert forall|j: int| 0 <= j <= i implies lookup(
                report_entries(m),
                #[trigger] strs(names@)[j],
            ) is Some by {
                let other = strs(names@)[j];
                if lookup(es, title) is None {
                    lemma_recorded_results_read_back(es, title, latency@, loss@, other);
                }
            }
        }
        i = i + 1;
    }
    proof {
        assert forall|k: int| 0 <= k < strs(names@).len() implies lookup(
            report_entries(m),
            #[trigger] strs(names@)[k],
        ) is Some by {}
    }
    m
}

// ---------------------------------------------------------------------------
// JSON text of a pair of result lines
// ---------------------------------------------------------------------------

/// A lowercase hexadecimal digit.
pub open spec fn hex_digit(n: nat) -> char {
    if n < 10 {
        (48 + n) as char
    } else {
        (87 + n) as char
    }
}

/// How a character is written inside a JSON string: quote and backslash
/// are escaped, control characters take their short escape or `\u00XX`.
pub open spec fn json_escape_char(c: char) -> Seq<char> {
    let u = c as u32;
    if c == '"' {
        seq!['\\', '"']
    } else if c == '\\' {
        seq!['\\', '\\']
    } else if u == 8 {
        seq!['\\', 'b']
    } else if u == 9 {
        seq!['\\', 't']
    } else if u == 10 {
        seq!['\\', 'n']
    } else if u == 12 {
        seq!['\\', 'f']
    } else if u == 13 {
        seq!['\\', 'r']
    } else if u < 0x20 {
        seq!['\\', 'u', '0', '0', hex_digit((u / 16) as nat), hex_digit((u % 16) as nat)]
    } else {
        seq![c]
    }
}

/// The escaped characters of a JSON string.
pub open spec fn json_string_body(s: Seq<char>) -> Seq<char>
    decreases s.len(),
{
    if s.len() == 0 {
        seq![]
    } else {
        json_string_body(s.drop_last()) + json_escape_char(s.last())
    }
}

/// The compact JSON text of an array of two strings.
pub open spec fn json_pair(a: Seq<char>, b: Seq<char>) -> Seq<char> {
    "[\""@ + json_string_body(a) + "\",\""@ + json_string_body(b) + "\"]"@
}

/// `serde_json::Value::to_string` of the array `[a, b]`: the compact JSON
/// text with serde_json's string escaping.
#[verifier::external_body]
fn json_pair_text(a: &String, b: &String) -> (r: Vec<char>)
    ensures
        r@ == json_pair(a@, b@),
{
    serde_json::Value::Array(vec![serde_json::Value::String(a.clone()), serde_json::Value::String(b.clone())]).to_string().chars().collect()
}

// ---------------------------------------------------------------------------
// Filling the template
// ---------------------------------------------------------------------------

/// The text put in place of a test title: its results as JSON.
pub open spec fn value_text(es: Seq<(Seq<char>, (Seq<char>, Seq<char>))>, title: Seq<char>) -> Seq<char> {
    match lookup(es, title) {
        Some(v) => json_pair(v.0, v.1),
        None => seq![],
    }
}

/// A test line: the title replaced by its results, `$` removed.
pub open spec fn fill_test_line(line: Seq<char>, title: Seq<char>, value: Seq<char>) -> Seq<char> {
    replace_all(replace_all(line, title, value), "$"@, ""@)
}

/// The heading line: date and time filled in, `#` removed.
pub open spec fn fill_heading(line: Seq<char>, date: Seq<char>, time: Seq<char>) -> Seq<char> {
    replace_all(replace_all(replace_all(line, "_date_"@, date), "_hour_am_pm_"@, time), "#"@, ""@)
}

/// A fixed line: `#` removed.
pub open spec fn fill_fixed(line: Seq<char>) -> Seq<char> {
    replace_all(line, "#"@, ""@)
}

/// The state of the filling: the lines still to fill and the filled ones,
/// or the stop on a line that reports an invalid command.
pub enum FillState {
    Running { todo: Seq<Seq<char>>, done: Seq<Seq<char>> },
    Exited,
}

/// One scan of the unfilled lines for the title `title`, from index `i`: a
/// line that holds the title, the date and time markers, or `#` is filled
/// and taken out, and the scan moves past the line that took its place; a
/// line with `Invalid ar...` and none of these stops everything.
pub open spec fn scan_lines(
    todo: Seq<Seq<char>>,
    done: Seq<Seq<char>>,
    i: int,
    title: Seq<char>,
    value: Seq<char>,
    date: Seq<char>,
    time: Seq<char>,
) -> FillState
    decreases todo.len() + 1 - i,
{
    if i < 0 || i >= todo.len() {
        FillState::Running { todo, done }
    } else {
        let line = todo[i];
        if has_sub(line, title) {
            scan_lines(todo.remove(i), done.push(fill_test_line(line, title, value)), i + 1, title, value, date, time)
        } else if has_sub(line, "_date_"@) && has_sub(line, "_hour_am_pm_"@) {
            scan_lines(todo.remove(i), done.push(fill_heading(line, date, time)), i + 1, title, value, date, time)
        } else if has_sub(line, "#"@) {
            scan_lines(todo.remove(i), done.push(fill_fixed(line)), i + 1, title, value, date, time)
        } else if has_sub(line, "Invalid ar..."@) {
            FillState::Exited
        } else {
            scan_lines(todo, done, i + 1, title, value, date, time)
        }
    }
}

/// One pass: a scan for each title in turn, from title `k`, ending early
/// once every line is filled.
pub open spec fn scan_titles(
    todo: Seq<Seq<char>>,
    done: Seq<Seq<char>>,
    titles: Seq<Seq<char>>,
    k: int,
    es: Seq<(Seq<char>, (Seq<char>, Seq<char>))>,
    total: nat,
    date: Seq<char>,
    time: Seq<char>,
) -> FillState
    decreases titles.len() - k,
{
    if k < 0 || k >= titles.len() || done.len() == total {
        FillState::Running { todo, done }
    } else {
        match scan_lines(todo, done, 0, titles[k], value_text(es, titles[k]), date, time) {
            FillState::Exited => FillState::Exited,
            FillState::Running { todo: t2, done: d2 } => scan_titles(t2, d2, titles, k + 1, es, total, date, time),
        }
    }
}

/// How filling the template ends.
pub enum FillModel {
    /// Every line is filled (in the order in which they were filled).
    Done(Seq<Seq<char>>),
    /// A line reports an invalid command: the tool exits.
    Exited,
    /// A pass fills no line, so the passes would go on forever.
    Stuck,
}

/// Passes over the template until every line is filled.
pub open spec fn fill_passes(
    todo: Seq<Seq<char>>,
    done: Seq<Seq<char>>,
    titles: Seq<Seq<char>>,
    es: Seq<(Seq<char>, (Seq<char>, Seq<char>))>,
    total: nat,
    date: Seq<char>,
    time: Seq<char>,
) -> FillModel
    decreases todo.len(),
{
    if done.len() == total {
        FillModel::Done(done)
    } else {
        match scan_titles(todo, done, titles, 0, es, total, date, time) {
            FillState::Exited => FillModel::Exited,
            FillState::Running { todo: t2, done: d2 } => if t2.len() < todo.len() {
                fill_passes(t2, d2, titles, es, total, date, time)
            } else {
                FillModel::Stuck
            },
        }
    }
}

/// Filling the template lines `template` with the results `es` of the
/// tests `titles`, the date and the time.
pub open spec fn fill_template(
    template: Seq<Seq<char>>,
    titles: Seq<Seq<char>>,
    es: Seq<(Seq<char>, (Seq<char>, Seq<char>))>,
    date: Seq<char>,
    time: Seq<char>,
) -> FillModel {
    fill_passes(template, seq![], titles, es, template.len(), date, time)
}

proof fn lemma_fill_passes_length(
    todo: Seq<Seq<char>>,
    done: Seq<Seq<char>>,
    titles: Seq<Seq<char>>,
    es: Seq<(Seq<char>, (Seq<char>, Seq<char>))>,
    total: nat,
    date: Seq<char>,
    time: Seq<char>,
)
    ensures
        fill_passes(todo, done, titles, es, total, date, time) matches FillModel::Done(d) ==> d.len() == total,
    decreases todo.len(),
{
    if done.len() != total {
        match scan_titles(todo, done, titles, 0, es, total, date, time) {
            FillState::Exited => {},
            FillState::Running { todo: t2, done: d2 } => {
                if t2.len() < todo.len() {
                    lemma_fill_passes_length(t2, d2, titles, es, total, date, time);
                }
            },
        }
    }
}

/// A filled template has exactly as many lines as the template.
pub proof fn lemma_filled_template_keeps_line_count(
    template: Seq<Seq<char>>,
    titles: Seq<Seq<char>>,
    es: Seq<(Seq<char>, (Seq<char>, Seq<char>))>,
    date: Seq<char>,
    time: Seq<char>,
)
    ensures
        fill_template(template, titles, es, date, time) matches FillModel::Done(d) ==> d.len() == template.len(),
{
    lemma_fill_passes_length(template, seq![], titles, es, template.len(), date, time);
}

/// Every title whose line gets filled has results.
pub open spec fn titles_recorded(titles: Seq<Seq<char>>, es: Seq<(Seq<char>, (Seq<char>, Seq<char>))>) -> bool {
    forall|k: int| 0 <= k < titles.len() ==> lookup(es, #[trigger] titles[k]) is Some
}

/// How filling the template ended.
#[derive(Debug)]
pub enum FillOutcome {
    Done(Vec<Vec<char>>),
    Exited,
    Stuck,
}

impl View for FillOutcome {
    type V = FillModel;

    open spec fn view(&self) -> FillModel {
        match self {
            FillOutcome::Done(v) => FillModel::Done(views(v@)),
            FillOutcome::Exited => FillModel::Exited,
            FillOutcome::Stuck => FillModel::Stuck,
        }
    }
}

fn scan_lines_exec(
    todo: &mut Vec<Vec<char>>,
    done: &mut Vec<Vec<char>>,
    title: &Vec<char>,
    map: &ReportMap,
    title_string: &String,
    date: &Vec<char>,
    time: &Vec<char>,
) -> (exited: bool)
    requires
        title_string@ == title@,
        lookup(report_entries(*map), title@) is Some,
    ensures
        ({
            let r = scan_lines(views(old(todo)@), views(old(done)@), 0, title@, value_text(report_entries(*map), title@), date@, time@);
            if exited {
                r is Exited
            } else {
                r == FillState::Running { todo: views(final(todo)@), done: views(final(done)@) }
            }
        }),
{
    proof {
        reveal_strlit("");
        assert(""@ =~= Seq::<char>::empty());
    }
    let ghost value = value_text(report_entries(*map), title@);
    let ghost target = scan_lines(views(todo@), views(done@), 0, title@, value, date@, time@);
    let hash = chars_of("#");
    let dollar = chars_of("$");
    let empty: Vec<char> = Vec::new();
    let mut i: usize = 0;
    while i < todo.len()
        invariant
            title_string@ == title@,
            lookup(report_entries(*map), title@) is Some,
            value == value_text(report_entries(*map), title@),
            hash@ == "#"@,
            dollar@ == "$"@,
            empty@ == ""@,
            target == scan_lines(views(old(todo)@), views(old(done)@), 0, title@, value, date@, time@),
            target == scan_lines(views(todo@), views(done@), i as int, title@, value, date@, time@),
        decreases todo@.len() + 1 - i,
    {
        let ghost t0 = views(todo@);
        let ghost d0 = views(done@);
        assert(t0[i as int] == todo@[i as int]@);
        if contains(todo[i].as_slice(), title.as_slice()) {
            let pair = report_map_get(map, title_string).unwrap();
            let v = json_pair_text(&pair.0, &pair.1);
            assert(value == v@);
            let a = replace(todo[i].as_slice(), title.as_slice(), v.as_slice());
            let b = replace(a.as_slice(), dollar.as_slice(), empty.as_slice());
            assert(b@ == fill_test_line(t0[i as int], title@, value));
            done.push(b);
            todo.remove(i);
            assert(views(todo@) =~= t0.remove(i as int));
            assert(views(done@) =~= d0.push(fill_test_line(t0[i as int], title@, value)));
        } else if contains_str(todo[i].as_slice(), "_date_") && contains_str(todo[i].as_slice(), "_hour_am_pm_") {
            let a = replace(todo[i].as_slice(), chars_of("_date_").as_slice(), date.as_slice());
            let b = replace(a.as_slice(), chars_of("_hour_am_pm_").as_slice(), time.as_slice());
            let c = replace(b.as_slice(), hash.as_slice(), empty.as_slice());
            assert(c@ == fill_heading(t0[i as int], date@, time@));
            done.push(c);
            todo.remove(i);
            assert(views(todo@) =~= t0.remove(i as int));
            assert(views(done@) =~= d0.push(fill_heading(t0[i as int], date@, time@)));
        } else if contains(todo[i].as_slice(), hash.as_slice()) {
            let c = replace(todo[i].as_slice(), hash.as_slice(), empty.as_slice());
            done.push(c);
            todo.remove(i);
            assert(views(todo@) =~= t0.remove(i as int));
            assert(views(done@) =~= d0.push(fill_fixed(t0[i as int])));
        } else if contains_str(todo[i].as_slice(), "Invalid ar...") {
            return true;
        }
        i = i + 1;
    }
    false
}

fn scan_titles_exec(
    todo: &mut Vec<Vec<char>>,
    done: &mut Vec<Vec<char>>,
    titles: &Vec<String>,
    map: &ReportMap,
    total: usize,
    date: &Vec<char>,
    time: &Vec<char>,
) -> (exited: bool)
    requires
        titles_recorded(strs(titles@), report_entries(*map)),
    ensures
        ({
            let r = scan_titles(views(old(todo)@), views(old(done)@), strs(titles@), 0, report_entries(*map), total as nat, date@, time@);
            if exited {
                r is Exited
            } else {
                r == FillState::Running { todo: views(final(todo)@), done: views(final(done)@) }
            }
        }),
{
    let ghost es = report_entries(*map);
    let ghost target = scan_titles(views(todo@), views(done@), strs(titles@), 0, es, total as nat, date@, time@);
    let mut k: usize = 0;
    while k < titles.len() && done.len() != total
        invariant
            k <= titles@.len(),
            es == report_entries(*map),
            titles_recorded(strs(titles@), es),
            target == scan_titles(views(old(todo)@), views(old(done)@), strs(titles@), 0, es, total as nat, date@, time@),
            target == scan_titles(views(todo@), views(done@), strs(titles@), k as int, es, total as nat, date@, time@),
        decreases titles@.len() - k,
    {
        let title = chars_of(titles[k].as_str());
        assert(strs(titles@)[k as int] == title@);
        assert(lookup(es, strs(titles@)[k as int]) is Some);
        let ghost t0 = views(todo@);
        let ghost d0 = views(done@);
        assert(target == match scan_lines(t0, d0, 0, title@, value_text(es, title@), date@, time@) {
            FillState::Exited => FillState::Exited,
            FillState::Running { todo: t2, done: d2 } => scan_titles(t2, d2, strs(titles@), k + 1, es, total as nat, date@, time@),
        });
        if scan_lines_exec(todo, done, &title, map, &titles[k], date, time) {
            return true;
        }
        k = k + 1;
    }
    false
}

/// Fills the template lines with the results in `map` of the tests
/// `titles`, the date and the time: passes are made until every line is
/// filled; in each pass the unfilled lines are scanned once for each title.
pub fn replace_text(original_text: &Vec<String>, map: &ReportMap, current_date: &str, current_time: &str, name_of_test: &Vec<String>) -> (r: FillOutcome)
    requires
        titles_recorded(strs(name_of_test@), report_entries(*map)),
    ensures
        r@ == fill_template(strs(original_text@), strs(name_of_test@), report_entries(*map), current_date@, current_time@),
{
    let ghost es = report_entries(*map);
    let ghost titles = strs(name_of_test@);
    let mut todo: Vec<Vec<char>> = Vec::new();
    let mut i: usize = 0;
    while i < original_text.len()
        invariant
            i <= original_text@.len(),
            views(todo@) == strs(original_text@).take(i as int),
        decreases original_text@.len() - i,
    {
        let c = chars_of(original_text[i].as_str());
        let ghost before = views(todo@);
        todo.push(c);
        assert(views(todo@) =~= before.push(c@));
        assert(strs(original_text@).take(i + 1) =~= strs(original_text@).take(i as int).push(c@));
        i = i + 1;
    }
    assert(strs(original_text@).take(original_text@.len() as int) =~= strs(original_text@));
    let total = original_text.len();
    let date = chars_of(current_date);
    let time = chars_of(current_time);
    let mut done: Vec<Vec<char>> = Vec::new();
    assert(views(done@) =~= Seq::<Seq<char>>::empty());
    let ghost target = fill_template(strs(original_text@), titles, es, current_date@, current_time@);
    loop
        invariant
            es == report_entries(*map),
            titles == strs(name_of_test@),
            titles_recorded(titles, es),
            total == original_text@.len(),
            date@ == current_date@,
            time@ == current_time@,
            target == fill_template(strs(original_text@), titles, es, current_date@, current_time@),
            target == fill_passes(views(todo@), views(done@), titles, es, total as nat, date@, time@),
        decreases todo@.len(),
    {
        if done.len() == total {
            let r = FillOutcome::Done(done);
            assert(r@ == target);
            return r;
        }
        let before = todo.len();
        let ghost t0 = views(todo@);
        let ghost d0 = views(done@);
        assert(target == match scan_titles(t0, d0, titles, 0, es, total as nat, date@, time@) {
            FillState::Exited => FillModel::Exited,
            FillState::Running { todo: t2, done: d2 } => if t2.len() < t0.len() {
                fill_passes(t2, d2, titles, es, total as nat, date@, time@)
            } else {
                FillModel::Stuck
            },
        });
        if scan_titles_exec(&mut todo, &mut done, name_of_test, map, total, &date, &time) {
            return FillOutcome::Exited;
        }
        if todo.len() >= before {
            return FillOutcome::Stuck;
        }
    }
}

// ---------------------------------------------------------------------------
// Ordering and cleaning the filled lines
// ---------------------------------------------------------------------------

/// The number a filled line starts with: its first word as `usize`, or
/// `usize::MAX` when there is none.
pub open spec fn leading_number(line: Seq<char>) -> nat {
    let ws = words(line);
    if ws.len() > 0 {
        match parse_unsigned(ws[0], usize::MAX as nat) {
            Some(v) => v,
            None => usize::MAX as nat,
        }
    } else {
        usize::MAX as nat
    }
}

fn leading_number_exec(line: &Vec<char>) -> (r: usize)
    ensures
        r as nat == leading_number(line@),
{
    let ws = split_whitespace(line.as_slice());
    if ws.len() > 0 {
        match parse_unsigned_exec(ws[0].as_slice(), usize::MAX as u64) {
            Some(v) => v as usize,
            None => usize::MAX,
        }
    } else {
        usize::MAX
    }
}

/// `out` is `input` sorted by leading number, stably: `p[k]` is the
/// position in `input` of `out[k]`, and lines with equal numbers keep their
/// order.
pub open spec fn sorted_by_number(input: Seq<Seq<char>>, out: Seq<Seq<char>>, p: Seq<int>) -> bool {
    &&& is_permutation(p, input.len())
    &&& out.len() == input.len()
    &&& forall|k: int| 0 <= k < out.len() ==> #[trigger] out[k] == input[p[k]]
    &&& forall|k: int, l: int| 0 <= k < l < out.len() ==> leading_number(#[trigger] out[k]) <= leading_number(#[trigger] out[l])
    &&& forall|k: int, l: int|
        0 <= k < l < out.len() && leading_number(#[trigger] out[k]) == leading_number(#[trigger] out[l]) ==> p[k] < p[l]
}

/// Sorts lines by the number they start with (`sort_by_key`, a stable sort).
#[verifier::spinoff_prover]
#[verifier::rlimit(60)]
pub fn sort_by_leading_number(lines: Vec<String>) -> (r: Vec<String>)
    ensures
        exists|p: Seq<int>| sorted_by_number(strs(lines@), strs(r@), p),
{
    let ghost orig = lines@;
    let n = lines.len();
    let mut rest = lines;
    let mut out: Vec<String> = Vec::new();
    let mut keys: Vec<usize> = Vec::new();
    let ghost mut p: Seq<int> = Seq::empty();
    let mut i: usize = 0;
    assert(rest@ =~= orig.skip(0));
    while i < n
        invariant
            n == orig.len(),
            i <= n,
            rest@ == orig.skip(i as int),
            out@.len() == i,
            keys@.len() == i,
            p.len() == i,
            forall|k: int| 0 <= k < i ==> #[trigger] keys@[k] as nat == leading_number(out@[k]@),
            forall|k: int| 0 <= k < i ==> 0 <= #[trigger] p[k] < i,
            forall|k: int, l: int| 0 <= k < l < i ==> #[trigger] p[k] != #[trigger] p[l],
            forall|k: int| 0 <= k < i ==> #[trigger] out@[k] == orig[p[k]],
            forall|k: int, l: int| 0 <= k < l < i ==> #[trigger] keys@[k] <= #[trigger] keys@[l],
            forall|k: int, l: int| 0 <= k < l < i && #[trigger] keys@[k] == #[trigger] keys@[l] ==> p[k] < p[l],
        decreases n - i,
    {
        assert(rest@[0] == orig[i as int]);
        let x = rest.remove(0);
        assert(rest@ =~= orig.skip(i + 1));
        let kx = leading_number_exec(&chars_of(x.as_str()));
        let mut j: usize = out.len();
        while j > 0 && keys[j - 1] > kx
            invariant
                j <= keys@.len(),
                keys@.len() == i,
                forall|m: int| j <= m < i ==> #[trigger] keys@[m] > kx,
            decreases j,
        {
            j = j - 1;
        }
        let ghost old_out = out@;
        let ghost old_keys = keys@;
        let ghost old_p = p;
        out.insert(j, x);
        keys.insert(j, kx);
        proof {
            p = old_p.insert(j as int, i as int);
            assert forall|k: int| 0 <= k < i + 1 implies #[trigger] out@[k] == orig[p[k]] by {
                if k > j {
                    assert(out@[k] == old_out[k - 1]);
                }
            }
            assert forall|k: int| 0 <= k < i + 1 implies #[trigger] keys@[k] as nat == leading_number(out@[k]@) by {
                if k > j {
                    assert(out@[k] == old_out[k - 1]);
                }
            }
            assert forall|k: int, l: int| 0 <= k < l < i + 1 implies #[trigger] keys@[k] <= #[trigger] keys@[l] by {
                if j > 0 && k < j && l >= j {
                    assert(old_keys[k] <= old_keys[j - 1]);
                }
                if l > j {
                    assert(keys@[l] == old_keys[l - 1]);
                }
                if k > j {
                    assert(keys@[k] == old_keys[k - 1]);
                }
            }
            assert forall|k: int, l: int| 0 <= k < l < i + 1 && #[trigger] keys@[k] == #[trigger] keys@[l] implies p[k] < p[l] by {
                if k == j {
                    assert(keys@[l] == old_keys[l - 1]);
                } else if l == j {
                } else if l < j {
                } else if k < j {
                    assert(keys@[l] == old_keys[l - 1]);
                } else {
                    assert(keys@[k] == old_keys[k - 1] && keys@[l] == old_keys[l - 1]);
                }
            }
        }
        i = i + 1;
    }
    proof {
        let so = strs(out@);
        assert forall|k: int| 0 <= k < so.len() implies #[trigger] so[k] == strs(orig)[p[k]] by {
            assert(out@[k] == orig[p[k]]);
        }
        assert forall|k: int, l: int| 0 <= k < l < so.len() implies leading_number(#[trigger] so[k]) <= leading_number(#[trigger] so[l]) by {
            assert(keys@[k] <= keys@[l]);
        }
        assert forall|k: int, l: int| 0 <= k < l < so.len() && leading_number(#[trigger] so[k]) == leading_number(#[trigger] so[l]) implies p[k] < p[l] by {
            assert(keys@[k] == keys@[l]);
        }
        assert(sorted_by_number(strs(orig), so, p));
    }
    out
}

/// Removes from every string the characters in `chars`.
pub fn remove_chars_from_vec(vec: Vec<String>, chars: &[char]) -> (r: Vec<String>)
    ensures
        r@.len() == vec@.len(),
        forall|k: int| 0 <= k < r@.len() ==> (#[trigger] r@[k])@ == remove_chars(vec@[k]@, chars@),
{
    let mut r: Vec<String> = Vec::new();
    let mut i: usize = 0;
    while i < vec.len()
        invariant
            i <= vec@.len(),
            r@.len() == i,
            forall|k: int| 0 <= k < i ==> (#[trigger] r@[k])@ == remove_chars(vec@[k]@, chars@),
        decreases vec@.len() - i,
    {
        let c = chars_of(vec[i].as_str());
        let cleaned = remove_chars_exec(c.as_slice(), chars);
        r.push(string_from_chars(cleaned.as_slice()));
        i = i + 1;
    }
    r
}

/// The lines joined with line feeds between them (`join("\n")`).
pub open spec fn join_lines(ls: Seq<Seq<char>>) -> Seq<char>
    decreases ls.len(),
{
    if ls.len() == 0 {
        seq![]
    } else if ls.len() == 1 {
        ls[0]
    } else {
        join_lines(ls.drop_last()) + "\n"@ + ls.last()
    }
}

/// The characters removed from every report line.
pub open spec fn report_noise() -> Seq<char> {
    seq!['[', ']', '"', ',']
}

/// The report text from the filled lines, if every cleaned line has the
/// two characters of its number to drop.
pub open spec fn report_text(filled_sorted: Seq<Seq<char>>) -> Option<Seq<char>> {
    let cleaned = filled_sorted.map_values(|l: Seq<char>| remove_chars(l, report_noise()));
    if forall|k: int| 0 <= k < cleaned.len() ==> (#[trigger] cleaned[k]).len() >= 2 {
        Some(join_lines(cleaned.map_values(|l: Seq<char>| l.skip(2))))
    } else {
        None
    }
}

/// How the report text came out.
#[derive(Debug)]
pub enum ReportOutcome {
    /// The text of the report.
    Done(String),
    /// A template line reports an invalid command.
    Exited,
    /// The template has a line that is never filled.
    Stuck,
    /// A line has fewer than two characters once cleaned.
    ShortLine,
}

/// The report from the template lines, the results map, the date and time,
/// and the test titles: the template is filled, its lines sorted by number,
/// stripped of `[`, `]`, `"` and `,`, and of the two characters of their
/// number, and joined with line feeds.
pub fn make_the_report(template: &Vec<String>, map: &ReportMap, current_date: &str, current_time: &str, name_of_tests: &Vec<String>) -> (r: ReportOutcome)
    requires
        titles_recorded(strs(name_of_tests@), report_entries(*map)),
    ensures
        ({
            let filled = fill_template(strs(template@), strs(name_of_tests@), report_entries(*map), current_date@, current_time@);
            match r {
                ReportOutcome::Done(text) => filled is Done && exists|sorted: Seq<Seq<char>>, p: Seq<int>| #[trigger] sorted_by_number(filled->0, sorted, p) && report_text(sorted) == Some(text@),
                ReportOutcome::ShortLine => filled is Done && exists|sorted: Seq<Seq<char>>, p: Seq<int>| #[trigger] sorted_by_number(filled->0, sorted, p) && report_text(sorted) is None,
                ReportOutcome::Exited => filled is Exited,
                ReportOutcome::Stuck => filled is Stuck,
            }
        }),
{
    let filled = match replace_text(template, map, current_date, current_time, name_of_tests) {
        FillOutcome::Done(v) => v,
        FillOutcome::Exited => {
            return ReportOutcome::Exited;
        },
        FillOutcome::Stuck => {
            return ReportOutcome::Stuck;
        },
    };
    let ghost fm = fill_template(strs(template@), strs(name_of_tests@), report_entries(*map), current_date@, current_time@);
    assert(fm == FillModel::Done(views(filled@)));
    let mut lines: Vec<String> = Vec::new();
    let mut i: usize = 0;
    while i < filled.len()
        invariant
            i <= filled@.len(),
            fm == fill_template(strs(template@), strs(name_of_tests@), report_entries(*map), current_date@, current_time@),
            fm == FillModel::Done(views(filled@)),
            strs(lines@) == views(filled@).take(i as int),
        decreases filled@.len() - i,
    {
        let s = string_from_chars(filled[i].as_slice());
        assert(s@ == views(filled@)[i as int]);
        let ghost before = strs(lines@);
        lines.push(s);
        assert(strs(lines@) =~= before.push(s@));
        assert(strs(lines@) =~= views(filled@).take(i + 1));
        i = i + 1;
    }
    assert(views(filled@).take(filled@.len() as int) =~= views(filled@));
    let ghost lines_v = strs(lines@);
    assert(lines_v == views(filled@));
    let sorted = sort_by_leading_number(lines);
    let noise: Vec<char> = vec!['[', ']', '"', ','];
    assert(noise@ =~= report_noise());
    let ghost sorted_v = strs(sorted@);
    let ghost pp = choose|p: Seq<int>| sorted_by_number(lines_v, sorted_v, p);
    assert(sorted_by_number(views(filled@), sorted_v, pp));
    let cleaned = remove_chars_from_vec(sorted, noise.as_slice());
    let ghost cleaned_spec = sorted_v.map_values(|l: Seq<char>| remove_chars(l, report_noise()));
    let mut text: Vec<char> = Vec::new();
    let mut k: usize = 0;
    while k < cleaned.len()
        invariant
            k <= cleaned@.len(),
            cleaned@.len() == cleaned_spec.len(),
            forall|m: int| 0 <= m < cleaned@.len() ==> (#[trigger] cleaned@[m])@ == cleaned_spec[m],
            forall|m: int| 0 <= m < k ==> (#[trigger] cleaned_spec[m]).len() >= 2,
            cleaned_spec == sorted_v.map_values(|l: Seq<char>| remove_chars(l, report_noise())),
            sorted_by_number(views(filled@), sorted_v, pp),
            fm == fill_template(strs(template@), strs(name_of_tests@), report_entries(*map), current_date@, current_time@),
            fm == FillModel::Done(views(filled@)),
            text@ == join_lines(cleaned_spec.take(k as int).map_values(|l: Seq<char>| l.skip(2))),
        decreases cleaned@.len() - k,
    {
        let c = chars_of(cleaned[k].as_str());
        if c.len() < 2 {
            proof {
                assert(!(cleaned_spec[k as int].len() >= 2));
                assert(report_text(sorted_v) is None);
                assert(sorted_by_number(views(filled@), sorted_v, pp) && report_text(sorted_v) is None);
                assert(fm->0 == views(filled@));
            }
            return ReportOutcome::ShortLine;
        }
        if k > 0 {
            push_str(&mut text, "\n");
        }
        crate::text::push_range(&mut text, c.as_slice(), 2, c.len());
        proof {
            let prev = cleaned_spec.take(k as int).map_values(|l: Seq<char>| l.skip(2));
            let next = cleaned_spec.take(k + 1).map_values(|l: Seq<char>| l.skip(2));
            assert(next.drop_last() =~= prev);
            assert(next.last() =~= c@.subrange(2, c@.len() as int));
            if k == 0 {
                assert(next.len() == 1);
            }
        }
        k = k + 1;
    }
    proof {
        assert(cleaned_spec.take(cleaned_spec.len() as int) =~= cleaned_spec);
        assert(report_text(sorted_v) == Some(text@));
    }
    let out = string_from_chars(text.as_slice());
    assert(sorted_by_number(views(filled@), sorted_v, pp) && report_text(sorted_v) == Some(out@));
    assert(exists|sorted: Seq<Seq<char>>, p: Seq<int>| sorted_by_number(views(filled@), sorted, p) && report_text(sorted) == Some(out@));
    assert(fm->0 == views(filled@));
    ReportOutcome::Done(out)
}

/// The report from the template lines, the test titles, the lines read
/// from their result files, and the date and time: the results are recorded
/// as `collect_results` does and the report is made as `make_the_report`
/// makes it.
pub fn report_from_results(
    template: &Vec<String>,
    names: &Vec<String>,
    read: &ResultLines,
    current_date: &str,
    current_time: &str,
) -> (r: ReportOutcome)
    requires
        read@.len() == names@.len(),
    ensures
        ({
            let es = collected(strs(names@), read@, names@.len() as int);
            let filled = fill_template(strs(template@), strs(names@), es, current_date@, current_time@);
            match r {
                ReportOutcome::Done(text) => filled is Done && exists|sorted: Seq<Seq<char>>, p: Seq<int>| #[trigger] sorted_by_number(filled->0, sorted, p) && report_text(sorted) == Some(text@),
                ReportOutcome::ShortLine => filled is Done && exists|sorted: Seq<Seq<char>>, p: Seq<int>| #[trigger] sorted_by_number(filled->0, sorted, p) && report_text(sorted) is None,
                ReportOutcome::Exited => filled is Exited,
                ReportOutcome::Stuck => filled is Stuck,
            }
        }),
{
    let m = collect_results(names, read);
    make_the_report(template, &m, current_date, current_time, names)
}

/// The sort key of a report line is the number that its first word spells
/// (as a `usize`); a line without a first word, or whose first word is no
/// number, sorts last (`usize::MAX`).
pub proof fn lemma_leading_number_is_first_word(line: Seq<char>)
    ensures
        words(line).len() > 0 && parse_unsigned(words(line)[0], usize::MAX as nat) is Some
            ==> leading_number(line) == parse_unsigned(words(line)[0], usize::MAX as nat)->0,
        words(line).len() == 0 || parse_unsigned(words(line)[0], usize::MAX as nat) is None
            ==> leading_number(line) == usize::MAX as nat,
{
}

/// Sorted report lines come in ascending order of their numbers: a line
/// whose first word is the number `a` comes before a line whose first word is
/// the number `b` whenever `a < b`.
pub proof fn lemma_sorted_lines_ascending(
    input: Seq<Seq<char>>,
    out: Seq<Seq<char>>,
    p: Seq<int>,
    k: int,
    l: int,
    a: nat,
    b: nat,
)
    requires
        sorted_by_number(input, out, p),
        0 <= k < out.len(),
        0 <= l < out.len(),
        words(out[k]).len() > 0,
        parse_unsigned(words(out[k])[0], usize::MAX as nat) == Some(a),
        words(out[l]).len() > 0,
        parse_unsigned(words(out[l])[0], usize::MAX as nat) == Some(b),
        a < b,
    ensures
        k < l,
{
    lemma_leading_number_is_first_word(out[k]);
    lemma_leading_number_is_first_word(out[l]);
    if l < k {
        assert(leading_number(out[l]) <= leading_number(out[k]));
    }
}

} // verus!
