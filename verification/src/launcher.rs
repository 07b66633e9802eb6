//! The test list and the batch file that launches the tests.
//!
//! The list of tests is a flat list of strings, four per test: the test's
//! title, the address to ping, the source address and the router's
//! `host:port`. Each test becomes one command line that starts the runner;
//! live tests open in panes of Windows Terminal, reports run in the
//! background.
use vstd::prelude::*;
use crate::text::{
    chars_of, lines, push_all, replace_all, replace_str, split_lines, starts_with, string_from_chars,
    trim, trim_chars, views,
};

verus! {

/// Appends the characters of `s` to `out`.
pub fn push_str(out: &mut Vec<char>, s: &str)
    ensures
        final(out)@ == old(out)@ + s@,
{
    let v = chars_of(s);
    push_all(out, v.as_slice());
}

/// The character sequences of a list of strings.
pub open spec fn strs(v: Seq<String>) -> Seq<Seq<char>> {
    v.map_values(|s: String| s@)
}

/// The tab titles of the live-test windows, one per four tests.
pub open spec fn title_tab(n: int) -> Seq<char> {
    if n == 0 {
        "1-4"@
    } else if n == 1 {
        "5-8"@
    } else if n == 2 {
        "9-12"@
    } else if n == 3 {
        "13-16"@
    } else {
        "17-?"@
    }
}

fn title_tab_exec(n: usize) -> (r: &'static str)
    requires
        n < 5,
    ensures
        r@ == title_tab(n as int),
{
    if n == 0 {
        "1-4"
    } else if n == 1 {
        "5-8"
    } else if n == 2 {
        "9-12"
    } else if n == 3 {
        "13-16"
    } else {
        "17-?"
    }
}

/// The runner's arguments for test `k`: its four fields, the user name and
/// the password, separated by spaces.
pub open spec fn test_args(list: Seq<Seq<char>>, k: int, user: Seq<char>, pass: Seq<char>) -> Seq<
    char,
> {
    list[4 * k] + " "@ + list[4 * k + 1] + " "@ + list[4 * k + 2] + " "@ + list[4 * k + 3] + " "@
        + user + " "@ + pass
}

/// The number of tests that the launcher reads from a list of `len`
/// strings: one for each index `4k` below `len - 1`.
pub open spec fn tests_read(len: nat) -> nat {
    ((len + 2) / 4) as nat
}

/// The Windows Terminal executable beside the runner.
pub open spec fn wt_path(api: Seq<char>) -> Seq<char> {
    replace_all(api, "\\api.exe"@, "\\terminal\\wt.exe"@)
}

/// The live-test command piece for test `k`: the first test opens the
/// window, the first of each group of four opens a tab, the others split
/// the tab into panes.
pub open spec fn live_test_line(
    list: Seq<Seq<char>>,
    k: int,
    user: Seq<char>,
    pass: Seq<char>,
    api: Seq<char>,
) -> Seq<char> {
    let title = title_tab(k / 4);
    let args = test_args(list, k, user, pass);
    if k == 0 {
        "\""@ + wt_path(api) + "\" -M -w 1 --title "@ + title + " \""@ + api + "\" "@ + args
            + " 1"@
    } else if k % 4 == 0 {
        "; -w 1 new-tab --title "@ + title + " \""@ + api + "\" "@ + args + " 1"@
    } else if k % 4 == 1 {
        "; -w 1 sp --title "@ + title + " -V -c \""@ + api + "\" "@ + args + " 1; mf right "@
    } else if k % 4 == 2 {
        "; -w 1 sp --title "@ + title + " -H -c \""@ + api + "\" "@ + args + " 1; mf left"@
    } else {
        "; -w 1 sp --title "@ + title + " -H -c \""@ + api + "\" "@ + args + " 1"@
    }
}

/// The report command line for test `k`: the runner started in the
/// background in report mode.
pub open spec fn report_line(
    list: Seq<Seq<char>>,
    k: int,
    user: Seq<char>,
    pass: Seq<char>,
    api: Seq<char>,
) -> Seq<char> {
    "START /B \"\" \""@ + api + "\" "@ + test_args(list, k, user, pass) + " 2\n"@
}

/// The batch file lines: `ECHO OFF`, then one piece per test (mode 1: live
/// tests, mode 2: reports); no lines for any other mode.
pub open spec fn launch_commands(
    list: Seq<Seq<char>>,
    user: Seq<char>,
    pass: Seq<char>,
    mode: nat,
    api: Seq<char>,
) -> Seq<Seq<char>> {
    if mode == 1 {
        seq!["ECHO OFF\n"@] + Seq::new(
            tests_read(list.len()),
            |k: int| live_test_line(list, k, user, pass, api),
        )
    } else if mode == 2 {
        seq!["ECHO OFF\n"@] + Seq::new(
            tests_read(list.len()),
            |k: int| report_line(list, k, user, pass, api),
        )
    } else {
        seq![]
    }
}

/// The lists that the launcher reads without running past their end: non-empty
/// and made of whole tests (a single extra string is ignored).
pub open spec fn launchable(len: nat) -> bool {
    len > 0 && (len % 4 == 0 || len % 4 == 1)
}

fn push_test_args(
    out: &mut Vec<char>,
    list: &Vec<String>,
    k: usize,
    username: &str,
    password: &str,
)
    requires
        4 * k + 3 < list@.len(),
    ensures
        final(out)@ == old(out)@ + test_args(strs(list@), k as int, username@, password@),
{
    let ll = list.len();
    assert(4 * k + 3 < ll);
    push_str(out, list[4 * k].as_str());
    push_str(out, " ");
    push_str(out, list[4 * k + 1].as_str());
    push_str(out, " ");
    push_str(out, list[4 * k + 2].as_str());
    push_str(out, " ");
    push_str(out, list[4 * k + 3].as_str());
    push_str(out, " ");
    push_str(out, username);
    push_str(out, " ");
    push_str(out, password);
    assert(out@ =~= old(out)@ + test_args(strs(list@), k as int, username@, password@));
}

/// The lines of the batch file that starts the tests of `list` in mode
/// `ping_or_report` (1: live tests, 2: reports), for the runner at `api`.
pub fn command_ping_test_or_report(
    list_ip: &Vec<String>,
    username: &str,
    password: &str,
    ping_or_report: usize,
    api: &str,
) -> (r: Vec<String>)
    requires
        ping_or_report == 1 || ping_or_report == 2 ==> launchable(list_ip@.len()),
        ping_or_report == 1 ==> tests_read(list_ip@.len()) <= 20,
    ensures
        strs(r@) == launch_commands(
            strs(list_ip@),
            username@,
            password@,
            ping_or_report as nat,
            api@,
        ),
{
    let ghost list = strs(list_ip@);
    let mut commands: Vec<String> = Vec::new();
    if ping_or_report != 1 && ping_or_report != 2 {
        assert(strs(commands@) =~= Seq::<Seq<char>>::empty());
        return commands;
    }
    let n: usize = (list_ip.len() + 2) / 4;
    let api_chars = chars_of(api);
    let wt = replace_str(api_chars.as_slice(), "\\api.exe", "\\terminal\\wt.exe");
    commands.push(string_from_chars(chars_of("ECHO OFF\n").as_slice()));
    let mut k: usize = 0;
    while k < n
        invariant
            n == tests_read(list_ip@.len()),
            launchable(list_ip@.len()),
            ping_or_report == 1 ==> n <= 20,
            ping_or_report == 1 || ping_or_report == 2,
            k <= n,
            api_chars@ == api@,
            wt@ == wt_path(api@),
            list == strs(list_ip@),
            strs(commands@) == seq!["ECHO OFF\n"@] + Seq::new(
                k as nat,
                |j: int|
                    if ping_or_report == 1 {
                        live_test_line(list, j, username@, password@, api@)
                    } else {
                        report_line(list, j, username@, password@, api@)
                    },
            ),
        decreases n - k,
    {
        proof {
            assert(4 * k + 3 < list_ip@.len()) by (nonlinear_arith)
                requires
                    k < n,
                    n == (list_ip@.len() + 2) / 4,
                    list_ip@.len() % 4 == 0 || list_ip@.len() % 4 == 1,
            ;
        }
        let mut line: Vec<char> = Vec::new();
        if ping_or_report == 1 {
            let title = title_tab_exec(k / 4);
            if k == 0 {
                push_str(&mut line, "\"");
                push_all(&mut line, wt.as_slice());
                push_str(&mut line, "\" -M -w 1 --title ");
            } else if k % 4 == 0 {
                push_str(&mut line, "; -w 1 new-tab --title ");
            } else {
                push_str(&mut line, "; -w 1 sp --title ");
            }
            push_str(&mut line, title);
            if k % 4 == 1 {
                push_str(&mut line, " -V -c");
            } else if k % 4 == 2 || (k % 4 == 3) {
                push_str(&mut line, " -H -c");
            }
            push_str(&mut line, " \"");
            push_str(&mut line, api);
            push_str(&mut line, "\" ");
            push_test_args(&mut line, list_ip, k, username, password);
            if k % 4 == 1 {
                push_str(&mut line, " 1; mf right ");
            } else if k % 4 == 2 {
                push_str(&mut line, " 1; mf left");
            } else {
                push_str(&mut line, " 1");
            }
            proof {
                let title_s = title_tab(k as int / 4);
                let args = test_args(list, k as int, username@, password@);
                if k == 0 {
                    assert(line@ =~= "\""@ + wt_path(api@) + "\" -M -w 1 --title "@ + title_s + " \""@
                        + api@ + "\" "@ + args + " 1"@);
                } else if k % 4 == 0 {
                    assert(line@ =~= "; -w 1 new-tab --title "@ + title_s + " \""@ + api@ + "\" "@
                        + args + " 1"@);
                } else if k % 4 == 1 {
                    assert(line@ =~= "; -w 1 sp --title "@ + title_s + " -V -c"@ + " \""@ + api@
                        + "\" "@ + args + " 1; mf right "@);
                    reveal_strlit(" -V -c");
                    reveal_strlit(" \"");
                    reveal_strlit(" -V -c \"");
                    assert(" -V -c"@ + " \""@ =~= " -V -c \""@);
                    assert(line@ =~= "; -w 1 sp --title "@ + title_s + " -V -c \""@ + api@ + "\" "@
                        + args + " 1; mf right "@);
                } else {
                    reveal_strlit(" -H -c");
                    reveal_strlit(" \"");
                    reveal_strlit(" -H -c \"");
                    assert(" -H -c"@ + " \""@ =~= " -H -c \""@);
                    if k % 4 == 2 {
                        assert(line@ =~= "; -w 1 sp --title "@ + title_s + " -H -c \""@ + api@
                            + "\" "@ + args + " 1; mf left"@);
                    } else {
                        assert(line@ =~= "; -w 1 sp --title "@ + title_s + " -H -c \""@ + api@
                            + "\" "@ + args + " 1"@);
                    }
                }
                assert(line@ == live_test_line(list, k as int, username@, password@, api@));
            }
        } else {
            push_str(&mut line, "START /B \"\" \"");
            push_str(&mut line, api);
            push_str(&mut line, "\" ");
            push_test_args(&mut line, list_ip, k, username, password);
            push_str(&mut line, " 2\n");
            assert(line@ =~= report_line(list, k as int, username@, password@, api@));
        }
        let ghost before = strs(commands@);
        commands.push(string_from_chars(line.as_slice()));
        k = k + 1;
        assert(strs(commands@) =~= before + seq![line@]);
        assert(strs(commands@) =~= seq!["ECHO OFF\n"@] + Seq::new(
            k as nat,
            |j: int|
                if ping_or_report == 1 {
                    live_test_line(list, j, username@, password@, api@)
                } else {
                    report_line(list, j, username@, password@, api@)
                },
        ));
    }
    proof {
        if ping_or_report == 1 {
            assert(strs(commands@) =~= launch_commands(list, username@, password@, 1, api@));
        } else {
            assert(strs(commands@) =~= launch_commands(list, username@, password@, 2, api@));
        }
    }
    commands
}

/// The titles of the tests in `list`: the first string of every group of
/// four (`chunks(4)`), the last group possibly shorter.
pub open spec fn test_names(list: Seq<Seq<char>>) -> Seq<Seq<char>> {
    Seq::new(((list.len() + 3) / 4) as nat, |c: int| list[4 * c])
}

/// The length of a list of `len` strings after `times` removals of its last
/// four strings, where a list shorter than four is left as it is.
pub open spec fn length_after_trims(len: nat, times: nat) -> nat
    decreases times,
{
    if times == 0 {
        len
    } else {
        length_after_trims(if len >= 4 { (len - 4) as nat } else { len }, (times - 1) as nat)
    }
}

/// The closed form of `length_after_trims`.
pub proof fn lemma_length_after_trims(len: nat, times: nat)
    ensures
        length_after_trims(len, times) == if 4 * times <= len {
            (len - 4 * times) as nat
        } else {
            len % 4
        },
    decreases times,
{
    if times > 0 {
        if len >= 4 {
            lemma_length_after_trims((len - 4) as nat, (times - 1) as nat);
        } else {
            lemma_length_after_trims(len, (times - 1) as nat);
        }
    }
}

/// Fits the test list to a report template with `template_len` test lines:
/// the titles of the tests are taken, and for each title beyond the
/// template's count the last four strings of the list (when it has four)
/// and the last title are dropped.
pub fn check_total_test_for_report(list_ip: Vec<String>, template_len: usize) -> (r: (
    Vec<String>,
    Vec<String>,
))
    requires
        template_len <= (list_ip@.len() + 3) / 4,
    ensures
        strs(r.1@) == test_names(strs(list_ip@)).take(template_len as int),
        strs(r.0@) == strs(list_ip@).take(
            length_after_trims(
                list_ip@.len(),
                (((list_ip@.len() + 3) / 4) as nat - template_len) as nat,
            ) as int,
        ),
{
    let ghost list0 = strs(list_ip@);
    let mut list_ip = list_ip;
    let mut names: Vec<String> = Vec::new();
    let len = list_ip.len();
    let nchunks: usize = len / 4 + if len % 4 == 0 {
        0
    } else {
        1
    };
    assert(nchunks == (len + 3) / 4);
    let mut q: usize = 0;
    while q < nchunks
        invariant
            len == list_ip@.len(),
            list0 == strs(list_ip@),
            nchunks == (len + 3) / 4,
            q <= nchunks,
            strs(names@) == test_names(list0).take(q as int),
        decreases nchunks - q,
    {
        assert(4 * q < len);
        let ghost before = strs(names@);
        names.push(list_ip[4 * q].clone());
        proof {
            assert(strs(names@) =~= before + seq![list0[4 * q]]);
            assert(test_names(list0).take(q + 1) =~= test_names(list0).take(q as int) + seq![
                list0[4 * q],
            ]);
        }
        q = q + 1;
    }
    assert(strs(names@) =~= test_names(list0));
    let extra: usize = names.len() - template_len;
    let ghost total = names@.len();
    let mut i: usize = 0;
    while i < extra
        invariant
            i <= extra,
            extra == total - template_len,
            total == test_names(list0).len(),
            template_len <= total,
            names@.len() == total - i,
            strs(names@) == test_names(list0).take(total - i),
            list_ip@.len() == length_after_trims(len as nat, i as nat),
            length_after_trims(len as nat, i as nat) <= len,
            strs(list_ip@) == list0.take(list_ip@.len() as int),
            list0.len() == len,
        decreases extra - i,
    {
        let l = list_ip.len();
        if l >= 4 {
            list_ip.truncate(l - 4);
        }
        names.pop();
        proof {
            assert(length_after_trims(len as nat, (i + 1) as nat) == length_after_trims(
                if len >= 4 { (len - 4) as nat } else { len as nat },
                i as nat,
            ));
            lemma_length_after_trims(len as nat, i as nat);
            lemma_length_after_trims(len as nat, (i + 1) as nat);
            assert(strs(list_ip@) =~= list0.take(list_ip@.len() as int));
            assert(strs(names@) =~= test_names(list0).take(total - i - 1));
        }
        i = i + 1;
    }
    assert(strs(names@) =~= test_names(list0).take(template_len as int));
    (list_ip, names)
}

/// The lines of a text file that `read_file_to_vec` keeps: those that do
/// not start with `#`.
pub open spec fn uncommented(ls: Seq<Seq<char>>) -> Seq<Seq<char>> {
    ls.filter(|l: Seq<char>| !starts_with(l, "#"@))
}

/// Keeps the lines that do not start with `#`, in order.
pub fn drop_comment_lines(lines: &Vec<String>) -> (r: Vec<String>)
    ensures
        strs(r@) == uncommented(strs(lines@)),
{
    let mut r: Vec<String> = Vec::new();
    let mut i: usize = 0;
    let hash = chars_of("#");
    while i < lines.len()
        invariant
            i <= lines@.len(),
            hash@ == "#"@,
            strs(r@) == uncommented(strs(lines@).take(i as int)),
        decreases lines@.len() - i,
    {
        let c = chars_of(lines[i].as_str());
        let ghost before = strs(r@);
        let keep = !crate::text::starts_with_exec(c.as_slice(), hash.as_slice());
        if keep {
            r.push(lines[i].clone());
        }
        proof {
            assert(strs(lines@).take(i + 1).drop_last() =~= strs(lines@).take(i as int));
            reveal(Seq::filter);
            if keep {
                assert(strs(r@) =~= before + seq![lines@[i as int]@]);
            }
        }
        i = i + 1;
    }
    assert(strs(lines@).take(lines@.len() as int) =~= strs(lines@));
    r
}

/// A line of the test list file with its JSON punctuation taken out:
/// trimmed, braces, brackets, commas and `=` removed, quotes turned into
/// spaces, double spaces into line breaks, and the remaining spaces removed.
pub open spec fn clean_list_line(l: Seq<char>) -> Seq<char> {
    let a = replace_all(trim(l), "{"@, ""@);
    let b = replace_all(a, "}"@, ""@);
    let c = replace_all(b, "["@, ""@);
    let d = replace_all(c, "]"@, ""@);
    let e = replace_all(d, ","@, ""@);
    let f = replace_all(e, "="@, ""@);
    let g = replace_all(f, "\""@, " "@);
    let h = replace_all(g, "  "@, "\n"@);
    let i = replace_all(h, " "@, ""@);
    replace_all(i, " "@, ""@)
}

/// The cleaned lines, each followed by a line feed.
pub open spec fn cleaned_text(ls: Seq<Seq<char>>) -> Seq<char>
    decreases ls.len(),
{
    if ls.len() == 0 {
        seq![]
    } else {
        cleaned_text(ls.drop_last()) + clean_list_line(ls.last()) + "\n"@
    }
}

fn clean_list_line_exec(l: &str) -> (r: Vec<char>)
    ensures
        r@ == clean_list_line(l@),
{
    let t = trim_chars(chars_of(l).as_slice());
    let a = replace_str(t.as_slice(), "{", "");
    let b = replace_str(a.as_slice(), "}", "");
    let c = replace_str(b.as_slice(), "[", "");
    let d = replace_str(c.as_slice(), "]", "");
    let e = replace_str(d.as_slice(), ",", "");
    let f = replace_str(e.as_slice(), "=", "");
    let g = replace_str(f.as_slice(), "\"", " ");
    let h = replace_str(g.as_slice(), "  ", "\n");
    let i = replace_str(h.as_slice(), " ", "");
    replace_str(i.as_slice(), " ", "")
}

/// The strings of the test list file: every line is cleaned, the cleaned
/// lines are written one per line and read back line by line, so that the
/// line breaks made from double spaces split them.
pub fn return_clean_vec_list_ip(lines: &Vec<String>) -> (r: Vec<String>)
    ensures
        strs(r@) == crate::text::lines(cleaned_text(strs(lines@))),
{
    let mut text: Vec<char> = Vec::new();
    let mut i: usize = 0;
    while i < lines.len()
        invariant
            i <= lines@.len(),
            text@ == cleaned_text(strs(lines@).take(i as int)),
        decreases lines@.len() - i,
    {
        let cl = clean_list_line_exec(lines[i].as_str());
        push_all(&mut text, cl.as_slice());
        push_str(&mut text, "\n");
        assert(strs(lines@).take(i + 1).drop_last() =~= strs(lines@).take(i as int));
        i = i + 1;
    }
    assert(strs(lines@).take(lines@.len() as int) =~= strs(lines@));
    let ls = split_lines(text.as_slice());
    let mut r: Vec<String> = Vec::new();
    let mut k: usize = 0;
    while k < ls.len()
        invariant
            k <= ls@.len(),
            strs(r@) == views(ls@).take(k as int),
        decreases ls@.len() - k,
    {
        let ghost before = strs(r@);
        let piece = string_from_chars(ls[k].as_slice());
        assert(piece@ == views(ls@)[k as int]);
        r.push(piece);
        assert(strs(r@) =~= before + seq![piece@]);
        assert(strs(r@) =~= views(ls@).take(k + 1));
        k = k + 1;
    }
    assert(views(ls@).take(ls@.len() as int) =~= views(ls@));
    r
}

/// No string of the cleaned test list holds a line break: the double spaces
/// turned into line breaks always split the cleaned lines.
pub proof fn lemma_clean_list_has_no_line_feed(lines: Seq<Seq<char>>)
    ensures
        forall|k: int|
            0 <= k < crate::text::lines(cleaned_text(lines)).len() ==> !(#[trigger] crate::text::lines(
                cleaned_text(lines),
            )[k]).contains('\n'),
{
    crate::text::lemma_lines_have_no_line_feed(cleaned_text(lines));
}

/// The batch file has one line per test after its `ECHO OFF` line, in both
/// modes.
pub proof fn lemma_one_line_per_test(
    list: Seq<Seq<char>>,
    user: Seq<char>,
    pass: Seq<char>,
    mode: nat,
    api: Seq<char>,
)
    requires
        mode == 1 || mode == 2,
    ensures
        launch_commands(list, user, pass, mode, api).len() == 1 + tests_read(list.len()),
        launch_commands(list, user, pass, mode, api)[0] == "ECHO OFF\n"@,
{
}

/// For a list of whole tests, fitting it to a template of `template_len`
/// test lines keeps exactly the first `template_len` tests: four strings for
/// each title kept.
pub proof fn lemma_fitted_list_holds_kept_tests(len: nat, template_len: nat)
    requires
        len % 4 == 0,
        template_len <= len / 4,
    ensures
        length_after_trims(len, (((len + 3) / 4) as nat - template_len) as nat) == 4 * template_len,
{
    let times = (((len + 3) / 4) as nat - template_len) as nat;
    assert((len + 3) / 4 == len / 4);
    lemma_length_after_trims(len, times);
}

/// The live-test batch file opens a tab for every fourth test: the piece of
/// test `k > 0` with `k % 4 == 0` starts with `; -w 1 new-tab --title `
/// and the title of tab `k / 4`; every other test after the first splits the
/// current tab (`; -w 1 sp --title ` and the same tab's title); the first
/// opens the window with Windows Terminal.
pub proof fn lemma_live_tests_open_tabs(
    list: Seq<Seq<char>>,
    user: Seq<char>,
    pass: Seq<char>,
    api: Seq<char>,
    k: int,
)
    requires
        0 <= k < tests_read(list.len()),
    ensures
        ({
            let piece = launch_commands(list, user, pass, 1, api)[k + 1];
            &&& k > 0 && k % 4 == 0 ==> starts_with(piece, "; -w 1 new-tab --title "@ + title_tab(k / 4))
            &&& k % 4 != 0 ==> starts_with(piece, "; -w 1 sp --title "@ + title_tab(k / 4))
            &&& k == 0 ==> starts_with(piece, "\""@ + wt_path(api) + "\" -M -w 1 --title "@ + title_tab(0))
        }),
{
    let piece = launch_commands(list, user, pass, 1, api)[k + 1];
    assert(piece == live_test_line(list, k, user, pass, api));
    let title = title_tab(k / 4);
    let args = test_args(list, k, user, pass);
    if k == 0 {
        let pre = "\""@ + wt_path(api) + "\" -M -w 1 --title "@ + title_tab(0);
        let rest = " \""@ + api + "\" "@ + args + " 1"@;
        assert(piece =~= pre + rest);
        assert((pre + rest).take(pre.len() as int) =~= pre);
    } else if k % 4 == 0 {
        let pre = "; -w 1 new-tab --title "@ + title;
        let rest = " \""@ + api + "\" "@ + args + " 1"@;
        assert(piece =~= pre + rest);
        assert((pre + rest).take(pre.len() as int) =~= pre);
    } else {
        let pre = "; -w 1 sp --title "@ + title;
        let rest = if k % 4 == 1 {
            " -V -c \""@ + api + "\" "@ + args + " 1; mf right "@
        } else if k % 4 == 2 {
            " -H -c \""@ + api + "\" "@ + args + " 1; mf left"@
        } else {
            " -H -c \""@ + api + "\" "@ + args + " 1"@
        };
        assert(piece =~= pre + rest);
        assert((pre + rest).take(pre.len() as int) =~= pre);
    }
}

} // verus!
