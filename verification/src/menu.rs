//! The decisions of the interactive menus: what a line typed by the user
//! asks for. The program prints the menus, reads the lines and carries out
//! the chosen action.
use vstd::prelude::*;
use crate::text::{chars_of, parse_unsigned, parse_unsigned_exec, trim, trim_chars};

verus! {

/// What a line typed at the main menu asks for.
#[derive(Clone, Copy, Debug, PartialEq, Eq, Structural)]
pub enum MenuAction {
    /// The line is no number.
    NotANumber,
    /// Option 1 while logged out.
    LogIn,
    /// Option 1 while logged in: the stored credentials are removed.
    LogOut,
    /// Option 2: run the ping tests.
    RunPingTests,
    /// Option 3: find free management addresses and segments.
    FindIpAndSegments,
    /// Option 4: list the dynamic addresses of the FTTH nodes.
    FindDynamicIps,
    /// Option 5: the latency report.
    LatencyReport,
    /// Options 2 to 5 while logged out.
    NeedsLogin,
    /// Option 6, not available yet.
    NotAvailable,
    /// Option 7: leave the program.
    Close,
    /// Any other number.
    InvalidOption,
}

/// The action for the menu line `input`: the trimmed line read as a `u32`.
pub open spec fn menu_decision(input: Seq<char>, logged: bool) -> MenuAction {
    match parse_unsigned(trim(input), 0xffff_ffff) {
        None => MenuAction::NotANumber,
        Some(n) => if n == 1 {
            if logged {
                MenuAction::LogOut
            } else {
                MenuAction::LogIn
            }
        } else if 2 <= n <= 5 && !logged {
            MenuAction::NeedsLogin
        } else if n == 2 {
            MenuAction::RunPingTests
        } else if n == 3 {
            MenuAction::FindIpAndSegments
        } else if n == 4 {
            MenuAction::FindDynamicIps
        } else if n == 5 {
            MenuAction::LatencyReport
        } else if n == 6 {
            MenuAction::NotAvailable
        } else if n == 7 {
            MenuAction::Close
        } else {
            MenuAction::InvalidOption
        },
    }
}

/// While nobody is logged in, no tool runs: options 2 to 5 are answered
/// with a request to log in, and option 1 logs in.
pub proof fn lemma_logged_out_runs_no_tool(input: Seq<char>)
    ensures
        !(menu_decision(input, false) is RunPingTests),
        !(menu_decision(input, false) is FindIpAndSegments),
        !(menu_decision(input, false) is FindDynamicIps),
        !(menu_decision(input, false) is LatencyReport),
        !(menu_decision(input, false) is LogOut),
        parse_unsigned(trim(input), 0xffff_ffff) matches Some(n) && 2 <= n <= 5 ==> menu_decision(
            input,
            false,
        ) is NeedsLogin,
{
}

/// Reads a line typed at the main menu.
pub fn menu_action(input: &str, logged: bool) -> (r: MenuAction)
    ensures
        r == menu_decision(input@, logged),
{
    let raw = chars_of(input);
    let t = trim_chars(raw.as_slice());
    match parse_unsigned_exec(t.as_slice(), 0xffff_ffff) {
        None => MenuAction::NotANumber,
        Some(n) => if n == 1 {
            if logged {
                MenuAction::LogOut
            } else {
                MenuAction::LogIn
            }
        } else if 2 <= n && n <= 5 && !logged {
            MenuAction::NeedsLogin
        } else if n == 2 {
            MenuAction::RunPingTests
        } else if n == 3 {
            MenuAction::FindIpAndSegments
        } else if n == 4 {
            MenuAction::FindDynamicIps
        } else if n == 5 {
            MenuAction::LatencyReport
        } else if n == 6 {
            MenuAction::NotAvailable
        } else if n == 7 {
            MenuAction::Close
        } else {
            MenuAction::InvalidOption
        },
    }
}

/// What a line typed at the RF router menu chooses.
#[derive(Debug, PartialEq, Eq)]
pub enum NodeChoice {
    /// The line is no number: the search is given up.
    Cancelled,
    /// The number 0, one less than which is no index.
    Zero,
    /// A number past the end of the list.
    OutOfRange,
    /// The chosen node does not hold exactly three values.
    Malformed,
    /// The chosen node's second octet, first third octet and router.
    Chosen(String, String, String),
}

/// The values of each node of a list of named nodes.
pub open spec fn node_values(nodes: Seq<(String, Vec<String>)>) -> Seq<Seq<Seq<char>>> {
    nodes.map_values(|e: (String, Vec<String>)| e.1@.map_values(|s: String| s@))
}

/// Reads a line typed at the RF router menu, which lists `nodes` from 1 on.
pub fn ip_segment_node_choice(input: &str, nodes: &Vec<(String, Vec<String>)>) -> (r: NodeChoice)
    ensures
        ({
            let values = node_values(nodes@);
            match parse_unsigned(trim(input@), usize::MAX as nat) {
                None => r == NodeChoice::Cancelled,
                Some(n) => if n == 0 {
                    r == NodeChoice::Zero
                } else if n > nodes@.len() {
                    r == NodeChoice::OutOfRange
                } else if values[n - 1].len() != 3 {
                    r == NodeChoice::Malformed
                } else {
                    r matches NodeChoice::Chosen(a, b, c) && a@ == values[n - 1][0] && b@
                        == values[n - 1][1] && c@ == values[n - 1][2]
                },
            }
        }),
{
    let raw = chars_of(input);
    let t = trim_chars(raw.as_slice());
    match parse_unsigned_exec(t.as_slice(), usize::MAX as u64) {
        None => NodeChoice::Cancelled,
        Some(n) => {
            let k = n as usize;
            if k == 0 {
                NodeChoice::Zero
            } else if k > nodes.len() {
                NodeChoice::OutOfRange
            } else {
                let values = &nodes[k - 1].1;
                proof {
                    assert(node_values(nodes@)[k - 1] == values@.map_values(|s: String| s@));
                }
                if values.len() != 3 {
                    NodeChoice::Malformed
                } else {
                    NodeChoice::Chosen(values[0].clone(), values[1].clone(), values[2].clone())
                }
            }
        },
    }
}

/// Reads a line typed at the address menu, which lists `ips` from 1 on:
/// the chosen address, or `None` when the line is no number in range.
pub fn get_ip_selection(input: &str, ips: &Vec<String>) -> (r: Option<String>)
    ensures
        match parse_unsigned(trim(input@), usize::MAX as nat) {
            Some(n) => if 1 <= n <= ips@.len() {
                r matches Some(s) && s@ == ips@[n - 1]@
            } else {
                r is None
            },
            None => r is None,
        },
{
    let raw = chars_of(input);
    let t = trim_chars(raw.as_slice());
    match parse_unsigned_exec(t.as_slice(), usize::MAX as u64) {
        Some(n) => {
            let k = n as usize;
            if 1 <= k && k <= ips.len() {
                Some(ips[k - 1].clone())
            } else {
                None
            }
        },
        None => None,
    }
}

} // verus!
