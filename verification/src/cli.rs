//! The command line of the test runner (`api`): eight arguments, the last
//! of which picks the live test, the report or the database upload.
use vstd::prelude::*;
use crate::text::{chars_of, parse_i32, parse_i32_exec, parse_unsigned, parse_unsigned_exec, push_all, string_from_chars};

verus! {

/// What the runner does with a test.
#[derive(Clone, Copy, Debug, PartialEq, Eq, Structural)]
pub enum TestMode {
    /// `1`: live ping test in a terminal window.
    LiveTest,
    /// `2`: ping a hundred times and write the averages to a report file.
    Report,
    /// `3`: upload the results to the database.
    Upload,
    /// Any other number.
    Invalid,
}

/// A test to run, read from the command line.
#[derive(Debug)]
pub struct StartRequest {
    pub title: String,
    pub destination: String,
    pub source: String,
    pub address: String,
    pub username: String,
    pub password: String,
    pub test_id: i32,
    pub mode: TestMode,
    /// The router command: `ping <destination> src-address=<source>`.
    pub command: String,
}

/// How the command line is read.
#[derive(Debug)]
pub enum StartPlan {
    /// Fewer than eight arguments after the program name: print the usage
    /// and exit with status 1.
    Usage,
    /// The test id is not an `i32` (the runner stops with `Error`).
    BadTestId,
    /// The mode argument is missing (the runner stops on the index).
    MissingMode,
    /// The mode is not a number (the runner stops with `Error`).
    BadMode,
    /// Run the test.
    Run(StartRequest),
}

/// The router command that pings `destination` from `source`.
pub open spec fn ping_command_text(destination: Seq<char>, source: Seq<char>) -> Seq<char> {
    "ping "@ + destination + " src-address="@ + source
}

/// Builds `ping <destination> src-address=<source>`.
pub fn ping_command(destination: &str, source: &str) -> (r: String)
    ensures
        r@ == ping_command_text(destination@, source@),
{
    let mut v: Vec<char> = chars_of("ping ");
    push_all(&mut v, chars_of(destination).as_slice());
    push_all(&mut v, chars_of(" src-address=").as_slice());
    push_all(&mut v, chars_of(source).as_slice());
    string_from_chars(v.as_slice())
}

/// The mode that a number selects.
pub open spec fn mode_of(n: nat) -> TestMode {
    if n == 1 {
        TestMode::LiveTest
    } else if n == 2 {
        TestMode::Report
    } else if n == 3 {
        TestMode::Upload
    } else {
        TestMode::Invalid
    }
}

/// Reads the command line `args` (program name first).
pub fn plan_start(args: &Vec<String>) -> (r: StartPlan)
    ensures
        args@.len() < 8 ==> r is Usage,
        args@.len() >= 8 && parse_i32(args@[7]@) is None ==> r is BadTestId,
        args@.len() == 8 && parse_i32(args@[7]@) is Some ==> r is MissingMode,
        args@.len() > 8 && parse_i32(args@[7]@) is Some && parse_unsigned(
            args@[8]@,
            usize::MAX as nat,
        ) is None ==> r is BadMode,
        args@.len() > 8 && parse_i32(args@[7]@) is Some && parse_unsigned(
            args@[8]@,
            usize::MAX as nat,
        ) is Some ==> (r matches StartPlan::Run(q) && q.title@ == args@[1]@ && q.destination@
            == args@[2]@ && q.source@ == args@[3]@ && q.address@ == args@[4]@ && q.username@
            == args@[5]@ && q.password@ == args@[6]@ && Some(q.test_id as int) == parse_i32(
            args@[7]@,
        ) && q.mode == mode_of(parse_unsigned(args@[8]@, usize::MAX as nat)->0) && q.command@
            == ping_command_text(args@[2]@, args@[3]@)),
        args@.len() > 8 && parse_i32(args@[7]@) is Some && parse_unsigned(args@[8]@, usize::MAX as nat)
            == Some(1nat) ==> (r matches StartPlan::Run(q) && q.mode == TestMode::LiveTest),
        args@.len() > 8 && parse_i32(args@[7]@) is Some && parse_unsigned(args@[8]@, usize::MAX as nat)
            == Some(2nat) ==> (r matches StartPlan::Run(q) && q.mode == TestMode::Report),
        args@.len() > 8 && parse_i32(args@[7]@) is Some && parse_unsigned(args@[8]@, usize::MAX as nat)
            == Some(3nat) ==> (r matches StartPlan::Run(q) && q.mode == TestMode::Upload),
{
    if args.len() < 8 {
        return StartPlan::Usage;
    }
    let id_chars = chars_of(args[7].as_str());
    let test_id = match parse_i32_exec(id_chars.as_slice()) {
        Some(v) => v,
        None => {
            return StartPlan::BadTestId;
        },
    };
    if args.len() == 8 {
        return StartPlan::MissingMode;
    }
    let mode_chars = chars_of(args[8].as_str());
    let n = match parse_unsigned_exec(mode_chars.as_slice(), usize::MAX as u64) {
        Some(n) => n,
        None => {
            return StartPlan::BadMode;
        },
    };
    let mode = if n == 1 {
        TestMode::LiveTest
    } else if n == 2 {
        TestMode::Report
    } else if n == 3 {
        TestMode::Upload
    } else {
        TestMode::Invalid
    };
    let command = ping_command(args[2].as_str(), args[3].as_str());
    StartPlan::Run(
        StartRequest {
            title: args[1].clone(),
            destination: args[2].clone(),
            source: args[3].clone(),
            address: args[4].clone(),
            username: args[5].clone(),
            password: args[6].clone(),
            test_id,
            mode,
            command,
        },
    )
}

/// The mode argument selects the runner's work: 1 the live ping test, 2 the
/// report, 3 the database upload, and every other number none.
pub proof fn lemma_mode_numbers(n: nat)
    ensures
        mode_of(n) == TestMode::LiveTest <==> n == 1,
        mode_of(n) == TestMode::Report <==> n == 2,
        mode_of(n) == TestMode::Upload <==> n == 3,
        mode_of(n) == TestMode::Invalid <==> (n != 1 && n != 2 && n != 3),
{
}

} // verus!
