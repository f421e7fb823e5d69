//! What is made of the programs that a build runs.

use vstd::prelude::*;
use vstd::string::StringExecFns;
use vstd::utf8::{decode_utf8, valid_utf8};

use crate::outside::{from_utf8, from_utf8_lossy, lossy_text};
use crate::words::{
    all_white, law_only_white_space_trims_to_nothing, law_trimmed_ends,
    law_trimming_takes_off_white_space, trim, trimmed, white,
};

verus! {

/// The report of a command that failed.
pub open spec fn run_report(
    label: Seq<char>,
    status: Seq<char>,
    command: Seq<char>,
    stdout: Seq<char>,
    stderr: Seq<char>,
) -> Seq<char> {
    "rnp-src: "@ + label + " failed with status "@ + status + "\n--- command ---\n"@ + command
        + "\n--- stdout ---\n"@ + stdout + "\n--- stderr ---\n"@ + stderr
}

/// How many compilers to run at a time, by what `nproc` wrote: its output without
/// white space around it, or four where there is none that is text.
pub open spec fn job_count(stdout: Option<Seq<u8>>) -> Seq<char> {
    match stdout {
        Some(bytes) => if valid_utf8(bytes) && trimmed(decode_utf8(bytes)).len() > 0 {
            trimmed(decode_utf8(bytes))
        } else {
            "4"@
        },
        None => "4"@,
    }
}

/// The report of a command that failed, with what it wrote.
pub fn run_failure(label: &str, status: &str, command: &str, stdout: &str, stderr: &str) -> (report:
    String)
    ensures
        report@ == run_report(label@, status@, command@, stdout@, stderr@),
{
    let mut report: String = "rnp-src: ".to_string();
    report.append(label);
    report.append(" failed with status ");
    report.append(status);
    report.append("\n--- command ---\n");
    report.append(command);
    report.append("\n--- stdout ---\n");
    report.append(stdout);
    report.append("\n--- stderr ---\n");
    report.append(stderr);
    report
}

/// Whether a command succeeded, or else the report of its failure. `status` and
/// `command` are the texts that stand for its exit status and its command line.
pub fn check_run(
    label: &str,
    success: bool,
    status: &str,
    command: &str,
    stdout: &Vec<u8>,
    stderr: &Vec<u8>,
) -> (result: Result<(), String>)
    ensures
        match result {
            Ok(_) => success,
            Err(report) => !success && report@ == run_report(
                label@,
                status@,
                command@,
                lossy_text(stdout@),
                lossy_text(stderr@),
            ),
        },
{
    if success {
        Ok(())
    } else {
        let stdout_text: String = from_utf8_lossy(stdout.as_slice());
        let stderr_text: String = from_utf8_lossy(stderr.as_slice());
        Err(run_failure(label, status, command, stdout_text.as_str(), stderr_text.as_str()))
    }
}

/// How many compilers to run at a time. `stdout` is what `nproc` wrote, where it
/// could be run.
pub fn nproc(stdout: Option<Vec<u8>>) -> (jobs: String)
    ensures
        jobs@ == job_count(
            match stdout {
                Some(bytes) => Some(bytes@),
                None => None,
            },
        ),
{
    match stdout {
        Some(bytes) => match from_utf8(bytes) {
            Some(text) => {
                let jobs: String = trim(text.as_str());
                if jobs.as_str().is_empty() {
                    "4".to_string()
                } else {
                    jobs
                }
            },
            None => "4".to_string(),
        },
        None => "4".to_string(),
    }
}

/// The number of jobs is never empty.
pub proof fn law_job_count_is_not_empty(stdout: Option<Seq<u8>>)
    ensures
        job_count(stdout).len() > 0,
{
    reveal_strlit("4");
}

/// The number of jobs is what `nproc` wrote, without the white space around it, wherever
/// that is text with anything but white space in it.
pub proof fn law_job_count_is_what_was_written(bytes: Seq<u8>)
    requires
        valid_utf8(bytes),
        exists|i: int| 0 <= i < decode_utf8(bytes).len() && !white(#[trigger] decode_utf8(bytes)[i]),
    ensures
        exists|left: Seq<char>, right: Seq<char>| #![trigger all_white(left), all_white(right)]
            all_white(left) && all_white(right) && decode_utf8(bytes) == left + job_count(
                Some(bytes),
            ) + right,
        !white(job_count(Some(bytes))[0]),
        !white(job_count(Some(bytes)).last()),
{
    let text = decode_utf8(bytes);
    law_only_white_space_trims_to_nothing(text);
    law_trimmed_ends(text);
    law_trimming_takes_off_white_space(text);
}

/// Where `nproc` wrote nothing of use, four jobs are run: where it could not be run, where
/// what it wrote is no text, and where it is nothing but white space.
pub proof fn law_job_count_falls_back_to_four(stdout: Option<Seq<u8>>)
    requires
        match stdout {
            Some(bytes) => !valid_utf8(bytes) || (forall|i: int|
                0 <= i < decode_utf8(bytes).len() ==> white(#[trigger] decode_utf8(bytes)[i])),
            None => true,
        },
    ensures
        job_count(stdout) == "4"@,
{
    match stdout {
        Some(bytes) => {
            law_only_white_space_trims_to_nothing(decode_utf8(bytes));
        },
        None => {},
    }
}

/// The report on a failed command holds all that is known of it, in this order and each
/// under its heading: the label and the status, the command line, its output and its
/// error output. Nothing is cut.
pub proof fn law_failures_are_reported_whole(
    label: Seq<char>,
    status: Seq<char>,
    command: Seq<char>,
    stdout: Seq<char>,
    stderr: Seq<char>,
)
    ensures
        ({
            let report = run_report(label, status, command, stdout, stderr);
            let first = "rnp-src: "@ + label + " failed with status "@ + status;
            let second = "\n--- command ---\n"@ + command;
            let third = "\n--- stdout ---\n"@ + stdout;
            let fourth = "\n--- stderr ---\n"@ + stderr;
            report == first + second + third + fourth
        }),
{
    let report = run_report(label, status, command, stdout, stderr);
    let first = "rnp-src: "@ + label + " failed with status "@ + status;
    let second = "\n--- command ---\n"@ + command;
    let third = "\n--- stdout ---\n"@ + stdout;
    let fourth = "\n--- stderr ---\n"@ + stderr;
    assert(report =~= first + second + third + fourth);
}

} // verus!
