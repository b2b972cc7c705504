//! What a user sees of a search and what the program does next: labels, lines,
//! the choice of a mode and the answer to a key press.

use crate::text::{
    decimal, decimal_text, format_number, grouped, join, joined, lemma_prefix_ends_at_boundary,
    split_at_byte, texts,
};
use crate::types::SearchResult;
use vstd::prelude::*;
use vstd::utf8::{encode_utf8, encode_utf8_decode_utf8, is_char_boundary};

verus! {

/// Exit status of a search that the user ended.
pub const QUIT_STATUS: i32 = 130;

/// The prefixes as they are shown.
pub fn prefix_display(prefixes: &[String]) -> (text: String)
    ensures
        text@ == joined(texts(prefixes@), ", "@),
        prefixes@.len() == 1 ==> text@ == prefixes@[0]@,
{
    assert(prefixes@.len() == 1 ==> texts(prefixes@)[0] == prefixes@[0]@);
    join(prefixes, ", ")
}

/// What stands before the prefixes.
pub fn prefix_label(count: usize) -> (text: String)
    ensures
        text@ == if count == 1 {
            "Searching for prefix: "@
        } else {
            "Searching for "@ + decimal(count as nat) + " prefixes: "@
        },
{
    if count == 1 {
        String::from_str("Searching for prefix: ")
    } else {
        let mut text = String::from_str("Searching for ");
        text.append(decimal_text(count as u64).as_str());
        text.append(" prefixes: ");
        text
    }
}

/// What is added to the label of a mode where there is more than one prefix.
pub open spec fn count_suffix(count: nat) -> Seq<char> {
    if count == 1 {
        ""@
    } else {
        ", "@ + decimal(count) + " prefixes"@
    }
}

/// What is added to the label of a mode where there is more than one prefix.
pub fn prefix_count_label(count: usize) -> (text: String)
    ensures
        text@ == count_suffix(count as nat),
{
    if count == 1 {
        String::from_str("")
    } else {
        let mut text = String::from_str(", ");
        text.append(decimal_text(count as u64).as_str());
        text.append(" prefixes");
        text
    }
}

/// The names of the devices as they are shown.
pub fn gpu_names_label(names: &[String]) -> (text: String)
    ensures
        text@ == joined(texts(names@), ", "@),
{
    join(names, ", ")
}

/// What a search runs on.
#[derive(Clone, Copy, Debug, PartialEq, Eq, Structural)]
pub enum SearchMode {
    Cpu,
    Gpu,
    Hybrid,
}

/// Chooses what a search runs on: without a device the CPU alone, which is an
/// error where the user wants devices only; with one, both, unless the user
/// wants devices only.
pub fn choose_mode(gpu_only: bool, gpus: usize) -> (mode: Result<SearchMode, String>)
    ensures
        match mode {
            Ok(m) => {
                &&& !(gpu_only && gpus == 0)
                &&& m == if gpu_only {
                    SearchMode::Gpu
                } else if gpus == 0 {
                    SearchMode::Cpu
                } else {
                    SearchMode::Hybrid
                }
            },
            Err(message) => {
                &&& gpu_only
                &&& gpus == 0
                &&& message@ == "--gpu-only requested but no GPU available"@
            },
        },
{
    if gpu_only {
        if gpus == 0 {
            Err(String::from_str("--gpu-only requested but no GPU available"))
        } else {
            Ok(SearchMode::Gpu)
        }
    } else if gpus == 0 {
        Ok(SearchMode::Cpu)
    } else {
        Ok(SearchMode::Hybrid)
    }
}

/// The label of a mode.
pub open spec fn mode_text(
    mode: SearchMode,
    names: Seq<Seq<char>>,
    threads: nat,
    prefixes: nat,
) -> Seq<char> {
    match mode {
        SearchMode::Cpu => decimal(threads) + " threads"@ + count_suffix(prefixes),
        SearchMode::Gpu => joined(names, ", "@) + count_suffix(prefixes),
        SearchMode::Hybrid => joined(names, ", "@) + " + "@ + decimal(threads) + " threads"@
            + count_suffix(prefixes),
    }
}

/// The label of a mode: its devices, its threads, and the number of prefixes
/// if there is more than one.
pub fn mode_label(mode: SearchMode, names: &[String], threads: usize, prefixes: usize) -> (label:
    String)
    ensures
        label@ == mode_text(mode, texts(names@), threads as nat, prefixes as nat),
{
    let mut label = String::new();
    match mode {
        SearchMode::Cpu => {
            label.append(decimal_text(threads as u64).as_str());
            label.append(" threads");
        },
        SearchMode::Gpu => {
            label.append(gpu_names_label(names).as_str());
        },
        SearchMode::Hybrid => {
            label.append(gpu_names_label(names).as_str());
            label.append(" + ");
            label.append(decimal_text(threads as u64).as_str());
            label.append(" threads");
        },
    }
    label.append(prefix_count_label(prefixes).as_str());
    assert(label@ =~= mode_text(mode, texts(names@), threads as nat, prefixes as nat));
    label
}

/// The label of the gauge; `percent` is the progress as text.
pub fn gauge_label(percent: &str, attempts: u64, expected: u64) -> (label: String)
    ensures
        label@ == percent@ + "%  ("@ + grouped(decimal(attempts as nat)) + "/"@ + grouped(
            decimal(expected as nat),
        ) + ")"@,
{
    let mut label = String::from_str(percent);
    label.append("%  (");
    label.append(format_number(attempts).as_str());
    label.append("/");
    label.append(format_number(expected).as_str());
    label.append(")");
    label
}

/// The speed as it is shown while a search runs.
pub fn speed_label(keys_per_sec: u64) -> (label: String)
    ensures
        label@ == grouped(decimal(keys_per_sec as nat)) + " keys/sec"@,
{
    let mut label = format_number(keys_per_sec);
    label.append(" keys/sec");
    label
}

/// What is known of the time that a search will still take.
#[derive(Clone, Copy, Debug, PartialEq, Eq, Structural)]
pub enum Remaining {
    /// This many keys are expected to be left.
    Keys(u64),
    /// As many keys as expected have been tried.
    AnyMoment,
    /// There is no speed yet to go by.
    Calculating,
}

/// What is known of the time that a search will still take; `moving` says
/// whether a speed has been measured.
pub fn remaining(attempts: u64, expected: u64, moving: bool) -> (left: Remaining)
    ensures
        left == if attempts >= expected {
            Remaining::AnyMoment
        } else if moving {
            Remaining::Keys((expected - attempts) as u64)
        } else {
            Remaining::Calculating
        },
{
    if moving && attempts < expected {
        Remaining::Keys(expected - attempts)
    } else if attempts >= expected {
        Remaining::AnyMoment
    } else {
        Remaining::Calculating
    }
}

/// The remaining time as it is shown; `estimate` is the time that the keys
/// left will take, as text.
pub fn remaining_label(left: Remaining, estimate: &str) -> (label: String)
    ensures
        label@ == match left {
            Remaining::Keys(_) => estimate@,
            Remaining::AnyMoment => "any moment..."@,
            Remaining::Calculating => "calculating..."@,
        },
{
    match left {
        Remaining::Keys(_) => String::from_str(estimate),
        Remaining::AnyMoment => String::from_str("any moment..."),
        Remaining::Calculating => String::from_str("calculating..."),
    }
}

/// A key that the user pressed: the character, if it is one, and whether the
/// control key was held.
#[derive(Clone, Copy)]
pub struct KeyPress {
    pub character: Option<char>,
    pub control: bool,
}

/// What the progress display does after it was drawn.
#[derive(Clone, Copy, Debug, PartialEq, Eq, Structural)]
pub enum DisplayStep {
    /// The search is done: fetch its result.
    Finish,
    /// The user wants to leave.
    Quit,
    /// Draw again.
    Redraw,
}

/// Whether a key press ends the program: `q`, or `c` with the control key.
pub open spec fn is_quit(key: KeyPress) -> bool {
    key.character == Some('q') || (key.character == Some('c') && key.control)
}

/// Decides what the progress display does after it was drawn. A search that is
/// done is fetched whatever was pressed.
pub fn display_step(done: bool, key: Option<KeyPress>) -> (step: DisplayStep)
    ensures
        step == if done {
            DisplayStep::Finish
        } else if key matches Some(k) && is_quit(k) {
            DisplayStep::Quit
        } else {
            DisplayStep::Redraw
        },
{
    if done {
        return DisplayStep::Finish;
    }
    match key {
        Some(k) => match k.character {
            Some(c) => if c == 'q' || (c == 'c' && k.control) {
                DisplayStep::Quit
            } else {
                DisplayStep::Redraw
            },
            None => DisplayStep::Redraw,
        },
        None => DisplayStep::Redraw,
    }
}

/// The line above a result. `elapsed` is the time as text; the speed is that
/// of the whole search, unless no time was measured.
pub fn match_headline(attempts: u64, elapsed: &str, keys_per_sec: Option<u64>) -> (line: String)
    ensures
        line@ == " ✓ Match found!  "@ + grouped(decimal(attempts as nat)) + " attempts in "@
            + elapsed@ + " ("@ + (match keys_per_sec {
            Some(speed) => grouped(decimal(speed as nat)),
            None => "N/A"@,
        }) + " keys/sec)"@,
{
    let mut line = String::from_str(" ✓ Match found!  ");
    line.append(format_number(attempts).as_str());
    line.append(" attempts in ");
    line.append(elapsed);
    line.append(" (");
    match keys_per_sec {
        Some(speed) => line.append(format_number(speed).as_str()),
        None => line.append("N/A"),
    }
    line.append(" keys/sec)");
    line
}

/// The public key of a result in two parts: as many bytes as the matched prefix
/// has, and the rest.
pub fn highlighted_key<'a>(result: &'a SearchResult) -> (parts: (&'a str, &'a str))
    requires
        is_char_boundary(
            encode_utf8(result.public_key@),
            encode_utf8(result.matched_prefix@).len() as int,
        ),
    ensures
        parts.0@ + parts.1@ == result.public_key@,
        encode_utf8(parts.0@) == encode_utf8(result.public_key@).subrange(
            0,
            encode_utf8(result.matched_prefix@).len() as int,
        ),
        result.matched_prefix@.is_prefix_of(result.public_key@) ==> parts.0@
            == result.matched_prefix@,
{
    proof {
        if result.matched_prefix@.is_prefix_of(result.public_key@) {
            lemma_prefix_ends_at_boundary(result.matched_prefix@, result.public_key@);
            encode_utf8_decode_utf8(result.matched_prefix@);
        }
    }
    let parts = split_at_byte(
        result.public_key.as_str(),
        result.matched_prefix.as_str().as_bytes().len(),
    );
    proof {
        encode_utf8_decode_utf8(parts.0@);
    }
    parts
}

/// Where the public key of a result starts with the matched prefix, the key can
/// be shown with that prefix set apart.
pub proof fn law_matched_prefix_can_be_highlighted(public_key: Seq<char>, prefix: Seq<char>)
    requires
        prefix.is_prefix_of(public_key),
    ensures
        is_char_boundary(encode_utf8(public_key), encode_utf8(prefix).len() as int),
{
    lemma_prefix_ends_at_boundary(prefix, public_key);
}

/// The line on an error, for a terminal or for a program that reads along.
pub fn error_line(message: &str, plain: bool) -> (line: String)
    ensures
        line@ == if plain {
            "Error: "@ + message@
        } else {
            " ✗ Error: "@ + message@
        },
{
    let mut line = if plain {
        String::from_str("Error: ")
    } else {
        String::from_str(" ✗ Error: ")
    };
    line.append(message);
    line
}

/// The warning that a device cannot be used.
pub fn gpu_warning(kind: &str, reason: &str) -> (line: String)
    ensures
        line@ == "Warning: "@ + kind@ + " GPU unavailable ("@ + reason@ + "), using CPU only"@,
{
    let mut line = String::from_str("Warning: ");
    line.append(kind);
    line.append(" GPU unavailable (");
    line.append(reason);
    line.append("), using CPU only");
    line
}

/// The number of prefixes is told unless it is one.
pub proof fn law_count_suffix(count: nat)
    ensures
        count_suffix(1) == ""@,
        count != 1 ==> count_suffix(count) == ", "@ + decimal(count) + " prefixes"@,
{
}

/// The label of a mode names the devices where they take part and the threads
/// where they do, and ends with the number of prefixes.
pub proof fn law_mode_labels(names: Seq<Seq<char>>, threads: nat, prefixes: nat)
    ensures
        mode_text(SearchMode::Cpu, names, threads, prefixes) == decimal(threads) + " threads"@
            + count_suffix(prefixes),
        mode_text(SearchMode::Gpu, names, threads, prefixes) == joined(names, ", "@)
            + count_suffix(prefixes),
        mode_text(SearchMode::Hybrid, names, threads, prefixes) == joined(names, ", "@) + " + "@
            + mode_text(SearchMode::Cpu, names, threads, prefixes),
{
    assert(mode_text(SearchMode::Hybrid, names, threads, prefixes) =~= joined(names, ", "@)
        + " + "@ + mode_text(SearchMode::Cpu, names, threads, prefixes));
}

/// The program is left by `q`, held with the control key or not, by `c` with
/// the control key, and by nothing else.
pub proof fn law_quit_keys(key: KeyPress)
    ensures
        is_quit(key) <==> key.character is Some && (key.character->0 == 'q' || (
        key.character->0 == 'c' && key.control)),
{
}

} // verus!
