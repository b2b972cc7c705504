use mc_keygen::display::{
    choose_mode, display_step, error_line, gauge_label, gpu_names_label, gpu_warning,
    highlighted_key, match_headline, mode_label, prefix_count_label, prefix_display, prefix_label,
    remaining, remaining_label, speed_label, DisplayStep, KeyPress, Remaining, SearchMode,
    QUIT_STATUS,
};
use mc_keygen::text::{contains, decimal_text, format_number, join, split_at_byte};
use mc_keygen::types::{SearchResult, SearchStats};

fn strings(texts: &[&str]) -> Vec<String> {
    texts.iter().map(|t| t.to_string()).collect()
}

fn press(character: char, control: bool) -> Option<KeyPress> {
    Some(KeyPress { character: Some(character), control })
}

#[test]
fn numbers_are_grouped() {
    assert_eq!(format_number(0), "0");
    assert_eq!(format_number(999), "999");
    assert_eq!(format_number(1000), "1,000");
    assert_eq!(format_number(65_536), "65,536");
    assert_eq!(format_number(1_048_576), "1,048,576");
    assert_eq!(format_number(u64::MAX), "18,446,744,073,709,551,615");
    assert_eq!(format_number(1_234_567).replace(',', ""), decimal_text(1_234_567));
}

#[test]
fn texts_are_joined_and_searched() {
    assert_eq!(join(&strings(&["a", "b", "c"]), ", "), "a, b, c");
    assert_eq!(join(&[], ", "), "");
    assert!(contains("there is no device", "no device"));
    assert!(!contains("nodevice", "no device"));
    assert!(contains("abc", ""));
    assert!(!contains("ab", "abc"));
    assert_eq!(split_at_byte("éa", 2), ("é", "a"));
}

#[test]
fn prefixes_are_shown() {
    assert_eq!(prefix_display(&strings(&["AB"])), "AB");
    assert_eq!(prefix_display(&strings(&["AB", "CD"])), "AB, CD");
    assert_eq!(prefix_label(1), "Searching for prefix: ");
    assert_eq!(prefix_label(3), "Searching for 3 prefixes: ");
    assert_eq!(prefix_count_label(1), "");
    assert_eq!(prefix_count_label(2), ", 2 prefixes");
}

#[test]
fn mode_follows_the_devices() {
    assert_eq!(choose_mode(false, 0), Ok(SearchMode::Cpu));
    assert_eq!(choose_mode(false, 1), Ok(SearchMode::Hybrid));
    assert_eq!(choose_mode(true, 1), Ok(SearchMode::Gpu));
    assert_eq!(
        choose_mode(true, 0),
        Err("--gpu-only requested but no GPU available".to_string())
    );
}

#[test]
fn modes_have_labels() {
    let names = strings(&["CUDA GPU (A)", "CUDA GPU (B)"]);
    assert_eq!(gpu_names_label(&names), "CUDA GPU (A), CUDA GPU (B)");
    assert_eq!(mode_label(SearchMode::Cpu, &[], 8, 1), "8 threads");
    assert_eq!(mode_label(SearchMode::Cpu, &[], 8, 2), "8 threads, 2 prefixes");
    assert_eq!(mode_label(SearchMode::Gpu, &names[..1], 8, 1), "CUDA GPU (A)");
    assert_eq!(
        mode_label(SearchMode::Hybrid, &names, 8, 3),
        "CUDA GPU (A), CUDA GPU (B) + 8 threads, 3 prefixes"
    );
}

#[test]
fn progress_is_shown() {
    let stats = SearchStats { attempts: 1500, expected_attempts: 4096, elapsed_nanos: 1 };
    assert_eq!(
        gauge_label("37", stats.attempts, stats.expected_attempts),
        "37%  (1,500/4,096)"
    );
    assert_eq!(speed_label(1_300_000), "1,300,000 keys/sec");
}

#[test]
fn remaining_time_is_told() {
    assert_eq!(remaining(10, 16, true), Remaining::Keys(6));
    assert_eq!(remaining(16, 16, true), Remaining::AnyMoment);
    assert_eq!(remaining(20, 16, false), Remaining::AnyMoment);
    assert_eq!(remaining(10, 16, false), Remaining::Calculating);
    assert_eq!(remaining_label(Remaining::Keys(6), "1.0s"), "1.0s");
    assert_eq!(remaining_label(Remaining::AnyMoment, "1.0s"), "any moment...");
    assert_eq!(remaining_label(Remaining::Calculating, "1.0s"), "calculating...");
}

#[test]
fn keys_end_the_program() {
    assert_eq!(display_step(false, press('q', false)), DisplayStep::Quit);
    assert_eq!(display_step(false, press('c', true)), DisplayStep::Quit);
    assert_eq!(display_step(false, press('c', false)), DisplayStep::Redraw);
    assert_eq!(display_step(false, press('x', true)), DisplayStep::Redraw);
    let other = Some(KeyPress { character: None, control: true });
    assert_eq!(display_step(false, other), DisplayStep::Redraw);
    assert_eq!(display_step(false, None), DisplayStep::Redraw);
    assert_eq!(display_step(true, press('q', false)), DisplayStep::Finish);
    assert_eq!(display_step(true, None), DisplayStep::Finish);
    assert_eq!(QUIT_STATUS, 130);
}

#[test]
fn result_is_shown() {
    assert_eq!(
        match_headline(12_345, "1.5s", Some(8230)),
        " ✓ Match found!  12,345 attempts in 1.5s (8,230 keys/sec)"
    );
    assert_eq!(
        match_headline(1, "0.0s", None),
        " ✓ Match found!  1 attempts in 0.0s (N/A keys/sec)"
    );
    let result = SearchResult {
        public_key: "ABCDEF".to_string(),
        private_key: String::new(),
        matched_prefix: "ABC".to_string(),
        attempts: 1,
        elapsed_nanos: 1,
    };
    assert_eq!(highlighted_key(&result), ("ABC", "DEF"));
}

#[test]
fn errors_and_warnings_are_shown() {
    assert_eq!(error_line("bad", true), "Error: bad");
    assert_eq!(error_line("bad", false), " ✗ Error: bad");
    assert_eq!(
        gpu_warning("CUDA", "no CUDA-capable GPU found"),
        "Warning: CUDA GPU unavailable (no CUDA-capable GPU found), using CPU only"
    );
}
