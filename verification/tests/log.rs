use boot_console::exit::QemuExitCode;
use boot_console::log::{write_log_line, LogLevel};
use boot_console::utils::{BufferFull, BufferWriter};

const LEVELS: [LogLevel; 8] = [
    LogLevel::NoLevel,
    LogLevel::Trace,
    LogLevel::Debug,
    LogLevel::Info,
    LogLevel::Warn,
    LogLevel::Error,
    LogLevel::Fatal,
    LogLevel::Panic,
];

fn line_of(level: LogLevel, debug_build: bool, file: &str, line: u32, message: &str) -> String {
    let mut storage: [u8; 512] = [0; 512];
    let mut writer = BufferWriter::new(&mut storage);
    assert_eq!(write_log_line(&mut writer, level, debug_build, file, line, message), Ok(()));
    writer.as_str().to_string()
}

#[test]
fn level_labels() {
    let labels: Vec<&str> = LEVELS.iter().map(|l| l.label()).collect();
    assert_eq!(labels, vec!["NONE", "TRACE", "DEBUG", "INFO", "WARN ", "ERROR", "FATAL", "PANIC"]);
}

#[test]
fn level_colors() {
    let colors: Vec<u32> = LEVELS.iter().map(|l| l.color()).collect();
    assert_eq!(
        colors,
        vec![0xffffff, 0x00cc00, 0xff0000, 0xffff00, 0xff0000, 0xcc0000, 0xcc0000, 0x0066cc]
    );
}

#[test]
fn level_ranks_ascend() {
    let ranks: Vec<u8> = LEVELS.iter().map(|l| l.severity()).collect();
    assert_eq!(ranks, vec![0, 1, 2, 3, 4, 5, 6, 7]);
}

#[test]
fn location_policy_of_each_level() {
    let debug: Vec<bool> = LEVELS.iter().map(|l| l.show_location(true)).collect();
    let release: Vec<bool> = LEVELS.iter().map(|l| l.show_location(false)).collect();
    assert_eq!(debug, vec![false, false, false, false, true, true, true, true]);
    assert_eq!(release, vec![false, false, false, false, false, true, true, true]);
}

#[test]
fn style_collects_the_three() {
    for level in LEVELS {
        for debug_build in [false, true] {
            let style = level.style(debug_build);
            assert_eq!(style.label, level.label());
            assert_eq!(style.color, level.color());
            assert_eq!(style.show_location, level.show_location(debug_build));
        }
    }
}

#[test]
fn error_line_names_its_place_in_both_builds() {
    assert_eq!(line_of(LogLevel::Error, true, "src/main.rs", 80, "boom"), "[ERROR] src/main.rs:80: boom");
    assert_eq!(line_of(LogLevel::Error, false, "src/main.rs", 80, "boom"), "[ERROR] src/main.rs:80: boom");
    assert_eq!(line_of(LogLevel::Fatal, false, "a.rs", 1, "x"), "[FATAL] a.rs:1: x");
    assert_eq!(line_of(LogLevel::Panic, true, "a.rs", 0, ""), "[PANIC] a.rs:0: ");
}

#[test]
fn info_line_never_names_its_place() {
    assert_eq!(line_of(LogLevel::Info, true, "src/main.rs", 66, "hello"), "[INFO] hello");
    assert_eq!(line_of(LogLevel::Info, false, "src/main.rs", 66, "hello"), "[INFO] hello");
    assert_eq!(line_of(LogLevel::Trace, true, "f", 1, "t"), "[TRACE] t");
    assert_eq!(line_of(LogLevel::Debug, true, "f", 1, "d"), "[DEBUG] d");
    assert_eq!(line_of(LogLevel::NoLevel, false, "f", 1, "n"), "[NONE] n");
}

#[test]
fn warn_line_names_its_place_in_debug_builds_only() {
    assert_eq!(line_of(LogLevel::Warn, true, "k.rs", 12, "careful"), "[WARN ] k.rs:12: careful");
    assert_eq!(line_of(LogLevel::Warn, false, "k.rs", 12, "careful"), "[WARN ] careful");
}

#[test]
fn line_number_is_decimal() {
    assert_eq!(line_of(LogLevel::Error, true, "f", u32::MAX, "m"), "[ERROR] f:4294967295: m");
    assert_eq!(line_of(LogLevel::Error, true, "f", 1000, "m"), "[ERROR] f:1000: m");
}

#[test]
fn line_appends_to_what_was_written() {
    let mut storage: [u8; 64] = [0; 64];
    let mut writer = BufferWriter::new(&mut storage);
    assert_eq!(writer.write_str("1 "), Ok(()));
    assert_eq!(write_log_line(&mut writer, LogLevel::Info, false, "f", 1, "a"), Ok(()));
    assert_eq!(write_log_line(&mut writer, LogLevel::Error, false, "f", 2, "b"), Ok(()));
    assert_eq!(writer.as_str(), "1 [INFO] a[ERROR] f:2: b");
}

#[test]
fn line_that_does_not_fit_is_dropped() {
    let line: &str = "[ERROR] src/main.rs:80: boom";
    for capacity in 2..line.len() + 2 {
        let mut storage: Vec<u8> = vec![0; capacity];
        let mut writer = BufferWriter::new(&mut storage);
        assert_eq!(writer.write_str("ab"), Ok(()));
        assert_eq!(
            write_log_line(&mut writer, LogLevel::Error, false, "src/main.rs", 80, "boom"),
            Err(BufferFull)
        );
        assert_eq!(writer.as_str(), "ab");
    }
    let mut storage: Vec<u8> = vec![0; line.len() + 2];
    let mut writer = BufferWriter::new(&mut storage);
    assert_eq!(writer.write_str("ab"), Ok(()));
    assert_eq!(write_log_line(&mut writer, LogLevel::Error, false, "src/main.rs", 80, "boom"), Ok(()));
    assert_eq!(&writer.as_str()[2..], line);
}

#[test]
fn message_longer_than_the_buffer_is_dropped() {
    let mut storage: [u8; 512] = [0; 512];
    let mut writer = BufferWriter::new(&mut storage);
    let message: String = "x".repeat(512);
    assert_eq!(write_log_line(&mut writer, LogLevel::Info, false, "f", 1, &message), Err(BufferFull));
    assert_eq!(writer.len(), 0);
    let message: String = "x".repeat(512 - "[INFO] ".len());
    assert_eq!(write_log_line(&mut writer, LogLevel::Info, false, "f", 1, &message), Ok(()));
    assert_eq!(writer.len(), 512);
}

#[test]
fn exit_codes_for_the_debug_exit_device() {
    assert_eq!(QemuExitCode::Success.code(), 0x10);
    assert_eq!(QemuExitCode::Failed.code(), 0x11);
}

#[test]
fn line_changes_only_the_bytes_it_takes() {
    let mut storage: [u8; 20] = [0xee; 20];
    {
        let mut writer = BufferWriter::new(&mut storage);
        assert_eq!(writer.write_str("> "), Ok(()));
        assert_eq!(write_log_line(&mut writer, LogLevel::Error, false, "f", 7, "no"), Ok(()));
        assert_eq!(writer.as_str(), "> [ERROR] f:7: no");
    }
    assert_eq!(&storage[..17], b"> [ERROR] f:7: no");
    assert_eq!(&storage[17..], &[0xee, 0xee, 0xee]);
}

#[test]
fn line_leaves_the_rest_of_the_buffer() {
    let mut storage: [u8; 12] = [0xee; 12];
    {
        let mut writer = BufferWriter::new(&mut storage);
        assert_eq!(write_log_line(&mut writer, LogLevel::Info, true, "f", 7, "ok"), Ok(()));
        assert_eq!(writer.as_str(), "[INFO] ok");
    }
    assert_eq!(&storage[..9], b"[INFO] ok");
    assert_eq!(&storage[9..], &[0xee, 0xee, 0xee]);
}
