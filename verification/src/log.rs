//! Severity levels and the line that a leveled message becomes.

use crate::utils::{
    digits, lemma_overlay_from_parts, overlay, put_byte, put_bytes, put_number, BufferFull,
    BufferWriter,
};
use vstd::prelude::*;
use vstd::string::StringSliceAdditionalSpecFns;

verus! {

/// The severity of a message, from the least to the most severe.
#[derive(Debug, Clone, Copy, PartialEq, Eq)]
pub enum LogLevel {
    NoLevel,
    Trace,
    Debug,
    Info,
    Warn,
    Error,
    Fatal,
    Panic,
}

/// What a level looks like on the console: the label between the brackets,
/// the color of the bracketed label, and whether the line names the place in
/// the source that logged it.
#[derive(Debug, Clone, Copy)]
pub struct LevelStyle {
    pub label: &'static str,
    pub color: u32,
    pub show_location: bool,
}

impl LogLevel {
    /// The rank of the level: 0 for `NoLevel`, 7 for `Panic`.
    pub open spec fn spec_severity(self) -> u8 {
        match self {
            LogLevel::NoLevel => 0,
            LogLevel::Trace => 1,
            LogLevel::Debug => 2,
            LogLevel::Info => 3,
            LogLevel::Warn => 4,
            LogLevel::Error => 5,
            LogLevel::Fatal => 6,
            LogLevel::Panic => 7,
        }
    }

    /// The label of the level; the warning's label ends in a space.
    pub open spec fn spec_label(self) -> &'static str {
        match self {
            LogLevel::NoLevel => "NONE",
            LogLevel::Trace => "TRACE",
            LogLevel::Debug => "DEBUG",
            LogLevel::Info => "INFO",
            LogLevel::Warn => "WARN ",
            LogLevel::Error => "ERROR",
            LogLevel::Fatal => "FATAL",
            LogLevel::Panic => "PANIC",
        }
    }

    /// The color of the level.
    pub open spec fn spec_color(self) -> u32 {
        match self {
            LogLevel::NoLevel => 0xffffff,
            LogLevel::Trace => 0x00cc00,
            LogLevel::Debug => 0xff0000,
            LogLevel::Info => 0xffff00,
            LogLevel::Warn => 0xff0000,
            LogLevel::Error => 0xcc0000,
            LogLevel::Fatal => 0xcc0000,
            LogLevel::Panic => 0x0066cc,
        }
    }

    /// Whether a line of this level names its place in the source: always
    /// from `Error` up, never below `Warn`, and for `Warn` in debug builds
    /// only.
    pub open spec fn spec_show_location(self, debug_build: bool) -> bool {
        match self {
            LogLevel::NoLevel | LogLevel::Trace | LogLevel::Debug | LogLevel::Info => false,
            LogLevel::Warn => debug_build,
            LogLevel::Error | LogLevel::Fatal | LogLevel::Panic => true,
        }
    }

    /// The rank of the level: 0 for `NoLevel`, 7 for `Panic`.
    pub fn severity(self) -> (rank: u8)
        ensures
            rank == self.spec_severity(),
    {
        match self {
            LogLevel::NoLevel => 0,
            LogLevel::Trace => 1,
            LogLevel::Debug => 2,
            LogLevel::Info => 3,
            LogLevel::Warn => 4,
            LogLevel::Error => 5,
            LogLevel::Fatal => 6,
            LogLevel::Panic => 7,
        }
    }

    /// The label of the level.
    pub fn label(self) -> (label: &'static str)
        ensures
            label == self.spec_label(),
    {
        match self {
            LogLevel::NoLevel => "NONE",
            LogLevel::Trace => "TRACE",
            LogLevel::Debug => "DEBUG",
            LogLevel::Info => "INFO",
            LogLevel::Warn => "WARN ",
            LogLevel::Error => "ERROR",
            LogLevel::Fatal => "FATAL",
            LogLevel::Panic => "PANIC",
        }
    }

    /// The color of the level.
    pub fn color(self) -> (color: u32)
        ensures
            color == self.spec_color(),
    {
        match self {
            LogLevel::NoLevel => 0xffffff,
            LogLevel::Trace => 0x00cc00,
            LogLevel::Debug => 0xff0000,
            LogLevel::Info => 0xffff00,
            LogLevel::Warn => 0xff0000,
            LogLevel::Error => 0xcc0000,
            LogLevel::Fatal => 0xcc0000,
            LogLevel::Panic => 0x0066cc,
        }
    }

    /// Whether a line of this level names its place in the source.
    pub fn show_location(self, debug_build: bool) -> (show: bool)
        ensures
            show == self.spec_show_location(debug_build),
    {
        match self {
            LogLevel::NoLevel | LogLevel::Trace | LogLevel::Debug | LogLevel::Info => false,
            LogLevel::Warn => debug_build,
            LogLevel::Error | LogLevel::Fatal | LogLevel::Panic => true,
        }
    }

    /// Label, color and location policy of the level in one value.
    pub fn style(self, debug_build: bool) -> (style: LevelStyle)
        ensures
            style.label == self.spec_label(),
            style.color == self.spec_color(),
            style.show_location == self.spec_show_location(debug_build),
    {
        LevelStyle {
            label: self.label(),
            color: self.color(),
            show_location: self.show_location(debug_build),
        }
    }
}

/// The place in the source that a line names: `file`, a colon, the line
/// number in decimal, a colon and a space.
pub open spec fn location_text(file: Seq<u8>, line: u32) -> Seq<u8> {
    file + seq![0x3au8] + digits(line as nat, 10) + seq![0x3au8, 0x20u8]
}

/// What precedes the message on a line: the label in brackets and a space,
/// then the place in the source if the level shows it.
pub open spec fn log_prefix(level: LogLevel, debug_build: bool, file: Seq<u8>, line: u32) -> Seq<u8> {
    seq![0x5bu8] + level.spec_label().spec_bytes() + seq![0x5du8, 0x20u8] + if level.spec_show_location(
        debug_build,
    ) {
        location_text(file, line)
    } else {
        Seq::empty()
    }
}

/// The bytes of a whole line.
pub open spec fn log_line(
    level: LogLevel,
    debug_build: bool,
    file: Seq<u8>,
    line: u32,
    message: Seq<u8>,
) -> Seq<u8> {
    log_prefix(level, debug_build, file, line) + message
}

/// An `Error`, `Fatal` or `Panic` line names its place in the source and a
/// line below `Warn` never does, in debug builds and in release builds alike.
pub proof fn lemma_location_policy(
    level: LogLevel,
    debug_build: bool,
    file: Seq<u8>,
    line: u32,
    message: Seq<u8>,
)
    ensures
        level.spec_severity() >= 5 ==> log_line(level, debug_build, file, line, message) == seq![
            0x5bu8,
        ] + level.spec_label().spec_bytes() + seq![0x5du8, 0x20u8] + location_text(file, line)
            + message,
        level.spec_severity() <= 3 ==> log_line(level, debug_build, file, line, message) == seq![
            0x5bu8,
        ] + level.spec_label().spec_bytes() + seq![0x5du8, 0x20u8] + message,
        log_line(level, true, file, line, message) == log_line(level, false, file, line, message)
            <== level != LogLevel::Warn,
{
    let head = seq![0x5bu8] + level.spec_label().spec_bytes() + seq![0x5du8, 0x20u8];
    assert(head + Seq::<u8>::empty() =~= head);
}

/// Appends the line of a message to `writer`: `[LABEL] ` and the message,
/// with `file:line: ` between them if the level shows its location.  A line
/// that does not fit is dropped as a whole: the writer then holds what it
/// held, though the unwritten bytes of its buffer may have taken the
/// beginning of the line.
pub fn write_log_line(
    writer: &mut BufferWriter,
    level: LogLevel,
    debug_build: bool,
    file: &str,
    line: u32,
    message: &str,
) -> (res: Result<(), BufferFull>)
    ensures
        final(writer).spec_capacity() == old(writer).spec_capacity(),
        res is Ok <==> old(writer)@.len() + log_line(
            level,
            debug_build,
            file.spec_bytes(),
            line,
            message.spec_bytes(),
        ).len() <= old(writer).spec_capacity(),
        res is Ok ==> final(writer)@ == old(writer)@ + log_line(
            level,
            debug_build,
            file.spec_bytes(),
            line,
            message.spec_bytes(),
        ),
        res is Ok ==> final(writer).spec_storage() == overlay(
            old(writer).spec_storage(),
            old(writer)@.len() as int,
            log_line(level, debug_build, file.spec_bytes(), line, message.spec_bytes()),
        ),
        res is Err ==> final(writer)@ == old(writer)@,
{
    let ghost start = writer@;
    let ghost base = writer.spec_storage();
    let ghost label = level.spec_label().spec_bytes();
    let ghost place = location_text(file.spec_bytes(), line);
    let mark: usize = writer.len();
    assert(start.subrange(0, mark as int) =~= start);
    if !put_byte(writer, mark, 0x5b, Ghost(base)) {
        return Err(BufferFull);
    }
    if !put_bytes(writer, mark, level.label().as_bytes(), Ghost(base)) {
        assert(writer@ =~= start);
        return Err(BufferFull);
    }
    if !put_byte(writer, mark, 0x5d, Ghost(base)) {
        assert(writer@ =~= start);
        return Err(BufferFull);
    }
    if !put_byte(writer, mark, 0x20, Ghost(base)) {
        assert(writer@ =~= start);
        return Err(BufferFull);
    }
    let ghost head = seq![0x5bu8] + label + seq![0x5du8, 0x20u8];
    assert(writer@ =~= start + head);
    if level.show_location(debug_build) {
        if !put_bytes(writer, mark, file.as_bytes(), Ghost(base)) {
            assert(writer@ =~= start);
            return Err(BufferFull);
        }
        if !put_byte(writer, mark, 0x3a, Ghost(base)) {
            assert(writer@ =~= start);
            return Err(BufferFull);
        }
        if !put_number(writer, mark, line as u64, 10, Ghost(base)) {
            assert(writer@ =~= start);
            return Err(BufferFull);
        }
        if !put_byte(writer, mark, 0x3a, Ghost(base)) {
            assert(writer@ =~= start);
            return Err(BufferFull);
        }
        if !put_byte(writer, mark, 0x20, Ghost(base)) {
            assert(writer@ =~= start);
            return Err(BufferFull);
        }
        assert(writer@ =~= start + (head + place));
    } else {
        assert(writer@ =~= start + (head + Seq::<u8>::empty()));
    }
    let ghost prefix = log_prefix(level, debug_build, file.spec_bytes(), line);
    assert(writer@ == start + prefix);
    if !put_bytes(writer, mark, message.as_bytes(), Ghost(base)) {
        assert(writer@ =~= start);
        return Err(BufferFull);
    }
    assert(writer@ =~= start + (prefix + message.spec_bytes()));
    proof {
        lemma_overlay_from_parts(
            writer.spec_storage(),
            base,
            start,
            prefix + message.spec_bytes(),
        );
    }
    Ok(())
}

} // verus!
