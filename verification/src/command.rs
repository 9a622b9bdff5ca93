//! What the command line asks for, and the fixed choices of each command.

use vstd::prelude::*;
use vstd::string::*;

use crate::frequency::{parse_frequency, spec_parse_frequency};
use crate::text::{decimal, same_text, spec_decimal};

verus! {

/// Capture rate. Divides by ten to a 240 kHz multiplex and then by five to 48 kHz of audio, so
/// the whole chain is integer decimation with no fractional resampling.
pub const CAPTURE_RATE: u32 = 2_400_000;

/// Bytes in one bulk transfer.
pub const TRANSFER_BYTES: usize = 262_144;

/// A command and what it works on.
#[derive(Debug, Clone, Copy, PartialEq, Eq, Structural)]
pub enum Command {
    Info,
    Debug,
    Spectrum(u32),
    Scan,
    Fm(u32),
    Capture(u32),
}

/// The frequency that an argument gives, if it is there and is one.
pub open spec fn frequency_argument(args: Seq<String>) -> Option<u32> {
    if args.len() > 2 {
        spec_parse_frequency(args[2]@)
    } else {
        None
    }
}

/// What a command line asks for: the program's name, the command (which may be left out),
/// and a frequency where the command needs one. Otherwise, what to tell the user.
pub open spec fn spec_command(args: Seq<String>) -> Result<Command, Seq<char>> {
    let word = if args.len() > 1 {
        args[1]@
    } else {
        "info"@
    };
    let frequency = frequency_argument(args);
    if word == "info"@ {
        Ok(Command::Info)
    } else if word == "debug"@ {
        Ok(Command::Debug)
    } else if word == "spectrum"@ {
        match frequency {
            Some(f) => Ok(Command::Spectrum(f)),
            None => Err("usage: probe spectrum <frequency>"@),
        }
    } else if word == "scan"@ {
        Ok(Command::Scan)
    } else if word == "fm"@ {
        match frequency {
            Some(f) => Ok(Command::Fm(f)),
            None => Err("usage: probe fm <frequency, e.g. 98.5M> [seconds]"@),
        }
    } else if word == "capture"@ {
        match frequency {
            Some(f) => Ok(Command::Capture(f)),
            None => Err("usage: probe capture <frequency> [seconds]"@),
        }
    } else {
        Err("unknown command '"@ + word + "'. Try info, scan, fm or capture."@)
    }
}

/// Reads a command line.
pub fn parse_command(args: &Vec<String>) -> (command: Result<Command, String>)
    ensures
        match spec_command(args@) {
            Ok(c) => command == Ok::<Command, String>(c),
            Err(text) => command matches Err(message) && message@ == text,
        },
{
    let frequency = if args.len() > 2 {
        parse_frequency(args[2].as_str())
    } else {
        None
    };
    let word = if args.len() > 1 {
        args[1].as_str()
    } else {
        "info"
    };
    if same_text(word, "info") {
        Ok(Command::Info)
    } else if same_text(word, "debug") {
        Ok(Command::Debug)
    } else if same_text(word, "spectrum") {
        match frequency {
            Some(f) => Ok(Command::Spectrum(f)),
            None => Err("usage: probe spectrum <frequency>".to_owned()),
        }
    } else if same_text(word, "scan") {
        Ok(Command::Scan)
    } else if same_text(word, "fm") {
        match frequency {
            Some(f) => Ok(Command::Fm(f)),
            None => Err("usage: probe fm <frequency, e.g. 98.5M> [seconds]".to_owned()),
        }
    } else if same_text(word, "capture") {
        match frequency {
            Some(f) => Ok(Command::Capture(f)),
            None => Err("usage: probe capture <frequency> [seconds]".to_owned()),
        }
    } else {
        Err(
            "unknown command '".to_owned().concat(word).concat(
                "'. Try info, scan, fm or capture.",
            ),
        )
    }
}

/// Rounds a number of bytes up to whole transfers, so the decimation chain sees a clean block
/// boundary.
pub fn whole_transfers(bytes: usize) -> (rounded: usize)
    requires
        bytes <= usize::MAX - TRANSFER_BYTES,
    ensures
        rounded % TRANSFER_BYTES == 0,
        bytes <= rounded < bytes + TRANSFER_BYTES,
{
    let over: usize = bytes % TRANSFER_BYTES;
    if over == 0 {
        bytes
    } else {
        bytes + (TRANSFER_BYTES - over)
    }
}

/// The frequencies that a scan visits: the broadcast band, in steps comfortably inside the
/// captured bandwidth.
pub fn scan_frequencies() -> (frequencies: Vec<u32>)
    ensures
        frequencies@.len() == 103,
        forall|i: int| 0 <= i < 103 ==> #[trigger] frequencies@[i] == 87_500_000 + 200_000 * i,
{
    let mut frequencies: Vec<u32> = Vec::new();
    let mut freq: u32 = 87_500_000;
    while freq <= 108_000_000
        invariant
            freq == 87_500_000 + 200_000 * frequencies@.len(),
            frequencies@.len() <= 103,
            forall|i: int|
                0 <= i < frequencies@.len() ==> #[trigger] frequencies@[i] == 87_500_000 + 200_000
                    * i,
        decreases 108_200_000 - freq,
    {
        frequencies.push(freq);
        freq += 200_000;
    }
    frequencies
}

/// Where a raw capture is written.
pub fn capture_path(freq_hz: u32, rate: u32) -> (path: String)
    ensures
        path@ == "captures/"@ + spec_decimal(freq_hz as nat) + "Hz-"@ + spec_decimal(rate as nat)
            + "sps.cs8"@,
{
    let frequency = decimal(freq_hz as u64);
    let samples = decimal(rate as u64);
    "captures/".to_owned().concat(frequency.as_str()).concat("Hz-").concat(
        samples.as_str(),
    ).concat("sps.cs8")
}

/// A command is what it is called: each word asks for its own command and no other, `info` is
/// asked for by saying nothing, and the three commands that need a frequency work on the one
/// that is given.
pub proof fn commands_are_what_they_are_called(args: Seq<String>)
    ensures
        ({
            let said = args.len() > 1;
            let word = args[1]@;
            match spec_command(args) {
                Ok(Command::Info) => !said || word == seq!['i', 'n', 'f', 'o'],
                Ok(Command::Debug) => said && word == seq!['d', 'e', 'b', 'u', 'g'],
                Ok(Command::Scan) => said && word == seq!['s', 'c', 'a', 'n'],
                Ok(Command::Spectrum(f)) => word == seq!['s', 'p', 'e', 'c', 't', 'r', 'u', 'm']
                    && args.len() > 2 && spec_parse_frequency(args[2]@) == Some(f),
                Ok(Command::Fm(f)) => word == seq!['f', 'm'] && args.len() > 2
                    && spec_parse_frequency(args[2]@) == Some(f),
                Ok(Command::Capture(f)) => word == seq!['c', 'a', 'p', 't', 'u', 'r', 'e']
                    && args.len() > 2 && spec_parse_frequency(args[2]@) == Some(f),
                Err(_) => said && word != seq!['i', 'n', 'f', 'o'] && word != seq![
                    'd',
                    'e',
                    'b',
                    'u',
                    'g',
                ] && word != seq!['s', 'c', 'a', 'n'] && (word == seq!['f', 'm'] ==> args.len() <= 2
                    || spec_parse_frequency(args[2]@) is None),
            }
        }),
{
    reveal_strlit("info");
    reveal_strlit("debug");
    reveal_strlit("spectrum");
    reveal_strlit("scan");
    reveal_strlit("fm");
    reveal_strlit("capture");
    assert("info"@ =~= seq!['i', 'n', 'f', 'o']);
    assert("debug"@ =~= seq!['d', 'e', 'b', 'u', 'g']);
    assert("spectrum"@ =~= seq!['s', 'p', 'e', 'c', 't', 'r', 'u', 'm']);
    assert("scan"@ =~= seq!['s', 'c', 'a', 'n']);
    assert("fm"@ =~= seq!['f', 'm']);
    assert("capture"@ =~= seq!['c', 'a', 'p', 't', 'u', 'r', 'e']);
}

/// What is captured is whole transfers of 2^18 bytes, at a rate that ten and then five divide
/// down to 48 kHz.
pub proof fn capture_divides_down_to_audio()
    ensures
        TRANSFER_BYTES == 0x4_0000,
        CAPTURE_RATE == 10 * (5 * 48_000),
{
}

} // verus!
