//! Three sinks: console, event log and raw dumps of each stream.
//!
//! The raw dumps are the point: byte-exact streams to diff, replay or feed to a
//! parser later. Events are for querying and the console is for watching.
pub mod budget;
pub mod event;
pub mod laws;
pub mod lines;
pub mod logger;
pub mod reports;
pub mod table;

pub use logger::{Logger, Options, Stats};

use crate::text;
use crate::text::{chars_of, lower_chars_of, quote, same_text, text_of};
use vstd::prelude::*;

verus! {

/// How messages are shown on the console.
#[derive(Clone, Copy, PartialEq, Eq, Debug, Structural)]
pub enum ConsoleMode {
    Hex,
    Ascii,
    Summary,
    Off,
}

/// The console mode of a given name, in lower case.
pub open spec fn mode_named(name: Seq<char>) -> Option<ConsoleMode> {
    if name == "hex"@ {
        Some(ConsoleMode::Hex)
    } else if name == "ascii"@ {
        Some(ConsoleMode::Ascii)
    } else if name == "summary"@ {
        Some(ConsoleMode::Summary)
    } else if name == "none"@ || name == "off"@ {
        Some(ConsoleMode::Off)
    } else {
        None
    }
}

/// What is said of a name, as it is quoted, that no console mode has.
pub open spec fn unknown_of(quoted: Seq<char>) -> Seq<char> {
    "unknown console mode "@ + quoted
}

/// What is said of a name, as it is quoted, that no console mode has.
pub fn unknown_line(quoted: &str) -> (out: String)
    ensures
        out@ == unknown_of(quoted@),
{
    let mut out = String::new();
    out.append("unknown console mode ");
    out.append(quoted);
    assert(out@ =~= unknown_of(quoted@));
    out
}

impl ConsoleMode {
    /// The console mode of a given name, in any case.
    pub fn named(s: &str) -> (mode: Option<ConsoleMode>)
        ensures
            mode == mode_named(text::lower(s@)),
    {
        let low = text_of(lower_chars_of(chars_of(s).as_slice()).as_slice());
        if same_text(low.as_str(), "hex") {
            Some(ConsoleMode::Hex)
        } else if same_text(low.as_str(), "ascii") {
            Some(ConsoleMode::Ascii)
        } else if same_text(low.as_str(), "summary") {
            Some(ConsoleMode::Summary)
        } else if same_text(low.as_str(), "none") || same_text(low.as_str(), "off") {
            Some(ConsoleMode::Off)
        } else {
            None
        }
    }

    /// The console mode of a given name, or what is said of a name that there is
    /// not.
    pub fn parse(s: &str) -> (mode: Result<ConsoleMode, String>)
        ensures
            match mode {
                Ok(m) => mode_named(text::lower(s@)) == Some(m),
                Err(e) => mode_named(text::lower(s@)) is None && e@ == unknown_of(
                    text::quoted(text::lower(s@)),
                ),
            },
    {
        match ConsoleMode::named(s) {
            Some(m) => Ok(m),
            None => {
                let low = text_of(lower_chars_of(chars_of(s).as_slice()).as_slice());
                Err(unknown_line(quote(low.as_str()).as_str()))
            },
        }
    }
}

impl std::str::FromStr for ConsoleMode {
    type Err = String;

    fn from_str(s: &str) -> (mode: Result<Self, String>)
        ensures
            match mode {
                Ok(m) => mode_named(text::lower(s@)) == Some(m),
                Err(e) => mode_named(text::lower(s@)) is None && e@ == unknown_of(
                    text::quoted(text::lower(s@)),
                ),
            },
    {
        ConsoleMode::parse(s)
    }
}

/// Which way bytes go.
#[derive(Clone, Copy, PartialEq, Eq, Debug, Structural)]
pub enum Dir {
    Rx,
    Tx,
}

impl Dir {
    /// The name of a direction.
    pub open spec fn name(self) -> Seq<char> {
        match self {
            Dir::Rx => "rx"@,
            Dir::Tx => "tx"@,
        }
    }

    /// The arrow of a direction.
    pub open spec fn shape(self) -> Seq<char> {
        match self {
            Dir::Rx => "-->"@,
            Dir::Tx => "<--"@,
        }
    }

    /// The name of a direction.
    pub fn tag(self) -> (out: &'static str)
        ensures
            out@ == self.name(),
    {
        match self {
            Dir::Rx => "rx",
            Dir::Tx => "tx",
        }
    }

    /// The arrow of a direction.
    pub fn arrow(self) -> (out: &'static str)
        ensures
            out@ == self.shape(),
    {
        match self {
            Dir::Rx => "-->",
            Dir::Tx => "<--",
        }
    }
}

} // verus!
