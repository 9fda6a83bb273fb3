//! The command line: options that commands take, and what the commands
//! decide.

use vstd::prelude::*;

pub mod auth;
pub mod commands;
pub mod driver;

verus! {

/// Browsers whose WebDriver can run the Bandcamp login.
#[derive(Debug, Clone, Copy, PartialEq, Eq, Structural)]
pub enum BrowserDriver {
    Firefox,
    Chrome,
    Safari,
}

impl BrowserDriver {
    /// The port the driver listens on by default.
    pub open spec fn spec_default_port(self) -> u16 {
        match self {
            BrowserDriver::Firefox => 4444,
            BrowserDriver::Chrome => 9515,
            BrowserDriver::Safari => 4444,
        }
    }

    /// The port the driver listens on by default.
    pub fn default_port(&self) -> (p: u16)
        ensures
            p == self.spec_default_port(),
    {
        match self {
            BrowserDriver::Firefox => 4444,
            BrowserDriver::Chrome => 9515,
            BrowserDriver::Safari => 4444,
        }
    }

    /// The name of the driver's executable.
    pub open spec fn spec_driver_name(self) -> Seq<char> {
        match self {
            BrowserDriver::Firefox => "geckodriver"@,
            BrowserDriver::Chrome => "chromedriver"@,
            BrowserDriver::Safari => "safaridriver"@,
        }
    }

    /// The name of the driver's executable.
    pub fn driver_name(&self) -> (n: &'static str)
        ensures
            n@ == self.spec_driver_name(),
    {
        match self {
            BrowserDriver::Firefox => "geckodriver",
            BrowserDriver::Chrome => "chromedriver",
            BrowserDriver::Safari => "safaridriver",
        }
    }
}

/// The services that `auth` logs in to, with their options.
pub enum AuthService {
    Bandcamp {
        headless: bool,
        driver: BrowserDriver,
        driver_port: Option<u16>,
        username: Option<String>,
        password: Option<String>,
        cookie: Option<String>,
        force: bool,
    },
    Webdav { url: String, username: Option<String>, password: Option<String> },
}

/// The audio formats that `sync` and `import-cd` offer.
#[derive(Debug, Clone, Copy, PartialEq, Eq, Structural)]
pub enum AudioFormat {
    Aac,
    Mp3,
    Flac,
    Wav,
}

impl AudioFormat {
    /// The storage format of the same name.
    pub fn to_storage(&self) -> (r: crate::storage::AudioFormat)
        ensures
            r == match self {
                AudioFormat::Aac => crate::storage::AudioFormat::Aac,
                AudioFormat::Mp3 => crate::storage::AudioFormat::Mp3,
                AudioFormat::Flac => crate::storage::AudioFormat::Flac,
                AudioFormat::Wav => crate::storage::AudioFormat::Wav,
            },
    {
        match self {
            AudioFormat::Aac => crate::storage::AudioFormat::Aac,
            AudioFormat::Mp3 => crate::storage::AudioFormat::Mp3,
            AudioFormat::Flac => crate::storage::AudioFormat::Flac,
            AudioFormat::Wav => crate::storage::AudioFormat::Wav,
        }
    }
}

/// How `list` prints the collection.
#[derive(Debug, Clone, Copy, PartialEq, Eq, Structural)]
pub enum OutputFormat {
    Table,
    Json,
    Csv,
}

/// Runs the commands of the command line.
pub struct CommandHandler;

} // verus!
