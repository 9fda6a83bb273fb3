//! Where a WebDriver listens and how it is started; the process itself is
//! run by the program.

use vstd::prelude::*;
use crate::text;
use crate::cli::BrowserDriver;

verus! {

/// A WebDriver of one kind on one local port.
pub struct DriverManager {
    pub driver: BrowserDriver,
    pub port: u16,
}

/// The number of one-second probes made while waiting for a started driver.
pub const READY_ATTEMPTS: u32 = 30;

/// `http://localhost:` followed by the port.
pub open spec fn local_url(port: u16) -> Seq<char> {
    "http://localhost:"@ + text::nat_digits(port as nat)
}

/// The arguments that start `driver` on `port`.
pub open spec fn launch_args_of(driver: BrowserDriver, port: u16) -> Seq<Seq<char>> {
    let p = text::nat_digits(port as nat);
    match driver {
        BrowserDriver::Chrome => seq!["--port="@ + p],
        BrowserDriver::Firefox => seq!["--port"@, p],
        BrowserDriver::Safari => seq!["--port"@, p, "--enable"@],
    }
}

/// What to do after probing a starting driver: it answered, wait a second
/// and probe again, or give up.
#[derive(Debug, Clone, Copy, PartialEq, Eq, Structural)]
pub enum ReadyStep {
    Ready,
    WaitAndRetry,
    GiveUp,
}

/// The step after probe number `attempt` (counted from 1) of
/// `READY_ATTEMPTS`.
pub open spec fn ready_step_of(attempt: u32, answered: bool) -> ReadyStep {
    if answered {
        ReadyStep::Ready
    } else if attempt < READY_ATTEMPTS {
        ReadyStep::WaitAndRetry
    } else {
        ReadyStep::GiveUp
    }
}

/// The step after probe number `attempt` of a starting driver.
pub fn ready_step(attempt: u32, answered: bool) -> (r: ReadyStep)
    ensures
        r == ready_step_of(attempt, answered),
{
    if answered {
        ReadyStep::Ready
    } else if attempt < READY_ATTEMPTS {
        ReadyStep::WaitAndRetry
    } else {
        ReadyStep::GiveUp
    }
}

impl DriverManager {
    /// A driver on `port`, or on the driver's default port when none is
    /// given.
    pub fn new(driver: BrowserDriver, port: Option<u16>) -> (r: Self)
        ensures
            r.driver == driver,
            r.port == match port {
                Some(p) => p,
                None => driver.spec_default_port(),
            },
    {
        let port = match port {
            Some(p) => p,
            None => driver.default_port(),
        };
        DriverManager { driver, port }
    }

    /// The URL to connect to the driver at.
    pub fn url(&self) -> (r: String)
        ensures
            r@ == local_url(self.port),
    {
        let mut v = text::chars_of("http://localhost:");
        text::append_chars(&mut v, &text::u64_digits(self.port as u64));
        text::string_from_chars(&v)
    }

    /// The URL that answers once the driver is up.
    pub fn status_url(&self) -> (r: String)
        ensures
            r@ == local_url(self.port) + "/status"@,
    {
        let mut v = text::chars_of("http://localhost:");
        text::append_chars(&mut v, &text::u64_digits(self.port as u64));
        text::append_chars(&mut v, &text::chars_of("/status"));
        text::string_from_chars(&v)
    }

    /// What to tell the user when the driver's executable is not installed.
    pub fn missing_message(&self) -> (r: String)
        ensures
            r@ == self.driver.spec_driver_name()
                + " not found. Please install it:\n  - Firefox: brew install geckodriver\n  - Chrome: brew install chromedriver\n  - Safari: safaridriver --enable"@,
    {
        let mut v = text::chars_of(self.driver.driver_name());
        text::append_str(
            &mut v,
            " not found. Please install it:\n  - Firefox: brew install geckodriver\n  - Chrome: brew install chromedriver\n  - Safari: safaridriver --enable",
        );
        text::string_from_chars(&v)
    }

    /// The arguments to start the driver's executable with.
    pub fn launch_args(&self) -> (r: Vec<String>)
        ensures
            text::str_views(r@) == launch_args_of(self.driver, self.port),
    {
        let p = text::u64_digits(self.port as u64);
        let mut r: Vec<String> = Vec::new();
        match self.driver {
            BrowserDriver::Chrome => {
                let mut a = text::chars_of("--port=");
                text::append_chars(&mut a, &p);
                r.push(text::string_from_chars(&a));
            },
            BrowserDriver::Firefox => {
                r.push(text::string_from_chars(&text::chars_of("--port")));
                r.push(text::string_from_chars(&p));
            },
            BrowserDriver::Safari => {
                r.push(text::string_from_chars(&text::chars_of("--port")));
                r.push(text::string_from_chars(&p));
                r.push(text::string_from_chars(&text::chars_of("--enable")));
            },
        }
        assert(text::str_views(r@) =~= launch_args_of(self.driver, self.port));
        r
    }
}

} // verus!
