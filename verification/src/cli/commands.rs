//! The commands and global flags a command line parses into.
use vstd::prelude::*;

verus! {

/// Which stored response `response` shows.
#[derive(Debug, Clone, Copy, PartialEq, Eq)]
pub enum ResponseTarget {
    Last,
    /// 0-based index into the history.
    Index(usize),
    All,
}

/// Which part of a response `response` shows.
#[derive(Debug, Clone, Copy, PartialEq, Eq)]
pub enum ResponseView {
    Full,
    Body,
    Headers,
}

#[derive(Debug)]
pub enum Command {
    Method(String),
    Url(String),
    Header(String, String),
    HeaderRm(String),
    HeaderRmAll,
    Body(String),
    BodyRm,
    CookieRm(String),
    Timeout(u64),
    Var(String, String),
    VarRm(String),
    Send,
    Then(String),
    Expect(String),
    Curl,
    Show,
    Response(ResponseTarget, ResponseView),
    Reset,
    Save(String),
    Load(String),
}

/// A command with its text as plain sequences.
pub enum CommandV {
    Method(Seq<char>),
    Url(Seq<char>),
    Header(Seq<char>, Seq<char>),
    HeaderRm(Seq<char>),
    HeaderRmAll,
    Body(Seq<char>),
    BodyRm,
    CookieRm(Seq<char>),
    Timeout(u64),
    Var(Seq<char>, Seq<char>),
    VarRm(Seq<char>),
    Send,
    Then(Seq<char>),
    Expect(Seq<char>),
    Curl,
    Show,
    Response(ResponseTarget, ResponseView),
    Reset,
    Save(Seq<char>),
    Load(Seq<char>),
}

impl DeepView for Command {
    type V = CommandV;

    open spec fn deep_view(&self) -> CommandV {
        match self {
            Command::Method(s) => CommandV::Method(s@),
            Command::Url(s) => CommandV::Url(s@),
            Command::Header(k, v) => CommandV::Header(k@, v@),
            Command::HeaderRm(s) => CommandV::HeaderRm(s@),
            Command::HeaderRmAll => CommandV::HeaderRmAll,
            Command::Body(s) => CommandV::Body(s@),
            Command::BodyRm => CommandV::BodyRm,
            Command::CookieRm(s) => CommandV::CookieRm(s@),
            Command::Timeout(n) => CommandV::Timeout(*n),
            Command::Var(k, v) => CommandV::Var(k@, v@),
            Command::VarRm(s) => CommandV::VarRm(s@),
            Command::Send => CommandV::Send,
            Command::Then(s) => CommandV::Then(s@),
            Command::Expect(s) => CommandV::Expect(s@),
            Command::Curl => CommandV::Curl,
            Command::Show => CommandV::Show,
            Command::Response(t, v) => CommandV::Response(*t, *v),
            Command::Reset => CommandV::Reset,
            Command::Save(s) => CommandV::Save(s@),
            Command::Load(s) => CommandV::Load(s@),
        }
    }
}

/// Flags that apply to the whole invocation, wherever they appear among the
/// commands.
#[derive(Debug)]
pub struct GlobalFlags {
    pub insecure: bool,
    pub fail_on_error: bool,
    pub dry_run: bool,
    /// `help`/`-h`/`--help` and `-V`/`--version` in command position: usage
    /// or version is printed and no command runs.
    pub help: bool,
    pub version: bool,
    /// Follow 3xx redirects (opt-in, like `curl -L`).
    pub follow: bool,
    /// Extra attempts for send/then on a transient failure. None when the
    /// flag is absent; an explicit `--retry 0` caps an `--until` poll at one
    /// attempt.
    pub retry: Option<u32>,
    /// Poll: repeat send/then until this condition passes.
    pub until: Option<String>,
    /// Seconds to sleep between attempts.
    pub delay_secs: u64,
}

pub struct FlagsV {
    pub insecure: bool,
    pub fail_on_error: bool,
    pub dry_run: bool,
    pub help: bool,
    pub version: bool,
    pub follow: bool,
    pub retry: Option<u32>,
    pub until: Option<Seq<char>>,
    pub delay_secs: u64,
}

impl View for GlobalFlags {
    type V = FlagsV;

    open spec fn view(&self) -> FlagsV {
        FlagsV {
            insecure: self.insecure,
            fail_on_error: self.fail_on_error,
            dry_run: self.dry_run,
            help: self.help,
            version: self.version,
            follow: self.follow,
            retry: self.retry,
            until: self.until.deep_view(),
            delay_secs: self.delay_secs,
        }
    }
}

/// The flags of a command line that sets none.
pub open spec fn default_flags() -> FlagsV {
    FlagsV {
        insecure: false,
        fail_on_error: false,
        dry_run: false,
        help: false,
        version: false,
        follow: false,
        retry: None,
        until: None,
        delay_secs: 1,
    }
}

impl GlobalFlags {
    pub fn new() -> (r: GlobalFlags)
        ensures
            r@ == default_flags(),
    {
        GlobalFlags {
            insecure: false,
            fail_on_error: false,
            dry_run: false,
            help: false,
            version: false,
            follow: false,
            retry: None,
            until: None,
            delay_secs: 1,
        }
    }
}

impl Default for GlobalFlags {
    fn default() -> (r: Self)
        ensures
            r@ == default_flags(),
    {
        GlobalFlags::new()
    }
}

/// What remains to be shown once the commands have run.
#[derive(Debug)]
pub struct ParseResult {
    pub do_show: bool,
    pub do_response: Option<(ResponseTarget, ResponseView)>,
}

} // verus!
