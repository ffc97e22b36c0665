//! The authorization hook: a shell command whose output gives the metadata
//! that requests are sent with.
use vstd::prelude::*;

use crate::request::StateIcon;
use crate::text::push_str;

verus! {

/// What `shell_words::split` makes of a command line: its words, or nothing
/// when a quote is left open.
pub uninterp spec fn shell_split(line: Seq<char>) -> Option<Seq<Seq<char>>>;

/// The words of `words` as texts.
pub open spec fn word_texts(words: Seq<String>) -> Seq<Seq<char>> {
    words.map_values(|w: String| w@)
}

/// The error text of a command line with a quote left open.
pub open spec fn open_quote_message() -> Seq<char> {
    "missing closing quote"@
}

/// The error text of a command line without words.
pub open spec fn no_arguments_message() -> Seq<char> {
    "no arguments"@
}

/// Splits `line` into words with `shell_words::split`. The contract claims
/// that the outcome is the named result of the line, and that the error text
/// is the one `shell_words::ParseError` displays.
#[verifier::external_body]
fn split_shell(line: &str) -> (res: Result<Vec<String>, String>)
    ensures
        match res {
            Ok(words) => shell_split(line@) == Some(word_texts(words@)),
            Err(e) => shell_split(line@) is None && e@ == open_quote_message(),
        },
{
    shell_words::split(line).map_err(|err| err.to_string())
}

/// The command line of an authorization hook and the words it runs.
#[derive(Debug, Clone)]
pub struct AuthorizationHook {
    shell: String,
    args: Vec<String>,
}

/// What a command line makes: its words when there is at least one, else the
/// error text.
pub open spec fn spec_hook_args(line: Seq<char>) -> Result<Seq<Seq<char>>, Seq<char>> {
    match shell_split(line) {
        Some(words) => if words.len() > 0 {
            Ok(words)
        } else {
            Err(no_arguments_message())
        },
        None => Err(open_quote_message()),
    }
}

impl AuthorizationHook {
    pub closed spec fn spec_shell(&self) -> Seq<char> {
        self.shell@
    }

    pub closed spec fn spec_args(&self) -> Seq<Seq<char>> {
        word_texts(self.args@)
    }

    /// A hook running `shell`, split into words as a shell would; refused
    /// when a quote is left open or there is no word.
    pub fn new(shell: String) -> (res: Result<AuthorizationHook, String>)
        ensures
            match res {
                Ok(hook) => hook.spec_shell() == shell@ && spec_hook_args(shell@) == Ok::<
                    Seq<Seq<char>>,
                    Seq<char>,
                >(hook.spec_args()),
                Err(e) => spec_hook_args(shell@) == Err::<Seq<Seq<char>>, Seq<char>>(e@),
            },
            res matches Ok(hook) ==> hook.spec_args().len() > 0,
    {
        let args = split_shell(shell.as_str())?;
        if args.len() == 0 {
            proof {
                reveal_strlit("no arguments");
            }
            return Err("no arguments".to_owned());
        }
        Ok(AuthorizationHook { shell, args })
    }

    /// The command line the hook was made from.
    pub fn shell(&self) -> (res: &str)
        ensures
            res@ == self.spec_shell(),
    {
        self.shell.as_str()
    }

    /// The program the hook runs.
    pub fn program(&self) -> (res: &str)
        requires
            self.spec_args().len() > 0,
        ensures
            res@ == self.spec_args()[0],
    {
        self.args[0].as_str()
    }

    /// The words after the program.
    pub fn arguments(&self) -> (res: &[String])
        requires
            self.spec_args().len() > 0,
        ensures
            word_texts(res@) == self.spec_args().skip(1),
    {
        let res = vstd::slice::slice_subrange(self.args.as_slice(), 1, self.args.len());
        proof {
            assert(word_texts(res@) =~= self.spec_args().skip(1));
        }
        res
    }
}

/// What the command box of the authorization options stands for: no hook
/// when it is empty, else the hook its text makes.
pub fn validate_hook(s: &String) -> (res: Result<Option<AuthorizationHook>, String>)
    ensures
        match res {
            Ok(None) => s@.len() == 0,
            Ok(Some(hook)) => s@.len() > 0 && hook.spec_shell() == s@ && spec_hook_args(s@) == Ok::<
                Seq<Seq<char>>,
                Seq<char>,
            >(hook.spec_args()),
            Err(e) => s@.len() > 0 && spec_hook_args(s@) == Err::<Seq<Seq<char>>, Seq<char>>(e@),
        },
{
    if s.as_str().unicode_len() == 0 {
        return Ok(None);
    }
    let hook = AuthorizationHook::new(s.clone())?;
    Ok(Some(hook))
}

/// The headers a hook gave last time are used again only when they carry an
/// expiry more than five minutes (300 s) away; `remaining_nanos` is the time
/// left until that expiry, in nanoseconds, or nothing when there are no
/// headers yet or they carry no expiry.
pub fn reuse_cached_headers(remaining_nanos: Option<i128>) -> (b: bool)
    ensures
        b <==> (remaining_nanos matches Some(r) && r > 300_000_000_000),
{
    match remaining_nanos {
        Some(r) => r > 300_000_000_000,
        None => false,
    }
}

/// What an authorization hook remembers of its last successful run: the
/// headers it gave, `H`, and when they expire, in nanoseconds since the
/// epoch, if they carry an expiry.
#[derive(Debug)]
pub struct HeaderCache<H> {
    entry: Option<(H, Option<i128>)>,
}

impl<H> HeaderCache<H> {
    pub closed spec fn spec_entry(&self) -> Option<(H, Option<i128>)> {
        self.entry
    }

    /// Nothing remembered yet.
    pub fn new() -> (res: Self)
        ensures
            res.spec_entry() is None,
    {
        HeaderCache { entry: None }
    }

    /// The remembered headers, to be used again at `now_nanos` instead of
    /// running the hook: only where they carry an expiry more than five
    /// minutes (300 s) later.
    pub fn reusable(&self, now_nanos: i128) -> (res: Option<&H>)
        ensures
            match self.spec_entry() {
                Some((h, Some(e))) => if e > now_nanos + 300_000_000_000 {
                    res == Some(&h)
                } else {
                    res is None
                },
                _ => res is None,
            },
    {
        match &self.entry {
            Some((h, Some(e))) => match now_nanos.checked_add(300_000_000_000) {
                Some(limit) => if *e > limit {
                    Some(h)
                } else {
                    None
                },
                None => None,
            },
            _ => None,
        }
    }

    /// Records how a run of the hook went: headers it gave, with their
    /// expiry, replace what was remembered; a failed run leaves it, and its
    /// error is passed on.
    pub fn record_run(&mut self, run: Result<(H, Option<i128>), String>) -> (res: Result<(), String>)
        ensures
            match run {
                Ok(entry) => final(self).spec_entry() == Some(entry) && res is Ok,
                Err(e) => final(self).spec_entry() == old(self).spec_entry() && res == Err::<(), String>(e),
            },
    {
        match run {
            Ok(entry) => {
                self.entry = Some(entry);
                Ok(())
            },
            Err(e) => Err(e),
        }
    }

    /// The headers remembered, if any.
    pub fn headers(&self) -> (res: Option<&H>)
        ensures
            match self.spec_entry() {
                Some((h, _)) => res == Some(&h),
                None => res is None,
            },
    {
        match &self.entry {
            Some((h, _)) => Some(h),
            None => None,
        }
    }
}

/// How the last test run of the authorization hook went.
#[derive(Debug, Clone, PartialEq, Eq)]
pub enum ExecuteState {
    NotStarted,
    InProgress,
    Succeeded,
    Failed(String),
}

/// The authorization options of a service: the command typed, what it
/// stands for, and the state of a test run of it.
#[derive(Debug)]
pub struct AuthOptionsState {
    command: String,
    hook: Result<Option<AuthorizationHook>, String>,
    execute_state: ExecuteState,
}

/// What a command text stands for, as `validate_hook` gives it.
pub open spec fn hook_outcome(s: Seq<char>, hook: Result<Option<AuthorizationHook>, String>) -> bool {
    match hook {
        Ok(None) => s.len() == 0,
        Ok(Some(h)) => s.len() > 0 && h.spec_shell() == s && spec_hook_args(s) == Ok::<
            Seq<Seq<char>>,
            Seq<char>,
        >(h.spec_args()),
        Err(e) => s.len() > 0 && spec_hook_args(s) == Err::<Seq<Seq<char>>, Seq<char>>(e@),
    }
}

impl AuthOptionsState {
    pub closed spec fn spec_command(&self) -> Seq<char> {
        self.command@
    }

    pub closed spec fn spec_hook(&self) -> Result<Option<AuthorizationHook>, String> {
        self.hook
    }

    pub closed spec fn spec_execute_state(&self) -> ExecuteState {
        self.execute_state
    }

    /// The options for a service with the command line `shell` of its hook,
    /// if it has one; not tested yet.
    pub fn new(shell: Option<&str>) -> (res: AuthOptionsState)
        ensures
            res.spec_command() == match shell {
                Some(s) => s@,
                None => Seq::<char>::empty(),
            },
            hook_outcome(res.spec_command(), res.spec_hook()),
            res.spec_execute_state() == ExecuteState::NotStarted,
    {
        let command = match shell {
            Some(s) => s.to_owned(),
            None => String::new(),
        };
        let hook = validate_hook(&command);
        AuthOptionsState { command, hook, execute_state: ExecuteState::NotStarted }
    }

    /// Takes a new command text; a test run of the old one no longer counts.
    pub fn set_command(&mut self, command: String)
        ensures
            final(self).spec_command() == command@,
            hook_outcome(final(self).spec_command(), final(self).spec_hook()),
            final(self).spec_execute_state() == ExecuteState::NotStarted,
    {
        self.hook = validate_hook(&command);
        self.command = command;
        self.execute_state = ExecuteState::NotStarted;
    }

    /// The hook the command stands for, if it is a valid, non-empty one.
    pub fn hook(&self) -> (res: Option<&AuthorizationHook>)
        ensures
            match self.spec_hook() {
                Ok(Some(h)) => res matches Some(r) && *r == h,
                _ => res is None,
            },
    {
        match &self.hook {
            Ok(Some(h)) => Some(h),
            _ => None,
        }
    }

    /// The test button is enabled for a valid hook while no test runs.
    pub fn can_test(&self) -> (b: bool)
        ensures
            b == (self.spec_hook() matches Ok(Some(_)) && self.spec_execute_state() != ExecuteState::InProgress),
    {
        match (&self.hook, &self.execute_state) {
            (Ok(Some(_)), ExecuteState::InProgress) => false,
            (Ok(Some(_)), _) => true,
            _ => false,
        }
    }

    /// Starts a test run of the hook, when there is one.
    pub fn start_test(&mut self) -> (started: bool)
        ensures
            started == (old(self).spec_hook() matches Ok(Some(_))),
            final(self).spec_command() == old(self).spec_command(),
            final(self).spec_hook() == old(self).spec_hook(),
            final(self).spec_execute_state() == if started {
                ExecuteState::InProgress
            } else {
                old(self).spec_execute_state()
            },
    {
        match &self.hook {
            Ok(Some(_)) => {
                self.execute_state = ExecuteState::InProgress;
                true
            },
            _ => false,
        }
    }

    /// Takes the outcome of a test run: success, or the text of the error.
    pub fn finish_test(&mut self, result: Result<(), String>)
        ensures
            final(self).spec_command() == old(self).spec_command(),
            final(self).spec_hook() == old(self).spec_hook(),
            final(self).spec_execute_state() == match result {
                Ok(()) => ExecuteState::Succeeded,
                Err(e) => ExecuteState::Failed(e),
            },
    {
        self.execute_state = match result {
            Ok(()) => ExecuteState::Succeeded,
            Err(e) => ExecuteState::Failed(e),
        };
    }

    /// Cancels a test run.
    pub fn cancel_test(&mut self)
        ensures
            final(self).spec_command() == old(self).spec_command(),
            final(self).spec_hook() == old(self).spec_hook(),
            final(self).spec_execute_state() == ExecuteState::NotStarted,
    {
        self.execute_state = ExecuteState::NotStarted;
    }

    /// The icon beside the test button.
    pub fn state_icon(&self) -> (icon: StateIcon)
        ensures
            icon == match self.spec_execute_state() {
                ExecuteState::NotStarted => StateIcon::NotStarted,
                ExecuteState::InProgress => StateIcon::InProgress,
                ExecuteState::Succeeded => StateIcon::Succeeded,
                ExecuteState::Failed(_) => StateIcon::Failed,
            },
    {
        match self.execute_state {
            ExecuteState::NotStarted => StateIcon::NotStarted,
            ExecuteState::InProgress => StateIcon::InProgress,
            ExecuteState::Succeeded => StateIcon::Succeeded,
            ExecuteState::Failed(_) => StateIcon::Failed,
        }
    }

    /// The error shown below the command: why the command is invalid, else
    /// why the last test failed.
    pub fn error(&self) -> (res: Option<String>)
        ensures
            match self.spec_hook() {
                Err(e) => res == Some(e),
                _ => match self.spec_execute_state() {
                    ExecuteState::Failed(e) => res == Some(e),
                    _ => res is None,
                },
            },
    {
        match &self.hook {
            Err(e) => Some(e.clone()),
            _ => match &self.execute_state {
                ExecuteState::Failed(e) => Some(e.clone()),
                _ => None,
            },
        }
    }
}

/// The text `String::from_utf8_lossy` makes of bytes.
pub uninterp spec fn utf8_lossy(bytes: Seq<u8>) -> Seq<char>;

/// What `str::trim` leaves of a text.
pub uninterp spec fn trimmed(s: Seq<char>) -> Seq<char>;

/// Reads bytes as UTF-8 with `String::from_utf8_lossy`, which puts a
/// replacement character for each invalid sequence. Claims only that the
/// text is the named result `utf8_lossy` of the bytes.
#[verifier::external_body]
fn lossy_text(bytes: &[u8]) -> (res: String)
    ensures
        res@ == utf8_lossy(bytes@),
{
    String::from_utf8_lossy(bytes).into_owned()
}

/// Drops the leading and trailing whitespace of `s` with `str::trim`.
/// Claims only that the text is the named result `trimmed` of `s`.
#[verifier::external_body]
fn trim_text(s: &str) -> (res: String)
    ensures
        res@ == trimmed(s@),
{
    s.trim().to_owned()
}

/// The text of a failed run of the authorization plugin: how it exited
/// (`status`, as its display text), then what it wrote to its error output,
/// or else to its standard output, trimmed.
pub open spec fn plugin_failure_text(status: Seq<char>, stdout: Seq<u8>, stderr: Seq<u8>) -> Seq<char> {
    let detail = if stderr.len() > 0 {
        ": "@ + trimmed(utf8_lossy(stderr))
    } else if stdout.len() > 0 {
        ": "@ + trimmed(utf8_lossy(stdout))
    } else {
        Seq::empty()
    };
    "authorization plugin returned "@ + status + detail
}

/// The error text of a run of the authorization plugin that did not succeed.
pub fn plugin_failure(status: &str, stdout: &[u8], stderr: &[u8]) -> (res: String)
    ensures
        res@ == plugin_failure_text(status@, stdout@, stderr@),
{
    let mut s = "authorization plugin returned ".to_owned();
    push_str(&mut s, status);
    let out = if stderr.len() > 0 {
        Some(stderr)
    } else if stdout.len() > 0 {
        Some(stdout)
    } else {
        None
    };
    if let Some(bytes) = out {
        let text = lossy_text(bytes);
        let t = trim_text(text.as_str());
        push_str(&mut s, ": ");
        push_str(&mut s, t.as_str());
    }
    proof {
        reveal_strlit("authorization plugin returned ");
        reveal_strlit(": ");
    }
    s
}

} // verus!
