//! Approval through the file mailbox: where it lives and how long it waits.

use crate::decisions::DECISIONS_FILE;
use crate::duration;
use crate::duration::Duration;
use crate::path;
use crate::pending::PENDING_FILE;
use std::path::PathBuf;
use vstd::prelude::*;

verus! {

/// Seconds after which an unanswered request denies, by default.
pub const FILE_APPROVAL_TIMEOUT_SECS: u64 = 300;

/// Milliseconds between two looks at the answers, by default.
pub const FILE_APPROVAL_POLL_MILLIS: u64 = 500;

/// The components of the console directory: `.kriya/console` in the home directory, or the
/// directory for temporary files where there is no home directory.
pub open spec fn console_components(home: Option<PathBuf>, temp_dir: PathBuf) -> Seq<Seq<char>> {
    match home {
        Some(dir) => path::components(dir).push(".kriya"@).push("console"@),
        None => path::components(temp_dir),
    }
}

/// The directory that the console and its helpers share.
pub fn default_console_dir(home: Option<PathBuf>, temp_dir: PathBuf) -> (dir: PathBuf)
    ensures
        path::components(dir) == console_components(home, temp_dir),
{
    match home {
        Some(home_dir) => {
            proof {
                lemma_fixed_names_are_plain();
            }
            path::join(&path::join(&home_dir, ".kriya"), "console")
        },
        None => temp_dir,
    }
}

/// The directory of the file mailbox, `approvals` in the console directory. Both sides of the
/// mailbox find it from the same two directories, with no shared configuration.
pub fn default_approvals_dir(home: Option<PathBuf>, temp_dir: PathBuf) -> (dir: PathBuf)
    ensures
        path::components(dir) == console_components(home, temp_dir).push("approvals"@),
{
    proof {
        lemma_fixed_names_are_plain();
    }
    path::join(&default_console_dir(home, temp_dir), "approvals")
}

proof fn lemma_plain_name(name: Seq<char>)
    requires
        name.len() > 2,
        forall|i: int| 0 <= i < name.len() ==> name[i] != '/' && name[i] != '\\' && name[i] != ':',
    ensures
        path::is_plain_name(name),
{
    assert(seq!['.'].len() == 1);
    assert(seq!['.', '.'].len() == 2);
}

proof fn lemma_fixed_names_are_plain()
    ensures
        path::is_plain_name(".kriya"@),
        path::is_plain_name("console"@),
        path::is_plain_name("approvals"@),
        path::is_plain_name(PENDING_FILE@),
        path::is_plain_name(DECISIONS_FILE@),
{
    reveal_strlit(".kriya");
    reveal_strlit("console");
    reveal_strlit("approvals");
    reveal_strlit("pending.jsonl");
    reveal_strlit("decisions.jsonl");
    lemma_plain_name(".kriya"@);
    lemma_plain_name("console"@);
    lemma_plain_name("approvals"@);
    lemma_plain_name(PENDING_FILE@);
    lemma_plain_name(DECISIONS_FILE@);
}

/// Routes approval through the file mailbox in a directory: a request is appended to
/// [`PENDING_FILE`], and [`DECISIONS_FILE`] is read again and again for its answer until the
/// timeout. An unanswered request is denied, and so is one for which any step fails.
pub struct FileApproval {
    dir: PathBuf,
    timeout: Duration,
    poll: Duration,
}

/// The settings of a [`FileApproval`]: the components of its directory, and its two spans in
/// nanoseconds.
pub struct Settings {
    pub dir: Seq<Seq<char>>,
    pub timeout: nat,
    pub poll: nat,
}

impl View for FileApproval {
    type V = Settings;

    closed spec fn view(&self) -> Settings {
        Settings {
            dir: path::components(self.mailbox()),
            timeout: self.timeout@,
            poll: self.poll@,
        }
    }
}

impl FileApproval {
    /// The directory of the mailbox.
    pub closed spec fn mailbox(&self) -> PathBuf {
        self.dir
    }

    /// A gate over the mailbox in `dir`, with the default timeout of 300 s and poll interval of
    /// 500 ms.
    pub fn new(dir: PathBuf) -> (gate: FileApproval)
        ensures
            gate.mailbox() == dir,
            gate@.dir == path::components(dir),
            gate@.timeout == FILE_APPROVAL_TIMEOUT_SECS * duration::NANOS_PER_SEC,
            gate@.poll == FILE_APPROVAL_POLL_MILLIS * duration::NANOS_PER_MILLI,
    {
        FileApproval {
            dir,
            timeout: Duration::from_secs(FILE_APPROVAL_TIMEOUT_SECS),
            poll: Duration::from_millis(FILE_APPROVAL_POLL_MILLIS),
        }
    }

    /// A gate over [`default_approvals_dir`] with the default timeout and poll interval.
    pub fn with_default_dir(home: Option<PathBuf>, temp_dir: PathBuf) -> (gate: FileApproval)
        ensures
            gate@.dir == console_components(home, temp_dir).push("approvals"@),
            gate@.timeout == FILE_APPROVAL_TIMEOUT_SECS * duration::NANOS_PER_SEC,
            gate@.poll == FILE_APPROVAL_POLL_MILLIS * duration::NANOS_PER_MILLI,
    {
        FileApproval::new(default_approvals_dir(home, temp_dir))
    }

    /// The same gate with another timeout and poll interval.
    pub fn with_timeout(self, timeout: Duration, poll: Duration) -> (gate: FileApproval)
        ensures
            gate.mailbox() == self.mailbox(),
            gate@ == (Settings { dir: self@.dir, timeout: timeout@, poll: poll@ }),
    {
        FileApproval { dir: self.dir, timeout, poll }
    }

    /// The directory of the mailbox.
    pub fn dir(&self) -> (dir: &PathBuf)
        ensures
            *dir == self.mailbox(),
            path::components(*dir) == self@.dir,
    {
        &self.dir
    }

    /// The file that requests are appended to.
    pub fn pending_path(&self) -> (file: PathBuf)
        ensures
            path::components(file) == self@.dir.push(PENDING_FILE@),
    {
        proof {
            lemma_fixed_names_are_plain();
        }
        path::join(&self.dir, PENDING_FILE)
    }

    /// The file that answers are read from.
    pub fn decisions_path(&self) -> (file: PathBuf)
        ensures
            path::components(file) == self@.dir.push(DECISIONS_FILE@),
    {
        proof {
            lemma_fixed_names_are_plain();
        }
        path::join(&self.dir, DECISIONS_FILE)
    }

    /// How long to wait for an answer.
    pub fn timeout(&self) -> (timeout: Duration)
        ensures
            timeout@ == self@.timeout,
    {
        self.timeout
    }

    /// How long to wait between two looks at the answers.
    pub fn poll(&self) -> (poll: Duration)
        ensures
            poll@ == self@.poll,
    {
        self.poll
    }
}

/// The console directory is `.kriya/console` in the home directory, or the directory for
/// temporary files where there is no home directory.
pub proof fn law_console_dir_is_in_the_home_directory(
    home: Option<PathBuf>,
    temp_dir: PathBuf,
    dir: PathBuf,
)
    requires
        call_ensures(default_console_dir, (home, temp_dir), dir),
    ensures
        home matches Some(h) ==> path::components(dir) == path::components(h) + seq![
            ".kriya"@,
            "console"@,
        ],
        home is None ==> path::components(dir) == path::components(temp_dir),
{
    if let Some(h) = home {
        assert(path::components(h).push(".kriya"@).push("console"@) =~= path::components(h) + seq![
            ".kriya"@,
            "console"@,
        ]);
    }
}

/// The mailbox is `.kriya/console/approvals` in the home directory, or `approvals` in the
/// directory for temporary files where there is no home directory, and this depends on nothing
/// but those two directories.
pub proof fn law_mailbox_is_in_the_console_dir(
    home: Option<PathBuf>,
    temp_dir: PathBuf,
    dir: PathBuf,
)
    requires
        call_ensures(default_approvals_dir, (home, temp_dir), dir),
    ensures
        home matches Some(h) ==> path::components(dir) == path::components(h) + seq![
            ".kriya"@,
            "console"@,
            "approvals"@,
        ],
        home is None ==> path::components(dir) == path::components(temp_dir) + seq!["approvals"@],
{
    match home {
        Some(h) => {
            assert(path::components(dir) =~= path::components(h) + seq![
                ".kriya"@,
                "console"@,
                "approvals"@,
            ]);
        },
        None => {
            assert(path::components(dir) =~= path::components(temp_dir) + seq!["approvals"@]);
        },
    }
}

/// A mailbox keeps the directory that it was made with, waits for 300 seconds and looks every 500
/// milliseconds.
pub proof fn law_new_mailbox_has_the_defaults(dir: PathBuf, made: FileApproval)
    requires
        call_ensures(FileApproval::new, (dir,), made),
    ensures
        made.mailbox() == dir,
        made@.timeout == 300_000_000_000,
        made@.poll == 500_000_000,
{
}

/// The default mailbox lies in the directory of [`default_approvals_dir`], with the same defaults.
pub proof fn law_default_mailbox_has_the_defaults(
    home: Option<PathBuf>,
    temp_dir: PathBuf,
    made: FileApproval,
)
    requires
        call_ensures(FileApproval::with_default_dir, (home, temp_dir), made),
    ensures
        home matches Some(h) ==> made@.dir == path::components(h) + seq![
            ".kriya"@,
            "console"@,
            "approvals"@,
        ],
        home is None ==> made@.dir == path::components(temp_dir) + seq!["approvals"@],
        made@.dir == path::components(made.mailbox()),
        made@.timeout == 300_000_000_000,
        made@.poll == 500_000_000,
{
    match home {
        Some(h) => {
            assert(made@.dir =~= path::components(h) + seq![
                ".kriya"@,
                "console"@,
                "approvals"@,
            ]);
        },
        None => {
            assert(made@.dir =~= path::components(temp_dir) + seq!["approvals"@]);
        },
    }
}

/// Another timeout and poll interval leave the mailbox where it is, and are given back as they
/// are.
pub proof fn law_settings_are_kept(
    before: FileApproval,
    timeout: Duration,
    poll: Duration,
    after: FileApproval,
    dir: &PathBuf,
    got_timeout: Duration,
    got_poll: Duration,
)
    requires
        call_ensures(FileApproval::with_timeout, (before, timeout, poll), after),
        call_ensures(FileApproval::dir, (&after,), dir),
        call_ensures(FileApproval::timeout, (&after,), got_timeout),
        call_ensures(FileApproval::poll, (&after,), got_poll),
    ensures
        *dir == before.mailbox(),
        after.mailbox() == before.mailbox(),
        got_timeout@ == timeout@,
        got_poll@ == poll@,
{
}

/// Requests go to `pending.jsonl` and answers come from `decisions.jsonl`, both in the mailbox.
pub proof fn law_files_are_in_the_mailbox(
    mailbox: &FileApproval,
    pending: PathBuf,
    decisions: PathBuf,
)
    requires
        call_ensures(FileApproval::pending_path, (mailbox,), pending),
        call_ensures(FileApproval::decisions_path, (mailbox,), decisions),
    ensures
        path::components(pending) == path::components(mailbox.mailbox()).push("pending.jsonl"@),
        path::components(decisions) == path::components(mailbox.mailbox()).push(
            "decisions.jsonl"@,
        ),
{
}

} // verus!
