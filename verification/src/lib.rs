//! Human-in-the-loop approval for actions that a policy holds back.
//!
//! An agent that drives the system from outside has no window in which a human could be asked, so
//! approval is a gate with a few built-in forms: one that always denies, one that always approves,
//! a prompt on the controlling terminal, a native dialog, and a file mailbox for a device with
//! neither terminal nor window server. The default is to deny: whatever is not answered, cannot be
//! asked or fails on the way is a denial.
//!
//! The gates are specified over the texts, files and clock readings that go in and come out; the
//! caller does the reading and writing itself.

pub mod decisions;
pub mod duration;
pub mod file;
pub mod gate;
pub mod gui;
pub mod json;
pub mod path;
pub mod pending;
pub mod request;
pub mod text;
pub mod tty;

pub use crate::decisions::{last_decision, scan_decision, ApprovalDecision, DECISIONS_FILE};
pub use crate::duration::Duration;
pub use crate::file::{default_approvals_dir, default_console_dir, FileApproval};
pub use crate::gate::{ApprovalGate, AutoApprove, DenyApproval};
pub use crate::gui::{applescript_string, GuiApproval};
pub use crate::pending::{EncodeError, PendingApproval, PENDING_FILE};
pub use crate::request::{Action, Event, Phase};
pub use crate::tty::{TtyApproval, TtyReply};
