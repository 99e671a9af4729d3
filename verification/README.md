# kriya

Human-in-the-loop approval for actions that a policy holds back, written in Verus.

A gate decides whether a held action may proceed. There are five: `DenyApproval` and `AutoApprove`
never ask, `TtyApproval` prompts on the controlling terminal, `GuiApproval` shows a native macOS
dialog, and `FileApproval` posts the request to a file mailbox and waits for an answer there. All
but `AutoApprove` deny by default: what is not answered in time, cannot be asked or fails on the
way is a denial.

## Layout

- `src/` is the verified library: what the operator is shown, the two line formats, how answers
  are read, and the course of a request. It does no input or output of its own.
  - `gate` the trait that every form of approval has, and the two forms that never ask
  - `tty`, `gui` what is shown, and what a reply means
  - `pending` requests as lines of `pending.jsonl`
  - `decisions` answers as lines of `decisions.jsonl`
  - `file` where the mailbox lives and how long it waits
  - `request` the course of one request, and what holds of every course
  - `text`, `json`, `path`, `duration` what the others are built on
- `app/` opens, reads, writes, waits and parses around the library.
- `tests/` runs the library with the real outside crates.

## The file mailbox

`~/.kriya/console/approvals/` holds `pending.jsonl`, to which one request per line is appended, and
`decisions.jsonl`, to which a separate program appends one answer per line. An answer names the
`id` of its request. Lines that are not decisions are skipped, decisions for other ids do not
count, and the last decision for an id is the one that counts.

The answers are read when the request has been posted, then again after every pause of the poll
interval. The last pause is cut at the deadline. A look that ends at the deadline or later without
an answer denies. So, where the pauses end on time, the answers are read for the last time at the
deadline at the latest, and a decision that is written after the timeout does not count. Where a
pause ends late, the look that follows it still counts what it finds.
