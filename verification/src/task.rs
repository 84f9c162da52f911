//! A single todo entry: a binary status and a free-text note, together with
//! the two directions of the task <-> line-of-text mapping.

use crate::style::{green_of, paint_green, paint_red, red_of};
use vstd::prelude::*;

verus! {

/// The binary state of a task.
#[derive(Clone, Copy, PartialEq, Eq, Structural, Debug)]
pub enum Status {
    Todo,
    Done,
}

/// The mathematical model of a task: its status and the characters of its note.
#[verifier::ext_equal]
pub struct TaskView {
    pub status: Status,
    pub note: Seq<char>,
}

/// A note is well formed when it fits on one line of the backing file.
pub open spec fn note_wf(note: Seq<char>) -> bool {
    forall|i: int| 0 <= i < note.len() ==> note[i] != '\n'
}

impl TaskView {
    /// A task is well formed when its note holds no line break.
    pub open spec fn wf(self) -> bool {
        note_wf(self.note)
    }

    /// The task after `check`: done, with the note kept.
    pub open spec fn check(self) -> TaskView {
        TaskView { status: Status::Done, note: self.note }
    }

    /// The task after `undo`: back to todo, with the note kept.
    pub open spec fn undo(self) -> TaskView {
        TaskView { status: Status::Todo, note: self.note }
    }
}

/// A freshly created task: still to do.
pub open spec fn spec_new(note: Seq<char>) -> TaskView {
    TaskView { status: Status::Todo, note: note }
}

/// The status marker between the brackets of the serialized form.
pub open spec fn status_char(s: Status) -> char {
    if s is Done {
        'x'
    } else {
        ' '
    }
}

/// The serialized form of a task: `- [x] note` or `- [ ] note`.
pub open spec fn spec_render(t: TaskView) -> Seq<char> {
    seq!['-', ' ', '[', status_char(t.status), ']', ' '] + t.note
}

/// The task encoded by one line of the backing file, if the line matches
/// the grammar `"- [" ("x" | " ") "] " note`, where the note must not
/// contain a line break.
pub open spec fn spec_parse(line: Seq<char>) -> Option<TaskView> {
    if line.len() >= 6 && line[0] == '-' && line[1] == ' ' && line[2] == '['
        && (line[3] == 'x' || line[3] == ' ') && line[4] == ']' && line[5] == ' '
        && note_wf(line.subrange(6, line.len() as int)) {
        Some(
            TaskView {
                status: if line[3] == 'x' {
                    Status::Done
                } else {
                    Status::Todo
                },
                note: line.subrange(6, line.len() as int),
            },
        )
    } else {
        None
    }
}

/// The terminal display form of a task: a colored glyph, a space, the note.
/// This is never written to disk.
pub open spec fn spec_display(t: TaskView) -> Seq<char> {
    (if t.status is Done {
        green_of(seq!['✓'])
    } else {
        red_of(seq!['✖'])
    }) + seq![' '] + t.note
}

/// The error returned when a line does not match the task grammar.
#[derive(Clone, Copy, PartialEq, Eq, Structural, Debug)]
pub struct ParseError;

/// One todo entry.
#[derive(Debug)]
pub struct Task {
    status: Status,
    note: String,
}

impl View for Task {
    type V = TaskView;

    closed spec fn view(&self) -> TaskView {
        TaskView { status: self.status, note: self.note@ }
    }
}

impl Task {
    /// Creates a task in `Todo` status with the given note, which must fit
    /// on one line of the backing file.
    pub fn new(note: &str) -> (t: Task)
        requires
            note_wf(note@),
        ensures
            t@ == spec_new(note@),
    {
        let t = Task { status: Status::Todo, note: note.to_owned() };
        proof {
            assert(t@ =~= spec_new(note@));
        }
        t
    }

    /// Reads the status.
    pub fn status(&self) -> (r: Status)
        ensures
            r == self@.status,
    {
        self.status
    }

    /// Reads the note.
    pub fn note(&self) -> (r: &str)
        ensures
            r@ == self@.note,
    {
        self.note.as_str()
    }

    /// Marks the task done; a task that is already done is unchanged.
    pub fn check(self) -> (t: Task)
        ensures
            t@ == self@.check(),
    {
        let ghost orig = self@;
        let Task { status: _, note } = self;
        let t = Task { status: Status::Done, note };
        proof {
            assert(t@ =~= orig.check());
        }
        t
    }

    /// Marks the task as still to do; a task that is already todo is unchanged.
    pub fn undo(self) -> (t: Task)
        ensures
            t@ == self@.undo(),
    {
        let ghost orig = self@;
        let Task { status: _, note } = self;
        let t = Task { status: Status::Todo, note };
        proof {
            assert(t@ =~= orig.undo());
        }
        t
    }

    /// Parses one line of the backing file into a task.
    pub fn parse(line: &str) -> (r: Result<Task, ParseError>)
        ensures
            match r {
                Ok(t) => spec_parse(line@) == Some(t@),
                Err(_) => spec_parse(line@) is None,
            },
    {
        let n = line.unicode_len();
        if n < 6 {
            return Err(ParseError);
        }
        if !(line.get_char(0) == '-' && line.get_char(1) == ' ' && line.get_char(2) == '['
            && line.get_char(4) == ']' && line.get_char(5) == ' ') {
            return Err(ParseError);
        }
        let c = line.get_char(3);
        let status = if c == 'x' {
            Status::Done
        } else if c == ' ' {
            Status::Todo
        } else {
            return Err(ParseError);
        };
        let mut k: usize = 6;
        while k < n
            invariant
                6 <= k <= n,
                n == line@.len(),
                forall|m: int| 6 <= m < k ==> line@[m] != '\n',
            decreases n - k,
        {
            if line.get_char(k) == '\n' {
                proof {
                    assert(line@.subrange(6, n as int)[k - 6] == '\n');
                    assert(!note_wf(line@.subrange(6, n as int)));
                }
                return Err(ParseError);
            }
            k += 1;
        }
        proof {
            assert forall|m: int|
                0 <= m < line@.subrange(6, n as int).len() implies #[trigger] line@.subrange(
                6,
                n as int,
            )[m] != '\n' by {
                assert(line@.subrange(6, n as int)[m] == line@[m + 6]);
            }
        }
        let rest = line.substring_char(6, n);
        let t = Task { status, note: rest.to_owned() };
        proof {
            assert(spec_parse(line@) is Some);
            assert(t@ =~= spec_parse(line@).unwrap());
        }
        Ok(t)
    }

    /// Renders the task as one line of the backing file, without the
    /// terminating line break.
    pub fn render(&self) -> (r: String)
        ensures
            r@ == spec_render(self@),
    {
        let mut s = String::new();
        s.append("- [");
        match self.status {
            Status::Done => s.append("x"),
            Status::Todo => s.append(" "),
        }
        s.append("] ");
        s.append(self.note.as_str());
        proof {
            reveal_strlit("- [");
            reveal_strlit("x");
            reveal_strlit(" ");
            reveal_strlit("] ");
            assert(s@ =~= spec_render(self@));
        }
        s
    }

    /// The terminal display form: a colored glyph, a space, the note.
    pub fn display_line(&self) -> (r: String)
        ensures
            r@ == spec_display(self@),
    {
        let mut s = match self.status {
            Status::Done => paint_green("✓"),
            Status::Todo => paint_red("✖"),
        };
        s.append(" ");
        s.append(self.note.as_str());
        proof {
            reveal_strlit("✓");
            reveal_strlit("✖");
            reveal_strlit(" ");
            assert(s@ =~= spec_display(self@));
        }
        s
    }
}

/// Round trip: rendering any valid task and parsing the resulting line
/// yields the same task back.
pub proof fn lemma_parse_render(t: TaskView)
    requires
        t.wf(),
    ensures
        spec_parse(spec_render(t)) == Some(t),
{
    let line = spec_render(t);
    assert(line[3] == status_char(t.status));
    assert(line.subrange(6, line.len() as int) =~= t.note);
    assert(spec_parse(line).unwrap() =~= t);
}

/// Checking a task twice is the same as checking it once.
pub proof fn lemma_check_idempotent(t: TaskView)
    ensures
        t.check().check() == t.check(),
{
    assert(t.check().check() =~= t.check());
}

/// Undoing a task twice is the same as undoing it once.
pub proof fn lemma_undo_idempotent(t: TaskView)
    ensures
        t.undo().undo() == t.undo(),
{
    assert(t.undo().undo() =~= t.undo());
}

/// Undo after check restores the original task exactly when the task
/// started as todo; check and undo are inverse only in that non-strict
/// sense.
pub proof fn lemma_undo_check(t: TaskView)
    ensures
        (t.check().undo() == t) <==> t.status is Todo,
{
    if t.status is Todo {
        assert(t.check().undo() =~= t);
    }
}

/// Check after undo restores the original task exactly when the task
/// started as done.
pub proof fn lemma_check_undo(t: TaskView)
    ensures
        (t.undo().check() == t) <==> t.status is Done,
{
    if t.status is Done {
        assert(t.undo().check() =~= t);
    }
}

} // verus!
