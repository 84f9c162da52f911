//! The ordered, file-backed collection of tasks and its operations.

use crate::digits::{dec_rep, usize_string};
use crate::style::{dim_of, paint_dimmed};
use crate::task::{spec_display, spec_new, spec_parse, spec_render, note_wf, Status, Task, TaskView};
use vstd::prelude::*;

verus! {

/// The full content of the backing file for a list of tasks: one rendered
/// task per line, each terminated by a line break, in list order.
pub open spec fn spec_save(l: Seq<TaskView>) -> Seq<char>
    decreases l.len(),
{
    if l.len() == 0 {
        Seq::empty()
    } else {
        spec_render(l[0]) + seq!['\n'] + spec_save(l.drop_first())
    }
}

/// Appending one task to the list appends one line to the saved content.
proof fn lemma_save_push(l: Seq<TaskView>, t: TaskView)
    ensures
        spec_save(l.push(t)) == spec_save(l) + spec_render(t) + seq!['\n'],
    decreases l.len(),
{
    if l.len() == 0 {
        reveal_with_fuel(spec_save, 3);
        assert(l.push(t).drop_first() =~= Seq::<TaskView>::empty());
        assert(spec_save(l.push(t)) =~= spec_save(l) + spec_render(t) + seq!['\n']);
    } else {
        assert(l.push(t).drop_first() =~= l.drop_first().push(t));
        lemma_save_push(l.drop_first(), t);
        assert(spec_save(l.push(t)) =~= spec_save(l) + spec_render(t) + seq!['\n']);
    }
}

/// Why a whole file failed to load: the first line that does not match the
/// task grammar, numbered from 1.
#[derive(Clone, Copy, PartialEq, Eq, Structural, Debug)]
pub struct LoadError {
    pub line: usize,
}

/// Whether an index-addressed operation found its task, or fell outside the
/// list and left it untouched.
#[derive(Clone, Copy, PartialEq, Eq, Structural, Debug)]
pub enum IndexOutcome {
    Applied,
    OutOfRange,
}

/// The ordered list of tasks of one backing file.
#[derive(Debug)]
pub struct TodoList {
    list: Vec<Task>,
}

/// The lines of a text: maximal runs of characters between line breaks.
/// A trailing line break closes the last line; characters after the last
/// line break form a final, unterminated line.
pub open spec fn spec_split_lines(s: Seq<char>) -> Seq<Seq<char>>
    decreases s.len(),
{
    if s.len() == 0 {
        Seq::empty()
    } else if s[0] == '\n' {
        seq![Seq::<char>::empty()] + spec_split_lines(s.drop_first())
    } else {
        let rest = spec_split_lines(s.drop_first());
        if rest.len() == 0 {
            seq![s]
        } else {
            seq![seq![s[0]] + rest[0]] + rest.drop_first()
        }
    }
}

/// A partial first line glued onto a line decomposition.
pub open spec fn line_prepend(p: Seq<char>, ls: Seq<Seq<char>>) -> Seq<Seq<char>> {
    if ls.len() == 0 {
        if p.len() == 0 {
            Seq::empty()
        } else {
            seq![p]
        }
    } else {
        seq![p + ls[0]] + ls.drop_first()
    }
}

/// A text has no lines exactly when it has no characters.
proof fn lemma_split_lines_empty(s: Seq<char>)
    ensures
        (spec_split_lines(s).len() == 0) == (s.len() == 0),
{
}

/// No line of a decomposition contains a line break.
proof fn lemma_split_lines_no_newline(s: Seq<char>)
    ensures
        forall|i: int, j: int|
            0 <= i < spec_split_lines(s).len() && 0 <= j < spec_split_lines(s)[i].len()
                ==> #[trigger] spec_split_lines(s)[i][j] != '\n',
    decreases s.len(),
{
    if s.len() == 0 {
    } else {
        lemma_split_lines_no_newline(s.drop_first());
        let ls = spec_split_lines(s);
        let rest = spec_split_lines(s.drop_first());
        if s[0] == '\n' {
            assert forall|i: int, j: int|
                0 <= i < ls.len() && 0 <= j < ls[i].len() implies #[trigger] ls[i][j] != '\n' by {
                if i > 0 {
                    assert(ls[i] == rest[i - 1]);
                }
            }
        } else if rest.len() == 0 {
            assert(s.drop_first().len() == 0) by {
                lemma_split_lines_empty(s.drop_first());
            }
            assert forall|i: int, j: int|
                0 <= i < ls.len() && 0 <= j < ls[i].len() implies #[trigger] ls[i][j] != '\n' by {
                assert(ls[i] == s);
                assert(s.len() == 1);
            }
        } else {
            assert forall|i: int, j: int|
                0 <= i < ls.len() && 0 <= j < ls[i].len() implies #[trigger] ls[i][j] != '\n' by {
                if i == 0 {
                    assert(ls[0] == seq![s[0]] + rest[0]);
                    if j > 0 {
                        assert(ls[0][j] == rest[0][j - 1]);
                    }
                } else {
                    assert(ls[i] == rest[i]);
                }
            }
        }
    }
}

/// The tasks encoded by the lines from position `i` on: blank lines yield
/// no task, and the first line from `i` on that is neither blank nor a
/// well-formed task line makes the whole load fail with its position.
pub open spec fn spec_load_from(lines: Seq<Seq<char>>, i: int) -> Result<Seq<TaskView>, int>
    decreases lines.len() - i,
{
    if i < 0 || i >= lines.len() {
        Ok(Seq::empty())
    } else if lines[i].len() == 0 {
        spec_load_from(lines, i + 1)
    } else {
        match spec_parse(lines[i]) {
            Option::None => Err(i),
            Option::Some(t) => match spec_load_from(lines, i + 1) {
                Ok(ts) => Ok(seq![t] + ts),
                Err(j) => Err(j),
            },
        }
    }
}

/// The task list encoded by the full content of a backing file, or the
/// 0-based line position of the first offending line.
pub open spec fn spec_load(content: Seq<char>) -> Result<Seq<TaskView>, int> {
    spec_load_from(spec_split_lines(content), 0)
}

/// One line of the terminal listing for the task at 0-based position `i`:
/// a space, the dimmed 1-based display index followed by a dot, a space,
/// then the display form of the task.
pub open spec fn spec_line(i: int, t: TaskView) -> Seq<char> {
    seq![' '] + dim_of(dec_rep((i + 1) as nat).push('.')) + seq![' '] + spec_display(t)
}

/// The terminal listing of the first `n` tasks. With `only_todo`, done
/// tasks produce no line, but the display index of every listed task stays
/// its position in the full list.
pub open spec fn spec_listing(l: Seq<TaskView>, n: int, only_todo: bool) -> Seq<Seq<char>>
    decreases n,
{
    if n <= 0 {
        Seq::empty()
    } else {
        let pre = spec_listing(l, n - 1, only_todo);
        if !only_todo || l[n - 1].status is Todo {
            pre.push(spec_line(n - 1, l[n - 1]))
        } else {
            pre
        }
    }
}

/// The rendered line of each task, in order.
pub open spec fn renders_of(l: Seq<TaskView>) -> Seq<Seq<char>> {
    l.map_values(|t: TaskView| spec_render(t))
}

/// The rendered line of a task contains no line break when its note is
/// well formed.
proof fn lemma_render_no_newline(t: TaskView)
    requires
        t.wf(),
    ensures
        forall|j: int| 0 <= j < spec_render(t).len() ==> #[trigger] spec_render(t)[j] != '\n',
{
    let line = spec_render(t);
    assert forall|j: int| 0 <= j < line.len() implies #[trigger] line[j] != '\n' by {
        if j >= 6 {
            assert(line[j] == t.note[j - 6]);
        }
    }
}

/// Splitting a text that starts with one full line and its line break
/// peels off exactly that line.
proof fn lemma_split_line_prefix(a: Seq<char>, b: Seq<char>)
    requires
        forall|j: int| 0 <= j < a.len() ==> a[j] != '\n',
    ensures
        spec_split_lines(a + seq!['\n'] + b) == seq![a] + spec_split_lines(b),
    decreases a.len(),
{
    let s = a + seq!['\n'] + b;
    if a.len() == 0 {
        assert(s.drop_first() =~= b);
        assert(a =~= Seq::<char>::empty());
        assert(seq![a] =~= seq![Seq::<char>::empty()]);
        assert(spec_split_lines(s) == seq![a] + spec_split_lines(b));
    } else {
        assert(s[0] == a[0]);
        assert(s.drop_first() =~= a.drop_first() + seq!['\n'] + b);
        lemma_split_line_prefix(a.drop_first(), b);
        let rest = spec_split_lines(s.drop_first());
        assert(rest == seq![a.drop_first()] + spec_split_lines(b));
        assert(rest.len() > 0);
        assert(rest[0] == a.drop_first());
        assert(seq![s[0]] + rest[0] =~= a);
        assert(rest.drop_first() =~= spec_split_lines(b));
        assert(spec_split_lines(s) =~= seq![a] + spec_split_lines(b));
    }
}

/// The lines of saved content are exactly the rendered tasks, in order.
proof fn lemma_split_save(l: Seq<TaskView>)
    requires
        forall|i: int| 0 <= i < l.len() ==> (#[trigger] l[i]).wf(),
    ensures
        spec_split_lines(spec_save(l)) == renders_of(l),
    decreases l.len(),
{
    if l.len() == 0 {
        assert(renders_of(l) =~= Seq::<Seq<char>>::empty());
    } else {
        lemma_render_no_newline(l[0]);
        lemma_split_save(l.drop_first());
        lemma_split_line_prefix(spec_render(l[0]), spec_save(l.drop_first()));
        assert(spec_split_lines(spec_save(l)) == seq![spec_render(l[0])] + renders_of(
            l.drop_first(),
        ));
        assert(spec_split_lines(spec_save(l)) =~= renders_of(l));
    }
}

/// Lines that are each the rendering of a valid task load back to those
/// tasks.
proof fn lemma_load_renders(lines: Seq<Seq<char>>, l: Seq<TaskView>, i: int)
    requires
        0 <= i <= lines.len(),
        lines.len() - i == l.len(),
        forall|k: int| 0 <= k < l.len() ==> (#[trigger] l[k]).wf(),
        forall|k: int| 0 <= k < l.len() ==> lines[i + k] == spec_render(#[trigger] l[k]),
    ensures
        spec_load_from(lines, i) == Ok::<Seq<TaskView>, int>(l),
    decreases lines.len() - i,
{
    if i == lines.len() {
        assert(l =~= Seq::<TaskView>::empty());
    } else {
        assert(lines[i] == spec_render(l[0]));
        assert(lines[i].len() >= 6);
        crate::task::lemma_parse_render(l[0]);
        assert(spec_parse(lines[i]) == Some(l[0]));
        assert forall|k: int| 0 <= k < l.drop_first().len() implies lines[i + 1 + k] == spec_render(
            #[trigger] l.drop_first()[k],
        ) && l.drop_first()[k].wf() by {
            assert(l.drop_first()[k] == l[k + 1]);
        }
        lemma_load_renders(lines, l.drop_first(), i + 1);
        assert(seq![l[0]] + l.drop_first() =~= l);
    }
}

/// Persistence: saving any well-formed task list and loading the saved
/// content back yields the same list.
pub proof fn lemma_save_load(l: Seq<TaskView>)
    requires
        forall|i: int| 0 <= i < l.len() ==> (#[trigger] l[i]).wf(),
    ensures
        spec_load(spec_save(l)) == Ok::<Seq<TaskView>, int>(l),
{
    lemma_split_save(l);
    let lines = spec_split_lines(spec_save(l));
    assert(forall|k: int| 0 <= k < l.len() ==> lines[0 + k] == spec_render(#[trigger] l[k]));
    lemma_load_renders(lines, l, 0);
}

/// The models of a sequence of tasks, in order.
pub open spec fn views_of(l: Seq<Task>) -> Seq<TaskView> {
    l.map_values(|t: Task| t@)
}

impl View for TodoList {
    type V = Seq<TaskView>;

    closed spec fn view(&self) -> Seq<TaskView> {
        views_of(self.list@)
    }
}

/// Filtering a sequence extended by one element keeps the element exactly
/// when the predicate holds of it.
proof fn lemma_filter_push<A>(s: Seq<A>, x: A, pred: spec_fn(A) -> bool)
    ensures
        s.push(x).filter(pred) == if pred(x) {
            s.filter(pred).push(x)
        } else {
            s.filter(pred)
        },
{
    reveal(Seq::filter);
    assert(s.push(x).drop_last() =~= s);
    assert(s.push(x).last() == x);
}

/// The views of a sequence of owned line strings.
pub open spec fn line_views(lines: Seq<String>) -> Seq<Seq<char>> {
    lines.map_values(|l: String| l@)
}

/// Splits a text into its lines, dropping the line breaks.
#[verifier::loop_isolation(false)]
#[verifier::rlimit(30)]
fn split_lines(s: &str) -> (lines: Vec<String>)
    ensures
        line_views(lines@) == spec_split_lines(s@),
{
    let n = s.unicode_len();
    let mut lines: Vec<String> = Vec::new();
    let mut start: usize = 0;
    let mut i: usize = 0;
    proof {
        assert(s@.subrange(0, n as int) =~= s@);
        let ls = spec_split_lines(s@);
        if ls.len() == 0 {
            assert(line_views(lines@) + line_prepend(s@.subrange(0, 0), ls) =~= ls);
        } else {
            assert(s@.subrange(0, 0) + ls[0] =~= ls[0]);
            assert(line_views(lines@) + line_prepend(s@.subrange(0, 0), ls) =~= ls);
        }
    }
    while i < n
        invariant
            0 <= start <= i <= n,
            n == s@.len(),
            forall|k: int| start <= k < i ==> s@[k] != '\n',
            spec_split_lines(s@) == line_views(lines@) + line_prepend(
                s@.subrange(start as int, i as int),
                spec_split_lines(s@.subrange(i as int, n as int)),
            ),
        decreases n - i,
    {
        let ghost cur = s@.subrange(start as int, i as int);
        let ghost rem = s@.subrange(i as int, n as int);
        let ghost rem2 = s@.subrange(i + 1, n as int);
        proof {
            assert(rem[0] == s@[i as int]);
            assert(rem.drop_first() =~= rem2);
        }
        if s.get_char(i) == '\n' {
            let line = s.substring_char(start, i);
            lines.push(line.to_owned());
            proof {
                assert(spec_split_lines(rem) == seq![Seq::<char>::empty()] + spec_split_lines(
                    rem2,
                ));
                assert(line_prepend(cur, spec_split_lines(rem)) =~= seq![cur] + spec_split_lines(
                    rem2,
                ));
                assert(line_views(lines@) =~= line_views(lines@.drop_last()) + seq![cur]);
                assert(s@.subrange(i + 1, i + 1) =~= Seq::<char>::empty());
                assert(line_prepend(s@.subrange(i + 1, i + 1), spec_split_lines(rem2))
                    =~= spec_split_lines(rem2));
            }
            start = i + 1;
        } else {
            proof {
                let rest = spec_split_lines(rem2);
                let cur2 = s@.subrange(start as int, i + 1);
                assert(cur2 =~= cur.push(s@[i as int]));
                if rest.len() == 0 {
                    lemma_split_lines_empty(rem2);
                    assert(rem =~= seq![s@[i as int]]);
                    assert(spec_split_lines(rem) == seq![rem]);
                    assert(cur + rem =~= cur2);
                    assert(line_prepend(cur, spec_split_lines(rem)) =~= seq![cur2]);
                    assert(line_prepend(cur2, rest) =~= seq![cur2]);
                } else {
                    assert(spec_split_lines(rem) == seq![seq![rem[0]] + rest[0]]
                        + rest.drop_first());
                    assert(cur + (seq![rem[0]] + rest[0]) =~= cur2 + rest[0]);
                    assert(line_prepend(cur, spec_split_lines(rem)) =~= seq![cur2 + rest[0]]
                        + rest.drop_first());
                    assert(line_prepend(cur2, rest) =~= seq![cur2 + rest[0]] + rest.drop_first());
                }
            }
        }
        i += 1;
    }
    proof {
        assert(s@.subrange(i as int, n as int) =~= Seq::<char>::empty());
    }
    if start < n {
        let line = s.substring_char(start, n);
        lines.push(line.to_owned());
        proof {
            assert(line_views(lines@) =~= line_views(lines@.drop_last()) + seq![
                s@.subrange(start as int, n as int),
            ]);
            assert(line_views(lines@) =~= spec_split_lines(s@));
        }
    } else {
        proof {
            assert(s@.subrange(start as int, i as int) =~= Seq::<char>::empty());
            assert(line_views(lines@) =~= spec_split_lines(s@));
        }
    }
    lines
}

/// Removes and returns the element at `index`, or leaves the vector
/// unchanged when `index` is out of bounds.
fn vec_try_remove<T>(v: &mut Vec<T>, index: usize) -> (r: Option<T>)
    ensures
        index < old(v).len() ==> r == Some(old(v)@[index as int]) && final(v)@ == old(
            v,
        )@.remove(index as int),
        index >= old(v).len() ==> r is None && final(v)@ == old(v)@,
{
    if index < v.len() {
        Some(v.remove(index))
    } else {
        None
    }
}

impl TodoList {
    /// Parses the full content of a backing file into a task list. Blank
    /// lines yield no task; any other line that does not match the task
    /// grammar fails the whole load, reporting its 1-based line number.
    #[verifier::loop_isolation(false)]
    pub fn load(content: &str) -> (r: Result<TodoList, LoadError>)
        ensures
            match r {
                Ok(tl) => spec_load(content@) == Ok::<Seq<TaskView>, int>(tl@) && tl.wf(),
                Err(e) => 1 <= e.line && spec_load(content@) == Err::<Seq<TaskView>, int>(
                    e.line - 1,
                ),
            },
    {
        let lines = split_lines(content);
        let ghost ls = line_views(lines@);
        proof {
            lemma_split_lines_no_newline(content@);
        }
        let mut list: Vec<Task> = Vec::new();
        let mut i: usize = 0;
        while i < lines.len()
            invariant
                0 <= i <= lines.len(),
                spec_load_from(ls, 0) == (match spec_load_from(ls, i as int) {
                    Ok(ts) => Ok::<Seq<TaskView>, int>(views_of(list@) + ts),
                    Err(j) => Err::<Seq<TaskView>, int>(j),
                }),
                forall|k: int| 0 <= k < list@.len() ==> (#[trigger] views_of(list@)[k]).wf(),
            decreases lines.len() - i,
        {
            let ghost prev = list@;
            let line = &lines[i];
            proof {
                assert(ls[i as int] == line@);
            }
            if line.as_str().unicode_len() > 0 {
                match Task::parse(line.as_str()) {
                    Ok(t) => {
                        proof {
                            assert(spec_parse(ls[i as int]) == Some(t@));
                            assert(t@.note =~= ls[i as int].subrange(6, ls[i as int].len() as int));
                            assert forall|j: int| 0 <= j < t@.note.len() implies t@.note[j] != '\n' by {
                                assert(t@.note[j] == ls[i as int][j + 6]);
                            }
                            assert(t@.wf());
                        }
                        list.push(t);
                        proof {
                            assert(views_of(list@) =~= views_of(prev) + seq![t@]);
                            if spec_load_from(ls, i + 1) is Ok {
                                let ts = spec_load_from(ls, i + 1)->Ok_0;
                                assert(spec_load_from(ls, i as int) == Ok::<Seq<TaskView>, int>(
                                    seq![t@] + ts,
                                ));
                                assert(views_of(prev) + (seq![t@] + ts) =~= views_of(list@) + ts);
                            }
                        }
                    },
                    Err(_) => {
                        proof {
                            assert(spec_load_from(ls, i as int) == Err::<Seq<TaskView>, int>(
                                i as int,
                            ));
                        }
                        return Err(LoadError { line: i + 1 });
                    },
                }
            }
            i += 1;
        }
        let tl = TodoList { list };
        proof {
            assert(views_of(tl.list@) + Seq::<TaskView>::empty() =~= tl@);
        }
        Ok(tl)
    }

    /// Every task of the list fits on one line of the backing file.
    pub open spec fn wf(self) -> bool {
        forall|i: int| 0 <= i < self@.len() ==> (#[trigger] self@[i]).wf()
    }

    /// The number of tasks in the list.
    pub fn len(&self) -> (n: usize)
        ensures
            n == self@.len(),
    {
        self.list.len()
    }

    /// The task at a 0-based position.
    pub fn get(&self, i: usize) -> (t: &Task)
        requires
            i < self@.len(),
        ensures
            t@ == self@[i as int],
    {
        &self.list[i]
    }

    /// Appends a new `Todo` task built from `note` to the end of the list.
    pub fn add(&mut self, note: &str)
        requires
            note_wf(note@),
        ensures
            final(self)@ == old(self)@.push(spec_new(note@)),
            old(self).wf() ==> final(self).wf(),
    {
        let t = Task::new(note);
        self.list.push(t);
        proof {
            assert(self@ =~= old(self)@.push(spec_new(note@)));
        }
    }

    /// Marks the task at 1-based position `index` as done, in place; any
    /// index outside `[1, len]` leaves the list untouched.
    pub fn check(&mut self, index: usize) -> (r: IndexOutcome)
        ensures
            1 <= index <= old(self)@.len() ==> r is Applied && final(self)@ == old(self)@.update(
                index - 1,
                old(self)@[index - 1].check(),
            ),
            !(1 <= index <= old(self)@.len()) ==> r is OutOfRange && final(self)@ == old(self)@,
            old(self).wf() ==> final(self).wf(),
    {
        if index == 0 {
            return IndexOutcome::OutOfRange;
        }
        let i = index - 1;
        match vec_try_remove(&mut self.list, i) {
            Some(t) => {
                self.list.insert(i, t.check());
                proof {
                    assert(self@ =~= old(self)@.update(i as int, old(self)@[i as int].check()));
                }
                IndexOutcome::Applied
            },
            None => IndexOutcome::OutOfRange,
        }
    }

    /// Marks the task at 1-based position `index` as still to do, in place;
    /// any index outside `[1, len]` leaves the list untouched.
    pub fn undo(&mut self, index: usize) -> (r: IndexOutcome)
        ensures
            1 <= index <= old(self)@.len() ==> r is Applied && final(self)@ == old(self)@.update(
                index - 1,
                old(self)@[index - 1].undo(),
            ),
            !(1 <= index <= old(self)@.len()) ==> r is OutOfRange && final(self)@ == old(self)@,
            old(self).wf() ==> final(self).wf(),
    {
        if index == 0 {
            return IndexOutcome::OutOfRange;
        }
        let i = index - 1;
        match vec_try_remove(&mut self.list, i) {
            Some(t) => {
                self.list.insert(i, t.undo());
                proof {
                    assert(self@ =~= old(self)@.update(i as int, old(self)@[i as int].undo()));
                }
                IndexOutcome::Applied
            },
            None => IndexOutcome::OutOfRange,
        }
    }

    /// Deletes the task at 1-based position `index`; later tasks shift down
    /// one position; any index outside `[1, len]` leaves the list untouched.
    pub fn remove(&mut self, index: usize) -> (r: IndexOutcome)
        ensures
            1 <= index <= old(self)@.len() ==> r is Applied && final(self)@ == old(self)@.remove(
                index - 1,
            ),
            !(1 <= index <= old(self)@.len()) ==> r is OutOfRange && final(self)@ == old(self)@,
            old(self).wf() ==> final(self).wf(),
    {
        if index == 0 {
            return IndexOutcome::OutOfRange;
        }
        let i = index - 1;
        match vec_try_remove(&mut self.list, i) {
            Some(_) => {
                proof {
                    assert(self@ =~= old(self)@.remove(i as int));
                }
                IndexOutcome::Applied
            },
            None => IndexOutcome::OutOfRange,
        }
    }

    /// Removes every task regardless of status.
    pub fn clear(&mut self)
        ensures
            final(self)@ == Seq::<TaskView>::empty(),
    {
        self.list.clear();
        proof {
            assert(self@ =~= Seq::<TaskView>::empty());
        }
    }

    /// Renders the whole list as the content of the backing file: one line
    /// per task, in list order, each terminated by a line break.
    #[verifier::loop_isolation(false)]
    pub fn save(&self) -> (r: String)
        ensures
            r@ == spec_save(self@),
    {
        let mut s = String::new();
        let mut i: usize = 0;
        while i < self.list.len()
            invariant
                0 <= i <= self.list.len(),
                s@ == spec_save(self@.take(i as int)),
            decreases self.list.len() - i,
        {
            let t = &self.list[i];
            let line = t.render();
            s.append(line.as_str());
            s.append("\n");
            proof {
                reveal_strlit("\n");
                assert(self@.take(i + 1) =~= self@.take(i as int).push(self@[i as int]));
                lemma_save_push(self@.take(i as int), self@[i as int]);
                assert(s@ =~= spec_save(self@.take(i + 1)));
            }
            i += 1;
        }
        proof {
            assert(self@.take(self.list.len() as int) =~= self@);
        }
        s
    }

    /// The terminal listing lines for this list, one per task that the
    /// filter keeps.
    #[verifier::loop_isolation(false)]
    fn listing(&self, only_todo: bool) -> (r: Vec<String>)
        ensures
            line_views(r@) == spec_listing(self@, self@.len() as int, only_todo),
    {
        let mut out: Vec<String> = Vec::new();
        let mut i: usize = 0;
        while i < self.list.len()
            invariant
                0 <= i <= self.list.len(),
                line_views(out@) == spec_listing(self@, i as int, only_todo),
            decreases self.list.len() - i,
        {
            let ghost prev = out@;
            let t = &self.list[i];
            let keep = if only_todo {
                match t.status() {
                    Status::Todo => true,
                    Status::Done => false,
                }
            } else {
                true
            };
            if keep {
                let mut idx = usize_string(i + 1);
                idx.append(".");
                let painted = paint_dimmed(idx.as_str());
                let mut line = String::new();
                line.append(" ");
                line.append(painted.as_str());
                line.append(" ");
                let disp = t.display_line();
                line.append(disp.as_str());
                proof {
                    reveal_strlit(" ");
                    reveal_strlit(".");
                    assert(idx@ =~= dec_rep((i + 1) as nat).push('.'));
                    assert(line@ =~= spec_line(i as int, self@[i as int]));
                }
                out.push(line);
                proof {
                    assert(line_views(out@) =~= line_views(prev).push(
                        spec_line(i as int, self@[i as int]),
                    ));
                }
            }
            i += 1;
        }
        out
    }

    /// The listing lines of only the tasks still to do, in list order, each
    /// keeping the 1-based display index of its position in the full list.
    pub fn print_unchecked(&self) -> (r: Vec<String>)
        ensures
            line_views(r@) == spec_listing(self@, self@.len() as int, true),
    {
        self.listing(true)
    }

    /// The listing lines of every task, in list order, with 1-based display
    /// indices.
    pub fn print_all(&self) -> (r: Vec<String>)
        ensures
            line_views(r@) == spec_listing(self@, self@.len() as int, false),
    {
        self.listing(false)
    }

    /// Removes every done task, preserving the relative order of the
    /// remaining todo tasks.
    #[verifier::loop_isolation(false)]
    #[verifier::rlimit(30)]
    pub fn cleanup(&mut self)
        ensures
            final(self)@ == old(self)@.filter(|t: TaskView| t.status is Todo),
            old(self).wf() ==> final(self).wf(),
    {
        let ghost pred = |t: TaskView| t.status is Todo;
        let ghost m0 = self@;
        let mut v: Vec<Task> = Vec::new();
        core::mem::swap(&mut self.list, &mut v);
        proof {
            reveal(Seq::filter);
            assert(m0.take(0) =~= Seq::<TaskView>::empty());
            assert(self@ =~= m0.take(0).filter(pred));
            assert(views_of(v@) =~= m0.skip(0));
        }
        let ghost mut j: int = 0;
        while v.len() > 0
            invariant
                0 <= j <= m0.len(),
                v@.len() == m0.len() - j,
                self@ == m0.take(j).filter(pred),
                views_of(v@) == m0.skip(j),
                old(self).wf() ==> forall|k: int|
                    0 <= k < self@.len() ==> (#[trigger] self@[k]).wf(),
            decreases v.len(),
        {
            let ghost prev = v@;
            let t = vec_try_remove(&mut v, 0).unwrap();
            proof {
                assert(views_of(prev)[0] == prev[0]@);
                assert(t@ == m0.skip(j)[0]);
                assert(t@ == m0[j]);
                assert(v@ =~= prev.subrange(1, prev.len() as int));
            }
            let keep = match t.status() {
                Status::Todo => true,
                Status::Done => false,
            };
            if keep {
                self.list.push(t);
            }
            proof {
                assert(m0.take(j + 1) =~= m0.take(j).push(m0[j]));
                lemma_filter_push(m0.take(j), m0[j], pred);
                assert(keep == pred(m0[j]));
                if keep {
                    assert(self@ =~= m0.take(j).filter(pred).push(m0[j]));
                }
                assert(self@ == m0.take(j + 1).filter(pred));
                assert forall|k: int| 0 <= k < v@.len() implies #[trigger] views_of(v@)[k] == m0.skip(
                    j + 1,
                )[k] by {
                    assert(v@[k] == prev[k + 1]);
                    assert(views_of(prev)[k + 1] == m0.skip(j)[k + 1]);
                }
                assert(views_of(v@) =~= m0.skip(j + 1));
                j = j + 1;
            }
        }
        proof {
            assert(j == m0.len());
            assert(m0.take(j) =~= m0);
        }
    }
}

} // verus!
