//! The command grammar and its effect on the task list and the display mode.
use crate::clock::{current_year, parse_stamp, resolve_local, stamp_of, wall_seconds, LocalStamp};
use crate::task::{
    flipped, next_status, views, Deadline, Status, TimeFormat, Todo, TodoView, Viewer,
};
use crate::text::{
    all_dec_digits, all_digits, dec_digits_from, decimal, decimal_text, digit_end, digits_from,
    digits_value, lacks_newline, lemma_digit_end_bounds, lemma_ws_end_bounds, no_newline, parse_index,
    skip_digits, skip_whitespace, trim, trim_text, ws_end,
};
use vstd::prelude::*;

verus! {

#[derive(Clone, Copy, Debug, PartialEq, Eq, Structural)]
pub enum CommandError {
    InvalidCommand,
    InvalidIndexFormat,
    IndexOutOfBounds,
    InvalidDatetimeFormat,
}

impl CommandError {
    /// The message shown to the user.
    pub fn message(&self) -> (r: &'static str)
        ensures
            *self == CommandError::InvalidCommand ==> r@ == "Invalid command format"@,
            *self == CommandError::InvalidIndexFormat ==> r@ == "Invalid index format"@,
            *self == CommandError::IndexOutOfBounds ==> r@ == "Index out of bounds"@,
            *self == CommandError::InvalidDatetimeFormat ==> r@ == "Invalid datetime format"@,
    {
        match self {
            CommandError::InvalidCommand => "Invalid command format",
            CommandError::InvalidIndexFormat => "Invalid index format",
            CommandError::IndexOutOfBounds => "Index out of bounds",
            CommandError::InvalidDatetimeFormat => "Invalid datetime format",
        }
    }
}

/// One parsed command line.
#[derive(Debug)]
pub enum Command {
    Quit,
    ToggleMode,
    Delete { index: usize },
    ToggleStatus { index: usize },
    Edit { index: usize, name: String },
    /// `when` is the date text, still to be read against the current year.
    Add { when: String, name: String },
}

pub enum CommandView {
    Quit,
    ToggleMode,
    Delete { index: nat },
    ToggleStatus { index: nat },
    Edit { index: nat, name: Seq<char> },
    Add { when: Seq<char>, name: Seq<char> },
}

impl View for Command {
    type V = CommandView;

    open spec fn view(&self) -> CommandView {
        match self {
            Command::Quit => CommandView::Quit,
            Command::ToggleMode => CommandView::ToggleMode,
            Command::Delete { index } => CommandView::Delete { index: *index as nat },
            Command::ToggleStatus { index } => CommandView::ToggleStatus { index: *index as nat },
            Command::Edit { index, name } => CommandView::Edit { index: *index as nat, name: name@ },
            Command::Add { when, name } => CommandView::Add { when: when@, name: name@ },
        }
    }
}

/// What happens after a command: the loop goes on, or the program ends.
#[derive(Clone, Copy, Debug, PartialEq, Eq, Structural)]
pub enum Flow {
    Continue,
    Quit,
}

/// `t` is `lead`, whitespace, then decimal digits to the end (`^d\s+(\d+)$`).
pub open spec fn index_form(t: Seq<char>, lead: char) -> bool {
    let p = ws_end(t, 1);
    &&& t.len() > 0
    &&& t[0] == lead
    &&& p > 1
    &&& p < t.len()
    &&& all_dec_digits(t.subrange(p, t.len() as int))
}

/// The digits of a delete or toggle line.
pub open spec fn index_token(t: Seq<char>) -> Seq<char> {
    t.subrange(ws_end(t, 1), t.len() as int)
}

/// The index that a run of decimal digits gives: `None` where it holds a digit
/// other than `0` to `9`, or where its value does not fit in `usize`.
pub open spec fn index_of(digits: Seq<char>) -> Option<nat> {
    if all_digits(digits) && digits_value(digits) <= usize::MAX {
        Some(digits_value(digits))
    } else {
        None
    }
}

/// `t` is `e`, one space, digits, one space and a rest without line feeds
/// (`^e (\d+) (.+)$`).
pub open spec fn edit_form(t: Seq<char>) -> bool {
    let d = digit_end(t, 2);
    &&& t.len() > 2
    &&& t[0] == 'e'
    &&& t[1] == ' '
    &&& d > 2
    &&& d + 1 < t.len()
    &&& t[d] == ' '
    &&& no_newline(t.subrange(d + 1, t.len() as int))
}

/// `t` matches `^a\s+\((.+?)\)\s+(.+)$` with the date group closed at `k`.
pub open spec fn add_close(t: Seq<char>, k: int) -> bool {
    let p = ws_end(t, 1);
    let q = ws_end(t, k + 1);
    &&& t.len() > 0
    &&& t[0] == 'a'
    &&& p > 1
    &&& p < t.len()
    &&& t[p] == '('
    &&& p + 1 < k < t.len()
    &&& t[k] == ')'
    &&& no_newline(t.subrange(p + 1, k))
    &&& q > k + 1
    &&& q < t.len()
    &&& no_newline(t.subrange(q, t.len() as int))
}

/// The first position from `k` on that closes the date group; `t.len()` if none does.
/// The lazy group of the pattern takes the first such position.
pub open spec fn first_close(t: Seq<char>, k: int) -> int
    decreases t.len() - k,
{
    if k >= t.len() {
        t.len() as int
    } else if add_close(t, k) {
        k
    } else {
        first_close(t, k + 1)
    }
}

/// The command that a line denotes. The line is trimmed first; the forms are
/// tried in the order quit, display mode, delete, toggle, edit, add.
pub open spec fn parse_spec(line: Seq<char>) -> Result<CommandView, CommandError> {
    let t = trim(line);
    if t == seq!['q'] {
        Ok(CommandView::Quit)
    } else if t == seq!['s'] {
        Ok(CommandView::ToggleMode)
    } else if index_form(t, 'd') {
        match index_of(index_token(t)) {
            Some(v) => Ok(CommandView::Delete { index: v }),
            None => Err(CommandError::InvalidIndexFormat),
        }
    } else if index_form(t, 't') {
        match index_of(index_token(t)) {
            Some(v) => Ok(CommandView::ToggleStatus { index: v }),
            None => Err(CommandError::InvalidIndexFormat),
        }
    } else if edit_form(t) {
        let d = digit_end(t, 2);
        match index_of(t.subrange(2, d)) {
            Some(v) => Ok(
                CommandView::Edit { index: v, name: trim(t.subrange(d + 1, t.len() as int)) },
            ),
            None => Err(CommandError::InvalidIndexFormat),
        }
    } else if first_close(t, 0) < t.len() {
        let k = first_close(t, 0);
        Ok(
            CommandView::Add {
                when: trim(t.subrange(ws_end(t, 1) + 1, k)),
                name: trim(t.subrange(ws_end(t, k + 1), t.len() as int)),
            },
        )
    } else {
        Err(CommandError::InvalidCommand)
    }
}

pub open spec fn parsed_view(r: Result<Command, CommandError>) -> Result<CommandView, CommandError> {
    match r {
        Ok(c) => Ok(c@),
        Err(e) => Err(e),
    }
}

/// The result, the tasks and the display mode after command `c`. `added` is the
/// deadline that an add command's date text resolved to, if it resolved.
pub open spec fn apply_spec(
    c: CommandView,
    todos: Seq<TodoView>,
    mode: TimeFormat,
    added: Option<Deadline>,
) -> (Result<Flow, CommandError>, Seq<TodoView>, TimeFormat) {
    match c {
        CommandView::Quit => (Ok(Flow::Quit), todos, mode),
        CommandView::ToggleMode => (Ok(Flow::Continue), todos, flipped(mode)),
        CommandView::Delete { index } => if index < todos.len() {
            (Ok(Flow::Continue), todos.remove(index as int), mode)
        } else {
            (Err(CommandError::IndexOutOfBounds), todos, mode)
        },
        CommandView::ToggleStatus { index } => if index < todos.len() {
            let t = todos[index as int];
            (
                Ok(Flow::Continue),
                todos.update(
                    index as int,
                    TodoView { name: t.name, status: next_status(t.status), deadline: t.deadline },
                ),
                mode,
            )
        } else {
            (Err(CommandError::IndexOutOfBounds), todos, mode)
        },
        CommandView::Edit { index, name } => if index < todos.len() {
            let t = todos[index as int];
            (
                Ok(Flow::Continue),
                todos.update(
                    index as int,
                    TodoView { name: name, status: t.status, deadline: t.deadline },
                ),
                mode,
            )
        } else {
            (Err(CommandError::IndexOutOfBounds), todos, mode)
        },
        CommandView::Add { when, name } => match added {
            Some(d) => (
                Ok(Flow::Continue),
                todos.push(TodoView { name: name, status: Status::NotStarted, deadline: d }),
                mode,
            ),
            None => (Err(CommandError::InvalidDatetimeFormat), todos, mode),
        },
    }
}

/// The text handed to the date reader: the date text, a space, and the year.
pub open spec fn date_text(when: Seq<char>, year: int) -> Seq<char> {
    if year < 0 {
        when + seq![' ', '-'] + decimal((-year) as nat)
    } else {
        when + seq![' '] + decimal(year as nat)
    }
}

proof fn lemma_first_close(t: Seq<char>, k: int)
    requires
        0 <= k,
    ensures
        first_close(t, k) < t.len() ==> add_close(t, first_close(t, k)),
    decreases t.len() - k,
{
    if k < t.len() && !add_close(t, k) {
        lemma_first_close(t, k + 1);
    }
}

/// Matches `t` against `^<lead>\s+(\d+)$`: `None` where it does not match,
/// else the index, or `None` inside where the digits give none.
fn match_index_form(t: &str, lead: char) -> (r: Option<Option<usize>>)
    ensures
        r is Some <==> index_form(t@, lead),
        r matches Some(v) ==> match v {
            Some(i) => index_of(index_token(t@)) == Some(i as nat),
            None => index_of(index_token(t@)) is None,
        },
{
    let n = t.unicode_len();
    if n == 0 || t.get_char(0) != lead {
        return None;
    }
    let p = skip_whitespace(t, 1);
    proof {
        lemma_ws_end_bounds(t@, 1);
    }
    if p <= 1 || p >= n || !dec_digits_from(t, p) {
        return None;
    }
    if !digits_from(t, p) {
        return Some(None);
    }
    Some(parse_index(t, p))
}

/// The position where the digits of an edit command end, where `t` is one.
fn match_edit_form(t: &str) -> (r: Option<usize>)
    ensures
        r is Some <==> edit_form(t@),
        r matches Some(d) ==> d == digit_end(t@, 2),
{
    let n = t.unicode_len();
    if n <= 2 || t.get_char(0) != 'e' || t.get_char(1) != ' ' {
        return None;
    }
    let d = skip_digits(t, 2);
    proof {
        lemma_digit_end_bounds(t@, 2);
    }
    if d <= 2 || d >= n - 1 || t.get_char(d) != ' ' || !lacks_newline(t, d + 1, n) {
        return None;
    }
    Some(d)
}

fn closes_at(t: &str, k: usize) -> (r: bool)
    requires
        k < t@.len(),
    ensures
        r == add_close(t@, k as int),
{
    let n = t.unicode_len();
    if n == 0 || t.get_char(0) != 'a' {
        return false;
    }
    let p = skip_whitespace(t, 1);
    proof {
        lemma_ws_end_bounds(t@, 1);
    }
    if p <= 1 || p >= n || t.get_char(p) != '(' {
        return false;
    }
    if !(p + 1 < k && t.get_char(k) == ')') {
        return false;
    }
    if !lacks_newline(t, p + 1, k) {
        return false;
    }
    let q = skip_whitespace(t, k + 1);
    proof {
        lemma_ws_end_bounds(t@, k + 1);
    }
    q > k + 1 && q < n && lacks_newline(t, q, n)
}

/// The position that closes the date group of an add command; `t.len()` if none does.
fn find_close(t: &str) -> (r: usize)
    ensures
        r == first_close(t@, 0),
{
    let n = t.unicode_len();
    let mut k: usize = 0;
    while k < n
        invariant
            n == t@.len(),
            k <= n,
            first_close(t@, k as int) == first_close(t@, 0),
        decreases n - k,
    {
        if closes_at(t, k) {
            return k;
        }
        k = k + 1;
    }
    n
}

/// Parses one command line.
pub fn parse_command(line: &str) -> (r: Result<Command, CommandError>)
    ensures
        parsed_view(r) == parse_spec(line@),
{
    let t = trim_text(line);
    let n = t.unicode_len();
    if n == 1 && t.get_char(0) == 'q' {
        assert(t@ =~= seq!['q']);
        return Ok(Command::Quit);
    }
    if n == 1 && t.get_char(0) == 's' {
        assert(t@ =~= seq!['s']);
        return Ok(Command::ToggleMode);
    }
    assert(t@ != seq!['q'] && t@ != seq!['s']) by {
        if t@ == seq!['q'] || t@ == seq!['s'] {
            assert(t@.len() == 1);
        }
    }
    match match_index_form(t, 'd') {
        Some(Some(i)) => return Ok(Command::Delete { index: i }),
        Some(None) => return Err(CommandError::InvalidIndexFormat),
        None => {},
    }
    match match_index_form(t, 't') {
        Some(Some(i)) => return Ok(Command::ToggleStatus { index: i }),
        Some(None) => return Err(CommandError::InvalidIndexFormat),
        None => {},
    }
    match match_edit_form(t) {
        Some(d) => {
            proof {
                lemma_digit_end_bounds(t@, 2);
            }
            let digits = t.substring_char(2, d);
            assert(digits@.subrange(0, digits@.len() as int) =~= digits@);
            if !digits_from(digits, 0) {
                return Err(CommandError::InvalidIndexFormat);
            }
            match parse_index(digits, 0) {
                Some(i) => {
                    let name = trim_text(t.substring_char(d + 1, n));
                    return Ok(Command::Edit { index: i, name: String::from_str(name) });
                },
                None => return Err(CommandError::InvalidIndexFormat),
            }
        },
        None => {},
    }
    let k = find_close(t);
    if k < n {
        proof {
            lemma_first_close(t@, 0);
            lemma_ws_end_bounds(t@, 1);
            lemma_ws_end_bounds(t@, k + 1);
        }
        let p = skip_whitespace(t, 1);
        let q = skip_whitespace(t, k + 1);
        let when = trim_text(t.substring_char(p + 1, k));
        let name = trim_text(t.substring_char(q, n));
        return Ok(Command::Add { when: String::from_str(when), name: String::from_str(name) });
    }
    Err(CommandError::InvalidCommand)
}

/// Carries out a parsed command. `added` is the deadline that an add command's
/// date text resolved to; other commands ignore it.
pub fn execute(cmd: Command, todos: &mut Vec<Todo>, viewer: &mut Viewer, added: Option<
    Deadline,
>) -> (r: Result<Flow, CommandError>)
    ensures
        (r, views(final(todos)@), final(viewer).time_format) == apply_spec(
            cmd@,
            views(old(todos)@),
            old(viewer).time_format,
            added,
        ),
{
    let ghost before = views(todos@);
    match cmd {
        Command::Quit => Ok(Flow::Quit),
        Command::ToggleMode => {
            viewer.flip_time_format();
            Ok(Flow::Continue)
        },
        Command::Delete { index } => {
            if index < todos.len() {
                todos.remove(index);
                assert(views(todos@) =~= before.remove(index as int));
                Ok(Flow::Continue)
            } else {
                Err(CommandError::IndexOutOfBounds)
            }
        },
        Command::ToggleStatus { index } => {
            if index < todos.len() {
                let mut t = todos.remove(index);
                t.status = t.status.next();
                todos.insert(index, t);
                let ghost o = before[index as int];
                assert(views(todos@) =~= before.update(
                    index as int,
                    TodoView { name: o.name, status: next_status(o.status), deadline: o.deadline },
                ));
                Ok(Flow::Continue)
            } else {
                Err(CommandError::IndexOutOfBounds)
            }
        },
        Command::Edit { index, name } => {
            if index < todos.len() {
                let ghost nv = name@;
                let mut t = todos.remove(index);
                t.name = name;
                todos.insert(index, t);
                let ghost o = before[index as int];
                assert(views(todos@) =~= before.update(
                    index as int,
                    TodoView { name: nv, status: o.status, deadline: o.deadline },
                ));
                Ok(Flow::Continue)
            } else {
                Err(CommandError::IndexOutOfBounds)
            }
        },
        Command::Add { name, .. } => match added {
            Some(d) => {
                let ghost nv = name@;
                todos.push(Todo { name, status: Status::NotStarted, deadline: d });
                assert(views(todos@) =~= before.push(
                    TodoView { name: nv, status: Status::NotStarted, deadline: d },
                ));
                Ok(Flow::Continue)
            },
            None => Err(CommandError::InvalidDatetimeFormat),
        },
    }
}

/// The text handed to the date reader for `when` in `year`.
pub fn date_text_of(when: &str, year: i32) -> (r: String)
    ensures
        r@ == date_text(when@, year as int),
{
    proof {
        reveal_strlit(" -");
        reveal_strlit(" ");
    }
    let mut s = String::from_str(when);
    if year < 0 {
        s.append(" -");
        let digits = decimal_text((-(year as i64)) as u64);
        s.append(digits.as_str());
        assert(s@ =~= when@ + seq![' ', '-'] + decimal((-year) as nat));
    } else {
        s.append(" ");
        let digits = decimal_text(year as u64);
        s.append(digits.as_str());
        assert(s@ =~= when@ + seq![' '] + decimal(year as nat));
    }
    s
}

/// What an add command's date text `when`, read in `year`, may resolve to: nothing
/// where the text names no date; else, if anything, a deadline whose local
/// time at its own offset is the wall-clock time that the text names.
pub open spec fn add_outcome(when: Seq<char>, year: int, a: Option<Deadline>) -> bool {
    &&& stamp_of(date_text(when, year)) is None ==> a is None
    &&& a matches Some(d) ==> {
        &&& d.wf()
        &&& stamp_of(date_text(when, year)) matches Some(s)
        &&& d.timestamp + d.offset == wall_seconds(s)
    }
}

/// The wall-clock time that the date text of an add command names in `year`.
pub fn parse_add_stamp(when: &str, year: i32) -> (r: Option<LocalStamp>)
    ensures
        r == stamp_of(date_text(when@, year as int)),
{
    let text = date_text_of(when, year);
    parse_stamp(text.as_str())
}

/// The deadline that the date text of an add command names in `year`, placed in
/// the local time zone. `None` where the text names no date, or where the
/// wall-clock time does not name exactly one instant there.
pub fn add_deadline(when: &str, year: i32) -> (r: Option<Deadline>)
    ensures
        add_outcome(when@, year as int, r),
{
    match parse_add_stamp(when, year) {
        Some(stamp) => resolve_local(&stamp),
        None => None,
    }
}

/// Interprets one command line against the tasks and the display mode. The date
/// of an add command is read against the current year and placed in the local
/// time zone; every other command is decided by the line alone.
pub fn process_command(input: &str, todos: &mut Vec<Todo>, viewer: &mut Viewer) -> (r: Result<
    Flow,
    CommandError,
>)
    ensures
        match parse_spec(input@) {
            Err(e) => {
                &&& r == Err::<Flow, CommandError>(e)
                &&& views(final(todos)@) == views(old(todos)@)
                &&& final(viewer).time_format == old(viewer).time_format
            },
            Ok(c) => if c is Add {
                exists|y: i32, a: Option<Deadline>|
                    #[trigger] add_outcome(c->Add_when, y as int, a) && (
                    r,
                    views(final(todos)@),
                    final(viewer).time_format,
                ) == apply_spec(c, views(old(todos)@), old(viewer).time_format, a)
            } else {
                (r, views(final(todos)@), final(viewer).time_format) == apply_spec(
                    c,
                    views(old(todos)@),
                    old(viewer).time_format,
                    None,
                )
            },
        },
{
    match parse_command(input) {
        Err(e) => Err(e),
        Ok(cmd) => {
            let ghost c = cmd@;
            let ghost mut year: i32 = 0;
            let added = match &cmd {
                Command::Add { when, .. } => {
                    let y = current_year();
                    proof {
                        year = y;
                    }
                    add_deadline(when.as_str(), y)
                },
                _ => None,
            };
            let r = execute(cmd, todos, viewer, added);
            proof {
                if c is Add {
                    assert(add_outcome(c->Add_when, year as int, added));
                }
            }
            r
        },
    }
}

/// Deleting a task at a valid index removes exactly that task; the others keep
/// their relative order.
pub proof fn lemma_delete_keeps_order(
    index: nat,
    todos: Seq<TodoView>,
    mode: TimeFormat,
    added: Option<Deadline>,
)
    requires
        index < todos.len(),
    ensures
        ({
            let (r, after, m) = apply_spec(CommandView::Delete { index }, todos, mode, added);
            &&& r == Ok::<Flow, CommandError>(Flow::Continue)
            &&& after.len() == todos.len() - 1
            &&& forall|j: int| 0 <= j < index ==> after[j] == todos[j]
            &&& forall|j: int| index <= j < after.len() ==> after[j] == todos[j + 1]
            &&& m == mode
        }),
{
}

/// An index at or past the end is refused by delete, toggle and edit, and
/// nothing changes.
pub proof fn lemma_out_of_range_refused(
    c: CommandView,
    todos: Seq<TodoView>,
    mode: TimeFormat,
    added: Option<Deadline>,
)
    requires
        match c {
            CommandView::Delete { index } => index >= todos.len(),
            CommandView::ToggleStatus { index } => index >= todos.len(),
            CommandView::Edit { index, name } => index >= todos.len(),
            _ => false,
        },
    ensures
        apply_spec(c, todos, mode, added) == (
            Err::<Flow, CommandError>(CommandError::IndexOutOfBounds),
            todos,
            mode,
        ),
{
}

/// A delete, toggle or edit line whose index is at or past the end of the list
/// is refused with `IndexOutOfBounds`, and the tasks and the display mode stay
/// as they were.
pub proof fn lemma_out_of_range_line_refused(
    line: Seq<char>,
    todos: Seq<TodoView>,
    mode: TimeFormat,
    added: Option<Deadline>,
)
    requires
        parse_spec(line) matches Ok(c) && match c {
            CommandView::Delete { index } => index >= todos.len(),
            CommandView::ToggleStatus { index } => index >= todos.len(),
            CommandView::Edit { index, name } => index >= todos.len(),
            _ => false,
        },
    ensures
        parse_spec(line) matches Ok(c) && apply_spec(c, todos, mode, added) == (
            Err::<Flow, CommandError>(CommandError::IndexOutOfBounds),
            todos,
            mode,
        ),
{
    lemma_out_of_range_refused(parse_spec(line)->Ok_0, todos, mode, added);
}

/// Toggling a task three times restores its status, and toggling it once
/// always changes it.
pub proof fn lemma_toggle_cycle(
    index: nat,
    todos: Seq<TodoView>,
    mode: TimeFormat,
    added: Option<Deadline>,
)
    requires
        index < todos.len(),
    ensures
        ({
            let c = CommandView::ToggleStatus { index };
            let once = apply_spec(c, todos, mode, added).1;
            let twice = apply_spec(c, once, mode, added).1;
            let thrice = apply_spec(c, twice, mode, added).1;
            &&& once[index as int].status != todos[index as int].status
            &&& thrice =~= todos
        }),
{
    let c = CommandView::ToggleStatus { index };
    let once = apply_spec(c, todos, mode, added).1;
    let twice = apply_spec(c, once, mode, added).1;
    let thrice = apply_spec(c, twice, mode, added).1;
    assert(thrice[index as int] == todos[index as int]);
}

} // verus!
