//! The text and the color of a task's line.
use crate::clock::{absolute_text_of, format_absolute, shows_wall_time};
use crate::task::{Deadline, Status, TimeFormat, Todo, TodoView, Viewer};
use crate::text::{decimal, decimal_text};
use vstd::prelude::*;

verus! {

/// The color of a task's line: done tasks show success, overdue open tasks an
/// alert, the rest the terminal's own color.
#[derive(Clone, Copy, Debug, PartialEq, Eq, Structural)]
pub enum LineColor {
    Plain,
    Success,
    Alert,
}

pub open spec fn glyph(s: Status) -> Seq<char> {
    match s {
        Status::NotStarted => seq![' '],
        Status::InProgress => seq!['.'],
        Status::Completed => seq!['✓'],
    }
}

pub open spec fn distance(a: int, b: int) -> nat {
    if a >= b {
        (a - b) as nat
    } else {
        (b - a) as nat
    }
}

/// The distance between deadline and now in the largest unit that is not zero:
/// days, hours, minutes, else seconds.
pub open spec fn remaining_spec(deadline: int, now: int) -> Seq<char> {
    let d = distance(deadline, now);
    if d / 86_400 > 0 {
        decimal(d / 86_400) + seq!['d']
    } else if d / 3_600 > 0 {
        decimal(d / 3_600) + seq!['h']
    } else if d / 60 > 0 {
        decimal(d / 60) + seq!['m']
    } else {
        decimal(d) + seq!['s']
    }
}

/// The time field of a line. chrono renders every instant that it can represent;
/// a deadline beyond its range shows an empty field.
pub open spec fn time_field(d: Deadline, f: TimeFormat, now: int) -> Seq<char> {
    match f {
        TimeFormat::Absolute => match absolute_text_of(d.timestamp as int, d.offset as int) {
            Some(s) => s,
            None => Seq::empty(),
        },
        TimeFormat::Remaining => remaining_spec(d.timestamp as int, now),
    }
}

/// `[<glyph>] (<time>) <name>`.
pub open spec fn line_text(t: TodoView, f: TimeFormat, now: int) -> Seq<char> {
    seq!['['] + glyph(t.status) + seq![']', ' ', '('] + time_field(t.deadline, f, now) + seq![
        ')',
        ' ',
    ] + t.name
}

pub open spec fn color_spec(t: TodoView, now: int) -> LineColor {
    if t.status == Status::Completed {
        LineColor::Success
    } else if (t.deadline.timestamp as int) < now {
        LineColor::Alert
    } else {
        LineColor::Plain
    }
}

fn unit_text(n: u64, unit: &str) -> (r: String)
    ensures
        r@ == decimal(n as nat) + unit@,
{
    let mut s = decimal_text(n);
    s.append(unit);
    s
}

/// How far `deadline` lies from `now`, before or after, in its largest unit.
pub fn remaining_text(deadline: i64, now: i64) -> (r: String)
    ensures
        r@ == remaining_spec(deadline as int, now as int),
{
    proof {
        reveal_strlit("d");
        reveal_strlit("h");
        reveal_strlit("m");
        reveal_strlit("s");
    }
    let wide: i128 = if deadline >= now {
        deadline as i128 - now as i128
    } else {
        now as i128 - deadline as i128
    };
    let d = wide as u64;
    assert(d as nat == distance(deadline as int, now as int));
    if d / 86_400 > 0 {
        unit_text(d / 86_400, "d")
    } else if d / 3_600 > 0 {
        unit_text(d / 3_600, "h")
    } else if d / 60 > 0 {
        unit_text(d / 60, "m")
    } else {
        unit_text(d, "s")
    }
}

fn glyph_text(s: Status) -> (r: &'static str)
    ensures
        r@ == glyph(s),
{
    proof {
        reveal_strlit(" ");
        reveal_strlit(".");
        reveal_strlit("✓");
    }
    match s {
        Status::NotStarted => " ",
        Status::InProgress => ".",
        Status::Completed => "✓",
    }
}

fn time_text(d: Deadline, f: TimeFormat, now: i64) -> (r: String)
    ensures
        r@ == time_field(d, f, now as int),
        f == TimeFormat::Absolute ==> (absolute_text_of(d.timestamp as int, d.offset as int) matches Some(
            t,
        ) ==> shows_wall_time(d.timestamp + d.offset, t)),
{
    match f {
        TimeFormat::Absolute => match format_absolute(d) {
            Some(s) => s,
            None => {
                let e = String::new();
                assert(e@ =~= Seq::<char>::empty());
                e
            },
        },
        TimeFormat::Remaining => remaining_text(d.timestamp, now),
    }
}

impl Todo {
    /// The line that shows the task, its deadline given as the display mode asks.
    pub fn print(&self, viewer: &Viewer, now: i64) -> (r: String)
        ensures
            r@ == line_text(self@, viewer.time_format, now as int),
            viewer.time_format == TimeFormat::Absolute ==> (absolute_text_of(
                self.deadline.timestamp as int,
                self.deadline.offset as int,
            ) matches Some(t) ==> shows_wall_time(
                self.deadline.timestamp + self.deadline.offset,
                t,
            )),
    {
        proof {
            reveal_strlit("[");
            reveal_strlit("] (");
            reveal_strlit(") ");
        }
        let mut s = String::from_str("[");
        s.append(glyph_text(self.status));
        s.append("] (");
        let t = time_text(self.deadline, viewer.time_format, now);
        s.append(t.as_str());
        s.append(") ");
        s.append(self.name.as_str());
        assert(s@ =~= line_text(self@, viewer.time_format, now as int));
        s
    }

    /// The color of the task's line at the instant `now`.
    pub fn line_color(&self, now: i64) -> (r: LineColor)
        ensures
            r == color_spec(self@, now as int),
    {
        match self.status {
            Status::Completed => LineColor::Success,
            _ => if self.deadline.timestamp < now {
                LineColor::Alert
            } else {
                LineColor::Plain
            },
        }
    }
}

} // verus!
