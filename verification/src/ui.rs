//! What the screens draw, as plain values: a table cell and a popup item.

use crate::text::owned;
use vstd::prelude::*;

verus! {

/// One cell of a table: its text, and whether it carries an answer, which
/// the screen draws white.
pub struct Cell {
    pub text: String,
    pub set: bool,
}

/// One item of a popup, with the choices it opens where it opens any.
pub struct MenuItem {
    pub label: &'static str,
    pub children: Vec<&'static str>,
}

/// A cell as plain values.
pub open spec fn cell_view(c: Cell) -> (Seq<char>, bool) {
    (c.text@, c.set)
}

pub open spec fn cells_view(cells: Seq<Cell>) -> Seq<(Seq<char>, bool)> {
    cells.map_values(|c: Cell| cell_view(c))
}

/// A popup item as plain values.
pub open spec fn item_view(m: MenuItem) -> (Seq<char>, Seq<Seq<char>>) {
    (m.label@, m.children@.map_values(|s: &'static str| s@))
}

pub open spec fn items_view(items: Seq<MenuItem>) -> Seq<(Seq<char>, Seq<Seq<char>>)> {
    items.map_values(|m: MenuItem| item_view(m))
}

impl Cell {
    /// A cell that reports what is there.
    pub fn new(text: &str) -> (cell: Cell)
        ensures
            cell.text@ == text@,
            !cell.set,
    {
        Cell { text: owned(text), set: false }
    }

    /// A cell that carries an answer.
    pub fn set(text: &str) -> (cell: Cell)
        ensures
            cell.text@ == text@,
            cell.set,
    {
        Cell { text: owned(text), set: true }
    }
}

impl MenuItem {
    /// An item that answers by itself.
    pub fn new(label: &'static str) -> (item: MenuItem)
        ensures
            item.label == label,
            item.children@.len() == 0,
    {
        MenuItem { label, children: Vec::new() }
    }

    /// An item that opens a list of choices.
    pub fn under(label: &'static str, children: Vec<&'static str>) -> (item: MenuItem)
        ensures
            item.label == label,
            item.children == children,
    {
        MenuItem { label, children }
    }
}

/// One free span the create window draws on its bar: the partitions on
/// either side of it, by the names the layout table draws them by, and the
/// whole GB it offers. A side with no partition is the start or the end of
/// the disk.
pub struct Hole {
    pub before: Option<String>,
    pub after: Option<String>,
    pub gb: u64,
}

/// An optional name as plain text.
pub open spec fn side_view(side: Option<String>) -> Option<Seq<char>> {
    match side {
        Some(name) => Some(name@),
        None => None,
    }
}

/// A span of the bar as plain values.
pub open spec fn hole_view(h: Hole) -> (Option<Seq<char>>, Option<Seq<char>>, u64) {
    (side_view(h.before), side_view(h.after), h.gb)
}

pub open spec fn holes_view(hs: Seq<Hole>) -> Seq<(Option<Seq<char>>, Option<Seq<char>>, u64)> {
    hs.map_values(|h: Hole| hole_view(h))
}

/// One option of a pick or radio row: its label, the reason or detail drawn
/// beside it, whether it can be taken, and whether the menu leaves it out.
pub struct Choice {
    pub label: String,
    pub detail: String,
    pub unavailable: bool,
    pub hidden: bool,
}

/// An option as plain values.
pub open spec fn choice_view(c: Choice) -> (Seq<char>, Seq<char>, bool, bool) {
    (c.label@, c.detail@, c.unavailable, c.hidden)
}

pub open spec fn choices_view(cs: Seq<Choice>) -> Seq<(Seq<char>, Seq<char>, bool, bool)> {
    cs.map_values(|c: Choice| choice_view(c))
}

impl Choice {
    /// An option that can be taken.
    pub fn new(label: &str, detail: &str) -> (c: Choice)
        ensures
            choice_view(c) == (label@, detail@, false, false),
    {
        Choice { label: owned(label), detail: owned(detail), unavailable: false, hidden: false }
    }

    /// An option drawn dim beside its reason, which cannot be taken.
    pub fn dim(label: &str, why: &str) -> (c: Choice)
        ensures
            choice_view(c) == (label@, why@, true, false),
    {
        Choice { label: owned(label), detail: owned(why), unavailable: true, hidden: false }
    }

    /// An option that stands in the menu with its reason and cannot be
    /// taken, and that a numbered prompt leaves out.
    pub fn refused(label: &str, why: &str) -> (c: Choice)
        ensures
            choice_view(c) == (label@, why@, true, true),
    {
        Choice { label: owned(label), detail: owned(why), unavailable: true, hidden: true }
    }
}

/// One line of the panel above a form: a section heading, a label with its
/// value, a plain row, or a value drawn green or amber.
pub enum HeaderLine {
    Section(String),
    Pair(String, String),
    Row(String),
    Good(String, String),
    Warn(String, String),
}

/// A panel line as plain values: its kind and its two texts, the second
/// empty for a heading or a row.
pub open spec fn line_view(l: HeaderLine) -> (int, Seq<char>, Seq<char>) {
    match l {
        HeaderLine::Section(t) => (0, t@, Seq::empty()),
        HeaderLine::Pair(a, b) => (1, a@, b@),
        HeaderLine::Row(t) => (2, t@, Seq::empty()),
        HeaderLine::Good(a, b) => (3, a@, b@),
        HeaderLine::Warn(a, b) => (4, a@, b@),
    }
}

pub open spec fn lines_view(ls: Seq<HeaderLine>) -> Seq<(int, Seq<char>, Seq<char>)> {
    ls.map_values(|l: HeaderLine| line_view(l))
}

/// How a row of a screen's body draws: plain, as a section heading, as
/// content under one, tinted, or in the warning colour.
#[derive(Clone, Copy, Debug, PartialEq, Eq, Structural)]
pub enum Look {
    Plain,
    Heading,
    Content,
    Tinted,
    Warning,
}

} // verus!
