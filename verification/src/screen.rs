//! The table under the form's `partition layout` row. It carries every disk
//! the scan found. Under the chosen disk it carries the automatic plan as
//! grey rows, or the disk's own partitions with the layout's answers read
//! back onto them and the planned partitions under them.

use crate::answers::{mount_at, open_at, rename_at, CustomLayout, Created, Partition};
use crate::copy::{self, gb_said, gb_text};
use crate::editor::{
    automatic_plan, automatic_rows, created_cells, created_menu, created_menu_spec, created_row,
    disk_menu, effective_fs, effective_of, partition_cells, partition_menu, partition_menu_spec,
    partition_row, row5_view, PartAction,
};
use crate::esp::{fat, is_fat, Label};
use crate::payload::Payload;
use crate::text::{
    cat, chars_of, is_ws, lines, owned, same_ignoring_case, sort_texts, sorted_texts, str_eq,
    str_eq_ignore_case, string_of, trim_end,
};
use crate::ui::{cells_view, items_view, Cell, MenuItem};
use vstd::prelude::*;

verus! {

/// One disk as the scan found it: its node, the line `disks` drew for it
/// (size, model and removable tag joined by two spaces), its partitions, and
/// the systems each partition carries, keyed by the partition's node.
/// `said` holds each partition's size as the screens say it, and `gb` the
/// disk's size in whole GB where its size reads as a number.
pub struct DiskScan {
    pub device: String,
    pub detail: String,
    pub partitions: Vec<Partition>,
    pub said: Vec<String>,
    pub gb: Option<u64>,
    pub labels: Vec<(String, Vec<Label>)>,
}

/// Every disk the scan found.
pub struct Scan {
    pub disks: Vec<DiskScan>,
}

impl DiskScan {
    /// Each partition has its size said.
    pub open spec fn wf(self) -> bool {
        self.said@.len() == self.partitions@.len()
    }
}

impl Scan {
    pub open spec fn wf(self) -> bool {
        forall|i: int| 0 <= i < self.disks@.len() ==> (#[trigger] self.disks@[i]).wf()
    }
}

/// Names one row of the layout table: a whole disk, one partition of the
/// chosen disk, one the plan cuts, or a row the cursor cannot rest on.
pub enum RowKind {
    Disk(String),
    Part { index: usize },
    /// Indexes the layout's own `creates`. A planned partition is on no disk
    /// yet, so the partition listing does not hold it.
    Created { index: usize },
    /// A row the user reads and cannot answer: the automatic plan's rows and
    /// the systems a partition carries.
    Preview,
}

pub open spec fn kind_view(k: RowKind) -> (int, Seq<char>, int) {
    match k {
        RowKind::Disk(d) => (0, d@, 0),
        RowKind::Part { index } => (1, Seq::empty(), index as int),
        RowKind::Created { index } => (2, Seq::empty(), index as int),
        RowKind::Preview => (3, Seq::empty(), 0),
    }
}

/// One row as plain values: its cells, whether the cursor rests on it, its
/// popup's items and their actions, and what it names.
pub type RowView = (Seq<(Seq<char>, bool)>, bool, Seq<(Seq<char>, Seq<Seq<char>>)>, Seq<PartAction>, (int, Seq<char>, int));

/// The table: one entry in each list per row.
pub struct TableData {
    pub rows: Vec<Vec<Cell>>,
    pub selectable: Vec<bool>,
    pub menus: Vec<Vec<MenuItem>>,
    pub actions: Vec<Vec<PartAction>>,
    pub kinds: Vec<RowKind>,
}

impl TableData {
    pub open spec fn wf(self) -> bool {
        &&& self.selectable@.len() == self.rows@.len()
        &&& self.menus@.len() == self.rows@.len()
        &&& self.actions@.len() == self.rows@.len()
        &&& self.kinds@.len() == self.rows@.len()
    }

    pub open spec fn view_rows(self) -> Seq<RowView> {
        Seq::new(
            self.rows@.len(),
            |i: int| (
                cells_view(self.rows@[i]@),
                self.selectable@[i],
                items_view(self.menus@[i]@),
                self.actions@[i]@,
                kind_view(self.kinds@[i]),
            ),
        )
    }

    pub fn new() -> (t: TableData)
        ensures
            t.wf(),
            t.view_rows().len() == 0,
    {
        TableData { rows: Vec::new(), selectable: Vec::new(), menus: Vec::new(), actions: Vec::new(), kinds: Vec::new() }
    }

    pub fn push(&mut self, cells: Vec<Cell>, selectable: bool, menus: Vec<MenuItem>, actions: Vec<PartAction>, kind: RowKind)
        requires
            old(self).wf(),
        ensures
            final(self).wf(),
            final(self).view_rows() == old(self).view_rows().push(
                (cells_view(cells@), selectable, items_view(menus@), actions@, kind_view(kind)),
            ),
    {
        let ghost before = self.view_rows();
        let ghost row = (cells_view(cells@), selectable, items_view(menus@), actions@, kind_view(kind));
        self.rows.push(cells);
        self.selectable.push(selectable);
        self.menus.push(menus);
        self.actions.push(actions);
        self.kinds.push(kind);
        assert(self.view_rows() =~= before.push(row));
    }
}

pub open spec fn blank_cells(first: (Seq<char>, bool), second: (Seq<char>, bool)) -> Seq<(Seq<char>, bool)> {
    seq![first, second, (Seq::<char>::empty(), false), (Seq::<char>::empty(), false), (Seq::<char>::empty(), false), (
        Seq::<char>::empty(),
        false,
    )]
}

fn blank_row(first: Cell, second: Cell) -> (cells: Vec<Cell>)
    ensures
        cells_view(cells@) == blank_cells((first.text@, first.set), (second.text@, second.set)),
{
    let mut cells: Vec<Cell> = Vec::new();
    let ghost a = (first.text@, first.set);
    let ghost b = (second.text@, second.set);
    cells.push(first);
    cells.push(second);
    cells.push(Cell { text: String::new(), set: false });
    cells.push(Cell { text: String::new(), set: false });
    cells.push(Cell { text: String::new(), set: false });
    cells.push(Cell { text: String::new(), set: false });
    assert(cells_view(cells@) =~= blank_cells(a, b));
    cells
}

// ---------------------------------------------------------------------------
// The disk rows

/// Where the first two-space gap of a disk's line starts.
pub open spec fn gap_at(s: Seq<char>) -> Option<int>
    decreases s.len(),
{
    if s.len() < 2 {
        None
    } else if s[0] == ' ' && s[1] == ' ' {
        Some(0)
    } else {
        match gap_at(s.drop_first()) {
            Some(i) => Some(i + 1),
            None => None,
        }
    }
}

/// A disk's line split at its first two-space gap: the size, then the rest.
pub open spec fn detail_parts(detail: Seq<char>) -> (Seq<char>, Seq<char>) {
    match gap_at(detail) {
        Some(i) => (detail.take(i), detail.skip(i + 2)),
        None => (detail, Seq::empty()),
    }
}

proof fn lemma_gap_at(s: Seq<char>, i: int)
    requires
        0 <= i,
        i + 1 < s.len() ==> !(s[i] == ' ' && s[i + 1] == ' ') || true,
        forall|j: int| 0 <= j < i && j + 1 < s.len() ==> !(#[trigger] s[j] == ' ' && s[j + 1] == ' '),
    ensures
        i + 1 < s.len() && s[i] == ' ' && s[i + 1] == ' ' ==> gap_at(s) == Some(i),
        i + 1 >= s.len() ==> gap_at(s) is None,
    decreases i,
{
    if i > 0 && s.len() >= 2 {
        let t = s.drop_first();
        assert(!(s[0] == ' ' && s[1] == ' '));
        assert forall|j: int| 0 <= j < i - 1 && j + 1 < t.len() implies !(#[trigger] t[j] == ' ' && t[j + 1] == ' ') by {
            assert(t[j] == s[j + 1] && t[j + 1] == s[j + 2]);
        }
        lemma_gap_at(t, i - 1);
    }
}

/// Splits a disk's line at its first two-space gap.
pub fn detail_split(detail: &str) -> (out: (String, String))
    ensures
        (out.0@, out.1@) == detail_parts(detail@),
{
    let chars = chars_of(detail);
    let mut i: usize = 0;
    while i < chars.len() && i + 1 < chars.len()
        invariant
            i <= chars.len(),
            chars@ == detail@,
            forall|j: int| 0 <= j < i && j + 1 < chars@.len() ==> !(#[trigger] chars@[j] == ' ' && chars@[j + 1] == ' '),
        decreases chars.len() - i,
    {
        if chars[i] == ' ' && chars[i + 1] == ' ' {
            proof {
                lemma_gap_at(detail@, i as int);
            }
            let size = string_of(crate::text::slice_range(chars.as_slice(), 0, i).as_slice());
            let rest = string_of(crate::text::slice_from(chars.as_slice(), i + 2).as_slice());
            assert(detail@.take(i as int) =~= chars@.subrange(0, i as int));
            return (size, rest);
        }
        i = i + 1;
    }
    proof {
        lemma_gap_at(detail@, i as int);
    }
    (owned(detail), String::new())
}

/// The model a disk's line names, with the removable tag stripped off;
/// `None` where the line names no model or carries no tag.
pub open spec fn model_of(rest: Seq<char>) -> Option<Seq<char>> {
    if copy::REMOVABLE@.is_suffix_of(rest) {
        let model = trim_end(rest.take(rest.len() - copy::REMOVABLE@.len()));
        if model.len() > 0 {
            Some(model)
        } else {
            None
        }
    } else {
        None
    }
}

fn chars_trim_end(s: &[char]) -> (out: Vec<char>)
    ensures
        out@ == trim_end(s@),
{
    let mut n: usize = s.len();
    assert(s@.take(n as int) =~= s@);
    while n > 0 && crate::text::whitespace(s[n - 1])
        invariant
            n <= s@.len(),
            trim_end(s@.take(n as int)) == trim_end(s@),
        decreases n,
    {
        assert(s@.take(n as int).drop_last() =~= s@.take(n - 1));
        n = n - 1;
    }
    assert(trim_end(s@.take(n as int)) == s@.take(n as int));
    crate::text::slice_range(s, 0, n)
}

fn model(rest: &str) -> (out: Option<String>)
    ensures
        match model_of(rest@) {
            Some(m) => out matches Some(s) && s@ == m,
            None => out is None,
        },
{
    if !crate::text::ends_with(rest, copy::REMOVABLE) {
        return None;
    }
    let chars = chars_of(rest);
    let tag = chars_of(copy::REMOVABLE);
    let head = crate::text::slice_range(chars.as_slice(), 0, chars.len() - tag.len());
    let trimmed = chars_trim_end(head.as_slice());
    if trimmed.len() == 0 {
        None
    } else {
        Some(string_of(trimmed.as_slice()))
    }
}

/// The row one disk draws: a radio glyph, filled where it is the chosen disk,
/// before the model with the node in brackets, or the node alone; then the
/// size. The chosen disk's name is drawn white.
pub open spec fn disk_cells(entry: DiskScan, chosen: bool) -> Seq<(Seq<char>, bool)> {
    let (size, rest) = detail_parts(entry.detail@);
    let name = match model_of(rest) {
        Some(m) => m + " ("@ + entry.device@ + ")"@,
        None => entry.device@,
    };
    let radio = if chosen { "\u{25c9}"@ } else { "\u{25cb}"@ };
    blank_cells((radio + " "@ + name, chosen), (size, false))
}

/// The disk's own row: the manual layout's chosen disk opens the disk popup.
pub open spec fn disk_row(entry: DiskScan, chosen: bool, manual: bool) -> RowView {
    let menu: (Seq<(Seq<char>, Seq<Seq<char>>)>, Seq<PartAction>) = if manual && chosen {
        if entry.partitions@.len() > 0 {
            (
                seq![(copy::CREATE_PART@, Seq::<Seq<char>>::empty()), (copy::CLEAR_PARTS@, Seq::<Seq<char>>::empty())],
                seq![PartAction::Create, PartAction::Clear],
            )
        } else {
            (seq![(copy::CREATE_PART@, Seq::<Seq<char>>::empty())], seq![PartAction::Create])
        }
    } else {
        (seq![], seq![])
    };
    (disk_cells(entry, chosen), true, menu.0, menu.1, (0, entry.device@, 0))
}

// ---------------------------------------------------------------------------
// The partition rows

pub open spec fn branch_glyph(last: bool) -> Seq<char> {
    if last { "\u{2514}\u{2500} "@ } else { "\u{251c}\u{2500} "@ }
}

pub open spec fn child_glyph(last: bool) -> Seq<char> {
    if last { "   \u{2514}\u{2500} "@ } else { "   \u{251c}\u{2500} "@ }
}

/// The systems the scan found on one partition, in the order it found them.
pub open spec fn labels_for(ls: Seq<(String, Vec<Label>)>, device: Seq<char>) -> Seq<Label>
    decreases ls.len(),
{
    if ls.len() == 0 {
        seq![]
    } else {
        labels_for(ls.drop_last(), device) + if ls.last().0@ == device { ls.last().1@ } else { seq![] }
    }
}

/// Whether the plan takes the system an ESP entry boots.
pub open spec fn replaced(held: CustomLayout, link: Seq<char>) -> bool {
    link.len() > 0 && (held.deletes_device(link) || mount_at(held.mounts@, link) is Some || open_at(held.opens@, link) is Some)
}

/// An old entry survives on the plan's ESP where the plan leaves its system
/// and the image writes no entry of its name.
pub open spec fn kept_label(held: CustomLayout, entries: Seq<Seq<char>>) -> spec_fn(Label) -> bool {
    |l: Label| !replaced(held, l.link@) && !(exists|k: int| 0 <= k < entries.len() && same_ignoring_case(#[trigger] entries[k], l.name@))
}

/// The answer the layout holds for a partition, as plain values.
pub open spec fn held_answer(held: Option<CustomLayout>, device: Seq<char>) -> Option<(Seq<char>, Seq<char>)> {
    match held {
        Some(l) => l.answer_of(device),
        None => None,
    }
}

/// The systems drawn under one partition, each with whether it is an
/// answer. The plan's ESP carries the entries the image writes, in name
/// order, and the old entries whose systems the plan leaves; a format erases
/// every old entry. Any other partition draws what the scan found on it.
pub open spec fn shown_systems(
    labels: Seq<Label>,
    held: Option<CustomLayout>,
    partition: Partition,
    entries: Seq<Seq<char>>,
) -> Seq<(Seq<char>, bool)> {
    let answer = held_answer(held, partition.device@);
    let esp = held is Some && fat(effective_of(partition, answer)) && (answer matches Some((t, _)) && t == "/boot/efi"@);
    if esp {
        let h = held->0;
        let kept = if h.formats(partition.device@) {
            Seq::<Seq<char>>::empty()
        } else {
            labels.filter(kept_label(h, entries)).map_values(|l: Label| l.name@)
        };
        sort_texts(kept + entries).map_values(|n: Seq<char>| (n, entries.contains(n)))
    } else {
        labels.map_values(|l: Label| (l.name@, false))
    }
}

pub open spec fn child_rows(shown: Seq<(Seq<char>, bool)>) -> Seq<RowView> {
    Seq::new(
        shown.len(),
        |k: int| (
            blank_cells((child_glyph(k + 1 == shown.len()) + shown[k].0, shown[k].1), (Seq::<char>::empty(), false)),
            false,
            Seq::<(Seq<char>, Seq<Seq<char>>)>::empty(),
            Seq::<PartAction>::empty(),
            (3int, Seq::<char>::empty(), 0int),
        ),
    )
}

/// The row of the partition at `at`. `last` is the index that takes the
/// corner glyph, or -1 where the plan's creates take it.
pub open spec fn part_row(entry: DiskScan, held: Option<CustomLayout>, at: int, last: int, boot: bool, composefs: bool) -> RowView {
    let partition = entry.partitions@[at];
    let device = partition.device@;
    let deleted = held matches Some(l) && l.deletes_device(device);
    let renamed = match held {
        Some(l) => match rename_at(l.renames@, device) {
            Some(i) => Some(l.renames@[i].label@),
            None => None,
        },
        None => None,
    };
    let cells = partition_row(partition, entry.said@[at]@, held_answer(held, device), branch_glyph(at == last), deleted, renamed);
    let menu: (Seq<(Seq<char>, Seq<Seq<char>>)>, Seq<PartAction>) = if held is Some {
        partition_menu_spec(partition, held, boot, composefs)
    } else {
        (seq![], seq![])
    };
    (cells, held is Some, menu.0, menu.1, (1, Seq::empty(), at))
}

/// The index that takes the corner glyph among a disk's partitions.
pub open spec fn last_part(entry: DiskScan, held: Option<CustomLayout>) -> int {
    if held matches Some(l) && l.creates@.len() > 0 {
        -1
    } else {
        entry.partitions@.len() - 1
    }
}

/// The rows of a disk's first `n` partitions, each followed by the systems
/// it carries.
pub open spec fn part_rows(entry: DiskScan, held: Option<CustomLayout>, boot: bool, composefs: bool, entries: Seq<Seq<char>>, n: int) -> Seq<RowView>
    decreases n,
{
    if n <= 0 {
        seq![]
    } else {
        let at = n - 1;
        let partition = entry.partitions@[at];
        part_rows(entry, held, boot, composefs, entries, n - 1) + seq![
            part_row(entry, held, at, last_part(entry, held), boot, composefs),
        ] + child_rows(shown_systems(labels_for(entry.labels@, partition.device@), held, partition, entries))
    }
}

pub open spec fn held_of(held: Option<&CustomLayout>) -> Option<CustomLayout> {
    match held {
        Some(l) => Some(*l),
        None => None,
    }
}

pub open spec fn shown_view(rows: Seq<(String, bool)>) -> Seq<(Seq<char>, bool)> {
    rows.map_values(|r: (String, bool)| (r.0@, r.1))
}

/// Gathers the systems the scan found on one partition.
fn labels_on<'a>(ls: &'a Vec<(String, Vec<Label>)>, device: &str) -> (out: Vec<&'a Label>)
    ensures
        out@.map_values(|l: &Label| *l) == labels_for(ls@, device@),
{
    let mut out: Vec<&'a Label> = Vec::new();
    let mut i: usize = 0;
    while i < ls.len()
        invariant
            i <= ls.len(),
            out@.map_values(|l: &Label| *l) == labels_for(ls@.take(i as int), device@),
        decreases ls.len() - i,
    {
        assert(ls@.take(i + 1).drop_last() =~= ls@.take(i as int));
        let ghost before = out@.map_values(|l: &Label| *l);
        if str_eq(ls[i].0.as_str(), device) {
            let found = &ls[i].1;
            let mut k: usize = 0;
            while k < found.len()
                invariant
                    k <= found.len(),
                    out@.map_values(|l: &Label| *l) == before + found@.take(k as int),
                decreases found.len() - k,
            {
                let ghost prev = out@;
                out.push(&found[k]);
                assert(out@ == prev.push(&found[k as int]));
                assert(out@.map_values(|l: &Label| *l) =~= prev.map_values(|l: &Label| *l).push(found@[k as int]));
                assert(found@.take(k + 1) =~= found@.take(k as int).push(found@[k as int]));
                assert(out@.map_values(|l: &Label| *l) =~= before + found@.take(k + 1));
                k = k + 1;
            }
            assert(found@.take(k as int) =~= found@);
            assert(out@.map_values(|l: &Label| *l) =~= labels_for(ls@.take(i + 1), device@));
        } else {
            assert(out@.map_values(|l: &Label| *l) =~= labels_for(ls@.take(i + 1), device@));
        }
        i = i + 1;
    }
    assert(ls@.take(i as int) =~= ls@);
    out
}

/// Whether the image writes an entry of this name, case aside.
fn written_like(entries: &Vec<String>, name: &str) -> (r: bool)
    ensures
        r == exists|k: int| 0 <= k < entries@.len() && same_ignoring_case(#[trigger] entries.deep_view()[k], name@),
{
    let mut i: usize = 0;
    while i < entries.len()
        invariant
            i <= entries.len(),
            forall|k: int| 0 <= k < i ==> !same_ignoring_case(#[trigger] entries.deep_view()[k], name@),
        decreases entries.len() - i,
    {
        if str_eq_ignore_case(entries[i].as_str(), name) {
            assert(same_ignoring_case(entries.deep_view()[i as int], name@));
            return true;
        }
        i = i + 1;
    }
    false
}

/// Lists the systems drawn under one partition, each with whether it is an
/// answer.
fn shown_list(labels: &Vec<&Label>, held: Option<&CustomLayout>, partition: &Partition, entries: &Vec<String>) -> (out: Vec<(String, bool)>)
    ensures
        shown_view(out@) == shown_systems(labels@.map_values(|l: &Label| *l), held_of(held), *partition, entries.deep_view()),
{
    let ghost ls = labels@.map_values(|l: &Label| *l);
    let answer = match held {
        Some(l) => l.answer(partition),
        None => None,
    };
    let ghost av = held_answer(held_of(held), partition.device@);
    assert(match answer { Some(m) => av == Some((m.target@, m.fstype@)), None => av is None });
    let carries = effective_fs(partition, answer.as_ref());
    assert(carries@ == effective_of(*partition, av));
    let esp = match held {
        Some(_) => is_fat(carries.as_str()) && match &answer {
            Some(m) => str_eq(m.target.as_str(), "/boot/efi"),
            None => false,
        },
        None => false,
    };
    let mut out: Vec<(String, bool)> = Vec::new();
    if esp {
        let h = held.unwrap();
        let ghost keep = kept_label(*h, entries.deep_view());
        let mut names: Vec<String> = Vec::new();
        if !h.formatted(partition.device.as_str()) {
            let mut i: usize = 0;
            while i < labels.len()
                invariant
                    i <= labels.len(),
                    ls == labels@.map_values(|l: &Label| *l),
                    keep == kept_label(*h, entries.deep_view()),
                    names.deep_view() == ls.take(i as int).filter(keep).map_values(|l: Label| l.name@),
                decreases labels.len() - i,
            {
                let label = labels[i];
                proof {
                    reveal(Seq::filter);
                    assert(ls.take(i + 1).drop_last() =~= ls.take(i as int));
                    assert(ls[i as int] == *label);
                }
                let gone = h.entry_replaced(label.link.as_str());
                let named = written_like(entries, label.name.as_str());
                if !gone && !named {
                    let ghost before = names.deep_view();
                    names.push(label.name.clone());
                    assert(names.deep_view() =~= before.push(label.name@));
                    proof {
                        assert(keep(*label));
                        assert(ls.take(i + 1).filter(keep) =~= ls.take(i as int).filter(keep).push(*label));
                        assert(names.deep_view() =~= ls.take(i + 1).filter(keep).map_values(|l: Label| l.name@));
                    }
                } else {
                    assert(!keep(*label));
                    assert(ls.take(i + 1).filter(keep) =~= ls.take(i as int).filter(keep));
                }
                i = i + 1;
            }
            assert(ls.take(i as int) =~= ls);
        }
        let ghost kept = names.deep_view();
        let mut e: usize = 0;
        while e < entries.len()
            invariant
                e <= entries.len(),
                names.deep_view() == kept + entries.deep_view().take(e as int),
            decreases entries.len() - e,
        {
            let ghost before = names.deep_view();
            names.push(entries[e].clone());
            assert(names.deep_view() =~= before.push(entries@[e as int]@));
            assert(entries.deep_view().take(e + 1) =~= entries.deep_view().take(e as int).push(entries@[e as int]@));
            assert(names.deep_view() =~= kept + entries.deep_view().take(e + 1));
            e = e + 1;
        }
        assert(entries.deep_view().take(e as int) =~= entries.deep_view());
        let sorted = sorted_texts(names);
        let ghost sv = sorted.deep_view();
        let mut k: usize = 0;
        while k < sorted.len()
            invariant
                k <= sorted.len(),
                sv == sorted.deep_view(),
                shown_view(out@) == sv.take(k as int).map_values(|n: Seq<char>| (n, entries.deep_view().contains(n))),
            decreases sorted.len() - k,
        {
            let written = crate::answers::contains_str(entries, sorted[k].as_str());
            proof {
                let n = sv[k as int];
                if written {
                    let j = choose|j: int| 0 <= j < entries@.len() && entries@[j]@ == n;
                    assert(entries.deep_view()[j] == n);
                } else {
                    assert forall|j: int| 0 <= j < entries.deep_view().len() implies entries.deep_view()[j] != n by {
                        assert(entries.deep_view()[j] == entries@[j]@);
                    }
                }
            }
            let ghost prev = out@;
            out.push((sorted[k].clone(), written));
            assert(out@ == prev.push((sorted@[k as int], written)));
            assert(shown_view(out@) =~= shown_view(prev).push((sv[k as int], written)));
            assert(sv.take(k + 1) =~= sv.take(k as int).push(sv[k as int]));
            assert(shown_view(out@) =~= sv.take(k + 1).map_values(|n: Seq<char>| (n, entries.deep_view().contains(n))));
            k = k + 1;
        }
        assert(sv.take(k as int) =~= sv);
    } else {
        let mut i: usize = 0;
        while i < labels.len()
            invariant
                i <= labels.len(),
                ls == labels@.map_values(|l: &Label| *l),
                shown_view(out@) == ls.take(i as int).map_values(|l: Label| (l.name@, false)),
            decreases labels.len() - i,
        {
            let ghost prev = out@;
            out.push((labels[i].name.clone(), false));
            assert(out@ == prev.push((labels@[i as int].name, false)));
            assert(shown_view(out@) =~= shown_view(prev).push((ls[i as int].name@, false)));
            assert(ls.take(i + 1) =~= ls.take(i as int).push(ls[i as int]));
            assert(shown_view(out@) =~= ls.take(i + 1).map_values(|l: Label| (l.name@, false)));
            i = i + 1;
        }
        assert(ls.take(i as int) =~= ls);
    }
    out
}

/// Draws the systems under one partition as grey child rows.
fn push_children(table: &mut TableData, shown: &Vec<(String, bool)>)
    requires
        old(table).wf(),
    ensures
        final(table).wf(),
        final(table).view_rows() == old(table).view_rows() + child_rows(shown_view(shown@)),
{
    let ghost start = table.view_rows();
    let ghost sv = shown_view(shown@);
    let mut k: usize = 0;
    while k < shown.len()
        invariant
            k <= shown.len(),
            table.wf(),
            sv == shown_view(shown@),
            table.view_rows() == start + child_rows(sv).take(k as int),
        decreases shown.len() - k,
    {
        let branch = if k + 1 == shown.len() { "   \u{2514}\u{2500} " } else { "   \u{251c}\u{2500} " };
        let said = cat(branch, shown[k].0.as_str());
        let name = if shown[k].1 { Cell::set(said.as_str()) } else { Cell::new(said.as_str()) };
        let cells = blank_row(name, Cell::new(""));
        proof {
            reveal_strlit("");
            assert(""@ =~= Seq::<char>::empty());
        }
        let menus: Vec<MenuItem> = Vec::new();
        let actions: Vec<PartAction> = Vec::new();
        assert(items_view(menus@) =~= Seq::<(Seq<char>, Seq<Seq<char>>)>::empty());
        assert(actions@ =~= Seq::<PartAction>::empty());
        table.push(cells, false, menus, actions, RowKind::Preview);
        proof {
            let rows = child_rows(sv);
            assert(rows.take(k + 1) =~= rows.take(k as int).push(rows[k as int]));
        }
        assert(table.view_rows() =~= start + child_rows(sv).take(k + 1));
        k = k + 1;
    }
    assert(child_rows(sv).take(k as int) =~= child_rows(sv));
}

/// Draws one disk's existing partitions. `held` carries the layout's answers
/// where this is the chosen disk of a manual layout; without it every row is
/// grey and opens no popup. The systems a partition carries draw under it as
/// child rows. `entries` names the boot entries the image writes.
pub fn partition_rows(
    table: &mut TableData,
    entry: &DiskScan,
    held: Option<&CustomLayout>,
    boot: bool,
    composefs: bool,
    entries: &Vec<String>,
)
    requires
        old(table).wf(),
        entry.wf(),
    ensures
        final(table).wf(),
        final(table).view_rows() == old(table).view_rows() + part_rows(
            *entry,
            held_of(held),
            boot,
            composefs,
            entries.deep_view(),
            entry.partitions@.len() as int,
        ),
{
    let ghost start = table.view_rows();
    let count = entry.partitions.len();
    let creates = match held {
        Some(l) => l.creates.len() > 0,
        None => false,
    };
    let last: Option<usize> = if creates || count == 0 { None } else { Some(count - 1) };
    let mut at: usize = 0;
    while at < count
        invariant
            at <= count,
            count == entry.partitions@.len(),
            entry.wf(),
            table.wf(),
            creates == (held_of(held) matches Some(l) && l.creates@.len() > 0),
            last == (if creates || count == 0 { None::<usize> } else { Some((count - 1) as usize) }),
            table.view_rows() == start + part_rows(*entry, held_of(held), boot, composefs, entries.deep_view(), at as int),
        decreases count - at,
    {
        let partition = &entry.partitions[at];
        let is_last = match last {
            Some(l) => at == l,
            None => false,
        };
        assert(is_last == (at as int == last_part(*entry, held_of(held))));
        let branch = if is_last { "\u{2514}\u{2500} " } else { "\u{251c}\u{2500} " };
        let answer = match held {
            Some(l) => l.answer(partition),
            None => None,
        };
        let deleted = match held {
            Some(l) => crate::answers::contains_str(&l.deletes, partition.device.as_str()),
            None => false,
        };
        let renamed = match held {
            Some(l) => l.renamed(partition.device.as_str()),
            None => None,
        };
        let cells = partition_cells(partition, entry.said[at].as_str(), answer, branch, deleted, renamed);
        let menu = match held {
            Some(_) => partition_menu(partition, held, boot, composefs),
            None => (Vec::new(), Vec::new()),
        };
        proof {
            if held is None {
                assert(items_view(menu.0@) =~= Seq::<(Seq<char>, Seq<Seq<char>>)>::empty());
                assert(menu.1@ =~= Seq::<PartAction>::empty());
            }
        }
        table.push(cells, held.is_some(), menu.0, menu.1, RowKind::Part { index: at });
        let ghost row = part_row(*entry, held_of(held), at as int, last_part(*entry, held_of(held)), boot, composefs);
        assert(table.view_rows() =~= start + part_rows(*entry, held_of(held), boot, composefs, entries.deep_view(), at as int).push(row));
        let labels = labels_on(&entry.labels, partition.device.as_str());
        let shown = shown_list(&labels, held, partition, entries);
        push_children(table, &shown);
        assert(table.view_rows() =~= start + part_rows(*entry, held_of(held), boot, composefs, entries.deep_view(), at + 1));
        at = at + 1;
    }
}

/// The automatic plan's rows, grey and unselectable, because the user
/// answers nothing on them. A plan row is no format answer, so the format
/// column stays empty; the kind names the type the cut will write.
pub open spec fn plan_rows_view(plan: Seq<(Seq<char>, Seq<char>, Seq<char>, Seq<char>, Seq<char>)>) -> Seq<RowView> {
    plan.map_values(
        |r: (Seq<char>, Seq<char>, Seq<char>, Seq<char>, Seq<char>)| (
            seq![(r.0, false), (r.1, false), (r.2, false), (Seq::<char>::empty(), false), (r.3, false), (r.4, false)],
            false,
            Seq::<(Seq<char>, Seq<Seq<char>>)>::empty(),
            Seq::<PartAction>::empty(),
            (3int, Seq::<char>::empty(), 0int),
        ),
    )
}

/// The node the screen predicts for the create at `at`, or nothing where
/// no node was predicted for it.
pub open spec fn device_at(devices: Seq<Seq<char>>, at: int) -> Seq<char> {
    if at < devices.len() { devices[at] } else { Seq::empty() }
}

/// The planned partitions' rows, each on the node predicted for it; the
/// last takes the corner glyph.
pub open spec fn created_rows_view(creates: Seq<Created>, devices: Seq<Seq<char>>, boot: bool, composefs: bool) -> Seq<RowView> {
    Seq::new(
        creates.len(),
        |at: int| (
            created_row(creates[at], device_at(devices, at), gb_text(creates[at].gb as nat), branch_glyph(at == creates.len() - 1)),
            true,
            created_menu_spec(creates[at], boot, composefs).0,
            created_menu_spec(creates[at], boot, composefs).1,
            (2int, Seq::<char>::empty(), at),
        ),
    )
}

/// One disk's rows: its own row, then under the chosen disk the automatic
/// plan or, for a manual layout, its partitions with the answers read back
/// and the planned partitions under them. Every other disk draws as it
/// stands today, so the user answers which disk to take before taking it.
pub open spec fn disk_group(
    entry: DiskScan,
    disk: Seq<char>,
    layout: Option<CustomLayout>,
    payload: Payload,
    home_gb: Option<u64>,
    home_said: Seq<char>,
    home: bool,
    encrypted: bool,
    created: Seq<Seq<char>>,
    entries: Seq<Seq<char>>,
) -> Seq<RowView> {
    let chosen = entry.device@ == disk;
    let boot = payload.bootloader@ != "systemd"@;
    let n = entry.partitions@.len() as int;
    seq![disk_row(entry, chosen, layout is Some)] + match layout {
        None => if chosen {
            plan_rows_view(automatic_plan(payload.filesystem@, boot, home_gb, home_said, entry.gb, home, encrypted))
        } else {
            part_rows(entry, None, boot, payload.composefs, entries, n)
        },
        Some(held) => if chosen {
            part_rows(entry, Some(held), boot, payload.composefs, entries, n) + created_rows_view(
                held.creates@,
                created,
                boot,
                payload.composefs,
            )
        } else {
            part_rows(entry, None, boot, payload.composefs, entries, n)
        },
    }
}

pub open spec fn table_spec(
    disks: Seq<DiskScan>,
    disk: Seq<char>,
    layout: Option<CustomLayout>,
    payload: Payload,
    home_gb: Option<u64>,
    home_said: Seq<char>,
    home: bool,
    encrypted: bool,
    created: Seq<Seq<char>>,
    entries: Seq<Seq<char>>,
) -> Seq<RowView>
    decreases disks.len(),
{
    if disks.len() == 0 {
        seq![]
    } else {
        table_spec(disks.drop_last(), disk, layout, payload, home_gb, home_said, home, encrypted, created, entries)
            + disk_group(disks.last(), disk, layout, payload, home_gb, home_said, home, encrypted, created, entries)
    }
}

fn push_disk_row(table: &mut TableData, entry: &DiskScan, chosen: bool, manual: bool)
    requires
        old(table).wf(),
    ensures
        final(table).wf(),
        final(table).view_rows() == old(table).view_rows().push(disk_row(*entry, chosen, manual)),
{
    let (size, rest) = detail_split(entry.detail.as_str());
    let name = match model(rest.as_str()) {
        Some(m) => {
            let mut n = cat(m.as_str(), " (");
            n.append(entry.device.as_str());
            n.append(")");
            n
        },
        None => entry.device.clone(),
    };
    let radio = if chosen { "\u{25c9}" } else { "\u{25cb}" };
    let mut choice = cat(radio, " ");
    choice.append(name.as_str());
    let first = if chosen { Cell::set(choice.as_str()) } else { Cell::new(choice.as_str()) };
    let cells = blank_row(first, Cell::new(size.as_str()));
    let menu = if manual && chosen {
        disk_menu(entry.partitions.len())
    } else {
        (Vec::new(), Vec::new())
    };
    proof {
        if !(manual && chosen) {
            assert(items_view(menu.0@) =~= Seq::<(Seq<char>, Seq<Seq<char>>)>::empty());
            assert(menu.1@ =~= Seq::<PartAction>::empty());
        }
    }
    table.push(cells, true, menu.0, menu.1, RowKind::Disk(entry.device.clone()));
}

fn push_plan(table: &mut TableData, payload: &Payload, home_gb: Option<u64>, home_said: &str, disk: Option<u64>, home: bool, encrypted: bool)
    requires
        old(table).wf(),
    ensures
        final(table).wf(),
        final(table).view_rows() == old(table).view_rows() + plan_rows_view(
            automatic_plan(payload.filesystem@, payload.bootloader@ != "systemd"@, home_gb, home_said@, disk, home, encrypted),
        ),
{
    let ghost start = table.view_rows();
    let plan = automatic_rows(payload, home_gb, home_said, disk, home, encrypted);
    let ghost pv = plan@.map_values(|r: (String, String, String, String, String)| row5_view(r));
    let mut i: usize = 0;
    while i < plan.len()
        invariant
            i <= plan.len(),
            table.wf(),
            pv == plan@.map_values(|r: (String, String, String, String, String)| row5_view(r)),
            table.view_rows() == start + plan_rows_view(pv.take(i as int)),
        decreases plan.len() - i,
    {
        let r = &plan[i];
        let mut cells: Vec<Cell> = Vec::new();
        cells.push(Cell::new(r.0.as_str()));
        cells.push(Cell::new(r.1.as_str()));
        cells.push(Cell::new(r.2.as_str()));
        cells.push(Cell { text: String::new(), set: false });
        cells.push(Cell::new(r.3.as_str()));
        cells.push(Cell::new(r.4.as_str()));
        let menus: Vec<MenuItem> = Vec::new();
        let actions: Vec<PartAction> = Vec::new();
        assert(items_view(menus@) =~= Seq::<(Seq<char>, Seq<Seq<char>>)>::empty());
        assert(actions@ =~= Seq::<PartAction>::empty());
        assert(cells_view(cells@) =~= seq![(pv[i as int].0, false), (pv[i as int].1, false), (pv[i as int].2, false), (
            Seq::<char>::empty(),
            false,
        ), (pv[i as int].3, false), (pv[i as int].4, false)]);
        table.push(cells, false, menus, actions, RowKind::Preview);
        assert(pv.take(i + 1) =~= pv.take(i as int).push(pv[i as int]));
        assert(table.view_rows() =~= start + plan_rows_view(pv.take(i + 1)));
        i = i + 1;
    }
    assert(pv.take(i as int) =~= pv);
}

fn push_created(table: &mut TableData, creates: &Vec<Created>, devices: &Vec<String>, boot: bool, composefs: bool)
    requires
        old(table).wf(),
    ensures
        final(table).wf(),
        final(table).view_rows() == old(table).view_rows() + created_rows_view(creates@, devices.deep_view(), boot, composefs),
{
    let ghost start = table.view_rows();
    let ghost all = created_rows_view(creates@, devices.deep_view(), boot, composefs);
    let count = creates.len();
    let mut at: usize = 0;
    while at < count
        invariant
            at <= count,
            count == creates@.len(),
            table.wf(),
            all == created_rows_view(creates@, devices.deep_view(), boot, composefs),
            table.view_rows() == start + all.take(at as int),
        decreases count - at,
    {
        let create = &creates[at];
        let branch = if at + 1 == count { "\u{2514}\u{2500} " } else { "\u{251c}\u{2500} " };
        let empty = String::new();
        let device: &str = if at < devices.len() { devices[at].as_str() } else { empty.as_str() };
        assert(device@ == device_at(devices.deep_view(), at as int));
        let size = gb_said(create.gb);
        let cells = created_cells(create, device, size.as_str(), branch);
        let menu = created_menu(create, boot, composefs);
        table.push(cells, true, menu.0, menu.1, RowKind::Created { index: at });
        assert(all.take(at + 1) =~= all.take(at as int).push(all[at as int]));
        assert(table.view_rows() =~= start + all.take(at + 1));
        at = at + 1;
    }
    assert(all.take(at as int) =~= all);
}

/// Builds the table under the `partition layout` row. It carries every disk.
/// Under the chosen disk it carries the automatic plan as grey rows, or the
/// disk's own partitions with the layout answers read back onto them.
/// `home_gb` and `home_said` are the separate home's size as a number and
/// as typed. `created` holds the nodes predicted for the layout's planned
/// partitions on the chosen disk, and `entries` the boot entries the image
/// writes to its ESP.
#[verifier::rlimit(40)]
pub fn layout_table(
    scan: &Scan,
    disk: &str,
    layout: Option<&CustomLayout>,
    payload: &Payload,
    home_gb: Option<u64>,
    home_said: &str,
    home: bool,
    encrypted: bool,
    created: &Vec<String>,
    entries: &Vec<String>,
) -> (table: TableData)
    requires
        scan.wf(),
    ensures
        table.wf(),
        table.view_rows() == table_spec(
            scan.disks@,
            disk@,
            held_of(layout),
            *payload,
            home_gb,
            home_said@,
            home,
            encrypted,
            created.deep_view(),
            entries.deep_view(),
        ),
{
    let mut table = TableData::new();
    let boot = !str_eq(payload.bootloader.as_str(), "systemd");
    let mut d: usize = 0;
    while d < scan.disks.len()
        invariant
            d <= scan.disks.len(),
            scan.wf(),
            table.wf(),
            boot == (payload.bootloader@ != "systemd"@),
            table.view_rows() == table_spec(
                scan.disks@.take(d as int),
                disk@,
                held_of(layout),
                *payload,
                home_gb,
                home_said@,
                home,
                encrypted,
                created.deep_view(),
                entries.deep_view(),
            ),
        decreases scan.disks.len() - d,
    {
        let entry = &scan.disks[d];
        assert(entry.wf());
        let ghost before = table.view_rows();
        let chosen = str_eq(entry.device.as_str(), disk);
        push_disk_row(&mut table, entry, chosen, layout.is_some());
        match layout {
            None => {
                if chosen {
                    push_plan(&mut table, payload, home_gb, home_said, entry.gb, home, encrypted);
                } else {
                    partition_rows(&mut table, entry, None, boot, payload.composefs, entries);
                }
            },
            Some(held) => {
                if chosen {
                    partition_rows(&mut table, entry, Some(held), boot, payload.composefs, entries);
                    push_created(&mut table, &held.creates, created, boot, payload.composefs);
                } else {
                    partition_rows(&mut table, entry, None, boot, payload.composefs, entries);
                }
            },
        }
        proof {
            let t = scan.disks@.take(d + 1);
            assert(t.drop_last() =~= scan.disks@.take(d as int));
            assert(t.last() == *entry);
        }
        assert(table.view_rows() =~= before + disk_group(*entry, disk@, held_of(layout), *payload, home_gb, home_said@, home, encrypted, created.deep_view(), entries.deep_view()));
        d = d + 1;
    }
    assert(scan.disks@.take(d as int) =~= scan.disks@);
    table
}

/// The last segment of a node's path.
pub open spec fn short_node(device: Seq<char>) -> Seq<char> {
    match crate::panel::last_slash(device) {
        Some(i) => device.subrange(i + 1, device.len() as int),
        None => device,
    }
}

/// The name a box draws a partition by: its label, or its short node where
/// it has none.
pub open spec fn short_name(device: Seq<char>, label: Seq<char>) -> Seq<char> {
    if label.len() == 0 { short_node(device) } else { label }
}

fn short_said(device: &str, label: &str) -> (said: String)
    ensures
        said@ == short_name(device@, label@),
{
    if !label.is_empty() {
        return owned(label);
    }
    short_name_of(device)
}

/// The last segment of a node's path, as a box draws it.
pub fn short_name_of(device: &str) -> (said: String)
    ensures
        said@ == short_node(device@),
{
    let chars = chars_of(device);
    assert(chars@.subrange(0, chars@.len() as int) =~= chars@);
    let mut k: usize = chars.len();
    while k > 0 && chars[k - 1] != '/'
        invariant
            k <= chars@.len(),
            chars@ == device@,
            crate::panel::last_slash(chars@) == crate::panel::last_slash(chars@.subrange(0, k as int)),
        decreases k,
    {
        assert(chars@.subrange(0, k as int).drop_last() =~= chars@.subrange(0, k - 1));
        k = k - 1;
    }
    proof {
        if k > 0 {
            assert(chars@.subrange(0, k as int).last() == '/');
        } else {
            assert(chars@.subrange(0, 0) =~= Seq::<char>::empty());
        }
    }
    string_of(crate::text::slice_from(chars.as_slice(), k).as_slice())
}

/// The names of the partitions a disk keeps, by number: each partition the
/// plan does not delete and whose node carries a number, by its label, the
/// rename where the plan holds one.
pub open spec fn kept_names(parts: Seq<Partition>, held: Option<CustomLayout>) -> Seq<(usize, Seq<char>)>
    decreases parts.len(),
{
    if parts.len() == 0 {
        seq![]
    } else {
        let p = parts.last();
        let d = p.device@;
        let rest = kept_names(parts.drop_last(), held);
        let deleted = held matches Some(l) && l.deletes_device(d);
        let label = match held {
            Some(l) => match rename_at(l.renames@, d) {
                Some(i) => l.renames@[i].label@,
                None => p.label@,
            },
            None => p.label@,
        };
        if !deleted && crate::table::slot_of(d) is Some {
            rest.push((crate::table::slot_of(d)->0, short_name(d, label)))
        } else {
            rest
        }
    }
}

/// The names of the planned partitions by the nodes predicted for them.
pub open spec fn planned_names(devices: Seq<Seq<char>>, creates: Seq<Created>, n: int) -> Seq<(usize, Seq<char>)>
    decreases n,
{
    if n <= 0 {
        seq![]
    } else {
        let rest = planned_names(devices, creates, n - 1);
        let d = devices[n - 1];
        if crate::table::slot_of(d) is Some {
            rest.push((crate::table::slot_of(d)->0, short_name(d, creates[n - 1].label@)))
        } else {
            rest
        }
    }
}

pub open spec fn names_view(names: Seq<(usize, String)>) -> Seq<(usize, Seq<char>)> {
    names.map_values(|n: (usize, String)| (n.0, n.1@))
}

/// Names each partition on one disk for the neighbour boxes of the create
/// window's bar, by the label the layout table draws. An unlabelled partition
/// takes its short node without the `/dev/` path, because a box holds at most
/// a quarter of the bar. A partition the plan deletes is left out, because a
/// create takes its slot number. `devices` holds the nodes predicted for the
/// layout's planned partitions.
pub fn slot_names(disk: &DiskScan, held: Option<&CustomLayout>, devices: &Vec<String>) -> (names: Vec<(usize, String)>)
    ensures
        names_view(names@) == kept_names(disk.partitions@, held_of(held)) + match held {
            Some(l) => planned_names(
                devices.deep_view(),
                l.creates@,
                if devices@.len() < l.creates@.len() { devices@.len() as int } else { l.creates@.len() as int },
            ),
            None => seq![],
        },
{
    let mut names: Vec<(usize, String)> = Vec::new();
    let mut i: usize = 0;
    while i < disk.partitions.len()
        invariant
            i <= disk.partitions.len(),
            names_view(names@) == kept_names(disk.partitions@.take(i as int), held_of(held)),
        decreases disk.partitions.len() - i,
    {
        let p = &disk.partitions[i];
        assert(disk.partitions@.take(i + 1).drop_last() =~= disk.partitions@.take(i as int));
        assert(disk.partitions@.take(i + 1).last() == *p);
        let deleted = match held {
            Some(l) => crate::answers::contains_str(&l.deletes, p.device.as_str()),
            None => false,
        };
        if !deleted {
            let label: &str = match held {
                Some(l) => match l.renamed(p.device.as_str()) {
                    Some(r) => r,
                    None => p.label.as_str(),
                },
                None => p.label.as_str(),
            };
            match crate::table::partition_number(p.device.as_str()) {
                Ok(n) => {
                    let ghost prev = names@;
                    names.push((n, short_said(p.device.as_str(), label)));
                    assert(names_view(names@) =~= names_view(prev).push((n, short_name(p.device@, label@))));
                },
                Err(_) => {},
            }
        }
        i = i + 1;
    }
    assert(disk.partitions@.take(i as int) =~= disk.partitions@);
    match held {
        Some(l) => {
            let ghost kept = names_view(names@);
            let count = if devices.len() < l.creates.len() { devices.len() } else { l.creates.len() };
            let mut k: usize = 0;
            while k < count
                invariant
                    k <= count,
                    count <= devices@.len(),
                    count <= l.creates@.len(),
                    names_view(names@) == kept + planned_names(devices.deep_view(), l.creates@, k as int),
                decreases count - k,
            {
                let device = devices[k].as_str();
                assert(device@ == devices.deep_view()[k as int]);
                match crate::table::partition_number(device) {
                    Ok(n) => {
                        let ghost prev = names@;
                        names.push((n, short_said(device, l.creates[k].label.as_str())));
                        assert(names_view(names@) =~= names_view(prev).push((n, short_name(device@, l.creates@[k as int].label@))));
                    },
                    Err(_) => {},
                }
                k = k + 1;
            }
        },
        None => {},
    }
    names
}

} // verus!
