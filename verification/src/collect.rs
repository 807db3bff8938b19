//! What the form's answers read back as: the rows the confirmation is asked
//! over, the answers a fresh form opens on, and the answers a filled form
//! holds.

use crate::answers::{at_boot, at_boot_text, Answers, CustomLayout, CustomMount, Created, Encryption, Given, LuksOpen, Opened};
use crate::copy;
use crate::disks::{kind_names, named, shown, shown_text, written, written_text};
use crate::form::{held_pick, Held, ROW_ACCOUNT, ROW_ENCRYPTION, ROW_HOSTNAME, ROW_LAYOUT, ROW_PASSPHRASE, ROW_PASSWORD, ROW_PIN};
use crate::text::join;
use crate::esp::EspRemoval;
use crate::payload::Payload;
use crate::table::{DiskState, DiskTable, Slot};
use crate::text::{cat, cat3, owned, str_eq};
use vstd::prelude::*;

verus! {

/// One removed partition's row.
pub open spec fn deleted_rows(deletes: Seq<String>) -> Seq<(Seq<char>, Seq<char>)> {
    deletes.map_values(|d: String| (copy::ROW_REMOVED@, d@ + "  DELETED, contents lost"@))
}

/// One row per ESP entry the plan removes, removal by removal.
pub open spec fn esp_rows(removals: Seq<EspRemoval>) -> Seq<(Seq<char>, Seq<char>)>
    decreases removals.len(),
{
    if removals.len() == 0 {
        seq![]
    } else {
        let last = removals.last();
        esp_rows(removals.drop_last()) + last.entries@.map_values(
            |e: String| (copy::ROW_REMOVED@, e@ + " boot entry on "@ + last.partition@ + " is removed"@),
        )
    }
}

/// One row per planned partition, named by its mount point.
pub open spec fn created_rows(creates: Seq<Created>) -> Seq<(Seq<char>, Seq<char>)> {
    creates.map_values(
        |c: Created| (c.target@, "a new "@ + crate::text::decimal(c.gb as nat) + " GB partition, format as "@ + c.fstype@),
    )
}

/// How one kept or formatted partition reads.
pub open spec fn mount_said(m: CustomMount) -> Seq<char> {
    if m.fstype@ == "unformatted"@ {
        m.partition@ + "  kept"@
    } else {
        m.partition@ + "  format as "@ + m.fstype@
    }
}

pub open spec fn mount_rows(mounts: Seq<CustomMount>) -> Seq<(Seq<char>, Seq<char>)> {
    mounts.map_values(|m: CustomMount| (m.target@, mount_said(m)))
}

/// How one opened container reads: an opened root names the format inside
/// it too.
pub open spec fn open_said(o: LuksOpen, opened: Opened, filesystem: Seq<char>) -> Seq<char> {
    let how = at_boot_text(o.target@, o.key, opened);
    if o.target@ == "/"@ {
        o.partition@ + "  format as "@ + filesystem + " inside, "@ + how
    } else {
        o.partition@ + "  "@ + how
    }
}

pub open spec fn open_rows(opens: Seq<LuksOpen>, opened: Opened, filesystem: Seq<char>) -> Seq<(Seq<char>, Seq<char>)> {
    opens.map_values(|o: LuksOpen| (o.target@, open_said(o, opened, filesystem)))
}

/// The boot chain's row, where the payload names a signed chain.
pub open spec fn chain_rows(boot: Seq<char>) -> Seq<(Seq<char>, Seq<char>)> {
    match copy::boot_chain_text(boot) {
        Some(chain) => seq![("boot chain"@, chain)],
        None => seq![],
    }
}

/// The rows the confirmation is asked over: the five answers, then what the
/// disk is cut into. The password reads as set, never as itself.
pub open spec fn summary_rows(a: Answers, payload: Payload) -> Seq<(Seq<char>, Seq<char>)> {
    let head = seq![
        (copy::ROW_DISK@, a.disk@),
        (copy::ROW_HOSTNAME@, a.hostname@),
        (copy::ROW_ACCOUNT@, a.user@),
        (copy::ROW_PASSWORD@, copy::PASSWORD_SET@),
        (copy::ROW_ENCRYPTION@, shown_text(a.encryption.kind@)),
    ];
    match a.layout {
        Some(l) => head + deleted_rows(l.deletes@) + esp_rows(l.esp@) + created_rows(l.creates@)
            + mount_rows(l.mounts@) + open_rows(l.opens@, a.opened, payload.filesystem@)
            + chain_rows(payload.boot@),
        None => head + copy::written_over_rows(payload.bootloader@, payload.filesystem@),
    }
}

fn push_row(rows: &mut Vec<(String, String)>, name: &str, said: String)
    ensures
        final(rows).deep_view() == old(rows).deep_view().push((name@, said@)),
{
    let ghost before = rows.deep_view();
    rows.push((owned(name), said));
    assert(rows.deep_view() =~= before.push((name@, said@)));
}

impl Answers {
    /// Builds the rows the confirmation is asked over. The password is the
    /// one answer that cannot read back as itself.
    pub fn summary(&self, payload: &Payload) -> (rows: Vec<(String, String)>)
        ensures
            rows.deep_view() == summary_rows(*self, *payload),
    {
        let mut rows: Vec<(String, String)> = Vec::new();
        push_row(&mut rows, copy::ROW_DISK, self.disk.clone());
        push_row(&mut rows, copy::ROW_HOSTNAME, self.hostname.clone());
        push_row(&mut rows, copy::ROW_ACCOUNT, self.user.clone());
        push_row(&mut rows, copy::ROW_PASSWORD, owned(copy::PASSWORD_SET));
        push_row(&mut rows, copy::ROW_ENCRYPTION, owned(shown(self.encryption.kind.as_str())));
        let ghost head = rows.deep_view();
        match &self.layout {
            Some(layout) => {
                let mut i: usize = 0;
                while i < layout.deletes.len()
                    invariant
                        i <= layout.deletes.len(),
                        rows.deep_view() == head + deleted_rows(layout.deletes@.take(i as int)),
                    decreases layout.deletes.len() - i,
                {
                    proof {
                        assert(deleted_rows(layout.deletes@.take(i + 1)) =~= deleted_rows(layout.deletes@.take(i as int)).push(
                            (copy::ROW_REMOVED@, layout.deletes@[i as int]@ + "  DELETED, contents lost"@)));
                    }
                    push_row(&mut rows, copy::ROW_REMOVED, copy::summary_deleted(layout.deletes[i].as_str()));
                    proof {
                        assert((head + deleted_rows(layout.deletes@.take(i as int))).push(
                            (copy::ROW_REMOVED@, layout.deletes@[i as int]@ + "  DELETED, contents lost"@))
                            =~= head + deleted_rows(layout.deletes@.take(i + 1)));
                    }
                    i = i + 1;
                }
                assert(layout.deletes@.take(i as int) =~= layout.deletes@);
                let ghost after_deletes = rows.deep_view();
                let mut r: usize = 0;
                while r < layout.esp.len()
                    invariant
                        r <= layout.esp.len(),
                        rows.deep_view() == after_deletes + esp_rows(layout.esp@.take(r as int)),
                    decreases layout.esp.len() - r,
                {
                    let removal = &layout.esp[r];
                    let ghost start = rows.deep_view();
                    let mut e: usize = 0;
                    while e < removal.entries.len()
                        invariant
                            e <= removal.entries.len(),
                            rows.deep_view() == start + removal.entries@.take(e as int).map_values(
                                |x: String| (copy::ROW_REMOVED@, x@ + " boot entry on "@ + removal.partition@ + " is removed"@),
                            ),
                        decreases removal.entries.len() - e,
                    {
                        let ghost f = |x: String| (copy::ROW_REMOVED@, x@ + " boot entry on "@ + removal.partition@ + " is removed"@);
                        push_row(&mut rows, copy::ROW_REMOVED, copy::summary_esp(removal.entries[e].as_str(), removal.partition.as_str()));
                        proof {
                            assert(removal.entries@.take(e + 1).map_values(f) =~= removal.entries@.take(e as int).map_values(f).push(
                                f(removal.entries@[e as int])));
                        }
                        e = e + 1;
                    }
                    proof {
                        assert(removal.entries@.take(e as int) =~= removal.entries@);
                        let t = layout.esp@.take(r + 1);
                        assert(t.drop_last() =~= layout.esp@.take(r as int));
                        assert(t.last() == layout.esp@[r as int]);
                    }
                    r = r + 1;
                }
                assert(layout.esp@.take(r as int) =~= layout.esp@);
                let ghost after_esp = rows.deep_view();
                let mut c: usize = 0;
                while c < layout.creates.len()
                    invariant
                        c <= layout.creates.len(),
                        rows.deep_view() == after_esp + created_rows(layout.creates@.take(c as int)),
                    decreases layout.creates.len() - c,
                {
                    let create = &layout.creates[c];
                    push_row(&mut rows, create.target.as_str(), copy::summary_created(create.gb, create.fstype.as_str()));
                    proof {
                        assert(created_rows(layout.creates@.take(c + 1)) =~= created_rows(layout.creates@.take(c as int)).push(
                            (create.target@, "a new "@ + crate::text::decimal(create.gb as nat) + " GB partition, format as "@ + create.fstype@)));
                    }
                    c = c + 1;
                }
                assert(layout.creates@.take(c as int) =~= layout.creates@);
                let ghost after_creates = rows.deep_view();
                let mut m: usize = 0;
                while m < layout.mounts.len()
                    invariant
                        m <= layout.mounts.len(),
                        rows.deep_view() == after_creates + mount_rows(layout.mounts@.take(m as int)),
                    decreases layout.mounts.len() - m,
                {
                    let mount = &layout.mounts[m];
                    let how = if str_eq(mount.fstype.as_str(), "unformatted") {
                        cat(mount.partition.as_str(), "  kept")
                    } else {
                        cat3(mount.partition.as_str(), "  format as ", mount.fstype.as_str())
                    };
                    push_row(&mut rows, mount.target.as_str(), how);
                    proof {
                        assert(mount_rows(layout.mounts@.take(m + 1)) =~= mount_rows(layout.mounts@.take(m as int)).push(
                            (mount.target@, mount_said(*mount))));
                    }
                    m = m + 1;
                }
                assert(layout.mounts@.take(m as int) =~= layout.mounts@);
                let ghost after_mounts = rows.deep_view();
                let mut o: usize = 0;
                while o < layout.opens.len()
                    invariant
                        o <= layout.opens.len(),
                        rows.deep_view() == after_mounts + open_rows(layout.opens@.take(o as int), self.opened, payload.filesystem@),
                    decreases layout.opens.len() - o,
                {
                    let open = &layout.opens[o];
                    let how = at_boot(open, self.opened);
                    let said = if str_eq(open.target.as_str(), "/") {
                        copy::opened_root(open.partition.as_str(), payload.filesystem.as_str(), how)
                    } else {
                        copy::opened(open.partition.as_str(), how)
                    };
                    push_row(&mut rows, open.target.as_str(), said);
                    proof {
                        assert(open_rows(layout.opens@.take(o + 1), self.opened, payload.filesystem@) =~= open_rows(
                            layout.opens@.take(o as int), self.opened, payload.filesystem@).push(
                            (open.target@, open_said(*open, self.opened, payload.filesystem@))));
                    }
                    o = o + 1;
                }
                assert(layout.opens@.take(o as int) =~= layout.opens@);
                match copy::boot_chain(payload.boot.as_str()) {
                    Some(chain) => push_row(&mut rows, "boot chain", owned(chain)),
                    None => {},
                }
                assert(rows.deep_view() =~= summary_rows(*self, *payload));
            },
            None => {
                let over = copy::written_over(payload.bootloader.as_str(), payload.filesystem.as_str());
                let mut i: usize = 0;
                while i < over.len()
                    invariant
                        i <= over.len(),
                        rows.deep_view() == head + over.deep_view().take(i as int),
                    decreases over.len() - i,
                {
                    let ghost before = rows.deep_view();
                    rows.push((over[i].0.clone(), over[i].1.clone()));
                    assert(rows.deep_view() =~= before.push(over.deep_view()[i as int]));
                    assert(over.deep_view().take(i + 1) =~= over.deep_view().take(i as int).push(over.deep_view()[i as int]));
                    i = i + 1;
                }
                assert(over.deep_view().take(i as int) =~= over.deep_view());
            },
        }
        rows
    }
}

/// The whole-disk encryption a filled form answers: none for a manual
/// layout, else the kind the row shows with the secrets that kind owes. A
/// passphrase or PIN left from a kind the user turned off stays out.
pub open spec fn encryption_of(values: Seq<Seq<char>>, manual: bool) -> (Seq<char>, Seq<char>, Seq<char>) {
    if manual {
        (copy::NONE@, seq![], seq![])
    } else {
        let kind = written_text(values[ROW_ENCRYPTION as int]);
        (
            kind,
            if kind == copy::NONE@ { seq![] } else { values[ROW_PASSPHRASE as int] },
            if kind == "tpm2-luks-pin"@ { values[ROW_PIN as int] } else { seq![] },
        )
    }
}

/// The layout a filled form holds, given the one held before.
pub open spec fn held_of(values: Seq<Seq<char>>, layout: Option<CustomLayout>, disk: Seq<char>) -> Held {
    if values[ROW_LAYOUT as int] != copy::LAYOUT_MANUAL@ {
        Held::Whole
    } else if layout matches Some(l) && l.disk@ == disk {
        Held::Kept
    } else {
        Held::Fresh
    }
}

impl Answers {
    /// Reads the answers a filled form holds. `values` holds each row's
    /// value in the order the `ROW_*` constants name them, and `opens` says
    /// the encryption row is the pick a manual layout with an open container
    /// draws in place of the kinds.
    pub fn of(values: &Vec<String>, opens: bool, disk: String, layout: Option<CustomLayout>) -> (a: Answers)
        requires
            values.len() > ROW_PIN,
        ensures
            a.disk@ == disk@,
            a.hostname@ == values@[ROW_HOSTNAME as int]@,
            a.user@ == values@[ROW_ACCOUNT as int]@,
            a.password@ == values@[ROW_PASSWORD as int]@,
            ({
                let manual = held_of(values.deep_view(), layout, disk@) != Held::Whole;
                let e = encryption_of(values.deep_view(), manual);
                &&& a.encryption.kind@ == e.0
                &&& a.encryption.passphrase@ == e.1
                &&& a.encryption.pin@ == e.2
                &&& a.opened == (if manual && opens {
                    Opened::of_label(values@[ROW_ENCRYPTION as int]@)
                } else {
                    Opened::Keep
                })
            }),
            match held_of(values.deep_view(), layout, disk@) {
                Held::Whole => a.layout is None,
                Held::Kept => a.layout == layout,
                Held::Fresh => a.layout matches Some(l) && l.disk@ == disk@ && l.mounts@.len() == 0
                    && l.opens@.len() == 0 && l.deletes@.len() == 0 && l.creates@.len() == 0
                    && l.renames@.len() == 0 && l.esp@.len() == 0 && l.confirmed is None,
            },
    {
        let ghost vals = values.deep_view();
        assert(vals[ROW_LAYOUT as int] == values@[ROW_LAYOUT as int]@);
        assert(vals[ROW_ENCRYPTION as int] == values@[ROW_ENCRYPTION as int]@);
        assert(vals[ROW_PASSPHRASE as int] == values@[ROW_PASSPHRASE as int]@);
        assert(vals[ROW_PIN as int] == values@[ROW_PIN as int]@);
        let held = held_pick(values[ROW_LAYOUT].as_str(), layout.as_ref(), disk.as_str());
        let manual = held != Held::Whole;
        let encryption = if manual {
            Encryption { kind: owned(copy::NONE), passphrase: String::new(), pin: String::new() }
        } else {
            let kind = written(values[ROW_ENCRYPTION].as_str());
            let passphrase = if str_eq(kind, copy::NONE) {
                String::new()
            } else {
                values[ROW_PASSPHRASE].clone()
            };
            let pin = if str_eq(kind, "tpm2-luks-pin") {
                values[ROW_PIN].clone()
            } else {
                String::new()
            };
            Encryption { kind: owned(kind), passphrase, pin }
        };
        let opened = if manual && opens {
            Opened::of(values[ROW_ENCRYPTION].as_str())
        } else {
            Opened::Keep
        };
        let held_layout = match held {
            Held::Whole => None,
            Held::Kept => layout,
            Held::Fresh => Some(CustomLayout::empty(disk.as_str())),
        };
        Answers {
            disk,
            hostname: values[ROW_HOSTNAME].clone(),
            user: values[ROW_ACCOUNT].clone(),
            password: values[ROW_PASSWORD].clone(),
            encryption,
            layout: held_layout,
            opened,
        }
    }

    /// The answers a drawn form opens on: what each flag gave, nothing where
    /// no flag gave a value, and no layout. A kind no flag names starts at
    /// `none`, and a kind outside the known ones is refused by name, because
    /// a row holding it could not be corrected.
    pub fn seeded(given: Given) -> (out: Result<Answers, String>)
        ensures
            match given.encryption {
                Some(k) => !kind_names().contains(k@) ==> (out matches Err(why)
                    && why@ == "`"@ + k@ + "` is not one of "@ + join(kind_names(), ", "@)),
                None => true,
            },
            out matches Ok(a) ==> {
                &&& given.encryption matches Some(k) ==> kind_names().contains(k@) && a.encryption.kind@ == k@
                &&& given.encryption is None ==> a.encryption.kind@ == copy::NONE@
                &&& a.disk@ == (match given.disk { Some(d) => d@, None => Seq::<char>::empty() })
                &&& a.hostname@ == (match given.hostname { Some(d) => d@, None => Seq::<char>::empty() })
                &&& a.user@ == (match given.user { Some(d) => d@, None => Seq::<char>::empty() })
                &&& a.password@ == (match given.password { Some(d) => d@, None => Seq::<char>::empty() })
                &&& a.encryption.passphrase@ == (match given.passphrase { Some(d) => d@, None => Seq::<char>::empty() })
                &&& a.encryption.pin@ == (match given.pin { Some(d) => d@, None => Seq::<char>::empty() })
                &&& a.layout is None
                &&& a.opened == Opened::Keep
            },
            (given.encryption is None || kind_names().contains(given.encryption->0@)) ==> out is Ok,
    {
        let kind = match given.encryption {
            Some(kind) => match named(kind) {
                Ok(kind) => kind,
                Err(why) => return Err(why),
            },
            None => owned(copy::NONE),
        };
        Ok(Answers {
            disk: unwrap_text(given.disk),
            hostname: unwrap_text(given.hostname),
            user: unwrap_text(given.user),
            password: unwrap_text(given.password),
            encryption: Encryption {
                kind,
                passphrase: unwrap_text(given.passphrase),
                pin: unwrap_text(given.pin),
            },
            layout: None,
            opened: Opened::Keep,
        })
    }
}

/// A flag's value, or nothing where no flag gave one.
fn unwrap_text(given: Option<String>) -> (s: String)
    ensures
        s@ == (match given { Some(d) => d@, None => Seq::<char>::empty() }),
{
    match given {
        Some(s) => s,
        None => String::new(),
    }
}

/// The question the confirmation asks: a layout that removes partitions is
/// asked over the removal, which costs the user most; another layout over
/// the formats; the whole disk over erasing it.
pub open spec fn question_text(disk: Seq<char>, layout: Option<CustomLayout>) -> Seq<char> {
    match layout {
        Some(l) => if l.deletes@.len() == 1 {
            "DELETE 1 partition on "@ + disk + "? Its contents are lost."@
        } else if l.deletes@.len() > 1 {
            "DELETE "@ + crate::text::decimal(l.deletes@.len()) + " partitions on "@ + disk
                + "? Their contents are lost."@
        } else {
            "Erase the partitions marked format on "@ + disk + "? This cannot be undone."@
        },
        None => "Erase everything on "@ + disk + "? This cannot be undone."@,
    }
}

/// Picks the one question that costs the user a disk, over the plan.
pub fn confirm_question(disk: &str, layout: Option<&CustomLayout>) -> (q: String)
    ensures
        q@ == question_text(disk@, match layout { Some(l) => Some(*l), None => None }),
{
    match layout {
        Some(l) => if l.deletes.len() > 0 {
            copy::removing_partitions(disk, l.deletes.len())
        } else {
            copy::changing_partitions(disk)
        },
        None => copy::erasing(disk),
    }
}

/// One slot as plain values.
pub open spec fn slot_view(s: Slot) -> (Seq<char>, usize, u64, u64) {
    (s.node@, s.number, s.start, s.sectors)
}

/// Two readings of a table that agree in every field.
pub open spec fn same_table(a: DiskTable, b: DiskTable) -> bool {
    &&& a.first == b.first && a.last == b.last && a.sector == b.sector && a.label@ == b.label@
    &&& a.slots@.map_values(|s: Slot| slot_view(s)) == b.slots@.map_values(|s: Slot| slot_view(s))
}

/// Whether two readings of a table agree in every field.
pub fn tables_agree(a: &DiskTable, b: &DiskTable) -> (r: bool)
    ensures
        r == same_table(*a, *b),
{
    let ghost va = a.slots@.map_values(|s: Slot| slot_view(s));
    let ghost vb = b.slots@.map_values(|s: Slot| slot_view(s));
    if a.first != b.first || a.last != b.last || a.sector != b.sector || !str_eq(a.label.as_str(), b.label.as_str()) {
        return false;
    }
    if a.slots.len() != b.slots.len() {
        assert(va.len() != vb.len());
        return false;
    }
    let mut i: usize = 0;
    while i < a.slots.len()
        invariant
            i <= a.slots@.len(),
            a.slots@.len() == b.slots@.len(),
            va == a.slots@.map_values(|s: Slot| slot_view(s)),
            vb == b.slots@.map_values(|s: Slot| slot_view(s)),
            forall|j: int| 0 <= j < i ==> va[j] == vb[j],
        decreases a.slots.len() - i,
    {
        let x = &a.slots[i];
        let y = &b.slots[i];
        if !str_eq(x.node.as_str(), y.node.as_str()) || x.number != y.number || x.start != y.start || x.sectors != y.sectors {
            assert(va[i as int] != vb[i as int]);
            return false;
        }
        i = i + 1;
    }
    assert(va =~= vb);
    true
}

/// The disk as the confirmation takes it: the state read now, where its
/// table is the one the user reviewed, and otherwise the refusal that sends
/// the user back to review it again.
pub fn confirmed_state(shown: &DiskTable, now: DiskState, disk: &str) -> (r: Result<DiskState, String>)
    ensures
        same_table(*shown, now.table) ==> r == Ok::<DiskState, String>(now),
        !same_table(*shown, now.table) ==> (r matches Err(w)
            && w@ == "the partition table on "@ + disk@ + " changed while it was being reviewed; review it again"@),
{
    if tables_agree(shown, &now.table) {
        Ok(now)
    } else {
        Err(copy::table_changed(disk))
    }
}

} // verus!
