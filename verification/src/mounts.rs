//! The mount table of the system, as text: one mount per line, fields
//! separated by whitespace, the device first and the mount point second.
//! A volume that is mounted must not be resized.

use vstd::prelude::*;
use vstd::slice::{slice_subrange, slice_to_vec};

verus! {

/// Whether a byte is ASCII whitespace.
pub open spec fn is_space(byte: u8) -> bool {
    byte == 0x20 || (0x09 <= byte <= 0x0D)
}

/// The end of the run of bytes from `at` on that all are whitespace, or
/// that all are not.
pub open spec fn run_end(text: Seq<u8>, at: int, space: bool) -> int
    decreases text.len() - at,
{
    if at < 0 || at >= text.len() || is_space(text[at]) != space {
        at
    } else {
        run_end(text, at + 1, space)
    }
}

/// The end of the line that holds byte `at`: the next line feed, or the
/// end of the text.
pub open spec fn line_end(text: Seq<u8>, at: int) -> int
    decreases text.len() - at,
{
    if at < 0 || at >= text.len() || text[at] == 0x0A {
        at
    } else {
        line_end(text, at + 1)
    }
}

/// The first two fields of a line: device and mount point. `None` where
/// the line holds fewer than two fields.
pub open spec fn mount_fields(line: Seq<u8>) -> Option<(Seq<u8>, Seq<u8>)> {
    let device_start = run_end(line, 0, true);
    let device_end = run_end(line, device_start, false);
    let point_start = run_end(line, device_end, true);
    let point_end = run_end(line, point_start, false);
    if point_start < point_end {
        Some((line.subrange(device_start, device_end), line.subrange(point_start, point_end)))
    } else {
        None
    }
}

/// The entries of the lines of a mount table from byte `at` on, in order.
/// Lines with fewer than two fields give no entry.
pub open spec fn mount_entries(text: Seq<u8>, at: int) -> Seq<(Seq<u8>, Seq<u8>)>
    decreases text.len() - at,
{
    if at < 0 || at >= text.len() {
        Seq::empty()
    } else {
        let end = line_end(text, at);
        if end < at {
            Seq::empty()
        } else {
            let rest = if end < text.len() {
                mount_entries(text, end + 1)
            } else {
                Seq::empty()
            };
            match mount_fields(text.subrange(at, end)) {
                Some(entry) => seq![entry] + rest,
                None => rest,
            }
        }
    }
}

/// What a list of entries holds.
pub open spec fn entry_models(entries: Seq<(Vec<u8>, Vec<u8>)>) -> Seq<(Seq<u8>, Seq<u8>)> {
    Seq::new(entries.len(), |i: int| (entries[i].0@, entries[i].1@))
}

/// The end of the run of bytes from `at` on that all are whitespace, or
/// that all are not.
fn skip_run(text: &[u8], at: usize, space: bool) -> (r: usize)
    requires
        at <= text@.len(),
    ensures
        r == run_end(text@, at as int, space),
        at <= r <= text@.len(),
{
    let mut i: usize = at;
    while i < text.len() && is_space_byte(text[i]) == space
        invariant
            at <= i <= text@.len(),
            run_end(text@, at as int, space) == run_end(text@, i as int, space),
        decreases text@.len() - i,
    {
        i += 1;
    }
    i
}

/// Whether a byte is ASCII whitespace.
pub fn is_space_byte(byte: u8) -> (r: bool)
    ensures
        r == is_space(byte),
{
    byte == 0x20 || (0x09 <= byte && byte <= 0x0D)
}

/// The device and the mount point of a line of the mount table: its first
/// two fields. `None` where the line holds fewer than two fields.
pub fn mount_entry(line: &[u8]) -> (r: Option<(Vec<u8>, Vec<u8>)>)
    ensures
        match mount_fields(line@) {
            Some(fields) => r.is_some() && r.unwrap().0@ == fields.0 && r.unwrap().1@ == fields.1,
            None => r.is_none(),
        },
{
    let device_start: usize = skip_run(line, 0, true);
    let device_end: usize = skip_run(line, device_start, false);
    let point_start: usize = skip_run(line, device_end, true);
    let point_end: usize = skip_run(line, point_start, false);
    if point_start < point_end {
        Some(
            (
                slice_to_vec(slice_subrange(line, device_start, device_end)),
                slice_to_vec(slice_subrange(line, point_start, point_end)),
            ),
        )
    } else {
        None
    }
}

/// The entries of a mount table: device and mount point of every line
/// that holds both, in the order of the lines.
pub fn mount_table(text: &[u8]) -> (r: Vec<(Vec<u8>, Vec<u8>)>)
    ensures
        entry_models(r@) == mount_entries(text@, 0),
{
    let mut entries: Vec<(Vec<u8>, Vec<u8>)> = Vec::new();
    let len: usize = text.len();
    let mut at: usize = 0;
    assert(entry_models(entries@) =~= Seq::empty());
    assert(Seq::<(Seq<u8>, Seq<u8>)>::empty() + mount_entries(text@, 0) =~= mount_entries(
        text@,
        0,
    ));
    while at < text.len()
        invariant
            at <= text@.len() + 1,
            text@.len() <= usize::MAX,
            entry_models(entries@) + mount_entries(text@, at as int) == mount_entries(text@, 0),
        decreases text@.len() + 1 - at,
    {
        let mut end: usize = at;
        while end < text.len() && text[end] != 0x0A
            invariant
                at <= end <= text@.len(),
                line_end(text@, at as int) == line_end(text@, end as int),
            decreases text@.len() - end,
        {
            end += 1;
        }
        let ghost before = entry_models(entries@);
        let ghost rest = if end < text@.len() {
            mount_entries(text@, end + 1)
        } else {
            Seq::empty()
        };
        match mount_entry(slice_subrange(text, at, end)) {
            Some(entry) => {
                let ghost model = (entry.0@, entry.1@);
                entries.push(entry);
                assert(entry_models(entries@) =~= before.push(model));
                assert(before.push(model) + rest =~= before + (seq![model] + rest));
            },
            None => {},
        }
        if end == text.len() {
            assert(rest =~= Seq::empty());
            assert(mount_entries(text@, text@.len() as int) =~= Seq::empty());
            at = end;
        } else {
            at = end + 1;
        }
    }
    assert(mount_entries(text@, at as int) =~= Seq::empty());
    assert(entry_models(entries@) + Seq::<(Seq<u8>, Seq<u8>)>::empty() =~= entry_models(entries@));
    entries
}

/// Whether two byte strings are the same.
pub fn same_bytes(a: &[u8], b: &[u8]) -> (r: bool)
    ensures
        r == (a@ == b@),
{
    if a.len() != b.len() {
        return false;
    }
    let mut i: usize = 0;
    while i < a.len()
        invariant
            i <= a@.len(),
            a@.len() == b@.len(),
            forall|j: int| 0 <= j < i ==> a@[j] == b@[j],
        decreases a@.len() - i,
    {
        if a[i] != b[i] {
            return false;
        }
        i += 1;
    }
    assert(a@ =~= b@);
    true
}

/// The first entry of a mount table whose device is `device`, by its
/// place in the table; `None` where the device is not mounted. The devices
/// of the entries are given in `devices`, each in its resolved form.
pub fn find_mount(devices: &[Vec<u8>], device: &[u8]) -> (r: Option<usize>)
    ensures
        match r {
            Some(i) => i < devices@.len() && devices@[i as int]@ == device@ && forall|j: int|
                0 <= j < i ==> devices@[j]@ != device@,
            None => forall|j: int| 0 <= j < devices@.len() ==> devices@[j]@ != device@,
        },
{
    let mut i: usize = 0;
    while i < devices.len()
        invariant
            i <= devices@.len(),
            forall|j: int| 0 <= j < i ==> devices@[j]@ != device@,
        decreases devices@.len() - i,
    {
        if same_bytes(devices[i].as_slice(), device) {
            return Some(i);
        }
        i += 1;
    }
    None
}

} // verus!
