use vstd::prelude::*;
use crate::classify::ext_of;
use crate::entry::{
    blank, dedupe_end, dedupe_end_of, entry_name, entry_name_of, plan_store, same_content, select,
    store_plan_of, SelectError, StoreError,
};
use crate::state::same_chars;
use crate::preview::{
    binary_preview, binary_preview_of, entry_tag, is_text_tag, list_line, list_line_of, tag_of_name,
    text_preview, text_preview_of,
};

verus! {

/// One stored capture: its storage name and its bytes.
pub struct Entry {
    pub name: String,
    pub data: Vec<u8>,
}

/// A clipboard history: its entries, newest first, as a listing of the
/// storage directory gives them.
pub struct History {
    pub entries: Vec<Entry>,
}

/// An entry as the contracts see it: its name and its bytes.
pub type EntryView = (Seq<char>, Seq<u8>);

/// `s` without the entries whose bytes are `b`, in order.
pub open spec fn drop_copies(s: Seq<EntryView>, b: Seq<u8>) -> Seq<EntryView>
    decreases s.len(),
{
    if s.len() == 0 {
        s
    } else if s.last().1 == b {
        drop_copies(s.drop_last(), b)
    } else {
        drop_copies(s.drop_last(), b).push(s.last())
    }
}

/// Whether an entry of `v` has the name `name`.
pub open spec fn has_name(v: Seq<EntryView>, name: Seq<char>) -> bool {
    exists|i: int| 0 <= i < v.len() && #[trigger] v[i].0 == name
}

/// What storing `b` at `timestamp` comes to on a history `v`: `Ok(true)` where
/// a new entry is made, `Ok(false)` for a blank capture, else the error.
pub open spec fn store_outcome(v: Seq<EntryView>, b: Seq<u8>, size_limit: nat, timestamp: int) -> Result<
    bool,
    StoreError,
> {
    match store_plan_of(b, size_limit) {
        Err(e) => Err(e),
        Ok(None) => Ok(false),
        Ok(Some(tag)) => if has_name(v, entry_name_of(timestamp, tag)) {
            Err(StoreError::Exists)
        } else {
            Ok(true)
        },
    }
}

/// The entries of a history, newest first, after `b` is stored at `timestamp`:
/// where a new entry is made it comes first, named by the timestamp and the
/// type tag, and of the next `dedupe_limit` older entries those whose bytes
/// are `b` are removed; the rest keep their names, bytes and order. Otherwise
/// nothing changes.
pub open spec fn stored_entries(
    v: Seq<EntryView>,
    b: Seq<u8>,
    size_limit: nat,
    dedupe_limit: nat,
    timestamp: int,
) -> Seq<EntryView> {
    if store_outcome(v, b, size_limit, timestamp) == Ok::<bool, StoreError>(true) {
        let w = dedupe_end_of(v.len() + 1, dedupe_limit) - 1;
        seq![(entry_name_of(timestamp, ext_of(b)), b)] + drop_copies(v.take(w), b) + v.skip(w)
    } else {
        v
    }
}

/// The entries after the newest one is removed.
pub open spec fn deleted_newest(v: Seq<EntryView>) -> Seq<EntryView> {
    if v.len() == 0 {
        v
    } else {
        v.drop_first()
    }
}

/// The listing line of the entry at `index`.
pub open spec fn entry_line_of(index: nat, name: Seq<char>, data: Seq<u8>, preview_length: nat) -> Seq<
    char,
> {
    let tag = tag_of_name(name);
    list_line_of(
        index,
        if tag == seq!['t', 'x', 't'] {
            text_preview_of(data, preview_length)
        } else {
            binary_preview_of(data.len(), tag)
        },
    )
}

fn copy_bytes(b: &[u8]) -> (r: Vec<u8>)
    ensures
        r@ == b@,
{
    let mut r: Vec<u8> = Vec::new();
    let mut i: usize = 0;
    while i < b.len()
        invariant
            i <= b@.len(),
            r@ == b@.take(i as int),
        decreases b@.len() - i,
    {
        r.push(b[i]);
        i = i + 1;
        assert(r@ =~= b@.take(i as int));
    }
    assert(b@.take(i as int) =~= b@);
    r
}

impl View for History {
    type V = Seq<EntryView>;

    /// Each entry's name and bytes, newest first.
    open spec fn view(&self) -> Seq<EntryView> {
        self.entries@.map_values(|e: Entry| (e.name@, e.data@))
    }
}

impl History {
    /// An empty history.
    pub fn new() -> (r: History)
        ensures
            r.entries@.len() == 0,
    {
        History { entries: Vec::new() }
    }

    /// The number of entries.
    pub fn len(&self) -> (r: usize)
        ensures
            r == self.entries@.len(),
    {
        self.entries.len()
    }

    /// The bytes of the entry at `index` (0 is the newest).
    pub fn decode(&self, index: usize) -> (r: Result<&Vec<u8>, SelectError>)
        ensures
            index < self@.len() ==> (r is Ok && r->Ok_0@ == self@[index as int].1),
            index >= self@.len() ==> r == Err::<&Vec<u8>, SelectError>(
                SelectError::NotFound,
            ),
    {
        match select(&self.entries, index) {
            Ok(e) => Ok(&e.data),
            Err(e) => Err(e),
        }
    }

    /// Removes the newest entry; whether there was one.
    pub fn delete_newest(&mut self) -> (r: bool)
        ensures
            r == (old(self)@.len() > 0),
            final(self)@ == deleted_newest(old(self)@),
    {
        if self.entries.len() == 0 {
            return false;
        }
        let ghost before = self.entries@;
        self.entries.remove(0);
        assert(self@ =~= deleted_newest(before.map_values(|e: Entry| (e.name@, e.data@))));
        true
    }

    /// Whether an entry is named `name`.
    pub fn contains_name(&self, name: &str) -> (r: bool)
        ensures
            r == has_name(self@, name@),
    {
        let mut i: usize = 0;
        while i < self.entries.len()
            invariant
                i <= self@.len(),
                self@.len() == self.entries@.len(),
                forall|k: int| 0 <= k < i ==> #[trigger] self@[k].0 != name@,
            decreases self@.len() - i,
        {
            assert(self@[i as int].0 == self.entries@[i as int].name@);
            if same_chars(self.entries[i].name.as_str(), name) {
                return true;
            }
            i = i + 1;
        }
        false
    }

    /// Stores a capture made at `timestamp`: a blank one is ignored, one over
    /// `size_limit` bytes is refused, as is one whose name is taken; else it
    /// becomes the newest entry, named by its timestamp and type tag, and
    /// older entries with the same bytes among the next `dedupe_limit` are
    /// removed.
    pub fn store(&mut self, buffer: &[u8], size_limit: usize, dedupe_limit: usize, timestamp: i64) -> (r:
        Result<(), StoreError>)
        requires
            old(self)@.len() < usize::MAX,
        ensures
            r == (match store_outcome(old(self)@, buffer@, size_limit as nat, timestamp as int) {
                Err(e) => Err(e),
                Ok(_) => Ok::<(), StoreError>(()),
            }),
            final(self)@ == stored_entries(
                old(self)@,
                buffer@,
                size_limit as nat,
                dedupe_limit as nat,
                timestamp as int,
            ),
    {
        let tag = match plan_store(buffer, size_limit) {
            Err(e) => return Err(e),
            Ok(None) => return Ok(()),
            Ok(Some(t)) => t,
        };
        let name = entry_name(timestamp, tag);
        if self.contains_name(name.as_str()) {
            return Err(StoreError::Exists);
        }
        let ghost c = self@;
        let n = self.entries.len();
        let w = dedupe_end(n + 1, dedupe_limit) - 1;
        let mut old_entries: Vec<Entry> = Vec::new();
        std::mem::swap(&mut old_entries, &mut self.entries);
        let ghost orig = old_entries@;
        assert(orig.map_values(|e: Entry| (e.name@, e.data@)) == c);
        let mut fresh: Vec<Entry> = Vec::new();
        fresh.push(Entry { name, data: copy_bytes(buffer) });
        let ghost first = (entry_name_of(timestamp as int, tag@), buffer@);
        let mut i: usize = 0;
        while i < n
            invariant
                n == orig.len(),
                c == orig.map_values(|e: Entry| (e.name@, e.data@)),
                w <= n,
                i <= n,
                old_entries@ == orig.skip(i as int),
                first == (entry_name_of(timestamp as int, tag@), buffer@),
                fresh@.map_values(|e: Entry| (e.name@, e.data@)) == (if i <= w {
                    seq![first] + drop_copies(c.take(i as int), buffer@)
                } else {
                    seq![first] + drop_copies(c.take(w as int), buffer@) + c.subrange(w as int, i as int)
                }),
            decreases n - i,
        {
            let ghost before = fresh@;
            let e = old_entries.remove(0);
            assert(e == orig[i as int]);
            assert(old_entries@ =~= orig.skip(i + 1));
            assert(c.take(i + 1).drop_last() =~= c.take(i as int));
            assert(c[i as int] == (e.name@, e.data@));
            if i < w && same_content(e.data.as_slice(), buffer) {
                i = i + 1;
            } else {
                fresh.push(e);
                i = i + 1;
                assert(fresh@.map_values(|e: Entry| (e.name@, e.data@)) =~= before.map_values(
                    |e: Entry| (e.name@, e.data@),
                ).push(c[i - 1]));
                if i <= w {
                } else {
                    assert(c.subrange(w as int, i as int) =~= c.subrange(w as int, i - 1).push(c[i - 1]));
                }
            }
        }
        assert(c.subrange(w as int, n as int) =~= c.skip(w as int));
        assert(c.take(n as int) =~= c);
        assert(c.skip(n as int) =~= Seq::<EntryView>::empty());
        self.entries = fresh;
        assert(self@ =~= stored_entries(c, buffer@, size_limit as nat, dedupe_limit as nat, timestamp as int));
        Ok(())
    }

    /// The listing: for each entry, newest first, its index and its preview.
    pub fn list(&self, preview_length: usize) -> (r: Vec<String>)
        ensures
            r@.len() == self.entries@.len(),
            forall|i: int|
                0 <= i < r@.len() ==> (#[trigger] r@[i])@ == entry_line_of(
                    i as nat,
                    self@[i].0,
                    self@[i].1,
                    preview_length as nat,
                ),
    {
        let mut r: Vec<String> = Vec::new();
        let mut i: usize = 0;
        while i < self.entries.len()
            invariant
                i <= self.entries@.len(),
                r@.len() == i,
                forall|k: int|
                    0 <= k < i ==> (#[trigger] r@[k])@ == entry_line_of(
                        k as nat,
                        self@[k].0,
                        self@[k].1,
                        preview_length as nat,
                    ),
            decreases self.entries@.len() - i,
        {
            let e = &self.entries[i];
            let tag = entry_tag(e.name.as_str());
            let preview = if is_text_tag(tag.as_str()) {
                text_preview(e.data.as_slice(), preview_length)
            } else {
                binary_preview(e.data.len() as u64, tag.as_str())
            };
            r.push(list_line(i, preview.as_str()));
            i = i + 1;
        }
        r
    }
}

} // verus!
