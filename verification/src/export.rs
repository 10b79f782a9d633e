//! Exports: what a served device is, how its capabilities appear on the wire, and
//! the registry that resolves the name a client asks for.

use vstd::prelude::*;

verus! {

/// Transmission flag: the flags field is meaningful. Always sent.
pub const TF_HAS_FLAGS: u16 = 1;

/// Transmission flag: the export cannot be written.
pub const TF_READ_ONLY: u16 = 2;

/// Transmission flag: flush requests are served.
pub const TF_SEND_FLUSH: u16 = 4;

/// Transmission flag: forced unit access. Never sent.
pub const TF_SEND_FUA: u16 = 8;

/// Transmission flag: the device seeks slowly.
pub const TF_ROTATIONAL: u16 = 16;

/// Transmission flag: trim requests may be sent.
pub const TF_SEND_TRIM: u16 = 32;

/// Transmission flag: write-zeroes requests. Never sent.
pub const TF_SEND_WRITE_ZEROES: u16 = 64;

/// Transmission flag: several connections may share the export coherently.
/// Never sent.
pub const TF_CAN_MULTI_CONN: u16 = 256;

/// Transmission flag: resize requests may be sent.
pub const TF_SEND_RESIZE: u16 = 512;

/// A served device: its size and what it can do. Fixed for the life of a
/// connection.
#[derive(Debug, Clone, Copy, PartialEq, Eq, Structural)]
pub struct Export {
    /// Size in bytes.
    pub size: u64,
    pub readonly: bool,
    /// Hint that the client should order its requests by offset.
    pub rotational: bool,
    pub send_trim: bool,
    pub send_flush: bool,
    pub resizeable: bool,
}

/// Whether `flags` has the flag `bit`, a power of two. No flags have the flag
/// zero.
pub open spec fn has_flag(flags: u16, bit: u16) -> bool {
    bit != 0 && (flags / bit) % 2 == 1
}

/// Whether `flags` has the flag `bit`, one of the `TF_` constants.
pub fn flag_set(flags: u16, bit: u16) -> (set: bool)
    ensures
        set == has_flag(flags, bit),
{
    bit != 0 && (flags / bit) % 2 == 1
}

impl Export {
    /// The transmission flags of this export: one flag for each capability it
    /// has, and the marker that flags are present.
    pub open spec fn flags(self) -> u16 {
        (TF_HAS_FLAGS + (if self.readonly {
            TF_READ_ONLY
        } else {
            0
        }) + (if self.send_flush {
            TF_SEND_FLUSH
        } else {
            0
        }) + (if self.rotational {
            TF_ROTATIONAL
        } else {
            0
        }) + (if self.send_trim {
            TF_SEND_TRIM
        } else {
            0
        }) + (if self.resizeable {
            TF_SEND_RESIZE
        } else {
            0
        })) as u16
    }

    /// Whether `offset .. offset + length` lies inside the export.
    pub open spec fn holds(self, offset: u64, length: u32) -> bool {
        offset + length <= self.size
    }

    /// The export that serves a plain file or device: no flush, trim or resize.
    pub fn for_file(size: u64, readonly: bool, rotational: bool) -> (e: Export)
        ensures
            e == (Export {
                size,
                readonly,
                rotational,
                send_trim: false,
                send_flush: false,
                resizeable: false,
            }),
    {
        Export {
            size,
            readonly,
            rotational,
            send_trim: false,
            send_flush: false,
            resizeable: false,
        }
    }

    pub fn transmission_flags(&self) -> (f: u16)
        ensures
            f == self.flags(),
    {
        let mut f: u16 = TF_HAS_FLAGS;
        if self.readonly {
            f = f + TF_READ_ONLY;
        }
        if self.send_flush {
            f = f + TF_SEND_FLUSH;
        }
        if self.rotational {
            f = f + TF_ROTATIONAL;
        }
        if self.send_trim {
            f = f + TF_SEND_TRIM;
        }
        if self.resizeable {
            f = f + TF_SEND_RESIZE;
        }
        f
    }

    /// Whether `offset .. offset + length` lies inside the export.
    pub fn contains(&self, offset: u64, length: u32) -> (inside: bool)
        ensures
            inside == self.holds(offset, length),
    {
        match offset.checked_add(length as u64) {
            Some(end) => end <= self.size,
            None => false,
        }
    }
}

/// The flags on the wire mirror the export: a capability flag is set exactly
/// when the export has the capability, the marker is always set, and no flag for
/// anything this engine does not do is ever set.
pub proof fn lemma_flags_mirror_export(e: Export)
    ensures
        has_flag(e.flags(), TF_HAS_FLAGS),
        has_flag(e.flags(), TF_READ_ONLY) == e.readonly,
        has_flag(e.flags(), TF_SEND_FLUSH) == e.send_flush,
        has_flag(e.flags(), TF_ROTATIONAL) == e.rotational,
        has_flag(e.flags(), TF_SEND_TRIM) == e.send_trim,
        has_flag(e.flags(), TF_SEND_RESIZE) == e.resizeable,
        !has_flag(e.flags(), TF_SEND_FUA),
        !has_flag(e.flags(), TF_SEND_WRITE_ZEROES),
        !has_flag(e.flags(), TF_CAN_MULTI_CONN),
        !has_flag(e.flags(), 128),
        e.flags() < 1024,
{
}

/// The size to serve when none was configured: where seeking to the end lands,
/// unless that fails or gives zero; else the length in the metadata; else what
/// the device itself reports.
pub open spec fn size_of(seek_end: Option<u64>, metadata_len: Option<u64>, device_len: u64) -> u64 {
    match (seek_end, metadata_len) {
        (Some(end), _) if end != 0 => end,
        (_, Some(len)) => len,
        _ => device_len,
    }
}

/// Chooses the size of a file or device from what the three ways of asking gave.
pub fn get_size(seek_end: Option<u64>, metadata_len: Option<u64>, device_len: u64) -> (size: u64)
    ensures
        size == size_of(seek_end, metadata_len, device_len),
{
    if let Some(end) = seek_end {
        if end != 0 {
            return end;
        }
    }
    if let Some(len) = metadata_len {
        return len;
    }
    device_len
}

/// One registered export and the name it answers to.
struct Entry {
    name: Vec<u8>,
    export: Export,
}

/// The exports a server offers, by name, with an optional export that answers
/// to every other name.
pub struct Registry {
    entries: Vec<Entry>,
    fallback: Option<Export>,
}

/// A registry as a list of names with their exports, in the order they were
/// registered, and the export for all other names.
pub struct RegistryView {
    pub entries: Seq<(Seq<u8>, Export)>,
    pub fallback: Option<Export>,
}

/// The export of the first entry named `name`.
pub open spec fn find(entries: Seq<(Seq<u8>, Export)>, name: Seq<u8>) -> Option<Export>
    decreases entries.len(),
{
    if entries.len() == 0 {
        None
    } else if entries[0].0 == name {
        Some(entries[0].1)
    } else {
        find(entries.drop_first(), name)
    }
}

impl RegistryView {
    /// What `name` resolves to: the export registered under it, else the
    /// fallback, else nothing.
    pub open spec fn resolve(self, name: Seq<u8>) -> Option<Export> {
        match find(self.entries, name) {
            Some(e) => Some(e),
            None => self.fallback,
        }
    }

    /// Whether an export is registered under exactly `name`.
    pub open spec fn names(self, name: Seq<u8>) -> bool {
        find(self.entries, name).is_some()
    }
}

impl View for Registry {
    type V = RegistryView;

    closed spec fn view(&self) -> RegistryView {
        RegistryView {
            entries: Seq::new(
                self.entries@.len(),
                |i: int| (self.entries@[i].name@, self.entries@[i].export),
            ),
            fallback: self.fallback,
        }
    }
}

/// Whether two byte strings are the same.
pub fn same_bytes(a: &[u8], b: &[u8]) -> (same: bool)
    ensures
        same == (a@ == b@),
{
    if a.len() != b.len() {
        return false;
    }
    let mut i: usize = 0;
    while i < a.len()
        invariant
            i <= a@.len(),
            a@.len() == b@.len(),
            a@.subrange(0, i as int) == b@.subrange(0, i as int),
        decreases a@.len() - i,
    {
        if a[i] != b[i] {
            assert(a@[i as int] != b@[i as int]);
            return false;
        }
        assert(a@.subrange(0, i + 1) == a@.subrange(0, i as int).push(a@[i as int]));
        assert(b@.subrange(0, i + 1) == b@.subrange(0, i as int).push(b@[i as int]));
        i = i + 1;
    }
    assert(a@.subrange(0, i as int) == a@);
    assert(b@.subrange(0, i as int) == b@);
    true
}

/// A name that is not among the first `n` entries resolves as it does among the
/// rest.
proof fn lemma_find_skips(entries: Seq<(Seq<u8>, Export)>, name: Seq<u8>, n: int)
    requires
        0 <= n <= entries.len(),
        forall|j: int| 0 <= j < n ==> entries[j].0 != name,
    ensures
        find(entries, name) == find(entries.subrange(n, entries.len() as int), name),
    decreases n,
{
    if n == 0 {
        assert(entries.subrange(0, entries.len() as int) =~= entries);
    } else {
        let rest = entries.drop_first();
        assert forall|j: int| 0 <= j < n - 1 implies rest[j].0 != name by {
            assert(rest[j] == entries[j + 1]);
        }
        lemma_find_skips(rest, name, n - 1);
        assert(rest.subrange(n - 1, rest.len() as int) =~= entries.subrange(
            n,
            entries.len() as int,
        ));
    }
}

/// Adding an entry under a name that is not yet taken changes what that name
/// resolves to and nothing else.
pub proof fn lemma_find_after_push(
    entries: Seq<(Seq<u8>, Export)>,
    name: Seq<u8>,
    export: Export,
    other: Seq<u8>,
)
    ensures
        find(entries.push((name, export)), other) == if find(entries, other).is_some() {
            find(entries, other)
        } else if other == name {
            Some(export)
        } else {
            None
        },
    decreases entries.len(),
{
    let grown = entries.push((name, export));
    if entries.len() == 0 {
        assert(grown.drop_first().len() == 0);
    } else {
        assert(grown.drop_first() =~= entries.drop_first().push((name, export)));
        lemma_find_after_push(entries.drop_first(), name, export, other);
    }
}

impl Registry {
    /// A registry with no export.
    pub fn new() -> (r: Registry)
        ensures
            r@.entries.len() == 0,
            r@.fallback.is_none(),
    {
        Registry { entries: Vec::new(), fallback: None }
    }

    /// A registry for a server with one export, which answers to every name.
    pub fn single(export: Export) -> (r: Registry)
        ensures
            r@.entries.len() == 0,
            r@.fallback == Some(export),
    {
        Registry { entries: Vec::new(), fallback: Some(export) }
    }

    /// Sets, or with `None` removes, the export that answers to every name that
    /// is not registered.
    pub fn set_fallback(&mut self, export: Option<Export>)
        ensures
            final(self)@.entries == old(self)@.entries,
            final(self)@.fallback == export,
    {
        self.fallback = export;
        assert(self@.entries =~= old(self)@.entries);
    }

    /// Registers `export` under `name`, unless the name is taken: then nothing
    /// changes and the result is `false`.
    pub fn register(&mut self, name: Vec<u8>, export: Export) -> (added: bool)
        ensures
            added == !old(self)@.names(name@),
            added ==> final(self)@.entries == old(self)@.entries.push((name@, export)),
            !added ==> final(self)@.entries == old(self)@.entries,
            final(self)@.fallback == old(self)@.fallback,
            added ==> final(self)@.resolve(name@) == Some(export),
            forall|other: Seq<u8>|
                other != name@ ==> #[trigger] final(self)@.resolve(other) == old(self)@.resolve(
                    other,
                ),
    {
        if self.position(name.as_slice()).is_some() {
            return false;
        }
        let ghost before = self@;
        let ghost named = name@;
        self.entries.push(Entry { name, export });
        proof {
            assert(self@.entries =~= before.entries.push((named, export)));
            lemma_find_after_push(before.entries, named, export, named);
            assert forall|other: Seq<u8>| other != named implies #[trigger] self@.resolve(other)
                == before.resolve(other) by {
                lemma_find_after_push(before.entries, named, export, other);
            }
        }
        true
    }

    /// Index of the first entry named `name`.
    fn position(&self, name: &[u8]) -> (at: Option<usize>)
        ensures
            at.is_some() == self@.names(name@),
            at matches Some(i) ==> i < self@.entries.len() && find(self@.entries, name@) == Some(
                self@.entries[i as int].1,
            ),
    {
        let mut i: usize = 0;
        while i < self.entries.len()
            invariant
                i <= self.entries@.len(),
                self@.entries.len() == self.entries@.len(),
                forall|j: int| 0 <= j < i ==> self@.entries[j].0 != name@,
            decreases self.entries@.len() - i,
        {
            if same_bytes(self.entries[i].name.as_slice(), name) {
                proof {
                    lemma_find_skips(self@.entries, name@, i as int);
                    let rest = self@.entries.subrange(i as int, self@.entries.len() as int);
                    assert(rest[0] == self@.entries[i as int]);
                }
                return Some(i);
            }
            i = i + 1;
        }
        proof {
            lemma_find_skips(self@.entries, name@, i as int);
            assert(self@.entries.subrange(i as int, self@.entries.len() as int).len() == 0);
        }
        None
    }

    /// Resolves the name a client asked for: the export registered under it,
    /// else the fallback, else nothing.
    pub fn resolve(&self, name: &[u8]) -> (found: Option<Export>)
        ensures
            found == self@.resolve(name@),
    {
        match self.position(name) {
            Some(i) => Some(self.entries[i].export),
            None => self.fallback,
        }
    }
}

} // verus!
