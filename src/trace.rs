//! A trace: a fixed registry of modules and the coverage entries recorded
//! against it, with the writer of the Pin Helper file format.

use vstd::prelude::*;
use vstd::utf8::encode_utf8;

use crate::layout::{
    decimal, hex, push_decimal, push_hex, push_u16, push_u32, u16_bytes, u32_bytes,
};
use crate::module::{Module, ModuleView};

verus! {

/// Largest block length that an entry can record.
pub const MAX_ENTRY_SIZE: usize = 0xFFFF;

/// Largest 1-based module index that an entry can hold (it is 16-bit).
pub const MAX_MODULE_INDEX: usize = 0xFFFF;

/// One recorded coverage event.
pub ghost struct EntryView {
    /// Address minus the base of the containing module.
    pub offset: u32,
    /// Length in bytes of the block executed.
    pub size: u16,
    /// 1-based index of the containing module in the registry.
    pub module: u16,
}

/// What a [`Trace`] holds: its modules in registration order, its entries in
/// the order they were added, and the byte order its records are written in.
pub ghost struct TraceView {
    pub modules: Seq<ModuleView>,
    pub entries: Seq<EntryView>,
    pub little_endian: bool,
}

/// Why an event was not added to a trace.
#[derive(Debug, Clone, Copy, PartialEq, Eq, Structural)]
pub enum AddError {
    /// The block length does not fit in 16 bits.
    SizeTooLarge,
    /// No registered module contains the address.
    NoModule,
    /// The first module containing the address stands past the 1-based
    /// index `MAX_MODULE_INDEX`, which an entry cannot hold.
    ModuleIndexTooLarge,
}

/// Some module of `mods` contains `pc`.
pub open spec fn covers(mods: Seq<ModuleView>, pc: u64) -> bool {
    exists|i: int| 0 <= i < mods.len() && #[trigger] mods[i].contains(pc)
}

/// `mods[i]` is the first module, in registration order, that contains `pc`.
pub open spec fn is_first_containing(mods: Seq<ModuleView>, pc: u64, i: int) -> bool {
    &&& 0 <= i < mods.len()
    &&& mods[i].contains(pc)
    &&& forall|j: int| 0 <= j < i ==> !#[trigger] mods[j].contains(pc)
}

/// Index of the first module that contains `pc` (meaningful when `covers`).
pub open spec fn first_containing(mods: Seq<ModuleView>, pc: u64) -> int {
    choose|i: int| is_first_containing(mods, pc, i)
}

/// The first module that contains an address is the same whichever way it is
/// found.
pub proof fn lemma_first_containing(mods: Seq<ModuleView>, pc: u64, i: int)
    requires
        is_first_containing(mods, pc, i),
    ensures
        covers(mods, pc),
        first_containing(mods, pc) == i,
{
    let k = first_containing(mods, pc);
    assert(is_first_containing(mods, pc, k));
    if k < i {
        assert(!mods[k].contains(pc));
    } else if i < k {
        assert(!mods[i].contains(pc));
    }
}

/// ASCII text as bytes.
pub open spec fn text(s: Seq<char>) -> Seq<u8> {
    encode_utf8(s)
}

/// The two header lines: the format's name and the counts.
pub open spec fn header(entry_count: nat, module_count: nat) -> Seq<u8> {
    text("DDPH-PINTOOL\n"@) + text("EntryCount: "@) + decimal(entry_count) + text(
        ", ModuleCount: "@,
    ) + decimal(module_count) + text("\n"@)
}

/// The line of the module table for module `m` at 1-based `index`:
/// `<index>, 0x<base>, 0x<end>, <name>`.
pub open spec fn module_line(index: nat, m: ModuleView) -> Seq<u8> {
    decimal(index) + text(", 0x"@) + hex(m.base as nat) + text(", 0x"@) + hex(m.end as nat) + text(
        ", "@,
    ) + encode_utf8(m.name) + text("\n"@)
}

/// The 12-byte record of an entry: offset, size, module index and a zero
/// instruction count.
pub open spec fn record(e: EntryView, little: bool) -> Seq<u8> {
    u32_bytes(e.offset, little) + u16_bytes(e.size, little) + u16_bytes(e.module, little)
        + u32_bytes(0, little)
}

impl TraceView {
    /// `e` refers to a module of the registry, at an offset inside it.
    pub open spec fn refers_to_module(self, e: EntryView) -> bool {
        &&& 1 <= e.module <= self.modules.len()
        &&& e.offset < self.modules[e.module - 1].end - self.modules[e.module - 1].base
    }

    /// Every module is valid and every entry refers to a module of the
    /// registry.
    pub open spec fn wf(self) -> bool {
        &&& forall|i: int| 0 <= i < self.modules.len() ==> (#[trigger] self.modules[i]).wf()
        &&& forall|k: int|
            0 <= k < self.entries.len() ==> self.refers_to_module(#[trigger] self.entries[k])
    }

    /// The entry recorded for an event at `pc` of length `size`.
    pub open spec fn entry_for(self, pc: u64, size: u16) -> EntryView {
        let i = first_containing(self.modules, pc);
        EntryView { offset: (pc - self.modules[i].base) as u32, size, module: (i + 1) as u16 }
    }

    /// The trace after an event at `pc` of length `size` is recorded.
    pub open spec fn appended(self, pc: u64, size: u16) -> TraceView {
        TraceView { entries: self.entries.push(self.entry_for(pc, size)), ..self }
    }

    /// The module table's lines, one per module in registration order.
    pub open spec fn module_lines(self) -> Seq<Seq<u8>> {
        Seq::new(self.modules.len(), |i: int| module_line((i + 1) as nat, self.modules[i]))
    }

    /// The entry table's records, one per entry in the order added.
    pub open spec fn records(self) -> Seq<Seq<u8>> {
        Seq::new(self.entries.len(), |k: int| record(self.entries[k], self.little_endian))
    }

    /// The Pin Helper file for this trace.
    pub open spec fn encoding(self) -> Seq<u8> {
        header(self.entries.len(), self.modules.len()) + text("MODULE_TABLE\n"@)
            + self.module_lines().flatten() + text("ENTRY_TABLE\n"@) + self.records().flatten()
    }
}

/// Relies on `u16::to_ne_bytes`: the value's two bytes in the machine's byte
/// order, which is either little-endian or big-endian.
#[verifier::external_body]
fn native_bytes_u16(x: u16) -> (r: [u8; 2])
    ensures
        r@ == u16_bytes(x, true) || r@ == u16_bytes(x, false),
{
    x.to_ne_bytes()
}

// A single coverage event, usually one basic block executed.
#[derive(Debug, Clone, Copy)]
struct Entry {
    offset: u32,
    size: u16,
    module: u16,
}

impl View for Entry {
    type V = EntryView;

    closed spec fn view(&self) -> EntryView {
        EntryView { offset: self.offset, size: self.size, module: self.module }
    }
}

/// A collection of code coverage entries that can be written in the
/// dragondance Pin Helper format.
#[derive(Debug, Clone)]
pub struct Trace {
    modules: Vec<Module>,
    entries: Vec<Entry>,
    little_endian: bool,
}

impl View for Trace {
    type V = TraceView;

    closed spec fn view(&self) -> TraceView {
        TraceView {
            modules: self.modules@.map_values(|m: Module| m@),
            entries: self.entries@.map_values(|e: Entry| e@),
            little_endian: self.little_endian,
        }
    }
}

impl Trace {
    /// Creates a trace over `modules`, with no entries. Records are written in
    /// the byte order of this machine.
    pub fn new(modules: &[Module]) -> (r: Self)
        ensures
            r@.wf(),
            r@.modules == modules@.map_values(|m: Module| m@),
            r@.entries == Seq::<EntryView>::empty(),
    {
        let mut registry: Vec<Module> = Vec::new();
        let mut i: usize = 0;
        while i < modules.len()
            invariant
                i <= modules@.len(),
                registry@ == modules@.subrange(0, i as int),
                forall|j: int| 0 <= j < i ==> (#[trigger] registry@[j])@.wf(),
            decreases modules@.len() - i,
        {
            let m = modules[i];
            // Its contract brings in the module's range invariant.
            m.base();
            registry.push(m);
            i += 1;
        }
        assert(registry@ =~= modules@);
        let probe = native_bytes_u16(1);
        let r = Trace { modules: registry, entries: Vec::new(), little_endian: probe[0] == 1 };
        assert(r@.entries =~= Seq::<EntryView>::empty());
        r
    }

    /// Index of the first module, in registration order, that contains `pc`.
    fn find_index(&self, pc: u64) -> (r: Option<usize>)
        ensures
            match r {
                Some(i) => is_first_containing(self@.modules, pc, i as int),
                None => !covers(self@.modules, pc),
            },
    {
        let mut i: usize = 0;
        while i < self.modules.len()
            invariant
                i <= self@.modules.len(),
                self@.modules.len() == self.modules@.len(),
                forall|j: int| 0 <= j < i ==> !#[trigger] self@.modules[j].contains(pc),
            decreases self.modules@.len() - i,
        {
            if self.modules[i].contains(pc) {
                return Some(i);
            }
            i += 1;
        }
        None
    }

    /// The first module, in registration order, that contains `pc`, or
    /// `None` when none does.
    pub fn module_containing(&self, pc: u64) -> (r: Option<&Module>)
        ensures
            match r {
                Some(m) => covers(self@.modules, pc) && m@ == self@.modules[first_containing(
                    self@.modules,
                    pc,
                )],
                None => !covers(self@.modules, pc),
            },
    {
        match self.find_index(pc) {
            Some(i) => {
                proof {
                    lemma_first_containing(self@.modules, pc, i as int);
                }
                Some(&self.modules[i])
            },
            None => None,
        }
    }

    /// Records a coverage event at `pc` of `size` bytes, or says why it
    /// cannot be recorded and leaves the trace as it was.
    pub fn try_add(&mut self, pc: u64, size: usize) -> (r: Result<(), AddError>)
        requires
            old(self)@.wf(),
        ensures
            final(self)@.wf(),
            r is Ok <==> size <= MAX_ENTRY_SIZE && covers(old(self)@.modules, pc)
                && first_containing(old(self)@.modules, pc) < MAX_MODULE_INDEX,
            size > MAX_ENTRY_SIZE ==> r == Err::<(), AddError>(AddError::SizeTooLarge),
            size <= MAX_ENTRY_SIZE && !covers(old(self)@.modules, pc) ==> r == Err::<
                (),
                AddError,
            >(AddError::NoModule),
            size <= MAX_ENTRY_SIZE && covers(old(self)@.modules, pc) && first_containing(
                old(self)@.modules,
                pc,
            ) >= MAX_MODULE_INDEX ==> r == Err::<(), AddError>(AddError::ModuleIndexTooLarge),
            (forall|i: int| 0 <= i < old(self)@.modules.len() ==> !#[trigger] old(
                self,
            )@.modules[i].contains(pc)) ==> r is Err && final(self)@.entries == old(
                self,
            )@.entries,
            size > MAX_ENTRY_SIZE ==> r is Err && final(self)@.entries == old(self)@.entries,
            r is Ok ==> final(self)@ == old(self)@.appended(pc, size as u16),
            r is Err ==> final(self)@ == old(self)@,
    {
        if size > MAX_ENTRY_SIZE {
            return Err(AddError::SizeTooLarge);
        }
        match self.find_index(pc) {
            None => Err(AddError::NoModule),
            Some(i) => {
                proof {
                    lemma_first_containing(self@.modules, pc, i as int);
                }
                if i >= MAX_MODULE_INDEX {
                    return Err(AddError::ModuleIndexTooLarge);
                }
                let m = self.modules[i];
                let base = m.base();
                let entry = Entry {
                    offset: (pc - base) as u32,
                    size: size as u16,
                    module: (i + 1) as u16,
                };
                self.entries.push(entry);
                assert(self@.entries =~= old(self)@.entries.push(
                    old(self)@.entry_for(pc, size as u16),
                ));
                Ok(())
            },
        }
    }

    /// Records a coverage event at `pc` of `size` bytes. The event must lie
    /// in a registered module whose 1-based index fits in 16 bits, and its
    /// size must fit in 16 bits. At run time a call that breaks these
    /// conditions panics and records nothing.
    pub fn add(&mut self, pc: u64, size: usize)
        requires
            old(self)@.wf(),
            size <= MAX_ENTRY_SIZE,
            covers(old(self)@.modules, pc),
            first_containing(old(self)@.modules, pc) < MAX_MODULE_INDEX,
        ensures
            final(self)@.wf(),
            final(self)@ == old(self)@.appended(pc, size as u16),
    {
        match self.try_add(pc, size) {
            Ok(()) => {},
            Err(_) => unreached(),
        }
    }

    /// Appends the module table's line for the module at 0-based `i`.
    fn write_module_line(&self, i: usize, out: &mut Vec<u8>)
        requires
            self@.wf(),
            i < self@.modules.len(),
        ensures
            final(out)@ == old(out)@ + self@.module_lines()[i as int],
    {
        let m = &self.modules[i];
        let count = self.modules.len();
        assert(i < count);
        push_decimal(out, (i + 1) as u64);
        push_bytes(out, ", 0x".as_bytes());
        push_hex(out, m.base());
        push_bytes(out, ", 0x".as_bytes());
        push_hex(out, m.end());
        push_bytes(out, ", ".as_bytes());
        push_bytes(out, m.name().as_bytes());
        push_bytes(out, "\n".as_bytes());
        assert(final(out)@ =~= old(out)@ + self@.module_lines()[i as int]);
    }

    /// Appends the 12-byte record of the entry at `k`.
    fn write_record(&self, k: usize, out: &mut Vec<u8>)
        requires
            k < self@.entries.len(),
        ensures
            final(out)@ == old(out)@ + self@.records()[k as int],
    {
        let e = self.entries[k];
        push_u32(out, e.offset, self.little_endian);
        push_u16(out, e.size, self.little_endian);
        push_u16(out, e.module, self.little_endian);
        push_u32(out, 0, self.little_endian);
        assert(final(out)@ =~= old(out)@ + self@.records()[k as int]);
    }

    /// Writes the trace in the dragondance Pin Helper format: the header, the
    /// module table, then one binary record per entry.
    pub fn write(&self, out: &mut Vec<u8>)
        requires
            self@.wf(),
        ensures
            final(out)@ == old(out)@ + self@.encoding(),
    {
        let ghost start = out@;
        push_bytes(out, "DDPH-PINTOOL\n".as_bytes());
        push_bytes(out, "EntryCount: ".as_bytes());
        push_decimal(out, self.entries.len() as u64);
        push_bytes(out, ", ModuleCount: ".as_bytes());
        push_decimal(out, self.modules.len() as u64);
        push_bytes(out, "\n".as_bytes());
        push_bytes(out, "MODULE_TABLE\n".as_bytes());
        let ghost table_start = out@;
        let mut i: usize = 0;
        while i < self.modules.len()
            invariant
                i <= self@.modules.len(),
                self@.modules.len() == self.modules@.len(),
                self@.wf(),
                out@ == table_start + self@.module_lines().subrange(0, i as int).flatten(),
            decreases self.modules@.len() - i,
        {
            self.write_module_line(i, out);
            proof {
                let lines = self@.module_lines();
                assert(lines.subrange(0, i + 1) =~= lines.subrange(0, i as int).push(lines[i as int]));
                lines.subrange(0, i as int).lemma_flatten_push(lines[i as int]);
            }
            i += 1;
        }
        assert(self@.module_lines().subrange(0, i as int) =~= self@.module_lines());
        push_bytes(out, "ENTRY_TABLE\n".as_bytes());
        let ghost entries_start = out@;
        let mut k: usize = 0;
        while k < self.entries.len()
            invariant
                k <= self@.entries.len(),
                self@.entries.len() == self.entries@.len(),
                out@ == entries_start + self@.records().subrange(0, k as int).flatten(),
            decreases self.entries@.len() - k,
        {
            self.write_record(k, out);
            proof {
                let recs = self@.records();
                assert(recs.subrange(0, k + 1) =~= recs.subrange(0, k as int).push(recs[k as int]));
                recs.subrange(0, k as int).lemma_flatten_push(recs[k as int]);
            }
            k += 1;
        }
        assert(self@.records().subrange(0, k as int) =~= self@.records());
        assert(out@ =~= start + self@.encoding());
    }
}

/// Appends `bytes`.
fn push_bytes(out: &mut Vec<u8>, bytes: &[u8])
    ensures
        final(out)@ == old(out)@ + bytes@,
{
    let ghost start = out@;
    let mut i: usize = 0;
    while i < bytes.len()
        invariant
            i <= bytes@.len(),
            out@ == start + bytes@.subrange(0, i as int),
        decreases bytes@.len() - i,
    {
        out.push(bytes[i]);
        assert(out@ =~= start + bytes@.subrange(0, i + 1));
        i += 1;
    }
    assert(bytes@.subrange(0, i as int) =~= bytes@);
}

/// Recording an event at an address inside a module of a well-formed trace
/// adds exactly one entry, at the end: its offset is the address minus the
/// base of the first module containing it, its module field is that module's
/// 1-based index, and the trace stays well-formed.
pub proof fn lemma_append_one_entry(t: TraceView, pc: u64, size: u16, i: int)
    requires
        t.wf(),
        is_first_containing(t.modules, pc, i),
        i < MAX_MODULE_INDEX,
    ensures
        t.appended(pc, size).wf(),
        t.appended(pc, size).modules == t.modules,
        t.appended(pc, size).entries.len() == t.entries.len() + 1,
        t.appended(pc, size).entries.subrange(0, t.entries.len() as int) == t.entries,
        t.appended(pc, size).entries.last().offset == pc - t.modules[i].base,
        t.appended(pc, size).entries.last().size == size,
        t.appended(pc, size).entries.last().module == i + 1,
{
    lemma_first_containing(t.modules, pc, i);
    let u = t.appended(pc, size);
    assert(t.modules[i].wf());
    assert(u.entries.subrange(0, t.entries.len() as int) =~= t.entries);
    assert forall|k: int| 0 <= k < u.entries.len() implies u.refers_to_module(
        #[trigger] u.entries[k],
    ) by {
        if k < t.entries.len() {
            assert(u.entries[k] == t.entries[k]);
        }
    }
}

/// The flattening of records of 12 bytes each is 12 bytes per record, and
/// record `k` stands at bytes `12k .. 12k + 12`.
proof fn lemma_flatten_fixed(recs: Seq<Seq<u8>>)
    requires
        forall|k: int| 0 <= k < recs.len() ==> (#[trigger] recs[k]).len() == 12,
    ensures
        recs.flatten().len() == 12 * recs.len(),
        forall|k: int|
            0 <= k < recs.len() ==> recs.flatten().subrange(12 * k, 12 * k + 12) == recs[k],
    decreases recs.len(),
{
    if recs.len() > 0 {
        let rest = recs.drop_first();
        assert forall|k: int| 0 <= k < rest.len() implies (#[trigger] rest[k]).len() == 12 by {
            assert(rest[k] == recs[k + 1]);
        }
        lemma_flatten_fixed(rest);
        let flat = recs.flatten();
        assert(flat == recs[0] + rest.flatten());
        assert forall|k: int| 0 <= k < recs.len() implies flat.subrange(12 * k, 12 * k + 12)
            == recs[k] by {
            if k == 0 {
                assert(flat.subrange(0, 12) =~= recs[0]);
            } else {
                assert(rest[k - 1] == recs[k]);
                assert(rest.flatten().subrange(12 * (k - 1), 12 * (k - 1) + 12) == rest[k - 1]);
                assert(flat.subrange(12 * k, 12 * k + 12) =~= rest.flatten().subrange(
                    12 * (k - 1),
                    12 * (k - 1) + 12,
                ));
            }
        }
    }
}

/// The file of a trace with M modules and N entries is: the header giving
/// `EntryCount: N, ModuleCount: M`, the module table marker, exactly M module
/// lines, the entry table marker, and last the entry table: exactly N records
/// of 12 bytes, the k-th of which encodes the k-th entry.
pub proof fn lemma_file_layout(t: TraceView)
    ensures
        t.encoding() == header(t.entries.len(), t.modules.len()) + text("MODULE_TABLE\n"@)
            + t.module_lines().flatten() + text("ENTRY_TABLE\n"@) + t.records().flatten(),
        t.module_lines().len() == t.modules.len(),
        t.records().flatten().len() == 12 * t.entries.len(),
        forall|k: int|
            0 <= k < t.entries.len() ==> t.records().flatten().subrange(12 * k, 12 * k + 12)
                == record(t.entries[k], t.little_endian),
{
    let recs = t.records();
    assert forall|k: int| 0 <= k < recs.len() implies (#[trigger] recs[k]).len() == 12 by {
        assert(recs[k] == record(t.entries[k], t.little_endian));
    }
    lemma_flatten_fixed(recs);
    assert forall|k: int| 0 <= k < t.entries.len() implies recs.flatten().subrange(
        12 * k,
        12 * k + 12,
    ) == record(t.entries[k], t.little_endian) by {
        assert(recs[k] == record(t.entries[k], t.little_endian));
    }
}

} // verus!
