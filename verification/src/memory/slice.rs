use vstd::prelude::*;

use crate::memory::range::Range;
use crate::memory::value::{kind_of, value_of, Kind, Value, ValueRange};

verus! {

/// A contiguous run of register cells covering `range`, one cell per address.
#[derive(Debug)]
pub struct Slice {
    pub range: Range,
    pub buffer: Vec<Value>,
}

/// `n` zeroed cells of kind `kind`.
pub open spec fn zeroed(kind: Kind, n: int) -> Seq<Value> {
    Seq::new(n as nat, |i: int| value_of(kind, 0))
}

/// The abstract contents of a slice: its address range and one cell per address.
pub struct SliceView {
    pub range: Range,
    pub cells: Seq<Value>,
}

impl View for Slice {
    type V = SliceView;

    open spec fn view(&self) -> SliceView {
        SliceView { range: self.range, cells: self.buffer@ }
    }
}

/// Whether `r` lies inside the slice's range. The last address of the slice is never
/// counted as inside: a range must end strictly before the slice does.
pub open spec fn within(s: SliceView, r: Range) -> bool {
    r.start >= s.range.start && r.end < s.range.end
}

/// The buffer position of address `addr` of the slice.
pub open spec fn offset(s: SliceView, addr: int) -> int {
    addr - s.range.start
}

/// Whether the cells of `r` can all be written: `r` lies inside the slice and none of
/// its cells is read-only.
pub open spec fn writable_spec(s: SliceView, r: Range) -> bool {
    &&& within(s, r)
    &&& forall|i: int|
        offset(s, r.start as int) <= i < offset(s, r.end as int) ==> !(#[trigger] s.cells[i] is Read)
}

/// Whether the cells of `r` can all be read: `r` lies inside the slice and none of its
/// cells is write-only.
pub open spec fn readable_spec(s: SliceView, r: Range) -> bool {
    &&& within(s, r)
    &&& forall|i: int|
        offset(s, r.start as int) <= i < offset(s, r.end as int) ==> !(#[trigger] s.cells[i] is Write)
}

/// The cell after `w` was written into it: the write word changes, the read word of a
/// separated cell stays, a read-only cell is left alone.
pub open spec fn written(v: Value, w: u16) -> Value {
    match v {
        Value::Write(_) => Value::Write(w),
        Value::Combined(_) => Value::Combined(w),
        Value::Separated((r, _)) => Value::Separated((r, w)),
        Value::Read(x) => Value::Read(x),
    }
}

/// The cells of the slice after `values` were written into the cells of `r`.
pub open spec fn write_cells(s: SliceView, r: Range, values: Seq<u16>) -> Seq<Value> {
    Seq::new(
        s.cells.len(),
        |k: int|
            if offset(s, r.start as int) <= k < offset(s, r.end as int) {
                written(s.cells[k], values[k - offset(s, r.start as int)])
            } else {
                s.cells[k]
            },
    )
}

/// The word a read of the cell yields (a write-only cell has none; it yields 0 here
/// and is never read).
pub open spec fn read_word(v: Value) -> u16 {
    match v {
        Value::Read(r) => r,
        Value::Combined(rw) => rw,
        Value::Separated((r, _)) => r,
        Value::Write(_) => 0,
    }
}

/// The words a read of `r` yields, in address order.
pub open spec fn read_words(s: SliceView, r: Range) -> Seq<u16> {
    Seq::new((r.end - r.start) as nat, |i: int| read_word(s.cells[offset(s, r.start as int) + i]))
}

impl Slice {
    /// The buffer holds exactly one cell per address of the range.
    pub open spec fn wf(&self) -> bool {
        &&& self.range.wf()
        &&& self.buffer@.len() == self.range.len()
    }

    /// A slice of zeroed cells of kind `kind` covering `range`.
    pub fn from_range(kind: &Kind, range: Range) -> (s: Self)
        requires
            range.wf(),
        ensures
            s.wf(),
            s.range == range,
            s.buffer@ == zeroed(*kind, range.len()),
    {
        let n = range.length();
        let mut buffer: Vec<Value> = Vec::new();
        let mut i: usize = 0;
        while i < n
            invariant
                i <= n,
                buffer@ == zeroed(*kind, i as int),
            decreases n - i,
        {
            buffer.push(Value::default(kind));
            i = i + 1;
            assert(buffer@ =~= zeroed(*kind, i as int));
        }
        Self { buffer, range }
    }

    /// A slice of cells of kind `kind` holding the words of `range`, over its addresses.
    pub fn from_value_range<'a>(kind: &Kind, range: ValueRange<'a>) -> (s: Self)
        requires
            range.wf(),
        ensures
            s.wf(),
            s.range == range.range_spec(),
            s.buffer@ == range.values_spec().map_values(|v: u16| value_of(*kind, v)),
    {
        let values = range.get_values();
        let mut buffer: Vec<Value> = Vec::new();
        let mut i: usize = 0;
        while i < values.len()
            invariant
                i <= values@.len(),
                values@ == range.values_spec(),
                buffer@ == values@.take(i as int).map_values(|v: u16| value_of(*kind, v)),
            decreases values@.len() - i,
        {
            buffer.push(Value::from_u16(kind, values[i]));
            i = i + 1;
            assert(buffer@ =~= values@.take(i as int).map_values(|v: u16| value_of(*kind, v)));
        }
        assert(values@.take(values@.len() as int) =~= values@);
        Self { buffer, range: range.get_range() }
    }

    /// Grow the slice by the zeroed cells of `range` when `range` ends where the slice
    /// starts (prepended) or starts where the slice ends (appended); any other range is
    /// refused and the slice is left as it was. Returns whether the slice grew.
    pub fn extend(&mut self, kind: &Kind, range: &Range) -> (grown: bool)
        requires
            old(self).wf(),
            range.end == old(self).range.start || range.start == old(self).range.end ==> range.wf(),
        ensures
            final(self).wf(),
            grown == (range.end == old(self).range.start || range.start == old(self).range.end),
            range.end == old(self).range.start ==> {
                &&& final(self).range == (Range { start: range.start, end: old(self).range.end })
                &&& final(self).buffer@ == zeroed(*kind, range.len()) + old(self).buffer@
            },
            range.end != old(self).range.start && range.start == old(self).range.end ==> {
                &&& final(self).range == (Range { start: old(self).range.start, end: range.end })
                &&& final(self).buffer@ == old(self).buffer@ + zeroed(*kind, range.len())
            },
            !grown ==> *final(self) == *old(self),
    {
        if range.end == self.range.start {
            let n = range.length();
            let mut buffer: Vec<Value> = Vec::new();
            let mut i: usize = 0;
            while i < n
                invariant
                    i <= n,
                    buffer@ == zeroed(*kind, i as int),
                decreases n - i,
            {
                buffer.push(Value::default(kind));
                i = i + 1;
                assert(buffer@ =~= zeroed(*kind, i as int));
            }
            let mut j: usize = 0;
            while j < self.buffer.len()
                invariant
                    j <= self.buffer@.len(),
                    buffer@ == zeroed(*kind, n as int) + self.buffer@.take(j as int),
                decreases self.buffer@.len() - j,
            {
                buffer.push(self.buffer[j]);
                j = j + 1;
                assert(buffer@ =~= zeroed(*kind, n as int) + self.buffer@.take(j as int));
            }
            assert(self.buffer@.take(self.buffer@.len() as int) =~= self.buffer@);
            let total = n + self.range.length();
            self.buffer = buffer;
            self.range = Range::new(range.start, total);
            true
        } else if range.start == self.range.end {
            let n = range.length();
            let mut buffer: Vec<Value> = Vec::new();
            let mut j: usize = 0;
            while j < self.buffer.len()
                invariant
                    j <= self.buffer@.len(),
                    buffer@ == self.buffer@.take(j as int),
                decreases self.buffer@.len() - j,
            {
                buffer.push(self.buffer[j]);
                j = j + 1;
                assert(buffer@ =~= self.buffer@.take(j as int));
            }
            assert(self.buffer@.take(self.buffer@.len() as int) =~= self.buffer@);
            let mut i: usize = 0;
            while i < n
                invariant
                    i <= n,
                    buffer@ == self.buffer@ + zeroed(*kind, i as int),
                decreases n - i,
            {
                buffer.push(Value::default(kind));
                i = i + 1;
                assert(buffer@ =~= self.buffer@ + zeroed(*kind, i as int));
            }
            let total = n + self.range.length();
            self.buffer = buffer;
            self.range = Range::new(self.range.start, total);
            true
        } else {
            false
        }
    }

    /// Whether every cell of `range` lies inside the slice and accepts writes.
    pub fn writable(&mut self, range: &Range) -> (ok: bool)
        requires
            old(self).wf(),
            within(old(self)@, *range) ==> range.wf(),
        ensures
            *final(self) == *old(self),
            ok == writable_spec(old(self)@, *range),
    {
        let in_range = range.start >= self.range.start && range.end < self.range.end;
        if in_range {
            let off = range.start - self.range.start;
            let n = range.length();
            let mut i: usize = 0;
            while i < n
                invariant
                    self.wf(),
                    within(self@, *range),
                    off == range.start - self.range.start,
                    n == range.end - range.start,
                    i <= n,
                    forall|k: int| off <= k < off + i ==> !(#[trigger] self.buffer@[k] is Read),
                decreases n - i,
            {
                if let Value::Read(_) = self.buffer[off + i] {
                    return false;
                }
                i = i + 1;
            }
            true
        } else {
            false
        }
    }

    /// Write `values` into the cells of `range`, provided the range is writable and holds
    /// as many addresses as there are values; otherwise nothing changes. Returns whether
    /// the values were written.
    pub fn write(&mut self, range: &Range, values: &[u16]) -> (ok: bool)
        requires
            old(self).wf(),
            range.wf(),
        ensures
            final(self).wf(),
            ok == (range.len() == values@.len() && writable_spec(old(self)@, *range)),
            final(self).range == old(self).range,
            ok ==> final(self).buffer@ == write_cells(old(self)@, *range, values@),
            !ok ==> *final(self) == *old(self),
    {
        let writable = range.length() == values.len() && self.writable(range);
        if writable {
            let ghost old_buf = self.buffer@;
            let off = range.start - self.range.start;
            let n = range.length();
            let mut i: usize = 0;
            while i < n
                invariant
                    self.wf(),
                    self.range == old(self).range,
                    old_buf == old(self).buffer@,
                    within(self@, *range),
                    off == range.start - self.range.start,
                    n == range.end - range.start,
                    n == values@.len(),
                    i <= n,
                    self.buffer@.len() == old_buf.len(),
                    forall|k: int|
                        0 <= k < old_buf.len() ==> #[trigger] self.buffer@[k] == if off <= k < off + i {
                            written(old_buf[k], values@[k - off])
                        } else {
                            old_buf[k]
                        },
                decreases n - i,
            {
                let cell = self.buffer[off + i];
                let w = values[i];
                let nv = match cell {
                    Value::Write(_) => Value::Write(w),
                    Value::Combined(_) => Value::Combined(w),
                    Value::Separated((r, _)) => Value::Separated((r, w)),
                    Value::Read(x) => Value::Read(x),
                };
                self.buffer.set(off + i, nv);
                i = i + 1;
            }
            assert(self.buffer@ =~= write_cells(old(self)@, *range, values@));
        }
        writable
    }

    /// The words of the cells of `range`, provided every one of them lies inside the slice
    /// and can be read; `None` otherwise.
    pub fn read(&self, range: &Range) -> (r: Option<Vec<u16>>)
        requires
            self.wf(),
            within(self@, *range) ==> range.wf(),
        ensures
            r is Some == readable_spec(self@, *range),
            r matches Some(v) ==> v@ == read_words(self@, *range),
    {
        if self.readable(range) {
            let off = range.start - self.range.start;
            let n = range.length();
            let mut out: Vec<u16> = Vec::new();
            let mut i: usize = 0;
            while i < n
                invariant
                    self.wf(),
                    readable_spec(self@, *range),
                    off == range.start - self.range.start,
                    n == range.end - range.start,
                    i <= n,
                    out@ == read_words(self@, *range).take(i as int),
                decreases n - i,
            {
                let w = match self.buffer[off + i] {
                    Value::Read(r) => r,
                    Value::Combined(rw) => rw,
                    Value::Separated((r, _)) => r,
                    Value::Write(_) => 0,
                };
                out.push(w);
                i = i + 1;
                assert(out@ =~= read_words(self@, *range).take(i as int));
            }
            assert(read_words(self@, *range).take(n as int) =~= read_words(self@, *range));
            Some(out)
        } else {
            None
        }
    }

    /// Whether every cell of `range` lies inside the slice and can be read.
    pub fn readable(&self, range: &Range) -> (ok: bool)
        requires
            self.wf(),
            within(self@, *range) ==> range.wf(),
        ensures
            ok == readable_spec(self@, *range),
    {
        let in_range = range.start >= self.range.start && range.end < self.range.end;
        if in_range {
            let off = range.start - self.range.start;
            let n = range.length();
            let mut i: usize = 0;
            while i < n
                invariant
                    self.wf(),
                    within(self@, *range),
                    off == range.start - self.range.start,
                    n == range.end - range.start,
                    i <= n,
                    forall|k: int| off <= k < off + i ==> !(#[trigger] self.buffer@[k] is Write),
                decreases n - i,
            {
                if let Value::Write(_) = self.buffer[off + i] {
                    return false;
                }
                i = i + 1;
            }
            true
        } else {
            false
        }
    }
}

/// A write changes no cell's access kind, and it never changes the word a read yields
/// from a read-only or a separated cell: only combined cells read back what was written.
pub proof fn lemma_write_keeps_kinds_and_read_words(s: SliceView, r: Range, values: Seq<u16>, k: int)
    requires
        0 <= k < s.cells.len(),
    ensures
        kind_of(write_cells(s, r, values)[k]) == kind_of(s.cells[k]),
        !(s.cells[k] is Combined) ==> read_word(write_cells(s, r, values)[k]) == read_word(s.cells[k]),
        !(offset(s, r.start as int) <= k < offset(s, r.end as int)) ==> write_cells(s, r, values)[k] == s.cells[k],
{
}

/// What a read gives back of a write: once `values` were written into a range of
/// combined cells, reading the same range yields exactly `values`.
pub proof fn lemma_write_then_read_combined(s: SliceView, r: Range, values: Seq<u16>)
    requires
        r.wf(),
        s.range.wf(),
        s.cells.len() == s.range.len(),
        r.len() == values.len(),
        writable_spec(s, r),
        forall|i: int| offset(s, r.start as int) <= i < offset(s, r.end as int) ==> #[trigger] s.cells[i] is Combined,
    ensures
        readable_spec(SliceView { range: s.range, cells: write_cells(s, r, values) }, r),
        read_words(SliceView { range: s.range, cells: write_cells(s, r, values) }, r) == values,
{
    let t = SliceView { range: s.range, cells: write_cells(s, r, values) };
    assert forall|i: int| offset(t, r.start as int) <= i < offset(t, r.end as int) implies !(#[trigger] t.cells[i] is Write) by {
        assert(s.cells[i] is Combined);
    }
    assert forall|i: int| 0 <= i < values.len() implies #[trigger] read_words(t, r)[i] == values[i] by {
        assert(s.cells[offset(s, r.start as int) + i] is Combined);
    }
    assert(read_words(t, r) =~= values);
}

/// A range can be both read and written exactly when all of its cells are combined or
/// separated cells.
pub proof fn lemma_read_write_access(s: SliceView, r: Range)
    ensures
        readable_spec(s, r) && writable_spec(s, r) <==> within(s, r) && forall|i: int|
            offset(s, r.start as int) <= i < offset(s, r.end as int) ==> (#[trigger] s.cells[i] is Combined
                || s.cells[i] is Separated),
{
}

/// A cell made of a kind and a word has that kind and reads back that word (unless it is
/// write-only); a write keeps a cell's kind, is read back only from a combined cell, is
/// ignored by a read-only cell, and fills the write word of a separated cell.
pub proof fn lemma_cell_laws(k: Kind, w: u16, v: Value, x: u16)
    ensures
        kind_of(value_of(k, w)) == k,
        k != Kind::Write ==> read_word(value_of(k, w)) == w,
        kind_of(written(v, x)) == kind_of(v),
        v is Combined ==> read_word(written(v, x)) == x,
        v is Read ==> written(v, x) == v,
        v is Separated ==> read_word(written(v, x)) == read_word(v) && written(v, x)->Separated_0.1 == x,
{
}

} // verus!
