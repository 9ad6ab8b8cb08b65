//! The runtime value store: a heap of tagged, immutable values addressed by
//! opaque handles (indices). Every value a handle can reach was created
//! before it, so handles inside a cell always point strictly below the cell's
//! own address; that well-formedness is what bounds walks over
//! `Concatenation` trees.

use vstd::prelude::*;

use crate::number::Scalar;

verus! {

/// The closed set of tags a stored value can carry.
#[derive(Debug, Copy, Clone, Eq, PartialEq, Structural)]
pub enum GarnishDataType {
    Unit,
    True,
    False,
    Number,
    Char,
    CharList,
    ByteList,
    Symbol,
    Pair,
    List,
    Concatenation,
    Range,
    Slice,
}

/// One stored value. `Pair`, `List`, `Concatenation`, `Range` and `Slice`
/// hold handles to earlier cells; a `List` item also carries its
/// associative flag.
#[derive(Debug, Clone, PartialEq)]
pub enum StoreValue {
    Unit,
    True,
    False,
    Number(Scalar),
    Char(char),
    CharList(Vec<char>),
    ByteList(Vec<u8>),
    Symbol(Vec<char>),
    Pair(usize, usize),
    List(Vec<(usize, bool)>),
    Concatenation(usize, usize),
    Range(usize, usize),
    Slice(usize, usize),
}

/// A failure reported by the store itself.
#[derive(Debug, Copy, Clone, Eq, PartialEq, Structural)]
pub enum StoreError {
    /// The handle does not address a cell.
    InvalidAddress,
    /// The addressed cell does not have the tag the operation needs.
    UnexpectedType,
    /// An index into a list-like value is out of bounds.
    IndexOutOfBounds,
}

pub open spec fn sv_tag(v: StoreValue) -> GarnishDataType {
    match v {
        StoreValue::Unit => GarnishDataType::Unit,
        StoreValue::True => GarnishDataType::True,
        StoreValue::False => GarnishDataType::False,
        StoreValue::Number(_) => GarnishDataType::Number,
        StoreValue::Char(_) => GarnishDataType::Char,
        StoreValue::CharList(_) => GarnishDataType::CharList,
        StoreValue::ByteList(_) => GarnishDataType::ByteList,
        StoreValue::Symbol(_) => GarnishDataType::Symbol,
        StoreValue::Pair(_, _) => GarnishDataType::Pair,
        StoreValue::List(_) => GarnishDataType::List,
        StoreValue::Concatenation(_, _) => GarnishDataType::Concatenation,
        StoreValue::Range(_, _) => GarnishDataType::Range,
        StoreValue::Slice(_, _) => GarnishDataType::Slice,
    }
}

pub open spec fn is_char_list(v: StoreValue, cs: Seq<char>) -> bool {
    match v {
        StoreValue::CharList(x) => x@ == cs,
        _ => false,
    }
}

pub open spec fn is_byte_list(v: StoreValue, bs: Seq<u8>) -> bool {
    match v {
        StoreValue::ByteList(x) => x@ == bs,
        _ => false,
    }
}

pub open spec fn is_symbol(v: StoreValue, cs: Seq<char>) -> bool {
    match v {
        StoreValue::Symbol(x) => x@ == cs,
        _ => false,
    }
}

pub open spec fn is_list(v: StoreValue, items: Seq<(usize, bool)>) -> bool {
    match v {
        StoreValue::List(x) => x@ == items,
        _ => false,
    }
}

/// The handles a list's entries point at, in order.
pub open spec fn list_addrs(items: Seq<(usize, bool)>) -> Seq<usize> {
    items.map_values(|p: (usize, bool)| p.0)
}

/// Every handle inside the cell points strictly below `bound`.
pub open spec fn cell_wf(c: StoreValue, bound: int) -> bool {
    match c {
        StoreValue::Pair(k, v) => (k as int) < bound && (v as int) < bound,
        StoreValue::List(items) => forall|j: int|
            0 <= j < items@.len() ==> (#[trigger] items@[j]).0 < bound,
        StoreValue::Concatenation(l, r) => (l as int) < bound && (r as int) < bound,
        StoreValue::Range(s, e) => (s as int) < bound && (e as int) < bound,
        StoreValue::Slice(s, r) => (s as int) < bound && (r as int) < bound,
        _ => true,
    }
}

pub open spec fn wf_cells(cells: Seq<StoreValue>) -> bool {
    forall|i: int| 0 <= i < cells.len() ==> cell_wf(#[trigger] cells[i], i)
}

pub open spec fn frame_wf(f: Seq<(usize, bool)>, bound: int) -> bool {
    forall|j: int| 0 <= j < f.len() ==> (#[trigger] f[j]).0 < bound
}

pub open spec fn frames_wf(frames: Seq<Seq<(usize, bool)>>, bound: int) -> bool {
    forall|i: int| 0 <= i < frames.len() ==> frame_wf(#[trigger] frames[i], bound)
}

pub open spec fn stack_wf(stack: Seq<usize>, bound: int) -> bool {
    forall|i: int| 0 <= i < stack.len() ==> (#[trigger] stack[i] as int) < bound
}

pub proof fn lemma_frames_wf_mono(frames: Seq<Seq<(usize, bool)>>, b1: int, b2: int)
    requires
        frames_wf(frames, b1),
        b1 <= b2,
    ensures
        frames_wf(frames, b2),
{
    assert forall|i: int| 0 <= i < frames.len()
        implies frame_wf(#[trigger] frames[i], b2) by {
        assert(frame_wf(frames[i], b1));
        assert forall|j: int| 0 <= j < frames[i].len()
            implies (#[trigger] frames[i][j]).0 < b2 by {
            assert(frames[i][j].0 < b1);
        }
    }
}

pub proof fn lemma_stack_wf_mono(stack: Seq<usize>, b1: int, b2: int)
    requires
        stack_wf(stack, b1),
        b1 <= b2,
    ensures
        stack_wf(stack, b2),
{
    assert forall|i: int| 0 <= i < stack.len()
        implies (#[trigger] stack[i] as int) < b2 by {
        assert((stack[i] as int) < b1);
    }
}

/// `post` extends `pre` without touching existing cells.
pub open spec fn grows(pre: Seq<StoreValue>, post: Seq<StoreValue>) -> bool {
    pre.len() <= post.len() && forall|i: int| 0 <= i < pre.len() ==> post[i] == #[trigger] pre[i]
}

/// The inclusive window `[sv, ev]` of `s`, clamped to the sequence; callers
/// establish `0 <= sv <= ev`.
pub open spec fn window<A>(s: Seq<A>, sv: int, ev: int) -> Seq<A> {
    let lo = if sv < s.len() { sv } else { s.len() as int };
    let hi = if ev + 1 < s.len() { ev + 1 } else { s.len() as int };
    s.subrange(lo, hi)
}

/// The characters a handle realizes to when the store materializes it as a
/// `CharList`: a `CharList` or `Symbol` gives its own characters, a `Char`
/// one character, a `Concatenation` the left characters then the right, a
/// `Slice` the clamped inclusive window of its source (empty when the range
/// runs backwards). `None` where the handle has no character content.
pub open spec fn chars_of(cells: Seq<StoreValue>, h: int) -> Option<Seq<char>>
    decreases h,
{
    if 0 <= h < cells.len() {
        match cells[h] {
            StoreValue::CharList(cs) => Some(cs@),
            StoreValue::Symbol(cs) => Some(cs@),
            StoreValue::Char(c) => Some(seq![c]),
            StoreValue::Concatenation(l, r) => {
                if (l as int) < h && (r as int) < h {
                    match (chars_of(cells, l as int), chars_of(cells, r as int)) {
                        (Some(a), Some(b)) => Some(a + b),
                        _ => None,
                    }
                } else {
                    None
                }
            },
            StoreValue::Slice(src, rng) => {
                if (src as int) < h && (rng as int) < h {
                    match slice_bounds(cells, rng as int) {
                        Some((sv, ev)) => {
                            if ev < sv {
                                Some(Seq::empty())
                            } else if sv < 0 {
                                None
                            } else {
                                match chars_of(cells, src as int) {
                                    Some(cs) => Some(window(cs, sv, ev)),
                                    None => None,
                                }
                            }
                        },
                        None => None,
                    }
                } else {
                    None
                }
            },
            _ => None,
        }
    } else {
        None
    }
}

/// The integer bounds behind a `Range` handle, when both ends are integer
/// `Number` cells.
pub open spec fn slice_bounds(cells: Seq<StoreValue>, rng: int) -> Option<(int, int)> {
    if 0 <= rng < cells.len() {
        match cells[rng] {
            StoreValue::Range(s, e) => {
                if (s as int) < cells.len() && (e as int) < cells.len() {
                    match (cells[s as int], cells[e as int]) {
                        (StoreValue::Number(Scalar::Integer(sv)),
                         StoreValue::Number(Scalar::Integer(ev))) => Some((sv as int, ev as int)),
                        _ => None,
                    }
                } else {
                    None
                }
            },
            _ => None,
        }
    } else {
        None
    }
}

/// Appending cells never changes what an existing handle realizes to.
pub proof fn lemma_slice_bounds_grows(pre: Seq<StoreValue>, post: Seq<StoreValue>, rng: int)
    requires
        grows(pre, post),
        wf_cells(pre),
        0 <= rng < pre.len(),
    ensures
        slice_bounds(post, rng) == slice_bounds(pre, rng),
{
    assert(post[rng] == pre[rng]);
    match pre[rng] {
        StoreValue::Range(s, e) => {
            assert(cell_wf(pre[rng], rng));
            assert(post[s as int] == pre[s as int]);
            assert(post[e as int] == pre[e as int]);
        },
        _ => {},
    }
}

pub proof fn lemma_chars_of_grows(pre: Seq<StoreValue>, post: Seq<StoreValue>, h: int)
    requires
        grows(pre, post),
        wf_cells(pre),
        0 <= h < pre.len(),
    ensures
        chars_of(post, h) == chars_of(pre, h),
    decreases h,
{
    assert(post[h] == pre[h]);
    match pre[h] {
        StoreValue::Concatenation(l, r) => {
            assert(cell_wf(pre[h], h));
            lemma_chars_of_grows(pre, post, l as int);
            lemma_chars_of_grows(pre, post, r as int);
        },
        StoreValue::Slice(src, rng) => {
            assert(cell_wf(pre[h], h));
            lemma_slice_bounds_grows(pre, post, rng as int);
            lemma_chars_of_grows(pre, post, src as int);
        },
        _ => {},
    }
}

/// The left-to-right leaves of the concatenation tree rooted at `h`: a
/// non-`Concatenation` cell is its own single leaf.
pub open spec fn spec_flatten(cells: Seq<StoreValue>, h: int) -> Seq<usize>
    decreases h,
{
    if 0 <= h < cells.len() {
        match cells[h] {
            StoreValue::Concatenation(l, r) => {
                if (l as int) < h && (r as int) < h {
                    spec_flatten(cells, l as int) + spec_flatten(cells, r as int)
                } else {
                    Seq::empty()
                }
            },
            _ => seq![h as usize],
        }
    } else {
        Seq::empty()
    }
}

/// The characters behind a handle that can coerce to a `Symbol`.
pub open spec fn symbol_chars_from(cells: Seq<StoreValue>, h: int) -> Option<Seq<char>> {
    if 0 <= h < cells.len() {
        match cells[h] {
            StoreValue::CharList(cs) => Some(cs@),
            StoreValue::Symbol(cs) => Some(cs@),
            StoreValue::Char(c) => Some(seq![c]),
            _ => None,
        }
    } else {
        None
    }
}

/// Copies every element of `cs` onto the end of `out`.
pub(crate) fn append_all<T: Copy>(out: &mut Vec<T>, cs: &Vec<T>)
    ensures
        final(out)@ == old(out)@ + cs@,
{
    let mut i: usize = 0;
    while i < cs.len()
        invariant
            i <= cs.len(),
            out@ == old(out)@ + cs@.subrange(0, i as int),
        decreases cs.len() - i,
    {
        out.push(cs[i]);
        proof {
            assert(out@ =~= old(out)@ + cs@.subrange(0, i + 1 as int));
        }
        i = i + 1;
    }
    proof {
        assert(out@ =~= old(out)@ + cs@);
    }
}

/// Copies `cs[lo..hi]` onto the end of `out`.
pub(crate) fn append_window<T: Copy>(out: &mut Vec<T>, cs: &Vec<T>, lo: usize, hi: usize)
    requires
        lo <= hi,
        hi <= cs@.len(),
    ensures
        final(out)@ == old(out)@ + cs@.subrange(lo as int, hi as int),
{
    let mut i: usize = lo;
    while i < hi
        invariant
            lo <= i <= hi,
            hi <= cs@.len(),
            out@ == old(out)@ + cs@.subrange(lo as int, i as int),
        decreases hi - i,
    {
        out.push(cs[i]);
        proof {
            assert(out@ =~= old(out)@ + cs@.subrange(lo as int, i + 1 as int));
        }
        i = i + 1;
    }
}

/// The tagged value store. Composite values are built incrementally: list
/// construction keeps a stack of open frames (lists may nest during
/// encoding), character and byte lists keep one open buffer each.
pub struct Store {
    cells: Vec<StoreValue>,
    list_stack: Vec<Vec<(usize, bool)>>,
    char_buf: Vec<char>,
    byte_buf: Vec<u8>,
    value_stack: Vec<usize>,
}

impl Store {
    pub closed spec fn cells(self) -> Seq<StoreValue> {
        self.cells@
    }

    pub closed spec fn list_frames(self) -> Seq<Seq<(usize, bool)>> {
        self.list_stack@.map_values(|f: Vec<(usize, bool)>| f@)
    }

    pub closed spec fn char_buf(self) -> Seq<char> {
        self.char_buf@
    }

    pub closed spec fn byte_buf(self) -> Seq<u8> {
        self.byte_buf@
    }

    pub closed spec fn value_stack(self) -> Seq<usize> {
        self.value_stack@
    }

    pub open spec fn wf(self) -> bool {
        &&& wf_cells(self.cells())
        &&& frames_wf(self.list_frames(), self.cells().len() as int)
        &&& stack_wf(self.value_stack(), self.cells().len() as int)
    }

    /// Everything except the cell heap is unchanged, and exactly one cell
    /// was appended, at handle `r`.
    pub open spec fn appended(pre: Store, post: Store, r: usize) -> bool {
        &&& grows(pre.cells(), post.cells())
        &&& post.cells().len() == pre.cells().len() + 1
        &&& r == pre.cells().len()
        &&& post.list_frames() == pre.list_frames()
        &&& post.char_buf() == pre.char_buf()
        &&& post.byte_buf() == pre.byte_buf()
        &&& post.value_stack() == pre.value_stack()
    }

    pub open spec fn appended_cell(pre: Store, post: Store, r: usize, c: StoreValue) -> bool {
        Store::appended(pre, post, r) && post.cells()[r as int] == c
    }

    pub fn new() -> (r: Store)
        ensures
            r.wf(),
            r.cells().len() == 0,
            r.list_frames().len() == 0,
            r.char_buf().len() == 0,
            r.byte_buf().len() == 0,
            r.value_stack().len() == 0,
    {
        let r = Store {
            cells: Vec::new(),
            list_stack: Vec::new(),
            char_buf: Vec::new(),
            byte_buf: Vec::new(),
            value_stack: Vec::new(),
        };
        proof {
            assert(r.list_frames() =~= Seq::<Seq<(usize, bool)>>::empty());
        }
        r
    }

    pub fn len(&self) -> (r: usize)
        ensures r == self.cells().len(),
    {
        self.cells.len()
    }

    fn push_cell(&mut self, c: StoreValue) -> (r: usize)
        requires
            old(self).wf(),
            cell_wf(c, old(self).cells().len() as int),
        ensures
            final(self).wf(),
            Store::appended_cell(*old(self), *final(self), r, c),
    {
        let r = self.cells.len();
        self.cells.push(c);
        proof {
            assert forall|i: int| 0 <= i < self.cells().len()
                implies cell_wf(#[trigger] self.cells()[i], i) by {
                if i < old(self).cells().len() {
                    assert(self.cells()[i] == old(self).cells()[i]);
                }
            }
            lemma_frames_wf_mono(self.list_frames(), old(self).cells().len() as int,
                self.cells().len() as int);
            lemma_stack_wf_mono(self.value_stack(), old(self).cells().len() as int,
                self.cells().len() as int);
        }
        r
    }

    pub fn add_unit(&mut self) -> (r: usize)
        requires old(self).wf(),
        ensures
            final(self).wf(),
            Store::appended_cell(*old(self), *final(self), r, StoreValue::Unit),
    {
        self.push_cell(StoreValue::Unit)
    }

    pub fn add_true(&mut self) -> (r: usize)
        requires old(self).wf(),
        ensures
            final(self).wf(),
            Store::appended_cell(*old(self), *final(self), r, StoreValue::True),
    {
        self.push_cell(StoreValue::True)
    }

    pub fn add_false(&mut self) -> (r: usize)
        requires old(self).wf(),
        ensures
            final(self).wf(),
            Store::appended_cell(*old(self), *final(self), r, StoreValue::False),
    {
        self.push_cell(StoreValue::False)
    }

    pub fn add_number(&mut self, n: Scalar) -> (r: usize)
        requires old(self).wf(),
        ensures
            final(self).wf(),
            Store::appended_cell(*old(self), *final(self), r, StoreValue::Number(n)),
    {
        self.push_cell(StoreValue::Number(n))
    }

    pub fn add_char(&mut self, c: char) -> (r: usize)
        requires old(self).wf(),
        ensures
            final(self).wf(),
            Store::appended_cell(*old(self), *final(self), r, StoreValue::Char(c)),
    {
        self.push_cell(StoreValue::Char(c))
    }

    /// Interns a name as a `Symbol`.
    pub fn parse_add_symbol(&mut self, name: &Vec<char>) -> (r: usize)
        requires old(self).wf(),
        ensures
            final(self).wf(),
            Store::appended(*old(self), *final(self), r),
            is_symbol(final(self).cells()[r as int], name@),
    {
        let mut copy: Vec<char> = Vec::new();
        append_all(&mut copy, name);
        self.push_cell(StoreValue::Symbol(copy))
    }

    /// Writes a realized `CharList` in one step.
    pub fn add_char_list(&mut self, chars: &Vec<char>) -> (r: usize)
        requires old(self).wf(),
        ensures
            final(self).wf(),
            Store::appended(*old(self), *final(self), r),
            is_char_list(final(self).cells()[r as int], chars@),
    {
        let mut copy: Vec<char> = Vec::new();
        append_all(&mut copy, chars);
        self.push_cell(StoreValue::CharList(copy))
    }

    pub fn add_pair(&mut self, key: usize, value: usize) -> (r: usize)
        requires
            old(self).wf(),
            key < old(self).cells().len(),
            value < old(self).cells().len(),
        ensures
            final(self).wf(),
            Store::appended_cell(*old(self), *final(self), r, StoreValue::Pair(key, value)),
    {
        self.push_cell(StoreValue::Pair(key, value))
    }

    pub fn add_concatenation(&mut self, left: usize, right: usize) -> (r: usize)
        requires
            old(self).wf(),
            left < old(self).cells().len(),
            right < old(self).cells().len(),
        ensures
            final(self).wf(),
            Store::appended_cell(*old(self), *final(self), r,
                StoreValue::Concatenation(left, right)),
    {
        self.push_cell(StoreValue::Concatenation(left, right))
    }

    pub fn add_range(&mut self, start: usize, end: usize) -> (r: usize)
        requires
            old(self).wf(),
            start < old(self).cells().len(),
            end < old(self).cells().len(),
        ensures
            final(self).wf(),
            Store::appended_cell(*old(self), *final(self), r, StoreValue::Range(start, end)),
    {
        self.push_cell(StoreValue::Range(start, end))
    }

    pub fn add_slice(&mut self, source: usize, range: usize) -> (r: usize)
        requires
            old(self).wf(),
            source < old(self).cells().len(),
            range < old(self).cells().len(),
        ensures
            final(self).wf(),
            Store::appended_cell(*old(self), *final(self), r, StoreValue::Slice(source, range)),
    {
        self.push_cell(StoreValue::Slice(source, range))
    }

    // --- character list building ---

    pub fn start_char_list(&mut self)
        requires old(self).wf(),
        ensures
            final(self).wf(),
            final(self).char_buf().len() == 0,
            final(self).cells() == old(self).cells(),
            final(self).list_frames() == old(self).list_frames(),
            final(self).byte_buf() == old(self).byte_buf(),
            final(self).value_stack() == old(self).value_stack(),
    {
        self.char_buf = Vec::new();
    }

    pub fn add_to_char_list(&mut self, c: char)
        requires old(self).wf(),
        ensures
            final(self).wf(),
            final(self).char_buf() == old(self).char_buf().push(c),
            final(self).cells() == old(self).cells(),
            final(self).list_frames() == old(self).list_frames(),
            final(self).byte_buf() == old(self).byte_buf(),
            final(self).value_stack() == old(self).value_stack(),
    {
        self.char_buf.push(c);
    }

    /// Closes the open character buffer into a fresh `CharList` cell.
    pub fn end_char_list(&mut self) -> (r: usize)
        requires old(self).wf(),
        ensures
            final(self).wf(),
            grows(old(self).cells(), final(self).cells()),
            final(self).cells().len() == old(self).cells().len() + 1,
            r == old(self).cells().len(),
            is_char_list(final(self).cells()[r as int], old(self).char_buf()),
            final(self).char_buf().len() == 0,
            final(self).list_frames() == old(self).list_frames(),
            final(self).byte_buf() == old(self).byte_buf(),
            final(self).value_stack() == old(self).value_stack(),
    {
        let mut buf: Vec<char> = Vec::new();
        std::mem::swap(&mut buf, &mut self.char_buf);
        self.push_cell(StoreValue::CharList(buf))
    }

    // --- byte list building ---

    pub fn start_byte_list(&mut self)
        requires old(self).wf(),
        ensures
            final(self).wf(),
            final(self).byte_buf().len() == 0,
            final(self).cells() == old(self).cells(),
            final(self).list_frames() == old(self).list_frames(),
            final(self).char_buf() == old(self).char_buf(),
            final(self).value_stack() == old(self).value_stack(),
    {
        self.byte_buf = Vec::new();
    }

    pub fn add_to_byte_list(&mut self, b: u8)
        requires old(self).wf(),
        ensures
            final(self).wf(),
            final(self).byte_buf() == old(self).byte_buf().push(b),
            final(self).cells() == old(self).cells(),
            final(self).list_frames() == old(self).list_frames(),
            final(self).char_buf() == old(self).char_buf(),
            final(self).value_stack() == old(self).value_stack(),
    {
        self.byte_buf.push(b);
    }

    pub fn end_byte_list(&mut self) -> (r: usize)
        requires old(self).wf(),
        ensures
            final(self).wf(),
            grows(old(self).cells(), final(self).cells()),
            final(self).cells().len() == old(self).cells().len() + 1,
            r == old(self).cells().len(),
            is_byte_list(final(self).cells()[r as int], old(self).byte_buf()),
            final(self).byte_buf().len() == 0,
            final(self).list_frames() == old(self).list_frames(),
            final(self).char_buf() == old(self).char_buf(),
            final(self).value_stack() == old(self).value_stack(),
    {
        let mut buf: Vec<u8> = Vec::new();
        std::mem::swap(&mut buf, &mut self.byte_buf);
        self.push_cell(StoreValue::ByteList(buf))
    }

    // --- list building ---

    pub fn has_open_list(&self) -> (r: bool)
        ensures r == (self.list_frames().len() > 0),
    {
        self.list_stack.len() > 0
    }

    /// Opens a new list frame; the capacity hint does not affect contents.
    pub fn start_list(&mut self, _len_hint: usize)
        requires old(self).wf(),
        ensures
            final(self).wf(),
            final(self).list_frames() == old(self).list_frames().push(
                Seq::<(usize, bool)>::empty()),
            final(self).cells() == old(self).cells(),
            final(self).char_buf() == old(self).char_buf(),
            final(self).byte_buf() == old(self).byte_buf(),
            final(self).value_stack() == old(self).value_stack(),
    {
        self.list_stack.push(Vec::new());
        proof {
            assert(self.list_frames() =~= old(self).list_frames().push(
                Seq::<(usize, bool)>::empty()));
        }
    }

    /// Appends a handle, with its associative flag, to the innermost open
    /// list frame.
    pub fn add_to_list(&mut self, addr: usize, associative: bool)
        requires
            old(self).wf(),
            addr < old(self).cells().len(),
            old(self).list_frames().len() > 0,
        ensures
            final(self).wf(),
            final(self).list_frames() == old(self).list_frames().update(
                old(self).list_frames().len() - 1,
                old(self).list_frames().last().push((addr, associative))),
            final(self).cells() == old(self).cells(),
            final(self).char_buf() == old(self).char_buf(),
            final(self).byte_buf() == old(self).byte_buf(),
            final(self).value_stack() == old(self).value_stack(),
    {
        let mut frame = match self.list_stack.pop() {
            Some(f) => f,
            None => Vec::new(),
        };
        frame.push((addr, associative));
        self.list_stack.push(frame);
        proof {
            assert(self.list_frames() =~= old(self).list_frames().update(
                old(self).list_frames().len() - 1,
                old(self).list_frames().last().push((addr, associative))));
            assert forall|i: int| 0 <= i < self.list_frames().len()
                implies frame_wf(#[trigger] self.list_frames()[i],
                    self.cells().len() as int) by {
                assert(frame_wf(old(self).list_frames()[i], old(self).cells().len() as int));
                if i == self.list_frames().len() - 1 {
                    let f = self.list_frames()[i];
                    let fo = old(self).list_frames()[i];
                    assert forall|j: int| 0 <= j < f.len()
                        implies (#[trigger] f[j]).0 < self.cells().len() by {
                        if j < f.len() - 1 {
                            assert(f[j] == fo[j]);
                        } else {
                            assert(f[j] == (addr, associative));
                        }
                    }
                } else {
                    assert(self.list_frames()[i] == old(self).list_frames()[i]);
                }
            }
        }
    }

    /// Closes the innermost open list frame into a fresh `List` cell.
    pub fn end_list(&mut self) -> (r: usize)
        requires
            old(self).wf(),
            old(self).list_frames().len() > 0,
        ensures
            final(self).wf(),
            grows(old(self).cells(), final(self).cells()),
            final(self).cells().len() == old(self).cells().len() + 1,
            r == old(self).cells().len(),
            is_list(final(self).cells()[r as int], old(self).list_frames().last()),
            final(self).list_frames() == old(self).list_frames().drop_last(),
            final(self).char_buf() == old(self).char_buf(),
            final(self).byte_buf() == old(self).byte_buf(),
            final(self).value_stack() == old(self).value_stack(),
    {
        let frame = match self.list_stack.pop() {
            Some(f) => f,
            None => Vec::new(),
        };
        proof {
            assert(self.list_frames() =~= old(self).list_frames().drop_last());
            assert(frame@ == old(self).list_frames().last());
            assert(frame_wf(frame@, self.cells().len() as int));
            assert forall|i: int| 0 <= i < self.list_frames().len()
                implies frame_wf(#[trigger] self.list_frames()[i],
                    self.cells().len() as int) by {
                assert(self.list_frames()[i] == old(self).list_frames()[i]);
                assert(frame_wf(old(self).list_frames()[i], old(self).cells().len() as int));
            }
            assert(cell_wf(StoreValue::List(frame), self.cells().len() as int));
        }
        self.push_cell(StoreValue::List(frame))
    }

    // --- the session's current value ---

    pub fn push_value_stack(&mut self, addr: usize)
        requires
            old(self).wf(),
            addr < old(self).cells().len(),
        ensures
            final(self).wf(),
            final(self).value_stack() == old(self).value_stack().push(addr),
            final(self).cells() == old(self).cells(),
            final(self).list_frames() == old(self).list_frames(),
            final(self).char_buf() == old(self).char_buf(),
            final(self).byte_buf() == old(self).byte_buf(),
    {
        self.value_stack.push(addr);
        proof {
            assert forall|i: int| 0 <= i < self.value_stack().len()
                implies (#[trigger] self.value_stack()[i] as int) < self.cells().len() by {
                if i < self.value_stack().len() - 1 {
                    assert(self.value_stack()[i] == old(self).value_stack()[i]);
                }
            }
        }
    }

    pub fn get_current_value(&self) -> (r: Option<usize>)
        ensures
            r.is_some() <==> self.value_stack().len() > 0,
            r matches Some(a) ==> a == self.value_stack().last(),
    {
        if self.value_stack.len() > 0 {
            Some(self.value_stack[self.value_stack.len() - 1])
        } else {
            None
        }
    }

    // --- reading ---

    /// The raw cell behind a handle; `None` when the handle is unallocated.
    pub fn get_cell(&self, a: usize) -> (r: Option<&StoreValue>)
        ensures
            r.is_some() <==> (a as int) < self.cells().len(),
            r matches Some(v) ==> *v == self.cells()[a as int],
    {
        if a < self.cells.len() {
            Some(&self.cells[a])
        } else {
            None
        }
    }

    pub fn get_data_type(&self, a: usize) -> (r: Result<GarnishDataType, StoreError>)
        ensures
            (a as int) < self.cells().len()
                ==> r == Ok::<GarnishDataType, StoreError>(sv_tag(self.cells()[a as int])),
            (a as int) >= self.cells().len()
                ==> r == Err::<GarnishDataType, StoreError>(StoreError::InvalidAddress),
    {
        if a >= self.cells.len() {
            return Err(StoreError::InvalidAddress);
        }
        Ok(match &self.cells[a] {
            StoreValue::Unit => GarnishDataType::Unit,
            StoreValue::True => GarnishDataType::True,
            StoreValue::False => GarnishDataType::False,
            StoreValue::Number(_) => GarnishDataType::Number,
            StoreValue::Char(_) => GarnishDataType::Char,
            StoreValue::CharList(_) => GarnishDataType::CharList,
            StoreValue::ByteList(_) => GarnishDataType::ByteList,
            StoreValue::Symbol(_) => GarnishDataType::Symbol,
            StoreValue::Pair(_, _) => GarnishDataType::Pair,
            StoreValue::List(_) => GarnishDataType::List,
            StoreValue::Concatenation(_, _) => GarnishDataType::Concatenation,
            StoreValue::Range(_, _) => GarnishDataType::Range,
            StoreValue::Slice(_, _) => GarnishDataType::Slice,
        })
    }

    pub fn get_number(&self, a: usize) -> (r: Result<Scalar, StoreError>)
        ensures
            r.is_ok() <==> ((a as int) < self.cells().len()
                && self.cells()[a as int] is Number),
            r matches Ok(s) ==> self.cells()[a as int] == StoreValue::Number(s),
            (a as int) >= self.cells().len()
                ==> r == Err::<Scalar, StoreError>(StoreError::InvalidAddress),
            ((a as int) < self.cells().len() && !(self.cells()[a as int] is Number))
                ==> r == Err::<Scalar, StoreError>(StoreError::UnexpectedType),
    {
        if a >= self.cells.len() {
            return Err(StoreError::InvalidAddress);
        }
        match &self.cells[a] {
            StoreValue::Number(s) => Ok(*s),
            _ => Err(StoreError::UnexpectedType),
        }
    }

    pub fn get_char(&self, a: usize) -> (r: Result<char, StoreError>)
        ensures
            r.is_ok() <==> ((a as int) < self.cells().len()
                && self.cells()[a as int] is Char),
            r matches Ok(c) ==> self.cells()[a as int] == StoreValue::Char(c),
            (a as int) >= self.cells().len()
                ==> r == Err::<char, StoreError>(StoreError::InvalidAddress),
            ((a as int) < self.cells().len() && !(self.cells()[a as int] is Char))
                ==> r == Err::<char, StoreError>(StoreError::UnexpectedType),
    {
        if a >= self.cells.len() {
            return Err(StoreError::InvalidAddress);
        }
        match &self.cells[a] {
            StoreValue::Char(c) => Ok(*c),
            _ => Err(StoreError::UnexpectedType),
        }
    }

    pub fn get_char_list_len(&self, a: usize) -> (r: Result<usize, StoreError>)
        ensures
            r.is_ok() <==> ((a as int) < self.cells().len()
                && self.cells()[a as int] is CharList),
            r matches Ok(n) ==> match self.cell_spec(a) {
                Some(StoreValue::CharList(cs)) => n == cs@.len(),
                _ => false,
            },
    {
        if a >= self.cells.len() {
            return Err(StoreError::InvalidAddress);
        }
        match &self.cells[a] {
            StoreValue::CharList(cs) => Ok(cs.len()),
            _ => Err(StoreError::UnexpectedType),
        }
    }

    pub fn get_char_list_item(&self, a: usize, i: usize) -> (r: Result<char, StoreError>)
        ensures
            r.is_ok() <==> match self.cell_spec(a) {
                Some(StoreValue::CharList(cs)) => (i as int) < cs@.len(),
                _ => false,
            },
            r matches Ok(c) ==> match self.cell_spec(a) {
                Some(StoreValue::CharList(cs)) => (i as int) < cs@.len() && c == cs@[i as int],
                _ => false,
            },
    {
        if a >= self.cells.len() {
            return Err(StoreError::InvalidAddress);
        }
        match &self.cells[a] {
            StoreValue::CharList(cs) => {
                if i < cs.len() {
                    Ok(cs[i])
                } else {
                    Err(StoreError::IndexOutOfBounds)
                }
            },
            _ => Err(StoreError::UnexpectedType),
        }
    }

    pub fn get_byte_list_len(&self, a: usize) -> (r: Result<usize, StoreError>)
        ensures
            r.is_ok() <==> ((a as int) < self.cells().len()
                && self.cells()[a as int] is ByteList),
            r matches Ok(n) ==> match self.cell_spec(a) {
                Some(StoreValue::ByteList(bs)) => n == bs@.len(),
                _ => false,
            },
    {
        if a >= self.cells.len() {
            return Err(StoreError::InvalidAddress);
        }
        match &self.cells[a] {
            StoreValue::ByteList(bs) => Ok(bs.len()),
            _ => Err(StoreError::UnexpectedType),
        }
    }

    pub fn get_byte_list_item(&self, a: usize, i: usize) -> (r: Result<u8, StoreError>)
        ensures
            r.is_ok() <==> match self.cell_spec(a) {
                Some(StoreValue::ByteList(bs)) => (i as int) < bs@.len(),
                _ => false,
            },
            r matches Ok(b) ==> match self.cell_spec(a) {
                Some(StoreValue::ByteList(bs)) => (i as int) < bs@.len() && b == bs@[i as int],
                _ => false,
            },
    {
        if a >= self.cells.len() {
            return Err(StoreError::InvalidAddress);
        }
        match &self.cells[a] {
            StoreValue::ByteList(bs) => {
                if i < bs.len() {
                    Ok(bs[i])
                } else {
                    Err(StoreError::IndexOutOfBounds)
                }
            },
            _ => Err(StoreError::UnexpectedType),
        }
    }

    pub fn get_list_len(&self, a: usize) -> (r: Result<usize, StoreError>)
        ensures
            r.is_ok() <==> ((a as int) < self.cells().len()
                && self.cells()[a as int] is List),
            r matches Ok(n) ==> match self.cell_spec(a) {
                Some(StoreValue::List(items)) => n == items@.len(),
                _ => false,
            },
    {
        if a >= self.cells.len() {
            return Err(StoreError::InvalidAddress);
        }
        match &self.cells[a] {
            StoreValue::List(items) => Ok(items.len()),
            _ => Err(StoreError::UnexpectedType),
        }
    }

    pub fn get_list_item(&self, a: usize, i: usize) -> (r: Result<usize, StoreError>)
        ensures
            r.is_ok() <==> match self.cell_spec(a) {
                Some(StoreValue::List(items)) => (i as int) < items@.len(),
                _ => false,
            },
            r matches Ok(h) ==> match self.cell_spec(a) {
                Some(StoreValue::List(items)) => (i as int) < items@.len()
                    && h == items@[i as int].0,
                _ => false,
            },
            r matches Ok(h) ==> (self.wf() ==> h < self.cells().len()),
    {
        if a >= self.cells.len() {
            return Err(StoreError::InvalidAddress);
        }
        match &self.cells[a] {
            StoreValue::List(items) => {
                if i < items.len() {
                    Ok(items[i].0)
                } else {
                    Err(StoreError::IndexOutOfBounds)
                }
            },
            _ => Err(StoreError::UnexpectedType),
        }
    }

    /// The associative flag written for the list entry at `i`.
    pub fn get_list_association(&self, a: usize, i: usize) -> (r: Result<bool, StoreError>)
        ensures
            r.is_ok() <==> match self.cell_spec(a) {
                Some(StoreValue::List(items)) => (i as int) < items@.len(),
                _ => false,
            },
            r matches Ok(f) ==> match self.cell_spec(a) {
                Some(StoreValue::List(items)) => (i as int) < items@.len()
                    && f == items@[i as int].1,
                _ => false,
            },
    {
        if a >= self.cells.len() {
            return Err(StoreError::InvalidAddress);
        }
        match &self.cells[a] {
            StoreValue::List(items) => {
                if i < items.len() {
                    Ok(items[i].1)
                } else {
                    Err(StoreError::IndexOutOfBounds)
                }
            },
            _ => Err(StoreError::UnexpectedType),
        }
    }

    pub fn get_pair(&self, a: usize) -> (r: Result<(usize, usize), StoreError>)
        ensures
            r.is_ok() <==> ((a as int) < self.cells().len()
                && self.cells()[a as int] is Pair),
            r matches Ok(p) ==> self.cells()[a as int] == StoreValue::Pair(p.0, p.1),
            r matches Ok(p) ==> (self.wf()
                ==> p.0 < self.cells().len() && p.1 < self.cells().len()),
    {
        if a >= self.cells.len() {
            return Err(StoreError::InvalidAddress);
        }
        match &self.cells[a] {
            StoreValue::Pair(k, v) => Ok((*k, *v)),
            _ => Err(StoreError::UnexpectedType),
        }
    }

    pub fn get_concatenation(&self, a: usize) -> (r: Result<(usize, usize), StoreError>)
        ensures
            r.is_ok() <==> ((a as int) < self.cells().len()
                && self.cells()[a as int] is Concatenation),
            r matches Ok(p) ==> self.cells()[a as int] == StoreValue::Concatenation(p.0, p.1),
            r matches Ok(p) ==> (self.wf()
                ==> (p.0 as int) < a as int && (p.1 as int) < a as int),
    {
        if a >= self.cells.len() {
            return Err(StoreError::InvalidAddress);
        }
        match &self.cells[a] {
            StoreValue::Concatenation(l, rr) => Ok((*l, *rr)),
            _ => Err(StoreError::UnexpectedType),
        }
    }

    pub fn get_range(&self, a: usize) -> (r: Result<(usize, usize), StoreError>)
        ensures
            r.is_ok() <==> ((a as int) < self.cells().len()
                && self.cells()[a as int] is Range),
            r matches Ok(p) ==> self.cells()[a as int] == StoreValue::Range(p.0, p.1),
            r matches Ok(p) ==> (self.wf()
                ==> p.0 < self.cells().len() && p.1 < self.cells().len()),
    {
        if a >= self.cells.len() {
            return Err(StoreError::InvalidAddress);
        }
        match &self.cells[a] {
            StoreValue::Range(s, e) => Ok((*s, *e)),
            _ => Err(StoreError::UnexpectedType),
        }
    }

    pub fn get_slice(&self, a: usize) -> (r: Result<(usize, usize), StoreError>)
        ensures
            r.is_ok() <==> ((a as int) < self.cells().len()
                && self.cells()[a as int] is Slice),
            r matches Ok(p) ==> self.cells()[a as int] == StoreValue::Slice(p.0, p.1),
            r matches Ok(p) ==> (self.wf()
                ==> p.0 < self.cells().len() && p.1 < self.cells().len()),
    {
        if a >= self.cells.len() {
            return Err(StoreError::InvalidAddress);
        }
        match &self.cells[a] {
            StoreValue::Slice(s, rr) => Ok((*s, *rr)),
            _ => Err(StoreError::UnexpectedType),
        }
    }

    // --- materialization ---

    /// Reads the bounds of the `Range` cell at `rng` as integers.
    pub(crate) fn read_slice_bounds(&self, rng: usize) -> (r: Result<(i128, i128), StoreError>)
        ensures
            r.is_ok() <==> slice_bounds(self.cells(), rng as int).is_some(),
            r matches Ok(p) ==> slice_bounds(self.cells(), rng as int)
                == Some((p.0 as int, p.1 as int)),
    {
        let (s_h, e_h) = self.get_range(rng)?;
        if s_h >= self.cells.len() || e_h >= self.cells.len() {
            return Err(StoreError::InvalidAddress);
        }
        let sv = match self.get_number(s_h)? {
            Scalar::Integer(v) => v,
            Scalar::FloatBits(_) => {
                return Err(StoreError::UnexpectedType);
            },
        };
        let ev = match self.get_number(e_h)? {
            Scalar::Integer(v) => v,
            Scalar::FloatBits(_) => {
                return Err(StoreError::UnexpectedType);
            },
        };
        Ok((sv, ev))
    }

    /// Appends to `out` the characters the handle realizes to, per
    /// [`chars_of`].
    fn collect_chars(&self, a: usize, out: &mut Vec<char>) -> (r: Result<(), StoreError>)
        requires
            self.wf(),
        ensures
            r.is_ok() <==> chars_of(self.cells(), a as int).is_some(),
            r.is_ok() ==> final(out)@ == old(out)@ + chars_of(self.cells(), a as int).unwrap(),
        decreases a,
    {
        if a >= self.cells.len() {
            return Err(StoreError::InvalidAddress);
        }
        match &self.cells[a] {
            StoreValue::CharList(cs) => {
                append_all(out, cs);
                Ok(())
            },
            StoreValue::Symbol(cs) => {
                append_all(out, cs);
                Ok(())
            },
            StoreValue::Char(c) => {
                out.push(*c);
                proof {
                    assert(out@ =~= old(out)@ + seq![*c]);
                }
                Ok(())
            },
            StoreValue::Concatenation(l, rr) => {
                proof {
                    assert(cell_wf(self.cells()[a as int], a as int));
                }
                self.collect_chars(*l, out)?;
                let res = self.collect_chars(*rr, out);
                proof {
                    if res.is_ok() {
                        assert(out@ =~= old(out)@ + (
                            chars_of(self.cells(), *l as int).unwrap()
                            + chars_of(self.cells(), *rr as int).unwrap()));
                    }
                }
                res
            },
            StoreValue::Slice(src, rng) => {
                proof {
                    assert(cell_wf(self.cells()[a as int], a as int));
                }
                let (sv, ev) = self.read_slice_bounds(*rng)?;
                if ev < sv {
                    proof {
                        assert(out@ =~= old(out)@ + Seq::<char>::empty());
                    }
                    return Ok(());
                }
                if sv < 0 {
                    return Err(StoreError::IndexOutOfBounds);
                }
                let mut tmp: Vec<char> = Vec::new();
                self.collect_chars(*src, &mut tmp)?;
                let ghost cs = chars_of(self.cells(), *src as int).unwrap();
                let lo: usize = if sv >= tmp.len() as i128 { tmp.len() } else { sv as usize };
                let hi: usize = if ev >= tmp.len() as i128 { tmp.len() } else {
                    (ev as usize) + 1
                };
                proof {
                    assert(window(cs, sv as int, ev as int)
                        == cs.subrange(lo as int, hi as int));
                }
                append_window(out, &tmp, lo, hi);
                Ok(())
            },
            _ => Err(StoreError::UnexpectedType),
        }
    }

    /// Realizes a handle's character content into a fresh `CharList` cell:
    /// the decoder's lazy materialization of symbols, concatenations and
    /// slices into realized strings.
    pub fn add_char_list_from(&mut self, a: usize) -> (r: Result<usize, StoreError>)
        requires
            old(self).wf(),
        ensures
            final(self).wf(),
            grows(old(self).cells(), final(self).cells()),
            final(self).list_frames() == old(self).list_frames(),
            final(self).char_buf() == old(self).char_buf(),
            final(self).byte_buf() == old(self).byte_buf(),
            final(self).value_stack() == old(self).value_stack(),
            r.is_ok() <==> chars_of(old(self).cells(), a as int).is_some(),
            r matches Ok(h) ==> {
                &&& final(self).cells().len() == old(self).cells().len() + 1
                &&& h == old(self).cells().len()
                &&& is_char_list(final(self).cells()[h as int],
                    chars_of(old(self).cells(), a as int).unwrap())
            },
            r.is_err() ==> final(self).cells() == old(self).cells(),
    {
        let mut out: Vec<char> = Vec::new();
        match self.collect_chars(a, &mut out) {
            Ok(()) => Ok(self.push_cell(StoreValue::CharList(out))),
            Err(e) => Err(e),
        }
    }

    /// Coerces a handle's character content into a fresh `Symbol` cell; only
    /// `CharList`, `Symbol` and `Char` cells coerce.
    pub fn add_symbol_from(&mut self, a: usize) -> (r: Result<usize, StoreError>)
        requires
            old(self).wf(),
        ensures
            final(self).wf(),
            grows(old(self).cells(), final(self).cells()),
            final(self).list_frames() == old(self).list_frames(),
            final(self).char_buf() == old(self).char_buf(),
            final(self).byte_buf() == old(self).byte_buf(),
            final(self).value_stack() == old(self).value_stack(),
            r.is_ok() <==> symbol_chars_from(old(self).cells(), a as int).is_some(),
            r matches Ok(h) ==> {
                &&& final(self).cells().len() == old(self).cells().len() + 1
                &&& h == old(self).cells().len()
                &&& is_symbol(final(self).cells()[h as int],
                    symbol_chars_from(old(self).cells(), a as int).unwrap())
            },
            r.is_err() ==> final(self).cells() == old(self).cells(),
    {
        if a >= self.cells.len() {
            return Err(StoreError::InvalidAddress);
        }
        let mut out: Vec<char> = Vec::new();
        match &self.cells[a] {
            StoreValue::CharList(cs) => append_all(&mut out, cs),
            StoreValue::Symbol(cs) => append_all(&mut out, cs),
            StoreValue::Char(c) => {
                out.push(*c);
                proof {
                    assert(out@ =~= seq![*c]);
                }
            },
            _ => {
                return Err(StoreError::UnexpectedType);
            },
        }
        Ok(self.push_cell(StoreValue::Symbol(out)))
    }

    /// Spec view of `get_cell`.
    pub open spec fn cell_spec(self, a: usize) -> Option<StoreValue> {
        if (a as int) < self.cells().len() {
            Some(self.cells()[a as int])
        } else {
            None
        }
    }
}

} // verus!
