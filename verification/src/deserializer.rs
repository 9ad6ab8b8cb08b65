//! The decode direction: reading a store handle back into structured
//! content. The core is the List/Concatenation/Slice resolution that turns
//! any list-like handle into a flat, index-addressable sequence of item
//! handles; concatenation trees are flattened with an explicit stack, so
//! deep or unbalanced trees cost no call depth.

use vstd::prelude::*;

use crate::error::{wrap_err, GarnishSerializationError};
use crate::number::Scalar;
use crate::store::{
    cell_wf, chars_of, is_char_list, list_addrs, slice_bounds, spec_flatten, stack_wf, sv_tag,
    window, GarnishDataType, Store, StoreError, StoreValue,
};

verus! {

/// How many tree nodes the concatenation walk starting at `h` visits; the
/// termination measure of the explicit-stack flattening.
pub open spec fn node_count(cells: Seq<StoreValue>, h: int) -> nat
    decreases h,
{
    if 0 <= h < cells.len() {
        match cells[h] {
            StoreValue::Concatenation(l, r) => {
                if (l as int) < h && (r as int) < h {
                    1 + node_count(cells, l as int) + node_count(cells, r as int)
                } else {
                    1
                }
            },
            _ => 1,
        }
    } else {
        1
    }
}

/// The total node count of every entry still on the walk's stack.
pub open spec fn stack_sum(cells: Seq<StoreValue>, s: Seq<usize>) -> nat
    decreases s.len(),
{
    if s.len() == 0 {
        0
    } else {
        stack_sum(cells, s.drop_last()) + node_count(cells, s.last() as int)
    }
}

/// The leaves still owed by the walk's stack, leftmost leaf first: entries
/// pop from the end, so the sequence reads the stack from its top down.
pub open spec fn flatten_stack(cells: Seq<StoreValue>, s: Seq<usize>) -> Seq<usize>
    decreases s.len(),
{
    if s.len() == 0 {
        Seq::empty()
    } else {
        spec_flatten(cells, s.last() as int) + flatten_stack(cells, s.drop_last())
    }
}

proof fn lemma_stack_sum_push(cells: Seq<StoreValue>, s: Seq<usize>, x: usize)
    ensures
        stack_sum(cells, s.push(x)) == stack_sum(cells, s) + node_count(cells, x as int),
{
    assert(s.push(x).drop_last() =~= s);
    assert(s.push(x).last() == x);
}

proof fn lemma_flatten_stack_push(cells: Seq<StoreValue>, s: Seq<usize>, x: usize)
    ensures
        flatten_stack(cells, s.push(x))
            == spec_flatten(cells, x as int) + flatten_stack(cells, s),
{
    assert(s.push(x).drop_last() =~= s);
    assert(s.push(x).last() == x);
}

/// The uniform indexed view of a list-like handle: a `List` gives its
/// entries in order, a `Concatenation` its flattened leaves, a `Slice` the
/// clamped inclusive window of its resolved source (which must be a `List`
/// or `Concatenation`; a backwards range gives the empty view), and any
/// other cell stands alone as a one-item view.
pub open spec fn resolved_items(cells: Seq<StoreValue>, a: int) -> Option<Seq<usize>> {
    if 0 <= a < cells.len() {
        match cells[a] {
            StoreValue::List(items) => Some(list_addrs(items@)),
            StoreValue::Concatenation(_, _) => Some(spec_flatten(cells, a)),
            StoreValue::Slice(src, rng) => {
                if (src as int) < a && (rng as int) < a {
                    let base = match cells[src as int] {
                        StoreValue::List(items) => Some(list_addrs(items@)),
                        StoreValue::Concatenation(_, _) => Some(spec_flatten(cells, src as int)),
                        _ => Option::<Seq<usize>>::None,
                    };
                    match (base, slice_bounds(cells, rng as int)) {
                        (Some(b), Some((sv, ev))) => {
                            if ev < sv {
                                Some(Seq::empty())
                            } else if sv < 0 {
                                None
                            } else {
                                Some(window(b, sv, ev))
                            }
                        },
                        _ => None,
                    }
                } else {
                    None
                }
            },
            _ => Some(seq![a as usize]),
        }
    } else {
        None
    }
}

/// Flattening a left-nested concatenation `concat(concat(a, b), c)` of
/// three leaves gives `[a, b, c]`: left-to-right leaf order.
pub proof fn lemma_flatten_left_nested(
    cells: Seq<StoreValue>,
    a: usize,
    b: usize,
    c: usize,
    n1: usize,
    n2: usize,
)
    requires
        crate::store::wf_cells(cells),
        (n2 as int) < cells.len(),
        cells[n2 as int] == StoreValue::Concatenation(n1, c),
        cells[n1 as int] == StoreValue::Concatenation(a, b),
        !(cells[a as int] is Concatenation),
        !(cells[b as int] is Concatenation),
        !(cells[c as int] is Concatenation),
    ensures
        spec_flatten(cells, n2 as int) == seq![a, b, c],
{
    assert(cell_wf(cells[n2 as int], n2 as int));
    assert(cell_wf(cells[n1 as int], n1 as int));
    assert(spec_flatten(cells, a as int) == seq![a]);
    assert(spec_flatten(cells, b as int) == seq![b]);
    assert(spec_flatten(cells, c as int) == seq![c]);
    assert(spec_flatten(cells, n1 as int) =~= seq![a, b]);
    assert(spec_flatten(cells, n2 as int) =~= seq![a, b, c]);
}

/// Flattening a right-nested concatenation `concat(a, concat(b, c))` of
/// the same three leaves gives the same `[a, b, c]` order.
pub proof fn lemma_flatten_right_nested(
    cells: Seq<StoreValue>,
    a: usize,
    b: usize,
    c: usize,
    n1: usize,
    n2: usize,
)
    requires
        crate::store::wf_cells(cells),
        (n2 as int) < cells.len(),
        cells[n2 as int] == StoreValue::Concatenation(a, n1),
        cells[n1 as int] == StoreValue::Concatenation(b, c),
        !(cells[a as int] is Concatenation),
        !(cells[b as int] is Concatenation),
        !(cells[c as int] is Concatenation),
    ensures
        spec_flatten(cells, n2 as int) == seq![a, b, c],
{
    assert(cell_wf(cells[n2 as int], n2 as int));
    assert(cell_wf(cells[n1 as int], n1 as int));
    assert(spec_flatten(cells, a as int) == seq![a]);
    assert(spec_flatten(cells, b as int) == seq![b]);
    assert(spec_flatten(cells, c as int) == seq![c]);
    assert(spec_flatten(cells, n1 as int) =~= seq![b, c]);
    assert(spec_flatten(cells, n2 as int) =~= seq![a, b, c]);
}

/// Slicing behaves the same over a `List` and over a `Concatenation` of
/// equal content: two slices whose sources resolve to the same items and
/// whose ranges read the same bounds resolve identically.
pub proof fn lemma_slice_source_equivalence(cells: Seq<StoreValue>, s1: usize, s2: usize)
    requires
        crate::store::wf_cells(cells),
        (s1 as int) < cells.len(),
        (s2 as int) < cells.len(),
        cells[s1 as int] is Slice,
        cells[s2 as int] is Slice,
        match (cells[s1 as int], cells[s2 as int]) {
            (StoreValue::Slice(src1, r1), StoreValue::Slice(src2, r2)) => {
                &&& (cells[src1 as int] is List || cells[src1 as int] is Concatenation)
                &&& (cells[src2 as int] is List || cells[src2 as int] is Concatenation)
                &&& resolved_items(cells, src1 as int) == resolved_items(cells, src2 as int)
                &&& slice_bounds(cells, r1 as int) == slice_bounds(cells, r2 as int)
            },
            _ => false,
        },
    ensures
        resolved_items(cells, s1 as int) == resolved_items(cells, s2 as int),
{
    assert(cell_wf(cells[s1 as int], s1 as int));
    assert(cell_wf(cells[s2 as int], s2 as int));
}

/// Appending cells never changes the flattening of an existing tree.
pub proof fn lemma_spec_flatten_grows(pre: Seq<StoreValue>, post: Seq<StoreValue>, h: int)
    requires
        crate::store::grows(pre, post),
        crate::store::wf_cells(pre),
        0 <= h < pre.len(),
    ensures
        spec_flatten(post, h) == spec_flatten(pre, h),
    decreases h,
{
    assert(post[h] == pre[h]);
    match pre[h] {
        StoreValue::Concatenation(l, r) => {
            assert(cell_wf(pre[h], h));
            lemma_spec_flatten_grows(pre, post, l as int);
            lemma_spec_flatten_grows(pre, post, r as int);
        },
        _ => {},
    }
}

/// Appending cells never changes the resolution of an existing handle.
pub proof fn lemma_resolved_items_grows(pre: Seq<StoreValue>, post: Seq<StoreValue>, a: int)
    requires
        crate::store::grows(pre, post),
        crate::store::wf_cells(pre),
        0 <= a < pre.len(),
    ensures
        resolved_items(post, a) == resolved_items(pre, a),
{
    assert(post[a] == pre[a]);
    match pre[a] {
        StoreValue::Concatenation(_, _) => {
            lemma_spec_flatten_grows(pre, post, a);
        },
        StoreValue::Slice(src, rng) => {
            assert(cell_wf(pre[a], a));
            assert(post[src as int] == pre[src as int]);
            crate::store::lemma_slice_bounds_grows(pre, post, rng as int);
            match pre[src as int] {
                StoreValue::Concatenation(_, _) => {
                    lemma_spec_flatten_grows(pre, post, src as int);
                },
                _ => {},
            }
        },
        _ => {},
    }
}

/// Flattens the concatenation tree at `concat_ref` into its leaves, left to
/// right, with an explicit stack: a popped `Concatenation` pushes its right
/// child then its left, so the left side pops first; anything else is a
/// leaf.
pub fn gather_concat_items(concat_ref: usize, data: &Store) -> (r: Result<
    Vec<usize>,
    GarnishSerializationError,
>)
    requires
        data.wf(),
    ensures
        r.is_ok() <==> (concat_ref as int) < data.cells().len(),
        r matches Ok(v) ==> v@ == spec_flatten(data.cells(), concat_ref as int),
{
    if concat_ref >= data.len() {
        return wrap_err(crate::store::StoreError::InvalidAddress);
    }
    let ghost cells = data.cells();
    let mut items: Vec<usize> = Vec::new();
    let mut cat_stack: Vec<usize> = Vec::new();
    cat_stack.push(concat_ref);
    proof {
        lemma_flatten_stack_push(cells, Seq::empty(), concat_ref);
        lemma_stack_sum_push(cells, Seq::empty(), concat_ref);
        assert(items@ + flatten_stack(cells, cat_stack@)
            =~= spec_flatten(cells, concat_ref as int));
    }
    while cat_stack.len() > 0
        invariant
            data.wf(),
            cells == data.cells(),
            stack_wf(cat_stack@, cells.len() as int),
            items@ + flatten_stack(cells, cat_stack@)
                == spec_flatten(cells, concat_ref as int),
        decreases stack_sum(cells, cat_stack@),
    {
        let ghost pre_stack = cat_stack@;
        let current = match cat_stack.pop() {
            Some(v) => v,
            None => {
                return wrap_err(crate::store::StoreError::InvalidAddress);
            },
        };
        proof {
            assert(pre_stack.last() == current);
            assert(cat_stack@ =~= pre_stack.drop_last());
            assert((current as int) < cells.len());
        }
        match data.get_data_type(current) {
            Ok(GarnishDataType::Concatenation) => {
                let (left, right) = match data.get_concatenation(current) {
                    Ok(p) => p,
                    Err(e) => {
                        return wrap_err(e);
                    },
                };
                proof {
                    assert(cell_wf(cells[current as int], current as int));
                }
                cat_stack.push(right);
                proof {
                    lemma_flatten_stack_push(cells, pre_stack.drop_last(), right);
                    lemma_stack_sum_push(cells, pre_stack.drop_last(), right);
                }
                cat_stack.push(left);
                proof {
                    lemma_flatten_stack_push(cells, pre_stack.drop_last().push(right), left);
                    lemma_stack_sum_push(cells, pre_stack.drop_last().push(right), left);
                    assert(spec_flatten(cells, current as int)
                        == spec_flatten(cells, left as int)
                            + spec_flatten(cells, right as int));
                    assert(items@ + flatten_stack(cells, cat_stack@)
                        =~= items@ + (spec_flatten(cells, current as int)
                            + flatten_stack(cells, pre_stack.drop_last())));
                }
            },
            Ok(_) => {
                items.push(current);
                proof {
                    assert(spec_flatten(cells, current as int) =~= seq![current]);
                    assert(items@ + flatten_stack(cells, cat_stack@)
                        =~= old_items_plus(items@, cells, pre_stack));
                }
            },
            Err(e) => {
                return wrap_err(e);
            },
        }
    }
    proof {
        assert(flatten_stack(cells, cat_stack@) =~= Seq::<usize>::empty());
        assert(items@ =~= spec_flatten(cells, concat_ref as int));
    }
    Ok(items)
}

/// Ghost helper naming the invariant's right-hand side after a leaf pop.
spec fn old_items_plus(items: Seq<usize>, cells: Seq<StoreValue>, pre_stack: Seq<usize>) -> Seq<
    usize,
> {
    items.drop_last() + (spec_flatten(cells, pre_stack.last() as int)
        + flatten_stack(cells, pre_stack.drop_last()))
}

/// A decode session: the store being read plus the focus stack of handles
/// currently being decoded, innermost on top, so nested decoding (a
/// sequence element, a map value, an enum payload) can redirect focus
/// without losing the outer context.
pub struct GarnishDataDeserializer {
    data: Store,
    value_stack: Vec<usize>,
}

impl GarnishDataDeserializer {
    pub closed spec fn store_spec(self) -> Store {
        self.data
    }

    pub open spec fn cells(self) -> Seq<StoreValue> {
        self.store_spec().cells()
    }

    pub closed spec fn focus_spec(self) -> Seq<usize> {
        self.value_stack@
    }

    pub open spec fn wf(self) -> bool {
        self.store_spec().wf()
    }

    /// The handle in focus: the top of the focus stack.
    pub open spec fn focal(self) -> Option<usize> {
        if self.focus_spec().len() > 0 {
            Some(self.focus_spec().last())
        } else {
            None
        }
    }

    /// The cell in focus, when the focus stack is non-empty and its top
    /// addresses a cell.
    pub open spec fn focal_cell(self) -> Option<StoreValue> {
        match self.focal() {
            Some(a) => {
                if (a as int) < self.cells().len() {
                    Some(self.cells()[a as int])
                } else {
                    None
                }
            },
            None => None,
        }
    }

    /// Everything but the store's cell heap and the focus stack is held
    /// fixed by a decode step, and the heap only grows.
    pub open spec fn steps_from(pre: GarnishDataDeserializer, post: GarnishDataDeserializer)
        -> bool {
        &&& crate::store::grows(pre.cells(), post.cells())
        &&& post.store_spec().list_frames() == pre.store_spec().list_frames()
        &&& post.store_spec().char_buf() == pre.store_spec().char_buf()
        &&& post.store_spec().byte_buf() == pre.store_spec().byte_buf()
        &&& post.store_spec().value_stack() == pre.store_spec().value_stack()
    }

    /// Seeds the focus with the store's current value; a store with no
    /// current value leaves the first handle unallocated, and every read
    /// then reports the invalid address.
    pub fn new(data: Store) -> (r: GarnishDataDeserializer)
        ensures
            r.store_spec() == data,
            r.focus_spec().len() == 1,
            data.value_stack().len() > 0 ==> r.focus_spec()[0] == data.value_stack().last(),
            data.value_stack().len() == 0 ==> r.focus_spec()[0] == 0,
    {
        let v = match data.get_current_value() {
            Some(a) => a,
            None => 0,
        };
        GarnishDataDeserializer { data, value_stack: vec![v] }
    }

    pub fn new_for_value(data: Store, value_addr: usize) -> (r: GarnishDataDeserializer)
        ensures
            r.store_spec() == data,
            r.focus_spec() =~= seq![value_addr],
    {
        GarnishDataDeserializer { data, value_stack: vec![value_addr] }
    }

    /// Gives the store back, with everything the session materialized.
    pub fn into_data(self) -> (r: Store)
        ensures r == self.store_spec(),
    {
        self.data
    }

    pub fn data(&self) -> (r: &Store)
        ensures *r == self.store_spec(),
    {
        &self.data
    }

    /// Pushes a handle as the new focus; fails on an unallocated handle.
    pub fn push_focus(&mut self, addr: usize) -> (r: Result<(), GarnishSerializationError>)
        requires old(self).wf(),
        ensures
            final(self).wf(),
            final(self).store_spec() == old(self).store_spec(),
            r.is_ok() <==> (addr as int) < old(self).cells().len(),
            r.is_ok() ==> final(self).focus_spec() == old(self).focus_spec().push(addr),
            r.is_err() ==> final(self).focus_spec() == old(self).focus_spec(),
    {
        if addr >= self.data.len() {
            return wrap_err(StoreError::InvalidAddress);
        }
        self.value_stack.push(addr);
        Ok(())
    }

    /// Drops the innermost focus, restoring the enclosing one.
    pub fn pop_focus(&mut self) -> (r: Option<usize>)
        requires old(self).wf(),
        ensures
            final(self).wf(),
            final(self).store_spec() == old(self).store_spec(),
            r == old(self).focal(),
            old(self).focus_spec().len() > 0
                ==> final(self).focus_spec() == old(self).focus_spec().drop_last(),
            old(self).focus_spec().len() == 0
                ==> final(self).focus_spec() == old(self).focus_spec(),
    {
        self.value_stack.pop()
    }

    /// The focal handle and its tag.
    pub fn value(&self) -> (r: Result<
        (GarnishDataType, usize),
        GarnishSerializationError,
    >)
        ensures
            r.is_ok() <==> (match self.focal() {
                Some(a) => (a as int) < self.cells().len(),
                None => false,
            }),
            r matches Ok(p) ==> self.focal() == Some(p.1)
                && p.0 == sv_tag(self.cells()[p.1 as int]),
    {
        let a = if self.value_stack.len() > 0 {
            self.value_stack[self.value_stack.len() - 1]
        } else {
            return Err(GarnishSerializationError::from_message("No value to deserialize."));
        };
        match self.data.get_data_type(a) {
            Ok(t) => Ok((t, a)),
            Err(e) => wrap_err(e),
        }
    }

    pub fn deserialize_bool(&self) -> (r: Result<bool, GarnishSerializationError>)
        ensures
            r.is_ok() <==> (match self.focal_cell() {
                Some(c) => c is True || c is False,
                None => false,
            }),
            r matches Ok(b) ==> (if b {
                self.focal_cell() == Some(StoreValue::True)
            } else {
                self.focal_cell() == Some(StoreValue::False)
            }),
    {
        let (t, _a) = self.value()?;
        match t {
            GarnishDataType::True => Ok(true),
            GarnishDataType::False => Ok(false),
            _ => Err(GarnishSerializationError::from_message(
                "Expected True or False, found another tag.")),
        }
    }

    /// The focal `Number` as the store's scalar, exactly as stored.
    pub fn deserialize_number(&self) -> (r: Result<Scalar, GarnishSerializationError>)
        ensures
            r.is_ok() <==> (match self.focal_cell() {
                Some(c) => c is Number,
                None => false,
            }),
            r matches Ok(s) ==> self.focal_cell() == Some(StoreValue::Number(s)),
    {
        let (_t, a) = self.value()?;
        match self.data.get_number(a) {
            Ok(s) => Ok(s),
            Err(e) => wrap_err(e),
        }
    }

    /// The focal integer `Number`, when it lies in the target range; no
    /// truncation ever happens.
    pub fn deserialize_i8(&self) -> (r: Result<i8, GarnishSerializationError>)
        ensures
            r.is_ok() <==> (match self.focal_cell() {
                Some(StoreValue::Number(Scalar::Integer(n))) => i8::MIN <= n <= i8::MAX,
                _ => false,
            }),
            r matches Ok(v) ==> self.focal_cell()
                == Some(StoreValue::Number(Scalar::Integer(v as i128))),
    {
        let s = self.deserialize_number()?;
        match s.to_i8() {
            Some(v) => Ok(v),
            None => Err(GarnishSerializationError::from_message(
                "Number out of range for the requested width.")),
        }
    }

    pub fn deserialize_i16(&self) -> (r: Result<i16, GarnishSerializationError>)
        ensures
            r.is_ok() <==> (match self.focal_cell() {
                Some(StoreValue::Number(Scalar::Integer(n))) => i16::MIN <= n <= i16::MAX,
                _ => false,
            }),
            r matches Ok(v) ==> self.focal_cell()
                == Some(StoreValue::Number(Scalar::Integer(v as i128))),
    {
        let s = self.deserialize_number()?;
        match s.to_i16() {
            Some(v) => Ok(v),
            None => Err(GarnishSerializationError::from_message(
                "Number out of range for the requested width.")),
        }
    }

    pub fn deserialize_i32(&self) -> (r: Result<i32, GarnishSerializationError>)
        ensures
            r.is_ok() <==> (match self.focal_cell() {
                Some(StoreValue::Number(Scalar::Integer(n))) => i32::MIN <= n <= i32::MAX,
                _ => false,
            }),
            r matches Ok(v) ==> self.focal_cell()
                == Some(StoreValue::Number(Scalar::Integer(v as i128))),
    {
        let s = self.deserialize_number()?;
        match s.to_i32() {
            Some(v) => Ok(v),
            None => Err(GarnishSerializationError::from_message(
                "Number out of range for the requested width.")),
        }
    }

    pub fn deserialize_i64(&self) -> (r: Result<i64, GarnishSerializationError>)
        ensures
            r.is_ok() <==> (match self.focal_cell() {
                Some(StoreValue::Number(Scalar::Integer(n))) => i64::MIN <= n <= i64::MAX,
                _ => false,
            }),
            r matches Ok(v) ==> self.focal_cell()
                == Some(StoreValue::Number(Scalar::Integer(v as i128))),
    {
        let s = self.deserialize_number()?;
        match s.to_i64() {
            Some(v) => Ok(v),
            None => Err(GarnishSerializationError::from_message(
                "Number out of range for the requested width.")),
        }
    }

    pub fn deserialize_u8(&self) -> (r: Result<u8, GarnishSerializationError>)
        ensures
            r.is_ok() <==> (match self.focal_cell() {
                Some(StoreValue::Number(Scalar::Integer(n))) => 0 <= n <= u8::MAX,
                _ => false,
            }),
            r matches Ok(v) ==> self.focal_cell()
                == Some(StoreValue::Number(Scalar::Integer(v as i128))),
    {
        let s = self.deserialize_number()?;
        match s.to_u8() {
            Some(v) => Ok(v),
            None => Err(GarnishSerializationError::from_message(
                "Number out of range for the requested width.")),
        }
    }

    pub fn deserialize_u16(&self) -> (r: Result<u16, GarnishSerializationError>)
        ensures
            r.is_ok() <==> (match self.focal_cell() {
                Some(StoreValue::Number(Scalar::Integer(n))) => 0 <= n <= u16::MAX,
                _ => false,
            }),
            r matches Ok(v) ==> self.focal_cell()
                == Some(StoreValue::Number(Scalar::Integer(v as i128))),
    {
        let s = self.deserialize_number()?;
        match s.to_u16() {
            Some(v) => Ok(v),
            None => Err(GarnishSerializationError::from_message(
                "Number out of range for the requested width.")),
        }
    }

    pub fn deserialize_u32(&self) -> (r: Result<u32, GarnishSerializationError>)
        ensures
            r.is_ok() <==> (match self.focal_cell() {
                Some(StoreValue::Number(Scalar::Integer(n))) => 0 <= n <= u32::MAX,
                _ => false,
            }),
            r matches Ok(v) ==> self.focal_cell()
                == Some(StoreValue::Number(Scalar::Integer(v as i128))),
    {
        let s = self.deserialize_number()?;
        match s.to_u32() {
            Some(v) => Ok(v),
            None => Err(GarnishSerializationError::from_message(
                "Number out of range for the requested width.")),
        }
    }

    pub fn deserialize_u64(&self) -> (r: Result<u64, GarnishSerializationError>)
        ensures
            r.is_ok() <==> (match self.focal_cell() {
                Some(StoreValue::Number(Scalar::Integer(n))) => 0 <= n <= u64::MAX,
                _ => false,
            }),
            r matches Ok(v) ==> self.focal_cell()
                == Some(StoreValue::Number(Scalar::Integer(v as i128))),
    {
        let s = self.deserialize_number()?;
        match s.to_u64() {
            Some(v) => Ok(v),
            None => Err(GarnishSerializationError::from_message(
                "Number out of range for the requested width.")),
        }
    }

    pub fn deserialize_char(&self) -> (r: Result<char, GarnishSerializationError>)
        ensures
            r.is_ok() <==> (match self.focal_cell() {
                Some(c) => c is Char,
                None => false,
            }),
            r matches Ok(c) ==> self.focal_cell() == Some(StoreValue::Char(c)),
    {
        let (_t, a) = self.value()?;
        match self.data.get_char(a) {
            Ok(c) => Ok(c),
            Err(e) => wrap_err(e),
        }
    }

    pub fn deserialize_unit(&self) -> (r: Result<(), GarnishSerializationError>)
        ensures
            r.is_ok() <==> self.focal_cell() == Some(StoreValue::Unit),
    {
        let (t, _a) = self.value()?;
        match t {
            GarnishDataType::Unit => Ok(()),
            _ => Err(GarnishSerializationError::from_message(
                "Expected Unit, found another tag.")),
        }
    }

    /// The focal value's characters. A realized `CharList` is read by
    /// indexed iteration; a `Symbol`, `Concatenation` or `Slice` is first
    /// materialized into a fresh `CharList` (which allocates), then read.
    pub fn deserialize_string(&mut self) -> (r: Result<Vec<char>, GarnishSerializationError>)
        requires
            old(self).wf(),
        ensures
            final(self).wf(),
            GarnishDataDeserializer::steps_from(*old(self), *final(self)),
            final(self).focus_spec() == old(self).focus_spec(),
            r.is_ok() <==> (match old(self).focal_cell() {
                Some(c) => (c is CharList || c is Symbol || c is Concatenation || c is Slice)
                    && chars_of(old(self).cells(), old(self).focal().unwrap() as int).is_some(),
                None => false,
            }),
            r matches Ok(cs) ==> Some(cs@)
                == chars_of(old(self).cells(), old(self).focal().unwrap() as int),
    {
        let (t, a) = self.value()?;
        match t {
            GarnishDataType::CharList => read_char_list(&self.data, a),
            GarnishDataType::Symbol
            | GarnishDataType::Concatenation
            | GarnishDataType::Slice => {
                let h = match self.data.add_char_list_from(a) {
                    Ok(h) => h,
                    Err(e) => {
                        return wrap_err(e);
                    },
                };
                read_char_list(&self.data, h)
            },
            _ => Err(GarnishSerializationError::from_message(
                "Expected CharList, Symbol, Concatenation or Slice, found another tag.")),
        }
    }

    /// The focal `ByteList`'s bytes, by indexed iteration.
    pub fn deserialize_byte_buf(&self) -> (r: Result<Vec<u8>, GarnishSerializationError>)
        ensures
            r.is_ok() <==> (match self.focal_cell() {
                Some(c) => c is ByteList,
                None => false,
            }),
            r matches Ok(bs) ==> (match self.focal_cell() {
                Some(StoreValue::ByteList(b)) => bs@ == b@,
                _ => false,
            }),
    {
        let (t, a) = self.value()?;
        match t {
            GarnishDataType::ByteList => {
                let len = match self.data.get_byte_list_len(a) {
                    Ok(n) => n,
                    Err(e) => {
                        return wrap_err(e);
                    },
                };
                let mut bytes: Vec<u8> = Vec::new();
                let mut i: usize = 0;
                while i < len
                    invariant
                        i <= len,
                        (a as int) < self.cells().len(),
                        match self.cells()[a as int] {
                            StoreValue::ByteList(b) => {
                                &&& len == b@.len()
                                &&& bytes@ == b@.subrange(0, i as int)
                            },
                            _ => false,
                        },
                    decreases len - i,
                {
                    let b = match self.data.get_byte_list_item(a, i) {
                        Ok(b) => b,
                        Err(e) => {
                            return wrap_err(e);
                        },
                    };
                    bytes.push(b);
                    proof {
                        match self.cells()[a as int] {
                            StoreValue::ByteList(bb) => {
                                assert(bytes@ =~= bb@.subrange(0, i + 1 as int));
                            },
                            _ => {},
                        }
                    }
                    i = i + 1;
                }
                proof {
                    match self.cells()[a as int] {
                        StoreValue::ByteList(bb) => {
                            assert(bytes@ =~= bb@);
                        },
                        _ => {},
                    }
                }
                Ok(bytes)
            },
            _ => Err(GarnishSerializationError::from_message(
                "Expected ByteList, found another tag.")),
        }
    }

    /// Materializes any character-bearing handle (symbols included) into a
    /// fresh `CharList` and reads it out: how discriminant symbols become
    /// strings.
    pub fn create_symbol_string(&mut self, a: usize) -> (r: Result<
        Vec<char>,
        GarnishSerializationError,
    >)
        requires
            old(self).wf(),
        ensures
            final(self).wf(),
            GarnishDataDeserializer::steps_from(*old(self), *final(self)),
            final(self).focus_spec() == old(self).focus_spec(),
            r.is_ok() <==> chars_of(old(self).cells(), a as int).is_some(),
            r matches Ok(cs) ==> Some(cs@) == chars_of(old(self).cells(), a as int),
    {
        let h = match self.data.add_char_list_from(a) {
            Ok(h) => h,
            Err(e) => {
                return wrap_err(e);
            },
        };
        read_char_list(&self.data, h)
    }

    /// Reads the focal value as an optional: a `Unit` tag is absence, any
    /// other tag is presence, with the same focal handle re-read as the
    /// contained value.
    pub fn deserialize_option(&self) -> (r: Result<bool, GarnishSerializationError>)
        ensures
            r.is_ok() <==> (match self.focal() {
                Some(a) => (a as int) < self.cells().len(),
                None => false,
            }),
            r matches Ok(present) ==> present == !(self.focal_cell().unwrap() is Unit),
    {
        let (t, _a) = self.value()?;
        match t {
            GarnishDataType::Unit => Ok(false),
            _ => Ok(true),
        }
    }

    /// Resolves the focal value as a fixed-arity tuple: succeeds exactly
    /// when the resolved view holds `len` items — too few or too many is
    /// an arity error.
    pub fn deserialize_tuple(&self, len: usize) -> (r: Result<
        ListAccessor,
        GarnishSerializationError,
    >)
        requires
            self.wf(),
        ensures
            r.is_ok() <==> (self.focal_resolution().is_some()
                && self.focal_resolution().unwrap().len() == len),
            r matches Ok(acc) ==> {
                &&& acc.wf()
                &&& Some(acc.remaining()) == self.focal_resolution()
            },
    {
        let acc = ListAccessor::new_with_max(self, len)?;
        if acc.remaining_len() < len {
            return Err(GarnishSerializationError::from_message(
                "Fewer items in the list-like value than the requested arity."));
        }
        Ok(acc)
    }

    /// The resolution of the focal handle into the uniform indexed view.
    pub open spec fn focal_resolution(self) -> Option<Seq<usize>> {
        match self.focal() {
            Some(a) => resolved_items(self.cells(), a as int),
            None => None,
        }
    }

    /// What decoding the focal handle as an enum discriminant yields: the
    /// variant-name segment of the discriminant symbol (the text between
    /// the first `"::"` and the next one, or the end), plus the payload
    /// handle when the focal value is a `[discriminant, payload]` list. A
    /// discriminant without `"::"` resolves to nothing.
    pub open spec fn variant_resolution(self) -> Option<(Seq<char>, Option<usize>)> {
        match self.focal_cell() {
            Some(StoreValue::Symbol(s)) => {
                match variant_segment(s@) {
                    Some(seg) => Some((seg, Option::<usize>::None)),
                    None => None,
                }
            },
            Some(StoreValue::List(entries)) => {
                if entries@.len() >= 2 {
                    match chars_of(self.cells(), entries@[0].0 as int) {
                        Some(cs) => {
                            match variant_segment(cs) {
                                Some(seg) => Some((seg, Some(entries@[1].0))),
                                None => None,
                            }
                        },
                        None => None,
                    }
                } else {
                    None
                }
            },
            _ => None,
        }
    }

    /// Reads the focal value as an enum discriminant: a bare `Symbol` is a
    /// unit variant; a `List` holds the discriminant first and the payload
    /// second, and the payload becomes the new focus. Returns the variant
    /// name; a discriminant symbol without `"::"` is a hard error.
    pub fn variant_seed(&mut self) -> (r: Result<Vec<char>, GarnishSerializationError>)
        requires
            old(self).wf(),
        ensures
            final(self).wf(),
            GarnishDataDeserializer::steps_from(*old(self), *final(self)),
            old(self).focus_spec().is_prefix_of(final(self).focus_spec()),
            final(self).focus_spec().len() <= old(self).focus_spec().len() + 1,
            r.is_ok() <==> old(self).variant_resolution().is_some(),
            r matches Ok(name) ==> {
                &&& Some(name@) == Some(old(self).variant_resolution().unwrap().0)
                &&& match old(self).variant_resolution().unwrap().1 {
                    Some(p) => final(self).focus_spec() == old(self).focus_spec().push(p),
                    None => final(self).focus_spec() == old(self).focus_spec(),
                }
            },
    {
        let (t, a) = self.value()?;
        let sym_a = match t {
            GarnishDataType::List => {
                let first = match self.data.get_list_item(a, 0) {
                    Ok(h) => h,
                    Err(e) => {
                        return wrap_err(e);
                    },
                };
                let second = match self.data.get_list_item(a, 1) {
                    Ok(h) => h,
                    Err(e) => {
                        return wrap_err(e);
                    },
                };
                self.value_stack.push(second);
                first
            },
            GarnishDataType::Symbol => a,
            _ => {
                return Err(GarnishSerializationError::from_message(
                    "Expected List or Symbol for variant, found another tag."));
            },
        };
        let sym = self.create_symbol_string(sym_a)?;
        let sep = match find_separator(&sym, 0) {
            Some(i) => i,
            None => {
                return Err(GarnishSerializationError::from_message(
                    "Could not get enum variant from discriminant symbol."));
            },
        };
        let start = sep + 2;
        let end = match find_separator(&sym, start) {
            Some(j) => j,
            None => sym.len(),
        };
        let mut name: Vec<char> = Vec::new();
        crate::store::append_window(&mut name, &sym, start, end);
        Ok(name)
    }
}

/// The uniform indexed view of the focal handle, resolved once up front:
/// sequence, tuple, map, struct and enum-payload decoding all walk one of
/// these.
pub struct ListAccessor {
    items: Vec<usize>,
    pos: usize,
}

impl ListAccessor {
    pub closed spec fn items_spec(self) -> Seq<usize> {
        self.items@
    }

    pub closed spec fn pos_spec(self) -> int {
        self.pos as int
    }

    pub open spec fn wf(self) -> bool {
        0 <= self.pos_spec() <= self.items_spec().len()
    }

    /// The items not yet handed out, in order.
    pub open spec fn remaining(self) -> Seq<usize> {
        self.items_spec().skip(self.pos_spec())
    }

    /// Resolves the focal handle with no bound on the item count.
    pub fn new(de: &GarnishDataDeserializer) -> (r: Result<
        ListAccessor,
        GarnishSerializationError,
    >)
        requires
            de.wf(),
        ensures
            r.is_ok() <==> de.focal_resolution().is_some(),
            r matches Ok(acc) ==> {
                &&& acc.wf()
                &&& Some(acc.remaining()) == de.focal_resolution()
            },
    {
        Self::new_with_max(de, usize::MAX)
    }

    /// Resolves the focal handle into its indexed view, refusing a view of
    /// more than `max` items: a `List` reads by position, a `Concatenation`
    /// flattens, a `Slice` takes the clamped inclusive window over its
    /// resolved `List` or `Concatenation` source (any other source is an
    /// error), and any other value stands alone as one item.
    pub fn new_with_max(de: &GarnishDataDeserializer, max: usize) -> (r: Result<
        ListAccessor,
        GarnishSerializationError,
    >)
        requires
            de.wf(),
        ensures
            r.is_ok() <==> (de.focal_resolution().is_some()
                && de.focal_resolution().unwrap().len() <= max),
            de.focal_resolution() matches Some(s) ==> s.len() <= usize::MAX,
            r matches Ok(acc) ==> {
                &&& acc.wf()
                &&& Some(acc.remaining()) == de.focal_resolution()
            },
    {
        let (t, a) = de.value()?;
        let items: Vec<usize> = match t {
            GarnishDataType::List => {
                match gather_list_items(a, de.data()) {
                    Ok(v) => v,
                    Err(e) => {
                        return Err(e);
                    },
                }
            },
            GarnishDataType::Concatenation => {
                match gather_concat_items(a, de.data()) {
                    Ok(v) => v,
                    Err(e) => {
                        return Err(e);
                    },
                }
            },
            GarnishDataType::Slice => {
                proof {
                    assert(cell_wf(de.cells()[a as int], a as int));
                }
                let (list_ref, range_ref) = match de.data().get_slice(a) {
                    Ok(p) => p,
                    Err(e) => {
                        return wrap_err(e);
                    },
                };
                let list_type = match de.data().get_data_type(list_ref) {
                    Ok(t) => t,
                    Err(e) => {
                        return wrap_err(e);
                    },
                };
                let base: Vec<usize> = match list_type {
                    GarnishDataType::List => {
                        match gather_list_items(list_ref, de.data()) {
                            Ok(v) => v,
                            Err(e) => {
                                return Err(e);
                            },
                        }
                    },
                    GarnishDataType::Concatenation => {
                        match gather_concat_items(list_ref, de.data()) {
                            Ok(v) => v,
                            Err(e) => {
                                return Err(e);
                            },
                        }
                    },
                    _ => {
                        return Err(GarnishSerializationError::from_message(
                            "Slice source cannot be converted to a sequence."));
                    },
                };
                let (sv, ev) = match de.data().read_slice_bounds(range_ref) {
                    Ok(p) => p,
                    Err(e) => {
                        return wrap_err(e);
                    },
                };
                if ev < sv {
                    Vec::new()
                } else if sv < 0 {
                    return Err(GarnishSerializationError::from_message(
                        "Slice range starts below zero."));
                } else {
                    let lo: usize = if sv >= base.len() as i128 { base.len() } else {
                        sv as usize
                    };
                    let hi: usize = if ev >= base.len() as i128 { base.len() } else {
                        (ev as usize) + 1
                    };
                    let mut taken: Vec<usize> = Vec::new();
                    crate::store::append_window(&mut taken, &base, lo, hi);
                    proof {
                        assert(taken@ == base@.subrange(lo as int, hi as int));
                        assert(window(base@, sv as int, ev as int)
                            == base@.subrange(lo as int, hi as int));
                    }
                    taken
                }
            },
            _ => {
                let mut one: Vec<usize> = Vec::new();
                one.push(a);
                proof {
                    assert(one@ =~= seq![a]);
                }
                one
            },
        };
        if items.len() > max {
            return Err(GarnishSerializationError::from_message(
                "More items in the list-like value than the requested arity."));
        }
        let acc = ListAccessor { items, pos: 0 };
        proof {
            assert(acc.remaining() =~= acc.items_spec());
        }
        Ok(acc)
    }

    pub fn remaining_len(&self) -> (r: usize)
        requires self.wf(),
        ensures r == self.remaining().len(),
    {
        self.items.len() - self.pos
    }

    /// Hands out the next item handle, advancing the cursor.
    pub fn next_item(&mut self) -> (r: Option<usize>)
        requires
            old(self).wf(),
        ensures
            final(self).wf(),
            r.is_some() <==> old(self).remaining().len() > 0,
            r matches Some(h) ==> {
                &&& h == old(self).remaining()[0]
                &&& final(self).remaining() == old(self).remaining().drop_first()
            },
            r is None ==> final(self).remaining() == old(self).remaining(),
    {
        if self.pos < self.items.len() {
            let h = self.items[self.pos];
            self.pos = self.pos + 1;
            proof {
                assert(self.remaining() =~= old(self).remaining().drop_first());
            }
            Some(h)
        } else {
            None
        }
    }
}

/// Reads the `CharList` at `a` out of the store by indexed iteration.
fn read_char_list(data: &Store, a: usize) -> (r: Result<Vec<char>, GarnishSerializationError>)
    ensures
        r.is_ok() <==> ((a as int) < data.cells().len()
            && data.cells()[a as int] is CharList),
        r matches Ok(v) ==> is_char_list(data.cells()[a as int], v@),
{
    let len = match data.get_char_list_len(a) {
        Ok(n) => n,
        Err(e) => {
            return wrap_err(e);
        },
    };
    let mut s: Vec<char> = Vec::new();
    let mut i: usize = 0;
    while i < len
        invariant
            i <= len,
            (a as int) < data.cells().len(),
            match data.cells()[a as int] {
                StoreValue::CharList(cs) => {
                    &&& len == cs@.len()
                    &&& s@ == cs@.subrange(0, i as int)
                },
                _ => false,
            },
        decreases len - i,
    {
        let c = match data.get_char_list_item(a, i) {
            Ok(c) => c,
            Err(e) => {
                return wrap_err(e);
            },
        };
        s.push(c);
        proof {
            match data.cells()[a as int] {
                StoreValue::CharList(cs) => {
                    assert(s@ =~= cs@.subrange(0, i + 1 as int));
                },
                _ => {},
            }
        }
        i = i + 1;
    }
    proof {
        match data.cells()[a as int] {
            StoreValue::CharList(cs) => {
                assert(s@ =~= cs@);
            },
            _ => {},
        }
    }
    Ok(s)
}

/// The position of the first `"::"` at or after `i`.
pub open spec fn first_sep_from(s: Seq<char>, i: int) -> Option<int>
    decreases s.len() - i,
{
    if i + 2 <= s.len() && i >= 0 {
        if s[i] == ':' && s[i + 1] == ':' {
            Some(i)
        } else {
            first_sep_from(s, i + 1)
        }
    } else {
        None
    }
}

/// The variant-name segment of a discriminant symbol: the text between the
/// first `"::"` and the following `"::"` (or the end); nothing when the
/// separator never occurs.
pub open spec fn variant_segment(s: Seq<char>) -> Option<Seq<char>> {
    match first_sep_from(s, 0) {
        None => None,
        Some(i) => {
            let start = i + 2;
            let end = match first_sep_from(s, start) {
                Some(j) => j,
                None => s.len() as int,
            };
            Some(s.subrange(start, end))
        },
    }
}

/// Scans for the first `"::"` at or after `from`.
fn find_separator(cs: &Vec<char>, from: usize) -> (r: Option<usize>)
    ensures
        r.is_some() <==> first_sep_from(cs@, from as int).is_some(),
        r matches Some(i) ==> {
            &&& first_sep_from(cs@, from as int) == Some(i as int)
            &&& from <= i
            &&& i + 2 <= cs@.len()
        },
{
    let mut i: usize = from;
    while i < cs.len() && i + 1 < cs.len()
        invariant
            from <= i,
            first_sep_from(cs@, from as int) == first_sep_from(cs@, i as int),
        decreases cs@.len() - i,
    {
        if cs[i] == ':' && cs[i + 1] == ':' {
            return Some(i);
        }
        proof {
            assert(first_sep_from(cs@, i as int) == first_sep_from(cs@, i + 1 as int));
        }
        i = i + 1;
    }
    proof {
        assert(first_sep_from(cs@, i as int) is None);
    }
    None
}

/// Reads every entry of the `List` at `list_ref`, by position.
pub fn gather_list_items(list_ref: usize, data: &Store) -> (r: Result<
    Vec<usize>,
    GarnishSerializationError,
>)
    requires
        data.wf(),
    ensures
        r.is_ok() <==> ((list_ref as int) < data.cells().len()
            && data.cells()[list_ref as int] is List),
        r matches Ok(v) ==> match data.cells()[list_ref as int] {
            StoreValue::List(items) => v@ == list_addrs(items@),
            _ => false,
        },
{
    let len = match data.get_list_len(list_ref) {
        Ok(n) => n,
        Err(e) => {
            return wrap_err(e);
        },
    };
    let mut items: Vec<usize> = Vec::new();
    let mut i: usize = 0;
    while i < len
        invariant
            data.wf(),
            i <= len,
            (list_ref as int) < data.cells().len(),
            data.cells()[list_ref as int] is List,
            match data.cells()[list_ref as int] {
                StoreValue::List(entries) => {
                    &&& len == entries@.len()
                    &&& items@.len() == i
                    &&& forall|j: int| 0 <= j < i ==> items@[j] == (#[trigger] entries@[j]).0
                },
                _ => false,
            },
        decreases len - i,
    {
        let item = match data.get_list_item(list_ref, i) {
            Ok(h) => h,
            Err(e) => {
                return wrap_err(e);
            },
        };
        items.push(item);
        i = i + 1;
    }
    proof {
        match data.cells()[list_ref as int] {
            StoreValue::List(entries) => {
                assert(items@ =~= list_addrs(entries@));
            },
            _ => {},
        }
    }
    Ok(items)
}

} // verus!
