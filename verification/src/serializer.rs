//! The encode direction: writing structured content into the store, one
//! handle per value. Composites build incrementally (start, append, end);
//! the session carries the policy options plus the pending state the
//! incremental protocol needs (an open struct tag, a wrapped variant
//! discriminant, a map key awaiting its value).

use vstd::prelude::*;

use crate::error::{wrap_err, GarnishSerializationError};
use crate::number::Scalar;
use crate::options::{
    GarnishSerializationOptions, OptionalBehavior, StructBehavior, VariantNameBehavior,
};
use crate::store::{is_char_list, is_byte_list, is_list, is_symbol, Store, StoreValue};

verus! {

/// The name of the symbol written when an absent optional is encoded under
/// the symbol-tagged-pair policy.
pub open spec fn none_name() -> Seq<char> {
    seq!['n', 'o', 'n', 'e']
}

/// The name of the symbol tagging a present optional under the
/// symbol-tagged-pair policy.
pub open spec fn some_name() -> Seq<char> {
    seq!['s', 'o', 'm', 'e']
}

/// The reserved metadata key that smuggles a type's name into a list when
/// struct type-tagging is enabled.
pub open spec fn metadata_key() -> Seq<char> {
    seq!['@', 'm', 'e', 't', 'a']
}

/// The `"::"` separating an enum name from its variant name in a full
/// discriminant symbol.
pub open spec fn separator() -> Seq<char> {
    seq![':', ':']
}

fn none_name_chars() -> (r: Vec<char>)
    ensures r@ == none_name(),
{
    let mut v: Vec<char> = Vec::new();
    v.push('n');
    v.push('o');
    v.push('n');
    v.push('e');
    proof {
        assert(v@ =~= none_name());
    }
    v
}

fn some_name_chars() -> (r: Vec<char>)
    ensures r@ == some_name(),
{
    let mut v: Vec<char> = Vec::new();
    v.push('s');
    v.push('o');
    v.push('m');
    v.push('e');
    proof {
        assert(v@ =~= some_name());
    }
    v
}

fn metadata_key_chars() -> (r: Vec<char>)
    ensures r@ == metadata_key(),
{
    let mut v: Vec<char> = Vec::new();
    v.push('@');
    v.push('m');
    v.push('e');
    v.push('t');
    v.push('a');
    proof {
        assert(v@ =~= metadata_key());
    }
    v
}

/// The full discriminant symbol for a variant: `Enum::Variant`.
pub open spec fn full_variant_name(name: Seq<char>, variant: Seq<char>) -> Seq<char> {
    name + separator() + variant
}

/// An encode session over a store it owns.
pub struct GarnishDataSerializer {
    data: Store,
    data_addr: Option<usize>,
    struct_sym: Option<usize>,
    wrapper_sym: Option<usize>,
    wrapper_assoc: bool,
    pending_key: Option<usize>,
    options: GarnishSerializationOptions,
}

impl GarnishDataSerializer {
    pub closed spec fn store_spec(self) -> Store {
        self.data
    }

    pub open spec fn cells(self) -> Seq<StoreValue> {
        self.store_spec().cells()
    }

    pub closed spec fn data_addr_spec(self) -> Option<usize> {
        self.data_addr
    }

    pub closed spec fn struct_sym_spec(self) -> Option<usize> {
        self.struct_sym
    }

    pub closed spec fn wrapper_sym_spec(self) -> Option<usize> {
        self.wrapper_sym
    }

    pub closed spec fn wrapper_assoc_spec(self) -> bool {
        self.wrapper_assoc
    }

    pub closed spec fn pending_key_spec(self) -> Option<usize> {
        self.pending_key
    }

    pub closed spec fn options_spec(self) -> GarnishSerializationOptions {
        self.options
    }

    pub open spec fn opt_handle_wf(o: Option<usize>, bound: int) -> bool {
        match o {
            Some(h) => (h as int) < bound,
            None => true,
        }
    }

    pub open spec fn wf(self) -> bool {
        &&& self.store_spec().wf()
        &&& Self::opt_handle_wf(self.struct_sym_spec(), self.cells().len() as int)
        &&& Self::opt_handle_wf(self.wrapper_sym_spec(), self.cells().len() as int)
        &&& Self::opt_handle_wf(self.pending_key_spec(), self.cells().len() as int)
    }

    /// The session state other than the store is unchanged.
    pub open spec fn fields_fixed(pre: Self, post: Self) -> bool {
        &&& post.data_addr_spec() == pre.data_addr_spec()
        &&& post.struct_sym_spec() == pre.struct_sym_spec()
        &&& post.wrapper_sym_spec() == pre.wrapper_sym_spec()
        &&& post.wrapper_assoc_spec() == pre.wrapper_assoc_spec()
        &&& post.pending_key_spec() == pre.pending_key_spec()
        &&& post.options_spec() == pre.options_spec()
    }

    /// Exactly one cell appended and everything else held fixed.
    pub open spec fn appended_cell(pre: Self, post: Self, r: usize, c: StoreValue) -> bool {
        Store::appended_cell(pre.store_spec(), post.store_spec(), r, c)
            && Self::fields_fixed(pre, post)
    }

    pub fn new(data: Store) -> (r: GarnishDataSerializer)
        ensures
            r.store_spec() == data,
            r.data_addr_spec() is None,
            r.struct_sym_spec() is None,
            r.wrapper_sym_spec() is None,
            r.pending_key_spec() is None,
            r.options_spec() == (GarnishSerializationOptions {
                optional_behavior: OptionalBehavior::UnitValue,
                struct_typing_behavior: StructBehavior::ExcludeTyping,
                variant_name_behavior: VariantNameBehavior::Full,
            }),
            data.wf() ==> r.wf(),
    {
        GarnishDataSerializer {
            data,
            data_addr: None,
            struct_sym: None,
            wrapper_sym: None,
            wrapper_assoc: false,
            pending_key: None,
            options: GarnishSerializationOptions::new(),
        }
    }

    pub fn new_with_options(
        data: Store,
        options: GarnishSerializationOptions,
    ) -> (r: GarnishDataSerializer)
        ensures
            r.store_spec() == data,
            r.data_addr_spec() is None,
            r.struct_sym_spec() is None,
            r.wrapper_sym_spec() is None,
            r.pending_key_spec() is None,
            r.options_spec() == options,
            data.wf() ==> r.wf(),
    {
        GarnishDataSerializer {
            data,
            data_addr: None,
            struct_sym: None,
            wrapper_sym: None,
            wrapper_assoc: false,
            pending_key: None,
            options,
        }
    }

    /// The handle of the last completed top-level encoding, when one was
    /// recorded.
    pub fn data_addr(&self) -> (r: Option<usize>)
        ensures r == self.data_addr_spec(),
    {
        self.data_addr
    }

    /// Records the handle of a completed top-level encoding.
    pub fn set_data_addr(&mut self, addr: usize)
        requires
            old(self).wf(),
            addr < old(self).cells().len(),
        ensures
            final(self).wf(),
            final(self).data_addr_spec() == Some(addr),
            final(self).store_spec() == old(self).store_spec(),
            final(self).struct_sym_spec() == old(self).struct_sym_spec(),
            final(self).wrapper_sym_spec() == old(self).wrapper_sym_spec(),
            final(self).wrapper_assoc_spec() == old(self).wrapper_assoc_spec(),
            final(self).pending_key_spec() == old(self).pending_key_spec(),
            final(self).options_spec() == old(self).options_spec(),
    {
        self.data_addr = Some(addr);
    }

    /// The session's policy options.
    pub fn options(&self) -> (r: GarnishSerializationOptions)
        ensures r == self.options_spec(),
    {
        self.options
    }

    /// Interns a bare symbol in the session's store.
    pub fn add_symbol(&mut self, name: &Vec<char>) -> (r: usize)
        requires old(self).wf(),
        ensures
            final(self).wf(),
            Self::appended_n(*old(self), *final(self), 1),
            r == old(self).cells().len(),
            is_symbol(final(self).cells()[r as int], name@),
    {
        self.data.parse_add_symbol(name)
    }

    pub fn data(&self) -> (r: &Store)
        ensures *r == self.store_spec(),
    {
        &self.data
    }

    /// Gives the store back with everything the session wrote.
    pub fn into_data(self) -> (r: Store)
        ensures r == self.store_spec(),
    {
        self.data
    }

    /// Writes a number from the store's scalar.
    pub fn add_convertible_number(&mut self, v: Scalar) -> (r: Result<
        usize,
        GarnishSerializationError,
    >)
        requires old(self).wf(),
        ensures
            final(self).wf(),
            r matches Ok(h) ==> Self::appended_cell(*old(self), *final(self), h,
                StoreValue::Number(v)),
            r.is_ok(),
    {
        Ok(self.data.add_number(v))
    }

    pub fn serialize_bool(&mut self, v: bool) -> (r: Result<usize, GarnishSerializationError>)
        requires old(self).wf(),
        ensures
            final(self).wf(),
            r.is_ok(),
            r matches Ok(h) ==> Self::appended_cell(*old(self), *final(self), h,
                if v { StoreValue::True } else { StoreValue::False }),
    {
        if v {
            Ok(self.data.add_true())
        } else {
            Ok(self.data.add_false())
        }
    }

    pub fn serialize_i8(&mut self, v: i8) -> (r: Result<usize, GarnishSerializationError>)
        requires old(self).wf(),
        ensures
            final(self).wf(),
            r.is_ok(),
            r matches Ok(h) ==> Self::appended_cell(*old(self), *final(self), h,
                StoreValue::Number(Scalar::Integer(v as i128))),
    {
        self.add_convertible_number(Scalar::from_i8(v))
    }

    pub fn serialize_i16(&mut self, v: i16) -> (r: Result<usize, GarnishSerializationError>)
        requires old(self).wf(),
        ensures
            final(self).wf(),
            r.is_ok(),
            r matches Ok(h) ==> Self::appended_cell(*old(self), *final(self), h,
                StoreValue::Number(Scalar::Integer(v as i128))),
    {
        self.add_convertible_number(Scalar::from_i16(v))
    }

    pub fn serialize_i32(&mut self, v: i32) -> (r: Result<usize, GarnishSerializationError>)
        requires old(self).wf(),
        ensures
            final(self).wf(),
            r.is_ok(),
            r matches Ok(h) ==> Self::appended_cell(*old(self), *final(self), h,
                StoreValue::Number(Scalar::Integer(v as i128))),
    {
        self.add_convertible_number(Scalar::from_i32(v))
    }

    pub fn serialize_i64(&mut self, v: i64) -> (r: Result<usize, GarnishSerializationError>)
        requires old(self).wf(),
        ensures
            final(self).wf(),
            r.is_ok(),
            r matches Ok(h) ==> Self::appended_cell(*old(self), *final(self), h,
                StoreValue::Number(Scalar::Integer(v as i128))),
    {
        self.add_convertible_number(Scalar::from_i64(v))
    }

    pub fn serialize_u8(&mut self, v: u8) -> (r: Result<usize, GarnishSerializationError>)
        requires old(self).wf(),
        ensures
            final(self).wf(),
            r.is_ok(),
            r matches Ok(h) ==> Self::appended_cell(*old(self), *final(self), h,
                StoreValue::Number(Scalar::Integer(v as i128))),
    {
        self.add_convertible_number(Scalar::from_u8(v))
    }

    pub fn serialize_u16(&mut self, v: u16) -> (r: Result<usize, GarnishSerializationError>)
        requires old(self).wf(),
        ensures
            final(self).wf(),
            r.is_ok(),
            r matches Ok(h) ==> Self::appended_cell(*old(self), *final(self), h,
                StoreValue::Number(Scalar::Integer(v as i128))),
    {
        self.add_convertible_number(Scalar::from_u16(v))
    }

    pub fn serialize_u32(&mut self, v: u32) -> (r: Result<usize, GarnishSerializationError>)
        requires old(self).wf(),
        ensures
            final(self).wf(),
            r.is_ok(),
            r matches Ok(h) ==> Self::appended_cell(*old(self), *final(self), h,
                StoreValue::Number(Scalar::Integer(v as i128))),
    {
        self.add_convertible_number(Scalar::from_u32(v))
    }

    pub fn serialize_u64(&mut self, v: u64) -> (r: Result<usize, GarnishSerializationError>)
        requires old(self).wf(),
        ensures
            final(self).wf(),
            r.is_ok(),
            r matches Ok(h) ==> Self::appended_cell(*old(self), *final(self), h,
                StoreValue::Number(Scalar::Integer(v as i128))),
    {
        self.add_convertible_number(Scalar::from_u64(v))
    }

    /// Writes a number from a double-width float's bit pattern.
    pub fn serialize_float_bits(&mut self, bits: u64) -> (r: Result<
        usize,
        GarnishSerializationError,
    >)
        requires old(self).wf(),
        ensures
            final(self).wf(),
            r.is_ok(),
            r matches Ok(h) ==> Self::appended_cell(*old(self), *final(self), h,
                StoreValue::Number(Scalar::FloatBits(bits))),
    {
        self.add_convertible_number(Scalar::from_float_bits(bits))
    }

    pub fn serialize_char(&mut self, v: char) -> (r: Result<usize, GarnishSerializationError>)
        requires old(self).wf(),
        ensures
            final(self).wf(),
            r.is_ok(),
            r matches Ok(h) ==> Self::appended_cell(*old(self), *final(self), h,
                StoreValue::Char(v)),
    {
        Ok(self.data.add_char(v))
    }

    /// Writes a string as a `CharList`, one appended code point at a time.
    pub fn serialize_str(&mut self, v: &Vec<char>) -> (r: Result<
        usize,
        GarnishSerializationError,
    >)
        requires old(self).wf(),
        ensures
            final(self).wf(),
            r.is_ok(),
            r matches Ok(h) ==> {
                &&& crate::store::grows(old(self).cells(), final(self).cells())
                &&& final(self).cells().len() == old(self).cells().len() + 1
                &&& h == old(self).cells().len()
                &&& is_char_list(final(self).cells()[h as int], v@)
                &&& final(self).store_spec().list_frames()
                    == old(self).store_spec().list_frames()
                &&& final(self).store_spec().value_stack()
                    == old(self).store_spec().value_stack()
                &&& Self::fields_fixed(*old(self), *final(self))
            },
    {
        self.data.start_char_list();
        let mut i: usize = 0;
        while i < v.len()
            invariant
                i <= v.len(),
                self.data.wf(),
                self.data.cells() == old(self).store_spec().cells(),
                self.data.list_frames() == old(self).store_spec().list_frames(),
                self.data.byte_buf() == old(self).store_spec().byte_buf(),
                self.data.value_stack() == old(self).store_spec().value_stack(),
                self.data.char_buf() == v@.subrange(0, i as int),
                self.data_addr == old(self).data_addr_spec(),
                self.struct_sym == old(self).struct_sym_spec(),
                self.wrapper_sym == old(self).wrapper_sym_spec(),
                self.wrapper_assoc == old(self).wrapper_assoc_spec(),
                self.pending_key == old(self).pending_key_spec(),
                self.options == old(self).options_spec(),
            decreases v.len() - i,
        {
            self.data.add_to_char_list(v[i]);
            proof {
                assert(self.data.char_buf() =~= v@.subrange(0, i + 1 as int));
            }
            i = i + 1;
        }
        proof {
            assert(self.data.char_buf() =~= v@);
        }
        Ok(self.data.end_char_list())
    }

    /// Writes a byte buffer as a `ByteList`, one appended byte at a time.
    pub fn serialize_bytes(&mut self, v: &Vec<u8>) -> (r: Result<
        usize,
        GarnishSerializationError,
    >)
        requires old(self).wf(),
        ensures
            final(self).wf(),
            r.is_ok(),
            r matches Ok(h) ==> {
                &&& crate::store::grows(old(self).cells(), final(self).cells())
                &&& final(self).cells().len() == old(self).cells().len() + 1
                &&& h == old(self).cells().len()
                &&& is_byte_list(final(self).cells()[h as int], v@)
                &&& final(self).store_spec().list_frames()
                    == old(self).store_spec().list_frames()
                &&& final(self).store_spec().value_stack()
                    == old(self).store_spec().value_stack()
                &&& Self::fields_fixed(*old(self), *final(self))
            },
    {
        self.data.start_byte_list();
        let mut i: usize = 0;
        while i < v.len()
            invariant
                i <= v.len(),
                self.data.wf(),
                self.data.cells() == old(self).store_spec().cells(),
                self.data.list_frames() == old(self).store_spec().list_frames(),
                self.data.char_buf() == old(self).store_spec().char_buf(),
                self.data.value_stack() == old(self).store_spec().value_stack(),
                self.data.byte_buf() == v@.subrange(0, i as int),
                self.data_addr == old(self).data_addr_spec(),
                self.struct_sym == old(self).struct_sym_spec(),
                self.wrapper_sym == old(self).wrapper_sym_spec(),
                self.wrapper_assoc == old(self).wrapper_assoc_spec(),
                self.pending_key == old(self).pending_key_spec(),
                self.options == old(self).options_spec(),
            decreases v.len() - i,
        {
            self.data.add_to_byte_list(v[i]);
            proof {
                assert(self.data.byte_buf() =~= v@.subrange(0, i + 1 as int));
            }
            i = i + 1;
        }
        proof {
            assert(self.data.byte_buf() =~= v@);
        }
        Ok(self.data.end_byte_list())
    }

    pub fn serialize_unit(&mut self) -> (r: Result<usize, GarnishSerializationError>)
        requires old(self).wf(),
        ensures
            final(self).wf(),
            r.is_ok(),
            r matches Ok(h) ==> Self::appended_cell(*old(self), *final(self), h,
                StoreValue::Unit),
    {
        Ok(self.data.add_unit())
    }

    /// Exactly `n` cells appended; list frames, buffers, the value stack
    /// and the session fields are all held fixed.
    pub open spec fn appended_n(pre: Self, post: Self, n: int) -> bool {
        &&& crate::store::grows(pre.cells(), post.cells())
        &&& post.cells().len() == pre.cells().len() + n
        &&& post.store_spec().list_frames() == pre.store_spec().list_frames()
        &&& post.store_spec().char_buf() == pre.store_spec().char_buf()
        &&& post.store_spec().byte_buf() == pre.store_spec().byte_buf()
        &&& post.store_spec().value_stack() == pre.store_spec().value_stack()
        &&& Self::fields_fixed(pre, post)
    }

    /// Encodes absence. The default policy writes a bare `Unit`; the
    /// symbol-tagged policy writes `Pair(Symbol("none"), Unit)`.
    pub fn serialize_none(&mut self) -> (r: Result<usize, GarnishSerializationError>)
        requires old(self).wf(),
        ensures
            final(self).wf(),
            r.is_ok(),
            r matches Ok(h) ==> match old(self).options_spec().optional_behavior {
                OptionalBehavior::UnitValue => Self::appended_cell(*old(self), *final(self), h,
                    StoreValue::Unit),
                OptionalBehavior::UnitSymbol => {
                    let n = old(self).cells().len() as int;
                    &&& Self::appended_n(*old(self), *final(self), 3)
                    &&& is_symbol(final(self).cells()[n], none_name())
                    &&& final(self).cells()[n + 1] == StoreValue::Unit
                    &&& final(self).cells()[n + 2] == StoreValue::Pair(n as usize,
                        (n + 1) as usize)
                    &&& h == n + 2
                },
            },
    {
        match self.options.optional_behavior {
            OptionalBehavior::UnitValue => Ok(self.data.add_unit()),
            OptionalBehavior::UnitSymbol => {
                let tag = self.data.parse_add_symbol(&none_name_chars());
                let unit = self.data.add_unit();
                Ok(self.data.add_pair(tag, unit))
            },
        }
    }

    /// Encodes presence of an already-encoded value. The default policy
    /// hands the value back with no wrapper; the symbol-tagged policy
    /// writes `Pair(Symbol("some"), value)`.
    pub fn serialize_some(&mut self, value_addr: usize) -> (r: Result<
        usize,
        GarnishSerializationError,
    >)
        requires old(self).wf(),
        ensures
            final(self).wf(),
            r.is_ok() <==> value_addr < old(self).cells().len(),
            r.is_err() ==> *final(self) == *old(self),
            r matches Ok(h) ==> match old(self).options_spec().optional_behavior {
                OptionalBehavior::UnitValue => Self::appended_n(*old(self), *final(self), 0)
                    && h == value_addr,
                OptionalBehavior::UnitSymbol => {
                    let n = old(self).cells().len() as int;
                    &&& Self::appended_n(*old(self), *final(self), 2)
                    &&& is_symbol(final(self).cells()[n], some_name())
                    &&& final(self).cells()[n + 1] == StoreValue::Pair(n as usize, value_addr)
                    &&& h == n + 1
                },
            },
    {
        if value_addr >= self.data.len() {
            return wrap_err(crate::store::StoreError::InvalidAddress);
        }
        match self.options.optional_behavior {
            OptionalBehavior::UnitValue => Ok(value_addr),
            OptionalBehavior::UnitSymbol => {
                let tag = self.data.parse_add_symbol(&some_name_chars());
                Ok(self.data.add_pair(tag, value_addr))
            },
        }
    }

    /// Encodes a named zero-field value: a bare `Unit`, unless struct
    /// type-tagging is enabled, in which case a one-element list holding
    /// `Pair(metadata-symbol, CharList-of-name)`.
    pub fn serialize_unit_struct(&mut self, name: &Vec<char>) -> (r: Result<
        usize,
        GarnishSerializationError,
    >)
        requires old(self).wf(),
        ensures
            final(self).wf(),
            r.is_ok(),
            r matches Ok(h) ==> match old(self).options_spec().struct_typing_behavior {
                StructBehavior::ExcludeTyping => Self::appended_cell(*old(self), *final(self), h,
                    StoreValue::Unit),
                StructBehavior::IncludeTyping => {
                    let n = old(self).cells().len() as int;
                    &&& Self::appended_n(*old(self), *final(self), 4)
                    &&& is_symbol(final(self).cells()[n], metadata_key())
                    &&& is_char_list(final(self).cells()[n + 1], name@)
                    &&& final(self).cells()[n + 2] == StoreValue::Pair(n as usize,
                        (n + 1) as usize)
                    &&& is_list(final(self).cells()[n + 3],
                        seq![((n + 2) as usize, true)])
                    &&& h == n + 3
                },
            },
    {
        match self.options.struct_typing_behavior {
            StructBehavior::ExcludeTyping => Ok(self.data.add_unit()),
            StructBehavior::IncludeTyping => {
                let key = self.data.parse_add_symbol(&metadata_key_chars());
                let name_cl = self.data.add_char_list(name);
                let pair = self.data.add_pair(key, name_cl);
                self.data.start_list(1);
                self.data.add_to_list(pair, true);
                let r = self.data.end_list();
                proof {
                    assert(self.data.list_frames()
                        =~= old(self).store_spec().list_frames());
                    assert(old(self).store_spec().list_frames().push(
                        Seq::<(usize, bool)>::empty()).update(
                        old(self).store_spec().list_frames().len() as int,
                        Seq::<(usize, bool)>::empty().push((pair, true))).last()
                        =~= seq![(pair, true)]);
                }
                Ok(r)
            },
        }
    }

    /// Whether the discriminant carries the associative flag: it does under
    /// every naming policy but `Index`.
    pub open spec fn discriminant_assoc(opts: GarnishSerializationOptions) -> bool {
        !(opts.variant_name_behavior is Index)
    }

    /// What the discriminant cell for a variant holds under the session's
    /// naming policy.
    pub open spec fn is_discriminant(
        c: StoreValue,
        opts: GarnishSerializationOptions,
        name: Seq<char>,
        variant: Seq<char>,
        variant_index: u32,
    ) -> bool {
        match opts.variant_name_behavior {
            VariantNameBehavior::Full => is_symbol(c, full_variant_name(name, variant)),
            VariantNameBehavior::Short => is_symbol(c, variant),
            VariantNameBehavior::Index => c == StoreValue::Number(Scalar::Integer(
                variant_index as i128)),
        }
    }

    /// Encodes a unit variant as its bare discriminant: `Symbol` of the
    /// full `Enum::Variant` name, `Symbol` of the variant name alone, or
    /// `Number` of the ordinal, per the naming policy.
    pub fn serialize_unit_variant(
        &mut self,
        name: &Vec<char>,
        variant_index: u32,
        variant: &Vec<char>,
    ) -> (r: Result<usize, GarnishSerializationError>)
        requires old(self).wf(),
        ensures
            final(self).wf(),
            r.is_ok(),
            r matches Ok(h) ==> {
                &&& Self::appended_n(*old(self), *final(self), 1)
                &&& h == old(self).cells().len()
                &&& Self::is_discriminant(final(self).cells()[h as int],
                    old(self).options_spec(), name@, variant@, variant_index)
            },
    {
        match self.options.variant_name_behavior {
            VariantNameBehavior::Full => {
                let mut full: Vec<char> = Vec::new();
                crate::store::append_all(&mut full, name);
                full.push(':');
                full.push(':');
                crate::store::append_all(&mut full, variant);
                proof {
                    assert(full@ =~= full_variant_name(name@, variant@));
                }
                Ok(self.data.parse_add_symbol(&full))
            },
            VariantNameBehavior::Short => Ok(self.data.parse_add_symbol(variant)),
            VariantNameBehavior::Index => Ok(self.data.add_number(Scalar::Integer(
                variant_index as i128))),
        }
    }

    /// Encodes a newtype struct: the underlying value, unwrapped.
    pub fn serialize_newtype_struct(&mut self, value_addr: usize) -> (r: Result<
        usize,
        GarnishSerializationError,
    >)
        requires old(self).wf(),
        ensures
            final(self).wf(),
            r.is_ok() <==> value_addr < old(self).cells().len(),
            r.is_err() ==> *final(self) == *old(self),
            r matches Ok(h) ==> Self::appended_n(*old(self), *final(self), 0)
                && h == value_addr,
    {
        if value_addr >= self.data.len() {
            return wrap_err(crate::store::StoreError::InvalidAddress);
        }
        Ok(value_addr)
    }

    /// Encodes a newtype variant as the two-element list
    /// `[discriminant, value]`; the discriminant's associative flag is
    /// false only under the `Index` naming policy.
    pub fn serialize_newtype_variant(
        &mut self,
        name: &Vec<char>,
        variant_index: u32,
        variant: &Vec<char>,
        value_addr: usize,
    ) -> (r: Result<usize, GarnishSerializationError>)
        requires old(self).wf(),
        ensures
            final(self).wf(),
            r.is_ok() <==> value_addr < old(self).cells().len(),
            r.is_err() ==> *final(self) == *old(self),
            r matches Ok(h) ==> {
                let n = old(self).cells().len() as int;
                &&& Self::appended_n(*old(self), *final(self), 2)
                &&& Self::is_discriminant(final(self).cells()[n],
                    old(self).options_spec(), name@, variant@, variant_index)
                &&& is_list(final(self).cells()[n + 1],
                    seq![(n as usize, Self::discriminant_assoc(old(self).options_spec())),
                        (value_addr, false)])
                &&& h == n + 1
            },
    {
        if value_addr >= self.data.len() {
            return wrap_err(crate::store::StoreError::InvalidAddress);
        }
        let sym = self.serialize_unit_variant(name, variant_index, variant)?;
        let assoc = match self.options.variant_name_behavior {
            VariantNameBehavior::Index => false,
            _ => true,
        };
        self.data.start_list(2);
        self.data.add_to_list(sym, assoc);
        self.data.add_to_list(value_addr, false);
        let r = self.data.end_list();
        proof {
            assert(self.data.list_frames() =~= old(self).store_spec().list_frames());
            assert(old(self).store_spec().list_frames().push(
                Seq::<(usize, bool)>::empty()).update(
                old(self).store_spec().list_frames().len() as int,
                Seq::<(usize, bool)>::empty().push((sym, assoc)).push((value_addr, false)))
                .last() =~= seq![(sym, assoc), (value_addr, false)]);
        }
        Ok(r)
    }

    /// Only a new empty list frame was opened; cells and session fields
    /// are untouched.
    pub open spec fn opened_frame(pre: Self, post: Self) -> bool {
        &&& post.store_spec().cells() == pre.store_spec().cells()
        &&& post.store_spec().list_frames() == pre.store_spec().list_frames().push(
            Seq::<(usize, bool)>::empty())
        &&& post.store_spec().char_buf() == pre.store_spec().char_buf()
        &&& post.store_spec().byte_buf() == pre.store_spec().byte_buf()
        &&& post.store_spec().value_stack() == pre.store_spec().value_stack()
    }

    /// Opens a sequence: a new list frame, elements appended as they come.
    pub fn serialize_seq(&mut self, len: Option<usize>) -> (r: Result<
        (),
        GarnishSerializationError,
    >)
        requires old(self).wf(),
        ensures
            final(self).wf(),
            r.is_ok(),
            Self::opened_frame(*old(self), *final(self)),
            Self::fields_fixed(*old(self), *final(self)),
    {
        let hint = match len {
            Some(n) => n,
            None => 0,
        };
        self.data.start_list(hint);
        Ok(())
    }

    /// Opens a tuple: encoded exactly as a sequence of its arity.
    pub fn serialize_tuple(&mut self, len: usize) -> (r: Result<
        (),
        GarnishSerializationError,
    >)
        requires old(self).wf(),
        ensures
            final(self).wf(),
            r.is_ok(),
            Self::opened_frame(*old(self), *final(self)),
            Self::fields_fixed(*old(self), *final(self)),
    {
        self.serialize_seq(Some(len))
    }

    /// Opens a map: a list frame whose entries will be associative pairs.
    pub fn serialize_map(&mut self, len: Option<usize>) -> (r: Result<
        (),
        GarnishSerializationError,
    >)
        requires old(self).wf(),
        ensures
            final(self).wf(),
            r.is_ok(),
            Self::opened_frame(*old(self), *final(self)),
            Self::fields_fixed(*old(self), *final(self)),
    {
        self.serialize_seq(len)
    }

    /// The innermost open frame gained one entry; everything else is
    /// untouched.
    pub open spec fn frame_gained(pre: Self, post: Self, entry: (usize, bool)) -> bool {
        &&& post.store_spec().cells() == pre.store_spec().cells()
        &&& pre.store_spec().list_frames().len() > 0
        &&& post.store_spec().list_frames() == pre.store_spec().list_frames().update(
            pre.store_spec().list_frames().len() - 1,
            pre.store_spec().list_frames().last().push(entry))
        &&& post.store_spec().char_buf() == pre.store_spec().char_buf()
        &&& post.store_spec().byte_buf() == pre.store_spec().byte_buf()
        &&& post.store_spec().value_stack() == pre.store_spec().value_stack()
    }

    /// Appends an already-encoded element to the open sequence, flagged
    /// positional.
    pub fn serialize_element(&mut self, value_addr: usize) -> (r: Result<
        (),
        GarnishSerializationError,
    >)
        requires old(self).wf(),
        ensures
            final(self).wf(),
            r.is_ok() <==> (old(self).store_spec().list_frames().len() > 0
                && value_addr < old(self).cells().len()),
            r.is_err() ==> *final(self) == *old(self),
            r.is_ok() ==> Self::frame_gained(*old(self), *final(self), (value_addr, false))
                && Self::fields_fixed(*old(self), *final(self)),
    {
        if !self.data.has_open_list() {
            return Err(GarnishSerializationError::from_message(
                "No list is being built."));
        }
        if value_addr >= self.data.len() {
            return wrap_err(crate::store::StoreError::InvalidAddress);
        }
        self.data.add_to_list(value_addr, false);
        Ok(())
    }

    /// Closes the open sequence into its `List` cell.
    pub fn end(&mut self) -> (r: Result<usize, GarnishSerializationError>)
        requires old(self).wf(),
        ensures
            final(self).wf(),
            r.is_ok() <==> old(self).store_spec().list_frames().len() > 0,
            r.is_err() ==> *final(self) == *old(self),
            r matches Ok(h) ==> {
                &&& crate::store::grows(old(self).cells(), final(self).cells())
                &&& final(self).cells().len() == old(self).cells().len() + 1
                &&& h == old(self).cells().len()
                &&& is_list(final(self).cells()[h as int],
                    old(self).store_spec().list_frames().last())
                &&& final(self).store_spec().list_frames()
                    == old(self).store_spec().list_frames().drop_last()
                &&& final(self).store_spec().char_buf() == old(self).store_spec().char_buf()
                &&& final(self).store_spec().byte_buf() == old(self).store_spec().byte_buf()
                &&& final(self).store_spec().value_stack()
                    == old(self).store_spec().value_stack()
                &&& Self::fields_fixed(*old(self), *final(self))
            },
    {
        if !self.data.has_open_list() {
            return Err(GarnishSerializationError::from_message(
                "No list is being built."));
        }
        Ok(self.data.end_list())
    }

    /// Encodes a map key: the already-encoded key value is coerced to a
    /// `Symbol`, held pending until its value arrives.
    pub fn serialize_key(&mut self, key_addr: usize) -> (r: Result<
        (),
        GarnishSerializationError,
    >)
        requires old(self).wf(),
        ensures
            final(self).wf(),
            r.is_ok() <==> crate::store::symbol_chars_from(old(self).cells(),
                key_addr as int).is_some(),
            r.is_ok() ==> {
                let n = old(self).cells().len() as int;
                &&& crate::store::grows(old(self).cells(), final(self).cells())
                &&& final(self).cells().len() == n + 1
                &&& is_symbol(final(self).cells()[n],
                    crate::store::symbol_chars_from(old(self).cells(),
                        key_addr as int).unwrap())
                &&& final(self).pending_key_spec() == Some(n as usize)
                &&& final(self).store_spec().list_frames()
                    == old(self).store_spec().list_frames()
                &&& final(self).store_spec().char_buf() == old(self).store_spec().char_buf()
                &&& final(self).store_spec().byte_buf() == old(self).store_spec().byte_buf()
                &&& final(self).store_spec().value_stack()
                    == old(self).store_spec().value_stack()
                &&& final(self).struct_sym_spec() == old(self).struct_sym_spec()
                &&& final(self).wrapper_sym_spec() == old(self).wrapper_sym_spec()
                &&& final(self).wrapper_assoc_spec() == old(self).wrapper_assoc_spec()
                &&& final(self).data_addr_spec() == old(self).data_addr_spec()
                &&& final(self).options_spec() == old(self).options_spec()
            },
            r.is_err() ==> {
                &&& final(self).cells() == old(self).cells()
                &&& final(self).store_spec().list_frames()
                    == old(self).store_spec().list_frames()
                &&& final(self).store_spec().char_buf() == old(self).store_spec().char_buf()
                &&& final(self).store_spec().byte_buf() == old(self).store_spec().byte_buf()
                &&& final(self).store_spec().value_stack()
                    == old(self).store_spec().value_stack()
                &&& Self::fields_fixed(*old(self), *final(self))
            },
    {
        let sym = match self.data.add_symbol_from(key_addr) {
            Ok(h) => h,
            Err(e) => {
                return wrap_err(e);
            },
        };
        self.pending_key = Some(sym);
        Ok(())
    }

    /// Encodes a map value: paired with the pending key, the pair is
    /// appended to the open map flagged associative, and the key is
    /// consumed.
    pub fn serialize_value(&mut self, value_addr: usize) -> (r: Result<
        (),
        GarnishSerializationError,
    >)
        requires old(self).wf(),
        ensures
            final(self).wf(),
            r.is_ok() <==> (old(self).pending_key_spec().is_some()
                && value_addr < old(self).cells().len()
                && old(self).store_spec().list_frames().len() > 0),
            r.is_err() ==> *final(self) == *old(self),
            r.is_ok() ==> {
                let n = old(self).cells().len() as int;
                &&& crate::store::grows(old(self).cells(), final(self).cells())
                &&& final(self).cells().len() == n + 1
                &&& final(self).cells()[n] == StoreValue::Pair(
                    old(self).pending_key_spec().unwrap(), value_addr)
                &&& final(self).store_spec().list_frames()
                    == old(self).store_spec().list_frames().update(
                    old(self).store_spec().list_frames().len() - 1,
                    old(self).store_spec().list_frames().last().push((n as usize, true)))
                &&& final(self).pending_key_spec() is None
                &&& final(self).store_spec().char_buf() == old(self).store_spec().char_buf()
                &&& final(self).store_spec().byte_buf() == old(self).store_spec().byte_buf()
                &&& final(self).store_spec().value_stack()
                    == old(self).store_spec().value_stack()
                &&& final(self).struct_sym_spec() == old(self).struct_sym_spec()
                &&& final(self).wrapper_sym_spec() == old(self).wrapper_sym_spec()
                &&& final(self).wrapper_assoc_spec() == old(self).wrapper_assoc_spec()
                &&& final(self).data_addr_spec() == old(self).data_addr_spec()
                &&& final(self).options_spec() == old(self).options_spec()
            },
    {
        let key = match self.pending_key {
            Some(k) => k,
            None => {
                return Err(GarnishSerializationError::from_message(
                    "No key when serializing value for map."));
            },
        };
        if value_addr >= self.data.len() {
            return wrap_err(crate::store::StoreError::InvalidAddress);
        }
        if !self.data.has_open_list() {
            return Err(GarnishSerializationError::from_message(
                "No list is being built."));
        }
        let pair = self.data.add_pair(key, value_addr);
        self.data.add_to_list(pair, true);
        self.pending_key = None;
        Ok(())
    }

    /// Encodes one struct field: the field name becomes a `Symbol`, the
    /// pair is appended to the open list flagged associative.
    pub fn serialize_field(&mut self, key: &Vec<char>, value_addr: usize) -> (r: Result<
        (),
        GarnishSerializationError,
    >)
        requires old(self).wf(),
        ensures
            final(self).wf(),
            r.is_ok() <==> (value_addr < old(self).cells().len()
                && old(self).store_spec().list_frames().len() > 0),
            r.is_err() ==> *final(self) == *old(self),
            r.is_ok() ==> {
                let n = old(self).cells().len() as int;
                &&& crate::store::grows(old(self).cells(), final(self).cells())
                &&& final(self).cells().len() == n + 2
                &&& is_symbol(final(self).cells()[n], key@)
                &&& final(self).cells()[n + 1] == StoreValue::Pair((n as usize), value_addr)
                &&& final(self).store_spec().list_frames()
                    == old(self).store_spec().list_frames().update(
                    old(self).store_spec().list_frames().len() - 1,
                    old(self).store_spec().list_frames().last().push(
                        ((n + 1) as usize, true)))
                &&& final(self).store_spec().char_buf() == old(self).store_spec().char_buf()
                &&& final(self).store_spec().byte_buf() == old(self).store_spec().byte_buf()
                &&& final(self).store_spec().value_stack()
                    == old(self).store_spec().value_stack()
                &&& Self::fields_fixed(*old(self), *final(self))
            },
    {
        if value_addr >= self.data.len() {
            return wrap_err(crate::store::StoreError::InvalidAddress);
        }
        if !self.data.has_open_list() {
            return Err(GarnishSerializationError::from_message(
                "No list is being built."));
        }
        let k = self.data.parse_add_symbol(key);
        let p = self.data.add_pair(k, value_addr);
        self.data.add_to_list(p, true);
        Ok(())
    }

    /// Opens a struct: a list frame for its field pairs; under type-tagging
    /// the type name is interned now and written as a trailing metadata
    /// pair when the struct ends.
    pub fn serialize_struct(&mut self, name: &Vec<char>, _len: usize) -> (r: Result<
        (),
        GarnishSerializationError,
    >)
        requires old(self).wf(),
        ensures
            final(self).wf(),
            r.is_ok(),
            final(self).store_spec().char_buf() == old(self).store_spec().char_buf(),
            final(self).store_spec().byte_buf() == old(self).store_spec().byte_buf(),
            final(self).store_spec().value_stack() == old(self).store_spec().value_stack(),
            final(self).data_addr_spec() == old(self).data_addr_spec(),
            final(self).wrapper_sym_spec() == old(self).wrapper_sym_spec(),
            final(self).wrapper_assoc_spec() == old(self).wrapper_assoc_spec(),
            final(self).pending_key_spec() == old(self).pending_key_spec(),
            final(self).options_spec() == old(self).options_spec(),
            match old(self).options_spec().struct_typing_behavior {
                StructBehavior::ExcludeTyping => {
                    &&& final(self).cells() == old(self).cells()
                    &&& final(self).struct_sym_spec() == old(self).struct_sym_spec()
                    &&& final(self).store_spec().list_frames()
                        == old(self).store_spec().list_frames().push(
                        Seq::<(usize, bool)>::empty())
                },
                StructBehavior::IncludeTyping => {
                    let n = old(self).cells().len() as int;
                    &&& crate::store::grows(old(self).cells(), final(self).cells())
                    &&& final(self).cells().len() == n + 1
                    &&& is_symbol(final(self).cells()[n], name@)
                    &&& final(self).struct_sym_spec() == Some(n as usize)
                    &&& final(self).store_spec().list_frames()
                        == old(self).store_spec().list_frames().push(
                        Seq::<(usize, bool)>::empty())
                },
            },
    {
        match self.options.struct_typing_behavior {
            StructBehavior::IncludeTyping => {
                let s = self.data.parse_add_symbol(name);
                self.struct_sym = Some(s);
            },
            StructBehavior::ExcludeTyping => {},
        }
        self.data.start_list(0);
        Ok(())
    }

    /// Closes a struct: under type-tagging a trailing
    /// `Pair(metadata-symbol, type-name-symbol)` is appended after the
    /// fields, then the list closes.
    pub fn end_struct(&mut self) -> (r: Result<usize, GarnishSerializationError>)
        requires old(self).wf(),
        ensures
            final(self).wf(),
            r.is_ok() <==> old(self).store_spec().list_frames().len() > 0,
            r.is_err() ==> *final(self) == *old(self),
            r matches Ok(h) ==> {
                let n = old(self).cells().len() as int;
                &&& final(self).store_spec().list_frames()
                    == old(self).store_spec().list_frames().drop_last()
                &&& final(self).store_spec().char_buf() == old(self).store_spec().char_buf()
                &&& final(self).store_spec().byte_buf() == old(self).store_spec().byte_buf()
                &&& final(self).store_spec().value_stack()
                    == old(self).store_spec().value_stack()
                &&& final(self).struct_sym_spec() is None
                &&& final(self).wrapper_sym_spec() == old(self).wrapper_sym_spec()
                &&& final(self).wrapper_assoc_spec() == old(self).wrapper_assoc_spec()
                &&& final(self).pending_key_spec() == old(self).pending_key_spec()
                &&& final(self).data_addr_spec() == old(self).data_addr_spec()
                &&& final(self).options_spec() == old(self).options_spec()
                &&& crate::store::grows(old(self).cells(), final(self).cells())
                &&& match old(self).struct_sym_spec() {
                    None => {
                        &&& final(self).cells().len() == n + 1
                        &&& h == n
                        &&& is_list(final(self).cells()[n],
                            old(self).store_spec().list_frames().last())
                    },
                    Some(s) => {
                        &&& final(self).cells().len() == n + 3
                        &&& is_symbol(final(self).cells()[n], metadata_key())
                        &&& final(self).cells()[n + 1] == StoreValue::Pair(n as usize, s)
                        &&& is_list(final(self).cells()[n + 2],
                            old(self).store_spec().list_frames().last().push(
                                ((n + 1) as usize, true)))
                        &&& h == n + 2
                    },
                }
            },
    {
        if !self.data.has_open_list() {
            return Err(GarnishSerializationError::from_message(
                "No list is being built."));
        }
        match self.struct_sym {
            None => Ok(self.data.end_list()),
            Some(s) => {
                let key = self.data.parse_add_symbol(&metadata_key_chars());
                let pair = self.data.add_pair(key, s);
                self.data.add_to_list(pair, true);
                self.struct_sym = None;
                Ok(self.data.end_list())
            },
        }
    }

    /// Opens a tuple struct: a plain sequence frame; under type-tagging
    /// the whole list is later wrapped as `[Symbol(name), elements]`.
    pub fn serialize_tuple_struct(&mut self, name: &Vec<char>, _len: usize) -> (r: Result<
        (),
        GarnishSerializationError,
    >)
        requires old(self).wf(),
        ensures
            final(self).wf(),
            r.is_ok(),
            final(self).store_spec().char_buf() == old(self).store_spec().char_buf(),
            final(self).store_spec().byte_buf() == old(self).store_spec().byte_buf(),
            final(self).store_spec().value_stack() == old(self).store_spec().value_stack(),
            final(self).data_addr_spec() == old(self).data_addr_spec(),
            final(self).struct_sym_spec() == old(self).struct_sym_spec(),
            final(self).pending_key_spec() == old(self).pending_key_spec(),
            final(self).options_spec() == old(self).options_spec(),
            final(self).store_spec().list_frames()
                == old(self).store_spec().list_frames().push(Seq::<(usize, bool)>::empty()),
            match old(self).options_spec().struct_typing_behavior {
                StructBehavior::ExcludeTyping => {
                    &&& final(self).cells() == old(self).cells()
                    &&& final(self).wrapper_sym_spec() == old(self).wrapper_sym_spec()
                    &&& final(self).wrapper_assoc_spec() == old(self).wrapper_assoc_spec()
                },
                StructBehavior::IncludeTyping => {
                    let n = old(self).cells().len() as int;
                    &&& crate::store::grows(old(self).cells(), final(self).cells())
                    &&& final(self).cells().len() == n + 1
                    &&& is_symbol(final(self).cells()[n], name@)
                    &&& final(self).wrapper_sym_spec() == Some(n as usize)
                    &&& final(self).wrapper_assoc_spec() == false
                },
            },
    {
        match self.options.struct_typing_behavior {
            StructBehavior::IncludeTyping => {
                let s = self.data.parse_add_symbol(name);
                self.wrapper_sym = Some(s);
                self.wrapper_assoc = false;
            },
            StructBehavior::ExcludeTyping => {},
        }
        self.data.start_list(0);
        Ok(())
    }

    /// Opens a tuple variant: the discriminant is written now and the
    /// element list is later wrapped as `[discriminant, elements]`.
    pub fn serialize_tuple_variant(
        &mut self,
        name: &Vec<char>,
        variant_index: u32,
        variant: &Vec<char>,
        _len: usize,
    ) -> (r: Result<(), GarnishSerializationError>)
        requires old(self).wf(),
        ensures
            final(self).wf(),
            r.is_ok(),
            final(self).store_spec().char_buf() == old(self).store_spec().char_buf(),
            final(self).store_spec().byte_buf() == old(self).store_spec().byte_buf(),
            final(self).store_spec().value_stack() == old(self).store_spec().value_stack(),
            final(self).data_addr_spec() == old(self).data_addr_spec(),
            final(self).struct_sym_spec() == old(self).struct_sym_spec(),
            final(self).pending_key_spec() == old(self).pending_key_spec(),
            final(self).options_spec() == old(self).options_spec(),
            final(self).store_spec().list_frames()
                == old(self).store_spec().list_frames().push(Seq::<(usize, bool)>::empty()),
            crate::store::grows(old(self).cells(), final(self).cells()),
            final(self).cells().len() == old(self).cells().len() + 1,
            Self::is_discriminant(final(self).cells()[old(self).cells().len() as int],
                old(self).options_spec(), name@, variant@, variant_index),
            final(self).wrapper_sym_spec() == Some((old(self).cells().len()) as usize),
            final(self).wrapper_assoc_spec()
                == Self::discriminant_assoc(old(self).options_spec()),
    {
        let s = self.serialize_unit_variant(name, variant_index, variant)?;
        self.wrapper_sym = Some(s);
        self.wrapper_assoc = match self.options.variant_name_behavior {
            VariantNameBehavior::Index => false,
            _ => true,
        };
        self.data.start_list(0);
        Ok(())
    }

    /// Opens a struct variant: like a tuple variant, but the frame takes
    /// field pairs.
    pub fn serialize_struct_variant(
        &mut self,
        name: &Vec<char>,
        variant_index: u32,
        variant: &Vec<char>,
        _len: usize,
    ) -> (r: Result<(), GarnishSerializationError>)
        requires old(self).wf(),
        ensures
            final(self).wf(),
            r.is_ok(),
            final(self).store_spec().char_buf() == old(self).store_spec().char_buf(),
            final(self).store_spec().byte_buf() == old(self).store_spec().byte_buf(),
            final(self).store_spec().value_stack() == old(self).store_spec().value_stack(),
            final(self).data_addr_spec() == old(self).data_addr_spec(),
            final(self).struct_sym_spec() == old(self).struct_sym_spec(),
            final(self).pending_key_spec() == old(self).pending_key_spec(),
            final(self).options_spec() == old(self).options_spec(),
            final(self).store_spec().list_frames()
                == old(self).store_spec().list_frames().push(Seq::<(usize, bool)>::empty()),
            crate::store::grows(old(self).cells(), final(self).cells()),
            final(self).cells().len() == old(self).cells().len() + 1,
            Self::is_discriminant(final(self).cells()[old(self).cells().len() as int],
                old(self).options_spec(), name@, variant@, variant_index),
            final(self).wrapper_sym_spec() == Some((old(self).cells().len()) as usize),
            final(self).wrapper_assoc_spec()
                == Self::discriminant_assoc(old(self).options_spec()),
    {
        let s = self.serialize_unit_variant(name, variant_index, variant)?;
        self.wrapper_sym = Some(s);
        self.wrapper_assoc = match self.options.variant_name_behavior {
            VariantNameBehavior::Index => false,
            _ => true,
        };
        self.data.start_list(0);
        Ok(())
    }

    /// Closes the open list and wraps it as `[discriminant, elements]`,
    /// with the given discriminant handle and associative flag; the
    /// wrapping form behind every data-carrying variant.
    pub fn end_wrapped(&mut self, discriminant: usize, associative: bool) -> (r: Result<
        usize,
        GarnishSerializationError,
    >)
        requires old(self).wf(),
        ensures
            final(self).wf(),
            r.is_ok() <==> (old(self).store_spec().list_frames().len() > 0
                && discriminant < old(self).cells().len()),
            r.is_err() ==> *final(self) == *old(self),
            r matches Ok(h) ==> {
                let n = old(self).cells().len() as int;
                &&& crate::store::grows(old(self).cells(), final(self).cells())
                &&& final(self).cells().len() == n + 2
                &&& is_list(final(self).cells()[n],
                    old(self).store_spec().list_frames().last())
                &&& is_list(final(self).cells()[n + 1],
                    seq![(discriminant, associative), (n as usize, false)])
                &&& h == n + 1
                &&& final(self).store_spec().list_frames()
                    == old(self).store_spec().list_frames().drop_last()
                &&& final(self).store_spec().char_buf() == old(self).store_spec().char_buf()
                &&& final(self).store_spec().byte_buf() == old(self).store_spec().byte_buf()
                &&& final(self).store_spec().value_stack()
                    == old(self).store_spec().value_stack()
                &&& Self::fields_fixed(*old(self), *final(self))
            },
    {
        if !self.data.has_open_list() {
            return Err(GarnishSerializationError::from_message(
                "No list is being built."));
        }
        if discriminant >= self.data.len() {
            return wrap_err(crate::store::StoreError::InvalidAddress);
        }
        let list_addr = self.data.end_list();
        self.data.start_list(2);
        self.data.add_to_list(discriminant, associative);
        self.data.add_to_list(list_addr, false);
        let r = self.data.end_list();
        proof {
            assert(self.data.list_frames()
                =~= old(self).store_spec().list_frames().drop_last());
            assert(old(self).store_spec().list_frames().drop_last().push(
                Seq::<(usize, bool)>::empty()).update(
                old(self).store_spec().list_frames().drop_last().len() as int,
                Seq::<(usize, bool)>::empty().push((discriminant, associative)).push(
                    (list_addr, false))).last()
                =~= seq![(discriminant, associative), (list_addr, false)]);
        }
        Ok(r)
    }

    /// Closes the open list of field pairs with a trailing
    /// `Pair(metadata-symbol, Symbol(name))` appended after the fields: the
    /// type-tagged finish of a struct.
    pub fn end_struct_named(&mut self, name: &Vec<char>) -> (r: Result<
        usize,
        GarnishSerializationError,
    >)
        requires old(self).wf(),
        ensures
            final(self).wf(),
            r.is_ok() <==> old(self).store_spec().list_frames().len() > 0,
            r.is_err() ==> *final(self) == *old(self),
            r matches Ok(h) ==> {
                let n = old(self).cells().len() as int;
                &&& crate::store::grows(old(self).cells(), final(self).cells())
                &&& final(self).cells().len() == n + 4
                &&& is_symbol(final(self).cells()[n], name@)
                &&& is_symbol(final(self).cells()[n + 1], metadata_key())
                &&& final(self).cells()[n + 2] == StoreValue::Pair((n + 1) as usize,
                    n as usize)
                &&& is_list(final(self).cells()[n + 3],
                    old(self).store_spec().list_frames().last().push(
                        ((n + 2) as usize, true)))
                &&& h == n + 3
                &&& final(self).store_spec().list_frames()
                    == old(self).store_spec().list_frames().drop_last()
                &&& final(self).store_spec().char_buf() == old(self).store_spec().char_buf()
                &&& final(self).store_spec().byte_buf() == old(self).store_spec().byte_buf()
                &&& final(self).store_spec().value_stack()
                    == old(self).store_spec().value_stack()
                &&& Self::fields_fixed(*old(self), *final(self))
            },
    {
        if !self.data.has_open_list() {
            return Err(GarnishSerializationError::from_message(
                "No list is being built."));
        }
        let name_sym = self.data.parse_add_symbol(name);
        let key_sym = self.data.parse_add_symbol(&metadata_key_chars());
        let pair = self.data.add_pair(key_sym, name_sym);
        self.data.add_to_list(pair, true);
        Ok(self.data.end_list())
    }

    /// Closes a struct-like value that may carry a wrapping discriminant:
    /// the element list closes, and when a discriminant (or tuple-struct
    /// name) is pending the result is the two-element list
    /// `[discriminant, elements]`.
    pub fn end_struct_like(&mut self) -> (r: Result<usize, GarnishSerializationError>)
        requires old(self).wf(),
        ensures
            final(self).wf(),
            r.is_ok() <==> old(self).store_spec().list_frames().len() > 0,
            r.is_err() ==> *final(self) == *old(self),
            r matches Ok(h) ==> {
                let n = old(self).cells().len() as int;
                &&& final(self).store_spec().list_frames()
                    == old(self).store_spec().list_frames().drop_last()
                &&& final(self).store_spec().char_buf() == old(self).store_spec().char_buf()
                &&& final(self).store_spec().byte_buf() == old(self).store_spec().byte_buf()
                &&& final(self).store_spec().value_stack()
                    == old(self).store_spec().value_stack()
                &&& final(self).wrapper_sym_spec() is None
                &&& final(self).wrapper_assoc_spec() == old(self).wrapper_assoc_spec()
                &&& final(self).struct_sym_spec() == old(self).struct_sym_spec()
                &&& final(self).pending_key_spec() == old(self).pending_key_spec()
                &&& final(self).data_addr_spec() == old(self).data_addr_spec()
                &&& final(self).options_spec() == old(self).options_spec()
                &&& crate::store::grows(old(self).cells(), final(self).cells())
                &&& match old(self).wrapper_sym_spec() {
                    None => {
                        &&& final(self).cells().len() == n + 1
                        &&& h == n
                        &&& is_list(final(self).cells()[n],
                            old(self).store_spec().list_frames().last())
                    },
                    Some(w) => {
                        &&& final(self).cells().len() == n + 2
                        &&& is_list(final(self).cells()[n],
                            old(self).store_spec().list_frames().last())
                        &&& is_list(final(self).cells()[n + 1],
                            seq![(w, old(self).wrapper_assoc_spec()),
                                (n as usize, false)])
                        &&& h == n + 1
                    },
                }
            },
    {
        if !self.data.has_open_list() {
            return Err(GarnishSerializationError::from_message(
                "No list is being built."));
        }
        match self.wrapper_sym {
            None => Ok(self.data.end_list()),
            Some(w) => {
                let list_addr = self.data.end_list();
                self.data.start_list(2);
                self.data.add_to_list(w, self.wrapper_assoc);
                self.data.add_to_list(list_addr, false);
                self.wrapper_sym = None;
                let r = self.data.end_list();
                proof {
                    assert(self.data.list_frames()
                        =~= old(self).store_spec().list_frames().drop_last());
                    assert(old(self).store_spec().list_frames().drop_last().push(
                        Seq::<(usize, bool)>::empty()).update(
                        old(self).store_spec().list_frames().drop_last().len() as int,
                        Seq::<(usize, bool)>::empty().push((w, self.wrapper_assoc)).push(
                            (list_addr, false))).last()
                        =~= seq![(w, self.wrapper_assoc), (list_addr, false)]);
                }
                Ok(r)
            },
        }
    }
}

} // verus!
