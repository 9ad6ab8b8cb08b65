//! Configuration for a codec session: three independent encoding policies,
//! fixed once per session and threaded into the encoder and decoder.

use vstd::prelude::*;

verus! {

/// How an optional value is represented in the store.
#[derive(Debug, Copy, Clone, Ord, PartialOrd, Eq, PartialEq, Structural)]
pub enum OptionalBehavior {
    /// Absence becomes `Pair(Symbol("none"), Unit)`; presence a tagged pair.
    UnitSymbol,
    /// Absence becomes `Unit`; presence encodes the contained value bare.
    UnitValue,
}

/// Whether struct-like values carry their type name in the store.
#[derive(Debug, Copy, Clone, Ord, PartialOrd, Eq, PartialEq, Structural)]
pub enum StructBehavior {
    ExcludeTyping,
    IncludeTyping,
}

/// How an enum variant discriminant is written.
#[derive(Debug, Copy, Clone, Ord, PartialOrd, Eq, PartialEq, Structural)]
pub enum VariantNameBehavior {
    /// `Symbol("Variant")`.
    Short,
    /// `Symbol("Enum::Variant")`.
    Full,
    /// `Number(ordinal)`.
    Index,
}

/// The three policy axes of a codec session.
#[derive(Debug, Copy, Clone, Eq, PartialEq, Structural)]
pub struct GarnishSerializationOptions {
    pub optional_behavior: OptionalBehavior,
    pub struct_typing_behavior: StructBehavior,
    pub variant_name_behavior: VariantNameBehavior,
}

impl GarnishSerializationOptions {
    /// The default policies: bare `Unit` for absence, no struct typing,
    /// full `Enum::Variant` discriminants.
    pub fn new() -> (r: Self)
        ensures
            r.optional_behavior == OptionalBehavior::UnitValue,
            r.struct_typing_behavior == StructBehavior::ExcludeTyping,
            r.variant_name_behavior == VariantNameBehavior::Full,
    {
        Self {
            optional_behavior: OptionalBehavior::UnitValue,
            struct_typing_behavior: StructBehavior::ExcludeTyping,
            variant_name_behavior: VariantNameBehavior::Full,
        }
    }

    pub fn optional_behavior(self, optional_behavior: OptionalBehavior) -> (r: Self)
        ensures
            r.optional_behavior == optional_behavior,
            r.struct_typing_behavior == self.struct_typing_behavior,
            r.variant_name_behavior == self.variant_name_behavior,
    {
        Self {
            optional_behavior,
            struct_typing_behavior: self.struct_typing_behavior,
            variant_name_behavior: self.variant_name_behavior,
        }
    }

    pub fn struct_typing_behavior(self, struct_typing_behavior: StructBehavior) -> (r: Self)
        ensures
            r.optional_behavior == self.optional_behavior,
            r.struct_typing_behavior == struct_typing_behavior,
            r.variant_name_behavior == self.variant_name_behavior,
    {
        Self {
            optional_behavior: self.optional_behavior,
            struct_typing_behavior,
            variant_name_behavior: self.variant_name_behavior,
        }
    }

    pub fn variant_name_behavior(self, variant_name_behavior: VariantNameBehavior) -> (r: Self)
        ensures
            r.optional_behavior == self.optional_behavior,
            r.struct_typing_behavior == self.struct_typing_behavior,
            r.variant_name_behavior == variant_name_behavior,
    {
        Self {
            optional_behavior: self.optional_behavior,
            struct_typing_behavior: self.struct_typing_behavior,
            variant_name_behavior,
        }
    }
}

} // verus!
