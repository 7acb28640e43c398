//! Symbols: small copyable handles that stand for interned strings.
//!
//! The non-raw symbol types store `index + 1` in a non-zero integer, so that
//! `Option<Symbol>` is as small as the symbol itself.
use core::num::NonZero;
use vstd::prelude::*;

verus! {

/// Error returned when an index cannot be stored in a symbol type.
#[derive(Debug, PartialEq, Eq, Structural)]
pub struct OutOfBoundsError {
    /// The index that was asked for.
    pub got: usize,
    /// The number of indices that the symbol type can represent.
    pub max: usize,
}

/// Types that can be used as symbols of an interner.
///
/// A symbol stands for an index; `index_limit` is the number of indices the
/// type can represent (valid indices are `0 .. index_limit`).
pub trait Symbol: Sized + Copy {
    /// The index that this symbol stands for.
    spec fn index(&self) -> int;

    /// The number of indices this symbol type can represent.
    spec fn index_limit() -> int;

    /// At least one index can be represented.
    proof fn lemma_limit_positive()
        ensures
            Self::index_limit() > 0,
    ;

    /// Converts an index into a symbol, failing when the type cannot hold it.
    fn try_from_usize(index: usize) -> (r: Result<Self, OutOfBoundsError>)
        ensures
            (r is Ok) <==> index < Self::index_limit(),
            r matches Ok(s) ==> s.index() == index,
            r matches Err(e) ==> e.got == index && e.max == Self::index_limit(),
    ;

    /// Converts an index that is known to be valid into a symbol.
    fn from_usize_unchecked(index: usize) -> (r: Self)
        requires
            index < Self::index_limit(),
        ensures
            r.index() == index,
    ;

    /// Returns the index that this symbol stands for.
    fn to_usize(self) -> (r: usize)
        ensures
            r == self.index(),
    ;
}

/// A raw symbol: every `usize` is a valid index.
impl Symbol for usize {
    open spec fn index(&self) -> int {
        *self as int
    }

    open spec fn index_limit() -> int {
        usize::MAX as int + 1
    }

    proof fn lemma_limit_positive() {
    }

    fn try_from_usize(index: usize) -> (r: Result<Self, OutOfBoundsError>) {
        Ok(index)
    }

    fn from_usize_unchecked(index: usize) -> (r: Self) {
        index
    }

    fn to_usize(self) -> (r: usize) {
        self
    }
}

/// Symbol that is 16 bits in size; `Option<SymbolU16>` has the same size.
///
/// Verus cannot declare `NonZero<T>` (its bound is an unstable trait), so this
/// type is opaque to it; the two functions below are all that reads or builds it.
#[verifier::external_body]
#[derive(Debug, Copy, PartialEq, Eq, PartialOrd, Ord, Hash)]
pub struct SymbolU16 {
    /// The index plus one.
    pub value: NonZero<u16>,
}

/// The integer stored in a `SymbolU16` (its index plus one).
pub uninterp spec fn symbol_u16_stored(s: SymbolU16) -> u16;

/// Relies on `NonZero::<u16>::get`: returns the stored integer, which is never zero.
#[verifier::external_body]
fn symbol_u16_get(s: SymbolU16) -> (r: u16)
    ensures
        r == symbol_u16_stored(s),
        r != 0,
{
    s.value.get()
}

/// Relies on `NonZero::<u16>::new`: a symbol exactly for a non-zero integer, storing it.
#[verifier::external_body]
fn symbol_u16_new(v: u16) -> (r: Option<SymbolU16>)
    ensures
        (r is Some) <==> v != 0,
        r matches Some(s) ==> symbol_u16_stored(s) == v,
{
    NonZero::<u16>::new(v).map(|value| SymbolU16 { value })
}

impl Clone for SymbolU16 {
    fn clone(&self) -> (r: Self)
        ensures
            r == *self,
    {
        *self
    }
}

impl TryFrom<usize> for SymbolU16 {
    type Error = OutOfBoundsError;

    fn try_from(index: usize) -> (r: Result<Self, OutOfBoundsError>)
        ensures
            (r is Ok) <==> index < Self::index_limit(),
            r matches Ok(s) ==> s.index() == index,
            r matches Err(e) ==> e.got == index && e.max == Self::index_limit(),
    {
        Self::try_from_usize(index)
    }
}

/// Symbols can only be built by calls, so no conversion is stated at the
/// spec level; `try_from` carries its own contract.
impl vstd::std_specs::convert::TryFromSpecImpl<usize> for SymbolU16 {
    open spec fn obeys_try_from_spec() -> bool {
        false
    }

    open spec fn try_from_spec(index: usize) -> Result<Self, OutOfBoundsError> {
        arbitrary()
    }
}

impl From<SymbolU16> for usize {
    fn from(s: SymbolU16) -> (r: usize) {
        s.to_usize()
    }
}

impl vstd::std_specs::convert::FromSpecImpl<SymbolU16> for usize {
    open spec fn obeys_from_spec() -> bool {
        true
    }

    open spec fn from_spec(s: SymbolU16) -> usize {
        s.index() as usize
    }
}

impl Symbol for SymbolU16 {
    open spec fn index(&self) -> int {
        symbol_u16_stored(*self) - 1
    }

    open spec fn index_limit() -> int {
        u16::MAX as int
    }

    proof fn lemma_limit_positive() {
    }

    fn try_from_usize(index: usize) -> (r: Result<Self, OutOfBoundsError>) {
        if index >= u16::MAX as usize {
            Err(OutOfBoundsError { got: index, max: u16::MAX as usize })
        } else {
            Ok(Self::from_usize_unchecked(index))
        }
    }

    fn from_usize_unchecked(index: usize) -> (r: Self) {
        symbol_u16_new(index as u16 + 1).unwrap()
    }

    fn to_usize(self) -> (r: usize) {
        (symbol_u16_get(self) - 1) as usize
    }
}

/// Symbol that is 32 bits in size; `Option<SymbolU32>` has the same size.
///
/// Verus cannot declare `NonZero<T>` (its bound is an unstable trait), so this
/// type is opaque to it; the two functions below are all that reads or builds it.
#[verifier::external_body]
#[derive(Debug, Copy, PartialEq, Eq, PartialOrd, Ord, Hash)]
pub struct SymbolU32 {
    /// The index plus one.
    pub value: NonZero<u32>,
}

/// The integer stored in a `SymbolU32` (its index plus one).
pub uninterp spec fn symbol_u32_stored(s: SymbolU32) -> u32;

/// Relies on `NonZero::<u32>::get`: returns the stored integer, which is never zero.
#[verifier::external_body]
fn symbol_u32_get(s: SymbolU32) -> (r: u32)
    ensures
        r == symbol_u32_stored(s),
        r != 0,
{
    s.value.get()
}

/// Relies on `NonZero::<u32>::new`: a symbol exactly for a non-zero integer, storing it.
#[verifier::external_body]
fn symbol_u32_new(v: u32) -> (r: Option<SymbolU32>)
    ensures
        (r is Some) <==> v != 0,
        r matches Some(s) ==> symbol_u32_stored(s) == v,
{
    NonZero::<u32>::new(v).map(|value| SymbolU32 { value })
}

impl Clone for SymbolU32 {
    fn clone(&self) -> (r: Self)
        ensures
            r == *self,
    {
        *self
    }
}

impl TryFrom<usize> for SymbolU32 {
    type Error = OutOfBoundsError;

    fn try_from(index: usize) -> (r: Result<Self, OutOfBoundsError>)
        ensures
            (r is Ok) <==> index < Self::index_limit(),
            r matches Ok(s) ==> s.index() == index,
            r matches Err(e) ==> e.got == index && e.max == Self::index_limit(),
    {
        Self::try_from_usize(index)
    }
}

/// Symbols can only be built by calls, so no conversion is stated at the
/// spec level; `try_from` carries its own contract.
impl vstd::std_specs::convert::TryFromSpecImpl<usize> for SymbolU32 {
    open spec fn obeys_try_from_spec() -> bool {
        false
    }

    open spec fn try_from_spec(index: usize) -> Result<Self, OutOfBoundsError> {
        arbitrary()
    }
}

impl From<SymbolU32> for usize {
    fn from(s: SymbolU32) -> (r: usize) {
        s.to_usize()
    }
}

impl vstd::std_specs::convert::FromSpecImpl<SymbolU32> for usize {
    open spec fn obeys_from_spec() -> bool {
        true
    }

    open spec fn from_spec(s: SymbolU32) -> usize {
        s.index() as usize
    }
}

impl Symbol for SymbolU32 {
    open spec fn index(&self) -> int {
        symbol_u32_stored(*self) - 1
    }

    open spec fn index_limit() -> int {
        u32::MAX as int
    }

    proof fn lemma_limit_positive() {
    }

    fn try_from_usize(index: usize) -> (r: Result<Self, OutOfBoundsError>) {
        if index >= u32::MAX as usize {
            Err(OutOfBoundsError { got: index, max: u32::MAX as usize })
        } else {
            Ok(Self::from_usize_unchecked(index))
        }
    }

    fn from_usize_unchecked(index: usize) -> (r: Self) {
        symbol_u32_new(index as u32 + 1).unwrap()
    }

    fn to_usize(self) -> (r: usize) {
        (symbol_u32_get(self) - 1) as usize
    }
}

/// Symbol that is as large as a pointer; `Option<SymbolUsize>` has the same size.
///
/// Verus cannot declare `NonZero<T>` (its bound is an unstable trait), so this
/// type is opaque to it; the two functions below are all that reads or builds it.
#[verifier::external_body]
#[derive(Debug, Copy, PartialEq, Eq, PartialOrd, Ord, Hash)]
pub struct SymbolUsize {
    /// The index plus one.
    pub value: NonZero<usize>,
}

/// The integer stored in a `SymbolUsize` (its index plus one).
pub uninterp spec fn symbol_usize_stored(s: SymbolUsize) -> usize;

/// Relies on `NonZero::<usize>::get`: returns the stored integer, which is never zero.
#[verifier::external_body]
fn symbol_usize_get(s: SymbolUsize) -> (r: usize)
    ensures
        r == symbol_usize_stored(s),
        r != 0,
{
    s.value.get()
}

/// Relies on `NonZero::<usize>::new`: a symbol exactly for a non-zero integer, storing it.
#[verifier::external_body]
fn symbol_usize_new(v: usize) -> (r: Option<SymbolUsize>)
    ensures
        (r is Some) <==> v != 0,
        r matches Some(s) ==> symbol_usize_stored(s) == v,
{
    NonZero::<usize>::new(v).map(|value| SymbolUsize { value })
}

impl Clone for SymbolUsize {
    fn clone(&self) -> (r: Self)
        ensures
            r == *self,
    {
        *self
    }
}

impl TryFrom<usize> for SymbolUsize {
    type Error = OutOfBoundsError;

    fn try_from(index: usize) -> (r: Result<Self, OutOfBoundsError>)
        ensures
            (r is Ok) <==> index < Self::index_limit(),
            r matches Ok(s) ==> s.index() == index,
            r matches Err(e) ==> e.got == index && e.max == Self::index_limit(),
    {
        Self::try_from_usize(index)
    }
}

/// Symbols can only be built by calls, so no conversion is stated at the
/// spec level; `try_from` carries its own contract.
impl vstd::std_specs::convert::TryFromSpecImpl<usize> for SymbolUsize {
    open spec fn obeys_try_from_spec() -> bool {
        false
    }

    open spec fn try_from_spec(index: usize) -> Result<Self, OutOfBoundsError> {
        arbitrary()
    }
}

impl From<SymbolUsize> for usize {
    fn from(s: SymbolUsize) -> (r: usize) {
        s.to_usize()
    }
}

impl vstd::std_specs::convert::FromSpecImpl<SymbolUsize> for usize {
    open spec fn obeys_from_spec() -> bool {
        true
    }

    open spec fn from_spec(s: SymbolUsize) -> usize {
        s.index() as usize
    }
}

impl Symbol for SymbolUsize {
    open spec fn index(&self) -> int {
        symbol_usize_stored(*self) - 1
    }

    open spec fn index_limit() -> int {
        usize::MAX as int
    }

    proof fn lemma_limit_positive() {
    }

    fn try_from_usize(index: usize) -> (r: Result<Self, OutOfBoundsError>) {
        if index >= usize::MAX as usize {
            Err(OutOfBoundsError { got: index, max: usize::MAX as usize })
        } else {
            Ok(Self::from_usize_unchecked(index))
        }
    }

    fn from_usize_unchecked(index: usize) -> (r: Self) {
        symbol_usize_new(index as usize + 1).unwrap()
    }

    fn to_usize(self) -> (r: usize) {
        (symbol_usize_get(self) - 1) as usize
    }
}

/// The symbol type used by default.
pub type DefaultSymbol = SymbolU32;

} // verus!
