use core::mem::size_of;
use core::num::{NonZeroU16, NonZeroU32, NonZeroUsize};
use string_interner::{DefaultSymbol, OutOfBoundsError, Symbol, SymbolU16, SymbolU32, SymbolUsize};

#[test]
fn same_size_as_u32() {
    assert_eq!(size_of::<DefaultSymbol>(), size_of::<u32>());
}

#[test]
fn same_size_as_optional() {
    assert_eq!(
        size_of::<DefaultSymbol>(),
        size_of::<Option<DefaultSymbol>>()
    );
}

#[test]
fn try_from_usize_works() {
    assert_eq!(
        SymbolU16::try_from(0),
        Ok(SymbolU16 {
            value: NonZeroU16::new(1).unwrap()
        })
    );
    assert_eq!(
        SymbolU16::try_from(u16::MAX as usize - 1),
        Ok(SymbolU16 {
            value: NonZeroU16::new(u16::MAX).unwrap()
        })
    );
    assert!(SymbolU16::try_from(u16::MAX as usize).is_err());
    assert!(SymbolU16::try_from(usize::MAX).is_err());
}

#[test]
fn try_from_usize_works_for_u16() {
    for val in 0..10 {
        assert_eq!(
            SymbolU16::try_from(val),
            Ok(SymbolU16 {
                value: NonZeroU16::new(val as u16 + 1).unwrap()
            })
        );
    }
    assert!(SymbolU16::try_from(u16::MAX as usize).is_err());
    assert!(SymbolU16::try_from(usize::MAX).is_err());
}

#[test]
fn try_from_usize_works_for_u32() {
    for val in 0..10 {
        assert_eq!(
            SymbolU32::try_from(val),
            Ok(SymbolU32 {
                value: NonZeroU32::new(val as u32 + 1).unwrap()
            })
        );
    }
    assert_eq!(
        SymbolU32::try_from(u32::MAX as usize - 1),
        Ok(SymbolU32 {
            value: NonZeroU32::new(u32::MAX).unwrap()
        })
    );
    assert!(SymbolU32::try_from(u32::MAX as usize).is_err());
    assert!(SymbolU32::try_from(usize::MAX).is_err());
}

#[test]
fn try_from_usize_works_for_usize() {
    for val in 0..10 {
        assert_eq!(
            SymbolUsize::try_from(val),
            Ok(SymbolUsize {
                value: NonZeroUsize::new(val + 1).unwrap()
            })
        );
    }
    assert_eq!(
        SymbolUsize::try_from(usize::MAX - 1),
        Ok(SymbolUsize {
            value: NonZeroUsize::new(usize::MAX).unwrap()
        })
    );
    assert!(SymbolUsize::try_from(usize::MAX).is_err());
}

#[test]
fn symbols_fit_in_option_without_growing() {
    assert_eq!(size_of::<SymbolU16>(), size_of::<Option<SymbolU16>>());
    assert_eq!(size_of::<SymbolU32>(), size_of::<Option<SymbolU32>>());
    assert_eq!(size_of::<SymbolUsize>(), size_of::<Option<SymbolUsize>>());
    assert_eq!(size_of::<SymbolU16>(), 2);
}

#[test]
fn index_round_trips() {
    for i in [0usize, 1, 7, 1000, u16::MAX as usize - 1] {
        let s = SymbolU16::try_from_usize(i).unwrap();
        assert_eq!(s.to_usize(), i);
        assert_eq!(usize::from(s), i);
    }
    for i in [0usize, 5, u32::MAX as usize - 1] {
        assert_eq!(SymbolU32::try_from_usize(i).unwrap().to_usize(), i);
    }
    assert_eq!(SymbolUsize::try_from_usize(42).unwrap().to_usize(), 42);
    assert_eq!(<usize as Symbol>::try_from_usize(usize::MAX), Ok(usize::MAX));
}

#[test]
fn out_of_bounds_reports_index_and_limit() {
    assert_eq!(
        SymbolU16::try_from(u16::MAX as usize),
        Err(OutOfBoundsError {
            got: u16::MAX as usize,
            max: u16::MAX as usize
        })
    );
    assert_eq!(
        SymbolU32::try_from_usize(u32::MAX as usize + 5),
        Err(OutOfBoundsError {
            got: u32::MAX as usize + 5,
            max: u32::MAX as usize
        })
    );
}

#[test]
fn unchecked_conversion_stores_index_plus_one() {
    let s = SymbolU16::from_usize_unchecked(41);
    assert_eq!(s.value.get(), 42);
    assert_eq!(s.to_usize(), 41);
}
