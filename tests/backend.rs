use string_interner::{
    BucketBackend, ClosedBucket, DefaultSymbol, ExceedsCapacityError, InternedStr, OpenBucket,
    Symbol, SymbolU16, SymbolU32,
};

fn sym(i: usize) -> DefaultSymbol {
    SymbolU32::try_from_usize(i).unwrap()
}

#[test]
fn basic_intern_and_resolve() {
    let mut b: BucketBackend = BucketBackend::default();
    let hello = b.intern("hello");
    let world = b.intern("world");
    assert_eq!(hello.to_usize(), 0);
    assert_eq!(world.to_usize(), 1);
    assert_eq!(b.resolve(sym(0)), Some("hello"));
    assert_eq!(b.resolve(sym(1)), Some("world"));
    assert_eq!(b.resolve(sym(2)), None);
}

#[test]
fn duplicates_are_not_merged() {
    let mut b: BucketBackend = BucketBackend::default();
    let first = b.intern("a");
    let second = b.intern("a");
    assert_eq!(first.to_usize(), 0);
    assert_eq!(second.to_usize(), 1);
    let x = b.resolve(first).unwrap();
    let y = b.resolve(second).unwrap();
    assert_eq!(x, "a");
    assert_eq!(y, "a");
    assert_ne!(x.as_ptr() as usize, y.as_ptr() as usize);
}

#[test]
fn addresses_stay_across_growth() {
    let mut b: BucketBackend = BucketBackend::with_capacity(4);
    let abc = b.intern("abc");
    let address = b.resolve(abc).unwrap().as_ptr() as usize;
    for i in 0..50 {
        let s = format!("string{:04}", i);
        assert_eq!(s.len(), 10);
        b.intern(&s);
    }
    assert!(b.head_capacity() >= 64);
    let again = b.resolve(abc).unwrap();
    assert_eq!(again, "abc");
    assert_eq!(again.as_ptr() as usize, address);
    assert_eq!(b.resolve(sym(50)), Some("string0049"));
}

#[test]
fn oversize_input_grows_head() {
    let mut b: BucketBackend = BucketBackend::with_capacity(4);
    assert_eq!(b.head_capacity(), 4);
    let s = b.intern("abcdefghij");
    assert_eq!(b.resolve(s), Some("abcdefghij"));
    assert!(b.head_capacity() >= 16);
    assert_eq!(b.head_capacity(), 16);
}

#[test]
fn growth_follows_next_power_of_two() {
    let mut b: BucketBackend = BucketBackend::default();
    assert_eq!(b.head_capacity(), 0);
    b.intern("hello");
    assert_eq!(b.head_capacity(), 8);
    b.intern("abc");
    assert_eq!(b.head_capacity(), 8);
    b.intern("x");
    assert_eq!(b.head_capacity(), 16);
    let mut exact: BucketBackend = BucketBackend::new(4, 8, 2);
    exact.intern("12345678");
    assert_eq!(exact.head_capacity(), 8);
    exact.intern("y");
    assert_eq!(exact.head_capacity(), 16);
}

#[test]
fn head_capacity_never_shrinks() {
    let mut b: BucketBackend = BucketBackend::with_capacity(2);
    let mut last = b.head_capacity();
    for n in [1usize, 5, 3, 40, 2, 2, 100, 7] {
        let s = "z".repeat(n);
        b.intern(&s);
        let now = b.head_capacity();
        assert!(now >= last);
        last = now;
    }
    for (i, n) in [1usize, 5, 3, 40, 2, 2, 100, 7].iter().enumerate() {
        assert_eq!(b.resolve(sym(i)).unwrap().len(), *n);
    }
}

#[test]
fn empty_strings_are_interned() {
    let mut b: BucketBackend = BucketBackend::default();
    let e = b.intern("");
    let f = b.intern("f");
    assert_eq!(b.resolve(e), Some(""));
    assert_eq!(b.resolve(f), Some("f"));
}

#[test]
fn zero_capacity_head_is_replaced() {
    let mut b: BucketBackend = BucketBackend::with_capacity(0);
    let s = b.intern("");
    assert_eq!(b.resolve(s), Some(""));
    assert_eq!(b.head_capacity(), 1);
}

#[test]
fn non_ascii_text_round_trips() {
    let mut b: BucketBackend = BucketBackend::with_capacity(3);
    let a = b.intern("héllo wörld");
    let c = b.intern("日本語");
    assert_eq!(b.resolve(a), Some("héllo wörld"));
    assert_eq!(b.resolve(c), Some("日本語"));
}

#[test]
fn static_strings_are_not_copied() {
    static TEXT: &str = "three";
    let mut b: BucketBackend = BucketBackend::default();
    let s = b.intern_static(TEXT);
    let r = b.resolve(s).unwrap();
    assert_eq!(r, "three");
    assert_eq!(r.as_ptr() as usize, TEXT.as_ptr() as usize);
}

#[test]
fn clone_relocates_owned_and_keeps_static() {
    let mut b: BucketBackend = BucketBackend::default();
    let one = b.intern("one");
    let two = b.intern("two");
    let three = b.intern_static("three");
    let static_address = b.resolve(three).unwrap().as_ptr() as usize;
    let c = b.clone();
    assert_eq!(c.resolve(one), Some("one"));
    assert_eq!(c.resolve(two), Some("two"));
    assert_eq!(c.resolve(three), Some("three"));
    assert_ne!(
        c.resolve(one).unwrap().as_ptr() as usize,
        b.resolve(one).unwrap().as_ptr() as usize
    );
    assert_eq!(c.resolve(three).unwrap().as_ptr() as usize, static_address);
    assert_eq!(c.head_capacity(), b.head_capacity());
    assert!(c == b);
}

#[test]
fn clone_of_many_buckets_resolves_the_same() {
    let mut b: BucketBackend = BucketBackend::with_capacity(1);
    let words = ["alpha", "be", "gamma-delta", "", "epsilon", "z", "eta theta iota"];
    for w in words {
        b.intern(w);
    }
    b.intern_static("kappa");
    let mut c = b.clone();
    for i in 0..8 {
        assert_eq!(c.resolve(sym(i)), b.resolve(sym(i)));
    }
    let mut bi = b.iter();
    let mut ci = c.iter();
    loop {
        let x = bi.next();
        let y = ci.next();
        assert_eq!(x, y);
        if x.is_none() {
            break;
        }
    }
    let s = c.intern("lambda");
    assert_eq!(s.to_usize(), 8);
    assert_eq!(c.resolve(s), Some("lambda"));
    assert_eq!(b.resolve(s), None);
}

#[test]
fn clone_of_empty_backend() {
    let b: BucketBackend = BucketBackend::default();
    let mut c = b.clone();
    assert_eq!(c.head_capacity(), 0);
    let s = c.intern("x");
    assert_eq!(c.resolve(s), Some("x"));
}

#[test]
fn iteration_covers_a_snapshot() {
    let mut b: BucketBackend = BucketBackend::default();
    b.intern("s0");
    b.intern("s1");
    b.intern("s2");
    let mut items = Vec::new();
    {
        let mut it = b.iter();
        assert_eq!(it.size_hint(), (3, Some(3)));
        while let Some((s, t)) = it.next() {
            items.push((s.to_usize(), t.to_string()));
        }
        assert_eq!(it.size_hint(), (0, Some(0)));
        assert!(it.next().is_none());
    }
    b.intern("s3");
    assert_eq!(
        items,
        vec![(0, "s0".to_string()), (1, "s1".to_string()), (2, "s2".to_string())]
    );
    let mut it = b.iter();
    let mut count = 0;
    while it.next().is_some() {
        count += 1;
    }
    assert_eq!(count, 4);
}

#[test]
fn equality_compares_texts() {
    let mut a: BucketBackend = BucketBackend::with_capacity(1);
    let mut b: BucketBackend = BucketBackend::with_capacity(64);
    for w in ["x", "yy", "zzz"] {
        a.intern(w);
        b.intern(w);
    }
    assert!(a == b);
    b.intern_static("w");
    assert!(a != b);
    a.intern("w");
    assert!(a == b);
    a.intern("v");
    b.intern("u");
    assert!(a != b);
}

#[test]
fn shrink_keeps_everything() {
    let mut b: BucketBackend = BucketBackend::with_capacity(2);
    let s = b.intern("keep me");
    let address = b.resolve(s).unwrap().as_ptr() as usize;
    let cap = b.head_capacity();
    b.shrink_to_fit();
    assert_eq!(b.resolve(s), Some("keep me"));
    assert_eq!(b.resolve(s).unwrap().as_ptr() as usize, address);
    assert_eq!(b.head_capacity(), cap);
}

#[test]
fn resolve_unchecked_matches_resolve() {
    let mut b: BucketBackend<SymbolU16> = BucketBackend::new(0, 16, 0);
    let s = b.intern("sixteen");
    assert_eq!(b.resolve_unchecked(s), "sixteen");
}

#[test]
fn raw_usize_symbols_work() {
    let mut b: BucketBackend<usize> = BucketBackend::default();
    let s = b.intern("raw");
    assert_eq!(s, 0);
    assert_eq!(b.resolve(0), Some("raw"));
    assert_eq!(b.resolve(1), None);
}

#[test]
fn open_bucket_push_and_overflow() {
    let mut bucket = OpenBucket::with_capacity(8);
    assert_eq!(bucket.capacity(), 8);
    assert_eq!(bucket.len(), 0);
    assert!(bucket.can_store(8));
    assert!(!bucket.can_store(9));
    let r = bucket.push_str(3, "abc").unwrap();
    assert!(matches!(r, InternedStr::Owned { bucket: 3, start: 0, len: 3 }));
    assert_eq!(r.len(), 3);
    assert_eq!(bucket.len(), 3);
    assert_eq!(
        bucket.push_str(3, "defghi").unwrap_err(),
        ExceedsCapacityError { requested: 6, remaining: 5 }
    );
    assert_eq!(bucket.len(), 3);
    let r = bucket.push_str(3, "de").unwrap();
    assert!(matches!(r, InternedStr::Owned { bucket: 3, start: 3, len: 2 }));
    assert_eq!(bucket.as_bytes(), b"abcde");
}

#[test]
fn open_bucket_extend_from_slice() {
    let mut bucket = OpenBucket::with_capacity(4);
    assert_eq!(bucket.extend_from_slice(&[1, 2, 3]), Ok(1));
    assert_eq!(
        bucket.extend_from_slice(&[4, 5]),
        Err(ExceedsCapacityError { requested: 2, remaining: 1 })
    );
    assert_eq!(bucket.extend_from_slice(&[4]), Ok(0));
    assert_eq!(bucket.as_bytes(), &[1, 2, 3, 4]);
}

#[test]
fn zero_capacity_bucket_stores_nothing() {
    let bucket = OpenBucket::with_capacity(0);
    assert!(!bucket.can_store(0));
}

#[test]
fn closing_keeps_the_written_bytes() {
    let mut bucket = OpenBucket::with_capacity(16);
    bucket.push_str(0, "closed").unwrap();
    let closed = ClosedBucket::from_open(bucket);
    assert_eq!(closed.len(), 6);
    assert_eq!(closed.as_bytes(), b"closed");
}

#[test]
fn interned_str_constructors() {
    let owned = InternedStr::new(2, 5, 7);
    assert!(matches!(owned, InternedStr::Owned { bucket: 2, start: 5, len: 7 }));
    assert_eq!(owned.len(), 7);
    let st = InternedStr::new_static("four");
    assert!(matches!(st, InternedStr::Static("four")));
    assert_eq!(st.len(), 4);
}
