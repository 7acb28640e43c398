//! The bucket backend: interns strings into buckets of bytes and hands out
//! symbols that resolve back to them.
use crate::interned_str::InternedStr;
use crate::storage::{lemma_encoding_injective, lemma_pow2_at_least, next_capacity, next_power_of_two, Storage};
use crate::symbol::{DefaultSymbol, Symbol};
use core::marker::PhantomData;
use vstd::prelude::*;
use vstd::string::StringSliceAdditionalSpecFns;

verus! {

/// Expected average length of an interned string, in bytes; used to size
/// the span table from a byte capacity.
const AVG_WORD_LENGTH: usize = 8;

/// An interner backend that stores strings in buckets.
///
/// Strings are appended to the head bucket. When the head has too little
/// room it is closed and kept, and a larger head takes its place; buckets are
/// never moved or freed while the backend lives, so every interned string
/// stays where it was written. Every call interns anew: equal strings get
/// distinct symbols.
pub struct BucketBackend<S: Symbol = DefaultSymbol> {
    store: Storage,
    marker: PhantomData<S>,
}

impl<S: Symbol> View for BucketBackend<S> {
    type V = Seq<Seq<char>>;

    /// The text of each symbol, by index.
    closed spec fn view(&self) -> Seq<Seq<char>> {
        self.store.texts@
    }
}

impl<S: Symbol> BucketBackend<S> {
    #[verifier::type_invariant]
    spec fn inv(&self) -> bool {
        &&& self.store.wf()
        &&& self.store.spans@.len() <= S::index_limit()
    }

    /// The span of index `i`: where its text lives.
    pub closed spec fn span(&self, i: int) -> InternedStr {
        self.store.spans@[i]
    }

    /// The bytes that the span of index `i` points to.
    pub closed spec fn span_bytes(&self, i: int) -> Seq<u8> {
        self.store.span_bytes(self.store.spans@[i])
    }

    /// The capacity of the head bucket, zero when there is none.
    pub closed spec fn spec_head_capacity(&self) -> nat {
        self.store.head_capacity()
    }

    /// There is a head bucket.
    pub closed spec fn has_head(&self) -> bool {
        self.store.head is Some
    }

    /// The number of bytes in the head bucket, zero when there is none.
    pub closed spec fn head_len(&self) -> nat {
        self.store.head_len()
    }

    /// The number of bytes held in all buckets.
    pub closed spec fn total_len(&self) -> nat {
        self.store.total_len()
    }

    /// The head has room for `n` more bytes.
    pub open spec fn head_can_store(&self, n: nat) -> bool {
        &&& self.has_head()
        &&& self.spec_head_capacity() > 0
        &&& self.spec_head_capacity() - self.head_len() >= n
    }

    /// Interning `n` more bytes stays within what memory can address: the
    /// bytes held stay addressable, and a new head, where one is needed, can
    /// be allocated.
    pub open spec fn can_intern(&self, n: nat) -> bool {
        &&& self.total_len() + n <= isize::MAX
        &&& (self.head_can_store(n) || next_capacity(self.spec_head_capacity(), n) <= isize::MAX)
    }

    /// Every index of `earlier` is still there: same text, same span, and
    /// the span still points to the same bytes.
    pub closed spec fn keeps(&self, earlier: &Self) -> bool {
        &&& earlier@.len() <= self@.len()
        &&& self@.subrange(0, earlier@.len() as int) == earlier@
        &&& forall|i: int|
            0 <= i < earlier@.len() ==> #[trigger] self.span(i) == earlier.span(i) && self.span_bytes(i)
                == earlier.span_bytes(i)
    }

    fn from_store(store: Storage) -> (r: Self)
        requires
            store.wf(),
            store.spans@.len() == 0,
        ensures
            r@ == store.texts@,
            r.spec_head_capacity() == store.head_capacity(),
            r.has_head() == (store.head is Some),
            r.head_len() == store.head_len(),
            r.total_len() == store.total_len(),
    {
        proof {
            S::lemma_limit_positive();
        }
        BucketBackend { store, marker: PhantomData }
    }

    /// Creates a backend with the given room in the span table and the list
    /// of closed buckets, and a head of `bucket_capacity` bytes.
    pub fn new(span_capacity: usize, bucket_capacity: usize, expect_bucket_count: usize) -> (r: Self)
        requires
            bucket_capacity <= isize::MAX,
        ensures
            r@ == Seq::<Seq<char>>::empty(),
            r.spec_head_capacity() == bucket_capacity,
            r.has_head(),
            r.head_len() == 0,
            r.total_len() == 0,
    {
        Self::from_store(Storage::with_head(span_capacity, bucket_capacity, expect_bucket_count))
    }

    /// Creates a backend with a head of `capacity` bytes, and room in the
    /// span table for one string per eight bytes (to the next power of two).
    pub fn with_capacity(capacity: usize) -> (r: Self)
        requires
            capacity <= isize::MAX,
        ensures
            r@ == Seq::<Seq<char>>::empty(),
            r.spec_head_capacity() == capacity,
            r.has_head(),
            r.head_len() == 0,
            r.total_len() == 0,
    {
        let spans = next_power_of_two(capacity / AVG_WORD_LENGTH);
        Self::from_store(Storage::with_head(spans, capacity, 8))
    }

    /// Returns the symbol that the next interned string gets.
    fn next_symbol(&self) -> (r: S)
        requires
            self@.len() < S::index_limit(),
        ensures
            r.index() == self@.len(),
    {
        proof { use_type_invariant(self); }
        S::from_usize_unchecked(self.store.spans.len())
    }

    /// Interns a copy of `string` and returns its symbol.
    pub fn intern(&mut self, string: &str) -> (r: S)
        requires
            old(self)@.len() < S::index_limit(),
            old(self).can_intern(string.spec_bytes().len()),
        ensures
            final(self)@ == old(self)@.push(string@),
            r.index() == old(self)@.len(),
            final(self).keeps(old(self)),
            final(self).spec_head_capacity() >= old(self).spec_head_capacity(),
            final(self).spec_head_capacity() == if old(self).head_can_store(string.spec_bytes().len()) {
                old(self).spec_head_capacity()
            } else {
                next_capacity(old(self).spec_head_capacity(), string.spec_bytes().len())
            },
            final(self).has_head(),
            final(self).head_len() == if old(self).head_can_store(string.spec_bytes().len()) {
                old(self).head_len() + string.spec_bytes().len()
            } else {
                string.spec_bytes().len() as nat
            },
            final(self).total_len() == old(self).total_len() + string.spec_bytes().len(),
    {
        proof { use_type_invariant(&*self); }
        let symbol = self.next_symbol();
        let mut store = Storage::empty(0, 0);
        std::mem::swap(&mut store, &mut self.store);
        store.intern(string);
        self.store = store;
        proof {
            let n = string.spec_bytes().len();
            let cur = old(self).store.head_capacity();
            lemma_pow2_at_least(if cur >= n { cur + 1 } else { n + 1 }, 1);
            assert(self.store.texts@.subrange(0, old(self).store.texts@.len() as int) =~= old(self).store.texts@);
            self.lemma_keeps_after(old(self));
        }
        symbol
    }

    /// Interns a static string without copying it and returns its symbol.
    pub fn intern_static(&mut self, string: &'static str) -> (r: S)
        requires
            old(self)@.len() < S::index_limit(),
        ensures
            final(self)@ == old(self)@.push(string@),
            r.index() == old(self)@.len(),
            final(self).span(r.index()) == InternedStr::Static(string),
            final(self).keeps(old(self)),
            final(self).spec_head_capacity() == old(self).spec_head_capacity(),
            final(self).has_head() == old(self).has_head(),
            final(self).head_len() == old(self).head_len(),
            final(self).total_len() == old(self).total_len(),
    {
        proof { use_type_invariant(&*self); }
        let symbol = self.next_symbol();
        let mut store = Storage::empty(0, 0);
        std::mem::swap(&mut store, &mut self.store);
        store.intern_static(string);
        self.store = store;
        proof {
            assert(self.store.extends(&old(self).store)) by {
                assert forall|b: int| 0 <= b < old(self).store.buckets().len() implies
                    old(self).store.buckets()[b].len() <= #[trigger] self.store.buckets()[b].len()
                    && self.store.buckets()[b].subrange(0, old(self).store.buckets()[b].len() as int)
                    == old(self).store.buckets()[b] by {
                    assert(self.store.buckets()[b].subrange(0, old(self).store.buckets()[b].len() as int)
                        =~= old(self).store.buckets()[b]);
                }
            }
            assert(self.store.spans@.subrange(0, old(self).store.spans@.len() as int) =~= old(self).store.spans@);
            assert(self.store.texts@.subrange(0, old(self).store.texts@.len() as int) =~= old(self).store.texts@);
            self.lemma_keeps_after(old(self));
        }
        symbol
    }

    /// Releases spare room of the span table and of the list of closed
    /// buckets; the head keeps its capacity.
    pub fn shrink_to_fit(&mut self)
        ensures
            final(self)@ == old(self)@,
            final(self).keeps(old(self)),
            final(self).spec_head_capacity() == old(self).spec_head_capacity(),
            final(self).has_head() == old(self).has_head(),
            final(self).head_len() == old(self).head_len(),
            final(self).total_len() == old(self).total_len(),
    {
        proof { use_type_invariant(&*self); }
        let mut store = Storage::empty(0, 0);
        std::mem::swap(&mut store, &mut self.store);
        store.shrink_to_fit();
        self.store = store;
        proof {
            assert(self.store.extends(&old(self).store)) by {
                assert forall|b: int| 0 <= b < old(self).store.buckets().len() implies
                    old(self).store.buckets()[b].len() <= #[trigger] self.store.buckets()[b].len()
                    && self.store.buckets()[b].subrange(0, old(self).store.buckets()[b].len() as int)
                    == old(self).store.buckets()[b] by {
                    assert(self.store.buckets()[b].subrange(0, old(self).store.buckets()[b].len() as int)
                        =~= old(self).store.buckets()[b]);
                }
            }
            assert(self.store.spans@.subrange(0, old(self).store.spans@.len() as int) =~= old(self).store.spans@);
            assert(self.store.texts@.subrange(0, old(self).store.texts@.len() as int) =~= old(self).store.texts@);
            self.lemma_keeps_after(old(self));
        }
    }

    /// Returns the text of `symbol`, or `None` when no string has its index.
    pub fn resolve(&self, symbol: S) -> (r: Option<&str>)
        ensures
            (r is Some) <==> 0 <= symbol.index() < self@.len(),
            r matches Some(text) ==> text@ == self@[symbol.index()] && (self.span(symbol.index())
                matches InternedStr::Static(s) ==> text == s),
    {
        proof { use_type_invariant(self); }
        let index = symbol.to_usize();
        if index < self.store.spans.len() {
            Some(self.store.span_str(index))
        } else {
            None
        }
    }

    /// Returns the text of `symbol`, whose index must be that of a string.
    pub fn resolve_unchecked(&self, symbol: S) -> (r: &str)
        requires
            0 <= symbol.index() < self@.len(),
        ensures
            r@ == self@[symbol.index()],
            self.span(symbol.index()) matches InternedStr::Static(s) ==> r == s,
    {
        proof { use_type_invariant(self); }
        self.store.span_str(symbol.to_usize())
    }

    /// Returns an iterator over the symbols and texts interned so far.
    pub fn iter(&self) -> (r: Iter<'_, S>)
        ensures
            r.wf(),
            r.texts() == self@,
            r.position() == 0,
            r.end() == self@.len(),
    {
        Iter::new(self)
    }

    /// Returns the capacity of the head bucket, zero when there is none.
    pub fn head_capacity(&self) -> (r: usize)
        ensures
            r == self.spec_head_capacity(),
    {
        match &self.store.head {
            Some(h) => h.capacity(),
            None => 0,
        }
    }

    proof fn lemma_keeps_after(&self, earlier: &Self)
        requires
            earlier.store.wf(),
            self.store.wf(),
            earlier.store.spans@.len() <= self.store.spans@.len(),
            self.store.spans@.subrange(0, earlier.store.spans@.len() as int) == earlier.store.spans@,
            self.store.texts@.subrange(0, earlier.store.texts@.len() as int) == earlier.store.texts@,
            self.store.extends(&earlier.store),
        ensures
            self.keeps(earlier),
    {
        assert forall|i: int| 0 <= i < earlier@.len() implies #[trigger] self.span(i) == earlier.span(i)
            && self.span_bytes(i) == earlier.span_bytes(i) by {
            assert(self.store.spans@[i] == self.store.spans@.subrange(0, earlier.store.spans@.len() as int)[i]);
            assert(earlier.store.span_ok(earlier.store.spans@[i]));
            crate::storage::lemma_extends_keeps_span(&earlier.store, &self.store, earlier.store.spans@[i]);
        }
    }
}

impl<S: Symbol> Default for BucketBackend<S> {
    /// An empty backend with no head; the first intern opens one.
    fn default() -> (r: Self)
        ensures
            r@ == Seq::<Seq<char>>::empty(),
            r.spec_head_capacity() == 0,
            !r.has_head(),
            r.total_len() == 0,
    {
        Self::from_store(Storage::empty(32, 8))
    }
}

impl<S: Symbol> Clone for BucketBackend<S> {
    /// A deep copy: the bytes of all buckets go, in order, into one new closed
    /// bucket, owned spans are moved to where their bytes went, static spans
    /// are kept, and an empty head of the same capacity is opened.
    fn clone(&self) -> (r: Self)
        ensures
            r@ == self@,
            r.spec_head_capacity() == self.spec_head_capacity(),
            r.has_head() == self.has_head(),
            r.head_len() == 0,
            r.total_len() == self.total_len(),
            forall|i: int|
                0 <= i < self@.len() ==> (#[trigger] self.span(i) is Static ==> r.span(i) == self.span(i)),
    {
        proof { use_type_invariant(self); }
        BucketBackend { store: self.store.deep_clone(), marker: PhantomData }
    }
}

impl<S: Symbol> PartialEq for BucketBackend<S> {
    /// Two backends are equal when they hold equal texts under every index;
    /// this compares every byte of both.
    fn eq(&self, other: &Self) -> (r: bool) {
        proof {
            use_type_invariant(self);
            use_type_invariant(other);
        }
        let count = self.store.spans.len();
        if count != other.store.spans.len() {
            return false;
        }
        let mut i: usize = 0;
        while i < count
            invariant
                self.store.wf(),
                other.store.wf(),
                count == self@.len(),
                count == other@.len(),
                i <= count,
                forall|k: int| 0 <= k < i ==> #[trigger] self@[k] == other@[k],
            decreases count - i,
        {
            let mine = self.store.span_str(i);
            let theirs = other.store.span_str(i);
            if !bytes_equal(mine.as_bytes(), theirs.as_bytes()) {
                proof {
                    assert(self@ != other@ ) by {
                        if self@ == other@ {
                            assert(self@[i as int] == other@[i as int]);
                        }
                    }
                }
                return false;
            }
            proof {
                lemma_encoding_injective(mine@, theirs@);
            }
            i = i + 1;
        }
        proof {
            assert(self@ =~= other@);
        }
        true
    }
}

impl<S: Symbol> vstd::std_specs::cmp::PartialEqSpecImpl for BucketBackend<S> {
    open spec fn obeys_eq_spec() -> bool {
        true
    }

    open spec fn eq_spec(&self, other: &Self) -> bool {
        self@ == other@
    }
}

impl<S: Symbol> Eq for BucketBackend<S> {
}

/// A string interned into `before`, giving `after` and `symbol`, is the text
/// of `symbol` in every later state that keeps `after`, with the same span
/// pointing to the same bytes.
pub proof fn lemma_interned_text_stays<S: Symbol>(
    before: &BucketBackend<S>,
    after: &BucketBackend<S>,
    later: &BucketBackend<S>,
    text: Seq<char>,
    symbol: S,
)
    requires
        after@ == before@.push(text),
        symbol.index() == before@.len(),
        later.keeps(after),
    ensures
        0 <= symbol.index() < later@.len(),
        later@[symbol.index()] == text,
        later.span(symbol.index()) == after.span(symbol.index()),
        later.span_bytes(symbol.index()) == after.span_bytes(symbol.index()),
{
    let i = symbol.index();
    assert(later@.subrange(0, after@.len() as int)[i] == later@[i]);
    assert(after@[i] == text);
}

/// Every state keeps itself.
pub proof fn lemma_keeps_reflexive<S: Symbol>(backend: &BucketBackend<S>)
    ensures
        backend.keeps(backend),
{
    assert(backend@.subrange(0, backend@.len() as int) =~= backend@);
}

/// Keeping is transitive: over any sequence of calls that each keep the
/// state before them, every earlier text, span and byte stays as it was.
pub proof fn lemma_keeps_transitive<S: Symbol>(
    first: &BucketBackend<S>,
    second: &BucketBackend<S>,
    third: &BucketBackend<S>,
)
    requires
        second.keeps(first),
        third.keeps(second),
    ensures
        third.keeps(first),
{
    assert forall|i: int| 0 <= i < first@.len() implies #[trigger] third.span(i) == first.span(i)
        && third.span_bytes(i) == first.span_bytes(i) by {
        assert(second.span(i) == first.span(i));
        assert(third.span(i) == second.span(i));
    }
    assert(third@.subrange(0, first@.len() as int) =~= first@) by {
        assert forall|k: int| 0 <= k < first@.len() implies third@[k] == first@[k] by {
            assert(third@.subrange(0, second@.len() as int)[k] == third@[k]);
            assert(second@.subrange(0, first@.len() as int)[k] == second@[k]);
        }
    }
}

/// Returns whether two byte slices hold the same bytes.
fn bytes_equal(a: &[u8], b: &[u8]) -> (r: bool)
    ensures
        r == (a@ == b@),
{
    if a.len() != b.len() {
        return false;
    }
    let mut i: usize = 0;
    while i < a.len()
        invariant
            a@.len() == b@.len(),
            i <= a@.len(),
            forall|k: int| 0 <= k < i ==> a@[k] == b@[k],
        decreases a@.len() - i,
    {
        if a[i] != b[i] {
            return false;
        }
        i = i + 1;
    }
    proof {
        assert(a@ =~= b@);
    }
    true
}

/// An iterator over the symbols and texts a backend held when it was made.
pub struct Iter<'a, S: Symbol> {
    backend: &'a BucketBackend<S>,
    /// The index of the next span to produce.
    current: usize,
    /// The number of spans when the iterator was made.
    end: usize,
}

impl<'a, S: Symbol> Iter<'a, S> {
    pub closed spec fn wf(&self) -> bool {
        self.current <= self.end && self.end <= self.backend@.len()
    }

    /// The texts of the backend.
    pub closed spec fn texts(&self) -> Seq<Seq<char>> {
        self.backend@
    }

    /// The index of the next item.
    pub closed spec fn position(&self) -> nat {
        self.current as nat
    }

    /// The number of items in all.
    pub closed spec fn end(&self) -> nat {
        self.end as nat
    }

    /// Creates an iterator over the spans `backend` holds now.
    pub fn new(backend: &'a BucketBackend<S>) -> (r: Self)
        ensures
            r.wf(),
            r.texts() == backend@,
            r.position() == 0,
            r.end() == backend@.len(),
    {
        proof { use_type_invariant(backend); }
        Iter { backend, current: 0, end: backend.store.spans.len() }
    }

    /// Returns the number of items left, as lower and upper bound.
    pub fn size_hint(&self) -> (r: (usize, Option<usize>))
        requires
            self.wf(),
        ensures
            r.0 == self.end() - self.position(),
            r.1 == Some((self.end() - self.position()) as usize),
    {
        let left = self.end - self.current;
        (left, Some(left))
    }

    /// Returns the next symbol and its text, or `None` after the last.
    pub fn next(&mut self) -> (r: Option<(S, &'a str)>)
        requires
            old(self).wf(),
        ensures
            final(self).wf(),
            final(self).texts() == old(self).texts(),
            final(self).end() == old(self).end(),
            old(self).position() < old(self).end() ==> final(self).position() == old(self).position() + 1
                && (r matches Some((symbol, text)) && symbol.index() == old(self).position() && text@
                == old(self).texts()[old(self).position() as int]),
            old(self).position() >= old(self).end() ==> r is None && final(self).position() == old(
                self,
            ).position(),
    {
        if self.current >= self.end {
            return None;
        }
        let backend = self.backend;
        proof { use_type_invariant(backend); }
        let index = self.current;
        let symbol = S::from_usize_unchecked(index);
        let text = backend.store.span_str(index);
        self.current = index + 1;
        Some((symbol, text))
    }
}

} // verus!
