//! The bucket storage behind a backend: the span table, the head bucket and
//! the closed buckets, with the facts that tie them together.
use crate::bucket::{shrink_vec, ClosedBucket, OpenBucket};
use crate::interned_str::{str_from_utf8, InternedStr};
use vstd::prelude::*;
use vstd::string::StringSliceAdditionalSpecFns;
use vstd::utf8::*;

verus! {

/// The smallest power of two that is at least `n`, searching upwards from `p`.
pub open spec fn pow2_at_least(n: nat, p: nat) -> nat
    decreases if p >= n { 0 } else { n - p },
    when p > 0
{
    if p >= n {
        p
    } else {
        pow2_at_least(n, 2 * p)
    }
}

/// The smallest power of two that is at least `n`.
pub open spec fn next_pow2(n: nat) -> nat {
    pow2_at_least(n, 1)
}

/// The capacity of a head that replaces one of capacity `current` so that
/// `needed` bytes fit: the next power of two above both.
pub open spec fn next_capacity(current: nat, needed: nat) -> nat {
    next_pow2(if current >= needed { current + 1 } else { needed + 1 })
}

/// The concatenation of the first `k` byte sequences of `parts`.
pub open spec fn concat_all(parts: Seq<Seq<u8>>, k: int) -> Seq<u8>
    decreases k,
{
    if k <= 0 {
        Seq::empty()
    } else {
        concat_all(parts, k - 1) + parts[k - 1]
    }
}

pub(crate) proof fn lemma_pow2_at_least(n: nat, p: nat)
    requires
        p > 0,
    ensures
        pow2_at_least(n, p) >= n,
        pow2_at_least(n, p) >= p,
    decreases if p >= n { 0 } else { n - p },
{
    if p < n {
        lemma_pow2_at_least(n, 2 * p);
    }
}

/// The concatenation only depends on the parts it takes.
proof fn lemma_concat_all_agree(a: Seq<Seq<u8>>, b: Seq<Seq<u8>>, k: int)
    requires
        0 <= k <= a.len(),
        k <= b.len(),
        forall|j: int| 0 <= j < k ==> a[j] == b[j],
    ensures
        concat_all(a, k) == concat_all(b, k),
    decreases k,
{
    if k > 0 {
        lemma_concat_all_agree(a, b, k - 1);
    }
}

/// Concatenating more parts never makes the result shorter.
proof fn lemma_concat_all_grows(parts: Seq<Seq<u8>>, j: int, k: int)
    requires
        0 <= j <= k,
    ensures
        concat_all(parts, j).len() <= concat_all(parts, k).len(),
    decreases k - j,
{
    if j < k {
        lemma_concat_all_grows(parts, j, k - 1);
    }
}

/// Part `b` stands in the concatenation right after the parts before it.
proof fn lemma_concat_all_part(parts: Seq<Seq<u8>>, b: int, k: int)
    requires
        0 <= b < k <= parts.len(),
    ensures
        concat_all(parts, b).len() + parts[b].len() <= concat_all(parts, k).len(),
        concat_all(parts, k).subrange(
            concat_all(parts, b).len() as int,
            (concat_all(parts, b).len() + parts[b].len()) as int,
        ) == parts[b],
    decreases k - b,
{
    if k == b + 1 {
        assert(concat_all(parts, k).subrange(
            concat_all(parts, b).len() as int,
            (concat_all(parts, b).len() + parts[b].len()) as int,
        ) =~= parts[b]);
    } else {
        lemma_concat_all_part(parts, b, k - 1);
        let whole = concat_all(parts, k);
        let prev = concat_all(parts, k - 1);
        assert(whole.subrange(
            concat_all(parts, b).len() as int,
            (concat_all(parts, b).len() + parts[b].len()) as int,
        ) =~= prev.subrange(
            concat_all(parts, b).len() as int,
            (concat_all(parts, b).len() + parts[b].len()) as int,
        ));
    }
}

/// Equal UTF-8 encodings come from equal texts.
pub proof fn lemma_encoding_injective(a: Seq<char>, b: Seq<char>)
    requires
        encode_utf8(a) == encode_utf8(b),
    ensures
        a == b,
{
    encode_utf8_decode_utf8(a);
    encode_utf8_decode_utf8(b);
}

/// The storage: spans, the head bucket and the closed buckets.
///
/// Bucket number `b` is the closed bucket `full[b]` for `b < full.len()`,
/// and the head for `b == full.len()`.
pub(crate) struct Storage {
    pub(crate) spans: Vec<InternedStr>,
    pub(crate) head: Option<OpenBucket>,
    pub(crate) full: Vec<ClosedBucket>,
    /// The text of each span, in order.
    pub(crate) texts: Ghost<Seq<Seq<char>>>,
}

impl Storage {
    /// The bytes of every bucket, in bucket number order.
    pub(crate) open spec fn buckets(&self) -> Seq<Seq<u8>> {
        let closed = self.full@.map_values(|c: ClosedBucket| c@);
        match self.head {
            Some(h) => closed.push(h@),
            None => closed,
        }
    }

    /// The number of bytes held in all buckets.
    pub(crate) open spec fn total_len(&self) -> nat {
        concat_all(self.buckets(), self.buckets().len() as int).len()
    }

    /// The capacity of the head, zero when there is none.
    pub(crate) open spec fn head_capacity(&self) -> nat {
        match self.head {
            Some(h) => h.spec_capacity(),
            None => 0,
        }
    }

    /// The number of bytes in the head, zero when there is none.
    pub(crate) open spec fn head_len(&self) -> nat {
        match self.head {
            Some(h) => h@.len(),
            None => 0,
        }
    }

    /// The head exists and has room for `n` more bytes.
    pub(crate) open spec fn head_can_store(&self, n: nat) -> bool {
        match self.head {
            Some(h) => h.spec_capacity() > 0 && h.spec_capacity() - h@.len() >= n,
            None => false,
        }
    }

    /// Interning `n` bytes stays within the limits of memory: the bytes
    /// held stay addressable, and a new head, where one is needed, can be
    /// allocated.
    pub(crate) open spec fn can_take(&self, n: nat) -> bool {
        &&& self.total_len() + n <= isize::MAX
        &&& (self.head_can_store(n) || next_capacity(self.head_capacity(), n) <= isize::MAX)
    }

    /// A span points inside a bucket that exists.
    pub(crate) open spec fn span_ok(&self, span: InternedStr) -> bool {
        match span {
            InternedStr::Owned { bucket, start, len } => bucket < self.buckets().len() && start
                + len <= self.buckets()[bucket as int].len(),
            InternedStr::Static(_) => true,
        }
    }

    /// The bytes a span points to.
    pub(crate) open spec fn span_bytes(&self, span: InternedStr) -> Seq<u8> {
        match span {
            InternedStr::Owned { bucket, start, len } => self.buckets()[bucket as int].subrange(
                start as int,
                start + len,
            ),
            InternedStr::Static(s) => s.spec_bytes(),
        }
    }

    pub(crate) open spec fn wf(&self) -> bool {
        &&& self.texts@.len() == self.spans@.len()
        &&& forall|i: int|
            0 <= i < self.spans@.len() ==> #[trigger] self.span_ok(self.spans@[i])
                && self.span_bytes(self.spans@[i]) == encode_utf8(self.texts@[i])
        &&& self.head_capacity() <= isize::MAX
        &&& self.total_len() <= isize::MAX
    }

    /// `self` holds every bucket of `earlier`, each with the same bytes
    /// first, so every span of `earlier` still points to the same bytes.
    pub(crate) open spec fn extends(&self, earlier: &Storage) -> bool {
        &&& earlier.buckets().len() <= self.buckets().len()
        &&& forall|b: int|
            0 <= b < earlier.buckets().len() ==> earlier.buckets()[b].len()
                <= #[trigger] self.buckets()[b].len() && self.buckets()[b].subrange(
                0,
                earlier.buckets()[b].len() as int,
            ) == earlier.buckets()[b]
    }
}

pub(crate) proof fn lemma_extends_keeps_span(earlier: &Storage, later: &Storage, span: InternedStr)
    requires
        later.extends(earlier),
        earlier.span_ok(span),
    ensures
        later.span_ok(span),
        later.span_bytes(span) == earlier.span_bytes(span),
{
    if let InternedStr::Owned { bucket, start, len } = span {
        let b = bucket as int;
        let old_bytes = earlier.buckets()[b];
        let new_bytes = later.buckets()[b];
        assert(new_bytes.subrange(0, old_bytes.len() as int) == old_bytes);
        assert(new_bytes.subrange(start as int, start + len) =~= old_bytes.subrange(
            start as int,
            start + len,
        ));
    }
}

/// Adding an empty bucket keeps every bucket and the byte total.
proof fn lemma_add_empty_bucket(earlier: &Storage, later: &Storage)
    requires
        later.buckets() == earlier.buckets().push(Seq::<u8>::empty()),
    ensures
        later.extends(earlier),
        later.total_len() == earlier.total_len(),
{
    let a = earlier.buckets();
    let b = later.buckets();
    assert forall|k: int| 0 <= k < a.len() implies a[k].len() <= #[trigger] b[k].len()
        && b[k].subrange(0, a[k].len() as int) == a[k] by {
        assert(b[k].subrange(0, a[k].len() as int) =~= a[k]);
    }
    lemma_concat_all_agree(a, b, a.len() as int);
    assert(concat_all(b, b.len() as int) =~= concat_all(a, a.len() as int));
}

/// Appending bytes to the last bucket keeps every bucket's earlier bytes and
/// adds their number to the byte total.
proof fn lemma_append_to_last(earlier: &Storage, later: &Storage, bytes: Seq<u8>)
    requires
        earlier.buckets().len() > 0,
        later.buckets() == earlier.buckets().update(
            earlier.buckets().len() - 1,
            earlier.buckets().last() + bytes,
        ),
    ensures
        later.extends(earlier),
        later.total_len() == earlier.total_len() + bytes.len(),
{
    let a = earlier.buckets();
    let b = later.buckets();
    let n = a.len() as int;
    assert forall|k: int| 0 <= k < a.len() implies a[k].len() <= #[trigger] b[k].len()
        && b[k].subrange(0, a[k].len() as int) == a[k] by {
        assert(b[k].subrange(0, a[k].len() as int) =~= a[k]);
    }
    lemma_concat_all_agree(a, b, n - 1);
}

impl Storage {
    /// A storage with no spans and no buckets.
    pub(crate) fn empty(span_capacity: usize, bucket_count: usize) -> (r: Storage)
        ensures
            r.wf(),
            r.texts@ == Seq::<Seq<char>>::empty(),
            r.head is None,
            r.full@.len() == 0,
            r.total_len() == 0,
    {
        let r = Storage {
            spans: Vec::with_capacity(span_capacity),
            head: None,
            full: Vec::with_capacity(bucket_count),
            texts: Ghost(Seq::empty()),
        };
        proof {
            assert(r.buckets() =~= Seq::<Seq<u8>>::empty());
        }
        r
    }

    /// A storage with no spans and an empty head of `bucket_capacity` bytes.
    pub(crate) fn with_head(span_capacity: usize, bucket_capacity: usize, bucket_count: usize) -> (r: Storage)
        requires
            bucket_capacity <= isize::MAX,
        ensures
            r.wf(),
            r.texts@ == Seq::<Seq<char>>::empty(),
            r.head_capacity() == bucket_capacity,
            r.head is Some,
            r.head_len() == 0,
            r.total_len() == 0,
    {
        let r = Storage {
            spans: Vec::with_capacity(span_capacity),
            head: Some(OpenBucket::with_capacity(bucket_capacity)),
            full: Vec::with_capacity(bucket_count),
            texts: Ghost(Seq::empty()),
        };
        proof {
            assert(r.buckets() =~= seq![Seq::<u8>::empty()]);
            assert(concat_all(r.buckets(), 0) =~= Seq::<u8>::empty());
            assert(concat_all(r.buckets(), 1) =~= Seq::<u8>::empty());
        }
        r
    }

    /// The capacity of the head that is to replace the current one so that
    /// `at_least` bytes fit.
    fn next_head_capacity(&self, at_least: usize) -> (r: usize)
        requires
            self.wf(),
            at_least <= isize::MAX,
        ensures
            r == next_capacity(self.head_capacity(), at_least as nat),
    {
        let current = match &self.head {
            Some(h) => h.capacity(),
            None => 0,
        };
        let wanted = if current >= at_least {
            current + 1
        } else {
            at_least + 1
        };
        next_power_of_two(wanted)
    }

    /// Closes the current head, if any, and opens an empty one of `capacity`
    /// bytes in its place.
    fn new_head(&mut self, capacity: usize)
        requires
            capacity <= isize::MAX,
        ensures
            final(self).buckets() == old(self).buckets().push(Seq::<u8>::empty()),
            final(self).spans == old(self).spans,
            final(self).texts == old(self).texts,
            final(self).head_capacity() == capacity,
            final(self).head is Some,
            final(self).head_len() == 0,
            final(self).full@.len() + 1 == final(self).buckets().len(),
    {
        let created = OpenBucket::with_capacity(capacity);
        let previous = self.head.take();
        match previous {
            Some(h) => {
                let ghost hb = h@;
                self.full.push(ClosedBucket::from_open(h));
                proof {
                    assert(self.full@.map_values(|c: ClosedBucket| c@) =~= old(self).full@.map_values(
                        |c: ClosedBucket| c@,
                    ).push(hb));
                }
            },
            None => {},
        }
        self.head = Some(created);
        proof {
            assert(self.buckets() =~= old(self).buckets().push(Seq::<u8>::empty()));
        }
    }

    /// Writes the bytes of `string` into the head, replacing the head first
    /// when it has too little room, and returns where they were written.
    fn allocate(&mut self, string: &str) -> (r: InternedStr)
        requires
            old(self).wf(),
            old(self).can_take(string.spec_bytes().len()),
        ensures
            final(self).spans == old(self).spans,
            final(self).texts == old(self).texts,
            final(self).extends(old(self)),
            final(self).span_ok(r),
            final(self).span_bytes(r) == string.spec_bytes(),
            final(self).total_len() == old(self).total_len() + string.spec_bytes().len(),
            final(self).head_capacity() == if old(self).head_can_store(string.spec_bytes().len()) {
                old(self).head_capacity()
            } else {
                next_capacity(old(self).head_capacity(), string.spec_bytes().len())
            },
            final(self).head is Some,
            final(self).head_len() == if old(self).head_can_store(string.spec_bytes().len()) {
                old(self).head_len() + string.spec_bytes().len()
            } else {
                string.spec_bytes().len() as nat
            },
    {
        let bytes_len = string.as_bytes().len();
        let fits = match &self.head {
            Some(h) => h.can_store(bytes_len),
            None => false,
        };
        let ghost before = *self;
        if !fits {
            let capacity = self.next_head_capacity(bytes_len);
            proof {
                lemma_pow2_at_least(
                    if before.head_capacity() >= bytes_len { before.head_capacity() + 1 } else { (bytes_len + 1) as nat },
                    1,
                );
            }
            self.new_head(capacity);
            proof { lemma_add_empty_bucket(&before, self); }
        }
        let ghost middle = *self;
        let bucket = self.full.len();
        let mut head = self.head.take().unwrap();
        let r = head.push_str_unchecked(bucket, string);
        self.head = Some(head);
        proof {
            assert(self.full@.map_values(|c: ClosedBucket| c@) =~= middle.full@.map_values(
                |c: ClosedBucket| c@,
            ));
            assert(self.buckets() =~= middle.buckets().update(
                middle.buckets().len() - 1,
                middle.buckets().last() + string.spec_bytes(),
            ));
            lemma_append_to_last(&middle, self, string.spec_bytes());
            assert(self.buckets()[bucket as int].subrange(
                r->start as int,
                r->start + r->len,
            ) =~= string.spec_bytes());
            assert forall|b: int| 0 <= b < before.buckets().len() implies before.buckets()[b].len()
                <= #[trigger] self.buckets()[b].len() && self.buckets()[b].subrange(
                0,
                before.buckets()[b].len() as int,
            ) == before.buckets()[b] by {
                assert(middle.buckets()[b].subrange(0, before.buckets()[b].len() as int)
                    == before.buckets()[b]);
                assert(self.buckets()[b].subrange(0, middle.buckets()[b].len() as int)
                    == middle.buckets()[b]);
                assert(self.buckets()[b].subrange(0, before.buckets()[b].len() as int)
                    =~= middle.buckets()[b].subrange(0, before.buckets()[b].len() as int));
            }
        }
        r
    }
}

impl Storage {
    /// Writes `string` into the buckets and appends its span.
    pub(crate) fn intern(&mut self, string: &str)
        requires
            old(self).wf(),
            old(self).can_take(string.spec_bytes().len()),
        ensures
            final(self).wf(),
            final(self).texts@ == old(self).texts@.push(string@),
            final(self).spans@.subrange(0, old(self).spans@.len() as int) == old(self).spans@,
            final(self).extends(old(self)),
            final(self).total_len() == old(self).total_len() + string.spec_bytes().len(),
            final(self).head_capacity() == if old(self).head_can_store(string.spec_bytes().len()) {
                old(self).head_capacity()
            } else {
                next_capacity(old(self).head_capacity(), string.spec_bytes().len())
            },
            final(self).head is Some,
            final(self).head_len() == if old(self).head_can_store(string.spec_bytes().len()) {
                old(self).head_len() + string.spec_bytes().len()
            } else {
                string.spec_bytes().len() as nat
            },
    {
        let interned = self.allocate(string);
        let ghost before = *old(self);
        let ghost middle = *self;
        self.spans.push(interned);
        self.texts = Ghost(self.texts@.push(string@));
        proof {
            assert(self.buckets() == middle.buckets());
            assert forall|i: int| 0 <= i < self.spans@.len() implies #[trigger] self.span_ok(
                self.spans@[i],
            ) && self.span_bytes(self.spans@[i]) == encode_utf8(self.texts@[i]) by {
                if i < before.spans@.len() {
                    assert(self.spans@[i] == before.spans@[i]);
                    assert(self.texts@[i] == before.texts@[i]);
                    assert(before.span_ok(before.spans@[i]));
                    lemma_extends_keeps_span(&before, &middle, before.spans@[i]);
                } else {
                    assert(self.spans@[i] == interned);
                    assert(self.texts@[i] == string@);
                }
            }
            assert(self.spans@.subrange(0, before.spans@.len() as int) =~= before.spans@);
        }
    }

    /// Appends the span of a static string, which is not copied.
    pub(crate) fn intern_static(&mut self, string: &'static str)
        requires
            old(self).wf(),
        ensures
            final(self).wf(),
            final(self).texts@ == old(self).texts@.push(string@),
            final(self).spans@ == old(self).spans@.push(InternedStr::Static(string)),
            final(self).buckets() == old(self).buckets(),
            final(self).head == old(self).head,
    {
        self.spans.push(InternedStr::new_static(string));
        self.texts = Ghost(self.texts@.push(string@));
        proof {
            assert forall|i: int| 0 <= i < self.spans@.len() implies #[trigger] self.span_ok(
                self.spans@[i],
            ) && self.span_bytes(self.spans@[i]) == encode_utf8(self.texts@[i]) by {
                if i < old(self).spans@.len() {
                    assert(self.spans@[i] == old(self).spans@[i]);
                    assert(self.texts@[i] == old(self).texts@[i]);
                    assert(old(self).span_ok(old(self).spans@[i]));
                } else {
                    assert(self.spans@[i] == InternedStr::Static(string));
                    assert(self.texts@[i] == string@);
                }
            }
        }
    }

    /// Releases spare room of the span table and of the list of closed buckets.
    pub(crate) fn shrink_to_fit(&mut self)
        requires
            old(self).wf(),
        ensures
            final(self).wf(),
            final(self).spans@ == old(self).spans@,
            final(self).texts == old(self).texts,
            final(self).buckets() == old(self).buckets(),
            final(self).head == old(self).head,
    {
        shrink_vec(&mut self.spans);
        shrink_vec(&mut self.full);
        proof {
            assert(self.full@.map_values(|c: ClosedBucket| c@) =~= old(self).full@.map_values(
                |c: ClosedBucket| c@,
            ));
            assert(self.buckets() =~= old(self).buckets());
            assert forall|i: int| 0 <= i < self.spans@.len() implies #[trigger] self.span_ok(
                self.spans@[i],
            ) && self.span_bytes(self.spans@[i]) == encode_utf8(self.texts@[i]) by {
                assert(old(self).span_ok(old(self).spans@[i]));
            }
        }
    }

    /// Returns the text of span `i`.
    pub(crate) fn span_str(&self, i: usize) -> (r: &str)
        requires
            self.wf(),
            i < self.spans@.len(),
        ensures
            r@ == self.texts@[i as int],
            self.spans@[i as int] matches InternedStr::Static(s) ==> r == s,
    {
        proof {
            assert(self.span_ok(self.spans@[i as int]));
        }
        match self.spans[i] {
            InternedStr::Static(s) => {
                proof {
                    lemma_encoding_injective(s@, self.texts@[i as int]);
                }
                s
            },
            InternedStr::Owned { bucket, start, len } => {
                let bytes: &[u8] = if bucket < self.full.len() {
                    self.full[bucket].as_bytes()
                } else {
                    match &self.head {
                        Some(h) => h.as_bytes(),
                        None => {
                            return "";
                        },
                    }
                };
                proof {
                    assert(bytes@ == self.buckets()[bucket as int]);
                    assert(start + len <= bytes@.len());
                }
                let available = bytes.len();
                proof {
                    assert(start + len <= available);
                }
                let part = &bytes[start..start + len];
                proof {
                    assert(part@ == encode_utf8(self.texts@[i as int]));
                    encode_utf8_valid_utf8(self.texts@[i as int]);
                }
                match str_from_utf8(part) {
                    Some(text) => {
                        proof {
                            lemma_encoding_injective(text@, self.texts@[i as int]);
                        }
                        text
                    },
                    None => "",
                }
            },
        }
    }
}

impl Storage {
    /// Copies the storage into fresh buckets: the bytes of every bucket, in
    /// order, go into one closed bucket, each owned span is moved to where its
    /// bytes went, static spans are kept as they are, and an empty head of the
    /// same capacity is opened when there was a head.
    pub(crate) fn deep_clone(&self) -> (r: Storage)
        requires
            self.wf(),
        ensures
            r.wf(),
            r.texts == self.texts,
            r.head_capacity() == self.head_capacity(),
            r.total_len() == self.total_len(),
            r.full@.len() == 1,
            (r.head is Some) == (self.head is Some),
            r.head_len() == 0,
            forall|i: int|
                0 <= i < self.spans@.len() ==> (#[trigger] self.spans@[i] is Static ==> r.spans@[i]
                    == self.spans@[i]),
    {
        let ghost parts = self.buckets();
        let count = self.full.len();

        // Where each bucket starts once all are put one after another.
        let mut starts: Vec<usize> = Vec::with_capacity(count);
        let mut total: usize = 0;
        let mut j: usize = 0;
        while j < count
            invariant
                self.wf(),
                parts == self.buckets(),
                count == self.full@.len(),
                j <= count,
                total == concat_all(parts, j as int).len(),
                starts@.len() == j,
                forall|k: int| 0 <= k < j ==> #[trigger] starts@[k] == concat_all(parts, k).len(),
            decreases count - j,
        {
            proof {
                lemma_concat_all_grows(parts, j + 1, parts.len() as int);
            }
            starts.push(total);
            total = total + self.full[j].len();
            j = j + 1;
        }
        match &self.head {
            Some(h) => {
                proof {
                    lemma_concat_all_grows(parts, count + 1, parts.len() as int);
                }
                starts.push(total);
                total = total + h.len();
            },
            None => {},
        }
        proof {
            assert(total == self.total_len());
            assert(starts@.len() == parts.len());
            assert(forall|k: int| 0 <= k < parts.len() ==> #[trigger] starts@[k] == concat_all(parts, k).len());
        }

        // Copy the bytes of every bucket into one.
        let mut arena = OpenBucket::with_capacity(total);
        let mut j: usize = 0;
        while j < count
            invariant
                self.wf(),
                parts == self.buckets(),
                count == self.full@.len(),
                j <= count,
                total == self.total_len(),
                arena@ == concat_all(parts, j as int),
                arena.spec_capacity() == total,
            decreases count - j,
        {
            proof {
                lemma_concat_all_grows(parts, j + 1, parts.len() as int);
            }
            arena.extend_from_slice_unchecked(self.full[j].as_bytes());
            j = j + 1;
        }
        match &self.head {
            Some(h) => {
                arena.extend_from_slice_unchecked(h.as_bytes());
            },
            None => {},
        }
        let ghost arena_bytes = arena@;
        proof {
            assert(arena_bytes == concat_all(parts, parts.len() as int));
        }

        // Move every owned span to where its bytes went.
        let mut spans: Vec<InternedStr> = Vec::with_capacity(self.spans.len());
        let mut i: usize = 0;
        while i < self.spans.len()
            invariant
                self.wf(),
                parts == self.buckets(),
                arena_bytes == concat_all(parts, parts.len() as int),
                starts@.len() == parts.len(),
                forall|k: int| 0 <= k < parts.len() ==> #[trigger] starts@[k] == concat_all(parts, k).len(),
                i <= self.spans@.len(),
                spans@.len() == i,
                forall|k: int|
                    0 <= k < i ==> match #[trigger] spans@[k] {
                        InternedStr::Owned { bucket, start, len } => bucket == 0 && start + len
                            <= arena_bytes.len() && arena_bytes.subrange(start as int, start + len)
                            == encode_utf8(self.texts@[k]),
                        InternedStr::Static(_) => spans@[k] == self.spans@[k],
                    },
                forall|k: int|
                    0 <= k < i ==> (self.spans@[k] is Static ==> #[trigger] spans@[k] == self.spans@[k]),
            decreases self.spans@.len() - i,
        {
            proof {
                assert(self.span_ok(self.spans@[i as int]));
            }
            let moved = match self.spans[i] {
                InternedStr::Owned { bucket, start, len } => {
                    proof {
                        lemma_concat_all_part(parts, bucket as int, parts.len() as int);
                        let at = concat_all(parts, bucket as int).len() as int;
                        assert(arena_bytes.subrange(at + start, at + start + len) =~= parts[bucket as int].subrange(
                            start as int,
                            start + len,
                        ));
                    }
                    InternedStr::new(0, starts[bucket] + start, len)
                },
                InternedStr::Static(s) => InternedStr::new_static(s),
            };
            spans.push(moved);
            i = i + 1;
        }

        let head = match &self.head {
            Some(h) => Some(OpenBucket::with_capacity(h.capacity())),
            None => None,
        };
        let r = Storage { spans, head, full: vec![ClosedBucket::from_open(arena)], texts: self.texts };
        proof {
            let closed = seq![arena_bytes];
            assert(r.full@.map_values(|c: ClosedBucket| c@) =~= closed);
            assert(concat_all(closed, 0) =~= Seq::<u8>::empty());
            assert(concat_all(closed, 1) == concat_all(closed, 0) + closed[0]);
            assert(concat_all(closed, 1) =~= arena_bytes);
            if r.head is Some {
                {
                    assert(r.buckets() =~= closed.push(Seq::<u8>::empty()));
                    assert(concat_all(r.buckets(), 2) =~= concat_all(r.buckets(), 1) + Seq::<u8>::empty());
                    lemma_concat_all_agree(closed, r.buckets(), 1);
                }
            }
            assert forall|k: int| 0 <= k < r.spans@.len() implies #[trigger] r.span_ok(r.spans@[k])
                && r.span_bytes(r.spans@[k]) == encode_utf8(r.texts@[k]) by {
                if r.spans@[k] is Static {
                    assert(self.span_ok(self.spans@[k]));
                }
            }
            assert forall|k: int| 0 <= k < self.spans@.len() && #[trigger] self.spans@[k] is Static
                implies r.spans@[k] == self.spans@[k] by {
                assert(r.spans@[k] == self.spans@[k]);
            }
        }
        r
    }
}

/// Returns the smallest power of two that is at least `n`.
pub(crate) fn next_power_of_two(n: usize) -> (r: usize)
    requires
        n <= isize::MAX as usize + 1,
    ensures
        r == next_pow2(n as nat),
{
    let mut p: usize = 1;
    while p < n
        invariant
            p >= 1,
            n <= isize::MAX as usize + 1,
            pow2_at_least(n as nat, p as nat) == next_pow2(n as nat),
        decreases if p >= n { 0 } else { n - p },
    {
        p = p * 2;
    }
    p
}

} // verus!
