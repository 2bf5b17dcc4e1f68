//! Values as bytes: what each value is written as, and what a byte string is
//! read as.
//!
//! The encoding is a prefix code. No encoding of one value begins the encoding
//! of another value of the same type, so a byte string begins with the
//! encoding of at most one value, and reading is the inverse of writing
//! whatever follows the value in the input.

use crate::error::Error;
use crate::scale::{
    compact_bytes, compact_len, decode_compact, decode_u32, decode_u64, encode_compact, encode_u32,
    encode_u64, le_bytes, lemma_compact_prefix_free, lemma_le_bytes_len,
    lemma_le_bytes_prefix_free, lemma_pow256_values,
};
use vstd::prelude::*;

verus! {

/// A type with a binary encoding.
pub trait Wire: DeepView + Sized {
    /// The bytes that `v` is written as.
    spec fn wire(v: Self::V) -> Seq<u8>;

    /// Whether `v` can be written: every length in it fits the 32 bits that
    /// the encoding has for one.
    spec fn fits(v: Self::V) -> bool;

    /// No two values that can be written have encodings that begin the same
    /// byte string.
    proof fn lemma_prefix_free(a: Self::V, b: Self::V, s: Seq<u8>)
        requires
            Self::fits(a),
            Self::fits(b),
            Self::wire(a).is_prefix_of(s),
            Self::wire(b).is_prefix_of(s),
        ensures
            a == b,
    ;

    /// Whether `self` can be written.
    fn encodable(&self) -> (yes: bool)
        ensures
            yes == Self::fits(self.deep_view()),
    ;

    /// Appends the encoding of `self` to `out`.
    fn encode_to(&self, out: &mut Vec<u8>)
        requires
            Self::fits(self.deep_view()),
        ensures
            final(out)@ == old(out)@ + Self::wire(self.deep_view()),
    ;

    /// Reads one value from the front of `input`, and says how many bytes it
    /// took. What follows the value is not looked at.
    fn decode(input: &[u8]) -> (r: Result<(Self, usize), Error>)
        ensures
            r matches Ok((v, n)) ==> Self::fits(v.deep_view()) && Self::wire(
                v.deep_view(),
            ).is_prefix_of(input@) && n == Self::wire(v.deep_view()).len(),
            r matches Err(e) ==> e is Decode && forall|m: Self::V|
                Self::fits(m) ==> !(#[trigger] Self::wire(m)).is_prefix_of(input@),
    ;
}

/// Whether `s` begins with the encoding of `v`.
pub open spec fn begins_with<T: Wire>(s: Seq<u8>, v: T::V) -> bool {
    T::fits(v) && T::wire(v).is_prefix_of(s)
}

/// The value whose encoding `s` begins with, if there is one.
pub open spec fn parse<T: Wire>(s: Seq<u8>) -> Option<T::V> {
    if exists|v: T::V| begins_with::<T>(s, v) {
        Some(choose|v: T::V| begins_with::<T>(s, v))
    } else {
        None
    }
}

/// A byte string that begins with the encoding of `v` is read as `v`.
pub proof fn lemma_parse_unique<T: Wire>(s: Seq<u8>, v: T::V)
    requires
        begins_with::<T>(s, v),
    ensures
        parse::<T>(s) == Some(v),
{
    let w = choose|w: T::V| begins_with::<T>(s, w);
    T::lemma_prefix_free(v, w, s);
}

/// What a byte string is read as can be written.
pub proof fn lemma_parsed_fits<T: Wire>(s: Seq<u8>)
    requires
        parse::<T>(s) is Some,
    ensures
        begins_with::<T>(s, parse::<T>(s)->0),
{
}

/// Reading what was written gives the value back, whatever follows it.
pub proof fn lemma_parse_wire<T: Wire>(v: T::V, rest: Seq<u8>)
    requires
        T::fits(v),
    ensures
        parse::<T>(T::wire(v) + rest) == Some(v),
{
    lemma_parse_unique::<T>(T::wire(v) + rest, v);
}

/// What `decode` says of its result, over `parse`.
pub open spec fn decoded<T: Wire>(input: Seq<u8>, r: Result<(T, usize), Error>) -> bool {
    match r {
        Ok((v, n)) => parse::<T>(input) == Some(v.deep_view()) && n == T::wire(
            v.deep_view(),
        ).len() && n <= input.len(),
        Err(e) => e is Decode && parse::<T>(input) is None,
    }
}

/// Reads one value from the front of `input`: the value that `input` begins
/// with and the number of bytes it took, or `Decode` if there is none.
pub fn decode_prefix<T: Wire>(input: &[u8]) -> (r: Result<(T, usize), Error>)
    ensures
        decoded::<T>(input@, r),
{
    let r = T::decode(input);
    proof {
        if r is Ok {
            lemma_parse_unique::<T>(input@, r->Ok_0.0.deep_view());
        }
    }
    r
}

/// The encoding of `v` in a vector of its own.
pub fn encode<T: Wire>(v: &T) -> (out: Vec<u8>)
    requires
        T::fits(v.deep_view()),
    ensures
        out@ == T::wire(v.deep_view()),
{
    let mut out: Vec<u8> = Vec::new();
    v.encode_to(&mut out);
    out
}

/// The encoding of `v` in a vector of its own, or `Overflow` where `v`
/// cannot be written.
pub fn try_encode<T: Wire>(v: &T) -> (r: Result<Vec<u8>, Error>)
    ensures
        match r {
            Ok(out) => T::fits(v.deep_view()) && out@ == T::wire(v.deep_view()),
            Err(e) => e is Overflow && !T::fits(v.deep_view()),
        },
{
    if v.encodable() {
        Ok(encode(v))
    } else {
        Err(Error::Overflow)
    }
}

impl Wire for u8 {
    fn encodable(&self) -> (yes: bool) {
        assert(Self::fits(self.deep_view()));
        true
    }

    open spec fn wire(v: u8) -> Seq<u8> {
        seq![v]
    }

    open spec fn fits(v: u8) -> bool {
        true
    }

    proof fn lemma_prefix_free(a: u8, b: u8, s: Seq<u8>) {
        assert(seq![a][0] == s[0]);
    }

    fn encode_to(&self, out: &mut Vec<u8>) {
        out.push(*self);
    }

    fn decode(input: &[u8]) -> (r: Result<(Self, usize), Error>) {
        if input.len() == 0 {
            Err(Error::Decode)
        } else {
            let b = input[0];
            Ok((b, 1))
        }
    }
}

impl Wire for u32 {
    fn encodable(&self) -> (yes: bool) {
        assert(Self::fits(self.deep_view()));
        true
    }

    open spec fn wire(v: u32) -> Seq<u8> {
        le_bytes(v as nat, 4)
    }

    open spec fn fits(v: u32) -> bool {
        true
    }

    proof fn lemma_prefix_free(a: u32, b: u32, s: Seq<u8>) {
        lemma_pow256_values();
        lemma_le_bytes_prefix_free(a as nat, b as nat, 4, s);
    }

    fn encode_to(&self, out: &mut Vec<u8>) {
        let bytes = encode_u32(*self);
        out.extend_from_slice(bytes.as_slice());
    }

    fn decode(input: &[u8]) -> (r: Result<(Self, usize), Error>) {
        match decode_u32(input) {
            Ok(x) => {
                proof {
                    lemma_le_bytes_len(x as nat, 4);
                }
                Ok((x, 4))
            },
            Err(_) => {
                assert forall|v: u32| !(#[trigger] Self::wire(v)).is_prefix_of(input@) by {
                    lemma_le_bytes_len(v as nat, 4);
                }
                Err(Error::Decode)
            },
        }
    }
}

impl Wire for u64 {
    fn encodable(&self) -> (yes: bool) {
        assert(Self::fits(self.deep_view()));
        true
    }

    open spec fn wire(v: u64) -> Seq<u8> {
        le_bytes(v as nat, 8)
    }

    open spec fn fits(v: u64) -> bool {
        true
    }

    proof fn lemma_prefix_free(a: u64, b: u64, s: Seq<u8>) {
        lemma_pow256_values();
        lemma_le_bytes_prefix_free(a as nat, b as nat, 8, s);
    }

    fn encode_to(&self, out: &mut Vec<u8>) {
        let bytes = encode_u64(*self);
        out.extend_from_slice(bytes.as_slice());
    }

    fn decode(input: &[u8]) -> (r: Result<(Self, usize), Error>) {
        match decode_u64(input) {
            Ok(x) => {
                proof {
                    lemma_le_bytes_len(x as nat, 8);
                }
                Ok((x, 8))
            },
            Err(_) => {
                assert forall|v: u64| !(#[trigger] Self::wire(v)).is_prefix_of(input@) by {
                    lemma_le_bytes_len(v as nat, 8);
                }
                Err(Error::Decode)
            },
        }
    }
}

/// A byte string that begins with `a + b` begins with `a`, and goes on with
/// `b`.
pub proof fn lemma_prefix_split(a: Seq<u8>, b: Seq<u8>, s: Seq<u8>)
    requires
        (a + b).is_prefix_of(s),
    ensures
        a.is_prefix_of(s),
        b.is_prefix_of(s.skip(a.len() as int)),
{
    let ab = a + b;
    assert(a =~= s.subrange(0, a.len() as int)) by {
        assert forall|i: int| 0 <= i < a.len() implies a[i] == s[i] by {
            assert(ab[i] == s.subrange(0, ab.len() as int)[i]);
        }
    }
    assert(b =~= s.skip(a.len() as int).subrange(0, b.len() as int)) by {
        assert forall|i: int| 0 <= i < b.len() implies b[i] == s[a.len() + i] by {
            assert(ab[a.len() + i] == s.subrange(0, ab.len() as int)[a.len() + i]);
        }
    }
}

/// A byte string that begins with `a` and goes on with `b` begins with
/// `a + b`.
pub proof fn lemma_prefix_join(a: Seq<u8>, b: Seq<u8>, s: Seq<u8>)
    requires
        a.is_prefix_of(s),
        b.is_prefix_of(s.skip(a.len() as int)),
    ensures
        (a + b).is_prefix_of(s),
{
}

impl<A: Wire, B: Wire> Wire for (A, B) {
    open spec fn wire(v: (A::V, B::V)) -> Seq<u8> {
        A::wire(v.0) + B::wire(v.1)
    }

    open spec fn fits(v: (A::V, B::V)) -> bool {
        A::fits(v.0) && B::fits(v.1)
    }

    proof fn lemma_prefix_free(a: (A::V, B::V), b: (A::V, B::V), s: Seq<u8>) {
        lemma_prefix_split(A::wire(a.0), B::wire(a.1), s);
        lemma_prefix_split(A::wire(b.0), B::wire(b.1), s);
        A::lemma_prefix_free(a.0, b.0, s);
        B::lemma_prefix_free(a.1, b.1, s.skip(A::wire(a.0).len() as int));
    }

    fn encodable(&self) -> (yes: bool) {
        self.0.encodable() && self.1.encodable()
    }

    fn encode_to(&self, out: &mut Vec<u8>) {
        self.0.encode_to(out);
        self.1.encode_to(out);
    }

    fn decode(input: &[u8]) -> (r: Result<(Self, usize), Error>) {
        let (a, n) = match A::decode(input) {
            Ok(found) => found,
            Err(_) => {
                assert forall|m: Self::V| Self::fits(m) implies !(#[trigger] Self::wire(
                    m,
                )).is_prefix_of(input@) by {
                    if Self::wire(m).is_prefix_of(input@) {
                        lemma_prefix_split(A::wire(m.0), B::wire(m.1), input@);
                    }
                }
                return Err(Error::Decode);
            },
        };
        let rest = vstd::slice::slice_subrange(input, n, input.len());
        match B::decode(rest) {
            Ok((b, k)) => {
                proof {
                    lemma_prefix_join(A::wire(a.deep_view()), B::wire(b.deep_view()), input@);
                }
                Ok(((a, b), n + k))
            },
            Err(_) => {
                assert forall|m: Self::V| Self::fits(m) implies !(#[trigger] Self::wire(
                    m,
                )).is_prefix_of(input@) by {
                    if Self::wire(m).is_prefix_of(input@) {
                        lemma_prefix_split(A::wire(m.0), B::wire(m.1), input@);
                        A::lemma_prefix_free(m.0, a.deep_view(), input@);
                    }
                }
                Err(Error::Decode)
            },
        }
    }
}

/// The encodings of the items, one after the other.
pub open spec fn concat_wire<T: Wire>(items: Seq<T::V>) -> Seq<u8>
    decreases items.len(),
{
    if items.len() == 0 {
        Seq::empty()
    } else {
        T::wire(items[0]) + concat_wire::<T>(items.drop_first())
    }
}

/// Whether each item can be written.
pub open spec fn all_fit<T: Wire>(items: Seq<T::V>) -> bool {
    forall|i: int| 0 <= i < items.len() ==> T::fits(#[trigger] items[i])
}

/// The encodings of the items are those of the first `i`, then those of the
/// others.
pub proof fn lemma_concat_split<T: Wire>(items: Seq<T::V>, i: int)
    requires
        0 <= i <= items.len(),
    ensures
        concat_wire::<T>(items) == concat_wire::<T>(items.take(i)) + concat_wire::<T>(
            items.skip(i),
        ),
    decreases i,
{
    if i == 0 {
        assert(items.skip(0) =~= items);
    } else {
        let tail = items.drop_first();
        lemma_concat_split::<T>(tail, i - 1);
        assert(items.take(i).drop_first() =~= tail.take(i - 1));
        assert(items.skip(i) =~= tail.skip(i - 1));
    }
}

/// One more item at the end adds its encoding at the end.
pub proof fn lemma_concat_push<T: Wire>(items: Seq<T::V>, last: T::V)
    ensures
        concat_wire::<T>(items.push(last)) == concat_wire::<T>(items) + T::wire(last),
{
    let all = items.push(last);
    lemma_concat_split::<T>(all, items.len() as int);
    assert(all.take(items.len() as int) =~= items);
    let one = all.skip(items.len() as int);
    assert(concat_wire::<T>(one) =~= T::wire(last)) by {
        assert(concat_wire::<T>(one.drop_first()) =~= Seq::<u8>::empty());
    }
}

/// Two lists of as many items whose encodings both begin `s` are equal.
pub proof fn lemma_concat_prefix_free<T: Wire>(a: Seq<T::V>, b: Seq<T::V>, s: Seq<u8>)
    requires
        a.len() == b.len(),
        all_fit::<T>(a),
        all_fit::<T>(b),
        concat_wire::<T>(a).is_prefix_of(s),
        concat_wire::<T>(b).is_prefix_of(s),
    ensures
        a == b,
    decreases a.len(),
{
    if a.len() > 0 {
        lemma_prefix_split(T::wire(a[0]), concat_wire::<T>(a.drop_first()), s);
        lemma_prefix_split(T::wire(b[0]), concat_wire::<T>(b.drop_first()), s);
        T::lemma_prefix_free(a[0], b[0], s);
        lemma_concat_prefix_free::<T>(
            a.drop_first(),
            b.drop_first(),
            s.skip(T::wire(a[0]).len() as int),
        );
        assert(a =~= b) by {
            assert forall|i: int| 0 <= i < a.len() implies a[i] == b[i] by {
                if i > 0 {
                    assert(a[i] == a.drop_first()[i - 1]);
                }
            }
        }
    }
}

/// If a byte string begins with the encodings of `done`, and no item's
/// encoding follows them there, then no list with more items than `done` has
/// encodings that begin the byte string.
pub proof fn lemma_concat_stuck<T: Wire>(m: Seq<T::V>, done: Seq<T::V>, s: Seq<u8>)
    requires
        done.len() < m.len(),
        all_fit::<T>(m),
        all_fit::<T>(done),
        concat_wire::<T>(done).is_prefix_of(s),
        forall|x: T::V|
            T::fits(x) ==> !(#[trigger] T::wire(x)).is_prefix_of(
                s.skip(concat_wire::<T>(done).len() as int),
            ),
    ensures
        !concat_wire::<T>(m).is_prefix_of(s),
{
    if concat_wire::<T>(m).is_prefix_of(s) {
        let i = done.len() as int;
        lemma_concat_split::<T>(m, i);
        lemma_prefix_split(concat_wire::<T>(m.take(i)), concat_wire::<T>(m.skip(i)), s);
        lemma_concat_prefix_free::<T>(m.take(i), done, s);
        let after = m.skip(i);
        lemma_prefix_split(
            T::wire(after[0]),
            concat_wire::<T>(after.drop_first()),
            s.skip(concat_wire::<T>(done).len() as int),
        );
    }
}

impl<T: Wire> Wire for Vec<T> {
    open spec fn wire(v: Seq<T::V>) -> Seq<u8> {
        compact_bytes(v.len() as u32) + concat_wire::<T>(v)
    }

    open spec fn fits(v: Seq<T::V>) -> bool {
        v.len() <= u32::MAX && all_fit::<T>(v)
    }

    proof fn lemma_prefix_free(a: Seq<T::V>, b: Seq<T::V>, s: Seq<u8>) {
        let ha = compact_bytes(a.len() as u32);
        let hb = compact_bytes(b.len() as u32);
        lemma_prefix_split(ha, concat_wire::<T>(a), s);
        lemma_prefix_split(hb, concat_wire::<T>(b), s);
        lemma_compact_prefix_free(a.len() as u32, b.len() as u32, s);
        lemma_concat_prefix_free::<T>(a, b, s.skip(ha.len() as int));
    }

    fn encodable(&self) -> (yes: bool) {
        if self.len() > u32::MAX as usize {
            return false;
        }
        let ghost items = self.deep_view();
        let mut i: usize = 0;
        while i < self.len()
            invariant
                i <= self.len(),
                items == self.deep_view(),
                forall|j: int| 0 <= j < i ==> T::fits(#[trigger] items[j]),
            decreases self.len() - i,
        {
            assert(items[i as int] == self@[i as int].deep_view());
            if !self[i].encodable() {
                return false;
            }
            i += 1;
        }
        true
    }

    fn encode_to(&self, out: &mut Vec<u8>) {
        let ghost start = out@;
        let ghost items = self.deep_view();
        let n = self.len();
        let head = encode_compact(n as u32);
        out.extend_from_slice(head.as_slice());
        let mut i: usize = 0;
        while i < n
            invariant
                i <= n,
                n == self.len(),
                items == self.deep_view(),
                Self::fits(items),
                out@ == start + compact_bytes(n as u32) + concat_wire::<T>(items.take(i as int)),
            decreases n - i,
        {
            assert(items[i as int] == self@[i as int].deep_view());
            self[i].encode_to(out);
            proof {
                lemma_concat_push::<T>(items.take(i as int), items[i as int]);
                assert(items.take(i + 1) =~= items.take(i as int).push(items[i as int]));
            }
            i += 1;
        }
        assert(items.take(n as int) =~= items);
    }

    fn decode(input: &[u8]) -> (r: Result<(Self, usize), Error>) {
        let n = match decode_compact(input) {
            Ok(n) => n,
            Err(_) => {
                assert forall|m: Self::V| Self::fits(m) implies !(#[trigger] Self::wire(
                    m,
                )).is_prefix_of(input@) by {
                    if Self::wire(m).is_prefix_of(input@) {
                        lemma_prefix_split(
                            compact_bytes(m.len() as u32),
                            concat_wire::<T>(m),
                            input@,
                        );
                    }
                }
                return Err(Error::Decode);
            },
        };
        let head = compact_len(n);
        let mut pos: usize = head;
        let mut items: Vec<T> = Vec::new();
        let mut i: u32 = 0;
        while i < n
            invariant
                i <= n,
                items.len() == i,
                head == compact_bytes(n).len(),
                head <= pos <= input.len(),
                compact_bytes(n).is_prefix_of(input@),
                all_fit::<T>(items.deep_view()),
                concat_wire::<T>(items.deep_view()).is_prefix_of(input@.skip(head as int)),
                pos == head + concat_wire::<T>(items.deep_view()).len(),
            decreases n - i,
        {
            let ghost done = items.deep_view();
            let rest = vstd::slice::slice_subrange(input, pos, input.len());
            match T::decode(rest) {
                Ok((x, k)) => {
                    items.push(x);
                    proof {
                        let more = items.deep_view();
                        assert(more =~= done.push(x.deep_view()));
                        lemma_concat_push::<T>(done, x.deep_view());
                        lemma_prefix_join(
                            concat_wire::<T>(done),
                            T::wire(x.deep_view()),
                            input@.skip(head as int),
                        );
                    }
                    pos = pos + k;
                    i = i + 1;
                },
                Err(_) => {
                    assert forall|m: Self::V| Self::fits(m) implies !(#[trigger] Self::wire(
                        m,
                    )).is_prefix_of(input@) by {
                        if Self::wire(m).is_prefix_of(input@) {
                            lemma_prefix_split(
                                compact_bytes(m.len() as u32),
                                concat_wire::<T>(m),
                                input@,
                            );
                            lemma_compact_prefix_free(m.len() as u32, n, input@);
                            lemma_concat_stuck::<T>(m, done, input@.skip(head as int));
                        }
                    }
                    return Err(Error::Decode);
                },
            }
        }
        proof {
            lemma_prefix_join(
                compact_bytes(n),
                concat_wire::<T>(items.deep_view()),
                input@,
            );
        }
        Ok((items, pos))
    }
}

} // verus!
