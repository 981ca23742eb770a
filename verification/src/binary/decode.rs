use vstd::prelude::*;
use crate::binary::cursor::{advances, follows, read_as, Cursor};
use crate::binary::error::{
    cut_short,
    cut_short_many,
    extends,
    fails_with,
    DecodeError,
    Failure,
    Read,
};
use crate::binary::leb128::{lemma_leb_u32_extends, spec_leb_u32};

verus! {

/// A value with a wire format: the model says what the bytes hold, and
/// the executable decoder returns exactly that. Every value takes at
/// least one byte.
pub trait Decode: Sized + DeepView {
    /// What the front of `s` decodes to, and the bytes after it, where
    /// `eof` is the error of a read that finds too few bytes.
    spec fn spec_decode(s: Seq<u8>, eof: DecodeError) -> Read<Self::V>;

    /// Decodes the value at the front of `cur`, and returns it with the
    /// cursor after it.
    fn decode<'a>(cur: Cursor<'a>) -> (r: Result<(Self, Cursor<'a>), DecodeError>)
        ensures
            read_as(r, cur, Self::spec_decode(cur@, cur.eof_kind())),
            advances(r, cur@),
    ;

    /// Where no byte is left, a value fails as a read that finds too few
    /// bytes does.
    proof fn lemma_empty(eof: DecodeError)
        ensures
            fails_with(Self::spec_decode(Seq::empty(), eof), eof),
    ;

    /// Bytes after a value do not change how it is read: a decoder
    /// looks at nothing past the bytes that it takes.
    /// Cut short, the read can fail only by running out of bytes.
    proof fn lemma_extends(s: Seq<u8>, t: Seq<u8>, eof: DecodeError)
        ensures
            extends(Self::spec_decode(s, eof), Self::spec_decode(s + t, eof), t),
            cut_short(Self::spec_decode(s, eof), Self::spec_decode(s + t, eof), eof),
    ;
}

/// What a counted read returns in the model.
pub type ReadMany<T> = Result<(Seq<T>, Seq<u8>), Failure>;

/// `n` elements in a row, the first of which has position `at`. The
/// first element that fails ends the read, and its position is kept.
pub open spec fn spec_elements<T: Decode>(
    s: Seq<u8>,
    n: nat,
    at: nat,
    eof: DecodeError,
) -> ReadMany<T::V>
    decreases n,
{
    if n == 0 {
        Ok((Seq::empty(), s))
    } else {
        match T::spec_decode(s, eof) {
            Err(e) => Err(Failure::at(e, at as u32)),
            Ok((v, rest)) => match spec_elements::<T>(rest, (n - 1) as nat, at + 1, eof) {
                Err(f) => Err(f),
                Ok((vs, after)) => Ok((seq![v] + vs, after)),
            },
        }
    }
}

/// A vector: a count, then that many elements.
pub open spec fn spec_vector<T: Decode>(s: Seq<u8>, eof: DecodeError) -> ReadMany<T::V> {
    match spec_leb_u32(s, eof) {
        Err(e) => Err(Failure::plain(e)),
        Ok((n, rest)) => spec_elements::<T>(rest, n as nat, 0, eof),
    }
}

/// What an executable counted read returned, against the model.
pub open spec fn read_many_as<'a, T: DeepView>(
    r: Result<(Vec<T>, Cursor<'a>), Failure>,
    cur: Cursor<'a>,
    model: ReadMany<T::V>,
) -> bool {
    match model {
        Ok((vs, rest)) => r matches Ok((rv, rc)) && rv.deep_view() == vs && follows(
            rc,
            cur,
            rest,
        ),
        Err(f) => r matches Err(rf) && rf == f,
    }
}

/// Reads a count and then that many elements, in order.
pub fn vector<'a, T: Decode>(cur: Cursor<'a>) -> (r: Result<(Vec<T>, Cursor<'a>), Failure>)
    ensures
        read_many_as(r, cur, spec_vector::<T>(cur@, cur.eof_kind())),
        r matches Ok((_, rc)) ==> rc@.len() < cur@.len(),
{
    let (count, first) = match cur.read_leb128_u32() {
        Ok(x) => x,
        Err(e) => { return Err(Failure { kind: e, index: None }); },
    };
    let mut out: Vec<T> = Vec::new();
    let mut at = first;
    let mut i: u32 = 0;
    while i < count
        invariant
            i <= count,
            out.len() == i,
            at@.len() <= first@.len(),
            at.eof_kind() == cur.eof_kind(),
            spec_leb_u32(cur@, cur.eof_kind()) == Ok::<(u32, Seq<u8>), DecodeError>((count, first@)),
            match spec_elements::<T>(at@, (count - i) as nat, i as nat, cur.eof_kind()) {
                Ok((vs, rest)) => spec_elements::<T>(first@, count as nat, 0, cur.eof_kind()) == Ok::<
                    (Seq<T::V>, Seq<u8>),
                    Failure,
                >((out.deep_view() + vs, rest)),
                Err(f) => spec_elements::<T>(first@, count as nat, 0, cur.eof_kind()) == Err::<
                    (Seq<T::V>, Seq<u8>),
                    Failure,
                >(f),
            },
        decreases count - i,
    {
        match T::decode(at) {
            Err(e) => { return Err(Failure { kind: e, index: Some(i) }); },
            Ok((v, next)) => {
                proof {
                    let ghost before = out.deep_view();
                    let ghost tail = spec_elements::<T>(next@, (count - i - 1) as nat, i as nat + 1, cur.eof_kind());
                    if tail is Ok {
                        let vs = tail.unwrap().0;
                        assert(before + (seq![v.deep_view()] + vs) =~= before.push(v.deep_view())
                            + vs);
                    }
                }
                let ghost before = out.deep_view();
                out.push(v);
                assert(out.deep_view() =~= before.push(v.deep_view()));
                at = next;
                i = i + 1;
            },
        }
    }
    assert(out.deep_view() + Seq::<T::V>::empty() =~= out.deep_view());
    Ok((out, at))
}

impl Decode for u32 {
    open spec fn spec_decode(s: Seq<u8>, eof: DecodeError) -> Read<u32> {
        spec_leb_u32(s, eof)
    }

    fn decode<'a>(cur: Cursor<'a>) -> (r: Result<(u32, Cursor<'a>), DecodeError>) {
        cur.read_leb128_u32()
    }

    proof fn lemma_empty(eof: DecodeError) {
    }

    proof fn lemma_extends(s: Seq<u8>, t: Seq<u8>, eof: DecodeError) {
        lemma_leb_u32_extends(s, t, eof);
    }
}

/// Whole elements, and then no byte where the next one of the `n` that
/// are owed should start.
pub open spec fn elements_overrun<T: Decode>(s: Seq<u8>, n: nat, eof: DecodeError) -> bool
    decreases n,
{
    n > 0 && (s.len() == 0 || match T::spec_decode(s, eof) {
        Ok((_, rest)) => elements_overrun::<T>(rest, (n - 1) as nat, eof),
        Err(_) => false,
    })
}

/// A run of elements that ends where an element that is owed should
/// start fails as a read that finds too few bytes does: inside a frame,
/// with `SectionLengthMismatch`.
pub proof fn lemma_elements_overrun<T: Decode>(s: Seq<u8>, n: nat, at: nat, eof: DecodeError)
    requires
        elements_overrun::<T>(s, n, eof),
    ensures
        spec_elements::<T>(s, n, at, eof) matches Err(f) && f.kind == eof,
    decreases n,
{
    if s.len() == 0 {
        T::lemma_empty(eof);
        assert(s =~= Seq::empty());
    } else {
        lemma_elements_overrun::<T>(
            T::spec_decode(s, eof).unwrap().1,
            (n - 1) as nat,
            at + 1,
            eof,
        );
    }
}

/// Bytes after a run of elements do not change how it is read.
/// Cut short, the read can fail only by running out of bytes.
pub proof fn lemma_elements_extend<T: Decode>(
    s: Seq<u8>,
    t: Seq<u8>,
    n: nat,
    at: nat,
    eof: DecodeError,
)
    ensures
        extends(spec_elements::<T>(s, n, at, eof), spec_elements::<T>(s + t, n, at, eof), t),
        cut_short_many(
            spec_elements::<T>(s, n, at, eof),
            spec_elements::<T>(s + t, n, at, eof),
            eof,
        ),
    decreases n,
{
    if n > 0 {
        T::lemma_extends(s, t, eof);
        if T::spec_decode(s, eof) is Ok {
            let rest = T::spec_decode(s, eof).unwrap().1;
            lemma_elements_extend::<T>(rest, t, (n - 1) as nat, at + 1, eof);
        }
    }
}

/// Bytes after a vector do not change how it is read.
/// Cut short, the read can fail only by running out of bytes.
pub proof fn lemma_vector_extends<T: Decode>(s: Seq<u8>, t: Seq<u8>, eof: DecodeError)
    ensures
        extends(spec_vector::<T>(s, eof), spec_vector::<T>(s + t, eof), t),
        cut_short_many(spec_vector::<T>(s, eof), spec_vector::<T>(s + t, eof), eof),
{
    lemma_leb_u32_extends(s, t, eof);
    if spec_leb_u32(s, eof) is Ok {
        let n = spec_leb_u32(s, eof).unwrap().0;
        let rest = spec_leb_u32(s, eof).unwrap().1;
        lemma_elements_extend::<T>(rest, t, n as nat, 0, eof);
    }
}

} // verus!
