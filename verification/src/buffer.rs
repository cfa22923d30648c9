//! The buffering policy, told over bytes alone.
//!
//! A writer keeps up to 4000 bytes back. What it hands on, it hands on as
//! lines of at most 4000 bytes each. The functions here say, for a buffer and
//! an input, which lines leave, what stays behind and whether the operation
//! succeeds.

use vstd::prelude::*;

use crate::cbytes::has_nul;

verus! {

/// The most bytes a single line may have, and the size of the buffer.
pub const LOGGING_MSG_MAX_LEN: usize = 4000;

/// What an operation on a buffer comes to.
pub struct Outcome {
    /// How many bytes of the input were accepted; `None` where the operation
    /// failed on a zero byte.
    pub taken: Option<nat>,
    /// The bytes that are held back afterwards.
    pub buffered: Seq<u8>,
    /// The lines that left, in the order in which they left.
    pub emitted: Seq<Seq<u8>>,
}

/// The part of `data` that one unbuffered write accepts: all of it, or its
/// first 4000 bytes.
pub open spec fn first_line(data: Seq<u8>) -> Seq<u8> {
    if data.len() <= LOGGING_MSG_MAX_LEN {
        data
    } else {
        data.take(LOGGING_MSG_MAX_LEN as int)
    }
}

/// One unbuffered write of `data`: its first line leaves, unless that line
/// holds a zero byte.
pub open spec fn written_raw(data: Seq<u8>) -> Outcome {
    let line = first_line(data);
    if has_nul(line) {
        Outcome { taken: None, buffered: Seq::empty(), emitted: Seq::empty() }
    } else {
        Outcome { taken: Some(line.len()), buffered: Seq::empty(), emitted: seq![line] }
    }
}

/// A flush of `buffered`: what is held back leaves as one line. An empty
/// buffer gives no line. A buffer with a zero byte stays as it is, and the
/// flush fails.
pub open spec fn flushed(buffered: Seq<u8>) -> Outcome {
    if buffered.len() == 0 {
        Outcome { taken: Some(0), buffered, emitted: Seq::empty() }
    } else if has_nul(buffered) {
        Outcome { taken: None, buffered, emitted: Seq::empty() }
    } else {
        Outcome { taken: Some(0), buffered: Seq::empty(), emitted: seq![buffered] }
    }
}

/// One buffered write of `data` behind `buffered`.
///
/// Input that leaves room in the buffer is held back. Input that does not
/// fit first has the buffer flushed. Input of 4000 bytes or more then goes
/// out at once, its first 4000 bytes as one line; shorter input is held back.
pub open spec fn written(buffered: Seq<u8>, data: Seq<u8>) -> Outcome {
    let spare = LOGGING_MSG_MAX_LEN - buffered.len();
    if data.len() < spare {
        Outcome { taken: Some(data.len()), buffered: buffered + data, emitted: Seq::empty() }
    } else {
        let drained = if data.len() > spare {
            flushed(buffered)
        } else {
            Outcome { taken: Some(0), buffered, emitted: Seq::empty() }
        };
        if drained.taken is None {
            drained
        } else if data.len() >= LOGGING_MSG_MAX_LEN {
            let direct = written_raw(data);
            Outcome {
                taken: direct.taken,
                buffered: drained.buffered,
                emitted: drained.emitted + direct.emitted,
            }
        } else {
            Outcome {
                taken: Some(data.len()),
                buffered: drained.buffered + data,
                emitted: drained.emitted,
            }
        }
    }
}

/// Writing all of `data` behind `buffered`: one buffered write after
/// another, each on what the one before it left over, until nothing is left
/// or a write fails.
///
/// A write of input that has a byte takes at least one and no more than
/// there are (`lemma_written`), so the first arm is the one that is taken
/// whenever the write succeeds.
pub open spec fn written_all(buffered: Seq<u8>, data: Seq<u8>) -> Outcome
    decreases data.len(),
{
    if data.len() == 0 {
        Outcome { taken: Some(0), buffered, emitted: Seq::empty() }
    } else {
        let first = written(buffered, data);
        match first.taken {
            Some(n) if 0 < n <= data.len() => {
                let rest = written_all(first.buffered, data.skip(n as int));
                Outcome {
                    taken: match rest.taken {
                        Some(m) => Some(n + m),
                        None => None,
                    },
                    buffered: rest.buffered,
                    emitted: first.emitted + rest.emitted,
                }
            },
            _ => first,
        }
    }
}

/// How many lines `len` bytes make: `len / 4000`, rounded up.
pub open spec fn line_count(len: nat) -> nat {
    ((len + LOGGING_MSG_MAX_LEN - 1) / (LOGGING_MSG_MAX_LEN as int)) as nat
}

/// The lines that `data` is split into: each of 4000 bytes, but for the
/// last, which has what is left.
pub open spec fn lines_of(data: Seq<u8>) -> Seq<Seq<u8>> {
    Seq::new(
        line_count(data.len()),
        |k: int|
            data.subrange(
                k * LOGGING_MSG_MAX_LEN,
                if (k + 1) * LOGGING_MSG_MAX_LEN <= data.len() {
                    (k + 1) * LOGGING_MSG_MAX_LEN
                } else {
                    data.len() as int
                },
            ),
    )
}

/// Whether every line has between 1 and 4000 bytes, none of them zero.
pub open spec fn lines_fit(lines: Seq<Seq<u8>>) -> bool {
    forall|i: int|
        0 <= i < lines.len() ==> 0 < (#[trigger] lines[i]).len() <= LOGGING_MSG_MAX_LEN
            && !has_nul(lines[i])
}

proof fn lemma_nul_in_part(s: Seq<u8>, i: int, j: int)
    requires
        0 <= i <= j <= s.len(),
        has_nul(s.subrange(i, j)),
    ensures
        has_nul(s),
{
    let part = s.subrange(i, j);
    let k = choose|k: int| 0 <= k < part.len() && part[k] == 0u8;
    assert(s[i + k] == 0u8);
}

proof fn lemma_nul_in_whole(a: Seq<u8>, b: Seq<u8>)
    requires
        has_nul(a + b),
    ensures
        has_nul(a) || has_nul(b),
{
    let s = a + b;
    let k = choose|k: int| 0 <= k < s.len() && s[k] == 0u8;
    if k < a.len() {
        assert(a[k] == 0u8);
    } else {
        assert(b[k - a.len()] == 0u8);
    }
}

/// A flush leaves the buffer within its bound, hands on at most one line,
/// which fits, and loses no byte.
pub proof fn lemma_flushed(buffered: Seq<u8>)
    requires
        buffered.len() <= LOGGING_MSG_MAX_LEN,
    ensures
        flushed(buffered).taken is None <==> has_nul(buffered),
        flushed(buffered).buffered.len() <= LOGGING_MSG_MAX_LEN,
        flushed(buffered).emitted.len() <= 1,
        lines_fit(flushed(buffered).emitted),
        flushed(buffered).emitted.flatten() + flushed(buffered).buffered == buffered,
        flushed(buffered).taken is Some ==> flushed(buffered).buffered.len() == 0,
{
    let o = flushed(buffered);
    o.emitted.lemma_flatten_one_element();
    assert(o.emitted.flatten() + o.buffered =~= buffered);
}

/// A buffered write leaves the buffer within its bound, takes at least one
/// byte of an input that has any and never more than 4000, hands on only
/// lines that fit, and loses no byte: the lines that left and what is held
/// back are, end to end, what was held back before and what was taken.
pub proof fn lemma_written(buffered: Seq<u8>, data: Seq<u8>)
    requires
        buffered.len() <= LOGGING_MSG_MAX_LEN,
    ensures
        written(buffered, data).buffered.len() <= LOGGING_MSG_MAX_LEN,
        lines_fit(written(buffered, data).emitted),
        written(buffered, data).emitted.len() <= 2,
        written(buffered, data).taken matches Some(n) ==> {
            &&& n <= data.len()
            &&& n <= LOGGING_MSG_MAX_LEN
            &&& data.len() > 0 ==> n > 0
            &&& written(buffered, data).emitted.flatten() + written(buffered, data).buffered
                == buffered + data.take(n as int)
        },
        !has_nul(buffered) && !has_nul(data) ==> {
            &&& written(buffered, data).taken is Some
            &&& !has_nul(written(buffered, data).buffered)
        },
{
    let o = written(buffered, data);
    let spare = LOGGING_MSG_MAX_LEN - buffered.len();
    lemma_flushed(buffered);
    if !has_nul(buffered) && !has_nul(data) {
        if has_nul(first_line(data)) {
            lemma_nul_in_part(data, 0, first_line(data).len() as int);
        }
        if has_nul(buffered + data) {
            lemma_nul_in_whole(buffered, data);
        }
        if has_nul(Seq::<u8>::empty() + data) {
            lemma_nul_in_whole(Seq::empty(), data);
        }
    }
    if data.len() < spare {
        assert(data.take(data.len() as int) =~= data);
        assert(o.emitted.flatten() + o.buffered =~= buffered + data);
    } else {
        let drained = if data.len() > spare {
            flushed(buffered)
        } else {
            Outcome { taken: Some(0), buffered, emitted: Seq::empty() }
        };
        assert(drained.emitted.flatten() + drained.buffered =~= buffered);
        if drained.taken is Some {
            if data.len() >= LOGGING_MSG_MAX_LEN {
                let direct = written_raw(data);
                if direct.taken is Some {
                    let line = first_line(data);
                    assert(line =~= data.take(LOGGING_MSG_MAX_LEN as int));
                    direct.emitted.lemma_flatten_one_element();
                    vstd::seq_lib::lemma_flatten_concat(drained.emitted, direct.emitted);
                    assert(o.emitted.flatten() + o.buffered =~= buffered + data.take(
                        LOGGING_MSG_MAX_LEN as int,
                    ));
                }
            } else {
                assert(data.take(data.len() as int) =~= data);
                assert(o.emitted.flatten() + o.buffered =~= buffered + data);
            }
        }
    }
}

/// Writing all of some input leaves the buffer within its bound, hands on
/// only lines that fit, and loses no byte. It takes all of the input or
/// fails.
pub proof fn lemma_written_all(buffered: Seq<u8>, data: Seq<u8>)
    requires
        buffered.len() <= LOGGING_MSG_MAX_LEN,
    ensures
        written_all(buffered, data).buffered.len() <= LOGGING_MSG_MAX_LEN,
        lines_fit(written_all(buffered, data).emitted),
        written_all(buffered, data).taken matches Some(n) ==> {
            &&& n == data.len()
            &&& written_all(buffered, data).emitted.flatten() + written_all(
                buffered,
                data,
            ).buffered == buffered + data
        },
        !has_nul(buffered) && !has_nul(data) ==> {
            &&& written_all(buffered, data).taken is Some
            &&& !has_nul(written_all(buffered, data).buffered)
        },
    decreases data.len(),
{
    let o = written_all(buffered, data);
    if data.len() == 0 {
        assert(o.emitted.flatten() + o.buffered =~= buffered + data);
    } else {
        let first = written(buffered, data);
        lemma_written(buffered, data);
        if let Some(n) = first.taken {
            let rest = written_all(first.buffered, data.skip(n as int));
            lemma_written_all(first.buffered, data.skip(n as int));
            if has_nul(data.skip(n as int)) {
                lemma_nul_in_part(data, n as int, data.len() as int);
            }
            if rest.taken is Some {
                vstd::seq_lib::lemma_flatten_concat(first.emitted, rest.emitted);
                assert(data.take(n as int) + data.skip(n as int) =~= data);
                assert(o.emitted.flatten() + o.buffered =~= (first.emitted.flatten()
                    + first.buffered) + data.skip(n as int));
                assert(o.emitted.flatten() + o.buffered =~= buffered + data);
            }
        }
    }
}

/// A flush of an empty buffer hands on nothing and changes nothing, so a
/// second flush behind a first that succeeded does no more.
pub proof fn lemma_flush_twice(buffered: Seq<u8>)
    ensures
        flushed(Seq::empty()) == (Outcome {
            taken: Some(0),
            buffered: Seq::empty(),
            emitted: Seq::empty(),
        }),
        flushed(buffered).taken is Some ==> flushed(flushed(buffered).buffered) == (Outcome {
            taken: Some(0),
            buffered: Seq::empty(),
            emitted: Seq::empty(),
        }),
{
    if flushed(buffered).taken is Some {
        assert(flushed(buffered).buffered =~= Seq::empty());
    }
}

/// One write into an empty buffer and a flush behind it: bytes without a
/// zero byte, at least 1 and at most 4000 of them, are taken whole and
/// leave as exactly one line, which is those bytes.
pub proof fn lemma_write_then_flush(data: Seq<u8>)
    requires
        0 < data.len() <= LOGGING_MSG_MAX_LEN,
        !has_nul(data),
    ensures
        written(Seq::empty(), data).taken == Some(data.len()),
        flushed(written(Seq::empty(), data).buffered).taken is Some,
        flushed(written(Seq::empty(), data).buffered).buffered == Seq::<u8>::empty(),
        written(Seq::empty(), data).emitted + flushed(
            written(Seq::empty(), data).buffered,
        ).emitted == seq![data],
{
    let w = written(Seq::empty(), data);
    let f = flushed(w.buffered);
    if data.len() < LOGGING_MSG_MAX_LEN {
        assert(w.buffered =~= data);
    } else {
        assert(first_line(data) == data);
        assert(w.buffered =~= Seq::empty());
    }
    assert(w.emitted + f.emitted =~= seq![data]);
}

/// Writing all of some bytes into an empty buffer and a flush behind it:
/// bytes without a zero byte all leave, split into lines of 4000 bytes, the
/// last of which has what is left. So `len` bytes leave as `len / 4000`
/// lines, rounded up, in their order, and end to end the lines are the bytes.
pub proof fn lemma_write_all_then_flush(data: Seq<u8>)
    requires
        !has_nul(data),
    ensures
        written_all(Seq::empty(), data).taken == Some(data.len()),
        flushed(written_all(Seq::empty(), data).buffered).taken is Some,
        flushed(written_all(Seq::empty(), data).buffered).buffered == Seq::<u8>::empty(),
        written_all(Seq::empty(), data).emitted + flushed(
            written_all(Seq::empty(), data).buffered,
        ).emitted == lines_of(data),
        lines_of(data).len() == line_count(data.len()),
        lines_fit(lines_of(data)),
        lines_of(data).flatten() == data,
    decreases data.len(),
{
    let empty = Seq::<u8>::empty();
    let w = written_all(empty, data);
    let f = flushed(w.buffered);
    let cap = LOGGING_MSG_MAX_LEN as int;
    lemma_written_all(empty, data);
    lemma_flushed(w.buffered);
    if data.len() == 0 {
        assert(w.emitted + f.emitted =~= lines_of(data));
    } else if data.len() < LOGGING_MSG_MAX_LEN {
        let first = written(empty, data);
        assert(first.buffered =~= data);
        let rest = written_all(first.buffered, data.skip(data.len() as int));
        assert(rest.buffered == data && rest.emitted =~= Seq::<Seq<u8>>::empty());
        assert(w.buffered == data);
        assert(lines_of(data).len() == 1);
        assert(lines_of(data)[0] =~= data);
        assert(w.emitted + f.emitted =~= lines_of(data));
    } else {
        let first = written(empty, data);
        let head = data.take(cap);
        let tail = data.skip(cap);
        assert(first_line(data) =~= head);
        assert(!has_nul(head)) by {
            if has_nul(head) {
                lemma_nul_in_part(data, 0, cap);
            }
        }
        assert(!has_nul(tail)) by {
            if has_nul(tail) {
                lemma_nul_in_part(data, cap, data.len() as int);
            }
        }
        assert(first.taken == Some(cap as nat));
        assert(first.buffered =~= empty);
        assert(first.emitted =~= seq![head]);
        lemma_write_all_then_flush(tail);
        let rest = written_all(empty, tail);
        assert(w.emitted == first.emitted + rest.emitted);
        assert(w.buffered == rest.buffered);
        assert(line_count(data.len()) == 1 + line_count(tail.len()));
        assert forall|k: int| 0 <= k < lines_of(data).len() implies lines_of(data)[k] == (seq![
            head,
        ] + lines_of(tail))[k] by {
            if k == 0 {
                assert(lines_of(data)[0] =~= head);
            } else {
                assert(lines_of(data)[k] =~= lines_of(tail)[k - 1]);
            }
        }
        assert(lines_of(data) =~= seq![head] + lines_of(tail));
        assert(w.emitted + f.emitted =~= seq![head] + (rest.emitted + f.emitted));
    }
    lemma_lines_of(data, w, f);
}

proof fn lemma_lines_of(data: Seq<u8>, w: Outcome, f: Outcome)
    requires
        lines_fit(w.emitted),
        lines_fit(f.emitted),
        w.emitted.flatten() + w.buffered == data,
        f.emitted.flatten() + f.buffered == w.buffered,
        f.buffered.len() == 0,
        w.emitted + f.emitted == lines_of(data),
    ensures
        lines_fit(lines_of(data)),
        lines_of(data).flatten() == data,
{
    vstd::seq_lib::lemma_flatten_concat(w.emitted, f.emitted);
    assert(f.emitted.flatten() =~= w.buffered);
    assert(lines_of(data).flatten() =~= data);
    assert forall|i: int| 0 <= i < lines_of(data).len() implies 0 < (#[trigger] lines_of(
        data,
    )[i]).len() <= LOGGING_MSG_MAX_LEN && !has_nul(lines_of(data)[i]) by {
        if i < w.emitted.len() {
            assert(lines_of(data)[i] == w.emitted[i]);
        } else {
            assert(lines_of(data)[i] == f.emitted[i - w.emitted.len()]);
        }
    }
}

/// The bytes a writer holds back: never more than 4000.
pub(crate) struct Buffer {
    bytes: Vec<u8>,
}

impl View for Buffer {
    type V = Seq<u8>;

    closed spec fn view(&self) -> Seq<u8> {
        self.bytes@
    }
}

impl Buffer {
    #[verifier::type_invariant]
    spec fn inv(&self) -> bool {
        self.bytes@.len() <= LOGGING_MSG_MAX_LEN
    }

    /// An empty buffer with room for 4000 bytes.
    pub(crate) fn new() -> (b: Buffer)
        ensures
            b@ == Seq::<u8>::empty(),
    {
        Buffer { bytes: Vec::with_capacity(LOGGING_MSG_MAX_LEN) }
    }

    /// The number of bytes held back.
    pub(crate) fn len(&self) -> (n: usize)
        ensures
            n == self@.len(),
            n <= LOGGING_MSG_MAX_LEN,
    {
        proof {
            use_type_invariant(self);
        }
        self.bytes.len()
    }

    /// The bytes held back, oldest first.
    pub(crate) fn as_slice(&self) -> (bytes: &[u8])
        ensures
            bytes@ == self@,
            bytes@.len() <= LOGGING_MSG_MAX_LEN,
    {
        proof {
            use_type_invariant(self);
        }
        self.bytes.as_slice()
    }

    /// Puts `data` behind the bytes held back.
    pub(crate) fn extend(&mut self, data: &[u8])
        requires
            old(self)@.len() + data@.len() <= LOGGING_MSG_MAX_LEN,
        ensures
            final(self)@ == old(self)@ + data@,
    {
        let mut bytes: Vec<u8> = Vec::new();
        core::mem::swap(&mut bytes, &mut self.bytes);
        bytes.extend_from_slice(data);
        assert(bytes@ =~= old(self)@ + data@);
        core::mem::swap(&mut bytes, &mut self.bytes);
    }

    /// Drops the bytes held back and keeps the room.
    pub(crate) fn clear(&mut self)
        ensures
            final(self)@ == Seq::<u8>::empty(),
    {
        let mut bytes: Vec<u8> = Vec::new();
        core::mem::swap(&mut bytes, &mut self.bytes);
        bytes.clear();
        core::mem::swap(&mut bytes, &mut self.bytes);
    }
}

} // verus!
