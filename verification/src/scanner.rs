//! Finding a byte signature in a stream, whole or chunk by chunk.

use crate::bytes::append_bytes;
use vstd::prelude::*;

verus! {

/// `signature` stands in `data` at offset `at`.
pub open spec fn matches_at(data: Seq<u8>, signature: Seq<u8>, at: int) -> bool {
    &&& 0 <= at
    &&& at + signature.len() <= data.len()
    &&& data.subrange(at, at + signature.len()) == signature
}

/// `at` is the offset of the first occurrence of `signature` in `data`.
pub open spec fn first_match(data: Seq<u8>, signature: Seq<u8>, at: int) -> bool {
    &&& matches_at(data, signature, at)
    &&& forall|earlier: int| 0 <= earlier < at ==> !matches_at(data, signature, earlier)
}

/// `signature` occurs nowhere in `data`.
pub open spec fn absent(data: Seq<u8>, signature: Seq<u8>) -> bool {
    forall|at: int| !matches_at(data, signature, at)
}

/// A stream has at most one first occurrence, and none where the signature is
/// absent: the outcome of a scan is determined by the stream alone.
pub proof fn lemma_first_match_unique(data: Seq<u8>, signature: Seq<u8>, a: int, b: int)
    requires
        first_match(data, signature, a),
    ensures
        !absent(data, signature),
        first_match(data, signature, b) ==> a == b,
{
}

/// Whether `signature` stands in `data` at `at`.
pub(crate) fn matches_here(data: &[u8], signature: &[u8], at: usize) -> (r: bool)
    requires
        at + signature@.len() <= data@.len(),
    ensures
        r == matches_at(data@, signature@, at as int),
{
    let total: usize = data.len();
    let mut k: usize = 0;
    while k < signature.len()
        invariant
            k <= signature@.len(),
            at + signature@.len() <= data@.len() == total,
            forall|j: int| 0 <= j < k ==> data@[at + j] == signature@[j],
        decreases signature@.len() - k,
    {
        if data[at + k] != signature[k] {
            assert(data@.subrange(at as int, at + signature@.len())[k as int] == data@[at + k]);
            return false;
        }
        k += 1;
    }
    assert(data@.subrange(at as int, at + signature@.len()) =~= signature@);
    true
}

/// Finds the first occurrence of `signature` in `data`.
pub fn locate_signature(data: &[u8], signature: &[u8]) -> (r: Option<usize>)
    ensures
        match r {
            Some(at) => first_match(data@, signature@, at as int),
            None => absent(data@, signature@),
        },
{
    if signature.len() > data.len() {
        return None;
    }
    let last: usize = data.len() - signature.len();
    let mut at: usize = 0;
    loop
        invariant
            last == data@.len() - signature@.len(),
            at <= last,
            forall|earlier: int| 0 <= earlier < at ==> !matches_at(data@, signature@, earlier),
        decreases last - at,
    {
        if matches_here(data, signature, at) {
            return Some(at);
        }
        if at == last {
            return None;
        }
        at += 1;
    }
}

/// An occurrence that is the first in a stream stays the first when more
/// bytes follow.
pub proof fn lemma_first_match_extends(data: Seq<u8>, more: Seq<u8>, signature: Seq<u8>, at: int)
    requires
        first_match(data, signature, at),
    ensures
        first_match(data + more, signature, at),
{
    let longer = data + more;
    assert(longer.subrange(at, at + signature.len()) =~= data.subrange(at, at + signature.len()));
    assert forall|earlier: int| 0 <= earlier < at implies !matches_at(
        longer,
        signature,
        earlier,
    ) by {
        assert(longer.subrange(earlier, earlier + signature.len()) =~= data.subrange(
            earlier,
            earlier + signature.len(),
        ));
        assert(!matches_at(data, signature, earlier));
    }
}

/// Where the signature is absent from `data`, an occurrence in `data + more`
/// lies in the window made of the last `signature.len() - 1` bytes of `data`
/// (all of `data`, if it is shorter) and `more`, at the same place.
proof fn lemma_window(data: Seq<u8>, more: Seq<u8>, signature: Seq<u8>, kept: int)
    requires
        absent(data, signature),
        0 <= kept <= data.len(),
        kept == data.len() || kept == signature.len() - 1,
    ensures
        forall|j: int| #[trigger]
            matches_at(data.subrange(data.len() - kept, data.len() as int) + more, signature, j)
                <==> 0 <= j && matches_at(data + more, signature, data.len() - kept + j),
        forall|earlier: int|
            earlier < data.len() - kept ==> !#[trigger] matches_at(data + more, signature, earlier),
{
    let base = data.len() - kept;
    let window = data.subrange(base, data.len() as int) + more;
    let longer = data + more;
    let m = signature.len() as int;
    assert forall|j: int| #[trigger]
        matches_at(window, signature, j) <==> 0 <= j && matches_at(
            longer,
            signature,
            base + j,
        ) by {
        if 0 <= j && j + m <= window.len() {
            assert(window.subrange(j, j + m) =~= longer.subrange(base + j, base + j + m));
        }
    }
    assert forall|earlier: int| earlier < base implies !#[trigger] matches_at(
        longer,
        signature,
        earlier,
    ) by {
        if 0 <= earlier {
            assert(earlier + m <= data.len());
            assert(longer.subrange(earlier, earlier + m) =~= data.subrange(earlier, earlier + m));
            assert(!matches_at(data, signature, earlier));
        }
    }
}

/// A scanner that takes a stream chunk by chunk, in whatever sizes it comes,
/// and reports the first occurrence of its signature in the whole stream.
pub struct SignatureScanner {
    signature: Vec<u8>,
    tail: Vec<u8>,
    consumed: u64,
    found: Option<u64>,
    stream: Ghost<Seq<u8>>,
}

impl SignatureScanner {
    /// The signature that is looked for.
    pub closed spec fn signature(&self) -> Seq<u8> {
        self.signature@
    }

    /// All bytes fed so far, in order.
    pub closed spec fn stream(&self) -> Seq<u8> {
        self.stream@
    }

    /// The offset found, if any.
    pub closed spec fn found(&self) -> Option<u64> {
        self.found
    }

    /// The scanner's record agrees with the stream it has seen.
    pub closed spec fn wf(&self) -> bool {
        match self.found {
            Some(at) => first_match(self.stream@, self.signature@, at as int),
            None => {
                &&& absent(self.stream@, self.signature@)
                &&& self.consumed == self.stream@.len()
                &&& self.tail@.len() <= self.stream@.len()
                &&& self.tail@.len() == self.stream@.len() || self.tail@.len()
                    == self.signature@.len() - 1
                &&& self.tail@ == self.stream@.subrange(
                    self.stream@.len() - self.tail@.len(),
                    self.stream@.len() as int,
                )
            },
        }
    }

    /// What `found` says of the stream: the first occurrence, or that there
    /// is none.
    pub proof fn lemma_found(&self)
        requires
            self.wf(),
        ensures
            match self.found() {
                Some(at) => first_match(self.stream(), self.signature(), at as int),
                None => absent(self.stream(), self.signature()),
            },
    {
    }

    /// What a scanner has found depends on its signature and on the bytes
    /// that it has seen, not on the chunks in which they came.
    pub proof fn lemma_found_by_stream_alone(&self, other: &SignatureScanner)
        requires
            self.wf(),
            other.wf(),
            self.signature() == other.signature(),
            self.stream() == other.stream(),
        ensures
            self.found() == other.found(),
    {
        if let Some(at) = self.found {
            lemma_first_match_unique(
                self.stream@,
                self.signature@,
                at as int,
                match other.found {
                    Some(there) => there as int,
                    None => 0,
                },
            );
        } else if let Some(there) = other.found {
            lemma_first_match_unique(other.stream@, other.signature@, there as int, 0);
        }
    }

    /// A scanner for `signature` that has seen nothing yet.
    pub fn new(signature: Vec<u8>) -> (scanner: SignatureScanner)
        ensures
            scanner.wf(),
            scanner.signature() == signature@,
            scanner.stream() == Seq::<u8>::empty(),
            scanner.found() == if signature@.len() == 0 {
                Some(0u64)
            } else {
                None
            },
    {
        let found: Option<u64> = if signature.len() == 0 {
            Some(0)
        } else {
            None
        };
        let scanner = SignatureScanner {
            signature,
            tail: Vec::new(),
            consumed: 0,
            found,
            stream: Ghost(Seq::empty()),
        };
        proof {
            if scanner.signature@.len() == 0 {
                assert(scanner.stream@.subrange(0, 0) =~= scanner.signature@);
            } else {
                assert(scanner.tail@ =~= scanner.stream@.subrange(0, 0));
            }
        }
        scanner
    }

    /// The offset of the first occurrence in the stream so far, if there is one.
    pub fn result(&self) -> (r: Option<u64>)
        requires
            self.wf(),
        ensures
            r == self.found(),
            match r {
                Some(at) => first_match(self.stream(), self.signature(), at as int),
                None => absent(self.stream(), self.signature()),
            },
    {
        self.found
    }

    /// Takes the next chunk of the stream and returns the offset, from the
    /// stream's start, of the first occurrence seen so far.
    pub fn feed(&mut self, chunk: &[u8]) -> (r: Option<u64>)
        requires
            old(self).wf(),
            old(self).stream().len() + chunk@.len() <= u64::MAX,
        ensures
            final(self).wf(),
            final(self).signature() == old(self).signature(),
            final(self).stream() == old(self).stream() + chunk@,
            r == final(self).found(),
            match r {
                Some(at) => first_match(final(self).stream(), final(self).signature(), at as int),
                None => absent(final(self).stream(), final(self).signature()),
            },
    {
        let ghost before = self.stream@;
        proof {
            self.stream = Ghost(before + chunk@);
        }
        if let Some(at) = self.found {
            proof {
                lemma_first_match_extends(before, chunk@, self.signature@, at as int);
            }
            return Some(at);
        }
        let kept: usize = self.tail.len();
        let mut window: Vec<u8> = Vec::new();
        append_bytes(&mut window, self.tail.as_slice());
        append_bytes(&mut window, chunk);
        proof {
            lemma_window(before, chunk@, self.signature@, kept as int);
            assert(window@ =~= before.subrange(before.len() - kept, before.len() as int) + chunk@);
        }
        match locate_signature(window.as_slice(), self.signature.as_slice()) {
            Some(j) => {
                let at: u64 = self.consumed - kept as u64 + j as u64;
                proof {
                    assert(matches_at(window@, self.signature@, j as int));
                    assert forall|earlier: int| 0 <= earlier < at implies !matches_at(
                        self.stream@,
                        self.signature@,
                        earlier,
                    ) by {
                        if earlier >= before.len() - kept {
                            assert(!matches_at(
                                window@,
                                self.signature@,
                                earlier - (before.len() - kept),
                            ));
                        }
                    }
                }
                self.found = Some(at);
                Some(at)
            },
            None => {
                assert(self.signature@.len() > 0) by {
                    if self.signature@.len() == 0 {
                        assert(before.subrange(0, 0) =~= self.signature@);
                        assert(matches_at(before, self.signature@, 0));
                    }
                }
                let most: usize = self.signature.len() - 1;
                let keep: usize = if window.len() < most {
                    window.len()
                } else {
                    most
                };
                let rest = vstd::slice::slice_subrange(
                    window.as_slice(),
                    window.len() - keep,
                    window.len(),
                );
                self.tail = vstd::slice::slice_to_vec(rest);
                self.consumed = self.consumed + chunk.len() as u64;
                proof {
                    assert forall|at: int| !matches_at(self.stream@, self.signature@, at) by {
                        if at >= before.len() - kept {
                            assert(!matches_at(
                                window@,
                                self.signature@,
                                at - (before.len() - kept),
                            ));
                        }
                    }
                    assert(self.tail@ =~= self.stream@.subrange(
                        self.stream@.len() - self.tail@.len(),
                        self.stream@.len() as int,
                    ));
                }
                None
            },
        }
    }
}

/// Finds the first occurrence of `signature` in `data` by handing `data` to a
/// scanner in chunks of `chunk_size` bytes (all at once where `chunk_size` is
/// 0). The outcome is that of `locate_signature`, whatever the chunk size.
pub fn locate_signature_chunked(data: &[u8], signature: &[u8], chunk_size: usize) -> (r: Option<
    usize,
>)
    ensures
        match r {
            Some(at) => first_match(data@, signature@, at as int),
            None => absent(data@, signature@),
        },
{
    let total: usize = data.len();
    let step: usize = if chunk_size == 0 {
        total
    } else {
        chunk_size
    };
    let mut scanner = SignatureScanner::new(vstd::slice::slice_to_vec(signature));
    let mut pos: usize = 0;
    assert(data@.subrange(0, 0) =~= Seq::<u8>::empty());
    while pos < total
        invariant
            total == data@.len(),
            pos <= total,
            step > 0 || total == 0,
            scanner.wf(),
            scanner.signature() == signature@,
            scanner.stream() == data@.subrange(0, pos as int),
        decreases total - pos,
    {
        let end: usize = if total - pos < step {
            total
        } else {
            pos + step
        };
        let chunk = vstd::slice::slice_subrange(data, pos, end);
        scanner.feed(chunk);
        assert(data@.subrange(0, pos as int) + chunk@ =~= data@.subrange(0, end as int));
        pos = end;
    }
    assert(data@.subrange(0, pos as int) =~= data@);
    match scanner.result() {
        Some(at) => Some(at as usize),
        None => None,
    }
}

} // verus!
