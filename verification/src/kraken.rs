use crate::error::Error;
use crate::trpfs::MAX_SIZE;
use vstd::prelude::*;

verus! {

/// The number of bytes that the decompressor may write past the end of its
/// output. The destination buffer is made this much longer than the output.
pub const SLACK: usize = 64;

/// One call of the Kraken decompressor that is still to be made: the
/// compressed bytes and the number of bytes that the call must produce. That
/// number is within the ceiling on the size of an entry.
pub struct KrakenJob {
    src: Vec<u8>,
    uncomp_size: u32,
}

/// A decompression job with its compressed bytes as a sequence.
pub struct KrakenJobView {
    pub src: Seq<u8>,
    pub uncomp_size: u32,
}

impl View for KrakenJob {
    type V = KrakenJobView;

    closed spec fn view(&self) -> KrakenJobView {
        KrakenJobView { src: self.src@, uncomp_size: self.uncomp_size }
    }
}

/// The destination buffer for an output of `uncomp_size` bytes before the
/// decompressor has run: it is zeroed and has room for the output and the
/// slack.
pub open spec fn fresh_buffer(uncomp_size: u32) -> Seq<u8> {
    Seq::new((uncomp_size + SLACK) as nat, |i: int| 0u8)
}

/// What is accepted as the output of `uncomp_size` bytes once the
/// decompressor has reported `outbytes` bytes written to `dst`: the first
/// `uncomp_size` bytes of `dst` where that is the number reported, and a
/// failure for any other number.
pub open spec fn finished(uncomp_size: u32, dst: Seq<u8>, outbytes: int) -> Result<Seq<u8>, Error> {
    if outbytes == uncomp_size && uncomp_size <= dst.len() {
        Ok(dst.take(uncomp_size as int))
    } else {
        Err(Error::DecompressionFailed)
    }
}

/// Accepts the decompressor's result only where it produced exactly the
/// `expected` number of bytes.
pub fn accept(outbytes: usize, expected: usize) -> (res: Result<usize, Error>)
    ensures
        outbytes == expected ==> res == Ok::<usize, Error>(outbytes),
        outbytes != expected ==> res == Err::<usize, Error>(Error::DecompressionFailed),
{
    if outbytes == expected {
        Ok(outbytes)
    } else {
        Err(Error::DecompressionFailed)
    }
}

impl KrakenJob {
    #[verifier::type_invariant]
    spec fn inv(&self) -> bool {
        self.uncomp_size <= MAX_SIZE
    }

    /// The job of decompressing `src` into `uncomp_size` bytes.
    pub fn new(src: Vec<u8>, uncomp_size: u32) -> (job: Self)
        requires
            uncomp_size <= MAX_SIZE,
        ensures
            job@ == (KrakenJobView { src: src@, uncomp_size }),
    {
        KrakenJob { src, uncomp_size }
    }

    /// The compressed bytes.
    pub fn src(&self) -> (src: &[u8])
        ensures
            src@ == self@.src,
    {
        self.src.as_slice()
    }

    /// The number of bytes that the decompressor must produce.
    pub fn uncomp_size(&self) -> (n: u32)
        ensures
            n == self@.uncomp_size,
            n <= MAX_SIZE,
    {
        proof {
            use_type_invariant(self);
        }
        self.uncomp_size
    }

    /// Makes the destination buffer for the decompressor. The decompressor
    /// is handed its first `uncomp_size` bytes; the rest is slack.
    pub fn buffer(&self) -> (dst: Vec<u8>)
        ensures
            dst@ == fresh_buffer(self@.uncomp_size),
    {
        proof {
            use_type_invariant(self);
        }
        let dst: Vec<u8> = vec![0u8; self.uncomp_size as usize + SLACK];
        assert(dst@ =~= fresh_buffer(self.uncomp_size));
        dst
    }

    /// Ends the job after the decompressor has reported `outbytes` bytes
    /// written to `dst`: the output without the slack, or a failure where
    /// the number is not the one that was asked for.
    pub fn finish(&self, dst: Vec<u8>, outbytes: usize) -> (res: Result<Vec<u8>, Error>)
        ensures
            match res {
                Ok(v) => finished(self@.uncomp_size, dst@, outbytes as int) == Ok::<Seq<u8>, Error>(
                    v@,
                ),
                Err(e) => finished(self@.uncomp_size, dst@, outbytes as int) == Err::<
                    Seq<u8>,
                    Error,
                >(e),
            },
    {
        let n: usize = accept(outbytes, self.uncomp_size as usize)?;
        let mut out: Vec<u8> = dst;
        if n > out.len() {
            return Err(Error::DecompressionFailed);
        }
        out.truncate(n);
        Ok(out)
    }
}

} // verus!
