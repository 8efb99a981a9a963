use vstd::prelude::*;

verus! {

/// A sink for 8 kHz mono signed 16-bit samples.  Implementations live
/// outside the library; the chunking adapter below feeds them fixed-size
/// windows.
pub trait AudioReceiver: Sized {
    type Output;

    type Error;

    fn push_samples(&mut self, samples: &Vec<i16>) -> Result<(), Self::Error>;

    fn finish(self) -> Result<Self::Output, Self::Error>;
}

/// Detailed progress reporting for long-running decoding work.
pub trait ProgressHandler: Sized {
    fn init(&mut self, steps: i64);

    fn inc(&mut self);

    fn finish(&mut self);
}

/// Failures of the library-backed audio decoder.
#[derive(Clone, PartialEq, Eq, Debug)]
pub enum DecoderErrorKind {
    Decode,
    Init,
    NoAudioStream,
    OpenFile(String),
    Receiver,
    ResamplerInit,
}

/// Buffers incoming samples into fixed-size windows and hands each full
/// window to the next receiver.
pub struct ChunkedAudioReceiver<R: AudioReceiver> {
    pub buffer: Vec<i16>,
    pub filled: usize,
    pub next: R,
}

impl<R: AudioReceiver> ChunkedAudioReceiver<R> {
    /// The window is never completely filled between calls.
    pub open spec fn wf(self) -> bool {
        self.filled < self.buffer@.len()
    }

    pub fn new(size: usize, next: R) -> (r: ChunkedAudioReceiver<R>)
        requires
            size > 0,
        ensures
            r.buffer@.len() == size,
            r.filled == 0,
            r.wf(),
    {
        let mut buffer: Vec<i16> = Vec::new();
        let mut i: usize = 0;
        while i < size
            invariant
                0 <= i <= size,
                buffer@.len() == i,
            decreases size - i,
        {
            buffer.push(0);
            i = i + 1;
        }
        ChunkedAudioReceiver { buffer, filled: 0, next }
    }
}

impl<R: AudioReceiver> AudioReceiver for ChunkedAudioReceiver<R> {
    type Output = R::Output;

    type Error = R::Error;

    /// Copies the incoming samples into the window, flushing every time it
    /// fills up.  The window keeps its length, the fill count advances by
    /// the pushed samples modulo the window, and the call can fail only
    /// where a full window was handed to the inner receiver.
    fn push_samples(&mut self, samples: &Vec<i16>) -> (r: Result<(), R::Error>)
        ensures
            final(self).buffer@.len() == old(self).buffer@.len(),
            old(self).wf() ==> final(self).wf(),
            old(self).wf() && r is Ok ==> final(self).filled == (old(self).filled
                + samples@.len() as int) % (old(self).buffer@.len() as int),
            old(self).wf() && r is Err ==> final(self).filled == 0,
            old(self).wf() && old(self).filled + samples@.len() < old(self).buffer@.len()
                ==> r is Ok,
    {
        let n: usize = samples.len();
        let size: usize = self.buffer.len();
        if size == 0 || self.filled >= size {
            return Ok(());
        }
        let mut consumed: usize = 0;
        let ghost mut flushed: int = 0;
        while consumed < n
            invariant
                n == samples@.len(),
                size == self.buffer@.len(),
                size == old(self).buffer@.len(),
                size > 0,
                0 <= consumed <= n,
                self.filled < size,
                flushed >= 0,
                old(self).filled + consumed == flushed * size + self.filled,
            decreases n - consumed,
        {
            let take: usize = if size - self.filled < n - consumed {
                size - self.filled
            } else {
                n - consumed
            };
            let mut k: usize = 0;
            while k < take
                invariant
                    n == samples@.len(),
                    size == self.buffer@.len(),
                    size == old(self).buffer@.len(),
                    size > 0,
                    0 <= k <= take,
                    take <= n - consumed,
                    take <= size - self.filled,
                    0 <= consumed <= n,
                    self.filled < size,
                    flushed >= 0,
                    old(self).filled + consumed == flushed * size + self.filled,
                decreases take - k,
            {
                let sample: i16 = samples[consumed + k];
                self.buffer.set(self.filled + k, sample);
                k = k + 1;
            }
            consumed = consumed + take;
            if self.filled + take == size {
                let result = self.next.push_samples(&self.buffer);
                if let Err(e) = result {
                    proof {
                        // A flush only happens once a whole window's worth
                        // arrived, so failing here never breaks the
                        // success-owed clause.
                        let before: int = old(self).filled as int;
                        assert(before + n >= size) by (nonlinear_arith)
                            requires
                                before + consumed == flushed * size + size,
                                flushed >= 0,
                                size > 0,
                                consumed <= n;
                    }
                    self.filled = 0;
                    return Err(e);
                }
                self.filled = 0;
                proof {
                    flushed = flushed + 1;
                    assert(flushed * size == (flushed - 1) * size + size) by (nonlinear_arith);
                }
            } else {
                self.filled = self.filled + take;
            }
        }
        proof {
            vstd::arithmetic::div_mod::lemma_fundamental_div_mod_converse(
                old(self).filled + n, size as int, flushed, self.filled as int);
        }
        Ok(())
    }

    /// Flushes the buffered partial window to the inner receiver, then
    /// completes it.
    fn finish(self) -> (r: Result<R::Output, R::Error>) {
        let mut this = self;
        let m: usize = if this.filled < this.buffer.len() {
            this.filled
        } else {
            this.buffer.len()
        };
        if m > 0 {
            let mut prefix: Vec<i16> = Vec::new();
            let mut k: usize = 0;
            while k < m
                invariant
                    m <= this.buffer@.len(),
                    0 <= k <= m,
                    prefix@.len() == k,
                decreases m - k,
            {
                let sample: i16 = this.buffer[k];
                prefix.push(sample);
                k = k + 1;
            }
            let result = this.next.push_samples(&prefix);
            if let Err(e) = result {
                return Err(e);
            }
        }
        this.next.finish()
    }
}

/// The signed 16-bit value encoded by two little-endian bytes.
pub open spec fn le16(lo: u8, hi: u8) -> int {
    if (hi as int) * 256 + lo < 32768 {
        (hi as int) * 256 + lo
    } else {
        (hi as int) * 256 + lo - 65536
    }
}

/// Decodes one sample from its two little-endian bytes.
pub fn sample_from_le(lo: u8, hi: u8) -> (r: i16)
    ensures
        r as int == le16(lo, hi),
{
    let w: u16 = (hi as u16) * 256 + (lo as u16);
    proof {
        assert(w as i16 as int == le16(lo, hi)) by (bit_vector)
            requires
                w == (hi as u16) * 256 + (lo as u16);
    }
    w as i16
}

/// Assembles raw little-endian bytes into samples, carrying at most one
/// pending byte between reads: the result holds one sample for each byte
/// pair, and the leftover byte if the input ends mid-sample.
pub fn assemble_samples(pending: Option<u8>, bytes: &Vec<u8>) -> (r: (Vec<i16>, Option<u8>))
    ensures
        ({
            let stream = if pending is Some {
                seq![pending->Some_0] + bytes@
            } else {
                bytes@
            };
            &&& r.0@.len() == stream.len() / 2
            &&& forall|k: int|
                0 <= k < r.0@.len() ==> (#[trigger] r.0@[k]) as int == le16(
                    stream[2 * k], stream[2 * k + 1])
            &&& (stream.len() % 2 == 1 ==> r.1 == Some(stream[stream.len() - 1]))
            &&& (stream.len() % 2 == 0 ==> r.1 is None)
        }),
{
    let ghost stream: Seq<u8> = if pending is Some {
        seq![pending->Some_0] + bytes@
    } else {
        bytes@
    };
    let mut out: Vec<i16> = Vec::new();
    let n: usize = bytes.len();
    let mut i: usize = 0;
    let mut carry: Option<u8> = pending;
    proof {
        assert(stream.len() == bytes@.len() + if pending is Some { 1int } else { 0int });
    }
    while i < n
        invariant
            n == bytes@.len(),
            0 <= i <= n,
            stream == if pending is Some {
                seq![pending->Some_0] + bytes@
            } else {
                bytes@
            },
            ({
                let done: int = i + if pending is Some {
                    1int
                } else {
                    0int
                };
                &&& done == 2 * out@.len() + if carry is Some {
                    1int
                } else {
                    0int
                }
                &&& (carry is Some ==> carry->Some_0 == stream[done - 1])
                &&& forall|k: int|
                    0 <= k < out@.len() ==> (#[trigger] out@[k]) as int == le16(
                        stream[2 * k], stream[2 * k + 1])
            }),
        decreases n - i,
    {
        let b: u8 = bytes[i];
        proof {
            let done: int = i + if pending is Some {
                1int
            } else {
                0int
            };
            assert(stream[done] == bytes@[i as int]);
        }
        match carry {
            Some(lo) => {
                let s: i16 = sample_from_le(lo, b);
                out.push(s);
                carry = None;
            },
            None => {
                carry = Some(b);
            },
        }
        i = i + 1;
    }
    proof {
        assert(stream.len() == 2 * out@.len() + if carry is Some { 1int } else { 0int });
    }
    (out, carry)
}

} // verus!
