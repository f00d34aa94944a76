use crate::window::SampleWindow;
use vstd::prelude::*;

verus! {

/// Why a window size and hop size cannot form a pipeline.
#[derive(Debug, Clone, Copy, PartialEq, Eq, Structural)]
pub enum ConfigError {
    /// The window holds no sample.
    EmptyWindow,
    /// The hop does not advance.
    ZeroHop,
    /// The hop is longer than the window, so samples would be skipped.
    HopExceedsWindow,
}

/// A window size and a hop size that a pipeline accepts: `1 <= hop <= window`.
pub open spec fn valid_shape(window: nat, hop: nat) -> bool {
    1 <= hop <= window
}

/// The error that `new` reports for a window size and hop size, if any.
pub open spec fn shape_error(window: nat, hop: nat) -> Option<ConfigError> {
    if window == 0 {
        Some(ConfigError::EmptyWindow)
    } else if hop == 0 {
        Some(ConfigError::ZeroHop)
    } else if hop > window {
        Some(ConfigError::HopExceedsWindow)
    } else {
        None
    }
}

/// How many frames a stream of `n` samples holds: frame `k` starts at
/// sample `k * hop`, and only whole frames count.
pub open spec fn column_count(window: nat, hop: nat, n: nat) -> nat {
    if n < window || hop == 0 {
        0
    } else {
        ((n - window) as nat / hop) + 1
    }
}

/// Frame `k` of `stream`: the `window` samples from `k * hop` on.
pub open spec fn frame_at<T>(stream: Seq<T>, window: nat, hop: nat, k: nat) -> Seq<T> {
    stream.subrange((k * hop) as int, (k * hop + window) as int)
}

/// Every whole frame of `stream`, in temporal order.
pub open spec fn frames<T>(stream: Seq<T>, window: nat, hop: nat) -> Seq<Seq<T>> {
    Seq::new(
        column_count(window, hop, stream.len()),
        |k: int| frame_at(stream, window, hop, k as nat),
    )
}

/// The frames that a chunk completes when it arrives after `before`.
pub open spec fn emitted<T>(window: nat, hop: nat, before: Seq<T>, chunk: Seq<T>) -> Seq<Seq<T>> {
    frames(before + chunk, window, hop).subrange(
        column_count(window, hop, before.len()) as int,
        column_count(window, hop, (before + chunk).len()) as int,
    )
}

/// The number of output bins of a real transform of `window` samples.
pub open spec fn spectrum_len(window: nat) -> nat {
    window / 2 + 1
}

/// `c` frames fit into `n` samples exactly when the `c`-th starts early enough.
proof fn lemma_count_bound(window: nat, hop: nat, n: nat, c: nat)
    requires
        valid_shape(window, hop),
    ensures
        c < column_count(window, hop, n) <==> c * hop + window <= n,
        column_count(window, hop, n) * hop <= n,
{
    if n >= window {
        let d = (n - window) as nat;
        let x = d / hop;
        let r = d % hop;
        assert(d == x * hop + r && r < hop) by {
            vstd::arithmetic::div_mod::lemma_fundamental_div_mod(d as int, hop as int);
        }
        assert(c < x + 1 <==> c * hop <= d) by (nonlinear_arith)
            requires
                d == x * hop + r,
                0 <= r < hop,
        ;
        assert((x + 1) * hop <= n) by (nonlinear_arith)
            requires
                d == x * hop + r,
                0 <= r,
                hop <= window,
                n == d + window,
        ;
    } else {
        assert(c * hop >= 0) by (nonlinear_arith);
    }
}

/// The frames emitted by a run of `ingest` calls, one call per chunk, on a
/// pipeline that has already seen `before`.
pub open spec fn emitted_over<T>(
    window: nat,
    hop: nat,
    before: Seq<T>,
    chunks: Seq<Seq<T>>,
) -> Seq<Seq<T>>
    decreases chunks.len(),
{
    if chunks.len() == 0 {
        Seq::empty()
    } else {
        emitted(window, hop, before, chunks[0]) + emitted_over(
            window,
            hop,
            before + chunks[0],
            chunks.drop_first(),
        )
    }
}

/// More samples never take a frame away, and the frames already there keep
/// their contents.
proof fn lemma_frames_extend<T>(window: nat, hop: nat, s: Seq<T>, t: Seq<T>)
    requires
        valid_shape(window, hop),
    ensures
        column_count(window, hop, s.len()) <= column_count(window, hop, (s + t).len()),
        frames(s + t, window, hop).subrange(0, column_count(window, hop, s.len()) as int)
            == frames(s, window, hop),
{
    let c = column_count(window, hop, s.len());
    if c > 0 {
        lemma_count_bound(window, hop, s.len(), (c - 1) as nat);
        lemma_count_bound(window, hop, (s + t).len(), (c - 1) as nat);
    }
    assert forall|k: int| 0 <= k < c implies #[trigger] frames(s + t, window, hop)[k] == frames(
        s,
        window,
        hop,
    )[k] by {
        lemma_count_bound(window, hop, s.len(), k as nat);
        assert(frame_at(s + t, window, hop, k as nat) =~= frame_at(s, window, hop, k as nat));
    }
    assert(frames(s + t, window, hop).subrange(0, c as int) =~= frames(s, window, hop));
}

/// Feeding `chunks` one by one after `before` emits the frames of the whole
/// stream that `before` had not completed.
proof fn lemma_emitted_over_frames<T>(window: nat, hop: nat, before: Seq<T>, chunks: Seq<Seq<T>>)
    requires
        valid_shape(window, hop),
    ensures
        emitted_over(window, hop, before, chunks) == frames(
            before + chunks.flatten(),
            window,
            hop,
        ).subrange(
            column_count(window, hop, before.len()) as int,
            column_count(window, hop, (before + chunks.flatten()).len()) as int,
        ),
    decreases chunks.len(),
{
    let all = before + chunks.flatten();
    let cb = column_count(window, hop, before.len());
    let ca = column_count(window, hop, all.len());
    if chunks.len() == 0 {
        assert(all =~= before);
        assert(frames(all, window, hop).subrange(cb as int, ca as int) =~= Seq::<Seq<T>>::empty());
    } else {
        let first = before + chunks[0];
        let rest = chunks.drop_first();
        assert(all =~= first + rest.flatten());
        lemma_emitted_over_frames(window, hop, first, rest);
        lemma_frames_extend(window, hop, before, chunks[0]);
        lemma_frames_extend(window, hop, first, rest.flatten());
        let cf = column_count(window, hop, first.len());
        let fa = frames(all, window, hop);
        let ff = frames(first, window, hop);
        assert(ff.subrange(cb as int, cf as int) =~= fa.subrange(cb as int, cf as int)) by {
            assert(fa.subrange(0, cf as int) == ff);
        }
        assert(fa.subrange(cb as int, cf as int) + fa.subrange(cf as int, ca as int) =~= fa.subrange(
            cb as int,
            ca as int,
        ));
    }
}

/// Chunk-size independence: cutting one stream into chunks in any way and
/// feeding them to `ingest` one by one emits the same frames, namely every
/// whole frame of the stream, in order.
pub proof fn lemma_chunking_invariance<T>(
    window: nat,
    hop: nat,
    chunks_a: Seq<Seq<T>>,
    chunks_b: Seq<Seq<T>>,
)
    requires
        valid_shape(window, hop),
        chunks_a.flatten() == chunks_b.flatten(),
    ensures
        emitted_over(window, hop, Seq::empty(), chunks_a) == frames(chunks_a.flatten(), window, hop),
        emitted_over(window, hop, Seq::empty(), chunks_a) == emitted_over(
            window,
            hop,
            Seq::empty(),
            chunks_b,
        ),
{
    lemma_emitted_over_frames(window, hop, Seq::<T>::empty(), chunks_a);
    lemma_emitted_over_frames(window, hop, Seq::<T>::empty(), chunks_b);
    assert(Seq::<T>::empty() + chunks_a.flatten() =~= chunks_a.flatten());
    assert(Seq::<T>::empty() + chunks_b.flatten() =~= chunks_b.flatten());
    let f = frames(chunks_a.flatten(), window, hop);
    assert(f.subrange(0, f.len() as int) =~= f);
}

/// Without overlap (`hop == window`) a stream of `n` samples gives one frame
/// per whole window, and each frame starts where the one before it ends.
pub proof fn lemma_no_overlap(window: nat, n: nat)
    requires
        window >= 1,
    ensures
        column_count(window, window, n) == n / window,
        forall|k: nat| (k + 1) * window == #[trigger] (k * window) + window,
{
    assert forall|k: nat| (k + 1) * window == #[trigger] (k * window) + window by {
        assert((k + 1) * window == k * window + window) by (nonlinear_arith);
    }
    if n >= window {
        let d = (n - window) as nat;
        vstd::arithmetic::div_mod::lemma_fundamental_div_mod(d as int, window as int);
        vstd::arithmetic::div_mod::lemma_mod_bound(d as int, window as int);
        vstd::arithmetic::div_mod::lemma_fundamental_div_mod(n as int, window as int);
        let q = d / window;
        let r = d % window;
        assert(n == (q + 1) * window + r) by (nonlinear_arith)
            requires
                d == window * q + r,
                n == d + window,
        ;
        assert(n / window == q + 1) by {
            vstd::arithmetic::div_mod::lemma_fundamental_div_mod_converse(
                n as int,
                window as int,
                (q + 1) as int,
                r as int,
            );
        }
    } else {
        vstd::arithmetic::div_mod::lemma_basic_div(n as int, window as int);
    }
}

/// In steady state every further hop of samples completes exactly one more frame.
pub proof fn lemma_one_column_per_hop(window: nat, hop: nat, n: nat)
    requires
        valid_shape(window, hop),
        n >= window,
    ensures
        column_count(window, hop, n + hop) == column_count(window, hop, n) + 1,
{
    let d = (n - window) as nat;
    assert((d + hop) / hop == d / hop + 1) by {
        vstd::arithmetic::div_mod::lemma_div_plus_one(d as int, hop as int);
    }
}

/// Overlap multiplies the frame rate by `window / hop`: where the hop divides
/// the window, `k` windows' worth of samples give `k` frames without overlap
/// and `(k - 1) * (window / hop) + 1` frames with it.
pub proof fn lemma_overlap_ratio(window: nat, hop: nat, k: nat)
    requires
        valid_shape(window, hop),
        window % hop == 0,
        k >= 1,
    ensures
        column_count(window, window, k * window) == k,
        column_count(window, hop, k * window) == (k - 1) * (window / hop) + 1,
{
    let q = window / hop;
    vstd::arithmetic::div_mod::lemma_fundamental_div_mod(window as int, hop as int);
    assert(window == hop * q);
    assert(window == q * hop) by (nonlinear_arith)
        requires
            window == hop * q,
    ;
    assert(k * window >= window) by (nonlinear_arith)
        requires
            k >= 1,
    ;
    let d = (k * window - window) as nat;
    assert(d == ((k - 1) * q) * hop) by (nonlinear_arith)
        requires
            d == k * window - window,
            window == q * hop,
            k >= 1,
    ;
    assert(d / hop == (k - 1) * q) by {
        vstd::arithmetic::div_mod::lemma_div_by_multiple(((k - 1) * q) as int, hop as int);
    }
    lemma_no_overlap(window, k * window);
    assert((k * window) / window == k) by {
        vstd::arithmetic::div_mod::lemma_div_by_multiple(k as int, window as int);
    }
}

/// The streaming transform's front end: accepts sample chunks of any length
/// and hands out each frame as soon as its last sample has arrived.
///
/// Nothing is emitted until `window_size` samples have been seen; from then on
/// one frame follows every `hop_size` new samples. Samples beyond a whole hop
/// carry over to the next call.
pub struct StreamingStft<T> {
    window_size: usize,
    hop_size: usize,
    pending: SampleWindow<T>,
    stream: Ghost<Seq<T>>,
}

impl<T: Copy> StreamingStft<T> {
    /// Samples per frame.
    pub closed spec fn window(&self) -> nat {
        self.window_size as nat
    }

    /// Samples between the starts of consecutive frames.
    pub closed spec fn hop(&self) -> nat {
        self.hop_size as nat
    }

    /// Every sample ingested so far, in order.
    pub closed spec fn stream(&self) -> Seq<T> {
        self.stream@
    }

    /// The frames emitted so far.
    pub open spec fn emitted_so_far(&self) -> Seq<Seq<T>> {
        frames(self.stream(), self.window(), self.hop())
    }

    /// The buffer holds exactly the samples from the start of the next frame on.
    pub closed spec fn wf(&self) -> bool {
        &&& valid_shape(self.window(), self.hop())
        &&& self.pending@ == self.stream@.subrange(
            (column_count(self.window(), self.hop(), self.stream@.len()) * self.hop()) as int,
            self.stream@.len() as int,
        )
    }

    /// A pipeline with the given frame geometry, in the priming state.
    pub fn new(window_size: usize, hop_size: usize) -> (r: Result<Self, ConfigError>)
        ensures
            match r {
                Ok(s) => {
                    &&& shape_error(window_size as nat, hop_size as nat) is None
                    &&& s.wf()
                    &&& s.window() == window_size
                    &&& s.hop() == hop_size
                    &&& s.stream() == Seq::<T>::empty()
                },
                Err(e) => shape_error(window_size as nat, hop_size as nat) == Some(e),
            },
    {
        if window_size == 0 {
            Err(ConfigError::EmptyWindow)
        } else if hop_size == 0 {
            Err(ConfigError::ZeroHop)
        } else if hop_size > window_size {
            Err(ConfigError::HopExceedsWindow)
        } else {
            let s = StreamingStft {
                window_size,
                hop_size,
                pending: SampleWindow::new(),
                stream: Ghost(Seq::empty()),
            };
            assert(column_count(s.window(), s.hop(), s.stream@.len()) == 0);
            assert(s.pending@ =~= s.stream@.subrange(0, 0));
            assert(s.wf());
            Ok(s)
        }
    }

    /// Feeds a chunk of samples and returns the frames it completes, oldest
    /// first; each frame is the raw input to one spectral column.
    ///
    /// A chunk may be shorter or longer than a hop: the frames returned are
    /// those of the whole stream so far that were not returned before.
    pub fn ingest(&mut self, new_samples: &[T]) -> (r: Vec<Vec<T>>)
        requires
            old(self).wf(),
        ensures
            final(self).wf(),
            final(self).window() == old(self).window(),
            final(self).hop() == old(self).hop(),
            final(self).stream() == old(self).stream() + new_samples@,
            r@.map_values(|f: Vec<T>| f@) == emitted(
                old(self).window(),
                old(self).hop(),
                old(self).stream(),
                new_samples@,
            ),
            final(self).emitted_so_far() == old(self).emitted_so_far() + r@.map_values(
                |f: Vec<T>| f@,
            ),
    {
        let ghost w = self.window();
        let ghost h = self.hop();
        let ghost before = self.stream@;
        let ghost whole = before + new_samples@;
        let ghost c0 = column_count(w, h, before.len());
        let ghost total = column_count(w, h, whole.len());
        proof {
            lemma_count_bound(w, h, before.len(), c0);
            lemma_count_bound(w, h, whole.len(), c0);
            assert(c0 <= total) by {
                if c0 > 0 {
                    lemma_count_bound(w, h, before.len(), (c0 - 1) as nat);
                    lemma_count_bound(w, h, whole.len(), (c0 - 1) as nat);
                }
            }
        }
        self.pending.append(new_samples);
        self.stream = Ghost(whole);
        assert(self.pending@ =~= whole.subrange((c0 * h) as int, whole.len() as int));
        assert(c0 * h <= before.len());
        let mut out: Vec<Vec<T>> = Vec::new();
        while self.pending.len() >= self.window_size
            invariant
                self.window() == w,
                self.hop() == h,
                valid_shape(w, h),
                self.stream@ == whole,
                total == column_count(w, h, whole.len()),
                c0 <= c0 + out@.len() <= total,
                (c0 + out@.len()) * h <= whole.len(),
                self.pending@ == whole.subrange(((c0 + out@.len()) * h) as int, whole.len() as int),
                out@.map_values(|f: Vec<T>| f@) == frames(whole, w, h).subrange(
                    c0 as int,
                    (c0 + out@.len()) as int,
                ),
            decreases whole.len() - (c0 + out@.len()) * h,
        {
            let ghost c = (c0 + out@.len()) as nat;
            proof {
                lemma_count_bound(w, h, whole.len(), c);
            }
            let frame = self.pending.snapshot(self.window_size);
            assert(c * h + w <= whole.len());
            assert(frame@ =~= frame_at(whole, w, h, c));
            self.pending.discard(self.hop_size);
            out.push(frame);
            assert((c + 1) * h == c * h + h) by (nonlinear_arith);
            assert(self.pending@ =~= whole.subrange(((c + 1) * h) as int, whole.len() as int));
            assert(out@.map_values(|f: Vec<T>| f@) =~= frames(whole, w, h).subrange(
                c0 as int,
                c + 1 as int,
            ));
        }
        proof {
            let c = (c0 + out@.len()) as nat;
            lemma_count_bound(w, h, whole.len(), c);
            lemma_frames_extend(w, h, before, new_samples@);
            let f = frames(whole, w, h);
            assert(f =~= f.subrange(0, c0 as int) + f.subrange(c0 as int, total as int));
        }
        out
    }

    /// Samples per frame.
    pub fn window_size(&self) -> (r: usize)
        ensures
            r == self.window(),
    {
        self.window_size
    }

    /// Samples between the starts of consecutive frames.
    pub fn hop_size(&self) -> (r: usize)
        ensures
            r == self.hop(),
    {
        self.hop_size
    }

    /// Length of the spectral column computed from one frame.
    pub fn output_size(&self) -> (r: usize)
        ensures
            r == spectrum_len(self.window()),
    {
        self.window_size / 2 + 1
    }
}

} // verus!
