//! Microphone samples turned into the mono 16-bit PCM that is written to WAV.
//!
//! Capturing from the device and writing the file is left to the caller.

use vstd::prelude::*;

verus! {

/// The sum of some samples.
pub open spec fn sample_sum(s: Seq<i16>) -> int
    decreases s.len(),
{
    if s.len() == 0 {
        0
    } else {
        sample_sum(s.drop_last()) + s.last() as int
    }
}

/// Integer division rounding toward zero, as Rust's `/` on integers does.
pub open spec fn trunc_div(a: int, b: int) -> int {
    if a >= 0 {
        a / b
    } else {
        -((-a) / b)
    }
}

/// Interleaved frames of `c` channels, each frame averaged to one sample:
/// its sum divided by `c`, rounded toward zero. A last frame shorter than
/// `c` is still divided by `c`.
pub open spec fn mono_frames(data: Seq<i16>, c: nat) -> Seq<i16>
    decreases data.len(),
{
    if data.len() == 0 || c == 0 {
        Seq::empty()
    } else {
        let k = if data.len() < c {
            data.len()
        } else {
            c
        };
        seq![trunc_div(sample_sum(data.take(k as int)), c as int) as i16] + mono_frames(
            data.skip(k as int),
            c,
        )
    }
}

/// Mono samples from interleaved ones: unchanged for zero or one channel,
/// else averaged frame by frame.
pub open spec fn mono_of(data: Seq<i16>, channels: nat) -> Seq<i16> {
    if channels <= 1 {
        data
    } else {
        mono_frames(data, channels)
    }
}

/// Appends the mono version of interleaved `i16` samples to `out`. Channel
/// counts come from the device as 16-bit values; up to 65536 channels the
/// frame sums cannot overflow.
pub fn append_mono_i16(out: &mut Vec<i16>, data: &[i16], channels: usize)
    requires
        channels <= 65536,
    ensures
        final(out)@ == old(out)@ + mono_of(data@, channels as nat),
{
    let n = data.len();
    if channels <= 1 {
        for i in 0..n
            invariant
                n == data@.len(),
                out@ == old(out)@ + data@.take(i as int),
        {
            out.push(data[i]);
            assert(data@.take(i + 1) == data@.take(i as int).push(data@[i as int]));
        }
        assert(data@.take(n as int) == data@);
        return ;
    }
    let ghost c = channels as nat;
    let mut i: usize = 0;
    assert(data@.skip(0) == data@);
    assert(old(out)@ + Seq::<i16>::empty() == old(out)@);
    while i < n
        invariant
            n == data@.len(),
            2 <= channels <= 65536,
            c == channels as nat,
            i <= n,
            old(out)@ + mono_frames(data@, c) == out@ + mono_frames(data@.skip(i as int), c),
        decreases n - i,
    {
        let end: usize = if n - i < channels {
            n
        } else {
            i + channels
        };
        let mut acc: i64 = 0;
        let mut j: usize = i;
        assert(data@.subrange(i as int, i as int) == Seq::<i16>::empty());
        while j < end
            invariant
                i <= j <= end <= n,
                n == data@.len(),
                end - i <= channels <= 65536,
                acc == sample_sum(data@.subrange(i as int, j as int)),
                -32768 * (j - i) <= acc <= 32767 * (j - i),
            decreases end - j,
        {
            assert(data@.subrange(i as int, j + 1).drop_last() == data@.subrange(i as int, j as int));
            acc = acc + data[j] as i64;
            j = j + 1;
        }
        let cc = channels as i64;
        let v: i16 = if acc >= 0 {
            assert(acc / cc <= 32767) by (nonlinear_arith)
                requires
                    0 <= acc <= 32767 * (end - i),
                    end - i <= cc,
                    cc >= 2,
            ;
            (acc / cc) as i16
        } else {
            let m = -acc;
            assert(m / cc <= 32768) by (nonlinear_arith)
                requires
                    0 <= m <= 32768 * (end - i),
                    end - i <= cc,
                    cc >= 2,
            ;
            (-(m / cc)) as i16
        };
        let ghost rest = data@.skip(i as int);
        let ghost k = (end - i) as int;
        assert(rest.take(k) == data@.subrange(i as int, end as int));
        assert(rest.skip(k) == data@.skip(end as int));
        assert(mono_frames(rest, c) == seq![v] + mono_frames(data@.skip(end as int), c));
        out.push(v);
        assert(out@ + mono_frames(data@.skip(end as int), c) == old(out)@ + mono_frames(data@, c));
        i = end;
    }
    assert(data@.skip(n as int) == Seq::<i16>::empty());
}

} // verus!
