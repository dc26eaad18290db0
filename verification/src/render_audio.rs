//! The byte layout of the rendered `.wav` file and the choice of angle bins
//! that fill empty ones in the averaged exhaust cycle.
use vstd::prelude::*;

verus! {

/// Little-endian bytes of a 16-bit value.
pub open spec fn le16(v: int) -> Seq<u8> {
    seq![(v % 256) as u8, ((v / 256) % 256) as u8]
}

/// Little-endian bytes of a 32-bit value.
pub open spec fn le32(v: int) -> Seq<u8> {
    seq![
        (v % 256) as u8,
        ((v / 256) % 256) as u8,
        ((v / 65536) % 256) as u8,
        ((v / 16777216) % 256) as u8,
    ]
}

/// Little-endian two's-complement bytes of one sample.
pub open spec fn sample_bytes(s: i16) -> Seq<u8> {
    le16(
        if s < 0 {
            s + 65536
        } else {
            s as int
        },
    )
}

/// The bytes of all samples, one after another.
pub open spec fn samples_bytes(samples: Seq<i16>) -> Seq<u8>
    decreases samples.len(),
{
    if samples.len() == 0 {
        Seq::empty()
    } else {
        samples_bytes(samples.drop_last()) + sample_bytes(samples.last())
    }
}

/// The 44-byte header of a 16-bit mono PCM WAV file holding `n` samples.
pub open spec fn wav_header(sample_rate: int, n: int) -> Seq<u8> {
    seq![82u8, 73, 70, 70] + le32(36 + 2 * n) + seq![87u8, 65, 86, 69] + seq![102u8, 109, 116, 32]
        + le32(16) + le16(1) + le16(1) + le32(sample_rate) + le32(2 * sample_rate) + le16(2) + le16(
        16,
    ) + seq![100u8, 97, 116, 97] + le32(2 * n)
}

/// The whole file: header, then the samples.
pub open spec fn wav_bytes(sample_rate: int, samples: Seq<i16>) -> Seq<u8> {
    wav_header(sample_rate, samples.len() as int) + samples_bytes(samples)
}

fn push_le16(out: &mut Vec<u8>, v: u32)
    requires
        v < 65536,
    ensures
        final(out)@ == old(out)@ + le16(v as int),
{
    out.push((v % 256) as u8);
    out.push(((v / 256) % 256) as u8);
    assert(final(out)@ =~= old(out)@ + le16(v as int));
}

fn push_le32(out: &mut Vec<u8>, v: u32)
    ensures
        final(out)@ == old(out)@ + le32(v as int),
{
    out.push((v % 256) as u8);
    out.push(((v / 256) % 256) as u8);
    out.push(((v / 65536) % 256) as u8);
    out.push(((v / 16777216) % 256) as u8);
    assert(final(out)@ =~= old(out)@ + le32(v as int));
}

fn push_tag(out: &mut Vec<u8>, a: u8, b: u8, c: u8, d: u8)
    ensures
        final(out)@ == old(out)@ + seq![a, b, c, d],
{
    out.push(a);
    out.push(b);
    out.push(c);
    out.push(d);
    assert(final(out)@ =~= old(out)@ + seq![a, b, c, d]);
}

/// The bytes of a 16-bit mono PCM WAV file with the given sample rate and
/// samples. A WAV file states its sizes in 32 bits, so the samples and the byte
/// rate must fit that.
pub fn wav_mono_i16_bytes(sample_rate: u32, samples: &[i16]) -> (r: Vec<u8>)
    requires
        36 + 2 * samples.len() <= u32::MAX,
        2 * sample_rate <= u32::MAX,
    ensures
        r@ == wav_bytes(sample_rate as int, samples@),
{
    let n = samples.len();
    let data_len: u32 = (n * 2) as u32;
    let byte_rate: u32 = sample_rate * 2;
    let mut out: Vec<u8> = Vec::new();
    push_tag(&mut out, 82, 73, 70, 70);
    push_le32(&mut out, 36 + data_len);
    push_tag(&mut out, 87, 65, 86, 69);
    push_tag(&mut out, 102, 109, 116, 32);
    push_le32(&mut out, 16);
    push_le16(&mut out, 1);
    push_le16(&mut out, 1);
    push_le32(&mut out, sample_rate);
    push_le32(&mut out, byte_rate);
    push_le16(&mut out, 2);
    push_le16(&mut out, 16);
    push_tag(&mut out, 100, 97, 116, 97);
    push_le32(&mut out, data_len);
    let ghost header = out@;
    assert(header =~= wav_header(sample_rate as int, n as int));
    let mut i: usize = 0;
    while i < n
        invariant
            n == samples@.len(),
            i <= n,
            header == wav_header(sample_rate as int, n as int),
            out@ == header + samples_bytes(samples@.subrange(0, i as int)),
        decreases n - i,
    {
        let s = samples[i];
        let u: u32 = if s < 0 {
            (s as i32 + 65536) as u32
        } else {
            s as u32
        };
        push_le16(&mut out, u);
        proof {
            let prefix = samples@.subrange(0, i + 1);
            assert(prefix.drop_last() =~= samples@.subrange(0, i as int));
            assert(prefix.last() == s);
            assert(samples_bytes(prefix) == samples_bytes(samples@.subrange(0, i as int))
                + sample_bytes(s));
            assert(out@ =~= header + samples_bytes(prefix));
        }
        i += 1;
    }
    assert(samples@.subrange(0, n as int) =~= samples@);
    out
}

/// The sample bytes take two bytes per sample.
pub proof fn lemma_samples_bytes_len(samples: Seq<i16>)
    ensures
        samples_bytes(samples).len() == 2 * samples.len(),
    decreases samples.len(),
{
    if samples.len() > 0 {
        lemma_samples_bytes_len(samples.drop_last());
    }
}

/// The sizes a WAV file states agree with its length: the RIFF chunk size is
/// the file length less eight, and the data chunk size is the file length less
/// the 44-byte header.
pub proof fn lemma_wav_sizes_agree(sample_rate: int, samples: Seq<i16>)
    ensures
        wav_bytes(sample_rate, samples).len() == 44 + 2 * samples.len(),
        wav_bytes(sample_rate, samples).subrange(4, 8) == le32(
            wav_bytes(sample_rate, samples).len() - 8,
        ),
        wav_bytes(sample_rate, samples).subrange(40, 44) == le32(
            wav_bytes(sample_rate, samples).len() - 44,
        ),
{
    lemma_samples_bytes_len(samples);
    let w = wav_bytes(sample_rate, samples);
    let n = samples.len() as int;
    assert(wav_header(sample_rate, n).len() == 44);
    assert(w.subrange(4, 8) =~= le32(36 + 2 * n));
    assert(w.subrange(40, 44) =~= le32(2 * n));
}

/// The bin `offset` steps after `index`, going round the cycle.
pub open spec fn forward_bin(bins: int, index: int, offset: int) -> int {
    (index + offset) % bins
}

/// The bin `offset` steps before `index`, going round the cycle.
pub open spec fn backward_bin(bins: int, index: int, offset: int) -> int {
    (index + bins - offset % bins) % bins
}

/// The `k`-th bin the search looks at: one step forward, one step back, two
/// steps forward, two steps back, and so on.
pub open spec fn probe_bin(bins: int, index: int, k: int) -> int {
    if k % 2 == 0 {
        forward_bin(bins, index, k / 2 + 1)
    } else {
        backward_bin(bins, index, k / 2 + 1)
    }
}

/// How many bins the search looks at: both directions, up to half the cycle and one more.
pub open spec fn probe_count(bins: int) -> int {
    2 * (bins / 2 + 1)
}

/// The first populated bin the search reaches from its `k`-th look on.
pub open spec fn first_populated_from(count: Seq<u64>, index: int, k: int) -> Option<int>
    decreases probe_count(count.len() as int) - k,
{
    if k < 0 || k >= probe_count(count.len() as int) {
        None
    } else if count[probe_bin(count.len() as int, index, k)] > 0 {
        Some(probe_bin(count.len() as int, index, k))
    } else {
        first_populated_from(count, index, k + 1)
    }
}

/// The optional index as a mathematical integer.
pub open spec fn opt_int(o: Option<usize>) -> Option<int> {
    match o {
        Some(i) => Some(i as int),
        None => None,
    }
}

/// The nearest populated bin to `index`, searching circularly (since the cycle
/// wraps): one bin forward, one back, two forward, and so on.
pub fn nearest_populated(count: &[u64], index: usize) -> (r: Option<usize>)
    requires
        0 < count.len() <= usize::MAX / 2,
        index < count.len(),
    ensures
        opt_int(r) == first_populated_from(count@, index as int, 0),
{
    let bins = count.len();
    let mut offset: usize = 1;
    while offset <= bins / 2 + 1
        invariant
            bins == count@.len(),
            0 < bins <= usize::MAX / 2,
            index < bins,
            1 <= offset <= bins / 2 + 2,
            first_populated_from(count@, index as int, 2 * (offset - 1)) == first_populated_from(
                count@,
                index as int,
                0,
            ),
        decreases bins / 2 + 2 - offset,
    {
        let k = 2 * (offset - 1);
        assert(k % 2 == 0 && k / 2 + 1 == offset);
        assert((k + 1) % 2 == 1 && (k + 1) / 2 + 1 == offset);
        let ghost c = count@;
        let forward = (index + offset) % bins;
        assert(probe_bin(bins as int, index as int, k as int) == forward);
        assert(k < probe_count(bins as int));
        if count[forward] > 0 {
            return Some(forward);
        }
        assert(first_populated_from(c, index as int, k as int) == first_populated_from(
            c,
            index as int,
            k + 1,
        ));
        let backward = (index + bins - offset % bins) % bins;
        assert(probe_bin(bins as int, index as int, k + 1) == backward);
        assert(k + 1 < probe_count(bins as int));
        if count[backward] > 0 {
            return Some(backward);
        }
        assert(first_populated_from(c, index as int, k + 1) == first_populated_from(
            c,
            index as int,
            k + 2,
        ));
        offset += 1;
    }
    None
}

/// True when some bin holds samples.
pub open spec fn any_populated(count: Seq<u64>) -> bool {
    exists|j: int| 0 <= j < count.len() && count[j] > 0
}

/// The bin whose average fills bin `index`: itself when it holds samples,
/// otherwise the nearest populated bin; none when no bin holds samples.
pub open spec fn fill_source(count: Seq<u64>, index: int) -> Option<int> {
    if !any_populated(count) {
        None
    } else if count[index] > 0 {
        Some(index)
    } else {
        first_populated_from(count, index, 0)
    }
}

/// For every bin, the bin whose average it takes when the cycle is averaged.
pub fn fill_sources(count: &[u64]) -> (r: Vec<Option<usize>>)
    requires
        count.len() <= usize::MAX / 2,
    ensures
        r.len() == count.len(),
        forall|i: int| 0 <= i < r.len() ==> opt_int(#[trigger] r[i]) == fill_source(count@, i),
        any_populated(count@) ==> forall|i: int|
            0 <= i < r.len() ==> (#[trigger] r[i] matches Some(b) && b < count.len() && count@[b as int]
                > 0),
{
    let bins = count.len();
    let mut any = false;
    let mut j: usize = 0;
    while j < bins
        invariant
            bins == count@.len(),
            j <= bins,
            any == exists|m: int| 0 <= m < j && count@[m] > 0,
        decreases bins - j,
    {
        if count[j] > 0 {
            any = true;
        }
        j += 1;
    }
    let mut sources: Vec<Option<usize>> = Vec::new();
    let mut i: usize = 0;
    while i < bins
        invariant
            bins == count@.len() <= usize::MAX / 2,
            i <= bins,
            any == any_populated(count@),
            sources.len() == i,
            forall|m: int| 0 <= m < i ==> opt_int(#[trigger] sources[m]) == fill_source(count@, m),
            any ==> forall|m: int|
                0 <= m < i ==> (#[trigger] sources[m] matches Some(b) && b < bins && count@[b as int]
                    > 0),
        decreases bins - i,
    {
        if !any {
            sources.push(None);
        } else if count[i] > 0 {
            sources.push(Some(i));
        } else {
            proof {
                let w = choose|w: int| 0 <= w < count@.len() && count@[w] > 0;
                assert(w != i);
                lemma_nearest_populated_is_nearest(count@, i as int);
            }
            sources.push(nearest_populated(count, i));
        }
        i += 1;
    }
    sources
}

/// Every bin takes a populated bin, when there is one, and none nearer round
/// the cycle holds samples: a populated bin takes itself, an empty bin the
/// populated bin at the least circular distance. With no populated bin, every
/// bin takes none.
pub proof fn lemma_fill_source_is_nearest(count: Seq<u64>, index: int)
    requires
        0 <= index < count.len(),
    ensures
        !any_populated(count) ==> fill_source(count, index) is None,
        any_populated(count) ==> (fill_source(count, index) matches Some(b) && 0 <= b
            < count.len() && count[b] > 0 && forall|m: int|
            0 <= m < count.len() && count[m] > 0 ==> circular_distance(
                count.len() as int,
                index,
                b,
            ) <= circular_distance(count.len() as int, index, m)),
        count[index] > 0 ==> fill_source(count, index) == Some(index),
        fill_source(count, index) matches Some(b) ==> (count[forward_bin(
            count.len() as int,
            index,
            circular_distance(count.len() as int, index, b),
        )] > 0 ==> b == forward_bin(
            count.len() as int,
            index,
            circular_distance(count.len() as int, index, b),
        )),
{
    let n = count.len() as int;
    if any_populated(count) {
        if count[index] > 0 {
            assert forall|m: int| 0 <= m < n && count[m] > 0 implies circular_distance(n, index, index)
                <= circular_distance(n, index, m) by {
                assert((index - index) % n == 0) by {
                    vstd::arithmetic::div_mod::lemma_small_mod(0, n as nat);
                }
                vstd::arithmetic::div_mod::lemma_mod_bound(m - index, n);
            }
            assert((index - index) % n == 0) by {
                vstd::arithmetic::div_mod::lemma_small_mod(0, n as nat);
            }
            assert(forward_bin(n, index, 0) == index) by {
                vstd::arithmetic::div_mod::lemma_small_mod(index as nat, n as nat);
            }
        } else {
            let w = choose|w: int| 0 <= w < n && count[w] > 0;
            assert(w != index);
            lemma_nearest_populated_is_nearest(count, index);
            lemma_search_from(count, index, 0);
            let b = fill_source(count, index)->0;
            let d = circular_distance(n, index, b);
            let kb = choose|kb: int|
                0 <= kb < probe_count(n) && b == probe_bin(n, index, kb) && count[b] > 0
                    && forall|j: int| 0 <= j < kb ==> count[probe_bin(n, index, j)] == 0;
            lemma_probe_bin(n, index, kb);
            let kf = 2 * (d - 1);
            if count[forward_bin(n, index, d)] > 0 {
                if b != index {
                    let km = lemma_bin_is_probed(n, index, b);
                    assert(d >= 1);
                }
                assert(kf % 2 == 0 && kf / 2 + 1 == d);
                assert(probe_bin(n, index, kf) == forward_bin(n, index, d));
                if kf < kb {
                    assert(count[probe_bin(n, index, kf)] == 0);
                }
                assert(kb == kf);
            }
        }
    } else {
        assert(fill_source(count, index) is None);
    }
}

/// How many steps apart two bins are, going round the cycle the shorter way.
pub open spec fn circular_distance(bins: int, a: int, b: int) -> int {
    let d = (b - a) % bins;
    if d <= bins - d {
        d
    } else {
        bins - d
    }
}

/// Remainders of values below twice the modulus.
proof fn lemma_mod_below_twice(x: int, n: int)
    requires
        n > 0,
        -n < x < 2 * n,
    ensures
        x % n == if x < 0 {
            x + n
        } else if x < n {
            x
        } else {
            x - n
        },
{
    if 0 <= x < n {
        vstd::arithmetic::div_mod::lemma_small_mod(x as nat, n as nat);
    } else if x >= n {
        vstd::arithmetic::div_mod::lemma_small_mod((x - n) as nat, n as nat);
        vstd::arithmetic::div_mod::lemma_mod_add_multiples_vanish(x - n, n);
    } else {
        vstd::arithmetic::div_mod::lemma_small_mod((x + n) as nat, n as nat);
        vstd::arithmetic::div_mod::lemma_mod_add_multiples_vanish(x, n);
    }
}

/// The `k`-th look lands inside the cycle, no farther than `k / 2 + 1` steps away.
proof fn lemma_probe_bin(bins: int, index: int, k: int)
    requires
        0 < bins,
        0 <= index < bins,
        0 <= k < probe_count(bins),
    ensures
        0 <= probe_bin(bins, index, k) < bins,
        circular_distance(bins, index, probe_bin(bins, index, k)) <= k / 2 + 1,
{
    let o = k / 2 + 1;
    assert(1 <= o <= bins);
    if k % 2 == 0 {
        lemma_mod_below_twice(index + o, bins);
        let f = probe_bin(bins, index, k);
        lemma_mod_below_twice(f - index, bins);
    } else {
        lemma_mod_below_twice(o, bins);
        let om = o % bins;
        lemma_mod_below_twice(index + bins - om, bins);
        let b = probe_bin(bins, index, k);
        lemma_mod_below_twice(b - index, bins);
    }
}

/// Every other bin is looked at, at the look that matches its distance.
proof fn lemma_bin_is_probed(bins: int, index: int, m: int) -> (k: int)
    requires
        0 < bins,
        0 <= index < bins,
        0 <= m < bins,
        m != index,
    ensures
        0 <= k < probe_count(bins),
        probe_bin(bins, index, k) == m,
        k / 2 + 1 == circular_distance(bins, index, m),
{
    lemma_mod_below_twice(m - index, bins);
    let d = (m - index) % bins;
    let dist = circular_distance(bins, index, m);
    assert(1 <= dist <= bins / 2);
    if d <= bins - d {
        let k = 2 * (dist - 1);
        assert(k % 2 == 0 && k / 2 + 1 == dist);
        lemma_mod_below_twice(index + dist, bins);
        k
    } else {
        let k = 2 * (dist - 1) + 1;
        assert(k % 2 == 1 && k / 2 + 1 == dist);
        lemma_mod_below_twice(dist, bins);
        lemma_mod_below_twice(index + bins - dist, bins);
        k
    }
}

/// What the search from the `k`-th look on finds, when every earlier look
/// was at an empty bin.
proof fn lemma_search_from(count: Seq<u64>, index: int, k: int)
    requires
        0 < count.len(),
        0 <= index < count.len(),
        0 <= k <= probe_count(count.len() as int),
        forall|j: int| 0 <= j < k ==> count[probe_bin(count.len() as int, index, j)] == 0,
    ensures
        match first_populated_from(count, index, k) {
            Some(b) => exists|kb: int|
                k <= kb < probe_count(count.len() as int) && b == probe_bin(
                    count.len() as int,
                    index,
                    kb,
                ) && count[b] > 0 && forall|j: int|
                    0 <= j < kb ==> count[probe_bin(count.len() as int, index, j)] == 0,
            None => forall|j: int|
                0 <= j < probe_count(count.len() as int) ==> count[probe_bin(
                    count.len() as int,
                    index,
                    j,
                )] == 0,
        },
    decreases probe_count(count.len() as int) - k,
{
    let n = count.len() as int;
    if k < probe_count(n) {
        lemma_probe_bin(n, index, k);
        if count[probe_bin(n, index, k)] == 0 {
            assert forall|j: int| 0 <= j < k + 1 implies count[probe_bin(n, index, j)] == 0 by {
                if j < k {
                } else {
                }
            }
            lemma_search_from(count, index, k + 1);
        }
    }
}

/// The search finds the nearest populated bin: whatever it returns holds
/// samples, no other populated bin is closer round the cycle, and it finds one
/// whenever some other bin holds samples.
pub proof fn lemma_nearest_populated_is_nearest(count: Seq<u64>, index: int)
    requires
        0 < count.len(),
        0 <= index < count.len(),
    ensures
        first_populated_from(count, index, 0) matches Some(b) ==> {
            &&& 0 <= b < count.len()
            &&& count[b] > 0
            &&& forall|m: int|
                0 <= m < count.len() && m != index && count[m] > 0 ==> circular_distance(
                    count.len() as int,
                    index,
                    b,
                ) <= circular_distance(count.len() as int, index, m)
        },
        (exists|m: int| 0 <= m < count.len() && m != index && count[m] > 0) ==> first_populated_from(
            count,
            index,
            0,
        ) is Some,
{
    let n = count.len() as int;
    lemma_search_from(count, index, 0);
    match first_populated_from(count, index, 0) {
        Some(b) => {
            let kb = choose|kb: int|
                0 <= kb < probe_count(n) && b == probe_bin(n, index, kb) && count[b] > 0
                    && forall|j: int| 0 <= j < kb ==> count[probe_bin(n, index, j)] == 0;
            lemma_probe_bin(n, index, kb);
            assert forall|m: int|
                0 <= m < n && m != index && count[m] > 0 implies circular_distance(n, index, b)
                <= circular_distance(n, index, m) by {
                let km = lemma_bin_is_probed(n, index, m);
                if km < kb {
                    assert(count[probe_bin(n, index, km)] == 0);
                }
            }
        },
        None => {
            if exists|m: int| 0 <= m < n && m != index && count[m] > 0 {
                let m = choose|m: int| 0 <= m < n && m != index && count[m] > 0;
                let km = lemma_bin_is_probed(n, index, m);
                assert(count[probe_bin(n, index, km)] == 0);
            }
        },
    }
}

} // verus!
