use vstd::prelude::*;
use crate::error::EdfError;
use crate::model::{samples_before, record_samples, ChannelHeader, EDFHeader};

verus! {

/// The signed 16-bit value of the little-endian byte pair `(lo, hi)`.
pub open spec fn sample_value(lo: u8, hi: u8) -> i16 {
    let u = lo as int + 256 * (hi as int);
    (if u >= 32768 { u - 65536 } else { u }) as i16
}

/// The sample with index `i` of a buffer of consecutive 16-bit samples.
pub open spec fn sample_at(data: Seq<u8>, i: int) -> i16 {
    sample_value(data[2 * i], data[2 * i + 1])
}

/// The digital samples of channel `j` within data record `b` of a buffer
/// that holds whole data records.
pub open spec fn block_of_channel(data: Seq<u8>, chs: Seq<ChannelHeader>, j: int, b: int) -> Seq<i16> {
    Seq::new(
        chs[j].number_of_samples_in_data_record as nat,
        |s: int| sample_at(data, b * record_samples(chs) + samples_before(chs, j) + s),
    )
}

/// The digital samples of channel `j` over the first `blocks` data records
/// of a buffer, in the order of the records.
pub open spec fn channel_samples(data: Seq<u8>, chs: Seq<ChannelHeader>, j: int, blocks: nat) -> Seq<i16>
    decreases blocks,
{
    if blocks == 0 {
        Seq::empty()
    } else {
        channel_samples(data, chs, j, (blocks - 1) as nat) + block_of_channel(
            data,
            chs,
            j,
            blocks - 1,
        )
    }
}

/// The number of bytes that `blocks` data records of these channels take.
pub open spec fn window_bytes(chs: Seq<ChannelHeader>, blocks: int) -> int {
    2 * blocks * record_samples(chs)
}

pub proof fn lemma_samples_before_monotone(chs: Seq<ChannelHeader>, i: int, j: int)
    requires
        0 <= i <= j <= chs.len(),
    ensures
        samples_before(chs, i) <= samples_before(chs, j),
    decreases j - i,
{
    if i < j {
        lemma_samples_before_monotone(chs, i, j - 1);
    }
}

/// Reads the little-endian signed 16-bit sample with index `index` from
/// `data`, failing when the buffer ends before the sample's second byte.
pub fn get_sample(data: &Vec<u8>, index: usize) -> (r: Result<i16, EdfError>)
    ensures
        r is Ok <==> 2 * index + 2 <= data@.len(),
        r is Ok ==> r->Ok_0 == sample_at(data@, index as int),
        r is Err ==> r->Err_0 == (EdfError::Truncated { sample_index: index }),
{
    if index >= data.len() / 2 {
        return Err(EdfError::Truncated { sample_index: index });
    }
    let start: usize = 2 * index;
    let lo: u8 = data[start];
    let hi: u8 = data[start + 1];
    let u: u32 = lo as u32 + 256 * (hi as u32);
    if u >= 32768 {
        Ok((u as i32 - 65536) as i16)
    } else {
        Ok(u as i16)
    }
}

/// Decodes `blocks` data records from `data` into one sequence of digital
/// samples per channel, in header order. Each record holds, channel after
/// channel, that channel's samples. Fails at the first sample whose bytes
/// are missing; no partial result is returned.
pub fn decode_window(data: &Vec<u8>, header: &EDFHeader, blocks: u64) -> (r: Result<Vec<Vec<i16>>, EdfError>)
    ensures
        r is Ok <==> window_bytes(header.channels@, blocks as int) <= data@.len(),
        r is Ok ==> r->Ok_0.len() == header.channels@.len(),
        r is Ok ==> forall|j: int|
            0 <= j < header.channels@.len() ==> (#[trigger] r->Ok_0[j])@ == channel_samples(
                data@,
                header.channels@,
                j,
                blocks as nat,
            ),
        r is Err ==> r->Err_0 == (EdfError::Truncated { sample_index: (data@.len() / 2) as usize }),
{
    let ghost chs = header.channels@;
    let ghost rs = record_samples(chs);
    let n: usize = header.channels.len();
    proof {
        lemma_samples_before_monotone(chs, 0, n as int);
    }
    let mut result: Vec<Vec<i16>> = Vec::new();
    let mut k: usize = 0;
    while k < n
        invariant
            k <= n,
            n == chs.len(),
            result.len() == k,
            forall|i: int| 0 <= i < k ==> (#[trigger] result[i])@ == Seq::<i16>::empty(),
        decreases n - k,
    {
        result.push(Vec::new());
        k += 1;
    }
    let dlen: usize = data.len();
    let mut index: usize = 0;
    let mut b: u64 = 0;
    while b < blocks
        invariant
            b <= blocks,
            n == chs.len(),
            chs == header.channels@,
            rs == record_samples(chs),
            rs >= 0,
            result.len() == n,
            index == b * rs,
            2 * index <= data@.len(),
            dlen == data@.len(),
            forall|i: int|
                0 <= i < n ==> (#[trigger] result[i])@ == channel_samples(data@, chs, i, b as nat),
        decreases blocks - b,
    {
        let mut j: usize = 0;
        while j < n
            invariant
                b < blocks,
                j <= n,
                n == chs.len(),
                chs == header.channels@,
                rs == record_samples(chs),
                result.len() == n,
                index == b * rs + samples_before(chs, j as int),
                rs >= 0,
                2 * index <= data@.len(),
                dlen == data@.len(),
                forall|i: int|
                    0 <= i < j ==> (#[trigger] result[i])@ == channel_samples(
                        data@,
                        chs,
                        i,
                        (b + 1) as nat,
                    ),
                forall|i: int|
                    j <= i < n ==> (#[trigger] result[i])@ == channel_samples(data@, chs, i, b as nat),
            decreases n - j,
        {
            let count: u64 = header.channels[j].number_of_samples_in_data_record;
            let ghost blk = block_of_channel(data@, chs, j as int, b as int);
            let ghost before = channel_samples(data@, chs, j as int, b as nat);
            proof {
                lemma_samples_before_monotone(chs, j as int + 1, n as int);
                assert(samples_before(chs, j as int + 1) == samples_before(chs, j as int) + count);
            }
            let mut s: u64 = 0;
            while s < count
                invariant
                    b < blocks,
                    j < n,
                    s <= count,
                    n == chs.len(),
                    chs == header.channels@,
                    rs == record_samples(chs),
                    count == chs[j as int].number_of_samples_in_data_record,
                    samples_before(chs, j as int) + count <= rs,
                    rs >= 0,
                    blk == block_of_channel(data@, chs, j as int, b as int),
                    before == channel_samples(data@, chs, j as int, b as nat),
                    result.len() == n,
                    index == b * rs + samples_before(chs, j as int) + s,
                    2 * index <= data@.len(),
                    dlen == data@.len(),
                    result[j as int]@ == before + blk.take(s as int),
                    forall|i: int|
                        0 <= i < j ==> (#[trigger] result[i])@ == channel_samples(
                            data@,
                            chs,
                            i,
                            (b + 1) as nat,
                        ),
                    forall|i: int|
                        j < i < n ==> (#[trigger] result[i])@ == channel_samples(
                            data@,
                            chs,
                            i,
                            b as nat,
                        ),
                decreases count - s,
            {
                let got = get_sample(data, index);
                let v = match got {
                    Ok(v) => v,
                    Err(e) => {
                        proof {
                            assert(index + 1 <= (b + 1) * rs) by (nonlinear_arith)
                                requires
                                    index == b * rs + samples_before(chs, j as int) + s,
                                    s < count,
                                    samples_before(chs, j as int) + count <= rs,
                                    rs >= 0,
                            ;
                            assert((b + 1) * rs <= blocks * rs) by (nonlinear_arith)
                                requires
                                    b + 1 <= blocks,
                                    rs >= 0,
                            ;
                            assert(2 * blocks * rs == 2 * (blocks * rs)) by (nonlinear_arith);
                        }
                        return Err(e);
                    },
                };
                proof {
                    assert(got is Ok);
                    assert(blk[s as int] == v);
                    assert(blk.take(s as int + 1) =~= blk.take(s as int).push(v));
                }
                result[j].push(v);
                index += 1;
                s += 1;
            }
            proof {
                assert(blk.take(s as int) =~= blk);
                assert(result[j as int]@ == channel_samples(data@, chs, j as int, (b + 1) as nat));
            }
            j += 1;
        }
        proof {
            assert(index == (b + 1) * rs) by (nonlinear_arith)
                requires
                    index == b * rs + rs,
            ;
        }
        b += 1;
    }
    proof {
        assert(2 * blocks * rs == 2 * (blocks * rs)) by (nonlinear_arith);
    }
    Ok(result)
}

/// The two little-endian bytes of a 16-bit two's-complement sample.
pub open spec fn encode_sample(v: i16) -> Seq<u8> {
    let u: int = if v < 0 { v + 65536 } else { v as int };
    seq![(u % 256) as u8, (u / 256) as u8]
}

/// A buffer holding the given samples one after the other.
pub open spec fn encode_samples(vals: Seq<i16>) -> Seq<u8>
    decreases vals.len(),
{
    if vals.len() == 0 {
        Seq::empty()
    } else {
        encode_samples(vals.drop_last()) + encode_sample(vals.last())
    }
}

proof fn lemma_encode_one(v: i16)
    ensures
        sample_value(encode_sample(v)[0], encode_sample(v)[1]) == v,
{
    let u: int = if v < 0 { v + 65536 } else { v as int };
    vstd::arithmetic::div_mod::lemma_fundamental_div_mod(u, 256);
    vstd::arithmetic::div_mod::lemma_div_pos_is_pos(u, 256);
    assert(u / 256 < 256) by (nonlinear_arith)
        requires
            u == 256 * (u / 256) + u % 256,
            0 <= u % 256,
            0 <= u < 65536,
    ;
}

/// Decoding a buffer built from known digital samples gives back each
/// sample at its index.
pub proof fn law_sample_round_trip(vals: Seq<i16>, i: int)
    requires
        0 <= i < vals.len(),
    ensures
        encode_samples(vals).len() == 2 * vals.len(),
        sample_at(encode_samples(vals), i) == vals[i],
    decreases vals.len(),
{
    let p = vals.drop_last();
    let e = encode_samples(vals);
    if i < vals.len() - 1 {
        law_sample_round_trip(p, i);
        assert(e[2 * i] == encode_samples(p)[2 * i]);
        assert(e[2 * i + 1] == encode_samples(p)[2 * i + 1]);
    } else {
        if p.len() > 0 {
            law_sample_round_trip(p, 0);
        }
        lemma_encode_one(vals.last());
        assert(e[2 * i] == encode_sample(vals.last())[0]);
        assert(e[2 * i + 1] == encode_sample(vals.last())[1]);
    }
}

/// Each channel's decoded samples number the records read times that
/// channel's own samples per record, whatever the other channels hold.
pub proof fn law_channel_length(data: Seq<u8>, chs: Seq<ChannelHeader>, j: int, blocks: nat)
    requires
        0 <= j < chs.len(),
    ensures
        channel_samples(data, chs, j, blocks).len() == blocks
            * chs[j].number_of_samples_in_data_record,
    decreases blocks,
{
    if blocks > 0 {
        law_channel_length(data, chs, j, (blocks - 1) as nat);
        let n = chs[j].number_of_samples_in_data_record as int;
        let b1 = (blocks - 1) as nat;
        let prev = channel_samples(data, chs, j, b1);
        let blk = block_of_channel(data, chs, j, blocks - 1);
        assert(channel_samples(data, chs, j, blocks) == prev + blk);
        assert(prev.len() == b1 * n);
        assert(blk.len() == n);
        assert(b1 * n + n == blocks * n) by (nonlinear_arith)
            requires
                b1 == blocks - 1,
        ;
        assert(channel_samples(data, chs, j, blocks).len() == blocks * n);
    } else {
        let n = chs[j].number_of_samples_in_data_record as int;
        assert(blocks * n == 0) by (nonlinear_arith)
            requires
                blocks == 0,
        ;
    }
}

proof fn lemma_channel_index(data: Seq<u8>, chs: Seq<ChannelHeader>, j: int, blocks: nat, b: int, s: int)
    requires
        0 <= j < chs.len(),
        0 <= b < blocks,
        0 <= s < chs[j].number_of_samples_in_data_record,
    ensures
        channel_samples(data, chs, j, blocks)[b * chs[j].number_of_samples_in_data_record + s]
            == block_of_channel(data, chs, j, b)[s],
    decreases blocks,
{
    let n = chs[j].number_of_samples_in_data_record as int;
    let b1 = (blocks - 1) as nat;
    law_channel_length(data, chs, j, b1);
    let prev = channel_samples(data, chs, j, b1);
    assert(channel_samples(data, chs, j, blocks) == prev + block_of_channel(data, chs, j, b1 as int));
    if b < b1 {
        lemma_channel_index(data, chs, j, b1, b, s);
        assert(b * n + s < b1 * n) by (nonlinear_arith)
            requires
                b < b1,
                0 <= s < n,
        ;
    } else {
        assert(b * n + s - prev.len() == s) by (nonlinear_arith)
            requires
                b == b1,
                prev.len() == b1 * n,
        ;
    }
}

/// Decoding whole data records built from known digital samples gives each
/// channel its own samples back: sample `s` of record `b` of channel `j` is
/// the one that stood at `b × record_samples + samples_before(j) + s`.
pub proof fn law_decode_round_trip(
    vals: Seq<i16>,
    chs: Seq<ChannelHeader>,
    blocks: nat,
    j: int,
    b: int,
    s: int,
)
    requires
        vals.len() == blocks * record_samples(chs),
        0 <= j < chs.len(),
        0 <= b < blocks,
        0 <= s < chs[j].number_of_samples_in_data_record,
    ensures
        window_bytes(chs, blocks as int) == encode_samples(vals).len(),
        channel_samples(encode_samples(vals), chs, j, blocks)[b
            * chs[j].number_of_samples_in_data_record + s] == vals[b * record_samples(chs)
            + samples_before(chs, j) + s],
{
    let rs = record_samples(chs);
    let i = b * rs + samples_before(chs, j) + s;
    lemma_samples_before_monotone(chs, 0, j);
    lemma_samples_before_monotone(chs, j + 1, chs.len() as int);
    assert(0 <= i < blocks * rs) by (nonlinear_arith)
        requires
            i == b * rs + samples_before(chs, j) + s,
            0 <= samples_before(chs, j),
            0 <= s,
            samples_before(chs, j) + s < rs,
            0 <= b < blocks,
    ;
    law_sample_round_trip(vals, i);
    lemma_channel_index(encode_samples(vals), chs, j, blocks, b, s);
    assert(2 * blocks * rs == 2 * (blocks * rs)) by (nonlinear_arith);
}

} // verus!
