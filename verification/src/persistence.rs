//! The persistable byte form of allocator state: little-endian 64-bit words,
//! self-describing, with a cursor-based reader and a run-length block for the
//! session-space normalizer.

use vstd::prelude::*;

use crate::id_types::LocalId;
use crate::normalizer::SessionSpaceNormalizer;

verus! {

/// The little-endian bytes of one 64-bit word.
pub open spec fn u64_le_bytes(x: u64) -> Seq<u8> {
    seq![
        x as u8,
        (x >> 8) as u8,
        (x >> 16) as u8,
        (x >> 24) as u8,
        (x >> 32) as u8,
        (x >> 40) as u8,
        (x >> 48) as u8,
        (x >> 56) as u8,
    ]
}

/// The 64-bit word read from the first eight bytes, little endian.
pub open spec fn le_to_u64(b: Seq<u8>) -> u64 {
    (b[0] as u64) | ((b[1] as u64) << 8) | ((b[2] as u64) << 16) | ((b[3] as u64) << 24) | ((
    b[4] as u64) << 32) | ((b[5] as u64) << 40) | ((b[6] as u64) << 48) | ((b[7] as u64) << 56)
}

/// Eight little-endian bytes of a word read back as the same word.
pub proof fn lemma_u64_le_round_trip(x: u64)
    ensures
        le_to_u64(u64_le_bytes(x)) == x,
{
    let b = u64_le_bytes(x);
    assert(((x as u8) as u64) | (((x >> 8) as u8) as u64) << 8 | (((x >> 16) as u8) as u64) << 16
        | (((x >> 24) as u8) as u64) << 24 | (((x >> 32) as u8) as u64) << 32 | (((
    x >> 40) as u8) as u64) << 40 | (((x >> 48) as u8) as u64) << 48 | (((x >> 56) as u8) as u64)
        << 56 == x) by (bit_vector);
    assert(le_to_u64(b) == x);
}

/// Appends one 64-bit word to a byte vector, little endian.
pub fn write_u64_to_vec(bytes: &mut Vec<u8>, value: u64)
    ensures
        final(bytes)@ == old(bytes)@ + u64_le_bytes(value),
{
    bytes.push(value as u8);
    bytes.push((value >> 8) as u8);
    bytes.push((value >> 16) as u8);
    bytes.push((value >> 24) as u8);
    bytes.push((value >> 32) as u8);
    bytes.push((value >> 40) as u8);
    bytes.push((value >> 48) as u8);
    bytes.push((value >> 56) as u8);
    proof {
        assert(bytes@ =~= old(bytes)@ + u64_le_bytes(value));
    }
}

/// A cursor over a borrowed byte vector, advanced by each read.
pub struct Deserializer<'a> {
    /// The bytes being read.
    pub bytes: &'a Vec<u8>,
    /// How many bytes were consumed so far.
    pub cursor: usize,
}

impl<'a> Deserializer<'a> {
    /// The cursor never passes the end.
    pub open spec fn wf(self) -> bool {
        self.cursor <= self.bytes@.len()
    }

    /// The bytes not yet consumed.
    pub open spec fn remaining(self) -> Seq<u8> {
        self.bytes@.subrange(self.cursor as int, self.bytes@.len() as int)
    }

    /// Starts reading at the first byte.
    pub fn new(bytes: &'a Vec<u8>) -> (r: Deserializer<'a>)
        ensures
            r.wf(),
            r.remaining() == bytes@,
    {
        let r = Deserializer { bytes, cursor: 0 };
        proof {
            assert(r.remaining() =~= bytes@);
        }
        r
    }

    /// Reads one little-endian 64-bit word, or nothing when fewer than eight
    /// bytes remain.
    pub fn take_u64(self) -> (r: Option<(u64, Deserializer<'a>)>)
        requires
            self.wf(),
        ensures
            match r {
                Some((v, d2)) => {
                    &&& self.remaining().len() >= 8
                    &&& v == le_to_u64(self.remaining())
                    &&& d2.wf()
                    &&& d2.remaining() == self.remaining().skip(8)
                    &&& d2.bytes == self.bytes
                },
                None => self.remaining().len() < 8,
            },
    {
        if self.bytes.len() - self.cursor < 8 {
            None
        } else {
            let b0 = self.bytes[self.cursor];
            let b1 = self.bytes[self.cursor + 1];
            let b2 = self.bytes[self.cursor + 2];
            let b3 = self.bytes[self.cursor + 3];
            let b4 = self.bytes[self.cursor + 4];
            let b5 = self.bytes[self.cursor + 5];
            let b6 = self.bytes[self.cursor + 6];
            let b7 = self.bytes[self.cursor + 7];
            let v: u64 = (b0 as u64) | ((b1 as u64) << 8) | ((b2 as u64) << 16) | ((b3 as u64)
                << 24) | ((b4 as u64) << 32) | ((b5 as u64) << 40) | ((b6 as u64) << 48) | ((
            b7 as u64) << 56);
            let d2 = Deserializer { bytes: self.bytes, cursor: self.cursor + 8 };
            proof {
                assert(self.remaining()[0] == b0 && self.remaining()[1] == b1 && self.remaining()[2]
                    == b2 && self.remaining()[3] == b3 && self.remaining()[4] == b4
                    && self.remaining()[5] == b5 && self.remaining()[6] == b6 && self.remaining()[7]
                    == b7);
                assert(d2.remaining() =~= self.remaining().skip(8));
            }
            Some((v, d2))
        }
    }
}

/// The byte form of the normalizer's runs: per run, the base generation count
/// and the run length, as little-endian words.
pub open spec fn runs_bytes(runs: Seq<(LocalId, u64)>) -> Seq<u8>
    decreases runs.len(),
{
    if runs.len() == 0 {
        Seq::empty()
    } else {
        u64_le_bytes(runs[0].0.gen() as u64) + u64_le_bytes(runs[0].1) + runs_bytes(runs.skip(1))
    }
}

/// The byte form of a whole normalizer block: the run count, then the runs.
pub open spec fn normalizer_bytes(runs: Seq<(LocalId, u64)>) -> Seq<u8> {
    u64_le_bytes(runs.len() as u64) + runs_bytes(runs)
}

/// Parses `k` runs whose generation counts continue at or after `prev_end`,
/// returning the runs and the unread tail; `None` on malformed bytes.
pub open spec fn parse_runs(b: Seq<u8>, k: nat, prev_end: int) -> Option<
    (Seq<(LocalId, u64)>, Seq<u8>),
>
    decreases k,
{
    if k == 0 {
        Some((Seq::empty(), b))
    } else if b.len() < 16 {
        None
    } else {
        let gen = le_to_u64(b);
        let cnt = le_to_u64(b.skip(8));
        if prev_end <= gen && cnt >= 1 && gen + cnt <= i64::MAX + 1 {
            match parse_runs(b.skip(16), (k - 1) as nat, gen + cnt) {
                Some((rest_runs, tail)) => Some(
                    (
                        seq![(LocalId { id: (-(gen as i64)) as i64 }, cnt)] + rest_runs,
                        tail,
                    ),
                ),
                None => None,
            }
        } else {
            None
        }
    }
}

/// Parses a whole normalizer block: the run count, then that many ordered
/// runs; `None` on malformed bytes.
pub open spec fn parse_normalizer(b: Seq<u8>) -> Option<(Seq<(LocalId, u64)>, Seq<u8>)> {
    if b.len() < 8 {
        None
    } else {
        parse_runs(b.skip(8), le_to_u64(b) as nat, 1)
    }
}

/// Writes the normalizer's runs after the bytes already written: the run
/// count, then per run its base generation count and its length.
#[verifier::rlimit(100)]
pub fn serialize_normalizer(session_space_normalizer: &SessionSpaceNormalizer, bytes: &mut Vec<u8>)
    requires
        session_space_normalizer.wf(),
    ensures
        final(bytes)@ == old(bytes)@ + normalizer_bytes(session_space_normalizer.runs()),
{
    let n: usize = session_space_normalizer.leading_locals.len();
    write_u64_to_vec(bytes, n as u64);
    let ghost runs = session_space_normalizer.runs();
    proof {
        assert(runs.take(0) =~= Seq::<(LocalId, u64)>::empty());
        assert(bytes@ =~= old(bytes)@ + u64_le_bytes(n as u64) + runs_bytes(runs.take(0)));
    }
    let mut i: usize = 0;
    while i < n
        invariant
            session_space_normalizer.wf(),
            runs == session_space_normalizer.runs(),
            n == runs.len(),
            0 <= i <= n,
            bytes@ == old(bytes)@ + u64_le_bytes(n as u64) + runs_bytes(runs.take(i as int)),
        decreases n - i,
    {
        let run = session_space_normalizer.leading_locals[i];
        write_u64_to_vec(bytes, run.0.to_generation_count());
        write_u64_to_vec(bytes, run.1);
        proof {
            lemma_runs_bytes_snoc(runs, i as int);
            assert(bytes@ =~= old(bytes)@ + u64_le_bytes(n as u64) + runs_bytes(
                runs.take(i + 1),
            ));
        }
        i = i + 1;
    }
    proof {
        assert(runs.take(n as int) =~= runs);
        assert(bytes@ =~= old(bytes)@ + normalizer_bytes(runs));
    }
}

/// Taking one more run appends its two words to the byte form of the prefix.
proof fn lemma_runs_bytes_snoc(runs: Seq<(LocalId, u64)>, i: int)
    requires
        0 <= i < runs.len(),
    ensures
        runs_bytes(runs.take(i + 1)) == runs_bytes(runs.take(i)) + u64_le_bytes(
            runs[i].0.gen() as u64,
        ) + u64_le_bytes(runs[i].1),
    decreases i,
{
    if i == 0 {
        assert(runs.take(1).skip(1) =~= Seq::<(LocalId, u64)>::empty());
        assert(runs.take(0) =~= Seq::<(LocalId, u64)>::empty());
        assert(runs_bytes(runs.take(1)) =~= runs_bytes(runs.take(0)) + u64_le_bytes(
            runs[0].0.gen() as u64,
        ) + u64_le_bytes(runs[0].1));
    } else {
        assert(runs.take(i + 1).skip(1) =~= runs.skip(1).take(i));
        assert(runs.take(i).skip(1) =~= runs.skip(1).take(i - 1));
        lemma_runs_bytes_snoc(runs.skip(1), i - 1);
        assert(runs.skip(1)[i - 1] == runs[i]);
        assert(runs_bytes(runs.take(i + 1)) =~= runs_bytes(runs.take(i)) + u64_le_bytes(
            runs[i].0.gen() as u64,
        ) + u64_le_bytes(runs[i].1));
    }
}

/// Well-formed runs read back from their own byte form unchanged, leaving
/// the trailing bytes unread.
pub proof fn lemma_parse_runs_round_trip(runs: Seq<(LocalId, u64)>, rest: Seq<u8>, prev_end: int)
    requires
        forall|i: int|
            0 <= i < runs.len() ==> (#[trigger] runs[i]).0.wf() && runs[i].1 >= 1
                && runs[i].0.gen() + runs[i].1 <= i64::MAX + 1,
        forall|i: int|
            0 <= i < runs.len() - 1 ==> (#[trigger] runs[i]).0.gen() + runs[i].1 <= runs[i
                + 1].0.gen(),
        runs.len() > 0 ==> prev_end <= runs[0].0.gen(),
    ensures
        parse_runs(runs_bytes(runs) + rest, runs.len() as nat, prev_end) == Some((runs, rest)),
    decreases runs.len(),
{
    if runs.len() == 0 {
        assert(runs_bytes(runs) + rest =~= rest);
    } else {
        let gen0: u64 = runs[0].0.gen() as u64;
        let cnt0: u64 = runs[0].1;
        let b = runs_bytes(runs) + rest;
        assert(b =~= u64_le_bytes(gen0) + (u64_le_bytes(cnt0) + (runs_bytes(runs.skip(1))
            + rest)));
        lemma_u64_le_round_trip(gen0);
        lemma_u64_le_round_trip(cnt0);
        assert(le_to_u64(b) == gen0) by {
            assert(forall|i: int| 0 <= i < 8 ==> b[i] == #[trigger] u64_le_bytes(gen0)[i]);
        }
        assert(le_to_u64(b.skip(8)) == cnt0) by {
            assert(forall|i: int|
                0 <= i < 8 ==> b.skip(8)[i] == #[trigger] u64_le_bytes(cnt0)[i]);
        }
        assert(b.skip(16) =~= runs_bytes(runs.skip(1)) + rest);
        assert(forall|i: int|
            0 <= i < runs.skip(1).len() - 1 ==> (#[trigger] runs.skip(1)[i]).0.gen() + runs.skip(
                1,
            )[i].1 <= runs.skip(1)[i + 1].0.gen());
        lemma_parse_runs_round_trip(runs.skip(1), rest, gen0 + cnt0);
        assert((LocalId { id: (-(gen0 as i64)) as i64 }) == runs[0].0);
        assert(seq![(runs[0].0, cnt0)] + runs.skip(1) =~= runs);
    }
}

/// A well-formed normalizer block reads back unchanged.
pub proof fn lemma_parse_normalizer_round_trip(runs: Seq<(LocalId, u64)>, rest: Seq<u8>)
    requires
        forall|i: int|
            0 <= i < runs.len() ==> (#[trigger] runs[i]).0.wf() && runs[i].1 >= 1
                && runs[i].0.gen() + runs[i].1 <= i64::MAX + 1,
        forall|i: int|
            0 <= i < runs.len() - 1 ==> (#[trigger] runs[i]).0.gen() + runs[i].1 <= runs[i
                + 1].0.gen(),
        runs.len() <= u64::MAX,
    ensures
        parse_normalizer(normalizer_bytes(runs) + rest) == Some((runs, rest)),
{
    let b = normalizer_bytes(runs) + rest;
    let lenw: u64 = runs.len() as u64;
    lemma_u64_le_round_trip(lenw);
    assert(le_to_u64(b) == lenw) by {
        assert(forall|i: int| 0 <= i < 8 ==> b[i] == #[trigger] u64_le_bytes(lenw)[i]);
    }
    assert(b.skip(8) =~= runs_bytes(runs) + rest);
    assert(runs.len() > 0 ==> 1 <= runs[0].0.gen());
    lemma_parse_runs_round_trip(runs, rest, 1);
}

/// Reads a normalizer block, or nothing when the bytes are malformed: short,
/// zero-length runs, or runs out of order.
pub fn deserialize_normalizer<'a>(deserializer: Deserializer<'a>) -> (r: Option<
    (SessionSpaceNormalizer, Deserializer<'a>),
>)
    requires
        deserializer.wf(),
    ensures
        match r {
            Some((n, d2)) => {
                &&& n.wf()
                &&& d2.wf()
                &&& parse_normalizer(deserializer.remaining()) == Some((n.runs(), d2.remaining()))
            },
            None => parse_normalizer(deserializer.remaining()) is None,
        },
{
    let ghost b0 = deserializer.remaining();
    let (len, first) = match deserializer.take_u64() {
        None => {
            return None;
        },
        Some(x) => x,
    };
    let mut d = first;
    let mut normalizer = SessionSpaceNormalizer::new();
    let mut prev_end: u64 = 1;
    let mut k: u64 = len;
    proof {
        assert(parse_normalizer(b0) == parse_runs(b0.skip(8), len as nat, 1));
        assert(d.remaining() == b0.skip(8));
        if parse_runs(d.remaining(), k as nat, prev_end as int) is Some {
            let rr = parse_runs(d.remaining(), k as nat, prev_end as int)->Some_0.0;
            assert(normalizer.runs() + rr =~= rr);
        }
    }
    while k > 0
        invariant
            b0 == deserializer.remaining(),
            d.wf(),
            normalizer.wf(),
            1 <= prev_end <= i64::MAX + 1,
            normalizer.runs().len() > 0 ==> normalizer.end_gen() == prev_end,
            parse_normalizer(b0) == (match parse_runs(d.remaining(), k as nat, prev_end as int) {
                Some((rest_runs, tail)) => Some::<(Seq<(LocalId, u64)>, Seq<u8>)>(
                    (normalizer.runs() + rest_runs, tail),
                ),
                None => None::<(Seq<(LocalId, u64)>, Seq<u8>)>,
            }),
        decreases k,
    {
        let ghost d_pre = d;
        let ghost runs_pre = normalizer.runs();
        let ghost prev_pre = prev_end as int;
        let ghost k_pre = k as nat;
        let (gen, d1) = match d.take_u64() {
            None => {
                return None;
            },
            Some(x) => x,
        };
        let (cnt, d2) = match d1.take_u64() {
            None => {
                proof {
                    assert(d_pre.remaining().len() < 16);
                }
                return None;
            },
            Some(x) => x,
        };
        proof {
            assert(d_pre.remaining().len() >= 16);
            assert(le_to_u64(d_pre.remaining().skip(8)) == cnt);
            assert(d2.remaining() =~= d_pre.remaining().skip(16));
        }
        if !(prev_end <= gen && cnt >= 1 && gen <= i64::MAX as u64 && cnt - 1 <= i64::MAX as u64
            - gen) {
            proof {
                assert(!(prev_pre <= gen && cnt >= 1 && gen + cnt <= i64::MAX + 1));
                assert(parse_runs(d_pre.remaining(), k_pre, prev_pre) is None);
            }
            return None;
        }
        let local = LocalId::from_generation_count(gen);
        normalizer.leading_locals.push((local, cnt));
        prev_end = gen + cnt;
        d = d2;
        k = k - 1;
        proof {
            assert(normalizer.runs() == runs_pre.push((local, cnt)));
            assert forall|ii: int|
                0 <= ii < normalizer.runs().len() implies (
            #[trigger] normalizer.runs()[ii]).0.wf() && normalizer.runs()[ii].1 >= 1
                && normalizer.runs()[ii].0.gen() + normalizer.runs()[ii].1 <= i64::MAX + 1 by {
                if ii < runs_pre.len() {
                    assert(runs_pre[ii] == normalizer.runs()[ii]);
                }
            }
            assert forall|ii: int|
                0 <= ii < normalizer.runs().len() - 1 implies (
            #[trigger] normalizer.runs()[ii]).0.gen() + normalizer.runs()[ii].1
                <= normalizer.runs()[ii + 1].0.gen() by {
                if ii < runs_pre.len() - 1 {
                    assert(runs_pre[ii] == normalizer.runs()[ii] && runs_pre[ii + 1]
                        == normalizer.runs()[ii + 1]);
                } else {
                    assert(ii == runs_pre.len() - 1);
                    assert(normalizer.runs()[ii] == runs_pre[ii]);
                    assert(normalizer.runs()[ii + 1] == (local, cnt));
                }
            }
            assert(normalizer.wf());
            assert(parse_runs(d_pre.remaining(), k_pre, prev_pre) == (match parse_runs(
                d.remaining(),
                k as nat,
                prev_end as int,
            ) {
                Some((rest_runs, tail)) => Some::<(Seq<(LocalId, u64)>, Seq<u8>)>(
                    (seq![(local, cnt)] + rest_runs, tail),
                ),
                None => None::<(Seq<(LocalId, u64)>, Seq<u8>)>,
            }));
            if parse_runs(d.remaining(), k as nat, prev_end as int) is Some {
                let rr = parse_runs(d.remaining(), k as nat, prev_end as int)->Some_0.0;
                assert(normalizer.runs() + rr =~= runs_pre + (seq![(local, cnt)] + rr));
            }
        }
    }
    proof {
        assert(parse_runs(d.remaining(), 0, prev_end as int) == Some::<
            (Seq<(LocalId, u64)>, Seq<u8>),
        >((Seq::empty(), d.remaining())));
        assert(normalizer.runs() + Seq::<(LocalId, u64)>::empty() =~= normalizer.runs());
    }
    Some((normalizer, d))
}

} // verus!
