use crate::Felt;
use vstd::prelude::*;

verus! {

/// Sixteen to the power `k`.
pub open spec fn pow16(k: int) -> int
    decreases k,
{
    if k <= 0 {
        1
    } else {
        16 * pow16(k - 1)
    }
}

/// The byte of one hexadecimal digit: `0` to `9`, then `a` to `f`.
pub open spec fn hex_digit8(n: int) -> u8 {
    if n < 10 {
        (48 + n) as u8
    } else {
        (87 + n) as u8
    }
}

/// The sixteen hexadecimal digit bytes of a 64-bit value, most
/// significant first.
pub open spec fn u64_hex_bytes(x: u64) -> Seq<u8> {
    Seq::new(16, |i: int| hex_digit8((x as int / pow16(15 - i)) % 16))
}

/// One field element as a JSON string: a quoted `0x` form with all four
/// limbs written out.
pub open spec fn felt_hex_bytes(f: Felt) -> Seq<u8> {
    seq![34u8, 48u8, 120u8] + u64_hex_bytes(f.d3) + u64_hex_bytes(f.d2) + u64_hex_bytes(f.d1)
        + u64_hex_bytes(f.d0) + seq![34u8]
}

/// The first `k` elements of one input, comma separated.
pub open spec fn felts_bytes(v: Seq<Felt>, k: int) -> Seq<u8>
    decreases k,
{
    if k <= 0 {
        Seq::empty()
    } else if k == 1 {
        felt_hex_bytes(v[0])
    } else {
        felts_bytes(v, k - 1) + seq![44u8] + felt_hex_bytes(v[k - 1])
    }
}

/// One input vector as a JSON list.
pub open spec fn input_bytes(v: Seq<Felt>) -> Seq<u8> {
    seq![91u8] + felts_bytes(v, v.len() as int) + seq![93u8]
}

/// The first `k` input vectors, comma separated.
pub open spec fn inputs_bytes(vs: Seq<Seq<Felt>>, k: int) -> Seq<u8>
    decreases k,
{
    if k <= 0 {
        Seq::empty()
    } else if k == 1 {
        input_bytes(vs[0])
    } else {
        inputs_bytes(vs, k - 1) + seq![44u8] + input_bytes(vs[k - 1])
    }
}

/// A whole corpus as one JSON object holding the list of input vectors.
pub open spec fn corpus_bytes(vs: Seq<Seq<Felt>>) -> Seq<u8> {
    seq![123u8, 34u8, 105u8, 110u8, 112u8, 117u8, 116u8, 115u8, 34u8, 58u8, 91u8] + inputs_bytes(
        vs,
        vs.len() as int,
    ) + seq![93u8, 125u8]
}

fn push_u64_hex(out: &mut Vec<u8>, x: u64)
    ensures
        final(out)@ == old(out)@ + u64_hex_bytes(x),
{
    let mut p: u64 = 0x1000000000000000;
    let mut i: usize = 0;
    proof {
        assert(pow16(15) == 0x1000000000000000) by {
            reveal_with_fuel(pow16, 17);
        };
    }
    while i < 16
        invariant
            0 <= i <= 16,
            p >= 1,
            i < 16 ==> p == pow16(15 - i),
            out@ == old(out)@ + u64_hex_bytes(x).take(i as int),
        decreases 16 - i,
    {
        let d = (x / p) % 16;
        let b: u8 = if d < 10 {
            48 + (d as u8)
        } else {
            87 + (d as u8)
        };
        out.push(b);
        proof {
            assert(b == u64_hex_bytes(x)[i as int]);
            assert(out@ =~= old(out)@ + u64_hex_bytes(x).take(i + 1));
            if i + 1 < 16 {
                assert(pow16(15 - i) == 16 * pow16(15 - (i + 1)));
                assert(pow16(15 - (i + 1)) >= 1) by {
                    lemma_pow16_pos(15 - (i as int + 1));
                };
            }
        }
        if i + 1 < 16 {
            p = p / 16;
        }
        i += 1;
    }
    proof {
        assert(out@ =~= old(out)@ + u64_hex_bytes(x));
    }
}

proof fn lemma_pow16_pos(k: int)
    ensures
        pow16(k) >= 1,
    decreases (if k > 0 {
        k
    } else {
        0
    }),
{
    if k > 0 {
        lemma_pow16_pos(k - 1);
    }
}

fn push_felt_hex(out: &mut Vec<u8>, f: &Felt)
    ensures
        final(out)@ == old(out)@ + felt_hex_bytes(*f),
{
    out.push(34);
    out.push(48);
    out.push(120);
    push_u64_hex(out, f.d3);
    push_u64_hex(out, f.d2);
    push_u64_hex(out, f.d1);
    push_u64_hex(out, f.d0);
    out.push(34);
    proof {
        assert(out@ =~= old(out)@ + felt_hex_bytes(*f));
    }
}

fn push_input(out: &mut Vec<u8>, v: &Vec<Felt>)
    ensures
        final(out)@ == old(out)@ + input_bytes(v@),
{
    out.push(91);
    let n = v.len();
    let mut i: usize = 0;
    while i < n
        invariant
            n == v@.len(),
            0 <= i <= n,
            out@ == old(out)@ + seq![91u8] + felts_bytes(v@, i as int),
        decreases n - i,
    {
        if i > 0 {
            out.push(44);
        }
        push_felt_hex(out, &v[i]);
        proof {
            if i == 0 {
                assert(felts_bytes(v@, 1) == felt_hex_bytes(v@[0]));
                assert(out@ =~= old(out)@ + seq![91u8] + felts_bytes(v@, 1));
            } else {
                assert(out@ =~= old(out)@ + seq![91u8] + felts_bytes(v@, i + 1));
            }
        }
        i += 1;
    }
    out.push(93);
    proof {
        assert(out@ =~= old(out)@ + input_bytes(v@));
    }
}

/// The whole corpus serialised, byte for byte a function of the inputs:
/// dumping twice with no change in between yields identical files.
pub fn dump_corpus_bytes(inputs: &Vec<Vec<Felt>>) -> (r: Vec<u8>)
    ensures
        r@ == corpus_bytes(inputs@.map_values(|v: Vec<Felt>| v@)),
{
    let ghost iv = inputs@.map_values(|v: Vec<Felt>| v@);
    let mut out: Vec<u8> = Vec::new();
    out.push(123);
    out.push(34);
    out.push(105);
    out.push(110);
    out.push(112);
    out.push(117);
    out.push(116);
    out.push(115);
    out.push(34);
    out.push(58);
    out.push(91);
    let ghost header = seq![
        123u8,
        34u8,
        105u8,
        110u8,
        112u8,
        117u8,
        116u8,
        115u8,
        34u8,
        58u8,
        91u8,
    ];
    proof {
        assert(out@ =~= header);
    }
    let n = inputs.len();
    let mut i: usize = 0;
    while i < n
        invariant
            n == inputs@.len(),
            iv == inputs@.map_values(|v: Vec<Felt>| v@),
            0 <= i <= n,
            out@ == header + inputs_bytes(iv, i as int),
            header == seq![
                123u8,
                34u8,
                105u8,
                110u8,
                112u8,
                117u8,
                116u8,
                115u8,
                34u8,
                58u8,
                91u8,
            ],
        decreases n - i,
    {
        if i > 0 {
            out.push(44);
        }
        push_input(&mut out, &inputs[i]);
        proof {
            assert(iv[i as int] == inputs@[i as int]@);
            if i == 0 {
                assert(inputs_bytes(iv, 1) == input_bytes(iv[0]));
                assert(out@ =~= header + inputs_bytes(iv, 1));
            } else {
                assert(out@ =~= header + inputs_bytes(iv, i + 1));
            }
        }
        i += 1;
    }
    out.push(93);
    out.push(125);
    proof {
        assert(out@ =~= corpus_bytes(iv));
    }
    out
}

/// Dumping a corpus is idempotent: with equal contents the serialised
/// bytes are identical.
pub proof fn lemma_dump_idempotent(a: Seq<Seq<Felt>>, b: Seq<Seq<Felt>>)
    requires
        a == b,
    ensures
        corpus_bytes(a) == corpus_bytes(b),
{
}

/// The on-disk corpus of fuzz inputs; the sink that new coverage is
/// appended to.
pub struct InputFile {
    pub inputs: Vec<Vec<Felt>>,
}

impl InputFile {
    /// An empty corpus.
    pub fn new() -> (r: InputFile)
        ensures
            r.inputs@.len() == 0,
    {
        InputFile { inputs: Vec::new() }
    }

    /// The bytes that `dump` writes for the current contents.
    pub fn dump_bytes(&self) -> (r: Vec<u8>)
        ensures
            r@ == corpus_bytes(self.inputs@.map_values(|v: Vec<Felt>| v@)),
    {
        dump_corpus_bytes(&self.inputs)
    }
}

/// The on-disk corpus of crashing inputs.
pub struct CrashFile {
    pub crashes: Vec<Vec<Felt>>,
}

impl CrashFile {
    /// An empty crash corpus.
    pub fn new() -> (r: CrashFile)
        ensures
            r.crashes@.len() == 0,
    {
        CrashFile { crashes: Vec::new() }
    }

    /// The bytes that `dump` writes for the current contents.
    pub fn dump_bytes(&self) -> (r: Vec<u8>)
        ensures
            r@ == corpus_bytes(self.crashes@.map_values(|v: Vec<Felt>| v@)),
    {
        dump_corpus_bytes(&self.crashes)
    }
}

} // verus!
