//! The SPIR-V specializer: rewrites `OpSpecConstant` literals in a module
//! so that specialization constants are hard-baked, and nothing else.
//!
//! A module is a word stream: a five-word header, then instructions whose
//! first word packs a word count (high half) and an opcode (low half). The
//! specializer maps each `OpDecorate ... SpecId n` annotation to its
//! target id, then overwrites the literal operands of every decorated
//! `OpSpecConstant` whose spec id has a value of matching width: the first
//! four bytes of the value for a one-literal constant, all eight (the
//! second literal starting at byte offset four) for a two-literal one.
//! Values of any other width leave the constant untouched. The rewrite is
//! a function of the module and the values alone, word for word.

use crate::desc::{
    dup_bytes, dup_push_descs, dup_slice_descs, push_descs_eqv, slice_descs_eqv, KernelDesc,
};
use crate::scalar::ScalarElem;
use vstd::bytes::{lemma_auto_spec_u32_to_from_le_bytes, spec_u32_from_le_bytes, u32_from_le_bytes};
use vstd::prelude::*;
use vstd::slice::slice_subrange;

verus! {

/// Words in a SPIR-V module header.
pub const HEADER_WORDS: usize = 5;

/// The `OpDecorate` opcode.
pub const OP_DECORATE: u32 = 71;

/// The `OpSpecConstant` opcode.
pub const OP_SPEC_CONSTANT: u32 = 50;

/// The `SpecId` decoration number.
pub const DECORATION_SPEC_ID: u32 = 1;

/// The word count of an instruction: the high half of its first word.
pub open spec fn spec_wc(w: u32) -> int {
    (w >> 16) as int
}

/// The opcode of an instruction: the low half of its first word.
pub open spec fn spec_opcode(w: u32) -> int {
    (w & 0xFFFF) as int
}

/// Whether the instruction at `pos` is a well-delimited one: inside the
/// stream, nonzero word count, not running past the end.
pub open spec fn inst_ok(words: Seq<u32>, pos: int) -> bool {
    &&& HEADER_WORDS <= pos < words.len()
    &&& spec_wc(words[pos]) >= 1
    &&& pos + spec_wc(words[pos]) <= words.len()
}

/// The last `SpecId` decoration for `id` at or after `pos`, scanning the
/// instruction stream.
pub open spec fn spec_id_of(words: Seq<u32>, pos: int, id: u32) -> Option<u32>
    decreases words.len() - pos,
{
    if !inst_ok(words, pos) {
        None
    } else {
        let wc = spec_wc(words[pos]);
        let rest = spec_id_of(words, pos + wc, id);
        if rest is Some {
            rest
        } else if spec_opcode(words[pos]) == OP_DECORATE && wc == 4 && words[pos + 1] == id
            && words[pos + 2] == DECORATION_SPEC_ID {
            Some(words[pos + 3])
        } else {
            None
        }
    }
}

/// The first literal word of a value: its first four encoded bytes.
pub open spec fn spec_value_word0(v: ScalarElem) -> u32 {
    spec_u32_from_le_bytes(v.spec_bytes().take(4))
}

/// The second literal word of a value: encoded bytes four through eight.
pub open spec fn spec_value_word1(v: ScalarElem) -> u32 {
    spec_u32_from_le_bytes(v.spec_bytes().subrange(4, 8))
}

/// The words of the instruction at `pos` after patching: literals of a
/// decorated `OpSpecConstant` are overwritten when the provided value has
/// exactly the literal width; every other instruction is unchanged.
pub open spec fn spec_patched_inst(words: Seq<u32>, values: Seq<ScalarElem>, pos: int) -> Seq<u32>
    recommends
        inst_ok(words, pos),
{
    let wc = spec_wc(words[pos]);
    let inst = words.subrange(pos, pos + wc);
    if spec_opcode(words[pos]) != OP_SPEC_CONSTANT {
        inst
    } else {
        match spec_id_of(words, HEADER_WORDS as int, words[pos + 2]) {
            None => inst,
            Some(sid) => {
                if sid < values.len() {
                    let v = values[sid as int];
                    if wc == 4 && v.spec_scalar_type().spec_size() == 4 {
                        inst.update(3, spec_value_word0(v))
                    } else if wc == 5 && v.spec_scalar_type().spec_size() == 8 {
                        inst.update(3, spec_value_word0(v)).update(4, spec_value_word1(v))
                    } else {
                        inst
                    }
                } else {
                    inst
                }
            },
        }
    }
}

/// The instruction stream from `pos` on, with every spec constant
/// patched. A malformed tail is copied through unchanged.
pub open spec fn spec_patch(words: Seq<u32>, values: Seq<ScalarElem>, pos: int) -> Seq<u32>
    decreases words.len() - pos,
{
    if !inst_ok(words, pos) {
        if pos <= words.len() {
            words.subrange(pos, words.len() as int)
        } else {
            Seq::empty()
        }
    } else {
        spec_patched_inst(words, values, pos) + spec_patch(
            words,
            values,
            pos + spec_wc(words[pos]),
        )
    }
}

/// The whole specialized module: header unchanged, instructions patched.
/// A stream shorter than a header is returned as it is.
pub open spec fn spec_specialize(words: Seq<u32>, values: Seq<ScalarElem>) -> Seq<u32> {
    if words.len() < HEADER_WORDS {
        words
    } else {
        words.take(HEADER_WORDS as int) + spec_patch(words, values, HEADER_WORDS as int)
    }
}

/// Patching keeps the stream length.
pub proof fn lemma_patch_len(words: Seq<u32>, values: Seq<ScalarElem>, pos: int)
    requires
        pos >= HEADER_WORDS,
    ensures
        pos <= words.len() ==> spec_patch(words, values, pos).len() == words.len() - pos,
        pos > words.len() ==> spec_patch(words, values, pos).len() == 0,
    decreases words.len() - pos,
{
    if inst_ok(words, pos) {
        lemma_patch_len(words, values, pos + spec_wc(words[pos]));
    }
}

/// The specialized module has exactly the words of the input module,
/// patched: same length always.
pub proof fn lemma_specialize_len(words: Seq<u32>, values: Seq<ScalarElem>)
    ensures
        spec_specialize(words, values).len() == words.len(),
{
    if words.len() >= HEADER_WORDS {
        lemma_patch_len(words, values, HEADER_WORDS as int);
    }
}

/// Scan the annotation stream for the last `SpecId` decoration of `id`.
fn find_spec_id(words: &Vec<u32>, id: u32) -> (r: Option<u32>)
    ensures
        r == spec_id_of(words@, HEADER_WORDS as int, id),
{
    let n = words.len();
    let mut pos: usize = HEADER_WORDS;
    let mut best: Option<u32> = None;
    loop
        invariant
            HEADER_WORDS <= pos,
            pos <= n || n < HEADER_WORDS,
            n == words@.len(),
            spec_id_of(words@, HEADER_WORDS as int, id) == (match spec_id_of(
                words@,
                pos as int,
                id,
            ) {
                Some(s) => Some(s),
                None => best,
            }),
        decreases n - pos,
    {
        if pos >= n {
            return best;
        }
        let w0 = words[pos];
        let wc = (w0 >> 16) as usize;
        if wc == 0 || wc > n - pos {
            return best;
        }
        if (w0 & 0xFFFF) == OP_DECORATE && wc == 4 {
            if words[pos + 1] == id && words[pos + 2] == DECORATION_SPEC_ID {
                best = Some(words[pos + 3]);
            }
        }
        pos += wc;
    }
}

/// The first literal word of a value.
fn value_word0(v: &ScalarElem) -> (r: u32)
    requires
        v.spec_scalar_type().spec_size() >= 4,
    ensures
        r == spec_value_word0(*v),
{
    let bytes = v.to_le_bytes();
    let window = slice_subrange(bytes.as_slice(), 0, 4);
    let r = u32_from_le_bytes(window);
    proof {
        assert(bytes@.subrange(0, 4) =~= v.spec_bytes().take(4));
    }
    r
}

/// The second literal word of a value.
fn value_word1(v: &ScalarElem) -> (r: u32)
    requires
        v.spec_scalar_type().spec_size() == 8,
    ensures
        r == spec_value_word1(*v),
{
    let bytes = v.to_le_bytes();
    let window = slice_subrange(bytes.as_slice(), 4, 8);
    u32_from_le_bytes(window)
}

/// Copy the words `[pos, end)` of `src` onto the end of `out`.
fn copy_words(out: &mut Vec<u32>, src: &Vec<u32>, pos: usize, end: usize)
    requires
        pos <= end,
        end <= src@.len(),
    ensures
        final(out)@ == old(out)@ + src@.subrange(pos as int, end as int),
{
    let mut i = pos;
    while i < end
        invariant
            pos <= i <= end,
            end <= src@.len(),
            out@ == old(out)@ + src@.subrange(pos as int, i as int),
        decreases end - i,
    {
        out.push(src[i]);
        proof {
            assert(out@ =~= old(out)@ + src@.subrange(pos as int, i + 1));
        }
        i += 1;
    }
}

/// Rewrite a module's spec-constant literals from `values`, keyed by each
/// constant's `SpecId` decoration. Returns the patched module; the input
/// is read only. The result is a function of the two arguments alone, so
/// equal inputs give bit-identical output.
pub fn specialize_module(words: &Vec<u32>, values: &Vec<ScalarElem>) -> (r: Vec<u32>)
    ensures
        r@ == spec_specialize(words@, values@),
        r@.len() == words@.len(),
{
    proof {
        lemma_specialize_len(words@, values@);
    }
    let n = words.len();
    let mut out: Vec<u32> = Vec::new();
    if n < HEADER_WORDS {
        copy_words(&mut out, words, 0, n);
        proof {
            assert(out@ =~= spec_specialize(words@, values@));
        }
        return out;
    }
    copy_words(&mut out, words, 0, HEADER_WORDS);
    let mut pos: usize = HEADER_WORDS;
    loop
        invariant
            HEADER_WORDS <= pos <= n,
            n == words@.len(),
            n >= HEADER_WORDS,
            values@ == values@,
            out@ + spec_patch(words@, values@, pos as int) == spec_specialize(words@, values@),
        decreases n - pos,
    {
        if pos >= n {
            proof {
                lemma_specialize_len(words@, values@);
                assert(out@ =~= spec_specialize(words@, values@));
            }
            return out;
        }
        let w0 = words[pos];
        let wc = (w0 >> 16) as usize;
        if wc == 0 || wc > n - pos {
            copy_words(&mut out, words, pos, n);
            proof {
                lemma_specialize_len(words@, values@);
                assert(!inst_ok(words@, pos as int));
                assert(out@ =~= spec_specialize(words@, values@));
            }
            return out;
        }
        let ghost pre = out@;
        if (w0 & 0xFFFF) == OP_SPEC_CONSTANT && (wc == 4 || wc == 5) {
            let result_id = words[pos + 2];
            let mut patched = false;
            match find_spec_id(words, result_id) {
                Some(sid) => {
                    if (sid as usize) < values.len() {
                        let v = values[sid as usize];
                        let width = v.scalar_type().size();
                        if wc == 4 && width == 4 {
                            out.push(words[pos]);
                            out.push(words[pos + 1]);
                            out.push(words[pos + 2]);
                            out.push(value_word0(&v));
                            proof {
                                assert(out@ =~= pre + spec_patched_inst(
                                    words@,
                                    values@,
                                    pos as int,
                                ));
                            }
                            patched = true;
                        } else if wc == 5 && width == 8 {
                            out.push(words[pos]);
                            out.push(words[pos + 1]);
                            out.push(words[pos + 2]);
                            out.push(value_word0(&v));
                            out.push(value_word1(&v));
                            proof {
                                assert(out@ =~= pre + spec_patched_inst(
                                    words@,
                                    values@,
                                    pos as int,
                                ));
                            }
                            patched = true;
                        }
                    }
                },
                None => {},
            }
            if !patched {
                copy_words(&mut out, words, pos, pos + wc);
                proof {
                    assert(out@ =~= pre + spec_patched_inst(words@, values@, pos as int));
                }
            }
        } else {
            copy_words(&mut out, words, pos, pos + wc);
            proof {
                assert(out@ =~= pre + spec_patched_inst(words@, values@, pos as int));
            }
        }
        pos += wc;
    }
}

impl KernelDesc {
    /// A specialized copy of this descriptor: the SPIR-V rewritten from
    /// `spec_consts`, the resolved workgroup dimensions in place of the
    /// declared ones, and no specialization constants left to bind.
    pub fn specialize(&self, threads: Vec<u32>, spec_consts: &Vec<ScalarElem>) -> (r: KernelDesc)
        requires
            self.wf(),
            1 <= threads@.len() <= 3,
            forall|i: int| 0 <= i < threads@.len() ==> threads@[i] >= 1,
        ensures
            r.wf(),
            r.name@ == self.name@,
            r.hash == self.hash,
            r.features == self.features,
            r.safe == self.safe,
            r.threads@ == threads@,
            r.spec_descs@.len() == 0,
            slice_descs_eqv(r.slice_descs@, self.slice_descs@),
            push_descs_eqv(r.push_descs@, self.push_descs@),
            r.spirv@ == spec_specialize(self.spirv@, spec_consts@),
    {
        let spirv = specialize_module(&self.spirv, spec_consts);
        KernelDesc {
            name: dup_bytes(&self.name),
            hash: self.hash,
            spirv,
            features: self.features,
            threads,
            safe: self.safe,
            spec_descs: Vec::new(),
            slice_descs: dup_slice_descs(&self.slice_descs),
            push_descs: dup_push_descs(&self.push_descs),
        }
    }
}
} // verus!
