//! The hardware-entropy batch path: a 64-bit entropy word is split into
//! eight bytes and each byte is reduced to a die face by
//! `(byte % sides) + 1`.
//!
//! The surrounding program gathers the entropy words (or none, when the
//! hardware source is absent or reports failure); everything from the
//! words to the roll result is computed and verified here. The byte
//! reduction is slightly biased whenever `sides` does not divide 256
//! evenly; that approximation is accepted for tabletop dice.

use vstd::prelude::*;
use crate::common::{byte_of, ToByteArray};
use crate::dice::{roll, Results};

verus! {

/// Face value obtained from one byte of hardware entropy.
pub fn face_from_byte(byte: u8, sides: u8) -> (face: u8)
    requires
        sides >= 1,
    ensures
        face == byte % sides + 1,
        1 <= face <= sides,
{
    byte % sides + 1
}

/// The eight faces one entropy word yields, least significant byte first.
pub open spec fn word_faces(w: u64, sides: u8) -> Seq<u8> {
    Seq::new(8, |i: int| (byte_of(w, i) % sides + 1) as u8)
}

/// The face stream that a sequence of entropy words yields.
pub open spec fn native_faces(ws: Seq<u64>, sides: u8) -> Seq<u8>
    decreases ws.len(),
{
    if ws.len() == 0 {
        Seq::empty()
    } else {
        native_faces(ws.drop_last(), sides) + word_faces(ws.last(), sides)
    }
}

pub proof fn lemma_native_faces_len(ws: Seq<u64>, sides: u8)
    ensures
        native_faces(ws, sides).len() == 8 * ws.len(),
    decreases ws.len(),
{
    if ws.len() > 0 {
        lemma_native_faces_len(ws.drop_last(), sides);
    }
}

pub proof fn lemma_native_faces_range(ws: Seq<u64>, sides: u8)
    requires
        sides >= 1,
    ensures
        forall|i: int| 0 <= i < native_faces(ws, sides).len() ==> 1 <= #[trigger] native_faces(
            ws,
            sides,
        )[i] <= sides,
    decreases ws.len(),
{
    if ws.len() > 0 {
        lemma_native_faces_range(ws.drop_last(), sides);
        lemma_native_faces_len(ws.drop_last(), sides);
    }
}

/// The faces of a word prefix are a prefix of the faces of the whole.
proof fn lemma_native_faces_prefix(ws: Seq<u64>, sides: u8, k: int)
    requires
        0 <= k <= ws.len(),
    ensures
        native_faces(ws.take(k), sides) =~= native_faces(ws, sides).take(8 * k),
    decreases ws.len() - k,
{
    lemma_native_faces_len(ws, sides);
    if k == ws.len() {
        assert(ws.take(k) =~= ws);
        assert(native_faces(ws, sides).take(8 * k) =~= native_faces(ws, sides));
    } else {
        lemma_native_faces_prefix(ws, sides, k + 1);
        let t1 = ws.take(k + 1);
        assert(t1.drop_last() =~= ws.take(k));
        assert(t1.last() == ws[k]);
        lemma_native_faces_len(ws.take(k), sides);
        assert(native_faces(t1, sides) == native_faces(ws.take(k), sides) + word_faces(
            ws[k],
            sides,
        ));
        assert(native_faces(ws.take(k), sides) =~= native_faces(t1, sides).take(8 * k));
        assert(native_faces(t1, sides) =~= native_faces(ws, sides).take(8 * k + 8));
        assert(native_faces(ws, sides).take(8 * k + 8).take(8 * k) =~= native_faces(
            ws,
            sides,
        ).take(8 * k));
    }
}

/// Roll `amount` dice with `sides` sides from pre-gathered hardware
/// entropy words. Words are consumed in units of 8 bytes until at least
/// `amount` faces are produced, then the stream is truncated to exactly
/// `amount`. Returns nothing when the words cannot cover the request —
/// the signal that the caller must fall back to the software sampler.
pub fn roll_native(amount: usize, sides: u8, words: &Vec<u64>) -> (r: Option<Results>)
    requires
        1 <= sides,
    ensures
        r is Some <==> amount <= words@.len() * 8,
        r matches Some(res) ==> {
            &&& res.wf()
            &&& res.sides == sides
            &&& res.count == amount
            &&& res.counts is None
            &&& (res.data matches Some(d) && d@ =~= native_faces(words@, sides).take(
                amount as int,
            ))
        },
{
    let needed: usize = amount / 8 + if amount % 8 == 0 {
        0
    } else {
        1
    };
    if needed > words.len() {
        proof {
            assert(amount > words@.len() * 8) by (nonlinear_arith)
                requires
                    needed > words@.len(),
                    needed == amount / 8 + if amount % 8 == 0 { 0int } else { 1int },
                    amount >= 0;
        }
        return None;
    }
    proof {
        assert(amount <= words@.len() * 8) by (nonlinear_arith)
            requires
                needed <= words@.len(),
                needed == amount / 8 + if amount % 8 == 0 { 0int } else { 1int },
                amount >= 0;
    }
    let mut faces: Vec<u8> = Vec::new();
    let mut k: usize = 0;
    while k < needed
        invariant
            1 <= sides,
            needed <= words@.len(),
            0 <= k <= needed,
            faces@ =~= native_faces(words@.take(k as int), sides),
            faces@.len() == 8 * k,
        decreases needed - k,
    {
        let w: u64 = words[k];
        let bytes: [u8; 8] = w.to_byte_array();
        let ghost before = faces@;
        let mut b: usize = 0;
        while b < 8
            invariant
                1 <= sides,
                0 <= b <= 8,
                bytes@ =~= crate::common::word_bytes(w),
                faces@ =~= before + word_faces(w, sides).take(b as int),
            decreases 8 - b,
        {
            let face = face_from_byte(bytes[b], sides);
            faces.push(face);
            proof {
                assert(word_faces(w, sides).take(b + 1) =~= word_faces(w, sides).take(
                    b as int,
                ).push((byte_of(w, b as int) % sides + 1) as u8));
            }
            b += 1;
        }
        proof {
            assert(word_faces(w, sides).take(8) =~= word_faces(w, sides));
            assert(words@.take(k + 1).drop_last() =~= words@.take(k as int));
            assert(words@.take(k + 1).last() == words@[k as int]);
            lemma_native_faces_len(words@.take(k as int), sides);
        }
        k += 1;
    }
    proof {
        lemma_native_faces_prefix(words@, sides, needed as int);
        assert(8 * needed >= amount) by (nonlinear_arith)
            requires
                needed == amount / 8 + if amount % 8 == 0 { 0int } else { 1int },
                amount >= 0;
    }
    let ghost whole = native_faces(words@, sides);
    proof {
        lemma_native_faces_len(words@, sides);
        assert(faces@ =~= whole.take(8 * needed as int));
    }
    faces.truncate(amount);
    proof {
        assert(faces@ =~= whole.take(8 * needed as int).subrange(0, amount as int));
        assert(whole.take(8 * needed as int).subrange(0, amount as int) =~= whole.take(
            amount as int,
        ));
        assert(faces@ =~= native_faces(words@, sides).take(amount as int));
        lemma_native_faces_range(words@, sides);
        lemma_native_faces_len(words@, sides);
        assert(forall|i: int| 0 <= i < faces@.len() ==> 1 <= #[trigger] faces@[i] <= sides);
    }
    Some(Results { counts: None, data: Some(faces), sides, count: amount as u64 })
}

/// Roll through the hardware batch path when the gathered entropy words
/// cover the request, else degrade to the software sampler. Either way
/// the result is well formed and every face value lies in `[1, sides]`.
pub fn roll_with_fallback(
    amount: usize,
    sides: u8,
    old_style: bool,
    words: &Vec<u64>,
    rng: &mut rand::rngs::StdRng,
) -> (r: Results)
    requires
        1 <= sides,
    ensures
        r.wf(),
        r.sides == sides,
        r.count == amount,
        amount <= words@.len() * 8 ==> (r.data matches Some(d) && d@ =~= native_faces(
            words@,
            sides,
        ).take(amount as int)),
        amount > words@.len() * 8 ==> ((r.data is Some <==> old_style) && (r.counts is Some
            <==> !old_style)),
{
    match roll_native(amount, sides, words) {
        Some(res) => res,
        None => roll(amount, sides, old_style, rng),
    }
}

} // verus!
