use vstd::prelude::*;
use rand::rngs::StdRng;
use rand::Rng;
use crate::field::{
    Fe, poly, padd, pzero, byte_product, flip_bit, low_half, high_half, fe_xor, mul_byte,
    lift_byte, lemma_poly_zero, lemma_limbs_from_halves, lemma_flip_bit_coeff,
};

verus! {

/// The number of rows of the secret matrix, and so of the commitment.
pub const ROWS: usize = 128;

#[verifier::external_type_specification]
#[verifier::external_body]
pub struct ExStdRng(StdRng);

/// Relies on rand's `Rng::random::<u64>` for `StdRng`: one word drawn from the
/// generator, which advances it. Nothing is promised of the value.
#[verifier::external_body]
fn draw_word(rng: &mut StdRng) -> (r: u64) {
    rng.random::<u64>()
}

/// `sum over j < n of row[j] * input[j]`, each product taken as the byte
/// gadget takes it.
pub open spec fn row_dot(row: Seq<Fe>, input: Seq<Fe>, n: nat) -> Seq<bool>
    decreases n,
{
    if n == 0 {
        pzero()
    } else {
        padd(row_dot(row, input, (n - 1) as nat), byte_product(row[n - 1], input[n - 1]))
    }
}

/// Entry `i` of `A * I`.
pub open spec fn row_value(a: Seq<Vec<Fe>>, input: Seq<Fe>, i: int) -> Seq<bool> {
    row_dot(a[i]@, input, input.len())
}

/// Every row of `a` has `cols` entries.
pub open spec fn is_matrix(a: Seq<Vec<Fe>>, cols: nat) -> bool {
    forall|i: int| 0 <= i < a.len() ==> (#[trigger] a[i])@.len() == cols
}

/// `H = A * I`, entry by entry.
pub open spec fn relation_holds(a: Seq<Vec<Fe>>, input: Seq<Fe>, h: Seq<Fe>) -> bool {
    &&& h.len() == a.len()
    &&& forall|i: int| 0 <= i < a.len() ==> poly(#[trigger] h[i]) == row_value(a, input, i)
}

/// A byte string lifted to field elements, one byte per element.
pub open spec fn lifted_message(msg: Seq<u8>) -> Seq<Fe> {
    Seq::new(msg.len(), |j: int| Fe { lo: msg[j] as u64, hi: 0 })
}

/// Lifts each byte of `msg` into a field element.
pub fn lift_message(msg: &[u8]) -> (r: Vec<Fe>)
    ensures
        r@ == lifted_message(msg@),
{
    let mut r: Vec<Fe> = Vec::new();
    let mut j: usize = 0;
    while j < msg.len()
        invariant
            j <= msg.len(),
            r@ == lifted_message(msg@).subrange(0, j as int),
        decreases msg.len() - j,
    {
        r.push(lift_byte(msg[j]));
        j = j + 1;
    }
    assert(r@ =~= lifted_message(msg@));
    r
}

/// One entry of the commitment: the sum of `row[j] * input[j]` over `j`.
pub fn row_product(row: &Vec<Fe>, input: &Vec<Fe>) -> (r: Fe)
    requires
        row.len() == input.len(),
    ensures
        poly(r) == row_dot(row@, input@, input.len() as nat),
{
    let mut acc = Fe { lo: 0, hi: 0 };
    proof {
        lemma_poly_zero();
    }
    let mut j: usize = 0;
    while j < input.len()
        invariant
            j <= input.len(),
            row.len() == input.len(),
            poly(acc) == row_dot(row@, input@, j as nat),
        decreases input.len() - j,
    {
        let t = mul_byte(row[j], input[j]);
        acc = fe_xor(acc, t);
        j = j + 1;
    }
    acc
}

/// The commitment `H = A * I`.
pub fn commit(a: &Vec<Vec<Fe>>, input: &Vec<Fe>) -> (h: Vec<Fe>)
    requires
        is_matrix(a@, input.len() as nat),
    ensures
        relation_holds(a@, input@, h@),
{
    let mut h: Vec<Fe> = Vec::new();
    let mut i: usize = 0;
    while i < a.len()
        invariant
            i <= a.len(),
            is_matrix(a@, input.len() as nat),
            h.len() == i,
            forall|k: int| 0 <= k < i ==> poly(#[trigger] h@[k]) == row_value(a@, input@, k),
        decreases a.len() - i,
    {
        assert(a@[i as int]@.len() == input.len());
        let e = row_product(&a[i], input);
        h.push(e);
        i = i + 1;
    }
    h
}

/// Which limb of an entry an equality failed on.
#[derive(Clone, Copy, Debug, PartialEq, Eq, Structural)]
pub enum Limb {
    Lo,
    Hi,
}

/// The first entry of `H` that differs from `A * I`, and the limb that
/// differs first.
#[derive(Clone, Copy, Debug, PartialEq, Eq, Structural)]
pub struct RelationError {
    pub row: usize,
    pub limb: Limb,
}

/// Checks `H = A * I`, the low and the high limb of each entry separately.
/// Fails at the first entry that differs, naming the limb: the low one if it
/// differs, else the high one.
pub fn check_relation(a: &Vec<Vec<Fe>>, input: &Vec<Fe>, h: &Vec<Fe>) -> (r: Result<
    (),
    RelationError,
>)
    requires
        is_matrix(a@, input.len() as nat),
        h.len() == a.len(),
    ensures
        r is Ok <==> relation_holds(a@, input@, h@),
        r matches Err(e) ==> {
            &&& e.row < h.len()
            &&& forall|i: int| 0 <= i < e.row ==> poly(#[trigger] h@[i]) == row_value(a@, input@, i)
            &&& poly(h@[e.row as int]) != row_value(a@, input@, e.row as int)
            &&& (e.limb == Limb::Lo) == (low_half(poly(h@[e.row as int])) != low_half(
                row_value(a@, input@, e.row as int),
            ))
        },
{
    let mut i: usize = 0;
    while i < a.len()
        invariant
            i <= a.len(),
            h.len() == a.len(),
            is_matrix(a@, input.len() as nat),
            forall|k: int| 0 <= k < i ==> poly(#[trigger] h@[k]) == row_value(a@, input@, k),
        decreases a.len() - i,
    {
        assert(a@[i as int]@.len() == input.len());
        let e = row_product(&a[i], input);
        let got = h[i];
        proof {
            lemma_limbs_from_halves(got, e);
        }
        if got.lo != e.lo {
            return Err(RelationError { row: i, limb: Limb::Lo });
        }
        if got.hi != e.hi {
            return Err(RelationError { row: i, limb: Limb::Hi });
        }
        assert(got == e);
        i = i + 1;
    }
    Ok(())
}

/// Flipping any single bit of any entry of a commitment that satisfies the
/// relation breaks it.
pub proof fn lemma_flipped_bit_breaks_relation(
    a: Seq<Vec<Fe>>,
    input: Seq<Fe>,
    h: Seq<Fe>,
    i: int,
    k: int,
)
    requires
        relation_holds(a, input, h),
        0 <= i < h.len(),
        0 <= k < 128,
    ensures
        !relation_holds(a, input, h.update(i, flip_bit(h[i], k))),
{
    lemma_flip_bit_coeff(h[i], k);
    let h2 = h.update(i, flip_bit(h[i], k));
    assert(poly(h2[i]) != poly(h[i]));
}

/// Draws an `rows` by `cols` matrix of field elements from `rng`.
pub fn sample_matrix(rng: &mut StdRng, rows: usize, cols: usize) -> (a: Vec<Vec<Fe>>)
    ensures
        a.len() == rows,
        is_matrix(a@, cols as nat),
{
    let mut a: Vec<Vec<Fe>> = Vec::new();
    let mut i: usize = 0;
    while i < rows
        invariant
            i <= rows,
            a.len() == i,
            is_matrix(a@, cols as nat),
        decreases rows - i,
    {
        let mut row: Vec<Fe> = Vec::new();
        let mut j: usize = 0;
        while j < cols
            invariant
                j <= cols,
                row.len() == j,
            decreases cols - j,
        {
            let lo = draw_word(rng);
            let hi = draw_word(rng);
            row.push(Fe { lo, hi });
            j = j + 1;
        }
        a.push(row);
        i = i + 1;
    }
    a
}

/// The host-side data of one proving session: the secret matrix `a`, the
/// public input `input` and the public commitment `h`.
pub struct Instance {
    pub a: Vec<Vec<Fe>>,
    pub input: Vec<Fe>,
    pub h: Vec<Fe>,
}

/// Prepares a session for `message`: samples a `ROWS` by `message.len()`
/// secret matrix from `rng`, lifts the message into the public input, and
/// computes the commitment.
pub fn prepare(rng: &mut StdRng, message: &[u8]) -> (r: Instance)
    ensures
        r.a.len() == ROWS,
        is_matrix(r.a@, message.len() as nat),
        r.input@ == lifted_message(message@),
        relation_holds(r.a@, r.input@, r.h@),
{
    let a = sample_matrix(rng, ROWS, message.len());
    let input = lift_message(message);
    let h = commit(&a, &input);
    Instance { a, input, h }
}

} // verus!
