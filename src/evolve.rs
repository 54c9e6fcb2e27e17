use crate::qr::QR;
use std::rc::Rc;
use vstd::prelude::*;

verus! {

/// A candidate is rejected once the decoder has to repair this many bit
/// errors.
pub const ERROR_CEILING: u32 = 40;

/// The grid after the first `k` mutation attempts at `cells`: an attempt at a
/// functional cell does nothing, any other toggles the module.
pub open spec fn mutated(data: Seq<u8>, functional: Seq<bool>, cells: Seq<usize>, k: int) -> Seq<u8>
    decreases k,
{
    if k <= 0 {
        data
    } else {
        let prev = mutated(data, functional, cells, k - 1);
        let c = cells[k - 1] as int;
        if functional[c] {
            prev
        } else {
            prev.update(c, (1 - prev[c]) as u8)
        }
    }
}

/// Number of cells at which two grids differ among the first `n`.
pub open spec fn differing(a: Seq<u8>, b: Seq<u8>, n: int) -> nat
    decreases n,
{
    if n <= 0 {
        0
    } else {
        differing(a, b, n - 1) + if a[n - 1] != b[n - 1] {
            1nat
        } else {
            0nat
        }
    }
}

/// Relies on `Rc::clone`: another handle on the same value.
#[verifier::external_body]
fn share<T>(rc: &Rc<T>) -> (r: Rc<T>)
    ensures
        r == *rc,
{
    Rc::clone(rc)
}

proof fn lemma_mutated_shape(data: Seq<u8>, functional: Seq<bool>, cells: Seq<usize>, k: int)
    requires
        0 <= k <= cells.len(),
        functional.len() == data.len(),
        forall|j: int| 0 <= j < cells.len() ==> #[trigger] cells[j] < data.len(),
        forall|i: int| 0 <= i < data.len() ==> #[trigger] data[i] <= 1,
    ensures
        mutated(data, functional, cells, k).len() == data.len(),
        forall|i: int|
            0 <= i < data.len() ==> #[trigger] mutated(data, functional, cells, k)[i] <= 1,
    decreases k,
{
    if k > 0 {
        lemma_mutated_shape(data, functional, cells, k - 1);
    }
}

/// Mutation never changes a functional cell: the child agrees with its
/// parent at every functional index, whatever cells were drawn.
pub proof fn lemma_mutation_keeps_functional(
    data: Seq<u8>,
    functional: Seq<bool>,
    cells: Seq<usize>,
    k: int,
)
    requires
        0 <= k <= cells.len(),
        functional.len() == data.len(),
        forall|j: int| 0 <= j < cells.len() ==> #[trigger] cells[j] < data.len(),
    ensures
        mutated(data, functional, cells, k).len() == data.len(),
        forall|i: int|
            0 <= i < data.len() && functional[i] ==> #[trigger] mutated(data, functional, cells, k)[i]
                == data[i],
    decreases k,
{
    if k > 0 {
        lemma_mutation_keeps_functional(data, functional, cells, k - 1);
    }
}

/// A child of `parent`: one mutation attempt at each of `cells`, in order.
/// An attempt at a functional cell is skipped; any other toggles the module.
pub fn mutate(parent: &QR, cells: &Vec<usize>) -> (r: QR)
    requires
        parent.wf(),
        forall|j: int| 0 <= j < cells@.len() ==> #[trigger] cells@[j] < parent.data@.len(),
    ensures
        r.wf(),
        r.side == parent.side,
        r.version == parent.version,
        r.functional_cells() == parent.functional_cells(),
        r.data@ == mutated(parent.data@, parent.functional_cells(), cells@, cells@.len() as int),
        forall|i: int|
            0 <= i < r.data@.len() && parent.is_functional_index(i) ==> #[trigger] r.data@[i]
                == parent.data@[i],
{
    let mut data = parent.data.clone();
    let func: &Vec<bool> = &*parent.functional;
    let mut k: usize = 0;
    while k < cells.len()
        invariant
            parent.wf(),
            forall|j: int| 0 <= j < cells@.len() ==> #[trigger] cells@[j] < parent.data@.len(),
            *func == *parent.functional,
            k <= cells@.len(),
            data@ == mutated(parent.data@, parent.functional_cells(), cells@, k as int),
        decreases cells@.len() - k,
    {
        proof {
            lemma_mutated_shape(parent.data@, parent.functional_cells(), cells@, k as int);
        }
        let c: usize = cells[k];
        if !func[c] {
            let v: u8 = data[c];
            data.set(c, 1 - v);
        }
        k = k + 1;
    }
    proof {
        lemma_mutated_shape(parent.data@, parent.functional_cells(), cells@, cells@.len() as int);
        lemma_mutation_keeps_functional(parent.data@, parent.functional_cells(), cells@, cells@.len() as int);
    }
    QR { data, side: parent.side, version: parent.version, functional: share(&parent.functional) }
}

/// Whether a decoder result lets a candidate into the population: it
/// decoded, to exactly `target`, with fewer repaired errors than the ceiling.
pub fn accepts(result: &Result<(String, u32), String>, target: &String) -> (r: bool)
    ensures
        r == match result {
            Ok((text, errors)) => text@ == target@ && *errors < ERROR_CEILING,
            Err(_) => false,
        },
{
    match result {
        Ok((text, errors)) => *text == *target && *errors < ERROR_CEILING,
        Err(_) => false,
    }
}

/// Rank of the parent picked from a population sorted best first: `i` is a
/// uniform rank and `num / den` a weight in [0, 0.1); the result is
/// `floor(0.5 + i * num / den)`, which never exceeds `i`.
pub fn weighted_index(i: usize, num: u64, den: u64) -> (r: usize)
    requires
        den > 0,
        10 * num < den,
    ensures
        r == (den + 2 * i * num) / (2 * den),
        r <= i,
{
    assert(2 * (i as int) * (num as int) + den < 0x1_0000_0000_0000_0000_0000_0000_0000_0000) by (nonlinear_arith)
        requires
            i < 0x1_0000_0000_0000_0000,
            num < 0x1_0000_0000_0000_0000,
            den < 0x1_0000_0000_0000_0000,
            10 * num < den,
    ;
    assert(2 * (i as int) * (num as int) <= 2 * (i as int) * (num as int) + den);
    let top: u128 = den as u128 + 2 * (i as u128) * (num as u128);
    let bottom: u128 = 2 * den as u128;
    assert(2 * i * num <= 2 * i * den / 10) by (nonlinear_arith)
        requires
            10 * num < den,
    ;
    assert((den + 2 * i * num) / (2 * den) <= i) by (nonlinear_arith)
        requires
            den > 0,
            10 * num < den,
            2 * i * num <= 2 * i * den / 10,
    ;
    (top / bottom) as usize
}

/// Number of cells at which `a` differs from `reference`.
pub fn diff_count(a: &QR, reference: &QR) -> (r: usize)
    requires
        a.data@.len() == reference.data@.len(),
    ensures
        r == differing(a.data@, reference.data@, a.data@.len() as int),
{
    let n: usize = a.data.len();
    let mut count: usize = 0;
    let mut i: usize = 0;
    while i < n
        invariant
            n == a.data@.len(),
            n == reference.data@.len(),
            i <= n,
            count <= i,
            count == differing(a.data@, reference.data@, i as int),
        decreases n - i,
    {
        if a.data[i] != reference.data[i] {
            count = count + 1;
        }
        i = i + 1;
    }
    count
}

} // verus!
