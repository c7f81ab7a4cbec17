//! Which positions of a series a projection covers.

use vstd::prelude::*;

verus! {

/// The `quantos` consecutive positions that start at `inicio`.
pub open spec fn faixa(inicio: nat, quantos: nat) -> Seq<usize> {
    Seq::new(quantos, |k: int| (inicio + k) as usize)
}

/// Lists the positions that a projection of `quantos` values from `inicio` on
/// covers, in order. The position after the last one must still be a
/// position that the machine can name.
pub fn posicoes_previsao(inicio: usize, quantos: usize) -> (r: Vec<usize>)
    requires
        inicio + quantos <= usize::MAX,
    ensures
        r@ == faixa(inicio as nat, quantos as nat),
{
    let mut posicoes: Vec<usize> = Vec::new();
    let mut k: usize = 0;
    while k < quantos
        invariant
            k <= quantos,
            inicio + quantos <= usize::MAX,
            posicoes@ == faixa(inicio as nat, k as nat),
        decreases quantos - k,
    {
        posicoes.push(inicio + k);
        k += 1;
    }
    posicoes
}

/// A projection that continues another covers exactly what one projection
/// over both stretches covers: projecting `a` values and then `b` more from
/// where the first ended names the same positions as projecting `a + b`.
pub proof fn lema_faixa_continua(inicio: nat, a: nat, b: nat)
    requires
        inicio + a + b <= usize::MAX,
    ensures
        faixa(inicio, a) + faixa(inicio + a, b) == faixa(inicio, a + b),
{
    assert(faixa(inicio, a) + faixa(inicio + a, b) =~= faixa(inicio, a + b));
}

/// The positions of a series of `n` observations are those of a projection of
/// `n` values from its start, and a projection from the end of the series
/// begins right after its last observation.
pub proof fn lema_faixa_da_serie(n: nat, k: int)
    requires
        0 <= k < n <= usize::MAX,
    ensures
        faixa(0, n).len() == n,
        faixa(0, n)[k] == k,
        n + n <= usize::MAX ==> faixa(n, n)[k] == n + k,
{
}

} // verus!
