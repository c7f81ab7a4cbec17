//! The ascending order of a sample, as a list of positions. Samples that
//! compare equal keep the order in which they were given, so the list is the
//! one that a stable sort by value produces.

use vstd::prelude::*;
use crate::codigo::posto;
use crate::codigo::todos_definidos;
use crate::codigo::calcular_posto;

verus! {

/// Whether position `a` comes before position `b` in the ascending order of
/// `codigos`: the smaller number first, and of two equal numbers the one that
/// was given first.
pub open spec fn precede(codigos: Seq<u64>, a: int, b: int) -> bool {
    posto(codigos[a]) < posto(codigos[b]) || (posto(codigos[a]) == posto(codigos[b]) && a < b)
}

/// Whether position `p` occurs in `ordem`.
pub open spec fn ocorre(ordem: Seq<usize>, p: int) -> bool {
    exists|i: int| 0 <= i < ordem.len() && #[trigger] ordem[i] == p
}

/// Whether `ordem` lists the positions `inicio..fim` of `codigos`, each once,
/// in ascending order.
pub open spec fn ordena_faixa(codigos: Seq<u64>, ordem: Seq<usize>, inicio: int, fim: int) -> bool {
    &&& ordem.len() == fim - inicio
    &&& forall|i: int| 0 <= i < ordem.len() ==> inicio <= #[trigger] ordem[i] < fim
    &&& forall|i: int, j: int|
        0 <= i < j < ordem.len() ==> precede(codigos, #[trigger] ordem[i] as int, #[trigger] ordem[j] as int)
    &&& forall|p: int| inicio <= p < fim ==> #[trigger] ocorre(ordem, p)
}

/// Whether `ordem` is the ascending order of all of `codigos`.
pub open spec fn ordena(codigos: Seq<u64>, ordem: Seq<usize>) -> bool {
    ordena_faixa(codigos, ordem, 0, codigos.len() as int)
}

/// The ascending order of a sample.
pub open spec fn ordem_de(codigos: Seq<u64>) -> Seq<usize> {
    choose|ordem: Seq<usize>| ordena(codigos, ordem)
}

/// Tells whether position `a` comes before position `b`.
fn vem_antes(codigos: &Vec<u64>, a: usize, b: usize) -> (r: bool)
    requires
        a < codigos.len(),
        b < codigos.len(),
    ensures
        r == precede(codigos@, a as int, b as int),
{
    let pa: i64 = calcular_posto(codigos[a]);
    let pb: i64 = calcular_posto(codigos[b]);
    pa < pb || (pa == pb && a < b)
}

/// What occurs in a list still occurs after one more position is appended,
/// and so does the appended position.
proof fn lema_ocorre_ao_acrescentar(ordem: Seq<usize>, novo: usize, p: int)
    requires
        ocorre(ordem, p) || p == novo,
    ensures
        ocorre(ordem.push(novo), p),
{
    let maior = ordem.push(novo);
    if ocorre(ordem, p) {
        let i = choose|i: int| 0 <= i < ordem.len() && #[trigger] ordem[i] == p;
        assert(maior[i] == p);
    } else {
        assert(maior[ordem.len() as int] == p);
    }
}

/// Merges the ascending orders of two adjoining ranges into that of their
/// union.
fn intercalar(
    codigos: &Vec<u64>,
    esquerda: &Vec<usize>,
    direita: &Vec<usize>,
    inicio: usize,
    meio: usize,
    fim: usize,
) -> (r: Vec<usize>)
    requires
        inicio <= meio <= fim <= codigos.len(),
        ordena_faixa(codigos@, esquerda@, inicio as int, meio as int),
        ordena_faixa(codigos@, direita@, meio as int, fim as int),
    ensures
        ordena_faixa(codigos@, r@, inicio as int, fim as int),
{
    let mut saida: Vec<usize> = Vec::new();
    let mut i: usize = 0;
    let mut j: usize = 0;
    while i < esquerda.len() || j < direita.len()
        invariant
            inicio <= meio <= fim <= codigos.len(),
            ordena_faixa(codigos@, esquerda@, inicio as int, meio as int),
            ordena_faixa(codigos@, direita@, meio as int, fim as int),
            i <= esquerda.len(),
            j <= direita.len(),
            saida.len() == i + j,
            forall|k: int| 0 <= k < saida.len() ==> inicio <= #[trigger] saida@[k] < fim,
            forall|k: int, l: int|
                0 <= k < l < saida.len() ==> precede(
                    codigos@,
                    #[trigger] saida@[k] as int,
                    #[trigger] saida@[l] as int,
                ),
            forall|k: int, l: int|
                0 <= k < saida.len() && i <= l < esquerda.len() ==> precede(
                    codigos@,
                    #[trigger] saida@[k] as int,
                    #[trigger] esquerda@[l] as int,
                ),
            forall|k: int, l: int|
                0 <= k < saida.len() && j <= l < direita.len() ==> precede(
                    codigos@,
                    #[trigger] saida@[k] as int,
                    #[trigger] direita@[l] as int,
                ),
            forall|l: int| 0 <= l < i ==> #[trigger] ocorre(saida@, esquerda@[l] as int),
            forall|l: int| 0 <= l < j ==> #[trigger] ocorre(saida@, direita@[l] as int),
        decreases esquerda.len() - i + direita.len() - j,
    {
        let ghost antes = saida@;
        let da_esquerda: bool = if i >= esquerda.len() {
            false
        } else if j >= direita.len() {
            true
        } else {
            vem_antes(codigos, esquerda[i], direita[j])
        };
        let escolhido: usize = if da_esquerda {
            esquerda[i]
        } else {
            direita[j]
        };
        saida.push(escolhido);
        proof {
            assert forall|l: int| 0 <= l < i implies #[trigger] ocorre(
                saida@,
                esquerda@[l] as int,
            ) by {
                lema_ocorre_ao_acrescentar(antes, escolhido, esquerda@[l] as int);
            }
            assert forall|l: int| 0 <= l < j implies #[trigger] ocorre(
                saida@,
                direita@[l] as int,
            ) by {
                lema_ocorre_ao_acrescentar(antes, escolhido, direita@[l] as int);
            }
            lema_ocorre_ao_acrescentar(antes, escolhido, escolhido as int);
        }
        if da_esquerda {
            proof {
                assert forall|l: int| j <= l < direita.len() implies precede(
                    codigos@,
                    escolhido as int,
                    #[trigger] direita@[l] as int,
                ) by {
                    if l > j {
                        assert(precede(codigos@, direita@[j as int] as int, direita@[l] as int));
                    }
                }
                assert forall|l: int| i + 1 <= l < esquerda.len() implies precede(
                    codigos@,
                    escolhido as int,
                    #[trigger] esquerda@[l] as int,
                ) by {
                    assert(precede(codigos@, esquerda@[i as int] as int, esquerda@[l] as int));
                }
            }
            i += 1;
        } else {
            proof {
                assert forall|l: int| i <= l < esquerda.len() implies precede(
                    codigos@,
                    escolhido as int,
                    #[trigger] esquerda@[l] as int,
                ) by {
                    assert(esquerda@[l] < meio <= direita@[j as int]);
                    assert(esquerda@[i as int] < meio);
                    if l > i {
                        assert(precede(codigos@, esquerda@[i as int] as int, esquerda@[l] as int));
                    }
                }
                assert forall|l: int| j + 1 <= l < direita.len() implies precede(
                    codigos@,
                    escolhido as int,
                    #[trigger] direita@[l] as int,
                ) by {
                    assert(precede(codigos@, direita@[j as int] as int, direita@[l] as int));
                }
            }
            j += 1;
        }
    }
    proof {
        assert forall|p: int| inicio <= p < fim implies #[trigger] ocorre(saida@, p) by {
            if p < meio {
                assert(ocorre(esquerda@, p));
                let l = choose|l: int| 0 <= l < esquerda.len() && #[trigger] esquerda@[l] == p;
                assert(ocorre(saida@, esquerda@[l] as int));
            } else {
                assert(ocorre(direita@, p));
                let l = choose|l: int| 0 <= l < direita.len() && #[trigger] direita@[l] == p;
                assert(ocorre(saida@, direita@[l] as int));
            }
        }
    }
    saida
}

/// Orders the positions `inicio..fim` by merging the orders of the two halves.
fn ordenar_faixa(codigos: &Vec<u64>, inicio: usize, fim: usize) -> (r: Vec<usize>)
    requires
        inicio <= fim <= codigos.len(),
    ensures
        ordena_faixa(codigos@, r@, inicio as int, fim as int),
    decreases fim - inicio,
{
    let mut unico: Vec<usize> = Vec::new();
    if fim - inicio == 0 {
        return unico;
    }
    if fim - inicio == 1 {
        unico.push(inicio);
        assert(unico@[0] == inicio);
        assert(ocorre(unico@, inicio as int));
        return unico;
    }
    let meio: usize = inicio + (fim - inicio) / 2;
    let esquerda = ordenar_faixa(codigos, inicio, meio);
    let direita = ordenar_faixa(codigos, meio, fim);
    intercalar(codigos, &esquerda, &direita, inicio, meio, fim)
}

/// Lists the positions of `codigos` in ascending order of the encoded numbers,
/// equal numbers in the order given. Encodings that stand for no number have
/// no place in the order and are left out of the inputs.
pub fn ordem_estavel(codigos: &Vec<u64>) -> (r: Vec<usize>)
    requires
        todos_definidos(codigos@),
    ensures
        ordena(codigos@, r@),
        r@ == ordem_de(codigos@),
{
    let ordem = ordenar_faixa(codigos, 0, codigos.len());
    proof {
        assert(ordena(codigos@, ordem@));
        lema_ordem_unica(codigos@, ordem@, ordem_de(codigos@));
    }
    ordem
}

/// Of two distinct positions exactly one comes before the other, and no
/// position comes before itself.
pub proof fn lema_precede_total(codigos: Seq<u64>, a: int, b: int)
    ensures
        !precede(codigos, a, a),
        a != b ==> (precede(codigos, a, b) <==> !precede(codigos, b, a)),
{
}

/// What comes before a position also comes before everything after it.
pub proof fn lema_precede_transitiva(codigos: Seq<u64>, a: int, b: int, c: int)
    requires
        precede(codigos, a, b),
        precede(codigos, b, c),
    ensures
        precede(codigos, a, c),
{
}

/// Along an ascending order the numbers never decrease.
pub proof fn lema_ordem_crescente(codigos: Seq<u64>, ordem: Seq<usize>, i: int, j: int)
    requires
        ordena(codigos, ordem),
        0 <= i <= j < ordem.len(),
    ensures
        posto(codigos[ordem[i] as int]) <= posto(codigos[ordem[j] as int]),
{
    if i < j {
        assert(precede(codigos, ordem[i] as int, ordem[j] as int));
    }
}

/// An ascending order names no position twice.
pub proof fn lema_ordem_sem_repeticao(codigos: Seq<u64>, ordem: Seq<usize>, i: int, j: int)
    requires
        ordena(codigos, ordem),
        0 <= i < ordem.len(),
        0 <= j < ordem.len(),
        i != j,
    ensures
        ordem[i] != ordem[j],
{
    if i < j {
        assert(precede(codigos, ordem[i] as int, ordem[j] as int));
    } else {
        assert(precede(codigos, ordem[j] as int, ordem[i] as int));
    }
}

/// Two ascending orders of the same sample agree on their first `k` places.
proof fn lema_ordens_coincidem_ate(codigos: Seq<u64>, uma: Seq<usize>, outra: Seq<usize>, k: int)
    requires
        ordena(codigos, uma),
        ordena(codigos, outra),
        0 <= k <= codigos.len(),
    ensures
        forall|i: int| 0 <= i < k ==> uma[i] == outra[i],
    decreases k,
{
    if k > 0 {
        lema_ordens_coincidem_ate(codigos, uma, outra, k - 1);
        let p = uma[k - 1];
        let q = outra[k - 1];
        assert(ocorre(outra, p as int));
        assert(ocorre(uma, q as int));
        let m = choose|m: int| 0 <= m < outra.len() && #[trigger] outra[m] == p;
        let n = choose|n: int| 0 <= n < uma.len() && #[trigger] uma[n] == q;
        if m < k - 1 {
            assert(uma[m] == p);
            assert(precede(codigos, uma[m] as int, uma[k - 1] as int));
        } else if n < k - 1 {
            assert(outra[n] == q);
            assert(precede(codigos, outra[n] as int, outra[k - 1] as int));
        } else if m > k - 1 && n > k - 1 {
            assert(precede(codigos, outra[k - 1] as int, outra[m] as int));
            assert(precede(codigos, uma[k - 1] as int, uma[n] as int));
        }
    }
}

/// A sample has one ascending order only: whatever lists its positions in
/// ascending order lists them as `ordem_estavel` does.
pub proof fn lema_ordem_unica(codigos: Seq<u64>, uma: Seq<usize>, outra: Seq<usize>)
    requires
        ordena(codigos, uma),
        ordena(codigos, outra),
    ensures
        uma == outra,
{
    lema_ordens_coincidem_ate(codigos, uma, outra, codigos.len() as int);
    assert(uma =~= outra);
}

/// Finds where a new last position `p` enters an ascending order: after all
/// that come before it.
proof fn lema_ponto_de_entrada(codigos: Seq<u64>, ordem: Seq<usize>, p: int, j: int) -> (k: int)
    requires
        0 <= j <= ordem.len(),
        forall|i: int| 0 <= i < j ==> precede(codigos, #[trigger] ordem[i] as int, p),
    ensures
        j <= k <= ordem.len(),
        forall|i: int| 0 <= i < k ==> precede(codigos, #[trigger] ordem[i] as int, p),
        k < ordem.len() ==> !precede(codigos, ordem[k] as int, p),
    decreases ordem.len() - j,
{
    if j == ordem.len() || !precede(codigos, ordem[j] as int, p) {
        j
    } else {
        lema_ponto_de_entrada(codigos, ordem, p, j + 1)
    }
}

/// Builds an ascending order of the first `n` positions of a sample, one
/// position at a time.
proof fn lema_ordem_do_prefixo(codigos: Seq<u64>, n: nat) -> (ordem: Seq<usize>)
    requires
        n <= codigos.len() <= usize::MAX,
    ensures
        ordena_faixa(codigos, ordem, 0, n as int),
    decreases n,
{
    if n == 0 {
        Seq::empty()
    } else {
        let menor = lema_ordem_do_prefixo(codigos, (n - 1) as nat);
        let p = (n - 1) as usize;
        let k = lema_ponto_de_entrada(codigos, menor, p as int, 0);
        let ordem = menor.insert(k, p);
        assert forall|i: int, j: int| 0 <= i < j < ordem.len() implies precede(
            codigos,
            #[trigger] ordem[i] as int,
            #[trigger] ordem[j] as int,
        ) by {
            if j < k {
                assert(ordem[i] == menor[i] && ordem[j] == menor[j]);
            } else if j == k {
                assert(ordem[i] == menor[i]);
            } else if i < k {
                assert(ordem[i] == menor[i] && ordem[j] == menor[j - 1]);
            } else if i == k {
                assert(ordem[j] == menor[j - 1]);
                assert(menor[k] < p);
                if j - 1 > k {
                    assert(precede(codigos, menor[k] as int, menor[j - 1] as int));
                }
            } else {
                assert(ordem[i] == menor[i - 1] && ordem[j] == menor[j - 1]);
            }
        }
        assert forall|q: int| 0 <= q < n implies #[trigger] ocorre(ordem, q) by {
            if q == p {
                assert(ordem[k] == q);
            } else {
                assert(ocorre(menor, q));
                let i = choose|i: int| 0 <= i < menor.len() && #[trigger] menor[i] == q;
                if i < k {
                    assert(ordem[i] == q);
                } else {
                    assert(ordem[i + 1] == q);
                }
            }
        }
        ordem
    }
}

/// Every sample has an ascending order, as long as the machine can name its
/// positions.
pub proof fn lema_ordem_existe(codigos: Seq<u64>)
    requires
        codigos.len() <= usize::MAX,
    ensures
        ordena(codigos, ordem_de(codigos)),
{
    let ordem = lema_ordem_do_prefixo(codigos, codigos.len());
    assert(ordena(codigos, ordem));
}

/// A sample that is already ascending, equal neighbours included, is its own
/// order: the positions come out as they went in.
pub proof fn lema_ordem_de_crescente(codigos: Seq<u64>, ordem: Seq<usize>)
    requires
        ordena(codigos, ordem),
        forall|i: int, j: int|
            0 <= i <= j < codigos.len() ==> posto(#[trigger] codigos[i]) <= posto(
                #[trigger] codigos[j],
            ),
    ensures
        forall|i: int| 0 <= i < ordem.len() ==> #[trigger] ordem[i] == i,
{
    let identidade = Seq::new(codigos.len(), |i: int| i as usize);
    assert forall|p: int| 0 <= p < codigos.len() implies #[trigger] identidade[p] == p by {
        assert(ocorre(ordem, p));
    }
    assert(ordena(codigos, identidade)) by {
        assert forall|p: int| 0 <= p < codigos.len() implies #[trigger] ocorre(identidade, p) by {
            assert(identidade[p] == p);
        }
    }
    lema_ordem_unica(codigos, ordem, identidade);
}

} // verus!
