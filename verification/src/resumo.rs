//! Which samples a summary reads: the smallest, the greatest and the middle of
//! the ascending order, each named by its position in the sample as given.

use vstd::prelude::*;
use crate::codigo::posto;
use crate::codigo::todos_definidos;
use crate::erro::RegressaoError;
use crate::erro::Resultado;
use crate::ordem::ocorre;
use crate::ordem::ordem_de;
use crate::ordem::ordem_estavel;
use crate::ordem::ordena;
use crate::ordem::precede;

verus! {

/// The middle of a list: one place when the length is odd, the two places
/// that share the middle when it is even.
#[derive(Debug, Clone, Copy, PartialEq, Eq, Structural)]
pub enum Centro {
    /// The single middle place.
    Unico(usize),
    /// The lower and the upper middle place.
    Par(usize, usize),
}

/// The positions, in the sample as given, that a summary reads.
#[derive(Debug, Clone, Copy, PartialEq, Eq, Structural)]
pub struct Selecao {
    /// Where the smallest number stands.
    pub minimo: usize,
    /// Where the greatest number stands.
    pub maximo: usize,
    /// Where the median is read.
    pub centro: Centro,
}

/// The middle places of a list of `n` entries, counted from 0.
pub open spec fn centro_de(n: nat) -> Centro
    recommends
        n > 0,
{
    if n % 2 == 0 {
        Centro::Par((n / 2 - 1) as usize, (n / 2) as usize)
    } else {
        Centro::Unico((n / 2) as usize)
    }
}

/// What a summary reads, given the ascending order of a sample that is not
/// empty: the first and the last of the order, and its middle.
pub open spec fn selecao_em(ordem: Seq<usize>) -> Selecao
    recommends
        ordem.len() > 0,
{
    Selecao {
        minimo: ordem[0],
        maximo: ordem[ordem.len() - 1],
        centro: match centro_de(ordem.len()) {
            Centro::Unico(m) => Centro::Unico(ordem[m as int]),
            Centro::Par(a, b) => Centro::Par(ordem[a as int], ordem[b as int]),
        },
    }
}

/// Finds the middle places of a list of `n` entries; an empty list has none.
pub fn posicoes_centrais(n: usize) -> (r: Resultado<Centro>)
    ensures
        n == 0 ==> r == Err::<Centro, RegressaoError>(RegressaoError::DadosVazios),
        n > 0 ==> r == Ok::<Centro, RegressaoError>(centro_de(n as nat)),
{
    if n == 0 {
        return Err(RegressaoError::DadosVazios);
    }
    let meio: usize = n / 2;
    if n % 2 == 0 {
        Ok(Centro::Par(meio - 1, meio))
    } else {
        Ok(Centro::Unico(meio))
    }
}

/// Reads a summary's positions off an ascending order.
pub fn selecionar_em(ordem: &Vec<usize>) -> (r: Resultado<Selecao>)
    ensures
        ordem.len() == 0 ==> r == Err::<Selecao, RegressaoError>(RegressaoError::DadosVazios),
        ordem.len() > 0 ==> r == Ok::<Selecao, RegressaoError>(selecao_em(ordem@)),
{
    let n: usize = ordem.len();
    let centro = match posicoes_centrais(n)? {
        Centro::Unico(m) => Centro::Unico(ordem[m]),
        Centro::Par(a, b) => Centro::Par(ordem[a], ordem[b]),
    };
    Ok(Selecao { minimo: ordem[0], maximo: ordem[n - 1], centro })
}

/// Selects what a summary of the sample reads. An empty sample is refused;
/// of any other, the smallest, the greatest and the middle of its ascending
/// order are named.
pub fn selecionar(codigos: &Vec<u64>) -> (r: Resultado<Selecao>)
    requires
        todos_definidos(codigos@),
    ensures
        ordena(codigos@, ordem_de(codigos@)),
        codigos.len() == 0 ==> r == Err::<Selecao, RegressaoError>(RegressaoError::DadosVazios),
        codigos.len() > 0 ==> r == Ok::<Selecao, RegressaoError>(selecao_em(ordem_de(codigos@))),
{
    let ordem = ordem_estavel(codigos);
    selecionar_em(&ordem)
}

/// The middle is central: as many places lie before it as after it, and the
/// two places of an even middle are neighbours.
pub proof fn lema_centro_central(n: nat)
    requires
        0 < n <= usize::MAX,
    ensures
        match centro_de(n) {
            Centro::Unico(m) => n % 2 == 1 && m == n - 1 - m,
            Centro::Par(a, b) => n % 2 == 0 && a + 1 == b && a == n - 1 - b,
        },
{
}

/// The selected minimum is the smallest number of the sample, and the first
/// of those equal to it; the selected maximum is the greatest, and the last
/// of those equal to it.
pub proof fn lema_extremos(codigos: Seq<u64>, ordem: Seq<usize>, p: int)
    requires
        ordena(codigos, ordem),
        0 <= p < codigos.len(),
    ensures
        p != selecao_em(ordem).minimo ==> precede(codigos, selecao_em(ordem).minimo as int, p),
        p != selecao_em(ordem).maximo ==> precede(codigos, p, selecao_em(ordem).maximo as int),
        posto(codigos[selecao_em(ordem).minimo as int]) <= posto(codigos[p]) <= posto(
            codigos[selecao_em(ordem).maximo as int],
        ),
{
    assert(ocorre(ordem, p));
    let i = choose|i: int| 0 <= i < ordem.len() && #[trigger] ordem[i] == p;
    let ultimo = ordem.len() - 1;
    if 0 < i {
        assert(precede(codigos, ordem[0] as int, ordem[i] as int));
    }
    if i < ultimo {
        assert(precede(codigos, ordem[i] as int, ordem[ultimo] as int));
    }
}

/// The median is read between the halves of the sample: no number read for
/// it is smaller than one that stands before the middle of the order, nor
/// greater than one that stands after it.
pub proof fn lema_mediana_entre_metades(codigos: Seq<u64>, ordem: Seq<usize>, i: int)
    requires
        ordena(codigos, ordem),
        0 <= i < ordem.len(),
    ensures
        match (centro_de(ordem.len()), selecao_em(ordem).centro) {
            (Centro::Unico(m), Centro::Unico(c)) => {
                &&& c == ordem[m as int]
                &&& i <= m ==> posto(codigos[ordem[i] as int]) <= posto(codigos[c as int])
                &&& i >= m ==> posto(codigos[ordem[i] as int]) >= posto(codigos[c as int])
            },
            (Centro::Par(a, b), Centro::Par(c, d)) => {
                &&& c == ordem[a as int] && d == ordem[b as int]
                &&& posto(codigos[c as int]) <= posto(codigos[d as int])
                &&& i <= a ==> posto(codigos[ordem[i] as int]) <= posto(codigos[c as int])
                &&& i >= b ==> posto(codigos[ordem[i] as int]) >= posto(codigos[d as int])
            },
            _ => false,
        },
{
    let n = ordem.len();
    assert(ocorre(ordem, n - 1));
    match centro_de(n) {
        Centro::Unico(m) => {
            if i < m {
                assert(precede(codigos, ordem[i] as int, ordem[m as int] as int));
            } else if i > m {
                assert(precede(codigos, ordem[m as int] as int, ordem[i] as int));
            }
        },
        Centro::Par(a, b) => {
            assert(precede(codigos, ordem[a as int] as int, ordem[b as int] as int));
            if i < a {
                assert(precede(codigos, ordem[i] as int, ordem[a as int] as int));
            } else if i > b {
                assert(precede(codigos, ordem[b as int] as int, ordem[i] as int));
            }
        },
    }
}

} // verus!
