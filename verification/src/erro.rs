//! The error kinds shared by every operation of the toolkit, and the rules by
//! which an operation admits or refuses its input from the lengths alone.

use vstd::prelude::*;

verus! {

/// Why an operation refused its input.
#[derive(Debug, Clone, Copy, PartialEq, Eq, Structural)]
pub enum RegressaoError {
    /// Fewer than the two samples that a line needs.
    DadosInsuficientes,
    /// A sequence that must hold at least one sample was empty.
    DadosVazios,
    /// The spread of the data is too small to divide by.
    VarianciaZero,
    /// Two sequences that are read side by side differ in length.
    TamanhosDiferentes,
}

/// Outcome of an operation of the toolkit.
pub type Resultado<T> = Result<T, RegressaoError>;

/// How many samples a fitted line needs at the least.
pub const MINIMO_AMOSTRAS: usize = 2;

impl RegressaoError {
    /// The text shown to a person for each kind.
    pub open spec fn texto(self) -> Seq<char> {
        match self {
            RegressaoError::DadosInsuficientes => "Dados insuficientes para regressão"@,
            RegressaoError::DadosVazios => "Conjunto de dados vazio"@,
            RegressaoError::VarianciaZero => "Variância zero nos dados"@,
            RegressaoError::TamanhosDiferentes => "Vetores com tamanhos diferentes"@,
        }
    }

    /// Renders the kind as its text.
    pub fn mensagem(&self) -> (s: String)
        ensures
            s@ == self.texto(),
    {
        match self {
            RegressaoError::DadosInsuficientes => "Dados insuficientes para regressão".to_owned(),
            RegressaoError::DadosVazios => "Conjunto de dados vazio".to_owned(),
            RegressaoError::VarianciaZero => "Variância zero nos dados".to_owned(),
            RegressaoError::TamanhosDiferentes => "Vetores com tamanhos diferentes".to_owned(),
        }
    }
}

/// What a fit over the positions of a series of `n` samples answers before it
/// computes: an empty series is refused as empty, a single sample as too few.
pub open spec fn admissao_serie(n: nat) -> Resultado<()> {
    if n == 0 {
        Err(RegressaoError::DadosVazios)
    } else if n < MINIMO_AMOSTRAS {
        Err(RegressaoError::DadosInsuficientes)
    } else {
        Ok(())
    }
}

/// What a fit over paired samples answers before it computes, from the number
/// of abscissas `n_x` and of ordinates `n_y`. Emptiness of either side is
/// named first, then a difference in length, then a single pair.
pub open spec fn admissao_pares(n_x: nat, n_y: nat) -> Resultado<()> {
    if n_x == 0 || n_y == 0 {
        Err(RegressaoError::DadosVazios)
    } else if n_x != n_y {
        Err(RegressaoError::TamanhosDiferentes)
    } else if n_x < MINIMO_AMOSTRAS {
        Err(RegressaoError::DadosInsuficientes)
    } else {
        Ok(())
    }
}

/// What a metric that compares `n_real` observed values with `n_previsto`
/// predicted ones answers before it computes.
pub open spec fn admissao_metrica(n_real: nat, n_previsto: nat) -> Resultado<()> {
    if n_real == 0 || n_previsto == 0 {
        Err(RegressaoError::DadosVazios)
    } else if n_real != n_previsto {
        Err(RegressaoError::TamanhosDiferentes)
    } else {
        Ok(())
    }
}

/// What a summary of `n` samples answers before it computes.
pub open spec fn admissao_amostra(n: nat) -> Resultado<()> {
    if n == 0 {
        Err(RegressaoError::DadosVazios)
    } else {
        Ok(())
    }
}

/// Decides whether a series of `n` samples can be fitted over its positions.
pub fn validar_serie(n: usize) -> (r: Resultado<()>)
    ensures
        r == admissao_serie(n as nat),
{
    if n == 0 {
        return Err(RegressaoError::DadosVazios);
    }
    if n < MINIMO_AMOSTRAS {
        return Err(RegressaoError::DadosInsuficientes);
    }
    Ok(())
}

/// Decides whether `n_x` abscissas and `n_y` ordinates can be fitted.
pub fn validar_pares(n_x: usize, n_y: usize) -> (r: Resultado<()>)
    ensures
        r == admissao_pares(n_x as nat, n_y as nat),
{
    if n_x == 0 || n_y == 0 {
        return Err(RegressaoError::DadosVazios);
    }
    if n_x != n_y {
        return Err(RegressaoError::TamanhosDiferentes);
    }
    if n_x < MINIMO_AMOSTRAS {
        return Err(RegressaoError::DadosInsuficientes);
    }
    Ok(())
}

/// Decides whether `n_real` observed and `n_previsto` predicted values can be
/// compared by a metric.
pub fn validar_metrica(n_real: usize, n_previsto: usize) -> (r: Resultado<()>)
    ensures
        r == admissao_metrica(n_real as nat, n_previsto as nat),
{
    if n_real == 0 || n_previsto == 0 {
        return Err(RegressaoError::DadosVazios);
    }
    if n_real != n_previsto {
        return Err(RegressaoError::TamanhosDiferentes);
    }
    Ok(())
}

/// Decides whether `n` samples can be summarised.
pub fn validar_amostra(n: usize) -> (r: Resultado<()>)
    ensures
        r == admissao_amostra(n as nat),
{
    if n == 0 {
        return Err(RegressaoError::DadosVazios);
    }
    Ok(())
}

/// A series that its own fit admits is admitted as paired with its positions,
/// and a series that the fit refuses is refused by the paired fit for the same
/// reason: both entry points fail alike.
pub proof fn lema_serie_como_pares(n: nat)
    ensures
        admissao_serie(n) == admissao_pares(n, n),
{
}

/// Whatever a fit admits, every metric and the summary admit too: a fitted
/// series can always be measured against its own predictions.
pub proof fn lema_ajuste_admite_metricas(n: nat)
    requires
        admissao_serie(n).is_ok(),
    ensures
        admissao_metrica(n, n).is_ok(),
        admissao_amostra(n).is_ok(),
{
}

} // verus!
